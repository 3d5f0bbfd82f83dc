//! Board positions, held as one-bit masks.
use crate::bits::{bit_set, group_bits, lemma_popcount_below_one, lemma_popcount_square_bit, popcount, square_bit};
use vstd::prelude::*;
use vstd::std_specs::bits::{axiom_u64_trailing_zeros, u64_trailing_zeros};
use vstd::string::{StrSliceExecFns, StringExecFns, StringSliceAdditionalSpecFns};

verus! {

/// The mask of the square with index `index` (0..64); 0 for the pass index 64.
pub open spec fn position_bit(index: int) -> u64 {
    if 0 <= index < 64 {
        square_bit(index as u64)
    } else {
        0
    }
}

/// The index that a mask with at most one bit stands for: the bit's number,
/// or 64 for the empty mask.
pub open spec fn index_of_bit(bit: u64) -> int {
    if bit == 0 {
        64
    } else {
        u64_trailing_zeros(bit) as int
    }
}

/// A square's mask holds its index.
pub proof fn lemma_index_of_square(i: int)
    requires
        0 <= i <= 64,
    ensures
        index_of_bit(position_bit(i)) == i,
{
    broadcast use group_bits;

    if i < 64 {
        let k = i as u64;
        let b = square_bit(k);
        assert(b != 0) by (bit_vector)
            requires
                b == 1u64 << k,
                k < 64,
        ;
        axiom_u64_trailing_zeros(b);
        let t = u64_trailing_zeros(b);
        assert(bit_set(b, i as u64));
        if t < i {
            assert(bit_set(b, t as u64));
        }
    }
}

/// Distinct indices have distinct masks.
pub proof fn lemma_position_bit_injective(i: int, j: int)
    requires
        0 <= i <= 64,
        0 <= j <= 64,
        position_bit(i) == position_bit(j),
    ensures
        i == j,
{
    lemma_index_of_square(i);
    lemma_index_of_square(j);
}

/// The letter of column `col` (0..8): 'A' to 'H'.
pub open spec fn column_char(col: int) -> char {
    (65 + col) as char
}

/// The digit of row `row` (0..8): '1' to '8'.
pub open spec fn row_char(row: int) -> char {
    (49 + row) as char
}

/// The characters of "PASS".
pub open spec fn pass_chars() -> Seq<char> {
    seq!['P', 'A', 'S', 'S']
}

/// The name of the position with index `index`: column letter then row digit
/// ("A1" to "H8"), or "PASS" for 64.
pub open spec fn position_name(index: int) -> Seq<char> {
    if 0 <= index < 64 {
        seq![column_char(index % 8), row_char(index / 8)]
    } else {
        pass_chars()
    }
}

/// `c` in ASCII upper case: 'a' to 'z' become 'A' to 'Z', every other
/// character stays.
pub open spec fn ascii_upper(c: char) -> char {
    if 'a' <= c <= 'z' {
        ((c as u32) - 32) as char
    } else {
        c
    }
}

/// The index named by a position name: "PASS" is 64; otherwise a column
/// letter (either case) and a row digit, as in "A1" or "h8".
pub open spec fn parse_name(s: Seq<char>) -> Option<int> {
    if s == pass_chars() {
        Some(64)
    } else if s.len() == 2 && 'A' <= ascii_upper(s[0]) <= 'H' && '1' <= s[1] <= '8' {
        Some((s[1] as int - 49) * 8 + (ascii_upper(s[0]) as int - 65))
    } else {
        None
    }
}

/// Parsing a position's name gives the position back.
pub proof fn lemma_parse_name_of_position(index: int)
    requires
        0 <= index <= 64,
    ensures
        parse_name(position_name(index)) == Some(index),
{
    if index < 64 {
        assert(position_name(index) != pass_chars());
    }
}

fn ascii_uppercase(c: char) -> (r: char)
    ensures
        r == ascii_upper(c),
{
    if 'a' <= c && c <= 'z' {
        ((c as u32) - 32) as u8 as char
    } else {
        c
    }
}

fn column_str(col: usize) -> (r: &'static str)
    requires
        col < 8,
    ensures
        r@ == seq![column_char(col as int)],
{
    proof {
        reveal_strlit("A");
        reveal_strlit("B");
        reveal_strlit("C");
        reveal_strlit("D");
        reveal_strlit("E");
        reveal_strlit("F");
        reveal_strlit("G");
        reveal_strlit("H");
    }
    match col {
        0 => "A",
        1 => "B",
        2 => "C",
        3 => "D",
        4 => "E",
        5 => "F",
        6 => "G",
        _ => "H",
    }
}

pub(crate) fn row_str(row: usize) -> (r: &'static str)
    requires
        row < 8,
    ensures
        r@ == seq![row_char(row as int)],
{
    proof {
        reveal_strlit("1");
        reveal_strlit("2");
        reveal_strlit("3");
        reveal_strlit("4");
        reveal_strlit("5");
        reveal_strlit("6");
        reveal_strlit("7");
        reveal_strlit("8");
    }
    match row {
        0 => "1",
        1 => "2",
        2 => "3",
        3 => "4",
        4 => "5",
        5 => "6",
        6 => "7",
        _ => "8",
    }
}

/// A board position: one square, or the pass.
#[derive(Debug, Clone, Copy, PartialEq, Eq, Hash)]
pub struct Position {
    bit: u64,
}

impl View for Position {
    type V = int;

    /// The square's index `row * 8 + col`, or 64 for the pass.
    closed spec fn view(&self) -> int {
        index_of_bit(self.bit)
    }
}

impl Position {
    #[verifier::type_invariant]
    spec fn holds_one_square(self) -> bool {
        position_bit(index_of_bit(self.bit)) == self.bit && 0 <= index_of_bit(self.bit) <= 64
    }

    /// Creates a new `Position` from the given row and column (both 0..8).
    pub fn new(row: usize, col: usize) -> (r: Self)
        requires
            row < 8 && col < 8,
        ensures
            r@ == row * 8 + col,
    {
        let i = row * 8 + col;
        proof {
            lemma_index_of_square(i as int);
        }
        Self { bit: 1u64 << (i as u64) }
    }

    /// Creates a position from its mask, which must have at most one bit set.
    pub fn from_bit(bit: u64) -> (r: Result<Self, &'static str>)
        ensures
            r is Ok <==> (popcount(bit) == 1 || bit == 0),
            r matches Ok(p) ==> position_bit(p@) == bit,
            r matches Err(e) ==> e == "Invalid bit. Must be a single bit or 0.",
    {
        if crate::bits::count_ones(bit) == 1 || bit == 0 {
            proof {
                if bit != 0 {
                    broadcast use group_bits;

                    let j = lemma_popcount_below_one(bit, 64);
                    assert forall|i: u64| i < 64 implies #[trigger] bit_set(bit, i) == bit_set(
                        square_bit(j),
                        i,
                    ) by {}
                    crate::bits::lemma_bits_ext(bit, square_bit(j));
                    lemma_index_of_square(j as int);
                } else {
                    lemma_index_of_square(64);
                }
            }
            Ok(Self { bit })
        } else {
            Err("Invalid bit. Must be a single bit or 0.")
        }
    }

    /// Returns the position's mask.
    pub fn to_bit(&self) -> (r: u64)
        ensures
            r == position_bit(self@),
            0 <= self@ <= 64,
    {
        proof {
            use_type_invariant(self);
        }
        self.bit
    }

    /// The pass: the position that names no square.
    pub fn pass() -> (r: Self)
        ensures
            r@ == 64,
    {
        proof {
            lemma_index_of_square(64);
        }
        Self { bit: 0 }
    }

    /// Creates the position with index `idx` (`row * 8 + col`); any index of
    /// 64 or more gives the pass.
    pub fn from_u8(idx: u8) -> (r: Self)
        ensures
            r@ == if idx < 64 {
                idx as int
            } else {
                64
            },
    {
        if idx >= 64 {
            return Self::pass();
        }
        let row = (idx / 8) as usize;
        let col = (idx % 8) as usize;
        Position::new(row, col)
    }

    /// Returns the position's index (0..64), or 64 for the pass.
    pub fn to_u8(&self) -> (r: u8)
        ensures
            r == self@,
            r <= 64,
    {
        proof {
            use_type_invariant(self);
        }
        if let Some((row, col)) = self.to_row_col() {
            (row * 8 + col) as u8
        } else {
            64
        }
    }

    /// Returns the row and column (both 0..8) of the position, or `None` for
    /// the pass.
    pub fn to_row_col(&self) -> (r: Option<(usize, usize)>)
        ensures
            self@ == 64 ==> r is None,
            self@ < 64 ==> r == Some(((self@ / 8) as usize, (self@ % 8) as usize)),
    {
        proof {
            use_type_invariant(self);
            axiom_u64_trailing_zeros(self.bit);
        }
        let index = self.bit.trailing_zeros() as usize;
        if index == 64 {
            return None;
        }
        Some((index / 8, index % 8))
    }

    /// Parses a position name: "PASS", or a column letter A-H (either case)
    /// followed by a row digit 1-8.
    pub fn from_str(s: &str) -> (r: Result<Position, String>)
        requires
            s.spec_bytes().len() <= usize::MAX,
            s.spec_bytes().len() == 2 ==> s@.len() == 2,
        ensures
            r is Ok <==> parse_name(s@) is Some,
            r matches Ok(p) ==> parse_name(s@) == Some(p@),
            r matches Err(e) ==> if s.spec_bytes().len() != 2 {
                e@ == "Invalid format. Expected format: A1"@
            } else {
                e@ == "Position out of range. Valid range: A1 to H8"@
            },
    {
        let n = s.unicode_len();
        if n == 4 && s.get_char(0) == 'P' && s.get_char(1) == 'A' && s.get_char(2) == 'S'
            && s.get_char(3) == 'S' {
            assert(s@ == pass_chars());
            return Ok(Position::pass());
        }
        assert(s@ != pass_chars());
        if s.len() != 2 {
            proof {
                if parse_name(s@) is Some {
                    assert(vstd::utf8::is_ascii_chars(s@));
                    vstd::utf8::is_ascii_chars_encode_utf8(s@);
                }
            }
            return Err(String::from_str("Invalid format. Expected format: A1"));
        }
        let col = ascii_uppercase(s.get_char(0));
        let row = s.get_char(1);
        if !('A' <= col && col <= 'H') || !('1' <= row && row <= '8') {
            return Err(String::from_str("Position out of range. Valid range: A1 to H8"));
        }
        let row_index = ((row as u32) - 49) as usize;
        let col_index = ((col as u32) - 65) as usize;
        Ok(Position::new(row_index, col_index))
    }

    /// The position's name: "A1" to "H8", or "PASS".
    pub fn to_string(&self) -> (r: String)
        ensures
            r@ == position_name(self@),
    {
        if let Some((row, col)) = self.to_row_col() {
            let name = String::from_str(column_str(col));
            name.concat(row_str(row))
        } else {
            proof {
                reveal_strlit("PASS");
            }
            String::from_str("PASS")
        }
    }
}

/// Combining two positions gives the mask of both squares.
impl core::ops::BitOr for Position {
    type Output = u64;

    fn bitor(self, rhs: Self) -> (r: u64) {
        self.to_bit() | rhs.to_bit()
    }
}

impl vstd::std_specs::ops::BitOrSpecImpl for Position {
    open spec fn obeys_bitor_spec() -> bool {
        true
    }

    open spec fn bitor_req(self, rhs: Position) -> bool {
        true
    }

    open spec fn bitor_spec(self, rhs: Position) -> u64 {
        position_bit(self@) | position_bit(rhs@)
    }
}

/// Adding a position to a mask sets the position's square.
impl core::ops::BitOr<Position> for u64 {
    type Output = u64;

    fn bitor(self, rhs: Position) -> (r: u64) {
        self | rhs.to_bit()
    }
}

impl vstd::std_specs::ops::BitOrSpecImpl<Position> for u64 {
    open spec fn obeys_bitor_spec() -> bool {
        true
    }

    open spec fn bitor_req(self, rhs: Position) -> bool {
        true
    }

    open spec fn bitor_spec(self, rhs: Position) -> u64 {
        self | position_bit(rhs@)
    }
}

/// Adding a mask to a position sets the position's square.
impl core::ops::BitOr<u64> for Position {
    type Output = u64;

    fn bitor(self, rhs: u64) -> (r: u64) {
        self.to_bit() | rhs
    }
}

impl vstd::std_specs::ops::BitOrSpecImpl<u64> for Position {
    open spec fn obeys_bitor_spec() -> bool {
        true
    }

    open spec fn bitor_req(self, rhs: u64) -> bool {
        true
    }

    open spec fn bitor_spec(self, rhs: u64) -> u64 {
        position_bit(self@) | rhs
    }
}

} // verus!
