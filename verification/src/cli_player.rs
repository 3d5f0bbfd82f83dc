//! The decisions of a player who types moves at a terminal: each line is
//! trimmed, read as a position name, and accepted when it names a legal move.
use crate::game::Game;
use crate::position::{parse_name, Position};
use crate::rules::is_legal_move;
use vstd::prelude::*;
use vstd::string::{StrSliceExecFns, StringSliceAdditionalSpecFns};
use vstd::utf8::encode_utf8;

verus! {

/// The Unicode `White_Space` characters.
pub open spec fn is_white_space(c: char) -> bool {
    let u = c as u32;
    ||| 0x09 <= u <= 0x0D
    ||| u == 0x20
    ||| u == 0x85
    ||| u == 0xA0
    ||| u == 0x1680
    ||| 0x2000 <= u <= 0x200A
    ||| u == 0x2028
    ||| u == 0x2029
    ||| u == 0x202F
    ||| u == 0x205F
    ||| u == 0x3000
}

/// `s` without its leading white space.
pub open spec fn trim_start(s: Seq<char>) -> Seq<char>
    decreases s.len(),
{
    if s.len() > 0 && is_white_space(s[0]) {
        trim_start(s.drop_first())
    } else {
        s
    }
}

/// `s` without its trailing white space.
pub open spec fn trim_end(s: Seq<char>) -> Seq<char>
    decreases s.len(),
{
    if s.len() > 0 && is_white_space(s.last()) {
        trim_end(s.drop_last())
    } else {
        s
    }
}

/// `s` without its leading and trailing white space.
pub open spec fn trimmed(s: Seq<char>) -> Seq<char> {
    trim_end(trim_start(s))
}

/// Whether `c` is a Unicode `White_Space` character.
pub fn is_white_space_char(c: char) -> (r: bool)
    ensures
        r == is_white_space(c),
{
    let u = c as u32;
    (0x09 <= u && u <= 0x0D) || u == 0x20 || u == 0x85 || u == 0xA0 || u == 0x1680 || (0x2000 <= u
        && u <= 0x200A) || u == 0x2028 || u == 0x2029 || u == 0x202F || u == 0x205F || u == 0x3000
}

/// The UTF-8 encoding of two strings one after the other is the encoding of
/// the first followed by that of the second.
pub proof fn lemma_encode_utf8_concat(a: Seq<char>, b: Seq<char>)
    ensures
        encode_utf8(a + b) == encode_utf8(a) + encode_utf8(b),
    decreases a.len(),
{
    if a.len() == 0 {
        assert(a + b =~= b);
        assert(encode_utf8(a) + encode_utf8(b) =~= encode_utf8(b));
    } else {
        lemma_encode_utf8_concat(a.drop_first(), b);
        assert((a + b).drop_first() =~= a.drop_first() + b);
        assert((a + b)[0] == a[0]);
        assert(encode_utf8(a + b) =~= encode_utf8(a) + encode_utf8(b));
    }
}

/// Returns `s` without its leading and trailing white space.
pub fn trim_line(s: &str) -> (r: &str)
    ensures
        r@ == trimmed(s@),
        exists|i: int, j: int| 0 <= i <= j <= s@.len() && r@ == s@.subrange(i, j),
{
    let n = s.unicode_len();
    let mut i: usize = 0;
    assert(s@.subrange(0, n as int) =~= s@);
    while i < n && is_white_space_char(s.get_char(i))
        invariant
            i <= n == s@.len(),
            trim_start(s@) == trim_start(s@.subrange(i as int, n as int)),
        decreases n - i,
    {
        assert(s@.subrange(i as int, n as int).drop_first() =~= s@.subrange(i + 1, n as int));
        i += 1;
    }
    assert(trim_start(s@) == s@.subrange(i as int, n as int));
    let mut j: usize = n;
    while j > i && is_white_space_char(s.get_char(j - 1))
        invariant
            i <= j <= n == s@.len(),
            trim_start(s@) == s@.subrange(i as int, n as int),
            trimmed(s@) == trim_end(s@.subrange(i as int, j as int)),
        decreases j - i,
    {
        assert(s@.subrange(i as int, j as int).drop_last() =~= s@.subrange(i as int, j - 1));
        j -= 1;
    }
    s.substring_char(i, j)
}

/// What a terminal player does with one line of input.
pub enum CliInput {
    /// The line names a legal move: play it.
    Selected(Position),
    /// The line names a position that is not a legal move: ask again.
    InvalidPosition,
    /// The line names no position: give up, with the parser's message.
    Failed(String),
}

/// A player who types moves at a terminal.
pub struct CliPlayer;

impl CliPlayer {
    /// Decides on one line of input: the line, trimmed, is read as a
    /// position name; a legal move of the player to move is selected, any
    /// other position asks for another line, and a line that names no
    /// position gives up with the parser's message.
    pub fn handle_input(&self, game: &Game, input: &str) -> (r: CliInput)
        requires
            input.spec_bytes().len() <= usize::MAX,
            encode_utf8(trimmed(input@)).len() == 2 ==> trimmed(input@).len() == 2,
        ensures
            match parse_name(trimmed(input@)) {
                Some(i) => if is_legal_move(game.mover_stones(), game.waiting_stones(), i) {
                    r matches CliInput::Selected(p) && p@ == i
                } else {
                    r is InvalidPosition
                },
                None => r matches CliInput::Failed(e) && e@ == if encode_utf8(
                    trimmed(input@),
                ).len() != 2 {
                    "Invalid format. Expected format: A1"@
                } else {
                    "Position out of range. Valid range: A1 to H8"@
                },
            },
    {
        let line = trim_line(input);
        proof {
            let (i, j) = choose|i: int, j: int|
                0 <= i <= j <= input@.len() && line@ == input@.subrange(i, j);
            let s = input@;
            assert(s =~= s.subrange(0, i) + s.subrange(i, j) + s.subrange(j, s.len() as int));
            lemma_encode_utf8_concat(s.subrange(0, i) + s.subrange(i, j), s.subrange(j, s.len() as int));
            lemma_encode_utf8_concat(s.subrange(0, i), s.subrange(i, j));
        }
        match Position::from_str(line) {
            Ok(p) => {
                if game.is_valid_move(p) {
                    CliInput::Selected(p)
                } else {
                    CliInput::InvalidPosition
                }
            },
            Err(e) => CliInput::Failed(e),
        }
    }
}

} // verus!
