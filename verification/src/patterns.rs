//! The board patterns that the evaluation features read.
//!
//! There are 16 base patterns; pattern `4 * b + k` is base pattern `b`
//! turned `k` quarter turns clockwise, so that each base pattern is read in
//! all four orientations.
use crate::coordinate::{
    rotate_90_cw_u8, rotated_90_cw, A1, A2, A3, A4, A5, B1, B2, B3, B4, C1, C2, C3, C4, D1, D2, D3,
    D4, E1, E2, E3, E4, E5, F1, F2, F3, F4, F5, F6, G1, G2, G3, G4, G5, G6, G7, H1, H2, H3, H4, H5,
    H6, H7, H8,
};
use vstd::prelude::*;

verus! {

/// The number of patterns: 16 base patterns in four orientations each.
pub const NUM_PATTERNS: usize = 64;

/// The squares of base pattern `b` (0..16), in the order of their digits.
pub open spec fn base_pattern(b: int) -> Seq<u8> {
    if b == 0 {
        // 2nd row line: A2 to H2
        seq![A2, B2, C2, D2, E2, F2, G2, H2]
    } else if b == 1 {
        // 3rd row line: A3 to H3
        seq![A3, B3, C3, D3, E3, F3, G3, H3]
    } else if b == 2 {
        // 4th row line: A4 to H4
        seq![A4, B4, C4, D4, E4, F4, G4, H4]
    } else if b == 3 {
        // main diagonal A1 to H8, with B1 and A2
        seq![A1, B2, C3, D4, E5, F6, G7, H8, B1, A2]
    } else if b == 4 {
        // diagonal B1 to H7
        seq![B1, C2, D3, E4, F5, G6, H7]
    } else if b == 5 {
        // diagonal C1 to H6
        seq![C1, D2, E3, F4, G5, H6]
    } else if b == 6 {
        // diagonal D1 to H5
        seq![D1, E2, F3, G4, H5]
    } else if b == 7 {
        // top edge with B2 and G2
        seq![A1, B1, C1, D1, E1, F1, G1, H1, B2, G2]
    } else if b == 8 {
        // top edge with C2 and F2
        seq![A1, B1, C1, D1, E1, F1, G1, H1, C2, F2]
    } else if b == 9 {
        // top block C1 to F2 with the corners A1 and H1
        seq![C1, D1, E1, F1, C2, D2, E2, F2, A1, H1]
    } else if b == 10 {
        // top block C1-F1, D2-E2, C3-F3
        seq![C1, D1, E1, F1, D2, E2, C3, D3, E3, F3]
    } else if b == 11 {
        // 3x3 corner A1 to C3
        seq![A1, B1, C1, A2, B2, C2, A3, B3, C3]
    } else if b == 12 {
        // corner triangle of 10 squares
        seq![A1, B1, C1, D1, A2, B2, C2, A3, B3, A4]
    } else if b == 13 {
        // corner edges A1 to E1 and A1 to A5 with B2
        seq![A1, B1, C1, D1, E1, A2, B2, A3, A4, A5]
    } else if b == 14 {
        // corner diagonal band
        seq![A1, B1, A2, B2, C2, B3, C3, D3, C4, D4]
    } else {
        // corner diagonal band with gaps
        seq![A1, B1, A2, B2, C2, D2, B3, C3, B4, D4]
    }
}

/// For each digit of base pattern `b`, the digit that holds the mirror
/// image of its square under the pattern's own reflection (left-right for
/// the rows and edges, along a diagonal for the diagonals and corners).
pub open spec fn base_symmetry(b: int) -> Seq<u8> {
    if b == 0 {
        seq![7, 6, 5, 4, 3, 2, 1, 0]
    } else if b == 1 {
        seq![7, 6, 5, 4, 3, 2, 1, 0]
    } else if b == 2 {
        seq![7, 6, 5, 4, 3, 2, 1, 0]
    } else if b == 3 {
        seq![0, 1, 2, 3, 4, 5, 6, 7, 9, 8]
    } else if b == 4 {
        seq![6, 5, 4, 3, 2, 1, 0]
    } else if b == 5 {
        seq![5, 4, 3, 2, 1, 0]
    } else if b == 6 {
        seq![4, 3, 2, 1, 0]
    } else if b == 7 {
        seq![7, 6, 5, 4, 3, 2, 1, 0, 9, 8]
    } else if b == 8 {
        seq![7, 6, 5, 4, 3, 2, 1, 0, 9, 8]
    } else if b == 9 {
        seq![3, 2, 1, 0, 7, 6, 5, 4, 9, 8]
    } else if b == 10 {
        seq![3, 2, 1, 0, 5, 4, 9, 8, 7, 6]
    } else if b == 11 {
        seq![0, 3, 6, 1, 4, 7, 2, 5, 8]
    } else if b == 12 {
        seq![0, 4, 7, 9, 1, 5, 8, 2, 6, 3]
    } else if b == 13 {
        seq![0, 5, 7, 8, 9, 1, 6, 2, 3, 4]
    } else if b == 14 {
        seq![0, 2, 1, 3, 5, 4, 6, 8, 7, 9]
    } else {
        seq![0, 2, 1, 3, 6, 8, 4, 7, 5, 9]
    }
}

/// The reflection of base pattern `b`: left-right for the rows, edges and
/// blocks, along the main diagonal for the long diagonal and the corners, and
/// along the other diagonal for the short diagonals.
pub open spec fn reflect(b: int, c: int) -> int {
    let row = c / 8;
    let col = c % 8;
    if b == 3 || b >= 11 {
        col * 8 + row
    } else if 4 <= b <= 6 {
        (7 - col) * 8 + (7 - row)
    } else {
        row * 8 + (7 - col)
    }
}

/// The mirror table of base pattern `b` is right on its digits `0..n`.
spec fn mirror_table_holds(b: int, n: nat) -> bool
    decreases n,
{
    if n == 0 {
        true
    } else {
        mirror_table_holds(b, (n - 1) as nat) && base_pattern(b)[base_symmetry(b)[n - 1] as int]
            == reflect(b, base_pattern(b)[n - 1] as int)
    }
}

proof fn lemma_mirror_table_holds(b: int, n: nat, i: int)
    requires
        mirror_table_holds(b, n),
        0 <= i < n,
    ensures
        base_pattern(b)[base_symmetry(b)[i] as int] == reflect(b, base_pattern(b)[i] as int),
    decreases n,
{
    if i < n - 1 {
        lemma_mirror_table_holds(b, (n - 1) as nat, i);
    }
}

/// Each mirror table maps every digit to the digit that holds the square's
/// reflection under its base pattern's reflection.
pub proof fn lemma_mirror_tables_reflect(b: int, i: int)
    requires
        0 <= b < 16,
        0 <= i < base_pattern(b).len(),
    ensures
        base_pattern(b)[base_symmetry(b)[i] as int] == reflect(b, base_pattern(b)[i] as int),
{
    lemma_base_pattern_shape(b);
    reveal_with_fuel(mirror_table_holds, 11);
    assert(mirror_table_holds(0, 8));
    assert(mirror_table_holds(1, 8));
    assert(mirror_table_holds(2, 8));
    assert(mirror_table_holds(3, 10));
    assert(mirror_table_holds(4, 7));
    assert(mirror_table_holds(5, 6));
    assert(mirror_table_holds(6, 5));
    assert(mirror_table_holds(7, 10));
    assert(mirror_table_holds(8, 10));
    assert(mirror_table_holds(9, 10));
    assert(mirror_table_holds(10, 10));
    assert(mirror_table_holds(11, 9));
    assert(mirror_table_holds(12, 10));
    assert(mirror_table_holds(13, 10));
    assert(mirror_table_holds(14, 10));
    assert(mirror_table_holds(15, 10));
    lemma_mirror_table_holds(b, base_pattern(b).len(), i);
}

/// The squares of a pattern turned a quarter clockwise.
pub open spec fn rotated_pattern(squares: Seq<u8>) -> Seq<u8> {
    squares.map_values(|c: u8| rotated_90_cw(c as int) as u8)
}

/// The squares of a pattern turned `k` quarter turns clockwise.
pub open spec fn turned(squares: Seq<u8>, k: nat) -> Seq<u8>
    decreases k,
{
    if k == 0 {
        squares
    } else {
        rotated_pattern(turned(squares, (k - 1) as nat))
    }
}

/// The squares of pattern `p` (0..64), in the order of their digits.
pub open spec fn pattern_squares(p: int) -> Seq<u8> {
    turned(base_pattern(p / 4), (p % 4) as nat)
}

/// For each digit of pattern `p`, the digit that holds its mirror image.
pub open spec fn pattern_symmetry(p: int) -> Seq<u8> {
    base_symmetry(p / 4)
}

/// Every square of `squares` is on the board.
pub open spec fn all_on_board(squares: Seq<u8>) -> bool {
    forall|i: int| 0 <= i < squares.len() ==> #[trigger] squares[i] < 64
}

/// The shape of the pattern data: 5 to 10 squares on the board per pattern,
/// and a mirror table that is a permutation of the digits undoing itself.
pub proof fn lemma_base_pattern_shape(b: int)
    requires
        0 <= b < 16,
    ensures
        5 <= base_pattern(b).len() <= 10,
        base_symmetry(b).len() == base_pattern(b).len(),
        all_on_board(base_pattern(b)),
        forall|i: int|
            0 <= i < base_symmetry(b).len() ==> #[trigger] base_symmetry(b)[i] < base_symmetry(
                b,
            ).len(),
        forall|i: int|
            0 <= i < base_symmetry(b).len() ==> base_symmetry(b)[base_symmetry(b)[i] as int]
                == i,
{
}

/// Turning keeps the squares on the board and the pattern's length.
pub proof fn lemma_turned_shape(squares: Seq<u8>, k: nat)
    requires
        all_on_board(squares),
    ensures
        turned(squares, k).len() == squares.len(),
        all_on_board(turned(squares, k)),
    decreases k,
{
    if k > 0 {
        lemma_turned_shape(squares, (k - 1) as nat);
        let prev = turned(squares, (k - 1) as nat);
        assert forall|i: int| 0 <= i < prev.len() implies #[trigger] rotated_pattern(prev)[i] < 64 by {
            assert(prev[i] < 64);
        }
    }
}

/// Pattern `p` has the length of its base pattern, its squares are on the
/// board, and its mirror table has the same length.
pub proof fn lemma_pattern_shape(p: int)
    requires
        0 <= p < 64,
    ensures
        pattern_squares(p).len() == base_pattern(p / 4).len(),
        5 <= pattern_squares(p).len() <= 10,
        pattern_symmetry(p).len() == pattern_squares(p).len(),
        all_on_board(pattern_squares(p)),
{
    lemma_base_pattern_shape(p / 4);
    lemma_turned_shape(base_pattern(p / 4), (p % 4) as nat);
}

/// Turns the squares of a pattern a quarter clockwise.
pub fn rotate_90_cw_pattern<const N: usize>(pattern: &[u8; N]) -> (r: [u8; N])
    requires
        all_on_board(pattern@),
    ensures
        r@ == rotated_pattern(pattern@),
{
    let mut rotated: [u8; N] = *pattern;
    let mut i: usize = 0;
    while i < N
        invariant
            i <= N,
            rotated@.len() == N,
            pattern@.len() == N,
            all_on_board(pattern@),
            forall|k: int| 0 <= k < i ==> #[trigger] rotated@[k] == rotated_90_cw(pattern@[k] as int) as u8,
        decreases N - i,
    {
        assert(pattern@[i as int] < 64);
        rotated[i] = rotate_90_cw_u8(pattern[i]);
        i += 1;
    }
    assert(rotated@ =~= rotated_pattern(pattern@));
    rotated
}

fn rotate_squares(squares: &Vec<u8>) -> (r: Vec<u8>)
    requires
        all_on_board(squares@),
    ensures
        r@ == rotated_pattern(squares@),
{
    let mut rotated: Vec<u8> = Vec::new();
    let mut i: usize = 0;
    while i < squares.len()
        invariant
            i <= squares.len(),
            all_on_board(squares@),
            rotated@.len() == i,
            forall|k: int| 0 <= k < i ==> #[trigger] rotated@[k] == rotated_90_cw(squares@[k] as int) as u8,
        decreases squares.len() - i,
    {
        assert(squares@[i as int] < 64);
        rotated.push(rotate_90_cw_u8(squares[i]));
        i += 1;
    }
    assert(rotated@ =~= rotated_pattern(squares@));
    rotated
}

fn base_pattern_squares(b: usize) -> (r: Vec<u8>)
    requires
        b < 16,
    ensures
        r@ == base_pattern(b as int),
{
    let r = match b {
        0 => vec![A2, B2, C2, D2, E2, F2, G2, H2],
        1 => vec![A3, B3, C3, D3, E3, F3, G3, H3],
        2 => vec![A4, B4, C4, D4, E4, F4, G4, H4],
        3 => vec![A1, B2, C3, D4, E5, F6, G7, H8, B1, A2],
        4 => vec![B1, C2, D3, E4, F5, G6, H7],
        5 => vec![C1, D2, E3, F4, G5, H6],
        6 => vec![D1, E2, F3, G4, H5],
        7 => vec![A1, B1, C1, D1, E1, F1, G1, H1, B2, G2],
        8 => vec![A1, B1, C1, D1, E1, F1, G1, H1, C2, F2],
        9 => vec![C1, D1, E1, F1, C2, D2, E2, F2, A1, H1],
        10 => vec![C1, D1, E1, F1, D2, E2, C3, D3, E3, F3],
        11 => vec![A1, B1, C1, A2, B2, C2, A3, B3, C3],
        12 => vec![A1, B1, C1, D1, A2, B2, C2, A3, B3, A4],
        13 => vec![A1, B1, C1, D1, E1, A2, B2, A3, A4, A5],
        14 => vec![A1, B1, A2, B2, C2, B3, C3, D3, C4, D4],
        _ => vec![A1, B1, A2, B2, C2, D2, B3, C3, B4, D4],
    };
    assert(r@ =~= base_pattern(b as int));
    r
}

/// Returns the squares of pattern `pattern_index` (0..64), in the order of
/// their digits.
pub fn pattern(pattern_index: usize) -> (r: Vec<u8>)
    requires
        pattern_index < NUM_PATTERNS,
    ensures
        r@ == pattern_squares(pattern_index as int),
{
    let b = pattern_index / 4;
    let turns = pattern_index % 4;
    proof {
        lemma_base_pattern_shape(b as int);
    }
    let mut squares = base_pattern_squares(b);
    let mut k: usize = 0;
    while k < turns
        invariant
            k <= turns,
            b < 16,
            squares@ == turned(base_pattern(b as int), k as nat),
            all_on_board(base_pattern(b as int)),
        decreases turns - k,
    {
        proof {
            lemma_turned_shape(base_pattern(b as int), k as nat);
        }
        squares = rotate_squares(&squares);
        k += 1;
    }
    squares
}

/// Returns, for each digit of pattern `pattern_index` (0..64), the digit
/// that holds the mirror image of its square.
pub fn get_symmetric_pattern_indices(pattern_index: usize) -> (r: Vec<u8>)
    requires
        pattern_index < NUM_PATTERNS,
    ensures
        r@ == pattern_symmetry(pattern_index as int),
{
    let r = match pattern_index / 4 {
        0 => vec![7, 6, 5, 4, 3, 2, 1, 0],
        1 => vec![7, 6, 5, 4, 3, 2, 1, 0],
        2 => vec![7, 6, 5, 4, 3, 2, 1, 0],
        3 => vec![0, 1, 2, 3, 4, 5, 6, 7, 9, 8],
        4 => vec![6, 5, 4, 3, 2, 1, 0],
        5 => vec![5, 4, 3, 2, 1, 0],
        6 => vec![4, 3, 2, 1, 0],
        7 => vec![7, 6, 5, 4, 3, 2, 1, 0, 9, 8],
        8 => vec![7, 6, 5, 4, 3, 2, 1, 0, 9, 8],
        9 => vec![3, 2, 1, 0, 7, 6, 5, 4, 9, 8],
        10 => vec![3, 2, 1, 0, 5, 4, 9, 8, 7, 6],
        11 => vec![0, 3, 6, 1, 4, 7, 2, 5, 8],
        12 => vec![0, 4, 7, 9, 1, 5, 8, 2, 6, 3],
        13 => vec![0, 5, 7, 8, 9, 1, 6, 2, 3, 4],
        14 => vec![0, 2, 1, 3, 5, 4, 6, 8, 7, 9],
        _ => vec![0, 2, 1, 3, 6, 8, 4, 7, 5, 9],
    };
    assert(r@ =~= pattern_symmetry(pattern_index as int));
    r
}

} // verus!
