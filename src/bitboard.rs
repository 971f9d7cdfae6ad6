//! The 64-bit occupancy mask and the square numbering it rests on.
use vstd::prelude::*;

verus! {

/// A set of squares: bit `i` is set when square `i` is a member.
pub type Bitboard = u64;

/// Whether bit `i` of `b` is set.
pub open spec fn has_bit(b: u64, i: u64) -> bool {
    (b >> i) & 1u64 == 1u64
}

/// The squares that `b` holds, as indices in `0..64`.
pub open spec fn squares_of(b: u64) -> Set<int> {
    Set::new(|i: int| 0 <= i < 64 && has_bit(b, i as u64))
}

/// Rank and file both lie in `1..=8`.
pub open spec fn on_board(rank: int, file: int) -> bool {
    1 <= rank <= 8 && 1 <= file <= 8
}

/// The index of the square at `rank`, `file` (both counted from 1).
pub open spec fn square_of(rank: int, file: int) -> int {
    (file - 1) + (rank - 1) * 8
}

/// The rank (1 to 8) of square index `i`.
pub open spec fn rank_of(i: int) -> int {
    i / 8 + 1
}

/// The file (1 to 8) of square index `i`.
pub open spec fn file_of(i: int) -> int {
    i % 8 + 1
}

/// The square at `rank`, `file` as a set: empty when it lies off the board.
pub open spec fn cell(rank: int, file: int) -> Set<int> {
    if on_board(rank, file) {
        set![square_of(rank, file)]
    } else {
        Set::empty()
    }
}

proof fn lemma_bit_or_single(b: u64, j: u64, i: u64)
    requires
        i < 64,
        j < 64,
    ensures
        has_bit(b | (1u64 << j), i) == (has_bit(b, i) || i == j),
{
    assert(((b | (1u64 << j)) >> i) & 1u64 == 1u64 <==> (((b >> i) & 1u64 == 1u64) || i == j))
        by (bit_vector)
        requires
            i < 64,
            j < 64,
    ;
}

/// No bit of the empty mask is set.
pub proof fn lemma_empty_mask()
    ensures
        squares_of(0u64) == Set::<int>::empty(),
{
    assert forall|i: u64| i < 64 implies !has_bit(0u64, i) by {
        assert((0u64 >> i) & 1u64 == 0u64) by (bit_vector);
    }
    assert(squares_of(0u64) =~= Set::<int>::empty());
}

/// Two single-bit masks are equal only for the same square.
pub proof fn lemma_single_bit_injective(i: u64, j: u64)
    requires
        i < 64,
        j < 64,
        (1u64 << i) == (1u64 << j),
    ensures
        i == j,
{
    assert(i < 64 && j < 64 && (1u64 << i) == (1u64 << j) ==> i == j) by (bit_vector);
}

/// `b` holds exactly the square `i`.
pub open spec fn single_at(b: u64, i: int) -> bool {
    0 <= i < 64 && b == (1u64 << (i as u64))
}

/// The square of a single-square mask, or `None` when `b` holds no square or
/// more than one.
pub fn single_square(b: Bitboard) -> (r: Option<usize>)
    ensures
        match r {
            Some(i) => single_at(b, i as int),
            None => forall|i: int| !single_at(b, i),
        },
{
    let mut i: u64 = 0;
    while i < 64
        invariant
            i <= 64,
            forall|j: int| 0 <= j < i ==> !single_at(b, j),
        decreases 64 - i,
    {
        if b == 1u64 << i {
            return Some(i as usize);
        }
        i = i + 1;
    }
    None
}

/// Adds the square at `rank`, `file` to `bitboard`. A coordinate outside
/// `1..=8` on either axis leaves the mask as it was, so that a walk along a
/// line may step past the edge of the board.
pub fn set_bit(bitboard: Bitboard, row_col: (i64, i64)) -> (r: Bitboard)
    ensures
        squares_of(r) == squares_of(bitboard) + cell(row_col.0 as int, row_col.1 as int),
        !on_board(row_col.0 as int, row_col.1 as int) ==> r == bitboard,
        on_board(row_col.0 as int, row_col.1 as int) ==> r == bitboard | (1u64 << (square_of(
            row_col.0 as int,
            row_col.1 as int,
        ) as u64)),
{
    let row = row_col.0;
    let col = row_col.1;
    if row < 1 || row > 8 || col < 1 || col > 8 {
        proof {
            assert(squares_of(bitboard) + Set::<int>::empty() =~= squares_of(bitboard));
        }
        return bitboard;
    }
    let idx: u64 = ((col - 1) + (row - 1) * 8) as u64;
    let r = bitboard | (1u64 << idx);
    proof {
        assert forall|i: u64| i < 64 implies has_bit(r, i) == (has_bit(bitboard, i) || i == idx) by {
            lemma_bit_or_single(bitboard, idx, i);
        }
        assert(squares_of(r) =~= squares_of(bitboard) + cell(row as int, col as int));
    }
    r
}

/// The index of the lowest set bit of a non-empty mask.
pub fn bit_scan(bitboard: Bitboard) -> (r: usize)
    requires
        bitboard != 0,
    ensures
        r < 64,
        has_bit(bitboard, r as u64),
        forall|j: u64| j < r ==> !has_bit(bitboard, j),
{
    let mut i: u64 = 0;
    assert(bitboard >> 0u64 == bitboard) by (bit_vector);
    while (bitboard >> i) & 1u64 == 0
        invariant
            i < 64,
            bitboard >> i != 0,
            forall|j: u64| j < i ==> !has_bit(bitboard, j),
        decreases 64 - i,
    {
        assert((bitboard >> i) != 0 && (bitboard >> i) & 1u64 == 0 && i < 64 ==> i < 63 && (
        bitboard >> (i + 1) as u64) != 0) by (bit_vector);
        i = i + 1;
    }
    assert((bitboard >> i) & 1u64 != 0 ==> (bitboard >> i) & 1u64 == 1u64) by (bit_vector);
    let r = i as usize;
    assert(r as u64 == i);
    r
}

/// The index of the highest set bit of a non-empty mask.
pub fn bit_scan_backwards(bitboard: Bitboard) -> (r: usize)
    requires
        bitboard != 0,
    ensures
        r < 64,
        has_bit(bitboard, r as u64),
        forall|j: u64| r < j < 64 ==> !has_bit(bitboard, j),
{
    let mut i: u64 = 63;
    assert((bitboard >> 63u64) >> 1u64 == 0) by (bit_vector);
    while (bitboard >> i) & 1u64 == 0
        invariant
            i < 64,
            bitboard != 0,
            (bitboard >> i) >> 1u64 == 0,
        decreases i,
    {
        assert(bitboard != 0 && i < 64 && (bitboard >> i) >> 1u64 == 0 && (bitboard >> i) & 1u64
            == 0 ==> i > 0 && (bitboard >> (i - 1) as u64) >> 1u64 == 0) by (bit_vector);
        i = i - 1;
    }
    assert forall|j: u64| i < j < 64 implies !has_bit(bitboard, j) by {
        assert(i < j && j < 64 && (bitboard >> i) >> 1u64 == 0 ==> (bitboard >> j) & 1u64 == 0)
            by (bit_vector);
    }
    assert((bitboard >> i) & 1u64 != 0 ==> (bitboard >> i) & 1u64 == 1u64) by (bit_vector);
    let r = i as usize;
    assert(r as u64 == i);
    r
}

/// One character of a mask drawing: `X` on the marked square, `1` on a
/// member square, `.` elsewhere.
pub open spec fn mask_char(b: u64, mark: Option<usize>, i: int) -> char {
    if mark == Some(i as usize) {
        'X'
    } else if has_bit(b, i as u64) {
        '1'
    } else {
        '.'
    }
}

/// The drawing of rank `row` (counted from 0): its eight squares from file a
/// to file h, then a line break.
pub open spec fn mask_row(b: u64, mark: Option<usize>, row: int) -> Seq<char> {
    Seq::new(8, |c: int| mask_char(b, mark, row * 8 + c)).push('\n')
}

/// The drawing of the top `n` ranks, highest rank first.
pub open spec fn mask_text(b: u64, mark: Option<usize>, n: nat) -> Seq<char>
    decreases n,
{
    if n == 0 {
        Seq::empty()
    } else {
        mask_text(b, mark, (n - 1) as nat) + mask_row(b, mark, 8 - n)
    }
}

/// Draws `bitboard` as eight lines of eight characters, rank 8 first; the
/// square `mark`, if any, is drawn as `X`.
pub fn bitboard_to_string(bitboard: Bitboard, mark: Option<usize>) -> (r: String)
    ensures
        r@ == mask_text(bitboard, mark, 8),
{
    let mut board = String::new();
    let mut t: usize = 0;
    while t < 8
        invariant
            t <= 8,
            board@ == mask_text(bitboard, mark, t as nat),
        decreases 8 - t,
    {
        let row: usize = 7 - t;
        let ghost start = board@;
        let mut c: usize = 0;
        while c < 8
            invariant
                t < 8,
                row == 7 - t,
                c <= 8,
                start == mask_text(bitboard, mark, t as nat),
                board@ == start + Seq::new(c as nat, |k: int| mask_char(bitboard, mark, row * 8 + k)),
            decreases 8 - c,
        {
            let i: usize = row * 8 + c;
            let ghost before = board@;
            let marked = match mark {
                Some(idx) => idx == i,
                None => false,
            };
            if marked {
                proof {
                    reveal_strlit("X");
                }
                board.append("X");
            } else if (bitboard >> (i as u64)) & 1u64 == 1u64 {
                proof {
                    reveal_strlit("1");
                }
                board.append("1");
            } else {
                proof {
                    reveal_strlit(".");
                }
                board.append(".");
            }
            assert(board@ =~= start + Seq::new((c + 1) as nat, |k: int| mask_char(bitboard, mark, row * 8 + k)));
            c = c + 1;
        }
        proof {
            reveal_strlit("\n");
        }
        board.append("\n");
        assert(board@ =~= mask_text(bitboard, mark, (t + 1) as nat));
        t = t + 1;
    }
    board
}

} // verus!
