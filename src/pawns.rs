//! Pawn pushes and pawn captures as geometric masks, per square and color.
use vstd::prelude::*;
use crate::bitboard::{Bitboard, set_bit, squares_of, cell, on_board, square_of, rank_of, file_of};
use crate::piece::Color;

verus! {

/// The squares a pawn of `color` on (`rank`, `file`) may push to: one rank
/// ahead, and two from its starting rank. None from either back rank.
pub open spec fn push_targets(rank: int, file: int, color: Color) -> Set<int> {
    if rank == 1 || rank == 8 {
        Set::empty()
    } else {
        match color {
            Color::White => cell(rank + 1, file) + if rank == 2 {
                cell(rank + 2, file)
            } else {
                Set::empty()
            },
            Color::Black => cell(rank - 1, file) + if rank == 7 {
                cell(rank - 2, file)
            } else {
                Set::empty()
            },
        }
    }
}

/// The squares a pawn of `color` on (`rank`, `file`) attacks: the
/// neighbouring files one rank ahead. None from either back rank.
pub open spec fn capture_targets(rank: int, file: int, color: Color) -> Set<int> {
    if rank == 1 || rank == 8 {
        Set::empty()
    } else {
        let ahead = match color {
            Color::White => rank + 1,
            Color::Black => rank - 1,
        };
        cell(ahead, file + 1) + cell(ahead, file - 1)
    }
}

/// The push mask of a pawn of `color` on (`row`, `col`).
pub fn forward_move(row: i32, col: i32, color: Color) -> (r: Bitboard)
    ensures
        squares_of(r) == push_targets(row as int, col as int, color),
        row == 1 || row == 8 ==> r == 0,
{
    if row == 1 || row == 8 {
        proof {
            crate::bitboard::lemma_empty_mask();
        }
        return 0;
    }
    let mut bitboard: Bitboard = 0;
    proof {
        crate::bitboard::lemma_empty_mask();
    }
    let ghost first: Set<int>;
    if color == Color::White {
        if row < 8 {
            bitboard = set_bit(bitboard, (row as i64 + 1, col as i64));
        }
        proof {
            first = squares_of(bitboard);
            assert(first =~= cell(row + 1, col as int));
        }
        if row == 2 {
            bitboard = set_bit(bitboard, (row as i64 + 2, col as i64));
        }
    } else {
        if row > 1 {
            bitboard = set_bit(bitboard, (row as i64 - 1, col as i64));
        }
        proof {
            first = squares_of(bitboard);
            assert(first =~= cell(row - 1, col as int));
        }
        if row == 7 {
            bitboard = set_bit(bitboard, (row as i64 - 2, col as i64));
        }
    }
    assert(squares_of(bitboard) =~= push_targets(row as int, col as int, color));
    bitboard
}

/// The capture mask of a pawn of `color` on (`row`, `col`).
pub fn diagonal_move(row: i32, col: i32, color: Color) -> (r: Bitboard)
    ensures
        squares_of(r) == capture_targets(row as int, col as int, color),
        row == 1 || row == 8 ==> r == 0,
{
    if row == 1 || row == 8 {
        proof {
            crate::bitboard::lemma_empty_mask();
        }
        return 0;
    }
    let mut bitboard: Bitboard = 0;
    proof {
        crate::bitboard::lemma_empty_mask();
    }
    if color == Color::White {
        if row < 8 {
            bitboard = set_bit(bitboard, (row as i64 + 1, col as i64 + 1));
            bitboard = set_bit(bitboard, (row as i64 + 1, col as i64 - 1));
        }
    } else {
        if row > 1 {
            bitboard = set_bit(bitboard, (row as i64 - 1, col as i64 + 1));
            bitboard = set_bit(bitboard, (row as i64 - 1, col as i64 - 1));
        }
    }
    assert(squares_of(bitboard) =~= capture_targets(row as int, col as int, color));
    bitboard
}

/// A pawn off the back ranks has two pushes from its starting rank (rank 2
/// for White, rank 7 for Black) and one from any other rank.
pub proof fn lemma_push_count(rank: int, file: int, color: Color)
    requires
        on_board(rank, file),
        2 <= rank <= 7,
    ensures
        push_targets(rank, file, color).len() == if (color == Color::White && rank == 2) || (
        color == Color::Black && rank == 7) {
            2int
        } else {
            1int
        },
{
    let ahead = if color == Color::White { rank + 1 } else { rank - 1 };
    let far = if color == Color::White { rank + 2 } else { rank - 2 };
    if (color == Color::White && rank == 2) || (color == Color::Black && rank == 7) {
        assert(push_targets(rank, file, color) =~= set![square_of(ahead, file)].insert(square_of(far, file)));
    } else {
        assert(push_targets(rank, file, color) =~= set![square_of(ahead, file)]);
    }
}

/// A pawn off the back ranks attacks two squares, or one from an edge file.
pub proof fn lemma_capture_count(rank: int, file: int, color: Color)
    requires
        on_board(rank, file),
        2 <= rank <= 7,
    ensures
        capture_targets(rank, file, color).len() == if file == 1 || file == 8 {
            1int
        } else {
            2int
        },
{
    let ahead = if color == Color::White { rank + 1 } else { rank - 1 };
    if file == 1 {
        assert(capture_targets(rank, file, color) =~= set![square_of(ahead, file + 1)]);
    } else if file == 8 {
        assert(capture_targets(rank, file, color) =~= set![square_of(ahead, file - 1)]);
    } else {
        assert(capture_targets(rank, file, color) =~= set![square_of(ahead, file + 1)].insert(square_of(ahead, file - 1)));
    }
}

/// The pawn table: push and capture masks for every square and both colors.
/// Built once and only read afterwards.
pub struct PawnAttacks {
    white_forward_moves: Vec<Bitboard>,
    white_diagonal_moves: Vec<Bitboard>,
    black_forward_moves: Vec<Bitboard>,
    black_diagonal_moves: Vec<Bitboard>,
}

impl PawnAttacks {
    /// The push masks stored for `color`, by square index.
    pub closed spec fn pushes(&self, color: Color) -> Seq<Bitboard> {
        match color {
            Color::White => self.white_forward_moves@,
            Color::Black => self.black_forward_moves@,
        }
    }

    /// The capture masks stored for `color`, by square index.
    pub closed spec fn captures(&self, color: Color) -> Seq<Bitboard> {
        match color {
            Color::White => self.white_diagonal_moves@,
            Color::Black => self.black_diagonal_moves@,
        }
    }

    /// Each color has 64 push and 64 capture masks, each exact for its square.
    pub open spec fn wf(&self) -> bool {
        forall|color: Color| {
            &&& #[trigger] self.pushes(color).len() == 64
            &&& self.captures(color).len() == 64
            &&& forall|s: int| 0 <= s < 64 ==> squares_of(#[trigger] self.pushes(color)[s]) == push_targets(rank_of(s), file_of(s), color)
            &&& forall|s: int| 0 <= s < 64 ==> squares_of(#[trigger] self.captures(color)[s]) == capture_targets(rank_of(s), file_of(s), color)
        }
    }

    /// Builds the table for all squares and both colors.
    pub fn initialize() -> (r: Self)
        ensures
            r.wf(),
    {
        let mut w_forward: Vec<Bitboard> = Vec::new();
        let mut w_diagonal: Vec<Bitboard> = Vec::new();
        let mut b_forward: Vec<Bitboard> = Vec::new();
        let mut b_diagonal: Vec<Bitboard> = Vec::new();
        let mut s: usize = 0;
        while s < 64
            invariant
                s <= 64,
                w_forward@.len() == s,
                w_diagonal@.len() == s,
                b_forward@.len() == s,
                b_diagonal@.len() == s,
                forall|j: int| 0 <= j < s ==> squares_of(#[trigger] w_forward@[j]) == push_targets(rank_of(j), file_of(j), Color::White),
                forall|j: int| 0 <= j < s ==> squares_of(#[trigger] w_diagonal@[j]) == capture_targets(rank_of(j), file_of(j), Color::White),
                forall|j: int| 0 <= j < s ==> squares_of(#[trigger] b_forward@[j]) == push_targets(rank_of(j), file_of(j), Color::Black),
                forall|j: int| 0 <= j < s ==> squares_of(#[trigger] b_diagonal@[j]) == capture_targets(rank_of(j), file_of(j), Color::Black),
            decreases 64 - s,
        {
            let row: i32 = (s / 8 + 1) as i32;
            let col: i32 = (s % 8 + 1) as i32;
            w_forward.push(forward_move(row, col, Color::White));
            w_diagonal.push(diagonal_move(row, col, Color::White));
            b_forward.push(forward_move(row, col, Color::Black));
            b_diagonal.push(diagonal_move(row, col, Color::Black));
            s = s + 1;
        }
        let r = PawnAttacks {
            white_forward_moves: w_forward,
            white_diagonal_moves: w_diagonal,
            black_forward_moves: b_forward,
            black_diagonal_moves: b_diagonal,
        };
        assert forall|color: Color| {
            &&& #[trigger] r.pushes(color).len() == 64
            &&& r.captures(color).len() == 64
            &&& forall|s: int| 0 <= s < 64 ==> squares_of(#[trigger] r.pushes(color)[s]) == push_targets(rank_of(s), file_of(s), color)
            &&& forall|s: int| 0 <= s < 64 ==> squares_of(#[trigger] r.captures(color)[s]) == capture_targets(rank_of(s), file_of(s), color)
        } by {
            match color {
                Color::White => {},
                Color::Black => {},
            }
        }
        r
    }

    /// The push mask of a pawn of `color` on square `square`.
    pub fn pawn_push(&self, color: Color, square: usize) -> (r: Bitboard)
        requires
            self.wf(),
            square < 64,
        ensures
            squares_of(r) == push_targets(rank_of(square as int), file_of(square as int), color),
    {
        assert(self.pushes(color).len() == 64);
        match color {
            Color::White => self.white_forward_moves[square],
            Color::Black => self.black_forward_moves[square],
        }
    }

    /// The capture mask of a pawn of `color` on square `square`.
    pub fn pawn_capture(&self, color: Color, square: usize) -> (r: Bitboard)
        requires
            self.wf(),
            square < 64,
        ensures
            squares_of(r) == capture_targets(rank_of(square as int), file_of(square as int), color),
    {
        assert(self.pushes(color).len() == 64);
        assert(self.captures(color).len() == 64);
        match color {
            Color::White => self.white_diagonal_moves[square],
            Color::Black => self.black_diagonal_moves[square],
        }
    }
}

} // verus!
