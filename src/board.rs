//! The board: a list of pieces and a per-square view derived from it.
use vstd::prelude::*;
use crate::bitboard::{single_at, single_square, lemma_single_bit_injective};
use crate::piece::{Color, Piece, PieceType};
use crate::square::{index_to_position, square_name};

verus! {

/// What stands on a square: nothing, or the piece with the given index.
#[derive(Clone, Copy, Debug, PartialEq, Eq, Structural)]
pub enum SquareState {
    Empty,
    Occupied(usize),
}

/// Which castling moves each side may still make.
#[derive(Clone, Copy, Debug, PartialEq, Eq, Structural)]
pub struct CastlingRights {
    pub white_king_side: bool,
    pub white_queen_side: bool,
    pub black_king_side: bool,
    pub black_queen_side: bool,
}

/// The game state that goes with a placement of pieces.
#[derive(Clone, Copy, Debug, PartialEq, Eq, Structural)]
pub struct GameInfo {
    pub side_to_move: Color,
    pub castling: CastlingRights,
    /// The square a pawn may be captured on en passant, if any.
    pub en_passant: Option<usize>,
    pub halfmove_clock: u32,
    pub fullmove_number: u32,
}

/// The mask `b` holds exactly one square.
pub open spec fn one_square(b: u64) -> bool {
    exists|i: int| single_at(b, i)
}

/// Every piece holds exactly one square, and no two pieces hold the same one.
pub open spec fn valid_placement(pieces: Seq<Piece>) -> bool {
    &&& forall|p: int| 0 <= p < pieces.len() ==> one_square(#[trigger] pieces[p].position)
    &&& forall|p: int, q: int|
        0 <= p < pieces.len() && 0 <= q < pieces.len() && p != q ==> #[trigger] pieces[p].position
            != #[trigger] pieces[q].position
}

/// Square `i` of `squares` refers to exactly the piece that stands on it.
pub open spec fn square_agrees(pieces: Seq<Piece>, squares: Seq<SquareState>, i: int) -> bool {
    match squares[i] {
        SquareState::Occupied(p) => p < pieces.len() && single_at(pieces[p as int].position, i),
        SquareState::Empty => forall|p: int| 0 <= p < pieces.len() ==> !single_at(#[trigger] pieces[p].position, i),
    }
}

/// A position: the pieces, the state of each of the 64 squares, and the game
/// state. The square states are derived from the pieces and kept in step
/// with them.
pub struct Board {
    pieces: Vec<Piece>,
    squares: Vec<SquareState>,
    info: GameInfo,
}

impl Board {
    /// The pieces, by index.
    pub closed spec fn pieces_view(&self) -> Seq<Piece> {
        self.pieces@
    }

    /// The state of each square, by square index.
    pub closed spec fn squares_view(&self) -> Seq<SquareState> {
        self.squares@
    }

    /// The game state.
    pub closed spec fn info_view(&self) -> GameInfo {
        self.info
    }

    /// The pieces are validly placed and every square refers to exactly the
    /// piece on it.
    pub open spec fn wf(&self) -> bool {
        &&& self.squares_view().len() == 64
        &&& valid_placement(self.pieces_view())
        &&& forall|i: int| 0 <= i < 64 ==> #[trigger] square_agrees(self.pieces_view(), self.squares_view(), i)
    }

    /// Builds a board from a list of pieces, deriving each square's state
    /// from the pieces' positions. `None` when a piece does not hold exactly
    /// one square or two pieces hold the same square.
    pub fn from_pieces(pieces: Vec<Piece>, info: GameInfo) -> (r: Option<Board>)
        ensures
            r.is_some() <==> valid_placement(pieces@),
            r matches Some(b) ==> b.wf() && b.pieces_view() == pieces@ && b.info_view() == info,
    {
        let mut squares: Vec<SquareState> = Vec::new();
        let mut i: usize = 0;
        while i < 64
            invariant
                i <= 64,
                squares@.len() == i,
                forall|j: int| 0 <= j < i ==> squares@[j] == SquareState::Empty,
            decreases 64 - i,
        {
            squares.push(SquareState::Empty);
            i = i + 1;
        }
        let mut k: usize = 0;
        while k < pieces.len()
            invariant
                k <= pieces@.len(),
                squares@.len() == 64,
                valid_placement(pieces@.subrange(0, k as int)),
                forall|j: int| 0 <= j < 64 ==> #[trigger] square_agrees(pieces@.subrange(0, k as int), squares@, j),
            decreases pieces@.len() - k,
        {
            let ghost done = pieces@.subrange(0, k as int);
            let ghost next = pieces@.subrange(0, k + 1);
            let position = pieces[k].position;
            match single_square(position) {
                None => {
                    assert(!valid_placement(pieces@)) by {
                        if valid_placement(pieces@) {
                            assert(one_square(pieces@[k as int].position));
                        }
                    }
                    return None;
                },
                Some(s) => {
                    match squares[s] {
                        SquareState::Occupied(q) => {
                            assert(square_agrees(done, squares@, s as int));
                            assert(pieces@[q as int].position == position);
                            assert(!valid_placement(pieces@)) by {
                                if valid_placement(pieces@) {
                                    assert(pieces@[q as int].position != pieces@[k as int].position);
                                }
                            }
                            return None;
                        },
                        SquareState::Empty => {
                            assert(square_agrees(done, squares@, s as int));
                            let ghost before = squares@;
                            squares.set(s, SquareState::Occupied(k));
                            assert forall|p: int| 0 <= p < next.len() implies one_square(#[trigger] next[p].position) by {
                                if p < k {
                                    assert(next[p] == done[p]);
                                } else {
                                    assert(next[p].position == position);
                                    assert(single_at(next[p].position, s as int));
                                }
                            }
                            assert forall|p: int, q: int|
                                0 <= p < next.len() && 0 <= q < next.len() && p != q implies #[trigger] next[p].position
                                    != #[trigger] next[q].position by {
                                if p < k && q < k {
                                    assert(next[p] == done[p] && next[q] == done[q]);
                                } else if p < k {
                                    assert(next[p] == done[p]);
                                    assert(!single_at(done[p].position, s as int));
                                } else {
                                    assert(next[q] == done[q]);
                                    assert(!single_at(done[q].position, s as int));
                                }
                            }
                            assert forall|j: int| 0 <= j < 64 implies #[trigger] square_agrees(next, squares@, j) by {
                                assert(square_agrees(done, before, j));
                                if j != s {
                                    assert(squares@[j] == before[j]);
                                    match before[j] {
                                        SquareState::Occupied(p) => {
                                            assert(next[p as int] == done[p as int]);
                                        },
                                        SquareState::Empty => {
                                            assert forall|p: int| 0 <= p < next.len() implies !single_at(#[trigger] next[p].position, j) by {
                                                if p < k {
                                                    assert(next[p] == done[p]);
                                                } else if single_at(next[p].position, j) {
                                                    lemma_single_bit_injective(s as u64, j as u64);
                                                }
                                            }
                                        },
                                    }
                                } else {
                                    assert(next[k as int].position == position);
                                }
                            }
                        },
                    }
                },
            }
            k = k + 1;
        }
        assert(pieces@.subrange(0, pieces@.len() as int) =~= pieces@);
        Some(Board { pieces, squares, info })
    }

    /// The standard starting position, White to move, all castling rights,
    /// no en-passant square, clocks at 0 and 1. Pieces are numbered in square
    /// order: White's from 0 to 15, Black's from 16 to 31.
    pub fn initialize() -> (r: Board)
        ensures
            r.wf(),
            r.info_view() == initial_info(),
            r.pieces_view().len() == 32,
            forall|i: int| 0 <= i < 64 ==> #[trigger] r.squares_view()[i] == match start_piece(i) {
                None => SquareState::Empty,
                Some(_) => SquareState::Occupied(start_index(i) as usize),
            },
            forall|i: int| 0 <= i < 64 ==> #[trigger] start_piece_placed(r.pieces_view(), i),
    {
        let mut pieces: Vec<Piece> = Vec::new();
        let mut squares: Vec<SquareState> = Vec::new();
        let mut i: usize = 0;
        while i < 64
            invariant
                i <= 64,
                squares@.len() == i,
                pieces@.len() == if i <= 16 { i as int } else if i <= 48 { 16 } else { i - 32 },
                forall|j: int| 0 <= j < i ==> #[trigger] squares@[j] == match start_piece(j) {
                    None => SquareState::Empty,
                    Some(_) => SquareState::Occupied(start_index(j) as usize),
                },
                forall|j: int| 0 <= j < i ==> #[trigger] start_piece_placed(pieces@, j),
            decreases 64 - i,
        {
            let ghost before = pieces@;
            match start_piece_at(i) {
                None => {
                    squares.push(SquareState::Empty);
                },
                Some((color, piece_type)) => {
                    let index = pieces.len();
                    pieces.push(Piece { position: 1u64 << (i as u64), color, piece_type });
                    squares.push(SquareState::Occupied(index));
                },
            }
            assert forall|j: int| 0 <= j < i + 1 implies #[trigger] start_piece_placed(pieces@, j) by {
                if j < i {
                    assert(start_piece_placed(before, j));
                    if start_piece(j) is Some {
                        assert(start_index(j) < before.len());
                        assert(pieces@[start_index(j)] == before[start_index(j)]);
                    }
                }
            }
            i = i + 1;
        }
        proof {
            lemma_start_layout_valid(pieces@, squares@);
        }
        Board { pieces, squares, info: GameInfo {
            side_to_move: Color::White,
            castling: CastlingRights {
                white_king_side: true,
                white_queen_side: true,
                black_king_side: true,
                black_queen_side: true,
            },
            en_passant: None,
            halfmove_clock: 0,
            fullmove_number: 1,
        } }
    }

    /// The text of square `i`: its algebraic name when empty, else the
    /// letter of the piece on it and a space.
    pub open spec fn token(&self, i: int) -> Seq<char> {
        match self.squares_view()[i] {
            SquareState::Empty => square_name(i),
            SquareState::Occupied(p) => seq![
                piece_letter(self.pieces_view()[p as int].color, self.pieces_view()[p as int].piece_type),
                ' ',
            ],
        }
    }

    /// The tokens of the first `n` files of rank row `row` (counted from 0).
    pub open spec fn row_text(&self, row: int, n: nat) -> Seq<char>
        decreases n,
    {
        if n == 0 {
            Seq::empty()
        } else {
            self.row_text(row, (n - 1) as nat) + self.token(row * 8 + n - 1)
        }
    }

    /// The top `n` rank rows, highest rank first, each ending in a line break.
    pub open spec fn text(&self, n: nat) -> Seq<char>
        decreases n,
    {
        if n == 0 {
            Seq::empty()
        } else {
            self.text((n - 1) as nat) + self.row_text(8 - n, 8).push('\n')
        }
    }

    /// Draws the board as eight lines of eight two-character tokens, rank 8
    /// first.
    pub fn render(&self) -> (r: String)
        requires
            self.wf(),
        ensures
            r@ == self.text(8),
    {
        let mut out = String::new();
        let mut t: usize = 0;
        while t < 8
            invariant
                self.wf(),
                t <= 8,
                out@ == self.text(t as nat),
            decreases 8 - t,
        {
            let row: usize = 7 - t;
            let ghost start = out@;
            let mut c: usize = 0;
            while c < 8
                invariant
                    self.wf(),
                    t < 8,
                    row == 7 - t,
                    c <= 8,
                    start == self.text(t as nat),
                    out@ == start + self.row_text(row as int, c as nat),
                decreases 8 - c,
            {
                let i: usize = row * 8 + c;
                assert(square_agrees(self.pieces_view(), self.squares_view(), i as int));
                match self.squares[i] {
                    SquareState::Empty => {
                        let name = index_to_position(i);
                        out.append(name.as_str());
                    },
                    SquareState::Occupied(p) => {
                        let piece = self.pieces[p];
                        out.append(piece_str(piece.color, piece.piece_type));
                    },
                }
                assert(out@ =~= start + self.row_text(row as int, (c + 1) as nat));
                c = c + 1;
            }
            proof {
                reveal_strlit("\n");
            }
            out.append("\n");
            assert(out@ =~= self.text((t + 1) as nat));
            t = t + 1;
        }
        out
    }

    /// The number of pieces.
    pub fn num_pieces(&self) -> (r: usize)
        ensures
            r == self.pieces_view().len(),
    {
        self.pieces.len()
    }

    /// The piece with index `p`.
    pub fn piece(&self, p: usize) -> (r: Piece)
        requires
            p < self.pieces_view().len(),
        ensures
            r == self.pieces_view()[p as int],
    {
        self.pieces[p]
    }

    /// What stands on square `i`.
    pub fn square(&self, i: usize) -> (r: SquareState)
        requires
            self.wf(),
            i < 64,
        ensures
            r == self.squares_view()[i as int],
    {
        self.squares[i]
    }

    /// The game state.
    pub fn info(&self) -> (r: GameInfo)
        ensures
            r == self.info_view(),
    {
        self.info
    }
}

/// Some square of `squares` refers to piece `p`.
pub open spec fn is_referred(squares: Seq<SquareState>, p: usize) -> bool {
    exists|i: int| 0 <= i < 64 && #[trigger] squares[i] == SquareState::Occupied(p)
}

/// On a well-formed board a square refers to a piece exactly when that piece
/// stands on it; every piece is referred to by exactly one square; and no two
/// pieces stand on the same square.
pub proof fn lemma_occupancy(b: &Board)
    requires
        b.wf(),
    ensures
        forall|i: int, p: usize|
            0 <= i < 64 && p < b.pieces_view().len() ==> (b.squares_view()[i] == SquareState::Occupied(p)
                <==> #[trigger] single_at(b.pieces_view()[p as int].position, i)),
        forall|p: usize| p < b.pieces_view().len() ==> #[trigger] is_referred(b.squares_view(), p),
        forall|i: int, j: int|
            0 <= i < 64 && 0 <= j < 64 && i != j && #[trigger] b.squares_view()[i] is Occupied
                ==> b.squares_view()[i] != #[trigger] b.squares_view()[j],
        forall|p: int, q: int|
            0 <= p < b.pieces_view().len() && 0 <= q < b.pieces_view().len() && p != q
                ==> #[trigger] b.pieces_view()[p].position != #[trigger] b.pieces_view()[q].position,
{
    let pieces = b.pieces_view();
    let squares = b.squares_view();
    assert forall|i: int, p: usize|
        0 <= i < 64 && p < pieces.len() implies (squares[i] == SquareState::Occupied(p)
            <==> #[trigger] single_at(pieces[p as int].position, i)) by {
        assert(square_agrees(pieces, squares, i));
        if single_at(pieces[p as int].position, i) {
            match squares[i] {
                SquareState::Occupied(q) => {
                    if q != p {
                        assert(pieces[q as int].position != pieces[p as int].position);
                    }
                },
                SquareState::Empty => {},
            }
        }
    }
    assert forall|p: usize| p < pieces.len() implies #[trigger] is_referred(squares, p) by {
        assert(one_square(pieces[p as int].position));
        let i = choose|i: int| single_at(pieces[p as int].position, i);
        assert(square_agrees(pieces, squares, i));
        assert(squares[i] == SquareState::Occupied(p));
    }
    assert forall|i: int, j: int|
        0 <= i < 64 && 0 <= j < 64 && i != j && #[trigger] squares[i] is Occupied
            implies squares[i] != #[trigger] squares[j] by {
        assert(square_agrees(pieces, squares, i));
        assert(square_agrees(pieces, squares, j));
        if squares[i] == squares[j] {
            let q = squares[i]->Occupied_0;
            assert(single_at(pieces[q as int].position, i));
            assert(single_at(pieces[q as int].position, j));
            lemma_single_bit_injective(i as u64, j as u64);
        }
    }
}

/// The letter of a piece: p, n, b, r, q or k, upper case for White.
pub open spec fn piece_letter(color: Color, piece_type: PieceType) -> char {
    let lower = match piece_type {
        PieceType::Pawn => 'p',
        PieceType::Knight => 'n',
        PieceType::Bishop => 'b',
        PieceType::Rook => 'r',
        PieceType::Queen => 'q',
        PieceType::King => 'k',
    };
    let upper = match piece_type {
        PieceType::Pawn => 'P',
        PieceType::Knight => 'N',
        PieceType::Bishop => 'B',
        PieceType::Rook => 'R',
        PieceType::Queen => 'Q',
        PieceType::King => 'K',
    };
    match color {
        Color::White => upper,
        Color::Black => lower,
    }
}

fn piece_str(color: Color, piece_type: PieceType) -> (r: &'static str)
    ensures
        r@ == seq![piece_letter(color, piece_type), ' '],
{
    proof {
        reveal_strlit("P ");
        reveal_strlit("N ");
        reveal_strlit("B ");
        reveal_strlit("R ");
        reveal_strlit("Q ");
        reveal_strlit("K ");
        reveal_strlit("p ");
        reveal_strlit("n ");
        reveal_strlit("b ");
        reveal_strlit("r ");
        reveal_strlit("q ");
        reveal_strlit("k ");
    }
    match (color, piece_type) {
        (Color::White, PieceType::Pawn) => "P ",
        (Color::White, PieceType::Knight) => "N ",
        (Color::White, PieceType::Bishop) => "B ",
        (Color::White, PieceType::Rook) => "R ",
        (Color::White, PieceType::Queen) => "Q ",
        (Color::White, PieceType::King) => "K ",
        (Color::Black, PieceType::Pawn) => "p ",
        (Color::Black, PieceType::Knight) => "n ",
        (Color::Black, PieceType::Bishop) => "b ",
        (Color::Black, PieceType::Rook) => "r ",
        (Color::Black, PieceType::Queen) => "q ",
        (Color::Black, PieceType::King) => "k ",
    }
}

/// The game state of the starting position.
pub open spec fn initial_info() -> GameInfo {
    GameInfo {
        side_to_move: Color::White,
        castling: CastlingRights {
            white_king_side: true,
            white_queen_side: true,
            black_king_side: true,
            black_queen_side: true,
        },
        en_passant: None,
        halfmove_clock: 0,
        fullmove_number: 1,
    }
}

/// The back rank from file a to file h.
pub open spec fn back_rank(f: int) -> PieceType {
    seq![
        PieceType::Rook,
        PieceType::Knight,
        PieceType::Bishop,
        PieceType::Queen,
        PieceType::King,
        PieceType::Bishop,
        PieceType::Knight,
        PieceType::Rook,
    ][f]
}

/// What stands on square `i` in the starting position.
pub open spec fn start_piece(i: int) -> Option<(Color, PieceType)> {
    if i < 8 {
        Some((Color::White, back_rank(i)))
    } else if i < 16 {
        Some((Color::White, PieceType::Pawn))
    } else if i < 48 {
        None
    } else if i < 56 {
        Some((Color::Black, PieceType::Pawn))
    } else {
        Some((Color::Black, back_rank(i - 56)))
    }
}

/// The piece that the starting position puts on square `i`, if any, is in
/// `pieces` at its index, with `i` as its one square.
pub open spec fn start_piece_placed(pieces: Seq<Piece>, i: int) -> bool {
    match start_piece(i) {
        None => true,
        Some((c, t)) => pieces[start_index(i)] == (Piece {
            position: 1u64 << (i as u64),
            color: c,
            piece_type: t,
        }),
    }
}

/// The index of the piece on occupied square `i` of the starting position.
pub open spec fn start_index(i: int) -> int {
    if i < 16 {
        i
    } else {
        i - 32
    }
}

fn back_rank_at(f: usize) -> (r: PieceType)
    requires
        f < 8,
    ensures
        r == back_rank(f as int),
{
    match f {
        0 | 7 => PieceType::Rook,
        1 | 6 => PieceType::Knight,
        2 | 5 => PieceType::Bishop,
        3 => PieceType::Queen,
        _ => PieceType::King,
    }
}

fn start_piece_at(i: usize) -> (r: Option<(Color, PieceType)>)
    requires
        i < 64,
    ensures
        r == start_piece(i as int),
{
    if i < 8 {
        Some((Color::White, back_rank_at(i)))
    } else if i < 16 {
        Some((Color::White, PieceType::Pawn))
    } else if i < 48 {
        None
    } else if i < 56 {
        Some((Color::Black, PieceType::Pawn))
    } else {
        Some((Color::Black, back_rank_at(i - 56)))
    }
}

proof fn lemma_start_layout_valid(pieces: Seq<Piece>, squares: Seq<SquareState>)
    requires
        squares.len() == 64,
        pieces.len() == 32,
        forall|j: int| 0 <= j < 64 ==> #[trigger] squares[j] == match start_piece(j) {
            None => SquareState::Empty,
            Some(_) => SquareState::Occupied(start_index(j) as usize),
        },
        forall|j: int| 0 <= j < 64 ==> #[trigger] start_piece_placed(pieces, j),
    ensures
        valid_placement(pieces),
        forall|i: int| 0 <= i < 64 ==> #[trigger] square_agrees(pieces, squares, i),
{
    assert forall|p: int| 0 <= p < 32 implies pieces[p].position == 1u64 << (home(p) as u64) by {
        assert(start_piece(home(p)) is Some);
        assert(start_piece_placed(pieces, home(p)));
    }
    assert forall|p: int| 0 <= p < pieces.len() implies one_square(#[trigger] pieces[p].position) by {
        assert(single_at(pieces[p].position, home(p)));
    }
    assert forall|p: int, q: int|
        0 <= p < pieces.len() && 0 <= q < pieces.len() && p != q implies #[trigger] pieces[p].position
            != #[trigger] pieces[q].position by {
        if pieces[p].position == pieces[q].position {
            lemma_single_bit_injective(home(p) as u64, home(q) as u64);
        }
    }
    assert forall|i: int| 0 <= i < 64 implies #[trigger] square_agrees(pieces, squares, i) by {
        if start_piece(i) is None {
            assert forall|p: int| 0 <= p < pieces.len() implies !single_at(#[trigger] pieces[p].position, i) by {
                if single_at(pieces[p].position, i) {
                    lemma_single_bit_injective(home(p) as u64, i as u64);
                }
            }
        } else {
            assert(home(start_index(i)) == i);
        }
    }
}

/// The square of piece `p` in the starting position.
spec fn home(p: int) -> int {
    if p < 16 {
        p
    } else {
        p + 32
    }
}

} // verus!
