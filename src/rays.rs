//! Unobstructed sliding-piece rays: for each square and compass direction,
//! every square from the next one along the line up to the edge of the board.
use vstd::prelude::*;
use crate::bitboard::{Bitboard, set_bit, squares_of, cell, on_board, square_of, rank_of, file_of};

verus! {

/// The eight compass directions, as steps on (rank, file).
#[derive(Clone, Copy, Debug, PartialEq, Eq, Structural)]
pub enum Direction {
    North,
    South,
    East,
    West,
    NorthEast,
    NorthWest,
    SouthEast,
    SouthWest,
}

impl Direction {
    /// The rank step of the direction.
    pub open spec fn dr(self) -> int {
        match self {
            Direction::North | Direction::NorthEast | Direction::NorthWest => 1,
            Direction::South | Direction::SouthEast | Direction::SouthWest => -1,
            _ => 0,
        }
    }

    /// The file step of the direction.
    pub open spec fn df(self) -> int {
        match self {
            Direction::East | Direction::NorthEast | Direction::SouthEast => 1,
            Direction::West | Direction::NorthWest | Direction::SouthWest => -1,
            _ => 0,
        }
    }

    /// The (rank, file) step of the direction.
    pub fn step(&self) -> (r: (i64, i64))
        ensures
            r.0 == self.dr(),
            r.1 == self.df(),
    {
        match self {
            Direction::North => (1, 0),
            Direction::South => (-1, 0),
            Direction::East => (0, 1),
            Direction::West => (0, -1),
            Direction::NorthEast => (1, 1),
            Direction::NorthWest => (1, -1),
            Direction::SouthEast => (-1, 1),
            Direction::SouthWest => (-1, -1),
        }
    }
}

/// Square `i` is what `k` steps along `dir` reach from (`rank`, `file`).
pub open spec fn at_step(rank: int, file: int, dir: Direction, k: int, i: int) -> bool {
    rank + dir.dr() * k == rank_of(i) && file + dir.df() * k == file_of(i)
}

/// Square `i` lies `k >= 1` steps away from (`rank`, `file`) along `dir`.
pub open spec fn on_ray(rank: int, file: int, dir: Direction, i: int) -> bool {
    exists|k: int| k >= 1 && #[trigger] at_step(rank, file, dir, k, i)
}

/// The squares strictly beyond (`rank`, `file`) along `dir`, up to the edge.
pub open spec fn ray_squares(rank: int, file: int, dir: Direction) -> Set<int> {
    Set::new(|i: int| 0 <= i < 64 && on_ray(rank, file, dir, i))
}

/// The squares reached by the first `n` steps along `dir`, clipped to the board.
pub open spec fn ray_prefix(rank: int, file: int, dir: Direction, n: nat) -> Set<int>
    decreases n,
{
    if n == 0 {
        Set::empty()
    } else {
        ray_prefix(rank, file, dir, (n - 1) as nat) + cell(rank + dir.dr() * n, file + dir.df() * n)
    }
}

proof fn lemma_cell_square(rank: int, file: int, i: int)
    ensures
        cell(rank, file).contains(i) <==> (0 <= i < 64 && rank == rank_of(i) && file == file_of(i)),
{
    if on_board(rank, file) && i == square_of(rank, file) {
        assert(rank_of(i) == rank && file_of(i) == file);
    }
    if 0 <= i < 64 && rank == rank_of(i) && file == file_of(i) {
        assert(i == square_of(rank, file));
    }
}

proof fn lemma_ray_prefix_contains(rank: int, file: int, dir: Direction, n: nat, i: int)
    ensures
        ray_prefix(rank, file, dir, n).contains(i) <==> (0 <= i < 64 && exists|k: int|
            1 <= k <= n && #[trigger] at_step(rank, file, dir, k, i)),
    decreases n,
{
    if n > 0 {
        lemma_ray_prefix_contains(rank, file, dir, (n - 1) as nat, i);
        lemma_cell_square(rank + dir.dr() * n, file + dir.df() * n, i);
        if 0 <= i < 64 && exists|k: int| 1 <= k <= n && #[trigger] at_step(rank, file, dir, k, i) {
            let k = choose|k: int| 1 <= k <= n && #[trigger] at_step(rank, file, dir, k, i);
            if k < n {
                assert(1 <= k <= n - 1);
            }
        }
        if cell(rank + dir.dr() * n, file + dir.df() * n).contains(i) {
            assert(at_step(rank, file, dir, n as int, i));
        }
    }
}

/// Eight steps reach every square of a ray: a walk that goes on past the
/// edge adds nothing, since a ninth step leaves the board from any square.
pub proof fn lemma_ray_prefix_complete(rank: int, file: int, dir: Direction)
    requires
        on_board(rank, file),
    ensures
        ray_prefix(rank, file, dir, 8) == ray_squares(rank, file, dir),
{
    assert forall|i: int| ray_prefix(rank, file, dir, 8).contains(i) <==> ray_squares(rank, file, dir).contains(i) by {
        lemma_ray_prefix_contains(rank, file, dir, 8, i);
        if ray_squares(rank, file, dir).contains(i) {
            let k = choose|k: int| k >= 1 && #[trigger] at_step(rank, file, dir, k, i);
            assert(1 <= rank_of(i) <= 8 && 1 <= file_of(i) <= 8);
            assert(at_step(rank, file, dir, k, i));
            assert(dir.dr() != 0 || dir.df() != 0);
            if dir.dr() == 1 {
                assert(dir.dr() * k == k);
            } else if dir.dr() == -1 {
                assert(dir.dr() * k == -k) by (nonlinear_arith)
                    requires
                        dir.dr() == -1,
                ;
            } else if dir.df() == 1 {
                assert(dir.df() * k == k);
            } else {
                assert(dir.df() == -1);
                assert(dir.df() * k == -k) by (nonlinear_arith)
                    requires
                        dir.df() == -1,
                ;
            }
            assert(k <= 8);
        }
    }
    assert(ray_prefix(rank, file, dir, 8) =~= ray_squares(rank, file, dir));
}

/// The ray from (`rank`, `file`) along `dir`, walked a fixed eight steps
/// with `set_bit` clipping whatever falls off the board.
pub fn ray_mask(rank: i64, file: i64, dir: Direction) -> (r: Bitboard)
    requires
        on_board(rank as int, file as int),
    ensures
        squares_of(r) == ray_squares(rank as int, file as int, dir),
{
    let (dr, df) = dir.step();
    let mut bitboard: Bitboard = 0;
    proof {
        crate::bitboard::lemma_empty_mask();
    }
    let mut offset: i64 = 1;
    while offset <= 8
        invariant
            1 <= offset <= 9,
            on_board(rank as int, file as int),
            dr == dir.dr(),
            df == dir.df(),
            squares_of(bitboard) == ray_prefix(rank as int, file as int, dir, (offset - 1) as nat),
        decreases 9 - offset,
    {
        bitboard = set_bit(bitboard, (rank + dr * offset, file + df * offset));
        offset = offset + 1;
    }
    proof {
        lemma_ray_prefix_complete(rank as int, file as int, dir);
    }
    bitboard
}

/// A ray never holds the square it starts from.
pub proof fn lemma_ray_excludes_origin(rank: int, file: int, dir: Direction)
    requires
        on_board(rank, file),
    ensures
        !ray_squares(rank, file, dir).contains(square_of(rank, file)),
{
    let i = square_of(rank, file);
    assert(rank_of(i) == rank && file_of(i) == file);
    if ray_squares(rank, file, dir).contains(i) {
        let k = choose|k: int| k >= 1 && #[trigger] at_step(rank, file, dir, k, i);
        if dir.dr() == 1 {
            assert(dir.dr() * k == k);
        } else if dir.dr() == -1 {
            assert(dir.dr() * k == -k) by (nonlinear_arith)
                requires
                    dir.dr() == -1,
            ;
        } else if dir.df() == 1 {
            assert(dir.df() * k == k);
        } else {
            assert(dir.df() * k == -k) by (nonlinear_arith)
                requires
                    dir.df() == -1,
            ;
        }
    }
}

/// The ray masks along `dir` of all 64 squares, by square index.
pub fn make_rays(dir: Direction) -> (r: Vec<Bitboard>)
    ensures
        r@.len() == 64,
        forall|s: int| 0 <= s < 64 ==> squares_of(#[trigger] r@[s]) == ray_squares(rank_of(s), file_of(s), dir),
{
    let mut rays: Vec<Bitboard> = Vec::new();
    let mut s: usize = 0;
    while s < 64
        invariant
            s <= 64,
            rays@.len() == s,
            forall|j: int| 0 <= j < s ==> squares_of(#[trigger] rays@[j]) == ray_squares(rank_of(j), file_of(j), dir),
        decreases 64 - s,
    {
        let row: i64 = (s / 8 + 1) as i64;
        let col: i64 = (s % 8 + 1) as i64;
        rays.push(ray_mask(row, col, dir));
        s = s + 1;
    }
    rays
}

/// The ray table: for each of the eight directions, the ray mask of every
/// square. Built once and only read afterwards.
pub struct Rays {
    n_rays: Vec<Bitboard>,
    e_rays: Vec<Bitboard>,
    nw_rays: Vec<Bitboard>,
    ne_rays: Vec<Bitboard>,
    w_rays: Vec<Bitboard>,
    s_rays: Vec<Bitboard>,
    sw_rays: Vec<Bitboard>,
    se_rays: Vec<Bitboard>,
}

impl Rays {
    /// The masks stored for `dir`, by square index.
    pub closed spec fn table(&self, dir: Direction) -> Seq<Bitboard> {
        match dir {
            Direction::North => self.n_rays@,
            Direction::South => self.s_rays@,
            Direction::East => self.e_rays@,
            Direction::West => self.w_rays@,
            Direction::NorthEast => self.ne_rays@,
            Direction::NorthWest => self.nw_rays@,
            Direction::SouthEast => self.se_rays@,
            Direction::SouthWest => self.sw_rays@,
        }
    }

    /// Every direction has 64 masks, each the exact ray of its square.
    pub open spec fn wf(&self) -> bool {
        forall|dir: Direction| {
            &&& #[trigger] self.table(dir).len() == 64
            &&& forall|s: int| 0 <= s < 64 ==> squares_of(#[trigger] self.table(dir)[s]) == ray_squares(rank_of(s), file_of(s), dir)
        }
    }

    /// Builds the table for all eight directions.
    pub fn initialize() -> (r: Self)
        ensures
            r.wf(),
    {
        let r = Rays {
            n_rays: make_rays(Direction::North),
            e_rays: make_rays(Direction::East),
            nw_rays: make_rays(Direction::NorthWest),
            ne_rays: make_rays(Direction::NorthEast),
            w_rays: make_rays(Direction::West),
            s_rays: make_rays(Direction::South),
            sw_rays: make_rays(Direction::SouthWest),
            se_rays: make_rays(Direction::SouthEast),
        };
        assert forall|dir: Direction| #[trigger] r.table(dir).len() == 64 && forall|s: int| 0 <= s < 64 ==> squares_of(#[trigger] r.table(dir)[s]) == ray_squares(rank_of(s), file_of(s), dir) by {
            match dir {
                Direction::North => {},
                Direction::South => {},
                Direction::East => {},
                Direction::West => {},
                Direction::NorthEast => {},
                Direction::NorthWest => {},
                Direction::SouthEast => {},
                Direction::SouthWest => {},
            }
        }
        r
    }

    /// The ray along `dir` from square `square`.
    pub fn ray(&self, dir: Direction, square: usize) -> (r: Bitboard)
        requires
            self.wf(),
            square < 64,
        ensures
            squares_of(r) == ray_squares(rank_of(square as int), file_of(square as int), dir),
    {
        assert(self.table(dir).len() == 64);
        let table = match dir {
            Direction::North => &self.n_rays,
            Direction::South => &self.s_rays,
            Direction::East => &self.e_rays,
            Direction::West => &self.w_rays,
            Direction::NorthEast => &self.ne_rays,
            Direction::NorthWest => &self.nw_rays,
            Direction::SouthEast => &self.se_rays,
            Direction::SouthWest => &self.sw_rays,
        };
        assert(table@ == self.table(dir));
        table[square]
    }
}

} // verus!
