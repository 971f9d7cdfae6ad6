//! Algebraic names of squares ("a1" to "h8").
use vstd::prelude::*;

verus! {

/// The letter of file `f` (0 for a, 7 for h).
pub open spec fn file_char(f: int) -> char {
    seq!['a', 'b', 'c', 'd', 'e', 'f', 'g', 'h'][f]
}

/// The digit of rank row `r` (0 for rank 1, 7 for rank 8).
pub open spec fn rank_char(r: int) -> char {
    seq!['1', '2', '3', '4', '5', '6', '7', '8'][r]
}

/// The algebraic name of square index `i`: file letter, then rank digit.
pub open spec fn square_name(i: int) -> Seq<char> {
    seq![file_char(i % 8), rank_char(i / 8)]
}

fn file_letter(f: usize) -> (r: &'static str)
    requires
        f < 8,
    ensures
        r@ == seq![file_char(f as int)],
{
    proof {
        reveal_strlit("a");
        reveal_strlit("b");
        reveal_strlit("c");
        reveal_strlit("d");
        reveal_strlit("e");
        reveal_strlit("f");
        reveal_strlit("g");
        reveal_strlit("h");
    }
    match f {
        0 => "a",
        1 => "b",
        2 => "c",
        3 => "d",
        4 => "e",
        5 => "f",
        6 => "g",
        _ => "h",
    }
}

fn rank_digit(r: usize) -> (s: &'static str)
    requires
        r < 8,
    ensures
        s@ == seq![rank_char(r as int)],
{
    proof {
        reveal_strlit("1");
        reveal_strlit("2");
        reveal_strlit("3");
        reveal_strlit("4");
        reveal_strlit("5");
        reveal_strlit("6");
        reveal_strlit("7");
        reveal_strlit("8");
    }
    match r {
        0 => "1",
        1 => "2",
        2 => "3",
        3 => "4",
        4 => "5",
        5 => "6",
        6 => "7",
        _ => "8",
    }
}

/// The algebraic name of square `index`: `index_to_position(0)` is "a1",
/// `index_to_position(63)` is "h8".
pub fn index_to_position(index: usize) -> (r: String)
    requires
        index < 64,
    ensures
        r@ == square_name(index as int),
{
    let mut name = String::from_str(file_letter(index % 8));
    name.append(rank_digit(index / 8));
    assert(name@ =~= square_name(index as int));
    name
}

} // verus!
