use chess_core::bitboard::{bit_scan, bit_scan_backwards};
use chess_core::pawns::{diagonal_move, forward_move, PawnAttacks};
use chess_core::piece::Color;

#[test]
fn test_second_row_white_pawn() {
    let row = 2;
    for col in 1..=8 {
        let bitboard = forward_move(row, col, Color::White);
        let lsb = bit_scan(bitboard);
        let msb = bit_scan_backwards(bitboard);

        let expected_lsb = (col - 1) + (row + 1 - 1) * 8;
        let expected_msb = (col - 1) + (row + 2 - 1) * 8;

        assert_eq!(lsb, expected_lsb as usize);
        assert_eq!(msb, expected_msb as usize);
    }
}

#[test]
fn test_second_row_black_pawn() {
    let row = 2;
    for col in 1..=8 {
        let bitboard = forward_move(row, col, Color::Black);
        let lsb = bit_scan(bitboard);

        let expected_lsb = (col - 1) + (row - 1 - 1) * 8;

        assert_eq!(lsb, expected_lsb as usize);
    }
}

#[test]
fn test_middle_rows_white_pawn() {
    for row in 3..=7 {
        for col in 1..=8 {
            let bitboard = forward_move(row, col, Color::White);
            let lsb = bit_scan(bitboard);

            let expected_lsb = (col - 1) + (row + 1 - 1) * 8;

            assert_eq!(lsb, expected_lsb as usize);
        }
    }
}

#[test]
fn test_middle_rows_black_pawn() {
    for row in 2..=6 {
        for col in 1..=8 {
            let bitboard = forward_move(row, col, Color::Black);
            let lsb = bit_scan(bitboard);

            let expected_lsb = (col - 1) + (row - 1 - 1) * 8;

            assert_eq!(lsb, expected_lsb as usize);
        }
    }
}

#[test]
fn test_edges() {
    for color in [Color::White, Color::Black] {
        for row in [1, 8] {
            for col in 1..=8 {
                let bitboard = forward_move(row, col, color);
                assert_eq!(bitboard, 0);
            }
        }
    }
}

#[test]
fn test_diagonal_white() {
    for row in 2..=7 {
        for col in 2..=7 {
            let bitboard = diagonal_move(row, col, Color::White);
            let lsb = bit_scan(bitboard);
            let msb = bit_scan_backwards(bitboard);

            let expected_lsb = (col - 1 - 1) + (row + 1 - 1) * 8;
            let expected_msb = (col + 1 - 1) + (row + 1 - 1) * 8;

            assert_eq!(lsb, expected_lsb as usize);
            assert_eq!(msb, expected_msb as usize);
        }
    }
}

#[test]
fn test_diagonal_black() {
    for row in 2..=7 {
        for col in 2..=7 {
            let bitboard = diagonal_move(row, col, Color::Black);
            let lsb = bit_scan(bitboard);
            let msb = bit_scan_backwards(bitboard);

            let expected_lsb = (col - 1 - 1) + (row - 1 - 1) * 8;
            let expected_msb = (col + 1 - 1) + (row - 1 - 1) * 8;

            assert_eq!(lsb, expected_lsb as usize);
            assert_eq!(msb, expected_msb as usize);
        }
    }
}

#[test]
fn test_diagonal_edge_white() {
    for row in 2..=7 {
        let col = 1;
        let bitboard = diagonal_move(row, col, Color::White);
        let lsb = bit_scan(bitboard);

        let expected_lsb = (col + 1 - 1) + (row - 1 + 1) * 8;

        assert_eq!(lsb, expected_lsb as usize);

        let col = 8;
        let bitboard = diagonal_move(row, col, Color::White);
        let lsb = bit_scan(bitboard);

        let expected_lsb = (col - 1 - 1) + (row - 1 + 1) * 8;

        assert_eq!(lsb, expected_lsb as usize);
    }
}

#[test]
fn test_diagonal_edge_black() {
    for row in 2..=7 {
        let col = 1;
        let bitboard = diagonal_move(row, col, Color::Black);
        let lsb = bit_scan(bitboard);

        let expected_lsb = (col + 1 - 1) + (row - 1 - 1) * 8;

        assert_eq!(lsb, expected_lsb as usize);

        let col = 8;
        let bitboard = diagonal_move(row, col, Color::Black);
        let lsb = bit_scan(bitboard);

        let expected_lsb = (col - 1 - 1) + (row - 1 - 1) * 8;

        assert_eq!(lsb, expected_lsb as usize);
    }
}

#[test]
fn test_pawnattacks_init() {
    let _pawnattacks = PawnAttacks::initialize();
}

#[test]
fn diagonal_zero_on_back_ranks() {
    for color in [Color::White, Color::Black] {
        for row in [1, 8] {
            for col in 1..=8 {
                assert_eq!(diagonal_move(row, col, color), 0);
            }
        }
    }
}

#[test]
fn push_counts_per_rank() {
    for col in 1..=8 {
        assert_eq!(forward_move(2, col, Color::White).count_ones(), 2);
        assert_eq!(forward_move(7, col, Color::Black).count_ones(), 2);
        for row in 3..=7 {
            assert_eq!(forward_move(row, col, Color::White).count_ones(), 1);
        }
        for row in 2..=6 {
            assert_eq!(forward_move(row, col, Color::Black).count_ones(), 1);
        }
    }
}

#[test]
fn capture_counts_per_file() {
    for color in [Color::White, Color::Black] {
        for row in 2..=7 {
            for col in 2..=7 {
                assert_eq!(diagonal_move(row, col, color).count_ones(), 2);
            }
            assert_eq!(diagonal_move(row, 1, color).count_ones(), 1);
            assert_eq!(diagonal_move(row, 8, color).count_ones(), 1);
        }
    }
}

#[test]
fn exact_pawn_masks() {
    // e2: e3 and e4.
    assert_eq!(forward_move(2, 5, Color::White), (1u64 << 20) | (1u64 << 28));
    // e7: e6 and e5.
    assert_eq!(forward_move(7, 5, Color::Black), (1u64 << 44) | (1u64 << 36));
    // d4 white captures c5 and e5.
    assert_eq!(diagonal_move(4, 4, Color::White), (1u64 << 34) | (1u64 << 36));
    // a5 black captures b4 only.
    assert_eq!(diagonal_move(5, 1, Color::Black), 1u64 << 25);
}

#[test]
fn pawn_table_lookups_match_functions() {
    let table = PawnAttacks::initialize();
    for square in 0..64usize {
        let row = (square / 8 + 1) as i32;
        let col = (square % 8 + 1) as i32;
        for color in [Color::White, Color::Black] {
            assert_eq!(table.pawn_push(color, square), forward_move(row, col, color));
            assert_eq!(table.pawn_capture(color, square), diagonal_move(row, col, color));
        }
    }
    assert_eq!(table.pawn_push(Color::White, 12), (1u64 << 20) | (1u64 << 28));
}
