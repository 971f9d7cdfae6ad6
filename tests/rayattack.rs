use chess_core::bitboard::{bitboard_to_string, set_bit};
use chess_core::rays::{ray_mask, Direction, Rays};

const DIRECTIONS: [Direction; 8] = [
    Direction::North,
    Direction::South,
    Direction::East,
    Direction::West,
    Direction::NorthEast,
    Direction::NorthWest,
    Direction::SouthEast,
    Direction::SouthWest,
];

#[test]
fn print_n_ray() {
    let rays = Rays::initialize();
    let row = 5;
    let col = 4;
    let idx = (row - 1) * 8 + col - 1;
    println!(
        "Here's the bitboard:\n--------------------\n{}\n--------------------",
        bitboard_to_string(rays.ray(Direction::North, idx), Some(idx))
    );
}

#[test]
fn print_se_ray() {
    let rays = Rays::initialize();
    let idx = 44;
    println!(
        "Here's the bitboard:\n--------------------\n{}\n--------------------",
        bitboard_to_string(rays.ray(Direction::SouthEast, idx), Some(idx))
    );
}

#[test]
fn print_sw_ray() {
    let rays = Rays::initialize();
    let idx = 44;
    println!(
        "Here's the bitboard:\n--------------------\n{}\n--------------------",
        bitboard_to_string(rays.ray(Direction::SouthWest, idx), Some(idx))
    );
}

#[test]
fn print_nw_ray() {
    let rays = Rays::initialize();
    let idx = 44;
    println!(
        "Here's the bitboard:\n--------------------\n{}\n--------------------",
        bitboard_to_string(rays.ray(Direction::NorthWest, idx), Some(idx))
    );
}

#[test]
fn print_ne_ray() {
    let rays = Rays::initialize();
    let idx = 44;
    println!(
        "Here's the bitboard:\n--------------------\n{}\n--------------------",
        bitboard_to_string(rays.ray(Direction::NorthEast, idx), Some(idx))
    );
}

#[test]
fn print_e_ray() {
    let rays = Rays::initialize();
    let idx = 44;
    println!(
        "Here's the bitboard:\n--------------------\n{}\n--------------------",
        bitboard_to_string(rays.ray(Direction::East, idx), Some(idx))
    );
}

#[test]
fn print_w_ray() {
    let rays = Rays::initialize();
    let idx = 44;
    println!(
        "Here's the bitboard:\n--------------------\n{}\n--------------------",
        bitboard_to_string(rays.ray(Direction::West, idx), Some(idx))
    );
}

#[test]
fn print_s_ray() {
    let rays = Rays::initialize();
    let idx = 44;
    println!(
        "Here's the bitboard:\n--------------------\n{}\n--------------------",
        bitboard_to_string(rays.ray(Direction::South, idx), Some(idx))
    );
}

fn walk_until_edge(square: usize, dir: Direction) -> u64 {
    let (dr, df) = dir.step();
    let mut rank = (square / 8) as i64 + dr;
    let mut file = (square % 8) as i64 + df;
    let mut mask = 0u64;
    while (0..8).contains(&rank) && (0..8).contains(&file) {
        mask |= 1u64 << (rank * 8 + file);
        rank += dr;
        file += df;
    }
    mask
}

#[test]
fn rays_match_walk_to_edge() {
    let rays = Rays::initialize();
    for square in 0..64usize {
        for dir in DIRECTIONS {
            let ray = rays.ray(dir, square);
            assert_eq!(ray, walk_until_edge(square, dir));
            assert_eq!(ray & (1u64 << square), 0);
            let rank = (square / 8 + 1) as i64;
            let file = (square % 8 + 1) as i64;
            assert_eq!(ray_mask(rank, file, dir), ray);
        }
    }
}

#[test]
fn exact_rays_from_e6() {
    let rays = Rays::initialize();
    // e6 is square 44.
    assert_eq!(rays.ray(Direction::North, 44), (1u64 << 52) | (1u64 << 60));
    assert_eq!(rays.ray(Direction::East, 44), (1u64 << 45) | (1u64 << 46) | (1u64 << 47));
    assert_eq!(rays.ray(Direction::SouthEast, 44), (1u64 << 37) | (1u64 << 30) | (1u64 << 23));
    assert_eq!(rays.ray(Direction::NorthWest, 44), (1u64 << 51) | (1u64 << 58));
    // a1 to the west and south: nothing.
    assert_eq!(rays.ray(Direction::West, 0), 0);
    assert_eq!(rays.ray(Direction::SouthWest, 0), 0);
    assert_eq!(rays.ray(Direction::NorthEast, 0), 0x8040_2010_0804_0200);
}

#[test]
fn set_bit_clips_off_board() {
    let b = 0x1234u64;
    for (rank, file) in [(0, 1), (9, 1), (1, 0), (1, 9), (-3, 4), (4, 100), (0, 0)] {
        assert_eq!(set_bit(b, (rank, file)), b);
    }
    assert_eq!(set_bit(0, (1, 1)), 1);
    assert_eq!(set_bit(0, (8, 8)), 1u64 << 63);
    assert_eq!(set_bit(0, (3, 2)), 1u64 << 17);
    assert_eq!(set_bit(1u64 << 17, (3, 2)), 1u64 << 17);
}

#[test]
fn mask_drawing_marks_and_orders_ranks() {
    let text = bitboard_to_string((1u64 << 63) | 1, Some(9));
    let lines: Vec<&str> = text.lines().collect();
    assert_eq!(lines.len(), 8);
    assert_eq!(lines[0], ".......1");
    assert_eq!(lines[6], ".X......");
    assert_eq!(lines[7], "1.......");
    assert!(text.ends_with('\n'));
}
