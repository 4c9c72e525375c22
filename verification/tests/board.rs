use battlezips::board::Board;
use battlezips::ship::{overlap, Ship};

const ORDER: u64 = 0xFFFF_FFFF_0000_0001;

fn host_board() -> Board {
    Board::new(
        Ship::new(3, 4, false),
        Ship::new(9, 6, true),
        Ship::new(0, 0, false),
        Ship::new(0, 6, false),
        Ship::new(6, 1, true),
    )
}

fn guest_board() -> Board {
    Board::new(
        Ship::new(3, 3, true),
        Ship::new(5, 4, false),
        Ship::new(0, 1, false),
        Ship::new(0, 5, true),
        Ship::new(6, 1, false),
    )
}

fn mix(limbs: [u64; 2]) -> [u64; 4] {
    let a = limbs[0] % ORDER;
    let b = limbs[1] % ORDER;
    [a, b, (a ^ b) % ORDER, (a.rotate_left(17) ^ b.rotate_left(5) ^ 0x9E37_79B9) % ORDER]
}

const HOST_ROWS: [[u8; 10]; 10] = [
    [1, 1, 1, 0, 0, 0, 0, 0, 0, 0],
    [0, 0, 0, 0, 0, 0, 1, 0, 0, 0],
    [0, 0, 0, 0, 0, 0, 1, 0, 0, 0],
    [0, 0, 0, 0, 0, 0, 0, 0, 0, 0],
    [0, 0, 0, 1, 1, 1, 1, 1, 0, 0],
    [0, 0, 0, 0, 0, 0, 0, 0, 0, 0],
    [1, 1, 1, 0, 0, 0, 0, 0, 0, 1],
    [0, 0, 0, 0, 0, 0, 0, 0, 0, 1],
    [0, 0, 0, 0, 0, 0, 0, 0, 0, 1],
    [0, 0, 0, 0, 0, 0, 0, 0, 0, 1],
];

#[test]
fn ship_new_keeps_its_fields() {
    let ship: Ship<4> = Ship::new(9, 6, true);
    assert_eq!((ship.x, ship.y, ship.z), (9, 6, true));
    assert_eq!(ship.canonical(), (9, 6, true));
}

#[test]
fn coordinates_of_a_horizontal_ship() {
    let ship: Ship<5> = Ship::new(3, 4, false);
    assert_eq!(ship.coordinates(), [43, 44, 45, 46, 47]);
}

#[test]
fn coordinates_of_a_vertical_ship() {
    let ship: Ship<4> = Ship::new(9, 6, true);
    assert_eq!(ship.coordinates(), [69, 79, 89, 99]);
}

#[test]
fn coordinates_are_not_range_checked() {
    let ship: Ship<3> = Ship::new(9, 0, false);
    assert_eq!(ship.coordinates(), [9, 10, 11]);
    assert!(!ship.is_in_range());
}

#[test]
fn in_range_at_the_edges() {
    assert!(Ship::<5>::new(5, 9, false).is_in_range());
    assert!(!Ship::<5>::new(6, 9, false).is_in_range());
    assert!(Ship::<2>::new(9, 8, true).is_in_range());
    assert!(!Ship::<2>::new(9, 9, true).is_in_range());
    assert!(!Ship::<2>::new(10, 0, true).is_in_range());
    assert!(!Ship::<2>::new(0, 10, false).is_in_range());
}

#[test]
fn overlap_is_found_and_not_invented() {
    let carrier: Ship<5> = Ship::new(3, 4, false);
    let crossing: Ship<3> = Ship::new(5, 3, true);
    let beside: Ship<3> = Ship::new(8, 4, true);
    assert!(overlap(&carrier, &crossing));
    assert!(overlap(&crossing, &carrier));
    assert!(!overlap(&carrier, &beside));
}

#[test]
fn host_board_bitmap_matches_the_drawing() {
    let bits = host_board().bits();
    for y in 0..10 {
        for x in 0..10 {
            assert_eq!(bits[10 * y + x], HOST_ROWS[y][x] == 1, "cell ({}, {})", x, y);
        }
    }
}

#[test]
fn canonical_words_of_both_boards() {
    assert_eq!(host_board().canonical(), [0x7000_f800_0401_0007, 0x8_0200_8020]);
    assert_eq!(guest_board().canonical(), [0x9025_e802_0003_1c00, 0x240]);
}

#[test]
fn canonical_leaves_the_top_bits_clear() {
    let limbs = Board::new(
        Ship::new(5, 9, false),
        Ship::new(0, 9, false),
        Ship::new(7, 8, false),
        Ship::new(0, 8, false),
        Ship::new(4, 8, false),
    )
    .canonical();
    assert_eq!(limbs[1] >> 36, 0);
    assert_eq!(limbs[1], 0xF_BFB7_0000);
}

#[test]
fn unpack_returns_the_bitmap() {
    for board in [host_board(), guest_board()] {
        let bits = board.bits();
        let again = Board::unpack(&board.canonical());
        assert_eq!(bits, again);
    }
}

#[test]
fn unpack_reads_single_bits() {
    let bits = Board::unpack(&[1 << 63, 1 << 35]);
    for i in 0..100 {
        assert_eq!(bits[i], i == 63 || i == 99, "bit {}", i);
    }
}

#[test]
fn validity_of_boards() {
    assert!(host_board().is_valid());
    assert!(guest_board().is_valid());
    let overlapping = Board::new(
        Ship::new(3, 4, false),
        Ship::new(9, 6, true),
        Ship::new(3, 4, false),
        Ship::new(0, 6, false),
        Ship::new(6, 1, true),
    );
    assert!(!overlapping.is_valid());
    let off_grid = Board::new(
        Ship::new(6, 4, false),
        Ship::new(9, 6, true),
        Ship::new(0, 0, false),
        Ship::new(0, 6, false),
        Ship::new(6, 1, true),
    );
    assert!(!off_grid.is_valid());
}

#[test]
fn hash_is_the_hasher_on_the_canonical_words() {
    let board = host_board();
    assert_eq!(board.hash(mix), mix([0x7000_f800_0401_0007, 0x8_0200_8020]));
    assert_ne!(board.hash(mix), guest_board().hash(mix));
}

#[test]
fn test_board_print() {
    let board = Board::new(
        Ship::new(3, 4, false),
        Ship::new(9, 6, true),
        Ship::new(0, 0, false),
        Ship::new(0, 6, false),
        Ship::new(6, 1, true),
    );

    let lines = board.render();
    let expected = vec![
        " (Y)",
        "9 | 0 0 0 0 0 0 0 0 0 1",
        "8 | 0 0 0 0 0 0 0 0 0 1",
        "7 | 0 0 0 0 0 0 0 0 0 1",
        "6 | 1 1 1 0 0 0 0 0 0 1",
        "5 | 0 0 0 0 0 0 0 0 0 0",
        "4 | 0 0 0 1 1 1 1 1 0 0",
        "3 | 0 0 0 0 0 0 0 0 0 0",
        "2 | 0 0 0 0 0 0 1 0 0 0",
        "1 | 0 0 0 0 0 0 1 0 0 0",
        "0 | 1 1 1 0 0 0 0 0 0 0",
        "   -------------------- (X)",
        "    0 1 2 3 4 5 6 7 8 9",
    ];
    assert_eq!(lines, expected);
    for line in lines {
        println!("{}", line);
    }
}

#[test]
fn render_canonical_draws_the_same_board() {
    let board = guest_board();
    assert_eq!(Board::render_canonical(&board.canonical()), board.render());
}
