use battlezips::error::CircuitError;
use battlezips::gadgets::board::{
    decompose_board, generate_coordiante, hash_board, interpolate_bitflip_bool, place_ship,
    recompose_board, ship_to_coordinates,
};
use battlezips::gadgets::range::less_than_10;
use battlezips::gadgets::shot::{check_hit, serialize_shot};
use battlezips::plonk::circuit_builder::{CircuitBuilder, CircuitConfig};
use battlezips::plonk::gate::{BoolTarget, Target};
use battlezips::plonk::witness::PartialWitness;

const ORDER: u64 = 0xFFFF_FFFF_0000_0001;

fn wide_config() -> CircuitConfig {
    CircuitConfig { num_wires: 137, num_routed_wires: 130, zero_knowledge: false }
}

fn range_check(value: u64) -> Result<Vec<u64>, CircuitError> {
    let mut builder = CircuitBuilder::new(CircuitConfig::standard_recursion_config());
    let target = builder.add_virtual_target();
    less_than_10(target, &mut builder).unwrap();
    let data = builder.build();
    let mut pw = PartialWitness::new();
    pw.set_target(target, value);
    data.prove(&pw).map(|proof| proof.public_inputs)
}

#[test]
fn less_than_10_accepts_zero_to_nine() {
    for value in 0..10 {
        assert!(range_check(value).is_ok(), "value {}", value);
    }
}

#[test]
fn less_than_10_accepts_nine() {
    assert_eq!(range_check(9), Ok(vec![]));
}

#[test]
fn less_than_10_rejects_ten_and_more() {
    for value in [10, 11, 99, 255, 1 << 32, ORDER - 1] {
        assert_eq!(range_check(value), Err(CircuitError::Unsatisfiable), "value {}", value);
    }
}

#[test]
fn a_value_that_is_no_field_element_is_rejected() {
    assert_eq!(range_check(ORDER), Err(CircuitError::Unsatisfiable));
}

fn serialized(x: u64, y: u64) -> Result<Vec<u64>, CircuitError> {
    let mut builder = CircuitBuilder::new(CircuitConfig::standard_recursion_config());
    let x_t = builder.add_virtual_target();
    let y_t = builder.add_virtual_target();
    let shot = serialize_shot(x_t, y_t, &mut builder).unwrap();
    builder.register_public_input(shot);
    let data = builder.build();
    let mut pw = PartialWitness::new();
    pw.set_target(x_t, x);
    pw.set_target(y_t, y);
    data.prove(&pw).map(|proof| proof.public_inputs)
}

#[test]
fn serialize_shot_is_ten_y_plus_x() {
    assert_eq!(serialized(0, 0), Ok(vec![0]));
    assert_eq!(serialized(0, 1), Ok(vec![10]));
    assert_eq!(serialized(3, 4), Ok(vec![43]));
    assert_eq!(serialized(9, 9), Ok(vec![99]));
}

#[test]
fn serialize_shot_rejects_coordinates_off_the_grid() {
    assert_eq!(serialized(10, 0), Err(CircuitError::Unsatisfiable));
    assert_eq!(serialized(0, 10), Err(CircuitError::Unsatisfiable));
}

fn hit(limbs: [u64; 2], shot: u64) -> Result<Vec<u64>, CircuitError> {
    let mut builder = CircuitBuilder::new(wide_config());
    let b0 = builder.add_virtual_target();
    let b1 = builder.add_virtual_target();
    let shot_t = builder.add_virtual_target();
    let hit = check_hit([b0, b1], shot_t, &mut builder).unwrap();
    builder.register_public_input(hit);
    let data = builder.build();
    let mut pw = PartialWitness::new();
    pw.set_target(b0, limbs[0]);
    pw.set_target(b1, limbs[1]);
    pw.set_target(shot_t, shot);
    data.prove(&pw).map(|proof| proof.public_inputs)
}

#[test]
fn check_hit_reads_the_bit_of_the_shot() {
    let limbs = [0x7000_f800_0401_0007, 0x8_0200_8020];
    assert_eq!(hit(limbs, 0), Ok(vec![1]));
    assert_eq!(hit(limbs, 3), Ok(vec![0]));
    assert_eq!(hit(limbs, 10), Ok(vec![0]));
    assert_eq!(hit(limbs, 43), Ok(vec![1]));
    assert_eq!(hit(limbs, 63), Ok(vec![0]));
    assert_eq!(hit(limbs, 69), Ok(vec![1]));
    assert_eq!(hit(limbs, 99), Ok(vec![1]));
    assert_eq!(hit(limbs, 127), Ok(vec![0]));
}

#[test]
fn check_hit_rejects_an_index_beyond_the_table() {
    assert_eq!(hit([0, 0], 128), Err(CircuitError::Unsatisfiable));
}

#[test]
fn test_decompose_board() {
    // config
    let config = CircuitConfig::standard_recursion_config();
    let mut builder = CircuitBuilder::new(config);

    // targets
    let board_pre: [Target; 2] = builder.add_virtual_targets(2).try_into().unwrap();

    // decompose into bits
    let bits = decompose_board(board_pre, &mut builder).unwrap();
    println!("bits: {:?}", bits);
    assert_eq!(bits.len(), 128);
    builder.register_public_inputs(&bits);
    // proof inputs
    let board = [10u64, 20];
    let mut pw = PartialWitness::new();
    pw.set_target(board_pre[0], board[0]);
    pw.set_target(board_pre[1], board[0]);

    // prove board placement
    let data = builder.build();
    let proof = data.prove(&pw).unwrap();

    // the digits of ten, twice
    for i in 0..128 {
        let expected = if i % 64 == 1 || i % 64 == 3 { 1 } else { 0 };
        assert_eq!(proof.public_inputs[i], expected, "digit {}", i);
    }

    // verify board placement
    let res = data.verify(&proof);
    println!("yay: {:?}", res);
    assert_eq!(res, Ok(()));
}

#[test]
fn recompose_board_undoes_decompose_board() {
    let mut builder = CircuitBuilder::new(CircuitConfig::standard_recursion_config());
    let b0 = builder.add_virtual_target();
    let b1 = builder.add_virtual_target();
    let bits = decompose_board([b0, b1], &mut builder).unwrap();
    let limbs = recompose_board(bits, &mut builder).unwrap();
    builder.register_public_input(limbs[0]);
    builder.register_public_input(limbs[1]);
    let data = builder.build();
    let mut pw = PartialWitness::new();
    pw.set_target(b0, 0x7000_f800_0401_0007);
    pw.set_target(b1, 0x8_0200_8020);
    let proof = data.prove(&pw).unwrap();
    assert_eq!(proof.public_inputs, vec![0x7000_f800_0401_0007, 0x8_0200_8020]);
}

fn ship_targets(builder: &mut CircuitBuilder) -> (Target, Target, BoolTarget) {
    let x = builder.add_virtual_target();
    let y = builder.add_virtual_target();
    let z = builder.add_virtual_bool_target_safe();
    (x, y, z)
}

#[test]
fn test_ship_to_coordinates() {
    // config
    let config = CircuitConfig::standard_recursion_config();
    let mut builder = CircuitBuilder::new(config);

    // targets
    let ship = ship_targets(&mut builder);
    const L: usize = 5; // ship size of 5
    let coordinates: [Target; L] = ship_to_coordinates::<L>(ship, &mut builder).unwrap();
    builder.register_public_inputs(&coordinates.to_vec());

    // proof inputs
    let mut pw = PartialWitness::new();
    pw.set_target(ship.0, 3);
    pw.set_target(ship.1, 3);
    pw.set_bool_target(ship.2, true);

    // prove board placement
    let data = builder.build();
    let proof = data.prove(&pw).unwrap();
    println!("coordinates: {:?}", coordinates);

    // verify board placement
    let res = data.verify(&proof);
    assert_eq!(res, Ok(()));
    for i in 0..L {
        let coordinate = proof.public_inputs[i];
        println!("coordinate {}: {:?}", i, coordinate);
    }
    assert_eq!(proof.public_inputs, vec![33, 43, 53, 63, 73]);
}

fn coordinates_of(x: u64, y: u64, z: bool) -> Result<Vec<u64>, CircuitError> {
    let mut builder = CircuitBuilder::new(CircuitConfig::standard_recursion_config());
    let ship = ship_targets(&mut builder);
    let coordinates = ship_to_coordinates::<3>(ship, &mut builder).unwrap();
    builder.register_public_inputs(&coordinates.to_vec());
    let data = builder.build();
    let mut pw = PartialWitness::new();
    pw.set_target(ship.0, x);
    pw.set_target(ship.1, y);
    pw.set_bool_target(ship.2, z);
    data.prove(&pw).map(|proof| proof.public_inputs)
}

#[test]
fn ship_to_coordinates_at_the_last_row_and_column() {
    assert_eq!(coordinates_of(7, 9, false), Ok(vec![97, 98, 99]));
    assert_eq!(coordinates_of(9, 7, true), Ok(vec![79, 89, 99]));
}

#[test]
fn ship_to_coordinates_rejects_a_ship_that_leaves_the_grid() {
    assert_eq!(coordinates_of(8, 0, false), Err(CircuitError::Unsatisfiable));
    assert_eq!(coordinates_of(0, 8, true), Err(CircuitError::Unsatisfiable));
    assert_eq!(coordinates_of(10, 0, true), Err(CircuitError::Unsatisfiable));
    assert_eq!(coordinates_of(0, 10, false), Err(CircuitError::Unsatisfiable));
    // along the other axis there is room
    assert_eq!(coordinates_of(8, 0, true), Ok(vec![8, 18, 28]));
}

#[test]
fn generate_coordiante_follows_the_orientation() {
    for (z, expected) in [(false, 36u64), (true, 54)] {
        let mut builder = CircuitBuilder::new(CircuitConfig::standard_recursion_config());
        let ship = ship_targets(&mut builder);
        let cell = generate_coordiante(ship.0, ship.1, ship.2, 2, &mut builder).unwrap();
        builder.register_public_input(cell);
        let data = builder.build();
        let mut pw = PartialWitness::new();
        pw.set_target(ship.0, 4);
        pw.set_target(ship.1, 3);
        pw.set_bool_target(ship.2, z);
        assert_eq!(data.prove(&pw).unwrap().public_inputs, vec![expected]);
    }
}

#[test]
fn interpolate_bitflip_bool_tells_membership() {
    for (value, expected) in [(33u64, 1u64), (53, 1), (34, 0), (0, 0)] {
        let mut builder = CircuitBuilder::new(CircuitConfig::standard_recursion_config());
        let candidates: [Target; 3] = builder.add_virtual_targets(3).try_into().unwrap();
        let probe = builder.add_virtual_target();
        let flag = interpolate_bitflip_bool::<3>(probe, candidates, &mut builder).unwrap();
        builder.register_public_input(flag.target);
        let data = builder.build();
        let mut pw = PartialWitness::new();
        pw.set_target(candidates[0], 33);
        pw.set_target(candidates[1], 43);
        pw.set_target(candidates[2], 53);
        pw.set_target(probe, value);
        assert_eq!(data.prove(&pw).unwrap().public_inputs, vec![expected], "value {}", value);
    }
}

#[test]
pub fn test_place_ship() {
    // config
    let config = wide_config();
    let mut builder = CircuitBuilder::new(config);

    // targets
    let board: [Target; 2] = builder.add_virtual_targets(2).try_into().unwrap();
    let ship = ship_targets(&mut builder);

    // comutation synthesis
    const L: usize = 5; // ship size of 5
    let board_in = decompose_board(board, &mut builder).unwrap();
    let board_out = place_ship::<L>(ship, board_in, &mut builder).unwrap();
    builder.register_public_inputs(&board_out);

    // proof inputs
    let mut pw = PartialWitness::new();
    // board inputs (= 0 for now)
    pw.set_target(board[0], 0);
    pw.set_target(board[1], 0);
    // ship inputs
    pw.set_target(ship.0, 3);
    pw.set_target(ship.1, 3);
    pw.set_bool_target(ship.2, true);

    // prove board placement
    let data = builder.build();
    let proof = data.prove(&pw).unwrap();

    // verify board placement
    let res = data.verify(&proof);
    assert_eq!(res, Ok(()));
    for i in 0..L {
        let coordinate = proof.public_inputs[i];
        println!("coordinate {}: {:?}", i, coordinate);
    }
    for i in 0..128 {
        let expected = if [33, 43, 53, 63, 73].contains(&i) { 1 } else { 0 };
        assert_eq!(proof.public_inputs[i], expected, "cell {}", i);
    }
}

#[test]
fn place_ship_rejects_an_occupied_cell() {
    let mut builder = CircuitBuilder::new(wide_config());
    let board: [Target; 2] = builder.add_virtual_targets(2).try_into().unwrap();
    let ship = ship_targets(&mut builder);
    let board_in = decompose_board(board, &mut builder).unwrap();
    let _ = place_ship::<2>(ship, board_in, &mut builder).unwrap();
    let data = builder.build();
    for (limb, expected) in [(1u64 << 34, Err(CircuitError::Unsatisfiable)), (1u64 << 35, Ok(()))] {
        let mut pw = PartialWitness::new();
        pw.set_target(board[0], limb);
        pw.set_target(board[1], 0);
        pw.set_target(ship.0, 3);
        pw.set_target(ship.1, 3);
        pw.set_bool_target(ship.2, false);
        assert_eq!(data.prove(&pw).map(|_| ()), expected);
    }
}

#[test]
fn hash_board_exposes_the_digest_of_the_witness() {
    let mut builder = CircuitBuilder::new(CircuitConfig::standard_recursion_config());
    let board: [Target; 2] = builder.add_virtual_targets(2).try_into().unwrap();
    let digest = hash_board(board, &mut builder).unwrap();
    builder.register_public_inputs(&digest.elements.to_vec());
    let data = builder.build();
    let mut pw = PartialWitness::new();
    pw.set_target(board[0], 1);
    pw.set_target(board[1], 2);
    assert_eq!(data.prove(&pw).map(|_| ()), Err(CircuitError::Unsatisfiable));
    for (k, element) in digest.elements.iter().enumerate() {
        pw.set_target(*element, 100 + k as u64);
    }
    assert_eq!(data.prove(&pw).unwrap().public_inputs, vec![100, 101, 102, 103]);
}

#[test]
fn a_gate_that_reads_a_later_wire_is_malformed() {
    let mut builder = CircuitBuilder::new(CircuitConfig::standard_recursion_config());
    let a = builder.add_virtual_target();
    let stray = Target { index: 7 };
    let _ = builder.add(a, stray);
    let data = builder.build();
    let mut pw = PartialWitness::new();
    pw.set_target(a, 1);
    assert_eq!(data.prove(&pw).map(|_| ()), Err(CircuitError::Malformed));
}
