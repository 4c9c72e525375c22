use battlezips::board::Board;
use battlezips::circuits::game::board::BoardCircuit;
use battlezips::circuits::game::shot::ShotCircuit;
use battlezips::error::CircuitError;
use battlezips::plonk::circuit_builder::CircuitConfig;
use battlezips::ship::Ship;

const ORDER: u64 = 0xFFFF_FFFF_0000_0001;

fn mix(limbs: [u64; 2]) -> [u64; 4] {
    let a = limbs[0] % ORDER;
    let b = limbs[1] % ORDER;
    [a, b, (a ^ b) % ORDER, (a.rotate_left(17) ^ b.rotate_left(5) ^ 0x9E37_79B9) % ORDER]
}

fn host_board() -> Board {
    Board::new(
        Ship::new(3, 4, false),
        Ship::new(9, 6, true),
        Ship::new(0, 0, false),
        Ship::new(0, 6, false),
        Ship::new(6, 1, true),
    )
}

#[test]
fn test_valid_board() {
    // define inputs
    let board = Board::new(
        Ship::new(3, 4, false),
        Ship::new(9, 6, true),
        Ship::new(0, 0, false),
        Ship::new(0, 6, false),
        Ship::new(6, 1, true),
    );

    // build circuit
    let circuit = BoardCircuit::new().unwrap();

    // compute proof
    let proof = circuit.prove(board.clone(), mix).unwrap();

    // verify proof
    assert_eq!((), circuit.verify(&proof).unwrap());

    // verify integrity of public exports
    let output = BoardCircuit::decode_public(proof).unwrap();
    let expected_commitment = board.hash(mix);
    assert_eq!(output.commitment, expected_commitment);
}

#[test]
fn board_test_shielded() {
    // CONFIG //
    let mut config_inner = CircuitConfig::standard_recursion_config();
    // set wires for random access gate
    config_inner.num_wires = 137;
    config_inner.num_routed_wires = 130;

    // INNER //
    let board = Board::new(
        Ship::new(3, 4, false),
        Ship::new(9, 6, true),
        Ship::new(0, 0, false),
        Ship::new(0, 6, false),
        Ship::new(6, 1, true),
    );
    let inner = BoardCircuit::inner(board.clone(), &config_inner, mix).unwrap();

    println!("Inner proven!");
    // OUTER //
    let mut config_outer = CircuitConfig::standard_recursion_config();
    config_outer.zero_knowledge = true;
    let outer = BoardCircuit::outer(&inner, &config_outer).unwrap();

    println!("Outer proven!");
    let commitment: [u64; 4] = outer.0.public_inputs.clone().try_into().unwrap();

    let expected_commitment = board.hash(mix);
    println!("output: {:?}", commitment);
    assert_eq!(commitment, expected_commitment);

    // the same through the two proving functions
    let inner = BoardCircuit::prove_inner(board.clone(), mix).unwrap();
    println!("Inner proof successful");
    let outer = BoardCircuit::prove_outer(inner).unwrap();
    println!("Outer proof successful");
    let commitment = BoardCircuit::decode_public(outer.0).unwrap().commitment;
    assert_eq!(commitment, expected_commitment);
    assert!(outer.2.config.zero_knowledge);
    assert_eq!(outer.2.num_public_inputs, 4);
}

#[test]
fn board_circuit_commits_to_the_canonical_words() {
    let circuit = BoardCircuit::new().unwrap();
    let proof = circuit.prove(host_board(), |limbs: [u64; 2]| [limbs[0], limbs[1], 7, 8]).unwrap();
    assert_eq!(proof.public_inputs, vec![0x7000_f800_0401_0007, 0x8_0200_8020, 7, 8]);
}

#[test]
fn board_circuit_rejects_overlapping_ships() {
    // the cruiser on the carrier
    let board = Board::new(
        Ship::new(3, 4, false),
        Ship::new(9, 6, true),
        Ship::new(3, 4, false),
        Ship::new(0, 6, false),
        Ship::new(6, 1, true),
    );
    assert_eq!(
        BoardCircuit::prove_inner(board, mix).map(|proof| proof.0.public_inputs),
        Err(CircuitError::Unsatisfiable)
    );
    // the destroyer across the battleship
    let board = Board::new(
        Ship::new(3, 4, false),
        Ship::new(9, 6, true),
        Ship::new(0, 0, false),
        Ship::new(0, 6, false),
        Ship::new(8, 7, false),
    );
    assert_eq!(
        BoardCircuit::prove_inner(board, mix).map(|proof| proof.0.public_inputs),
        Err(CircuitError::Unsatisfiable)
    );
}

#[test]
fn board_circuit_rejects_ships_that_leave_the_grid() {
    let cases = [
        Board::new(
            Ship::new(6, 4, false),
            Ship::new(9, 6, true),
            Ship::new(0, 0, false),
            Ship::new(0, 6, false),
            Ship::new(6, 1, true),
        ),
        Board::new(
            Ship::new(3, 4, false),
            Ship::new(9, 7, true),
            Ship::new(0, 0, false),
            Ship::new(0, 6, false),
            Ship::new(6, 1, true),
        ),
        Board::new(
            Ship::new(3, 4, false),
            Ship::new(9, 6, true),
            Ship::new(0, 0, false),
            Ship::new(0, 6, false),
            Ship::new(10, 1, true),
        ),
        Board::new(
            Ship::new(3, 4, false),
            Ship::new(9, 6, true),
            Ship::new(0, 0, false),
            Ship::new(0, 6, false),
            Ship::new(200, 200, true),
        ),
    ];
    for board in cases {
        assert_eq!(
            BoardCircuit::prove_inner(board, mix).map(|proof| proof.0.public_inputs),
            Err(CircuitError::Unsatisfiable)
        );
    }
}

#[test]
fn board_circuit_accepts_ships_that_touch_the_last_row_and_column() {
    let board = Board::new(
        Ship::new(5, 9, false),
        Ship::new(0, 9, false),
        Ship::new(9, 5, true),
        Ship::new(0, 8, false),
        Ship::new(4, 8, false),
    );
    let proof = BoardCircuit::prove_inner(board, mix).unwrap();
    assert_eq!(proof.0.public_inputs, board.hash(mix).to_vec());
}

#[test]
fn board_circuit_rejects_a_digest_that_is_no_field_element() {
    let result = BoardCircuit::prove_inner(host_board(), |_limbs: [u64; 2]| [0, 1, 2, ORDER]);
    assert_eq!(result.map(|proof| proof.0.public_inputs), Err(CircuitError::Unsatisfiable));
}

#[test]
fn board_circuit_needs_the_wide_configuration() {
    let narrow = CircuitConfig::standard_recursion_config();
    assert!(matches!(BoardCircuit::build(&narrow), Err(CircuitError::ConfigMismatch)));
    assert!(matches!(ShotCircuit::build(&narrow), Err(CircuitError::ConfigMismatch)));
    assert_eq!(
        BoardCircuit::config_inner(),
        Ok(CircuitConfig { num_wires: 137, num_routed_wires: 130, zero_knowledge: false })
    );
    assert_eq!(
        BoardCircuit::config_outer(),
        Ok(CircuitConfig { num_wires: 135, num_routed_wires: 80, zero_knowledge: true })
    );
    assert_eq!(ShotCircuit::config_inner(), BoardCircuit::config_inner());
    assert_eq!(ShotCircuit::config_outer(), BoardCircuit::config_outer());
}

#[test]
fn decode_public_wants_the_right_number_of_inputs() {
    let inner = BoardCircuit::prove_inner(host_board(), mix).unwrap();
    assert!(matches!(ShotCircuit::decode_public(inner.0), Err(CircuitError::InvalidProof)));
    let shot = ShotCircuit::prove_inner(host_board(), [0, 0], mix).unwrap();
    assert!(matches!(BoardCircuit::decode_public(shot.0), Err(CircuitError::InvalidProof)));
}

#[test]
fn shot_test_shot_hit() {
    // define inputs
    let board = Board::new(
        Ship::new(3, 4, false),
        Ship::new(9, 6, true),
        Ship::new(0, 0, false),
        Ship::new(0, 6, false),
        Ship::new(6, 1, true),
    );
    let shot = [0u8, 0];

    // prove inner proof
    let inner = ShotCircuit::prove_inner(board.clone(), shot.clone(), mix).unwrap();
    println!("Inner proof successful");

    // prove outer proof
    let outer = ShotCircuit::prove_outer(inner).unwrap();
    println!("Outer proof successful");

    // verify integrity of public exports
    let output = ShotCircuit::decode_public(outer.0).unwrap();
    let expected_shot = 0u8;
    let expected_hit = true;
    let expected_commitment = board.hash(mix);
    assert_eq!(output.shot, expected_shot);
    assert_eq!(output.hit, expected_hit);
    assert_eq!(output.commitment, expected_commitment);

    // the same on a circuit that is built once
    let circuit = ShotCircuit::new().unwrap();
    let proof = circuit.prove(board.clone(), shot, mix).unwrap();
    assert_eq!((), circuit.verify(&proof).unwrap());
    let output = ShotCircuit::decode_public(proof).unwrap();
    assert_eq!(output.shot, expected_shot);
    assert_eq!(output.hit, expected_hit);
    assert_eq!(output.commitment, expected_commitment);
}

#[test]
fn shot_test_shot_miss() {
    // define inputs
    let board = Board::new(
        Ship::new(3, 4, false),
        Ship::new(9, 6, true),
        Ship::new(0, 0, false),
        Ship::new(0, 6, false),
        Ship::new(6, 1, true),
    );
    let shot = [0u8, 1];

    // prove inner proof
    let inner = ShotCircuit::prove_inner(board.clone(), shot.clone(), mix).unwrap();
    println!("Inner proof successful");

    // prove outer proof
    let outer = ShotCircuit::prove_outer(inner).unwrap();
    println!("Outer proof successful");

    // verify integrity of public exports
    let output = ShotCircuit::decode_public(outer.0).unwrap();
    let expected_shot = 10u8;
    let expected_hit = false;
    let expected_commitment = board.hash(mix);
    assert_eq!(output.shot, expected_shot);
    assert_eq!(output.hit, expected_hit);
    assert_eq!(output.commitment, expected_commitment);

    // the same on a circuit that is built once
    let circuit = ShotCircuit::new().unwrap();
    let proof = circuit.prove(board.clone(), shot, mix).unwrap();
    assert_eq!((), circuit.verify(&proof).unwrap());
    let output = ShotCircuit::decode_public(proof).unwrap();
    assert_eq!(output.shot, expected_shot);
    assert_eq!(output.hit, expected_hit);
    assert_eq!(output.commitment, expected_commitment);
}

#[test]
fn shot_circuit_tells_the_bitmap_on_every_cell() {
    let board = host_board();
    let bits = board.bits();
    let circuit = ShotCircuit::new().unwrap();
    for y in 0..10u8 {
        for x in 0..10u8 {
            let proof = circuit.prove(board, [x, y], mix).unwrap();
            let output = ShotCircuit::decode_public(proof).unwrap();
            assert_eq!(output.shot, 10 * y + x);
            assert_eq!(output.hit, bits[(10 * y + x) as usize], "shot ({}, {})", x, y);
        }
    }
}

#[test]
fn shot_circuit_rejects_a_shot_off_the_grid() {
    for shot in [[10u8, 0], [0, 10], [255, 255]] {
        assert_eq!(
            ShotCircuit::prove_inner(host_board(), shot, mix).map(|proof| proof.0.public_inputs),
            Err(CircuitError::Unsatisfiable)
        );
    }
}

#[test]
fn outer_proof_rejects_a_proof_of_the_wrong_shape() {
    let mut inner = BoardCircuit::prove_inner(host_board(), mix).unwrap();
    inner.0.public_inputs.pop();
    assert_eq!(
        BoardCircuit::prove_outer(inner).map(|proof| proof.0.public_inputs),
        Err(CircuitError::InvalidProof)
    );
    let mut inner = ShotCircuit::prove_inner(host_board(), [1, 1], mix).unwrap();
    inner.0.public_inputs[3] = ORDER;
    assert_eq!(
        ShotCircuit::prove_outer(inner).map(|proof| proof.0.public_inputs),
        Err(CircuitError::Unsatisfiable)
    );
}
