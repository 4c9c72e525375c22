use battlezips::board::Board;
use battlezips::circuits::channel::close_channel::prove_close_channel;
use battlezips::circuits::channel::increment_channel::{
    decode_public, prove_channel_increment, StateIncrementCircuit,
};
use battlezips::circuits::channel::open_channel;
use battlezips::circuits::channel::open_channel::prove_channel_open;
use battlezips::circuits::game::board::BoardCircuit;
use battlezips::circuits::game::shot::ShotCircuit;
use battlezips::circuits::ProofTuple;
use battlezips::error::CircuitError;
use battlezips::plonk::circuit_builder::{CircuitConfig, CommonCircuitData};
use battlezips::plonk::circuit_data::{ProofWithPublicInputs, VerifierOnlyCircuitData};
use battlezips::ship::Ship;

const ORDER: u64 = 0xFFFF_FFFF_0000_0001;

fn mix(limbs: [u64; 2]) -> [u64; 4] {
    let a = limbs[0] % ORDER;
    let b = limbs[1] % ORDER;
    [a, b, (a ^ b) % ORDER, (a.rotate_left(17) ^ b.rotate_left(5) ^ 0x9E37_79B9) % ORDER]
}

fn host_board() -> Board {
    Board::new(
        Ship::new(3, 4, false),
        Ship::new(9, 6, true),
        Ship::new(0, 0, false),
        Ship::new(0, 6, false),
        Ship::new(6, 1, true),
    )
}

fn guest_board() -> Board {
    Board::new(
        Ship::new(3, 3, true),
        Ship::new(5, 4, false),
        Ship::new(0, 1, false),
        Ship::new(0, 5, true),
        Ship::new(6, 1, false),
    )
}

fn copy(proof: &ProofTuple) -> ProofTuple {
    (ProofWithPublicInputs { public_inputs: proof.0.public_inputs.clone() }, proof.1, proof.2)
}

fn state_proof(inputs: Vec<u64>) -> ProofTuple {
    let count = inputs.len();
    (
        ProofWithPublicInputs { public_inputs: inputs },
        VerifierOnlyCircuitData { num_gates: 0 },
        CommonCircuitData {
            config: CircuitConfig::standard_recursion_config(),
            num_public_inputs: count,
        },
    )
}

// series of shots that will hit every position on the host board configuration
const HOST_HIT_COORDS: [[u8; 2]; 18] = [
    [0, 0],
    [1, 0],
    [2, 0],
    [6, 1],
    [6, 2],
    [3, 4],
    [4, 4],
    [5, 4],
    [6, 4],
    [7, 4],
    [0, 6],
    [1, 6],
    [2, 6],
    [9, 6],
    [9, 7],
    [9, 8],
    [9, 9],
    [8, 8], // dummy coordinate
];

fn open_channel(host: Board, guest: Board, shot: [u8; 2]) -> Result<ProofTuple, CircuitError> {
    let host = BoardCircuit::prove_inner(host.clone(), mix).unwrap();
    let guest = BoardCircuit::prove_inner(guest.clone(), mix).unwrap();
    let open_proof = prove_channel_open(host, guest, shot).unwrap();
    println!("channel opened!");
    Ok(open_proof)
}

fn increment_channel_state(
    board: Board,
    shot: [u8; 2],
    prev: ProofTuple,
    next_shot: [u8; 2],
) -> Result<ProofTuple, CircuitError> {
    let shot_proof = ShotCircuit::prove_inner(board.clone(), shot, mix).unwrap();
    StateIncrementCircuit::prove(copy(&prev), copy(&shot_proof), next_shot)
}

#[test]
pub fn test_unshielded_zk_state_channel() {
    // INPUTS
    let host_board = host_board();
    let guest_board = guest_board();

    // CHANNEL OPEN PROOF
    let mut previous_p =
        open_channel(host_board.clone(), guest_board.clone(), HOST_HIT_COORDS[0]).unwrap();

    // recursively prove entire state channel: the host's board takes the
    // shots of the list, the guest's board takes the same shots in between
    for i in 0..HOST_HIT_COORDS.len() - 1 {
        // HOST state increment
        previous_p = increment_channel_state(
            host_board.clone(),
            HOST_HIT_COORDS[i],
            copy(&previous_p),
            HOST_HIT_COORDS[i],
        )
        .unwrap();
        println!("host state increment #{}", i + 1);
        let state = decode_public(copy(&previous_p).0).unwrap();
        assert_eq!(state.host_damage as usize, i + 1);
        assert!(state.turn);

        if i + 1 == HOST_HIT_COORDS.len() - 1 {
            break;
        }

        // GUEST state increment
        previous_p = increment_channel_state(
            guest_board.clone(),
            HOST_HIT_COORDS[i],
            copy(&previous_p),
            HOST_HIT_COORDS[i + 1],
        )
        .unwrap();
        println!("guest state increment #{}", i + 1);
        let state = decode_public(copy(&previous_p).0).unwrap();
        assert!(!state.turn);
        assert!(state.guest_damage < 17);
    }

    // FINALIZE STATE CHANNEL
    let state_channel_proof = prove_close_channel(copy(&previous_p)).unwrap();

    // Check State Channel Increment Outputs
    let winner: [u64; 4] = state_channel_proof.0.public_inputs[0..4].to_vec().try_into().unwrap();
    let loser: [u64; 4] = state_channel_proof.0.public_inputs[4..8].to_vec().try_into().unwrap();
    let expected_winner = guest_board.hash(mix);
    let expected_loser = host_board.hash(mix);
    assert_eq!(winner, expected_winner);
    assert_eq!(loser, expected_loser);
}

#[test]
pub fn open_channel_test_shielded_channel_open() {
    // INPUTS
    let host_board = host_board();
    let guest_board = guest_board();
    // opening shot (outer/ main opening chanel proof)
    let shot = [3u8, 4];

    // prove inner proofs
    let host_inner = BoardCircuit::prove_inner(host_board.clone(), mix).unwrap();
    println!("1. Host inner proof successful");
    let host_p = BoardCircuit::prove_outer(host_inner).unwrap();
    println!("2. Host outer proof successful");
    let guest_inner = BoardCircuit::prove_inner(guest_board.clone(), mix).unwrap();
    println!("3. Guest inner proof successful");
    let guest_p = BoardCircuit::prove_outer(guest_inner).unwrap();
    println!("4. Guest outer proof successful");

    // recursively prove the integrity of a zk state channel opening
    let channel_open = prove_channel_open(host_p, guest_p, shot).unwrap();
    println!("channel opened!");
    let mut expected = host_board.hash(mix).to_vec();
    expected.extend(guest_board.hash(mix));
    expected.push(43);
    assert_eq!(channel_open.0.public_inputs, expected);
    assert_eq!(channel_open.2.num_public_inputs, 9);
    let (host, guest) = open_channel::decode_public(channel_open.0).unwrap();
    assert_eq!(host, host_board.hash(mix));
    assert_eq!(guest, guest_board.hash(mix));
}

#[test]
pub fn open_channel_test_unshielded_channel_open() {
    // INPUTS
    let host_board = host_board();
    let guest_board = guest_board();
    // opening shot (outer/ main opening chanel proof)
    let shot = [3u8, 4];

    // prove inner proofs
    let host = BoardCircuit::prove_inner(host_board.clone(), mix).unwrap();
    println!("1. Host board proof successful");
    let guest = BoardCircuit::prove_inner(guest_board.clone(), mix).unwrap();
    println!("2. Guest board proof successful");

    // recursively prove the integrity of a zk state channel opening
    let opened = prove_channel_open(host, guest, shot).unwrap();
    println!("channel opened!");
    assert_eq!(opened.0.public_inputs[8], 43);
}

#[test]
pub fn increment_channel_test_shielded_channel_open() {
    let host_board = host_board();
    let guest_board = guest_board();
    let shot = [3u8, 4];

    let host_inner = BoardCircuit::prove_inner(host_board.clone(), mix).unwrap();
    println!("1. Host inner proof successful");
    let host_p = BoardCircuit::prove_outer(host_inner).unwrap();
    println!("2. Host outer proof successful");
    let guest_inner = BoardCircuit::prove_inner(guest_board.clone(), mix).unwrap();
    println!("3. Guest inner proof successful");
    let guest_p = BoardCircuit::prove_outer(guest_inner).unwrap();
    println!("4. Guest outer proof successful");

    let channel_open = prove_channel_open(host_p, guest_p, shot).unwrap();
    println!("channel opened!");

    // the opened channel is a state that an increment can follow
    let shot_p = ShotCircuit::prove_outer(
        ShotCircuit::prove_inner(host_board.clone(), shot, mix).unwrap(),
    )
    .unwrap();
    let next = prove_channel_increment(channel_open, shot_p, [0, 0]).unwrap();
    let state = decode_public(next.0).unwrap();
    assert_eq!(state.host, host_board.hash(mix));
    assert_eq!(state.guest, guest_board.hash(mix));
    assert_eq!(state.host_damage, 1);
    assert_eq!(state.guest_damage, 0);
    assert!(state.turn);
    assert_eq!(state.shot, 0);
}

#[test]
pub fn increment_channel_test_unshielded_channel_open() {
    let host_board = host_board();
    let guest_board = guest_board();
    let shot = [3u8, 4];

    let host = BoardCircuit::prove_inner(host_board.clone(), mix).unwrap();
    println!("1. Host board proof successful");
    let guest = BoardCircuit::prove_inner(guest_board.clone(), mix).unwrap();
    println!("2. Guest board proof successful");

    let opened = prove_channel_open(host, guest, shot).unwrap();
    println!("channel opened!");

    // a miss leaves both counters where they were
    let miss = [0u8, 1];
    let opened_at_miss = state_proof({
        let mut inputs = opened.0.public_inputs.clone();
        inputs[8] = 10;
        inputs
    });
    let shot_p = ShotCircuit::prove_inner(host_board.clone(), miss, mix).unwrap();
    let next = prove_channel_increment(opened_at_miss, shot_p, [5, 5]).unwrap();
    let state = decode_public(next.0).unwrap();
    assert_eq!(state.host_damage, 0);
    assert_eq!(state.guest_damage, 0);
    assert!(state.turn);
    assert_eq!(state.shot, 55);
}

#[test]
fn open_rejects_a_shot_off_the_grid() {
    let host = BoardCircuit::prove_inner(host_board(), mix).unwrap();
    let guest = BoardCircuit::prove_inner(guest_board(), mix).unwrap();
    assert_eq!(
        prove_channel_open(host, guest, [10, 0]).map(|proof| proof.0.public_inputs),
        Err(CircuitError::Unsatisfiable)
    );
}

#[test]
fn open_rejects_what_is_no_board_proof() {
    let host = BoardCircuit::prove_inner(host_board(), mix).unwrap();
    let shot = ShotCircuit::prove_inner(guest_board(), [0, 0], mix).unwrap();
    assert_eq!(
        prove_channel_open(host, shot, [0, 0]).map(|proof| proof.0.public_inputs),
        Err(CircuitError::InvalidProof)
    );
}

fn opened() -> ProofTuple {
    open_channel(host_board(), guest_board(), [0, 0]).unwrap()
}

#[test]
fn increment_flips_the_turn_every_time() {
    let mut state_p = opened();
    let mut expected_turn = false;
    for i in 0..6 {
        let board = if expected_turn { guest_board() } else { host_board() };
        state_p = increment_channel_state(board, [0, 0], copy(&state_p), [0, 0]).unwrap();
        expected_turn = !expected_turn;
        let state = decode_public(copy(&state_p).0).unwrap();
        assert_eq!(state.turn, expected_turn, "after increment {}", i + 1);
    }
}

#[test]
fn increment_raises_one_counter_by_the_hit() {
    // host board is hit at (0, 0); guest board is missed at (0, 0)
    let first = increment_channel_state(host_board(), [0, 0], opened(), [0, 0]).unwrap();
    let state = decode_public(copy(&first).0).unwrap();
    assert_eq!((state.host_damage, state.guest_damage), (1, 0));
    let second = increment_channel_state(guest_board(), [0, 0], first, [1, 0]).unwrap();
    let state = decode_public(copy(&second).0).unwrap();
    assert_eq!((state.host_damage, state.guest_damage), (1, 0));
    let third = increment_channel_state(host_board(), [1, 0], second, [0, 1]).unwrap();
    let state = decode_public(copy(&third).0).unwrap();
    assert_eq!((state.host_damage, state.guest_damage), (2, 0));
    let fourth = increment_channel_state(guest_board(), [0, 1], third, [9, 9]).unwrap();
    let state = decode_public(copy(&fourth).0).unwrap();
    assert_eq!((state.host_damage, state.guest_damage), (2, 1));
    assert_eq!(state.shot, 99);
    assert!(!state.turn);
}

#[test]
fn increment_rejects_a_shot_proof_against_the_wrong_board() {
    // the first shot is checked against the board of the host
    let result = increment_channel_state(guest_board(), [0, 0], opened(), [0, 0]);
    assert_eq!(result.map(|proof| proof.0.public_inputs), Err(CircuitError::Unsatisfiable));
    // a board that neither player committed to
    let stranger = Board::new(
        Ship::new(0, 0, false),
        Ship::new(0, 1, false),
        Ship::new(0, 2, false),
        Ship::new(0, 3, false),
        Ship::new(0, 4, false),
    );
    let result = increment_channel_state(stranger, [0, 0], opened(), [0, 0]);
    assert_eq!(result.map(|proof| proof.0.public_inputs), Err(CircuitError::Unsatisfiable));
}

#[test]
fn increment_rejects_a_shot_proof_for_another_shot() {
    let result = increment_channel_state(host_board(), [1, 0], opened(), [0, 0]);
    assert_eq!(result.map(|proof| proof.0.public_inputs), Err(CircuitError::Unsatisfiable));
}

#[test]
fn increment_rejects_a_next_shot_off_the_grid() {
    let result = increment_channel_state(host_board(), [0, 0], opened(), [0, 10]);
    assert_eq!(result.map(|proof| proof.0.public_inputs), Err(CircuitError::Unsatisfiable));
}

#[test]
fn increment_rejects_what_are_no_state_and_shot_proofs() {
    let shot_p = ShotCircuit::prove_inner(host_board(), [0, 0], mix).unwrap();
    // a shot proof in place of the state
    assert_eq!(
        prove_channel_increment(copy(&shot_p), copy(&shot_p), [0, 0])
            .map(|proof| proof.0.public_inputs),
        Err(CircuitError::InvalidProof)
    );
    // a state in place of the shot proof
    assert_eq!(
        prove_channel_increment(opened(), opened(), [0, 0]).map(|proof| proof.0.public_inputs),
        Err(CircuitError::InvalidProof)
    );
    // a turn that is neither 0 nor 1
    let mut inputs = vec![0u64; 12];
    inputs[10] = 2;
    assert_eq!(
        prove_channel_increment(state_proof(inputs), shot_p, [0, 0])
            .map(|proof| proof.0.public_inputs),
        Err(CircuitError::InvalidProof)
    );
}

fn final_state(host_damage: u64, guest_damage: u64, turn: u64) -> ProofTuple {
    state_proof(vec![1, 2, 3, 4, 5, 6, 7, 8, host_damage, guest_damage, turn, 0])
}

#[test]
fn close_names_the_other_player_as_winner() {
    let closed = prove_close_channel(final_state(17, 3, 1)).unwrap();
    assert_eq!(closed.0.public_inputs, vec![5, 6, 7, 8, 1, 2, 3, 4]);
    assert_eq!(closed.2.num_public_inputs, 8);
    let closed = prove_close_channel(final_state(3, 17, 0)).unwrap();
    assert_eq!(closed.0.public_inputs, vec![1, 2, 3, 4, 5, 6, 7, 8]);
}

#[test]
fn close_rejects_a_game_that_is_not_over() {
    for (host_damage, guest_damage, turn) in
        [(16, 0, 1), (18, 0, 1), (17, 0, 0), (0, 17, 1), (0, 0, 0), (0, 16, 0)]
    {
        assert_eq!(
            prove_close_channel(final_state(host_damage, guest_damage, turn))
                .map(|proof| proof.0.public_inputs),
            Err(CircuitError::Unsatisfiable),
            "damage ({}, {}), turn {}",
            host_damage,
            guest_damage,
            turn
        );
    }
    // right after the opening nothing is hit
    assert_eq!(
        prove_close_channel(opened()).map(|proof| proof.0.public_inputs),
        Err(CircuitError::Unsatisfiable)
    );
}

#[test]
fn close_rejects_what_is_no_state_proof() {
    let shot_p = ShotCircuit::prove_inner(host_board(), [0, 0], mix).unwrap();
    assert_eq!(
        prove_close_channel(shot_p).map(|proof| proof.0.public_inputs),
        Err(CircuitError::InvalidProof)
    );
}

#[test]
fn decode_public_reads_the_state_in_its_fixed_order() {
    let proof = final_state(17, 3, 1);
    let state = decode_public(proof.0).unwrap();
    assert_eq!(state.host, [1, 2, 3, 4]);
    assert_eq!(state.guest, [5, 6, 7, 8]);
    assert_eq!(state.host_damage, 17);
    assert_eq!(state.guest_damage, 3);
    assert!(state.turn);
    assert_eq!(state.shot, 0);
    assert!(matches!(decode_public(opened().0), Err(CircuitError::InvalidProof)));
}
