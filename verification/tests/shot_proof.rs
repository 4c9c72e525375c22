use battlezips::board::Board;
use battlezips::circuits::game::shot::ShotCircuit;
use battlezips::message::commitment_words;
use battlezips::ship::Ship;
use num::bigint::BigUint;

const ORDER: u64 = 0xFFFF_FFFF_0000_0001;

fn mix(limbs: [u64; 2]) -> [u64; 4] {
    let a = limbs[0] % ORDER;
    let b = limbs[1] % ORDER;
    [a, b, (a ^ b) % ORDER, (a.rotate_left(17) ^ b.rotate_left(5) ^ 0x9E37_79B9) % ORDER]
}

fn biguint_from_array(arr: [u64; 4]) -> BigUint {
    BigUint::from_slice(&commitment_words(arr))
}

fn make_shot_proof() {
    let shot_circuit = ShotCircuit::new().unwrap();
    // define inputs
    let board = Board::new(
        Ship::new(3, 4, false),
        Ship::new(9, 6, true),
        Ship::new(0, 0, false),
        Ship::new(0, 6, false),
        Ship::new(6, 1, true),
    );
    let shot = [0, 0];
    let shot_proof = shot_circuit.prove(board.clone(), shot, mix).unwrap();
    let output = ShotCircuit::decode_public(shot_proof).unwrap();
    let commitment = output.commitment;
    assert_eq!(output.shot, 0);
    assert!(output.hit);
    assert_eq!(commitment, board.hash(mix));
    // the message that the player signs is the commitment as one number
    let int = biguint_from_array(commitment);
    assert_eq!(int.to_u64_digits(), strip(commitment));
}

fn strip(arr: [u64; 4]) -> Vec<u64> {
    let mut digits = arr.to_vec();
    while digits.last() == Some(&0) {
        digits.pop();
    }
    digits
}

fn main() -> Result<(), String> {
    make_shot_proof();
    Ok(())
}

#[test]
fn test() {
    main().unwrap();
}

#[test]
fn commitment_words_split_each_element_in_two() {
    assert_eq!(
        commitment_words([0x1111_2222_3333_4444, 1, 0xFFFF_FFFF_0000_0000, 0]),
        [0x3333_4444, 0x1111_2222, 1, 0, 0, 0xFFFF_FFFF, 0, 0]
    );
    let int = biguint_from_array([0x1111_2222_3333_4444, 1, 0xFFFF_FFFF_0000_0000, 0]);
    assert_eq!(int.to_u64_digits(), vec![0x1111_2222_3333_4444, 1, 0xFFFF_FFFF_0000_0000]);
}
