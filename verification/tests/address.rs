use battlezips::address::pubkey_to_eth_address;

#[test]
fn address_is_the_tail_of_the_keccak_digest_in_hex() {
    let x = "0123456789abcdef0123456789abcdef";
    let y = "fedcba9876543210fedcba9876543210";
    assert_eq!(pubkey_to_eth_address(x, y), "27c484522f4c3086200b26972c343b2ddafc7e4a");
}

#[test]
fn address_depends_on_the_order_of_the_coordinates() {
    let x = "0123456789abcdef0123456789abcdef";
    let y = "fedcba9876543210fedcba9876543210";
    assert_eq!(pubkey_to_eth_address(y, x), "37a9f11cc4f4fc2a31535025bfc26b7bc43a4562");
}

#[test]
fn address_has_forty_lower_case_digits() {
    let address = pubkey_to_eth_address(
        "00000000000000000000000000000000",
        "99999999999999999999999999999999",
    );
    assert_eq!(address.len(), 40);
    assert!(address.chars().all(|c| c.is_ascii_digit() || ('a'..='f').contains(&c)));
}
