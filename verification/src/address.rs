use vstd::prelude::*;
use vstd::string::StringSliceAdditionalSpecFns;
use sha3::{Digest, Keccak256};

verus! {

/// The Keccak-256 digest of a byte string: 32 bytes.
pub uninterp spec fn keccak256_digest(data: Seq<u8>) -> Seq<u8>;

/// The lower-case hexadecimal digit for a number below sixteen.
pub open spec fn hex_digit(n: int) -> char {
    if n == 0 {
        '0'
    } else if n == 1 {
        '1'
    } else if n == 2 {
        '2'
    } else if n == 3 {
        '3'
    } else if n == 4 {
        '4'
    } else if n == 5 {
        '5'
    } else if n == 6 {
        '6'
    } else if n == 7 {
        '7'
    } else if n == 8 {
        '8'
    } else if n == 9 {
        '9'
    } else if n == 10 {
        'a'
    } else if n == 11 {
        'b'
    } else if n == 12 {
        'c'
    } else if n == 13 {
        'd'
    } else if n == 14 {
        'e'
    } else {
        'f'
    }
}

/// A byte string in lower-case hexadecimal: two digits for each byte, the
/// high one first.
pub open spec fn hex_lower(data: Seq<u8>) -> Seq<char>
    decreases data.len(),
{
    if data.len() == 0 {
        Seq::empty()
    } else {
        hex_lower(data.drop_last()).push(hex_digit(data.last() as int / 16)).push(
            hex_digit(data.last() as int % 16),
        )
    }
}

/// `Keccak256::digest` of the crate `sha3`: the Keccak-256 digest of
/// `data`. The contract only names the result; that the same bytes give
/// the same digest is all it claims.
#[verifier::external_body]
fn keccak256(data: &[u8]) -> (digest: [u8; 32])
    ensures
        digest@ == keccak256_digest(data@),
{
    Keccak256::digest(data).into()
}

/// `hex::encode` of the crate `hex`: its documentation promises two
/// lower-case hexadecimal digits for each byte, in the order of the bytes,
/// the high digit first.
#[verifier::external_body]
fn hex_encode(data: &[u8]) -> (text: String)
    ensures
        text@ == hex_lower(data@),
{
    hex::encode(data)
}

/// The address that belongs to a public key, from the two coordinates of
/// the key as text of 32 bytes each: the last 20 bytes of the Keccak-256
/// digest of the two texts one after the other, in lower-case hexadecimal.
pub fn pubkey_to_eth_address(x: &str, y: &str) -> (address: String)
    requires
        x.spec_bytes().len() == 32,
        y.spec_bytes().len() == 32,
    ensures
        address@ == hex_lower(
            keccak256_digest(x.spec_bytes() + y.spec_bytes()).subrange(12, 32),
        ),
{
    let x_bytes = x.as_bytes();
    let y_bytes = y.as_bytes();
    let mut combined: Vec<u8> = Vec::new();
    let mut i: usize = 0;
    while i < 32
        invariant
            i <= 32,
            x_bytes@.len() == 32,
            combined@ == x_bytes@.subrange(0, i as int),
        decreases 32 - i,
    {
        combined.push(x_bytes[i]);
        i += 1;
        proof {
            assert(combined@ == x_bytes@.subrange(0, i as int));
        }
    }
    let mut j: usize = 0;
    while j < 32
        invariant
            j <= 32,
            x_bytes@.len() == 32,
            y_bytes@.len() == 32,
            combined@ == x_bytes@ + y_bytes@.subrange(0, j as int),
        decreases 32 - j,
    {
        combined.push(y_bytes[j]);
        j += 1;
        proof {
            assert(combined@ == x_bytes@ + y_bytes@.subrange(0, j as int));
        }
    }
    proof {
        assert(x_bytes@.subrange(0, 32) =~= x_bytes@);
        assert(y_bytes@.subrange(0, 32) =~= y_bytes@);
    }
    let hash = keccak256(combined.as_slice());
    let mut address: Vec<u8> = Vec::new();
    let mut k: usize = 12;
    while k < 32
        invariant
            12 <= k <= 32,
            address@ == hash@.subrange(12, k as int),
        decreases 32 - k,
    {
        address.push(hash[k]);
        k += 1;
        proof {
            assert(address@ == hash@.subrange(12, k as int));
        }
    }
    hex_encode(address.as_slice())
}

} // verus!
