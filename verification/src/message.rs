use vstd::prelude::*;

verus! {

/// The eight 32-bit words of a commitment, least significant first: of each
/// of its four elements the low half, then the high half. This is the
/// commitment as one number of 256 bits, ready to be signed.
pub fn commitment_words(commitment: [u64; 4]) -> (words: [u32; 8])
    ensures
        forall|k: int|
            0 <= k < 4 ==> (#[trigger] words[2 * k]) == commitment[k] % 0x1_0000_0000 && words[2
                * k + 1] == commitment[k] / 0x1_0000_0000,
{
    let mut words: [u32; 8] = [0u32; 8];
    let mut k: usize = 0;
    while k < 4
        invariant
            k <= 4,
            forall|j: int|
                0 <= j < k ==> (#[trigger] words[2 * j]) == commitment[j] % 0x1_0000_0000
                    && words[2 * j + 1] == commitment[j] / 0x1_0000_0000,
        decreases 4 - k,
    {
        let element = commitment[k];
        words[2 * k] = (element % 0x1_0000_0000) as u32;
        words[2 * k + 1] = (element / 0x1_0000_0000) as u32;
        k += 1;
    }
    words
}

} // verus!
