//! SPIR-V code as the GPU driver takes it: 32-bit words.

use vstd::prelude::*;

verus! {

/// The little-endian 32-bit word made of the four bytes from `at`.
pub open spec fn le_word(bytes: Seq<u8>, at: int) -> u32 {
    (bytes[at] + 0x100 * bytes[at + 1] + 0x1_0000 * bytes[at + 2] + 0x100_0000 * bytes[at + 3]) as u32
}

/// Turns SPIR-V bytes into the 32-bit words of the shader code, four
/// little-endian bytes per word.
pub fn spirv_words(spv: &[u8]) -> (r: Vec<u32>)
    requires
        spv@.len() % 4 == 0,
    ensures
        r@.len() == spv@.len() / 4,
        forall|i: int| 0 <= i < r@.len() ==> #[trigger] r@[i] == le_word(spv@, 4 * i),
{
    let mut words: Vec<u32> = Vec::new();
    let mut at: usize = 0;
    while at < spv.len()
        invariant
            spv@.len() % 4 == 0,
            at % 4 == 0,
            at <= spv@.len(),
            words@.len() == at / 4,
            forall|i: int| 0 <= i < words@.len() ==> #[trigger] words@[i] == le_word(spv@, 4 * i),
        decreases spv@.len() - at,
    {
        let word: u32 = spv[at] as u32 + 0x100 * (spv[at + 1] as u32) + 0x1_0000 * (spv[at + 2] as u32)
            + 0x100_0000 * (spv[at + 3] as u32);
        words.push(word);
        at = at + 4;
    }
    words
}

} // verus!
