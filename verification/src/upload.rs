//! What the instance generator takes on trust from the `bytemuck` crate.
use vstd::prelude::*;

verus! {

/// The 32-bit word that four bytes at `4 * i` spell, lowest byte first.
pub open spec fn word_le(bytes: Seq<u8>, i: int) -> int {
    bytes[4 * i] + 0x100 * bytes[4 * i + 1] + 0x1_0000 * bytes[4 * i + 2] + 0x100_0000 * bytes[4
        * i + 3]
}

/// The 32-bit word that four bytes at `4 * i` spell, highest byte first.
pub open spec fn word_be(bytes: Seq<u8>, i: int) -> int {
    bytes[4 * i + 3] + 0x100 * bytes[4 * i + 2] + 0x1_0000 * bytes[4 * i + 1] + 0x100_0000
        * bytes[4 * i]
}

/// Whether the bytes are the words as they lie in memory, in one of the two
/// byte orders.
pub open spec fn spells(bytes: Seq<u8>, words: Seq<u32>) -> bool {
    &&& bytes.len() == 4 * words.len()
    &&& {
        ||| forall|i: int| 0 <= i < words.len() ==> word_le(bytes, i) == #[trigger] words[i]
        ||| forall|i: int| 0 <= i < words.len() ==> word_be(bytes, i) == #[trigger] words[i]
    }
}

/// `bytemuck::cast_slice`, from `u32` to `u8`, reads the words' memory as
/// bytes. Taken on trust: there are four bytes to a word, in the order of
/// the words, each word in the machine's byte order.
#[verifier::external_body]
pub(crate) fn words_as_bytes(words: &[u32]) -> (bytes: Vec<u8>)
    ensures
        spells(bytes@, words@),
{
    bytemuck::cast_slice::<u32, u8>(words).to_vec()
}

} // verus!
