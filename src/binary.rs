//! The binary format: a flat stream of 16-bit words, low byte first.

use vstd::prelude::*;

verus! {

/// Reads little-endian words from a byte image; `None` when its length is odd.
pub fn words_from_bytes(bytes: &[u8]) -> (r: Option<Vec<u16>>)
    ensures
        r is None <==> bytes@.len() % 2 == 1,
        r matches Some(words) ==> words@.len() * 2 == bytes@.len() && forall|i: int|
            0 <= i < words@.len() ==> #[trigger] words@[i] == bytes@[2 * i] + 256 * bytes@[2 * i + 1],
{
    if bytes.len() % 2 == 1 {
        return None;
    }
    let mut words: Vec<u16> = Vec::new();
    let mut i: usize = 0;
    while i < bytes.len() / 2
        invariant
            bytes@.len() % 2 == 0,
            i <= bytes@.len() / 2,
            words@.len() == i,
            forall|j: int| 0 <= j < i ==> #[trigger] words@[j] == bytes@[2 * j] + 256 * bytes@[2 * j + 1],
        decreases bytes@.len() / 2 - i,
    {
        let w = bytes[2 * i] as u16 + 256 * (bytes[2 * i + 1] as u16);
        words.push(w);
        i += 1;
    }
    Some(words)
}

/// Writes words as little-endian bytes.
pub fn bytes_from_words(words: &[u16]) -> (r: Vec<u8>)
    requires
        words@.len() * 2 <= usize::MAX,
    ensures
        r@.len() == 2 * words@.len(),
        forall|i: int|
            0 <= i < words@.len() ==> r@[2 * i] == #[trigger] words@[i] % 256 && r@[2 * i + 1] == words@[i]
                / 256,
{
    let mut bytes: Vec<u8> = Vec::new();
    let mut i: usize = 0;
    while i < words.len()
        invariant
            i <= words@.len(),
            bytes@.len() == 2 * i,
            forall|j: int|
                0 <= j < i ==> bytes@[2 * j] == #[trigger] words@[j] % 256 && bytes@[2 * j + 1] == words@[j]
                    / 256,
        decreases words@.len() - i,
    {
        bytes.push((words[i] % 256) as u8);
        bytes.push((words[i] / 256) as u8);
        i += 1;
    }
    bytes
}

} // verus!
