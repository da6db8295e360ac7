//! SPIR-V cache files: a flat sequence of 32-bit words, each written as four
//! little-endian bytes, with no header and no length prefix.

use vstd::prelude::*;

verus! {

/// Byte `j` (0 = least significant) of a word.
pub open spec fn byte_of(w: u32, j: int) -> u8 {
    if j == 0 {
        (w & 0xff) as u8
    } else if j == 1 {
        ((w >> 8u32) & 0xff) as u8
    } else if j == 2 {
        ((w >> 16u32) & 0xff) as u8
    } else {
        ((w >> 24u32) & 0xff) as u8
    }
}

/// The four bytes of a word, least significant first.
pub open spec fn word_bytes(w: u32) -> Seq<u8> {
    seq![byte_of(w, 0), byte_of(w, 1), byte_of(w, 2), byte_of(w, 3)]
}

/// The word whose bytes, least significant first, are `b0 b1 b2 b3`.
pub open spec fn word_of(b0: u8, b1: u8, b2: u8, b3: u8) -> u32 {
    (b0 as u32) | ((b1 as u32) << 8u32) | ((b2 as u32) << 16u32) | ((b3 as u32) << 24u32)
}

/// The file image of a word sequence.
pub open spec fn encode_words(ws: Seq<u32>) -> Seq<u8>
    decreases ws.len(),
{
    if ws.len() == 0 {
        seq![]
    } else {
        encode_words(ws.drop_last()) + word_bytes(ws.last())
    }
}

/// The words of a file image whose length is a multiple of four.
pub open spec fn decode_words(bs: Seq<u8>) -> Seq<u32>
    decreases bs.len(),
{
    if bs.len() < 4 {
        seq![]
    } else {
        let n = bs.len() as int;
        decode_words(bs.subrange(0, n - 4)).push(word_of(bs[n - 4], bs[n - 3], bs[n - 2], bs[n - 1]))
    }
}

/// Why a byte image cannot be read back as words.
#[derive(Debug, Clone, Copy, PartialEq, Eq)]
pub enum SpirvError {
    /// The image length is not a multiple of the four-byte word size.
    TruncatedWord,
}

proof fn lemma_word_round_trip(w: u32)
    ensures
        word_of(byte_of(w, 0), byte_of(w, 1), byte_of(w, 2), byte_of(w, 3)) == w,
{
    assert(((w & 0xff) as u8) as u32 | (((((w >> 8u32) & 0xff) as u8) as u32) << 8u32) | (
    ((((w >> 16u32) & 0xff) as u8) as u32) << 16u32) | (((((w >> 24u32) & 0xff) as u8) as u32)
        << 24u32) == w) by (bit_vector);
}

proof fn lemma_encode_len(ws: Seq<u32>)
    ensures
        encode_words(ws).len() == 4 * ws.len(),
    decreases ws.len(),
{
    if ws.len() > 0 {
        lemma_encode_len(ws.drop_last());
    }
}

/// Writing words to bytes and reading them back gives the same words, for
/// every sequence including the empty one; the image holds four bytes per word.
pub proof fn lemma_spirv_round_trip(ws: Seq<u32>)
    ensures
        encode_words(ws).len() == 4 * ws.len(),
        decode_words(encode_words(ws)) == ws,
    decreases ws.len(),
{
    lemma_encode_len(ws);
    if ws.len() > 0 {
        let pre = ws.drop_last();
        let w = ws.last();
        lemma_spirv_round_trip(pre);
        lemma_word_round_trip(w);
        let bs = encode_words(ws);
        let n = bs.len() as int;
        assert(bs.subrange(0, n - 4) =~= encode_words(pre));
        assert(bs[n - 4] == byte_of(w, 0));
        assert(bs[n - 3] == byte_of(w, 1));
        assert(bs[n - 2] == byte_of(w, 2));
        assert(bs[n - 1] == byte_of(w, 3));
        assert(decode_words(bs) =~= ws);
    }
}

/// The file image of `words`.
pub fn encode_spirv(words: &[u32]) -> (r: Vec<u8>)
    requires
        4 * words@.len() <= usize::MAX,
    ensures
        r@ == encode_words(words@),
{
    let mut out: Vec<u8> = Vec::new();
    let mut i: usize = 0;
    while i < words.len()
        invariant
            i <= words@.len(),
            out@ == encode_words(words@.subrange(0, i as int)),
        decreases words@.len() - i,
    {
        let w = words[i];
        out.push((w & 0xff) as u8);
        out.push(((w >> 8u32) & 0xff) as u8);
        out.push(((w >> 16u32) & 0xff) as u8);
        out.push(((w >> 24u32) & 0xff) as u8);
        proof {
            let next = words@.subrange(0, i + 1);
            assert(next.drop_last() =~= words@.subrange(0, i as int));
            assert(out@ =~= encode_words(next));
        }
        i = i + 1;
    }
    assert(words@.subrange(0, words@.len() as int) =~= words@);
    out
}

/// The words of a file image; an image whose length is not a multiple of
/// four is refused.
pub fn decode_spirv(bytes: &[u8]) -> (r: Result<Vec<u32>, SpirvError>)
    ensures
        bytes@.len() % 4 == 0 <==> r is Ok,
        r is Ok ==> r->Ok_0@ == decode_words(bytes@),
        r is Err ==> r->Err_0 == SpirvError::TruncatedWord,
{
    if bytes.len() % 4 != 0 {
        return Err(SpirvError::TruncatedWord);
    }
    let count = bytes.len() / 4;
    assert(count * 4 == bytes@.len());
    let mut out: Vec<u32> = Vec::new();
    let mut i: usize = 0;
    while i < count
        invariant
            count * 4 == bytes@.len(),
            bytes@.len() <= usize::MAX,
            i <= count,
            out@ == decode_words(bytes@.subrange(0, 4 * i)),
        decreases count - i,
    {
        let k = 4 * i;
        let w = (bytes[k] as u32) | ((bytes[k + 1] as u32) << 8u32) | ((bytes[k + 2] as u32)
            << 16u32) | ((bytes[k + 3] as u32) << 24u32);
        out.push(w);
        proof {
            let next = bytes@.subrange(0, 4 * i + 4);
            assert(next.subrange(0, 4 * i) =~= bytes@.subrange(0, 4 * i));
            assert(out@ =~= decode_words(next));
        }
        i = i + 1;
    }
    assert(bytes@.subrange(0, 4 * count) =~= bytes@);
    Ok(out)
}

} // verus!
