//! The persisted form of a vector: each 32-bit word as four bytes, least
//! significant byte first, words in order.

use vstd::prelude::*;

verus! {

/// The four bytes of one word, least significant first.
pub open spec fn word_bytes(w: u32) -> Seq<u8> {
    seq![
        (w % 256) as u8,
        ((w / 256) % 256) as u8,
        ((w / 65536) % 256) as u8,
        (w / 16777216) as u8,
    ]
}

/// The word that four bytes spell, least significant first.
pub open spec fn word_of(b: Seq<u8>) -> u32
    recommends
        b.len() == 4,
{
    (b[0] + 256 * b[1] + 65536 * b[2] + 16777216 * b[3]) as u32
}

/// The blob that stores `v`: byte `i` is byte `i % 4` of word `i / 4`.
pub open spec fn blob_of(v: Seq<u32>) -> Seq<u8> {
    Seq::new(4 * v.len(), |i: int| word_bytes(v[i / 4])[i % 4])
}

/// The words that a blob holds: word `i` is spelled by bytes `4i .. 4i + 4`.
/// Bytes beyond the last whole word are not read.
pub open spec fn words_of(blob: Seq<u8>) -> Seq<u32> {
    Seq::new(blob.len() / 4, |i: int| word_of(blob.subrange(4 * i, 4 * i + 4)))
}

/// Decoding the bytes of a word gives the word back.
pub proof fn lemma_word_roundtrip(w: u32)
    ensures
        word_bytes(w).len() == 4,
        word_of(word_bytes(w)) == w,
{
}

/// Encoding the word that four bytes spell gives the bytes back.
pub proof fn lemma_bytes_roundtrip(b: Seq<u8>)
    requires
        b.len() == 4,
    ensures
        word_bytes(word_of(b)) == b,
{
    let b0 = b[0] as int;
    let b1 = b[1] as int;
    let b2 = b[2] as int;
    let b3 = b[3] as int;
    let w = b0 + 256 * b1 + 65536 * b2 + 16777216 * b3;
    assert(w == word_of(b));
    assert(w / 256 == b1 + 256 * b2 + 65536 * b3 && w % 256 == b0);
    assert(w / 65536 == b2 + 256 * b3 && (w / 256) % 256 == b1);
    assert(w / 16777216 == b3 && (w / 65536) % 256 == b2);
    assert(word_bytes(word_of(b)) =~= b);
}

/// Decoding an encoded vector gives the vector back, whatever its length.
pub proof fn lemma_decode_encode(v: Seq<u32>)
    ensures
        blob_of(v).len() == 4 * v.len(),
        words_of(blob_of(v)) == v,
{
    let blob = blob_of(v);
    assert forall|i: int| 0 <= i < v.len() implies #[trigger] words_of(blob)[i] == v[i] by {
        let four = blob.subrange(4 * i, 4 * i + 4);
        assert(four =~= word_bytes(v[i]));
        lemma_word_roundtrip(v[i]);
    }
    assert(words_of(blob) =~= v);
}

/// Encoding what a blob of whole words holds gives the blob back.
pub proof fn lemma_encode_decode(blob: Seq<u8>)
    requires
        blob.len() % 4 == 0,
    ensures
        words_of(blob).len() * 4 == blob.len(),
        blob_of(words_of(blob)) == blob,
{
    let v = words_of(blob);
    assert forall|j: int| 0 <= j < blob.len() implies #[trigger] blob_of(v)[j] == blob[j] by {
        let i = j / 4;
        let four = blob.subrange(4 * i, 4 * i + 4);
        lemma_bytes_roundtrip(four);
        assert(four[j % 4] == blob[j]);
    }
    assert(blob_of(v) =~= blob);
}

/// Two vectors with the same blob are the same vector.
pub proof fn lemma_encoding_injective(a: Seq<u32>, b: Seq<u32>)
    requires
        blob_of(a) == blob_of(b),
    ensures
        a == b,
{
    lemma_decode_encode(a);
    lemma_decode_encode(b);
}

/// Writes one word as its four bytes.
fn push_word(out: &mut Vec<u8>, w: u32)
    ensures
        final(out)@ == old(out)@ + word_bytes(w),
{
    out.push((w % 256) as u8);
    out.push(((w / 256) % 256) as u8);
    out.push(((w / 65536) % 256) as u8);
    out.push((w / 16777216) as u8);
    assert(out@ =~= old(out)@ + word_bytes(w));
}

/// Reads the word that starts at byte `at`.
fn read_word(blob: &[u8], at: usize) -> (w: u32)
    requires
        at + 4 <= blob@.len(),
    ensures
        w == word_of(blob@.subrange(at as int, at + 4)),
{
    let b0: u32 = blob[at] as u32;
    let b1: u32 = blob[at + 1] as u32;
    let b2: u32 = blob[at + 2] as u32;
    let b3: u32 = blob[at + 3] as u32;
    b0 + 256 * b1 + 65536 * b2 + 16777216 * b3
}

/// Encodes a vector as the blob that is persisted for it.
pub fn encode_vector(v: &[u32]) -> (blob: Vec<u8>)
    ensures
        blob@ == blob_of(v@),
{
    let mut out: Vec<u8> = Vec::new();
    let mut i: usize = 0;
    while i < v.len()
        invariant
            i <= v@.len(),
            out@ == blob_of(v@.take(i as int)),
        decreases v@.len() - i,
    {
        let ghost before = out@;
        push_word(&mut out, v[i]);
        assert(out@ =~= blob_of(v@.take(i + 1))) by {
            assert(v@.take(i + 1) =~= v@.take(i as int).push(v@[i as int]));
        }
        i += 1;
    }
    assert(v@.take(i as int) =~= v@);
    out
}

/// Decodes a persisted blob as a vector of `dim` words. A blob of any other
/// length than `4 * dim` bytes holds no such vector.
pub fn decode_blob(blob: &[u8], dim: usize) -> (r: Option<Vec<u32>>)
    ensures
        r is Some <==> blob@.len() == 4 * dim,
        r matches Some(v) ==> v@ == words_of(blob@) && blob_of(v@) == blob@,
{
    if blob.len() % 4 != 0 || blob.len() / 4 != dim {
        return None;
    }
    let mut out: Vec<u32> = Vec::new();
    let mut i: usize = 0;
    while i < dim
        invariant
            blob@.len() == 4 * dim,
            4 * dim <= usize::MAX,
            i <= dim,
            out@ == words_of(blob@).take(i as int),
        decreases dim - i,
    {
        let w = read_word(blob, 4 * i);
        out.push(w);
        assert(out@ =~= words_of(blob@).take(i + 1));
        i += 1;
    }
    proof {
        assert(out@ =~= words_of(blob@));
        lemma_encode_decode(blob@);
    }
    Some(out)
}

} // verus!
