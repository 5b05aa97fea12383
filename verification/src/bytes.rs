//! Little-endian integers in byte sequences.

use vstd::prelude::*;

verus! {

/// The bytes of `x`, least significant first.
#[verifier::opaque]
pub open spec fn le16(x: u16) -> Seq<u8> {
    seq![(x % 256) as u8, (x / 256) as u8]
}

/// The bytes of `x`, least significant first.
#[verifier::opaque]
pub open spec fn le32(x: u32) -> Seq<u8> {
    seq![
        (x % 256) as u8,
        (x / 256 % 256) as u8,
        (x / 65536 % 256) as u8,
        (x / 16777216) as u8,
    ]
}

/// The integer whose bytes start at `at`.
pub open spec fn from_le16(bytes: Seq<u8>, at: int) -> u16 {
    (bytes[at] + 256 * bytes[at + 1]) as u16
}

/// The integer whose bytes start at `at`.
pub open spec fn from_le32(bytes: Seq<u8>, at: int) -> u32 {
    (bytes[at] + 256 * bytes[at + 1] + 65536 * bytes[at + 2] + 16777216 * bytes[at + 3]) as u32
}

/// The bytes of all words, one after the other.
#[verifier::opaque]
pub open spec fn words_to_bytes(words: Seq<u32>) -> Seq<u8> {
    Seq::new(4 * words.len(), |i: int| le32(words[i / 4])[i % 4])
}

/// The words of which `bytes` are made; bytes beyond the last whole word are
/// left out.
#[verifier::opaque]
pub open spec fn bytes_to_words(bytes: Seq<u8>) -> Seq<u32> {
    Seq::new(bytes.len() / 4, |i: int| from_le32(bytes, 4 * i))
}

pub fn push_le16(out: &mut Vec<u8>, x: u16)
    ensures
        final(out)@ == old(out)@ + le16(x),
{
    let ghost before = out@;
    out.push((x % 256) as u8);
    out.push((x / 256) as u8);
    proof {
        reveal(le16);
        assert(out@ =~= before + le16(x));
    }
}

pub fn push_le32(out: &mut Vec<u8>, x: u32)
    ensures
        final(out)@ == old(out)@ + le32(x),
{
    let ghost before = out@;
    out.push((x % 256) as u8);
    out.push((x / 256 % 256) as u8);
    out.push((x / 65536 % 256) as u8);
    out.push((x / 16777216) as u8);
    proof {
        reveal(le32);
        assert(out@ =~= before + le32(x));
    }
}

pub fn read_le16(bytes: &[u8], at: usize) -> (x: u16)
    requires
        at + 2 <= bytes@.len(),
    ensures
        x == from_le16(bytes@, at as int),
{
    bytes[at] as u16 + 256 * bytes[at + 1] as u16
}

pub fn read_le32(bytes: &[u8], at: usize) -> (x: u32)
    requires
        at + 4 <= bytes@.len(),
    ensures
        x == from_le32(bytes@, at as int),
{
    bytes[at] as u32 + 256 * bytes[at + 1] as u32 + 65536 * bytes[at + 2] as u32 + 16777216
        * bytes[at + 3] as u32
}

/// Append the bytes of every word.
pub fn push_words(out: &mut Vec<u8>, words: &[u32])
    requires
        4 * words@.len() <= usize::MAX,
    ensures
        final(out)@ == old(out)@ + words_to_bytes(words@),
{
    let ghost before = out@;
    let mut i: usize = 0;
    proof {
        reveal(words_to_bytes);
        assert(words_to_bytes(words@.take(0)) =~= Seq::empty());
    }
    while i < words.len()
        invariant
            i <= words@.len(),
            out@ == before + words_to_bytes(words@.take(i as int)),
        decreases words@.len() - i,
    {
        push_le32(out, words[i]);
        proof {
            reveal(words_to_bytes);
            lemma_le_len();
            assert(words_to_bytes(words@.take(i + 1)) =~= words_to_bytes(words@.take(i as int))
                + le32(words@[i as int]));
        }
        i = i + 1;
    }
    assert(words@.take(words@.len() as int) =~= words@);
}

/// The whole words in the `len` bytes that start at `from`.
pub fn read_words(bytes: &[u8], from: usize, len: usize) -> (words: Vec<u32>)
    requires
        from + len <= bytes@.len(),
    ensures
        words@ == bytes_to_words(bytes@.subrange(from as int, from + len)),
{
    let mut words: Vec<u32> = Vec::new();
    let total: usize = bytes.len();
    let count: usize = len / 4;
    let mut i: usize = 0;
    let ghost part = bytes@.subrange(from as int, from + len);
    while i < count
        invariant
            i <= count,
            count == len / 4,
            from + len <= bytes@.len(),
            total == bytes@.len(),
            part == bytes@.subrange(from as int, from + len),
            words@.len() == i,
            forall|k: int| 0 <= k < i ==> #[trigger] words@[k] == from_le32(part, 4 * k),
        decreases count - i,
    {
        words.push(read_le32(bytes, from + 4 * i));
        i = i + 1;
    }
    proof {
        reveal(bytes_to_words);
        assert(words@ =~= bytes_to_words(part));
    }
    words
}

/// Reading gives back the integer that was written.
pub proof fn lemma_le16_round_trip(x: u16)
    ensures
        le16(x).len() == 2,
        from_le16(le16(x), 0) == x,
{
    reveal(le16);
}

/// Reading gives back the integer that was written.
pub proof fn lemma_le32_round_trip(x: u32)
    ensures
        le32(x).len() == 4,
        from_le32(le32(x), 0) == x,
{
    reveal(le32);
}

/// Every integer takes up the bytes of its width.
pub proof fn lemma_le_len()
    ensures
        forall|x: u16| #[trigger] le16(x).len() == 2,
        forall|x: u32| #[trigger] le32(x).len() == 4,
{
    reveal(le16);
    reveal(le32);
}

/// Reading gives back the integer that was written, wherever it stands.
pub proof fn lemma_le16_at(bytes: Seq<u8>, at: int, x: u16)
    requires
        0 <= at <= bytes.len() - 2,
        bytes.subrange(at, at + 2) == le16(x),
    ensures
        from_le16(bytes, at) == x,
{
    let field = bytes.subrange(at, at + 2);
    assert(bytes[at] == field[0] && bytes[at + 1] == field[1]);
    lemma_le16_round_trip(x);
}

/// Reading gives back the integer that was written, wherever it stands.
pub proof fn lemma_le32_at(bytes: Seq<u8>, at: int, x: u32)
    requires
        0 <= at <= bytes.len() - 4,
        bytes.subrange(at, at + 4) == le32(x),
    ensures
        from_le32(bytes, at) == x,
{
    let field = bytes.subrange(at, at + 4);
    assert(bytes[at] == field[0] && bytes[at + 1] == field[1] && bytes[at + 2] == field[2]
        && bytes[at + 3] == field[3]);
    lemma_le32_round_trip(x);
}

/// The fields of a header stand one behind the other.
pub proof fn lemma_layout(
    magic: Seq<u8>,
    kind: Seq<u8>,
    a: Seq<u8>,
    b: Seq<u8>,
    c: Seq<u8>,
    d: Seq<u8>,
    rest: Seq<u8>,
)
    requires
        magic.len() == 4,
        a.len() == 4,
        b.len() == 4,
        c.len() == 2,
        d.len() == 4,
    ensures
        ({
            let buf = magic + kind + a + b + c + d + rest;
            let k = 4 + kind.len() as int;
            &&& buf.take(4) == magic
            &&& buf.subrange(4, k) == kind
            &&& buf.subrange(k, k + 4) == a
            &&& buf.subrange(k + 4, k + 8) == b
            &&& buf.subrange(k + 8, k + 10) == c
            &&& buf.subrange(k + 10, k + 14) == d
        }),
{
    let buf = magic + kind + a + b + c + d + rest;
    let k = 4 + kind.len() as int;
    assert(buf.take(4) =~= magic);
    assert(buf.subrange(4, k) =~= kind);
    assert(buf.subrange(k, k + 4) =~= a);
    assert(buf.subrange(k + 4, k + 8) =~= b);
    assert(buf.subrange(k + 8, k + 10) =~= c);
    assert(buf.subrange(k + 10, k + 14) =~= d);
}

/// Each word takes up four bytes.
pub proof fn lemma_words_len(words: Seq<u32>)
    ensures
        words_to_bytes(words).len() == 4 * words.len(),
{
    reveal(words_to_bytes);
}

/// Reading gives back the words that were written.
pub proof fn lemma_words_round_trip(words: Seq<u32>)
    ensures
        words_to_bytes(words).len() == 4 * words.len(),
        bytes_to_words(words_to_bytes(words)) == words,
{
    reveal(words_to_bytes);
    reveal(bytes_to_words);
    let bytes = words_to_bytes(words);
    assert forall|i: int| 0 <= i < words.len() implies #[trigger] bytes_to_words(bytes)[i]
        == words[i] by {
        lemma_le32_round_trip(words[i]);
        assert(bytes[4 * i] == le32(words[i])[0]);
        assert(bytes[4 * i + 1] == le32(words[i])[1]);
        assert(bytes[4 * i + 2] == le32(words[i])[2]);
        assert(bytes[4 * i + 3] == le32(words[i])[3]);
    }
    assert(bytes_to_words(bytes) =~= words);
}

} // verus!
