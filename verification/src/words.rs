use vstd::prelude::*;

verus! {

/// Byte `j` (0 = lowest) of a 32-bit word under little-endian packing.
pub open spec fn le_byte_of_word(w: u32, j: int) -> u8 {
    ((w >> ((8 * j) as u32)) & 0xff) as u8
}

/// The 32-bit word packed little-endian from four consecutive bytes
/// starting at `4 * i`.
pub open spec fn le_word_at(bytes: Seq<u8>, i: int) -> u32 {
    (bytes[4 * i] as u32) | ((bytes[4 * i + 1] as u32) << 8u32) | ((bytes[4 * i + 2] as u32)
        << 16u32) | ((bytes[4 * i + 3] as u32) << 24u32)
}

/// A byte sequence of length `4 * n` read as `n` little-endian words.
pub open spec fn le_words_of(bytes: Seq<u8>) -> Seq<u32> {
    Seq::new((bytes.len() / 4) as nat, |i: int| le_word_at(bytes, i))
}

/// A word sequence written out as little-endian bytes.
pub open spec fn le_bytes_of_words(words: Seq<u32>) -> Seq<u8> {
    Seq::new((words.len() * 4) as nat, |i: int| le_byte_of_word(words[i / 4], i % 4))
}

proof fn lemma_word_from_bytes(b0: u8, b1: u8, b2: u8, b3: u8)
    by (bit_vector)
    ensures
        ((((b0 as u32) | ((b1 as u32) << 8u32) | ((b2 as u32) << 16u32) | ((b3 as u32) << 24u32))
            >> 0u32) & 0xff) as u8 == b0,
        ((((b0 as u32) | ((b1 as u32) << 8u32) | ((b2 as u32) << 16u32) | ((b3 as u32) << 24u32))
            >> 8u32) & 0xff) as u8 == b1,
        ((((b0 as u32) | ((b1 as u32) << 8u32) | ((b2 as u32) << 16u32) | ((b3 as u32) << 24u32))
            >> 16u32) & 0xff) as u8 == b2,
        ((((b0 as u32) | ((b1 as u32) << 8u32) | ((b2 as u32) << 16u32) | ((b3 as u32) << 24u32))
            >> 24u32) & 0xff) as u8 == b3,
{
}

proof fn lemma_word_from_its_bytes(w: u32)
    by (bit_vector)
    ensures
        ((((w >> 0u32) & 0xff) as u8 as u32) | ((((w >> 8u32) & 0xff) as u8 as u32) << 8u32) | ((((
        w >> 16u32) & 0xff) as u8 as u32) << 16u32) | ((((w >> 24u32) & 0xff) as u8 as u32)
            << 24u32)) == w,
{
}

/// Packing bytes into words and unpacking again gives the bytes back.
pub proof fn lemma_le_roundtrip_bytes(bytes: Seq<u8>)
    requires
        bytes.len() % 4 == 0,
    ensures
        le_bytes_of_words(le_words_of(bytes)) =~= bytes,
{
    let words = le_words_of(bytes);
    assert(words.len() == bytes.len() / 4);
    assert forall|i: int| 0 <= i < bytes.len() implies le_bytes_of_words(words)[i] == bytes[i] by {
        let q = i / 4;
        let r = i % 4;
        vstd::arithmetic::div_mod::lemma_fundamental_div_mod(i, 4);
        vstd::arithmetic::div_mod::lemma_mod_bound(i, 4);
        assert(0 <= q < words.len()) by (nonlinear_arith)
            requires
                0 <= i < bytes.len(),
                i == 4 * q + r,
                0 <= r < 4,
                words.len() == bytes.len() / 4,
                bytes.len() % 4 == 0,
        ;
        lemma_word_from_bytes(bytes[4 * q], bytes[4 * q + 1], bytes[4 * q + 2], bytes[4 * q + 3]);
        assert(le_byte_of_word(words[q], r) == bytes[4 * q + r]);
    }
}

/// Unpacking words into bytes and packing again gives the words back.
pub proof fn lemma_le_roundtrip_words(words: Seq<u32>)
    ensures
        le_words_of(le_bytes_of_words(words)) =~= words,
{
    let bytes = le_bytes_of_words(words);
    assert(bytes.len() == words.len() * 4);
    assert(bytes.len() / 4 == words.len()) by (nonlinear_arith)
        requires
            bytes.len() == words.len() * 4,
    ;
    assert forall|i: int| 0 <= i < words.len() implies le_words_of(bytes)[i] == words[i] by {
        assert((4 * i) / 4 == i && (4 * i) % 4 == 0 && (4 * i + 1) / 4 == i && (4 * i + 1) % 4 == 1
            && (4 * i + 2) / 4 == i && (4 * i + 2) % 4 == 2 && (4 * i + 3) / 4 == i && (4 * i + 3)
            % 4 == 3) by (nonlinear_arith)
            requires
                0 <= i,
        ;
        assert(bytes[4 * i] == le_byte_of_word(words[i], 0));
        assert(bytes[4 * i + 1] == le_byte_of_word(words[i], 1));
        assert(bytes[4 * i + 2] == le_byte_of_word(words[i], 2));
        assert(bytes[4 * i + 3] == le_byte_of_word(words[i], 3));
        lemma_word_from_its_bytes(words[i]);
    }
}

/// Four-byte-aligned slices of a word buffer's byte rendering are the
/// byte rendering of the word slice.
pub proof fn lemma_le_bytes_of_words_slice(ws: Seq<u32>, a: int, b: int)
    requires
        0 <= a <= b <= ws.len(),
    ensures
        le_bytes_of_words(ws).subrange(4 * a, 4 * b) =~= le_bytes_of_words(ws.subrange(a, b)),
{
    let lhs = le_bytes_of_words(ws).subrange(4 * a, 4 * b);
    let sub = ws.subrange(a, b);
    let rhs = le_bytes_of_words(sub);
    assert(ws.len() * 4 >= 4 * b) by (nonlinear_arith)
        requires
            b <= ws.len(),
    ;
    assert(lhs.len() == 4 * (b - a));
    assert(rhs.len() == (b - a) * 4);
    assert forall|j: int| 0 <= j < 4 * (b - a) implies lhs[j] == rhs[j] by {
        let q = j / 4;
        let r = j % 4;
        vstd::arithmetic::div_mod::lemma_fundamental_div_mod(j, 4);
        vstd::arithmetic::div_mod::lemma_mod_bound(j, 4);
        vstd::arithmetic::div_mod::lemma_fundamental_div_mod_converse_mod(4 * a + j, 4, a + q, r);
        vstd::arithmetic::div_mod::lemma_fundamental_div_mod_converse_div(4 * a + j, 4, a + q, r);
        assert(0 <= q < b - a) by (nonlinear_arith)
            requires
                0 <= j < 4 * (b - a),
                j == 4 * q + r,
                0 <= r < 4,
        ;
        assert(lhs[j] == le_byte_of_word(ws[a + q], r));
        assert(rhs[j] == le_byte_of_word(sub[q], r));
    }
}

/// Packs a byte buffer whose length is a multiple of four into
/// little-endian 32-bit words, four bytes per word, order preserved.
pub fn words_from_bytes(bytes: &[u8]) -> (words: Vec<u32>)
    requires
        bytes@.len() % 4 == 0,
    ensures
        words@ == le_words_of(bytes@),
{
    let total: usize = bytes.len();
    let n: usize = total / 4;
    proof {
        vstd::arithmetic::div_mod::lemma_fundamental_div_mod(bytes@.len() as int, 4);
        assert(bytes@.len() <= usize::MAX);
    }
    let mut words: Vec<u32> = Vec::new();
    let mut i: usize = 0;
    while i < n
        invariant
            i <= n,
            n == bytes@.len() / 4,
            bytes@.len() == 4 * n,
            bytes@.len() <= usize::MAX,
            words@ =~= le_words_of(bytes@).subrange(0, i as int),
        decreases n - i,
    {
        let b0 = bytes[4 * i];
        let b1 = bytes[4 * i + 1];
        let b2 = bytes[4 * i + 2];
        let b3 = bytes[4 * i + 3];
        let w: u32 = (b0 as u32) | ((b1 as u32) << 8u32) | ((b2 as u32) << 16u32) | ((b3 as u32)
            << 24u32);
        proof {
            assert(w == le_word_at(bytes@, i as int));
        }
        words.push(w);
        i += 1;
    }
    proof {
        assert(le_words_of(bytes@).subrange(0, n as int) =~= le_words_of(bytes@));
    }
    words
}

/// Unpacks 32-bit words into bytes, little-endian within each word,
/// word order preserved.
pub fn bytes_from_words(words: &[u32]) -> (bytes: Vec<u8>)
    requires
        words@.len() * 4 <= usize::MAX,
    ensures
        bytes@ == le_bytes_of_words(words@),
{
    let n: usize = words.len();
    let mut bytes: Vec<u8> = Vec::new();
    let mut i: usize = 0;
    while i < n
        invariant
            i <= n,
            n == words@.len(),
            words@.len() * 4 <= usize::MAX,
            bytes@ =~= le_bytes_of_words(words@.subrange(0, i as int)),
        decreases n - i,
    {
        let w = words[i];
        proof {
            assert(i * 4 <= n * 4 && i * 4 + 4 <= n * 4) by (nonlinear_arith)
                requires
                    0 <= i < n,
            ;
        }
        bytes.push(((w >> 0u32) & 0xff) as u8);
        bytes.push(((w >> 8u32) & 0xff) as u8);
        bytes.push(((w >> 16u32) & 0xff) as u8);
        bytes.push(((w >> 24u32) & 0xff) as u8);
        proof {
            let prev = words@.subrange(0, i as int);
            let cur = words@.subrange(0, i + 1);
            assert forall|j: int| 0 <= j < cur.len() * 4 implies le_bytes_of_words(cur)[j]
                == bytes@[j] by {
                let q = j / 4;
                let r = j % 4;
                vstd::arithmetic::div_mod::lemma_fundamental_div_mod(j, 4);
                vstd::arithmetic::div_mod::lemma_mod_bound(j, 4);
                assert(0 <= q <= i) by (nonlinear_arith)
                    requires
                        0 <= j < (i + 1) * 4,
                        j == 4 * q + r,
                        0 <= r < 4,
                ;
                if q < i {
                    assert(bytes@[j] == le_bytes_of_words(prev)[j]);
                    assert(cur[q] == prev[q]);
                } else {
                    assert(j == 4 * i + r);
                    assert(cur[q] == w);
                }
            }
            assert(bytes@ =~= le_bytes_of_words(cur));
        }
        i += 1;
    }
    proof {
        assert(words@.subrange(0, n as int) =~= words@);
    }
    bytes
}

} // verus!
