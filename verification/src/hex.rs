use vstd::prelude::*;

verus! {

/// The lowercase ASCII hex digit for a value below 16.
pub open spec fn hex_digit(v: u8) -> u8
    recommends
        v < 16,
{
    if v < 10 {
        (0x30 + v) as u8
    } else {
        (0x57 + v) as u8
    }
}

/// The numeric value of a lowercase ASCII hex digit.
pub open spec fn hex_value(c: u8) -> u8 {
    if 0x30 <= c <= 0x39 {
        (c - 0x30) as u8
    } else if 0x61 <= c <= 0x66 {
        (c - 0x57) as u8
    } else {
        0
    }
}

/// Whether a byte is a lowercase ASCII hex digit.
pub open spec fn is_hex_digit(c: u8) -> bool {
    (0x30 <= c <= 0x39) || (0x61 <= c <= 0x66)
}

/// The lowercase hex rendering of a byte sequence: two digits per byte,
/// high nibble first, in byte order.
pub open spec fn hex_of(bytes: Seq<u8>) -> Seq<u8> {
    Seq::new(
        (bytes.len() * 2) as nat,
        |i: int|
            if i % 2 == 0 {
                hex_digit((bytes[i / 2] >> 4u8) as u8)
            } else {
                hex_digit((bytes[i / 2] & 0x0f) as u8)
            },
    )
}

/// The bytes read back from a lowercase hex rendering of even length.
pub open spec fn unhex_of(digits: Seq<u8>) -> Seq<u8> {
    Seq::new(
        (digits.len() / 2) as nat,
        |i: int| ((hex_value(digits[2 * i]) as u8) << 4u8 | hex_value(digits[2 * i + 1])) as u8,
    )
}

proof fn lemma_nibbles_recombine(b: u8)
    by (bit_vector)
    ensures
        (b >> 4u8) < 16,
        (b & 0x0f) < 16,
        ((b >> 4u8) << 4u8 | (b & 0x0f)) == b,
{
}

/// Hex encoding loses nothing: decoding the rendering of any byte
/// sequence gives the sequence back, byte for byte and in order.
pub proof fn lemma_hex_roundtrip(bytes: Seq<u8>)
    ensures
        unhex_of(hex_of(bytes)) =~= bytes,
        hex_of(bytes).len() == bytes.len() * 2,
        forall|i: int| 0 <= i < hex_of(bytes).len() ==> is_hex_digit(#[trigger] hex_of(bytes)[i]),
{
    let h = hex_of(bytes);
    assert(h.len() / 2 == bytes.len());
    assert forall|i: int| 0 <= i < bytes.len() implies unhex_of(h)[i] == bytes[i] by {
        lemma_nibbles_recombine(bytes[i]);
        assert((2 * i) % 2 == 0 && (2 * i) / 2 == i && (2 * i + 1) % 2 == 1 && (2 * i + 1) / 2
            == i);
        let hi = (bytes[i] >> 4u8) as u8;
        let lo = (bytes[i] & 0x0f) as u8;
        assert(h[2 * i] == hex_digit(hi) && h[2 * i + 1] == hex_digit(lo));
        assert(hex_value(hex_digit(hi)) == hi && hex_value(hex_digit(lo)) == lo);
    }
    assert forall|i: int| 0 <= i < h.len() implies is_hex_digit(h[i]) by {
        vstd::arithmetic::div_mod::lemma_mod_bound(i, 2);
        vstd::arithmetic::div_mod::lemma_fundamental_div_mod(i, 2);
        assert(0 <= i / 2 < bytes.len()) by (nonlinear_arith)
            requires
                0 <= i < bytes.len() * 2,
                i == 2 * (i / 2) + i % 2,
                0 <= i % 2 < 2,
        ;
        lemma_nibbles_recombine(bytes[i / 2]);
    }
}

/// Renders bytes as lowercase hex, two digits per byte, high nibble first.
pub fn hex_encode(bytes: &[u8]) -> (digits: Vec<u8>)
    requires
        bytes@.len() * 2 <= usize::MAX,
    ensures
        digits@ == hex_of(bytes@),
{
    let n: usize = bytes.len();
    let mut digits: Vec<u8> = Vec::new();
    let mut i: usize = 0;
    while i < n
        invariant
            i <= n,
            n == bytes@.len(),
            n * 2 <= usize::MAX,
            digits@ =~= hex_of(bytes@.subrange(0, i as int)),
        decreases n - i,
    {
        let b = bytes[i];
        let hi: u8 = b >> 4u8;
        let lo: u8 = b & 0x0f;
        proof {
            lemma_nibbles_recombine(b);
        }
        let dh: u8 = if hi < 10 {
            0x30 + hi
        } else {
            0x57 + hi
        };
        let dl: u8 = if lo < 10 {
            0x30 + lo
        } else {
            0x57 + lo
        };
        digits.push(dh);
        digits.push(dl);
        proof {
            let prev = bytes@.subrange(0, i as int);
            let cur = bytes@.subrange(0, i + 1);
            assert forall|j: int| 0 <= j < cur.len() * 2 implies hex_of(cur)[j] == digits@[j] by {
                vstd::arithmetic::div_mod::lemma_mod_bound(j, 2);
                vstd::arithmetic::div_mod::lemma_fundamental_div_mod(j, 2);
                assert(0 <= j / 2 <= i) by (nonlinear_arith)
                    requires
                        0 <= j < (i + 1) * 2,
                        j == 2 * (j / 2) + j % 2,
                        0 <= j % 2 < 2,
                ;
                if j / 2 < i {
                    assert(hex_of(prev)[j] == digits@[j]);
                    assert(cur[j / 2] == prev[j / 2]);
                } else {
                    assert(j == 2 * i + j % 2);
                    assert(cur[j / 2] == b);
                }
            }
            assert(digits@ =~= hex_of(cur));
        }
        i += 1;
    }
    proof {
        assert(bytes@.subrange(0, n as int) =~= bytes@);
    }
    digits
}

/// Reads a lowercase hex rendering of even length back into bytes.
pub fn hex_decode(digits: &[u8]) -> (bytes: Vec<u8>)
    requires
        digits@.len() % 2 == 0,
        forall|i: int| 0 <= i < digits@.len() ==> is_hex_digit(#[trigger] digits@[i]),
    ensures
        bytes@ == unhex_of(digits@),
{
    let n: usize = digits.len() / 2;
    proof {
        vstd::arithmetic::div_mod::lemma_fundamental_div_mod(digits@.len() as int, 2);
        assert(digits@.len() <= usize::MAX);
    }
    let mut bytes: Vec<u8> = Vec::new();
    let mut i: usize = 0;
    while i < n
        invariant
            i <= n,
            n == digits@.len() / 2,
            digits@.len() == 2 * n,
            digits@.len() <= usize::MAX,
            forall|j: int| 0 <= j < digits@.len() ==> is_hex_digit(#[trigger] digits@[j]),
            bytes@ =~= unhex_of(digits@).subrange(0, i as int),
        decreases n - i,
    {
        let ch: u8 = digits[2 * i];
        let cl: u8 = digits[2 * i + 1];
        let vh: u8 = if ch >= 0x61 {
            ch - 0x57
        } else {
            ch - 0x30
        };
        let vl: u8 = if cl >= 0x61 {
            cl - 0x57
        } else {
            cl - 0x30
        };
        proof {
            assert(is_hex_digit(digits@[2 * i]) && is_hex_digit(digits@[2 * i + 1]));
            assert(vh == hex_value(ch) && vl == hex_value(cl));
            assert(vh < 16 && vl < 16);
            assert((vh << 4u8) | vl == ((vh << 4u8) + vl) as u8) by (bit_vector)
                requires
                    vh < 16 && vl < 16,
            ;
        }
        let b: u8 = (vh << 4u8) | vl;
        bytes.push(b);
        i += 1;
    }
    proof {
        assert(unhex_of(digits@).subrange(0, n as int) =~= unhex_of(digits@));
    }
    bytes
}

} // verus!
