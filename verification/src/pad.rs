use vstd::prelude::*;
use vstd::arithmetic::div_mod::{
    lemma_add_mod_noop, lemma_fundamental_div_mod, lemma_fundamental_div_mod_converse_mod,
    lemma_mod_bound, lemma_mod_twice, lemma_small_mod,
};

verus! {

/// The largest message length in bytes whose bit length fits the 64-bit
/// length field of the padding.
pub const MAX_MESSAGE_BYTES: u64 = 0x1fff_ffff_ffff_ffff;

/// Why a message or a batch is rejected before any backend runs.
#[derive(Clone, Copy, Debug, PartialEq, Eq, Structural)]
pub enum BatchError {
    /// A message's bit length does not fit the 64-bit length field.
    InvalidInput,
    /// The batch's flat word buffer would outgrow the device's
    /// addressing range.
    LayoutOverflow,
}

/// The big-endian bytes of a 64-bit integer: byte `i` carries bits
/// `56 - 8*i` and below.
pub open spec fn be64_bytes(x: u64) -> Seq<u8> {
    Seq::new(8, |i: int| ((x >> (((7 - i) * 8) as u64)) & 0xff) as u8)
}

/// How many zero bytes stand between the `0x80` marker and the length
/// field, so that the padded length is a whole number of blocks.
pub open spec fn pad_zero_count(len: int) -> int {
    (56 - ((len + 1) % 64)) % 64
}

/// Total length in bytes of the padded form of a message of `len` bytes.
pub open spec fn padded_len(len: int) -> int {
    len + 1 + pad_zero_count(len) + 8
}

/// The padded form of a message: the message itself, one `0x80` byte,
/// zero fill, and the original bit length as a big-endian 64-bit field.
pub open spec fn pad_spec(m: Seq<u8>) -> Seq<u8> {
    m + seq![0x80u8] + Seq::new(pad_zero_count(m.len() as int) as nat, |i: int| 0u8) + be64_bytes(
        (m.len() * 8) as u64,
    )
}

/// The zero fill is never negative and never a whole block.
pub proof fn lemma_pad_zero_count_bounds(len: int)
    requires
        len >= 0,
    ensures
        0 <= pad_zero_count(len) < 64,
{
    lemma_mod_bound(56 - ((len + 1) % 64), 64);
}

/// The padded length is a whole number of 64-byte blocks, and lies within
/// 9 to 72 bytes of the message itself.
pub proof fn lemma_padded_len_block_multiple(len: int)
    requires
        len >= 0,
    ensures
        padded_len(len) % 64 == 0,
        len + 9 <= padded_len(len) <= len + 72,
{
    let r = (len + 1) % 64;
    let q = (len + 1) / 64;
    lemma_fundamental_div_mod(len + 1, 64);
    lemma_mod_bound(len + 1, 64);
    let z = pad_zero_count(len);
    if r <= 56 {
        lemma_small_mod((56 - r) as nat, 64);
        assert(z == 56 - r);
        assert(len + 1 + z + 8 == 64 * q + 64);
        lemma_fundamental_div_mod_converse_mod(64 * q + 64, 64, q + 1, 0);
    } else {
        lemma_fundamental_div_mod_converse_mod(56 - r, 64, -1, 120 - r);
        assert(z == 120 - r);
        assert(len + 1 + z + 8 == 64 * q + 128);
        lemma_fundamental_div_mod_converse_mod(64 * q + 128, 64, q + 2, 0);
    }
}

/// Padding a message gives a byte sequence whose bit length is a multiple
/// of 512 and whose last 64 bits are the original bit length, big-endian.
pub proof fn lemma_pad_geometry(m: Seq<u8>)
    ensures
        pad_spec(m).len() == padded_len(m.len() as int),
        pad_spec(m).len() % 64 == 0,
        (pad_spec(m).len() * 8) % 512 == 0,
        pad_spec(m).subrange(
            pad_spec(m).len() - 8,
            pad_spec(m).len() as int,
        ) =~= be64_bytes((m.len() * 8) as u64),
        pad_spec(m).subrange(0, m.len() as int) =~= m,
        pad_spec(m)[m.len() as int] == 0x80u8,
        forall|i: int|
            m.len() + 1 <= i < pad_spec(m).len() - 8 ==> pad_spec(m)[i] == 0u8,
{
    let len = m.len() as int;
    lemma_pad_zero_count_bounds(len);
    lemma_padded_len_block_multiple(len);
    let p = pad_spec(m);
    assert(p.len() == len + 1 + pad_zero_count(len) + 8);
    let q = p.len() as int / 64;
    lemma_fundamental_div_mod(p.len() as int, 64);
    assert(p.len() == 64 * q);
    lemma_fundamental_div_mod_converse_mod(64 * q * 8, 512, q, 0);
    assert(p.len() * 8 == 512 * q) by (nonlinear_arith)
        requires
            p.len() == 64 * q,
    ;
    assert((p.len() * 8) % 512 == 0);
}

/// Pads one message, rejecting one whose bit length cannot be encoded
/// in the padding's 64-bit length field.
pub fn pad_message(message: &[u8]) -> (result: Result<Vec<u8>, BatchError>)
    ensures
        result is Ok <==> message@.len() <= MAX_MESSAGE_BYTES,
        result == Err::<Vec<u8>, BatchError>(BatchError::InvalidInput) <==> message@.len()
            > MAX_MESSAGE_BYTES,
        result matches Ok(padded) ==> padded@ == pad_spec(message@),
{
    if message.len() as u64 > MAX_MESSAGE_BYTES {
        Err(BatchError::InvalidInput)
    } else {
        Ok(pad_message_for_sha256(message))
    }
}

/// Pads one message as the standard asks: append `0x80`, zero-fill to
/// 56 modulo 64 bytes, then the original bit length as 64 big-endian bits.
pub fn pad_message_for_sha256(message: &[u8]) -> (padded: Vec<u8>)
    requires
        message@.len() <= MAX_MESSAGE_BYTES,
    ensures
        padded@ == pad_spec(message@),
        padded@.len() % 64 == 0,
{
    let len: usize = message.len();
    let ghost glen = len as int;
    proof {
        lemma_pad_zero_count_bounds(glen);
        lemma_padded_len_block_multiple(glen);
    }
    let mut padded: Vec<u8> = Vec::new();
    let mut i: usize = 0;
    while i < len
        invariant
            i <= len,
            len == message@.len(),
            padded@ =~= message@.subrange(0, i as int),
        decreases len - i,
    {
        padded.push(message[i]);
        i += 1;
    }
    assert(padded@ =~= message@);
    padded.push(0x80);
    let rem: usize = (len % 64 + 1) % 64;
    let zeros: usize = if rem <= 56 {
        56 - rem
    } else {
        120 - rem
    };
    proof {
        lemma_add_mod_noop(glen, 1, 64);
        lemma_small_mod(1nat, 64);
        lemma_mod_twice(glen, 64);
        assert(rem == (glen + 1) % 64);
        lemma_fundamental_div_mod(glen + 1, 64);
        lemma_mod_bound(glen + 1, 64);
        if rem <= 56 {
            lemma_small_mod((56 - rem) as nat, 64);
        } else {
            lemma_fundamental_div_mod_converse_mod(56 - rem as int, 64, -1, 120 - rem as int);
        }
        assert(zeros == pad_zero_count(glen));
    }
    let mut z: usize = 0;
    while z < zeros
        invariant
            z <= zeros,
            padded@ =~= message@ + seq![0x80u8] + Seq::new(z as nat, |i: int| 0u8),
        decreases zeros - z,
    {
        padded.push(0x00);
        z += 1;
    }
    let bit_len: u64 = (len as u64) * 8;
    let mut shift: usize = 0;
    while shift < 8
        invariant
            shift <= 8,
            bit_len == glen * 8,
            padded@ =~= message@ + seq![0x80u8] + Seq::new(pad_zero_count(glen) as nat, |i: int| 0u8)
                + be64_bytes(bit_len).subrange(0, shift as int),
        decreases 8 - shift,
    {
        let byte: u8 = ((bit_len >> ((7 - shift) as u64 * 8)) & 0xff) as u8;
        proof {
            assert(byte == be64_bytes(bit_len)[shift as int]);
        }
        padded.push(byte);
        shift += 1;
    }
    proof {
        assert(be64_bytes(bit_len).subrange(0, 8) =~= be64_bytes(bit_len));
        assert(padded@ =~= pad_spec(message@));
    }
    padded
}

} // verus!
