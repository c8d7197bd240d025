use vstd::prelude::*;
use sha2::Digest;
use rayon::iter::{IntoParallelRefIterator, ParallelIterator};
use crate::hex::{hex_of, hex_encode};

verus! {

/// The SHA-256 digest of a byte sequence. The standard defines it; its
/// unfolding takes pages, so the library only names it and lets the
/// oracle compute it.
pub uninterp spec fn sha256_of(m: Seq<u8>) -> Seq<u8>;

/// Relies on sha2::Sha256 (the FIPS 180-4 reference oracle): the digest
/// is exactly 32 bytes and depends on the message bytes alone.
#[verifier::external_body]
fn sha256_oracle(message: &[u8]) -> (digest: Vec<u8>)
    ensures
        digest@ == sha256_of(message@),
        digest@.len() == 32,
{
    let mut hasher = sha2::Sha256::new();
    hasher.update(message);
    hasher.finalize().to_vec()
}

/// The oracle digest of one message, as 32 raw bytes.
pub fn digest_message(message: &[u8]) -> (digest: Vec<u8>)
    ensures
        digest@ == sha256_of(message@),
        digest@.len() == 32,
{
    sha256_oracle(message)
}

/// The oracle digest of one message, rendered as 64 lowercase hex
/// digits.
pub fn digest_message_hex(message: &[u8]) -> (digest_hex: Vec<u8>)
    ensures
        digest_hex@ == hex_of(sha256_of(message@)),
        digest_hex@.len() == 64,
{
    let digest = sha256_oracle(message);
    hex_encode(digest.as_slice())
}

/// The sequential engine: hashes the messages one at a time through the
/// oracle, returning the hex digests in message order.
pub fn digest_sequential(messages: &Vec<Vec<u8>>) -> (digests: Vec<Vec<u8>>)
    ensures
        digests@.len() == messages@.len(),
        forall|i: int|
            0 <= i < messages@.len() ==> (#[trigger] digests@[i])@ == hex_of(
                sha256_of(messages@[i]@),
            ),
{
    let n: usize = messages.len();
    let mut digests: Vec<Vec<u8>> = Vec::new();
    let mut i: usize = 0;
    while i < n
        invariant
            i <= n,
            n == messages@.len(),
            digests@.len() == i,
            forall|k: int|
                0 <= k < i ==> (#[trigger] digests@[k])@ == hex_of(sha256_of(messages@[k]@)),
        decreases n - i,
    {
        let d = digest_message_hex(messages[i].as_slice());
        digests.push(d);
        i += 1;
    }
    digests
}

/// Relies on rayon's parallel iterator: `par_iter().map(..).collect()`
/// into a `Vec` keeps one result per input, in input order; the closure
/// only calls this library's verified per-message digest.
#[verifier::external_body]
fn par_map_digest_hex(messages: &Vec<Vec<u8>>) -> (digests: Vec<Vec<u8>>)
    ensures
        digests@.len() == messages@.len(),
        forall|i: int|
            0 <= i < messages@.len() ==> (#[trigger] digests@[i])@ == hex_of(
                sha256_of(messages@[i]@),
            ),
{
    messages.par_iter().map(|m| digest_message_hex(m.as_slice())).collect()
}

/// The data-parallel CPU engine: one worker task per message, disjoint
/// inputs and outputs, results joined by index; the hex digests come
/// back in message order.
pub fn digest_dataparallel(messages: &Vec<Vec<u8>>) -> (digests: Vec<Vec<u8>>)
    ensures
        digests@.len() == messages@.len(),
        forall|i: int|
            0 <= i < messages@.len() ==> (#[trigger] digests@[i])@ == hex_of(
                sha256_of(messages@[i]@),
            ),
{
    par_map_digest_hex(messages)
}

/// Any two digest listings that are correct for the same messages agree
/// everywhere: whichever engine produced them, index for index the hex
/// digests are equal.
pub proof fn lemma_backends_agree(msgs: Seq<Seq<u8>>, a: Seq<Seq<u8>>, b: Seq<Seq<u8>>)
    requires
        a.len() == msgs.len(),
        b.len() == msgs.len(),
        forall|i: int| 0 <= i < msgs.len() ==> #[trigger] a[i] == hex_of(sha256_of(msgs[i])),
        forall|i: int| 0 <= i < msgs.len() ==> #[trigger] b[i] == hex_of(sha256_of(msgs[i])),
    ensures
        a =~= b,
{
}

} // verus!
