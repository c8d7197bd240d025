use vstd::prelude::*;
use crate::hex::{hex_of, unhex_of, lemma_hex_roundtrip, hex_encode};
use crate::kernel::kernel_record;
use crate::layout::BatchLayout;
use crate::words::{le_bytes_of_words, bytes_from_words};

verus! {

/// Number of parallel lanes scheduled together in one workgroup of the
/// device dispatch grid; the shader's workgroup size must match it.
pub const LANES_PER_GROUP: u32 = 32;

/// Number of workgroups needed so that every message gets one lane:
/// the ceiling of `message_count / lanes_per_group`.
pub fn dispatch_group_count(message_count: u32, lanes_per_group: u32) -> (groups: u32)
    requires
        lanes_per_group > 0,
    ensures
        groups == (message_count + lanes_per_group - 1) as int / lanes_per_group as int,
        groups * lanes_per_group >= message_count,
        message_count > 0 ==> (groups - 1) * lanes_per_group < message_count,
        message_count == 0 ==> groups == 0,
{
    let whole: u32 = message_count / lanes_per_group;
    let rem: u32 = message_count % lanes_per_group;
    if rem == 0 {
        proof {
            assert(whole == (message_count + lanes_per_group - 1) as int / lanes_per_group as int
                && whole * lanes_per_group >= message_count && (message_count > 0 ==> (whole - 1)
                * lanes_per_group < message_count)) by (nonlinear_arith)
                requires
                    lanes_per_group > 0,
                    whole == message_count as int / lanes_per_group as int,
                    message_count as int % lanes_per_group as int == 0,
            ;
        }
        whole
    } else {
        proof {
            assert(whole + 1 == (message_count + lanes_per_group - 1) as int / lanes_per_group
                as int && (whole + 1) * lanes_per_group >= message_count && whole * lanes_per_group
                < message_count && whole + 1 <= u32::MAX) by (nonlinear_arith)
                requires
                    lanes_per_group > 0,
                    whole == message_count as int / lanes_per_group as int,
                    rem == message_count as int % lanes_per_group as int,
                    rem != 0,
                    message_count <= u32::MAX,
            ;
        }
        whole + 1
    }
}

/// Length in bytes the device output buffer must have: one 32-byte
/// digest record per message, zero for an empty batch.
pub fn output_buffer_len(message_count: u32) -> (len: u64)
    ensures
        len == message_count * 32,
{
    (message_count as u64) * 32
}

/// Runs the hash kernel contract over every lane of a batch on the host:
/// lane `i` reads its own padded words out of the flat buffer through the
/// offset table and writes record `i` of the output, exactly as the
/// device grid does. Lanes share no state.
pub fn run_kernel_batch(layout: &BatchLayout) -> (out: Vec<u32>)
    requires
        layout.wf(),
    ensures
        out@.len() == layout.message_count * 8,
        forall|i: int|
            0 <= i < layout.message_count ==> out@.subrange(8 * i, 8 * i + 8) =~= kernel_record(
                #[trigger] layout.lane_words(i),
            ),
{
    let n: usize = layout.offsets.len();
    let mut out: Vec<u32> = Vec::new();
    let mut lane: usize = 0;
    while lane < n
        invariant
            lane <= n,
            layout.wf(),
            n == layout.message_count,
            out@.len() == 8 * lane,
            forall|i: int|
                0 <= i < lane ==> out@.subrange(8 * i, 8 * i + 8) =~= kernel_record(
                    #[trigger] layout.lane_words(i),
                ),
        decreases n - lane,
    {
        proof {
            layout.lemma_lane_in_bounds(lane as int);
        }
        let base: usize = layout.offsets[lane] as usize;
        let nwords: usize = layout.padded_word_counts[lane] as usize;
        let rec = crate::kernel::kernel_hash_lane(layout.words.as_slice(), base, nwords);
        let ghost old_out = out@;
        let mut j: usize = 0;
        let mut rec_mut = rec;
        // append the eight record words in order
        while j < 8
            invariant
                j <= 8,
                rec_mut@.len() == 8,
                out@ =~= old_out + rec_mut@.subrange(0, j as int),
            decreases 8 - j,
        {
            let v = rec_mut[j];
            out.push(v);
            j += 1;
        }
        proof {
            assert(rec_mut@.subrange(0, 8) =~= rec_mut@);
            assert(out@ =~= old_out + rec_mut@);
            assert forall|i: int| 0 <= i < lane + 1 implies out@.subrange(8 * i, 8 * i + 8)
                =~= kernel_record(#[trigger] layout.lane_words(i)) by {
                if i < lane {
                    assert(out@.subrange(8 * i, 8 * i + 8) =~= old_out.subrange(8 * i, 8 * i + 8));
                } else {
                    assert(out@.subrange(8 * i, 8 * i + 8) =~= rec_mut@);
                }
            }
        }
        lane += 1;
    }
    out
}

/// The whole device output as a flat byte buffer: exactly 32 bytes per
/// message for every batch size, the empty batch included, record `i`
/// standing at byte offset `32 * i`.
pub fn run_kernel_batch_bytes(layout: &BatchLayout) -> (bytes: Vec<u8>)
    requires
        layout.wf(),
        layout.message_count * 32 <= usize::MAX,
    ensures
        bytes@.len() == layout.message_count * 32,
        forall|i: int|
            0 <= i < layout.message_count ==> bytes@.subrange(32 * i, 32 * i + 32)
                =~= le_bytes_of_words(kernel_record(#[trigger] layout.lane_words(i))),
{
    let out = run_kernel_batch(layout);
    proof {
        assert(out@.len() * 4 <= usize::MAX);
    }
    let bytes = bytes_from_words(out.as_slice());
    proof {
        assert forall|i: int| 0 <= i < layout.message_count implies bytes@.subrange(
            32 * i,
            32 * i + 32,
        ) =~= le_bytes_of_words(kernel_record(#[trigger] layout.lane_words(i))) by {
            crate::words::lemma_le_bytes_of_words_slice(out@, 8 * i, 8 * i + 8);
            assert(out@.subrange(8 * i, 8 * i + 8) =~= kernel_record(layout.lane_words(i)));
            assert(bytes@.subrange(32 * i, 32 * i + 32) == le_bytes_of_words(out@).subrange(
                4 * (8 * i),
                4 * (8 * i + 8),
            ));
        }
    }
    bytes
}

/// Splits a flat output byte buffer into its `message_count` consecutive
/// 32-byte digest records, in message order, nothing dropped and nothing
/// shared between records.
pub fn decode_digest_records(bytes: &[u8], message_count: u32) -> (records: Vec<Vec<u8>>)
    requires
        bytes@.len() == message_count * 32,
    ensures
        records@.len() == message_count,
        forall|i: int|
            0 <= i < message_count ==> (#[trigger] records@[i])@ =~= bytes@.subrange(
                32 * i,
                32 * i + 32,
            ),
{
    let n: usize = message_count as usize;
    proof {
        assert(bytes.len() == bytes@.len());
    }
    let mut records: Vec<Vec<u8>> = Vec::new();
    let mut i: usize = 0;
    while i < n
        invariant
            i <= n,
            bytes@.len() == n * 32,
            bytes@.len() <= usize::MAX,
            records@.len() == i,
            forall|k: int|
                0 <= k < i ==> (#[trigger] records@[k])@ =~= bytes@.subrange(32 * k, 32 * k + 32),
        decreases n - i,
    {
        proof {
            assert(32 * i + 32 <= 32 * n) by (nonlinear_arith)
                requires
                    i < n,
            ;
        }
        let mut rec: Vec<u8> = Vec::new();
        let mut j: usize = 0;
        while j < 32
            invariant
                j <= 32,
                32 * i + 32 <= bytes@.len(),
                bytes@.len() <= usize::MAX,
                rec@ =~= bytes@.subrange(32 * i as int, 32 * i + j as int),
            decreases 32 - j,
        {
            rec.push(bytes[32 * i + j]);
            j += 1;
        }
        records.push(rec);
        i += 1;
    }
    records
}

/// Renders each 32-byte record as 64 lowercase hex digits, in order.
pub fn records_to_hex(records: &Vec<Vec<u8>>) -> (hex: Vec<Vec<u8>>)
    requires
        forall|i: int| 0 <= i < records@.len() ==> (#[trigger] records@[i])@.len() == 32,
    ensures
        hex@.len() == records@.len(),
        forall|i: int| 0 <= i < records@.len() ==> (#[trigger] hex@[i])@ == hex_of(records@[i]@),
{
    let n: usize = records.len();
    let mut hex: Vec<Vec<u8>> = Vec::new();
    let mut i: usize = 0;
    while i < n
        invariant
            i <= n,
            n == records@.len(),
            forall|k: int| 0 <= k < n ==> (#[trigger] records@[k])@.len() == 32,
            hex@.len() == i,
            forall|k: int| 0 <= k < i ==> (#[trigger] hex@[k])@ == hex_of(records@[k]@),
        decreases n - i,
    {
        let h = hex_encode(records[i].as_slice());
        hex.push(h);
        i += 1;
    }
    hex
}

/// Decoding a flat output buffer into records and rendering each as hex
/// loses nothing: the records partition the buffer in index order, and
/// reading the hex back gives every record byte for byte.
pub proof fn lemma_decode_reencode_lossless(buffer: Seq<u8>, message_count: int)
    requires
        message_count >= 0,
        buffer.len() == 32 * message_count,
    ensures
        forall|i: int|
            0 <= i < message_count ==> unhex_of(
                hex_of(#[trigger] buffer.subrange(32 * i, 32 * i + 32)),
            ) =~= buffer.subrange(32 * i, 32 * i + 32),
        Seq::new(message_count as nat, |i: int| buffer.subrange(32 * i, 32 * i + 32)).flatten()
            =~= buffer,
{
    assert forall|i: int| 0 <= i < message_count implies unhex_of(
        hex_of(#[trigger] buffer.subrange(32 * i, 32 * i + 32)),
    ) =~= buffer.subrange(32 * i, 32 * i + 32) by {
        lemma_hex_roundtrip(buffer.subrange(32 * i, 32 * i + 32));
    }
    lemma_chunks_flatten(buffer, message_count);
}

proof fn lemma_chunks_flatten(buffer: Seq<u8>, n: int)
    requires
        n >= 0,
        buffer.len() == 32 * n,
    ensures
        Seq::new(n as nat, |i: int| buffer.subrange(32 * i, 32 * i + 32)).flatten() =~= buffer,
    decreases n,
{
    let chunks = Seq::new(n as nat, |i: int| buffer.subrange(32 * i, 32 * i + 32));
    if n == 0 {
        assert(chunks.flatten() =~= buffer);
    } else {
        let prefix = buffer.subrange(0, 32 * (n - 1));
        lemma_chunks_flatten(prefix, n - 1);
        let prev = Seq::new((n - 1) as nat, |i: int| prefix.subrange(32 * i, 32 * i + 32));
        assert forall|i: int| 0 <= i < n - 1 implies prev[i] == chunks[i] by {
            assert(prefix.subrange(32 * i, 32 * i + 32) =~= buffer.subrange(32 * i, 32 * i + 32));
        }
        assert(prev =~= chunks.subrange(0, n - 1));
        assert(chunks =~= chunks.subrange(0, n - 1).push(chunks[n - 1]));
        chunks.subrange(0, n - 1).lemma_flatten_push(chunks[n - 1]);
        assert(chunks.flatten() =~= prev.flatten() + chunks[n - 1]);
        assert(prev.flatten() + chunks[n - 1] =~= prefix + buffer.subrange(32 * (n - 1), 32 * n));
        assert(prefix + buffer.subrange(32 * (n - 1), 32 * n) =~= buffer);
    }
}

/// Indices at which two digest listings disagree, in ascending order:
/// empty exactly when the listings agree everywhere.
pub open spec fn mismatch_indices(a: Seq<Seq<u8>>, b: Seq<Seq<u8>>, n: int) -> Seq<int>
    decreases n,
{
    if n <= 0 {
        Seq::empty()
    } else if a[n - 1] == b[n - 1] {
        mismatch_indices(a, b, n - 1)
    } else {
        mismatch_indices(a, b, n - 1).push(n - 1)
    }
}

/// Compares two equally long digest listings index for index and
/// collects every index where they differ; no first-failure cut-off.
pub fn verify_digests(expected: &Vec<Vec<u8>>, actual: &Vec<Vec<u8>>) -> (mismatches: Vec<usize>)
    requires
        expected@.len() == actual@.len(),
    ensures
        mismatches@.map_values(|v: usize| v as int) =~= mismatch_indices(
            expected@.map_values(|v: Vec<u8>| v@),
            actual@.map_values(|v: Vec<u8>| v@),
            expected@.len() as int,
        ),
        (mismatches@.len() == 0) <==> (forall|i: int|
            0 <= i < expected@.len() ==> (#[trigger] expected@[i])@ == actual@[i]@),
{
    let n: usize = expected.len();
    let ghost ea = expected@.map_values(|v: Vec<u8>| v@);
    let ghost aa = actual@.map_values(|v: Vec<u8>| v@);
    let mut mismatches: Vec<usize> = Vec::new();
    let mut i: usize = 0;
    while i < n
        invariant
            i <= n,
            n == expected@.len(),
            n == actual@.len(),
            ea == expected@.map_values(|v: Vec<u8>| v@),
            aa == actual@.map_values(|v: Vec<u8>| v@),
            mismatches@.map_values(|v: usize| v as int) =~= mismatch_indices(ea, aa, i as int),
            (mismatches@.len() == 0) <==> (forall|k: int|
                0 <= k < i ==> (#[trigger] expected@[k])@ == actual@[k]@),
        decreases n - i,
    {
        let same = digest_bytes_equal(&expected[i], &actual[i]);
        if !same {
            mismatches.push(i);
        }
        proof {
            assert(ea[i as int] == expected@[i as int]@);
            assert(aa[i as int] == actual@[i as int]@);
            if same {
                assert(mismatch_indices(ea, aa, i + 1) == mismatch_indices(ea, aa, i as int));
            } else {
                assert(mismatch_indices(ea, aa, i + 1) == mismatch_indices(ea, aa, i as int).push(
                    i as int,
                ));
            }
        }
        i += 1;
    }
    mismatches
}

/// Byte-for-byte equality of two digest renderings.
pub fn digest_bytes_equal(a: &Vec<u8>, b: &Vec<u8>) -> (eq: bool)
    ensures
        eq <==> a@ =~= b@,
{
    if a.len() != b.len() {
        return false;
    }
    let n: usize = a.len();
    let mut i: usize = 0;
    while i < n
        invariant
            i <= n,
            n == a@.len(),
            n == b@.len(),
            forall|k: int| 0 <= k < i ==> a@[k] == b@[k],
        decreases n - i,
    {
        if a[i] != b[i] {
            return false;
        }
        i += 1;
    }
    true
}

} // verus!
