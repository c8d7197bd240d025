use vstd::prelude::*;
use crate::pad::{BatchError, pad_spec, padded_len, pad_message_for_sha256, lemma_pad_geometry,
    lemma_padded_len_block_multiple, MAX_MESSAGE_BYTES};
use crate::words::{le_words_of, words_from_bytes};

verus! {

/// Number of 32-bit words in the padded form of a message of `len` bytes.
pub open spec fn padded_word_count(len: int) -> int {
    padded_len(len) / 4
}

/// Number of 32-bit words covered by the message bytes themselves.
pub open spec fn unpadded_word_count(len: int) -> int {
    len * 8 / 32
}

/// The little-endian packed words of one padded message.
pub open spec fn lane_words_of(m: Seq<u8>) -> Seq<u32> {
    le_words_of(pad_spec(m))
}

/// Starting word offset of message `i`: the padded word counts of all
/// messages before it, summed.
pub open spec fn offset_of(msgs: Seq<Seq<u8>>, i: int) -> int
    decreases i,
{
    if i <= 0 {
        0
    } else {
        offset_of(msgs, i - 1) + padded_word_count(msgs[i - 1].len() as int)
    }
}

/// Whether every message of a batch fits the padder's length field.
pub open spec fn all_messages_fit(msgs: Seq<Seq<u8>>) -> bool {
    forall|i: int| 0 <= i < msgs.len() ==> (#[trigger] msgs[i]).len() <= MAX_MESSAGE_BYTES
}

/// The flat contiguous word buffer of a whole batch: every message's
/// padded words, in message order, nothing between them.
pub open spec fn batch_words_of(msgs: Seq<Seq<u8>>, n: int) -> Seq<u32>
    decreases n,
{
    if n <= 0 {
        Seq::empty()
    } else {
        batch_words_of(msgs, n - 1) + lane_words_of(msgs[n - 1])
    }
}

/// The flat layout a batch is handed to the device in: one contiguous
/// word buffer, and per message its starting word offset and its
/// unpadded and padded word counts, so that a lane finds its message by
/// integer arithmetic alone.
pub struct BatchLayout {
    /// All messages' padded words, concatenated in message order.
    pub words: Vec<u32>,
    /// Word offset at which each message's padded words start.
    pub offsets: Vec<u32>,
    /// Words covered by each message's own bytes, before padding.
    pub unpadded_word_counts: Vec<u32>,
    /// Words of each message's padded form.
    pub padded_word_counts: Vec<u32>,
    /// How many messages the batch holds.
    pub message_count: u32,
}

impl BatchLayout {
    /// Well-formedness: the tables agree in length with the count, the
    /// offsets tile the word buffer in order without gaps or overlaps,
    /// and every descriptor stays inside the buffer.
    pub open spec fn wf(self) -> bool {
        &&& self.offsets@.len() == self.message_count
        &&& self.unpadded_word_counts@.len() == self.message_count
        &&& self.padded_word_counts@.len() == self.message_count
        &&& self.message_count == 0 ==> self.words@.len() == 0
        &&& forall|i: int|
            0 <= i < self.message_count ==> #[trigger] self.offsets@[i] + self.padded_word_counts@[i]
                <= self.words@.len()
        &&& forall|i: int|
            0 <= i < self.message_count ==> (#[trigger] self.padded_word_counts@[i]) % 16 == 0
        &&& forall|i: int|
            0 <= i < self.message_count - 1 ==> #[trigger] self.offsets@[i + 1] == self.offsets@[i]
                + self.padded_word_counts@[i]
        &&& self.message_count > 0 ==> self.offsets@[0] == 0
        &&& self.message_count > 0 ==> self.offsets@[self.message_count - 1]
            + self.padded_word_counts@[self.message_count - 1] == self.words@.len()
    }

    /// The words lane `i` may read: its own padded message, nothing else.
    pub open spec fn lane_words(self, i: int) -> Seq<u32> {
        self.words@.subrange(
            self.offsets@[i] as int,
            self.offsets@[i] + self.padded_word_counts@[i],
        )
    }

    /// Every lane's slice lies inside the word buffer.
    pub proof fn lemma_lane_in_bounds(self, i: int)
        requires
            self.wf(),
            0 <= i < self.message_count,
        ensures
            self.offsets@[i] + self.padded_word_counts@[i] <= self.words@.len(),
            self.padded_word_counts@[i] % 16 == 0,
    {
    }
}

/// Builds the flat device layout of a batch: pads every message, packs
/// the padded bytes into little-endian words, concatenates them in
/// message order and records each message's offset and word counts.
/// Rejects a message whose bit length would not fit the 64-bit length
/// field, and a batch whose flat buffer would outgrow 32-bit word
/// addressing.
pub fn build_batch_layout(messages: &Vec<Vec<u8>>) -> (result: Result<BatchLayout, BatchError>)
    requires
        messages@.len() <= u32::MAX,
    ensures
        result is Ok <==> (all_messages_fit(messages@.map_values(|m: Vec<u8>| m@))
            && offset_of(messages@.map_values(|m: Vec<u8>| m@), messages@.len() as int)
            <= u32::MAX),
        result == Err::<BatchLayout, BatchError>(BatchError::InvalidInput) <==> !all_messages_fit(
            messages@.map_values(|m: Vec<u8>| m@),
        ),
        result == Err::<BatchLayout, BatchError>(BatchError::LayoutOverflow) <==> (
        all_messages_fit(messages@.map_values(|m: Vec<u8>| m@)) && offset_of(
            messages@.map_values(|m: Vec<u8>| m@),
            messages@.len() as int,
        ) > u32::MAX),
        result matches Ok(layout) ==> {
            let msgs = messages@.map_values(|m: Vec<u8>| m@);
            &&& layout.wf()
            &&& layout.message_count == messages@.len()
            &&& layout.words@ =~= batch_words_of(msgs, msgs.len() as int)
            &&& forall|i: int|
                0 <= i < msgs.len() ==> #[trigger] layout.offsets@[i] == offset_of(msgs, i)
            &&& forall|i: int|
                0 <= i < msgs.len() ==> #[trigger] layout.padded_word_counts@[i]
                    == padded_word_count(msgs[i].len() as int)
            &&& forall|i: int|
                0 <= i < msgs.len() ==> #[trigger] layout.unpadded_word_counts@[i]
                    == unpadded_word_count(msgs[i].len() as int)
            &&& forall|i: int|
                0 <= i < msgs.len() ==> #[trigger] layout.lane_words(i) =~= lane_words_of(msgs[i])
        },
{
    let ghost msgs = messages@.map_values(|m: Vec<u8>| m@);
    let n: usize = messages.len();
    let mut i: usize = 0;
    // first pass: reject any message the padder cannot take
    while i < n
        invariant
            i <= n,
            n == msgs.len(),
            msgs == messages@.map_values(|m: Vec<u8>| m@),
            forall|k: int| 0 <= k < i ==> (#[trigger] msgs[k]).len() <= MAX_MESSAGE_BYTES,
        decreases n - i,
    {
        if (messages[i].len() as u64) > MAX_MESSAGE_BYTES {
            proof {
                assert(msgs[i as int].len() > MAX_MESSAGE_BYTES);
            }
            return Err(BatchError::InvalidInput);
        }
        i += 1;
    }
    assert(all_messages_fit(msgs));
    let mut words: Vec<u32> = Vec::new();
    let mut offsets: Vec<u32> = Vec::new();
    let mut unpadded_word_counts: Vec<u32> = Vec::new();
    let mut padded_word_counts: Vec<u32> = Vec::new();
    let mut i: usize = 0;
    while i < n
        invariant
            i <= n,
            n == msgs.len(),
            n <= u32::MAX,
            msgs == messages@.map_values(|m: Vec<u8>| m@),
            all_messages_fit(msgs),
            offsets@.len() == i,
            unpadded_word_counts@.len() == i,
            padded_word_counts@.len() == i,
            words@.len() == offset_of(msgs, i as int),
            words@.len() <= u32::MAX,
            words@ =~= batch_words_of(msgs, i as int),
            forall|k: int| 0 <= k < i ==> #[trigger] offsets@[k] == offset_of(msgs, k),
            forall|k: int|
                0 <= k < i ==> #[trigger] padded_word_counts@[k] == padded_word_count(
                    msgs[k].len() as int,
                ),
            forall|k: int|
                0 <= k < i ==> #[trigger] unpadded_word_counts@[k] == unpadded_word_count(
                    msgs[k].len() as int,
                ),
        decreases n - i,
    {
        let message: &Vec<u8> = &messages[i];
        proof {
            assert(msgs[i as int] == message@);
            lemma_padded_len_block_multiple(message@.len() as int);
            lemma_pad_geometry(message@);
        }
        let padded = pad_message_for_sha256(message.as_slice());
        proof {
            vstd::arithmetic::div_mod::lemma_fundamental_div_mod(padded@.len() as int, 64);
            assert(padded@.len() % 4 == 0) by (nonlinear_arith)
                requires
                    padded@.len() % 64 == 0,
            ;
        }
        let lane = words_from_bytes(padded.as_slice());
        proof {
            assert(lane@ == lane_words_of(msgs[i as int]));
            assert(lane@.len() == padded_word_count(message@.len() as int)) by (nonlinear_arith)
                requires
                    lane@.len() == padded@.len() / 4,
                    padded@.len() == padded_len(message@.len() as int),
                    padded@.len() % 64 == 0,
            ;
            assert(lane@.len() % 16 == 0) by (nonlinear_arith)
                requires
                    lane@.len() == padded@.len() / 4,
                    padded@.len() % 64 == 0,
            ;
        }
        if lane.len() > (u32::MAX as usize) - words.len() {
            proof {
                assert(offset_of(msgs, i + 1) == words@.len() + lane@.len());
                lemma_offset_monotonic(msgs, i + 1, msgs.len() as int);
            }
            return Err(BatchError::LayoutOverflow);
        }
        let offset: u32 = words.len() as u32;
        proof {
            assert(unpadded_word_count(message@.len() as int) <= padded_word_count(
                message@.len() as int,
            )) by (nonlinear_arith)
                requires
                    padded_len(message@.len() as int) >= message@.len() + 9,
                    message@.len() >= 0,
            ;
        }
        let unpadded: u32 = ((message.len() as u64) * 8 / 32) as u32;
        let padded_words: u32 = lane.len() as u32;
        proof {
            assert((message@.len() as u64) * 8 / 32 == unpadded_word_count(
                msgs[i as int].len() as int,
            )) by (nonlinear_arith)
                requires
                    msgs[i as int] == message@,
                    message@.len() <= MAX_MESSAGE_BYTES,
            ;
            assert(unpadded == unpadded_word_count(msgs[i as int].len() as int));
        }
        offsets.push(offset);
        unpadded_word_counts.push(unpadded);
        padded_word_counts.push(padded_words);
        let mut lane_vec = lane;
        let ghost words_before = words@;
        words.append(&mut lane_vec);
        proof {
            assert(words@ =~= batch_words_of(msgs, i + 1));
        }
        i += 1;
    }
    let layout = BatchLayout {
        words,
        offsets,
        unpadded_word_counts,
        padded_word_counts,
        message_count: n as u32,
    };
    proof {
        lemma_layout_wf(layout, msgs);
        assert forall|k: int| 0 <= k < msgs.len() implies #[trigger] layout.lane_words(k)
            =~= lane_words_of(msgs[k]) by {
            lemma_batch_words_slice(msgs, layout, k);
        }
    }
    Ok(layout)
}

/// Offsets grow with the index: more messages, more words.
proof fn lemma_offset_monotonic(msgs: Seq<Seq<u8>>, i: int, n: int)
    requires
        0 <= i <= n <= msgs.len(),
    ensures
        offset_of(msgs, i) <= offset_of(msgs, n),
    decreases n - i,
{
    if i < n {
        lemma_offset_monotonic(msgs, i, n - 1);
        crate::pad::lemma_pad_zero_count_bounds(msgs[n - 1].len() as int);
        lemma_padded_len_block_multiple(msgs[n - 1].len() as int);
        assert(padded_word_count(msgs[n - 1].len() as int) >= 0);
    }
}

proof fn lemma_layout_wf(layout: BatchLayout, msgs: Seq<Seq<u8>>)
    requires
        layout.offsets@.len() == msgs.len(),
        layout.unpadded_word_counts@.len() == msgs.len(),
        layout.padded_word_counts@.len() == msgs.len(),
        layout.message_count == msgs.len(),
        layout.words@.len() == offset_of(msgs, msgs.len() as int),
        forall|k: int| 0 <= k < msgs.len() ==> #[trigger] layout.offsets@[k] == offset_of(msgs, k),
        forall|k: int|
            0 <= k < msgs.len() ==> #[trigger] layout.padded_word_counts@[k] == padded_word_count(
                msgs[k].len() as int,
            ),
        forall|k: int|
            0 <= k < msgs.len() ==> (#[trigger] layout.padded_word_counts@[k]) % 16 == 0,
    ensures
        layout.wf(),
{
    assert forall|i: int| 0 <= i < layout.message_count implies #[trigger] layout.offsets@[i]
        + layout.padded_word_counts@[i] <= layout.words@.len() by {
        assert(offset_of(msgs, i + 1) == layout.offsets@[i] + layout.padded_word_counts@[i]);
        lemma_offset_monotonic(msgs, i + 1, msgs.len() as int);
    }
}

/// Inside the flat buffer, message `k`'s slice is exactly its own
/// padded words.
proof fn lemma_batch_words_slice(msgs: Seq<Seq<u8>>, layout: BatchLayout, k: int)
    requires
        layout.wf(),
        layout.message_count == msgs.len(),
        0 <= k < msgs.len(),
        layout.words@ =~= batch_words_of(msgs, msgs.len() as int),
        forall|j: int| 0 <= j < msgs.len() ==> #[trigger] layout.offsets@[j] == offset_of(msgs, j),
        forall|j: int|
            0 <= j < msgs.len() ==> #[trigger] layout.padded_word_counts@[j] == padded_word_count(
                msgs[j].len() as int,
            ),
    ensures
        layout.lane_words(k) =~= lane_words_of(msgs[k]),
{
    let off = offset_of(msgs, k);
    let lane = lane_words_of(msgs[k]);
    let pwc = padded_word_count(msgs[k].len() as int);
    crate::pad::lemma_pad_zero_count_bounds(msgs[k].len() as int);
    lemma_padded_len_block_multiple(msgs[k].len() as int);
    crate::pad::lemma_pad_geometry(msgs[k]);
    assert(lane.len() == pwc);
    lemma_batch_words_len(msgs, k);
    lemma_batch_words_len(msgs, k + 1);
    lemma_batch_words_prefix(msgs, k + 1, msgs.len() as int);
    let whole = batch_words_of(msgs, msgs.len() as int);
    let upto = batch_words_of(msgs, k + 1);
    assert(upto =~= batch_words_of(msgs, k) + lane);
    assert(upto.len() == off + pwc);
    assert forall|j: int| 0 <= j < pwc implies whole[off + j] == lane[j] by {
        assert(whole[off + j] == whole.subrange(0, upto.len() as int)[off + j]);
        assert(upto[off + j] == lane[j]);
    }
    assert(layout.lane_words(k) =~= lane);
}

/// A shorter batch buffer is a prefix of a longer one.
proof fn lemma_batch_words_prefix(msgs: Seq<Seq<u8>>, i: int, n: int)
    requires
        0 <= i <= n <= msgs.len(),
    ensures
        batch_words_of(msgs, n).subrange(0, batch_words_of(msgs, i).len() as int)
            =~= batch_words_of(msgs, i),
        batch_words_of(msgs, i).len() <= batch_words_of(msgs, n).len(),
    decreases n - i,
{
    if i < n {
        lemma_batch_words_prefix(msgs, i, n - 1);
        assert(batch_words_of(msgs, n) =~= batch_words_of(msgs, n - 1) + lane_words_of(
            msgs[n - 1],
        ));
        assert(batch_words_of(msgs, n).subrange(0, batch_words_of(msgs, i).len() as int)
            =~= batch_words_of(msgs, n - 1).subrange(0, batch_words_of(msgs, i).len() as int));
    }
}

/// The batch buffer over the first `n` messages is as long as offset
/// arithmetic says.
proof fn lemma_batch_words_len(msgs: Seq<Seq<u8>>, n: int)
    requires
        0 <= n <= msgs.len(),
    ensures
        batch_words_of(msgs, n).len() == offset_of(msgs, n),
    decreases n,
{
    if n > 0 {
        lemma_batch_words_len(msgs, n - 1);
        crate::pad::lemma_pad_geometry(msgs[n - 1]);
        lemma_padded_len_block_multiple(msgs[n - 1].len() as int);
        assert(lane_words_of(msgs[n - 1]).len() == padded_word_count(msgs[n - 1].len() as int));
    }
}

/// The shared two-word size descriptor the reference workload binds when
/// every message has the same geometry: the unpadded and the padded word
/// count of one message.
pub fn get_message_sizes(bytes: &[u8]) -> (sizes: Vec<u32>)
    requires
        bytes@.len() * 8 + 576 <= u32::MAX,
    ensures
        sizes@.len() == 2,
        sizes@[0] == unpadded_word_count(bytes@.len() as int),
        sizes@[1] == padded_word_count(bytes@.len() as int),
{
    let len_bits: u64 = (bytes.len() as u64) * 8;
    proof {
        lemma_padded_len_block_multiple(bytes@.len() as int);
        crate::pad::lemma_pad_zero_count_bounds(bytes@.len() as int);
        assert(padded_len(bytes@.len() as int) % 4 == 0 && padded_len(bytes@.len() as int) / 4
            == padded_len(bytes@.len() as int) * 8 / 32) by (nonlinear_arith)
            requires
                padded_len(bytes@.len() as int) % 64 == 0,
                padded_len(bytes@.len() as int) >= 0,
        ;
    }
    let padded_bytes: u64 = (padded_exec_len(bytes.len() as u64)) as u64;
    let unpadded: u32 = (len_bits / 32) as u32;
    proof {
        assert(len_bits / 32 == unpadded_word_count(bytes@.len() as int)) by (nonlinear_arith)
            requires
                len_bits == bytes@.len() * 8,
        ;
    }
    let padded: u32 = (padded_bytes / 4) as u32;
    let sizes: Vec<u32> = vec![unpadded, padded];
    proof {
        assert(sizes@.len() == 2 && sizes@[0] == unpadded && sizes@[1] == padded);
    }
    sizes
}

/// The padded byte length of a message of `len` bytes, computed as the
/// padder lays it out.
fn padded_exec_len(len: u64) -> (p: u64)
    requires
        len * 8 + 576 <= u32::MAX,
    ensures
        p == padded_len(len as int),
{
    let rem: u64 = (len + 1) % 64;
    let zeros: u64 = if rem <= 56 {
        56 - rem
    } else {
        120 - rem
    };
    proof {
        vstd::arithmetic::div_mod::lemma_fundamental_div_mod(len as int + 1, 64);
        vstd::arithmetic::div_mod::lemma_mod_bound(len as int + 1, 64);
        if rem <= 56 {
            vstd::arithmetic::div_mod::lemma_small_mod((56 - rem) as nat, 64);
        } else {
            vstd::arithmetic::div_mod::lemma_fundamental_div_mod_converse_mod(
                56 - rem as int,
                64,
                -1,
                120 - rem as int,
            );
        }
        assert(zeros == crate::pad::pad_zero_count(len as int));
    }
    len + 1 + zeros + 8
}

} // verus!
