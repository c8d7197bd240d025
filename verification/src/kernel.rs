use vstd::prelude::*;

verus! {

/// Right rotation of a 32-bit word by `n` places, `0 < n < 32`.
pub open spec fn rotr(x: u32, n: u32) -> u32
    recommends
        0 < n < 32,
{
    (x >> n) | (x << ((32 - n) as u32))
}

/// The standard choose function: bits of `y` where `x` is set, else `z`.
pub open spec fn ch(x: u32, y: u32, z: u32) -> u32 {
    (x & y) ^ (!x & z)
}

/// The standard majority function, bit by bit.
pub open spec fn maj(x: u32, y: u32, z: u32) -> u32 {
    (x & y) ^ (x & z) ^ (y & z)
}

/// The big sigma-0 mixing function of the compression rounds.
pub open spec fn big_sigma0(x: u32) -> u32 {
    rotr(x, 2) ^ rotr(x, 13) ^ rotr(x, 22)
}

/// The big sigma-1 mixing function of the compression rounds.
pub open spec fn big_sigma1(x: u32) -> u32 {
    rotr(x, 6) ^ rotr(x, 11) ^ rotr(x, 25)
}

/// The small sigma-0 mixing function of the message schedule.
pub open spec fn small_sigma0(x: u32) -> u32 {
    rotr(x, 7) ^ rotr(x, 18) ^ (x >> 3u32)
}

/// The small sigma-1 mixing function of the message schedule.
pub open spec fn small_sigma1(x: u32) -> u32 {
    rotr(x, 17) ^ rotr(x, 19) ^ (x >> 10u32)
}

/// The 64 round constants, the fractional parts of the cube roots of the
/// first 64 primes, in round order.
pub open spec fn round_constants_spec() -> Seq<u32> {
    seq![
        0x428a2f98u32, 0x71374491u32, 0xb5c0fbcfu32, 0xe9b5dba5u32,
        0x3956c25bu32, 0x59f111f1u32, 0x923f82a4u32, 0xab1c5ed5u32,
        0xd807aa98u32, 0x12835b01u32, 0x243185beu32, 0x550c7dc3u32,
        0x72be5d74u32, 0x80deb1feu32, 0x9bdc06a7u32, 0xc19bf174u32,
        0xe49b69c1u32, 0xefbe4786u32, 0x0fc19dc6u32, 0x240ca1ccu32,
        0x2de92c6fu32, 0x4a7484aau32, 0x5cb0a9dcu32, 0x76f988dau32,
        0x983e5152u32, 0xa831c66du32, 0xb00327c8u32, 0xbf597fc7u32,
        0xc6e00bf3u32, 0xd5a79147u32, 0x06ca6351u32, 0x14292967u32,
        0x27b70a85u32, 0x2e1b2138u32, 0x4d2c6dfcu32, 0x53380d13u32,
        0x650a7354u32, 0x766a0abbu32, 0x81c2c92eu32, 0x92722c85u32,
        0xa2bfe8a1u32, 0xa81a664bu32, 0xc24b8b70u32, 0xc76c51a3u32,
        0xd192e819u32, 0xd6990624u32, 0xf40e3585u32, 0x106aa070u32,
        0x19a4c116u32, 0x1e376c08u32, 0x2748774cu32, 0x34b0bcb5u32,
        0x391c0cb3u32, 0x4ed8aa4au32, 0x5b9cca4fu32, 0x682e6ff3u32,
        0x748f82eeu32, 0x78a5636fu32, 0x84c87814u32, 0x8cc70208u32,
        0x90befffau32, 0xa4506cebu32, 0xbef9a3f7u32, 0xc67178f2u32,
    ]
}

/// The initial hash state: the fractional parts of the square roots of
/// the first eight primes.
pub open spec fn initial_state() -> Seq<u32> {
    seq![
        0x6a09e667u32, 0xbb67ae85u32, 0x3c6ef372u32, 0xa54ff53au32,
        0x510e527fu32, 0x9b05688cu32, 0x1f83d9abu32, 0x5be0cd19u32,
    ]
}

/// Word `t` of the message schedule expanded from a 16-word block.
pub open spec fn schedule(block: Seq<u32>, t: int) -> u32
    recommends
        block.len() == 16,
        0 <= t < 64,
    decreases t,
{
    if t < 16 {
        block[t]
    } else {
        small_sigma1(schedule(block, t - 2)).wrapping_add(schedule(block, t - 7)).wrapping_add(
            small_sigma0(schedule(block, t - 15)),
        ).wrapping_add(schedule(block, t - 16))
    }
}

/// One compression round applied to the eight working variables.
pub open spec fn round_step(vars: Seq<u32>, w: u32, k: u32) -> Seq<u32>
    recommends
        vars.len() == 8,
{
    let t1 = vars[7].wrapping_add(big_sigma1(vars[4])).wrapping_add(
        ch(vars[4], vars[5], vars[6]),
    ).wrapping_add(k).wrapping_add(w);
    let t2 = big_sigma0(vars[0]).wrapping_add(maj(vars[0], vars[1], vars[2]));
    seq![
        t1.wrapping_add(t2),
        vars[0],
        vars[1],
        vars[2],
        vars[3].wrapping_add(t1),
        vars[4],
        vars[5],
        vars[6],
    ]
}

/// The working variables after the first `t` rounds on one block.
pub open spec fn rounds(block: Seq<u32>, init: Seq<u32>, t: int) -> Seq<u32>
    recommends
        block.len() == 16,
        init.len() == 8,
        0 <= t <= 64,
    decreases t,
{
    if t <= 0 {
        init
    } else {
        round_step(rounds(block, init, t - 1), schedule(block, t - 1), round_constants_spec()[t - 1])
    }
}

/// The hash state after compressing one 16-word block into `state`.
pub open spec fn compress(state: Seq<u32>, block: Seq<u32>) -> Seq<u32>
    recommends
        state.len() == 8,
        block.len() == 16,
{
    Seq::new(8, |i: int| state[i].wrapping_add(rounds(block, state, 64)[i]))
}

/// Swaps the four bytes of a word, turning a little-endian packed word
/// into its big-endian reading and back.
pub open spec fn swap_word_bytes(w: u32) -> u32 {
    (w >> 24u32) | ((w >> 8u32) & 0xff00) | ((w << 8u32) & 0xff0000) | (w << 24u32)
}

/// Swapping a word's bytes twice gives the word back: the little-endian
/// and big-endian readings of the wire format convert into each other.
pub proof fn lemma_swap_word_bytes_involutes(w: u32)
    by (bit_vector)
    ensures
        swap_word_bytes(swap_word_bytes(w)) == w,
{
}

/// Block `b` of a message's little-endian packed words, read as the
/// 16 big-endian words the compression consumes.
pub open spec fn block_of(words: Seq<u32>, b: int) -> Seq<u32>
    recommends
        0 <= b,
        16 * b + 16 <= words.len(),
{
    Seq::new(16, |t: int| swap_word_bytes(words[16 * b + t]))
}

/// The hash state after the first `nblocks` blocks of one message,
/// starting from the standard initial state.
pub open spec fn state_after_blocks(words: Seq<u32>, nblocks: int) -> Seq<u32>
    recommends
        0 <= nblocks,
        16 * nblocks <= words.len(),
    decreases nblocks,
{
    if nblocks <= 0 {
        initial_state()
    } else {
        compress(state_after_blocks(words, nblocks - 1), block_of(words, nblocks - 1))
    }
}

/// The digest record one lane writes for a message given as
/// little-endian packed padded words: the final eight state words, each
/// byte-swapped so the record's little-endian bytes spell the digest in
/// standard big-endian order.
pub open spec fn kernel_record(words: Seq<u32>) -> Seq<u32>
    recommends
        words.len() % 16 == 0,
{
    Seq::new(8, |i: int| swap_word_bytes(state_after_blocks(words, words.len() as int / 16)[i]))
}

/// The standard round constants as an executable table.
pub fn round_constants() -> (k: Vec<u32>)
    ensures
        k@ == round_constants_spec(),
{
    let k: Vec<u32> = vec![
        0x428a2f98u32, 0x71374491u32, 0xb5c0fbcfu32, 0xe9b5dba5u32,
        0x3956c25bu32, 0x59f111f1u32, 0x923f82a4u32, 0xab1c5ed5u32,
        0xd807aa98u32, 0x12835b01u32, 0x243185beu32, 0x550c7dc3u32,
        0x72be5d74u32, 0x80deb1feu32, 0x9bdc06a7u32, 0xc19bf174u32,
        0xe49b69c1u32, 0xefbe4786u32, 0x0fc19dc6u32, 0x240ca1ccu32,
        0x2de92c6fu32, 0x4a7484aau32, 0x5cb0a9dcu32, 0x76f988dau32,
        0x983e5152u32, 0xa831c66du32, 0xb00327c8u32, 0xbf597fc7u32,
        0xc6e00bf3u32, 0xd5a79147u32, 0x06ca6351u32, 0x14292967u32,
        0x27b70a85u32, 0x2e1b2138u32, 0x4d2c6dfcu32, 0x53380d13u32,
        0x650a7354u32, 0x766a0abbu32, 0x81c2c92eu32, 0x92722c85u32,
        0xa2bfe8a1u32, 0xa81a664bu32, 0xc24b8b70u32, 0xc76c51a3u32,
        0xd192e819u32, 0xd6990624u32, 0xf40e3585u32, 0x106aa070u32,
        0x19a4c116u32, 0x1e376c08u32, 0x2748774cu32, 0x34b0bcb5u32,
        0x391c0cb3u32, 0x4ed8aa4au32, 0x5b9cca4fu32, 0x682e6ff3u32,
        0x748f82eeu32, 0x78a5636fu32, 0x84c87814u32, 0x8cc70208u32,
        0x90befffau32, 0xa4506cebu32, 0xbef9a3f7u32, 0xc67178f2u32,
    ];
    proof {
        assert(k@ =~= round_constants_spec());
    }
    k
}

fn rotr_exec(x: u32, n: u32) -> (r: u32)
    requires
        0 < n < 32,
    ensures
        r == rotr(x, n),
{
    (x >> n) | (x << (32 - n))
}

fn swap_word_bytes_exec(w: u32) -> (r: u32)
    ensures
        r == swap_word_bytes(w),
{
    (w >> 24u32) | ((w >> 8u32) & 0xff00) | ((w << 8u32) & 0xff0000) | (w << 24u32)
}

/// Compresses the 16 little-endian packed words starting at
/// `words[base]` into the running state, exactly as the kernel contract
/// asks of every backend.
fn compress_block_at(state: &mut Vec<u32>, words: &[u32], base: usize)
    requires
        old(state)@.len() == 8,
        base + 16 <= words@.len(),
    ensures
        final(state)@ =~= compress(
            old(state)@,
            Seq::new(16, |t: int| swap_word_bytes(words@[base + t])),
        ),
        final(state)@.len() == 8,
{
    let ghost init = state@;
    let ghost block: Seq<u32> = Seq::new(16, |t: int| swap_word_bytes(words@[base + t]));
    proof {
        assert(words.len() == words@.len());
    }
    let mut w: Vec<u32> = Vec::new();
    let mut t: usize = 0;
    while t < 16
        invariant
            t <= 16,
            base + 16 <= words@.len(),
            words@.len() <= usize::MAX,
            block == Seq::new(16, |j: int| swap_word_bytes(words@[base + j])),
            w@.len() == t,
            forall|j: int| 0 <= j < t ==> w@[j] == schedule(block, j),
        decreases 16 - t,
    {
        let v = swap_word_bytes_exec(words[base + t]);
        proof {
            assert(block[t as int] == swap_word_bytes(words@[base + t]));
        }
        w.push(v);
        t += 1;
    }
    while t < 64
        invariant
            16 <= t <= 64,
            block.len() == 16,
            w@.len() == t,
            forall|j: int| 0 <= j < t ==> w@[j] == schedule(block, j),
        decreases 64 - t,
    {
        let s1 = {
            let x = w[t - 2];
            rotr_exec(x, 17) ^ rotr_exec(x, 19) ^ (x >> 10u32)
        };
        let s0 = {
            let x = w[t - 15];
            rotr_exec(x, 7) ^ rotr_exec(x, 18) ^ (x >> 3u32)
        };
        let v = s1.wrapping_add(w[t - 7]).wrapping_add(s0).wrapping_add(w[t - 16]);
        proof {
            let ti = t as int;
            assert(s1 == small_sigma1(schedule(block, ti - 2)));
            assert(s0 == small_sigma0(schedule(block, ti - 15)));
            assert(schedule(block, ti) == small_sigma1(schedule(block, ti - 2)).wrapping_add(
                schedule(block, ti - 7),
            ).wrapping_add(small_sigma0(schedule(block, ti - 15))).wrapping_add(
                schedule(block, ti - 16),
            ));
            assert(v == schedule(block, ti));
        }
        w.push(v);
        t += 1;
    }
    let k = round_constants();
    let mut a = state[0];
    let mut b = state[1];
    let mut c = state[2];
    let mut d = state[3];
    let mut e = state[4];
    let mut f = state[5];
    let mut g = state[6];
    let mut h = state[7];
    proof {
        assert(seq![a, b, c, d, e, f, g, h] =~= rounds(block, init, 0));
    }
    let mut r: usize = 0;
    while r < 64
        invariant
            r <= 64,
            w@.len() == 64,
            k@ == round_constants_spec(),
            init.len() == 8,
            block.len() == 16,
            forall|j: int| 0 <= j < 64 ==> w@[j] == schedule(block, j),
            seq![a, b, c, d, e, f, g, h] =~= rounds(block, init, r as int),
        decreases 64 - r,
    {
        let bs1 = rotr_exec(e, 6) ^ rotr_exec(e, 11) ^ rotr_exec(e, 25);
        let chv = (e & f) ^ (!e & g);
        let t1 = h.wrapping_add(bs1).wrapping_add(chv).wrapping_add(k[r]).wrapping_add(w[r]);
        let bs0 = rotr_exec(a, 2) ^ rotr_exec(a, 13) ^ rotr_exec(a, 22);
        let majv = (a & b) ^ (a & c) ^ (b & c);
        let t2 = bs0.wrapping_add(majv);
        let ghost prev = seq![a, b, c, d, e, f, g, h];
        h = g;
        g = f;
        f = e;
        e = d.wrapping_add(t1);
        d = c;
        c = b;
        b = a;
        a = t1.wrapping_add(t2);
        proof {
            assert(seq![a, b, c, d, e, f, g, h] =~= round_step(
                prev,
                schedule(block, r as int),
                round_constants_spec()[r as int],
            ));
            assert(rounds(block, init, r + 1) == round_step(
                rounds(block, init, r as int),
                schedule(block, r as int),
                round_constants_spec()[r as int],
            ));
        }
        r += 1;
    }
    let ghost fin = rounds(block, init, 64);
    let v0 = state[0].wrapping_add(a);
    let v1 = state[1].wrapping_add(b);
    let v2 = state[2].wrapping_add(c);
    let v3 = state[3].wrapping_add(d);
    let v4 = state[4].wrapping_add(e);
    let v5 = state[5].wrapping_add(f);
    let v6 = state[6].wrapping_add(g);
    let v7 = state[7].wrapping_add(h);
    state.set(0, v0);
    state.set(1, v1);
    state.set(2, v2);
    state.set(3, v3);
    state.set(4, v4);
    state.set(5, v5);
    state.set(6, v6);
    state.set(7, v7);
    proof {
        assert(state@ =~= compress(init, block));
    }
}

/// Hashes one lane's message: `nwords` little-endian packed padded words
/// starting at `words[base]`, returning the eight-word digest record the
/// kernel contract prescribes. Each lane starts from the fresh initial
/// state; no state crosses lanes.
pub fn kernel_hash_lane(words: &[u32], base: usize, nwords: usize) -> (rec: Vec<u32>)
    requires
        base + nwords <= words@.len(),
        nwords % 16 == 0,
    ensures
        rec@ == kernel_record(words@.subrange(base as int, base + nwords)),
        rec@.len() == 8,
{
    let ghost lane_words = words@.subrange(base as int, base + nwords);
    let mut state: Vec<u32> = vec![
        0x6a09e667u32, 0xbb67ae85u32, 0x3c6ef372u32, 0xa54ff53au32,
        0x510e527fu32, 0x9b05688cu32, 0x1f83d9abu32, 0x5be0cd19u32,
    ];
    proof {
        assert(state@ =~= initial_state());
        assert(words.len() == words@.len());
        vstd::arithmetic::div_mod::lemma_fundamental_div_mod(nwords as int, 16);
    }
    let nblocks: usize = nwords / 16;
    let mut b: usize = 0;
    while b < nblocks
        invariant
            b <= nblocks,
            base + nwords <= words@.len(),
            words@.len() <= usize::MAX,
            nwords == 16 * nblocks,
            lane_words == words@.subrange(base as int, base + nwords),
            state@.len() == 8,
            state@ =~= state_after_blocks(lane_words, b as int),
        decreases nblocks - b,
    {
        proof {
            assert(16 * b + 16 <= nwords) by (nonlinear_arith)
                requires
                    b < nblocks,
                    nwords == 16 * nblocks,
            ;
        }
        let block_base: usize = base + 16 * b;
        let ghost prev_state = state@;
        compress_block_at(&mut state, words, block_base);
        proof {
            let direct = Seq::new(16, |t: int| swap_word_bytes(words@[block_base + t]));
            assert forall|t: int| 0 <= t < 16 implies direct[t] == block_of(lane_words, b as int)[t] by {
                assert(lane_words[16 * (b as int) + t] == words@[base + 16 * (b as int) + t]);
            }
            assert(direct =~= block_of(lane_words, b as int));
            assert(state@ =~= compress(prev_state, block_of(lane_words, b as int)));
        }
        b += 1;
    }
    let mut rec: Vec<u32> = Vec::new();
    let mut i: usize = 0;
    while i < 8
        invariant
            i <= 8,
            state@.len() == 8,
            state@ =~= state_after_blocks(lane_words, nblocks as int),
            nwords == 16 * nblocks,
            lane_words.len() == nwords,
            rec@ =~= kernel_record(lane_words).subrange(0, i as int),
        decreases 8 - i,
    {
        let v = swap_word_bytes_exec(state[i]);
        proof {
            assert(lane_words.len() as int / 16 == nblocks as int) by (nonlinear_arith)
                requires
                    lane_words.len() == 16 * nblocks,
            ;
            assert(v == kernel_record(lane_words)[i as int]);
        }
        rec.push(v);
        i += 1;
    }
    proof {
        assert(kernel_record(lane_words).subrange(0, 8) =~= kernel_record(lane_words));
    }
    rec
}

} // verus!
