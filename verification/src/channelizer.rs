//! The polyphase channelizer: a prototype low-pass filter partitioned
//! round-robin into per-channel phase filters, and two interchangeable
//! execution strategies that compute the same channelization operation.

use vstd::prelude::*;
use crate::config::ConfigError;
use crate::sample::{burst_bounded, lemma_abs_mul, sample_bounded, Sample, COND_CAP, MAX_BURST_LEN};

verus! {

/// Largest magnitude a filter tap may have: 2.0 in Q16.
pub const TAP_CAP: i64 = 131072;

/// Most taps one channel's phase filter may hold, so that a channel's
/// multiply-accumulate stays within the accumulator range.
pub const MAX_PHASE_LEN: usize = 256;

/// Most channels a filter bank may have.
pub const MAX_CHANNELS: usize = 8192;

/// Every tap of the sequence lies within `b` of zero.
pub open spec fn taps_bounded(t: Seq<i64>, b: int) -> bool {
    forall|j: int| 0 <= j < t.len() ==> -b <= #[trigger] t[j] <= b
}

/// The number of taps that round-robin partitioning hands to channel `c`
/// out of a prototype of length `len` split over `n` channels: tap `j`
/// belongs to channel `j % n`.
pub open spec fn phase_len(len: int, n: int, c: int) -> int {
    len / n + if c < len % n {
        1int
    } else {
        0int
    }
}

/// The per-channel phase filters derived once from the prototype filter,
/// shared read-only by every channelization call thereafter.
#[derive(Debug)]
pub struct FilterBank {
    pub phases: Vec<Vec<i64>>,
    pub num_channels: usize,
}

impl FilterBank {
    /// Well-formedness: one phase filter per channel, each short enough
    /// and with every tap within the tap cap.
    pub open spec fn wf(&self) -> bool {
        &&& self.phases@.len() == self.num_channels
        &&& 0 < self.num_channels <= MAX_CHANNELS
        &&& forall|c: int| 0 <= c < self.num_channels ==>
            (#[trigger] self.phases@[c])@.len() <= MAX_PHASE_LEN
        &&& forall|c: int| 0 <= c < self.num_channels ==>
            taps_bounded((#[trigger] self.phases@[c])@, TAP_CAP as int)
    }

    /// Partitions the prototype filter across the channels: tap `j` goes
    /// to channel `j % n`, keeping the taps' index order within each
    /// channel. A prototype shorter than the channel count leaves the
    /// trailing channels with no taps — degenerate but not an error.
    pub fn new(prototype: &Vec<i64>, num_channels: usize) -> (r: Result<FilterBank, ConfigError>)
        ensures
            r.is_ok() <==> (0 < num_channels <= MAX_CHANNELS
                && prototype@.len() <= MAX_PHASE_LEN * num_channels
                && taps_bounded(prototype@, TAP_CAP as int)),
            !(0 < num_channels <= MAX_CHANNELS)
                ==> r == Err::<FilterBank, ConfigError>(ConfigError::ChannelCountOutOfRange),
            (0 < num_channels <= MAX_CHANNELS
                && prototype@.len() > MAX_PHASE_LEN * num_channels)
                ==> r == Err::<FilterBank, ConfigError>(ConfigError::PrototypeTooLong),
            (0 < num_channels <= MAX_CHANNELS
                && prototype@.len() <= MAX_PHASE_LEN * num_channels
                && !taps_bounded(prototype@, TAP_CAP as int))
                ==> r == Err::<FilterBank, ConfigError>(ConfigError::TapOutOfRange),
            r.is_ok() ==> {
                let bank = r->Ok_0;
                &&& bank.wf()
                &&& bank.num_channels == num_channels
                &&& forall|c: int| 0 <= c < num_channels ==>
                    (#[trigger] bank.phases@[c])@.len()
                        == phase_len(prototype@.len() as int, num_channels as int, c)
                &&& forall|c: int, j: int| 0 <= c < num_channels
                    && 0 <= j < phase_len(prototype@.len() as int, num_channels as int, c)
                    ==> (#[trigger] bank.phases@[c]@[j]) == prototype@[j * num_channels + c]
            },
    {
        if num_channels == 0 || num_channels > MAX_CHANNELS {
            return Err(ConfigError::ChannelCountOutOfRange);
        }
        if prototype.len() > MAX_PHASE_LEN * num_channels {
            return Err(ConfigError::PrototypeTooLong);
        }
        let len: usize = prototype.len();
        let mut t: usize = 0;
        while t < len
            invariant
                t <= len,
                len == prototype@.len(),
                0 < num_channels <= MAX_CHANNELS,
                len <= MAX_PHASE_LEN * num_channels,
                forall|j: int| 0 <= j < t ==>
                    -TAP_CAP <= #[trigger] prototype@[j] <= TAP_CAP,
            decreases len - t,
        {
            let tap = prototype[t];
            if tap < -TAP_CAP || tap > TAP_CAP {
                proof {
                    assert(!(-TAP_CAP <= prototype@[t as int] <= TAP_CAP));
                }
                return Err(ConfigError::TapOutOfRange);
            }
            t = t + 1;
        }
        let n: usize = num_channels;
        let mut phases: Vec<Vec<i64>> = Vec::new();
        let mut c: usize = 0;
        while c < n
            invariant
                c <= n,
                0 < n <= MAX_CHANNELS,
                len == prototype@.len(),
                len <= MAX_PHASE_LEN * n,
                taps_bounded(prototype@, TAP_CAP as int),
                phases@.len() == c,
                forall|cc: int| 0 <= cc < c ==>
                    (#[trigger] phases@[cc])@.len() == phase_len(len as int, n as int, cc),
                forall|cc: int, j: int| 0 <= cc < c
                    && 0 <= j < phase_len(len as int, n as int, cc)
                    ==> (#[trigger] phases@[cc]@[j]) == prototype@[j * (n as int) + cc],
                forall|cc: int| 0 <= cc < c ==>
                    taps_bounded((#[trigger] phases@[cc])@, TAP_CAP as int),
            decreases n - c,
        {
            let mut phase: Vec<i64> = Vec::new();
            let mut idx: usize = c;
            proof {
                assert(phase@.len() * n == 0) by (nonlinear_arith)
                    requires
                        phase@.len() == 0,
                ;
            }
            while idx < len
                invariant
                    0 < n <= MAX_CHANNELS,
                    c < n,
                    len == prototype@.len(),
                    len <= MAX_PHASE_LEN * n,
                    idx == phase@.len() * n + c,
                    phase@.len() > 0 ==> (phase@.len() - 1) * n + c < len,
                    forall|j: int| 0 <= j < phase@.len() ==>
                        (#[trigger] phase@[j]) == prototype@[j * (n as int) + (c as int)],
                    taps_bounded(prototype@, TAP_CAP as int),
                    taps_bounded(phase@, TAP_CAP as int),
                decreases len + n - idx,
            {
                proof {
                    assert((phase@.len() + 1) * (n as int) + c == idx + n) by (nonlinear_arith)
                        requires
                            idx == phase@.len() * (n as int) + c,
                    ;
                    assert(len <= 256 * 8192) by (nonlinear_arith)
                        requires
                            len <= MAX_PHASE_LEN * n,
                            n <= MAX_CHANNELS,
                            MAX_PHASE_LEN == 256usize,
                            MAX_CHANNELS == 8192usize,
                    ;
                }
                phase.push(prototype[idx]);
                idx = idx + n;
            }
            proof {
                lemma_phase_count(len as int, n as int, c as int, phase@.len() as int);
            }
            phases.push(phase);
            c = c + 1;
        }
        proof {
            assert forall|cc: int| 0 <= cc < n implies
                phase_len(len as int, n as int, cc) <= MAX_PHASE_LEN by {
                lemma_phase_len_cap(len as int, n as int, cc, MAX_PHASE_LEN as int);
            }
        }
        Ok(FilterBank { phases, num_channels: n })
    }
}

/// The tap count reached by stepping `n`-wise from `c` until the
/// prototype ends is exactly the round-robin share of channel `c`.
proof fn lemma_phase_count(len: int, n: int, c: int, k: int)
    requires
        0 < n,
        0 <= c < n,
        0 <= len,
        0 <= k,
        k * n + c >= len,
        k > 0 ==> (k - 1) * n + c < len,
        k == 0 ==> c >= len,
    ensures
        k == phase_len(len, n, c),
{
    let q = len / n;
    let r = len % n;
    vstd::arithmetic::div_mod::lemma_fundamental_div_mod(len, n);
    vstd::arithmetic::div_mod::lemma_mod_division_less_than_divisor(len, n);
    vstd::arithmetic::div_mod::lemma_div_pos_is_pos(len, n);
    let t = phase_len(len, n, c);
    lemma_phase_len_steps(len, n, c, q, r);
    if k < t {
        assert(k * n + c <= (t - 1) * n + c) by (nonlinear_arith)
            requires
                k <= t - 1,
                0 < n,
        ;
        assert(false);
    }
    if t < k {
        assert(t * n + c <= (k - 1) * n + c) by (nonlinear_arith)
            requires
                t <= k - 1,
                0 < n,
        ;
        assert(false);
    }
}

/// The round-robin share itself satisfies the stepping bounds.
proof fn lemma_phase_len_steps(len: int, n: int, c: int, q: int, r: int)
    by (nonlinear_arith)
    requires
        len == n * q + r,
        0 <= r < n,
        0 <= c < n,
        0 <= q,
        q == len / n,
        r == len % n,
    ensures
        phase_len(len, n, c) == q + if c < r { 1int } else { 0int },
        phase_len(len, n, c) * n + c >= len,
        phase_len(len, n, c) > 0 ==> (phase_len(len, n, c) - 1) * n + c < len,
        phase_len(len, n, c) == 0 ==> c >= len,
        0 <= phase_len(len, n, c),
{
}

/// Every channel's share of a prototype no longer than `m * n` taps stays
/// within `m` taps.
pub proof fn lemma_phase_len_cap(len: int, n: int, c: int, m: int)
    requires
        0 < n,
        0 <= c < n,
        0 <= len <= m * n,
        0 < m,
    ensures
        0 <= phase_len(len, n, c) <= m,
{
    let q = len / n;
    let r = len % n;
    vstd::arithmetic::div_mod::lemma_fundamental_div_mod(len, n);
    vstd::arithmetic::div_mod::lemma_mod_division_less_than_divisor(len, n);
    vstd::arithmetic::div_mod::lemma_div_pos_is_pos(len, n);
    assert(q + if c < r { 1int } else { 0int } <= m) by (nonlinear_arith)
        requires
            len == n * q + r,
            0 <= r < n,
            0 <= c < n,
            0 <= q,
            len <= m * n,
            0 < m,
            0 < n,
    ;
    lemma_phase_len_steps(len, n, c, q, r);
}

/// When the prototype is at least as long as the channel count, every
/// channel receives at least one tap, and every share is the rounded-down
/// quotient or one more.
pub proof fn lemma_partition_shares(len: int, n: int, c: int)
    requires
        0 < n <= len,
        0 <= c < n,
    ensures
        phase_len(len, n, c) == len / n || phase_len(len, n, c) == len / n + 1,
        1 <= phase_len(len, n, c),
{
    let q = len / n;
    let r = len % n;
    vstd::arithmetic::div_mod::lemma_fundamental_div_mod(len, n);
    vstd::arithmetic::div_mod::lemma_mod_division_less_than_divisor(len, n);
    assert(q >= 1) by (nonlinear_arith)
        requires
            len == n * q + r,
            0 <= r < n,
            n <= len,
            0 < n,
            0 <= q,
    ;
    vstd::arithmetic::div_mod::lemma_div_pos_is_pos(len, n);
}

/// The tap counts of the first `k` channels, summed.
pub open spec fn phase_len_sum(len: int, n: int, k: int) -> int
    decreases k,
{
    if k <= 0 {
        0
    } else {
        phase_len_sum(len, n, k - 1) + phase_len(len, n, k - 1)
    }
}

/// The first `k` shares sum to `k` quotients plus one extra tap for each
/// remainder channel seen so far.
proof fn lemma_partition_partial(len: int, n: int, k: int)
    requires
        0 < n,
        0 <= len,
        0 <= k <= n,
    ensures
        phase_len_sum(len, n, k) == k * (len / n) + if k <= len % n {
            k
        } else {
            len % n
        },
    decreases k,
{
    let q = len / n;
    let r = len % n;
    if k > 0 {
        lemma_partition_partial(len, n, k - 1);
        assert((k - 1) * q + q == k * q) by (nonlinear_arith);
        assert(phase_len(len, n, k - 1) == q + if k - 1 < r {
            1int
        } else {
            0int
        });
        if k <= r {
            assert(phase_len_sum(len, n, k) == k * q + k);
        } else {
            assert(phase_len_sum(len, n, k) == k * q + r);
        }
    } else {
        assert(0 * q == 0) by (nonlinear_arith);
    }
}

/// Round-robin partitioning loses no taps: the per-channel shares sum
/// back to the prototype length.
pub proof fn lemma_partition_total(len: int, n: int)
    requires
        0 < n,
        0 <= len,
    ensures
        phase_len_sum(len, n, n) == len,
{
    lemma_partition_partial(len, n, n);
    vstd::arithmetic::div_mod::lemma_fundamental_div_mod(len, n);
    vstd::arithmetic::div_mod::lemma_mod_division_less_than_divisor(len, n);
    assert(n * (len / n) == (len / n) * n) by (nonlinear_arith);
}

/// The channelization operation, one term at a time: the first `jn` taps
/// of channel `c`'s phase filter convolved causally against the in-phase
/// component of the channel's decimated view of the burst, at output
/// position `i`.
pub open spec fn conv_partial(s: Seq<Sample>, taps: Seq<i64>, c: int, n: int, i: int, jn: int) -> int
    decreases jn,
{
    if jn <= 0 {
        0
    } else {
        conv_partial(s, taps, c, n, i, jn - 1) + if jn - 1 <= i {
            taps[jn - 1] * s[(i - (jn - 1)) * n + c].re
        } else {
            0
        }
    }
}

/// One output value of the channelization operation: all taps applied.
pub open spec fn channel_out(s: Seq<Sample>, taps: Seq<i64>, c: int, n: int, i: int) -> int {
    conv_partial(s, taps, c, n, i, taps.len() as int)
}

/// Sample indices touched by output position `i` of channel `c` are valid.
proof fn lemma_index_valid(len: int, n: int, c: int, i: int, j: int)
    requires
        0 < n,
        0 <= c < n,
        0 <= j <= i,
        i < len / n,
    ensures
        0 <= (i - j) * n + c < len,
{
    let q = len / n;
    let r = len % n;
    vstd::arithmetic::div_mod::lemma_fundamental_div_mod(len, n);
    vstd::arithmetic::div_mod::lemma_mod_division_less_than_divisor(len, n);
    assert(0 <= (i - j) * n + c && (i - j) * n + c < len) by (nonlinear_arith)
        requires
            len == n * q + r,
            0 <= r < n,
            0 <= c < n,
            0 <= j <= i,
            i < q,
            0 < n,
    ;
}

/// A partial convolution over bounded taps and samples is bounded by the
/// number of terms times the per-term cap.
proof fn lemma_conv_bounded(s: Seq<Sample>, taps: Seq<i64>, c: int, n: int, i: int, jn: int)
    requires
        0 < n,
        0 <= c < n,
        0 <= i,
        i < s.len() as int / n,
        0 <= jn <= taps.len(),
        taps_bounded(taps, TAP_CAP as int),
        burst_bounded(s, COND_CAP as int),
    ensures
        -(jn * (TAP_CAP * COND_CAP)) <= conv_partial(s, taps, c, n, i, jn)
            <= jn * (TAP_CAP * COND_CAP),
    decreases jn,
{
    if jn <= 0 {
        assert(0 * (TAP_CAP * COND_CAP) == 0) by (nonlinear_arith);
    } else {
        lemma_conv_bounded(s, taps, c, n, i, jn - 1);
        if jn - 1 <= i {
            lemma_index_valid(s.len() as int, n, c, i, jn - 1);
            let idx = (i - (jn - 1)) * n + c;
            assert(sample_bounded(s[idx], COND_CAP as int));
            lemma_abs_mul(taps[jn - 1] as int, TAP_CAP as int, s[idx].re as int, COND_CAP as int);
        }
        assert((jn - 1) * (TAP_CAP * COND_CAP) + TAP_CAP * COND_CAP == jn * (TAP_CAP * COND_CAP))
            by (nonlinear_arith);
    }
}

/// One channel of the channelization, by direct multiply-accumulate.
pub fn channelize_channel(burst: &Vec<Sample>, taps: &Vec<i64>, c: usize, n: usize) -> (out: Vec<
    i64,
>)
    requires
        0 < n,
        c < n,
        taps@.len() <= MAX_PHASE_LEN,
        taps_bounded(taps@, TAP_CAP as int),
        burst_bounded(burst@, COND_CAP as int),
        burst@.len() <= MAX_BURST_LEN,
    ensures
        out@.len() == burst@.len() as int / n as int,
        forall|i: int| 0 <= i < out@.len() ==>
            #[trigger] out@[i] == channel_out(burst@, taps@, c as int, n as int, i),
{
    let m: usize = burst.len() / n;
    let t: usize = taps.len();
    let mut out: Vec<i64> = Vec::new();
    let mut i: usize = 0;
    while i < m
        invariant
            i <= m,
            m == burst@.len() as int / n as int,
            t == taps@.len(),
            0 < n,
            c < n,
            t <= MAX_PHASE_LEN,
            taps_bounded(taps@, TAP_CAP as int),
            burst_bounded(burst@, COND_CAP as int),
            burst@.len() <= MAX_BURST_LEN,
            out@.len() == i,
            forall|ii: int| 0 <= ii < i ==>
                #[trigger] out@[ii] == channel_out(burst@, taps@, c as int, n as int, ii),
        decreases m - i,
    {
        let mut acc: i64 = 0;
        let mut j: usize = 0;
        while j < t
            invariant
                j <= t,
                i < m,
                m == burst@.len() as int / n as int,
                t == taps@.len(),
                0 < n,
                c < n,
                t <= MAX_PHASE_LEN,
                taps_bounded(taps@, TAP_CAP as int),
                burst_bounded(burst@, COND_CAP as int),
                burst@.len() <= MAX_BURST_LEN,
                acc == conv_partial(burst@, taps@, c as int, n as int, i as int, j as int),
                -((j as int) * (TAP_CAP * COND_CAP)) <= acc
                    <= (j as int) * (TAP_CAP * COND_CAP),
            decreases t - j,
        {
            proof {
                assert(((j + 1) as int) * (TAP_CAP * COND_CAP)
                    == (j as int) * (TAP_CAP * COND_CAP) + TAP_CAP * COND_CAP)
                    by (nonlinear_arith);
                assert(((j + 1) as int) * (TAP_CAP * COND_CAP)
                    <= 256 * (TAP_CAP * COND_CAP)) by (nonlinear_arith)
                    requires
                        (j + 1) as int <= 256,
                ;
                assert(((j as int)) * (TAP_CAP * COND_CAP)
                    >= -(256 * (TAP_CAP * COND_CAP))) by (nonlinear_arith)
                    requires
                        0 <= j as int,
                ;
            }
            if j <= i {
                proof {
                    lemma_index_valid(
                        burst@.len() as int,
                        n as int,
                        c as int,
                        i as int,
                        j as int,
                    );
                }
                let idx: usize = (i - j) * n + c;
                let x = burst[idx];
                proof {
                    assert(sample_bounded(burst@[idx as int], COND_CAP as int));
                    lemma_abs_mul(
                        taps@[j as int] as int,
                        TAP_CAP as int,
                        x.re as int,
                        COND_CAP as int,
                    );
                }
                acc = acc + taps[j] * x.re;
            }
            j = j + 1;
        }
        out.push(acc);
        i = i + 1;
    }
    out
}

/// Strategy A: vectorizable direct form. Each channel is handled
/// independently — its filter and its output region are disjoint from
/// every other channel's — by batched multiply-accumulate.
pub fn channelize_direct(burst: &Vec<Sample>, bank: &FilterBank) -> (out: Vec<Vec<i64>>)
    requires
        bank.wf(),
        burst_bounded(burst@, COND_CAP as int),
        burst@.len() <= MAX_BURST_LEN,
    ensures
        out@.len() == bank.num_channels,
        forall|c: int| 0 <= c < bank.num_channels ==>
            (#[trigger] out@[c])@.len() == burst@.len() as int / bank.num_channels as int,
        forall|c: int, i: int| 0 <= c < bank.num_channels
            && 0 <= i < burst@.len() as int / bank.num_channels as int
            ==> (#[trigger] out@[c]@[i])
                == channel_out(burst@, bank.phases@[c]@, c, bank.num_channels as int, i),
{
    let n: usize = bank.num_channels;
    let mut out: Vec<Vec<i64>> = Vec::new();
    let mut c: usize = 0;
    while c < n
        invariant
            c <= n,
            n == bank.num_channels,
            bank.wf(),
            burst_bounded(burst@, COND_CAP as int),
            burst@.len() <= MAX_BURST_LEN,
            out@.len() == c,
            forall|cc: int| 0 <= cc < c ==>
                (#[trigger] out@[cc])@.len() == burst@.len() as int / n as int,
            forall|cc: int, i: int| 0 <= cc < c && 0 <= i < burst@.len() as int / n as int
                ==> (#[trigger] out@[cc]@[i])
                    == channel_out(burst@, bank.phases@[cc]@, cc, n as int, i),
        decreases n - c,
    {
        let phase = &bank.phases[c];
        let channel = channelize_channel(burst, phase, c, n);
        out.push(channel);
        c = c + 1;
    }
    out
}

/// Adding a tap beyond the output position leaves a partial convolution
/// unchanged.
proof fn lemma_conv_skip(s: Seq<Sample>, taps: Seq<i64>, c: int, n: int, i: int, jn: int)
    requires
        0 <= i,
        i < jn,
    ensures
        conv_partial(s, taps, c, n, i, jn) == conv_partial(s, taps, c, n, i, i + 1),
    decreases jn,
{
    if i + 1 < jn {
        lemma_conv_skip(s, taps, c, n, i, jn - 1);
    }
}

/// Strategy B: transposed form. Instead of gathering every tap for one
/// output position, each tap scatters its contribution into all the
/// output positions it reaches; the per-channel result is the same
/// channelization operation.
pub fn channelize_transposed(burst: &Vec<Sample>, bank: &FilterBank) -> (out: Vec<Vec<i64>>)
    requires
        bank.wf(),
        burst_bounded(burst@, COND_CAP as int),
        burst@.len() <= MAX_BURST_LEN,
    ensures
        out@.len() == bank.num_channels,
        forall|c: int| 0 <= c < bank.num_channels ==>
            (#[trigger] out@[c])@.len() == burst@.len() as int / bank.num_channels as int,
        forall|c: int, i: int| 0 <= c < bank.num_channels
            && 0 <= i < burst@.len() as int / bank.num_channels as int
            ==> (#[trigger] out@[c]@[i])
                == channel_out(burst@, bank.phases@[c]@, c, bank.num_channels as int, i),
{
    let n: usize = bank.num_channels;
    let m: usize = burst.len() / n;
    let mut out: Vec<Vec<i64>> = Vec::new();
    let mut c: usize = 0;
    while c < n
        invariant
            c <= n,
            n == bank.num_channels,
            m == burst@.len() as int / n as int,
            bank.wf(),
            burst_bounded(burst@, COND_CAP as int),
            burst@.len() <= MAX_BURST_LEN,
            out@.len() == c,
            forall|cc: int| 0 <= cc < c ==>
                (#[trigger] out@[cc])@.len() == burst@.len() as int / n as int,
            forall|cc: int, i: int| 0 <= cc < c && 0 <= i < burst@.len() as int / n as int
                ==> (#[trigger] out@[cc]@[i])
                    == channel_out(burst@, bank.phases@[cc]@, cc, n as int, i),
        decreases n - c,
    {
        let taps = &bank.phases[c];
        let t: usize = taps.len();
        let mut channel: Vec<i64> = vec![0i64; m];
        let mut j: usize = 0;
        while j < t
            invariant
                j <= t,
                t == taps@.len(),
                taps@ == bank.phases@[c as int]@,
                n == bank.num_channels,
                c < n,
                m == burst@.len() as int / n as int,
                bank.wf(),
                burst_bounded(burst@, COND_CAP as int),
                burst@.len() <= MAX_BURST_LEN,
                t <= MAX_PHASE_LEN,
                taps_bounded(taps@, TAP_CAP as int),
                channel@.len() == m,
                forall|i: int| 0 <= i < m ==>
                    #[trigger] channel@[i]
                        == conv_partial(burst@, taps@, c as int, n as int, i, j as int),
            decreases t - j,
        {
            let mut i: usize = j;
            while i < m
                invariant
                    j <= i,
                    i <= m || i == j,
                    j < t,
                    t == taps@.len(),
                    taps@ == bank.phases@[c as int]@,
                    n == bank.num_channels,
                    c < n,
                    m == burst@.len() as int / n as int,
                    bank.wf(),
                    burst_bounded(burst@, COND_CAP as int),
                    burst@.len() <= MAX_BURST_LEN,
                    t <= MAX_PHASE_LEN,
                    taps_bounded(taps@, TAP_CAP as int),
                    channel@.len() == m,
                    forall|ii: int| 0 <= ii < m && ii < i ==>
                        #[trigger] channel@[ii]
                            == conv_partial(burst@, taps@, c as int, n as int, ii, j + 1),
                    forall|ii: int| i <= ii < m ==>
                        #[trigger] channel@[ii]
                            == conv_partial(burst@, taps@, c as int, n as int, ii, j as int),
                decreases m - i,
            {
                proof {
                    lemma_index_valid(
                        burst@.len() as int,
                        n as int,
                        c as int,
                        i as int,
                        j as int,
                    );
                    lemma_conv_bounded(
                        burst@,
                        taps@,
                        c as int,
                        n as int,
                        i as int,
                        j as int,
                    );
                    assert((j as int) * (TAP_CAP * COND_CAP) <= 256 * (TAP_CAP * COND_CAP)
                        && -(256 * (TAP_CAP * COND_CAP)) <= -((j as int) * (TAP_CAP
                        * COND_CAP))) by (nonlinear_arith)
                        requires
                            0 <= j as int <= 256,
                    ;
                }
                let idx: usize = (i - j) * n + c;
                let x = burst[idx];
                proof {
                    assert(sample_bounded(burst@[idx as int], COND_CAP as int));
                    lemma_abs_mul(
                        taps@[j as int] as int,
                        TAP_CAP as int,
                        x.re as int,
                        COND_CAP as int,
                    );
                }
                let prev = channel[i];
                channel[i] = prev + taps[j] * x.re;
                i = i + 1;
            }
            proof {
                assert forall|ii: int| 0 <= ii < m && i <= ii implies
                    #[trigger] channel@[ii]
                        == conv_partial(burst@, taps@, c as int, n as int, ii, j + 1) by {
                    lemma_conv_skip(burst@, taps@, c as int, n as int, ii, j + 1);
                }
            }
            j = j + 1;
        }
        out.push(channel);
        c = c + 1;
    }
    out
}

/// The two execution strategies of the channelizer.
#[derive(Clone, Copy, Debug, PartialEq, Eq, Structural)]
pub enum Strategy {
    Direct,
    Transposed,
}

/// Channelizes one conditioned burst. The contract does not depend on the
/// strategy: both strategies compute the same channelization operation, so
/// the choice may fall back at runtime on whatever the hardware supports.
pub fn channelize(burst: &Vec<Sample>, bank: &FilterBank, strategy: Strategy) -> (out: Vec<
    Vec<i64>,
>)
    requires
        bank.wf(),
        burst_bounded(burst@, COND_CAP as int),
        burst@.len() <= MAX_BURST_LEN,
    ensures
        out@.len() == bank.num_channels,
        forall|c: int| 0 <= c < bank.num_channels ==>
            (#[trigger] out@[c])@.len() == burst@.len() as int / bank.num_channels as int,
        forall|c: int, i: int| 0 <= c < bank.num_channels
            && 0 <= i < burst@.len() as int / bank.num_channels as int
            ==> (#[trigger] out@[c]@[i])
                == channel_out(burst@, bank.phases@[c]@, c, bank.num_channels as int, i),
{
    match strategy {
        Strategy::Direct => channelize_direct(burst, bank),
        Strategy::Transposed => channelize_transposed(burst, bank),
    }
}

/// Channelization is linear: a burst scaled by a real constant produces
/// every partial sum scaled by the same constant, for any channel and
/// output position.
pub proof fn lemma_conv_linear(
    s: Seq<Sample>,
    scaled: Seq<Sample>,
    taps: Seq<i64>,
    c: int,
    n: int,
    i: int,
    k: int,
    jn: int,
)
    requires
        scaled.len() == s.len(),
        forall|idx: int| 0 <= idx < s.len() ==> (#[trigger] scaled[idx]).re == k * s[idx].re
            && scaled[idx].im == k * s[idx].im,
        0 < n,
        0 <= c < n,
        0 <= i,
        i < s.len() as int / n,
        0 <= jn,
    ensures
        conv_partial(scaled, taps, c, n, i, jn) == k * conv_partial(s, taps, c, n, i, jn),
    decreases jn,
{
    if jn <= 0 {
        assert(k * 0 == 0) by (nonlinear_arith);
    } else {
        lemma_conv_linear(s, scaled, taps, c, n, i, k, jn - 1);
        let p = conv_partial(s, taps, c, n, i, jn - 1);
        if jn - 1 <= i {
            lemma_index_valid(s.len() as int, n, c, i, jn - 1);
            let idx = (i - (jn - 1)) * n + c;
            let tap = taps[jn - 1];
            assert(tap * (k * s[idx].re) == k * (tap * s[idx].re)) by (nonlinear_arith);
            assert(k * p + k * (tap * s[idx].re) == k * (p + tap * s[idx].re))
                by (nonlinear_arith);
        } else {
            assert(k * p + 0 == k * (p + 0));
        }
    }
}

/// Channelization is linear in the burst: scaling every input sample by a
/// real constant scales every channel's every output value by the same
/// constant — and since both execution strategies compute this same
/// operation, it holds of both.
pub proof fn lemma_channelize_linear(
    s: Seq<Sample>,
    scaled: Seq<Sample>,
    taps: Seq<i64>,
    c: int,
    n: int,
    i: int,
    k: int,
)
    requires
        scaled.len() == s.len(),
        forall|idx: int| 0 <= idx < s.len() ==> (#[trigger] scaled[idx]).re == k * s[idx].re
            && scaled[idx].im == k * s[idx].im,
        0 < n,
        0 <= c < n,
        0 <= i,
        i < s.len() as int / n,
    ensures
        channel_out(scaled, taps, c, n, i) == k * channel_out(s, taps, c, n, i),
{
    lemma_conv_linear(s, scaled, taps, c, n, i, k, taps.len() as int);
}

/// Scales every sample of a burst by an integer constant.
pub fn scale_burst(buffer: &mut Vec<Sample>, k: i64)
    requires
        -16384 <= k <= 16384,
        burst_bounded(old(buffer)@, crate::sample::RAW_CAP as int),
    ensures
        final(buffer)@.len() == old(buffer)@.len(),
        forall|i: int| 0 <= i < old(buffer)@.len() ==> (#[trigger] final(buffer)@[i]).re
            == k * old(buffer)@[i].re && final(buffer)@[i].im == k * old(buffer)@[i].im,
        burst_bounded(final(buffer)@, COND_CAP as int),
{
    let ghost orig = buffer@;
    let n: usize = buffer.len();
    let mut i: usize = 0;
    while i < n
        invariant
            n == orig.len(),
            buffer@.len() == n,
            i <= n,
            -16384 <= k <= 16384,
            burst_bounded(orig, crate::sample::RAW_CAP as int),
            forall|j: int| i <= j < n ==> buffer@[j] == orig[j],
            forall|j: int| 0 <= j < i ==> (#[trigger] buffer@[j]).re == k * orig[j].re
                && buffer@[j].im == k * orig[j].im,
            forall|j: int| 0 <= j < i ==> sample_bounded(#[trigger] buffer@[j], COND_CAP as int),
        decreases n - i,
    {
        let x = buffer[i];
        proof {
            assert(sample_bounded(orig[i as int], crate::sample::RAW_CAP as int));
            lemma_abs_mul(k as int, 16384, x.re as int, crate::sample::RAW_CAP as int);
            lemma_abs_mul(k as int, 16384, x.im as int, crate::sample::RAW_CAP as int);
        }
        buffer[i] = Sample { re: k * x.re, im: k * x.im };
        i = i + 1;
    }
}

} // verus!
