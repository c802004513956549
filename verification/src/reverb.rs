//! The reverb core: fixed-length circular delay lines and the engine that
//! mixes them through a global feedback network.

use crate::num::div_t;
use vstd::prelude::*;

verus! {

/// Largest magnitude a sample stored in a delay line may reach. The mixing
/// step contracts stored energy by at least one tenth per pass, so this bound
/// is preserved as long as inputs stay within [`INPUT_BOUND`].
pub const SAMPLE_BOUND: i64 = 1_000_000_000_000_000;

/// Largest magnitude accepted for one input sample (one million times
/// full scale, in millionths).
pub const INPUT_BOUND: i64 = 1_000_000_000_000;

/// The mathematical state of one circular delay line: its cells and the two
/// cursors.
pub ghost struct RingView {
    pub cells: Seq<int>,
    pub read_pos: int,
    pub write_pos: int,
}

impl RingView {
    pub open spec fn len(self) -> int {
        self.cells.len() as int
    }

    /// Structural well-formedness: at least two cells, cursors in range.
    pub open spec fn wf(self) -> bool {
        &&& self.len() >= 2
        &&& 0 <= self.read_pos < self.len()
        &&& 0 <= self.write_pos < self.len()
    }

    /// The read cursor leads the write cursor by exactly one slot, so a value
    /// written now comes back only after a full trip around the line. Holds
    /// between processing steps (each step performs one read and one write).
    pub open spec fn aligned(self) -> bool {
        self.read_pos == (self.write_pos + 1) % self.len()
    }

    /// Every cell within `b` in magnitude.
    pub open spec fn bounded(self, b: int) -> bool {
        forall|i: int| 0 <= i < self.len() ==> -b <= #[trigger] self.cells[i] <= b
    }

    /// The value the next read returns.
    pub open spec fn tap(self) -> int {
        self.cells[self.read_pos]
    }

    /// The state after one processing step: the tap has been consumed and
    /// `v` written at the write cursor, both cursors advanced with
    /// wraparound.
    pub open spec fn fed(self, v: int) -> RingView {
        RingView {
            cells: self.cells.update(self.write_pos, v),
            read_pos: (self.read_pos + 1) % self.len(),
            write_pos: (self.write_pos + 1) % self.len(),
        }
    }

    /// A freshly allocated line: zero-filled, read cursor one ahead.
    pub open spec fn fresh(len: int) -> RingView {
        RingView { cells: Seq::new(len as nat, |i: int| 0), read_pos: 1, write_pos: 0 }
    }
}

/// A fixed-length circular buffer of samples with separate read and write
/// cursors, realizing a delay of one full lap between a write and the read
/// that returns it.
pub struct RingBuffer {
    pub buffer: Vec<i64>,
    pub read_position: usize,
    pub write_position: usize,
}

impl View for RingBuffer {
    type V = RingView;

    open spec fn view(&self) -> RingView {
        RingView {
            cells: self.buffer@.map_values(|x: i64| x as int),
            read_pos: self.read_position as int,
            write_pos: self.write_position as int,
        }
    }
}

impl RingBuffer {
    /// Wraps storage as a delay line, read cursor starting one slot ahead of
    /// the write cursor.
    pub fn new(vec: Vec<i64>) -> (r: RingBuffer)
        requires
            vec@.len() >= 2,
        ensures
            r@.cells == vec@.map_values(|x: i64| x as int),
            r@.read_pos == 1,
            r@.write_pos == 0,
            r@.wf(),
            r@.aligned(),
    {
        let r = RingBuffer { buffer: vec, read_position: 1, write_position: 0 };
        proof {
            vstd::arithmetic::div_mod::lemma_small_mod(1, r@.len() as nat);
        }
        r
    }

    /// Returns the value at the read cursor and advances the cursor one slot
    /// with wraparound.
    pub fn read_next(&mut self) -> (r: i64)
        requires
            old(self)@.wf(),
        ensures
            r as int == old(self)@.tap(),
            final(self)@.cells == old(self)@.cells,
            final(self)@.read_pos == (old(self)@.read_pos + 1) % old(self)@.len(),
            final(self)@.write_pos == old(self)@.write_pos,
            final(self)@.wf(),
    {
        let len = self.buffer.len();
        proof {
            assert(self@.cells.len() == self.buffer@.len());
        }
        let cur = self.buffer[self.read_position];
        self.read_position = (self.read_position + 1) % len;
        cur
    }

    /// Overwrites the value at the write cursor and advances the cursor one
    /// slot with wraparound.
    pub fn write_next(&mut self, sample: i64)
        requires
            old(self)@.wf(),
        ensures
            final(self)@.cells == old(self)@.cells.update(old(self)@.write_pos, sample as int),
            final(self)@.read_pos == old(self)@.read_pos,
            final(self)@.write_pos == (old(self)@.write_pos + 1) % old(self)@.len(),
            final(self)@.wf(),
    {
        let len = self.buffer.len();
        proof {
            assert(self@.cells.len() == self.buffer@.len());
        }
        self.buffer[self.write_position] = sample;
        self.write_position = (self.write_position + 1) % len;
    }
}

/// Weight numerator for the tap at index `x` among lines with midpoint `m`:
/// the triangular envelope `0.6 * x / m` rising to the midpoint and
/// `0.6 * (1 - (x - m) / m)` falling past it, expressed over the common
/// denominator `5 * m` (so a weight is `wnum(x, m) / (5 * m)`).
pub open spec fn wnum(x: int, m: int) -> int {
    if x > m {
        3 * (2 * m - x)
    } else {
        3 * x
    }
}

/// The weighted sum of all taps: each tap scaled by its (numerator) weight.
pub open spec fn wsum(taps: Seq<int>, m: int) -> int
    decreases taps.len(),
{
    if taps.len() == 0 {
        0
    } else {
        wsum(taps.drop_last(), m) + taps.last() * wnum(taps.len() - 1, m)
    }
}

/// The current tap of every line, in line order.
pub open spec fn taps_of(lines: Seq<RingView>) -> Seq<int> {
    lines.map_values(|l: RingView| l.tap())
}

/// The feedback value one processing step circulates: the weighted tap sum
/// over the common denominator `5 * m`, normalized by the line count, plus
/// the input scaled up a hundredfold.
pub open spec fn mix_value(lines: Seq<RingView>, input: int) -> int {
    let n = lines.len() as int;
    let m = n / 3;
    div_t(wsum(taps_of(lines), m), 5 * m * n) + 100 * input
}

/// Every line after one step: the mix written into each at its write cursor,
/// cursors advanced.
pub open spec fn step_lines(lines: Seq<RingView>, input: int) -> Seq<RingView> {
    lines.map_values(|l: RingView| l.fed(mix_value(lines, input)))
}

/// The wet output of one step: the circulating mix scaled back down.
pub open spec fn out_value(lines: Seq<RingView>, input: int) -> int {
    div_t(mix_value(lines, input), 100)
}

/// Delay length (in samples) that schedule step `k` yields: the delay time
/// `0.35 + 0.25 * k` seconds (in hundredths, after the increment that
/// precedes each length computation) times the sample rate, rounded down.
pub open spec fn sched_len(sr: int, k: int) -> int {
    ((35 + 25 * k) * sr) / 100
}

/// The lengths of the delay lines kept among the first `k` schedule steps:
/// those longer than one sample, in schedule order.
pub open spec fn kept_lens(sr: int, k: int) -> Seq<int>
    decreases k,
{
    if k <= 0 {
        Seq::empty()
    } else {
        kept_lens(sr, k - 1) + (if sched_len(sr, k - 1) > 1 {
            seq![sched_len(sr, k - 1)]
        } else {
            Seq::<int>::empty()
        })
    }
}

/// All delay-line lengths for a sample rate: the schedule runs through nine
/// delay times, 0.35 s up to 2.35 s in steps of 0.25 s.
pub open spec fn reverb_lens(sr: int) -> Seq<int> {
    kept_lens(sr, 9)
}

/// The engine state right after construction: one zero-filled line per
/// scheduled length.
pub open spec fn fresh_engine(sr: int) -> Seq<RingView> {
    reverb_lens(sr).map_values(|l: int| RingView::fresh(l))
}

/// Configuration the engine carries: the nominal fraction of feedback energy
/// retained per bounce, in millionths. Stored at construction; the mix
/// formula does not apply it.
pub struct MyReverbParams {
    pub decay: i64,
}

/// The reverb engine: a bank of delay lines of distinct lengths, all driven
/// by one shared feedback signal.
pub struct MyReverb {
    pub params: MyReverbParams,
    pub buffers: Vec<RingBuffer>,
}

impl View for MyReverb {
    type V = Seq<RingView>;

    open spec fn view(&self) -> Seq<RingView> {
        self.buffers@.map_values(|b: RingBuffer| b@)
    }
}

impl MyReverb {
    /// Engine invariant: between six and nine lines (what the schedule
    /// yields for any accepted sample rate), each structurally sound, each
    /// with its read cursor one ahead of its write cursor, and every stored
    /// sample within `SAMPLE_BOUND`.
    pub open spec fn wf(self) -> bool {
        &&& 6 <= self@.len() <= 9
        &&& forall|i: int|
            0 <= i < self@.len() ==> {
                &&& (#[trigger] self@[i]).wf()
                &&& self@[i].aligned()
                &&& self@[i].bounded(SAMPLE_BOUND as int)
            }
    }

    /// Builds the engine for a sample rate: walks the delay-time schedule,
    /// keeps every line longer than one sample, and zero-fills each.
    ///
    /// Sample rates below 2 Hz would leave fewer than three lines (and a
    /// zero midpoint in the mixing weights), and rates above 1 MHz have no
    /// audio meaning; both are rejected rather than allowed to build a
    /// degenerate network.
    pub fn new(sample_rate: i32) -> (r: Option<MyReverb>)
        ensures
            r is Some <==> 2 <= sample_rate <= 1_000_000,
            r is Some ==> {
                &&& r.unwrap().wf()
                &&& r.unwrap()@ == fresh_engine(sample_rate as int)
                &&& r.unwrap().params.decay == 100_000
            },
    {
        if sample_rate < 2 || sample_rate > 1_000_000 {
            return None;
        }
        let sr = sample_rate as u64;
        let mut buffers: Vec<RingBuffer> = Vec::new();
        let mut k: u64 = 0;
        while k < 9
            invariant
                2 <= sr <= 1_000_000,
                k <= 9,
                buffers@.len() == kept_lens(sr as int, k as int).len(),
                forall|i: int|
                    0 <= i < buffers@.len() ==> (#[trigger] buffers@[i])@ == RingView::fresh(
                        kept_lens(sr as int, k as int)[i],
                    ),
                forall|i: int|
                    0 <= i < buffers@.len() ==> (#[trigger] buffers@[i])@.wf()
                        && buffers@[i]@.aligned() && buffers@[i]@.bounded(SAMPLE_BOUND as int),
            decreases 9 - k,
        {
            let t_cs: u64 = 35 + 25 * k;
            proof {
                assert(t_cs * sr <= 260 * 1_000_000) by (nonlinear_arith)
                    requires t_cs <= 260, sr <= 1_000_000;
            }
            let len: u64 = (t_cs * sr) / 100;
            proof {
                vstd::arithmetic::div_mod::lemma_div_is_ordered(
                    (t_cs * sr) as int,
                    260 * 1_000_000 as int,
                    100,
                );
            }
            if len > 1 {
                let storage = zero_storage(len as usize);
                let line = RingBuffer::new(storage);
                proof {
                    assert(line@.cells =~= RingView::fresh(len as int).cells);
                    assert(line@.bounded(SAMPLE_BOUND as int));
                }
                buffers.push(line);
            }
            k += 1;
            proof {
                assert(kept_lens(sr as int, k as int) == kept_lens(sr as int, k - 1)
                    + (if sched_len(sr as int, k - 1) > 1 {
                        seq![sched_len(sr as int, k - 1)]
                    } else {
                        Seq::<int>::empty()
                    }));
            }
        }
        proof {
            lemma_reverb_lens_count(sr as int);
        }
        Some(MyReverb { params: MyReverbParams { decay: 100_000 }, buffers })
    }
}

/// Zero-filled sample storage.
fn zero_storage(len: usize) -> (v: Vec<i64>)
    ensures
        v@.len() == len,
        forall|i: int| 0 <= i < len ==> v@[i] == 0i64,
{
    let mut v: Vec<i64> = Vec::new();
    let mut i: usize = 0;
    while i < len
        invariant
            i <= len,
            v@.len() == i,
            forall|j: int| 0 <= j < i ==> v@[j] == 0i64,
        decreases len - i,
    {
        v.push(0);
        i += 1;
    }
    v
}

/// For any accepted sample rate, schedule steps three and later all survive
/// the length cut, so the engine has at least six lines; it never has more
/// than the nine the schedule offers.
pub proof fn lemma_reverb_lens_count(sr: int)
    requires
        2 <= sr,
    ensures
        6 <= reverb_lens(sr).len() <= 9,
{
    assert forall|k: int| 3 <= k < 9 implies sched_len(sr, k) > 1 by {
        assert((35 + 25 * k) * sr >= 220) by (nonlinear_arith)
            requires k >= 3, sr >= 2;
        vstd::arithmetic::div_mod::lemma_div_is_ordered(220, (35 + 25 * k) * sr, 100);
    }
    assert forall|k: int| 0 <= k <= 9 implies
        kept_lens(sr, k).len() <= k
        && kept_lens(sr, k).len() >= (if k >= 3 { k - 3 } else { 0 }) by {
        lemma_kept_lens_count(sr, k);
    }
}

proof fn lemma_kept_lens_count(sr: int, k: int)
    requires
        2 <= sr,
        0 <= k <= 9,
    ensures
        kept_lens(sr, k).len() <= k,
        kept_lens(sr, k).len() >= (if k >= 3 { k - 3 } else { 0 }),
    decreases k,
{
    if k > 0 {
        lemma_kept_lens_count(sr, k - 1);
        if k - 1 >= 3 {
            assert((35 + 25 * (k - 1)) * sr >= 220) by (nonlinear_arith)
                requires k - 1 >= 3, sr >= 2;
            vstd::arithmetic::div_mod::lemma_div_is_ordered(220, (35 + 25 * (k - 1)) * sr, 100);
        }
    }
}

/// Weight numerators never exceed 9 in magnitude for the line counts the
/// schedule can produce.
pub proof fn lemma_wnum_range(n: int, m: int)
    requires
        6 <= n <= 9,
        m == n / 3,
    ensures
        forall|x: int| 0 <= x < n ==> -9 <= #[trigger] wnum(x, m) <= 9,
{
    assert(m == 2 || m == 3);
}

/// The weighted tap sum is bounded by nine times the largest tap magnitude,
/// per tap.
pub proof fn lemma_wsum_bound(taps: Seq<int>, m: int, b: int)
    requires
        b >= 0,
        forall|i: int| 0 <= i < taps.len() ==> -b <= #[trigger] taps[i] <= b,
        forall|i: int| 0 <= i < taps.len() ==> -9 <= #[trigger] wnum(i, m) <= 9,
    ensures
        -9 * (taps.len() as int) * b <= wsum(taps, m) <= 9 * (taps.len() as int) * b,
    decreases taps.len(),
{
    if taps.len() == 0 {
        let lt = taps.len() as int;
        assert(9 * lt * b == 0 && -9 * lt * b == 0) by (nonlinear_arith)
            requires lt == 0;
    } else {
        let pre = taps.drop_last();
        assert(forall|i: int| 0 <= i < pre.len() ==> -b <= #[trigger] pre[i] <= b);
        lemma_wsum_bound(pre, m, b);
        let t = taps.last();
        let w = wnum(taps.len() - 1, m);
        let lt = taps.len() as int;
        let lp = pre.len() as int;
        assert(-9 * b <= t * w <= 9 * b) by (nonlinear_arith)
            requires -b <= t <= b, -9 <= w <= 9, b >= 0;
        assert(9 * lt * b == 9 * lp * b + 9 * b && -9 * lt * b == -9 * lp * b - 9 * b)
            by (nonlinear_arith)
            requires lp == lt - 1;
    }
}

/// Extending the summed prefix by one tap adds that tap's weighted value.
proof fn lemma_wsum_step(taps: Seq<int>, m: int, x: int)
    requires
        0 <= x < taps.len(),
    ensures
        wsum(taps.take(x + 1), m) == wsum(taps.take(x), m) + taps[x] * wnum(x, m),
{
    let t1 = taps.take(x + 1);
    assert(t1.drop_last() =~= taps.take(x));
    assert(t1.last() == taps[x]);
}

/// Truncating division by a positive divisor keeps a symmetric bound: if
/// `|a| <= c * d` then `|a / d| <= c`.
pub proof fn lemma_div_t_bound(a: int, d: int, c: int)
    requires
        d > 0,
        c >= 0,
        -(c * d) <= a <= c * d,
    ensures
        -c <= div_t(a, d) <= c,
{
    if a >= 0 {
        vstd::arithmetic::div_mod::lemma_div_is_ordered(a, c * d, d);
        vstd::arithmetic::div_mod::lemma_div_multiples_vanish(c, d);
        assert(d * c == c * d) by (nonlinear_arith);
        assert((c * d) / d == c);
        assert(a / d <= c);
        vstd::arithmetic::div_mod::lemma_div_pos_is_pos(a, d);
        assert(a / d >= 0);
        assert(div_t(a, d) == a / d);
    } else {
        vstd::arithmetic::div_mod::lemma_div_is_ordered(-a, c * d, d);
        vstd::arithmetic::div_mod::lemma_div_multiples_vanish(c, d);
        assert(d * c == c * d) by (nonlinear_arith);
        assert((c * d) / d == c);
        assert((-a) / d <= c);
        vstd::arithmetic::div_mod::lemma_div_pos_is_pos(-a, d);
        assert((-a) / d >= 0);
        assert(div_t(a, d) == -((-a) / d));
    }
}

impl MyReverb {
    /// One step of the per-sample transform, in place: reads every line's
    /// tap, mixes the weighted taps with the scaled-up input into one
    /// feedback value, writes that value back into every line, and leaves
    /// the scaled-down mix in `sample`.
    pub fn process(&mut self, sample: &mut i64)
        requires
            old(self).wf(),
            -INPUT_BOUND <= *old(sample) <= INPUT_BOUND,
        ensures
            final(self).wf(),
            final(self).params == old(self).params,
            final(self)@ == step_lines(old(self)@, *old(sample) as int),
            *final(sample) as int == out_value(old(self)@, *old(sample) as int),
            -SAMPLE_BOUND <= mix_value(old(self)@, *old(sample) as int) <= SAMPLE_BOUND,
            -10_000_000_000_000 <= *final(sample) <= 10_000_000_000_000,
    {
        let input: i64 = *sample;
        let ghost lines0 = self@;
        let n: usize = self.buffers.len();
        let m: usize = n / 3;
        proof {
            lemma_wnum_range(n as int, m as int);
        }
        let mut receive: i64 = 0;
        let mut x: usize = 0;
        while x < n
            invariant
                6 <= n <= 9,
                m == n as int / 3,
                self.params == old(self).params,
                x <= n,
                lines0.len() == n,
                self.buffers@.len() == n,
                forall|i: int| 0 <= i < n ==> (#[trigger] lines0[i]).wf()
                    && lines0[i].aligned() && lines0[i].bounded(SAMPLE_BOUND as int),
                forall|i: int| x <= i < n ==> (#[trigger] self@[i]) == lines0[i],
                forall|i: int| 0 <= i < x ==> {
                    &&& (#[trigger] self@[i]).cells == lines0[i].cells
                    &&& self@[i].read_pos == (lines0[i].read_pos + 1) % lines0[i].len()
                    &&& self@[i].write_pos == lines0[i].write_pos
                },
                forall|i: int| 0 <= i < n ==> -9 <= #[trigger] wnum(i, m as int) <= 9,
                receive == wsum(taps_of(lines0).take(x as int), m as int),
                -9 * (x as int) * (SAMPLE_BOUND as int) <= receive
                    <= 9 * (x as int) * (SAMPLE_BOUND as int),
            decreases n - x,
        {
            let ghost self_pre = self@;
            proof {
                assert(self@[x as int] == self.buffers@[x as int]@);
                assert(self@[x as int] == lines0[x as int]);
                assert(self@[x as int].wf());
            }
            let tap: i64 = self.buffers[x].read_next();
            let wn: i64 = tap_weight_numer(x, m);
            proof {
                assert forall|i: int| 0 <= i < n && i != x implies
                    #[trigger] self@[i] == self_pre[i] by {
                }
                assert(self@[x as int] == self.buffers@[x as int]@);
                assert(tap as int == lines0[x as int].tap());
                assert(taps_of(lines0)[x as int] == lines0[x as int].tap());
                assert(lines0[x as int].bounded(SAMPLE_BOUND as int));
                assert(-SAMPLE_BOUND <= tap <= SAMPLE_BOUND);
                assert(wn as int == wnum(x as int, m as int));
                assert(-9 * (SAMPLE_BOUND as int) <= (tap as int) * (wn as int)
                    <= 9 * (SAMPLE_BOUND as int)) by (nonlinear_arith)
                    requires
                        -(SAMPLE_BOUND as int) <= tap as int <= SAMPLE_BOUND as int,
                        -9 <= wn as int <= 9,
                ;
                lemma_wsum_step(taps_of(lines0), m as int, x as int);
                assert(9 * ((x + 1) as int) * (SAMPLE_BOUND as int)
                    == 9 * (x as int) * (SAMPLE_BOUND as int) + 9 * (SAMPLE_BOUND as int)
                    && -9 * ((x + 1) as int) * (SAMPLE_BOUND as int)
                    == -9 * (x as int) * (SAMPLE_BOUND as int) - 9 * (SAMPLE_BOUND as int))
                    by (nonlinear_arith);
            }
            receive = receive + tap * wn;
            x += 1;
        }
        proof {
            assert(taps_of(lines0).take(n as int) =~= taps_of(lines0));
            assert(-9 * (n as int) * (SAMPLE_BOUND as int) <= receive
                <= 9 * (n as int) * (SAMPLE_BOUND as int));
        }
        proof {
            assert(m <= 3);
            assert(5 * m * n <= 135) by (nonlinear_arith)
                requires m <= 3, n <= 9;
            assert(5 * m * n >= 60) by (nonlinear_arith)
                requires m >= 2, n >= 6;
        }
        let d: u64 = (5 * m * n) as u64;
        proof {
            let c: int = 9 * (SAMPLE_BOUND as int) / 10;
            assert(9 * (n as int) * (SAMPLE_BOUND as int) <= c * (d as int))
                by (nonlinear_arith)
                requires
                    6 <= n <= 9,
                    m as int == n as int / 3,
                    d == 5 * m * n,
                    c == 9 * (SAMPLE_BOUND as int) / 10,
                    SAMPLE_BOUND == 1_000_000_000_000_000i64,
            ;
            assert(-(9 * (n as int) * (SAMPLE_BOUND as int))
                == -9 * (n as int) * (SAMPLE_BOUND as int)) by (nonlinear_arith);
            lemma_div_t_bound(receive as int, d as int, c);
        }
        let mixed: i64 = crate::num::div_trunc(receive, d);
        let total: i64 = mixed + 100 * input;
        proof {
            assert(total as int == mix_value(lines0, input as int));
            assert(-SAMPLE_BOUND <= total <= SAMPLE_BOUND);
        }
        let mut y: usize = 0;
        while y < n
            invariant
                6 <= n <= 9,
                self.params == old(self).params,
                y <= n,
                lines0.len() == n,
                self.buffers@.len() == n,
                -SAMPLE_BOUND <= total <= SAMPLE_BOUND,
                total as int == mix_value(lines0, input as int),
                forall|i: int| 0 <= i < n ==> (#[trigger] lines0[i]).wf()
                    && lines0[i].aligned() && lines0[i].bounded(SAMPLE_BOUND as int),
                forall|i: int| y <= i < n ==> {
                    &&& (#[trigger] self@[i]).cells == lines0[i].cells
                    &&& self@[i].read_pos == (lines0[i].read_pos + 1) % lines0[i].len()
                    &&& self@[i].write_pos == lines0[i].write_pos
                },
                forall|i: int| 0 <= i < y ==> (#[trigger] self@[i]) == lines0[i].fed(
                    mix_value(lines0, input as int),
                ),
            decreases n - y,
        {
            let ghost self_pre = self@;
            proof {
                assert(self@[y as int] == self.buffers@[y as int]@);
                assert(self@[y as int].wf());
            }
            self.buffers[y].write_next(total);
            proof {
                assert forall|i: int| 0 <= i < n && i != y implies
                    #[trigger] self@[i] == self_pre[i] by {
                }
                assert(self@[y as int] == self.buffers@[y as int]@);
                assert(self@[y as int] == lines0[y as int].fed(
                    mix_value(lines0, input as int),
                ));
            }
            y += 1;
        }
        *sample = crate::num::div_trunc(total, 100);
        proof {
            lemma_div_t_bound(total as int, 100, 10_000_000_000_000);
            assert(self@ =~= step_lines(lines0, input as int));
            assert forall|i: int| 0 <= i < n implies (#[trigger] self@[i]).wf()
                && self@[i].aligned() && self@[i].bounded(SAMPLE_BOUND as int) by {
                assert(self@[i] == lines0[i].fed(mix_value(lines0, input as int)));
            }
        }
    }
}

/// The weight numerator applied to the tap at index `x` when the midpoint
/// is `m`: the triangular envelope over the common denominator `5 * m`.
pub fn tap_weight_numer(x: usize, m: usize) -> (w: i64)
    requires
        x <= 9,
        m <= 3,
    ensures
        w as int == wnum(x as int, m as int),
{
    if x > m {
        3 * (2 * (m as i64) - (x as i64))
    } else {
        3 * (x as i64)
    }
}

} // verus!
