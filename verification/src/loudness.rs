//! Loudness in LUFS, K-weighted and gated, and sample peaks.
//!
//! The K-weighted power of every frame enters a ring that covers the short-term window.
//! Running sums over the ring and over the trailing momentary window make the readouts
//! cheap. Every 100 ms the mean over the momentary window becomes a gating block, and the
//! integrated loudness is gated anew.

use crate::level::{Level, Wide, NEG_INFINITY, ZERO};
use crate::math::Math;
use crate::window::push_bounded;
use std::collections::VecDeque;
use vstd::prelude::*;

verus! {

/// Gating blocks kept: about an hour of them.
pub const MAX_BLOCKS: usize = 36000;

/// Bit pattern of -70: the absolute gate, in LUFS.
pub const ABSOLUTE_GATE: u32 = 0xC28C_0000;

/// Bit pattern of 10: how far below the absolutely gated loudness the relative gate lies.
pub const RELATIVE_GATE: u32 = 0x4120_0000;

/// Bit pattern of 20: fallback rate of the sample-peak bars, in dB per second.
pub const PEAK_FALL_DB_PER_SEC: u32 = 0x41A0_0000;

/// The samples in `tenths` tenths of a second, as far as an index can count them.
pub open spec fn samples_in(rate: u32, tenths: int) -> int {
    if rate * tenths / 10 > usize::MAX {
        usize::MAX as int
    } else {
        rate * tenths / 10
    }
}

/// The samples in `tenths` tenths of a second.
pub fn samples(rate: u32, tenths: u32) -> (n: usize)
    ensures
        n == samples_in(rate, tenths as int),
{
    assert(0 <= rate * tenths <= 0xFFFF_FFFF * 0xFFFF_FFFF) by (nonlinear_arith)
        requires
            0 <= rate <= 0xFFFF_FFFF,
            0 <= tenths <= 0xFFFF_FFFF,
    ;
    let n: u64 = rate as u64 * tenths as u64 / 10;
    if n > usize::MAX as u64 {
        usize::MAX
    } else {
        n as usize
    }
}

/// `loudness` is the loudness of `power`: negative infinity unless the power is positive
/// (or not a number).
pub open spec fn is_loudness<M: Math>(m: &M, power: Level, loudness: Level) -> bool {
    if power.within(Level { bits: ZERO }) {
        loudness == Level { bits: NEG_INFINITY }
    } else {
        call_ensures(M::loudness, (m, power), loudness)
    }
}

/// The loudness of a mean power.
pub fn loudness_from_power<M: Math>(m: &M, power: Level) -> (loudness: Level)
    ensures
        is_loudness(m, power, loudness),
{
    if power.at_most(Level { bits: ZERO }) {
        Level { bits: NEG_INFINITY }
    } else {
        m.loudness(power)
    }
}

/// `total` comes of gathering `powers` one after another, from `sum` on.
pub open spec fn gathered<M: Math>(m: &M, sum: Wide, powers: Seq<Level>, total: Wide) -> bool
    decreases powers.len(),
{
    if powers.len() == 0 {
        total == sum
    } else {
        exists|before: Wide|
            gathered(m, sum, powers.drop_last(), before) && #[trigger] call_ensures(
                M::gather,
                (m, before, powers.last()),
                total,
            )
    }
}

/// The blocks louder than `gate`.
pub open spec fn passing(blocks: Seq<Level>, gate: Level) -> Seq<Level> {
    blocks.filter(|p: Level| p.exceeds(gate))
}

/// `mean` is the mean over the blocks in `passed`.
pub open spec fn is_mean<M: Math>(m: &M, passed: Seq<Level>, mean: Level) -> bool {
    exists|total: Wide|
        gathered(m, Wide { bits: 0 }, passed, total) && #[trigger] call_ensures(
            M::mean,
            (m, total, passed.len() as usize),
            mean,
        )
}

/// `relative` is the power 10 LU below the loudness of `mean`.
pub open spec fn is_relative_gate<M: Math>(m: &M, mean: Level, relative: Level) -> bool {
    exists|loudness: Level, lowered: Level|
        is_loudness(m, mean, loudness) && #[trigger] call_ensures(
            M::minus,
            (m, loudness, Level { bits: RELATIVE_GATE }),
            lowered,
        ) && #[trigger] call_ensures(M::power, (m, lowered), relative)
}

/// `loudness` is the loudness of the blocks that pass both gates, given the absolute gate
/// as a power; negative infinity when none does.
pub open spec fn is_gated<M: Math>(
    m: &M,
    blocks: Seq<Level>,
    absolute: Level,
    loudness: Level,
) -> bool {
    let first = passing(blocks, absolute);
    if first.len() == 0 {
        loudness == Level { bits: NEG_INFINITY }
    } else {
        exists|mean: Level, relative: Level|
            is_mean(m, first, mean) && #[trigger] is_relative_gate(m, mean, relative) && ({
                let second = passing(first, relative);
                if second.len() == 0 {
                    loudness == Level { bits: NEG_INFINITY }
                } else {
                    exists|gated: Level|
                        is_mean(m, second, gated) && #[trigger] is_loudness(m, gated, loudness)
                }
            })
    }
}

/// `loudness` is the integrated loudness of `blocks`: gated at -70 LUFS, then 10 LU below
/// the mean of what passed.
pub open spec fn is_integrated<M: Math>(m: &M, blocks: Seq<Level>, loudness: Level) -> bool {
    exists|absolute: Level|
        #[trigger] call_ensures(M::power, (m, Level { bits: ABSOLUTE_GATE }), absolute)
            && is_gated(m, blocks, absolute, loudness)
}

/// Sum and number of the blocks louder than `first` and, where it is given, than `second`.
fn gather_passing<M: Math>(
    m: &M,
    blocks: &VecDeque<Level>,
    first: Level,
    second: Option<Level>,
) -> (r: (Wide, usize))
    ensures
        ({
            let passed = match second {
                Some(gate) => passing(passing(blocks@, first), gate),
                None => passing(blocks@, first),
            };
            &&& gathered(m, Wide { bits: 0 }, passed, r.0)
            &&& r.1 == passed.len()
        }),
{
    let mut total = Wide { bits: 0 };
    let mut n: usize = 0;
    let mut i: usize = 0;
    let ghost outer = |p: Level| p.exceeds(first);
    let ghost inner = |p: Level| second is Some ==> p.exceeds(second->0);
    let ghost both = |p: Level| p.exceeds(first) && (second is Some ==> p.exceeds(second->0));
    while i < blocks.len()
        invariant
            i <= blocks@.len(),
            both == (|p: Level|
                p.exceeds(first) && (second is Some ==> p.exceeds(second->0))),
            gathered(m, Wide { bits: 0 }, blocks@.take(i as int).filter(both), total),
            n == blocks@.take(i as int).filter(both).len(),
            n <= i,
        decreases blocks@.len() - i,
    {
        let p = blocks[i];
        let ghost before = total;
        let ghost taken = blocks@.take(i as int);
        proof {
            let next = blocks@.take(i + 1);
            assert(next.drop_last() =~= taken);
            reveal(Seq::filter);
        }
        let pass = p.above(first) && match second {
            Some(gate) => p.above(gate),
            None => true,
        };
        if pass {
            total = m.gather(total, p);
            n += 1;
            proof {
                let f = blocks@.take(i + 1).filter(both);
                assert(f =~= taken.filter(both).push(p));
                assert(f.drop_last() =~= taken.filter(both));
                assert(gathered(m, Wide { bits: 0 }, f.drop_last(), before));
                assert(call_ensures(M::gather, (m, before, f.last()), total));
            }
        }
        i += 1;
    }
    proof {
        assert(blocks@.take(i as int) =~= blocks@);
        lemma_filter_twice(blocks@, outer, inner);
        match second {
            Some(gate) => {
                assert(both =~= (|p: Level| outer(p) && inner(p)));
                assert(inner =~= (|p: Level| p.exceeds(gate)));
            },
            None => {
                assert(both =~= outer);
            },
        }
    }
    (total, n)
}

/// Filtering twice is filtering by both conditions.
proof fn lemma_filter_twice<T>(s: Seq<T>, f: spec_fn(T) -> bool, g: spec_fn(T) -> bool)
    ensures
        s.filter(f).filter(g) == s.filter(|x: T| f(x) && g(x)),
    decreases s.len(),
{
    reveal(Seq::filter);
    if s.len() > 0 {
        lemma_filter_twice(s.drop_last(), f, g);
        let rest = s.drop_last().filter(f);
        if f(s.last()) {
            assert(rest.push(s.last()).drop_last() =~= rest);
        }
    }
}

/// What a [`LoudnessMeter`] holds.
#[verifier::ext_equal]
pub struct LoudnessState<F> {
    pub filters: F,
    pub powers: Seq<Level>,
    pub st_capacity: int,
    pub mom_len: int,
    pub sum_st: Wide,
    pub sum_mom: Wide,
    pub block_hop: int,
    pub since_hop: int,
    pub blocks: Seq<Level>,
    pub integrated: Level,
    pub peak: [Level; 2],
    pub peak_hold: [Level; 2],
    pub peak_decay: Level,
}

/// Loudness meter: momentary, short-term and integrated loudness, and sample peaks.
pub struct LoudnessMeter<M: Math> {
    /// State of the K-weighting filters.
    pub filters: M::Filters,
    /// K-weighted power per frame, up to 3 s of them.
    pub power_ring: VecDeque<Level>,
    /// Frames in 3 s.
    pub st_capacity: usize,
    /// Frames in 0.4 s.
    pub mom_len: usize,
    /// Running sum over the ring.
    pub sum_st: Wide,
    /// Running sum over the trailing momentary window.
    pub sum_mom: Wide,
    /// Frames in 0.1 s.
    pub block_hop: usize,
    /// Frames since the last gating block fell due.
    pub since_hop: usize,
    /// Mean power of each gating block, oldest first.
    pub block_powers: VecDeque<Level>,
    /// Gated loudness of the blocks.
    pub integrated: Level,
    /// Peak per channel, falling back.
    pub peak: [Level; 2],
    /// Highest peak per channel since the last reset.
    pub peak_hold: [Level; 2],
    /// Factor per frame by which a peak falls back.
    pub peak_decay: Level,
}

/// The powers that leave the two windows when a frame enters.
#[derive(Clone, Copy)]
pub struct Leavers {
    pub momentary: Option<Level>,
    pub short_term: Option<Level>,
}

impl<M: Math> View for LoudnessMeter<M> {
    type V = LoudnessState<M::Filters>;

    open spec fn view(&self) -> LoudnessState<M::Filters> {
        LoudnessState {
            filters: self.filters,
            powers: self.power_ring@,
            st_capacity: self.st_capacity as int,
            mom_len: self.mom_len as int,
            sum_st: self.sum_st,
            sum_mom: self.sum_mom,
            block_hop: self.block_hop as int,
            since_hop: self.since_hop as int,
            blocks: self.block_powers@,
            integrated: self.integrated,
            peak: self.peak,
            peak_hold: self.peak_hold,
            peak_decay: self.peak_decay,
        }
    }
}

impl<F> LoudnessState<F> {
    /// The momentary window is the shorter one, the buffers are within their bounds, and
    /// the block clock has not run past its hop.
    pub open spec fn wf(self) -> bool {
        &&& 0 <= self.mom_len <= self.st_capacity <= usize::MAX
        &&& self.powers.len() <= self.st_capacity
        &&& self.blocks.len() <= MAX_BLOCKS
        &&& 0 <= self.block_hop <= usize::MAX
        &&& self.since_hop == 0 || 0 < self.since_hop < self.block_hop
    }

    /// The power that leaves the momentary window when `power` enters it.
    pub open spec fn leaves_momentary(self, power: Level) -> Option<Level> {
        if self.powers.len() >= self.mom_len {
            Some(self.powers.push(power)[self.powers.len() - self.mom_len])
        } else {
            None
        }
    }

    /// The power that leaves the short-term window when `power` enters it.
    pub open spec fn leaves_short_term(self, power: Level) -> Option<Level> {
        if self.powers.len() == self.st_capacity {
            Some(self.powers.push(power)[0])
        } else {
            None
        }
    }

    /// The powers in the trailing momentary window.
    pub open spec fn momentary_window(self) -> Seq<Level> {
        crate::window::last_of(self.powers, self.mom_len)
    }
}

/// `to` comes of `from` when `power` enters a window and `left` leaves it.
pub open spec fn is_moved<M: Math>(
    m: &M,
    from: Wide,
    power: Level,
    left: Option<Level>,
    to: Wide,
) -> bool {
    exists|grown: Wide| #[trigger]
        call_ensures(M::gather, (m, from, power), grown) && match left {
            Some(old) => call_ensures(M::shed, (m, grown, old), to),
            None => to == grown,
        }
}

/// `peak` is the decayed `before`, or the magnitude of `sample` where that is larger.
pub open spec fn is_peak<M: Math>(
    m: &M,
    before: Level,
    decay: Level,
    sample: Level,
    peak: Level,
) -> bool {
    exists|fallen: Level| #[trigger]
        call_ensures(M::scale, (m, before, decay), fallen) && peak == fallen.max_with(
            sample.unsigned(),
        )
}

/// `t` is the state after `s` has taken the power of one frame into its windows and, when
/// a gating block falls due, the block into the integrated loudness.
pub open spec fn takes_power<M: Math>(
    m: &M,
    s: LoudnessState<M::Filters>,
    power: Level,
    t: LoudnessState<M::Filters>,
) -> bool {
    &&& t.powers == crate::window::last_of(s.powers.push(power), s.st_capacity)
    &&& is_moved(m, s.sum_st, power, s.leaves_short_term(power), t.sum_st)
    &&& is_moved(m, s.sum_mom, power, s.leaves_momentary(power), t.sum_mom)
    &&& t.since_hop == if s.since_hop + 1 >= s.block_hop {
        0
    } else {
        s.since_hop + 1
    }
    &&& if s.since_hop + 1 >= s.block_hop && t.powers.len() >= s.mom_len {
        exists|block: Level| #[trigger]
            call_ensures(M::mean, (m, t.sum_mom, s.mom_len as usize), block) && t.blocks
                == crate::window::last_of(s.blocks.push(block), MAX_BLOCKS as int) && is_integrated(
                m,
                t.blocks,
                t.integrated,
            )
    } else {
        t.blocks == s.blocks && t.integrated == s.integrated
    }
    &&& t.st_capacity == s.st_capacity
    &&& t.mom_len == s.mom_len
    &&& t.block_hop == s.block_hop
    &&& t.peak_decay == s.peak_decay
}

/// `t` is the state after `s` has taken in `frame`.
pub open spec fn takes_frame<M: Math>(
    m: &M,
    s: LoudnessState<M::Filters>,
    frame: [Level; 2],
    t: LoudnessState<M::Filters>,
) -> bool {
    &&& forall|c: int|
        0 <= c < 2 ==> {
            &&& is_peak(m, s.peak[c], s.peak_decay, frame[c], #[trigger] t.peak[c])
            &&& t.peak_hold[c] == s.peak_hold[c].max_with(frame[c].unsigned())
        }
    &&& exists|power: Level| #[trigger]
        call_ensures(M::weigh, (m, &s.filters, frame), (t.filters, power)) && takes_power(
            m,
            s,
            power,
            t,
        )
}

/// `t` is the state after `s` has taken in `frames`, one after another.
pub open spec fn takes_frames<M: Math>(
    m: &M,
    s: LoudnessState<M::Filters>,
    frames: Seq<[Level; 2]>,
    t: LoudnessState<M::Filters>,
) -> bool
    decreases frames.len(),
{
    if frames.len() == 0 {
        t == s
    } else {
        exists|u: LoudnessState<M::Filters>|
            takes_frames(m, s, frames.drop_last(), u) && #[trigger] takes_frame(
                m,
                u,
                frames.last(),
                t,
            )
    }
}

impl<M: Math> LoudnessMeter<M> {
    /// A meter at rest for a stream with the sample rate `rate`.
    pub fn new(m: &M, rate: u32) -> (meter: Self)
        ensures
            meter@.wf(),
            call_ensures(M::filters, (m, rate), meter.filters),
            call_ensures(
                M::peak_decay,
                (m, Level { bits: PEAK_FALL_DB_PER_SEC }, rate),
                meter.peak_decay,
            ),
            meter.st_capacity == samples_in(rate, 30),
            meter.mom_len == samples_in(rate, 4),
            meter.block_hop == samples_in(rate, 1),
            meter.since_hop == 0,
            meter.power_ring@ == Seq::<Level>::empty(),
            meter.block_powers@ == Seq::<Level>::empty(),
            meter.sum_st == (Wide { bits: 0 }),
            meter.sum_mom == (Wide { bits: 0 }),
            meter.integrated == (Level { bits: NEG_INFINITY }),
            forall|c: int|
                0 <= c < 2 ==> #[trigger] meter.peak[c] == (Level { bits: ZERO })
                    && meter.peak_hold[c] == (Level { bits: ZERO }),
    {
        let zero = Level { bits: ZERO };
        LoudnessMeter {
            filters: m.filters(rate),
            power_ring: VecDeque::new(),
            st_capacity: samples(rate, 30),
            mom_len: samples(rate, 4),
            sum_st: Wide { bits: 0 },
            sum_mom: Wide { bits: 0 },
            block_hop: samples(rate, 1),
            since_hop: 0,
            block_powers: VecDeque::new(),
            integrated: Level { bits: NEG_INFINITY },
            peak: [zero, zero],
            peak_hold: [zero, zero],
            peak_decay: m.peak_decay(Level { bits: PEAK_FALL_DB_PER_SEC }, rate),
        }
    }

    /// Takes a frame into the peaks of both channels: `fallen` is what they have decayed to.
    pub fn hold_peaks(&mut self, fallen: [Level; 2], frame: [Level; 2])
        ensures
            forall|c: int|
                0 <= c < 2 ==> {
                    &&& #[trigger] final(self).peak[c] == fallen[c].max_with(frame[c].unsigned())
                    &&& final(self).peak_hold[c] == old(self).peak_hold[c].max_with(
                        frame[c].unsigned(),
                    )
                },
            final(self)@ == (LoudnessState {
                peak: final(self).peak,
                peak_hold: final(self).peak_hold,
                ..old(self)@
            }),
    {
        let left = frame[0].abs();
        let right = frame[1].abs();
        self.peak = [fallen[0].larger(left), fallen[1].larger(right)];
        self.peak_hold = [self.peak_hold[0].larger(left), self.peak_hold[1].larger(right)];
    }

    /// Puts a power into the ring and says what left the two windows.
    pub fn push_power(&mut self, power: Level) -> (left: Leavers)
        requires
            old(self)@.wf(),
        ensures
            final(self)@.wf(),
            final(self)@ == (LoudnessState {
                powers: crate::window::last_of(
                    old(self)@.powers.push(power),
                    old(self)@.st_capacity,
                ),
                ..old(self)@
            }),
            left.momentary == old(self)@.leaves_momentary(power),
            left.short_term == old(self)@.leaves_short_term(power),
    {
        let len = self.power_ring.len();
        let momentary = if len >= self.mom_len {
            if self.mom_len == 0 {
                Some(power)
            } else {
                Some(self.power_ring[len - self.mom_len])
            }
        } else {
            None
        };
        let short_term = push_bounded(&mut self.power_ring, power, self.st_capacity);
        Leavers { momentary, short_term }
    }

    /// Advances the block clock by one frame; true when a gating block falls due and the
    /// ring covers it.
    pub fn advance_clock(&mut self) -> (due: bool)
        requires
            old(self)@.wf(),
        ensures
            final(self)@.wf(),
            final(self)@ == (LoudnessState {
                since_hop: if old(self)@.since_hop + 1 >= old(self)@.block_hop {
                    0
                } else {
                    old(self)@.since_hop + 1
                },
                ..old(self)@
            }),
            due == (old(self)@.since_hop + 1 >= old(self)@.block_hop && old(self)@.powers.len()
                >= old(self)@.mom_len),
    {
        self.since_hop = self.since_hop + 1;
        if self.since_hop >= self.block_hop {
            self.since_hop = 0;
            self.power_ring.len() >= self.mom_len
        } else {
            false
        }
    }

    /// Gates the blocks anew, at -70 LUFS and then 10 LU below the mean of what passed.
    pub fn recompute_integrated(&mut self, m: &M)
        requires
            old(self)@.wf(),
        ensures
            is_integrated(m, old(self)@.blocks, final(self).integrated),
            final(self)@ == (LoudnessState {
                integrated: final(self).integrated,
                ..old(self)@
            }),
    {
        let silence = Level { bits: NEG_INFINITY };
        let absolute = m.power(Level { bits: ABSOLUTE_GATE });
        let (sum, n) = gather_passing(m, &self.block_powers, absolute, None);
        if n == 0 {
            self.integrated = silence;
            return;
        }
        let mean = m.mean(sum, n);
        let loudness = loudness_from_power(m, mean);
        let lowered = m.minus(loudness, Level { bits: RELATIVE_GATE });
        let relative = m.power(lowered);
        let ghost first = passing(self.block_powers@, absolute);
        proof {
            assert(is_mean(m, first, mean));
            assert(is_relative_gate(m, mean, relative));
        }
        let (sum2, n2) = gather_passing(m, &self.block_powers, absolute, Some(relative));
        self.integrated = if n2 == 0 {
            silence
        } else {
            let gated = m.mean(sum2, n2);
            let loudness = loudness_from_power(m, gated);
            proof {
                assert(is_mean(m, passing(first, relative), gated));
                assert(is_loudness(m, gated, loudness));
            }
            loudness
        };
    }

    /// Takes in one frame.
    pub fn absorb(&mut self, m: &M, frame: [Level; 2])
        requires
            old(self)@.wf(),
        ensures
            final(self)@.wf(),
            takes_frame(m, old(self)@, frame, final(self)@),
    {
        let fallen = [
            m.scale(self.peak[0], self.peak_decay),
            m.scale(self.peak[1], self.peak_decay),
        ];
        self.hold_peaks(fallen, frame);
        let (filters, power) = m.weigh(&self.filters, frame);
        self.filters = filters;
        let left = self.push_power(power);
        let grown = m.gather(self.sum_st, power);
        self.sum_st = match left.short_term {
            Some(old_power) => m.shed(grown, old_power),
            None => grown,
        };
        let grown = m.gather(self.sum_mom, power);
        self.sum_mom = match left.momentary {
            Some(old_power) => m.shed(grown, old_power),
            None => grown,
        };
        let due = self.advance_clock();
        if due {
            let block = m.mean(self.sum_mom, self.mom_len);
            push_bounded(&mut self.block_powers, block, MAX_BLOCKS);
            self.recompute_integrated(m);
        }
        proof {
            let s = old(self)@;
            let t = self@;
            assert(is_peak(m, s.peak[0], s.peak_decay, frame[0], t.peak[0]));
            assert(is_peak(m, s.peak[1], s.peak_decay, frame[1], t.peak[1]));
            assert(call_ensures(M::weigh, (m, &s.filters, frame), (t.filters, power)));
            assert(is_moved(m, s.sum_st, power, s.leaves_short_term(power), t.sum_st));
            assert(is_moved(m, s.sum_mom, power, s.leaves_momentary(power), t.sum_mom));
            assert(takes_power(m, s, power, t));
        }
    }

    /// Takes in `frames`, oldest first.
    pub fn process(&mut self, m: &M, frames: &[[Level; 2]])
        requires
            old(self)@.wf(),
        ensures
            final(self)@.wf(),
            takes_frames(m, old(self)@, frames@, final(self)@),
    {
        let mut i: usize = 0;
        assert(frames@.take(0) =~= Seq::empty());
        while i < frames.len()
            invariant
                i <= frames.len(),
                self@.wf(),
                takes_frames(m, old(self)@, frames@.take(i as int), self@),
            decreases frames.len() - i,
        {
            let ghost before = self@;
            self.absorb(m, frames[i]);
            proof {
                let next = frames@.take(i + 1);
                assert(next.drop_last() =~= frames@.take(i as int));
                assert(takes_frame(m, before, next.last(), self@));
            }
            i += 1;
        }
        assert(frames@.take(i as int) =~= frames@);
    }

    /// Forgets the gating blocks and the held peaks.
    pub fn reset_integrated(&mut self)
        requires
            old(self)@.wf(),
        ensures
            final(self)@.wf(),
            forall|c: int| 0 <= c < 2 ==> #[trigger] final(self).peak_hold[c] == (Level { bits: ZERO }),
            final(self)@ == (LoudnessState {
                blocks: Seq::empty(),
                integrated: Level { bits: NEG_INFINITY },
                peak_hold: final(self).peak_hold,
                ..old(self)@
            }),
    {
        let zero = Level { bits: ZERO };
        self.block_powers.clear();
        self.integrated = Level { bits: NEG_INFINITY };
        self.peak_hold = [zero, zero];
    }

    /// Loudness over the last 400 ms; negative infinity before the first frame.
    pub fn momentary(&self, m: &M) -> (loudness: Level)
        ensures
            is_window_loudness(m, self.sum_mom, self@.momentary_window().len(), loudness),
    {
        let len = self.power_ring.len();
        let n = if self.mom_len < len {
            self.mom_len
        } else {
            len
        };
        if n == 0 {
            return Level { bits: NEG_INFINITY };
        }
        let mean = m.mean(self.sum_mom, n);
        loudness_from_power(m, mean)
    }

    /// Loudness over the last 3 s; negative infinity before the first frame.
    pub fn short_term(&self, m: &M) -> (loudness: Level)
        ensures
            is_window_loudness(m, self.sum_st, self@.powers.len(), loudness),
    {
        let n = self.power_ring.len();
        if n == 0 {
            return Level { bits: NEG_INFINITY };
        }
        let mean = m.mean(self.sum_st, n);
        loudness_from_power(m, mean)
    }
}

/// `loudness` is that of a window of `n` powers with the sum `sum`.
pub open spec fn is_window_loudness<M: Math>(m: &M, sum: Wide, n: nat, loudness: Level) -> bool {
    if n == 0 {
        loudness == Level { bits: NEG_INFINITY }
    } else {
        exists|mean: Level| #[trigger]
            call_ensures(M::mean, (m, sum, n as usize), mean) && is_loudness(m, mean, loudness)
    }
}

/// `m` gathers and sheds exactly, when `level` and `wide` give the values of its numbers.
pub open spec fn sums_exactly<M: Math>(
    m: &M,
    level: spec_fn(Level) -> int,
    wide: spec_fn(Wide) -> int,
) -> bool {
    &&& forall|sum: Wide, power: Level, r: Wide| #[trigger]
        call_ensures(M::gather, (m, sum, power), r) ==> wide(r) == wide(sum) + level(power)
    &&& forall|sum: Wide, power: Level, r: Wide| #[trigger]
        call_ensures(M::shed, (m, sum, power), r) ==> wide(r) == wide(sum) - level(power)
}

/// The values of `powers` added up.
pub open spec fn total(level: spec_fn(Level) -> int, powers: Seq<Level>) -> int
    decreases powers.len(),
{
    if powers.len() == 0 {
        0
    } else {
        total(level, powers.drop_last()) + level(powers.last())
    }
}

/// The first of the powers counts once.
proof fn lemma_total_first(level: spec_fn(Level) -> int, powers: Seq<Level>)
    requires
        powers.len() > 0,
    ensures
        total(level, powers) == level(powers[0]) + total(level, powers.skip(1)),
    decreases powers.len(),
{
    if powers.len() == 1 {
        assert(powers.drop_last() =~= Seq::empty());
        assert(powers.skip(1) =~= Seq::empty());
        assert(total(level, powers.drop_last()) == 0);
        assert(total(level, powers.skip(1)) == 0);
    } else {
        lemma_total_first(level, powers.drop_last());
        assert(powers.drop_last().skip(1) =~= powers.skip(1).drop_last());
        assert(powers.skip(1).last() == powers.last());
    }
}

/// The running sums of `s` are the sums over its two windows.
pub open spec fn sums_match<F>(
    s: LoudnessState<F>,
    level: spec_fn(Level) -> int,
    wide: spec_fn(Wide) -> int,
) -> bool {
    &&& wide(s.sum_st) == total(level, s.powers)
    &&& wide(s.sum_mom) == total(level, s.momentary_window())
}

/// One more frame keeps the meter well formed.
pub proof fn frame_keeps_wf<M: Math>(
    m: &M,
    s: LoudnessState<M::Filters>,
    frame: [Level; 2],
    t: LoudnessState<M::Filters>,
)
    requires
        s.wf(),
        takes_frame(m, s, frame, t),
    ensures
        t.wf(),
{
}

/// Moving a window by one power moves the sum over it by what enters and what leaves.
proof fn lemma_moved_total<M: Math>(
    m: &M,
    window: Seq<Level>,
    cap: int,
    power: Level,
    from: Wide,
    to: Wide,
    level: spec_fn(Level) -> int,
    wide: spec_fn(Wide) -> int,
)
    requires
        0 <= cap,
        window.len() <= cap,
        sums_exactly(m, level, wide),
        wide(from) == total(level, window),
        is_moved(
            m,
            from,
            power,
            if window.len() == cap {
                Some(window.push(power)[0])
            } else {
                None
            },
            to,
        ),
    ensures
        wide(to) == total(level, crate::window::last_of(window.push(power), cap)),
{
    let grown = window.push(power);
    assert(grown.drop_last() =~= window);
    assert(total(level, grown) == total(level, window) + level(power));
    if window.len() == cap {
        lemma_total_first(level, grown);
    }
}

/// With exact arithmetic, the running sums stay the sums over the short-term and the
/// momentary window, however many frames enter.
pub proof fn running_sums_are_window_sums<M: Math>(
    m: &M,
    s: LoudnessState<M::Filters>,
    frames: Seq<[Level; 2]>,
    t: LoudnessState<M::Filters>,
    level: spec_fn(Level) -> int,
    wide: spec_fn(Wide) -> int,
)
    requires
        s.wf(),
        takes_frames(m, s, frames, t),
        sums_exactly(m, level, wide),
        sums_match(s, level, wide),
    ensures
        t.wf(),
        sums_match(t, level, wide),
    decreases frames.len(),
{
    if frames.len() > 0 {
        let u = choose|u: LoudnessState<M::Filters>|
            takes_frames(m, s, frames.drop_last(), u) && #[trigger] takes_frame(
                m,
                u,
                frames.last(),
                t,
            );
        running_sums_are_window_sums(m, s, frames.drop_last(), u, level, wide);
        let power = choose|power: Level| #[trigger]
            call_ensures(M::weigh, (m, &u.filters, frames.last()), (t.filters, power))
                && takes_power(m, u, power, t);
        lemma_moved_total(m, u.powers, u.st_capacity, power, u.sum_st, t.sum_st, level, wide);
        let window = u.momentary_window();
        if u.powers.len() >= u.mom_len {
            assert(window.push(power)[0] == u.powers.push(power)[u.powers.len() - u.mom_len]);
        }
        lemma_moved_total(m, window, u.mom_len, power, u.sum_mom, t.sum_mom, level, wide);
        assert(t.momentary_window() =~= crate::window::last_of(window.push(power), u.mom_len));
    }
}

/// How a stream is cut into calls does not matter: taking in `a` and then `b` is taking in
/// both at once.
pub proof fn frames_in_pieces<M: Math>(
    m: &M,
    s: LoudnessState<M::Filters>,
    a: Seq<[Level; 2]>,
    b: Seq<[Level; 2]>,
    t: LoudnessState<M::Filters>,
)
    ensures
        takes_frames(m, s, a + b, t) <==> exists|u: LoudnessState<M::Filters>| #[trigger]
            takes_frames(m, s, a, u) && takes_frames(m, u, b, t),
    decreases b.len(),
{
    if b.len() == 0 {
        assert(a + b =~= a);
        if takes_frames(m, s, a + b, t) {
            assert(takes_frames(m, s, a, t) && takes_frames(m, t, b, t));
        }
    } else {
        assert((a + b).drop_last() =~= a + b.drop_last());
        assert((a + b).last() == b.last());
        if takes_frames(m, s, a + b, t) {
            let v = choose|v: LoudnessState<M::Filters>|
                takes_frames(m, s, (a + b).drop_last(), v) && #[trigger] takes_frame(
                    m,
                    v,
                    (a + b).last(),
                    t,
                );
            frames_in_pieces(m, s, a, b.drop_last(), v);
            let u = choose|u: LoudnessState<M::Filters>| #[trigger]
                takes_frames(m, s, a, u) && takes_frames(m, u, b.drop_last(), v);
            assert(takes_frame(m, v, b.last(), t));
            assert(takes_frames(m, s, a, u) && takes_frames(m, u, b, t));
        }
        if exists|u: LoudnessState<M::Filters>| #[trigger]
            takes_frames(m, s, a, u) && takes_frames(m, u, b, t) {
            let u = choose|u: LoudnessState<M::Filters>| #[trigger]
                takes_frames(m, s, a, u) && takes_frames(m, u, b, t);
            let v = choose|v: LoudnessState<M::Filters>|
                takes_frames(m, u, b.drop_last(), v) && #[trigger] takes_frame(m, v, b.last(), t);
            assert(takes_frames(m, s, a, u) && takes_frames(m, u, b.drop_last(), v));
            frames_in_pieces(m, s, a, b.drop_last(), v);
            assert(takes_frames(m, s, (a + b).drop_last(), v));
            assert(takes_frame(m, v, (a + b).last(), t));
        }
    }
}

/// `a` and `b` differ by at most `e`.
pub open spec fn is_near(a: int, b: int, e: int) -> bool {
    -e <= a - b <= e
}

/// `m` gathers and sheds with an error of at most `eps` while nothing exceeds `range`, when
/// `level` and `wide` give the values of its numbers.
pub open spec fn sums_closely<M: Math>(
    m: &M,
    level: spec_fn(Level) -> int,
    wide: spec_fn(Wide) -> int,
    range: int,
    eps: int,
) -> bool {
    &&& forall|sum: Wide, power: Level, r: Wide| #[trigger]
        call_ensures(M::gather, (m, sum, power), r) && is_near(wide(sum), 0, range) && is_near(
            level(power),
            0,
            range,
        ) ==> is_near(wide(r), wide(sum) + level(power), eps)
    &&& forall|sum: Wide, power: Level, r: Wide| #[trigger]
        call_ensures(M::shed, (m, sum, power), r) && is_near(wide(sum), 0, range) && is_near(
            level(power),
            0,
            range,
        ) ==> is_near(wide(r), wide(sum) - level(power), eps)
}

/// No power in `powers` exceeds `p`.
pub open spec fn are_small(level: spec_fn(Level) -> int, powers: Seq<Level>, p: int) -> bool {
    forall|i: int| 0 <= i < powers.len() ==> is_near(level(#[trigger] powers[i]), 0, p)
}

/// Small powers have a small sum.
proof fn lemma_small_total(level: spec_fn(Level) -> int, powers: Seq<Level>, p: int)
    requires
        are_small(level, powers, p),
    ensures
        is_near(total(level, powers), 0, powers.len() * p),
    decreases powers.len(),
{
    if powers.len() > 0 {
        assert forall|i: int| 0 <= i < powers.len() - 1 implies is_near(
            level(#[trigger] powers.drop_last()[i]),
            0,
            p,
        ) by {
            assert(powers.drop_last()[i] == powers[i]);
        }
        lemma_small_total(level, powers.drop_last(), p);
        assert(powers.len() * p == (powers.len() - 1) * p + p) by (nonlinear_arith);
    }
}

/// Moving a window by one power moves the sum over it by what enters and what leaves, up to
/// the errors of the two steps.
proof fn lemma_moved_closely<M: Math>(
    m: &M,
    window: Seq<Level>,
    cap: int,
    power: Level,
    from: Wide,
    to: Wide,
    level: spec_fn(Level) -> int,
    wide: spec_fn(Wide) -> int,
    range: int,
    eps: int,
    p: int,
    e: int,
)
    requires
        0 <= cap,
        window.len() <= cap,
        0 <= eps,
        0 <= p,
        0 <= e,
        sums_closely(m, level, wide, range, eps),
        are_small(level, window, p),
        is_near(level(power), 0, p),
        (cap + 1) * p + e + eps <= range,
        is_near(wide(from), total(level, window), e),
        is_moved(
            m,
            from,
            power,
            if window.len() == cap {
                Some(window.push(power)[0])
            } else {
                None
            },
            to,
        ),
    ensures
        is_near(
            wide(to),
            total(level, crate::window::last_of(window.push(power), cap)),
            e + 2 * eps,
        ),
{
    let grown = window.push(power);
    assert(grown.drop_last() =~= window);
    assert(total(level, grown) == total(level, window) + level(power));
    lemma_small_total(level, window, p);
    assert(window.len() * p + p <= (cap + 1) * p) by (nonlinear_arith)
        requires
            window.len() <= cap,
            0 <= p,
    ;
    assert(0 <= window.len() * p) by (nonlinear_arith)
        requires
            0 <= p,
    ;
    if window.len() == cap {
        lemma_total_first(level, grown);
        assert(is_near(level(grown[0]), 0, p)) by {
            if cap > 0 {
                assert(grown[0] == window[0]);
            }
        }
    }
}

/// In arithmetic that errs by at most `eps`, the running sums stay within twice that error per
/// frame of the sums over the short-term and the momentary window, as long as no power exceeds
/// `p` and the sums of such powers stay within `range`.
pub proof fn running_sums_stay_close<M: Math>(
    m: &M,
    s: LoudnessState<M::Filters>,
    frames: Seq<[Level; 2]>,
    t: LoudnessState<M::Filters>,
    level: spec_fn(Level) -> int,
    wide: spec_fn(Wide) -> int,
    range: int,
    eps: int,
    p: int,
    e: int,
)
    requires
        s.wf(),
        s.st_capacity > 0,
        takes_frames(m, s, frames, t),
        0 <= eps,
        0 <= p,
        0 <= e,
        sums_closely(m, level, wide, range, eps),
        forall|k: int, u: LoudnessState<M::Filters>|
            0 <= k <= frames.len() && #[trigger] takes_frames(m, s, frames.take(k), u)
                ==> are_small(level, u.powers, p),
        (s.st_capacity + 1) * p + e + 2 * eps * frames.len() + eps <= range,
        is_near(wide(s.sum_st), total(level, s.powers), e),
        is_near(wide(s.sum_mom), total(level, s.momentary_window()), e),
    ensures
        t.wf(),
        t.st_capacity == s.st_capacity,
        t.mom_len == s.mom_len,
        is_near(wide(t.sum_st), total(level, t.powers), e + 2 * eps * frames.len()),
        is_near(wide(t.sum_mom), total(level, t.momentary_window()), e + 2 * eps * frames.len()),
    decreases frames.len(),
{
    let n = frames.len() as int;
    if n > 0 {
        let before = frames.drop_last();
        let u = choose|u: LoudnessState<M::Filters>|
            takes_frames(m, s, before, u) && #[trigger] takes_frame(m, u, frames.last(), t);
        assert(2 * eps * n == 2 * eps * (n - 1) + 2 * eps) by (nonlinear_arith);
        assert(0 <= 2 * eps * (n - 1)) by (nonlinear_arith)
            requires
                0 <= eps,
                1 <= n,
        ;
        assert forall|k: int, v: LoudnessState<M::Filters>|
            0 <= k <= before.len() && #[trigger] takes_frames(m, s, before.take(k), v) implies
            are_small(level, v.powers, p) by {
            assert(before.take(k) =~= frames.take(k));
        }
        running_sums_stay_close(m, s, before, u, level, wide, range, eps, p, e);
        let d = e + 2 * eps * (n - 1);
        let power = choose|power: Level| #[trigger]
            call_ensures(M::weigh, (m, &u.filters, frames.last()), (t.filters, power))
                && takes_power(m, u, power, t);
        assert(frames.take(n) =~= frames);
        assert(frames.take(n - 1) =~= before);
        assert(are_small(level, t.powers, p) && are_small(level, u.powers, p));
        assert(t.powers[t.powers.len() - 1] == power);
        lemma_moved_closely(
            m,
            u.powers,
            u.st_capacity,
            power,
            u.sum_st,
            t.sum_st,
            level,
            wide,
            range,
            eps,
            p,
            d,
        );
        let window = u.momentary_window();
        if u.powers.len() >= u.mom_len {
            assert(window.push(power)[0] == u.powers.push(power)[u.powers.len() - u.mom_len]);
        }
        assert((u.mom_len + 1) * p <= (u.st_capacity + 1) * p) by (nonlinear_arith)
            requires
                u.mom_len <= u.st_capacity,
                0 <= p,
        ;
        assert forall|i: int| 0 <= i < window.len() implies is_near(
            level(#[trigger] window[i]),
            0,
            p,
        ) by {
            let k = i + u.powers.len() - window.len();
            assert(window[i] == u.powers[k]);
        }
        lemma_moved_closely(
            m,
            window,
            u.mom_len,
            power,
            u.sum_mom,
            t.sum_mom,
            level,
            wide,
            range,
            eps,
            p,
            d,
        );
        assert(t.momentary_window() =~= crate::window::last_of(window.push(power), u.mom_len));
    }
}

/// The held peak of a channel never falls and is the largest magnitude seen: no sample
/// lies above it, and it is the old one or the magnitude of a sample.
pub proof fn held_peak_is_the_largest<M: Math>(
    m: &M,
    s: LoudnessState<M::Filters>,
    frames: Seq<[Level; 2]>,
    t: LoudnessState<M::Filters>,
    c: int,
)
    requires
        takes_frames(m, s, frames, t),
        0 <= c < 2,
        !s.peak_hold[c].nan(),
    ensures
        !t.peak_hold[c].nan(),
        s.peak_hold[c].within(t.peak_hold[c]),
        forall|i: int|
            0 <= i < frames.len() ==> !(#[trigger] frames[i])[c].unsigned().exceeds(t.peak_hold[c]),
        t.peak_hold[c] == s.peak_hold[c] || exists|i: int|
            0 <= i < frames.len() && t.peak_hold[c] == (#[trigger] frames[i])[c].unsigned(),
    decreases frames.len(),
{
    if frames.len() > 0 {
        let u = choose|u: LoudnessState<M::Filters>|
            takes_frames(m, s, frames.drop_last(), u) && #[trigger] takes_frame(
                m,
                u,
                frames.last(),
                t,
            );
        held_peak_is_the_largest(m, s, frames.drop_last(), u, c);
        assert(is_peak(m, u.peak[c], u.peak_decay, frames.last()[c], t.peak[c]));
        assert forall|i: int| 0 <= i < frames.len() implies !(
        #[trigger] frames[i])[c].unsigned().exceeds(t.peak_hold[c]) by {
            if i < frames.len() - 1 {
                assert(frames.drop_last()[i] == frames[i]);
            }
        }
        if t.peak_hold[c] == u.peak_hold[c] {
            if u.peak_hold[c] != s.peak_hold[c] {
                let i = choose|i: int|
                    0 <= i < frames.len() - 1 && u.peak_hold[c] == (
                    #[trigger] frames.drop_last()[i])[c].unsigned();
                assert(frames[i] == frames.drop_last()[i]);
            }
        } else {
            assert(t.peak_hold[c] == frames[frames.len() - 1][c].unsigned());
        }
    }
}

/// How many gating blocks are added by `n` frames, when `held` powers are there, the clock
/// stands at `since` and a block falls due every `hop` frames: one each time the clock
/// fires, but for the times before the momentary window of `window` powers is full.
pub open spec fn blocks_added(since: int, held: int, window: int, hop: int, n: int) -> int {
    let missing = if held + 1 >= window {
        0
    } else {
        window - 1 - held
    };
    (since + n) / hop - (since + if n < missing {
        n
    } else {
        missing
    }) / hop
}

/// Blocks follow the sample clock: one is added every 100 ms, from the moment on when the
/// momentary window is full, and of all blocks the newest are kept.
pub proof fn blocks_follow_the_sample_clock<M: Math>(
    m: &M,
    s: LoudnessState<M::Filters>,
    frames: Seq<[Level; 2]>,
    t: LoudnessState<M::Filters>,
)
    requires
        s.wf(),
        s.block_hop > 0,
        takes_frames(m, s, frames, t),
    ensures
        t.wf(),
        t.block_hop == s.block_hop,
        t.mom_len == s.mom_len,
        t.st_capacity == s.st_capacity,
        t.powers.len() == if s.powers.len() + frames.len() < s.st_capacity {
            (s.powers.len() + frames.len()) as int
        } else {
            s.st_capacity
        },
        t.since_hop == (s.since_hop + frames.len()) % s.block_hop,
        exists|added: Seq<Level>|
            added.len() == blocks_added(
                s.since_hop,
                s.powers.len() as int,
                s.mom_len,
                s.block_hop,
                frames.len() as int,
            ) && t.blocks == #[trigger] crate::window::last_of(s.blocks + added, MAX_BLOCKS as int),
    decreases frames.len(),
{
    let cap = MAX_BLOCKS as int;
    let held = s.powers.len() as int;
    if frames.len() == 0 {
        let none = Seq::<Level>::empty();
        assert(s.blocks + none =~= s.blocks);
        vstd::arithmetic::div_mod::lemma_fundamental_div_mod_converse(
            s.since_hop,
            s.block_hop,
            0,
            s.since_hop,
        );
        assert(t.blocks == crate::window::last_of(s.blocks + none, cap));
    } else {
        let n = frames.len() - 1;
        let u = choose|u: LoudnessState<M::Filters>|
            takes_frames(m, s, frames.drop_last(), u) && #[trigger] takes_frame(
                m,
                u,
                frames.last(),
                t,
            );
        blocks_follow_the_sample_clock(m, s, frames.drop_last(), u);
        crate::window::lemma_clock_step(s.since_hop, n, s.block_hop);
        let power = choose|power: Level| #[trigger]
            call_ensures(M::weigh, (m, &u.filters, frames.last()), (t.filters, power))
                && takes_power(m, u, power, t);
        let added = choose|added: Seq<Level>|
            added.len() == blocks_added(s.since_hop, held, s.mom_len, s.block_hop, n) && u.blocks
                == #[trigger] crate::window::last_of(s.blocks + added, cap);
        if u.since_hop + 1 >= u.block_hop && t.powers.len() >= u.mom_len {
            let block = choose|block: Level| #[trigger]
                call_ensures(M::mean, (m, t.sum_mom, u.mom_len as usize), block) && t.blocks
                    == crate::window::last_of(u.blocks.push(block), cap) && is_integrated(
                    m,
                    t.blocks,
                    t.integrated,
                );
            let more = added.push(block);
            crate::window::lemma_last_of_push(s.blocks + added, block, cap);
            assert((s.blocks + added).push(block) =~= s.blocks + more);
            assert(t.blocks == crate::window::last_of(s.blocks + more, cap));
        } else {
            assert(t.blocks == crate::window::last_of(s.blocks + added, cap));
        }
    }
}

/// A meter at rest makes its first block once the momentary window is full, and not before.
pub proof fn no_block_before_the_window_is_full<M: Math>(
    m: &M,
    s: LoudnessState<M::Filters>,
    frames: Seq<[Level; 2]>,
    t: LoudnessState<M::Filters>,
)
    requires
        s.wf(),
        s.block_hop > 0,
        s.since_hop == 0,
        s.powers.len() == 0,
        s.blocks.len() == 0,
        takes_frames(m, s, frames, t),
    ensures
        frames.len() < s.mom_len ==> t.blocks.len() == 0,
        s.mom_len > 0 && s.mom_len % s.block_hop == 0 && frames.len() == s.mom_len
            ==> t.blocks.len() == 1,
{
    blocks_follow_the_sample_clock(m, s, frames, t);
    if s.mom_len > 0 && s.mom_len % s.block_hop == 0 && frames.len() == s.mom_len {
        let hop = s.block_hop;
        let q = s.mom_len / hop;
        vstd::arithmetic::div_mod::lemma_fundamental_div_mod(s.mom_len, hop);
        assert(hop * q == (q - 1) * hop + hop) by (nonlinear_arith);
        vstd::arithmetic::div_mod::lemma_fundamental_div_mod_converse(
            s.mom_len - 1,
            hop,
            q - 1,
            hop - 1,
        );
    }
}

/// A block that does not pass the absolute gate does not count, wherever it stands: the
/// integrated loudness is that of the other blocks.
pub proof fn quiet_blocks_do_not_count<M: Math>(
    m: &M,
    before: Seq<Level>,
    quiet: Level,
    after: Seq<Level>,
    absolute: Level,
    loudness: Level,
)
    requires
        !quiet.exceeds(absolute),
    ensures
        is_gated(m, before.push(quiet) + after, absolute, loudness) <==> is_gated(
            m,
            before + after,
            absolute,
            loudness,
        ),
{
    let passes = |p: Level| p.exceeds(absolute);
    Seq::filter_distributes_over_add(before.push(quiet), after, passes);
    Seq::filter_distributes_over_add(before, after, passes);
    reveal(Seq::filter);
    assert(before.push(quiet).drop_last() =~= before);
    assert(before.push(quiet).filter(passes) =~= before.filter(passes));
}

/// A sum of powers has one outcome.
proof fn lemma_gathered_settled<M: Math>(
    m: &M,
    sum: Wide,
    powers: Seq<Level>,
    a: Wide,
    b: Wide,
)
    requires
        crate::math::loudness_is_settled(m),
        gathered(m, sum, powers, a),
        gathered(m, sum, powers, b),
    ensures
        a == b,
    decreases powers.len(),
{
    if powers.len() > 0 {
        let x = choose|x: Wide|
            gathered(m, sum, powers.drop_last(), x) && #[trigger] call_ensures(
                M::gather,
                (m, x, powers.last()),
                a,
            );
        let y = choose|y: Wide|
            gathered(m, sum, powers.drop_last(), y) && #[trigger] call_ensures(
                M::gather,
                (m, y, powers.last()),
                b,
            );
        lemma_gathered_settled(m, sum, powers.drop_last(), x, y);
    }
}

/// A mean has one outcome.
proof fn lemma_mean_settled<M: Math>(m: &M, passed: Seq<Level>, a: Level, b: Level)
    requires
        crate::math::loudness_is_settled(m),
        is_mean(m, passed, a),
        is_mean(m, passed, b),
    ensures
        a == b,
{
    let zero = Wide { bits: 0 };
    let x = choose|x: Wide|
        gathered(m, zero, passed, x) && #[trigger] call_ensures(
            M::mean,
            (m, x, passed.len() as usize),
            a,
        );
    let y = choose|y: Wide|
        gathered(m, zero, passed, y) && #[trigger] call_ensures(
            M::mean,
            (m, y, passed.len() as usize),
            b,
        );
    lemma_gathered_settled(m, zero, passed, x, y);
}

/// The integrated loudness of some blocks has one outcome.
proof fn lemma_integrated_settled<M: Math>(m: &M, blocks: Seq<Level>, a: Level, b: Level)
    requires
        crate::math::loudness_is_settled(m),
        is_integrated(m, blocks, a),
        is_integrated(m, blocks, b),
    ensures
        a == b,
{
    let absolute = choose|absolute: Level| #[trigger]
        call_ensures(M::power, (m, Level { bits: ABSOLUTE_GATE }), absolute) && is_gated(
            m,
            blocks,
            absolute,
            a,
        );
    assert(is_gated(m, blocks, absolute, b));
    let first = passing(blocks, absolute);
    if first.len() > 0 {
        let (x, r) = choose|x: Level, r: Level|
            is_mean(m, first, x) && #[trigger] is_relative_gate(m, x, r) && ({
                let second = passing(first, r);
                if second.len() == 0 {
                    a == Level { bits: NEG_INFINITY }
                } else {
                    exists|gated: Level|
                        is_mean(m, second, gated) && #[trigger] is_loudness(m, gated, a)
                }
            });
        let (y, q) = choose|y: Level, q: Level|
            is_mean(m, first, y) && #[trigger] is_relative_gate(m, y, q) && ({
                let second = passing(first, q);
                if second.len() == 0 {
                    b == Level { bits: NEG_INFINITY }
                } else {
                    exists|gated: Level|
                        is_mean(m, second, gated) && #[trigger] is_loudness(m, gated, b)
                }
            });
        lemma_mean_settled(m, first, x, y);
        assert(r == q);
        let second = passing(first, r);
        if second.len() > 0 {
            let g = choose|g: Level| is_mean(m, second, g) && #[trigger] is_loudness(m, g, a);
            let h = choose|h: Level| is_mean(m, second, h) && #[trigger] is_loudness(m, h, b);
            lemma_mean_settled(m, second, g, h);
        }
    }
}

/// One frame has one outcome.
proof fn lemma_frame_settled<M: Math>(
    m: &M,
    s: LoudnessState<M::Filters>,
    frame: [Level; 2],
    a: LoudnessState<M::Filters>,
    b: LoudnessState<M::Filters>,
)
    requires
        crate::math::loudness_is_settled(m),
        takes_frame(m, s, frame, a),
        takes_frame(m, s, frame, b),
    ensures
        a == b,
{
    let x = choose|x: Level| #[trigger]
        call_ensures(M::weigh, (m, &s.filters, frame), (a.filters, x)) && takes_power(m, s, x, a);
    let y = choose|y: Level| #[trigger]
        call_ensures(M::weigh, (m, &s.filters, frame), (b.filters, y)) && takes_power(m, s, y, b);
    assert((a.filters, x) == (b.filters, y));
    assert(a.sum_st == b.sum_st && a.sum_mom == b.sum_mom);
    if s.since_hop + 1 >= s.block_hop && a.powers.len() >= s.mom_len {
        assert(a.blocks == b.blocks);
        lemma_integrated_settled(m, a.blocks, a.integrated, b.integrated);
    }
    assert forall|c: int| 0 <= c < 2 implies a.peak[c] == b.peak[c] && a.peak_hold[c]
        == b.peak_hold[c] by {
        assert(is_peak(m, s.peak[c], s.peak_decay, frame[c], a.peak[c]));
        assert(is_peak(m, s.peak[c], s.peak_decay, frame[c], b.peak[c]));
    }
    assert(a.peak =~= b.peak);
    assert(a.peak_hold =~= b.peak_hold);
    assert(a =~= b);
}

/// Where every formula has one outcome, so has the meter: frames taken in from one state lead
/// to one state.
pub proof fn frames_have_one_outcome<M: Math>(
    m: &M,
    s: LoudnessState<M::Filters>,
    frames: Seq<[Level; 2]>,
    a: LoudnessState<M::Filters>,
    b: LoudnessState<M::Filters>,
)
    requires
        crate::math::loudness_is_settled(m),
        takes_frames(m, s, frames, a),
        takes_frames(m, s, frames, b),
    ensures
        a == b,
    decreases frames.len(),
{
    if frames.len() > 0 {
        let x = choose|x: LoudnessState<M::Filters>|
            takes_frames(m, s, frames.drop_last(), x) && #[trigger] takes_frame(
                m,
                x,
                frames.last(),
                a,
            );
        let y = choose|y: LoudnessState<M::Filters>|
            takes_frames(m, s, frames.drop_last(), y) && #[trigger] takes_frame(
                m,
                y,
                frames.last(),
                b,
            );
        frames_have_one_outcome(m, s, frames.drop_last(), x, y);
        lemma_frame_settled(m, x, frames.last(), a, b);
    }
}

/// A readout has one outcome.
pub proof fn readout_has_one_outcome<M: Math>(m: &M, sum: Wide, n: nat, a: Level, b: Level)
    requires
        crate::math::loudness_is_settled(m),
        is_window_loudness(m, sum, n, a),
        is_window_loudness(m, sum, n, b),
    ensures
        a == b,
{
}

/// `powers` are the K-weighted powers of `frames`, one after another, from the filters `from`
/// on, and `to` are the filters then.
pub open spec fn are_weighed<M: Math>(
    m: &M,
    from: M::Filters,
    frames: Seq<[Level; 2]>,
    powers: Seq<Level>,
    to: M::Filters,
) -> bool
    decreases frames.len(),
{
    &&& powers.len() == frames.len()
    &&& if frames.len() == 0 {
        to == from
    } else {
        exists|before: M::Filters|
            are_weighed(m, from, frames.drop_last(), powers.drop_last(), before)
                && #[trigger] call_ensures(
                M::weigh,
                (m, &before, frames.last()),
                (to, powers.last()),
            )
    }
}

/// The ring holds the newest K-weighted powers, oldest first, up to its capacity.
pub proof fn ring_holds_the_newest_powers<M: Math>(
    m: &M,
    s: LoudnessState<M::Filters>,
    frames: Seq<[Level; 2]>,
    t: LoudnessState<M::Filters>,
)
    requires
        s.wf(),
        takes_frames(m, s, frames, t),
    ensures
        t.wf(),
        t.st_capacity == s.st_capacity,
        exists|powers: Seq<Level>| #[trigger]
            are_weighed(m, s.filters, frames, powers, t.filters) && t.powers
                == crate::window::last_of(s.powers + powers, s.st_capacity),
    decreases frames.len(),
{
    if frames.len() == 0 {
        let none = Seq::<Level>::empty();
        assert(s.powers + none =~= s.powers);
        assert(are_weighed(m, s.filters, frames, none, t.filters));
    } else {
        let u = choose|u: LoudnessState<M::Filters>|
            takes_frames(m, s, frames.drop_last(), u) && #[trigger] takes_frame(
                m,
                u,
                frames.last(),
                t,
            );
        ring_holds_the_newest_powers(m, s, frames.drop_last(), u);
        let earlier = choose|earlier: Seq<Level>| #[trigger]
            are_weighed(m, s.filters, frames.drop_last(), earlier, u.filters) && u.powers
                == crate::window::last_of(s.powers + earlier, s.st_capacity);
        let power = choose|power: Level| #[trigger]
            call_ensures(M::weigh, (m, &u.filters, frames.last()), (t.filters, power))
                && takes_power(m, u, power, t);
        let powers = earlier.push(power);
        assert(powers.drop_last() =~= earlier);
        assert(are_weighed(m, s.filters, frames, powers, t.filters));
        crate::window::lemma_last_of_push(s.powers + earlier, power, s.st_capacity);
        assert((s.powers + earlier).push(power) =~= s.powers + powers);
    }
}

/// The two running sums agree while the momentary window covers the whole ring.
proof fn lemma_sums_agree<M: Math>(
    m: &M,
    s: LoudnessState<M::Filters>,
    frames: Seq<[Level; 2]>,
    t: LoudnessState<M::Filters>,
)
    requires
        crate::math::loudness_is_settled(m),
        s.wf(),
        s.sum_st == s.sum_mom,
        s.powers.len() + frames.len() <= s.mom_len,
        takes_frames(m, s, frames, t),
    ensures
        t.sum_st == t.sum_mom,
        t.powers.len() == s.powers.len() + frames.len(),
        t.mom_len == s.mom_len,
        t.st_capacity == s.st_capacity,
    decreases frames.len(),
{
    if frames.len() > 0 {
        let u = choose|u: LoudnessState<M::Filters>|
            takes_frames(m, s, frames.drop_last(), u) && #[trigger] takes_frame(
                m,
                u,
                frames.last(),
                t,
            );
        lemma_sums_agree(m, s, frames.drop_last(), u);
    }
}

/// As long as no more frames have arrived than the momentary window holds, the short-term and
/// the momentary loudness are the same.
pub proof fn short_term_starts_as_momentary<M: Math>(
    m: &M,
    s: LoudnessState<M::Filters>,
    frames: Seq<[Level; 2]>,
    t: LoudnessState<M::Filters>,
    momentary: Level,
    short_term: Level,
)
    requires
        crate::math::loudness_is_settled(m),
        s.wf(),
        s.powers.len() == 0,
        s.sum_st == s.sum_mom,
        frames.len() <= s.mom_len,
        takes_frames(m, s, frames, t),
        is_window_loudness(m, t.sum_mom, t.momentary_window().len(), momentary),
        is_window_loudness(m, t.sum_st, t.powers.len(), short_term),
    ensures
        short_term == momentary,
{
    lemma_sums_agree(m, s, frames, t);
}

} // verus!
