//! Stereo correlation over a rolling window of about 300 ms, from running sums.

use crate::level::{Level, Wide, ZERO};
use crate::loudness::samples;
use crate::math::Math;
use crate::window::push_bounded;
use std::collections::VecDeque;
use vstd::prelude::*;

verus! {

/// Bit pattern of 1e-20: energy up to which there is nothing to correlate.
pub const SILENCE: u64 = 0x3BC7_9CA1_0C92_4223;

/// Bit pattern of -1: opposite channels.
pub const OPPOSITE: u64 = 0xBFF0_0000_0000_0000;

/// Bit pattern of 1: identical channels.
pub const IDENTICAL: u64 = 0x3FF0_0000_0000_0000;

/// What a [`Correlation`] holds.
#[verifier::ext_equal]
pub struct CorrelationState {
    pub frames: Seq<[Level; 2]>,
    pub cap: int,
    pub sll: Wide,
    pub srr: Wide,
    pub slr: Wide,
}

/// Rolling stereo correlation.
pub struct Correlation {
    /// The last frames, up to 0.3 s of them.
    pub ring: VecDeque<[Level; 2]>,
    /// Frames in 0.3 s.
    pub cap: usize,
    /// Running sum of the squared left channel.
    pub sll: Wide,
    /// Running sum of the squared right channel.
    pub srr: Wide,
    /// Running sum of the products of the channels.
    pub slr: Wide,
}

impl View for Correlation {
    type V = CorrelationState;

    open spec fn view(&self) -> CorrelationState {
        CorrelationState {
            frames: self.ring@,
            cap: self.cap as int,
            sll: self.sll,
            srr: self.srr,
            slr: self.slr,
        }
    }
}

impl CorrelationState {
    /// The ring is within its bound.
    pub open spec fn wf(self) -> bool {
        self.frames.len() <= self.cap <= usize::MAX
    }

    /// The frame that leaves the window when `frame` enters it.
    pub open spec fn leaves(self, frame: [Level; 2]) -> Option<[Level; 2]> {
        if self.frames.len() == self.cap {
            Some(self.frames.push(frame)[0])
        } else {
            None
        }
    }
}

/// `to` is the running sum of products of the channels `a` and `b` after `from`, when
/// `frame` enters the window and `left` leaves it.
pub open spec fn is_product_moved<M: Math>(
    m: &M,
    from: Wide,
    frame: [Level; 2],
    left: Option<[Level; 2]>,
    a: int,
    b: int,
    to: Wide,
) -> bool {
    exists|grown: Wide| #[trigger]
        call_ensures(M::gather_product, (m, from, frame[a], frame[b]), grown) && match left {
            Some(old) => call_ensures(M::shed_product, (m, grown, old[a], old[b]), to),
            None => to == grown,
        }
}

/// `t` is the state after `s` has taken in `frame`.
pub open spec fn takes_pair<M: Math>(
    m: &M,
    s: CorrelationState,
    frame: [Level; 2],
    t: CorrelationState,
) -> bool {
    &&& t.frames == crate::window::last_of(s.frames.push(frame), s.cap)
    &&& t.cap == s.cap
    &&& is_product_moved(m, s.sll, frame, s.leaves(frame), 0, 0, t.sll)
    &&& is_product_moved(m, s.srr, frame, s.leaves(frame), 1, 1, t.srr)
    &&& is_product_moved(m, s.slr, frame, s.leaves(frame), 0, 1, t.slr)
}

/// `t` is the state after `s` has taken in `frames`, one after another.
pub open spec fn takes_pairs<M: Math>(
    m: &M,
    s: CorrelationState,
    frames: Seq<[Level; 2]>,
    t: CorrelationState,
) -> bool
    decreases frames.len(),
{
    if frames.len() == 0 {
        t == s
    } else {
        exists|u: CorrelationState|
            takes_pairs(m, s, frames.drop_last(), u) && #[trigger] takes_pair(
                m,
                u,
                frames.last(),
                t,
            )
    }
}

/// `value` is the correlation with the sums `sll`, `srr` and `slr`: zero for silence,
/// between -1 and 1 otherwise.
pub open spec fn is_correlation<M: Math>(
    m: &M,
    sll: Wide,
    srr: Wide,
    slr: Wide,
    value: Level,
) -> bool {
    exists|energy: Wide| #[trigger]
        call_ensures(M::geometric_mean, (m, sll, srr), energy) && if energy.within(
            Wide { bits: SILENCE },
        ) {
            value == Level { bits: ZERO }
        } else {
            exists|ratio: Wide| #[trigger]
                call_ensures(M::ratio, (m, slr, energy), ratio) && call_ensures(
                    M::narrow,
                    (m, ratio.clamp_to(Wide { bits: OPPOSITE }, Wide { bits: IDENTICAL })),
                    value,
                )
        }
}

/// -1 is below 1.
pub proof fn lemma_correlation_bounds()
    ensures
        (Wide { bits: OPPOSITE }).within(Wide { bits: IDENTICAL }),
        (Wide { bits: OPPOSITE }).units() == -(Wide { bits: IDENTICAL }).units(),
{
}

impl Correlation {
    /// An empty window for a stream with the sample rate `rate`.
    pub fn new(rate: u32) -> (c: Self)
        ensures
            c@.wf(),
            c@ == (CorrelationState {
                frames: Seq::empty(),
                cap: crate::loudness::samples_in(rate, 3),
                sll: Wide { bits: 0 },
                srr: Wide { bits: 0 },
                slr: Wide { bits: 0 },
            }),
    {
        Correlation {
            ring: VecDeque::new(),
            cap: samples(rate, 3),
            sll: Wide { bits: 0 },
            srr: Wide { bits: 0 },
            slr: Wide { bits: 0 },
        }
    }

    /// Takes in one frame.
    pub fn absorb<M: Math>(&mut self, m: &M, frame: [Level; 2])
        requires
            old(self)@.wf(),
        ensures
            final(self)@.wf(),
            takes_pair(m, old(self)@, frame, final(self)@),
    {
        let left = push_bounded(&mut self.ring, frame, self.cap);
        let sll = m.gather_product(self.sll, frame[0], frame[0]);
        let srr = m.gather_product(self.srr, frame[1], frame[1]);
        let slr = m.gather_product(self.slr, frame[0], frame[1]);
        match left {
            Some(gone) => {
                self.sll = m.shed_product(sll, gone[0], gone[0]);
                self.srr = m.shed_product(srr, gone[1], gone[1]);
                self.slr = m.shed_product(slr, gone[0], gone[1]);
            },
            None => {
                self.sll = sll;
                self.srr = srr;
                self.slr = slr;
            },
        }
    }

    /// Takes in `frames`, oldest first.
    pub fn process<M: Math>(&mut self, m: &M, frames: &[[Level; 2]])
        requires
            old(self)@.wf(),
        ensures
            final(self)@.wf(),
            takes_pairs(m, old(self)@, frames@, final(self)@),
    {
        let mut i: usize = 0;
        assert(frames@.take(0) =~= Seq::empty());
        while i < frames.len()
            invariant
                i <= frames.len(),
                self@.wf(),
                takes_pairs(m, old(self)@, frames@.take(i as int), self@),
            decreases frames.len() - i,
        {
            let ghost before = self@;
            self.absorb(m, frames[i]);
            proof {
                let next = frames@.take(i + 1);
                assert(next.drop_last() =~= frames@.take(i as int));
                assert(takes_pair(m, before, next.last(), self@));
            }
            i += 1;
        }
        assert(frames@.take(i as int) =~= frames@);
    }

    /// The correlation over the window.
    pub fn value<M: Math>(&self, m: &M) -> (value: Level)
        ensures
            is_correlation(m, self.sll, self.srr, self.slr, value),
    {
        let energy = m.geometric_mean(self.sll, self.srr);
        if energy.at_most(Wide { bits: SILENCE }) {
            Level { bits: ZERO }
        } else {
            proof {
                lemma_correlation_bounds();
            }
            let ratio = m.ratio(self.slr, energy);
            let bounded = ratio.clamped(Wide { bits: OPPOSITE }, Wide { bits: IDENTICAL });
            m.narrow(bounded)
        }
    }
}

/// The window holds the last 0.3 s of the stream.
pub proof fn window_holds_the_last_frames<M: Math>(
    m: &M,
    s: CorrelationState,
    frames: Seq<[Level; 2]>,
    t: CorrelationState,
)
    requires
        s.wf(),
        takes_pairs(m, s, frames, t),
    ensures
        t.wf(),
        t.cap == s.cap,
        t.frames == crate::window::last_of(s.frames + frames, s.cap),
    decreases frames.len(),
{
    if frames.len() == 0 {
        assert(s.frames + frames =~= s.frames);
    } else {
        let u = choose|u: CorrelationState|
            takes_pairs(m, s, frames.drop_last(), u) && #[trigger] takes_pair(
                m,
                u,
                frames.last(),
                t,
            );
        window_holds_the_last_frames(m, s, frames.drop_last(), u);
        let earlier = s.frames + frames.drop_last();
        crate::window::lemma_last_of_push(earlier, frames.last(), s.cap);
        assert(earlier.push(frames.last()) =~= s.frames + frames);
    }
}

/// How a stream is cut into calls does not matter: taking in `a` and then `b` is taking in
/// both at once.
pub proof fn pairs_in_pieces<M: Math>(
    m: &M,
    s: CorrelationState,
    a: Seq<[Level; 2]>,
    b: Seq<[Level; 2]>,
    t: CorrelationState,
)
    ensures
        takes_pairs(m, s, a + b, t) <==> exists|u: CorrelationState| #[trigger]
            takes_pairs(m, s, a, u) && takes_pairs(m, u, b, t),
    decreases b.len(),
{
    if b.len() == 0 {
        assert(a + b =~= a);
        if takes_pairs(m, s, a + b, t) {
            assert(takes_pairs(m, s, a, t) && takes_pairs(m, t, b, t));
        }
    } else {
        assert((a + b).drop_last() =~= a + b.drop_last());
        assert((a + b).last() == b.last());
        if takes_pairs(m, s, a + b, t) {
            let v = choose|v: CorrelationState|
                takes_pairs(m, s, (a + b).drop_last(), v) && #[trigger] takes_pair(
                    m,
                    v,
                    (a + b).last(),
                    t,
                );
            pairs_in_pieces(m, s, a, b.drop_last(), v);
            let u = choose|u: CorrelationState| #[trigger]
                takes_pairs(m, s, a, u) && takes_pairs(m, u, b.drop_last(), v);
            assert(takes_pair(m, v, b.last(), t));
            assert(takes_pairs(m, s, a, u) && takes_pairs(m, u, b, t));
        }
        if exists|u: CorrelationState| #[trigger]
            takes_pairs(m, s, a, u) && takes_pairs(m, u, b, t) {
            let u = choose|u: CorrelationState| #[trigger]
                takes_pairs(m, s, a, u) && takes_pairs(m, u, b, t);
            let v = choose|v: CorrelationState|
                takes_pairs(m, u, b.drop_last(), v) && #[trigger] takes_pair(m, v, b.last(), t);
            assert(takes_pairs(m, s, a, u) && takes_pairs(m, u, b.drop_last(), v));
            pairs_in_pieces(m, s, a, b.drop_last(), v);
            assert(takes_pairs(m, s, (a + b).drop_last(), v));
            assert(takes_pair(m, v, (a + b).last(), t));
        }
    }
}

/// `m` gathers and sheds products exactly, when `level` and `wide` give the values of its
/// numbers.
pub open spec fn sums_products_exactly<M: Math>(
    m: &M,
    level: spec_fn(Level) -> int,
    wide: spec_fn(Wide) -> int,
) -> bool {
    &&& forall|sum: Wide, a: Level, b: Level, r: Wide| #[trigger]
        call_ensures(M::gather_product, (m, sum, a, b), r) ==> wide(r) == wide(sum) + level(a)
            * level(b)
    &&& forall|sum: Wide, a: Level, b: Level, r: Wide| #[trigger]
        call_ensures(M::shed_product, (m, sum, a, b), r) ==> wide(r) == wide(sum) - level(a)
            * level(b)
}

/// The products of the channels `a` and `b` added up over `frames`.
pub open spec fn product_total(
    level: spec_fn(Level) -> int,
    frames: Seq<[Level; 2]>,
    a: int,
    b: int,
) -> int
    decreases frames.len(),
{
    if frames.len() == 0 {
        0
    } else {
        product_total(level, frames.drop_last(), a, b) + level(frames.last()[a]) * level(
            frames.last()[b],
        )
    }
}

/// The first of the frames counts once.
proof fn lemma_product_total_first(
    level: spec_fn(Level) -> int,
    frames: Seq<[Level; 2]>,
    a: int,
    b: int,
)
    requires
        frames.len() > 0,
    ensures
        product_total(level, frames, a, b) == level(frames[0][a]) * level(frames[0][b])
            + product_total(level, frames.skip(1), a, b),
    decreases frames.len(),
{
    if frames.len() == 1 {
        assert(frames.drop_last() =~= Seq::empty());
        assert(frames.skip(1) =~= Seq::empty());
        assert(product_total(level, frames.drop_last(), a, b) == 0);
        assert(product_total(level, frames.skip(1), a, b) == 0);
    } else {
        lemma_product_total_first(level, frames.drop_last(), a, b);
        assert(frames.drop_last().skip(1) =~= frames.skip(1).drop_last());
        assert(frames.skip(1).last() == frames.last());
    }
}

/// The running sums of `s` are the sums over its window.
pub open spec fn product_sums_match(
    s: CorrelationState,
    level: spec_fn(Level) -> int,
    wide: spec_fn(Wide) -> int,
) -> bool {
    &&& wide(s.sll) == product_total(level, s.frames, 0, 0)
    &&& wide(s.srr) == product_total(level, s.frames, 1, 1)
    &&& wide(s.slr) == product_total(level, s.frames, 0, 1)
}

/// Moving the window by one frame moves a sum over it by what enters and what leaves.
proof fn lemma_moved_product_total<M: Math>(
    m: &M,
    s: CorrelationState,
    frame: [Level; 2],
    a: int,
    b: int,
    from: Wide,
    to: Wide,
    level: spec_fn(Level) -> int,
    wide: spec_fn(Wide) -> int,
)
    requires
        s.wf(),
        sums_products_exactly(m, level, wide),
        wide(from) == product_total(level, s.frames, a, b),
        is_product_moved(m, from, frame, s.leaves(frame), a, b, to),
    ensures
        wide(to) == product_total(
            level,
            crate::window::last_of(s.frames.push(frame), s.cap),
            a,
            b,
        ),
{
    let grown = s.frames.push(frame);
    assert(grown.drop_last() =~= s.frames);
    assert(product_total(level, grown, a, b) == product_total(level, s.frames, a, b) + level(
        frame[a],
    ) * level(frame[b]));
    if s.frames.len() == s.cap {
        lemma_product_total_first(level, grown, a, b);
    }
}

/// With exact arithmetic, the running sums stay the sums over the window, however many
/// frames enter: nothing drifts.
pub proof fn product_sums_are_window_sums<M: Math>(
    m: &M,
    s: CorrelationState,
    frames: Seq<[Level; 2]>,
    t: CorrelationState,
    level: spec_fn(Level) -> int,
    wide: spec_fn(Wide) -> int,
)
    requires
        s.wf(),
        takes_pairs(m, s, frames, t),
        sums_products_exactly(m, level, wide),
        product_sums_match(s, level, wide),
    ensures
        t.wf(),
        product_sums_match(t, level, wide),
    decreases frames.len(),
{
    if frames.len() > 0 {
        let u = choose|u: CorrelationState|
            takes_pairs(m, s, frames.drop_last(), u) && #[trigger] takes_pair(
                m,
                u,
                frames.last(),
                t,
            );
        product_sums_are_window_sums(m, s, frames.drop_last(), u, level, wide);
        lemma_moved_product_total(m, u, frames.last(), 0, 0, u.sll, t.sll, level, wide);
        lemma_moved_product_total(m, u, frames.last(), 1, 1, u.srr, t.srr, level, wide);
        lemma_moved_product_total(m, u, frames.last(), 0, 1, u.slr, t.slr, level, wide);
    }
}

/// `m` gathers and sheds products with an error of at most `eps` while nothing exceeds
/// `range`, when `level` and `wide` give the values of its numbers.
pub open spec fn sums_products_closely<M: Math>(
    m: &M,
    level: spec_fn(Level) -> int,
    wide: spec_fn(Wide) -> int,
    range: int,
    eps: int,
) -> bool {
    &&& forall|sum: Wide, a: Level, b: Level, r: Wide| #[trigger]
        call_ensures(M::gather_product, (m, sum, a, b), r) && crate::loudness::is_near(
            wide(sum),
            0,
            range,
        ) && crate::loudness::is_near(level(a) * level(b), 0, range) ==> crate::loudness::is_near(
            wide(r),
            wide(sum) + level(a) * level(b),
            eps,
        )
    &&& forall|sum: Wide, a: Level, b: Level, r: Wide| #[trigger]
        call_ensures(M::shed_product, (m, sum, a, b), r) && crate::loudness::is_near(
            wide(sum),
            0,
            range,
        ) && crate::loudness::is_near(level(a) * level(b), 0, range) ==> crate::loudness::is_near(
            wide(r),
            wide(sum) - level(a) * level(b),
            eps,
        )
}

/// No product of the channels `a` and `b` of a frame exceeds `p`.
pub open spec fn have_small_products(
    level: spec_fn(Level) -> int,
    frames: Seq<[Level; 2]>,
    a: int,
    b: int,
    p: int,
) -> bool {
    forall|i: int|
        0 <= i < frames.len() ==> crate::loudness::is_near(
            level((#[trigger] frames[i])[a]) * level(frames[i][b]),
            0,
            p,
        )
}

/// Small products have a small sum.
proof fn lemma_small_product_total(
    level: spec_fn(Level) -> int,
    frames: Seq<[Level; 2]>,
    a: int,
    b: int,
    p: int,
)
    requires
        have_small_products(level, frames, a, b, p),
    ensures
        crate::loudness::is_near(product_total(level, frames, a, b), 0, frames.len() * p),
    decreases frames.len(),
{
    if frames.len() > 0 {
        assert forall|i: int| 0 <= i < frames.len() - 1 implies crate::loudness::is_near(
            level((#[trigger] frames.drop_last()[i])[a]) * level(frames.drop_last()[i][b]),
            0,
            p,
        ) by {
            assert(frames.drop_last()[i] == frames[i]);
        }
        lemma_small_product_total(level, frames.drop_last(), a, b, p);
        assert(frames[frames.len() - 1] == frames.last());
        assert(frames.len() * p == (frames.len() - 1) * p + p) by (nonlinear_arith);
    }
}

/// Moving the window by one frame moves a sum over it by what enters and what leaves, up to
/// the errors of the two steps.
proof fn lemma_product_moved_closely<M: Math>(
    m: &M,
    s: CorrelationState,
    frame: [Level; 2],
    a: int,
    b: int,
    from: Wide,
    to: Wide,
    level: spec_fn(Level) -> int,
    wide: spec_fn(Wide) -> int,
    range: int,
    eps: int,
    p: int,
    e: int,
)
    requires
        s.wf(),
        0 <= eps,
        0 <= p,
        0 <= e,
        sums_products_closely(m, level, wide, range, eps),
        have_small_products(level, s.frames.push(frame), a, b, p),
        (s.cap + 1) * p + e + eps <= range,
        crate::loudness::is_near(wide(from), product_total(level, s.frames, a, b), e),
        is_product_moved(m, from, frame, s.leaves(frame), a, b, to),
    ensures
        crate::loudness::is_near(
            wide(to),
            product_total(level, crate::window::last_of(s.frames.push(frame), s.cap), a, b),
            e + 2 * eps,
        ),
        have_small_products(
            level,
            crate::window::last_of(s.frames.push(frame), s.cap),
            a,
            b,
            p,
        ),
{
    let grown = s.frames.push(frame);
    let n = s.frames.len() as int;
    assert(grown.drop_last() =~= s.frames);
    assert(product_total(level, grown, a, b) == product_total(level, s.frames, a, b) + level(
        frame[a],
    ) * level(frame[b]));
    assert forall|i: int| 0 <= i < n implies crate::loudness::is_near(
        level((#[trigger] s.frames[i])[a]) * level(s.frames[i][b]),
        0,
        p,
    ) by {
        assert(grown[i] == s.frames[i]);
    }
    assert(grown[n] == frame);
    lemma_small_product_total(level, s.frames, a, b, p);
    assert(n * p + p <= (s.cap + 1) * p) by (nonlinear_arith)
        requires
            n <= s.cap,
            0 <= p,
    ;
    assert(0 <= n * p) by (nonlinear_arith)
        requires
            0 <= p,
            0 <= n,
    ;
    assert(crate::loudness::is_near(level(grown[0][a]) * level(grown[0][b]), 0, p));
    if s.frames.len() == s.cap {
        lemma_product_total_first(level, grown, a, b);
    }
    let kept = crate::window::last_of(grown, s.cap);
    assert forall|i: int| 0 <= i < kept.len() implies crate::loudness::is_near(
        level((#[trigger] kept[i])[a]) * level(kept[i][b]),
        0,
        p,
    ) by {
        let k = i + grown.len() - kept.len();
        assert(kept[i] == grown[k]);
    }
}

/// A running sum `sum` differs from the sum over the window of `s` by at most `e`.
pub open spec fn is_near_total(
    s: CorrelationState,
    sum: Wide,
    a: int,
    b: int,
    level: spec_fn(Level) -> int,
    wide: spec_fn(Wide) -> int,
    e: int,
) -> bool {
    crate::loudness::is_near(wide(sum), product_total(level, s.frames, a, b), e)
}

/// The products of both channels with themselves and with each other are at most `p`.
pub open spec fn are_small_frames(
    level: spec_fn(Level) -> int,
    frames: Seq<[Level; 2]>,
    p: int,
) -> bool {
    &&& have_small_products(level, frames, 0, 0, p)
    &&& have_small_products(level, frames, 1, 1, p)
    &&& have_small_products(level, frames, 0, 1, p)
}

/// In arithmetic that errs by at most `eps`, the running sums stay within twice that error per
/// frame of the sums over the window, as long as no product exceeds `p` and the sums of such
/// products stay within `range`.
pub proof fn product_sums_stay_close<M: Math>(
    m: &M,
    s: CorrelationState,
    frames: Seq<[Level; 2]>,
    t: CorrelationState,
    level: spec_fn(Level) -> int,
    wide: spec_fn(Wide) -> int,
    range: int,
    eps: int,
    p: int,
    e: int,
)
    requires
        s.wf(),
        takes_pairs(m, s, frames, t),
        0 <= eps,
        0 <= p,
        0 <= e,
        sums_products_closely(m, level, wide, range, eps),
        are_small_frames(level, s.frames, p),
        are_small_frames(level, frames, p),
        (s.cap + 1) * p + e + 2 * eps * frames.len() + eps <= range,
        is_near_total(s, s.sll, 0, 0, level, wide, e),
        is_near_total(s, s.srr, 1, 1, level, wide, e),
        is_near_total(s, s.slr, 0, 1, level, wide, e),
    ensures
        t.wf(),
        t.cap == s.cap,
        are_small_frames(level, t.frames, p),
        is_near_total(t, t.sll, 0, 0, level, wide, e + 2 * eps * frames.len()),
        is_near_total(t, t.srr, 1, 1, level, wide, e + 2 * eps * frames.len()),
        is_near_total(t, t.slr, 0, 1, level, wide, e + 2 * eps * frames.len()),
    decreases frames.len(),
{
    let n = frames.len() as int;
    if n > 0 {
        let before = frames.drop_last();
        let x = frames[n - 1];
        let u = choose|u: CorrelationState|
            takes_pairs(m, s, before, u) && #[trigger] takes_pair(m, u, frames.last(), t);
        assert(2 * eps * n == 2 * eps * (n - 1) + 2 * eps) by (nonlinear_arith);
        assert(0 <= 2 * eps * (n - 1)) by (nonlinear_arith)
            requires
                0 <= eps,
                1 <= n,
        ;
        assert forall|i: int| 0 <= i < before.len() implies #[trigger] before[i] == frames[i] by {}
        product_sums_stay_close(m, s, before, u, level, wide, range, eps, p, e);
        let d = e + 2 * eps * (n - 1);
        let all = u.frames.push(x);
        assert forall|i: int| 0 <= i < all.len() implies #[trigger] all[i] == (if i
            < u.frames.len() {
            u.frames[i]
        } else {
            x
        }) by {}
        lemma_product_moved_closely(
            m,
            u,
            x,
            0,
            0,
            u.sll,
            t.sll,
            level,
            wide,
            range,
            eps,
            p,
            d,
        );
        lemma_product_moved_closely(
            m,
            u,
            x,
            1,
            1,
            u.srr,
            t.srr,
            level,
            wide,
            range,
            eps,
            p,
            d,
        );
        lemma_product_moved_closely(
            m,
            u,
            x,
            0,
            1,
            u.slr,
            t.slr,
            level,
            wide,
            range,
            eps,
            p,
            d,
        );
    }
}

/// The correlation is zero or the narrowed form of a number between -1 and 1, unless what
/// was divided is not a number.
pub proof fn correlation_is_bounded<M: Math>(
    m: &M,
    sll: Wide,
    srr: Wide,
    slr: Wide,
    value: Level,
)
    requires
        is_correlation(m, sll, srr, slr, value),
    ensures
        value == (Level { bits: ZERO }) || exists|x: Wide| #[trigger]
            call_ensures(M::narrow, (m, x), value) && (x.nan() || (
            Wide { bits: OPPOSITE }).within(x) && x.within(Wide { bits: IDENTICAL })),
{
    lemma_correlation_bounds();
    let energy = choose|energy: Wide| #[trigger]
        call_ensures(M::geometric_mean, (m, sll, srr), energy) && if energy.within(
            Wide { bits: SILENCE },
        ) {
            value == Level { bits: ZERO }
        } else {
            exists|ratio: Wide| #[trigger]
                call_ensures(M::ratio, (m, slr, energy), ratio) && call_ensures(
                    M::narrow,
                    (m, ratio.clamp_to(Wide { bits: OPPOSITE }, Wide { bits: IDENTICAL })),
                    value,
                )
        };
    if !energy.within(Wide { bits: SILENCE }) {
        let ratio = choose|ratio: Wide| #[trigger]
            call_ensures(M::ratio, (m, slr, energy), ratio) && call_ensures(
                M::narrow,
                (m, ratio.clamp_to(Wide { bits: OPPOSITE }, Wide { bits: IDENTICAL })),
                value,
            );
        let x = ratio.clamp_to(Wide { bits: OPPOSITE }, Wide { bits: IDENTICAL });
        assert(call_ensures(M::narrow, (m, x), value));
    }
}

/// One frame has one outcome.
proof fn lemma_pair_settled<M: Math>(
    m: &M,
    s: CorrelationState,
    frame: [Level; 2],
    a: CorrelationState,
    b: CorrelationState,
)
    requires
        crate::math::correlation_is_settled(m),
        takes_pair(m, s, frame, a),
        takes_pair(m, s, frame, b),
    ensures
        a == b,
{
    assert(a.sll == b.sll && a.srr == b.srr && a.slr == b.slr);
}

/// Where every formula has one outcome, so has the meter: frames taken in from one state lead
/// to one state.
pub proof fn pairs_have_one_outcome<M: Math>(
    m: &M,
    s: CorrelationState,
    frames: Seq<[Level; 2]>,
    a: CorrelationState,
    b: CorrelationState,
)
    requires
        crate::math::correlation_is_settled(m),
        takes_pairs(m, s, frames, a),
        takes_pairs(m, s, frames, b),
    ensures
        a == b,
    decreases frames.len(),
{
    if frames.len() > 0 {
        let x = choose|x: CorrelationState|
            takes_pairs(m, s, frames.drop_last(), x) && #[trigger] takes_pair(
                m,
                x,
                frames.last(),
                a,
            );
        let y = choose|y: CorrelationState|
            takes_pairs(m, s, frames.drop_last(), y) && #[trigger] takes_pair(
                m,
                y,
                frames.last(),
                b,
            );
        pairs_have_one_outcome(m, s, frames.drop_last(), x, y);
        lemma_pair_settled(m, x, frames.last(), a, b);
    }
}

/// A correlation has one outcome.
pub proof fn value_has_one_outcome<M: Math>(
    m: &M,
    sll: Wide,
    srr: Wide,
    slr: Wide,
    a: Level,
    b: Level,
)
    requires
        crate::math::correlation_is_settled(m),
        is_correlation(m, sll, srr, slr, a),
        is_correlation(m, sll, srr, slr, b),
    ensures
        a == b,
{
}

/// Flipping the sign of the first factor if `fa`, and of the second one if `fb`, flips the
/// sign of a sum of products if the one or the other was flipped, but not both.
pub open spec fn products_follow<M: Math>(m: &M, fa: bool, fb: bool) -> bool {
    &&& forall|s: Wide, a: Level, b: Level, t: Wide, s2: Wide, a2: Level, b2: Level, t2: Wide|
        #[trigger] call_ensures(M::gather_product, (m, s, a, b), t) && #[trigger] call_ensures(
            M::gather_product,
            (m, s2, a2, b2),
            t2,
        ) && s.mirrors(s2, fa != fb) && a.mirrors(a2, fa) && b.mirrors(b2, fb) ==> t.mirrors(
            t2,
            fa != fb,
        )
    &&& forall|s: Wide, a: Level, b: Level, t: Wide, s2: Wide, a2: Level, b2: Level, t2: Wide|
        #[trigger] call_ensures(M::shed_product, (m, s, a, b), t) && #[trigger] call_ensures(
            M::shed_product,
            (m, s2, a2, b2),
            t2,
        ) && s.mirrors(s2, fa != fb) && a.mirrors(a2, fa) && b.mirrors(b2, fb) ==> t.mirrors(
            t2,
            fa != fb,
        )
}

/// A quotient by what is no silence, and its narrowed form, flip their signs with the
/// numerator if `flip`.
pub open spec fn quotients_follow<M: Math>(m: &M, flip: bool) -> bool {
    &&& forall|a: Wide, b: Wide, q: Wide, a2: Wide, b2: Wide, q2: Wide| #[trigger]
        call_ensures(M::ratio, (m, a, b), q) && #[trigger] call_ensures(M::ratio, (m, a2, b2), q2)
            && a.mirrors(a2, flip) && b.alike(b2) && !b.within(Wide { bits: SILENCE })
            ==> q.mirrors(q2, flip)
    &&& forall|x: Wide, r: Level, x2: Wide, r2: Level| #[trigger]
        call_ensures(M::narrow, (m, x), r) && #[trigger] call_ensures(M::narrow, (m, x2), r2)
            && x.mirrors(x2, flip) ==> r.mirrors(r2, flip)
}

/// A geometric mean depends on the values of its arguments alone.
pub open spec fn means_follow<M: Math>(m: &M) -> bool {
    forall|a: Wide, b: Wide, d: Wide, a2: Wide, b2: Wide, d2: Wide| #[trigger]
        call_ensures(M::geometric_mean, (m, a, b), d) && #[trigger] call_ensures(
            M::geometric_mean,
            (m, a2, b2),
            d2,
        ) && a.alike(a2) && b.alike(b2) ==> d.alike(d2)
}

/// The formulas depend on the values of their arguments alone, and flip their signs as sums,
/// products and quotients of numbers do.
pub open spec fn follows_signs<M: Math>(m: &M) -> bool {
    &&& products_follow(m, false, false)
    &&& products_follow(m, false, true)
    &&& products_follow(m, true, false)
    &&& products_follow(m, true, true)
    &&& quotients_follow(m, false)
    &&& quotients_follow(m, true)
    &&& means_follow(m)
}

/// The order of two factors does not matter.
pub open spec fn ignores_order<M: Math>(m: &M) -> bool {
    &&& forall|s: Wide, a: Level, b: Level, t: Wide, s2: Wide, t2: Wide| #[trigger]
        call_ensures(M::gather_product, (m, s, a, b), t) && #[trigger] call_ensures(
            M::gather_product,
            (m, s2, b, a),
            t2,
        ) && s.alike(s2) ==> t.alike(t2)
    &&& forall|s: Wide, a: Level, b: Level, t: Wide, s2: Wide, t2: Wide| #[trigger]
        call_ensures(M::shed_product, (m, s, a, b), t) && #[trigger] call_ensures(
            M::shed_product,
            (m, s2, b, a),
            t2,
        ) && s.alike(s2) ==> t.alike(t2)
    &&& forall|a: Wide, b: Wide, d: Wide, a2: Wide, b2: Wide, d2: Wide| #[trigger]
        call_ensures(M::geometric_mean, (m, a, b), d) && #[trigger] call_ensures(
            M::geometric_mean,
            (m, b2, a2),
            d2,
        ) && a.alike(a2) && b.alike(b2) ==> d.alike(d2)
}

/// `g` is `f` with the sign of the left channel flipped if `left`, and that of the right one
/// if `right`.
pub open spec fn is_flipped(
    f: Seq<[Level; 2]>,
    g: Seq<[Level; 2]>,
    left: bool,
    right: bool,
) -> bool {
    &&& g.len() == f.len()
    &&& forall|i: int|
        0 <= i < f.len() ==> (#[trigger] f[i])[0].mirrors(g[i][0], left) && f[i][1].mirrors(
            g[i][1],
            right,
        )
}

/// `t` is the state of a meter whose channels have their signs flipped against those of `s`.
pub open spec fn is_flipped_state(
    s: CorrelationState,
    t: CorrelationState,
    left: bool,
    right: bool,
) -> bool {
    &&& t.cap == s.cap
    &&& is_flipped(s.frames, t.frames, left, right)
    &&& s.sll.alike(t.sll)
    &&& s.srr.alike(t.srr)
    &&& s.slr.mirrors(t.slr, left != right)
}

/// A running sum of products follows the signs of the channels.
proof fn lemma_product_flipped<M: Math>(
    m: &M,
    s: Wide,
    f: [Level; 2],
    out: Option<[Level; 2]>,
    t: Wide,
    s2: Wide,
    f2: [Level; 2],
    out2: Option<[Level; 2]>,
    t2: Wide,
    a: int,
    b: int,
    fa: bool,
    fb: bool,
)
    requires
        follows_signs(m),
        0 <= a < 2,
        0 <= b < 2,
        is_product_moved(m, s, f, out, a, b, t),
        is_product_moved(m, s2, f2, out2, a, b, t2),
        s.mirrors(s2, fa != fb),
        f[a].mirrors(f2[a], fa),
        f[b].mirrors(f2[b], fb),
        out is Some <==> out2 is Some,
        out matches Some(o) ==> o[a].mirrors(out2->0[a], fa) && o[b].mirrors(out2->0[b], fb),
    ensures
        t.mirrors(t2, fa != fb),
{
    assert(products_follow(m, fa, fb));
    let x = choose|x: Wide| #[trigger]
        call_ensures(M::gather_product, (m, s, f[a], f[b]), x) && match out {
            Some(o) => call_ensures(M::shed_product, (m, x, o[a], o[b]), t),
            None => t == x,
        };
    let y = choose|y: Wide| #[trigger]
        call_ensures(M::gather_product, (m, s2, f2[a], f2[b]), y) && match out2 {
            Some(o) => call_ensures(M::shed_product, (m, y, o[a], o[b]), t2),
            None => t2 == y,
        };
    assert(x.mirrors(y, fa != fb));
}

/// Meters that see one stream with flipped signs stay flipped against each other.
proof fn lemma_flipped<M: Math>(
    m: &M,
    s: CorrelationState,
    f: Seq<[Level; 2]>,
    t: CorrelationState,
    s2: CorrelationState,
    g: Seq<[Level; 2]>,
    t2: CorrelationState,
    left: bool,
    right: bool,
)
    requires
        follows_signs(m),
        s.wf(),
        is_flipped_state(s, s2, left, right),
        is_flipped(f, g, left, right),
        takes_pairs(m, s, f, t),
        takes_pairs(m, s2, g, t2),
    ensures
        t.wf(),
        is_flipped_state(t, t2, left, right),
    decreases f.len(),
{
    if f.len() > 0 {
        let u = choose|u: CorrelationState|
            takes_pairs(m, s, f.drop_last(), u) && #[trigger] takes_pair(m, u, f.last(), t);
        let u2 = choose|u2: CorrelationState|
            takes_pairs(m, s2, g.drop_last(), u2) && #[trigger] takes_pair(m, u2, g.last(), t2);
        assert(is_flipped(f.drop_last(), g.drop_last(), left, right)) by {
            assert forall|i: int| 0 <= i < f.len() - 1 implies (#[trigger] f.drop_last()[i])[0].mirrors(
                g.drop_last()[i][0],
                left,
            ) && f.drop_last()[i][1].mirrors(g.drop_last()[i][1], right) by {
                assert(f.drop_last()[i] == f[i]);
            }
        }
        lemma_flipped(m, s, f.drop_last(), u, s2, g.drop_last(), u2, left, right);
        let x = f[f.len() - 1];
        let y = g[g.len() - 1];
        let all = u.frames.push(x);
        let all2 = u2.frames.push(y);
        assert(is_flipped(all, all2, left, right)) by {
            assert forall|i: int| 0 <= i < all.len() implies (#[trigger] all[i])[0].mirrors(
                all2[i][0],
                left,
            ) && all[i][1].mirrors(all2[i][1], right) by {
                if i < u.frames.len() {
                    assert(all[i] == u.frames[i]);
                }
            }
        }
        let out = u.leaves(x);
        let out2 = u2.leaves(y);
        if out is Some {
            assert(all[0][0].mirrors(all2[0][0], left));
        }
        lemma_product_flipped(
            m,
            u.sll,
            x,
            out,
            t.sll,
            u2.sll,
            y,
            out2,
            t2.sll,
            0,
            0,
            left,
            left,
        );
        lemma_product_flipped(
            m,
            u.srr,
            x,
            out,
            t.srr,
            u2.srr,
            y,
            out2,
            t2.srr,
            1,
            1,
            right,
            right,
        );
        lemma_product_flipped(
            m,
            u.slr,
            x,
            out,
            t.slr,
            u2.slr,
            y,
            out2,
            t2.slr,
            0,
            1,
            left,
            right,
        );
        assert forall|i: int| 0 <= i < t.frames.len() implies (#[trigger] t.frames[i])[0].mirrors(
            t2.frames[i][0],
            left,
        ) && t.frames[i][1].mirrors(t2.frames[i][1], right) by {
            let k = if all.len() <= u.cap {
                i
            } else {
                i + all.len() - u.cap
            };
            assert(t.frames[i] == all[k] && t2.frames[i] == all2[k]);
        }
    }
}

/// Negating one channel of a stream negates the correlation, and negating both keeps it.
pub proof fn negating_a_channel_negates_the_correlation<M: Math>(
    m: &M,
    s: CorrelationState,
    f: Seq<[Level; 2]>,
    t: CorrelationState,
    g: Seq<[Level; 2]>,
    t2: CorrelationState,
    left: bool,
    right: bool,
    v: Level,
    v2: Level,
)
    requires
        follows_signs(m),
        s.wf(),
        s.frames.len() == 0,
        s.slr == (Wide { bits: 0 }),
        is_flipped(f, g, left, right),
        takes_pairs(m, s, f, t),
        takes_pairs(m, s, g, t2),
        is_correlation(m, t.sll, t.srr, t.slr, v),
        is_correlation(m, t2.sll, t2.srr, t2.slr, v2),
    ensures
        v.mirrors(v2, left != right),
{
    let flip = left != right;
    assert((Wide { bits: 0 }).units() == 0) by {
        vstd::arithmetic::power2::lemma_pow2_pos(52);
    }
    lemma_flipped(m, s, f, t, s, g, t2, left, right);
    lemma_value_mirrors(m, t, t2, flip, v, v2);
}

/// The correlation follows the signs of the sums.
proof fn lemma_value_mirrors<M: Math>(
    m: &M,
    t: CorrelationState,
    t2: CorrelationState,
    flip: bool,
    v: Level,
    v2: Level,
)
    requires
        follows_signs(m),
        t.sll.alike(t2.sll),
        t.srr.alike(t2.srr),
        t.slr.mirrors(t2.slr, flip),
        is_correlation(m, t.sll, t.srr, t.slr, v),
        is_correlation(m, t2.sll, t2.srr, t2.slr, v2),
    ensures
        v.mirrors(v2, flip),
{
    let low = Wide { bits: OPPOSITE };
    let high = Wide { bits: IDENTICAL };
    lemma_correlation_bounds();
    assert(quotients_follow(m, flip));
    let e = choose|e: Wide| #[trigger]
        call_ensures(M::geometric_mean, (m, t.sll, t.srr), e) && if e.within(
            Wide { bits: SILENCE },
        ) {
            v == Level { bits: ZERO }
        } else {
            exists|r: Wide| #[trigger]
                call_ensures(M::ratio, (m, t.slr, e), r) && call_ensures(
                    M::narrow,
                    (m, r.clamp_to(low, high)),
                    v,
                )
        };
    let e2 = choose|e2: Wide| #[trigger]
        call_ensures(M::geometric_mean, (m, t2.sll, t2.srr), e2) && if e2.within(
            Wide { bits: SILENCE },
        ) {
            v2 == Level { bits: ZERO }
        } else {
            exists|r: Wide| #[trigger]
                call_ensures(M::ratio, (m, t2.slr, e2), r) && call_ensures(
                    M::narrow,
                    (m, r.clamp_to(low, high)),
                    v2,
                )
        };
    assert(e.alike(e2));
    if e.within(Wide { bits: SILENCE }) {
        assert((Level { bits: ZERO }).units() == 0) by {
            vstd::arithmetic::power2::lemma_pow2_pos(23);
        }
    } else {
        let r = choose|r: Wide| #[trigger]
            call_ensures(M::ratio, (m, t.slr, e), r) && call_ensures(
                M::narrow,
                (m, r.clamp_to(low, high)),
                v,
            );
        let r2 = choose|r: Wide| #[trigger]
            call_ensures(M::ratio, (m, t2.slr, e2), r) && call_ensures(
                M::narrow,
                (m, r.clamp_to(low, high)),
                v2,
            );
        assert(r.mirrors(r2, flip));
        assert(r.clamp_to(low, high).mirrors(r2.clamp_to(low, high), flip));
    }
}

/// `g` is `f` with the channels swapped.
pub open spec fn is_swapped(f: Seq<[Level; 2]>, g: Seq<[Level; 2]>) -> bool {
    &&& g.len() == f.len()
    &&& forall|i: int|
        0 <= i < f.len() ==> (#[trigger] g[i])[0] == f[i][1] && g[i][1] == f[i][0]
}

/// `t` is the state of a meter whose channels are swapped against those of `s`.
pub open spec fn is_swapped_state(s: CorrelationState, t: CorrelationState) -> bool {
    &&& t.cap == s.cap
    &&& is_swapped(s.frames, t.frames)
    &&& s.sll.alike(t.srr)
    &&& s.srr.alike(t.sll)
    &&& s.slr.alike(t.slr)
}

/// Meters that see one stream with swapped channels stay swapped against each other.
proof fn lemma_swapped<M: Math>(
    m: &M,
    s: CorrelationState,
    f: Seq<[Level; 2]>,
    t: CorrelationState,
    s2: CorrelationState,
    g: Seq<[Level; 2]>,
    t2: CorrelationState,
)
    requires
        ignores_order(m),
        s.wf(),
        is_swapped_state(s, s2),
        is_swapped(f, g),
        takes_pairs(m, s, f, t),
        takes_pairs(m, s2, g, t2),
    ensures
        t.wf(),
        is_swapped_state(t, t2),
    decreases f.len(),
{
    if f.len() > 0 {
        let u = choose|u: CorrelationState|
            takes_pairs(m, s, f.drop_last(), u) && #[trigger] takes_pair(m, u, f.last(), t);
        let u2 = choose|u2: CorrelationState|
            takes_pairs(m, s2, g.drop_last(), u2) && #[trigger] takes_pair(m, u2, g.last(), t2);
        lemma_swapped(m, s, f.drop_last(), u, s2, g.drop_last(), u2);
        let x = f[f.len() - 1];
        let y = g[g.len() - 1];
        let all = u.frames.push(x);
        let all2 = u2.frames.push(y);
        assert(is_swapped(all, all2)) by {
            assert forall|i: int| 0 <= i < all.len() implies (#[trigger] all2[i])[0] == all[i][1]
                && all2[i][1] == all[i][0] by {
                if i < u.frames.len() {
                    assert(all2[i] == u2.frames[i]);
                }
            }
        }
        if u.leaves(x) is Some {
            assert(all2[0][0] == all[0][1]);
        }
        assert forall|i: int| 0 <= i < t.frames.len() implies (#[trigger] t2.frames[i])[0]
            == t.frames[i][1] && t2.frames[i][1] == t.frames[i][0] by {
            let k = if all.len() <= u.cap {
                i
            } else {
                i + all.len() - u.cap
            };
            assert(t.frames[i] == all[k] && t2.frames[i] == all2[k]);
        }
    }
}

/// Swapping the channels of a stream keeps the correlation.
pub proof fn swapping_the_channels_keeps_the_correlation<M: Math>(
    m: &M,
    s: CorrelationState,
    f: Seq<[Level; 2]>,
    t: CorrelationState,
    g: Seq<[Level; 2]>,
    t2: CorrelationState,
    v: Level,
    v2: Level,
)
    requires
        ignores_order(m),
        quotients_follow(m, false),
        s.wf(),
        s.frames.len() == 0,
        s.sll == s.srr,
        is_swapped(f, g),
        takes_pairs(m, s, f, t),
        takes_pairs(m, s, g, t2),
        is_correlation(m, t.sll, t.srr, t.slr, v),
        is_correlation(m, t2.sll, t2.srr, t2.slr, v2),
    ensures
        v.alike(v2),
{
    lemma_swapped(m, s, f, t, s, g, t2);
}

/// Bit pattern of -1 in single precision.
pub const LEAST_VALUE: u32 = 0xBF80_0000;

/// Bit pattern of 1 in single precision.
pub const LARGEST_VALUE: u32 = 0x3F80_0000;

/// Narrowing keeps what lies between -1 and 1 there, and what is not a number.
pub open spec fn narrows_within_bounds<M: Math>(m: &M) -> bool {
    forall|x: Wide, r: Level| #[trigger]
        call_ensures(M::narrow, (m, x), r) ==> {
            &&& x.nan() ==> r.nan()
            &&& (Wide { bits: OPPOSITE }).within(x) && x.within(Wide { bits: IDENTICAL }) ==> (
            Level { bits: LEAST_VALUE }).within(r) && r.within(Level { bits: LARGEST_VALUE })
        }
}

/// A correlation that is a number lies between -1 and 1.
pub proof fn value_lies_between_its_bounds<M: Math>(
    m: &M,
    sll: Wide,
    srr: Wide,
    slr: Wide,
    value: Level,
)
    requires
        narrows_within_bounds(m),
        is_correlation(m, sll, srr, slr, value),
        !value.nan(),
    ensures
        (Level { bits: LEAST_VALUE }).within(value),
        value.within(Level { bits: LARGEST_VALUE }),
{
    let low = Wide { bits: OPPOSITE };
    let high = Wide { bits: IDENTICAL };
    lemma_correlation_bounds();
    vstd::arithmetic::power2::lemma_pow2_pos(23);
    assert((Level { bits: ZERO }).units() == 0);
    assert((Level { bits: LEAST_VALUE }).units() <= 0 <= (Level { bits: LARGEST_VALUE }).units());
    let e = choose|e: Wide| #[trigger]
        call_ensures(M::geometric_mean, (m, sll, srr), e) && if e.within(Wide { bits: SILENCE }) {
            value == Level { bits: ZERO }
        } else {
            exists|r: Wide| #[trigger]
                call_ensures(M::ratio, (m, slr, e), r) && call_ensures(
                    M::narrow,
                    (m, r.clamp_to(low, high)),
                    value,
                )
        };
    if !e.within(Wide { bits: SILENCE }) {
        let r = choose|r: Wide| #[trigger]
            call_ensures(M::ratio, (m, slr, e), r) && call_ensures(
                M::narrow,
                (m, r.clamp_to(low, high)),
                value,
            );
        assert(call_ensures(M::narrow, (m, r.clamp_to(low, high)), value));
    }
}

} // verus!
