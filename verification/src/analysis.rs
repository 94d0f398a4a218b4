//! Real-time analysis of a stereo stream: spectrum, loudness, correlation, and the recent
//! frames for the goniometer.

use crate::correlation::Correlation;
use crate::level::{Level, ZERO};
use crate::loudness::LoudnessMeter;
use crate::math::Math;
use crate::window::push_bounded;
use std::collections::VecDeque;
use vstd::arithmetic::power2::pow2;
use vstd::prelude::*;

verus! {

/// Samples in one analysis window.
pub const FFT_SIZE: usize = 4096;

/// Bins in one spectrum.
pub const SPECTRUM_BINS: usize = 2048;

/// Frames kept for the goniometer.
pub const GONIO_POINTS: usize = 2048;

/// Ceiling on columns that nobody has fetched, so a stalled reader cannot grow memory.
pub const MAX_PENDING_COLUMNS: usize = 1024;

/// Bit pattern of 50: columns per second until a reader asks for another rate.
pub const DEFAULT_COLUMN_RATE_HZ: u32 = 0x4248_0000;

/// Bit pattern of 0.04: time constant of the slow release of the spectrum, in seconds.
pub const SPECTRUM_RELEASE_TAU: u32 = 0x3D23_D70A;

/// Bit pattern of 1.
pub const ONE: u32 = 0x3F80_0000;

/// Bit pattern of 1e-9: magnitudes up to this one read as the floor.
pub const FLOOR_MAGNITUDE: u32 = 0x3089_705F;

/// Bit pattern of -120: the floor, in dB.
pub const FLOOR_DB: u32 = 0xC2F0_0000;

/// `db` is the level `v` in decibels: the floor up to 1e-9.
pub open spec fn is_db<M: Math>(m: &M, v: Level, db: Level) -> bool {
    if v.within(Level { bits: FLOOR_MAGNITUDE }) {
        db == Level { bits: FLOOR_DB }
    } else {
        call_ensures(M::decibels, (m, v), db)
    }
}

/// A level in decibels.
pub fn to_db<M: Math>(m: &M, v: Level) -> (db: Level)
    ensures
        is_db(m, v, db),
{
    if v.at_most(Level { bits: FLOOR_MAGNITUDE }) {
        Level { bits: FLOOR_DB }
    } else {
        m.decibels(v)
    }
}

/// `buffer` is the windowed form of the last samples, with silence before them where
/// there is less than a full window.
pub open spec fn is_buffer<M: Math>(m: &M, mono: Seq<Level>, buffer: Seq<Level>) -> bool {
    &&& buffer.len() == FFT_SIZE
    &&& forall|i: int|
        0 <= i < FFT_SIZE - mono.len() ==> #[trigger] buffer[i] == (Level { bits: ZERO })
    &&& forall|i: int|
        FFT_SIZE - mono.len() <= i < FFT_SIZE ==> call_ensures(
            M::windowed,
            (m, mono[i - (FFT_SIZE - mono.len())], i as usize),
            #[trigger] buffer[i],
        )
}

/// `next` follows `prev` as the smoothed level of a bin whose level is now `db`: at once
/// when it rises, slowly when it falls.
pub open spec fn is_smoothed<M: Math>(
    m: &M,
    prev: Level,
    db: Level,
    share: Level,
    next: Level,
) -> bool {
    if db.exceeds(prev) {
        next == db
    } else {
        call_ensures(M::approach, (m, prev, db, share), next)
    }
}

/// `db` is the level of a bin in decibels.
pub open spec fn is_bin_level<M: Math>(
    m: &M,
    spectrum: M::Spectrum,
    bin: int,
    db: Level,
) -> bool {
    exists|magnitude: Level| #[trigger]
        call_ensures(M::magnitude, (m, &spectrum, bin as usize), magnitude) && call_ensures(
            M::decibels,
            (m, magnitude.max_with(Level { bits: FLOOR_MAGNITUDE })),
            db,
        )
}

/// `next` follows `prev` as the smoothed level of a bin of `spectrum`.
pub open spec fn bin_follows<M: Math>(
    m: &M,
    spectrum: M::Spectrum,
    bin: int,
    prev: Level,
    share: Level,
    next: Level,
) -> bool {
    exists|db: Level| #[trigger]
        is_bin_level(m, spectrum, bin, db) && is_smoothed(m, prev, db, share, next)
}

/// `next` is the smoothed spectrum after `prev`, when the last samples are `mono`.
pub open spec fn is_spectrum<M: Math>(
    m: &M,
    mono: Seq<Level>,
    prev: Seq<Level>,
    share: Level,
    next: Seq<Level>,
) -> bool {
    &&& next.len() == prev.len()
    &&& exists|buffer: Vec<Level>, spectrum: M::Spectrum|
        is_buffer(m, mono, buffer@) && #[trigger] call_ensures(
            M::transform,
            (m, &buffer),
            spectrum,
        ) && forall|i: int|
            0 <= i < next.len() ==> #[trigger] bin_follows(
                m,
                spectrum,
                i,
                prev[i],
                share,
                next[i],
            )
}

/// The part of an [`Analyzer`] that follows the samples themselves.
#[verifier::ext_equal]
pub struct TrackState {
    /// The last mixed-down samples.
    pub mono: Seq<Level>,
    /// The last frames.
    pub gonio: Seq<[Level; 2]>,
    /// The smoothed spectrum.
    pub smooth: Seq<Level>,
    /// Samples per column.
    pub hop: int,
    /// Samples since the last column.
    pub since: int,
    /// Share of the way a falling bin covers per column.
    pub release: Level,
    /// Columns nobody has fetched, oldest first.
    pub columns: Seq<Seq<Level>>,
}

impl TrackState {
    /// The buffers are within their bounds and the column clock has not run past its hop.
    pub open spec fn bounded(self) -> bool {
        &&& self.mono.len() <= FFT_SIZE
        &&& self.gonio.len() <= GONIO_POINTS
        &&& self.smooth.len() == SPECTRUM_BINS
        &&& 0 <= self.since < self.hop <= usize::MAX
        &&& self.columns.len() <= MAX_PENDING_COLUMNS
        &&& forall|i: int|
            0 <= i < self.columns.len() ==> (#[trigger] self.columns[i]).len() == SPECTRUM_BINS
    }

    /// All is within its bounds, and the last column is the spectrum as it stands.
    pub open spec fn wf(self) -> bool {
        self.bounded() && (self.columns.len() > 0 ==> self.columns.last() == self.smooth)
    }
}

/// `t` is the state after `s` has taken in `frame`: the samples move into their buffers,
/// and every `hop` samples the spectrum is computed and becomes a column.
pub open spec fn takes_sample<M: Math>(
    m: &M,
    s: TrackState,
    frame: [Level; 2],
    t: TrackState,
) -> bool {
    &&& exists|mixed: Level| #[trigger]
        call_ensures(M::mix, (m, frame[0], frame[1]), mixed) && t.mono == crate::window::last_of(
            s.mono.push(mixed),
            FFT_SIZE as int,
        )
    &&& t.gonio == crate::window::last_of(s.gonio.push(frame), GONIO_POINTS as int)
    &&& t.hop == s.hop
    &&& t.release == s.release
    &&& if s.since + 1 >= s.hop {
        &&& t.since == 0
        &&& is_spectrum(m, t.mono, s.smooth, s.release, t.smooth)
        &&& t.columns == crate::window::last_of(
            s.columns.push(t.smooth),
            MAX_PENDING_COLUMNS as int,
        )
    } else {
        &&& t.since == s.since + 1
        &&& t.smooth == s.smooth
        &&& t.columns == s.columns
    }
}

/// `t` is the state after `s` has taken in `frames`, one after another.
pub open spec fn takes_samples<M: Math>(
    m: &M,
    s: TrackState,
    frames: Seq<[Level; 2]>,
    t: TrackState,
) -> bool
    decreases frames.len(),
{
    if frames.len() == 0 {
        t == s
    } else {
        exists|u: TrackState|
            takes_samples(m, s, frames.drop_last(), u) && #[trigger] takes_sample(
                m,
                u,
                frames.last(),
                t,
            )
    }
}

/// The views of the columns.
pub open spec fn column_views(columns: Seq<Vec<Level>>) -> Seq<Seq<Level>> {
    columns.map_values(|c: Vec<Level>| c@)
}

/// The view of one more column.
pub proof fn lemma_column_views_push(columns: Seq<Vec<Level>>, column: Vec<Level>)
    ensures
        column_views(columns.push(column)) == column_views(columns).push(column@),
{
    assert(column_views(columns.push(column)) =~= column_views(columns).push(column@));
}

/// The analysis of one stream.
pub struct Analyzer<M: Math> {
    pub sample_rate: u32,
    pub loudness: LoudnessMeter<M>,
    pub correlation: Correlation,
    pub mono: VecDeque<Level>,
    pub gonio: VecDeque<[Level; 2]>,
    pub smooth_db: Vec<Level>,
    /// One column every `spectrum_hop` samples.
    pub spectrum_hop: usize,
    pub since_spectrum: usize,
    pub release_coeff: Level,
    /// Columns computed but not yet fetched, oldest first.
    pub columns: VecDeque<Vec<Level>>,
}

/// All results at one moment.
pub struct Snapshot {
    /// Smoothed magnitude spectrum in dBFS, one level per bin.
    pub spectrum_db: Vec<Level>,
    /// Columns produced since the last snapshot, oldest first.
    pub columns: Vec<Vec<Level>>,
    pub momentary: Level,
    pub short_term: Level,
    pub integrated: Level,
    pub peak_db: [Level; 2],
    pub peak_hold_db: [Level; 2],
    pub correlation: Level,
    pub gonio: Vec<[Level; 2]>,
    pub sample_rate: u32,
}

impl Clone for Snapshot {
    fn clone(&self) -> (copy: Self)
        ensures
            copy.spectrum_db@ == self.spectrum_db@,
            column_views(copy.columns@) == column_views(self.columns@),
            copy.gonio@ == self.gonio@,
            copy == (Snapshot {
                spectrum_db: copy.spectrum_db,
                columns: copy.columns,
                gonio: copy.gonio,
                ..*self
            }),
    {
        let spectrum_db = self.spectrum_db.clone();
        assert(spectrum_db@ =~= self.spectrum_db@);
        let mut gonio: Vec<[Level; 2]> = Vec::new();
        let mut i: usize = 0;
        while i < self.gonio.len()
            invariant
                i <= self.gonio@.len(),
                gonio@ =~= self.gonio@.take(i as int),
            decreases self.gonio@.len() - i,
        {
            gonio.push(self.gonio[i]);
            i += 1;
        }
        assert(gonio@ =~= self.gonio@);
        let mut columns: Vec<Vec<Level>> = Vec::new();
        let mut i: usize = 0;
        while i < self.columns.len()
            invariant
                i <= self.columns@.len(),
                column_views(columns@) =~= column_views(self.columns@.take(i as int)),
            decreases self.columns@.len() - i,
        {
            let column = self.columns[i].clone();
            proof {
                let taken = self.columns@.take(i as int);
                assert(column@ =~= self.columns@[i as int]@);
                lemma_column_views_push(columns@, column);
                lemma_column_views_push(taken, self.columns@[i as int]);
                assert(self.columns@.take(i + 1) =~= taken.push(self.columns@[i as int]));
            }
            columns.push(column);
            i += 1;
        }
        assert(self.columns@.take(i as int) =~= self.columns@);
        Snapshot {
            spectrum_db,
            columns,
            momentary: self.momentary,
            short_term: self.short_term,
            integrated: self.integrated,
            peak_db: self.peak_db,
            peak_hold_db: self.peak_hold_db,
            correlation: self.correlation,
            gonio,
            sample_rate: self.sample_rate,
        }
    }
}

/// The hop in samples at `hz` columns per second, before it is cut to a whole number: at
/// least one sample, and at most a second.
pub open spec fn is_hop<M: Math>(m: &M, rate: u32, hz: Level, hop: Level) -> bool {
    exists|samples: Level| #[trigger]
        call_ensures(M::samples_per, (m, rate, hz.max_with(Level { bits: ONE })), samples) && hop
            == samples.max_with(Level { bits: ONE })
}

/// `t` is the state `s` with the column rate `hz`.
pub open spec fn is_rated<M: Math>(
    m: &M,
    s: TrackState,
    rate: u32,
    hz: Level,
    t: TrackState,
) -> bool {
    exists|hop: Level|
        is_hop(m, rate, hz, hop) && #[trigger] call_ensures(
            M::release,
            (m, hop, rate, Level { bits: SPECTRUM_RELEASE_TAU }),
            t.release,
        ) && t == (TrackState { hop: hop.floor_index(), since: 0, release: t.release, ..s })
}

/// What is at least 1 has at least one whole in it.
pub proof fn lemma_at_least_one(x: Level)
    ensures
        x.max_with(Level { bits: ONE }).floor_index() >= 1,
        !x.max_with(Level { bits: ONE }).nan(),
{
    let one = Level { bits: ONE };
    vstd::arithmetic::power2::lemma2_to64();
    vstd::arithmetic::power2::lemma_pow2_adds(23, 126);
    vstd::arithmetic::power2::lemma_pow2_pos(149);
    assert(ONE / 0x80_0000 == 127);
    assert(ONE % 0x80_0000 == 0);
    assert(one.units() == pow2(149));
    let y = x.max_with(one);
    assert(y.units() >= pow2(149));
    if y.negative() {
        assert(y.units() <= 0);
    }
    let p = pow2(149) as int;
    vstd::arithmetic::div_mod::lemma_div_is_ordered(p, y.units(), p);
    vstd::arithmetic::div_mod::lemma_div_by_self(p);
}

impl<M: Math> Analyzer<M> {
    /// The part that follows the samples themselves.
    pub open spec fn track(self) -> TrackState {
        TrackState {
            mono: self.mono@,
            gonio: self.gonio@,
            smooth: self.smooth_db@,
            hop: self.spectrum_hop as int,
            since: self.since_spectrum as int,
            release: self.release_coeff,
            columns: column_views(self.columns@),
        }
    }

    /// Every part is well formed.
    pub open spec fn wf(self) -> bool {
        self.loudness@.wf() && self.correlation@.wf() && self.track().wf()
    }

    /// Sets how many columns are produced per second; the smoothing keeps its time
    /// constant.
    pub fn set_column_rate(&mut self, m: &M, hz: Level)
        requires
            old(self).wf(),
        ensures
            final(self).wf(),
            is_rated(m, old(self).track(), old(self).sample_rate, hz, final(self).track()),
            final(self).sample_rate == old(self).sample_rate,
            final(self).loudness == old(self).loudness,
            final(self).correlation == old(self).correlation,
    {
        let one = Level { bits: ONE };
        let samples = m.samples_per(self.sample_rate, hz.larger(one));
        let hop = samples.larger(one);
        proof {
            lemma_at_least_one(samples);
        }
        self.spectrum_hop = hop.floor();
        self.since_spectrum = 0;
        self.release_coeff = m.release(
            hop,
            self.sample_rate,
            Level { bits: SPECTRUM_RELEASE_TAU },
        );
        proof {
            assert(is_hop(m, old(self).sample_rate, hz, hop));
        }
    }

    /// An analyzer at rest for a stream with the sample rate `sample_rate`, at the default
    /// column rate.
    pub fn new(m: &M, sample_rate: u32) -> (a: Self)
        ensures
            a.wf(),
            a.sample_rate == sample_rate,
            is_fresh(m, sample_rate, a.loudness@, a.correlation@),
            is_rated(
                m,
                fresh_track(),
                sample_rate,
                Level { bits: DEFAULT_COLUMN_RATE_HZ },
                a.track(),
            ),
    {
        let floor = Level { bits: FLOOR_DB };
        let mut smooth_db: Vec<Level> = Vec::new();
        let mut i: usize = 0;
        while i < SPECTRUM_BINS
            invariant
                i <= SPECTRUM_BINS,
                smooth_db@ =~= Seq::new(i as nat, |j: int| floor),
            decreases SPECTRUM_BINS - i,
        {
            smooth_db.push(floor);
            i += 1;
        }
        let mut a = Analyzer {
            sample_rate,
            loudness: LoudnessMeter::new(m, sample_rate),
            correlation: Correlation::new(sample_rate),
            mono: VecDeque::with_capacity(FFT_SIZE),
            gonio: VecDeque::with_capacity(GONIO_POINTS),
            smooth_db,
            spectrum_hop: 1,
            since_spectrum: 0,
            release_coeff: Level { bits: ONE },
            columns: VecDeque::new(),
        };
        assert(a.track().columns =~= Seq::empty());
        assert(a.track() =~= fresh_track());
        a.set_column_rate(m, Level { bits: DEFAULT_COLUMN_RATE_HZ });
        a
    }

    /// Forgets the integrated loudness and the held peaks.
    pub fn reset_integrated(&mut self)
        requires
            old(self).wf(),
        ensures
            final(self).wf(),
            final(self).track() == old(self).track(),
            final(self).correlation == old(self).correlation,
            final(self).sample_rate == old(self).sample_rate,
            forall|c: int|
                0 <= c < 2 ==> #[trigger] final(self).loudness.peak_hold[c] == (Level { bits: ZERO }),
            final(self).loudness@ == (crate::loudness::LoudnessState {
                blocks: Seq::empty(),
                integrated: Level { bits: crate::level::NEG_INFINITY },
                peak_hold: final(self).loudness.peak_hold,
                ..old(self).loudness@
            }),
    {
        self.loudness.reset_integrated();
    }

    /// Computes the smoothed spectrum of the last samples.
    fn compute_spectrum(&mut self, m: &M)
        requires
            old(self).track().bounded(),
        ensures
            final(self).track().bounded(),
            is_spectrum(
                m,
                old(self).track().mono,
                old(self).track().smooth,
                old(self).track().release,
                final(self).track().smooth,
            ),
            final(self).track() == (TrackState {
                smooth: final(self).track().smooth,
                ..old(self).track()
            }),
            final(self).loudness == old(self).loudness,
            final(self).correlation == old(self).correlation,
            final(self).sample_rate == old(self).sample_rate,
    {
        let n = self.mono.len();
        let offset: usize = FFT_SIZE - n;
        let mut buffer: Vec<Level> = Vec::with_capacity(FFT_SIZE);
        let mut i: usize = 0;
        while i < offset
            invariant
                i <= offset,
                buffer@ =~= Seq::new(i as nat, |j: int| Level { bits: ZERO }),
            decreases offset - i,
        {
            buffer.push(Level { bits: ZERO });
            i += 1;
        }
        let mut i: usize = 0;
        while i < n
            invariant
                i <= n,
                n == self.mono@.len(),
                n <= FFT_SIZE,
                offset == FFT_SIZE - n,
                buffer@.len() == offset + i,
                forall|j: int| 0 <= j < offset ==> #[trigger] buffer@[j] == (Level { bits: ZERO }),
                forall|j: int|
                    offset <= j < offset + i ==> call_ensures(
                        M::windowed,
                        (m, self.mono@[j - offset], j as usize),
                        #[trigger] buffer@[j],
                    ),
            decreases n - i,
        {
            let x = m.windowed(self.mono[i], offset + i);
            buffer.push(x);
            i += 1;
        }
        let spectrum = m.transform(&buffer);
        let ghost prev = self.smooth_db@;
        let mut i: usize = 0;
        while i < SPECTRUM_BINS
            invariant
                i <= SPECTRUM_BINS,
                self.smooth_db@.len() == SPECTRUM_BINS,
                prev.len() == SPECTRUM_BINS,
                forall|j: int| i <= j < SPECTRUM_BINS ==> self.smooth_db@[j] == prev[j],
                forall|j: int|
                    0 <= j < i ==> #[trigger] bin_follows(
                        m,
                        spectrum,
                        j,
                        prev[j],
                        self.release_coeff,
                        self.smooth_db@[j],
                    ),
                *self == (Analyzer { smooth_db: self.smooth_db, ..*old(self) }),
            decreases SPECTRUM_BINS - i,
        {
            let magnitude = m.magnitude(&spectrum, i);
            let db = m.decibels(magnitude.larger(Level { bits: FLOOR_MAGNITUDE }));
            let before = self.smooth_db[i];
            let next = if db.above(before) {
                db
            } else {
                m.approach(before, db, self.release_coeff)
            };
            let ghost earlier = self.smooth_db@;
            self.smooth_db.set(i, next);
            proof {
                assert(is_bin_level(m, spectrum, i as int, db));
                assert forall|j: int| 0 <= j < i + 1 implies #[trigger] bin_follows(
                    m,
                    spectrum,
                    j,
                    prev[j],
                    self.release_coeff,
                    self.smooth_db@[j],
                ) by {
                    if j < i {
                        assert(bin_follows(
                            m,
                            spectrum,
                            j,
                            prev[j],
                            self.release_coeff,
                            earlier[j],
                        ));
                    }
                }
            }
            i += 1;
        }
    }

    /// Takes one frame into the sample buffers; every hop a column.
    pub fn track_frame(&mut self, m: &M, frame: [Level; 2])
        requires
            old(self).wf(),
        ensures
            final(self).wf(),
            takes_sample(m, old(self).track(), frame, final(self).track()),
            final(self).loudness == old(self).loudness,
            final(self).correlation == old(self).correlation,
            final(self).sample_rate == old(self).sample_rate,
    {
        let mixed = m.mix(frame[0], frame[1]);
        push_bounded(&mut self.mono, mixed, FFT_SIZE);
        push_bounded(&mut self.gonio, frame, GONIO_POINTS);
        self.since_spectrum = self.since_spectrum + 1;
        if self.since_spectrum >= self.spectrum_hop {
            self.since_spectrum = 0;
            self.compute_spectrum(m);
            let column = self.smooth_db.clone();
            let ghost before = self.columns@;
            push_bounded(&mut self.columns, column, MAX_PENDING_COLUMNS);
            proof {
                assert(column@ =~= self.smooth_db@);
                assert(self.track().columns =~= crate::window::last_of(
                    column_views(before).push(column@),
                    MAX_PENDING_COLUMNS as int,
                ));
            }
        }
    }

    /// Takes in `frames`, oldest first.
    pub fn process(&mut self, m: &M, frames: &[[Level; 2]])
        requires
            old(self).wf(),
        ensures
            final(self).wf(),
            is_processed(m, *old(self), frames@, *final(self)),
    {
        self.loudness.process(m, frames);
        self.correlation.process(m, frames);
        let ghost started = *self;
        assert(started.track() =~= old(self).track());
        let mut i: usize = 0;
        assert(frames@.take(0) =~= Seq::empty());
        while i < frames.len()
            invariant
                i <= frames.len(),
                self.wf(),
                self.loudness == started.loudness,
                self.correlation == started.correlation,
                self.sample_rate == started.sample_rate,
                takes_samples(m, started.track(), frames@.take(i as int), self.track()),
            decreases frames.len() - i,
        {
            let ghost before = self.track();
            self.track_frame(m, frames[i]);
            proof {
                let next = frames@.take(i + 1);
                assert(next.drop_last() =~= frames@.take(i as int));
                assert(takes_sample(m, before, next.last(), self.track()));
            }
            i += 1;
        }
        assert(frames@.take(i as int) =~= frames@);
    }

    /// All results at this moment. The pending columns are handed over.
    pub fn snapshot(&mut self, m: &M) -> (snap: Snapshot)
        requires
            old(self).wf(),
        ensures
            final(self).wf(),
            is_drained(*old(self), *final(self)),
            is_snapshot(m, *old(self), snap),
            snap.columns@.len() <= MAX_PENDING_COLUMNS,
            forall|i: int|
                0 <= i < snap.columns@.len() ==> (#[trigger] snap.columns@[i])@.len()
                    == SPECTRUM_BINS,
            snap.columns@.len() > 0 ==> snap.columns@.last()@ == snap.spectrum_db@,
    {
        let peak = self.loudness.peak;
        let hold = self.loudness.peak_hold;
        let spectrum_db = self.smooth_db.clone();
        assert(spectrum_db@ =~= self.smooth_db@);
        let mut columns: Vec<Vec<Level>> = Vec::new();
        let ghost pending = self.columns@;
        while self.columns.len() > 0
            invariant
                columns@ + self.columns@ =~= pending,
                *self == (Analyzer { columns: self.columns, ..*old(self) }),
            decreases self.columns@.len(),
        {
            if let Some(column) = self.columns.pop_front() {
                columns.push(column);
            }
        }
        assert(columns@ =~= pending);
        assert(self.track().columns =~= Seq::empty());
        proof {
            let views = old(self).track().columns;
            assert forall|i: int| 0 <= i < columns@.len() implies (#[trigger] columns@[i])@.len()
                == SPECTRUM_BINS by {
                assert(views[i] == columns@[i]@);
            }
        }
        let mut gonio: Vec<[Level; 2]> = Vec::new();
        let mut i: usize = 0;
        while i < self.gonio.len()
            invariant
                i <= self.gonio@.len(),
                gonio@ =~= self.gonio@.take(i as int),
            decreases self.gonio@.len() - i,
        {
            gonio.push(self.gonio[i]);
            i += 1;
        }
        assert(gonio@ =~= self.gonio@);
        Snapshot {
            spectrum_db,
            columns,
            momentary: self.loudness.momentary(m),
            short_term: self.loudness.short_term(m),
            integrated: self.loudness.integrated,
            peak_db: [to_db(m, peak[0]), to_db(m, peak[1])],
            peak_hold_db: [to_db(m, hold[0]), to_db(m, hold[1])],
            correlation: self.correlation.value(m),
            gonio,
            sample_rate: self.sample_rate,
        }
    }
}

/// The sample buffers before the first frame, with every bin at the floor.
pub open spec fn fresh_track() -> TrackState {
    TrackState {
        mono: Seq::empty(),
        gonio: Seq::empty(),
        smooth: Seq::new(SPECTRUM_BINS as nat, |i: int| Level { bits: FLOOR_DB }),
        hop: 1,
        since: 0,
        release: Level { bits: ONE },
        columns: Seq::empty(),
    }
}

/// `l` and `c` are the states of a loudness and a correlation meter that have seen nothing.
pub open spec fn is_fresh<M: Math>(
    m: &M,
    rate: u32,
    l: crate::loudness::LoudnessState<M::Filters>,
    c: crate::correlation::CorrelationState,
) -> bool {
    &&& call_ensures(M::filters, (m, rate), l.filters)
    &&& call_ensures(
        M::peak_decay,
        (m, Level { bits: crate::loudness::PEAK_FALL_DB_PER_SEC }, rate),
        l.peak_decay,
    )
    &&& l.st_capacity == crate::loudness::samples_in(rate, 30)
    &&& l.mom_len == crate::loudness::samples_in(rate, 4)
    &&& l.block_hop == crate::loudness::samples_in(rate, 1)
    &&& l.since_hop == 0
    &&& l.powers == Seq::<Level>::empty()
    &&& l.blocks == Seq::<Level>::empty()
    &&& l.sum_st == crate::level::Wide { bits: 0 }
    &&& l.sum_mom == crate::level::Wide { bits: 0 }
    &&& l.integrated == Level { bits: crate::level::NEG_INFINITY }
    &&& forall|i: int|
        0 <= i < 2 ==> #[trigger] l.peak[i] == (Level { bits: ZERO }) && l.peak_hold[i] == (
        Level { bits: ZERO })
    &&& c == crate::correlation::CorrelationState {
        frames: Seq::empty(),
        cap: crate::loudness::samples_in(rate, 3),
        sll: crate::level::Wide { bits: 0 },
        srr: crate::level::Wide { bits: 0 },
        slr: crate::level::Wide { bits: 0 },
    }
}

/// `b` is the analyzer `a` after it has taken in `frames`.
pub open spec fn is_processed<M: Math>(
    m: &M,
    a: Analyzer<M>,
    frames: Seq<[Level; 2]>,
    b: Analyzer<M>,
) -> bool {
    &&& crate::loudness::takes_frames(m, a.loudness@, frames, b.loudness@)
    &&& crate::correlation::takes_pairs(m, a.correlation@, frames, b.correlation@)
    &&& takes_samples(m, a.track(), frames, b.track())
    &&& b.sample_rate == a.sample_rate
}

/// `b` is the analyzer `a` without its pending columns.
pub open spec fn is_drained<M: Math>(a: Analyzer<M>, b: Analyzer<M>) -> bool {
    &&& b.track() == TrackState { columns: Seq::empty(), ..a.track() }
    &&& b.loudness == a.loudness
    &&& b.correlation == a.correlation
    &&& b.sample_rate == a.sample_rate
}

/// `snap` holds all results of `a`.
pub open spec fn is_snapshot<M: Math>(m: &M, a: Analyzer<M>, snap: Snapshot) -> bool {
    &&& column_views(snap.columns@) == a.track().columns
    &&& snap.spectrum_db@ == a.track().smooth
    &&& snap.gonio@ == a.track().gonio
    &&& snap.sample_rate == a.sample_rate
    &&& crate::loudness::is_window_loudness(
        m,
        a.loudness.sum_mom,
        a.loudness@.momentary_window().len(),
        snap.momentary,
    )
    &&& crate::loudness::is_window_loudness(
        m,
        a.loudness.sum_st,
        a.loudness@.powers.len(),
        snap.short_term,
    )
    &&& snap.integrated == a.loudness.integrated
    &&& forall|c: int|
        0 <= c < 2 ==> is_db(m, a.loudness.peak[c], #[trigger] snap.peak_db[c]) && is_db(
            m,
            a.loudness.peak_hold[c],
            snap.peak_hold_db[c],
        )
    &&& crate::correlation::is_correlation(
        m,
        a.correlation.sll,
        a.correlation.srr,
        a.correlation.slr,
        snap.correlation,
    )
}

/// One more sample keeps the buffers well formed.
pub proof fn sample_keeps_wf<M: Math>(m: &M, s: TrackState, frame: [Level; 2], t: TrackState)
    requires
        s.wf(),
        takes_sample(m, s, frame, t),
    ensures
        t.wf(),
{
    assert forall|i: int| 0 <= i < t.columns.len() implies (#[trigger] t.columns[i]).len()
        == SPECTRUM_BINS by {
        if s.since + 1 >= s.hop {
            let all = s.columns.push(t.smooth);
            let k = if all.len() <= MAX_PENDING_COLUMNS {
                i
            } else {
                i + all.len() - MAX_PENDING_COLUMNS
            };
            assert(t.columns[i] == all[k]);
        }
    }
}

/// How a stream is cut into calls does not matter: taking in `a` and then `b` is taking in
/// both at once.
pub proof fn samples_in_pieces<M: Math>(
    m: &M,
    s: TrackState,
    a: Seq<[Level; 2]>,
    b: Seq<[Level; 2]>,
    t: TrackState,
)
    ensures
        takes_samples(m, s, a + b, t) <==> exists|u: TrackState| #[trigger]
            takes_samples(m, s, a, u) && takes_samples(m, u, b, t),
    decreases b.len(),
{
    if b.len() == 0 {
        assert(a + b =~= a);
        if takes_samples(m, s, a + b, t) {
            assert(takes_samples(m, s, a, t) && takes_samples(m, t, b, t));
        }
    } else {
        assert((a + b).drop_last() =~= a + b.drop_last());
        assert((a + b).last() == b.last());
        if takes_samples(m, s, a + b, t) {
            let v = choose|v: TrackState|
                takes_samples(m, s, (a + b).drop_last(), v) && #[trigger] takes_sample(
                    m,
                    v,
                    (a + b).last(),
                    t,
                );
            samples_in_pieces(m, s, a, b.drop_last(), v);
            let u = choose|u: TrackState| #[trigger]
                takes_samples(m, s, a, u) && takes_samples(m, u, b.drop_last(), v);
            assert(takes_sample(m, v, b.last(), t));
            assert(takes_samples(m, s, a, u) && takes_samples(m, u, b, t));
        }
        if exists|u: TrackState| #[trigger]
            takes_samples(m, s, a, u) && takes_samples(m, u, b, t) {
            let u = choose|u: TrackState| #[trigger]
                takes_samples(m, s, a, u) && takes_samples(m, u, b, t);
            let v = choose|v: TrackState|
                takes_samples(m, u, b.drop_last(), v) && #[trigger] takes_sample(m, v, b.last(), t);
            assert(takes_samples(m, s, a, u) && takes_samples(m, u, b.drop_last(), v));
            samples_in_pieces(m, s, a, b.drop_last(), v);
            assert(takes_samples(m, s, (a + b).drop_last(), v));
            assert(takes_sample(m, v, (a + b).last(), t));
        }
    }
}

/// The time axis follows the sample clock: `n` samples produce one column per hop, counted
/// from the last column, however they arrive, and of all columns the newest stay pending.
pub proof fn columns_follow_the_sample_clock<M: Math>(
    m: &M,
    s: TrackState,
    frames: Seq<[Level; 2]>,
    t: TrackState,
)
    requires
        s.wf(),
        takes_samples(m, s, frames, t),
    ensures
        t.wf(),
        t.hop == s.hop,
        t.release == s.release,
        t.since == (s.since + frames.len()) % s.hop,
        exists|emitted: Seq<Seq<Level>>|
            emitted.len() == (s.since + frames.len()) / s.hop && t.columns
                == #[trigger] crate::window::last_of(
                s.columns + emitted,
                MAX_PENDING_COLUMNS as int,
            ),
    decreases frames.len(),
{
    if frames.len() == 0 {
        let none = Seq::<Seq<Level>>::empty();
        assert(s.columns + none =~= s.columns);
        vstd::arithmetic::div_mod::lemma_fundamental_div_mod_converse(s.since, s.hop, 0, s.since);
        assert(t.columns == crate::window::last_of(s.columns + none, MAX_PENDING_COLUMNS as int));
    } else {
        let u = choose|u: TrackState|
            takes_samples(m, s, frames.drop_last(), u) && #[trigger] takes_sample(
                m,
                u,
                frames.last(),
                t,
            );
        columns_follow_the_sample_clock(m, s, frames.drop_last(), u);
        sample_keeps_wf(m, u, frames.last(), t);
        crate::window::lemma_clock_step(s.since, frames.len() - 1, s.hop);
        let cap = MAX_PENDING_COLUMNS as int;
        let emitted = choose|emitted: Seq<Seq<Level>>|
            emitted.len() == (s.since + frames.len() - 1) / s.hop && u.columns
                == #[trigger] crate::window::last_of(s.columns + emitted, cap);
        if u.since + 1 >= u.hop {
            let more = emitted.push(t.smooth);
            crate::window::lemma_last_of_push(s.columns + emitted, t.smooth, cap);
            assert((s.columns + emitted).push(t.smooth) =~= s.columns + more);
            assert(t.columns == crate::window::last_of(s.columns + more, cap));
        } else {
            assert(t.columns == crate::window::last_of(s.columns + emitted, cap));
        }
    }
}

/// The number of columns does not depend on how the samples are dealt out: those of `a`
/// samples and those of `b` more add up to those of all of them.
pub proof fn column_counts_add_up(since: int, a: int, b: int, hop: int)
    requires
        0 <= since < hop,
        0 <= a,
        0 <= b,
    ensures
        (since + a) / hop + ((since + a) % hop + b) / hop == (since + a + b) / hop,
        ((since + a) % hop + b) % hop == (since + a + b) % hop,
{
    let x = since + a;
    let q = x / hop;
    let r = x % hop;
    vstd::arithmetic::div_mod::lemma_fundamental_div_mod(x, hop);
    let y = r + b;
    let p = y / hop;
    vstd::arithmetic::div_mod::lemma_fundamental_div_mod(y, hop);
    assert((q + p) * hop == hop * q + hop * p) by (nonlinear_arith);
    vstd::arithmetic::div_mod::lemma_fundamental_div_mod_converse(x + b, hop, q + p, y % hop);
}

/// The goniometer shows the last frames of the stream.
pub proof fn goniometer_holds_the_last_frames<M: Math>(
    m: &M,
    s: TrackState,
    frames: Seq<[Level; 2]>,
    t: TrackState,
)
    requires
        s.wf(),
        takes_samples(m, s, frames, t),
    ensures
        t.gonio == crate::window::last_of(s.gonio + frames, GONIO_POINTS as int),
    decreases frames.len(),
{
    if frames.len() == 0 {
        assert(s.gonio + frames =~= s.gonio);
    } else {
        let u = choose|u: TrackState|
            takes_samples(m, s, frames.drop_last(), u) && #[trigger] takes_sample(
                m,
                u,
                frames.last(),
                t,
            );
        goniometer_holds_the_last_frames(m, s, frames.drop_last(), u);
        let earlier = s.gonio + frames.drop_last();
        crate::window::lemma_last_of_push(earlier, frames.last(), GONIO_POINTS as int);
        assert(earlier.push(frames.last()) =~= s.gonio + frames);
    }
}

/// The state `s` with the columns `columns` pending.
pub open spec fn with_columns(s: TrackState, columns: Seq<Seq<Level>>) -> TrackState {
    TrackState { columns, ..s }
}

/// Columns that were pending before stay ahead of those that come, and change nothing else.
proof fn lemma_earlier_columns<M: Math>(
    m: &M,
    earlier: Seq<Seq<Level>>,
    s: TrackState,
    frames: Seq<[Level; 2]>,
    t: TrackState,
)
    requires
        takes_samples(m, s, frames, t),
    ensures
        takes_samples(
            m,
            with_columns(
                s,
                crate::window::last_of(earlier + s.columns, MAX_PENDING_COLUMNS as int),
            ),
            frames,
            with_columns(
                t,
                crate::window::last_of(earlier + t.columns, MAX_PENDING_COLUMNS as int),
            ),
        ),
    decreases frames.len(),
{
    let cap = MAX_PENDING_COLUMNS as int;
    if frames.len() > 0 {
        let u = choose|u: TrackState|
            takes_samples(m, s, frames.drop_last(), u) && #[trigger] takes_sample(
                m,
                u,
                frames.last(),
                t,
            );
        lemma_earlier_columns(m, earlier, s, frames.drop_last(), u);
        let u2 = with_columns(u, crate::window::last_of(earlier + u.columns, cap));
        let t2 = with_columns(t, crate::window::last_of(earlier + t.columns, cap));
        if u.since + 1 >= u.hop {
            let grown = u.columns.push(t.smooth);
            crate::window::lemma_last_of_push(earlier + u.columns, t.smooth, cap);
            assert((earlier + u.columns).push(t.smooth) =~= earlier + grown);
            assert(crate::window::last_of(earlier + crate::window::last_of(grown, cap), cap)
                =~= crate::window::last_of(earlier + grown, cap));
        }
        assert(takes_sample(m, u2, frames.last(), t2));
    }
}

/// Fetching the pending columns between two calls loses none and changes none: the columns
/// fetched before and after make up those of one call on the whole stream, as far as that
/// keeps them.
pub proof fn fetching_between_calls_loses_no_column<M: Math>(
    m: &M,
    s: TrackState,
    a: Seq<[Level; 2]>,
    u: TrackState,
    b: Seq<[Level; 2]>,
    t: TrackState,
)
    requires
        takes_samples(m, s, a, u),
        takes_samples(m, with_columns(u, Seq::empty()), b, t),
        u.wf(),
    ensures
        takes_samples(
            m,
            s,
            a + b,
            with_columns(
                t,
                crate::window::last_of(u.columns + t.columns, MAX_PENDING_COLUMNS as int),
            ),
        ),
{
    let cap = MAX_PENDING_COLUMNS as int;
    let emptied = with_columns(u, Seq::empty());
    lemma_earlier_columns(m, u.columns, emptied, b, t);
    assert(crate::window::last_of(u.columns + emptied.columns, cap) =~= u.columns);
    assert(with_columns(emptied, u.columns) =~= u);
    let whole = with_columns(t, crate::window::last_of(u.columns + t.columns, cap));
    assert(takes_samples(m, s, a, u) && takes_samples(m, u, b, whole));
    samples_in_pieces(m, s, a, b, whole);
}

/// How a stream is cut into calls does not matter to any meter: an analyzer that takes in
/// `f` and then `g` comes out as one that takes in both at once.
pub proof fn processing_in_pieces<M: Math>(
    m: &M,
    a: Analyzer<M>,
    f: Seq<[Level; 2]>,
    b: Analyzer<M>,
    g: Seq<[Level; 2]>,
    c: Analyzer<M>,
)
    requires
        is_processed(m, a, f, b),
        is_processed(m, b, g, c),
    ensures
        is_processed(m, a, f + g, c),
{
    crate::loudness::frames_in_pieces(m, a.loudness@, f, g, c.loudness@);
    crate::correlation::pairs_in_pieces(m, a.correlation@, f, g, c.correlation@);
    samples_in_pieces(m, a.track(), f, g, c.track());
}

/// A windowed buffer has one outcome.
proof fn lemma_buffer_settled<M: Math>(m: &M, mono: Seq<Level>, a: Seq<Level>, b: Seq<Level>)
    requires
        crate::math::spectrum_is_settled(m),
        mono.len() <= FFT_SIZE,
        is_buffer(m, mono, a),
        is_buffer(m, mono, b),
    ensures
        a == b,
{
    assert forall|i: int| 0 <= i < FFT_SIZE implies a[i] == b[i] by {
        let start = FFT_SIZE - mono.len();
        if i >= start {
            assert(call_ensures(M::windowed, (m, mono[i - start], i as usize), a[i]));
            assert(call_ensures(M::windowed, (m, mono[i - start], i as usize), b[i]));
        }
    }
    assert(a =~= b);
}

/// A smoothed spectrum has one outcome.
pub proof fn lemma_spectrum_settled<M: Math>(
    m: &M,
    mono: Seq<Level>,
    prev: Seq<Level>,
    share: Level,
    a: Seq<Level>,
    b: Seq<Level>,
)
    requires
        crate::math::spectrum_is_settled(m),
        mono.len() <= FFT_SIZE,
        is_spectrum(m, mono, prev, share, a),
        is_spectrum(m, mono, prev, share, b),
    ensures
        a == b,
{
    let (x, sx) = choose|x: Vec<Level>, sx: M::Spectrum|
        is_buffer(m, mono, x@) && #[trigger] call_ensures(M::transform, (m, &x), sx) && forall|
            i: int,
        |
            0 <= i < a.len() ==> #[trigger] bin_follows(m, sx, i, prev[i], share, a[i]);
    let (y, sy) = choose|y: Vec<Level>, sy: M::Spectrum|
        is_buffer(m, mono, y@) && #[trigger] call_ensures(M::transform, (m, &y), sy) && forall|
            i: int,
        |
            0 <= i < b.len() ==> #[trigger] bin_follows(m, sy, i, prev[i], share, b[i]);
    lemma_buffer_settled(m, mono, x@, y@);
    assert(sx == sy);
    assert forall|i: int| 0 <= i < a.len() implies a[i] == b[i] by {
        assert(bin_follows(m, sx, i, prev[i], share, a[i]));
        assert(bin_follows(m, sx, i, prev[i], share, b[i]));
        lemma_bin_settled(m, sx, i, prev[i], share, a[i], b[i]);
    }
    assert(a =~= b);
}

/// A smoothed bin has one outcome.
proof fn lemma_bin_settled<M: Math>(
    m: &M,
    spectrum: M::Spectrum,
    bin: int,
    prev: Level,
    share: Level,
    a: Level,
    b: Level,
)
    requires
        crate::math::spectrum_is_settled(m),
        bin_follows(m, spectrum, bin, prev, share, a),
        bin_follows(m, spectrum, bin, prev, share, b),
    ensures
        a == b,
{
    let x = choose|x: Level| #[trigger]
        is_bin_level(m, spectrum, bin, x) && is_smoothed(m, prev, x, share, a);
    let y = choose|y: Level| #[trigger]
        is_bin_level(m, spectrum, bin, y) && is_smoothed(m, prev, y, share, b);
    assert(x == y);
}

/// Where every formula has one outcome, so have the sample buffers: frames taken in from one
/// state lead to one state.
pub proof fn samples_have_one_outcome<M: Math>(
    m: &M,
    s: TrackState,
    frames: Seq<[Level; 2]>,
    a: TrackState,
    b: TrackState,
)
    requires
        crate::math::spectrum_is_settled(m),
        s.wf(),
        takes_samples(m, s, frames, a),
        takes_samples(m, s, frames, b),
    ensures
        a == b,
        a.wf(),
    decreases frames.len(),
{
    if frames.len() > 0 {
        let x = choose|x: TrackState|
            takes_samples(m, s, frames.drop_last(), x) && #[trigger] takes_sample(
                m,
                x,
                frames.last(),
                a,
            );
        let y = choose|y: TrackState|
            takes_samples(m, s, frames.drop_last(), y) && #[trigger] takes_sample(
                m,
                y,
                frames.last(),
                b,
            );
        samples_have_one_outcome(m, s, frames.drop_last(), x, y);
        sample_keeps_wf(m, x, frames.last(), a);
        assert(a.mono == b.mono);
        if x.since + 1 >= x.hop {
            lemma_spectrum_settled(m, a.mono, x.smooth, x.release, a.smooth, b.smooth);
        }
        assert(a =~= b);
    }
}

/// `a` and `b` are in one state.
pub open spec fn same_state<M: Math>(a: Analyzer<M>, b: Analyzer<M>) -> bool {
    &&& a.loudness@ == b.loudness@
    &&& a.correlation@ == b.correlation@
    &&& a.track() == b.track()
    &&& a.sample_rate == b.sample_rate
}

/// Where every formula has one outcome, equal analyzers that take in the same frames stay
/// equal.
pub proof fn processing_has_one_outcome<M: Math>(
    m: &M,
    a: Analyzer<M>,
    b: Analyzer<M>,
    frames: Seq<[Level; 2]>,
    a2: Analyzer<M>,
    b2: Analyzer<M>,
)
    requires
        crate::math::is_settled(m),
        a.wf(),
        same_state(a, b),
        is_processed(m, a, frames, a2),
        is_processed(m, b, frames, b2),
    ensures
        same_state(a2, b2),
{
    crate::loudness::frames_have_one_outcome(m, a.loudness@, frames, a2.loudness@, b2.loudness@);
    crate::correlation::pairs_have_one_outcome(
        m,
        a.correlation@,
        frames,
        a2.correlation@,
        b2.correlation@,
    );
    samples_have_one_outcome(m, a.track(), frames, a2.track(), b2.track());
}

/// Of two equal analyzers one takes in a stream at once, the other one in two pieces: they end
/// up equal, and so do their next snapshots.
pub proof fn pieces_leave_equal_states<M: Math>(
    m: &M,
    a: Analyzer<M>,
    b: Analyzer<M>,
    x: Seq<[Level; 2]>,
    y: Seq<[Level; 2]>,
    a2: Analyzer<M>,
    b1: Analyzer<M>,
    b2: Analyzer<M>,
)
    requires
        crate::math::is_settled(m),
        a.wf(),
        same_state(a, b),
        is_processed(m, a, x + y, a2),
        is_processed(m, b, x, b1),
        is_processed(m, b1, y, b2),
    ensures
        same_state(a2, b2),
        forall|s: Snapshot, t: Snapshot| #[trigger]
            is_snapshot(m, a2, s) && #[trigger] is_snapshot(m, b2, t) ==> same_results(s, t),
{
    processing_in_pieces(m, b, x, b1, y, b2);
    processing_has_one_outcome(m, a, b, x + y, a2, b2);
    assert forall|s: Snapshot, t: Snapshot| #[trigger]
        is_snapshot(m, a2, s) && #[trigger] is_snapshot(m, b2, t) implies same_results(s, t) by {
        snapshot_has_one_outcome(m, a2, b2, s, t);
        assert(same_columns(s, t));
    }
}

/// Taking in nothing changes nothing.
pub proof fn processing_nothing_changes_nothing<M: Math>(m: &M, a: Analyzer<M>, b: Analyzer<M>)
    requires
        is_processed(m, a, Seq::empty(), b),
    ensures
        same_state(a, b),
{
}

/// `s` and `t` agree in everything but their columns.
pub open spec fn same_readings(s: Snapshot, t: Snapshot) -> bool {
    &&& s.spectrum_db@ == t.spectrum_db@
    &&& s.momentary == t.momentary
    &&& s.short_term == t.short_term
    &&& s.integrated == t.integrated
    &&& s.peak_db == t.peak_db
    &&& s.peak_hold_db == t.peak_hold_db
    &&& s.correlation == t.correlation
    &&& s.gonio@ == t.gonio@
    &&& s.sample_rate == t.sample_rate
}

/// `s` and `t` hold the same columns.
pub open spec fn same_columns(s: Snapshot, t: Snapshot) -> bool {
    column_views(s.columns@) == column_views(t.columns@)
}

/// `s` and `t` agree in everything.
pub open spec fn same_results(s: Snapshot, t: Snapshot) -> bool {
    same_readings(s, t) && same_columns(s, t)
}

/// Where every formula has one outcome, the readings of analyzers that are equal but for their
/// pending columns are equal.
proof fn lemma_readings_settled<M: Math>(
    m: &M,
    a: Analyzer<M>,
    b: Analyzer<M>,
    s: Snapshot,
    t: Snapshot,
)
    requires
        crate::math::is_settled(m),
        a.loudness@ == b.loudness@,
        a.correlation@ == b.correlation@,
        a.sample_rate == b.sample_rate,
        a.track().smooth == b.track().smooth,
        a.track().gonio == b.track().gonio,
        is_snapshot(m, a, s),
        is_snapshot(m, b, t),
    ensures
        same_readings(s, t),
{
    let l = a.loudness@;
    let k = b.loudness@;
    assert(l.sum_mom == k.sum_mom && l.sum_st == k.sum_st && l.integrated == k.integrated);
    assert(l.peak == k.peak && l.peak_hold == k.peak_hold);
    let c = a.correlation@;
    let d = b.correlation@;
    assert(c.sll == d.sll && c.srr == d.srr && c.slr == d.slr);
    crate::loudness::readout_has_one_outcome(
        m,
        l.sum_mom,
        l.momentary_window().len(),
        s.momentary,
        t.momentary,
    );
    crate::loudness::readout_has_one_outcome(
        m,
        l.sum_st,
        l.powers.len(),
        s.short_term,
        t.short_term,
    );
    crate::correlation::value_has_one_outcome(
        m,
        c.sll,
        c.srr,
        c.slr,
        s.correlation,
        t.correlation,
    );
    assert forall|i: int| 0 <= i < 2 implies s.peak_db[i] == t.peak_db[i] && s.peak_hold_db[i]
        == t.peak_hold_db[i] by {
        assert(is_db(m, l.peak[i], s.peak_db[i]) && is_db(m, l.peak[i], t.peak_db[i]));
        assert(is_db(m, l.peak_hold[i], s.peak_hold_db[i]));
        assert(is_db(m, l.peak_hold[i], t.peak_hold_db[i]));
    }
    assert(s.peak_db =~= t.peak_db);
    assert(s.peak_hold_db =~= t.peak_hold_db);
}

/// Where every formula has one outcome, the snapshots of equal analyzers are equal.
pub proof fn snapshot_has_one_outcome<M: Math>(
    m: &M,
    a: Analyzer<M>,
    b: Analyzer<M>,
    s: Snapshot,
    t: Snapshot,
)
    requires
        crate::math::is_settled(m),
        same_state(a, b),
        is_snapshot(m, a, s),
        is_snapshot(m, b, t),
    ensures
        same_results(s, t),
{
    lemma_readings_settled(m, a, b, s, t);
}

/// Of two snapshots in a row the second one has no columns, and agrees with the first one in
/// everything else.
pub proof fn second_snapshot_differs_in_columns_alone<M: Math>(
    m: &M,
    a: Analyzer<M>,
    s: Snapshot,
    b: Analyzer<M>,
    t: Snapshot,
)
    requires
        crate::math::is_settled(m),
        is_snapshot(m, a, s),
        is_drained(a, b),
        is_snapshot(m, b, t),
    ensures
        same_readings(s, t),
        t.columns@.len() == 0,
{
    lemma_readings_settled(m, a, b, s, t);
    assert(column_views(t.columns@).len() == t.columns@.len());
}

} // verus!
