//! The meter engine: it takes in captured audio, keeps the analysis and the spectrogram,
//! and says what to upload.

use crate::analysis::{Analyzer, Snapshot};
use crate::level::{Level, Wide, ZERO};
use crate::math::Math;
use crate::spectrogram::{Image, Patch, Spectrogram};
use vstd::prelude::*;

verus! {

/// Starting width of the spectrogram.
pub const SPECTRO_W0: usize = 512;

/// Starting height of the spectrogram.
pub const SPECTRO_H0: usize = 320;

/// Least width and height of the spectrogram.
pub const SPECTRO_MIN: usize = 64;

/// Largest width and height of the spectrogram.
pub const SPECTRO_MAX: usize = 4096;

/// Bit pattern of 3.5: time that the full width of the spectrogram covers, in seconds.
pub const SPECTRO_SPAN_SECS: u32 = 0x4060_0000;

/// Bit pattern of 1.5: how far the smooth scroll trails the newest column, in columns.
pub const SCROLL_TARGET_LAG: u64 = 0x3FF8_0000_0000_0000;

/// Bit pattern of 0.01: share of the remaining error corrected per tick.
pub const SCROLL_CORRECTION: u64 = 0x3F84_7AE1_47AE_147B;

/// Bit pattern of 8: error past which the scroll snaps instead of easing, in columns.
pub const SCROLL_RESYNC_COLUMNS: u64 = 0x4020_0000_0000_0000;

/// Bit pattern of 4: furthest that the display trails the newest column, in columns.
pub const SCROLL_MAX_LAG: u64 = 0x4010_0000_0000_0000;

/// Ticks closer together than a ninetieth of a second are skipped: the first whole number
/// of nanoseconds that is not.
pub const MIN_TICK_NANOS: u64 = 11_111_112;

/// Longest time that one tick accounts for: a quarter of a second.
pub const MAX_TICK_NANOS: u64 = 250_000_000;

/// Bit pattern of 0.001: gain up to which there is nothing left to recover.
pub const LEAST_GAIN: u32 = 0x3A83_126F;

/// Sample rate assumed before a capture starts.
pub const INITIAL_RATE: u32 = 48_000;

/// The engine.
pub struct Engine<M: Math> {
    pub analyzer: Analyzer<M>,
    /// Latest results.
    pub snapshot: Snapshot,
    pub spectro: Spectrogram,
    /// A texture of the right size exists.
    pub has_texture: bool,
    /// Size that the spectrogram should have from the next tick on.
    pub spectro_target: Option<[usize; 2]>,
    /// Continuous display position, in columns.
    pub spectro_scroll: Wide,
    /// How far behind the newest column the display sits, in columns.
    pub scroll_lag: Level,
    /// Time of the last tick, in nanoseconds.
    pub last_tick: Option<u64>,
    /// Divide the gain of the endpoint back out.
    pub compensate: bool,
}

/// What a tick asks the surface to upload: a whole image first, where there is no texture
/// yet, then single columns.
pub struct Uploads {
    pub whole: Option<Image>,
    pub columns: Vec<Patch>,
}

/// What a window needs to draw one frame.
pub struct FrameView {
    pub snapshot: Snapshot,
    pub has_texture: bool,
    pub spectro_head: usize,
    pub spectro_size: [usize; 2],
    pub scroll_lag: Level,
}

/// A size that a spectrogram can have.
pub open spec fn fits(size: [usize; 2]) -> bool {
    1 <= size[0] <= SPECTRO_MAX && 1 <= size[1] <= SPECTRO_MAX
}

/// A pixel count between the least and the largest size.
pub open spec fn bounded_size(n: usize) -> usize {
    if n < SPECTRO_MIN {
        SPECTRO_MIN
    } else if n > SPECTRO_MAX {
        SPECTRO_MAX
    } else {
        n
    }
}

fn bound_size(n: usize) -> (b: usize)
    ensures
        b == bounded_size(n),
{
    if n < SPECTRO_MIN {
        SPECTRO_MIN
    } else if n > SPECTRO_MAX {
        SPECTRO_MAX
    } else {
        n
    }
}

/// The size that a surface of `w` times `h` pixels wants, when it is not `size` already.
pub fn wanted_size(w: usize, h: usize, size: [usize; 2]) -> (want: Option<[usize; 2]>)
    ensures
        want is None <==> bounded_size(w) == size[0] && bounded_size(h) == size[1],
        want matches Some(s) ==> s[0] == bounded_size(w) && s[1] == bounded_size(h) && fits(s),
{
    let bw = bound_size(w);
    let bh = bound_size(h);
    if bw == size[0] && bh == size[1] {
        None
    } else {
        Some([bw, bh])
    }
}

/// The gain to divide out, if compensation is on and the gain is known and not next to
/// nothing.
pub open spec fn gain_to_undo(compensate: bool, volume: Option<Level>) -> Option<Level> {
    match volume {
        Some(g) if compensate && g.exceeds(Level { bits: LEAST_GAIN }) => Some(g),
        _ => None,
    }
}

/// `to` holds the levels of `from` times `by`.
pub open spec fn is_scaled<M: Math>(
    m: &M,
    from: Seq<[Level; 2]>,
    by: Level,
    to: Seq<[Level; 2]>,
) -> bool {
    &&& to.len() == from.len()
    &&& forall|i: int|
        0 <= i < from.len() ==> {
            &&& call_ensures(M::scale, (m, from[i][0], by), (#[trigger] to[i])[0])
            &&& call_ensures(M::scale, (m, from[i][1], by), to[i][1])
        }
}

/// `to` is what the meters take in when `from` was captured.
pub open spec fn is_compensated<M: Math>(
    m: &M,
    from: Seq<[Level; 2]>,
    gain: Option<Level>,
    to: Seq<[Level; 2]>,
) -> bool {
    match gain {
        Some(g) => exists|by: Level| #[trigger]
            call_ensures(M::inverse, (m, g), by) && is_scaled(m, from, by, to),
        None => to == from,
    }
}

/// Multiplies every level by `by`.
pub fn scale_frames<M: Math>(m: &M, frames: &Vec<[Level; 2]>, by: Level) -> (scaled: Vec<
    [Level; 2],
>)
    ensures
        is_scaled(m, frames@, by, scaled@),
{
    let mut scaled: Vec<[Level; 2]> = Vec::new();
    let mut i: usize = 0;
    while i < frames.len()
        invariant
            i <= frames@.len(),
            scaled@.len() == i,
            forall|j: int|
                0 <= j < i ==> {
                    &&& call_ensures(M::scale, (m, frames@[j][0], by), (#[trigger] scaled@[j])[0])
                    &&& call_ensures(M::scale, (m, frames@[j][1], by), scaled@[j][1])
                },
        decreases frames@.len() - i,
    {
        let frame = frames[i];
        let left = m.scale(frame[0], by);
        let right = m.scale(frame[1], by);
        scaled.push([left, right]);
        i += 1;
    }
    scaled
}

/// `to` follows `from` as the scroll position `nanos` nanoseconds later, and `lag` is how
/// far behind the newest column the display then sits: the position moves with the time,
/// eases toward the number of columns written, and snaps to it when it is far off.
pub open spec fn is_scrolled<M: Math>(
    m: &M,
    written: u64,
    width: int,
    nanos: u64,
    from: Wide,
    to: Wide,
    lag: Level,
) -> bool {
    &&& exists|moved: Wide, target: Wide, error: Wide| #[trigger]
        call_ensures(
            M::scroll_by,
            (m, from, nanos, width as usize, Level { bits: SPECTRO_SPAN_SECS }),
            moved,
        ) && call_ensures(M::count_minus, (m, written, Wide { bits: SCROLL_TARGET_LAG }), target)
            && #[trigger] call_ensures(M::wide_minus, (m, target, moved), error)
            && if error.unsigned().exceeds(Wide { bits: SCROLL_RESYNC_COLUMNS }) {
            to == target
        } else {
            call_ensures(M::ease, (m, moved, error, Wide { bits: SCROLL_CORRECTION }), to)
        }
    &&& is_lag(m, written, to, lag)
}

/// `lag` is how far `position` lies behind the newest column: between 0 and 4 columns.
pub open spec fn is_lag<M: Math>(m: &M, written: u64, position: Wide, lag: Level) -> bool {
    exists|behind: Wide| #[trigger]
        call_ensures(M::count_minus, (m, written, position), behind) && call_ensures(
            M::narrow,
            (m, behind.clamp_to(Wide { bits: 0 }, Wide { bits: SCROLL_MAX_LAG })),
            lag,
        )
}

/// 0 is below 4.
proof fn lemma_lag_bounds()
    ensures
        (Wide { bits: 0 }).within(Wide { bits: SCROLL_MAX_LAG }),
{
    vstd::arithmetic::power2::lemma_pow2_pos(52);
    assert((Wide { bits: 0 }).units() == 0);
    assert((Wide { bits: SCROLL_MAX_LAG }).units() >= 0);
}

/// `b` is the analyzer `a` with one column per pixel of width, so that the full width
/// always covers the same time.
pub open spec fn is_synced<M: Math>(m: &M, a: Analyzer<M>, width: int, b: Analyzer<M>) -> bool {
    &&& exists|hz: Level| #[trigger]
        call_ensures(
            M::column_rate,
            (m, width as usize, Level { bits: SPECTRO_SPAN_SECS }),
            hz,
        ) && crate::analysis::is_rated(m, a.track(), a.sample_rate, hz, b.track())
    &&& b.sample_rate == a.sample_rate
    &&& b.loudness == a.loudness
    &&& b.correlation == a.correlation
}

/// `b` is the engine `a` resized to `w` times `h`.
pub open spec fn is_resized<M: Math>(m: &M, a: Engine<M>, w: int, h: int, b: Engine<M>) -> bool {
    if w == a.spectro.width() && h == a.spectro.height() {
        b == a
    } else {
        &&& b.spectro.width() == w
        &&& b.spectro.height() == h
        &&& b.spectro.head == 0
        &&& b.spectro.written == a.spectro.written
        &&& b.spectro.mapped_sr == a.spectro.mapped_sr
        &&& b.spectro.display() == crate::spectrogram::resized(
            a.spectro.display(),
            a.spectro.height(),
            w,
            h,
        )
        &&& !b.has_texture
        &&& if h == a.spectro.height() {
            b.spectro.row_bands == a.spectro.row_bands
        } else {
            crate::spectrogram::are_row_bands(m, a.spectro.mapped_sr, h, b.spectro.row_bands@)
        }
        &&& if w == a.spectro.width() {
            b.analyzer == a.analyzer
        } else {
            is_synced(m, a.analyzer, w, b.analyzer)
        }
        &&& call_ensures(
            M::count_minus,
            (m, b.spectro.written, Wide { bits: SCROLL_TARGET_LAG }),
            b.spectro_scroll,
        )
        &&& b == Engine {
            spectro: b.spectro,
            has_texture: b.has_texture,
            analyzer: b.analyzer,
            spectro_scroll: b.spectro_scroll,
            ..a
        }
    }
}

/// `b` is the engine `a` after it has taken in the captured `frames`.
pub open spec fn is_fed<M: Math>(
    m: &M,
    a: Engine<M>,
    frames: Seq<[Level; 2]>,
    volume: Option<Level>,
    b: Engine<M>,
) -> bool {
    &&& if frames.len() == 0 {
        b.analyzer == a.analyzer
    } else {
        exists|taken: Seq<[Level; 2]>|
            is_compensated(m, frames, gain_to_undo(a.compensate, volume), taken)
                && #[trigger] crate::analysis::is_processed(m, a.analyzer, taken, b.analyzer)
    }
    &&& b == Engine { analyzer: b.analyzer, ..a }
}

impl<M: Math> Engine<M> {
    /// Every part is well formed, the spectrogram has a size that it can have, and so has
    /// the one asked for.
    pub open spec fn wf(self) -> bool {
        &&& self.analyzer.wf()
        &&& self.spectro.wf()
        &&& fits(self.spectro.img.size)
        &&& self.spectro_target matches Some(size) ==> fits(size)
    }

    /// An engine before the first capture.
    pub fn new(m: &M) -> (e: Self)
        ensures
            e.wf(),
            exists|a: Analyzer<M>|
                is_new_analyzer(m, INITIAL_RATE, a) && #[trigger] crate::analysis::is_drained(
                    a,
                    e.analyzer,
                ) && crate::analysis::is_snapshot(m, a, e.snapshot),
            e.spectro.img.size[0] == SPECTRO_W0,
            e.spectro.img.size[1] == SPECTRO_H0,
            e.spectro.img.pixels@ == Seq::new(
                (SPECTRO_W0 * SPECTRO_H0) as nat,
                |i: int| crate::spectrogram::blank(),
            ),
            e.spectro.head == 0,
            e.spectro.written == 0,
            e.spectro.row_bands@ == Seq::<(Level, Level)>::empty(),
            e.spectro.mapped_sr == 0,
            !e.has_texture,
            e.spectro_target is None,
            e.spectro_scroll == (Wide { bits: 0 }),
            e.scroll_lag == (Level { bits: ZERO }),
            e.last_tick is None,
            !e.compensate,
    {
        let mut analyzer = Analyzer::new(m, INITIAL_RATE);
        let ghost fresh = analyzer;
        let snapshot = analyzer.snapshot(m);
        let e = Engine {
            analyzer,
            snapshot,
            spectro: Spectrogram::new([SPECTRO_W0, SPECTRO_H0]),
            has_texture: false,
            spectro_target: None,
            spectro_scroll: Wide { bits: 0 },
            scroll_lag: Level { bits: ZERO },
            last_tick: None,
            compensate: false,
        };
        proof {
            assert(is_new_analyzer(m, INITIAL_RATE, fresh));
            assert(crate::analysis::is_snapshot(m, fresh, e.snapshot));
            assert(crate::analysis::is_drained(fresh, e.analyzer));
        }
        e
    }

    /// Decides whether a tick at the time `now` runs, and how much time it accounts for, in
    /// nanoseconds. Ticks too close to the last one do not run.
    pub fn begin_tick(&mut self, now: u64) -> (dt: Option<u64>)
        ensures
            dt == tick_time(old(self).last_tick, now),
            dt is None ==> *final(self) == *old(self),
            dt is Some ==> *final(self) == (Engine { last_tick: Some(now), ..*old(self) }),
    {
        let dt = match self.last_tick {
            Some(t) => {
                let d = if now >= t {
                    now - t
                } else {
                    0
                };
                if d < MIN_TICK_NANOS {
                    return None;
                }
                if d > MAX_TICK_NANOS {
                    MAX_TICK_NANOS
                } else {
                    d
                }
            },
            None => 0,
        };
        self.last_tick = Some(now);
        Some(dt)
    }

    /// Gives the analyzer one column per pixel of width.
    pub fn sync_column_rate(&mut self, m: &M)
        requires
            old(self).wf(),
        ensures
            final(self).wf(),
            is_synced(m, old(self).analyzer, old(self).spectro.width(), final(self).analyzer),
            *final(self) == (Engine { analyzer: final(self).analyzer, ..*old(self) }),
    {
        let hz = m.column_rate(self.spectro.img.size[0], Level { bits: SPECTRO_SPAN_SECS });
        self.analyzer.set_column_rate(m, hz);
    }

    /// Points the engine at a new capture with the sample rate `rate`, and starts the
    /// analysis afresh.
    pub fn attach(&mut self, m: &M, rate: u32)
        requires
            old(self).wf(),
        ensures
            final(self).wf(),
            exists|a: Analyzer<M>|
                is_new_analyzer(m, rate, a) && #[trigger] is_synced(
                    m,
                    a,
                    old(self).spectro.width(),
                    final(self).analyzer,
                ),
            crate::spectrogram::are_row_bands(
                m,
                rate,
                old(self).spectro.height(),
                final(self).spectro.row_bands@,
            ),
            final(self).spectro == (Spectrogram {
                row_bands: final(self).spectro.row_bands,
                mapped_sr: rate,
                ..old(self).spectro
            }),
            *final(self) == (Engine {
                analyzer: final(self).analyzer,
                spectro: final(self).spectro,
                ..*old(self)
            }),
    {
        self.analyzer = Analyzer::new(m, rate);
        let ghost fresh = self.analyzer;
        self.sync_column_rate(m);
        self.spectro.rebuild_row_bands(m, rate);
        assert(is_new_analyzer(m, rate, fresh));
    }

    /// Resizes the spectrogram to `w` times `h` pixels and carries the history over.
    pub fn resize_spectro(&mut self, m: &M, w: usize, h: usize)
        requires
            old(self).wf(),
            1 <= w <= SPECTRO_MAX,
            1 <= h <= SPECTRO_MAX,
        ensures
            final(self).wf(),
            is_resized(m, *old(self), w as int, h as int, *final(self)),
    {
        let ow = self.spectro.img.size[0];
        let oh = self.spectro.img.size[1];
        assert(w * h <= 0x100_0000 && h * oh <= 0x100_0000) by (nonlinear_arith)
            requires
                0 <= w <= 4096,
                0 <= h <= 4096,
                0 <= oh <= 4096,
        ;
        let changed = self.spectro.resize(w, h);
        if !changed {
            return;
        }
        self.has_texture = false;
        if h != oh {
            let rate = self.spectro.mapped_sr;
            self.spectro.rebuild_row_bands(m, rate);
        }
        if w != ow {
            self.sync_column_rate(m);
        }
        self.spectro_scroll = m.count_minus(
            self.spectro.written,
            Wide { bits: SCROLL_TARGET_LAG },
        );
    }

    /// Moves the smooth scroll on by `nanos` nanoseconds and sets how far behind the newest
    /// column the display sits.
    pub fn advance_scroll(&mut self, m: &M, nanos: u64)
        ensures
            is_scrolled(
                m,
                old(self).spectro.written,
                old(self).spectro.width(),
                nanos,
                old(self).spectro_scroll,
                final(self).spectro_scroll,
                final(self).scroll_lag,
            ),
            *final(self) == (Engine {
                spectro_scroll: final(self).spectro_scroll,
                scroll_lag: final(self).scroll_lag,
                ..*old(self)
            }),
    {
        proof {
            lemma_lag_bounds();
        }
        let written = self.spectro.written;
        let moved = m.scroll_by(
            self.spectro_scroll,
            nanos,
            self.spectro.img.size[0],
            Level { bits: SPECTRO_SPAN_SECS },
        );
        let target = m.count_minus(written, Wide { bits: SCROLL_TARGET_LAG });
        let error = m.wide_minus(target, moved);
        self.spectro_scroll = if error.abs().above(Wide { bits: SCROLL_RESYNC_COLUMNS }) {
            target
        } else {
            m.ease(moved, error, Wide { bits: SCROLL_CORRECTION })
        };
        let behind = m.count_minus(written, self.spectro_scroll);
        let bounded = behind.clamped(Wide { bits: 0 }, Wide { bits: SCROLL_MAX_LAG });
        self.scroll_lag = m.narrow(bounded);
        assert(is_lag(m, written, self.spectro_scroll, self.scroll_lag));
    }

    /// The gain to divide out, given the gain that the endpoint applies.
    pub fn active_gain(&self, volume: Option<Level>) -> (gain: Option<Level>)
        ensures
            gain == gain_to_undo(self.compensate, volume),
    {
        if !self.compensate {
            return None;
        }
        match volume {
            Some(g) => if g.above(Level { bits: LEAST_GAIN }) {
                Some(g)
            } else {
                None
            },
            None => None,
        }
    }

    /// Takes in captured frames, with the gain of the endpoint undone where that is asked
    /// for.
    pub fn feed(&mut self, m: &M, frames: &Vec<[Level; 2]>, volume: Option<Level>)
        requires
            old(self).wf(),
        ensures
            final(self).wf(),
            is_fed(m, *old(self), frames@, volume, *final(self)),
    {
        if frames.len() == 0 {
            return;
        }
        let gain = self.active_gain(volume);
        match gain {
            Some(g) => {
                let by = m.inverse(g);
                let scaled = scale_frames(m, frames, by);
                self.analyzer.process(m, scaled.as_slice());
                proof {
                    assert(is_compensated(m, frames@, gain, scaled@));
                    assert(crate::analysis::is_processed(
                        m,
                        old(self).analyzer,
                        scaled@,
                        self.analyzer,
                    ));
                }
            },
            None => {
                self.analyzer.process(m, frames.as_slice());
                proof {
                    assert(is_compensated(m, frames@, gain, frames@));
                    assert(crate::analysis::is_processed(
                        m,
                        old(self).analyzer,
                        frames@,
                        self.analyzer,
                    ));
                }
            },
        }
    }

    /// Fetches the results and brings the spectrogram up to date.
    pub fn redraw(&mut self, m: &M, nanos: u64) -> (up: Uploads)
        requires
            old(self).wf(),
            old(self).spectro.written + SPECTRO_MAX <= u64::MAX,
        ensures
            final(self).wf(),
            is_redrawn(m, *old(self), nanos, *final(self), up),
    {
        let snap = self.analyzer.snapshot(m);
        if self.spectro.mapped_sr != snap.sample_rate {
            self.spectro.rebuild_row_bands(m, snap.sample_rate);
        }
        let whole = if self.has_texture {
            None
        } else {
            Some(self.spectro.img.clone())
        };
        self.has_texture = true;
        let ghost ready = self.spectro;
        proof {
            let views = crate::analysis::column_views(snap.columns@);
            assert forall|i: int| 0 <= i < snap.columns@.len() implies (
            #[trigger] snap.columns@[i])@.len() <= crate::band::MAX_BINS by {
                assert(views[i] == snap.columns@[i]@);
                assert(old(self).analyzer.track().columns[i].len()
                    == crate::analysis::SPECTRUM_BINS);
            }
        }
        let columns = self.spectro.push_spectro_columns(m, &snap.columns);
        let ghost pushed = self.spectro;
        self.snapshot = snap;
        self.advance_scroll(m, nanos);
        proof {
            assert(ready == (Spectrogram {
                row_bands: self.spectro.row_bands,
                mapped_sr: self.spectro.mapped_sr,
                ..old(self).spectro
            }));
        }
        Uploads { whole, columns }
    }

    /// Runs the engine forward by `nanos` nanoseconds: a pending resize, then the captured
    /// frames, then the display.
    pub fn tick(
        &mut self,
        m: &M,
        nanos: u64,
        frames: &Vec<[Level; 2]>,
        volume: Option<Level>,
    ) -> (up: Uploads)
        requires
            old(self).wf(),
            old(self).spectro.written + SPECTRO_MAX <= u64::MAX,
        ensures
            final(self).wf(),
            is_ticked(m, *old(self), nanos, frames@, volume, *final(self), up),
    {
        let target = self.spectro_target.take();
        let ghost taken = *self;
        if let Some(size) = target {
            self.resize_spectro(m, size[0], size[1]);
        }
        let ghost sized = *self;
        self.feed(m, frames, volume);
        let ghost fed = *self;
        let up = self.redraw(m, nanos);
        proof {
            assert(is_fed(m, sized, frames@, volume, fed));
            assert(is_redrawn(m, fed, nanos, *self, up));
        }
        up
    }

    /// Asks for another size of the spectrogram, from the next tick on.
    pub fn request_size(&mut self, want: Option<[usize; 2]>)
        requires
            old(self).wf(),
            want matches Some(size) ==> fits(size),
        ensures
            final(self).wf(),
            *final(self) == (Engine {
                spectro_target: if want is Some {
                    want
                } else {
                    old(self).spectro_target
                },
                ..*old(self)
            }),
    {
        if want.is_some() {
            self.spectro_target = want;
        }
    }

    /// Copies out what a window needs to draw.
    pub fn view(&self) -> (v: FrameView)
        ensures
            v.snapshot.spectrum_db@ == self.snapshot.spectrum_db@,
            crate::analysis::column_views(v.snapshot.columns@) == crate::analysis::column_views(
                self.snapshot.columns@,
            ),
            v.snapshot.gonio@ == self.snapshot.gonio@,
            v.snapshot == (Snapshot {
                spectrum_db: v.snapshot.spectrum_db,
                columns: v.snapshot.columns,
                gonio: v.snapshot.gonio,
                ..self.snapshot
            }),
            v.has_texture == self.has_texture,
            v.spectro_head == self.spectro.head,
            v.spectro_size == self.spectro.img.size,
            v.scroll_lag == self.scroll_lag,
    {
        FrameView {
            snapshot: self.snapshot.clone(),
            has_texture: self.has_texture,
            spectro_head: self.spectro.head,
            spectro_size: self.spectro.img.size,
            scroll_lag: self.scroll_lag,
        }
    }
}

/// `b` is the engine `a` after the results have been fetched and the spectrogram has been
/// brought up to date, and `up` are the uploads.
pub open spec fn is_redrawn<M: Math>(
    m: &M,
    a: Engine<M>,
    nanos: u64,
    b: Engine<M>,
    up: Uploads,
) -> bool {
    let rate = a.analyzer.sample_rate;
    &&& crate::analysis::is_snapshot(m, a.analyzer, b.snapshot)
    &&& crate::analysis::is_drained(a.analyzer, b.analyzer)
    &&& b.spectro.mapped_sr == rate
    &&& if a.spectro.mapped_sr == rate {
        b.spectro.row_bands == a.spectro.row_bands
    } else {
        crate::spectrogram::are_row_bands(m, rate, a.spectro.height(), b.spectro.row_bands@)
    }
    &&& if a.has_texture {
        up.whole is None
    } else {
        up.whole matches Some(img) && img.size == a.spectro.img.size && img.pixels@
            == a.spectro.img.pixels@
    }
    &&& b.has_texture
    &&& crate::spectrogram::is_pushed(
        m,
        Spectrogram {
            row_bands: b.spectro.row_bands,
            mapped_sr: b.spectro.mapped_sr,
            ..a.spectro
        },
        b.snapshot.columns@,
        b.spectro,
        up.columns@,
    )
    &&& is_scrolled(
        m,
        b.spectro.written,
        b.spectro.width(),
        nanos,
        a.spectro_scroll,
        b.spectro_scroll,
        b.scroll_lag,
    )
    &&& b == Engine {
        analyzer: b.analyzer,
        snapshot: b.snapshot,
        spectro: b.spectro,
        has_texture: b.has_texture,
        spectro_scroll: b.spectro_scroll,
        scroll_lag: b.scroll_lag,
        ..a
    }
}

/// `b` is the engine `a` after a tick, and `up` are the uploads.
pub open spec fn is_ticked<M: Math>(
    m: &M,
    a: Engine<M>,
    nanos: u64,
    frames: Seq<[Level; 2]>,
    volume: Option<Level>,
    b: Engine<M>,
    up: Uploads,
) -> bool {
    let taken = Engine { spectro_target: None, ..a };
    exists|sized: Engine<M>, fed: Engine<M>|
        (match a.spectro_target {
            Some(size) => is_resized(m, taken, size[0] as int, size[1] as int, sized),
            None => sized == taken,
        }) && #[trigger] is_fed(m, sized, frames, volume, fed) && #[trigger] is_redrawn(
            m,
            fed,
            nanos,
            b,
            up,
        )
}

/// The time that a tick at `now` accounts for; none when it does not run.
pub open spec fn tick_time(last: Option<u64>, now: u64) -> Option<u64> {
    match last {
        None => Some(0),
        Some(t) => if now - t < MIN_TICK_NANOS {
            None
        } else if now - t > MAX_TICK_NANOS {
            Some(MAX_TICK_NANOS)
        } else {
            Some((now - t) as u64)
        },
    }
}

/// `a` is an analyzer that has seen nothing, at the default column rate.
pub open spec fn is_new_analyzer<M: Math>(m: &M, rate: u32, a: Analyzer<M>) -> bool {
    &&& a.wf()
    &&& a.sample_rate == rate
    &&& crate::analysis::is_fresh(m, rate, a.loudness@, a.correlation@)
    &&& crate::analysis::is_rated(
        m,
        crate::analysis::fresh_track(),
        rate,
        Level { bits: crate::analysis::DEFAULT_COLUMN_RATE_HZ },
        a.track(),
    )
}

/// The display never runs past the newest column, nor trails it by more than 4 columns: the
/// lag is the narrowed form of a quantity between 0 and 4, unless that is not a number.
pub proof fn lag_is_bounded<M: Math>(m: &M, written: u64, position: Wide, lag: Level)
    requires
        is_lag(m, written, position, lag),
    ensures
        exists|q: Wide| #[trigger]
            call_ensures(M::narrow, (m, q), lag) && (q.nan() || (Wide { bits: 0 }).within(q)
                && q.within(Wide { bits: SCROLL_MAX_LAG })),
{
    lemma_lag_bounds();
    let behind = choose|behind: Wide| #[trigger]
        call_ensures(M::count_minus, (m, written, position), behind) && call_ensures(
            M::narrow,
            (m, behind.clamp_to(Wide { bits: 0 }, Wide { bits: SCROLL_MAX_LAG })),
            lag,
        );
    let q = behind.clamp_to(Wide { bits: 0 }, Wide { bits: SCROLL_MAX_LAG });
    assert(call_ensures(M::narrow, (m, q), lag));
}

/// The formula that inverts a gain and the one that applies it have one outcome for their
/// arguments.
pub open spec fn gain_is_settled<M: Math>(m: &M) -> bool {
    &&& forall|x: Level, r: Level, q: Level| #[trigger]
        call_ensures(M::inverse, (m, x), r) && #[trigger] call_ensures(M::inverse, (m, x), q) ==> r
            == q
    &&& forall|x: Level, by: Level, r: Level, q: Level| #[trigger]
        call_ensures(M::scale, (m, x, by), r) && #[trigger] call_ensures(M::scale, (m, x, by), q)
            ==> r == q
}

/// Undoing a gain piece by piece is undoing it at once.
proof fn lemma_compensated_in_pieces<M: Math>(
    m: &M,
    f: Seq<[Level; 2]>,
    g: Seq<[Level; 2]>,
    gain: Option<Level>,
    f2: Seq<[Level; 2]>,
    g2: Seq<[Level; 2]>,
)
    requires
        gain_is_settled(m),
        is_compensated(m, f, gain, f2),
        is_compensated(m, g, gain, g2),
    ensures
        is_compensated(m, f + g, gain, f2 + g2),
{
    if let Some(v) = gain {
        let by = choose|by: Level| #[trigger]
            call_ensures(M::inverse, (m, v), by) && is_scaled(m, f, by, f2);
        assert(is_scaled(m, g, by, g2));
        let all = f + g;
        let all2 = f2 + g2;
        assert forall|i: int| 0 <= i < all.len() implies call_ensures(
            M::scale,
            (m, all[i][0], by),
            (#[trigger] all2[i])[0],
        ) && call_ensures(M::scale, (m, all[i][1], by), all2[i][1]) by {
            if i < f.len() {
                assert(all2[i] == f2[i]);
            } else {
                assert(all2[i] == g2[i - f.len()]);
            }
        }
        assert(is_scaled(m, all, by, all2));
    }
}

/// How the captured frames are dealt out to ticks does not matter to the analysis: taking in
/// `f` and then `g` is taking in both at once, whether a gain is undone or not.
pub proof fn feeding_in_pieces<M: Math>(
    m: &M,
    a: Engine<M>,
    f: Seq<[Level; 2]>,
    b: Engine<M>,
    g: Seq<[Level; 2]>,
    c: Engine<M>,
    volume: Option<Level>,
)
    requires
        gain_is_settled(m),
        is_fed(m, a, f, volume, b),
        is_fed(m, b, g, volume, c),
    ensures
        is_fed(m, a, f + g, volume, c),
{
    if f.len() == 0 {
        assert(f + g =~= g);
    } else if g.len() == 0 {
        assert(f + g =~= f);
    } else {
        let gain = gain_to_undo(a.compensate, volume);
        let f2 = choose|f2: Seq<[Level; 2]>|
            is_compensated(m, f, gain, f2) && #[trigger] crate::analysis::is_processed(
                m,
                a.analyzer,
                f2,
                b.analyzer,
            );
        let g2 = choose|g2: Seq<[Level; 2]>|
            is_compensated(m, g, gain, g2) && #[trigger] crate::analysis::is_processed(
                m,
                b.analyzer,
                g2,
                c.analyzer,
            );
        lemma_compensated_in_pieces(m, f, g, gain, f2, g2);
        crate::analysis::processing_in_pieces(m, a.analyzer, f2, b.analyzer, g2, c.analyzer);
        assert(crate::analysis::is_processed(m, a.analyzer, f2 + g2, c.analyzer));
    }
}

/// Undoing a gain has one outcome.
proof fn lemma_compensation_settled<M: Math>(
    m: &M,
    f: Seq<[Level; 2]>,
    gain: Option<Level>,
    a: Seq<[Level; 2]>,
    b: Seq<[Level; 2]>,
)
    requires
        gain_is_settled(m),
        is_compensated(m, f, gain, a),
        is_compensated(m, f, gain, b),
    ensures
        a == b,
{
    if let Some(v) = gain {
        let by = choose|by: Level| #[trigger]
            call_ensures(M::inverse, (m, v), by) && is_scaled(m, f, by, a);
        assert(is_scaled(m, f, by, b));
        assert forall|i: int| 0 <= i < f.len() implies a[i] == b[i] by {
            assert(a[i][0] == b[i][0] && a[i][1] == b[i][1]);
            assert(a[i] =~= b[i]);
        }
        assert(a =~= b);
    }
}

/// Where every formula has one outcome, an engine that is fed a stream in two pieces has its
/// analyzer in the state of one that is fed it at once.
pub proof fn feeding_in_pieces_leaves_equal_states<M: Math>(
    m: &M,
    a: Engine<M>,
    f: Seq<[Level; 2]>,
    b: Engine<M>,
    g: Seq<[Level; 2]>,
    c: Engine<M>,
    d: Engine<M>,
    volume: Option<Level>,
)
    requires
        gain_is_settled(m),
        crate::math::is_settled(m),
        a.wf(),
        is_fed(m, a, f, volume, b),
        is_fed(m, b, g, volume, c),
        is_fed(m, a, f + g, volume, d),
    ensures
        crate::analysis::same_state(c.analyzer, d.analyzer),
{
    feeding_in_pieces(m, a, f, b, g, c, volume);
    let all = f + g;
    if all.len() > 0 {
        let gain = gain_to_undo(a.compensate, volume);
        let x = choose|x: Seq<[Level; 2]>|
            is_compensated(m, all, gain, x) && #[trigger] crate::analysis::is_processed(
                m,
                a.analyzer,
                x,
                c.analyzer,
            );
        let y = choose|y: Seq<[Level; 2]>|
            is_compensated(m, all, gain, y) && #[trigger] crate::analysis::is_processed(
                m,
                a.analyzer,
                y,
                d.analyzer,
            );
        lemma_compensation_settled(m, all, gain, x, y);
        crate::analysis::processing_has_one_outcome(
            m,
            a.analyzer,
            a.analyzer,
            x,
            c.analyzer,
            d.analyzer,
        );
    }
}

/// The number of samples that the formulas give a column, at the sample rate `rate` and with
/// `width` columns to 3.5 s, has the whole part of `3.5 * rate / width`.
pub open spec fn hops_are_whole_parts<M: Math>(m: &M, rate: u32, width: int) -> bool {
    forall|hz: Level, samples: Level| #[trigger]
        call_ensures(
            M::column_rate,
            (m, width as usize, Level { bits: SPECTRO_SPAN_SECS }),
            hz,
        ) && #[trigger] call_ensures(
            M::samples_per,
            (m, rate, hz.max_with(Level { bits: crate::analysis::ONE })),
            samples,
        ) ==> samples.max_with(Level { bits: crate::analysis::ONE }).floor_index() == (7 * rate) / (
        2 * width)
}

/// The full width always covers the same time: `width` columns take 3.5 s, to within a sample
/// per column, whatever the width and the sample rate are.
pub proof fn width_covers_the_span<M: Math>(m: &M, a: Analyzer<M>, width: int, b: Analyzer<M>)
    requires
        width > 0,
        is_synced(m, a, width, b),
        hops_are_whole_parts(m, a.sample_rate, width),
    ensures
        b.since_spectrum == 0,
        2 * b.spectrum_hop * width <= 7 * a.sample_rate,
        7 * a.sample_rate < 2 * (b.spectrum_hop + 1) * width,
{
    let rate = a.sample_rate;
    let hz = choose|hz: Level| #[trigger]
        call_ensures(
            M::column_rate,
            (m, width as usize, Level { bits: SPECTRO_SPAN_SECS }),
            hz,
        ) && crate::analysis::is_rated(m, a.track(), rate, hz, b.track());
    let hop = choose|hop: Level|
        crate::analysis::is_hop(m, rate, hz, hop) && #[trigger] call_ensures(
            M::release,
            (m, hop, rate, Level { bits: crate::analysis::SPECTRUM_RELEASE_TAU }),
            b.track().release,
        ) && b.track() == (crate::analysis::TrackState {
            hop: hop.floor_index(),
            since: 0,
            release: b.track().release,
            ..a.track()
        });
    let n = b.track().hop;
    assert(n == (7 * rate) / (2 * width));
    vstd::arithmetic::div_mod::lemma_fundamental_div_mod(7 * rate, 2 * width);
    assert(2 * n * width == (2 * width) * n) by (nonlinear_arith);
    assert(2 * (n + 1) * width == (2 * width) * n + 2 * width) by (nonlinear_arith);
}

/// 3.5 s of samples fill the full width: they make at least one column per pixel, and at most
/// so many more that the surplus comes to less than a sample per pixel.
pub proof fn the_span_fills_the_width<M: Math>(
    m: &M,
    a: Analyzer<M>,
    width: int,
    b: Analyzer<M>,
    frames: Seq<[Level; 2]>,
    c: Analyzer<M>,
)
    requires
        width > 0,
        b.wf(),
        is_synced(m, a, width, b),
        hops_are_whole_parts(m, a.sample_rate, width),
        frames.len() == (7 * a.sample_rate) / 2,
        crate::analysis::is_processed(m, b, frames, c),
    ensures
        exists|columns: Seq<Seq<Level>>|
            width <= columns.len() && (columns.len() - width) * b.spectrum_hop < width
                && c.track().columns == #[trigger] crate::window::last_of(
                b.track().columns + columns,
                crate::analysis::MAX_PENDING_COLUMNS as int,
            ),
{
    width_covers_the_span(m, a, width, b);
    crate::analysis::columns_follow_the_sample_clock(m, b.track(), frames, c.track());
    let hop = b.spectrum_hop as int;
    let n = frames.len() as int;
    let columns = choose|columns: Seq<Seq<Level>>|
        columns.len() == (b.track().since + n) / b.track().hop && c.track().columns
            == #[trigger] crate::window::last_of(
            b.track().columns + columns,
            crate::analysis::MAX_PENDING_COLUMNS as int,
        );
    let k = columns.len() as int;
    vstd::arithmetic::div_mod::lemma_fundamental_div_mod(n, hop);
    assert(2 * hop * width == 2 * (hop * width)) by (nonlinear_arith);
    assert(2 * (hop + 1) * width == 2 * (hop * width + width)) by (nonlinear_arith);
    assert(hop * width <= n < hop * width + width);
    assert(hop * k <= n < hop * k + hop);
    assert(width <= k) by (nonlinear_arith)
        requires
            hop * width <= n,
            n < hop * k + hop,
            0 < hop,
    ;
    assert((k - width) * hop == hop * k - hop * width) by (nonlinear_arith);
}

} // verus!
