//! Laws of the engine.

use crate::analysis::Analyzer;
use crate::engine::{Engine, FrameView, Uploads};
use crate::laws::analysis::{has_taken, is_emptied, is_paced, is_read};
use crate::laws::spectrogram::{are_rows, has_entered, shown};
use crate::level::{Level, Wide};
use crate::math::Math;
use vstd::arithmetic::power2::pow2;
use vstd::prelude::*;

verus! {

/// An engine before the first capture expects 48 kHz, has an image of 512 times 320 pixels,
/// and does not compensate.
pub proof fn an_engine_at_rest<M: Math>(m: &M, e: Engine<M>)
    requires
        call_ensures(Engine::<M>::new, (m,), e),
    ensures
        e.analyzer.sample_rate == 48_000,
        e.analyzer.gonio@.len() == 0,
        e.analyzer.columns@.len() == 0,
        e.snapshot.sample_rate == 48_000,
        e.snapshot.gonio@.len() == 0,
        e.snapshot.columns@.len() == 0,
        e.spectro.img.size[0] == 512,
        e.spectro.img.size[1] == 320,
        e.spectro.head == 0,
        e.spectro.written == 0,
        !e.has_texture,
        e.last_tick is None,
        e.spectro_target is None,
        !e.compensate,
{
    let a = choose|a: Analyzer<M>|
        crate::engine::is_new_analyzer(m, 48_000, a) && #[trigger] crate::analysis::is_drained(
            a,
            e.analyzer,
        ) && crate::analysis::is_snapshot(m, a, e.snapshot);
    crate::laws::analysis::lemma_read(m, a, e.analyzer, e.snapshot);
    assert(a.track().columns == Seq::<Seq<Level>>::empty() && a.track().gonio.len() == 0);
    assert(a.track().columns.len() == a.columns@.len());
}

/// A tick runs if and only if at least a ninetieth of a second has passed since the last one
/// that ran, or if it is the first. It accounts for the time since then, up to a quarter of a
/// second, and is the last one from then on.
pub proof fn ticks_are_a_ninetieth_apart<M: Math>(
    e: &mut Engine<M>,
    now: u64,
    dt: Option<u64>,
)
    requires
        call_ensures(Engine::<M>::begin_tick, (e, now), dt),
    ensures
        old(e).last_tick is None ==> dt == Some(0u64),
        old(e).last_tick matches Some(t) ==> (dt is None <==> 90 * (now - t) < 1_000_000_000),
        old(e).last_tick is Some && dt is Some ==> dt->0 == vstd::math::min(
            now - old(e).last_tick->0,
            250_000_000,
        ),
        dt is Some ==> final(e).last_tick == Some(now),
        dt is None ==> final(e).last_tick == old(e).last_tick,
        final(e).analyzer == old(e).analyzer,
        final(e).spectro == old(e).spectro,
        final(e).spectro_scroll == old(e).spectro_scroll,
        final(e).compensate == old(e).compensate,
        final(e).spectro_target == old(e).spectro_target,
{
}

/// A gain is undone if and only if compensation is on and the gain is known and more than
/// 0.001, and it is that gain.
pub proof fn a_gain_is_undone_where_asked<M: Math>(
    e: &Engine<M>,
    volume: Option<Level>,
    gain: Option<Level>,
)
    requires
        call_ensures(Engine::<M>::active_gain, (e, volume), gain),
    ensures
        gain is Some <==> e.compensate && volume is Some && !volume->0.nan() && volume->0.units()
            > (Level { bits: 0x3A83_126F }).units(),
        gain is Some ==> gain == volume,
{
    assert(!(Level { bits: 0x3A83_126F }).nan());
}

/// `taken` is what the meters take in of the captured `frames`: the frames themselves, or, where
/// a gain is undone, both channels of each scaled by the inverse of the gain.
pub open spec fn is_taken_from<M: Math>(
    m: &M,
    e: Engine<M>,
    frames: Seq<[Level; 2]>,
    volume: Option<Level>,
    taken: Seq<[Level; 2]>,
) -> bool {
    &&& taken.len() == frames.len()
    &&& if e.compensate && volume is Some && !volume->0.nan() && volume->0.units() > (Level {
        bits: 0x3A83_126F,
    }).units() {
        exists|by: Level| #[trigger]
            call_ensures(M::inverse, (m, volume->0), by) && forall|i: int, c: int|
                0 <= i < frames.len() && 0 <= c < 2 ==> call_ensures(
                    M::scale,
                    (m, frames[i][c], by),
                    #[trigger] taken[i][c],
                )
    } else {
        taken == frames
    }
}

/// What is taken in of captured frames.
proof fn lemma_fed<M: Math>(
    m: &M,
    a: Engine<M>,
    frames: Seq<[Level; 2]>,
    volume: Option<Level>,
    b: Engine<M>,
) -> (taken: Seq<[Level; 2]>)
    requires
        crate::engine::is_fed(m, a, frames, volume, b),
        a.analyzer.wf(),
        frames.len() > 0,
    ensures
        is_taken_from(m, a, frames, volume, taken),
        has_taken(m, a.analyzer, taken, b.analyzer),
{
    let gain = crate::engine::gain_to_undo(a.compensate, volume);
    assert(!(Level { bits: 0x3A83_126F }).nan());
    let taken = choose|taken: Seq<[Level; 2]>|
        crate::engine::is_compensated(m, frames, gain, taken)
            && #[trigger] crate::analysis::is_processed(m, a.analyzer, taken, b.analyzer);
    crate::laws::analysis::lemma_has_taken(m, a.analyzer, taken, b.analyzer);
    if let Some(g) = gain {
        let by = choose|by: Level| #[trigger]
            call_ensures(M::inverse, (m, g), by) && crate::engine::is_scaled(
                m,
                frames,
                by,
                taken,
            );
        assert(call_ensures(M::inverse, (m, volume->0), by));
        assert forall|i: int, c: int| 0 <= i < frames.len() && 0 <= c < 2 implies call_ensures(
            M::scale,
            (m, frames[i][c], by),
            #[trigger] taken[i][c],
        ) by {
            let t = taken[i];
            assert(call_ensures(M::scale, (m, frames[i][0], by), t[0]));
            assert(call_ensures(M::scale, (m, frames[i][1], by), t[1]));
        }
    }
    taken
}

/// Every captured frame reaches every meter, once, and with the gain undone where that is asked
/// for.
pub proof fn captured_frames_reach_the_meters<M: Math>(
    m: &M,
    e: &mut Engine<M>,
    frames: &Vec<[Level; 2]>,
    volume: Option<Level>,
)
    requires
        call_ensures(Engine::<M>::feed, (e, m, frames, volume), ()),
        old(e).analyzer.wf(),
    ensures
        frames@.len() == 0 ==> final(e).analyzer == old(e).analyzer,
        frames@.len() > 0 ==> exists|taken: Seq<[Level; 2]>| #[trigger]
            is_taken_from(m, *old(e), frames@, volume, taken) && has_taken(
                m,
                old(e).analyzer,
                taken,
                final(e).analyzer,
            ),
        final(e).spectro == old(e).spectro,
        final(e).compensate == old(e).compensate,
{
    if frames@.len() > 0 {
        let taken = lemma_fed(m, *old(e), frames@, volume, *final(e));
    }
}

/// `to` is where the display stands after `from`, `nanos` nanoseconds later, with `written`
/// columns written and `width` of them to 3.5 s: it has moved on with the time; when it is then
/// more than 8 columns off the place that trails the newest column by one and a half it goes
/// there, and otherwise it covers a hundredth of the way.
pub open spec fn is_moved_on<M: Math>(
    m: &M,
    written: u64,
    width: usize,
    nanos: u64,
    from: Wide,
    to: Wide,
) -> bool {
    exists|moved: Wide, target: Wide, error: Wide|
        {
            &&& #[trigger] call_ensures(
                M::scroll_by,
                (m, from, nanos, width, Level { bits: 0x4060_0000 }),
                moved,
            )
            &&& #[trigger] call_ensures(
                M::count_minus,
                (m, written, Wide { bits: 0x3FF8_0000_0000_0000 }),
                target,
            )
            &&& #[trigger] call_ensures(M::wide_minus, (m, target, moved), error)
            &&& !error.nan() && vstd::math::abs(error.units()) > 8 * pow2(1074) ==> to == target
            &&& error.nan() || vstd::math::abs(error.units()) <= 8 * pow2(1074) ==> call_ensures(
                M::ease,
                (m, moved, error, Wide { bits: 0x3F84_7AE1_47AE_147B }),
                to,
            )
        }
}

/// `lag` is how far `position` trails the newest of `written` columns, between 0 and 4.
pub open spec fn trails_by<M: Math>(m: &M, written: u64, position: Wide, lag: Level) -> bool {
    exists|behind: Wide, cut: Wide|
        {
            &&& #[trigger] call_ensures(M::count_minus, (m, written, position), behind)
            &&& #[trigger] call_ensures(M::narrow, (m, cut), lag)
            &&& behind.nan() || 0 <= behind.units() <= 4 * pow2(1074) ==> cut == behind
            &&& !behind.nan() && behind.units() < 0 ==> !cut.nan() && cut.units() == 0
            &&& !behind.nan() && behind.units() > 4 * pow2(1074) ==> !cut.nan() && cut.units() == 4
                * pow2(1074)
        }
}

/// How the display moves on.
proof fn lemma_scrolled<M: Math>(
    m: &M,
    written: u64,
    width: usize,
    nanos: u64,
    from: Wide,
    to: Wide,
    lag: Level,
)
    requires
        crate::engine::is_scrolled(m, written, width as int, nanos, from, to, lag),
    ensures
        is_moved_on(m, written, width, nanos, from, to),
        trails_by(m, written, to, lag),
{
    crate::laws::numbers::lemma_zero();
    crate::laws::numbers::lemma_scroll_numbers();
    let far = Wide { bits: 0x4020_0000_0000_0000 };
    let (moved, target, error) = choose|moved: Wide, target: Wide, error: Wide| #[trigger]
        call_ensures(
            M::scroll_by,
            (m, from, nanos, width, Level { bits: 0x4060_0000 }),
            moved,
        ) && call_ensures(
            M::count_minus,
            (m, written, Wide { bits: 0x3FF8_0000_0000_0000 }),
            target,
        ) && #[trigger] call_ensures(M::wide_minus, (m, target, moved), error)
            && if error.unsigned().exceeds(far) {
            to == target
        } else {
            call_ensures(M::ease, (m, moved, error, Wide { bits: 0x3F84_7AE1_47AE_147B }), to)
        };
    assert(error.unsigned().nan() == error.nan());
    assert(error.unsigned().units() == vstd::math::abs(error.units()));
    assert(call_ensures(
        M::count_minus,
        (m, written, Wide { bits: 0x3FF8_0000_0000_0000 }),
        target,
    ));
    let low = Wide { bits: 0 };
    let high = Wide { bits: 0x4010_0000_0000_0000 };
    let behind = choose|behind: Wide| #[trigger]
        call_ensures(M::count_minus, (m, written, to), behind) && call_ensures(
            M::narrow,
            (m, behind.clamp_to(low, high)),
            lag,
        );
    let cut = behind.clamp_to(low, high);
    assert(call_ensures(M::narrow, (m, cut), lag));
}

/// The display moves on with the time and stays within four columns behind the newest one.
pub proof fn the_display_trails_the_newest_column<M: Math>(
    m: &M,
    e: &mut Engine<M>,
    nanos: u64,
)
    requires
        call_ensures(Engine::<M>::advance_scroll, (e, m, nanos), ()),
    ensures
        is_moved_on(
            m,
            old(e).spectro.written,
            old(e).spectro.img.size[0],
            nanos,
            old(e).spectro_scroll,
            final(e).spectro_scroll,
        ),
        trails_by(m, old(e).spectro.written, final(e).spectro_scroll, final(e).scroll_lag),
        final(e).spectro == old(e).spectro,
        final(e).analyzer == old(e).analyzer,
        final(e).last_tick == old(e).last_tick,
{
    lemma_scrolled(
        m,
        old(e).spectro.written,
        old(e).spectro.img.size[0],
        nanos,
        old(e).spectro_scroll,
        final(e).spectro_scroll,
        final(e).scroll_lag,
    );
}

/// The columns of `a` are paced so that `width` of them take 3.5 s.
pub open spec fn is_paced_for<M: Math>(m: &M, a: Analyzer<M>, width: usize) -> bool {
    exists|hz: Level| #[trigger]
        call_ensures(M::column_rate, (m, width, Level { bits: 0x4060_0000 }), hz) && is_paced(
            m,
            a,
            hz,
        ) && 2 * (Level { bits: 0x4060_0000 }).units() == 7 * pow2(149)
}

/// How columns are paced for a width.
proof fn lemma_synced<M: Math>(m: &M, a: Analyzer<M>, width: usize, b: Analyzer<M>)
    requires
        crate::engine::is_synced(m, a, width as int, b),
    ensures
        is_paced_for(m, b, width),
        b.since_spectrum == 0,
{
    crate::laws::numbers::lemma_scroll_numbers();
    let hz = choose|hz: Level| #[trigger]
        call_ensures(M::column_rate, (m, width, Level { bits: 0x4060_0000 }), hz)
            && crate::analysis::is_rated(m, a.track(), a.sample_rate, hz, b.track());
    crate::laws::analysis::lemma_paced(m, a.track(), hz, b);
    assert(b.track().since == 0);
}

/// The columns are paced for the width of the image: one per pixel, and the full width in
/// 3.5 s.
pub proof fn columns_are_paced_for_the_width<M: Math>(m: &M, e: &mut Engine<M>)
    requires
        call_ensures(Engine::<M>::sync_column_rate, (e, m), ()),
    ensures
        is_paced_for(m, final(e).analyzer, old(e).spectro.img.size[0]),
        final(e).analyzer.since_spectrum == 0,
        final(e).analyzer.sample_rate == old(e).analyzer.sample_rate,
        final(e).spectro == old(e).spectro,
{
    lemma_synced(m, old(e).analyzer, old(e).spectro.img.size[0], final(e).analyzer);
}

/// Where the rate of columns and the samples per column are cut to whole samples, the columns of
/// the full width take 3.5 s to within a sample each, whatever the width and the sample rate
/// are.
pub proof fn the_full_width_takes_three_and_a_half_seconds<M: Math>(m: &M, e: &mut Engine<M>)
    requires
        call_ensures(Engine::<M>::sync_column_rate, (e, m), ()),
        old(e).spectro.img.size[0] > 0,
        forall|hz: Level, hop: Level| #[trigger]
            call_ensures(
                M::column_rate,
                (m, old(e).spectro.img.size[0], Level { bits: 0x4060_0000 }),
                hz,
            ) && #[trigger] crate::laws::analysis::is_hop_for(
                m,
                old(e).analyzer.sample_rate,
                hz,
                hop,
            ) ==> hop.units() / (pow2(149) as int) == (7 * old(e).analyzer.sample_rate) / (2
                * old(e).spectro.img.size[0]),
        (7 * old(e).analyzer.sample_rate) / (2 * old(e).spectro.img.size[0]) < usize::MAX,
    ensures
        2 * final(e).analyzer.spectrum_hop * old(e).spectro.img.size[0] <= 7 * old(
            e,
        ).analyzer.sample_rate,
        7 * old(e).analyzer.sample_rate < 2 * (final(e).analyzer.spectrum_hop + 1) * old(
            e,
        ).spectro.img.size[0],
{
    columns_are_paced_for_the_width(m, e);
    let a = final(e).analyzer;
    let w = old(e).spectro.img.size[0] as int;
    let rate = old(e).analyzer.sample_rate as int;
    let hz = choose|hz: Level| #[trigger]
        call_ensures(
            M::column_rate,
            (m, old(e).spectro.img.size[0], Level { bits: 0x4060_0000 }),
            hz,
        ) && is_paced(m, a, hz) && 2 * (Level { bits: 0x4060_0000 }).units() == 7 * pow2(149);
    let hop = choose|hop: Level| #[trigger]
        crate::laws::analysis::is_hop_for(m, a.sample_rate, hz, hop) && call_ensures(
            M::release,
            (m, hop, a.sample_rate, Level { bits: 0x3D23_D70A }),
            a.release_coeff,
        ) && a.spectrum_hop * pow2(149) <= hop.units() && (a.spectrum_hop < usize::MAX
            ==> hop.units() < (a.spectrum_hop + 1) * pow2(149));
    let p = pow2(149) as int;
    vstd::arithmetic::power2::lemma_pow2_pos(149);
    let u = hop.units();
    let n = a.spectrum_hop as int;
    let q = u / p;
    vstd::arithmetic::div_mod::lemma_fundamental_div_mod(u, p);
    vstd::arithmetic::div_mod::lemma_mod_bound(u, p);
    assert(n <= q) by (nonlinear_arith)
        requires
            n * p <= u,
            u == p * q + u % p,
            0 <= u % p < p,
    ;
    assert(n < usize::MAX);
    assert(q <= n) by (nonlinear_arith)
        requires
            u < (n + 1) * p,
            u == p * q + u % p,
            0 <= u % p,
            p > 0,
    ;
    vstd::arithmetic::div_mod::lemma_fundamental_div_mod(7 * rate, 2 * w);
    vstd::arithmetic::div_mod::lemma_mod_bound(7 * rate, 2 * w);
    assert(2 * n * w == (2 * w) * n) by (nonlinear_arith);
    assert(2 * (n + 1) * w == (2 * w) * n + 2 * w) by (nonlinear_arith);
}

/// A new capture starts the analysis afresh, at its own sample rate, and keeps the image.
pub proof fn a_new_capture_starts_afresh<M: Math>(m: &M, e: &mut Engine<M>, rate: u32)
    requires
        call_ensures(Engine::<M>::attach, (e, m, rate), ()),
        3 * rate <= usize::MAX,
    ensures
        final(e).analyzer.sample_rate == rate,
        final(e).analyzer.mono@.len() == 0,
        final(e).analyzer.gonio@.len() == 0,
        final(e).analyzer.columns@.len() == 0,
        final(e).analyzer.loudness.power_ring@.len() == 0,
        final(e).analyzer.loudness.block_powers@.len() == 0,
        final(e).analyzer.loudness.integrated.bits == 0xFF80_0000,
        final(e).analyzer.loudness.st_capacity == 3 * rate,
        final(e).analyzer.correlation.ring@.len() == 0,
        crate::laws::analysis::is_silent_at(m, final(e).analyzer, rate),
        is_paced_for(m, final(e).analyzer, old(e).spectro.img.size[0]),
        are_rows(m, rate, old(e).spectro.img.size[1], final(e).spectro.row_bands@),
        final(e).spectro.mapped_sr == rate,
        final(e).spectro.img == old(e).spectro.img,
        final(e).spectro.head == old(e).spectro.head,
        final(e).spectro.written == old(e).spectro.written,
{
    let w = old(e).spectro.img.size[0];
    let a = choose|a: Analyzer<M>|
        crate::engine::is_new_analyzer(m, rate, a) && #[trigger] crate::engine::is_synced(
            m,
            a,
            w as int,
            final(e).analyzer,
        );
    lemma_synced(m, a, w, final(e).analyzer);
    crate::laws::analysis::lemma_silent(m, rate, a);
    crate::laws::spectrogram::lemma_rows(
        m,
        rate,
        old(e).spectro.img.size[1],
        final(e).spectro.row_bands@,
    );
    let t = final(e).analyzer.track();
    assert(t.mono.len() == 0 && t.gonio.len() == 0 && t.columns == Seq::<Seq<Level>>::empty());
    assert(t.columns.len() == final(e).analyzer.columns@.len());
    assert(a.loudness@.powers.len() == 0 && a.loudness@.blocks.len() == 0);
    assert(a.loudness@.st_capacity == a.loudness.st_capacity);
    assert(a.correlation@.frames.len() == 0);
}

/// The size of the image follows that of the surface, between 64 and 4096 pixels each way.
pub proof fn the_image_follows_the_surface(
    w: usize,
    h: usize,
    size: [usize; 2],
    want: Option<[usize; 2]>,
)
    requires
        call_ensures(crate::engine::wanted_size, (w, h, size), want),
    ensures
        want is None <==> crate::laws::band::clip(w as int, 64, 4096) == size[0]
            && crate::laws::band::clip(h as int, 64, 4096) == size[1],
        want matches Some(s) ==> s[0] == crate::laws::band::clip(w as int, 64, 4096) && s[1]
            == crate::laws::band::clip(h as int, 64, 4096),
{
}

/// After a resize the full width still covers 3.5 s, the rows cover the bins anew, the image is
/// to be uploaded whole, and the display trails the newest column by one and a half.
pub proof fn a_resize_keeps_the_time_span<M: Math>(m: &M, e: &mut Engine<M>, w: usize, h: usize)
    requires
        call_ensures(Engine::<M>::resize_spectro, (e, m, w, h), ()),
        old(e).wf(),
        1 <= w <= 4096,
        1 <= h <= 4096,
        w != old(e).spectro.img.size[0] || h != old(e).spectro.img.size[1],
    ensures
        final(e).spectro.img.size[0] == w,
        final(e).spectro.img.size[1] == h,
        !final(e).has_texture,
        w != old(e).spectro.img.size[0] ==> is_paced_for(m, final(e).analyzer, w),
        w == old(e).spectro.img.size[0] ==> final(e).analyzer == old(e).analyzer,
        h != old(e).spectro.img.size[1] ==> are_rows(
            m,
            old(e).spectro.mapped_sr,
            h,
            final(e).spectro.row_bands@,
        ),
        h == old(e).spectro.img.size[1] ==> final(e).spectro.row_bands
            == old(e).spectro.row_bands,
        crate::laws::spectrogram::is_carried_over(old(e).spectro, final(e).spectro),
        final(e).spectro.written == old(e).spectro.written,
        call_ensures(
            M::count_minus,
            (m, old(e).spectro.written, Wide { bits: 0x3FF8_0000_0000_0000 }),
            final(e).spectro_scroll,
        ),
        final(e).compensate == old(e).compensate,
        final(e).last_tick == old(e).last_tick,
{
    if w != old(e).spectro.img.size[0] {
        lemma_synced(m, old(e).analyzer, w, final(e).analyzer);
    }
    if h != old(e).spectro.img.size[1] {
        crate::laws::spectrogram::lemma_rows(
            m,
            old(e).spectro.mapped_sr,
            h,
            final(e).spectro.row_bands@,
        );
    }
    crate::laws::spectrogram::lemma_carried_over(old(e).spectro, final(e).spectro);
}

/// Bringing the display up to date reads the results off the analyzer, with its columns, and
/// shows the columns: the image as it was is uploaded first where there was none, then each
/// column. The rows are those of the sample rate of the results.
pub proof fn a_redraw_shows_the_results<M: Math>(
    m: &M,
    e: &mut Engine<M>,
    nanos: u64,
    up: Uploads,
    j: int,
    y: int,
)
    requires
        call_ensures(Engine::<M>::redraw, (e, m, nanos), up),
        old(e).wf(),
        crate::laws::band::rounds_about_one(m),
        crate::laws::color::shares_follow(m),
        crate::laws::color::blends_follow(m),
        old(e).spectro.mapped_sr == old(e).analyzer.sample_rate ==> old(
            e,
        ).spectro.row_bands@.len() == old(e).spectro.img.size[1],
        0 <= j < old(e).spectro.img.size[0],
        0 <= y < old(e).spectro.img.size[1],
    ensures
        is_read(m, old(e).analyzer, final(e).snapshot),
        is_emptied(old(e).analyzer, final(e).analyzer),
        up.whole is Some <==> !old(e).has_texture,
        up.whole matches Some(img) ==> img.size == old(e).spectro.img.size && img.pixels@ == old(
            e,
        ).spectro.img.pixels@,
        final(e).has_texture,
        final(e).spectro.mapped_sr == old(e).analyzer.sample_rate,
        old(e).spectro.mapped_sr == old(e).analyzer.sample_rate ==> final(e).spectro.row_bands
            == old(e).spectro.row_bands,
        old(e).spectro.mapped_sr != old(e).analyzer.sample_rate ==> are_rows(
            m,
            old(e).analyzer.sample_rate,
            old(e).spectro.img.size[1],
            final(e).spectro.row_bands@,
        ),
        has_entered(
            m,
            old(e).spectro,
            final(e).snapshot.columns@,
            final(e).spectro,
            up.columns@,
            j,
            y,
        ),
        is_moved_on(
            m,
            final(e).spectro.written,
            final(e).spectro.img.size[0],
            nanos,
            old(e).spectro_scroll,
            final(e).spectro_scroll,
        ),
        trails_by(m, final(e).spectro.written, final(e).spectro_scroll, final(e).scroll_lag),
{
    let a = *old(e);
    let b = *final(e);
    crate::laws::analysis::lemma_read(m, a.analyzer, b.analyzer, b.snapshot);
    lemma_scrolled(
        m,
        b.spectro.written,
        b.spectro.img.size[0],
        nanos,
        a.spectro_scroll,
        b.spectro_scroll,
        b.scroll_lag,
    );
    let ready = crate::spectrogram::Spectrogram {
        row_bands: b.spectro.row_bands,
        mapped_sr: b.spectro.mapped_sr,
        ..a.spectro
    };
    let columns = b.snapshot.columns@;
    assert forall|i: int| 0 <= i < columns.len() implies (#[trigger] columns[i])@.len()
        <= 0x100_0000 by {
        assert(columns[i]@ == a.analyzer.columns@[i]@);
        assert(a.analyzer.track().columns[i].len() == 2048);
    }
    if a.spectro.mapped_sr != a.analyzer.sample_rate {
        crate::laws::spectrogram::lemma_rows(
            m,
            a.analyzer.sample_rate,
            a.spectro.img.size[1],
            b.spectro.row_bands@,
        );
    }
    crate::laws::spectrogram::lemma_entered(m, ready, columns, b.spectro, up.columns@, j, y);
    assert(shown(ready, j, y) == shown(a.spectro, j, y));
}

/// After a tick the results are those of the frames that came with it: the frames are taken in,
/// with the gain undone where that is asked for, at the size that was asked for, and read off
/// before the tick ends. The image is uploaded whole if and only if there was none of its size.
pub proof fn a_tick_shows_what_came_with_it<M: Math>(
    m: &M,
    e: &mut Engine<M>,
    nanos: u64,
    frames: &Vec<[Level; 2]>,
    volume: Option<Level>,
    up: Uploads,
)
    requires
        call_ensures(Engine::<M>::tick, (e, m, nanos, frames, volume), up),
        old(e).wf(),
    ensures
        final(e).spectro_target is None,
        final(e).has_texture,
        final(e).spectro.img.size == (match old(e).spectro_target {
            Some(size) => size,
            None => old(e).spectro.img.size,
        }),
        final(e).spectro.mapped_sr == old(e).analyzer.sample_rate,
        final(e).analyzer.columns@.len() == 0,
        final(e).last_tick == old(e).last_tick,
        final(e).compensate == old(e).compensate,
        up.whole is Some <==> !old(e).has_texture || final(e).spectro.img.size != old(
            e,
        ).spectro.img.size,
        up.whole matches Some(img) ==> img.size == final(e).spectro.img.size,
        final(e).spectro.written == old(e).spectro.written + up.columns@.len(),
        final(e).spectro.img.size == old(e).spectro.img.size ==> is_moved_on(
            m,
            final(e).spectro.written,
            final(e).spectro.img.size[0],
            nanos,
            old(e).spectro_scroll,
            final(e).spectro_scroll,
        ),
        trails_by(m, final(e).spectro.written, final(e).spectro_scroll, final(e).scroll_lag),
        frames@.len() == 0 ==> final(e).snapshot.gonio@ == old(e).analyzer.gonio@,
        frames@.len() > 0 ==> exists|taken: Seq<[Level; 2]>| #[trigger]
            is_taken_from(m, *old(e), frames@, volume, taken) && final(e).snapshot.gonio@
                == crate::laws::analysis::newest(old(e).analyzer.gonio@ + taken, 2048),
        final(e).snapshot.sample_rate == old(e).analyzer.sample_rate,
        final(e).snapshot.spectrum_db@ == final(e).analyzer.smooth_db@,
        final(e).snapshot.integrated == final(e).analyzer.loudness.integrated,
{
    let a = *old(e);
    let b = *final(e);
    let begun = Engine { spectro_target: None, ..a };
    let (sized, fed) = choose|sized: Engine<M>, fed: Engine<M>|
        (match a.spectro_target {
            Some(size) => crate::engine::is_resized(
                m,
                begun,
                size[0] as int,
                size[1] as int,
                sized,
            ),
            None => sized == begun,
        }) && #[trigger] crate::engine::is_fed(m, sized, frames@, volume, fed)
            && #[trigger] crate::engine::is_redrawn(m, fed, nanos, b, up);
    lemma_sized(m, begun, sized);
    crate::laws::analysis::lemma_read(m, fed.analyzer, b.analyzer, b.snapshot);
    lemma_scrolled(
        m,
        b.spectro.written,
        b.spectro.img.size[0],
        nanos,
        fed.spectro_scroll,
        b.spectro_scroll,
        b.scroll_lag,
    );
    assert(b.spectro.img.size == sized.spectro.img.size);
    if let Some(size) = a.spectro_target {
        assert(sized.spectro.img.size =~= size);
        if size == a.spectro.img.size {
            assert(sized == begun);
        } else if size[0] == a.spectro.img.size[0] && size[1] == a.spectro.img.size[1] {
            assert(size =~= a.spectro.img.size);
        }
    }
    if frames@.len() > 0 {
        let taken = lemma_fed(m, sized, frames@, volume, fed);
        assert(is_taken_from(m, a, frames@, volume, taken));
    }
}

/// Where no other size is asked for, a tick takes the frames in first and reads the results off
/// then: what it shows has heard all that came with it.
pub proof fn a_tick_listens_before_it_reads<M: Math>(
    m: &M,
    e: &mut Engine<M>,
    nanos: u64,
    frames: &Vec<[Level; 2]>,
    volume: Option<Level>,
    up: Uploads,
)
    requires
        call_ensures(Engine::<M>::tick, (e, m, nanos, frames, volume), up),
        old(e).wf(),
        old(e).spectro_target is None,
        frames@.len() > 0,
    ensures
        exists|taken: Seq<[Level; 2]>, heard: Analyzer<M>|
            {
                &&& #[trigger] is_taken_from(m, *old(e), frames@, volume, taken)
                &&& #[trigger] has_taken(m, old(e).analyzer, taken, heard)
                &&& is_read(m, heard, final(e).snapshot)
                &&& is_emptied(heard, final(e).analyzer)
            },
{
    let a = *old(e);
    let b = *final(e);
    let begun = Engine { spectro_target: None, ..a };
    let (sized, fed) = choose|sized: Engine<M>, fed: Engine<M>|
        sized == begun && #[trigger] crate::engine::is_fed(m, sized, frames@, volume, fed)
            && #[trigger] crate::engine::is_redrawn(m, fed, nanos, b, up);
    crate::laws::analysis::lemma_read(m, fed.analyzer, b.analyzer, b.snapshot);
    let taken = lemma_fed(m, begun, frames@, volume, fed);
    assert(is_taken_from(m, a, frames@, volume, taken));
    assert(has_taken(m, a.analyzer, taken, fed.analyzer));
}

/// Where no other size is asked for and the rows are those of the sample rate, a tick shows the
/// columns that have come up: on the right, behind what was shown before.
pub proof fn a_tick_shows_the_columns<M: Math>(
    m: &M,
    e: &mut Engine<M>,
    nanos: u64,
    frames: &Vec<[Level; 2]>,
    volume: Option<Level>,
    up: Uploads,
    j: int,
    y: int,
)
    requires
        call_ensures(Engine::<M>::tick, (e, m, nanos, frames, volume), up),
        old(e).wf(),
        old(e).spectro_target is None,
        old(e).spectro.mapped_sr == old(e).analyzer.sample_rate,
        old(e).spectro.row_bands@.len() == old(e).spectro.img.size[1],
        crate::laws::band::rounds_about_one(m),
        crate::laws::color::shares_follow(m),
        crate::laws::color::blends_follow(m),
        0 <= j < old(e).spectro.img.size[0],
        0 <= y < old(e).spectro.img.size[1],
    ensures
        has_entered(
            m,
            old(e).spectro,
            final(e).snapshot.columns@,
            final(e).spectro,
            up.columns@,
            j,
            y,
        ),
        final(e).spectro.row_bands == old(e).spectro.row_bands,
        up.whole is Some <==> !old(e).has_texture,
        up.whole matches Some(img) ==> img.pixels@ == old(e).spectro.img.pixels@,
{
    let a = *old(e);
    let b = *final(e);
    let begun = Engine { spectro_target: None, ..a };
    let (sized, fed) = choose|sized: Engine<M>, fed: Engine<M>|
        sized == begun && #[trigger] crate::engine::is_fed(m, sized, frames@, volume, fed)
            && #[trigger] crate::engine::is_redrawn(m, fed, nanos, b, up);
    crate::laws::analysis::lemma_read(m, fed.analyzer, b.analyzer, b.snapshot);
    let ready = crate::spectrogram::Spectrogram {
        row_bands: b.spectro.row_bands,
        mapped_sr: b.spectro.mapped_sr,
        ..a.spectro
    };
    if frames@.len() > 0 {
        let taken = choose|taken: Seq<[Level; 2]>|
            crate::engine::is_compensated(
                m,
                frames@,
                crate::engine::gain_to_undo(a.compensate, volume),
                taken,
            ) && #[trigger] crate::analysis::is_processed(m, a.analyzer, taken, fed.analyzer);
        crate::analysis::columns_follow_the_sample_clock(
            m,
            a.analyzer.track(),
            taken,
            fed.analyzer.track(),
        );
    }
    assert(fed.analyzer.track().wf());
    let columns = b.snapshot.columns@;
    assert forall|i: int| 0 <= i < columns.len() implies (#[trigger] columns[i])@.len()
        <= 0x100_0000 by {
        assert(columns[i]@ == fed.analyzer.columns@[i]@);
        assert(fed.analyzer.track().columns[i].len() == 2048);
    }
    crate::laws::spectrogram::lemma_entered(m, ready, columns, b.spectro, up.columns@, j, y);
    assert(shown(ready, j, y) == shown(a.spectro, j, y));
}

/// A resize leaves the analyzer well formed, with the same points.
proof fn lemma_sized<M: Math>(m: &M, a: Engine<M>, b: Engine<M>)
    requires
        a.analyzer.wf(),
        b == a || crate::engine::is_resized(m, a, b.spectro.width(), b.spectro.height(), b),
    ensures
        b.analyzer.wf(),
        b.analyzer.gonio@ == a.analyzer.gonio@,
        b.analyzer.sample_rate == a.analyzer.sample_rate,
        b.compensate == a.compensate,
{
    if b != a && b.spectro.width() != a.spectro.width() {
        let s = a.analyzer.track();
        let t = b.analyzer.track();
        let rate = a.analyzer.sample_rate;
        let hz = choose|hz: Level| #[trigger]
            call_ensures(
                M::column_rate,
                (m, b.spectro.width() as usize, Level { bits: crate::engine::SPECTRO_SPAN_SECS }),
                hz,
            ) && crate::analysis::is_rated(m, s, rate, hz, t);
        let hop = choose|hop: Level|
            crate::analysis::is_hop(m, rate, hz, hop) && #[trigger] call_ensures(
                M::release,
                (m, hop, rate, Level { bits: crate::analysis::SPECTRUM_RELEASE_TAU }),
                t.release,
            ) && t == (crate::analysis::TrackState {
                hop: hop.floor_index(),
                since: 0,
                release: t.release,
                ..s
            });
        let one = Level { bits: crate::analysis::ONE };
        let samples = choose|samples: Level| #[trigger]
            call_ensures(M::samples_per, (m, rate, hz.max_with(one)), samples) && hop
                == samples.max_with(one);
        crate::analysis::lemma_at_least_one(samples);
        assert(t.hop >= 1);
        assert(t.gonio == s.gonio);
        assert(t.wf());
    }
}

/// Scaling takes each channel of each frame by itself.
pub proof fn each_channel_is_scaled_by_itself<M: Math>(
    m: &M,
    frames: &Vec<[Level; 2]>,
    by: Level,
    scaled: Vec<[Level; 2]>,
    i: int,
    c: int,
)
    requires
        call_ensures(crate::engine::scale_frames::<M>, (m, frames, by), scaled),
        0 <= i < frames@.len(),
        0 <= c < 2,
    ensures
        scaled@.len() == frames@.len(),
        call_ensures(M::scale, (m, frames@[i][c], by), scaled@[i][c]),
{
    let s = scaled@[i];
    assert(call_ensures(M::scale, (m, frames@[i][0], by), s[0]));
    assert(call_ensures(M::scale, (m, frames@[i][1], by), s[1]));
}

/// A size that is asked for stands until the next tick or the next size; asking for none changes
/// nothing.
pub proof fn a_size_that_is_asked_for_stands<M: Math>(
    e: &mut Engine<M>,
    want: Option<[usize; 2]>,
)
    requires
        call_ensures(Engine::<M>::request_size, (e, want), ()),
    ensures
        want is Some ==> final(e).spectro_target == want,
        want is None ==> final(e).spectro_target == old(e).spectro_target,
        final(e).spectro == old(e).spectro,
        final(e).analyzer == old(e).analyzer,
        final(e).last_tick == old(e).last_tick,
{
}

/// A window draws the results and the place of the display as they are.
pub proof fn a_window_draws_what_the_engine_holds<M: Math>(e: &Engine<M>, v: FrameView)
    requires
        call_ensures(Engine::<M>::view, (e,), v),
    ensures
        v.snapshot.spectrum_db@ == e.snapshot.spectrum_db@,
        v.snapshot.gonio@ == e.snapshot.gonio@,
        v.snapshot.columns@.len() == e.snapshot.columns@.len(),
        v.snapshot.momentary == e.snapshot.momentary,
        v.snapshot.short_term == e.snapshot.short_term,
        v.snapshot.integrated == e.snapshot.integrated,
        v.snapshot.peak_db == e.snapshot.peak_db,
        v.snapshot.peak_hold_db == e.snapshot.peak_hold_db,
        v.snapshot.correlation == e.snapshot.correlation,
        v.snapshot.sample_rate == e.snapshot.sample_rate,
        v.has_texture == e.has_texture,
        v.spectro_head == e.spectro.head,
        v.spectro_size == e.spectro.img.size,
        v.scroll_lag == e.scroll_lag,
{
    let a = crate::analysis::column_views(e.snapshot.columns@);
    let b = crate::analysis::column_views(v.snapshot.columns@);
    assert(a.len() == e.snapshot.columns@.len() && b.len() == v.snapshot.columns@.len());
}

} // verus!
