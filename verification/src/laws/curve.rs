//! Laws of the spectrum curve.

use crate::laws::band::{clip, is_span_reading};
use crate::level::Level;
use crate::math::Math;
use vstd::arithmetic::power2::pow2;
use vstd::prelude::*;

verus! {

/// `t` is how far below the top, from 0 to 1, the point `i` of `steps` stands: `db` is the
/// reading of the spectrum between the edges of the point on an axis that reaches up to 20 kHz
/// or half the rate, and the way down goes from 0 dB to -100 dB.
pub open spec fn stands_at<M: Math>(
    m: &M,
    spectrum: Seq<Level>,
    rate: u32,
    steps: usize,
    i: int,
    db: Level,
    t: Level,
) -> bool {
    let top = vstd::math::min(rate as int, 40_000) as u32;
    exists|lo: Level, hi: Level, s: Level|
        {
            &&& #[trigger] call_ensures(
                M::point_edge,
                (m, rate, top, steps, i as usize, false),
                lo,
            )
            &&& #[trigger] call_ensures(M::point_edge, (m, rate, top, steps, i as usize, true), hi)
            &&& is_span_reading(m, spectrum, lo, hi, db)
            &&& #[trigger] call_ensures(
                M::share,
                (m, db, Level { bits: 0 }, Level { bits: 0xC2C8_0000 }),
                s,
            )
            &&& !s.nan() ==> !t.nan() && t.units() == clip(s.units(), 0, pow2(149) as int)
        }
}

/// Each point of the curve stands where the reading over its own span puts it: at the top from
/// 0 dB on, at the bottom up to -100 dB.
pub proof fn points_stand_where_their_span_puts_them<M: Math>(
    m: &M,
    spectrum: &Vec<Level>,
    rate: u32,
    steps: usize,
    depths: Vec<Level>,
    i: int,
)
    requires
        call_ensures(crate::curve::spectrum_curve::<M>, (m, spectrum, rate, steps), depths),
        crate::laws::band::rounds_about_one(m),
        crate::laws::color::shares_follow(m),
        spectrum@.len() <= 0x100_0000,
        steps < usize::MAX,
        0 <= i <= steps,
    ensures
        depths@.len() == steps + 1,
        exists|db: Level| #[trigger]
            stands_at(m, spectrum@, rate, steps, i, db, depths@[i]) && (!db.nan() ==> (db.units()
                >= 0 ==> depths@[i].units() == 0) && (db.units() <= -100 * pow2(149)
                ==> depths@[i].units() == pow2(149))),
{
    crate::laws::numbers::lemma_zero();
    crate::laws::numbers::lemma_whole_numbers();
    crate::laws::numbers::lemma_small_numbers();
    let t = depths@[i];
    let zero = Level { bits: 0 };
    let low = Level { bits: 0xC2C8_0000 };
    let top = vstd::math::min(rate as int, 40_000) as u32;
    assert(crate::curve::is_depth(m, spectrum@, rate, steps, i as usize, t));
    assert(crate::band::axis_top(rate) == top);
    let (lo, hi, db, s) = choose|lo: Level, hi: Level, db: Level, s: Level|
        call_ensures(M::point_edge, (m, rate, top, steps, i as usize, false), lo) && call_ensures(
            M::point_edge,
            (m, rate, top, steps, i as usize, true),
            hi,
        ) && #[trigger] crate::band::is_band(m, spectrum@, lo, hi, db) && #[trigger] call_ensures(
            M::share,
            (m, db, zero, low),
            s,
        ) && t == s.clamp_to(zero, Level { bits: 0x3F80_0000 });
    crate::laws::band::lemma_span_reading(m, spectrum@, lo, hi, db);
    assert(crate::laws::color::is_moderate(zero) && crate::laws::color::is_moderate(low));
    assert(stands_at(m, spectrum@, rate, steps, i, db, t));
}

/// A curve has a step per pixel of its width, begun ones included, and at least one.
pub proof fn a_curve_has_a_step_per_pixel(width: Level, steps: usize)
    requires
        call_ensures(crate::curve::curve_steps, (width,), steps),
        !width.nan(),
        width.units() <= 0xFF_FFFF * pow2(149),
    ensures
        steps >= 1,
        width.units() <= steps * pow2(149),
        steps > 1 ==> (steps - 1) * pow2(149) < width.units(),
{
    crate::laws::numbers::lemma_whole_numbers();
    crate::laws::numbers::lemma_small_numbers();
    let one = Level { bits: 0x3F80_0000 };
    let w = width.max_with(one);
    crate::laws::band::lemma_indices(w, 0x100_0000);
    let p = pow2(149) as int;
    let n = steps as int;
    assert(n >= 1) by (nonlinear_arith)
        requires
            p <= w.units(),
            w.units() <= n * p,
            p > 0,
    ;
    if n > 1 {
        assert((n - 1) * p >= p) by (nonlinear_arith)
            requires
                n > 1,
                p > 0,
        ;
    }
}

/// The lines of the grid are at 100 Hz, 1 kHz and 10 kHz, as far as half the sample rate
/// reaches, from left to right.
pub proof fn the_grid_has_a_line_per_decade(rate: u32, lines: Vec<u32>)
    requires
        call_ensures(crate::curve::grid_frequencies, (rate,), lines),
    ensures
        lines@.contains(100) <==> rate >= 200,
        lines@.contains(1_000) <==> rate >= 2_000,
        lines@.contains(10_000) <==> rate >= 20_000,
        forall|i: int| 0 <= i < lines@.len() ==> {
            let f = #[trigger] lines@[i];
            f == 100 || f == 1_000 || f == 10_000
        },
        forall|i: int, j: int| 0 <= i < j < lines@.len() ==> lines@[i] < lines@[j],
{
    assert forall|i: int| 0 <= i < lines@.len() implies {
        let f = #[trigger] lines@[i];
        f == 100 || f == 1_000 || f == 10_000
    } by {
        assert(lines@.contains(lines@[i]));
    }
}

/// A line of the grid is labeled in Hz, and from 1 kHz on in kHz.
pub proof fn lines_are_labeled_in_kilohertz(f: u32, label: String)
    requires
        call_ensures(crate::curve::grid_label, (f,), label),
        f == 100 || f == 1_000 || f == 10_000,
    ensures
        f < 1_000 ==> crate::laws::text::spells(label@, f as int),
        f >= 1_000 ==> label@.len() > 0 && label@.last() == 'k' && crate::laws::text::spells(
            label@.drop_last(),
            f as int / 1_000,
        ),
{
    crate::laws::text::lemma_decimal(f as nat);
    crate::laws::text::lemma_decimal((f / 1_000) as nat);
    reveal_strlit("k");
    if f >= 1_000 {
        assert(label@.drop_last() =~= crate::text::decimal((f / 1_000) as nat));
    }
}

/// The area under the curve is covered by a strip: two triangles between each point and the
/// next, over the two points and those below them.
pub proof fn the_area_is_a_strip(points: usize, triangles: Vec<[u32; 3]>, k: int)
    requires
        call_ensures(crate::curve::strip_triangles, (points,), triangles),
        2 * points <= u32::MAX,
        0 <= k < triangles@.len(),
    ensures
        triangles@.len() == 2 * (points - 1),
        triangles@[k][0] == k,
        triangles@[k][1] == k + 1,
        triangles@[k][2] == k + 2,
        k + 2 < 2 * points,
{
}

} // verus!
