//! The curve of the spectrum analyzer, the area under it and the grid behind it.

use crate::band::{sample_band, twice_the_highest};
use crate::color::END;
use crate::level::{Level, ZERO};
use crate::math::Math;
use crate::text::{decimal_text, joined};
use vstd::prelude::*;

verus! {

/// Bit pattern of -100: level at the lower end of the curve, in dB.
pub const CURVE_FLOOR: u32 = 0xC2C8_0000;

/// How many steps a curve has across `width` pixels: one per pixel, and at least one.
pub fn curve_steps(width: Level) -> (steps: usize)
    ensures
        steps == width.max_with(Level { bits: END }).ceil_index(),
{
    width.larger(Level { bits: END }).ceil()
}

/// `t` is how far below the top, from 0 to 1, the point `point` of a curve with `steps` steps
/// stands: it shows the peak of the spectrum over the span of frequencies that the point
/// covers.
pub open spec fn is_depth<M: Math>(
    m: &M,
    spectrum: Seq<Level>,
    rate: u32,
    steps: usize,
    point: usize,
    t: Level,
) -> bool {
    exists|lo: Level, hi: Level, db: Level, s: Level|
        call_ensures(M::point_edge, (m, rate, crate::band::axis_top(rate), steps, point, false), lo) && call_ensures(
            M::point_edge,
            (m, rate, crate::band::axis_top(rate), steps, point, true),
            hi,
        ) && #[trigger] crate::band::is_band(m, spectrum, lo, hi, db) && #[trigger] call_ensures(
            M::share,
            (m, db, Level { bits: ZERO }, Level { bits: CURVE_FLOOR }),
            s,
        ) && t == s.clamp_to(Level { bits: ZERO }, Level { bits: END })
}

/// How far below the top each point of the curve stands.
pub fn spectrum_curve<M: Math>(m: &M, spectrum: &Vec<Level>, rate: u32, steps: usize) -> (depths:
    Vec<Level>)
    requires
        spectrum@.len() <= crate::band::MAX_BINS,
        steps < usize::MAX,
    ensures
        depths@.len() == steps + 1,
        forall|i: int|
            0 <= i <= steps ==> is_depth(
                m,
                spectrum@,
                rate,
                steps,
                i as usize,
                #[trigger] depths@[i],
            ),
{
    let top = twice_the_highest(rate);
    let mut depths: Vec<Level> = Vec::new();
    let mut i: usize = 0;
    while i <= steps
        invariant
            i <= steps + 1,
            top == crate::band::axis_top(rate),
            steps < usize::MAX,
            spectrum@.len() <= crate::band::MAX_BINS,
            depths@.len() == i,
            forall|j: int|
                0 <= j < i ==> is_depth(
                    m,
                    spectrum@,
                    rate,
                    steps,
                    j as usize,
                    #[trigger] depths@[j],
                ),
        decreases steps + 1 - i,
    {
        proof {
            crate::color::lemma_zero_below_end();
        }
        let lo = m.point_edge(rate, top, steps, i, false);
        let hi = m.point_edge(rate, top, steps, i, true);
        let db = sample_band(m, spectrum, lo, hi);
        let s = m.share(db, Level { bits: ZERO }, Level { bits: CURVE_FLOOR });
        let t = s.clamped(Level { bits: ZERO }, Level { bits: END });
        assert(is_depth(m, spectrum@, rate, steps, i, t));
        depths.push(t);
        i += 1;
    }
    depths
}

/// The triangles that fill the area under a curve of `points` points. The vertices are, for
/// each point in turn, the point itself and the one below it on the base line; the area is a
/// strip of triangles over three vertices in a row, and all of those exist.
pub fn strip_triangles(points: usize) -> (triangles: Vec<[u32; 3]>)
    requires
        2 * points <= u32::MAX,
    ensures
        triangles@.len() == (if points == 0 {
            0
        } else {
            2 * (points - 1)
        }),
        forall|k: int|
            0 <= k < triangles@.len() ==> (#[trigger] triangles@[k])[0] == k && triangles@[k][1]
                == k + 1 && triangles@[k][2] == k + 2,
        forall|k: int| 0 <= k < triangles@.len() ==> (#[trigger] triangles@[k])[2] < 2 * points,
{
    let mut triangles: Vec<[u32; 3]> = Vec::new();
    let mut i: usize = 1;
    while i < points
        invariant
            1 <= i,
            i <= points || i == 1,
            2 * points <= u32::MAX,
            triangles@.len() == 2 * (i - 1),
            forall|k: int|
                0 <= k < triangles@.len() ==> (#[trigger] triangles@[k])[0] == k
                    && triangles@[k][1] == k + 1 && triangles@[k][2] == k + 2,
        decreases points - i,
    {
        let base = (i as u32 - 1) * 2;
        triangles.push([base, base + 1, base + 2]);
        triangles.push([base + 1, base + 2, base + 3]);
        i += 1;
    }
    triangles
}

/// A frequency of the grid, in Hz.
pub open spec fn is_grid(f: u32) -> bool {
    f == 100 || f == 1_000 || f == 10_000
}

/// The frequencies of the grid that a sample rate can show, in rising order.
pub fn grid_frequencies(rate: u32) -> (lines: Vec<u32>)
    ensures
        forall|f: u32| #[trigger] lines@.contains(f) <==> is_grid(f) && 2 * f <= rate,
        forall|i: int, j: int| 0 <= i < j < lines@.len() ==> lines@[i] < lines@[j],
{
    let mut lines: Vec<u32> = Vec::new();
    if rate >= 200 {
        lines.push(100);
        assert(lines@[0] == 100);
    }
    if rate >= 2_000 {
        lines.push(1_000);
        assert(lines@[1] == 1_000);
    }
    if rate >= 20_000 {
        lines.push(10_000);
        assert(lines@[2] == 10_000);
    }
    proof {
        assert forall|f: u32| #[trigger] lines@.contains(f) <==> is_grid(f) && 2 * f <= rate by {
            if is_grid(f) && 2 * f <= rate {
                assert(lines@[0] == f || lines@[1] == f || lines@[2] == f);
            }
        }
    }
    lines
}

/// How a frequency is labeled: in Hz, and from 1000 Hz on in kHz.
pub open spec fn frequency_label(f: u32) -> Seq<char> {
    if f >= 1_000 {
        crate::text::decimal((f / 1_000) as nat) + "k"@
    } else {
        crate::text::decimal(f as nat)
    }
}

/// The label of a frequency of the grid.
pub fn grid_label(f: u32) -> (label: String)
    requires
        is_grid(f),
    ensures
        label@ == frequency_label(f),
{
    if f >= 1_000 {
        joined(decimal_text((f / 1_000) as u64).as_str(), "k")
    } else {
        decimal_text(f as u64)
    }
}

} // verus!
