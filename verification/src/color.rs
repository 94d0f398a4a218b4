//! Colors, and the map from levels to them.

use crate::level::{Level, ZERO};
use crate::math::Math;
use vstd::prelude::*;

verus! {

/// An opaque color.
#[derive(Clone, Copy, PartialEq, Eq, Structural, Debug)]
pub struct Rgb {
    pub r: u8,
    pub g: u8,
    pub b: u8,
}

/// One stop of the color map: the bit pattern of its position between 0 and 1, and its
/// color.
#[derive(Clone, Copy, PartialEq, Eq, Structural, Debug)]
pub struct Stop {
    pub at: Level,
    pub color: Rgb,
}

/// Stops of the color map.
pub const STOPS: usize = 8;

/// Bit pattern of 1: the end of the color map.
pub const END: u32 = 0x3F80_0000;

/// Bit pattern of -100: level at the start of the color map, in dB.
pub const SPECTRO_FLOOR: u32 = 0xC2C8_0000;

/// Bit pattern of -20: level at the end of the color map, in dB.
pub const SPECTRO_CEIL: u32 = 0xC1A0_0000;

/// The stop number `i` of a magma-like color map: at 0, 0.15, 0.30, 0.45, 0.60, 0.75, 0.90
/// and 1.
pub open spec fn stop_at(i: int) -> Stop {
    if i <= 0 {
        stop_of(0, 0, 0, 4)
    } else if i == 1 {
        stop_of(0x3E19_999A, 40, 11, 84)
    } else if i == 2 {
        stop_of(0x3E99_999A, 101, 21, 110)
    } else if i == 3 {
        stop_of(0x3EE6_6666, 159, 42, 99)
    } else if i == 4 {
        stop_of(0x3F19_999A, 212, 72, 66)
    } else if i == 5 {
        stop_of(0x3F40_0000, 245, 125, 21)
    } else if i == 6 {
        stop_of(0x3F66_6666, 250, 193, 39)
    } else {
        stop_of(0x3F80_0000, 252, 255, 164)
    }
}

/// A stop from its parts.
pub open spec fn stop_of(at: u32, r: u8, g: u8, b: u8) -> Stop {
    Stop { at: Level { bits: at }, color: Rgb { r, g, b } }
}

fn make_stop(at: u32, r: u8, g: u8, b: u8) -> (s: Stop)
    ensures
        s == stop_of(at, r, g, b),
{
    Stop { at: Level { bits: at }, color: Rgb { r, g, b } }
}

/// The stop number `i` of the color map.
pub fn stop(i: usize) -> (s: Stop)
    ensures
        s == stop_at(i as int),
{
    match i {
        0 => make_stop(0, 0, 0, 4),
        1 => make_stop(0x3E19_999A, 40, 11, 84),
        2 => make_stop(0x3E99_999A, 101, 21, 110),
        3 => make_stop(0x3EE6_6666, 159, 42, 99),
        4 => make_stop(0x3F19_999A, 212, 72, 66),
        5 => make_stop(0x3F40_0000, 245, 125, 21),
        6 => make_stop(0x3F66_6666, 250, 193, 39),
        _ => make_stop(0x3F80_0000, 252, 255, 164),
    }
}

/// The stretch of the color map that `t` falls into runs from the stop `i` to the next
/// one: `t` lies past every stop up to `i` but the first, and not past the next.
pub open spec fn is_segment(t: Level, i: int) -> bool {
    &&& 0 <= i < STOPS
    &&& forall|k: int| 1 <= k <= i ==> t.exceeds((#[trigger] stop_at(k)).at)
    &&& i + 1 < STOPS ==> !t.exceeds(stop_at(i + 1).at)
}

/// A level falls into one stretch of the color map only.
pub proof fn segment_is_unique(t: Level, i: int, j: int)
    requires
        is_segment(t, i),
        is_segment(t, j),
    ensures
        i == j,
{
    if i < j {
        assert(t.exceeds(stop_at(i + 1).at));
    } else if j < i {
        assert(t.exceeds(stop_at(j + 1).at));
    }
}

/// `color` is the color of the map at `t`, which counts as 0 below 0 and as 1 above 1.
pub open spec fn is_magma<M: Math>(m: &M, t: Level, color: Rgb) -> bool {
    let bounded = t.clamp_to(Level { bits: ZERO }, Level { bits: END });
    exists|i: int, share: Level|
        is_segment(bounded, i) && #[trigger] call_ensures(
            M::share,
            (m, bounded, stop_at(i).at, stop_at(i + 1).at),
            share,
        ) && is_blend(
            m,
            stop_at(i).color,
            stop_at(i + 1).color,
            share.clamp_to(Level { bits: ZERO }, Level { bits: END }),
            color,
        )
}

/// `color` lies between `from` and `to`, channel by channel.
pub open spec fn is_blend<M: Math>(m: &M, from: Rgb, to: Rgb, share: Level, color: Rgb) -> bool {
    &&& call_ensures(M::blend, (m, from.r, to.r, share), color.r)
    &&& call_ensures(M::blend, (m, from.g, to.g, share), color.g)
    &&& call_ensures(M::blend, (m, from.b, to.b, share), color.b)
}

/// 0 is below 1.
pub proof fn lemma_zero_below_end()
    ensures
        (Level { bits: ZERO }).within(Level { bits: END }),
{
    let end = Level { bits: END };
    vstd::arithmetic::power2::lemma2_to64();
    assert((Level { bits: ZERO }).units() == 0);
    assert(end.units() >= 0);
}

/// The color of the map at `t`.
pub fn magma<M: Math>(m: &M, t: Level) -> (color: Rgb)
    ensures
        is_magma(m, t, color),
{
    let zero = Level { bits: ZERO };
    let end = Level { bits: END };
    proof {
        lemma_zero_below_end();
    }
    let bounded = t.clamped(zero, end);
    let mut i: usize = 0;
    while i + 1 < STOPS && bounded.above(stop(i + 1).at)
        invariant
            i < STOPS,
            forall|k: int| 1 <= k <= i ==> bounded.exceeds((#[trigger] stop_at(k)).at),
        decreases STOPS - i,
    {
        i += 1;
    }
    let low = stop(i);
    let high = stop(i + 1);
    let share = m.share(bounded, low.at, high.at);
    let by = share.clamped(zero, end);
    let color = Rgb {
        r: m.blend(low.color.r, high.color.r, by),
        g: m.blend(low.color.g, high.color.g, by),
        b: m.blend(low.color.b, high.color.b, by),
    };
    assert(is_segment(bounded, i as int));
    color
}

/// `x` lies in the stretch from the stop `i` to the next one.
pub open spec fn is_between(x: Level, i: int) -> bool {
    stop_at(i).at.within(x) && x.within(stop_at(i + 1).at)
}

/// `x` lies between 0 and 1.
pub open spec fn is_share(x: Level) -> bool {
    (Level { bits: ZERO }).within(x) && x.within(Level { bits: END })
}

/// The share of a stretch of the color map rises with the position, from 0 at its start to 1
/// at its end.
pub open spec fn shares_rise<M: Math>(m: &M) -> bool {
    &&& forall|x: Level, i: int, r: Level| #[trigger]
        call_ensures(M::share, (m, x, stop_at(i).at, stop_at(i + 1).at), r) && 0 <= i < STOPS - 1
            && is_between(x, i) ==> {
            &&& is_share(r)
            &&& x.alike(stop_at(i).at) ==> r.alike(Level { bits: ZERO })
            &&& x.alike(stop_at(i + 1).at) ==> r.alike(Level { bits: END })
        }
    &&& forall|x: Level, y: Level, i: int, r: Level, q: Level| #[trigger]
        call_ensures(M::share, (m, x, stop_at(i).at, stop_at(i + 1).at), r) && #[trigger]
        call_ensures(M::share, (m, y, stop_at(i).at, stop_at(i + 1).at), q) && 0 <= i < STOPS - 1
            && is_between(x, i) && is_between(y, i) && x.within(y) ==> r.within(q)
}

/// A blend is its start at the share 0 and its end at the share 1, and rises with the share
/// where its end is the larger one.
pub open spec fn blends_rise<M: Math>(m: &M) -> bool {
    &&& forall|a: u8, b: u8, s: Level, c: u8| #[trigger]
        call_ensures(M::blend, (m, a, b, s), c) && is_share(s) ==> {
            &&& s.alike(Level { bits: ZERO }) ==> c == a
            &&& s.alike(Level { bits: END }) ==> c == b
            &&& a <= b ==> a <= c <= b
        }
    &&& forall|a: u8, b: u8, s: Level, c: u8, t: Level, d: u8| #[trigger]
        call_ensures(M::blend, (m, a, b, s), c) && #[trigger] call_ensures(
            M::blend,
            (m, a, b, t),
            d,
        ) && is_share(s) && is_share(t) && s.within(t) && a <= b ==> c <= d
}

/// The stops follow each other on the number line.
pub proof fn lemma_stops_rise(i: int, j: int)
    requires
        0 <= i < j < STOPS,
    ensures
        stop_at(i).at.units() < stop_at(j).at.units(),
        !stop_at(i).at.nan(),
        !stop_at(j).at.nan(),
        stop_at(i).color.r <= stop_at(j).color.r,
        stop_at(i).color.g <= stop_at(j).color.g,
{
    Level::lemma_bits_are_ordered(stop_at(i).at, stop_at(j).at);
}

/// A position of the map lies in the stretch that it falls into.
pub proof fn lemma_in_segment(x: Level, i: int)
    requires
        is_share(x),
        is_segment(x, i),
    ensures
        0 <= i < STOPS - 1,
        is_between(x, i),
{
    if i == STOPS - 1 {
        assert(x.exceeds(stop_at(i).at));
    } else {
        lemma_stops_rise(i, i + 1);
    }
}

/// The map has the color of a stop where the stop is; below the first stop it has that of the
/// first, and above the last one that of the last.
pub proof fn map_has_the_colors_of_its_stops<M: Math>(m: &M, t: Level, color: Rgb, k: int)
    requires
        shares_rise(m),
        blends_rise(m),
        is_magma(m, t, color),
        !t.nan(),
        0 <= k < STOPS,
        t.alike(stop_at(k).at) || (k == 0 && t.within(stop_at(0).at)) || (k == STOPS - 1
            && stop_at(STOPS - 1).at.within(t)),
    ensures
        color == stop_at(k).color,
{
    lemma_zero_below_end();
    let x = t.clamp_to(Level { bits: ZERO }, Level { bits: END });
    if 0 < k < STOPS - 1 {
        lemma_stops_rise(0, k);
        lemma_stops_rise(k, STOPS - 1);
    } else {
        lemma_stops_rise(0, STOPS - 1);
    }
    assert(x.alike(stop_at(k).at));
    let (i, share) = choose|i: int, share: Level|
        is_segment(x, i) && #[trigger] call_ensures(
            M::share,
            (m, x, stop_at(i).at, stop_at(i + 1).at),
            share,
        ) && is_blend(
            m,
            stop_at(i).color,
            stop_at(i + 1).color,
            share.clamp_to(Level { bits: ZERO }, Level { bits: END }),
            color,
        );
    lemma_in_segment(x, i);
    assert(is_share(share));
    if i > k {
        lemma_stops_rise(k, i);
    } else if i + 1 < k {
        lemma_stops_rise(i + 1, k);
    } else if i == k && k > 0 {
        assert(x.exceeds(stop_at(k).at));
    }
}

/// The map rises: of two positions the higher one has no less red and no less green.
pub proof fn red_and_green_rise<M: Math>(m: &M, t: Level, color: Rgb, t2: Level, color2: Rgb)
    requires
        shares_rise(m),
        blends_rise(m),
        is_magma(m, t, color),
        is_magma(m, t2, color2),
        t.within(t2),
    ensures
        color.r <= color2.r,
        color.g <= color2.g,
{
    let zero = Level { bits: ZERO };
    let end = Level { bits: END };
    lemma_zero_below_end();
    let x = t.clamp_to(zero, end);
    let y = t2.clamp_to(zero, end);
    let (i, r) = choose|i: int, r: Level|
        is_segment(x, i) && #[trigger] call_ensures(
            M::share,
            (m, x, stop_at(i).at, stop_at(i + 1).at),
            r,
        ) && is_blend(
            m,
            stop_at(i).color,
            stop_at(i + 1).color,
            r.clamp_to(zero, end),
            color,
        );
    let (j, q) = choose|j: int, q: Level|
        is_segment(y, j) && #[trigger] call_ensures(
            M::share,
            (m, y, stop_at(j).at, stop_at(j + 1).at),
            q,
        ) && is_blend(
            m,
            stop_at(j).color,
            stop_at(j + 1).color,
            q.clamp_to(zero, end),
            color2,
        );
    lemma_in_segment(x, i);
    lemma_in_segment(y, j);
    lemma_stops_rise(i, i + 1);
    lemma_stops_rise(j, j + 1);
    assert(is_share(r) && is_share(q));
    if i > j {
        assert(x.exceeds(stop_at(j + 1).at));
    } else if i < j {
        if i + 1 < j {
            lemma_stops_rise(i + 1, j);
        }
        assert(color.r <= stop_at(i + 1).color.r && stop_at(j).color.r <= color2.r);
        assert(color.g <= stop_at(i + 1).color.g && stop_at(j).color.g <= color2.g);
    } else {
        assert(r.within(q));
    }
}

/// `color` is that of the level `db` in the spectrogram.
pub open spec fn is_level_color<M: Math>(m: &M, db: Level, color: Rgb) -> bool {
    exists|t: Level| #[trigger]
        call_ensures(
            M::share,
            (m, db, Level { bits: SPECTRO_FLOOR }, Level { bits: SPECTRO_CEIL }),
            t,
        ) && is_magma(m, t.clamp_to(Level { bits: ZERO }, Level { bits: END }), color)
}

/// The color of the level `db` in the spectrogram.
pub fn level_color<M: Math>(m: &M, db: Level) -> (color: Rgb)
    ensures
        is_level_color(m, db, color),
{
    proof {
        lemma_zero_below_end();
    }
    let t = m.share(db, Level { bits: SPECTRO_FLOOR }, Level { bits: SPECTRO_CEIL });
    magma(m, t.clamped(Level { bits: ZERO }, Level { bits: END }))
}

/// Bit pattern of -9: loudness past which the bar turns red, in LUFS.
pub const LOUD: u32 = 0xC110_0000;

/// Bit pattern of -16: loudness past which the bar turns yellow, in LUFS.
pub const MODERATE: u32 = 0xC180_0000;

/// Bit pattern of -1: peak past which the bar turns red, in dB.
pub const PEAK_HOT: u32 = 0xBF80_0000;

/// Bit pattern of -6: peak past which the bar turns yellow, in dB.
pub const PEAK_WARM: u32 = 0xC0C0_0000;

/// The color of the loudness bar.
pub fn loudness_color(lufs: Level) -> (color: Rgb)
    ensures
        color == (if lufs.exceeds(Level { bits: LOUD }) {
            Rgb { r: 240, g: 90, b: 80 }
        } else if lufs.exceeds(Level { bits: MODERATE }) {
            Rgb { r: 240, g: 190, b: 70 }
        } else {
            Rgb { r: 90, g: 200, b: 120 }
        }),
{
    if lufs.above(Level { bits: LOUD }) {
        Rgb { r: 240, g: 90, b: 80 }
    } else if lufs.above(Level { bits: MODERATE }) {
        Rgb { r: 240, g: 190, b: 70 }
    } else {
        Rgb { r: 90, g: 200, b: 120 }
    }
}

/// The color of a peak bar.
pub fn peak_color(db: Level) -> (color: Rgb)
    ensures
        color == (if db.exceeds(Level { bits: PEAK_HOT }) {
            Rgb { r: 240, g: 80, b: 80 }
        } else if db.exceeds(Level { bits: PEAK_WARM }) {
            Rgb { r: 240, g: 190, b: 70 }
        } else {
            Rgb { r: 90, g: 200, b: 120 }
        }),
{
    if db.above(Level { bits: PEAK_HOT }) {
        Rgb { r: 240, g: 80, b: 80 }
    } else if db.above(Level { bits: PEAK_WARM }) {
        Rgb { r: 240, g: 190, b: 70 }
    } else {
        Rgb { r: 90, g: 200, b: 120 }
    }
}

/// The color of the correlation bar.
pub fn correlation_color(value: Level) -> (color: Rgb)
    ensures
        color == (if (Level { bits: ZERO }).exceeds(value) {
            Rgb { r: 240, g: 100, b: 90 }
        } else {
            Rgb { r: 90, g: 200, b: 120 }
        }),
{
    if (Level { bits: ZERO }).above(value) {
        Rgb { r: 240, g: 100, b: 90 }
    } else {
        Rgb { r: 90, g: 200, b: 120 }
    }
}

} // verus!
