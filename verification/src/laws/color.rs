//! Laws of the colors.

use crate::color::Rgb;
use crate::laws::band::clip;
use crate::level::Level;
use crate::math::Math;
use vstd::arithmetic::power2::pow2;
use vstd::prelude::*;

verus! {

/// The value of the place of the stop `k` of the color map: 0, 0.15, 0.30, 0.45, 0.60, 0.75,
/// 0.90 and 1.
pub open spec fn place(k: int) -> int {
    (Level {
        bits: if k <= 0 {
            0
        } else if k == 1 {
            0x3E19_999A
        } else if k == 2 {
            0x3E99_999A
        } else if k == 3 {
            0x3EE6_6666
        } else if k == 4 {
            0x3F19_999A
        } else if k == 5 {
            0x3F40_0000
        } else if k == 6 {
            0x3F66_6666
        } else {
            0x3F80_0000
        },
    }).units()
}

/// The color of the stop `k` of the color map, as red, green and blue.
pub open spec fn shade(k: int) -> (int, int, int) {
    if k <= 0 {
        (0, 0, 4)
    } else if k == 1 {
        (40, 11, 84)
    } else if k == 2 {
        (101, 21, 110)
    } else if k == 3 {
        (159, 42, 99)
    } else if k == 4 {
        (212, 72, 66)
    } else if k == 5 {
        (245, 125, 21)
    } else if k == 6 {
        (250, 193, 39)
    } else {
        (252, 255, 164)
    }
}

/// `color` has the parts `parts`.
pub open spec fn is_made_of(color: Rgb, parts: (int, int, int)) -> bool {
    color.r == parts.0 && color.g == parts.1 && color.b == parts.2
}

/// `color` is one of the map at the place of the value `x`: that of the stop where there is
/// one, with its red and its green between those of the two stops that it lies between.
pub open spec fn is_on_the_map(x: int, color: Rgb) -> bool {
    forall|k: int|
        #![trigger place(k)]
        0 <= k < 8 ==> {
            &&& clip(x, 0, pow2(149) as int) == place(k) ==> is_made_of(color, shade(k))
            &&& k < 7 && place(k) <= clip(x, 0, pow2(149) as int) <= place(k + 1) ==> shade(k).0
                <= color.r <= shade(k + 1).0 && shade(k).1 <= color.g <= shade(k + 1).1
        }
}

/// `x` is a number between -1000 and 1000.
pub open spec fn is_moderate(x: Level) -> bool {
    !x.nan() && -1000 * pow2(149) <= x.units() <= 1000 * pow2(149)
}

/// Shares follow the place: the share of `x` on the way from `a` to `b` is 0 at `a`, 1 at `b`,
/// beyond these where `x` is, and rises on the way.
pub open spec fn shares_follow<M: Math>(m: &M) -> bool {
    &&& forall|x: Level, a: Level, b: Level, r: Level| #[trigger]
        call_ensures(M::share, (m, x, a, b), r) && !x.nan() && is_moderate(a) && is_moderate(b)
            && a.units() != b.units() ==> {
            let up = a.units() < b.units();
            &&& !r.nan()
            &&& x.units() == a.units() ==> r.units() == 0
            &&& x.units() == b.units() ==> r.units() == pow2(149)
            &&& (if up {
                x.units() <= a.units()
            } else {
                x.units() >= a.units()
            }) ==> r.units() <= 0
            &&& (if up {
                x.units() >= b.units()
            } else {
                x.units() <= b.units()
            }) ==> r.units() >= pow2(149)
            &&& a.units() <= x.units() <= b.units() || b.units() <= x.units() <= a.units() ==> 0
                <= r.units() <= pow2(149)
        }
    &&& forall|x: Level, y: Level, a: Level, b: Level, r: Level, q: Level| #[trigger]
        call_ensures(M::share, (m, x, a, b), r) && #[trigger] call_ensures(
            M::share,
            (m, y, a, b),
            q,
        ) && !x.nan() && !y.nan() && is_moderate(a) && is_moderate(b) && a.units() != b.units()
            && (if a.units() < b.units() {
            x.units() <= y.units()
        } else {
            x.units() >= y.units()
        }) ==> r.units() <= q.units()
}

/// Blends follow the share: the first color at 0, the second one at 1, and between them, in
/// order, where the second one is no smaller.
pub open spec fn blends_follow<M: Math>(m: &M) -> bool {
    &&& forall|a: u8, b: u8, s: Level, c: u8| #[trigger]
        call_ensures(M::blend, (m, a, b, s), c) && !s.nan() && 0 <= s.units() <= pow2(149) ==> {
            &&& s.units() == 0 ==> c == a
            &&& s.units() == pow2(149) ==> c == b
            &&& a <= b ==> a <= c <= b
        }
    &&& forall|a: u8, b: u8, s: Level, c: u8, t: Level, d: u8| #[trigger]
        call_ensures(M::blend, (m, a, b, s), c) && #[trigger] call_ensures(
            M::blend,
            (m, a, b, t),
            d,
        ) && !s.nan() && !t.nan() && 0 <= s.units() <= t.units() <= pow2(149) && a <= b ==> c <= d
}

/// Where shares and blends follow, they rise along the stops of the map.
proof fn lemma_follow<M: Math>(m: &M)
    requires
        shares_follow(m),
        blends_follow(m),
    ensures
        crate::color::shares_rise(m),
        crate::color::blends_rise(m),
{
    crate::laws::numbers::lemma_zero();
    crate::laws::numbers::lemma_whole_numbers();
    crate::laws::numbers::lemma_small_numbers();
    assert forall|i: int| 0 <= i < 7 implies is_moderate(
        #[trigger] crate::color::stop_at(i).at,
    ) && is_moderate(crate::color::stop_at(i + 1).at) && crate::color::stop_at(i).at.units()
        < crate::color::stop_at(i + 1).at.units() by {
        crate::color::lemma_stops_rise(i, i + 1);
        lemma_stop(i);
        lemma_stop(i + 1);
    }
}

/// The places of the stops lie between 0 and 1.
proof fn lemma_stop(k: int)
    requires
        0 <= k < 8,
    ensures
        crate::color::stop_at(k).at.units() == place(k),
        !crate::color::stop_at(k).at.nan(),
        0 <= place(k) <= pow2(149),
        is_made_of(crate::color::stop_at(k).color, shade(k)),
{
    crate::laws::numbers::lemma_zero();
    crate::laws::numbers::lemma_whole_numbers();
    if k > 0 {
        crate::color::lemma_stops_rise(0, k);
    }
    if k < 7 {
        crate::color::lemma_stops_rise(k, 7);
    }
}

/// The color of the map at a place.
proof fn lemma_map<M: Math>(m: &M, t: Level, color: Rgb)
    requires
        shares_follow(m),
        blends_follow(m),
        crate::color::is_magma(m, t, color),
        !t.nan(),
    ensures
        is_on_the_map(t.units(), color),
{
    crate::laws::numbers::lemma_zero();
    crate::laws::numbers::lemma_whole_numbers();
    crate::laws::numbers::lemma_small_numbers();
    lemma_follow(m);
    let zero = Level { bits: 0 };
    let one = Level { bits: 0x3F80_0000 };
    let x = t.clamp_to(zero, one);
    assert(x.units() == clip(t.units(), 0, pow2(149) as int));
    assert forall|k: int| #![trigger place(k)] 0 <= k < 8 implies {
        &&& clip(t.units(), 0, pow2(149) as int) == place(k) ==> is_made_of(color, shade(k))
        &&& k < 7 && place(k) <= clip(t.units(), 0, pow2(149) as int) <= place(k + 1) ==> shade(k).0
            <= color.r <= shade(k + 1).0 && shade(k).1 <= color.g <= shade(k + 1).1
    } by {
        lemma_stop(k);
        lemma_stop(0);
        lemma_stop(7);
        if x.units() == place(k) {
            if k < 7 {
                crate::color::lemma_stops_rise(k, 7);
            }
            if k > 0 {
                crate::color::lemma_stops_rise(0, k);
            }
            crate::color::map_has_the_colors_of_its_stops(m, t, color, k);
        }
        if k < 7 && place(k) <= x.units() <= place(k + 1) {
            lemma_stop(k + 1);
            let (i, share) = choose|i: int, share: Level|
                crate::color::is_segment(x, i) && #[trigger] call_ensures(
                    M::share,
                    (m, x, crate::color::stop_at(i).at, crate::color::stop_at(i + 1).at),
                    share,
                ) && crate::color::is_blend(
                    m,
                    crate::color::stop_at(i).color,
                    crate::color::stop_at(i + 1).color,
                    share.clamp_to(zero, one),
                    color,
                );
            crate::color::lemma_in_segment(x, i);
            lemma_stop(i);
            lemma_stop(i + 1);
            if i < k {
                if i + 1 < k {
                    crate::color::lemma_stops_rise(i + 1, k);
                }
                assert(x.units() == place(k));
                crate::color::lemma_stops_rise(k, k + 1);
            } else if i > k {
                if k + 1 < i {
                    crate::color::lemma_stops_rise(k + 1, i);
                }
                assert(x.exceeds(crate::color::stop_at(i).at));
            } else {
                crate::color::lemma_stops_rise(k, k + 1);
                assert(crate::color::is_share(share));
            }
        }
    }
}

/// The color map runs through its eight stops: dark violet, over red and orange, to pale
/// yellow. It has the color of a stop where the stop is, and stays between two of them on the
/// way; past the ends it stays at the end.
pub proof fn the_map_runs_through_its_stops<M: Math>(m: &M, t: Level, color: Rgb)
    requires
        call_ensures(crate::color::magma::<M>, (m, t), color),
        shares_follow(m),
        blends_follow(m),
        !t.nan(),
    ensures
        is_on_the_map(t.units(), color),
        t.units() <= 0 ==> is_made_of(color, (0, 0, 4)),
        t.units() >= pow2(149) ==> is_made_of(color, (252, 255, 164)),
{
    lemma_map(m, t, color);
    lemma_stop(0);
    lemma_stop(7);
    crate::laws::numbers::lemma_zero();
    crate::laws::numbers::lemma_whole_numbers();
    assert(place(0) == 0 && place(7) == pow2(149));
}

/// `color` is that of the level `db`: the map starts at -100 dB and ends at -20 dB.
pub open spec fn is_shade_of<M: Math>(m: &M, db: Level, color: Rgb) -> bool {
    exists|t: Level| #[trigger]
        call_ensures(M::share, (m, db, Level { bits: 0xC2C8_0000 }, Level { bits: 0xC1A0_0000 }), t)
            && is_on_the_map(t.units(), color)
}

/// The color of a level.
pub proof fn lemma_shade<M: Math>(m: &M, db: Level, color: Rgb)
    requires
        crate::color::is_level_color(m, db, color),
        shares_follow(m),
        blends_follow(m),
        !db.nan(),
    ensures
        is_shade_of(m, db, color),
        db.units() <= -100 * pow2(149) ==> is_made_of(color, (0, 0, 4)),
        db.units() >= -20 * pow2(149) ==> is_made_of(color, (252, 255, 164)),
{
    crate::laws::numbers::lemma_zero();
    crate::laws::numbers::lemma_whole_numbers();
    crate::laws::numbers::lemma_small_numbers();
    let zero = Level { bits: 0 };
    let one = Level { bits: 0x3F80_0000 };
    let low = Level { bits: 0xC2C8_0000 };
    let high = Level { bits: 0xC1A0_0000 };
    let t = choose|t: Level| #[trigger]
        call_ensures(M::share, (m, db, low, high), t) && crate::color::is_magma(
            m,
            t.clamp_to(zero, one),
            color,
        );
    assert(is_moderate(low) && is_moderate(high));
    let c = t.clamp_to(zero, one);
    lemma_map(m, c, color);
    let p = pow2(149) as int;
    assert(clip(c.units(), 0, p) == clip(t.units(), 0, p));
    assert(is_on_the_map(t.units(), color));
    assert(place(0) == 0 && place(7) == pow2(149));
}

/// The louder, the brighter: up to -100 dB a level is the darkest color of the map, from -20 dB
/// on the brightest one, and between them a louder level has no less red and no less green.
pub proof fn louder_is_brighter<M: Math>(
    m: &M,
    db: Level,
    db2: Level,
    color: Rgb,
    color2: Rgb,
)
    requires
        call_ensures(crate::color::level_color::<M>, (m, db), color),
        call_ensures(crate::color::level_color::<M>, (m, db2), color2),
        shares_follow(m),
        blends_follow(m),
        !db.nan(),
        !db2.nan(),
    ensures
        is_shade_of(m, db, color),
        db.units() <= -100 * pow2(149) ==> is_made_of(color, (0, 0, 4)),
        db.units() >= -20 * pow2(149) ==> is_made_of(color, (252, 255, 164)),
        db.units() <= db2.units() ==> color.r <= color2.r && color.g <= color2.g,
{
    lemma_shade(m, db, color);
    crate::laws::numbers::lemma_zero();
    crate::laws::numbers::lemma_whole_numbers();
    crate::laws::numbers::lemma_small_numbers();
    lemma_follow(m);
    let zero = Level { bits: 0 };
    let one = Level { bits: 0x3F80_0000 };
    let low = Level { bits: 0xC2C8_0000 };
    let high = Level { bits: 0xC1A0_0000 };
    assert(is_moderate(low) && is_moderate(high));
    if db.units() <= db2.units() {
        let t = choose|t: Level| #[trigger]
            call_ensures(M::share, (m, db, low, high), t) && crate::color::is_magma(
                m,
                t.clamp_to(zero, one),
                color,
            );
        let u = choose|u: Level| #[trigger]
            call_ensures(M::share, (m, db2, low, high), u) && crate::color::is_magma(
                m,
                u.clamp_to(zero, one),
                color2,
            );
        assert(t.units() <= u.units());
        crate::color::red_and_green_rise(
            m,
            t.clamp_to(zero, one),
            color,
            u.clamp_to(zero, one),
            color2,
        );
    }
}

/// The loudness bar is red above -9 LUFS, yellow above -16 LUFS, and green up to there.
pub proof fn loudness_turns_yellow_and_red(lufs: Level, color: Rgb)
    requires
        call_ensures(crate::color::loudness_color, (lufs,), color),
        !lufs.nan(),
    ensures
        lufs.units() > -9 * pow2(149) ==> is_made_of(color, (240, 90, 80)),
        -16 * pow2(149) < lufs.units() <= -9 * pow2(149) ==> is_made_of(color, (240, 190, 70)),
        lufs.units() <= -16 * pow2(149) ==> is_made_of(color, (90, 200, 120)),
{
    crate::laws::numbers::lemma_whole_numbers();
}

/// A peak bar is red above -1 dB, yellow above -6 dB, and green up to there.
pub proof fn peaks_turn_yellow_and_red(db: Level, color: Rgb)
    requires
        call_ensures(crate::color::peak_color, (db,), color),
        !db.nan(),
    ensures
        db.units() > -1 * pow2(149) ==> is_made_of(color, (240, 80, 80)),
        -6 * pow2(149) < db.units() <= -1 * pow2(149) ==> is_made_of(color, (240, 190, 70)),
        db.units() <= -6 * pow2(149) ==> is_made_of(color, (90, 200, 120)),
{
    crate::laws::numbers::lemma_whole_numbers();
}

/// The correlation bar is red below 0, and green from there on.
pub proof fn correlation_turns_red(value: Level, color: Rgb)
    requires
        call_ensures(crate::color::correlation_color, (value,), color),
        !value.nan(),
    ensures
        value.units() < 0 ==> is_made_of(color, (240, 100, 90)),
        value.units() >= 0 ==> is_made_of(color, (90, 200, 120)),
{
    crate::laws::numbers::lemma_zero();
}

/// The stops of the map stand at their places, in their colors, each past the one before.
pub proof fn stops_stand_at_their_places(i: usize, s: crate::color::Stop, t: crate::color::Stop)
    requires
        call_ensures(crate::color::stop, (i,), s),
        call_ensures(crate::color::stop, ((i + 1) as usize,), t),
        i < 7,
    ensures
        s.at.units() == place(i as int),
        is_made_of(s.color, shade(i as int)),
        t.at.units() == place(i + 1),
        is_made_of(t.color, shade(i + 1)),
        s.at.units() < t.at.units(),
{
    lemma_stop(i as int);
    lemma_stop(i + 1);
    crate::color::lemma_stops_rise(i as int, i + 1);
}

} // verus!
