//! Laws of the meters and their windows.

use crate::laws::color::shares_follow;
use crate::level::Level;
use crate::math::Math;
use crate::meter::{Drag, Layout, Meter, Panel};
use vstd::arithmetic::power2::pow2;
use vstd::prelude::*;

verus! {

/// `t` is how much of a bar from `low` to 0 the value `x` fills.
pub open spec fn fills(x: Level, low: int, t: Level) -> bool {
    &&& !t.nan()
    &&& 0 <= t.units() <= pow2(149)
    &&& x.units() <= low ==> t.units() == 0
    &&& x.units() >= 0 ==> t.units() == pow2(149)
}

/// What fills a bar.
proof fn lemma_fill<M: Math>(m: &M, x: Level, floor: Level, t: Level)
    requires
        crate::meter::is_fill(m, x, floor, t),
        shares_follow(m),
        !x.nan(),
        crate::laws::color::is_moderate(floor),
        floor.units() < 0,
    ensures
        fills(x, floor.units(), t),
{
    crate::laws::numbers::lemma_zero();
    crate::laws::numbers::lemma_whole_numbers();
    crate::laws::numbers::lemma_small_numbers();
}

/// Two values fill a bar in their order.
proof fn lemma_fills_rise<M: Math>(
    m: &M,
    x: Level,
    y: Level,
    floor: Level,
    t: Level,
    u: Level,
)
    requires
        crate::meter::is_fill(m, x, floor, t),
        crate::meter::is_fill(m, y, floor, u),
        shares_follow(m),
        !x.nan(),
        !y.nan(),
        crate::laws::color::is_moderate(floor),
        floor.units() < 0,
        x.units() <= y.units(),
    ensures
        t.units() <= u.units(),
{
    crate::laws::numbers::lemma_zero();
    crate::laws::numbers::lemma_whole_numbers();
    crate::laws::numbers::lemma_small_numbers();
    let zero = Level { bits: 0 };
    let one = Level { bits: 0x3F80_0000 };
    let r = choose|r: Level| #[trigger]
        call_ensures(M::share, (m, x, floor, zero), r) && t == r.clamp_to(zero, one);
    let q = choose|q: Level| #[trigger]
        call_ensures(M::share, (m, y, floor, zero), q) && u == q.clamp_to(zero, one);
    assert(r.units() <= q.units());
}

/// The loudness bar is empty up to -40 LUFS, full from 0 LUFS on, and fills in between.
pub proof fn the_loudness_bar_fills_from_minus_forty<M: Math>(
    m: &M,
    x: Level,
    y: Level,
    t: Level,
    u: Level,
)
    requires
        call_ensures(crate::meter::loudness_fill::<M>, (m, x), t),
        call_ensures(crate::meter::loudness_fill::<M>, (m, y), u),
        shares_follow(m),
        !x.nan(),
        !y.nan(),
    ensures
        fills(x, -40 * pow2(149), t),
        x.units() <= y.units() ==> t.units() <= u.units(),
{
    crate::laws::numbers::lemma_whole_numbers();
    let floor = Level { bits: 0xC220_0000 };
    lemma_fill(m, x, floor, t);
    if x.units() <= y.units() {
        lemma_fills_rise(m, x, y, floor, t, u);
    }
}

/// A peak bar is empty up to -60 dB, full from 0 dB on, and fills in between.
pub proof fn peak_bars_fill_from_minus_sixty<M: Math>(
    m: &M,
    x: Level,
    y: Level,
    t: Level,
    u: Level,
)
    requires
        call_ensures(crate::meter::peak_fill::<M>, (m, x), t),
        call_ensures(crate::meter::peak_fill::<M>, (m, y), u),
        shares_follow(m),
        !x.nan(),
        !y.nan(),
    ensures
        fills(x, -60 * pow2(149), t),
        x.units() <= y.units() ==> t.units() <= u.units(),
{
    crate::laws::numbers::lemma_whole_numbers();
    let floor = Level { bits: 0xC270_0000 };
    lemma_fill(m, x, floor, t);
    if x.units() <= y.units() {
        lemma_fills_rise(m, x, y, floor, t, u);
    }
}

/// A finite value reads as its digits, any other as minus infinity.
pub proof fn only_finite_values_read_as_digits(
    x: Level,
    digits: String,
    loudness: String,
    peak: String,
)
    requires
        call_ensures(crate::meter::loudness_readout, (x, digits), loudness),
        call_ensures(crate::meter::peak_readout, (x, digits), peak),
    ensures
        x.bits as int % 0x8000_0000 < 0x7F80_0000 ==> loudness@ == digits@ && peak@ == digits@,
        x.bits as int % 0x8000_0000 >= 0x7F80_0000 ==> loudness@ == "  -∞  "@ && peak@ == "-∞"@,
{
}

/// The switch of a meter among the four: that of the spectrogram, the spectrum, the loudness
/// and the goniometer, in this order.
pub open spec fn switch(meter: Meter) -> int {
    if meter is Spectrogram {
        0
    } else if meter is Spectrum {
        1
    } else if meter is Loudness {
        2
    } else {
        3
    }
}

/// The places of the meters are their switches, and the meter at the place of a meter is that
/// meter.
pub proof fn places_are_switches(meter: Meter, i: usize, back: Meter)
    requires
        call_ensures(Meter::index, (meter,), i),
        call_ensures(Meter::at, (i,), back),
    ensures
        i == switch(meter),
        back == meter,
{
}

/// The windows that are open, the root first.
pub open spec fn windows(l: Layout) -> Seq<Meter> {
    match l.root {
        Some(meter) => seq![meter] + l.others@,
        None => l.others@,
    }
}

/// A meter has a window if and only if its switch is on; the windows stand in the order of the
/// switches, so that none has two, and there is a root window as soon as one is on.
pub proof fn meters_that_are_on_have_a_window(enabled: &[bool; 4], l: Layout)
    requires
        call_ensures(crate::meter::layout, (enabled,), l),
    ensures
        forall|meter: Meter| #[trigger]
            windows(l).contains(meter) <==> enabled[switch(meter)],
        forall|i: int, j: int|
            0 <= i < j < windows(l).len() ==> switch(#[trigger] windows(l)[i]) < switch(
                #[trigger] windows(l)[j],
            ),
        l.root is None <==> !enabled[0] && !enabled[1] && !enabled[2] && !enabled[3],
        l.root is None ==> l.others@.len() == 0,
{
    let all = crate::meter::shown(enabled@, 4);
    crate::meter::every_meter_that_is_on_is_shown_once(enabled@, 4);
    assert(windows(l) =~= all);
    assert(forall|meter: Meter| #[trigger] crate::meter::place(meter) == switch(meter));
    assert forall|meter: Meter| #[trigger]
        windows(l).contains(meter) <==> enabled[switch(meter)] by {
        assert(all.contains(meter) <==> crate::meter::place(meter) < 4
            && enabled@[crate::meter::place(meter)]);
    }
    if l.root is None {
        assert(!all.contains(Meter::Spectrogram) && !all.contains(Meter::Spectrum)
            && !all.contains(Meter::Loudness) && !all.contains(Meter::Goniometer));
        assert(!windows(l).contains(Meter::Spectrogram));
        assert(!windows(l).contains(Meter::Spectrum));
        assert(!windows(l).contains(Meter::Loudness));
        assert(!windows(l).contains(Meter::Goniometer));
    } else {
        let meter = windows(l)[0];
        assert(windows(l).contains(meter));
    }
}

/// Each meter has its own title.
pub proof fn titles_differ(a: Meter, b: Meter, s: &'static str, t: &'static str)
    requires
        call_ensures(Meter::title, (a,), s),
        call_ensures(Meter::title, (b,), t),
        a != b,
    ensures
        s@ != t@,
        a is Spectrogram ==> s@ == "Спектрограмма"@,
        a is Spectrum ==> s@ == "Спектр"@,
        a is Loudness ==> s@ == "Громкость"@,
        a is Goniometer ==> s@ == "Гониометр"@,
{
    reveal_strlit("Спектрограмма");
    reveal_strlit("Спектр");
    reveal_strlit("Громкость");
    reveal_strlit("Гониометр");
    assert("Спектрограмма"@.len() == 13 && "Спектр"@.len() == 6);
    assert("Громкость"@[1] != "Гониометр"@[1]);
}

/// Every panel stands in the window of exactly one meter, and in it once; readings stand above
/// what they are read off.
pub proof fn every_panel_has_one_window(
    a: Meter,
    b: Meter,
    p: Vec<Panel>,
    q: Vec<Panel>,
    i: int,
    j: int,
)
    requires
        call_ensures(Meter::panels, (a,), p),
        call_ensures(Meter::panels, (b,), q),
        0 <= i < p@.len(),
        0 <= j < q@.len(),
        p@[i] == q@[j],
    ensures
        a == b,
        i == j,
        p@[i] is Spectrogram <==> a is Spectrogram,
        p@[i] is Spectrum <==> a is Spectrum,
        p@[i] is Loudness ==> a is Loudness && i == 0,
        p@[i] is Peaks ==> a is Loudness && i == 1,
        p@[i] is Correlation ==> a is Goniometer && i == 0,
        p@[i] is Goniometer ==> a is Goniometer && i == 1,
{
}

/// A window starts at the size of its meter: wide for what runs along an axis, small for what
/// does not.
pub proof fn windows_start_at_their_size(meter: Meter, size: [u16; 2])
    requires
        call_ensures(Meter::default_size, (meter,), size),
    ensures
        meter is Spectrogram ==> size[0] == 640 && size[1] == 260,
        meter is Spectrum ==> size[0] == 640 && size[1] == 220,
        meter is Loudness ==> size[0] == 300 && size[1] == 190,
        meter is Goniometer ==> size[0] == 280 && size[1] == 340,
{
}

/// A drag on the grip resizes, also where the body lies under it; one on the body alone moves.
pub proof fn the_grip_goes_first(grip: bool, body: bool, drag: Option<Drag>)
    requires
        call_ensures(crate::meter::drag_command, (grip, body), drag),
    ensures
        drag is Some <==> grip || body,
        grip ==> drag->0 is Resize,
        !grip && body ==> drag->0 is Move,
{
}

} // verus!
