//! The meters, the windows that show them, and what they read out.

use crate::color::END;
use crate::level::{Level, ZERO};
use crate::math::Math;
use vstd::prelude::*;

verus! {

/// A meter, shown in a window of its own.
#[derive(Clone, Copy, PartialEq, Eq, Structural, Debug)]
pub enum Meter {
    Spectrogram,
    Spectrum,
    Loudness,
    Goniometer,
}

/// Number of meters.
pub const METERS: usize = 4;

/// One part of a meter's window.
#[derive(Clone, Copy, PartialEq, Eq, Structural, Debug)]
pub enum Panel {
    Spectrogram,
    Spectrum,
    Loudness,
    Peaks,
    Correlation,
    Goniometer,
}

/// The place of a meter among the meters.
pub open spec fn place(meter: Meter) -> int {
    match meter {
        Meter::Spectrogram => 0,
        Meter::Spectrum => 1,
        Meter::Loudness => 2,
        Meter::Goniometer => 3,
    }
}

/// The meter at a place.
pub open spec fn meter_at(i: int) -> Meter {
    if i <= 0 {
        Meter::Spectrogram
    } else if i == 1 {
        Meter::Spectrum
    } else if i == 2 {
        Meter::Loudness
    } else {
        Meter::Goniometer
    }
}

/// What a meter is called.
pub open spec fn title_of(meter: Meter) -> Seq<char> {
    match meter {
        Meter::Spectrogram => "Спектрограмма"@,
        Meter::Spectrum => "Спектр"@,
        Meter::Loudness => "Громкость"@,
        Meter::Goniometer => "Гониометр"@,
    }
}

/// Every meter has one place, and every place one meter.
pub proof fn places_number_the_meters()
    ensures
        forall|meter: Meter|
            0 <= #[trigger] place(meter) < METERS && meter_at(place(meter)) == meter,
        forall|i: int| 0 <= i < METERS ==> place(#[trigger] meter_at(i)) == i,
{
}

impl Meter {
    /// The place of the meter among the meters.
    pub fn index(self) -> (i: usize)
        ensures
            i == place(self),
            i < METERS,
    {
        match self {
            Meter::Spectrogram => 0,
            Meter::Spectrum => 1,
            Meter::Loudness => 2,
            Meter::Goniometer => 3,
        }
    }

    /// The meter at a place.
    pub fn at(i: usize) -> (meter: Meter)
        requires
            i < METERS,
        ensures
            meter == meter_at(i as int),
    {
        if i == 0 {
            Meter::Spectrogram
        } else if i == 1 {
            Meter::Spectrum
        } else if i == 2 {
            Meter::Loudness
        } else {
            Meter::Goniometer
        }
    }

    /// What the meter is called.
    pub fn title(self) -> (t: &'static str)
        ensures
            t@ == title_of(self),
    {
        match self {
            Meter::Spectrogram => "Спектрограмма",
            Meter::Spectrum => "Спектр",
            Meter::Loudness => "Громкость",
            Meter::Goniometer => "Гониометр",
        }
    }

    /// Width and height that the window of the meter starts with, in points.
    pub fn default_size(self) -> (size: [u16; 2])
        ensures
            (size[0], size[1]) == (match self {
                Meter::Spectrogram => (640u16, 260u16),
                Meter::Spectrum => (640u16, 220u16),
                Meter::Loudness => (300u16, 190u16),
                Meter::Goniometer => (280u16, 340u16),
            }),
    {
        match self {
            Meter::Spectrogram => [640, 260],
            Meter::Spectrum => [640, 220],
            Meter::Loudness => [300, 190],
            Meter::Goniometer => [280, 340],
        }
    }

    /// The parts of the meter's window, from top to bottom.
    pub fn panels(self) -> (parts: Vec<Panel>)
        ensures
            parts@ == (match self {
                Meter::Spectrogram => seq![Panel::Spectrogram],
                Meter::Spectrum => seq![Panel::Spectrum],
                Meter::Loudness => seq![Panel::Loudness, Panel::Peaks],
                Meter::Goniometer => seq![Panel::Correlation, Panel::Goniometer],
            }),
    {
        let mut parts: Vec<Panel> = Vec::new();
        match self {
            Meter::Spectrogram => parts.push(Panel::Spectrogram),
            Meter::Spectrum => parts.push(Panel::Spectrum),
            Meter::Loudness => {
                parts.push(Panel::Loudness);
                parts.push(Panel::Peaks);
            },
            Meter::Goniometer => {
                parts.push(Panel::Correlation);
                parts.push(Panel::Goniometer);
            },
        }
        parts
    }
}

/// The meters among the first `n` that are switched on, in order.
pub open spec fn shown(enabled: Seq<bool>, n: int) -> Seq<Meter>
    decreases n,
{
    if n <= 0 {
        Seq::empty()
    } else if enabled[n - 1] {
        shown(enabled, n - 1).push(meter_at(n - 1))
    } else {
        shown(enabled, n - 1)
    }
}

/// Which window shows what. There is no separate main window: the first meter that is on
/// is the root window, and there is a placeholder when none is.
pub struct Layout {
    pub root: Option<Meter>,
    pub others: Vec<Meter>,
}

/// The windows for the meters that are switched on.
pub fn layout(enabled: &[bool; METERS]) -> (l: Layout)
    ensures
        l.root is None <==> shown(enabled@, METERS as int).len() == 0,
        l.root is None ==> l.others@.len() == 0,
        l.root matches Some(meter) ==> seq![meter] + l.others@ == shown(
            enabled@,
            METERS as int,
        ),
{
    let mut on: Vec<Meter> = Vec::new();
    let mut i: usize = 0;
    while i < METERS
        invariant
            i <= METERS,
            on@ == shown(enabled@, i as int),
        decreases METERS - i,
    {
        if enabled[i] {
            on.push(Meter::at(i));
        }
        i += 1;
    }
    let ghost all = on@;
    if on.len() == 0 {
        Layout { root: None, others: on }
    } else {
        let root = on.remove(0);
        assert(seq![root] + on@ =~= all);
        Layout { root: Some(root), others: on }
    }
}

/// A meter among the first `n` is shown if and only if it is on, the meters shown stand in
/// the order of their places, and so none is shown twice.
pub proof fn every_meter_that_is_on_is_shown_once(enabled: Seq<bool>, n: int)
    requires
        0 <= n <= METERS,
        enabled.len() == METERS,
    ensures
        forall|meter: Meter|
            #[trigger] shown(enabled, n).contains(meter) <==> place(meter) < n
                && enabled[place(meter)],
        forall|i: int, j: int|
            0 <= i < j < shown(enabled, n).len() ==> place(#[trigger] shown(enabled, n)[i])
                < place(#[trigger] shown(enabled, n)[j]),
    decreases n,
{
    if n > 0 {
        every_meter_that_is_on_is_shown_once(enabled, n - 1);
        let before = shown(enabled, n - 1);
        let after = shown(enabled, n);
        assert forall|meter: Meter| #[trigger] after.contains(meter) <==> place(meter) < n
            && enabled[place(meter)] by {
            assert(before.contains(meter) <==> place(meter) < n - 1 && enabled[place(meter)]);
            if enabled[n - 1] {
                assert(after[before.len() as int] == meter_at(n - 1));
                if before.contains(meter) {
                    let k = before.index_of(meter);
                    assert(after[k] == meter);
                }
                if after.contains(meter) {
                    let k = after.index_of(meter);
                    assert(k < before.len() ==> before[k] == meter);
                }
            }
        }
        assert forall|i: int, j: int| 0 <= i < j < after.len() implies place(#[trigger] after[i])
            < place(#[trigger] after[j]) by {
            assert(before.contains(before[i]) || i >= before.len());
        }
    }
}

/// What dragging a window does.
#[derive(Clone, Copy, PartialEq, Eq, Structural, Debug)]
pub enum Drag {
    /// Resize it by its lower right corner.
    Resize,
    /// Move it.
    Move,
}

/// What a drag does that began on the grip in the corner, or on the body: the grip goes
/// first.
pub fn drag_command(grip: bool, body: bool) -> (drag: Option<Drag>)
    ensures
        drag == (if grip {
            Some(Drag::Resize)
        } else if body {
            Some(Drag::Move)
        } else {
            None
        }),
{
    if grip {
        Some(Drag::Resize)
    } else if body {
        Some(Drag::Move)
    } else {
        None
    }
}

/// Bit pattern of -40: loudness at which the bar is empty, in LUFS.
pub const LOUDNESS_BAR_FLOOR: u32 = 0xC220_0000;

/// Bit pattern of -60: peak at which the bar is empty, in dB.
pub const PEAK_BAR_FLOOR: u32 = 0xC270_0000;

/// `t` is the share of a bar, from 0 to 1, that the value `x` fills when the bar is empty
/// at `floor` and full at 0.
pub open spec fn is_fill<M: Math>(m: &M, x: Level, floor: Level, t: Level) -> bool {
    exists|s: Level| #[trigger]
        call_ensures(M::share, (m, x, floor, Level { bits: ZERO }), s) && t == s.clamp_to(
            Level { bits: ZERO },
            Level { bits: END },
        )
}

/// The share of a bar that a value fills.
fn bar_fill<M: Math>(m: &M, x: Level, floor: Level) -> (t: Level)
    ensures
        is_fill(m, x, floor, t),
{
    proof {
        crate::color::lemma_zero_below_end();
    }
    let s = m.share(x, floor, Level { bits: ZERO });
    s.clamped(Level { bits: ZERO }, Level { bits: END })
}

/// The share of the loudness bar that a loudness fills.
pub fn loudness_fill<M: Math>(m: &M, lufs: Level) -> (t: Level)
    ensures
        is_fill(m, lufs, Level { bits: LOUDNESS_BAR_FLOOR }, t),
{
    bar_fill(m, lufs, Level { bits: LOUDNESS_BAR_FLOOR })
}

/// The share of a peak bar that a peak fills; also where the marker of a held peak stands.
pub fn peak_fill<M: Math>(m: &M, db: Level) -> (t: Level)
    ensures
        is_fill(m, db, Level { bits: PEAK_BAR_FLOOR }, t),
{
    bar_fill(m, db, Level { bits: PEAK_BAR_FLOOR })
}

/// A bar is never drawn past its ends: whenever the share is a number, it lies between 0
/// and 1.
pub proof fn bars_stay_within_their_ends<M: Math>(m: &M, x: Level, floor: Level, t: Level)
    requires
        is_fill(m, x, floor, t),
        !t.nan(),
    ensures
        (Level { bits: ZERO }).within(t),
        t.within(Level { bits: END }),
{
    crate::color::lemma_zero_below_end();
}

/// What the loudness meter reads out: the digits of a finite loudness.
pub fn loudness_readout(lufs: Level, digits: String) -> (text: String)
    ensures
        text@ == (if lufs.magnitude() < crate::level::LEVEL_INFINITY {
            digits@
        } else {
            "  -∞  "@
        }),
{
    if lufs.is_finite() {
        digits
    } else {
        "  -∞  ".to_owned()
    }
}

/// What a peak meter reads out: the digits of a finite peak.
pub fn peak_readout(db: Level, digits: String) -> (text: String)
    ensures
        text@ == (if db.magnitude() < crate::level::LEVEL_INFINITY {
            digits@
        } else {
            "-∞"@
        }),
{
    if db.is_finite() {
        digits
    } else {
        "-∞".to_owned()
    }
}

} // verus!
