//! The floating-point formulas the meters are computed with.

use crate::level::{Level, Wide};
use vstd::prelude::*;

verus! {

/// Floating-point arithmetic, one formula per method.
///
/// The meters decide when to compute what and where the outcome goes; an implementation
/// of this trait does the computing. Nothing is assumed of what a method returns: the
/// contracts of the meters say of which call, on which arguments, each of their results
/// is an outcome.
pub trait Math {
    /// State of the K-weighting filters of both channels.
    type Filters;

    /// Spectrum of one analysis window.
    type Spectrum;

    /// `x * by`.
    fn scale(&self, x: Level, by: Level) -> Level;

    /// `a - b`.
    fn minus(&self, a: Level, b: Level) -> Level;

    /// `1 / x`.
    fn inverse(&self, x: Level) -> Level;

    /// `20 * log10(x)`.
    fn decibels(&self, x: Level) -> Level;

    /// `10^(db / 20)`.
    fn gain(&self, db: Level) -> Level;

    /// The quantity at single precision.
    fn narrow(&self, x: Wide) -> Level;

    /// `a - b`.
    fn wide_minus(&self, a: Wide, b: Wide) -> Wide;

    /// K-weighting filters at rest, prewarped to a sample rate of `rate`.
    fn filters(&self, rate: u32) -> Self::Filters;

    /// The filters after one more frame, and the K-weighted power of that frame summed
    /// over the channels.
    fn weigh(&self, filters: &Self::Filters, frame: [Level; 2]) -> (Self::Filters, Level);

    /// The factor per sample that falls by `db` decibels per second: `10^(-db / (20 rate))`.
    fn peak_decay(&self, db: Level, rate: u32) -> Level;

    /// `sum + power`.
    fn gather(&self, sum: Wide, power: Level) -> Wide;

    /// `sum - power`.
    fn shed(&self, sum: Wide, power: Level) -> Wide;

    /// `sum / count`.
    fn mean(&self, sum: Wide, count: usize) -> Level;

    /// The loudness of a positive power: `-0.691 + 10 log10(power)`.
    fn loudness(&self, power: Level) -> Level;

    /// The power of a loudness: `10^((loudness + 0.691) / 10)`.
    fn power(&self, loudness: Level) -> Level;

    /// `sum + a * b`.
    fn gather_product(&self, sum: Wide, a: Level, b: Level) -> Wide;

    /// `sum - a * b`.
    fn shed_product(&self, sum: Wide, a: Level, b: Level) -> Wide;

    /// `sqrt(a * b)`.
    fn geometric_mean(&self, a: Wide, b: Wide) -> Wide;

    /// `a / b`.
    fn ratio(&self, a: Wide, b: Wide) -> Wide;

    /// `0.5 * (left + right)`.
    fn mix(&self, left: Level, right: Level) -> Level;

    /// `sample` times the analysis window at `index`.
    fn windowed(&self, sample: Level, index: usize) -> Level;

    /// The spectrum of a windowed buffer.
    fn transform(&self, buffer: &Vec<Level>) -> Self::Spectrum;

    /// The normalized magnitude of one bin of a spectrum.
    fn magnitude(&self, spectrum: &Self::Spectrum, bin: usize) -> Level;

    /// `from + (to - from) * share`.
    fn approach(&self, from: Level, to: Level, share: Level) -> Level;

    /// `rate / hz`.
    fn samples_per(&self, rate: u32, hz: Level) -> Level;

    /// The share of the way covered in `samples` samples by a release with the time
    /// constant `tau`: `1 - exp(-(samples / rate) / tau)`.
    fn release(&self, samples: Level, rate: u32, tau: Level) -> Level;

    /// `columns / seconds`.
    fn column_rate(&self, columns: usize, seconds: Level) -> Level;

    /// The fractional bin of the upper edge of row `row` out of `rows`, at the sample rate
    /// `rate`, on a logarithmic axis that falls from the frequency `top / 2` at the edge 0 to
    /// the lowest shown one at the edge `rows`.
    fn row_edge(&self, rate: u32, top: u32, rows: usize, row: usize) -> Level;

    /// The fractional bin of the lower or the upper edge of the span that the point `point`
    /// of a curve with `steps` steps stands for, at the sample rate `rate`, on a logarithmic
    /// axis that rises from the lowest shown frequency to `top / 2`.
    fn point_edge(
        &self,
        rate: u32,
        top: u32,
        steps: usize,
        point: usize,
        upper: bool,
    ) -> Level;

    /// `0.5 * (a + b)`.
    fn midpoint(&self, a: Level, b: Level) -> Level;

    /// The value at the fractional index `at` between `a`, at the index `below`, and `b`,
    /// at the next one.
    fn interpolate(&self, a: Level, b: Level, at: Level, below: usize) -> Level;

    /// `(x - from) / (to - from)`.
    fn share(&self, x: Level, from: Level, to: Level) -> Level;

    /// `a + (b - a) * share`, cut to a whole number.
    fn blend(&self, a: u8, b: u8, share: Level) -> u8;

    /// `position + seconds * (columns / span)`, for a time in nanoseconds.
    fn scroll_by(&self, position: Wide, nanos: u64, columns: usize, span: Level) -> Wide;

    /// `count - x`.
    fn count_minus(&self, count: u64, x: Wide) -> Wide;

    /// `position + error * share`.
    fn ease(&self, position: Wide, error: Wide, share: Wide) -> Wide;
}

/// Every formula of the loudness meter has one outcome for its arguments.
pub open spec fn loudness_is_settled<M: Math>(m: &M) -> bool {
    &&& forall|x: Level, by: Level, r: Level, q: Level| #[trigger]
        call_ensures(M::scale, (m, x, by), r) && #[trigger] call_ensures(M::scale, (m, x, by), q)
            ==> r == q
    &&& forall|a: Level, b: Level, r: Level, q: Level| #[trigger]
        call_ensures(M::minus, (m, a, b), r) && #[trigger] call_ensures(M::minus, (m, a, b), q)
            ==> r == q
    &&& forall|x: Level, r: Level, q: Level| #[trigger]
        call_ensures(M::decibels, (m, x), r) && #[trigger] call_ensures(M::decibels, (m, x), q)
            ==> r == q
    &&& forall|filters: M::Filters, frame: [Level; 2], r: (M::Filters, Level), q: (M::Filters, Level)| #[trigger]
        call_ensures(M::weigh, (m, &filters, frame), r) && #[trigger] call_ensures(M::weigh, (m, &filters, frame), q)
            ==> r == q
    &&& forall|sum: Wide, power: Level, r: Wide, q: Wide| #[trigger]
        call_ensures(M::gather, (m, sum, power), r) && #[trigger] call_ensures(M::gather, (m, sum, power), q)
            ==> r == q
    &&& forall|sum: Wide, power: Level, r: Wide, q: Wide| #[trigger]
        call_ensures(M::shed, (m, sum, power), r) && #[trigger] call_ensures(M::shed, (m, sum, power), q)
            ==> r == q
    &&& forall|sum: Wide, count: usize, r: Level, q: Level| #[trigger]
        call_ensures(M::mean, (m, sum, count), r) && #[trigger] call_ensures(M::mean, (m, sum, count), q)
            ==> r == q
    &&& forall|power: Level, r: Level, q: Level| #[trigger]
        call_ensures(M::loudness, (m, power), r) && #[trigger] call_ensures(M::loudness, (m, power), q)
            ==> r == q
    &&& forall|loudness: Level, r: Level, q: Level| #[trigger]
        call_ensures(M::power, (m, loudness), r) && #[trigger] call_ensures(M::power, (m, loudness), q)
            ==> r == q
}

/// Every formula of the correlation meter has one outcome for its arguments.
pub open spec fn correlation_is_settled<M: Math>(m: &M) -> bool {
    &&& forall|sum: Wide, a: Level, b: Level, r: Wide, q: Wide| #[trigger]
        call_ensures(M::gather_product, (m, sum, a, b), r) && #[trigger] call_ensures(M::gather_product, (m, sum, a, b), q)
            ==> r == q
    &&& forall|sum: Wide, a: Level, b: Level, r: Wide, q: Wide| #[trigger]
        call_ensures(M::shed_product, (m, sum, a, b), r) && #[trigger] call_ensures(M::shed_product, (m, sum, a, b), q)
            ==> r == q
    &&& forall|a: Wide, b: Wide, r: Wide, q: Wide| #[trigger]
        call_ensures(M::geometric_mean, (m, a, b), r) && #[trigger] call_ensures(M::geometric_mean, (m, a, b), q)
            ==> r == q
    &&& forall|a: Wide, b: Wide, r: Wide, q: Wide| #[trigger]
        call_ensures(M::ratio, (m, a, b), r) && #[trigger] call_ensures(M::ratio, (m, a, b), q)
            ==> r == q
    &&& forall|x: Wide, r: Level, q: Level| #[trigger]
        call_ensures(M::narrow, (m, x), r) && #[trigger] call_ensures(M::narrow, (m, x), q)
            ==> r == q
}

/// Every formula of the spectrum has one outcome for its arguments.
pub open spec fn spectrum_is_settled<M: Math>(m: &M) -> bool {
    &&& forall|left: Level, right: Level, r: Level, q: Level| #[trigger]
        call_ensures(M::mix, (m, left, right), r) && #[trigger] call_ensures(M::mix, (m, left, right), q)
            ==> r == q
    &&& forall|sample: Level, index: usize, r: Level, q: Level| #[trigger]
        call_ensures(M::windowed, (m, sample, index), r) && #[trigger] call_ensures(M::windowed, (m, sample, index), q)
            ==> r == q
    &&& forall|a: Vec<Level>, b: Vec<Level>, r: M::Spectrum, q: M::Spectrum| #[trigger]
        call_ensures(M::transform, (m, &a), r) && #[trigger] call_ensures(
            M::transform,
            (m, &b),
            q,
        ) && a@ == b@ ==> r == q
    &&& forall|spectrum: M::Spectrum, bin: usize, r: Level, q: Level| #[trigger]
        call_ensures(M::magnitude, (m, &spectrum, bin), r) && #[trigger] call_ensures(M::magnitude, (m, &spectrum, bin), q)
            ==> r == q
    &&& forall|x: Level, r: Level, q: Level| #[trigger]
        call_ensures(M::decibels, (m, x), r) && #[trigger] call_ensures(M::decibels, (m, x), q)
            ==> r == q
    &&& forall|from: Level, to: Level, share: Level, r: Level, q: Level| #[trigger]
        call_ensures(M::approach, (m, from, to, share), r) && #[trigger] call_ensures(M::approach, (m, from, to, share), q)
            ==> r == q
}

/// Every formula that the analysis of a stream applies has one outcome for its arguments.
pub open spec fn is_settled<M: Math>(m: &M) -> bool {
    loudness_is_settled(m) && correlation_is_settled(m) && spectrum_is_settled(m)
}

} // verus!
