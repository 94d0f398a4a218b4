//! The meters, run on real audio with real formulas.

use sonora::analysis::{Analyzer, Snapshot, DEFAULT_COLUMN_RATE_HZ};
use sonora::band::{sample_band, sample_spectrum};
use sonora::color::{level_color, magma, Rgb};
use sonora::correlation::Correlation;
use sonora::curve::spectrum_curve;
use sonora::engine::{Engine, INITIAL_RATE};
use sonora::loudness::{loudness_from_power, LoudnessMeter};
use sonora::meter::{loudness_fill, peak_fill};
use sonora::process_capture::endpoint_gain;
use sonora::spectrogram::{background, Spectrogram};

use std::f32::consts::PI;
use std::sync::Arc;

use rustfft::num_complex::Complex;
use rustfft::{Fft, FftPlanner};
use sonora::analysis::{FFT_SIZE, SPECTRUM_BINS};
use sonora::level::{Level, Wide};
use sonora::math::Math;

/// Lowest frequency on a frequency axis, in Hz.
const F_MIN: f32 = 20.0;
/// Highest frequency on a frequency axis, in Hz.
const F_MAX: f32 = 20_000.0;

/// The number behind a level.
fn number(level: Level) -> f32 {
    f32::from_bits(level.bits)
}

/// The level of a number.
fn level(x: f32) -> Level {
    Level { bits: x.to_bits() }
}

fn wide_number(wide: Wide) -> f64 {
    f64::from_bits(wide.bits)
}

fn wide(x: f64) -> Wide {
    Wide { bits: x.to_bits() }
}

/// Transposed direct-form II biquad: floating point.
#[derive(Clone, Copy)]
struct Biquad {
    b0: f32,
    b1: f32,
    b2: f32,
    a1: f32,
    a2: f32,
    z1: f32,
    z2: f32,
}

impl Biquad {
    fn new(b0: f32, b1: f32, b2: f32, a1: f32, a2: f32) -> Self {
        Self { b0, b1, b2, a1, a2, z1: 0.0, z2: 0.0 }
    }

    fn process(&mut self, x: f32) -> f32 {
        let y = self.b0 * x + self.z1;
        self.z1 = self.b1 * x - self.a1 * y + self.z2;
        self.z2 = self.b2 * x - self.a2 * y;
        y
    }
}

/// K-weighting pre-filter (high shelf), prewarped to `fs`: floating point.
fn kweight_shelf(fs: f32) -> Biquad {
    let f0 = 1681.974450955533;
    let g = 3.999843853973347_f32; // dB
    let q = 0.7071752369554196_f32;
    let a = 10f32.powf(g / 40.0);
    let w0 = 2.0 * PI * f0 / fs;
    let cosw0 = w0.cos();
    let alpha = w0.sin() / (2.0 * q);
    let sa = a.sqrt();

    let b0 = a * ((a + 1.0) + (a - 1.0) * cosw0 + 2.0 * sa * alpha);
    let b1 = -2.0 * a * ((a - 1.0) + (a + 1.0) * cosw0);
    let b2 = a * ((a + 1.0) + (a - 1.0) * cosw0 - 2.0 * sa * alpha);
    let a0 = (a + 1.0) - (a - 1.0) * cosw0 + 2.0 * sa * alpha;
    let a1 = 2.0 * ((a - 1.0) - (a + 1.0) * cosw0);
    let a2 = (a + 1.0) - (a - 1.0) * cosw0 - 2.0 * sa * alpha;
    Biquad::new(b0 / a0, b1 / a0, b2 / a0, a1 / a0, a2 / a0)
}

/// K-weighting high-pass filter, prewarped to `fs`: floating point.
fn kweight_highpass(fs: f32) -> Biquad {
    let f0 = 38.13547087602444;
    let q = 0.5003270373238773_f32;
    let w0 = 2.0 * PI * f0 / fs;
    let cosw0 = w0.cos();
    let alpha = w0.sin() / (2.0 * q);

    let b0 = (1.0 + cosw0) / 2.0;
    let b1 = -(1.0 + cosw0);
    let b2 = (1.0 + cosw0) / 2.0;
    let a0 = 1.0 + alpha;
    let a1 = -2.0 * cosw0;
    let a2 = 1.0 - alpha;
    Biquad::new(b0 / a0, b1 / a0, b2 / a0, a1 / a0, a2 / a0)
}

/// The analysis window and the transform: floating point.
struct Formulas {
    fft: Arc<dyn Fft<f32>>,
    window: Vec<f32>,
    window_gain: f32,
}

impl Formulas {
    fn new() -> Self {
        let fft = FftPlanner::new().plan_fft_forward(FFT_SIZE);
        // Hann window
        let window: Vec<f32> = (0..FFT_SIZE)
            .map(|n| 0.5 - 0.5 * (2.0 * PI * n as f32 / FFT_SIZE as f32).cos())
            .collect();
        let window_gain = window.iter().sum();
        Self { fft, window, window_gain }
    }
}

/// The highest frequency of an axis and its bins per Hz, from twice that frequency and the
/// sample rate.
fn axis(rate: u32, top: u32) -> (f32, f32) {
    (top as f32 / 2.0, SPECTRUM_BINS as f32 / (rate as f32 / 2.0))
}

/// Each method is one formula in floating point.
impl Math for Formulas {
    /// Both stages of both channels.
    type Filters = [[Biquad; 2]; 2];
    type Spectrum = Vec<Complex<f32>>;

    fn scale(&self, x: Level, by: Level) -> Level {
        level(number(x) * number(by))
    }

    fn minus(&self, a: Level, b: Level) -> Level {
        level(number(a) - number(b))
    }

    fn inverse(&self, x: Level) -> Level {
        level(1.0 / number(x))
    }

    fn decibels(&self, x: Level) -> Level {
        level(20.0 * number(x).log10())
    }

    fn gain(&self, db: Level) -> Level {
        level(10f32.powf(number(db) / 20.0))
    }

    fn narrow(&self, x: Wide) -> Level {
        level(wide_number(x) as f32)
    }

    fn wide_minus(&self, a: Wide, b: Wide) -> Wide {
        wide(wide_number(a) - wide_number(b))
    }

    fn filters(&self, rate: u32) -> Self::Filters {
        let stages = [kweight_shelf(rate as f32), kweight_highpass(rate as f32)];
        [stages, stages]
    }

    fn weigh(&self, filters: &Self::Filters, frame: [Level; 2]) -> (Self::Filters, Level) {
        let mut next = *filters;
        let mut power = 0.0;
        for (stages, sample) in next.iter_mut().zip(frame) {
            let shelved = stages[0].process(number(sample));
            let weighted = stages[1].process(shelved);
            power += weighted * weighted;
        }
        (next, level(power))
    }

    fn peak_decay(&self, db: Level, rate: u32) -> Level {
        level(10f32.powf(-number(db) / (20.0 * rate as f32)))
    }

    fn gather(&self, sum: Wide, power: Level) -> Wide {
        wide(wide_number(sum) + number(power) as f64)
    }

    fn shed(&self, sum: Wide, power: Level) -> Wide {
        wide(wide_number(sum) - number(power) as f64)
    }

    fn mean(&self, sum: Wide, count: usize) -> Level {
        level((wide_number(sum) / count as f64) as f32)
    }

    fn loudness(&self, power: Level) -> Level {
        level(-0.691 + 10.0 * number(power).log10())
    }

    fn power(&self, loudness: Level) -> Level {
        level(10f32.powf((number(loudness) + 0.691) / 10.0))
    }

    fn gather_product(&self, sum: Wide, a: Level, b: Level) -> Wide {
        wide(wide_number(sum) + number(a) as f64 * number(b) as f64)
    }

    fn shed_product(&self, sum: Wide, a: Level, b: Level) -> Wide {
        wide(wide_number(sum) - number(a) as f64 * number(b) as f64)
    }

    fn geometric_mean(&self, a: Wide, b: Wide) -> Wide {
        wide((wide_number(a) * wide_number(b)).sqrt())
    }

    fn ratio(&self, a: Wide, b: Wide) -> Wide {
        wide(wide_number(a) / wide_number(b))
    }

    fn mix(&self, left: Level, right: Level) -> Level {
        level(0.5 * (number(left) + number(right)))
    }

    fn windowed(&self, sample: Level, index: usize) -> Level {
        level(number(sample) * self.window[index])
    }

    fn transform(&self, buffer: &Vec<Level>) -> Self::Spectrum {
        let mut bins: Vec<Complex<f32>> =
            buffer.iter().map(|&s| Complex::new(number(s), 0.0)).collect();
        self.fft.process(&mut bins);
        bins
    }

    fn magnitude(&self, spectrum: &Self::Spectrum, bin: usize) -> Level {
        level(spectrum[bin].norm() * (2.0 / self.window_gain))
    }

    fn approach(&self, from: Level, to: Level, share: Level) -> Level {
        level(number(from) + (number(to) - number(from)) * number(share))
    }

    fn samples_per(&self, rate: u32, hz: Level) -> Level {
        level(rate as f32 / number(hz))
    }

    fn release(&self, samples: Level, rate: u32, tau: Level) -> Level {
        level(1.0 - (-(number(samples) / rate as f32) / number(tau)).exp())
    }

    fn column_rate(&self, columns: usize, seconds: Level) -> Level {
        level(columns as f32 / number(seconds))
    }

    fn row_edge(&self, rate: u32, top: u32, rows: usize, row: usize) -> Level {
        let (f_max, bins_per_hz) = axis(rate, top);
        level(f_max * (F_MIN / f_max).powf(row as f32 / rows as f32) * bins_per_hz)
    }

    fn point_edge(
        &self,
        rate: u32,
        top: u32,
        steps: usize,
        point: usize,
        upper: bool,
    ) -> Level {
        let (f_max, bins_per_hz) = axis(rate, top);
        let fx = point as f32 / steps as f32;
        let off = if upper { 0.5 } else { -0.5 };
        level(F_MIN * (f_max / F_MIN).powf(fx + off / steps as f32) * bins_per_hz)
    }

    fn midpoint(&self, a: Level, b: Level) -> Level {
        level(0.5 * (number(a) + number(b)))
    }

    fn interpolate(&self, a: Level, b: Level, at: Level, below: usize) -> Level {
        let frac = number(at) - below as f32;
        level(number(a) * (1.0 - frac) + number(b) * frac)
    }

    fn share(&self, x: Level, from: Level, to: Level) -> Level {
        level((number(x) - number(from)) / (number(to) - number(from)))
    }

    fn blend(&self, a: u8, b: u8, share: Level) -> u8 {
        let (a, b) = (a as f32, b as f32);
        (a + (b - a) * number(share)) as u8
    }

    fn scroll_by(&self, position: Wide, nanos: u64, columns: usize, span: Level) -> Wide {
        let rate = columns as f64 / number(span) as f64;
        wide(wide_number(position) + nanos as f64 / 1e9 * rate)
    }

    fn count_minus(&self, count: u64, x: Wide) -> Wide {
        wide(count as f64 - wide_number(x))
    }

    fn ease(&self, position: Wide, error: Wide, share: Wide) -> Wide {
        wide(wide_number(position) + wide_number(error) * wide_number(share))
    }
}

fn frames(audio: &[[f32; 2]]) -> Vec<[Level; 2]> {
    audio.iter().map(|f| [level(f[0]), level(f[1])]).collect()
}

fn levels(xs: &[f32]) -> Vec<Level> {
    xs.iter().map(|&x| level(x)).collect()
}

fn tone(fs: f32, freq: f32, amp: f32, n: usize) -> Vec<[Level; 2]> {
    (0..n)
        .map(|i| {
            let s = amp * (2.0 * PI * freq * i as f32 / fs).sin();
            [level(s), level(s)]
        })
        .collect()
}

#[test]
fn peak_falls_at_20db_per_second() {
    let f = Formulas::new();
    for fs in [44100.0f32, 48000.0, 96000.0] {
        let mut m = LoudnessMeter::new(&f, fs as u32);
        m.process(&f, &frames(&[[1.0, 1.0]]));
        let start = 20.0 * number(m.peak[0]).log10();
        m.process(&f, &frames(&vec![[0.0, 0.0]; fs as usize])); // one second of silence
        let end = 20.0 * number(m.peak[0]).log10();
        let fall = start - end;
        assert!((fall - 20.0).abs() < 0.1, "fs={fs}: fell {fall} dB/s");
    }
}

#[test]
fn column_rate_is_independent_of_call_size() {
    let f = Formulas::new();
    let fs = 48_000u32;
    // same 1 s of audio, delivered in one chunk vs. in 1 ms chunks
    let mut a = Analyzer::new(&f, fs);
    a.process(&f, &tone(fs as f32, 1000.0, 0.5, fs as usize));
    let bulk = a.snapshot(&f).columns.len();

    let mut b = Analyzer::new(&f, fs);
    let mut drip = 0;
    for chunk in tone(fs as f32, 1000.0, 0.5, fs as usize).chunks(48) {
        b.process(&f, chunk);
        drip += b.snapshot(&f).columns.len();
    }
    assert_eq!(bulk, drip, "bulk={bulk} drip={drip}");
    let expected = f32::from_bits(DEFAULT_COLUMN_RATE_HZ) as usize;
    assert_eq!(bulk, expected, "expected 50 columns for 1 s");
    assert_eq!(expected, 50);
}

/// One column per pixel of width is asked for, so however wide the window is, the
/// spectrogram must still take the same time to fill.
#[test]
fn column_rate_keeps_the_time_span_constant() {
    let f = Formulas::new();
    let fs = 48_000u32;
    for width in [512usize, 2112, 3840] {
        let mut a = Analyzer::new(&f, fs);
        a.set_column_rate(&f, level(width as f32 / 10.0));
        let audio = tone(fs as f32, 1000.0, 0.5, fs as usize * 10); // 10 s
        let mut total = 0;
        for chunk in audio.chunks(fs as usize / 60) {
            a.process(&f, chunk);
            total += a.snapshot(&f).columns.len();
        }
        let err = (total as i64 - width as i64).abs();
        assert!(err <= 2, "width {width}: 10 s produced {total} columns");
    }
}

#[test]
fn full_scale_sine_reads_near_0_dbfs() {
    let f = Formulas::new();
    let fs = 48_000u32;
    let mut a = Analyzer::new(&f, fs);
    // exactly on bin 86, so there is no scalloping loss to account for
    let freq = 86.0 * fs as f32 / FFT_SIZE as f32;
    a.process(&f, &tone(fs as f32, freq, 1.0, fs as usize));
    let snap = a.snapshot(&f);
    let bin = (freq / (fs as f32 / 2.0) * SPECTRUM_BINS as f32).round() as usize;
    let peak = snap.spectrum_db[bin - 2..bin + 3]
        .iter()
        .map(|&l| number(l))
        .fold(f32::NEG_INFINITY, f32::max);
    assert!(peak > -0.5 && peak < 0.5, "1 kHz full-scale sine read {peak} dBFS");
}

#[test]
fn correlation_does_not_drift_on_long_runs() {
    let f = Formulas::new();
    let fs = 48_000.0f32;
    let mut c = Correlation::new(fs as u32);
    // 3 minutes of decorrelated-ish content, then hard-panned silence check
    let n = (fs * 180.0) as usize;
    let audio: Vec<[Level; 2]> = (0..n)
        .map(|i| {
            let t = i as f32 / fs;
            [level((2.0 * PI * 440.0 * t).sin()), level((2.0 * PI * 440.0 * t).sin())]
        })
        .collect();
    c.process(&f, &audio);
    let v = number(c.value(&f));
    assert!((v - 1.0).abs() < 1e-3, "identical channels gave correlation {v}");
}

/// A 19 kHz tone occupies about 2 bins out of 2048. With one row of a 320-row spectrogram
/// spanning about 37 bins up there, point-sampling misses it almost always; taking the band
/// peak must always find it.
#[test]
fn narrow_high_tone_is_not_missed() {
    let f = Formulas::new();
    let sr = 48_000.0f32;
    let nyquist = sr / 2.0;
    let bins_per_hz = SPECTRUM_BINS as f32 / nyquist;

    let mut spec = levels(&vec![-120.0f32; SPECTRUM_BINS]);
    let tone_bin = (19_000.0 * bins_per_hz).round() as usize;
    spec[tone_bin] = level(-10.0);

    let h = 320usize;
    let f_max = F_MAX.min(nyquist);
    let edge = |i: usize| f_max * (F_MIN / f_max).powf(i as f32 / h as f32);

    let mut found_band = false;
    let mut found_point = false;
    for row in 0..h {
        let (lo, hi) = (edge(row + 1) * bins_per_hz, edge(row) * bins_per_hz);
        if number(sample_band(&f, &spec, level(lo), level(hi))) > -60.0 {
            found_band = true;
        }
        // one interpolated bin per row
        let frac = row as f32 / (h - 1) as f32;
        let bin_f = f_max * (F_MIN / f_max).powf(frac) * bins_per_hz;
        if number(sample_spectrum(&f, &spec, level(bin_f))) > -60.0 {
            found_point = true;
        }
    }
    assert!(found_band, "band sampling lost the 19 kHz tone");
    assert!(!found_point, "point sampling unexpectedly found it — test is not proving anything");
}

/// Below a bin's width the band must interpolate, so the low end stays smooth rather than
/// stair-stepping across the rows that share one bin.
#[test]
fn narrow_bands_interpolate() {
    let f = Formulas::new();
    let spec = levels(&[-40.0, -20.0, -60.0]);
    let band = |lo: f32, hi: f32| number(sample_band(&f, &spec, level(lo), level(hi)));
    assert!((band(0.0, 0.5) - -35.0).abs() < 1e-3);
    assert!((band(0.5, 0.9) - -26.0).abs() < 1e-3);
    // wide enough to span bins: peak wins
    assert!((band(0.0, 2.0) - -20.0).abs() < 1e-3);
}

/// The ring must read back oldest-left / newest-right: writing more columns than it holds
/// and walking it in display order has to give the last `w` in order.
#[test]
fn ring_presents_columns_in_display_order() {
    let f = Formulas::new();
    let (w, h) = (16usize, 4usize);
    let mut eng = Engine::new(&f);
    eng.spectro = Spectrogram::new([w, h]);
    eng.spectro.rebuild_row_bands(&f, 48_000);

    // Each column is flat at a distinct level, so its color identifies it.
    let of = |i: usize| -100.0 + i as f32 * 2.0;
    let n = w + 5; // deliberately wrap past the end
    for i in 0..n {
        let col = vec![level(of(i)); SPECTRUM_BINS];
        eng.spectro.push_spectro_columns(&f, &vec![col]);
    }

    for j in 0..w {
        let ring = (eng.spectro.head + j) % w;
        let expected = n - w + j; // the last w columns written, in order
        let t = ((of(expected) - -100.0) / (-20.0 - -100.0f32)).clamp(0.0, 1.0);
        assert_eq!(
            eng.spectro.img.pixels[ring],
            magma(&f, level(t)),
            "display column {j} holds the wrong data"
        );
    }
}

fn assert_same(a: &Snapshot, b: &Snapshot) {
    assert_eq!(a.spectrum_db, b.spectrum_db);
    assert_eq!(a.momentary, b.momentary);
    assert_eq!(a.short_term, b.short_term);
    assert_eq!(a.integrated, b.integrated);
    assert_eq!(a.peak_db, b.peak_db);
    assert_eq!(a.peak_hold_db, b.peak_hold_db);
    assert_eq!(a.correlation, b.correlation);
    assert_eq!(a.gonio, b.gonio);
    assert_eq!(a.sample_rate, b.sample_rate);
}

#[test]
fn cutting_a_stream_into_calls_changes_nothing() {
    let f = Formulas::new();
    let audio = tone(8_000.0, 440.0, 0.7, 8_000);
    let mut a = Analyzer::new(&f, 8_000);
    a.process(&f, &audio);
    let whole = a.snapshot(&f);

    let mut b = Analyzer::new(&f, 8_000);
    let mut columns = Vec::new();
    let mut last = b.snapshot(&f);
    for chunk in audio.chunks(777) {
        b.process(&f, chunk);
        last = b.snapshot(&f);
        columns.extend(last.columns.iter().cloned());
    }
    assert_same(&whole, &last);
    assert_eq!(whole.columns, columns);
    assert_eq!(columns.len(), 50);
}

#[test]
fn only_the_newest_columns_stay_pending() {
    let f = Formulas::new();
    let mut a = Analyzer::new(&f, 8_000);
    a.set_column_rate(&f, level(8_000.0));
    a.process(&f, &tone(8_000.0, 440.0, 0.7, 1_030));
    let snap = a.snapshot(&f);
    assert_eq!(snap.columns.len(), 1_024);
    assert_eq!(snap.columns[1_023], snap.spectrum_db);
    assert_eq!(a.snapshot(&f).columns.len(), 0);
}

#[test]
fn a_second_snapshot_has_no_columns() {
    let f = Formulas::new();
    let mut a = Analyzer::new(&f, 8_000);
    a.process(&f, &tone(8_000.0, 440.0, 0.7, 4_000));
    let first = a.snapshot(&f);
    assert_eq!(first.columns.len(), 25);
    assert_eq!(first.columns[24], first.spectrum_db);
    assert!(first.columns.iter().all(|c| c.len() == SPECTRUM_BINS));
    let second = a.snapshot(&f);
    assert_same(&first, &second);
    assert!(second.columns.is_empty());
}

#[test]
fn taking_in_nothing_changes_nothing() {
    let f = Formulas::new();
    let mut a = Analyzer::new(&f, 8_000);
    a.process(&f, &tone(8_000.0, 440.0, 0.7, 4_000));
    let first = a.snapshot(&f);
    a.process(&f, &[]);
    assert_same(&first, &a.snapshot(&f));
}

#[test]
fn short_term_loudness_starts_as_momentary_loudness() {
    let f = Formulas::new();
    let mut m = LoudnessMeter::new(&f, 8_000);
    for chunk in tone(8_000.0, 440.0, 0.7, 3_200).chunks(100) {
        m.process(&f, chunk);
        assert_eq!(m.short_term(&f), m.momentary(&f));
        assert_eq!(m.sum_st, m.sum_mom);
    }
    m.process(&f, &frames(&vec![[0.0, 0.0]; 800]));
    assert!(number(m.short_term(&f)) > number(m.momentary(&f)));
}

#[test]
fn no_block_comes_before_the_window_is_full() {
    let f = Formulas::new();
    let mut m = LoudnessMeter::new(&f, 8_000);
    m.process(&f, &tone(8_000.0, 440.0, 0.7, 3_199));
    assert_eq!(m.block_powers.len(), 0);
    assert_eq!(number(m.integrated), f32::NEG_INFINITY);
    m.process(&f, &tone(8_000.0, 440.0, 0.7, 1));
    assert_eq!(m.block_powers.len(), 1);
    assert!(number(m.integrated).is_finite());
}

#[test]
fn column_rate_is_kept_within_a_sample_and_a_second() {
    let f = Formulas::new();
    let mut a = Analyzer::new(&f, 8_000);
    a.set_column_rate(&f, level(1.0e9));
    assert_eq!(a.spectrum_hop, 1);
    a.set_column_rate(&f, level(0.001));
    assert_eq!(a.spectrum_hop, 8_000);
    a.set_column_rate(&f, level(f32::NAN));
    assert_eq!(a.spectrum_hop, 8_000);
    a.set_column_rate(&f, level(146.3));
    assert_eq!(a.spectrum_hop, 54);
}

#[test]
fn silence_has_no_loudness() {
    let f = Formulas::new();
    let mut a = Analyzer::new(&f, 48_000);
    let snap = a.snapshot(&f);
    assert_eq!(number(snap.momentary), f32::NEG_INFINITY);
    assert_eq!(number(snap.short_term), f32::NEG_INFINITY);
    assert_eq!(number(snap.integrated), f32::NEG_INFINITY);
    assert_eq!(number(snap.peak_db[0]), -120.0);
    assert_eq!(number(snap.correlation), 0.0);
    a.process(&f, &frames(&vec![[0.0, 0.0]; 48_000]));
    let snap = a.snapshot(&f);
    assert_eq!(number(snap.momentary), f32::NEG_INFINITY);
    assert_eq!(number(snap.integrated), f32::NEG_INFINITY);
    assert!(snap.spectrum_db.iter().all(|&l| number(l) == -120.0 || number(l) < -119.9));
}

#[test]
fn a_full_scale_tone_reads_its_weighted_power() {
    let f = Formulas::new();
    let mut m = LoudnessMeter::new(&f, 48_000);
    m.process(&f, &tone(48_000.0, 997.0, 1.0, 48_000 * 4));
    // the weighting has a gain of 0.433 dB at 997 Hz
    let near = |l: Level| (number(l) - -0.258).abs() < 0.01;
    assert!(near(m.momentary(&f)), "{}", number(m.momentary(&f)));
    assert!(near(m.short_term(&f)), "{}", number(m.short_term(&f)));
    assert!(near(m.integrated), "{}", number(m.integrated));
}

#[test]
fn quiet_blocks_do_not_count_toward_integrated_loudness() {
    let f = Formulas::new();
    let mut m = LoudnessMeter::new(&f, 48_000);
    m.process(&f, &tone(48_000.0, 997.0, 0.1, 48_000 * 4));
    let loud = number(m.integrated);
    assert!((loud - -20.258).abs() < 0.01, "{loud}");
    // 30 dB below: under the relative gate
    m.process(&f, &tone(48_000.0, 997.0, 0.1 / 31.6, 48_000 * 4));
    let gated = number(m.integrated);
    assert!(gated < loud && loud - gated < 0.2, "{gated}");
    assert!((number(m.momentary(&f)) - -50.25).abs() < 0.02);
}

#[test]
fn blocks_fall_due_every_tenth_of_a_second() {
    let f = Formulas::new();
    let mut m = LoudnessMeter::new(&f, 48_000);
    assert_eq!((m.st_capacity, m.mom_len, m.block_hop), (144_000, 19_200, 4_800));
    m.process(&f, &tone(48_000.0, 997.0, 1.0, 48_000));
    // the first one is due once 0.4 s are there
    assert_eq!(m.block_powers.len(), 7);
    assert_eq!(m.since_hop, 0);
    m.process(&f, &tone(48_000.0, 997.0, 1.0, 4_799));
    assert_eq!(m.block_powers.len(), 7);
    m.process(&f, &tone(48_000.0, 997.0, 1.0, 1));
    assert_eq!(m.block_powers.len(), 8);
    assert_eq!(m.power_ring.len(), 52_800);
}

#[test]
fn the_power_ring_holds_three_seconds() {
    let f = Formulas::new();
    let mut m = LoudnessMeter::new(&f, 8_000);
    m.process(&f, &tone(8_000.0, 100.0, 1.0, 40_000));
    assert_eq!(m.power_ring.len(), 24_000);
    let sum: f64 = m.power_ring.iter().map(|&p| number(p) as f64).sum();
    assert!((f64::from_bits(m.sum_st.bits) - sum).abs() < 1e-6);
    let tail: f64 = m.power_ring.iter().skip(20_800).map(|&p| number(p) as f64).sum();
    assert!((f64::from_bits(m.sum_mom.bits) - tail).abs() < 1e-6);
}

#[test]
fn reset_forgets_integrated_loudness_and_held_peaks_only() {
    let f = Formulas::new();
    let mut a = Analyzer::new(&f, 8_000);
    a.process(&f, &tone(8_000.0, 440.0, 0.5, 8_000));
    let before = a.snapshot(&f);
    assert!(number(before.integrated).is_finite());
    a.reset_integrated();
    let after = a.snapshot(&f);
    assert_eq!(number(after.integrated), f32::NEG_INFINITY);
    assert_eq!(number(after.peak_hold_db[0]), -120.0);
    assert_eq!(after.peak_db, before.peak_db);
    assert_eq!(after.momentary, before.momentary);
    assert_eq!(after.short_term, before.short_term);
}

#[test]
fn the_held_peak_is_the_largest_magnitude() {
    let f = Formulas::new();
    let mut m = LoudnessMeter::new(&f, 48_000);
    m.process(&f, &frames(&[[0.25, -0.75], [-0.5, 0.1], [0.1, 0.1]]));
    assert_eq!(number(m.peak_hold[0]), 0.5);
    assert_eq!(number(m.peak_hold[1]), 0.75);
    assert!(number(m.peak[0]) < 0.5 && number(m.peak[0]) > 0.49);
}

#[test]
fn loudness_of_a_power() {
    let f = Formulas::new();
    assert_eq!(number(loudness_from_power(&f, level(1.0))), -0.691);
    assert_eq!(number(loudness_from_power(&f, level(0.0))), f32::NEG_INFINITY);
    assert_eq!(number(loudness_from_power(&f, level(-1.0))), f32::NEG_INFINITY);
}

#[test]
fn correlation_goes_from_one_to_minus_one() {
    let f = Formulas::new();
    let mut c = Correlation::new(1_000);
    assert_eq!(number(c.value(&f)), 0.0);
    c.process(&f, &frames(&[[0.5, 0.5], [-0.25, -0.25]]));
    assert_eq!(number(c.value(&f)), 1.0);
    let mut c = Correlation::new(1_000);
    c.process(&f, &frames(&[[0.5, -0.5], [-0.25, 0.25]]));
    assert_eq!(number(c.value(&f)), -1.0);
    // one channel only
    let mut c = Correlation::new(1_000);
    c.process(&f, &frames(&[[0.5, 0.0], [-0.25, 0.0]]));
    assert_eq!(number(c.value(&f)), 0.0);
}

#[test]
fn correlation_follows_signs_and_ignores_sides() {
    let f = Formulas::new();
    let audio: Vec<[f32; 2]> = (0..500)
        .map(|i| {
            let t = i as f32 * 0.05;
            [t.sin() * 0.8, (t * 1.1 + 0.3).sin() * 0.5]
        })
        .collect();
    let value = |audio: Vec<[f32; 2]>| {
        let mut c = Correlation::new(1_000);
        c.process(&f, &frames(&audio));
        number(c.value(&f))
    };
    let v = value(audio.clone());
    assert!(v.abs() > 0.01 && v.abs() < 1.0);
    assert_eq!(value(audio.iter().map(|&[l, r]| [r, l]).collect()), v);
    assert_eq!(value(audio.iter().map(|&[l, r]| [-l, r]).collect()), -v);
    assert_eq!(value(audio.iter().map(|&[l, r]| [l, -r]).collect()), -v);
    assert_eq!(value(audio.iter().map(|&[l, r]| [-l, -r]).collect()), v);
}

#[test]
fn the_sums_of_products_stay_those_of_the_window() {
    let f = Formulas::new();
    let mut c = Correlation::new(1_000);
    c.process(&f, &tone(1_000.0, 37.0, 0.9, 50_000));
    let sum: f64 = c.ring.iter().map(|x| number(x[0]) as f64 * number(x[1]) as f64).sum();
    assert!((f64::from_bits(c.slr.bits) - sum).abs() < 1e-9);
}

#[test]
fn the_correlation_window_is_three_tenths_of_a_second() {
    let f = Formulas::new();
    let mut c = Correlation::new(1_000);
    c.process(&f, &frames(&vec![[0.5, -0.5]; 300]));
    assert_eq!(number(c.value(&f)), -1.0);
    c.process(&f, &frames(&vec![[0.5, 0.5]; 150]));
    assert_eq!(number(c.value(&f)), 0.0);
    c.process(&f, &frames(&vec![[0.5, 0.5]; 150]));
    assert_eq!(number(c.value(&f)), 1.0);
    assert_eq!(c.ring.len(), 300);
    assert_eq!(f64::from_bits(c.sll.bits), 75.0);
}

#[test]
fn the_goniometer_holds_the_last_2048_frames() {
    let f = Formulas::new();
    let mut a = Analyzer::new(&f, 48_000);
    let audio: Vec<[Level; 2]> =
        (0..3_000).map(|i| [level(i as f32), level(-(i as f32))]).collect();
    a.process(&f, &audio);
    assert_eq!(a.snapshot(&f).gonio, audio[3_000 - 2_048..].to_vec());
}

#[test]
fn the_spectrum_rises_at_once_and_falls_slowly() {
    let f = Formulas::new();
    let mut a = Analyzer::new(&f, 48_000);
    let freq = 86.0 * 48_000.0 / FFT_SIZE as f32;
    a.process(&f, &tone(48_000.0, freq, 1.0, 4_800));
    let loud = number(a.snapshot(&f).spectrum_db[86]);
    a.process(&f, &frames(&vec![[0.0, 0.0]; 4_800]));
    let falling = number(a.snapshot(&f).spectrum_db[86]);
    assert!(falling < loud && falling > -120.0, "{loud} {falling}");
    a.process(&f, &tone(48_000.0, freq, 1.0, 4_800));
    let again = number(a.snapshot(&f).spectrum_db[86]);
    assert!((again - loud).abs() < 0.1);
}

#[test]
fn an_empty_spectrum_lies_at_the_floor() {
    let f = Formulas::new();
    let none = Vec::new();
    assert_eq!(number(sample_band(&f, &none, level(0.0), level(1.0))), -120.0);
    assert_eq!(number(sample_spectrum(&f, &none, level(0.0))), -120.0);
}

#[test]
fn bands_past_the_ends_take_the_end_bins() {
    let f = Formulas::new();
    let spec = levels(&[-40.0, -20.0, -60.0]);
    assert_eq!(number(sample_band(&f, &spec, level(-5.0), level(-1.0))), -40.0);
    assert_eq!(number(sample_band(&f, &spec, level(7.0), level(9.0))), -60.0);
    assert_eq!(number(sample_spectrum(&f, &spec, level(0.5))), -30.0);
    assert_eq!(number(sample_spectrum(&f, &spec, level(99.0))), -60.0);
    // a wide band touches every bin between the floor and the ceiling of its ends
    let spec = levels(&[-10.0, -20.0, -60.0]);
    assert_eq!(number(sample_band(&f, &spec, level(0.9), level(2.0))), -10.0);
}

#[test]
fn the_color_map_goes_through_its_stops() {
    let f = Formulas::new();
    let at = |t: f32| magma(&f, level(t));
    assert_eq!(at(0.0), Rgb { r: 0, g: 0, b: 4 });
    assert_eq!(at(-3.0), Rgb { r: 0, g: 0, b: 4 });
    assert_eq!(at(0.15), Rgb { r: 40, g: 11, b: 84 });
    assert_eq!(at(0.45), Rgb { r: 159, g: 42, b: 99 });
    assert_eq!(at(0.75), Rgb { r: 245, g: 125, b: 21 });
    assert_eq!(at(1.0), Rgb { r: 252, g: 255, b: 164 });
    assert_eq!(at(7.0), Rgb { r: 252, g: 255, b: 164 });
    assert_eq!(at(0.075), Rgb { r: 20, g: 5, b: 44 });
    for i in -10..1_010 {
        let (low, high) = (at(i as f32 / 1_000.0), at((i + 1) as f32 / 1_000.0));
        assert!(low.r <= high.r && low.g <= high.g, "{i}");
    }
}

#[test]
fn levels_are_colored_from_minus_100_to_minus_20_db() {
    let f = Formulas::new();
    assert_eq!(level_color(&f, level(-100.0)), Rgb { r: 0, g: 0, b: 4 });
    assert_eq!(level_color(&f, level(-140.0)), Rgb { r: 0, g: 0, b: 4 });
    assert_eq!(level_color(&f, level(-20.0)), Rgb { r: 252, g: 255, b: 164 });
    assert_eq!(level_color(&f, level(0.0)), Rgb { r: 252, g: 255, b: 164 });
    assert_eq!(level_color(&f, level(-40.0)), Rgb { r: 245, g: 125, b: 21 });
}

#[test]
fn bars_fill_between_their_ends() {
    let f = Formulas::new();
    assert_eq!(number(loudness_fill(&f, level(-20.0))), 0.5);
    assert_eq!(number(loudness_fill(&f, level(f32::NEG_INFINITY))), 0.0);
    assert_eq!(number(loudness_fill(&f, level(3.0))), 1.0);
    assert_eq!(number(peak_fill(&f, level(-45.0))), 0.25);
    assert_eq!(number(peak_fill(&f, level(-120.0))), 0.0);
    assert_eq!(number(peak_fill(&f, level(0.0))), 1.0);
}

#[test]
fn the_curve_shows_a_flat_spectrum_as_a_line() {
    let f = Formulas::new();
    let flat = vec![level(-50.0); SPECTRUM_BINS];
    let depths = spectrum_curve(&f, &flat, 48_000, 100);
    assert_eq!(depths.len(), 101);
    assert!(depths.iter().all(|&d| (number(d) - 0.5).abs() < 1e-6));
    let loud = vec![level(6.0); SPECTRUM_BINS];
    assert!(spectrum_curve(&f, &loud, 48_000, 10).iter().all(|&d| number(d) == 0.0));
    let quiet = vec![level(-120.0); SPECTRUM_BINS];
    assert!(spectrum_curve(&f, &quiet, 48_000, 10).iter().all(|&d| number(d) == 1.0));
}

#[test]
fn the_gain_of_the_endpoint() {
    let f = Formulas::new();
    assert_eq!(endpoint_gain(&f, None, None), None);
    assert_eq!(endpoint_gain(&f, None, Some(level(-6.0))), None);
    assert_eq!(endpoint_gain(&f, Some(true), None), Some(level(0.0)));
    assert_eq!(endpoint_gain(&f, Some(true), Some(level(-6.0))), Some(level(0.0)));
    assert_eq!(endpoint_gain(&f, Some(false), None), None);
    let gain = endpoint_gain(&f, Some(false), Some(level(-20.0))).map(number);
    assert!((gain.unwrap() - 0.1).abs() < 1e-7);
}

const SECOND: u64 = 1_000_000_000;

#[test]
fn ticks_too_close_together_do_not_run() {
    let f = Formulas::new();
    let mut eng = Engine::new(&f);
    assert_eq!(eng.begin_tick(5 * SECOND), Some(0));
    assert_eq!(eng.begin_tick(5 * SECOND + 11_111_111), None);
    assert_eq!(eng.begin_tick(5 * SECOND + 11_111_112), Some(11_111_112));
    assert_eq!(eng.last_tick, Some(5 * SECOND + 11_111_112));
    assert_eq!(eng.begin_tick(9 * SECOND), Some(250_000_000));
    assert_eq!(eng.begin_tick(SECOND), None);
}

#[test]
fn a_tick_feeds_the_spectrogram() {
    let f = Formulas::new();
    let mut eng = Engine::new(&f);
    assert_eq!(eng.snapshot.sample_rate, INITIAL_RATE);
    eng.attach(&f, 48_000);
    let up = eng.tick(&f, 0, &Vec::new(), None);
    let whole = up.whole.unwrap();
    assert_eq!(whole.size, [512, 320]);
    assert!(whole.pixels.iter().all(|&p| p == background()));
    assert!(up.columns.is_empty());

    // 512 columns over 3.5 s: one every 328 samples
    assert_eq!(eng.analyzer.spectrum_hop, 328);
    let up = eng.tick(&f, SECOND / 60, &tone(48_000.0, 1_000.0, 0.5, 3_280), None);
    assert!(up.whole.is_none());
    assert_eq!(up.columns.len(), 10);
    assert_eq!(eng.spectro.head, 10);
    assert_eq!(eng.spectro.written, 10);
    for (k, patch) in up.columns.iter().enumerate() {
        assert_eq!(patch.x, k);
        assert_eq!(patch.pixels.len(), 320);
        for (y, &p) in patch.pixels.iter().enumerate() {
            assert_eq!(eng.spectro.img.pixels[y * 512 + k], p);
        }
    }
    let view = eng.view();
    assert_eq!(view.spectro_head, 10);
    assert_eq!(view.spectro_size, [512, 320]);
    assert_eq!(view.snapshot.columns.len(), 10);
    assert!(view.has_texture);
}

#[test]
fn dealing_frames_out_to_ticks_changes_nothing() {
    let f = Formulas::new();
    let audio = tone(48_000.0, 1_000.0, 0.5, 3_280);
    let gain = Some(level(0.3));
    let mut a = Engine::new(&f);
    a.attach(&f, 48_000);
    a.compensate = true;
    a.tick(&f, SECOND / 60, &audio, gain);
    let mut b = Engine::new(&f);
    b.attach(&f, 48_000);
    b.compensate = true;
    for chunk in audio.chunks(500) {
        b.tick(&f, SECOND / 60, &chunk.to_vec(), gain);
    }
    assert_same(&a.snapshot, &b.snapshot);
    assert_eq!(a.spectro.img.pixels, b.spectro.img.pixels);
    assert_eq!(a.spectro.head, b.spectro.head);
}

#[test]
fn the_full_width_covers_the_same_time() {
    let f = Formulas::new();
    for rate in [8_000u32, 44_100, 48_000, 96_000] {
        for width in [64usize, 500, 512, 2_112, 4_096] {
            let mut eng = Engine::new(&f);
            eng.spectro = Spectrogram::new([width, 64]);
            eng.attach(&f, rate);
            let (hop, w, r) = (eng.analyzer.spectrum_hop as u64, width as u64, rate as u64);
            assert!(2 * hop * w <= 7 * r && 7 * r < 2 * (hop + 1) * w, "{rate} {width}");
        }
    }
    // 3.5 s of samples fill the width
    let mut eng = Engine::new(&f);
    eng.attach(&f, 8_000);
    eng.analyzer.process(&f, &tone(8_000.0, 440.0, 0.5, 28_000));
    let columns = eng.analyzer.snapshot(&f).columns.len();
    assert_eq!(eng.analyzer.spectrum_hop, 54);
    assert!(columns >= 512 && (columns - 512) * 54 < 512, "{columns}");
}

#[test]
fn rows_of_a_dead_stream_are_made_for_one_hertz() {
    let f = Formulas::new();
    let bands = |rate: u32| {
        let mut s = Spectrogram::new([16, 4]);
        s.rebuild_row_bands(&f, rate);
        s.row_bands.clone()
    };
    assert_eq!(bands(0), bands(2));
    assert_eq!(number(bands(0)[0].1), SPECTRUM_BINS as f32);
}

#[test]
fn the_display_trails_the_newest_column() {
    let f = Formulas::new();
    let mut eng = Engine::new(&f);
    eng.attach(&f, 48_000);
    // far off: snaps to 1.5 columns behind
    let frames = tone(48_000.0, 1_000.0, 0.5, 328 * 20);
    eng.tick(&f, 0, &frames, None);
    assert_eq!(number(eng.scroll_lag), 1.5);
    assert_eq!(f64::from_bits(eng.spectro_scroll.bits), 18.5);
    // no new columns: moves with the time, but never past the newest one
    eng.tick(&f, SECOND / 60, &Vec::new(), None);
    assert_eq!(number(eng.scroll_lag), 0.0);
    for _ in 0..40 {
        eng.tick(&f, SECOND / 60, &Vec::new(), None);
        let lag = number(eng.scroll_lag);
        assert!((0.0..=4.0).contains(&lag));
    }
}

#[test]
fn a_resize_keeps_the_newest_columns() {
    let f = Formulas::new();
    let mut eng = Engine::new(&f);
    eng.attach(&f, 48_000);
    eng.tick(&f, 0, &tone(48_000.0, 1_000.0, 0.5, 328 * 20), None);
    let old = eng.spectro.img.pixels.clone();
    eng.request_size(Some([64, 640]));
    eng.request_size(None);
    assert_eq!(eng.spectro_target, Some([64, 640]));
    let up = eng.tick(&f, SECOND / 60, &Vec::new(), None);
    assert_eq!(eng.spectro_target, None);
    assert_eq!(up.whole.unwrap().size, [64, 640]);
    assert_eq!(eng.spectro.head, 0);
    assert_eq!(eng.spectro.row_bands.len(), 640);
    for j in 0..64 {
        // the display held 492 empty columns, then 20 written ones
        let ring = (20 + 512 - 64 + j) % 512;
        for y in [0usize, 1, 300, 639] {
            assert_eq!(eng.spectro.img.pixels[y * 64 + j], old[y / 2 * 512 + ring]);
        }
    }
    // one column per pixel again: 64 columns over 3.5 s
    assert_eq!(eng.analyzer.spectrum_hop, 2_625);
}

#[test]
fn the_gain_of_the_endpoint_is_divided_out() {
    let f = Formulas::new();
    let quiet = frames(&vec![[0.125, -0.25]; 100]);
    let mut eng = Engine::new(&f);
    eng.attach(&f, 48_000);
    eng.tick(&f, 0, &quiet, Some(level(0.5)));
    assert_eq!(number(eng.analyzer.loudness.peak_hold[0]), 0.125);
    eng.compensate = true;
    assert_eq!(eng.active_gain(Some(level(0.5))), Some(level(0.5)));
    assert_eq!(eng.active_gain(Some(level(0.001))), None);
    assert_eq!(eng.active_gain(Some(level(f32::NAN))), None);
    assert_eq!(eng.active_gain(None), None);
    eng.tick(&f, SECOND / 60, &quiet, Some(level(0.5)));
    assert_eq!(number(eng.analyzer.loudness.peak_hold[0]), 0.25);
    assert_eq!(number(eng.analyzer.loudness.peak_hold[1]), 0.5);
}

#[test]
fn attaching_starts_the_analysis_afresh() {
    let f = Formulas::new();
    let mut eng = Engine::new(&f);
    eng.attach(&f, 48_000);
    eng.tick(&f, 0, &tone(48_000.0, 1_000.0, 0.5, 3_280), None);
    eng.attach(&f, 44_100);
    assert_eq!(eng.analyzer.sample_rate, 44_100);
    assert_eq!(number(eng.analyzer.loudness.peak_hold[0]), 0.0);
    assert_eq!(eng.spectro.mapped_sr, 44_100);
    assert_eq!(eng.spectro.written, 10);
    assert_eq!(eng.analyzer.spectrum_hop, 301);
}

#[test]
fn rows_run_from_high_to_low_frequencies() {
    let f = Formulas::new();
    let mut s = Spectrogram::new([16, 4]);
    s.rebuild_row_bands(&f, 48_000);
    let bands: Vec<(f32, f32)> =
        s.row_bands.iter().map(|&(lo, hi)| (number(lo), number(hi))).collect();
    assert_eq!(bands.len(), 4);
    let bins_per_hz = SPECTRUM_BINS as f32 / 24_000.0;
    assert!((bands[0].1 - 20_000.0 * bins_per_hz).abs() < 0.01);
    assert!((bands[3].0 - 20.0 * bins_per_hz).abs() < 0.01);
    for row in 0..3 {
        assert_eq!(bands[row].0, bands[row + 1].1);
    }
}
