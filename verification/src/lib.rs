//! The core of a real-time audio meter.
//!
//! Everything that decides is here: what enters which window of samples, when a column of the
//! spectrum or a gating block falls due, which blocks pass, what a row of the spectrogram
//! shows, which window shows which meter, what a click asks for. Nothing here computes in
//! floating point: levels are bit patterns that are compared and rounded exactly, and the
//! formulas themselves are the methods of [`math::Math`].

pub mod level;
pub mod math;

pub mod window;

pub mod analysis;
pub mod correlation;
pub mod loudness;

pub mod band;
pub mod color;
pub mod curve;
pub mod spectrogram;

pub mod engine;

pub mod apps;
pub mod audio;
pub mod process_capture;

pub mod menu;
pub mod meter;
pub mod meters_app;
pub mod text;

pub mod laws;
