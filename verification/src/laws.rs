//! What the operations are for, said of what goes in and what comes out.
//!
//! Each law takes a call of an operation as given and says what its outcome has to do with
//! the arguments, in numbers and over all inputs. Where an outcome rests on formulas, the law
//! says what it needs of them.

pub mod analysis;
pub mod apps;
pub mod audio;
pub mod band;
pub mod color;
pub mod correlation;
pub mod curve;
pub mod engine;
pub mod level;
pub mod loudness;
pub mod meter;
pub mod meters_app;
pub mod numbers;
pub mod process_capture;
pub mod spectrogram;
pub mod text;
pub mod window;
