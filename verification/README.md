# Sonora

Real-time audio metering for the desktop: a spectrogram, a spectrum analyzer, loudness in LUFS
with sample peaks, and a goniometer with a correlation meter, each in a window of its own. It
captures what the system plays, what one application plays, or any input device.

## Layout

- `src/` is the library, verified with Verus. It holds everything that decides: the sliding
  windows and running sums, gating, the clocks that make columns and blocks due, the ring of the
  spectrogram, the color map, the buffer between the capture and the meters, the choice and the
  start of a source, the menu, and the windows.
- `app/` is the program around it: capture through `cpal` and WASAPI, drawing with `egui`, and the
  formulas in floating point, with `rustfft` for the transform.
- `tests/` runs the library, with those formulas where they are needed.

## Numbers

The library computes in integers. A `Level` is the bit pattern of a single-precision number, a
`Wide` that of a double-precision one; comparing, bounding and rounding them to whole numbers is
done on the bits and proved against their exact values. Formulas are methods of the trait `Math`,
of which nothing is assumed: the contracts say which formula was applied to which arguments, and
where its result went.
