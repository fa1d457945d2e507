# rlx-fft

A learned butterfly FFT: Cooley–Tukey networks whose twiddles, gates, masks and corrections are
trained, measured against each other, and deployed as compiled graphs.

- `src/` is the library. Transforms, gradients, corrections and graphs are written over any numbers
  with sums and products; residues modulo a prime make them exact. `butterfly_is_the_fourier_transform`
  and `inverse_gives_the_input_back` say what the network computes, and `butterfly_graph` and
  `deploy_graph` say that the graphs built from it compute the same. Studies, benches, reports, pages
  and the command line are planned, read and rendered here; measured numbers come in as `Figure`s,
  which carry the bits of a double and the texts that show it.
- `tests/` runs the library on concrete values.
- `app/` is what surrounds it: floating point, files, devices, clocks and the command line's effects.
  Models are trained and timed by an `Engine` that a program brings along.
