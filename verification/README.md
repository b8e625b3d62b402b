# wave_sim

A one-dimensional wave and signal simulator.

- `src/` is the verified library (Verus): the propagation modes of a wave and
  the simulation state — its sources, the frame counter that decides which
  frames of the raw signal are sampled, and the last sampled frame — with the
  proof that one frame in every `step_skip + 1` is sampled.
- `app/` is the program around it: the floating-point wave shapes and
  sources, the peak trackers, the terminal pipeline (`wave_sim`, or
  `wave_sim cli`) and the desktop window (`wave_sim gui`, eframe and
  egui_plot).
- `tests/` runs the library on concrete frames.
