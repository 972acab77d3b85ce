# trance

The verified core of the Trance screensaver daemon and its saver runners,
written in Verus.

- `src/` is the library. Every function carries a contract that Verus proves:
  - `pixels`: drawing into BGRA frame buffers (fill, dim, coverage blits, letterboxing);
  - `launcher`: the saver allowlist and saver-name sanitising;
  - `inhibit`: screensaver inhibitors held by bus clients, with their laws;
  - `screensaver`: the answers and daemon commands of the `org.freedesktop.ScreenSaver` interface;
  - `idle`: login-manager property parsing and the Wayland idle monitor's state and loop decisions;
  - `frame_loop`: the frames each output receives per display mode, frame-rate reporting and pacing;
  - `gpu_render`: the per-frame resource decisions of the GPU cell renderer;
  - `platform`: power and hardware descriptions and terminal fallbacks.
- `app/` holds the I/O around it: terminal access through `libc`, `busctl`
  queries, the Wayland idle thread and the `zbus` interface object.
- `tests/` runs the library on concrete values.
