# wayland_overlay_media_viewer

A Wayland overlay that shows images, animations, videos and shaders as
popups on top of every monitor. The rendering runs in Bevy; the decisions
that drive it are a library whose functions carry proved contracts.

- `src/` — the verified library:
  - `target_monitor`: which outputs are targeted, and which layer surfaces to
    create or remove;
  - `surfaces`: the per-output surface descriptor (configure events, output
    geometry, overall bounds, readiness) and one frame of compositor events;
  - `gpu_surface`: when a GPU surface is recreated, reconfigured or reset;
  - `placement`: random placement that covers every screen pixel equally;
  - `draw_order`, `pointer`, `interaction`: draw order, hits and pointer input;
  - `video`, `gif`: the video state machine, frame pacing and animation loops;
  - `animation`: decoding GIF and WebP files into frames and frame end times;
  - `assets`, `shader`: choosing an image loader and building shader sources;
  - `position`: anchors of screen-space positions.
- `tests/` — tests of the library on concrete values.
- `app/` — the program: Bevy plugins and systems, the Wayland connection, the
  GPU presentation and the video decoder, calling the library for its
  decisions.
