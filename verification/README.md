# raven_render

The render-side decisions of a Wayland compositor's TTY backend, verified
with Verus: what the GPU and the DRM device are asked to do, and what is
kept between frames.

- `src/` is the verified library.
  - `geometry`: integer rectangles with saturating edges.
  - `cursor`: the built-in arrow, `XCURSOR_*` settings, the nominal image
    size and frame timing of themed cursors, the animation clock, the order
    in which theme files are tried, and the cache of loaded cursors.
  - `pointer`: which cursor a frame shows.
  - `borders`, `rounded`, `program`: border stripes, rounded-corner masks
    (opaque regions, commit tracking, damage, whole-window rounding) and shader sources.
  - `animation`, `transitions`, `retention`: resize transitions, their
    snapshot budget, their per-frame bookkeeping and the bytes their
    snapshots keep alive.
  - `screenshot`: the frozen screenshot's life cycle and overlay.
  - `submit`, `recovery`, `outcome`: queueing a frame and the single
    composed retry after the kernel rejects a plane configuration.
  - `scene`: the per-device state tying these together.
- `tests/` runs the library on concrete values.
- `app/` holds what is not verified: the environment, theme files and
  xcursor images, smithay buffers, shaders and errors, floating-point
  geometry, and the loops that drive the library's step functions (frame
  submission, resize capture and blending, window rounding, the screenshot
  overlay) over the device and window system.
