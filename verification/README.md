# cubic

The core of a small 2D game engine, verified with Verus.

- `src/` is the verified library:
  - `input`: key codes, browser key names, and the per-frame key edge
    tracker (`InputState`, `FrameInput`, `KeySet`), with laws on how
    presses and releases are reported.
  - `world`: the entity allocator (LIFO id recycling) and the operations on
    a sparse component store `Vec<Option<T>>` indexed by entity id.
  - `quad`: the unit quad geometry, the plan that turns a frame's command
    list into a load-op clear plus instanced quads, and the growth policy of
    the GPU instance buffer.
  - `shell`: the desktop shell's decisions: surface extent, answers to
    window events, resumes and surface statuses, and the frame-rate window.
- `app/` is the unverified platform layer: the `f32` render command model
  and rectangle math, the type-indexed component world (`TypeId` and
  `dyn Any` dispatch), the wgpu renderer, the winit application shell and
  the web canvas backend. Each of them calls the library for its decisions.
- `tests/` exercises the library on concrete values.
