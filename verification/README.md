# kiriko

The engine core of Kiriko, a motion-graphics and editing tool, written in
Verus: the functions in `src/` are verified, and all but
`ExportHandle::cancel` (which only raises a shared atomic flag whose contents
Verus does not model) carry contracts that Verus proves. Three small trusted
wrappers are believed rather than proved: `blake3_hash` (the BLAKE3 digest),
`new_v7_id` (a fresh version-7 uuid) and `string_of` (collecting characters
into a `String`).

- `rational`, `divisor`, `time`: exact rational time with checked arithmetic
  and rounding onto the flick grid.
- `retime`, `retime_laws`, `speed_keys`: the retime curve (local time to source
  time) built from Rate and Cubic segments, its exact recomputation, splits,
  merges, freezes and keyframe builders, and the properties that span them.
- `model`, `ops`, `ops_laws`, `nesting`: the document model, its invertible
  edit operations (every operation hands back its exact inverse), and the
  loop guard for nested compositions.
- `anim`, `markers`, `eval`, `beat`, `text`, `export`, `shell`: keyframes,
  timeline markers, frame-cache keys, analysis window sizes, glyph blitting,
  export handles and the editor's small pure helpers.

`app/` is the ordinary Rust around the library: the floating-point curve
sampling, audio analysis, optical flow, font rasterisation, threads and serde
copies of the library's types. `tests/` exercises the library with the real
outside crates linked.
