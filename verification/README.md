# ClipForge core, verified

ClipForge turns photos, videos and music into slideshows. This crate is its
core as a Verus library: the project model and its file rules, the
command/undo machinery, timeline and music layout, export planning (encoder
choice, ffmpeg arguments, frame schedule, progress, output checks) and the
view logic behind the editor and library screens. Every function in `src/`
carries a `requires`/`ensures` contract that Verus proves; laws that tie
several functions together are public proof functions named `law_*`.

Layout:

- `src/` the verified library (`lib.rs` lists the modules).
- `tests/` tests of the library on concrete values.
- `app/` a small command-line program around the library: file and
  process I/O, threads, JSON and the floating-point display geometry.

Calls into outside crates (uuid, sys-locale, `String::push`) sit behind a
few trusted wrappers whose doc comments say what is assumed of them.
