# wasapi-loopback

Loopback capture of Windows audio for a Node addon: everything but one process tree, nothing but one
process tree, one render endpoint, or one render endpoint *minus* the own playback in it.

The last mode is the reason for most of this crate. Two captures run side by side: the endpoint (what
the user hears) and the own process tree (the reference). For each endpoint frame the output is

| output | when |
|---|---|
| endpoint minus reference, at unity gain | an integer offset was found and verified on held-out audio |
| the endpoint frame | no lock holds, an earlier lock has proven how far content lies from packet timing, and the reference was delivered and is exactly zero over the whole uncertainty around the frame |
| silence | everything else |

and a fault ends the session whenever the evidence turns against it.

## Layout

- `src/` is verified with Verus. `engine.rs` is the engine; `state.rs` says what each event makes of a
  session, and every method of the engine is proven to do just that; `validity.rs` holds the invariant;
  `laws.rs` what follows for all events: a failed session stays failed, no endpoint frame comes out
  before the first lock, every frame that comes out is explained, lost packets are never taken for
  silence. `align.rs`, `stats.rs`, `ring.rs`, `output.rs` and `leg.rs` are its parts. `capture.rs`,
  `pair.rs`, `route.rs`, `devices.rs`, `sessions.rs` and `timing.rs` are the decisions of the host.
- Samples and statistics are bit patterns in `src/` (`ieee.rs`). Where the engine needs a sum or a mean
  it asks for it, and the host answers.
- `app/` is the addon: COM activation, threads, the JS boundary, and the arithmetic on samples. Its
  Windows parts build on Windows only.
- `tests/` runs the library, with a packet-level simulation of both captures in `paired_capture.rs`.

The one thing that is taken on trust is that `String::push` appends a character.
