# sdroxide

The message logic of an amateur-radio digital station, written and proved in
Verus.

* `src/eu_vhf.rs` is the EU VHF contest layout and the callsigns heard for it.
* `src/message.rs` reads who a received message names.
* `src/pack.rs` writes a text into the first of a ladder of 77-bit layouts that
  carries it, and tells what the far end will read. `src/reader.rs` says how the
  far end reads, and what it resolves.
* `src/hints.rs` and `src/modem.rs` decode a receive slot of the FT8 family from
  what its passes found, and turn a message into tones. `src/slots.rs` does the
  other slotted modes.
* `src/msk144_controller.rs` decides when a slot of audio is decoded.
* `src/map_labels.rs` places names on a crowded map.
* `src/bands.rs` says what each band is doing.
* `src/text.rs`, `src/bits.rs` and `src/fixed.rs` are what these stand on.
* `src/mfsk.rs` holds what is taken on trust of `mfsk-core`, each item beside the
  function it speaks of.

Public proof functions named `law_...` state what holds of several functions
together.

`tests/` runs the library, with `mfsk-core`'s detectors and modulators around it.
`app/` is ordinary Rust: the calls that deal in floating point, the worker
thread, and the drawing.
