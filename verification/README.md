# shr_daw

The logic of a small terminal music workstation, written in Verus: the
settings file and its saved form, drum patterns and the drum catalog,
controller profiles and the MIDI-learn session, the audio-graph boundary
transactions and the managed three-source graph behind the final bus, the
help text, WAV recording headers, demo checks, and the parsers for what
ALSA and JACK report about ports and connections. Each
function states what it does in `requires`/`ensures`, and the crate's laws
(what a save reads back as, what a decoded pattern encodes to, what a failed
transaction leaves behind, that the managed graph, within its node ranges,
has a processing order, that a learn session never binds one input twice) are proof
functions checked by Verus.

- `src/` is the verified library. Calls into std that Verus has no
  specification for go through a handful of small trusted wrappers, each
  with a doc comment saying what its contract claims.
- `app/` is the unverified shell around it: files, processes, sockets and
  MIDI ports, and the serde copies of the library's types.
- `tests/` runs the library on concrete values.
