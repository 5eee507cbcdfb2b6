# Gatherer Hub

A mixer that gathers what a workstation sends out over a multichannel device:
each pair of input channels is one source. Takes are recorded per section
(intro, main, outro), given regions by which sections are entered and left,
played as a sequence, and exchanged as asset bundles.

- `src/` is the library. What it decides and computes itself is verified. What
  it has from other crates (identities, JSON, Ogg and Vorbis) it calls through
  small functions whose contracts say what is taken for granted of them.
  Floating-point values are kept as bits; the library compares and bounds them
  but does no arithmetic on them.
  - `navigator` the project tree, `session` and `take` what is kept of it
  - `sequencer` the walk through the sections
  - `asset` the files of a bundle, `json` and `text` what they are made of
  - `adaptive` and `template` the parameters of the adaptive mixer
  - `recording`, `playback`, `audio`, `midi`, `params`, `measurement` and
    `export` the decisions around sound
  - `hub` the state of the program and how it answers to its controls
  - `listing` names to pick from, `ids`, `number`, `bytes` and `seqs` the rest
- `app/` is the program around it: devices, files, windows, and arithmetic on
  samples.
- `tests/` holds the library's tests.
