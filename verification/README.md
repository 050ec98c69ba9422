# hardwave

The project model and the decision logic of the Hardwave DAW, written in
Verus: the library's functions carry contracts that Verus proves, apart
from the small trusted wrappers around outside crates (marked
`external_body`), whose contracts are believed and stated in their doc
comments; a few private helpers and lemmas have no contract of their own.

- `src/` — the verified library: arrangements, automation lanes and write
  modes, the channel rack, clips, recording windows and the capture ring's
  rows, export ranges, stem names and stem mixes, the FL Studio import
  summary, the marketplace catalogue, multiplayer clocks and histories, MIDI
  mapping and timecode, plug-in probing verdicts, presets, project files,
  sends and sidechain routing, sample relinking, tempo and meter, tracks, and
  the frontend updater's launch plan. Calls into `semver`, `zstd`, `sha2`,
  `flacenc`, `shine-rs` and `uuid` go through those wrappers.
- `tests/` — ordinary Rust tests of the library on concrete values.
- `app/` — the unverified desktop side: files and folders, child processes,
  serde copies of the wire types, WAV writing, and the floating-point signal
  work (loudness, dither, LFO and parameter scaling).
