# deezco

Downloads tracks, albums, discographies, playlists and favorites from Deezer,
and runs radio stations from them: an HTTP playlist server, an Icecast source
and an HLS station.

The decisions behind the tool are a verified library; the program around it
talks to the network, the disk, the encoders and the clock.

## Layout

- `src/` is the library, proved with Verus.
  - Texts and values: `text`, `json`, `models`, `real32`, `report`.
  - Settings: `cli`, `resolve`, `output`.
  - Downloads: `crypto`, `track`, `saving`, `batch`, `download`, `artist`,
    `favorites`, `files`, `dedupe`, `cleaning`, `link`.
  - The gateway: `api`, `calls`, `auth`, `search`, `serve`.
  - Orders and queues: `order`, `sort`, `queue`.
  - Stations: `audio`, `flac`, `tags`, `dsp`, `stereo_lib`, `loudness`, `icecast`,
    `source`, `hls`.
- `app/` is the program: commands, requests, files, processes, and everything
  that computes in floating point.
- `tests/` runs the library.

Work that alternates between decisions and the outside world is a state machine
in the library: `step` says what to do next, `on_event` takes in what happened,
and each has a model (`after`, `says`) that its contract is stated over.

## What is trusted

Calls into other crates stand behind small functions whose contracts are
believed: MD5, hex, AES and Blowfish blocks in `crypto`, shuffling in `queue`,
reading and decoding audio in `audio`, and lower-casing and `String::push` in
`text`. What their doc comments say is what is not proved here.
