# limusic

The logic of a desktop YouTube Music player, written in Verus: every function in `src/`
carries a contract that Verus proves, and the laws the player relies on (what a stored value
reads back as, how a cancel stops a download, how On Repeat ranks songs, ...) are stated and
proved as public proof functions.

## Layout

- `src/` — the verified library.
  - Lyrics: `lyrics` (lines, words, offsets, the cache in front of the providers, translation),
    `lrc` (LRC, enhanced LRC and KRC word lines), `krc` (base64 and KRC decryption),
    `richsync` (word-timed JSON lines), `providers` and `scrape` (what each lyric source's
    reply becomes), `formats` (telling JSON line arrays, TTML and LRC apart and building their
    lines), `fetch` (the provider wave and the YouTube Music follow-ups), `markup`
    (entities and tags), `romaji` (kana to romaji).
  - Storage: `table` (a text-keyed table), `settings`, `plays` (the play diary), `db` (all
    stored tables together).
  - Library and downloads: `local` (local files and their albums), `albums`, `downloads`
    (file names, the offline catalogue, cancellation), `artist_packs`.
  - Playback and shell: `player`, `gamepad`, `tray`, `floating`, `visualizer`, `waveform`,
    `art`, `commands`, `ytdlp`.
  - Remote control over the LAN: `lan`, `remote`.
  - `text`: character-level helpers shared by all of the above.
- `tests/` — executable tests of the library.
- `app/` — the host around the library: JSON shapes, the floating-point parts (fuzzy title
  matching, fractional-second times, audio levels), the lyrics fetch driver and the LAN remote's socket
  loop.

Trusted items (calls into `std`, `regex`, `base64`, `rand` and `urlencoding` whose contracts
are assumed) are marked `#[verifier::external_body]`, each with a doc comment saying what it
claims.
