# Chess Voice Studio

A Linux desktop studio that turns typed chess narration into offline speech with
[Piper](https://github.com/OHF-Voice/piper1-gpl) voices, and exports WAV or MP3.

The decisions of the program live in a library whose functions carry Verus contracts
and are proved against them; the window and the work with files, programs and the
network sit around it.

## Layout

- `src/` — the verified library
  - `text.rs`: strings as sequences of characters (trimming, decimal and hexadecimal text,
    ordering, searching)
  - `strmap.rs`: a string-keyed map kept in ascending key order, viewed as a `Map`
  - `catalog.rs`: voice packs, their files and speakers, the catalog, installed voices
  - `paths.rs`: where the application keeps its files (all beside the executable)
  - `download.rs`: safe file names, the plan for installing a pack, size and digest checks
  - `digest.rs`: MD5 digests through the `md5` crate
  - `engine.rs`: finding Piper, checking synthesis requests, cache keys, program arguments
  - `studio.rs`: the studio state, job reports, render decisions and the library list
- `app/` — the `eframe` window, JSON decoding with `serde`, and the file, process and
  network work
- `tests/` — tests of the library on concrete values

## Runtime tools

`python3` (managed Piper installation), `curl` (downloads), `ffmpeg`/`ffplay` (MP3 export and
playback; `paplay` or `aplay` also play), `zenity` (save dialogs). The bundled voice catalog
is read from `assets/voices.json` in the application directory.
