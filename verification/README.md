# Meetily speakers

The speaker side of a meeting recorder, written in Rust and proved with
[Verus](https://github.com/verus-lang/verus): who speaks in a recording, how recorded chunks become
transcripts, and how transcripts leave the program.

`src/` is the verified library.

- `double`, `bytes`, `text`, `prefixes`, `paths`, `order`: numbers by their bit patterns, texts, file
  paths and stable sorting, each with its exact meaning.
- `models`, `speaker`, `speaker_turn`: the rows of the database and the rules by which they change.
- `labels`, `speakers`, `identification`, `propagation`, `recording`: how speakers are called,
  recognized and assigned, which other meetings follow, and where a recording lies.
- `audio`, `engine`, `events`, `status`, `worker`: the transcription of a recording as a machine that
  takes events and says what to do next.
- `stream`, `speaker_sidecar`: how devices are captured, and how the recognition service is started.
- `export`: transcripts as plain text and as WebVTT captions.
- `outside`: the few calls into other crates and into the clock, with what is taken for granted of
  them.

`tests/` runs the library on concrete values. `app/` is the program around it: database, processes,
network, audio devices and the desktop shell. Floating-point work on samples is done there, since the
library holds samples and times by their bit patterns.

Paths are written as on systems that separate their parts by `/`, or as on Windows, where `\` does so
too and a path may start with a drive, a share, a device or the mark of a verbatim path. The program
says which.
