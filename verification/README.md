# onas

Image conversion, audio transcoding and video transcoding, as a library
whose logic is proved with Verus and a thin command-line program around it.

- `src/` — the verified library. `cli` holds the argument structures and
  the target-format rules, `image` the format detection, `--resize` parsing
  and sizing and the image codec calls, `audio` the framing of samples for
  the Opus and AAC encoders, `video` the request checks, track probe, codec
  choice, packet bookkeeping and frame scaling of a transcode, `mkv` the
  layout of the written Matroska file, `frame` the choice and conversion of
  an extracted still frame, `subtitle` the SRT to ASS conversion, `meta` the
  metadata request rules, the planning of tag edits and the EXIF, track and
  tag dumps, `exitcode` the mapping of errors to exit statuses, and
  `error`/`text` the message chains and character helpers they share.
- `tests/` — tests of the library on concrete values.
- `app/` — the `onas` binary: command-line parsing, file I/O, the codec
  libraries that work on files or on codec state, and the steps computed in
  floating point.

The library reads and writes no file. Its `run_*` functions check a request
and build the report of a finished run from plain values; the binary reads
the input, calls the library's decisions and codec steps, and writes the
output. In-process use goes through those same functions: the file I/O
stays with the caller.
