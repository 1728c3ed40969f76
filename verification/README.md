# g_map_se

Inference plumbing of the G-MaP-SE speech-enhancement model, with its
integer and structural logic verified by Verus.

- `src/` — the verified library:
  - `numparse`: decimal integer parsing with the semantics of `str::parse`.
  - `text`: characters of strings and comparisons with strings.
  - `device`: `--device` and provider values.
  - `metadata`: the exported model's metadata and its validation.
  - `paths`: where model and metadata files given on the command line are found.
  - `chunking`: overlapping chunk plans, batches, cross-fade windows, and the
    laws that make the blend well defined (coverage, positive weights,
    complementary fades).
  - `signal`: reflection padding, STFT frame counts and bounds, trimming,
    resizing and the layout of model inputs.
  - `embeddings`: reading speaker embeddings from JSON and choosing the
    embedding of each file.
- `tests/` — tests of the library on concrete values.
- `app/` — the ONNX Runtime command-line program: file and model I/O, and the
  floating-point signal processing (FFT, windows, blending, resampling).
