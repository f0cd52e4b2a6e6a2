# brush_splat

The decisions behind importing, judging and rendering Gaussian splats, verified
with Verus.

- `src/` is the library. It reads the header and the rows of plain and
  compressed ply files into splats, keeps the multi-view evidence of every splat
  and prunes by it, puts together the confidence of a model, and composes what
  the command line shows of a training run. Every function is verified against
  its contract; proof functions named `law_..` state what holds across
  functions.
- `app/` is the program around it: files, the GPU, floating-point arithmetic and
  the terminal.
- `tests/` runs the library on concrete values.

## Numbers

The library holds 32-bit floating-point values by their bit patterns
(`scalar::Scalar`). It moves, compares, negates and clamps them; sums, products
and numerals are computed by the caller and handed in.

## What is taken on trust

| item | outside function |
|---|---|
| `header::read_header` | `serde_ply::PlyChunkedReader::header` |
| `diagnostics::write_duration` | `humantime::format_duration` |
| `text::to_lowercase` | `str::to_lowercase` |
| `String::push` | itself |
