# mlxrs

A library for machine learning on arrays: signal processing, streaming
transcription, low-rank adapters, embeddings and image preparation. It decides
shapes, states and texts, and builds computations; an array backend carries
them out. Everything in `src/` is verified with Verus.

- `src/array.rs`, `src/ops/`: lazy arrays and the operations on them
- `src/audio/`: windows and spectra, playback, streaming transcription
- `src/lm/`: low-rank adapters and training
- `src/embeddings/`: embeddings of texts
- `src/vlm/`: images, resampling and the cache of image features
- `src/memory.rs`, `src/shared.rs`, `src/stream.rs`, `src/transforms/`: policies
  for memory, shared arrays, streams and functions as values
- `src/names.rs`, `src/text.rs`, `src/hex.rs`, `src/order.rs`: values by name,
  texts, digits and alphabetical order
- `src/audio/exact.rs`, `src/lm/lora/exact.rs`: what transforms and adapters give
  in exact arithmetic
- `tests/`: tests, with a small interpreter for the computations
- `app/`: floating-point formulas, files, devices and the array backend

Floating-point numbers appear in `src/` only as bit patterns.
