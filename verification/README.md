# embed_server

An ONNX embedding sidecar with an OpenAI-compatible `/v1/embeddings`, a
Cohere-compatible `/v1/rerank`, sparse embeddings at `/embed_sparse`, and
Prometheus metrics. Its logic is a Verus library: each function carries a
contract that Verus proves.

## Layout

- `src/` is the library.
  - `config`, `env`, `startup`: settings, and what the server starts with.
  - `api`, `api_rerank`, `api_splade`, `api_health`, `reply`, `encoding`: the
    steps of each request and its replies.
  - `batcher`: which calls share a pass, and who gets which vectors.
  - `cache`, `cache_flow`: the response cache, and which texts are still to be
    embedded.
  - `embed_model`, `session`, `model`, `pass`, `warmup`, `tokenizer`: loading a
    model and running it.
  - `soundness`, `charsmap`: whether a tokenizer can be asked for the tokens of
    any text.
  - `evictable_pool`, `arena`, `mlock`: sessions and memory.
  - `worker`, `standalone`, `ipc`: worker processes and the exchange with them.
  - `metrics`: what is recorded, and the histogram buckets.
  - `text`, `order`: strings, numbers in strings, and orders.
- `tests/` runs the library.
- `app/` is the program around it: HTTP, sockets, processes, the ONNX runtime,
  and everything in floating point.

## Conventions

- A floating-point number is held as the pattern of its bits.
- A span of time is a number of nanoseconds.
- Functions that record metrics append to a `MetricLog`, which the program
  applies to its recorder.
- Work that only the outside can do enters as a closure, or as the outcome of a
  step that the program has taken.
- `law_*` proof functions state what holds of several functions together.

## Trusted items

What is believed without proof stands next to the code that uses it, with the
outside function named in its doc comment: two functions of std's strings in
`text`, the cache of `moka` and the digest of `sha2` in `cache`, the encoder and
decoder of `base64` in `encoding`, and the tokenizer of `tokenizers` in
`tokenizer` and `soundness`, where `bincode` reads two of its parts out.
