# OmitFS

An intent-driven semantic file system: files are indexed by what they mean, and found again by a
query instead of a path. What OmitFS decides and computes, but for floating point, is a verified
library; the program around it does the talking to the disk, the kernel, the vector store and the
models, step by step as the library says.

## Layout

- `src/`: the library, verified by Verus.
  - `ingest`: from a file to the rows stored for it: extraction, overlapping chunks, identifiers.
  - `db`: the table, its predicates, and what a search makes of its rows.
  - `reranker`: word counts and the ranking by score.
  - `crypto`: AES-256-GCM under a stored key, written down as base64.
  - `hasher`: content hashes, and the manifest of what was indexed.
  - `config`: the settings and their defaults.
  - `rag`: prompts for Ollama, and the reading of its streamed reply.
  - `mcp`, `json`: the tool server for agents, and the steps of its calls.
  - `server`: the local web server.
  - `fuse`: the virtual file system, and the files in the directory of a query.
  - `select`: the interactive file manager.
  - `ocr`, `whisper_transcribe`, `step`: text from images and recordings, step by step.
  - `embedding`: where the model comes from, and what it is given.
  - `gui`: the desktop window.
  - `text`: trimming, splitting, searching and numerals.
- `tests/`: the tests of the library.
- `app/`: the program. `main.rs` is the command line; `gui.rs` is the entry point of the desktop
  window, which is built on its own.

## What is proved

Each function states its result in its `ensures`. What relates several of them is a proof function
whose name starts with `law_`: that base64 and encryption give back what they were given, that chunks
cover a text and overlap by exactly as many words as the settings say, that a ranking keeps every
result and is not changed by ranking again, that a search returns no file twice, that the directory of
a query lists what was found, that an answer is the same wherever its stream is cut, that the first
failure ends a call, that a whole transcription has a transcript exactly where each of its steps goes
well and removes its directory however they go, that no file is deleted unconfirmed, and others.

What outside crates compute is believed by the contracts of a few small wrappers, each marked
`external_body` or `assume_specification` and described above its declaration.

The score of a search result is floating point. The library counts, the program weighs
(`app/scoring.rs`), and the library ranks.
