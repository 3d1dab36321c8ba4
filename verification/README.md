# mbx_cache

The decision-making core of the mbx build cache, written in Verus: every
function under `src/` carries a `requires`/`ensures` contract that Verus
proves, and the laws the cache relies on (what a lookup gives back of a
record, what a merge keeps, what a chunked read sees) are stated and proved
as proof functions beside the code they govern.

## Layout

- `src/cc/` — C and C++ compiles: the command-line model (`parser`,
  `vocabulary`, `language`, `invocation`), bypass reasons, the keyed
  environment, GNU depfile parsing, timestamp-macro scanning, include-name
  manifests and which search directories need one, input predictions, and the
  rules of collecting a compilation's inputs (`collect`, `context`), and the
  inputs and the pre-input fingerprint of an action key (`action_inputs`,
  `action_key`).
- `src/cargo/` — Cargo command lines: where Cargo is pointed and reads its
  manifest, the roots probe (`probe`, `install_probe`), what configuration
  files say (`config`), resolution of the
  workspace root and target directory, and the build identity that selects a
  workspace's prediction manifest.
- `src/agent/` — the task-scoped cache session as state machines that the
  embedder drives (`fetch`, `walk`, `runs`, `respond`, `batches`): digests, prediction
  manifests and their merge, commit and fallback rules, session state,
  prefetch selection and validation, which blobs a fetch downloads and
  packs, statistics and warnings, the
  file-digest ledger, executable identities, the download budget, request
  framing, and the wire vocabulary with a blocking client.
- `src/remote.rs` — remote-cache modes and entity tags.
- `app/` — ordinary Rust around the library: filesystem walks, metadata,
  hashing files, Git and Cargo processes, the environment, the drivers of
  the fetch and walk state machines (`prefetch_io`), JSON over the
  agent stream, and the few pieces that rest on floating point or chance.
- `tests/` — scenarios on concrete values for the library's contracts.

Outside crates enter the verified code only through small trusted wrappers
(`blake3` hashing, `serde_json` and `toml` reads and renderings), each with a
doc comment saying what its contract claims.
