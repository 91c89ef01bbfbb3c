# mivi

A CPU-first inference and agent engine for small hybrid (state-space + attention)
language models, split into a verified core and an ordinary Rust shell.

- `src/` is the `mivi` library, written in Verus. Every function carries a contract
  and is proved: the GGUF header decoder and hyper-parameter extraction, the KV-cache
  layout, prefix and semantic-anchor caches, the `.kvc` snapshot format, the JSON and
  tool-call grammars with token masks, prompt-lookup and tree speculation, stop-sequence
  handling, the streamed thinking / tool-call splitter, chat-line interpretation, the
  agent step controller, the context store and VM, OKF knowledge documents, memory
  record files, code and tool-output minifiers, JSON Schema compaction, and expert
  naming and pinning.
- `app/` is the `mivi` command-line program: argument parsing, terminal and file I/O,
  the HTTP server, and the floating-point forward pass, sampler and quantized kernels,
  all calling into the library for their decisions.
- `tests/` exercises the library from outside.
