# agent_infer

The decisions of an LLM inference engine's two local backends, written in Verus
and proved against their contracts.

- `src/kvspace`: images of a slot's keys and values, and the tier that holds
  them.
- `src/hip`: the paged pool, the loader's budget and the token schedule of the
  DeepSeek-V4 backend.
- `src/model`: speculative drafts, their windows and tensor-parallel shares.
- `src/metal`: the Apple backend: configuration, weights and their
  registration, the page store and its disk tier, the startup budget, and the
  executor's walks through prefill, decode and drafted blocks.
- `app`: files, environment, threads, floating point and the accelerator
  runtimes, as ordinary Rust around the library.

The executors are state machines. The library names the next call to make;
`app` makes it and hands the answer back.
