# ternary_llm

Integer core of a ternary (BitNet 1.58-bit) language model, verified with Verus.

- `src/` — the verified library: trits and quantisation clamps (`trit`), the
  deterministic weight patterns (`pattern`), ternary linear weights with the
  exact integer accumulation and row chunking (`linear`), the embedding table
  (`embedding`), the sliding-window KV cache (`kv_cache`), mask select/scatter
  for causal attention (`mask`) and the bookkeeping of greedy generation
  (`generate`).
- `app/` — the floating-point layers (quantisation scale, RMS norm, softmax,
  attention, FFN, transformer block, language model) built on the library.
- `tests/` — tests of the library.
