# xir_core

A typed schedule IR for explicit GPU schedules, with conservative construction and
protocol checks, node effects recomputed from operation payloads, and admission of a
narrow CUDA elementwise subset. The library is written in Verus: every check is an
executable function whose result is stated, in its `ensures`, as a spec function of
the module it reads.

Layout:

- `src/` the verified library
  - `types`, `ast`, `target`, `diagnostic`: the data model and its views
  - `checker`, `declarations`, `access`, `nodes`, `region`: the construction and
    protocol checks, each with the spec function it computes
  - `verify`: `validate_module`, `validate_cuda`, `verify_module`
  - `effects`: per-node effects derived from payloads
  - `layout`: byte footprints and staged extents of buffer views
  - `cuda`: admission of the CUDA elementwise subset
  - `emit`: the CUDA source of an admitted module, stated as a spec function of it
  - `builder`: node ID assignment and `ModuleBuilder`
  - `findings`: what the checks keep and what a passing module satisfies
- `tests/` the test suite
- `app/` the `xir-verify` command line: JSON transport through serde, the runtime
  header read from disk, and the decimal text of floating-point constants
