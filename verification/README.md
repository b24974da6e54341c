# coverage_fuzzer

A coverage-guided fuzzer for Soroban smart contracts, written in Verus: what each
function does is stated in its contract and proved.

- `src/` is the verified library. `orchestrator` runs a session; the other modules
  are its parts: `input_gen`, `values` and `strkey` draw and write values,
  `mutation` changes inputs, `corpus` and `coverage_map` keep what was found,
  `crash_triage`, `normalise` and `delta_debug` sort and shrink crashes, `noise` proves
  what of an error text does not count,
  `persistent_vm` executes inputs, `wasm_instrumenter` analyses the binary,
  `dashboard` and `base64` show the state of a session, and `ci_integration` turns a
  run into a step of continuous integration. `rng`, `json` and `clock` hold the calls
  into other crates and the standard library that are taken on trust.
- `app/` is ordinary Rust around it: the corpus on disk, the console, sharing between
  threads, serialisation, and the status endpoint.
- `tests/` runs the library.

Scores, ratios and times are exact integers in the library: scores in units of
2^-64, ratios as fractions, times in nanoseconds. Draws of a fraction, and
shares and percentages among the settings, are counted out of 2^53.
