# glam maintenance tools, verified

The verified logic of glam's maintenance tools, written in Verus.

- `src/features.rs`: the CI feature matrix and the choice of feature sets.
- `src/ci.rs`: the command list of the full CI suite.
- `src/order.rs`, `src/sorted_map.rs`: text keys in `str` order, and a map
  that keeps its entries in that order.
- `src/codegen/`: the template code generator: its configuration and the
  render context of each output file (`config.rs`, laws in `laws.rs`), the
  search for `codegen.json` (`search.rs`), the choice of output files
  (`select.rs`), the decisions of a run (`run.rs`) and the `snake_case`
  template filter (`text.rs`).
- `app/`: the generator program around the library (command line, files,
  git, tera, rustfmt), and the floating-point and SIMD helpers, which stay
  outside the verified library.
