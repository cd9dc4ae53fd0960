# criticality_bench

The verified core of a reactor-criticality benchmark suite. The library holds
the decisions of the suite: how cases are read, routed, graded, recorded and
resumed; how a scene becomes a transport plan; how histories, source iterations
and comparisons of two devices proceed. The functions in `src/` carry contracts
that Verus proves. Floating-point numbers are held by their bit
patterns (`binary64`), and every comparison of them is proved to be that of
IEEE 754; the library does no floating-point arithmetic.

## Layout

- `src/`: the library.
  - sweeps: `case_loader`, `case_bundle`, `data_loader`, `pipeline`, `executor`,
    `result_processor`, `stats`, `telemetry`, `run_args`, `runner_setup`
  - scenes: `scene`, `region`, `geometry`, `materials`, `data_files`,
    `eigen_plan`, `gamma_plan`, `icsbep`, `reports`, `lattice`
  - runs: `batches`, `const_transport`, `trace`, `photon_bench`, `burnup`,
    `device_load`
  - comparisons: `parity`, `xs_compare`, `spectrum`, `search`, `samples`,
    `raybox`, `features`
  - foundations: `binary64`, `text`, `json`, `csv_table`
- `tests/`: runs of the library on given values.
- `app/`: the command line, files and threads, and the formulas that need
  floating-point arithmetic. The transport engine is behind the
  `Engine` and `SceneEngine` traits. `main` runs sweeps; the other runs are
  functions for a program that links an engine.

## Trust

`json` and `csv_table` call `serde_json` and `csv`; `executor` reads the clock of
the standard library. What is believed of those calls stands in the contracts of
the functions that make them, each with a comment. Everything else is proved.
