# common

A suite of partially observed decision experiments (Tiger, RockSample(4,4),
agentic routing, continuous filtering baselines, nonlinear closures, policy
certificates, effective memory, exact HMM checks).

- `src/` is the verified library: seeded integer draws (`rng`), observation
  windows (`window`), the Tiger reward and hearing model (`tiger`), the
  RockSample world and the integer parts of its rover policy (`rocksample`),
  particle bookkeeping over rock configurations (`particles`), the policy-code
  decision tree of the certificate experiment (`policy_tree`), and the names of
  filters, routing modes and planners (`methods`). Each function states its
  result in `ensures`; the public proof functions state the laws.
- `app/` holds the experiments themselves: the f64 densities, filters,
  value functions and statistics, the command-line entry point and JSON
  output. It is one program whose first argument names the experiment:
  `exact_checks`, `nonlinear_bsd`, `policy_certificate`,
  `generated_effective_memory`, `agentic_routing`, `continuous_baselines` or
  `discrete_benchmarks`; each writes its JSON results to the working directory
  (`discrete_benchmarks` writes `discrete_results.json`, and so on).
- `tests/` exercises the library on concrete values.
