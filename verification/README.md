# edmondson_team

A team-level agent-based model of Edmondson (1999), "Psychological Safety and
Learning Behavior in Work Teams": context support and leader coaching shape
each team's psychological safety ψ, which drives learning behavior L, which
drives team performance Π.

Layout:

- `src/` — the verified library (Verus): label parsers for the decision mode,
  the network family and the learning behaviors; the parser of the LLM's
  voice-decision reply; the per-team event counters; convergence tracking,
  the network-generator choice, the per-individual voice tally and the
  hypothesis tally. Verus proves every function's contract, except two
  trusted wrappers whose contracts it takes on trust: `read_json_string_field`
  (serde_json parsing of the reply's object, its result named
  `json_string_field`) and `string_from_chars` (std's `collect` into a
  `String`).
- `app/` — the command-line program (`run`, `sweep`, `reproduce`): the
  typed serde decoding of the LLM reply's object, the
  floating-point model (ψ difference equation, voice logit, performance,
  efficacy, OLS / ICC / Baron & Kenny metrics), the socsim engine wiring, the
  LLM client and the CSV / JSON writers. It calls the library for the discrete
  decisions.
- `tests/` — tests of the library.

The program depends on the socsim crates (`socsim-core`, `socsim-engine`,
`socsim-net`, `socsim-metrics`, `socsim-llm`, `socsim-results`), which are
distributed from their own repository rather than from crates.io.
