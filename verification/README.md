# convergio

The rules of a plan orchestrator, written in Rust and verified with Verus.

Plans are made of waves, and waves of tasks. Agents carry tasks out, submit them with
evidence, and a validation promotes them. The library decides what may happen next: which
status a task may take and what evidence that needs, who may hold a task or a file, which
tasks are ready, what an import adds or replaces, which orphaned tasks go back to the queue,
which merge requests overlap, what is rolled back, and what is reported.

## Layout

- `src/` is the library. `store` holds the tables that every rule works on, `rows` what a row
  of each table holds, and `table`, `sorting` and `text` the operations on rows and strings.
  The other modules hold the rules, one area each. The contract of a function states what it
  returns and what the tables hold afterwards; the public proof functions named `law_..`
  state what holds across functions.
- `app/` is ordinary Rust around the library: the HTTP routes, the database, the background
  loops, requests to other services and Git commands. It reads the tables that a rule needs,
  calls the rule, and writes back what changed.
- `tests/` runs the library on concrete values.

## What is trusted

A few calls into `serde_json` and the standard library stand behind functions whose contracts
are believed, not proved. Each is marked `#[verifier::external_body]`, or is an
`assume_specification`, and says above it what is claimed of the call.

Times that are compared are seconds since 1970; times that are only shown are text that the
caller provides. Costs and ratios are floating point and stay in `app/`.
