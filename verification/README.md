# pub_suite_conformance

The `conformance` check of a suite of reusable GitHub workflows, as a verified library.

A ruleset requires status checks by name, and the name of a check run that a reusable workflow
produces is `<caller job id> / <reusable job name>`; a job a repository runs itself produces the
check run named by that job. `check` reads the caller workflows, the reusable workflows and the
rules, and reports every required context that no caller produces, and every producing caller
that does not trigger on both `pull_request` and `merge_group`.

Layout:

- `src/yaml.rs` — the documents `yaml_rust2` loads, taken into the library's own tree (`Node`),
  what a node holds (`YamlValue`), and the few reads the checks make of a node.
- `src/text.rs` — the order of names, finding, trimming, and the sorted name sets.
- `src/model.rs` — sources, check runs, findings, the report, and their views.
- `src/workflow.rs` — events, jobs, the workflow a `uses:` names, the check runs the callers
  produce, the contexts the rules require.
- `src/judge.rs` — the findings of each required context, hints, `check`.
- `src/render.rs` — what the report, a finding and an error say.
- `src/command.rs` — the command line, and what a run prints and how it exits.
- `src/laws.rs` — what holds of every report, set of check runs and command line.
- `app/main.rs` — the `conformance` program: reads the files `run` names, hands them to
  `finish`, prints, exits.

Exit status 0 when the contract holds, 1 with a finding per broken context on stderr, 2 when an
input cannot be read.
