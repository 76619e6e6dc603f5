//! The contract between callers, reusable workflows and rules, on the workflows of a suite.

use std::collections::BTreeSet;

use pub_suite_conformance::{
    check, events, parse, required_contexts, used_workflow, Error, Finding, Report, Source,
};

const PULL_REQUEST: &str = "pull_request";
const MERGE_GROUP: &str = "merge_group";
const WORKFLOW_CALL: &str = "workflow_call";

const CI: &str = "name: ci
on:
  push: { branches: [main] }
  pull_request:
  merge_group:
jobs:
  suite:
    uses: acme/.github/.github/workflows/rust.yml@0123abc # v1.0.0
";
const REVIEW: &str = "name: review
on:
  pull_request: { types: [opened, synchronize] }
  merge_group:
jobs:
  suite:
    uses: acme/.github/.github/workflows/review.yml@0123abc # v1.0.0
";
const RUST: &str = "name: rust
on:
  workflow_call:
jobs:
  pub-check:
    name: pub-check
    runs-on: ubuntu-latest
  probe:
    runs-on: ubuntu-latest
  test-os:
    name: test-os (${{ matrix.os }})
    strategy: { matrix: { os: [ubuntu-latest, macos-latest] } }
    runs-on: ${{ matrix.os }}
  test:
    name: test
    needs: [probe, test-os]
    if: always()
  deny:
    name: deny
    if: needs.probe.outputs.has_crates == 'true'
";
const REVIEW_WORKFLOW: &str = "name: review
on:
  workflow_call:
jobs:
  agent:
    name: agent
    if: github.event_name == 'pull_request'
  policy:
    name: policy
    needs: agent
    if: always()
";
const RULESET: &str = r#"{"name": "main", "rules": [{"type": "deletion"}, {"type": "required_status_checks", "parameters": {"strict_required_status_checks_policy": true, "required_status_checks": [{"context": "suite / pub-check"}, {"context": "suite / probe"}, {"context": "suite / test"}, {"context": "suite / deny"}, {"context": "suite / policy"}]}}]}"#;

fn sources(files: &[(&str, &str)]) -> Vec<Source> {
    files
        .iter()
        .map(|(name, text)| Source::new(*name, *text))
        .collect()
}

fn report(callers: &[(&str, &str)], workflows: &[(&str, &str)], rules: &str) -> Report {
    check(
        &sources(callers),
        &sources(workflows),
        &Source::new("rules.json", rules),
    )
    .expect("the inputs parse")
}

fn standard() -> Report {
    report(
        &[("ci.yml", CI), ("review.yml", REVIEW)],
        &[("rust.yml", RUST), ("review.yml", REVIEW_WORKFLOW)],
        RULESET,
    )
}

/// A caller whose job runs on its own (no reusable workflow): the check run is named by the job.
const OWN: &str = "name: conformance
on:
  push: { branches: [main] }
  pull_request:
  merge_group:
jobs:
  conformance:
    name: conformance
    runs-on: ubuntu-latest
";
/// The rules a repository with its own check carries: the branch-rules array shape.
const OWN_RULES: &str = r#"[{"type": "required_status_checks", "parameters": {"required_status_checks": [{"context": "suite / deny"}, {"context": "conformance"}]}}]"#;

fn own(conformance: &str) -> Report {
    report(
        &[("ci.yml", CI), ("conformance.yml", conformance)],
        &[("rust.yml", RUST)],
        OWN_RULES,
    )
}

#[test]
fn a_callers_own_job_is_the_check_run_named_by_its_name() {
    let report = own(OWN);
    assert!(report.is_clean(), "{:?}", report.findings);
    let run = report.producer("conformance").unwrap();
    assert_eq!(run.origin.caller, "conformance.yml");
    assert_eq!(run.origin.workflow, "conformance.yml");
    assert_eq!(run.origin.job, "conformance");
    assert!(
        report
            .to_string()
            .contains("conformance.yml: job conformance"),
        "{}",
        report.to_string()
    );
}

#[test]
fn a_renamed_own_job_is_missing_with_its_new_name() {
    let renamed = OWN.replace("    name: conformance", "    name: contract");
    let report = own(&renamed);
    let [Finding::Missing { context, hint }] = report.findings.as_slice() else {
        panic!("{:?}", report.findings);
    };
    assert_eq!(context, "conformance");
    assert!(hint.contains("contract"), "{hint}");
}

#[test]
fn an_own_job_with_a_matrix_is_run_dependent() {
    let legs = OWN.replace(
        "    runs-on: ubuntu-latest\n",
        "    strategy: { matrix: { os: [ubuntu-latest, macos-latest] } }\n    runs-on: ${{ matrix.os }}\n",
    );
    let report = own(&legs);
    assert!(report.producer("conformance").is_none());
    assert!(matches!(
        report.findings.as_slice(),
        [Finding::Missing { .. }]
    ));
}

#[test]
fn an_own_job_without_merge_group_is_a_finding_too() {
    let unqueued = OWN.replace("  merge_group:\n", "");
    let report = own(&unqueued);
    assert!(matches!(
        report.findings.as_slice(),
        [Finding::NotInMergeQueue { context, caller }] if context == "conformance" && caller == "conformance.yml"
    ));
}

fn contexts(findings: &[Finding]) -> Vec<&str> {
    findings
        .iter()
        .map(|finding| match finding {
            Finding::Missing { context, .. }
            | Finding::NotOnPullRequest { context, .. }
            | Finding::NotInMergeQueue { context, .. } => context.as_str(),
        })
        .collect()
}

#[test]
fn every_required_context_is_produced_and_queued() {
    let report = standard();
    assert!(report.is_clean(), "{:?}", report.findings);
    assert_eq!(report.required.len(), 5);
    assert_eq!(report.producer("suite / deny").unwrap().origin.job, "deny");
}

#[test]
fn a_renamed_reusable_job_is_missing_with_its_new_name() {
    let renamed = RUST.replace("name: deny", "name: deny-check");
    let report = report(
        &[("ci.yml", CI), ("review.yml", REVIEW)],
        &[("rust.yml", &renamed), ("review.yml", REVIEW_WORKFLOW)],
        RULESET,
    );
    let [Finding::Missing { context, hint }] = report.findings.as_slice() else {
        panic!("{:?}", report.findings);
    };
    assert_eq!(context, "suite / deny");
    assert!(hint.contains("deny-check"), "{hint}");
    assert!(
        report.findings[0]
            .to_string()
            .starts_with("missing: suite / deny"),
        "{}",
        report.findings[0].to_string()
    );
}

#[test]
fn a_renamed_caller_job_is_missing_with_the_caller_named() {
    let renamed = CI.replace("  suite:", "  ci:");
    let report = report(
        &[("ci.yml", &renamed), ("review.yml", REVIEW)],
        &[("rust.yml", RUST), ("review.yml", REVIEW_WORKFLOW)],
        RULESET,
    );
    assert_eq!(
        contexts(&report.findings),
        [
            "suite / deny",
            "suite / probe",
            "suite / pub-check",
            "suite / test"
        ]
    );
    let Finding::Missing { hint, .. } = &report.findings[0] else {
        panic!("{:?}", report.findings);
    };
    assert!(hint.contains("the caller job is ci"), "{hint}");
}

#[test]
fn a_dynamic_job_name_can_never_be_required() {
    let rules = RULESET.replace("suite / deny", "suite / test-os");
    let report = report(
        &[("ci.yml", CI), ("review.yml", REVIEW)],
        &[("rust.yml", RUST), ("review.yml", REVIEW_WORKFLOW)],
        &rules,
    );
    let [Finding::Missing { context, hint }] = report.findings.as_slice() else {
        panic!("{:?}", report.findings);
    };
    assert_eq!(context, "suite / test-os");
    assert!(hint.contains("run-dependent"), "{hint}");
    assert!(report.producer("suite / test-os").is_none());
}

#[test]
fn a_caller_without_merge_group_hangs_the_queue() {
    let unqueued = CI.replace("  merge_group:\n", "");
    let report = report(
        &[("ci.yml", &unqueued), ("review.yml", REVIEW)],
        &[("rust.yml", RUST), ("review.yml", REVIEW_WORKFLOW)],
        RULESET,
    );
    assert_eq!(report.findings.len(), 4, "{:?}", report.findings);
    assert!(report.findings.iter().all(|finding| matches!(
        finding,
        Finding::NotInMergeQueue { caller, .. } if caller == "ci.yml"
    )));
    assert!(report.findings[0].to_string().contains(MERGE_GROUP));
}

#[test]
fn a_caller_without_pull_request_never_reports() {
    let pushed = CI.replace("  pull_request:\n", "");
    let report = report(
        &[("ci.yml", &pushed), ("review.yml", REVIEW)],
        &[("rust.yml", RUST), ("review.yml", REVIEW_WORKFLOW)],
        RULESET,
    );
    assert_eq!(report.findings.len(), 4, "{:?}", report.findings);
    assert!(
        report
            .findings
            .iter()
            .all(|finding| matches!(finding, Finding::NotOnPullRequest { .. }))
    );
}

#[test]
fn the_branch_rules_api_array_is_read_like_a_ruleset_file() {
    let array = r#"[{"type": "deletion", "ruleset_source_type": "Repository", "ruleset_id": 1}, {"type": "required_status_checks", "parameters": {"required_status_checks": [{"context": "suite / deny", "integration_id": 15368}, {"context": "suite / test"}]}, "ruleset_id": 1}]"#;
    let from_array = required_contexts(&Source::new("rules.json", array)).unwrap();
    assert_eq!(
        from_array.iter().cloned().collect::<BTreeSet<String>>(),
        BTreeSet::from(["suite / deny".to_owned(), "suite / test".to_owned()])
    );
    assert_eq!(from_array, ["suite / deny", "suite / test"]);
    let from_file = required_contexts(&Source::new("main-default.json", RULESET)).unwrap();
    assert_eq!(from_file.len(), 5);
}

#[test]
fn no_required_checks_rule_is_an_error() {
    let rules = r#"{"name": "main", "rules": [{"type": "deletion"}]}"#;
    assert_eq!(
        required_contexts(&Source::new("rules.json", rules)),
        Err(Error::NoRequiredChecks)
    );
    assert_eq!(
        required_contexts(&Source::new("rules.json", "[]")),
        Err(Error::NoRequiredChecks)
    );
}

fn set(names: Vec<String>) -> BTreeSet<String> {
    names.into_iter().collect()
}

#[test]
fn on_is_a_string_key_not_a_boolean() {
    let doc = parse(&Source::new("x.yml", "on:\n  push:\n  merge_group:\n")).unwrap();
    assert_eq!(
        set(events(&doc)),
        BTreeSet::from(["push".to_owned(), MERGE_GROUP.to_owned()])
    );
    let list = parse(&Source::new("x.yml", "on: [push, pull_request]\n")).unwrap();
    assert!(set(events(&list)).contains(PULL_REQUEST));
    let one = parse(&Source::new("x.yml", "on: workflow_call\n")).unwrap();
    assert!(set(events(&one)).contains(WORKFLOW_CALL));
}

#[test]
fn an_unrequired_check_run_is_not_a_finding() {
    let report = standard();
    assert!(report.producer("suite / agent").is_some());
    assert!(report.is_clean());
    assert!(
        report
            .to_string()
            .contains("also produced, not required: suite / agent")
    );
}

#[test]
fn an_action_is_not_a_reusable_workflow() {
    assert_eq!(used_workflow("actions/checkout@0123abc"), None);
    assert_eq!(
        used_workflow("acme/.github/.github/workflows/rust.yml@0123abc"),
        Some("rust.yml")
    );
    assert_eq!(
        used_workflow("./.github/workflows/local.yml"),
        Some("local.yml")
    );
}

#[test]
fn a_caller_using_an_unknown_workflow_is_an_error() {
    let problem = check(
        &sources(&[("ci.yml", CI)]),
        &sources(&[("review.yml", REVIEW_WORKFLOW)]),
        &Source::new("rules.json", RULESET),
    )
    .unwrap_err();
    assert_eq!(
        problem,
        Error::UnknownWorkflow {
            caller: "ci.yml".to_owned(),
            job: "suite".to_owned(),
            workflow: "rust.yml".to_owned(),
        }
    );
}

#[test]
fn a_used_workflow_must_be_reusable() {
    let problem = check(
        &sources(&[("ci.yml", CI)]),
        &sources(&[("rust.yml", CI)]),
        &Source::new("rules.json", RULESET),
    )
    .unwrap_err();
    assert_eq!(
        problem,
        Error::NotReusable {
            workflow: "rust.yml".to_owned()
        }
    );
}

#[test]
fn a_file_that_is_not_yaml_is_an_error() {
    let problem = required_contexts(&Source::new("rules.json", "{\"rules\": [")).unwrap_err();
    assert!(matches!(problem, Error::Parse { ref file, .. } if file == "rules.json"));
}

#[test]
fn a_job_without_a_name_is_named_by_its_id() {
    let report = standard();
    assert_eq!(report.producer("suite / probe").unwrap().name, "probe");
}

#[test]
fn the_report_lists_each_required_context_with_its_producer() {
    let text = standard().to_string();
    assert!(text.contains("required status checks: 5"), "{text}");
    assert!(text.contains("suite / deny"), "{text}");
    assert!(text.contains("ci.yml: suite -> rust.yml: deny"), "{text}");
    assert!(
        text.contains("run-dependent names, never required: rust.yml: test-os"),
        "{text}"
    );
}
