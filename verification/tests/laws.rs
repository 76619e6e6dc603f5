//! The laws of the library on concrete inputs, and the edges the checks handle.

use pub_suite_conformance::render::decimal;
use pub_suite_conformance::text::str_less;
use pub_suite_conformance::{
    check, check_runs, conclude, events, hint, is_run_dependent, jobs, judge, judge_sources, parse,
    parse_args, workflow_file, workflow_files,
    report, required_contexts, required_in, run, used_workflow, CheckRun, Error, Finding, Inputs,
    Node, Origin, Report, Source, Step, BROKEN, CLEAN, UNUSABLE, USAGE,
};

const CALLER: &str = "on: [push]
jobs:
  suite:
    uses: ./.github/workflows/rust.yml
  own:
    name: own check
";
const RUST: &str = "on: workflow_call
jobs:
  deny:
    name: deny
  legs:
    name: legs ${{ matrix.os }}
  probe:
    strategy: { matrix: { os: [a, b] } }
";

fn rules(contexts: &[&str]) -> Source {
    let listed: Vec<String> = contexts
        .iter()
        .map(|c| format!("{{\"context\": \"{c}\"}}"))
        .collect();
    Source::new(
        "rules.json",
        &format!(
            "[{{\"type\": \"required_status_checks\", \"parameters\": {{\"required_status_checks\": [{}]}}}}]",
            listed.join(", ")
        ),
    )
}

fn run_named(context: Option<&str>, name: &str, events: &[&str]) -> CheckRun {
    CheckRun {
        context: context.map(str::to_owned),
        name: name.to_owned(),
        origin: Origin {
            caller: "ci.yml".to_owned(),
            caller_job: "suite".to_owned(),
            workflow: "rust.yml".to_owned(),
            job: name.to_owned(),
            events: events.iter().map(|e| (*e).to_owned()).collect(),
        },
    }
}

#[test]
fn a_producer_without_either_event_raises_both_findings_in_order() {
    let report = check(
        &[Source::new("ci.yml", CALLER)],
        &[Source::new("rust.yml", RUST)],
        &rules(&["suite / deny"]),
    )
    .unwrap();
    assert_eq!(
        report.findings,
        vec![
            Finding::NotOnPullRequest {
                context: "suite / deny".to_owned(),
                caller: "ci.yml".to_owned()
            },
            Finding::NotInMergeQueue {
                context: "suite / deny".to_owned(),
                caller: "ci.yml".to_owned()
            },
        ]
    );
    assert!(!report.is_clean());
}

#[test]
fn check_runs_are_named_by_their_contexts() {
    let runs = check_runs(&[Source::new("ci.yml", CALLER)], &[Source::new("rust.yml", RUST)])
        .unwrap();
    let contexts: Vec<Option<&str>> = runs.iter().map(|r| r.context.as_deref()).collect();
    assert_eq!(
        contexts,
        vec![Some("suite / deny"), None, None, Some("own check")]
    );
    assert_eq!(runs[2].name, "probe");
    assert_eq!(runs[3].origin.workflow, "ci.yml");
    assert_eq!(runs[3].origin.caller_job, "own");
    assert_eq!(runs[0].origin.events, vec!["push".to_owned()]);
}

#[test]
fn the_first_workflow_that_is_not_yaml_is_the_error() {
    let problem = check_runs(
        &[Source::new("ci.yml", "jobs: [")],
        &[Source::new("a.yml", "on: ["), Source::new("b.yml", "{")],
    )
    .unwrap_err();
    assert!(matches!(problem, Error::Parse { ref file, .. } if file == "a.yml"), "{problem:?}");
}

#[test]
fn required_contexts_are_a_sorted_set() {
    let required = required_contexts(&rules(&["b", "a", "b", "suite / deny"])).unwrap();
    assert_eq!(required, vec!["a", "b", "suite / deny"]);
}

#[test]
fn the_contexts_of_a_document_come_from_required_status_checks_rules_only() {
    let doc = parse(&Source::new(
        "r.json",
        r#"{"rules": [{"type": "pull_request", "parameters": {"required_status_checks": [{"context": "x"}]}}, {"type": "required_status_checks", "parameters": {"required_status_checks": [{"context": "y"}, {"name": "z"}]}}]}"#,
    ))
    .unwrap();
    assert_eq!(required_in(&doc), vec!["y".to_owned()]);
}

#[test]
fn an_empty_document_requires_nothing() {
    assert_eq!(
        required_contexts(&Source::new("rules.json", "")),
        Err(Error::NoRequiredChecks)
    );
    let doc = parse(&Source::new("x.yml", "")).unwrap();
    assert!(events(&doc).is_empty());
    assert!(jobs(&doc).is_empty());
}

#[test]
fn events_are_a_sorted_set() {
    let doc = parse(&Source::new("x.yml", "on: [push, push, pull_request, 3]\n")).unwrap();
    assert_eq!(events(&doc), vec!["pull_request".to_owned(), "push".to_owned()]);
}

#[test]
fn jobs_keep_their_order_and_names() {
    let doc = parse(&Source::new("x.yml", RUST)).unwrap();
    let ids: Vec<&str> = jobs(&doc).iter().map(|(id, _)| *id).collect();
    assert_eq!(ids, vec!["deny", "legs", "probe"]);
    let all = jobs(&doc);
    assert!(!is_run_dependent("deny", all[0].1));
    assert!(is_run_dependent("legs ${{ matrix.os }}", all[1].1));
    assert!(is_run_dependent("probe", all[2].1));
}

#[test]
fn a_clean_report_exits_zero() {
    let clean = report(vec!["c".to_owned()], vec![run_named(Some("c"), "c", &["merge_group", "pull_request"])]);
    assert!(clean.is_clean());
    let outcome = conclude(Ok(clean.clone()));
    assert_eq!(outcome.status, CLEAN);
    assert_eq!(outcome.stdout, clean.to_string());
    assert!(outcome.stderr.is_empty());
}

#[test]
fn a_broken_report_exits_one_with_each_finding_on_stderr() {
    let broken = report(vec!["c".to_owned()], vec![run_named(Some("c"), "c", &["pull_request"])]);
    let outcome = conclude(Ok(broken));
    assert_eq!(outcome.status, BROKEN);
    assert_eq!(
        outcome.stderr,
        "conformance: not in the merge queue: c — ci.yml does not trigger on merge_group, so a queue entry waits for it forever\n"
    );
}

#[test]
fn an_unreadable_input_exits_two() {
    let outcome = conclude(Err("callers: gone".to_owned()));
    assert_eq!(outcome.status, UNUSABLE);
    assert_eq!(outcome.stderr, "conformance: callers: gone\n");
    assert!(outcome.stdout.is_empty());
}

#[test]
fn every_order_of_the_inputs_reads_the_same() {
    let pairs = [["--callers", "c"], ["--workflows", "w"], ["--rules", "r"]];
    let orders = [[0, 1, 2], [0, 2, 1], [1, 0, 2], [1, 2, 0], [2, 0, 1], [2, 1, 0]];
    for order in orders {
        let flags: Vec<&str> = order.iter().flat_map(|k| pairs[*k]).collect();
        assert_eq!(
            parse_args(&flags).unwrap(),
            Inputs {
                callers: "c".to_owned(),
                workflows: "w".to_owned(),
                rules: "r".to_owned()
            }
        );
    }
}

#[test]
fn each_wrong_command_line_says_why() {
    assert_eq!(parse_args(&["--rules"]).unwrap_err(), "`--rules` needs a value");
    assert_eq!(
        parse_args(&["--rules", "a", "--rules", "b"]).unwrap_err(),
        "--rules given twice"
    );
    assert_eq!(parse_args(&["--bogus", "x"]).unwrap_err(), "unknown argument `--bogus`");
    assert_eq!(parse_args(&[]).unwrap_err(), "--callers is required");
    assert_eq!(
        parse_args(&["--callers", "c"]).unwrap_err(),
        "--workflows is required"
    );
}

#[test]
fn help_prints_the_usage_and_a_full_command_line_reads_the_inputs() {
    for flag in ["--help", "-h"] {
        let Step::Done(outcome) = run(&[flag.to_owned()], "1.2.3") else {
            panic!("{flag} reads nothing");
        };
        assert_eq!(outcome.stdout, format!("{USAGE}\n"));
        assert_eq!(outcome.status, CLEAN);
    }
    let Step::Done(version) = run(&["--version".to_owned()], "1.2.3") else {
        panic!("--version reads nothing");
    };
    assert_eq!(version.stdout, "conformance 1.2.3\n");
    let args: Vec<String> = ["--callers", "c", "--workflows", "w", "--rules", "r"]
        .iter()
        .map(|a| (*a).to_owned())
        .collect();
    assert!(matches!(run(&args, "1.2.3"), Step::Judge(inputs) if inputs.rules == "r"));
    let Step::Done(wrong) = run(&["--rules".to_owned()], "1.2.3") else {
        panic!("a dangling flag reads nothing");
    };
    assert_eq!(
        wrong.stderr,
        format!("conformance: `--rules` needs a value\n{USAGE}\n")
    );
}

#[test]
fn a_uses_is_trimmed_and_cut_at_its_ref() {
    assert_eq!(
        used_workflow("org/.github/.github/workflows/ x.yml @v1"),
        Some("x.yml")
    );
    assert_eq!(used_workflow("./.github/workflows/"), Some(""));
    assert_eq!(used_workflow("./github/workflows/x.yml"), None);
}

#[test]
fn each_error_says_what_went_wrong() {
    assert_eq!(
        Error::Parse { file: "a.yml".to_owned(), detail: "bad".to_owned() }.to_string(),
        "a.yml: not YAML: bad"
    );
    assert_eq!(
        Error::UnknownWorkflow {
            caller: "ci.yml".to_owned(),
            job: "suite".to_owned(),
            workflow: "rust.yml".to_owned()
        }
        .to_string(),
        "ci.yml: job suite uses rust.yml, which is not among the reusable workflows given"
    );
    assert_eq!(
        Error::NotReusable { workflow: "rust.yml".to_owned() }.to_string(),
        "rust.yml: not a reusable workflow (no `on: workflow_call`)"
    );
    assert_eq!(
        Error::NoRequiredChecks.to_string(),
        "the rules carry no required_status_checks rule: nothing protects main, so there is no contract to check"
    );
}

#[test]
fn each_finding_says_what_is_broken() {
    assert_eq!(
        Finding::Missing { context: "a / b".to_owned(), hint: "h".to_owned() }.to_string(),
        "missing: a / b — no caller produces it (h)"
    );
    assert_eq!(
        Finding::NotOnPullRequest { context: "a / b".to_owned(), caller: "ci.yml".to_owned() }
            .to_string(),
        "not on pull requests: a / b — ci.yml does not trigger on pull_request"
    );
}

#[test]
fn the_report_pads_contexts_and_lists_the_rest() {
    let r = report(
        vec!["c".to_owned(), "suite / x".to_owned()],
        vec![
            run_named(Some("c"), "c", &["merge_group", "pull_request"]),
            run_named(Some("suite / y"), "y", &[]),
            run_named(None, "z ${{ x }}", &[]),
        ],
    );
    assert_eq!(
        r.to_string(),
        "required status checks: 2\n  c                    ci.yml: suite -> rust.yml: c\n  suite / x            (no caller produces it)\nalso produced, not required: suite / y\nrun-dependent names, never required: rust.yml: z ${{ x }} \"z ${{ x }}\"\n"
    );
}

#[test]
fn a_hint_names_what_resembles_the_missing_context() {
    let produced = vec![
        run_named(Some("suite / b"), "b", &[]),
        run_named(Some("suite / a"), "a", &[]),
        run_named(Some("suite / b"), "b", &[]),
    ];
    assert_eq!(hint("other / c", &produced), "the callers produce: suite / a, suite / b");
    assert_eq!(
        hint("ci / a", &produced),
        "ci.yml: suite produces \"suite / a\" — the caller job is suite, not ci"
    );
    let renamed = vec![run_named(Some("suite / a2"), "a2", &[])];
    let mut renamed = renamed;
    renamed[0].origin.job = "a".to_owned();
    assert_eq!(hint("suite / a", &renamed), "job a of rust.yml is named \"a2\"");
    renamed[0].context = None;
    assert_eq!(
        hint("suite / a", &renamed),
        "job a of rust.yml has the run-dependent name \"a2\", which no ruleset can require"
    );
}

#[test]
fn a_context_is_judged_by_its_first_producer() {
    let produced = vec![
        run_named(Some("c"), "c", &["pull_request"]),
        run_named(Some("c"), "c", &["merge_group", "pull_request"]),
    ];
    assert_eq!(judge("c", &produced).len(), 1);
    let r: Report = report(vec!["c".to_owned()], produced);
    assert_eq!(r.producer("c").unwrap().origin.events, vec!["pull_request".to_owned()]);
}

#[test]
fn numbers_are_written_in_decimal() {
    assert_eq!(decimal(0), "0");
    assert_eq!(decimal(7), "7");
    assert_eq!(decimal(1024), "1024");
}

#[test]
fn names_are_ordered_as_strings_are() {
    assert!(str_less("a", "b"));
    assert!(str_less("", "a"));
    assert!(str_less("ab", "b"));
    assert!(!str_less("b", "ab"));
    assert!(!str_less("a", "a"));
    assert!(str_less("Z", "a"));
}

#[test]
fn a_file_that_is_not_yaml_names_the_parser_problem() {
    let problem = parse(&Source::new("x.yml", "a: [")).unwrap_err();
    let Error::Parse { file, detail } = problem else {
        panic!("not a parse error");
    };
    assert_eq!(file, "x.yml");
    assert!(!detail.is_empty());
}

#[test]
fn the_workflow_files_of_a_directory_are_chosen_and_sorted() {
    let names: Vec<String> = ["z.yml", "notes.md", "a.yaml", ".yml", "b.yml.bak", "c.d.yml", "ci.YML"]
        .iter()
        .map(|n| (*n).to_owned())
        .collect();
    assert_eq!(workflow_files(&names), vec!["a.yaml", "c.d.yml", "z.yml"]);
    assert!(workflow_file("x.yml"));
    assert!(!workflow_file(".yaml"));
    assert!(!workflow_file("yml"));
}

#[test]
fn judged_sources_say_their_error_as_the_command_prints_it() {
    let problem = judge_sources(
        &[Source::new("ci.yml", CALLER)],
        &[],
        &rules(&["suite / deny"]),
    )
    .unwrap_err();
    assert_eq!(
        problem,
        "ci.yml: job suite uses rust.yml, which is not among the reusable workflows given"
    );
    let report = judge_sources(
        &[Source::new(String::from("ci.yml"), String::from(CALLER))],
        &[Source::new("rust.yml", RUST)],
        &rules(&["own check"]),
    )
    .unwrap();
    assert_eq!(report.required, vec!["own check"]);
}

fn text(s: &str) -> Node {
    Node::Str(s.to_owned())
}

#[test]
fn a_parsed_document_is_the_tree_its_text_writes() {
    let doc = parse(&Source::new(
        "x.yml",
        "on: [push, 3]\njobs:\n  a:\n    name: A\n    strategy:\n      matrix: {os: [x]}\n",
    ))
    .unwrap();
    let expected = Node::Hash(vec![
        (text("on"), Node::Array(vec![text("push"), Node::Integer(3)])),
        (
            text("jobs"),
            Node::Hash(vec![(
                text("a"),
                Node::Hash(vec![
                    (text("name"), text("A")),
                    (
                        text("strategy"),
                        Node::Hash(vec![(
                            text("matrix"),
                            Node::Hash(vec![(text("os"), Node::Array(vec![text("x")]))]),
                        )]),
                    ),
                ]),
            )]),
        ),
    ]);
    assert_eq!(doc, expected);
    assert_eq!(parse(&Source::new("x.yml", "")).unwrap(), Node::Null);
    assert_eq!(parse(&Source::new("x.yml", "true")).unwrap(), Node::Boolean(true));
}

#[test]
fn a_document_built_by_hand_is_read_as_a_parsed_one() {
    let doc = Node::Hash(vec![
        (
            text("on"),
            Node::Hash(vec![(text("workflow_call"), Node::Null), (Node::Integer(1), Node::Null)]),
        ),
        (
            text("jobs"),
            Node::Hash(vec![
                (text("deny"), Node::Hash(vec![])),
                (
                    text("legs"),
                    Node::Hash(vec![
                        (text("name"), text("legs")),
                        (
                            text("strategy"),
                            Node::Hash(vec![(text("matrix"), Node::Array(vec![]))]),
                        ),
                    ]),
                ),
                (Node::Boolean(true), Node::Hash(vec![])),
            ]),
        ),
    ]);
    assert_eq!(events(&doc), vec!["workflow_call".to_owned()]);
    let all = jobs(&doc);
    let ids: Vec<&str> = all.iter().map(|(id, _)| *id).collect();
    assert_eq!(ids, vec!["deny", "legs"]);
    assert!(!is_run_dependent("deny", all[0].1));
    assert!(is_run_dependent("legs", all[1].1));
    let rules = Node::Array(vec![Node::Hash(vec![
        (text("type"), text("required_status_checks")),
        (
            text("parameters"),
            Node::Hash(vec![(
                text("required_status_checks"),
                Node::Array(vec![
                    Node::Hash(vec![(text("context"), text("b"))]),
                    Node::Hash(vec![(text("context"), text("a"))]),
                    Node::Hash(vec![(text("context"), text("b"))]),
                ]),
            )]),
        ),
    ])]);
    assert_eq!(required_in(&rules), vec!["a".to_owned(), "b".to_owned()]);
}

#[test]
fn a_report_lists_its_contexts_once_in_order_whatever_order_it_holds_them_in() {
    let report = Report {
        required: vec!["b".to_owned(), "a".to_owned(), "b".to_owned()],
        produced: Vec::new(),
        findings: Vec::new(),
    };
    assert_eq!(
        report.to_string(),
        format!(
            "required status checks: 2\n  {:<20} (no caller produces it)\n  {:<20} (no caller produces it)\n",
            "a", "b"
        )
    );
}
