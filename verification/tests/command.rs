//! The command line and what a run prints and how it exits.

use pub_suite_conformance::{
    finish, parse_args, run, Inputs, Source, Step, BROKEN, CLEAN, UNUSABLE,
};

fn args(list: &[&str]) -> Vec<String> {
    list.iter().map(|arg| (*arg).to_owned()).collect()
}

#[test]
fn the_three_inputs_are_read_in_any_order() {
    let inputs =
        parse_args(&["--rules", "r.json", "--callers", "c", "--workflows", "w"]).unwrap();
    assert_eq!(
        inputs,
        Inputs {
            callers: "c".to_owned(),
            workflows: "w".to_owned(),
            rules: "r.json".to_owned(),
        }
    );
}

#[test]
fn a_missing_input_is_named() {
    let problem = parse_args(&["--callers", "c", "--workflows", "w"]).unwrap_err();
    assert!(problem.contains("--rules"), "{problem}");
}

#[test]
fn an_unknown_argument_is_named() {
    let problem = parse_args(&["--bogus", "x"]).unwrap_err();
    assert!(problem.contains("--bogus"), "{problem}");
}

#[test]
fn a_repeated_or_dangling_flag_is_refused() {
    assert!(parse_args(&["--rules", "a", "--rules", "b"]).is_err());
    assert!(parse_args(&["--rules"]).is_err());
}

#[test]
fn a_wrong_command_line_is_unusable_and_prints_the_usage() {
    let Step::Done(outcome) = run(&args(&["--nope"]), "0.1.0") else {
        panic!("a wrong command line reads nothing");
    };
    assert_eq!(outcome.status, UNUSABLE);
    assert!(outcome.stderr.contains("usage:"), "{}", outcome.stderr);
}

#[test]
fn version_names_the_command() {
    let Step::Done(outcome) = run(&args(&["--version"]), "0.1.0") else {
        panic!("--version reads nothing");
    };
    assert!(outcome.stdout.starts_with("conformance "));
}

#[test]
fn a_directory_that_does_not_exist_is_unusable_and_named() {
    let Step::Judge(inputs) = run(
        &args(&[
            "--callers",
            "/nonexistent/callers",
            "--workflows",
            "/nonexistent/workflows",
            "--rules",
            "/nonexistent/rules.json",
        ]),
        "0.1.0",
    ) else {
        panic!("a full command line reads its inputs");
    };
    assert_eq!(inputs.callers, "/nonexistent/callers");
    // the program reads the callers first, and hands back the directory it could not read
    let problem = format!(
        "{}: No such file or directory (os error 2)",
        inputs.callers
    );
    let outcome = finish(Err(problem));
    assert_eq!(outcome.status, UNUSABLE);
    assert!(
        outcome.stderr.contains("/nonexistent/callers"),
        "{}",
        outcome.stderr
    );
}

const OWN_RULE: &str = r#"[{"type": "required_status_checks", "parameters": {"required_status_checks": [{"context": "c"}]}}]"#;

#[test]
fn a_run_that_read_its_inputs_ends_as_their_judgement_says() {
    let read = |events: &str| {
        Ok((
            vec![Source::new(
                "ci.yml",
                format!("on: [{events}]\njobs:\n  c:\n    runs-on: x\n"),
            )],
            Vec::new(),
            Source::new("rules.json", OWN_RULE),
        ))
    };
    let clean = finish(read("pull_request, merge_group"));
    assert_eq!(clean.status, CLEAN);
    assert_eq!(
        clean.stdout,
        format!("required status checks: 1\n  {:<20} ci.yml: job c\n", "c")
    );
    assert_eq!(clean.stderr, "");
    let broken = finish(read("pull_request"));
    assert_eq!(broken.status, BROKEN);
    assert!(broken.stderr.contains("merge_group"), "{}", broken.stderr);
    let unusable = finish(Ok((Vec::new(), Vec::new(), Source::new("rules.json", "[]"))));
    assert_eq!(unusable.status, UNUSABLE);
    assert_eq!(unusable.stdout, "");
}
