//! The `conformance` command: its command line, and what a run prints and how it exits.
//! Reading the files is left to the program around it, which hands back what it judged.

use vstd::prelude::*;

use crate::judge::{check, check_of};
use crate::model::{Report, Source};
use crate::render::{error_text, finding_text, report_text};
use crate::text::str_equal;

verus! {

/// Exit status when the contract holds.
pub const CLEAN: u8 = 0;

/// Exit status when a finding breaks the contract.
pub const BROKEN: u8 = 1;

/// Exit status when the inputs cannot be read or the command line is wrong.
pub const UNUSABLE: u8 = 2;

/// What `--help` and a wrong command line print.
pub const USAGE: &'static str = "usage: conformance --callers <dir> --workflows <dir> --rules <file>
  --callers    a repository's own .github/workflows: the jobs that `uses:` a reusable workflow name the check runs
  --workflows  the reusable workflows of the .github repository (rust.yml, review.yml)
  --rules      a ruleset file, or what `gh api repos/<org>/<repo>/rules/branches/main` answers";

/// The three inputs, as paths.
#[derive(Debug, Clone, PartialEq, Eq)]
pub struct Inputs {
    pub callers: String,
    pub workflows: String,
    pub rules: String,
}

pub struct InputsView {
    pub callers: Seq<char>,
    pub workflows: Seq<char>,
    pub rules: Seq<char>,
}

impl View for Inputs {
    type V = InputsView;

    open spec fn view(&self) -> InputsView {
        InputsView { callers: self.callers@, workflows: self.workflows@, rules: self.rules@ }
    }
}

/// What a run prints and how it exits.
#[derive(Debug, Clone, PartialEq, Eq)]
pub struct Outcome {
    pub stdout: String,
    pub stderr: String,
    pub status: u8,
}

pub struct OutcomeView {
    pub stdout: Seq<char>,
    pub stderr: Seq<char>,
    pub status: u8,
}

impl View for Outcome {
    type V = OutcomeView;

    open spec fn view(&self) -> OutcomeView {
        OutcomeView { stdout: self.stdout@, stderr: self.stderr@, status: self.status }
    }
}

pub open spec fn clean_of(stdout: Seq<char>) -> OutcomeView {
    OutcomeView { stdout, stderr: seq![], status: CLEAN }
}

pub open spec fn unusable_of(problem: Seq<char>) -> OutcomeView {
    OutcomeView { stdout: seq![], stderr: "conformance: "@ + problem + "\n"@, status: UNUSABLE }
}

/// Each finding on a line of its own, after the command's name.
pub open spec fn findings_lines(findings: Seq<crate::model::FindingView>) -> Seq<char>
    decreases findings.len(),
{
    if findings.len() == 0 {
        seq![]
    } else {
        findings_lines(findings.drop_last()) + "conformance: "@ + finding_text(findings.last())
            + "\n"@
    }
}

pub open spec fn broken_of(report: crate::model::ReportView) -> OutcomeView {
    OutcomeView {
        stdout: report_text(report),
        stderr: findings_lines(report.findings),
        status: BROKEN,
    }
}

impl Outcome {
    /// The contract holds: the report on stdout, exit 0.
    pub fn clean(stdout: String) -> (r: Outcome)
        ensures
            r@ == clean_of(stdout@),
    {
        let r = Outcome { stdout, stderr: String::new(), status: CLEAN };
        assert(r@.stderr =~= Seq::<char>::empty());
        r
    }

    /// The contract is broken: the report on stdout, each finding on stderr, exit 1.
    pub fn broken(report: &Report) -> (r: Outcome)
        ensures
            r@ == broken_of(report@),
    {
        let ghost fs = report@.findings;
        let mut stderr = String::new();
        let mut i: usize = 0;
        assert(fs.take(0) =~= Seq::<crate::model::FindingView>::empty());
        assert(stderr@ =~= Seq::<char>::empty());
        while i < report.findings.len()
            invariant
                fs == report@.findings,
                fs.len() == report.findings@.len(),
                i <= report.findings@.len(),
                stderr@ == findings_lines(fs.take(i as int)),
            decreases report.findings.len() - i,
        {
            proof {
                assert(fs.take(i + 1).drop_last() =~= fs.take(i as int));
                assert(fs.take(i + 1).last() == report.findings@[i as int]@);
            }
            stderr.append("conformance: ");
            let line = report.findings[i].to_string();
            stderr.append(line.as_str());
            stderr.append("\n");
            i = i + 1;
        }
        assert(fs.take(i as int) =~= fs);
        Outcome { stdout: report.to_string(), stderr, status: BROKEN }
    }

    /// The inputs cannot be judged: the problem on stderr, exit 2.
    pub fn unusable(problem: &str) -> (r: Outcome)
        ensures
            r@ == unusable_of(problem@),
    {
        let mut stderr = String::from_str("conformance: ");
        stderr.append(problem);
        stderr.append("\n");
        let r = Outcome { stdout: String::new(), stderr, status: UNUSABLE };
        assert(r@.stdout =~= Seq::<char>::empty());
        r
    }
}

/// The paths given so far to `--callers`, `--workflows` and `--rules`.
pub type Slots = (Option<Seq<char>>, Option<Seq<char>>, Option<Seq<char>>);

/// Reads `--flag value` pairs into the slots; an unknown flag, a flag given twice or one without
/// a value is refused.
pub open spec fn read_flags(flags: Seq<Seq<char>>, slots: Slots) -> Result<Slots, Seq<char>>
    decreases flags.len(),
{
    if flags.len() >= 2 {
        let flag = flags[0];
        let value = flags[1];
        let rest = flags.skip(2);
        if flag == "--callers"@ {
            if slots.0 is Some {
                Err(flag + " given twice"@)
            } else {
                read_flags(rest, (Some(value), slots.1, slots.2))
            }
        } else if flag == "--workflows"@ {
            if slots.1 is Some {
                Err(flag + " given twice"@)
            } else {
                read_flags(rest, (slots.0, Some(value), slots.2))
            }
        } else if flag == "--rules"@ {
            if slots.2 is Some {
                Err(flag + " given twice"@)
            } else {
                read_flags(rest, (slots.0, slots.1, Some(value)))
            }
        } else {
            Err("unknown argument `"@ + flag + "`"@)
        }
    } else if flags.len() == 1 {
        Err("`"@ + flags[0] + "` needs a value"@)
    } else {
        Ok(slots)
    }
}

/// `--callers <dir> --workflows <dir> --rules <file>`, in any order, each once.
pub open spec fn parse_args_of(flags: Seq<Seq<char>>) -> Result<InputsView, Seq<char>> {
    match read_flags(flags, (None, None, None)) {
        Err(problem) => Err(problem),
        Ok(slots) => match slots.0 {
            None => Err("--callers is required"@),
            Some(callers) => match slots.1 {
                None => Err("--workflows is required"@),
                Some(workflows) => match slots.2 {
                    None => Err("--rules is required"@),
                    Some(rules) => Ok(InputsView { callers, workflows, rules }),
                },
            },
        },
    }
}

pub open spec fn strs_of(flags: Seq<&str>) -> Seq<Seq<char>> {
    flags.map_values(|f: &str| f@)
}

pub open spec fn inputs_result(r: Result<Inputs, String>) -> Result<InputsView, Seq<char>> {
    match r {
        Ok(i) => Ok(i@),
        Err(e) => Err(e@),
    }
}

/// `--callers <dir> --workflows <dir> --rules <file>`, in any order, each once.
pub fn parse_args(flags: &[&str]) -> (r: Result<Inputs, String>)
    ensures
        inputs_result(r) == parse_args_of(strs_of(flags@)),
{
    let ghost all = strs_of(flags@);
    let mut callers: Option<String> = None;
    let mut workflows: Option<String> = None;
    let mut rules: Option<String> = None;
    let mut i: usize = 0;
    assert(all.skip(0) =~= all);
    while flags.len() - i >= 2
        invariant
            all == strs_of(flags@),
            all.len() == flags@.len(),
            i <= flags@.len(),
            read_flags(all, (None, None, None)) == read_flags(
                all.skip(i as int),
                (
                    crate::model::opt_view(callers),
                    crate::model::opt_view(workflows),
                    crate::model::opt_view(rules),
                ),
            ),
        decreases flags.len() - i,
    {
        let flag = flags[i];
        let value = flags[i + 1];
        proof {
            let rest = all.skip(i as int);
            assert(rest[0] == flag@);
            assert(rest[1] == value@);
            assert(rest.skip(2) =~= all.skip(i + 2));
        }
        if str_equal(flag, "--callers") {
            if callers.is_some() {
                let mut problem = flag.to_owned();
                problem.append(" given twice");
                return Err(problem);
            }
            callers = Some(value.to_owned());
        } else if str_equal(flag, "--workflows") {
            if workflows.is_some() {
                let mut problem = flag.to_owned();
                problem.append(" given twice");
                return Err(problem);
            }
            workflows = Some(value.to_owned());
        } else if str_equal(flag, "--rules") {
            if rules.is_some() {
                let mut problem = flag.to_owned();
                problem.append(" given twice");
                return Err(problem);
            }
            rules = Some(value.to_owned());
        } else {
            let mut problem = String::from_str("unknown argument `");
            problem.append(flag);
            problem.append("`");
            return Err(problem);
        }
        i = i + 2;
    }
    if i < flags.len() {
        assert(all.skip(i as int)[0] == flags@[i as int]@);
        let mut problem = String::from_str("`");
        problem.append(flags[i]);
        problem.append("` needs a value");
        return Err(problem);
    }
    match (callers, workflows, rules) {
        (None, _, _) => Err(String::from_str("--callers is required")),
        (Some(_), None, _) => Err(String::from_str("--workflows is required")),
        (Some(_), Some(_), None) => Err(String::from_str("--rules is required")),
        (Some(callers), Some(workflows), Some(rules)) => Ok(Inputs { callers, workflows, rules }),
    }
}

/// What a run does next: it is done, or the inputs are to be read and judged.
pub enum Step {
    /// Nothing to read: this is what the run prints and how it exits.
    Done(Outcome),
    /// Read these inputs, judge them, and hand what was judged to `conclude`.
    Judge(Inputs),
}

pub enum StepView {
    Done(OutcomeView),
    Judge(InputsView),
}

impl View for Step {
    type V = StepView;

    open spec fn view(&self) -> StepView {
        match self {
            Step::Done(o) => StepView::Done(o@),
            Step::Judge(i) => StepView::Judge(i@),
        }
    }
}

pub open spec fn run_of(args: Seq<Seq<char>>, version: Seq<char>) -> StepView {
    if args == seq!["--version"@] {
        StepView::Done(clean_of("conformance "@ + version + "\n"@))
    } else if args == seq!["--help"@] || args == seq!["-h"@] {
        StepView::Done(clean_of(USAGE@ + "\n"@))
    } else {
        match parse_args_of(args) {
            Err(problem) => StepView::Done(unusable_of(problem + "\n"@ + USAGE@)),
            Ok(inputs) => StepView::Judge(inputs),
        }
    }
}

pub open spec fn args_of(args: Seq<String>) -> Seq<Seq<char>> {
    args.map_values(|a: String| a@)
}

/// Runs the command on `args` up to the reading of the inputs; `version` is what `--version`
/// names.
pub fn run(args: &[String], version: &str) -> (r: Step)
    ensures
        r@ == run_of(args_of(args@), version@),
{
    let ghost all = args_of(args@);
    let mut flags: Vec<&str> = Vec::new();
    let mut i: usize = 0;
    while i < args.len()
        invariant
            all == args_of(args@),
            all.len() == args@.len(),
            i <= args@.len(),
            flags@.len() == i,
            strs_of(flags@) == all.take(i as int),
        decreases args.len() - i,
    {
        flags.push(args[i].as_str());
        i = i + 1;
        assert(strs_of(flags@) =~= all.take(i as int));
    }
    assert(all.take(i as int) =~= all);
    if flags.len() == 1 && str_equal(flags[0], "--version") {
        assert(all =~= seq!["--version"@]);
        let mut line = String::from_str("conformance ");
        line.append(version);
        line.append("\n");
        return Step::Done(Outcome::clean(line));
    }
    if flags.len() == 1 && (str_equal(flags[0], "--help") || str_equal(flags[0], "-h")) {
        assert(all =~= seq![flags@[0]@]);
        let mut text = String::from_str(USAGE);
        text.append("\n");
        return Step::Done(Outcome::clean(text));
    }
    proof {
        if flags.len() == 1 {
            assert(all[0] == flags@[0]@);
        }
        if all == seq!["--version"@] || all == seq!["--help"@] || all == seq!["-h"@] {
            assert(all.len() == 1 && flags@.len() == 1);
            assert(all[0] == flags@[0]@);
        }
    }
    match parse_args(flags.as_slice()) {
        Ok(inputs) => Step::Judge(inputs),
        Err(problem) => {
            let mut text = problem;
            text.append("\n");
            text.append(USAGE);
            Step::Done(Outcome::unusable(text.as_str()))
        },
    }
}

pub open spec fn conclude_of(judged: Result<crate::model::ReportView, Seq<char>>) -> OutcomeView {
    match judged {
        Ok(report) => if report.findings.len() == 0 {
            clean_of(report_text(report))
        } else {
            broken_of(report)
        },
        Err(problem) => unusable_of(problem),
    }
}

pub open spec fn judged_view(judged: Result<Report, String>) -> Result<
    crate::model::ReportView,
    Seq<char>,
> {
    match judged {
        Ok(report) => Ok(report@),
        Err(problem) => Err(problem@),
    }
}

/// What a run prints and how it exits, once the inputs were read and judged: the report and 0
/// when the contract holds, the report, the findings and 1 when it does not, the problem and 2
/// when the inputs could not be read.
pub fn conclude(judged: Result<Report, String>) -> (r: Outcome)
    ensures
        r@ == conclude_of(judged_view(judged)),
{
    match judged {
        Ok(report) => {
            if report.is_clean() {
                Outcome::clean(report.to_string())
            } else {
                Outcome::broken(&report)
            }
        },
        Err(problem) => Outcome::unusable(problem.as_str()),
    }
}

/// What judging the read inputs gives: the report, or what the error says.
pub open spec fn judged_of(callers: Seq<Source>, workflows: Seq<Source>, rules: Source) -> Result<
    crate::model::ReportView,
    Seq<char>,
> {
    match check_of(callers, workflows, rules) {
        Ok(report) => Ok(report),
        Err(e) => Err(error_text(e)),
    }
}

/// Judges the inputs once read: the report, or what is wrong with them, as the command says it.
pub fn judge_sources(callers: &[Source], workflows: &[Source], rules: &Source) -> (r: Result<
    Report,
    String,
>)
    ensures
        judged_view(r) == judged_of(callers@, workflows@, *rules),
{
    match check(callers, workflows, rules) {
        Ok(report) => Ok(report),
        Err(problem) => Err(problem.to_string()),
    }
}

/// The sources a run read, or what kept it from reading them.
pub open spec fn read_view(read: Result<(Vec<Source>, Vec<Source>, Source), String>) -> Result<
    (Seq<Source>, Seq<Source>, Source),
    Seq<char>,
> {
    match read {
        Ok(sources) => Ok((sources.0@, sources.1@, sources.2)),
        Err(problem) => Err(problem@),
    }
}

/// How a run that went on to read its inputs ends: what could not be read, as a problem, or the
/// judgement of the sources it read, concluded.
pub open spec fn finish_of(read: Result<(Seq<Source>, Seq<Source>, Source), Seq<char>>) -> OutcomeView {
    conclude_of(
        match read {
            Err(problem) => Err(problem),
            Ok(sources) => judged_of(sources.0, sources.1, sources.2),
        },
    )
}

/// How a run ends once the program has read the inputs `run` named: the callers, the workflows
/// and the rules, or what kept it from reading them.
pub fn finish(read: Result<(Vec<Source>, Vec<Source>, Source), String>) -> (r: Outcome)
    ensures
        r@ == finish_of(read_view(read)),
{
    match read {
        Err(problem) => conclude(Err(problem)),
        Ok((callers, workflows, rules)) => conclude(
            judge_sources(callers.as_slice(), workflows.as_slice(), &rules),
        ),
    }
}

/// What a whole run prints and how it exits, the inputs being read as `read` says: the three
/// sources, or what could not be read.
pub open spec fn command_of(
    args: Seq<Seq<char>>,
    version: Seq<char>,
    read: Result<(Seq<Source>, Seq<Source>, Source), Seq<char>>,
) -> OutcomeView {
    match run_of(args, version) {
        StepView::Done(outcome) => outcome,
        StepView::Judge(_) => finish_of(read),
    }
}

} // verus!
