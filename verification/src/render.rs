//! What the report, a finding and an error say, as text.

use vstd::prelude::*;

use crate::judge::{joined, join_names, producer_of};
use crate::model::{
    runs_view, CheckRun, Error, ErrorView, Finding, FindingView, Report, ReportView, RunView,
};
use crate::text::{has_name, name_set, set_of, strs};

verus! {

/// What a finding says.
pub open spec fn finding_text(f: FindingView) -> Seq<char> {
    match f {
        FindingView::Missing { context, hint } => "missing: "@ + context
            + " — no caller produces it ("@ + hint + ")"@,
        FindingView::NotOnPullRequest { context, caller } => "not on pull requests: "@ + context
            + " — "@ + caller + " does not trigger on pull_request"@,
        FindingView::NotInMergeQueue { context, caller } => "not in the merge queue: "@ + context
            + " — "@ + caller
            + " does not trigger on merge_group, so a queue entry waits for it forever"@,
    }
}

/// What an error says.
pub open spec fn error_text(e: ErrorView) -> Seq<char> {
    match e {
        ErrorView::Parse { file, detail } => file + ": not YAML: "@ + detail,
        ErrorView::UnknownWorkflow { caller, job, workflow } => caller + ": job "@ + job
            + " uses "@ + workflow + ", which is not among the reusable workflows given"@,
        ErrorView::NotReusable { workflow } => workflow
            + ": not a reusable workflow (no `on: workflow_call`)"@,
        ErrorView::NoRequiredChecks =>
            "the rules carry no required_status_checks rule: nothing protects main, so there is no contract to check"@,
    }
}

/// One decimal digit.
pub open spec fn digit_text(d: nat) -> Seq<char> {
    if d == 0 {
        "0"@
    } else if d == 1 {
        "1"@
    } else if d == 2 {
        "2"@
    } else if d == 3 {
        "3"@
    } else if d == 4 {
        "4"@
    } else if d == 5 {
        "5"@
    } else if d == 6 {
        "6"@
    } else if d == 7 {
        "7"@
    } else if d == 8 {
        "8"@
    } else {
        "9"@
    }
}

/// A number in decimal.
pub open spec fn decimal_text(n: nat) -> Seq<char>
    decreases n,
{
    if n < 10 {
        digit_text(n)
    } else {
        decimal_text(n / 10) + digit_text(n % 10)
    }
}

/// `k` spaces.
pub open spec fn spaces(k: nat) -> Seq<char>
    decreases k,
{
    if k == 0 {
        seq![]
    } else {
        spaces((k - 1) as nat) + " "@
    }
}

/// A context padded with spaces to 20 characters, as `{:<20}` writes it.
pub open spec fn padded(s: Seq<char>) -> Seq<char> {
    if s.len() < 20 {
        s + spaces((20 - s.len()) as nat)
    } else {
        s
    }
}

/// What follows a required context in its line: where it comes from.
pub open spec fn producer_text(context: Seq<char>, produced: Seq<RunView>) -> Seq<char> {
    match producer_of(produced, context) {
        Some(i) => {
            let o = produced[i].origin;
            if o.workflow == o.caller {
                " "@ + o.caller + ": job "@ + o.job + "\n"@
            } else {
                " "@ + o.caller + ": "@ + o.caller_job + " -> "@ + o.workflow + ": "@ + o.job
                    + "\n"@
            }
        },
        None => " (no caller produces it)\n"@,
    }
}

/// The line of each required context.
pub open spec fn required_lines(required: Seq<Seq<char>>, produced: Seq<RunView>) -> Seq<char>
    decreases required.len(),
{
    if required.len() == 0 {
        seq![]
    } else {
        required_lines(required.drop_last(), produced) + "  "@ + padded(required.last())
            + producer_text(required.last(), produced)
    }
}

/// The contexts produced and not required, in the order of the runs.
pub open spec fn unrequired(produced: Seq<RunView>, required: Seq<Seq<char>>) -> Seq<Seq<char>>
    decreases produced.len(),
{
    if produced.len() == 0 {
        seq![]
    } else {
        unrequired(produced.drop_last(), required) + match produced.last().context {
            Some(c) => if required.contains(c) {
                seq![]
            } else {
                seq![c]
            },
            None => seq![],
        }
    }
}

/// The runs whose names depend on the run, each as `<workflow>: <job> "<name>"`.
pub open spec fn dynamic(produced: Seq<RunView>) -> Seq<Seq<char>>
    decreases produced.len(),
{
    if produced.len() == 0 {
        seq![]
    } else {
        dynamic(produced.drop_last()) + match produced.last().context {
            Some(_) => seq![],
            None => seq![
                produced.last().origin.workflow + ": "@ + produced.last().origin.job + " \""@
                    + produced.last().name + "\""@,
            ],
        }
    }
}

/// A line that lists the parts after a title, or nothing when there are none.
pub open spec fn listed_line(title: Seq<char>, parts: Seq<Seq<char>>) -> Seq<char> {
    if parts.len() == 0 {
        seq![]
    } else {
        title + joined(parts, ", "@) + "\n"@
    }
}

/// What the report says: how many contexts are required, each with its producer, then the
/// contexts produced and not required, then the run-dependent names.
pub open spec fn report_text(r: ReportView) -> Seq<char> {
    "required status checks: "@ + decimal_text(set_of(r.required).len()) + "\n"@ + required_lines(
        set_of(r.required),
        r.produced,
    ) + listed_line("also produced, not required: "@, unrequired(r.produced, r.required))
        + listed_line("run-dependent names, never required: "@, dynamic(r.produced))
}

fn digit(d: usize) -> (r: &'static str)
    requires
        d < 10,
    ensures
        r@ == digit_text(d as nat),
{
    if d == 0 {
        "0"
    } else if d == 1 {
        "1"
    } else if d == 2 {
        "2"
    } else if d == 3 {
        "3"
    } else if d == 4 {
        "4"
    } else if d == 5 {
        "5"
    } else if d == 6 {
        "6"
    } else if d == 7 {
        "7"
    } else if d == 8 {
        "8"
    } else {
        "9"
    }
}

/// A number in decimal.
pub fn decimal(n: usize) -> (r: String)
    ensures
        r@ == decimal_text(n as nat),
    decreases n,
{
    if n < 10 {
        String::from_str(digit(n))
    } else {
        let mut r = decimal(n / 10);
        r.append(digit(n % 10));
        r
    }
}

/// Appends `s`, padded with spaces to 20 characters.
fn push_padded(r: &mut String, s: &str)
    ensures
        final(r)@ == old(r)@ + padded(s@),
{
    r.append(s);
    let n = s.unicode_len();
    if n < 20 {
        let mut k: usize = 0;
        while k < 20 - n
            invariant
                n == s@.len(),
                n < 20,
                k <= 20 - n,
                r@ == old(r)@ + s@ + spaces(k as nat),
            decreases 20 - n - k,
        {
            r.append(" ");
            k = k + 1;
            assert(r@ =~= old(r)@ + s@ + spaces(k as nat));
        }
        assert(r@ =~= old(r)@ + padded(s@));
    } else {
        assert(r@ =~= old(r)@ + padded(s@));
    }
}

fn producer_line(context: &str, report: &Report) -> (r: String)
    ensures
        r@ == producer_text(context@, runs_view(report.produced@)),
{
    match report.producer(context) {
        Some(run) => {
            proof {
                crate::judge::lemma_producer_from(runs_view(report.produced@), context@, 0);
                let i = producer_of(runs_view(report.produced@), context@)->Some_0;
                assert(runs_view(report.produced@).len() == report.produced@.len());
                assert(runs_view(report.produced@)[i] == run@);
            }
            let o = &run.origin;
            let mut r = String::from_str(" ");
            r.append(o.caller.as_str());
            if crate::text::str_equal(o.workflow.as_str(), o.caller.as_str()) {
                r.append(": job ");
                r.append(o.job.as_str());
                r.append("\n");
            } else {
                r.append(": ");
                r.append(o.caller_job.as_str());
                r.append(" -> ");
                r.append(o.workflow.as_str());
                r.append(": ");
                r.append(o.job.as_str());
                r.append("\n");
            }
            r
        },
        None => String::from_str(" (no caller produces it)\n"),
    }
}

impl Finding {
    /// What the finding says.
    pub fn to_string(&self) -> (r: String)
        ensures
            r@ == finding_text(self@),
    {
        match self {
            Finding::Missing { context, hint } => {
                let mut r = String::from_str("missing: ");
                r.append(context.as_str());
                r.append(" — no caller produces it (");
                r.append(hint.as_str());
                r.append(")");
                r
            },
            Finding::NotOnPullRequest { context, caller } => {
                let mut r = String::from_str("not on pull requests: ");
                r.append(context.as_str());
                r.append(" — ");
                r.append(caller.as_str());
                r.append(" does not trigger on pull_request");
                r
            },
            Finding::NotInMergeQueue { context, caller } => {
                let mut r = String::from_str("not in the merge queue: ");
                r.append(context.as_str());
                r.append(" — ");
                r.append(caller.as_str());
                r.append(" does not trigger on merge_group, so a queue entry waits for it forever");
                r
            },
        }
    }
}

impl Error {
    /// What the error says.
    pub fn to_string(&self) -> (r: String)
        ensures
            r@ == error_text(self@),
    {
        match self {
            Error::Parse { file, detail } => {
                let mut r = file.clone();
                r.append(": not YAML: ");
                r.append(detail.as_str());
                r
            },
            Error::UnknownWorkflow { caller, job, workflow } => {
                let mut r = caller.clone();
                r.append(": job ");
                r.append(job.as_str());
                r.append(" uses ");
                r.append(workflow.as_str());
                r.append(", which is not among the reusable workflows given");
                r
            },
            Error::NotReusable { workflow } => {
                let mut r = workflow.clone();
                r.append(": not a reusable workflow (no `on: workflow_call`)");
                r
            },
            Error::NoRequiredChecks => String::from_str(
                "the rules carry no required_status_checks rule: nothing protects main, so there is no contract to check",
            ),
        }
    }
}

fn unrequired_names(report: &Report) -> (r: Vec<String>)
    ensures
        strs(r@) == unrequired(runs_view(report.produced@), strs(report.required@)),
{
    let ghost runs = runs_view(report.produced@);
    let ghost req = strs(report.required@);
    let mut r: Vec<String> = Vec::new();
    let mut i: usize = 0;
    assert(runs.take(0) =~= Seq::<RunView>::empty());
    assert(strs(r@) =~= Seq::<Seq<char>>::empty());
    while i < report.produced.len()
        invariant
            runs == runs_view(report.produced@),
            runs.len() == report.produced@.len(),
            req == strs(report.required@),
            i <= report.produced@.len(),
            strs(r@) == unrequired(runs.take(i as int), req),
        decreases report.produced.len() - i,
    {
        proof {
            assert(runs.take(i + 1).drop_last() =~= runs.take(i as int));
            assert(runs.take(i + 1).last() == report.produced@[i as int]@);
        }
        let ghost before = r@;
        match &report.produced[i].context {
            Some(c) => {
                if !has_name(&report.required, c.as_str()) {
                    r.push(c.clone());
                    assert(strs(r@) =~= strs(before).push(c@));
                } else {
                    assert(unrequired(runs.take(i + 1), req) =~= unrequired(runs.take(i as int), req));
                }
            },
            None => {
                assert(unrequired(runs.take(i + 1), req) =~= unrequired(runs.take(i as int), req));
            },
        }
        i = i + 1;
    }
    assert(runs.take(i as int) =~= runs);
    r
}

fn dynamic_names(report: &Report) -> (r: Vec<String>)
    ensures
        strs(r@) == dynamic(runs_view(report.produced@)),
{
    let ghost runs = runs_view(report.produced@);
    let mut r: Vec<String> = Vec::new();
    let mut i: usize = 0;
    assert(runs.take(0) =~= Seq::<RunView>::empty());
    assert(strs(r@) =~= Seq::<Seq<char>>::empty());
    while i < report.produced.len()
        invariant
            runs == runs_view(report.produced@),
            runs.len() == report.produced@.len(),
            i <= report.produced@.len(),
            strs(r@) == dynamic(runs.take(i as int)),
        decreases report.produced.len() - i,
    {
        let run: &CheckRun = &report.produced[i];
        proof {
            assert(runs.take(i + 1).drop_last() =~= runs.take(i as int));
            assert(runs.take(i + 1).last() == run@);
        }
        let ghost before = r@;
        match &run.context {
            Some(_) => {
                assert(dynamic(runs.take(i + 1)) =~= dynamic(runs.take(i as int)));
            },
            None => {
                let mut d = run.origin.workflow.clone();
                d.append(": ");
                d.append(run.origin.job.as_str());
                d.append(" \"");
                d.append(run.name.as_str());
                d.append("\"");
                r.push(d);
                assert(strs(r@) =~= strs(before).push(d@));
            },
        }
        i = i + 1;
    }
    assert(runs.take(i as int) =~= runs);
    r
}

fn push_listed(r: &mut String, title: &str, parts: &Vec<String>)
    ensures
        final(r)@ == old(r)@ + listed_line(title@, strs(parts@)),
{
    if parts.len() > 0 {
        r.append(title);
        let all = join_names(parts, ", ");
        r.append(all.as_str());
        r.append("\n");
    } else {
        assert(r@ =~= old(r)@ + listed_line(title@, strs(parts@)));
    }
}

impl Report {
    /// What the report says.
    pub fn to_string(&self) -> (r: String)
        ensures
            r@ == report_text(self@),
    {
        let required = name_set(&self.required);
        let ghost req = strs(required@);
        let ghost runs = runs_view(self.produced@);
        let mut r = String::from_str("required status checks: ");
        let n = decimal(required.len());
        r.append(n.as_str());
        r.append("\n");
        let ghost head = r@;
        let mut i: usize = 0;
        assert(req.take(0) =~= Seq::<Seq<char>>::empty());
        assert(r@ =~= head + required_lines(req.take(0), runs));
        while i < required.len()
            invariant
                req == strs(required@),
                req.len() == required@.len(),
                runs == runs_view(self.produced@),
                i <= required@.len(),
                r@ == head + required_lines(req.take(i as int), runs),
            decreases required.len() - i,
        {
            proof {
                assert(req.take(i + 1).drop_last() =~= req.take(i as int));
                assert(req.take(i + 1).last() == required@[i as int]@);
            }
            r.append("  ");
            push_padded(&mut r, required[i].as_str());
            let line = producer_line(required[i].as_str(), self);
            r.append(line.as_str());
            i = i + 1;
            assert(r@ =~= head + required_lines(req.take(i as int), runs));
        }
        assert(req.take(i as int) =~= req);
        let unrequired_parts = unrequired_names(self);
        push_listed(&mut r, "also produced, not required: ", &unrequired_parts);
        let dynamic_parts = dynamic_names(self);
        push_listed(&mut r, "run-dependent names, never required: ", &dynamic_parts);
        r
    }
}

} // verus!
