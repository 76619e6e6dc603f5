//! What is judged: which required contexts the callers produce, and on which events.

use vstd::prelude::*;

use crate::model::{
    findings_view, runs_view, CheckRun, Error, ErrorView, Finding, FindingView, Report,
    ReportView, RunView, Source,
};
use crate::text::{
    chars_of, find, find_chars, has_name, insert_name, lemma_find_from_bounds,
    occurs_at, set_of, str_equal, strs,
};
use crate::workflow::{check_runs, check_runs_of, required_contexts, required_of, separator};

verus! {

/// Where the first check run named `context` stands, looking from `k` on.
pub open spec fn producer_from(produced: Seq<RunView>, context: Seq<char>, k: int) -> Option<int>
    decreases produced.len() - k,
{
    if k < 0 || k >= produced.len() {
        None
    } else if produced[k].context == Some(context) {
        Some(k)
    } else {
        producer_from(produced, context, k + 1)
    }
}

/// Where the first check run named `context` stands.
pub open spec fn producer_of(produced: Seq<RunView>, context: Seq<char>) -> Option<int> {
    producer_from(produced, context, 0)
}

pub proof fn lemma_producer_from(produced: Seq<RunView>, context: Seq<char>, k: int)
    requires
        0 <= k,
    ensures
        producer_from(produced, context, k) matches Some(i) ==> k <= i < produced.len()
            && produced[i].context == Some(context) && forall|j: int|
            k <= j < i ==> produced[j].context != Some(context),
        producer_from(produced, context, k) is None ==> forall|j: int|
            k <= j < produced.len() ==> produced[j].context != Some(context),
    decreases produced.len() - k,
{
    if k < produced.len() && produced[k].context != Some(context) {
        lemma_producer_from(produced, context, k + 1);
    }
}

/// Where the first check run named `context` stands among the runs.
fn producer_position(produced: &Vec<CheckRun>, context: &str) -> (r: Option<usize>)
    ensures
        match r {
            Some(i) => producer_of(runs_view(produced@), context@) == Some(i as int) && i
                < produced@.len(),
            None => producer_of(runs_view(produced@), context@) is None,
        },
{
    let ghost runs = runs_view(produced@);
    let mut i: usize = 0;
    while i < produced.len()
        invariant
            runs == runs_view(produced@),
            runs.len() == produced@.len(),
            i <= produced@.len(),
            producer_of(runs, context@) == producer_from(runs, context@, i as int),
        decreases produced.len() - i,
    {
        assert(runs[i as int] == produced@[i as int]@);
        let found = match &produced[i].context {
            Some(c) => str_equal(c.as_str(), context),
            None => false,
        };
        if found {
            return Some(i);
        }
        i = i + 1;
    }
    None
}

/// The event a pull request's checks run on.
pub open spec fn pull_request() -> Seq<char> {
    "pull_request"@
}

/// The event the merge queue runs checks on.
pub open spec fn merge_group() -> Seq<char> {
    "merge_group"@
}

/// Halves a context at its first separator: `(caller job, job name)`, or `("", context)` for the
/// name of a caller's own job.
pub open spec fn split_context(context: Seq<char>) -> (Seq<char>, Seq<char>) {
    match find(context, separator()) {
        Some(i) => (context.subrange(0, i), context.subrange(i + separator().len(), context.len() as int)),
        None => (seq![], context),
    }
}

/// A run of the job `job_name`: of the caller job `caller_job`, or, for a context without a
/// caller job, of a caller's own job.
pub open spec fn resembles(run: RunView, caller_job: Seq<char>, job_name: Seq<char>) -> bool {
    run.origin.job == job_name && if caller_job.len() == 0 {
        run.origin.workflow == run.origin.caller
    } else {
        run.origin.caller_job == caller_job
    }
}

pub open spec fn resembling_from(
    produced: Seq<RunView>,
    caller_job: Seq<char>,
    job_name: Seq<char>,
    k: int,
) -> Option<int>
    decreases produced.len() - k,
{
    if k < 0 || k >= produced.len() {
        None
    } else if resembles(produced[k], caller_job, job_name) {
        Some(k)
    } else {
        resembling_from(produced, caller_job, job_name, k + 1)
    }
}

pub open spec fn named_from(produced: Seq<RunView>, name: Seq<char>, k: int) -> Option<int>
    decreases produced.len() - k,
{
    if k < 0 || k >= produced.len() {
        None
    } else if produced[k].name == name {
        Some(k)
    } else {
        named_from(produced, name, k + 1)
    }
}

/// The contexts of the runs that have one, in order, repeats included.
pub open spec fn context_names(produced: Seq<RunView>) -> Seq<Seq<char>>
    decreases produced.len(),
{
    if produced.len() == 0 {
        seq![]
    } else {
        context_names(produced.drop_last()) + match produced.last().context {
            Some(c) => seq![c],
            None => seq![],
        }
    }
}

/// The parts, with `sep` between each two.
pub open spec fn joined(parts: Seq<Seq<char>>, sep: Seq<char>) -> Seq<char>
    decreases parts.len(),
{
    if parts.len() == 0 {
        seq![]
    } else if parts.len() == 1 {
        parts[0]
    } else {
        joined(parts.drop_last(), sep) + sep + parts.last()
    }
}

/// What to say about a context nobody produces: the job with that id was renamed or is
/// run-dependent, the caller job was renamed, or nothing resembles it.
pub open spec fn hint_of(context: Seq<char>, produced: Seq<RunView>) -> Seq<char> {
    let caller_job = split_context(context).0;
    let job_name = split_context(context).1;
    match resembling_from(produced, caller_job, job_name, 0) {
        Some(i) => {
            let run = produced[i];
            match run.context {
                Some(_) => "job "@ + job_name + " of "@ + run.origin.workflow + " is named \""@
                    + run.name + "\""@,
                None => "job "@ + job_name + " of "@ + run.origin.workflow
                    + " has the run-dependent name \""@ + run.name
                    + "\", which no ruleset can require"@,
            }
        },
        None => match named_from(produced, job_name, 0) {
            Some(i) => {
                let run = produced[i];
                run.origin.caller + ": "@ + run.origin.caller_job + " produces \""@ + match run.context {
                    Some(c) => c,
                    None => run.name,
                } + "\" — the caller job is "@ + run.origin.caller_job + ", not "@ + caller_job
            },
            None => "the callers produce: "@ + joined(set_of(context_names(produced)), ", "@),
        },
    }
}

/// The findings one required context raises.
pub open spec fn judge_of(context: Seq<char>, produced: Seq<RunView>) -> Seq<FindingView> {
    match producer_of(produced, context) {
        None => seq![FindingView::Missing { context, hint: hint_of(context, produced) }],
        Some(i) => {
            let run = produced[i];
            (if !run.origin.events.contains(pull_request()) {
                seq![FindingView::NotOnPullRequest { context, caller: run.origin.caller }]
            } else {
                seq![]
            }) + (if !run.origin.events.contains(merge_group()) {
                seq![FindingView::NotInMergeQueue { context, caller: run.origin.caller }]
            } else {
                seq![]
            })
        },
    }
}

/// The findings of every required context, context after context.
pub open spec fn findings_of(required: Seq<Seq<char>>, produced: Seq<RunView>) -> Seq<
    FindingView,
>
    decreases required.len(),
{
    if required.len() == 0 {
        seq![]
    } else {
        findings_of(required.drop_last(), produced) + judge_of(required.last(), produced)
    }
}

/// The report on what the rules require and what the callers produce.
pub open spec fn report_of(required: Seq<Seq<char>>, produced: Seq<RunView>) -> ReportView {
    ReportView { required, produced, findings: findings_of(required, produced) }
}

/// The report on the three inputs, or why they cannot be judged.
pub open spec fn check_of(callers: Seq<Source>, workflows: Seq<Source>, rules: Source) -> Result<
    ReportView,
    ErrorView,
> {
    match required_of(rules.name@, rules.text@) {
        Err(e) => Err(e),
        Ok(required) => match check_runs_of(callers, workflows) {
            Err(e) => Err(e),
            Ok(produced) => Ok(report_of(required, produced)),
        },
    }
}

pub open spec fn report_result(r: Result<Report, Error>) -> Result<ReportView, ErrorView> {
    match r {
        Ok(report) => Ok(report@),
        Err(e) => Err(e@),
    }
}

/// The parts joined with `sep` between each two.
pub fn join_names(parts: &Vec<String>, sep: &str) -> (r: String)
    ensures
        r@ == joined(strs(parts@), sep@),
{
    let ghost all = strs(parts@);
    let mut r = String::new();
    let mut i: usize = 0;
    assert(all.take(0) =~= Seq::<Seq<char>>::empty());
    while i < parts.len()
        invariant
            all == strs(parts@),
            all.len() == parts@.len(),
            i <= parts@.len(),
            r@ == joined(all.take(i as int), sep@),
        decreases parts.len() - i,
    {
        proof {
            assert(all.take(i + 1).drop_last() =~= all.take(i as int));
            assert(all.take(i + 1).last() == parts@[i as int]@);
        }
        if i > 0 {
            r.append(sep);
        } else {
            assert(r@ =~= Seq::<char>::empty());
            assert(all.take(1) =~= seq![parts@[0]@]);
        }
        r.append(parts[i].as_str());
        i = i + 1;
    }
    assert(all.take(i as int) =~= all);
    r
}

/// The set of the contexts the runs have.
fn context_set(produced: &Vec<CheckRun>) -> (r: Vec<String>)
    ensures
        strs(r@) == set_of(context_names(runs_view(produced@))),
{
    let ghost runs = runs_view(produced@);
    let mut r: Vec<String> = Vec::new();
    let mut i: usize = 0;
    assert(runs.take(0) =~= Seq::<RunView>::empty());
    assert(strs(r@) =~= Seq::<Seq<char>>::empty());
    while i < produced.len()
        invariant
            runs == runs_view(produced@),
            runs.len() == produced@.len(),
            i <= produced@.len(),
            strs(r@) == set_of(context_names(runs.take(i as int))),
        decreases produced.len() - i,
    {
        proof {
            assert(runs.take(i + 1).drop_last() =~= runs.take(i as int));
            assert(runs.take(i + 1).last() == produced@[i as int]@);
        }
        match &produced[i].context {
            Some(c) => {
                proof {
                    let before = context_names(runs.take(i as int));
                    assert(context_names(runs.take(i + 1)) =~= before.push(c@));
                    assert(before.push(c@).drop_last() =~= before);
                }
                insert_name(&mut r, c.clone());
            },
            None => {
                assert(context_names(runs.take(i + 1)) =~= context_names(runs.take(i as int)));
            },
        }
        i = i + 1;
    }
    assert(runs.take(i as int) =~= runs);
    r
}

/// Where the first run of the job `job_name` of `caller_job` stands.
fn resembling_position(produced: &Vec<CheckRun>, caller_job: &str, job_name: &str) -> (r: Option<
    usize,
>)
    ensures
        match r {
            Some(i) => resembling_from(runs_view(produced@), caller_job@, job_name@, 0) == Some(
                i as int,
            ) && i < produced@.len(),
            None => resembling_from(runs_view(produced@), caller_job@, job_name@, 0) is None,
        },
{
    let ghost runs = runs_view(produced@);
    let own = caller_job.unicode_len() == 0;
    let mut i: usize = 0;
    while i < produced.len()
        invariant
            runs == runs_view(produced@),
            runs.len() == produced@.len(),
            i <= produced@.len(),
            own == (caller_job@.len() == 0),
            resembling_from(runs, caller_job@, job_name@, 0) == resembling_from(
                runs,
                caller_job@,
                job_name@,
                i as int,
            ),
        decreases produced.len() - i,
    {
        let run = &produced[i];
        assert(runs[i as int] == run@);
        let found = str_equal(run.origin.job.as_str(), job_name) && if own {
            str_equal(run.origin.workflow.as_str(), run.origin.caller.as_str())
        } else {
            str_equal(run.origin.caller_job.as_str(), caller_job)
        };
        if found {
            return Some(i);
        }
        i = i + 1;
    }
    None
}

/// Where the first run named `name` stands.
fn named_position(produced: &Vec<CheckRun>, name: &str) -> (r: Option<usize>)
    ensures
        match r {
            Some(i) => named_from(runs_view(produced@), name@, 0) == Some(i as int) && i
                < produced@.len(),
            None => named_from(runs_view(produced@), name@, 0) is None,
        },
{
    let ghost runs = runs_view(produced@);
    let mut i: usize = 0;
    while i < produced.len()
        invariant
            runs == runs_view(produced@),
            runs.len() == produced@.len(),
            i <= produced@.len(),
            named_from(runs, name@, 0) == named_from(runs, name@, i as int),
        decreases produced.len() - i,
    {
        assert(runs[i as int] == produced@[i as int]@);
        if str_equal(produced[i].name.as_str(), name) {
            return Some(i);
        }
        i = i + 1;
    }
    None
}

/// What to say about a context nobody produces: the job with that id was renamed or is
/// run-dependent, the caller job was renamed, or nothing resembles it.
pub fn hint(context: &str, produced: &Vec<CheckRun>) -> (r: String)
    ensures
        r@ == hint_of(context@, runs_view(produced@)),
{
    let ghost runs = runs_view(produced@);
    let x = chars_of(context);
    let n = x.len();
    let sep = chars_of(" / ");
    let (caller_job, job_name) = match find_chars(&x, &sep) {
        Some(i) => {
            proof {
                lemma_find_from_bounds(x@, sep@, 0);
                assert(occurs_at(x@, sep@, i as int));
            }
            (context.substring_char(0, i), context.substring_char(i + sep.len(), n))
        },
        None => ("", context),
    };
    proof {
        reveal_strlit("");
        assert(caller_job@ == split_context(context@).0);
        assert(job_name@ == split_context(context@).1);
    }
    match resembling_position(produced, caller_job, job_name) {
        Some(i) => {
            let run = &produced[i];
            assert(runs[i as int] == run@);
            let mut r = String::from_str("job ");
            r.append(job_name);
            r.append(" of ");
            r.append(run.origin.workflow.as_str());
            match &run.context {
                Some(_) => {
                    r.append(" is named \"");
                    r.append(run.name.as_str());
                    r.append("\"");
                },
                None => {
                    r.append(" has the run-dependent name \"");
                    r.append(run.name.as_str());
                    r.append("\", which no ruleset can require");
                },
            }
            r
        },
        None => match named_position(produced, job_name) {
            Some(i) => {
                let run = &produced[i];
                assert(runs[i as int] == run@);
                let mut r = run.origin.caller.clone();
                r.append(": ");
                r.append(run.origin.caller_job.as_str());
                r.append(" produces \"");
                match &run.context {
                    Some(c) => r.append(c.as_str()),
                    None => r.append(run.name.as_str()),
                }
                r.append("\" — the caller job is ");
                r.append(run.origin.caller_job.as_str());
                r.append(", not ");
                r.append(caller_job);
                r
            },
            None => {
                let names = context_set(produced);
                let mut r = String::from_str("the callers produce: ");
                let all = join_names(&names, ", ");
                r.append(all.as_str());
                r
            },
        },
    }
}

/// The findings one required context raises.
pub fn judge(context: &str, produced: &Vec<CheckRun>) -> (r: Vec<Finding>)
    ensures
        findings_view(r@) == judge_of(context@, runs_view(produced@)),
{
    let ghost runs = runs_view(produced@);
    match producer_position(produced, context) {
        None => {
            let h = hint(context, produced);
            let mut r: Vec<Finding> = Vec::new();
            r.push(Finding::Missing { context: context.to_owned(), hint: h });
            assert(findings_view(r@) =~= judge_of(context@, runs));
            r
        },
        Some(i) => {
            let run = &produced[i];
            assert(runs[i as int] == run@);
            let mut r: Vec<Finding> = Vec::new();
            if !has_name(&run.origin.events, "pull_request") {
                r.push(
                    Finding::NotOnPullRequest {
                        context: context.to_owned(),
                        caller: run.origin.caller.clone(),
                    },
                );
            }
            if !has_name(&run.origin.events, "merge_group") {
                r.push(
                    Finding::NotInMergeQueue {
                        context: context.to_owned(),
                        caller: run.origin.caller.clone(),
                    },
                );
            }
            assert(findings_view(r@) =~= judge_of(context@, runs));
            r
        },
    }
}

/// The report on what the rules require and what the callers produce: the findings of each
/// required context, in the order of the contexts.
pub fn report(required: Vec<String>, produced: Vec<CheckRun>) -> (r: Report)
    ensures
        r@ == report_of(strs(required@), runs_view(produced@)),
{
    let ghost req = strs(required@);
    let ghost runs = runs_view(produced@);
    let mut findings: Vec<Finding> = Vec::new();
    let mut i: usize = 0;
    assert(req.take(0) =~= Seq::<Seq<char>>::empty());
    assert(findings_view(findings@) =~= Seq::<FindingView>::empty());
    while i < required.len()
        invariant
            req == strs(required@),
            req.len() == required@.len(),
            runs == runs_view(produced@),
            i <= required@.len(),
            findings_view(findings@) == findings_of(req.take(i as int), runs),
        decreases required.len() - i,
    {
        proof {
            assert(req.take(i + 1).drop_last() =~= req.take(i as int));
            assert(req.take(i + 1).last() == required@[i as int]@);
        }
        let mut more = judge(required[i].as_str(), &produced);
        let ghost before = findings@;
        let ghost added = more@;
        findings.append(&mut more);
        assert(findings_view(findings@) =~= findings_view(before) + findings_view(added));
        i = i + 1;
    }
    assert(req.take(i as int) =~= req);
    Report { required, produced, findings }
}

/// Judges the contract: every required context of `rules` must be a check run the `callers`
/// produce through the reusable `workflows`, from a workflow that triggers on `pull_request` and
/// on `merge_group`.
pub fn check(callers: &[Source], workflows: &[Source], rules: &Source) -> (r: Result<
    Report,
    Error,
>)
    ensures
        report_result(r) == check_of(callers@, workflows@, *rules),
        r matches Ok(report) ==> report@.well_formed(),
{
    proof {
        crate::laws::checked_reports_are_well_formed(callers@, workflows@, *rules);
    }
    let required = required_contexts(rules)?;
    let produced = check_runs(callers, workflows)?;
    Ok(report(required, produced))
}

impl Report {
    /// The contract holds.
    pub fn is_clean(&self) -> (r: bool)
        ensures
            r == (self.findings@.len() == 0),
    {
        self.findings.len() == 0
    }

    /// The check run that produces a context, when one does: the first run named by it.
    pub fn producer(&self, context: &str) -> (r: Option<&CheckRun>)
        ensures
            match producer_of(runs_view(self.produced@), context@) {
                Some(i) => r == Some(&self.produced@[i]),
                None => r is None,
            },
    {
        match producer_position(&self.produced, context) {
            Some(i) => Some(&self.produced[i]),
            None => None,
        }
    }
}

} // verus!
