//! What holds of every report, every set of check runs and every command line.

use vstd::prelude::*;

use crate::command::{command_of, conclude_of, parse_args_of, InputsView, BROKEN, CLEAN, UNUSABLE, USAGE};
use crate::judge::{
    check_of, findings_of, judge_of, merge_group, producer_of, pull_request,
    report_of,
};
use crate::model::{ErrorView, FindingView, ReportView, RunView, Source};
use crate::text::{contains_text, lemma_set_of, set_of, sorted_set};
use crate::workflow::{
    callers_runs_of, check_runs_of, context_list, job_runs_of, jobs_runs_of, own_run_of,
    contexts_of, events_of, parse_of, required_of, reusable_run_of, reusable_runs_of, rules_of,
    separator,
};
use crate::yaml::{at, str_of, YamlValue};

verus! {

/// Some finding says that `c` is missing.
pub open spec fn says_missing(fs: Seq<FindingView>, c: Seq<char>) -> bool {
    exists|j: int| 0 <= j < fs.len() && fs[j] is Missing && (#[trigger] fs[j]).context() == c
}

/// Some finding says that the producer of `c` does not run on pull requests.
pub open spec fn says_not_on_pull_request(fs: Seq<FindingView>, c: Seq<char>) -> bool {
    exists|j: int|
        0 <= j < fs.len() && fs[j] is NotOnPullRequest && (#[trigger] fs[j]).context() == c
}

/// Some finding says that the producer of `c` does not run in the merge queue.
pub open spec fn says_not_in_merge_queue(fs: Seq<FindingView>, c: Seq<char>) -> bool {
    exists|j: int|
        0 <= j < fs.len() && fs[j] is NotInMergeQueue && (#[trigger] fs[j]).context() == c
}

/// The producer of `c` does not trigger on `event`.
pub open spec fn producer_lacks(produced: Seq<RunView>, c: Seq<char>, event: Seq<char>) -> bool {
    match producer_of(produced, c) {
        Some(i) => !produced[i].origin.events.contains(event),
        None => false,
    }
}

/// The producer of `c` runs on pull requests and in the merge queue.
pub open spec fn produced_and_queued(produced: Seq<RunView>, c: Seq<char>) -> bool {
    match producer_of(produced, c) {
        Some(i) => produced[i].origin.events.contains(pull_request())
            && produced[i].origin.events.contains(merge_group()),
        None => false,
    }
}

proof fn lemma_judge(c: Seq<char>, produced: Seq<RunView>)
    ensures
        forall|j: int|
            0 <= j < judge_of(c, produced).len() ==> (#[trigger] judge_of(c, produced)[j]).context()
                == c,
        says_missing(judge_of(c, produced), c) <==> producer_of(produced, c) is None,
        says_not_on_pull_request(judge_of(c, produced), c) <==> (producer_lacks(produced, c, pull_request())),
        says_not_in_merge_queue(judge_of(c, produced), c) <==> (producer_lacks(produced, c, merge_group())),
        judge_of(c, produced).len() == 0 <==> produced_and_queued(produced, c),
{
    let fs = judge_of(c, produced);
    match producer_of(produced, c) {
        None => {
            assert(fs[0] is Missing && fs[0].context() == c);
        },
        Some(i) => {
            let pr = produced[i].origin.events.contains(pull_request());
            let mg = produced[i].origin.events.contains(merge_group());
            if !pr {
                assert(fs[0] is NotOnPullRequest && fs[0].context() == c);
            }
            if !mg {
                let k = if pr {
                    0int
                } else {
                    1int
                };
                assert(fs[k] is NotInMergeQueue && fs[k].context() == c);
            }
        },
    }
}

proof fn lemma_findings_about(required: Seq<Seq<char>>, produced: Seq<RunView>, c: Seq<char>)
    ensures
        forall|j: int|
            0 <= j < findings_of(required, produced).len() ==> required.contains(
                (#[trigger] findings_of(required, produced)[j]).context(),
            ),
        says_missing(findings_of(required, produced), c) <==> (required.contains(c)
            && producer_of(produced, c) is None),
        says_not_on_pull_request(findings_of(required, produced), c) <==> (required.contains(c)
            && producer_lacks(produced, c, pull_request())),
        says_not_in_merge_queue(findings_of(required, produced), c) <==> (required.contains(c)
            && producer_lacks(produced, c, merge_group())),
    decreases required.len(),
{
    if required.len() == 0 {
        assert(findings_of(required, produced) =~= Seq::<FindingView>::empty());
    } else {
        let front = required.drop_last();
        let last = required.last();
        lemma_findings_about(front, produced, c);
        lemma_judge(last, produced);
        let a = findings_of(front, produced);
        let b = judge_of(last, produced);
        let fs = findings_of(required, produced);
        assert(fs == a + b);
        assert forall|j: int| 0 <= j < fs.len() implies required.contains(
            (#[trigger] fs[j]).context(),
        ) by {
            if j < a.len() {
                assert(fs[j] == a[j]);
                let k = choose|k: int| 0 <= k < front.len() && front[k] == a[j].context();
                assert(required[k] == front[k]);
            } else {
                assert(fs[j] == b[j - a.len()]);
                assert(required[required.len() - 1] == last);
            }
        }
        assert(required.contains(c) <==> (front.contains(c) || c == last)) by {
            if required.contains(c) {
                let k = choose|k: int| 0 <= k < required.len() && required[k] == c;
                if k < required.len() - 1 {
                    assert(front[k] == c);
                }
            }
            if front.contains(c) {
                let k = choose|k: int| 0 <= k < front.len() && front[k] == c;
                assert(required[k] == c);
            }
            if c == last {
                assert(required[required.len() - 1] == c);
            }
        }
        // a finding about `c` comes from the front, or from the last context when that is `c`
        assert(says_missing(fs, c) <==> (says_missing(a, c) || (c == last && says_missing(b, c))))
            by {
            if says_missing(fs, c) {
                let j = choose|j: int| 0 <= j < fs.len() && fs[j] is Missing && fs[j].context() == c;
                if j < a.len() {
                    assert(a[j] == fs[j]);
                } else {
                    assert(b[j - a.len()] == fs[j]);
                }
            }
            if says_missing(a, c) {
                let j = choose|j: int| 0 <= j < a.len() && a[j] is Missing && a[j].context() == c;
                assert(fs[j] == a[j]);
            }
            if c == last && says_missing(b, c) {
                let j = choose|j: int| 0 <= j < b.len() && b[j] is Missing && b[j].context() == c;
                assert(fs[a.len() + j] == b[j]);
            }
            if says_missing(b, c) {
                let j = choose|j: int| 0 <= j < b.len() && b[j] is Missing && b[j].context() == c;
                assert(b[j].context() == last);
            }
        }
        assert(says_not_on_pull_request(fs, c) <==> (says_not_on_pull_request(a, c) || (c == last
            && says_not_on_pull_request(b, c)))) by {
            if says_not_on_pull_request(fs, c) {
                let j = choose|j: int|
                    0 <= j < fs.len() && fs[j] is NotOnPullRequest && fs[j].context() == c;
                if j < a.len() {
                    assert(a[j] == fs[j]);
                } else {
                    assert(b[j - a.len()] == fs[j]);
                }
            }
            if says_not_on_pull_request(a, c) {
                let j = choose|j: int|
                    0 <= j < a.len() && a[j] is NotOnPullRequest && a[j].context() == c;
                assert(fs[j] == a[j]);
            }
            if c == last && says_not_on_pull_request(b, c) {
                let j = choose|j: int|
                    0 <= j < b.len() && b[j] is NotOnPullRequest && b[j].context() == c;
                assert(fs[a.len() + j] == b[j]);
            }
            if says_not_on_pull_request(b, c) {
                let j = choose|j: int|
                    0 <= j < b.len() && b[j] is NotOnPullRequest && b[j].context() == c;
                assert(b[j].context() == last);
            }
        }
        assert(says_not_in_merge_queue(fs, c) <==> (says_not_in_merge_queue(a, c) || (c == last
            && says_not_in_merge_queue(b, c)))) by {
            if says_not_in_merge_queue(fs, c) {
                let j = choose|j: int|
                    0 <= j < fs.len() && fs[j] is NotInMergeQueue && fs[j].context() == c;
                if j < a.len() {
                    assert(a[j] == fs[j]);
                } else {
                    assert(b[j - a.len()] == fs[j]);
                }
            }
            if says_not_in_merge_queue(a, c) {
                let j = choose|j: int|
                    0 <= j < a.len() && a[j] is NotInMergeQueue && a[j].context() == c;
                assert(fs[j] == a[j]);
            }
            if c == last && says_not_in_merge_queue(b, c) {
                let j = choose|j: int|
                    0 <= j < b.len() && b[j] is NotInMergeQueue && b[j].context() == c;
                assert(fs[a.len() + j] == b[j]);
            }
            if says_not_in_merge_queue(b, c) {
                let j = choose|j: int|
                    0 <= j < b.len() && b[j] is NotInMergeQueue && b[j].context() == c;
                assert(b[j].context() == last);
            }
        }
    }
}

/// Every required context that no caller produces is reported missing, and only those; every
/// required context whose producer does not trigger on `pull_request`, or on `merge_group`, is
/// reported so, and only those; a check run that is produced and not required is never judged:
/// each finding names a required context.
pub proof fn findings_judge_every_required_context(
    required: Seq<Seq<char>>,
    produced: Seq<RunView>,
)
    ensures
        ({
            let fs = report_of(required, produced).findings;
            &&& forall|j: int| 0 <= j < fs.len() ==> required.contains((#[trigger] fs[j]).context())
            &&& forall|c: Seq<char>|
                #![trigger says_missing(fs, c)]
                says_missing(fs, c) <==> (required.contains(c) && producer_of(produced, c) is None)
            &&& forall|c: Seq<char>|
                #![trigger says_not_on_pull_request(fs, c)]
                says_not_on_pull_request(fs, c) <==> (required.contains(c) && producer_lacks(produced, c, pull_request()))
            &&& forall|c: Seq<char>|
                #![trigger says_not_in_merge_queue(fs, c)]
                says_not_in_merge_queue(fs, c) <==> (required.contains(c) && producer_lacks(produced, c, merge_group()))
        }),
{
    let fs = report_of(required, produced).findings;
    lemma_findings_about(required, produced, seq![]);
    assert forall|c: Seq<char>| #![trigger says_missing(fs, c)]
        says_missing(fs, c) <==> (required.contains(c) && producer_of(produced, c) is None) by {
        lemma_findings_about(required, produced, c);
    }
    assert forall|c: Seq<char>| #![trigger says_not_on_pull_request(fs, c)]
        says_not_on_pull_request(fs, c) <==> (required.contains(c) && producer_lacks(produced, c, pull_request())) by {
        lemma_findings_about(required, produced, c);
    }
    assert forall|c: Seq<char>| #![trigger says_not_in_merge_queue(fs, c)]
        says_not_in_merge_queue(fs, c) <==> (required.contains(c) && producer_lacks(produced, c, merge_group())) by {
        lemma_findings_about(required, produced, c);
    }
}

proof fn lemma_clean(required: Seq<Seq<char>>, produced: Seq<RunView>)
    ensures
        findings_of(required, produced).len() == 0 <==> forall|k: int|
            0 <= k < required.len() ==> produced_and_queued(produced, #[trigger] required[k]),
    decreases required.len(),
{
    if required.len() > 0 {
        lemma_clean(required.drop_last(), produced);
        lemma_judge(required.last(), produced);
        if findings_of(required, produced).len() == 0 {
            assert forall|k: int| 0 <= k < required.len() implies produced_and_queued(
                produced,
                #[trigger] required[k],
            ) by {
                if k < required.len() - 1 {
                    assert(required.drop_last()[k] == required[k]);
                }
            }
        }
        if forall|k: int|
            0 <= k < required.len() ==> produced_and_queued(produced, #[trigger] required[k]) {
            assert forall|k: int| 0 <= k < required.drop_last().len() implies produced_and_queued(
                produced,
                #[trigger] required.drop_last()[k],
            ) by {
                assert(required.drop_last()[k] == required[k]);
            }
            assert(produced_and_queued(produced, required[required.len() - 1]));
        }
    }
}

/// The contract holds, and the report is clean, exactly when every required context is the name
/// of a check run the callers produce whose caller triggers on `pull_request` and on
/// `merge_group`.
pub proof fn clean_iff_every_context_is_produced_and_queued(
    callers: Seq<Source>,
    workflows: Seq<Source>,
    rules: Source,
    report: ReportView,
)
    requires
        check_of(callers, workflows, rules) == Ok::<ReportView, ErrorView>(report),
    ensures
        report.findings.len() == 0 <==> forall|k: int|
            0 <= k < report.required.len() ==> produced_and_queued(
                report.produced,
                #[trigger] report.required[k],
            ),
{
    lemma_clean(report.required, report.produced);
}

/// The required contexts are a set: each once, in the order of `String`, and just the contexts
/// the `required_status_checks` rules name.
pub proof fn required_contexts_are_a_set(name: Seq<char>, text: Seq<char>, doc: YamlValue)
    requires
        parse_of(name, text) == Ok::<YamlValue, ErrorView>(doc),
    ensures
        required_of(name, text) matches Ok(required) ==> sorted_set(required)
            && required.no_duplicates() && forall|
            c: Seq<char>,
        | #[trigger] required.contains(c) <==> context_list(rules_of(doc)).contains(c),
        required_of(name, text) is Err <==> context_list(rules_of(doc)).len() == 0,
{
    lemma_set_of(context_list(rules_of(doc)));
    let list = context_list(rules_of(doc));
    let set = crate::text::set_of(list);
    if list.len() > 0 {
        assert(set.contains(list[0]));
    }
    assert forall|i: int, j: int| 0 <= i < set.len() && 0 <= j < set.len() && i != j implies set[i]
        != set[j] by {
        if set[i] == set[j] {
            crate::text::lemma_str_lt_irreflexive(set[i]);
        }
    }
}

/// A check run's name is its context: as written for a caller's own job, after the caller job
/// and the separator for a reusable one; a name that holds an expression is never a context;
/// its caller's events are a set.
pub open spec fn well_named(run: RunView) -> bool {
    &&& sorted_set(run.origin.events)
    &&& contains_text(run.name, "${{"@) ==> run.context is None
    &&& run.context matches Some(c) ==> (c == run.name || c == run.origin.caller_job
        + separator() + run.name)
}

pub open spec fn all_well_named(runs: Seq<RunView>) -> bool {
    forall|i: int| 0 <= i < runs.len() ==> well_named(#[trigger] runs[i])
}

proof fn lemma_concat_well_named(a: Seq<RunView>, b: Seq<RunView>)
    requires
        all_well_named(a),
        all_well_named(b),
    ensures
        all_well_named(a + b),
{
    assert forall|i: int| 0 <= i < (a + b).len() implies well_named(#[trigger] (a + b)[i]) by {
        if i < a.len() {
            assert((a + b)[i] == a[i]);
        } else {
            assert((a + b)[i] == b[i - a.len()]);
        }
    }
}

proof fn lemma_reusable_well_named(
    caller: Seq<char>,
    caller_job: Seq<char>,
    workflow: Seq<char>,
    jobs: Seq<(Seq<char>, YamlValue)>,
    events: Seq<Seq<char>>,
)
    requires
        sorted_set(events),
    ensures
        all_well_named(reusable_runs_of(caller, caller_job, workflow, jobs, events)),
    decreases jobs.len(),
{
    if jobs.len() > 0 {
        lemma_reusable_well_named(caller, caller_job, workflow, jobs.drop_last(), events);
        let run = reusable_run_of(caller, caller_job, workflow, jobs.last().0, jobs.last().1, events);
        assert(well_named(run));
        lemma_concat_well_named(
            reusable_runs_of(caller, caller_job, workflow, jobs.drop_last(), events),
            seq![run],
        );
    }
}

proof fn lemma_jobs_well_named(
    caller: Seq<char>,
    events: Seq<Seq<char>>,
    jobs: Seq<(Seq<char>, YamlValue)>,
    names: Seq<Seq<char>>,
    docs: Seq<YamlValue>,
)
    requires
        sorted_set(events),
    ensures
        jobs_runs_of(caller, events, jobs, names, docs) matches Ok(runs) ==> all_well_named(runs),
    decreases jobs.len(),
{
    if jobs.len() > 0 {
        lemma_jobs_well_named(caller, events, jobs.drop_last(), names, docs);
        let (id, job) = jobs.last();
        match job_runs_of(caller, events, id, job, names, docs) {
            Ok(more) => {
                match crate::workflow::uses_of(job) {
                    None => {
                        assert(well_named(own_run_of(caller, id, job, events)));
                        assert(all_well_named(more));
                    },
                    Some(used) => {
                        let k = crate::workflow::workflow_index(names, used, 0)->Some_0;
                        lemma_reusable_well_named(
                            caller,
                            id,
                            names[k],
                            crate::workflow::jobs_of(docs[k]),
                            events,
                        );
                    },
                }
                if let Ok(runs) = jobs_runs_of(caller, events, jobs.drop_last(), names, docs) {
                    lemma_concat_well_named(runs, more);
                }
            },
            Err(_) => {},
        }
    }
}

proof fn lemma_callers_well_named(
    callers: Seq<Source>,
    names: Seq<Seq<char>>,
    docs: Seq<YamlValue>,
)
    ensures
        callers_runs_of(callers, names, docs) matches Ok(runs) ==> all_well_named(runs),
    decreases callers.len(),
{
    if callers.len() > 0 {
        lemma_callers_well_named(callers.drop_last(), names, docs);
        let caller = callers.last();
        if let Ok(doc) = parse_of(caller.name@, caller.text@) {
            lemma_set_of(crate::workflow::event_list(doc));
            lemma_jobs_well_named(
                caller.name@,
                crate::workflow::events_of(doc),
                crate::workflow::jobs_of(doc),
                names,
                docs,
            );
            if let Ok(runs) = callers_runs_of(callers.drop_last(), names, docs) {
                if let Ok(more) = jobs_runs_of(
                    caller.name@,
                    crate::workflow::events_of(doc),
                    crate::workflow::jobs_of(doc),
                    names,
                    docs,
                ) {
                    lemma_concat_well_named(runs, more);
                }
            }
        }
    }
}

/// Every check run the callers produce is named by its context, and a name that differs from run
/// to run (an expression in it) is never a context, so that no ruleset can require it; the
/// events of each run's caller are a set.
pub proof fn check_runs_are_well_named(callers: Seq<Source>, workflows: Seq<Source>)
    ensures
        check_runs_of(callers, workflows) matches Ok(runs) ==> all_well_named(runs),
{
    if let Ok(docs) = crate::workflow::parse_all(workflows) {
        lemma_callers_well_named(callers, crate::workflow::names_of(workflows), docs);
    }
}

/// A report `check` makes keeps its sets as sets: the required contexts, and the events of each
/// run's caller, each once and in the order of `String`; so its text lists the required
/// contexts in ascending order, each with its producer.
pub proof fn checked_reports_are_well_formed(
    callers: Seq<Source>,
    workflows: Seq<Source>,
    rules: Source,
)
    ensures
        check_of(callers, workflows, rules) matches Ok(r) ==> r.well_formed()
            && crate::render::report_text(r) == "required status checks: "@
            + crate::render::decimal_text(r.required.len()) + "\n"@
            + crate::render::required_lines(r.required, r.produced) + crate::render::listed_line(
            "also produced, not required: "@,
            crate::render::unrequired(r.produced, r.required),
        ) + crate::render::listed_line(
            "run-dependent names, never required: "@,
            crate::render::dynamic(r.produced),
        ),
{
    if let Ok(r) = check_of(callers, workflows, rules) {
        let doc = parse_of(rules.name@, rules.text@)->Ok_0;
        required_contexts_are_a_set(rules.name@, rules.text@, doc);
        crate::text::lemma_set_of_sorted(r.required);
        check_runs_are_well_named(callers, workflows);
        assert forall|i: int| 0 <= i < r.produced.len() implies sorted_set(
            #[trigger] r.produced[i].origin.events,
        ) by {
            assert(well_named(r.produced[i]));
        }
    }
}

/// Whatever order a report holds its required contexts in, and however often, its text counts
/// each once and lists them in ascending order, each with its producer, as a `BTreeSet` of them
/// would.
pub proof fn reports_list_each_required_context_once_in_order(r: ReportView)
    ensures
        crate::text::sorted_set(set_of(r.required)),
        forall|c: Seq<char>| #[trigger] set_of(r.required).contains(c) <==> r.required.contains(c),
        crate::render::report_text(r) == "required status checks: "@ + crate::render::decimal_text(
            set_of(r.required).len(),
        ) + "\n"@ + crate::render::required_lines(set_of(r.required), r.produced)
            + crate::render::listed_line(
            "also produced, not required: "@,
            crate::render::unrequired(r.produced, r.required),
        ) + crate::render::listed_line(
            "run-dependent names, never required: "@,
            crate::render::dynamic(r.produced),
        ),
{
    crate::text::lemma_set_of(r.required);
}

/// A run exits 0 exactly when the inputs were judged and the contract holds, 1 exactly when they
/// were judged and a finding breaks it, 2 exactly when they could not be judged.
pub proof fn exit_status_follows_the_report(judged: Result<ReportView, Seq<char>>)
    ensures
        conclude_of(judged).status == CLEAN <==> (judged matches Ok(r) && r.findings.len() == 0),
        conclude_of(judged).status == BROKEN <==> (judged matches Ok(r) && r.findings.len() > 0),
        conclude_of(judged).status == UNUSABLE <==> judged is Err,
{
}

/// The events a workflow triggers on are a set: each once, in the order of `String`, and just
/// the events its `on:` names.
pub proof fn events_are_a_set(doc: YamlValue)
    ensures
        sorted_set(crate::workflow::events_of(doc)),
        forall|e: Seq<char>|
            #[trigger] crate::workflow::events_of(doc).contains(e)
                <==> crate::workflow::event_list(doc).contains(e),
{
    lemma_set_of(crate::workflow::event_list(doc));
}

/// A `uses:` names a reusable workflow exactly when it carries the workflows path; an action's
/// never does.
pub proof fn only_a_workflows_path_names_a_workflow(uses: Seq<char>)
    ensures
        crate::workflow::used_workflow_of(uses) is Some <==> contains_text(
            uses,
            crate::workflow::workflows_path(),
        ),
{
}

/// A run of the command on a command line other than `--version`, `--help` or `-h`: a wrong
/// command line prints what is wrong and the usage, and exits 2; inputs that cannot be read or
/// judged exit 2 and print nothing on stdout; judged inputs print the report and exit 0 when it
/// is clean, and otherwise also print each finding and exit 1. `run` gives the first step of it,
/// and `finish` the rest once the program has read what `run` named.
pub proof fn a_run_ends_as_its_inputs_say(
    args: Seq<Seq<char>>,
    version: Seq<char>,
    read: Result<(Seq<Source>, Seq<Source>, Source), Seq<char>>,
)
    requires
        args != seq!["--version"@],
        args != seq!["--help"@],
        args != seq!["-h"@],
    ensures
        parse_args_of(args) matches Err(m) ==> command_of(args, version, read)
            == crate::command::unusable_of(m + "\n"@ + USAGE@),
        parse_args_of(args) is Ok ==> match read {
            Err(problem) => command_of(args, version, read) == crate::command::unusable_of(
                problem,
            ),
            Ok(sources) => match check_of(sources.0, sources.1, sources.2) {
                Err(e) => command_of(args, version, read) == crate::command::unusable_of(
                    crate::render::error_text(e),
                ),
                Ok(r) => command_of(args, version, read) == if r.findings.len() == 0 {
                    crate::command::clean_of(crate::render::report_text(r))
                } else {
                    crate::command::broken_of(r)
                },
            },
        },
        command_of(args, version, read).status == UNUSABLE ==> command_of(
            args,
            version,
            read,
        ).stdout.len() == 0,
{
}

/// The flag of one of the three inputs, followed by its value.
pub open spec fn flag_pair(
    k: int,
    callers: Seq<char>,
    workflows: Seq<char>,
    rules: Seq<char>,
) -> Seq<Seq<char>> {
    if k == 0 {
        seq!["--callers"@, callers]
    } else if k == 1 {
        seq!["--workflows"@, workflows]
    } else {
        seq!["--rules"@, rules]
    }
}

/// The three inputs are read in any order: each order of the three flags and their values gives
/// the same inputs.
pub proof fn inputs_are_read_in_any_order(
    callers: Seq<char>,
    workflows: Seq<char>,
    rules: Seq<char>,
    a: int,
    b: int,
    c: int,
)
    requires
        0 <= a < 3,
        0 <= b < 3,
        0 <= c < 3,
        a != b,
        b != c,
        a != c,
    ensures
        parse_args_of(
            flag_pair(a, callers, workflows, rules) + flag_pair(b, callers, workflows, rules)
                + flag_pair(c, callers, workflows, rules),
        ) == Ok::<InputsView, Seq<char>>(InputsView { callers, workflows, rules }),
{
    reveal_strlit("--callers");
    reveal_strlit("--workflows");
    reveal_strlit("--rules");
    let pa = flag_pair(a, callers, workflows, rules);
    let pb = flag_pair(b, callers, workflows, rules);
    let pc = flag_pair(c, callers, workflows, rules);
    let flags = pa + pb + pc;
    assert("--callers"@ != "--workflows"@) by {
        assert("--callers"@[2] != "--workflows"@[2]);
    }
    assert("--callers"@ != "--rules"@) by {
        assert("--callers"@.len() != "--rules"@.len());
    }
    assert("--workflows"@ != "--rules"@) by {
        assert("--workflows"@.len() != "--rules"@.len());
    }
    let f1 = flags.skip(2);
    let f2 = f1.skip(2);
    let f3 = f2.skip(2);
    assert(f1 =~= pb + pc);
    assert(f2 =~= pc);
    assert(f3 =~= Seq::<Seq<char>>::empty());
    assert(flags[0] == pa[0] && flags[1] == pa[1]);
    assert(f1[0] == pb[0] && f1[1] == pb[1]);
    assert(f2[0] == pc[0] && f2[1] == pc[1]);
    let none: Option<Seq<char>> = None;
    let s0 = (none, none, none);
    let s1 = (
        if a == 0 { Some(callers) } else { none },
        if a == 1 { Some(workflows) } else { none },
        if a == 2 { Some(rules) } else { none },
    );
    let s2 = (
        if a == 0 || b == 0 { Some(callers) } else { none },
        if a == 1 || b == 1 { Some(workflows) } else { none },
        if a == 2 || b == 2 { Some(rules) } else { none },
    );
    let s3 = (Some(callers), Some(workflows), Some(rules));
    assert(crate::command::read_flags(f3, s3) == Ok::<crate::command::Slots, Seq<char>>(s3));
    assert(crate::command::read_flags(f2, s2) == crate::command::read_flags(f3, s3));
    assert(crate::command::read_flags(f1, s1) == crate::command::read_flags(f2, s2));
    assert(crate::command::read_flags(flags, s0) == crate::command::read_flags(f1, s1));
}

/// Whether a sequence holds `x` is whether one of its two parts does.
proof fn lemma_contains_add<A>(a: Seq<A>, b: Seq<A>, x: A)
    ensures
        (a + b).contains(x) <==> (a.contains(x) || b.contains(x)),
{
    if a.contains(x) {
        let k = choose|k: int| 0 <= k < a.len() && a[k] == x;
        assert((a + b)[k] == x);
    }
    if b.contains(x) {
        let k = choose|k: int| 0 <= k < b.len() && b[k] == x;
        assert((a + b)[a.len() + k] == x);
    }
    if (a + b).contains(x) {
        let k = choose|k: int| 0 <= k < (a + b).len() && (a + b)[k] == x;
        if k < a.len() {
            assert(a[k] == x);
        } else {
            assert(b[k - a.len()] == x);
        }
    }
}

/// A rule requires `c`: it is of type `required_status_checks`, and an entry of its
/// `parameters.required_status_checks` list has `c` as its `context`.
pub open spec fn rule_requires(rule: YamlValue, c: Seq<char>) -> bool {
    &&& str_of(at(rule, "type"@)) == Some("required_status_checks"@)
    &&& at(at(rule, "parameters"@), "required_status_checks"@) matches YamlValue::Array(entries)
        && exists|j: int|
        0 <= j < entries.len() && str_of(at(#[trigger] entries[j], "context"@)) == Some(c)
}

proof fn lemma_listed_contains(entries: Seq<YamlValue>, c: Seq<char>)
    ensures
        crate::workflow::listed_contexts(entries).contains(c) <==> exists|j: int|
            0 <= j < entries.len() && str_of(at(#[trigger] entries[j], "context"@)) == Some(c),
    decreases entries.len(),
{
    if entries.len() > 0 {
        let rest = entries.drop_last();
        lemma_listed_contains(rest, c);
        let last = match str_of(at(entries.last(), "context"@)) {
            Some(x) => seq![x],
            None => Seq::<Seq<char>>::empty(),
        };
        lemma_contains_add(crate::workflow::listed_contexts(rest), last, c);
        if exists|j: int|
            0 <= j < entries.len() && str_of(at(#[trigger] entries[j], "context"@)) == Some(c) {
            let j = choose|j: int|
                0 <= j < entries.len() && str_of(at(#[trigger] entries[j], "context"@)) == Some(c);
            if j < rest.len() {
                assert(rest[j] == entries[j]);
            } else {
                assert(last[0] == c);
            }
        }
        if exists|j: int|
            0 <= j < rest.len() && str_of(at(#[trigger] rest[j], "context"@)) == Some(c) {
            let j = choose|j: int|
                0 <= j < rest.len() && str_of(at(#[trigger] rest[j], "context"@)) == Some(c);
            assert(entries[j] == rest[j]);
        }
        if last.contains(c) {
            assert(entries[entries.len() - 1] == entries.last());
        }
    }
}

proof fn lemma_context_list_contains(rules: Seq<YamlValue>, c: Seq<char>)
    ensures
        context_list(rules).contains(c) <==> exists|i: int|
            0 <= i < rules.len() && rule_requires(#[trigger] rules[i], c),
    decreases rules.len(),
{
    if rules.len() > 0 {
        let rest = rules.drop_last();
        let last = rules.last();
        lemma_context_list_contains(rest, c);
        lemma_contains_add(context_list(rest), crate::workflow::rule_contexts(last), c);
        if let YamlValue::Array(entries) = at(at(last, "parameters"@), "required_status_checks"@) {
            lemma_listed_contains(entries, c);
        }
        assert(crate::workflow::rule_contexts(last).contains(c) <==> rule_requires(last, c));
        if exists|i: int| 0 <= i < rules.len() && rule_requires(#[trigger] rules[i], c) {
            let i = choose|i: int| 0 <= i < rules.len() && rule_requires(#[trigger] rules[i], c);
            if i < rest.len() {
                assert(rest[i] == rules[i]);
            }
        }
        if exists|i: int| 0 <= i < rest.len() && rule_requires(#[trigger] rest[i], c) {
            let i = choose|i: int| 0 <= i < rest.len() && rule_requires(#[trigger] rest[i], c);
            assert(rules[i] == rest[i]);
        }
        if rule_requires(last, c) {
            assert(rules[rules.len() - 1] == last);
        }
    }
}

/// The rules of a document are the array it is, or the array under `rules:` of a ruleset; a
/// context is required exactly when some rule of type `required_status_checks` lists it, in
/// any rule of the document, the first one or a later one; the required contexts are a set.
pub proof fn a_context_is_required_exactly_when_some_rule_lists_it(doc: YamlValue)
    ensures
        doc matches YamlValue::Array(rules) ==> rules_of(doc) == rules,
        doc is Hash ==> rules_of(doc) == match at(doc, "rules"@) {
            YamlValue::Array(rules) => rules,
            _ => Seq::<YamlValue>::empty(),
        },
        !(doc is Array) && !(doc is Hash) ==> rules_of(doc).len() == 0,
        sorted_set(contexts_of(doc)),
        forall|c: Seq<char>|
            #[trigger] contexts_of(doc).contains(c) <==> exists|i: int|
                0 <= i < rules_of(doc).len() && rule_requires(#[trigger] rules_of(doc)[i], c),
{
    lemma_set_of(context_list(rules_of(doc)));
    assert forall|c: Seq<char>|
        #[trigger] contexts_of(doc).contains(c) <==> exists|i: int|
            0 <= i < rules_of(doc).len() && rule_requires(#[trigger] rules_of(doc)[i], c) by {
        lemma_context_list_contains(rules_of(doc), c);
    }
}

/// A rules source is judged on every context some rule of its document lists: the contexts
/// `required_contexts` gives are exactly those.
pub proof fn every_listed_context_is_required(name: Seq<char>, text: Seq<char>)
    ensures
        required_of(name, text) matches Ok(required) ==> parse_of(name, text) matches Ok(doc)
            && forall|c: Seq<char>|
            #[trigger] required.contains(c) <==> exists|i: int|
                0 <= i < rules_of(doc).len() && rule_requires(#[trigger] rules_of(doc)[i], c),
{
    if let Ok(doc) = parse_of(name, text) {
        a_context_is_required_exactly_when_some_rule_lists_it(doc);
    }
}

proof fn lemma_str_keys_contains(entries: Seq<(YamlValue, YamlValue)>, c: Seq<char>)
    ensures
        crate::workflow::str_keys(entries).contains(c) <==> exists|k: int|
            0 <= k < entries.len() && (#[trigger] entries[k]).0 == YamlValue::Str(c),
    decreases entries.len(),
{
    if entries.len() > 0 {
        let rest = entries.drop_last();
        lemma_str_keys_contains(rest, c);
        let last = match str_of(entries.last().0) {
            Some(x) => seq![x],
            None => Seq::<Seq<char>>::empty(),
        };
        lemma_contains_add(crate::workflow::str_keys(rest), last, c);
        if exists|k: int| 0 <= k < entries.len() && (#[trigger] entries[k]).0 == YamlValue::Str(c) {
            let k = choose|k: int|
                0 <= k < entries.len() && (#[trigger] entries[k]).0 == YamlValue::Str(c);
            if k < rest.len() {
                assert(rest[k] == entries[k]);
            } else {
                assert(last[0] == c);
            }
        }
        if exists|k: int| 0 <= k < rest.len() && (#[trigger] rest[k]).0 == YamlValue::Str(c) {
            let k = choose|k: int| 0 <= k < rest.len() && (#[trigger] rest[k]).0 == YamlValue::Str(c);
            assert(entries[k] == rest[k]);
        }
        if last.contains(c) {
            assert(entries[entries.len() - 1] == entries.last());
        }
    }
}

proof fn lemma_str_items_contains(items: Seq<YamlValue>, c: Seq<char>)
    ensures
        crate::workflow::str_items(items).contains(c) <==> exists|k: int|
            0 <= k < items.len() && #[trigger] items[k] == YamlValue::Str(c),
    decreases items.len(),
{
    if items.len() > 0 {
        let rest = items.drop_last();
        lemma_str_items_contains(rest, c);
        let last = match str_of(items.last()) {
            Some(x) => seq![x],
            None => Seq::<Seq<char>>::empty(),
        };
        lemma_contains_add(crate::workflow::str_items(rest), last, c);
        if exists|k: int| 0 <= k < items.len() && #[trigger] items[k] == YamlValue::Str(c) {
            let k = choose|k: int| 0 <= k < items.len() && #[trigger] items[k] == YamlValue::Str(c);
            if k < rest.len() {
                assert(rest[k] == items[k]);
            } else {
                assert(last[0] == c);
            }
        }
        if exists|k: int| 0 <= k < rest.len() && #[trigger] rest[k] == YamlValue::Str(c) {
            let k = choose|k: int| 0 <= k < rest.len() && #[trigger] rest[k] == YamlValue::Str(c);
            assert(items[k] == rest[k]);
        }
        if last.contains(c) {
            assert(items[items.len() - 1] == items.last());
        }
    }
}

/// The events of a workflow: when `on:` is a hash, every string key of it, whatever its value
/// (branch filters and all), and nothing else; when it is a list, every string item of it; when
/// it is one string, that string; otherwise none.
pub proof fn every_trigger_under_on_is_an_event(doc: YamlValue)
    ensures
        at(doc, "on"@) matches YamlValue::Hash(entries) ==> forall|c: Seq<char>|
            #[trigger] events_of(doc).contains(c) <==> exists|k: int|
                0 <= k < entries.len() && (#[trigger] entries[k]).0 == YamlValue::Str(c),
        at(doc, "on"@) matches YamlValue::Array(items) ==> forall|c: Seq<char>|
            #[trigger] events_of(doc).contains(c) <==> exists|k: int|
                0 <= k < items.len() && #[trigger] items[k] == YamlValue::Str(c),
        at(doc, "on"@) matches YamlValue::Str(one) ==> events_of(doc) == seq![one],
        !(at(doc, "on"@) is Hash) && !(at(doc, "on"@) is Array) && !(at(doc, "on"@) is Str)
            ==> events_of(doc).len() == 0,
        sorted_set(events_of(doc)),
{
    let list = crate::workflow::event_list(doc);
    lemma_set_of(list);
    match at(doc, "on"@) {
        YamlValue::Hash(entries) => {
            assert forall|c: Seq<char>|
                #[trigger] events_of(doc).contains(c) <==> exists|k: int|
                    0 <= k < entries.len() && (#[trigger] entries[k]).0 == YamlValue::Str(c) by {
                lemma_str_keys_contains(entries, c);
            }
        },
        YamlValue::Array(items) => {
            assert forall|c: Seq<char>|
                #[trigger] events_of(doc).contains(c) <==> exists|k: int|
                    0 <= k < items.len() && #[trigger] items[k] == YamlValue::Str(c) by {
                lemma_str_items_contains(items, c);
            }
        },
        YamlValue::Str(one) => {
            assert(seq![one].drop_last() =~= Seq::<Seq<char>>::empty());
            assert(set_of(Seq::<Seq<char>>::empty()) =~= Seq::<Seq<char>>::empty());
            assert(set_of(seq![one]) =~= seq![one]);
        },
        _ => {
            assert(set_of(list) =~= Seq::<Seq<char>>::empty());
        },
    }
}

/// The line a finding takes on stderr.
pub open spec fn finding_line(f: FindingView) -> Seq<char> {
    "conformance: "@ + crate::render::finding_text(f) + "\n"@
}

proof fn lemma_findings_lines(fs: Seq<FindingView>)
    ensures
        crate::command::findings_lines(fs) == Seq::new(
            fs.len(),
            |k: int| finding_line(fs[k]),
        ).flatten_alt(),
    decreases fs.len(),
{
    let lines = Seq::new(fs.len(), |k: int| finding_line(fs[k]));
    if fs.len() > 0 {
        lemma_findings_lines(fs.drop_last());
        assert(lines.drop_last() =~= Seq::new(
            fs.drop_last().len(),
            |k: int| finding_line(fs.drop_last()[k]),
        ));
        assert(lines.last() == finding_line(fs.last()));
        assert(crate::command::findings_lines(fs) =~= lines.drop_last().flatten_alt()
            + lines.last());
    } else {
        assert(crate::command::findings_lines(fs) =~= Seq::<char>::empty());
    }
}

/// A broken run prints the report on stdout and, on stderr, every finding on a line of its own,
/// in the order of the findings, each after the command's name; it exits 1.
pub proof fn a_broken_run_prints_every_finding(report: ReportView)
    ensures
        crate::command::broken_of(report).stderr == Seq::new(
            report.findings.len(),
            |k: int| finding_line(report.findings[k]),
        ).flatten(),
        crate::command::broken_of(report).stdout == crate::render::report_text(report),
        crate::command::broken_of(report).status == BROKEN,
        report.findings.len() > 0 ==> conclude_of(Ok(report)) == crate::command::broken_of(report),
{
    lemma_findings_lines(report.findings);
    Seq::new(report.findings.len(), |k: int| finding_line(report.findings[k]))
        .lemma_flatten_and_flatten_alt_are_equivalent();
}

proof fn lemma_spaces(k: nat)
    ensures
        crate::render::spaces(k).len() == k,
        forall|i: int| 0 <= i < k ==> #[trigger] crate::render::spaces(k)[i] == ' ',
    decreases k,
{
    reveal_strlit(" ");
    if k > 0 {
        lemma_spaces((k - 1) as nat);
        assert forall|i: int| 0 <= i < k implies #[trigger] crate::render::spaces(k)[i] == ' ' by {
            if i < k - 1 {
                assert(crate::render::spaces(k)[i] == crate::render::spaces((k - 1) as nat)[i]);
            } else {
                assert(" "@[0] == ' ');
            }
        }
    }
}

/// A context in the report keeps every character of it and is followed by spaces only, up to
/// 20 characters: a shorter one is widened, a longer one is never cut.
pub proof fn a_padded_context_is_the_whole_context_then_spaces(s: Seq<char>)
    ensures
        crate::render::padded(s).len() == if s.len() < 20 {
            20
        } else {
            s.len()
        },
        crate::render::padded(s).subrange(0, s.len() as int) == s,
        forall|i: int|
            s.len() <= i < crate::render::padded(s).len() ==> #[trigger] crate::render::padded(
                s,
            )[i] == ' ',
{
    if s.len() < 20 {
        lemma_spaces((20 - s.len()) as nat);
        assert forall|i: int|
            s.len() <= i < crate::render::padded(s).len() implies #[trigger] crate::render::padded(
            s,
        )[i] == ' ' by {
            assert(crate::render::padded(s)[i] == crate::render::spaces(
                (20 - s.len()) as nat,
            )[i - s.len()]);
        }
    }
    assert(crate::render::padded(s).subrange(0, s.len() as int) =~= s);
}

/// A job whose `strategy` holds a `matrix` of any value, an expression included, or whose name
/// holds an expression, produces check runs that no ruleset can require: they have no context.
/// Any other job's run has its context: its name, or `<caller job> / <name>` for a job of a
/// reusable workflow.
pub proof fn a_matrix_or_an_expression_leaves_a_run_without_context(
    caller: Seq<char>,
    caller_job: Seq<char>,
    workflow: Seq<char>,
    id: Seq<char>,
    job: YamlValue,
    events: Seq<Seq<char>>,
)
    ensures
        !(at(at(job, "strategy"@), "matrix"@) is BadValue) ==> own_run_of(caller, id, job, events).context is None
            && reusable_run_of(caller, caller_job, workflow, id, job, events).context is None,
        contains_text(crate::workflow::name_of(job, id), "${{"@) ==> own_run_of(
            caller,
            id,
            job,
            events,
        ).context is None && reusable_run_of(
            caller,
            caller_job,
            workflow,
            id,
            job,
            events,
        ).context is None,
        at(at(job, "strategy"@), "matrix"@) is BadValue && !contains_text(
            crate::workflow::name_of(job, id),
            "${{"@,
        ) ==> own_run_of(caller, id, job, events).context == Some(
            crate::workflow::name_of(job, id),
        ) && reusable_run_of(caller, caller_job, workflow, id, job, events).context == Some(
            caller_job + " / "@ + crate::workflow::name_of(job, id),
        ),
        crate::workflow::name_of(job, id) == match at(job, "name"@) {
            YamlValue::Str(n) => n,
            _ => id,
        },
{
}

} // verus!
