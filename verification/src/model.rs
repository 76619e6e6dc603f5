//! The inputs, the check runs, the findings and the report, with their views as plain values.

use vstd::prelude::*;

use crate::text::{sorted_set, strs};

verus! {

/// One input file: its file name (what a caller's `uses:` refers to) and its text.
#[derive(Debug, Clone, PartialEq, Eq)]
pub struct Source {
    /// The file name, `rust.yml` for instance.
    pub name: String,
    /// The file's text.
    pub text: String,
}

impl Source {
    /// A named source: the name and the text as `Into<String>` makes them.
    pub fn new<N: Into<String>, T: Into<String>>(name: N, text: T) -> (s: Source)
        ensures
            call_ensures(N::into, (name,), s.name),
            call_ensures(T::into, (text,), s.text),
    {
        Source { name: name.into(), text: text.into() }
    }
}

/// Why the inputs could not be judged.
#[derive(Debug, Clone, PartialEq, Eq)]
pub enum Error {
    /// A file is not YAML (JSON included).
    Parse {
        /// The file.
        file: String,
        /// What the parser said.
        detail: String,
    },
    /// A caller job `uses:` a workflow that is not among the reusable workflows given.
    UnknownWorkflow {
        /// The caller file.
        caller: String,
        /// The caller job.
        job: String,
        /// The workflow file the job uses.
        workflow: String,
    },
    /// A workflow a caller uses is not `on: workflow_call`.
    NotReusable {
        /// The workflow file.
        workflow: String,
    },
    /// The rules carry no `required_status_checks` rule: nothing protects `main`, so there is no
    /// contract.
    NoRequiredChecks,
}

pub enum ErrorView {
    Parse { file: Seq<char>, detail: Seq<char> },
    UnknownWorkflow { caller: Seq<char>, job: Seq<char>, workflow: Seq<char> },
    NotReusable { workflow: Seq<char> },
    NoRequiredChecks,
}

impl View for Error {
    type V = ErrorView;

    open spec fn view(&self) -> ErrorView {
        match self {
            Error::Parse { file, detail } => ErrorView::Parse { file: file@, detail: detail@ },
            Error::UnknownWorkflow { caller, job, workflow } => ErrorView::UnknownWorkflow {
                caller: caller@,
                job: job@,
                workflow: workflow@,
            },
            Error::NotReusable { workflow } => ErrorView::NotReusable { workflow: workflow@ },
            Error::NoRequiredChecks => ErrorView::NoRequiredChecks,
        }
    }
}

/// Where a check run comes from.
#[derive(Debug, Clone, PartialEq, Eq)]
pub struct Origin {
    /// The caller file, `ci.yml` for instance.
    pub caller: String,
    /// The caller job, the first half of the check-run name.
    pub caller_job: String,
    /// The reusable workflow file the caller job uses.
    pub workflow: String,
    /// The reusable job id.
    pub job: String,
    /// The events the caller workflow triggers on, each once, in the order of `String`.
    pub events: Vec<String>,
}

pub struct OriginView {
    pub caller: Seq<char>,
    pub caller_job: Seq<char>,
    pub workflow: Seq<char>,
    pub job: Seq<char>,
    pub events: Seq<Seq<char>>,
}

impl View for Origin {
    type V = OriginView;

    open spec fn view(&self) -> OriginView {
        OriginView {
            caller: self.caller@,
            caller_job: self.caller_job@,
            workflow: self.workflow@,
            job: self.job@,
            events: strs(self.events@),
        }
    }
}

/// A check run a caller produces.
#[derive(Debug, Clone, PartialEq, Eq)]
pub struct CheckRun {
    /// The check-run name, `<caller job> / <job name>`; `None` when the name depends on the run
    /// (a matrix leg, an expression in the name), so that no ruleset can require it.
    pub context: Option<String>,
    /// The reusable job's `name:` as written, or its id when it has none.
    pub name: String,
    /// Where it comes from.
    pub origin: Origin,
}

pub struct RunView {
    pub context: Option<Seq<char>>,
    pub name: Seq<char>,
    pub origin: OriginView,
}

pub open spec fn opt_view(o: Option<String>) -> Option<Seq<char>> {
    match o {
        Some(s) => Some(s@),
        None => None,
    }
}

impl View for CheckRun {
    type V = RunView;

    open spec fn view(&self) -> RunView {
        RunView { context: opt_view(self.context), name: self.name@, origin: self.origin@ }
    }
}

pub open spec fn runs_view(v: Seq<CheckRun>) -> Seq<RunView> {
    v.map_values(|r: CheckRun| r@)
}

/// One way the contract is broken.
#[derive(Debug, Clone, PartialEq, Eq)]
pub enum Finding {
    /// A required context that no caller produces.
    Missing {
        /// The required context.
        context: String,
        /// What resembles it, when something does.
        hint: String,
    },
    /// The caller producing a required context does not trigger on `pull_request`.
    NotOnPullRequest {
        /// The required context.
        context: String,
        /// The caller file.
        caller: String,
    },
    /// The caller producing a required context does not trigger on `merge_group`.
    NotInMergeQueue {
        /// The required context.
        context: String,
        /// The caller file.
        caller: String,
    },
}

pub enum FindingView {
    Missing { context: Seq<char>, hint: Seq<char> },
    NotOnPullRequest { context: Seq<char>, caller: Seq<char> },
    NotInMergeQueue { context: Seq<char>, caller: Seq<char> },
}

impl View for Finding {
    type V = FindingView;

    open spec fn view(&self) -> FindingView {
        match self {
            Finding::Missing { context, hint } => FindingView::Missing {
                context: context@,
                hint: hint@,
            },
            Finding::NotOnPullRequest { context, caller } => FindingView::NotOnPullRequest {
                context: context@,
                caller: caller@,
            },
            Finding::NotInMergeQueue { context, caller } => FindingView::NotInMergeQueue {
                context: context@,
                caller: caller@,
            },
        }
    }
}

impl FindingView {
    /// The required context a finding is about.
    pub open spec fn context(self) -> Seq<char> {
        match self {
            FindingView::Missing { context, .. } => context,
            FindingView::NotOnPullRequest { context, .. } => context,
            FindingView::NotInMergeQueue { context, .. } => context,
        }
    }
}

pub open spec fn findings_view(v: Seq<Finding>) -> Seq<FindingView> {
    v.map_values(|f: Finding| f@)
}

/// The outcome of the check: what the rules require, what the callers produce, and where the two disagree.
#[derive(Debug, Clone, PartialEq, Eq)]
pub struct Report {
    /// The required status-check contexts, a set: `check` keeps each once, in the order of
    /// `String`, and the report's text lists them so whatever order they stand in here.
    pub required: Vec<String>,
    /// Every check run the callers produce, run-dependent names included.
    pub produced: Vec<CheckRun>,
    /// Where the contract is broken; empty when it holds.
    pub findings: Vec<Finding>,
}

pub struct ReportView {
    pub required: Seq<Seq<char>>,
    pub produced: Seq<RunView>,
    pub findings: Seq<FindingView>,
}

impl ReportView {
    /// What a `BTreeSet` would keep of itself: the required contexts, and the events of each
    /// run's caller, each once, in the order of `String`.
    pub open spec fn well_formed(self) -> bool {
        &&& sorted_set(self.required)
        &&& forall|i: int|
            0 <= i < self.produced.len() ==> sorted_set(#[trigger] self.produced[i].origin.events)
    }
}

impl View for Report {
    type V = ReportView;

    open spec fn view(&self) -> ReportView {
        ReportView {
            required: strs(self.required@),
            produced: runs_view(self.produced@),
            findings: findings_view(self.findings@),
        }
    }
}

/// A copy of a list of names.
pub fn copy_names(v: &Vec<String>) -> (r: Vec<String>)
    ensures
        strs(r@) == strs(v@),
{
    let mut r: Vec<String> = Vec::new();
    let mut i: usize = 0;
    while i < v.len()
        invariant
            i <= v.len(),
            r.len() == i,
            strs(r@) == strs(v@).take(i as int),
        decreases v.len() - i,
    {
        let name = v[i].clone();
        let ghost before = r@;
        r.push(name);
        proof {
            assert(r@ == before.push(name));
            assert forall|k: int| 0 <= k < i + 1 implies strs(r@)[k] == strs(v@)[k] by {
                if k < i {
                    assert(strs(before)[k] == strs(v@).take(i as int)[k]);
                }
            }
        }
        i = i + 1;
        assert(strs(r@) =~= strs(v@).take(i as int));
    }
    assert(strs(v@).take(i as int) =~= strs(v@));
    r
}

} // verus!
