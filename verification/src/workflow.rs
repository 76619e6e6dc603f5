//! What the workflows and the rules say: the events a workflow triggers on, its jobs, the
//! reusable workflow a job uses, the check runs the callers produce and the contexts the rules
//! require.

use vstd::prelude::*;

use crate::model::{copy_names, runs_view, CheckRun, Error, ErrorView, Origin, OriginView, RunView, Source};
use crate::text::{
    chars_of, contains_str, str_equal, contains_text, find, find_chars, find_from, occurs_at, has_name, insert_name, lemma_find_from_bounds,
    set_insert, set_of, strs, trim, trim_bounds,
};
use crate::yaml::{
    at, load_documents, node_at, node_entries, node_is_bad, node_items, node_str, node_value,
    nodes_value, opt_value, str_of, to_node, values_of, yaml_documents, yaml_value, Node,
    YamlValue,
};

verus! {

/// The first document of a source, `Null` when it holds none; a text that is not YAML is an error
/// naming the file.
pub open spec fn parse_of(name: Seq<char>, text: Seq<char>) -> Result<YamlValue, ErrorView> {
    match yaml_documents(text) {
        Ok(docs) => Ok(
            if docs.len() > 0 {
                docs[0]
            } else {
                YamlValue::Null
            },
        ),
        Err(detail) => Err(ErrorView::Parse { file: name, detail }),
    }
}

pub open spec fn parsed(r: Result<Node, Error>) -> Result<YamlValue, ErrorView> {
    match r {
        Ok(doc) => Ok(node_value(doc)),
        Err(e) => Err(e@),
    }
}

/// The first document of a source.
pub fn parse(source: &Source) -> (r: Result<Node, Error>)
    ensures
        parsed(r) == parse_of(source.name@, source.text@),
{
    match load_documents(source.text.as_str()) {
        Ok(docs) => {
            if docs.len() == 0 {
                Ok(Node::Null)
            } else {
                assert(values_of(docs@)[0] == yaml_value(docs@[0]));
                Ok(to_node(&docs[0]))
            }
        },
        Err(detail) => Err(Error::Parse { file: source.name.clone(), detail }),
    }
}

/// The keys of hash entries that are strings, in order.
pub open spec fn str_keys(entries: Seq<(YamlValue, YamlValue)>) -> Seq<Seq<char>>
    decreases entries.len(),
{
    if entries.len() == 0 {
        seq![]
    } else {
        str_keys(entries.drop_last()) + match str_of(entries.last().0) {
            Some(s) => seq![s],
            None => seq![],
        }
    }
}

/// The items that are strings, in order.
pub open spec fn str_items(items: Seq<YamlValue>) -> Seq<Seq<char>>
    decreases items.len(),
{
    if items.len() == 0 {
        seq![]
    } else {
        str_items(items.drop_last()) + match str_of(items.last()) {
            Some(s) => seq![s],
            None => seq![],
        }
    }
}

/// The events a workflow names under `on:`: the keys of a hash, the items of a list, or its one
/// string.
pub open spec fn event_list(doc: YamlValue) -> Seq<Seq<char>> {
    match at(doc, "on"@) {
        YamlValue::Hash(entries) => str_keys(entries),
        YamlValue::Array(items) => str_items(items),
        YamlValue::Str(one) => seq![one],
        _ => seq![],
    }
}

/// The set of events a workflow triggers on.
pub open spec fn events_of(doc: YamlValue) -> Seq<Seq<char>> {
    set_of(event_list(doc))
}

/// The events a workflow triggers on: the keys of `on:`, or its list, or its one string.
pub fn events(doc: &Node) -> (r: Vec<String>)
    ensures
        strs(r@) == events_of(node_value(*doc)),
{
    let on = node_at(Some(doc), "on");
    let mut r: Vec<String> = Vec::new();
    if let Some(entries) = node_entries(on) {
        let ghost es = match opt_value(on) {
            YamlValue::Hash(es) => es,
            _ => seq![],
        };
        let mut i: usize = 0;
        while i < entries.len()
            invariant
                opt_value(on) == YamlValue::Hash(es),
                entries@.len() == es.len(),
                forall|k: int|
                    0 <= k < es.len() ==> node_value(entries@[k].0) == es[k].0,
                i <= entries.len(),
                strs(r@) == set_of(str_keys(es.take(i as int))),
            decreases entries.len() - i,
        {
            let key = &entries[i].0;
            proof {
                assert(es.take(i + 1).drop_last() =~= es.take(i as int));
                assert(es.take(i + 1).last() == es[i as int]);
            }
            if let Some(name) = node_str(Some(key)) {
                let ghost before = str_keys(es.take(i as int));
                insert_name(&mut r, name.to_owned());
                assert(str_keys(es.take(i + 1)) =~= before.push(name@));
                assert(before.push(name@).drop_last() =~= before);
            } else {
                assert(str_keys(es.take(i + 1)) =~= str_keys(es.take(i as int)));
            }
            i = i + 1;
        }
        assert(es.take(i as int) =~= es);
        assert(event_list(node_value(*doc)) == str_keys(es));
        assert(strs(r@) == events_of(node_value(*doc)));
    } else if let Some(items) = node_items(on) {
        let ghost its = match opt_value(on) {
            YamlValue::Array(its) => its,
            _ => seq![],
        };
        let mut i: usize = 0;
        while i < items.len()
            invariant
                opt_value(on) == YamlValue::Array(its),
                nodes_value(items@) == its,
                i <= items.len(),
                strs(r@) == set_of(str_items(its.take(i as int))),
            decreases items.len() - i,
        {
            proof {
                assert(its.take(i + 1).drop_last() =~= its.take(i as int));
                assert(its.take(i + 1).last() == its[i as int]);
                assert(its[i as int] == node_value(items@[i as int]));
            }
            if let Some(name) = node_str(Some(&items[i])) {
                let ghost before = str_items(its.take(i as int));
                insert_name(&mut r, name.to_owned());
                assert(str_items(its.take(i + 1)) =~= before.push(name@));
                assert(before.push(name@).drop_last() =~= before);
            } else {
                assert(str_items(its.take(i + 1)) =~= str_items(its.take(i as int)));
            }
            i = i + 1;
        }
        assert(its.take(i as int) =~= its);
        assert(event_list(node_value(*doc)) == str_items(its));
        assert(strs(r@) == events_of(node_value(*doc)));
    } else if let Some(one) = node_str(on) {
        assert(strs(r@) =~= Seq::<Seq<char>>::empty());
        insert_name(&mut r, one.to_owned());
        assert(seq![one@].drop_last() =~= Seq::<Seq<char>>::empty());
        assert(event_list(node_value(*doc)) == seq![one@]);
        assert(set_of(Seq::<Seq<char>>::empty()) == Seq::<Seq<char>>::empty());
        assert(seq![one@].last() == one@);
        assert(set_of(seq![one@]) =~= seq![one@]);
        assert(strs(r@) == events_of(node_value(*doc)));
    } else {
        assert(strs(r@) =~= Seq::<Seq<char>>::empty());
        assert(event_list(node_value(*doc)) == Seq::<Seq<char>>::empty());
        assert(strs(r@) == events_of(node_value(*doc)));
    }
    r
}

/// The entries of a hash whose keys are strings, as `(key, value)`, in order.
pub open spec fn str_keyed(entries: Seq<(YamlValue, YamlValue)>) -> Seq<(Seq<char>, YamlValue)>
    decreases entries.len(),
{
    if entries.len() == 0 {
        seq![]
    } else {
        str_keyed(entries.drop_last()) + match str_of(entries.last().0) {
            Some(s) => seq![(s, entries.last().1)],
            None => seq![],
        }
    }
}

/// The jobs of a workflow, in order: `(id, job)`.
pub open spec fn jobs_of(doc: YamlValue) -> Seq<(Seq<char>, YamlValue)> {
    match at(doc, "jobs"@) {
        YamlValue::Hash(entries) => str_keyed(entries),
        _ => seq![],
    }
}

pub open spec fn jobs_view<'a>(v: Seq<(&'a str, &'a Node)>) -> Seq<(Seq<char>, YamlValue)> {
    v.map_values(|p: (&'a str, &'a Node)| (p.0@, node_value(*p.1)))
}

/// The jobs of a workflow, in order: `(id, job)`.
pub fn jobs<'a>(doc: &'a Node) -> (r: Vec<(&'a str, &'a Node)>)
    ensures
        jobs_view(r@) == jobs_of(node_value(*doc)),
{
    let all = node_at(Some(doc), "jobs");
    let mut r: Vec<(&'a str, &'a Node)> = Vec::new();
    if let Some(entries) = node_entries(all) {
        let ghost es = match opt_value(all) {
            YamlValue::Hash(es) => es,
            _ => seq![],
        };
        let mut i: usize = 0;
        while i < entries.len()
            invariant
                opt_value(all) == YamlValue::Hash(es),
                entries@.len() == es.len(),
                forall|k: int|
                    0 <= k < es.len() ==> node_value(entries@[k].0) == es[k].0 && node_value(
                        entries@[k].1,
                    ) == es[k].1,
                i <= entries.len(),
                jobs_view(r@) == str_keyed(es.take(i as int)),
            decreases entries.len() - i,
        {
            let (key, job) = (&entries[i].0, &entries[i].1);
            proof {
                assert(es.take(i + 1).drop_last() =~= es.take(i as int));
                assert(es.take(i + 1).last() == es[i as int]);
            }
            let ghost before = r@;
            if let Some(id) = node_str(Some(key)) {
                r.push((id, job));
                assert(jobs_view(r@) =~= jobs_view(before).push((id@, node_value(*job))));
                assert(str_keyed(es.take(i + 1)) =~= str_keyed(es.take(i as int)).push(
                    (id@, es[i as int].1),
                ));
            } else {
                assert(str_keyed(es.take(i + 1)) =~= str_keyed(es.take(i as int)));
            }
            i = i + 1;
        }
        assert(es.take(i as int) =~= es);
    } else {
        assert(jobs_view(r@) =~= Seq::<(Seq<char>, YamlValue)>::empty());
    }
    r
}

/// The path fragment every reusable-workflow `uses:` carries, local
/// (`./.github/workflows/x.yml`) or remote (`org/.github/.github/workflows/x.yml@ref`); an
/// action's `uses:` never does.
pub open spec fn workflows_path() -> Seq<char> {
    ".github/workflows/"@
}

/// The reusable workflow file a `uses:` names, or `None` for an action: what follows the
/// workflows path up to an `@`, trimmed.
pub open spec fn used_workflow_of(uses: Seq<char>) -> Option<Seq<char>> {
    match find(uses, workflows_path()) {
        None => None,
        Some(i) => {
            let rest = uses.subrange(i + workflows_path().len(), uses.len() as int);
            let end = match find(rest, "@"@) {
                Some(e) => e,
                None => rest.len() as int,
            };
            Some(trim(rest.subrange(0, end)))
        },
    }
}

/// The reusable workflow file a `uses:` names, or `None` for an action.
pub fn used_workflow(uses: &str) -> (r: Option<&str>)
    ensures
        match r {
            Some(t) => used_workflow_of(uses@) == Some(t@),
            None => used_workflow_of(uses@) is None,
        },
{
    let x = chars_of(uses);
    let n = x.len();
    let path = chars_of(".github/workflows/");
    let found = find_chars(&x, &path);
    match found {
        None => None,
        Some(i) => {
            proof {
                lemma_find_from_bounds(x@, path@, 0);
                assert(find_from(x@, path@, 0) == Some(i as int));
                assert(occurs_at(x@, path@, i as int));
                assert(i + path@.len() <= x@.len());
            }
            let start = i + path.len();
            let rest = chars_of(uses.substring_char(start, n));
            let at_sign = chars_of("@");
            let end = match find_chars(&rest, &at_sign) {
                Some(e) => {
                    proof {
                        lemma_find_from_bounds(rest@, at_sign@, 0);
                    }
                    e
                },
                None => rest.len(),
            };
            let (a, b) = trim_bounds(&rest, 0, end);
            assert(rest@.subrange(a as int, b as int) =~= uses@.subrange(
                start + a,
                start + b,
            ));
            Some(uses.substring_char(start + a, start + b))
        },
    }
}

/// A name that differs from run to run: an expression in it, or a matrix (GitHub appends the
/// leg's values).
pub open spec fn run_dependent(name: Seq<char>, job: YamlValue) -> bool {
    contains_text(name, "${{"@) || !(at(at(job, "strategy"@), "matrix"@) is BadValue)
}

/// A name that differs from run to run: an expression in it, or a matrix.
pub fn is_run_dependent(name: &str, job: &Node) -> (r: bool)
    ensures
        r == run_dependent(name@, node_value(*job)),
{
    contains_str(name, "${{") || !node_is_bad(node_at(node_at(Some(job), "strategy"), "matrix"))
}

/// A job's `name:` as written, or its id when it has none.
pub open spec fn name_of(job: YamlValue, id: Seq<char>) -> Seq<char> {
    match str_of(at(job, "name"@)) {
        Some(n) => n,
        None => id,
    }
}

/// The check run a caller's own job produces: named by the job's name, the caller itself its
/// workflow.
pub open spec fn own_run_of(
    caller: Seq<char>,
    id: Seq<char>,
    job: YamlValue,
    events: Seq<Seq<char>>,
) -> RunView {
    let name = name_of(job, id);
    RunView {
        context: if run_dependent(name, job) {
            None
        } else {
            Some(name)
        },
        name,
        origin: OriginView { caller, caller_job: id, workflow: caller, job: id, events },
    }
}

/// The name of a job, as written or its id.
fn job_name(job: &Node, id: &str) -> (r: String)
    ensures
        r@ == name_of(node_value(*job), id@),
{
    match node_str(node_at(Some(job), "name")) {
        Some(n) => n.to_owned(),
        None => id.to_owned(),
    }
}

/// The check run a caller's own job produces (no reusable workflow).
pub fn own_check_run(caller: &Source, job_id: &str, job: &Node, events: &Vec<String>) -> (r:
    CheckRun)
    ensures
        r@ == own_run_of(caller.name@, job_id@, node_value(*job), strs(events@)),
{
    let name = job_name(job, job_id);
    let context = if is_run_dependent(name.as_str(), job) {
        None
    } else {
        Some(name.clone())
    };
    CheckRun {
        context,
        name,
        origin: Origin {
            caller: caller.name.clone(),
            caller_job: job_id.to_owned(),
            workflow: caller.name.clone(),
            job: job_id.to_owned(),
            events: copy_names(events),
        },
    }
}

/// What separates the caller job from the reusable job in a check-run name.
pub open spec fn separator() -> Seq<char> {
    " / "@
}

/// The check run one job of a reusable workflow produces for a caller job.
pub open spec fn reusable_run_of(
    caller: Seq<char>,
    caller_job: Seq<char>,
    workflow: Seq<char>,
    id: Seq<char>,
    job: YamlValue,
    events: Seq<Seq<char>>,
) -> RunView {
    let name = name_of(job, id);
    RunView {
        context: if run_dependent(name, job) {
            None
        } else {
            Some(caller_job + separator() + name)
        },
        name,
        origin: OriginView { caller, caller_job, workflow, job: id, events },
    }
}

/// The check runs of every job of a reusable workflow, in order.
pub open spec fn reusable_runs_of(
    caller: Seq<char>,
    caller_job: Seq<char>,
    workflow: Seq<char>,
    jobs: Seq<(Seq<char>, YamlValue)>,
    events: Seq<Seq<char>>,
) -> Seq<RunView>
    decreases jobs.len(),
{
    if jobs.len() == 0 {
        seq![]
    } else {
        reusable_runs_of(caller, caller_job, workflow, jobs.drop_last(), events).push(
            reusable_run_of(caller, caller_job, workflow, jobs.last().0, jobs.last().1, events),
        )
    }
}

/// The reusable workflow a job uses, when it uses one.
pub open spec fn uses_of(job: YamlValue) -> Option<Seq<char>> {
    match str_of(at(job, "uses"@)) {
        Some(u) => used_workflow_of(u),
        None => None,
    }
}

/// The first workflow named `used`.
pub open spec fn workflow_index(names: Seq<Seq<char>>, used: Seq<char>, from: int) -> Option<int>
    decreases names.len() - from,
{
    if from < 0 || from >= names.len() {
        None
    } else if names[from] == used {
        Some(from)
    } else {
        workflow_index(names, used, from + 1)
    }
}

pub open spec fn names_of(v: Seq<Source>) -> Seq<Seq<char>> {
    v.map_values(|s: Source| s.name@)
}

/// The check runs one job of a caller produces, or why they cannot be known.
pub open spec fn job_runs_of(
    caller: Seq<char>,
    events: Seq<Seq<char>>,
    id: Seq<char>,
    job: YamlValue,
    names: Seq<Seq<char>>,
    docs: Seq<YamlValue>,
) -> Result<Seq<RunView>, ErrorView> {
    match uses_of(job) {
        None => Ok(seq![own_run_of(caller, id, job, events)]),
        Some(used) => match workflow_index(names, used, 0) {
            None => Err(ErrorView::UnknownWorkflow { caller, job: id, workflow: used }),
            Some(k) => if !events_of(docs[k]).contains("workflow_call"@) {
                Err(ErrorView::NotReusable { workflow: names[k] })
            } else {
                Ok(reusable_runs_of(caller, id, names[k], jobs_of(docs[k]), events))
            },
        },
    }
}

/// The check runs the jobs of a caller produce, in order, or the first reason they cannot be
/// known.
pub open spec fn jobs_runs_of(
    caller: Seq<char>,
    events: Seq<Seq<char>>,
    jobs: Seq<(Seq<char>, YamlValue)>,
    names: Seq<Seq<char>>,
    docs: Seq<YamlValue>,
) -> Result<Seq<RunView>, ErrorView>
    decreases jobs.len(),
{
    if jobs.len() == 0 {
        Ok(seq![])
    } else {
        match jobs_runs_of(caller, events, jobs.drop_last(), names, docs) {
            Err(e) => Err(e),
            Ok(runs) => match job_runs_of(
                caller,
                events,
                jobs.last().0,
                jobs.last().1,
                names,
                docs,
            ) {
                Err(e) => Err(e),
                Ok(more) => Ok(runs + more),
            },
        }
    }
}

/// The documents of the sources, in order, or the first that is not YAML.
pub open spec fn parse_all(ws: Seq<Source>) -> Result<Seq<YamlValue>, ErrorView>
    decreases ws.len(),
{
    if ws.len() == 0 {
        Ok(seq![])
    } else {
        match parse_all(ws.drop_last()) {
            Err(e) => Err(e),
            Ok(docs) => match parse_of(ws.last().name@, ws.last().text@) {
                Err(e) => Err(e),
                Ok(doc) => Ok(docs.push(doc)),
            },
        }
    }
}

/// The check runs the callers produce, in order, or the first reason they cannot be known.
pub open spec fn callers_runs_of(
    callers: Seq<Source>,
    names: Seq<Seq<char>>,
    docs: Seq<YamlValue>,
) -> Result<Seq<RunView>, ErrorView>
    decreases callers.len(),
{
    if callers.len() == 0 {
        Ok(seq![])
    } else {
        match callers_runs_of(callers.drop_last(), names, docs) {
            Err(e) => Err(e),
            Ok(runs) => {
                let caller = callers.last();
                match parse_of(caller.name@, caller.text@) {
                    Err(e) => Err(e),
                    Ok(doc) => match jobs_runs_of(
                        caller.name@,
                        events_of(doc),
                        jobs_of(doc),
                        names,
                        docs,
                    ) {
                        Err(e) => Err(e),
                        Ok(more) => Ok(runs + more),
                    },
                }
            },
        }
    }
}

/// Every check run the callers produce through the workflows.
pub open spec fn check_runs_of(callers: Seq<Source>, workflows: Seq<Source>) -> Result<
    Seq<RunView>,
    ErrorView,
> {
    match parse_all(workflows) {
        Err(e) => Err(e),
        Ok(docs) => callers_runs_of(callers, names_of(workflows), docs),
    }
}


pub proof fn lemma_parse_all_err(ws: Seq<Source>, k: int)
    requires
        0 <= k <= ws.len(),
        parse_all(ws.take(k)) is Err,
    ensures
        parse_all(ws) == parse_all(ws.take(k)),
    decreases ws.len(),
{
    if k == ws.len() {
        assert(ws.take(k) =~= ws);
    } else {
        assert(ws.drop_last().take(k) =~= ws.take(k));
        lemma_parse_all_err(ws.drop_last(), k);
    }
}

pub proof fn lemma_jobs_runs_err(
    caller: Seq<char>,
    events: Seq<Seq<char>>,
    jobs: Seq<(Seq<char>, YamlValue)>,
    names: Seq<Seq<char>>,
    docs: Seq<YamlValue>,
    k: int,
)
    requires
        0 <= k <= jobs.len(),
        jobs_runs_of(caller, events, jobs.take(k), names, docs) is Err,
    ensures
        jobs_runs_of(caller, events, jobs, names, docs) == jobs_runs_of(
            caller,
            events,
            jobs.take(k),
            names,
            docs,
        ),
    decreases jobs.len(),
{
    if k == jobs.len() {
        assert(jobs.take(k) =~= jobs);
    } else {
        assert(jobs.drop_last().take(k) =~= jobs.take(k));
        lemma_jobs_runs_err(caller, events, jobs.drop_last(), names, docs, k);
    }
}

pub proof fn lemma_callers_runs_err(
    callers: Seq<Source>,
    names: Seq<Seq<char>>,
    docs: Seq<YamlValue>,
    k: int,
)
    requires
        0 <= k <= callers.len(),
        callers_runs_of(callers.take(k), names, docs) is Err,
    ensures
        callers_runs_of(callers, names, docs) == callers_runs_of(callers.take(k), names, docs),
    decreases callers.len(),
{
    if k == callers.len() {
        assert(callers.take(k) =~= callers);
    } else {
        assert(callers.drop_last().take(k) =~= callers.take(k));
        lemma_callers_runs_err(callers.drop_last(), names, docs, k);
    }
}

/// Where the first workflow named `used` stands among the workflows.
fn workflow_position(workflows: &[Source], used: &str) -> (r: Option<usize>)
    ensures
        match r {
            Some(w) => workflow_index(names_of(workflows@), used@, 0) == Some(w as int) && w
                < workflows@.len(),
            None => workflow_index(names_of(workflows@), used@, 0) is None,
        },
{
    let ghost names = names_of(workflows@);
    let mut w: usize = 0;
    while w < workflows.len()
        invariant
            names == names_of(workflows@),
            names.len() == workflows@.len(),
            w <= workflows@.len(),
            workflow_index(names, used@, 0) == workflow_index(names, used@, w as int),
        decreases workflows.len() - w,
    {
        assert(names[w as int] == workflows@[w as int].name@);
        if str_equal(workflows[w].name.as_str(), used) {
            return Some(w);
        }
        w = w + 1;
    }
    None
}

/// Appends the check runs the jobs of a reusable workflow produce for a caller job.
fn push_reusable_runs(
    caller: &Source,
    caller_job: &str,
    workflow: &Source,
    doc: &Node,
    events: &Vec<String>,
    runs: &mut Vec<CheckRun>,
)
    ensures
        runs_view(final(runs)@) == runs_view(old(runs)@) + reusable_runs_of(
            caller.name@,
            caller_job@,
            workflow.name@,
            jobs_of(node_value(*doc)),
            strs(events@),
        ),
{
    let js = jobs(doc);
    let ghost all = jobs_of(node_value(*doc));
    let ghost start = runs_view(runs@);
    let mut k: usize = 0;
    while k < js.len()
        invariant
            jobs_view(js@) == all,
            js@.len() == all.len(),
            k <= js@.len(),
            start == runs_view(old(runs)@),
            runs_view(runs@) == start + reusable_runs_of(
                caller.name@,
                caller_job@,
                workflow.name@,
                all.take(k as int),
                strs(events@),
            ),
        decreases js.len() - k,
    {
        let (job_id, job) = js[k];
        let name = job_name(job, job_id);
        let context = if is_run_dependent(name.as_str(), job) {
            None
        } else {
            let mut c = caller_job.to_owned();
            c.append(" / ");
            c.append(name.as_str());
            Some(c)
        };
        let run = CheckRun {
            context,
            name,
            origin: Origin {
                caller: caller.name.clone(),
                caller_job: caller_job.to_owned(),
                workflow: workflow.name.clone(),
                job: job_id.to_owned(),
                events: copy_names(events),
            },
        };
        proof {
            assert(all[k as int] == (job_id@, node_value(*job)));
            assert(all.take(k + 1).drop_last() =~= all.take(k as int));
            assert(run@ == reusable_run_of(
                caller.name@,
                caller_job@,
                workflow.name@,
                job_id@,
                node_value(*job),
                strs(events@),
            ));
        }
        let ghost before = runs@;
        runs.push(run);
        assert(runs_view(runs@) =~= runs_view(before).push(run@));
        k = k + 1;
    }
    assert(all.take(k as int) =~= all);
}

/// Appends the check runs one job of a caller produces.
fn push_job_runs(
    caller: &Source,
    caller_events: &Vec<String>,
    caller_job: &str,
    job: &Node,
    workflows: &[Source],
    parsed: &Vec<Node>,
    runs: &mut Vec<CheckRun>,
) -> (r: Result<(), Error>)
    requires
        parsed@.len() == workflows@.len(),
    ensures
        match job_runs_of(
            caller.name@,
            strs(caller_events@),
            caller_job@,
            node_value(*job),
            names_of(workflows@),
            nodes_value(parsed@),
        ) {
            Ok(more) => r is Ok && runs_view(final(runs)@) == runs_view(old(runs)@) + more,
            Err(e) => r matches Err(x) && x@ == e,
        },
{
    let used = match node_str(node_at(Some(job), "uses")) {
        Some(u) => used_workflow(u),
        None => None,
    };
    match used {
        None => {
            let run = own_check_run(caller, caller_job, job, caller_events);
            let ghost before = runs@;
            runs.push(run);
            assert(runs_view(runs@) =~= runs_view(before) + seq![run@]);
            Ok(())
        },
        Some(used) => match workflow_position(workflows, used) {
            None => Err(
                Error::UnknownWorkflow {
                    caller: caller.name.clone(),
                    job: caller_job.to_owned(),
                    workflow: used.to_owned(),
                },
            ),
            Some(w) => {
                let reusable = &parsed[w];
                assert(nodes_value(parsed@)[w as int] == node_value(*reusable));
                assert(names_of(workflows@)[w as int] == workflows@[w as int].name@);
                let reusable_events = events(reusable);
                if !has_name(&reusable_events, "workflow_call") {
                    return Err(Error::NotReusable { workflow: workflows[w].name.clone() });
                }
                push_reusable_runs(caller, caller_job, &workflows[w], reusable, caller_events, runs);
                Ok(())
            },
        },
    }
}

/// Appends the check runs the jobs of one caller produce.
fn push_caller_runs(
    caller: &Source,
    workflows: &[Source],
    parsed: &Vec<Node>,
    runs: &mut Vec<CheckRun>,
) -> (r: Result<(), Error>)
    requires
        parsed@.len() == workflows@.len(),
    ensures
        match parse_of(caller.name@, caller.text@) {
            Err(e) => r matches Err(x) && x@ == e,
            Ok(doc) => match jobs_runs_of(
                caller.name@,
                events_of(doc),
                jobs_of(doc),
                names_of(workflows@),
                nodes_value(parsed@),
            ) {
                Ok(more) => r is Ok && runs_view(final(runs)@) == runs_view(old(runs)@) + more,
                Err(e) => r matches Err(x) && x@ == e,
            },
        },
{
    let doc = match parse(caller) {
        Ok(doc) => doc,
        Err(e) => return Err(e),
    };
    let caller_events = events(&doc);
    let js = jobs(&doc);
    let ghost all = jobs_of(node_value(doc));
    let ghost names = names_of(workflows@);
    let ghost docs = nodes_value(parsed@);
    let ghost ev = strs(caller_events@);
    let ghost start = runs_view(runs@);
    let mut k: usize = 0;
    assert(all.take(0) =~= Seq::<(Seq<char>, YamlValue)>::empty());
    assert(runs_view(runs@).skip(start.len() as int) =~= Seq::<RunView>::empty());
    assert(runs_view(runs@).take(start.len() as int) =~= start);
    while k < js.len()
        invariant
            jobs_view(js@) == all,
            js@.len() == all.len(),
            k <= js@.len(),
            parsed@.len() == workflows@.len(),
            names == names_of(workflows@),
            docs == nodes_value(parsed@),
            ev == strs(caller_events@),
            parse_of(caller.name@, caller.text@) == Ok::<YamlValue, ErrorView>(node_value(doc)),
            ev == events_of(node_value(doc)),
            all == jobs_of(node_value(doc)),
            start == runs_view(old(runs)@),
            jobs_runs_of(caller.name@, ev, all.take(k as int), names, docs) == Ok::<
                Seq<RunView>,
                ErrorView,
            >(runs_view(runs@).skip(start.len() as int)),
            runs_view(runs@).take(start.len() as int) == start,
            runs_view(runs@).len() >= start.len(),
        decreases js.len() - k,
    {
        let (caller_job, job) = js[k];
        proof {
            assert(all[k as int] == (caller_job@, node_value(*job)));
            assert(all.take(k + 1).drop_last() =~= all.take(k as int));
        }
        let ghost before = runs_view(runs@);
        let step = push_job_runs(caller, &caller_events, caller_job, job, workflows, parsed, runs);
        match step {
            Ok(()) => {
                proof {
                    let jr = job_runs_of(
                        caller.name@,
                        ev,
                        caller_job@,
                        node_value(*job),
                        names,
                        docs,
                    );
                    assert(jr is Ok);
                    let more = jr->Ok_0;
                    assert(runs_view(runs@) == before + more);
                    assert((before + more).skip(start.len() as int) =~= before.skip(
                        start.len() as int,
                    ) + more);
                    assert((before + more).take(start.len() as int) =~= before.take(
                        start.len() as int,
                    ));
                }
            },
            Err(e) => {
                proof {
                    assert(jobs_runs_of(caller.name@, ev, all.take(k + 1), names, docs) == Err::<
                        Seq<RunView>,
                        ErrorView,
                    >(e@));
                    lemma_jobs_runs_err(caller.name@, ev, all, names, docs, k + 1);
                }
                return Err(e);
            },
        }
        k = k + 1;
    }
    proof {
        assert(all.take(k as int) =~= all);
        assert(runs_view(runs@) =~= start + runs_view(runs@).skip(start.len() as int));
    }
    Ok(())
}

/// Every check run the `callers` produce: one per reusable job of every caller job that `uses:`
/// a workflow, named `<caller job> / <reusable job name>`, and one per job a caller runs itself,
/// named by that job.
pub fn check_runs(callers: &[Source], workflows: &[Source]) -> (r: Result<Vec<CheckRun>, Error>)
    ensures
        runs_result(r) == check_runs_of(callers@, workflows@),
{
    let mut parsed: Vec<Node> = Vec::new();
    let mut i: usize = 0;
    assert(workflows@.take(0) =~= Seq::<Source>::empty());
    assert(nodes_value(parsed@) =~= Seq::<YamlValue>::empty());
    while i < workflows.len()
        invariant
            i <= workflows@.len(),
            parsed@.len() == i,
            parse_all(workflows@.take(i as int)) == Ok::<Seq<YamlValue>, ErrorView>(
                nodes_value(parsed@),
            ),
        decreases workflows.len() - i,
    {
        assert(workflows@.take(i + 1).drop_last() =~= workflows@.take(i as int));
        assert(workflows@.take(i + 1).last() == workflows@[i as int]);
        match parse(&workflows[i]) {
            Ok(doc) => {
                let ghost before = parsed@;
                parsed.push(doc);
                assert(nodes_value(parsed@) =~= nodes_value(before).push(node_value(doc)));
            },
            Err(e) => {
                proof {
                    lemma_parse_all_err(workflows@, i + 1);
                }
                return Err(e);
            },
        }
        i = i + 1;
    }
    assert(workflows@.take(i as int) =~= workflows@);
    let ghost names = names_of(workflows@);
    let ghost docs = nodes_value(parsed@);
    let mut runs: Vec<CheckRun> = Vec::new();
    let mut c: usize = 0;
    assert(callers@.take(0) =~= Seq::<Source>::empty());
    assert(runs_view(runs@) =~= Seq::<RunView>::empty());
    while c < callers.len()
        invariant
            c <= callers@.len(),
            parsed@.len() == workflows@.len(),
            names == names_of(workflows@),
            docs == nodes_value(parsed@),
            parse_all(workflows@) == Ok::<Seq<YamlValue>, ErrorView>(docs),
            callers_runs_of(callers@.take(c as int), names, docs) == Ok::<
                Seq<RunView>,
                ErrorView,
            >(runs_view(runs@)),
        decreases callers.len() - c,
    {
        assert(callers@.take(c + 1).drop_last() =~= callers@.take(c as int));
        assert(callers@.take(c + 1).last() == callers@[c as int]);
        match push_caller_runs(&callers[c], workflows, &parsed, &mut runs) {
            Ok(()) => {},
            Err(e) => {
                proof {
                    assert(callers_runs_of(callers@.take(c + 1), names, docs) == Err::<
                        Seq<RunView>,
                        ErrorView,
                    >(e@));
                    lemma_callers_runs_err(callers@, names, docs, c + 1);
                }
                return Err(e);
            },
        }
        c = c + 1;
    }
    assert(callers@.take(c as int) =~= callers@);
    Ok(runs)
}

/// The rules of a ruleset document (`rules: [...]`), or the array itself that
/// `gh api repos/<org>/<repo>/rules/branches/main` answers.
pub open spec fn rules_of(doc: YamlValue) -> Seq<YamlValue> {
    match doc {
        YamlValue::Array(rules) => rules,
        YamlValue::Hash(_) => match at(doc, "rules"@) {
            YamlValue::Array(rules) => rules,
            _ => seq![],
        },
        _ => seq![],
    }
}

/// The contexts the entries of a `required_status_checks` list name, in order.
pub open spec fn listed_contexts(required: Seq<YamlValue>) -> Seq<Seq<char>>
    decreases required.len(),
{
    if required.len() == 0 {
        seq![]
    } else {
        listed_contexts(required.drop_last()) + match str_of(at(required.last(), "context"@)) {
            Some(c) => seq![c],
            None => seq![],
        }
    }
}

/// The contexts one rule requires: none unless it is of type `required_status_checks`.
pub open spec fn rule_contexts(rule: YamlValue) -> Seq<Seq<char>> {
    if str_of(at(rule, "type"@)) == Some("required_status_checks"@) {
        match at(at(rule, "parameters"@), "required_status_checks"@) {
            YamlValue::Array(required) => listed_contexts(required),
            _ => seq![],
        }
    } else {
        seq![]
    }
}

/// The contexts the rules require, in order, repeats included.
pub open spec fn context_list(rules: Seq<YamlValue>) -> Seq<Seq<char>>
    decreases rules.len(),
{
    if rules.len() == 0 {
        seq![]
    } else {
        context_list(rules.drop_last()) + rule_contexts(rules.last())
    }
}

/// The set of contexts a rules document requires.
pub open spec fn contexts_of(doc: YamlValue) -> Seq<Seq<char>> {
    set_of(context_list(rules_of(doc)))
}

/// The contexts a rules source requires; none at all is an error.
pub open spec fn required_of(name: Seq<char>, text: Seq<char>) -> Result<
    Seq<Seq<char>>,
    ErrorView,
> {
    match parse_of(name, text) {
        Err(e) => Err(e),
        Ok(doc) => if contexts_of(doc).len() == 0 {
            Err(ErrorView::NoRequiredChecks)
        } else {
            Ok(contexts_of(doc))
        },
    }
}

proof fn lemma_set_of_push(a: Seq<Seq<char>>, x: Seq<char>)
    ensures
        set_of(a.push(x)) == set_insert(set_of(a), x),
{
    assert(a.push(x).drop_last() =~= a);
}

/// Puts the contexts one rule requires into the set `r`.
fn insert_rule_contexts(rule: &Node, r: &mut Vec<String>, Ghost(before): Ghost<Seq<Seq<char>>>)
    requires
        strs(old(r)@) == set_of(before),
    ensures
        strs(final(r)@) == set_of(before + rule_contexts(node_value(*rule))),
{
    let is_required = match node_str(node_at(Some(rule), "type")) {
        Some(t) => str_equal(t, "required_status_checks"),
        None => false,
    };
    if !is_required {
        assert(before + rule_contexts(node_value(*rule)) =~= before);
        return;
    }
    let listed = node_at(node_at(Some(rule), "parameters"), "required_status_checks");
    match node_items(listed) {
        None => {
            assert(before + rule_contexts(node_value(*rule)) =~= before);
        },
        Some(required) => {
            let ghost reqs = nodes_value(required@);
            let mut j: usize = 0;
            assert(before + listed_contexts(reqs.take(0)) =~= before);
            while j < required.len()
                invariant
                    reqs == nodes_value(required@),
                    reqs.len() == required@.len(),
                    j <= required@.len(),
                    strs(r@) == set_of(before + listed_contexts(reqs.take(j as int))),
                decreases required.len() - j,
            {
                proof {
                    assert(reqs.take(j + 1).drop_last() =~= reqs.take(j as int));
                    assert(reqs.take(j + 1).last() == node_value(required@[j as int]));
                }
                match node_str(node_at(Some(&required[j]), "context")) {
                    Some(c) => {
                        proof {
                            lemma_set_of_push(before + listed_contexts(reqs.take(j as int)), c@);
                            assert(before + listed_contexts(reqs.take(j + 1)) =~= (before
                                + listed_contexts(reqs.take(j as int))).push(c@));
                        }
                        insert_name(r, c.to_owned());
                    },
                    None => {
                        assert(listed_contexts(reqs.take(j + 1)) =~= listed_contexts(
                            reqs.take(j as int),
                        ));
                    },
                }
                j = j + 1;
            }
            assert(reqs.take(j as int) =~= reqs);
        },
    }
}

/// The set of contexts a rules document requires.
pub fn required_in(doc: &Node) -> (r: Vec<String>)
    ensures
        strs(r@) == contexts_of(node_value(*doc)),
{
    let mut r: Vec<String> = Vec::new();
    let list: Option<&Vec<Node>> = match node_items(Some(doc)) {
        Some(rules) => Some(rules),
        None => match node_entries(Some(doc)) {
            Some(_) => node_items(node_at(Some(doc), "rules")),
            None => None,
        },
    };
    match list {
        None => {
            assert(rules_of(node_value(*doc)) =~= Seq::<YamlValue>::empty());
            assert(strs(r@) =~= Seq::<Seq<char>>::empty());
        },
        Some(rules) => {
            let ghost all = nodes_value(rules@);
            assert(all == rules_of(node_value(*doc)));
            let mut i: usize = 0;
            assert(all.take(0) =~= Seq::<YamlValue>::empty());
            assert(strs(r@) =~= Seq::<Seq<char>>::empty());
            while i < rules.len()
                invariant
                    all == nodes_value(rules@),
                    all.len() == rules@.len(),
                    i <= rules@.len(),
                    strs(r@) == set_of(context_list(all.take(i as int))),
                decreases rules.len() - i,
            {
                proof {
                    assert(all.take(i + 1).drop_last() =~= all.take(i as int));
                    assert(all.take(i + 1).last() == node_value(rules@[i as int]));
                }
                insert_rule_contexts(&rules[i], &mut r, Ghost(context_list(all.take(i as int))));
                i = i + 1;
            }
            assert(all.take(i as int) =~= all);
        },
    }
    r
}

/// The status-check contexts the rules require: from a ruleset document (`rules: [...]`) or from
/// the array `gh api repos/<org>/<repo>/rules/branches/main` answers.
pub fn required_contexts(rules: &Source) -> (r: Result<Vec<String>, Error>)
    ensures
        match r {
            Ok(v) => required_of(rules.name@, rules.text@) == Ok::<Seq<Seq<char>>, ErrorView>(
                strs(v@),
            ),
            Err(e) => required_of(rules.name@, rules.text@) == Err::<Seq<Seq<char>>, ErrorView>(
                e@,
            ),
        },
{
    let doc = parse(rules)?;
    let contexts = required_in(&doc);
    if contexts.len() == 0 {
        return Err(Error::NoRequiredChecks);
    }
    Ok(contexts)
}

/// Where the last `.` of a file name stands.
pub open spec fn last_dot(name: Seq<char>) -> Option<int>
    decreases name.len(),
{
    if name.len() == 0 {
        None
    } else if name.last() == '.' {
        Some(name.len() - 1)
    } else {
        last_dot(name.drop_last())
    }
}

/// The extension of a file name, as `Path::extension` gives it: what follows its last `.`,
/// unless that `.` is its first character.
pub open spec fn extension_of(name: Seq<char>) -> Option<Seq<char>> {
    match last_dot(name) {
        Some(i) => if i > 0 {
            Some(name.subrange(i + 1, name.len() as int))
        } else {
            None
        },
        None => None,
    }
}

/// A file of workflows: its extension is `yml` or `yaml`.
pub open spec fn is_workflow_file(name: Seq<char>) -> bool {
    extension_of(name) == Some("yml"@) || extension_of(name) == Some("yaml"@)
}

/// The workflow files among file names, in order.
pub open spec fn workflow_file_list(names: Seq<Seq<char>>) -> Seq<Seq<char>>
    decreases names.len(),
{
    if names.len() == 0 {
        seq![]
    } else {
        workflow_file_list(names.drop_last()) + if is_workflow_file(names.last()) {
            seq![names.last()]
        } else {
            seq![]
        }
    }
}

/// Whether a file name names a file of workflows.
pub fn workflow_file(name: &str) -> (r: bool)
    ensures
        r == is_workflow_file(name@),
{
    let x = chars_of(name);
    let n = x.len();
    let mut k: usize = n;
    proof {
        assert(name@.take(n as int) =~= name@);
    }
    while k > 0 && x[k - 1] != '.'
        invariant
            x@ == name@,
            n == x@.len(),
            k <= n,
            last_dot(name@) == last_dot(name@.take(k as int)),
        decreases k,
    {
        proof {
            assert(name@.take(k as int).drop_last() =~= name@.take(k - 1));
            assert(name@.take(k as int).last() == x@[k - 1]);
        }
        k = k - 1;
    }
    if k <= 1 {
        proof {
            if k == 1 {
                assert(name@.take(1).last() == x@[0]);
            } else {
                assert(name@.take(0).len() == 0);
            }
        }
        return false;
    }
    proof {
        assert(name@.take(k as int).last() == x@[k - 1]);
    }
    let tail = name.substring_char(k, n);
    str_equal(tail, "yml") || str_equal(tail, "yaml")
}

/// The files of workflows among the names of a directory's files, sorted as their paths sort;
/// a directory's names are distinct, so they are the set of the chosen names.
pub fn workflow_files(names: &Vec<String>) -> (r: Vec<String>)
    ensures
        strs(r@) == set_of(workflow_file_list(strs(names@))),
{
    let ghost all = strs(names@);
    let mut r: Vec<String> = Vec::new();
    let mut i: usize = 0;
    assert(all.take(0) =~= Seq::<Seq<char>>::empty());
    assert(strs(r@) =~= Seq::<Seq<char>>::empty());
    while i < names.len()
        invariant
            all == strs(names@),
            all.len() == names@.len(),
            i <= names@.len(),
            strs(r@) == set_of(workflow_file_list(all.take(i as int))),
        decreases names.len() - i,
    {
        proof {
            assert(all.take(i + 1).drop_last() =~= all.take(i as int));
            assert(all.take(i + 1).last() == names@[i as int]@);
        }
        if workflow_file(names[i].as_str()) {
            proof {
                let before = workflow_file_list(all.take(i as int));
                assert(workflow_file_list(all.take(i + 1)) =~= before.push(names@[i as int]@));
                assert(before.push(names@[i as int]@).drop_last() =~= before);
            }
            insert_name(&mut r, names[i].clone());
        } else {
            assert(workflow_file_list(all.take(i + 1)) =~= workflow_file_list(all.take(i as int)));
        }
        i = i + 1;
    }
    assert(all.take(i as int) =~= all);
    r
}

pub open spec fn runs_result(r: Result<Vec<CheckRun>, Error>) -> Result<Seq<RunView>, ErrorView> {
    match r {
        Ok(v) => Ok(runs_view(v@)),
        Err(e) => Err(e@),
    }
}

} // verus!
