//! Checks that the status checks a ruleset requires are check runs that the caller workflows
//! produce, on pull requests and in the merge queue alike.
//!
//! A ruleset requires status checks by name, and the name of a check run a reusable workflow
//! produces is `<caller job id> / <reusable job name>`. Nothing on GitHub ties the two together:
//! rename a job in a reusable workflow and every pull request waits forever for a check that no
//! longer exists. [`check`] reads the three inputs and reports every required context that no
//! caller produces, and every producing caller that does not run on both `pull_request` and
//! `merge_group`.

pub mod command;
pub mod judge;
pub mod laws;
pub mod model;
pub mod render;
pub mod text;
pub mod workflow;
pub mod yaml;

pub use command::{
    conclude, finish, judge_sources, parse_args, run, Inputs, Outcome, Step, BROKEN, CLEAN, UNUSABLE, USAGE,
};
pub use judge::{check, hint, judge, report};
pub use model::{CheckRun, Error, Finding, Origin, Report, Source};
pub use workflow::{
    check_runs, events, is_run_dependent, jobs, own_check_run, parse, required_contexts,
    required_in, used_workflow, workflow_file, workflow_files,
};
pub use yaml::Node;
