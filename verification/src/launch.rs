//! What running an entry or an action executes.

use vstd::prelude::*;
use crate::cli::Cli;
use crate::entry::{Entry, EntryAction, EntryType};
use crate::text::{opt_view, replace_all, replace_str, views};

verus! {

/// A command to run.
#[derive(Debug, Clone)]
pub struct LaunchPlan {
    /// The program to start.
    pub program: String,
    /// Its arguments.
    pub args: Vec<String>,
    /// Working directory, if any.
    pub cwd: Option<String>,
    /// Whether standard input and output are closed (null) for the program.
    pub detached_io: bool,
    /// Whether to wait for the program to finish (else it is only spawned).
    pub wait: bool,
}

/// Why an entry cannot be run.
#[derive(Debug, Clone, Copy, PartialEq, Eq, Structural)]
pub enum LaunchError {
    /// An application without `Exec`.
    MissingExec,
    /// A link without `URL`.
    MissingUrl,
}

impl LaunchError {
    /// The message for this error.
    pub fn message(&self) -> (s: &'static str)
        ensures
            s@ == launch_error_message(*self),
    {
        match self {
            LaunchError::MissingExec => "Tried to execute invalid application entry with empty Exec",
            LaunchError::MissingUrl => "Tried to open invalid link entry with empty URL",
        }
    }
}

/// The message for a launch error.
pub open spec fn launch_error_message(e: LaunchError) -> Seq<char> {
    match e {
        LaunchError::MissingExec => "Tried to execute invalid application entry with empty Exec"@,
        LaunchError::MissingUrl => "Tried to open invalid link entry with empty URL"@,
    }
}

/// The arguments of a command template (all but its first word), with
/// `placeholder` replaced by `value` in each.
pub open spec fn filled_args(template: Seq<Seq<char>>, placeholder: Seq<char>, value: Seq<char>) -> Seq<Seq<char>> {
    template.skip(1).map_values(|a: Seq<char>| replace_all(a, placeholder, value))
}

/// Whether `p` runs `template` (a program followed by arguments) with
/// `placeholder` replaced by `value` in the arguments.
pub open spec fn runs_template(p: LaunchPlan, template: Seq<Seq<char>>, placeholder: Seq<char>, value: Seq<char>) -> bool {
    &&& p.program@ == template[0]
    &&& views(p.args@) == filled_args(template, placeholder, value)
}

/// The arguments of `template` after its first word, each with
/// `placeholder` replaced by `value`.
fn fill_args(template: &Vec<String>, placeholder: &str, value: &str) -> (r: Vec<String>)
    requires
        template@.len() > 0,
        placeholder@.len() > 0,
    ensures
        views(r@) == filled_args(views(template@), placeholder@, value@),
{
    let mut r: Vec<String> = Vec::new();
    let mut i: usize = 1;
    while i < template.len()
        invariant
            1 <= i <= template@.len(),
            placeholder@.len() > 0,
            views(r@) =~= filled_args(views(template@.take(i as int)), placeholder@, value@),
        decreases template@.len() - i,
    {
        let a = replace_str(template[i].as_str(), placeholder, value);
        proof {
            crate::text::lemma_views_push(r@, a);
        }
        r.push(a);
        i += 1;
        assert(views(template@.take(i as int)).skip(1) =~= views(template@.take(i - 1)).skip(1).push(template@[i - 1]@));
    }
    assert(template@.take(template@.len() as int) =~= template@);
    r
}

/// Copy of an optional string.
fn clone_opt(o: &Option<String>) -> (r: Option<String>)
    ensures
        opt_view(r) == opt_view(*o),
{
    match o {
        Some(s) => Some(s.clone()),
        None => None,
    }
}

/// How running `entry` goes: applications run their `Exec` through the
/// terminal or the application command template (`%command%`), detached and
/// in the entry's working directory; links open their `URL` through the link
/// template (`%url%`) and are waited for; other entries run nothing.
pub fn plan_entry(cli_args: &Cli, entry: &Entry) -> (r: Result<Option<LaunchPlan>, LaunchError>)
    requires
        entry.entry_type == EntryType::Application && entry.terminal && entry.exec_line is Some
            ==> cli_args.exec_term@.len() > 0,
        entry.entry_type == EntryType::Application && !entry.terminal && entry.exec_line is Some
            ==> cli_args.exec_app@.len() > 0,
        entry.entry_type == EntryType::Link && entry.url is Some ==> cli_args.exec_link@.len() > 0,
    ensures
        match entry.entry_type {
            EntryType::Application => match entry.exec_line {
                None => r == Err::<Option<LaunchPlan>, LaunchError>(LaunchError::MissingExec),
                Some(exec) => r matches Ok(Some(p)) && p.detached_io && !p.wait
                    && opt_view(p.cwd) == opt_view(entry.path)
                    && runs_template(p,
                        if entry.terminal { views(cli_args.exec_term@) } else { views(cli_args.exec_app@) },
                        "%command%"@, exec@),
            },
            EntryType::Link => match entry.url {
                None => r == Err::<Option<LaunchPlan>, LaunchError>(LaunchError::MissingUrl),
                Some(url) => r matches Ok(Some(p)) && !p.detached_io && p.wait && p.cwd is None
                    && runs_template(p, views(cli_args.exec_link@), "%url%"@, url@),
            },
            EntryType::Other => r matches Ok(None),
        },
{
    proof {
        reveal_strlit("%command%");
        reveal_strlit("%url%");
    }
    match entry.entry_type {
        EntryType::Application => {
            let exec = match &entry.exec_line {
                Some(e) => e,
                None => return Err(LaunchError::MissingExec),
            };
            let template = if entry.terminal { &cli_args.exec_term } else { &cli_args.exec_app };
            let args = fill_args(template, "%command%", exec.as_str());
            Ok(Some(LaunchPlan {
                program: template[0].clone(),
                args,
                cwd: clone_opt(&entry.path),
                detached_io: true,
                wait: false,
            }))
        },
        EntryType::Link => {
            let url = match &entry.url {
                Some(u) => u,
                None => return Err(LaunchError::MissingUrl),
            };
            let args = fill_args(&cli_args.exec_link, "%url%", url.as_str());
            Ok(Some(LaunchPlan {
                program: cli_args.exec_link[0].clone(),
                args,
                cwd: None,
                detached_io: false,
                wait: true,
            }))
        },
        EntryType::Other => Ok(None),
    }
}

/// How running an action of `entry` goes: its command through the terminal
/// template (`%command%`), in the entry's working directory, waited for.
pub fn plan_action(cli_args: &Cli, entry: &Entry, action: &EntryAction) -> (p: LaunchPlan)
    requires
        cli_args.exec_term@.len() > 0,
    ensures
        runs_template(p, views(cli_args.exec_term@), "%command%"@, action.exec_line@),
        opt_view(p.cwd) == opt_view(entry.path),
        !p.detached_io,
        p.wait,
{
    proof {
        reveal_strlit("%command%");
    }
    let args = fill_args(&cli_args.exec_term, "%command%", action.exec_line.as_str());
    LaunchPlan {
        program: cli_args.exec_term[0].clone(),
        args,
        cwd: clone_opt(&entry.path),
        detached_io: false,
        wait: true,
    }
}

} // verus!
