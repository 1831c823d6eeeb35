//! What the engines make of their tools' results.
//!
//! Every engine drives its server through the engine's own command-line
//! tools. Running a tool, probing a port and sleeping between probes are the
//! caller's; this module turns what came back into the engine's outcome: the
//! error a failed tool is reported as, whether a server that is starting is
//! ready, still coming up or late, and which directories an instance needs.

use vstd::prelude::*;
use crate::engine::paths::{parent_of, spec_parent_of, views_of};
use crate::engine::{EngineError, Instance};
use crate::text::{chars_of, dec, push_dec, string_of, trim, trim_chars};

verus! {

/// What a finished tool reported: whether it exited successfully, and its
/// standard output and error output as text.
pub struct CommandOutput {
    pub success: bool,
    pub stdout: String,
    pub stderr: String,
}

/// A tool to run: the program and its arguments.
pub struct ToolCall {
    pub program: String,
    pub args: Vec<String>,
}

/// `s` with surrounding whitespace removed.
pub fn trimmed(s: &str) -> (r: String)
    ensures
        r@ == trim(s@),
{
    string_of(&trim_chars(&chars_of(s)))
}

/// The outcome of a tool run for `what`: success, or a tooling error that
/// names `what` and carries the tool's trimmed error output.
pub fn run_outcome(what: &str, out: &CommandOutput) -> (r: Result<(), EngineError>)
    ensures
        out.success ==> r is Ok,
        !out.success ==> (r matches Err(EngineError::Tooling(m)) && m@ == what@ + ": "@ + trim(out.stderr@)),
{
    if out.success {
        return Ok(());
    }
    let mut m = what.to_owned();
    m.append(": ");
    m.append(trimmed(out.stderr.as_str()).as_str());
    Err(EngineError::Tooling(m))
}

/// The text a failed tool is reported by: its trimmed error output, or its
/// trimmed standard output when the former is empty.
pub open spec fn failure_text(out: CommandOutput) -> Seq<char> {
    if trim(out.stderr@).len() > 0 {
        trim(out.stderr@)
    } else {
        trim(out.stdout@)
    }
}

/// The outcome of a tool run for `what`: success, or a tooling error that
/// names `what` and carries [`failure_text`].
pub fn run_outcome_or_stdout(what: &str, out: &CommandOutput) -> (r: Result<(), EngineError>)
    ensures
        out.success ==> r is Ok,
        !out.success ==> (r matches Err(EngineError::Tooling(m)) && m@ == what@ + ": "@ + failure_text(
            *out,
        )),
{
    if out.success {
        return Ok(());
    }
    let mut msg = trimmed(out.stderr.as_str());
    if msg.unicode_len() == 0 {
        msg = trimmed(out.stdout.as_str());
    }
    let mut m = what.to_owned();
    m.append(": ");
    m.append(msg.as_str());
    Err(EngineError::Tooling(m))
}

/// The outcome of a daemon's launch: success, or a tooling error saying that
/// `program` failed to start, with its trimmed error output.
pub fn start_outcome(program: &str, out: &CommandOutput) -> (r: Result<(), EngineError>)
    ensures
        out.success ==> r is Ok,
        !out.success ==> (r matches Err(EngineError::Tooling(m)) && m@ == program@ + " failed to start: "@
            + trim(out.stderr@)),
{
    if out.success {
        return Ok(());
    }
    let mut m = program.to_owned();
    m.append(" failed to start: ");
    m.append(trimmed(out.stderr.as_str()).as_str());
    Err(EngineError::Tooling(m))
}

/// What to do after probing the port of a server that is starting.
pub enum WaitStep {
    /// The port accepts connections: the server is up.
    Ready,
    /// Not yet: wait one more interval and probe again.
    Retry,
    /// The time allowed has run out: report this error.
    GiveUp(EngineError),
}

/// The error reported when `label`'s server did not open `port` within
/// `timeout_secs` seconds.
pub open spec fn not_ready_message(label: Seq<char>, port: u16, timeout_secs: u64) -> Seq<char> {
    label + " did not open port "@ + dec(port as nat) + " within "@ + dec(timeout_secs as nat) + "s"@
}

/// Decides, after a port probe made `elapsed_ms` milliseconds into the wait,
/// whether the server is ready, worth another probe, or late: a server is
/// given `timeout_secs` seconds to open its port.
pub fn wait_step(label: &str, port: u16, timeout_secs: u64, elapsed_ms: u64, open: bool) -> (r: WaitStep)
    requires
        timeout_secs <= u64::MAX / 1000,
    ensures
        open ==> r is Ready,
        !open && elapsed_ms < timeout_secs * 1000 ==> r is Retry,
        !open && elapsed_ms >= timeout_secs * 1000 ==> (r matches WaitStep::GiveUp(EngineError::Tooling(m))
            && m@ == not_ready_message(label@, port, timeout_secs)),
{
    if open {
        return WaitStep::Ready;
    }
    if elapsed_ms < timeout_secs * 1000 {
        return WaitStep::Retry;
    }
    let mut m = label.to_owned();
    m.append(" did not open port ");
    push_dec(&mut m, port as u64);
    m.append(" within ");
    push_dec(&mut m, timeout_secs);
    m.append("s");
    WaitStep::GiveUp(EngineError::Tooling(m))
}

/// The tool an engine operation needs: the path where it was found, or, when
/// the search found none, the engine's "not installed" error carrying
/// `missing`, so that nothing is laid out or run.
pub fn require_tool(found: Option<String>, missing: &str) -> (r: Result<String, EngineError>)
    ensures
        match found {
            Some(p) => r matches Ok(q) && q@ == p@,
            None => r matches Err(EngineError::NotInstalled(m)) && m@ == missing@,
        },
{
    match found {
        Some(p) => Ok(p),
        None => Err(EngineError::NotInstalled(missing.to_owned())),
    }
}

/// The error reported when no shutdown path reached `process`.
pub fn signal_failure(process: &str) -> (e: EngineError)
    ensures
        e matches EngineError::Tooling(m) && m@ == "failed to signal "@ + process@,
{
    let mut m = "failed to signal ".to_owned();
    m.append(process);
    EngineError::Tooling(m)
}

/// What to do next while stopping a server.
pub enum StopStep {
    /// Run the shutdown tool at this position of the list.
    TryTool(usize),
    /// Signal the process recorded in the pidfile.
    Signal,
    /// The stop is over, with this outcome.
    Done(Result<(), EngineError>),
}

/// The next step of stopping `process`: its shutdown tools are tried in
/// order (`tried` of the `tools` have run, a missing one counting as failed,
/// and `last_ok` tells whether the latest succeeded); once none is left the
/// pidfile is signalled, and the outcome of the signal (`signalled`) ends the
/// stop.
pub fn stop_step(tools: usize, tried: usize, last_ok: bool, signalled: Option<bool>, process: &str) -> (r:
    StopStep)
    requires
        tried <= tools,
    ensures
        last_ok ==> r matches StopStep::Done(Ok(())),
        !last_ok && signalled is None && tried < tools ==> r == StopStep::TryTool(tried),
        !last_ok && signalled is None && tried == tools ==> r is Signal,
        !last_ok && signalled == Some(true) ==> r matches StopStep::Done(Ok(())),
        !last_ok && signalled == Some(false) ==> (r matches StopStep::Done(Err(EngineError::Tooling(m)))
            && m@ == "failed to signal "@ + process@),
{
    if last_ok {
        return StopStep::Done(Ok(()));
    }
    match signalled {
        Some(true) => StopStep::Done(Ok(())),
        Some(false) => StopStep::Done(Err(signal_failure(process))),
        None => if tried < tools {
            StopStep::TryTool(tried)
        } else {
            StopStep::Signal
        },
    }
}

/// The directories an instance needs before its engine writes into them: its
/// data directory and the parents of its log, pid and config files, leaving
/// out any that is empty.
pub open spec fn spec_instance_dirs(inst: Instance) -> Seq<Seq<char>> {
    seq![
        inst.data_dir@,
        spec_parent_of(inst.log_file@),
        spec_parent_of(inst.pid_file@),
        spec_parent_of(inst.conf_file@),
    ].filter(|d: Seq<char>| d.len() > 0)
}

/// The directories an instance needs (see [`spec_instance_dirs`]).
pub fn instance_dirs(inst: &Instance) -> (r: Vec<String>)
    ensures
        views_of(r@) == spec_instance_dirs(*inst),
{
    let ghost all = seq![
        inst.data_dir@,
        spec_parent_of(inst.log_file@),
        spec_parent_of(inst.pid_file@),
        spec_parent_of(inst.conf_file@),
    ];
    let mut cands: Vec<String> = Vec::new();
    cands.push(inst.data_dir.clone());
    cands.push(parent_of(inst.log_file.as_str()));
    cands.push(parent_of(inst.pid_file.as_str()));
    cands.push(parent_of(inst.conf_file.as_str()));
    assert(views_of(cands@) =~= all);
    proof {
        reveal(Seq::filter);
        assert(all.take(0) =~= Seq::<Seq<char>>::empty());
    }
    let mut r: Vec<String> = Vec::new();
    let mut i: usize = 0;
    while i < cands.len()
        invariant
            i <= cands@.len(),
            views_of(cands@) == all,
            views_of(r@) == all.take(i as int).filter(|d: Seq<char>| d.len() > 0),
        decreases cands@.len() - i,
    {
        proof {
            reveal(Seq::filter);
            assert(all.take(i + 1).drop_last() =~= all.take(i as int));
            assert(all.take(i + 1).last() == cands@[i as int]@);
        }
        if cands[i].unicode_len() > 0 {
            r.push(cands[i].clone());
            proof {
                assert(views_of(r@) =~= all.take(i + 1).filter(|d: Seq<char>| d.len() > 0));
            }
        } else {
            proof {
                assert(views_of(r@) =~= all.take(i + 1).filter(|d: Seq<char>| d.len() > 0));
            }
        }
        i = i + 1;
    }
    assert(all.take(4) =~= all);
    r
}

/// What to do next while launching a server that ships a launcher script
/// beside its daemon.
pub enum LaunchStep {
    /// Spawn this launcher script with the instance's config.
    Spawn(String),
    /// Run this daemon, daemonized, with the instance's config.
    RunDaemon(String),
    /// The server is on its way up: wait for its port.
    Wait,
    /// Nothing can launch it: report this error.
    Fail(EngineError),
}

/// The next step of a launch: a found launcher is spawned first; once it has
/// been spawned the server is awaited; when there is no launcher or it could
/// not be spawned, the daemon (`daemon_name`, found at `daemon`) is run
/// instead, and a missing daemon is reported as not installed.
pub fn launch_step(launcher: Option<String>, spawned: Option<bool>, daemon: Option<String>, daemon_name: &str) -> (r:
    LaunchStep)
    requires
        spawned is Some ==> launcher is Some,
    ensures
        spawned == Some(true) ==> r is Wait,
        launcher is Some && spawned is None ==> r == LaunchStep::Spawn(launcher->0),
        (launcher is None || spawned == Some(false)) ==> match daemon {
            Some(d) => r == LaunchStep::RunDaemon(d),
            None => r matches LaunchStep::Fail(EngineError::NotInstalled(m)) && m@ == daemon_name@,
        },
{
    match spawned {
        Some(true) => LaunchStep::Wait,
        None if launcher.is_some() => match launcher {
            Some(l) => LaunchStep::Spawn(l),
            None => LaunchStep::Wait,
        },
        _ => match daemon {
            Some(d) => LaunchStep::RunDaemon(d),
            None => LaunchStep::Fail(EngineError::NotInstalled(daemon_name.to_owned())),
        },
    }
}

} // verus!
