//! The isolation executor's decisions: the ordered steps that the forked child
//! performs, what each failure means, how the command is resolved, and how the
//! child's wait status is reported.
use vstd::prelude::*;
use crate::text::{push_str, to_chars};

verus! {

/// A step of the child between fork and exec.
#[derive(Debug, Clone, Copy, PartialEq, Eq, Structural)]
pub enum ChildStep {
    /// New mount, PID and UTS namespaces.
    Unshare,
    /// Mount propagation made private, recursively under `/`.
    PrivatePropagation,
    BindDev,
    RemountDev,
    BindSys,
    RemountSys,
    MountProc,
    Chroot,
    ChdirRoot,
    SetGid,
    SetUid,
    /// The requested working directory is not absolute.
    RejectCwd,
    ChdirCwd,
    Exec,
}

/// What a failed step means for the child.
#[derive(Debug, Clone, Copy, PartialEq, Eq, Structural)]
pub enum OnFailure {
    /// Report a warning and go on.
    Warn,
    /// Exit at once with this status.
    Exit(i32),
}

/// How the child ended, as the parent's wait saw it.
#[derive(Debug, Clone, Copy, PartialEq, Eq, Structural)]
pub enum WaitOutcome {
    Exited(i32),
    Signaled(i32),
    Other,
}

/// The user and group that the child runs as: `nobody`.
pub open spec fn unprivileged_id() -> u32 {
    65534
}

pub fn unprivileged_uid() -> (r: u32)
    ensures
        r == unprivileged_id(),
{
    65534
}

pub open spec fn failure_of(step: ChildStep) -> OnFailure {
    match step {
        ChildStep::Unshare => OnFailure::Exit(101),
        ChildStep::MountProc => OnFailure::Exit(102),
        ChildStep::Chroot => OnFailure::Exit(103),
        ChildStep::ChdirRoot => OnFailure::Exit(104),
        ChildStep::Exec => OnFailure::Exit(105),
        ChildStep::PrivatePropagation => OnFailure::Exit(106),
        ChildStep::SetGid => OnFailure::Exit(108),
        ChildStep::SetUid => OnFailure::Exit(109),
        ChildStep::RejectCwd => OnFailure::Exit(110),
        ChildStep::ChdirCwd => OnFailure::Exit(111),
        _ => OnFailure::Warn,
    }
}

/// What the child does when `step` fails: the bind mounts and their hardening
/// remounts only warn; every other step ends the child with its own status.
pub fn on_failure(step: ChildStep) -> (r: OnFailure)
    ensures
        r == failure_of(step),
{
    match step {
        ChildStep::Unshare => OnFailure::Exit(101),
        ChildStep::MountProc => OnFailure::Exit(102),
        ChildStep::Chroot => OnFailure::Exit(103),
        ChildStep::ChdirRoot => OnFailure::Exit(104),
        ChildStep::Exec => OnFailure::Exit(105),
        ChildStep::PrivatePropagation => OnFailure::Exit(106),
        ChildStep::SetGid => OnFailure::Exit(108),
        ChildStep::SetUid => OnFailure::Exit(109),
        ChildStep::RejectCwd => OnFailure::Exit(110),
        ChildStep::ChdirCwd => OnFailure::Exit(111),
        _ => OnFailure::Warn,
    }
}

/// The steps before the working directory: namespaces, mounts, chroot, privilege drop.
pub open spec fn setup_steps() -> Seq<ChildStep> {
    seq![
        ChildStep::Unshare,
        ChildStep::PrivatePropagation,
        ChildStep::BindDev,
        ChildStep::RemountDev,
        ChildStep::BindSys,
        ChildStep::RemountSys,
        ChildStep::MountProc,
        ChildStep::Chroot,
        ChildStep::ChdirRoot,
        ChildStep::SetGid,
        ChildStep::SetUid,
    ]
}

/// The child's full plan for an optional working directory.
pub open spec fn child_plan_spec(cwd: Option<Seq<char>>) -> Seq<ChildStep> {
    match cwd {
        None => setup_steps().push(ChildStep::Exec),
        Some(c) => if c.len() > 0 && c[0] == '/' {
            setup_steps().push(ChildStep::ChdirCwd).push(ChildStep::Exec)
        } else {
            setup_steps().push(ChildStep::RejectCwd)
        },
    }
}

/// The ordered steps of the child. A working directory that is not absolute ends the
/// plan with a step that always fails.
pub fn child_plan(cwd: Option<&str>) -> (r: Vec<ChildStep>)
    ensures
        r@ == child_plan_spec(crate::text::opt_view(cwd)),
{
    let mut v: Vec<ChildStep> = Vec::new();
    v.push(ChildStep::Unshare);
    v.push(ChildStep::PrivatePropagation);
    v.push(ChildStep::BindDev);
    v.push(ChildStep::RemountDev);
    v.push(ChildStep::BindSys);
    v.push(ChildStep::RemountSys);
    v.push(ChildStep::MountProc);
    v.push(ChildStep::Chroot);
    v.push(ChildStep::ChdirRoot);
    v.push(ChildStep::SetGid);
    v.push(ChildStep::SetUid);
    assert(v@ =~= setup_steps());
    match cwd {
        None => {
            v.push(ChildStep::Exec);
        },
        Some(c) => {
            let cv = to_chars(c);
            if cv.len() > 0 && cv[0] == '/' {
                v.push(ChildStep::ChdirCwd);
                v.push(ChildStep::Exec);
            } else {
                v.push(ChildStep::RejectCwd);
            }
        },
    }
    v
}

/// Mounts stay in the child: in every plan the namespaces are unshared and mount
/// propagation is made private before any mount, and a failure of either ends the
/// child before it mounts anything.
pub proof fn lemma_mounts_private_first(cwd: Option<Seq<char>>)
    ensures
        ({
            let p = child_plan_spec(cwd);
            &&& p[0] == ChildStep::Unshare
            &&& p[1] == ChildStep::PrivatePropagation
            &&& failure_of(ChildStep::Unshare) is Exit
            &&& failure_of(ChildStep::PrivatePropagation) is Exit
            &&& forall|i: int|
                0 <= i < p.len() && (p[i] is BindDev || p[i] is RemountDev || p[i] is BindSys
                    || p[i] is RemountSys || p[i] is MountProc) ==> i > 1
        }),
{
}

/// The command runs as `nobody` or not at all: in every plan `Exec` comes only last,
/// after `SetGid` and `SetUid`, and a failure of either ends the child.
pub proof fn lemma_privileges_dropped_before_exec(cwd: Option<Seq<char>>)
    ensures
        ({
            let p = child_plan_spec(cwd);
            &&& forall|i: int| 0 <= i < p.len() && p[i] is Exec ==> i == p.len() - 1
            &&& p[9] == ChildStep::SetGid
            &&& p[10] == ChildStep::SetUid
            &&& p.len() > 11
            &&& failure_of(ChildStep::SetGid) == OnFailure::Exit(108)
            &&& failure_of(ChildStep::SetUid) == OnFailure::Exit(109)
        }),
{
}

/// The executable that the child runs: a command with a `/` as given; otherwise
/// `/usr/bin/<cmd>`, then `/bin/<cmd>`, whichever exists, else the bare name.
pub open spec fn resolved_command(cmd: Seq<char>, in_usr_bin: bool, in_bin: bool) -> Seq<char> {
    if cmd.contains('/') {
        cmd
    } else if in_usr_bin {
        "/usr/bin/"@ + cmd
    } else if in_bin {
        "/bin/"@ + cmd
    } else {
        cmd
    }
}

/// Whether the command is used as given, with no probing of the standard directories.
pub fn names_path(cmd: &str) -> (r: bool)
    ensures
        r == cmd@.contains('/'),
{
    let v = to_chars(cmd);
    let mut i: usize = 0;
    while i < v.len()
        invariant
            v@ == cmd@,
            i <= v@.len(),
            forall|j: int| 0 <= j < i ==> v@[j] != '/',
        decreases v@.len() - i,
    {
        if v[i] == '/' {
            return true;
        }
        i += 1;
    }
    false
}

pub fn resolve_command(cmd: &str, in_usr_bin: bool, in_bin: bool) -> (r: String)
    ensures
        r@ == resolved_command(cmd@, in_usr_bin, in_bin),
{
    if names_path(cmd) {
        return String::from_str(cmd);
    }
    let mut s = if in_usr_bin {
        String::from_str("/usr/bin/")
    } else if in_bin {
        String::from_str("/bin/")
    } else {
        String::new()
    };
    push_str(&mut s, cmd);
    s
}

/// The status that the executor reports: the exit code, or the bare signal number for
/// a child killed by a signal, or 1.
pub open spec fn status_code(w: WaitOutcome) -> i32 {
    match w {
        WaitOutcome::Exited(c) => c,
        WaitOutcome::Signaled(s) => s,
        WaitOutcome::Other => 1,
    }
}

pub fn exit_status_of(w: WaitOutcome) -> (r: i32)
    ensures
        r == status_code(w),
{
    match w {
        WaitOutcome::Exited(c) => c,
        WaitOutcome::Signaled(s) => s,
        WaitOutcome::Other => 1,
    }
}

/// The executor needs effective user 0.
pub fn may_isolate(euid: u32) -> (r: bool)
    ensures
        r == (euid == 0),
{
    euid == 0
}

} // verus!
