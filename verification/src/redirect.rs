//! The invocation redirector: what a launcher computes when it runs.
//!
//! The launcher's own file name yields the target command; the working
//! directory and every path-shaped argument are translated to the subsystem
//! side; other arguments stay byte-for-byte untouched, so shell-sensitive
//! characters are never re-interpreted. The surrounding binary starts the
//! subsystem process from the resulting plan, inherits the environment and
//! the three standard streams unmodified, and relays the child's exit code
//! through [`relay_exit_code`]. No step retries: a failed translation or
//! launch is reported once, immediately.

use vstd::prelude::*;

use crate::error::LinkError;
use crate::path::{basename, basename_spec, is_mapped_host_path, sub_path_of, to_subsystem_path};

verus! {

/// What one launcher execution received from its caller: the arguments
/// (program name excluded) and the host-side working directory. The
/// environment and the standard streams are inherited unmodified by the
/// surrounding binary and never inspected here.
pub struct InvocationContext {
    pub argv: Vec<String>,
    pub cwd: String,
}

/// The subsystem-side call an invocation translates to.
pub struct InvocationPlan {
    pub target: String,
    pub argv: Vec<String>,
    pub cwd: String,
}

/// How one argument crosses the boundary: an absolute host path under the
/// shared mount is translated, anything else is passed through unchanged.
pub open spec fn translated_arg(a: Seq<char>) -> Seq<char> {
    if is_mapped_host_path(a) {
        sub_path_of(a)
    } else {
        a
    }
}

/// Builds the subsystem-side command line for one launcher invocation.
/// Succeeds exactly when the working directory is under the shared mount;
/// an untranslatable one is an error, never a silently wrong directory.
pub fn plan_invocation(launcher_path: &str, ctx: &InvocationContext) -> (r: Result<
    InvocationPlan,
    LinkError,
>)
    ensures
        r is Ok <==> is_mapped_host_path(ctx.cwd@),
        r is Err ==> r->Err_0 == LinkError::UnmappablePath,
        r is Ok ==> {
            let plan = r->Ok_0;
            &&& plan.target@ == basename_spec(launcher_path@)
            &&& plan.cwd@ == sub_path_of(ctx.cwd@)
            &&& plan.argv.deep_view() == ctx.argv.deep_view().map_values(
                |a: Seq<char>| translated_arg(a),
            )
        },
{
    let cwd = match to_subsystem_path(ctx.cwd.as_str()) {
        Ok(c) => c,
        Err(e) => {
            return Err(e);
        },
    };
    let target = basename(launcher_path);
    let n = ctx.argv.len();
    let mut argv: Vec<String> = Vec::new();
    let mut i: usize = 0;
    while i < n
        invariant
            i <= n,
            n == ctx.argv@.len(),
            argv@.len() == i,
            forall|j: int|
                0 <= j < i ==> #[trigger] argv@[j]@ == translated_arg(ctx.argv@[j]@),
        decreases n - i,
    {
        match to_subsystem_path(ctx.argv[i].as_str()) {
            Ok(t) => argv.push(t),
            Err(_) => argv.push(ctx.argv[i].clone()),
        }
        i = i + 1;
    }
    proof {
        assert(argv.deep_view() =~= ctx.argv.deep_view().map_values(
            |a: Seq<char>| translated_arg(a),
        )) by {
            assert forall|j: int| 0 <= j < n implies argv.deep_view()[j] == ctx.argv.deep_view()
                .map_values(|a: Seq<char>| translated_arg(a))[j] by {
                assert(argv.deep_view()[j] == argv@[j]@);
                assert(ctx.argv.deep_view()[j] == ctx.argv@[j]@);
            }
        }
    }
    Ok(InvocationPlan { target, argv, cwd })
}

/// The reserved exit code reported when the subsystem process cannot be
/// started at all. A target program's own exit code is one byte (0 to 255),
/// so this value can never collide with a legitimate result.
pub const SUBSYSTEM_UNAVAILABLE_EXIT_CODE: i32 = 256;

/// How one launch ended: the child exited with a code, or it could never be
/// started (subsystem not installed, distribution not running).
#[derive(Clone, Copy, Debug, PartialEq, Eq, Structural)]
pub enum LaunchOutcome {
    Exited(u8),
    LaunchFailed,
}

/// The exit code the launcher itself reports: the child's own code,
/// unchanged, or the reserved [`SUBSYSTEM_UNAVAILABLE_EXIT_CODE`], which is
/// distinct from every code a target program could produce.
pub fn relay_exit_code(outcome: &LaunchOutcome) -> (code: i32)
    ensures
        forall|n: u8| *outcome == LaunchOutcome::Exited(n) ==> code == n as i32,
        *outcome == LaunchOutcome::LaunchFailed ==> code == SUBSYSTEM_UNAVAILABLE_EXIT_CODE,
        outcome is Exited <==> 0 <= code <= 255,
        outcome is LaunchFailed <==> code > 255,
{
    match outcome {
        LaunchOutcome::Exited(n) => *n as i32,
        LaunchOutcome::LaunchFailed => SUBSYSTEM_UNAVAILABLE_EXIT_CODE,
    }
}

/// Where one invocation stands.
#[derive(Clone, Copy, Debug, PartialEq, Eq, Structural)]
pub enum RedirectorPhase {
    Idle,
    Translating,
    Launched,
    Relaying,
    Terminated,
}

/// What moved it: the launcher started, translation finished one way or the
/// other, the launch did, or the child exited.
#[derive(Clone, Copy, Debug, PartialEq, Eq, Structural)]
pub enum RedirectorEvent {
    Invoked,
    TranslationSucceeded,
    TranslationFailed,
    LaunchSucceeded,
    LaunchFailed,
    ChildExited,
}

/// The redirector's state machine: any translation failure terminates it
/// directly, a launch failure or a normal child exit terminates it from the
/// later phases, and no transition ever retries. An event that makes no
/// sense in the current phase leaves the phase as it is.
pub open spec fn phase_after(p: RedirectorPhase, e: RedirectorEvent) -> RedirectorPhase {
    match (p, e) {
        (RedirectorPhase::Idle, RedirectorEvent::Invoked) => RedirectorPhase::Translating,
        (RedirectorPhase::Translating, RedirectorEvent::TranslationSucceeded) => RedirectorPhase::Launched,
        (RedirectorPhase::Translating, RedirectorEvent::TranslationFailed) => RedirectorPhase::Terminated,
        (RedirectorPhase::Launched, RedirectorEvent::LaunchSucceeded) => RedirectorPhase::Relaying,
        (RedirectorPhase::Launched, RedirectorEvent::LaunchFailed) => RedirectorPhase::Terminated,
        (RedirectorPhase::Relaying, RedirectorEvent::ChildExited) => RedirectorPhase::Terminated,
        _ => p,
    }
}

/// Advances the redirector by one event, exactly as [`phase_after`] says.
pub fn redirector_step(p: RedirectorPhase, e: RedirectorEvent) -> (q: RedirectorPhase)
    ensures
        q == phase_after(p, e),
{
    match (p, e) {
        (RedirectorPhase::Idle, RedirectorEvent::Invoked) => RedirectorPhase::Translating,
        (RedirectorPhase::Translating, RedirectorEvent::TranslationSucceeded) => RedirectorPhase::Launched,
        (RedirectorPhase::Translating, RedirectorEvent::TranslationFailed) => RedirectorPhase::Terminated,
        (RedirectorPhase::Launched, RedirectorEvent::LaunchSucceeded) => RedirectorPhase::Relaying,
        (RedirectorPhase::Launched, RedirectorEvent::LaunchFailed) => RedirectorPhase::Terminated,
        (RedirectorPhase::Relaying, RedirectorEvent::ChildExited) => RedirectorPhase::Terminated,
        _ => p,
    }
}

/// A terminated redirector stays terminated: no retry exists in this path.
pub proof fn lemma_terminated_is_final(e: RedirectorEvent)
    ensures
        phase_after(RedirectorPhase::Terminated, e) == RedirectorPhase::Terminated,
{
}

} // verus!
