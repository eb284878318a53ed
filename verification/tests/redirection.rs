use wsllink::error::LinkError;
use wsllink::redirect::{
    plan_invocation, redirector_step, relay_exit_code, InvocationContext, LaunchOutcome,
    RedirectorEvent, RedirectorPhase, SUBSYSTEM_UNAVAILABLE_EXIT_CODE,
};

#[test]
fn plan_translates_cwd_and_path_arguments() {
    let ctx = InvocationContext {
        argv: vec![
            "-r".to_string(),
            "needle; rm -rf $HOME".to_string(),
            "C:\\src\\tree".to_string(),
        ],
        cwd: "C:\\work".to_string(),
    };
    let plan = plan_invocation("C:\\links\\grep.exe", &ctx).unwrap();
    assert_eq!(plan.target, "grep");
    assert_eq!(plan.cwd, "/mnt/C/work");
    assert_eq!(
        plan.argv,
        vec!["-r", "needle; rm -rf $HOME", "/mnt/C/src/tree"]
    );
}

#[test]
fn plan_fails_on_untranslatable_cwd() {
    let ctx = InvocationContext {
        argv: vec![],
        cwd: "\\\\server\\share".to_string(),
    };
    assert!(matches!(
        plan_invocation("C:\\links\\grep.exe", &ctx),
        Err(LinkError::UnmappablePath)
    ));
}

#[test]
fn exit_codes_relay_unchanged() {
    assert_eq!(relay_exit_code(&LaunchOutcome::Exited(0)), 0);
    assert_eq!(relay_exit_code(&LaunchOutcome::Exited(7)), 7);
    assert_eq!(relay_exit_code(&LaunchOutcome::Exited(255)), 255);
}

#[test]
fn launch_failure_uses_reserved_code() {
    let code = relay_exit_code(&LaunchOutcome::LaunchFailed);
    assert_eq!(code, SUBSYSTEM_UNAVAILABLE_EXIT_CODE);
    assert!(code > 255);
    assert_ne!(code, 0);
}

#[test]
fn phases_follow_the_happy_path() {
    let p = RedirectorPhase::Idle;
    let p = redirector_step(p, RedirectorEvent::Invoked);
    assert_eq!(p, RedirectorPhase::Translating);
    let p = redirector_step(p, RedirectorEvent::TranslationSucceeded);
    assert_eq!(p, RedirectorPhase::Launched);
    let p = redirector_step(p, RedirectorEvent::LaunchSucceeded);
    assert_eq!(p, RedirectorPhase::Relaying);
    let p = redirector_step(p, RedirectorEvent::ChildExited);
    assert_eq!(p, RedirectorPhase::Terminated);
}

#[test]
fn translation_failure_terminates_directly() {
    let p = redirector_step(RedirectorPhase::Translating, RedirectorEvent::TranslationFailed);
    assert_eq!(p, RedirectorPhase::Terminated);
    let p = redirector_step(RedirectorPhase::Launched, RedirectorEvent::LaunchFailed);
    assert_eq!(p, RedirectorPhase::Terminated);
    let p = redirector_step(RedirectorPhase::Terminated, RedirectorEvent::Invoked);
    assert_eq!(p, RedirectorPhase::Terminated);
}
