use ide_engine::process::{
    cwd_directive, exit_event, kill_invocation, missing_cwd_warning, resolve_cwd,
    shell_invocation, spawn_failure_event, stderr_event, stdout_event, ProcessRegistry,
};

#[test]
fn terminate_untracked_pid_fails_and_changes_nothing() {
    let mut reg = ProcessRegistry::new();
    reg.register(10);
    let r = reg.begin_termination(99);
    assert_eq!(r, Err("process not found".to_string()));
    assert_eq!(reg.len(), 1);
    assert!(reg.tracks(10));
}

#[test]
fn second_termination_of_same_pid_fails() {
    let mut reg = ProcessRegistry::new();
    reg.register(5);
    reg.register(7);
    assert_eq!(reg.begin_termination(5), Ok(()));
    assert!(!reg.tracks(5));
    assert!(reg.tracks(7));
    assert_eq!(reg.begin_termination(5), Err("process not found".to_string()));
    assert_eq!(reg.len(), 1);
}

#[test]
fn register_is_idempotent_per_pid() {
    let mut reg = ProcessRegistry::new();
    reg.register(3);
    reg.register(3);
    assert_eq!(reg.len(), 1);
    assert_eq!(reg.begin_termination(3), Ok(()));
    assert_eq!(reg.begin_termination(3), Err("process not found".to_string()));
}

#[test]
fn stream_events_carry_their_origin() {
    let out = stdout_event("hello".to_string());
    assert_eq!(out.output, "hello");
    assert!(!out.is_error);
    assert!(!out.is_final);
    let err = stderr_event("oops".to_string());
    assert_eq!(err.output, "oops");
    assert!(err.is_error);
    assert!(!err.is_final);
}

#[test]
fn exit_event_is_final_summary() {
    let ev = exit_event("exit status: 0");
    assert_eq!(ev.output, "Process exited with: exit status: 0");
    assert!(!ev.is_error);
    assert!(ev.is_final);
}

#[test]
fn spawn_failure_event_is_final_error() {
    let ev = spawn_failure_event("no such file");
    assert_eq!(ev.output, "Failed to start command: no such file");
    assert!(ev.is_error);
    assert!(ev.is_final);
}

#[test]
fn missing_cwd_yields_warning_but_not_final() {
    let (use_cwd, warn) = cwd_directive(false);
    assert!(!use_cwd);
    let w = warn.unwrap();
    assert_eq!(w.output, "Warning: Working directory does not exist.");
    assert!(w.is_error);
    assert!(!w.is_final);
    let direct = missing_cwd_warning();
    assert_eq!(direct.output, w.output);
    let (use_cwd2, warn2) = cwd_directive(true);
    assert!(use_cwd2);
    assert!(warn2.is_none());
}

#[test]
fn resolve_cwd_substitutes_placeholder() {
    assert_eq!(resolve_cwd("${workspaceFolder}/build", "/home/me/proj"), "/home/me/proj/build");
    assert_eq!(resolve_cwd("/tmp", "/home/me/proj"), "/tmp");
    assert_eq!(
        resolve_cwd("${workspaceFolder}:${workspaceFolder}", "/p"),
        "/p:/p"
    );
}

#[test]
fn shell_invocation_per_platform() {
    let (prog, args) = shell_invocation("make all", false);
    assert_eq!(prog, "sh");
    assert_eq!(args, vec!["-c".to_string(), "make all".to_string()]);
    let (prog, args) = shell_invocation("make all", true);
    assert_eq!(prog, "cmd");
    assert_eq!(args, vec!["/C".to_string(), "make all".to_string()]);
}

#[test]
fn kill_invocation_per_platform() {
    let (prog, args) = kill_invocation(4321, false);
    assert_eq!(prog, "kill");
    assert_eq!(args, vec!["-9".to_string(), "4321".to_string()]);
    let (prog, args) = kill_invocation(4321, true);
    assert_eq!(prog, "taskkill");
    assert_eq!(args, vec!["/F".to_string(), "/PID".to_string(), "4321".to_string()]);
}
