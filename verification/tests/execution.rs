use colmena::execution::{
    CommandExecution, CommandSpec, ExecutionError, ExitState, ProcessOutcome,
};

fn nix_build() -> CommandSpec {
    CommandSpec {
        program: "nix-build".to_string(),
        args: vec!["hive.nix".to_string(), "-A".to_string(), "nodes".to_string()],
        envs: vec![("NIX_PATH".to_string(), "nixpkgs=/nix".to_string())],
        current_dir: Some("/srv/hive".to_string()),
    }
}

fn exited(stdout: &str, stderr: &str, code: Option<i32>, signal: Option<i32>) -> ProcessOutcome {
    ProcessOutcome::Exited {
        stdout: stdout.to_string(),
        stderr: stderr.to_string(),
        status: ExitState { code, signal },
    }
}

fn logs(exec: &CommandExecution) -> (Option<String>, Option<String>) {
    let (out, err) = exec.get_logs();
    (out.cloned(), err.cloned())
}

#[test]
fn no_logs_before_the_first_run() {
    let exec = CommandExecution::new(nix_build());
    assert_eq!(exec.get_logs(), (None, None));
}

#[test]
fn execution_keeps_its_command() {
    let mut exec = CommandExecution::new(nix_build());
    assert_eq!(exec.command().program, "nix-build");
    assert_eq!(exec.command().args, vec!["hive.nix", "-A", "nodes"]);
    assert_eq!(exec.command().current_dir.as_deref(), Some("/srv/hive"));
    exec.run(exited("", "", Some(0), None)).unwrap();
    assert_eq!(exec.command().program, "nix-build");
    assert_eq!(exec.command().envs.len(), 1);
}

#[test]
fn exit_code_zero_is_success() {
    let mut exec = CommandExecution::new(nix_build());
    assert!(exec.run(exited("out\n", "err\n", Some(0), None)).is_ok());
    assert_eq!(logs(&exec), (Some("out\n".to_string()), Some("err\n".to_string())));
}

#[test]
fn other_exit_code_is_a_failure_that_carries_it() {
    for code in [1, 2, 100, 255, -1, i32::MAX, i32::MIN] {
        let mut exec = CommandExecution::new(nix_build());
        match exec.run(exited("some output\n", "error: build failed\n", Some(code), None)) {
            Err(ExecutionError::Failure { exit_code }) => assert_eq!(exit_code, code),
            other => panic!("exit code {} gave {:?}", code, other),
        }
        assert_eq!(
            logs(&exec),
            (Some("some output\n".to_string()), Some("error: build failed\n".to_string()))
        );
    }
}

#[test]
fn signal_is_a_failure_that_carries_it() {
    let mut exec = CommandExecution::new(nix_build());
    match exec.run(exited("partial\n", "", None, Some(9))) {
        Err(ExecutionError::Killed { signal }) => assert_eq!(signal, 9),
        other => panic!("a killed process gave {:?}", other),
    }
    assert_eq!(logs(&exec), (Some("partial\n".to_string()), Some(String::new())));
}

#[test]
fn exit_code_zero_with_a_signal_is_no_success() {
    let mut exec = CommandExecution::new(nix_build());
    assert!(matches!(
        exec.run(exited("", "", Some(0), Some(15))),
        Err(ExecutionError::Killed { signal: 15 })
    ));
    assert!(matches!(
        exec.run(exited("", "", Some(3), Some(15))),
        Err(ExecutionError::Failure { exit_code: 3 })
    ));
}

#[test]
fn end_without_code_or_signal_is_a_failure() {
    let mut exec = CommandExecution::new(nix_build());
    assert!(matches!(exec.run(exited("", "", None, None)), Err(ExecutionError::Unknown)));
}

#[test]
fn failed_spawn_is_an_io_failure_with_empty_logs() {
    let mut exec = CommandExecution::new(nix_build());
    let outcome = ProcessOutcome::SpawnFailed { message: "No such file or directory".to_string() };
    match exec.run(outcome) {
        Err(ExecutionError::Io { message }) => assert_eq!(message, "No such file or directory"),
        other => panic!("a failed spawn gave {:?}", other),
    }
    assert_eq!(logs(&exec), (Some(String::new()), Some(String::new())));
}

#[test]
fn failed_wait_is_an_io_failure_that_keeps_the_logs() {
    let mut exec = CommandExecution::new(nix_build());
    let outcome = ProcessOutcome::WaitFailed {
        stdout: "a\n".to_string(),
        stderr: "b\n".to_string(),
        message: "interrupted".to_string(),
    };
    match exec.run(outcome) {
        Err(ExecutionError::Io { message }) => assert_eq!(message, "interrupted"),
        other => panic!("a failed wait gave {:?}", other),
    }
    assert_eq!(logs(&exec), (Some("a\n".to_string()), Some("b\n".to_string())));
}

#[test]
fn a_later_run_replaces_the_logs() {
    let mut exec = CommandExecution::new(nix_build());
    exec.run(exited("first\n", "", Some(0), None)).unwrap();
    let _ = exec.run(exited("second\n", "oops\n", Some(1), None));
    assert_eq!(logs(&exec), (Some("second\n".to_string()), Some("oops\n".to_string())));
}

#[test]
fn exit_state_knows_success() {
    assert!(ExitState { code: Some(0), signal: None }.success());
    assert!(!ExitState { code: Some(1), signal: None }.success());
    assert!(!ExitState { code: None, signal: Some(2) }.success());
    assert!(!ExitState { code: Some(0), signal: Some(2) }.success());
    assert!(!ExitState { code: None, signal: None }.success());
    assert!(ExitState { code: Some(0), signal: None }.into_result().is_ok());
    assert!(matches!(
        ExitState { code: Some(7), signal: None }.into_result(),
        Err(ExecutionError::Failure { exit_code: 7 })
    ));
}
