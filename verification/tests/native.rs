use std::path::PathBuf;

use zeptoclaw::launch::Stream;
use zeptoclaw::native::{
    env_passthrough, kill_target, scrubbed_env, ChildOutcome, CommandOutput, ContainerConfig,
    NativeRuntime, RuntimeError,
};
use zeptoclaw::perms::OWNER_ONLY_MODE;

fn entries(list: &[(&str, &str)]) -> Vec<(String, String)> {
    list.iter()
        .map(|(name, value)| (name.to_string(), value.to_string()))
        .collect()
}

/// What a host with these variables answers.
fn answers(host: &[(&str, &str)]) -> Vec<Option<String>> {
    env_passthrough()
        .into_iter()
        .map(|name| {
            host.iter()
                .find(|entry| entry.0 == name)
                .map(|entry| entry.1.to_string())
        })
        .collect()
}

fn config(env: &[(&str, &str)]) -> ContainerConfig {
    ContainerConfig {
        workdir: None,
        env: entries(env),
        timeout_secs: 5,
    }
}

fn exited(stdout: &[u8], stderr: &[u8], code: Option<i32>) -> CommandOutput {
    let outcome = ChildOutcome::Exited {
        stdout: stdout.to_vec(),
        stderr: stderr.to_vec(),
        code,
    };
    let conclusion = NativeRuntime::new().conclude(outcome, 5);
    assert!(!conclusion.kill_tree);
    conclusion.result.unwrap()
}

#[test]
fn test_native_runtime_available() {
    let runtime = NativeRuntime::new();
    assert!(runtime.is_available());
}

#[test]
fn test_native_runtime_name() {
    let runtime = NativeRuntime::new();
    assert_eq!(runtime.name(), "native");
    assert_eq!(NativeRuntime::default().name(), "native");
}

#[test]
fn command_runs_in_a_shell_of_its_own_group() {
    let plain = config(&[]);
    let launch = NativeRuntime::new().plan("echo hello", &plain, &answers(&[]));
    assert_eq!(launch.program, "sh");
    assert_eq!(launch.args, ["-c", "echo hello"]);
    assert!(launch.clear_env);
    assert!(launch.env.is_empty());
    assert!(launch.workdir.is_none());
    assert!(launch.own_process_group);
    assert_eq!(launch.stdin, Stream::Null);
    assert_eq!(launch.stdout, Stream::Piped);
    assert_eq!(launch.stderr, Stream::Piped);
}

#[test]
fn workdir_is_passed_on() {
    let mut with_dir = config(&[]);
    with_dir.workdir = Some(PathBuf::from("/tmp"));
    let launch = NativeRuntime::new().plan("pwd", &with_dir, &answers(&[]));
    assert_eq!(launch.workdir, Some(&PathBuf::from("/tmp")));
}

#[test]
fn host_secrets_are_stripped() {
    let host = answers(&[
        ("ZEPTOCLAW_SCRUB_PROBE", "leak"),
        ("TZ", "UTC"),
        ("AWS_SECRET_ACCESS_KEY", "leak"),
        ("PATH", "/bin"),
    ]);
    let env = scrubbed_env(&host, &entries(&[("TEST_VAR", "test_value")]));
    assert_eq!(
        env,
        entries(&[("PATH", "/bin"), ("TZ", "UTC"), ("TEST_VAR", "test_value")])
    );
}

#[test]
fn configured_variables_come_last_and_are_all_kept() {
    let host = answers(&[("HOME", "/root")]);
    let extra = entries(&[("HOME", "/a"), ("X", "1"), ("X", "2"), ("SECRET", "given")]);
    let with_env = ContainerConfig {
        workdir: None,
        env: extra,
        timeout_secs: 5,
    };
    let launch = NativeRuntime::new().plan("env", &with_env, &host);
    assert_eq!(
        launch.env,
        entries(&[
            ("HOME", "/root"),
            ("HOME", "/a"),
            ("X", "1"),
            ("X", "2"),
            ("SECRET", "given"),
        ])
    );
}

#[test]
fn every_whitelisted_name_is_let_through() {
    let names = env_passthrough();
    assert_eq!(
        names,
        [
            "PATH",
            "HOME",
            "USER",
            "SHELL",
            "TERM",
            "LANG",
            "LC_ALL",
            "TMPDIR",
            "TZ",
            "HTTP_PROXY",
            "HTTPS_PROXY",
            "NO_PROXY",
            "http_proxy",
            "https_proxy",
            "no_proxy",
            "SSL_CERT_FILE",
            "SSL_CERT_DIR",
            "SSH_AUTH_SOCK",
        ]
    );
    let host: Vec<Option<String>> = names.iter().map(|name| Some(name.to_lowercase())).collect();
    let env = scrubbed_env(&host, &Vec::new());
    let kept: Vec<&str> = env.iter().map(|entry| entry.0.as_str()).collect();
    assert_eq!(kept, names);
    assert!(env.iter().all(|entry| entry.1 == entry.0.to_lowercase()));
}

#[test]
fn output_is_decoded() {
    let output = exited(b"hello\n", "err\u{f6}r\n".as_bytes(), Some(0));
    assert!(output.success());
    assert_eq!(output.stdout.trim(), "hello");
    assert_eq!(output.stderr, "err\u{f6}r\n");

    let output = exited(b"a\xffb", b"\xc3", Some(0));
    assert_eq!(output.stdout, "a\u{fffd}b");
    assert_eq!(output.stderr, "\u{fffd}");
}

#[test]
fn exit_code_is_reported() {
    let output = exited(b"", b"", Some(42));
    assert!(!output.success());
    assert_eq!(output.exit_code, Some(42));

    let output = exited(b"", b"", None);
    assert!(!output.success());
    assert_eq!(output.exit_code, None);
}

#[test]
fn timeout_kills_the_tree() {
    let conclusion = NativeRuntime::new().conclude(ChildOutcome::TimedOut, 1);
    assert!(conclusion.kill_tree);
    assert!(matches!(conclusion.result, Err(RuntimeError::Timeout(1))));
}

#[test]
fn failures_are_reported_with_their_reason() {
    for outcome in [
        ChildOutcome::SpawnFailed("no shell".into()),
        ChildOutcome::WaitFailed("no shell".into()),
    ] {
        let conclusion = NativeRuntime::new().conclude(outcome, 1);
        assert!(!conclusion.kill_tree);
        match conclusion.result {
            Err(RuntimeError::ExecutionFailed(reason)) => assert_eq!(reason, "no shell"),
            result => panic!("{:?}", result),
        }
    }
}

#[test]
fn process_group_is_the_negated_identifier() {
    assert_eq!(kill_target(None), None);
    assert_eq!(kill_target(Some(1)), Some(-1));
    assert_eq!(kill_target(Some(1234)), Some(-1234));
    assert_eq!(kill_target(Some(i32::MAX as u32)), Some(-i32::MAX));
}

#[test]
fn secret_files_are_for_their_owner_only() {
    assert_eq!(OWNER_ONLY_MODE & 0o777, 0o600);
}
