use mystic_update::command::{
    is_apt_lock_error, is_apt_program, log_line, run_command_with_optional_apt_retry, AptRetry,
    Attempts, CommandRun, RetryStep,
};

const LOCKED: &[u8] = b"E: Could not get LOCK /var/lib/dpkg/lock\n";

#[test]
fn command_is_logged() {
    let args = vec!["update".to_string(), "-y".to_string()];
    assert_eq!(log_line("dnf", &args, true), "$ pkexec dnf update -y\n");
    assert_eq!(log_line("dnf", &Vec::new(), false), "$ dnf \n");
}

#[test]
fn lock_is_told_in_any_case() {
    assert!(is_apt_lock_error("E: Could not GET lock /var/lib/dpkg/lock"));
    assert!(is_apt_lock_error("Waiting for cache lock\u{130}"));
    assert!(is_apt_lock_error("IS HELD BY PROCESS 7"));
    assert!(!is_apt_lock_error("Could not get lock: Permission Denied"));
    assert!(!is_apt_lock_error("all well"));
}

#[test]
fn only_programs_of_apt_are_repeated() {
    assert!(is_apt_program("apt"));
    assert!(is_apt_program("apt-get"));
    assert!(!is_apt_program("aptitude"));
    assert!(matches!(run_command_with_optional_apt_retry("snap"), Attempts::Once));
    match run_command_with_optional_apt_retry("snap").attempted(LOCKED, 100) {
        RetryStep::Done(run) => {
            assert_eq!((run.bytes.as_slice(), run.status_code, run.apt_lock), (LOCKED, 100, false));
        }
        other => panic!("{other:?}"),
    }
}

#[test]
fn locked_command_is_repeated_with_growing_delay() {
    let mut attempts = run_command_with_optional_apt_retry("apt-get");
    let mut delays = Vec::new();
    let run = loop {
        match attempts.attempted(LOCKED, 100) {
            RetryStep::Wait { secs, retry } => {
                delays.push(secs);
                attempts = Attempts::WhileLocked(retry);
            }
            RetryStep::Done(run) => break run,
        }
    };
    assert_eq!(delays, vec![5, 10, 20, 30, 30, 30, 30, 30, 30, 30, 30, 30]);
    assert!(run.apt_lock);
    assert_eq!(run.status_code, 100);
    let text = run.report().text;
    assert!(text.contains(
        "\n[mystic-update] APT lock detected; retrying in 20s (attempt 3/12)...\n"
    ));
    assert!(text.ends_with(
        "\n[mystic-update] APT lock still held after 13 attempts; giving up.\n"
    ));
}

#[test]
fn unlocked_command_ends() {
    match AptRetry::new().attempted(LOCKED, 100) {
        RetryStep::Wait { retry, .. } => match retry.attempted(b"done\n", 0) {
            RetryStep::Done(run) => {
                assert!(!run.apt_lock);
                assert_eq!(run.status_code, 0);
                assert!(run.report().text.ends_with("(attempt 1/12)...\ndone\n"));
            }
            other => panic!("{other:?}"),
        },
        other => panic!("{other:?}"),
    }
}

#[test]
fn output_is_decoded() {
    let run = CommandRun { bytes: b"a\xffb".to_vec(), status_code: 4, apt_lock: true };
    let report = run.report();
    assert_eq!(report.text, "a\u{fffd}b");
    assert_eq!((report.status_code, report.apt_lock), (4, true));
    let run = CommandRun { bytes: "\u{e9}".as_bytes().to_vec(), status_code: 0, apt_lock: false };
    assert_eq!(run.report().text, "\u{e9}");
}
