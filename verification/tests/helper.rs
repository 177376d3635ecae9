use mystic_update::helper::{
    answer, read_status, request_line, run, send_response, HelperAction, HelperReply, ProcessOutput,
    ReplyStep,
};

fn args(list: &[&str]) -> Vec<String> {
    list.iter().map(|arg| arg.to_string()).collect()
}

#[test]
fn response_frames_bytes_and_status() {
    assert_eq!(send_response(b"a\nb", -3), b"OUT 3\na\nb\nSTATUS -3\n".to_vec());
    assert_eq!(send_response(b"", 0), b"OUT 0\n\nSTATUS 0\n".to_vec());
}

#[test]
fn request_is_split_into_words() {
    match run("RUN apt-get  upgrade -y\n") {
        HelperAction::Spawn { program, args } => {
            assert_eq!(program, "apt-get");
            assert_eq!(args, vec!["upgrade".to_string(), "-y".to_string()]);
        }
        other => panic!("{other:?}"),
    }
}

#[test]
fn helper_ignores_what_it_does_not_know() {
    assert!(matches!(run("  \n"), HelperAction::Ignore));
    assert!(matches!(run("run x\n"), HelperAction::Ignore));
    assert!(matches!(run("RUNX y\n"), HelperAction::Ignore));
    assert!(matches!(run(" EXIT \n"), HelperAction::Exit));
    assert!(matches!(run("EXIT now\n"), HelperAction::Ignore));
    match run("RUN\n") {
        HelperAction::Reply(bytes) => assert_eq!(bytes, send_response(b"missing program", 1)),
        other => panic!("{other:?}"),
    }
}

#[test]
fn helper_answers_with_both_streams() {
    let output =
        ProcessOutput { stdout: b"out".to_vec(), stderr: b"err".to_vec(), code: Some(2) };
    assert_eq!(answer("x", Ok(output)), send_response(b"outerr", 2));
    let killed = ProcessOutput { stdout: Vec::new(), stderr: Vec::new(), code: None };
    assert_eq!(answer("x", Ok(killed)), send_response(b"", 1));
    let failed = answer("x", Err("not found".to_string()));
    assert_eq!(failed, send_response(b"failed to run x: not found", 1));
}

#[test]
fn request_arrives_as_it_was_sent() {
    let line = request_line("dnf", &args(&["update", "-y"]));
    assert_eq!(line, "RUN dnf update -y\n");
    match run(&line) {
        HelperAction::Spawn { program, args: got } => {
            assert_eq!((program.as_str(), got), ("dnf", args(&["update", "-y"])));
        }
        other => panic!("{other:?}"),
    }
}

#[test]
fn reply_arrives_as_it_was_sent() {
    let sent = send_response("h\u{e9}llo\n".as_bytes(), 7);
    let text = String::from_utf8(sent).unwrap();
    let mut reply = HelperReply::new();
    match reply.on_line("OUT 7\n") {
        ReplyStep::ReadBytes(count) => assert_eq!(count, 7),
        other => panic!("{other:?}"),
    }
    assert_eq!(text, "OUT 7\nh\u{e9}llo\n\nSTATUS 7\n");
    assert_eq!(read_status("STATUS 7\n"), Ok(7));
}

#[test]
fn reply_may_fail() {
    let mut reply = HelperReply::new();
    assert!(matches!(reply.on_line("  \n"), ReplyStep::ReadLine));
    match reply.on_line("") {
        ReplyStep::Fail(reason) => assert_eq!(reason, "privileged helper closed the connection"),
        other => panic!("{other:?}"),
    }
    assert!(matches!(reply.on_line(" denied \n"), ReplyStep::ReadLine));
    assert!(matches!(reply.on_line("again\n"), ReplyStep::ReadLine));
    match reply.on_line("") {
        ReplyStep::Fail(reason) => assert_eq!(reason, "denied\nagain"),
        other => panic!("{other:?}"),
    }
    match HelperReply::new().on_line("OUT many\n") {
        ReplyStep::Fail(reason) => assert_eq!(reason, "invalid output length"),
        other => panic!("{other:?}"),
    }
}

#[test]
fn reply_preamble_is_bounded_in_bytes() {
    let line = "\u{e9}".repeat(2048);
    let mut reply = HelperReply::new();
    assert!(matches!(reply.on_line(&line), ReplyStep::ReadLine));
    match reply.on_line("x\n") {
        ReplyStep::Fail(reason) => assert_eq!(reason, format!("{line}\nx")),
        other => panic!("{other:?}"),
    }
}

#[test]
fn status_line_may_be_wrong() {
    assert_eq!(read_status("STATUS -1 \n"), Ok(-1));
    assert_eq!(read_status("DONE\n"), Err("invalid helper status".to_string()));
    assert_eq!(read_status("STATUS x\n"), Err("invalid status code".to_string()));
    assert_eq!(read_status(""), Err("invalid helper status".to_string()));
}
