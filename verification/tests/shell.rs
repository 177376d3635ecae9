use mystic_update::shell::{
    build_shell_command, read_shell_status, shell_escape, ShellHelper, ShellStep,
};
use mystic_update::stream::LineStream;

#[test]
fn words_are_quoted() {
    assert_eq!(shell_escape(""), "''");
    assert_eq!(shell_escape("a b"), "'a b'");
    assert_eq!(shell_escape("it's"), "'it'\\''s'");
    let args = vec!["$x".to_string(), String::new()];
    assert_eq!(build_shell_command("echo", &args), "'echo' '$x' ''");
}

#[test]
fn shell_command_ends_with_its_mark() {
    let mut shell = ShellHelper::new();
    let (line, _) = shell.begin("a", &Vec::new());
    assert_eq!(line, "'a'; status=$?; printf '__MYSTIC_DONE_1__%d\\n' $status\n");
    let (line, mut reply) = shell.begin("b", &vec!["c".to_string()]);
    assert_eq!(line, "'b' 'c'; status=$?; printf '__MYSTIC_DONE_2__%d\\n' $status\n");
    assert!(matches!(reply.on_line(b"out\n"), ShellStep::ReadLine));
    assert!(matches!(reply.on_line(b"__MYSTIC_DONE_1__0\n"), ShellStep::ReadLine));
    assert!(matches!(reply.on_line(b"\xff\n"), ShellStep::ReadLine));
    assert!(matches!(reply.on_line(b"__MYSTIC_DONE_2__-4\n"), ShellStep::Done(-4)));
    assert_eq!(reply.output, b"out\n__MYSTIC_DONE_1__0\n\xff\n".to_vec());
}

#[test]
fn shell_counter_begins_again() {
    let mut shell = ShellHelper { counter: u64::MAX };
    let (_, reply) = shell.begin("a", &Vec::new());
    assert_eq!(reply.token, "__MYSTIC_DONE_0__");
}

#[test]
fn shell_may_fail() {
    let mut shell = ShellHelper::new();
    let (_, mut reply) = shell.begin("a", &Vec::new());
    match reply.on_line(b"__MYSTIC_DONE_1__x\n") {
        ShellStep::Fail(reason) => assert_eq!(reason, "invalid shell helper status"),
        other => panic!("{other:?}"),
    }
    match reply.on_line(b"") {
        ShellStep::Fail(reason) => {
            assert_eq!(reason, "privileged shell helper closed the connection");
        }
        other => panic!("{other:?}"),
    }
    assert!(matches!(read_shell_status(" 12 \n"), ShellStep::Done(12)));
    assert!(matches!(read_shell_status(""), ShellStep::Fail(_)));
}

#[test]
fn lines_of_a_stream_are_shown() {
    let mut stream = LineStream::new();
    assert_eq!(stream.feed(b" one \ntw"), vec!["one"]);
    assert_eq!(stream.feed(b"o\r\n\n(3/4"), vec!["two"]);
    assert_eq!(stream.finish(), Some("(3/4".to_string()));
    assert_eq!(stream.feed(b")\r"), vec!["(3/4)"]);
    assert_eq!(stream.finish(), None);
}

#[test]
fn pieces_of_a_stream_do_not_matter() {
    let text = "a\nbc \r\rd\n\n e";
    let mut whole = LineStream::new();
    let mut expected = whole.feed_text(text);
    expected.extend(whole.finish());
    assert_eq!(expected, vec!["a", "bc", "d", "e"]);
    for cut in 0..=text.len() {
        let mut stream = LineStream::new();
        let mut got = stream.feed_text(&text[..cut]);
        got.extend(stream.feed_text(&text[cut..]));
        got.extend(stream.finish());
        assert_eq!(got, expected);
    }
}

#[test]
fn each_piece_of_a_stream_is_decoded_alone() {
    let mut stream = LineStream::new();
    assert_eq!(stream.feed(b"x\xc3"), Vec::<String>::new());
    assert_eq!(stream.feed(b"\xa9\n"), vec!["x\u{fffd}\u{fffd}"]);
}
