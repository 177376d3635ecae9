//! Commands for a privileged shell, and its answers.

use crate::decode::{decode, decoded_of};
use crate::helper::push_bytes;
use crate::number::{
    decimal, decimal_of, is_digit, law_signed_round_trip, lemma_decimal, parse_i32,
    signed_decimal_of, signed_of,
};
use crate::text::{chars_of, lemma_trim_line, strings, trim, trim_of};
use vstd::prelude::*;
use vstd::slice::slice_subrange;
use vstd::utf8::{
    encode_utf8, encode_utf8_decode_utf8, encode_utf8_valid_utf8, is_ascii_chars,
    is_ascii_chars_encode_utf8,
};

verus! {

/// The characters of `value` as they stand between single quotes.
pub open spec fn quoted_body_of(value: Seq<char>) -> Seq<char>
    decreases value.len(),
{
    if value.len() == 0 {
        Seq::empty()
    } else if value.last() == '\'' {
        quoted_body_of(value.drop_last()) + "'\\''"@
    } else {
        quoted_body_of(value.drop_last()).push(value.last())
    }
}

/// `value` as one word of a shell command.
pub open spec fn shell_escape_of(value: Seq<char>) -> Seq<char> {
    "'"@ + quoted_body_of(value) + "'"@
}

/// The arguments as words, each with a space before it.
pub open spec fn shell_args_of(args: Seq<Seq<char>>) -> Seq<char>
    decreases args.len(),
{
    if args.len() == 0 {
        Seq::empty()
    } else {
        shell_args_of(args.drop_last()) + " "@ + shell_escape_of(args.last())
    }
}

/// The shell command that runs a program with arguments.
pub open spec fn shell_command_of(program: Seq<char>, args: Seq<Seq<char>>) -> Seq<char> {
    shell_escape_of(program) + shell_args_of(args)
}

/// `value` as one word of a shell command.
pub fn shell_escape(value: &str) -> (r: String)
    ensures
        r@ == shell_escape_of(value@),
{
    let chars = chars_of(value);
    let mut escaped = "'".to_string();
    let mut i: usize = 0;
    assert("'"@ + quoted_body_of(chars@.take(0)) =~= "'"@);
    while i < chars.len()
        invariant
            i <= chars@.len(),
            escaped@ == "'"@ + quoted_body_of(chars@.take(i as int)),
        decreases chars@.len() - i,
    {
        let ghost next = chars@.take(i + 1);
        assert(next.drop_last() =~= chars@.take(i as int));
        if chars[i] == '\'' {
            escaped.append("'\\''");
        } else {
            escaped.push(chars[i]);
        }
        assert(escaped@ =~= "'"@ + quoted_body_of(next));
        i += 1;
    }
    assert(chars@.take(chars@.len() as int) =~= chars@);
    escaped.append("'");
    escaped
}

/// The shell command that runs a program with arguments.
pub fn build_shell_command(program: &str, args: &Vec<String>) -> (r: String)
    ensures
        r@ == shell_command_of(program@, strings(args@)),
{
    let mut command = shell_escape(program);
    let ghost head = command@;
    let ghost all = strings(args@);
    let mut i: usize = 0;
    assert(head + shell_args_of(all.take(0)) =~= head);
    while i < args.len()
        invariant
            i <= args@.len(),
            all == strings(args@),
            command@ == head + shell_args_of(all.take(i as int)),
        decreases args@.len() - i,
    {
        command.append(" ");
        let word = shell_escape(args[i].as_str());
        command.append(word.as_str());
        assert(all.take(i + 1).drop_last() =~= all.take(i as int));
        assert(command@ =~= head + shell_args_of(all.take(i + 1)));
        i += 1;
    }
    assert(all.take(all.len() as int) =~= all);
    command
}

/// How a shell reads the next character.
pub enum ShellMode {
    /// Outside quotes.
    Plain,
    /// Between single quotes, where every character but the closing quote stands for itself.
    Quoted,
    /// Behind a backslash outside quotes, where the next character stands for itself.
    Escaped,
    /// Not at all: a character came up outside quotes that is none of those above.
    Lost,
}

/// What a shell has read of a command: the words before, and the word it is in, if it is in one.
pub struct ShellReading {
    pub words: Seq<Seq<char>>,
    pub word: Option<Seq<char>>,
    pub mode: ShellMode,
}

/// The word so far, with `c` behind it.
pub open spec fn word_with(word: Option<Seq<char>>, c: char) -> Option<Seq<char>> {
    match word {
        Some(w) => Some(w.push(c)),
        None => Some(seq![c]),
    }
}

/// The word so far, which begins here where there is none.
pub open spec fn word_begun(word: Option<Seq<char>>) -> Option<Seq<char>> {
    match word {
        Some(w) => Some(w),
        None => Some(Seq::empty()),
    }
}

/// How a shell reads one character, as far as quotes, backslashes and spaces go.
pub open spec fn shell_reads(r: ShellReading, c: char) -> ShellReading {
    match r.mode {
        ShellMode::Quoted => if c == '\'' {
            ShellReading { mode: ShellMode::Plain, ..r }
        } else {
            ShellReading { word: word_with(r.word, c), ..r }
        },
        ShellMode::Escaped => ShellReading {
            word: word_with(r.word, c),
            mode: ShellMode::Plain,
            ..r
        },
        ShellMode::Plain => if c == '\'' {
            ShellReading { word: word_begun(r.word), mode: ShellMode::Quoted, ..r }
        } else if c == '\\' {
            ShellReading { word: word_begun(r.word), mode: ShellMode::Escaped, ..r }
        } else if c == ' ' {
            match r.word {
                Some(w) => ShellReading { words: r.words.push(w), word: None, ..r },
                None => r,
            }
        } else {
            ShellReading { mode: ShellMode::Lost, ..r }
        },
        ShellMode::Lost => r,
    }
}

/// How a shell reads text.
pub open spec fn shell_reads_all(r: ShellReading, s: Seq<char>) -> ShellReading
    decreases s.len(),
{
    if s.len() == 0 {
        r
    } else {
        shell_reads(shell_reads_all(r, s.drop_last()), s.last())
    }
}

/// The words that a shell makes of a command, as far as quotes, backslashes and spaces go.
pub open spec fn shell_words_of(command: Seq<char>) -> Option<Seq<Seq<char>>> {
    let start = ShellReading { words: Seq::empty(), word: None, mode: ShellMode::Plain };
    let end = shell_reads_all(start, command);
    match end.mode {
        ShellMode::Plain => match end.word {
            Some(w) => Some(end.words.push(w)),
            None => Some(end.words),
        },
        _ => None,
    }
}

/// Reading text in two parts is reading it whole.
proof fn lemma_reads_parts(r: ShellReading, a: Seq<char>, b: Seq<char>)
    ensures
        shell_reads_all(r, a + b) == shell_reads_all(shell_reads_all(r, a), b),
    decreases b.len(),
{
    if b.len() == 0 {
        assert(a + b =~= a);
    } else {
        lemma_reads_parts(r, a, b.drop_last());
        assert((a + b).drop_last() =~= a + b.drop_last());
    }
}

/// Between quotes the body of a value is read as the value.
proof fn lemma_reads_body(r: ShellReading, w: Seq<char>, value: Seq<char>)
    requires
        r.mode is Quoted,
        r.word == Some(w),
    ensures
        shell_reads_all(r, quoted_body_of(value)) == (ShellReading { word: Some(w + value), ..r }),
    decreases value.len(),
{
    if value.len() == 0 {
        assert(w + value =~= w);
    } else {
        let front = value.drop_last();
        lemma_reads_body(r, w, front);
        let mid = ShellReading { word: Some(w + front), ..r };
        if value.last() == '\'' {
            reveal_strlit("'\\''");
            let part = "'\\''"@;
            lemma_reads_parts(r, quoted_body_of(front), part);
            assert(part =~= seq!['\'', '\\', '\'', '\'']);
            assert(part.drop_last() =~= seq!['\'', '\\', '\'']);
            assert(part.drop_last().drop_last() =~= seq!['\'', '\\']);
            assert(part.drop_last().drop_last().drop_last() =~= seq!['\'']);
            assert(part.drop_last().drop_last().drop_last().drop_last() =~= Seq::empty());
            reveal_with_fuel(shell_reads_all, 5);
            assert((w + front).push('\'') =~= w + value);
        } else {
            let body = quoted_body_of(front);
            assert(body.push(value.last()).drop_last() =~= body);
            assert((w + front).push(value.last()) =~= w + value);
        }
    }
}

/// Outside quotes and words an escaped value is read as one word.
proof fn lemma_reads_escape(r: ShellReading, value: Seq<char>)
    requires
        r.mode is Plain,
        r.word is None,
    ensures
        shell_reads_all(r, shell_escape_of(value)) == (ShellReading { word: Some(value), ..r }),
{
    reveal_strlit("'");
    let quote = "'"@;
    assert(quote =~= seq!['\'']);
    assert(quote.drop_last() =~= Seq::empty());
    reveal_with_fuel(shell_reads_all, 2);
    let open = ShellReading { word: Some(Seq::empty()), mode: ShellMode::Quoted, ..r };
    assert(shell_reads_all(r, quote) == open);
    lemma_reads_parts(r, quote, quoted_body_of(value));
    lemma_reads_body(open, Seq::empty(), value);
    assert(Seq::<char>::empty() + value =~= value);
    lemma_reads_parts(r, quote + quoted_body_of(value), quote);
}

/// Escaped arguments are read as words.
proof fn lemma_reads_args(r: ShellReading, first: Seq<char>, args: Seq<Seq<char>>)
    requires
        r.mode is Plain,
        r.word == Some(first),
    ensures
        ({
            let end = shell_reads_all(r, shell_args_of(args));
            &&& end.mode is Plain
            &&& end.word is Some
            &&& end.words.push(end.word->0) == r.words.push(first) + args
        }),
    decreases args.len(),
{
    if args.len() == 0 {
        assert(r.words.push(first) + args =~= r.words.push(first));
    } else {
        let front = args.drop_last();
        lemma_reads_args(r, first, front);
        let mid = shell_reads_all(r, shell_args_of(front));
        reveal_strlit(" ");
        let space = " "@;
        assert(space =~= seq![' ']);
        assert(space.drop_last() =~= Seq::empty());
        lemma_reads_parts(r, shell_args_of(front), space);
        let next = ShellReading { words: mid.words.push(mid.word->0), word: None, ..mid };
        assert(shell_reads_all(mid, space) == next) by {
            reveal_with_fuel(shell_reads_all, 2);
        }
        lemma_reads_escape(next, args.last());
        lemma_reads_parts(r, shell_args_of(front) + space, shell_escape_of(args.last()));
        assert(r.words.push(first) + args =~= (r.words.push(first) + front).push(args.last()));
    }
}

/// A shell makes of the command the program and the arguments that went into it, whatever
/// characters they hold.
pub proof fn law_shell_command(program: Seq<char>, args: Seq<Seq<char>>)
    ensures
        shell_words_of(shell_command_of(program, args)) == Some(seq![program] + args),
{
    let start = ShellReading { words: Seq::empty(), word: None, mode: ShellMode::Plain };
    lemma_reads_escape(start, program);
    let mid = ShellReading { word: Some(program), ..start };
    lemma_reads_parts(start, shell_escape_of(program), shell_args_of(args));
    lemma_reads_args(mid, program, args);
    assert(Seq::<Seq<char>>::empty().push(program) + args =~= seq![program] + args);
}

/// The mark that ends the output of a command.
pub open spec fn token_of(counter: u64) -> Seq<char> {
    "__MYSTIC_DONE_"@ + decimal_of(counter as nat) + "__"@
}

/// The line that has the shell run a command and print the mark and the status behind it.
pub open spec fn shell_line_of(
    program: Seq<char>,
    args: Seq<Seq<char>>,
    token: Seq<char>,
) -> Seq<char> {
    shell_command_of(program, args) + "; status=$?; printf '"@ + token + "%d\\n' $status\n"@
}

/// The counter after one more command; it begins again behind the greatest number.
pub open spec fn next_counter(counter: u64) -> u64 {
    if counter == u64::MAX {
        0
    } else {
        (counter + 1) as u64
    }
}

/// A privileged shell, which counts its commands.
#[derive(Debug)]
pub struct ShellHelper {
    pub counter: u64,
}

/// An answer of the shell that is being read.
#[derive(Debug)]
pub struct ShellReply {
    pub token: String,
    pub output: Vec<u8>,
}

/// What to do after a line of the shell's answer.
#[derive(Debug)]
pub enum ShellStep {
    /// Read another line.
    ReadLine,
    /// Stop: the command has ended with this status.
    Done(i32),
    /// Stop: there is no answer.
    Fail(String),
}

/// What to do after a line of the shell's answer, as characters.
pub enum ShellStepModel {
    ReadLine,
    Done(int),
    Fail(Seq<char>),
}

impl View for ShellStep {
    type V = ShellStepModel;

    open spec fn view(&self) -> ShellStepModel {
        match self {
            ShellStep::ReadLine => ShellStepModel::ReadLine,
            ShellStep::Done(status) => ShellStepModel::Done(*status as int),
            ShellStep::Fail(reason) => ShellStepModel::Fail(reason@),
        }
    }
}

impl ShellHelper {
    /// A shell that has run no command.
    pub fn new() -> (r: Self)
        ensures
            r.counter == 0,
    {
        ShellHelper { counter: 0 }
    }

    /// The line to send for a command, and the answer to expect.
    pub fn begin(&mut self, program: &str, args: &Vec<String>) -> (r: (String, ShellReply))
        ensures
            final(self).counter == next_counter(old(self).counter),
            r.0@ == shell_line_of(program@, strings(args@), token_of(final(self).counter)),
            r.1.token@ == token_of(final(self).counter),
            r.1.output@ == Seq::<u8>::empty(),
    {
        self.counter = if self.counter == u64::MAX {
            0
        } else {
            self.counter + 1
        };
        let mut token = "__MYSTIC_DONE_".to_string();
        let digits = decimal(self.counter);
        token.append(digits.as_str());
        token.append("__");
        let mut line = build_shell_command(program, args);
        line.append("; status=$?; printf '");
        line.append(token.as_str());
        line.append("%d\\n' $status\n");
        (line, ShellReply { token, output: Vec::new() })
    }
}

/// The status that the text behind the mark gives, or what is wrong with it.
pub open spec fn shell_status_of(text: Seq<char>) -> Result<int, Seq<char>> {
    match signed_of(trim_of(text)) {
        Some(status) => Ok(status),
        None => Err("invalid shell helper status"@),
    }
}

/// What to do with the text behind the mark.
pub fn read_shell_status(text: &str) -> (r: ShellStep)
    ensures
        match shell_status_of(text@) {
            Ok(status) => r matches ShellStep::Done(s) && s == status,
            Err(error) => r matches ShellStep::Fail(e) && e@ == error,
        },
{
    let chars = chars_of(text);
    match parse_i32(trim(&chars)) {
        Some(status) => ShellStep::Done(status),
        None => ShellStep::Fail("invalid shell helper status".to_string()),
    }
}

/// Whether `bytes` begin with `prefix`.
fn begins_with(bytes: &[u8], prefix: &[u8]) -> (r: bool)
    ensures
        r == prefix@.is_prefix_of(bytes@),
{
    if prefix.len() > bytes.len() {
        return false;
    }
    let mut i: usize = 0;
    while i < prefix.len()
        invariant
            i <= prefix@.len() <= bytes@.len(),
            forall|k: int| 0 <= k < i ==> bytes@[k] == prefix@[k],
        decreases prefix@.len() - i,
    {
        if bytes[i] != prefix[i] {
            assert(bytes@.take(prefix@.len() as int)[i as int] != prefix@[i as int]);
            return false;
        }
        i += 1;
    }
    assert(bytes@.take(prefix@.len() as int) =~= prefix@);
    true
}

/// What to do after a line of the answer that the mark ends: a line that begins with the mark gives
/// the status, and any other is output. No bytes stand for the end of the stream.
pub open spec fn shell_answer_of(token: Seq<char>, line: Seq<u8>) -> ShellStepModel {
    let mark = encode_utf8(token);
    if line.len() == 0 {
        ShellStepModel::Fail("privileged shell helper closed the connection"@)
    } else if mark.is_prefix_of(line) {
        match shell_status_of(decoded_of(line.skip(mark.len() as int))) {
            Ok(status) => ShellStepModel::Done(status),
            Err(error) => ShellStepModel::Fail(error),
        }
    } else {
        ShellStepModel::ReadLine
    }
}

impl ShellReply {
    /// Takes a line with its line feed, or no bytes at the end of the stream. A line that begins
    /// with the mark gives the status; any other line is output.
    pub fn on_line(&mut self, line: &[u8]) -> (r: ShellStep)
        ensures
            final(self).token == old(self).token,
            r@ == shell_answer_of(old(self).token@, line@),
            final(self).output@ == if r is ReadLine {
                old(self).output@ + line@
            } else {
                old(self).output@
            },
    {
        if line.len() == 0 {
            return ShellStep::Fail("privileged shell helper closed the connection".to_string());
        }
        let mark = self.token.as_str().as_bytes();
        if begins_with(line, mark) {
            let rest = slice_subrange(line, mark.len(), line.len());
            assert(rest@ =~= line@.skip(mark@.len() as int));
            let text = decode(rest);
            return read_shell_status(text.as_str());
        }
        push_bytes(&mut self.output, line);
        ShellStep::ReadLine
    }
}

/// The line that the shell prints behind the output of a command gives the status that it was
/// printed with.
pub proof fn law_shell_status(counter: u64, status_code: i32)
    ensures
        ({
            let mark = encode_utf8(token_of(counter));
            let line = encode_utf8(
                token_of(counter) + signed_decimal_of(status_code as int) + "\n"@,
            );
            &&& mark.is_prefix_of(line)
            &&& shell_status_of(decoded_of(line.skip(mark.len() as int))) == Ok::<int, Seq<char>>(
                status_code as int,
            )
        }),
{
    reveal_strlit("__MYSTIC_DONE_");
    reveal_strlit("__");
    reveal_strlit("\n");
    let token = token_of(counter);
    let code = signed_decimal_of(status_code as int);
    let tail = code + "\n"@;
    lemma_decimal(counter as nat);
    assert(is_ascii_chars(token)) by {
        assert forall|i: int| 0 <= i < token.len() implies '\0' <= #[trigger] token[i]
            <= '\u{7f}' by {
            let n = "__MYSTIC_DONE_"@.len();
            if n <= i < n + decimal_of(counter as nat).len() {
                assert(is_digit(decimal_of(counter as nat)[i - n]));
            }
        }
    }
    if status_code < 0 {
        lemma_decimal((-status_code) as nat);
    } else {
        lemma_decimal(status_code as nat);
    }
    assert forall|i: int| 0 <= i < code.len() implies is_digit(#[trigger] code[i]) || code[i]
        == '-' by {
        if status_code < 0 && i > 0 {
            assert(code[i] == decimal_of((-status_code) as nat)[i - 1]);
        }
    }
    assert(is_ascii_chars(tail)) by {
        assert forall|i: int| 0 <= i < tail.len() implies '\0' <= #[trigger] tail[i]
            <= '\u{7f}' by {
            if i < code.len() {
                assert(tail[i] == code[i]);
            }
        }
    }
    let whole = token + code + "\n"@;
    assert(whole =~= token + tail);
    assert(is_ascii_chars(whole)) by {
        assert forall|i: int| 0 <= i < whole.len() implies '\0' <= #[trigger] whole[i]
            <= '\u{7f}' by {
            if i < token.len() {
                assert(whole[i] == token[i]);
            } else {
                assert(whole[i] == tail[i - token.len()]);
            }
        }
    }
    is_ascii_chars_encode_utf8(token);
    is_ascii_chars_encode_utf8(tail);
    is_ascii_chars_encode_utf8(whole);
    let mark = encode_utf8(token);
    let line = encode_utf8(whole);
    assert(line.take(mark.len() as int) =~= mark);
    assert(line.skip(mark.len() as int) =~= encode_utf8(tail));
    encode_utf8_valid_utf8(tail);
    encode_utf8_decode_utf8(tail);
    assert(is_digit(code[0]) || code[0] == '-');
    assert(is_digit(code[code.len() - 1]) || code[code.len() - 1] == '-');
    lemma_trim_line(code, '\n');
    assert(tail =~= code + seq!['\n']);
    law_signed_round_trip(status_code);
}

/// No two commands in a row have the same mark, so that the end of one is not taken for the end of
/// the next: two marks are the same only where the counters are.
pub proof fn law_marks_differ(a: u64, b: u64)
    ensures
        token_of(a) == token_of(b) ==> a == b,
        next_counter(a) != a,
        a < u64::MAX ==> next_counter(a) == a + 1,
{
    if token_of(a) == token_of(b) {
        let head = "__MYSTIC_DONE_"@;
        let tail = "__"@;
        let x = decimal_of(a as nat);
        let y = decimal_of(b as nat);
        lemma_decimal(a as nat);
        lemma_decimal(b as nat);
        assert(token_of(a).len() == head.len() + x.len() + tail.len());
        assert(token_of(b).len() == head.len() + y.len() + tail.len());
        assert(token_of(a).subrange(head.len() as int, (head.len() + x.len()) as int) =~= x);
        assert(token_of(b).subrange(head.len() as int, (head.len() + y.len()) as int) =~= y);
    }
}

/// What is no number behind the mark is an error.
pub proof fn law_shell_status_rejects(text: Seq<char>)
    ensures
        signed_of(trim_of(text)) is None ==> shell_status_of(text) == Err::<int, Seq<char>>(
            "invalid shell helper status"@,
        ),
{
}

/// The line that is sent has the shell run the command, and then print the mark, the status of the
/// command and a line feed.
pub proof fn law_shell_line(program: Seq<char>, args: Seq<Seq<char>>, counter: u64)
    ensures
        shell_line_of(program, args, token_of(counter)) == shell_command_of(program, args)
            + "; status=$?; printf '"@ + ("__MYSTIC_DONE_"@ + decimal_of(counter as nat) + "__"@)
            + "%d\\n' $status\n"@,
{
}

/// The answer ends with the line that the shell prints behind the output, and with its status;
/// every line that does not begin with the mark is output, whatever it holds. Where the stream ends
/// before that, there is no answer.
pub proof fn law_shell_answer(counter: u64, status_code: i32, line: Seq<u8>)
    ensures
        shell_answer_of(
            token_of(counter),
            encode_utf8(token_of(counter) + signed_decimal_of(status_code as int) + "\n"@),
        ) == ShellStepModel::Done(status_code as int),
        line.len() > 0 && !encode_utf8(token_of(counter)).is_prefix_of(line) ==> shell_answer_of(
            token_of(counter),
            line,
        ) is ReadLine,
        shell_answer_of(token_of(counter), Seq::empty()) == ShellStepModel::Fail(
            "privileged shell helper closed the connection"@,
        ),
{
    law_shell_status(counter, status_code);
    let token = token_of(counter);
    let whole = token + signed_decimal_of(status_code as int) + "\n"@;
    reveal_strlit("__MYSTIC_DONE_");
    assert(token[0] == '_');
    assert(encode_utf8(whole).len() > 0) by {
        if encode_utf8(whole).len() == 0 {
            assert(encode_utf8(token).len() == 0);
            encode_utf8_decode_utf8(token);
            encode_utf8_valid_utf8(token);
            encode_utf8_decode_utf8(whole);
        }
    }
}

} // verus!
