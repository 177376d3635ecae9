//! The protocol between the updater and its privileged helper.
//!
//! The updater sends one line for each command, `RUN` with the program and its arguments. The
//! helper answers with a line `OUT` and a length, that many bytes, a line feed, and a line
//! `STATUS` with the exit status.

use crate::number::{
    decimal, decimal_of, is_digit, law_signed_round_trip, law_unsigned_round_trip,
    lemma_decimal, parse_i32, parse_unsigned, signed_decimal, signed_decimal_of, signed_of,
    unsigned_of,
};
use crate::text::{
    chars_of, equals, is_blank, is_tight, is_white_space, is_word, law_trim, law_trim_start,
    law_words, lemma_trim_line, lemma_trim_start, lemma_trimmed, lemma_trimmed_start,
    lemma_word_len, lemma_words_cons, lemma_words_one, starts_with, string_of, strings, texts,
    trim, trim_end, trim_end_of, trim_of, trim_start_of, word_len, words, words_of,
};
use vstd::prelude::*;
use vstd::slice::slice_subrange;
use vstd::utf8::{encode_utf8, is_ascii_chars, is_ascii_chars_encode_utf8};

verus! {

/// What the helper does for one line.
#[derive(Debug)]
pub enum HelperAction {
    /// Nothing; the next line is read.
    Ignore,
    /// It ends.
    Exit,
    /// It sends these bytes.
    Reply(Vec<u8>),
    /// It runs the program and sends what comes of it.
    Spawn { program: String, args: Vec<String> },
}

/// What the helper does for one line, as characters.
pub enum HelperModel {
    Ignore,
    Exit,
    Reply(Seq<u8>),
    Spawn { program: Seq<char>, args: Seq<Seq<char>> },
}

impl View for HelperAction {
    type V = HelperModel;

    open spec fn view(&self) -> HelperModel {
        match self {
            HelperAction::Ignore => HelperModel::Ignore,
            HelperAction::Exit => HelperModel::Exit,
            HelperAction::Reply(bytes) => HelperModel::Reply(bytes@),
            HelperAction::Spawn { program, args } => HelperModel::Spawn {
                program: program@,
                args: strings(args@),
            },
        }
    }
}

/// The line that tells how many bytes of output follow.
pub open spec fn out_line_of(len: nat) -> Seq<char> {
    "OUT "@ + decimal_of(len) + "\n"@
}

/// The line that tells the exit status.
pub open spec fn status_line_of(status_code: i32) -> Seq<char> {
    "STATUS "@ + signed_decimal_of(status_code as int) + "\n"@
}

/// The bytes of the helper's answer.
pub open spec fn response_of(bytes: Seq<u8>, status_code: i32) -> Seq<u8> {
    encode_utf8(out_line_of(bytes.len())) + bytes + encode_utf8("\n"@) + encode_utf8(
        status_line_of(status_code),
    )
}

/// Appends the bytes of `s`.
fn push_text(out: &mut Vec<u8>, s: &str)
    ensures
        final(out)@ == old(out)@ + encode_utf8(s@),
{
    push_bytes(out, s.as_bytes());
}

/// Appends `bytes`.
pub fn push_bytes(out: &mut Vec<u8>, bytes: &[u8])
    ensures
        final(out)@ == old(out)@ + bytes@,
{
    let mut i: usize = 0;
    assert(out@ =~= out@ + bytes@.take(0));
    while i < bytes.len()
        invariant
            i <= bytes@.len(),
            out@ == old(out)@ + bytes@.take(i as int),
        decreases bytes@.len() - i,
    {
        out.push(bytes[i]);
        assert(out@ =~= old(out)@ + bytes@.take(i + 1));
        i += 1;
    }
    assert(bytes@.take(bytes@.len() as int) =~= bytes@);
}

/// The bytes with which the helper answers.
pub fn send_response(bytes: &[u8], status_code: i32) -> (r: Vec<u8>)
    ensures
        r@ == response_of(bytes@, status_code),
{
    let mut first = "OUT ".to_string();
    let digits = decimal(bytes.len() as u64);
    first.append(digits.as_str());
    first.append("\n");
    let mut last = "STATUS ".to_string();
    let digits = signed_decimal(status_code);
    last.append(digits.as_str());
    last.append("\n");
    let mut out: Vec<u8> = Vec::new();
    push_text(&mut out, first.as_str());
    assert(out@ =~= encode_utf8(out_line_of(bytes@.len())));
    push_bytes(&mut out, bytes);
    push_text(&mut out, "\n");
    push_text(&mut out, last.as_str());
    out
}

/// What the helper does for a line.
pub open spec fn helper_action_of(line: Seq<char>) -> HelperModel {
    let trimmed = trim_of(line);
    let parts = words_of(trimmed);
    if trimmed == "EXIT"@ {
        HelperModel::Exit
    } else if parts.len() == 0 || parts[0] != "RUN"@ {
        HelperModel::Ignore
    } else if parts.len() == 1 {
        HelperModel::Reply(response_of(encode_utf8("missing program"@), 1))
    } else {
        HelperModel::Spawn { program: parts[1], args: parts.skip(2) }
    }
}

/// Strings with the characters of `parts`, from the third on.
fn arguments(parts: &Vec<&[char]>) -> (r: Vec<String>)
    requires
        parts@.len() >= 2,
    ensures
        strings(r@) == texts(parts@).skip(2),
{
    let mut out: Vec<String> = Vec::new();
    let mut i: usize = 2;
    while i < parts.len()
        invariant
            2 <= i <= parts@.len(),
            strings(out@) == texts(parts@).subrange(2, i as int),
        decreases parts@.len() - i,
    {
        let ghost before = out@;
        out.push(string_of(parts[i]));
        assert(strings(out@) =~= strings(before).push(parts@[i as int]@));
        assert(texts(parts@).subrange(2, i + 1) =~= texts(parts@).subrange(2, i as int).push(
            parts@[i as int]@,
        ));
        i += 1;
    }
    assert(texts(parts@).subrange(2, parts@.len() as int) =~= texts(parts@).skip(2));
    out
}

/// What the helper does for a line that it has read.
pub fn run(line: &str) -> (r: HelperAction)
    ensures
        r@ == helper_action_of(line@),
{
    let chars = chars_of(line);
    let trimmed = trim(&chars);
    if equals(trimmed, "EXIT") {
        return HelperAction::Exit;
    }
    let parts = words(trimmed);
    assert(texts(parts@).len() == parts@.len());
    if parts.len() == 0 {
        return HelperAction::Ignore;
    }
    assert(texts(parts@)[0] == parts@[0]@);
    if !equals(parts[0], "RUN") {
        return HelperAction::Ignore;
    }
    if parts.len() == 1 {
        return HelperAction::Reply(send_response("missing program".as_bytes(), 1));
    }
    assert(texts(parts@)[1] == parts@[1]@);
    HelperAction::Spawn { program: string_of(parts[1]), args: arguments(&parts) }
}

/// What came out of a program that has ended.
#[derive(Debug)]
pub struct ProcessOutput {
    pub stdout: Vec<u8>,
    pub stderr: Vec<u8>,
    /// The exit status; none where a signal ended the program.
    pub code: Option<i32>,
}

impl ProcessOutput {
    /// Both streams, the error stream last.
    pub open spec fn bytes(&self) -> Seq<u8> {
        self.stdout@ + self.stderr@
    }

    /// The exit status, or 1 where there is none.
    pub open spec fn status(&self) -> i32 {
        match self.code {
            Some(code) => code,
            None => 1,
        }
    }

    /// Both streams as one, and the exit status, or 1 where there is none.
    pub fn combine(self) -> (r: (Vec<u8>, i32))
        ensures
            r.0@ == self.bytes(),
            r.1 == self.status(),
    {
        let mut combined = self.stdout;
        push_bytes(&mut combined, self.stderr.as_slice());
        let status = match self.code {
            Some(code) => code,
            None => 1,
        };
        (combined, status)
    }
}

/// The helper's answer after it tried to run `program`.
pub open spec fn answer_of(program: Seq<char>, outcome: Result<ProcessOutput, String>) -> Seq<u8> {
    match outcome {
        Ok(output) => response_of(output.bytes(), output.status()),
        Err(error) => response_of(encode_utf8("failed to run "@ + program + ": "@ + error@), 1),
    }
}

/// The helper's answer after it tried to run `program`.
pub fn answer(program: &str, outcome: Result<ProcessOutput, String>) -> (r: Vec<u8>)
    ensures
        r@ == answer_of(program@, outcome),
{
    match outcome {
        Ok(output) => {
            let (bytes, status) = output.combine();
            send_response(bytes.as_slice(), status)
        },
        Err(error) => {
            let mut message = "failed to run ".to_string();
            message.append(program);
            message.append(": ");
            message.append(error.as_str());
            send_response(message.as_str().as_bytes(), 1)
        },
    }
}

/// The arguments, each with a space before it.
pub open spec fn spaced_of(args: Seq<Seq<char>>) -> Seq<char>
    decreases args.len(),
{
    if args.len() == 0 {
        Seq::empty()
    } else {
        spaced_of(args.drop_last()) + " "@ + args.last()
    }
}

/// The line that asks the helper to run a program.
pub open spec fn request_of(program: Seq<char>, args: Seq<Seq<char>>) -> Seq<char> {
    "RUN "@ + program + spaced_of(args) + "\n"@
}

/// The line that asks the helper to run a program.
pub fn request_line(program: &str, args: &Vec<String>) -> (r: String)
    ensures
        r@ == request_of(program@, strings(args@)),
{
    let mut line = "RUN ".to_string();
    line.append(program);
    let ghost head = line@;
    let ghost all = strings(args@);
    let mut i: usize = 0;
    assert(head + spaced_of(all.take(0)) =~= head);
    while i < args.len()
        invariant
            i <= args@.len(),
            all == strings(args@),
            line@ == head + spaced_of(all.take(i as int)),
        decreases args@.len() - i,
    {
        line.append(" ");
        line.append(args[i].as_str());
        assert(all.take(i + 1).drop_last() =~= all.take(i as int));
        assert(line@ =~= head + spaced_of(all.take(i + 1)));
        i += 1;
    }
    assert(all.take(all.len() as int) =~= all);
    line.append("\n");
    line
}

/// What to read next of the helper's answer.
#[derive(Debug)]
pub enum ReplyStep {
    /// Another line.
    ReadLine,
    /// This many bytes, a line feed, and the line with the status.
    ReadBytes(usize),
    /// Nothing: there is no answer.
    Fail(String),
}

/// What to read next of the helper's answer, as characters.
pub enum ReplyModel {
    ReadLine,
    ReadBytes(int),
    Fail(Seq<char>),
}

impl View for ReplyStep {
    type V = ReplyModel;

    open spec fn view(&self) -> ReplyModel {
        match self {
            ReplyStep::ReadLine => ReplyModel::ReadLine,
            ReplyStep::ReadBytes(n) => ReplyModel::ReadBytes(*n as int),
            ReplyStep::Fail(reason) => ReplyModel::Fail(reason@),
        }
    }
}

/// The lines before the answer, with one more that is not empty.
pub open spec fn preamble_with(preamble: Seq<char>, line: Seq<char>) -> Seq<char> {
    if trim_of(line).len() == 0 {
        preamble
    } else if preamble.len() == 0 {
        trim_end_of(line)
    } else {
        preamble + "\n"@ + trim_end_of(line)
    }
}

/// How many bytes of lines before the answer are too many.
pub const PREAMBLE_LIMIT: usize = 4096;

/// What a line means for the answer; an empty line stands for the end of the stream.
pub open spec fn reply_step_of(preamble: Seq<char>, line: Seq<char>) -> ReplyModel {
    if line.len() == 0 {
        if trim_of(preamble).len() == 0 {
            ReplyModel::Fail("privileged helper closed the connection"@)
        } else {
            ReplyModel::Fail(trim_of(preamble))
        }
    } else if "OUT "@.is_prefix_of(line) {
        match unsigned_of(trim_of(line.skip(4)), usize::MAX as int) {
            Some(n) => ReplyModel::ReadBytes(n),
            None => ReplyModel::Fail("invalid output length"@),
        }
    } else if encode_utf8(preamble_with(preamble, line)).len() > PREAMBLE_LIMIT {
        ReplyModel::Fail(trim_of(preamble_with(preamble, line)))
    } else {
        ReplyModel::ReadLine
    }
}

/// The lines before the answer, after one more line.
pub open spec fn preamble_after(preamble: Seq<char>, line: Seq<char>) -> Seq<char> {
    if line.len() == 0 || "OUT "@.is_prefix_of(line) {
        preamble
    } else {
        preamble_with(preamble, line)
    }
}

/// An answer of the helper that is being read.
#[derive(Debug)]
pub struct HelperReply {
    pub preamble: String,
}

impl HelperReply {
    /// An answer of which nothing has been read.
    pub fn new() -> (r: Self)
        ensures
            r.preamble@ == Seq::<char>::empty(),
    {
        HelperReply { preamble: String::new() }
    }

    /// Takes a line with its line feed, or an empty text at the end of the stream.
    pub fn on_line(&mut self, line: &str) -> (r: ReplyStep)
        ensures
            r@ == reply_step_of(old(self).preamble@, line@),
            final(self).preamble@ == preamble_after(old(self).preamble@, line@),
    {
        let chars = chars_of(line);
        if chars.len() == 0 {
            let before = chars_of(self.preamble.as_str());
            let trimmed = trim(&before);
            if trimmed.len() == 0 {
                return ReplyStep::Fail("privileged helper closed the connection".to_string());
            }
            return ReplyStep::Fail(string_of(trimmed));
        }
        if starts_with(&chars, "OUT ") {
            proof {
                reveal_strlit("OUT ");
            }
            let number = slice_subrange(&chars, 4, chars.len());
            assert(number@ =~= line@.skip(4));
            return match parse_unsigned(trim(number), usize::MAX as u64) {
                Some(n) => ReplyStep::ReadBytes(n as usize),
                None => ReplyStep::Fail("invalid output length".to_string()),
            };
        }
        if trim(&chars).len() > 0 {
            let text = string_of(trim_end(&chars));
            if self.preamble.as_str().is_empty() {
                self.preamble = text;
            } else {
                self.preamble.append("\n");
                self.preamble.append(text.as_str());
            }
        }
        if self.preamble.as_str().as_bytes().len() > PREAMBLE_LIMIT {
            let before = chars_of(self.preamble.as_str());
            return ReplyStep::Fail(string_of(trim(&before)));
        }
        ReplyStep::ReadLine
    }
}

/// The exit status that the last line of the answer gives, or what is wrong with it.
pub open spec fn status_of(line: Seq<char>) -> Result<int, Seq<char>> {
    if "STATUS "@.is_prefix_of(line) {
        match signed_of(trim_of(line.skip(7))) {
            Some(status) => Ok(status),
            None => Err("invalid status code"@),
        }
    } else {
        Err("invalid helper status"@)
    }
}

/// The exit status that the last line of the answer gives.
pub fn read_status(line: &str) -> (r: Result<i32, String>)
    ensures
        match r {
            Ok(status) => status_of(line@) == Ok::<int, Seq<char>>(status as int),
            Err(error) => status_of(line@) == Err::<int, Seq<char>>(error@),
        },
{
    let chars = chars_of(line);
    if !starts_with(&chars, "STATUS ") {
        return Err("invalid helper status".to_string());
    }
    proof {
        reveal_strlit("STATUS ");
    }
    let number = slice_subrange(&chars, 7, chars.len());
    assert(number@ =~= line@.skip(7));
    match parse_i32(trim(number)) {
        Some(status) => Ok(status),
        None => Err("invalid status code".to_string()),
    }
}

/// Words with single spaces between them have those words.
proof fn lemma_spaced_words(head: Seq<char>, args: Seq<Seq<char>>)
    requires
        is_word(head),
        forall|i: int| 0 <= i < args.len() ==> is_word(#[trigger] args[i]),
    ensures
        words_of(head + spaced_of(args)) == seq![head] + args,
        !is_white_space((head + spaced_of(args)).last()),
    decreases args.len(),
{
    reveal_strlit(" ");
    if args.len() == 0 {
        lemma_words_one(head);
        assert(head + spaced_of(args) =~= head);
        assert(seq![head] + args =~= seq![head]);
        assert(is_word(head) && !is_white_space(head[head.len() - 1]));
    } else {
        let rest = args.skip(1);
        assert forall|i: int| 0 <= i < rest.len() implies is_word(#[trigger] rest[i]) by {
            assert(rest[i] == args[i + 1]);
        }
        lemma_spaced_words(args[0], rest);
        lemma_spaced_first(args);
        lemma_words_cons(head, ' ', args[0] + spaced_of(rest));
        assert(head + spaced_of(args) =~= head + seq![' '] + (args[0] + spaced_of(rest)));
        assert(seq![head] + args =~= seq![head] + (seq![args[0]] + rest));
        assert((head + spaced_of(args)).last() == (args[0] + spaced_of(rest)).last());
    }
}

/// The first of the arguments with a space before it, and then the others.
proof fn lemma_spaced_first(args: Seq<Seq<char>>)
    requires
        args.len() > 0,
    ensures
        spaced_of(args) == " "@ + args[0] + spaced_of(args.skip(1)),
    decreases args.len(),
{
    if args.len() == 1 {
        assert(args.drop_last() =~= Seq::<Seq<char>>::empty());
        assert(args.skip(1) =~= Seq::<Seq<char>>::empty());
        assert(spaced_of(args) =~= " "@ + args[0] + spaced_of(args.skip(1)));
    } else {
        let front = args.drop_last();
        lemma_spaced_first(front);
        assert(front.skip(1) =~= args.skip(1).drop_last());
        assert(spaced_of(args) =~= " "@ + args[0] + spaced_of(args.skip(1)));
    }
}

/// The helper runs the program that it is asked to run, with the arguments that it is given,
/// where each of these is one word.
pub proof fn law_request_round_trip(program: Seq<char>, args: Seq<Seq<char>>)
    requires
        is_word(program),
        forall|i: int| 0 <= i < args.len() ==> is_word(#[trigger] args[i]),
    ensures
        helper_action_of(request_of(program, args)) == (HelperModel::Spawn { program, args }),
{
    reveal_strlit("RUN ");
    reveal_strlit("RUN");
    reveal_strlit("EXIT");
    reveal_strlit("\n");
    reveal_strlit(" ");
    let line = request_of(program, args);
    let body = "RUN"@ + spaced_of(seq![program] + args);
    let all = seq![program] + args;
    assert(is_word("RUN"@));
    assert forall|i: int| 0 <= i < all.len() implies is_word(#[trigger] all[i]) by {
        if i > 0 {
            assert(all[i] == args[i - 1]);
        }
    }
    lemma_spaced_words("RUN"@, all);
    lemma_spaced_first(all);
    assert(all.skip(1) =~= args);
    assert(line =~= body + seq!['\n']);
    assert(body[0] == 'R');
    lemma_trim_line(body, '\n');
    let parts = words_of(trim_of(line));
    assert(parts == seq!["RUN"@] + all);
    assert(parts[1] == program);
    assert(parts.skip(2) =~= args);
}

/// Whether `bytes` are one line with the line feed at its end.
pub open spec fn one_line(bytes: Seq<u8>) -> bool {
    &&& bytes.len() > 0
    &&& bytes.last() == 10
    &&& forall|i: int| 0 <= i < bytes.len() - 1 ==> #[trigger] bytes[i] != 10
}

/// Plain text with a line feed at its end and nowhere else is one line.
proof fn lemma_one_line(s: Seq<char>)
    requires
        s.len() > 0,
        s.last() == '\n',
        is_ascii_chars(s),
        forall|i: int| 0 <= i < s.len() - 1 ==> #[trigger] s[i] != '\n',
    ensures
        one_line(encode_utf8(s)),
{
    is_ascii_chars_encode_utf8(s);
    let bytes = encode_utf8(s);
    assert forall|i: int| 0 <= i < bytes.len() - 1 implies #[trigger] bytes[i] != 10 by {
        assert(s[i] != '\n');
        assert(bytes[i] == s[i] as u8);
        assert((s[i] as u32) < 128);
    }
}

/// A numeral, with a keyword before it and a line feed behind it, is one line, of which trimming
/// leaves the numeral.
proof fn lemma_numeral_line(keyword: Seq<char>, numeral: Seq<char>)
    requires
        is_ascii_chars(keyword),
        forall|i: int| 0 <= i < keyword.len() ==> #[trigger] keyword[i] != '\n',
        numeral.len() > 0,
        forall|i: int|
            0 <= i < numeral.len() ==> is_digit(#[trigger] numeral[i]) || numeral[i] == '-',
    ensures
        one_line(encode_utf8(keyword + numeral + "\n"@)),
        keyword.is_prefix_of(keyword + numeral + "\n"@),
        trim_of((keyword + numeral + "\n"@).skip(keyword.len() as int)) == numeral,
{
    reveal_strlit("\n");
    let s = keyword + numeral + "\n"@;
    assert(s.take(keyword.len() as int) =~= keyword);
    assert(s.skip(keyword.len() as int) =~= numeral + seq!['\n']);
    assert(is_digit(numeral[0]) || numeral[0] == '-');
    assert(is_digit(numeral[numeral.len() - 1]) || numeral[numeral.len() - 1] == '-');
    lemma_trim_line(numeral, '\n');
    assert forall|i: int| 0 <= i < s.len() - 1 implies #[trigger] s[i] != '\n' by {
        if i < keyword.len() {
            assert(s[i] == keyword[i]);
        } else {
            assert(s[i] == numeral[i - keyword.len()]);
        }
    }
    assert(is_ascii_chars(s)) by {
        assert forall|i: int| 0 <= i < s.len() implies '\0' <= #[trigger] s[i] <= '\u{7f}' by {
            if i < keyword.len() {
                assert(s[i] == keyword[i]);
            } else if i < s.len() - 1 {
                assert(s[i] == numeral[i - keyword.len()]);
            }
        }
    }
    lemma_one_line(s);
}

/// The updater reads from the helper's answer the bytes and the status that were put into it:
/// the answer is one line that tells how many bytes to read, those bytes, a line feed, and one
/// line that gives the status, whatever lines came before the answer.
pub proof fn law_reply_round_trip(bytes: Seq<u8>, status_code: i32, preamble: Seq<char>)
    requires
        bytes.len() <= usize::MAX,
    ensures
        response_of(bytes, status_code) == encode_utf8(out_line_of(bytes.len())) + bytes + seq![
            10u8,
        ] + encode_utf8(status_line_of(status_code)),
        one_line(encode_utf8(out_line_of(bytes.len()))),
        reply_step_of(preamble, out_line_of(bytes.len())) == ReplyModel::ReadBytes(
            bytes.len() as int,
        ),
        one_line(encode_utf8(status_line_of(status_code))),
        status_of(status_line_of(status_code)) == Ok::<int, Seq<char>>(status_code as int),
{
    reveal_strlit("OUT ");
    reveal_strlit("STATUS ");
    reveal_strlit("\n");
    let n = bytes.len();
    lemma_decimal(n);
    law_unsigned_round_trip(n, usize::MAX as nat);
    lemma_numeral_line("OUT "@, decimal_of(n));
    let code = signed_decimal_of(status_code as int);
    assert forall|i: int| 0 <= i < code.len() implies is_digit(#[trigger] code[i]) || code[i]
        == '-' by {
        if status_code < 0 {
            lemma_decimal((-status_code) as nat);
            if i > 0 {
                assert(code[i] == decimal_of((-status_code) as nat)[i - 1]);
            }
        } else {
            lemma_decimal(status_code as nat);
        }
    }
    assert(code.len() > 0) by {
        if status_code >= 0 {
            lemma_decimal(status_code as nat);
        }
    }
    law_signed_round_trip(status_code);
    lemma_numeral_line("STATUS "@, code);
    is_ascii_chars_encode_utf8("\n"@);
    assert(encode_utf8("\n"@) =~= seq![10u8]);
}

/// The helper ends at the line `EXIT`, whatever white space is round it. A line that does not begin
/// with the word `RUN` does nothing, and one that has no word behind it is answered with an error.
pub proof fn law_helper_lines(
    before: Seq<char>,
    word: Seq<char>,
    behind: Seq<char>,
    rest: Seq<char>,
)
    requires
        is_blank(before),
        is_blank(behind),
        is_word(word),
        rest.len() > 0 ==> is_white_space(rest[0]),
    ensures
        helper_action_of(before + "EXIT"@ + behind) is Exit,
        helper_action_of(before) is Ignore,
        helper_action_of(before + "RUN"@ + behind) == HelperModel::Reply(
            response_of(encode_utf8("missing program"@), 1),
        ),
        word != "RUN"@ && word != "EXIT"@ ==> helper_action_of(before + word + rest) is Ignore,
{
    reveal_strlit("EXIT");
    reveal_strlit("RUN");
    let none = Seq::<char>::empty();
    law_trim(before, "EXIT"@, behind);
    law_trim(before, "RUN"@, behind);
    law_trim(before, none, none);
    assert(before + none + none =~= before);
    assert("RUN"@ != "EXIT"@) by {
        assert("RUN"@.len() == 3 && "EXIT"@.len() == 4);
    }
    law_words(none, "RUN"@, none);
    assert(none + "RUN"@ + none =~= "RUN"@);
    assert(words_of("RUN"@) =~= seq!["RUN"@]);
    // Trimming leaves the first word where it is.
    let line = before + word + rest;
    let t = trim_of(line);
    let (a, b) = lemma_trimmed(line);
    lemma_words_trimmed(a, t, b);
    law_words(before, word, rest);
    assert(words_of(t)[0] == word);
    if word != "EXIT"@ && t == "EXIT"@ {
        assert(is_word("EXIT"@));
        law_words(none, "EXIT"@, none);
        assert(none + "EXIT"@ + none =~= "EXIT"@);
    }
}

/// White space round text changes nothing of its words.
proof fn lemma_words_trimmed(before: Seq<char>, s: Seq<char>, behind: Seq<char>)
    requires
        is_blank(before),
        is_tight(s),
        is_blank(behind),
    ensures
        words_of(before + s + behind) == words_of(s),
{
    law_trim(before, s, behind);
    let all = before + s + behind;
    let none = Seq::<char>::empty();
    if s.len() == 0 {
        assert forall|i: int| 0 <= i < all.len() implies is_white_space(#[trigger] all[i]) by {
            if i < before.len() {
                assert(all[i] == before[i]);
            } else {
                assert(all[i] == behind[i - before.len()]);
            }
        }
        let word = seq!['w'];
        law_words(all, word, none);
        law_words(none, word, none);
        assert(s =~= none);
    } else {
        assert(all =~= before + (s + behind));
        law_trim_start(before, s + behind);
        law_trim_start(none, s + behind);
        assert(none + (s + behind) =~= s + behind);
        assert(words_of(all) == words_of(s + behind));
        lemma_words_behind(s, behind);
    }
}

/// White space behind text changes nothing of its words.
proof fn lemma_words_behind(s: Seq<char>, behind: Seq<char>)
    requires
        is_blank(behind),
    ensures
        words_of(s + behind) == words_of(s),
    decreases s.len(),
{
    let none = Seq::<char>::empty();
    let probe = seq!['w'];
    lemma_trim_start(s);
    let t = trim_start_of(s);
    if t.len() == 0 {
        let white = lemma_trimmed_start(s);
        assert(s =~= white);
        let all = s + behind;
        assert(is_blank(all)) by {
            assert forall|i: int| 0 <= i < all.len() implies is_white_space(#[trigger] all[i]) by {
                if i < s.len() {
                    assert(all[i] == s[i]);
                } else {
                    assert(all[i] == behind[i - s.len()]);
                }
            }
        }
        law_words(all, probe, none);
        law_words(s, probe, none);
    } else {
        let white = lemma_trimmed_start(s);
        let n = word_len(t);
        lemma_word_len(t);
        let word = t.take(n);
        let rest = t.skip(n);
        assert forall|i: int| 0 <= i < word.len() implies !is_white_space(#[trigger] word[i]) by {
            assert(word[i] == t[i]);
        }
        assert(n > 0) by {
            if n == 0 {
                assert(is_white_space(t[0]));
            }
        }
        if rest.len() > 0 {
            assert(rest[0] == t[n]);
        }
        assert(t =~= word + rest);
        assert(s =~= white + word + rest);
        law_words(white, word, rest);
        let more = rest + behind;
        if more.len() > 0 {
            if rest.len() > 0 {
                assert(more[0] == rest[0]);
            } else {
                assert(more[0] == behind[0]);
            }
        }
        law_words(white, word, more);
        assert(s + behind =~= white + word + more);
        lemma_words_behind(rest, behind);
    }
}

/// Lines before the helper's answer are kept, without the white space at their ends, one below
/// another, and blank lines are not. At the end of the stream they are the reason for which there
/// is no answer; where there are none, the reason is that the connection was closed. A length that
/// is no number is an error.
pub proof fn law_reply_preamble(preamble: Seq<char>, line: Seq<char>, number: Seq<char>)
    requires
        line.len() > 0,
        !"OUT "@.is_prefix_of(line),
    ensures
        trim_of(line).len() == 0 ==> preamble_after(preamble, line) == preamble,
        trim_of(line).len() > 0 && preamble.len() == 0 ==> preamble_after(preamble, line)
            == trim_end_of(line),
        trim_of(line).len() > 0 && preamble.len() > 0 ==> preamble_after(preamble, line) == preamble
            + "\n"@ + trim_end_of(line),
        preamble_after(preamble, Seq::empty()) == preamble,
        ({
            let kept = preamble_after(preamble, line);
            reply_step_of(preamble, line) == if encode_utf8(kept).len() <= 4096 {
                ReplyModel::ReadLine
            } else {
                ReplyModel::Fail(trim_of(kept))
            }
        }),
        reply_step_of(preamble, Seq::empty()) == ReplyModel::Fail(
            if trim_of(preamble).len() > 0 {
                trim_of(preamble)
            } else {
                "privileged helper closed the connection"@
            },
        ),
        unsigned_of(trim_of(number), usize::MAX as int) is None ==> reply_step_of(
            preamble,
            "OUT "@ + number,
        ) == ReplyModel::Fail("invalid output length"@),
{
    reveal_strlit("OUT ");
    let s = "OUT "@ + number;
    assert(s.take(4) =~= "OUT "@);
    assert(s.skip(4) =~= number);
}

/// A last line without `STATUS`, or with something behind it that is no status, is an error.
pub proof fn law_wrong_status(line: Seq<char>, number: Seq<char>)
    requires
        !"STATUS "@.is_prefix_of(line),
        signed_of(trim_of(number)) is None,
    ensures
        status_of(line) == Err::<int, Seq<char>>("invalid helper status"@),
        status_of("STATUS "@ + number) == Err::<int, Seq<char>>("invalid status code"@),
{
    reveal_strlit("STATUS ");
    let s = "STATUS "@ + number;
    assert(s.take(7) =~= "STATUS "@);
    assert(s.skip(7) =~= number);
}

/// The answer holds what the program printed, and then what it printed as errors; its status is the
/// program's, or one where a signal ended it.
pub proof fn law_both_streams(output: ProcessOutput)
    ensures
        output.bytes().take(output.stdout@.len() as int) == output.stdout@,
        output.bytes().skip(output.stdout@.len() as int) == output.stderr@,
        output.code matches Some(code) ==> output.status() == code,
        output.code is None ==> output.status() == 1,
{
    assert(output.bytes().take(output.stdout@.len() as int) =~= output.stdout@);
    assert(output.bytes().skip(output.stdout@.len() as int) =~= output.stderr@);
}

/// The answer for a program that has ended is framed round both its streams, and gives its status;
/// a program that could not be run is told with the reason, and the status one.
pub proof fn law_answer(program: Seq<char>, outcome: Result<ProcessOutput, String>)
    ensures
        outcome matches Ok(output) ==> answer_of(program, outcome) == response_of(
            output.stdout@ + output.stderr@,
            if output.code is Some {
                output.code->0
            } else {
                1
            },
        ),
        outcome matches Err(error) ==> answer_of(program, outcome) == response_of(
            encode_utf8("failed to run "@ + program + ": "@ + error@),
            1,
        ),
{
}

} // verus!
