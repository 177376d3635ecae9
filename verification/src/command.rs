//! Running one command, again while APT is locked.

use crate::decode::{decode, decoded_of, lower, lowered_of};
use crate::helper::push_bytes;
use crate::number::{decimal, decimal_of};
use crate::text::{chars_of, contains, contains_text, join, join_of, same_text, strings};
use vstd::prelude::*;
use vstd::utf8::encode_utf8;

verus! {

/// What came out of a command.
#[derive(Debug)]
pub struct CommandRun {
    pub bytes: Vec<u8>,
    pub status_code: i32,
    /// Whether it was given up because APT stayed locked.
    pub apt_lock: bool,
}

/// What came out of a command, as text.
#[derive(Debug)]
pub struct CommandReport {
    pub text: String,
    pub status_code: i32,
    /// Whether it was given up because APT stayed locked.
    pub apt_lock: bool,
}

impl CommandRun {
    /// What came out, as text.
    pub fn report(&self) -> (r: CommandReport)
        ensures
            r.text@ == decoded_of(self.bytes@),
            r.status_code == self.status_code,
            r.apt_lock == self.apt_lock,
    {
        CommandReport {
            text: decode(self.bytes.as_slice()),
            status_code: self.status_code,
            apt_lock: self.apt_lock,
        }
    }
}

/// A command to run.
#[derive(Debug)]
pub struct CommandRequest {
    pub program: String,
    pub args: Vec<String>,
    pub requires_privilege: bool,
}

/// The line that stands for a command in the log.
pub open spec fn log_line_of(
    program: Seq<char>,
    args: Seq<Seq<char>>,
    requires_privilege: bool,
) -> Seq<char> {
    if requires_privilege {
        "$ pkexec "@ + program + " "@ + join_of(args, " "@) + "\n"@
    } else {
        "$ "@ + program + " "@ + join_of(args, " "@) + "\n"@
    }
}

/// The line that stands for a command in the log.
pub fn log_line(program: &str, args: &Vec<String>, requires_privilege: bool) -> (r: String)
    ensures
        r@ == log_line_of(program@, strings(args@), requires_privilege),
{
    let mut line = if requires_privilege {
        "$ pkexec ".to_string()
    } else {
        "$ ".to_string()
    };
    line.append(program);
    line.append(" ");
    let words = join(args, " ");
    line.append(words.as_str());
    line.append("\n");
    line
}

/// Whether a program is one of APT's.
pub open spec fn apt_program(program: Seq<char>) -> bool {
    program == "apt"@ || program == "apt-get"@
}

/// Whether a program is one of APT's.
pub fn is_apt_program(program: &str) -> (r: bool)
    ensures
        r == apt_program(program@),
{
    same_text(program, "apt") || same_text(program, "apt-get")
}

/// Whether output in lower case tells that another process holds APT's lock.
pub open spec fn tells_of_lock(lower: Seq<char>) -> bool {
    &&& !contains_text(lower, "permission denied"@)
    &&& {
        ||| contains_text(lower, "could not get lock"@)
        ||| contains_text(lower, "unable to acquire the dpkg frontend lock"@)
        ||| contains_text(lower, "unable to lock the administration directory"@)
        ||| contains_text(lower, "is another process using it"@)
        ||| contains_text(lower, "is held by process"@)
        ||| contains_text(lower, "waiting for cache lock"@)
    }
}

/// Whether output in lower case tells that another process holds APT's lock.
pub fn names_apt_lock(lower: &str) -> (r: bool)
    ensures
        r == tells_of_lock(lower@),
{
    let chars = chars_of(lower);
    !contains(&chars, "permission denied") && (contains(&chars, "could not get lock") || contains(
        &chars,
        "unable to acquire the dpkg frontend lock",
    ) || contains(&chars, "unable to lock the administration directory") || contains(
        &chars,
        "is another process using it",
    ) || contains(&chars, "is held by process") || contains(&chars, "waiting for cache lock"))
}

/// Whether output tells, in small or capital letters, that another process holds APT's lock.
pub fn is_apt_lock_error(output: &str) -> (r: bool)
    ensures
        r == tells_of_lock(lowered_of(output@)),
{
    let text = lower(output);
    names_apt_lock(text.as_str())
}

/// How often a command is run again while APT is locked.
pub const APT_LOCK_RETRY_LIMIT: usize = 12;

/// How many seconds pass before the first of these runs.
pub const APT_LOCK_RETRY_INITIAL_DELAY_SECS: u64 = 5;

/// How many seconds pass at most between two runs.
pub const APT_LOCK_RETRY_MAX_DELAY_SECS: u64 = 30;

/// How many seconds the wait after one of `delay` seconds takes: twice as many, up to the maximum.
pub open spec fn next_delay_of(delay: int) -> int {
    if 2 * delay <= APT_LOCK_RETRY_MAX_DELAY_SECS {
        2 * delay
    } else {
        APT_LOCK_RETRY_MAX_DELAY_SECS as int
    }
}

/// How many seconds pass after `retries` more runs.
pub open spec fn delay_of(retries: nat) -> int
    decreases retries,
{
    if retries == 0 {
        APT_LOCK_RETRY_INITIAL_DELAY_SECS as int
    } else {
        next_delay_of(delay_of((retries - 1) as nat))
    }
}

/// The note that a command will be run again.
pub open spec fn retry_note_of(delay: nat, attempt: nat) -> Seq<char> {
    "\n[mystic-update] APT lock detected; retrying in "@ + decimal_of(delay) + "s (attempt "@
        + decimal_of(attempt) + "/"@ + decimal_of(APT_LOCK_RETRY_LIMIT as nat) + ")...\n"@
}

/// The note that a command will not be run again.
pub open spec fn give_up_note_of(attempts: nat) -> Seq<char> {
    "\n[mystic-update] APT lock still held after "@ + decimal_of(attempts)
        + " attempts; giving up.\n"@
}

/// A command that is run again while APT is locked.
#[derive(Debug)]
pub struct AptRetry {
    /// What has come out so far, with notes.
    pub combined: Vec<u8>,
    /// How often it was run again.
    pub retries: usize,
    /// How many seconds will pass before the next run.
    pub delay_secs: u64,
}

/// What to do after a run of the command.
#[derive(Debug)]
pub enum RetryStep {
    /// Wait, and run it again.
    Wait { secs: u64, retry: AptRetry },
    /// Stop.
    Done(CommandRun),
}

/// What has come out of a command so far, how often it was run again, and how many seconds will
/// pass before the next run.
pub struct RetryModel {
    pub combined: Seq<u8>,
    pub retries: nat,
    pub delay: int,
}

/// A command that has not been run.
pub open spec fn not_yet_run() -> RetryModel {
    RetryModel {
        combined: Seq::empty(),
        retries: 0,
        delay: APT_LOCK_RETRY_INITIAL_DELAY_SECS as int,
    }
}

/// What to do after a run of the command.
pub enum RetryStepModel {
    Wait { secs: int, retry: RetryModel },
    Done { bytes: Seq<u8>, status_code: i32, apt_lock: bool },
}

impl AptRetry {
    /// Whether the count and the delay go together.
    pub open spec fn wf(&self) -> bool {
        &&& self.retries <= APT_LOCK_RETRY_LIMIT
        &&& self.delay_secs == delay_of(self.retries as nat)
    }
}

impl View for AptRetry {
    type V = RetryModel;

    open spec fn view(&self) -> RetryModel {
        RetryModel {
            combined: self.combined@,
            retries: self.retries as nat,
            delay: self.delay_secs as int,
        }
    }
}

impl View for RetryStep {
    type V = RetryStepModel;

    open spec fn view(&self) -> RetryStepModel {
        match self {
            RetryStep::Wait { secs, retry } => RetryStepModel::Wait {
                secs: *secs as int,
                retry: retry@,
            },
            RetryStep::Done(run) => RetryStepModel::Done {
                bytes: run.bytes@,
                status_code: run.status_code,
                apt_lock: run.apt_lock,
            },
        }
    }
}

/// What to do after a run that gave `bytes` and a status, and found APT locked or not.
pub open spec fn retry_step_of(
    m: RetryModel,
    bytes: Seq<u8>,
    status_code: i32,
    locked: bool,
) -> RetryStepModel {
    if !locked {
        RetryStepModel::Done { bytes: m.combined + bytes, status_code, apt_lock: false }
    } else if m.retries < APT_LOCK_RETRY_LIMIT {
        RetryStepModel::Wait {
            secs: m.delay,
            retry: RetryModel {
                combined: m.combined + bytes + encode_utf8(
                    retry_note_of(m.delay as nat, m.retries + 1),
                ),
                retries: m.retries + 1,
                delay: next_delay_of(m.delay),
            },
        }
    } else {
        RetryStepModel::Done {
            bytes: m.combined + bytes + encode_utf8(give_up_note_of(m.retries + 1)),
            status_code,
            apt_lock: true,
        }
    }
}

/// The note that a command will be run again.
fn retry_note(delay: u64, attempt: u64) -> (r: String)
    ensures
        r@ == retry_note_of(delay as nat, attempt as nat),
{
    let mut note = "\n[mystic-update] APT lock detected; retrying in ".to_string();
    let text = decimal(delay);
    note.append(text.as_str());
    note.append("s (attempt ");
    let text = decimal(attempt);
    note.append(text.as_str());
    note.append("/");
    let text = decimal(APT_LOCK_RETRY_LIMIT as u64);
    note.append(text.as_str());
    note.append(")...\n");
    note
}

/// The delay is between the first one and the greatest.
pub proof fn lemma_delay(retries: nat)
    ensures
        APT_LOCK_RETRY_INITIAL_DELAY_SECS <= delay_of(retries) <= APT_LOCK_RETRY_MAX_DELAY_SECS,
    decreases retries,
{
    if retries > 0 {
        lemma_delay((retries - 1) as nat);
    }
}

impl AptRetry {
    /// A command that has not been run.
    pub fn new() -> (r: Self)
        ensures
            r.wf(),
            r@ == not_yet_run(),
    {
        AptRetry {
            combined: Vec::new(),
            retries: 0,
            delay_secs: APT_LOCK_RETRY_INITIAL_DELAY_SECS,
        }
    }

    /// Takes what came out of a run, and whether it found APT locked.
    pub fn observe(self, bytes: &[u8], status_code: i32, locked: bool) -> (r: RetryStep)
        requires
            self.wf(),
        ensures
            r@ == retry_step_of(self@, bytes@, status_code, locked),
            r matches RetryStep::Wait { retry, .. } ==> retry.wf(),
    {
        let mut combined = self.combined;
        push_bytes(&mut combined, bytes);
        if !locked {
            return RetryStep::Done(CommandRun { bytes: combined, status_code, apt_lock: false });
        }
        proof {
            lemma_delay(self.retries as nat);
        }
        if self.retries < APT_LOCK_RETRY_LIMIT {
            let secs = self.delay_secs;
            let note = retry_note(secs, self.retries as u64 + 1);
            push_bytes(&mut combined, note.as_str().as_bytes());
            let twice: u64 = secs * 2;
            let delay_secs = if twice <= APT_LOCK_RETRY_MAX_DELAY_SECS {
                twice
            } else {
                APT_LOCK_RETRY_MAX_DELAY_SECS
            };
            return RetryStep::Wait {
                secs,
                retry: AptRetry { combined, retries: self.retries + 1, delay_secs },
            };
        }
        let mut note = "\n[mystic-update] APT lock still held after ".to_string();
        let text = decimal(self.retries as u64 + 1);
        note.append(text.as_str());
        note.append(" attempts; giving up.\n");
        push_bytes(&mut combined, note.as_str().as_bytes());
        RetryStep::Done(CommandRun { bytes: combined, status_code, apt_lock: true })
    }

    /// Takes what came out of a run.
    pub fn attempted(self, bytes: &[u8], status_code: i32) -> (r: RetryStep)
        requires
            self.wf(),
        ensures
            r@ == retry_step_of(
                self@,
                bytes@,
                status_code,
                tells_of_lock(lowered_of(decoded_of(bytes@))),
            ),
            r matches RetryStep::Wait { retry, .. } ==> retry.wf(),
    {
        let text = decode(bytes);
        let locked = is_apt_lock_error(text.as_str());
        self.observe(bytes, status_code, locked)
    }
}

/// How often a command may be run.
#[derive(Debug)]
pub enum Attempts {
    /// Once.
    Once,
    /// Again while APT is locked.
    WhileLocked(AptRetry),
}

/// How often the command of a program may be run: a program of APT's again while APT is locked,
/// any other once.
pub fn run_command_with_optional_apt_retry(program: &str) -> (r: Attempts)
    ensures
        r is WhileLocked == apt_program(program@),
        r matches Attempts::WhileLocked(retry) ==> {
            &&& retry.wf()
            &&& retry@ == not_yet_run()
        },
{
    if is_apt_program(program) {
        Attempts::WhileLocked(AptRetry::new())
    } else {
        Attempts::Once
    }
}

/// What to do after a run of a command that may be run so often.
pub open spec fn attempt_of(
    attempts: Attempts,
    bytes: Seq<u8>,
    status_code: i32,
) -> RetryStepModel {
    match attempts {
        Attempts::Once => RetryStepModel::Done { bytes, status_code, apt_lock: false },
        Attempts::WhileLocked(retry) => retry_step_of(
            retry@,
            bytes,
            status_code,
            tells_of_lock(lowered_of(decoded_of(bytes))),
        ),
    }
}

impl Attempts {
    /// Whether the count and the delay go together.
    pub open spec fn wf(&self) -> bool {
        self matches Attempts::WhileLocked(retry) ==> retry.wf()
    }

    /// Takes what came out of a run.
    pub fn attempted(self, bytes: &[u8], status_code: i32) -> (r: RetryStep)
        requires
            self.wf(),
        ensures
            r@ == attempt_of(self, bytes@, status_code),
            r matches RetryStep::Wait { retry, .. } ==> retry.wf(),
    {
        match self {
            Attempts::Once => {
                let mut all: Vec<u8> = Vec::new();
                push_bytes(&mut all, bytes);
                assert(all@ =~= bytes@);
                RetryStep::Done(CommandRun { bytes: all, status_code, apt_lock: false })
            },
            Attempts::WhileLocked(retry) => retry.attempted(bytes, status_code),
        }
    }
}

/// Where a command stands after runs that all found APT locked; none once it has been given up.
pub open spec fn after_locked_runs(runs: Seq<(Seq<u8>, i32)>) -> Option<RetryModel>
    decreases runs.len(),
{
    if runs.len() == 0 {
        Some(not_yet_run())
    } else {
        match after_locked_runs(runs.drop_last()) {
            Some(m) => match retry_step_of(m, runs.last().0, runs.last().1, true) {
                RetryStepModel::Wait { secs, retry } => Some(retry),
                _ => None,
            },
            None => None,
        }
    }
}

/// A command is run again after each of the first twelve runs that find APT locked, and given
/// up after the thirteenth; how long it waits depends on how often it was run. Before the first run
/// nothing has come out.
pub proof fn law_retries_end(runs: Seq<(Seq<u8>, i32)>)
    ensures
        after_locked_runs(runs) is Some <==> runs.len() <= APT_LOCK_RETRY_LIMIT,
        after_locked_runs(runs) matches Some(m) ==> m.retries == runs.len() && m.delay == delay_of(
            runs.len(),
        ),
        runs.len() == 0 ==> (after_locked_runs(runs) matches Some(m) && m.combined.len() == 0),
    decreases runs.len(),
{
    if runs.len() > 0 {
        law_retries_end(runs.drop_last());
    }
}

/// How many seconds pass in all before `retries` more runs.
pub open spec fn total_delay_of(retries: nat) -> int
    decreases retries,
{
    if retries == 0 {
        0
    } else {
        total_delay_of((retries - 1) as nat) + delay_of((retries - 1) as nat)
    }
}

/// No more than 305 seconds pass while a command waits for APT's lock, and never more than 30
/// between two runs.
pub proof fn law_waiting_bounded(retries: nat)
    requires
        retries <= APT_LOCK_RETRY_LIMIT,
    ensures
        total_delay_of(retries) <= 305,
        delay_of(retries) <= 30,
{
    lemma_delay(retries);
    reveal_with_fuel(delay_of, 13);
    reveal_with_fuel(total_delay_of, 13);
}

/// Output tells that another process holds APT's lock if and only if, in lower case, it holds one
/// of the phrases with which APT says so, and does not tell that permission was denied.
pub proof fn law_lock_is_told(output: Seq<char>)
    ensures
        tells_of_lock(lowered_of(output)) <==> {
            let lower = lowered_of(output);
            let phrases = seq![
                "could not get lock"@,
                "unable to acquire the dpkg frontend lock"@,
                "unable to lock the administration directory"@,
                "is another process using it"@,
                "is held by process"@,
                "waiting for cache lock"@,
            ];
            &&& exists|i: int| 0 <= i < phrases.len() && contains_text(lower, #[trigger] phrases[i])
            &&& !contains_text(lower, "permission denied"@)
        },
{
    let lower = lowered_of(output);
    let phrases = seq![
        "could not get lock"@,
        "unable to acquire the dpkg frontend lock"@,
        "unable to lock the administration directory"@,
        "is another process using it"@,
        "is held by process"@,
        "waiting for cache lock"@,
    ];
    if tells_of_lock(lower) {
        assert(contains_text(lower, phrases[0]) || contains_text(lower, phrases[1])
            || contains_text(lower, phrases[2]) || contains_text(lower, phrases[3])
            || contains_text(lower, phrases[4]) || contains_text(lower, phrases[5]));
    }
}

/// Output that holds none of the phrases with which APT tells of its lock ends the command: with
/// its own status, not given up, and with all that has come out. So does output that tells that
/// permission was denied.
pub proof fn law_not_locked_ends(m: RetryModel, bytes: Seq<u8>, status_code: i32)
    requires
        ({
            let lower = lowered_of(decoded_of(bytes));
            ||| contains_text(lower, "permission denied"@)
            ||| !contains_text(lower, "could not get lock"@) && !contains_text(
                lower,
                "unable to acquire the dpkg frontend lock"@,
            ) && !contains_text(lower, "unable to lock the administration directory"@)
                && !contains_text(lower, "is another process using it"@) && !contains_text(
                lower,
                "is held by process"@,
            ) && !contains_text(lower, "waiting for cache lock"@)
        }),
    ensures
        retry_step_of(
            m,
            bytes,
            status_code,
            tells_of_lock(lowered_of(decoded_of(bytes))),
        ) == (RetryStepModel::Done { bytes: m.combined + bytes, status_code, apt_lock: false }),
{
}

/// Output that tells of APT's lock, and not that permission was denied, has the command run again
/// after a wait, as long as that has happened fewer than twelve times; else it is given up. Either
/// way what has come out so far is kept, with a note behind it.
pub proof fn law_locked_waits(m: RetryModel, bytes: Seq<u8>, status_code: i32)
    requires
        ({
            let lower = lowered_of(decoded_of(bytes));
            &&& !contains_text(lower, "permission denied"@)
            &&& {
                ||| contains_text(lower, "could not get lock"@)
                ||| contains_text(lower, "unable to acquire the dpkg frontend lock"@)
                ||| contains_text(lower, "unable to lock the administration directory"@)
                ||| contains_text(lower, "is another process using it"@)
                ||| contains_text(lower, "is held by process"@)
                ||| contains_text(lower, "waiting for cache lock"@)
            }
        }),
    ensures
        match retry_step_of(
            m,
            bytes,
            status_code,
            tells_of_lock(lowered_of(decoded_of(bytes))),
        ) {
            RetryStepModel::Wait { secs, retry } => {
                &&& m.retries < 12
                &&& secs == m.delay
                &&& retry.retries == m.retries + 1
                &&& (m.combined + bytes).is_prefix_of(retry.combined)
            },
            RetryStepModel::Done { bytes: all, status_code: code, apt_lock } => {
                &&& m.retries >= 12
                &&& code == status_code
                &&& apt_lock
                &&& (m.combined + bytes).is_prefix_of(all)
            },
        },
{
    let all = m.combined + bytes;
    let note = if m.retries < APT_LOCK_RETRY_LIMIT {
        encode_utf8(retry_note_of(m.delay as nat, m.retries + 1))
    } else {
        encode_utf8(give_up_note_of(m.retries + 1))
    };
    assert((all + note).take(all.len() as int) =~= all);
}

/// The note behind the output of a run that found APT locked tells how many seconds pass until the
/// next run, and which of twelve that is; the note behind the last one tells how often the command
/// was run.
pub proof fn law_lock_notes(m: RetryModel, bytes: Seq<u8>, status_code: i32)
    requires
        m.delay >= 0,
    ensures
        match retry_step_of(m, bytes, status_code, true) {
            RetryStepModel::Wait { secs, retry } => retry.combined == m.combined + bytes
                + encode_utf8(
                "\n[mystic-update] APT lock detected; retrying in "@ + decimal_of(secs as nat)
                    + "s (attempt "@ + decimal_of(retry.retries) + "/"@ + decimal_of(12)
                    + ")...\n"@,
            ),
            RetryStepModel::Done { bytes: all, .. } => all == m.combined + bytes + encode_utf8(
                "\n[mystic-update] APT lock still held after "@ + decimal_of(m.retries + 1)
                    + " attempts; giving up.\n"@,
            ),
        },
{
}

/// A command that waits for APT's lock waits five seconds, then ten, then twenty, and from then on
/// half a minute each time: five minutes and five seconds in all before it is given up.
pub proof fn law_delays(retries: nat)
    ensures
        delay_of(retries) == if retries == 0 {
            5int
        } else if retries == 1 {
            10
        } else if retries == 2 {
            20
        } else {
            30
        },
        total_delay_of(12) == 305,
    decreases retries,
{
    reveal_with_fuel(delay_of, 13);
    reveal_with_fuel(total_delay_of, 13);
    if retries > 3 {
        law_delays((retries - 1) as nat);
    }
}

/// A command that may be run once ends with what it printed and its own status, whatever that is. A
/// command of APT ends so too, unless it tells of the lock; then it waits, and is given up only
/// after twelve more runs.
pub proof fn law_attempts(attempts: Attempts, bytes: Seq<u8>, status_code: i32)
    requires
        attempts.wf(),
    ensures
        attempts is Once ==> attempt_of(attempts, bytes, status_code) == (RetryStepModel::Done {
            bytes,
            status_code,
            apt_lock: false,
        }),
        attempts matches Attempts::WhileLocked(retry) ==> match attempt_of(
            attempts,
            bytes,
            status_code,
        ) {
            RetryStepModel::Wait { secs, retry: next } => {
                &&& tells_of_lock(lowered_of(decoded_of(bytes)))
                &&& retry.retries < 12
                &&& secs == retry.delay_secs
                &&& next.retries == retry.retries + 1
            },
            RetryStepModel::Done { bytes: all, status_code: code, apt_lock } => {
                &&& code == status_code
                &&& apt_lock == tells_of_lock(lowered_of(decoded_of(bytes)))
                &&& apt_lock ==> retry.retries >= 12
                &&& !apt_lock ==> all == retry.combined@ + bytes
            },
        },
{
}

} // verus!
