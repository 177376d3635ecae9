//! Runs and checks, one command after another.
//!
//! A run is told what has come out of its commands so far, and says which command comes next, or
//! how it ended.

use crate::command::{log_line, log_line_of, CommandReport, CommandRequest};
use crate::managers::{
    check_commands_of, command, commands, literals, needs_privilege, place_of, update_commands_of,
    CommandModel, CommandSpec, ManagerId, MANAGER_COUNT,
};
use crate::number::{signed_decimal, signed_decimal_of};
use crate::order::{law_sorted, sort_dedup, sorted_of};
use crate::parse::{has_updates, tells_of_updates};
use crate::progress::{changed_of, law_change_touches_one, ProgressChange};
use crate::text::{chars_of, clone_strings, strings};
use crate::updates::{
    entries, ids_of, CheckModel, CheckOutcome, EntryModel, OutcomeModel, StatusModel, TaskStatus,
    UpdateEntry, UpdateOutcome,
};
use vstd::prelude::*;

verus! {

/// What is said where APT stayed locked.
pub open spec fn apt_lock_message() -> Seq<char> {
    "APT is locked by another process. Please try again later."@
}

/// What came out of a command, as characters.
pub struct ReportModel {
    pub text: Seq<char>,
    pub status_code: i32,
    pub apt_lock: bool,
}

impl View for CommandReport {
    type V = ReportModel;

    open spec fn view(&self) -> ReportModel {
        ReportModel {
            text: self.text@,
            status_code: self.status_code,
            apt_lock: self.apt_lock,
        }
    }
}

impl View for CommandRequest {
    type V = CommandModel;

    open spec fn view(&self) -> CommandModel {
        CommandModel {
            program: self.program@,
            args: strings(self.args@),
            requires_privilege: self.requires_privilege,
        }
    }
}

/// What came out of a command, or why it could not be run.
pub open spec fn result_of(r: Result<CommandReport, String>) -> Result<ReportModel, Seq<char>> {
    match r {
        Ok(report) => Ok(report@),
        Err(error) => Err(error@),
    }
}

/// What came out of commands, one after another.
pub open spec fn results_of(
    v: Seq<Result<CommandReport, String>>,
) -> Seq<Result<ReportModel, Seq<char>>> {
    Seq::new(v.len(), |i: int| result_of(v[i]))
}

/// The requests of `v`, as characters.
pub open spec fn requests(v: Seq<CommandRequest>) -> Seq<CommandModel> {
    Seq::new(v.len(), |i: int| v[i]@)
}

/// What to do next in a run.
#[derive(Debug)]
pub enum RunStep {
    /// Run this command.
    Execute(CommandRequest),
    /// Nothing: the run has ended.
    Done(UpdateOutcome),
}

/// What to do next in a run, as characters.
pub enum RunModel {
    Execute(CommandModel),
    Done(OutcomeModel),
}

impl View for RunStep {
    type V = RunModel;

    open spec fn view(&self) -> RunModel {
        match self {
            RunStep::Execute(request) => RunModel::Execute(request@),
            RunStep::Done(outcome) => RunModel::Done(outcome@),
        }
    }
}

/// `text` with a line feed at its end.
pub open spec fn ended_line(text: Seq<char>) -> Seq<char> {
    if text.len() > 0 && text.last() == '\n' {
        text
    } else {
        text + "\n"@
    }
}

/// Appends `text` and, unless it ends with one, a line feed.
pub fn push_line(out: &mut String, text: &str)
    ensures
        final(out)@ == old(out)@ + ended_line(text@),
{
    let chars = chars_of(text);
    out.append(text);
    if chars.len() == 0 || chars[chars.len() - 1] != '\n' {
        out.append("\n");
    }
    assert(out@ =~= old(out)@ + ended_line(text@));
}

/// What a status other than zero is called.
pub open spec fn exit_message_of(status_code: i32) -> Seq<char> {
    "Exited with status: "@ + signed_decimal_of(status_code as int)
}

/// The log after a command.
pub open spec fn log_after(
    output: Seq<char>,
    result: Result<ReportModel, Seq<char>>,
    logs_errors: bool,
) -> Seq<char> {
    match result {
        Ok(report) => if report.apt_lock {
            output + report.text + apt_lock_message() + "\n"@
        } else if report.status_code != 0 {
            output + report.text + exit_message_of(report.status_code) + "\n"@
        } else {
            output + report.text
        },
        Err(error) => if logs_errors {
            output + ended_line(error)
        } else {
            output
        },
    }
}

/// Why a run ends with a command, where it does.
pub open spec fn failure_of(result: Result<ReportModel, Seq<char>>) -> Option<Seq<char>> {
    match result {
        Ok(report) => if report.apt_lock {
            Some(apt_lock_message())
        } else if report.status_code != 0 {
            Some(exit_message_of(report.status_code))
        } else {
            None
        },
        Err(error) => Some(error),
    }
}

/// What comes next in a run of `commands`: the first command of which no result is known, unless
/// one before it failed.
pub open spec fn run_of(
    commands: Seq<CommandModel>,
    results: Seq<Result<ReportModel, Seq<char>>>,
    output: Seq<char>,
    logs_errors: bool,
) -> RunModel
    decreases commands.len(),
{
    if commands.len() == 0 {
        RunModel::Done(OutcomeModel { output, status: StatusModel::Success })
    } else if results.len() == 0 {
        RunModel::Execute(commands[0])
    } else {
        let command = commands[0];
        let logged = output + log_line_of(
            command.program,
            command.args,
            command.requires_privilege,
        );
        let after = log_after(logged, results[0], logs_errors);
        match failure_of(results[0]) {
            Some(reason) => RunModel::Done(
                OutcomeModel { output: after, status: StatusModel::Failed(reason) },
            ),
            None => run_of(commands.skip(1), results.skip(1), after, logs_errors),
        }
    }
}

/// Appends what came out of a command, and tells why the run ends with it, where it does.
fn take_result(
    output: &mut String,
    result: &Result<CommandReport, String>,
    logs_errors: bool,
) -> (r: Option<String>)
    ensures
        final(output)@ == log_after(old(output)@, result_of(*result), logs_errors),
        match r {
            Some(reason) => failure_of(result_of(*result)) == Some(reason@),
            None => failure_of(result_of(*result)) is None,
        },
{
    match result {
        Ok(report) => {
            output.append(report.text.as_str());
            if report.apt_lock {
                let message = "APT is locked by another process. Please try again later.";
                output.append(message);
                output.append("\n");
                return Some(message.to_string());
            }
            if report.status_code != 0 {
                let mut status = "Exited with status: ".to_string();
                let code = signed_decimal(report.status_code);
                status.append(code.as_str());
                output.append(status.as_str());
                output.append("\n");
                return Some(status);
            }
            None
        },
        Err(error) => {
            if logs_errors {
                push_line(output, error.as_str());
            }
            Some(error.clone())
        },
    }
}

/// A copy of a request.
fn copy_request(request: &CommandRequest) -> (r: CommandRequest)
    ensures
        r@ == request@,
{
    CommandRequest {
        program: request.program.clone(),
        args: clone_strings(&request.args),
        requires_privilege: request.requires_privilege,
    }
}

/// What comes next in a run of commands.
pub fn run_commands(
    list: &Vec<CommandRequest>,
    results: &Vec<Result<CommandReport, String>>,
    logs_errors: bool,
) -> (r: RunStep)
    ensures
        r@ == run_of(requests(list@), results_of(results@), Seq::empty(), logs_errors),
{
    let mut output = String::new();
    let mut i: usize = 0;
    let ghost cs = requests(list@);
    let ghost rs = results_of(results@);
    proof {
        assert(cs.skip(0) =~= cs);
        assert(rs.skip(0) =~= rs);
    }
    while i < list.len()
        invariant
            i <= list@.len(),
            i <= results@.len(),
            cs == requests(list@),
            rs == results_of(results@),
            run_of(cs, rs, Seq::empty(), logs_errors) == run_of(
                cs.skip(i as int),
                rs.skip(i as int),
                output@,
                logs_errors,
            ),
        decreases list@.len() - i,
    {
        let request = &list[i];
        assert(cs.skip(i as int)[0] == request@);
        if i == results.len() {
            return RunStep::Execute(copy_request(request));
        }
        assert(rs.skip(i as int)[0] == result_of(results@[i as int]));
        let line = log_line(request.program.as_str(), &request.args, request.requires_privilege);
        output.append(line.as_str());
        if let Some(reason) = take_result(&mut output, &results[i], logs_errors) {
            return RunStep::Done(UpdateOutcome { output, status: TaskStatus::Failed(reason) });
        }
        assert(cs.skip(i as int).skip(1) =~= cs.skip(i + 1));
        assert(rs.skip(i as int).skip(1) =~= rs.skip(i + 1));
        i += 1;
    }
    RunStep::Done(UpdateOutcome { output, status: TaskStatus::Success })
}

/// Strings with the characters of `v`.
fn owned(v: &Vec<&'static str>) -> (r: Vec<String>)
    ensures
        strings(r@) == literals(v@),
{
    let mut out: Vec<String> = Vec::new();
    let mut i: usize = 0;
    assert(strings(out@) =~= literals(v@).take(0));
    while i < v.len()
        invariant
            i <= v@.len(),
            strings(out@) == literals(v@).take(i as int),
        decreases v@.len() - i,
    {
        let ghost before = out@;
        out.push(v[i].to_string());
        assert(strings(out@) =~= strings(before).push(v@[i as int]@));
        assert(literals(v@).take(i + 1) =~= literals(v@).take(i as int).push(v@[i as int]@));
        i += 1;
    }
    assert(literals(v@).take(v@.len() as int) =~= literals(v@));
    out
}

/// Requests for the commands of a manager.
fn requests_for(list: &Vec<CommandSpec>) -> (r: Vec<CommandRequest>)
    ensures
        requests(r@) == commands(list@),
{
    let mut out: Vec<CommandRequest> = Vec::new();
    let mut i: usize = 0;
    assert(requests(out@) =~= commands(list@).take(0));
    while i < list.len()
        invariant
            i <= list@.len(),
            requests(out@) == commands(list@).take(i as int),
        decreases list@.len() - i,
    {
        let ghost before = out@;
        let command = &list[i];
        let request = CommandRequest {
            program: command.program.to_string(),
            args: owned(&command.args),
            requires_privilege: command.requires_privilege,
        };
        assert(request@ == command@);
        out.push(request);
        assert(requests(out@) =~= requests(before).push(command@));
        assert(commands(list@).take(i + 1) =~= commands(list@).take(i as int).push(command@));
        i += 1;
    }
    assert(commands(list@).take(list@.len() as int) =~= commands(list@));
    out
}

/// What comes next in the update of everything that a manager holds.
pub fn run_manager(id: ManagerId, results: &Vec<Result<CommandReport, String>>) -> (r: RunStep)
    ensures
        r@ == run_of(update_commands_of(id), results_of(results@), Seq::empty(), true),
{
    let list = requests_for(&id.spec().commands);
    run_commands(&list, results, true)
}

/// The names to update: those of the entries, in order, each once.
pub open spec fn package_names_of(list: Seq<EntryModel>) -> Seq<Seq<char>> {
    sorted_of(ids_of(list))
}

/// The names to update: those of the entries, in order, each once.
pub fn package_names(list: &Vec<UpdateEntry>) -> (r: Vec<String>)
    ensures
        strings(r@) == package_names_of(entries(list@)),
{
    let mut names: Vec<String> = Vec::new();
    let mut i: usize = 0;
    let ghost ids = ids_of(entries(list@));
    assert(strings(names@) =~= ids.take(0));
    while i < list.len()
        invariant
            i <= list@.len(),
            ids == ids_of(entries(list@)),
            strings(names@) == ids.take(i as int),
        decreases list@.len() - i,
    {
        let ghost before = names@;
        names.push(list[i].id.clone());
        assert(strings(names@) =~= strings(before).push(list@[i as int].id@));
        assert(ids.take(i + 1) =~= ids.take(i as int).push(list@[i as int].id@));
        i += 1;
    }
    assert(ids.take(ids.len() as int) =~= ids);
    sort_dedup(&names)
}

/// The command that updates through `dnf` or `yum`: everything, or the packages of `list`. The
/// output of `yum` goes through `stdbuf`, where that is there, so that it comes unbuffered.
pub open spec fn dnf_yum_command_of(
    id: ManagerId,
    list: Option<Seq<EntryModel>>,
    stdbuf: bool,
) -> CommandModel {
    let command = update_commands_of(id)[0];
    let args = command.args + match list {
        Some(l) => package_names_of(l),
        None => Seq::empty(),
    };
    if id == ManagerId::Yum && stdbuf {
        CommandModel {
            program: "stdbuf"@,
            args: seq!["-o0"@, "-e0"@, command.program] + args,
            ..command
        }
    } else {
        CommandModel { args, ..command }
    }
}

/// The entries of a selection, if there is one.
pub open spec fn selection_of(list: Option<Vec<UpdateEntry>>) -> Option<Seq<EntryModel>> {
    match list {
        Some(l) => Some(entries(l@)),
        None => None,
    }
}

/// The command that updates through `dnf` or `yum`.
fn dnf_yum_command(
    id: ManagerId,
    list: &Option<Vec<UpdateEntry>>,
    stdbuf: bool,
) -> (r: CommandRequest)
    ensures
        r@ == dnf_yum_command_of(id, selection_of(*list), stdbuf),
{
    let spec = id.spec();
    assert(spec@.commands == update_commands_of(id));
    assert(commands(spec.commands@).len() == spec.commands@.len());
    assert(commands(spec.commands@)[0] == spec.commands@[0]@);
    let command = &spec.commands[0];
    let mut args: Vec<String> = Vec::new();
    let wrapped = id == ManagerId::Yum && stdbuf;
    if wrapped {
        args.push("-o0".to_string());
        args.push("-e0".to_string());
        args.push(command.program.to_string());
    }
    let ghost head = args@;
    let mut own = owned(&command.args);
    args.append(&mut own);
    let ghost mid = args@;
    assert(strings(mid) =~= strings(head) + command@.args);
    if let Some(selected) = list {
        let mut names = package_names(selected);
        args.append(&mut names);
        assert(strings(args@) =~= strings(mid) + package_names_of(entries(selected@)));
    } else {
        assert(strings(args@) =~= strings(mid) + Seq::<Seq<char>>::empty());
    }
    let program = if wrapped {
        "stdbuf".to_string()
    } else {
        command.program.to_string()
    };
    proof {
        let c = dnf_yum_command_of(id, selection_of(*list), stdbuf);
        if wrapped {
            assert(strings(head) =~= seq!["-o0"@, "-e0"@, command@.program]);
        } else {
            assert(strings(head) =~= Seq::<Seq<char>>::empty());
        }
        assert(strings(args@) =~= c.args);
    }
    CommandRequest { program, args, requires_privilege: command.requires_privilege }
}

/// What to do next in an update through `dnf` or `yum`.
#[derive(Debug)]
pub enum DnfYumStep {
    /// Change the progress, and run this command.
    Execute { request: CommandRequest, progress: ProgressChange },
    /// Change the progress: the update has ended.
    Done { outcome: UpdateOutcome, progress: ProgressChange },
}

/// What to do next in an update through `dnf` or `yum`, as characters.
pub enum DnfYumModel {
    Execute { request: CommandModel, progress: ProgressChange },
    Done { outcome: OutcomeModel, progress: ProgressChange },
}

impl View for DnfYumStep {
    type V = DnfYumModel;

    open spec fn view(&self) -> DnfYumModel {
        match self {
            DnfYumStep::Execute { request, progress } => DnfYumModel::Execute {
                request: request@,
                progress: *progress,
            },
            DnfYumStep::Done { outcome, progress } => DnfYumModel::Done {
                outcome: outcome@,
                progress: *progress,
            },
        }
    }
}

/// What comes next in an update through `dnf` or `yum`: its one command, before which nothing is
/// reported as done; and then the end, whatever it is, at which the progress is forgotten.
pub open spec fn dnf_yum_of(
    id: ManagerId,
    list: Option<Seq<EntryModel>>,
    stdbuf: bool,
    results: Seq<Result<ReportModel, Seq<char>>>,
) -> DnfYumModel {
    match run_of(seq![dnf_yum_command_of(id, list, stdbuf)], results, Seq::empty(), true) {
        RunModel::Execute(request) => DnfYumModel::Execute {
            request,
            progress: ProgressChange::Start,
        },
        RunModel::Done(outcome) => DnfYumModel::Done { outcome, progress: ProgressChange::Clear },
    }
}

/// What comes next in an update through `dnf` or `yum`.
pub fn run_dnf_yum_with_progress(
    id: ManagerId,
    list: &Option<Vec<UpdateEntry>>,
    stdbuf: bool,
    results: &Vec<Result<CommandReport, String>>,
) -> (r: DnfYumStep)
    ensures
        r@ == dnf_yum_of(id, selection_of(*list), stdbuf, results_of(results@)),
{
    let request = dnf_yum_command(id, list, stdbuf);
    let one = vec![request];
    assert(requests(one@) =~= seq![request@]);
    match run_commands(&one, results, true) {
        RunStep::Execute(request) => DnfYumStep::Execute {
            request,
            progress: ProgressChange::Start,
        },
        RunStep::Done(outcome) => DnfYumStep::Done { outcome, progress: ProgressChange::Clear },
    }
}

/// An update through `dnf` or `yum` runs one command. When it has ended, its manager has no
/// progress, and that of every other manager is as it was.
pub proof fn law_dnf_yum_progress(
    id: ManagerId,
    list: Option<Seq<EntryModel>>,
    stdbuf: bool,
    result: Result<ReportModel, Seq<char>>,
    values: Seq<Option<u32>>,
    other: ManagerId,
)
    requires
        values.len() == MANAGER_COUNT,
    ensures
        dnf_yum_of(id, list, stdbuf, Seq::empty()) == (DnfYumModel::Execute {
            request: dnf_yum_command_of(id, list, stdbuf),
            progress: ProgressChange::Start,
        }),
        dnf_yum_of(id, list, stdbuf, seq![result]) matches DnfYumModel::Done { progress, .. } && {
            let after = changed_of(values, id, progress);
            after[place_of(id)] is None && (other != id ==> after[place_of(other)]
                == values[place_of(other)])
        },
{
    law_change_touches_one(values, id, ProgressChange::Clear, other);
    let commands = seq![dnf_yum_command_of(id, list, stdbuf)];
    law_run_ends(commands, seq![result], Seq::empty(), true);
}

/// The commands that update the chosen packages of APT, and no others.
pub open spec fn apt_commands_of(list: Seq<EntryModel>) -> Seq<CommandModel> {
    seq![
        command("apt-get"@, seq!["update"@], true),
        command(
            "apt-get"@,
            seq!["install"@, "--only-upgrade"@, "-y"@] + package_names_of(list),
            true,
        ),
    ]
}

/// What comes next in an update of the chosen packages of APT by commands.
pub fn run_apt_selected(
    list: &Vec<UpdateEntry>,
    results: &Vec<Result<CommandReport, String>>,
) -> (r: RunStep)
    ensures
        r@ == run_of(apt_commands_of(entries(list@)), results_of(results@), Seq::empty(), true),
{
    let first = CommandRequest {
        program: "apt-get".to_string(),
        args: vec!["update".to_string()],
        requires_privilege: true,
    };
    assert(strings(first.args@) =~= seq!["update"@]);
    let mut args = vec!["install".to_string(), "--only-upgrade".to_string(), "-y".to_string()];
    let ghost head = args@;
    assert(strings(head) =~= seq!["install"@, "--only-upgrade"@, "-y"@]);
    let mut names = package_names(list);
    let ghost tail = names@;
    args.append(&mut names);
    assert(strings(args@) =~= strings(head) + strings(tail));
    let second = CommandRequest { program: "apt-get".to_string(), args, requires_privilege: true };
    let both = vec![first, second];
    assert(requests(both@) =~= apt_commands_of(entries(list@)));
    run_commands(&both, results, true)
}

/// The names that a command is given are those of the chosen updates, and no others.
pub proof fn law_names_are_chosen(list: Seq<EntryModel>, name: Seq<char>)
    ensures
        package_names_of(list).contains(name) <==> exists|i: int|
            0 <= i < list.len() && (#[trigger] list[i]).id == name,
{
    let ids = ids_of(list);
    law_sorted(ids);
    if package_names_of(list).contains(name) {
        assert(ids.contains(name));
        let i = ids.index_of(name);
        assert(list[i].id == name);
    }
    if exists|i: int| 0 <= i < list.len() && (#[trigger] list[i]).id == name {
        let i = choose|i: int| 0 <= i < list.len() && (#[trigger] list[i]).id == name;
        assert(ids[i] == name);
        assert(ids.contains(name));
    }
}

/// What to do next in a check.
#[derive(Debug)]
pub enum CheckStep {
    /// Run this command.
    Execute(CommandRequest),
    /// Nothing: the check has ended.
    Done(CheckOutcome),
}

/// What to do next in a check, as characters.
pub enum CheckStepModel {
    Execute(CommandModel),
    Done(CheckModel),
}

impl View for CheckStep {
    type V = CheckStepModel;

    open spec fn view(&self) -> CheckStepModel {
        match self {
            CheckStep::Execute(request) => CheckStepModel::Execute(request@),
            CheckStep::Done(outcome) => CheckStepModel::Done(outcome@),
        }
    }
}

/// Whether the commands of a check run with privilege that do not need it themselves. Flatpak's
/// never do, and APT's do not where PackageKit does its updates.
pub open spec fn check_is_privileged(id: ManagerId, forced: bool, packagekit: bool) -> bool {
    forced && needs_privilege(id) && id != ManagerId::Flatpak && !(id == ManagerId::Apt
        && packagekit)
}

/// What a check of APT says that ended with a status other than zero.
pub open spec fn apt_check_message_of(status_code: i32) -> Seq<char> {
    "APT check failed with status "@ + signed_decimal_of(status_code as int)
}

/// Why a check ends with a command, where it does.
pub open spec fn check_failure_of(
    id: ManagerId,
    result: Result<ReportModel, Seq<char>>,
) -> Option<Seq<char>> {
    match result {
        Ok(report) => if report.apt_lock {
            Some(apt_lock_message())
        } else if id == ManagerId::Apt && report.status_code != 0 {
            Some(apt_check_message_of(report.status_code))
        } else {
            None
        },
        Err(error) => Some(error),
    }
}

/// The log of a check after a command.
pub open spec fn check_log_after(
    output: Seq<char>,
    result: Result<ReportModel, Seq<char>>,
) -> Seq<char> {
    match result {
        Ok(report) => output + report.text,
        Err(error) => output + ended_line(error),
    }
}

/// What comes next in a check by `commands`.
pub open spec fn check_of(
    id: ManagerId,
    privileged: bool,
    commands: Seq<CommandModel>,
    results: Seq<Result<ReportModel, Seq<char>>>,
    output: Seq<char>,
    last_status: i32,
) -> CheckStepModel
    decreases commands.len(),
{
    if commands.len() == 0 {
        CheckStepModel::Done(
            CheckModel {
                output,
                has_updates: tells_of_updates(id, output, last_status),
                error: None,
            },
        )
    } else if results.len() == 0 {
        CheckStepModel::Execute(
            CommandModel {
                requires_privilege: commands[0].requires_privilege || privileged,
                ..commands[0]
            },
        )
    } else {
        let logged = output + log_line_of(commands[0].program, commands[0].args, false);
        let after = check_log_after(logged, results[0]);
        match check_failure_of(id, results[0]) {
            Some(reason) => CheckStepModel::Done(
                CheckModel { output: after, has_updates: false, error: Some(reason) },
            ),
            None => check_of(
                id,
                privileged,
                commands.skip(1),
                results.skip(1),
                after,
                match results[0] {
                    Ok(report) => report.status_code,
                    Err(_) => last_status,
                },
            ),
        }
    }
}

/// Appends what came out of a command of a check, and tells why the check ends with it, where it
/// does.
fn take_check_result(
    id: ManagerId,
    output: &mut String,
    result: &Result<CommandReport, String>,
) -> (r: Option<String>)
    ensures
        final(output)@ == check_log_after(old(output)@, result_of(*result)),
        match r {
            Some(reason) => check_failure_of(id, result_of(*result)) == Some(reason@),
            None => check_failure_of(id, result_of(*result)) is None,
        },
{
    match result {
        Ok(report) => {
            output.append(report.text.as_str());
            if report.apt_lock {
                return Some(
                    "APT is locked by another process. Please try again later.".to_string(),
                );
            }
            if id == ManagerId::Apt && report.status_code != 0 {
                let mut message = "APT check failed with status ".to_string();
                let code = signed_decimal(report.status_code);
                message.append(code.as_str());
                return Some(message);
            }
            None
        },
        Err(error) => {
            push_line(output, error.as_str());
            Some(error.clone())
        },
    }
}

/// What comes next in a check for the updates of a manager.
pub fn check_manager(
    id: ManagerId,
    force_privileged: bool,
    packagekit: bool,
    results: &Vec<Result<CommandReport, String>>,
) -> (r: CheckStep)
    ensures
        r@ == check_of(
            id,
            check_is_privileged(id, force_privileged, packagekit),
            check_commands_of(id),
            results_of(results@),
            Seq::empty(),
            0,
        ),
{
    let spec = id.spec();
    let privileged = force_privileged && spec.requires_privilege && id != ManagerId::Flatpak && !(id
        == ManagerId::Apt && packagekit);
    let list = requests_for(&spec.check_commands);
    let mut output = String::new();
    let mut last_status: i32 = 0;
    let mut i: usize = 0;
    let ghost cs = check_commands_of(id);
    let ghost rs = results_of(results@);
    proof {
        assert(spec@.check_commands == cs);
        assert(spec@.requires_privilege == needs_privilege(id));
        assert(cs.skip(0) =~= cs);
        assert(rs.skip(0) =~= rs);
    }
    while i < list.len()
        invariant
            i <= list@.len(),
            i <= results@.len(),
            cs == requests(list@),
            rs == results_of(results@),
            cs == check_commands_of(id),
            privileged == check_is_privileged(id, force_privileged, packagekit),
            check_of(id, privileged, cs, rs, Seq::empty(), 0) == check_of(
                id,
                privileged,
                cs.skip(i as int),
                rs.skip(i as int),
                output@,
                last_status,
            ),
        decreases list@.len() - i,
    {
        let request = &list[i];
        assert(cs.skip(i as int)[0] == request@);
        if i == results.len() {
            let mut command = copy_request(request);
            command.requires_privilege = command.requires_privilege || privileged;
            return CheckStep::Execute(command);
        }
        assert(rs.skip(i as int)[0] == result_of(results@[i as int]));
        let line = log_line(request.program.as_str(), &request.args, false);
        output.append(line.as_str());
        if let Some(reason) = take_check_result(id, &mut output, &results[i]) {
            return CheckStep::Done(
                CheckOutcome { output, has_updates: false, error: Some(reason) },
            );
        }
        if let Ok(report) = &results[i] {
            last_status = report.status_code;
        }
        assert(cs.skip(i as int).skip(1) =~= cs.skip(i + 1));
        assert(rs.skip(i as int).skip(1) =~= rs.skip(i + 1));
        i += 1;
    }
    let found = has_updates(id, output.as_str(), last_status);
    CheckStep::Done(CheckOutcome { output, has_updates: found, error: None })
}

/// How many commands a run asks for before it ends is bounded by the commands that it has: with
/// a result for each of them it has ended.
pub proof fn law_run_ends(
    commands: Seq<CommandModel>,
    results: Seq<Result<ReportModel, Seq<char>>>,
    output: Seq<char>,
    logs_errors: bool,
)
    requires
        results.len() >= commands.len(),
    ensures
        run_of(commands, results, output, logs_errors) is Done,
    decreases commands.len(),
{
    if commands.len() > 0 {
        law_run_ends(
            commands.skip(1),
            results.skip(1),
            log_after(
                output + log_line_of(
                    commands[0].program,
                    commands[0].args,
                    commands[0].requires_privilege,
                ),
                results[0],
                logs_errors,
            ),
            logs_errors,
        );
    }
}

/// A run asks for its commands in turn: where all before have succeeded, for the next one.
pub proof fn law_run_in_turn(
    commands: Seq<CommandModel>,
    results: Seq<Result<ReportModel, Seq<char>>>,
    output: Seq<char>,
    logs_errors: bool,
)
    requires
        results.len() < commands.len(),
        forall|i: int| 0 <= i < results.len() ==> failure_of(#[trigger] results[i]) is None,
    ensures
        run_of(commands, results, output, logs_errors) == RunModel::Execute(
            commands[results.len() as int],
        ),
    decreases commands.len(),
{
    if results.len() > 0 {
        let rest = results.skip(1);
        assert forall|i: int| 0 <= i < rest.len() implies failure_of(#[trigger] rest[i]) is None by {
            assert(rest[i] == results[i + 1]);
        }
        assert(failure_of(results[0]) is None);
        law_run_in_turn(
            commands.skip(1),
            rest,
            log_after(
                output + log_line_of(
                    commands[0].program,
                    commands[0].args,
                    commands[0].requires_privilege,
                ),
                results[0],
                logs_errors,
            ),
            logs_errors,
        );
    }
}

/// A run succeeds if and only if every command has been run and has succeeded.
pub proof fn law_run_succeeds(
    commands: Seq<CommandModel>,
    results: Seq<Result<ReportModel, Seq<char>>>,
    output: Seq<char>,
    logs_errors: bool,
)
    ensures
        (run_of(commands, results, output, logs_errors) matches RunModel::Done(outcome)
            && outcome.status is Success) <==> {
            &&& results.len() >= commands.len()
            &&& forall|i: int|
                0 <= i < commands.len() ==> failure_of(#[trigger] results[i]) is None
        },
    decreases commands.len(),
{
    if commands.len() > 0 && results.len() > 0 {
        let rest = results.skip(1);
        let after = log_after(
            output + log_line_of(
                commands[0].program,
                commands[0].args,
                commands[0].requires_privilege,
            ),
            results[0],
            logs_errors,
        );
        law_run_succeeds(commands.skip(1), rest, after, logs_errors);
        if results.len() < commands.len() {
        } else if failure_of(results[0]) is None {
            if forall|i: int| 0 <= i < commands.len() - 1 ==> failure_of(#[trigger] rest[i]) is None {
                assert forall|i: int| 0 <= i < commands.len() implies failure_of(
                    #[trigger] results[i],
                ) is None by {
                    if i > 0 {
                        assert(results[i] == rest[i - 1]);
                    }
                }
            } else {
                let k = choose|i: int|
                    0 <= i < commands.len() - 1 && !(failure_of(#[trigger] rest[i]) is None);
                assert(failure_of(results[k + 1]) is Some);
            }
        } else {
            assert(!(failure_of(results[0]) is None));
        }
    }
}

/// A check that fails tells of no updates.
pub proof fn law_failed_check(
    id: ManagerId,
    privileged: bool,
    commands: Seq<CommandModel>,
    results: Seq<Result<ReportModel, Seq<char>>>,
    output: Seq<char>,
    last_status: i32,
)
    ensures
        check_of(id, privileged, commands, results, output, last_status) matches
            CheckStepModel::Done(outcome) ==> outcome.error is Some ==> !outcome.has_updates,
    decreases commands.len(),
{
    if commands.len() > 0 && results.len() > 0 {
        law_failed_check(
            id,
            privileged,
            commands.skip(1),
            results.skip(1),
            check_log_after(
                output + log_line_of(commands[0].program, commands[0].args, false),
                results[0],
            ),
            match results[0] {
                Ok(report) => report.status_code,
                Err(_) => last_status,
            },
        );
    }
}

/// With a result for each of its commands a check has ended.
pub proof fn law_check_ends(
    id: ManagerId,
    privileged: bool,
    commands: Seq<CommandModel>,
    results: Seq<Result<ReportModel, Seq<char>>>,
    output: Seq<char>,
    last_status: i32,
)
    requires
        results.len() >= commands.len(),
    ensures
        check_of(id, privileged, commands, results, output, last_status) is Done,
    decreases commands.len(),
{
    if commands.len() > 0 {
        law_check_ends(
            id,
            privileged,
            commands.skip(1),
            results.skip(1),
            check_log_after(
                output + log_line_of(commands[0].program, commands[0].args, false),
                results[0],
            ),
            match results[0] {
                Ok(report) => report.status_code,
                Err(_) => last_status,
            },
        );
    }
}

} // verus!
