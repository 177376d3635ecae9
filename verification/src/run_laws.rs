//! What holds of runs and checks, command by command.

use crate::command::apt_program;
use crate::managers::{
    check_commands_of, command_name_of, needs_privilege, update_commands_of, CommandModel,
    ManagerId,
};
use crate::number::signed_decimal_of;
use crate::parse::tells_of_updates;
use crate::run::{
    apt_commands_of, check_is_privileged, check_of, dnf_yum_command_of, failure_of,
    package_names_of, run_of, CheckStepModel, ReportModel, RunModel,
};
use crate::system::{route_of, Features, RunRoute};
use crate::text::join_of;
use crate::updates::{CheckModel, EntryModel, OutcomeModel, StatusModel};
use vstd::prelude::*;

verus! {

/// A command succeeds if and only if it could be run, was not given up for APT's lock, and ended
/// with the status zero; else the reason is the error, the lock, or the status.
pub proof fn law_command_fails(result: Result<ReportModel, Seq<char>>)
    ensures
        failure_of(result) is None <==> (result matches Ok(report) && !report.apt_lock
            && report.status_code == 0),
        result matches Err(error) ==> failure_of(result) == Some(error),
        result matches Ok(report) ==> (report.apt_lock ==> failure_of(result) == Some(
            "APT is locked by another process. Please try again later."@,
        )),
        result matches Ok(report) ==> (!report.apt_lock && report.status_code != 0 ==> failure_of(
            result,
        ) == Some("Exited with status: "@ + signed_decimal_of(report.status_code as int))),
{
}

/// The log behind `output` once a command has begun.
pub open spec fn begun(output: Seq<char>, c: CommandModel, privileged: bool) -> Seq<char> {
    output + ((if privileged {
        "$ pkexec "@
    } else {
        "$ "@
    }) + c.program + " "@ + join_of(c.args, " "@) + "\n"@)
}

/// A run without commands has ended well; one without results begins with its first command. The
/// command and what it printed go to the log. Where it succeeded, the run goes on with the other
/// commands; where not, it ends, and the log ends with the reason.
pub proof fn law_run_first(
    c: CommandModel,
    others: Seq<CommandModel>,
    result: Result<ReportModel, Seq<char>>,
    results: Seq<Result<ReportModel, Seq<char>>>,
    output: Seq<char>,
    logs_errors: bool,
)
    ensures
        run_of(Seq::empty(), results, output, logs_errors) == RunModel::Done(
            OutcomeModel { output, status: StatusModel::Success },
        ),
        run_of(seq![c] + others, Seq::empty(), output, logs_errors) == RunModel::Execute(c),
        ({
            let log = begun(output, c, c.requires_privilege);
            let next = run_of(seq![c] + others, seq![result] + results, output, logs_errors);
            match result {
                Ok(report) => if report.apt_lock || report.status_code != 0 {
                    let reason = if report.apt_lock {
                        "APT is locked by another process. Please try again later."@
                    } else {
                        "Exited with status: "@ + signed_decimal_of(report.status_code as int)
                    };
                    next == RunModel::Done(
                        OutcomeModel {
                            output: log + report.text + reason + "\n"@,
                            status: StatusModel::Failed(reason),
                        },
                    )
                } else {
                    next == run_of(others, results, log + report.text, logs_errors)
                },
                Err(error) => {
                    &&& next matches RunModel::Done(outcome)
                    &&& outcome.status == StatusModel::Failed(error)
                    &&& outcome.output == if !logs_errors {
                        log
                    } else if error.len() > 0 && error[error.len() - 1] == '\n' {
                        log + error
                    } else {
                        log + error + "\n"@
                    }
                },
            }
        }),
{
    let commands = seq![c] + others;
    let all = seq![result] + results;
    assert(commands.skip(1) =~= others);
    assert(all.skip(1) =~= results);
    let log = begun(output, c, c.requires_privilege);
    if let Err(error) = result {
        assert(log + (error + "\n"@) =~= log + error + "\n"@);
    }
}

/// A check without commands has ended, and tells of updates by its output and the last status; one
/// without results begins with its first command, with privilege where the check has it. The
/// command and what it printed go to the log. A lock and an error end the check, and so does any
/// status but zero in a check of APT; else it goes on with the other commands.
pub proof fn law_check_first(
    id: ManagerId,
    privileged: bool,
    c: CommandModel,
    others: Seq<CommandModel>,
    result: Result<ReportModel, Seq<char>>,
    results: Seq<Result<ReportModel, Seq<char>>>,
    output: Seq<char>,
    status: i32,
)
    ensures
        check_of(id, privileged, Seq::empty(), results, output, status) == CheckStepModel::Done(
            CheckModel { output, has_updates: tells_of_updates(id, output, status), error: None },
        ),
        check_of(id, privileged, seq![c] + others, Seq::empty(), output, status)
            == CheckStepModel::Execute(
            CommandModel {
                program: c.program,
                args: c.args,
                requires_privilege: privileged || c.requires_privilege,
            },
        ),
        ({
            let log = begun(output, c, false);
            let next = check_of(
                id,
                privileged,
                seq![c] + others,
                seq![result] + results,
                output,
                status,
            );
            match result {
                Ok(report) => if report.apt_lock || (id == ManagerId::Apt && report.status_code
                    != 0) {
                    next == CheckStepModel::Done(
                        CheckModel {
                            output: log + report.text,
                            has_updates: false,
                            error: Some(
                                if report.apt_lock {
                                    "APT is locked by another process. Please try again later."@
                                } else {
                                    "APT check failed with status "@ + signed_decimal_of(
                                        report.status_code as int,
                                    )
                                },
                            ),
                        },
                    )
                } else {
                    next == check_of(
                        id,
                        privileged,
                        others,
                        results,
                        log + report.text,
                        report.status_code,
                    )
                },
                Err(error) => {
                    &&& next matches CheckStepModel::Done(outcome)
                    &&& outcome.error == Some(error)
                    &&& !outcome.has_updates
                    &&& outcome.output == if error.len() > 0 && error[error.len() - 1] == '\n' {
                        log + error
                    } else {
                        log + error + "\n"@
                    }
                },
            }
        }),
{
    let commands = seq![c] + others;
    let all = seq![result] + results;
    assert(commands.skip(1) =~= others);
    assert(all.skip(1) =~= results);
    let log = begun(output, c, false);
    if let Err(error) = result {
        assert(log + (error + "\n"@) =~= log + error + "\n"@);
    }
}

/// A check of DNF or of YUM that could be run finds updates if and only if it ended with the status
/// 100, whatever it printed; no status is an error.
pub proof fn law_rpm_check(id: ManagerId, privileged: bool, report: ReportModel)
    requires
        id == ManagerId::Dnf || id == ManagerId::Yum,
        !report.apt_lock,
    ensures
        check_of(
            id,
            privileged,
            check_commands_of(id),
            seq![Ok(report)],
            Seq::empty(),
            0,
        ) matches CheckStepModel::Done(outcome) && outcome.error is None && (outcome.has_updates
            <==> report.status_code == 100),
{
    let none = Seq::<CommandModel>::empty();
    let no_results = Seq::<Result<ReportModel, Seq<char>>>::empty();
    let c = check_commands_of(id)[0];
    assert(check_commands_of(id) =~= seq![c] + none);
    let results: Seq<Result<ReportModel, Seq<char>>> = seq![Ok(report)];
    assert(results =~= results + no_results);
    law_check_first(id, privileged, c, none, Ok(report), no_results, Seq::empty(), 0);
}

/// A check by one command that could be run has printed its command line and what the command
/// printed; what it finds is told by that and the status.
pub proof fn law_check_by_one_command(id: ManagerId, privileged: bool, report: ReportModel)
    requires
        id != ManagerId::Flatpak,
        !report.apt_lock,
        id == ManagerId::Apt ==> report.status_code == 0,
    ensures
        ({
            let c = check_commands_of(id)[0];
            let output = begun(Seq::empty(), c, false) + report.text;
            check_of(
                id,
                privileged,
                check_commands_of(id),
                seq![Ok(report)],
                Seq::empty(),
                0,
            ) == CheckStepModel::Done(
                CheckModel {
                    output,
                    has_updates: tells_of_updates(id, output, report.status_code),
                    error: None,
                },
            )
        }),
{
    let none = Seq::<CommandModel>::empty();
    let no_results = Seq::<Result<ReportModel, Seq<char>>>::empty();
    let c = check_commands_of(id)[0];
    assert(check_commands_of(id) =~= seq![c] + none);
    let results: Seq<Result<ReportModel, Seq<char>>> = seq![Ok(report)];
    assert(results =~= results + no_results);
    law_check_first(id, privileged, c, none, Ok(report), no_results, Seq::empty(), 0);
}

/// A check has privilege only where it is asked for, and never for Nix and Homebrew, which need
/// none, nor for Flatpak, nor for APT where PackageKit does its updates.
pub proof fn law_check_privilege(id: ManagerId, forced: bool, packagekit: bool)
    ensures
        check_is_privileged(id, forced, packagekit) <==> forced && match id {
            ManagerId::NixEnv | ManagerId::Brew | ManagerId::Flatpak => false,
            ManagerId::Apt => !packagekit,
            _ => true,
        },
{
}

/// Updates through DNF and YUM run one command with privilege that does not ask back, and that
/// names the chosen packages, if any are chosen. That of YUM goes through `stdbuf`, where it is
/// there.
pub proof fn law_dnf_yum_command(id: ManagerId, list: Seq<EntryModel>, stdbuf: bool)
    requires
        id == ManagerId::Dnf || id == ManagerId::Yum,
    ensures
        ({
            let all = dnf_yum_command_of(id, None, stdbuf);
            let chosen = dnf_yum_command_of(id, Some(list), stdbuf);
            let head = if id == ManagerId::Dnf {
                seq!["dnf"@, "update"@, "-y"@]
            } else if stdbuf {
                seq!["stdbuf"@, "-o0"@, "-e0"@, "yum"@, "update"@, "-y"@]
            } else {
                seq!["yum"@, "update"@, "-y"@]
            };
            &&& seq![all.program] + all.args == head
            &&& seq![chosen.program] + chosen.args == head + package_names_of(list)
            &&& all.requires_privilege
            &&& chosen.requires_privilege
        }),
{
    let all = dnf_yum_command_of(id, None, stdbuf);
    let chosen = dnf_yum_command_of(id, Some(list), stdbuf);
    let names = package_names_of(list);
    if id == ManagerId::Dnf {
        let head = seq!["dnf"@, "update"@, "-y"@];
        assert(seq![all.program] + all.args =~= head);
        assert(seq![chosen.program] + chosen.args =~= head + names);
    } else if stdbuf {
        let head = seq!["stdbuf"@, "-o0"@, "-e0"@, "yum"@, "update"@, "-y"@];
        assert(seq![all.program] + all.args =~= head);
        assert(seq![chosen.program] + chosen.args =~= head + names);
    } else {
        let head = seq!["yum"@, "update"@, "-y"@];
        assert(seq![all.program] + all.args =~= head);
        assert(seq![chosen.program] + chosen.args =~= head + names);
    }
}

/// Chosen packages of APT are upgraded, and none is installed anew: after the lists of packages
/// are brought up to date, one command names them. Both need privilege, and the second does not
/// ask back.
pub proof fn law_apt_selected_commands(list: Seq<EntryModel>)
    ensures
        ({
            let commands = apt_commands_of(list);
            &&& commands.len() == 2
            &&& seq![commands[0].program] + commands[0].args == seq!["apt-get"@, "update"@]
            &&& seq![commands[1].program] + commands[1].args == seq![
                "apt-get"@,
                "install"@,
                "--only-upgrade"@,
                "-y"@,
            ] + package_names_of(list)
            &&& commands[0].requires_privilege && commands[1].requires_privilege
            &&& apt_program(commands[0].program) && apt_program(commands[1].program)
        }),
{
    let commands = apt_commands_of(list);
    assert(seq![commands[0].program] + commands[0].args =~= seq!["apt-get"@, "update"@]);
    assert(seq![commands[1].program] + commands[1].args =~= seq![
        "apt-get"@,
        "install"@,
        "--only-upgrade"@,
        "-y"@,
    ] + package_names_of(list));
}

/// The words of a command line.
pub open spec fn command_words(c: CommandModel) -> Seq<Seq<char>> {
    seq![c.program] + c.args
}

/// Everything that a manager holds is updated by these command lines, none of which asks back.
/// Each is of the manager's own program, and has privilege where updates through the manager need
/// it; the first of Flatpak updates what the user has, and needs none.
pub proof fn law_update_command_lines(id: ManagerId, i: int)
    requires
        0 <= i < update_commands_of(id).len(),
    ensures
        ({
            let c = update_commands_of(id)[i];
            &&& c.program == command_name_of(id)
            &&& c.requires_privilege == (needs_privilege(id) && !(id == ManagerId::Flatpak && i
                == 0))
            &&& command_words(c) == match id {
                ManagerId::Flatpak => if i == 0 {
                    seq!["flatpak"@, "update"@, "-y"@]
                } else {
                    seq!["flatpak"@, "update"@, "--system"@, "-y"@]
                },
                ManagerId::Snap => seq!["snap"@, "refresh"@],
                ManagerId::Dnf => seq!["dnf"@, "update"@, "-y"@],
                ManagerId::Yum => seq!["yum"@, "update"@, "-y"@],
                ManagerId::Pacman => seq!["pacman"@, "-Syu"@, "--noconfirm"@],
                ManagerId::Zypper => if i == 0 {
                    seq!["zypper"@, "refresh"@]
                } else {
                    seq!["zypper"@, "update"@, "-y"@]
                },
                ManagerId::Emerge => seq!["emerge"@, "--update"@, "--deep"@, "@world"@],
                ManagerId::NixEnv => seq!["nix-env"@, "-u"@, "*"@],
                ManagerId::Brew => if i == 0 {
                    seq!["brew"@, "update"@]
                } else {
                    seq!["brew"@, "upgrade"@]
                },
                ManagerId::Apt => if i == 0 {
                    seq!["apt-get"@, "update"@]
                } else {
                    seq!["apt-get"@, "upgrade"@, "-y"@]
                },
            }
        }),
        update_commands_of(id).len() == if id == ManagerId::Flatpak || id == ManagerId::Zypper || id
            == ManagerId::Brew || id == ManagerId::Apt {
            2nat
        } else {
            1nat
        },
        needs_privilege(id) <==> id != ManagerId::NixEnv && id != ManagerId::Brew,
{
    let words = command_words(update_commands_of(id)[i]);
    match id {
        ManagerId::Flatpak => {
            assert(i == 0 ==> words =~= seq!["flatpak"@, "update"@, "-y"@]);
            assert(i == 1 ==> words =~= seq!["flatpak"@, "update"@, "--system"@, "-y"@]);
        },
        ManagerId::Snap => {
            assert(words =~= seq!["snap"@, "refresh"@]);
        },
        ManagerId::Dnf => {
            assert(words =~= seq!["dnf"@, "update"@, "-y"@]);
        },
        ManagerId::Yum => {
            assert(words =~= seq!["yum"@, "update"@, "-y"@]);
        },
        ManagerId::Pacman => {
            assert(words =~= seq!["pacman"@, "-Syu"@, "--noconfirm"@]);
        },
        ManagerId::Zypper => {
            assert(i == 0 ==> words =~= seq!["zypper"@, "refresh"@]);
            assert(i == 1 ==> words =~= seq!["zypper"@, "update"@, "-y"@]);
        },
        ManagerId::Emerge => {
            assert(words =~= seq!["emerge"@, "--update"@, "--deep"@, "@world"@]);
        },
        ManagerId::NixEnv => {
            assert(words =~= seq!["nix-env"@, "-u"@, "*"@]);
        },
        ManagerId::Brew => {
            assert(i == 0 ==> words =~= seq!["brew"@, "update"@]);
            assert(i == 1 ==> words =~= seq!["brew"@, "upgrade"@]);
        },
        ManagerId::Apt => {
            assert(i == 0 ==> words =~= seq!["apt-get"@, "update"@]);
            assert(i == 1 ==> words =~= seq!["apt-get"@, "upgrade"@, "-y"@]);
        },
    }
}

/// A manager is checked by these command lines, which change nothing and need no privilege of
/// their own.
pub proof fn law_check_command_lines(id: ManagerId, i: int)
    requires
        0 <= i < check_commands_of(id).len(),
    ensures
        ({
            let c = check_commands_of(id)[i];
            &&& !c.requires_privilege
            &&& id != ManagerId::Apt ==> c.program == command_name_of(id)
            &&& command_words(c) == match id {
                ManagerId::Flatpak => if i == 0 {
                    seq!["flatpak"@, "list"@, "--columns=application,ref,version,installation"@]
                } else {
                    seq![
                        "flatpak"@,
                        "remote-ls"@,
                        "--updates"@,
                        "--columns=application,ref,version,commit"@,
                    ]
                },
                ManagerId::Snap => seq!["snap"@, "refresh"@, "--list"@],
                ManagerId::Dnf => seq!["dnf"@, "check-update"@],
                ManagerId::Yum => seq!["yum"@, "check-update"@],
                ManagerId::Pacman => seq!["pacman"@, "-Qu"@],
                ManagerId::Zypper => seq!["zypper"@, "list-updates"@],
                ManagerId::Emerge => seq![
                    "emerge"@,
                    "--pretend"@,
                    "--update"@,
                    "--deep"@,
                    "@world"@,
                ],
                ManagerId::NixEnv => seq!["nix-env"@, "-u"@, "*"@, "--dry-run"@],
                ManagerId::Brew => seq!["brew"@, "outdated"@],
                ManagerId::Apt => seq!["apt"@, "list"@, "--upgradable"@],
            }
        }),
        check_commands_of(id).len() == if id == ManagerId::Flatpak {
            2nat
        } else {
            1nat
        },
{
    let words = command_words(check_commands_of(id)[i]);
    match id {
        ManagerId::Flatpak => {
            assert(i == 0 ==> words =~= seq![
                "flatpak"@,
                "list"@,
                "--columns=application,ref,version,installation"@,
            ]);
            assert(i == 1 ==> words =~= seq![
                "flatpak"@,
                "remote-ls"@,
                "--updates"@,
                "--columns=application,ref,version,commit"@,
            ]);
        },
        ManagerId::Snap => {
            assert(words =~= seq!["snap"@, "refresh"@, "--list"@]);
        },
        ManagerId::Dnf => {
            assert(words =~= seq!["dnf"@, "check-update"@]);
        },
        ManagerId::Yum => {
            assert(words =~= seq!["yum"@, "check-update"@]);
        },
        ManagerId::Pacman => {
            assert(words =~= seq!["pacman"@, "-Qu"@]);
        },
        ManagerId::Zypper => {
            assert(words =~= seq!["zypper"@, "list-updates"@]);
        },
        ManagerId::Emerge => {
            assert(words =~= seq!["emerge"@, "--pretend"@, "--update"@, "--deep"@, "@world"@]);
        },
        ManagerId::NixEnv => {
            assert(words =~= seq!["nix-env"@, "-u"@, "*"@, "--dry-run"@]);
        },
        ManagerId::Brew => {
            assert(words =~= seq!["brew"@, "outdated"@]);
        },
        ManagerId::Apt => {
            assert(words =~= seq!["apt"@, "list"@, "--upgradable"@]);
        },
    }
}

/// Programs of APT are repeated while it is locked, and no others.
pub proof fn law_apt_programs(program: Seq<char>)
    ensures
        apt_program(program) <==> seq!["apt"@, "apt-get"@].contains(program),
{
    let both = seq!["apt"@, "apt-get"@];
    assert(both[0] == "apt"@ && both[1] == "apt-get"@);
    if both.contains(program) {
        let i = both.index_of(program);
    }
}

/// APT is updated through PackageKit where the updater was built with it, and through Flatpak's
/// library only chosen Flatpaks are, where it was built with that. Other chosen updates run by
/// commands that name them, and everything else by the manager's own commands; but for DNF and
/// YUM, whose command tells how far it has come.
pub proof fn law_routes(id: ManagerId, selected: bool, features: Features)
    ensures
        ({
            let route = route_of(id, selected, features);
            &&& route == RunRoute::PackageKit <==> id == ManagerId::Apt && features.packagekit
            &&& route == RunRoute::AptCommands <==> id == ManagerId::Apt && selected
                && !features.packagekit
            &&& route == RunRoute::FlatpakLibrary <==> id == ManagerId::Flatpak && selected
                && features.flatpak
            &&& route == RunRoute::FlatpakCommands <==> id == ManagerId::Flatpak && selected
                && !features.flatpak
            &&& route == RunRoute::DnfYum <==> id == ManagerId::Dnf || id == ManagerId::Yum
        }),
{
}

} // verus!
