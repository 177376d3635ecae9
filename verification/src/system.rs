//! Which managers there are, by which way updates run, and commands with privilege.

use crate::command::CommandRequest;
use crate::managers::{all_managers, command, command_name_of, ManagerId, MANAGER_COUNT};
use crate::number::{signed_decimal, signed_decimal_of};
use crate::text::strings;
use crate::updates::opt_text;
use vstd::prelude::*;

verus! {

/// What the updater was built with.
#[derive(Clone, Copy, Debug, PartialEq, Eq, Structural)]
pub struct Features {
    /// Updates of APT run through PackageKit.
    pub packagekit: bool,
    /// Updates of chosen Flatpaks run through Flatpak's library.
    pub flatpak: bool,
}

/// A way by which an update runs.
#[derive(Clone, Copy, Debug, PartialEq, Eq, Structural)]
pub enum RunRoute {
    /// Through PackageKit.
    PackageKit,
    /// By commands that name the chosen packages of APT.
    AptCommands,
    /// Through Flatpak's library.
    FlatpakLibrary,
    /// By commands that name the chosen Flatpaks.
    FlatpakCommands,
    /// By one command, whose output tells how far it has come.
    DnfYum,
    /// By the manager's own commands.
    Commands,
}

/// The way by which an update runs, of everything or of chosen updates.
pub open spec fn route_of(id: ManagerId, selected: bool, features: Features) -> RunRoute {
    match id {
        ManagerId::Apt => if features.packagekit {
            RunRoute::PackageKit
        } else if selected {
            RunRoute::AptCommands
        } else {
            RunRoute::Commands
        },
        ManagerId::Flatpak => if selected && features.flatpak {
            RunRoute::FlatpakLibrary
        } else if selected {
            RunRoute::FlatpakCommands
        } else {
            RunRoute::Commands
        },
        ManagerId::Dnf | ManagerId::Yum => RunRoute::DnfYum,
        _ => RunRoute::Commands,
    }
}

/// The way by which an update runs, of everything or of chosen updates.
pub fn run_manager_with_progress(id: ManagerId, selected: bool, features: Features) -> (r: RunRoute)
    ensures
        r == route_of(id, selected, features),
{
    match id {
        ManagerId::Apt => if features.packagekit {
            RunRoute::PackageKit
        } else if selected {
            RunRoute::AptCommands
        } else {
            RunRoute::Commands
        },
        ManagerId::Flatpak => if selected && features.flatpak {
            RunRoute::FlatpakLibrary
        } else if selected {
            RunRoute::FlatpakCommands
        } else {
            RunRoute::Commands
        },
        ManagerId::Dnf | ManagerId::Yum => RunRoute::DnfYum,
        _ => RunRoute::Commands,
    }
}

/// The shell script that succeeds where a program is there.
pub fn command_exists(program: &str) -> (r: String)
    ensures
        r@ == "command -v "@ + program@,
{
    let mut script = "command -v ".to_string();
    script.append(program);
    script
}

/// What to do next to find out which managers there are.
#[derive(Debug)]
pub enum DetectStep {
    /// Find out whether this program is there.
    Probe(&'static str),
    /// Nothing: each manager, with whether it is there.
    Done(Vec<(ManagerId, bool)>),
}

/// What to do next to find out which managers there are, where these were there or not.
pub fn detect_managers(found: &Vec<bool>) -> (r: DetectStep)
    ensures
        if found@.len() < MANAGER_COUNT {
            r matches DetectStep::Probe(name) && name@ == command_name_of(
                all_managers()[found@.len() as int],
            )
        } else {
            r matches DetectStep::Done(list) && list@ == Seq::new(
                MANAGER_COUNT as nat,
                |i: int| (all_managers()[i], found@[i]),
            )
        },
{
    let all = ManagerId::all();
    if found.len() < MANAGER_COUNT {
        return DetectStep::Probe(all[found.len()].spec().command_name);
    }
    let mut list: Vec<(ManagerId, bool)> = Vec::new();
    let ghost whole = Seq::new(
        MANAGER_COUNT as nat,
        |i: int| (all_managers()[i], found@[i]),
    );
    let mut i: usize = 0;
    while i < MANAGER_COUNT
        invariant
            i <= MANAGER_COUNT <= found@.len(),
            all@ == all_managers(),
            whole == Seq::new(MANAGER_COUNT as nat, |i: int| (all_managers()[i], found@[i])),
            list@ == whole.take(i as int),
        decreases MANAGER_COUNT - i,
    {
        list.push((all[i], found[i]));
        assert(whole.take(i + 1) =~= whole.take(i as int).push(whole[i as int]));
        i += 1;
    }
    assert(whole.take(MANAGER_COUNT as int) =~= whole);
    DetectStep::Done(list)
}

/// What to do next to reboot.
#[derive(Debug)]
pub enum RebootStep {
    /// Run this command.
    Execute(CommandRequest),
    /// Nothing: it has been done, or failed for a reason.
    Done(Result<(), String>),
}

/// Why a reboot failed whose command ended with a status or could not be run, where it did.
pub open spec fn reboot_failure_of(result: Result<i32, String>) -> Option<Seq<char>> {
    match result {
        Ok(status) => if status == 0 {
            None
        } else {
            Some("reboot failed with status "@ + signed_decimal_of(status as int))
        },
        Err(error) => Some(error@),
    }
}

/// A reboot has been done if and only if its command ended with the status zero.
pub proof fn law_reboot_done(result: Result<i32, String>)
    ensures
        reboot_failure_of(result) is None <==> result == Ok::<i32, String>(0),
        result matches Err(error) ==> reboot_failure_of(result) == Some(error@),
        result matches Ok(status) ==> status != 0 ==> reboot_failure_of(result) == Some(
            "reboot failed with status "@ + signed_decimal_of(status as int),
        ),
{
}

/// What to do next to reboot, where the command has been run or not.
pub fn reboot_system(result: &Option<Result<i32, String>>) -> (r: RebootStep)
    ensures
        match result {
            None => r matches RebootStep::Execute(request) && request@ == command(
                "systemctl"@,
                seq!["reboot"@],
                true,
            ),
            Some(done) => match reboot_failure_of(*done) {
                Some(why) => r matches RebootStep::Done(Err(reason)) && reason@ == why,
                None => r matches RebootStep::Done(end) && end is Ok,
            },
        },
{
    match result {
        None => {
            let request = CommandRequest {
                program: "systemctl".to_string(),
                args: vec!["reboot".to_string()],
                requires_privilege: true,
            };
            assert(strings(request.args@) =~= seq!["reboot"@]);
            RebootStep::Execute(request)
        },
        Some(Ok(status)) => if *status == 0 {
            RebootStep::Done(Ok(()))
        } else {
            let mut reason = "reboot failed with status ".to_string();
            let digits = signed_decimal(*status);
            reason.append(digits.as_str());
            RebootStep::Done(Err(reason))
        },
        Some(Err(error)) => RebootStep::Done(Err(error.clone())),
    }
}

/// Who runs a command with privilege.
#[derive(Clone, Copy, Debug, PartialEq, Eq, Structural)]
pub enum Runner {
    Helper,
    Shell,
}

/// How often the helper may fail at one command.
pub const HELPER_ATTEMPTS: usize = 2;

/// A command with privilege that is being run: by the helper, and, once the helper has failed at
/// it as often as it may, by a shell. From then on the helper is not used any more.
#[derive(Debug)]
pub struct PrivilegedRun {
    pub helper_disabled: bool,
    pub helper_failures: usize,
    pub last_error: Option<String>,
}

impl PrivilegedRun {
    /// Whether the helper has not failed more often than it may, and is not used any more once it
    /// has failed as often.
    pub open spec fn wf(&self) -> bool {
        &&& self.helper_failures <= HELPER_ATTEMPTS
        &&& self.helper_failures == HELPER_ATTEMPTS ==> self.helper_disabled
        &&& self.last_error is Some <==> self.helper_failures > 0
    }

    /// A command that nobody has run.
    pub fn new(helper_disabled: bool) -> (r: Self)
        ensures
            r.wf(),
            r.helper_disabled == helper_disabled,
            r.helper_failures == 0,
    {
        PrivilegedRun { helper_disabled, helper_failures: 0, last_error: None }
    }

    /// Who runs the command next.
    pub fn runner(&self) -> (r: Runner)
        ensures
            r == (if self.helper_disabled {
                Runner::Shell
            } else {
                Runner::Helper
            }),
    {
        if self.helper_disabled {
            Runner::Shell
        } else {
            Runner::Helper
        }
    }

    /// Takes the reason for which the helper failed.
    pub fn helper_failed(&mut self, error: String)
        requires
            old(self).wf(),
            !old(self).helper_disabled,
        ensures
            final(self).wf(),
            final(self).helper_failures == old(self).helper_failures + 1,
            final(self).helper_disabled == (final(self).helper_failures == HELPER_ATTEMPTS),
            opt_text(final(self).last_error) == Some(error@),
    {
        self.helper_failures = self.helper_failures + 1;
        self.last_error = Some(error);
        if self.helper_failures == HELPER_ATTEMPTS {
            self.helper_disabled = true;
        }
    }

    /// Takes the reason for which the shell failed, and gives the reason for which the command
    /// failed: the helper's last one, if there is one, on a line before it.
    pub fn shell_failed(&self, error: &str) -> (r: String)
        ensures
            r@ == match self.last_error {
                Some(helper_error) => helper_error@ + "\n"@ + error@,
                None => error@,
            },
    {
        match &self.last_error {
            Some(helper_error) => {
                let mut reason = helper_error.clone();
                reason.append("\n");
                reason.append(error);
                reason
            },
            None => error.to_string(),
        }
    }
}

} // verus!
