use mystic_update::command::{CommandReport, CommandRequest};
use mystic_update::flatpak::{
    add_flatpak_updates, flatpak_groups, flatpak_update_blocking, ref_operations,
    run_flatpak_selected, FlatpakStep, RefOperation, RefOutcome, RefStep,
};
use mystic_update::managers::ManagerId;
use mystic_update::packagekit::{
    collect_update_ids, packagekit_update_blocking, task_failed, transaction_collect_packages,
    transaction_run_with_progress, PackageKitStep, Signal, SignalStep,
};
use mystic_update::parse::apt_has_updates;
use mystic_update::progress::{new_progress_tracker, ProgressChange};
use mystic_update::run::{
    check_manager, package_names, run_apt_selected, run_dnf_yum_with_progress, run_manager,
    CheckStep, DnfYumStep, RunStep,
};
use mystic_update::system::{
    command_exists, detect_managers, reboot_system, run_manager_with_progress, DetectStep, Features,
    PrivilegedRun, RebootStep, RunRoute, Runner,
};
use mystic_update::updates::{CheckOutcome, InstallScope, TaskStatus, UpdateEntry, UpdateOutcome};

type Results = Vec<Result<CommandReport, String>>;

fn report(text: &str, status_code: i32) -> Result<CommandReport, String> {
    Ok(CommandReport { text: text.to_string(), status_code, apt_lock: false })
}

fn locked(text: &str) -> Result<CommandReport, String> {
    Ok(CommandReport { text: text.to_string(), status_code: 100, apt_lock: true })
}

fn next_command(step: RunStep) -> String {
    match step {
        RunStep::Execute(request) => command_text(&request),
        RunStep::Done(outcome) => panic!("{outcome:?}"),
    }
}

fn command_text(request: &CommandRequest) -> String {
    let privilege = if request.requires_privilege { "pkexec " } else { "" };
    format!("{privilege}{} {}", request.program, request.args.join(" "))
}

fn ended(step: RunStep) -> UpdateOutcome {
    match step {
        RunStep::Done(outcome) => outcome,
        RunStep::Execute(request) => panic!("{request:?}"),
    }
}

fn checked(step: CheckStep) -> CheckOutcome {
    match step {
        CheckStep::Done(outcome) => outcome,
        CheckStep::Execute(request) => panic!("{request:?}"),
    }
}

fn failure(status: &TaskStatus) -> Option<&str> {
    match status {
        TaskStatus::Failed(reason) => Some(reason.as_str()),
        _ => None,
    }
}

fn update(id: &str, scope: Option<InstallScope>) -> UpdateEntry {
    UpdateEntry {
        manager: ManagerId::Flatpak,
        id: id.to_string(),
        name: id.to_string(),
        current_version: None,
        new_version: None,
        scope,
    }
}

fn names(list: &[&str]) -> Vec<String> {
    list.iter().map(|name| name.to_string()).collect()
}

#[test]
fn commands_run_in_turn() {
    let mut results: Results = Vec::new();
    assert_eq!(next_command(run_manager(ManagerId::Apt, &results)), "pkexec apt-get update");
    results.push(report("Hit:1\n", 0));
    assert_eq!(next_command(run_manager(ManagerId::Apt, &results)), "pkexec apt-get upgrade -y");
    results.push(report("1 upgraded, 0 newly installed\n", 0));
    let outcome = ended(run_manager(ManagerId::Apt, &results));
    assert!(outcome.status.is_success());
    assert_eq!(
        outcome.output,
        "$ pkexec apt-get update\nHit:1\n$ pkexec apt-get upgrade -y\n\
         1 upgraded, 0 newly installed\n"
    );
}

#[test]
fn run_ends_with_what_fails() {
    let outcome = ended(run_manager(ManagerId::Apt, &vec![report("x\n", 3)]));
    assert_eq!(failure(&outcome.status), Some("Exited with status: 3"));
    assert_eq!(outcome.output, "$ pkexec apt-get update\nx\nExited with status: 3\n");
    let outcome = ended(run_manager(ManagerId::Apt, &vec![locked("x\n")]));
    let message = "APT is locked by another process. Please try again later.";
    assert_eq!(failure(&outcome.status), Some(message));
    assert_eq!(outcome.output, format!("$ pkexec apt-get update\nx\n{message}\n"));
    let outcome = ended(run_manager(ManagerId::Brew, &vec![Err("not found".to_string())]));
    assert_eq!(failure(&outcome.status), Some("not found"));
    assert_eq!(outcome.output, "$ brew update\nnot found\n");
}

fn dnf_command(step: DnfYumStep) -> String {
    match step {
        DnfYumStep::Execute { request, progress } => {
            assert_eq!(progress, ProgressChange::Start);
            command_text(&request)
        }
        other => panic!("{other:?}"),
    }
}

fn dnf_ended(step: DnfYumStep) -> UpdateOutcome {
    match step {
        DnfYumStep::Done { outcome, progress } => {
            assert_eq!(progress, ProgressChange::Clear);
            outcome
        }
        other => panic!("{other:?}"),
    }
}

#[test]
fn packages_of_dnf_are_named() {
    let none: Results = Vec::new();
    let step = run_dnf_yum_with_progress(ManagerId::Dnf, &None, true, &none);
    assert_eq!(dnf_command(step), "pkexec dnf update -y");
    let chosen = Some(vec![update("b.noarch", None), update("a.noarch", None), update("b.noarch", None)]);
    let step = run_dnf_yum_with_progress(ManagerId::Dnf, &chosen, false, &none);
    assert_eq!(dnf_command(step), "pkexec dnf update -y a.noarch b.noarch");
    let step = run_dnf_yum_with_progress(ManagerId::Yum, &chosen, true, &none);
    assert_eq!(dnf_command(step), "pkexec stdbuf -o0 -e0 yum update -y a.noarch b.noarch");
    let step = run_dnf_yum_with_progress(ManagerId::Yum, &None, false, &none);
    assert_eq!(dnf_command(step), "pkexec yum update -y");
    let step = run_dnf_yum_with_progress(ManagerId::Yum, &None, true, &vec![report("ok\n", 0)]);
    let outcome = dnf_ended(step);
    assert!(outcome.status.is_success());
    assert_eq!(outcome.output, "$ pkexec stdbuf -o0 -e0 yum update -y\nok\n");
    let step = run_dnf_yum_with_progress(ManagerId::Dnf, &None, true, &vec![report("x\n", 1)]);
    assert_eq!(failure(&dnf_ended(step).status), Some("Exited with status: 1"));
    let step = run_dnf_yum_with_progress(ManagerId::Dnf, &None, true, &vec![Err("e".to_string())]);
    assert_eq!(failure(&dnf_ended(step).status), Some("e"));
    assert_eq!(package_names(&chosen.unwrap()), names(&["a.noarch", "b.noarch"]));
}

#[test]
fn progress_of_dnf_is_its_own() {
    let mut tracker = new_progress_tracker();
    tracker.report_progress(ManagerId::Apt, 7f32.to_bits());
    tracker.change(ManagerId::Dnf, ProgressChange::Start);
    assert_eq!(tracker.get(ManagerId::Dnf), Some(0));
    tracker.change(ManagerId::Dnf, ProgressChange::Keep);
    assert_eq!(tracker.get(ManagerId::Dnf), Some(0));
    tracker.change(ManagerId::Dnf, ProgressChange::Complete);
    assert_eq!(tracker.get(ManagerId::Dnf), Some(100f32.to_bits()));
    tracker.change(ManagerId::Dnf, ProgressChange::Clear);
    assert_eq!(tracker.get(ManagerId::Dnf), None);
    assert_eq!(tracker.get(ManagerId::Apt), Some(7f32.to_bits()));
}

#[test]
fn chosen_packages_of_apt_run_by_commands() {
    let list = vec![update("vim", None), update("bash", None), update("vim", None)];
    let mut results: Results = Vec::new();
    assert_eq!(next_command(run_apt_selected(&list, &results)), "pkexec apt-get update");
    results.push(report("", 0));
    assert_eq!(
        next_command(run_apt_selected(&list, &results)),
        "pkexec apt-get install --only-upgrade -y bash vim"
    );
    results.push(report("2 upgraded, 0 newly installed\n", 0));
    let outcome = ended(run_apt_selected(&list, &results));
    assert!(outcome.status.is_success());
    assert!(apt_has_updates(&outcome.output));
    let outcome = ended(run_apt_selected(&list, &vec![report("", 9)]));
    assert_eq!(failure(&outcome.status), Some("Exited with status: 9"));
}

#[test]
fn check_finds_updates() {
    let none: Results = Vec::new();
    match check_manager(ManagerId::Dnf, true, false, &none) {
        CheckStep::Execute(request) => assert_eq!(command_text(&request), "pkexec dnf check-update"),
        other => panic!("{other:?}"),
    }
    match check_manager(ManagerId::Apt, true, true, &none) {
        CheckStep::Execute(request) => assert_eq!(command_text(&request), "apt list --upgradable"),
        other => panic!("{other:?}"),
    }
    match check_manager(ManagerId::Flatpak, true, false, &vec![report("", 0)]) {
        CheckStep::Execute(request) => assert!(!request.requires_privilege),
        other => panic!("{other:?}"),
    }
    let outcome = checked(check_manager(ManagerId::Dnf, false, false, &vec![report("a\n", 100)]));
    assert_eq!(outcome.output, "$ dnf check-update\na\n");
    assert!(outcome.has_updates && outcome.error.is_none());
}

#[test]
fn check_ends_with_what_fails() {
    let outcome = checked(check_manager(ManagerId::Apt, false, false, &vec![report("x\n", 2)]));
    assert_eq!(outcome.error.as_deref(), Some("APT check failed with status 2"));
    assert_eq!(outcome.output, "$ apt list --upgradable\nx\n");
    let outcome = checked(check_manager(ManagerId::Apt, false, false, &vec![locked("x\n")]));
    assert_eq!(
        outcome.error.as_deref(),
        Some("APT is locked by another process. Please try again later.")
    );
    let outcome = checked(check_manager(ManagerId::Snap, false, false, &vec![Err("gone".to_string())]));
    assert_eq!(outcome.error.as_deref(), Some("gone"));
    assert_eq!(outcome.output, "$ snap refresh --list\ngone\n");
    assert!(!outcome.has_updates);
}

#[test]
fn check_of_flatpak_is_read_back() {
    let listed = "org.a\tapp/org.a/x/s\t1\tuser\n";
    let offered = "org.a\tapp/org.a/x/s\t2\tc\norg.b\tapp/org.b/x/s\t3\td\n";
    let results = vec![report(listed, 0), report(offered, 0)];
    let outcome = checked(check_manager(ManagerId::Flatpak, true, false, &results));
    assert!(outcome.has_updates);
    let found = mystic_update::parse::parse_updates(ManagerId::Flatpak, &outcome.output);
    assert_eq!(found.len(), 2);
    assert_eq!(found[0].current_version.as_deref(), Some("1"));
    assert_eq!(found[0].new_version.as_deref(), Some("2"));
    assert_eq!(found[0].scope, Some(InstallScope::User));
    assert_eq!(found[1].current_version, None);
}

#[test]
fn chosen_flatpaks_run_by_commands() {
    let list = vec![
        update("u2", Some(InstallScope::User)),
        update("x", None),
        update("s", Some(InstallScope::System)),
        update("u1", Some(InstallScope::User)),
        update("u2", Some(InstallScope::User)),
    ];
    let mut results: Results = Vec::new();
    let first = next_command(run_flatpak_selected(&list, &results));
    assert_eq!(first, "flatpak update -y --user u1 u2");
    results.push(report("", 0));
    let second = next_command(run_flatpak_selected(&list, &results));
    assert_eq!(second, "pkexec flatpak update -y --system s");
    results.push(report("", 0));
    assert_eq!(next_command(run_flatpak_selected(&list, &results)), "flatpak update -y x");
    results.push(Err("broken".to_string()));
    let outcome = ended(run_flatpak_selected(&list, &results));
    assert_eq!(failure(&outcome.status), Some("broken"));
    assert!(outcome.output.ends_with("$ flatpak update -y x\n"));
    let mut other = update("a", None);
    other.manager = ManagerId::Apt;
    let outcome = ended(run_flatpak_selected(&vec![other], &Vec::new()));
    assert_eq!(outcome.output, "No Flatpak updates selected.\n");
    assert_eq!(failure(&outcome.status), Some("No updates selected"));
}

#[test]
fn chosen_flatpaks_run_in_groups() {
    let list = vec![update("x", None), update("s", Some(InstallScope::System))];
    let groups: Vec<(bool, Vec<String>)> =
        flatpak_groups(&list).into_iter().map(|group| (group.user, group.refs)).collect();
    assert_eq!(
        groups,
        vec![(false, names(&["s"])), (true, names(&["x"])), (false, names(&["x"]))]
    );
    match flatpak_update_blocking(&list, &vec![Ok(1)]) {
        FlatpakStep::RunGroup { group, index, count } => {
            assert_eq!((group.user, group.refs, index, count), (true, names(&["x"]), 1, 3));
        }
        other => panic!("{other:?}"),
    }
    match flatpak_update_blocking(&list, &vec![Ok(1), Ok(0), Ok(2)]) {
        FlatpakStep::Done { outcome, progress } => {
            assert_eq!(progress, ProgressChange::Complete);
            assert!(outcome.status.is_success());
            assert_eq!(
                outcome.output,
                "$ flatpak update (libflatpak)\nUpdated 1 Flatpak refs (system).\n\
                 Updated 2 Flatpak refs (system).\n"
            );
        }
        other => panic!("{other:?}"),
    }
    match flatpak_update_blocking(&list, &vec![Err("no".to_string())]) {
        FlatpakStep::Done { outcome, progress } => {
            assert_eq!(progress, ProgressChange::Clear);
            assert_eq!(outcome.output, "$ flatpak update (libflatpak)\nno\n");
            assert_eq!(failure(&outcome.status), Some("no"));
        }
        other => panic!("{other:?}"),
    }
    match flatpak_update_blocking(&Vec::new(), &Vec::new()) {
        FlatpakStep::Done { outcome, progress } => {
            assert_eq!(progress, ProgressChange::Keep);
            assert_eq!(
                outcome.output,
                "$ flatpak update (libflatpak)\nNo Flatpak updates selected.\n"
            );
        }
        other => panic!("{other:?}"),
    }
}

#[test]
fn refs_get_their_operations() {
    let operations = ref_operations(Some("app/new/x/s".to_string()));
    assert_eq!(operations.len(), 2);
    assert!(matches!(&operations[0], RefOperation::Rebase(target) if target == "app/new/x/s"));
    assert!(matches!(operations[1], RefOperation::Uninstall));
    let operations = ref_operations(None);
    assert_eq!(operations.len(), 1);
    assert!(matches!(operations[0], RefOperation::Update));
}

#[test]
fn refs_are_added_in_turn() {
    let refs = names(&["a", "b"]);
    assert!(matches!(add_flatpak_updates(&refs, &Vec::new()), RefStep::Add(r) if r == "a"));
    let outcomes = vec![RefOutcome::NotInstalled, RefOutcome::Added];
    assert!(matches!(add_flatpak_updates(&refs, &outcomes), RefStep::Run(1)));
    let outcomes = vec![RefOutcome::NotInstalled, RefOutcome::NotInstalled];
    assert!(matches!(add_flatpak_updates(&refs, &outcomes), RefStep::Nothing));
    let reasons = [
        (RefOutcome::ParseFailed("bad".to_string()), "failed to parse flatpak ref a: bad"),
        (
            RefOutcome::RebaseFailed { target: "n".to_string(), message: None },
            "failed to rebase a to n: unspecified error",
        ),
        (
            RefOutcome::RebaseFailed { target: "n".to_string(), message: Some("why".to_string()) },
            "failed to rebase a to n: why",
        ),
        (RefOutcome::AddFailed("full".to_string()), "full"),
    ];
    for (outcome, reason) in reasons {
        match add_flatpak_updates(&refs, &vec![outcome]) {
            RefStep::Fail(got) => assert_eq!(got, reason),
            other => panic!("{other:?}"),
        }
    }
}

#[test]
fn packages_are_chosen_by_name() {
    let packages = names(&["vim;9;amd64;x", "bash;5;amd64;x", ";1;y;z", "vim;9;amd64;x"]);
    assert_eq!(
        collect_update_ids(&packages, &None),
        Ok(names(&["bash;5;amd64;x", "vim;9;amd64;x"]))
    );
    assert_eq!(
        collect_update_ids(&packages, &Some(names(&["vim"]))),
        Ok(names(&["vim;9;amd64;x"]))
    );
    assert_eq!(
        collect_update_ids(&packages, &Some(names(&["zsh"]))),
        Err("No updates selected.".to_string())
    );
    assert_eq!(collect_update_ids(&packages, &Some(Vec::new())), Ok(Vec::new()));
}

#[test]
fn signals_are_followed() {
    let mut packages = Vec::new();
    let package = Signal::Package { package_id: "a;1;x;y".to_string() };
    assert!(matches!(
        transaction_collect_packages(&mut packages, package),
        SignalStep::Continue
    ));
    assert_eq!(packages, names(&["a;1;x;y"]));
    let error = || Signal::ErrorCode { code: 7, details: "no".to_string() };
    let harmless = || Signal::ErrorCode { code: 48, details: "no".to_string() };
    assert!(matches!(
        transaction_collect_packages(&mut packages, error()),
        SignalStep::Fail(reason) if reason == "no (code 7)"
    ));
    assert!(matches!(
        transaction_collect_packages(&mut packages, harmless()),
        SignalStep::Continue
    ));
    assert!(matches!(
        transaction_collect_packages(&mut packages, Signal::Finished),
        SignalStep::Stop
    ));
    let item = Signal::ItemProgress { percentage: 40 };
    assert!(matches!(transaction_run_with_progress(&item, None), SignalStep::Report(40)));
    assert!(matches!(transaction_run_with_progress(&item, Some(10)), SignalStep::Report(10)));
    assert!(matches!(
        transaction_run_with_progress(&error(), None),
        SignalStep::Fail(reason) if reason == "no (code 7)"
    ));
    assert!(matches!(transaction_run_with_progress(&harmless(), None), SignalStep::Continue));
    assert!(matches!(transaction_run_with_progress(&Signal::Finished, None), SignalStep::Stop));
    assert!(matches!(transaction_run_with_progress(&Signal::Other, None), SignalStep::Continue));
}

#[test]
fn packagekit_updates_what_it_finds() {
    assert!(matches!(packagekit_update_blocking(&None, &None), PackageKitStep::Collect));
    let ids = Some(Ok(names(&["a", "b"])));
    match packagekit_update_blocking(&ids, &None) {
        PackageKitStep::Update { ids, progress } => {
            assert_eq!(ids, names(&["a", "b"]));
            assert_eq!(progress, ProgressChange::Start);
        }
        other => panic!("{other:?}"),
    }
    match packagekit_update_blocking(&ids, &Some(Ok(()))) {
        PackageKitStep::Done { outcome, progress } => {
            assert!(matches!(progress, ProgressChange::Complete));
            assert_eq!(
                outcome.output,
                "$ packagekit update\n\
                 2 upgraded, 0 newly installed, 0 to remove and 0 not upgraded.\n"
            );
            assert!(apt_has_updates(&outcome.output));
        }
        other => panic!("{other:?}"),
    }
    match packagekit_update_blocking(&ids, &Some(Err("no".to_string()))) {
        PackageKitStep::Done { outcome, progress } => {
            assert!(matches!(progress, ProgressChange::Clear));
            assert_eq!(outcome.output, "$ packagekit update\nno\n");
        }
        other => panic!("{other:?}"),
    }
    match packagekit_update_blocking(&Some(Ok(Vec::new())), &None) {
        PackageKitStep::Done { outcome, .. } => {
            assert!(outcome.status.is_success());
            assert_eq!(outcome.output, "$ packagekit update\nNo updates available.\n");
            assert!(!apt_has_updates(&outcome.output));
        }
        other => panic!("{other:?}"),
    }
    match packagekit_update_blocking(&Some(Err("no bus".to_string())), &None) {
        PackageKitStep::Done { outcome, progress } => {
            assert!(matches!(progress, ProgressChange::Keep));
            assert_eq!(failure(&outcome.status), Some("no bus"));
        }
        other => panic!("{other:?}"),
    }
    let broken = task_failed("PackageKit", "panic");
    assert_eq!(broken.output, "PackageKit update task failed: panic");
    assert_eq!(failure(&broken.status), Some("panic"));
}

#[test]
fn updates_take_their_route() {
    let all = Features { packagekit: true, flatpak: true };
    let none = Features { packagekit: false, flatpak: false };
    let route = run_manager_with_progress;
    assert_eq!(route(ManagerId::Apt, false, all), RunRoute::PackageKit);
    assert_eq!(route(ManagerId::Apt, true, all), RunRoute::PackageKit);
    assert_eq!(route(ManagerId::Apt, true, none), RunRoute::AptCommands);
    assert_eq!(route(ManagerId::Apt, false, none), RunRoute::Commands);
    assert_eq!(route(ManagerId::Flatpak, true, all), RunRoute::FlatpakLibrary);
    assert_eq!(route(ManagerId::Flatpak, false, all), RunRoute::Commands);
    assert_eq!(route(ManagerId::Flatpak, true, none), RunRoute::FlatpakCommands);
    assert_eq!(route(ManagerId::Yum, false, all), RunRoute::DnfYum);
    assert_eq!(route(ManagerId::Snap, false, all), RunRoute::Commands);
}

#[test]
fn managers_are_detected_in_turn() {
    assert_eq!(command_exists("dnf"), "command -v dnf");
    assert!(matches!(detect_managers(&Vec::new()), DetectStep::Probe("flatpak")));
    assert!(matches!(detect_managers(&vec![true; 9]), DetectStep::Probe("apt-get")));
    match detect_managers(&vec![false, true, false, false, false, false, false, false, false, true]) {
        DetectStep::Done(found) => {
            assert_eq!(found.len(), 10);
            assert_eq!(found[0], (ManagerId::Flatpak, false));
            assert_eq!(found[1], (ManagerId::Snap, true));
            assert_eq!(found[9], (ManagerId::Apt, true));
        }
        other => panic!("{other:?}"),
    }
}

#[test]
fn reboot_is_asked_of_systemctl() {
    match reboot_system(&None) {
        RebootStep::Execute(request) => assert_eq!(command_text(&request), "pkexec systemctl reboot"),
        other => panic!("{other:?}"),
    }
    assert!(matches!(reboot_system(&Some(Ok(0))), RebootStep::Done(Ok(()))));
    assert!(matches!(
        reboot_system(&Some(Ok(5))),
        RebootStep::Done(Err(reason)) if reason == "reboot failed with status 5"
    ));
    assert!(matches!(
        reboot_system(&Some(Err("no".to_string()))),
        RebootStep::Done(Err(reason)) if reason == "no"
    ));
}

#[test]
fn helper_is_tried_twice_before_the_shell() {
    let mut run = PrivilegedRun::new(false);
    assert!(matches!(run.runner(), Runner::Helper));
    run.helper_failed("one".to_string());
    assert!(matches!(run.runner(), Runner::Helper));
    run.helper_failed("two".to_string());
    assert!(matches!(run.runner(), Runner::Shell));
    assert!(run.helper_disabled);
    assert_eq!(run.shell_failed("three"), "two\nthree");
    let run = PrivilegedRun::new(true);
    assert!(matches!(run.runner(), Runner::Shell));
    assert_eq!(run.shell_failed("three"), "three");
}
