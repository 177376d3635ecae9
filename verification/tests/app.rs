use mystic_update::events::Reaction;
use mystic_update::items::UpdateKey;
use mystic_update::managers::ManagerId;
use mystic_update::model::{Action, AppModel, ContextPage, DetailsTab, MenuAction, Message};
use mystic_update::phrases::Phrases;
use mystic_update::progress::new_progress_tracker;
use mystic_update::system::Features;
use mystic_update::updates::{CheckOutcome, InstallScope, TaskStatus, UpdateEntry, UpdateOutcome};
use mystic_update::view::{update_display_name, update_subtitle, Content, ShownProgress};

fn phrases() -> Phrases {
    let p = |text: &str| format!("<{text}>");
    Phrases {
        select_manager: p("select"),
        reboot_failed: p("reboot-failed"),
        requires_auth: p("auth"),
        status_checking: p("checking"),
        status_failed: p("failed"),
        status_running: p("running"),
        status_success: p("success"),
        status_up_to_date: p("up-to-date"),
        status_updates_available: p("available"),
        system_up_to_date: p("system"),
        updates_available: p("updates"),
        version_unknown: p("unknown"),
        details_changelog_unavailable: p("changelog"),
        details_current: p("current"),
        details_manager: p("manager"),
        details_name: p("name"),
        details_new: p("new"),
        details_none: p("none"),
        details_package: p("package"),
        details_ref: p("ref"),
        details_scope: p("scope"),
        details_scope_system: p("scope-system"),
        details_scope_user: p("scope-user"),
        details_title: p("title"),
    }
}

fn model() -> AppModel {
    AppModel::init(Features { packagekit: true, flatpak: false }, &phrases()).0
}

fn send(app: &mut AppModel, message: Message) -> Reaction {
    app.update(message, &phrases())
}

fn act(app: &mut AppModel, message: Message) -> Action {
    send(app, message).action
}

fn detected(found: &[ManagerId]) -> AppModel {
    let mut app = model();
    let list = ManagerId::all().into_iter().map(|id| (id, found.contains(&id))).collect();
    act(&mut app, Message::DetectComplete(list));
    app
}

fn check(app: &mut AppModel, id: ManagerId, output: &str, has_updates: bool) {
    let outcome = CheckOutcome { output: output.to_string(), has_updates, error: None };
    assert!(matches!(act(app, Message::CheckComplete(id, outcome)), Action::Nothing));
}

fn done(output: &str, status: TaskStatus) -> UpdateOutcome {
    UpdateOutcome { output: output.to_string(), status }
}

fn key(manager: ManagerId, id: &str) -> UpdateKey {
    UpdateKey { manager, id: id.to_string() }
}

fn ids(app: &AppModel) -> Vec<String> {
    app.update_items.iter().map(|item| item.entry.id.clone()).collect()
}

fn with_updates() -> AppModel {
    let mut app = detected(&[ManagerId::Flatpak, ManagerId::Dnf, ManagerId::Apt]);
    check(&mut app, ManagerId::Apt, "bash/s 2 x [upgradable from: 1]\nvim/s 9\n", true);
    check(&mut app, ManagerId::Dnf, "kernel.x86_64 6.9 updates\n", true);
    check(&mut app, ManagerId::Flatpak, "", false);
    app
}

fn selected_ids(action: Action) -> (ManagerId, Option<Vec<String>>) {
    match action {
        Action::Run { manager, selected } => {
            (manager, selected.map(|list| list.into_iter().map(|entry| entry.id).collect()))
        }
        other => panic!("{other:?}"),
    }
}

#[test]
fn app_begins_empty() {
    let features = Features { packagekit: true, flatpak: false };
    let (app, action) = AppModel::init(features, &phrases());
    assert!(matches!(action, Action::Detect));
    assert_eq!(app.log_text, "<select>");
    assert_eq!(app.context_page, ContextPage::About);
    assert!(!app.show_context && !app.run_all_active && !app.reboot_prompt);
    assert_eq!(app.managers.manager_counts(), (0, 10));
    assert_eq!(app.content(), Content::Text);
    assert_eq!(app.updates_output(&phrases()), "<system>");
    assert!(!app.can_run_all() && !app.can_check_updates());
}

#[test]
fn detection_begins_checks() {
    let mut app = model();
    let found = vec![(ManagerId::Apt, true), (ManagerId::Snap, false), (ManagerId::Dnf, true)];
    match act(&mut app, Message::DetectComplete(found)) {
        Action::Check { managers, force_privileged } => {
            assert_eq!(managers, vec![ManagerId::Dnf, ManagerId::Apt]);
            assert!(!force_privileged);
        }
        other => panic!("{other:?}"),
    }
    assert!(app.managers.any_checking());
    assert_eq!(app.content(), Content::Checking);
    assert!(!app.can_check_updates());
    assert!(matches!(act(&mut model(), Message::CheckUpdates), Action::Nothing));
    assert!(matches!(
        act(&mut app, Message::CheckUpdates),
        Action::Check { force_privileged: true, .. }
    ));
}

#[test]
fn check_shows_its_updates_in_place_of_the_old() {
    let mut app = with_updates();
    assert_eq!(ids(&app), vec!["bash", "vim", "kernel.x86_64"]);
    assert!(app.update_items.iter().all(|item| item.checked));
    assert!(app.can_run_all() && app.can_check_updates());
    act(&mut app, Message::ToggleUpdate(key(ManagerId::Dnf, "kernel.x86_64"), false));
    check(&mut app, ManagerId::Apt, "zsh/s 5\n", true);
    assert_eq!(ids(&app), vec!["kernel.x86_64", "zsh"]);
    assert!(!app.update_items[0].checked && app.update_items[1].checked);
    assert_eq!(app.selected_count(), 1);
    assert_eq!(app.content(), Content::List);
}

#[test]
fn failed_check_keeps_updates() {
    let mut app = with_updates();
    let outcome = CheckOutcome {
        output: "x".to_string(),
        has_updates: false,
        error: Some("locked".to_string()),
    };
    act(&mut app, Message::CheckComplete(ManagerId::Apt, outcome));
    assert_eq!(ids(&app).len(), 3);
    let state = app.managers.get(ManagerId::Apt);
    assert!(state.update_available && !state.checking);
    assert!(matches!(&state.status, TaskStatus::Failed(reason) if reason == "locked"));
}

#[test]
fn check_is_logged_where_nothing_ran() {
    let mut app = with_updates();
    act(&mut app, Message::SelectManager(ManagerId::Dnf));
    assert_eq!(app.log_text, "kernel.x86_64 6.9 updates\n");
    assert_eq!((app.context_page, app.show_context), (ContextPage::Logs, true));
    check(&mut app, ManagerId::Dnf, "fresh", false);
    assert_eq!(app.log_text, "fresh");
    check(&mut app, ManagerId::Apt, "other", false);
    assert_eq!(app.log_text, "fresh");
}

#[test]
fn chosen_updates_are_run_and_leave() {
    let mut app = with_updates();
    act(&mut app, Message::ToggleUpdate(key(ManagerId::Apt, "vim"), false));
    let action = act(&mut app, Message::RunManager(ManagerId::Apt));
    assert_eq!(selected_ids(action), (ManagerId::Apt, Some(vec!["bash".to_string()])));
    assert!(app.managers.is_manager_running(ManagerId::Apt));
    assert_eq!(app.managers.get(ManagerId::Apt).progress, Some(0));
    assert_eq!(app.managers.running_manager_summary().as_deref(), Some("APT"));
    let outcome = done("1 upgraded, 0 newly installed\n", TaskStatus::Success);
    let reaction = send(&mut app, Message::UpdateComplete(ManagerId::Apt, outcome));
    assert_eq!(reaction.forget, Some(ManagerId::Apt));
    assert!(matches!(reaction.action, Action::Nothing));
    assert_eq!(ids(&app), vec!["vim", "kernel.x86_64"]);
    assert!(app.managers.get(ManagerId::Apt).update_available);
    assert!(app.reboot_prompt);
    assert_eq!(app.log_text, "1 upgraded, 0 newly installed\n");
    assert_eq!(app.selected_manager, Some(ManagerId::Apt));
}

#[test]
fn run_of_everything_takes_all_updates() {
    let mut app = with_updates();
    act(&mut app, Message::SelectNoUpdates);
    let action = act(&mut app, Message::RunManager(ManagerId::Apt));
    assert_eq!(selected_ids(action), (ManagerId::Apt, None));
    act(&mut app, Message::UpdateComplete(ManagerId::Apt, done("", TaskStatus::Success)));
    assert_eq!(ids(&app), vec!["kernel.x86_64"]);
    assert!(!app.managers.get(ManagerId::Apt).update_available);
    let action = act(&mut app, Message::RunManager(ManagerId::Brew));
    assert_eq!(selected_ids(action), (ManagerId::Brew, None));
}

#[test]
fn chosen_packages_of_dnf_and_yum_are_run() {
    for id in [ManagerId::Dnf, ManagerId::Yum] {
        let mut app = detected(&[id]);
        check(&mut app, id, "a.noarch 1\nb.noarch 2\n", true);
        act(&mut app, Message::ToggleUpdate(key(id, "a.noarch"), false));
        let action = act(&mut app, Message::RunManager(id));
        assert_eq!(selected_ids(action), (id, Some(vec!["b.noarch".to_string()])));
        act(&mut app, Message::UpdateComplete(id, done("", TaskStatus::Success)));
        assert_eq!(ids(&app), vec!["a.noarch"]);
        assert!(app.managers.get(id).update_available);
    }
}

#[test]
fn failed_run_keeps_updates() {
    let mut app = with_updates();
    act(&mut app, Message::RunManager(ManagerId::Apt));
    let outcome = done("9 upgraded\n", TaskStatus::Failed("no".to_string()));
    act(&mut app, Message::UpdateComplete(ManagerId::Apt, outcome));
    assert_eq!(ids(&app).len(), 3);
    assert!(app.managers.get(ManagerId::Apt).update_available);
    assert!(!app.reboot_prompt);
}

#[test]
fn all_managers_run_one_after_another() {
    let mut app = with_updates();
    let action = act(&mut app, Message::RunAll);
    let kernel = vec!["kernel.x86_64".to_string()];
    assert_eq!(selected_ids(action), (ManagerId::Dnf, Some(kernel)));
    assert!(app.run_all_active);
    assert_eq!(app.log_text, "<running>");
    let action = act(&mut app, Message::UpdateComplete(ManagerId::Dnf, done("d\n", TaskStatus::Success)));
    let both = vec!["bash".to_string(), "vim".to_string()];
    assert_eq!(selected_ids(action), (ManagerId::Apt, Some(both)));
    assert_eq!(app.log_text, "\n== DNF ==\nd\n");
    assert_eq!(ids(&app).len(), 3);
    let failed = done("a\n", TaskStatus::Failed("no".to_string()));
    match act(&mut app, Message::UpdateComplete(ManagerId::Apt, failed)) {
        Action::Check { managers, force_privileged } => {
            assert_eq!(managers, vec![ManagerId::Flatpak, ManagerId::Dnf, ManagerId::Apt]);
            assert!(force_privileged);
        }
        other => panic!("{other:?}"),
    }
    assert!(!app.run_all_active);
    assert_eq!(app.log_text, "\n== DNF ==\nd\n\n== APT ==\na\n");
}

#[test]
fn managers_without_ticks_are_not_run() {
    let mut app = detected(&[ManagerId::Snap, ManagerId::Dnf, ManagerId::Apt]);
    check(&mut app, ManagerId::Dnf, "kernel.x86_64 6.9 updates\n", true);
    check(&mut app, ManagerId::Apt, "bash/s 2\n", true);
    act(&mut app, Message::SelectNoUpdates);
    let action = act(&mut app, Message::RunAll);
    assert_eq!(selected_ids(action), (ManagerId::Snap, None));
    assert!(app.run_all_queue.is_empty());
}

#[test]
fn managers_that_list_nothing_run_without_a_tick() {
    for id in [ManagerId::Dnf, ManagerId::Yum] {
        let mut app = detected(&[id]);
        check(&mut app, id, "kernel.sparc 6.9 updates\n", true);
        assert!(app.update_items.is_empty() && app.can_run_all());
        let action = act(&mut app, Message::RunAll);
        assert_eq!(selected_ids(action), (id, None));
        assert!(app.run_all_active);
    }
    for id in [ManagerId::Apt, ManagerId::Flatpak] {
        let mut app = detected(&[id]);
        check(&mut app, id, "", true);
        assert!(app.can_run_all());
        assert!(matches!(act(&mut app, Message::RunAll), Action::Nothing));
    }
}

#[test]
fn nothing_to_run_begins_no_sequence() {
    let mut app = model();
    assert!(matches!(act(&mut app, Message::RunAll), Action::Nothing));
    assert!(!app.run_all_active && app.run_all_queue.is_empty());
    assert!(!app.managers.any_running());
    assert_eq!(app.log_text, "<select>");
    let mut app = with_updates();
    act(&mut app, Message::SelectManager(ManagerId::Dnf));
    act(&mut app, Message::SelectNoUpdates);
    assert!(matches!(act(&mut app, Message::RunAll), Action::Nothing));
    assert!(!app.run_all_active);
    assert_eq!(app.selected_manager, Some(ManagerId::Dnf));
    assert_eq!(app.log_text, "kernel.x86_64 6.9 updates\n");
}

#[test]
fn one_run_ends_the_sequence() {
    let mut app = with_updates();
    act(&mut app, Message::RunAll);
    act(&mut app, Message::RunManager(ManagerId::Flatpak));
    assert!(!app.run_all_active && app.run_all_queue.is_empty());
    assert_eq!(app.run_all_output, "");
}

#[test]
fn log_of_a_run_can_be_read() {
    let mut app = with_updates();
    act(&mut app, Message::SelectManager(ManagerId::Apt));
    act(&mut app, Message::RunManager(ManagerId::Dnf));
    act(&mut app, Message::UpdateComplete(ManagerId::Dnf, done("done\n", TaskStatus::Success)));
    assert_ne!(app.log_text, "done\n");
    act(&mut app, Message::SelectManager(ManagerId::Dnf));
    assert_eq!(app.log_text, "done\n");
}

#[test]
fn reboot_is_asked_for_and_put_off() {
    let mut app = with_updates();
    let outcome = done("2 upgraded, 0 newly\n", TaskStatus::Success);
    act(&mut app, Message::UpdateComplete(ManagerId::Apt, outcome));
    assert!(app.reboot_prompt);
    assert!(app.can_reboot() && app.can_dismiss_reboot());
    assert!(matches!(act(&mut app, Message::RebootNow), Action::Reboot));
    assert!(app.reboot_in_progress);
    assert!(!app.can_reboot() && app.can_dismiss_reboot());
    act(&mut app, Message::RebootFinished(Err("refused".to_string())));
    assert!(!app.reboot_in_progress && app.reboot_prompt);
    assert_eq!(app.log_text, "<reboot-failed>: refused");
    act(&mut app, Message::RebootDismiss);
    assert!(!app.reboot_prompt);
    assert!(!app.can_reboot() && !app.can_dismiss_reboot());
    act(&mut app, Message::RebootFinished(Ok(())));
    assert_eq!(app.log_text, "<reboot-failed>: refused");
    let outcome = done("2 upgraded, 0 newly\n", TaskStatus::Success);
    act(&mut app, Message::UpdateComplete(ManagerId::Dnf, outcome));
    assert!(!app.reboot_prompt);
}

#[test]
fn pages_open_and_close() {
    let mut app = model();
    assert_eq!(app.shown_page(), None);
    act(&mut app, MenuAction::Summoners.message());
    assert_eq!((app.context_page, app.show_context), (ContextPage::Summoners, true));
    assert_eq!(app.shown_page(), Some(ContextPage::Summoners));
    act(&mut app, MenuAction::Summoners.message());
    assert_eq!(app.shown_page(), None);
    assert_eq!((app.context_page, app.show_context), (ContextPage::Summoners, false));
    act(&mut app, MenuAction::Logs.message());
    act(&mut app, MenuAction::About.message());
    assert_eq!((app.context_page, app.show_context), (ContextPage::About, true));
    match act(&mut app, Message::LaunchUrl("https://x".to_string())) {
        Action::OpenUrl(url) => assert_eq!(url, "https://x"),
        other => panic!("{other:?}"),
    }
}

#[test]
fn ticks_are_set() {
    let mut app = with_updates();
    act(&mut app, Message::SelectNoUpdates);
    assert_eq!(app.selected_count(), 0);
    assert!(!app.has_selected_updates(ManagerId::Apt));
    act(&mut app, Message::ToggleUpdate(key(ManagerId::Apt, "vim"), true));
    assert_eq!(app.selected_count(), 1);
    assert_eq!(app.selected_updates_for_manager(ManagerId::Apt)[0].id, "vim");
    act(&mut app, Message::ToggleUpdate(key(ManagerId::Apt, "vim"), false));
    act(&mut app, Message::ToggleUpdate(key(ManagerId::Dnf, "vim"), true));
    assert_eq!(app.selected_count(), 0);
    act(&mut app, Message::SelectAllUpdates);
    assert_eq!(app.selected_count(), 3);
}

#[test]
fn details_leave_with_their_update() {
    let mut app = with_updates();
    let p = phrases();
    assert_eq!(app.details_text(&p), "<none>");
    assert_eq!(app.details_heading(&p), ("<title>".to_string(), String::new()));
    act(&mut app, Message::SelectUpdate(key(ManagerId::Apt, "bash")));
    assert_eq!(app.content(), Content::Details);
    assert_eq!(
        app.details_text(&p),
        "<manager>: APT\n<name>: bash\n<current>: 1\n<new>: 2"
    );
    assert_eq!(app.details_heading(&p).1, "APT \u{b7} <current> 1 -> <new> 2");
    act(&mut app, Message::SelectDetailsTab(DetailsTab::Packages));
    assert_eq!(app.details_text(&p), "<package>: bash");
    act(&mut app, Message::SelectDetailsTab(DetailsTab::Changelog));
    assert_eq!(app.details_text(&p), "<changelog>");
    act(&mut app, Message::ShowUpdatesList);
    assert_eq!(app.content(), Content::List);
    act(&mut app, Message::SelectUpdate(key(ManagerId::Apt, "bash")));
    check(&mut app, ManagerId::Apt, "vim/s 9\n", true);
    assert!(app.selected_update.is_none() && !app.show_update_details);
}

#[test]
fn flatpak_details_name_their_scope() {
    let mut app = detected(&[ManagerId::Flatpak]);
    let output = "$ flatpak list\nn\tr\t1\tsystem\n$ flatpak remote-ls\nn\tr\t2\tc\n";
    check(&mut app, ManagerId::Flatpak, output, true);
    act(&mut app, Message::SelectUpdate(key(ManagerId::Flatpak, "r")));
    let p = phrases();
    assert!(app.details_text(&p).ends_with("\n<scope>: <scope-system>"));
    act(&mut app, Message::SelectDetailsTab(DetailsTab::Packages));
    assert_eq!(app.details_text(&p), "<ref>: r");
}

#[test]
fn updates_are_shown_by_name() {
    let mut entry = UpdateEntry {
        manager: ManagerId::Flatpak,
        id: "id".to_string(),
        name: " name ".to_string(),
        current_version: None,
        new_version: Some("2".to_string()),
        scope: Some(InstallScope::User),
    };
    assert_eq!(update_display_name(&entry), "name");
    let subtitle = "Flatpak \u{b7} <current> <unknown> -> <new> 2";
    assert_eq!(update_subtitle(&entry, &phrases()), subtitle);
    entry.name = " \t".to_string();
    assert_eq!(update_display_name(&entry), "id");
}

#[test]
fn running_updates_come_first() {
    let mut app = with_updates();
    act(&mut app, Message::RunManager(ManagerId::Dnf));
    let order: Vec<&str> =
        app.ordered_update_items().iter().map(|item| item.entry.id.as_str()).collect();
    assert_eq!(order, vec!["kernel.x86_64", "bash", "vim"]);
}

#[test]
fn progress_is_shown_of_what_is_installed() {
    let mut app = with_updates();
    act(&mut app, Message::ToggleUpdate(key(ManagerId::Apt, "vim"), false));
    act(&mut app, Message::RunManager(ManagerId::Apt));
    act(&mut app, Message::ToggleUpdate(key(ManagerId::Apt, "vim"), true));
    act(&mut app, Message::RunManager(ManagerId::Dnf));
    let shown = |app: &AppModel, i: usize| app.update_progress_value(&app.update_items[i]);
    assert_eq!(shown(&app, 0), Some(ShownProgress::Reported(0)));
    assert_eq!(shown(&app, 1), None);
    assert_eq!(shown(&app, 2), Some(ShownProgress::Moving(15)));
    let mut tracker = new_progress_tracker();
    tracker.report_progress(ManagerId::Apt, 40f32.to_bits());
    act(&mut app, Message::ProgressTick(Some(tracker)));
    assert_eq!(shown(&app, 0), Some(ShownProgress::Reported(40f32.to_bits())));
    assert_eq!(shown(&app, 2), Some(ShownProgress::Moving(18)));
    act(&mut app, Message::ProgressTick(None));
    assert_eq!(shown(&app, 0), Some(ShownProgress::Reported(40f32.to_bits())));
    assert_eq!(shown(&app, 2), Some(ShownProgress::Moving(21)));
    act(&mut app, Message::UpdateComplete(ManagerId::Dnf, done("", TaskStatus::Success)));
    act(&mut app, Message::UpdateComplete(ManagerId::Apt, done("", TaskStatus::Success)));
    let phase = app.progress_phase;
    act(&mut app, Message::ProgressTick(None));
    assert_eq!(app.progress_phase, phase);
}

#[test]
fn status_of_a_manager_is_told() {
    let p = phrases();
    let mut app = detected(&[ManagerId::Apt, ManagerId::Brew]);
    assert_eq!(app.status_label(ManagerId::Apt, &p), "<checking> \u{b7} <auth>");
    check(&mut app, ManagerId::Apt, "bash/s 1\n", true);
    assert_eq!(app.status_label(ManagerId::Apt, &p), "<available> \u{b7} <auth>");
    check(&mut app, ManagerId::Brew, "", false);
    assert_eq!(app.status_label(ManagerId::Brew, &p), "<up-to-date>");
    act(&mut app, Message::RunManager(ManagerId::Brew));
    assert_eq!(app.status_label(ManagerId::Brew, &p), "<running>");
    act(&mut app, Message::UpdateComplete(ManagerId::Brew, done("", TaskStatus::Success)));
    assert_eq!(app.status_label(ManagerId::Brew, &p), "<success>");
    let failed = TaskStatus::Failed("why".to_string());
    act(&mut app, Message::UpdateComplete(ManagerId::Brew, done("", failed)));
    assert_eq!(app.status_label(ManagerId::Brew, &p), "<failed>: why");
    let failed = TaskStatus::Failed(String::new());
    act(&mut app, Message::UpdateComplete(ManagerId::Brew, done("", failed)));
    assert_eq!(app.status_label(ManagerId::Brew, &p), "<failed>");
}

#[test]
fn output_of_checks_is_shown() {
    let mut app = detected(&[ManagerId::Snap, ManagerId::Pacman, ManagerId::Brew]);
    check(&mut app, ManagerId::Snap, "a\nb", true);
    check(&mut app, ManagerId::Pacman, " \n", true);
    check(&mut app, ManagerId::Brew, "c\n", false);
    assert_eq!(
        app.updates_output(&phrases()),
        "== Snap ==\na\nb\n\n== Pacman ==\n<updates>\n\n"
    );
}
