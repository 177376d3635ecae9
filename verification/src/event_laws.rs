//! What each event changes, and what it leaves as it is.

use crate::events::{checked_of, detected_of, forgotten_by, run_logged, run_noted, step_of};
use crate::items::{key_of, lemma_find_item, ItemModel, KeyModel};
use crate::laws::law_available_in_order;
use crate::managers::{all_managers, label_of, place_of, ManagerId, MANAGER_COUNT};
use crate::model::{
    page_of, queue_of, ActionModel, AppState, ContextPage, MenuAction, MessageModel,
};
use crate::phrases::Phrases;
use crate::states::{available_ids, some_running, StateModel};
use crate::updates::{CheckModel, OutcomeModel, StatusModel};
use vstd::prelude::*;

verus! {

/// A page of the drawer is opened by asking for it, and closed by asking for it again; choosing a
/// manager opens the page of logs. Nothing else touches the drawer.
#[verifier::spinoff_prover]
pub proof fn law_drawer(a: AppState, m: MessageModel, phrases: Phrases)
    ensures
        ({
            let b = step_of(a, m, phrases).0;
            match m {
                MessageModel::ToggleContextPage(page) => {
                    &&& b.context_page == page
                    &&& b.show_context == !(a.show_context && a.context_page == page)
                },
                MessageModel::SelectManager(_) => {
                    &&& b.context_page == ContextPage::Logs
                    &&& b.show_context
                },
                _ => b.context_page == a.context_page && b.show_context == a.show_context,
            }
        }),
{
    match m {
        MessageModel::UpdateComplete(_, _) | MessageModel::RunAll => {
            lemma_left_alone(a, m, phrases);
        },
        MessageModel::CheckComplete(id, outcome) => lemma_check_left_alone(a, id, outcome),
        _ => {},
    }
}

/// A reboot is under way from when the user asks for it until the request has ended; nothing else
/// touches that. What the updater was built with never changes.
#[verifier::spinoff_prover]
pub proof fn law_reboot_under_way(a: AppState, m: MessageModel, phrases: Phrases)
    ensures
        ({
            let b = step_of(a, m, phrases).0;
            &&& b.reboot_in_progress == match m {
                MessageModel::RebootNow => true,
                MessageModel::RebootFinished(_) => false,
                _ => a.reboot_in_progress,
            }
            &&& b.features == a.features
        }),
{
    match m {
        MessageModel::UpdateComplete(_, _) | MessageModel::RunAll => {
            lemma_left_alone(a, m, phrases);
        },
        MessageModel::CheckComplete(id, outcome) => lemma_check_left_alone(a, id, outcome),
        _ => {},
    }
}

/// What the end of a check leaves alone.
proof fn lemma_check_left_alone(a: AppState, id: ManagerId, outcome: CheckModel)
    ensures
        ({
            let b = checked_of(a, id, outcome);
            &&& b.context_page == a.context_page
            &&& b.show_context == a.show_context
            &&& b.reboot_in_progress == a.reboot_in_progress
            &&& b.features == a.features
            &&& b.details_tab == a.details_tab
            &&& b.progress_phase == a.progress_phase
        }),
{
}

/// What the end of a run leaves alone.
proof fn lemma_left_alone(a: AppState, m: MessageModel, phrases: Phrases)
    ensures
        m matches MessageModel::UpdateComplete(id, outcome) ==> {
            let b = step_of(a, m, phrases).0;
            &&& b.context_page == a.context_page
            &&& b.show_context == a.show_context
            &&& b.reboot_in_progress == a.reboot_in_progress
            &&& b.features == a.features
            &&& b.details_tab == a.details_tab
            &&& b.progress_phase == a.progress_phase
        },
        m is RunAll ==> {
            let b = step_of(a, m, phrases).0;
            &&& b.context_page == a.context_page
            &&& b.show_context == a.show_context
            &&& b.reboot_in_progress == a.reboot_in_progress
            &&& b.features == a.features
            &&& b.details_tab == a.details_tab
            &&& b.progress_phase == a.progress_phase
            &&& b.items == a.items
            &&& b.selected_update == a.selected_update
            &&& b.show_update_details == a.show_update_details
        },
{
    if let MessageModel::UpdateComplete(id, outcome) = m {
        let b = run_noted(a, id, outcome);
        let c = run_logged(b, id, outcome.output);
        assert(b.context_page == a.context_page && b.show_context == a.show_context
            && b.reboot_in_progress == a.reboot_in_progress && b.features == a.features
            && b.details_tab == a.details_tab && b.progress_phase == a.progress_phase);
        assert(c.context_page == b.context_page && c.show_context == b.show_context
            && c.reboot_in_progress == b.reboot_in_progress && c.features == b.features
            && c.details_tab == b.details_tab && c.progress_phase == b.progress_phase);
    }
}

/// Whether `key` names none of the updates.
pub open spec fn not_listed(items: Seq<ItemModel>, key: KeyModel) -> bool {
    forall|i: int| 0 <= i < items.len() ==> key_of(#[trigger] items[i]) != key
}

/// Details are shown of the update that was chosen last, until the list is asked for or the update
/// has left the list; the tab is the one chosen last. The list changes only by ticks, by a check
/// that ended well, and by a run that ended well outside a sequence of runs.
#[verifier::spinoff_prover]
pub proof fn law_details(a: AppState, m: MessageModel, phrases: Phrases)
    ensures
        ({
            let b = step_of(a, m, phrases).0;
            let may_leave = match m {
                MessageModel::CheckComplete(_, outcome) => outcome.error is None,
                MessageModel::UpdateComplete(_, outcome) => outcome.status is Success
                    && !a.run_all_active,
                _ => false,
            };
            let gone = may_leave && (a.selected_update matches Some(key) && not_listed(
                b.items,
                key,
            ));
            &&& b.details_tab == match m {
                MessageModel::SelectDetailsTab(tab) => tab,
                _ => a.details_tab,
            }
            &&& b.selected_update == match m {
                MessageModel::SelectUpdate(key) => Some(key),
                _ => if gone {
                    None
                } else {
                    a.selected_update
                },
            }
            &&& b.show_update_details == match m {
                MessageModel::SelectUpdate(_) => true,
                MessageModel::ShowUpdatesList => false,
                _ => a.show_update_details && !gone,
            }
            &&& !may_leave && !(m is ToggleUpdate) && !(m is SelectAllUpdates) && !(
            m is SelectNoUpdates) ==> b.items == a.items
        }),
{
    lemma_left_alone(a, m, phrases);
    let b = step_of(a, m, phrases).0;
    match m {
        MessageModel::CheckComplete(id, outcome) => {
            if let Some(key) = a.selected_update {
                lemma_find_item(b.items, key);
            }
        },
        MessageModel::UpdateComplete(id, outcome) => {
            let c = run_noted(a, id, outcome);
            let d = run_logged(c, id, outcome.output);
            assert(d.items == c.items && d.selected_update == c.selected_update
                && d.show_update_details == c.show_update_details);
            assert(b.items == d.items && b.selected_update == d.selected_update
                && b.show_update_details == d.show_update_details);
            if let Some(key) = a.selected_update {
                lemma_find_item(b.items, key);
            }
        },
        _ => {},
    }
}

/// Whether the run of some manager is under way.
pub open spec fn a_run_is_under_way(ms: Seq<StateModel>) -> bool {
    exists|id: ManagerId| (#[trigger] ms[place_of(id)]).status is Running
}

/// Some place stands for a run under way exactly where some manager does.
proof fn lemma_under_way(ms: Seq<StateModel>)
    requires
        ms.len() == MANAGER_COUNT,
    ensures
        some_running(ms) <==> a_run_is_under_way(ms),
{
    if some_running(ms) {
        let i = choose|i: int| 0 <= i < ms.len() && (#[trigger] ms[i]).status is Running;
        assert(place_of(all_managers()[i]) == i);
        assert(ms[place_of(all_managers()[i])].status is Running);
    }
    if a_run_is_under_way(ms) {
        let id = choose|id: ManagerId| (#[trigger] ms[place_of(id)]).status is Running;
        assert(ms[place_of(id)].status is Running);
    }
}

/// As moments pass while a run is under way, the bars move on by three, and begin again behind 140;
/// what a run under way has reported is shown, and of other managers nothing is. While none is
/// under way, moments change nothing.
pub proof fn law_moments(
    a: AppState,
    reported: Seq<Option<u32>>,
    id: ManagerId,
    phrases: Phrases,
)
    requires
        a.managers.len() == MANAGER_COUNT,
        reported.len() == MANAGER_COUNT,
        a.progress_phase < 140,
    ensures
        ({
            let b = step_of(a, MessageModel::ProgressTick(Some(reported)), phrases).0;
            let c = step_of(a, MessageModel::ProgressTick(None), phrases).0;
            if a_run_is_under_way(a.managers) {
                &&& b.progress_phase == if a.progress_phase + 3 < 140 {
                    a.progress_phase + 3
                } else {
                    a.progress_phase + 3 - 140
                }
                &&& c.progress_phase == b.progress_phase
                &&& c.managers == a.managers
                &&& b.managers[place_of(id)] == (StateModel {
                    progress: if a.managers[place_of(id)].status is Running {
                        reported[place_of(id)]
                    } else {
                        None
                    },
                    ..a.managers[place_of(id)]
                })
            } else {
                b == a && c == a
            }
        }),
{
    lemma_under_way(a.managers);
}

/// The bars stand still but for moments that pass.
#[verifier::spinoff_prover]
pub proof fn law_bars_stand_still(a: AppState, m: MessageModel, phrases: Phrases)
    ensures
        !(m is ProgressTick) ==> step_of(a, m, phrases).0.progress_phase == a.progress_phase,
{
    match m {
        MessageModel::UpdateComplete(_, _) | MessageModel::RunAll => {
            lemma_left_alone(a, m, phrases);
        },
        MessageModel::CheckComplete(id, outcome) => lemma_check_left_alone(a, id, outcome),
        _ => {},
    }
}

/// What an event asks for: a link is opened, checks begin, a run begins, or a reboot; all other
/// events ask for nothing. The reports of a manager are forgotten when its run has ended, and at no
/// other time.
#[verifier::spinoff_prover]
pub proof fn law_asked_for(a: AppState, m: MessageModel, phrases: Phrases)
    ensures
        ({
            let action = step_of(a, m, phrases).1;
            match m {
                MessageModel::LaunchUrl(url) => action == ActionModel::OpenUrl(url),
                MessageModel::RebootNow => action is Reboot,
                MessageModel::RunManager(id) => action matches ActionModel::Run { manager, .. }
                    && manager == id,
                MessageModel::RunAll => action is Run || action is Nothing,
                MessageModel::DetectComplete(_) | MessageModel::CheckUpdates => action is Check
                    || action is Nothing,
                MessageModel::UpdateComplete(_, _) => action is Run || action is Check
                    || action is Nothing,
                _ => action is Nothing,
            }
        }),
        forgotten_by(m) == match m {
            MessageModel::UpdateComplete(id, _) => Some(id),
            _ => None,
        },
{
}

/// The user's request for checks, and the detection of managers, begin checks of the managers that
/// are there; the user's request has them run with privilege.
pub proof fn law_checks_begin(a: AppState, id: ManagerId, phrases: Phrases)
    requires
        a.managers.len() == MANAGER_COUNT,
    ensures
        ({
            let (b, action) = step_of(a, MessageModel::CheckUpdates, phrases);
            &&& b.managers[place_of(id)] == (StateModel {
                checking: a.managers[place_of(id)].checking || a.managers[place_of(id)].available,
                ..a.managers[place_of(id)]
            })
            &&& a.managers[place_of(id)].available <==> (action matches ActionModel::Check {
                managers,
                force_privileged,
            } && managers.contains(id))
            &&& action matches ActionModel::Check { force_privileged, .. } ==> force_privileged
            &&& b.items == a.items && b.log_text == a.log_text && b.selected_manager
                == a.selected_manager
        }),
{
    law_available_in_order(a.managers);
    assert(available_ids(a.managers).contains(id) <==> a.managers[place_of(id)].available);
}

/// The managers that are there once all have been looked for.
pub proof fn law_detected(ms: Seq<StateModel>, found: Seq<bool>, id: ManagerId)
    requires
        ms.len() == MANAGER_COUNT,
        found.len() == MANAGER_COUNT,
    ensures
        detected_of(
            ms,
            Seq::new(MANAGER_COUNT as nat, |i: int| (all_managers()[i], found[i])),
        )[place_of(id)] == (StateModel { available: found[place_of(id)], ..ms[place_of(id)] }),
{
    let list = Seq::new(MANAGER_COUNT as nat, |i: int| (all_managers()[i], found[i]));
    lemma_detected(ms, found, list, MANAGER_COUNT as int, id);
    assert(list.take(MANAGER_COUNT as int) =~= list);
}

/// The managers that are there once the first `n` have been looked for.
proof fn lemma_detected(
    ms: Seq<StateModel>,
    found: Seq<bool>,
    list: Seq<(ManagerId, bool)>,
    n: int,
    id: ManagerId,
)
    requires
        ms.len() == MANAGER_COUNT,
        found.len() == MANAGER_COUNT,
        list == Seq::new(MANAGER_COUNT as nat, |i: int| (all_managers()[i], found[i])),
        0 <= n <= MANAGER_COUNT,
    ensures
        detected_of(ms, list.take(n)).len() == MANAGER_COUNT,
        detected_of(ms, list.take(n))[place_of(id)] == if place_of(id) < n {
            StateModel { available: found[place_of(id)], ..ms[place_of(id)] }
        } else {
            ms[place_of(id)]
        },
    decreases n,
{
    if n > 0 {
        let other = all_managers()[n - 1];
        lemma_detected(ms, found, list, n - 1, id);
        lemma_detected(ms, found, list, n - 1, other);
        assert(list.take(n).drop_last() =~= list.take(n - 1));
        assert(list.take(n).last() == (other, found[n - 1]));
        assert(place_of(other) == n - 1);
    }
}

/// The end of a check touches its manager alone: it is no longer being checked, and what it printed
/// is kept. A check that ended well tells whether there are updates; one that failed tells why.
pub proof fn law_check_touches_one(
    a: AppState,
    id: ManagerId,
    outcome: CheckModel,
    other: ManagerId,
    phrases: Phrases,
)
    requires
        a.managers.len() == MANAGER_COUNT,
    ensures
        ({
            let b = step_of(a, MessageModel::CheckComplete(id, outcome), phrases).0;
            let s = a.managers[place_of(id)];
            &&& other != id ==> b.managers[place_of(other)] == a.managers[place_of(other)]
            &&& b.managers[place_of(id)] == match outcome.error {
                Some(reason) => StateModel {
                    checking: false,
                    check_output: outcome.output,
                    status: StatusModel::Failed(reason),
                    ..s
                },
                None => StateModel {
                    checking: false,
                    check_output: outcome.output,
                    update_available: outcome.has_updates,
                    ..s
                },
            }
            &&& b.log_text == if a.selected_manager == Some(id) && s.last_output.len() == 0 {
                outcome.output
            } else {
                a.log_text
            }
            &&& b.selected_manager == a.selected_manager
            &&& b.run_all_active == a.run_all_active
            &&& b.run_all_queue == a.run_all_queue
            &&& b.run_all_output == a.run_all_output
            &&& b.run_selection == a.run_selection
        }),
{
    if other != id {
        assert(place_of(other) != place_of(id));
    }
}

/// The beginning of a run touches its manager alone: it is running, its log says so, and where its
/// runs report how far they have come, nothing is reported as done. That is so of APT where
/// PackageKit updates it, and of Flatpak where its library does.
pub proof fn law_run_touches_one(a: AppState, id: ManagerId, other: ManagerId, phrases: Phrases)
    requires
        a.managers.len() == MANAGER_COUNT,
    ensures
        ({
            let b = step_of(a, MessageModel::RunManager(id), phrases).0;
            let reports = id == ManagerId::Apt && a.features.packagekit || id == ManagerId::Flatpak
                && a.features.flatpak;
            &&& other != id ==> b.managers[place_of(other)] == a.managers[place_of(other)]
            &&& b.managers[place_of(id)] == (StateModel {
                status: StatusModel::Running,
                last_output: phrases.status_running@,
                progress: if reports {
                    Some(0)
                } else {
                    None
                },
                ..a.managers[place_of(id)]
            })
            &&& b.log_text == a.log_text
            &&& b.selected_manager == a.selected_manager
            &&& !b.run_all_active
            &&& b.run_all_queue.len() == 0
            &&& b.run_all_output.len() == 0
        }),
{
    if other != id {
        assert(place_of(other) != place_of(id));
    }
}

/// The end of a run outside a sequence of runs touches its manager alone: it stands as the run
/// ended, what it printed is kept, and nothing is reported any more. Where no other log is shown,
/// what it printed is.
pub proof fn law_run_end_touches_one(
    a: AppState,
    id: ManagerId,
    outcome: OutcomeModel,
    other: ManagerId,
    phrases: Phrases,
)
    requires
        a.managers.len() == MANAGER_COUNT,
        !a.run_all_active,
        a.run_all_queue.len() == 0,
    ensures
        ({
            let b = step_of(a, MessageModel::UpdateComplete(id, outcome), phrases).0;
            let s = b.managers[place_of(id)];
            let t = a.managers[place_of(id)];
            &&& other != id ==> b.managers[place_of(other)] == a.managers[place_of(other)]
            &&& s.status == outcome.status
            &&& s.last_output == outcome.output
            &&& s.progress is None
            &&& s.available == t.available && s.requires_privilege == t.requires_privilege
            &&& s.check_output == t.check_output && s.checking == t.checking
            &&& b.log_text == if a.selected_manager == Some(id) || a.selected_manager is None {
                outcome.output
            } else {
                a.log_text
            }
            &&& b.selected_manager == if a.selected_manager is None {
                Some(id)
            } else {
                a.selected_manager
            }
        }),
{
    let b = run_noted(a, id, outcome);
    let c = run_logged(b, id, outcome.output);
    assert(b.log_text == a.log_text && b.selected_manager == a.selected_manager);
    assert(c.managers == b.managers);
    if other != id {
        assert(place_of(other) != place_of(id));
    }
}

/// While managers are run one after another, the log is what they have printed so far, each under
/// its label.
pub proof fn law_sequence_log(
    a: AppState,
    id: ManagerId,
    outcome: OutcomeModel,
    phrases: Phrases,
)
    requires
        a.managers.len() == MANAGER_COUNT,
        a.run_all_active,
    ensures
        ({
            let b = step_of(a, MessageModel::UpdateComplete(id, outcome), phrases).0;
            let all = a.run_all_output + "\n== "@ + label_of(id) + " ==\n"@ + outcome.output;
            b.log_text == all && b.run_all_output == all && b.selected_manager
                == a.selected_manager && b.items == a.items
        }),
{
    let b = run_noted(a, id, outcome);
    assert(b.run_all_output == a.run_all_output && b.run_all_active);
}

/// The log of a manager is what its last run has printed, or its check where nothing ran. A reboot
/// that failed is told in the log.
pub proof fn law_shown_log(a: AppState, id: ManagerId, reason: Seq<char>, phrases: Phrases)
    ensures
        ({
            let b = step_of(a, MessageModel::SelectManager(id), phrases).0;
            let s = a.managers[place_of(id)];
            &&& b.selected_manager == Some(id)
            &&& b.log_text == if s.last_output.len() == 0 {
                s.check_output
            } else {
                s.last_output
            }
            &&& b.managers == a.managers && b.items == a.items
        }),
        step_of(a, MessageModel::RebootFinished(Some(reason)), phrases).0.log_text
            == phrases.reboot_failed@ + ": "@ + reason,
        step_of(a, MessageModel::RebootFinished(None), phrases).0.log_text == a.log_text,
{
}

/// Links, ticks, tabs, pages and the question of a reboot leave the managers, the log and the
/// sequence of runs as they are.
pub proof fn law_managers_left_alone(a: AppState, m: MessageModel, phrases: Phrases)
    ensures
        match m {
            MessageModel::LaunchUrl(_) | MessageModel::ToggleContextPage(_)
            | MessageModel::ToggleUpdate(_, _) | MessageModel::SelectUpdate(_)
            | MessageModel::SelectDetailsTab(_) | MessageModel::ShowUpdatesList
            | MessageModel::SelectAllUpdates | MessageModel::SelectNoUpdates
            | MessageModel::RebootNow | MessageModel::RebootDismiss => {
                let b = step_of(a, m, phrases).0;
                &&& b.managers == a.managers
                &&& b.log_text == a.log_text
                &&& b.selected_manager == a.selected_manager
                &&& b.run_all_queue == a.run_all_queue
                &&& b.run_all_active == a.run_all_active
                &&& b.run_all_output == a.run_all_output
                &&& b.run_selection == a.run_selection
            },
            _ => true,
        },
{
}

/// While managers are run one after another, the end of a run touches its manager and the one that
/// comes next: the first stands as its run ended, and has no updates any more where that ended
/// well.
pub proof fn law_run_end_in_sequence(
    a: AppState,
    id: ManagerId,
    outcome: OutcomeModel,
    other: ManagerId,
    phrases: Phrases,
)
    requires
        a.managers.len() == MANAGER_COUNT,
        a.run_all_active,
        a.run_all_queue.len() > 0,
        a.run_all_queue[0] != id,
    ensures
        ({
            let b = step_of(a, MessageModel::UpdateComplete(id, outcome), phrases).0;
            let t = a.managers[place_of(id)];
            &&& b.managers[place_of(id)] == (StateModel {
                status: outcome.status,
                last_output: outcome.output,
                update_available: t.update_available && !(outcome.status is Success),
                progress: None,
                ..t
            })
            &&& other != id && other != a.run_all_queue[0] ==> b.managers[place_of(other)]
                == a.managers[place_of(other)]
            &&& b.managers[place_of(a.run_all_queue[0])].status is Running
        }),
{
    let c = run_logged(run_noted(a, id, outcome), id, outcome.output);
    let next = a.run_all_queue[0];
    assert(place_of(next) != place_of(id));
    assert(c.run_all_queue == a.run_all_queue);
    if other != id {
        assert(place_of(other) != place_of(id));
    }
    if other != next {
        assert(place_of(other) != place_of(next));
    }
}

/// When the last of the managers has been run, what was chosen is forgotten, and every manager that
/// is there is checked again.
pub proof fn law_sequence_ends(
    a: AppState,
    id: ManagerId,
    outcome: OutcomeModel,
    other: ManagerId,
    phrases: Phrases,
)
    requires
        a.managers.len() == MANAGER_COUNT,
        a.run_all_active,
        a.run_all_queue.len() == 0,
    ensures
        ({
            let b = step_of(a, MessageModel::UpdateComplete(id, outcome), phrases).0;
            &&& b.run_selection[place_of(other)] is Absent
            &&& a.managers[place_of(other)].available ==> b.managers[place_of(other)].checking
            &&& b.managers[place_of(id)].status == outcome.status
            &&& b.managers[place_of(id)].last_output == outcome.output
            &&& !b.run_all_active
        }),
{
    let c = run_logged(run_noted(a, id, outcome), id, outcome.output);
    assert(c.run_all_queue == a.run_all_queue);
    assert(c.managers[place_of(other)].available == a.managers[place_of(other)].available);
}

/// When the runs of all managers begin, the log says that they run, no manager's log is shown, and
/// what earlier runs printed is forgotten.
pub proof fn law_sequence_begins(a: AppState, phrases: Phrases)
    ensures
        ({
            let b = step_of(a, MessageModel::RunAll, phrases).0;
            &&& queue_of(a, true).len() > 0 ==> b.log_text == phrases.status_running@
                && b.selected_manager is None
            &&& queue_of(a, true).len() == 0 ==> b.log_text == a.log_text && b.selected_manager
                == a.selected_manager && b.managers == a.managers
            &&& b.run_all_output.len() == 0
        }),
{
}

/// Each entry of the menu opens its own page.
pub proof fn law_menu(a: AppState, phrases: Phrases)
    requires
        !a.show_context,
    ensures
        ({
            let shown = |entry: MenuAction|
                step_of(a, MessageModel::ToggleContextPage(page_of(entry)), phrases).0;
            &&& shown(MenuAction::About).context_page == ContextPage::About
            &&& shown(MenuAction::Summoners).context_page == ContextPage::Summoners
            &&& shown(MenuAction::Logs).context_page == ContextPage::Logs
            &&& shown(MenuAction::About).show_context && shown(MenuAction::Summoners).show_context
                && shown(MenuAction::Logs).show_context
        }),
{
}

} // verus!
