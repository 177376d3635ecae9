//! What holds of the updater as a whole.

use crate::events::{
    checked_of, detected_of, run_all_started, run_ended, run_followed, run_logged, run_noted,
    step_of,
};
use crate::items::{
    all_checked, any_of_manager, any_selected, entries_in, find_item_of, key_of, keys_for,
    left_over, lemma_any_selected, lemma_find_item, not_of_manager, of_manager, selected_of, ticked,
    ticked_items, ItemModel, KeyModel,
};
use crate::managers::{all_managers, place_of, ManagerId, MANAGER_COUNT};
use crate::model::{
    can_choose, initial_of, items_left, queue_of, run_started, wants_run, ActionModel, AppState,
    ContextPage, MessageModel, SelectionModel,
};
use crate::parse::{law_updates_belong, updates_of, upgraded_any};
use crate::phrases::Phrases;
use crate::progress::RUNNING_PROGRESS_CYCLE;
use crate::states::{available_ids, checks_started, is_available, StateModel};
use crate::system::{route_of, Features};
use crate::text::lines_of;
use crate::updates::{CheckModel, EntryModel, OutcomeModel, StatusModel};
use crate::view::{being_run, not_being_run, ordered_of, ticked_count};
use vstd::prelude::*;

verus! {

/// What holds of the updater at all times: there is a place for every manager; managers wait in
/// the queue only while all are run, none of them twice; and details are shown only of an update
/// that was chosen.
pub open spec fn sound(a: AppState) -> bool {
    &&& a.managers.len() == MANAGER_COUNT
    &&& a.run_selection.len() == MANAGER_COUNT
    &&& a.progress_phase < RUNNING_PROGRESS_CYCLE
    &&& a.run_all_queue.len() > 0 ==> a.run_all_active
    &&& a.run_all_queue.no_duplicates()
    &&& a.show_update_details ==> a.selected_update is Some
}

/// The updater is sound at the beginning.
pub proof fn law_sound_at_first(features: Features, phrases: Phrases)
    ensures
        sound(initial_of(features, phrases)),
{
}

/// No manager is listed twice.
proof fn lemma_managers_differ()
    ensures
        all_managers().no_duplicates(),
{
    let s = all_managers();
    assert forall|i: int, j: int| 0 <= i < s.len() && 0 <= j < s.len() && i != j implies s[i]
        != s[j] by {
        assert(place_of(s[i]) == i);
        assert(place_of(s[j]) == j);
    }
}

/// What is kept of a list without repetition is without repetition.
proof fn lemma_filter_differ(s: Seq<ManagerId>, keep: spec_fn(ManagerId) -> bool)
    requires
        s.no_duplicates(),
    ensures
        s.filter(keep).no_duplicates(),
    decreases s.len(),
{
    reveal(Seq::filter);
    if s.len() > 0 {
        let t = s.drop_last();
        assert(t.no_duplicates());
        lemma_filter_differ(t, keep);
        if t.filter(keep).contains(s.last()) {
            t.lemma_filter_contains_rev(keep, s.last());
            let i = choose|i: int| 0 <= i < t.len() && t[i] == s.last();
            assert(s[i] == s[s.len() - 1]);
        }
        let kept = t.filter(keep);
        assert forall|i: int, j: int|
            0 <= i < s.filter(keep).len() && 0 <= j < s.filter(keep).len() && i != j implies s.filter(
            keep,
        )[i] != s.filter(keep)[j] by {
            if keep(s.last()) {
                if i < kept.len() {
                    assert(kept.contains(kept[i]));
                }
                if j < kept.len() {
                    assert(kept.contains(kept[j]));
                }
            }
        }
    }
}

/// Detection changes no manager's place.
proof fn lemma_detected_len(ms: Seq<StateModel>, found: Seq<(ManagerId, bool)>)
    requires
        ms.len() == MANAGER_COUNT,
    ensures
        detected_of(ms, found).len() == ms.len(),
    decreases found.len(),
{
    if found.len() > 0 {
        lemma_detected_len(ms, found.drop_last());
    }
}

/// The beginning of a run keeps the updater sound.
proof fn lemma_start_sound(a: AppState, id: ManagerId, phrases: Phrases)
    requires
        sound(a),
    ensures
        sound(run_started(a, id, phrases).0),
{
}

/// The end of a check keeps the updater sound.
proof fn lemma_checked_sound(a: AppState, id: ManagerId, outcome: CheckModel)
    requires
        sound(a),
    ensures
        sound(checked_of(a, id, outcome)),
{
}

/// What is noted and logged of the end of a run keeps the updater sound.
proof fn lemma_noted_sound(a: AppState, id: ManagerId, outcome: OutcomeModel)
    requires
        sound(a),
    ensures
        sound(run_logged(run_noted(a, id, outcome), id, outcome.output)),
{
    let b = run_noted(a, id, outcome);
    assert(sound(b));
}

/// What follows a run keeps the updater sound.
proof fn lemma_followed_sound(a: AppState, phrases: Phrases)
    requires
        sound(a),
    ensures
        sound(run_followed(a, phrases).0),
{
    if a.run_all_queue.len() > 0 {
        let b = AppState { run_all_queue: a.run_all_queue.drop_first(), ..a };
        assert(sound(b));
        lemma_start_sound(b, a.run_all_queue[0], phrases);
    }
}

/// The beginning of the runs of all managers keeps the updater sound.
proof fn lemma_run_all_sound(a: AppState, phrases: Phrases)
    requires
        sound(a),
    ensures
        sound(run_all_started(a, phrases).0),
{
    let queue = queue_of(a, true);
    lemma_managers_differ();
    lemma_filter_differ(all_managers(), wants_run(a, true));
    if queue.len() > 0 {
        let b = AppState {
            run_all_queue: queue.drop_first(),
            run_all_active: true,
            run_all_output: Seq::empty(),
            selected_manager: None,
            log_text: phrases.status_running@,
            ..a
        };
        assert(sound(b));
        lemma_start_sound(b, queue[0], phrases);
    }
}

/// What every event keeps: a sound updater stays sound.
pub proof fn law_stays_sound(a: AppState, m: MessageModel, phrases: Phrases)
    requires
        sound(a),
    ensures
        sound(step_of(a, m, phrases).0),
{
    match m {
        MessageModel::RunAll => lemma_run_all_sound(a, phrases),
        MessageModel::RunManager(id) => {
            let b = AppState {
                run_all_queue: Seq::empty(),
                run_all_active: false,
                run_all_output: Seq::empty(),
                ..a
            };
            assert(sound(b));
            lemma_start_sound(b, id, phrases);
        },
        MessageModel::DetectComplete(found) => lemma_detected_len(a.managers, found),
        MessageModel::CheckComplete(id, outcome) => lemma_checked_sound(a, id, outcome),
        MessageModel::UpdateComplete(id, outcome) => {
            lemma_noted_sound(a, id, outcome);
            lemma_followed_sound(
                run_logged(run_noted(a, id, outcome), id, outcome.output),
                phrases,
            );
        },
        _ => {},
    }
}

/// The user is asked to reboot after a run of APT that upgraded packages, until the user puts it
/// off or another run of APT that ended well upgraded none; nothing else touches the question.
pub proof fn law_reboot_asked(a: AppState, m: MessageModel, phrases: Phrases)
    ensures
        step_of(a, m, phrases).0.reboot_prompt == match m {
            MessageModel::UpdateComplete(ManagerId::Apt, outcome) => if outcome.status is Success {
                upgraded_any(lines_of(outcome.output))
            } else {
                a.reboot_prompt
            },
            MessageModel::RebootDismiss => false,
            _ => a.reboot_prompt,
        },
{
    match m {
        MessageModel::UpdateComplete(id, outcome) => {
            let b = run_noted(a, id, outcome);
            assert(run_logged(b, id, outcome.output).reboot_prompt == b.reboot_prompt);
        },
        MessageModel::RunAll => {},
        MessageModel::CheckComplete(id, outcome) => {},
        _ => {},
    }
}

/// What an event begins is marked: a manager that is to run as running, managers that are to be
/// checked as being checked, and these are there.
pub proof fn law_actions_marked(a: AppState, m: MessageModel, phrases: Phrases)
    requires
        sound(a),
    ensures
        match step_of(a, m, phrases).1 {
            ActionModel::Run { manager, .. } => step_of(a, m, phrases).0.managers[place_of(
                manager,
            )].status is Running,
            ActionModel::Check { managers, .. } => forall|i: int|
                #![trigger managers[i]]
                0 <= i < managers.len() ==> {
                    let s = step_of(a, m, phrases).0.managers[place_of(managers[i])];
                    s.checking && s.available
                },
            _ => true,
        },
{
    match m {
        MessageModel::DetectComplete(found) => {
            lemma_detected_len(a.managers, found);
            lemma_available(detected_of(a.managers, found));
        },
        MessageModel::CheckUpdates => lemma_available(a.managers),
        MessageModel::UpdateComplete(id, outcome) => {
            lemma_noted_sound(a, id, outcome);
            let b = run_logged(run_noted(a, id, outcome), id, outcome.output);
            lemma_available(b.managers);
        },
        _ => {},
    }
}

/// The managers that are there are there.
proof fn lemma_available(ms: Seq<StateModel>)
    requires
        ms.len() == MANAGER_COUNT,
    ensures
        forall|i: int|
            #![trigger available_ids(ms)[i]]
            0 <= i < available_ids(ms).len() ==> ms[place_of(available_ids(ms)[i])].available
                && checks_started(ms)[place_of(available_ids(ms)[i])].checking
                && checks_started(ms)[place_of(available_ids(ms)[i])].available,
{
    assert forall|i: int| #![trigger available_ids(ms)[i]] 0 <= i < available_ids(ms).len() implies ms[place_of(
        available_ids(ms)[i],
    )].available && checks_started(ms)[place_of(available_ids(ms)[i])].checking
        && checks_started(ms)[place_of(available_ids(ms)[i])].available by {
        all_managers().lemma_filter_pred(is_available(ms), i);
    }
}

/// Whether the run of a manager is to begin.
pub open spec fn begins(action: ActionModel, id: ManagerId) -> bool {
    action matches ActionModel::Run { manager, .. } && manager == id
}

/// All managers are run one after another: those that are there and not running. One of APT's and
/// of Flatpak's updates must be ticked, and one of DNF's and of YUM's where any is listed; the
/// others need no tick. The first begins at once, the others wait in their order; where there is
/// none, no sequence of runs is active.
pub proof fn law_run_all_begins(a: AppState, phrases: Phrases)
    requires
        sound(a),
    ensures
        ({
            let queue = queue_of(a, true);
            let (b, action) = step_of(a, MessageModel::RunAll, phrases);
            &&& b.run_all_active == (queue.len() > 0)
            &&& b.run_all_active == (action is Run)
            &&& queue.len() > 0 ==> b.run_all_queue == queue.drop_first() && begins(
                action,
                queue[0],
            )
            &&& queue.len() == 0 ==> b.run_all_queue.len() == 0 && b.log_text == a.log_text
                && action is Nothing
        }),
        forall|i: int|
            #![trigger queue_of(a, true)[i]]
            0 <= i < queue_of(a, true).len() ==> {
                let id = queue_of(a, true)[i];
                let s = a.managers[place_of(id)];
                &&& s.available
                &&& !(s.status is Running)
                &&& id == ManagerId::Apt || id == ManagerId::Flatpak ==> any_selected(a.items, id)
                &&& can_choose(id) && any_of_manager(a.items, id) ==> any_selected(a.items, id)
            },
        forall|id: ManagerId|
            ({
                let s = a.managers[place_of(id)];
                &&& s.available
                &&& !(s.status is Running)
                &&& id != ManagerId::Apt && id != ManagerId::Flatpak
                &&& !any_of_manager(a.items, id) || !can_choose(id)
            }) ==> #[trigger] queue_of(a, true).contains(id),
{
    assert forall|i: int| #![trigger queue_of(a, true)[i]] 0 <= i < queue_of(a, true).len() implies {
        let id = queue_of(a, true)[i];
        let s = a.managers[place_of(id)];
        &&& s.available
        &&& !(s.status is Running)
        &&& id == ManagerId::Apt || id == ManagerId::Flatpak ==> any_selected(a.items, id)
        &&& can_choose(id) && any_of_manager(a.items, id) ==> any_selected(a.items, id)
    } by {
        all_managers().lemma_filter_pred(wants_run(a, true), i);
    }
    assert forall|id: ManagerId|
        ({
            let s = a.managers[place_of(id)];
            &&& s.available
            &&& !(s.status is Running)
            &&& id != ManagerId::Apt && id != ManagerId::Flatpak
            &&& !any_of_manager(a.items, id) || !can_choose(id)
        }) implies #[trigger] queue_of(a, true).contains(id) by {
        assert(all_managers()[place_of(id)] == id);
        assert(wants_run(a, true)(id));
        all_managers().lemma_filter_contains(wants_run(a, true), place_of(id));
    }
}

/// While all managers are run, the end of one begins the next that waits; after the last one
/// every manager that is there is checked again, and the runs are over.
pub proof fn law_run_all_goes_on(a: AppState, id: ManagerId, outcome: OutcomeModel, phrases: Phrases)
    requires
        sound(a),
        a.run_all_active,
    ensures
        ({
            let (b, action) = step_of(a, MessageModel::UpdateComplete(id, outcome), phrases);
            &&& b.run_all_active == (action is Run)
            &&& if a.run_all_queue.len() > 0 {
                &&& b.run_all_active
                &&& b.run_all_queue == a.run_all_queue.drop_first()
                &&& begins(action, a.run_all_queue[0])
            } else {
                &&& !b.run_all_active
                &&& action == if available_ids(a.managers).len() == 0 {
                    ActionModel::Nothing
                } else {
                    ActionModel::Check {
                        managers: available_ids(a.managers),
                        force_privileged: true,
                    }
                }
            }
        }),
{
    let b = run_logged(run_noted(a, id, outcome), id, outcome.output);
    assert(b.run_all_queue == a.run_all_queue);
    assert(b.managers.len() == a.managers.len());
    assert forall|other: ManagerId| #[trigger]
        b.managers[place_of(other)].available == a.managers[place_of(other)].available by {}
    assert(is_available(b.managers) =~= is_available(a.managers));
}

/// A page of the drawer that is asked for twice is closed again; where it was shown before, the
/// drawer is as it was.
pub proof fn law_page_twice(a: AppState, page: ContextPage, phrases: Phrases)
    ensures
        ({
            let m = MessageModel::ToggleContextPage(page);
            let b = step_of(step_of(a, m, phrases).0, m, phrases).0;
            if a.context_page == page {
                b == a
            } else {
                b == (AppState { context_page: page, show_context: false, ..a })
            }
        }),
{
}

/// A check that failed changes neither the updates that are shown nor whether the manager has
/// updates, and tells why it failed.
pub proof fn law_failed_check_keeps(
    a: AppState,
    id: ManagerId,
    outcome: CheckModel,
    phrases: Phrases,
)
    requires
        sound(a),
        outcome.error is Some,
    ensures
        ({
            let b = step_of(a, MessageModel::CheckComplete(id, outcome), phrases).0;
            let s = b.managers[place_of(id)];
            &&& b.items == a.items
            &&& s.update_available == a.managers[place_of(id)].update_available
            &&& s.status == StatusModel::Failed(outcome.error->0)
            &&& !s.checking
        }),
{
}

/// What a run has printed can be read afterwards: the log of its manager is what it printed,
/// unless it printed nothing or the manager is run once more.
pub proof fn law_log_can_be_read(a: AppState, id: ManagerId, outcome: OutcomeModel, phrases: Phrases)
    requires
        sound(a),
        outcome.output.len() > 0,
        a.run_all_queue.len() > 0 ==> a.run_all_queue[0] != id,
    ensures
        ({
            let b = step_of(a, MessageModel::UpdateComplete(id, outcome), phrases).0;
            let c = step_of(b, MessageModel::SelectManager(id), phrases).0;
            c.log_text == outcome.output && c.context_page == ContextPage::Logs && c.show_context
        }),
{
    let b = run_logged(run_noted(a, id, outcome), id, outcome.output);
    assert(b.managers[place_of(id)].last_output == outcome.output);
    assert(b.run_all_queue == a.run_all_queue);
    if b.run_all_queue.len() > 0 {
        assert(place_of(b.run_all_queue[0]) != place_of(id));
    }
}

/// What is kept of the updates of a manager when each of them has the tick `checked`.
proof fn lemma_ticks(s: Seq<ItemModel>, checked: bool, id: ManagerId)
    ensures
        ticked_count(all_checked(s, checked)) == if checked {
            s.len()
        } else {
            0
        },
        selected_of(all_checked(s, checked), id) == if checked {
            entries_in(s.filter(of_manager(id)))
        } else {
            Seq::empty()
        },
    decreases s.len(),
{
    reveal(Seq::filter);
    let c = all_checked(s, checked);
    if s.len() > 0 {
        let t = s.drop_last();
        lemma_ticks(t, checked, id);
        assert(c.drop_last() =~= all_checked(t, checked));
        assert(c.last() == (ItemModel { checked, ..s.last() }));
        let kept = c.drop_last().filter(ticked(id));
        let own = t.filter(of_manager(id));
        if checked && s.last().entry.manager == id {
            assert(entries_in(kept.push(c.last())) =~= entries_in(kept).push(s.last().entry));
            assert(entries_in(own.push(s.last())) =~= entries_in(own).push(s.last().entry));
        }
    } else {
        assert(c.filter(ticked(id)).len() == 0);
        assert(entries_in(c.filter(ticked(id))) =~= Seq::empty());
        assert(entries_in(s.filter(of_manager(id))) =~= Seq::empty());
    }
}

/// Once all updates are ticked, all of a manager's updates are the ticked ones; once none is,
/// none are.
pub proof fn law_tick_all(a: AppState, id: ManagerId, phrases: Phrases)
    ensures
        ({
            let all = step_of(a, MessageModel::SelectAllUpdates, phrases).0;
            let none = step_of(a, MessageModel::SelectNoUpdates, phrases).0;
            &&& ticked_count(all.items) == a.items.len()
            &&& selected_of(all.items, id) == entries_in(a.items.filter(of_manager(id)))
            &&& ticked_count(none.items) == 0
            &&& selected_of(none.items, id).len() == 0
        }),
{
    lemma_ticks(a.items, true, id);
    lemma_ticks(a.items, false, id);
}

/// To tick an update changes that tick alone, and to give it back its old tick undoes it.
pub proof fn law_tick_one(a: AppState, key: KeyModel, checked: bool, phrases: Phrases)
    ensures
        ({
            let b = step_of(a, MessageModel::ToggleUpdate(key, checked), phrases).0;
            match find_item_of(a.items, key) {
                Some(i) => {
                    let back = MessageModel::ToggleUpdate(key, a.items[i].checked);
                    &&& b.items.len() == a.items.len()
                    &&& b.items[i] == (ItemModel { checked, ..a.items[i] })
                    &&& forall|j: int|
                        0 <= j < a.items.len() && j != i ==> #[trigger] b.items[j] == a.items[j]
                    &&& step_of(b, back, phrases).0 == a
                },
                None => b == a,
            }
        }),
{
    let b = step_of(a, MessageModel::ToggleUpdate(key, checked), phrases).0;
    lemma_find_item(a.items, key);
    if let Some(i) = find_item_of(a.items, key) {
        lemma_find_item(b.items, key);
        assert(key_of(b.items[i]) == key);
        assert forall|j: int| 0 <= j < i implies key_of(#[trigger] b.items[j]) != key by {
            assert(b.items[j] == a.items[j]);
        }
        let back = step_of(b, MessageModel::ToggleUpdate(key, a.items[i].checked), phrases).0;
        let k = find_item_of(b.items, key)->0;
        if k < i {
            assert(key_of(b.items[k]) != key);
        }
        assert(k == i);
        assert(back.items =~= a.items);
        assert(back =~= a);
    }
}

/// A run that the user begins installs the ticked updates and no other, where updates of the
/// manager can be chosen and some are ticked; else it installs everything.
pub proof fn law_chosen_are_run(a: AppState, id: ManagerId, phrases: Phrases)
    ensures
        step_of(a, MessageModel::RunManager(id), phrases).1 == if can_choose(id) && any_selected(
            a.items,
            id,
        ) {
            ActionModel::Run { manager: id, selected: Some(selected_of(a.items, id)) }
        } else {
            ActionModel::Run { manager: id, selected: None }
        },
{
    lemma_any_selected(a.items, id);
}

/// What a filter keeps, item by item.
proof fn lemma_kept(s: Seq<ItemModel>, keep: spec_fn(ItemModel) -> bool, item: ItemModel)
    ensures
        s.filter(keep).contains(item) == (s.contains(item) && keep(item)),
{
    if s.contains(item) && keep(item) {
        let i = choose|i: int| 0 <= i < s.len() && s[i] == item;
        s.lemma_filter_contains(keep, i);
    }
    if s.filter(keep).contains(item) {
        s.lemma_filter_contains_rev(keep, item);
        let i = choose|i: int| 0 <= i < s.filter(keep).len() && s.filter(keep)[i] == item;
        s.lemma_filter_pred(keep, i);
    }
}

/// Whether the run of a manager installs an update, if it begins now: where updates of the
/// manager can be chosen and some are ticked, it does if a ticked one has its key.
pub open spec fn to_be_installed(s: Seq<ItemModel>, id: ManagerId, item: ItemModel) -> bool {
    item.entry.manager == id && (can_choose(id) && any_selected(s, id) ==> exists|i: int|
        0 <= i < s.len() && #[trigger] ticked(id)(s[i]) && key_of(s[i]) == key_of(item))
}

/// The keys of the ticked updates of a manager.
proof fn lemma_chosen_keys(s: Seq<ItemModel>, id: ManagerId, item: ItemModel)
    requires
        item.entry.manager == id,
    ensures
        keys_for(id, selected_of(s, id)).contains(key_of(item)) == exists|i: int|
            0 <= i < s.len() && #[trigger] ticked(id)(s[i]) && key_of(s[i]) == key_of(item),
{
    let kept = s.filter(ticked(id));
    let chosen = keys_for(id, selected_of(s, id));
    assert(chosen.len() == kept.len());
    if chosen.contains(key_of(item)) {
        let j = choose|j: int| 0 <= j < chosen.len() && chosen[j] == key_of(item);
        s.lemma_filter_pred(ticked(id), j);
        assert(kept.contains(kept[j]));
        s.lemma_filter_contains_rev(ticked(id), kept[j]);
        let i = choose|i: int| 0 <= i < s.len() && s[i] == kept[j];
        assert(ticked(id)(s[i]));
        assert(key_of(s[i]) == chosen[j]);
    }
    if exists|i: int|
        0 <= i < s.len() && #[trigger] ticked(id)(s[i]) && key_of(s[i]) == key_of(item) {
        let i = choose|i: int|
            0 <= i < s.len() && #[trigger] ticked(id)(s[i]) && key_of(s[i]) == key_of(item);
        s.lemma_filter_contains(ticked(id), i);
        let j = choose|j: int| 0 <= j < kept.len() && kept[j] == s[i];
        assert(chosen[j] == key_of(item));
    }
}

/// Once a run that the user began has ended well, the updates that it installed are gone and
/// all others are still shown; the manager has updates exactly where some of its own are left.
pub proof fn law_installed_are_gone(
    a: AppState,
    id: ManagerId,
    outcome: OutcomeModel,
    item: ItemModel,
    phrases: Phrases,
)
    requires
        sound(a),
        outcome.status is Success,
    ensures
        ({
            let b = step_of(a, MessageModel::RunManager(id), phrases).0;
            let c = step_of(b, MessageModel::UpdateComplete(id, outcome), phrases).0;
            &&& c.items.contains(item) == (a.items.contains(item) && !to_be_installed(
                a.items,
                id,
                item,
            ))
            &&& c.managers[place_of(id)].update_available == any_of_manager(c.items, id)
        }),
{
    let b = step_of(a, MessageModel::RunManager(id), phrases).0;
    let c = step_of(b, MessageModel::UpdateComplete(id, outcome), phrases).0;
    lemma_any_selected(a.items, id);
    let d = AppState {
        managers: b.managers.update(
            place_of(id),
            run_ended(b.managers[place_of(id)], outcome),
        ),
        reboot_prompt: c.reboot_prompt,
        ..b
    };
    assert(b.items == a.items);
    assert(!b.run_all_active && b.run_all_queue.len() == 0);
    let chosen = keys_for(id, selected_of(a.items, id));
    let left = if can_choose(id) && any_selected(a.items, id) {
        a.items.filter(left_over(id, chosen))
    } else {
        a.items.filter(not_of_manager(id))
    };
    assert(items_left(d, id) == left);
    assert(c.items == left);
    lemma_kept(a.items, left_over(id, chosen), item);
    lemma_kept(a.items, not_of_manager(id), item);
    if item.entry.manager == id {
        lemma_chosen_keys(a.items, id, item);
    }
}

/// A run that ended badly leaves every update where it was.
pub proof fn law_failed_run_keeps(
    a: AppState,
    id: ManagerId,
    outcome: OutcomeModel,
    phrases: Phrases,
)
    requires
        sound(a),
        !(outcome.status is Success),
    ensures
        ({
            let b = step_of(a, MessageModel::UpdateComplete(id, outcome), phrases).0;
            &&& b.items == a.items
            &&& forall|other: ManagerId|
                (#[trigger] b.managers[place_of(other)]).update_available
                    == a.managers[place_of(other)].update_available
        }),
{
    let c = run_logged(run_noted(a, id, outcome), id, outcome.output);
    assert(c.items == a.items);
    assert(c.managers.len() == MANAGER_COUNT);
    let b = run_followed(c, phrases).0;
    assert forall|other: ManagerId|
        (#[trigger] b.managers[place_of(other)]).update_available
            == a.managers[place_of(other)].update_available by {
        assert(c.managers[place_of(other)].update_available
            == a.managers[place_of(other)].update_available);
    }
}

/// A check that ended well shows the updates that it found, all ticked, in place of those of its
/// manager, and leaves those of the others.
pub proof fn law_check_shows(a: AppState, id: ManagerId, outcome: CheckModel, phrases: Phrases)
    requires
        sound(a),
        outcome.error is None,
    ensures
        ({
            let b = step_of(a, MessageModel::CheckComplete(id, outcome), phrases).0;
            &&& b.items.filter(of_manager(id)) == ticked_items(updates_of(id, outcome.output))
            &&& b.items.filter(not_of_manager(id)) == a.items.filter(not_of_manager(id))
            &&& b.managers[place_of(id)].update_available == outcome.has_updates
        }),
{
    let found = ticked_items(updates_of(id, outcome.output));
    let others = a.items.filter(not_of_manager(id));
    law_updates_belong(id, outcome.output);
    assert forall|i: int| 0 <= i < found.len() implies of_manager(id)(#[trigger] found[i]) by {
        assert(found[i].entry == updates_of(id, outcome.output)[i]);
    }
    assert forall|i: int| 0 <= i < others.len() implies not_of_manager(id)(#[trigger] others[i]) by {
        a.items.lemma_filter_pred(not_of_manager(id), i);
    }
    Seq::filter_distributes_over_add(others, found, of_manager(id));
    Seq::filter_distributes_over_add(others, found, not_of_manager(id));
    lemma_keeps_all(found, of_manager(id));
    lemma_keeps_none(found, not_of_manager(id));
    lemma_keeps_all(others, not_of_manager(id));
    lemma_keeps_none(others, of_manager(id));
    let b = step_of(a, MessageModel::CheckComplete(id, outcome), phrases).0;
    assert(b.items == others + found);
    assert(Seq::<ItemModel>::empty() + found =~= found);
    assert(others + Seq::<ItemModel>::empty() =~= others);
}

/// A filter that every item passes keeps all.
proof fn lemma_keeps_all(s: Seq<ItemModel>, keep: spec_fn(ItemModel) -> bool)
    requires
        forall|i: int| 0 <= i < s.len() ==> keep(#[trigger] s[i]),
    ensures
        s.filter(keep) == s,
    decreases s.len(),
{
    reveal(Seq::filter);
    if s.len() > 0 {
        lemma_keeps_all(s.drop_last(), keep);
        assert(s =~= s.drop_last().push(s.last()));
    }
}

/// A filter that no item passes keeps none.
proof fn lemma_keeps_none(s: Seq<ItemModel>, keep: spec_fn(ItemModel) -> bool)
    requires
        forall|i: int| 0 <= i < s.len() ==> !keep(#[trigger] s[i]),
    ensures
        s.filter(keep) == Seq::<ItemModel>::empty(),
    decreases s.len(),
{
    reveal(Seq::filter);
    if s.len() > 0 {
        lemma_keeps_none(s.drop_last(), keep);
    } else {
        assert(s =~= Seq::<ItemModel>::empty());
    }
}

/// Once a check has ended well, details are shown of no update that is not in the list.
pub proof fn law_details_of_listed(a: AppState, id: ManagerId, outcome: CheckModel, phrases: Phrases)
    requires
        sound(a),
        outcome.error is None,
    ensures
        ({
            let b = step_of(a, MessageModel::CheckComplete(id, outcome), phrases).0;
            &&& b.selected_update matches Some(key) ==> find_item_of(b.items, key) is Some
            &&& b.show_update_details ==> b.selected_update is Some
        }),
{
}

/// The list as it is shown holds the same updates, those whose run is under way first.
pub proof fn law_ordered(a: AppState)
    ensures
        ordered_of(a).to_multiset() == a.items.to_multiset(),
        forall|i: int, j: int|
            #![trigger ordered_of(a)[i], ordered_of(a)[j]]
            0 <= i < j < ordered_of(a).len() && being_run(a.managers)(ordered_of(a)[j])
                ==> being_run(a.managers)(ordered_of(a)[i]),
{
    lemma_parted(a.items, a.managers);
    let first = a.items.filter(being_run(a.managers));
    let second = a.items.filter(not_being_run(a.managers));
    assert forall|i: int, j: int|
        #![trigger ordered_of(a)[i], ordered_of(a)[j]]
        0 <= i < j < ordered_of(a).len() && being_run(a.managers)(
            ordered_of(a)[j],
        ) implies being_run(a.managers)(ordered_of(a)[i]) by {
        if j >= first.len() {
            a.items.lemma_filter_pred(not_being_run(a.managers), j - first.len());
            assert(ordered_of(a)[j] == second[j - first.len()]);
        } else {
            a.items.lemma_filter_pred(being_run(a.managers), i);
        }
    }
}

/// The two parts of the list hold what the list holds.
proof fn lemma_parted(s: Seq<ItemModel>, ms: Seq<StateModel>)
    ensures
        (s.filter(being_run(ms)) + s.filter(not_being_run(ms))).to_multiset() == s.to_multiset(),
    decreases s.len(),
{
    broadcast use vstd::seq_lib::group_to_multiset_ensures;
    broadcast use vstd::multiset::group_multiset_axioms;

    reveal(Seq::filter);
    let first = s.filter(being_run(ms));
    let second = s.filter(not_being_run(ms));
    vstd::seq_lib::lemma_multiset_commutative(first, second);
    if s.len() > 0 {
        let t = s.drop_last();
        lemma_parted(t, ms);
        vstd::seq_lib::lemma_multiset_commutative(
            t.filter(being_run(ms)),
            t.filter(not_being_run(ms)),
        );
        assert(s =~= t.push(s.last()));
        assert(s.to_multiset() =~= t.to_multiset().insert(s.last()));
        assert((first + second).to_multiset() =~= s.to_multiset());
    } else {
        assert(first + second =~= s);
    }
}

/// Whether every update that is shown can be chosen.
pub open spec fn all_choosable(a: AppState) -> bool {
    forall|i: int| 0 <= i < a.items.len() ==> can_choose((#[trigger] a.items[i]).entry.manager)
}

/// A check finds updates only for a manager whose updates can be chosen one by one.
pub proof fn law_found_can_be_chosen(id: ManagerId, output: Seq<char>)
    ensures
        updates_of(id, output).len() > 0 ==> can_choose(id),
{
}

/// Every update that is shown, at the beginning and after every event, can be chosen: its tick
/// decides whether it is installed.
#[verifier::spinoff_prover]
pub proof fn law_shown_can_be_chosen(
    features: Features,
    a: AppState,
    m: MessageModel,
    phrases: Phrases,
)
    requires
        sound(a),
        all_choosable(a),
    ensures
        all_choosable(initial_of(features, phrases)),
        all_choosable(step_of(a, m, phrases).0),
{
    let b = step_of(a, m, phrases).0;
    match m {
        MessageModel::CheckComplete(id, outcome) => {
            if outcome.error is None {
                let found = updates_of(id, outcome.output);
                let others = a.items.filter(not_of_manager(id));
                law_found_can_be_chosen(id, outcome.output);
                law_updates_belong(id, outcome.output);
                assert(b.items == others + ticked_items(found));
                lemma_part_choosable(a.items, not_of_manager(id));
                assert forall|i: int| 0 <= i < b.items.len() implies can_choose(
                    (#[trigger] b.items[i]).entry.manager,
                ) by {
                    if i < others.len() {
                        assert(b.items[i] == others[i]);
                    } else {
                        assert(b.items[i].entry == found[i - others.len()]);
                    }
                }
            }
        },
        MessageModel::UpdateComplete(id, outcome) => {
            let c = run_noted(a, id, outcome);
            assert(b.items == c.items);
            lemma_part_choosable(a.items, not_of_manager(id));
            if let SelectionModel::Chosen(chosen) = a.run_selection[place_of(id)] {
                lemma_part_choosable(a.items, left_over(id, chosen));
            }
            assert(all_choosable(c));
        },
        MessageModel::ToggleUpdate(key, checked) => {
            lemma_find_item(a.items, key);
            assert forall|i: int| 0 <= i < b.items.len() implies can_choose(
                (#[trigger] b.items[i]).entry.manager,
            ) by {
                assert(b.items[i].entry == a.items[i].entry);
            }
        },
        MessageModel::SelectAllUpdates | MessageModel::SelectNoUpdates => {
            assert forall|i: int| 0 <= i < b.items.len() implies can_choose(
                (#[trigger] b.items[i]).entry.manager,
            ) by {
                assert(b.items[i].entry == a.items[i].entry);
            }
        },
        _ => {
            assert(b.items == a.items);
        },
    }
}

/// What a filter keeps of updates that can be chosen can be chosen.
proof fn lemma_part_choosable(s: Seq<ItemModel>, keep: spec_fn(ItemModel) -> bool)
    requires
        forall|i: int| 0 <= i < s.len() ==> can_choose((#[trigger] s[i]).entry.manager),
    ensures
        forall|i: int|
            0 <= i < s.filter(keep).len() ==> can_choose(
                (#[trigger] s.filter(keep)[i]).entry.manager,
            ),
{
    let kept = s.filter(keep);
    assert forall|i: int| 0 <= i < kept.len() implies can_choose(
        (#[trigger] kept[i]).entry.manager,
    ) by {
        assert(kept.contains(kept[i]));
        s.lemma_filter_contains_rev(keep, kept[i]);
        let j = choose|j: int| 0 <= j < s.len() && s[j] == kept[i];
        assert(can_choose(s[j].entry.manager));
    }
}

/// Once it is found out which managers there are, those that are there are checked, and no
/// privilege is asked for yet.
pub proof fn law_starts_with_checks(
    features: Features,
    found: Seq<(ManagerId, bool)>,
    phrases: Phrases,
)
    ensures
        ({
            let a = initial_of(features, phrases);
            let (b, action) = step_of(a, MessageModel::DetectComplete(found), phrases);
            let there = available_ids(detected_of(a.managers, found));
            action == if there.len() == 0 {
                ActionModel::Nothing
            } else {
                ActionModel::Check { managers: there, force_privileged: false }
            }
        }),
{
}

/// Chosen updates never run by the commands that update everything.
pub proof fn law_chosen_are_named(id: ManagerId, features: Features)
    ensures
        can_choose(id) ==> !(route_of(id, true, features) is Commands),
{
}

/// A part of all managers is in their order.
proof fn lemma_in_order(keep: spec_fn(ManagerId) -> bool)
    ensures
        forall|i: int, j: int|
            0 <= i < j < all_managers().filter(keep).len() ==> place_of(
                #[trigger] all_managers().filter(keep)[i],
            ) < place_of(#[trigger] all_managers().filter(keep)[j]),
{
    lemma_in_order_first(keep, MANAGER_COUNT as int);
    assert(all_managers().take(MANAGER_COUNT as int) =~= all_managers());
}

/// A part of the first `n` managers is in their order, and all of it comes before the others.
proof fn lemma_in_order_first(keep: spec_fn(ManagerId) -> bool, n: int)
    requires
        0 <= n <= MANAGER_COUNT,
    ensures
        ({
            let kept = all_managers().take(n).filter(keep);
            &&& forall|i: int| 0 <= i < kept.len() ==> place_of(#[trigger] kept[i]) < n
            &&& forall|i: int, j: int|
                0 <= i < j < kept.len() ==> place_of(#[trigger] kept[i]) < place_of(
                    #[trigger] kept[j],
                )
        }),
    decreases n,
{
    reveal(Seq::filter);
    if n > 0 {
        lemma_in_order_first(keep, n - 1);
        let first = all_managers().take(n);
        assert(first.drop_last() =~= all_managers().take(n - 1));
        assert(place_of(first.last()) == n - 1);
        let rest = all_managers().take(n - 1).filter(keep);
        let kept = first.filter(keep);
        assert(kept == if keep(first.last()) {
            rest.push(first.last())
        } else {
            rest
        });
        assert forall|i: int| 0 <= i < kept.len() implies place_of(#[trigger] kept[i]) < n by {
            if i < rest.len() {
                assert(kept[i] == rest[i]);
            }
        }
        assert forall|i: int, j: int| 0 <= i < j < kept.len() implies place_of(#[trigger] kept[i])
            < place_of(#[trigger] kept[j]) by {
            assert(kept[i] == rest[i]);
            if j < rest.len() {
                assert(kept[j] == rest[j]);
            }
        }
    } else {
        assert(all_managers().take(0).len() == 0);
        assert(all_managers().take(0).filter(keep).len() == 0);
    }
}

/// The managers that are run when all are: those that are there and not running, and of which an
/// update is ticked. Where none of their updates is listed, or can be, DNF, YUM and the managers
/// whose updates cannot be told apart are run if all are to be, or if they have updates. They run
/// in the order in which managers are shown, each once.
pub proof fn law_queue(a: AppState, force_all: bool, id: ManagerId)
    ensures
        queue_of(a, force_all).contains(id) <==> {
            let s = a.managers[place_of(id)];
            let by_tick = match id {
                ManagerId::Apt | ManagerId::Flatpak => true,
                ManagerId::Dnf | ManagerId::Yum => any_of_manager(a.items, id),
                _ => false,
            };
            &&& s.available
            &&& !(s.status is Running)
            &&& by_tick ==> any_selected(a.items, id)
            &&& !by_tick ==> force_all || s.update_available
        },
        forall|i: int, j: int|
            0 <= i < j < queue_of(a, force_all).len() ==> place_of(
                #[trigger] queue_of(a, force_all)[i],
            ) < place_of(#[trigger] queue_of(a, force_all)[j]),
{
    let keep = wants_run(a, force_all);
    lemma_in_order(keep);
    if queue_of(a, force_all).contains(id) {
        let i = queue_of(a, force_all).index_of(id);
        all_managers().lemma_filter_pred(keep, i);
    }
    if keep(id) {
        assert(all_managers()[place_of(id)] == id);
        all_managers().lemma_filter_contains(keep, place_of(id));
    }
}

/// The managers that are there are listed in the order in which managers are shown, each once.
pub proof fn law_available_in_order(ms: Seq<StateModel>)
    ensures
        forall|i: int, j: int|
            0 <= i < j < available_ids(ms).len() ==> place_of(#[trigger] available_ids(ms)[i])
                < place_of(#[trigger] available_ids(ms)[j]),
        forall|id: ManagerId| #[trigger]
            available_ids(ms).contains(id) <==> ms[place_of(id)].available,
{
    let keep = is_available(ms);
    lemma_in_order(keep);
    assert forall|id: ManagerId| #[trigger]
        available_ids(ms).contains(id) <==> ms[place_of(id)].available by {
        if available_ids(ms).contains(id) {
            let i = available_ids(ms).index_of(id);
            all_managers().lemma_filter_pred(keep, i);
        }
        if ms[place_of(id)].available {
            assert(all_managers()[place_of(id)] == id);
            all_managers().lemma_filter_contains(keep, place_of(id));
        }
    }
}

/// The ticked updates of a manager are chosen in the order of the list, and no others: an update
/// behind the list is chosen after all others if it is ticked and of the manager, and else changes
/// nothing. The number of ticked updates counts each that is ticked.
pub proof fn law_ticked_are_selected(s: Seq<ItemModel>, item: ItemModel, id: ManagerId)
    ensures
        selected_of(Seq::empty(), id).len() == 0,
        selected_of(s.push(item), id) == if item.entry.manager == id && item.checked {
            selected_of(s, id).push(item.entry)
        } else {
            selected_of(s, id)
        },
        ticked_count(Seq::empty()) == 0,
        ticked_count(s.push(item)) == ticked_count(s) + if item.checked {
            1int
        } else {
            0
        },
        any_selected(s, id) <==> selected_of(s, id).len() > 0,
        any_of_manager(s.push(item), id) <==> any_of_manager(s, id) || item.entry.manager == id,
{
    reveal(Seq::filter);
    let more = s.push(item);
    assert(more.drop_last() =~= s);
    lemma_any_selected(s, id);
    let kept = s.filter(ticked(id));
    if item.entry.manager == id && item.checked {
        assert(entries_in(kept.push(item)) =~= entries_in(kept).push(item.entry));
    }
    assert(entries_in(Seq::<ItemModel>::empty().filter(ticked(id))) =~= Seq::<
        EntryModel,
    >::empty());
    if any_of_manager(s, id) {
        let i = choose|i: int| 0 <= i < s.len() && (#[trigger] s[i]).entry.manager == id;
        assert(more[i].entry.manager == id);
    }
    if item.entry.manager == id {
        assert(more[s.len() as int].entry.manager == id);
    }
    if any_of_manager(more, id) {
        let i = choose|i: int| 0 <= i < more.len() && (#[trigger] more[i]).entry.manager == id;
        if i < s.len() {
            assert(s[i].entry.manager == id);
        }
    }
}

/// In the list as it is shown the updates whose run is under way keep their order, and so do the
/// others.
pub proof fn law_order_kept(a: AppState)
    ensures
        ordered_of(a).filter(being_run(a.managers)) == a.items.filter(being_run(a.managers)),
        ordered_of(a).filter(not_being_run(a.managers)) == a.items.filter(
            not_being_run(a.managers),
        ),
{
    let first = a.items.filter(being_run(a.managers));
    let second = a.items.filter(not_being_run(a.managers));
    assert forall|i: int| 0 <= i < first.len() implies being_run(a.managers)(
        #[trigger] first[i],
    ) by {
        a.items.lemma_filter_pred(being_run(a.managers), i);
    }
    assert forall|i: int| 0 <= i < second.len() implies not_being_run(a.managers)(
        #[trigger] second[i],
    ) by {
        a.items.lemma_filter_pred(not_being_run(a.managers), i);
    }
    Seq::filter_distributes_over_add(first, second, being_run(a.managers));
    Seq::filter_distributes_over_add(first, second, not_being_run(a.managers));
    lemma_keeps_all(first, being_run(a.managers));
    lemma_keeps_none(second, being_run(a.managers));
    lemma_keeps_none(first, not_being_run(a.managers));
    lemma_keeps_all(second, not_being_run(a.managers));
    assert(first + Seq::<ItemModel>::empty() =~= first);
    assert(Seq::<ItemModel>::empty() + second =~= second);
}

/// At the beginning no manager is known to be there, none runs or is checked, nothing is listed and
/// nothing is asked; which managers need privilege is known.
pub proof fn law_begins_empty(features: Features, phrases: Phrases, id: ManagerId)
    ensures
        ({
            let a = initial_of(features, phrases);
            let s = a.managers[place_of(id)];
            &&& !s.available && !s.checking && !s.update_available
            &&& s.status is Idle && s.progress is None
            &&& s.last_output.len() == 0 && s.check_output.len() == 0
            &&& s.requires_privilege == (id != ManagerId::NixEnv && id != ManagerId::Brew)
            &&& a.items.len() == 0 && a.selected_update is None && !a.show_update_details
            &&& !a.show_context && !a.reboot_prompt && !a.reboot_in_progress
            &&& !a.run_all_active && a.run_all_queue.len() == 0 && a.run_all_output.len() == 0
            &&& a.selected_manager is None && a.log_text == phrases.select_manager@
            &&& a.run_selection[place_of(id)] is Absent && a.progress_phase == 0 && a.features
                == features
        }),
{
    assert(all_managers()[place_of(id)] == id);
}

/// What a run installs is remembered when it begins: the keys of the ticked updates, where updates
/// of the manager can be chosen and some are ticked. Nothing is remembered of other managers anew.
pub proof fn law_selection_remembered(
    a: AppState,
    id: ManagerId,
    other: ManagerId,
    phrases: Phrases,
)
    requires
        sound(a),
    ensures
        ({
            let b = step_of(a, MessageModel::RunManager(id), phrases).0;
            let chosen = can_choose(id) && any_selected(a.items, id);
            &&& chosen ==> b.run_selection[place_of(id)] == SelectionModel::Chosen(
                keys_for(id, selected_of(a.items, id)),
            )
            &&& !chosen ==> !(b.run_selection[place_of(id)] is Chosen)
            &&& other != id ==> b.run_selection[place_of(other)] == a.run_selection[place_of(other)]
        }),
{
    lemma_any_selected(a.items, id);
    if other != id {
        assert(place_of(other) != place_of(id));
    }
}

/// The updates that a check found are listed as they were found, every one of them ticked.
pub proof fn law_found_are_ticked(list: Seq<EntryModel>, i: int)
    requires
        0 <= i < list.len(),
    ensures
        ticked_items(list).len() == list.len(),
        ticked_items(list)[i].entry == list[i],
        ticked_items(list)[i].checked,
{
}

/// Two updates have the same key exactly where their managers and their identifiers are the same.
pub proof fn law_keys(a: ItemModel, b: ItemModel)
    ensures
        key_of(a) == key_of(b) <==> a.entry.manager == b.entry.manager && a.entry.id == b.entry.id,
{
}

} // verus!
