//! How the updater answers to events.

use crate::items::{all_checked, check_all, items, toggle, toggled_of, UpdateKey};
use crate::managers::{label_of, place_of, ManagerId};
use crate::model::{
    checking_from, completed_removed, forget_selections, no_selections, queue_of, run_started,
    wants_run, with_entries, Action, ActionModel, AppModel, AppState, ContextPage, Message,
    MessageModel,
};
use crate::parse::{apt_has_updates, parse_updates, updates_of, upgraded_any};
use crate::phrases::Phrases;
use crate::progress::{
    next_phase, ProgressTracker, RUNNING_PROGRESS_CYCLE, RUNNING_PROGRESS_STEP,
};
use crate::states::{lemma_state_changed, some_running, synced_of, StateModel};
use crate::text::lines_of;
use crate::updates::{
    CheckModel, CheckOutcome, OutcomeModel, StatusModel, TaskStatus, UpdateOutcome,
};
use vstd::prelude::*;

verus! {

/// The managers once it is known which of them are there.
pub open spec fn detected_of(ms: Seq<StateModel>, found: Seq<(ManagerId, bool)>) -> Seq<StateModel>
    decreases found.len(),
{
    if found.len() == 0 {
        ms
    } else {
        let before = detected_of(ms, found.drop_last());
        let p = place_of(found.last().0);
        before.update(p, StateModel { available: found.last().1, ..before[p] })
    }
}

/// A manager once a check of it has ended.
pub open spec fn check_ended(s: StateModel, outcome: CheckModel) -> StateModel {
    match outcome.error {
        Some(reason) => StateModel {
            checking: false,
            check_output: outcome.output,
            status: StatusModel::Failed(reason),
            ..s
        },
        None => StateModel {
            checking: false,
            check_output: outcome.output,
            update_available: outcome.has_updates,
            ..s
        },
    }
}

/// The end of a check of a manager. The updates that it found are shown; a check that failed
/// changes none.
pub open spec fn checked_of(a: AppState, id: ManagerId, outcome: CheckModel) -> AppState {
    let p = place_of(id);
    let b = AppState {
        managers: a.managers.update(p, check_ended(a.managers[p], outcome)),
        ..a
    };
    let c = if outcome.error is None {
        with_entries(b, id, updates_of(id, outcome.output))
    } else {
        b
    };
    if a.selected_manager == Some(id) && a.managers[p].last_output.len() == 0 {
        AppState { log_text: outcome.output, ..c }
    } else {
        c
    }
}

/// A manager once its run has ended.
pub open spec fn run_ended(s: StateModel, outcome: OutcomeModel) -> StateModel {
    StateModel {
        status: outcome.status,
        last_output: outcome.output,
        update_available: s.update_available && !(outcome.status is Success),
        progress: None,
        ..s
    }
}

/// The end of a manager's run, as far as it touches that manager: a run that ended well takes
/// its updates away, unless all managers are run, and one of APT asks for a reboot if packages
/// were upgraded.
pub open spec fn run_noted(a: AppState, id: ManagerId, outcome: OutcomeModel) -> AppState {
    let p = place_of(id);
    let success = outcome.status is Success;
    let b = AppState {
        managers: a.managers.update(p, run_ended(a.managers[p], outcome)),
        reboot_prompt: if id == ManagerId::Apt && success {
            upgraded_any(lines_of(outcome.output))
        } else {
            a.reboot_prompt
        },
        ..a
    };
    if success && !a.run_all_active {
        completed_removed(b, id)
    } else {
        b
    }
}

/// The log once a manager's run has ended: while all managers are run, what all of them have
/// printed so far; else what this one has printed, unless another one's log is shown.
pub open spec fn run_logged(a: AppState, id: ManagerId, output: Seq<char>) -> AppState {
    if a.run_all_active {
        let all = a.run_all_output + "\n== "@ + label_of(id) + " ==\n"@ + output;
        AppState { run_all_output: all, log_text: all, ..a }
    } else if a.selected_manager == Some(id) || a.selected_manager is None {
        AppState { selected_manager: Some(id), log_text: output, ..a }
    } else {
        a
    }
}

/// What comes after a manager's run: the next in the queue; after the last one a check of every
/// manager.
pub open spec fn run_followed(a: AppState, phrases: Phrases) -> (AppState, ActionModel) {
    if a.run_all_queue.len() > 0 {
        run_started(
            AppState { run_all_queue: a.run_all_queue.drop_first(), ..a },
            a.run_all_queue[0],
            phrases,
        )
    } else if a.run_all_active {
        checking_from(
            AppState { run_all_active: false, run_selection: no_selections(), ..a },
            true,
        )
    } else {
        (a, ActionModel::Nothing)
    }
}

/// The beginning of the runs of all managers, one after another. Where there is nothing to run,
/// none begins, and the log stays.
pub open spec fn run_all_started(a: AppState, phrases: Phrases) -> (AppState, ActionModel) {
    let queue = queue_of(a, true);
    if queue.len() > 0 {
        run_started(
            AppState {
                run_all_queue: queue.drop_first(),
                run_all_active: true,
                run_all_output: Seq::empty(),
                selected_manager: None,
                log_text: phrases.status_running@,
                ..a
            },
            queue[0],
            phrases,
        )
    } else {
        (
            AppState {
                run_all_queue: queue,
                run_all_active: false,
                run_all_output: Seq::empty(),
                ..a
            },
            ActionModel::Nothing,
        )
    }
}

/// The log of a manager: what its last run has printed; before a run, what its check has.
pub open spec fn log_of(s: StateModel) -> Seq<char> {
    if s.last_output.len() > 0 {
        s.last_output
    } else {
        s.check_output
    }
}

/// A moment has passed.
pub open spec fn ticked_of(a: AppState, reported: Option<Seq<Option<u32>>>) -> AppState {
    if some_running(a.managers) {
        AppState {
            managers: match reported {
                Some(values) => synced_of(a.managers, values),
                None => a.managers,
            },
            progress_phase: ((a.progress_phase + RUNNING_PROGRESS_STEP)
                % RUNNING_PROGRESS_CYCLE as int) as u32,
            ..a
        }
    } else {
        a
    }
}

/// What the updater knows and shows after an event, and what the event asks for.
pub open spec fn step_of(a: AppState, m: MessageModel, phrases: Phrases) -> (
    AppState,
    ActionModel,
) {
    match m {
        MessageModel::LaunchUrl(url) => (a, ActionModel::OpenUrl(url)),
        MessageModel::ToggleContextPage(page) => (
            AppState {
                context_page: page,
                show_context: a.context_page != page || !a.show_context,
                ..a
            },
            ActionModel::Nothing,
        ),
        MessageModel::DetectComplete(found) => checking_from(
            AppState { managers: detected_of(a.managers, found), ..a },
            false,
        ),
        MessageModel::CheckComplete(id, outcome) => (
            checked_of(a, id, outcome),
            ActionModel::Nothing,
        ),
        MessageModel::CheckUpdates => checking_from(a, true),
        MessageModel::RunManager(id) => run_started(
            AppState {
                run_all_queue: Seq::empty(),
                run_all_active: false,
                run_all_output: Seq::empty(),
                ..a
            },
            id,
            phrases,
        ),
        MessageModel::RunAll => run_all_started(a, phrases),
        MessageModel::UpdateComplete(id, outcome) => run_followed(
            run_logged(run_noted(a, id, outcome), id, outcome.output),
            phrases,
        ),
        MessageModel::ProgressTick(reported) => (ticked_of(a, reported), ActionModel::Nothing),
        MessageModel::SelectManager(id) => (
            AppState {
                selected_manager: Some(id),
                log_text: log_of(a.managers[place_of(id)]),
                context_page: ContextPage::Logs,
                show_context: true,
                ..a
            },
            ActionModel::Nothing,
        ),
        MessageModel::ToggleUpdate(key, checked) => (
            AppState { items: toggled_of(a.items, key, checked), ..a },
            ActionModel::Nothing,
        ),
        MessageModel::SelectUpdate(key) => (
            AppState { selected_update: Some(key), show_update_details: true, ..a },
            ActionModel::Nothing,
        ),
        MessageModel::SelectDetailsTab(tab) => (
            AppState { details_tab: tab, ..a },
            ActionModel::Nothing,
        ),
        MessageModel::ShowUpdatesList => (
            AppState { show_update_details: false, ..a },
            ActionModel::Nothing,
        ),
        MessageModel::SelectAllUpdates => (
            AppState { items: all_checked(a.items, true), ..a },
            ActionModel::Nothing,
        ),
        MessageModel::SelectNoUpdates => (
            AppState { items: all_checked(a.items, false), ..a },
            ActionModel::Nothing,
        ),
        MessageModel::RebootNow => (
            AppState { reboot_in_progress: true, ..a },
            ActionModel::Reboot,
        ),
        MessageModel::RebootDismiss => (
            AppState { reboot_prompt: false, ..a },
            ActionModel::Nothing,
        ),
        MessageModel::RebootFinished(error) => (
            AppState {
                reboot_in_progress: false,
                log_text: match error {
                    Some(reason) => phrases.reboot_failed@ + ": "@ + reason,
                    None => a.log_text,
                },
                ..a
            },
            ActionModel::Nothing,
        ),
    }
}

/// The manager whose reports an event makes worthless.
pub open spec fn forgotten_by(m: MessageModel) -> Option<ManagerId> {
    match m {
        MessageModel::UpdateComplete(id, _) => Some(id),
        _ => None,
    }
}

/// What an event asks for.
#[derive(Debug)]
pub struct Reaction {
    /// The manager whose reports are to be forgotten.
    pub forget: Option<ManagerId>,
    /// What is to be done.
    pub action: Action,
}

impl AppModel {
    /// Notes which managers are there.
    fn note_found(&mut self, found: &Vec<(ManagerId, bool)>)
        requires
            old(self).wf(),
        ensures
            final(self).wf(),
            final(self)@ == (AppState {
                managers: detected_of(old(self)@.managers, found@),
                ..old(self)@
            }),
    {
        let ghost start = self@;
        let mut i: usize = 0;
        while i < found.len()
            invariant
                self.wf(),
                i <= found@.len(),
                self@ == (AppState {
                    managers: detected_of(start.managers, found@.take(i as int)),
                    ..start
                }),
            decreases found@.len() - i,
        {
            let ghost before = self.managers;
            let id = found[i].0;
            let state = self.managers.state_mut(id);
            state.available = found[i].1;
            proof {
                lemma_state_changed(before, self.managers, id, self.managers.states@[place_of(id)]);
                assert(found@.take(i + 1).drop_last() =~= found@.take(i as int));
            }
            i += 1;
        }
        assert(found@.take(found@.len() as int) =~= found@);
    }

    /// Notes how a check of a manager ended.
    fn note_check(&mut self, id: ManagerId, outcome: &CheckOutcome)
        requires
            old(self).wf(),
        ensures
            final(self).wf(),
            final(self)@ == (AppState {
                managers: old(self)@.managers.update(
                    place_of(id),
                    check_ended(old(self)@.managers[place_of(id)], outcome@),
                ),
                ..old(self)@
            }),
    {
        let ghost before = self.managers;
        let state = self.managers.state_mut(id);
        state.checking = false;
        state.check_output = outcome.output.clone();
        match &outcome.error {
            Some(reason) => {
                state.status = TaskStatus::Failed(reason.clone());
            },
            None => {
                state.update_available = outcome.has_updates;
            },
        }
        proof {
            lemma_state_changed(before, self.managers, id, self.managers.states@[place_of(id)]);
        }
    }

    /// Whether the log of a manager is shown.
    fn is_selected(&self, id: ManagerId) -> (r: bool)
        ensures
            r == (self.selected_manager == Some(id)),
    {
        match self.selected_manager {
            Some(shown) => shown == id,
            None => false,
        }
    }

    /// The end of a check of a manager.
    fn check_complete(&mut self, id: ManagerId, outcome: CheckOutcome)
        requires
            old(self).wf(),
        ensures
            final(self).wf(),
            final(self)@ == checked_of(old(self)@, id, outcome@),
    {
        let shown = self.is_selected(id) && self.managers.get(id).last_output.as_str().is_empty();
        self.note_check(id, &outcome);
        if outcome.error.is_none() {
            let list = parse_updates(id, outcome.output.as_str());
            self.set_update_entries(id, list);
        }
        if shown {
            self.log_text = outcome.output;
        }
    }

    /// Notes how the run of a manager ended.
    fn note_run(&mut self, id: ManagerId, outcome: &UpdateOutcome)
        requires
            old(self).wf(),
        ensures
            final(self).wf(),
            final(self)@ == (AppState {
                managers: old(self)@.managers.update(
                    place_of(id),
                    run_ended(old(self)@.managers[place_of(id)], outcome@),
                ),
                ..old(self)@
            }),
    {
        let ghost before = self.managers;
        let success = outcome.status.is_success();
        let state = self.managers.state_mut(id);
        state.status = outcome.status.clone();
        state.last_output = outcome.output.clone();
        if success {
            state.update_available = false;
        }
        state.progress = None;
        proof {
            lemma_state_changed(before, self.managers, id, self.managers.states@[place_of(id)]);
        }
    }

    /// The end of a manager's run, as far as it touches that manager.
    fn finish_run(&mut self, id: ManagerId, outcome: &UpdateOutcome)
        requires
            old(self).wf(),
        ensures
            final(self).wf(),
            final(self)@ == run_noted(old(self)@, id, outcome@),
    {
        let success = outcome.status.is_success();
        self.note_run(id, outcome);
        if id == ManagerId::Apt && success {
            self.reboot_prompt = apt_has_updates(outcome.output.as_str());
        }
        if success && !self.run_all_active {
            self.remove_completed_updates(id);
        }
    }

    /// Takes what a run has printed over into the log.
    fn log_run(&mut self, id: ManagerId, output: String)
        requires
            old(self).wf(),
        ensures
            final(self).wf(),
            final(self)@ == run_logged(old(self)@, id, output@),
    {
        if self.run_all_active {
            self.run_all_output.append("\n== ");
            self.run_all_output.append(id.spec().label);
            self.run_all_output.append(" ==\n");
            self.run_all_output.append(output.as_str());
            self.log_text = self.run_all_output.clone();
        } else if self.is_selected(id) || self.selected_manager.is_none() {
            self.selected_manager = Some(id);
            self.log_text = output;
        }
    }

    /// Begins what comes after a manager's run.
    fn follow_run(&mut self, phrases: &Phrases) -> (r: Action)
        requires
            old(self).wf(),
        ensures
            final(self).wf(),
            (final(self)@, r@) == run_followed(old(self)@, *phrases),
    {
        if let Some(next) = self.run_all_queue.pop_front() {
            assert(self@.run_all_queue =~= old(self)@.run_all_queue.drop_first());
            return self.start_manager_update(next, phrases);
        }
        if self.run_all_active {
            self.run_all_active = false;
            self.manager_run_selection = forget_selections();
            return self.start_checks(true);
        }
        Action::Nothing
    }

    /// Begins the run of one manager.
    fn run_one(&mut self, id: ManagerId, phrases: &Phrases) -> (r: Action)
        requires
            old(self).wf(),
        ensures
            final(self).wf(),
            (final(self)@, r@) == step_of(old(self)@, MessageModel::RunManager(id), *phrases),
    {
        self.run_all_queue.clear();
        self.run_all_active = false;
        self.run_all_output = String::new();
        assert(self@.run_all_queue =~= Seq::<ManagerId>::empty());
        assert(self@.run_all_output =~= Seq::<char>::empty());
        self.start_manager_update(id, phrases)
    }

    /// Begins the runs of all managers.
    fn run_all(&mut self, phrases: &Phrases) -> (r: Action)
        requires
            old(self).wf(),
        ensures
            final(self).wf(),
            (final(self)@, r@) == run_all_started(old(self)@, *phrases),
    {
        self.run_all_queue.clear();
        self.run_all_active = false;
        self.run_all_output = String::new();
        proof {
            lemma_queue_same(old(self)@, self@);
        }
        self.enqueue_updates(true);
        assert(self@.run_all_queue =~= queue_of(old(self)@, true));
        assert(self@.run_all_output =~= Seq::<char>::empty());
        if let Some(next) = self.run_all_queue.pop_front() {
            assert(self@.run_all_queue =~= queue_of(old(self)@, true).drop_first());
            self.run_all_active = true;
            self.selected_manager = None;
            self.log_text = phrases.status_running.clone();
            return self.start_manager_update(next, phrases);
        }
        Action::Nothing
    }

    /// Shows the log of a manager.
    fn show_log(&mut self, id: ManagerId)
        requires
            old(self).wf(),
        ensures
            final(self).wf(),
            forall|phrases: Phrases| final(self)@ == (#[trigger] step_of(
                old(self)@,
                MessageModel::SelectManager(id),
                phrases,
            )).0,
    {
        let state = self.managers.get(id);
        let text = if !state.last_output.as_str().is_empty() {
            state.last_output.clone()
        } else {
            state.check_output.clone()
        };
        self.selected_manager = Some(id);
        self.log_text = text;
        self.context_page = ContextPage::Logs;
        self.show_context = true;
    }

    /// Takes over what runs have reported, and moves the bars of those that report nothing.
    fn tick(&mut self, tracker: &Option<ProgressTracker>)
        requires
            old(self).wf(),
            *tracker matches Some(t) ==> t.wf(),
        ensures
            final(self).wf(),
            final(self)@ == ticked_of(
                old(self)@,
                match *tracker {
                    Some(t) => Some(t.values@),
                    None => None,
                },
            ),
    {
        if self.managers.any_running() {
            match tracker {
                Some(t) => {
                    self.managers.sync_progress(t);
                },
                None => {},
            }
            self.progress_phase = next_phase(self.progress_phase);
        }
    }

    /// Opens a page of the drawer, or closes the drawer where the page is open.
    fn toggle_page(&mut self, page: ContextPage)
        requires
            old(self).wf(),
        ensures
            final(self).wf(),
            final(self)@ == (AppState {
                context_page: page,
                show_context: old(self)@.context_page != page || !old(self)@.show_context,
                ..old(self)@
            }),
    {
        if self.context_page == page {
            self.show_context = !self.show_context;
        } else {
            self.context_page = page;
            self.show_context = true;
        }
    }

    /// Ticks or unticks one update.
    fn toggle_update(&mut self, key: &UpdateKey, checked: bool)
        requires
            old(self).wf(),
        ensures
            final(self).wf(),
            final(self)@ == (AppState {
                items: toggled_of(old(self)@.items, key@, checked),
                ..old(self)@
            }),
    {
        toggle(&mut self.update_items, key, checked);
    }

    /// Ticks or unticks every update.
    fn check_updates(&mut self, checked: bool)
        requires
            old(self).wf(),
        ensures
            final(self).wf(),
            final(self)@ == (AppState { items: all_checked(old(self)@.items, checked), ..old(self)@ }),
    {
        check_all(&mut self.update_items, checked);
    }

    /// Notes how the request for a reboot ended.
    fn reboot_finished(&mut self, result: Result<(), String>, phrases: &Phrases)
        requires
            old(self).wf(),
        ensures
            final(self).wf(),
            final(self)@ == (AppState {
                reboot_in_progress: false,
                log_text: match result {
                    Ok(_) => old(self)@.log_text,
                    Err(reason) => phrases.reboot_failed@ + ": "@ + reason@,
                },
                ..old(self)@
            }),
    {
        self.reboot_in_progress = false;
        match result {
            Ok(_) => {},
            Err(reason) => {
                let mut text = phrases.reboot_failed.clone();
                text.append(": ");
                text.append(reason.as_str());
                self.log_text = text;
            },
        }
    }

    /// The end of a manager's run, and what comes after it.
    fn update_complete(&mut self, id: ManagerId, outcome: UpdateOutcome, phrases: &Phrases) -> (r:
        Action)
        requires
            old(self).wf(),
        ensures
            final(self).wf(),
            (final(self)@, r@) == run_followed(
                run_logged(run_noted(old(self)@, id, outcome@), id, outcome.output@),
                *phrases,
            ),
    {
        self.finish_run(id, &outcome);
        self.log_run(id, outcome.output);
        self.follow_run(phrases)
    }

    /// Answers to an event.
    #[verifier::rlimit(50)]
    pub fn update(&mut self, message: Message, phrases: &Phrases) -> (r: Reaction)
        requires
            old(self).wf(),
            message.wf(),
        ensures
            final(self).wf(),
            (final(self)@, r.action@) == step_of(old(self)@, message@, *phrases),
            r.forget == forgotten_by(message@),
    {
        let mut forget: Option<ManagerId> = None;
        let action = match message {
            Message::LaunchUrl(url) => Action::OpenUrl(url),
            Message::ToggleContextPage(page) => {
                self.toggle_page(page);
                Action::Nothing
            },
            Message::DetectComplete(found) => {
                self.note_found(&found);
                self.start_checks(false)
            },
            Message::CheckComplete(id, outcome) => {
                self.check_complete(id, outcome);
                Action::Nothing
            },
            Message::CheckUpdates => self.start_checks(true),
            Message::RunManager(id) => self.run_one(id, phrases),
            Message::RunAll => self.run_all(phrases),
            Message::UpdateComplete(id, outcome) => {
                forget = Some(id);
                self.update_complete(id, outcome, phrases)
            },
            Message::ProgressTick(tracker) => {
                self.tick(&tracker);
                Action::Nothing
            },
            Message::SelectManager(id) => {
                self.show_log(id);
                Action::Nothing
            },
            Message::ToggleUpdate(key, checked) => {
                self.toggle_update(&key, checked);
                Action::Nothing
            },
            Message::SelectUpdate(key) => {
                self.selected_update = Some(key);
                self.show_update_details = true;
                Action::Nothing
            },
            Message::SelectDetailsTab(tab) => {
                self.details_tab = tab;
                Action::Nothing
            },
            Message::ShowUpdatesList => {
                self.show_update_details = false;
                Action::Nothing
            },
            Message::SelectAllUpdates => {
                self.check_updates(true);
                Action::Nothing
            },
            Message::SelectNoUpdates => {
                self.check_updates(false);
                Action::Nothing
            },
            Message::RebootNow => {
                self.reboot_in_progress = true;
                Action::Reboot
            },
            Message::RebootDismiss => {
                self.reboot_prompt = false;
                Action::Nothing
            },
            Message::RebootFinished(result) => {
                self.reboot_finished(result, phrases);
                Action::Nothing
            },
        };
        Reaction { forget, action }
    }
}

/// Which managers are run when all are depends on where they stand and on the ticks alone.
proof fn lemma_queue_same(a: AppState, b: AppState)
    requires
        a.managers == b.managers,
        a.items == b.items,
    ensures
        queue_of(a, true) == queue_of(b, true),
{
    assert(wants_run(a, true) =~= wants_run(b, true));
}

} // verus!
