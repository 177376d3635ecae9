//! What the updater shows, and how it answers to events.

use crate::items::{
    add_entries, any_of_manager, any_selected, entry_keys, find_item, find_item_of, has_manager,
    has_selected, items, keys, keys_for, left_over, not_of_manager, selected_of, selected_updates,
    ticked_items, without_keys, without_manager, ItemModel, KeyModel, UpdateItem, UpdateKey,
};
use crate::managers::{all_managers, place_of, ManagerId, MANAGER_COUNT};
use crate::phrases::Phrases;
use crate::progress::{ProgressTracker, RUNNING_PROGRESS_CYCLE};
use crate::run::selection_of;
use crate::states::{
    available_ids, checks_started, initial_states, lemma_state_changed, Managers, StateModel,
};
use crate::system::Features;
use crate::updates::{
    entries, CheckModel, CheckOutcome, EntryModel, OutcomeModel, StatusModel, TaskStatus,
    UpdateEntry, UpdateOutcome,
};
use std::collections::VecDeque;
use vstd::prelude::*;

verus! {

/// A tab of the details of an update.
#[derive(Clone, Copy, Debug, PartialEq, Eq, Structural)]
pub enum DetailsTab {
    Information,
    Packages,
    Changelog,
}

/// A page of the drawer.
#[derive(Clone, Copy, Debug, PartialEq, Eq, Structural)]
pub enum ContextPage {
    About,
    Summoners,
    Logs,
}

impl Default for ContextPage {
    fn default() -> (r: Self)
        ensures
            r == ContextPage::About,
    {
        ContextPage::About
    }
}

/// An entry of the menu.
#[derive(Clone, Copy, Debug, PartialEq, Eq, Structural)]
pub enum MenuAction {
    About,
    Summoners,
    Logs,
}

/// The page that an entry of the menu opens.
pub open spec fn page_of(entry: MenuAction) -> ContextPage {
    match entry {
        MenuAction::About => ContextPage::About,
        MenuAction::Summoners => ContextPage::Summoners,
        MenuAction::Logs => ContextPage::Logs,
    }
}

impl MenuAction {
    /// The event of choosing this entry.
    pub fn message(&self) -> (r: Message)
        ensures
            r@ == MessageModel::ToggleContextPage(page_of(*self)),
    {
        match self {
            MenuAction::About => Message::ToggleContextPage(ContextPage::About),
            MenuAction::Summoners => Message::ToggleContextPage(ContextPage::Summoners),
            MenuAction::Logs => Message::ToggleContextPage(ContextPage::Logs),
        }
    }
}

/// An event.
#[derive(Debug)]
pub enum Message {
    LaunchUrl(String),
    ToggleContextPage(ContextPage),
    DetectComplete(Vec<(ManagerId, bool)>),
    CheckComplete(ManagerId, CheckOutcome),
    CheckUpdates,
    RunManager(ManagerId),
    RunAll,
    UpdateComplete(ManagerId, UpdateOutcome),
    /// A moment has passed; with what runs have reported, where that can be read.
    ProgressTick(Option<ProgressTracker>),
    SelectManager(ManagerId),
    ToggleUpdate(UpdateKey, bool),
    SelectUpdate(UpdateKey),
    SelectDetailsTab(DetailsTab),
    ShowUpdatesList,
    SelectAllUpdates,
    SelectNoUpdates,
    RebootNow,
    RebootDismiss,
    RebootFinished(Result<(), String>),
}

/// An event, as characters.
pub enum MessageModel {
    LaunchUrl(Seq<char>),
    ToggleContextPage(ContextPage),
    DetectComplete(Seq<(ManagerId, bool)>),
    CheckComplete(ManagerId, CheckModel),
    CheckUpdates,
    RunManager(ManagerId),
    RunAll,
    UpdateComplete(ManagerId, OutcomeModel),
    ProgressTick(Option<Seq<Option<u32>>>),
    SelectManager(ManagerId),
    ToggleUpdate(KeyModel, bool),
    SelectUpdate(KeyModel),
    SelectDetailsTab(DetailsTab),
    ShowUpdatesList,
    SelectAllUpdates,
    SelectNoUpdates,
    RebootNow,
    RebootDismiss,
    /// With what went wrong, if something did.
    RebootFinished(Option<Seq<char>>),
}

impl View for Message {
    type V = MessageModel;

    open spec fn view(&self) -> MessageModel {
        match self {
            Message::LaunchUrl(url) => MessageModel::LaunchUrl(url@),
            Message::ToggleContextPage(page) => MessageModel::ToggleContextPage(*page),
            Message::DetectComplete(results) => MessageModel::DetectComplete(results@),
            Message::CheckComplete(id, outcome) => MessageModel::CheckComplete(*id, outcome@),
            Message::CheckUpdates => MessageModel::CheckUpdates,
            Message::RunManager(id) => MessageModel::RunManager(*id),
            Message::RunAll => MessageModel::RunAll,
            Message::UpdateComplete(id, outcome) => MessageModel::UpdateComplete(*id, outcome@),
            Message::ProgressTick(tracker) => MessageModel::ProgressTick(
                match tracker {
                    Some(t) => Some(t.values@),
                    None => None,
                },
            ),
            Message::SelectManager(id) => MessageModel::SelectManager(*id),
            Message::ToggleUpdate(key, checked) => MessageModel::ToggleUpdate(key@, *checked),
            Message::SelectUpdate(key) => MessageModel::SelectUpdate(key@),
            Message::SelectDetailsTab(tab) => MessageModel::SelectDetailsTab(*tab),
            Message::ShowUpdatesList => MessageModel::ShowUpdatesList,
            Message::SelectAllUpdates => MessageModel::SelectAllUpdates,
            Message::SelectNoUpdates => MessageModel::SelectNoUpdates,
            Message::RebootNow => MessageModel::RebootNow,
            Message::RebootDismiss => MessageModel::RebootDismiss,
            Message::RebootFinished(result) => MessageModel::RebootFinished(
                match result {
                    Ok(_) => None,
                    Err(error) => Some(error@),
                },
            ),
        }
    }
}

/// A copy of what was found of the managers.
fn clone_found(v: &Vec<(ManagerId, bool)>) -> (r: Vec<(ManagerId, bool)>)
    ensures
        r@ == v@,
{
    let mut out: Vec<(ManagerId, bool)> = Vec::new();
    let mut i: usize = 0;
    while i < v.len()
        invariant
            i <= v@.len(),
            out@ == v@.take(i as int),
        decreases v@.len() - i,
    {
        out.push((v[i].0, v[i].1));
        assert(out@ =~= v@.take(i + 1));
        i += 1;
    }
    assert(out@ =~= v@);
    out
}

impl Clone for Message {
    fn clone(&self) -> (r: Self)
        ensures
            r@ == self@,
    {
        match self {
            Message::LaunchUrl(url) => Message::LaunchUrl(url.clone()),
            Message::ToggleContextPage(page) => Message::ToggleContextPage(*page),
            Message::DetectComplete(results) => Message::DetectComplete(clone_found(results)),
            Message::CheckComplete(id, outcome) => Message::CheckComplete(*id, outcome.clone()),
            Message::CheckUpdates => Message::CheckUpdates,
            Message::RunManager(id) => Message::RunManager(*id),
            Message::RunAll => Message::RunAll,
            Message::UpdateComplete(id, outcome) => Message::UpdateComplete(*id, outcome.clone()),
            Message::ProgressTick(tracker) => Message::ProgressTick(
                match tracker {
                    Some(t) => Some(t.clone()),
                    None => None,
                },
            ),
            Message::SelectManager(id) => Message::SelectManager(*id),
            Message::ToggleUpdate(key, checked) => Message::ToggleUpdate(key.clone(), *checked),
            Message::SelectUpdate(key) => Message::SelectUpdate(key.clone()),
            Message::SelectDetailsTab(tab) => Message::SelectDetailsTab(*tab),
            Message::ShowUpdatesList => Message::ShowUpdatesList,
            Message::SelectAllUpdates => Message::SelectAllUpdates,
            Message::SelectNoUpdates => Message::SelectNoUpdates,
            Message::RebootNow => Message::RebootNow,
            Message::RebootDismiss => Message::RebootDismiss,
            Message::RebootFinished(result) => Message::RebootFinished(
                match result {
                    Ok(_) => Ok(()),
                    Err(error) => Err(error.clone()),
                },
            ),
        }
    }
}

impl Message {
    /// Whether what runs have reported has a place for every manager.
    pub open spec fn wf(&self) -> bool {
        self matches Message::ProgressTick(Some(tracker)) ==> tracker.wf()
    }
}

/// What an event asks for.
#[derive(Debug)]
pub enum Action {
    Nothing,
    /// Find out which managers there are; `DetectComplete` is the answer.
    Detect,
    /// Check these managers for updates; `CheckComplete` is the answer of each.
    Check { managers: Vec<ManagerId>, force_privileged: bool },
    /// Run the updates of a manager: the chosen ones, or all; `UpdateComplete` is the answer.
    Run { manager: ManagerId, selected: Option<Vec<UpdateEntry>> },
    /// Reboot; `RebootFinished` is the answer.
    Reboot,
    OpenUrl(String),
}

/// What an event asks for, as characters.
pub enum ActionModel {
    Nothing,
    Detect,
    Check { managers: Seq<ManagerId>, force_privileged: bool },
    Run { manager: ManagerId, selected: Option<Seq<EntryModel>> },
    Reboot,
    OpenUrl(Seq<char>),
}

impl View for Action {
    type V = ActionModel;

    open spec fn view(&self) -> ActionModel {
        match self {
            Action::Nothing => ActionModel::Nothing,
            Action::Detect => ActionModel::Detect,
            Action::Check { managers, force_privileged } => ActionModel::Check {
                managers: managers@,
                force_privileged: *force_privileged,
            },
            Action::Run { manager, selected } => ActionModel::Run {
                manager: *manager,
                selected: selection_of(*selected),
            },
            Action::Reboot => ActionModel::Reboot,
            Action::OpenUrl(url) => ActionModel::OpenUrl(url@),
        }
    }
}

/// What was chosen when a manager's run began.
#[derive(Debug)]
pub enum RunSelection {
    /// Nothing is known of a run.
    Absent,
    /// Everything.
    Everything,
    /// These updates.
    Chosen(Vec<UpdateKey>),
}

/// What was chosen when a manager's run began, as characters.
pub enum SelectionModel {
    Absent,
    Everything,
    Chosen(Seq<KeyModel>),
}

impl View for RunSelection {
    type V = SelectionModel;

    open spec fn view(&self) -> SelectionModel {
        match self {
            RunSelection::Absent => SelectionModel::Absent,
            RunSelection::Everything => SelectionModel::Everything,
            RunSelection::Chosen(chosen) => SelectionModel::Chosen(keys(chosen@)),
        }
    }
}

/// What was chosen when each manager's run began.
pub open spec fn selections(v: Seq<RunSelection>) -> Seq<SelectionModel> {
    Seq::new(v.len(), |i: int| v[i]@)
}

/// What the updater knows and shows.
#[derive(Debug)]
pub struct AppModel {
    /// The page of the drawer.
    pub context_page: ContextPage,
    /// Whether the drawer is open.
    pub show_context: bool,
    /// Where each manager stands.
    pub managers: Managers,
    /// The manager whose log is shown.
    pub selected_manager: Option<ManagerId>,
    /// The log that is shown.
    pub log_text: String,
    /// The managers that are still to run, one after another.
    pub run_all_queue: VecDeque<ManagerId>,
    /// Whether the managers are run one after another.
    pub run_all_active: bool,
    /// What those runs have printed.
    pub run_all_output: String,
    /// Whether the user is asked to reboot.
    pub reboot_prompt: bool,
    /// Whether a reboot has been asked for.
    pub reboot_in_progress: bool,
    /// The updates that are shown.
    pub update_items: Vec<UpdateItem>,
    /// The update whose details are shown.
    pub selected_update: Option<UpdateKey>,
    /// The tab of the details.
    pub details_tab: DetailsTab,
    /// Whether details are shown in place of the list.
    pub show_update_details: bool,
    /// What was chosen when each manager's run began.
    pub manager_run_selection: Vec<RunSelection>,
    /// The phase of the bars of runs that report nothing.
    pub progress_phase: u32,
    /// What the updater was built with.
    pub features: Features,
}

/// What the updater knows and shows, as characters.
#[verifier::ext_equal]
pub struct AppState {
    pub context_page: ContextPage,
    pub show_context: bool,
    pub managers: Seq<StateModel>,
    pub selected_manager: Option<ManagerId>,
    pub log_text: Seq<char>,
    pub run_all_queue: Seq<ManagerId>,
    pub run_all_active: bool,
    pub run_all_output: Seq<char>,
    pub reboot_prompt: bool,
    pub reboot_in_progress: bool,
    pub items: Seq<ItemModel>,
    pub selected_update: Option<KeyModel>,
    pub details_tab: DetailsTab,
    pub show_update_details: bool,
    pub run_selection: Seq<SelectionModel>,
    pub progress_phase: u32,
    pub features: Features,
}

/// The key, if there is one.
pub open spec fn opt_key(key: Option<UpdateKey>) -> Option<KeyModel> {
    match key {
        Some(k) => Some(k@),
        None => None,
    }
}

impl View for AppModel {
    type V = AppState;

    open spec fn view(&self) -> AppState {
        AppState {
            context_page: self.context_page,
            show_context: self.show_context,
            managers: self.managers@,
            selected_manager: self.selected_manager,
            log_text: self.log_text@,
            run_all_queue: self.run_all_queue@,
            run_all_active: self.run_all_active,
            run_all_output: self.run_all_output@,
            reboot_prompt: self.reboot_prompt,
            reboot_in_progress: self.reboot_in_progress,
            items: items(self.update_items@),
            selected_update: opt_key(self.selected_update),
            details_tab: self.details_tab,
            show_update_details: self.show_update_details,
            run_selection: selections(self.manager_run_selection@),
            progress_phase: self.progress_phase,
            features: self.features,
        }
    }
}

/// What the updater knows and shows at the beginning.
pub open spec fn initial_of(features: Features, phrases: Phrases) -> AppState {
    AppState {
        context_page: ContextPage::About,
        show_context: false,
        managers: initial_states(),
        selected_manager: None,
        log_text: phrases.select_manager@,
        run_all_queue: Seq::empty(),
        run_all_active: false,
        run_all_output: Seq::empty(),
        reboot_prompt: false,
        reboot_in_progress: false,
        items: Seq::empty(),
        selected_update: None,
        details_tab: DetailsTab::Information,
        show_update_details: false,
        run_selection: no_selections(),
        progress_phase: 0,
        features,
    }
}

/// No manager's run is known.
pub open spec fn no_selections() -> Seq<SelectionModel> {
    Seq::new(MANAGER_COUNT as nat, |i: int| SelectionModel::Absent)
}

/// No manager's run is known.
pub fn forget_selections() -> (r: Vec<RunSelection>)
    ensures
        r@.len() == MANAGER_COUNT,
        selections(r@) == no_selections(),
{
    let mut r: Vec<RunSelection> = Vec::new();
    let mut i: usize = 0;
    while i < MANAGER_COUNT
        invariant
            i <= MANAGER_COUNT,
            r@.len() == i,
            forall|j: int| 0 <= j < i ==> (#[trigger] r@[j])@ == SelectionModel::Absent,
        decreases MANAGER_COUNT - i,
    {
        r.push(RunSelection::Absent);
        i += 1;
    }
    assert(selections(r@) =~= no_selections());
    r
}

impl AppModel {
    /// Whether there is a place for every manager, and the phase is one of the cycle.
    pub open spec fn wf(&self) -> bool {
        &&& self.managers.wf()
        &&& self.manager_run_selection@.len() == MANAGER_COUNT
        &&& self.progress_phase < RUNNING_PROGRESS_CYCLE
    }

    /// What the updater knows and shows at the beginning, and what it asks for first: to find out
    /// which managers there are.
    pub fn init(features: Features, phrases: &Phrases) -> (r: (Self, Action))
        ensures
            r.0.wf(),
            r.0@ == initial_of(features, *phrases),
            r.1@ == ActionModel::Detect,
    {
        let app = AppModel {
            context_page: ContextPage::default(),
            show_context: false,
            managers: Managers::new(),
            selected_manager: None,
            log_text: phrases.select_manager.clone(),
            run_all_queue: VecDeque::new(),
            run_all_active: false,
            run_all_output: String::new(),
            reboot_prompt: false,
            reboot_in_progress: false,
            update_items: Vec::new(),
            selected_update: None,
            details_tab: DetailsTab::Information,
            show_update_details: false,
            manager_run_selection: forget_selections(),
            progress_phase: 0,
            features,
        };
        assert(app@ =~= initial_of(features, *phrases));
        (app, Action::Detect)
    }
}

/// Whether the runs of a manager report how far they have come.
pub open spec fn live_progress(id: ManagerId, features: Features) -> bool {
    match id {
        ManagerId::Apt => features.packagekit,
        ManagerId::Flatpak => features.flatpak,
        _ => false,
    }
}

/// Whether updates of a manager can be chosen one by one: those of the managers whose checks tell
/// them apart.
pub open spec fn can_choose(id: ManagerId) -> bool {
    ||| id == ManagerId::Apt
    ||| id == ManagerId::Flatpak
    ||| id == ManagerId::Dnf
    ||| id == ManagerId::Yum
}

/// The managers once the run of `id` has begun.
pub open spec fn running_from(a: AppState, id: ManagerId, phrases: Phrases) -> Seq<StateModel> {
    let p = place_of(id);
    a.managers.update(
        p,
        StateModel {
            status: StatusModel::Running,
            last_output: phrases.status_running@,
            progress: if live_progress(id, a.features) {
                Some(0)
            } else {
                None
            },
            ..a.managers[p]
        },
    )
}

/// The beginning of a manager's run: of the ticked updates, where they can be chosen and some
/// are, else of everything.
pub open spec fn run_started(a: AppState, id: ManagerId, phrases: Phrases) -> (
    AppState,
    ActionModel,
) {
    let p = place_of(id);
    let managers = running_from(a, id, phrases);
    let selected = selected_of(a.items, id);
    if can_choose(id) && selected.len() > 0 {
        (
            AppState {
                managers,
                run_selection: a.run_selection.update(
                    p,
                    SelectionModel::Chosen(keys_for(id, selected)),
                ),
                ..a
            },
            ActionModel::Run { manager: id, selected: Some(selected) },
        )
    } else {
        (
            AppState {
                managers,
                run_selection: a.run_selection.update(
                    p,
                    if can_choose(id) {
                        SelectionModel::Everything
                    } else {
                        SelectionModel::Absent
                    },
                ),
                ..a
            },
            ActionModel::Run { manager: id, selected: None },
        )
    }
}

/// The beginning of checks of every manager that is there.
pub open spec fn checking_from(a: AppState, force_privileged: bool) -> (AppState, ActionModel) {
    let managers = available_ids(a.managers);
    (
        AppState { managers: checks_started(a.managers), ..a },
        if managers.len() == 0 {
            ActionModel::Nothing
        } else {
            ActionModel::Check { managers, force_privileged }
        },
    )
}

/// Whether a manager is run with all only where one of its updates is ticked. With APT and Flatpak
/// it always is; with DNF and YUM where updates of theirs are listed, as their checks can tell of
/// updates without naming one.
pub open spec fn needs_tick(s: Seq<ItemModel>, id: ManagerId) -> bool {
    match id {
        ManagerId::Apt | ManagerId::Flatpak => true,
        ManagerId::Dnf | ManagerId::Yum => any_of_manager(s, id),
        _ => false,
    }
}

/// Whether a manager is run when all are: it is there, not running, and has a ticked update; where
/// it needs no tick, it is enough that all are forced or that it has updates.
pub open spec fn wants_run(a: AppState, force_all: bool) -> spec_fn(ManagerId) -> bool {
    |id: ManagerId|
        {
            let s = a.managers[place_of(id)];
            s.available && !(s.status is Running) && if needs_tick(a.items, id) {
                any_selected(a.items, id)
            } else {
                force_all || s.update_available
            }
        }
}

/// The managers that are run when all are.
pub open spec fn queue_of(a: AppState, force_all: bool) -> Seq<ManagerId> {
    all_managers().filter(wants_run(a, force_all))
}

/// Without the details of an update that is not there any more.
pub open spec fn pruned(a: AppState) -> AppState {
    match a.selected_update {
        Some(key) => if find_item_of(a.items, key) is None {
            AppState { selected_update: None, show_update_details: false, ..a }
        } else {
            a
        },
        None => a,
    }
}

/// With `list` as the updates of a manager, all ticked.
pub open spec fn with_entries(a: AppState, id: ManagerId, list: Seq<EntryModel>) -> AppState {
    pruned(
        AppState { items: a.items.filter(not_of_manager(id)) + ticked_items(list), ..a },
    )
}

/// The updates that are left once the run of a manager has ended well.
pub open spec fn items_left(a: AppState, id: ManagerId) -> Seq<ItemModel> {
    match a.run_selection[place_of(id)] {
        SelectionModel::Chosen(chosen) if can_choose(id) => a.items.filter(left_over(id, chosen)),
        _ => a.items.filter(not_of_manager(id)),
    }
}

/// Without the updates that the run of a manager has installed.
pub open spec fn completed_removed(a: AppState, id: ManagerId) -> AppState {
    let p = place_of(id);
    let left = items_left(a, id);
    let b = pruned(
        AppState {
            items: left,
            run_selection: if can_choose(id) {
                a.run_selection.update(p, SelectionModel::Absent)
            } else {
                a.run_selection
            },
            ..a
        },
    );
    AppState {
        managers: a.managers.update(
            p,
            StateModel { update_available: any_of_manager(left, id), ..a.managers[p] },
        ),
        ..b
    }
}

impl AppModel {
    /// Whether the runs of a manager report how far they have come.
    pub fn supports_live_progress(&self, id: ManagerId) -> (r: bool)
        ensures
            r == live_progress(id, self.features),
    {
        match id {
            ManagerId::Apt => self.features.packagekit,
            ManagerId::Flatpak => self.features.flatpak,
            _ => false,
        }
    }

    /// Whether updates of a manager can be chosen one by one.
    pub fn supports_update_selection(&self, id: ManagerId) -> (r: bool)
        ensures
            r == can_choose(id),
    {
        id == ManagerId::Apt || id == ManagerId::Flatpak || id == ManagerId::Dnf || id
            == ManagerId::Yum
    }

    /// Whether some update is ticked of those of a manager.
    pub fn has_selected_updates(&self, id: ManagerId) -> (r: bool)
        ensures
            r == any_selected(self@.items, id),
    {
        has_selected(&self.update_items, id)
    }

    /// The ticked updates of a manager.
    pub fn selected_updates_for_manager(&self, id: ManagerId) -> (r: Vec<UpdateEntry>)
        ensures
            entries(r@) == selected_of(self@.items, id),
    {
        selected_updates(&self.update_items, id)
    }

    /// Marks the run of a manager as begun.
    pub fn set_running(&mut self, id: ManagerId, phrases: &Phrases)
        requires
            old(self).wf(),
        ensures
            final(self).wf(),
            final(self)@ == (AppState {
                managers: running_from(old(self)@, id, *phrases),
                ..old(self)@
            }),
    {
        let live = self.supports_live_progress(id);
        let ghost before = self.managers;
        let state = self.managers.state_mut(id);
        state.status = TaskStatus::Running;
        state.last_output = phrases.status_running.clone();
        state.progress = if live {
            Some(0)
        } else {
            None
        };
        proof {
            lemma_state_changed(before, self.managers, id, self.managers.states@[place_of(id)]);
        }
    }

    /// Notes what was chosen when the run of a manager began.
    fn note_selection(&mut self, id: ManagerId, selection: RunSelection)
        requires
            old(self).wf(),
        ensures
            final(self).wf(),
            final(self)@ == (AppState {
                run_selection: old(self)@.run_selection.update(place_of(id), selection@),
                ..old(self)@
            }),
    {
        let i: usize = id.place();
        self.manager_run_selection.set(i, selection);
        assert(self@.run_selection =~= old(self)@.run_selection.update(
            place_of(id),
            selection@,
        ));
    }

    /// Begins the run of a manager.
    pub fn start_manager_update(&mut self, id: ManagerId, phrases: &Phrases) -> (r: Action)
        requires
            old(self).wf(),
        ensures
            final(self).wf(),
            (final(self)@, r@) == run_started(old(self)@, id, *phrases),
    {
        self.set_running(id, phrases);
        let selected = self.selected_updates_for_manager(id);
        assert(entries(selected@).len() == selected@.len());
        if self.supports_update_selection(id) && selected.len() > 0 {
            let chosen = entry_keys(id, &selected);
            self.note_selection(id, RunSelection::Chosen(chosen));
            Action::Run { manager: id, selected: Some(selected) }
        } else {
            if self.supports_update_selection(id) {
                self.note_selection(id, RunSelection::Everything);
            } else {
                self.note_selection(id, RunSelection::Absent);
            }
            Action::Run { manager: id, selected: None }
        }
    }

    /// Begins checks of every manager that is there.
    pub fn start_checks(&mut self, force_privileged: bool) -> (r: Action)
        requires
            old(self).wf(),
        ensures
            final(self).wf(),
            (final(self)@, r@) == checking_from(old(self)@, force_privileged),
    {
        let managers = self.managers.start_checks();
        if managers.len() == 0 {
            Action::Nothing
        } else {
            Action::Check { managers, force_privileged }
        }
    }

    /// Whether a manager is run with all only where one of its updates is ticked.
    fn runs_by_tick(&self, id: ManagerId) -> (r: bool)
        ensures
            r == needs_tick(self@.items, id),
    {
        match id {
            ManagerId::Apt | ManagerId::Flatpak => true,
            ManagerId::Dnf | ManagerId::Yum => has_manager(&self.update_items, id),
            _ => false,
        }
    }

    /// Puts the managers that are run when all are behind the queue.
    pub fn enqueue_updates(&mut self, force_all: bool)
        requires
            old(self).wf(),
        ensures
            final(self).wf(),
            final(self)@ == (AppState {
                run_all_queue: old(self)@.run_all_queue + queue_of(old(self)@, force_all),
                ..old(self)@
            }),
    {
        let ghost start = self@;
        let ghost wanted = wants_run(start, force_all);
        let all = ManagerId::all();
        let mut i: usize = 0;
        proof {
            reveal(Seq::filter);
            assert(self@.run_all_queue =~= start.run_all_queue + all@.take(0).filter(wanted));
        }
        while i < all.len()
            invariant
                self.wf(),
                i <= all@.len(),
                all@ == all_managers(),
                wanted == wants_run(start, force_all),
                self@ == (AppState {
                    run_all_queue: start.run_all_queue + all@.take(i as int).filter(wanted),
                    ..start
                }),
            decreases all@.len() - i,
        {
            let id = all[i];
            let state = self.managers.get(id);
            let by_tick = self.runs_by_tick(id);
            let wants = state.available && !state.status.is_running() && if by_tick {
                self.has_selected_updates(id)
            } else {
                force_all || state.update_available
            };
            assert(wants == wanted(id));
            let ghost before = self@.run_all_queue;
            if wants {
                self.run_all_queue.push_back(id);
            }
            proof {
                reveal(Seq::filter);
                let kept = all@.take(i as int).filter(wanted);
                let next = all@.take(i + 1);
                assert(next.drop_last() =~= all@.take(i as int));
                assert(next.last() == id);
                if wants {
                    assert(before.push(id) =~= start.run_all_queue + kept.push(id));
                }
                assert(self@.run_all_queue =~= start.run_all_queue + next.filter(wanted));
            }
            i += 1;
        }
        assert(all@.take(all@.len() as int) =~= all@);
    }

    /// Leaves the details of an update that is not there any more.
    pub fn prune_selected_update(&mut self)
        requires
            old(self).wf(),
        ensures
            final(self).wf(),
            final(self)@ == pruned(old(self)@),
    {
        let gone = match &self.selected_update {
            Some(key) => find_item(&self.update_items, key).is_none(),
            None => false,
        };
        if gone {
            self.selected_update = None;
            self.show_update_details = false;
        }
    }

    /// Shows `list` as the updates of a manager, all ticked.
    pub fn set_update_entries(&mut self, id: ManagerId, list: Vec<UpdateEntry>)
        requires
            old(self).wf(),
        ensures
            final(self).wf(),
            final(self)@ == with_entries(old(self)@, id, entries(list@)),
    {
        let mut taken: Vec<UpdateItem> = Vec::new();
        std::mem::swap(&mut taken, &mut self.update_items);
        self.update_items = without_manager(taken, id);
        add_entries(&mut self.update_items, list);
        self.prune_selected_update();
    }

    /// Takes out what was chosen when the run of a manager began.
    fn take_selection(&mut self, id: ManagerId) -> (r: RunSelection)
        requires
            old(self).wf(),
        ensures
            final(self).wf(),
            final(self)@ == (AppState {
                run_selection: if can_choose(id) {
                    old(self)@.run_selection.update(place_of(id), SelectionModel::Absent)
                } else {
                    old(self)@.run_selection
                },
                ..old(self)@
            }),
            r@ == if can_choose(id) {
                old(self)@.run_selection[place_of(id)]
            } else {
                SelectionModel::Absent
            },
    {
        let i: usize = id.place();
        let mut selection = RunSelection::Absent;
        if self.supports_update_selection(id) {
            std::mem::swap(&mut selection, &mut self.manager_run_selection[i]);
            assert(selections(self.manager_run_selection@) =~= old(self)@.run_selection.update(
                place_of(id),
                SelectionModel::Absent,
            ));
        }
        selection
    }

    /// Sets whether a manager has updates.
    fn set_update_available(&mut self, id: ManagerId, update_available: bool)
        requires
            old(self).wf(),
        ensures
            final(self).wf(),
            final(self)@ == (AppState {
                managers: old(self)@.managers.update(
                    place_of(id),
                    StateModel { update_available, ..old(self)@.managers[place_of(id)] },
                ),
                ..old(self)@
            }),
    {
        let ghost before = self.managers;
        let state = self.managers.state_mut(id);
        state.update_available = update_available;
        proof {
            lemma_state_changed(before, self.managers, id, self.managers.states@[place_of(id)]);
        }
    }

    /// Takes away the updates of a manager that `selection` holds.
    fn drop_installed(&mut self, id: ManagerId, selection: RunSelection)
        requires
            old(self).wf(),
        ensures
            final(self).wf(),
            final(self)@ == (AppState {
                items: match selection@ {
                    SelectionModel::Chosen(chosen) => old(self)@.items.filter(
                        left_over(id, chosen),
                    ),
                    _ => old(self)@.items.filter(not_of_manager(id)),
                },
                ..old(self)@
            }),
    {
        let mut taken: Vec<UpdateItem> = Vec::new();
        std::mem::swap(&mut taken, &mut self.update_items);
        self.update_items = match selection {
            RunSelection::Chosen(chosen) => without_keys(taken, id, &chosen),
            _ => without_manager(taken, id),
        };
    }

    /// Takes away the updates that the run of a manager has installed.
    pub fn remove_completed_updates(&mut self, id: ManagerId)
        requires
            old(self).wf(),
        ensures
            final(self).wf(),
            final(self)@ == completed_removed(old(self)@, id),
    {
        let selection = self.take_selection(id);
        self.drop_installed(id, selection);
        assert(self@.items == items_left(old(self)@, id));
        self.prune_selected_update();
        let left = has_manager(&self.update_items, id);
        self.set_update_available(id, left);
    }
}

} // verus!
