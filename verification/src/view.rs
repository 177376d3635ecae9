//! What the window shows.

use crate::items::{contains_key, find_item, find_item_of, items, key_of, ItemModel, UpdateItem};
use crate::managers::{all_managers, label_of, place_of, ManagerId, MANAGER_COUNT};
use crate::model::{AppModel, AppState, ContextPage, DetailsTab, RunSelection, SelectionModel};
use crate::phrases::Phrases;
use crate::progress::{phase_value_of, running_progress_value};
use crate::states::{available_ids, some_checking, some_running, some_updates, StateModel};
use crate::text::{chars_of, join, join_of, string_of, strings, trim, trim_of};
use crate::updates::{opt_text, EntryModel, InstallScope, StatusModel, TaskStatus, UpdateEntry};
use vstd::prelude::*;

verus! {

/// Whether all managers can be run.
pub open spec fn runnable(ms: Seq<StateModel>) -> bool {
    available_ids(ms).len() > 0 && some_updates(ms) && !some_running(ms) && !some_checking(ms)
}

/// Whether updates can be checked for.
pub open spec fn checkable(ms: Seq<StateModel>) -> bool {
    available_ids(ms).len() > 0 && !some_running(ms) && !some_checking(ms)
}

/// What the middle of the window shows.
#[derive(Clone, Copy, Debug, PartialEq, Eq, Structural)]
pub enum Content {
    /// That updates are being checked for.
    Checking,
    /// What the checks have printed.
    Text,
    /// The details of an update.
    Details,
    /// The list of updates.
    List,
}

/// What the middle of the window shows.
pub open spec fn content_of(a: AppState) -> Content {
    if a.items.len() == 0 {
        if some_checking(a.managers) {
            Content::Checking
        } else {
            Content::Text
        }
    } else if a.show_update_details {
        Content::Details
    } else {
        Content::List
    }
}

/// What is shown of a manager's check.
pub open spec fn section_of(id: ManagerId, s: StateModel, phrases: Phrases) -> Seq<char> {
    if !s.available || !s.update_available {
        Seq::empty()
    } else {
        "== "@ + label_of(id) + " ==\n"@ + (if trim_of(s.check_output).len() == 0 {
            phrases.updates_available@.push('\n')
        } else if s.check_output.last() == '\n' {
            s.check_output
        } else {
            s.check_output.push('\n')
        }) + seq!['\n']
    }
}

/// What is shown of the checks of the first `n` managers.
pub open spec fn sections_of(ms: Seq<StateModel>, phrases: Phrases, n: nat) -> Seq<char>
    decreases n,
{
    if n == 0 {
        Seq::empty()
    } else {
        let id = all_managers()[n - 1];
        sections_of(ms, phrases, (n - 1) as nat) + section_of(id, ms[place_of(id)], phrases)
    }
}

/// What the checks have printed, or that there is no update.
pub open spec fn updates_output_of(ms: Seq<StateModel>, phrases: Phrases) -> Seq<char> {
    let all = sections_of(ms, phrases, MANAGER_COUNT as nat);
    if trim_of(all).len() == 0 {
        phrases.system_up_to_date@
    } else {
        all
    }
}

/// Whether the run that installs an update is under way.
pub open spec fn being_run(ms: Seq<StateModel>) -> spec_fn(ItemModel) -> bool {
    |item: ItemModel| ms[place_of(item.entry.manager)].status is Running
}

/// Whether no run that installs an update is under way.
pub open spec fn not_being_run(ms: Seq<StateModel>) -> spec_fn(ItemModel) -> bool {
    |item: ItemModel| !(ms[place_of(item.entry.manager)].status is Running)
}

/// The updates, those whose run is under way first, else in their order.
pub open spec fn ordered_of(a: AppState) -> Seq<ItemModel> {
    a.items.filter(being_run(a.managers)) + a.items.filter(not_being_run(a.managers))
}

/// The updates that are referred to, as characters.
pub open spec fn item_refs(v: Seq<&UpdateItem>) -> Seq<ItemModel> {
    Seq::new(v.len(), |i: int| v[i]@)
}

/// How many updates are ticked.
pub open spec fn ticked_count(s: Seq<ItemModel>) -> nat
    decreases s.len(),
{
    if s.len() == 0 {
        0
    } else {
        ticked_count(s.drop_last()) + if s.last().checked {
            1nat
        } else {
            0nat
        }
    }
}

impl AppModel {
    /// Whether all managers can be run.
    pub fn can_run_all(&self) -> (r: bool)
        requires
            self.wf(),
        ensures
            r == runnable(self@.managers),
    {
        self.managers.manager_counts().0 > 0 && self.managers.any_updates_available()
            && !self.managers.any_running() && !self.managers.any_checking()
    }

    /// Whether updates can be checked for.
    pub fn can_check_updates(&self) -> (r: bool)
        requires
            self.wf(),
        ensures
            r == checkable(self@.managers),
    {
        self.managers.manager_counts().0 > 0 && !self.managers.any_running()
            && !self.managers.any_checking()
    }

    /// The page of the drawer that is shown, where the drawer is open.
    pub fn shown_page(&self) -> (r: Option<ContextPage>)
        ensures
            r == (if self@.show_context {
                Some(self@.context_page)
            } else {
                None
            }),
    {
        if self.show_context {
            Some(self.context_page)
        } else {
            None
        }
    }

    /// Whether the user can have the system reboot: it is asked for, and not yet under way.
    pub fn can_reboot(&self) -> (r: bool)
        ensures
            r == (self@.reboot_prompt && !self@.reboot_in_progress),
    {
        self.reboot_prompt && !self.reboot_in_progress
    }

    /// Whether the user can put off a reboot: it is asked for.
    pub fn can_dismiss_reboot(&self) -> (r: bool)
        ensures
            r == self@.reboot_prompt,
    {
        self.reboot_prompt
    }

    /// What the middle of the window shows.
    pub fn content(&self) -> (r: Content)
        requires
            self.wf(),
        ensures
            r == content_of(self@),
    {
        if self.update_items.len() == 0 {
            if self.managers.any_checking() {
                Content::Checking
            } else {
                Content::Text
            }
        } else if self.show_update_details {
            Content::Details
        } else {
            Content::List
        }
    }

    /// What the checks have printed, or that there is no update.
    pub fn updates_output(&self, phrases: &Phrases) -> (r: String)
        requires
            self.wf(),
        ensures
            r@ == updates_output_of(self@.managers, *phrases),
    {
        let ids = ManagerId::all();
        let ghost ms = self@.managers;
        let mut output = String::new();
        let mut i: usize = 0;
        while i < ids.len()
            invariant
                self.wf(),
                i <= ids@.len(),
                ids@ == all_managers(),
                ms == self@.managers,
                output@ == sections_of(ms, *phrases, i as nat),
            decreases ids@.len() - i,
        {
            let ghost start = output@;
            let state = self.managers.get(ids[i]);
            if state.available && state.update_available {
                output.append("== ");
                output.append(ids[i].spec().label);
                output.append(" ==\n");
                let printed = chars_of(state.check_output.as_str());
                if trim(&printed).len() == 0 {
                    output.append(phrases.updates_available.as_str());
                    output.push('\n');
                } else {
                    output.append(state.check_output.as_str());
                    if printed[printed.len() - 1] != '\n' {
                        output.push('\n');
                    }
                }
                output.push('\n');
            }
            proof {
                let id = ids@[i as int];
                assert(output@ =~= start + section_of(id, ms[place_of(id)], *phrases));
            }
            i += 1;
        }
        let shown = chars_of(output.as_str());
        if trim(&shown).len() == 0 {
            phrases.system_up_to_date.clone()
        } else {
            output
        }
    }

    /// The updates, those whose run is under way first, else in their order.
    pub fn ordered_update_items(&self) -> (r: Vec<&UpdateItem>)
        requires
            self.wf(),
        ensures
            item_refs(r@) == ordered_of(self@),
    {
        let ghost s = self@.items;
        let ghost first = being_run(self@.managers);
        let ghost second = not_being_run(self@.managers);
        let mut running: Vec<&UpdateItem> = Vec::new();
        let mut others: Vec<&UpdateItem> = Vec::new();
        let mut i: usize = 0;
        proof {
            reveal(Seq::filter);
            assert(item_refs(running@) =~= s.take(0).filter(first));
            assert(item_refs(others@) =~= s.take(0).filter(second));
        }
        while i < self.update_items.len()
            invariant
                self.wf(),
                i <= self.update_items@.len(),
                s == self@.items,
                first == being_run(self@.managers),
                second == not_being_run(self@.managers),
                item_refs(running@) == s.take(i as int).filter(first),
                item_refs(others@) == s.take(i as int).filter(second),
            decreases self.update_items@.len() - i,
        {
            let item = &self.update_items[i];
            let ghost running_before = item_refs(running@);
            let ghost others_before = item_refs(others@);
            let under_way = self.managers.is_manager_running(item.entry.manager);
            if under_way {
                running.push(item);
                assert(item_refs(running@) =~= running_before.push(item@));
            } else {
                others.push(item);
                assert(item_refs(others@) =~= others_before.push(item@));
            }
            proof {
                reveal(Seq::filter);
                let next = s.take(i + 1);
                assert(next.drop_last() =~= s.take(i as int));
                assert(next.last() == item@);
            }
            i += 1;
        }
        assert(s.take(s.len() as int) =~= s);
        let ghost a = item_refs(running@);
        let ghost b = item_refs(others@);
        running.append(&mut others);
        assert(item_refs(running@) =~= a + b);
        running
    }

    /// How many updates are ticked.
    pub fn selected_count(&self) -> (r: usize)
        ensures
            r == ticked_count(self@.items),
            r <= self@.items.len(),
    {
        let ghost s = self@.items;
        let mut count: usize = 0;
        let mut i: usize = 0;
        while i < self.update_items.len()
            invariant
                i <= self.update_items@.len(),
                s == self@.items,
                count <= i,
                count == ticked_count(s.take(i as int)),
            decreases self.update_items@.len() - i,
        {
            proof {
                let next = s.take(i + 1);
                assert(next.drop_last() =~= s.take(i as int));
                assert(next.last() == self.update_items@[i as int]@);
            }
            if self.update_items[i].checked {
                count += 1;
            }
            i += 1;
        }
        assert(s.take(s.len() as int) =~= s);
        count
    }
}

/// The name under which an update is shown: its own, or its identifier where that is blank.
pub open spec fn display_name_of(e: EntryModel) -> Seq<char> {
    if trim_of(e.name).len() == 0 {
        e.id
    } else {
        trim_of(e.name)
    }
}

/// The name under which an update is shown.
pub fn update_display_name(entry: &UpdateEntry) -> (r: String)
    ensures
        r@ == display_name_of(entry@),
{
    let chars = chars_of(entry.name.as_str());
    let name = trim(&chars);
    if name.len() == 0 {
        entry.id.clone()
    } else {
        string_of(name)
    }
}

/// A version, or that it is not known.
pub open spec fn version_of(version: Option<Seq<char>>, phrases: Phrases) -> Seq<char> {
    match version {
        Some(v) => v,
        None => phrases.version_unknown@,
    }
}

/// The line below the name of an update.
pub open spec fn subtitle_of(e: EntryModel, phrases: Phrases) -> Seq<char> {
    label_of(e.manager) + " · "@ + phrases.details_current@ + " "@ + version_of(
        e.current_version,
        phrases,
    ) + " -> "@ + phrases.details_new@ + " "@ + version_of(e.new_version, phrases)
}

/// Puts a version behind `text`, or that it is not known.
fn append_version(text: &mut String, version: &Option<String>, phrases: &Phrases)
    ensures
        final(text)@ == old(text)@ + version_of(opt_text(*version), *phrases),
{
    match version {
        Some(v) => text.append(v.as_str()),
        None => text.append(phrases.version_unknown.as_str()),
    }
}

/// The line below the name of an update.
pub fn update_subtitle(entry: &UpdateEntry, phrases: &Phrases) -> (r: String)
    ensures
        r@ == subtitle_of(entry@, *phrases),
{
    let mut text = entry.manager.spec().label.to_string();
    text.append(" · ");
    text.append(phrases.details_current.as_str());
    text.append(" ");
    append_version(&mut text, &entry.current_version, phrases);
    text.append(" -> ");
    text.append(phrases.details_new.as_str());
    text.append(" ");
    append_version(&mut text, &entry.new_version, phrases);
    text
}

/// A line of the details.
pub open spec fn detail_of(name: Seq<char>, value: Seq<char>) -> Seq<char> {
    name + ": "@ + value
}

/// A line of the details.
fn detail(name: &str, value: &str) -> (r: String)
    ensures
        r@ == detail_of(name@, value@),
{
    let mut text = name.to_string();
    text.append(": ");
    text.append(value);
    text
}

/// A line of the details, where there is something to say.
pub open spec fn detail_opt(name: Seq<char>, value: Option<Seq<char>>) -> Seq<Seq<char>> {
    match value {
        Some(v) => seq![detail_of(name, v)],
        None => Seq::empty(),
    }
}

/// For whom a Flatpak is installed, in the user's language.
pub open spec fn scope_of(scope: Option<InstallScope>, phrases: Phrases) -> Option<Seq<char>> {
    match scope {
        Some(InstallScope::User) => Some(phrases.details_scope_user@),
        Some(InstallScope::System) => Some(phrases.details_scope_system@),
        None => None,
    }
}

/// The lines of what is known of an update.
pub open spec fn information_of(e: EntryModel, phrases: Phrases) -> Seq<Seq<char>> {
    seq![
        detail_of(phrases.details_manager@, label_of(e.manager)),
        detail_of(phrases.details_name@, display_name_of(e)),
    ] + detail_opt(phrases.details_current@, e.current_version) + detail_opt(
        phrases.details_new@,
        e.new_version,
    ) + detail_opt(phrases.details_scope@, scope_of(e.scope, phrases))
}

/// The lines of what is known of an update.
fn information(entry: &UpdateEntry, phrases: &Phrases) -> (r: Vec<String>)
    ensures
        strings(r@) == information_of(entry@, *phrases),
{
    let mut info: Vec<String> = Vec::new();
    info.push(detail(phrases.details_manager.as_str(), entry.manager.spec().label));
    let name = update_display_name(entry);
    info.push(detail(phrases.details_name.as_str(), name.as_str()));
    let ghost one = strings(info@);
    assert(one =~= seq![
        detail_of(phrases.details_manager@, label_of(entry@.manager)),
        detail_of(phrases.details_name@, display_name_of(entry@)),
    ]);
    if let Some(current) = &entry.current_version {
        info.push(detail(phrases.details_current.as_str(), current.as_str()));
    }
    let ghost two = strings(info@);
    assert(two =~= one + detail_opt(phrases.details_current@, entry@.current_version));
    if let Some(new) = &entry.new_version {
        info.push(detail(phrases.details_new.as_str(), new.as_str()));
    }
    let ghost three = strings(info@);
    assert(three =~= two + detail_opt(phrases.details_new@, entry@.new_version));
    if let Some(scope) = entry.scope {
        let label = match scope {
            InstallScope::User => phrases.details_scope_user.as_str(),
            InstallScope::System => phrases.details_scope_system.as_str(),
        };
        info.push(detail(phrases.details_scope.as_str(), label));
    }
    assert(strings(info@) =~= three + detail_opt(
        phrases.details_scope@,
        scope_of(entry@.scope, *phrases),
    ));
    info
}

/// The details of an update on a tab.
pub open spec fn details_of(e: EntryModel, tab: DetailsTab, phrases: Phrases) -> Seq<char> {
    match tab {
        DetailsTab::Information => join_of(information_of(e, phrases), "\n"@),
        DetailsTab::Packages => detail_of(
            if e.manager == ManagerId::Flatpak {
                phrases.details_ref@
            } else {
                phrases.details_package@
            },
            e.id,
        ),
        DetailsTab::Changelog => phrases.details_changelog_unavailable@,
    }
}

/// The update whose details are shown, where it is there.
pub open spec fn shown_entry(a: AppState) -> Option<EntryModel> {
    match a.selected_update {
        Some(key) => match find_item_of(a.items, key) {
            Some(i) => Some(a.items[i].entry),
            None => None,
        },
        None => None,
    }
}

/// How far the run that installs an update has come.
#[derive(Clone, Copy, Debug, PartialEq, Eq, Structural)]
pub enum ShownProgress {
    /// The bits of the percentage that the run has reported.
    Reported(u32),
    /// The percentage that a run of unknown length shows.
    Moving(u32),
}

/// Whether the run of its manager installs an update.
pub open spec fn installed_by_run(item: ItemModel, selection: SelectionModel) -> bool {
    match selection {
        SelectionModel::Chosen(chosen) => chosen.contains(key_of(item)),
        _ => item.checked,
    }
}

/// How far the run that installs an update has come, where one does.
pub open spec fn shown_progress_of(a: AppState, item: ItemModel) -> Option<ShownProgress> {
    let p = place_of(item.entry.manager);
    if a.managers[p].status is Running && installed_by_run(item, a.run_selection[p]) {
        Some(
            match a.managers[p].progress {
                Some(bits) => ShownProgress::Reported(bits),
                None => ShownProgress::Moving(phase_value_of(a.progress_phase) as u32),
            },
        )
    } else {
        None
    }
}

/// Where a manager stands, in the user's language.
pub open spec fn status_text_of(s: StateModel, phrases: Phrases) -> Seq<char> {
    if s.checking {
        phrases.status_checking@
    } else if s.update_available {
        phrases.status_updates_available@
    } else {
        match s.status {
            StatusModel::Idle => phrases.status_up_to_date@,
            StatusModel::Running => phrases.status_running@,
            StatusModel::Success => phrases.status_success@,
            StatusModel::Failed(reason) => if reason.len() == 0 {
                phrases.status_failed@
            } else {
                detail_of(phrases.status_failed@, reason)
            },
        }
    }
}

/// Where a manager stands, and whether it needs privilege.
pub open spec fn status_label_of(s: StateModel, phrases: Phrases) -> Seq<char> {
    if s.requires_privilege {
        status_text_of(s, phrases) + " · "@ + phrases.requires_auth@
    } else {
        status_text_of(s, phrases)
    }
}

impl AppModel {
    /// The update whose details are shown, where it is there.
    fn shown_update(&self) -> (r: Option<&UpdateEntry>)
        ensures
            match r {
                Some(entry) => shown_entry(self@) == Some(entry@),
                None => shown_entry(self@) is None,
            },
    {
        match &self.selected_update {
            Some(key) => match find_item(&self.update_items, key) {
                Some(i) => {
                    assert(self@.items[i as int] == self.update_items@[i as int]@);
                    Some(&self.update_items[i].entry)
                },
                None => None,
            },
            None => None,
        }
    }

    /// The details that are shown.
    pub fn details_text(&self, phrases: &Phrases) -> (r: String)
        ensures
            r@ == match shown_entry(self@) {
                Some(entry) => details_of(entry, self@.details_tab, *phrases),
                None => phrases.details_none@,
            },
    {
        match self.shown_update() {
            Some(entry) => match self.details_tab {
                DetailsTab::Information => {
                    let info = information(entry, phrases);
                    join(&info, "\n")
                },
                DetailsTab::Packages => if entry.manager == ManagerId::Flatpak {
                    detail(phrases.details_ref.as_str(), entry.id.as_str())
                } else {
                    detail(phrases.details_package.as_str(), entry.id.as_str())
                },
                DetailsTab::Changelog => phrases.details_changelog_unavailable.clone(),
            },
            None => phrases.details_none.clone(),
        }
    }

    /// What stands above the details: a title and a line below it.
    pub fn details_heading(&self, phrases: &Phrases) -> (r: (String, String))
        ensures
            match shown_entry(self@) {
                Some(entry) => r.0@ == display_name_of(entry) && r.1@ == subtitle_of(
                    entry,
                    *phrases,
                ),
                None => r.0@ == phrases.details_title@ && r.1@ == Seq::<char>::empty(),
            },
    {
        match self.shown_update() {
            Some(entry) => (update_display_name(entry), update_subtitle(entry, phrases)),
            None => (phrases.details_title.clone(), String::new()),
        }
    }

    /// How far the run that installs an update has come, where one does.
    pub fn update_progress_value(&self, item: &UpdateItem) -> (r: Option<ShownProgress>)
        requires
            self.wf(),
        ensures
            r == shown_progress_of(self@, item@),
    {
        let id = item.entry.manager;
        let state = self.managers.get(id);
        if !state.status.is_running() {
            return None;
        }
        let place: usize = id.place();
        assert(self@.run_selection[place_of(id)] == self.manager_run_selection@[place_of(id)]@);
        let installed = match &self.manager_run_selection[place] {
            RunSelection::Chosen(chosen) => contains_key(chosen, &item.key()),
            _ => item.checked,
        };
        if !installed {
            return None;
        }
        match state.progress {
            Some(bits) => Some(ShownProgress::Reported(bits)),
            None => Some(ShownProgress::Moving(running_progress_value(self.progress_phase))),
        }
    }

    /// Where a manager stands, and whether it needs privilege.
    pub fn status_label(&self, id: ManagerId, phrases: &Phrases) -> (r: String)
        requires
            self.wf(),
        ensures
            r@ == status_label_of(self@.managers[place_of(id)], *phrases),
    {
        let state = self.managers.get(id);
        let mut label = if state.checking {
            phrases.status_checking.clone()
        } else if state.update_available {
            phrases.status_updates_available.clone()
        } else {
            match &state.status {
                TaskStatus::Idle => phrases.status_up_to_date.clone(),
                TaskStatus::Running => phrases.status_running.clone(),
                TaskStatus::Success => phrases.status_success.clone(),
                TaskStatus::Failed(reason) => if reason.as_str().is_empty() {
                    phrases.status_failed.clone()
                } else {
                    detail(phrases.status_failed.as_str(), reason.as_str())
                },
            }
        };
        if state.requires_privilege {
            label.append(" · ");
            label.append(phrases.requires_auth.as_str());
        }
        label
    }
}

} // verus!
