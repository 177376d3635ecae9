//! What holds of what the window shows.

use crate::items::{find_item_of, key_of, lemma_find_item, ItemModel};
use crate::managers::{all_managers, label_of, place_of, ManagerId, MANAGER_COUNT};
use crate::model::{AppState, DetailsTab, SelectionModel};
use crate::phrases::Phrases;
use crate::states::{
    available_ids, is_available, is_running, labels_of, running_summary_of, some_checking,
    some_running, some_updates, StateModel,
};
use crate::text::{
    contains_text, is_blank, is_tight, is_white_space, join_of, law_contains, law_trim,
    lemma_trimmed, trim_of,
};
use crate::updates::{EntryModel, InstallScope, StatusModel};
use crate::view::{
    checkable, content_of, details_of, display_name_of, information_of, runnable, section_of,
    sections_of, shown_entry, shown_progress_of, status_label_of, subtitle_of, updates_output_of,
    Content, ShownProgress,
};
use vstd::prelude::*;

verus! {

/// Whether some manager is there.
pub open spec fn one_is_there(ms: Seq<StateModel>) -> bool {
    exists|id: ManagerId| (#[trigger] ms[place_of(id)]).available
}

/// Whether nothing is going on: no manager is being run or checked.
pub open spec fn all_is_quiet(ms: Seq<StateModel>) -> bool {
    forall|id: ManagerId|
        !((#[trigger] ms[place_of(id)]).status is Running) && !ms[place_of(id)].checking
}

/// Some manager is listed exactly where some is there.
proof fn lemma_there(ms: Seq<StateModel>)
    requires
        ms.len() == MANAGER_COUNT,
    ensures
        available_ids(ms).len() > 0 <==> one_is_there(ms),
{
    let keep = is_available(ms);
    if available_ids(ms).len() > 0 {
        all_managers().lemma_filter_pred(keep, 0);
        let id = available_ids(ms)[0];
        assert(ms[place_of(id)].available);
    }
    if one_is_there(ms) {
        let id = choose|id: ManagerId| (#[trigger] ms[place_of(id)]).available;
        assert(all_managers()[place_of(id)] == id);
        all_managers().lemma_filter_contains(keep, place_of(id));
    }
}

/// Nothing is going on exactly where no place stands for a run or a check.
proof fn lemma_quiet(ms: Seq<StateModel>)
    requires
        ms.len() == MANAGER_COUNT,
    ensures
        all_is_quiet(ms) <==> !some_running(ms) && !some_checking(ms),
{
    if all_is_quiet(ms) {
        assert forall|i: int| 0 <= i < ms.len() implies !((#[trigger] ms[i]).status is Running)
            && !ms[i].checking by {
            assert(place_of(all_managers()[i]) == i);
            assert(!(ms[place_of(all_managers()[i])].status is Running));
        }
    }
    if !some_running(ms) && !some_checking(ms) {
        assert forall|id: ManagerId|
            !((#[trigger] ms[place_of(id)]).status is Running) && !ms[place_of(id)].checking by {}
    }
}

/// Updates can be checked for if and only if a manager is there and nothing is going on; and all
/// managers can be run if moreover one of them has updates.
pub proof fn law_buttons(ms: Seq<StateModel>)
    requires
        ms.len() == MANAGER_COUNT,
    ensures
        checkable(ms) <==> one_is_there(ms) && all_is_quiet(ms),
        runnable(ms) <==> one_is_there(ms) && all_is_quiet(ms) && exists|id: ManagerId|
            (#[trigger] ms[place_of(id)]).update_available,
{
    lemma_there(ms);
    lemma_quiet(ms);
    if some_updates(ms) {
        let i = choose|i: int| 0 <= i < ms.len() && (#[trigger] ms[i]).update_available;
        assert(place_of(all_managers()[i]) == i);
        assert(ms[place_of(all_managers()[i])].update_available);
    }
    if exists|id: ManagerId| (#[trigger] ms[place_of(id)]).update_available {
        let id = choose|id: ManagerId| (#[trigger] ms[place_of(id)]).update_available;
        assert(ms[place_of(id)].update_available);
    }
}

/// Where updates are listed, the list is shown, or details where they are asked for; where none
/// are, that checks are under way, or else what they have printed.
pub proof fn law_content(a: AppState)
    ensures
        content_of(a) == Content::List <==> a.items.len() > 0 && !a.show_update_details,
        content_of(a) == Content::Details <==> a.items.len() > 0 && a.show_update_details,
        content_of(a) == Content::Checking <==> a.items.len() == 0 && exists|i: int|
            0 <= i < a.managers.len() && (#[trigger] a.managers[i]).checking,
{
}

/// An update is shown by its name, without white space round it; where the name is blank, by its
/// identifier.
pub proof fn law_display_name(e: EntryModel, before: Seq<char>, name: Seq<char>, behind: Seq<char>)
    requires
        is_blank(before),
        is_tight(name),
        is_blank(behind),
        e.name == before + name + behind,
    ensures
        display_name_of(e) == if name.len() > 0 {
            name
        } else {
            e.id
        },
{
    law_trim(before, name, behind);
}

/// How far an update has come is shown while its manager runs, and only if the run installs it:
/// where updates were chosen when the run began, if it was among them, and else if it is ticked.
/// What the run has reported is shown; where it has reported nothing, a bar that moves.
pub proof fn law_progress_shown(a: AppState, item: ItemModel)
    requires
        a.progress_phase < 140,
    ensures
        ({
            let p = place_of(item.entry.manager);
            let installs = match a.run_selection[p] {
                SelectionModel::Chosen(keys) => keys.contains(key_of(item)),
                _ => item.checked,
            };
            match shown_progress_of(a, item) {
                Some(shown) => a.managers[p].status is Running && installs && match shown {
                    ShownProgress::Reported(bits) => a.managers[p].progress == Some(bits),
                    ShownProgress::Moving(percent) => a.managers[p].progress is None && 15
                        <= percent <= 85,
                },
                None => !(a.managers[p].status is Running) || !installs,
            }
        }),
{
}

/// A manager that is being checked is shown as that, whatever else holds; else one that has updates
/// is shown as that; else it is shown how its last run stands. A failure is told with its reason,
/// where there is one. Managers that need privilege are marked.
pub proof fn law_status_shown(s: StateModel, phrases: Phrases)
    ensures
        ({
            let text = if s.checking {
                phrases.status_checking@
            } else if s.update_available {
                phrases.status_updates_available@
            } else {
                match s.status {
                    StatusModel::Idle => phrases.status_up_to_date@,
                    StatusModel::Running => phrases.status_running@,
                    StatusModel::Success => phrases.status_success@,
                    StatusModel::Failed(reason) => if reason.len() > 0 {
                        phrases.status_failed@ + ": "@ + reason
                    } else {
                        phrases.status_failed@
                    },
                }
            };
            status_label_of(s, phrases) == if s.requires_privilege {
                text + " · "@ + phrases.requires_auth@
            } else {
                text
            }
        }),
{
}

/// The labels of the managers that run are shown with commas between them, and nothing where none
/// runs.
pub proof fn law_running_summary(ms: Seq<StateModel>)
    requires
        ms.len() == MANAGER_COUNT,
    ensures
        running_summary_of(ms) is None <==> forall|id: ManagerId|
            !((#[trigger] ms[place_of(id)]).status is Running),
        running_summary_of(ms) matches Some(text) ==> text == join_of(
            labels_of(all_managers().filter(is_running(ms))),
            ", "@,
        ),
{
    let keep = is_running(ms);
    let running = all_managers().filter(keep);
    if running.len() > 0 {
        all_managers().lemma_filter_pred(keep, 0);
        assert(ms[place_of(running[0])].status is Running);
    }
    if exists|id: ManagerId| (#[trigger] ms[place_of(id)]).status is Running {
        let id = choose|id: ManagerId| (#[trigger] ms[place_of(id)]).status is Running;
        assert(all_managers()[place_of(id)] == id);
        all_managers().lemma_filter_contains(keep, place_of(id));
    }
}

/// Text holds what stands in the middle of it.
proof fn lemma_middle(a: Seq<char>, p: Seq<char>, b: Seq<char>)
    ensures
        contains_text(a + p + b, p),
{
    law_contains(a + p + b, p);
}

/// The section of a manager with updates has its label, and what its check printed.
proof fn lemma_section(id: ManagerId, s: StateModel, phrases: Phrases)
    requires
        s.available,
        s.update_available,
    ensures
        contains_text(section_of(id, s, phrases), "== "@ + label_of(id) + " ==\n"@),
        trim_of(s.check_output).len() > 0 ==> contains_text(
            section_of(id, s, phrases),
            s.check_output,
        ),
        trim_of(s.check_output).len() == 0 ==> contains_text(
            section_of(id, s, phrases),
            phrases.updates_available@,
        ),
{
    let none = Seq::<char>::empty();
    let head = "== "@ + label_of(id) + " ==\n"@;
    let whole = section_of(id, s, phrases);
    let tail = whole.skip(head.len() as int);
    lemma_middle(none, head, tail);
    assert(whole =~= none + head + tail);
    if trim_of(s.check_output).len() == 0 {
        lemma_middle(head, phrases.updates_available@, seq!['\n', '\n']);
        assert(whole =~= head + phrases.updates_available@ + seq!['\n', '\n']);
    } else if s.check_output.last() == '\n' {
        lemma_middle(head, s.check_output, seq!['\n']);
        assert(whole =~= head + s.check_output + seq!['\n']);
    } else {
        lemma_middle(head, s.check_output, seq!['\n', '\n']);
        assert(whole =~= head + s.check_output + seq!['\n', '\n']);
    }
}

/// What is shown of the first managers holds the section of each of them.
proof fn lemma_sections(ms: Seq<StateModel>, phrases: Phrases, n: nat, i: int)
    requires
        ms.len() == MANAGER_COUNT,
        n <= MANAGER_COUNT,
        0 <= i < n,
    ensures
        contains_text(
            sections_of(ms, phrases, n),
            section_of(all_managers()[i], ms[place_of(all_managers()[i])], phrases),
        ),
    decreases n,
{
    let id = all_managers()[i];
    let part = section_of(id, ms[place_of(id)], phrases);
    let whole = sections_of(ms, phrases, n);
    let none = Seq::<char>::empty();
    let front = sections_of(ms, phrases, (n - 1) as nat);
    if i == n - 1 {
        lemma_middle(front, part, none);
        assert(whole =~= front + part + none);
    } else {
        lemma_sections(ms, phrases, (n - 1) as nat, i);
        law_contains(front, part);
        let (a, b) = choose|a: Seq<char>, b: Seq<char>| front == #[trigger] (a + part + b);
        let last = all_managers()[n - 1];
        let more = section_of(last, ms[place_of(last)], phrases);
        lemma_middle(a, part, b + more);
        assert(whole =~= a + part + (b + more));
    }
}

/// What holds text holds whatever that text holds.
proof fn lemma_contains_inner(s: Seq<char>, t: Seq<char>, p: Seq<char>)
    requires
        contains_text(s, t),
        contains_text(t, p),
    ensures
        contains_text(s, p),
{
    law_contains(s, t);
    law_contains(t, p);
    let (a, b) = choose|a: Seq<char>, b: Seq<char>| s == #[trigger] (a + t + b);
    let (c, d) = choose|c: Seq<char>, d: Seq<char>| t == #[trigger] (c + p + d);
    lemma_middle(a + c, p, d + b);
    assert(s =~= (a + c) + p + (d + b));
}

/// Text with something in it that is no white space is not blank.
proof fn lemma_not_blank(s: Seq<char>, p: Seq<char>)
    requires
        contains_text(s, p),
        p.len() > 0,
        !is_white_space(p[0]),
    ensures
        trim_of(s).len() > 0,
{
    law_contains(s, p);
    let (a, b) = choose|a: Seq<char>, b: Seq<char>| s == #[trigger] (a + p + b);
    let n = a.len() as int;
    assert(s[n] == p[0]);
    let (before, behind) = lemma_trimmed(s);
    if trim_of(s).len() == 0 {
        assert(s =~= before + behind);
        if n < before.len() {
            assert(s[n] == before[n]);
        } else {
            assert(s[n] == behind[n - before.len()]);
        }
    }
}

/// The sections are empty where no manager has updates.
proof fn lemma_no_sections(ms: Seq<StateModel>, phrases: Phrases, n: nat)
    requires
        ms.len() == MANAGER_COUNT,
        n <= MANAGER_COUNT,
        forall|id: ManagerId|
            !((#[trigger] ms[place_of(id)]).available && ms[place_of(id)].update_available),
    ensures
        sections_of(ms, phrases, n).len() == 0,
    decreases n,
{
    if n > 0 {
        lemma_no_sections(ms, phrases, (n - 1) as nat);
        let id = all_managers()[n - 1];
        assert(!(ms[place_of(id)].available && ms[place_of(id)].update_available));
    }
}

/// Where a manager that is there has updates, its label is shown with what its check printed, or,
/// where it printed nothing, that there are updates. Where none has, it is shown that the system is
/// up to date.
pub proof fn law_output_of_checks(ms: Seq<StateModel>, id: ManagerId, phrases: Phrases)
    requires
        ms.len() == MANAGER_COUNT,
    ensures
        ms[place_of(id)].available && ms[place_of(id)].update_available ==> {
            let text = updates_output_of(ms, phrases);
            &&& contains_text(text, "== "@ + label_of(id) + " ==\n"@)
            &&& trim_of(ms[place_of(id)].check_output).len() > 0 ==> contains_text(
                text,
                ms[place_of(id)].check_output,
            )
            &&& trim_of(ms[place_of(id)].check_output).len() == 0 ==> contains_text(
                text,
                phrases.updates_available@,
            )
        },
        (forall|other: ManagerId|
            !((#[trigger] ms[place_of(other)]).available && ms[place_of(other)].update_available))
            ==> updates_output_of(ms, phrases) == phrases.system_up_to_date@,
{
    let n = MANAGER_COUNT as nat;
    let all = sections_of(ms, phrases, n);
    let s = ms[place_of(id)];
    if s.available && s.update_available {
        assert(all_managers()[place_of(id)] == id);
        lemma_sections(ms, phrases, n, place_of(id));
        lemma_section(id, s, phrases);
        let part = section_of(id, s, phrases);
        let head = "== "@ + label_of(id) + " ==\n"@;
        lemma_contains_inner(all, part, head);
        reveal_strlit("== ");
        assert(head[0] == '=');
        lemma_not_blank(all, head);
        if trim_of(s.check_output).len() > 0 {
            lemma_contains_inner(all, part, s.check_output);
        } else {
            lemma_contains_inner(all, part, phrases.updates_available@);
        }
    }
    if forall|other: ManagerId|
        !((#[trigger] ms[place_of(other)]).available && ms[place_of(other)].update_available) {
        lemma_no_sections(ms, phrases, n);
        let none = Seq::<char>::empty();
        assert(all =~= none);
        law_trim(none, none, none);
        assert(none + none + none =~= none);
    }
}

/// The details of an update tell its manager and its name, the versions that are known, and for
/// whom it is installed where that is known; each on a line, in this order. The tab of packages
/// tells its identifier.
pub proof fn law_details_shown(e: EntryModel, phrases: Phrases)
    ensures
        ({
            let lines = information_of(e, phrases);
            &&& lines[0] == phrases.details_manager@ + ": "@ + label_of(e.manager)
            &&& lines[1] == phrases.details_name@ + ": "@ + display_name_of(e)
            &&& e.current_version matches Some(v) ==> lines.contains(
                phrases.details_current@ + ": "@ + v,
            )
            &&& e.new_version matches Some(v) ==> lines.contains(phrases.details_new@ + ": "@ + v)
            &&& e.scope == Some(InstallScope::User) ==> lines.contains(
                phrases.details_scope@ + ": "@ + phrases.details_scope_user@,
            )
            &&& e.scope == Some(InstallScope::System) ==> lines.contains(
                phrases.details_scope@ + ": "@ + phrases.details_scope_system@,
            )
            &&& lines.len() == 2 + (if e.current_version is Some {
                1int
            } else {
                0
            }) + (if e.new_version is Some {
                1int
            } else {
                0
            }) + (if e.scope is Some {
                1int
            } else {
                0
            })
            &&& details_of(e, DetailsTab::Information, phrases) == join_of(lines, "\n"@)
        }),
        details_of(e, DetailsTab::Packages, phrases) == (if e.manager == ManagerId::Flatpak {
            phrases.details_ref@
        } else {
            phrases.details_package@
        }) + ": "@ + e.id,
        details_of(e, DetailsTab::Changelog, phrases) == phrases.details_changelog_unavailable@,
{
    let lines = information_of(e, phrases);
    let n = if e.current_version is Some {
        1int
    } else {
        0
    };
    let k = if e.new_version is Some {
        1int
    } else {
        0
    };
    if let Some(v) = e.current_version {
        assert(lines[2] == phrases.details_current@ + ": "@ + v);
    }
    if let Some(v) = e.new_version {
        assert(lines[2 + n] == phrases.details_new@ + ": "@ + v);
    }
    if let Some(scope) = e.scope {
        let said = match scope {
            InstallScope::User => phrases.details_scope_user@,
            InstallScope::System => phrases.details_scope_system@,
        };
        assert(lines[2 + n + k] == phrases.details_scope@ + ": "@ + said);
    }
}

/// Below the name of an update stand its manager, the version that is installed and the version
/// that is offered; a version that is not known is said not to be.
pub proof fn law_subtitle(e: EntryModel, phrases: Phrases)
    ensures
        ({
            let old = if e.current_version is Some {
                e.current_version->0
            } else {
                phrases.version_unknown@
            };
            let new = if e.new_version is Some {
                e.new_version->0
            } else {
                phrases.version_unknown@
            };
            subtitle_of(e, phrases) == label_of(e.manager) + " · "@ + phrases.details_current@
                + " "@ + old + " -> "@ + phrases.details_new@ + " "@ + new
        }),
{
}

/// Details are those of the first update in the list with the key that was chosen.
pub proof fn law_shown_entry(a: AppState, i: int)
    requires
        0 <= i < a.items.len(),
        a.selected_update == Some(key_of(a.items[i])),
        forall|j: int| 0 <= j < i ==> key_of(#[trigger] a.items[j]) != key_of(a.items[i]),
    ensures
        shown_entry(a) == Some(a.items[i].entry),
{
    lemma_find_item(a.items, key_of(a.items[i]));
    let k = find_item_of(a.items, key_of(a.items[i]))->0;
    if k < i {
        assert(key_of(a.items[k]) != key_of(a.items[i]));
    }
}

/// The label of a manager is the one under which it is known.
pub proof fn law_labels()
    ensures
        labels_of(all_managers()) == seq![
            "Flatpak"@,
            "Snap"@,
            "DNF"@,
            "YUM"@,
            "Pacman"@,
            "Zypper"@,
            "Emerge"@,
            "Nix"@,
            "Homebrew"@,
            "APT"@,
        ],
{
    assert(labels_of(all_managers()) =~= seq![
        "Flatpak"@,
        "Snap"@,
        "DNF"@,
        "YUM"@,
        "Pacman"@,
        "Zypper"@,
        "Emerge"@,
        "Nix"@,
        "Homebrew"@,
        "APT"@,
    ]);
}

} // verus!
