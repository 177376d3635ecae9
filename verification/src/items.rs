//! The updates that are shown, each with its tick.

use crate::managers::ManagerId;
use crate::text::same_text;
use crate::updates::{entries, EntryModel, UpdateEntry};
use vstd::prelude::*;

verus! {

/// What tells an update from all others.
#[derive(Debug)]
pub struct UpdateKey {
    pub manager: ManagerId,
    pub id: String,
}

/// What tells an update from all others, as characters.
pub struct KeyModel {
    pub manager: ManagerId,
    pub id: Seq<char>,
}

impl View for UpdateKey {
    type V = KeyModel;

    open spec fn view(&self) -> KeyModel {
        KeyModel { manager: self.manager, id: self.id@ }
    }
}

impl Clone for UpdateKey {
    fn clone(&self) -> (r: Self)
        ensures
            r == *self,
    {
        UpdateKey { manager: self.manager, id: self.id.clone() }
    }
}

impl UpdateKey {
    /// Whether both name the same update.
    pub fn same(&self, other: &UpdateKey) -> (r: bool)
        ensures
            r == (self@ == other@),
    {
        self.manager == other.manager && same_text(self.id.as_str(), other.id.as_str())
    }
}

/// The keys of `v`, as characters.
pub open spec fn keys(v: Seq<UpdateKey>) -> Seq<KeyModel> {
    Seq::new(v.len(), |i: int| v[i]@)
}

/// An update that is shown.
#[derive(Debug)]
pub struct UpdateItem {
    pub entry: UpdateEntry,
    pub checked: bool,
}

/// An update that is shown, as characters.
pub struct ItemModel {
    pub entry: EntryModel,
    pub checked: bool,
}

impl View for UpdateItem {
    type V = ItemModel;

    open spec fn view(&self) -> ItemModel {
        ItemModel { entry: self.entry@, checked: self.checked }
    }
}

impl Clone for UpdateItem {
    fn clone(&self) -> (r: Self)
        ensures
            r == *self,
    {
        UpdateItem { entry: self.entry.clone(), checked: self.checked }
    }
}

/// The updates of `v`, as characters.
pub open spec fn items(v: Seq<UpdateItem>) -> Seq<ItemModel> {
    Seq::new(v.len(), |i: int| v[i]@)
}

/// What tells an update from all others.
pub open spec fn key_of(item: ItemModel) -> KeyModel {
    KeyModel { manager: item.entry.manager, id: item.entry.id }
}

impl UpdateItem {
    /// What tells this update from all others.
    pub fn key(&self) -> (r: UpdateKey)
        ensures
            r@ == key_of(self@),
    {
        UpdateKey { manager: self.entry.manager, id: self.entry.id.clone() }
    }

    /// Whether `key` names this update.
    pub fn has_key(&self, key: &UpdateKey) -> (r: bool)
        ensures
            r == (key_of(self@) == key@),
    {
        self.entry.manager == key.manager && same_text(self.entry.id.as_str(), key.id.as_str())
    }
}

/// The place of the first update that `key` names.
pub open spec fn find_item_of(s: Seq<ItemModel>, key: KeyModel) -> Option<int>
    decreases s.len(),
{
    if s.len() == 0 {
        None
    } else {
        match find_item_of(s.drop_last(), key) {
            Some(i) => Some(i),
            None => if key_of(s.last()) == key {
                Some(s.len() - 1)
            } else {
                None
            },
        }
    }
}

/// The place found is that of an update with the key, and none before it has the key.
pub proof fn lemma_find_item(s: Seq<ItemModel>, key: KeyModel)
    ensures
        match find_item_of(s, key) {
            Some(i) => 0 <= i < s.len() && key_of(s[i]) == key && forall|j: int|
                0 <= j < i ==> key_of(#[trigger] s[j]) != key,
            None => forall|j: int| 0 <= j < s.len() ==> key_of(#[trigger] s[j]) != key,
        },
    decreases s.len(),
{
    if s.len() > 0 {
        let t = s.drop_last();
        lemma_find_item(t, key);
        assert forall|j: int| 0 <= j < t.len() implies t[j] == s[j] by {}
    }
}

/// The place of the first update that `key` names.
pub fn find_item(v: &Vec<UpdateItem>, key: &UpdateKey) -> (r: Option<usize>)
    ensures
        match r {
            Some(i) => find_item_of(items(v@), key@) == Some(i as int) && i < v@.len(),
            None => find_item_of(items(v@), key@) is None,
        },
{
    let ghost s = items(v@);
    let mut i: usize = 0;
    while i < v.len()
        invariant
            i <= v@.len(),
            s == items(v@),
            forall|j: int| 0 <= j < i ==> key_of(#[trigger] s[j]) != key@,
        decreases v@.len() - i,
    {
        assert(s[i as int] == v@[i as int]@);
        if v[i].has_key(key) {
            proof {
                lemma_find_item(s, key@);
            }
            return Some(i);
        }
        i += 1;
    }
    proof {
        lemma_find_item(s, key@);
    }
    None
}

/// Whether an update is of a manager.
pub open spec fn of_manager(id: ManagerId) -> spec_fn(ItemModel) -> bool {
    |item: ItemModel| item.entry.manager == id
}

/// Whether an update is of another manager.
pub open spec fn not_of_manager(id: ManagerId) -> spec_fn(ItemModel) -> bool {
    |item: ItemModel| item.entry.manager != id
}

/// Whether an update is of a manager and ticked.
pub open spec fn ticked(id: ManagerId) -> spec_fn(ItemModel) -> bool {
    |item: ItemModel| item.entry.manager == id && item.checked
}

/// Whether an update stays when those of a manager that `done` names are installed.
pub open spec fn left_over(id: ManagerId, done: Seq<KeyModel>) -> spec_fn(ItemModel) -> bool {
    |item: ItemModel| item.entry.manager != id || !done.contains(key_of(item))
}

/// The updates without their ticks.
pub open spec fn entries_in(s: Seq<ItemModel>) -> Seq<EntryModel> {
    s.map_values(|item: ItemModel| item.entry)
}

/// The ticked updates of a manager.
pub open spec fn selected_of(s: Seq<ItemModel>, id: ManagerId) -> Seq<EntryModel> {
    entries_in(s.filter(ticked(id)))
}

/// The ticked updates of a manager.
pub fn selected_updates(v: &Vec<UpdateItem>, id: ManagerId) -> (r: Vec<UpdateEntry>)
    ensures
        entries(r@) == selected_of(items(v@), id),
{
    let ghost s = items(v@);
    let mut out: Vec<UpdateEntry> = Vec::new();
    let mut i: usize = 0;
    proof {
        reveal(Seq::filter);
        assert(entries(out@) =~= selected_of(s.take(0), id));
    }
    while i < v.len()
        invariant
            i <= v@.len(),
            s == items(v@),
            entries(out@) == selected_of(s.take(i as int), id),
        decreases v@.len() - i,
    {
        let ghost before = out@;
        if v[i].entry.manager == id && v[i].checked {
            out.push(v[i].entry.clone());
        }
        proof {
            reveal(Seq::filter);
            let next = s.take(i + 1);
            assert(next.drop_last() =~= s.take(i as int));
            assert(next.last() == v@[i as int]@);
            let kept = s.take(i as int).filter(ticked(id));
            assert(entries(before).len() == entries_in(kept).len());
            if ticked(id)(next.last()) {
                assert(next.filter(ticked(id)) == kept.push(next.last()));
                assert(entries(out@) =~= entries(before).push(next.last().entry));
                assert(entries_in(kept.push(next.last())) =~= entries_in(kept).push(
                    next.last().entry,
                ));
            }
        }
        i += 1;
    }
    assert(s.take(s.len() as int) =~= s);
    out
}

/// Whether some update is ticked of those of a manager.
pub open spec fn any_selected(s: Seq<ItemModel>, id: ManagerId) -> bool {
    exists|i: int| 0 <= i < s.len() && #[trigger] ticked(id)(s[i])
}

/// Some update is ticked exactly where there are ticked ones.
pub proof fn lemma_any_selected(s: Seq<ItemModel>, id: ManagerId)
    ensures
        any_selected(s, id) == (selected_of(s, id).len() > 0),
{
    let kept = s.filter(ticked(id));
    if any_selected(s, id) {
        let i = choose|i: int| 0 <= i < s.len() && #[trigger] ticked(id)(s[i]);
        s.lemma_filter_contains(ticked(id), i);
        assert(kept.len() > 0);
    }
    if kept.len() > 0 {
        s.lemma_filter_pred(ticked(id), 0);
        assert(kept.contains(kept[0]));
        s.lemma_filter_contains_rev(ticked(id), kept[0]);
        let i = choose|i: int| 0 <= i < s.len() && s[i] == kept[0];
        assert(ticked(id)(s[i]));
    }
}

/// Whether some update is ticked of those of a manager.
pub fn has_selected(v: &Vec<UpdateItem>, id: ManagerId) -> (r: bool)
    ensures
        r == any_selected(items(v@), id),
{
    let ghost s = items(v@);
    let mut i: usize = 0;
    while i < v.len()
        invariant
            i <= v@.len(),
            s == items(v@),
            forall|j: int| 0 <= j < i ==> !(#[trigger] ticked(id)(s[j])),
        decreases v@.len() - i,
    {
        assert(s[i as int] == v@[i as int]@);
        if v[i].entry.manager == id && v[i].checked {
            assert(ticked(id)(s[i as int]));
            return true;
        }
        i += 1;
    }
    false
}

/// Whether there is an update of a manager.
pub open spec fn any_of_manager(s: Seq<ItemModel>, id: ManagerId) -> bool {
    exists|i: int| 0 <= i < s.len() && (#[trigger] s[i]).entry.manager == id
}

/// Whether there is an update of a manager.
pub fn has_manager(v: &Vec<UpdateItem>, id: ManagerId) -> (r: bool)
    ensures
        r == any_of_manager(items(v@), id),
{
    let ghost s = items(v@);
    let mut i: usize = 0;
    while i < v.len()
        invariant
            i <= v@.len(),
            s == items(v@),
            forall|j: int| 0 <= j < i ==> (#[trigger] s[j]).entry.manager != id,
        decreases v@.len() - i,
    {
        assert(s[i as int] == v@[i as int]@);
        if v[i].entry.manager == id {
            return true;
        }
        i += 1;
    }
    false
}

/// Whether `key` is one of `v`.
pub fn contains_key(v: &Vec<UpdateKey>, key: &UpdateKey) -> (r: bool)
    ensures
        r == keys(v@).contains(key@),
{
    let ghost s = keys(v@);
    let mut i: usize = 0;
    while i < v.len()
        invariant
            i <= v@.len(),
            s == keys(v@),
            forall|j: int| 0 <= j < i ==> #[trigger] s[j] != key@,
        decreases v@.len() - i,
    {
        assert(s[i as int] == v@[i as int]@);
        if v[i].same(key) {
            return true;
        }
        i += 1;
    }
    false
}

/// The updates of other managers than `id`.
pub fn without_manager(v: Vec<UpdateItem>, id: ManagerId) -> (r: Vec<UpdateItem>)
    ensures
        items(r@) == items(v@).filter(not_of_manager(id)),
{
    let ghost s = items(v@);
    let mut out: Vec<UpdateItem> = Vec::new();
    proof {
        reveal(Seq::filter);
        assert(items(out@) =~= s.take(0).filter(not_of_manager(id)));
    }
    for item in it: v
        invariant
            s == items(it.seq()),
            items(out@) == s.take(it.index() as int).filter(not_of_manager(id)),
    {
        let ghost i = it.index() as int;
        let ghost model = item@;
        assert(item == it.seq()[i]);
        if item.entry.manager != id {
            out.push(item);
        }
        proof {
            reveal(Seq::filter);
            let next = s.take(i + 1);
            assert(next.drop_last() =~= s.take(i));
            assert(next.last() == model);
            assert(items(out@) =~= next.filter(not_of_manager(id)));
        }
    }
    assert(s.take(s.len() as int) =~= s);
    out
}

/// The updates that stay when those of a manager that `done` names are installed.
pub fn without_keys(v: Vec<UpdateItem>, id: ManagerId, done: &Vec<UpdateKey>) -> (r: Vec<UpdateItem>)
    ensures
        items(r@) == items(v@).filter(left_over(id, keys(done@))),
{
    let ghost s = items(v@);
    let ghost stays = left_over(id, keys(done@));
    let mut out: Vec<UpdateItem> = Vec::new();
    proof {
        reveal(Seq::filter);
        assert(items(out@) =~= s.take(0).filter(stays));
    }
    for item in it: v
        invariant
            s == items(it.seq()),
            stays == left_over(id, keys(done@)),
            items(out@) == s.take(it.index() as int).filter(stays),
    {
        let ghost i = it.index() as int;
        let ghost model = item@;
        assert(item == it.seq()[i]);
        if item.entry.manager != id || !contains_key(done, &item.key()) {
            out.push(item);
        }
        proof {
            reveal(Seq::filter);
            let next = s.take(i + 1);
            assert(next.drop_last() =~= s.take(i));
            assert(next.last() == model);
            assert(items(out@) =~= next.filter(stays));
        }
    }
    assert(s.take(s.len() as int) =~= s);
    out
}

/// The updates, each with the tick `checked`.
pub open spec fn all_checked(s: Seq<ItemModel>, checked: bool) -> Seq<ItemModel> {
    s.map_values(|item: ItemModel| ItemModel { checked, ..item })
}

/// Gives every update the tick `checked`.
pub fn check_all(v: &mut Vec<UpdateItem>, checked: bool)
    ensures
        items(final(v)@) == all_checked(items(old(v)@), checked),
{
    let ghost start = v@;
    let mut i: usize = 0;
    while i < v.len()
        invariant
            i <= v@.len(),
            v@.len() == start.len(),
            forall|j: int| 0 <= j < i ==> (#[trigger] v@[j])@ == (ItemModel { checked, ..start[j]@ }),
            forall|j: int| i <= j < start.len() ==> #[trigger] v@[j] == start[j],
        decreases v@.len() - i,
    {
        v[i].checked = checked;
        i += 1;
    }
    assert(items(v@) =~= all_checked(items(start), checked));
}

/// The updates, the first that `key` names with the tick `checked`.
pub open spec fn toggled_of(s: Seq<ItemModel>, key: KeyModel, checked: bool) -> Seq<ItemModel> {
    match find_item_of(s, key) {
        Some(i) => s.update(i, ItemModel { checked, ..s[i] }),
        None => s,
    }
}

/// Gives the first update that `key` names the tick `checked`.
pub fn toggle(v: &mut Vec<UpdateItem>, key: &UpdateKey, checked: bool)
    ensures
        items(final(v)@) == toggled_of(items(old(v)@), key@, checked),
{
    let ghost s = items(v@);
    if let Some(i) = find_item(v, key) {
        v[i].checked = checked;
        assert(items(v@) =~= s.update(i as int, ItemModel { checked, ..s[i as int] }));
    }
}

/// The updates, ticked.
pub open spec fn ticked_items(s: Seq<EntryModel>) -> Seq<ItemModel> {
    s.map_values(|entry: EntryModel| ItemModel { entry, checked: true })
}

/// Puts updates behind those of `v`, ticked.
pub fn add_entries(v: &mut Vec<UpdateItem>, list: Vec<UpdateEntry>)
    ensures
        items(final(v)@) == items(old(v)@) + ticked_items(entries(list@)),
{
    let ghost start = items(v@);
    let ghost all = entries(list@);
    assert(items(v@) =~= start + ticked_items(all.take(0)));
    for entry in it: list
        invariant
            all == entries(it.seq()),
            items(v@) == start + ticked_items(all.take(it.index() as int)),
    {
        let ghost i = it.index() as int;
        let ghost before = items(v@);
        assert(entry == it.seq()[i]);
        v.push(UpdateItem { entry, checked: true });
        proof {
            let next = all.take(i + 1);
            let item = ItemModel { entry: all[i], checked: true };
            assert(items(v@) =~= before.push(item));
            assert(next =~= all.take(i).push(all[i]));
            assert(ticked_items(next) =~= ticked_items(all.take(i)).push(item));
            assert(items(v@) =~= start + ticked_items(next));
        }
    }
    assert(all.take(all.len() as int) =~= all);
}

/// The keys of a manager's updates.
pub open spec fn keys_for(id: ManagerId, s: Seq<EntryModel>) -> Seq<KeyModel> {
    s.map_values(|entry: EntryModel| KeyModel { manager: id, id: entry.id })
}

/// The keys of a manager's updates.
pub fn entry_keys(id: ManagerId, list: &Vec<UpdateEntry>) -> (r: Vec<UpdateKey>)
    ensures
        keys(r@) == keys_for(id, entries(list@)),
{
    let mut out: Vec<UpdateKey> = Vec::new();
    let mut i: usize = 0;
    while i < list.len()
        invariant
            i <= list@.len(),
            out@.len() == i,
            forall|j: int|
                0 <= j < i ==> (#[trigger] out@[j])@ == (KeyModel { manager: id, id: list@[j].id@ }),
        decreases list@.len() - i,
    {
        out.push(UpdateKey { manager: id, id: list[i].id.clone() });
        i += 1;
    }
    assert(keys(out@) =~= keys_for(id, entries(list@)));
    out
}

} // verus!
