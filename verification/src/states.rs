//! Where each manager stands.

use crate::managers::{
    all_managers, label_of, needs_privilege, place_of, ManagerId, MANAGER_COUNT,
};
use crate::progress::ProgressTracker;
use crate::text::{join, join_of, strings};
use crate::updates::{opt_text, StatusModel, TaskStatus};
use vstd::prelude::*;

verus! {

/// Where a manager stands.
#[derive(Debug)]
pub struct ManagerState {
    pub available: bool,
    pub requires_privilege: bool,
    pub status: TaskStatus,
    pub last_output: String,
    pub check_output: String,
    pub checking: bool,
    pub update_available: bool,
    /// The bits of the percentage that its run has reported.
    pub progress: Option<u32>,
}

/// Where a manager stands, as characters.
pub struct StateModel {
    pub available: bool,
    pub requires_privilege: bool,
    pub status: StatusModel,
    pub last_output: Seq<char>,
    pub check_output: Seq<char>,
    pub checking: bool,
    pub update_available: bool,
    pub progress: Option<u32>,
}

impl View for ManagerState {
    type V = StateModel;

    open spec fn view(&self) -> StateModel {
        StateModel {
            available: self.available,
            requires_privilege: self.requires_privilege,
            status: self.status@,
            last_output: self.last_output@,
            check_output: self.check_output@,
            checking: self.checking,
            update_available: self.update_available,
            progress: self.progress,
        }
    }
}

/// Where every manager stands, each in its place.
#[derive(Debug)]
pub struct Managers {
    pub states: Vec<ManagerState>,
}

impl View for Managers {
    type V = Seq<StateModel>;

    open spec fn view(&self) -> Seq<StateModel> {
        Seq::new(self.states@.len(), |i: int| self.states@[i]@)
    }
}

/// Where a manager stands at the beginning.
pub open spec fn initial_state_of(id: ManagerId) -> StateModel {
    StateModel {
        available: false,
        requires_privilege: needs_privilege(id),
        status: StatusModel::Idle,
        last_output: Seq::empty(),
        check_output: Seq::empty(),
        checking: false,
        update_available: false,
        progress: None,
    }
}

/// Where every manager stands at the beginning.
pub open spec fn initial_states() -> Seq<StateModel> {
    Seq::new(MANAGER_COUNT as nat, |i: int| initial_state_of(all_managers()[i]))
}

impl Managers {
    /// Whether there is a place for every manager.
    pub open spec fn wf(&self) -> bool {
        self.states@.len() == MANAGER_COUNT
    }

    /// Where every manager stands at the beginning.
    pub fn new() -> (r: Self)
        ensures
            r.wf(),
            r@ == initial_states(),
    {
        let all = ManagerId::all();
        let mut states: Vec<ManagerState> = Vec::new();
        let mut i: usize = 0;
        while i < all.len()
            invariant
                i <= all@.len(),
                all@ == all_managers(),
                states@.len() == i,
                forall|j: int|
                    0 <= j < i ==> (#[trigger] states@[j])@ == initial_state_of(all_managers()[j]),
            decreases all@.len() - i,
        {
            let spec = all[i].spec();
            assert(spec@.requires_privilege == needs_privilege(all@[i as int]));
            states.push(
                ManagerState {
                    available: false,
                    requires_privilege: spec.requires_privilege,
                    status: TaskStatus::Idle,
                    last_output: String::new(),
                    check_output: String::new(),
                    checking: false,
                    update_available: false,
                    progress: None,
                },
            );
            i += 1;
        }
        let r = Managers { states };
        assert(r@ =~= initial_states());
        r
    }

    /// Where a manager stands.
    pub fn get(&self, id: ManagerId) -> (r: &ManagerState)
        requires
            self.wf(),
        ensures
            r@ == self@[place_of(id)],
            *r == self.states@[place_of(id)],
    {
        let i: usize = id.place();
        &self.states[i]
    }

    /// Where a manager stands, to be changed.
    pub fn state_mut(&mut self, id: ManagerId) -> (r: &mut ManagerState)
        requires
            old(self).wf(),
        ensures
            *r == old(self).states@[place_of(id)],
            final(self).states@ == old(self).states@.update(place_of(id), *final(r)),
    {
        let i: usize = id.place();
        &mut self.states[i]
    }

    /// How many managers are there, and how many there can be.
    pub fn manager_counts(&self) -> (r: (usize, usize))
        requires
            self.wf(),
        ensures
            r.0 == available_ids(self@).len(),
            r.1 == MANAGER_COUNT,
    {
        (self.available().len(), self.states.len())
    }

    /// The managers that are there.
    pub fn available(&self) -> (r: Vec<ManagerId>)
        requires
            self.wf(),
        ensures
            r@ == available_ids(self@),
    {
        let all = ManagerId::all();
        let mut out: Vec<ManagerId> = Vec::new();
        let mut i: usize = 0;
        proof {
            reveal(Seq::filter);
            assert(out@ =~= all@.take(0).filter(is_available(self@)));
        }
        while i < all.len()
            invariant
                self.wf(),
                i <= all@.len(),
                out@ == all@.take(i as int).filter(is_available(self@)),
            decreases all@.len() - i,
        {
            if self.get(all[i]).available {
                out.push(all[i]);
            }
            proof {
                reveal(Seq::filter);
                let next = all@.take(i + 1);
                assert(next.drop_last() =~= all@.take(i as int));
                assert(next.last() == all@[i as int]);
            }
            i += 1;
        }
        assert(all@.take(all@.len() as int) =~= all@);
        out
    }

    /// Whether some run is under way.
    pub fn any_running(&self) -> (r: bool)
        requires
            self.wf(),
        ensures
            r == some_running(self@),
    {
        let mut i: usize = 0;
        while i < self.states.len()
            invariant
                i <= self.states@.len(),
                forall|j: int| 0 <= j < i ==> !((#[trigger] self@[j]).status is Running),
            decreases self.states@.len() - i,
        {
            assert(self@[i as int] == self.states@[i as int]@);
            if self.states[i].status.is_running() {
                return true;
            }
            i += 1;
        }
        false
    }

    /// Whether some check is under way.
    pub fn any_checking(&self) -> (r: bool)
        requires
            self.wf(),
        ensures
            r == some_checking(self@),
    {
        let mut i: usize = 0;
        while i < self.states.len()
            invariant
                i <= self.states@.len(),
                forall|j: int| 0 <= j < i ==> !(#[trigger] self@[j]).checking,
            decreases self.states@.len() - i,
        {
            assert(self@[i as int] == self.states@[i as int]@);
            if self.states[i].checking {
                return true;
            }
            i += 1;
        }
        false
    }

    /// Whether some manager has updates.
    pub fn any_updates_available(&self) -> (r: bool)
        requires
            self.wf(),
        ensures
            r == some_updates(self@),
    {
        let mut i: usize = 0;
        while i < self.states.len()
            invariant
                i <= self.states@.len(),
                forall|j: int| 0 <= j < i ==> !(#[trigger] self@[j]).update_available,
            decreases self.states@.len() - i,
        {
            assert(self@[i as int] == self.states@[i as int]@);
            if self.states[i].update_available {
                return true;
            }
            i += 1;
        }
        false
    }

    /// Whether the run of a manager is under way.
    pub fn is_manager_running(&self, id: ManagerId) -> (r: bool)
        requires
            self.wf(),
        ensures
            r == (self@[place_of(id)].status is Running),
    {
        self.get(id).status.is_running()
    }

    /// The labels of the managers whose runs are under way, if there are any.
    pub fn running_manager_summary(&self) -> (r: Option<String>)
        requires
            self.wf(),
        ensures
            opt_text(r) == running_summary_of(self@),
    {
        let all = ManagerId::all();
        let mut labels: Vec<String> = Vec::new();
        let mut i: usize = 0;
        proof {
            reveal(Seq::filter);
            assert(strings(labels@) =~= labels_of(all@.take(0).filter(is_running(self@))));
        }
        while i < all.len()
            invariant
                self.wf(),
                i <= all@.len(),
                strings(labels@) == labels_of(all@.take(i as int).filter(is_running(self@))),
            decreases all@.len() - i,
        {
            let ghost before = labels@;
            if self.is_manager_running(all[i]) {
                labels.push(all[i].spec().label.to_string());
            }
            proof {
                reveal(Seq::filter);
                let next = all@.take(i + 1);
                assert(next.drop_last() =~= all@.take(i as int));
                assert(next.last() == all@[i as int]);
                let kept = all@.take(i as int).filter(is_running(self@));
                if is_running(self@)(next.last()) {
                    assert(strings(labels@) =~= strings(before).push(label_of(next.last())));
                    assert(labels_of(kept.push(next.last())) =~= labels_of(kept).push(
                        label_of(next.last()),
                    ));
                }
            }
            i += 1;
        }
        assert(all@.take(all@.len() as int) =~= all@);
        assert(strings(labels@).len() == labels@.len());
        if labels.len() == 0 {
            None
        } else {
            Some(join(&labels, ", "))
        }
    }

    /// Takes over what runs under way have reported.
    pub fn sync_progress(&mut self, tracker: &ProgressTracker)
        requires
            old(self).wf(),
            tracker.wf(),
        ensures
            final(self).wf(),
            final(self)@ == synced_of(old(self)@, tracker.values@),
    {
        let ghost start = self.states@;
        let mut i: usize = 0;
        while i < self.states.len()
            invariant
                i <= self.states@.len(),
                self.wf(),
                tracker.wf(),
                start.len() == MANAGER_COUNT,
                forall|j: int|
                    0 <= j < i ==> (#[trigger] self.states@[j])@ == synced(
                        start[j]@,
                        tracker.values@[j],
                    ),
                forall|j: int| i <= j < start.len() ==> #[trigger] self.states@[j] == start[j],
            decreases self.states@.len() - i,
        {
            let running: bool = self.states[i].status.is_running();
            self.states[i].progress = if running {
                tracker.values[i]
            } else {
                None
            };
            i += 1;
        }
        assert(self@ =~= synced_of(old(self)@, tracker.values@));
    }

    /// Marks the managers that are there as being checked, and tells which those are.
    pub fn start_checks(&mut self) -> (r: Vec<ManagerId>)
        requires
            old(self).wf(),
        ensures
            final(self).wf(),
            final(self)@ == checks_started(old(self)@),
            r@ == available_ids(old(self)@),
    {
        let r = self.available();
        let ghost start = self.states@;
        let mut i: usize = 0;
        while i < self.states.len()
            invariant
                i <= self.states@.len(),
                self.wf(),
                start.len() == MANAGER_COUNT,
                forall|j: int|
                    0 <= j < i ==> (#[trigger] self.states@[j])@ == check_started(start[j]@),
                forall|j: int| i <= j < start.len() ==> #[trigger] self.states@[j] == start[j],
            decreases self.states@.len() - i,
        {
            if self.states[i].available {
                self.states[i].checking = true;
            }
            i += 1;
        }
        assert(self@ =~= checks_started(old(self)@));
        r
    }
}

/// Where the managers stand once `s` is put in the place of `id`.
pub proof fn lemma_state_changed(before: Managers, after: Managers, id: ManagerId, s: ManagerState)
    requires
        before.wf(),
        after.states@ == before.states@.update(place_of(id), s),
    ensures
        after.wf(),
        after@ == before@.update(place_of(id), s@),
{
    assert(after@ =~= before@.update(place_of(id), s@));
}

/// Whether a manager is there.
pub open spec fn is_available(ms: Seq<StateModel>) -> spec_fn(ManagerId) -> bool {
    |id: ManagerId| ms[place_of(id)].available
}

/// The managers that are there.
pub open spec fn available_ids(ms: Seq<StateModel>) -> Seq<ManagerId> {
    all_managers().filter(is_available(ms))
}

/// Whether the run of a manager is under way.
pub open spec fn is_running(ms: Seq<StateModel>) -> spec_fn(ManagerId) -> bool {
    |id: ManagerId| ms[place_of(id)].status is Running
}

/// Whether some run is under way.
pub open spec fn some_running(ms: Seq<StateModel>) -> bool {
    exists|i: int| 0 <= i < ms.len() && (#[trigger] ms[i]).status is Running
}

/// Whether some check is under way.
pub open spec fn some_checking(ms: Seq<StateModel>) -> bool {
    exists|i: int| 0 <= i < ms.len() && (#[trigger] ms[i]).checking
}

/// Whether some manager has updates.
pub open spec fn some_updates(ms: Seq<StateModel>) -> bool {
    exists|i: int| 0 <= i < ms.len() && (#[trigger] ms[i]).update_available
}

/// The labels of managers.
pub open spec fn labels_of(ids: Seq<ManagerId>) -> Seq<Seq<char>> {
    ids.map_values(|id: ManagerId| label_of(id))
}

/// The labels of the managers whose runs are under way, if there are any.
pub open spec fn running_summary_of(ms: Seq<StateModel>) -> Option<Seq<char>> {
    let running = all_managers().filter(is_running(ms));
    if running.len() == 0 {
        None
    } else {
        Some(join_of(labels_of(running), ", "@))
    }
}

/// A manager once what its run has reported is taken over.
pub open spec fn synced(s: StateModel, reported: Option<u32>) -> StateModel {
    StateModel {
        progress: if s.status is Running {
            reported
        } else {
            None
        },
        ..s
    }
}

/// The managers once what their runs have reported is taken over.
pub open spec fn synced_of(ms: Seq<StateModel>, reported: Seq<Option<u32>>) -> Seq<StateModel> {
    Seq::new(ms.len(), |i: int| synced(ms[i], reported[i]))
}

/// A manager once checks have begun.
pub open spec fn check_started(s: StateModel) -> StateModel {
    StateModel { checking: s.checking || s.available, ..s }
}

/// The managers once checks have begun.
pub open spec fn checks_started(ms: Seq<StateModel>) -> Seq<StateModel> {
    Seq::new(ms.len(), |i: int| check_started(ms[i]))
}

} // verus!
