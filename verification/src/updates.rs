//! Updates that can be installed, and how checks and runs end.

use crate::managers::ManagerId;
use vstd::prelude::*;

verus! {

/// Where a manager's run stands.
#[derive(Debug)]
pub enum TaskStatus {
    Idle,
    Running,
    Success,
    Failed(String),
}

/// Where a manager's run stands, as characters.
pub enum StatusModel {
    Idle,
    Running,
    Success,
    Failed(Seq<char>),
}

impl View for TaskStatus {
    type V = StatusModel;

    open spec fn view(&self) -> StatusModel {
        match self {
            TaskStatus::Idle => StatusModel::Idle,
            TaskStatus::Running => StatusModel::Running,
            TaskStatus::Success => StatusModel::Success,
            TaskStatus::Failed(reason) => StatusModel::Failed(reason@),
        }
    }
}

impl Clone for TaskStatus {
    fn clone(&self) -> (r: Self)
        ensures
            r == *self,
    {
        match self {
            TaskStatus::Idle => TaskStatus::Idle,
            TaskStatus::Running => TaskStatus::Running,
            TaskStatus::Success => TaskStatus::Success,
            TaskStatus::Failed(reason) => TaskStatus::Failed(reason.clone()),
        }
    }
}

impl TaskStatus {
    /// Whether the run is under way.
    pub fn is_running(&self) -> (r: bool)
        ensures
            r == (self@ is Running),
    {
        match self {
            TaskStatus::Running => true,
            _ => false,
        }
    }

    /// Whether the run ended well.
    pub fn is_success(&self) -> (r: bool)
        ensures
            r == (self@ is Success),
    {
        match self {
            TaskStatus::Success => true,
            _ => false,
        }
    }
}

/// How a run ended.
#[derive(Debug)]
pub struct UpdateOutcome {
    pub output: String,
    pub status: TaskStatus,
}

/// How a run ended, as characters.
pub struct OutcomeModel {
    pub output: Seq<char>,
    pub status: StatusModel,
}

impl View for UpdateOutcome {
    type V = OutcomeModel;

    open spec fn view(&self) -> OutcomeModel {
        OutcomeModel { output: self.output@, status: self.status@ }
    }
}

impl Clone for UpdateOutcome {
    fn clone(&self) -> (r: Self)
        ensures
            r == *self,
    {
        UpdateOutcome { output: self.output.clone(), status: self.status.clone() }
    }
}

/// How a check for updates ended.
#[derive(Debug)]
pub struct CheckOutcome {
    pub output: String,
    pub has_updates: bool,
    pub error: Option<String>,
}

/// How a check for updates ended, as characters.
pub struct CheckModel {
    pub output: Seq<char>,
    pub has_updates: bool,
    pub error: Option<Seq<char>>,
}

/// The characters of a string, if there is one.
pub open spec fn opt_text(s: Option<String>) -> Option<Seq<char>> {
    match s {
        Some(t) => Some(t@),
        None => None,
    }
}

/// A copy of a string, if there is one.
pub fn clone_opt(s: &Option<String>) -> (r: Option<String>)
    ensures
        r == *s,
{
    match s {
        Some(t) => Some(t.clone()),
        None => None,
    }
}

impl View for CheckOutcome {
    type V = CheckModel;

    open spec fn view(&self) -> CheckModel {
        CheckModel {
            output: self.output@,
            has_updates: self.has_updates,
            error: opt_text(self.error),
        }
    }
}

impl Clone for CheckOutcome {
    fn clone(&self) -> (r: Self)
        ensures
            r == *self,
    {
        CheckOutcome {
            output: self.output.clone(),
            has_updates: self.has_updates,
            error: clone_opt(&self.error),
        }
    }
}

/// For whom a Flatpak is installed.
#[derive(Clone, Copy, Debug, PartialEq, Eq, Structural)]
pub enum InstallScope {
    User,
    System,
}

/// An update that a manager offers.
#[derive(Debug)]
pub struct UpdateEntry {
    pub manager: ManagerId,
    pub id: String,
    pub name: String,
    pub current_version: Option<String>,
    pub new_version: Option<String>,
    pub scope: Option<InstallScope>,
}

/// An update that a manager offers, as characters.
pub struct EntryModel {
    pub manager: ManagerId,
    pub id: Seq<char>,
    pub name: Seq<char>,
    pub current_version: Option<Seq<char>>,
    pub new_version: Option<Seq<char>>,
    pub scope: Option<InstallScope>,
}

impl View for UpdateEntry {
    type V = EntryModel;

    open spec fn view(&self) -> EntryModel {
        EntryModel {
            manager: self.manager,
            id: self.id@,
            name: self.name@,
            current_version: opt_text(self.current_version),
            new_version: opt_text(self.new_version),
            scope: self.scope,
        }
    }
}

impl Clone for UpdateEntry {
    fn clone(&self) -> (r: Self)
        ensures
            r == *self,
    {
        UpdateEntry {
            manager: self.manager,
            id: self.id.clone(),
            name: self.name.clone(),
            current_version: clone_opt(&self.current_version),
            new_version: clone_opt(&self.new_version),
            scope: self.scope,
        }
    }
}

/// The updates of `v`, as characters.
pub open spec fn entries(v: Seq<UpdateEntry>) -> Seq<EntryModel> {
    Seq::new(v.len(), |i: int| v[i]@)
}

/// The identifiers of the updates of `v`.
pub open spec fn ids_of(v: Seq<EntryModel>) -> Seq<Seq<char>> {
    Seq::new(v.len(), |i: int| v[i].id)
}

} // verus!
