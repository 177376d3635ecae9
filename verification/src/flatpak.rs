//! Updating chosen Flatpaks.

use crate::command::{CommandReport, CommandRequest};
use crate::managers::{command, CommandModel, ManagerId};
use crate::number::{decimal, decimal_of};
use crate::order::{increasing, law_sorted, sort_dedup, sorted_of};
use crate::progress::ProgressChange;
use crate::run::{
    requests, results_of, run_commands, run_of, ReportModel, RunModel, RunStep,
};
use crate::text::{clone_strings, strings};
use crate::updates::{
    entries, opt_text, EntryModel, InstallScope, OutcomeModel, StatusModel, TaskStatus, UpdateEntry,
    UpdateOutcome,
};
use vstd::prelude::*;

verus! {

/// The refs of the Flatpaks among `list` that have this scope, as they come.
pub open spec fn refs_in(list: Seq<EntryModel>, scope: Option<InstallScope>) -> Seq<Seq<char>>
    decreases list.len(),
{
    if list.len() == 0 {
        Seq::empty()
    } else if list.last().manager == ManagerId::Flatpak && list.last().scope == scope {
        refs_in(list.drop_last(), scope).push(list.last().id)
    } else {
        refs_in(list.drop_last(), scope)
    }
}

/// The refs of the Flatpaks among `list` that have this scope, in order, each once.
pub open spec fn chosen_refs_of(
    list: Seq<EntryModel>,
    scope: Option<InstallScope>,
) -> Seq<Seq<char>> {
    sorted_of(refs_in(list, scope))
}

/// Whether two scopes are the same.
fn same_scope(a: Option<InstallScope>, b: Option<InstallScope>) -> (r: bool)
    ensures
        r == (a == b),
{
    match (a, b) {
        (Some(x), Some(y)) => x == y,
        (None, None) => true,
        _ => false,
    }
}

/// The refs of the Flatpaks among `list` that have this scope, in order, each once.
pub fn chosen_refs(list: &Vec<UpdateEntry>, scope: Option<InstallScope>) -> (r: Vec<String>)
    ensures
        strings(r@) == chosen_refs_of(entries(list@), scope),
{
    let mut refs: Vec<String> = Vec::new();
    let mut i: usize = 0;
    let ghost all = entries(list@);
    assert(strings(refs@) =~= refs_in(all.take(0), scope));
    while i < list.len()
        invariant
            i <= list@.len(),
            all == entries(list@),
            strings(refs@) == refs_in(all.take(i as int), scope),
        decreases list@.len() - i,
    {
        let ghost before = refs@;
        assert(all.take(i + 1).drop_last() =~= all.take(i as int));
        assert(all.take(i + 1).last() == list@[i as int]@);
        if list[i].manager == ManagerId::Flatpak && same_scope(list[i].scope, scope) {
            refs.push(list[i].id.clone());
            assert(strings(refs@) =~= strings(before).push(list@[i as int].id@));
        }
        i += 1;
    }
    assert(all.take(all.len() as int) =~= all);
    sort_dedup(&refs)
}

/// The command that updates these refs, if there are any.
pub open spec fn refs_command_of(
    head: Seq<Seq<char>>,
    refs: Seq<Seq<char>>,
    requires_privilege: bool,
) -> Seq<CommandModel> {
    if refs.len() == 0 {
        Seq::empty()
    } else {
        seq![command("flatpak"@, head + refs, requires_privilege)]
    }
}

/// The commands that update the Flatpaks among `list`: the user's, the system's, and those of
/// which the scope is not known.
pub open spec fn flatpak_commands_of(list: Seq<EntryModel>) -> Seq<CommandModel> {
    refs_command_of(
        seq!["update"@, "-y"@, "--user"@],
        chosen_refs_of(list, Some(InstallScope::User)),
        false,
    ) + refs_command_of(
        seq!["update"@, "-y"@, "--system"@],
        chosen_refs_of(list, Some(InstallScope::System)),
        true,
    ) + refs_command_of(seq!["update"@, "-y"@], chosen_refs_of(list, None), false)
}

/// Appends the command that updates these refs, if there are any.
fn push_refs_command(
    list: &mut Vec<CommandRequest>,
    option: Option<&'static str>,
    refs: Vec<String>,
    requires_privilege: bool,
)
    ensures
        requests(final(list)@) == requests(old(list)@) + refs_command_of(
            match option {
                Some(o) => seq!["update"@, "-y"@, o@],
                None => seq!["update"@, "-y"@],
            },
            strings(refs@),
            requires_privilege,
        ),
{
    let ghost head = match option {
        Some(o) => seq!["update"@, "-y"@, o@],
        None => seq!["update"@, "-y"@],
    };
    let ghost before = list@;
    assert(strings(refs@).len() == refs@.len());
    if refs.len() == 0 {
        assert(requests(before) + refs_command_of(head, strings(refs@), requires_privilege)
            =~= requests(before));
        return;
    }
    let mut args: Vec<String> = Vec::new();
    args.push("update".to_string());
    args.push("-y".to_string());
    if let Some(o) = option {
        args.push(o.to_string());
    }
    assert(strings(args@) =~= head);
    let ghost first = args@;
    let ghost tail = refs@;
    let mut more = refs;
    args.append(&mut more);
    assert(strings(args@) =~= strings(first) + strings(tail));
    let request = CommandRequest { program: "flatpak".to_string(), args, requires_privilege };
    list.push(request);
    assert(requests(list@) =~= requests(before) + seq![request@]);
}

/// What comes next in an update of the Flatpaks among `list` by commands.
pub open spec fn flatpak_selected_of(
    list: Seq<EntryModel>,
    results: Seq<Result<ReportModel, Seq<char>>>,
) -> RunModel {
    let commands = flatpak_commands_of(list);
    if commands.len() == 0 {
        RunModel::Done(
            OutcomeModel {
                output: "No Flatpak updates selected.\n"@,
                status: StatusModel::Failed("No updates selected"@),
            },
        )
    } else {
        run_of(commands, results, Seq::empty(), false)
    }
}

/// What comes next in an update of the Flatpaks among `list` by commands.
pub fn run_flatpak_selected(
    list: &Vec<UpdateEntry>,
    results: &Vec<Result<CommandReport, String>>,
) -> (r: RunStep)
    ensures
        r@ == flatpak_selected_of(entries(list@), results_of(results@)),
{
    let mut commands: Vec<CommandRequest> = Vec::new();
    let user = chosen_refs(list, Some(InstallScope::User));
    push_refs_command(&mut commands, Some("--user"), user, false);
    let system = chosen_refs(list, Some(InstallScope::System));
    push_refs_command(&mut commands, Some("--system"), system, true);
    let unknown = chosen_refs(list, None);
    push_refs_command(&mut commands, None, unknown, false);
    assert(requests(commands@) =~= flatpak_commands_of(entries(list@)));
    assert(requests(commands@).len() == commands@.len());
    if commands.len() == 0 {
        return RunStep::Done(
            UpdateOutcome {
                output: "No Flatpak updates selected.\n".to_string(),
                status: TaskStatus::Failed("No updates selected".to_string()),
            },
        );
    }
    run_commands(&commands, results, false)
}

/// Flatpaks that are updated in one transaction.
#[derive(Debug)]
pub struct FlatpakGroup {
    /// Whether they are the user's, and not the system's.
    pub user: bool,
    pub refs: Vec<String>,
}

/// Flatpaks that are updated in one transaction, as characters.
pub struct GroupModel {
    pub user: bool,
    pub refs: Seq<Seq<char>>,
}

impl View for FlatpakGroup {
    type V = GroupModel;

    open spec fn view(&self) -> GroupModel {
        GroupModel { user: self.user, refs: strings(self.refs@) }
    }
}

/// The groups of `v`, as characters.
pub open spec fn groups(v: Seq<FlatpakGroup>) -> Seq<GroupModel> {
    Seq::new(v.len(), |i: int| v[i]@)
}

/// The group with these refs, if there are any.
pub open spec fn group_if(user: bool, refs: Seq<Seq<char>>) -> Seq<GroupModel> {
    if refs.len() == 0 {
        Seq::empty()
    } else {
        seq![GroupModel { user, refs }]
    }
}

/// The groups in which the Flatpaks among `list` are updated: the user's, the system's, and those
/// of which the scope is not known, first as the user's and then as the system's.
pub open spec fn groups_of(list: Seq<EntryModel>) -> Seq<GroupModel> {
    let unknown = chosen_refs_of(list, None);
    group_if(true, chosen_refs_of(list, Some(InstallScope::User))) + group_if(
        false,
        chosen_refs_of(list, Some(InstallScope::System)),
    ) + group_if(true, unknown) + group_if(false, unknown)
}

/// Appends the group with these refs, if there are any.
fn push_group(list: &mut Vec<FlatpakGroup>, user: bool, refs: Vec<String>)
    ensures
        groups(final(list)@) == groups(old(list)@) + group_if(user, strings(refs@)),
{
    let ghost before = list@;
    assert(strings(refs@).len() == refs@.len());
    if refs.len() > 0 {
        let group = FlatpakGroup { user, refs };
        list.push(group);
        assert(groups(list@) =~= groups(before) + seq![group@]);
    } else {
        assert(groups(before) + group_if(user, strings(refs@)) =~= groups(before));
    }
}

/// The groups in which the Flatpaks among `list` are updated.
pub fn flatpak_groups(list: &Vec<UpdateEntry>) -> (r: Vec<FlatpakGroup>)
    ensures
        groups(r@) == groups_of(entries(list@)),
{
    let mut out: Vec<FlatpakGroup> = Vec::new();
    push_group(&mut out, true, chosen_refs(list, Some(InstallScope::User)));
    push_group(&mut out, false, chosen_refs(list, Some(InstallScope::System)));
    let unknown = chosen_refs(list, None);
    let again = clone_strings(&unknown);
    push_group(&mut out, true, unknown);
    push_group(&mut out, false, again);
    assert(groups(out@) =~= groups_of(entries(list@)));
    out
}

/// What to do next in an update by transactions.
#[derive(Debug)]
pub enum FlatpakStep {
    /// Update this group; it is the `index`th of `count`, from zero.
    RunGroup { group: FlatpakGroup, index: usize, count: usize },
    /// Change the progress: the update has ended.
    Done { outcome: UpdateOutcome, progress: ProgressChange },
}

/// What to do next in an update by transactions, as characters.
pub enum FlatpakStepModel {
    RunGroup { group: GroupModel, index: int, count: int },
    Done { outcome: OutcomeModel, progress: ProgressChange },
}

impl View for FlatpakStep {
    type V = FlatpakStepModel;

    open spec fn view(&self) -> FlatpakStepModel {
        match self {
            FlatpakStep::RunGroup { group, index, count } => FlatpakStepModel::RunGroup {
                group: group@,
                index: *index as int,
                count: *count as int,
            },
            FlatpakStep::Done { outcome, progress } => FlatpakStepModel::Done {
                outcome: outcome@,
                progress: *progress,
            },
        }
    }
}

/// How many refs a transaction updated, or why it failed.
pub open spec fn count_of(r: Result<usize, String>) -> Result<int, Seq<char>> {
    match r {
        Ok(n) => Ok(n as int),
        Err(error) => Err(error@),
    }
}

/// What came of transactions, one after another.
pub open spec fn counts_of(v: Seq<Result<usize, String>>) -> Seq<Result<int, Seq<char>>> {
    Seq::new(v.len(), |i: int| count_of(v[i]))
}

/// What the log says of a transaction that updated refs.
pub open spec fn updated_line_of(user: bool, added: int) -> Seq<char> {
    if added <= 0 {
        Seq::empty()
    } else {
        "Updated "@ + decimal_of(added as nat) + " Flatpak refs ("@ + (if user {
            "user"@
        } else {
            "system"@
        }) + ").\n"@
    }
}

/// What comes next in an update of `list`, of which `index` groups are done. The first group that
/// fails ends it, and the progress is forgotten; where none fails, a hundred is reported.
pub open spec fn transactions_of(
    list: Seq<GroupModel>,
    results: Seq<Result<int, Seq<char>>>,
    index: int,
    output: Seq<char>,
) -> FlatpakStepModel
    decreases list.len() - index,
{
    if index < 0 || index >= list.len() {
        FlatpakStepModel::Done {
            outcome: OutcomeModel { output, status: StatusModel::Success },
            progress: ProgressChange::Complete,
        }
    } else if index >= results.len() {
        FlatpakStepModel::RunGroup { group: list[index], index, count: list.len() as int }
    } else {
        match results[index] {
            Ok(added) => transactions_of(
                list,
                results,
                index + 1,
                output + updated_line_of(list[index].user, added),
            ),
            Err(error) => FlatpakStepModel::Done {
                outcome: OutcomeModel {
                    output: output + error + "\n"@,
                    status: StatusModel::Failed(error),
                },
                progress: ProgressChange::Clear,
            },
        }
    }
}

/// What comes next in an update of the Flatpaks among `list` by transactions.
pub open spec fn flatpak_update_of(
    list: Seq<EntryModel>,
    results: Seq<Result<int, Seq<char>>>,
) -> FlatpakStepModel {
    let all = groups_of(list);
    let head = "$ flatpak update (libflatpak)\n"@;
    if all.len() == 0 {
        FlatpakStepModel::Done {
            outcome: OutcomeModel {
                output: head + "No Flatpak updates selected.\n"@,
                status: StatusModel::Failed("No updates selected"@),
            },
            progress: ProgressChange::Keep,
        }
    } else {
        transactions_of(all, results, 0, head)
    }
}

/// What comes next in an update of the Flatpaks among `list` by transactions, after these
/// results of the groups before.
pub fn flatpak_update_blocking(
    list: &Vec<UpdateEntry>,
    results: &Vec<Result<usize, String>>,
) -> (r: FlatpakStep)
    ensures
        r@ == flatpak_update_of(entries(list@), counts_of(results@)),
{
    let mut output = "$ flatpak update (libflatpak)\n".to_string();
    let all = flatpak_groups(list);
    let ghost gs = groups(all@);
    let ghost rs = counts_of(results@);
    assert(gs.len() == all@.len());
    if all.len() == 0 {
        output.append("No Flatpak updates selected.\n");
        return FlatpakStep::Done {
            outcome: UpdateOutcome {
                output,
                status: TaskStatus::Failed("No updates selected".to_string()),
            },
            progress: ProgressChange::Keep,
        };
    }
    let ghost head = output@;
    let mut i: usize = 0;
    while i < all.len()
        invariant
            i <= all@.len(),
            i <= results@.len(),
            gs == groups(all@),
            gs == groups_of(entries(list@)),
            gs.len() > 0,
            rs == counts_of(results@),
            head == "$ flatpak update (libflatpak)\n"@,
            transactions_of(gs, rs, 0, head) == transactions_of(gs, rs, i as int, output@),
        decreases all@.len() - i,
    {
        assert(gs[i as int] == all@[i as int]@);
        if i == results.len() {
            let group = FlatpakGroup { user: all[i].user, refs: clone_strings(&all[i].refs) };
            return FlatpakStep::RunGroup { group, index: i, count: all.len() };
        }
        assert(rs[i as int] == count_of(results@[i as int]));
        match &results[i] {
            Ok(added) => {
                let ghost before = output@;
                if *added > 0 {
                    output.append("Updated ");
                    let digits = decimal(*added as u64);
                    output.append(digits.as_str());
                    output.append(" Flatpak refs (");
                    if all[i].user {
                        output.append("user");
                    } else {
                        output.append("system");
                    }
                    output.append(").\n");
                }
                assert(output@ =~= before + updated_line_of(all@[i as int].user, *added as int));
            },
            Err(error) => {
                output.append(error.as_str());
                output.append("\n");
                return FlatpakStep::Done {
                    outcome: UpdateOutcome { output, status: TaskStatus::Failed(error.clone()) },
                    progress: ProgressChange::Clear,
                };
            },
        }
        i += 1;
    }
    FlatpakStep::Done {
        outcome: UpdateOutcome { output, status: TaskStatus::Success },
        progress: ProgressChange::Complete,
    }
}

/// An operation that a transaction is given for a ref that is installed.
#[derive(Debug)]
pub enum RefOperation {
    /// Put this successor in its place.
    Rebase(String),
    /// Take it away.
    Uninstall,
    /// Update it.
    Update,
}

/// An operation that a transaction is given for a ref, as characters.
pub enum OperationModel {
    Rebase(Seq<char>),
    Uninstall,
    Update,
}

impl View for RefOperation {
    type V = OperationModel;

    open spec fn view(&self) -> OperationModel {
        match self {
            RefOperation::Rebase(target) => OperationModel::Rebase(target@),
            RefOperation::Uninstall => OperationModel::Uninstall,
            RefOperation::Update => OperationModel::Update,
        }
    }
}

/// The operations of `v`, as characters.
pub open spec fn operations(v: Seq<RefOperation>) -> Seq<OperationModel> {
    Seq::new(v.len(), |i: int| v[i]@)
}

/// The operations that a ref that is installed gets, in turn: where a successor is named for it,
/// that is put in its place and the ref taken away; else it is updated.
pub open spec fn operations_of(eol_rebase: Option<Seq<char>>) -> Seq<OperationModel> {
    match eol_rebase {
        Some(target) => seq![OperationModel::Rebase(target), OperationModel::Uninstall],
        None => seq![OperationModel::Update],
    }
}

/// The operations that a ref that is installed gets, in turn.
pub fn ref_operations(eol_rebase: Option<String>) -> (r: Vec<RefOperation>)
    ensures
        operations(r@) == operations_of(opt_text(eol_rebase)),
{
    let r = match eol_rebase {
        Some(target) => vec![RefOperation::Rebase(target), RefOperation::Uninstall],
        None => vec![RefOperation::Update],
    };
    assert(operations(r@) =~= operations_of(opt_text(eol_rebase)));
    r
}

/// What came of adding one ref to a transaction.
#[derive(Debug)]
pub enum RefOutcome {
    /// It is no ref, for this reason.
    ParseFailed(String),
    /// It is not installed.
    NotInstalled,
    /// It has a successor, which could not be put in its place.
    RebaseFailed { target: String, message: Option<String> },
    /// It could not be added, for this reason.
    AddFailed(String),
    /// It was given all its operations.
    Added,
}

/// What to do next with the refs of a transaction.
#[derive(Debug)]
pub enum RefStep {
    /// Add this ref.
    Add(String),
    /// Run the transaction, to which this many refs were added.
    Run(usize),
    /// Nothing: no ref was added.
    Nothing,
    /// Nothing: the transaction failed, for this reason.
    Fail(String),
}

/// What to do next with the refs of a transaction, as characters.
pub enum RefModel {
    Add(Seq<char>),
    Run(int),
    Nothing,
    Fail(Seq<char>),
}

impl View for RefStep {
    type V = RefModel;

    open spec fn view(&self) -> RefModel {
        match self {
            RefStep::Add(r) => RefModel::Add(r@),
            RefStep::Run(n) => RefModel::Run(*n as int),
            RefStep::Nothing => RefModel::Nothing,
            RefStep::Fail(reason) => RefModel::Fail(reason@),
        }
    }
}

/// Why a transaction ends with a ref, where it does.
pub open spec fn ref_failure_of(name: Seq<char>, outcome: RefOutcome) -> Option<Seq<char>> {
    match outcome {
        RefOutcome::ParseFailed(error) => Some(
            "failed to parse flatpak ref "@ + name + ": "@ + error@,
        ),
        RefOutcome::RebaseFailed { target, message } => Some(
            "failed to rebase "@ + name + " to "@ + target@ + ": "@ + match message {
                Some(m) => m@,
                None => "unspecified error"@,
            },
        ),
        RefOutcome::AddFailed(error) => Some(error@),
        RefOutcome::NotInstalled | RefOutcome::Added => None,
    }
}

/// What comes next with `refs`, of which `index` are done and `added` were added.
pub open spec fn ref_step_of(
    refs: Seq<Seq<char>>,
    outcomes: Seq<RefOutcome>,
    index: int,
    added: int,
) -> RefModel
    decreases refs.len() - index,
{
    if index < 0 || index >= refs.len() {
        if added == 0 {
            RefModel::Nothing
        } else {
            RefModel::Run(added)
        }
    } else if index >= outcomes.len() {
        RefModel::Add(refs[index])
    } else {
        match ref_failure_of(refs[index], outcomes[index]) {
            Some(reason) => RefModel::Fail(reason),
            None => ref_step_of(
                refs,
                outcomes,
                index + 1,
                if outcomes[index] is Added {
                    added + 1
                } else {
                    added
                },
            ),
        }
    }
}

/// Why a transaction ends with a ref, where it does.
fn ref_failure(name: &String, outcome: &RefOutcome) -> (r: Option<String>)
    ensures
        match r {
            Some(reason) => ref_failure_of(name@, *outcome) == Some(reason@),
            None => ref_failure_of(name@, *outcome) is None,
        },
{
    match outcome {
        RefOutcome::ParseFailed(error) => {
            let mut message = "failed to parse flatpak ref ".to_string();
            message.append(name.as_str());
            message.append(": ");
            message.append(error.as_str());
            Some(message)
        },
        RefOutcome::RebaseFailed { target, message } => {
            let mut text = "failed to rebase ".to_string();
            text.append(name.as_str());
            text.append(" to ");
            text.append(target.as_str());
            text.append(": ");
            match message {
                Some(m) => text.append(m.as_str()),
                None => text.append("unspecified error"),
            }
            Some(text)
        },
        RefOutcome::AddFailed(error) => Some(error.clone()),
        RefOutcome::NotInstalled => None,
        RefOutcome::Added => None,
    }
}

/// What comes next with the refs of a transaction, after these outcomes of the refs before. Refs
/// that are not installed are passed over.
pub fn add_flatpak_updates(refs: &Vec<String>, outcomes: &Vec<RefOutcome>) -> (r: RefStep)
    ensures
        r@ == ref_step_of(strings(refs@), outcomes@, 0, 0),
{
    let mut added: usize = 0;
    let mut i: usize = 0;
    let ghost names = strings(refs@);
    while i < refs.len()
        invariant
            added <= i <= refs@.len(),
            i <= outcomes@.len(),
            names == strings(refs@),
            ref_step_of(names, outcomes@, 0, 0) == ref_step_of(
                names,
                outcomes@,
                i as int,
                added as int,
            ),
        decreases refs@.len() - i,
    {
        if i == outcomes.len() {
            return RefStep::Add(refs[i].clone());
        }
        if let Some(reason) = ref_failure(&refs[i], &outcomes[i]) {
            return RefStep::Fail(reason);
        }
        match &outcomes[i] {
            RefOutcome::Added => {
                added += 1;
            },
            _ => {},
        }
        i += 1;
    }
    if added == 0 {
        RefStep::Nothing
    } else {
        RefStep::Run(added)
    }
}

/// The refs of a scope are those of the Flatpaks that have it.
proof fn lemma_refs_in(list: Seq<EntryModel>, scope: Option<InstallScope>, name: Seq<char>)
    ensures
        refs_in(list, scope).contains(name) <==> exists|i: int|
            0 <= i < list.len() && (#[trigger] list[i]).manager == ManagerId::Flatpak
                && list[i].scope == scope && list[i].id == name,
    decreases list.len(),
{
    if list.len() > 0 {
        let front = list.drop_last();
        lemma_refs_in(front, scope, name);
        let r = refs_in(list, scope);
        let f = refs_in(front, scope);
        if r.contains(name) {
            let k = r.index_of(name);
            if k < f.len() {
                assert(f[k] == name);
                let i = choose|i: int|
                    0 <= i < front.len() && (#[trigger] front[i]).manager == ManagerId::Flatpak
                        && front[i].scope == scope && front[i].id == name;
                assert(list[i] == front[i]);
            } else {
                assert(list[list.len() - 1].id == name);
            }
        }
        if exists|i: int|
            0 <= i < list.len() && (#[trigger] list[i]).manager == ManagerId::Flatpak
                && list[i].scope == scope && list[i].id == name {
            let i = choose|i: int|
                0 <= i < list.len() && (#[trigger] list[i]).manager == ManagerId::Flatpak
                    && list[i].scope == scope && list[i].id == name;
            if i < front.len() {
                assert(front[i] == list[i]);
                assert(f.contains(name));
                assert(r[f.index_of(name)] == name);
            } else {
                assert(r[f.len() as int] == name);
            }
        }
    }
}

/// Whether `name` is updated for the user, or for the system.
pub open spec fn grouped(list: Seq<GroupModel>, user: bool, name: Seq<char>) -> bool {
    exists|g: int|
        0 <= g < list.len() && (#[trigger] list[g]).user == user && list[g].refs.contains(name)
}

/// Whether `name` is a Flatpak among `list` that has this scope.
pub open spec fn chosen(
    list: Seq<EntryModel>,
    scope: Option<InstallScope>,
    name: Seq<char>,
) -> bool {
    exists|i: int|
        0 <= i < list.len() && (#[trigger] list[i]).manager == ManagerId::Flatpak && list[i].scope
            == scope && list[i].id == name
}

/// What is updated for the user is what is chosen with the user's scope or none, and what is
/// updated for the system is what is chosen with the system's scope or none.
pub proof fn law_groups_cover(list: Seq<EntryModel>, name: Seq<char>)
    ensures
        grouped(groups_of(list), true, name) <==> chosen(list, Some(InstallScope::User), name)
            || chosen(list, None, name),
        grouped(groups_of(list), false, name) <==> chosen(list, Some(InstallScope::System), name)
            || chosen(list, None, name),
{
    let all = groups_of(list);
    let user = chosen_refs_of(list, Some(InstallScope::User));
    let system = chosen_refs_of(list, Some(InstallScope::System));
    let unknown = chosen_refs_of(list, None);
    law_sorted(refs_in(list, Some(InstallScope::User)));
    law_sorted(refs_in(list, Some(InstallScope::System)));
    law_sorted(refs_in(list, None));
    lemma_refs_in(list, Some(InstallScope::User), name);
    lemma_refs_in(list, Some(InstallScope::System), name);
    lemma_refs_in(list, None, name);
    assert(user.contains(name) <==> refs_in(list, Some(InstallScope::User)).contains(name));
    assert(system.contains(name) <==> refs_in(list, Some(InstallScope::System)).contains(name));
    assert(unknown.contains(name) <==> refs_in(list, None).contains(name));
    let a = group_if(true, user);
    let b = group_if(false, system);
    let c = group_if(true, unknown);
    let d = group_if(false, unknown);
    assert(all == a + b + c + d);
    if user.contains(name) {
        assert(user.len() > 0);
        assert(all[0].user && all[0].refs.contains(name));
    }
    if system.contains(name) {
        assert(system.len() > 0);
        assert(!all[a.len() as int].user && all[a.len() as int].refs.contains(name));
    }
    if unknown.contains(name) {
        assert(unknown.len() > 0);
        let g = (a.len() + b.len()) as int;
        assert(all[g].user && all[g].refs.contains(name));
        assert(!all[g + 1].user && all[g + 1].refs.contains(name));
    }
}

/// Whether a command with these arguments at its head, and this privilege, names `name`.
pub open spec fn named(
    commands: Seq<CommandModel>,
    head: Seq<Seq<char>>,
    requires_privilege: bool,
    name: Seq<char>,
) -> bool {
    exists|i: int, refs: Seq<Seq<char>>|
        0 <= i < commands.len() && #[trigger] commands[i] == command(
            "flatpak"@,
            #[trigger] (head + refs),
            requires_privilege,
        ) && refs.contains(name)
}

/// The Flatpaks that are chosen are named in the commands: those of the user without privilege,
/// those of the system with it, and those of which the scope is not known without either option.
pub proof fn law_commands_name_chosen(list: Seq<EntryModel>, name: Seq<char>)
    ensures
        chosen(list, Some(InstallScope::User), name) ==> named(
            flatpak_commands_of(list),
            seq!["update"@, "-y"@, "--user"@],
            false,
            name,
        ),
        chosen(list, Some(InstallScope::System), name) ==> named(
            flatpak_commands_of(list),
            seq!["update"@, "-y"@, "--system"@],
            true,
            name,
        ),
        chosen(list, None, name) ==> named(
            flatpak_commands_of(list),
            seq!["update"@, "-y"@],
            false,
            name,
        ),
{
    let user = chosen_refs_of(list, Some(InstallScope::User));
    let system = chosen_refs_of(list, Some(InstallScope::System));
    let unknown = chosen_refs_of(list, None);
    law_sorted(refs_in(list, Some(InstallScope::User)));
    law_sorted(refs_in(list, Some(InstallScope::System)));
    law_sorted(refs_in(list, None));
    lemma_refs_in(list, Some(InstallScope::User), name);
    lemma_refs_in(list, Some(InstallScope::System), name);
    lemma_refs_in(list, None, name);
    let user_head = seq!["update"@, "-y"@, "--user"@];
    let system_head = seq!["update"@, "-y"@, "--system"@];
    let head = seq!["update"@, "-y"@];
    let a = refs_command_of(user_head, user, false);
    let b = refs_command_of(system_head, system, true);
    let all = flatpak_commands_of(list);
    if chosen(list, Some(InstallScope::User), name) {
        assert(user.contains(name));
        assert(all[0] == command("flatpak"@, user_head + user, false));
    }
    if chosen(list, Some(InstallScope::System), name) {
        assert(system.contains(name));
        assert(all[a.len() as int] == command("flatpak"@, system_head + system, true));
    }
    if chosen(list, None, name) {
        assert(unknown.contains(name));
        assert(all[(a.len() + b.len()) as int] == command("flatpak"@, head + unknown, false));
    }
}

/// The arguments before the refs of the command that updates Flatpaks of a scope.
pub open spec fn scope_head(scope: Option<InstallScope>) -> Seq<Seq<char>> {
    match scope {
        Some(InstallScope::User) => seq!["update"@, "-y"@, "--user"@],
        Some(InstallScope::System) => seq!["update"@, "-y"@, "--system"@],
        None => seq!["update"@, "-y"@],
    }
}

/// Every command names Flatpaks of one scope, with the option and the privilege of that scope,
/// and none that is not chosen with it; it names them in order, each once, and at least one. Where
/// none is chosen, there is no command.
pub proof fn law_commands_name_no_others(list: Seq<EntryModel>, i: int)
    requires
        0 <= i < flatpak_commands_of(list).len(),
    ensures
        exists|scope: Option<InstallScope>, refs: Seq<Seq<char>>|
            flatpak_commands_of(list)[i] == (CommandModel {
                program: "flatpak"@,
                args: #[trigger] (scope_head(scope) + refs),
                requires_privilege: scope == Some(InstallScope::System),
            }) && refs.len() > 0 && increasing(refs) && forall|k: int|
                0 <= k < refs.len() ==> chosen(list, scope, #[trigger] refs[k]),
{
    let user = chosen_refs_of(list, Some(InstallScope::User));
    let system = chosen_refs_of(list, Some(InstallScope::System));
    let unknown = chosen_refs_of(list, None);
    lemma_only_chosen(list, Some(InstallScope::User));
    lemma_only_chosen(list, Some(InstallScope::System));
    lemma_only_chosen(list, None);
    let a = refs_command_of(scope_head(Some(InstallScope::User)), user, false);
    let b = refs_command_of(scope_head(Some(InstallScope::System)), system, true);
    let c = refs_command_of(scope_head(None), unknown, false);
    let all = flatpak_commands_of(list);
    assert(all == a + b + c);
    if i < a.len() {
        assert(all[i] == a[0]);
        assert(a[0].args == scope_head(Some(InstallScope::User)) + user);
    } else if i < a.len() + b.len() {
        assert(all[i] == b[0]);
        assert(b[0].args == scope_head(Some(InstallScope::System)) + system);
    } else {
        assert(all[i] == c[0]);
        assert(c[0].args == scope_head(None) + unknown);
    }
}

/// The refs of a scope are chosen with it, and in order.
proof fn lemma_only_chosen(list: Seq<EntryModel>, scope: Option<InstallScope>)
    ensures
        increasing(chosen_refs_of(list, scope)),
        forall|k: int|
            0 <= k < chosen_refs_of(list, scope).len() ==> chosen(
                list,
                scope,
                #[trigger] chosen_refs_of(list, scope)[k],
            ),
{
    let refs = chosen_refs_of(list, scope);
    law_sorted(refs_in(list, scope));
    assert forall|k: int| 0 <= k < refs.len() implies chosen(list, scope, #[trigger] refs[k]) by {
        assert(refs.contains(refs[k]));
        lemma_refs_in(list, scope, refs[k]);
    }
}

/// Chosen Flatpaks are updated by the commands that name them, one after another. To choose none
/// is an error, and no command runs.
pub proof fn law_flatpak_selected(
    list: Seq<EntryModel>,
    results: Seq<Result<ReportModel, Seq<char>>>,
)
    ensures
        flatpak_commands_of(list).len() > 0 ==> flatpak_selected_of(list, results) == run_of(
            flatpak_commands_of(list),
            results,
            Seq::empty(),
            false,
        ),
        flatpak_commands_of(list).len() == 0 ==> flatpak_selected_of(list, results)
            == RunModel::Done(
            OutcomeModel {
                output: "No Flatpak updates selected.\n"@,
                status: StatusModel::Failed("No updates selected"@),
            },
        ),
        flatpak_commands_of(list).len() == 0 <==> forall|i: int|
            0 <= i < list.len() ==> (#[trigger] list[i]).manager != ManagerId::Flatpak,
{
    let user = chosen_refs_of(list, Some(InstallScope::User));
    let system = chosen_refs_of(list, Some(InstallScope::System));
    let unknown = chosen_refs_of(list, None);
    if flatpak_commands_of(list).len() == 0 {
        assert forall|i: int| 0 <= i < list.len() implies (#[trigger] list[i]).manager
            != ManagerId::Flatpak by {
            if list[i].manager == ManagerId::Flatpak {
                let scope = list[i].scope;
                lemma_refs_in(list, scope, list[i].id);
                law_sorted(refs_in(list, scope));
                let refs = chosen_refs_of(list, scope);
                assert(refs.contains(list[i].id));
                assert(refs.len() > 0);
                match scope {
                    Some(InstallScope::User) => assert(refs == user),
                    Some(InstallScope::System) => assert(refs == system),
                    None => assert(refs == unknown),
                }
            }
        }
    } else {
        lemma_only_chosen(list, Some(InstallScope::User));
        lemma_only_chosen(list, Some(InstallScope::System));
        lemma_only_chosen(list, None);
        if user.len() > 0 {
            assert(chosen(list, Some(InstallScope::User), user[0]));
        } else if system.len() > 0 {
            assert(chosen(list, Some(InstallScope::System), system[0]));
        } else {
            assert(chosen(list, None, unknown[0]));
        }
    }
}

/// Groups are updated one after another. Where one was updated, the log tells how many refs were,
/// if any, and for whom; the first that fails ends the update, and after the last one it has ended
/// well.
pub proof fn law_groups_in_turn(
    list: Seq<GroupModel>,
    results: Seq<Result<int, Seq<char>>>,
    i: int,
    output: Seq<char>,
)
    requires
        0 <= i <= list.len(),
    ensures
        i == list.len() ==> transactions_of(list, results, i, output) == (FlatpakStepModel::Done {
            outcome: OutcomeModel { output, status: StatusModel::Success },
            progress: ProgressChange::Complete,
        }),
        i < list.len() && i >= results.len() ==> transactions_of(list, results, i, output) == (
        FlatpakStepModel::RunGroup { group: list[i], index: i, count: list.len() as int }),
        i < list.len() && i < results.len() ==> transactions_of(list, results, i, output)
            == match results[i] {
            Ok(count) => transactions_of(
                list,
                results,
                i + 1,
                if count > 0 {
                    output + ("Updated "@ + decimal_of(count as nat) + (if list[i].user {
                        " Flatpak refs ("@ + "user"@
                    } else {
                        " Flatpak refs ("@ + "system"@
                    }) + ").\n"@)
                } else {
                    output
                },
            ),
            Err(error) => FlatpakStepModel::Done {
                outcome: OutcomeModel {
                    output: output + error + "\n"@,
                    status: StatusModel::Failed(error),
                },
                progress: ProgressChange::Clear,
            },
        },
{
    if i < list.len() && i < results.len() {
        if let Ok(count) = results[i] {
            let whom = if list[i].user {
                "user"@
            } else {
                "system"@
            };
            assert("Updated "@ + decimal_of(count as nat) + (" Flatpak refs ("@ + whom) + ").\n"@
                =~= "Updated "@ + decimal_of(count as nat) + " Flatpak refs ("@ + whom + ").\n"@);
            assert(output + Seq::<char>::empty() =~= output);
        }
    }
}

/// To choose no Flatpak is an error; else the groups are updated from the first on.
pub proof fn law_flatpak_update(list: Seq<EntryModel>, results: Seq<Result<int, Seq<char>>>)
    ensures
        groups_of(list).len() == 0 ==> flatpak_update_of(list, results) == (FlatpakStepModel::Done {
            outcome: OutcomeModel {
                output: "$ flatpak update (libflatpak)\n"@ + "No Flatpak updates selected.\n"@,
                status: StatusModel::Failed("No updates selected"@),
            },
            progress: ProgressChange::Keep,
        }),
        groups_of(list).len() > 0 ==> flatpak_update_of(list, results) == transactions_of(
            groups_of(list),
            results,
            0,
            "$ flatpak update (libflatpak)\n"@,
        ),
{
}

/// Refs are added one after another. One that is not installed is passed over and not counted; one
/// that is no ref, cannot be added, or cannot be rebased ends the transaction. After the last one
/// the transaction runs, if any was added.
pub proof fn law_refs_in_turn(
    refs: Seq<Seq<char>>,
    outcomes: Seq<RefOutcome>,
    i: int,
    added: int,
)
    requires
        0 <= i <= refs.len(),
    ensures
        i == refs.len() ==> ref_step_of(refs, outcomes, i, added) == if added == 0 {
            RefModel::Nothing
        } else {
            RefModel::Run(added)
        },
        i < refs.len() && i >= outcomes.len() ==> ref_step_of(refs, outcomes, i, added)
            == RefModel::Add(refs[i]),
        i < refs.len() && i < outcomes.len() ==> ref_step_of(refs, outcomes, i, added)
            == match outcomes[i] {
            RefOutcome::Added => ref_step_of(refs, outcomes, i + 1, added + 1),
            RefOutcome::NotInstalled => ref_step_of(refs, outcomes, i + 1, added),
            RefOutcome::AddFailed(error) => RefModel::Fail(error@),
            RefOutcome::ParseFailed(error) => RefModel::Fail(
                "failed to parse flatpak ref "@ + refs[i] + ": "@ + error@,
            ),
            RefOutcome::RebaseFailed { target, message } => RefModel::Fail(
                "failed to rebase "@ + refs[i] + " to "@ + target@ + ": "@ + (if message is Some {
                    message->0@
                } else {
                    "unspecified error"@
                }),
            ),
        },
{
}

/// A ref that has a successor is not updated: the successor is put in its place, and then the ref
/// is taken away. Any other ref is updated, and nothing else.
pub proof fn law_operations(target: Seq<char>)
    ensures
        operations_of(Some(target)).len() == 2,
        operations_of(Some(target))[0] == OperationModel::Rebase(target),
        operations_of(Some(target))[1] is Uninstall,
        operations_of(None).len() == 1,
        operations_of(None)[0] is Update,
{
}

/// No group is empty, and each names its refs in order, each once.
pub proof fn law_groups_in_order(list: Seq<EntryModel>, i: int)
    requires
        0 <= i < groups_of(list).len(),
    ensures
        groups_of(list)[i].refs.len() > 0,
        increasing(groups_of(list)[i].refs),
{
    lemma_only_chosen(list, Some(InstallScope::User));
    lemma_only_chosen(list, Some(InstallScope::System));
    lemma_only_chosen(list, None);
}

} // verus!
