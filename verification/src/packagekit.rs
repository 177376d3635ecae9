//! Updating through PackageKit.

use crate::number::{decimal, decimal_of, is_digit, law_unsigned_round_trip, lemma_decimal};
use crate::order::{increasing, law_sorted, sort_dedup, sorted_of};
use crate::parse::{before_char, take_before, upgrade_count_of, upgraded_any};
use crate::progress::ProgressChange;
use crate::text::{
    chars_of, clone_strings, is_white_space, lacks, lemma_find_is, lemma_line, lemma_lines_add,
    lemma_words_cons, lemma_words_one, lines_of, same_text, string_of, strings, words_of,
};
use crate::updates::{OutcomeModel, StatusModel, TaskStatus, UpdateOutcome};
use vstd::prelude::*;

verus! {

/// The name in a package id such as `name;version;arch;repo`.
pub open spec fn package_name_of(package_id: Seq<char>) -> Seq<char> {
    before_char(package_id, ';')
}

/// Whether a package is among those to update: it has a name, and where names are given, one of
/// them.
pub open spec fn wanted(package_id: Seq<char>, names: Option<Seq<Seq<char>>>) -> bool {
    let name = package_name_of(package_id);
    name.len() > 0 && (names matches Some(list) ==> list.contains(name))
}

/// The packages that are among those to update, as they come.
pub open spec fn wanted_of(
    packages: Seq<Seq<char>>,
    names: Option<Seq<Seq<char>>>,
) -> Seq<Seq<char>>
    decreases packages.len(),
{
    if packages.len() == 0 {
        Seq::empty()
    } else if wanted(packages.last(), names) {
        wanted_of(packages.drop_last(), names).push(packages.last())
    } else {
        wanted_of(packages.drop_last(), names)
    }
}

/// The ids of the packages to update, in order, each once. To find none of the names given is an
/// error.
pub open spec fn update_ids_of(
    packages: Seq<Seq<char>>,
    names: Option<Seq<Seq<char>>>,
) -> Result<Seq<Seq<char>>, Seq<char>> {
    let ids = sorted_of(wanted_of(packages, names));
    match names {
        Some(list) => if ids.len() == 0 && list.len() > 0 {
            Err("No updates selected."@)
        } else {
            Ok(ids)
        },
        None => Ok(ids),
    }
}

/// Names, if there are any.
pub open spec fn opt_strings(v: Option<Vec<String>>) -> Option<Seq<Seq<char>>> {
    match v {
        Some(list) => Some(strings(list@)),
        None => None,
    }
}

/// Whether `name` is one of `list`.
fn has_name(list: &Vec<String>, name: &str) -> (r: bool)
    ensures
        r == strings(list@).contains(name@),
{
    let ghost all = strings(list@);
    let mut i: usize = 0;
    while i < list.len()
        invariant
            i <= list@.len(),
            all == strings(list@),
            forall|j: int| 0 <= j < i ==> #[trigger] all[j] != name@,
        decreases list@.len() - i,
    {
        if same_text(list[i].as_str(), name) {
            assert(all[i as int] == name@);
            return true;
        }
        i += 1;
    }
    false
}

/// The ids of the packages to update, in order, each once.
pub fn collect_update_ids(
    packages: &Vec<String>,
    names: &Option<Vec<String>>,
) -> (r: Result<Vec<String>, String>)
    ensures
        match r {
            Ok(ids) => update_ids_of(strings(packages@), opt_strings(*names)) == Ok::<
                Seq<Seq<char>>,
                Seq<char>,
            >(strings(ids@)),
            Err(error) => update_ids_of(strings(packages@), opt_strings(*names)) == Err::<
                Seq<Seq<char>>,
                Seq<char>,
            >(error@),
        },
{
    let ghost all = strings(packages@);
    let ghost filter = opt_strings(*names);
    let mut found: Vec<String> = Vec::new();
    let mut i: usize = 0;
    assert(strings(found@) =~= wanted_of(all.take(0), filter));
    while i < packages.len()
        invariant
            i <= packages@.len(),
            all == strings(packages@),
            filter == opt_strings(*names),
            strings(found@) == wanted_of(all.take(i as int), filter),
        decreases packages@.len() - i,
    {
        let ghost before = found@;
        assert(all.take(i + 1).drop_last() =~= all.take(i as int));
        assert(all.take(i + 1).last() == packages@[i as int]@);
        let chars = chars_of(packages[i].as_str());
        let name = take_before(&chars, ';');
        let listed = match names {
            Some(list) => has_name(list, string_of(name).as_str()),
            None => true,
        };
        if name.len() > 0 && listed {
            found.push(packages[i].clone());
            assert(strings(found@) =~= strings(before).push(packages@[i as int]@));
        }
        i += 1;
    }
    assert(all.take(all.len() as int) =~= all);
    let ids = sort_dedup(&found);
    assert(strings(ids@).len() == ids@.len());
    if let Some(list) = names {
        assert(strings(list@).len() == list@.len());
        if ids.len() == 0 && list.len() > 0 {
            return Err("No updates selected.".to_string());
        }
    }
    Ok(ids)
}

/// What a transaction of PackageKit signals.
#[derive(Debug)]
pub enum Signal {
    /// A package.
    Package { package_id: String },
    /// How far one package has come.
    ItemProgress { percentage: u32 },
    /// An error.
    ErrorCode { code: u32, details: String },
    /// The end.
    Finished,
    /// Anything else.
    Other,
}

/// What to do after a signal.
#[derive(Debug)]
pub enum SignalStep {
    /// Wait for the next.
    Continue,
    /// Report this percentage, and wait for the next.
    Report(u32),
    /// Stop: all has been signalled.
    Stop,
    /// Stop: the transaction failed, for this reason.
    Fail(String),
}

/// The error that is no reason to stop.
pub const HARMLESS_ERROR_CODE: u32 = 48;

/// What an error of a transaction is called.
pub open spec fn error_message_of(code: u32, details: Seq<char>) -> Seq<char> {
    details + " (code "@ + decimal_of(code as nat) + ")"@
}

/// What to do after a signal, as characters.
pub enum SignalModel {
    Continue,
    Report(u32),
    Stop,
    Fail(Seq<char>),
}

impl View for SignalStep {
    type V = SignalModel;

    open spec fn view(&self) -> SignalModel {
        match self {
            SignalStep::Continue => SignalModel::Continue,
            SignalStep::Report(percentage) => SignalModel::Report(*percentage),
            SignalStep::Stop => SignalModel::Stop,
            SignalStep::Fail(reason) => SignalModel::Fail(reason@),
        }
    }
}

/// What to do after an error.
pub open spec fn error_step_of(code: u32, details: Seq<char>) -> SignalModel {
    if code == HARMLESS_ERROR_CODE {
        SignalModel::Continue
    } else {
        SignalModel::Fail(error_message_of(code, details))
    }
}

/// What to do after a signal of a transaction that lists packages.
pub open spec fn collect_step_of(signal: Signal) -> SignalModel {
    match signal {
        Signal::ErrorCode { code, details } => error_step_of(code, details@),
        Signal::Finished => SignalModel::Stop,
        _ => SignalModel::Continue,
    }
}

/// What to do after a signal of a transaction that updates packages and says, or not, how far it
/// has come.
pub open spec fn update_step_of(signal: Signal, total: Option<u32>) -> SignalModel {
    match signal {
        Signal::ItemProgress { percentage } => SignalModel::Report(
            match total {
                Some(t) => t,
                None => percentage,
            },
        ),
        Signal::ErrorCode { code, details } => error_step_of(code, details@),
        Signal::Finished => SignalModel::Stop,
        _ => SignalModel::Continue,
    }
}

/// A transaction goes on until it has finished or an error comes up; the error with the code 48 is
/// no reason to stop, and any other is told with its code. A transaction that updates reports how
/// far it has come as a whole, or, where that is not known, how far a package has.
pub proof fn law_signals(signal: Signal, total: Option<u32>)
    ensures
        collect_step_of(signal) is Stop <==> signal is Finished,
        update_step_of(signal, total) is Stop <==> signal is Finished,
        collect_step_of(signal) is Fail <==> (signal matches Signal::ErrorCode { code, .. } && code
            != 48),
        update_step_of(signal, total) is Fail <==> (signal matches Signal::ErrorCode { code, .. }
            && code != 48),
        signal matches Signal::ErrorCode { code, details } ==> code != 48 ==> collect_step_of(
            signal,
        ) == SignalModel::Fail(details@ + " (code "@ + decimal_of(code as nat) + ")"@)
            && update_step_of(signal, total) == collect_step_of(signal),
        !(collect_step_of(signal) is Report),
        update_step_of(signal, total) is Report <==> signal is ItemProgress,
        signal matches Signal::ItemProgress { percentage } ==> update_step_of(signal, total)
            == SignalModel::Report(
            if total is Some {
                total->0
            } else {
                percentage
            },
        ),
{
}

/// What to do after an error.
fn on_error(code: u32, details: &String) -> (r: SignalStep)
    ensures
        r@ == error_step_of(code, details@),
{
    if code == HARMLESS_ERROR_CODE {
        SignalStep::Continue
    } else {
        let mut reason = details.clone();
        reason.append(" (code ");
        let digits = decimal(code as u64);
        reason.append(digits.as_str());
        reason.append(")");
        SignalStep::Fail(reason)
    }
}

/// Takes a signal of a transaction that lists packages, and notes the package, if it is one.
pub fn transaction_collect_packages(packages: &mut Vec<String>, signal: Signal) -> (r: SignalStep)
    ensures
        r@ == collect_step_of(signal),
        final(packages)@ == match signal {
            Signal::Package { package_id } => old(packages)@.push(package_id),
            _ => old(packages)@,
        },
{
    match signal {
        Signal::Package { package_id } => {
            packages.push(package_id);
            SignalStep::Continue
        },
        Signal::ErrorCode { code, details } => on_error(code, &details),
        Signal::Finished => SignalStep::Stop,
        _ => SignalStep::Continue,
    }
}

/// Takes a signal of a transaction that updates packages. `total` is how far the transaction
/// says that it has come; where it says nothing, the package's own percentage is reported.
pub fn transaction_run_with_progress(signal: &Signal, total: Option<u32>) -> (r: SignalStep)
    ensures
        r@ == update_step_of(*signal, total),
{
    match signal {
        Signal::ItemProgress { percentage } => match total {
            Some(t) => SignalStep::Report(t),
            None => SignalStep::Report(*percentage),
        },
        Signal::ErrorCode { code, details } => on_error(*code, details),
        Signal::Finished => SignalStep::Stop,
        _ => SignalStep::Continue,
    }
}

/// What to do next in an update through PackageKit.
#[derive(Debug)]
pub enum PackageKitStep {
    /// Find the ids of the packages to update.
    Collect,
    /// Change the progress, and update the packages with these ids.
    Update { ids: Vec<String>, progress: ProgressChange },
    /// Change the progress: the update has ended.
    Done { outcome: UpdateOutcome, progress: ProgressChange },
}

/// What to do next in an update through PackageKit, as characters.
pub enum PackageKitModel {
    Collect,
    Update { ids: Seq<Seq<char>>, progress: ProgressChange },
    Done { outcome: OutcomeModel, progress: ProgressChange },
}

impl View for PackageKitStep {
    type V = PackageKitModel;

    open spec fn view(&self) -> PackageKitModel {
        match self {
            PackageKitStep::Collect => PackageKitModel::Collect,
            PackageKitStep::Update { ids, progress } => PackageKitModel::Update {
                ids: strings(ids@),
                progress: *progress,
            },
            PackageKitStep::Done { outcome, progress } => PackageKitModel::Done {
                outcome: outcome@,
                progress: *progress,
            },
        }
    }
}

/// The line at the head of the log of an update through PackageKit.
pub open spec fn packagekit_head() -> Seq<char> {
    "$ packagekit update\n"@
}

/// What the log says of an update of `count` packages.
pub open spec fn upgraded_line_of(count: nat) -> Seq<char> {
    decimal_of(count) + " upgraded, 0 newly installed, 0 to remove and 0 not upgraded.\n"@
}

/// The end of an update that failed.
pub open spec fn packagekit_failed(reason: Seq<char>, progress: ProgressChange) -> PackageKitModel {
    PackageKitModel::Done {
        outcome: OutcomeModel {
            output: packagekit_head() + reason + "\n"@,
            status: StatusModel::Failed(reason),
        },
        progress,
    }
}

/// What comes next in an update through PackageKit, where the ids were found or not, and the
/// packages updated or not.
pub open spec fn packagekit_of(
    collected: Option<Result<Seq<Seq<char>>, Seq<char>>>,
    updated: Option<Result<(), Seq<char>>>,
) -> PackageKitModel {
    match collected {
        None => PackageKitModel::Collect,
        Some(Err(reason)) => packagekit_failed(reason, ProgressChange::Keep),
        Some(Ok(ids)) => if ids.len() == 0 {
            PackageKitModel::Done {
                outcome: OutcomeModel {
                    output: packagekit_head() + "No updates available.\n"@,
                    status: StatusModel::Success,
                },
                progress: ProgressChange::Clear,
            }
        } else {
            match updated {
                None => PackageKitModel::Update { ids, progress: ProgressChange::Start },
                Some(Ok(_)) => PackageKitModel::Done {
                    outcome: OutcomeModel {
                        output: packagekit_head() + upgraded_line_of(ids.len()),
                        status: StatusModel::Success,
                    },
                    progress: ProgressChange::Complete,
                },
                Some(Err(reason)) => packagekit_failed(reason, ProgressChange::Clear),
            }
        },
    }
}

/// The ids that were found, as characters.
pub open spec fn collected_of(
    r: Option<Result<Vec<String>, String>>,
) -> Option<Result<Seq<Seq<char>>, Seq<char>>> {
    match r {
        Some(Ok(ids)) => Some(Ok(strings(ids@))),
        Some(Err(reason)) => Some(Err(reason@)),
        None => None,
    }
}

/// What came of an update, as characters.
pub open spec fn updated_of(r: Option<Result<(), String>>) -> Option<Result<(), Seq<char>>> {
    match r {
        Some(Ok(_)) => Some(Ok(())),
        Some(Err(reason)) => Some(Err(reason@)),
        None => None,
    }
}

/// The end of an update that failed.
fn failed(reason: &String, progress: ProgressChange) -> (r: PackageKitStep)
    ensures
        r@ == packagekit_failed(reason@, progress),
{
    let mut output = "$ packagekit update\n".to_string();
    output.append(reason.as_str());
    output.append("\n");
    PackageKitStep::Done {
        outcome: UpdateOutcome { output, status: TaskStatus::Failed(reason.clone()) },
        progress,
    }
}

/// What comes next in an update through PackageKit.
pub fn packagekit_update_blocking(
    collected: &Option<Result<Vec<String>, String>>,
    updated: &Option<Result<(), String>>,
) -> (r: PackageKitStep)
    ensures
        r@ == packagekit_of(collected_of(*collected), updated_of(*updated)),
{
    let ids = match collected {
        None => {
            return PackageKitStep::Collect;
        },
        Some(Err(reason)) => {
            return failed(reason, ProgressChange::Keep);
        },
        Some(Ok(ids)) => ids,
    };
    assert(strings(ids@).len() == ids@.len());
    let mut output = "$ packagekit update\n".to_string();
    if ids.len() == 0 {
        output.append("No updates available.\n");
        return PackageKitStep::Done {
            outcome: UpdateOutcome { output, status: TaskStatus::Success },
            progress: ProgressChange::Clear,
        };
    }
    match updated {
        None => PackageKitStep::Update {
            ids: clone_strings(ids),
            progress: ProgressChange::Start,
        },
        Some(Ok(_)) => {
            let mut line = decimal(ids.len() as u64);
            line.append(" upgraded, 0 newly installed, 0 to remove and 0 not upgraded.\n");
            output.append(line.as_str());
            PackageKitStep::Done {
                outcome: UpdateOutcome { output, status: TaskStatus::Success },
                progress: ProgressChange::Complete,
            }
        },
        Some(Err(reason)) => failed(reason, ProgressChange::Clear),
    }
}

/// How an update ended whose task broke off, for this reason.
pub fn task_failed(what: &str, reason: &str) -> (r: UpdateOutcome)
    ensures
        r@ == (OutcomeModel {
            output: what@ + " update task failed: "@ + reason@,
            status: StatusModel::Failed(reason@),
        }),
{
    let mut output = what.to_string();
    output.append(" update task failed: ");
    output.append(reason);
    UpdateOutcome { output, status: TaskStatus::Failed(reason.to_string()) }
}

/// The packages found to be wanted are those that are.
proof fn lemma_wanted(packages: Seq<Seq<char>>, names: Option<Seq<Seq<char>>>, id: Seq<char>)
    ensures
        wanted_of(packages, names).contains(id) <==> packages.contains(id) && wanted(id, names),
    decreases packages.len(),
{
    if packages.len() > 0 {
        let front = packages.drop_last();
        lemma_wanted(front, names, id);
        let found = wanted_of(front, names);
        assert(packages =~= front.push(packages.last()));
        assert(packages.contains(id) <==> front.contains(id) || packages.last() == id) by {
            if front.contains(id) {
                let i = front.index_of(id);
                assert(packages[i] == id);
            }
            assert(packages[packages.len() - 1] == packages.last());
        }
        if wanted(packages.last(), names) {
            let more = found.push(packages.last());
            assert(more.contains(id) <==> found.contains(id) || packages.last() == id) by {
                if found.contains(id) {
                    let i = found.index_of(id);
                    assert(more[i] == id);
                }
                assert(more[more.len() - 1] == packages.last());
            }
        }
    }
}

/// The packages that are updated are those that PackageKit offers and, where names are given,
/// whose name is one of them.
pub proof fn law_only_chosen_packages(
    packages: Seq<Seq<char>>,
    names: Option<Seq<Seq<char>>>,
    id: Seq<char>,
)
    ensures
        update_ids_of(packages, names) matches Ok(ids) ==> (ids.contains(id)
            <==> packages.contains(id) && wanted(id, names)),
        update_ids_of(packages, names) is Err ==> !(packages.contains(id) && wanted(id, names)),
{
    law_sorted(wanted_of(packages, names));
    lemma_wanted(packages, names, id);
    assert(sorted_of(wanted_of(packages, names)).contains(id) <==> wanted_of(
        packages,
        names,
    ).contains(id));
}

/// The log of an update of packages through PackageKit tells that packages were upgraded, as the
/// log of APT does.
pub proof fn law_packagekit_log_tells(count: nat)
    requires
        0 < count <= u32::MAX,
    ensures
        upgraded_any(lines_of(packagekit_head() + upgraded_line_of(count))),
{
    reveal_strlit("$ packagekit update\n");
    reveal_strlit("$ packagekit update");
    reveal_strlit(" upgraded, 0 newly installed, 0 to remove and 0 not upgraded.\n");
    reveal_strlit("upgraded");
    let first = "$ packagekit update"@;
    let digits = decimal_of(count);
    let tail = " upgraded, 0 newly installed, 0 to remove and 0 not upgraded.\n"@;
    let second = digits + tail.drop_last();
    let log = packagekit_head() + upgraded_line_of(count);
    lemma_decimal(count);
    assert forall|i: int| 0 <= i < digits.len() implies !is_white_space(
        #[trigger] digits[i],
    ) && digits[i] != '\n' && digits[i] != ',' by {
        assert(is_digit(digits[i]));
    }
    assert(packagekit_head() =~= first + seq!['\n']);
    lemma_line(first);
    lemma_lines_add(packagekit_head(), upgraded_line_of(count));
    assert(upgraded_line_of(count) =~= second + seq!['\n']);
    assert forall|i: int| 0 <= i < second.len() implies #[trigger] second[i] != '\n' by {
        if i < digits.len() {
            assert(second[i] == digits[i]);
        } else {
            assert(second[i] == tail[i - digits.len()]);
        }
    }
    lemma_line(second);
    let all = lines_of(log);
    assert(all =~= seq![first, second]);
    // The first line gives no number.
    lemma_find_is(first, ',', first.len() as int);
    assert(first.take(first.len() as int) =~= first);
    let a = seq!['$'];
    let b = seq!['p', 'a', 'c', 'k', 'a', 'g', 'e', 'k', 'i', 't'];
    let c = seq!['u', 'p', 'd', 'a', 't', 'e'];
    assert(first =~= a + seq![' '] + (b + seq![' '] + c));
    lemma_words_cons(a, ' ', b + seq![' '] + c);
    lemma_words_cons(b, ' ', c);
    lemma_words_one(c);
    assert(words_of(first)[1] == b);
    assert(b[0] == 'p' && "upgraded"@[0] == 'u');
    assert(upgrade_count_of(first) is None);
    // The second gives the count.
    let word = "upgraded"@;
    let n = (digits.len() + 1 + word.len()) as int;
    assert forall|j: int| 0 <= j < n implies second[j] != ',' by {
        if j < digits.len() {
            assert(second[j] == digits[j]);
        }
    }
    lemma_find_is(second, ',', n);
    assert(second.take(n) =~= digits + seq![' '] + word);
    lemma_words_cons(digits, ' ', word);
    lemma_words_one(word);
    assert(words_of(second.take(n)) =~= seq![digits, word]);
    law_unsigned_round_trip(count, u32::MAX as nat);
    assert(upgrade_count_of(second) == Some(count as int));
    assert(all.skip(1)[0] == second);
    reveal_with_fuel(upgraded_any, 3);
}

/// The name of a package is what stands before the first semicolon of its id. A package is wanted
/// by its name: where names are given, if its name is one of them; else if it has a name.
pub proof fn law_wanted_by_name(name: Seq<char>, rest: Seq<char>, list: Seq<Seq<char>>)
    requires
        lacks(name, ';'),
    ensures
        wanted(name + seq![';'] + rest, Some(list)) <==> name.len() > 0 && list.contains(name),
        wanted(name + seq![';'] + rest, None) <==> name.len() > 0,
        wanted(name, Some(list)) <==> name.len() > 0 && list.contains(name),
        wanted(name, None) <==> name.len() > 0,
{
    let id = name + seq![';'] + rest;
    let n = name.len() as int;
    assert forall|j: int| 0 <= j < n implies id[j] != ';' by {
        assert(id[j] == name[j]);
    }
    lemma_find_is(id, ';', n);
    lemma_find_is(name, ';', n);
    assert(id.take(n) =~= name);
    assert(name.take(n) =~= name);
}

/// To find none of the packages whose names are given is an error; without names it is none. The
/// ids that are found are in order, each once.
pub proof fn law_nothing_chosen(packages: Seq<Seq<char>>, names: Option<Seq<Seq<char>>>)
    ensures
        update_ids_of(packages, names) is Err <==> (names matches Some(list) && list.len() > 0
            && forall|i: int|
            0 <= i < packages.len() ==> !wanted(#[trigger] packages[i], names)),
        update_ids_of(packages, names) matches Err(reason) ==> reason == "No updates selected."@,
        update_ids_of(packages, names) matches Ok(ids) ==> increasing(ids),
{
    let found = wanted_of(packages, names);
    let ids = sorted_of(found);
    law_sorted(found);
    if ids.len() == 0 {
        assert forall|i: int| 0 <= i < packages.len() implies !wanted(
            #[trigger] packages[i],
            names,
        ) by {
            lemma_wanted(packages, names, packages[i]);
            assert(packages.contains(packages[i]));
            assert(ids.contains(packages[i]) <==> found.contains(packages[i]));
        }
    } else {
        let id = ids[0];
        assert(ids.contains(id));
        lemma_wanted(packages, names, id);
        let i = packages.index_of(id);
        assert(wanted(packages[i], names));
    }
}

/// An update through PackageKit first finds the ids of the packages; where that fails it has
/// failed, and where there are none it has ended well. Else it updates the packages with these ids
/// and no others, and ends as that ends. Nothing is reported as done before, and a hundred only
/// where the packages were updated.
pub proof fn law_packagekit_in_turn(
    ids: Seq<Seq<char>>,
    reason: Seq<char>,
    updated: Option<Result<(), Seq<char>>>,
)
    ensures
        packagekit_of(None, updated) is Collect,
        packagekit_of(Some(Err(reason)), updated) == (PackageKitModel::Done {
            outcome: OutcomeModel {
                output: "$ packagekit update\n"@ + reason + "\n"@,
                status: StatusModel::Failed(reason),
            },
            progress: ProgressChange::Keep,
        }),
        ids.len() == 0 ==> packagekit_of(Some(Ok(ids)), updated) == (PackageKitModel::Done {
            outcome: OutcomeModel {
                output: "$ packagekit update\n"@ + "No updates available.\n"@,
                status: StatusModel::Success,
            },
            progress: ProgressChange::Clear,
        }),
        ids.len() > 0 ==> packagekit_of(Some(Ok(ids)), updated) == match updated {
            None => PackageKitModel::Update { ids, progress: ProgressChange::Start },
            Some(Ok(_)) => PackageKitModel::Done {
                outcome: OutcomeModel {
                    output: "$ packagekit update\n"@ + (decimal_of(ids.len())
                        + " upgraded, 0 newly installed, 0 to remove and 0 not upgraded.\n"@),
                    status: StatusModel::Success,
                },
                progress: ProgressChange::Complete,
            },
            Some(Err(error)) => PackageKitModel::Done {
                outcome: OutcomeModel {
                    output: "$ packagekit update\n"@ + error + "\n"@,
                    status: StatusModel::Failed(error),
                },
                progress: ProgressChange::Clear,
            },
        },
{
}

} // verus!
