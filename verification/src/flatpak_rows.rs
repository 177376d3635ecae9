//! What each row of the lists of `flatpak` stands for.

use crate::flatpak_list::{
    app_id_of, changed_commits, columns_of, flatpak_entry_of, flatpak_lines_of, flatpak_skips,
    flatpak_updates_of, installed_for, installed_row_of, short_commit_of, with_installed,
    FlatpakParseMode,
};
use crate::flatpak_log::lemma_not_skipped;
use crate::managers::ManagerId;
use crate::parse::tells_of_updates;
use crate::text::{
    contains_text, find_of, lacks, law_lines, law_split, lemma_find, lemma_lines_add, lines_of,
    split_of, trim_of, words_of,
};
use crate::updates::InstallScope;
use vstd::prelude::*;

verus! {

/// Whether a line is a command line.
pub open spec fn is_command(line: Seq<char>) -> bool {
    trim_of(line).len() > 0 && trim_of(line)[0] == '$'
}

/// Whether the last command line of `lines` has `text` in it.
pub open spec fn under(lines: Seq<Seq<char>>, text: Seq<char>) -> bool {
    exists|h: int|
        0 <= h < lines.len() && #[trigger] is_command(lines[h]) && contains_text(
            trim_of(lines[h]),
            text,
        ) && forall|j: int| h < j < lines.len() ==> !#[trigger] is_command(lines[j])
}

/// Whether what follows `lines` belongs to the list of installed Flatpaks.
pub open spec fn in_installed(lines: Seq<Seq<char>>) -> bool {
    under(lines, "flatpak list"@)
}

/// Whether what follows `lines` belongs to the list of updates.
pub open spec fn in_updates(lines: Seq<Seq<char>>) -> bool {
    under(lines, "flatpak remote-ls"@) && !under(lines, "flatpak list"@)
}

/// Whether a line is a row of one of the lists: it is no command line, no heading and no error,
/// and has three columns or more.
pub open spec fn is_row(line: Seq<char>) -> bool {
    let t = trim_of(line);
    &&& t.len() > 0
    &&& t[0] != '$'
    &&& !"Application"@.is_prefix_of(t)
    &&& !"Name"@.is_prefix_of(t)
    &&& !"error:"@.is_prefix_of(t)
    &&& !"Error:"@.is_prefix_of(t)
    &&& columns_of(t).len() >= 3
}

/// The columns of a row: the name, the ref, the version, and what comes behind them.
pub open spec fn columns_in(line: Seq<char>) -> Seq<Seq<char>> {
    columns_of(trim_of(line))
}

/// Whether a ref such as `app/id/arch/branch` names the application `app`.
pub open spec fn names_app(ref_id: Seq<char>, app: Seq<char>) -> bool {
    lacks(app, '/') && (ref_id == "app"@ + seq!['/'] + app || ("app"@ + seq!['/'] + app
        + seq!['/']).is_prefix_of(ref_id))
}

/// Whether a row of the list of installed Flatpaks tells of `key`: as its ref, its name, or the
/// application of its ref.
pub open spec fn tells_of(columns: Seq<Seq<char>>, key: Seq<char>) -> bool {
    columns[1] == key || columns[0] == key || names_app(columns[1], key)
}

/// Whether the `i`th line is a row of the list of installed Flatpaks that tells of `key`.
pub open spec fn installed_at(lines: Seq<Seq<char>>, i: int, key: Seq<char>) -> bool {
    &&& 0 <= i < lines.len()
    &&& is_row(lines[i])
    &&& in_installed(lines.take(i))
    &&& tells_of(columns_in(lines[i]), key)
}

/// Whether the `i`th line is the last row of the list of installed Flatpaks that tells of `key`.
pub open spec fn last_installed_at(lines: Seq<Seq<char>>, i: int, key: Seq<char>) -> bool {
    installed_at(lines, i, key) && forall|j: int| #[trigger] installed_at(lines, j, key) ==> j <= i
}

/// Whether no row of the list of installed Flatpaks tells of `key`.
pub open spec fn nowhere_installed(lines: Seq<Seq<char>>, key: Seq<char>) -> bool {
    forall|j: int| !#[trigger] installed_at(lines, j, key)
}

/// What a column says, where it is there; blank columns and dashes say nothing.
pub open spec fn said_in(columns: Seq<Seq<char>>, i: int) -> Option<Seq<char>> {
    if i < columns.len() && trim_of(columns[i]).len() > 0 && trim_of(columns[i]) != "-"@ {
        Some(trim_of(columns[i]))
    } else {
        None
    }
}

/// A commit in brackets, cut off behind its twelfth character.
pub open spec fn in_brackets(commit: Seq<char>) -> Seq<char> {
    " ("@ + (if commit.len() > 12 {
        commit.subrange(0, 12)
    } else {
        commit
    }) + ")"@
}

/// What the lists say of an update, where `old` is the row of what is installed and `new` the row
/// of the update: the versions, each with its commit where only the commits differ.
pub open spec fn versions_of(old: Seq<Seq<char>>, new: Seq<Seq<char>>) -> (Seq<char>, Seq<char>) {
    match (said_in(old, 3), said_in(new, 3)) {
        (Some(a), Some(b)) if old.len() >= 5 && old[2] == new[2] && a != b => (
            old[2] + in_brackets(a),
            new[2] + in_brackets(b),
        ),
        _ => (old[2], new[2]),
    }
}

/// Whether a row of the list of installed Flatpaks says that the Flatpak is installed for `scope`:
/// its last column does, the fifth or, in rows of four, the fourth.
pub open spec fn installed_for_scope(columns: Seq<Seq<char>>, scope: Option<InstallScope>) -> bool {
    let said = if columns.len() >= 5 {
        columns[4]
    } else if columns.len() == 4 {
        columns[3]
    } else {
        Seq::empty()
    };
    &&& scope == Some(InstallScope::User) <==> said == "user"@
    &&& scope == Some(InstallScope::System) <==> said == "system"@
}

/// The columns of a line stand between its tabs; of a line without a tab they are its words.
pub proof fn law_columns(a: Seq<char>, b: Seq<char>)
    requires
        lacks(a, '\t'),
    ensures
        columns_of(a + seq!['\t'] + b) == seq![a] + split_of(b, '\t'),
        columns_of(a) == words_of(a),
{
    let s = a + seq!['\t'] + b;
    assert(s[a.len() as int] == '\t');
    assert(s.contains('\t'));
    law_split(a, '\t', b);
    if a.contains('\t') {
        assert(a[a.index_of('\t')] == '\t');
    }
}

/// The application of a ref is the one that it names.
proof fn lemma_app(ref_id: Seq<char>, app: Seq<char>)
    ensures
        app_id_of(ref_id) == Some(app) <==> names_app(ref_id, app),
{
    reveal_strlit("app");
    let head = "app"@;
    assert(lacks(head, '/'));
    let parts = split_of(ref_id, '/');
    if names_app(ref_id, app) {
        if ref_id == head + seq!['/'] + app {
            law_split(head, '/', app);
            law_split(app, '/', Seq::empty());
            assert(parts =~= seq![head, app]);
        } else {
            let front = head + seq!['/'] + app + seq!['/'];
            let rest = ref_id.skip(front.len() as int);
            assert(ref_id.take(front.len() as int) == front);
            assert(ref_id =~= ref_id.take(front.len() as int) + rest);
            assert(front + rest =~= head + seq!['/'] + (app + seq!['/'] + rest));
            law_split(head, '/', app + seq!['/'] + rest);
            law_split(app, '/', rest);
            assert(parts[0] == head);
            assert(parts[1] == app);
            assert(parts.len() > 1);
        }
    }
    if app_id_of(ref_id) == Some(app) {
        lemma_find(ref_id, '/');
        let i = find_of(ref_id, '/');
        assert(i < ref_id.len());
        let rest = ref_id.skip(i + 1);
        assert(parts[0] == ref_id.take(i));
        assert(ref_id =~= head + seq!['/'] + rest);
        assert(parts[1] == split_of(rest, '/')[0]);
        lemma_find(rest, '/');
        let k = find_of(rest, '/');
        assert(lacks(app, '/')) by {
            assert forall|j: int| 0 <= j < app.len() implies #[trigger] app[j] != '/' by {
                assert(app[j] == rest[j]);
            }
        }
        if k < rest.len() {
            assert(app == rest.take(k));
            let front = head + seq!['/'] + app + seq!['/'];
            assert(ref_id.take(front.len() as int) =~= front);
        } else {
            assert(app == rest);
        }
    }
}

/// A line is a row exactly where it is read as one.
proof fn lemma_row(line: Seq<char>)
    ensures
        is_row(line) <==> {
            let t = trim_of(line);
            !flatpak_skips(t) && t[0] != '$' && columns_of(t).len() >= 3
        },
        is_command(line) ==> !flatpak_skips(trim_of(line)),
{
    if is_command(line) {
        lemma_not_skipped(trim_of(line));
    }
}

/// Which list lines are read as belonging to is told by the last command line before them.
proof fn lemma_mode(lines: Seq<Seq<char>>)
    ensures
        flatpak_lines_of(lines).mode == FlatpakParseMode::List <==> in_installed(lines),
        flatpak_lines_of(lines).mode == FlatpakParseMode::Updates <==> in_updates(lines),
    decreases lines.len(),
{
    if lines.len() > 0 {
        let front = lines.drop_last();
        let last = lines.last();
        lemma_mode(front);
        lemma_row(last);
        let n = lines.len() - 1;
        assert(lines[n] == last);
        lemma_under_last(lines, "flatpak list"@);
        lemma_under_last(lines, "flatpak remote-ls"@);
    }
}

/// What the last command line has in it is told by the last line, where that is one, and else by
/// the lines before it.
proof fn lemma_under_last(lines: Seq<Seq<char>>, text: Seq<char>)
    requires
        lines.len() > 0,
    ensures
        under(lines, text) == if is_command(lines.last()) {
            contains_text(trim_of(lines.last()), text)
        } else {
            under(lines.drop_last(), text)
        },
{
    let front = lines.drop_last();
    let n = lines.len() - 1;
    assert(lines[n] == lines.last());
    if is_command(lines.last()) {
        assert(is_command(lines[n]));
    } else {
        if under(front, text) {
            let h = choose|h: int|
                0 <= h < front.len() && #[trigger] is_command(front[h]) && contains_text(
                    trim_of(front[h]),
                    text,
                ) && forall|j: int| h < j < front.len() ==> !#[trigger] is_command(front[j]);
            assert(is_command(lines[h]));
            assert forall|j: int| h < j < lines.len() implies !#[trigger] is_command(lines[j]) by {
                if j < n {
                    assert(!is_command(front[j]));
                }
            }
        }
        if under(lines, text) {
            let h = choose|h: int|
                0 <= h < lines.len() && #[trigger] is_command(lines[h]) && contains_text(
                    trim_of(lines[h]),
                    text,
                ) && forall|j: int| h < j < lines.len() ==> !#[trigger] is_command(lines[j]);
            assert(h < n);
            assert(is_command(front[h]));
            assert forall|j: int| h < j < front.len() implies !#[trigger] is_command(front[j]) by {
                assert(!is_command(lines[j]));
            }
        }
    }
}

/// What is known of a key after lines is what the last row says that tells of it.
proof fn lemma_known(lines: Seq<Seq<char>>, key: Seq<char>)
    ensures
        flatpak_lines_of(lines).installed.contains_key(key) <==> !nowhere_installed(lines, key),
        forall|i: int| #[trigger]
            last_installed_at(lines, i, key) ==> flatpak_lines_of(lines).installed[key]
                == installed_row_of(columns_in(lines[i])),
    decreases lines.len(),
{
    if lines.len() > 0 {
        let front = lines.drop_last();
        let last = lines.last();
        let n = lines.len() - 1;
        let columns = columns_in(last);
        lemma_known(front, key);
        lemma_mode(front);
        lemma_row(last);
        lemma_app(columns[1], key);
        assert(lines.take(n) =~= front);
        assert forall|i: int| 0 <= i < n implies (#[trigger] installed_at(lines, i, key)
            <==> installed_at(front, i, key)) by {
            assert(lines.take(i) =~= front.take(i));
            assert(lines[i] == front[i]);
        }
        let m = flatpak_lines_of(front);
        let known = flatpak_lines_of(lines).installed;
        if installed_at(lines, n, key) {
            assert(known == with_installed(m.installed, columns));
            assert(known.contains_key(key));
            assert(known[key] == installed_row_of(columns));
            assert(!nowhere_installed(lines, key));
            assert forall|i: int| #[trigger] last_installed_at(lines, i, key) implies known[key]
                == installed_row_of(columns_in(lines[i])) by {
                assert(n <= i);
            }
        } else {
            assert(known.contains_key(key) <==> m.installed.contains_key(key));
            assert(m.installed.contains_key(key) ==> known[key] == m.installed[key]);
            if !nowhere_installed(lines, key) {
                let j = choose|j: int| #[trigger] installed_at(lines, j, key);
                assert(installed_at(front, j, key));
            }
            if !nowhere_installed(front, key) {
                let j = choose|j: int| #[trigger] installed_at(front, j, key);
                assert(installed_at(lines, j, key));
            }
            assert forall|i: int| #[trigger] last_installed_at(lines, i, key) implies known[key]
                == installed_row_of(columns_in(lines[i])) by {
                assert(installed_at(front, i, key));
                assert forall|j: int| #[trigger] installed_at(front, j, key) implies j <= i by {
                    assert(installed_at(lines, j, key));
                }
                assert(last_installed_at(front, i, key));
                assert(lines[i] == front[i]);
            }
        }
    }
}

/// More lines leave the updates of the lines before them where they are.
proof fn lemma_updates_stay(a: Seq<Seq<char>>, b: Seq<Seq<char>>)
    ensures
        flatpak_lines_of(a).updates.is_prefix_of(flatpak_lines_of(a + b).updates),
    decreases b.len(),
{
    if b.len() == 0 {
        assert(a + b =~= a);
        let u = flatpak_lines_of(a).updates;
        assert(u.take(u.len() as int) =~= u);
    } else {
        lemma_updates_stay(a, b.drop_last());
        assert((a + b).drop_last() =~= a + b.drop_last());
        assert((a + b).last() == b.last());
        let u = flatpak_lines_of(a).updates;
        let v = flatpak_lines_of(a + b.drop_last()).updates;
        let w = flatpak_lines_of(a + b).updates;
        assert(v.take(u.len() as int) == u);
        assert(w.take(u.len() as int) =~= u) by {
            assert forall|k: int| 0 <= k < u.len() implies w[k] == u[k] by {
                assert(v[k] == v.take(u.len() as int)[k]);
            }
        }
    }
}

/// The lines of output with one more line in it.
proof fn lemma_line_between(before: Seq<char>, line: Seq<char>, behind: Seq<char>)
    requires
        before.len() == 0 || before[before.len() - 1] == '\n',
        lacks(line, '\n'),
        line.len() == 0 || line[line.len() - 1] != '\r',
    ensures
        lines_of(before + line + seq!['\n'] + behind) == lines_of(before).push(line) + lines_of(
            behind,
        ),
        lines_of(before + line + seq!['\n']) == lines_of(before).push(line),
        line.len() > 0 ==> lines_of(before + line) == lines_of(before).push(line),
{
    let none = Seq::<char>::empty();
    let rest = line + seq!['\n'] + behind;
    assert(before + line + seq!['\n'] + behind =~= before + rest);
    lemma_lines_add(before, rest);
    law_lines(line, behind);
    law_lines(line, none);
    assert(lines_of(none).len() == 0);
    assert(line + seq!['\n'] + none =~= line + seq!['\n']);
    lemma_lines_add(before, line + seq!['\n']);
    assert(before + (line + seq!['\n']) =~= before + line + seq!['\n']);
    lemma_lines_add(before, line);
    assert(lines_of(before) + (seq![line] + lines_of(behind)) =~= lines_of(before).push(line)
        + lines_of(behind));
    assert(lines_of(before) + (seq![line] + lines_of(none)) =~= lines_of(before).push(line));
    assert(lines_of(before) + seq![line] =~= lines_of(before).push(line));
}

/// Every row of the list of updates adds one update, with its ref as the identifier and its name,
/// behind those of the lines before it; no other line adds one. The last line needs no line feed,
/// and what comes behind a line changes nothing of what was offered before.
pub proof fn law_flatpak_row_by_row(before: Seq<char>, line: Seq<char>, behind: Seq<char>)
    requires
        before.len() == 0 || before[before.len() - 1] == '\n',
        lacks(line, '\n'),
        line.len() == 0 || line[line.len() - 1] != '\r',
    ensures
        flatpak_updates_of(Seq::empty()).len() == 0,
        ({
            let old = flatpak_updates_of(before);
            let new = flatpak_updates_of(before + line + seq!['\n']);
            if is_row(line) && in_updates(lines_of(before)) {
                &&& new.len() == old.len() + 1
                &&& new.take(old.len() as int) == old
                &&& new[old.len() as int].manager == ManagerId::Flatpak
                &&& new[old.len() as int].id == columns_in(line)[1]
                &&& new[old.len() as int].name == columns_in(line)[0]
            } else {
                new == old
            }
        }),
        line.len() > 0 ==> flatpak_updates_of(before + line) == flatpak_updates_of(
            before + line + seq!['\n'],
        ),
        flatpak_updates_of(before + line + seq!['\n']).is_prefix_of(
            flatpak_updates_of(before + line + seq!['\n'] + behind),
        ),
{
    let all = lines_of(before);
    lemma_line_between(before, line, behind);
    lemma_mode(all);
    lemma_row(line);
    lemma_updates_stay(all.push(line), lines_of(behind));
    assert(all.push(line).drop_last() =~= all);
    let old = flatpak_updates_of(before);
    let new = flatpak_updates_of(before + line + seq!['\n']);
    if is_row(line) && in_updates(all) {
        assert(new.take(old.len() as int) =~= old);
    }
    assert(lines_of(Seq::<char>::empty()).len() == 0);
}

/// The update that a row adds.
proof fn lemma_row_adds(before: Seq<char>, line: Seq<char>, behind: Seq<char>)
    requires
        before.len() == 0 || before[before.len() - 1] == '\n',
        lacks(line, '\n'),
        line.len() == 0 || line[line.len() - 1] != '\r',
        is_row(line),
        in_updates(lines_of(before)),
    ensures
        ({
            let all = flatpak_updates_of(before + line + seq!['\n'] + behind);
            let n = flatpak_updates_of(before).len() as int;
            &&& n < all.len()
            &&& all[n] == flatpak_entry_of(
                flatpak_lines_of(lines_of(before)).installed,
                columns_in(line),
            )
        }),
{
    let lines = lines_of(before);
    law_flatpak_row_by_row(before, line, behind);
    lemma_line_between(before, line, behind);
    lemma_mode(lines);
    lemma_row(line);
    assert(lines.push(line).drop_last() =~= lines);
    let one = flatpak_updates_of(before + line + seq!['\n']);
    let all = flatpak_updates_of(before + line + seq!['\n'] + behind);
    let n = flatpak_updates_of(before).len() as int;
    assert(all.take(one.len() as int) == one);
    assert(all[n] == one[n]);
}

/// An update is matched with what is installed: with the last row that tells of its ref; where
/// none does, with the last one that tells of its name; and where none does either, with the last
/// one that tells of the application of its ref. The version that is installed and its scope are
/// those of that row, whatever other rows say.
pub proof fn law_flatpak_matched(
    before: Seq<char>,
    line: Seq<char>,
    behind: Seq<char>,
    key: Seq<char>,
    i: int,
)
    requires
        before.len() == 0 || before[before.len() - 1] == '\n',
        lacks(line, '\n'),
        line.len() == 0 || line[line.len() - 1] != '\r',
        is_row(line),
        in_updates(lines_of(before)),
        last_installed_at(lines_of(before), i, key),
        ({
            let name = columns_in(line)[0];
            let ref_id = columns_in(line)[1];
            ||| key == ref_id
            ||| key == name && nowhere_installed(lines_of(before), ref_id)
            ||| names_app(ref_id, key) && nowhere_installed(lines_of(before), ref_id)
                && nowhere_installed(lines_of(before), name)
        }),
    ensures
        ({
            let all = flatpak_updates_of(before + line + seq!['\n'] + behind);
            let n = flatpak_updates_of(before).len() as int;
            let row = columns_in(lines_of(before)[i]);
            &&& n < all.len()
            &&& all[n].id == columns_in(line)[1]
            &&& all[n].name == columns_in(line)[0]
            &&& all[n].current_version == Some(versions_of(row, columns_in(line)).0)
            &&& all[n].new_version == Some(versions_of(row, columns_in(line)).1)
            &&& installed_for_scope(row, all[n].scope)
        }),
{
    reveal_strlit("user");
    reveal_strlit("system");
    let lines = lines_of(before);
    let new = columns_in(line);
    let row = columns_in(lines[i]);
    lemma_row_adds(before, line, behind);
    lemma_known(lines, key);
    lemma_known(lines, new[1]);
    lemma_known(lines, new[0]);
    lemma_app(new[1], key);
    let known = flatpak_lines_of(lines).installed;
    assert(!nowhere_installed(lines, key));
    assert(known[key] == installed_row_of(row));
    assert(installed_for(known, new) == Some(installed_row_of(row)));
    lemma_short_commit(row, new);
    assert("user"@.len() == 4 && "system"@.len() == 6);
}

/// The commits that are shown behind versions.
proof fn lemma_short_commit(row: Seq<Seq<char>>, new: Seq<Seq<char>>)
    requires
        row.len() >= 3,
        new.len() >= 3,
    ensures
        match changed_commits(Some(installed_row_of(row)), new) {
            Some((a, b)) => versions_of(row, new) == (
                row[2] + " ("@ + short_commit_of(a) + ")"@,
                new[2] + " ("@ + short_commit_of(b) + ")"@,
            ),
            None => versions_of(row, new) == (row[2], new[2]),
        },
{
    if let Some((a, b)) = changed_commits(Some(installed_row_of(row)), new) {
        assert(a.len() > 12 ==> a.take(12) =~= a.subrange(0, 12));
        assert(b.len() > 12 ==> b.take(12) =~= b.subrange(0, 12));
        assert(row[2] + in_brackets(a) =~= row[2] + " ("@ + short_commit_of(a) + ")"@);
        assert(new[2] + in_brackets(b) =~= new[2] + " ("@ + short_commit_of(b) + ")"@);
    }
}

/// Where rows of the list of installed Flatpaks tell of the ref of an update, the last of them
/// gives the version that is installed and the scope: another branch of the same application does
/// not, though it has the same name.
pub proof fn law_flatpak_ref_decides(
    before: Seq<char>,
    line: Seq<char>,
    behind: Seq<char>,
    i: int,
)
    requires
        before.len() == 0 || before[before.len() - 1] == '\n',
        lacks(line, '\n'),
        line.len() == 0 || line[line.len() - 1] != '\r',
        is_row(line),
        in_updates(lines_of(before)),
        0 <= i < lines_of(before).len(),
        is_row(lines_of(before)[i]),
        in_installed(lines_of(before).take(i)),
        columns_in(lines_of(before)[i])[1] == columns_in(line)[1],
        forall|j: int|
            i < j < lines_of(before).len() && is_row(#[trigger] lines_of(before)[j])
                && in_installed(lines_of(before).take(j)) ==> !tells_of(
                columns_in(lines_of(before)[j]),
                columns_in(line)[1],
            ),
    ensures
        ({
            let all = flatpak_updates_of(before + line + seq!['\n'] + behind);
            let n = flatpak_updates_of(before).len() as int;
            let row = columns_in(lines_of(before)[i]);
            &&& n < all.len()
            &&& all[n].id == columns_in(line)[1]
            &&& all[n].current_version matches Some(v) && (v == row[2] || exists|commit: Seq<char>|
                v == row[2] + #[trigger] in_brackets(commit))
            &&& installed_for_scope(row, all[n].scope)
        }),
{
    let lines = lines_of(before);
    let key = columns_in(line)[1];
    assert(installed_at(lines, i, key));
    assert forall|j: int| #[trigger] installed_at(lines, j, key) implies j <= i by {
        if j > i {
            assert(is_row(lines[j]));
        }
    }
    law_flatpak_matched(before, line, behind, key, i);
}

/// Of an update of which no row tells what is installed, neither the version nor the scope is
/// known.
pub proof fn law_flatpak_unmatched(before: Seq<char>, line: Seq<char>, behind: Seq<char>)
    requires
        before.len() == 0 || before[before.len() - 1] == '\n',
        lacks(line, '\n'),
        line.len() == 0 || line[line.len() - 1] != '\r',
        is_row(line),
        in_updates(lines_of(before)),
        nowhere_installed(lines_of(before), columns_in(line)[1]),
        nowhere_installed(lines_of(before), columns_in(line)[0]),
        forall|app: Seq<char>| #[trigger]
            names_app(columns_in(line)[1], app) ==> nowhere_installed(lines_of(before), app),
    ensures
        ({
            let all = flatpak_updates_of(before + line + seq!['\n'] + behind);
            let n = flatpak_updates_of(before).len() as int;
            &&& n < all.len()
            &&& all[n].current_version is None
            &&& all[n].new_version == Some(columns_in(line)[2])
            &&& all[n].scope is None
        }),
{
    let lines = lines_of(before);
    let new = columns_in(line);
    lemma_row_adds(before, line, behind);
    lemma_known(lines, new[1]);
    lemma_known(lines, new[0]);
    if let Some(app) = app_id_of(new[1]) {
        lemma_app(new[1], app);
        lemma_known(lines, app);
    }
}

/// Flatpak has updates if and only if its check ended with the status zero and a row of the list
/// of updates was printed.
pub proof fn law_flatpak_found_by_rows(output: Seq<char>, status_code: i32)
    ensures
        tells_of_updates(ManagerId::Flatpak, output, status_code) <==> status_code == 0 && exists|
            i: int,
        |
            0 <= i < lines_of(output).len() && is_row(#[trigger] lines_of(output)[i]) && in_updates(
                lines_of(output).take(i),
            ),
{
    let lines = lines_of(output);
    lemma_some_row(lines);
    if exists|i: int| offered_at(lines, i) {
        let i = choose|i: int| offered_at(lines, i);
        assert(is_row(lines[i]));
    }
    if exists|i: int|
        0 <= i < lines.len() && is_row(#[trigger] lines[i]) && in_updates(lines.take(i)) {
        let i = choose|i: int|
            0 <= i < lines.len() && is_row(#[trigger] lines[i]) && in_updates(lines.take(i));
        assert(offered_at(lines, i));
    }
}

/// The last line adds an update exactly where it is a row of the list of updates.
proof fn lemma_last_adds(lines: Seq<Seq<char>>)
    requires
        lines.len() > 0,
    ensures
        flatpak_lines_of(lines).updates.len() == flatpak_lines_of(lines.drop_last()).updates.len()
            + if is_row(lines.last()) && in_updates(lines.drop_last()) {
            1int
        } else {
            0
        },
{
    lemma_mode(lines.drop_last());
    lemma_row(lines.last());
}

/// Whether the `i`th line is a row of the list of updates.
spec fn offered_at(lines: Seq<Seq<char>>, i: int) -> bool {
    0 <= i < lines.len() && is_row(lines[i]) && in_updates(lines.take(i))
}

/// Lines offer an update exactly where a row of the list of updates is among them.
proof fn lemma_some_row(lines: Seq<Seq<char>>)
    ensures
        flatpak_lines_of(lines).updates.len() > 0 <==> exists|i: int| offered_at(lines, i),
    decreases lines.len(),
{
    if lines.len() > 0 {
        let front = lines.drop_last();
        let n = lines.len() - 1;
        lemma_some_row(front);
        lemma_last_adds(lines);
        assert(lines.take(n) =~= front);
        assert(offered_at(lines, n) <==> is_row(lines.last()) && in_updates(front));
        assert forall|i: int| i != n implies (#[trigger] offered_at(lines, i) <==> offered_at(
            front,
            i,
        )) by {
            if 0 <= i < n {
                assert(lines.take(i) =~= front.take(i));
                assert(lines[i] == front[i]);
            }
        }
        if exists|i: int| offered_at(front, i) {
            let i = choose|i: int| offered_at(front, i);
            assert(offered_at(lines, i));
        }
    }
}

} // verus!
