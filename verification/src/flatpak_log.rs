//! What is read back out of the log of a check of Flatpak.

use crate::command::log_line_of;
use crate::flatpak_list::{
    columns_of, flatpak_entry_of, flatpak_lines_of, flatpak_skips, flatpak_updates_of,
    list_begun_by, with_installed, FlatpakModel, FlatpakParseMode, InstalledModel,
};
use crate::managers::{check_commands_of, ManagerId};
use crate::parse::updates_of;
use crate::run::{check_of, CheckStepModel, ReportModel};
use crate::text::{
    contains_text, join_of, lacks, lemma_line, lemma_lines_add, lines_of, occurs_at, trim_end_of,
    trim_of, trim_start_of,
};
use crate::updates::EntryModel;
use vstd::prelude::*;

verus! {

/// The row of a line, where it holds one.
pub open spec fn row_of(raw: Seq<char>) -> Option<Seq<Seq<char>>> {
    let line = trim_of(raw);
    let parts = columns_of(line);
    if flatpak_skips(line) || parts.len() < 3 {
        None
    } else {
        Some(parts)
    }
}

/// The rows of lines.
pub open spec fn rows_of(lines: Seq<Seq<char>>) -> Seq<Seq<Seq<char>>>
    decreases lines.len(),
{
    if lines.len() == 0 {
        Seq::empty()
    } else {
        match row_of(lines.last()) {
            Some(parts) => rows_of(lines.drop_last()).push(parts),
            None => rows_of(lines.drop_last()),
        }
    }
}

/// The installed Flatpaks that rows tell of, together with those known before.
pub open spec fn installed_in(
    known: Map<Seq<char>, InstalledModel>,
    rows: Seq<Seq<Seq<char>>>,
) -> Map<Seq<char>, InstalledModel>
    decreases rows.len(),
{
    if rows.len() == 0 {
        known
    } else {
        with_installed(installed_in(known, rows.drop_last()), rows.last())
    }
}

/// The updates that rows offer.
pub open spec fn offered_by(
    installed: Map<Seq<char>, InstalledModel>,
    rows: Seq<Seq<Seq<char>>>,
) -> Seq<EntryModel> {
    rows.map_values(|parts: Seq<Seq<char>>| flatpak_entry_of(installed, parts))
}

/// Whether no line looks like a command line.
pub open spec fn no_command(lines: Seq<Seq<char>>) -> bool {
    forall|i: int|
        0 <= i < lines.len() ==> flatpak_skips(trim_of(#[trigger] lines[i])) || trim_of(lines[i])[0]
            != '$'
}

/// The line that stands for a command of the check in the log.
pub open spec fn check_line(i: int) -> Seq<char> {
    let command = check_commands_of(ManagerId::Flatpak)[i];
    log_line_of(command.program, command.args, false)
}

/// Lines of a list, read after others.
proof fn lemma_list_read(pre: Seq<Seq<char>>, list: Seq<Seq<char>>)
    requires
        no_command(list),
    ensures
        flatpak_lines_of(pre + list) == ({
            let m = flatpak_lines_of(pre);
            match m.mode {
                FlatpakParseMode::List => FlatpakModel {
                    installed: installed_in(m.installed, rows_of(list)),
                    ..m
                },
                FlatpakParseMode::Updates => FlatpakModel {
                    updates: m.updates + offered_by(m.installed, rows_of(list)),
                    ..m
                },
                FlatpakParseMode::Neither => m,
            }
        }),
    decreases list.len(),
{
    let m = flatpak_lines_of(pre);
    if list.len() == 0 {
        assert(pre + list =~= pre);
        assert(m.updates + offered_by(m.installed, rows_of(list)) =~= m.updates);
    } else {
        let before = list.drop_last();
        assert(no_command(before)) by {
            assert forall|i: int| 0 <= i < before.len() implies flatpak_skips(
                trim_of(#[trigger] before[i]),
            ) || trim_of(before[i])[0] != '$' by {
                assert(before[i] == list[i]);
            }
        }
        lemma_list_read(pre, before);
        assert((pre + list).drop_last() =~= pre + before);
        assert((pre + list).last() == list.last());
        let rows = rows_of(before);
        assert(flatpak_skips(trim_of(list[list.len() - 1])) || trim_of(list[list.len() - 1])[0]
            != '$');
        if let Some(parts) = row_of(list.last()) {
            assert(rows.push(parts).drop_last() =~= rows);
            assert(m.updates + offered_by(m.installed, rows.push(parts)) =~= (m.updates
                + offered_by(m.installed, rows)).push(flatpak_entry_of(m.installed, parts)));
        }
    }
}

/// The command line of the list of installed Flatpaks, without its line feed.
spec fn list_line() -> Seq<char> {
    "$ "@ + "flatpak"@ + " "@ + ("list"@ + " "@
        + "--columns=application,ref,version,installation"@)
}

/// The command line of the list of updates, without its line feed.
spec fn updates_line() -> Seq<char> {
    "$ "@ + "flatpak"@ + " "@ + ("remote-ls"@ + " "@ + "--updates"@ + " "@
        + "--columns=application,ref,version,commit"@)
}

/// A command line is neither a heading nor an error.
pub proof fn lemma_not_skipped(s: Seq<char>)
    requires
        s.len() > 0,
        s[0] == '$',
    ensures
        !flatpak_skips(s),
{
    reveal_strlit("Application");
    reveal_strlit("Name");
    reveal_strlit("error:");
    reveal_strlit("Error:");
    assert(!"Application"@.is_prefix_of(s)) by {
        if "Application"@.is_prefix_of(s) {
            assert("Application"@[0] == s[0]);
        }
    }
    assert(!"Name"@.is_prefix_of(s)) by {
        if "Name"@.is_prefix_of(s) {
            assert("Name"@[0] == s[0]);
        }
    }
    assert(!"error:"@.is_prefix_of(s)) by {
        if "error:"@.is_prefix_of(s) {
            assert("error:"@[0] == s[0]);
        }
    }
    assert(!"Error:"@.is_prefix_of(s)) by {
        if "Error:"@.is_prefix_of(s) {
            assert("Error:"@[0] == s[0]);
        }
    }
}

/// The first command line of the check, and which list it begins.
proof fn lemma_list_line()
    ensures
        check_line(0) == list_line() + "\n"@,
        lines_of(check_line(0)) == seq![list_line()],
        trim_of(list_line()) == list_line(),
        !flatpak_skips(list_line()),
        list_line()[0] == '$',
        list_begun_by(list_line()) == FlatpakParseMode::List,
{
    reveal_strlit("\n");
    reveal_strlit("$ ");
    reveal_strlit("flatpak");
    reveal_strlit(" ");
    reveal_strlit("list");
    reveal_strlit("flatpak list");
    reveal_strlit("--columns=application,ref,version,installation");
    let s = list_line();
    let args = seq!["list"@, "--columns=application,ref,version,installation"@];
    assert(args.drop_last() =~= seq!["list"@]);
    assert(join_of(seq!["list"@], " "@) == "list"@);
    assert(check_line(0) =~= s + "\n"@);
    assert(lacks("--columns=application,ref,version,installation"@, '\n'));
    assert(s.len() == 61);
    assert(lacks(s, '\n'));
    assert(s.last() == 'n');
    lemma_line(s);
    assert("\n"@ =~= seq!['\n']);
    lemma_not_skipped(s);
    assert(trim_start_of(s) == s);
    assert(trim_end_of(s) == s);
    assert(s.subrange(2, 14) =~= "flatpak list"@);
    assert(occurs_at(s, "flatpak list"@, 2));
}

/// The second command line of the check, and which list it begins.
proof fn lemma_updates_line()
    ensures
        check_line(1) == updates_line() + "\n"@,
        lines_of(check_line(1)) == seq![updates_line()],
        trim_of(updates_line()) == updates_line(),
        !flatpak_skips(updates_line()),
        updates_line()[0] == '$',
        list_begun_by(updates_line()) == FlatpakParseMode::Updates,
{
    reveal_strlit("\n");
    reveal_strlit("$ ");
    reveal_strlit("flatpak");
    reveal_strlit(" ");
    reveal_strlit("remote-ls");
    reveal_strlit("--updates");
    reveal_strlit("flatpak list");
    reveal_strlit("flatpak remote-ls");
    reveal_strlit("--columns=application,ref,version,commit");
    let s = updates_line();
    let args = seq!["remote-ls"@, "--updates"@, "--columns=application,ref,version,commit"@];
    assert(args.drop_last() =~= seq!["remote-ls"@, "--updates"@]);
    assert(args.drop_last().drop_last() =~= seq!["remote-ls"@]);
    assert(join_of(seq!["remote-ls"@], " "@) == "remote-ls"@);
    assert(join_of(seq!["remote-ls"@, "--updates"@], " "@) == "remote-ls"@ + " "@ + "--updates"@);
    assert(check_line(1) =~= s + "\n"@);
    let columns = "--columns=application,ref,version,commit"@;
    assert(lacks(columns, '\n'));
    assert(lacks(columns, 'k'));
    assert(s.len() == 70);
    assert(lacks(s, '\n'));
    assert(s.last() == 't');
    lemma_line(s);
    assert("\n"@ =~= seq!['\n']);
    lemma_not_skipped(s);
    assert(trim_start_of(s) == s);
    assert(trim_end_of(s) == s);
    assert(s.subrange(2, 19) =~= "flatpak remote-ls"@);
    assert(occurs_at(s, "flatpak remote-ls"@, 2));
    assert(!contains_text(s, "flatpak list"@)) by {
        if contains_text(s, "flatpak list"@) {
            let i = choose|i: int| occurs_at(s, "flatpak list"@, i);
            let piece = s.subrange(i, i + 12);
            assert(piece[6] == 'k');
            assert(s[i + 6] == 'k');
            assert(i == 2);
            assert(piece[8] == 'l');
            assert(s[10] == 'r');
        }
    }
}

/// What a command line does to what the lines before it say.
proof fn lemma_command_read(pre: Seq<Seq<char>>, line: Seq<char>)
    requires
        trim_of(line) == line,
        !flatpak_skips(line),
        line[0] == '$',
    ensures
        flatpak_lines_of(pre + seq![line]) == (FlatpakModel {
            mode: list_begun_by(line),
            ..flatpak_lines_of(pre)
        }),
{
    let all = pre + seq![line];
    assert(all.drop_last() =~= pre);
    assert(all.last() == line);
}

/// The log of a check of Flatpak whose two commands have printed `listed` and `offered`, each of
/// them whole lines, is read back as it was meant: every row of the second list is an update, and
/// what is installed is looked up in the first.
pub proof fn law_flatpak_log(listed: Seq<char>, offered: Seq<char>)
    requires
        listed.len() == 0 || listed.last() == '\n',
        no_command(lines_of(listed)),
        no_command(lines_of(offered)),
    ensures
        flatpak_updates_of(check_line(0) + listed + check_line(1) + offered) == offered_by(
            installed_in(Map::empty(), rows_of(lines_of(listed))),
            rows_of(lines_of(offered)),
        ),
{
    lemma_list_line();
    lemma_updates_line();
    reveal_strlit("\n");
    let first = check_line(0);
    let second = check_line(1);
    assert(first.last() == '\n');
    assert(second.last() == '\n');
    let head = first + listed;
    if listed.len() > 0 {
        assert(head.last() == listed.last());
    } else {
        assert(head =~= first);
    }
    let middle = head + second;
    assert(middle.last() == second.last());
    lemma_lines_add(first, listed);
    lemma_lines_add(head, second);
    lemma_lines_add(middle, offered);
    let none = Seq::<Seq<char>>::empty();
    let one = none + seq![list_line()];
    assert(one =~= seq![list_line()]);
    lemma_command_read(none, list_line());
    lemma_list_read(one, lines_of(listed));
    let two = one + lines_of(listed);
    assert(lines_of(head) == two);
    lemma_command_read(two, updates_line());
    let three = two + seq![updates_line()];
    assert(lines_of(middle) == three);
    lemma_list_read(three, lines_of(offered));
    let installed = installed_in(Map::empty(), rows_of(lines_of(listed)));
    assert(Seq::<EntryModel>::empty() + offered_by(installed, rows_of(lines_of(offered)))
        =~= offered_by(installed, rows_of(lines_of(offered))));
}

/// A check of Flatpak of which both commands could be run finds the rows of the second list, and
/// looks up in the first what is installed.
pub proof fn law_flatpak_check(privileged: bool, listed: ReportModel, offered: ReportModel)
    requires
        !listed.apt_lock,
        !offered.apt_lock,
        listed.text.len() == 0 || listed.text.last() == '\n',
        no_command(lines_of(listed.text)),
        no_command(lines_of(offered.text)),
    ensures
        check_of(
            ManagerId::Flatpak,
            privileged,
            check_commands_of(ManagerId::Flatpak),
            seq![Ok(listed), Ok(offered)],
            Seq::empty(),
            0,
        ) matches CheckStepModel::Done(outcome) && outcome.error is None && updates_of(
            ManagerId::Flatpak,
            outcome.output,
        ) == offered_by(
            installed_in(Map::empty(), rows_of(lines_of(listed.text))),
            rows_of(lines_of(offered.text)),
        ),
{
    law_flatpak_log(listed.text, offered.text);
    let commands = check_commands_of(ManagerId::Flatpak);
    let results: Seq<Result<ReportModel, Seq<char>>> = seq![Ok(listed), Ok(offered)];
    let none = Seq::<char>::empty();
    let one = none + check_line(0) + listed.text;
    let two = one + check_line(1) + offered.text;
    assert(commands.skip(1)[0] == commands[1]);
    assert(results.skip(1)[0] == results[1]);
    assert(commands.skip(1).skip(1).len() == 0);
    assert(check_of(
        ManagerId::Flatpak,
        privileged,
        commands.skip(1),
        results.skip(1),
        one,
        listed.status_code,
    ) == check_of(
        ManagerId::Flatpak,
        privileged,
        commands.skip(1).skip(1),
        results.skip(1).skip(1),
        two,
        offered.status_code,
    ));
    assert(two =~= check_line(0) + listed.text + check_line(1) + offered.text);
}

} // verus!
