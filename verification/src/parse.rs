//! What the output of the managers says about updates.

use crate::flatpak_list::{flatpak_lines_of, flatpak_updates_of, parse_flatpak_updates};
use crate::managers::ManagerId;
use crate::number::{parse_unsigned, unsigned_of};
use crate::text::{
    chars_of, contains, contains_text, equals, find, find_of, find_text, find_text_of,
    lemma_find_text, lines, lines_of, rfind, rfind_of, starts_with, string_of, texts,
    trim, trim_of, trim_start, trim_start_of, words, words_of,
};
use crate::updates::{entries, EntryModel, UpdateEntry};
use vstd::prelude::*;
use vstd::slice::slice_subrange;

verus! {

/// The part of `s` before the first `c`, or all of it.
pub open spec fn before_char(s: Seq<char>, c: char) -> Seq<char> {
    s.take(find_of(s, c))
}

/// The part of `s` before the first `c`, or all of it.
pub fn take_before(s: &[char], c: char) -> (r: &[char])
    ensures
        r@ == before_char(s@, c),
{
    let i: usize = find(s, c);
    slice_subrange(s, 0, i)
}

/// Whether a trimmed line of `apt list` names no package.
pub open spec fn apt_skips(line: Seq<char>) -> bool {
    ||| line.len() == 0
    ||| line[0] == '$'
    ||| "Listing"@.is_prefix_of(line)
    ||| "WARNING"@.is_prefix_of(line)
}

/// The installed version that a line of `apt list` gives in brackets.
pub open spec fn apt_current_of(line: Seq<char>) -> Option<Seq<char>> {
    let mark = "[upgradable from:"@;
    match find_text_of(line, mark) {
        Some(i) => {
            let rest = line.skip(i + mark.len());
            let piece = match find_text_of(rest, mark) {
                Some(j) => rest.take(j),
                None => rest,
            };
            Some(trim_of(before_char(piece, ']')))
        },
        None => None,
    }
}

/// The update that one line of `apt list` offers.
pub open spec fn apt_entry_of(raw: Seq<char>) -> Option<EntryModel> {
    let line = trim_of(raw);
    let parts = words_of(line);
    if apt_skips(line) || parts.len() == 0 {
        None
    } else {
        Some(
            EntryModel {
                manager: ManagerId::Apt,
                id: before_char(parts[0], '/'),
                name: before_char(parts[0], '/'),
                current_version: apt_current_of(line),
                new_version: if parts.len() > 1 {
                    Some(parts[1])
                } else {
                    None
                },
                scope: None,
            },
        )
    }
}

/// The updates that the lines of `apt list` offer.
pub open spec fn apt_entries_of(lines: Seq<Seq<char>>) -> Seq<EntryModel>
    decreases lines.len(),
{
    if lines.len() == 0 {
        Seq::empty()
    } else {
        match apt_entry_of(lines.last()) {
            Some(entry) => apt_entries_of(lines.drop_last()).push(entry),
            None => apt_entries_of(lines.drop_last()),
        }
    }
}

/// The updates that the output of `apt list` offers.
pub open spec fn apt_updates_of(output: Seq<char>) -> Seq<EntryModel> {
    apt_entries_of(lines_of(output))
}

/// The installed version that a line of `apt list` gives in brackets.
fn apt_current(line: &[char]) -> (r: Option<String>)
    ensures
        match r {
            Some(v) => apt_current_of(line@) == Some(v@),
            None => apt_current_of(line@) is None,
        },
{
    let mark = "[upgradable from:";
    proof {
        lemma_find_text(line@, mark@);
    }
    match find_text(line, mark) {
        Some(i) => {
            let end: usize = line.len();
            let rest = slice_subrange(line, i + chars_of(mark).len(), end);
            assert(rest@ =~= line@.skip(i + mark@.len()));
            proof {
                lemma_find_text(rest@, mark@);
            }
            let piece = match find_text(rest, mark) {
                Some(j) => slice_subrange(rest, 0, j),
                None => rest,
            };
            assert(find_text_of(rest@, mark@) is None ==> piece@ == rest@);
            Some(string_of(trim(take_before(piece, ']'))))
        },
        None => None,
    }
}

/// The update that one line of `apt list` offers.
fn apt_entry(raw: &[char]) -> (r: Option<UpdateEntry>)
    ensures
        match r {
            Some(e) => apt_entry_of(raw@) == Some(e@),
            None => apt_entry_of(raw@) is None,
        },
{
    let line = trim(raw);
    if line.len() == 0 || line[0] == '$' || starts_with(line, "Listing") || starts_with(
        line,
        "WARNING",
    ) {
        return None;
    }
    let parts = words(line);
    assert(texts(parts@).len() == parts@.len());
    if parts.len() == 0 {
        return None;
    }
    let name = take_before(parts[0], '/');
    let new_version = if parts.len() > 1 {
        Some(string_of(parts[1]))
    } else {
        None
    };
    assert(texts(parts@)[0] == parts@[0]@);
    Some(
        UpdateEntry {
            manager: ManagerId::Apt,
            id: string_of(name),
            name: string_of(name),
            current_version: apt_current(line),
            new_version,
            scope: None,
        },
    )
}

/// The updates that the output of `apt list` offers.
pub fn parse_apt_updates(output: &str) -> (r: Vec<UpdateEntry>)
    ensures
        entries(r@) == apt_updates_of(output@),
{
    let chars = chars_of(output);
    let all = lines(&chars);
    let ghost seqs = lines_of(output@);
    let mut out: Vec<UpdateEntry> = Vec::new();
    let mut i: usize = 0;
    assert(entries(out@) =~= apt_entries_of(seqs.take(0)));
    while i < all.len()
        invariant
            i <= all@.len(),
            texts(all@) == seqs,
            seqs == lines_of(output@),
            entries(out@) == apt_entries_of(seqs.take(i as int)),
        decreases all@.len() - i,
    {
        let ghost before = out@;
        let found = apt_entry(all[i]);
        proof {
            assert(seqs[i as int] == all@[i as int]@);
            assert(seqs.take(i + 1).drop_last() =~= seqs.take(i as int));
        }
        if let Some(entry) = found {
            out.push(entry);
            assert(entries(out@) =~= entries(before).push(entry@));
        }
        i += 1;
    }
    assert(seqs.take(seqs.len() as int) =~= seqs);
    out
}

/// Whether `value` is an architecture of RPM packages.
pub open spec fn rpm_arch(value: Seq<char>) -> bool {
    ||| value == "noarch"@
    ||| value == "x86_64"@
    ||| value == "i686"@
    ||| value == "i586"@
    ||| value == "i386"@
    ||| value == "aarch64"@
    ||| value == "armv7hl"@
    ||| value == "armv7hnl"@
    ||| value == "armv7h"@
    ||| value == "armv6hl"@
    ||| value == "ppc64le"@
    ||| value == "ppc64"@
    ||| value == "s390x"@
    ||| value == "riscv64"@
}

/// Whether `value` is an architecture of RPM packages.
pub fn is_rpm_arch(value: &[char]) -> (r: bool)
    ensures
        r == rpm_arch(value@),
{
    equals(value, "noarch") || equals(value, "x86_64") || equals(value, "i686") || equals(
        value,
        "i586",
    ) || equals(value, "i386") || equals(value, "aarch64") || equals(value, "armv7hl") || equals(
        value,
        "armv7hnl",
    ) || equals(value, "armv7h") || equals(value, "armv6hl") || equals(value, "ppc64le") || equals(
        value,
        "ppc64",
    ) || equals(value, "s390x") || equals(value, "riscv64")
}

/// The name and the architecture of an RPM package, where both are there.
pub open spec fn rpm_split_of(value: Seq<char>) -> Option<(Seq<char>, Seq<char>)> {
    match rfind_of(value, '.') {
        Some(i) => if rpm_arch(value.skip(i + 1)) {
            Some((value.take(i), value.skip(i + 1)))
        } else {
            None
        },
        None => None,
    }
}

/// The name and the architecture of an RPM package, where both are there.
pub fn split_rpm_name_arch<'a>(value: &'a [char]) -> (r: Option<(&'a [char], &'a [char])>)
    ensures
        match r {
            Some(p) => rpm_split_of(value@) == Some((p.0@, p.1@)),
            None => rpm_split_of(value@) is None,
        },
{
    match rfind(value, '.') {
        Some(i) => {
            let end: usize = value.len();
            let name = slice_subrange(value, 0, i);
            let arch = slice_subrange(value, i + 1, end);
            assert(arch@ =~= value@.skip(i + 1));
            if is_rpm_arch(arch) {
                Some((name, arch))
            } else {
                None
            }
        },
        None => None,
    }
}

/// Whether a trimmed line of `dnf` or `yum` names no package.
pub open spec fn rpm_skips(line: Seq<char>) -> bool {
    ||| line.len() == 0
    ||| line[0] == '$'
    ||| "Last metadata"@.is_prefix_of(line)
    ||| "Updating and loading repositories"@.is_prefix_of(line)
    ||| "Repositories loaded"@.is_prefix_of(line)
    ||| "Loaded plugins"@.is_prefix_of(line)
    ||| "Loading mirror speeds"@.is_prefix_of(line)
    ||| "Obsoleting Packages"@.is_prefix_of(line)
    ||| "Obsoleting packages"@.is_prefix_of(line)
    ||| "Security:"@.is_prefix_of(line)
    ||| "Error:"@.is_prefix_of(line)
    ||| "=="@.is_prefix_of(line)
}

/// The update that one line of `dnf` or `yum` offers.
pub open spec fn rpm_entry_of(id: ManagerId, raw: Seq<char>) -> Option<EntryModel> {
    let line = trim_of(raw);
    let parts = words_of(line);
    if rpm_skips(line) || parts.len() < 2 {
        None
    } else {
        match rpm_split_of(parts[0]) {
            Some((name, arch)) => Some(
                EntryModel {
                    manager: id,
                    id: parts[0],
                    name,
                    current_version: None,
                    new_version: Some(parts[1]),
                    scope: None,
                },
            ),
            None => None,
        }
    }
}

/// The updates that the lines of `dnf` or `yum` offer.
pub open spec fn rpm_entries_of(id: ManagerId, lines: Seq<Seq<char>>) -> Seq<EntryModel>
    decreases lines.len(),
{
    if lines.len() == 0 {
        Seq::empty()
    } else {
        match rpm_entry_of(id, lines.last()) {
            Some(entry) => rpm_entries_of(id, lines.drop_last()).push(entry),
            None => rpm_entries_of(id, lines.drop_last()),
        }
    }
}

/// The updates that the output of `dnf` or `yum` offers.
pub open spec fn rpm_updates_of(id: ManagerId, output: Seq<char>) -> Seq<EntryModel> {
    rpm_entries_of(id, lines_of(output))
}

/// Whether a trimmed line of `dnf` or `yum` names no package.
fn skip_rpm_line(line: &[char]) -> (r: bool)
    ensures
        r == rpm_skips(line@),
{
    line.len() == 0 || line[0] == '$' || starts_with(line, "Last metadata") || starts_with(
        line,
        "Updating and loading repositories",
    ) || starts_with(line, "Repositories loaded") || starts_with(line, "Loaded plugins")
        || starts_with(line, "Loading mirror speeds") || starts_with(line, "Obsoleting Packages")
        || starts_with(line, "Obsoleting packages") || starts_with(line, "Security:")
        || starts_with(line, "Error:") || starts_with(line, "==")
}

/// The update that one line of `dnf` or `yum` offers.
fn rpm_entry(id: ManagerId, raw: &[char]) -> (r: Option<UpdateEntry>)
    ensures
        match r {
            Some(e) => rpm_entry_of(id, raw@) == Some(e@),
            None => rpm_entry_of(id, raw@) is None,
        },
{
    let line = trim(raw);
    if skip_rpm_line(line) {
        return None;
    }
    let parts = words(line);
    assert(texts(parts@).len() == parts@.len());
    if parts.len() < 2 {
        return None;
    }
    assert(texts(parts@)[0] == parts@[0]@);
    assert(texts(parts@)[1] == parts@[1]@);
    match split_rpm_name_arch(parts[0]) {
        Some((name, _arch)) => Some(
            UpdateEntry {
                manager: id,
                id: string_of(parts[0]),
                name: string_of(name),
                current_version: None,
                new_version: Some(string_of(parts[1])),
                scope: None,
            },
        ),
        None => None,
    }
}

/// The updates that the output of `dnf` or `yum` offers.
pub fn parse_dnf_yum_updates(id: ManagerId, output: &str) -> (r: Vec<UpdateEntry>)
    ensures
        entries(r@) == rpm_updates_of(id, output@),
{
    let chars = chars_of(output);
    let all = lines(&chars);
    let ghost seqs = lines_of(output@);
    let mut out: Vec<UpdateEntry> = Vec::new();
    let mut i: usize = 0;
    assert(entries(out@) =~= rpm_entries_of(id, seqs.take(0)));
    while i < all.len()
        invariant
            i <= all@.len(),
            texts(all@) == seqs,
            seqs == lines_of(output@),
            entries(out@) == rpm_entries_of(id, seqs.take(i as int)),
        decreases all@.len() - i,
    {
        let ghost before = out@;
        let found = rpm_entry(id, all[i]);
        proof {
            assert(seqs[i as int] == all@[i as int]@);
            assert(seqs.take(i + 1).drop_last() =~= seqs.take(i as int));
        }
        if let Some(entry) = found {
            out.push(entry);
            assert(entries(out@) =~= entries(before).push(entry@));
        }
        i += 1;
    }
    assert(seqs.take(seqs.len() as int) =~= seqs);
    out
}

/// The number of upgraded packages that a line gives, as in `3 upgraded, 0 newly installed`.
pub open spec fn upgrade_count_of(line: Seq<char>) -> Option<int> {
    let parts = words_of(before_char(line, ','));
    if parts.len() >= 2 && parts[1] == "upgraded"@ {
        unsigned_of(parts[0], u32::MAX as int)
    } else {
        None
    }
}

/// Whether the first line that gives a number of upgraded packages gives more than none.
pub open spec fn upgraded_any(lines: Seq<Seq<char>>) -> bool
    decreases lines.len(),
{
    if lines.len() == 0 {
        false
    } else {
        match upgrade_count_of(lines[0]) {
            Some(count) => count > 0,
            None => upgraded_any(lines.skip(1)),
        }
    }
}

/// The number of upgraded packages that a line gives.
fn upgrade_count(line: &[char]) -> (r: Option<u64>)
    ensures
        match r {
            Some(n) => upgrade_count_of(line@) == Some(n as int),
            None => upgrade_count_of(line@) is None,
        },
{
    let parts = words(take_before(line, ','));
    assert(texts(parts@).len() == parts@.len());
    if parts.len() < 2 {
        return None;
    }
    assert(texts(parts@)[0] == parts@[0]@);
    assert(texts(parts@)[1] == parts@[1]@);
    if equals(parts[1], "upgraded") {
        parse_unsigned(parts[0], u32::MAX as u64)
    } else {
        None
    }
}

/// Whether the output of a run of APT tells that it upgraded packages.
pub fn apt_has_updates(output: &str) -> (r: bool)
    ensures
        r == upgraded_any(lines_of(output@)),
{
    let chars = chars_of(output);
    let all = lines(&chars);
    let ghost seqs = lines_of(output@);
    let mut i: usize = 0;
    assert(seqs.skip(0) =~= seqs);
    while i < all.len()
        invariant
            i <= all@.len(),
            texts(all@) == seqs,
            seqs == lines_of(output@),
            upgraded_any(seqs) == upgraded_any(seqs.skip(i as int)),
        decreases all@.len() - i,
    {
        proof {
            assert(seqs[i as int] == all@[i as int]@);
            assert(seqs.skip(i as int).skip(1) =~= seqs.skip(i + 1));
        }
        if let Some(count) = upgrade_count(all[i]) {
            return count > 0;
        }
        i += 1;
    }
    false
}

/// Whether one of the lines has `part` in it.
pub open spec fn some_line_has(lines: Seq<Seq<char>>, part: Seq<char>) -> bool {
    exists|i: int| 0 <= i < lines.len() && contains_text(#[trigger] lines[i], part)
}

/// Whether one of the lines has `part` in it.
fn any_line_has(output: &str, part: &str) -> (r: bool)
    ensures
        r == some_line_has(lines_of(output@), part@),
{
    let chars = chars_of(output);
    let all = lines(&chars);
    let ghost seqs = lines_of(output@);
    let mut i: usize = 0;
    while i < all.len()
        invariant
            i <= all@.len(),
            texts(all@) == seqs,
            seqs == lines_of(output@),
            forall|j: int| 0 <= j < i ==> !contains_text(#[trigger] seqs[j], part@),
        decreases all@.len() - i,
    {
        assert(seqs[i as int] == all@[i as int]@);
        if contains(all[i], part) {
            return true;
        }
        i += 1;
    }
    false
}

/// Whether a line is more than a command line or a note that there is nothing to do.
pub open spec fn is_payload(line: Seq<char>) -> bool {
    &&& trim_of(line).len() > 0
    &&& !"$"@.is_prefix_of(trim_start_of(line))
    &&& !contains_text(line, "No updates"@)
    &&& !contains_text(line, "Nothing to do."@)
}

/// Whether one of the lines is payload.
pub open spec fn has_payload(lines: Seq<Seq<char>>) -> bool {
    exists|i: int| 0 <= i < lines.len() && is_payload(#[trigger] lines[i])
}

/// Whether the output has a line that names an update.
pub fn has_non_empty_payload(output: &str) -> (r: bool)
    ensures
        r == has_payload(lines_of(output@)),
{
    let chars = chars_of(output);
    let all = lines(&chars);
    let ghost seqs = lines_of(output@);
    let mut i: usize = 0;
    while i < all.len()
        invariant
            i <= all@.len(),
            texts(all@) == seqs,
            seqs == lines_of(output@),
            forall|j: int| 0 <= j < i ==> !is_payload(#[trigger] seqs[j]),
        decreases all@.len() - i,
    {
        let line = all[i];
        assert(seqs[i as int] == line@);
        if trim(line).len() > 0 && !starts_with(trim_start(line), "$") && !contains(
            line,
            "No updates",
        ) && !contains(line, "Nothing to do.") {
            return true;
        }
        i += 1;
    }
    false
}

/// Whether the output and the last status of a check tell of updates.
pub open spec fn tells_of_updates(id: ManagerId, output: Seq<char>, status_code: i32) -> bool {
    match id {
        ManagerId::Apt => status_code == 0 && apt_updates_of(output).len() > 0,
        ManagerId::Flatpak => status_code == 0 && flatpak_updates_of(output).len() > 0,
        ManagerId::Snap => !contains_text(output, "All snaps up to date."@),
        ManagerId::Dnf | ManagerId::Yum => status_code == 100,
        ManagerId::Pacman | ManagerId::Brew => has_payload(lines_of(output)),
        ManagerId::Zypper => some_line_has(lines_of(output), "|"@),
        ManagerId::Emerge => some_line_has(lines_of(output), "ebuild"@),
        ManagerId::NixEnv => some_line_has(lines_of(output), "would be upgraded"@),
    }
}

/// Whether the output and the last status of a check tell of updates.
pub fn has_updates(id: ManagerId, output: &str, status_code: i32) -> (r: bool)
    ensures
        r == tells_of_updates(id, output@, status_code),
{
    match id {
        ManagerId::Apt => {
            let found = parse_apt_updates(output);
            assert(entries(found@).len() == found@.len());
            status_code == 0 && found.len() > 0
        },
        ManagerId::Flatpak => {
            let found = parse_flatpak_updates(output);
            assert(entries(found@).len() == found@.len());
            status_code == 0 && found.len() > 0
        },
        ManagerId::Snap => !contains(&chars_of(output), "All snaps up to date."),
        ManagerId::Dnf | ManagerId::Yum => status_code == 100,
        ManagerId::Pacman | ManagerId::Brew => has_non_empty_payload(output),
        ManagerId::Zypper => any_line_has(output, "|"),
        ManagerId::Emerge => any_line_has(output, "ebuild"),
        ManagerId::NixEnv => any_line_has(output, "would be upgraded"),
    }
}

/// The updates that the output of a manager's check offers, for the managers whose updates can
/// be told apart.
pub open spec fn updates_of(id: ManagerId, output: Seq<char>) -> Seq<EntryModel> {
    match id {
        ManagerId::Apt => apt_updates_of(output),
        ManagerId::Flatpak => flatpak_updates_of(output),
        ManagerId::Dnf | ManagerId::Yum => rpm_updates_of(id, output),
        _ => Seq::empty(),
    }
}

/// The updates that the output of a manager's check offers.
pub fn parse_updates(id: ManagerId, output: &str) -> (r: Vec<UpdateEntry>)
    ensures
        entries(r@) == updates_of(id, output@),
{
    match id {
        ManagerId::Apt => parse_apt_updates(output),
        ManagerId::Flatpak => parse_flatpak_updates(output),
        ManagerId::Dnf | ManagerId::Yum => parse_dnf_yum_updates(id, output),
        _ => {
            let none: Vec<UpdateEntry> = Vec::new();
            assert(entries(none@) =~= Seq::empty());
            none
        },
    }
}

/// Every update of a manager's check belongs to that manager.
pub proof fn law_updates_belong(id: ManagerId, output: Seq<char>)
    ensures
        forall|i: int|
            0 <= i < updates_of(id, output).len() ==> (#[trigger] updates_of(
                id,
                output,
            )[i]).manager == id,
{
    let all = lines_of(output);
    match id {
        ManagerId::Apt => lemma_apt_belong(all),
        ManagerId::Flatpak => lemma_flatpak_belong(all),
        ManagerId::Dnf | ManagerId::Yum => lemma_rpm_belong(id, all),
        _ => {},
    }
}

/// What `apt list` offers belongs to APT.
proof fn lemma_apt_belong(lines: Seq<Seq<char>>)
    ensures
        forall|i: int|
            0 <= i < apt_entries_of(lines).len() ==> (#[trigger] apt_entries_of(lines)[i]).manager
                == ManagerId::Apt,
    decreases lines.len(),
{
    if lines.len() > 0 {
        lemma_apt_belong(lines.drop_last());
    }
}

/// What `dnf` or `yum` offers belongs to it.
proof fn lemma_rpm_belong(id: ManagerId, lines: Seq<Seq<char>>)
    ensures
        forall|i: int|
            0 <= i < rpm_entries_of(id, lines).len() ==> (#[trigger] rpm_entries_of(
                id,
                lines,
            )[i]).manager == id,
    decreases lines.len(),
{
    if lines.len() > 0 {
        lemma_rpm_belong(id, lines.drop_last());
    }
}

/// What the lists of `flatpak` offer belongs to Flatpak.
proof fn lemma_flatpak_belong(lines: Seq<Seq<char>>)
    ensures
        forall|i: int|
            0 <= i < flatpak_lines_of(lines).updates.len() ==> (#[trigger] flatpak_lines_of(
                lines,
            ).updates[i]).manager == ManagerId::Flatpak,
    decreases lines.len(),
{
    if lines.len() > 0 {
        lemma_flatpak_belong(lines.drop_last());
    }
}

} // verus!
