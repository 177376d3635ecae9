//! What the lists of `flatpak` say about updates.

use crate::managers::ManagerId;
use crate::text::{
    chars_of, contains, contains_char, contains_text, equals, lines, lines_of, same_text, split,
    split_of, starts_with, string_of, texts, trim, trim_of, words, words_of,
};
use crate::updates::{clone_opt, entries, opt_text, EntryModel, InstallScope, UpdateEntry};
use vstd::hash_map::StringHashMap;
use vstd::prelude::*;
use vstd::slice::slice_subrange;

verus! {

/// Which list the lines belong to.
#[derive(Clone, Copy, Debug, PartialEq, Eq, Structural)]
pub enum FlatpakParseMode {
    Neither,
    List,
    Updates,
}

/// What is known of an installed Flatpak.
#[derive(Debug)]
pub struct FlatpakInstalledInfo {
    pub version: String,
    pub commit: Option<String>,
    pub scope: Option<InstallScope>,
}

/// What is known of an installed Flatpak, as characters.
pub struct InstalledModel {
    pub version: Seq<char>,
    pub commit: Option<Seq<char>>,
    pub scope: Option<InstallScope>,
}

impl View for FlatpakInstalledInfo {
    type V = InstalledModel;

    open spec fn view(&self) -> InstalledModel {
        InstalledModel {
            version: self.version@,
            commit: opt_text(self.commit),
            scope: self.scope,
        }
    }
}

impl Clone for FlatpakInstalledInfo {
    fn clone(&self) -> (r: Self)
        ensures
            r == *self,
    {
        FlatpakInstalledInfo {
            version: self.version.clone(),
            commit: clone_opt(&self.commit),
            scope: self.scope,
        }
    }
}

/// A column without the white space at its ends; a dash stands for nothing.
pub open spec fn normal_value_of(value: Seq<char>) -> Option<Seq<char>> {
    let trimmed = trim_of(value);
    if trimmed.len() == 0 || trimmed == "-"@ {
        None
    } else {
        Some(trimmed)
    }
}

/// A column without the white space at its ends; a dash stands for nothing.
pub fn normalize_flatpak_value(value: &[char]) -> (r: Option<String>)
    ensures
        opt_text(r) == normal_value_of(value@),
{
    let trimmed = trim(value);
    if trimmed.len() == 0 || equals(trimmed, "-") {
        None
    } else {
        Some(string_of(trimmed))
    }
}

/// The first twelve characters of a commit.
pub open spec fn short_commit_of(commit: Seq<char>) -> Seq<char> {
    if commit.len() <= 12 {
        commit
    } else {
        commit.take(12)
    }
}

/// The first twelve characters of a commit.
pub fn short_commit(commit: &str) -> (r: String)
    ensures
        r@ == short_commit_of(commit@),
{
    let chars = chars_of(commit);
    if chars.len() <= 12 {
        string_of(&chars)
    } else {
        string_of(slice_subrange(&chars, 0, 12))
    }
}

/// The application that a ref such as `app/id/arch/branch` names.
pub open spec fn app_id_of(ref_id: Seq<char>) -> Option<Seq<char>> {
    let parts = split_of(ref_id, '/');
    if parts[0] == "app"@ && parts.len() > 1 {
        Some(parts[1])
    } else {
        None
    }
}

/// The application that a ref such as `app/id/arch/branch` names.
pub fn flatpak_app_id_from_ref(ref_id: &[char]) -> (r: Option<String>)
    ensures
        opt_text(r) == app_id_of(ref_id@),
{
    let parts = split(ref_id, '/');
    assert(texts(parts@).len() == parts@.len());
    assert(texts(parts@)[0] == parts@[0]@);
    if !equals(parts[0], "app") {
        return None;
    }
    if parts.len() > 1 {
        assert(texts(parts@)[1] == parts@[1]@);
        Some(string_of(parts[1]))
    } else {
        None
    }
}

/// The scope that a column of the list names.
pub open spec fn install_scope_of(value: Seq<char>) -> Option<InstallScope> {
    if value == "user"@ {
        Some(InstallScope::User)
    } else if value == "system"@ {
        Some(InstallScope::System)
    } else {
        None
    }
}

/// The scope that a column of the list names.
pub fn parse_install_scope(value: &[char]) -> (r: Option<InstallScope>)
    ensures
        r == install_scope_of(value@),
{
    if equals(value, "user") {
        Some(InstallScope::User)
    } else if equals(value, "system") {
        Some(InstallScope::System)
    } else {
        None
    }
}

/// What the lines read so far say.
pub struct FlatpakModel {
    pub mode: FlatpakParseMode,
    pub installed: Map<Seq<char>, InstalledModel>,
    pub updates: Seq<EntryModel>,
}

/// Whether a trimmed line is a heading or an error.
pub open spec fn flatpak_skips(line: Seq<char>) -> bool {
    ||| line.len() == 0
    ||| "Application"@.is_prefix_of(line)
    ||| "Name"@.is_prefix_of(line)
    ||| "error:"@.is_prefix_of(line)
    ||| "Error:"@.is_prefix_of(line)
}

/// The list that a command line begins.
pub open spec fn list_begun_by(line: Seq<char>) -> FlatpakParseMode {
    if contains_text(line, "flatpak list"@) {
        FlatpakParseMode::List
    } else if contains_text(line, "flatpak remote-ls"@) {
        FlatpakParseMode::Updates
    } else {
        FlatpakParseMode::Neither
    }
}

/// The columns of a line: between tabs, or, where there is no tab, between white space.
pub open spec fn columns_of(line: Seq<char>) -> Seq<Seq<char>> {
    if line.contains('\t') {
        split_of(line, '\t')
    } else {
        words_of(line)
    }
}

/// What a row of the list of installed Flatpaks says.
pub open spec fn installed_row_of(parts: Seq<Seq<char>>) -> InstalledModel {
    InstalledModel {
        version: parts[2],
        commit: if parts.len() >= 5 {
            normal_value_of(parts[3])
        } else {
            None
        },
        scope: if parts.len() >= 5 {
            install_scope_of(parts[4])
        } else if parts.len() >= 4 {
            install_scope_of(parts[3])
        } else {
            None
        },
    }
}

/// The installed Flatpaks with those of a row, under the application's id, the ref and the name.
pub open spec fn with_installed(
    installed: Map<Seq<char>, InstalledModel>,
    parts: Seq<Seq<char>>,
) -> Map<Seq<char>, InstalledModel> {
    let info = installed_row_of(parts);
    let first = match app_id_of(parts[1]) {
        Some(app) => installed.insert(app, info),
        None => installed,
    };
    first.insert(parts[1], info).insert(parts[0], info)
}

/// What is known of the Flatpak of a row: by its ref, else its name, else its application's id.
pub open spec fn installed_for(
    installed: Map<Seq<char>, InstalledModel>,
    parts: Seq<Seq<char>>,
) -> Option<InstalledModel> {
    if installed.contains_key(parts[1]) {
        Some(installed[parts[1]])
    } else if installed.contains_key(parts[0]) {
        Some(installed[parts[0]])
    } else {
        match app_id_of(parts[1]) {
            Some(app) => if installed.contains_key(app) {
                Some(installed[app])
            } else {
                None
            },
            None => None,
        }
    }
}

/// The commits by which an update differs that keeps its version.
pub open spec fn changed_commits(
    info: Option<InstalledModel>,
    parts: Seq<Seq<char>>,
) -> Option<(Seq<char>, Seq<char>)> {
    let new_commit = if parts.len() >= 4 {
        normal_value_of(parts[3])
    } else {
        None
    };
    match (info, new_commit) {
        (Some(i), Some(new)) => match i.commit {
            Some(old) => if i.version == parts[2] && old != new {
                Some((old, new))
            } else {
                None
            },
            None => None,
        },
        _ => None,
    }
}

/// A version with a commit behind it in brackets.
pub open spec fn version_with_commit(version: Seq<char>, commit: Seq<char>) -> Seq<char> {
    version + " ("@ + short_commit_of(commit) + ")"@
}

/// The update that a row of the list of updates offers.
pub open spec fn flatpak_entry_of(
    installed: Map<Seq<char>, InstalledModel>,
    parts: Seq<Seq<char>>,
) -> EntryModel {
    let info = installed_for(installed, parts);
    let commits = changed_commits(info, parts);
    EntryModel {
        manager: ManagerId::Flatpak,
        id: parts[1],
        name: parts[0],
        current_version: match (info, commits) {
            (Some(i), Some((old, new))) => Some(version_with_commit(i.version, old)),
            (Some(i), None) => Some(i.version),
            (None, _) => None,
        },
        new_version: match commits {
            Some((old, new)) => Some(version_with_commit(parts[2], new)),
            None => Some(parts[2]),
        },
        scope: match info {
            Some(i) => i.scope,
            None => None,
        },
    }
}

/// What one more line adds.
pub open spec fn flatpak_step(m: FlatpakModel, raw: Seq<char>) -> FlatpakModel {
    let line = trim_of(raw);
    let parts = columns_of(line);
    if flatpak_skips(line) {
        m
    } else if line[0] == '$' {
        FlatpakModel { mode: list_begun_by(line), ..m }
    } else if parts.len() < 3 {
        m
    } else {
        match m.mode {
            FlatpakParseMode::List => FlatpakModel {
                installed: with_installed(m.installed, parts),
                ..m
            },
            FlatpakParseMode::Updates => FlatpakModel {
                updates: m.updates.push(flatpak_entry_of(m.installed, parts)),
                ..m
            },
            FlatpakParseMode::Neither => m,
        }
    }
}

/// What the lines say, read from the first.
pub open spec fn flatpak_lines_of(lines: Seq<Seq<char>>) -> FlatpakModel
    decreases lines.len(),
{
    if lines.len() == 0 {
        FlatpakModel {
            mode: FlatpakParseMode::Neither,
            installed: Map::empty(),
            updates: Seq::empty(),
        }
    } else {
        flatpak_step(flatpak_lines_of(lines.drop_last()), lines.last())
    }
}

/// The updates that the output of the two lists offers.
pub open spec fn flatpak_updates_of(output: Seq<char>) -> Seq<EntryModel> {
    flatpak_lines_of(lines_of(output)).updates
}

/// The installed Flatpaks, as characters.
spec fn infos(m: Map<Seq<char>, FlatpakInstalledInfo>) -> Map<Seq<char>, InstalledModel> {
    m.map_values(|i: FlatpakInstalledInfo| i@)
}

/// Notes the Flatpak of a row.
fn note_installed(
    installed: &mut StringHashMap<FlatpakInstalledInfo>,
    parts: &Vec<&[char]>,
)
    requires
        parts@.len() >= 3,
    ensures
        infos(final(installed)@) == with_installed(infos(old(installed)@), texts(parts@)),
{
    let ghost rows = texts(parts@);
    assert(forall|i: int| 0 <= i < rows.len() ==> rows[i] == #[trigger] parts@[i]@);
    let commit = if parts.len() >= 5 {
        normalize_flatpak_value(parts[3])
    } else {
        None
    };
    let scope = if parts.len() >= 5 {
        parse_install_scope(parts[4])
    } else if parts.len() >= 4 {
        parse_install_scope(parts[3])
    } else {
        None
    };
    let info = FlatpakInstalledInfo { version: string_of(parts[2]), commit, scope };
    assert(info@ == installed_row_of(rows));
    let ghost before = infos(installed@);
    if let Some(app) = flatpak_app_id_from_ref(parts[1]) {
        installed.insert(app, info.clone());
        assert(infos(installed@) =~= before.insert(app@, info@));
    }
    let ghost first = infos(installed@);
    installed.insert(string_of(parts[1]), info.clone());
    assert(infos(installed@) =~= first.insert(rows[1], info@));
    installed.insert(string_of(parts[0]), info);
    assert(infos(installed@) =~= first.insert(rows[1], info@).insert(rows[0], info@));
}

/// A version with a commit behind it in brackets.
fn mark_version(version: &str, commit: &str) -> (r: String)
    ensures
        r@ == version_with_commit(version@, commit@),
{
    let mut out = version.to_string();
    out.append(" (");
    let short = short_commit(commit);
    out.append(short.as_str());
    out.append(")");
    out
}

/// What is known of the Flatpak of a row.
fn look_up<'a>(
    installed: &'a StringHashMap<FlatpakInstalledInfo>,
    parts: &Vec<&[char]>,
) -> (r: Option<&'a FlatpakInstalledInfo>)
    requires
        parts@.len() >= 3,
    ensures
        match r {
            Some(i) => installed_for(infos(installed@), texts(parts@)) == Some(i@),
            None => installed_for(infos(installed@), texts(parts@)) is None,
        },
{
    assert(texts(parts@)[0] == parts@[0]@);
    assert(texts(parts@)[1] == parts@[1]@);
    let by_ref = installed.get(string_of(parts[1]).as_str());
    if by_ref.is_some() {
        return by_ref;
    }
    let by_name = installed.get(string_of(parts[0]).as_str());
    if by_name.is_some() {
        return by_name;
    }
    match flatpak_app_id_from_ref(parts[1]) {
        Some(app) => installed.get(app.as_str()),
        None => None,
    }
}

/// The update that a row of the list of updates offers.
fn flatpak_entry(
    installed: &StringHashMap<FlatpakInstalledInfo>,
    parts: &Vec<&[char]>,
) -> (r: UpdateEntry)
    requires
        parts@.len() >= 3,
    ensures
        r@ == flatpak_entry_of(infos(installed@), texts(parts@)),
{
    let ghost rows = texts(parts@);
    assert(forall|i: int| 0 <= i < rows.len() ==> rows[i] == #[trigger] parts@[i]@);
    let new_commit = if parts.len() >= 4 {
        normalize_flatpak_value(parts[3])
    } else {
        None
    };
    let id = string_of(parts[1]);
    let name = string_of(parts[0]);
    let version = string_of(parts[2]);
    match look_up(installed, parts) {
        Some(info) => {
            let mut current_version = info.version.clone();
            let mut new_version = version.clone();
            if same_text(info.version.as_str(), version.as_str()) {
                if let Some(old) = &info.commit {
                    if let Some(new) = &new_commit {
                        if !same_text(old.as_str(), new.as_str()) {
                            current_version = mark_version(info.version.as_str(), old.as_str());
                            new_version = mark_version(version.as_str(), new.as_str());
                        }
                    }
                }
            }
            UpdateEntry {
                manager: ManagerId::Flatpak,
                id,
                name,
                current_version: Some(current_version),
                new_version: Some(new_version),
                scope: info.scope,
            }
        },
        None => UpdateEntry {
            manager: ManagerId::Flatpak,
            id,
            name,
            current_version: None,
            new_version: Some(version),
            scope: None,
        },
    }
}

/// The updates that the output of the two lists offers.
pub fn parse_flatpak_updates(output: &str) -> (r: Vec<UpdateEntry>)
    ensures
        entries(r@) == flatpak_updates_of(output@),
{
    let chars = chars_of(output);
    let all = lines(&chars);
    let ghost seqs = lines_of(output@);
    let mut out: Vec<UpdateEntry> = Vec::new();
    let mut installed: StringHashMap<FlatpakInstalledInfo> = StringHashMap::new();
    let mut mode = FlatpakParseMode::Neither;
    let mut i: usize = 0;
    assert(entries(out@) =~= Seq::empty());
    assert(infos(installed@) =~= Map::empty());
    while i < all.len()
        invariant
            i <= all@.len(),
            texts(all@) == seqs,
            flatpak_lines_of(seqs.take(i as int)) == (FlatpakModel {
                mode,
                installed: infos(installed@),
                updates: entries(out@),
            }),
        decreases all@.len() - i,
    {
        proof {
            assert(seqs[i as int] == all@[i as int]@);
            assert(seqs.take(i + 1).drop_last() =~= seqs.take(i as int));
        }
        let line = trim(all[i]);
        i += 1;
        if line.len() == 0 || starts_with(line, "Application") || starts_with(line, "Name")
            || starts_with(line, "error:") || starts_with(line, "Error:") {
            continue;
        }
        if line[0] == '$' {
            if contains(line, "flatpak list") {
                mode = FlatpakParseMode::List;
            } else if contains(line, "flatpak remote-ls") {
                mode = FlatpakParseMode::Updates;
            } else {
                mode = FlatpakParseMode::Neither;
            }
            continue;
        }
        let parts = if contains_char(line, '\t') {
            split(line, '\t')
        } else {
            words(line)
        };
        assert(texts(parts@).len() == parts@.len());
        if parts.len() < 3 {
            continue;
        }
        match mode {
            FlatpakParseMode::List => {
                note_installed(&mut installed, &parts);
            },
            FlatpakParseMode::Updates => {
                let ghost before = out@;
                let entry = flatpak_entry(&installed, &parts);
                out.push(entry);
                assert(entries(out@) =~= entries(before).push(entry@));
            },
            FlatpakParseMode::Neither => {},
        }
    }
    assert(seqs.take(seqs.len() as int) =~= seqs);
    out
}

} // verus!
