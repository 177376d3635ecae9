//! What the lists of APT, DNF and YUM offer, line by line, and when checks find updates.

use crate::flatpak_list::flatpak_updates_of;
use crate::managers::ManagerId;
use crate::model::can_choose;
use crate::number::{decimal_of, is_digit, law_unsigned_round_trip, lemma_decimal};
use crate::parse::{
    apt_current_of, apt_entries_of, apt_entry_of, apt_updates_of, before_char, is_payload, rpm_arch,
    rpm_entries_of, rpm_entry_of, rpm_skips, rpm_updates_of, some_line_has, tells_of_updates,
    updates_of, upgrade_count_of, upgraded_any,
};
use crate::text::{
    contains_text, find_of, find_text_of, is_blank, is_tight, is_white_space, is_word, lacks,
    law_lines, law_rfind, law_trim, law_trim_start, law_words, lemma_find, lemma_find_is,
    lemma_find_text, lemma_find_text_is, lemma_lines_add, lemma_trimmed, lemma_word_len, lines_of,
    occurs_at, strip_return, trim_of, trim_start_of, word_len, words_of,
};
use crate::updates::EntryModel;
use vstd::prelude::*;

verus! {

/// Text without white space at its head keeps its head when white space is trimmed off, as far as
/// its head does not end with white space.
proof fn lemma_head_stays(white: Seq<char>, head: Seq<char>, rest: Seq<char>) -> (kept: Seq<char>)
    requires
        is_blank(white),
        head.len() > 0,
        is_tight(head),
    ensures
        trim_of(white + head + rest) == head + kept,
        is_tight(head + kept),
        kept.is_prefix_of(rest),
        is_tight(rest) ==> kept == rest,
{
    let raw = white + head + rest;
    let t = head + rest;
    let (before, behind) = lemma_trimmed(t);
    let s = trim_of(t);
    let n = head.len() as int;
    // The head lies outside the white space that is trimmed off.
    if before.len() > 0 {
        assert(t[0] == before[0]);
        assert(t[0] == head[0]);
    }
    assert(t =~= s + behind);
    if s.len() < n {
        assert(t[n - 1] == behind[n - 1 - s.len()]);
        assert(t[n - 1] == head[n - 1]);
    }
    let kept = s.skip(n);
    assert(s =~= head + kept) by {
        assert forall|i: int| 0 <= i < n implies s[i] == head[i] by {
            assert(s[i] == t[i]);
        }
    }
    assert(t.skip(n) =~= rest);
    assert((s + behind).skip(n) =~= kept + behind);
    assert(rest.take(kept.len() as int) =~= kept);
    if is_tight(rest) && behind.len() > 0 {
        assert(rest[rest.len() - 1] == behind[behind.len() - 1]);
    }
    assert(is_tight(rest) ==> kept =~= rest);
    assert(raw =~= white + s + behind);
    law_trim(white, s, behind);
    kept
}

/// The first word of text that begins with `head`, where that is without white space, begins with
/// it.
proof fn lemma_first_word(head: Seq<char>, rest: Seq<char>) -> (more: Seq<char>)
    requires
        is_word(head),
    ensures
        words_of(head + rest).len() > 0,
        words_of(head + rest)[0] == head + more,
{
    let s = head + rest;
    let n = word_len(s);
    lemma_word_len(s);
    if n < head.len() {
        assert(s[n] == head[n]);
    }
    let word = s.take(n);
    let tail = s.skip(n);
    let none = Seq::<char>::empty();
    assert forall|i: int| 0 <= i < word.len() implies !is_white_space(#[trigger] word[i]) by {
        assert(word[i] == s[i]);
    }
    if tail.len() > 0 {
        assert(tail[0] == s[n]);
    }
    law_words(none, word, tail);
    assert(none + word + tail =~= s);
    let more = word.skip(head.len() as int);
    assert(word =~= head + more);
    more
}

/// Text that begins with `name` and a slash does not begin with a keyword that has no slash,
/// unless `name` does.
proof fn lemma_other_head(keyword: Seq<char>, name: Seq<char>, rest: Seq<char>)
    requires
        lacks(keyword, '/'),
        !keyword.is_prefix_of(name),
    ensures
        !keyword.is_prefix_of(name + seq!['/'] + rest),
{
    let s = name + seq!['/'] + rest;
    if keyword.is_prefix_of(s) {
        assert(s.take(keyword.len() as int) == keyword);
        if keyword.len() <= name.len() {
            assert(name.take(keyword.len() as int) =~= keyword);
        } else {
            assert(keyword[name.len() as int] == s[name.len() as int]);
        }
    }
}

/// A line of `apt list` offers exactly the package whose name stands before its first slash, as
/// long as the name is no command line and none of the headings.
pub proof fn law_apt_names_package(white: Seq<char>, name: Seq<char>, rest: Seq<char>)
    requires
        is_blank(white),
        is_word(name),
        lacks(name, '/'),
        name[0] != '$',
        !"Listing"@.is_prefix_of(name),
        !"WARNING"@.is_prefix_of(name),
    ensures
        apt_entry_of(white + name + seq!['/'] + rest) matches Some(e) && e.manager == ManagerId::Apt
            && e.id == name && e.name == name && e.scope is None,
{
    reveal_strlit("Listing");
    reveal_strlit("WARNING");
    let head = name + seq!['/'];
    let raw = white + name + seq!['/'] + rest;
    assert(raw =~= white + head + rest);
    assert forall|i: int| 0 <= i < head.len() implies !is_white_space(#[trigger] head[i]) by {
        if i < name.len() {
            assert(head[i] == name[i]);
        }
    }
    assert(is_tight(head));
    let kept = lemma_head_stays(white, head, rest);
    let line = trim_of(raw);
    assert(line =~= name + seq!['/'] + kept);
    assert(line[0] == name[0]);
    lemma_other_head("Listing"@, name, kept);
    lemma_other_head("WARNING"@, name, kept);
    let more = lemma_first_word(head, kept);
    let word = words_of(line)[0];
    assert(word =~= name + seq!['/'] + more);
    assert forall|j: int| 0 <= j < name.len() implies word[j] != '/' by {
        assert(word[j] == name[j]);
    }
    lemma_find_is(word, '/', name.len() as int);
    assert(word.take(name.len() as int) =~= name);
}

/// Blank lines, command lines, headings and warnings of `apt list` offer nothing; every other line
/// offers a package.
pub proof fn law_apt_offers(raw: Seq<char>)
    ensures
        apt_entry_of(raw) is None <==> {
            let line = trim_of(raw);
            ||| line.len() == 0
            ||| line[0] == '$'
            ||| "Listing"@.is_prefix_of(line)
            ||| "WARNING"@.is_prefix_of(line)
        },
{
    let line = trim_of(raw);
    let (before, behind) = lemma_trimmed(raw);
    if line.len() > 0 {
        let head = seq![line[0]];
        assert(is_word(head));
        let more = lemma_first_word(head, line.skip(1));
        assert(head + line.skip(1) =~= line);
    }
}

/// Text without `c` does not hold text that begins with `c`.
proof fn lemma_not_found(s: Seq<char>, p: Seq<char>)
    requires
        p.len() > 0,
        lacks(s, p[0]),
    ensures
        find_text_of(s, p) is None,
{
    lemma_find_text(s, p);
    if let Some(i) = find_text_of(s, p) {
        assert(s.subrange(i, i + p.len())[0] == s[i]);
    }
}

/// The first place of `p` in text whose head does not have the first character of `p`.
proof fn lemma_found_behind(head: Seq<char>, p: Seq<char>, rest: Seq<char>)
    requires
        p.len() > 0,
        lacks(head, p[0]),
    ensures
        find_text_of(head + p + rest, p) == Some(head.len() as int),
{
    let s = head + p + rest;
    let n = head.len() as int;
    assert(s.subrange(n, n + p.len()) =~= p);
    assert forall|j: int| 0 <= j < n implies !occurs_at(s, p, j) by {
        if occurs_at(s, p, j) {
            assert(s.subrange(j, j + p.len())[0] == s[j]);
            assert(s[j] == head[j]);
        }
    }
    lemma_find_text_is(s, p, n);
}

/// The version that is installed is what stands between the mark and the next closing bracket,
/// without white space at its ends; without the mark there is none.
pub proof fn law_apt_installed_version(
    head: Seq<char>,
    white: Seq<char>,
    current: Seq<char>,
    more_white: Seq<char>,
    rest: Seq<char>,
)
    requires
        lacks(head, '['),
        is_blank(white),
        lacks(current, '['),
        lacks(current, ']'),
        is_tight(current),
        is_blank(more_white),
    ensures
        apt_current_of(
            head + "[upgradable from:"@ + white + current + more_white + seq![']'] + rest,
        ) == Some(current),
        apt_current_of(head) is None,
{
    reveal_strlit("[upgradable from:");
    let mark = "[upgradable from:"@;
    let inner = white + current + more_white;
    let tail = inner + seq![']'] + rest;
    let line = head + mark + white + current + more_white + seq![']'] + rest;
    assert(line =~= head + mark + tail);
    lemma_not_found(head, mark);
    lemma_found_behind(head, mark, tail);
    assert(line.skip((head.len() + mark.len()) as int) =~= tail);
    let n = inner.len() as int;
    assert forall|j: int| 0 <= j < n implies tail[j] != ']' && tail[j] != '[' by {
        if j < white.len() {
            assert(tail[j] == white[j]);
        } else if j < white.len() + current.len() {
            assert(tail[j] == current[j - white.len()]);
        } else {
            assert(tail[j] == more_white[j - white.len() - current.len()]);
        }
    }
    lemma_find_text(tail, mark);
    let piece = match find_text_of(tail, mark) {
        Some(j) => tail.take(j),
        None => tail,
    };
    if let Some(j) = find_text_of(tail, mark) {
        assert(tail.subrange(j, j + mark.len())[0] == tail[j]);
        assert(tail[n] == ']');
        assert(j > n);
    }
    assert(piece.len() > n);
    assert(piece[n] == ']');
    assert forall|j: int| 0 <= j < n implies piece[j] != ']' by {
        assert(piece[j] == tail[j]);
    }
    lemma_find_is(piece, ']', n);
    assert(piece.take(n) =~= inner);
    law_trim(white, current, more_white);
}

/// A line of `apt list` offers the version that is its second word, where it has one.
pub proof fn law_apt_offered_version(
    name: Seq<char>,
    suite: Seq<char>,
    version: Seq<char>,
    rest: Seq<char>,
)
    requires
        is_word(name),
        is_word(suite),
        is_word(version),
        rest.len() > 0 ==> is_white_space(rest[0]) && !is_white_space(rest[rest.len() - 1]),
        lacks(name, '/'),
        name[0] != '$',
        !"Listing"@.is_prefix_of(name),
        !"WARNING"@.is_prefix_of(name),
    ensures
        apt_entry_of(name + seq!['/'] + suite + seq![' '] + version + rest) matches Some(e)
            && e.new_version == Some(version) && e.current_version == apt_current_of(
            name + seq!['/'] + suite + seq![' '] + version + rest,
        ),
        apt_entry_of(name + seq!['/'] + suite) matches Some(e) && e.new_version is None,
{
    let none = Seq::<char>::empty();
    let word = name + seq!['/'] + suite;
    assert forall|i: int| 0 <= i < word.len() implies !is_white_space(#[trigger] word[i]) by {
        if i < name.len() {
            assert(word[i] == name[i]);
        } else if i > name.len() {
            assert(word[i] == suite[i - name.len() - 1]);
        }
    }
    law_apt_names_package(none, name, suite);
    assert(none + name + seq!['/'] + suite =~= word);
    law_trim(none, word, none);
    assert(none + word + none =~= word);
    law_words(none, word, none);
    assert(words_of(word) =~= seq![word]);
    let line = name + seq!['/'] + suite + seq![' '] + version + rest;
    assert(line =~= word + seq![' '] + version + rest);
    lemma_two_words(word, version, rest);
    assert(line[0] == word[0]);
    if rest.len() > 0 {
        assert(line[line.len() - 1] == rest[rest.len() - 1]);
    } else {
        assert(line[line.len() - 1] == version[version.len() - 1]);
    }
    law_trim(none, line, none);
    assert(none + line + none =~= line);
    let others = suite + seq![' '] + version + rest;
    law_apt_names_package(none, name, others);
    assert(none + name + seq!['/'] + others =~= line);
}

/// A line as `apt list --upgradable` prints it is read back whole: the package, the version that
/// is offered, and the version that is installed.
pub proof fn law_apt_line_read_back(
    name: Seq<char>,
    suite: Seq<char>,
    version: Seq<char>,
    arch: Seq<char>,
    current: Seq<char>,
)
    requires
        is_word(name),
        is_word(suite),
        is_word(version),
        is_word(arch),
        lacks(name, '/'),
        name[0] != '$',
        !"Listing"@.is_prefix_of(name),
        !"WARNING"@.is_prefix_of(name),
        lacks(name, '['),
        lacks(suite, '['),
        lacks(version, '['),
        lacks(arch, '['),
        lacks(current, '['),
        lacks(current, ']'),
        is_tight(current),
    ensures
        apt_entry_of(
            name + seq!['/'] + suite + seq![' '] + version + (seq![' '] + arch + seq![' ']
                + "[upgradable from:"@ + seq![' '] + current + seq![']']),
        ) == Some(
            EntryModel {
                manager: ManagerId::Apt,
                id: name,
                name,
                current_version: Some(current),
                new_version: Some(version),
                scope: None,
            },
        ),
{
    let none = Seq::<char>::empty();
    let mark = "[upgradable from:"@;
    let rest = seq![' '] + arch + seq![' '] + mark + seq![' '] + current + seq![']'];
    let head = name + seq!['/'] + suite + seq![' '] + version + seq![' '] + arch + seq![' '];
    let line = name + seq!['/'] + suite + seq![' '] + version + rest;
    law_apt_offered_version(name, suite, version, rest);
    law_apt_names_package(none, name, suite + seq![' '] + version + rest);
    assert(none + name + seq!['/'] + (suite + seq![' '] + version + rest) =~= line);
    lemma_lacks_parts(name, seq!['/'], '[');
    lemma_lacks_parts(name + seq!['/'], suite, '[');
    lemma_lacks_parts(name + seq!['/'] + suite, seq![' '], '[');
    lemma_lacks_parts(name + seq!['/'] + suite + seq![' '], version, '[');
    lemma_lacks_parts(name + seq!['/'] + suite + seq![' '] + version, seq![' '], '[');
    lemma_lacks_parts(name + seq!['/'] + suite + seq![' '] + version + seq![' '], arch, '[');
    lemma_lacks_parts(
        name + seq!['/'] + suite + seq![' '] + version + seq![' '] + arch,
        seq![' '],
        '[',
    );
    law_apt_installed_version(head, seq![' '], current, none, none);
    assert(head + mark + seq![' '] + current + none + seq![']'] + none =~= line);
}

/// What two texts lack both together lack.
proof fn lemma_lacks_parts(a: Seq<char>, b: Seq<char>, c: char)
    requires
        lacks(a, c),
        lacks(b, c),
    ensures
        lacks(a + b, c),
{
    let s = a + b;
    assert forall|i: int| 0 <= i < s.len() implies #[trigger] s[i] != c by {
        if i < a.len() {
            assert(s[i] == a[i]);
        } else {
            assert(s[i] == b[i - a.len()]);
        }
    }
}

/// The first two words of text in which a space stands between them.
proof fn lemma_two_words(first: Seq<char>, second: Seq<char>, rest: Seq<char>)
    requires
        is_word(first),
        is_word(second),
        rest.len() > 0 ==> is_white_space(rest[0]),
    ensures
        words_of(first + seq![' '] + second + rest) == seq![first, second] + words_of(rest),
{
    let none = Seq::<char>::empty();
    let space = seq![' '];
    let tail = space + second + rest;
    law_words(none, first, tail);
    law_words(space, second, rest);
    assert(none + first + tail =~= first + seq![' '] + second + rest);
    assert(seq![first] + (seq![second] + words_of(rest)) =~= seq![first, second] + words_of(rest));
}

/// What lines offer is what the first of them offer, and then the others.
proof fn lemma_apt_parts(a: Seq<Seq<char>>, b: Seq<Seq<char>>)
    ensures
        apt_entries_of(a + b) == apt_entries_of(a) + apt_entries_of(b),
    decreases b.len(),
{
    if b.len() == 0 {
        assert(a + b =~= a);
        assert(apt_entries_of(a) + apt_entries_of(b) =~= apt_entries_of(a));
    } else {
        lemma_apt_parts(a, b.drop_last());
        assert((a + b).drop_last() =~= a + b.drop_last());
        assert((a + b).last() == b.last());
        assert(apt_entries_of(a + b) =~= apt_entries_of(a) + apt_entries_of(b));
    }
}

/// Every line of `apt list` offers what it offers, wherever it stands: the updates of the output
/// are those of the lines before it, that of the line, and those of the lines behind it.
pub proof fn law_apt_line_by_line(before: Seq<char>, line: Seq<char>, behind: Seq<char>)
    requires
        before.len() == 0 || before[before.len() - 1] == '\n',
        lacks(line, '\n'),
        line.len() == 0 || line[line.len() - 1] != '\r',
    ensures
        apt_updates_of(Seq::empty()).len() == 0,
        apt_updates_of(before + line + seq!['\n'] + behind) == apt_updates_of(before) + (
        match apt_entry_of(line) {
            Some(e) => seq![e],
            None => Seq::empty(),
        }) + apt_updates_of(behind),
{
    let rest = line + seq!['\n'] + behind;
    assert(before + line + seq!['\n'] + behind =~= before + rest);
    lemma_lines_add(before, rest);
    law_lines(line, behind);
    lemma_apt_parts(lines_of(before), lines_of(rest));
    lemma_apt_parts(seq![line], lines_of(behind));
    let one = seq![line];
    assert(one.drop_last() =~= Seq::<Seq<char>>::empty());
    reveal_with_fuel(apt_entries_of, 2);
    let own = match apt_entry_of(line) {
        Some(e) => seq![e],
        None => Seq::<EntryModel>::empty(),
    };
    assert(apt_entries_of(one) =~= own);
    assert(apt_updates_of(before) + (own + apt_updates_of(behind)) =~= apt_updates_of(before) + own
        + apt_updates_of(behind));
}

/// Text that begins with a word in which there is a dot does not begin with a heading without one,
/// where the heading has white space in it or is no part of the word before the dot.
proof fn lemma_no_heading(heading: Seq<char>, name: Seq<char>, rest: Seq<char>)
    requires
        lacks(heading, '.'),
        forall|i: int| 0 <= i < name.len() ==> !is_white_space(#[trigger] name[i]),
        !heading.is_prefix_of(name) || exists|i: int|
            0 <= i < heading.len() && is_white_space(#[trigger] heading[i]),
    ensures
        !heading.is_prefix_of(name + seq!['.'] + rest),
{
    let s = name + seq!['.'] + rest;
    if heading.is_prefix_of(s) {
        assert(s.take(heading.len() as int) == heading);
        if heading.len() > name.len() {
            assert(heading[name.len() as int] == s[name.len() as int]);
        } else {
            assert(name.take(heading.len() as int) =~= heading);
            let i = choose|i: int|
                0 <= i < heading.len() && is_white_space(#[trigger] heading[i]);
            assert(name[i] == heading[i]);
        }
    }
}

/// No line that begins with a package is a heading of `dnf` or `yum`.
proof fn lemma_package_line(name: Seq<char>, rest: Seq<char>)
    requires
        forall|i: int| 0 <= i < name.len() ==> !is_white_space(#[trigger] name[i]),
        name.len() > 0 ==> name[0] != '$',
        !"Security:"@.is_prefix_of(name),
        !"Error:"@.is_prefix_of(name),
        !"=="@.is_prefix_of(name),
    ensures
        !rpm_skips(name + seq!['.'] + rest),
{
    reveal_strlit("Last metadata");
    reveal_strlit("Updating and loading repositories");
    reveal_strlit("Repositories loaded");
    reveal_strlit("Loaded plugins");
    reveal_strlit("Loading mirror speeds");
    reveal_strlit("Obsoleting Packages");
    reveal_strlit("Obsoleting packages");
    reveal_strlit("Security:");
    reveal_strlit("Error:");
    reveal_strlit("==");
    let s = name + seq!['.'] + rest;
    assert(s[0] != '$') by {
        if name.len() > 0 {
            assert(s[0] == name[0]);
        }
    }
    assert(is_white_space("Last metadata"@[4]));
    lemma_no_heading("Last metadata"@, name, rest);
    assert(is_white_space("Updating and loading repositories"@[8]));
    lemma_no_heading("Updating and loading repositories"@, name, rest);
    assert(is_white_space("Repositories loaded"@[12]));
    lemma_no_heading("Repositories loaded"@, name, rest);
    assert(is_white_space("Loaded plugins"@[6]));
    lemma_no_heading("Loaded plugins"@, name, rest);
    assert(is_white_space("Loading mirror speeds"@[7]));
    lemma_no_heading("Loading mirror speeds"@, name, rest);
    assert(is_white_space("Obsoleting Packages"@[10]));
    lemma_no_heading("Obsoleting Packages"@, name, rest);
    assert(is_white_space("Obsoleting packages"@[10]));
    lemma_no_heading("Obsoleting packages"@, name, rest);
    lemma_no_heading("Security:"@, name, rest);
    lemma_no_heading("Error:"@, name, rest);
    lemma_no_heading("=="@, name, rest);
}

/// Whether `arch` is an architecture for which packages are listed.
pub open spec fn listed_arch(arch: Seq<char>) -> bool {
    seq![
        "noarch"@,
        "x86_64"@,
        "i686"@,
        "i586"@,
        "i386"@,
        "aarch64"@,
        "armv7hl"@,
        "armv7hnl"@,
        "armv7h"@,
        "armv6hl"@,
        "ppc64le"@,
        "ppc64"@,
        "s390x"@,
        "riscv64"@,
    ].contains(arch)
}

/// The architectures are those that are listed, and no others.
pub proof fn law_architectures(arch: Seq<char>)
    ensures
        rpm_arch(arch) <==> listed_arch(arch),
{
    let all = seq![
        "noarch"@,
        "x86_64"@,
        "i686"@,
        "i586"@,
        "i386"@,
        "aarch64"@,
        "armv7hl"@,
        "armv7hnl"@,
        "armv7h"@,
        "armv6hl"@,
        "ppc64le"@,
        "ppc64"@,
        "s390x"@,
        "riscv64"@,
    ];
    assert(all[0] == "noarch"@ && all[1] == "x86_64"@ && all[2] == "i686"@ && all[3] == "i586"@
        && all[4] == "i386"@ && all[5] == "aarch64"@ && all[6] == "armv7hl"@ && all[7]
        == "armv7hnl"@ && all[8] == "armv7h"@ && all[9] == "armv6hl"@ && all[10] == "ppc64le"@
        && all[11] == "ppc64"@ && all[12] == "s390x"@ && all[13] == "riscv64"@);
    if listed_arch(arch) {
        let i = choose|i: int| 0 <= i < all.len() && all[i] == arch;
        assert(rpm_arch(all[i]));
    }
}

/// A line of `dnf` or `yum` with a package, its architecture behind a dot, and a version offers
/// that version of the package; its identifier is the name with the architecture, so that it can
/// be installed by it. It is offered by the manager whose list it is.
pub proof fn law_rpm_names_package(
    id: ManagerId,
    white: Seq<char>,
    name: Seq<char>,
    arch: Seq<char>,
    gap: Seq<char>,
    version: Seq<char>,
    rest: Seq<char>,
)
    requires
        is_blank(white),
        forall|i: int| 0 <= i < name.len() ==> !is_white_space(#[trigger] name[i]),
        name.len() > 0 ==> name[0] != '$',
        !"Security:"@.is_prefix_of(name),
        !"Error:"@.is_prefix_of(name),
        !"=="@.is_prefix_of(name),
        is_word(arch),
        lacks(arch, '.'),
        is_blank(gap),
        gap.len() > 0,
        is_word(version),
        rest.len() > 0 ==> is_white_space(rest[0]),
    ensures
        rpm_entry_of(
            id,
            white + (name + seq!['.'] + arch + gap + version) + rest,
        ) == if listed_arch(arch) {
            Some(
                EntryModel {
                    manager: id,
                    id: name + seq!['.'] + arch,
                    name,
                    current_version: None,
                    new_version: Some(version),
                    scope: None,
                },
            )
        } else {
            None
        },
{
    let none = Seq::<char>::empty();
    let word = name + seq!['.'] + arch;
    assert forall|i: int| 0 <= i < word.len() implies !is_white_space(#[trigger] word[i]) by {
        if i < name.len() {
            assert(word[i] == name[i]);
        } else if i > name.len() {
            assert(word[i] == arch[i - name.len() - 1]);
        }
    }
    let head = word + gap + version;
    let raw = white + (name + seq!['.'] + arch + gap + version) + rest;
    assert(head[0] == word[0]);
    assert(head[head.len() - 1] == version[version.len() - 1]);
    assert(raw =~= white + head + rest);
    let kept = lemma_head_stays(white, head, rest);
    let line = trim_of(raw);
    if kept.len() > 0 {
        assert(kept[0] == rest[0]);
    }
    lemma_package_line(name, arch + gap + version + kept);
    assert(line =~= name + seq!['.'] + (arch + gap + version + kept));
    let tail = gap + version + kept;
    assert(tail[0] == gap[0]);
    law_words(none, word, tail);
    law_words(gap, version, kept);
    assert(none + word + tail =~= line);
    let parts = words_of(line);
    assert(parts[0] == word);
    assert(parts[1] == version);
    law_rfind(name, '.', arch);
    assert(word.skip(name.len() as int + 1) =~= arch);
    assert(word.take(name.len() as int) =~= name);
    law_architectures(arch);
}

/// A line of `dnf` or `yum` offers nothing that begins with `$`, with one of the headings or with
/// an error; nor one whose first word has no dot, and nor one with fewer than two words.
pub proof fn law_rpm_offers_nothing(id: ManagerId, raw: Seq<char>)
    ensures
        ({
            let line = trim_of(raw);
            ||| line.len() == 0
            ||| line[0] == '$'
            ||| "Last metadata"@.is_prefix_of(line)
            ||| "Updating and loading repositories"@.is_prefix_of(line)
            ||| "Repositories loaded"@.is_prefix_of(line)
            ||| "Loaded plugins"@.is_prefix_of(line)
            ||| "Loading mirror speeds"@.is_prefix_of(line)
            ||| "Obsoleting Packages"@.is_prefix_of(line)
            ||| "Obsoleting packages"@.is_prefix_of(line)
            ||| "Security:"@.is_prefix_of(line)
            ||| "Error:"@.is_prefix_of(line)
            ||| "=="@.is_prefix_of(line)
            ||| words_of(line).len() < 2
            ||| lacks(words_of(line)[0], '.')
        }) ==> rpm_entry_of(id, raw) is None,
{
    let line = trim_of(raw);
    let none = Seq::<char>::empty();
    if words_of(line).len() > 0 && lacks(words_of(line)[0], '.') {
        law_rfind(none, '.', words_of(line)[0]);
    }
}

/// What lines offer is what the first of them offer, and then the others.
proof fn lemma_rpm_parts(id: ManagerId, a: Seq<Seq<char>>, b: Seq<Seq<char>>)
    ensures
        rpm_entries_of(id, a + b) == rpm_entries_of(id, a) + rpm_entries_of(id, b),
    decreases b.len(),
{
    if b.len() == 0 {
        assert(a + b =~= a);
        assert(rpm_entries_of(id, a) + rpm_entries_of(id, b) =~= rpm_entries_of(id, a));
    } else {
        lemma_rpm_parts(id, a, b.drop_last());
        assert((a + b).drop_last() =~= a + b.drop_last());
        assert((a + b).last() == b.last());
        assert(rpm_entries_of(id, a + b) =~= rpm_entries_of(id, a) + rpm_entries_of(id, b));
    }
}

/// Every line of `dnf` or `yum` offers what it offers, wherever it stands.
pub proof fn law_rpm_line_by_line(
    id: ManagerId,
    before: Seq<char>,
    line: Seq<char>,
    behind: Seq<char>,
)
    requires
        before.len() == 0 || before[before.len() - 1] == '\n',
        lacks(line, '\n'),
        line.len() == 0 || line[line.len() - 1] != '\r',
    ensures
        rpm_updates_of(id, Seq::empty()).len() == 0,
        rpm_updates_of(id, before + line + seq!['\n'] + behind) == rpm_updates_of(id, before) + (
        match rpm_entry_of(id, line) {
            Some(e) => seq![e],
            None => Seq::empty(),
        }) + rpm_updates_of(id, behind),
{
    let rest = line + seq!['\n'] + behind;
    assert(before + line + seq!['\n'] + behind =~= before + rest);
    lemma_lines_add(before, rest);
    law_lines(line, behind);
    lemma_rpm_parts(id, lines_of(before), lines_of(rest));
    lemma_rpm_parts(id, seq![line], lines_of(behind));
    let one = seq![line];
    assert(one.drop_last() =~= Seq::<Seq<char>>::empty());
    reveal_with_fuel(rpm_entries_of, 2);
    let own = match rpm_entry_of(id, line) {
        Some(e) => seq![e],
        None => Seq::<EntryModel>::empty(),
    };
    assert(rpm_entries_of(id, one) =~= own);
    assert(rpm_updates_of(id, before) + (own + rpm_updates_of(id, behind)) =~= rpm_updates_of(
        id,
        before,
    ) + own + rpm_updates_of(id, behind));
}

/// DNF and YUM alike have updates if and only if their check ended with the status 100, whatever
/// it printed.
pub proof fn law_rpm_found_by_status(id: ManagerId, output: Seq<char>, status_code: i32)
    requires
        id == ManagerId::Dnf || id == ManagerId::Yum,
    ensures
        tells_of_updates(id, output, status_code) <==> status_code == 100,
{
}

/// APT has updates if and only if its check ended with the status zero and one of the lines that
/// it printed offers a package.
pub proof fn law_apt_found_by_lines(output: Seq<char>, status_code: i32)
    ensures
        tells_of_updates(ManagerId::Apt, output, status_code) <==> status_code == 0 && exists|
            i: int,
        |
            0 <= i < lines_of(output).len() && {
                let line = trim_of(#[trigger] lines_of(output)[i]);
                &&& line.len() > 0
                &&& line[0] != '$'
                &&& !"Listing"@.is_prefix_of(line)
                &&& !"WARNING"@.is_prefix_of(line)
            },
{
    let all = lines_of(output);
    lemma_some_offer(all);
    if apt_entries_of(all).len() > 0 {
        let i = choose|i: int| 0 <= i < all.len() && apt_entry_of(#[trigger] all[i]) is Some;
        law_apt_offers(all[i]);
    }
    if exists|i: int|
        0 <= i < all.len() && {
            let line = trim_of(#[trigger] all[i]);
            &&& line.len() > 0
            &&& line[0] != '$'
            &&& !"Listing"@.is_prefix_of(line)
            &&& !"WARNING"@.is_prefix_of(line)
        } {
        let i = choose|i: int|
            0 <= i < all.len() && {
                let line = trim_of(#[trigger] all[i]);
                &&& line.len() > 0
                &&& line[0] != '$'
                &&& !"Listing"@.is_prefix_of(line)
                &&& !"WARNING"@.is_prefix_of(line)
            };
        law_apt_offers(all[i]);
    }
}

/// Lines offer something exactly where one of them does.
proof fn lemma_some_offer(lines: Seq<Seq<char>>)
    ensures
        apt_entries_of(lines).len() > 0 <==> exists|i: int|
            0 <= i < lines.len() && apt_entry_of(#[trigger] lines[i]) is Some,
    decreases lines.len(),
{
    if lines.len() > 0 {
        let front = lines.drop_last();
        lemma_some_offer(front);
        if exists|i: int| 0 <= i < front.len() && apt_entry_of(#[trigger] front[i]) is Some {
            let i = choose|i: int|
                0 <= i < front.len() && apt_entry_of(#[trigger] front[i]) is Some;
            assert(lines[i] == front[i]);
        }
        if exists|i: int| 0 <= i < lines.len() && apt_entry_of(#[trigger] lines[i]) is Some {
            let i = choose|i: int|
                0 <= i < lines.len() && apt_entry_of(#[trigger] lines[i]) is Some;
            if i < front.len() {
                assert(front[i] == lines[i]);
            }
        }
        if apt_entry_of(lines.last()) is Some {
            assert(apt_entry_of(lines[lines.len() - 1]) is Some);
        }
    }
}

/// What has no line break in it stands in text if and only if it stands in one of its lines.
proof fn lemma_in_some_line(s: Seq<char>, part: Seq<char>)
    requires
        part.len() > 0,
        lacks(part, '\n'),
        lacks(part, '\r'),
    ensures
        some_line_has(lines_of(s), part) <==> contains_text(s, part),
    decreases s.len(),
{
    let i = find_of(s, '\n');
    lemma_find(s, '\n');
    let all = lines_of(s);
    if s.len() == 0 {
        assert(!contains_text(s, part));
    } else if i < s.len() {
        let rest = s.skip(i + 1);
        let first = strip_return(s.take(i));
        lemma_in_some_line(rest, part);
        assert(all == seq![first] + lines_of(rest));
        if contains_text(s, part) {
            let k = choose|k: int| occurs_at(s, part, k);
            let found = s.subrange(k, k + part.len());
            if k + part.len() <= i {
                if k + part.len() > first.len() {
                    assert(part[part.len() - 1] == s[k + part.len() - 1]);
                    assert(s.take(i)[i - 1] == s[i - 1]);
                }
                assert(first.subrange(k, k + part.len()) =~= found);
                assert(occurs_at(first, part, k));
                assert(contains_text(all[0], part));
            } else if k > i {
                assert(rest.subrange(k - i - 1, k - i - 1 + part.len()) =~= found);
                assert(occurs_at(rest, part, k - i - 1));
                let j = choose|j: int|
                    0 <= j < lines_of(rest).len() && contains_text(
                        #[trigger] lines_of(rest)[j],
                        part,
                    );
                assert(all[j + 1] == lines_of(rest)[j]);
            } else {
                assert(part[i - k] == s[i]);
            }
        }
        if some_line_has(all, part) {
            let j = choose|j: int| 0 <= j < all.len() && contains_text(#[trigger] all[j], part);
            if j == 0 {
                let k = choose|k: int| occurs_at(first, part, k);
                assert(s.subrange(k, k + part.len()) =~= first.subrange(k, k + part.len()));
                assert(occurs_at(s, part, k));
            } else {
                assert(lines_of(rest)[j - 1] == all[j]);
                assert(some_line_has(lines_of(rest), part));
                let k = choose|k: int| occurs_at(rest, part, k);
                assert(s.subrange(k + i + 1, k + i + 1 + part.len()) =~= rest.subrange(
                    k,
                    k + part.len(),
                ));
                assert(occurs_at(s, part, k + i + 1));
            }
        }
    } else {
        assert(all == seq![s]);
        if contains_text(s, part) {
            assert(contains_text(all[0], part));
        }
    }
}

/// Zypper, Emerge and Nix have updates if and only if their output holds what marks one; Snap has
/// some unless its output says that all is up to date.
pub proof fn law_found_by_mark(output: Seq<char>, status_code: i32)
    ensures
        tells_of_updates(ManagerId::Zypper, output, status_code) <==> contains_text(output, "|"@),
        tells_of_updates(ManagerId::Emerge, output, status_code) <==> contains_text(
            output,
            "ebuild"@,
        ),
        tells_of_updates(ManagerId::NixEnv, output, status_code) <==> contains_text(
            output,
            "would be upgraded"@,
        ),
        tells_of_updates(ManagerId::Snap, output, status_code) <==> !contains_text(
            output,
            "All snaps up to date."@,
        ),
{
    reveal_strlit("|");
    reveal_strlit("ebuild");
    reveal_strlit("would be upgraded");
    lemma_in_some_line(output, "|"@);
    lemma_in_some_line(output, "ebuild"@);
    lemma_in_some_line(output, "would be upgraded"@);
}

/// Pacman and Homebrew have updates if and only if one of the lines of their output is more than a
/// command line or a note that there is nothing to do.
pub proof fn law_found_by_payload(id: ManagerId, output: Seq<char>, status_code: i32)
    requires
        id == ManagerId::Pacman || id == ManagerId::Brew,
    ensures
        tells_of_updates(id, output, status_code) <==> exists|i: int|
            0 <= i < lines_of(output).len() && {
                let line = #[trigger] lines_of(output)[i];
                &&& trim_of(line).len() > 0
                &&& trim_of(line)[0] != '$'
                &&& !contains_text(line, "No updates"@)
                &&& !contains_text(line, "Nothing to do."@)
            },
{
    let all = lines_of(output);
    assert forall|i: int| 0 <= i < all.len() implies (is_payload(#[trigger] all[i]) <==> {
        let line = all[i];
        &&& trim_of(line).len() > 0
        &&& trim_of(line)[0] != '$'
        &&& !contains_text(line, "No updates"@)
        &&& !contains_text(line, "Nothing to do."@)
    }) by {
        lemma_begins_with_dollar(all[i]);
    }
}

/// Trimmed text begins with a dollar sign exactly where the text does behind its white space.
proof fn lemma_begins_with_dollar(s: Seq<char>)
    ensures
        trim_of(s).len() > 0 ==> ("$"@.is_prefix_of(trim_start_of(s)) <==> trim_of(s)[0] == '$'),
{
    reveal_strlit("$");
    let (before, behind) = lemma_trimmed(s);
    let t = trim_of(s);
    if t.len() > 0 {
        law_trim_start(before, t + behind);
        assert(s =~= before + (t + behind));
        let u = t + behind;
        assert(u[0] == t[0]);
        if t[0] == '$' {
            assert(u.take(1) =~= "$"@);
        }
        if "$"@.is_prefix_of(u) {
            assert(u.take(1)[0] == "$"@[0]);
        }
    }
}

/// A line such as `3 upgraded, 0 newly installed` gives the number of upgraded packages.
pub proof fn law_upgrade_count(white: Seq<char>, count: u32, gap: Seq<char>, rest: Seq<char>)
    requires
        is_blank(white),
        is_blank(gap),
        gap.len() > 0,
        rest.len() > 0 ==> is_white_space(rest[0]) || rest[0] == ',',
    ensures
        upgrade_count_of(white + decimal_of(count as nat) + gap + "upgraded"@ + rest) == Some(
            count as int,
        ),
{
    reveal_strlit("upgraded");
    let digits = decimal_of(count as nat);
    let word = "upgraded"@;
    let head = white + digits + gap + word;
    let s = white + digits + gap + word + rest;
    let k = find_of(rest, ',');
    lemma_decimal(count as nat);
    lemma_find(rest, ',');
    assert forall|i: int| 0 <= i < digits.len() implies !is_white_space(#[trigger] digits[i])
        && digits[i] != ',' by {
        assert(is_digit(digits[i]));
    }
    let n = head.len() + k;
    assert forall|j: int| 0 <= j < n implies s[j] != ',' by {
        if j < white.len() {
            assert(s[j] == white[j]);
        } else if j < white.len() + digits.len() {
            assert(s[j] == digits[j - white.len()]);
        } else if j < white.len() + digits.len() + gap.len() {
            assert(s[j] == gap[j - white.len() - digits.len()]);
        } else if j < head.len() {
            assert(s[j] == word[j - white.len() - digits.len() - gap.len()]);
        } else {
            assert(s[j] == rest[j - head.len()]);
        }
    }
    if k < rest.len() {
        assert(s[n] == rest[k]);
    }
    lemma_find_is(s, ',', n);
    let kept = rest.take(k);
    let tail = gap + word + kept;
    assert(before_char(s, ',') =~= white + digits + tail);
    assert(tail[0] == gap[0]);
    if kept.len() > 0 {
        assert(kept[0] == rest[0]);
    }
    law_words(white, digits, tail);
    law_words(gap, word, kept);
    let parts = words_of(before_char(s, ','));
    assert(parts[0] == digits);
    assert(parts[1] == word);
    law_unsigned_round_trip(count as nat, u32::MAX as nat);
}

/// A line gives no number of upgraded packages whose second word is another, or that has only one
/// word before its first comma.
pub proof fn law_no_upgrade_count(line: Seq<char>)
    ensures
        ({
            let words = words_of(line.take(find_of(line, ',')));
            words.len() < 2 || words[1] != "upgraded"@
        }) ==> upgrade_count_of(line) is None,
{
}

/// The first line that gives a number of upgraded packages decides whether any were; output that
/// gives none tells of none.
pub proof fn law_first_count_decides(line: Seq<char>, rest: Seq<char>)
    requires
        lacks(line, '\n'),
        line.len() == 0 || line[line.len() - 1] != '\r',
    ensures
        !upgraded_any(lines_of(Seq::empty())),
        upgraded_any(lines_of(line + seq!['\n'] + rest)) == match upgrade_count_of(line) {
            Some(count) => count > 0,
            None => upgraded_any(lines_of(rest)),
        },
{
    law_lines(line, rest);
    let all = seq![line] + lines_of(rest);
    assert(all.skip(1) =~= lines_of(rest));
    assert(lines_of(Seq::<char>::empty()).len() == 0);
}

/// The updates of a check are read out of the list of the manager that was checked; the updates of
/// other managers than APT, Flatpak, DNF and YUM cannot be told apart.
pub proof fn law_lists_read(id: ManagerId, output: Seq<char>)
    ensures
        updates_of(id, output) == match id {
            ManagerId::Apt => apt_updates_of(output),
            ManagerId::Flatpak => flatpak_updates_of(output),
            ManagerId::Dnf => rpm_updates_of(ManagerId::Dnf, output),
            ManagerId::Yum => rpm_updates_of(ManagerId::Yum, output),
            _ => Seq::empty(),
        },
        can_choose(id) <==> id == ManagerId::Apt || id == ManagerId::Flatpak || id == ManagerId::Dnf
            || id == ManagerId::Yum,
{
}

} // verus!
