//! Operations on text, as sequences of characters.

use vstd::prelude::*;
use vstd::slice::slice_subrange;

verus! {

/// The characters of `v`, one sequence for each slice.
pub open spec fn texts(v: Seq<&[char]>) -> Seq<Seq<char>> {
    Seq::new(v.len(), |i: int| v[i]@)
}

/// The characters of `v`, one sequence for each string.
pub open spec fn strings(v: Seq<String>) -> Seq<Seq<char>> {
    Seq::new(v.len(), |i: int| v[i]@)
}

/// Appends one character: `String::push` of the standard library.
pub assume_specification[ String::push ](s: &mut String, c: char)
    ensures
        final(s)@ == old(s)@.push(c),
;

/// The Unicode `White_Space` property.
pub open spec fn is_white_space(c: char) -> bool {
    ||| '\u{9}' <= c <= '\u{d}'
    ||| c == ' '
    ||| c == '\u{85}'
    ||| c == '\u{a0}'
    ||| c == '\u{1680}'
    ||| '\u{2000}' <= c <= '\u{200a}'
    ||| c == '\u{2028}'
    ||| c == '\u{2029}'
    ||| c == '\u{202f}'
    ||| c == '\u{205f}'
    ||| c == '\u{3000}'
}

/// Whether `c` is white space.
pub fn white_space(c: char) -> (r: bool)
    ensures
        r == is_white_space(c),
{
    ('\u{9}' <= c && c <= '\u{d}') || c == ' ' || c == '\u{85}' || c == '\u{a0}' || c
        == '\u{1680}' || ('\u{2000}' <= c && c <= '\u{200a}') || c == '\u{2028}' || c == '\u{2029}'
        || c == '\u{202f}' || c == '\u{205f}' || c == '\u{3000}'
}

/// The characters of a string slice.
pub fn chars_of(s: &str) -> (r: Vec<char>)
    ensures
        r@ == s@,
{
    let mut v: Vec<char> = Vec::new();
    for c in it: s.chars()
        invariant
            v@ == it.seq().take(it.index() as int),
            it.seq() == s@,
    {
        v.push(c);
        assert(it.seq().take(it.index() as int + 1) =~= it.seq().take(it.index() as int).push(c));
    }
    assert(s@.take(s@.len() as int) =~= s@);
    v
}

/// A string with the given characters.
pub fn string_of(s: &[char]) -> (r: String)
    ensures
        r@ == s@,
{
    let mut out = String::new();
    let mut i: usize = 0;
    while i < s.len()
        invariant
            i <= s@.len(),
            out@ == s@.take(i as int),
        decreases s@.len() - i,
    {
        out.push(s[i]);
        assert(s@.take(i + 1) =~= s@.take(i as int).push(s@[i as int]));
        i += 1;
    }
    assert(s@.take(s@.len() as int) =~= s@);
    out
}

/// `s` without its leading white space.
pub open spec fn trim_start_of(s: Seq<char>) -> Seq<char>
    decreases s.len(),
{
    if s.len() > 0 && is_white_space(s[0]) {
        trim_start_of(s.skip(1))
    } else {
        s
    }
}

/// `s` without its trailing white space.
pub open spec fn trim_end_of(s: Seq<char>) -> Seq<char>
    decreases s.len(),
{
    if s.len() > 0 && is_white_space(s.last()) {
        trim_end_of(s.drop_last())
    } else {
        s
    }
}

/// `s` without the white space at either end.
pub open spec fn trim_of(s: Seq<char>) -> Seq<char> {
    trim_end_of(trim_start_of(s))
}

/// The part of `s` after its leading white space.
pub fn trim_start(s: &[char]) -> (r: &[char])
    ensures
        r@ == trim_start_of(s@),
{
    let mut i: usize = 0;
    assert(s@.skip(0) =~= s@);
    while i < s.len() && white_space(s[i])
        invariant
            i <= s@.len(),
            trim_start_of(s@) == trim_start_of(s@.skip(i as int)),
        decreases s@.len() - i,
    {
        assert(s@.skip(i as int).skip(1) =~= s@.skip(i + 1));
        i += 1;
    }
    slice_subrange(s, i, s.len())
}

/// The part of `s` before its trailing white space.
pub fn trim_end(s: &[char]) -> (r: &[char])
    ensures
        r@ == trim_end_of(s@),
{
    let mut n: usize = s.len();
    assert(s@.take(n as int) =~= s@);
    while n > 0 && white_space(s[n - 1])
        invariant
            n <= s@.len(),
            trim_end_of(s@) == trim_end_of(s@.take(n as int)),
        decreases n,
    {
        assert(s@.take(n as int).drop_last() =~= s@.take(n - 1));
        n -= 1;
    }
    slice_subrange(s, 0, n)
}

/// The part of `s` between the white space at its ends.
pub fn trim(s: &[char]) -> (r: &[char])
    ensures
        r@ == trim_of(s@),
{
    trim_end(trim_start(s))
}

/// Where `c` first occurs in `s`, or the length of `s` where it does not occur.
pub open spec fn find_of(s: Seq<char>, c: char) -> int
    decreases s.len(),
{
    if s.len() == 0 || s[0] == c {
        0
    } else {
        1 + find_of(s.skip(1), c)
    }
}

/// What `find_of` gives: an index with `c` there and nowhere before it.
pub proof fn lemma_find(s: Seq<char>, c: char)
    ensures
        0 <= find_of(s, c) <= s.len(),
        find_of(s, c) < s.len() ==> s[find_of(s, c)] == c,
        forall|j: int| 0 <= j < find_of(s, c) ==> s[j] != c,
    decreases s.len(),
{
    if s.len() > 0 && s[0] != c {
        lemma_find(s.skip(1), c);
        assert forall|j: int| 0 <= j < find_of(s, c) implies s[j] != c by {
            if j > 0 {
                assert(s[j] == s.skip(1)[j - 1]);
            }
        }
    }
}

/// Any index with `c` there and nowhere before it is what `find_of` gives.
pub proof fn lemma_find_is(s: Seq<char>, c: char, i: int)
    requires
        0 <= i <= s.len(),
        i < s.len() ==> s[i] == c,
        forall|j: int| 0 <= j < i ==> s[j] != c,
    ensures
        find_of(s, c) == i,
{
    lemma_find(s, c);
    let k = find_of(s, c);
    if k < i {
        assert(s[k] != c);
    } else if i < k {
        assert(s[i] != c);
    }
}

/// Where `c` first occurs in `s`, or the length of `s`.
pub fn find(s: &[char], c: char) -> (r: usize)
    ensures
        r == find_of(s@, c),
        r <= s@.len(),
{
    let mut i: usize = 0;
    while i < s.len() && s[i] != c
        invariant
            i <= s@.len(),
            forall|j: int| 0 <= j < i ==> s@[j] != c,
        decreases s@.len() - i,
    {
        i += 1;
    }
    proof {
        lemma_find_is(s@, c, i as int);
    }
    i
}

/// The pieces of `s` between the occurrences of `c`; there is at least one.
pub open spec fn split_of(s: Seq<char>, c: char) -> Seq<Seq<char>>
    decreases s.len(),
    via split_of_ends
{
    let i = find_of(s, c);
    if i < s.len() {
        seq![s.take(i)] + split_of(s.skip(i + 1), c)
    } else {
        seq![s]
    }
}

#[via_fn]
proof fn split_of_ends(s: Seq<char>, c: char) {
    lemma_find(s, c);
}

/// The pieces of `s` between the occurrences of `c`.
pub fn split<'a>(s: &'a [char], c: char) -> (r: Vec<&'a [char]>)
    ensures
        texts(r@) == split_of(s@, c),
{
    let mut out: Vec<&'a [char]> = Vec::new();
    let mut rest: &'a [char] = s;
    let mut i: usize = find(rest, c);
    assert(texts(out@) + split_of(rest@, c) =~= split_of(s@, c));
    while i < rest.len()
        invariant
            i == find_of(rest@, c),
            i <= rest@.len(),
            texts(out@) + split_of(rest@, c) == split_of(s@, c),
        decreases rest@.len(),
    {
        let ghost before = out@;
        let ghost whole = rest@;
        let piece = slice_subrange(rest, 0, i);
        out.push(piece);
        rest = slice_subrange(rest, i + 1, rest.len());
        assert(rest@ =~= whole.skip(i + 1));
        assert(texts(out@) =~= texts(before).push(whole.take(i as int)));
        assert(texts(out@) + split_of(rest@, c) =~= texts(before) + split_of(whole, c));
        i = find(rest, c);
    }
    let ghost before = out@;
    out.push(rest);
    assert(texts(out@) =~= texts(before) + split_of(rest@, c));
    out
}

/// `s` without a carriage return at its end.
pub open spec fn strip_return(s: Seq<char>) -> Seq<char> {
    if s.len() > 0 && s.last() == '\r' {
        s.drop_last()
    } else {
        s
    }
}

/// The lines of `s`: each ends with a line feed, or a carriage return and a line feed, that is
/// not part of it; the last one may go without.
pub open spec fn lines_of(s: Seq<char>) -> Seq<Seq<char>>
    decreases s.len(),
    via lines_of_ends
{
    let i = find_of(s, '\n');
    if s.len() == 0 {
        Seq::empty()
    } else if i < s.len() {
        seq![strip_return(s.take(i))] + lines_of(s.skip(i + 1))
    } else {
        seq![s]
    }
}

#[via_fn]
proof fn lines_of_ends(s: Seq<char>) {
    lemma_find(s, '\n');
}

/// The lines of `s`.
pub fn lines<'a>(s: &'a [char]) -> (r: Vec<&'a [char]>)
    ensures
        texts(r@) == lines_of(s@),
{
    let mut out: Vec<&'a [char]> = Vec::new();
    let mut rest: &'a [char] = s;
    assert(texts(out@) + lines_of(rest@) =~= lines_of(s@));
    while rest.len() > 0
        invariant
            texts(out@) + lines_of(rest@) == lines_of(s@),
        decreases rest@.len(),
    {
        let ghost before = out@;
        let ghost whole = rest@;
        let i: usize = find(rest, '\n');
        proof {
            lemma_find(rest@, '\n');
        }
        if i < rest.len() {
            let mut n: usize = i;
            if n > 0 && rest[n - 1] == '\r' {
                n -= 1;
            }
            let line = slice_subrange(rest, 0, n);
            assert(line@ =~= strip_return(whole.take(i as int)));
            out.push(line);
            rest = slice_subrange(rest, i + 1, rest.len());
            assert(rest@ =~= whole.skip(i + 1));
            assert(texts(out@) =~= texts(before).push(strip_return(whole.take(i as int))));
        } else {
            out.push(rest);
            rest = slice_subrange(rest, i, rest.len());
            assert(texts(out@) =~= texts(before).push(whole));
        }
        assert(texts(out@) + lines_of(rest@) =~= texts(before) + lines_of(whole));
    }
    assert(texts(out@) =~= texts(out@) + lines_of(rest@));
    out
}

/// How many characters `s` begins with that are not white space.
pub open spec fn word_len(s: Seq<char>) -> int
    decreases s.len(),
{
    if s.len() == 0 || is_white_space(s[0]) {
        0
    } else {
        1 + word_len(s.skip(1))
    }
}

/// What `word_len` gives: an index with white space there and nowhere before it.
pub proof fn lemma_word_len(s: Seq<char>)
    ensures
        0 <= word_len(s) <= s.len(),
        word_len(s) < s.len() ==> is_white_space(s[word_len(s)]),
        forall|j: int| 0 <= j < word_len(s) ==> !is_white_space(s[j]),
    decreases s.len(),
{
    if s.len() > 0 && !is_white_space(s[0]) {
        lemma_word_len(s.skip(1));
        assert forall|j: int| 0 <= j < word_len(s) implies !is_white_space(s[j]) by {
            if j > 0 {
                assert(s[j] == s.skip(1)[j - 1]);
            }
        }
    }
}

/// Any index with white space there and nowhere before it is what `word_len` gives.
pub proof fn lemma_word_len_is(s: Seq<char>, i: int)
    requires
        0 <= i <= s.len(),
        i < s.len() ==> is_white_space(s[i]),
        forall|j: int| 0 <= j < i ==> !is_white_space(s[j]),
    ensures
        word_len(s) == i,
{
    lemma_word_len(s);
    let k = word_len(s);
    if k < i {
        assert(!is_white_space(s[k]));
    } else if i < k {
        assert(!is_white_space(s[i]));
    }
}

/// What `trim_start_of` gives: a suffix that does not begin with white space.
pub proof fn lemma_trim_start(s: Seq<char>)
    ensures
        trim_start_of(s).len() <= s.len(),
        trim_start_of(s).len() > 0 ==> !is_white_space(trim_start_of(s)[0]),
    decreases s.len(),
{
    if s.len() > 0 && is_white_space(s[0]) {
        lemma_trim_start(s.skip(1));
    }
}

/// The maximal runs of `s` without white space.
pub open spec fn words_of(s: Seq<char>) -> Seq<Seq<char>>
    decreases s.len(),
    via words_of_ends
{
    let t = trim_start_of(s);
    if t.len() == 0 {
        Seq::empty()
    } else {
        seq![t.take(word_len(t))] + words_of(t.skip(word_len(t)))
    }
}

#[via_fn]
proof fn words_of_ends(s: Seq<char>) {
    lemma_trim_start(s);
    lemma_word_len(trim_start_of(s));
}

/// The maximal runs of `s` without white space.
pub fn words<'a>(s: &'a [char]) -> (r: Vec<&'a [char]>)
    ensures
        texts(r@) == words_of(s@),
{
    let mut out: Vec<&'a [char]> = Vec::new();
    let mut rest: &'a [char] = trim_start(s);
    assert(trim_start_of(rest@) == rest@) by {
        lemma_trim_start(s@);
    }
    assert(texts(out@) + words_of(rest@) =~= words_of(s@));
    while rest.len() > 0
        invariant
            texts(out@) + words_of(rest@) == words_of(s@),
            trim_start_of(rest@) == rest@,
        decreases rest@.len(),
    {
        let ghost before = out@;
        let ghost whole = rest@;
        let mut n: usize = 0;
        while n < rest.len() && !white_space(rest[n])
            invariant
                n <= rest@.len(),
                forall|j: int| 0 <= j < n ==> !is_white_space(rest@[j]),
            decreases rest@.len() - n,
        {
            n += 1;
        }
        proof {
            lemma_word_len_is(rest@, n as int);
            lemma_trim_start(whole);
            lemma_trim_start(whole.skip(n as int));
        }
        out.push(slice_subrange(rest, 0, n));
        let tail = slice_subrange(rest, n, rest.len());
        assert(tail@ =~= whole.skip(n as int));
        rest = trim_start(tail);
        assert(trim_start_of(rest@) == rest@);
        assert(words_of(rest@) == words_of(whole.skip(n as int)));
        assert(texts(out@) =~= texts(before).push(whole.take(n as int)));
        assert(texts(out@) + words_of(rest@) =~= texts(before) + words_of(whole));
    }
    assert(texts(out@) =~= texts(out@) + words_of(rest@));
    out
}

/// Whether `p` occurs in `s`.
pub open spec fn contains_text(s: Seq<char>, p: Seq<char>) -> bool {
    exists|i: int| occurs_at(s, p, i)
}

/// Whether `p` occurs in `s` at index `i`.
pub open spec fn occurs_at(s: Seq<char>, p: Seq<char>, i: int) -> bool {
    0 <= i && i + p.len() <= s.len() && s.subrange(i, i + p.len()) == p
}

/// Whether `s` begins with the characters of `p`.
pub fn starts_with(s: &[char], p: &str) -> (r: bool)
    ensures
        r == p@.is_prefix_of(s@),
{
    let pat = chars_of(p);
    if pat.len() > s.len() {
        return false;
    }
    let r = matches_at(s, &pat, 0);
    assert(s@.subrange(0, p@.len() as int) =~= s@.take(p@.len() as int));
    r
}

/// Whether `p` stands in `s` at index `i`.
fn matches_at(s: &[char], p: &Vec<char>, i: usize) -> (r: bool)
    requires
        i + p@.len() <= s@.len(),
    ensures
        r == (s@.subrange(i as int, i + p@.len()) == p@),
{
    let mut j: usize = 0;
    let size: usize = s.len();
    while j < p.len()
        invariant
            j <= p@.len(),
            i + p@.len() <= size,
            size == s@.len(),
            forall|k: int| 0 <= k < j ==> s@[i + k] == p@[k],
        decreases p@.len() - j,
    {
        if s[i + j] != p[j] {
            assert(s@.subrange(i as int, i + p@.len())[j as int] != p@[j as int]);
            return false;
        }
        j += 1;
    }
    assert(s@.subrange(i as int, i + p@.len()) =~= p@);
    true
}

/// Whether `s` holds exactly the characters of `p`.
pub fn equals(s: &[char], p: &str) -> (r: bool)
    ensures
        r == (s@ == p@),
{
    let pat = chars_of(p);
    if pat.len() != s.len() {
        return false;
    }
    let r = matches_at(s, &pat, 0);
    assert(s@.subrange(0, p@.len() as int) =~= s@);
    r
}

/// Whether two texts have the same characters.
pub fn same_text(a: &str, b: &str) -> (r: bool)
    ensures
        r == (a@ == b@),
{
    let s = chars_of(a);
    equals(&s, b)
}

/// Where `p` first occurs in `s`.
pub open spec fn find_text_of(s: Seq<char>, p: Seq<char>) -> Option<int>
    decreases s.len(),
{
    if p.is_prefix_of(s) {
        Some(0)
    } else if s.len() == 0 {
        None
    } else {
        match find_text_of(s.skip(1), p) {
            Some(i) => Some(i + 1),
            None => None,
        }
    }
}

/// What `find_text_of` gives: the least index at which `p` occurs.
pub proof fn lemma_find_text(s: Seq<char>, p: Seq<char>)
    ensures
        match find_text_of(s, p) {
            Some(i) => occurs_at(s, p, i) && forall|j: int| j < i ==> !occurs_at(s, p, j),
            None => forall|j: int| !occurs_at(s, p, j),
        },
    decreases s.len(),
{
    assert(occurs_at(s, p, 0) == p.is_prefix_of(s)) by {
        if p.len() <= s.len() {
            assert(s.subrange(0, p.len() as int) =~= s.take(p.len() as int));
        }
    }
    if !p.is_prefix_of(s) && s.len() > 0 {
        let t = s.skip(1);
        lemma_find_text(t, p);
        assert forall|j: int| j != 0 implies occurs_at(s, p, j) == occurs_at(t, p, j - 1) by {
            if 0 < j && j + p.len() <= s.len() {
                assert(s.subrange(j, j + p.len()) =~= t.subrange(j - 1, j - 1 + p.len()));
            }
        }
    }
}

/// Any least index at which `p` occurs is what `find_text_of` gives.
pub proof fn lemma_find_text_is(s: Seq<char>, p: Seq<char>, i: int)
    requires
        occurs_at(s, p, i),
        forall|j: int| 0 <= j < i ==> !occurs_at(s, p, j),
    ensures
        find_text_of(s, p) == Some(i),
{
    lemma_find_text(s, p);
    let k = find_text_of(s, p)->0;
    if k < i {
        assert(!occurs_at(s, p, k));
    }
}

/// Where the characters of `p` first occur in `s`.
pub fn find_text(s: &[char], p: &str) -> (r: Option<usize>)
    ensures
        match r {
            Some(i) => find_text_of(s@, p@) == Some(i as int),
            None => find_text_of(s@, p@) is None,
        },
        r is Some == contains_text(s@, p@),
{
    let pat = chars_of(p);
    let mut i: usize = 0;
    while pat.len() <= s.len() - i
        invariant
            i <= s@.len(),
            pat@ == p@,
            forall|j: int| 0 <= j < i ==> !occurs_at(s@, p@, j),
        decreases s@.len() - i,
    {
        if matches_at(s, &pat, i) {
            proof {
                assert(occurs_at(s@, p@, i as int));
                lemma_find_text_is(s@, p@, i as int);
            }
            return Some(i);
        }
        if i == s.len() {
            assert(!occurs_at(s@, p@, i as int));
            assert(forall|j: int| !occurs_at(s@, p@, j));
            proof {
                lemma_find_text(s@, p@);
            }
            return None;
        }
        i += 1;
    }
    proof {
        lemma_find_text(s@, p@);
        assert(forall|j: int| !occurs_at(s@, p@, j));
    }
    None
}

/// Whether the characters of `p` occur in `s`.
pub fn contains(s: &[char], p: &str) -> (r: bool)
    ensures
        r == contains_text(s@, p@),
{
    find_text(s, p).is_some()
}

/// Whether `c` occurs in `s`.
pub fn contains_char(s: &[char], c: char) -> (r: bool)
    ensures
        r == s@.contains(c),
{
    let i = find(s, c);
    proof {
        lemma_find(s@, c);
        if s@.contains(c) {
            let k = s@.index_of(c);
            if i == s@.len() {
                assert(s@[k] != c);
            }
        }
    }
    i < s.len()
}

/// Where `c` last occurs in `s`.
pub open spec fn rfind_of(s: Seq<char>, c: char) -> Option<int>
    decreases s.len(),
{
    if s.len() == 0 {
        None
    } else if s.last() == c {
        Some(s.len() - 1)
    } else {
        rfind_of(s.drop_last(), c)
    }
}

/// Where `c` last occurs in `s`.
pub fn rfind(s: &[char], c: char) -> (r: Option<usize>)
    ensures
        match r {
            Some(i) => rfind_of(s@, c) == Some(i as int) && i < s@.len(),
            None => rfind_of(s@, c) is None,
        },
{
    let mut n: usize = s.len();
    assert(s@.take(n as int) =~= s@);
    while n > 0
        invariant
            n <= s@.len(),
            rfind_of(s@, c) == rfind_of(s@.take(n as int), c),
        decreases n,
    {
        if s[n - 1] == c {
            return Some(n - 1);
        }
        assert(s@.take(n as int).drop_last() =~= s@.take(n - 1));
        n -= 1;
    }
    None
}

/// The parts one after another, with `sep` between two.
pub open spec fn join_of(parts: Seq<Seq<char>>, sep: Seq<char>) -> Seq<char>
    decreases parts.len(),
{
    if parts.len() == 0 {
        Seq::empty()
    } else if parts.len() == 1 {
        parts[0]
    } else {
        join_of(parts.drop_last(), sep) + sep + parts.last()
    }
}

/// The strings one after another, with `sep` between two.
pub fn join(parts: &Vec<String>, sep: &str) -> (r: String)
    ensures
        r@ == join_of(strings(parts@), sep@),
{
    let mut out = String::new();
    let mut i: usize = 0;
    let ghost all = strings(parts@);
    while i < parts.len()
        invariant
            i <= parts@.len(),
            all == strings(parts@),
            out@ == join_of(all.take(i as int), sep@),
        decreases parts@.len() - i,
    {
        if i > 0 {
            out.append(sep);
        }
        out.append(parts[i].as_str());
        proof {
            let next = all.take(i + 1);
            assert(next.drop_last() =~= all.take(i as int));
            assert(next.last() == parts@[i as int]@);
            if i == 0 {
                assert(out@ =~= next[0]);
            }
        }
        i += 1;
    }
    assert(all.take(all.len() as int) =~= all);
    out
}

/// Copies of the strings.
pub fn clone_strings(v: &Vec<String>) -> (r: Vec<String>)
    ensures
        r@ == v@,
{
    let mut out: Vec<String> = Vec::new();
    let mut i: usize = 0;
    while i < v.len()
        invariant
            i <= v@.len(),
            out@ == v@.take(i as int),
        decreases v@.len() - i,
    {
        out.push(v[i].clone());
        assert(v@.take(i + 1) =~= v@.take(i as int).push(v@[i as int]));
        i += 1;
    }
    assert(v@.take(v@.len() as int) =~= v@);
    out
}

/// Whether `s` is one word: not empty, and without white space.
pub open spec fn is_word(s: Seq<char>) -> bool {
    s.len() > 0 && forall|i: int| 0 <= i < s.len() ==> !is_white_space(#[trigger] s[i])
}

/// Words that white space follows: the first word, and the words of the rest.
pub proof fn lemma_words_cons(w: Seq<char>, c: char, rest: Seq<char>)
    requires
        is_word(w),
        is_white_space(c),
    ensures
        words_of(w + seq![c] + rest) == seq![w] + words_of(rest),
{
    let s = w + seq![c] + rest;
    assert(!is_white_space(s[0]));
    assert(trim_start_of(s) == s);
    assert forall|j: int| 0 <= j < w.len() implies !is_white_space(s[j]) by {
        assert(s[j] == w[j]);
    }
    assert(s[w.len() as int] == c);
    lemma_word_len_is(s, w.len() as int);
    let tail = s.skip(w.len() as int);
    assert(s.take(w.len() as int) =~= w);
    assert(tail.skip(1) =~= rest);
    assert(tail[0] == c);
    assert(trim_start_of(tail) == trim_start_of(rest));
    assert(words_of(tail) == words_of(rest));
}

/// A single word has itself as its words.
pub proof fn lemma_words_one(w: Seq<char>)
    requires
        is_word(w),
    ensures
        words_of(w) == seq![w],
{
    assert(!is_white_space(w[0]));
    assert(trim_start_of(w) == w);
    lemma_word_len_is(w, w.len() as int);
    assert(w.take(w.len() as int) =~= w);
    let tail = w.skip(w.len() as int);
    assert(tail.len() == 0);
    assert(trim_start_of(tail) == tail);
    assert(words_of(tail) =~= Seq::<Seq<char>>::empty());
    assert(seq![w] + words_of(tail) =~= seq![w]);
}

/// Text that neither begins nor ends with white space loses only what is put behind it.
pub proof fn lemma_trim_line(s: Seq<char>, c: char)
    requires
        s.len() > 0,
        !is_white_space(s[0]),
        !is_white_space(s.last()),
        is_white_space(c),
    ensures
        trim_of(s + seq![c]) == s,
        trim_of(s) == s,
{
    let t = s + seq![c];
    assert(trim_start_of(t) == t);
    assert(trim_start_of(s) == s);
    assert(t.drop_last() =~= s);
    assert(trim_end_of(t) == trim_end_of(s));
}

/// The lines of two texts, of which the first ends with a line feed, are the lines of both.
pub proof fn lemma_lines_add(a: Seq<char>, b: Seq<char>)
    requires
        a.len() == 0 || a.last() == '\n',
    ensures
        lines_of(a + b) == lines_of(a) + lines_of(b),
    decreases a.len(),
{
    if a.len() == 0 {
        assert(a + b =~= b);
        assert(lines_of(a) + lines_of(b) =~= lines_of(b));
    } else {
        let i = find_of(a, '\n');
        lemma_find(a, '\n');
        let s = a + b;
        assert forall|j: int| 0 <= j < i implies s[j] != '\n' by {
            assert(s[j] == a[j]);
        }
        assert(i < a.len()) by {
            if i >= a.len() {
                assert(a[a.len() - 1] == '\n');
            }
        }
        assert(s[i] == '\n');
        lemma_find_is(s, '\n', i);
        assert(s.take(i) =~= a.take(i));
        let rest = a.skip(i + 1);
        assert(s.skip(i + 1) =~= rest + b);
        if rest.len() > 0 {
            assert(rest.last() == a.last());
        }
        lemma_lines_add(rest, b);
        assert(lines_of(s) =~= lines_of(a) + lines_of(b));
    }
}

/// Text with a line feed behind it, and none in it, is one line.
pub proof fn lemma_line(s: Seq<char>)
    requires
        forall|i: int| 0 <= i < s.len() ==> #[trigger] s[i] != '\n',
        s.len() > 0,
        s.last() != '\r',
    ensures
        lines_of(s + seq!['\n']) == seq![s],
{
    let t = s + seq!['\n'];
    let n = s.len() as int;
    assert forall|j: int| 0 <= j < n implies t[j] != '\n' by {
        assert(t[j] == s[j]);
    }
    lemma_find_is(t, '\n', n);
    assert(t.take(n) =~= s);
    assert(t.skip(n + 1) =~= Seq::<char>::empty());
    assert(lines_of(t.skip(n + 1)) =~= Seq::<Seq<char>>::empty());
    assert(lines_of(t) =~= seq![s]);
}

/// Whether `s` is made of white space alone.
pub open spec fn is_blank(s: Seq<char>) -> bool {
    forall|i: int| 0 <= i < s.len() ==> is_white_space(#[trigger] s[i])
}

/// Whether neither end of `s` is white space.
pub open spec fn is_tight(s: Seq<char>) -> bool {
    s.len() > 0 ==> !is_white_space(s[0]) && !is_white_space(s[s.len() - 1])
}

/// Whether `c` is nowhere in `s`.
pub open spec fn lacks(s: Seq<char>, c: char) -> bool {
    forall|i: int| 0 <= i < s.len() ==> #[trigger] s[i] != c
}

/// White space before text is what `trim_start_of` takes away, and all of it.
pub proof fn law_trim_start(white: Seq<char>, s: Seq<char>)
    requires
        is_blank(white),
        s.len() > 0 ==> !is_white_space(s[0]),
    ensures
        trim_start_of(white + s) == s,
    decreases white.len(),
{
    if white.len() == 0 {
        assert(white + s =~= s);
    } else {
        let rest = white.skip(1);
        assert forall|i: int| 0 <= i < rest.len() implies is_white_space(#[trigger] rest[i]) by {
            assert(rest[i] == white[i + 1]);
        }
        law_trim_start(rest, s);
        assert((white + s)[0] == white[0]);
        assert((white + s).skip(1) =~= rest + s);
    }
}

/// White space behind text is what `trim_end_of` takes away, and all of it.
pub proof fn law_trim_end(s: Seq<char>, white: Seq<char>)
    requires
        is_blank(white),
        s.len() > 0 ==> !is_white_space(s[s.len() - 1]),
    ensures
        trim_end_of(s + white) == s,
    decreases white.len(),
{
    if white.len() == 0 {
        assert(s + white =~= s);
    } else {
        let rest = white.drop_last();
        assert forall|i: int| 0 <= i < rest.len() implies is_white_space(#[trigger] rest[i]) by {
            assert(rest[i] == white[i]);
        }
        law_trim_end(s, rest);
        assert((s + white).last() == white[white.len() - 1]);
        assert((s + white).drop_last() =~= s + rest);
    }
}

/// Trimming takes away the white space at both ends, all of it, and nothing else.
pub proof fn law_trim(before: Seq<char>, s: Seq<char>, behind: Seq<char>)
    requires
        is_blank(before),
        is_tight(s),
        is_blank(behind),
    ensures
        trim_of(before + s + behind) == s,
{
    if s.len() == 0 {
        let all = before + behind;
        let none = Seq::<char>::empty();
        assert forall|i: int| 0 <= i < all.len() implies is_white_space(#[trigger] all[i]) by {
            if i < before.len() {
                assert(all[i] == before[i]);
            } else {
                assert(all[i] == behind[i - before.len()]);
            }
        }
        assert(before + s + behind =~= all + none);
        law_trim_start(all, none);
        assert(trim_end_of(none) == none);
        assert(s =~= none);
    } else {
        assert(before + s + behind =~= before + (s + behind));
        law_trim_start(before, s + behind);
        law_trim_end(s, behind);
    }
}

/// What trimming leaves has no white space at its ends, and stands in the text between white
/// space.
pub proof fn lemma_trimmed(s: Seq<char>) -> (parts: (Seq<char>, Seq<char>))
    ensures
        is_tight(trim_of(s)),
        is_blank(parts.0),
        is_blank(parts.1),
        s == parts.0 + trim_of(s) + parts.1,
{
    let before = lemma_trimmed_start(s);
    let t = trim_start_of(s);
    let behind = lemma_trimmed_end(t);
    lemma_trim_start(s);
    assert(s =~= before + trim_of(s) + behind);
    if trim_of(s).len() > 0 {
        assert(trim_of(s)[0] == t[0]);
    }
    (before, behind)
}

/// The white space that `trim_start_of` takes away.
pub proof fn lemma_trimmed_start(s: Seq<char>) -> (white: Seq<char>)
    ensures
        is_blank(white),
        s == white + trim_start_of(s),
    decreases s.len(),
{
    if s.len() > 0 && is_white_space(s[0]) {
        let rest = lemma_trimmed_start(s.skip(1));
        let white = seq![s[0]] + rest;
        assert(s =~= white + trim_start_of(s)) by {
            assert(s =~= seq![s[0]] + s.skip(1));
        }
        assert forall|i: int| 0 <= i < white.len() implies is_white_space(#[trigger] white[i]) by {
            if i > 0 {
                assert(white[i] == rest[i - 1]);
            }
        }
        white
    } else {
        assert(s =~= Seq::<char>::empty() + s);
        Seq::empty()
    }
}

/// The white space that `trim_end_of` takes away; what is left does not end with any.
proof fn lemma_trimmed_end(s: Seq<char>) -> (white: Seq<char>)
    ensures
        is_blank(white),
        s == trim_end_of(s) + white,
        trim_end_of(s).len() > 0 ==> !is_white_space(trim_end_of(s)[trim_end_of(s).len() - 1]),
    decreases s.len(),
{
    if s.len() > 0 && is_white_space(s.last()) {
        let rest = lemma_trimmed_end(s.drop_last());
        let white = rest.push(s.last());
        assert(s =~= trim_end_of(s) + white) by {
            assert(s =~= s.drop_last().push(s.last()));
        }
        assert forall|i: int| 0 <= i < white.len() implies is_white_space(#[trigger] white[i]) by {
            if i < rest.len() {
                assert(white[i] == rest[i]);
            }
        }
        white
    } else {
        assert(s =~= s + Seq::<char>::empty());
        Seq::empty()
    }
}

/// Text is split at its first `c`, and the rest in turn; text without `c` stays whole.
pub proof fn law_split(a: Seq<char>, c: char, b: Seq<char>)
    requires
        lacks(a, c),
    ensures
        split_of(a, c) == seq![a],
        split_of(a + seq![c] + b, c) == seq![a] + split_of(b, c),
{
    let s = a + seq![c] + b;
    let n = a.len() as int;
    lemma_find_is(a, c, n);
    assert forall|j: int| 0 <= j < n implies s[j] != c by {
        assert(s[j] == a[j]);
    }
    lemma_find_is(s, c, n);
    assert(s.take(n) =~= a);
    assert(s.skip(n + 1) =~= b);
}

/// The words of text are its first run without white space, whatever white space comes before
/// it, and then the words of what follows; white space has no words.
pub proof fn law_words(white: Seq<char>, word: Seq<char>, rest: Seq<char>)
    requires
        is_blank(white),
        is_word(word),
        rest.len() > 0 ==> is_white_space(rest[0]),
    ensures
        words_of(white) == Seq::<Seq<char>>::empty(),
        words_of(white + word + rest) == seq![word] + words_of(rest),
{
    let none = Seq::<char>::empty();
    law_trim_start(white, none);
    assert(white + none =~= white);
    assert(words_of(white) =~= Seq::<Seq<char>>::empty());
    let s = word + rest;
    assert(white + word + rest =~= white + s);
    assert(s[0] == word[0]);
    law_trim_start(white, s);
    assert forall|j: int| 0 <= j < word.len() implies !is_white_space(s[j]) by {
        assert(s[j] == word[j]);
    }
    if rest.len() > 0 {
        assert(s[word.len() as int] == rest[0]);
    }
    lemma_word_len_is(s, word.len() as int);
    assert(s.take(word.len() as int) =~= word);
    assert(s.skip(word.len() as int) =~= rest);
}

/// Text up to its first line feed is its first line, without a carriage return at its end, and
/// what follows has the other lines; text without a line feed is one line, unless it is empty.
pub proof fn law_lines(line: Seq<char>, rest: Seq<char>)
    requires
        lacks(line, '\n'),
    ensures
        line.len() > 0 ==> lines_of(line) == seq![line],
        line.len() == 0 ==> lines_of(line).len() == 0,
        line.len() == 0 || line[line.len() - 1] != '\r' ==> lines_of(line + seq!['\n'] + rest)
            == seq![line] + lines_of(rest),
        lines_of(line + seq!['\r', '\n'] + rest) == seq![line] + lines_of(rest),
{
    let n = line.len() as int;
    lemma_find_is(line, '\n', n);
    let s = line + seq!['\n'] + rest;
    assert forall|j: int| 0 <= j < n implies s[j] != '\n' by {
        assert(s[j] == line[j]);
    }
    lemma_find_is(s, '\n', n);
    assert(s.take(n) =~= line);
    assert(s.skip(n + 1) =~= rest);
    let t = line + seq!['\r', '\n'] + rest;
    assert forall|j: int| 0 <= j < n + 1 implies t[j] != '\n' by {
        if j < n {
            assert(t[j] == line[j]);
        }
    }
    lemma_find_is(t, '\n', n + 1);
    assert(t.take(n + 1) =~= line.push('\r'));
    assert(t.take(n + 1).drop_last() =~= line);
    assert(t.skip(n + 2) =~= rest);
}

/// The last `c` of text is the one behind which there is none.
pub proof fn law_rfind(a: Seq<char>, c: char, b: Seq<char>)
    requires
        lacks(b, c),
    ensures
        rfind_of(b, c) is None,
        rfind_of(a + seq![c] + b, c) == Some(a.len() as int),
    decreases b.len(),
{
    let s = a + seq![c] + b;
    if b.len() > 0 {
        let front = b.drop_last();
        assert forall|i: int| 0 <= i < front.len() implies #[trigger] front[i] != c by {
            assert(front[i] == b[i]);
        }
        law_rfind(a, c, front);
        assert(s.drop_last() =~= a + seq![c] + front);
        assert(s.last() == b[b.len() - 1]);
    }
}

/// Text holds whatever it is made of, and what it holds it is made of.
pub proof fn law_contains(s: Seq<char>, p: Seq<char>)
    ensures
        contains_text(s, p) <==> exists|a: Seq<char>, b: Seq<char>| s == #[trigger] (a + p + b),
{
    if contains_text(s, p) {
        let i = choose|i: int| occurs_at(s, p, i);
        let a = s.take(i);
        let b = s.skip(i + p.len());
        assert(s.subrange(i, i + p.len()) == p);
        assert(s =~= a + p + b);
    }
    if exists|a: Seq<char>, b: Seq<char>| s == #[trigger] (a + p + b) {
        let (a, b) = choose|a: Seq<char>, b: Seq<char>| s == #[trigger] (a + p + b);
        assert(s.subrange(a.len() as int, (a.len() + p.len()) as int) =~= p);
        assert(occurs_at(s, p, a.len() as int));
    }
}

/// Joined parts stand one behind another, the separator between every two: joining two lists is
/// joining each and putting the separator between them.
pub proof fn law_join(a: Seq<Seq<char>>, b: Seq<Seq<char>>, sep: Seq<char>)
    ensures
        a.len() == 1 ==> join_of(a, sep) == a[0],
        a.len() > 0 && b.len() > 0 ==> join_of(a + b, sep) == join_of(a, sep) + sep + join_of(
            b,
            sep,
        ),
        a.len() == 0 ==> join_of(a, sep).len() == 0,
    decreases b.len(),
{
    if a.len() > 0 && b.len() > 0 {
        let all = a + b;
        let front = b.drop_last();
        assert(all.drop_last() =~= a + front);
        assert(all.last() == b.last());
        if b.len() == 1 {
            assert(a + front =~= a);
        } else {
            law_join(a, front, sep);
            assert(join_of(all, sep) =~= join_of(a, sep) + sep + join_of(b, sep));
        }
    }
}

/// White space is what Unicode calls so: tab to carriage return, the space, the next line, and the
/// spaces and separators beyond Latin letters; nothing else is.
pub proof fn law_white_space(c: char)
    ensures
        is_white_space(c) <==> {
            let n = c as int;
            ||| 9 <= n <= 13
            ||| n == 32
            ||| n == 133
            ||| n == 160
            ||| n == 5760
            ||| 8192 <= n <= 8202
            ||| 8232 <= n <= 8233
            ||| n == 8239
            ||| n == 8287
            ||| n == 12288
        },
{
}

} // verus!
