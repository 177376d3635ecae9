//! The order of names, and lists of names in order without repeats.

use crate::text::{chars_of, same_text, strings};
use vstd::prelude::*;

verus! {

/// Whether `a` comes before `b`: at the first character in which they differ, or as its
/// beginning.
pub open spec fn comes_before(a: Seq<char>, b: Seq<char>) -> bool
    decreases a.len(),
{
    if b.len() == 0 {
        false
    } else if a.len() == 0 {
        true
    } else if a[0] != b[0] {
        a[0] < b[0]
    } else {
        comes_before(a.skip(1), b.skip(1))
    }
}

/// Whether each name comes before all that follow it.
pub open spec fn increasing(s: Seq<Seq<char>>) -> bool {
    forall|i: int, j: int| 0 <= i < j < s.len() ==> comes_before(#[trigger] s[i], #[trigger] s[j])
}

/// The names `t` with `x` put in its place, unless it is there.
pub open spec fn insert_of(t: Seq<Seq<char>>, x: Seq<char>) -> Seq<Seq<char>>
    decreases t.len(),
{
    if t.len() == 0 {
        seq![x]
    } else if x == t[0] {
        t
    } else if comes_before(x, t[0]) {
        seq![x] + t
    } else {
        seq![t[0]] + insert_of(t.skip(1), x)
    }
}

/// The names of `s` in order, each once.
pub open spec fn sorted_of(s: Seq<Seq<char>>) -> Seq<Seq<char>>
    decreases s.len(),
{
    if s.len() == 0 {
        Seq::empty()
    } else {
        insert_of(sorted_of(s.drop_last()), s.last())
    }
}

/// Of two different names one comes before the other, and only one.
pub proof fn lemma_one_comes_before(a: Seq<char>, b: Seq<char>)
    ensures
        !(comes_before(a, b) && comes_before(b, a)),
        a == b ==> !comes_before(a, b),
        a != b ==> comes_before(a, b) || comes_before(b, a),
    decreases a.len(),
{
    if a.len() > 0 && b.len() > 0 && a[0] == b[0] {
        lemma_one_comes_before(a.skip(1), b.skip(1));
        if a.skip(1) == b.skip(1) {
            assert(a =~= seq![a[0]] + a.skip(1));
            assert(b =~= seq![b[0]] + b.skip(1));
        }
    } else if a.len() == 0 && b.len() == 0 {
        assert(a =~= b);
    }
}

/// What comes before a name that comes before a third comes before the third.
pub proof fn lemma_before_before(a: Seq<char>, b: Seq<char>, c: Seq<char>)
    requires
        comes_before(a, b),
        comes_before(b, c),
    ensures
        comes_before(a, c),
    decreases a.len(),
{
    if a.len() > 0 && a[0] == b[0] && b[0] == c[0] {
        lemma_before_before(a.skip(1), b.skip(1), c.skip(1));
    }
}

/// Putting a name in its place keeps the order and adds that name alone.
pub proof fn lemma_insert(t: Seq<Seq<char>>, x: Seq<char>)
    requires
        increasing(t),
    ensures
        increasing(insert_of(t, x)),
        forall|y: Seq<char>| #[trigger]
            insert_of(t, x).contains(y) <==> t.contains(y) || y == x,
    decreases t.len(),
{
    let r = insert_of(t, x);
    if t.len() == 0 {
        assert(r[0] == x);
    } else if x == t[0] {
        assert(t.contains(x));
    } else if comes_before(x, t[0]) {
        assert forall|i: int, j: int| 0 <= i < j < r.len() implies comes_before(
            #[trigger] r[i],
            #[trigger] r[j],
        ) by {
            if i == 0 && j > 1 {
                lemma_before_before(x, t[0], t[j - 1]);
            }
        }
        assert forall|y: Seq<char>| #[trigger] r.contains(y) <==> t.contains(y) || y == x by {
            if t.contains(y) {
                let k = t.index_of(y);
                assert(r[k + 1] == y);
            }
            if y == x {
                assert(r[0] == y);
            }
        }
    } else {
        let tail = t.skip(1);
        let ins = insert_of(tail, x);
        lemma_insert(tail, x);
        lemma_one_comes_before(x, t[0]);
        assert forall|i: int, j: int| 0 <= i < j < r.len() implies comes_before(
            #[trigger] r[i],
            #[trigger] r[j],
        ) by {
            if i == 0 {
                assert(r[j] == ins[j - 1]);
                assert(ins.contains(ins[j - 1]));
                if ins[j - 1] != x {
                    let k = tail.index_of(ins[j - 1]);
                    assert(t[k + 1] == ins[j - 1]);
                }
            } else {
                assert(r[i] == ins[i - 1] && r[j] == ins[j - 1]);
            }
        }
        assert forall|y: Seq<char>| #[trigger] r.contains(y) <==> t.contains(y) || y == x by {
            assert(ins.contains(y) <==> tail.contains(y) || y == x);
            if r.contains(y) {
                let k = r.index_of(y);
                if k > 0 {
                    assert(ins[k - 1] == y);
                    if tail.contains(y) {
                        assert(t[tail.index_of(y) + 1] == y);
                    }
                } else {
                    assert(t[0] == y);
                }
            }
            if t.contains(y) {
                let k = t.index_of(y);
                if k > 0 {
                    assert(tail[k - 1] == y);
                    assert(r[ins.index_of(y) + 1] == y);
                } else {
                    assert(r[0] == y);
                }
            }
            if y == x {
                assert(r[ins.index_of(y) + 1] == y);
            }
        }
    }
}

/// The sorted names are in order without repeats, and they are the names given.
pub proof fn law_sorted(s: Seq<Seq<char>>)
    ensures
        increasing(sorted_of(s)),
        forall|y: Seq<char>| #[trigger] sorted_of(s).contains(y) <==> s.contains(y),
    decreases s.len(),
{
    if s.len() > 0 {
        let front = s.drop_last();
        law_sorted(front);
        lemma_insert(sorted_of(front), s.last());
        assert forall|y: Seq<char>| #[trigger] sorted_of(s).contains(y) <==> s.contains(y) by {
            if s.contains(y) {
                let k = s.index_of(y);
                if k < front.len() {
                    assert(front[k] == y);
                }
                assert(front.contains(y) || y == s.last());
            }
            if front.contains(y) {
                assert(s[front.index_of(y)] == y);
            }
            if y == s.last() {
                assert(s[s.len() - 1] == y);
            }
            assert(insert_of(sorted_of(front), s.last()).contains(y) <==> sorted_of(
                front,
            ).contains(y) || y == s.last());
        }
    }
}

/// There is only one list in order without repeats that has given names.
pub proof fn law_increasing_unique(a: Seq<Seq<char>>, b: Seq<Seq<char>>)
    requires
        increasing(a),
        increasing(b),
        forall|y: Seq<char>| a.contains(y) <==> b.contains(y),
    ensures
        a == b,
    decreases a.len(),
{
    if a.len() == 0 {
        if b.len() > 0 {
            assert(b.contains(b[0]));
            assert(a.contains(b[0]));
        }
        assert(a =~= b);
    } else {
        assert(a.contains(a[0]));
        assert(b.contains(a[0]));
        assert(b.contains(b[0]));
        assert(a.contains(b[0]));
        let i = b.index_of(a[0]);
        let j = a.index_of(b[0]);
        if i > 0 && j > 0 {
            lemma_one_comes_before(a[0], b[0]);
            assert(comes_before(b[0], b[i]));
            assert(comes_before(a[0], a[j]));
        }
        let s = a.skip(1);
        let t = b.skip(1);
        assert forall|x: int, y: int| 0 <= x < y < s.len() implies comes_before(
            #[trigger] s[x],
            #[trigger] s[y],
        ) by {
            assert(comes_before(a[x + 1], a[y + 1]));
        }
        assert forall|x: int, y: int| 0 <= x < y < t.len() implies comes_before(
            #[trigger] t[x],
            #[trigger] t[y],
        ) by {
            assert(comes_before(b[x + 1], b[y + 1]));
        }
        assert forall|y: Seq<char>| s.contains(y) <==> t.contains(y) by {
            lemma_one_comes_before(y, y);
            if s.contains(y) {
                let k = s.index_of(y);
                assert(a[k + 1] == y);
                assert(a.contains(y));
                let l = b.index_of(y);
                assert(comes_before(a[0], a[k + 1]));
                assert(t[l - 1] == y);
            }
            if t.contains(y) {
                let k = t.index_of(y);
                assert(b[k + 1] == y);
                assert(b.contains(y));
                let l = a.index_of(y);
                assert(comes_before(b[0], b[k + 1]));
                assert(s[l - 1] == y);
            }
        }
        law_increasing_unique(s, t);
        assert(a =~= seq![a[0]] + s);
        assert(b =~= seq![b[0]] + t);
    }
}

/// Whether `a` comes before `b`.
pub fn before(a: &str, b: &str) -> (r: bool)
    ensures
        r == comes_before(a@, b@),
{
    let s = chars_of(a);
    let t = chars_of(b);
    let mut i: usize = 0;
    assert(a@.skip(0) =~= a@);
    assert(b@.skip(0) =~= b@);
    while i < s.len() && i < t.len() && s[i] == t[i]
        invariant
            s@ == a@,
            t@ == b@,
            i <= s@.len(),
            i <= t@.len(),
            comes_before(a@, b@) == comes_before(a@.skip(i as int), b@.skip(i as int)),
        decreases s@.len() - i,
    {
        assert(a@.skip(i as int).skip(1) =~= a@.skip(i + 1));
        assert(b@.skip(i as int).skip(1) =~= b@.skip(i + 1));
        i += 1;
    }
    if i == t.len() {
        false
    } else if i == s.len() {
        true
    } else {
        s[i] < t[i]
    }
}

/// Puts `x` in its place in the names `t`, unless it is there.
fn insert_name(t: &mut Vec<String>, x: String)
    ensures
        strings(final(t)@) == insert_of(strings(old(t)@), x@),
{
    let ghost names = strings(t@);
    let mut i: usize = 0;
    assert(names.take(0) + insert_of(names.skip(0), x@) =~= insert_of(names, x@)) by {
        assert(names.skip(0) =~= names);
    }
    while i < t.len() && before(t[i].as_str(), x.as_str())
        invariant
            t@ == old(t)@,
            names == strings(t@),
            i <= t@.len(),
            names.take(i as int) + insert_of(names.skip(i as int), x@) == insert_of(names, x@),
        decreases t@.len() - i,
    {
        proof {
            lemma_one_comes_before(names[i as int], x@);
            let rest = names.skip(i as int);
            assert(rest.skip(1) =~= names.skip(i + 1));
            assert(names.take(i as int) + insert_of(rest, x@) =~= names.take(i + 1) + insert_of(
                names.skip(i + 1),
                x@,
            ));
        }
        i += 1;
    }
    proof {
        let rest = names.skip(i as int);
        if i < t@.len() {
            lemma_one_comes_before(names[i as int], x@);
        }
        assert(names.take(i as int) + rest =~= names);
        assert(rest.len() == 0 ==> names.take(i as int) =~= names);
    }
    if i == t.len() || !same_text(t[i].as_str(), x.as_str()) {
        t.insert(i, x);
        assert(strings(t@) =~= names.take(i as int) + (seq![x@] + names.skip(i as int)));
    }
}

/// The names of `names` in order, each once.
pub fn sort_dedup(names: &Vec<String>) -> (r: Vec<String>)
    ensures
        strings(r@) == sorted_of(strings(names@)),
{
    let mut out: Vec<String> = Vec::new();
    let mut i: usize = 0;
    let ghost all = strings(names@);
    assert(strings(out@) =~= sorted_of(all.take(0)));
    while i < names.len()
        invariant
            i <= names@.len(),
            all == strings(names@),
            strings(out@) == sorted_of(all.take(i as int)),
        decreases names@.len() - i,
    {
        insert_name(&mut out, names[i].clone());
        assert(all.take(i + 1).drop_last() =~= all.take(i as int));
        i += 1;
    }
    assert(all.take(all.len() as int) =~= all);
    out
}

/// Names are ordered by the first character in which they differ, whatever follows it, and a name
/// comes before every longer one that begins with it.
pub proof fn law_order(head: Seq<char>, a: char, x: Seq<char>, b: char, y: Seq<char>)
    ensures
        a < b ==> comes_before(head + seq![a] + x, head + seq![b] + y),
        a < b ==> !comes_before(head + seq![b] + y, head + seq![a] + x),
        comes_before(head, head + seq![a] + x),
        !comes_before(head + seq![a] + x, head),
        !comes_before(head, head),
    decreases head.len(),
{
    let s = head + seq![a] + x;
    let t = head + seq![b] + y;
    if head.len() > 0 {
        let rest = head.skip(1);
        law_order(rest, a, x, b, y);
        assert(s.skip(1) =~= rest + seq![a] + x);
        assert(t.skip(1) =~= rest + seq![b] + y);
        assert(s[0] == head[0] && t[0] == head[0]);
    } else {
        assert(s[0] == a);
        assert(t[0] == b);
    }
}

} // verus!
