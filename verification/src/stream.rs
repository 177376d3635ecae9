//! Lines out of text that arrives in pieces.

use crate::decode::{decode, decoded_of};
use crate::text::{chars_of, lacks, string_of, strings, trim, trim_of};
use vstd::prelude::*;
use vstd::slice::slice_subrange;

verus! {

/// Whether `c` ends a line: a line feed or a carriage return does.
pub open spec fn is_break(c: char) -> bool {
    c == '\n' || c == '\r'
}

/// Where the first break is in `s`, or the length of `s` where there is none.
pub open spec fn break_at(s: Seq<char>) -> int
    decreases s.len(),
{
    if s.len() == 0 || is_break(s[0]) {
        0
    } else {
        1 + break_at(s.skip(1))
    }
}

/// What `break_at` gives: an index with a break there and nowhere before it.
proof fn lemma_break_at(s: Seq<char>)
    ensures
        0 <= break_at(s) <= s.len(),
        break_at(s) < s.len() ==> is_break(s[break_at(s)]),
        forall|j: int| 0 <= j < break_at(s) ==> !is_break(s[j]),
    decreases s.len(),
{
    if s.len() > 0 && !is_break(s[0]) {
        lemma_break_at(s.skip(1));
        assert forall|j: int| 0 <= j < break_at(s) implies !is_break(s[j]) by {
            if j > 0 {
                assert(s[j] == s.skip(1)[j - 1]);
            }
        }
    }
}

/// Any index with a break there and nowhere before it is what `break_at` gives.
proof fn lemma_break_at_is(s: Seq<char>, i: int)
    requires
        0 <= i <= s.len(),
        i < s.len() ==> is_break(s[i]),
        forall|j: int| 0 <= j < i ==> !is_break(s[j]),
    ensures
        break_at(s) == i,
{
    lemma_break_at(s);
    let k = break_at(s);
    if k < i {
        assert(!is_break(s[k]));
    } else if i < k {
        assert(!is_break(s[i]));
    }
}

/// The pieces of `s` that a break ends.
pub open spec fn ended_of(s: Seq<char>) -> Seq<Seq<char>>
    decreases s.len(),
    via ended_of_ends
{
    let i = break_at(s);
    if i < s.len() {
        seq![s.take(i)] + ended_of(s.skip(i + 1))
    } else {
        Seq::empty()
    }
}

#[via_fn]
proof fn ended_of_ends(s: Seq<char>) {
    lemma_break_at(s);
}

/// The part of `s` behind its last break.
pub open spec fn unended_of(s: Seq<char>) -> Seq<char>
    decreases s.len(),
    via unended_of_ends
{
    let i = break_at(s);
    if i < s.len() {
        unended_of(s.skip(i + 1))
    } else {
        s
    }
}

#[via_fn]
proof fn unended_of_ends(s: Seq<char>) {
    lemma_break_at(s);
}

/// The pieces without white space at their ends, leaving out those that then are empty.
pub open spec fn shown_of(pieces: Seq<Seq<char>>) -> Seq<Seq<char>>
    decreases pieces.len(),
{
    if pieces.len() == 0 {
        Seq::empty()
    } else {
        let line = trim_of(pieces.last());
        if line.len() == 0 {
            shown_of(pieces.drop_last())
        } else {
            shown_of(pieces.drop_last()).push(line)
        }
    }
}

/// Text that arrives in pieces.
#[derive(Debug)]
pub struct LineStream {
    /// What has arrived behind the last break.
    pub pending: Vec<char>,
}

impl LineStream {
    /// A stream of which nothing has arrived.
    pub fn new() -> (r: Self)
        ensures
            r.pending@ == Seq::<char>::empty(),
    {
        LineStream { pending: Vec::new() }
    }

    /// Takes a piece of text, and gives the lines that end in it.
    pub fn feed_text(&mut self, text: &str) -> (r: Vec<String>)
        ensures
            strings(r@) == shown_of(ended_of(old(self).pending@ + text@)),
            final(self).pending@ == unended_of(old(self).pending@ + text@),
    {
        let mut more = chars_of(text);
        self.pending.append(&mut more);
        let ghost all = self.pending@;
        let size: usize = self.pending.len();
        let mut out: Vec<String> = Vec::new();
        let mut start: usize = 0;
        let mut i: usize = 0;
        let ghost mut done: Seq<Seq<char>> = Seq::empty();
        proof {
            assert(all.skip(0) =~= all);
            assert(done + ended_of(all) =~= ended_of(all));
            assert(strings(out@) =~= shown_of(done));
        }
        while i < size
            invariant
                all == self.pending@,
                size == all.len(),
                start <= i <= size,
                forall|j: int| start <= j < i ==> !is_break(#[trigger] all[j]),
                done + ended_of(all.skip(start as int)) == ended_of(all),
                unended_of(all.skip(start as int)) == unended_of(all),
                strings(out@) == shown_of(done),
            decreases size - i,
        {
            let c = self.pending[i];
            if c == '\n' || c == '\r' {
                let ghost rest = all.skip(start as int);
                let ghost n = (i - start) as int;
                proof {
                    assert forall|j: int| 0 <= j < n implies !is_break(rest[j]) by {
                        assert(rest[j] == all[start + j]);
                    }
                    assert(rest[n] == c);
                    lemma_break_at_is(rest, n);
                    assert(rest.skip(n + 1) =~= all.skip(i + 1));
                }
                let piece = slice_subrange(self.pending.as_slice(), start, i);
                assert(piece@ =~= rest.take(n));
                let line = trim(piece);
                let ghost before = out@;
                if line.len() > 0 {
                    out.push(string_of(line));
                    assert(strings(out@) =~= strings(before).push(line@));
                }
                proof {
                    let next = done.push(piece@);
                    assert(next.drop_last() =~= done);
                    assert(next + ended_of(all.skip(i + 1)) =~= done + (seq![piece@] + ended_of(
                        all.skip(i + 1),
                    )));
                    done = next;
                }
                start = i + 1;
            }
            i += 1;
        }
        proof {
            let rest = all.skip(start as int);
            assert forall|j: int| 0 <= j < rest.len() implies !is_break(rest[j]) by {
                assert(rest[j] == all[start + j]);
            }
            lemma_break_at_is(rest, rest.len() as int);
            assert(done + ended_of(rest) =~= done);
        }
        let kept = self.pending.split_off(start);
        assert(kept@ =~= all.skip(start as int));
        self.pending = kept;
        out
    }

    /// Takes a piece of output, and gives the lines that end in it.
    pub fn feed(&mut self, chunk: &[u8]) -> (r: Vec<String>)
        ensures
            strings(r@) == shown_of(ended_of(old(self).pending@ + decoded_of(chunk@))),
            final(self).pending@ == unended_of(old(self).pending@ + decoded_of(chunk@)),
    {
        let text = decode(chunk);
        self.feed_text(text.as_str())
    }

    /// The last line, where there is one that no break ends.
    pub fn finish(&self) -> (r: Option<String>)
        ensures
            match r {
                Some(line) => line@ == trim_of(self.pending@) && line@.len() > 0,
                None => trim_of(self.pending@).len() == 0,
            },
    {
        let line = trim(self.pending.as_slice());
        if line.len() > 0 {
            Some(string_of(line))
        } else {
            None
        }
    }
}

/// More text behind `a` ends the pieces of `a` first, and then those of the rest and the text.
proof fn lemma_pieces(a: Seq<char>, b: Seq<char>)
    ensures
        ended_of(a + b) == ended_of(a) + ended_of(unended_of(a) + b),
        unended_of(a + b) == unended_of(unended_of(a) + b),
    decreases a.len(),
{
    lemma_break_at(a);
    let i = break_at(a);
    if i < a.len() {
        let rest = a.skip(i + 1);
        lemma_pieces(rest, b);
        assert forall|j: int| 0 <= j < i implies !is_break((a + b)[j]) by {
            assert((a + b)[j] == a[j]);
        }
        lemma_break_at_is(a + b, i);
        assert((a + b).skip(i + 1) =~= rest + b);
        assert((a + b).take(i) =~= a.take(i));
        assert(ended_of(a + b) =~= ended_of(a) + ended_of(unended_of(a) + b));
    } else {
        assert(ended_of(a) + ended_of(a + b) =~= ended_of(a + b));
    }
}

/// What is shown of pieces is what is shown of the first of them, and then of the others.
proof fn lemma_shown(a: Seq<Seq<char>>, b: Seq<Seq<char>>)
    ensures
        shown_of(a + b) == shown_of(a) + shown_of(b),
    decreases b.len(),
{
    if b.len() == 0 {
        assert(a + b =~= a);
        assert(shown_of(a) + shown_of(b) =~= shown_of(a));
    } else {
        lemma_shown(a, b.drop_last());
        assert((a + b).drop_last() =~= a + b.drop_last());
        assert(shown_of(a + b) =~= shown_of(a) + shown_of(b));
    }
}

/// It makes no difference in which pieces text arrives: feeding `a` and then `b` gives the lines
/// of feeding both at once, and leaves the same text waiting.
pub proof fn law_pieces_do_not_matter(pending: Seq<char>, a: Seq<char>, b: Seq<char>)
    ensures
        shown_of(ended_of(pending + (a + b))) == shown_of(ended_of(pending + a)) + shown_of(
            ended_of(unended_of(pending + a) + b),
        ),
        unended_of(pending + (a + b)) == unended_of(unended_of(pending + a) + b),
{
    assert(pending + (a + b) =~= (pending + a) + b);
    lemma_pieces(pending + a, b);
    lemma_shown(ended_of(pending + a), ended_of(unended_of(pending + a) + b));
}

/// Text up to its first line feed or carriage return is a line that is shown without the white
/// space at its ends, unless it is blank; then come the lines of what follows. What no break ends
/// is not shown yet, and waits.
pub proof fn law_stream_line(a: Seq<char>, c: char, b: Seq<char>)
    requires
        lacks(a, '\n'),
        lacks(a, '\r'),
        c == '\n' || c == '\r',
    ensures
        shown_of(ended_of(a)).len() == 0,
        unended_of(a) == a,
        shown_of(ended_of(a + seq![c] + b)) == (if trim_of(a).len() == 0 {
            Seq::empty()
        } else {
            seq![trim_of(a)]
        }) + shown_of(ended_of(b)),
        unended_of(a + seq![c] + b) == unended_of(b),
{
    let n = a.len() as int;
    let s = a + seq![c] + b;
    lemma_break_at_is(a, n);
    assert forall|j: int| 0 <= j < n implies !is_break(s[j]) by {
        assert(s[j] == a[j]);
    }
    assert(s[n] == c);
    lemma_break_at_is(s, n);
    assert(s.take(n) =~= a);
    assert(s.skip(n + 1) =~= b);
    let one = seq![a];
    lemma_shown(one, ended_of(b));
    assert(one.drop_last() =~= Seq::<Seq<char>>::empty());
    reveal_with_fuel(shown_of, 2);
    assert(shown_of(one) =~= if trim_of(a).len() == 0 {
        Seq::<Seq<char>>::empty()
    } else {
        seq![trim_of(a)]
    });
}

} // verus!
