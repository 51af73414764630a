use vstd::prelude::*;

use crate::model::FormatError;

verus! {

/// One planned edit: substitute `text` for the half-open byte range
/// `start .. end` of the original file text.
pub struct Replacement {
    pub start: usize,
    pub end: usize,
    pub text: Vec<u8>,
}

impl Replacement {
    pub fn new(start: usize, end: usize, text: Vec<u8>) -> (r: Replacement)
        ensures
            r.start == start,
            r.end == end,
            r.text == text,
    {
        Replacement { start, end, text }
    }
}

/// Insert `x` into `s` (assumed sorted by `start`) after every element whose
/// `start` does not exceed `x.start`, keeping the sort stable.
pub open spec fn insert_by_start(s: Seq<Replacement>, x: Replacement) -> Seq<Replacement>
    decreases s.len(),
{
    if s.len() == 0 {
        seq![x]
    } else if s.last().start <= x.start {
        s.push(x)
    } else {
        insert_by_start(s.drop_last(), x).push(s.last())
    }
}

/// Stable sort of replacements by ascending start offset.
pub open spec fn sort_by_start(s: Seq<Replacement>) -> Seq<Replacement>
    decreases s.len(),
{
    if s.len() == 0 {
        s
    } else {
        insert_by_start(sort_by_start(s.drop_last()), s.last())
    }
}

pub open spec fn sorted_by_start(s: Seq<Replacement>) -> bool {
    forall|i: int, j: int| 0 <= i <= j < s.len() ==> #[trigger] s[i].start <= #[trigger] s[j].start
}

/// The spans of `reps`, in order, form an ascending chain of disjoint ranges
/// that starts no earlier than `cursor` and stays within a text of length `n`.
pub open spec fn spans_chain(reps: Seq<Replacement>, cursor: int, n: int) -> bool
    decreases reps.len(),
{
    if reps.len() == 0 {
        true
    } else {
        &&& cursor <= reps[0].start
        &&& reps[0].start <= reps[0].end <= n
        &&& spans_chain(reps.drop_first(), reps[0].end as int, n)
    }
}

/// The spliced text: the verbatim slice of `content` between `cursor` and the
/// next replacement's start, then that replacement's text, and so on; after
/// the last replacement, the verbatim tail of `content`.
pub open spec fn splice_from(content: Seq<u8>, reps: Seq<Replacement>, cursor: int) -> Seq<u8>
    decreases reps.len(),
{
    if reps.len() == 0 {
        content.subrange(cursor, content.len() as int)
    } else {
        content.subrange(cursor, reps[0].start as int) + reps[0].text@ + splice_from(
            content,
            reps.drop_first(),
            reps[0].end as int,
        )
    }
}

proof fn lemma_insert_by_start(s: Seq<Replacement>, x: Replacement)
    requires
        sorted_by_start(s),
    ensures
        sorted_by_start(insert_by_start(s, x)),
        insert_by_start(s, x).len() == s.len() + 1,
        forall|k: int|
            0 <= k < insert_by_start(s, x).len() ==> (#[trigger] insert_by_start(s, x)[k] == x
                || s.contains(insert_by_start(s, x)[k])),
    decreases s.len(),
{
    if s.len() == 0 {
    } else if s.last().start <= x.start {
        assert forall|k: int| 0 <= k < s.push(x).len() implies (#[trigger] s.push(x)[k] == x
            || s.contains(s.push(x)[k])) by {
            if k < s.len() {
                assert(s.push(x)[k] == s[k]);
            }
        }
    } else {
        let s0 = s.drop_last();
        assert(sorted_by_start(s0)) by {
            assert(forall|i: int, j: int|
                0 <= i <= j < s0.len() ==> s0[i] == s[i] && s0[j] == s[j]);
        }
        lemma_insert_by_start(s0, x);
        let t = insert_by_start(s0, x);
        let r = t.push(s.last());
        assert(sorted_by_start(r)) by {
            assert forall|i: int, j: int| 0 <= i <= j < r.len() implies #[trigger] r[i].start
                <= #[trigger] r[j].start by {
                if j < t.len() {
                } else {
                    // r[j] is s.last(); every element of t is x (whose start is
                    // below s.last().start) or an element of the sorted s.
                    if i < t.len() {
                        assert(t[i] == x || s0.contains(t[i]));
                        if s0.contains(t[i]) {
                            let w = choose|w: int| 0 <= w < s0.len() && s0[w] == t[i];
                            assert(s[w].start <= s[s.len() - 1].start);
                        }
                    }
                }
            }
        }
        assert forall|k: int| 0 <= k < r.len() implies (#[trigger] r[k] == x || s.contains(
            r[k],
        )) by {
            if k < t.len() {
                assert(t[k] == x || s0.contains(t[k]));
                if s0.contains(t[k]) {
                    let w = choose|w: int| 0 <= w < s0.len() && s0[w] == t[k];
                    assert(s[w] == t[k]);
                }
            } else {
                assert(r[k] == s[s.len() - 1]);
            }
        }
    }
}

proof fn lemma_sort_by_start(s: Seq<Replacement>)
    ensures
        sorted_by_start(sort_by_start(s)),
        sort_by_start(s).len() == s.len(),
        forall|k: int|
            0 <= k < sort_by_start(s).len() ==> s.contains(#[trigger] sort_by_start(s)[k]),
    decreases s.len(),
{
    if s.len() == 0 {
    } else {
        let s0 = s.drop_last();
        lemma_sort_by_start(s0);
        lemma_insert_by_start(sort_by_start(s0), s.last());
        assert forall|k: int| 0 <= k < sort_by_start(s).len() implies s.contains(
            #[trigger] sort_by_start(s)[k],
        ) by {
            let e = sort_by_start(s)[k];
            assert(e == s.last() || sort_by_start(s0).contains(e));
            if e == s.last() {
                assert(s[s.len() - 1] == e);
            } else {
                let w = choose|w: int| 0 <= w < sort_by_start(s0).len() && sort_by_start(s0)[w]
                    == e;
                assert(s0.contains(e));
                let v = choose|v: int| 0 <= v < s0.len() && s0[v] == e;
                assert(s[v] == e);
            }
        }
    }
}

fn insert_rep(v: Vec<Replacement>, x: Replacement) -> (r: Vec<Replacement>)
    ensures
        r@ == insert_by_start(v@, x),
    decreases v.len(),
{
    let mut v = v;
    if v.len() == 0 {
        v.push(x);
        v
    } else if v[v.len() - 1].start <= x.start {
        v.push(x);
        v
    } else {
        let last = v.pop().unwrap();
        let mut r = insert_rep(v, x);
        r.push(last);
        r
    }
}

fn sort_reps(v: Vec<Replacement>) -> (r: Vec<Replacement>)
    ensures
        r@ == sort_by_start(v@),
    decreases v.len(),
{
    let mut v = v;
    if v.len() == 0 {
        v
    } else {
        let last = v.pop().unwrap();
        let s = sort_reps(v);
        insert_rep(s, last)
    }
}

/// Append `content[from .. to]` to `out`.
fn append_range(out: &mut Vec<u8>, content: &Vec<u8>, from: usize, to: usize)
    requires
        from <= to <= content@.len(),
    ensures
        final(out)@ == old(out)@ + content@.subrange(from as int, to as int),
{
    let s = vstd::slice::slice_subrange(content.as_slice(), from, to);
    out.extend_from_slice(s);
}

/// Merge the replacement texts into `content`: regions outside every span are
/// copied verbatim, each span is substituted by its replacement text, in
/// ascending span order. Fails when two spans overlap.
pub fn replace(content: &Vec<u8>, replacements: Vec<Replacement>) -> (r: Result<
    Vec<u8>,
    FormatError,
>)
    requires
        forall|i: int|
            0 <= i < replacements@.len() ==> (#[trigger] replacements@[i]).start
                <= replacements@[i].end <= content@.len(),
    ensures
        ({
            let sorted = sort_by_start(replacements@);
            match r {
                Ok(out) => spans_chain(sorted, 0, content@.len() as int) && out@ == splice_from(
                    content@,
                    sorted,
                    0,
                ),
                Err(e) => e is OverlappingReplacement && !spans_chain(
                    sorted,
                    0,
                    content@.len() as int,
                ),
            }
        }),
{
    let n = content.len();
    proof {
        lemma_sort_by_start(replacements@);
    }
    let sorted = sort_reps(replacements);
    let ghost all = sorted@;
    proof {
        assert(all.skip(0) =~= all);
    }
    let mut out: Vec<u8> = Vec::new();
    let mut cursor: usize = 0;
    let mut i: usize = 0;
    while i < sorted.len()
        invariant
            all == sorted@,
            sorted@ == sort_by_start(replacements@),
            sorted_by_start(all),
            forall|k: int| 0 <= k < all.len() ==> (#[trigger] all[k]).start <= all[k].end <= n,
            n == content@.len(),
            i <= all.len(),
            cursor <= n,
            spans_chain(all, 0, n as int) == spans_chain(all.skip(i as int), cursor as int, n as int),
            spans_chain(all.skip(i as int), cursor as int, n as int) ==> splice_from(
                content@,
                all,
                0,
            ) == out@ + splice_from(content@, all.skip(i as int), cursor as int),
        decreases all.len() - i,
    {
        let start = sorted[i].start;
        let end = sorted[i].end;
        proof {
            assert(all.skip(i as int)[0] == all[i as int]);
            assert(all.skip(i as int).drop_first() =~= all.skip(i as int + 1));
        }
        if start < cursor {
            proof {
                assert(!spans_chain(all.skip(i as int), cursor as int, n as int));
            }
            return Err(FormatError::OverlappingReplacement);
        }
        append_range(&mut out, content, cursor, start);
        out.extend_from_slice(sorted[i].text.as_slice());
        cursor = end;
        i = i + 1;
    }
    proof {
        assert(all.skip(i as int) =~= Seq::<Replacement>::empty());
    }
    append_range(&mut out, content, cursor, n);
    Ok(out)
}

} // verus!
