//! Page ranges and the rule by which a list of them is merged.

use vstd::prelude::*;

verus! {

/// An inclusive interval of page numbers, `(start, end)`.
pub type PageRange = (i32, i32);

/// A range survives filtering only when its end lies strictly after its start.
pub open spec fn keeps(r: PageRange) -> bool {
    r.1 > r.0
}

/// The ranges of `s` that survive filtering, in their order.
pub open spec fn kept(s: Seq<PageRange>) -> Seq<PageRange>
    decreases s.len(),
{
    if s.len() == 0 {
        s
    } else if keeps(s.last()) {
        kept(s.drop_last()).push(s.last())
    } else {
        kept(s.drop_last())
    }
}

/// `r` placed into `s` behind every range whose start is not greater.
pub open spec fn insert_by_start(s: Seq<PageRange>, r: PageRange) -> Seq<PageRange>
    decreases s.len(),
{
    if s.len() == 0 {
        seq![r]
    } else if s.last().0 <= r.0 {
        s.push(r)
    } else {
        insert_by_start(s.drop_last(), r).push(s.last())
    }
}

/// `s` in ascending order of start; ranges with equal starts keep their order.
pub open spec fn sorted_by_start(s: Seq<PageRange>) -> Seq<PageRange>
    decreases s.len(),
{
    if s.len() == 0 {
        s
    } else {
        insert_by_start(sorted_by_start(s.drop_last()), s.last())
    }
}

/// Left-to-right fusion: a range whose start does not lie after the end of
/// the range before it is fused with it into `(earlier start, later end)`.
pub open spec fn coalesced(s: Seq<PageRange>) -> Seq<PageRange>
    decreases s.len(),
{
    if s.len() == 0 {
        s
    } else {
        let head = coalesced(s.drop_last());
        let r = s.last();
        if head.len() > 0 && head.last().1 >= r.0 {
            head.drop_last().push((head.last().0, r.1))
        } else {
            head.push(r)
        }
    }
}

/// Filter, sort by start, fuse.
pub open spec fn merged(s: Seq<PageRange>) -> Seq<PageRange> {
    coalesced(sorted_by_start(kept(s)))
}

/// Starts never decrease.
pub open spec fn ordered(s: Seq<PageRange>) -> bool {
    forall|i: int, j: int| 0 <= i < j < s.len() ==> s[i].0 <= s[j].0
}

/// Every range ends after it starts.
pub open spec fn proper(s: Seq<PageRange>) -> bool {
    forall|i: int| 0 <= i < s.len() ==> keeps(#[trigger] s[i])
}

/// Ascending, and each range ends strictly before the next one starts.
pub open spec fn canonical(s: Seq<PageRange>) -> bool {
    &&& proper(s)
    &&& forall|i: int| 0 <= i < s.len() - 1 ==> (#[trigger] s[i]).1 < s[i + 1].0
}

fn insert_sorted(v: &mut Vec<PageRange>, r: PageRange)
    ensures
        final(v)@ == insert_by_start(old(v)@, r),
{
    let ghost before = v@;
    let mut j: usize = v.len();
    proof {
        assert(before.take(j as int) =~= before);
        assert(insert_by_start(before, r) + before.skip(j as int) =~= insert_by_start(before, r));
    }
    while j > 0 && v[j - 1].0 > r.0
        invariant
            j <= v.len(),
            v@ == before,
            insert_by_start(before, r) == insert_by_start(before.take(j as int), r) + before.skip(
                j as int,
            ),
        decreases j,
    {
        proof {
            let t = before.take(j as int);
            assert(t.drop_last() =~= before.take(j - 1));
            assert(insert_by_start(t, r) == insert_by_start(before.take(j - 1), r).push(t.last()));
            assert(insert_by_start(before.take(j - 1), r).push(t.last()) + before.skip(j as int)
                =~= insert_by_start(before.take(j - 1), r) + before.skip(j - 1));
        }
        j -= 1;
    }
    proof {
        let t = before.take(j as int);
        assert(insert_by_start(t, r) == t.push(r));
        assert(t.push(r) + before.skip(j as int) =~= before.insert(j as int, r));
    }
    v.insert(j, r);
}

fn coalesce(sorted: &Vec<PageRange>) -> (out: Vec<PageRange>)
    ensures
        out@ == coalesced(sorted@),
{
    let mut out: Vec<PageRange> = Vec::new();
    let mut i: usize = 0;
    while i < sorted.len()
        invariant
            i <= sorted.len(),
            out@ == coalesced(sorted@.take(i as int)),
        decreases sorted.len() - i,
    {
        let r = sorted[i];
        let n: usize = out.len();
        proof {
            assert(sorted@.take(i + 1).drop_last() =~= sorted@.take(i as int));
        }
        if n > 0 && out[n - 1].1 >= r.0 {
            let prev = out[n - 1];
            out.pop();
            out.push((prev.0, r.1));
        } else {
            out.push(r);
        }
        i += 1;
    }
    proof {
        assert(sorted@.take(i as int) =~= sorted@);
    }
    out
}

/// Drops every range whose end is not after its start, sorts the rest by
/// start and fuses neighbours that overlap or touch.
pub fn merge_ranges(ranges: &Vec<PageRange>) -> (out: Vec<PageRange>)
    ensures
        out@ == merged(ranges@),
        canonical(out@),
{
    let mut sorted: Vec<PageRange> = Vec::new();
    let mut i: usize = 0;
    while i < ranges.len()
        invariant
            i <= ranges.len(),
            sorted@ == sorted_by_start(kept(ranges@.take(i as int))),
        decreases ranges.len() - i,
    {
        let r = ranges[i];
        proof {
            assert(ranges@.take(i + 1).drop_last() =~= ranges@.take(i as int));
            assert(kept(ranges@.take(i as int)).push(r).drop_last() =~= kept(
                ranges@.take(i as int),
            ));
        }
        if r.1 > r.0 {
            insert_sorted(&mut sorted, r);
        }
        i += 1;
    }
    proof {
        assert(ranges@.take(i as int) =~= ranges@);
        lemma_merged_canonical(ranges@);
    }
    coalesce(&sorted)
}

proof fn lemma_kept_proper(s: Seq<PageRange>)
    ensures
        proper(kept(s)),
    decreases s.len(),
{
    if s.len() > 0 {
        lemma_kept_proper(s.drop_last());
    }
}

proof fn lemma_insert_ordered(s: Seq<PageRange>, r: PageRange)
    requires
        ordered(s),
        proper(s),
        keeps(r),
    ensures
        ordered(insert_by_start(s, r)),
        proper(insert_by_start(s, r)),
        insert_by_start(s, r).len() == s.len() + 1,
        insert_by_start(s, r).last() == r || (s.len() > 0 && insert_by_start(s, r).last()
            == s.last()),
    decreases s.len(),
{
    if s.len() > 0 && s.last().0 > r.0 {
        let d = s.drop_last();
        lemma_insert_ordered(d, r);
        let t = insert_by_start(d, r);
        assert forall|i: int, j: int| 0 <= i < j < t.push(s.last()).len() implies t.push(
            s.last(),
        )[i].0 <= t.push(s.last())[j].0 by {
            if j == t.len() {
                if i < t.len() - 1 {
                    assert(t[i].0 <= t[t.len() - 1].0);
                }
                if d.len() > 0 {
                    assert(d.last() == s[s.len() - 2]);
                    assert(s[s.len() - 2].0 <= s[s.len() - 1].0);
                }
            } else {
                assert(t[i].0 <= t[j].0);
            }
        }
    }
}

proof fn lemma_sorted_ordered(s: Seq<PageRange>)
    requires
        proper(s),
    ensures
        ordered(sorted_by_start(s)),
        proper(sorted_by_start(s)),
    decreases s.len(),
{
    if s.len() > 0 {
        lemma_sorted_ordered(s.drop_last());
        lemma_insert_ordered(sorted_by_start(s.drop_last()), s.last());
    }
}

proof fn lemma_coalesced_canonical(s: Seq<PageRange>)
    requires
        ordered(s),
        proper(s),
    ensures
        canonical(coalesced(s)),
        s.len() > 0 ==> coalesced(s).len() > 0 && coalesced(s).last().0 <= s.last().0,
    decreases s.len(),
{
    if s.len() > 0 {
        let d = s.drop_last();
        lemma_coalesced_canonical(d);
        let head = coalesced(d);
        let r = s.last();
        if d.len() > 0 {
            assert(d.last() == s[s.len() - 2]);
            assert(s[s.len() - 2].0 <= s[s.len() - 1].0);
        }
        if head.len() > 0 && head.last().1 >= r.0 {
            let out = head.drop_last().push((head.last().0, r.1));
            assert forall|i: int| 0 <= i < out.len() implies keeps(#[trigger] out[i]) by {
                if i < out.len() - 1 {
                    assert(keeps(head[i]));
                }
            }
            assert forall|i: int| 0 <= i < out.len() - 1 implies (#[trigger] out[i]).1 < out[i
                + 1].0 by {
                assert(head[i].1 < head[i + 1].0);
            }
        } else {
            let out = head.push(r);
            assert forall|i: int| 0 <= i < out.len() implies keeps(#[trigger] out[i]) by {
                if i < out.len() - 1 {
                    assert(keeps(head[i]));
                } else {
                    assert(out[i] == s[s.len() - 1]);
                }
            }
            assert forall|i: int| 0 <= i < out.len() - 1 implies (#[trigger] out[i]).1 < out[i
                + 1].0 by {
                if i < head.len() - 1 {
                    assert(head[i].1 < head[i + 1].0);
                }
            }
        }
    }
}

/// Whatever the input, the merged ranges are ascending, each ends after it
/// starts, and no two of them overlap or touch.
pub proof fn lemma_merged_canonical(s: Seq<PageRange>)
    ensures
        canonical(merged(s)),
{
    lemma_kept_proper(s);
    lemma_sorted_ordered(kept(s));
    lemma_coalesced_canonical(sorted_by_start(kept(s)));
}

proof fn lemma_fixed_parts(s: Seq<PageRange>)
    requires
        canonical(s),
    ensures
        kept(s) == s,
        sorted_by_start(s) == s,
        coalesced(s) == s,
    decreases s.len(),
{
    if s.len() > 0 {
        let d = s.drop_last();
        assert forall|i: int| 0 <= i < d.len() implies keeps(#[trigger] d[i]) by {
            assert(keeps(s[i]));
        }
        assert forall|i: int| 0 <= i < d.len() - 1 implies (#[trigger] d[i]).1 < d[i + 1].0 by {
            assert(s[i].1 < s[i + 1].0);
        }
        lemma_fixed_parts(d);
        assert(keeps(s[s.len() - 1]));
        assert(d.push(s.last()) =~= s);
        if d.len() > 0 {
            assert(keeps(d[d.len() - 1]));
            assert(d[d.len() - 1] == s[s.len() - 2]);
            assert(s[s.len() - 2].1 < s[s.len() - 2 + 1].0);
        }
    }
}

/// Merging leaves a canonical sequence as it is.
pub proof fn lemma_canonical_fixed(s: Seq<PageRange>)
    requires
        canonical(s),
    ensures
        merged(s) == s,
{
    lemma_fixed_parts(s);
}

/// Merging twice gives what merging once gives.
pub proof fn lemma_merge_idempotent(s: Seq<PageRange>)
    ensures
        merged(merged(s)) == merged(s),
{
    lemma_merged_canonical(s);
    lemma_canonical_fixed(merged(s));
}

} // verus!
