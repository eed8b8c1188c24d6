//! Match ranges inside a path segment: ordering and merging them, so that
//! highlighting covers every matched character once.
use vstd::prelude::*;
use crate::order::{lex_lt, is_stable_order, keys_view, stable_order};
use crate::results::permuted;

verus! {

/// The sort key of a range: its start, then its end.
pub open spec fn range_key(r: (usize, usize)) -> Seq<u64> {
    seq![r.0 as u64, r.1 as u64]
}

/// The sort keys of ranges.
pub open spec fn range_keys(rs: Seq<(usize, usize)>) -> Seq<Seq<u64>> {
    rs.map_values(|r: (usize, usize)| range_key(r))
}

/// Merges ranges already ordered by start: each range that starts no later
/// than the end of the last merged one extends it, any other starts a new
/// one.
pub open spec fn merge_sorted(rs: Seq<(usize, usize)>) -> Seq<(usize, usize)>
    decreases rs.len(),
{
    if rs.len() == 0 {
        Seq::empty()
    } else {
        let m = merge_sorted(rs.drop_last());
        let r = rs.last();
        if m.len() > 0 && r.0 <= m.last().1 {
            m.drop_last().push((m.last().0, if m.last().1 >= r.1 { m.last().1 } else { r.1 }))
        } else {
            m.push(r)
        }
    }
}

/// `out` is the merge of `rs` after ordering it by start and end.
pub open spec fn merged_ranges_of(rs: Seq<(usize, usize)>, out: Seq<(usize, usize)>) -> bool {
    exists|p: Seq<usize>| is_stable_order(range_keys(rs), false, p) && out == merge_sorted(permuted(rs, p))
}

/// Position `x` lies in one of the ranges (each taken as start inclusive,
/// end exclusive).
pub open spec fn covered(rs: Seq<(usize, usize)>, x: int) -> bool {
    exists|i: int| 0 <= i < rs.len() && rs[i].0 <= x && x < rs[i].1
}

/// Every range starts no later than it ends.
pub open spec fn well_formed_ranges(rs: Seq<(usize, usize)>) -> bool {
    forall|i: int| 0 <= i < rs.len() ==> #[trigger] rs[i].0 <= rs[i].1
}

/// Each range ends before the next one starts.
pub open spec fn separated(rs: Seq<(usize, usize)>) -> bool {
    forall|i: int| 0 <= i < rs.len() - 1 ==> #[trigger] rs[i].1 < rs[i + 1].0
}

/// Ordered by start.
pub open spec fn starts_ascending(rs: Seq<(usize, usize)>) -> bool {
    forall|i: int, j: int| 0 <= i < j < rs.len() ==> rs[i].0 <= rs[j].0
}

/// Orders ranges by start and end, then merges those that overlap or
/// touch.
pub fn merge_match_ranges(ranges: Vec<(usize, usize)>) -> (r: Vec<(usize, usize)>)
    ensures
        merged_ranges_of(ranges@, r@),
{
    let mut keys: Vec<Vec<u64>> = Vec::new();
    for i in 0..ranges.len()
        invariant
            keys.len() == i,
            forall|j: int| 0 <= j < i ==> #[trigger] keys@[j]@ == range_key(ranges@[j]),
    {
        let (s, e) = ranges[i];
        keys.push(vec![s as u64, e as u64]);
        assert(keys@[i as int]@ =~= range_key(ranges@[i as int]));
    }
    assert(keys_view(keys@) =~= range_keys(ranges@));
    let p = stable_order(&keys, false);
    let ghost sorted = permuted(ranges@, p@);
    let mut merged: Vec<(usize, usize)> = Vec::new();
    if p.len() == 0 {
        assert(merge_sorted(sorted) =~= merged@);
        return merged;
    }
    let mut current = ranges[p[0]];
    assert(sorted[0] == current);
    assert(sorted.take(1).drop_last() =~= Seq::<(usize, usize)>::empty());
    assert(sorted.take(1).last() == current);
    assert(merge_sorted(Seq::<(usize, usize)>::empty()) =~= Seq::<(usize, usize)>::empty());
    assert(merge_sorted(sorted.take(1)) =~= seq![current]);
    for k in 1..p.len()
        invariant
            p.len() == ranges.len(),
            sorted == permuted(ranges@, p@),
            forall|j: int| 0 <= j < p.len() ==> #[trigger] p@[j] < ranges.len(),
            merged@.push(current) == merge_sorted(sorted.take(k as int)),
    {
        let (start, end) = ranges[p[k]];
        let ghost before = sorted.take(k as int);
        assert(sorted.take(k + 1).drop_last() =~= before);
        assert(sorted.take(k + 1).last() == (start, end));
        if start <= current.1 {
            let hi = if current.1 >= end { current.1 } else { end };
            current = (current.0, hi);
            assert(merged@.push(current) =~= merge_sorted(before).drop_last().push(current));
        } else {
            merged.push(current);
            current = (start, end);
        }
    }
    merged.push(current);
    assert(sorted.take(p.len() as int) =~= sorted);
    merged
}

proof fn lemma_key_start(a: (usize, usize), b: (usize, usize))
    requires
        lex_lt(range_key(a), range_key(b)) || range_key(a) == range_key(b),
    ensures
        a.0 <= b.0,
{
    if range_key(a) == range_key(b) {
        assert(range_key(a)[0] == range_key(b)[0]);
    } else {
        assert(range_key(a)[0] == a.0 as u64);
        assert(range_key(b)[0] == b.0 as u64);
    }
}

/// Ranges in stable key order are ordered by start.
proof fn lemma_permuted_ascending(rs: Seq<(usize, usize)>, p: Seq<usize>)
    requires
        is_stable_order(range_keys(rs), false, p),
    ensures
        starts_ascending(permuted(rs, p)),
{
    let s = permuted(rs, p);
    assert forall|i: int, j: int| 0 <= i < j < s.len() implies s[i].0 <= s[j].0 by {
        let a = p[i] as int;
        let b = p[j] as int;
        assert(crate::order::key_before(range_keys(rs), false, a, b));
        assert(range_keys(rs)[a] == range_key(rs[a]));
        assert(range_keys(rs)[b] == range_key(rs[b]));
        lemma_key_start(rs[a], rs[b]);
    }
}

/// Reordering by a permutation keeps what is covered and well-formedness.
proof fn lemma_permuted_cover(rs: Seq<(usize, usize)>, p: Seq<usize>, x: int)
    requires
        is_stable_order(range_keys(rs), false, p),
        rs.len() <= usize::MAX,
    ensures
        covered(permuted(rs, p), x) <==> covered(rs, x),
        well_formed_ranges(rs) ==> well_formed_ranges(permuted(rs, p)),
{
    let s = permuted(rs, p);
    if covered(rs, x) {
        let i = choose|i: int| 0 <= i < rs.len() && rs[i].0 <= x && x < rs[i].1;
        assert(range_keys(rs).len() == rs.len());
        let iu = i as usize;
        assert(p.contains(iu));
        let k = choose|k: int| 0 <= k < p.len() && p[k] == iu;
        assert(s[k] == rs[i]);
    }
    if covered(s, x) {
        let k = choose|k: int| 0 <= k < s.len() && s[k].0 <= x && x < s[k].1;
        assert(s[k] == rs[p[k] as int]);
    }
    if well_formed_ranges(rs) {
        assert forall|k: int| 0 <= k < s.len() implies #[trigger] s[k].0 <= s[k].1 by {
            assert(s[k] == rs[p[k] as int]);
        }
    }
}

/// Facts of merging ranges ordered by start: what is covered stays the
/// same, the merged ranges are separated, start no later than they end
/// (when the inputs do), and begin no earlier than the first input.
proof fn lemma_merge_sorted(rs: Seq<(usize, usize)>, x: int)
    requires
        starts_ascending(rs),
    ensures
        covered(merge_sorted(rs), x) <==> covered(rs, x),
        separated(merge_sorted(rs)),
        well_formed_ranges(rs) ==> well_formed_ranges(merge_sorted(rs)),
        merge_sorted(rs).len() <= rs.len(),
        rs.len() > 0 ==> merge_sorted(rs).len() > 0 && merge_sorted(rs)[0].0 == rs[0].0,
        forall|i: int| 0 <= i < merge_sorted(rs).len() ==> #[trigger] merge_sorted(rs)[i].0 <= rs.last().0,
    decreases rs.len(),
{
    if rs.len() > 0 {
        let init = rs.drop_last();
        assert(starts_ascending(init));
        lemma_merge_sorted(init, x);
        let m = merge_sorted(init);
        let r = rs.last();
        if init.len() > 0 {
            assert(init.last() == rs[rs.len() - 2]);
        }
        if m.len() > 0 && r.0 <= m.last().1 {
            let hi = if m.last().1 >= r.1 { m.last().1 } else { r.1 };
            let out = m.drop_last().push((m.last().0, hi));
            assert(out == merge_sorted(rs));
            // coverage
            if covered(out, x) {
                let i = choose|i: int| 0 <= i < out.len() && out[i].0 <= x && x < out[i].1;
                if i < out.len() - 1 {
                    assert(out[i] == m[i]);
                    assert(covered(m, x));
                    assert(covered(init, x));
                    let j = choose|j: int| 0 <= j < init.len() && init[j].0 <= x && x < init[j].1;
                    assert(rs[j] == init[j]);
                } else if x < m.last().1 {
                    assert(m[m.len() - 1].0 <= x && x < m[m.len() - 1].1);
                    assert(covered(m, x));
                    let j = choose|j: int| 0 <= j < init.len() && init[j].0 <= x && x < init[j].1;
                    assert(rs[j] == init[j]);
                } else {
                    assert(m.last().0 <= init.last().0);
                    assert(init.last().0 <= r.0);
                    assert(r.0 <= m.last().1);
                    assert(rs[rs.len() - 1].0 <= x && x < rs[rs.len() - 1].1);
                }
            }
            if covered(rs, x) {
                let j = choose|j: int| 0 <= j < rs.len() && rs[j].0 <= x && x < rs[j].1;
                if j < rs.len() - 1 {
                    assert(init[j] == rs[j]);
                    assert(covered(init, x));
                    assert(covered(m, x));
                    let i = choose|i: int| 0 <= i < m.len() && m[i].0 <= x && x < m[i].1;
                    if i < m.len() - 1 {
                        assert(out[i] == m[i]);
                    } else {
                        assert(out[out.len() - 1].0 <= x && x < out[out.len() - 1].1);
                    }
                } else {
                    assert(m.last().0 <= init.last().0);
                    assert(out[out.len() - 1].0 <= x && x < out[out.len() - 1].1);
                }
            }
            // separation
            assert forall|i: int| 0 <= i < out.len() - 1 implies #[trigger] out[i].1 < out[i + 1].0 by {
                assert(out[i] == m[i]);
                if i + 1 < out.len() - 1 {
                    assert(out[i + 1] == m[i + 1]);
                } else {
                    assert(out[i + 1].0 == m[i + 1].0);
                }
            }
            if well_formed_ranges(rs) {
                assert(well_formed_ranges(init));
                assert forall|i: int| 0 <= i < out.len() implies #[trigger] out[i].0 <= out[i].1 by {
                    if i < out.len() - 1 {
                        assert(out[i] == m[i]);
                    } else {
                        assert(m[m.len() - 1].0 <= m[m.len() - 1].1);
                    }
                }
            }
            assert forall|i: int| 0 <= i < out.len() implies #[trigger] out[i].0 <= rs.last().0 by {
                if i < out.len() - 1 {
                    assert(out[i] == m[i]);
                } else {
                    assert(m[m.len() - 1].0 <= init.last().0);
                }
            }
            if init.len() > 0 {
                if m.len() == 1 {
                    assert(out[0].0 == m[0].0);
                } else {
                    assert(out[0] == m[0]);
                }
            }
        } else {
            let out = m.push(r);
            assert(out == merge_sorted(rs));
            if covered(out, x) {
                let i = choose|i: int| 0 <= i < out.len() && out[i].0 <= x && x < out[i].1;
                if i < m.len() {
                    assert(out[i] == m[i]);
                    assert(covered(m, x));
                    let j = choose|j: int| 0 <= j < init.len() && init[j].0 <= x && x < init[j].1;
                    assert(rs[j] == init[j]);
                } else {
                    assert(rs[rs.len() - 1].0 <= x && x < rs[rs.len() - 1].1);
                }
            }
            if covered(rs, x) {
                let j = choose|j: int| 0 <= j < rs.len() && rs[j].0 <= x && x < rs[j].1;
                if j < rs.len() - 1 {
                    assert(init[j] == rs[j]);
                    assert(covered(init, x));
                    let i = choose|i: int| 0 <= i < m.len() && m[i].0 <= x && x < m[i].1;
                    assert(out[i] == m[i]);
                } else {
                    assert(out[out.len() - 1] == r);
                }
            }
            assert forall|i: int| 0 <= i < out.len() - 1 implies #[trigger] out[i].1 < out[i + 1].0 by {
                assert(out[i] == m[i]);
                if i + 1 < m.len() {
                    assert(out[i + 1] == m[i + 1]);
                }
            }
            if well_formed_ranges(rs) {
                assert(well_formed_ranges(init));
                assert forall|i: int| 0 <= i < out.len() implies #[trigger] out[i].0 <= out[i].1 by {
                    if i < m.len() {
                        assert(out[i] == m[i]);
                    } else {
                        assert(rs[rs.len() - 1].0 <= rs[rs.len() - 1].1);
                    }
                }
            }
            assert forall|i: int| 0 <= i < out.len() implies #[trigger] out[i].0 <= rs.last().0 by {
                if i < m.len() {
                    assert(out[i] == m[i]);
                    assert(m[i].0 <= init.last().0);
                }
            }
            if init.len() > 0 {
                assert(out[0] == m[0]);
            }
        }
    }
}

/// Merged ranges cover exactly the positions the input ranges cover.
pub proof fn law_merged_ranges_cover(rs: Seq<(usize, usize)>, out: Seq<(usize, usize)>, x: int)
    requires
        merged_ranges_of(rs, out),
        rs.len() <= usize::MAX,
    ensures
        covered(out, x) <==> covered(rs, x),
{
    let p = choose|p: Seq<usize>| is_stable_order(range_keys(rs), false, p) && out == merge_sorted(permuted(rs, p));
    lemma_permuted_ascending(rs, p);
    lemma_permuted_cover(rs, p, x);
    lemma_merge_sorted(permuted(rs, p), x);
}

/// Merged ranges are in order, each ending before the next starts (so no
/// position is highlighted twice), and start no later than they end when
/// the input ranges do; there are no more of them than input ranges.
pub proof fn law_merged_ranges_separated(rs: Seq<(usize, usize)>, out: Seq<(usize, usize)>)
    requires
        merged_ranges_of(rs, out),
        rs.len() <= usize::MAX,
    ensures
        separated(out),
        well_formed_ranges(rs) ==> well_formed_ranges(out),
        out.len() <= rs.len(),
        rs.len() > 0 ==> out.len() > 0,
{
    let p = choose|p: Seq<usize>| is_stable_order(range_keys(rs), false, p) && out == merge_sorted(permuted(rs, p));
    lemma_permuted_ascending(rs, p);
    lemma_permuted_cover(rs, p, 0);
    lemma_merge_sorted(permuted(rs, p), 0);
}

/// Every range ends at or before `n`.
pub open spec fn ranges_within(rs: Seq<(usize, usize)>, n: int) -> bool {
    forall|i: int| 0 <= i < rs.len() ==> #[trigger] rs[i].1 <= n
}

proof fn lemma_merge_within(rs: Seq<(usize, usize)>, n: int)
    requires
        ranges_within(rs, n),
    ensures
        ranges_within(merge_sorted(rs), n),
    decreases rs.len(),
{
    if rs.len() > 0 {
        let init = rs.drop_last();
        assert(ranges_within(init, n));
        lemma_merge_within(init, n);
        let m = merge_sorted(init);
        assert(rs[rs.len() - 1].1 <= n);
        if m.len() > 0 && rs.last().0 <= m.last().1 {
            let out = merge_sorted(rs);
            assert forall|i: int| 0 <= i < out.len() implies #[trigger] out[i].1 <= n by {
                if i < out.len() - 1 {
                    assert(out[i] == m[i]);
                } else {
                    assert(m[m.len() - 1].1 <= n);
                }
            }
        } else {
            let out = merge_sorted(rs);
            assert forall|i: int| 0 <= i < out.len() implies #[trigger] out[i].1 <= n by {
                if i < m.len() {
                    assert(out[i] == m[i]);
                }
            }
        }
    }
}

/// Merged ranges stay within any bound that all input ranges keep to.
pub proof fn law_merged_ranges_within(rs: Seq<(usize, usize)>, out: Seq<(usize, usize)>, n: int)
    requires
        merged_ranges_of(rs, out),
        ranges_within(rs, n),
    ensures
        ranges_within(out, n),
{
    let p = choose|p: Seq<usize>| is_stable_order(range_keys(rs), false, p) && out == merge_sorted(permuted(rs, p));
    let s = permuted(rs, p);
    assert forall|k: int| 0 <= k < s.len() implies #[trigger] s[k].1 <= n by {
        assert(s[k] == rs[p[k] as int]);
    }
    lemma_merge_within(s, n);
}

} // verus!
