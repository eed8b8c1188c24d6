//! Stable ordering by keys: every ordering in the library (of terms, of
//! results, of ranges, of folders) is a stable sort by a key compared
//! lexicographically.
use vstd::prelude::*;

verus! {

/// `a` comes before `b` in lexicographic order (a proper prefix first).
pub open spec fn lex_lt(a: Seq<u64>, b: Seq<u64>) -> bool
    decreases a.len(),
{
    if a.len() == 0 {
        b.len() > 0
    } else if b.len() == 0 {
        false
    } else if a[0] < b[0] {
        true
    } else if a[0] > b[0] {
        false
    } else {
        lex_lt(a.drop_first(), b.drop_first())
    }
}

pub proof fn lemma_lex_irreflexive(a: Seq<u64>)
    ensures
        !lex_lt(a, a),
    decreases a.len(),
{
    if a.len() > 0 {
        lemma_lex_irreflexive(a.drop_first());
    }
}

pub proof fn lemma_lex_total(a: Seq<u64>, b: Seq<u64>)
    ensures
        lex_lt(a, b) || lex_lt(b, a) || a == b,
    decreases a.len(),
{
    if a.len() > 0 && b.len() > 0 && a[0] == b[0] {
        lemma_lex_total(a.drop_first(), b.drop_first());
        if a.drop_first() == b.drop_first() {
            assert(a =~= seq![a[0]] + a.drop_first());
            assert(b =~= seq![b[0]] + b.drop_first());
        }
    }
    if a.len() == 0 && b.len() == 0 {
        assert(a =~= b);
    }
}

pub proof fn lemma_lex_asymmetric(a: Seq<u64>, b: Seq<u64>)
    ensures
        !(lex_lt(a, b) && lex_lt(b, a)),
    decreases a.len(),
{
    if a.len() > 0 && b.len() > 0 && a[0] == b[0] {
        lemma_lex_asymmetric(a.drop_first(), b.drop_first());
    }
}

pub proof fn lemma_lex_transitive(a: Seq<u64>, b: Seq<u64>, c: Seq<u64>)
    requires
        lex_lt(a, b),
        lex_lt(b, c),
    ensures
        lex_lt(a, c),
    decreases a.len(),
{
    if a.len() > 0 && b.len() > 0 && c.len() > 0 && a[0] == b[0] && b[0] == c[0] {
        lemma_lex_transitive(a.drop_first(), b.drop_first(), c.drop_first());
    }
}

/// `a` strictly precedes `b` in ascending order, or in descending order
/// when `desc`.
pub open spec fn ord_lt(desc: bool, a: Seq<u64>, b: Seq<u64>) -> bool {
    if desc {
        lex_lt(b, a)
    } else {
        lex_lt(a, b)
    }
}

proof fn lemma_ord_facts(desc: bool, a: Seq<u64>, b: Seq<u64>, c: Seq<u64>)
    ensures
        !ord_lt(desc, a, a),
        ord_lt(desc, a, b) || ord_lt(desc, b, a) || a == b,
        !(ord_lt(desc, a, b) && ord_lt(desc, b, a)),
        ord_lt(desc, a, b) && ord_lt(desc, b, c) ==> ord_lt(desc, a, c),
{
    lemma_lex_irreflexive(a);
    lemma_lex_total(a, b);
    lemma_lex_asymmetric(a, b);
    if desc {
        if lex_lt(c, b) && lex_lt(b, a) {
            lemma_lex_transitive(c, b, a);
        }
    } else {
        if lex_lt(a, b) && lex_lt(b, c) {
            lemma_lex_transitive(a, b, c);
        }
    }
}

/// Index `i` goes before index `j`: its key comes first (ascending, or
/// descending when `desc`), or the keys are equal and it came first.
pub open spec fn key_before(keys: Seq<Seq<u64>>, desc: bool, i: int, j: int) -> bool {
    ord_lt(desc, keys[i], keys[j]) || (keys[i] == keys[j] && i < j)
}

/// `p` lists every index of `keys` once, in stable key order.
pub open spec fn is_stable_order(keys: Seq<Seq<u64>>, desc: bool, p: Seq<usize>) -> bool {
    &&& p.len() == keys.len()
    &&& forall|k: int| 0 <= k < p.len() ==> #[trigger] p[k] < keys.len()
    &&& forall|j: usize| j < keys.len() ==> #[trigger] p.contains(j)
    &&& forall|a: int, b: int| 0 <= a < b < p.len() ==> key_before(keys, desc, p[a] as int, p[b] as int)
}

/// The views of a list of keys.
pub open spec fn keys_view(keys: Seq<Vec<u64>>) -> Seq<Seq<u64>> {
    keys.map_values(|k: Vec<u64>| k@)
}

/// `a` comes before `b`.
pub fn lex_less(a: &[u64], b: &[u64]) -> (r: bool)
    ensures
        r == lex_lt(a@, b@),
{
    let mut i: usize = 0;
    assert(a@.skip(0) =~= a@);
    assert(b@.skip(0) =~= b@);
    while i < a.len() && i < b.len()
        invariant
            i <= a.len(),
            i <= b.len(),
            lex_lt(a@, b@) == lex_lt(a@.skip(i as int), b@.skip(i as int)),
        decreases a.len() - i,
    {
        assert(a@.skip(i as int)[0] == a[i as int]);
        assert(b@.skip(i as int)[0] == b[i as int]);
        if a[i] < b[i] {
            return true;
        }
        if a[i] > b[i] {
            return false;
        }
        assert(a@.skip(i as int).drop_first() =~= a@.skip(i + 1));
        assert(b@.skip(i as int).drop_first() =~= b@.skip(i + 1));
        i = i + 1;
    }
    i == a.len() && i < b.len()
}

fn precedes(desc: bool, a: &[u64], b: &[u64]) -> (r: bool)
    ensures
        r == ord_lt(desc, a@, b@),
{
    if desc {
        lex_less(b, a)
    } else {
        lex_less(a, b)
    }
}

proof fn lemma_key_before_trans(keys: Seq<Seq<u64>>, desc: bool, i: int, j: int, k: int)
    requires
        key_before(keys, desc, i, j),
        key_before(keys, desc, j, k),
    ensures
        key_before(keys, desc, i, k),
{
    lemma_ord_facts(desc, keys[i], keys[j], keys[k]);
    lemma_ord_facts(desc, keys[j], keys[k], keys[i]);
    lemma_ord_facts(desc, keys[k], keys[i], keys[j]);
    lemma_ord_facts(desc, keys[i], keys[k], keys[j]);
}

proof fn lemma_key_before_total(keys: Seq<Seq<u64>>, desc: bool, i: int, j: int)
    requires
        i != j,
    ensures
        key_before(keys, desc, i, j) || key_before(keys, desc, j, i),
        !(key_before(keys, desc, i, j) && key_before(keys, desc, j, i)),
{
    lemma_ord_facts(desc, keys[i], keys[j], keys[i]);
    lemma_ord_facts(desc, keys[j], keys[i], keys[j]);
}

/// `p` lists the indices `lo..hi`, each once, in stable key order.
pub open spec fn sorted_run(keys: Seq<Seq<u64>>, desc: bool, p: Seq<usize>, lo: int, hi: int) -> bool {
    &&& p.len() == hi - lo
    &&& forall|k: int| 0 <= k < p.len() ==> lo <= #[trigger] p[k] < hi
    &&& forall|j: usize| lo <= j < hi ==> #[trigger] p.contains(j)
    &&& forall|a: int, b: int| 0 <= a < b < p.len() ==> key_before(keys, desc, p[a] as int, p[b] as int)
}

/// Index `i` goes before index `j`.
fn goes_before(keys: &Vec<Vec<u64>>, desc: bool, i: usize, j: usize) -> (r: bool)
    requires
        i < keys.len(),
        j < keys.len(),
    ensures
        r == key_before(keys_view(keys@), desc, i as int, j as int),
{
    let ghost kv = keys_view(keys@);
    assert(kv[i as int] == keys@[i as int]@);
    assert(kv[j as int] == keys@[j as int]@);
    proof {
        lemma_ord_facts(desc, kv[i as int], kv[j as int], kv[i as int]);
    }
    precedes(desc, keys[i].as_slice(), keys[j].as_slice()) || (!precedes(desc, keys[j].as_slice(), keys[i].as_slice())
        && i < j)
}

/// Merges two runs in stable key order.
fn merge_runs(keys: &Vec<Vec<u64>>, desc: bool, l: Vec<usize>, r: Vec<usize>, Ghost(lo): Ghost<int>, Ghost(mid): Ghost<int>, Ghost(hi): Ghost<int>) -> (out: Vec<usize>)
    requires
        0 <= lo <= mid <= hi <= keys.len(),
        sorted_run(keys_view(keys@), desc, l@, lo, mid),
        sorted_run(keys_view(keys@), desc, r@, mid, hi),
    ensures
        sorted_run(keys_view(keys@), desc, out@, lo, hi),
{
    let ghost kv = keys_view(keys@);
    let mut out: Vec<usize> = Vec::new();
    let mut i: usize = 0;
    let mut j: usize = 0;
    while i < l.len() || j < r.len()
        invariant
            0 <= lo <= mid <= hi <= keys.len(),
            kv == keys_view(keys@),
            sorted_run(kv, desc, l@, lo, mid),
            sorted_run(kv, desc, r@, mid, hi),
            i <= l.len(),
            j <= r.len(),
            out.len() == i + j,
            forall|k: int| 0 <= k < out.len() ==> lo <= #[trigger] out@[k] < hi,
            forall|a: int| 0 <= a < i ==> out@.contains(#[trigger] l@[a]),
            forall|b: int| 0 <= b < j ==> out@.contains(#[trigger] r@[b]),
            forall|a: int, b: int| 0 <= a < b < out.len() ==> key_before(kv, desc, out@[a] as int, out@[b] as int),
            out.len() > 0 && i < l.len() ==> key_before(kv, desc, out@.last() as int, l@[i as int] as int),
            out.len() > 0 && j < r.len() ==> key_before(kv, desc, out@.last() as int, r@[j as int] as int),
        decreases l.len() + r.len() - i - j,
    {
        let take_left = if i < l.len() && j < r.len() {
            goes_before(keys, desc, l[i], r[j])
        } else {
            i < l.len()
        };
        let ghost before = out@;
        let x = if take_left { l[i] } else { r[j] };
        proof {
            if i < l.len() && j < r.len() {
                assert(l@[i as int] < mid <= r@[j as int]);
                lemma_key_before_total(kv, desc, l@[i as int] as int, r@[j as int] as int);
            }
            assert forall|a: int| 0 <= a < before.len() implies key_before(kv, desc, before[a] as int, x as int) by {
                if a < before.len() - 1 {
                    lemma_key_before_trans(kv, desc, before[a] as int, before.last() as int, x as int);
                }
            }
        }
        out.push(x);
        proof {
            assert forall|a: int, b: int| 0 <= a < b < out.len() implies key_before(kv, desc, out@[a] as int, out@[b] as int) by {
                if b < before.len() {
                    assert(out@[a] == before[a] && out@[b] == before[b]);
                } else {
                    assert(out@[a] == before[a]);
                }
            }
            assert(out@.last() == x);
        }
        if take_left {
            proof {
                if i + 1 < l.len() {
                    assert(key_before(kv, desc, l@[i as int] as int, l@[i + 1] as int));
                }
                assert forall|a: int| 0 <= a < i + 1 implies out@.contains(#[trigger] l@[a]) by {
                    if a < i {
                        let k = choose|k: int| 0 <= k < before.len() && before[k] == l@[a];
                        assert(out@[k] == l@[a]);
                    } else {
                        assert(out@[before.len() as int] == l@[a]);
                    }
                }
                assert forall|b: int| 0 <= b < j implies out@.contains(#[trigger] r@[b]) by {
                    let k = choose|k: int| 0 <= k < before.len() && before[k] == r@[b];
                    assert(out@[k] == r@[b]);
                }
            }
            i = i + 1;
        } else {
            proof {
                if j + 1 < r.len() {
                    assert(key_before(kv, desc, r@[j as int] as int, r@[j + 1] as int));
                }
                assert forall|b: int| 0 <= b < j + 1 implies out@.contains(#[trigger] r@[b]) by {
                    if b < j {
                        let k = choose|k: int| 0 <= k < before.len() && before[k] == r@[b];
                        assert(out@[k] == r@[b]);
                    } else {
                        assert(out@[before.len() as int] == r@[b]);
                    }
                }
                assert forall|a: int| 0 <= a < i implies out@.contains(#[trigger] l@[a]) by {
                    let k = choose|k: int| 0 <= k < before.len() && before[k] == l@[a];
                    assert(out@[k] == l@[a]);
                }
            }
            j = j + 1;
        }
    }
    proof {
        assert forall|x: usize| lo <= x < hi implies #[trigger] out@.contains(x) by {
            if x < mid {
                assert(l@.contains(x));
                let a = choose|a: int| 0 <= a < l@.len() && l@[a] == x;
                assert(out@.contains(l@[a]));
            } else {
                assert(r@.contains(x));
                let b = choose|b: int| 0 <= b < r@.len() && r@[b] == x;
                assert(out@.contains(r@[b]));
            }
        }
    }
    out
}

/// The indices `lo..hi` in stable key order.
fn sort_range(keys: &Vec<Vec<u64>>, desc: bool, lo: usize, hi: usize) -> (p: Vec<usize>)
    requires
        lo <= hi <= keys.len(),
    ensures
        sorted_run(keys_view(keys@), desc, p@, lo as int, hi as int),
    decreases hi - lo,
{
    if hi - lo == 0 {
        let p: Vec<usize> = Vec::new();
        return p;
    }
    if hi - lo == 1 {
        let p: Vec<usize> = vec![lo];
        assert(p@.contains(lo));
        assert forall|j: usize| lo <= j < hi implies #[trigger] p@.contains(j) by {
            assert(j == lo);
        }
        return p;
    }
    let mid = lo + (hi - lo) / 2;
    let l = sort_range(keys, desc, lo, mid);
    let r = sort_range(keys, desc, mid, hi);
    merge_runs(keys, desc, l, r, Ghost(lo as int), Ghost(mid as int), Ghost(hi as int))
}

/// The indices of `keys` in stable key order: by key (ascending, or
/// descending when `desc`), ties in the order they came in.
pub fn stable_order(keys: &Vec<Vec<u64>>, desc: bool) -> (p: Vec<usize>)
    ensures
        is_stable_order(keys_view(keys@), desc, p@),
{
    let p = sort_range(keys, desc, 0, keys.len());
    assert(keys_view(keys@).len() == keys.len());
    p
}

/// The code points of a text, as a key: keys then compare as the texts do.
pub open spec fn text_key(s: Seq<char>) -> Seq<u64> {
    s.map_values(|c: char| (c as u32) as u64)
}

/// The code points of a text, as a key.
pub fn text_key_of(s: &[char]) -> (r: Vec<u64>)
    ensures
        r@ == text_key(s@),
{
    let mut r: Vec<u64> = Vec::new();
    for i in 0..s.len()
        invariant
            r@ == text_key(s@.take(i as int)),
    {
        r.push(s[i] as u32 as u64);
        assert(r@ =~= text_key(s@.take(i + 1)));
    }
    assert(s@.take(s.len() as int) =~= s@);
    r
}

/// Different texts have different keys.
pub proof fn lemma_text_key_injective(a: Seq<char>, b: Seq<char>)
    requires
        text_key(a) == text_key(b),
    ensures
        a == b,
{
    assert(text_key(a).len() == a.len());
    assert(text_key(b).len() == b.len());
    assert forall|i: int| 0 <= i < a.len() implies a[i] == b[i] by {
        let ua = a[i] as u32;
        let ub = b[i] as u32;
        assert(text_key(a)[i] == ua as u64);
        assert(text_key(b)[i] == ub as u64);
        assert(ua == ub);
        vstd::utf8::char_u32_cast(a[i], ua);
        vstd::utf8::char_u32_cast(b[i], ub);
    }
    assert(a =~= b);
}

proof fn lemma_orders_agree_upto(keys: Seq<Seq<u64>>, desc: bool, p1: Seq<usize>, p2: Seq<usize>, k: int)
    requires
        is_stable_order(keys, desc, p1),
        is_stable_order(keys, desc, p2),
        0 <= k < p1.len(),
    ensures
        forall|i: int| 0 <= i <= k ==> p1[i] == p2[i],
    decreases k,
{
    if k > 0 {
        lemma_orders_agree_upto(keys, desc, p1, p2, k - 1);
    }
    let x = p1[k];
    let y = p2[k];
    if x != y {
        assert(p1.contains(y));
        let j = choose|j: int| 0 <= j < p1.len() && p1[j] == y;
        if j < k {
            assert(p2[j] == y);
            assert(key_before(keys, desc, p2[j] as int, p2[k] as int));
            lemma_ord_facts(desc, keys[y as int], keys[y as int], keys[y as int]);
        }
        assert(j > k);
        assert(key_before(keys, desc, x as int, y as int));
        assert(p2.contains(x));
        let j2 = choose|j2: int| 0 <= j2 < p2.len() && p2[j2] == x;
        if j2 < k {
            assert(p1[j2] == x);
            assert(key_before(keys, desc, p1[j2] as int, p1[k] as int));
            lemma_ord_facts(desc, keys[x as int], keys[x as int], keys[x as int]);
        }
        assert(j2 > k);
        assert(key_before(keys, desc, y as int, x as int));
        lemma_key_before_total(keys, desc, x as int, y as int);
    }
}

/// The stable order of a list of keys is unique: ordering by keys (ties
/// kept in the order they came in) has exactly one outcome.
pub proof fn law_stable_order_unique(keys: Seq<Seq<u64>>, desc: bool, p1: Seq<usize>, p2: Seq<usize>)
    requires
        is_stable_order(keys, desc, p1),
        is_stable_order(keys, desc, p2),
    ensures
        p1 == p2,
{
    if p1.len() > 0 {
        lemma_orders_agree_upto(keys, desc, p1, p2, p1.len() - 1);
    }
    assert(p1 =~= p2);
}


/// Index `i` occurs among the first `n` entries of `r`.
pub open spec fn lists_index(r: Seq<usize>, n: int, i: int) -> bool {
    exists|k: int| 0 <= k < n && #[trigger] r[k] == i
}

/// `r` lists every index below `n` exactly once.
pub open spec fn is_index_perm(r: Seq<usize>, n: int) -> bool {
    &&& r.len() == n
    &&& forall|k: int| 0 <= k < n ==> #[trigger] r[k] < n
    &&& forall|i: int| 0 <= i < n ==> #[trigger] lists_index(r, n, i)
    &&& forall|a: int, b: int| 0 <= a < b < n ==> r[a] != r[b]
}

/// `x` taken in the order of the indices `r`.
pub open spec fn reorder<T>(x: Seq<T>, r: Seq<usize>) -> Seq<T> {
    Seq::new(r.len(), |k: int| x[r[k] as int])
}

/// The keys of `s` never fall along it.
pub open spec fn ascending_by<T>(s: Seq<T>, key: spec_fn(T) -> Seq<u64>) -> bool {
    forall|a: int, b: int| 0 <= a < b < s.len() ==> !lex_lt(key(#[trigger] s[b]), key(#[trigger] s[a]))
}

/// A stable order lists every index once.
pub proof fn lemma_stable_order_is_perm(keys: Seq<Seq<u64>>, desc: bool, p: Seq<usize>)
    requires
        is_stable_order(keys, desc, p),
        keys.len() <= usize::MAX,
    ensures
        is_index_perm(p, keys.len() as int),
{
    assert forall|i: int| 0 <= i < keys.len() implies #[trigger] lists_index(p, keys.len() as int, i) by {
        assert(p.contains(i as usize));
        let k = choose|k: int| 0 <= k < p.len() && p[k] == i as usize;
        assert(p[k] == i);
    }
    assert forall|a: int, b: int| 0 <= a < b < keys.len() implies p[a] != p[b] by {
        assert(key_before(keys, desc, p[a] as int, p[b] as int));
        lemma_ord_facts(desc, keys[p[a] as int], keys[p[a] as int], keys[p[a] as int]);
    }
}

proof fn lemma_sorted_perm_not_below<T>(
    x: Seq<T>,
    key: spec_fn(T) -> Seq<u64>,
    r1: Seq<usize>,
    r2: Seq<usize>,
    k: int,
)
    requires
        is_index_perm(r1, x.len() as int),
        is_index_perm(r2, x.len() as int),
        ascending_by(reorder(x, r1), key),
        ascending_by(reorder(x, r2), key),
        0 <= k < x.len(),
    ensures
        !lex_lt(key(x[r1[k] as int]), key(x[r2[k] as int])),
{
    let n = x.len() as int;
    let l1 = reorder(x, r1);
    let l2 = reorder(x, r2);
    let v1 = key(x[r1[k] as int]);
    let v2 = key(x[r2[k] as int]);
    if lex_lt(v1, v2) {
        let a_set = Set::new(|i: int| 0 <= i < n && !lex_lt(v1, key(x[i])));
        let f1 = |a: int| r1[a] as int;
        let f2 = |a: int| r2[a] as int;
        let s1 = vstd::set_lib::set_int_range(0, k + 1).map(f1);
        let s2 = vstd::set_lib::set_int_range(0, k).map(f2);
        vstd::set_lib::lemma_int_range(0, k + 1);
        vstd::set_lib::lemma_int_range(0, k);
        vstd::set_lib::lemma_int_range(0, n);
        assert(vstd::relations::injective_on(f1, vstd::set_lib::set_int_range(0, k + 1))) by {
            assert forall|a: int, b: int|
                vstd::set_lib::set_int_range(0, k + 1).contains(a) && vstd::set_lib::set_int_range(0, k + 1).contains(b)
                    && #[trigger] f1(a) == #[trigger] f1(b) implies a == b by {
                if a < b {
                    assert(r1[a] != r1[b]);
                } else if b < a {
                    assert(r1[b] != r1[a]);
                }
            }
        }
        vstd::set_lib::lemma_map_size(vstd::set_lib::set_int_range(0, k + 1), s1, f1);
        vstd::set_lib::lemma_map_size_bound(vstd::set_lib::set_int_range(0, k), s2, f2);
        assert(s1.subset_of(a_set)) by {
            assert forall|i: int| s1.contains(i) implies a_set.contains(i) by {
                let a = choose|a: int| vstd::set_lib::set_int_range(0, k + 1).contains(a) && #[trigger] f1(a) == i;
                assert(l1[a] == x[i]);
                assert(l1[k] == x[r1[k] as int]);
                if a < k {
                    assert(!lex_lt(key(l1[k]), key(l1[a])));
                } else {
                    lemma_lex_irreflexive(v1);
                }
            }
        }
        assert(a_set.subset_of(vstd::set_lib::set_int_range(0, n)));
        vstd::set_lib::lemma_len_subset(a_set, vstd::set_lib::set_int_range(0, n));
        vstd::set_lib::lemma_len_subset(s1, a_set);
        assert(a_set.subset_of(s2)) by {
            assert forall|i: int| a_set.contains(i) implies s2.contains(i) by {
                assert(lists_index(r2, n, i));
                let a = choose|a: int| 0 <= a < n && #[trigger] r2[a] == i;
                assert(l2[a] == x[i]);
                assert(l2[k] == x[r2[k] as int]);
                if a >= k {
                    let w = key(x[i]);
                    if a > k {
                        assert(!lex_lt(key(l2[a]), key(l2[k])));
                    }
                    lemma_lex_total(w, v2);
                    if lex_lt(v2, w) {
                        lemma_lex_transitive(v1, v2, w);
                    }
                    lemma_lex_total(v1, w);
                    lemma_lex_asymmetric(v1, v2);
                    assert(false);
                }
                assert(vstd::set_lib::set_int_range(0, k).contains(a));
                assert(f2(a) == i);
            }
        }
        vstd::set_lib::lemma_len_subset(a_set, s2);
        assert(false);
    }
}

/// Two orders of the same items, each ascending by a key that tells items
/// apart, list the items alike.
pub proof fn lemma_sorted_perms_agree<T>(x: Seq<T>, key: spec_fn(T) -> Seq<u64>, r1: Seq<usize>, r2: Seq<usize>)
    requires
        is_index_perm(r1, x.len() as int),
        is_index_perm(r2, x.len() as int),
        ascending_by(reorder(x, r1), key),
        ascending_by(reorder(x, r2), key),
        forall|i: int, j: int| 0 <= i < x.len() && 0 <= j < x.len() && key(#[trigger] x[i]) == key(#[trigger] x[j]) ==> x[i] == x[j],
    ensures
        reorder(x, r1) == reorder(x, r2),
{
    assert forall|k: int| 0 <= k < x.len() implies reorder(x, r1)[k] == reorder(x, r2)[k] by {
        lemma_sorted_perm_not_below(x, key, r1, r2, k);
        lemma_sorted_perm_not_below(x, key, r2, r1, k);
        lemma_lex_total(key(x[r1[k] as int]), key(x[r2[k] as int]));
    }
    assert(reorder(x, r1) =~= reorder(x, r2));
}

} // verus!
