//! Stable sorting by text keys, as `slice::sort_by` does it with a comparator
//! that compares text keys, part after part.
use vstd::prelude::*;
use crate::text::{chars_lt, less_than, views, lemma_chars_lt_irreflexive,
    lemma_chars_lt_transitive, lemma_chars_lt_total, lemma_chars_lt_asymmetric};

verus! {

/// Lexicographic order on keys made of several texts: the first part decides,
/// and on a tie the next one.
pub open spec fn key_lt(a: Seq<Seq<char>>, b: Seq<Seq<char>>) -> bool
    decreases a.len(),
{
    if b.len() == 0 {
        false
    } else if a.len() == 0 {
        true
    } else if chars_lt(a[0], b[0]) {
        true
    } else if chars_lt(b[0], a[0]) {
        false
    } else {
        key_lt(a.drop_first(), b.drop_first())
    }
}

pub proof fn lemma_key_lt_irreflexive(a: Seq<Seq<char>>)
    ensures
        !key_lt(a, a),
    decreases a.len(),
{
    if a.len() > 0 {
        lemma_chars_lt_irreflexive(a[0]);
        lemma_key_lt_irreflexive(a.drop_first());
    }
}

pub proof fn lemma_key_lt_transitive(a: Seq<Seq<char>>, b: Seq<Seq<char>>, c: Seq<Seq<char>>)
    requires
        key_lt(a, b),
        key_lt(b, c),
    ensures
        key_lt(a, c),
    decreases a.len(),
{
    if a.len() > 0 && b.len() > 0 && c.len() > 0 {
        lemma_chars_lt_total(a[0], b[0]);
        lemma_chars_lt_total(b[0], c[0]);
        lemma_chars_lt_total(a[0], c[0]);
        lemma_chars_lt_irreflexive(a[0]);
        lemma_chars_lt_irreflexive(b[0]);
        if chars_lt(a[0], b[0]) && chars_lt(b[0], c[0]) {
            lemma_chars_lt_transitive(a[0], b[0], c[0]);
        } else if chars_lt(a[0], b[0]) {
            lemma_chars_lt_asymmetric(a[0], b[0]);
        } else if chars_lt(b[0], c[0]) {
            lemma_chars_lt_asymmetric(b[0], c[0]);
        } else {
            lemma_key_lt_transitive(a.drop_first(), b.drop_first(), c.drop_first());
        }
    }
}

pub proof fn lemma_key_lt_total(a: Seq<Seq<char>>, b: Seq<Seq<char>>)
    ensures
        a == b || key_lt(a, b) || key_lt(b, a),
    decreases a.len(),
{
    if a.len() > 0 && b.len() > 0 {
        lemma_chars_lt_total(a[0], b[0]);
        if a[0] == b[0] {
            lemma_chars_lt_irreflexive(a[0]);
            lemma_key_lt_total(a.drop_first(), b.drop_first());
            if a.drop_first() == b.drop_first() {
                assert(a =~= seq![a[0]] + a.drop_first());
                assert(b =~= seq![b[0]] + b.drop_first());
            }
        }
    } else if a.len() == 0 && b.len() == 0 {
        assert(a =~= b);
    }
}

pub proof fn lemma_key_lt_asymmetric(a: Seq<Seq<char>>, b: Seq<Seq<char>>)
    requires
        key_lt(a, b),
    ensures
        !key_lt(b, a),
{
    if key_lt(b, a) {
        lemma_key_lt_transitive(a, b, a);
        lemma_key_lt_irreflexive(a);
    }
}

/// Whether the item with key `ka` at position `ia` comes before the item with key
/// `kb` at position `ib` in a stable sort: by key (largest first when
/// `descending`), and by position on equal keys.
pub open spec fn precedes(ka: Seq<Seq<char>>, ia: int, kb: Seq<Seq<char>>, ib: int, descending: bool) -> bool {
    if descending {
        key_lt(kb, ka) || (ka == kb && ia < ib)
    } else {
        key_lt(ka, kb) || (ka == kb && ia < ib)
    }
}

pub proof fn lemma_precedes_order(
    ka: Seq<Seq<char>>,
    ia: int,
    kb: Seq<Seq<char>>,
    ib: int,
    kc: Seq<Seq<char>>,
    ic: int,
    d: bool,
)
    ensures
        !precedes(ka, ia, ka, ia, d),
        precedes(ka, ia, kb, ib, d) && precedes(kb, ib, kc, ic, d) ==> precedes(ka, ia, kc, ic, d),
        ia != ib ==> precedes(ka, ia, kb, ib, d) || precedes(kb, ib, ka, ia, d),
        precedes(ka, ia, kb, ib, d) ==> !precedes(kb, ib, ka, ia, d),
{
    lemma_key_lt_irreflexive(ka);
    lemma_key_lt_irreflexive(kb);
    lemma_key_lt_total(ka, kb);
    if key_lt(ka, kb) {
        lemma_key_lt_asymmetric(ka, kb);
    }
    if key_lt(kb, ka) {
        lemma_key_lt_asymmetric(kb, ka);
    }
    if key_lt(ka, kb) && key_lt(kb, kc) {
        lemma_key_lt_transitive(ka, kb, kc);
    }
    if key_lt(kc, kb) && key_lt(kb, ka) {
        lemma_key_lt_transitive(kc, kb, ka);
    }
}

/// Items that can be sorted by a key made of texts.
pub trait SortKey {
    spec fn key_of(&self) -> Seq<Seq<char>>;

    fn sort_key(&self) -> (k: Vec<String>)
        ensures
            views(k@) == self.key_of(),
    ;
}

/// `k` is one of the entries of `p`.
pub open spec fn occurs(p: Seq<int>, k: int) -> bool {
    exists|j: int| 0 <= j < p.len() && p[j] == k
}

/// `p` lists each position of `items` once, in the order of a stable sort.
pub open spec fn is_stable_order<T: SortKey>(items: Seq<T>, p: Seq<int>, descending: bool) -> bool {
    &&& p.len() == items.len()
    &&& forall|k: int| 0 <= k < p.len() ==> #[trigger] occurs(p, k)
    &&& forall|k: int| 0 <= k < p.len() ==> 0 <= #[trigger] p[k] < items.len()
    &&& forall|a: int, b: int| 0 <= a < b < p.len() ==> #[trigger] p[a] != #[trigger] p[b]
    &&& forall|a: int, b: int|
        0 <= a < b < p.len() ==> precedes(
            items[#[trigger] p[a]].key_of(),
            p[a],
            items[#[trigger] p[b]].key_of(),
            p[b],
            descending,
        )
}

/// `sorted` is `items` rearranged as a stable sort by key arranges them.
pub open spec fn stably_sorted<T: SortKey>(items: Seq<T>, sorted: Seq<T>, descending: bool) -> bool {
    exists|p: Seq<int>|
        is_stable_order(items, p, descending) && sorted.len() == p.len() && forall|k: int|
            0 <= k < p.len() ==> #[trigger] sorted[k] == items[p[k]]
}

/// Exact comparison of two keys.
pub fn key_less(a: &Vec<String>, b: &Vec<String>) -> (r: bool)
    ensures
        r == key_lt(views(a@), views(b@)),
{
    let mut i: usize = 0;
    let ghost va = views(a@);
    let ghost vb = views(b@);
    assert(va.skip(0) =~= va);
    assert(vb.skip(0) =~= vb);
    while i < a.len() && i < b.len()
        invariant
            i <= a@.len(),
            i <= b@.len(),
            va == views(a@),
            vb == views(b@),
            key_lt(va, vb) == key_lt(va.skip(i as int), vb.skip(i as int)),
        decreases a.len() - i,
    {
        let x = a[i].as_str();
        let y = b[i].as_str();
        assert(va.skip(i as int)[0] == x@);
        assert(vb.skip(i as int)[0] == y@);
        if less_than(x, y) {
            return true;
        }
        if less_than(y, x) {
            return false;
        }
        proof {
            lemma_chars_lt_total(x@, y@);
            assert(va.skip(i as int).drop_first() =~= va.skip(i + 1));
            assert(vb.skip(i as int).drop_first() =~= vb.skip(i + 1));
        }
        i = i + 1;
    }
    i < b.len()
}

/// Sorts `v` in place, keeping items with equal keys in their order
/// (`slice::sort_by` with `a.key.cmp(&b.key)`, or `b.key.cmp(&a.key)` when
/// `descending`).
pub fn stable_sort<T: SortKey>(v: &mut Vec<T>, descending: bool)
    ensures
        stably_sorted(old(v)@, final(v)@, descending),
{
    let ghost orig = v@;
    let ghost mut p: Seq<int> = Seq::new(v@.len(), |k: int| k);
    let n = v.len();
    assert forall|k: int| 0 <= k < n implies #[trigger] occurs(p, k) by {
        assert(p[k] == k);
    }
    let mut i: usize = 0;
    while i < n
        invariant
            i <= n == v@.len() == orig.len() == p.len(),
            forall|k: int| 0 <= k < n ==> #[trigger] v@[k] == orig[p[k]],
            forall|k: int| 0 <= k < n ==> 0 <= #[trigger] p[k] < n,
            forall|k: int| 0 <= k < n ==> #[trigger] occurs(p, k),
            forall|k: int| i <= k < n ==> #[trigger] p[k] == k,
            forall|k: int| 0 <= k < i ==> #[trigger] p[k] < i,
            forall|a: int, b: int| 0 <= a < b < n ==> #[trigger] p[a] != #[trigger] p[b],
            forall|a: int, b: int|
                0 <= a < b < i ==> precedes(
                    orig[#[trigger] p[a]].key_of(),
                    p[a],
                    orig[#[trigger] p[b]].key_of(),
                    p[b],
                    descending,
                ),
        decreases n - i,
    {
        let x = v.remove(i);
        let xk = x.sort_key();
        let ghost ki = orig[i as int].key_of();
        assert(x == orig[i as int]);
        let mut pos: usize = 0;
        loop
            invariant
                pos <= i,
                i < n,
                v@.len() == n - 1,
                views(xk@) == ki,
                ki == orig[i as int].key_of(),
                forall|k: int| 0 <= k < i ==> #[trigger] v@[k] == orig[p[k]],
                forall|k: int| 0 <= k < i ==> 0 <= #[trigger] p[k] < i,
                forall|k: int|
                    0 <= k < pos ==> !precedes(
                        ki,
                        i as int,
                        orig[#[trigger] p[k]].key_of(),
                        p[k],
                        descending,
                    ),
            ensures
                pos <= i,
                pos < i ==> precedes(
                    ki,
                    i as int,
                    orig[p[pos as int]].key_of(),
                    p[pos as int],
                    descending,
                ),
            decreases i - pos,
        {
            if pos == i {
                break;
            }
            let yk = v[pos].sort_key();
            let before = if descending {
                key_less(&yk, &xk)
            } else {
                key_less(&xk, &yk)
            };
            proof {
                assert(v@[pos as int] == orig[p[pos as int]]);
                assert(p[pos as int] < i);
            }
            if before {
                break;
            }
            pos = pos + 1;
        }
        // Either pos == i, or item i precedes the one at pos.
        proof {
            if pos < i {
                assert(p[pos as int] < i);
                assert(v@[pos as int] == orig[p[pos as int]]);
                assert(precedes(ki, i as int, orig[p[pos as int]].key_of(), p[pos as int], descending));
            }
        }
        v.insert(pos, x);
        proof {
            let old_p = p;
            let np = old_p.remove(i as int).insert(pos as int, i as int);
            assert forall|a: int, b: int| 0 <= a < b <= i implies precedes(
                orig[#[trigger] np[a]].key_of(),
                np[a],
                orig[#[trigger] np[b]].key_of(),
                np[b],
                descending,
            ) by {
                let ka = orig[np[a]].key_of();
                let kb = orig[np[b]].key_of();
                if a < pos && b < pos {
                    assert(np[a] == old_p[a] && np[b] == old_p[b]);
                } else if a < pos && b == pos {
                    assert(np[a] == old_p[a]);
                    assert(np[b] == i);
                    assert(!precedes(ki, i as int, orig[old_p[a]].key_of(), old_p[a], descending));
                    lemma_precedes_order(ki, i as int, ka, np[a], ka, np[a], descending);
                } else if a < pos {
                    assert(np[a] == old_p[a] && np[b] == old_p[b - 1]);
                } else if a == pos {
                    assert(np[a] == i);
                    assert(np[b] == old_p[b - 1]);
                    if b - 1 > pos {
                        assert(precedes(
                            orig[old_p[pos as int]].key_of(),
                            old_p[pos as int],
                            orig[old_p[b - 1]].key_of(),
                            old_p[b - 1],
                            descending,
                        ));
                        lemma_precedes_order(
                            ki,
                            i as int,
                            orig[old_p[pos as int]].key_of(),
                            old_p[pos as int],
                            kb,
                            np[b],
                            descending,
                        );
                    }
                } else {
                    assert(np[a] == old_p[a - 1] && np[b] == old_p[b - 1]);
                }
            }
            assert forall|k: int| 0 <= k < n implies #[trigger] v@[k] == orig[np[k]] by {
                if k < pos {
                } else if k == pos {
                } else if k <= i {
                    assert(np[k] == old_p[k - 1]);
                } else {
                    assert(np[k] == old_p[k]);
                }
            }
            assert forall|k: int| 0 <= k < n implies #[trigger] occurs(np, k) by {
                if k == i {
                    assert(np[pos as int] == k);
                } else {
                    assert(occurs(old_p, k));
                    let j = choose|j: int| 0 <= j < old_p.len() && old_p[j] == k;
                    assert(j != i);
                    if j < pos {
                        assert(np[j] == k);
                    } else if j < i {
                        assert(np[j + 1] == k);
                    } else {
                        assert(np[j] == k);
                    }
                }
            }
            assert forall|a: int, b: int| 0 <= a < b < n implies #[trigger] np[a] != #[trigger] np[b] by {
                if a == pos {
                    assert(np[a] == i);
                } else if b == pos {
                    assert(np[b] == i);
                }
            }
            p = np;
        }
        i = i + 1;
    }
    proof {
        assert(is_stable_order(orig, p, descending));
    }
}

} // verus!

verus! {

/// A position with the text it is ordered by.
pub struct Keyed {
    pub index: usize,
    pub key: String,
}

impl SortKey for Keyed {
    open spec fn key_of(&self) -> Seq<Seq<char>> {
        seq![self.key@]
    }

    fn sort_key(&self) -> (k: Vec<String>) {
        let mut k: Vec<String> = Vec::new();
        k.push(self.key.clone());
        assert(views(k@) =~= seq![self.key@]);
        k
    }
}

/// `order` lists each position of `keys` once, as a stable sort by key puts them.
pub open spec fn is_index_order(keys: Seq<Seq<char>>, order: Seq<int>, descending: bool) -> bool {
    &&& order.len() == keys.len()
    &&& forall|k: int| 0 <= k < order.len() ==> 0 <= #[trigger] order[k] < keys.len()
    &&& forall|i: int| 0 <= i < keys.len() ==> #[trigger] occurs(order, i)
    &&& forall|a: int, b: int| 0 <= a < b < order.len() ==> #[trigger] order[a] != #[trigger] order[b]
    &&& forall|a: int, b: int|
        0 <= a < b < order.len() ==> precedes(
            seq![keys[#[trigger] order[a]]],
            order[a],
            seq![keys[#[trigger] order[b]]],
            order[b],
            descending,
        )
}

/// The positions of `keys` in the order of a stable sort by key.
pub fn index_order(keys: &Vec<String>, descending: bool) -> (order: Vec<usize>)
    ensures
        is_index_order(views(keys@), order@.map_values(|k: usize| k as int), descending),
{
    let ghost ks = views(keys@);
    let mut entries: Vec<Keyed> = Vec::new();
    let mut i: usize = 0;
    while i < keys.len()
        invariant
            i <= keys@.len(),
            ks == views(keys@),
            entries@.len() == i,
            forall|j: int| 0 <= j < i ==> (#[trigger] entries@[j]).index == j && entries@[j].key@ == ks[j],
        decreases keys.len() - i,
    {
        entries.push(Keyed { index: i, key: keys[i].clone() });
        i = i + 1;
    }
    let ghost unsorted = entries@;
    stable_sort(&mut entries, descending);
    let ghost sorted = entries@;
    let ghost p = choose|p: Seq<int>|
        is_stable_order(unsorted, p, descending) && sorted.len() == p.len() && forall|k: int|
            0 <= k < p.len() ==> #[trigger] sorted[k] == unsorted[p[k]];
    let mut order: Vec<usize> = Vec::new();
    let mut k: usize = 0;
    while k < entries.len()
        invariant
            k <= entries@.len(),
            sorted == entries@,
            order@.len() == k,
            forall|j: int| 0 <= j < k ==> #[trigger] order@[j] == sorted[j].index,
        decreases entries.len() - k,
    {
        order.push(entries[k].index);
        k = k + 1;
    }
    proof {
        let ov = order@.map_values(|k: usize| k as int);
        assert forall|a: int| 0 <= a < ov.len() implies ov[a] == p[a] by {
            assert(sorted[a] == unsorted[p[a]]);
        }
        assert forall|q: int| 0 <= q < ks.len() implies #[trigger] occurs(ov, q) by {
            assert(occurs(p, q));
            let a = choose|a: int| 0 <= a < p.len() && p[a] == q;
            assert(ov[a] == q);
        }
        assert forall|a: int, b: int| 0 <= a < b < ov.len() implies precedes(
            seq![ks[#[trigger] ov[a]]],
            ov[a],
            seq![ks[#[trigger] ov[b]]],
            ov[b],
            descending,
        ) by {
            assert(precedes(unsorted[p[a]].key_of(), p[a], unsorted[p[b]].key_of(), p[b], descending));
            assert(unsorted[p[a]].key_of() =~= seq![ks[ov[a]]]);
            assert(unsorted[p[b]].key_of() =~= seq![ks[ov[b]]]);
        }
    }
    order
}

} // verus!
