//! The canonical order of encoded set entries and dictionary keys, and the
//! sorting that puts them in it.

use vstd::prelude::*;

use crate::de::lex::literal::write_all;

verus! {

/// Lexicographic order on byte strings.
pub open spec fn bytes_lt(a: Seq<u8>, b: Seq<u8>) -> bool
    decreases a.len(),
{
    if a.len() == 0 {
        b.len() > 0
    } else if b.len() == 0 {
        false
    } else if a[0] < b[0] {
        true
    } else if a[0] > b[0] {
        false
    } else {
        bytes_lt(a.drop_first(), b.drop_first())
    }
}

/// Byte strings are ordered by their first differing byte, compared as an
/// unsigned number: where `a` and `b` agree on their first `k` bytes and
/// differ at index `k`, `a` sorts before `b` exactly when its byte there is
/// the smaller one.
pub proof fn lemma_bytes_lt_first_difference(a: Seq<u8>, b: Seq<u8>, k: int)
    requires
        0 <= k < a.len(),
        k < b.len(),
        forall|j: int| 0 <= j < k ==> a[j] == b[j],
        a[k] != b[k],
    ensures
        bytes_lt(a, b) <==> (a[k] as int) < (b[k] as int),
        bytes_lt(b, a) <==> (b[k] as int) < (a[k] as int),
    decreases k,
{
    if k > 0 {
        assert forall|j: int| 0 <= j < k - 1 implies a.drop_first()[j] == b.drop_first()[j] by {
            assert(a.drop_first()[j] == a[j + 1]);
            assert(b.drop_first()[j] == b[j + 1]);
        }
        assert(a[0] == b[0]);
        lemma_bytes_lt_first_difference(a.drop_first(), b.drop_first(), k - 1);
    }
}

/// A proper prefix sorts before the longer string, and never after it.
pub proof fn lemma_bytes_lt_prefix(a: Seq<u8>, b: Seq<u8>)
    requires
        a.len() < b.len(),
        forall|j: int| 0 <= j < a.len() ==> a[j] == b[j],
    ensures
        bytes_lt(a, b),
        !bytes_lt(b, a),
    decreases a.len(),
{
    if a.len() > 0 {
        assert forall|j: int| 0 <= j < a.len() - 1 implies a.drop_first()[j] == b.drop_first()[j] by {
            assert(a.drop_first()[j] == a[j + 1]);
            assert(b.drop_first()[j] == b[j + 1]);
        }
        assert(a[0] == b[0]);
        lemma_bytes_lt_prefix(a.drop_first(), b.drop_first());
    }
}

/// No byte string sorts before itself.
pub proof fn lemma_bytes_lt_irreflexive(a: Seq<u8>)
    ensures
        !bytes_lt(a, a),
    decreases a.len(),
{
    if a.len() > 0 {
        lemma_bytes_lt_irreflexive(a.drop_first());
    }
}

/// The order is transitive.
pub proof fn lemma_bytes_lt_transitive(a: Seq<u8>, b: Seq<u8>, c: Seq<u8>)
    requires
        bytes_lt(a, b),
        bytes_lt(b, c),
    ensures
        bytes_lt(a, c),
    decreases a.len(),
{
    if a.len() > 0 && b.len() > 0 && c.len() > 0 && a[0] == b[0] && b[0] == c[0] {
        lemma_bytes_lt_transitive(a.drop_first(), b.drop_first(), c.drop_first());
    }
}

/// Of two different byte strings, one sorts before the other.
#[verifier::spinoff_prover]
pub proof fn lemma_bytes_lt_total(a: Seq<u8>, b: Seq<u8>)
    ensures
        a == b || bytes_lt(a, b) || bytes_lt(b, a),
    decreases a.len(),
{
    if a.len() > 0 && b.len() > 0 && a[0] == b[0] {
        let a1 = a.drop_first();
        let b1 = b.drop_first();
        lemma_bytes_lt_total(a1, b1);
        if a1 == b1 {
            assert forall|i: int| 0 <= i < a.len() implies a[i] == b[i] by {
                if i > 0 {
                    assert(a[i] == a1[i - 1]);
                    assert(b[i] == b1[i - 1]);
                }
            }
            assert(a =~= b);
        }
    } else if a.len() == 0 && b.len() == 0 {
        assert(a =~= b);
    }
}

/// No key occurs twice.
pub open spec fn entry_keys_distinct(l: Seq<Entry>) -> bool {
    forall|i: int, j: int| 0 <= i < j < l.len() ==> l[i].0 != l[j].0
}

/// Entries whose keys are distinct are all kept by sorting, and nothing
/// else is.
pub proof fn lemma_sorted_entries_exact(ps: Seq<Entry>)
    requires
        entry_keys_distinct(ps),
    ensures
        forall|e: Entry| #[trigger] sorted_entries(ps).contains(e) <==> ps.contains(e),
    decreases ps.len(),
{
    if ps.len() > 0 {
        let init = ps.drop_last();
        let k = ps.last().0;
        let v = ps.last().1;
        assert(entry_keys_distinct(init)) by {
            assert forall|i: int, j: int| 0 <= i < j < init.len() implies init[i].0 != init[j].0 by {
                assert(init[i] == ps[i] && init[j] == ps[j]);
            }
        }
        lemma_sorted_entries_exact(init);
        lemma_sorted_entries(init);
        let prev = sorted_entries(init);
        lemma_insert_entry(prev, k, v);
        let p = partition_point(prev, k);
        if p < prev.len() && prev[p].0 == k {
            assert(prev.contains(prev[p]));
            let j = choose|j: int| 0 <= j < init.len() && init[j] == prev[p];
            assert(ps[j].0 == ps[ps.len() - 1].0);
            assert(false);
        }
        let r = prev.insert(p, (k, v));
        assert(sorted_entries(ps) == r);
        assert forall|e: Entry| #[trigger] r.contains(e) <==> ps.contains(e) by {
            if r.contains(e) {
                let i = choose|i: int| 0 <= i < r.len() && r[i] == e;
                if i < p {
                    assert(prev[i] == e);
                    assert(prev.contains(e));
                    let j = choose|j: int| 0 <= j < init.len() && init[j] == e;
                    assert(ps[j] == e);
                } else if i == p {
                    assert(ps[ps.len() - 1] == e);
                } else {
                    assert(prev[i - 1] == e);
                    assert(prev.contains(e));
                    let j = choose|j: int| 0 <= j < init.len() && init[j] == e;
                    assert(ps[j] == e);
                }
            }
            if ps.contains(e) {
                let j = choose|j: int| 0 <= j < ps.len() && ps[j] == e;
                if j == ps.len() - 1 {
                    assert(r[p] == e);
                } else {
                    assert(init[j] == e);
                    assert(init.contains(e));
                    assert(prev.contains(e));
                    let i = choose|i: int| 0 <= i < prev.len() && prev[i] == e;
                    if i < p {
                        assert(r[i] == e);
                    } else {
                        assert(r[i + 1] == e);
                    }
                }
            }
        }
    }
}

/// Two lists sorted strictly by key that hold the same entries are the
/// same list.
pub proof fn lemma_sorted_unique(a: Seq<Entry>, b: Seq<Entry>)
    requires
        keys_sorted(a),
        keys_sorted(b),
        forall|e: Entry| a.contains(e) <==> b.contains(e),
    ensures
        a == b,
    decreases a.len(),
{
    if a.len() == 0 {
        if b.len() > 0 {
            assert(b.contains(b[0]));
        }
        assert(a =~= b);
    } else {
        assert(a.contains(a[0]));
        assert(b.len() > 0);
        assert(b.contains(b[0]));
        let j = choose|j: int| 0 <= j < b.len() && b[j] == a[0];
        let i = choose|i: int| 0 <= i < a.len() && a[i] == b[0];
        if j > 0 {
            if i > 0 {
                lemma_bytes_lt_transitive(a[0].0, a[i].0, b[j].0);
                lemma_bytes_lt_irreflexive(a[0].0);
            } else {
                lemma_bytes_lt_irreflexive(b[0].0);
            }
        }
        assert(a[0] == b[0]);
        let ta = a.drop_first();
        let tb = b.drop_first();
        assert(keys_sorted(ta)) by {
            assert forall|x: int, y: int| 0 <= x < y < ta.len() implies bytes_lt(ta[x].0, ta[y].0) by {
                assert(ta[x] == a[x + 1] && ta[y] == a[y + 1]);
            }
        }
        assert(keys_sorted(tb)) by {
            assert forall|x: int, y: int| 0 <= x < y < tb.len() implies bytes_lt(tb[x].0, tb[y].0) by {
                assert(tb[x] == b[x + 1] && tb[y] == b[y + 1]);
            }
        }
        assert forall|e: Entry| ta.contains(e) <==> tb.contains(e) by {
            if ta.contains(e) {
                let x = choose|x: int| 0 <= x < ta.len() && ta[x] == e;
                assert(a[x + 1] == e);
                assert(a.contains(e));
                let y = choose|y: int| 0 <= y < b.len() && b[y] == e;
                if y == 0 {
                    lemma_bytes_lt_irreflexive(a[0].0);
                    assert(bytes_lt(a[0].0, a[x + 1].0));
                }
                assert(tb[y - 1] == e);
            }
            if tb.contains(e) {
                let x = choose|x: int| 0 <= x < tb.len() && tb[x] == e;
                assert(b[x + 1] == e);
                assert(b.contains(e));
                let y = choose|y: int| 0 <= y < a.len() && a[y] == e;
                if y == 0 {
                    lemma_bytes_lt_irreflexive(b[0].0);
                    assert(bytes_lt(b[0].0, b[x + 1].0));
                }
                assert(ta[y - 1] == e);
            }
        }
        lemma_sorted_unique(ta, tb);
        assert(a =~= seq![a[0]] + ta);
        assert(b =~= seq![b[0]] + tb);
    }
}

/// Sorting entries with distinct keys does not depend on their order.
pub proof fn lemma_sorted_entries_any_order(ps1: Seq<Entry>, ps2: Seq<Entry>)
    requires
        entry_keys_distinct(ps1),
        entry_keys_distinct(ps2),
        forall|e: Entry| ps1.contains(e) <==> ps2.contains(e),
    ensures
        sorted_entries(ps1) == sorted_entries(ps2),
{
    lemma_sorted_entries(ps1);
    lemma_sorted_entries(ps2);
    lemma_sorted_entries_exact(ps1);
    lemma_sorted_entries_exact(ps2);
    lemma_sorted_unique(sorted_entries(ps1), sorted_entries(ps2));
}

/// Whether `a` sorts before `b`.
pub fn bytes_less(a: &[u8], b: &[u8]) -> (res: bool)
    ensures
        res == bytes_lt(a@, b@),
{
    let mut i: usize = 0;
    proof {
        assert(a@.skip(0) =~= a@);
        assert(b@.skip(0) =~= b@);
    }
    while i < a.len() && i < b.len()
        invariant
            i <= a@.len(),
            i <= b@.len(),
            bytes_lt(a@, b@) == bytes_lt(a@.skip(i as int), b@.skip(i as int)),
        decreases a@.len() - i,
    {
        if a[i] < b[i] {
            return true;
        }
        if a[i] > b[i] {
            return false;
        }
        proof {
            assert(a@.skip(i as int).drop_first() =~= a@.skip(i + 1));
            assert(b@.skip(i as int).drop_first() =~= b@.skip(i + 1));
        }
        i = i + 1;
    }
    a.len() < b.len()
}

/// Whether two byte strings are equal.
pub fn bytes_equal(a: &[u8], b: &[u8]) -> (res: bool)
    ensures
        res == (a@ == b@),
{
    if a.len() != b.len() {
        return false;
    }
    let mut i: usize = 0;
    while i < a.len()
        invariant
            i <= a@.len(),
            a@.len() == b@.len(),
            a@.take(i as int) == b@.take(i as int),
        decreases a@.len() - i,
    {
        if a[i] != b[i] {
            assert(a@[i as int] != b@[i as int]);
            return false;
        }
        i = i + 1;
        proof {
            assert(a@.take(i as int) =~= a@.take(i - 1).push(a@[i - 1]));
            assert(b@.take(i as int) =~= b@.take(i - 1).push(b@[i - 1]));
        }
    }
    proof {
        assert(a@.take(i as int) =~= a@);
        assert(b@.take(i as int) =~= b@);
    }
    true
}

/// An encoded dictionary entry: key bytes and value bytes.
pub type Entry = (Seq<u8>, Seq<u8>);

/// Keys strictly increase.
pub open spec fn keys_sorted(l: Seq<Entry>) -> bool {
    forall|i: int, j: int| 0 <= i < j < l.len() ==> bytes_lt(l[i].0, l[j].0)
}

/// Insert an entry into a sorted list unless its key is already there.
pub open spec fn insert_entry(l: Seq<Entry>, k: Seq<u8>, v: Seq<u8>) -> Seq<Entry>
    decreases l.len(),
{
    if l.len() == 0 {
        seq![(k, v)]
    } else if bytes_lt(l[0].0, k) {
        seq![l[0]] + insert_entry(l.drop_first(), k, v)
    } else if l[0].0 == k {
        l
    } else {
        seq![(k, v)] + l
    }
}

/// Entries sorted by key, where the first entry with a given key wins.
pub open spec fn sorted_entries(ps: Seq<Entry>) -> Seq<Entry>
    decreases ps.len(),
{
    if ps.len() == 0 {
        Seq::empty()
    } else {
        let prev = sorted_entries(ps.drop_last());
        insert_entry(prev, ps.last().0, ps.last().1)
    }
}

/// Distinct entries in sorted order.
pub open spec fn sorted_set(es: Seq<Seq<u8>>) -> Seq<Seq<u8>> {
    keys_of(sorted_entries(set_pairs(es)))
}

/// The keys of a list of entries.
pub open spec fn keys_of(l: Seq<Entry>) -> Seq<Seq<u8>> {
    l.map_values(|p: Entry| p.0)
}

/// The concatenation of byte strings.
pub open spec fn concat(l: Seq<Seq<u8>>) -> Seq<u8>
    decreases l.len(),
{
    if l.len() == 0 {
        Seq::empty()
    } else {
        concat(l.drop_last()) + l.last()
    }
}

/// The concatenation of each entry's key then value.
pub open spec fn concat_entries(l: Seq<Entry>) -> Seq<u8>
    decreases l.len(),
{
    if l.len() == 0 {
        Seq::empty()
    } else {
        concat_entries(l.drop_last()) + l.last().0 + l.last().1
    }
}

/// The sum of the byte lengths of all keys and values.
pub open spec fn total_len(l: Seq<Entry>) -> nat
    decreases l.len(),
{
    if l.len() == 0 {
        0
    } else {
        total_len(l.drop_last()) + l.last().0.len() + l.last().1.len()
    }
}

/// The first position whose key does not sort before `k`.
pub open spec fn partition_point(l: Seq<Entry>, k: Seq<u8>) -> int
    decreases l.len(),
{
    if l.len() == 0 || !bytes_lt(l[0].0, k) {
        0
    } else {
        1 + partition_point(l.drop_first(), k)
    }
}

/// What inserting an entry into sorted entries keeps and adds.
#[verifier::spinoff_prover]
#[verifier::rlimit(60)]
pub proof fn lemma_insert_entry(l: Seq<Entry>, k: Seq<u8>, v: Seq<u8>)
    requires
        keys_sorted(l),
    ensures
        ({
            let p = partition_point(l, k);
            &&& 0 <= p <= l.len()
            &&& forall|i: int| 0 <= i < p ==> bytes_lt(#[trigger] l[i].0, k)
            &&& p < l.len() ==> !bytes_lt(l[p].0, k)
            &&& insert_entry(l, k, v) == if p < l.len() && l[p].0 == k {
                l
            } else {
                l.insert(p, (k, v))
            }
        }),
        keys_sorted(insert_entry(l, k, v)),
        forall|e: Entry| #[trigger] insert_entry(l, k, v).contains(e) ==> l.contains(e) || e == (k, v),
        exists|e: Entry| #[trigger] insert_entry(l, k, v).contains(e) && e.0 == k,
    decreases l.len(),
{
    let r = insert_entry(l, k, v);
    if l.len() == 0 {
        assert(r =~= l.insert(0, (k, v)));
        assert(r[0] == (k, v));
        assert(r.contains((k, v)));
    } else if bytes_lt(l[0].0, k) {
        let t = l.drop_first();
        assert(keys_sorted(t)) by {
            assert forall|i: int, j: int| 0 <= i < j < t.len() implies bytes_lt(t[i].0, t[j].0) by {
                assert(t[i] == l[i + 1] && t[j] == l[j + 1]);
            }
        }
        lemma_insert_entry(t, k, v);
        let p = partition_point(l, k);
        let rt = insert_entry(t, k, v);
        assert forall|i: int| 0 <= i < p implies bytes_lt(#[trigger] l[i].0, k) by {
            if i > 0 {
                assert(l[i] == t[i - 1]);
            }
        }
        if p < l.len() {
            assert(l[p] == t[p - 1]);
        }
        if p < l.len() && l[p].0 == k {
            assert(r =~= l);
        } else {
            assert(r =~= l.insert(p, (k, v)));
        }
        assert(keys_sorted(r)) by {
            assert forall|i: int, j: int| 0 <= i < j < r.len() implies bytes_lt(r[i].0, r[j].0) by {
                if i == 0 {
                    assert(r[0] == l[0]);
                    assert(rt.contains(r[j])) by {
                        assert(r[j] == rt[j - 1]);
                    }
                    if t.contains(r[j]) {
                        let jj = choose|jj: int| 0 <= jj < t.len() && t[jj] == r[j];
                        assert(l[jj + 1] == t[jj]);
                    }
                } else {
                    assert(r[i] == rt[i - 1] && r[j] == rt[j - 1]);
                }
            }
        }
        assert forall|e: Entry| #[trigger] r.contains(e) implies l.contains(e) || e == (k, v) by {
            let ii = choose|ii: int| 0 <= ii < r.len() && r[ii] == e;
            if ii == 0 {
                assert(l[0] == e);
            } else {
                assert(rt[ii - 1] == e);
                if t.contains(e) {
                    let jj = choose|jj: int| 0 <= jj < t.len() && t[jj] == e;
                    assert(l[jj + 1] == e);
                }
            }
        }
        let w = choose|w: Entry| #[trigger] rt.contains(w) && w.0 == k;
        let wi = choose|wi: int| 0 <= wi < rt.len() && rt[wi] == w;
        assert(r[wi + 1] == w);
        assert(r.contains(w));
    } else if l[0].0 == k {
        assert(r.contains(l[0]));
    } else {
        lemma_bytes_lt_total(l[0].0, k);
        assert(r =~= l.insert(0, (k, v)));
        assert(keys_sorted(r)) by {
            assert forall|i: int, j: int| 0 <= i < j < r.len() implies bytes_lt(r[i].0, r[j].0) by {
                if i == 0 {
                    if j > 1 {
                        lemma_bytes_lt_transitive(k, l[0].0, l[j - 1].0);
                    }
                } else {
                    assert(r[i] == l[i - 1] && r[j] == l[j - 1]);
                }
            }
        }
        assert forall|e: Entry| #[trigger] r.contains(e) implies l.contains(e) || e == (k, v) by {
            let ii = choose|ii: int| 0 <= ii < r.len() && r[ii] == e;
            if ii > 0 {
                assert(l[ii - 1] == e);
            }
        }
        assert(r[0] == (k, v));
        assert(r.contains((k, v)));
    }
}

/// Sorted entries are sorted by key with no key twice.
pub proof fn lemma_sorted_entries(ps: Seq<Entry>)
    ensures
        keys_sorted(sorted_entries(ps)),
        forall|e: Entry| #[trigger] sorted_entries(ps).contains(e) ==> ps.contains(e),
    decreases ps.len(),
{
    if ps.len() > 0 {
        let init = ps.drop_last();
        lemma_sorted_entries(init);
        let prev = sorted_entries(init);
        lemma_insert_entry(prev, ps.last().0, ps.last().1);
        let r = sorted_entries(ps);
        assert forall|e: Entry| #[trigger] r.contains(e) implies ps.contains(e) by {
            if prev.contains(e) {
                let i = choose|i: int| 0 <= i < init.len() && init[i] == e;
                assert(ps[i] == e);
            } else {
                assert(ps[ps.len() - 1] == e);
            }
        }
    }
}

/// Every key of the input has an entry in the sorted form.
/// Sorted entries are sorted by key with no key twice.
pub proof fn lemma_sorted_entries_keys(ps: Seq<Entry>, i: int)
    requires
        0 <= i < ps.len(),
    ensures
        exists|w: Entry| #[trigger] sorted_entries(ps).contains(w) && w.0 == ps[i].0,
    decreases ps.len(),
{
    let init = ps.drop_last();
    lemma_sorted_entries(init);
    let prev = sorted_entries(init);
    lemma_insert_entry(prev, ps.last().0, ps.last().1);
    let r = sorted_entries(ps);
    if i < ps.len() - 1 {
        lemma_sorted_entries_keys(init, i);
        let w = choose|w: Entry| #[trigger] prev.contains(w) && w.0 == init[i].0;
        let p = partition_point(prev, ps.last().0);
        let wi = choose|wi: int| 0 <= wi < prev.len() && prev[wi] == w;
        if r != prev {
            assert(r == prev.insert(p, (ps.last().0, ps.last().1)));
            if wi < p {
                assert(r[wi] == w);
            } else {
                assert(r[wi + 1] == w);
            }
        }
        assert(r.contains(w));
    }
}

/// A sorted list is its own sorted form.
/// Sorted entries are sorted by key with no key twice.
pub proof fn lemma_sorted_entries_of_sorted(l: Seq<Entry>)
    requires
        keys_sorted(l),
    ensures
        sorted_entries(l) == l,
    decreases l.len(),
{
    if l.len() > 0 {
        let init = l.drop_last();
        assert(keys_sorted(init)) by {
            assert forall|i: int, j: int| 0 <= i < j < init.len() implies bytes_lt(init[i].0, init[j].0) by {
                assert(init[i] == l[i] && init[j] == l[j]);
            }
        }
        lemma_sorted_entries_of_sorted(init);
        lemma_insert_entry(init, l.last().0, l.last().1);
        let p = partition_point(init, l.last().0);
        if p < init.len() {
            assert(bytes_lt(init[p].0, l.last().0)) by {
                assert(init[p] == l[p]);
            }
            assert(false);
        }
        assert(init.insert(init.len() as int, (l.last().0, l.last().1)) =~= l);
        lemma_bytes_lt_irreflexive(l.last().0);
    }
}

/// The model of owned dictionary entries.
pub open spec fn entries_view(v: Seq<(Vec<u8>, Vec<u8>)>) -> Seq<Entry> {
    v.map_values(|p: (Vec<u8>, Vec<u8>)| (p.0@, p.1@))
}

/// The model of owned byte strings.
pub open spec fn bytes_view(v: Seq<Vec<u8>>) -> Seq<Seq<u8>> {
    v.map_values(|b: Vec<u8>| b@)
}

/// Each byte string as a key with an empty value.
pub open spec fn set_pairs(es: Seq<Seq<u8>>) -> Seq<Entry> {
    es.map_values(|e: Seq<u8>| (e, Seq::<u8>::empty()))
}

/// `n`, or `usize::MAX` where `n` does not fit.
pub open spec fn saturate(n: nat) -> usize {
    if n <= usize::MAX {
        n as usize
    } else {
        usize::MAX
    }
}

proof fn lemma_entries_view_remove(v: Seq<(Vec<u8>, Vec<u8>)>, orig: Seq<Entry>, d: int)
    requires
        v.len() > 0,
        0 <= d < orig.len(),
        entries_view(v) == orig.skip(d),
    ensures
        entries_view(v.remove(0)) == orig.skip(d + 1),
        orig[d] == (v[0].0@, v[0].1@),
{
    assert(entries_view(v)[0] == orig.skip(d)[0]);
    assert(v.remove(0) =~= v.subrange(1, v.len() as int));
    assert(entries_view(v).len() == v.len());
    assert forall|j: int| 0 <= j < v.len() - 1 implies #[trigger] entries_view(v.remove(0))[j] == orig.skip(d + 1)[j] by {
        assert(v.remove(0)[j] == v[j + 1]);
        assert(entries_view(v)[j + 1] == orig.skip(d)[j + 1]);
    }
    assert(entries_view(v.remove(0)) =~= orig.skip(d + 1));
}

proof fn lemma_bytes_view_remove(v: Seq<Vec<u8>>, orig: Seq<Seq<u8>>, d: int)
    requires
        v.len() > 0,
        0 <= d < orig.len(),
        bytes_view(v) == orig.skip(d),
    ensures
        bytes_view(v.remove(0)) == orig.skip(d + 1),
        orig[d] == v[0]@,
{
    assert(bytes_view(v)[0] == orig.skip(d)[0]);
    assert(v.remove(0) =~= v.subrange(1, v.len() as int));
    assert(bytes_view(v).len() == v.len());
    assert forall|j: int| 0 <= j < v.len() - 1 implies #[trigger] bytes_view(v.remove(0))[j] == orig.skip(d + 1)[j] by {
        assert(v.remove(0)[j] == v[j + 1]);
        assert(bytes_view(v)[j + 1] == orig.skip(d)[j + 1]);
    }
    assert(bytes_view(v.remove(0)) =~= orig.skip(d + 1));
}

/// Sorts encoded dictionary entries by key, keeping the first entry of each
/// key, and sums the byte lengths of all keys and values (saturating).
pub fn dict_encoded_entries(entries: Vec<(Vec<u8>, Vec<u8>)>) -> (res: (usize, Vec<(Vec<u8>, Vec<u8>)>))
    ensures
        entries_view(res.1@) == sorted_entries(entries_view(entries@)),
        res.0 == saturate(total_len(entries_view(entries@))),
{
    let ghost orig = entries_view(entries@);
    let mut entries = entries;
    let mut pairs: Vec<(Vec<u8>, Vec<u8>)> = Vec::new();
    let mut total_bytes: usize = 0;
    proof {
        assert(orig.skip(0) =~= orig);
        assert(orig.take(0) =~= Seq::<Entry>::empty());
    }
    while entries.len() > 0
        invariant
            entries.len() <= orig.len(),
            entries_view(entries@) == orig.skip(orig.len() - entries.len()),
            entries_view(pairs@) == sorted_entries(orig.take(orig.len() - entries.len())),
            total_bytes == saturate(total_len(orig.take(orig.len() - entries.len()))),
        decreases entries.len(),
    {
        let ghost done: int = orig.len() - entries.len();
        let ghost l = entries_view(pairs@);
        proof {
            lemma_entries_view_remove(entries@, orig, done);
        }
        let (key, value) = entries.remove(0);
        proof {
            assert(orig.take(done + 1).drop_last() =~= orig.take(done));
            lemma_sorted_entries(orig.take(done));
            lemma_insert_entry(l, key@, value@);
        }
        total_bytes = total_bytes.saturating_add(key.len()).saturating_add(value.len());
        let mut pp: usize = 0;
        while pp < pairs.len() && bytes_less(pairs[pp].0.as_slice(), key.as_slice())
            invariant
                pp <= pairs.len(),
                l == entries_view(pairs@),
                forall|j: int| 0 <= j < pp ==> bytes_lt(#[trigger] l[j].0, key@),
            decreases pairs.len() - pp,
        {
            pp = pp + 1;
        }
        proof {
            let p = partition_point(l, key@);
            if (pp as int) < p {
                assert(bytes_lt(l[pp as int].0, key@));
            } else if p < (pp as int) {
                assert(bytes_lt(l[p].0, key@));
            }
        }
        if pp < pairs.len() && bytes_equal(pairs[pp].0.as_slice(), key.as_slice()) {
            // key already present; the first entry wins
        } else {
            pairs.insert(pp, (key, value));
            proof {
                assert(entries_view(pairs@) =~= l.insert(pp as int, (key@, value@)));
            }
        }
    }
    proof {
        assert(orig.take(orig.len() as int) =~= orig);
    }
    (total_bytes, pairs)
}

/// Sorts encoded set entries, dropping duplicates, and sums their byte
/// lengths (saturating).
pub fn set_encoded_entries(entries: Vec<Vec<u8>>) -> (res: (usize, Vec<Vec<u8>>))
    ensures
        bytes_view(res.1@) == sorted_set(bytes_view(entries@)),
        res.0 == saturate(total_len(set_pairs(bytes_view(entries@)))),
{
    let ghost orig = bytes_view(entries@);
    let mut entries = entries;
    let mut pairs: Vec<(Vec<u8>, Vec<u8>)> = Vec::new();
    while entries.len() > 0
        invariant
            entries.len() <= orig.len(),
            bytes_view(entries@) == orig.skip(orig.len() - entries.len()),
            entries_view(pairs@) == set_pairs(orig.take(orig.len() - entries.len())),
        decreases entries.len(),
    {
        let ghost done: int = orig.len() - entries.len();
        let ghost before = pairs@;
        proof {
            lemma_bytes_view_remove(entries@, orig, done);
        }
        let entry = entries.remove(0);
        pairs.push((entry, Vec::new()));
        proof {
            assert(entries_view(before).len() == before.len());
            assert(pairs@.len() == done + 1);
            assert forall|j: int| 0 <= j < done + 1 implies #[trigger] entries_view(pairs@)[j] == set_pairs(orig.take(done + 1))[j] by {
                if j < done {
                    assert(pairs@[j] == before[j]);
                    assert(entries_view(before)[j] == set_pairs(orig.take(done))[j]);
                }
            }
            assert(entries_view(pairs@) =~= set_pairs(orig.take(done + 1)));
        }
    }
    proof {
        assert(orig.take(orig.len() as int) =~= orig);
    }
    let (total_bytes, sorted_pairs) = dict_encoded_entries(pairs);
    let ghost sp = entries_view(sorted_pairs@);
    let mut sorted_pairs = sorted_pairs;
    let mut sorted: Vec<Vec<u8>> = Vec::new();
    while sorted_pairs.len() > 0
        invariant
            sorted_pairs.len() <= sp.len(),
            entries_view(sorted_pairs@) == sp.skip(sp.len() - sorted_pairs.len()),
            bytes_view(sorted@) == keys_of(sp.take(sp.len() - sorted_pairs.len())),
        decreases sorted_pairs.len(),
    {
        let ghost done: int = sp.len() - sorted_pairs.len();
        let ghost before = sorted@;
        proof {
            lemma_entries_view_remove(sorted_pairs@, sp, done);
        }
        let (key, _value) = sorted_pairs.remove(0);
        sorted.push(key);
        proof {
            let target = keys_of(sp.take(done + 1));
            assert(bytes_view(before).len() == before.len());
            assert(sorted@.len() == done + 1);
            assert forall|j: int| 0 <= j < done + 1 implies #[trigger] bytes_view(sorted@)[j] == target[j] by {
                if j < done {
                    assert(sorted@[j] == before[j]);
                    assert(bytes_view(before)[j] == keys_of(sp.take(done))[j]);
                }
            }
            assert(bytes_view(sorted@) =~= target);
        }
    }
    proof {
        assert(sp.take(sp.len() as int) =~= sp);
    }
    (total_bytes, sorted)
}

/// Writes `#`, the entries in order, then `$`, and returns how many bytes
/// were written.
pub fn encode_into_as_set(entries: &[Vec<u8>], w: &mut Vec<u8>) -> (res: usize)
    ensures
        final(w)@ == old(w)@ + seq![0x23u8] + concat(bytes_view(entries@)) + seq![0x24u8],
        res == concat(bytes_view(entries@)).len() + 2,
{
    let start = w.len();
    w.push(0x23u8);
    let mut i: usize = 0;
    while i < entries.len()
        invariant
            i <= entries@.len(),
            start == old(w)@.len(),
            w@ == old(w)@ + seq![0x23u8] + concat(bytes_view(entries@).take(i as int)),
        decreases entries@.len() - i,
    {
        write_all(w, entries[i].as_slice());
        proof {
            assert(bytes_view(entries@).take(i + 1).drop_last() =~= bytes_view(entries@).take(i as int));
        }
        i = i + 1;
    }
    w.push(0x24u8);
    proof {
        assert(bytes_view(entries@).take(i as int) =~= bytes_view(entries@));
    }
    w.len() - start
}

/// Writes `{`, each entry's key then value in order, then `}`, and returns
/// how many bytes were written.
pub fn encode_into_as_dict(entries: &Vec<(Vec<u8>, Vec<u8>)>, w: &mut Vec<u8>) -> (res: usize)
    ensures
        final(w)@ == old(w)@ + seq![0x7bu8] + concat_entries(entries_view(entries@)) + seq![0x7du8],
        res == concat_entries(entries_view(entries@)).len() + 2,
{
    let start = w.len();
    w.push(0x7bu8);
    let mut i: usize = 0;
    while i < entries.len()
        invariant
            i <= entries@.len(),
            start == old(w)@.len(),
            w@ == old(w)@ + seq![0x7bu8] + concat_entries(entries_view(entries@).take(i as int)),
        decreases entries@.len() - i,
    {
        write_all(w, entries[i].0.as_slice());
        write_all(w, entries[i].1.as_slice());
        proof {
            assert(entries_view(entries@).take(i + 1).drop_last() =~= entries_view(entries@).take(i as int));
        }
        i = i + 1;
    }
    w.push(0x7du8);
    proof {
        assert(entries_view(entries@).take(i as int) =~= entries_view(entries@));
    }
    w.len() - start
}

} // verus!
