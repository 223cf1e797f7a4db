//! What the parser gives back of an encoding.

use vstd::prelude::*;

use crate::de::cursor::{is_digit, CursorError};
use crate::de::lex::collection::{
    delimited_spec, dict_spec, encode_tree, encodings, lemma_encodings, lemma_pair_encodings,
    many_spec, pair_encodings, pairs_spec, record_spec, tree_spec, SpecTree,
};
use crate::de::lex::integer::lemma_decimal;
use crate::de::lex::literal::{
    encode_literal, lemma_literal_prefix, lemma_literal_rejects, lemma_literal_roundtrip,
    literal_spec, literal_wf, PRes, SpecLiteral,
};
use crate::de::lex::order::{
    concat, concat_entries, keys_of, keys_sorted, lemma_sorted_entries,
    lemma_sorted_entries_of_sorted, set_pairs, sorted_entries, sorted_set, Entry,
};

verus! {

/// A tree that its encoding can carry: every literal in it is `literal_wf`.
pub open spec fn tree_wf(t: SpecTree) -> bool
    decreases t,
{
    match t {
        SpecTree::Literal(l) => literal_wf(l),
        SpecTree::List(es) => trees_wf(es),
        SpecTree::Record(label, es) => tree_wf(*label) && trees_wf(es),
        SpecTree::SetOf(es) => trees_wf(es),
        SpecTree::Dictionary(ps) => pairs_wf(ps),
    }
}

/// Every tree of the sequence is `tree_wf`.
pub open spec fn trees_wf(es: Seq<SpecTree>) -> bool
    decreases es,
{
    if es.len() == 0 {
        true
    } else {
        trees_wf(es.subrange(0, es.len() - 1)) && tree_wf(es[es.len() - 1])
    }
}

/// Every key and value of the sequence is `tree_wf`.
pub open spec fn pairs_wf(ps: Seq<(SpecTree, SpecTree)>) -> bool
    decreases ps,
{
    if ps.len() == 0 {
        true
    } else {
        let last = ps[ps.len() - 1];
        proof {
            assert(decreases_to!(ps => ps[ps.len() - 1]));
        }
        pairs_wf(ps.subrange(0, ps.len() - 1)) && tree_wf(last.0) && tree_wf(last.1)
    }
}

/// The bytes are the encoding of some `tree_wf` tree.
pub open spec fn is_encoding(e: Seq<u8>) -> bool {
    exists|t: SpecTree| tree_wf(t) && encode_tree(t) == e
}

/// A byte that closes a collection.
pub open spec fn is_closing(b: u8) -> bool {
    b == 0x5d || b == 0x3e || b == 0x24 || b == 0x7d
}

proof fn lemma_trees_wf(es: Seq<SpecTree>)
    requires
        trees_wf(es),
    ensures
        forall|i: int| 0 <= i < es.len() ==> tree_wf(#[trigger] es[i]),
    decreases es.len(),
{
    if es.len() > 0 {
        let init = es.subrange(0, es.len() - 1);
        lemma_trees_wf(init);
        assert forall|i: int| 0 <= i < es.len() implies tree_wf(#[trigger] es[i]) by {
            if i < es.len() - 1 {
                assert(es[i] == init[i]);
            }
        }
    }
}

proof fn lemma_pairs_wf(ps: Seq<(SpecTree, SpecTree)>)
    requires
        pairs_wf(ps),
    ensures
        forall|i: int| 0 <= i < ps.len() ==> tree_wf(#[trigger] ps[i].0) && tree_wf(ps[i].1),
    decreases ps.len(),
{
    if ps.len() > 0 {
        let init = ps.subrange(0, ps.len() - 1);
        lemma_pairs_wf(init);
        assert forall|i: int| 0 <= i < ps.len() implies tree_wf(#[trigger] ps[i].0) && tree_wf(ps[i].1) by {
            if i < ps.len() - 1 {
                assert(ps[i] == init[i]);
            }
        }
    }
}

/// Every encoding has at least one byte.
proof fn lemma_encode_nonempty(t: SpecTree)
    ensures
        encode_tree(t).len() >= 1,
{
    match t {
        SpecTree::Literal(l) => match l {
            SpecLiteral::Int(i) => {},
            SpecLiteral::Bytes(b) => lemma_decimal(b.len()),
            SpecLiteral::String(b) => lemma_decimal(b.len()),
            SpecLiteral::Symbol(b) => lemma_decimal(b.len()),
            _ => {},
        },
        _ => {},
    }
}

proof fn lemma_concat_first(l: Seq<Seq<u8>>)
    requires
        l.len() > 0,
    ensures
        concat(l) == l[0] + concat(l.drop_first()),
    decreases l.len(),
{
    if l.len() == 1 {
        assert(l.drop_last() =~= Seq::<Seq<u8>>::empty());
        assert(l.drop_first() =~= Seq::<Seq<u8>>::empty());
        assert(concat(l.drop_last()) =~= Seq::<u8>::empty());
        assert(concat(l) =~= l[0]);
        assert(l[0] + concat(l.drop_first()) =~= l[0]);
    } else {
        lemma_concat_first(l.drop_last());
        assert(l.drop_last().drop_first() =~= l.drop_first().drop_last());
        assert(l.drop_first().last() == l.last());
        assert(l.drop_last()[0] == l[0]);
        assert(concat(l) =~= l[0] + concat(l.drop_first()));
    }
}

proof fn lemma_concat_entries_first(l: Seq<Entry>)
    requires
        l.len() > 0,
    ensures
        concat_entries(l) == l[0].0 + l[0].1 + concat_entries(l.drop_first()),
    decreases l.len(),
{
    if l.len() == 1 {
        assert(l.drop_last() =~= Seq::<Entry>::empty());
        assert(l.drop_first() =~= Seq::<Entry>::empty());
        assert(concat_entries(l.drop_last()) =~= Seq::<u8>::empty());
        assert(concat_entries(l) =~= l[0].0 + l[0].1);
        assert(l[0].0 + l[0].1 + concat_entries(l.drop_first()) =~= l[0].0 + l[0].1);
    } else {
        lemma_concat_entries_first(l.drop_last());
        assert(l.drop_last().drop_first() =~= l.drop_first().drop_last());
        assert(l.drop_first().last() == l.last());
        assert(l.drop_last()[0] == l[0]);
        assert(concat_entries(l) =~= l[0].0 + l[0].1 + concat_entries(l.drop_first()));
    }
}

/// A closing byte starts no tree.
proof fn lemma_closing_rejects(s: Seq<u8>)
    requires
        s.len() > 0,
        is_closing(s[0]),
    ensures
        tree_spec(s) == Err::<(Seq<u8>, SpecTree), CursorError>(CursorError::Error),
{
    lemma_literal_rejects(s);
}

/// Each member of a sorted set comes from the input.
proof fn lemma_sorted_set_members(x: Seq<Seq<u8>>)
    ensures
        forall|i: int| 0 <= i < sorted_set(x).len() ==> x.contains(#[trigger] sorted_set(x)[i]),
        forall|i: int| 0 <= i < sorted_entries(set_pairs(x)).len() ==> (#[trigger] sorted_entries(set_pairs(x))[i]).1 == Seq::<u8>::empty(),
{
    let p = sorted_entries(set_pairs(x));
    lemma_sorted_entries(set_pairs(x));
    assert forall|i: int| 0 <= i < p.len() implies #[trigger] p[i].1 == Seq::<u8>::empty() && x.contains(p[i].0) by {
        assert(p.contains(p[i]));
        let j = choose|j: int| 0 <= j < set_pairs(x).len() && set_pairs(x)[j] == p[i];
        assert(x[j] == p[i].0);
    }
    assert forall|i: int| 0 <= i < sorted_set(x).len() implies x.contains(#[trigger] sorted_set(x)[i]) by {
        assert(sorted_set(x)[i] == p[i].0);
        assert(p[i].1 == Seq::<u8>::empty());
    }
}

/// Sorting a sorted set changes nothing.
proof fn lemma_sorted_set_idempotent(x: Seq<Seq<u8>>)
    ensures
        sorted_set(sorted_set(x)) == sorted_set(x),
{
    let p = sorted_entries(set_pairs(x));
    lemma_sorted_set_members(x);
    lemma_sorted_entries(set_pairs(x));
    assert(set_pairs(keys_of(p)) =~= p) by {
        assert forall|i: int| 0 <= i < p.len() implies #[trigger] set_pairs(keys_of(p))[i] == p[i] by {
            assert(p[i].1 == Seq::<u8>::empty());
        }
    }
    lemma_sorted_entries_of_sorted(p);
}

/// Sorting sorted entries changes nothing.
proof fn lemma_sorted_entries_idempotent(l: Seq<Entry>)
    ensures
        sorted_entries(sorted_entries(l)) == sorted_entries(l),
{
    lemma_sorted_entries(l);
    lemma_sorted_entries_of_sorted(sorted_entries(l));
}

/// The encodings of one tree then more trees.
proof fn lemma_encodings_cons(u: SpecTree, us: Seq<SpecTree>)
    ensures
        encodings(seq![u] + us) == seq![encode_tree(u)] + encodings(us),
{
    lemma_encodings(seq![u] + us);
    lemma_encodings(us);
    assert forall|i: int| 0 <= i < us.len() + 1 implies #[trigger] encodings(seq![u] + us)[i] == (seq![encode_tree(u)] + encodings(us))[i] by {
        if i > 0 {
            assert((seq![u] + us)[i] == us[i - 1]);
        }
    }
    assert(encodings(seq![u] + us) =~= seq![encode_tree(u)] + encodings(us));
}

/// The encodings of one pair then more pairs.
proof fn lemma_pair_encodings_cons(p: (SpecTree, SpecTree), ps: Seq<(SpecTree, SpecTree)>)
    ensures
        pair_encodings(seq![p] + ps) == seq![(encode_tree(p.0), encode_tree(p.1))] + pair_encodings(ps),
{
    lemma_pair_encodings(seq![p] + ps);
    lemma_pair_encodings(ps);
    assert forall|i: int| 0 <= i < ps.len() + 1 implies #[trigger] pair_encodings(seq![p] + ps)[i] == (seq![(encode_tree(p.0), encode_tree(p.1))] + pair_encodings(ps))[i] by {
        if i > 0 {
            assert((seq![p] + ps)[i] == ps[i - 1]);
        }
    }
    assert(pair_encodings(seq![p] + ps) =~= seq![(encode_tree(p.0), encode_tree(p.1))] + pair_encodings(ps));
}

/// A run of encodings followed by a closing byte parses back to trees with
/// those encodings, and stops at the closing byte.
proof fn lemma_many_roundtrip(encs: Seq<Seq<u8>>, tail: Seq<u8>)
    requires
        forall|i: int| 0 <= i < encs.len() ==> is_encoding(#[trigger] encs[i]),
        tail.len() > 0,
        is_closing(tail[0]),
    ensures
        many_spec(concat(encs) + tail) matches Ok((r, us)) && r == tail && encodings(us) == encs,
    decreases concat(encs).len(), 2nat,
{
    if encs.len() == 0 {
        assert(concat(encs) + tail =~= tail);
        lemma_closing_rejects(tail);
        assert(encodings(Seq::<SpecTree>::empty()) =~= encs);
    } else {
        assert(is_encoding(encs[0]));
        let w = choose|t: SpecTree| tree_wf(t) && encode_tree(t) == encs[0];
        lemma_concat_first(encs);
        let x = concat(encs.drop_first()) + tail;
        assert(concat(encs) + tail =~= encs[0] + x);
        lemma_encode_nonempty(w);
        lemma_tree_roundtrip(w, x);
        let u0 = tree_spec(encs[0] + x)->Ok_0.1;
        assert forall|i: int| 0 <= i < encs.drop_first().len() implies is_encoding(#[trigger] encs.drop_first()[i]) by {
            assert(encs.drop_first()[i] == encs[i + 1]);
        }
        lemma_many_roundtrip(encs.drop_first(), tail);
        let us = many_spec(x)->Ok_0.1;
        lemma_encodings_cons(u0, us);
        assert(seq![encs[0]] + encs.drop_first() =~= encs);
    }
}

/// A run of encoded pairs followed by `}` parses back to pairs with those
/// encodings, and stops at the closing byte.
proof fn lemma_pairs_roundtrip(entries: Seq<Entry>, tail: Seq<u8>)
    requires
        forall|i: int| 0 <= i < entries.len() ==> is_encoding(#[trigger] entries[i].0) && is_encoding(entries[i].1),
        tail.len() > 0,
        is_closing(tail[0]),
    ensures
        pairs_spec(concat_entries(entries) + tail) matches Ok((r, ps)) && r == tail && pair_encodings(ps) == entries,
    decreases concat_entries(entries).len(), 2nat,
{
    if entries.len() == 0 {
        assert(concat_entries(entries) + tail =~= tail);
        lemma_closing_rejects(tail);
        assert(pair_encodings(Seq::<(SpecTree, SpecTree)>::empty()) =~= entries);
    } else {
        let k = entries[0].0;
        let v = entries[0].1;
        assert(is_encoding(k) && is_encoding(v));
        let wk = choose|t: SpecTree| tree_wf(t) && encode_tree(t) == k;
        let wv = choose|t: SpecTree| tree_wf(t) && encode_tree(t) == v;
        lemma_concat_entries_first(entries);
        let x = concat_entries(entries.drop_first()) + tail;
        assert(concat_entries(entries) + tail =~= k + (v + x));
        lemma_encode_nonempty(wk);
        lemma_encode_nonempty(wv);
        lemma_tree_roundtrip(wk, v + x);
        lemma_tree_roundtrip(wv, x);
        let uk = tree_spec(k + (v + x))->Ok_0.1;
        let uv = tree_spec(v + x)->Ok_0.1;
        assert forall|i: int| 0 <= i < entries.drop_first().len() implies is_encoding(#[trigger] entries.drop_first()[i].0) && is_encoding(entries.drop_first()[i].1) by {
            assert(entries.drop_first()[i] == entries[i + 1]);
        }
        lemma_pairs_roundtrip(entries.drop_first(), tail);
        let ps = pairs_spec(x)->Ok_0.1;
        lemma_pair_encodings_cons((uk, uv), ps);
        assert(seq![entries[0]] + entries.drop_first() =~= entries);
    }
}

/// A `tree_wf` tree's encoding, followed by any bytes, parses back to a tree
/// with the same encoding, and leaves exactly the bytes that followed.
proof fn lemma_tree_roundtrip(t: SpecTree, s: Seq<u8>)
    requires
        tree_wf(t),
    ensures
        tree_spec(encode_tree(t) + s) matches Ok((r, u)) && r == s && encode_tree(u) == encode_tree(t),
    decreases encode_tree(t).len(), 1nat,
{
    let e = encode_tree(t) + s;
    match t {
        SpecTree::Literal(l) => {
            lemma_literal_roundtrip(l, s);
        },
        SpecTree::List(es) => {
            let encs = encodings(es);
            let tail = seq![0x5du8] + s;
            lemma_literal_rejects(e);
            lemma_trees_wf(es);
            lemma_encodings(es);
            assert forall|i: int| 0 <= i < encs.len() implies is_encoding(#[trigger] encs[i]) by {
                assert(tree_wf(es[i]) && encode_tree(es[i]) == encs[i]);
            }
            assert(e.drop_first() =~= concat(encs) + tail);
            lemma_many_roundtrip(encs, tail);
            assert(tail.drop_first() =~= s);
        },
        SpecTree::Record(label, es) => {
            let encs = encodings(es);
            let tail = seq![0x3eu8] + s;
            let x = concat(encs) + tail;
            lemma_literal_rejects(e);
            lemma_trees_wf(es);
            lemma_encodings(es);
            assert forall|i: int| 0 <= i < encs.len() implies is_encoding(#[trigger] encs[i]) by {
                assert(tree_wf(es[i]) && encode_tree(es[i]) == encs[i]);
            }
            assert(e.drop_first() =~= encode_tree(*label) + x);
            lemma_tree_roundtrip(*label, x);
            lemma_many_roundtrip(encs, tail);
            assert(tail.drop_first() =~= s);
        },
        SpecTree::SetOf(es) => {
            let x = encodings(es);
            let encs = sorted_set(x);
            let tail = seq![0x24u8] + s;
            lemma_literal_rejects(e);
            lemma_trees_wf(es);
            lemma_encodings(es);
            lemma_sorted_set_members(x);
            assert forall|i: int| 0 <= i < encs.len() implies is_encoding(#[trigger] encs[i]) by {
                assert(x.contains(encs[i]));
                let j = choose|j: int| 0 <= j < x.len() && x[j] == encs[i];
                assert(tree_wf(es[j]) && encode_tree(es[j]) == encs[i]);
            }
            assert(e.drop_first() =~= concat(encs) + tail);
            lemma_many_roundtrip(encs, tail);
            assert(tail.drop_first() =~= s);
            lemma_sorted_set_idempotent(x);
        },
        SpecTree::Dictionary(ps) => {
            let x = pair_encodings(ps);
            let entries = sorted_entries(x);
            let tail = seq![0x7du8] + s;
            lemma_literal_rejects(e);
            lemma_pairs_wf(ps);
            lemma_pair_encodings(ps);
            lemma_sorted_entries(x);
            assert forall|i: int| 0 <= i < entries.len() implies is_encoding(#[trigger] entries[i].0) && is_encoding(entries[i].1) by {
                assert(entries.contains(entries[i]));
                let j = choose|j: int| 0 <= j < x.len() && x[j] == entries[i];
                assert(tree_wf(ps[j].0) && encode_tree(ps[j].0) == entries[i].0);
                assert(tree_wf(ps[j].1) && encode_tree(ps[j].1) == entries[i].1);
            }
            assert(e.drop_first() =~= concat_entries(entries) + tail);
            lemma_pairs_roundtrip(entries, tail);
            assert(tail.drop_first() =~= s);
            lemma_sorted_entries_idempotent(x);
        },
    }
}

/// Decoding what was encoded: the encoding of a tree whose literals its
/// encoding can carry, followed by any bytes, lexes to a tree with the same
/// encoding, and exactly the bytes that followed are left.
pub proof fn lemma_parse_encode(t: SpecTree, s: Seq<u8>)
    requires
        tree_wf(t),
    ensures
        tree_spec(encode_tree(t) + s) matches Ok((r, u)) && r == s && encode_tree(u) == encode_tree(t),
{
    lemma_tree_roundtrip(t, s);
}

/// The result asks for more input.
pub open spec fn is_incomplete<T>(r: PRes<T>) -> bool {
    r is Err && r->Err_0 is Incomplete
}

/// A prefix of a run of encodings needs more input.
proof fn lemma_many_prefix(encs: Seq<Seq<u8>>, q: Seq<u8>)
    requires
        forall|i: int| 0 <= i < encs.len() ==> is_encoding(#[trigger] encs[i]),
        q.len() <= concat(encs).len(),
        q == concat(encs).take(q.len() as int),
    ensures
        is_incomplete(many_spec(q)),
    decreases concat(encs).len(), 2nat,
{
    if encs.len() == 0 {
        assert(q.len() == 0);
    } else {
        assert(is_encoding(encs[0]));
        let w = choose|t: SpecTree| tree_wf(t) && encode_tree(t) == encs[0];
        lemma_concat_first(encs);
        let e0 = encs[0];
        let rest = encs.drop_first();
        lemma_encode_nonempty(w);
        if q.len() < e0.len() {
            assert(q =~= e0.take(q.len() as int));
            lemma_tree_prefix(w, q.len() as int);
            assert(is_incomplete(tree_spec(q)));
        } else {
            let q2 = q.skip(e0.len() as int);
            assert(q =~= e0 + q2);
            assert(q2 =~= concat(rest).take(q2.len() as int));
            lemma_tree_roundtrip(w, q2);
            assert forall|i: int| 0 <= i < rest.len() implies is_encoding(#[trigger] rest[i]) by {
                assert(rest[i] == encs[i + 1]);
            }
            lemma_many_prefix(rest, q2);
            assert(tree_spec(q) matches Ok((r, _)) && r == q2);
            assert(q2.len() < q.len());
            assert(is_incomplete(many_spec(q2)));
        }
    }
}

/// A prefix of a run of encoded pairs needs more input.
proof fn lemma_pairs_prefix(entries: Seq<Entry>, q: Seq<u8>)
    requires
        forall|i: int| 0 <= i < entries.len() ==> is_encoding(#[trigger] entries[i].0) && is_encoding(entries[i].1),
        q.len() <= concat_entries(entries).len(),
        q == concat_entries(entries).take(q.len() as int),
    ensures
        is_incomplete(pairs_spec(q)),
    decreases concat_entries(entries).len(), 2nat,
{
    if entries.len() == 0 {
        assert(q.len() == 0);
    } else {
        let k = entries[0].0;
        let v = entries[0].1;
        assert(is_encoding(k) && is_encoding(v));
        let wk = choose|t: SpecTree| tree_wf(t) && encode_tree(t) == k;
        let wv = choose|t: SpecTree| tree_wf(t) && encode_tree(t) == v;
        lemma_concat_entries_first(entries);
        let rest = entries.drop_first();
        lemma_encode_nonempty(wk);
        lemma_encode_nonempty(wv);
        if q.len() < k.len() {
            assert(q =~= k.take(q.len() as int));
            lemma_tree_prefix(wk, q.len() as int);
            assert(is_incomplete(tree_spec(q)));
        } else if q.len() < k.len() + v.len() {
            let q1 = q.skip(k.len() as int);
            assert(q =~= k + q1);
            assert(q1 =~= v.take(q1.len() as int));
            lemma_tree_roundtrip(wk, q1);
            lemma_tree_prefix(wv, q1.len() as int);
            assert(is_incomplete(tree_spec(q1)));
            assert(tree_spec(q) matches Ok((r, _)) && r == q1);
        } else {
            let q1 = q.skip(k.len() as int);
            let q2 = q1.skip(v.len() as int);
            assert(q =~= k + q1);
            assert(q1 =~= v + q2);
            assert(q2 =~= concat_entries(rest).take(q2.len() as int));
            lemma_tree_roundtrip(wk, q1);
            lemma_tree_roundtrip(wv, q2);
            assert forall|i: int| 0 <= i < rest.len() implies is_encoding(#[trigger] rest[i].0) && is_encoding(rest[i].1) by {
                assert(rest[i] == entries[i + 1]);
            }
            lemma_pairs_prefix(rest, q2);
        }
    }
}

/// Every proper prefix of a `tree_wf` tree's encoding needs more input.
proof fn lemma_tree_prefix(t: SpecTree, k: int)
    requires
        tree_wf(t),
        0 <= k < encode_tree(t).len(),
    ensures
        is_incomplete(tree_spec(encode_tree(t).take(k))),
    decreases encode_tree(t).len(), 1nat,
{
    let e = encode_tree(t);
    let p = e.take(k);
    if k == 0 {
        return;
    }
    match t {
        SpecTree::Literal(l) => {
            lemma_literal_prefix(l, k);
        },
        SpecTree::List(es) => {
            let encs = encodings(es);
            lemma_literal_rejects(p);
            lemma_trees_wf(es);
            lemma_encodings(es);
            assert forall|i: int| 0 <= i < encs.len() implies is_encoding(#[trigger] encs[i]) by {
                assert(tree_wf(es[i]) && encode_tree(es[i]) == encs[i]);
            }
            assert(p.drop_first() =~= concat(encs).take(k - 1));
            lemma_many_prefix(encs, p.drop_first());
        },
        SpecTree::Record(label, es) => {
            let encs = encodings(es);
            let le = encode_tree(*label);
            lemma_literal_rejects(p);
            lemma_trees_wf(es);
            lemma_encodings(es);
            assert forall|i: int| 0 <= i < encs.len() implies is_encoding(#[trigger] encs[i]) by {
                assert(tree_wf(es[i]) && encode_tree(es[i]) == encs[i]);
            }
            if k - 1 < le.len() {
                assert(p.drop_first() =~= le.take(k - 1));
                lemma_tree_prefix(*label, k - 1);
            } else {
                let q = concat(encs).take(k - 1 - le.len());
                assert(p.drop_first() =~= le + q);
                lemma_tree_roundtrip(*label, q);
                lemma_many_prefix(encs, q);
            }
        },
        SpecTree::SetOf(es) => {
            let x = encodings(es);
            let encs = sorted_set(x);
            lemma_literal_rejects(p);
            lemma_trees_wf(es);
            lemma_encodings(es);
            lemma_sorted_set_members(x);
            assert forall|i: int| 0 <= i < encs.len() implies is_encoding(#[trigger] encs[i]) by {
                assert(x.contains(encs[i]));
                let j = choose|j: int| 0 <= j < x.len() && x[j] == encs[i];
                assert(tree_wf(es[j]) && encode_tree(es[j]) == encs[i]);
            }
            assert(p.drop_first() =~= concat(encs).take(k - 1));
            lemma_many_prefix(encs, p.drop_first());
        },
        SpecTree::Dictionary(ps) => {
            let x = pair_encodings(ps);
            let entries = sorted_entries(x);
            lemma_literal_rejects(p);
            lemma_pairs_wf(ps);
            lemma_pair_encodings(ps);
            lemma_sorted_entries(x);
            assert forall|i: int| 0 <= i < entries.len() implies is_encoding(#[trigger] entries[i].0) && is_encoding(entries[i].1) by {
                assert(entries.contains(entries[i]));
                let j = choose|j: int| 0 <= j < x.len() && x[j] == entries[i];
                assert(tree_wf(ps[j].0) && encode_tree(ps[j].0) == entries[i].0);
                assert(tree_wf(ps[j].1) && encode_tree(ps[j].1) == entries[i].1);
            }
            assert(p.drop_first() =~= concat_entries(entries).take(k - 1));
            lemma_pairs_prefix(entries, p.drop_first());
        },
    }
}

/// Streaming: every proper prefix of the encoding of a tree whose literals
/// its encoding can carry asks for more input, so a reader never takes a
/// partly received tree for a whole one.
pub proof fn lemma_prefix_incomplete(t: SpecTree, k: int)
    requires
        tree_wf(t),
        0 <= k < encode_tree(t).len(),
    ensures
        is_incomplete(tree_spec(encode_tree(t).take(k))),
{
    lemma_tree_prefix(t, k);
}

} // verus!
