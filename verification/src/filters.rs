//! Facts about filtered sequences that the rest of the library builds on.

use vstd::prelude::*;
use vstd::multiset::group_multiset_axioms;
use vstd::seq_lib::to_multiset_build;

verus! {

/// A filter that every element passes changes nothing.
pub proof fn lemma_filter_keeps_all<A>(s: Seq<A>, pred: spec_fn(A) -> bool)
    requires
        forall|i: int| 0 <= i < s.len() ==> pred(#[trigger] s[i]),
    ensures
        s.filter(pred) == s,
    decreases s.len(),
{
    if s.len() == 0 {
        s.lemma_filter_len(pred);
    } else {
        let rest = s.drop_last();
        lemma_filter_keeps_all(rest, pred);
        rest.lemma_filter_push(s.last(), pred);
        assert(rest.push(s.last()) == s);
    }
}

/// A filter that no element passes leaves nothing.
pub proof fn lemma_filter_keeps_none<A>(s: Seq<A>, pred: spec_fn(A) -> bool)
    requires
        forall|i: int| 0 <= i < s.len() ==> !pred(#[trigger] s[i]),
    ensures
        s.filter(pred) == Seq::<A>::empty(),
    decreases s.len(),
{
    if s.len() == 0 {
        s.lemma_filter_len(pred);
    } else {
        let rest = s.drop_last();
        lemma_filter_keeps_none(rest, pred);
        rest.lemma_filter_push(s.last(), pred);
        assert(rest.push(s.last()) == s);
    }
}

/// A filter keeps every occurrence of a value that passes it and none of a
/// value that does not.
pub proof fn lemma_filter_count<A>(s: Seq<A>, pred: spec_fn(A) -> bool, value: A)
    ensures
        s.filter(pred).to_multiset().count(value) == if pred(value) {
            s.to_multiset().count(value)
        } else {
            0
        },
    decreases s.len(),
{
    broadcast use group_multiset_axioms;

    if s.len() == 0 {
        s.lemma_filter_len(pred);
        assert(s.filter(pred) == s);
        s.to_multiset_ensures();
        assert(s.to_multiset().len() == 0);
        if s.to_multiset().count(value) > 0 {
            assert(s.contains(value));
        }
    } else {
        let rest = s.drop_last();
        let last = s.last();
        lemma_filter_count(rest, pred, value);
        rest.lemma_filter_push(last, pred);
        assert(rest.push(last) == s);
        to_multiset_build(rest, last);
        if pred(last) {
            to_multiset_build(rest.filter(pred), last);
        }
    }
}

/// Two filters of which every element passes exactly one split a sequence:
/// each element lands in one part, as often as it occurred.
pub proof fn lemma_filter_split<A>(s: Seq<A>, pred: spec_fn(A) -> bool, other: spec_fn(A) -> bool)
    requires
        forall|a: A| #[trigger] pred(a) != other(a),
    ensures
        s.filter(pred).len() + s.filter(other).len() == s.len(),
        s.filter(pred).to_multiset().add(s.filter(other).to_multiset()) == s.to_multiset(),
{
    broadcast use group_multiset_axioms;

    let parts = s.filter(pred).to_multiset().add(s.filter(other).to_multiset());
    assert forall|a: A| parts.count(a) == s.to_multiset().count(a) by {
        lemma_filter_count(s, pred, a);
        lemma_filter_count(s, other, a);
        assert(pred(a) != other(a));
    }
    assert(parts =~= s.to_multiset());
    s.to_multiset_ensures();
    s.filter(pred).to_multiset_ensures();
    s.filter(other).to_multiset_ensures();
}

} // verus!
