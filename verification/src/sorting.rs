use vstd::prelude::*;
use vstd::relations::{sorted_by, strongly_connected, transitive};

verus! {

/// Inserts `x` into `s` directly before the first element that `x` may
/// precede, so that inserting into a sorted sequence keeps it sorted.
pub open spec fn insert_le<A>(leq: spec_fn(A, A) -> bool, s: Seq<A>, x: A) -> Seq<A>
    decreases s.len(),
{
    if s.len() == 0 {
        seq![x]
    } else if leq(x, s[0]) {
        seq![x] + s
    } else {
        seq![s[0]] + insert_le(leq, s.drop_first(), x)
    }
}

/// Insertion sort of a sequence under `leq`, taking elements left to right.
pub open spec fn isort_le<A>(leq: spec_fn(A, A) -> bool, s: Seq<A>) -> Seq<A>
    decreases s.len(),
{
    if s.len() == 0 {
        Seq::<A>::empty()
    } else {
        insert_le(leq, isort_le(leq, s.drop_last()), s.last())
    }
}

/// Where the first index `j` with `leq(x, s[j])` is known, the insertion is
/// exactly a splice at that index.
pub proof fn lemma_insert_le_at<A>(leq: spec_fn(A, A) -> bool, s: Seq<A>, x: A, j: int)
    requires
        0 <= j <= s.len(),
        forall|k: int| 0 <= k < j ==> !leq(x, s[k]),
        j < s.len() ==> leq(x, s[j]),
    ensures
        insert_le(leq, s, x) =~= s.take(j) + seq![x] + s.skip(j),
    decreases j,
{
    if j == 0 {
        assert(s.take(0) =~= Seq::<A>::empty());
        assert(s.skip(0) =~= s);
    } else {
        assert(!leq(x, s[0]));
        lemma_insert_le_at(leq, s.drop_first(), x, j - 1);
        assert(s.drop_first().take(j - 1) =~= s.take(j).drop_first());
        assert(s.drop_first().skip(j - 1) =~= s.skip(j));
        assert(seq![s[0]] + (s.drop_first().take(j - 1) + seq![x] + s.drop_first().skip(j - 1))
            =~= s.take(j) + seq![x] + s.skip(j));
    }
}

/// Every element of the insertion's result is `x` or an element of `s`.
proof fn lemma_insert_le_elems<A>(leq: spec_fn(A, A) -> bool, s: Seq<A>, x: A, i: int)
    requires
        0 <= i < insert_le(leq, s, x).len(),
    ensures
        insert_le(leq, s, x)[i] == x || s.contains(insert_le(leq, s, x)[i]),
    decreases s.len(),
{
    if s.len() == 0 {
    } else if leq(x, s[0]) {
    } else {
        if i > 0 {
            lemma_insert_le_elems(leq, s.drop_first(), x, i - 1);
            if s.drop_first().contains(insert_le(leq, s, x)[i]) {
                let w = choose|w: int|
                    0 <= w < s.drop_first().len() && s.drop_first()[w] == insert_le(leq, s, x)[i];
                assert(s[w + 1] == insert_le(leq, s, x)[i]);
            }
        }
    }
}

/// Inserting adds one occurrence of `x` and keeps all others.
pub proof fn lemma_insert_le_multiset<A>(leq: spec_fn(A, A) -> bool, s: Seq<A>, x: A)
    ensures
        insert_le(leq, s, x).to_multiset() =~= s.to_multiset().insert(x),
    decreases s.len(),
{
    broadcast use vstd::seq_lib::group_to_multiset_ensures;

    if s.len() == 0 {
        assert(seq![x] =~= Seq::<A>::empty().push(x));
    } else if leq(x, s[0]) {
        assert(seq![x] + s =~= s.insert(0, x));
    } else {
        lemma_insert_le_multiset(leq, s.drop_first(), x);
        assert(seq![s[0]] + insert_le(leq, s.drop_first(), x) =~= insert_le(
            leq,
            s.drop_first(),
            x,
        ).insert(0, s[0]));
        assert(s =~= s.drop_first().insert(0, s[0]));
    }
}

/// Inserting into a sorted sequence keeps it sorted, provided the order is
/// transitive and any two elements are comparable.
pub proof fn lemma_insert_le_sorted<A>(leq: spec_fn(A, A) -> bool, s: Seq<A>, x: A)
    requires
        sorted_by(s, leq),
        transitive(leq),
        strongly_connected(leq),
    ensures
        sorted_by(insert_le(leq, s, x), leq),
    decreases s.len(),
{
    let r = insert_le(leq, s, x);
    if s.len() == 0 {
    } else if leq(x, s[0]) {
        assert forall|i: int, j: int| 0 <= i < j < r.len() implies leq(r[i], r[j]) by {
            if i == 0 && j > 1 {
                assert(leq(x, s[0]));
                assert(leq(s[0], s[j - 1]));
            }
        }
    } else {
        lemma_insert_le_sorted(leq, s.drop_first(), x);
        let t = insert_le(leq, s.drop_first(), x);
        assert(leq(s[0], x));
        assert forall|i: int, j: int| 0 <= i < j < r.len() implies leq(r[i], r[j]) by {
            if i == 0 {
                lemma_insert_le_elems(leq, s.drop_first(), x, j - 1);
                if t[j - 1] == x {
                    assert(leq(s[0], x));
                } else {
                    let w = choose|w: int|
                        0 <= w < s.drop_first().len() && s.drop_first()[w] == t[j - 1];
                    assert(leq(s[0], s[w + 1]));
                }
            }
        }
    }
}

/// The sort is a permutation: no entry is gained or lost.
pub proof fn lemma_isort_le_permutes<A>(leq: spec_fn(A, A) -> bool, s: Seq<A>)
    ensures
        isort_le(leq, s).to_multiset() =~= s.to_multiset(),
    decreases s.len(),
{
    broadcast use vstd::seq_lib::group_to_multiset_ensures;

    if s.len() != 0 {
        lemma_isort_le_permutes(leq, s.drop_last());
        lemma_insert_le_multiset(leq, isort_le(leq, s.drop_last()), s.last());
        assert(s =~= s.drop_last().push(s.last()));
    }
}

/// The sort leaves the sequence ordered under `leq`.
pub proof fn lemma_isort_le_sorted<A>(leq: spec_fn(A, A) -> bool, s: Seq<A>)
    requires
        transitive(leq),
        strongly_connected(leq),
    ensures
        sorted_by(isort_le(leq, s), leq),
    decreases s.len(),
{
    if s.len() != 0 {
        lemma_isort_le_sorted(leq, s.drop_last());
        lemma_insert_le_sorted(leq, isort_le(leq, s.drop_last()), s.last());
    }
}

} // verus!
