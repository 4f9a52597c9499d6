//! Facts about filtered sequences that the rest of the crate builds on.

use vstd::prelude::*;

verus! {

/// A filter never lengthens a sequence, and it keeps the whole sequence
/// exactly when every element passes.
pub proof fn lemma_filter_keeps_all<A>(s: Seq<A>, pred: spec_fn(A) -> bool)
    ensures
        s.filter(pred).len() <= s.len(),
        s.filter(pred).len() == s.len() <==> forall|i: int| 0 <= i < s.len() ==> pred(#[trigger] s[i]),
        s.filter(pred).len() == s.len() ==> s.filter(pred) == s,
    decreases s.len(),
{
    reveal(Seq::filter);
    if s.len() > 0 {
        let rest = s.drop_last();
        lemma_filter_keeps_all(rest, pred);
        if rest.filter(pred).len() == rest.len() && pred(s.last()) {
            assert(rest.push(s.last()) =~= s);
            assert forall|i: int| 0 <= i < s.len() implies pred(#[trigger] s[i]) by {
                if i < rest.len() {
                    assert(rest[i] == s[i]);
                }
            }
        } else if !pred(s.last()) {
            assert(!pred(s[s.len() - 1]));
        } else {
            let i = choose|i: int| 0 <= i < rest.len() && !pred(#[trigger] rest[i]);
            assert(!pred(s[i]));
        }
    }
}

/// A filter keeps exactly the elements that pass: what it keeps passes and
/// comes from the sequence, and every element of the sequence that passes
/// is kept.
pub proof fn lemma_filter_members<A>(s: Seq<A>, pred: spec_fn(A) -> bool)
    ensures
        forall|j: int|
            0 <= j < s.filter(pred).len() ==> pred(#[trigger] s.filter(pred)[j]) && s.contains(
                s.filter(pred)[j],
            ),
        forall|i: int| 0 <= i < s.len() && pred(s[i]) ==> s.filter(pred).contains(#[trigger] s[i]),
    decreases s.len(),
{
    reveal(Seq::filter);
    if s.len() > 0 {
        let rest = s.drop_last();
        let kept = rest.filter(pred);
        lemma_filter_members(rest, pred);
        assert forall|j: int| 0 <= j < s.filter(pred).len() implies pred(#[trigger] s.filter(pred)[j])
            && s.contains(s.filter(pred)[j]) by {
            if j < kept.len() {
                let e = kept[j];
                assert(rest.contains(e));
                let i = choose|i: int| 0 <= i < rest.len() && rest[i] == e;
                assert(s[i] == e);
            } else {
                assert(s[s.len() - 1] == s.last());
            }
        }
        assert forall|i: int| 0 <= i < s.len() && pred(s[i]) implies s.filter(pred).contains(
            #[trigger] s[i],
        ) by {
            if i < rest.len() {
                assert(rest[i] == s[i]);
                assert(kept.contains(rest[i]));
                let j = choose|j: int| 0 <= j < kept.len() && kept[j] == s[i];
                assert(s.filter(pred)[j] == s[i]);
            } else {
                assert(s.filter(pred)[kept.len() as int] == s[i]);
            }
        }
    }
}

/// Two predicates that agree on every element of a sequence keep the same
/// elements of it.
pub proof fn lemma_filter_same<A>(s: Seq<A>, p: spec_fn(A) -> bool, q: spec_fn(A) -> bool)
    requires
        forall|i: int| 0 <= i < s.len() ==> p(#[trigger] s[i]) == q(s[i]),
    ensures
        s.filter(p) == s.filter(q),
    decreases s.len(),
{
    reveal(Seq::filter);
    if s.len() > 0 {
        let rest = s.drop_last();
        assert forall|i: int| 0 <= i < rest.len() implies p(#[trigger] rest[i]) == q(rest[i]) by {
            assert(rest[i] == s[i]);
        }
        lemma_filter_same(rest, p, q);
        assert(p(s[s.len() - 1]) == q(s[s.len() - 1]));
    }
}

/// Filtering by `p` and then by `q` keeps what passes both.
pub proof fn lemma_filter_twice<A>(
    s: Seq<A>,
    p: spec_fn(A) -> bool,
    q: spec_fn(A) -> bool,
    both: spec_fn(A) -> bool,
)
    requires
        forall|i: int| 0 <= i < s.len() ==> both(#[trigger] s[i]) == (p(s[i]) && q(s[i])),
    ensures
        s.filter(p).filter(q) == s.filter(both),
    decreases s.len(),
{
    reveal(Seq::filter);
    if s.len() > 0 {
        let rest = s.drop_last();
        assert forall|i: int| 0 <= i < rest.len() implies both(#[trigger] rest[i]) == (p(rest[i]) && q(
            rest[i],
        )) by {
            assert(rest[i] == s[i]);
        }
        lemma_filter_twice(rest, p, q, both);
        assert(both(s[s.len() - 1]) == (p(s.last()) && q(s.last())));
        if p(s.last()) {
            rest.filter(p).lemma_filter_push(s.last(), q);
        }
    }
}

/// A filter of a sequence without duplicates has no duplicates.
pub proof fn lemma_filter_no_duplicates<A>(s: Seq<A>, pred: spec_fn(A) -> bool)
    requires
        s.no_duplicates(),
    ensures
        s.filter(pred).no_duplicates(),
    decreases s.len(),
{
    reveal(Seq::filter);
    if s.len() > 0 {
        let rest = s.drop_last();
        let kept = rest.filter(pred);
        assert forall|i: int, j: int| 0 <= i < rest.len() && 0 <= j < rest.len() && i != j implies rest[i]
            != rest[j] by {
            assert(rest[i] == s[i] && rest[j] == s[j]);
        }
        lemma_filter_no_duplicates(rest, pred);
        lemma_filter_members(rest, pred);
        if pred(s.last()) {
            assert forall|j: int| 0 <= j < kept.len() implies kept[j] != s.last() by {
                assert(rest.contains(kept[j]));
                let i = choose|i: int| 0 <= i < rest.len() && rest[i] == kept[j];
                assert(s[i] != s[s.len() - 1]);
            }
        }
    }
}

/// Where `pred` holds of everything but `a`, filtering a sequence without
/// duplicates that contains `a` shortens it by exactly one.
pub proof fn lemma_filter_drops_one<A>(s: Seq<A>, pred: spec_fn(A) -> bool, a: A)
    requires
        s.no_duplicates(),
        s.contains(a),
        forall|b: A| #[trigger] pred(b) == (b != a),
    ensures
        s.filter(pred).len() + 1 == s.len(),
    decreases s.len(),
{
    reveal(Seq::filter);
    let rest = s.drop_last();
    assert forall|i: int, j: int| 0 <= i < rest.len() && 0 <= j < rest.len() && i != j implies rest[i]
        != rest[j] by {
        assert(rest[i] == s[i] && rest[j] == s[j]);
    }
    if s.last() == a {
        assert forall|i: int| 0 <= i < rest.len() implies pred(#[trigger] rest[i]) by {
            assert(s[i] != s[s.len() - 1]);
        }
        lemma_filter_keeps_all(rest, pred);
    } else {
        let i = choose|i: int| 0 <= i < s.len() && s[i] == a;
        assert(rest[i] == a);
        lemma_filter_drops_one(rest, pred, a);
    }
}

} // verus!
