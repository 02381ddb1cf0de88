//! Sorting of plan records by the sort order of `PlanView::rank`.

use vstd::prelude::*;
use crate::order::Rank;
use crate::parse::views;
use crate::plan::{lemma_rank_consistent, lemma_rank_flip, lemma_rank_same_is_tie, PlanRecord, PlanView};

verus! {

/// No record of `s` sorts after a later one.
pub open spec fn is_sorted(s: Seq<PlanView>) -> bool {
    forall|i: int, j: int| 0 <= i < j < s.len() ==> s[i].rank(s[j]) != Rank::After
}

/// Every record of `s` is well-formed.
pub open spec fn all_wf(s: Seq<PlanView>) -> bool {
    forall|i: int| 0 <= i < s.len() ==> (#[trigger] s[i]).wf()
}

/// The test "agrees with `x` in every key of the sort order".
pub open spec fn tie_of(x: PlanView) -> spec_fn(PlanView) -> bool {
    |p: PlanView| p.ties_with(x)
}

/// Records that agree in every key of the sort order stand in `after` in the
/// order in which they stand in `before`, and each as often: for every
/// well-formed `x`, the records that tie with `x` are the same sequence.
pub open spec fn keeps_ties_in_order(before: Seq<PlanView>, after: Seq<PlanView>) -> bool {
    forall|x: PlanView| x.wf() ==> #[trigger] after.filter(tie_of(x)) == before.filter(tie_of(x))
}

/// `after` is `before` sorted stably: sorted, with the same records as often,
/// and ties left in their order.
pub open spec fn is_stable_sort_of(after: Seq<PlanView>, before: Seq<PlanView>) -> bool {
    &&& is_sorted(after)
    &&& after.to_multiset() == before.to_multiset()
    &&& keeps_ties_in_order(before, after)
}

/// Filtering a sequence that has no record passing the test leaves nothing.
proof fn lemma_filter_none(s: Seq<PlanView>, pred: spec_fn(PlanView) -> bool)
    requires
        forall|i: int| 0 <= i < s.len() ==> !pred(#[trigger] s[i]),
    ensures
        s.filter(pred) == Seq::<PlanView>::empty(),
    decreases s.len(),
{
    reveal(Seq::filter);
    if s.len() > 0 {
        assert forall|i: int| 0 <= i < s.drop_last().len() implies !pred(
            #[trigger] s.drop_last()[i],
        ) by {
            assert(s.drop_last()[i] == s[i]);
        }
        lemma_filter_none(s.drop_last(), pred);
    } else {
        assert(s =~= Seq::<PlanView>::empty());
    }
}

/// Filtering a single record keeps it exactly when it passes the test.
proof fn lemma_filter_one(x: PlanView, pred: spec_fn(PlanView) -> bool)
    ensures
        seq![x].filter(pred) == if pred(x) {
            seq![x]
        } else {
            Seq::<PlanView>::empty()
        },
{
    reveal(Seq::filter);
    let one = seq![x];
    assert(one.drop_last() =~= Seq::<PlanView>::empty());
    lemma_filter_none(one.drop_last(), pred);
    assert(one.last() == x);
    assert(Seq::<PlanView>::empty().push(x) =~= one);
}

/// Putting `x` in front of the first record of a sorted `s` that does not
/// sort before it keeps `s` sorted and leaves ties in their order, `x` ahead
/// of the records it ties with.
proof fn lemma_insert_keeps_order(s: Seq<PlanView>, k: int, x: PlanView)
    requires
        is_sorted(s),
        all_wf(s),
        x.wf(),
        0 <= k <= s.len(),
        forall|j: int| 0 <= j < k ==> (#[trigger] s[j]).rank(x) == Rank::Before,
        k < s.len() ==> s[k].rank(x) != Rank::Before,
    ensures
        is_sorted(s.insert(k, x)),
        forall|y: PlanView|
            y.wf() ==> #[trigger] s.insert(k, x).filter(tie_of(y)) == (seq![x] + s).filter(
                tie_of(y),
            ),
{
    let t = s.insert(k, x);
    assert forall|j: int| k <= j < s.len() implies x.rank(#[trigger] s[j]) != Rank::After by {
        lemma_rank_flip(s[k], x);
        if j > k {
            lemma_rank_consistent(x, s[k], s[j]);
        }
    }
    assert forall|i: int, j: int| 0 <= i < j < t.len() implies t[i].rank(t[j]) != Rank::After by {
        if j < k {
            assert(t[i] == s[i] && t[j] == s[j]);
        } else if j == k {
            assert(t[i] == s[i]);
        } else if i < k {
            assert(t[i] == s[i] && t[j] == s[j - 1]);
            lemma_rank_consistent(s[i], x, s[j - 1]);
        } else if i == k {
            assert(t[j] == s[j - 1]);
        } else {
            assert(t[i] == s[i - 1] && t[j] == s[j - 1]);
        }
    }
    let head = s.take(k);
    let tail = s.skip(k);
    assert(t =~= head + (seq![x] + tail));
    assert(s =~= head + tail);
    assert forall|y: PlanView| y.wf() implies #[trigger] t.filter(tie_of(y)) == (seq![x]
        + s).filter(tie_of(y)) by {
        let pred = tie_of(y);
        Seq::filter_distributes_over_add(head, seq![x] + tail, pred);
        Seq::filter_distributes_over_add(seq![x], tail, pred);
        Seq::filter_distributes_over_add(head, tail, pred);
        Seq::filter_distributes_over_add(seq![x], s, pred);
        if pred(x) {
            assert forall|j: int| 0 <= j < head.len() implies !pred(#[trigger] head[j]) by {
                let e = head[j];
                assert(s[j].rank(x) == Rank::Before);
                lemma_rank_same_is_tie(e, y);
                lemma_rank_same_is_tie(x, y);
                lemma_rank_flip(x, y);
                lemma_rank_consistent(e, y, x);
            }
            lemma_filter_none(head, pred);
            assert(t.filter(pred) =~= seq![x].filter(pred) + tail.filter(pred));
            assert((seq![x] + s).filter(pred) =~= seq![x].filter(pred) + tail.filter(pred));
        } else {
            lemma_filter_one(x, pred);
            assert(t.filter(pred) =~= head.filter(pred) + tail.filter(pred));
            assert((seq![x] + s).filter(pred) =~= head.filter(pred) + tail.filter(pred));
        }
    }
}

/// Two sorted sequences of well-formed records that hold the same records as
/// often, and the records of every tie in the same order, are equal.
proof fn lemma_sorted_alike_are_equal(a: Seq<PlanView>, b: Seq<PlanView>)
    requires
        all_wf(a),
        all_wf(b),
        is_sorted(a),
        is_sorted(b),
        a.to_multiset() == b.to_multiset(),
        forall|y: PlanView| y.wf() ==> #[trigger] a.filter(tie_of(y)) == b.filter(tie_of(y)),
    ensures
        a == b,
    decreases a.len(),
{
    broadcast use vstd::multiset::group_multiset_axioms;

    vstd::seq_lib::to_multiset_len(a);
    vstd::seq_lib::to_multiset_len(b);
    if a.len() == 0 {
        assert(a =~= b);
    } else {
        let x = a.last();
        let y = b.last();
        let shorter_a = a.drop_last();
        let shorter_b = b.drop_last();
        assert(a.contains(x));
        assert(b.contains(y));
        vstd::seq_lib::to_multiset_contains(a, x);
        vstd::seq_lib::to_multiset_contains(b, x);
        vstd::seq_lib::to_multiset_contains(a, y);
        vstd::seq_lib::to_multiset_contains(b, y);
        let i = choose|i: int| 0 <= i < a.len() && a[i] == y;
        let j = choose|j: int| 0 <= j < b.len() && b[j] == x;
        lemma_rank_flip(x, x);
        lemma_rank_flip(y, y);
        lemma_rank_flip(x, y);
        lemma_rank_same_is_tie(x, x);
        lemma_rank_same_is_tie(y, x);
        assert(y.rank(x) != Rank::After) by {
            if i < a.len() - 1 {
                assert(a[i].rank(a[a.len() - 1]) != Rank::After);
            }
        }
        assert(x.rank(y) != Rank::After) by {
            if j < b.len() - 1 {
                assert(b[j].rank(b[b.len() - 1]) != Rank::After);
            }
        }
        assert(y.ties_with(x));
        assert(x.wf());
        assert(x == y) by {
            reveal(Seq::filter);
            let pred = tie_of(x);
            assert(pred(x) && pred(y));
            assert(a.filter(pred) == shorter_a.filter(pred).push(x));
            assert(b.filter(pred) == shorter_b.filter(pred).push(y));
            assert(a.filter(pred).last() == x);
            assert(b.filter(pred).last() == y);
        }
        assert(a =~= shorter_a.push(x));
        assert(b =~= shorter_b.push(x));
        vstd::seq_lib::to_multiset_build(shorter_a, x);
        vstd::seq_lib::to_multiset_build(shorter_b, x);
        assert(shorter_a.to_multiset() =~= shorter_b.to_multiset()) by {
            assert forall|v: PlanView|
                shorter_a.to_multiset().count(v) == shorter_b.to_multiset().count(v) by {
                assert(shorter_a.to_multiset().insert(x).count(v) == shorter_b.to_multiset().insert(
                    x,
                ).count(v));
            }
        }
        assert forall|z: PlanView| z.wf() implies #[trigger] shorter_a.filter(tie_of(z))
            == shorter_b.filter(tie_of(z)) by {
            reveal(Seq::filter);
            let pred = tie_of(z);
            assert(a.filter(pred) == b.filter(pred));
            if pred(x) {
                assert(a.filter(pred) == shorter_a.filter(pred).push(x));
                assert(b.filter(pred) == shorter_b.filter(pred).push(x));
                assert(shorter_a.filter(pred).push(x).drop_last() =~= shorter_a.filter(pred));
                assert(shorter_b.filter(pred).push(x).drop_last() =~= shorter_b.filter(pred));
            } else {
                assert(a.filter(pred) == shorter_a.filter(pred));
                assert(b.filter(pred) == shorter_b.filter(pred));
            }
        }
        assert(all_wf(shorter_a)) by {
            assert forall|k: int| 0 <= k < shorter_a.len() implies (#[trigger] shorter_a[k]).wf() by {
                assert(shorter_a[k] == a[k]);
            }
        }
        assert(all_wf(shorter_b)) by {
            assert forall|k: int| 0 <= k < shorter_b.len() implies (#[trigger] shorter_b[k]).wf() by {
                assert(shorter_b[k] == b[k]);
            }
        }
        assert(is_sorted(shorter_a)) by {
            assert forall|k: int, l: int| 0 <= k < l < shorter_a.len() implies shorter_a[k].rank(
                shorter_a[l],
            ) != Rank::After by {
                assert(shorter_a[k] == a[k] && shorter_a[l] == a[l]);
            }
        }
        assert(is_sorted(shorter_b)) by {
            assert forall|k: int, l: int| 0 <= k < l < shorter_b.len() implies shorter_b[k].rank(
                shorter_b[l],
            ) != Rank::After by {
                assert(shorter_b[k] == b[k] && shorter_b[l] == b[l]);
            }
        }
        lemma_sorted_alike_are_equal(shorter_a, shorter_b);
    }
}

/// Every record of a sequence occurs in each sequence with the same records.
proof fn lemma_same_records_are_wf(before: Seq<PlanView>, after: Seq<PlanView>)
    requires
        all_wf(before),
        after.to_multiset() == before.to_multiset(),
    ensures
        all_wf(after),
{
    assert forall|i: int| 0 <= i < after.len() implies (#[trigger] after[i]).wf() by {
        assert(after.contains(after[i]));
        vstd::seq_lib::to_multiset_contains(after, after[i]);
        vstd::seq_lib::to_multiset_contains(before, after[i]);
        let j = choose|j: int| 0 <= j < before.len() && before[j] == after[i];
        assert(before[j].wf());
    }
}

/// The stable sort of well-formed records is unique: what `is_stable_sort_of`
/// demands leaves no choice.
pub proof fn lemma_stable_sort_is_unique(
    before: Seq<PlanView>,
    first: Seq<PlanView>,
    second: Seq<PlanView>,
)
    requires
        all_wf(before),
        is_stable_sort_of(first, before),
        is_stable_sort_of(second, before),
    ensures
        first == second,
{
    lemma_same_records_are_wf(before, first);
    lemma_same_records_are_wf(before, second);
    assert forall|y: PlanView| y.wf() implies #[trigger] first.filter(tie_of(y)) == second.filter(
        tie_of(y),
    ) by {
        assert(first.filter(tie_of(y)) == before.filter(tie_of(y)));
        assert(second.filter(tie_of(y)) == before.filter(tie_of(y)));
    }
    lemma_sorted_alike_are_equal(first, second);
}

/// Sorts plan records into the sort order, leaving records that tie in the
/// order in which they came.
pub fn sort_plans(plans: Vec<PlanRecord>) -> (sorted: Vec<PlanRecord>)
    ensures
        is_stable_sort_of(views(sorted@), views(plans@)),
{
    let ghost before = views(plans@);
    let mut rest: Vec<PlanRecord> = plans;
    let mut sorted: Vec<PlanRecord> = Vec::new();
    assert(views(rest@) + views(sorted@) =~= before);
    while rest.len() > 0
        invariant
            all_wf(views(sorted@)),
            is_sorted(views(sorted@)),
            (views(rest@) + views(sorted@)).to_multiset() == before.to_multiset(),
            forall|y: PlanView|
                y.wf() ==> #[trigger] (views(rest@) + views(sorted@)).filter(tie_of(y))
                    == before.filter(tie_of(y)),
        decreases rest.len(),
    {
        let ghost old_rest = views(rest@);
        let ghost old_sorted = views(sorted@);
        let record: PlanRecord = rest.pop().unwrap();
        assert(views(rest@) =~= old_rest.drop_last());
        assert(record@ == old_rest.last());
        proof {
            use_type_invariant(&record);
        }
        let mut k: usize = 0;
        while k < sorted.len() && sorted[k].precedes(&record)
            invariant
                k <= sorted.len(),
                forall|j: int| 0 <= j < k ==> (#[trigger] views(sorted@)[j]).rank(record@) == Rank::Before,
            decreases sorted.len() - k,
        {
            k += 1;
        }
        proof {
            lemma_insert_keeps_order(old_sorted, k as int, record@);
            assert(views(sorted@.insert(k as int, record)) =~= old_sorted.insert(k as int, record@));
            assert(old_rest + old_sorted =~= old_rest.drop_last() + (seq![record@] + old_sorted));
            vstd::seq_lib::to_multiset_insert(old_sorted, k as int, record@);
            vstd::seq_lib::to_multiset_insert(old_sorted, 0, record@);
            assert(old_sorted.insert(0, record@) =~= seq![record@] + old_sorted);
            vstd::seq_lib::lemma_multiset_commutative(old_rest.drop_last(), seq![record@] + old_sorted);
            vstd::seq_lib::lemma_multiset_commutative(
                old_rest.drop_last(),
                old_sorted.insert(k as int, record@),
            );
            assert forall|y: PlanView| y.wf() implies #[trigger] (old_rest.drop_last()
                + old_sorted.insert(k as int, record@)).filter(tie_of(y)) == before.filter(
                tie_of(y),
            ) by {
                Seq::filter_distributes_over_add(
                    old_rest.drop_last(),
                    old_sorted.insert(k as int, record@),
                    tie_of(y),
                );
                Seq::filter_distributes_over_add(
                    old_rest.drop_last(),
                    seq![record@] + old_sorted,
                    tie_of(y),
                );
                assert(old_sorted.insert(k as int, record@).filter(tie_of(y)) == (seq![record@]
                    + old_sorted).filter(tie_of(y)));
                assert((old_rest + old_sorted).filter(tie_of(y)) == before.filter(tie_of(y)));
            }
            assert forall|i: int| 0 <= i < old_sorted.insert(k as int, record@).len() implies (
            #[trigger] old_sorted.insert(k as int, record@)[i]).wf() by {
                if i < k {
                    assert(old_sorted.insert(k as int, record@)[i] == old_sorted[i]);
                } else if i > k {
                    assert(old_sorted.insert(k as int, record@)[i] == old_sorted[i - 1]);
                }
            }
        }
        sorted.insert(k, record);
    }
    assert(views(rest@) + views(sorted@) =~= views(sorted@));
    sorted
}

} // verus!
