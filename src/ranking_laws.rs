//! The selection does not depend on the input order when no two predictions tie.
use crate::monte_carlo::Prediction;
use crate::ranking::{
    entry_of, insert_position, is_ranked_descending, lemma_insert_position,
    lemma_ranked_bounded_and_sorted, ranked, rank_of, PredictionManipulation, TopPredictions,
};
use vstd::prelude::*;

verus! {

broadcast use vstd::seq_lib::group_to_multiset_ensures;

/// The entries of the predictions of `all`, in input order.
pub open spec fn entries_of(all: Seq<Prediction>) -> Seq<TopPredictions> {
    all.map_values(|p: Prediction| entry_of(p.symbol, p.percentiles))
}

/// No two predictions of `all` have the same primary score under `criterion`.
pub open spec fn no_ties<C: PredictionManipulation>(criterion: C, all: Seq<Prediction>) -> bool {
    forall|i: int, j: int|
        0 <= i < all.len() && 0 <= j < all.len() && i != j ==> rank_of(
            criterion,
            #[trigger] entries_of(all)[i],
        ) != rank_of(criterion, #[trigger] entries_of(all)[j])
}

/// `list` strictly decreases in rank under `criterion`.
pub open spec fn strictly_descending<C: PredictionManipulation>(
    criterion: C,
    list: Seq<TopPredictions>,
) -> bool {
    forall|i: int, j: int|
        0 <= i < j < list.len() ==> rank_of(criterion, #[trigger] list[i]) > rank_of(
            criterion,
            #[trigger] list[j],
        )
}

/// `list` with `entry` inserted before the first entry ranking strictly below it.
pub open spec fn insert_unbounded<C: PredictionManipulation>(
    criterion: C,
    list: Seq<TopPredictions>,
    entry: TopPredictions,
) -> Seq<TopPredictions> {
    list.insert(insert_position(criterion, list, entry, 0), entry)
}

/// The list that the selection would build from `all` with no bound.
pub open spec fn ranked_unbounded<C: PredictionManipulation>(
    criterion: C,
    all: Seq<Prediction>,
) -> Seq<TopPredictions>
    decreases all.len(),
{
    if all.len() == 0 {
        Seq::empty()
    } else {
        insert_unbounded(
            criterion,
            ranked_unbounded(criterion, all.drop_last()),
            entry_of(all.last().symbol, all.last().percentiles),
        )
    }
}

/// The first `n` entries of `list`, or all of them where it is shorter.
pub open spec fn cut(list: Seq<TopPredictions>, n: nat) -> Seq<TopPredictions> {
    if list.len() > n {
        list.subrange(0, n as int)
    } else {
        list
    }
}

proof fn lemma_position_in_prefix<C: PredictionManipulation>(
    criterion: C,
    list: Seq<TopPredictions>,
    entry: TopPredictions,
    n: int,
    from: int,
)
    requires
        0 <= from <= n <= list.len(),
    ensures
        insert_position(criterion, list.subrange(0, n), entry, from) == if insert_position(
            criterion,
            list,
            entry,
            from,
        ) < n {
            insert_position(criterion, list, entry, from)
        } else {
            n
        },
    decreases n - from,
{
    lemma_insert_position(criterion, list, entry, from);
    if from < n {
        assert(list.subrange(0, n)[from] == list[from]);
        if rank_of(criterion, list[from]) >= rank_of(criterion, entry) {
            lemma_position_in_prefix(criterion, list, entry, n, from + 1);
        }
    }
}

/// Cutting before an insertion and cutting after it give the same first `n` entries.
proof fn lemma_cut_insert<C: PredictionManipulation>(
    criterion: C,
    list: Seq<TopPredictions>,
    entry: TopPredictions,
    n: nat,
)
    ensures
        cut(insert_unbounded(criterion, cut(list, n), entry), n) == cut(
            insert_unbounded(criterion, list, entry),
            n,
        ),
{
    if list.len() > n {
        let short = list.subrange(0, n as int);
        let p = insert_position(criterion, list, entry, 0);
        lemma_position_in_prefix(criterion, list, entry, n as int, 0);
        lemma_insert_position(criterion, list, entry, 0);
        let a = cut(insert_unbounded(criterion, short, entry), n);
        let b = cut(insert_unbounded(criterion, list, entry), n);
        assert(a.len() == n && b.len() == n);
        assert forall|i: int| 0 <= i < n implies a[i] == b[i] by {
            if i < p {
                assert(a[i] == short[i]);
            } else if i > p {
                assert(a[i] == short[i - 1]);
            }
        }
        assert(a =~= b);
    }
}

/// The bounded selection is the unbounded one cut to `top_x` entries.
pub proof fn lemma_ranked_is_cut<C: PredictionManipulation>(
    criterion: C,
    top_x: nat,
    all: Seq<Prediction>,
)
    ensures
        ranked(criterion, top_x, all) == cut(ranked_unbounded(criterion, all), top_x),
    decreases all.len(),
{
    if all.len() > 0 {
        lemma_ranked_is_cut(criterion, top_x, all.drop_last());
        let e = entry_of(all.last().symbol, all.last().percentiles);
        lemma_cut_insert(criterion, ranked_unbounded(criterion, all.drop_last()), e, top_x);
    }
}

/// The unbounded selection holds exactly the entries of the input, strictly ordered
/// when there are no ties.
pub proof fn lemma_unbounded_contents<C: PredictionManipulation>(
    criterion: C,
    all: Seq<Prediction>,
)
    ensures
        ranked_unbounded(criterion, all).to_multiset() == entries_of(all).to_multiset(),
        no_ties(criterion, all) ==> strictly_descending(
            criterion,
            ranked_unbounded(criterion, all),
        ),
    decreases all.len(),
{
    if all.len() > 0 {
        let rest = all.drop_last();
        let prev = ranked_unbounded(criterion, rest);
        let e = entry_of(all.last().symbol, all.last().percentiles);
        lemma_unbounded_contents(criterion, rest);
        let p = insert_position(criterion, prev, e, 0);
        lemma_insert_position(criterion, prev, e, 0);
        assert(entries_of(all) =~= entries_of(rest).push(e));
        if no_ties(criterion, all) {
            assert(no_ties(criterion, rest)) by {
                assert forall|i: int, j: int|
                    0 <= i < rest.len() && 0 <= j < rest.len() && i != j implies rank_of(
                    criterion,
                    #[trigger] entries_of(rest)[i],
                ) != rank_of(criterion, #[trigger] entries_of(rest)[j]) by {
                    assert(entries_of(rest)[i] == entries_of(all)[i]);
                    assert(entries_of(rest)[j] == entries_of(all)[j]);
                }
            }
            // the new entry ties with nothing already placed
            assert forall|k: int| 0 <= k < prev.len() implies rank_of(
                criterion,
                #[trigger] prev[k],
            ) != rank_of(criterion, e) by {
                assert(prev.to_multiset().count(prev[k]) > 0);
                assert(entries_of(rest).contains(prev[k]));
                let j = choose|j: int| 0 <= j < entries_of(rest).len() && entries_of(rest)[j] == prev[k];
                assert(entries_of(all)[j] == prev[k]);
                assert(entries_of(all)[all.len() - 1] == e);
            }
            let inserted = insert_unbounded(criterion, prev, e);
            assert forall|i: int, j: int| 0 <= i < j < inserted.len() implies rank_of(
                criterion,
                #[trigger] inserted[i],
            ) > rank_of(criterion, #[trigger] inserted[j]) by {
                if j < p {
                    assert(inserted[i] == prev[i] && inserted[j] == prev[j]);
                } else if j == p {
                    assert(inserted[i] == prev[i]);
                } else if i < p {
                    assert(inserted[i] == prev[i] && inserted[j] == prev[j - 1]);
                    if j - 1 > p {
                        assert(rank_of(criterion, prev[p]) > rank_of(criterion, prev[j - 1]));
                    }
                    assert(rank_of(criterion, prev[p]) != rank_of(criterion, e));
                } else if i == p {
                    assert(inserted[j] == prev[j - 1]);
                    if j - 1 > p {
                        assert(rank_of(criterion, prev[p]) > rank_of(criterion, prev[j - 1]));
                    }
                    assert(rank_of(criterion, prev[p]) != rank_of(criterion, e));
                } else {
                    assert(inserted[i] == prev[i - 1] && inserted[j] == prev[j - 1]);
                }
            }
        }
    }
}

/// A strictly ordered list and an ordered list with the same entries are the same list.
proof fn lemma_strictly_descending_unique<C: PredictionManipulation>(
    criterion: C,
    x: Seq<TopPredictions>,
    y: Seq<TopPredictions>,
)
    requires
        strictly_descending(criterion, x),
        is_ranked_descending(criterion, y),
        x.to_multiset() == y.to_multiset(),
    ensures
        x == y,
    decreases x.len(),
{
    broadcast use vstd::multiset::group_multiset_axioms;

    if x.len() == 0 || y.len() == 0 {
        vstd::seq_lib::to_multiset_len(x);
        vstd::seq_lib::to_multiset_len(y);
        assert(x.len() == y.len());
        assert(x =~= y);
    } else {
        assert(x.to_multiset().count(x[0]) > 0);
        assert(y.contains(x[0]));
        let i = choose|i: int| 0 <= i < y.len() && y[i] == x[0];
        assert(y.to_multiset().count(y[0]) > 0);
        assert(x.contains(y[0]));
        let j = choose|j: int| 0 <= j < x.len() && x[j] == y[0];
        if i > 0 {
            assert(rank_of(criterion, y[0]) >= rank_of(criterion, y[i]));
            if j > 0 {
                assert(rank_of(criterion, x[0]) > rank_of(criterion, x[j]));
            }
        }
        assert(y[0] == x[0]);
        assert(is_ranked_descending(criterion, y.drop_first())) by {
            assert forall|a: int, b: int| 0 <= a < b < y.drop_first().len() implies rank_of(
                criterion,
                #[trigger] y.drop_first()[a],
            ) >= rank_of(criterion, #[trigger] y.drop_first()[b]) by {
                assert(y.drop_first()[a] == y[a + 1] && y.drop_first()[b] == y[b + 1]);
            }
        }
        assert(x.remove(0) =~= x.drop_first());
        assert(y.remove(0) =~= y.drop_first());
        assert(x.drop_first().to_multiset() == y.drop_first().to_multiset());
        lemma_strictly_descending_unique(criterion, x.drop_first(), y.drop_first());
        assert forall|k: int| 0 <= k < x.len() implies x[k] == y[k] by {
            if k > 0 {
                assert(x[k] == x.drop_first()[k - 1]);
                assert(y[k] == y.drop_first()[k - 1]);
            }
        }
        assert(x =~= y);
    }
}

/// Permuted predictions have permuted entries.
proof fn lemma_entries_permuted(a: Seq<Prediction>, b: Seq<Prediction>)
    requires
        a.to_multiset() == b.to_multiset(),
    ensures
        entries_of(a).to_multiset() == entries_of(b).to_multiset(),
    decreases a.len(),
{
    broadcast use vstd::multiset::group_multiset_axioms;

    if a.len() == 0 {
        vstd::seq_lib::to_multiset_len(a);
        vstd::seq_lib::to_multiset_len(b);
        assert(b.len() == 0);
        assert(entries_of(a) =~= entries_of(b));
    } else {
        let x = a.last();
        let rest = a.drop_last();
        assert(a =~= rest.push(x));
        assert(b.to_multiset().count(x) > 0);
        assert(b.contains(x));
        let k = choose|k: int| 0 <= k < b.len() && b[k] == x;
        let others = b.remove(k);
        assert(rest.to_multiset() =~= others.to_multiset());
        lemma_entries_permuted(rest, others);
        let ex = entry_of(x.symbol, x.percentiles);
        assert(entries_of(a) =~= entries_of(rest).push(ex));
        assert(entries_of(others) =~= entries_of(b).remove(k));
        assert(entries_of(b)[k] == ex);
        assert(entries_of(b).to_multiset().count(ex) > 0);
        assert(entries_of(b).to_multiset() =~= entries_of(others).to_multiset().insert(ex));
    }
}

/// Inserting the same predictions in another order selects the same list, provided
/// no two of them have the same primary score.
pub proof fn lemma_ranked_order_independent<C: PredictionManipulation>(
    criterion: C,
    top_x: nat,
    a: Seq<Prediction>,
    b: Seq<Prediction>,
)
    requires
        a.to_multiset() == b.to_multiset(),
        no_ties(criterion, a),
    ensures
        ranked(criterion, top_x, a) == ranked(criterion, top_x, b),
{
    lemma_ranked_is_cut(criterion, top_x, a);
    lemma_ranked_is_cut(criterion, top_x, b);
    lemma_unbounded_contents(criterion, a);
    lemma_unbounded_contents(criterion, b);
    lemma_entries_permuted(a, b);
    // the unbounded list of `b` is ordered: it is the selection with a bound of its length
    let whole = ranked_unbounded(criterion, b);
    vstd::seq_lib::to_multiset_len(whole);
    vstd::seq_lib::to_multiset_len(entries_of(b));
    lemma_ranked_is_cut(criterion, b.len(), b);
    lemma_ranked_bounded_and_sorted(criterion, b.len(), b);
    assert(ranked(criterion, b.len(), b) == whole);
    lemma_strictly_descending_unique(
        criterion,
        ranked_unbounded(criterion, a),
        ranked_unbounded(criterion, b),
    );
}

} // verus!
