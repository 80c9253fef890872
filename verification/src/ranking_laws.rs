//! What holds of every ranking.

use crate::hosts::ListView;
use crate::ranking::{
    arranged, digits_of, goes_before, is_ranking, is_ranking_order, is_score_order,
    is_sorted_by_score, letters_of, matches_query, ranked, score_key, scores_for, scores_of,
    with_score,
};
use crate::text::{is_substring, occurs_at};
use vstd::prelude::*;
use vstd::set_lib::{lemma_int_range, set_int_range};

verus! {

/// Every record of a ranking is one that the query retains: the digits of
/// the query stand in the digits of its display name, and the letters of the
/// query in its letters.
pub proof fn law_ranking_contains_query(
    records: Seq<ListView>,
    query: Seq<char>,
    out: Seq<ListView>,
    k: int,
)
    requires
        is_ranking(records, query, out),
        0 <= k < out.len(),
    ensures
        is_substring(digits_of(query), digits_of(out[k].display_name)),
        is_substring(letters_of(query), letters_of(out[k].display_name)),
{
    let order = choose|order: Seq<int>|
        is_ranking_order(records, query, order) && out == ranked(records, query, order);
    assert(matches_query(records[order[k]].display_name, query));
}

/// Whether `item` is the record at position `i` of `records`, retained and
/// scored for `query`.
pub open spec fn is_retained_at(
    records: Seq<ListView>,
    query: Seq<char>,
    item: ListView,
    i: int,
) -> bool {
    &&& 0 <= i < records.len()
    &&& matches_query(records[i].display_name, query)
    &&& item == with_score(records[i], query)
}

/// Whether `item` is one of `records`, retained and scored for `query`.
pub open spec fn is_retained(records: Seq<ListView>, query: Seq<char>, item: ListView) -> bool {
    exists|i: int| is_retained_at(records, query, item, i)
}

/// A ranking holds the records that the query retains and no others: every
/// retained record stands in it with its score, and every record in it is a
/// retained record of the input with its score.
pub proof fn law_ranking_holds_the_retained(
    records: Seq<ListView>,
    query: Seq<char>,
    out: Seq<ListView>,
)
    requires
        is_ranking(records, query, out),
    ensures
        forall|i: int|
            0 <= i < records.len() && matches_query(#[trigger] records[i].display_name, query)
                ==> out.contains(with_score(records[i], query)),
        forall|k: int| 0 <= k < out.len() ==> is_retained(records, query, #[trigger] out[k]),
{
    let order = choose|order: Seq<int>|
        is_ranking_order(records, query, order) && out == ranked(records, query, order);
    assert forall|i: int|
        0 <= i < records.len() && matches_query(
            #[trigger] records[i].display_name,
            query,
        ) implies out.contains(with_score(records[i], query)) by {
        assert(order.contains(i));
        let k = choose|k: int| 0 <= k < order.len() && order[k] == i;
        assert(out[k] == with_score(records[i], query));
    }
    assert forall|k: int| 0 <= k < out.len() implies is_retained(
        records,
        query,
        #[trigger] out[k],
    ) by {
        assert(is_retained_at(records, query, out[k], order[k]));
    }
}

/// An order of a ranking lists no position twice.
proof fn lemma_order_has_no_duplicates(records: Seq<ListView>, query: Seq<char>, order: Seq<int>)
    requires
        is_ranking_order(records, query, order),
    ensures
        order.no_duplicates(),
{
    assert forall|k: int, l: int|
        0 <= k < order.len() && 0 <= l < order.len() && k != l implies order[k] != order[l] by {
        if k < l {
            assert(goes_before(scores_for(records, query), order[k], order[l]));
        } else {
            assert(goes_before(scores_for(records, query), order[l], order[k]));
        }
    }
}

/// The empty query retains every record: its ranking holds as many records
/// as were given, and each of them, scored against the empty query.
pub proof fn law_empty_query_retains_all(records: Seq<ListView>, out: Seq<ListView>)
    requires
        is_ranking(records, Seq::<char>::empty(), out),
    ensures
        out.len() == records.len(),
        forall|i: int|
            0 <= i < records.len() ==> out.contains(
                with_score(#[trigger] records[i], Seq::<char>::empty()),
            ),
{
    let query = Seq::<char>::empty();
    let order = choose|order: Seq<int>|
        is_ranking_order(records, query, order) && out == ranked(records, query, order);
    assert forall|i: int| 0 <= i < records.len() implies matches_query(
        #[trigger] records[i].display_name,
        query,
    ) by {
        lemma_empty_query_matches(records[i].display_name);
    }
    law_ranking_holds_the_retained(records, query, out);
    lemma_order_has_no_duplicates(records, query, order);
    order.unique_seq_to_set();
    lemma_int_range(0, records.len() as int);
    assert(order.to_set() =~= set_int_range(0, records.len() as int)) by {
        assert forall|i: int| set_int_range(0, records.len() as int).contains(i) implies order.to_set().contains(
            i,
        ) by {
            assert(matches_query(records[i].display_name, query));
            assert(order.contains(i));
        }
    }
}

/// The empty query retains a record of any name.
pub proof fn lemma_empty_query_matches(name: Seq<char>)
    ensures
        matches_query(name, Seq::<char>::empty()),
{
    reveal(Seq::filter);
    let empty = Seq::<char>::empty();
    assert(digits_of(empty) =~= empty);
    assert(letters_of(empty) =~= empty);
    assert(digits_of(name).subrange(0, 0) =~= empty);
    assert(letters_of(name).subrange(0, 0) =~= empty);
    assert(occurs_at(empty, digits_of(name), 0));
    assert(occurs_at(empty, letters_of(name), 0));
}

/// A ranking descends by score, and it is stable: of two records in it, the
/// earlier has no lower score, and where the two score alike, the earlier
/// one also stood earlier in the input.
pub proof fn law_ranking_is_stable(
    records: Seq<ListView>,
    query: Seq<char>,
    order: Seq<int>,
    k: int,
    l: int,
)
    requires
        is_ranking_order(records, query, order),
        0 <= k < l < order.len(),
    ensures
        score_key(ranked(records, query, order)[k].score) >= score_key(
            ranked(records, query, order)[l].score,
        ),
        score_key(ranked(records, query, order)[k].score) == score_key(
            ranked(records, query, order)[l].score,
        ) ==> order[k] < order[l],
{
    assert(goes_before(scores_for(records, query), order[k], order[l]));
}

/// Two sequences of positions that hold the same positions, each so that
/// every position goes before those that follow it, are the same sequence.
proof fn lemma_same_order(scores: Seq<u64>, a: Seq<int>, b: Seq<int>)
    requires
        forall|k: int, l: int|
            0 <= k < l < a.len() ==> goes_before(scores, #[trigger] a[k], #[trigger] a[l]),
        forall|k: int, l: int|
            0 <= k < l < b.len() ==> goes_before(scores, #[trigger] b[k], #[trigger] b[l]),
        forall|x: int| a.contains(x) <==> b.contains(x),
    ensures
        a == b,
    decreases a.len(),
{
    if a.len() == 0 {
        if b.len() > 0 {
            assert(b.contains(b[0]));
            assert(a.contains(b[0]));
        }
        assert(a =~= b);
    } else if b.len() == 0 {
        assert(a.contains(a[0]));
        assert(b.contains(a[0]));
    } else {
        assert(a.contains(a[0]));
        assert(b.contains(a[0]));
        let m = choose|m: int| 0 <= m < b.len() && b[m] == a[0];
        assert(b.contains(b[0]));
        assert(a.contains(b[0]));
        let n = choose|n: int| 0 <= n < a.len() && a[n] == b[0];
        if m > 0 && n > 0 {
            assert(goes_before(scores, b[0], b[m]));
            assert(goes_before(scores, a[0], a[n]));
        }
        assert(a[0] == b[0]);
        let ta = a.skip(1);
        let tb = b.skip(1);
        assert forall|x: int| ta.contains(x) <==> tb.contains(x) by {
            if ta.contains(x) {
                let j = choose|j: int| 0 <= j < ta.len() && ta[j] == x;
                assert(a[j + 1] == x);
                assert(goes_before(scores, a[0], a[j + 1]));
                assert(a.contains(x));
                assert(b.contains(x));
                let i = choose|i: int| 0 <= i < b.len() && b[i] == x;
                assert(i > 0);
                assert(tb[i - 1] == x);
            }
            if tb.contains(x) {
                let j = choose|j: int| 0 <= j < tb.len() && tb[j] == x;
                assert(b[j + 1] == x);
                assert(goes_before(scores, b[0], b[j + 1]));
                assert(b.contains(x));
                assert(a.contains(x));
                let i = choose|i: int| 0 <= i < a.len() && a[i] == x;
                assert(i > 0);
                assert(ta[i - 1] == x);
            }
        }
        assert forall|k: int, l: int| 0 <= k < l < ta.len() implies goes_before(
            scores,
            #[trigger] ta[k],
            #[trigger] ta[l],
        ) by {
            assert(goes_before(scores, a[k + 1], a[l + 1]));
        }
        assert forall|k: int, l: int| 0 <= k < l < tb.len() implies goes_before(
            scores,
            #[trigger] tb[k],
            #[trigger] tb[l],
        ) by {
            assert(goes_before(scores, b[k + 1], b[l + 1]));
        }
        lemma_same_order(scores, ta, tb);
        assert(a =~= seq![a[0]] + ta);
        assert(b =~= seq![b[0]] + tb);
    }
}

/// The scores determine the sorted order: two sortings of the same records
/// by score are equal.
pub proof fn law_sorting_is_unique(items: Seq<ListView>, a: Seq<ListView>, b: Seq<ListView>)
    requires
        is_sorted_by_score(items, a),
        is_sorted_by_score(items, b),
    ensures
        a == b,
{
    let oa = choose|order: Seq<int>|
        is_score_order(scores_of(items), order) && a == arranged(items, order);
    let ob = choose|order: Seq<int>|
        is_score_order(scores_of(items), order) && b == arranged(items, order);
    assert forall|x: int| oa.contains(x) <==> ob.contains(x) by {
        if oa.contains(x) {
            let k = choose|k: int| 0 <= k < oa.len() && oa[k] == x;
            assert(0 <= oa[k] < items.len());
            assert(ob.contains(x));
        }
        if ob.contains(x) {
            let k = choose|k: int| 0 <= k < ob.len() && ob[k] == x;
            assert(0 <= ob[k] < items.len());
            assert(oa.contains(x));
        }
    }
    lemma_same_order(scores_of(items), oa, ob);
}

/// Records and query determine the ranking: two rankings of the same
/// records for the same query are equal.
pub proof fn law_ranking_is_unique(
    records: Seq<ListView>,
    query: Seq<char>,
    a: Seq<ListView>,
    b: Seq<ListView>,
)
    requires
        is_ranking(records, query, a),
        is_ranking(records, query, b),
    ensures
        a == b,
{
    let oa = choose|order: Seq<int>|
        is_ranking_order(records, query, order) && a == ranked(records, query, order);
    let ob = choose|order: Seq<int>|
        is_ranking_order(records, query, order) && b == ranked(records, query, order);
    assert forall|x: int| oa.contains(x) <==> ob.contains(x) by {
        if oa.contains(x) {
            let k = choose|k: int| 0 <= k < oa.len() && oa[k] == x;
            assert(matches_query(records[oa[k]].display_name, query));
            assert(ob.contains(x));
        }
        if ob.contains(x) {
            let k = choose|k: int| 0 <= k < ob.len() && ob[k] == x;
            assert(matches_query(records[ob[k]].display_name, query));
            assert(oa.contains(x));
        }
    }
    lemma_same_order(scores_for(records, query), oa, ob);
}

} // verus!
