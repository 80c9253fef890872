//! Ranking: which records a query retains, and in what order they stand.
//!
//! A record is retained when the digits of the query stand, as one run, in
//! the digits of its display name, and the letters of the query in its
//! letters. The retained records are scored by their similarity to the query
//! and ordered by descending score; records that score alike keep the order
//! in which they were given.

use crate::hosts::{views, List, ListView};
use crate::similarity::{is_unit_score, jaro_winkler_bits, similarity_bits};
use crate::text::{chars_of, contains, is_substring, string_of};
use vstd::prelude::*;

verus! {

/// Whether `c` is one of `0` to `9`.
pub open spec fn is_digit(c: char) -> bool {
    '0' <= c <= '9'
}

/// Whether `c` is an ASCII letter.
pub open spec fn is_letter(c: char) -> bool {
    ('a' <= c <= 'z') || ('A' <= c <= 'Z')
}

/// The digits of `s`, in order.
pub open spec fn digits_of(s: Seq<char>) -> Seq<char> {
    s.filter(|c: char| is_digit(c))
}

/// The ASCII letters of `s`, in order and in the case they have.
pub open spec fn letters_of(s: Seq<char>) -> Seq<char> {
    s.filter(|c: char| is_letter(c))
}

/// Whether a record named `name` is retained for `query`.
pub open spec fn matches_query(name: Seq<char>, query: Seq<char>) -> bool {
    &&& is_substring(digits_of(query), digits_of(name))
    &&& is_substring(letters_of(query), letters_of(name))
}

/// The digits of `v`, in order.
pub fn digit_chars(v: &Vec<char>) -> (r: Vec<char>)
    ensures
        r@ == digits_of(v@),
{
    let mut r: Vec<char> = Vec::new();
    let mut i: usize = 0;
    proof {
        assert(v@.take(0) =~= Seq::<char>::empty());
        reveal(Seq::filter);
    }
    while i < v.len()
        invariant
            i <= v.len(),
            r@ == digits_of(v@.take(i as int)),
        decreases v.len() - i,
    {
        let c = v[i];
        proof {
            assert(v@.take(i as int).push(c) =~= v@.take(i + 1));
            v@.take(i as int).lemma_filter_push(c, |c: char| is_digit(c));
        }
        if c >= '0' && c <= '9' {
            r.push(c);
        }
        i += 1;
    }
    proof {
        assert(v@.take(v.len() as int) =~= v@);
    }
    r
}

/// The ASCII letters of `v`, in order.
pub fn letter_chars(v: &Vec<char>) -> (r: Vec<char>)
    ensures
        r@ == letters_of(v@),
{
    let mut r: Vec<char> = Vec::new();
    let mut i: usize = 0;
    proof {
        assert(v@.take(0) =~= Seq::<char>::empty());
        reveal(Seq::filter);
    }
    while i < v.len()
        invariant
            i <= v.len(),
            r@ == letters_of(v@.take(i as int)),
        decreases v.len() - i,
    {
        let c = v[i];
        proof {
            assert(v@.take(i as int).push(c) =~= v@.take(i + 1));
            v@.take(i as int).lemma_filter_push(c, |c: char| is_letter(c));
        }
        if (c >= 'a' && c <= 'z') || (c >= 'A' && c <= 'Z') {
            r.push(c);
        }
        i += 1;
    }
    proof {
        assert(v@.take(v.len() as int) =~= v@);
    }
    r
}

/// The digits of `name`, in order.
pub fn num_extract(name: &str) -> (r: String)
    ensures
        r@ == digits_of(name@),
{
    string_of(&digit_chars(&chars_of(name)))
}

/// The ASCII letters of `name`, in order.
pub fn char_extract(name: &str) -> (r: String)
    ensures
        r@ == letters_of(name@),
{
    string_of(&letter_chars(&chars_of(name)))
}

/// Whether a record named `name` is retained for a query with the digits
/// `query_digits` and the letters `query_letters`.
fn retains(name: &str, query_digits: &Vec<char>, query_letters: &Vec<char>) -> (b: bool)
    ensures
        b == (is_substring(query_digits@, digits_of(name@)) && is_substring(
            query_letters@,
            letters_of(name@),
        )),
{
    let n = chars_of(name);
    contains(&digit_chars(&n), query_digits) && contains(&letter_chars(&n), query_letters)
}

/// Whether a record named `name` is retained for `query`.
pub fn is_match(name: &str, query: &str) -> (b: bool)
    ensures
        b == matches_query(name@, query@),
{
    let q = chars_of(query);
    retains(name, &digit_chars(&q), &letter_chars(&q))
}

/// The sign bit of a double.
pub const SIGN_BIT: u64 = 0x8000_0000_0000_0000;

/// The bit pattern of positive infinity: the greatest magnitude that is a
/// number.
pub const INFINITY_BITS: u64 = 0x7FF0_0000_0000_0000;

/// The place of a score in the order of scores, the score being given as the
/// bit pattern of a double.
///
/// Two patterns that are numbers compare as the numbers do, the two zeros
/// being equal. A pattern that is no number cannot be compared: it gets the
/// key 0, below every number and level with every other such pattern.
pub open spec fn score_key(bits: u64) -> u64 {
    let negative = bits >= SIGN_BIT;
    let magnitude = if negative {
        (bits - SIGN_BIT) as u64
    } else {
        bits
    };
    if magnitude > INFINITY_BITS {
        0
    } else if negative {
        (SIGN_BIT - magnitude) as u64
    } else {
        (SIGN_BIT + magnitude) as u64
    }
}

/// The place of a score in the order of scores.
pub fn key_of_score(bits: u64) -> (key: u64)
    ensures
        key == score_key(bits),
{
    let negative = bits >= SIGN_BIT;
    let magnitude: u64 = if negative {
        bits - SIGN_BIT
    } else {
        bits
    };
    if magnitude > INFINITY_BITS {
        0
    } else if negative {
        SIGN_BIT - magnitude
    } else {
        SIGN_BIT + magnitude
    }
}

/// Whether, of the scores at positions `i` and `j`, the one at `i` goes
/// first: it is higher, or they are level and `i` is the earlier position.
pub open spec fn goes_before(scores: Seq<u64>, i: int, j: int) -> bool {
    let ki = score_key(scores[i]);
    let kj = score_key(scores[j]);
    ki > kj || (ki == kj && i < j)
}

/// Whether `order` lists the first `n` positions of `scores`, each once, so
/// that each listed position goes before all that follow it.
pub open spec fn orders_first(scores: Seq<u64>, order: Seq<int>, n: int) -> bool {
    &&& order.len() == n
    &&& forall|k: int| 0 <= k < order.len() ==> 0 <= #[trigger] order[k] < n
    &&& forall|i: int| 0 <= i < n ==> order.contains(i)
    &&& forall|k: int, l: int|
        0 <= k < l < order.len() ==> goes_before(scores, #[trigger] order[k], #[trigger] order[l])
}

/// Whether `order` is the stable descending order of `scores`: it lists
/// every position once, higher scores first, level scores by position.
pub open spec fn is_score_order(scores: Seq<u64>, order: Seq<int>) -> bool {
    orders_first(scores, order, scores.len() as int)
}

/// The positions in `order`, as integers.
pub open spec fn positions(order: Seq<usize>) -> Seq<int> {
    order.map_values(|i: usize| i as int)
}

/// Putting the next position into an order of the positions before it, at
/// the place where the scores that are not lower end, gives an order of one
/// position more.
proof fn lemma_insert_next(scores: Seq<u64>, order: Seq<int>, n: int, p: int)
    requires
        0 <= n < scores.len(),
        orders_first(scores, order, n),
        0 <= p <= n,
        forall|k: int| 0 <= k < p ==> score_key(scores[#[trigger] order[k]]) >= score_key(scores[n]),
        forall|k: int| p <= k < n ==> score_key(scores[#[trigger] order[k]]) < score_key(scores[n]),
    ensures
        orders_first(scores, order.insert(p, n), n + 1),
{
    let next = order.insert(p, n);
    assert forall|i: int| 0 <= i < n + 1 implies next.contains(i) by {
        if i == n {
            assert(next[p] == i);
        } else {
            assert(order.contains(i));
            let k = choose|k: int| 0 <= k < order.len() && order[k] == i;
            if k < p {
                assert(next[k] == i);
            } else {
                assert(next[k + 1] == i);
            }
        }
    }
    assert forall|k: int, l: int| 0 <= k < l < next.len() implies goes_before(
        scores,
        #[trigger] next[k],
        #[trigger] next[l],
    ) by {
        if l < p {
            assert(next[k] == order[k] && next[l] == order[l]);
        } else if l == p {
            assert(next[k] == order[k]);
        } else if k < p {
            assert(next[k] == order[k] && next[l] == order[l - 1]);
        } else if k == p {
            assert(next[l] == order[l - 1]);
        } else {
            assert(next[k] == order[k - 1] && next[l] == order[l - 1]);
        }
    }
}

/// The stable descending order of `scores`.
pub fn order_by_score(scores: &Vec<u64>) -> (order: Vec<usize>)
    ensures
        is_score_order(scores@, positions(order@)),
{
    let mut order: Vec<usize> = Vec::new();
    let mut n: usize = 0;
    while n < scores.len()
        invariant
            n <= scores.len(),
            orders_first(scores@, positions(order@), n as int),
            forall|k: int| 0 <= k < order@.len() ==> (#[trigger] order@[k]) < n,
        decreases scores.len() - n,
    {
        let key = key_of_score(scores[n]);
        let ghost before = positions(order@);
        let mut p: usize = n;
        while p > 0 && key_of_score(scores[order[p - 1]]) < key
            invariant
                p <= n < scores.len(),
                order@.len() == n,
                forall|k: int| 0 <= k < order@.len() ==> (#[trigger] order@[k]) < n,
                before == positions(order@),
                orders_first(scores@, before, n as int),
                key == score_key(scores@[n as int]),
                forall|k: int| p <= k < n ==> score_key(scores@[#[trigger] before[k]]) < key,
            decreases p,
        {
            p -= 1;
        }
        proof {
            assert forall|k: int| 0 <= k < p implies score_key(scores@[#[trigger] before[k]])
                >= key by {
                if k < p - 1 {
                    assert(goes_before(scores@, before[k], before[p - 1]));
                }
            }
            lemma_insert_next(scores@, before, n as int, p as int);
        }
        order.insert(p, n);
        proof {
            assert(positions(order@) =~= before.insert(p as int, n as int));
        }
        n += 1;
    }
    order
}

/// The items at the positions that `order` lists, in that order.
pub open spec fn arranged(items: Seq<ListView>, order: Seq<int>) -> Seq<ListView> {
    Seq::new(order.len(), |k: int| items[order[k]])
}

/// The scores that `items` hold.
pub open spec fn scores_of(items: Seq<ListView>) -> Seq<u64> {
    items.map_values(|r: ListView| r.score)
}

/// Whether `out` holds the records of `items` by descending score, records
/// of level score in the order that `items` has them.
pub open spec fn is_sorted_by_score(items: Seq<ListView>, out: Seq<ListView>) -> bool {
    exists|order: Seq<int>| is_score_order(scores_of(items), order) && out == arranged(items, order)
}

/// The records of `items` by descending score. Records that score alike
/// keep their order; a score that is no number counts as the lowest.
pub fn sort_by_score(items: &Vec<List>) -> (out: Vec<List>)
    ensures
        is_sorted_by_score(views(items@), views(out@)),
{
    let mut scores: Vec<u64> = Vec::new();
    let mut i: usize = 0;
    while i < items.len()
        invariant
            i <= items.len(),
            scores@ == scores_of(views(items@)).take(i as int),
        decreases items.len() - i,
    {
        scores.push(items[i].score);
        proof {
            assert(scores@ =~= scores_of(views(items@)).take(i + 1));
        }
        i += 1;
    }
    proof {
        assert(scores@ =~= scores_of(views(items@)));
    }
    let order = order_by_score(&scores);
    let mut out: Vec<List> = Vec::new();
    let mut k: usize = 0;
    while k < order.len()
        invariant
            k <= order.len(),
            is_score_order(scores_of(views(items@)), positions(order@)),
            views(out@) == arranged(views(items@), positions(order@)).take(k as int),
        decreases order.len() - k,
    {
        proof {
            assert(0 <= positions(order@)[k as int] < items@.len());
        }
        let ghost so_far = views(out@);
        let item = items[order[k]].clone();
        out.push(item);
        proof {
            assert(views(out@) =~= so_far.push(item@));
            assert(so_far.push(item@) =~= arranged(views(items@), positions(order@)).take(
                k + 1,
            ));
        }
        k += 1;
    }
    proof {
        assert(views(out@) =~= arranged(views(items@), positions(order@)));
    }
    out
}

/// The scores that a ranking pass for `query` gives to `records`: for each
/// record the similarity of the query to its display name.
pub open spec fn scores_for(records: Seq<ListView>, query: Seq<char>) -> Seq<u64> {
    records.map_values(|r: ListView| jaro_winkler_bits(query, r.display_name))
}

/// `r` with the score that a ranking pass for `query` gives it.
pub open spec fn with_score(r: ListView, query: Seq<char>) -> ListView {
    ListView { score: jaro_winkler_bits(query, r.display_name), ..r }
}

/// Whether `order` lists the positions of the records that `query` retains,
/// each once, higher scores first and level scores by position.
pub open spec fn is_ranking_order(records: Seq<ListView>, query: Seq<char>, order: Seq<int>) -> bool {
    &&& forall|k: int|
        0 <= k < order.len() ==> 0 <= #[trigger] order[k] < records.len() && matches_query(
            records[order[k]].display_name,
            query,
        )
    &&& forall|i: int|
        0 <= i < records.len() && matches_query(records[i].display_name, query)
            ==> order.contains(i)
    &&& forall|k: int, l: int|
        0 <= k < l < order.len() ==> goes_before(
            scores_for(records, query),
            #[trigger] order[k],
            #[trigger] order[l],
        )
}

/// The records at the positions that `order` lists, each with its score for
/// `query`.
pub open spec fn ranked(records: Seq<ListView>, query: Seq<char>, order: Seq<int>) -> Seq<ListView> {
    Seq::new(order.len(), |k: int| with_score(records[order[k]], query))
}

/// Whether `out` is the ranking of `records` for `query`: the retained
/// records, scored, by descending score, level scores in the order that
/// `records` has them.
pub open spec fn is_ranking(records: Seq<ListView>, query: Seq<char>, out: Seq<ListView>) -> bool {
    exists|order: Seq<int>|
        is_ranking_order(records, query, order) && out == ranked(records, query, order)
}

/// Whether `kept` lists, in rising order, the positions of the records that
/// `query` retains among the first `n`.
pub open spec fn keeps_first(records: Seq<ListView>, query: Seq<char>, kept: Seq<int>, n: int) -> bool {
    &&& forall|k: int|
        0 <= k < kept.len() ==> 0 <= #[trigger] kept[k] < n && matches_query(
            records[kept[k]].display_name,
            query,
        )
    &&& forall|k: int, l: int| 0 <= k < l < kept.len() ==> #[trigger] kept[k] < #[trigger] kept[l]
    &&& forall|i: int|
        0 <= i < n && matches_query(records[i].display_name, query) ==> kept.contains(i)
}

/// Ordering the retained positions by their scores orders the records.
proof fn lemma_order_of_kept(
    records: Seq<ListView>,
    query: Seq<char>,
    kept: Seq<int>,
    scores: Seq<u64>,
    perm: Seq<int>,
)
    requires
        keeps_first(records, query, kept, records.len() as int),
        scores.len() == kept.len(),
        forall|k: int|
            0 <= k < kept.len() ==> #[trigger] scores[k] == jaro_winkler_bits(
                query,
                records[kept[k]].display_name,
            ),
        is_score_order(scores, perm),
    ensures
        is_ranking_order(records, query, Seq::new(perm.len(), |k: int| kept[perm[k]])),
{
    let order = Seq::new(perm.len(), |k: int| kept[perm[k]]);
    assert forall|i: int|
        0 <= i < records.len() && matches_query(
            records[i].display_name,
            query,
        ) implies order.contains(i) by {
        assert(kept.contains(i));
        let a = choose|a: int| 0 <= a < kept.len() && kept[a] == i;
        assert(perm.contains(a));
        let k = choose|k: int| 0 <= k < perm.len() && perm[k] == a;
        assert(order[k] == i);
    }
    assert forall|k: int, l: int| 0 <= k < l < order.len() implies goes_before(
        scores_for(records, query),
        #[trigger] order[k],
        #[trigger] order[l],
    ) by {
        assert(goes_before(scores, perm[k], perm[l]));
        assert(scores[perm[k]] == scores_for(records, query)[kept[perm[k]]]);
        assert(scores[perm[l]] == scores_for(records, query)[kept[perm[l]]]);
    }
}

/// Whether `out` holds the records of `records` that `query` retains, each
/// with its score for `query`, in the order that `records` has them.
pub open spec fn is_selection(records: Seq<ListView>, query: Seq<char>, out: Seq<ListView>) -> bool {
    exists|kept: Seq<int>|
        keeps_first(records, query, kept, records.len() as int) && out == ranked(
            records,
            query,
            kept,
        )
}

/// The records of `records` that `query` retains, each with its similarity
/// to `query` as its score, in the order that `records` has them.
pub fn retain_matching(records: &Vec<List>, query: &str) -> (out: Vec<List>)
    ensures
        is_selection(views(records@), query@, views(out@)),
        forall|k: int| 0 <= k < out@.len() ==> is_unit_score((#[trigger] out@[k]).score),
{
    let q = chars_of(query);
    let query_digits = digit_chars(&q);
    let query_letters = letter_chars(&q);
    let mut out: Vec<List> = Vec::new();
    let ghost mut kept: Seq<int> = Seq::empty();
    let mut i: usize = 0;
    while i < records.len()
        invariant
            i <= records.len(),
            query_digits@ == digits_of(query@),
            query_letters@ == letters_of(query@),
            keeps_first(views(records@), query@, kept, i as int),
            views(out@) == ranked(views(records@), query@, kept),
            forall|k: int| 0 <= k < out@.len() ==> is_unit_score((#[trigger] out@[k]).score),
        decreases records.len() - i,
    {
        let source = &records[i];
        if retains(source.display_name.as_str(), &query_digits, &query_letters) {
            let item = List {
                score: similarity_bits(query, source.display_name.as_str()),
                hostname: source.hostname.clone(),
                alias: source.alias.clone(),
                display_name: source.display_name.clone(),
            };
            let ghost before = kept;
            let ghost so_far = views(out@);
            out.push(item);
            proof {
                kept = before.push(i as int);
                assert(item@ == with_score(views(records@)[i as int], query@));
                assert(views(out@) =~= so_far.push(item@));
                assert(views(out@) =~= ranked(views(records@), query@, kept));
                assert forall|j: int|
                    0 <= j < i + 1 && matches_query(
                        views(records@)[j].display_name,
                        query@,
                    ) implies kept.contains(j) by {
                    if j == i {
                        assert(kept[before.len() as int] == j);
                    } else {
                        assert(before.contains(j));
                        let a = choose|a: int| 0 <= a < before.len() && before[a] == j;
                        assert(kept[a] == j);
                    }
                }
            }
        }
        i += 1;
    }
    out
}

/// The ranking of `records` for `query`.
///
/// A record is retained when the digits of `query` stand in the digits of
/// its display name and the letters of `query` in its letters; an empty
/// query retains every record. Each retained record is given its similarity
/// to `query` as its score, a double from 0.0 to 1.0. The result holds the
/// retained records by descending score, level scores in the order of
/// `records`. `records` itself is left as it is.
pub fn rank(records: &Vec<List>, query: &str) -> (out: Vec<List>)
    ensures
        is_ranking(views(records@), query@, views(out@)),
        forall|k: int| 0 <= k < out@.len() ==> is_unit_score((#[trigger] out@[k]).score),
{
    let retained = retain_matching(records, query);
    let out = sort_by_score(&retained);
    proof {
        let all = views(records@);
        let items = views(retained@);
        let kept = choose|kept: Seq<int>|
            keeps_first(all, query@, kept, all.len() as int) && items == ranked(
                all,
                query@,
                kept,
            );
        let perm = choose|order: Seq<int>|
            is_score_order(scores_of(items), order) && views(out@) == arranged(items, order);
        lemma_order_of_kept(all, query@, kept, scores_of(items), perm);
        let order = Seq::new(perm.len(), |k: int| kept[perm[k]]);
        assert(views(out@) =~= ranked(all, query@, order));
        assert forall|k: int| 0 <= k < out@.len() implies is_unit_score(
            (#[trigger] out@[k]).score,
        ) by {
            assert(views(out@)[k] == items[perm[k]]);
            assert(items[perm[k]] == retained@[perm[k]]@);
        }
    }
    out
}

} // verus!
