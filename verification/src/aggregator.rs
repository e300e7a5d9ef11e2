//! The search: from the answers of a pool to a report.
//!
//! The answers are merged, the merged records are ranked, and the ranking is the
//! report. What the report holds depends on the answers only, not on the order in
//! which the indices gave them.

use vstd::prelude::*;
use vstd::seq_lib::{to_multiset_contains, to_multiset_len, to_multiset_remove};
use crate::dataset::{matches_of, pool_of, Match, MatchRecord};
use crate::failure::Failure;
use crate::pool::{all_or_first_failure, holds_all, is_first_failure};
use crate::merge::{
    answer_names, answer_total, is_merge_of, lemma_unnamed_answer_total, listed, merge_answers,
    pool_names, pool_total, totals_fit,
};
use crate::ranking::{
    in_order, is_ranked, lemma_ordered_distinct_is_ranked, lemma_ranks_asymmetric,
    lemma_ranks_irreflexive, rank, ranks_before,
};
use crate::report::AggregateReport;

verus! {

/// `rows` is the report on `pool`: its merge, ranked.
pub open spec fn is_report_of(rows: Seq<Match>, pool: Seq<Seq<Match>>, threshold: nat) -> bool {
    &&& is_merge_of(rows, pool, threshold)
    &&& is_ranked(rows)
}

/// The text of the failure that a total too large to hold gives.
pub open spec fn overflow_text() -> Seq<char> {
    "merged intersection size is too large"@
}

/// Searches the answers of a pool: merges them, passing over the records below the
/// threshold, and ranks what was merged.
///
/// Fails exactly when the total of some dataset is too large for a `usize`.
pub fn search(answers: &Vec<Vec<MatchRecord>>, threshold: usize, query_size: usize) -> (found:
    Result<AggregateReport, Failure>)
    ensures
        found is Ok <==> totals_fit(pool_of(answers@), threshold as nat),
        found matches Ok(report) ==> {
            &&& report.query_size == query_size
            &&& is_report_of(matches_of(report.ranking@), pool_of(answers@), threshold as nat)
        },
        found matches Err(failure) ==> {
            &&& failure matches Failure::SearchFailed(text)
            &&& text@ == overflow_text()
        },
{
    match merge_answers(answers, threshold) {
        None => Err(Failure::SearchFailed("merged intersection size is too large".to_owned())),
        Some(merged) => {
            let ghost unranked = matches_of(merged@);
            let ranking = rank(merged);
            proof {
                lemma_reordered_merge(
                    unranked,
                    matches_of(ranking@),
                    pool_of(answers@),
                    threshold as nat,
                );
            }
            Ok(AggregateReport { ranking, query_size })
        },
    }
}

/// The sketch to ask the indices about, if the query was found to hold one. A query
/// that holds none cannot be compared, and no index is asked.
pub fn comparable<T>(prepared: Option<T>) -> (query: Result<T, Failure>)
    ensures
        query is Ok <==> prepared is Some,
        query matches Ok(sketch) ==> prepared == Some(sketch),
        query matches Err(failure) ==> failure == Failure::IncomparableQuery,
{
    match prepared {
        Some(sketch) => Ok(sketch),
        None => Err(Failure::IncomparableQuery),
    }
}

/// Takes the answers out of what the indices gave back, one outcome per index. An index
/// whose query failed fails the whole search: its answer is not passed over in silence.
/// The failure tells of the first index that failed.
pub fn settle_answers(outcomes: Vec<Result<Vec<MatchRecord>, String>>) -> (settled: Result<
    Vec<Vec<MatchRecord>>,
    Failure,
>)
    ensures
        settled is Ok <==> forall|i: int| 0 <= i < outcomes@.len() ==> outcomes@[i] is Ok,
        settled matches Ok(answers) ==> holds_all(answers@, outcomes@),
        settled matches Err(failure) ==> exists|i: int|
            {
                &&& is_first_failure(outcomes@, i)
                &&& failure matches Failure::SearchFailed(text)
                &&& outcomes@[i] == Err::<Vec<MatchRecord>, String>(text)
            },
{
    match all_or_first_failure(outcomes) {
        Ok(answers) => Ok(answers),
        Err(detail) => Err(Failure::SearchFailed(detail)),
    }
}

/// A merge put in best-first order is still a merge, and is ranked.
proof fn lemma_reordered_merge(
    merged: Seq<Match>,
    rows: Seq<Match>,
    pool: Seq<Seq<Match>>,
    threshold: nat,
)
    requires
        is_merge_of(merged, pool, threshold),
        in_order(rows, true),
        rows.to_multiset() == merged.to_multiset(),
    ensures
        is_report_of(rows, pool, threshold),
{
    merged.lemma_multiset_has_no_duplicates();
    rows.lemma_multiset_has_no_duplicates_conv();
    assert forall|k: int| 0 <= k < rows.len() implies merged.contains(#[trigger] rows[k]) by {
        to_multiset_contains(rows, rows[k]);
        to_multiset_contains(merged, rows[k]);
    }
    assert forall|k: int| 0 <= k < merged.len() implies rows.contains(#[trigger] merged[k]) by {
        to_multiset_contains(rows, merged[k]);
        to_multiset_contains(merged, merged[k]);
    }
    lemma_ordered_distinct_is_ranked(rows);
}

/// Two ranked lists that hold the same records are the same list.
proof fn lemma_ranked_unique(a: Seq<Match>, b: Seq<Match>)
    requires
        is_ranked(a),
        is_ranked(b),
        forall|m: Match| a.contains(m) == b.contains(m),
    ensures
        a == b,
    decreases a.len(),
{
    if a.len() == 0 {
        if b.len() > 0 {
            assert(b.contains(b[0]));
        }
    } else if b.len() == 0 {
        assert(a.contains(a[0]));
    } else {
        assert(a.contains(a[0]));
        assert(b.contains(b[0]));
        let ta = a.drop_first();
        let tb = b.drop_first();
        assert forall|m: Match| ta.contains(m) == tb.contains(m) by {
            if ta.contains(m) {
                assert(a.contains(m));
                let r = choose|r: int| 0 <= r < b.len() && b[r] == m;
                assert(tb[r - 1] == m);
            }
            if tb.contains(m) {
                assert(b.contains(m));
                let r = choose|r: int| 0 <= r < a.len() && a[r] == m;
                assert(ta[r - 1] == m);
            }
        }
        lemma_ranked_unique(ta, tb);
        assert(a =~= seq![a[0]] + ta);
    }
}

/// Two pools agree: they name the same datasets, with the same totals.
pub open spec fn pools_agree(a: Seq<Seq<Match>>, b: Seq<Seq<Match>>, threshold: nat) -> bool {
    &&& forall|id: Seq<char>|
        #![trigger pool_total(a, id, threshold)]
        #![trigger pool_total(b, id, threshold)]
        pool_total(a, id, threshold) == pool_total(b, id, threshold)
    &&& forall|id: Seq<char>|
        #![trigger pool_names(a, id, threshold)]
        #![trigger pool_names(b, id, threshold)]
        pool_names(a, id, threshold) == pool_names(b, id, threshold)
}

/// Reports on two pools that agree are the same report.
proof fn lemma_report_of_agreeing_pools(
    a: Seq<Seq<Match>>,
    b: Seq<Seq<Match>>,
    threshold: nat,
    first: Seq<Match>,
    second: Seq<Match>,
)
    requires
        pools_agree(a, b, threshold),
        is_report_of(first, a, threshold),
        is_report_of(second, b, threshold),
    ensures
        first == second,
{
    lemma_ranked_unique(first, second);
}

/// Taking one answer out of a pool takes its part out of every total.
proof fn lemma_total_without(pool: Seq<Seq<Match>>, i: int, id: Seq<char>, threshold: nat)
    requires
        0 <= i < pool.len(),
    ensures
        pool_total(pool, id, threshold) == pool_total(pool.remove(i), id, threshold)
            + answer_total(pool[i], id, threshold),
    decreases pool.len(),
{
    if i < pool.len() - 1 {
        assert(pool.remove(i).drop_last() =~= pool.drop_last().remove(i));
        lemma_total_without(pool.drop_last(), i, id, threshold);
    }
}

/// The totals of a pool do not depend on the order of its answers.
proof fn lemma_total_any_order(
    a: Seq<Seq<Match>>,
    b: Seq<Seq<Match>>,
    id: Seq<char>,
    threshold: nat,
)
    requires
        a.to_multiset() == b.to_multiset(),
    ensures
        pool_total(a, id, threshold) == pool_total(b, id, threshold),
    decreases a.len(),
{
    to_multiset_len(a);
    to_multiset_len(b);
    if a.len() > 0 {
        let last = a[a.len() - 1];
        to_multiset_contains(a, last);
        to_multiset_contains(b, last);
        let j = choose|j: int| 0 <= j < b.len() && b[j] == last;
        to_multiset_remove(a, a.len() - 1);
        to_multiset_remove(b, j);
        lemma_total_any_order(a.drop_last(), b.remove(j), id, threshold);
        lemma_total_without(b, j, id, threshold);
    }
}

/// Which datasets a pool names does not depend on the order of its answers.
proof fn lemma_names_any_order(
    a: Seq<Seq<Match>>,
    b: Seq<Seq<Match>>,
    id: Seq<char>,
    threshold: nat,
)
    requires
        a.to_multiset() == b.to_multiset(),
        pool_names(a, id, threshold),
    ensures
        pool_names(b, id, threshold),
{
    let i = choose|i: int| #![trigger a[i]] 0 <= i < a.len() && answer_names(a[i], id, threshold);
    to_multiset_contains(a, a[i]);
    to_multiset_contains(b, a[i]);
}

/// Two pools that hold the same answers, in whatever order, agree.
pub proof fn lemma_reordered_pools_agree(a: Seq<Seq<Match>>, b: Seq<Seq<Match>>, threshold: nat)
    requires
        a.to_multiset() == b.to_multiset(),
    ensures
        pools_agree(a, b, threshold),
{
    assert forall|id: Seq<char>| pool_total(a, id, threshold) == pool_total(
        b,
        id,
        threshold,
    ) by {
        lemma_total_any_order(a, b, id, threshold);
    }
    assert forall|id: Seq<char>| pool_names(a, id, threshold) == pool_names(b, id, threshold) by {
        if pool_names(a, id, threshold) {
            lemma_names_any_order(a, b, id, threshold);
        }
        if pool_names(b, id, threshold) {
            lemma_names_any_order(b, a, id, threshold);
        }
    }
}

/// The report does not depend on the order in which the indices are asked: two pools
/// that hold the same answers, in whatever order, have the same report.
pub proof fn law_order_independent(
    a: Seq<Seq<Match>>,
    b: Seq<Seq<Match>>,
    threshold: nat,
    first: Seq<Match>,
    second: Seq<Match>,
)
    requires
        a.to_multiset() == b.to_multiset(),
        is_report_of(first, a, threshold),
        is_report_of(second, b, threshold),
    ensures
        first == second,
{
    lemma_reordered_pools_agree(a, b, threshold);
    lemma_report_of_agreeing_pools(a, b, threshold, first, second);
}

/// A pool has one report only: asking again, of the same answers, gives the same lines
/// in the same order.
pub proof fn law_report_unique(
    pool: Seq<Seq<Match>>,
    threshold: nat,
    first: Seq<Match>,
    second: Seq<Match>,
)
    requires
        is_report_of(first, pool, threshold),
        is_report_of(second, pool, threshold),
    ensures
        first == second,
{
    lemma_report_of_agreeing_pools(pool, pool, threshold, first, second);
}

/// A dataset that stays below the threshold in every index is not in the report,
/// whatever its sizes would add up to.
pub proof fn law_below_threshold_unlisted(
    pool: Seq<Seq<Match>>,
    threshold: nat,
    rows: Seq<Match>,
    id: Seq<char>,
)
    requires
        is_report_of(rows, pool, threshold),
        forall|i: int, j: int|
            #![trigger pool[i][j]]
            0 <= i < pool.len() && 0 <= j < pool[i].len() && pool[i][j].id == id ==> pool[i][j].size
                < threshold,
    ensures
        !listed(rows, id),
{
}

/// The sum of the sizes.
pub open spec fn sum_of(sizes: Seq<nat>) -> nat
    decreases sizes.len(),
{
    if sizes.len() == 0 {
        0
    } else {
        sum_of(sizes.drop_last()) + sizes.last()
    }
}

/// What one index reports of a dataset: nothing, and then `size` is zero, or one record
/// of that size, which reaches the threshold.
pub open spec fn reports(answer: Seq<Match>, id: Seq<char>, threshold: nat, size: nat) -> bool {
    ||| size == 0 && forall|k: int| 0 <= k < answer.len() ==> (#[trigger] answer[k]).id != id
    ||| exists|j: int|
        {
            &&& 0 <= j < answer.len()
            &&& (#[trigger] answer[j]).id == id
            &&& answer[j].size == size
            &&& size >= threshold
            &&& forall|k: int| 0 <= k < answer.len() && k != j ==> (#[trigger] answer[k]).id != id
        }
}

/// The total of a dataset is the sum of the sizes that the indices report of it.
pub proof fn lemma_total_is_sum(
    pool: Seq<Seq<Match>>,
    id: Seq<char>,
    threshold: nat,
    sizes: Seq<nat>,
)
    requires
        sizes.len() == pool.len(),
        forall|i: int| 0 <= i < pool.len() ==> reports(#[trigger] pool[i], id, threshold, sizes[i]),
    ensures
        pool_total(pool, id, threshold) == sum_of(sizes),
    decreases pool.len(),
{
    if pool.len() > 0 {
        let n = pool.len() - 1;
        let answer = pool[n];
        if forall|k: int| 0 <= k < answer.len() ==> (#[trigger] answer[k]).id != id {
            lemma_total_of_absent(answer, id, threshold);
        } else {
            let j = choose|j: int|
                {
                    &&& 0 <= j < answer.len()
                    &&& (#[trigger] answer[j]).id == id
                    &&& answer[j].size == sizes[n]
                    &&& sizes[n] >= threshold
                    &&& forall|k: int|
                        0 <= k < answer.len() && k != j ==> (#[trigger] answer[k]).id != id
                };
            lemma_total_of_one_record(answer, j, id, threshold);
        }
        lemma_total_is_sum(pool.drop_last(), id, threshold, sizes.drop_last());
    }
}

/// The size that the report gives for a dataset is the sum of the sizes that the
/// indices report of it.
pub proof fn law_size_is_sum(
    pool: Seq<Seq<Match>>,
    threshold: nat,
    rows: Seq<Match>,
    k: int,
    sizes: Seq<nat>,
)
    requires
        is_report_of(rows, pool, threshold),
        0 <= k < rows.len(),
        sizes.len() == pool.len(),
        forall|i: int|
            0 <= i < pool.len() ==> reports(#[trigger] pool[i], rows[k].id, threshold, sizes[i]),
    ensures
        rows[k].size == sum_of(sizes),
{
    lemma_total_is_sum(pool, rows[k].id, threshold, sizes);
}

/// The total of a dataset in an answer that holds no record of it is zero.
proof fn lemma_total_of_absent(answer: Seq<Match>, id: Seq<char>, threshold: nat)
    requires
        forall|k: int| 0 <= k < answer.len() ==> (#[trigger] answer[k]).id != id,
    ensures
        answer_total(answer, id, threshold) == 0,
{
    lemma_unnamed_answer_total(answer, id, threshold);
}

/// The total of a dataset in an answer that holds one record of it that counts, and no
/// other, is the size of that record.
pub proof fn lemma_total_of_one_record(
    answer: Seq<Match>,
    j: int,
    id: Seq<char>,
    threshold: nat,
)
    requires
        0 <= j < answer.len(),
        answer[j].id == id,
        answer[j].size >= threshold,
        forall|k: int| 0 <= k < answer.len() && k != j ==> (#[trigger] answer[k]).id != id,
    ensures
        answer_total(answer, id, threshold) == answer[j].size,
    decreases answer.len(),
{
    let front = answer.drop_last();
    if j == answer.len() - 1 {
        lemma_total_of_absent(front, id, threshold);
    } else {
        lemma_total_of_one_record(front, j, id, threshold);
    }
}

} // verus!
