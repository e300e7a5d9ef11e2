//! The order of a report.
//!
//! A report lists the larger merged intersection first. Two datasets with the same
//! merged size are listed by identity, the one whose identity sorts first in the order
//! of `str` before the other. No two records of different datasets are ever tied, so
//! the order of a report does not depend on the order in which they were found.

use vstd::prelude::*;
use vstd::seq_lib::{lemma_multiset_commutative, to_multiset_build};
use vstd::utf8::encode_utf8;
use crate::dataset::{
    id_before, id_precedes, lemma_bytes_before_asymmetric, lemma_bytes_before_irreflexive,
    lemma_bytes_before_transitive, lemma_id_before_connected, matches_of, Match, MatchRecord,
};

verus! {

/// `x` is listed before `y`: it has the larger size, or the same size and the identity
/// that sorts first.
pub open spec fn ranks_before(x: Match, y: Match) -> bool {
    x.size > y.size || (x.size == y.size && id_before(x.id, y.id))
}

/// `x` comes before `y` in the direction asked for: best first, or worst first.
pub open spec fn precedes(x: Match, y: Match, best_first: bool) -> bool {
    if best_first {
        ranks_before(x, y)
    } else {
        ranks_before(y, x)
    }
}

/// No record of the list stands behind one that it comes before.
pub open spec fn in_order(records: Seq<Match>, best_first: bool) -> bool {
    forall|i: int, j: int|
        #![trigger records[i], records[j]]
        0 <= i < j < records.len() ==> !precedes(records[j], records[i], best_first)
}

/// Each record of the list is listed before all that follow it.
pub open spec fn is_ranked(records: Seq<Match>) -> bool {
    forall|i: int, j: int|
        #![trigger records[i], records[j]]
        0 <= i < j < records.len() ==> ranks_before(records[i], records[j])
}

/// No record is listed before itself.
pub proof fn lemma_ranks_irreflexive(x: Match)
    ensures
        !ranks_before(x, x),
{
    lemma_bytes_before_irreflexive(encode_utf8(x.id));
}

/// Listing before is transitive.
pub proof fn lemma_ranks_transitive(x: Match, y: Match, z: Match)
    requires
        ranks_before(x, y),
        ranks_before(y, z),
    ensures
        ranks_before(x, z),
{
    if x.size == y.size && y.size == z.size {
        lemma_bytes_before_transitive(encode_utf8(x.id), encode_utf8(y.id), encode_utf8(z.id));
    }
}

/// Of two records, at most one is listed before the other.
pub proof fn lemma_ranks_asymmetric(x: Match, y: Match)
    requires
        ranks_before(x, y),
    ensures
        !ranks_before(y, x),
{
    if x.size == y.size {
        lemma_bytes_before_asymmetric(encode_utf8(x.id), encode_utf8(y.id));
    }
}

/// Of two different records, one is listed before the other.
pub proof fn lemma_ranks_connected(x: Match, y: Match)
    requires
        x != y,
    ensures
        ranks_before(x, y) || ranks_before(y, x),
{
    if x.size == y.size {
        lemma_id_before_connected(x.id, y.id);
    }
}

/// If `z` does not come before `y`, nor `y` before `x`, then `z` does not come before `x`.
proof fn lemma_not_before_chain(x: Match, y: Match, z: Match, best_first: bool)
    requires
        !precedes(y, x, best_first),
        !precedes(z, y, best_first),
    ensures
        !precedes(z, x, best_first),
{
    if precedes(z, x, best_first) && x != y {
        lemma_ranks_connected(x, y);
        if best_first {
            lemma_ranks_transitive(z, x, y);
        } else {
            lemma_ranks_transitive(y, x, z);
        }
    }
}

/// A list in best-first order that holds no record twice is ranked.
pub proof fn lemma_ordered_distinct_is_ranked(records: Seq<Match>)
    requires
        in_order(records, true),
        records.no_duplicates(),
    ensures
        is_ranked(records),
{
    assert forall|i: int, j: int|
        #![trigger records[i], records[j]]
        0 <= i < j < records.len() implies ranks_before(records[i], records[j]) by {
        lemma_ranks_connected(records[i], records[j]);
    }
}

/// Whether `a` is listed before `b`.
pub fn listed_before(a: &MatchRecord, b: &MatchRecord) -> (before: bool)
    ensures
        before == ranks_before(a@, b@),
{
    a.intersection_size > b.intersection_size || (a.intersection_size == b.intersection_size
        && id_precedes(a.dataset_id.as_str(), b.dataset_id.as_str()))
}

/// What holds while two runs are merged into `out`: the runs are in the order opposite
/// to the one asked for, `out` is in the order asked for, and nothing left in the runs
/// comes before anything in `out`.
spec fn merging(out: Seq<Match>, left: Seq<Match>, right: Seq<Match>, best_first: bool) -> bool {
    &&& in_order(left, !best_first)
    &&& in_order(right, !best_first)
    &&& in_order(out, best_first)
    &&& forall|i: int, j: int|
        #![trigger out[i], left[j]]
        0 <= i < out.len() && 0 <= j < left.len() ==> !precedes(left[j], out[i], best_first)
    &&& forall|i: int, j: int|
        #![trigger out[i], right[j]]
        0 <= i < out.len() && 0 <= j < right.len() ==> !precedes(right[j], out[i], best_first)
}

/// Moving the last record of one run to `out` keeps the merge going, if the last
/// record of the other run does not come before it.
proof fn lemma_merge_step(out: Seq<Match>, run: Seq<Match>, other: Seq<Match>, best_first: bool)
    requires
        merging(out, run, other, best_first),
        run.len() > 0,
        other.len() > 0 ==> !precedes(other.last(), run.last(), best_first),
    ensures
        merging(out.push(run.last()), run.drop_last(), other, best_first),
        merging(out.push(run.last()), other, run.drop_last(), best_first),
{
    let x = run.last();
    assert forall|j: int| 0 <= j < other.len() implies !precedes(
        #[trigger] other[j],
        x,
        best_first,
    ) by {
        lemma_not_before_chain(x, other.last(), other[j], best_first);
    }
}

/// Merges two runs that are each in the order opposite to the one asked for, taking
/// from their ends.
fn merge_runs(left: Vec<MatchRecord>, right: Vec<MatchRecord>, best_first: bool) -> (out: Vec<
    MatchRecord,
>)
    requires
        in_order(matches_of(left@), !best_first),
        in_order(matches_of(right@), !best_first),
    ensures
        in_order(matches_of(out@), best_first),
        matches_of(out@).to_multiset() == matches_of(left@).to_multiset().add(
            matches_of(right@).to_multiset(),
        ),
{
    let ghost all = matches_of(left@).to_multiset().add(matches_of(right@).to_multiset());
    let mut left = left;
    let mut right = right;
    let mut out: Vec<MatchRecord> = Vec::new();
    proof {
        broadcast use vstd::seq_lib::group_to_multiset_ensures;

        assert(matches_of(out@) =~= Seq::<Match>::empty());
    }
    while left.len() > 0 || right.len() > 0
        invariant
            merging(matches_of(out@), matches_of(left@), matches_of(right@), best_first),
            matches_of(out@).to_multiset().add(matches_of(left@).to_multiset()).add(
                matches_of(right@).to_multiset(),
            ) == all,
        decreases left.len() + right.len(),
    {
        let ghost l = matches_of(left@);
        let ghost r = matches_of(right@);
        let ghost o = matches_of(out@);
        let from_right = if left.len() == 0 {
            true
        } else if right.len() == 0 {
            false
        } else {
            let a = &right[right.len() - 1];
            let b = &left[left.len() - 1];
            if best_first {
                listed_before(a, b)
            } else {
                listed_before(b, a)
            }
        };
        if from_right {
            proof {
                lemma_merge_step(o, r, l, best_first);
            }
            let next = right.pop().unwrap();
            out.push(next);
            proof {
                assert(matches_of(right@) =~= r.drop_last());
                assert(matches_of(out@) =~= o.push(r.last()));
                assert(r =~= r.drop_last().push(r.last()));
                to_multiset_build(r.drop_last(), r.last());
                to_multiset_build(o, r.last());
            }
        } else {
            proof {
                lemma_merge_step(o, l, r, best_first);
            }
            let next = left.pop().unwrap();
            out.push(next);
            proof {
                assert(matches_of(left@) =~= l.drop_last());
                assert(matches_of(out@) =~= o.push(l.last()));
                assert(l =~= l.drop_last().push(l.last()));
                to_multiset_build(l.drop_last(), l.last());
                to_multiset_build(o, l.last());
            }
        }
    }
    proof {
        broadcast use vstd::seq_lib::group_to_multiset_ensures;

        assert(matches_of(left@) =~= Seq::<Match>::empty());
        assert(matches_of(right@) =~= Seq::<Match>::empty());
    }
    out
}

/// Sorts the records in the direction asked for, by merging sorted halves.
fn sort_run(records: Vec<MatchRecord>, best_first: bool) -> (out: Vec<MatchRecord>)
    ensures
        in_order(matches_of(out@), best_first),
        matches_of(out@).to_multiset() == matches_of(records@).to_multiset(),
    decreases records@.len(),
{
    let n = records.len();
    if n <= 1 {
        return records;
    }
    let ghost whole = matches_of(records@);
    let mut left = records;
    let right = left.split_off(n / 2);
    proof {
        let a = matches_of(left@);
        let b = matches_of(right@);
        assert(whole =~= a + b);
        lemma_multiset_commutative(a, b);
    }
    let left = sort_run(left, !best_first);
    let right = sort_run(right, !best_first);
    merge_runs(left, right, best_first)
}

/// Puts the records in the order of a report: larger sizes first, equal sizes by
/// identity.
pub fn rank(records: Vec<MatchRecord>) -> (rows: Vec<MatchRecord>)
    ensures
        in_order(matches_of(rows@), true),
        matches_of(rows@).to_multiset() == matches_of(records@).to_multiset(),
{
    sort_run(records, true)
}

} // verus!
