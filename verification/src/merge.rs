//! Merging the answers of a pool by dataset identity.
//!
//! Every index answers for itself. A record counts only if its own intersection size
//! reaches the threshold: the threshold is applied per index, before anything is
//! summed. The sizes of the records that count are then added up per identity, across
//! all indices.

use vstd::hash_map::StringHashMap;
use vstd::prelude::*;
use crate::dataset::{matches_of, pool_of, Match, MatchRecord};

verus! {

/// What record `m` adds to the total of `id`: its size if it is a record of `id` that
/// reaches the threshold, nothing otherwise.
pub open spec fn share(m: Match, id: Seq<char>, threshold: nat) -> nat {
    if m.id == id && m.size >= threshold {
        m.size
    } else {
        0
    }
}

/// The sum of the shares that the records of one answer add to `id`.
pub open spec fn answer_total(answer: Seq<Match>, id: Seq<char>, threshold: nat) -> nat
    decreases answer.len(),
{
    if answer.len() == 0 {
        0
    } else {
        answer_total(answer.drop_last(), id, threshold) + share(answer.last(), id, threshold)
    }
}

/// The sum, over all answers of the pool, of what each adds to `id`.
pub open spec fn pool_total(pool: Seq<Seq<Match>>, id: Seq<char>, threshold: nat) -> nat
    decreases pool.len(),
{
    if pool.len() == 0 {
        0
    } else {
        pool_total(pool.drop_last(), id, threshold) + answer_total(pool.last(), id, threshold)
    }
}

/// Some record of the answer is a record of `id` that reaches the threshold.
pub open spec fn answer_names(answer: Seq<Match>, id: Seq<char>, threshold: nat) -> bool {
    exists|j: int|
        #![trigger answer[j]]
        0 <= j < answer.len() && answer[j].id == id && answer[j].size >= threshold
}

/// Some answer of the pool names `id`.
pub open spec fn pool_names(pool: Seq<Seq<Match>>, id: Seq<char>, threshold: nat) -> bool {
    exists|i: int| #![trigger pool[i]] 0 <= i < pool.len() && answer_names(pool[i], id, threshold)
}

/// Some record of the list is a record of `id`.
pub open spec fn listed(records: Seq<Match>, id: Seq<char>) -> bool {
    exists|k: int| #![trigger records[k]] 0 <= k < records.len() && records[k].id == id
}

/// No identity occurs twice in the list.
pub open spec fn distinct_ids(records: Seq<Match>) -> bool {
    forall|i: int, j: int|
        #![trigger records[i], records[j]]
        0 <= i < j < records.len() ==> records[i].id != records[j].id
}

/// `merged` is the merge of `pool`: it lists each identity that some answer names,
/// once, with the pool's total for it, and lists nothing else.
pub open spec fn is_merge_of(merged: Seq<Match>, pool: Seq<Seq<Match>>, threshold: nat) -> bool {
    &&& distinct_ids(merged)
    &&& forall|k: int|
        #![trigger merged[k]]
        0 <= k < merged.len() ==> {
            &&& pool_names(pool, merged[k].id, threshold)
            &&& merged[k].size == pool_total(pool, merged[k].id, threshold)
        }
    &&& forall|id: Seq<char>| #[trigger] pool_names(pool, id, threshold) ==> listed(merged, id)
}

/// Every total of the pool can be held in a `usize`.
pub open spec fn totals_fit(pool: Seq<Seq<Match>>, threshold: nat) -> bool {
    forall|id: Seq<char>| #[trigger] pool_total(pool, id, threshold) <= usize::MAX
}

/// The running tally `acc` accounts for exactly the answers `seen`.
spec fn tallies(acc: Seq<Match>, seen: Seq<Seq<Match>>, threshold: nat) -> bool {
    &&& distinct_ids(acc)
    &&& forall|id: Seq<char>|
        answer_total(acc, id, 0) == #[trigger] pool_total(seen, id, threshold)
    &&& forall|id: Seq<char>| listed(acc, id) == #[trigger] pool_names(seen, id, threshold)
}

/// The answers seen when `whole` answers are done and `part` is the done part of the next.
spec fn seen_so_far(whole: Seq<Seq<Match>>, part: Seq<Match>) -> Seq<Seq<Match>> {
    whole.push(part)
}

proof fn lemma_total_push(answer: Seq<Match>, m: Match, id: Seq<char>, threshold: nat)
    ensures
        answer_total(answer.push(m), id, threshold) == answer_total(answer, id, threshold) + share(
            m,
            id,
            threshold,
        ),
{
    assert(answer.push(m).drop_last() =~= answer);
}

proof fn lemma_total_update(answer: Seq<Match>, k: int, m: Match, id: Seq<char>, threshold: nat)
    requires
        0 <= k < answer.len(),
    ensures
        answer_total(answer.update(k, m), id, threshold) + share(answer[k], id, threshold)
            == answer_total(answer, id, threshold) + share(m, id, threshold),
    decreases answer.len(),
{
    let changed = answer.update(k, m);
    if k == answer.len() - 1 {
        assert(changed.drop_last() =~= answer.drop_last());
    } else {
        assert(changed.drop_last() =~= answer.drop_last().update(k, m));
        lemma_total_update(answer.drop_last(), k, m, id, threshold);
    }
}

/// An identity that the list does not hold has total zero.
proof fn lemma_total_of_unlisted(records: Seq<Match>, id: Seq<char>)
    requires
        !listed(records, id),
    ensures
        answer_total(records, id, 0) == 0,
{
    lemma_unnamed_answer_total(records, id, 0);
}

/// In a list without repeated identities, the total of a listed identity is the size of
/// its one record.
proof fn lemma_total_of_listed(records: Seq<Match>, k: int)
    requires
        distinct_ids(records),
        0 <= k < records.len(),
    ensures
        answer_total(records, records[k].id, 0) == records[k].size,
    decreases records.len(),
{
    let id = records[k].id;
    let front = records.drop_last();
    if k == records.len() - 1 {
        lemma_total_of_unlisted(front, id);
    } else {
        lemma_total_of_listed(front, k);
    }
}

/// A prefix of an answer adds no more to an identity than the whole answer.
proof fn lemma_answer_prefix_total(answer: Seq<Match>, j: int, id: Seq<char>, threshold: nat)
    requires
        0 <= j <= answer.len(),
    ensures
        answer_total(answer.take(j), id, threshold) <= answer_total(answer, id, threshold),
    decreases answer.len() - j,
{
    if j == answer.len() {
        assert(answer.take(j) =~= answer);
    } else {
        assert(answer.take(j + 1).drop_last() =~= answer.take(j));
        lemma_answer_prefix_total(answer, j + 1, id, threshold);
    }
}

/// The first answers of a pool add no more to an identity than the whole pool.
proof fn lemma_pool_prefix_total(pool: Seq<Seq<Match>>, i: int, id: Seq<char>, threshold: nat)
    requires
        0 <= i <= pool.len(),
    ensures
        pool_total(pool.take(i), id, threshold) <= pool_total(pool, id, threshold),
    decreases pool.len() - i,
{
    if i == pool.len() {
        assert(pool.take(i) =~= pool);
    } else {
        assert(pool.take(i + 1).drop_last() =~= pool.take(i));
        lemma_pool_prefix_total(pool, i + 1, id, threshold);
    }
}

/// What has been seen adds no more to an identity than the whole pool.
proof fn lemma_seen_total_bounded(
    pool: Seq<Seq<Match>>,
    i: int,
    j: int,
    id: Seq<char>,
    threshold: nat,
)
    requires
        0 <= i < pool.len(),
        0 <= j <= pool[i].len(),
    ensures
        pool_total(seen_so_far(pool.take(i), pool[i].take(j)), id, threshold) <= pool_total(
            pool,
            id,
            threshold,
        ),
{
    let seen = seen_so_far(pool.take(i), pool[i].take(j));
    assert(seen.drop_last() =~= pool.take(i));
    assert(pool.take(i + 1).drop_last() =~= pool.take(i));
    lemma_answer_prefix_total(pool[i], j, id, threshold);
    lemma_pool_prefix_total(pool, i + 1, id, threshold);
}

/// Starting on the next answer changes nothing of what has been seen.
proof fn lemma_seen_start(acc: Seq<Match>, whole: Seq<Seq<Match>>, threshold: nat)
    requires
        tallies(acc, whole, threshold),
    ensures
        tallies(acc, seen_so_far(whole, Seq::empty()), threshold),
{
    let seen = seen_so_far(whole, Seq::empty());
    assert(seen.drop_last() =~= whole);
    assert forall|id: Seq<char>| pool_names(whole, id, threshold) == #[trigger] pool_names(
        seen,
        id,
        threshold,
    ) by {}
    assert forall|id: Seq<char>|
        answer_total(acc, id, 0) == #[trigger] pool_total(seen, id, threshold) by {
        assert(pool_total(whole, id, threshold) == answer_total(acc, id, 0));
    }
}

/// Having gone through a whole answer is having seen one answer more.
proof fn lemma_seen_finish(acc: Seq<Match>, pool: Seq<Seq<Match>>, i: int, threshold: nat)
    requires
        0 <= i < pool.len(),
        tallies(acc, seen_so_far(pool.take(i), pool[i].take(pool[i].len() as int)), threshold),
    ensures
        tallies(acc, pool.take(i + 1), threshold),
{
    assert(pool[i].take(pool[i].len() as int) =~= pool[i]);
    assert(seen_so_far(pool.take(i), pool[i]) =~= pool.take(i + 1));
}

/// One more record of the current answer: what it changes in the totals and the names.
proof fn lemma_seen_step(
    whole: Seq<Seq<Match>>,
    answer: Seq<Match>,
    j: int,
    id: Seq<char>,
    threshold: nat,
)
    requires
        0 <= j < answer.len(),
    ensures
        pool_total(seen_so_far(whole, answer.take(j + 1)), id, threshold) == pool_total(
            seen_so_far(whole, answer.take(j)),
            id,
            threshold,
        ) + share(answer[j], id, threshold),
        pool_names(seen_so_far(whole, answer.take(j + 1)), id, threshold) == (pool_names(
            seen_so_far(whole, answer.take(j)),
            id,
            threshold,
        ) || (answer[j].id == id && answer[j].size >= threshold)),
{
    let before = seen_so_far(whole, answer.take(j));
    let after = seen_so_far(whole, answer.take(j + 1));
    assert(before.drop_last() =~= whole);
    assert(after.drop_last() =~= whole);
    assert(answer.take(j + 1).drop_last() =~= answer.take(j));
}

/// A tally of the whole pool is its merge.
proof fn lemma_tally_is_merge(acc: Seq<Match>, pool: Seq<Seq<Match>>, threshold: nat)
    requires
        tallies(acc, pool, threshold),
    ensures
        is_merge_of(acc, pool, threshold),
{
    assert forall|k: int| #![trigger acc[k]] 0 <= k < acc.len() implies {
        &&& pool_names(pool, acc[k].id, threshold)
        &&& acc[k].size == pool_total(pool, acc[k].id, threshold)
    } by {
        lemma_total_of_listed(acc, k);
    }
}

/// The totals of a pool that has a merge all fit.
pub proof fn lemma_merged_totals_fit(
    merged: Seq<MatchRecord>,
    pool: Seq<Seq<Match>>,
    threshold: nat,
)
    requires
        is_merge_of(matches_of(merged), pool, threshold),
    ensures
        totals_fit(pool, threshold),
{
    assert forall|id: Seq<char>| #[trigger] pool_total(pool, id, threshold) <= usize::MAX by {
        if !pool_names(pool, id, threshold) {
            lemma_unnamed_total(pool, id, threshold);
        }
    }
}

/// An identity that no answer names has total zero.
pub proof fn lemma_unnamed_total(pool: Seq<Seq<Match>>, id: Seq<char>, threshold: nat)
    requires
        !pool_names(pool, id, threshold),
    ensures
        pool_total(pool, id, threshold) == 0,
    decreases pool.len(),
{
    if pool.len() > 0 {
        let front = pool.drop_last();
        let last = pool[pool.len() - 1];
        lemma_unnamed_total(front, id, threshold);
        lemma_unnamed_answer_total(last, id, threshold);
    }
}

/// An identity that an answer does not name adds nothing to its total.
pub proof fn lemma_unnamed_answer_total(answer: Seq<Match>, id: Seq<char>, threshold: nat)
    requires
        !answer_names(answer, id, threshold),
    ensures
        answer_total(answer, id, threshold) == 0,
    decreases answer.len(),
{
    if answer.len() > 0 {
        let front = answer.drop_last();
        lemma_unnamed_answer_total(front, id, threshold);
    }
}

/// The records merged so far, with the place of each identity among them.
struct Tally {
    records: Vec<MatchRecord>,
    places: StringHashMap<usize>,
}

impl Tally {
    /// The records hold no identity twice, and the places are those of the identities
    /// that the records hold.
    spec fn well_formed(&self) -> bool {
        &&& distinct_ids(matches_of(self.records@))
        &&& forall|id: Seq<char>| #[trigger]
            self.places@.contains_key(id) ==> {
                &&& self.places@[id] < self.records@.len()
                &&& self.records@[self.places@[id] as int].dataset_id@ == id
            }
        &&& forall|k: int|
            0 <= k < self.records@.len() ==> self.places@.contains_key(
                #[trigger] self.records@[k].dataset_id@,
            )
    }

    fn new() -> (tally: Tally)
        ensures
            tally.well_formed(),
            tally.records@.len() == 0,
    {
        Tally { records: Vec::new(), places: StringHashMap::new() }
    }

    /// Where the records hold the record of `id`, if they hold one.
    fn position_of(&self, id: &str) -> (at: Option<usize>)
        requires
            self.well_formed(),
        ensures
            match at {
                Some(k) => k < self.records@.len() && self.records@[k as int].dataset_id@ == id@,
                None => !listed(matches_of(self.records@), id@),
            },
    {
        match self.places.get(id) {
            Some(k) => Some(*k),
            None => None,
        }
    }

    /// Adds one record to the tally: to the record of its identity, or as a new one.
    /// Leaves the tally as it is, and says so, where the sum cannot be held.
    fn absorb(&mut self, record: &MatchRecord) -> (held: bool)
        requires
            old(self).well_formed(),
        ensures
            final(self).well_formed(),
            held ==> {
                &&& forall|id: Seq<char>|
                    #[trigger] answer_total(matches_of(final(self).records@), id, 0)
                        == answer_total(matches_of(old(self).records@), id, 0) + share(
                        record@,
                        id,
                        0,
                    )
                &&& forall|id: Seq<char>|
                    #[trigger] listed(matches_of(final(self).records@), id) == (listed(
                        matches_of(old(self).records@),
                        id,
                    ) || id == record@.id)
            },
            !held ==> {
                &&& final(self).records@ == old(self).records@
                &&& answer_total(matches_of(old(self).records@), record@.id, 0) + record@.size
                    > usize::MAX
            },
    {
        let ghost before = matches_of(self.records@);
        match self.position_of(record.dataset_id.as_str()) {
            Some(k) => {
                proof {
                    lemma_total_of_listed(before, k as int);
                }
                match self.records[k].intersection_size.checked_add(record.intersection_size) {
                    Some(sum) => {
                        self.records[k].intersection_size = sum;
                        proof {
                            let after = matches_of(self.records@);
                            let m = Match { id: record@.id, size: sum as nat };
                            assert(after =~= before.update(k as int, m));
                            assert forall|id: Seq<char>|
                                #[trigger] answer_total(after, id, 0) == answer_total(
                                    before,
                                    id,
                                    0,
                                ) + share(record@, id, 0) by {
                                lemma_total_update(before, k as int, m, id, 0);
                            }
                            assert forall|id: Seq<char>|
                                #[trigger] listed(after, id) == (listed(before, id) || id
                                    == record@.id) by {
                                if listed(before, id) {
                                    let i = choose|i: int|
                                        #![trigger before[i]]
                                        0 <= i < before.len() && before[i].id == id;
                                    assert(after[i].id == id);
                                }
                            }
                        }
                        true
                    },
                    None => false,
                }
            },
            None => {
                let at = self.records.len();
                self.places.insert(record.dataset_id.clone(), at);
                self.records.push(
                    MatchRecord {
                        dataset_id: record.dataset_id.clone(),
                        intersection_size: record.intersection_size,
                    },
                );
                proof {
                    let after = matches_of(self.records@);
                    assert(after =~= before.push(record@));
                    assert forall|id: Seq<char>|
                        #[trigger] answer_total(after, id, 0) == answer_total(before, id, 0)
                            + share(record@, id, 0) by {
                        lemma_total_push(before, record@, id, 0);
                    }
                    assert forall|id: Seq<char>|
                        #[trigger] listed(after, id) == (listed(before, id) || id
                            == record@.id) by {
                        if listed(before, id) {
                            let i = choose|i: int|
                                #![trigger before[i]]
                                0 <= i < before.len() && before[i].id == id;
                            assert(after[i].id == id);
                        }
                        if id == record@.id {
                            assert(after[before.len() as int].id == id);
                        }
                    }
                }
                true
            },
        }
    }
}

/// Merges the answers of a pool.
///
/// A record below the threshold is passed over. The others are summed per identity.
/// Returns `None` exactly when the total of some identity is too large for a `usize`.
/// The merged records come in no order that a caller may count on: ranking orders them.
pub fn merge_answers(answers: &Vec<Vec<MatchRecord>>, threshold: usize) -> (merged: Option<
    Vec<MatchRecord>,
>)
    ensures
        merged is Some <==> totals_fit(pool_of(answers@), threshold as nat),
        merged matches Some(list) ==> is_merge_of(
            matches_of(list@),
            pool_of(answers@),
            threshold as nat,
        ),
{
    let ghost pool = pool_of(answers@);
    let ghost t = threshold as nat;
    let mut tally = Tally::new();
    let mut i: usize = 0;
    while i < answers.len()
        invariant
            i <= answers.len(),
            pool == pool_of(answers@),
            t == threshold as nat,
            tally.well_formed(),
            tallies(matches_of(tally.records@), pool.take(i as int), t),
        decreases answers.len() - i,
    {
        let answer = &answers[i];
        let ghost whole = pool.take(i as int);
        let ghost current = pool[i as int];
        let mut j: usize = 0;
        proof {
            lemma_seen_start(matches_of(tally.records@), whole, t);
            assert(current.take(0) =~= Seq::<Match>::empty());
        }
        while j < answer.len()
            invariant
                i < answers.len(),
                j <= answer.len(),
                pool == pool_of(answers@),
                t == threshold as nat,
                whole == pool.take(i as int),
                current == pool[i as int],
                current == matches_of(answer@),
                tally.well_formed(),
                tallies(
                    matches_of(tally.records@),
                    seen_so_far(whole, current.take(j as int)),
                    t,
                ),
            decreases answer.len() - j,
        {
            let record = &answer[j];
            if record.intersection_size >= threshold {
                let held = tally.absorb(record);
                if !held {
                    proof {
                        let id = record@.id;
                        lemma_seen_step(whole, current, j as int, id, t);
                        lemma_seen_total_bounded(pool, i as int, j as int + 1, id, t);
                    }
                    return None;
                }
            }
            proof {
                let after = matches_of(tally.records@);
                let next = seen_so_far(whole, current.take(j as int + 1));
                assert forall|id: Seq<char>|
                    answer_total(after, id, 0) == #[trigger] pool_total(next, id, t) by {
                    lemma_seen_step(whole, current, j as int, id, t);
                }
                assert forall|id: Seq<char>| listed(after, id) == #[trigger] pool_names(
                    next,
                    id,
                    t,
                ) by {
                    lemma_seen_step(whole, current, j as int, id, t);
                }
            }
            j = j + 1;
        }
        proof {
            lemma_seen_finish(matches_of(tally.records@), pool, i as int, t);
        }
        i = i + 1;
    }
    proof {
        assert(pool.take(i as int) =~= pool);
        lemma_tally_is_merge(matches_of(tally.records@), pool, t);
        lemma_merged_totals_fit(tally.records@, pool, t);
    }
    Some(tally.records)
}

} // verus!
