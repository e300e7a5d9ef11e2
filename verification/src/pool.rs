//! The index pool: all of it, or none.
//!
//! A service does not start with some of its indices, and a search does not go on
//! without the answer of one of them. Whatever is asked of every index of the pool
//! either has an outcome from each, or fails as the first index failed.

use vstd::prelude::*;

verus! {

/// `i` is the first index whose outcome is a failure.
pub open spec fn is_first_failure<T, E>(outcomes: Seq<Result<T, E>>, i: int) -> bool {
    &&& 0 <= i < outcomes.len()
    &&& outcomes[i] is Err
    &&& forall|k: int| 0 <= k < i ==> outcomes[k] is Ok
}

/// `values` holds what each index gave, index by index, and every index gave something.
pub open spec fn holds_all<T, E>(values: Seq<T>, outcomes: Seq<Result<T, E>>) -> bool {
    &&& values.len() == outcomes.len()
    &&& forall|i: int| 0 <= i < values.len() ==> outcomes[i] == Ok::<T, E>(values[i])
}

/// What every index gave, if every index gave something, and else the failure of the
/// first index that failed.
pub fn all_or_first_failure<T, E>(outcomes: Vec<Result<T, E>>) -> (settled: Result<Vec<T>, E>)
    ensures
        settled is Ok <==> forall|i: int| 0 <= i < outcomes@.len() ==> outcomes@[i] is Ok,
        settled matches Ok(values) ==> holds_all(values@, outcomes@),
        settled matches Err(failure) ==> exists|i: int|
            is_first_failure(outcomes@, i) && outcomes@[i] == Err::<T, E>(failure),
{
    let mut values: Vec<T> = Vec::new();
    for outcome in given: outcomes
        invariant
            given.seq() == outcomes@,
            values@.len() == given.index(),
            forall|k: int| 0 <= k < given.index() ==> outcomes@[k] == Ok::<T, E>(values@[k]),
    {
        match outcome {
            Ok(value) => {
                values.push(value);
            },
            Err(failure) => {
                return Err(failure);
            },
        }
    }
    Ok(values)
}

} // verus!
