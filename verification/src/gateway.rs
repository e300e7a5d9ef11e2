//! The sketch gateway: what is let through to the search.
//!
//! A request body is a container of sketches. It is looked at only if it is no larger
//! than the service accepts, and of the sketches it holds the service takes the first,
//! always, whatever the others are. That sketch is then brought to the resolution at
//! which the service compares, and has to have something left at that resolution.

use vstd::prelude::*;
use crate::failure::Failure;

verus! {

/// The largest request body that is accepted, in bytes.
pub const MAX_BODY_BYTES: u64 = 1024 * 5_000;

/// The text of the failure that a container without sketches gives.
pub open spec fn empty_container_text() -> Seq<char> {
    "the container holds no sketch"@
}

/// Accepts a body of `len` bytes, or refuses it as too large. This comes first: a body
/// that is refused is not decoded.
pub fn check_body_size(len: u64) -> (checked: Result<(), Failure>)
    ensures
        checked is Ok <==> len <= MAX_BODY_BYTES,
        checked matches Err(failure) ==> failure == Failure::PayloadTooLarge,
{
    if len > MAX_BODY_BYTES {
        Err(Failure::PayloadTooLarge)
    } else {
        Ok(())
    }
}

/// Takes the sketch to search with out of a decoded container: the first one. A
/// container that holds none is malformed.
pub fn first_sketch<T>(decoded: Vec<T>) -> (picked: Result<T, Failure>)
    ensures
        picked is Ok <==> decoded@.len() > 0,
        picked matches Ok(sketch) ==> sketch == decoded@[0],
        picked matches Err(failure) ==> {
            &&& failure matches Failure::MalformedInput(text)
            &&& text@ == empty_container_text()
        },
{
    let mut decoded = decoded;
    if decoded.len() == 0 {
        Err(Failure::MalformedInput("the container holds no sketch".to_owned()))
    } else {
        Ok(decoded.swap_remove(0))
    }
}

/// The text of the failure that a sketch with nothing at the comparison resolution
/// gives.
pub open spec fn nothing_left_text() -> Seq<char> {
    "no sketch is left at the comparison resolution"@
}

/// Accepts a sketch of which `remaining` parts are left after it was brought to the
/// comparison resolution. A sketch of which nothing is left is incompatible.
pub fn check_reprojected(remaining: usize) -> (checked: Result<(), Failure>)
    ensures
        checked is Ok <==> remaining > 0,
        checked matches Err(failure) ==> {
            &&& failure matches Failure::IncompatibleSketch(text)
            &&& text@ == nothing_left_text()
        },
{
    if remaining == 0 {
        Err(
            Failure::IncompatibleSketch(
                "no sketch is left at the comparison resolution".to_owned(),
            ),
        )
    } else {
        Ok(())
    }
}

} // verus!
