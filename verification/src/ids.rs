//! Fresh random identifiers, made by the `uuid` crate.
use vstd::prelude::*;

verus! {

/// A new random (version 4) UUID in its hyphenated text form, from
/// `uuid::Uuid::new_v4().to_string()`. Nothing is claimed of the text: it is
/// random, and two calls may give anything.
#[verifier::external_body]
pub(crate) fn new_uuid_v4() -> (r: String) {
    uuid::Uuid::new_v4().to_string()
}

} // verus!
