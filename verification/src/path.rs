//! Joining a directory path and an entry name by the host's path rules.

use vstd::prelude::*;

verus! {

/// The text of the path that results when `segment` is pushed onto the path
/// `base`, by the path conventions of the target this library is built for.
pub uninterp spec fn joined(base: Seq<char>, segment: Seq<char>) -> Seq<char>;

/// Pushes `segment` onto `base` with `std::path::PathBuf::push` and hands
/// back the text of the path that results.
///
/// The body is not verified. The contract claims one thing of `push`: that
/// the path it yields depends on the two texts alone, so that it can be
/// called `joined(base, segment)`. What that text is, the contract leaves
/// open. Both inputs are valid UTF-8 and `push` only puts them together, so
/// turning the path back into a `String` loses nothing.
#[verifier::external_body]
pub(crate) fn join(base: String, segment: &str) -> (r: String)
    ensures
        r@ == joined(base@, segment@),
{
    let mut buf = std::path::PathBuf::from(base);
    buf.push(std::path::Path::new(segment));
    buf.to_string_lossy().into_owned()
}

} // verus!
