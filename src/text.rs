//! Read access to a rope slice, as seen by the verified code: a sequence of chars.
use ropey::RopeSlice;
use vstd::prelude::*;

verus! {

#[verifier::external_type_specification]
#[verifier::external_body]
pub struct ExRopeSlice<'a>(RopeSlice<'a>);

/// The characters a rope slice holds, in order.
pub uninterp spec fn slice_chars(t: RopeSlice<'_>) -> Seq<char>;

/// Relies on `ropey::RopeSlice::len_chars`: the number of chars in the slice.
#[verifier::external_body]
pub(crate) fn len_chars(t: RopeSlice<'_>) -> (r: usize)
    ensures
        r as int == slice_chars(t).len(),
{
    t.len_chars()
}

/// Relies on `ropey::RopeSlice::char`: the char at `idx`; it panics when `idx`
/// is not below `len_chars()`.
#[verifier::external_body]
pub(crate) fn char_at(t: RopeSlice<'_>, idx: usize) -> (r: char)
    requires
        idx < slice_chars(t).len(),
    ensures
        r == slice_chars(t)[idx as int],
{
    t.char(idx)
}

} // verus!
