//! The rule that turns a count of delimiter occurrences into a count of segments.

use vstd::arithmetic::overflow::CheckedUsize;
use vstd::prelude::*;

verus! {

/// Number of segments of an input in which `occurrences` delimiters were found. Input
/// without content has no segment. Input that ends exactly on a delimiter has one segment
/// before each delimiter; any other has one more, which follows the last delimiter.
pub open spec fn segment_total(occurrences: nat, ends_on_delimiter: bool, has_content: bool) -> nat {
    if !has_content {
        0
    } else if ends_on_delimiter {
        occurrences
    } else {
        occurrences + 1
    }
}

/// A number as a `usize`, where it is small enough to be one.
pub open spec fn fit(n: nat) -> Option<usize> {
    if n <= usize::MAX {
        Some(n as usize)
    } else {
        None
    }
}

/// Applies the terminal rule. The result is `None` where the number of segments is too
/// large for a `usize`.
pub fn segment_count(occurrences: usize, ends_on_delimiter: bool, has_content: bool) -> (total:
    Option<usize>)
    ensures
        total == fit(segment_total(occurrences as nat, ends_on_delimiter, has_content)),
{
    if !has_content {
        Some(0)
    } else if ends_on_delimiter {
        Some(occurrences)
    } else {
        occurrences.checked_add(1)
    }
}

/// Applies the terminal rule to a running count that may have outgrown `usize`.
pub fn running_segment_count(
    occurrences: &CheckedUsize,
    ends_on_delimiter: bool,
    has_content: bool,
) -> (total: Option<usize>)
    ensures
        total == fit(segment_total(occurrences@, ends_on_delimiter, has_content)),
{
    match occurrences.to_option() {
        Some(found) => segment_count(found, ends_on_delimiter, has_content),
        None => if has_content {
            None
        } else {
            Some(0)
        },
    }
}

} // verus!
