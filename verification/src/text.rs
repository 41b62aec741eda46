//! Putting messages together.
use vstd::prelude::*;

verus! {

/// `inner` between `before` and `after`.
pub(crate) fn quoted(before: &str, inner: &str, after: &str) -> (text: String)
    ensures
        text@ == before@ + inner@ + after@,
{
    let mut text = before.to_owned();
    text.append(inner);
    text.append(after);
    text
}

} // verus!
