use vstd::prelude::*;

verus! {

/// A directory entry is hidden when its name starts with a dot.
pub open spec fn hidden(name: Seq<char>) -> bool {
    name.len() > 0 && name[0] == '.'
}

/// Whether a directory entry of this name is hidden, and so skipped together
/// with everything beneath it.
pub fn is_hidden(name: &str) -> (r: bool)
    ensures
        r == hidden(name@),
{
    name.unicode_len() > 0 && name.get_char(0) == '.'
}

/// Whether a directory entry of this name is walked.
pub fn not_hidden(name: &str) -> (r: bool)
    ensures
        r == !hidden(name@),
{
    !is_hidden(name)
}

} // verus!
