//! Copying bytes from one buffer to the end of another.

use vstd::prelude::*;
use vstd::slice::slice_subrange;

verus! {

/// Appends the bytes of `text` in `[start, end)` to `out`.
pub(crate) fn append_span(out: &mut Vec<u8>, text: &[u8], start: usize, end: usize)
    requires
        start <= end <= text@.len(),
    ensures
        final(out)@ == old(out)@ + text@.subrange(start as int, end as int),
{
    let piece = slice_subrange(text, start, end);
    out.extend_from_slice(piece);
    assert(out@ =~= old(out)@ + text@.subrange(start as int, end as int));
}

/// Appends all of `text` to `out`.
pub(crate) fn append_all(out: &mut Vec<u8>, text: &[u8])
    ensures
        final(out)@ == old(out)@ + text@,
{
    out.extend_from_slice(text);
    assert(out@ =~= old(out)@ + text@);
}

/// A copy of the bytes of `text` in `[start, end)`.
pub(crate) fn copy_span(text: &[u8], start: usize, end: usize) -> (r: Vec<u8>)
    requires
        start <= end <= text@.len(),
    ensures
        r@ == text@.subrange(start as int, end as int),
{
    let mut r: Vec<u8> = Vec::new();
    append_span(&mut r, text, start, end);
    assert(r@ =~= text@.subrange(start as int, end as int));
    r
}

} // verus!
