//! What is asked of the two paths that a run is given, before anything is read or
//! written.

use vstd::prelude::*;

verus! {

/// Why a run is refused before it starts, or its output before it is written.
#[derive(Clone, Copy, Debug, PartialEq, Eq, Structural)]
pub enum Refusal {
    /// The entry path is no regular file.
    InvalidRoot,
    /// The output path exists, and overwriting was not asked for.
    OutputAlreadyExists,
}

/// Admits the entry path if it is a regular file.
pub fn check_entry(is_file: bool) -> (r: Result<(), Refusal>)
    ensures
        r is Ok <==> is_file,
        r is Err ==> r == Err::<(), Refusal>(Refusal::InvalidRoot),
{
    if is_file {
        Ok(())
    } else {
        Err(Refusal::InvalidRoot)
    }
}

/// Admits the writing of the output file: a path that exists is written to only if
/// overwriting is forced.
pub fn check_output(exists: bool, force: bool) -> (r: Result<(), Refusal>)
    ensures
        r is Ok <==> force || !exists,
        r is Err ==> r == Err::<(), Refusal>(Refusal::OutputAlreadyExists),
{
    if force || !exists {
        Ok(())
    } else {
        Err(Refusal::OutputAlreadyExists)
    }
}

} // verus!
