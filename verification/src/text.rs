//! Small string helpers shared by the modules that read names and keys.

use vstd::prelude::*;
use vstd::string::*;

verus! {

/// What `str::to_lowercase` makes of a string: the full Unicode lower-case
/// mapping of each character.
pub uninterp spec fn str_lowercase(s: Seq<char>) -> Seq<char>;

/// Calls `str::to_lowercase`. Its result is taken to be a function of the
/// characters of `s` alone, named `str_lowercase`; nothing more of the
/// Unicode mapping is stated.
#[verifier::external_body]
pub(crate) fn lowercase(s: &str) -> (res: String)
    ensures
        res@ == str_lowercase(s@),
{
    s.to_lowercase()
}

/// Whether two strings hold the same characters.
pub fn str_eq(a: &str, b: &str) -> (res: bool)
    ensures
        res == (a@ == b@),
{
    let x = a.to_owned();
    let y = b.to_owned();
    x == y
}

} // verus!
