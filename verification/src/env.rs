//! The user's home directory, as this process looks it up.

use vstd::prelude::*;

verus! {

/// Holds of every answer the home-directory lookup can give (`None` where
/// the environment reports no home). It puts no condition on the value:
/// it marks where a value came from. Its body is kept to this module, so
/// elsewhere it is known only of what `home_directory` hands back; a
/// function whose contract asks for it must use the home that lookup gave.
pub closed spec fn is_home_lookup(home: Option<Seq<char>>) -> bool {
    true
}

/// Calls `directories::BaseDirs::new` and its `home_dir`. Claimed: only that
/// the result is an answer of the home-directory lookup (a condition that
/// holds of every value); which home, and whether there is one, depends on
/// the environment of the process and is not stated.
#[verifier::external_body]
pub(crate) fn home_directory() -> (r: Option<String>)
    ensures
        is_home_lookup(crate::text::opt_view(r)),
{
    match directories::BaseDirs::new() {
        Some(dirs) => Some(dirs.home_dir().to_string_lossy().into_owned()),
        None => None,
    }
}

} // verus!
