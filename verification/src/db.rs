//! The list of databases offered to the user.
use vstd::prelude::*;

verus! {

/// The databases to offer, given the result of listing the storage root: the names found,
/// or none when the listing failed.
pub fn get_all_databases(listing: Result<Vec<String>, String>) -> (r: Vec<String>)
    ensures
        match listing {
            Ok(names) => r@ == names@,
            Err(_) => r@.len() == 0,
        },
{
    match listing {
        Ok(names) => names,
        Err(_) => Vec::new(),
    }
}

} // verus!
