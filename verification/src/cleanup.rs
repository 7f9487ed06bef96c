//! The folders that a fresh run clears before it starts.

use vstd::prelude::*;
use crate::text::string_of_str;

verus! {

/// The folders that a run removes before it scrapes anything: the per-match
/// output and the staging area of player ids. Removing them is left to the
/// caller, folder by folder, in this order.
pub fn clean_folders() -> (res: Vec<String>)
    ensures
        res.deep_view() == seq!["./Match_details"@, "./staging_area"@],
{
    let mut folders: Vec<String> = Vec::new();
    folders.push(string_of_str("./Match_details"));
    folders.push(string_of_str("./staging_area"));
    assert(folders.deep_view() =~= seq!["./Match_details"@, "./staging_area"@]);
    folders
}

} // verus!
