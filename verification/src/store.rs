//! Where the cache keeps profiles and saved corrections.
use vstd::prelude::*;

use crate::text::push_str;

verus! {

/// The cache key of a user's profile: `profile:<user id>`.
pub fn profile_key(user_id: &str) -> (k: String)
    ensures
        k@ == "profile:"@ + user_id@,
{
    let mut k = String::new();
    push_str(&mut k, "profile:");
    push_str(&mut k, user_id);
    k
}

/// The cache key of a saved correction:
/// `corrections:<user id>:<conversation id>:<entry id>`.
pub fn correction_key(user_id: &str, conversation_id: &str, entry_id: &str) -> (k: String)
    ensures
        k@ == "corrections:"@ + user_id@ + ":"@ + conversation_id@ + ":"@ + entry_id@,
{
    let mut k = String::new();
    push_str(&mut k, "corrections:");
    push_str(&mut k, user_id);
    push_str(&mut k, ":");
    push_str(&mut k, conversation_id);
    push_str(&mut k, ":");
    push_str(&mut k, entry_id);
    k
}

} // verus!
