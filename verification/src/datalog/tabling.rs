//! Keys of the tabling cache.
//!
//! A goal's cached answer is stored under the XXH3-64 hash of its key text,
//! read as a signed 64-bit integer.

use vstd::prelude::*;
use crate::export::{xxh3_64_of_str, xxh3_of};
use crate::text::{i64_to_string, int_decimal};

verus! {

/// The cache key of a goal: the XXH3-64 hash of its UTF-8 bytes, as `i64`.
pub fn compute_goal_hash(key: &str) -> (h: i64)
    ensures
        h == xxh3_of(key@) as i64,
{
    xxh3_64_of_str(key) as i64
}

/// The key text of a SPARQL query at data generation `data_gen`:
/// `sparql:<generation>:<query>`.
pub open spec fn sparql_goal_key(data_gen: i64, query: Seq<char>) -> Seq<char> {
    "sparql:"@ + int_decimal(data_gen as int) + ":"@ + query
}

/// The cache key of a SPARQL query; `data_gen` (the last statement ID issued)
/// changes whenever triples are added, so a stale answer is never found.
pub fn sparql_goal_hash_at(data_gen: i64, query: &str) -> (h: i64)
    ensures
        h == xxh3_of(sparql_goal_key(data_gen, query@)) as i64,
{
    let mut key = String::new();
    key.append("sparql:");
    key.append(i64_to_string(data_gen).as_str());
    key.append(":");
    key.append(query);
    proof {
        reveal_strlit("sparql:");
        reveal_strlit(":");
    }
    assert(key@ =~= sparql_goal_key(data_gen, query@));
    compute_goal_hash(key.as_str())
}

} // verus!
