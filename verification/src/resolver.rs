//! The cache-augmentation step of a resolving client.
//!
//! A resolver first asks the cache (`DnsCache::get`); only on a miss does it
//! run the real lookup. The outcome of that lookup is handed to
//! `resolve_after_lookup`, which decides what to cache and what to return:
//! a non-empty success is cached under the default time-to-live and returned;
//! an empty success is returned without being cached; a failure passes
//! through unchanged and uncached.

use vstd::prelude::*;

use crate::cache::{clone_addrs, preserves_others, sat_add64, DnsCache};
use crate::Address;

verus! {

/// The one error a resolution surfaces: the external lookup failed; the
/// underlying cause is carried as opaque text.
#[derive(Clone, Debug, PartialEq, Eq)]
pub enum ResolveError {
    LookupFailed(String),
}

/// Completes a resolution after the external lookup has answered: a
/// non-empty success is stored in the cache under the default time-to-live
/// and returned; an empty success is returned without being cached; an
/// error passes through unchanged, and nothing is cached.
pub fn resolve_after_lookup(
    cache: &mut DnsCache,
    host: &str,
    outcome: Result<Vec<Address>, ResolveError>,
) -> (r: Result<Vec<Address>, ResolveError>)
    requires
        old(cache).wf(),
    ensures
        final(cache).wf(),
        final(cache).spec_max_entries() == old(cache).spec_max_entries(),
        final(cache).spec_default_ttl() == old(cache).spec_default_ttl(),
        r == outcome,
        (match outcome {
            Err(_) => final(cache)@ == old(cache)@,
            Ok(v) => if v@.len() == 0 {
                final(cache)@ == old(cache)@
            } else {
                final(cache)@.contains_key(host@) && final(cache)@[host@].addrs@ == v@ && (exists|
                    now: u64,
                |
                    final(cache)@[host@].expires_at == sat_add64(
                        now,
                        old(cache).spec_default_ttl(),
                    )) && preserves_others(old(cache)@, final(cache)@, host@)
            },
        }),
{
    match outcome {
        Ok(addrs) => {
            if addrs.len() > 0 {
                let copy = clone_addrs(&addrs);
                cache.insert(host.to_owned(), copy);
            }
            Ok(addrs)
        },
        Err(e) => Err(e),
    }
}

} // verus!
