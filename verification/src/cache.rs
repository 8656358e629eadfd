//! A time-bounded resolution cache: hostname to addresses, each entry valid
//! until its expiry instant, with a bounded number of entries.
//!
//! Time enters the logic as a plain millisecond count. Every operation comes
//! in two forms: one that takes the instant `now` as an argument and has an
//! exact contract for every value of it, and one under the plain name that
//! reads the clock and calls the first.

use vstd::prelude::*;

use crate::keymap::KeyMap;
use crate::Address;

verus! {

/// The default time-to-live of a cached entry, in milliseconds.
pub const DEFAULT_TTL_MILLIS: u64 = 60000;

/// The default maximum number of entries.
pub const DEFAULT_MAX_ENTRIES: usize = 1000;

/// A cached resolution result together with the instant it expires.
pub struct CachedEntry {
    /// The resolved addresses, in the order the resolution produced them.
    pub addrs: Vec<Address>,
    /// The first instant (milliseconds) at which the entry is stale.
    pub expires_at: u64,
}

/// Addition on instants that stops at the largest representable instant.
pub open spec fn sat_add64(a: u64, b: u64) -> u64 {
    if a + b <= u64::MAX {
        (a + b) as u64
    } else {
        u64::MAX
    }
}

/// True while the entry is fresh at instant `now`.
pub open spec fn entry_live(e: CachedEntry, now: u64) -> bool {
    now < e.expires_at
}

/// The entries of `m` that are still fresh at instant `now`.
pub open spec fn live_map(m: Map<Seq<char>, CachedEntry>, now: u64) -> Map<Seq<char>, CachedEntry> {
    Map::new(|k: Seq<char>| m.contains_key(k) && entry_live(m[k], now), |k: Seq<char>| m[k])
}

/// What a lookup at instant `now` returns on the store `m`.
pub open spec fn spec_get_value(m: Map<Seq<char>, CachedEntry>, k: Seq<char>, now: u64) -> Option<
    Seq<Address>,
> {
    if m.contains_key(k) && entry_live(m[k], now) {
        Some(m[k].addrs@)
    } else {
        None
    }
}

/// The store after a lookup at instant `now`: an expired entry is removed,
/// nothing else changes.
pub open spec fn spec_get_map(m: Map<Seq<char>, CachedEntry>, k: Seq<char>, now: u64) -> Map<
    Seq<char>,
    CachedEntry,
> {
    if m.contains_key(k) && !entry_live(m[k], now) {
        m.remove(k)
    } else {
        m
    }
}

/// The view of an optional address vector.
pub open spec fn opt_addrs(r: Option<Vec<Address>>) -> Option<Seq<Address>> {
    match r {
        Some(v) => Some(v@),
        None => None,
    }
}

/// Every key of `post` other than `host` already stood in `pre`, with the
/// same entry: an insertion changes nothing else, it only removes.
pub open spec fn preserves_others(
    pre: Map<Seq<char>, CachedEntry>,
    post: Map<Seq<char>, CachedEntry>,
    host: Seq<char>,
) -> bool {
    forall|k: Seq<char>|
        k != host && #[trigger] post.dom().contains(k) ==> pre.contains_key(k) && post[k] == pre[k]
}

/// Every key of `sub` stands in `sup` with the same entry.
pub open spec fn submap_values(
    sub: Map<Seq<char>, CachedEntry>,
    sup: Map<Seq<char>, CachedEntry>,
) -> bool {
    forall|k: Seq<char>|
        #[trigger] sub.dom().contains(k) ==> sup.contains_key(k) && sub[k] == sup[k]
}

proof fn lemma_submap_values_refl(m: Map<Seq<char>, CachedEntry>)
    ensures
        submap_values(m, m),
{
}

proof fn lemma_submap_values_remove(m: Map<Seq<char>, CachedEntry>, k: Seq<char>)
    ensures
        submap_values(m.remove(k), m),
{
}

proof fn lemma_submap_values_trans(
    a: Map<Seq<char>, CachedEntry>,
    b: Map<Seq<char>, CachedEntry>,
    c: Map<Seq<char>, CachedEntry>,
)
    requires
        submap_values(a, b),
        submap_values(b, c),
    ensures
        submap_values(a, c),
{
    assert forall|k: Seq<char>| a.contains_key(k) implies c.contains_key(k) && a[k] == c[k] by {
        assert(b.contains_key(k) && a[k] == b[k]);
    }
}

proof fn lemma_preserves_from_submap(
    pre: Map<Seq<char>, CachedEntry>,
    m_old: Map<Seq<char>, CachedEntry>,
    host: Seq<char>,
    e: CachedEntry,
)
    requires
        submap_values(pre, m_old),
    ensures
        preserves_others(m_old, pre.insert(host, e), host),
{
    assert forall|k: Seq<char>|
        k != host && pre.insert(host, e).contains_key(k) implies m_old.contains_key(k)
        && pre.insert(host, e)[k] == m_old[k] by {
        assert(pre.contains_key(k));
    }
}

proof fn lemma_live_map_submap(m: Map<Seq<char>, CachedEntry>, now: u64)
    ensures
        submap_values(live_map(m, now), m),
{
}

impl CachedEntry {
    /// Builds an entry that expires `ttl` milliseconds after `now`.
    pub fn new(addrs: Vec<Address>, ttl: u64, now: u64) -> (r: CachedEntry)
        ensures
            r.addrs == addrs,
            r.expires_at == sat_add64(now, ttl),
    {
        CachedEntry { addrs, expires_at: now.saturating_add(ttl) }
    }

    /// True once the entry is stale at instant `now`.
    pub fn is_expired(&self, now: u64) -> (r: bool)
        ensures
            r == !entry_live(*self, now),
    {
        self.expires_at <= now
    }
}

pub(crate) fn clone_addrs(v: &Vec<Address>) -> (r: Vec<Address>)
    ensures
        r@ == v@,
{
    let mut r: Vec<Address> = Vec::new();
    let mut i: usize = 0;
    while i < v.len()
        invariant
            i <= v@.len(),
            r@ == v@.take(i as int),
        decreases v@.len() - i,
    {
        r.push(v[i]);
        proof {
            assert(r@ =~= v@.take(i + 1 as int));
        }
        i += 1;
    }
    proof {
        assert(v@.take(v@.len() as int) =~= v@);
    }
    r
}

/// Relies on std::time::SystemTime::now: the current time, read as whole
/// milliseconds since the Unix epoch. Nothing is promised of the value.
#[verifier::external_body]
fn now_millis() -> u64 {
    match std::time::SystemTime::now().duration_since(std::time::UNIX_EPOCH) {
        Ok(d) => d.as_millis() as u64,
        Err(_) => 0,
    }
}

/// A bounded store of hostname-to-address results, each valid until its
/// expiry instant.
pub struct DnsCache {
    store: KeyMap<CachedEntry>,
    max_entries: usize,
    default_ttl: u64,
}

impl View for DnsCache {
    type V = Map<Seq<char>, CachedEntry>;

    closed spec fn view(&self) -> Map<Seq<char>, CachedEntry> {
        self.store@
    }
}

impl DnsCache {
    /// The configured capacity.
    pub closed spec fn spec_max_entries(&self) -> usize {
        self.max_entries
    }

    /// The configured default time-to-live, in milliseconds.
    pub closed spec fn spec_default_ttl(&self) -> u64 {
        self.default_ttl
    }

    /// The cache's invariant: a finite store within capacity (one entry may
    /// stand when the capacity is zero), every entry non-empty.
    pub closed spec fn wf(&self) -> bool {
        &&& self.store.wf()
        &&& self.store@.dom().len() <= if self.max_entries >= 1 {
            self.max_entries as int
        } else {
            1
        }
        &&& forall|k: Seq<char>|
            #![trigger self.store@.dom().contains(k)]
            self.store@.contains_key(k) ==> self.store@[k].addrs@.len() > 0
    }

    /// What the invariant gives every caller: a finite store, within the
    /// capacity whenever that capacity is at least one, with no empty
    /// result set cached.
    pub proof fn lemma_wf(&self)
        requires
            self.wf(),
        ensures
            self@.dom().finite(),
            self.spec_max_entries() >= 1 ==> self@.dom().len() <= self.spec_max_entries(),
            forall|k: Seq<char>|
                #![trigger self@.dom().contains(k)]
                self@.contains_key(k) ==> self@[k].addrs@.len() > 0,
    {
        self.store.lemma_finite_dom();
    }

    /// A cache with the default time-to-live and capacity.
    pub fn new() -> (r: DnsCache)
        ensures
            r.wf(),
            r@ == Map::<Seq<char>, CachedEntry>::empty(),
            r.spec_default_ttl() == DEFAULT_TTL_MILLIS,
            r.spec_max_entries() == DEFAULT_MAX_ENTRIES,
    {
        Self::with_config(DEFAULT_TTL_MILLIS, DEFAULT_MAX_ENTRIES)
    }

    /// A cache with the given default time-to-live (milliseconds) and
    /// capacity.
    pub fn with_config(default_ttl: u64, max_entries: usize) -> (r: DnsCache)
        ensures
            r.wf(),
            r@ == Map::<Seq<char>, CachedEntry>::empty(),
            r.spec_default_ttl() == default_ttl,
            r.spec_max_entries() == max_entries,
    {
        let r = DnsCache { store: KeyMap::new(), max_entries, default_ttl };
        proof {
            assert(r.store@.dom() =~= Set::<Seq<char>>::empty());
        }
        r
    }

    /// Looks `host` up as of instant `now`: returns its addresses while the
    /// entry is fresh; removes the entry and returns `None` once it is
    /// stale; changes nothing on a miss.
    pub fn get_at(&mut self, host: &str, now: u64) -> (r: Option<Vec<Address>>)
        requires
            old(self).wf(),
        ensures
            final(self).wf(),
            final(self).spec_max_entries() == old(self).spec_max_entries(),
            final(self).spec_default_ttl() == old(self).spec_default_ttl(),
            final(self)@ == spec_get_map(old(self)@, host@, now),
            opt_addrs(r) == spec_get_value(old(self)@, host@, now),
    {
        let h: String = host.to_owned();
        let mut stale = false;
        match self.store.get(&h) {
            None => {
                return None;
            },
            Some(entry) => {
                if !entry.is_expired(now) {
                    let addrs = clone_addrs(&entry.addrs);
                    return Some(addrs);
                }
                stale = true;
            },
        }
        proof {
            self.store.lemma_finite_dom();
        }
        self.store.remove_key(&h);
        proof {
            assert(self@.dom().len() <= old(self)@.dom().len()) by {
                old(self).store.lemma_finite_dom();
                vstd::set_lib::lemma_len_subset(self@.dom(), old(self)@.dom());
            }
        }
        None
    }

    /// Looks `host` up at the present instant. A key never inserted is a
    /// clean miss: `None`, and no change to the store.
    pub fn get(&mut self, host: &str) -> (r: Option<Vec<Address>>)
        requires
            old(self).wf(),
        ensures
            final(self).wf(),
            final(self).spec_max_entries() == old(self).spec_max_entries(),
            final(self).spec_default_ttl() == old(self).spec_default_ttl(),
            exists|now: u64|
                final(self)@ == spec_get_map(old(self)@, host@, now) && opt_addrs(r)
                    == spec_get_value(old(self)@, host@, now),
            !old(self)@.contains_key(host@) ==> r is None && final(self)@ == old(self)@,
            r is Some ==> old(self)@.contains_key(host@) && opt_addrs(r) == Some(
                old(self)@[host@].addrs@,
            ),
    {
        let now = now_millis();
        let r = self.get_at(host, now);
        proof {
            assert(self@ == spec_get_map(old(self)@, host@, now) && opt_addrs(r)
                == spec_get_value(old(self)@, host@, now));
        }
        r
    }

    /// Removes every entry that is stale at instant `now`.
    pub fn cleanup_expired_at(&mut self, now: u64)
        requires
            old(self).wf(),
        ensures
            final(self).wf(),
            final(self).spec_max_entries() == old(self).spec_max_entries(),
            final(self).spec_default_ttl() == old(self).spec_default_ttl(),
            final(self)@ == live_map(old(self)@, now),
            submap_values(final(self)@, old(self)@),
            final(self)@.dom().len() <= old(self)@.dom().len(),
    {
        let ks = self.store.keys();
        let ghost m0 = self@;
        let mut idx: usize = 0;
        while idx < ks.len()
            invariant
                self.store.wf(),
                self.max_entries == old(self).max_entries,
                self.default_ttl == old(self).default_ttl,
                idx <= ks@.len(),
                forall|i: int| 0 <= i < ks@.len() ==> m0.contains_key(#[trigger] ks@[i]@),
                forall|k: Seq<char>|
                    m0.contains_key(k) ==> exists|i: int| 0 <= i < ks@.len() && ks@[i]@ == k,
                forall|i: int, j: int|
                    #![trigger ks@[i]@, ks@[j]@]
                    0 <= i < j < ks@.len() ==> ks@[i]@ != ks@[j]@,
                submap_values(self@, m0),
                forall|k: Seq<char>|
                    #![trigger m0.dom().contains(k)]
                    m0.contains_key(k) && entry_live(m0[k], now) ==> self@.contains_key(k),
                forall|j: int|
                    0 <= j < idx && !entry_live(m0[#[trigger] ks@[j]@], now)
                        ==> !self@.contains_key(ks@[j]@),
                forall|k: Seq<char>|
                    #![trigger m0.dom().contains(k)]
                    m0.contains_key(k) && !(exists|j: int| 0 <= j < idx && #[trigger] ks@[j]@ == k)
                        ==> self@.contains_key(k),
            decreases ks@.len() - idx,
        {
            let k = &ks[idx];
            let ghost pre = self@;
            let ghost kk = ks@[idx as int]@;
            let mut stale = false;
            match self.store.get(k) {
                Some(e) => {
                    if e.is_expired(now) {
                        stale = true;
                    }
                },
                None => {},
            }
            if stale {
                self.store.remove_key(k);
            }
            proof {
                if stale {
                    assert(self@ == pre.remove(kk));
                    assert(!entry_live(m0[kk], now));
                    lemma_submap_values_remove(pre, kk);
                    lemma_submap_values_trans(self@, pre, m0);
                } else {
                    assert(self@ == pre);
                }
                assert forall|k2: Seq<char>|
                    m0.contains_key(k2) && entry_live(m0[k2], now) implies self@.contains_key(
                    k2,
                ) by {
                    if stale {
                        assert(k2 != kk);
                    }
                }
                assert forall|j: int|
                    0 <= j < idx + 1 && !entry_live(m0[#[trigger] ks@[j]@], now)
                        implies !self@.contains_key(ks@[j]@) by {
                    if j == idx {
                        if pre.contains_key(kk) {
                            assert(pre[kk] == m0[kk]);
                            assert(stale);
                        }
                    }
                }
                assert forall|k2: Seq<char>|
                    m0.contains_key(k2) && !(exists|j: int|
                        0 <= j < idx + 1 && #[trigger] ks@[j]@ == k2) implies self@.contains_key(
                    k2,
                ) by {
                    assert(!(exists|j: int| 0 <= j < idx && ks@[j]@ == k2));
                    assert(pre.contains_key(k2));
                    assert(k2 != kk);
                }
            }
            idx += 1;
        }
        proof {
            assert forall|k2: Seq<char>|
                self@.contains_key(k2) == (m0.contains_key(k2) && entry_live(
                    m0[k2],
                    now,
                )) by {
                if m0.contains_key(k2) {
                    let i = choose|i: int| 0 <= i < ks@.len() && ks@[i]@ == k2;
                    if !entry_live(m0[k2], now) {
                        assert(!self@.contains_key(ks@[i]@));
                    }
                }
            }
            assert(self@ =~= live_map(m0, now));
            old(self).store.lemma_finite_dom();
            vstd::set_lib::lemma_len_subset(self@.dom(), m0.dom());
            assert forall|k: Seq<char>| #[trigger]
            self.store@.dom().contains(k) implies self.store@[k].addrs@.len() > 0 by {
                assert(m0.contains_key(k) && self.store@[k] == m0[k]);
            }
        }
    }

    /// Removes every entry that is stale at the present instant.
    pub fn cleanup_expired(&mut self)
        requires
            old(self).wf(),
        ensures
            final(self).wf(),
            final(self).spec_max_entries() == old(self).spec_max_entries(),
            final(self).spec_default_ttl() == old(self).spec_default_ttl(),
            exists|now: u64| final(self)@ == live_map(old(self)@, now),
            submap_values(final(self)@, old(self)@),
            final(self)@.dom().len() <= old(self)@.dom().len(),
    {
        let now = now_millis();
        self.cleanup_expired_at(now);
        proof {
            assert(self@ == live_map(old(self)@, now));
        }
    }

    /// Stores `addrs` under `host` with expiry `now + ttl` (saturating), as
    /// of instant `now`. When the store is at capacity beforehand, stale
    /// entries are swept first, and one arbitrary entry is evicted if the
    /// sweep was not enough. With a capacity of at least one, the store
    /// never ends above capacity.
    pub fn insert_with_ttl_at(&mut self, host: String, addrs: Vec<Address>, ttl: u64, now: u64)
        requires
            old(self).wf(),
            addrs@.len() > 0,
        ensures
            final(self).wf(),
            final(self).spec_max_entries() == old(self).spec_max_entries(),
            final(self).spec_default_ttl() == old(self).spec_default_ttl(),
            final(self)@.contains_key(host@),
            final(self)@[host@].addrs@ == addrs@,
            final(self)@[host@].expires_at == sat_add64(now, ttl),
            preserves_others(old(self)@, final(self)@, host@),
            old(self)@.dom().len() < old(self).spec_max_entries() ==> exists|e: CachedEntry|
                e.addrs@ == addrs@ && e.expires_at == sat_add64(now, ttl) && final(self)@ == old(
                    self,
                )@.insert(host@, e),
            old(self)@.dom().len() >= old(self).spec_max_entries() && live_map(
                old(self)@,
                now,
            ).dom().len() < old(self).spec_max_entries() ==> exists|e: CachedEntry|
                e.addrs@ == addrs@ && e.expires_at == sat_add64(now, ttl) && final(self)@
                    == live_map(old(self)@, now).insert(host@, e),
            old(self)@.dom().len() >= old(self).spec_max_entries() && live_map(
                old(self)@,
                now,
            ).dom().len() >= old(self).spec_max_entries() && live_map(old(self)@, now).dom().len()
                > 0 ==> exists|e: CachedEntry, k: Seq<char>|
                e.addrs@ == addrs@ && e.expires_at == sat_add64(now, ttl) && live_map(
                    old(self)@,
                    now,
                ).contains_key(k) && final(self)@ == live_map(old(self)@, now).remove(k).insert(
                    host@,
                    e,
                ),
            old(self).spec_max_entries() >= 1 ==> final(self)@.dom().len() <= old(
                self,
            ).spec_max_entries(),
            final(self)@.dom().len() <= old(self)@.dom().len() + 1,
    {
        proof {
            self.store.lemma_finite_dom();
        }
        let ghost m_old = self@;
        let ghost swept = live_map(m_old, now);
        let len = self.store.len();
        if len >= self.max_entries {
            self.cleanup_expired_at(now);
            let len2 = self.store.len();
            if len2 >= self.max_entries && len2 > 0 {
                self.store.evict_one();
                proof {
                    let k0 = choose|k0: Seq<char>|
                        swept.contains_key(k0) && self@ == swept.remove(k0);
                    lemma_submap_values_remove(swept, k0);
                    lemma_live_map_submap(m_old, now);
                    lemma_submap_values_trans(self@, swept, m_old);
                }
            } else {
                proof {
                    lemma_live_map_submap(m_old, now);
                }
            }
        } else {
            proof {
                lemma_submap_values_refl(m_old);
            }
        }
        proof {
            self.store.lemma_finite_dom();
        }
        let ghost pre = self@;
        let entry = CachedEntry::new(addrs, ttl, now);
        self.store.insert(host, entry);
        proof {
            assert(self@ == pre.insert(host@, entry));
            lemma_preserves_from_submap(pre, m_old, host@, entry);
            if !pre.contains_key(host@) {
                assert(self@.dom() =~= pre.dom().insert(host@));
            } else {
                assert(self@.dom() =~= pre.dom());
            }
            assert forall|k: Seq<char>| #[trigger]
            self.store@.dom().contains(k) implies self.store@[k].addrs@.len() > 0 by {
                if k != host@ {
                    assert(m_old.contains_key(k) && self.store@[k] == m_old[k]);
                }
            }
            if m_old.dom().len() < old(self).spec_max_entries() {
                assert(pre == m_old);
                assert(exists|e: CachedEntry|
                    e.addrs@ == addrs@ && e.expires_at == sat_add64(now, ttl) && self@
                        == m_old.insert(host@, e)) by {
                    assert(entry.addrs@ == addrs@ && entry.expires_at == sat_add64(now, ttl)
                        && self@ == m_old.insert(host@, entry));
                }
            } else if swept.dom().len() < old(self).spec_max_entries() {
                assert(pre == swept);
                assert(exists|e: CachedEntry|
                    e.addrs@ == addrs@ && e.expires_at == sat_add64(now, ttl) && self@
                        == swept.insert(host@, e)) by {
                    assert(entry.addrs@ == addrs@ && entry.expires_at == sat_add64(now, ttl)
                        && self@ == swept.insert(host@, entry));
                }
            } else if swept.dom().len() > 0 {
                let k0 = choose|k0: Seq<char>|
                    swept.contains_key(k0) && pre == swept.remove(k0);
                assert(exists|e: CachedEntry, k: Seq<char>|
                    e.addrs@ == addrs@ && e.expires_at == sat_add64(now, ttl)
                        && swept.contains_key(k) && self@ == swept.remove(k).insert(host@, e)) by {
                    assert(entry.addrs@ == addrs@ && entry.expires_at == sat_add64(now, ttl)
                        && swept.contains_key(k0) && self@ == swept.remove(k0).insert(
                        host@,
                        entry,
                    ));
                }
            }
        }
    }

    /// Stores `addrs` under `host` with the given time-to-live, as of the
    /// present instant.
    pub fn insert_with_ttl(&mut self, host: String, addrs: Vec<Address>, ttl: u64)
        requires
            old(self).wf(),
            addrs@.len() > 0,
        ensures
            final(self).wf(),
            final(self).spec_max_entries() == old(self).spec_max_entries(),
            final(self).spec_default_ttl() == old(self).spec_default_ttl(),
            final(self)@.contains_key(host@),
            final(self)@[host@].addrs@ == addrs@,
            exists|now: u64| final(self)@[host@].expires_at == sat_add64(now, ttl),
            preserves_others(old(self)@, final(self)@, host@),
            old(self).spec_max_entries() >= 1 ==> final(self)@.dom().len() <= old(
                self,
            ).spec_max_entries(),
            final(self)@.dom().len() <= old(self)@.dom().len() + 1,
    {
        let now = now_millis();
        self.insert_with_ttl_at(host, addrs, ttl, now);
    }

    /// Stores `addrs` under `host` with the cache's default time-to-live.
    pub fn insert(&mut self, host: String, addrs: Vec<Address>)
        requires
            old(self).wf(),
            addrs@.len() > 0,
        ensures
            final(self).wf(),
            final(self).spec_max_entries() == old(self).spec_max_entries(),
            final(self).spec_default_ttl() == old(self).spec_default_ttl(),
            final(self)@.contains_key(host@),
            final(self)@[host@].addrs@ == addrs@,
            exists|now: u64|
                final(self)@[host@].expires_at == sat_add64(now, old(self).spec_default_ttl()),
            preserves_others(old(self)@, final(self)@, host@),
            old(self).spec_max_entries() >= 1 ==> final(self)@.dom().len() <= old(
                self,
            ).spec_max_entries(),
            final(self)@.dom().len() <= old(self)@.dom().len() + 1,
    {
        let ttl = self.default_ttl;
        self.insert_with_ttl(host, addrs, ttl);
    }

    /// Removes every entry.
    pub fn clear(&mut self)
        requires
            old(self).wf(),
        ensures
            final(self).wf(),
            final(self).spec_max_entries() == old(self).spec_max_entries(),
            final(self).spec_default_ttl() == old(self).spec_default_ttl(),
            final(self)@ == Map::<Seq<char>, CachedEntry>::empty(),
    {
        self.store.clear();
        proof {
            assert(self.store@.dom() =~= Set::<Seq<char>>::empty());
        }
    }

    /// The number of entries, stale ones included.
    pub fn len(&self) -> (r: usize)
        requires
            self.wf(),
        ensures
            r == self@.dom().len(),
    {
        self.store.len()
    }

    /// Whether the cache holds no entry at all.
    pub fn is_empty(&self) -> (r: bool)
        requires
            self.wf(),
        ensures
            r == (self@.dom().len() == 0),
    {
        self.store.is_empty()
    }
}

impl Default for DnsCache {
    /// A cache with the default time-to-live and capacity.
    fn default() -> (r: DnsCache)
        ensures
            r.wf(),
            r@ == Map::<Seq<char>, CachedEntry>::empty(),
            r.spec_default_ttl() == DEFAULT_TTL_MILLIS,
            r.spec_max_entries() == DEFAULT_MAX_ENTRIES,
    {
        DnsCache::new()
    }
}

/// Inserting and immediately reading back: a lookup of `k` right after an
/// entry for `k` with a positive time-to-live was stored returns exactly the
/// stored addresses, and removes nothing. (Fails only at the clock's
/// saturation point `now == u64::MAX`.)
pub proof fn lemma_hit_after_insert(
    m: Map<Seq<char>, CachedEntry>,
    k: Seq<char>,
    e: CachedEntry,
    ttl: u64,
    now: u64,
)
    requires
        ttl > 0,
        now < u64::MAX,
        e.expires_at == sat_add64(now, ttl),
    ensures
        spec_get_value(m.insert(k, e), k, now) == Some(e.addrs@),
        spec_get_map(m.insert(k, e), k, now) == m.insert(k, e),
{
    assert(entry_live(e, now));
}

/// Expiry: once an entry's expiry instant has passed, a lookup of its key
/// returns `None` and removes the entry, so the store's size drops by one.
pub proof fn lemma_expiry(m: Map<Seq<char>, CachedEntry>, k: Seq<char>, now: u64)
    requires
        m.contains_key(k),
        m[k].expires_at <= now,
        m.dom().finite(),
    ensures
        spec_get_value(m, k, now) == None::<Seq<Address>>,
        spec_get_map(m, k, now) == m.remove(k),
        !spec_get_map(m, k, now).contains_key(k),
        spec_get_map(m, k, now).dom().len() == m.dom().len() - 1,
{
    assert(m.remove(k).dom() =~= m.dom().remove(k));
}

/// Cleanup is idempotent: sweeping the stale entries twice at one instant
/// removes nothing the second time.
pub proof fn lemma_cleanup_idempotent(m: Map<Seq<char>, CachedEntry>, now: u64)
    ensures
        live_map(live_map(m, now), now) == live_map(m, now),
{
    assert(live_map(live_map(m, now), now) =~= live_map(m, now));
}

} // verus!
