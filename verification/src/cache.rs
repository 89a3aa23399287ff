//! Process-wide tile cache with fetch deduplication.
//!
//! The cache maps packed tile addresses ([`TileKey::cache_key`]) to
//! decoded tiles and keeps the set of addresses whose fetch is in
//! flight. Each `request` is one atomic check-then-act step: callers
//! must not interleave another cache operation inside it, which the
//! `&mut self` receiver already enforces within one thread.
//!
//! Entry life cycle per address: absent, then pending (one owner runs
//! the fetch), then loaded forever on success, or absent again on
//! failure so a later request may retry. No eviction.

use vstd::prelude::*;
use std::collections::HashMap;
use std::collections::HashSet;
use crate::fetch::decode_tile;
use crate::fetch::spec_decoded_rgba;
use crate::tile::DecodedTile;
use crate::tile::FetchError;
use crate::tile::TileKey;

verus! {

/// What a call to [`TileCache::request`] tells its caller.
#[derive(Clone, Copy, Debug, PartialEq, Eq, Structural)]
pub enum RequestOutcome {
    /// The tile is cached; read it with [`TileCache::get`].
    AlreadyLoaded,
    /// Another caller already owns an in-flight fetch for this address;
    /// poll again after that fetch completes.
    Joined,
    /// No entry existed. The address is now pending, and the caller that
    /// received this outcome must run the fetch and hand its result to
    /// [`TileCache::complete_fetch`].
    Started,
}

/// The outcome `request` yields on a cache holding the given loaded map
/// and pending set.
pub open spec fn spec_request_outcome(
    loaded: Map<u64, DecodedTile>,
    pending: Set<u64>,
    k: u64,
) -> RequestOutcome {
    if loaded.contains_key(k) {
        RequestOutcome::AlreadyLoaded
    } else if pending.contains(k) {
        RequestOutcome::Joined
    } else {
        RequestOutcome::Started
    }
}

/// The pending set after `request`: the address enters it exactly when
/// the outcome is `Started`. The loaded map never changes on a request.
pub open spec fn spec_request_pending(
    loaded: Map<u64, DecodedTile>,
    pending: Set<u64>,
    k: u64,
) -> Set<u64> {
    if spec_request_outcome(loaded, pending, k) == RequestOutcome::Started {
        pending.insert(k)
    } else {
        pending
    }
}

/// Cache of decoded tiles plus the in-flight set, keyed by the packed
/// tile address.
pub struct TileCache {
    loaded: HashMap<u64, DecodedTile>,
    pending: HashSet<u64>,
}

impl TileCache {
    /// The loaded entries: packed address to decoded tile.
    pub closed spec fn spec_loaded(&self) -> Map<u64, DecodedTile> {
        self.loaded@
    }

    /// The packed addresses whose fetch is in flight.
    pub closed spec fn spec_pending(&self) -> Set<u64> {
        self.pending@
    }

    /// At most one entry per address across the combined key space: no
    /// address is both loaded and pending, so no address is ever fetched
    /// twice concurrently.
    pub open spec fn wf(&self) -> bool {
        forall|k: u64| self.spec_pending().contains(k) ==> !self.spec_loaded().contains_key(k)
    }

    /// The atomic check-then-act step of the cache. Exactly one of:
    /// the address is loaded (`AlreadyLoaded`, nothing changes), its
    /// fetch is in flight (`Joined`, nothing changes), or it is absent
    /// (`Started`, the address becomes pending and the caller owns the
    /// fetch).
    pub fn request(&mut self, addr: &TileKey) -> (outcome: RequestOutcome)
        requires
            old(self).wf(),
            addr.valid(),
        ensures
            final(self).wf(),
            outcome == spec_request_outcome(
                old(self).spec_loaded(),
                old(self).spec_pending(),
                addr.spec_cache_key() as u64,
            ),
            final(self).spec_loaded() == old(self).spec_loaded(),
            final(self).spec_pending() == spec_request_pending(
                old(self).spec_loaded(),
                old(self).spec_pending(),
                addr.spec_cache_key() as u64,
            ),
    {
        let k = addr.cache_key();
        if self.loaded.contains_key(&k) {
            RequestOutcome::AlreadyLoaded
        } else if self.pending.contains(&k) {
            RequestOutcome::Joined
        } else {
            self.pending.insert(k);
            RequestOutcome::Started
        }
    }

    /// The loaded tile for an address, if any. Distinct calls on an
    /// unchanged cache return the same handle.
    pub fn get(&self, addr: &TileKey) -> (r: Option<&DecodedTile>)
        requires
            addr.valid(),
        ensures
            match r {
                Some(t) => self.spec_loaded().contains_key(addr.spec_cache_key() as u64) && *t
                    == self.spec_loaded()[addr.spec_cache_key() as u64],
                None => !self.spec_loaded().contains_key(addr.spec_cache_key() as u64),
            },
    {
        let k = addr.cache_key();
        self.loaded.get(&k)
    }

    /// Record a fetch that produced a decoded tile: the entry moves from
    /// pending to loaded, where it stays for the process lifetime.
    pub fn finish_success(&mut self, addr: &TileKey, tile: DecodedTile)
        requires
            old(self).wf(),
            addr.valid(),
            old(self).spec_pending().contains(addr.spec_cache_key() as u64),
        ensures
            final(self).wf(),
            final(self).spec_loaded() == old(self).spec_loaded().insert(
                addr.spec_cache_key() as u64,
                tile,
            ),
            final(self).spec_pending() == old(self).spec_pending().remove(addr.spec_cache_key() as u64),
    {
        let k = addr.cache_key();
        self.pending.remove(&k);
        self.loaded.insert(k, tile);
    }

    /// Record a failed fetch: the address leaves pending and stays out
    /// of loaded, so a later request may retry it with a fresh fetch.
    pub fn finish_failure(&mut self, addr: &TileKey)
        requires
            old(self).wf(),
            addr.valid(),
            old(self).spec_pending().contains(addr.spec_cache_key() as u64),
        ensures
            final(self).wf(),
            final(self).spec_loaded() == old(self).spec_loaded(),
            final(self).spec_pending() == old(self).spec_pending().remove(addr.spec_cache_key() as u64),
    {
        let k = addr.cache_key();
        self.pending.remove(&k);
    }

    /// Apply a finished retrieval to the cache, completing the fetch the
    /// `Started` caller owns. Retrieved bytes are decoded; a decoded
    /// tile enters the cache for all current and future requesters of
    /// the address, while a transport error or undecodable bytes leave
    /// the address absent, eligible for retry.
    pub fn complete_fetch(&mut self, addr: &TileKey, fetched: Result<Vec<u8>, FetchError>) -> (r:
        Result<(), FetchError>)
        requires
            old(self).wf(),
            addr.valid(),
            old(self).spec_pending().contains(addr.spec_cache_key() as u64),
        ensures
            final(self).wf(),
            final(self).spec_pending() == old(self).spec_pending().remove(addr.spec_cache_key() as u64),
            match fetched {
                Ok(bytes) => match spec_decoded_rgba(bytes@) {
                    Some(img) => {
                        let k = addr.spec_cache_key() as u64;
                        &&& r is Ok
                        &&& final(self).spec_loaded().contains_key(k)
                        &&& final(self).spec_loaded()[k].width == img.0
                        &&& final(self).spec_loaded()[k].height == img.1
                        &&& final(self).spec_loaded()[k].pixels@ == img.2
                        &&& final(self).spec_loaded()[k].sampling.is_bilinear()
                        &&& final(self).spec_loaded()[k].wf()
                        &&& final(self).spec_loaded() == old(self).spec_loaded().insert(
                            k,
                            final(self).spec_loaded()[k],
                        )
                    },
                    None => {
                        &&& r is Err
                        &&& r->Err_0 == FetchError::Decode
                        &&& final(self).spec_loaded() == old(self).spec_loaded()
                    },
                },
                Err(e) => {
                    &&& r is Err
                    &&& r->Err_0 == e
                    &&& final(self).spec_loaded() == old(self).spec_loaded()
                },
            },
    {
        match fetched {
            Ok(bytes) => match decode_tile(bytes.as_slice()) {
                Ok(tile) => {
                    self.finish_success(addr, tile);
                    Ok(())
                },
                Err(e) => {
                    self.finish_failure(addr);
                    Err(e)
                },
            },
            Err(e) => {
                self.finish_failure(addr);
                Err(e)
            },
        }
    }
}

impl Default for TileCache {
    /// The empty cache: nothing loaded, nothing pending.
    fn default() -> (c: TileCache)
        ensures
            c.spec_loaded() == Map::<u64, DecodedTile>::empty(),
            c.spec_pending() == Set::<u64>::empty(),
            c.wf(),
    {
        TileCache { loaded: HashMap::new(), pending: HashSet::new() }
    }
}

/// Cache dedup law: for an address neither loaded nor pending, the
/// first request returns `Started` exactly once, and every subsequent
/// request before the fetch completes returns `Joined` and leaves the
/// cache unchanged.
pub proof fn lemma_request_dedup(loaded: Map<u64, DecodedTile>, pending: Set<u64>, k: u64)
    requires
        !loaded.contains_key(k),
        !pending.contains(k),
    ensures
        spec_request_outcome(loaded, pending, k) == RequestOutcome::Started,
        ({
            let p1 = spec_request_pending(loaded, pending, k);
            &&& spec_request_outcome(loaded, p1, k) == RequestOutcome::Joined
            &&& spec_request_pending(loaded, p1, k) == p1
        }),
{
}

/// Cache idempotence after load: once an address is loaded, every
/// request for it returns `AlreadyLoaded` and changes nothing, however
/// often it is repeated — so `get` keeps returning the same handle.
pub proof fn lemma_request_idempotent_after_load(
    loaded: Map<u64, DecodedTile>,
    pending: Set<u64>,
    k: u64,
)
    requires
        loaded.contains_key(k),
    ensures
        spec_request_outcome(loaded, pending, k) == RequestOutcome::AlreadyLoaded,
        spec_request_pending(loaded, pending, k) == pending,
{
}

/// Retry after failure: when a started fetch fails, the completion
/// leaves the cache exactly as it was before the request, with no entry
/// for the address, and a fresh request returns `Started` again.
pub proof fn lemma_retry_after_failure(loaded: Map<u64, DecodedTile>, pending: Set<u64>, k: u64)
    requires
        !loaded.contains_key(k),
        !pending.contains(k),
    ensures
        ({
            let p1 = spec_request_pending(loaded, pending, k);
            &&& p1.remove(k) == pending
            &&& spec_request_outcome(loaded, p1.remove(k), k) == RequestOutcome::Started
        }),
{
    assert(spec_request_pending(loaded, pending, k).remove(k) =~= pending);
}

} // verus!
