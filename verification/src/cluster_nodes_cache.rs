//! The views of recent epochs, kept for a time-to-live.
//!
//! A view is built when a shred of its epoch first asks for it and is
//! handed out, shared, until it is older than the time-to-live; then the
//! next request builds it anew. The cache holds a bounded number of epochs
//! and drops the one that was asked for longest ago.

use crate::cluster_nodes::{new_cluster_nodes, ClusterNodes, Role};
use crate::contact_info::{ClusterInfo, ClusterInfoView};
use crate::pubkey::Pubkey;
use crate::stakes::{total_stake, Stakes};
use lru::LruCache;
use std::sync::Arc;
use vstd::prelude::*;

verus! {

#[verifier::external_type_specification]
#[verifier::external_body]
#[verifier::reject_recursive_types(K)]
#[verifier::reject_recursive_types(V)]
#[verifier::reject_recursive_types(S)]
pub struct ExLruCache<K, V, S>(LruCache<K, V, S>);

#[verifier::external_type_specification]
#[verifier::external_body]
pub struct ExLruHasher(lru::DefaultHasher);

/// What the cache holds for an epoch: nothing yet, or a view and the time,
/// in milliseconds, at which it was built.
pub type CacheEntry = Option<(u64, Arc<ClusterNodes>)>;

/// The entries of a cache with their epochs, the one used last first.
pub uninterp spec fn lru_entries(cache: LruCache<u64, CacheEntry>) -> Seq<(u64, CacheEntry)>;

/// The number of entries that a cache was made to hold.
pub uninterp spec fn lru_cap(cache: LruCache<u64, CacheEntry>) -> nat;

/// The first position at or after `k` that holds `epoch`; the length where
/// there is none.
pub open spec fn find_from(entries: Seq<(u64, CacheEntry)>, epoch: u64, k: int) -> int
    decreases entries.len() - k,
{
    if k < 0 || k >= entries.len() {
        entries.len() as int
    } else if entries[k].0 == epoch {
        k
    } else {
        find_from(entries, epoch, k + 1)
    }
}

/// Where `epoch` stands among `entries`; the length where it does not.
pub open spec fn find_epoch(entries: Seq<(u64, CacheEntry)>, epoch: u64) -> int {
    find_from(entries, epoch, 0)
}

/// What `entries` hold for `epoch`, if anything.
pub open spec fn cached(entries: Seq<(u64, CacheEntry)>, epoch: u64) -> Option<CacheEntry> {
    if find_epoch(entries, epoch) < entries.len() {
        Some(entries[find_epoch(entries, epoch)].1)
    } else {
        None
    }
}

/// The entries after `epoch` was used: its entry, if there is one, has
/// moved to the front.
pub open spec fn touched(entries: Seq<(u64, CacheEntry)>, epoch: u64) -> Seq<(u64, CacheEntry)> {
    let at = find_epoch(entries, epoch);
    if at < entries.len() {
        seq![entries[at]] + entries.remove(at)
    } else {
        entries
    }
}

/// The entries of a cache for `cap` epochs after `entry` was put in for
/// `epoch`: it replaces the entry of that epoch if there is one; else it is
/// added, unless the cache holds nothing at all, and the entry used longest
/// ago makes room where the cache is full. It stands at the front.
pub open spec fn put_in(entries: Seq<(u64, CacheEntry)>, cap: nat, epoch: u64, entry: CacheEntry) -> Seq<
    (u64, CacheEntry),
> {
    let at = find_epoch(entries, epoch);
    if at < entries.len() {
        seq![(epoch, entry)] + entries.remove(at)
    } else if cap == 0 {
        entries
    } else if entries.len() == cap {
        seq![(epoch, entry)] + entries.drop_last()
    } else {
        seq![(epoch, entry)] + entries
    }
}

/// `LruCache::new`: an empty cache that holds at most `cap` entries.
#[verifier::external_body]
fn lru_new(cap: usize) -> (cache: LruCache<u64, CacheEntry>)
    ensures
        lru_entries(cache) == Seq::<(u64, CacheEntry)>::empty(),
        lru_cap(cache) == cap,
{
    LruCache::new(cap)
}

/// `LruCache::get`: what the cache holds for `epoch`, if anything; an
/// entry that is found becomes the one used last.
#[verifier::external_body]
fn lru_get(cache: &mut LruCache<u64, CacheEntry>, epoch: u64) -> (found: Option<CacheEntry>)
    ensures
        found == cached(lru_entries(*old(cache)), epoch),
        lru_entries(*final(cache)) == touched(lru_entries(*old(cache)), epoch),
        lru_cap(*final(cache)) == lru_cap(*old(cache)),
{
    cache.get(&epoch).cloned()
}

/// `LruCache::put`: sets what the cache holds for `epoch`. The entry becomes
/// the one used last. A new epoch in a full cache takes the place of the
/// entry used longest ago; a cache made for no entries stays empty.
#[verifier::external_body]
fn lru_put(cache: &mut LruCache<u64, CacheEntry>, epoch: u64, entry: CacheEntry)
    ensures
        lru_entries(*final(cache)) == put_in(
            lru_entries(*old(cache)),
            lru_cap(*old(cache)),
            epoch,
            entry,
        ),
        lru_cap(*final(cache)) == lru_cap(*old(cache)),
{
    cache.put(epoch, entry);
}

/// `Arc::clone`: another handle to the same view.
#[verifier::external_body]
fn share(nodes: &Arc<ClusterNodes>) -> (shared: Arc<ClusterNodes>)
    ensures
        shared == *nodes,
{
    Arc::clone(nodes)
}

/// What the cache reads of a bank: the leader-schedule epoch of the bank's
/// own slot, and the stakes of the epochs that the bank knows.
pub struct BankStakes {
    pub leader_schedule_epoch: u64,
    pub epoch_stakes: Vec<(u64, Stakes)>,
}

/// The view of a [`BankStakes`].
pub struct BankStakesView {
    pub leader_schedule_epoch: u64,
    pub epoch_stakes: Seq<(u64, Seq<(Pubkey, u64)>)>,
}

impl View for BankStakes {
    type V = BankStakesView;

    open spec fn view(&self) -> BankStakesView {
        BankStakesView {
            leader_schedule_epoch: self.leader_schedule_epoch,
            epoch_stakes: Seq::new(
                self.epoch_stakes@.len(),
                |i: int| (self.epoch_stakes@[i].0, self.epoch_stakes@[i].1@),
            ),
        }
    }
}

/// The first position at or after `k` that holds the stakes of `epoch`;
/// the length where there is none.
pub open spec fn stakes_from(tables: Seq<(u64, Seq<(Pubkey, u64)>)>, epoch: u64, k: int) -> int
    decreases tables.len() - k,
{
    if k < 0 || k >= tables.len() {
        tables.len() as int
    } else if tables[k].0 == epoch {
        k
    } else {
        stakes_from(tables, epoch, k + 1)
    }
}

impl BankStakesView {
    /// The stakes that the bank knows for `epoch`, if it knows any.
    pub open spec fn epoch_staked_nodes(self, epoch: u64) -> Option<Seq<(Pubkey, u64)>> {
        let at = stakes_from(self.epoch_stakes, epoch, 0);
        if at < self.epoch_stakes.len() {
            Some(self.epoch_stakes[at].1)
        } else {
            None
        }
    }
}

impl BankStakes {
    /// Whether every stake table has one entry for a key at most.
    pub open spec fn wf(&self) -> bool {
        forall|i: int| 0 <= i < self.epoch_stakes@.len() ==> (#[trigger] self.epoch_stakes@[i]).1.wf()
    }

    /// Whether a view of `cluster_info` can be built from every stake
    /// table: its stakes and the number of gossip records together fit
    /// `u64`.
    pub open spec fn fits(&self, cluster_info: ClusterInfoView) -> bool {
        forall|i: int|
            0 <= i < self.epoch_stakes@.len() ==> total_stake((#[trigger] self.epoch_stakes@[i]).1@)
                + cluster_info.gossip().len() <= u64::MAX
    }

    /// Where the stakes of `epoch` stand, if the bank knows them.
    pub fn epoch_staked_nodes(&self, epoch: u64) -> (found: Option<usize>)
        ensures
            found.is_some() <==> self@.epoch_staked_nodes(epoch).is_some(),
            found matches Some(i) ==> i < self.epoch_stakes@.len() && Some(self.epoch_stakes@[i as int].1@)
                == self@.epoch_staked_nodes(epoch),
    {
        let len: usize = self.epoch_stakes.len();
        let mut k: usize = 0;
        while k < len
            invariant
                k <= len,
                len == self.epoch_stakes@.len(),
                stakes_from(self@.epoch_stakes, epoch, 0) == stakes_from(
                    self@.epoch_stakes,
                    epoch,
                    k as int,
                ),
            decreases len - k,
        {
            if self.epoch_stakes[k].0 == epoch {
                return Some(k);
            }
            k = k + 1;
        }
        None
    }
}

/// The stakes of `epoch` as the root bank knows them or, failing that, the
/// working bank.
pub open spec fn staked_nodes_of(root_bank: BankStakesView, working_bank: BankStakesView, epoch: u64) -> Option<
    Seq<(Pubkey, u64)>,
> {
    match root_bank.epoch_staked_nodes(epoch) {
        Some(stakes) => Some(stakes),
        None => working_bank.epoch_staked_nodes(epoch),
    }
}

/// The age at `now` of what was built at `asof`; zero where the clock has
/// gone back.
pub open spec fn age(now: u64, asof: u64) -> u64 {
    if now >= asof {
        (now - asof) as u64
    } else {
        0
    }
}

/// The view that `entries` hold for `epoch` and that is younger at `now`
/// than `ttl`, if there is one.
pub open spec fn fresh_in(entries: Seq<(u64, CacheEntry)>, epoch: u64, now: u64, ttl: u64) -> Option<
    Arc<ClusterNodes>,
> {
    match cached(entries, epoch) {
        Some(Some((asof, nodes))) => if age(now, asof) < ttl {
            Some(nodes)
        } else {
            None
        },
        _ => None,
    }
}

/// The entries after `epoch` was looked up: its entry is the one used
/// last; where it had none, it has an empty one now.
pub open spec fn installed(entries: Seq<(u64, CacheEntry)>, cap: nat, epoch: u64) -> Seq<
    (u64, CacheEntry),
> {
    if find_epoch(entries, epoch) < entries.len() {
        touched(entries, epoch)
    } else {
        put_in(entries, cap, epoch, None)
    }
}

/// The view that `entry` holds, if it holds one that is younger at `now`
/// than `ttl`.
pub fn fresh_view(entry: &CacheEntry, now: u64, ttl: u64) -> (found: Option<Arc<ClusterNodes>>)
    ensures
        found == match *entry {
            Some((asof, nodes)) => if age(now, asof) < ttl {
                Some(nodes)
            } else {
                None
            },
            None => None,
        },
{
    if let Some((asof, nodes)) = entry {
        let elapsed: u64 = if now >= *asof {
            now - *asof
        } else {
            0
        };
        if elapsed < ttl {
            return Some(share(nodes));
        }
    }
    None
}

/// The epoch whose view answers a request for `epoch` that finds no fresh
/// view: the epoch itself where a bank knows its stakes or it is the root
/// bank's own, else the root bank's.
pub open spec fn epoch_to_build(root_bank: BankStakesView, working_bank: BankStakesView, epoch: u64) -> u64 {
    if staked_nodes_of(root_bank, working_bank, epoch).is_none() && epoch
        != root_bank.leader_schedule_epoch {
        root_bank.leader_schedule_epoch
    } else {
        epoch
    }
}

/// The epoch whose view answers a request for `epoch` that finds no fresh
/// view.
pub fn resolve_epoch(root_bank: &BankStakes, working_bank: &BankStakes, epoch: u64) -> (target: u64)
    ensures
        target == epoch_to_build(root_bank@, working_bank@, epoch),
{
    if root_bank.epoch_staked_nodes(epoch).is_none() && working_bank.epoch_staked_nodes(
        epoch,
    ).is_none() && epoch != root_bank.leader_schedule_epoch {
        root_bank.leader_schedule_epoch
    } else {
        epoch
    }
}

/// Builds the view of `cluster_info` for `epoch` from the stakes that the
/// root bank knows or, failing that, the working bank; from no stakes
/// where neither knows any.
pub fn build_view(
    role: Role,
    epoch: u64,
    root_bank: &BankStakes,
    working_bank: &BankStakes,
    cluster_info: &ClusterInfo,
) -> (built: ClusterNodes)
    requires
        root_bank.wf(),
        working_bank.wf(),
        root_bank.fits(cluster_info@),
        working_bank.fits(cluster_info@),
        cluster_info@.gossip().len() <= u64::MAX,
    ensures
        built@.wf(),
        built@.is_view_of(
            role,
            cluster_info@,
            match staked_nodes_of(root_bank@, working_bank@, epoch) {
                Some(stakes) => stakes,
                None => Seq::empty(),
            },
        ),
        role == Role::Retransmit ==> built@.indexes_self(),
        role == Role::Broadcast ==> !built@.indexes_self(),
{
    match root_bank.epoch_staked_nodes(epoch) {
        Some(at) => new_cluster_nodes(role, cluster_info, &root_bank.epoch_stakes[at].1),
        None => match working_bank.epoch_staked_nodes(epoch) {
            Some(at) => new_cluster_nodes(role, cluster_info, &working_bank.epoch_stakes[at].1),
            None => {
                let none = Stakes::new();
                new_cluster_nodes(role, cluster_info, &none)
            },
        },
    }
}

/// A cache of views, one for each of the epochs asked for last.
pub struct ClusterNodesCache {
    cache: LruCache<u64, CacheEntry>,
    role: Role,
    ttl: u64,
}

/// What a [`ClusterNodesCache`] holds.
pub struct ClusterNodesCacheView {
    /// The entries with their epochs, the one used last first.
    pub entries: Seq<(u64, CacheEntry)>,
    /// The number of epochs that the cache holds at most.
    pub cap: nat,
    /// The views that the cache builds.
    pub role: Role,
    /// How long a view is handed out, in milliseconds.
    pub ttl: u64,
}

impl View for ClusterNodesCache {
    type V = ClusterNodesCacheView;

    closed spec fn view(&self) -> ClusterNodesCacheView {
        ClusterNodesCacheView {
            entries: lru_entries(self.cache),
            cap: lru_cap(self.cache),
            role: self.role,
            ttl: self.ttl,
        }
    }
}

/// Whether every view among `entries` is well formed and, if views for
/// passing shreds on are asked for, indexes the local node.
pub open spec fn views_wf(entries: Seq<(u64, CacheEntry)>, role: Role) -> bool {
    forall|i: int|
        0 <= i < entries.len() ==> match (#[trigger] entries[i]).1 {
            Some((asof, nodes)) => nodes@.wf() && (role == Role::Retransmit ==> nodes@.indexes_self()),
            None => true,
        }
}

/// Whether `entries` hold at most `cap` epochs and no epoch twice.
pub open spec fn bounded(entries: Seq<(u64, CacheEntry)>, cap: nat) -> bool {
    &&& entries.len() <= cap
    &&& forall|i: int, j: int|
        0 <= i < j < entries.len() ==> (#[trigger] entries[i]).0 != (#[trigger] entries[j]).0
}

/// Using an entry and putting one in keep the cache within its bound and
/// every epoch in it once.
pub proof fn lemma_entries_bounded(entries: Seq<(u64, CacheEntry)>, cap: nat, epoch: u64, entry: CacheEntry)
    requires
        bounded(entries, cap),
    ensures
        bounded(touched(entries, epoch), cap),
        bounded(put_in(entries, cap, epoch, entry), cap),
        touched(entries, epoch).len() == entries.len(),
{
    lemma_find_from(entries, epoch, 0);
    let at = find_epoch(entries, epoch);
    let moved = touched(entries, epoch);
    let put = put_in(entries, cap, epoch, entry);
    if at < entries.len() {
        let rest = entries.remove(at);
        assert forall|i: int| 0 <= i < rest.len() implies (#[trigger] rest[i]) == entries[if i < at {
            i
        } else {
            i + 1
        }] by {}
        assert forall|i: int, j: int| 0 <= i < j < moved.len() implies (#[trigger] moved[i]).0 != (
        #[trigger] moved[j]).0 by {
            let to = |k: int| if k == 0 { at } else if k - 1 < at { k - 1 } else { k };
            assert(moved[i] == entries[to(i)]);
            assert(moved[j] == entries[to(j)]);
            assert(to(i) != to(j));
            if to(i) < to(j) {
                assert(entries[to(i)].0 != entries[to(j)].0);
            } else {
                assert(entries[to(j)].0 != entries[to(i)].0);
            }
        }
        assert forall|i: int, j: int| 0 <= i < j < put.len() implies (#[trigger] put[i]).0 != (
        #[trigger] put[j]).0 by {
            let to = |k: int| if k == 0 { at } else if k - 1 < at { k - 1 } else { k };
            assert(put[i].0 == entries[to(i)].0);
            assert(put[j].0 == entries[to(j)].0);
            assert(to(i) != to(j));
            if to(i) < to(j) {
                assert(entries[to(i)].0 != entries[to(j)].0);
            } else {
                assert(entries[to(j)].0 != entries[to(i)].0);
            }
        }
    } else if cap > 0 {
        let kept = if entries.len() == cap {
            entries.drop_last()
        } else {
            entries
        };
        assert forall|i: int, j: int| 0 <= i < j < put.len() implies (#[trigger] put[i]).0 != (
        #[trigger] put[j]).0 by {
            assert(put[j] == entries[j - 1]);
            if i > 0 {
                assert(put[i] == entries[i - 1]);
            } else {
                assert(entries[j - 1].0 != epoch);
            }
        }
    }
}

pub proof fn lemma_find_from(entries: Seq<(u64, CacheEntry)>, epoch: u64, k: int)
    requires
        0 <= k <= entries.len(),
    ensures
        k <= find_from(entries, epoch, k) <= entries.len(),
        find_from(entries, epoch, k) < entries.len() ==> entries[find_from(entries, epoch, k)].0
            == epoch,
        forall|i: int| k <= i < find_from(entries, epoch, k) ==> (#[trigger] entries[i]).0 != epoch,
    decreases entries.len() - k,
{
    if k < entries.len() && entries[k].0 != epoch {
        lemma_find_from(entries, epoch, k + 1);
    }
}

/// Using an entry and putting one in keep every view well formed, and what
/// was put in for an epoch is what the cache then holds for it, unless the
/// cache holds nothing at all.
pub proof fn lemma_entries_kept(entries: Seq<(u64, CacheEntry)>, cap: nat, role: Role, epoch: u64, entry: CacheEntry)
    requires
        views_wf(entries, role),
        match entry {
            Some((asof, nodes)) => nodes@.wf() && (role == Role::Retransmit ==> nodes@.indexes_self()),
            None => true,
        },
    ensures
        views_wf(touched(entries, epoch), role),
        views_wf(put_in(entries, cap, epoch, entry), role),
        cached(touched(entries, epoch), epoch) == cached(entries, epoch),
        cap > 0 || find_epoch(entries, epoch) < entries.len() ==> cached(
            put_in(entries, cap, epoch, entry),
            epoch,
        ) == Some(entry),
{
    lemma_find_from(entries, epoch, 0);
    let at = find_epoch(entries, epoch);
    let moved = touched(entries, epoch);
    assert forall|i: int| 0 <= i < moved.len() implies match (#[trigger] moved[i]).1 {
        Some((asof, nodes)) => nodes@.wf() && (role == Role::Retransmit ==> nodes@.indexes_self()),
        None => true,
    } by {
        if at < entries.len() {
            if i == 0 {
                assert(moved[i] == entries[at]);
            } else if i - 1 < at {
                assert(moved[i] == entries[i - 1]);
            } else {
                assert(moved[i] == entries[i]);
            }
        }
    }
    let put = put_in(entries, cap, epoch, entry);
    assert forall|i: int| 0 <= i < put.len() implies match (#[trigger] put[i]).1 {
        Some((asof, nodes)) => nodes@.wf() && (role == Role::Retransmit ==> nodes@.indexes_self()),
        None => true,
    } by {
        if at < entries.len() {
            if i == 0 {
            } else if i - 1 < at {
                assert(put[i] == entries[i - 1]);
            } else {
                assert(put[i] == entries[i]);
            }
        } else if cap == 0 {
        } else {
            if i > 0 {
                assert(put[i] == entries[i - 1]);
            }
        }
    }
    if at < entries.len() {
        assert(moved[0].0 == epoch);
        assert(put[0].0 == epoch);
    } else if cap > 0 {
        assert(put[0].0 == epoch);
    }
}

impl ClusterNodesCacheView {
    /// What every cache satisfies: it holds at most as many epochs as it
    /// was made for, none twice, and every view in it is well formed.
    pub open spec fn wf(self) -> bool {
        &&& views_wf(self.entries, self.role)
        &&& bounded(self.entries, self.cap)
    }

    /// Whether `built` is the view of `cluster_info` under `stakes`, or
    /// under no stakes where there are none, and `after` holds it for
    /// `epoch` as built at `now`, on top of `entries`.
    pub open spec fn built(
        self,
        after: ClusterNodesCacheView,
        built: Arc<ClusterNodes>,
        entries: Seq<(u64, CacheEntry)>,
        now: u64,
        epoch: u64,
        stakes: Option<Seq<(Pubkey, u64)>>,
        cluster_info: ClusterInfoView,
    ) -> bool {
        &&& built@.is_view_of(
            self.role,
            cluster_info,
            match stakes {
                Some(stakes) => stakes,
                None => Seq::empty(),
            },
        )
        &&& after.entries == put_in(entries, self.cap, epoch, Some((now, built)))
    }

    /// Whether a request at `now` for the view of `epoch` takes a cache
    /// from `self` to `after` and yields `got`.
    ///
    /// A view of the epoch that is younger than the time-to-live is handed
    /// out as it is. Else the stakes of the epoch are taken from the root
    /// bank or, failing that, the working bank, and a view is built, kept
    /// and handed out. Where neither bank knows the epoch and it is not the
    /// root bank's own, the request is answered as one for the root bank's
    /// epoch; where neither knows that one either, the view is built with
    /// no stakes.
    pub open spec fn answers(
        self,
        after: ClusterNodesCacheView,
        got: Arc<ClusterNodes>,
        now: u64,
        epoch: u64,
        root_bank: BankStakesView,
        working_bank: BankStakesView,
        cluster_info: ClusterInfoView,
    ) -> bool {
        match fresh_in(self.entries, epoch, now, self.ttl) {
            Some(nodes) => got == nodes && after.entries == touched(self.entries, epoch),
            None => {
                let looked_up = installed(self.entries, self.cap, epoch);
                let stakes = staked_nodes_of(root_bank, working_bank, epoch);
                let root_epoch = root_bank.leader_schedule_epoch;
                if stakes.is_none() && epoch != root_epoch {
                    match fresh_in(looked_up, root_epoch, now, self.ttl) {
                        Some(nodes) => got == nodes && after.entries == touched(
                            looked_up,
                            root_epoch,
                        ),
                        None => self.built(
                            after,
                            got,
                            installed(looked_up, self.cap, root_epoch),
                            now,
                            root_epoch,
                            staked_nodes_of(root_bank, working_bank, root_epoch),
                            cluster_info,
                        ),
                    }
                } else {
                    self.built(after, got, looked_up, now, epoch, stakes, cluster_info)
                }
            },
        }
    }
}

impl ClusterNodesCache {
    /// An empty cache of views for `role` that holds at most `cap` epochs
    /// and hands a view out for `ttl` milliseconds.
    pub fn new(role: Role, cap: usize, ttl: u64) -> (cache: ClusterNodesCache)
        ensures
            cache@.wf(),
            cache@.entries.len() == 0,
            cache@.cap == cap,
            cache@.role == role,
            cache@.ttl == ttl,
    {
        ClusterNodesCache { cache: lru_new(cap), role, ttl }
    }

    /// What the cache holds for `epoch`, which becomes the epoch used
    /// last; an epoch that is new to the cache gets an empty entry.
    fn get_cache_entry(&mut self, epoch: u64) -> (entry: CacheEntry)
        requires
            old(self)@.wf(),
        ensures
            final(self)@.wf(),
            final(self)@.entries == installed(old(self)@.entries, old(self)@.cap, epoch),
            final(self)@.cap == old(self)@.cap,
            final(self)@.role == old(self)@.role,
            final(self)@.ttl == old(self)@.ttl,
            entry == match cached(old(self)@.entries, epoch) {
                Some(entry) => entry,
                None => None,
            },
    {
        proof {
            lemma_entries_kept(self@.entries, self@.cap, self@.role, epoch, None);
            lemma_entries_bounded(self@.entries, self@.cap, epoch, None);
        }
        match lru_get(&mut self.cache, epoch) {
            Some(entry) => entry,
            None => {
                lru_put(&mut self.cache, epoch, None);
                None
            },
        }
    }

    /// The view for `epoch` if the cache holds one that is younger at
    /// `now` than the time-to-live. The epoch becomes the one used last.
    fn lookup(&mut self, now: u64, epoch: u64) -> (found: Option<Arc<ClusterNodes>>)
        requires
            old(self)@.wf(),
        ensures
            final(self)@.wf(),
            found == fresh_in(old(self)@.entries, epoch, now, old(self)@.ttl),
            final(self)@.entries == installed(old(self)@.entries, old(self)@.cap, epoch),
            found.is_some() ==> final(self)@.entries == touched(old(self)@.entries, epoch),
            final(self)@.cap == old(self)@.cap,
            final(self)@.role == old(self)@.role,
            final(self)@.ttl == old(self)@.ttl,
            found matches Some(nodes) ==> nodes@.wf() && (old(self)@.role == Role::Retransmit
                ==> nodes@.indexes_self()),
    {
        proof {
            lemma_find_from(self@.entries, epoch, 0);
        }
        let entry = self.get_cache_entry(epoch);
        fresh_view(&entry, now, self.ttl)
    }

    /// The view of the cluster for `epoch`, the leader-schedule epoch of a
    /// shred, at the time `now` in milliseconds.
    ///
    /// A cached view that is younger than the time-to-live is handed out;
    /// else one is built from the stakes that the banks know and kept in
    /// its place. See [`ClusterNodesCacheView::answers`].
    pub fn get(
        &mut self,
        now: u64,
        epoch: u64,
        root_bank: &BankStakes,
        working_bank: &BankStakes,
        cluster_info: &ClusterInfo,
    ) -> (nodes: Arc<ClusterNodes>)
        requires
            old(self)@.wf(),
            root_bank.wf(),
            working_bank.wf(),
            root_bank.fits(cluster_info@),
            working_bank.fits(cluster_info@),
            cluster_info@.gossip().len() <= u64::MAX,
        ensures
            final(self)@.wf(),
            final(self)@.cap == old(self)@.cap,
            final(self)@.role == old(self)@.role,
            final(self)@.ttl == old(self)@.ttl,
            old(self)@.answers(
                final(self)@,
                nodes,
                now,
                epoch,
                root_bank@,
                working_bank@,
                cluster_info@,
            ),
            nodes@.wf(),
            old(self)@.role == Role::Retransmit ==> nodes@.indexes_self(),
    {
        if let Some(nodes) = self.lookup(now, epoch) {
            return nodes;
        }
        let target: u64 = resolve_epoch(root_bank, working_bank, epoch);
        if target != epoch {
            if let Some(nodes) = self.lookup(now, target) {
                return nodes;
            }
        }
        self.build(now, target, root_bank, working_bank, cluster_info)
    }

    /// Builds the view for `epoch` from the stakes that the banks know, or
    /// from none, keeps it as built at `now` and hands it out.
    fn build(
        &mut self,
        now: u64,
        epoch: u64,
        root_bank: &BankStakes,
        working_bank: &BankStakes,
        cluster_info: &ClusterInfo,
    ) -> (nodes: Arc<ClusterNodes>)
        requires
            old(self)@.wf(),
            root_bank.wf(),
            working_bank.wf(),
            root_bank.fits(cluster_info@),
            working_bank.fits(cluster_info@),
            cluster_info@.gossip().len() <= u64::MAX,
        ensures
            final(self)@.wf(),
            final(self)@.cap == old(self)@.cap,
            final(self)@.role == old(self)@.role,
            final(self)@.ttl == old(self)@.ttl,
            old(self)@.built(
                final(self)@,
                nodes,
                old(self)@.entries,
                now,
                epoch,
                staked_nodes_of(root_bank@, working_bank@, epoch),
                cluster_info@,
            ),
            nodes@.wf(),
            old(self)@.role == Role::Retransmit ==> nodes@.indexes_self(),
    {
        let built: ClusterNodes = build_view(
            self.role,
            epoch,
            root_bank,
            working_bank,
            cluster_info,
        );
        let nodes: Arc<ClusterNodes> = Arc::new(built);
        proof {
            lemma_entries_kept(self@.entries, self@.cap, self@.role, epoch, Some((now, nodes)));
            lemma_entries_bounded(self@.entries, self@.cap, epoch, Some((now, nodes)));
        }
        lru_put(&mut self.cache, epoch, Some((now, share(&nodes))));
        nodes
    }
}

} // verus!
