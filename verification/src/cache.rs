//! The in-memory index of running polls: poll id to closing time, shared by
//! the commands that open polls and the loop that closes them.
//!
//! A poll id is held as the 128-bit value of its UUID and a point in time as
//! seconds since the Unix epoch with the nanoseconds past that second, which
//! order exactly as `chrono`'s `DateTime<Utc>` does.

use vstd::prelude::*;
use dashmap::DashMap;

verus! {

#[verifier::external_type_specification]
#[verifier::external_body]
#[verifier::reject_recursive_types(K)]
#[verifier::reject_recursive_types(V)]
#[verifier::reject_recursive_types(S)]
pub struct ExDashMap<K, V, S>(DashMap<K, V, S>);

/// What a `DashMap` of poll closing times holds.
pub uninterp spec fn dashmap_entries(m: DashMap<u128, (i64, u32)>) -> Map<u128, (i64, u32)>;

/// The empty index.
pub open spec fn no_entries() -> Map<u128, (i64, u32)> {
    Map::empty()
}

/// `DashMap::new`: an empty map.
#[verifier::external_body]
fn dashmap_new() -> (r: DashMap<u128, (i64, u32)>)
    ensures
        dashmap_entries(r) == no_entries(),
        dashmap_entries(r).dom().finite(),
{
    DashMap::new()
}

/// `DashMap::insert`: sets the value of `k`, handing back the one it
/// replaced.
#[verifier::external_body]
fn dashmap_insert(m: &mut DashMap<u128, (i64, u32)>, k: u128, v: (i64, u32)) -> (r: Option<(i64, u32)>)
    ensures
        dashmap_entries(*final(m)) == dashmap_entries(*old(m)).insert(k, v),
        dashmap_entries(*final(m)).dom().finite(),
        r == (if dashmap_entries(*old(m)).dom().contains(k) {
            Some(dashmap_entries(*old(m))[k])
        } else {
            None
        }),
{
    m.insert(k, v)
}

/// `DashMap::get`, copying the value out of the guard.
#[verifier::external_body]
fn dashmap_get(m: &DashMap<u128, (i64, u32)>, k: u128) -> (r: Option<(i64, u32)>)
    ensures
        r == (if dashmap_entries(*m).dom().contains(k) {
            Some(dashmap_entries(*m)[k])
        } else {
            None
        }),
{
    m.get(&k).map(|entry| *entry.value())
}

/// `DashMap::contains_key`.
#[verifier::external_body]
fn dashmap_contains_key(m: &DashMap<u128, (i64, u32)>, k: u128) -> (r: bool)
    ensures
        r == dashmap_entries(*m).dom().contains(k),
{
    m.contains_key(&k)
}

/// `DashMap::remove`, keeping the value of the removed pair.
#[verifier::external_body]
fn dashmap_remove(m: &mut DashMap<u128, (i64, u32)>, k: u128) -> (r: Option<(i64, u32)>)
    ensures
        dashmap_entries(*final(m)) == dashmap_entries(*old(m)).remove(k),
        dashmap_entries(*final(m)).dom().finite(),
        r == (if dashmap_entries(*old(m)).dom().contains(k) {
            Some(dashmap_entries(*old(m))[k])
        } else {
            None
        }),
{
    m.remove(&k).map(|(_, v)| v)
}

/// `DashMap::clear`: removes every entry.
#[verifier::external_body]
fn dashmap_clear(m: &mut DashMap<u128, (i64, u32)>)
    ensures
        dashmap_entries(*final(m)) == no_entries(),
        dashmap_entries(*final(m)).dom().finite(),
{
    m.clear()
}

/// `DashMap::len`: the number of entries.
#[verifier::external_body]
fn dashmap_len(m: &DashMap<u128, (i64, u32)>) -> (r: usize)
    ensures
        r == dashmap_entries(*m).len(),
{
    m.len()
}

/// `DashMap::iter`, keeping the key of each entry: every key once, in an
/// order the map does not fix.
#[verifier::external_body]
fn dashmap_keys(m: &DashMap<u128, (i64, u32)>) -> (r: Vec<u128>)
    ensures
        r@.to_set() == dashmap_entries(*m).dom(),
        r@.no_duplicates(),
{
    m.iter().map(|entry| *entry.key()).collect()
}

/// `DashMap::retain` keeping the polls that are still running at `now`.
#[verifier::external_body]
fn dashmap_retain_running(m: &mut DashMap<u128, (i64, u32)>, now: (i64, u32))
    ensures
        dashmap_entries(*final(m)) == still_running(dashmap_entries(*old(m)), now),
        dashmap_entries(*final(m)).dom().finite(),
{
    m.retain(|_, ends_at| is_running(*ends_at, now))
}

/// The current time, as `chrono::Utc::now` reads it from the system clock
/// (seconds since the Unix epoch and nanoseconds past that second). Nothing
/// is promised of the instant but that it is not before the epoch (the call
/// does not return on a clock set earlier) and that its nanoseconds are
/// below one second.
#[verifier::external_body]
fn utc_now() -> (r: (i64, u32))
    ensures
        r.0 >= 0,
        r.1 < 1_000_000_000,
{
    let now = chrono::Utc::now();
    (now.timestamp(), now.timestamp_subsec_nanos())
}

/// Whether `a` is strictly later than `b`.
pub open spec fn later(a: (i64, u32), b: (i64, u32)) -> bool {
    a.0 > b.0 || (a.0 == b.0 && a.1 > b.1)
}

/// Whether a poll closing at `ends_at` is still running at `now`.
pub fn is_running(ends_at: (i64, u32), now: (i64, u32)) -> (r: bool)
    ensures
        r == later(ends_at, now),
{
    ends_at.0 > now.0 || (ends_at.0 == now.0 && ends_at.1 > now.1)
}

/// The entries of `m` whose poll still runs at `now`.
pub open spec fn still_running(m: Map<u128, (i64, u32)>, now: (i64, u32)) -> Map<u128, (i64, u32)> {
    m.restrict(m.dom().filter(|k: u128| later(m[k], now)))
}

/// The ids of the polls of `m` that have closed by `now`.
pub open spec fn closed_by(m: Map<u128, (i64, u32)>, now: (i64, u32)) -> Set<u128> {
    m.dom().filter(|k: u128| !later(m[k], now))
}

/// The value a lookup of `id` gives.
pub open spec fn lookup(m: Map<u128, (i64, u32)>, id: u128) -> Option<(i64, u32)> {
    if m.dom().contains(id) {
        Some(m[id])
    } else {
        None
    }
}

/// The index of running polls. The map is held in an `Option` only so that
/// a method can take it out while it changes it; it is always put back.
pub struct PollCache {
    inner: Option<DashMap<u128, (i64, u32)>>,
}

impl PollCache {
    /// The index holds finitely many polls.
    #[verifier::type_invariant]
    spec fn well_formed(self) -> bool {
        match self.inner {
            Some(m) => dashmap_entries(m).dom().finite(),
            None => true,
        }
    }

    /// The polls in the index, by id.
    pub closed spec fn entries(&self) -> Map<u128, (i64, u32)> {
        match self.inner {
            Some(m) => dashmap_entries(m),
            None => no_entries(),
        }
    }

    /// Takes the map out, leaving the index empty until it is put back.
    fn take_map(&mut self) -> (m: DashMap<u128, (i64, u32)>)
        ensures
            dashmap_entries(m) == old(self).entries(),
            dashmap_entries(m).dom().finite(),
    {
        proof {
            use_type_invariant(&*self);
        }
        let mut tmp: Option<DashMap<u128, (i64, u32)>> = None;
        std::mem::swap(&mut tmp, &mut self.inner);
        match tmp {
            Some(m) => m,
            None => dashmap_new(),
        }
    }

    /// Creates an empty index.
    pub fn new() -> (c: PollCache)
        ensures
            c.entries() == no_entries(),
            c.entries().dom().finite(),
    {
        PollCache { inner: Some(dashmap_new()) }
    }

    /// Records (or moves) the closing time of a poll.
    pub fn insert(&mut self, id: u128, expires_at: (i64, u32))
        ensures
            final(self).entries() == old(self).entries().insert(id, expires_at),
            final(self).entries().dom().finite(),
            final(self).entries().len() == old(self).entries().len() + if old(
                self,
            ).entries().dom().contains(id) {
                0int
            } else {
                1int
            },
    {
        let mut m = self.take_map();
        let _ = dashmap_insert(&mut m, id, expires_at);
        self.inner = Some(m);
    }

    /// The closing time of a poll, if it is in the index.
    pub fn get(&self, id: u128) -> (r: Option<(i64, u32)>)
        ensures
            r == lookup(self.entries(), id),
            self.entries().dom().finite(),
    {
        proof {
            use_type_invariant(self);
        }
        match &self.inner {
            Some(m) => dashmap_get(m, id),
            None => None,
        }
    }

    /// Whether a poll is in the index.
    pub fn contains(&self, id: u128) -> (r: bool)
        ensures
            r == self.entries().dom().contains(id),
            self.entries().dom().finite(),
    {
        proof {
            use_type_invariant(self);
        }
        match &self.inner {
            Some(m) => dashmap_contains_key(m, id),
            None => false,
        }
    }

    /// Takes a poll out of the index, handing back its closing time.
    pub fn remove(&mut self, id: u128) -> (r: Option<(i64, u32)>)
        ensures
            final(self).entries() == old(self).entries().remove(id),
            final(self).entries().dom().finite(),
            final(self).entries().len() == old(self).entries().len() - if old(
                self,
            ).entries().dom().contains(id) {
                1int
            } else {
                0int
            },
            r == lookup(old(self).entries(), id),
    {
        let mut m = self.take_map();
        let r = dashmap_remove(&mut m, id);
        self.inner = Some(m);
        r
    }

    /// Replaces the whole index with the given polls; a later pair for the
    /// same id wins.
    pub fn sync_all(&mut self, fresh_polls: Vec<(u128, (i64, u32))>)
        ensures
            final(self).entries() == map_of_pairs(fresh_polls@),
            final(self).entries().dom().finite(),
    {
        let mut m = self.take_map();
        dashmap_clear(&mut m);
        let mut i: usize = 0;
        assert(dashmap_entries(m) =~= map_of_pairs(Seq::<(u128, (i64, u32))>::empty()));
        assert(fresh_polls@.subrange(0, 0) =~= Seq::<(u128, (i64, u32))>::empty());
        while i < fresh_polls.len()
            invariant
                i <= fresh_polls@.len(),
                dashmap_entries(m) == map_of_pairs(fresh_polls@.subrange(0, i as int)),
                dashmap_entries(m).dom().finite(),
            decreases fresh_polls@.len() - i,
        {
            let (id, ends_at) = fresh_polls[i];
            let _ = dashmap_insert(&mut m, id, ends_at);
            assert(fresh_polls@.subrange(0, i + 1).drop_last() =~= fresh_polls@.subrange(0, i as int));
            i = i + 1;
        }
        assert(fresh_polls@.subrange(0, fresh_polls@.len() as int) =~= fresh_polls@);
        self.inner = Some(m);
    }

    /// Drops every poll that has closed by `now`; returns how many went.
    pub fn evict_expired_at(&mut self, now: (i64, u32)) -> (r: usize)
        ensures
            final(self).entries().dom().finite(),
            final(self).entries() == still_running(old(self).entries(), now),
            r == old(self).entries().len() - final(self).entries().len(),
            r == closed_by(old(self).entries(), now).len(),
    {
        let mut m = self.take_map();
        let ghost before = dashmap_entries(m);
        let initial_len = dashmap_len(&m);
        dashmap_retain_running(&mut m, now);
        let after_len = dashmap_len(&m);
        proof {
            lemma_running_split(before, now);
        }
        self.inner = Some(m);
        initial_len - after_len
    }

    /// Drops every poll that has closed by now, by the system clock; returns
    /// how many went.
    pub fn evict_expired(&mut self) -> (r: usize)
        ensures
            final(self).entries().dom().finite(),
            final(self).entries().submap_of(old(self).entries()),
            r == old(self).entries().len() - final(self).entries().len(),
            exists|now: (i64, u32)|
                now.0 >= 0 && now.1 < 1_000_000_000 && #[trigger] still_running(old(self).entries(), now)
                    == final(self).entries() && r == closed_by(old(self).entries(), now).len(),
    {
        let now = utc_now();
        let r = self.evict_expired_at(now);
        assert(still_running(old(self).entries(), now) == self.entries());
        r
    }

    /// Number of polls in the index.
    pub fn len(&self) -> (r: usize)
        ensures
            r == self.entries().len(),
            self.entries().dom().finite(),
    {
        proof {
            use_type_invariant(self);
        }
        match &self.inner {
            Some(m) => dashmap_len(m),
            None => 0,
        }
    }

    /// Whether the index holds no poll.
    pub fn is_empty(&self) -> (r: bool)
        ensures
            r == (self.entries().dom() == Set::<u128>::empty()),
    {
        let n = self.len();
        proof {
            if n == 0 {
                self.entries().dom().lemma_len0_is_empty();
            } else {
                if self.entries().dom() == Set::<u128>::empty() {
                    assert(self.entries().dom().len() == 0);
                }
            }
        }
        n == 0
    }

    /// Takes out every poll that has closed by `now` and returns their ids
    /// (each once, in no fixed order).
    pub fn retain_expired_at(&mut self, now: (i64, u32)) -> (r: Vec<u128>)
        ensures
            final(self).entries().dom().finite(),
            final(self).entries() == still_running(old(self).entries(), now),
            r@.to_set() == closed_by(old(self).entries(), now),
            r@.no_duplicates(),
    {
        let mut m = self.take_map();
        let ghost before = dashmap_entries(m);
        let keys = dashmap_keys(&m);
        let mut expired: Vec<u128> = Vec::new();
        let mut i: usize = 0;
        while i < keys.len()
            invariant
                i <= keys@.len(),
                keys@.to_set() == before.dom(),
                keys@.no_duplicates(),
                dashmap_entries(m) == before.remove_keys(
                    keys@.subrange(0, i as int).to_set().filter(|k: u128| !later(before[k], now)),
                ),
                expired@.to_set() == keys@.subrange(0, i as int).to_set().filter(
                    |k: u128| !later(before[k], now),
                ),
                expired@.no_duplicates(),
                forall|j: int| 0 <= j < expired@.len() ==> keys@.subrange(0, i as int).contains(
                    #[trigger] expired@[j],
                ),
            decreases keys@.len() - i,
        {
            let k = keys[i];
            assert(before.dom().contains(k)) by {
                assert(keys@.contains(k));
            }
            assert(!keys@.subrange(0, i as int).contains(k)) by {
                if keys@.subrange(0, i as int).contains(k) {
                    let j = choose|j: int| 0 <= j < i && keys@.subrange(0, i as int)[j] == k;
                    assert(keys@[j] == keys@[i as int]);
                }
            }
            let ghost prefix_set = keys@.subrange(0, i as int).to_set();
            assert(keys@.subrange(0, i + 1) =~= keys@.subrange(0, i as int).push(k));
            proof {
                keys@.subrange(0, i as int).lemma_push_to_set_commute(k);
            }
            assert(keys@.subrange(0, i + 1).to_set() =~= prefix_set.insert(k));
            let ghost old_expired = expired@;
            let cur = dashmap_get(&m, k);
            match cur {
                Some(ends_at) => {
                    assert(ends_at == before[k]);
                    if !is_running(ends_at, now) {
                        let _ = dashmap_remove(&mut m, k);
                        expired.push(k);
                        proof {
                            old_expired.lemma_push_to_set_commute(k);
                            assert(!old_expired.contains(k));
                        }
                        assert(expired@.to_set() =~= prefix_set.filter(|x: u128| !later(before[x], now)).insert(k));
                    }
                },
                None => {},
            }
            assert(dashmap_entries(m) =~= before.remove_keys(
                keys@.subrange(0, i + 1).to_set().filter(|x: u128| !later(before[x], now)),
            ));
            assert(expired@.to_set() =~= keys@.subrange(0, i + 1).to_set().filter(
                |x: u128| !later(before[x], now),
            ));
            assert forall|j: int| 0 <= j < expired@.len() implies keys@.subrange(0, i + 1).contains(
                #[trigger] expired@[j],
            ) by {
                if j < old_expired.len() {
                    assert(expired@[j] == old_expired[j]);
                    assert(keys@.subrange(0, i as int).contains(old_expired[j]));
                    let t = choose|t: int| 0 <= t < i && keys@.subrange(0, i as int)[t] == old_expired[j];
                    assert(keys@.subrange(0, i + 1)[t] == old_expired[j]);
                } else {
                    assert(expired@[j] == k);
                    assert(keys@.subrange(0, i + 1)[i as int] == k);
                }
            }
            i = i + 1;
        }
        assert(keys@.subrange(0, keys@.len() as int) =~= keys@);
        assert(dashmap_entries(m) =~= still_running(before, now));
        assert(expired@.to_set() =~= closed_by(before, now));
        proof {
            lemma_running_split(before, now);
        }
        let ghost after = dashmap_entries(m);
        assert(after.dom().finite()) by {
            assert(after.dom() =~= still_running(before, now).dom());
        }
        self.inner = Some(m);
        expired
    }

    /// Takes out every poll that has closed by now, by the system clock, and
    /// returns their ids.
    pub fn retain_expired(&mut self) -> (r: Vec<u128>)
        ensures
            final(self).entries().dom().finite(),
            final(self).entries().submap_of(old(self).entries()),
            forall|j: int| 0 <= j < r@.len() ==> old(self).entries().dom().contains(#[trigger] r@[j])
                && !final(self).entries().dom().contains(r@[j]),
            r@.no_duplicates(),
            exists|now: (i64, u32)|
                now.0 >= 0 && now.1 < 1_000_000_000 && #[trigger] still_running(old(self).entries(), now)
                    == final(self).entries() && r@.to_set() == closed_by(old(self).entries(), now),
    {
        let now = utc_now();
        let r = self.retain_expired_at(now);
        assert(still_running(old(self).entries(), now) == self.entries());
        assert forall|j: int| 0 <= j < r@.len() implies old(self).entries().dom().contains(
            #[trigger] r@[j],
        ) && !self.entries().dom().contains(r@[j]) by {
            assert(r@.to_set().contains(r@[j]));
        }
        r
    }
}

/// The map a list of (id, closing time) pairs builds, later pairs winning.
pub open spec fn map_of_pairs(s: Seq<(u128, (i64, u32))>) -> Map<u128, (i64, u32)>
    decreases s.len(),
{
    if s.len() == 0 {
        Map::<u128, (i64, u32)>::empty()
    } else {
        map_of_pairs(s.drop_last()).insert(s.last().0, s.last().1)
    }
}

/// What the expiry loop does with a poll whose closing time has passed.
#[derive(Clone, Copy, PartialEq, Eq, Structural, Debug)]
pub enum ExpiredPollAction {
    /// The poll is still open in the database: close it and publish the
    /// results.
    Finalise,
    /// The poll is gone or already closed: only forget it.
    Forget,
}

/// Decides on an expired poll from whether the database still holds it as
/// active.
pub fn expired_poll_action(active_in_db: bool) -> (r: ExpiredPollAction)
    ensures
        r == (if active_in_db {
            ExpiredPollAction::Finalise
        } else {
            ExpiredPollAction::Forget
        }),
{
    if active_in_db {
        ExpiredPollAction::Finalise
    } else {
        ExpiredPollAction::Forget
    }
}

/// A lookup after an insert gives the new closing time for that poll, and
/// what it gave before for every other poll.
pub proof fn lemma_lookup_after_insert(
    m: Map<u128, (i64, u32)>,
    id: u128,
    at: (i64, u32),
    other: u128,
)
    ensures
        lookup(m.insert(id, at), id) == Some(at),
        other != id ==> lookup(m.insert(id, at), other) == lookup(m, other),
{
}

/// After a removal the poll is no longer found; every other poll is found
/// as before.
pub proof fn lemma_lookup_after_remove(m: Map<u128, (i64, u32)>, id: u128, other: u128)
    ensures
        lookup(m.remove(id), id) is None,
        other != id ==> lookup(m.remove(id), other) == lookup(m, other),
{
}

/// Eviction splits the index in two: the polls that stay are exactly those
/// still running, with their closing times unchanged; the polls that go are
/// exactly those closed; and a second eviction at the same moment finds
/// nothing more to drop.
pub proof fn lemma_eviction_partition(m: Map<u128, (i64, u32)>, now: (i64, u32))
    ensures
        forall|k: u128|
            #[trigger] still_running(m, now).dom().contains(k) <==> m.dom().contains(k) && later(
                m[k],
                now,
            ),
        forall|k: u128|
            #[trigger] still_running(m, now).dom().contains(k) ==> still_running(m, now)[k] == m[k],
        forall|k: u128|
            #[trigger] closed_by(m, now).contains(k) <==> m.dom().contains(k) && !later(m[k], now),
        still_running(still_running(m, now), now) == still_running(m, now),
        closed_by(still_running(m, now), now) == Set::<u128>::empty(),
{
    let r = still_running(m, now);
    assert(still_running(r, now) =~= r);
    assert(closed_by(r, now) =~= Set::<u128>::empty());
}

/// After a sync, the index holds exactly the ids of the given pairs, each
/// with the closing time of its last pair.
pub proof fn lemma_sync_lookup(s: Seq<(u128, (i64, u32))>)
    ensures
        forall|k: u128|
            #[trigger] map_of_pairs(s).dom().contains(k) <==> exists|j: int|
                0 <= j < s.len() && s[j].0 == k,
        forall|j: int|
            0 <= j < s.len() && (forall|i: int| j < i < s.len() ==> s[i].0 != s[j].0)
                ==> #[trigger] map_of_pairs(s)[s[j].0] == s[j].1,
    decreases s.len(),
{
    if s.len() > 0 {
        let prev = s.drop_last();
        lemma_sync_lookup(prev);
        assert forall|k: u128| #[trigger] map_of_pairs(s).dom().contains(k) <==> exists|j: int|
            0 <= j < s.len() && s[j].0 == k by {
            if map_of_pairs(s).dom().contains(k) && k != s.last().0 {
                assert(map_of_pairs(prev).dom().contains(k));
                let j = choose|j: int| 0 <= j < prev.len() && prev[j].0 == k;
                assert(s[j] == prev[j]);
            }
            if map_of_pairs(s).dom().contains(k) && k == s.last().0 {
                assert(s[s.len() - 1].0 == k);
            }
            if exists|j: int| 0 <= j < s.len() && s[j].0 == k {
                let j = choose|j: int| 0 <= j < s.len() && s[j].0 == k;
                if j < s.len() - 1 {
                    assert(prev[j] == s[j]);
                    assert(map_of_pairs(prev).dom().contains(k));
                }
            }
        }
        assert forall|j: int|
            0 <= j < s.len() && (forall|i: int| j < i < s.len() ==> s[i].0 != s[j].0)
                implies #[trigger] map_of_pairs(s)[s[j].0] == s[j].1 by {
            if j < s.len() - 1 {
                assert(prev[j] == s[j]);
                assert forall|i: int| j < i < prev.len() implies prev[i].0 != prev[j].0 by {
                    assert(prev[i] == s[i]);
                }
                assert(s[s.len() - 1].0 != s[j].0);
                assert(map_of_pairs(prev)[prev[j].0] == prev[j].1);
            }
        }
    }
}

proof fn lemma_running_split(m: Map<u128, (i64, u32)>, now: (i64, u32))
    requires
        m.dom().finite(),
    ensures
        m.len() == still_running(m, now).len() + closed_by(m, now).len(),
        still_running(m, now).dom().finite(),
{
    let keep = m.dom().filter(|k: u128| later(m[k], now));
    let gone = closed_by(m, now);
    assert(still_running(m, now).dom() =~= keep);
    vstd::set_lib::lemma_set_disjoint_lens(keep, gone);
    assert(keep + gone =~= m.dom());
}

} // verus!
