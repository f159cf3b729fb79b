//! The parameter store: authoritative holder of the aggregated map and its
//! sole writer.
//!
//! Reads are typed per family and side-effect free; writes are gated per key
//! through a pluggable authorization check, mutate at most one entry, and
//! emit exactly one change notification carrying the original concrete pair.

use vstd::prelude::*;

use crate::codec::AggregatedKey;
use crate::codec::AggregatedKeyValue;
use crate::codec::AggregatedValue;
use crate::codec::Key;
use crate::codec::lemma_into_parts_coherent;
use crate::codec::same_family;

verus! {

/// The authenticated entity attempting a write, evaluated against the
/// authorization capability.
pub type Actor = u64;

/// The sole explicit failure of `set_parameter`: the authorization
/// capability denied the actor for the given key.
#[derive(Clone, Copy, PartialEq, Eq, Structural, Debug)]
pub enum Error {
    NotAuthorized,
}

/// A change notification: an immutable record of the full concrete pair as
/// submitted, emitted exactly once per successful `set_parameter` and handed
/// to the host's event collaborator.
#[derive(Clone, Copy, PartialEq, Eq, Structural, Debug)]
pub enum Event {
    /// Parameter is updated.
    Updated { key_value: AggregatedKeyValue },
}

/// The configuration the host supplies: the authorization capability that
/// decides, per actor and per aggregated key, whether a write may proceed.
pub trait Config {
    /// Which (actor, key) writes the policy allows.
    spec fn spec_allows(&self, actor: Actor, key: AggregatedKey) -> bool;

    /// The origin check of a write to `key` by `actor`: allow or deny.
    fn ensure_origin(&self, actor: Actor, key: &AggregatedKey) -> (r: bool)
        ensures
            r == self.spec_allows(actor, *key),
    ;
}

/// A policy that allows every write whose actor is the configured admin.
pub struct AdminConfig {
    pub admin: Actor,
}

impl Config for AdminConfig {
    open spec fn spec_allows(&self, actor: Actor, key: AggregatedKey) -> bool {
        actor == self.admin
    }

    fn ensure_origin(&self, actor: Actor, key: &AggregatedKey) -> bool {
        actor == self.admin
    }
}

/// A per-family policy: each parameter family has its own admin, so
/// different keys require different authority.
pub struct FamilyAdminConfig {
    pub speed_admin: Actor,
    pub fee_admin: Actor,
}

impl Config for FamilyAdminConfig {
    open spec fn spec_allows(&self, actor: Actor, key: AggregatedKey) -> bool {
        match key {
            AggregatedKey::Speed(_) => actor == self.speed_admin,
            AggregatedKey::Fee(_) => actor == self.fee_admin,
        }
    }

    fn ensure_origin(&self, actor: Actor, key: &AggregatedKey) -> bool {
        match key {
            AggregatedKey::Speed(_) => actor == self.speed_admin,
            AggregatedKey::Fee(_) => actor == self.fee_admin,
        }
    }
}

/// The map that a sequence of entries represents, later entries shadowing
/// earlier ones (a well-formed store has no duplicate keys, so no shadowing
/// ever happens).
pub open spec fn entries_map(s: Seq<(AggregatedKey, AggregatedValue)>) -> Map<
    AggregatedKey,
    AggregatedValue,
>
    decreases s.len(),
{
    if s.len() == 0 {
        Map::empty()
    } else {
        entries_map(s.drop_last()).insert(s.last().0, s.last().1)
    }
}

/// No two entries share a key.
pub open spec fn unique_keys(s: Seq<(AggregatedKey, AggregatedValue)>) -> bool {
    forall|i: int, j: int|
        0 <= i < j < s.len() ==> (#[trigger] s[i]).0 != (#[trigger] s[j]).0
}

/// Every entry's value is tagged with its key's family.
pub open spec fn coherent_entries(s: Seq<(AggregatedKey, AggregatedValue)>) -> bool {
    forall|i: int| 0 <= i < s.len() ==> same_family((#[trigger] s[i]).0, s[i].1)
}

proof fn lemma_unique_drop_last(s: Seq<(AggregatedKey, AggregatedValue)>)
    requires
        unique_keys(s),
        s.len() > 0,
    ensures
        unique_keys(s.drop_last()),
{
    assert forall|i: int, j: int|
        0 <= i < j < s.drop_last().len() implies (#[trigger] s.drop_last()[i]).0 != (
    #[trigger] s.drop_last()[j]).0 by {
        assert(s.drop_last()[i] == s[i]);
        assert(s.drop_last()[j] == s[j]);
    }
}

/// A key is in the represented map exactly when some entry holds it.
proof fn lemma_entries_map_contains(s: Seq<(AggregatedKey, AggregatedValue)>, k: AggregatedKey)
    ensures
        entries_map(s).dom().contains(k) <==> exists|i: int|
            0 <= i < s.len() && (#[trigger] s[i]).0 == k,
    decreases s.len(),
{
    if s.len() > 0 {
        let t = s.drop_last();
        lemma_entries_map_contains(t, k);
        if entries_map(s).dom().contains(k) {
            if k == s.last().0 {
                assert((#[trigger] s[s.len() - 1]).0 == k);
            } else {
                let i = choose|i: int| 0 <= i < t.len() && (#[trigger] t[i]).0 == k;
                assert((#[trigger] s[i]).0 == k);
            }
        }
        if exists|i: int| 0 <= i < s.len() && (#[trigger] s[i]).0 == k {
            let i = choose|i: int| 0 <= i < s.len() && (#[trigger] s[i]).0 == k;
            if i < s.len() - 1 {
                assert((#[trigger] t[i]).0 == k);
            }
        }
    }
}

/// In a store without duplicate keys, the represented map sends each entry's
/// key to that entry's value.
proof fn lemma_entries_map_index(s: Seq<(AggregatedKey, AggregatedValue)>, i: int)
    requires
        unique_keys(s),
        0 <= i < s.len(),
    ensures
        entries_map(s).dom().contains(s[i].0),
        entries_map(s)[s[i].0] == s[i].1,
    decreases s.len(),
{
    if i < s.len() - 1 {
        let t = s.drop_last();
        lemma_unique_drop_last(s);
        lemma_entries_map_index(t, i);
        assert(t[i] == s[i]);
        assert((#[trigger] s[i]).0 != (#[trigger] s[s.len() - 1]).0);
    }
}

/// Removing an entry removes exactly its key from the represented map, and
/// keeps the store well-formed and free of that key.
proof fn lemma_entries_map_remove(s: Seq<(AggregatedKey, AggregatedValue)>, i: int)
    requires
        unique_keys(s),
        0 <= i < s.len(),
    ensures
        entries_map(s.remove(i)) == entries_map(s).remove(s[i].0),
        unique_keys(s.remove(i)),
        coherent_entries(s) ==> coherent_entries(s.remove(i)),
        forall|j: int| 0 <= j < s.remove(i).len() ==> (#[trigger] s.remove(i)[j]).0 != s[i].0,
    decreases s.len(),
{
    let r = s.remove(i);
    assert forall|j: int| 0 <= j < r.len() implies (#[trigger] r[j]).0 != s[i].0 by {
        if j < i {
            assert(r[j] == (#[trigger] s[j]));
        } else {
            assert(r[j] == (#[trigger] s[j + 1]));
        }
    }
    assert forall|x: int, y: int|
        0 <= x < y < r.len() implies (#[trigger] r[x]).0 != (#[trigger] r[y]).0 by {
        let sx: int = if x < i { x } else { x + 1 };
        let sy: int = if y < i { y } else { y + 1 };
        assert(r[x] == (#[trigger] s[sx]));
        assert(r[y] == (#[trigger] s[sy]));
    }
    if coherent_entries(s) {
        assert forall|j: int|
            0 <= j < r.len() implies same_family((#[trigger] r[j]).0, r[j].1) by {
            let sj: int = if j < i { j } else { j + 1 };
            assert(r[j] == (#[trigger] s[sj]));
        }
    }
    let t = s.drop_last();
    let p = s.last();
    lemma_unique_drop_last(s);
    if i == s.len() - 1 {
        assert(r =~= t);
        lemma_entries_map_contains(t, p.0);
        if entries_map(t).dom().contains(p.0) {
            let j = choose|j: int| 0 <= j < t.len() && (#[trigger] t[j]).0 == p.0;
            assert((#[trigger] s[j]).0 == (#[trigger] s[s.len() - 1]).0);
            assert(false);
        }
        assert(entries_map(s).remove(p.0) =~= entries_map(t));
    } else {
        lemma_entries_map_remove(t, i);
        assert(r.len() > 0);
        assert(r.last() == p);
        assert(r.drop_last() =~= t.remove(i));
        assert(entries_map(r) == entries_map(t.remove(i)).insert(p.0, p.1));
        assert((#[trigger] s[i]).0 != (#[trigger] s[s.len() - 1]).0);
        assert(t[i] == s[i]);
        assert(entries_map(t).remove(s[i].0).insert(p.0, p.1) =~= entries_map(t).insert(
            p.0,
            p.1,
        ).remove(s[i].0));
    }
}

/// Scans for the entry holding `key`.
fn find_index(entries: &Vec<(AggregatedKey, AggregatedValue)>, key: &AggregatedKey) -> (r: Option<
    usize,
>)
    ensures
        match r {
            Some(i) => i < entries@.len() && entries@[i as int].0 == *key,
            None => forall|j: int| 0 <= j < entries@.len() ==> (#[trigger] entries@[j]).0 != *key,
        },
{
    let mut i: usize = 0;
    while i < entries.len()
        invariant
            i <= entries@.len(),
            forall|j: int| 0 <= j < i ==> (#[trigger] entries@[j]).0 != *key,
        decreases entries@.len() - i,
    {
        if entries[i].0 == *key {
            return Some(i);
        }
        i = i + 1;
    }
    None
}

/// The parameter store: the map from aggregated key to aggregated value,
/// the configured authorization policy, and the sequence of notifications
/// emitted so far (forwarded synchronously to the host's event collaborator,
/// kept here so observers see exactly what was emitted).
pub struct Pallet<C: Config> {
    config: C,
    entries: Vec<(AggregatedKey, AggregatedValue)>,
    events: Vec<Event>,
}

impl<C: Config> Pallet<C> {
    /// The stored parameters, as the map they represent.
    pub closed spec fn params(&self) -> Map<AggregatedKey, AggregatedValue> {
        entries_map(self.entries@)
    }

    /// The notifications emitted so far, oldest first.
    pub closed spec fn emitted(&self) -> Seq<Event> {
        self.events@
    }

    /// The configured authorization policy.
    pub closed spec fn policy(&self) -> C {
        self.config
    }

    /// Well-formed: no duplicate keys, and every entry type-coherent.
    pub closed spec fn wf(&self) -> bool {
        unique_keys(self.entries@) && coherent_entries(self.entries@)
    }

    /// What a typed read returns: the narrowing of the stored aggregated
    /// value, absence when no entry is present.
    pub open spec fn spec_get<K: Key>(&self, key: K) -> Option<K::Value> {
        if self.params().dom().contains(key.spec_aggregated()) {
            K::spec_narrow(self.params()[key.spec_aggregated()])
        } else {
            None
        }
    }

    /// An empty store under the given authorization policy.
    pub fn new(config: C) -> (r: Pallet<C>)
        ensures
            r.wf(),
            r.params() == Map::<AggregatedKey, AggregatedValue>::empty(),
            r.emitted() == Seq::<Event>::empty(),
            r.policy() == config,
    {
        Pallet { config, entries: Vec::new(), events: Vec::new() }
    }

    /// The type-coherence invariant: if an aggregated key of family F is
    /// present in the map, its associated value is tagged with family F.
    pub proof fn lemma_type_coherence(&self, k: AggregatedKey)
        requires
            self.wf(),
            self.params().dom().contains(k),
        ensures
            same_family(k, self.params()[k]),
    {
        lemma_entries_map_contains(self.entries@, k);
        let i = choose|i: int| 0 <= i < self.entries@.len() && (#[trigger] self.entries@[i]).0 == k;
        lemma_entries_map_index(self.entries@, i);
    }

    /// Typed read for one family: converts the key to its aggregated form,
    /// looks the map up, and narrows the stored value. Absence and a foreign
    /// family's value both surface as `None`; no side effects, never an
    /// error.
    pub fn get<K: Key>(&self, key: K) -> (r: Option<K::Value>)
        requires
            self.wf(),
        ensures
            r == self.spec_get(key),
    {
        let agg = key.into_aggregated();
        match find_index(&self.entries, &agg) {
            None => {
                proof {
                    lemma_entries_map_contains(self.entries@, agg);
                }
                None
            },
            Some(i) => {
                let av = self.entries[i].1;
                proof {
                    lemma_entries_map_index(self.entries@, i as int);
                }
                K::narrow(av)
            },
        }
    }

    /// Guarded write: decomposes the pair, asks the authorization policy,
    /// and on approval writes (or, for an absent value, clears) the entry at
    /// the pair's aggregated key and emits exactly one notification carrying
    /// the original concrete pair. On denial it fails with the sole error
    /// and mutates nothing; clearing an absent key succeeds and leaves the
    /// map unchanged.
    pub fn set_parameter(&mut self, actor: Actor, key_value: AggregatedKeyValue) -> (r: Result<
        (),
        Error,
    >)
        requires
            old(self).wf(),
        ensures
            final(self).wf(),
            final(self).policy() == old(self).policy(),
            r is Ok <==> old(self).policy().spec_allows(actor, key_value.spec_key()),
            r is Err ==> r == Err::<(), Error>(Error::NotAuthorized) && *final(self) == *old(self),
            r is Ok ==> final(self).params() == (match key_value.spec_value() {
                Some(v) => old(self).params().insert(key_value.spec_key(), v),
                None => old(self).params().remove(key_value.spec_key()),
            }),
            r is Ok ==> final(self).emitted() == old(self).emitted().push(
                Event::Updated { key_value },
            ),
    {
        let (key, value) = key_value.into_parts();
        if !self.config.ensure_origin(actor, &key) {
            return Err(Error::NotAuthorized);
        }
        proof {
            lemma_into_parts_coherent(key_value);
        }
        let ghost pre = self.entries@;
        match find_index(&self.entries, &key) {
            Some(i) => {
                proof {
                    lemma_entries_map_remove(self.entries@, i as int);
                }
                self.entries.remove(i);
            },
            None => {
                proof {
                    lemma_entries_map_contains(self.entries@, key);
                    assert(entries_map(pre).remove(key) =~= entries_map(pre));
                }
            },
        }
        assert(entries_map(self.entries@) == entries_map(pre).remove(key));
        assert(forall|j: int|
            0 <= j < self.entries@.len() ==> (#[trigger] self.entries@[j]).0 != key);
        if let Some(v) = value {
            let ghost cleared = self.entries@;
            self.entries.push((key, v));
            proof {
                assert(self.entries@.drop_last() =~= cleared);
                assert(entries_map(self.entries@) == entries_map(cleared).insert(key, v));
                assert(entries_map(pre).remove(key).insert(key, v) =~= entries_map(pre).insert(
                    key,
                    v,
                ));
                assert forall|x: int, y: int|
                    0 <= x < y < self.entries@.len() implies (#[trigger] self.entries@[x]).0 != (
                #[trigger] self.entries@[y]).0 by {
                    if y < self.entries@.len() - 1 {
                        assert(self.entries@[x] == cleared[x]);
                        assert(self.entries@[y] == cleared[y]);
                    } else {
                        assert(self.entries@[x] == cleared[x]);
                    }
                }
                assert forall|j: int|
                    0 <= j < self.entries@.len() implies same_family(
                    (#[trigger] self.entries@[j]).0,
                    self.entries@[j].1,
                ) by {
                    if j < self.entries@.len() - 1 {
                        assert(self.entries@[j] == cleared[j]);
                    }
                }
            }
        }
        self.events.push(Event::Updated { key_value });
        Ok(())
    }

    /// The notifications emitted so far, for the host's event collaborator.
    pub fn events(&self) -> (r: &Vec<Event>)
        ensures
            r@ == self.emitted(),
    {
        &self.events
    }
}

/// Round trip: for every family and every valid pair, a successful write of
/// `Some(v)` under `key` makes the typed read of `key` return `Some(v)`.
///
/// The premise is exactly what `set_parameter`'s postcondition gives for the
/// pair `key.spec_pair(Some(v))`, whose parts `Key::lemma_pair_parts` names.
pub proof fn lemma_round_trip<C: Config, K: Key>(
    pre: Pallet<C>,
    post: Pallet<C>,
    key: K,
    v: K::Value,
)
    requires
        post.params() == pre.params().insert(key.spec_aggregated(), K::spec_wrap(v)),
    ensures
        post.spec_get(key) == Some(v),
{
    K::lemma_narrow_wrap(v);
}

/// Clear: after a successful write of an absent value under a key, the typed
/// read of that key returns `None`, whether or not the key was set before.
///
/// The premise is exactly what `set_parameter`'s postcondition gives for the
/// pair `key.spec_pair(None)`, whose parts `Key::lemma_pair_parts` names.
pub proof fn lemma_clear<C: Config, K: Key>(pre: Pallet<C>, post: Pallet<C>, key: K)
    requires
        post.params() == pre.params().remove(key.spec_aggregated()),
    ensures
        post.spec_get(key) == None::<K::Value>,
{
}

/// Idempotent clear: clearing an already-absent key leaves the map unchanged
/// (and, by `set_parameter`'s contract, such a clear still succeeds whenever
/// the actor is allowed).
pub proof fn lemma_idempotent_clear<C: Config>(
    pre: Pallet<C>,
    post: Pallet<C>,
    k: AggregatedKey,
)
    requires
        !pre.params().dom().contains(k),
        post.params() == pre.params().remove(k),
    ensures
        post.params() == pre.params(),
{
    assert(pre.params().remove(k) =~= pre.params());
}

/// Cross-key isolation: a write (insert or clear) under one aggregated key
/// never changes the typed read under any distinct aggregated key.
pub proof fn lemma_cross_key_isolation<C: Config, K: Key>(
    pre: Pallet<C>,
    post: Pallet<C>,
    written: AggregatedKey,
    av: AggregatedValue,
    key: K,
)
    requires
        key.spec_aggregated() != written,
        post.params() == pre.params().insert(written, av) || post.params() == pre.params().remove(
            written,
        ),
    ensures
        post.spec_get(key) == pre.spec_get(key),
{
}

/// A typed read never surfaces a foreign family's value: whatever is stored,
/// a read that yields `Some(v)` yields a value this family itself wrapped.
pub proof fn lemma_get_sound<C: Config, K: Key>(store: Pallet<C>, key: K)
    ensures
        store.spec_get(key) matches Some(v) ==> store.params()[key.spec_aggregated()]
            == K::spec_wrap(v),
{
    let agg = key.spec_aggregated();
    if store.params().dom().contains(agg) {
        K::lemma_narrow_sound(store.params()[agg]);
    }
}

} // verus!
