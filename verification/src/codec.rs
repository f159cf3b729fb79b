//! The aggregated key/value codec: a closed, compile-time-known union of
//! parameter families, each with a distinct key type and value type.
//!
//! The codec is pure and holds no state. It offers decomposition of a
//! concrete per-family pair into its aggregated storage form, and, for each
//! family, a typed narrowing that converts an aggregated value back into that
//! family's native value type, failing to absence when the stored value
//! belongs to a different family.

use vstd::prelude::*;

verus! {

/// Keys of the `Speed` family, whose values are `u32` speeds.
#[derive(Clone, Copy, PartialEq, Eq, Structural, Debug)]
pub enum SpeedKey {
    MaxSpeedKey,
    MinSpeedKey,
}

/// Keys of the `Fee` family: one key per fee class, whose values are `u64`
/// amounts.
#[derive(Clone, Copy, PartialEq, Eq, Structural, Debug)]
pub struct FeeKey {
    pub class: u8,
}

/// The tagged union over all families' key types: the store's lookup key.
#[derive(Clone, Copy, PartialEq, Eq, Structural, Debug)]
pub enum AggregatedKey {
    Speed(SpeedKey),
    Fee(FeeKey),
}

/// The tagged union over all families' value types: the stored value, tagged
/// with the family it came from.
#[derive(Clone, Copy, PartialEq, Eq, Structural, Debug)]
pub enum AggregatedValue {
    Speed(u32),
    Fee(u64),
}

/// A concrete key-value pair of one family, as a writer submits it. The
/// value slot is absent when the writer intends to clear the key.
#[derive(Clone, Copy, PartialEq, Eq, Structural, Debug)]
pub enum AggregatedKeyValue {
    Speed(SpeedKey, Option<u32>),
    Fee(FeeKey, Option<u64>),
}

impl AggregatedKeyValue {
    /// The aggregated key this pair addresses.
    pub open spec fn spec_key(self) -> AggregatedKey {
        match self {
            AggregatedKeyValue::Speed(k, _) => AggregatedKey::Speed(k),
            AggregatedKeyValue::Fee(k, _) => AggregatedKey::Fee(k),
        }
    }

    /// The aggregated value this pair carries, absent on a clear.
    pub open spec fn spec_value(self) -> Option<AggregatedValue> {
        match self {
            AggregatedKeyValue::Speed(_, Some(v)) => Some(AggregatedValue::Speed(v)),
            AggregatedKeyValue::Speed(_, None) => None,
            AggregatedKeyValue::Fee(_, Some(v)) => Some(AggregatedValue::Fee(v)),
            AggregatedKeyValue::Fee(_, None) => None,
        }
    }

    /// Decomposes the pair into the aggregated forms under which it is
    /// stored. Total: every concrete pair of every family converts without
    /// failure.
    pub fn into_parts(self) -> (r: (AggregatedKey, Option<AggregatedValue>))
        ensures
            r.0 == self.spec_key(),
            r.1 == self.spec_value(),
    {
        match self {
            AggregatedKeyValue::Speed(k, v) => (
                AggregatedKey::Speed(k),
                match v {
                    Some(x) => Some(AggregatedValue::Speed(x)),
                    None => None,
                },
            ),
            AggregatedKeyValue::Fee(k, v) => (
                AggregatedKey::Fee(k),
                match v {
                    Some(x) => Some(AggregatedValue::Fee(x)),
                    None => None,
                },
            ),
        }
    }
}

/// Whether an aggregated value carries the family that an aggregated key
/// addresses.
pub open spec fn same_family(k: AggregatedKey, v: AggregatedValue) -> bool {
    match (k, v) {
        (AggregatedKey::Speed(_), AggregatedValue::Speed(_)) => true,
        (AggregatedKey::Fee(_), AggregatedValue::Fee(_)) => true,
        _ => false,
    }
}

/// Decomposition always produces same-family tags: the type-coherence
/// invariant of stored entries is established by construction.
pub proof fn lemma_into_parts_coherent(kv: AggregatedKeyValue)
    ensures
        kv.spec_value() matches Some(v) ==> same_family(kv.spec_key(), v),
{
}

/// One family's typed key: the per-family view of the aggregated union,
/// implemented by every key type of the closed family set.
pub trait Key: Sized {
    /// The family's native value type.
    type Value;

    /// The aggregated form of this key; injective, total, tag-preserving.
    spec fn spec_aggregated(self) -> AggregatedKey;

    /// The aggregated form of one of this family's values.
    spec fn spec_wrap(v: Self::Value) -> AggregatedValue;

    /// The typed narrowing: this family's value out of an aggregated one,
    /// absence on a foreign family's tag.
    spec fn spec_narrow(av: AggregatedValue) -> Option<Self::Value>;

    /// The concrete pair that writes value `v` under this key, a clear when
    /// `v` is absent.
    spec fn spec_pair(self, v: Option<Self::Value>) -> AggregatedKeyValue;

    /// Erases this key into its aggregated form.
    fn into_aggregated(self) -> (r: AggregatedKey)
        ensures
            r == self.spec_aggregated(),
    ;

    /// Attempts to recover this family's value from an aggregated one.
    fn narrow(av: AggregatedValue) -> (r: Option<Self::Value>)
        ensures
            r == Self::spec_narrow(av),
    ;

    /// Builds the concrete pair that writes `v` under this key.
    fn into_key_value(self, v: Option<Self::Value>) -> (r: AggregatedKeyValue)
        ensures
            r == self.spec_pair(v),
    ;

    /// Narrowing recovers exactly the value that wrapping stored.
    proof fn lemma_narrow_wrap(v: Self::Value)
        ensures
            Self::spec_narrow(Self::spec_wrap(v)) == Some(v),
    ;

    /// Narrowing succeeds only on this family's own wrapped values: a typed
    /// read can never surface a foreign family's value.
    proof fn lemma_narrow_sound(av: AggregatedValue)
        ensures
            Self::spec_narrow(av) matches Some(v) ==> av == Self::spec_wrap(v),
    ;

    /// The concrete pair decomposes to this key's own aggregated forms.
    proof fn lemma_pair_parts(self, v: Option<Self::Value>)
        ensures
            self.spec_pair(v).spec_key() == self.spec_aggregated(),
            self.spec_pair(v).spec_value() == (match v {
                Some(x) => Some(Self::spec_wrap(x)),
                None => None::<AggregatedValue>,
            }),
    ;

    /// Erasure into the aggregated key is injective: distinct keys of one
    /// family occupy distinct storage slots.
    proof fn lemma_aggregated_injective(a: Self, b: Self)
        ensures
            a.spec_aggregated() == b.spec_aggregated() ==> a == b,
    ;
}

/// Cross-family disjointness of the two families: their key encodings and
/// value encodings never meet, and each family's narrowing refuses the other
/// family's wrapped value, so a typed read can never return the other
/// family's value.
pub proof fn lemma_family_disjointness(k1: SpeedKey, k2: FeeKey, v1: u32, v2: u64)
    ensures
        k1.spec_aggregated() != k2.spec_aggregated(),
        <SpeedKey as Key>::spec_wrap(v1) != <FeeKey as Key>::spec_wrap(v2),
        <FeeKey as Key>::spec_narrow(<SpeedKey as Key>::spec_wrap(v1)) is None,
        <SpeedKey as Key>::spec_narrow(<FeeKey as Key>::spec_wrap(v2)) is None,
{
}

impl Key for SpeedKey {
    type Value = u32;

    open spec fn spec_aggregated(self) -> AggregatedKey {
        AggregatedKey::Speed(self)
    }

    open spec fn spec_wrap(v: u32) -> AggregatedValue {
        AggregatedValue::Speed(v)
    }

    open spec fn spec_narrow(av: AggregatedValue) -> Option<u32> {
        match av {
            AggregatedValue::Speed(v) => Some(v),
            _ => None,
        }
    }

    open spec fn spec_pair(self, v: Option<u32>) -> AggregatedKeyValue {
        AggregatedKeyValue::Speed(self, v)
    }

    fn into_aggregated(self) -> AggregatedKey {
        AggregatedKey::Speed(self)
    }

    fn narrow(av: AggregatedValue) -> Option<u32> {
        match av {
            AggregatedValue::Speed(v) => Some(v),
            _ => None,
        }
    }

    fn into_key_value(self, v: Option<u32>) -> AggregatedKeyValue {
        AggregatedKeyValue::Speed(self, v)
    }

    proof fn lemma_narrow_wrap(v: u32) {
    }

    proof fn lemma_narrow_sound(av: AggregatedValue) {
    }

    proof fn lemma_pair_parts(self, v: Option<u32>) {
    }

    proof fn lemma_aggregated_injective(a: Self, b: Self) {
    }
}

impl Key for FeeKey {
    type Value = u64;

    open spec fn spec_aggregated(self) -> AggregatedKey {
        AggregatedKey::Fee(self)
    }

    open spec fn spec_wrap(v: u64) -> AggregatedValue {
        AggregatedValue::Fee(v)
    }

    open spec fn spec_narrow(av: AggregatedValue) -> Option<u64> {
        match av {
            AggregatedValue::Fee(v) => Some(v),
            _ => None,
        }
    }

    open spec fn spec_pair(self, v: Option<u64>) -> AggregatedKeyValue {
        AggregatedKeyValue::Fee(self, v)
    }

    fn into_aggregated(self) -> AggregatedKey {
        AggregatedKey::Fee(self)
    }

    fn narrow(av: AggregatedValue) -> Option<u64> {
        match av {
            AggregatedValue::Fee(v) => Some(v),
            _ => None,
        }
    }

    fn into_key_value(self, v: Option<u64>) -> AggregatedKeyValue {
        AggregatedKeyValue::Fee(self, v)
    }

    proof fn lemma_narrow_wrap(v: u64) {
    }

    proof fn lemma_narrow_sound(av: AggregatedValue) {
    }

    proof fn lemma_pair_parts(self, v: Option<u64>) {
    }

    proof fn lemma_aggregated_injective(a: Self, b: Self) {
    }
}

} // verus!
