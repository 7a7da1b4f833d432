//! Version tags: the keys that tell one stored form of a field from another.
use vstd::prelude::*;

verus! {

/// The run-time key of a version. Keys only tell registrations apart; their
/// shape has no bearing on how a payload is resolved.
#[derive(Clone, Copy, Debug, PartialEq, Eq, Structural)]
pub enum VersionKey {
    /// The present form of the field, always tried first.
    Current,
    /// A 128-bit id, large enough to hold a UUID.
    Uuid(u128),
    /// A sequence number.
    Num(u32),
    /// A (major, minor, patch) triple.
    Sem(u64, u64, u64),
    /// A key of the caller's own choosing, for a version that is named by a type.
    Label(u128),
}

/// A type that stands for one version and knows its key.
pub trait VersionTag {
    spec fn spec_key() -> VersionKey;

    fn key() -> (k: VersionKey)
        ensures
            k == Self::spec_key(),
    ;
}

/// A version id for your data, wide enough to hold a UUID.
pub struct Uuid<const N: u128>;

/// A version number for your data.
pub struct Num<const N: u32>;

/// A semantic version number for your data.
pub struct Sem<const A: u64, const B: u64, const C: u64>;

/// A version for your data: the tag `T` used as one entry of a registry.
pub struct Ver<T>(pub core::marker::PhantomData<T>);

/// The current version.
pub struct Current;

impl<const N: u128> VersionTag for Uuid<N> {
    open spec fn spec_key() -> VersionKey {
        VersionKey::Uuid(N)
    }

    fn key() -> (k: VersionKey) {
        VersionKey::Uuid(N)
    }
}

impl<const N: u32> VersionTag for Num<N> {
    open spec fn spec_key() -> VersionKey {
        VersionKey::Num(N)
    }

    fn key() -> (k: VersionKey) {
        VersionKey::Num(N)
    }
}

impl<const A: u64, const B: u64, const C: u64> VersionTag for Sem<A, B, C> {
    open spec fn spec_key() -> VersionKey {
        VersionKey::Sem(A, B, C)
    }

    fn key() -> (k: VersionKey) {
        VersionKey::Sem(A, B, C)
    }
}

impl VersionTag for Current {
    open spec fn spec_key() -> VersionKey {
        VersionKey::Current
    }

    fn key() -> (k: VersionKey) {
        VersionKey::Current
    }
}

impl<T: VersionTag> VersionTag for Ver<T> {
    open spec fn spec_key() -> VersionKey {
        T::spec_key()
    }

    fn key() -> (k: VersionKey) {
        T::key()
    }
}

} // verus!
