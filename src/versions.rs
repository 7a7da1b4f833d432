//! The registry of the versions of one field, and the resolver that tries
//! them on a buffer.
use vstd::prelude::*;
use crate::resolve::{Attempt, ResolveError, is_converted, resolution, stops_at_first, lemma_no_conversion_prefix};
use crate::tag::VersionKey;

verus! {

/// Why a list of versions cannot form a registry.
#[derive(Clone, Copy, Debug, PartialEq, Eq, Structural)]
pub enum RegistryError {
    /// No entry is the current version.
    NoCurrent,
    /// A key stands twice in the list.
    Duplicate,
}

/// Whether the list holds the current version.
pub open spec fn has_current(keys: Seq<VersionKey>) -> bool {
    exists|i: int| 0 <= i < keys.len() && keys[i] == VersionKey::Current
}

/// A list of keys that can form a registry: the keys are distinct and one of
/// them is the current version.
pub open spec fn valid_keys(keys: Seq<VersionKey>) -> bool {
    keys.no_duplicates() && has_current(keys)
}

/// Where the current version stands in the list.
pub open spec fn current_index(keys: Seq<VersionKey>) -> int {
    choose|i: int| 0 <= i < keys.len() && keys[i] == VersionKey::Current
}

/// The positions of the list in the order they are tried: the current
/// version first, then every other entry in the order of the list.
pub open spec fn trial_order(keys: Seq<VersionKey>) -> Seq<int> {
    let c = current_index(keys);
    Seq::new(keys.len(), |j: int| if j == 0 { c } else if j <= c { j - 1 } else { j })
}

/// The current version is tried first; every position of the list is tried
/// exactly once; and the other versions are tried in the order of the list,
/// so that of two versions the one listed earlier is tried earlier.
pub proof fn lemma_trial_order(keys: Seq<VersionKey>)
    requires
        valid_keys(keys),
    ensures
        trial_order(keys).len() == keys.len(),
        keys[trial_order(keys)[0]] == VersionKey::Current,
        forall|j: int| 1 <= j < keys.len() ==> keys[#[trigger] trial_order(keys)[j]] != VersionKey::Current,
        forall|j: int| 0 <= j < keys.len() ==> 0 <= #[trigger] trial_order(keys)[j] < keys.len(),
        trial_order(keys).no_duplicates(),
        forall|j1: int, j2: int|
            1 <= j1 < j2 < keys.len() ==> #[trigger] trial_order(keys)[j1] < #[trigger] trial_order(keys)[j2],
{
    let c = current_index(keys);
    assert(keys[c] == VersionKey::Current);
    let o = trial_order(keys);
    assert forall|j: int| 1 <= j < keys.len() implies keys[#[trigger] o[j]] != VersionKey::Current by {
        assert(o[j] != c);
    }
}

/// Different supported versions of one field, in the order the caller gave
/// them. Any number of versions; exactly one of them is the current one.
pub struct Versions {
    keys: Vec<VersionKey>,
}

impl View for Versions {
    type V = Seq<VersionKey>;

    closed spec fn view(&self) -> Seq<VersionKey> {
        self.keys@
    }
}

/// What a resolution produced: its result, how many versions it tried, and
/// (for proofs) what each of those attempts gave, in trial order.
pub struct Resolution<C> {
    pub result: Result<C, ResolveError>,
    pub tried: usize,
    pub trace: Ghost<Seq<Attempt<C>>>,
}

impl Versions {
    /// Builds a registry from keys in the order they are to be tried after the
    /// current version.
    pub fn new(keys: Vec<VersionKey>) -> (r: Result<Versions, RegistryError>)
        ensures
            r is Ok <==> valid_keys(keys@),
            r is Ok ==> r->Ok_0@ == keys@,
            r == Err::<Versions, RegistryError>(RegistryError::NoCurrent) <==> !has_current(keys@),
            r == Err::<Versions, RegistryError>(RegistryError::Duplicate) <==> has_current(keys@)
                && !keys@.no_duplicates(),
    {
        let n = keys.len();
        let mut found = false;
        let mut i: usize = 0;
        while i < n
            invariant
                n == keys@.len(),
                i <= n,
                found <==> exists|k: int| 0 <= k < i && keys@[k] == VersionKey::Current,
            decreases n - i,
        {
            if keys[i] == VersionKey::Current {
                found = true;
            }
            i = i + 1;
        }
        if !found {
            return Err(RegistryError::NoCurrent);
        }
        let mut i: usize = 0;
        while i < n
            invariant
                n == keys@.len(),
                i <= n,
                has_current(keys@),
                forall|a: int, b: int| 0 <= a < i && 0 <= b < n && a != b ==> keys@[a] != keys@[b],
            decreases n - i,
        {
            let mut j: usize = 0;
            while j < n
                invariant
                    n == keys@.len(),
                    i < n,
                    j <= n,
                    has_current(keys@),
                    forall|a: int, b: int| 0 <= a < i && 0 <= b < n && a != b ==> keys@[a] != keys@[b],
                    forall|b: int| 0 <= b < j && i != b ==> keys@[i as int] != keys@[b],
                decreases n - j,
            {
                if j != i && keys[i] == keys[j] {
                    assert(keys@[i as int] == keys@[j as int]);
                    return Err(RegistryError::Duplicate);
                }
                j = j + 1;
            }
            i = i + 1;
        }
        Ok(Versions { keys })
    }

    /// The number of registered versions, the current one included.
    pub fn len(&self) -> (n: usize)
        ensures
            n == self@.len(),
    {
        self.keys.len()
    }

    /// The key at a position of the list.
    pub fn key(&self, i: usize) -> (k: VersionKey)
        requires
            i < self@.len(),
        ensures
            k == self@[i as int],
    {
        self.keys[i]
    }

    /// Where the current version stands in the list.
    pub fn current(&self) -> (c: usize)
        requires
            valid_keys(self@),
        ensures
            c == current_index(self@),
    {
        let n = self.keys.len();
        let mut i: usize = 0;
        while i < n
            invariant
                n == self@.len(),
                i <= n,
                valid_keys(self@),
                forall|k: int| 0 <= k < i ==> self@[k] != VersionKey::Current,
            decreases n - i,
        {
            if self.keys[i] == VersionKey::Current {
                proof {
                    let c = current_index(self@);
                    assert(self@[c] == VersionKey::Current);
                }
                return i;
            }
            i = i + 1;
        }
        proof {
            let c = current_index(self@);
            assert(self@[c] == VersionKey::Current);
        }
        0
    }

    /// The position of the list that is tried `j`-th.
    pub fn trial_position(&self, j: usize) -> (p: usize)
        requires
            valid_keys(self@),
            j < self@.len(),
        ensures
            p == trial_order(self@)[j as int],
            p < self@.len(),
    {
        let c = self.current();
        if j == 0 {
            c
        } else if j <= c {
            j - 1
        } else {
            j
        }
    }

    /// Resolves a buffer: tries the current version first, then every other
    /// version in the order of the list, and returns the value of the first
    /// attempt that converts, or `NoMatch` when none does. `attempt(buffer, i)`
    /// tries the version at position `i` of the list; each attempt gets the
    /// same buffer, which it can only read. Attempts after the first success
    /// are not made.
    pub fn resolve<B, C, F: Fn(&B, usize) -> Attempt<C>>(&self, buffer: &B, attempt: &F) -> (r: Resolution<C>)
        requires
            valid_keys(self@),
            forall|i: usize| i < self@.len() ==> attempt.requires((buffer, i)),
        ensures
            r.tried == r.trace@.len(),
            r.tried >= 1,
            stops_at_first(r.trace@, self@.len()),
            forall|j: int| 0 <= j < r.tried ==> attempt.ensures(
                (buffer, trial_order(self@)[j] as usize),
                #[trigger] r.trace@[j],
            ),
            r.result == resolution(r.trace@),
    {
        let n = self.keys.len();
        let mut trace: Ghost<Seq<Attempt<C>>> = Ghost(Seq::empty());
        let mut j: usize = 0;
        while j < n
            invariant
                n == self@.len(),
                valid_keys(self@),
                forall|i: usize| i < self@.len() ==> attempt.requires((buffer, i)),
                j <= n,
                trace@.len() == j,
                forall|k: int| 0 <= k < j ==> !is_converted(#[trigger] trace@[k]),
                forall|k: int| 0 <= k < j ==> attempt.ensures(
                    (buffer, trial_order(self@)[k] as usize),
                    #[trigger] trace@[k],
                ),
            decreases n - j,
        {
            let p = self.trial_position(j);
            let a = attempt(buffer, p);
            let ghost prev = trace@;
            proof {
                trace@ = prev.push(a);
            }
            match a {
                Attempt::Converted(c) => {
                    proof {
                        lemma_no_conversion_prefix(prev, seq![trace@[j as int]]);
                        assert(prev + seq![trace@[j as int]] =~= trace@);
                    }
                    return Resolution { result: Ok(c), tried: j + 1, trace };
                },
                _ => {},
            }
            j = j + 1;
        }
        proof {
            lemma_no_conversion_prefix(trace@, Seq::empty());
            assert(trace@ + Seq::<Attempt<C>>::empty() =~= trace@);
            let c = current_index(self@);
            assert(self@[c] == VersionKey::Current);
        }
        Resolution { result: Err(ResolveError::NoMatch), tried: n, trace }
    }
}

} // verus!
