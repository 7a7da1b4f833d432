//! The outcome of trying one version on a buffer, and what a sequence of such
//! outcomes, taken in trial order, resolves to.
use vstd::prelude::*;

verus! {

/// What came of trying one registered version against a buffer.
pub enum Attempt<C> {
    /// The buffer does not have the shape of this version's stored type.
    Mismatch,
    /// The buffer has that shape, but the version's converter refused the value.
    Rejected,
    /// The buffer was read and converted into the current type.
    Converted(C),
}

/// Why a buffer could not be resolved.
#[derive(Clone, Copy, Debug, PartialEq, Eq, Structural)]
pub enum ResolveError {
    /// No registered version, the current one included, could read and convert it.
    NoMatch,
}

impl ResolveError {
    /// A message for the caller's own error type.
    pub fn message(&self) -> (s: &'static str)
        ensures
            s@ == "data did not match any version type"@,
    {
        "data did not match any version type"
    }
}

/// Whether an attempt produced a value.
pub open spec fn is_converted<C>(a: Attempt<C>) -> bool {
    a is Converted
}

/// The result of resolution, given the outcomes of the attempts in trial
/// order: the value of the first attempt that converted, or `NoMatch`.
pub open spec fn resolution<C>(outcomes: Seq<Attempt<C>>) -> Result<C, ResolveError>
    decreases outcomes.len(),
{
    if outcomes.len() == 0 {
        Err(ResolveError::NoMatch)
    } else {
        match outcomes[0] {
            Attempt::Converted(c) => Ok(c),
            _ => resolution(outcomes.drop_first()),
        }
    }
}

/// How many attempts resolution consults: up to and including the first that
/// converted, or all of them.
pub open spec fn consulted<C>(outcomes: Seq<Attempt<C>>) -> nat
    decreases outcomes.len(),
{
    if outcomes.len() == 0 {
        0
    } else if is_converted(outcomes[0]) {
        1
    } else {
        1 + consulted(outcomes.drop_first())
    }
}

/// Attempts that do not convert are passed over: after a run of them,
/// resolution and the number of attempts it consults go by what follows.
pub proof fn lemma_no_conversion_prefix<C>(s: Seq<Attempt<C>>, t: Seq<Attempt<C>>)
    requires
        forall|i: int| 0 <= i < s.len() ==> !is_converted(#[trigger] s[i]),
    ensures
        resolution(s + t) == resolution(t),
        consulted(s + t) == s.len() + consulted(t),
    decreases s.len(),
{
    if s.len() > 0 {
        let rest = s.drop_first();
        assert((s + t).drop_first() =~= rest + t);
        assert(!is_converted(s[0]));
        assert(forall|i: int| 0 <= i < rest.len() ==> rest[i] == s[i + 1]);
        lemma_no_conversion_prefix(rest, t);
    } else {
        assert(s + t =~= t);
    }
}

/// Whether `trace` is what a resolver that stops at the first success sees
/// of `n` attempts: no attempt but the last converted, and it ends early
/// only on a success.
pub open spec fn stops_at_first<C>(trace: Seq<Attempt<C>>, n: nat) -> bool {
    &&& trace.len() <= n
    &&& forall|j: int| 0 <= j < trace.len() - 1 ==> !is_converted(#[trigger] trace[j])
    &&& trace.len() < n ==> trace.len() > 0 && is_converted(trace.last())
}

/// The first attempt that converts decides: its value is the result, and
/// nothing after it is consulted.
pub proof fn lemma_first_conversion<C>(outcomes: Seq<Attempt<C>>, i: int)
    requires
        0 <= i < outcomes.len(),
        is_converted(outcomes[i]),
        forall|k: int| 0 <= k < i ==> !is_converted(#[trigger] outcomes[k]),
    ensures
        resolution(outcomes) == Ok::<C, ResolveError>(outcomes[i]->Converted_0),
        consulted(outcomes) == i + 1,
{
    let s = outcomes.take(i);
    let t = outcomes.skip(i);
    assert(forall|k: int| 0 <= k < s.len() ==> s[k] == outcomes[k]);
    lemma_no_conversion_prefix(s, t);
    assert(s + t =~= outcomes);
    assert(t[0] == outcomes[i]);
}

/// When the current version, tried first, converts the buffer to `v`, the
/// result is `v` and no other version is consulted.
pub proof fn lemma_current_fast_path<C>(outcomes: Seq<Attempt<C>>, v: C)
    requires
        outcomes.len() > 0,
        outcomes[0] == Attempt::Converted(v),
    ensures
        resolution(outcomes) == Ok::<C, ResolveError>(v),
        consulted(outcomes) == 1,
{
    lemma_first_conversion(outcomes, 0);
}

/// Of two versions that both convert the buffer, the one tried later never
/// decides: it is not consulted, and whatever it gives leaves the result as
/// it is. When nothing before the earlier one converts, the earlier one's
/// value is the result.
pub proof fn lemma_ordered_fallback<C>(outcomes: Seq<Attempt<C>>, i: int, j: int, other: Attempt<C>)
    requires
        0 <= i < j < outcomes.len(),
        is_converted(outcomes[i]),
        is_converted(outcomes[j]),
    ensures
        consulted(outcomes) <= i + 1,
        resolution(outcomes.update(j, other)) == resolution(outcomes),
        (forall|k: int| 0 <= k < i ==> !is_converted(#[trigger] outcomes[k])) ==> resolution(outcomes)
            == Ok::<C, ResolveError>(outcomes[i]->Converted_0),
{
    let changed = outcomes.update(j, other);
    let f = choose|f: int|
        0 <= f <= i && is_converted(outcomes[f]) && forall|k: int|
            0 <= k < f ==> !is_converted(#[trigger] outcomes[k]);
    assert(exists|f: int|
        0 <= f <= i && is_converted(outcomes[f]) && forall|k: int|
            0 <= k < f ==> !is_converted(#[trigger] outcomes[k])) by {
        lemma_first_converted_exists(outcomes, i);
    }
    lemma_first_conversion(outcomes, f);
    assert(forall|k: int| 0 <= k < f ==> changed[k] == outcomes[k]);
    lemma_first_conversion(changed, f);
    if forall|k: int| 0 <= k < i ==> !is_converted(#[trigger] outcomes[k]) {
        if f < i {
            assert(!is_converted(outcomes[f]));
        }
    }
}

/// Below any attempt that converts there is a first one that does.
proof fn lemma_first_converted_exists<C>(outcomes: Seq<Attempt<C>>, i: int)
    requires
        0 <= i < outcomes.len(),
        is_converted(outcomes[i]),
    ensures
        exists|f: int|
            0 <= f <= i && is_converted(outcomes[f]) && forall|k: int|
                0 <= k < f ==> !is_converted(#[trigger] outcomes[k]),
    decreases i,
{
    if exists|k: int| 0 <= k < i && is_converted(outcomes[k]) {
        let k = choose|k: int| 0 <= k < i && is_converted(outcomes[k]);
        lemma_first_converted_exists(outcomes, k);
    } else {
        assert(forall|k: int| 0 <= k < i ==> !is_converted(#[trigger] outcomes[k]));
    }
}

/// When no version converts the buffer, resolution fails with `NoMatch`
/// after consulting every version, and produces no value.
pub proof fn lemma_exhaustion<C>(outcomes: Seq<Attempt<C>>)
    requires
        forall|k: int| 0 <= k < outcomes.len() ==> !is_converted(#[trigger] outcomes[k]),
    ensures
        resolution(outcomes) == Err::<C, ResolveError>(ResolveError::NoMatch),
        consulted(outcomes) == outcomes.len(),
{
    lemma_no_conversion_prefix(outcomes, Seq::empty());
    assert(outcomes + Seq::<Attempt<C>>::empty() =~= outcomes);
}

/// When exactly one version converts the buffer, its value is the result
/// whatever the order of the attempts; in particular trying them in reverse
/// order gives the same result.
pub proof fn lemma_single_match_any_order<C>(outcomes: Seq<Attempt<C>>, i: int)
    requires
        0 <= i < outcomes.len(),
        is_converted(outcomes[i]),
        forall|k: int| 0 <= k < outcomes.len() && k != i ==> !is_converted(#[trigger] outcomes[k]),
    ensures
        resolution(outcomes) == Ok::<C, ResolveError>(outcomes[i]->Converted_0),
        resolution(outcomes.reverse()) == resolution(outcomes),
{
    lemma_first_conversion(outcomes, i);
    let r = outcomes.reverse();
    let n = outcomes.len();
    assert(r[n - 1 - i] == outcomes[i]);
    assert(forall|k: int| 0 <= k < n - 1 - i ==> r[k] == outcomes[n - 1 - k]);
    assert(forall|k: int| 0 <= k < n - 1 - i ==> !is_converted(#[trigger] r[k])) by {
        assert forall|k: int| 0 <= k < n - 1 - i implies !is_converted(#[trigger] r[k]) by {
            assert(r[k] == outcomes[n - 1 - k]);
        }
    }
    lemma_first_conversion(r, n - 1 - i);
}

/// A version whose converter refuses the value is passed over exactly as one
/// whose stored shape does not match: resolution goes on to the later
/// versions, with the same result and the same number of attempts.
pub proof fn lemma_rejection_falls_through<C>(outcomes: Seq<Attempt<C>>, k: int)
    requires
        0 <= k < outcomes.len(),
        outcomes[k] is Rejected,
    ensures
        resolution(outcomes.update(k, Attempt::Mismatch)) == resolution(outcomes),
        consulted(outcomes.update(k, Attempt::Mismatch)) == consulted(outcomes),
    decreases k,
{
    let changed = outcomes.update(k, Attempt::Mismatch);
    if k > 0 {
        assert(changed.drop_first() =~= outcomes.drop_first().update(k - 1, Attempt::Mismatch));
        lemma_rejection_falls_through(outcomes.drop_first(), k - 1);
    } else {
        assert(changed.drop_first() =~= outcomes.drop_first());
    }
}

/// What the resolver saw decides: a trace that stops at the first success,
/// taken from the start of the full sequence of outcomes, has the same
/// resolution, and is exactly the part that resolution consults.
pub proof fn lemma_trace_decides<C>(trace: Seq<Attempt<C>>, outcomes: Seq<Attempt<C>>)
    requires
        stops_at_first(trace, outcomes.len()),
        trace =~= outcomes.take(trace.len() as int),
    ensures
        resolution(outcomes) == resolution(trace),
        consulted(outcomes) == trace.len(),
{
    if trace.len() < outcomes.len() {
        let i = trace.len() - 1;
        assert(forall|k: int| 0 <= k < i ==> trace[k] == outcomes[k]);
        lemma_first_conversion(outcomes, i);
        lemma_first_conversion(trace, i);
    } else {
        assert(trace =~= outcomes);
        if trace.len() > 0 && is_converted(trace.last()) {
            lemma_first_conversion(outcomes, trace.len() - 1);
        } else {
            lemma_exhaustion(outcomes);
        }
    }
}

/// The attempt that follows from a decode and, if it succeeded, a conversion.
pub open spec fn attempt_of<L, E, C, X>(decoded: Result<L, E>, converted: Result<C, X>) -> Attempt<C> {
    match decoded {
        Err(_) => Attempt::Mismatch,
        Ok(_) => match converted {
            Ok(c) => Attempt::Converted(c),
            Err(_) => Attempt::Rejected,
        },
    }
}

/// Tries one version: `decoded` is the buffer read as the version's stored
/// type; when that read succeeded, `convert` brings the value to the current
/// type. A failed read is a mismatch, a failed conversion a rejection.
pub fn try_version<L, E, C, X, F: Fn(L) -> Result<C, X>>(decoded: Result<L, E>, convert: &F) -> (r: Attempt<C>)
    requires
        decoded is Ok ==> convert.requires((decoded->Ok_0,)),
    ensures
        decoded is Err ==> r is Mismatch,
        decoded is Ok ==> exists|c: Result<C, X>|
            convert.ensures((decoded->Ok_0,), c) && r == attempt_of(decoded, c),
{
    match decoded {
        Err(_) => Attempt::Mismatch,
        Ok(l) => {
            let converted = convert(l);
            let ghost witness = converted;
            let r = match converted {
                Ok(c) => Attempt::Converted(c),
                Err(_) => Attempt::Rejected,
            };
            assert(r == attempt_of(decoded, witness));
            r
        },
    }
}

} // verus!
