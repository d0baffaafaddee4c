//! Choosing the index on which one spin of a weighted wheel lands.
//!
//! The wheel lays the weights end to end and has `n` evenly spaced spokes.
//! One draw sets the spin: an offset into the first gap between spokes. The
//! index chosen is the first whose running total of weights reaches the spin.
//! The totals and the spin are real numbers; this module takes the outcome of
//! each comparison between them and decides the rest.

use vstd::prelude::*;

verus! {

/// Why no index can be chosen.
#[derive(Debug, Clone, Copy, PartialEq, Eq, Structural)]
pub enum DomainError {
    /// The wheel has no spoke, so the gap between spokes is undefined.
    NoSpokes,
    /// There is no weight at all.
    NoWeights,
    /// The weights do not sum to a positive value.
    NoMass,
    /// The running total stayed below the spin up to the last weight.
    WalkPastEnd,
}

impl DomainError {
    /// The text shown for each error.
    pub open spec fn spec_message(&self) -> Seq<char> {
        match self {
            DomainError::NoSpokes => "the number of spokes must be positive"@,
            DomainError::NoWeights => "the weight vector is empty"@,
            DomainError::NoMass => "the weights do not sum to a positive value"@,
            DomainError::WalkPastEnd => "the weights never reach the spin"@,
        }
    }

    /// A sentence that says what was wrong with the input.
    pub fn message(&self) -> (text: String)
        ensures
            text@ == self.spec_message(),
    {
        match self {
            DomainError::NoSpokes => "the number of spokes must be positive".to_owned(),
            DomainError::NoWeights => "the weight vector is empty".to_owned(),
            DomainError::NoMass => "the weights do not sum to a positive value".to_owned(),
            DomainError::WalkPastEnd => "the weights never reach the spin".to_owned(),
        }
    }
}

/// The running total reaches the spin at index `i` and at none before it.
/// `below_spin[j]` says that the total of the weights `0..=j` is strictly
/// less than the spin.
pub open spec fn reached_at(below_spin: Seq<bool>, i: int) -> bool {
    &&& 0 <= i < below_spin.len()
    &&& !below_spin[i]
    &&& forall|j: int| 0 <= j < i ==> below_spin[j]
}

/// The running total stays below the spin at every index.
pub open spec fn never_reached(below_spin: Seq<bool>) -> bool {
    forall|j: int| 0 <= j < below_spin.len() ==> below_spin[j]
}

/// What one spin gives: the index where the running total first reaches the
/// spin, or the reason why there is none. `n` is the number of spokes and
/// `has_mass` says that the weights sum to a positive value.
pub open spec fn is_outcome(
    below_spin: Seq<bool>,
    n: usize,
    has_mass: bool,
    drawn: Result<usize, DomainError>,
) -> bool {
    match drawn {
        Ok(i) => n > 0 && has_mass && reached_at(below_spin, i as int),
        Err(DomainError::NoSpokes) => n == 0,
        Err(DomainError::NoWeights) => n > 0 && below_spin.len() == 0,
        Err(DomainError::NoMass) => n > 0 && below_spin.len() > 0 && !has_mass,
        Err(DomainError::WalkPastEnd) => {
            &&& n > 0
            &&& below_spin.len() > 0
            &&& has_mass
            &&& never_reached(below_spin)
        },
    }
}

/// The spin is reached at one index at most.
pub proof fn lemma_reached_once(below_spin: Seq<bool>, i: int, j: int)
    requires
        reached_at(below_spin, i),
        reached_at(below_spin, j),
    ensures
        i == j,
{
    if i < j {
        assert(below_spin[i]);
    } else if j < i {
        assert(below_spin[j]);
    }
}

/// One spin has one outcome: the same comparisons, the same number of spokes
/// and the same mass give the same index or the same error.
pub proof fn lemma_outcome_unique(
    below_spin: Seq<bool>,
    n: usize,
    has_mass: bool,
    first: Result<usize, DomainError>,
    second: Result<usize, DomainError>,
)
    requires
        is_outcome(below_spin, n, has_mass, first),
        is_outcome(below_spin, n, has_mass, second),
    ensures
        first == second,
{
    match (first, second) {
        (Ok(i), Ok(j)) => {
            lemma_reached_once(below_spin, i as int, j as int);
        },
        (Ok(i), Err(_)) => {
            assert(!below_spin[i as int]);
        },
        (Err(_), Ok(j)) => {
            assert(!below_spin[j as int]);
        },
        (Err(_), Err(_)) => {},
    }
}

/// With as many spokes as weights, a wheel that has mass and whose last
/// running total reaches the spin gives an index below the number of spokes.
pub proof fn lemma_full_wheel_lands(
    below_spin: Seq<bool>,
    n: usize,
    drawn: Result<usize, DomainError>,
)
    requires
        is_outcome(below_spin, n, true, drawn),
        n == below_spin.len(),
        n > 0,
        !below_spin[n - 1],
    ensures
        drawn matches Ok(i) && i < n,
{
}

/// A wheel without spokes or without mass gives an error.
pub proof fn lemma_degenerate_wheel_refused(
    below_spin: Seq<bool>,
    n: usize,
    has_mass: bool,
    drawn: Result<usize, DomainError>,
)
    requires
        is_outcome(below_spin, n, has_mass, drawn),
        n == 0 || !has_mass,
    ensures
        drawn is Err,
{
}

/// Walks the weights from the first and stops at the index where the running
/// total reaches the spin.
pub fn walk(below_spin: &[bool]) -> (stop: Option<usize>)
    ensures
        match stop {
            Some(i) => reached_at(below_spin@, i as int),
            None => never_reached(below_spin@),
        },
{
    let mut i: usize = 0;
    while i < below_spin.len()
        invariant
            i <= below_spin@.len(),
            forall|j: int| 0 <= j < i ==> below_spin@[j],
        decreases below_spin@.len() - i,
    {
        if !below_spin[i] {
            return Some(i);
        }
        i += 1;
    }
    None
}

/// Chooses the index on which the spin lands.
///
/// `n` is the number of spokes and `has_mass` says that the weights sum to a
/// positive value. The index is the first at which the running total is not
/// below the spin. A wheel without spokes, without weights or without mass is
/// refused, and so is a walk that passes the last weight.
pub fn sample_int(below_spin: &[bool], n: usize, has_mass: bool) -> (drawn: Result<
    usize,
    DomainError,
>)
    ensures
        is_outcome(below_spin@, n, has_mass, drawn),
{
    if n == 0 {
        return Err(DomainError::NoSpokes);
    }
    if below_spin.len() == 0 {
        return Err(DomainError::NoWeights);
    }
    if !has_mass {
        return Err(DomainError::NoMass);
    }
    match walk(below_spin) {
        Some(i) => Ok(i),
        None => Err(DomainError::WalkPastEnd),
    }
}

} // verus!
