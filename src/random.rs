use vstd::prelude::*;

verus! {

/// A non-negative ratio `numerator / denominator` with a positive denominator.
///
/// Used both as a probability (crossover and mutation rates) and as the retain ratio of a
/// selection; as a probability, any ratio of one or more always happens.
#[derive(Clone, Copy, Debug, PartialEq, Eq)]
pub struct Ratio {
    numerator: u32,
    denominator: u32,
}

impl Ratio {
    #[verifier::type_invariant]
    spec fn positive_denominator(self) -> bool {
        self.denominator > 0
    }

    pub closed spec fn num(self) -> nat {
        self.numerator as nat
    }

    pub closed spec fn den(self) -> nat {
        self.denominator as nat
    }

    /// The ratio `numerator / denominator`.
    pub fn new(numerator: u32, denominator: u32) -> (r: Ratio)
        requires
            denominator > 0,
        ensures
            r.num() == numerator,
            r.den() == denominator,
    {
        Ratio { numerator, denominator }
    }

    /// The ratio zero: as a probability, never.
    pub fn never() -> (r: Ratio)
        ensures
            r.num() == 0,
            r.den() == 1,
    {
        Ratio { numerator: 0, denominator: 1 }
    }

    /// The ratio one: as a probability, always.
    pub fn always() -> (r: Ratio)
        ensures
            r.num() == 1,
            r.den() == 1,
    {
        Ratio { numerator: 1, denominator: 1 }
    }

    pub fn numerator(&self) -> (r: u32)
        ensures
            r == self.num(),
    {
        self.numerator
    }

    pub fn denominator(&self) -> (r: u32)
        ensures
            r == self.den(),
            r > 0,
    {
        proof {
            use_type_invariant(self);
        }
        self.denominator
    }

    /// As a probability, the event can never happen.
    pub open spec fn is_never(self) -> bool {
        self.num() == 0
    }

    /// As a probability, the event happens every time.
    pub open spec fn is_always(self) -> bool {
        self.num() >= self.den()
    }
}

/// Relies on rand's `Rng::gen_range` over `thread_rng()`: a value of the half-open range
/// `low..high`, which must not be empty.
#[verifier::external_body]
pub(crate) fn random_in(low: usize, high: usize) -> (r: usize)
    requires
        low < high,
    ensures
        low <= r < high,
{
    rand::Rng::gen_range(&mut rand::thread_rng(), low..high)
}

/// Relies on rand's `Rng::gen_ratio` over `thread_rng()`: true with probability `n / d`, always
/// when `n == d`, never when `n == 0`; it panics when `d == 0` or `n > d`.
#[verifier::external_body]
fn random_ratio(n: u32, d: u32) -> (r: bool)
    requires
        0 < d,
        n <= d,
    ensures
        n == 0 ==> !r,
        n == d ==> r,
{
    rand::Rng::gen_ratio(&mut rand::thread_rng(), n, d)
}

/// Relies on rand's `SliceRandom::shuffle` over `thread_rng()`: the elements are reordered,
/// none is added or lost.
#[verifier::external_body]
pub(crate) fn shuffle<T>(v: &mut Vec<T>)
    ensures
        final(v)@.to_multiset() == old(v)@.to_multiset(),
{
    rand::seq::SliceRandom::shuffle(v.as_mut_slice(), &mut rand::thread_rng())
}

/// Draws whether an event of probability `rate` happens.
pub fn happens(rate: Ratio) -> (r: bool)
    ensures
        rate.is_never() ==> !r,
        rate.is_always() ==> r,
{
    let n = rate.numerator();
    let d = rate.denominator();
    if n >= d {
        true
    } else {
        random_ratio(n, d)
    }
}

/// Draws a split range `start..end` of a sequence of `len` genes, with
/// `0 <= start < end <= len`.
pub fn range_indexes(len: usize) -> (r: (usize, usize))
    requires
        len >= 1,
    ensures
        r.0 < r.1 <= len,
{
    let start = random_in(0, len);
    let end = random_in(start, len) + 1;
    (start, end)
}

} // verus!
