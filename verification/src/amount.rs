use vstd::prelude::*;

verus! {

/// Number of attos in one whole unit of a resource. Quantities are held with
/// eighteen decimal places, the maximum divisibility the ledger offers.
pub const ATTOS_PER_UNIT: u128 = 1_000_000_000_000_000_000;

/// A non-negative quantity of a divisible resource, held as an integer count
/// of attos (units of 10^-18). No finer fraction than one atto exists.
#[derive(Clone, Copy, PartialEq, Eq, Structural, Debug)]
pub struct Amount {
    attos: u128,
}

impl Amount {
    /// The quantity as a mathematical count of attos.
    pub closed spec fn attos_spec(self) -> int {
        self.attos as int
    }

    /// The integer part of the quantity, as a count of whole units.
    pub open spec fn whole_units(self) -> int {
        self.attos_spec() / (ATTOS_PER_UNIT as int)
    }

    /// What is left of the quantity once the whole units are removed.
    pub open spec fn frac_attos(self) -> int {
        self.attos_spec() % (ATTOS_PER_UNIT as int)
    }

    /// The quantity always fits the machine word that holds it.
    pub proof fn lemma_attos_bounds(self)
        ensures
            0 <= self.attos_spec() <= u128::MAX,
    {
    }

    pub fn from_attos(attos: u128) -> (r: Amount)
        ensures
            r.attos_spec() == attos,
    {
        Amount { attos }
    }

    pub fn from_units(units: u64) -> (r: Amount)
        ensures
            r.attos_spec() == units * ATTOS_PER_UNIT,
    {
        Amount { attos: (units as u128) * ATTOS_PER_UNIT }
    }

    pub fn as_attos(&self) -> (r: u128)
        ensures
            r == self.attos_spec(),
    {
        self.attos
    }

    /// The largest quantity of whole units that does not exceed `self`.
    pub fn floor(&self) -> (r: Amount)
        ensures
            r.attos_spec() == self.whole_units() * ATTOS_PER_UNIT,
            r.attos_spec() == self.attos_spec() - self.frac_attos(),
    {
        proof {
            vstd::arithmetic::div_mod::lemma_fundamental_div_mod(
                self.attos as int,
                ATTOS_PER_UNIT as int,
            );
        }
        Amount { attos: self.attos - self.attos % ATTOS_PER_UNIT }
    }

    /// The integer part as a plain count of units.
    pub fn to_whole_units(&self) -> (r: u64)
        requires
            self.whole_units() <= u64::MAX,
        ensures
            r == self.whole_units(),
    {
        (self.attos / ATTOS_PER_UNIT) as u64
    }

    pub fn plus(&self, other: &Amount) -> (r: Amount)
        requires
            self.attos_spec() + other.attos_spec() <= u128::MAX,
        ensures
            r.attos_spec() == self.attos_spec() + other.attos_spec(),
    {
        Amount { attos: self.attos + other.attos }
    }

    pub fn minus(&self, other: &Amount) -> (r: Amount)
        requires
            other.attos_spec() <= self.attos_spec(),
        ensures
            r.attos_spec() == self.attos_spec() - other.attos_spec(),
    {
        Amount { attos: self.attos - other.attos }
    }

    pub fn ge(&self, other: &Amount) -> (r: bool)
        ensures
            r == (self.attos_spec() >= other.attos_spec()),
    {
        self.attos >= other.attos
    }
}

} // verus!
