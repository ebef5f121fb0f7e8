//! The Metropolis acceptance rule in fixed point.
//!
//! A probability is a number of 2^-32 units: `CERTAIN` stands for one, zero
//! for zero. An event of probability `odds` happens when 32 uniform random
//! bits, read as a number, are below `odds`.

use vstd::prelude::*;

verus! {

/// Probability one.
pub const CERTAIN: u64 = 0x1_0000_0000;

/// Whether an event of probability `odds` happens on the random bits `draw`.
pub open spec fn happens(odds: int, draw: u32) -> bool {
    draw < odds
}

/// Decides an event of probability `odds` by the random bits `draw`.
pub fn decide(odds: u64, draw: u32) -> (yes: bool)
    ensures
        yes == happens(odds as int, draw),
        odds >= CERTAIN ==> yes,
        odds == 0 ==> !yes,
{
    (draw as u64) < odds
}

/// The Boltzmann factors of one inverse temperature β: entry `c - 1` holds
/// the probability `exp(-c * β)` of accepting a step that costs `c` units of
/// energy, for `c` from one up. Costs beyond the last entry have probability
/// zero; an entry of `CERTAIN` or more stands for probability one.
pub struct Boltzmann {
    factors: Vec<u64>,
}

impl View for Boltzmann {
    type V = Seq<u64>;

    closed spec fn view(&self) -> Seq<u64> {
        self.factors@
    }
}

/// The probability of accepting a step of the given cost under the factors
/// `f`: certain when the step costs nothing or gains, else the tabulated
/// factor, and zero beyond the table.
pub open spec fn odds_of(f: Seq<u64>, cost: int) -> int {
    if cost <= 0 {
        CERTAIN as int
    } else if cost <= f.len() {
        f[cost - 1] as int
    } else {
        0
    }
}

/// The Metropolis rule: a step of the given cost is taken when the random
/// bits fall below its odds.
pub open spec fn admits(f: Seq<u64>, cost: int, draw: u32) -> bool {
    happens(odds_of(f, cost), draw)
}

/// A step that does not raise the energy is taken whatever the random bits
/// are.
pub proof fn lemma_downhill_is_certain(f: Seq<u64>, cost: int, draw: u32)
    requires
        cost <= 0,
    ensures
        admits(f, cost, draw),
{
}

impl Boltzmann {
    /// The table with the given factors, the first for cost one.
    pub fn new(factors: Vec<u64>) -> (table: Boltzmann)
        ensures
            table@ == factors@,
    {
        Boltzmann { factors }
    }

    /// The factors, the first for cost one.
    pub fn factors(&self) -> (factors: &Vec<u64>)
        ensures
            factors@ == self@,
    {
        &self.factors
    }

    /// The odds of accepting a step of the given cost.
    pub fn odds(&self, cost: i128) -> (odds: u64)
        ensures
            odds == odds_of(self@, cost as int),
    {
        if cost <= 0 {
            CERTAIN
        } else if cost - 1 < self.factors.len() as i128 {
            self.factors[(cost - 1) as usize]
        } else {
            0
        }
    }

    /// Whether a step of the given cost is taken on the random bits `draw`.
    pub fn accepts(&self, cost: i128, draw: u32) -> (taken: bool)
        ensures
            taken == admits(self@, cost as int, draw),
            cost <= 0 ==> taken,
    {
        decide(self.odds(cost), draw)
    }
}

} // verus!
