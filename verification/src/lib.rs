//! Stochastic search for N-queens placements.
//!
//! A board holds N queens at arbitrary squares together with its energy, the
//! number of pairs of queens that attack each other. The engines move one
//! queen at a time under the Metropolis rule until the energy is zero or a
//! move budget runs out.

pub mod acceptance;
pub mod board;
pub mod chain;
pub mod energy;
pub mod queen;
pub mod sampler;
pub mod tempering;
