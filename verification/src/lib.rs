//! Canonical algebraic representations of quantum-mechanical operators.
//!
//! The crate models operators as weighted sums of elementary operator
//! products: Pauli and decoherence strings over spins, and normal-ordered
//! creation/annihilation monomials over bosonic or fermionic modes.  Products
//! are kept in a unique canonical form (with any sign factored out as a
//! returned coefficient), sparse operator containers map products to complex
//! coefficients from `qoqo_calculator`, and statistics mappings rewrite
//! bosonic operators into spin operators with exact coefficient bookkeeping.

pub mod boson_spin;
pub mod bosons;
pub mod canon;
pub mod error;
pub mod fermions;
pub mod key;
pub mod mixed;
pub mod noise;
pub mod operators;
pub mod order;
pub mod parse;
pub mod scalar;
pub mod serial;
pub mod spins;
pub mod terms;
pub mod text;
