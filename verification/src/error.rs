//! Error type shared by all operator containers and mappings.

use vstd::prelude::*;

verus! {

/// Errors surfaced by product construction, container mutation and
/// statistics mappings.  Every failure is returned to the caller; nothing in
/// this crate panics or retries.
#[derive(Debug, Clone, PartialEq, Eq)]
pub enum StruqtureError {
    /// A duplicate or otherwise invalid index was handed to a product
    /// constructor for a product kind where that is structurally disallowed.
    StructuralIndexError,
    /// A key's per-kind subsystem shape does not match the fixed shape of the
    /// container it was inserted into.
    MismatchedNumberSubsystems {
        target_number_spin_subsystems: usize,
        target_number_boson_subsystems: usize,
        target_number_fermion_subsystems: usize,
        actual_number_spin_subsystems: usize,
        actual_number_boson_subsystems: usize,
        actual_number_fermion_subsystems: usize,
    },
    /// A partial statistics mapping met a term outside its representable
    /// subset; the message names the offending product in its canonical
    /// string rendering.
    UnrepresentableTerm { msg: String },
    /// `separate_into_n_terms` could not assemble one of its output maps.
    SeparationError,
}

} // verus!
