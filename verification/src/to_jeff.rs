//! The reverse translation direction.
//!
//! Only the error vocabulary of the reverse direction is defined; the
//! direction itself is not implemented beyond the partial type mapping in
//! [`crate::types`].

use vstd::prelude::*;
use crate::types::HugrType;

verus! {

/// Error type for the reverse (target-to-source) direction.
#[derive(Clone, Copy, Debug, PartialEq, Eq, Structural)]
pub enum HugrToJeffError {
    /// The target type has no exact source equivalent.
    UnsupportedType {
        /// The type that cannot be converted.
        hugr_type: HugrType,
    },
}

} // verus!
