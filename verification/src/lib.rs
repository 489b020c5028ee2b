//! A fixed-width, 256-bit integer representation for plonky2 arithmetic
//! circuits.
//!
//! A 256-bit value lives in a circuit as 8 wires, each meant to carry one
//! little-endian base-2^32 limb. The crate materializes such values from
//! constants, allocates them as free wires for later witness assignment,
//! ties two representations together with equality constraints, and
//! relabels the limbs for the base-field, scalar-field and generic
//! big-integer gadgets that surround them.

pub mod bignum;
pub mod builder;
pub mod digits;
pub mod fields;
pub mod reduction;
pub mod u256;
