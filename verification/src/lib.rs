//! Binary fixed-point number types in ARM-style Q notation.
//!
//! A notation `Qm.n` (signed) or `UQm.n` (unsigned) asks for `m` integer bits
//! and `n` fractional bits; for a signed notation the sign bit counts among
//! the integer bits. From these the library derives the layout of the type:
//! the narrowest storage word of 8, 16, 32 or 64 bits that holds `m + n`
//! bits, the padding that fills the word, the mask of the used bits, the
//! scaling between a number and its stored word, and the range of numbers
//! that can be stored. The used bits sit at the most significant end of the
//! word, so that one multiplication by the conversion factor puts a number
//! in place.
//!
//! - [`math`]: storage widths.
//! - [`layout`]: the mathematical model of a layout.
//! - [`literal`]: the used mask, and integer literals in hexadecimal.
//! - [`gen`]: the type descriptor and its derivation from a notation.
//! - [`dyadic`]: exact binary rationals, which stand in for real numbers.
//! - [`value`]: values of a fixed-point type and the operations on them.
//! - [`laws`]: what holds of those operations.
//! - [`parse`], [`text`], [`types`]: notations, numbers and type names as text.
//! - [`syntax`]: the syntax-tree crates that a declaration is built with.

pub mod dyadic;
pub mod gen;
pub mod laws;
pub mod layout;
pub mod literal;
pub mod math;
pub mod parse;
pub mod syntax;
pub mod text;
pub mod types;
pub mod value;
