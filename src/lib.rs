//! A verified model of a garbage-collected runtime's tagged values as seen
//! from native code: immediate and heap integers, heap arrays with
//! copy-on-write sharing, and the conversions between them.
pub mod array;
pub mod bignum;
pub mod convert;
pub mod error;
pub mod integer;
pub mod object;
pub mod runtime;
pub mod value;
