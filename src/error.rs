//! What a failed operation reports.
use crate::value::Value;
use vstd::prelude::*;

verus! {

/// The dynamic representation class of a value.
#[derive(Clone, Copy, PartialEq, Eq, Structural, Debug)]
pub enum ValueType {
    Nil,
    True,
    False,
    Symbol,
    Fixnum,
    Bignum,
    Float,
    Array,
    Object,
    File,
    Thread,
    Binding,
    Exception,
    /// Native data wrapped in a heap object.
    Data,
    /// A word that is no value: a stale reference or an unused bit pattern.
    Undef,
}

/// The classes of exception that the runtime raises.
#[derive(Clone, Copy, PartialEq, Eq, Structural, Debug)]
pub enum ExceptionClass {
    StandardError,
    TypeError,
    RangeError,
    ArgumentError,
    IndexError,
    NameError,
    FrozenError,
    ThreadError,
    Interrupt,
}

/// The error of an operation on runtime values.
#[derive(Clone, Copy, PartialEq, Eq, Structural, Debug)]
pub enum Error {
    /// A value of this class has no conversion to the type asked for.
    Conversion(ValueType),
    /// A number does not fit the native type asked for.
    Range,
    /// The runtime raised an exception of this class.
    Raised(ExceptionClass),
    /// Foreign code raised this exception object.
    Foreign(Value),
}

} // verus!
