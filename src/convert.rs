//! The conversion protocol between runtime values and native types.
use crate::error::{Error, ValueType};
use crate::runtime::Ruby;
use crate::value::{Value, QFALSE, QTRUE};
use vstd::prelude::*;

verus! {

/// Native types that a runtime value may convert to.
pub trait TryConvert: Sized {
    /// Whether `v` converts.
    spec fn converts(ruby: &Ruby, v: Value) -> bool;

    /// `r` is what converting `v` gives.
    spec fn conversion(ruby: &Ruby, v: Value, r: Result<Self, Error>) -> bool;

    /// Converts `v`, or reports why it does not convert.
    fn try_convert(ruby: &Ruby, v: Value) -> (r: Result<Self, Error>)
        requires
            ruby.wf(),
        ensures
            Self::conversion(ruby, v, r),
            r is Ok <==> Self::converts(ruby, v),
    ;
}

impl TryConvert for Value {
    open spec fn converts(ruby: &Ruby, v: Value) -> bool {
        true
    }

    open spec fn conversion(ruby: &Ruby, v: Value, r: Result<Value, Error>) -> bool {
        r == Ok::<Value, Error>(v)
    }

    /// Every value is a value.
    fn try_convert(ruby: &Ruby, v: Value) -> (r: Result<Value, Error>) {
        Ok(v)
    }
}


/// Native values that become runtime values. The conversion never fails;
/// it may put a new object on the heap.
pub trait IntoValue: Sized {
    /// `v` stands for `self` in `ruby`.
    spec fn represents(&self, ruby: &Ruby, v: Value) -> bool;

    /// What stands for a native value keeps standing for it while the
    /// heap's objects are kept.
    proof fn lemma_represents_grown(&self, old: &Ruby, new: &Ruby, v: Value)
        requires
            old.wf(),
            self.represents(old, v),
            new.preserves(old),
        ensures
            self.represents(new, v),
    ;

    /// The runtime value for `self`.
    fn into_value(self, ruby: &mut Ruby) -> (v: Value)
        requires
            old(ruby).wf(),
            old(ruby).has_room(1),
        ensures
            final(ruby).wf(),
            final(ruby).grown_from(old(ruby)),
            final(ruby).slot_count() <= old(ruby).slot_count() + 1,
            self.represents(final(ruby), v),
            forall|a: Value, b: Value|
                old(ruby).live(a) && old(ruby).live(b) ==> (#[trigger] final(ruby).shares(a, b)
                    == old(ruby).shares(a, b)),
    ;
}

impl IntoValue for Value {
    open spec fn represents(&self, ruby: &Ruby, v: Value) -> bool {
        v == *self
    }

    proof fn lemma_represents_grown(&self, old: &Ruby, new: &Ruby, v: Value) {
    }

    /// A value stands for itself.
    fn into_value(self, ruby: &mut Ruby) -> (v: Value) {
        proof {
            ruby.lemma_grown_refl();
        }
        self
    }
}

impl IntoValue for bool {
    open spec fn represents(&self, ruby: &Ruby, v: Value) -> bool {
        v.word_spec() == if *self { QTRUE } else { QFALSE }
    }

    proof fn lemma_represents_grown(&self, old: &Ruby, new: &Ruby, v: Value) {
    }

    /// `true` or `false`.
    fn into_value(self, ruby: &mut Ruby) -> (v: Value) {
        proof {
            ruby.lemma_grown_refl();
        }
        Value::from_bool(self)
    }
}

} // verus!
