//! Views of generic objects, files, threads and bindings.
use crate::convert::{IntoValue, TryConvert};
use crate::error::{Error, ExceptionClass, ValueType};
use crate::runtime::{Ruby, ThreadState};
use crate::value::Value;
use vstd::prelude::*;

verus! {

/// An ordinary object.
#[derive(Clone, Copy)]
pub struct RObject {
    val: Value,
}

impl View for RObject {
    type V = Value;

    closed spec fn view(&self) -> Value {
        self.val
    }
}

impl RObject {
    /// `v` as an ordinary object, if it is one.
    pub fn from_value(ruby: &Ruby, v: Value) -> (r: Option<RObject>)
        requires
            ruby.wf(),
        ensures
            r is Some <==> ruby.type_of(v) == ValueType::Object,
            r matches Some(o) ==> o@ == v,
    {
        match ruby.value_type(v) {
            ValueType::Object => Some(RObject { val: v }),
            _ => None,
        }
    }

    pub fn as_value(&self) -> (r: Value)
        ensures
            r == self@,
    {
        self.val
    }
}

/// An open file.
#[derive(Clone, Copy)]
pub struct RFile {
    val: Value,
}

impl View for RFile {
    type V = Value;

    closed spec fn view(&self) -> Value {
        self.val
    }
}

impl RFile {
    /// `v` as a file, if it is one.
    pub fn from_value(ruby: &Ruby, v: Value) -> (r: Option<RFile>)
        requires
            ruby.wf(),
        ensures
            r is Some <==> ruby.type_of(v) == ValueType::File,
            r matches Some(f) ==> f@ == v,
    {
        match ruby.value_type(v) {
            ValueType::File => Some(RFile { val: v }),
            _ => None,
        }
    }

    pub fn as_value(&self) -> (r: Value)
        ensures
            r == self@,
    {
        self.val
    }
}

/// A thread of the runtime.
#[derive(Clone, Copy)]
pub struct Thread {
    val: Value,
}

impl View for Thread {
    type V = Value;

    closed spec fn view(&self) -> Value {
        self.val
    }
}

/// What a state change of a live thread does to the heap.
pub open spec fn thread_set(new: &Ruby, old: &Ruby, t: Value, state: ThreadState) -> bool {
    new.wf() && new.only_object_changed(old, t) && new.thread_state(t) == state
}

impl Thread {
    /// `v` as a thread, if it is one.
    pub fn from_value(ruby: &Ruby, v: Value) -> (r: Option<Thread>)
        requires
            ruby.wf(),
        ensures
            r is Some <==> ruby.type_of(v) == ValueType::Thread,
            r matches Some(t) ==> t@ == v,
    {
        match ruby.value_type(v) {
            ValueType::Thread => Some(Thread { val: v }),
            _ => None,
        }
    }

    pub fn as_value(&self) -> (r: Value)
        ensures
            r == self@,
    {
        self.val
    }

    /// Marks the thread eligible to run. A dead thread raises
    /// `ThreadError`.
    pub fn wakeup(self, ruby: &mut Ruby) -> (r: Result<(), Error>)
        requires
            old(ruby).wf(),
            old(ruby).type_of(self@) == ValueType::Thread,
        ensures
            old(ruby).thread_state(self@) == ThreadState::Dead ==> r == Err::<(), Error>(
                Error::Raised(ExceptionClass::ThreadError),
            ) && *final(ruby) == *old(ruby),
            old(ruby).thread_state(self@) != ThreadState::Dead ==> r == Ok::<(), Error>(())
                && thread_set(final(ruby), old(ruby), self@, ThreadState::Runnable),
    {
        match ruby.thread_state_of(self.val) {
            ThreadState::Dead => Err(Error::Raised(ExceptionClass::ThreadError)),
            _ => {
                ruby.set_thread_state(self.val, ThreadState::Runnable);
                Ok(())
            },
        }
    }

    /// Marks the thread eligible to run, unless it is dead.
    pub fn wakeup_alive(self, ruby: &mut Ruby)
        requires
            old(ruby).wf(),
            old(ruby).type_of(self@) == ValueType::Thread,
        ensures
            old(ruby).thread_state(self@) == ThreadState::Dead ==> *final(ruby) == *old(ruby),
            old(ruby).thread_state(self@) != ThreadState::Dead ==> thread_set(
                final(ruby),
                old(ruby),
                self@,
                ThreadState::Runnable,
            ),
    {
        match ruby.thread_state_of(self.val) {
            ThreadState::Dead => {},
            _ => ruby.set_thread_state(self.val, ThreadState::Runnable),
        }
    }

    /// Wakes the thread and lets the scheduler run it. A dead thread
    /// raises `ThreadError`.
    pub fn run(self, ruby: &mut Ruby) -> (r: Result<(), Error>)
        requires
            old(ruby).wf(),
            old(ruby).type_of(self@) == ValueType::Thread,
        ensures
            old(ruby).thread_state(self@) == ThreadState::Dead ==> r == Err::<(), Error>(
                Error::Raised(ExceptionClass::ThreadError),
            ) && *final(ruby) == *old(ruby),
            old(ruby).thread_state(self@) != ThreadState::Dead ==> r == Ok::<(), Error>(())
                && thread_set(final(ruby), old(ruby), self@, ThreadState::Runnable),
    {
        self.wakeup(ruby)
    }

    /// Terminates the thread.
    pub fn kill(self, ruby: &mut Ruby) -> (r: Result<(), Error>)
        requires
            old(ruby).wf(),
            old(ruby).type_of(self@) == ValueType::Thread,
        ensures
            r == Ok::<(), Error>(()),
            thread_set(final(ruby), old(ruby), self@, ThreadState::Dead),
    {
        ruby.set_thread_state(self.val, ThreadState::Dead);
        Ok(())
    }
}

/// An execution context with local variables.
#[derive(Clone, Copy)]
pub struct Binding {
    val: Value,
}

impl View for Binding {
    type V = Value;

    closed spec fn view(&self) -> Value {
        self.val
    }
}

/// Whether some local variable is called `name`.
pub open spec fn has_local(l: Seq<(Value, Value)>, name: Value) -> bool {
    exists|k: int| 0 <= k < l.len() && (#[trigger] l[k]).0 == name
}

/// `k` is the first local variable called `name`.
pub open spec fn first_local(l: Seq<(Value, Value)>, name: Value, k: int) -> bool {
    0 <= k < l.len() && l[k].0 == name && forall|j: int| 0 <= j < k ==> (#[trigger] l[j]).0 != name
}

impl Binding {
    /// `v` as a binding, if it is one.
    pub fn from_value(ruby: &Ruby, v: Value) -> (r: Option<Binding>)
        requires
            ruby.wf(),
        ensures
            r is Some <==> ruby.type_of(v) == ValueType::Binding,
            r matches Some(b) ==> b@ == v,
    {
        match ruby.value_type(v) {
            ValueType::Binding => Some(Binding { val: v }),
            _ => None,
        }
    }

    /// A new binding with no local variables.
    pub fn new(ruby: &mut Ruby) -> (r: Binding)
        requires
            old(ruby).wf(),
            old(ruby).has_room(1),
        ensures
            final(ruby).wf(),
            final(ruby).grown_from(old(ruby)),
            !old(ruby).live(r@),
            final(ruby).type_of(r@) == ValueType::Binding,
            final(ruby).locals(r@) == Seq::<(Value, Value)>::empty(),
    {
        Binding { val: ruby.binding_new() }
    }

    pub fn as_value(&self) -> (r: Value)
        ensures
            r == self@,
    {
        self.val
    }

    fn find(l: &Vec<(Value, Value)>, name: Value) -> (r: Option<usize>)
        ensures
            r is Some <==> has_local(l@, name),
            r matches Some(k) ==> first_local(l@, name, k as int),
    {
        let mut k: usize = 0;
        while k < l.len()
            invariant
                k <= l@.len(),
                forall|j: int| 0 <= j < k ==> (#[trigger] l@[j]).0 != name,
            decreases l@.len() - k,
        {
            if l[k].0 == name {
                return Some(k);
            }
            k = k + 1;
        }
        None
    }

    /// The value of local variable `name`; `NameError` when there is none.
    pub fn local_variable_get(self, ruby: &Ruby, name: Value) -> (r: Result<Value, Error>)
        requires
            ruby.wf(),
            ruby.type_of(self@) == ValueType::Binding,
        ensures
            !has_local(ruby.locals(self@), name) ==> r == Err::<Value, Error>(
                Error::Raised(ExceptionClass::NameError),
            ),
            has_local(ruby.locals(self@), name) ==> exists|k: int|
                first_local(ruby.locals(self@), name, k) && r == Ok::<Value, Error>(
                    ruby.locals(self@)[k].1,
                ),
    {
        let l = ruby.locals_of(self.val);
        match Binding::find(&l, name) {
            Some(k) => Ok(l[k].1),
            None => Err(Error::Raised(ExceptionClass::NameError)),
        }
    }

    /// Sets local variable `name` to `val`, adding it if there is none.
    pub fn local_variable_set(self, ruby: &mut Ruby, name: Value, val: Value)
        requires
            old(ruby).wf(),
            old(ruby).type_of(self@) == ValueType::Binding,
        ensures
            final(ruby).wf(),
            final(ruby).only_object_changed(old(ruby), self@),
            !has_local(old(ruby).locals(self@), name) ==> final(ruby).locals(self@) == old(
                ruby,
            ).locals(self@).push((name, val)),
            has_local(old(ruby).locals(self@), name) ==> exists|k: int|
                first_local(old(ruby).locals(self@), name, k) && final(ruby).locals(self@) == old(
                    ruby,
                ).locals(self@).update(k, (name, val)),
    {
        let mut l = ruby.locals_of(self.val);
        match Binding::find(&l, name) {
            Some(k) => l.set(k, (name, val)),
            None => l.push((name, val)),
        }
        ruby.set_locals(self.val, l);
    }
}


impl TryConvert for RObject {
    open spec fn converts(ruby: &Ruby, v: Value) -> bool {
        ruby.type_of(v) == ValueType::Object
    }

    open spec fn conversion(ruby: &Ruby, v: Value, r: Result<RObject, Error>) -> bool {
        match r {
            Ok(x) => x@ == v && ruby.type_of(v) == ValueType::Object,
            Err(e) => e == Error::Conversion(ruby.type_of(v)) && ruby.type_of(v) != ValueType::Object,
        }
    }

    /// `v` as an object, or a conversion error naming its class.
    fn try_convert(ruby: &Ruby, v: Value) -> (r: Result<RObject, Error>) {
        match ruby.value_type(v) {
            ValueType::Object => Ok(RObject { val: v }),
            t => Err(Error::Conversion(t)),
        }
    }
}


impl TryConvert for RFile {
    open spec fn converts(ruby: &Ruby, v: Value) -> bool {
        ruby.type_of(v) == ValueType::File
    }

    open spec fn conversion(ruby: &Ruby, v: Value, r: Result<RFile, Error>) -> bool {
        match r {
            Ok(x) => x@ == v && ruby.type_of(v) == ValueType::File,
            Err(e) => e == Error::Conversion(ruby.type_of(v)) && ruby.type_of(v) != ValueType::File,
        }
    }

    /// `v` as a file, or a conversion error naming its class.
    fn try_convert(ruby: &Ruby, v: Value) -> (r: Result<RFile, Error>) {
        match ruby.value_type(v) {
            ValueType::File => Ok(RFile { val: v }),
            t => Err(Error::Conversion(t)),
        }
    }
}


impl TryConvert for Thread {
    open spec fn converts(ruby: &Ruby, v: Value) -> bool {
        ruby.type_of(v) == ValueType::Thread
    }

    open spec fn conversion(ruby: &Ruby, v: Value, r: Result<Thread, Error>) -> bool {
        match r {
            Ok(x) => x@ == v && ruby.type_of(v) == ValueType::Thread,
            Err(e) => e == Error::Conversion(ruby.type_of(v)) && ruby.type_of(v) != ValueType::Thread,
        }
    }

    /// `v` as a thread, or a conversion error naming its class.
    fn try_convert(ruby: &Ruby, v: Value) -> (r: Result<Thread, Error>) {
        match ruby.value_type(v) {
            ValueType::Thread => Ok(Thread { val: v }),
            t => Err(Error::Conversion(t)),
        }
    }
}


impl TryConvert for Binding {
    open spec fn converts(ruby: &Ruby, v: Value) -> bool {
        ruby.type_of(v) == ValueType::Binding
    }

    open spec fn conversion(ruby: &Ruby, v: Value, r: Result<Binding, Error>) -> bool {
        match r {
            Ok(x) => x@ == v && ruby.type_of(v) == ValueType::Binding,
            Err(e) => e == Error::Conversion(ruby.type_of(v)) && ruby.type_of(v) != ValueType::Binding,
        }
    }

    /// `v` as a binding, or a conversion error naming its class.
    fn try_convert(ruby: &Ruby, v: Value) -> (r: Result<Binding, Error>) {
        match ruby.value_type(v) {
            ValueType::Binding => Ok(Binding { val: v }),
            t => Err(Error::Conversion(t)),
        }
    }
}

impl IntoValue for RObject {
    open spec fn represents(&self, ruby: &Ruby, v: Value) -> bool {
        v == self@
    }

    proof fn lemma_represents_grown(&self, old: &Ruby, new: &Ruby, v: Value) {
    }

    /// The value this view certifies.
    fn into_value(self, ruby: &mut Ruby) -> (v: Value) {
        proof {
            ruby.lemma_grown_refl();
        }
        self.val
    }
}

impl IntoValue for RFile {
    open spec fn represents(&self, ruby: &Ruby, v: Value) -> bool {
        v == self@
    }

    proof fn lemma_represents_grown(&self, old: &Ruby, new: &Ruby, v: Value) {
    }

    /// The value this view certifies.
    fn into_value(self, ruby: &mut Ruby) -> (v: Value) {
        proof {
            ruby.lemma_grown_refl();
        }
        self.val
    }
}

impl IntoValue for Thread {
    open spec fn represents(&self, ruby: &Ruby, v: Value) -> bool {
        v == self@
    }

    proof fn lemma_represents_grown(&self, old: &Ruby, new: &Ruby, v: Value) {
    }

    /// The value this view certifies.
    fn into_value(self, ruby: &mut Ruby) -> (v: Value) {
        proof {
            ruby.lemma_grown_refl();
        }
        self.val
    }
}

impl IntoValue for Binding {
    open spec fn represents(&self, ruby: &Ruby, v: Value) -> bool {
        v == self@
    }

    proof fn lemma_represents_grown(&self, old: &Ruby, new: &Ruby, v: Value) {
    }

    /// The value this view certifies.
    fn into_value(self, ruby: &mut Ruby) -> (v: Value) {
        proof {
            ruby.lemma_grown_refl();
        }
        self.val
    }
}

} // verus!
