//! The runtime's heap as native code observes it: slots holding objects, and
//! array storage that several arrays may share until one of them is written.
use crate::bignum::BigInt;
use crate::error::{Error, ExceptionClass, ValueType};
use crate::value::{is_heap_word, slot_of_word, Value, MAX_SLOTS, QFALSE, QNIL, QTRUE, SYMBOL_FLAG};
use vstd::prelude::*;

verus! {

/// How an object answers an implicit conversion request.
#[derive(Clone, Copy, PartialEq, Eq, Structural, Debug)]
pub enum Coercion {
    /// The object has no such conversion method.
    Absent,
    /// The method returns this value.
    Returns(Value),
    /// The method raises this exception object.
    Raises(Value),
}

/// Where an array's elements are: `len` elements from `start` in storage
/// buffer `buf`. A private array owns its whole buffer alone.
#[derive(Clone, Copy)]
struct ArrayRec {
    buf: usize,
    start: usize,
    len: usize,
    shared: bool,
}

/// The scheduling state of a runtime thread.
#[derive(Clone, Copy, PartialEq, Eq, Structural, Debug)]
pub enum ThreadState {
    Runnable,
    Sleeping,
    Dead,
}

enum Obj {
    Bignum(BigInt),
    /// A float, as the bits of its IEEE 754 encoding.
    Float(u64),
    Array(ArrayRec),
    /// An ordinary object, with its `to_int` and `to_ary` conversions.
    Object(Coercion, Coercion),
    /// An open file, by descriptor.
    File(i32),
    Thread(ThreadState),
    /// A binding: local variable names (symbols) and their values.
    Binding(Vec<(Value, Value)>),
    Exception(ExceptionClass),
    /// A native payload, as the words of its memory.
    Data(Vec<u64>),
}

struct Slot {
    obj: Obj,
    frozen: bool,
    /// A hidden object has no class: object enumeration does not see it.
    hidden: bool,
}

spec fn obj_type(o: &Obj) -> ValueType {
    match o {
        Obj::Bignum(_) => ValueType::Bignum,
        Obj::Float(_) => ValueType::Float,
        Obj::Array(_) => ValueType::Array,
        Obj::Object(_, _) => ValueType::Object,
        Obj::File(_) => ValueType::File,
        Obj::Thread(_) => ValueType::Thread,
        Obj::Binding(_) => ValueType::Binding,
        Obj::Exception(_) => ValueType::Exception,
        Obj::Data(_) => ValueType::Data,
    }
}

/// The class a word has by its bits alone, when they decide it.
pub open spec fn immediate_type(w: u64) -> ValueType {
    if w % 2 == 1 {
        ValueType::Fixnum
    } else if w == QNIL {
        ValueType::Nil
    } else if w == QTRUE {
        ValueType::True
    } else if w == QFALSE {
        ValueType::False
    } else if w % 256 == SYMBOL_FLAG {
        ValueType::Symbol
    } else {
        ValueType::Undef
    }
}

/// The words of `s` that reference one of the first `n` heap slots, in order.
pub open spec fn heap_refs(s: Seq<u64>, n: nat) -> Seq<u64>
    decreases s.len(),
{
    if s.len() == 0 {
        s
    } else {
        let rest = heap_refs(s.drop_last(), n);
        if is_heap_word(s.last()) && 0 <= slot_of_word(s.last()) < n {
            rest.push(s.last())
        } else {
            rest
        }
    }
}

/// How many of the first `n` slots hold a thread that is not dead.
spec fn threads_alive(slots: Seq<Slot>, n: int) -> nat
    decreases n,
{
    if n <= 0 {
        0
    } else {
        threads_alive(slots, n - 1) + match slots[n - 1].obj {
            Obj::Thread(ThreadState::Dead) => 0nat,
            Obj::Thread(_) => 1nat,
            _ => 0nat,
        }
    }
}

/// A running runtime: its heap of slots and the storage of its arrays.
pub struct Ruby {
    slots: Vec<Slot>,
    buffers: Vec<Vec<Value>>,
}

impl Ruby {
    /// How many objects the heap holds.
    pub closed spec fn slot_count(&self) -> nat {
        self.slots@.len()
    }

    /// Whether `v` references an object on the heap.
    pub closed spec fn live(&self, v: Value) -> bool {
        v.is_heap_spec() && 0 <= v.slot() < self.slots@.len()
    }

    /// The representation class of `v`.
    pub closed spec fn type_of(&self, v: Value) -> ValueType {
        if v.is_heap_spec() {
            if self.live(v) {
                obj_type(&self.slots@[v.slot()].obj)
            } else {
                ValueType::Undef
            }
        } else {
            immediate_type(v.word_spec())
        }
    }

    spec fn is_arr(&self, i: int) -> bool {
        self.slots@[i].obj is Array
    }

    spec fn arr(&self, i: int) -> ArrayRec {
        match self.slots@[i].obj {
            Obj::Array(r) => r,
            _ => ArrayRec { buf: 0, start: 0, len: 0, shared: false },
        }
    }

    spec fn stored(&self, r: ArrayRec) -> Seq<Value> {
        self.buffers@[r.buf as int]@.subrange(r.start as int, r.start + r.len)
    }

    /// The elements of array `v`.
    pub closed spec fn elems(&self, v: Value) -> Seq<Value> {
        self.stored(self.arr(v.slot()))
    }

    /// Whether arrays `a` and `b` read one storage buffer.
    pub closed spec fn shares(&self, a: Value, b: Value) -> bool {
        a != b && self.type_of(a) == ValueType::Array && self.type_of(b) == ValueType::Array
            && self.arr(a.slot()).shared && self.arr(b.slot()).shared && self.arr(a.slot()).buf
            == self.arr(b.slot()).buf
    }

    /// Whether `v` is a frozen object.
    pub closed spec fn frozen(&self, v: Value) -> bool {
        self.live(v) && self.slots@[v.slot()].frozen
    }

    /// Whether `v` is an object hidden from enumeration.
    pub closed spec fn hidden(&self, v: Value) -> bool {
        self.live(v) && self.slots@[v.slot()].hidden
    }

    /// The integer that bignum `v` holds.
    pub closed spec fn bignum_val(&self, v: Value) -> int {
        match self.slots@[v.slot()].obj {
            Obj::Bignum(b) => b@,
            _ => 0,
        }
    }

    /// The `to_int` and `to_ary` answers of ordinary object `v`.
    pub closed spec fn coercions(&self, v: Value) -> (Coercion, Coercion) {
        match self.slots@[v.slot()].obj {
            Obj::Object(i, a) => (i, a),
            _ => (Coercion::Absent, Coercion::Absent),
        }
    }

    /// The IEEE 754 bits of float `v`.
    pub closed spec fn float_bits(&self, v: Value) -> u64 {
        match self.slots@[v.slot()].obj {
            Obj::Float(b) => b,
            _ => 0,
        }
    }

    /// The class of exception object `v`.
    pub closed spec fn exception_class(&self, v: Value) -> ExceptionClass {
        match self.slots@[v.slot()].obj {
            Obj::Exception(c) => c,
            _ => ExceptionClass::StandardError,
        }
    }

    /// The scheduling state of thread `v`.
    pub closed spec fn thread_state(&self, v: Value) -> ThreadState {
        match self.slots@[v.slot()].obj {
            Obj::Thread(t) => t,
            _ => ThreadState::Dead,
        }
    }

    /// The local variables of binding `v`: names and values.
    pub closed spec fn locals(&self, v: Value) -> Seq<(Value, Value)> {
        match self.slots@[v.slot()].obj {
            Obj::Binding(l) => l@,
            _ => Seq::empty(),
        }
    }

    /// The payload words of data object `v`.
    pub closed spec fn payload(&self, v: Value) -> Seq<u64> {
        match self.slots@[v.slot()].obj {
            Obj::Data(w) => w@,
            _ => Seq::empty(),
        }
    }

    /// How many threads are not dead.
    pub closed spec fn live_threads(&self) -> nat {
        threads_alive(self.slots@, self.slots@.len() as int)
    }

    spec fn slot_wf(&self, i: int) -> bool {
        match self.slots@[i].obj {
            Obj::Array(r) => r.buf < self.buffers@.len() && r.start + r.len
                <= self.buffers@[r.buf as int]@.len() && (!r.shared ==> r.start == 0 && r.len
                == self.buffers@[r.buf as int]@.len()),
            Obj::Bignum(b) => b.wf(),
            _ => true,
        }
    }

    /// Every slot is well formed, and a private array's buffer is its own.
    pub closed spec fn wf(&self) -> bool {
        &&& self.slots@.len() <= MAX_SLOTS
        &&& forall|i: int| 0 <= i < self.slots@.len() ==> #[trigger] self.slot_wf(i)
        &&& forall|i: int, j: int|
            #![trigger self.arr(i), self.arr(j)]
            0 <= i < self.slots@.len() && 0 <= j < self.slots@.len() && i != j && self.is_arr(i)
                && self.is_arr(j) && !self.arr(i).shared ==> self.arr(i).buf != self.arr(j).buf
    }

    /// Room for `n` more heap objects.
    pub open spec fn has_room(&self, n: nat) -> bool {
        self.slot_count() + n <= MAX_SLOTS
    }

    /// `v` has in `self` the class, flags and contents it had in `old`;
    /// for an array, its elements too unless `v` is `except`.
    pub closed spec fn keeps(&self, old: &Ruby, v: Value, except: Value) -> bool {
        &&& self.live(v)
        &&& self.type_of(v) == old.type_of(v)
        &&& self.frozen(v) == old.frozen(v)
        &&& self.hidden(v) == old.hidden(v)
        &&& (old.type_of(v) == ValueType::Array && v != except ==> self.elems(v) == old.elems(v))
        &&& (old.type_of(v) == ValueType::Bignum ==> self.bignum_val(v) == old.bignum_val(v))
        &&& self.coercions(v) == old.coercions(v)
        &&& self.float_bits(v) == old.float_bits(v)
        &&& self.exception_class(v) == old.exception_class(v)
    }

    /// `self` is `old` with objects added: every live value of `old` keeps
    /// its class, flags and, for an array, its elements.
    pub closed spec fn grown_from(&self, old: &Ruby) -> bool {
        &&& old.slots@.len() <= self.slots@.len()
        &&& forall|v: Value| #[trigger] old.live(v) ==> self.keeps(old, v, v) && (old.type_of(v)
            == ValueType::Array ==> self.elems(v) == old.elems(v))
    }

    /// `self` is `old` with at most the elements of array `v` changed.
    pub closed spec fn changed_only(&self, old: &Ruby, v: Value) -> bool {
        &&& old.slots@.len() == self.slots@.len()
        &&& forall|u: Value| #[trigger] old.live(u) ==> self.keeps(old, u, v)
        &&& forall|a: Value, b: Value|
            a != v && b != v ==> (#[trigger] self.shares(a, b) == old.shares(a, b))
    }

    /// A runtime with an empty heap.
    pub fn new() -> (r: Ruby)
        ensures
            r.wf(),
            r.slot_count() == 0,
    {
        Ruby { slots: Vec::new(), buffers: Vec::new() }
    }

    /// Classifies `v`. Immediates are told apart by their bits alone; a
    /// reference costs one look at its slot; a stale one is `Undef`.
    pub fn value_type(&self, v: Value) -> (r: ValueType)
        requires
            self.wf(),
        ensures
            r == self.type_of(v),
    {
        let w = v.as_word();
        if v.is_heap() {
            match v.heap_slot() {
                Some(i) => {
                    if i < self.slots.len() {
                        match &self.slots[i].obj {
                            Obj::Bignum(_) => ValueType::Bignum,
                            Obj::Float(_) => ValueType::Float,
                            Obj::Array(_) => ValueType::Array,
                            Obj::Object(_, _) => ValueType::Object,
                            Obj::File(_) => ValueType::File,
                            Obj::Thread(_) => ValueType::Thread,
                            Obj::Binding(_) => ValueType::Binding,
                            Obj::Exception(_) => ValueType::Exception,
                            Obj::Data(_) => ValueType::Data,
                        }
                    } else {
                        ValueType::Undef
                    }
                },
                None => {
                    assert(v.slot() >= self.slots@.len());
                    ValueType::Undef
                },
            }
        } else if w % 2 == 1 {
            ValueType::Fixnum
        } else if w == QNIL {
            ValueType::Nil
        } else if w == QTRUE {
            ValueType::True
        } else if w == QFALSE {
            ValueType::False
        } else if w % 256 == SYMBOL_FLAG {
            ValueType::Symbol
        } else {
            ValueType::Undef
        }
    }

    /// The slot of a value known to be on the heap.
    fn slot_index(&self, v: Value) -> (i: usize)
        requires
            self.wf(),
            self.live(v),
        ensures
            i == v.slot(),
            i < self.slots@.len(),
    {
        match v.heap_slot() {
            Some(i) => i,
            None => 0,
        }
    }

    fn arr_rec(&self, i: usize) -> (r: ArrayRec)
        requires
            i < self.slots@.len(),
            self.is_arr(i as int),
        ensures
            r == self.arr(i as int),
    {
        match &self.slots[i].obj {
            Obj::Array(r) => *r,
            _ => ArrayRec { buf: 0, start: 0, len: 0, shared: false },
        }
    }

    /// Puts a new object that is no array on the heap.
    fn alloc_object(&mut self, obj: Obj, frozen: bool, hidden: bool) -> (v: Value)
        requires
            old(self).wf(),
            old(self).has_room(1),
            !(obj is Array),
            obj matches Obj::Bignum(b) ==> b.wf(),
        ensures
            final(self).wf(),
            final(self).grown_from(old(self)),
            final(self).slot_count() == old(self).slot_count() + 1,
            !old(self).live(v),
            final(self).live(v),
            final(self).type_of(v) == obj_type(&obj),
            final(self).frozen(v) == frozen,
            final(self).hidden(v) == hidden,
            obj matches Obj::Bignum(b) ==> final(self).bignum_val(v) == b@,
            obj matches Obj::Object(i, a) ==> final(self).coercions(v) == (i, a),
            obj matches Obj::Float(b) ==> final(self).float_bits(v) == b,
            obj matches Obj::Exception(c) ==> final(self).exception_class(v) == c,
            obj matches Obj::Thread(t) ==> final(self).thread_state(v) == t,
            obj matches Obj::Binding(l) ==> final(self).locals(v) == l@,
            obj matches Obj::Data(w) ==> final(self).payload(v) == w@,
            forall|a: Value, b: Value| #[trigger]
                final(self).shares(a, b) == old(self).shares(a, b),
    {
        let i = self.slots.len();
        let ghost o = obj;
        self.slots.push(Slot { obj, frozen, hidden });
        let v = Value::from_slot(i);
        proof {
            assert(self.slot_wf(i as int));
            assert forall|j: int| 0 <= j < self.slots@.len() implies #[trigger] self.slot_wf(j) by {
                if j < i {
                    assert(old(self).slot_wf(j));
                }
            }
            assert forall|x: int, y: int|
                #![trigger self.arr(x), self.arr(y)]
                0 <= x < self.slots@.len() && 0 <= y < self.slots@.len() && x != y && self.is_arr(
                    x,
                ) && self.is_arr(y) && !self.arr(x).shared implies self.arr(x).buf
                != self.arr(y).buf by {
                assert(old(self).arr(x) == self.arr(x) && old(self).arr(y) == self.arr(y));
            }
            assert forall|u: Value| #[trigger] old(self).live(u) implies self.keeps(old(self), u, u) && (old(self).type_of(u) == ValueType::Array ==> self.elems(u) == old(self).elems(u)) by {
                assert(old(self).slots@[u.slot()] == self.slots@[u.slot()]);
            }
            assert forall|a: Value, b: Value| #[trigger]
                self.shares(a, b) == old(self).shares(a, b) by {
                if self.shares(a, b) {
                    assert(a.slot() != i && b.slot() != i);
                }
            }
        }
        v
    }

    /// Puts a new private array holding `items` on the heap.
    pub fn alloc_array(&mut self, items: Vec<Value>, hidden: bool) -> (v: Value)
        requires
            old(self).wf(),
            old(self).has_room(1),
        ensures
            final(self).wf(),
            final(self).grown_from(old(self)),
            final(self).slot_count() == old(self).slot_count() + 1,
            !old(self).live(v),
            final(self).live(v),
            final(self).type_of(v) == ValueType::Array,
            final(self).elems(v) == items@,
            !final(self).frozen(v),
            final(self).hidden(v) == hidden,
            forall|a: Value, b: Value| #[trigger]
                final(self).shares(a, b) == old(self).shares(a, b),
            forall|u: Value| !#[trigger] final(self).shares(v, u),
    {
        let i = self.slots.len();
        let b = self.buffers.len();
        let len = items.len();
        self.buffers.push(items);
        self.slots.push(
            Slot { obj: Obj::Array(ArrayRec { buf: b, start: 0, len, shared: false }), frozen: false, hidden },
        );
        let v = Value::from_slot(i);
        proof {
            assert(self.buffers@[b as int]@.subrange(0, len as int) =~= items@);
            assert forall|j: int| 0 <= j < self.slots@.len() implies #[trigger] self.slot_wf(j) by {
                if j < i {
                    assert(old(self).slot_wf(j));
                    if old(self).is_arr(j) {
                        assert(self.buffers@[old(self).arr(j).buf as int] == old(self).buffers@[old(
                            self,
                        ).arr(j).buf as int]);
                    }
                }
            }
            assert forall|x: int, y: int|
                #![trigger self.arr(x), self.arr(y)]
                0 <= x < self.slots@.len() && 0 <= y < self.slots@.len() && x != y && self.is_arr(
                    x,
                ) && self.is_arr(y) && !self.arr(x).shared implies self.arr(x).buf
                != self.arr(y).buf by {
                if x < i && y < i {
                    assert(old(self).arr(x) == self.arr(x) && old(self).arr(y) == self.arr(y));
                } else if x == i {
                    assert(old(self).slot_wf(y));
                } else {
                    assert(old(self).slot_wf(x));
                }
            }
            assert forall|u: Value| #[trigger] old(self).live(u) implies self.keeps(old(self), u, u) && (old(self).type_of(u) == ValueType::Array ==> self.elems(u) == old(self).elems(u)) by {
                assert(old(self).slot_wf(u.slot()));
            }
            assert forall|a: Value, c: Value| #[trigger]
                self.shares(a, c) == old(self).shares(a, c) by {
                if self.shares(a, c) {
                    assert(a.slot() != i && c.slot() != i);
                }
            }
        }
        v
    }

    proof fn lemma_array_slot(&self, v: Value)
        requires
            self.wf(),
            self.type_of(v) == ValueType::Array,
        ensures
            self.live(v),
            self.is_arr(v.slot()),
            self.slot_wf(v.slot()),
            self.elems(v) == self.stored(self.arr(v.slot())),
    {
        assert(self.slot_wf(v.slot()));
    }

    /// The elements of array `v`, copied out.
    pub fn ary_values(&self, v: Value) -> (r: Vec<Value>)
        requires
            self.wf(),
            self.type_of(v) == ValueType::Array,
        ensures
            r@ == self.elems(v),
    {
        proof {
            self.lemma_array_slot(v);
        }
        let i = self.slot_index(v);
        let rec = self.arr_rec(i);
        let buf = &self.buffers[rec.buf];
        let blen = buf.len();
        let mut r: Vec<Value> = Vec::new();
        let mut k: usize = 0;
        while k < rec.len
            invariant
                k <= rec.len,
                rec.start + rec.len <= buf@.len(),
                buf@.len() == blen,
                r@ == buf@.subrange(rec.start as int, rec.start + k),
            decreases rec.len - k,
        {
            r.push(buf[rec.start + k]);
            k = k + 1;
            assert(r@ =~= buf@.subrange(rec.start as int, rec.start + k));
        }
        r
    }

    /// The length of array `v`.
    pub fn ary_len(&self, v: Value) -> (r: usize)
        requires
            self.wf(),
            self.type_of(v) == ValueType::Array,
        ensures
            r == self.elems(v).len(),
    {
        proof {
            self.lemma_array_slot(v);
        }
        let i = self.slot_index(v);
        self.arr_rec(i).len
    }

    /// Element `k` of array `v`.
    pub fn ary_at(&self, v: Value, k: usize) -> (r: Value)
        requires
            self.wf(),
            self.type_of(v) == ValueType::Array,
            k < self.elems(v).len(),
        ensures
            r == self.elems(v)[k as int],
    {
        proof {
            self.lemma_array_slot(v);
        }
        let i = self.slot_index(v);
        let rec = self.arr_rec(i);
        let blen = self.buffers[rec.buf].len();
        self.buffers[rec.buf][rec.start + k]
    }

    /// Gives array `v` the elements `items`, in storage of its own: where
    /// it shared storage, it now has a private copy and the others keep
    /// theirs untouched.
    pub fn ary_write(&mut self, v: Value, items: Vec<Value>)
        requires
            old(self).wf(),
            old(self).type_of(v) == ValueType::Array,
        ensures
            final(self).wf(),
            final(self).changed_only(old(self), v),
            final(self).slot_count() == old(self).slot_count(),
            final(self).elems(v) == items@,
            forall|u: Value| !#[trigger] final(self).shares(v, u) && !final(self).shares(u, v),
    {
        proof {
            self.lemma_array_slot(v);
        }
        let i = self.slot_index(v);
        let rec = self.arr_rec(i);
        let frozen = self.slots[i].frozen;
        let hidden = self.slots[i].hidden;
        let len = items.len();
        let ghost old_items = items@;
        let b: usize;
        if rec.shared {
            b = self.buffers.len();
            self.buffers.push(items);
        } else {
            b = rec.buf;
            self.buffers.set(b, items);
        }
        self.slots.set(
            i,
            Slot { obj: Obj::Array(ArrayRec { buf: b, start: 0, len, shared: false }), frozen, hidden },
        );
        proof {
            let o = old(self);
            assert(self.buffers@[b as int]@.subrange(0, len as int) =~= old_items);
            assert forall|j: int| 0 <= j < self.slots@.len() implies #[trigger] self.slot_wf(j) by {
                assert(o.slot_wf(j));
                if j != i && o.is_arr(j) {
                    assert(o.arr(j) == self.arr(j));
                    if !rec.shared {
                        assert(o.arr(j).buf != b);
                    }
                }
            }
            assert forall|x: int, y: int|
                #![trigger self.arr(x), self.arr(y)]
                0 <= x < self.slots@.len() && 0 <= y < self.slots@.len() && x != y && self.is_arr(
                    x,
                ) && self.is_arr(y) && !self.arr(x).shared implies self.arr(x).buf
                != self.arr(y).buf by {
                assert(o.slot_wf(x) && o.slot_wf(y));
                if x != i && y != i {
                    assert(o.arr(x) == self.arr(x) && o.arr(y) == self.arr(y));
                } else if x == i {
                    assert(o.arr(y) == self.arr(y));
                    assert(o.arr(x) == rec);
                } else {
                    assert(o.arr(x) == self.arr(x));
                    assert(o.arr(y) == rec);
                }
            }
            assert forall|u: Value| #[trigger] o.live(u) implies self.keeps(o, u, v) by {
                let j = u.slot();
                assert(o.slot_wf(j));
                if j != i && o.is_arr(j) {
                    assert(o.arr(j) == self.arr(j));
                    if !rec.shared {
                        assert(o.arr(j).buf != b);
                    }
                    assert(self.stored(self.arr(j)) == o.stored(o.arr(j)));
                }
                if j == i {
                    Value::lemma_slot_eq(u, v);
                }
            }
            assert forall|a: Value, c: Value| a != v && c != v implies (#[trigger] self.shares(a, c)
                == o.shares(a, c)) by {
                if self.type_of(a) == ValueType::Array && o.live(a) {
                    assert(a.slot() != i) by {
                        if a.slot() == i {
                            Value::lemma_slot_eq(a, v);
                        }
                    }
                }
                if self.type_of(c) == ValueType::Array && o.live(c) {
                    assert(c.slot() != i) by {
                        if c.slot() == i {
                            Value::lemma_slot_eq(c, v);
                        }
                    }
                }
            }
        }
    }

    /// A new array of `len` elements of `v` from `start`, reading `v`'s
    /// storage: no element is copied.
    pub fn ary_share(&mut self, v: Value, start: usize, len: usize) -> (w: Value)
        requires
            old(self).wf(),
            old(self).has_room(1),
            old(self).type_of(v) == ValueType::Array,
            start + len <= old(self).elems(v).len(),
        ensures
            final(self).wf(),
            final(self).grown_from(old(self)),
            final(self).slot_count() == old(self).slot_count() + 1,
            !old(self).live(w),
            final(self).type_of(w) == ValueType::Array,
            final(self).elems(w) == old(self).elems(v).subrange(start as int, start + len),
            !final(self).frozen(w),
            !final(self).hidden(w),
            final(self).shares(v, w),
            forall|a: Value, b: Value|
                old(self).live(a) && old(self).live(b) ==> (#[trigger] final(self).shares(a, b)
                    == old(self).shares(a, b)),
    {
        proof {
            self.lemma_array_slot(v);
        }
        let i = self.slot_index(v);
        let rec = self.arr_rec(i);
        let ghost o = *old(self);
        let blen = self.buffers[rec.buf].len();
        if !rec.shared {
            let frozen = self.slots[i].frozen;
            let hidden = self.slots[i].hidden;
            self.slots.set(
                i,
                Slot {
                    obj: Obj::Array(ArrayRec { buf: rec.buf, start: rec.start, len: rec.len, shared: true }),
                    frozen,
                    hidden,
                },
            );
        }
        let n = self.slots.len();
        self.slots.push(
            Slot {
                obj: Obj::Array(ArrayRec { buf: rec.buf, start: rec.start + start, len, shared: true }),
                frozen: false,
                hidden: false,
            },
        );
        let w = Value::from_slot(n);
        proof {
            assert(self.arr(i as int).buf == rec.buf && self.arr(i as int).start == rec.start
                && self.arr(i as int).len == rec.len);
            assert forall|j: int| 0 <= j < self.slots@.len() implies #[trigger] self.slot_wf(j) by {
                if j < n {
                    assert(o.slot_wf(j));
                    if o.is_arr(j) && j != i {
                        assert(o.arr(j) == self.arr(j));
                    }
                }
            }
            assert forall|x: int, y: int|
                #![trigger self.arr(x), self.arr(y)]
                0 <= x < self.slots@.len() && 0 <= y < self.slots@.len() && x != y && self.is_arr(
                    x,
                ) && self.is_arr(y) && !self.arr(x).shared implies self.arr(x).buf
                != self.arr(y).buf by {
                assert(x != i && x != n);
                assert(o.arr(x) == self.arr(x));
                if y != n && y != i {
                    assert(o.arr(y) == self.arr(y));
                } else {
                    assert(o.arr(i as int) == rec);
                }
            }
            assert(self.stored(self.arr(n as int)) =~= o.elems(v).subrange(
                start as int,
                start + len,
            ));
            assert forall|u: Value| #[trigger] o.live(u) implies self.keeps(&o, u, u) && (o.type_of(
                u,
            ) == ValueType::Array ==> self.elems(u) == o.elems(u)) by {
                let j = u.slot();
                assert(o.slot_wf(j));
                if j != i {
                    assert(o.slots@[j] == self.slots@[j]);
                }
            }
            assert forall|a: Value, b: Value|
                o.live(a) && o.live(b) implies (#[trigger] self.shares(a, b) == o.shares(a, b)) by {
                if o.is_arr(a.slot()) && o.is_arr(b.slot()) && a != b {
                    if a.slot() == i || b.slot() == i {
                        if !rec.shared {
                            if a.slot() == i {
                                assert(o.arr(b.slot()).buf != rec.buf || b.slot() == i);
                                if b.slot() == i {
                                    Value::lemma_slot_eq(a, b);
                                }
                            } else {
                                assert(o.arr(a.slot()).buf != rec.buf);
                            }
                        }
                    }
                }
            }
            assert(w != v);
        }
        w
    }

    /// Whether arrays `a` and `b` read one storage buffer.
    pub fn ary_shared_with(&self, a: Value, b: Value) -> (r: bool)
        requires
            self.wf(),
            self.type_of(a) == ValueType::Array,
            self.type_of(b) == ValueType::Array,
        ensures
            r == self.shares(a, b),
    {
        proof {
            self.lemma_array_slot(a);
            self.lemma_array_slot(b);
        }
        let i = self.slot_index(a);
        let j = self.slot_index(b);
        let ra = self.arr_rec(i);
        let rb = self.arr_rec(j);
        proof {
            if i == j {
                Value::lemma_slot_eq(a, b);
            }
        }
        i != j && ra.shared && rb.shared && ra.buf == rb.buf
    }

    /// `self` is `old` with at most the flags of `v` changed.
    pub closed spec fn flags_only(&self, old: &Ruby, v: Value) -> bool {
        &&& old.slots@.len() == self.slots@.len()
        &&& forall|u: Value| #[trigger]
            old.live(u) ==> self.keeps(old, u, u) || (u == v && self.live(u) && self.type_of(u)
                == old.type_of(u) && self.elems(u) == old.elems(u) && self.bignum_val(u)
                == old.bignum_val(u) && self.coercions(u) == old.coercions(u) && self.float_bits(u)
                == old.float_bits(u) && self.exception_class(u) == old.exception_class(u))
        &&& forall|u: Value| #[trigger]
            old.live(u) && old.type_of(u) == ValueType::Array ==> self.elems(u) == old.elems(u)
        &&& forall|a: Value, b: Value| #[trigger] self.shares(a, b) == old.shares(a, b)
    }

    fn set_flags(&mut self, v: Value, frozen: bool, hidden: bool)
        requires
            old(self).wf(),
            old(self).live(v),
        ensures
            final(self).wf(),
            final(self).flags_only(old(self), v),
            final(self).frozen(v) == frozen,
            final(self).hidden(v) == hidden,
    {
        let i = self.slot_index(v);
        self.slots[i].frozen = frozen;
        self.slots[i].hidden = hidden;
        proof {
            let o = old(self);
            assert(self.slots@[i as int].obj == o.slots@[i as int].obj);
            assert forall|j: int| 0 <= j < self.slots@.len() implies #[trigger] self.slot_wf(j) by {
                assert(o.slot_wf(j));
                assert(o.slots@[j].obj == self.slots@[j].obj);
            }
            assert forall|x: int, y: int|
                #![trigger self.arr(x), self.arr(y)]
                0 <= x < self.slots@.len() && 0 <= y < self.slots@.len() && x != y && self.is_arr(
                    x,
                ) && self.is_arr(y) && !self.arr(x).shared implies self.arr(x).buf
                != self.arr(y).buf by {
                assert(o.slots@[x].obj == self.slots@[x].obj);
                assert(o.slots@[y].obj == self.slots@[y].obj);
                assert(o.arr(x) == self.arr(x) && o.arr(y) == self.arr(y));
            }
            assert forall|u: Value| #[trigger] o.live(u) implies self.keeps(o, u, u) || (u == v
                && self.live(u) && self.type_of(u) == o.type_of(u) && self.elems(u) == o.elems(u)
                && self.bignum_val(u) == o.bignum_val(u) && self.coercions(u) == o.coercions(u)
                && self.float_bits(u) == o.float_bits(u) && self.exception_class(u)
                == o.exception_class(u)) by {
                assert(o.slots@[u.slot()].obj == self.slots@[u.slot()].obj);
                if u.slot() != i {
                    assert(o.slots@[u.slot()] == self.slots@[u.slot()]);
                } else {
                    Value::lemma_slot_eq(u, v);
                }
            }
            assert forall|u: Value| #[trigger]
                o.live(u) && o.type_of(u) == ValueType::Array implies self.elems(u) == o.elems(
                u,
            ) by {
                assert(o.slots@[u.slot()].obj == self.slots@[u.slot()].obj);
            }
            assert forall|a: Value, b: Value| #[trigger] self.shares(a, b) == o.shares(a, b) by {
                if o.live(a) {
                    assert(o.slots@[a.slot()].obj == self.slots@[a.slot()].obj);
                }
                if o.live(b) {
                    assert(o.slots@[b.slot()].obj == self.slots@[b.slot()].obj);
                }
            }
        }
    }

    /// Freezes `v`: later writes to it fail.
    pub fn freeze(&mut self, v: Value)
        requires
            old(self).wf(),
            old(self).live(v),
        ensures
            final(self).wf(),
            final(self).flags_only(old(self), v),
            final(self).frozen(v),
            final(self).hidden(v) == old(self).hidden(v),
    {
        let i = self.slot_index(v);
        let hidden = self.slots[i].hidden;
        self.set_flags(v, true, hidden);
    }

    /// Whether `v` is frozen.
    pub fn is_frozen(&self, v: Value) -> (r: bool)
        requires
            self.wf(),
        ensures
            r == self.frozen(v),
    {
        match v.heap_slot() {
            Some(i) => i < self.slots.len() && self.slots[i].frozen,
            None => false,
        }
    }

    /// Takes `v` out of the objects the runtime enumerates. It stays on the
    /// heap, reachable as before.
    pub fn obj_hide(&mut self, v: Value)
        requires
            old(self).wf(),
            old(self).live(v),
        ensures
            final(self).wf(),
            final(self).flags_only(old(self), v),
            final(self).hidden(v),
            final(self).frozen(v) == old(self).frozen(v),
    {
        let i = self.slot_index(v);
        let frozen = self.slots[i].frozen;
        self.set_flags(v, frozen, true);
    }

    /// Makes a hidden object an ordinary, enumerable one again.
    pub fn obj_reveal(&mut self, v: Value)
        requires
            old(self).wf(),
            old(self).live(v),
        ensures
            final(self).wf(),
            final(self).flags_only(old(self), v),
            !final(self).hidden(v),
            final(self).frozen(v) == old(self).frozen(v),
    {
        let i = self.slot_index(v);
        let frozen = self.slots[i].frozen;
        self.set_flags(v, frozen, false);
    }

    /// Whether `v` is hidden from object enumeration.
    pub fn is_hidden(&self, v: Value) -> (r: bool)
        requires
            self.wf(),
        ensures
            r == self.hidden(v),
    {
        match v.heap_slot() {
            Some(i) => i < self.slots.len() && self.slots[i].hidden,
            None => false,
        }
    }

    /// Every object on the heap that is not hidden, in the order of
    /// allocation.
    pub fn each_object(&self) -> (r: Vec<Value>)
        requires
            self.wf(),
        ensures
            forall|u: Value| r@.contains(u) <==> self.live(u) && !self.hidden(u),
            forall|i: int, j: int| 0 <= i < j < r@.len() ==> (#[trigger] r@[i]).slot() < (
            #[trigger] r@[j]).slot(),
    {
        let mut r: Vec<Value> = Vec::new();
        let mut i: usize = 0;
        while i < self.slots.len()
            invariant
                i <= self.slots@.len(),
                self.wf(),
                forall|u: Value|
                    r@.contains(u) <==> self.live(u) && !self.hidden(u) && u.slot() < i,
                forall|k: int| 0 <= k < r@.len() ==> (#[trigger] r@[k]).slot() < i,
                forall|k: int, j: int| 0 <= k < j < r@.len() ==> (#[trigger] r@[k]).slot() < (
                #[trigger] r@[j]).slot(),
            decreases self.slots@.len() - i,
        {
            let ghost before = r@;
            if !self.slots[i].hidden {
                let w = Value::from_slot(i);
                r.push(w);
                proof {
                    assert forall|u: Value| r@.contains(u) <==> self.live(u) && !self.hidden(u)
                        && u.slot() < i + 1 by {
                        if u.slot() == i && self.live(u) {
                            Value::lemma_slot_eq(u, w);
                            assert(r@[before.len() as int] == w);
                        }
                        if r@.contains(u) && u != w {
                            let k = choose|k: int| 0 <= k < r@.len() && r@[k] == u;
                            assert(before[k] == u);
                        }
                        if before.contains(u) {
                            let k = choose|k: int| 0 <= k < before.len() && before[k] == u;
                            assert(r@[k] == u);
                        }
                    }
                }
            } else {
                proof {
                    assert forall|u: Value| r@.contains(u) <==> self.live(u) && !self.hidden(u)
                        && u.slot() < i + 1 by {
                        if u.slot() == i && self.live(u) {
                            assert(self.hidden(u));
                        }
                    }
                }
            }
            i = i + 1;
        }
        r
    }

    /// Puts a bignum on the heap.
    pub fn bignum_new(&mut self, b: BigInt) -> (v: Value)
        requires
            old(self).wf(),
            old(self).has_room(1),
            b.wf(),
        ensures
            final(self).wf(),
            final(self).grown_from(old(self)),
            final(self).slot_count() == old(self).slot_count() + 1,
            !old(self).live(v),
            final(self).type_of(v) == ValueType::Bignum,
            final(self).bignum_val(v) == b@,
            forall|a: Value, c: Value| #[trigger]
                final(self).shares(a, c) == old(self).shares(a, c),
    {
        self.alloc_object(Obj::Bignum(b), false, false)
    }

    /// Puts a float on the heap, given the bits of its IEEE 754 encoding.
    pub fn float_new(&mut self, bits: u64) -> (v: Value)
        requires
            old(self).wf(),
            old(self).has_room(1),
        ensures
            final(self).wf(),
            final(self).grown_from(old(self)),
            final(self).slot_count() == old(self).slot_count() + 1,
            !old(self).live(v),
            final(self).type_of(v) == ValueType::Float,
            final(self).float_bits(v) == bits,
    {
        self.alloc_object(Obj::Float(bits), false, false)
    }

    /// Puts an ordinary object on the heap, with the answers of its
    /// `to_int` and `to_ary` conversion methods.
    pub fn object_new(&mut self, to_int: Coercion, to_ary: Coercion) -> (v: Value)
        requires
            old(self).wf(),
            old(self).has_room(1),
        ensures
            final(self).wf(),
            final(self).grown_from(old(self)),
            final(self).slot_count() == old(self).slot_count() + 1,
            !old(self).live(v),
            final(self).type_of(v) == ValueType::Object,
            final(self).coercions(v) == (to_int, to_ary),
    {
        self.alloc_object(Obj::Object(to_int, to_ary), false, false)
    }

    /// Puts an exception object of class `class` on the heap.
    pub fn exception_new(&mut self, class: ExceptionClass) -> (v: Value)
        requires
            old(self).wf(),
            old(self).has_room(1),
        ensures
            final(self).wf(),
            final(self).grown_from(old(self)),
            final(self).slot_count() == old(self).slot_count() + 1,
            !old(self).live(v),
            final(self).type_of(v) == ValueType::Exception,
            final(self).exception_class(v) == class,
    {
        self.alloc_object(Obj::Exception(class), false, false)
    }

    /// The bignum `v`.
    pub fn bignum(&self, v: Value) -> (r: BigInt)
        requires
            self.wf(),
            self.type_of(v) == ValueType::Bignum,
        ensures
            r.wf(),
            r@ == self.bignum_val(v),
    {
        let i = self.slot_index(v);
        proof {
            assert(self.slot_wf(i as int));
        }
        match &self.slots[i].obj {
            Obj::Bignum(b) => b.copy(),
            _ => BigInt::from_u64(0),
        }
    }

    /// An odd word is an immediate integer, and nothing else is.
    pub proof fn lemma_fixnum_type(&self, v: Value)
        ensures
            (self.type_of(v) == ValueType::Fixnum) == v.is_fixnum_spec(),
            self.type_of(v) == ValueType::Bignum ==> self.live(v),
    {
        Value::lemma_fixnum_not_heap(v);
    }

    /// Every heap is grown from itself.
    pub proof fn lemma_grown_refl(&self)
        ensures
            self.grown_from(self),
    {
    }

    /// A write to a new array leaves what was there before alone.
    pub proof fn lemma_grown_then_changed(&self, mid: &Ruby, old: &Ruby, v: Value)
        requires
            self.changed_only(mid, v),
            mid.grown_from(old),
            !old.live(v),
        ensures
            self.grown_from(old),
    {
        assert forall|u: Value| #[trigger] old.live(u) implies self.keeps(old, u, u) && (old.type_of(
            u,
        ) == ValueType::Array ==> self.elems(u) == old.elems(u)) by {
            assert(mid.live(u));
            assert(self.keeps(mid, u, v));
            assert(u != v);
        }
    }

    /// The conversion methods of ordinary object `v`.
    pub fn coercions_of(&self, v: Value) -> (r: (Coercion, Coercion))
        requires
            self.wf(),
            self.type_of(v) == ValueType::Object,
        ensures
            r == self.coercions(v),
    {
        let i = self.slot_index(v);
        match &self.slots[i].obj {
            Obj::Object(a, b) => (*a, *b),
            _ => (Coercion::Absent, Coercion::Absent),
        }
    }

    /// An array is on the heap.
    pub proof fn lemma_array_live(&self, v: Value)
        requires
            self.type_of(v) == ValueType::Array,
        ensures
            self.live(v),
    {
    }

    /// A write to an array that `old` did not hold leaves what `old` held
    /// as it was.
    pub proof fn lemma_write_keeps_fresh(&self, mid: &Ruby, old: &Ruby, a: Value)
        requires
            mid.grown_from(old),
            !old.live(a),
            mid.type_of(a) == ValueType::Array,
            self.changed_only(mid, a),
            forall|x: Value, y: Value|
                old.live(x) && old.live(y) ==> (#[trigger] mid.shares(x, y) == old.shares(x, y)),
        ensures
            self.grown_from(old),
            self.type_of(a) == ValueType::Array,
            self.frozen(a) == mid.frozen(a),
            forall|x: Value, y: Value|
                old.live(x) && old.live(y) ==> (#[trigger] self.shares(x, y) == old.shares(x, y)),
    {
        self.lemma_grown_then_changed(mid, old, a);
        assert(mid.live(a));
        assert(self.keeps(mid, a, a));
        assert forall|x: Value, y: Value| old.live(x) && old.live(y) implies (#[trigger] self.shares(
            x,
            y,
        ) == old.shares(x, y)) by {
            assert(mid.shares(x, y) == old.shares(x, y));
        }
    }

    /// An array that a write did not target, and that an earlier state
    /// already held, keeps its elements.
    pub proof fn lemma_write_elsewhere(&self, old: &Ruby, new: &Ruby, u: Value, v: Value)
        requires
            self.grown_from(old),
            old.live(u),
            old.type_of(u) == ValueType::Array,
            !old.live(v),
            new.changed_only(self, v),
        ensures
            new.elems(u) == old.elems(u),
    {
        assert(self.live(u));
        assert(new.keeps(self, u, v));
    }

    /// Setting flags changes neither class nor elements.
    pub proof fn lemma_flags_keep_type(&self, old: &Ruby, v: Value)
        requires
            self.flags_only(old, v),
            old.live(v),
        ensures
            self.type_of(v) == old.type_of(v),
            self.elems(v) == old.elems(v),
    {
    }

    /// Setting the flags of a new object leaves what `older` held alone.
    pub proof fn lemma_flags_keep_grown(&self, mid: &Ruby, older: &Ruby, v: Value)
        requires
            self.flags_only(mid, v),
            mid.grown_from(older),
            !older.live(v),
            mid.live(v),
        ensures
            self.grown_from(older),
            self.type_of(v) == mid.type_of(v),
            self.elems(v) == mid.elems(v),
            forall|a: Value, b: Value| #[trigger] self.shares(a, b) == mid.shares(a, b),
    {
        assert forall|u: Value| #[trigger] older.live(u) implies self.keeps(older, u, u) && (
        older.type_of(u) == ValueType::Array ==> self.elems(u) == older.elems(u)) by {
            assert(mid.live(u));
            assert(u != v);
            assert(self.keeps(mid, u, u) || u == v);
        }
    }

    /// `self` is `old` with only the contents of object `v` changed, and
    /// `v` is no array.
    pub closed spec fn only_object_changed(&self, old: &Ruby, v: Value) -> bool {
        &&& self.slots@.len() == old.slots@.len()
        &&& self.buffers@ == old.buffers@
        &&& forall|j: int|
            0 <= j < self.slots@.len() && j != v.slot() ==> #[trigger] self.slots@[j] == old.slots@[j]
        &&& self.live(v)
        &&& self.slots@[v.slot()].frozen == old.slots@[v.slot()].frozen
        &&& self.slots@[v.slot()].hidden == old.slots@[v.slot()].hidden
        &&& obj_type(&self.slots@[v.slot()].obj) == obj_type(&old.slots@[v.slot()].obj)
        &&& !(self.slots@[v.slot()].obj is Array)
        &&& !(self.slots@[v.slot()].obj is Bignum)
    }

    /// What a change to one object's contents keeps of the others.
    pub proof fn lemma_only_object_changed(&self, old: &Ruby, v: Value, u: Value)
        requires
            self.only_object_changed(old, v),
            old.live(u),
        ensures
            self.type_of(u) == old.type_of(u),
            self.frozen(u) == old.frozen(u),
            self.hidden(u) == old.hidden(u),
            old.type_of(u) == ValueType::Array ==> self.elems(u) == old.elems(u),
            old.type_of(u) == ValueType::Bignum ==> self.bignum_val(u) == old.bignum_val(u),
            u != v ==> self.coercions(u) == old.coercions(u) && self.float_bits(u) == old.float_bits(u)
                && self.exception_class(u) == old.exception_class(u) && self.thread_state(u)
                == old.thread_state(u) && self.locals(u) == old.locals(u),
            forall|a: Value, b: Value| #[trigger] self.shares(a, b) == old.shares(a, b),
    {
        if u.slot() == v.slot() {
            Value::lemma_slot_eq(u, v);
        }
        assert forall|a: Value, b: Value| #[trigger] self.shares(a, b) == old.shares(a, b) by {
            if a.is_heap_spec() && 0 <= a.slot() < self.slots@.len() && a.slot() != v.slot() {
                assert(self.slots@[a.slot()] == old.slots@[a.slot()]);
            }
            if b.is_heap_spec() && 0 <= b.slot() < self.slots@.len() && b.slot() != v.slot() {
                assert(self.slots@[b.slot()] == old.slots@[b.slot()]);
            }
        }
    }

    /// Replaces the contents of object `v`, which is no array or bignum,
    /// with `obj` of the same class.
    fn set_object(&mut self, v: Value, obj: Obj)
        requires
            old(self).wf(),
            old(self).live(v),
            obj_type(&obj) == old(self).type_of(v),
            !(obj is Array),
            !(obj is Bignum),
        ensures
            final(self).wf(),
            final(self).only_object_changed(old(self), v),
            final(self).slots@[v.slot()].obj == obj,
    {
        let i = self.slot_index(v);
        let frozen = self.slots[i].frozen;
        let hidden = self.slots[i].hidden;
        self.slots.set(i, Slot { obj, frozen, hidden });
        proof {
            let o = old(self);
            assert forall|j: int| 0 <= j < self.slots@.len() implies #[trigger] self.slot_wf(j) by {
                assert(o.slot_wf(j));
            }
            assert forall|x: int, y: int|
                #![trigger self.arr(x), self.arr(y)]
                0 <= x < self.slots@.len() && 0 <= y < self.slots@.len() && x != y && self.is_arr(
                    x,
                ) && self.is_arr(y) && !self.arr(x).shared implies self.arr(x).buf
                != self.arr(y).buf by {
                assert(o.arr(x) == self.arr(x) && o.arr(y) == self.arr(y));
            }
        }
    }

    /// A new thread, ready to run.
    pub fn thread_new(&mut self) -> (v: Value)
        requires
            old(self).wf(),
            old(self).has_room(1),
        ensures
            final(self).wf(),
            final(self).grown_from(old(self)),
            !old(self).live(v),
            final(self).type_of(v) == ValueType::Thread,
            final(self).thread_state(v) == ThreadState::Runnable,
    {
        let v = self.alloc_object(Obj::Thread(ThreadState::Runnable), false, false);
        proof {
            assert(self.slot_wf(v.slot()));
        }
        v
    }

    /// The scheduling state of thread `v`.
    pub fn thread_state_of(&self, v: Value) -> (r: ThreadState)
        requires
            self.wf(),
            self.type_of(v) == ValueType::Thread,
        ensures
            r == self.thread_state(v),
    {
        let i = self.slot_index(v);
        match &self.slots[i].obj {
            Obj::Thread(t) => *t,
            _ => ThreadState::Dead,
        }
    }

    /// Sets the scheduling state of thread `v`.
    pub fn set_thread_state(&mut self, v: Value, state: ThreadState)
        requires
            old(self).wf(),
            old(self).type_of(v) == ValueType::Thread,
        ensures
            final(self).wf(),
            final(self).only_object_changed(old(self), v),
            final(self).thread_state(v) == state,
    {
        self.set_object(v, Obj::Thread(state));
    }

    /// A new binding with no local variables.
    pub fn binding_new(&mut self) -> (v: Value)
        requires
            old(self).wf(),
            old(self).has_room(1),
        ensures
            final(self).wf(),
            final(self).grown_from(old(self)),
            !old(self).live(v),
            final(self).type_of(v) == ValueType::Binding,
            final(self).locals(v) == Seq::<(Value, Value)>::empty(),
    {
        let l: Vec<(Value, Value)> = Vec::new();
        let v = self.alloc_object(Obj::Binding(l), false, false);
        proof {
            assert(self.slot_wf(v.slot()));
        }
        v
    }

    /// The local variables of binding `v`, copied out.
    pub fn locals_of(&self, v: Value) -> (r: Vec<(Value, Value)>)
        requires
            self.wf(),
            self.type_of(v) == ValueType::Binding,
        ensures
            r@ == self.locals(v),
    {
        let i = self.slot_index(v);
        match &self.slots[i].obj {
            Obj::Binding(l) => {
                let mut r: Vec<(Value, Value)> = Vec::new();
                let mut k: usize = 0;
                while k < l.len()
                    invariant
                        k <= l@.len(),
                        r@ == l@.subrange(0, k as int),
                    decreases l@.len() - k,
                {
                    r.push(l[k]);
                    k = k + 1;
                    assert(r@ =~= l@.subrange(0, k as int));
                }
                assert(l@.subrange(0, l@.len() as int) =~= l@);
                r
            },
            _ => Vec::new(),
        }
    }

    /// Gives binding `v` the local variables `l`.
    pub fn set_locals(&mut self, v: Value, l: Vec<(Value, Value)>)
        requires
            old(self).wf(),
            old(self).type_of(v) == ValueType::Binding,
        ensures
            final(self).wf(),
            final(self).only_object_changed(old(self), v),
            final(self).locals(v) == l@,
    {
        self.set_object(v, Obj::Binding(l));
    }

    /// The collector's view of a region of native memory that may hold
    /// values: every word that references a live heap object is taken as a
    /// reference to it, whatever it really holds. A word that only looks
    /// like a reference keeps its object alive too; a real reference is
    /// never missed.
    pub fn mark_maybe(&self, words: &Vec<u64>) -> (r: Vec<Value>)
        requires
            self.wf(),
        ensures
            r@.map_values(|v: Value| v.word_spec()) == heap_refs(words@, self.slot_count()),
            forall|k: int| 0 <= k < r@.len() ==> self.live(#[trigger] r@[k]),
    {
        let n = self.slots.len();
        let mut r: Vec<Value> = Vec::new();
        let mut k: usize = 0;
        while k < words.len()
            invariant
                k <= words@.len(),
                n == self.slots@.len(),
                r@.map_values(|v: Value| v.word_spec()) == heap_refs(
                    words@.subrange(0, k as int),
                    n as nat,
                ),
                forall|j: int| 0 <= j < r@.len() ==> self.live(#[trigger] r@[j]),
            decreases words@.len() - k,
        {
            let w = words[k];
            proof {
                assert(words@.subrange(0, k + 1).drop_last() =~= words@.subrange(0, k as int));
            }
            if w != 0 && w % 8 == 0 && w / 8 - 1 < n as u64 {
                let v = Value::from_word(w);
                r.push(v);
                proof {
                    assert(r@.map_values(|v: Value| v.word_spec()) =~= heap_refs(
                        words@.subrange(0, k as int),
                        n as nat,
                    ).push(w));
                }
            }
            k = k + 1;
        }
        assert(words@.subrange(0, words@.len() as int) =~= words@);
        r
    }

    /// Wraps a native payload in a new heap object without a class: object
    /// enumeration does not see it, and the collector marks through it.
    pub fn data_wrap(&mut self, payload: Vec<u64>) -> (v: Value)
        requires
            old(self).wf(),
            old(self).has_room(1),
        ensures
            final(self).wf(),
            final(self).grown_from(old(self)),
            !old(self).live(v),
            final(self).type_of(v) == ValueType::Data,
            final(self).hidden(v),
            final(self).payload(v) == payload@,
    {
        self.alloc_object(Obj::Data(payload), false, true)
    }

    /// The mark step of data object `v`: its whole payload is scanned, and
    /// every word that references a live object marks that object.
    pub fn data_mark(&self, v: Value) -> (r: Vec<Value>)
        requires
            self.wf(),
            self.type_of(v) == ValueType::Data,
        ensures
            r@.map_values(|u: Value| u.word_spec()) == heap_refs(self.payload(v), self.slot_count()),
            forall|k: int| 0 <= k < r@.len() ==> self.live(#[trigger] r@[k]),
    {
        let i = self.slot_index(v);
        match &self.slots[i].obj {
            Obj::Data(w) => self.mark_maybe(w),
            _ => {
                let none: Vec<u64> = Vec::new();
                assert(none@ =~= Seq::<u64>::empty());
                self.mark_maybe(&none)
            },
        }
    }

    /// A new open file object for descriptor `fd`.
    pub fn file_new(&mut self, fd: i32) -> (v: Value)
        requires
            old(self).wf(),
            old(self).has_room(1),
        ensures
            final(self).wf(),
            final(self).grown_from(old(self)),
            !old(self).live(v),
            final(self).type_of(v) == ValueType::File,
    {
        self.alloc_object(Obj::File(fd), false, false)
    }

    /// Whether at most one thread is alive.
    pub fn thread_alone(&self) -> (r: bool)
        requires
            self.wf(),
        ensures
            r == (self.live_threads() <= 1),
    {
        let mut count: usize = 0;
        let mut i: usize = 0;
        while i < self.slots.len()
            invariant
                i <= self.slots@.len(),
                count == threads_alive(self.slots@, i as int),
                count <= i,
            decreases self.slots@.len() - i,
        {
            match &self.slots[i].obj {
                Obj::Thread(ThreadState::Dead) => {},
                Obj::Thread(_) => {
                    count = count + 1;
                },
                _ => {},
            }
            i = i + 1;
        }
        count <= 1
    }

    /// A change to object `v` changes the count of live threads by no more
    /// than what slot `v` itself counts.
    proof fn lemma_threads_alive_set(&self, old: &Ruby, v: Value, n: int)
        requires
            self.only_object_changed(old, v),
            0 <= n <= self.slots@.len(),
        ensures
            n <= v.slot() ==> threads_alive(self.slots@, n) == threads_alive(old.slots@, n),
            n > v.slot() ==> threads_alive(self.slots@, n) + threads_alive(
                old.slots@,
                v.slot() + 1,
            ) == threads_alive(old.slots@, n) + threads_alive(self.slots@, v.slot() + 1),
        decreases n,
    {
        if n > 0 {
            self.lemma_threads_alive_set(old, v, n - 1);
            if n - 1 != v.slot() {
                assert(self.slots@[n - 1] == old.slots@[n - 1]);
            }
        }
    }

    /// Puts thread `current` to sleep until it is woken. When it is the
    /// only live thread nothing could wake it: `ThreadError`.
    pub fn thread_stop(&mut self, current: Value) -> (r: Result<(), Error>)
        requires
            old(self).wf(),
            old(self).type_of(current) == ValueType::Thread,
            old(self).thread_state(current) != ThreadState::Dead,
        ensures
            old(self).live_threads() <= 1 ==> r == Err::<(), Error>(
                Error::Raised(ExceptionClass::ThreadError),
            ) && *final(self) == *old(self),
            old(self).live_threads() > 1 ==> r == Ok::<(), Error>(()) && final(self).wf()
                && final(self).only_object_changed(old(self), current) && final(self).thread_state(
                current,
            ) == ThreadState::Sleeping && final(self).live_threads() == old(self).live_threads(),
    {
        if self.thread_alone() {
            return Err(Error::Raised(ExceptionClass::ThreadError));
        }
        self.set_thread_state(current, ThreadState::Sleeping);
        proof {
            let o = old(self);
            let i = current.slot();
            self.lemma_threads_alive_set(o, current, self.slots@.len() as int);
            assert(threads_alive(self.slots@, i + 1) == threads_alive(self.slots@, i) + 1);
            assert(threads_alive(o.slots@, i + 1) == threads_alive(o.slots@, i) + 1);
            self.lemma_threads_alive_set(o, current, i);
        }
        Ok(())
    }

    /// The elements of array `v`, read in place. The view borrows the
    /// runtime, so no write, allocation or collection can happen while it
    /// lives.
    pub fn ary_slice<'a>(&'a self, v: Value) -> (r: &'a [Value])
        requires
            self.wf(),
            self.type_of(v) == ValueType::Array,
        ensures
            r@ == self.elems(v),
    {
        proof {
            self.lemma_array_slot(v);
        }
        let i = self.slot_index(v);
        let rec = self.arr_rec(i);
        let blen = self.buffers[rec.buf].len();
        vstd::slice::slice_subrange(self.buffers[rec.buf].as_slice(), rec.start, rec.start + rec.len)
    }

    /// An integer keeps its class and value while the heap's objects are
    /// kept.
    pub proof fn lemma_kept_integer(&self, old: &Ruby, v: Value)
        requires
            old.wf(),
            self.preserves(old),
            old.type_of(v) == ValueType::Fixnum || old.type_of(v) == ValueType::Bignum,
        ensures
            self.type_of(v) == old.type_of(v),
            v.is_fixnum_spec() || self.bignum_val(v) == old.bignum_val(v),
    {
        old.lemma_fixnum_type(v);
        self.lemma_fixnum_type(v);
        if old.type_of(v) == ValueType::Bignum {
            assert(old.live(v));
        }
    }

    /// Every object of `old` is in `self` with its class, flags and
    /// contents, arrays' elements aside.
    pub closed spec fn preserves(&self, old: &Ruby) -> bool {
        &&& old.slots@.len() <= self.slots@.len()
        &&& forall|v: Value| #[trigger] old.live(v) ==> self.keeps(old, v, v)
    }

    pub proof fn lemma_grown_preserves(&self, old: &Ruby)
        requires
            self.grown_from(old),
        ensures
            self.preserves(old),
    {
    }

    pub proof fn lemma_changed_preserves(&self, old: &Ruby, a: Value)
        requires
            self.changed_only(old, a),
        ensures
            self.preserves(old),
            self.slot_count() == old.slot_count(),
    {
        assert forall|v: Value| #[trigger] old.live(v) implies self.keeps(old, v, v) by {
            assert(self.keeps(old, v, a));
        }
    }

    pub proof fn lemma_preserves_trans(&self, mid: &Ruby, old: &Ruby)
        requires
            self.preserves(mid),
            mid.preserves(old),
        ensures
            self.preserves(old),
    {
        assert forall|v: Value| #[trigger] old.live(v) implies self.keeps(old, v, v) by {
            assert(mid.live(v));
            assert(mid.keeps(old, v, v));
            assert(self.keeps(mid, v, v));
        }
    }

    pub proof fn lemma_grown_trans(&self, mid: &Ruby, old: &Ruby)
        requires
            self.grown_from(mid),
            mid.grown_from(old),
        ensures
            self.grown_from(old),
    {
        assert forall|v: Value| #[trigger] old.live(v) implies self.keeps(old, v, v) && (old.type_of(
            v,
        ) == ValueType::Array ==> self.elems(v) == old.elems(v)) by {
            assert(mid.live(v));
        }
    }

    /// A new array stays new, with its elements and flags, as the heap
    /// grows further.
    pub proof fn lemma_fresh_grown(&self, mid: &Ruby, old: &Ruby, a: Value)
        requires
            mid.grown_from(old),
            self.grown_from(mid),
            !old.live(a),
            mid.type_of(a) == ValueType::Array,
            forall|x: Value, y: Value|
                old.live(x) && old.live(y) ==> (#[trigger] mid.shares(x, y) == old.shares(x, y)),
            forall|x: Value, y: Value|
                mid.live(x) && mid.live(y) ==> (#[trigger] self.shares(x, y) == mid.shares(x, y)),
        ensures
            self.grown_from(old),
            self.type_of(a) == ValueType::Array,
            self.frozen(a) == mid.frozen(a),
            self.elems(a) == mid.elems(a),
            forall|x: Value, y: Value|
                old.live(x) && old.live(y) ==> (#[trigger] self.shares(x, y) == old.shares(x, y)),
    {
        self.lemma_grown_trans(mid, old);
        assert(mid.live(a));
        assert forall|x: Value, y: Value| old.live(x) && old.live(y) implies (#[trigger] self.shares(
            x,
            y,
        ) == old.shares(x, y)) by {
            assert(mid.live(x) && mid.live(y));
            assert(mid.shares(x, y) == old.shares(x, y));
        }
    }

    /// What a grown heap keeps of an object that was already there.
    pub proof fn lemma_grown_keeps(&self, old: &Ruby, v: Value)
        requires
            self.grown_from(old),
            old.live(v),
        ensures
            self.live(v),
            self.type_of(v) == old.type_of(v),
            self.frozen(v) == old.frozen(v),
            self.hidden(v) == old.hidden(v),
            old.type_of(v) == ValueType::Array ==> self.elems(v) == old.elems(v),
            old.type_of(v) == ValueType::Bignum ==> self.bignum_val(v) == old.bignum_val(v),
            self.coercions(v) == old.coercions(v),
            self.float_bits(v) == old.float_bits(v),
            self.exception_class(v) == old.exception_class(v),
    {
        assert(self.keeps(old, v, v));
    }

    /// What a write to array `a` keeps of every object: all but `a`'s
    /// elements.
    pub proof fn lemma_changed_keeps(&self, old: &Ruby, a: Value, v: Value)
        requires
            self.changed_only(old, a),
            old.live(v),
        ensures
            self.live(v),
            self.type_of(v) == old.type_of(v),
            self.frozen(v) == old.frozen(v),
            self.hidden(v) == old.hidden(v),
            old.type_of(v) == ValueType::Array && v != a ==> self.elems(v) == old.elems(v),
            old.type_of(v) == ValueType::Bignum ==> self.bignum_val(v) == old.bignum_val(v),
    {
        assert(self.keeps(old, v, a));
    }

    /// What a change of flags on `a` keeps of every object: all but `a`'s
    /// flags.
    pub proof fn lemma_flags_keeps(&self, old: &Ruby, a: Value, v: Value)
        requires
            self.flags_only(old, a),
            old.live(v),
        ensures
            self.live(v),
            self.type_of(v) == old.type_of(v),
            old.type_of(v) == ValueType::Array ==> self.elems(v) == old.elems(v),
            v != a ==> self.frozen(v) == old.frozen(v) && self.hidden(v) == old.hidden(v),
            forall|x: Value, y: Value| #[trigger] self.shares(x, y) == old.shares(x, y),
    {
        assert(self.keeps(old, v, v) || v == a);
    }

    /// Sharing storage is symmetric.
    pub proof fn lemma_shares_symmetric(&self, a: Value, b: Value)
        ensures
            self.shares(a, b) == self.shares(b, a),
    {
    }
}

} // verus!
