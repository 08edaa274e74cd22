//! Tagged machine words: immediates and references to heap slots.
use vstd::prelude::*;

verus! {

pub const QNIL: u64 = 0x04;

pub const QTRUE: u64 = 0x14;

pub const QFALSE: u64 = 0x24;

/// Low byte of an immediate symbol; the symbol's id stands above it.
pub const SYMBOL_FLAG: u64 = 0x0c;

/// The largest integer held as an immediate.
pub const FIXNUM_MAX: i64 = 4611686018427387903;

/// The smallest integer held as an immediate.
pub const FIXNUM_MIN: i64 = -4611686018427387904;

/// Heap slots a runtime can hold; references to them stay within a word.
pub const MAX_SLOTS: usize = 1073741824;

/// A value of the runtime as one machine word. The all-zero word is never a
/// value.
#[derive(Clone, Copy, PartialEq, Eq, Structural, Debug)]
pub struct Value {
    word: u64,
}

/// Whether `n` fits an immediate.
pub open spec fn fixnum_range(n: int) -> bool {
    FIXNUM_MIN <= n <= FIXNUM_MAX
}

/// The word that holds the immediate integer `n`: `2n + 1` in two's complement.
pub open spec fn fixnum_word(n: int) -> int {
    if n >= 0 {
        2 * n + 1
    } else {
        18446744073709551616 + 2 * n + 1
    }
}

/// The integer an odd word holds.
pub open spec fn fixnum_of_word(w: u64) -> int {
    if w < 9223372036854775808 {
        (w - 1) / 2
    } else {
        -((18446744073709551615 - w) / 2) - 1
    }
}

/// Whether a word references a heap slot, and which.
pub open spec fn is_heap_word(w: u64) -> bool {
    w != 0 && w % 8 == 0
}

/// The heap slot a reference word names.
pub open spec fn slot_of_word(w: u64) -> int {
    w / 8 - 1
}

impl Value {
    /// The raw word.
    pub closed spec fn word_spec(&self) -> u64 {
        self.word
    }

    /// The raw word.
    pub fn as_word(&self) -> (r: u64)
        ensures
            r == self.word_spec(),
    {
        self.word
    }

    /// A value is never the zero word.
    pub closed spec fn wf(&self) -> bool {
        self.word != 0
    }

    /// The `nil` value.
    pub closed spec fn qnil() -> Value {
        Value { word: QNIL }
    }

    pub fn nil() -> (r: Value)
        ensures
            r.word_spec() == QNIL,
            r == Value::qnil(),
            r.wf(),
    {
        Value { word: QNIL }
    }

    /// The value `true` or `false`.
    pub fn from_bool(b: bool) -> (r: Value)
        ensures
            r.word_spec() == if b { QTRUE } else { QFALSE },
            r.wf(),
    {
        if b {
            Value { word: QTRUE }
        } else {
            Value { word: QFALSE }
        }
    }

    /// The immediate symbol with the given id.
    pub fn symbol(id: u32) -> (r: Value)
        ensures
            r.word_spec() == id * 256 + SYMBOL_FLAG,
            r.wf(),
    {
        Value { word: (id as u64) * 256 + SYMBOL_FLAG }
    }

    /// The immediate for `n`, when `n` is in the immediate range.
    pub fn fixnum(n: i64) -> (r: Option<Value>)
        ensures
            r is Some <==> fixnum_range(n as int),
            r matches Some(v) ==> v.word_spec() == fixnum_word(n as int) && v.is_fixnum_spec()
                && v.fixnum_val() == n && v.wf(),
    {
        if FIXNUM_MIN <= n && n <= FIXNUM_MAX {
            if n >= 0 {
                Some(Value { word: 2 * (n as u64) + 1 })
            } else {
                let m: u64 = (-(n + 1)) as u64;
                Some(Value { word: u64::MAX - 2 * m })
            }
        } else {
            None
        }
    }

    /// Whether the low bit marks an immediate integer.
    pub closed spec fn is_fixnum_spec(&self) -> bool {
        self.word % 2 == 1
    }

    /// Whether the low bit marks an immediate integer.
    pub fn is_fixnum(&self) -> (r: bool)
        ensures
            r == self.is_fixnum_spec(),
    {
        self.word % 2 == 1
    }

    /// The integer an immediate holds.
    pub closed spec fn fixnum_val(&self) -> int {
        fixnum_of_word(self.word)
    }

    /// The integer an immediate holds.
    pub fn fixnum_to_i64(&self) -> (r: i64)
        requires
            self.is_fixnum_spec(),
        ensures
            r == self.fixnum_val(),
            fixnum_range(r as int),
    {
        if self.word < 9223372036854775808 {
            ((self.word - 1) / 2) as i64
        } else {
            let m: u64 = (u64::MAX - self.word) / 2;
            -(m as i64) - 1
        }
    }

    /// Whether the word references a heap slot.
    pub closed spec fn is_heap_spec(&self) -> bool {
        is_heap_word(self.word)
    }

    /// The heap slot this references.
    pub closed spec fn slot(&self) -> int {
        slot_of_word(self.word)
    }

    /// Whether the word references a heap slot.
    pub fn is_heap(&self) -> (r: bool)
        ensures
            r == self.is_heap_spec(),
            r == is_heap_word(self.word_spec()),
    {
        self.word != 0 && self.word % 8 == 0
    }

    /// The heap slot this references, if any.
    pub fn heap_slot(&self) -> (r: Option<usize>)
        ensures
            r is Some <==> self.is_heap_spec() && self.slot() < MAX_SLOTS,
            r matches Some(i) ==> i == self.slot(),
    {
        if self.word != 0 && self.word % 8 == 0 && self.word / 8 - 1 < MAX_SLOTS as u64 {
            Some((self.word / 8 - 1) as usize)
        } else {
            None
        }
    }

    /// An immediate integer is no reference.
    pub proof fn lemma_fixnum_not_heap(v: Value)
        ensures
            v.is_fixnum_spec() ==> !v.is_heap_spec(),
            v.is_fixnum_spec() == (v.word_spec() % 2 == 1),
    {
    }

    /// The value a non-zero word would be.
    pub fn from_word(w: u64) -> (r: Value)
        requires
            w != 0,
        ensures
            r.word_spec() == w,
            r.wf(),
            r.is_heap_spec() == is_heap_word(w),
            r.is_heap_spec() ==> r.slot() == slot_of_word(w),
    {
        Value { word: w }
    }

    /// Two references to one slot are one value.
    pub proof fn lemma_slot_eq(a: Value, b: Value)
        requires
            a.is_heap_spec(),
            b.is_heap_spec(),
            a.slot() == b.slot(),
        ensures
            a == b,
    {
        assert(a.word == b.word);
    }

    /// The reference to heap slot `i`.
    pub fn from_slot(i: usize) -> (r: Value)
        requires
            i < MAX_SLOTS,
        ensures
            r.is_heap_spec(),
            r.slot() == i,
            r.wf(),
    {
        let w: u64 = (i as u64 + 1) * 8;
        assert(w % 8 == 0 && w / 8 - 1 == i);
        Value { word: w }
    }
}

} // verus!
