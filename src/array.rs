//! Arrays of the runtime. Deriving an array (`dup`, `subseq`) shares the
//! source's storage; writing to either side gives the written array a
//! private copy first.
use crate::convert::{IntoValue, TryConvert};
use crate::error::{Error, ExceptionClass, ValueType};
use crate::integer::{int_value, is_integer_type, Integer};
use crate::runtime::{Coercion, Ruby};
use crate::value::Value;
use std::cmp::Ordering;
use std::marker::PhantomData;
use vstd::prelude::*;

verus! {

/// Values gathered for an append are handed over in batches of this many.
pub const BATCH: usize = 128;

/// Whether every item is a value, not an error.
pub open spec fn all_ok<T, E>(s: Seq<Result<T, E>>) -> bool {
    forall|i: int| 0 <= i < s.len() ==> (#[trigger] s[i]) is Ok
}

/// `e` is the error of the first item that is no value.
pub open spec fn first_error<T, E>(s: Seq<Result<T, E>>, e: E) -> bool {
    exists|k: int|
        0 <= k < s.len() && s[k] == Err::<T, E>(e) && all_ok(s.subrange(0, k))
}

/// The runtime values `vals` stand, one by one, for the items of `items`,
/// which are all values.
pub open spec fn stand_for<T: IntoValue, E>(
    ruby: &Ruby,
    items: Seq<Result<T, E>>,
    vals: Seq<Value>,
) -> bool {
    vals.len() == items.len() && forall|k: int|
        0 <= k < items.len() ==> (#[trigger] items[k])->Ok_0.represents(ruby, vals[k])
}

/// What stands for native values keeps standing for them while the heap's
/// objects are kept.
pub proof fn lemma_stand_for_kept<T: IntoValue, E>(
    items: Seq<Result<T, E>>,
    vals: Seq<Value>,
    old: &Ruby,
    new: &Ruby,
)
    requires
        old.wf(),
        stand_for(old, items, vals),
        new.preserves(old),
    ensures
        stand_for(new, items, vals),
{
    assert forall|k: int| 0 <= k < items.len() implies (#[trigger] items[k])->Ok_0.represents(
        new,
        vals[k],
    ) by {
        items[k]->Ok_0.lemma_represents_grown(old, new, vals[k]);
    }
}

/// The items of `items` wrapped as values.
pub open spec fn all_values<T, E>(items: Seq<T>) -> Seq<Result<T, E>> {
    items.map_values(|x: T| Ok::<T, E>(x))
}

/// The error a write to a frozen object raises.
pub open spec fn frozen_error() -> Error {
    Error::Raised(ExceptionClass::FrozenError)
}

/// `new` is `old` after array `a` was given the elements `items`.
pub open spec fn written(new: &Ruby, old: &Ruby, a: Value, items: Seq<Value>) -> bool {
    &&& new.wf()
    &&& new.changed_only(old, a)
    &&& new.slot_count() == old.slot_count()
    &&& new.elems(a) == items
    &&& forall|u: Value| !#[trigger] new.shares(a, u) && !new.shares(u, a)
}

/// What a write of `items` to array `a` does: a frozen array refuses it and
/// stays as it was.
pub open spec fn write_outcome(
    new: &Ruby,
    old: &Ruby,
    a: Value,
    items: Seq<Value>,
    r: Result<(), Error>,
) -> bool {
    if old.frozen(a) {
        r == Err::<(), Error>(frozen_error()) && new == old
    } else {
        r == Ok::<(), Error>(()) && written(new, old, a, items)
    }
}

/// `new` is `old` with a new array `a`, holding `items`, that shares storage
/// with no other array.
pub open spec fn fresh_array(new: &Ruby, old: &Ruby, a: Value, items: Seq<Value>) -> bool {
    &&& new.wf()
    &&& new.grown_from(old)
    &&& !old.live(a)
    &&& new.type_of(a) == ValueType::Array
    &&& new.elems(a) == items
    &&& !new.frozen(a)
    &&& forall|x: Value, y: Value|
        old.live(x) && old.live(y) ==> (#[trigger] new.shares(x, y) == old.shares(x, y))
}

/// A new array stays new, and the rest of the heap as it was, through a
/// write to it.
pub proof fn lemma_fresh_after_write(new: &Ruby, mid: &Ruby, old: &Ruby, a: Value)
    requires
        fresh_array(mid, old, a, mid.elems(a)),
        written(new, mid, a, new.elems(a)),
    ensures
        fresh_array(new, old, a, new.elems(a)),
{
    new.lemma_write_keeps_fresh(mid, old, a);
}

/// Copy-on-write: a duplicate shares its source's storage, and once it is
/// written the two no longer share and the source keeps its elements.
pub proof fn law_copy_on_write(
    r0: &Ruby,
    r1: &Ruby,
    r2: &Ruby,
    a: Value,
    b: Value,
    items: Seq<Value>,
)
    requires
        r0.wf(),
        r0.type_of(a) == ValueType::Array,
        fresh_array(r1, r0, b, r0.elems(a)),
        r1.shares(a, b),
        written(r2, r1, b, items),
    ensures
        r1.shares(a, b),
        r1.shares(b, a),
        !r2.shares(a, b),
        !r2.shares(b, a),
        r2.type_of(a) == ValueType::Array,
        r2.elems(a) == r0.elems(a),
        r2.elems(b) == items,
{
    r0.lemma_array_live(a);
    r1.lemma_write_elsewhere(r0, r2, a, b);
    r1.lemma_shares_symmetric(a, b);
    r1.lemma_grown_keeps(r0, a);
    r2.lemma_changed_keeps(r1, b, a);
    assert(!r2.shares(b, a) && !r2.shares(a, b));
}

/// What converting `v` to an array gives: an array as it is; an object
/// through its `to_ary` method, whose exception is the error; anything else
/// is a conversion error.
pub open spec fn ary_conversion(ruby: &Ruby, v: Value, r: Result<RArray, Error>) -> bool {
    let t = ruby.type_of(v);
    if t == ValueType::Array {
        r matches Ok(a) && a@ == v
    } else if t == ValueType::Object {
        match ruby.coercions(v).1 {
            Coercion::Absent => r == Err::<RArray, Error>(Error::Conversion(ValueType::Object)),
            Coercion::Raises(e) => r == Err::<RArray, Error>(Error::Foreign(e)),
            Coercion::Returns(x) => if ruby.type_of(x) == ValueType::Array {
                r matches Ok(a) && a@ == x
            } else {
                r == Err::<RArray, Error>(Error::Conversion(ValueType::Object))
            },
        }
    } else {
        r == Err::<RArray, Error>(Error::Conversion(t))
    }
}

/// Whether `v` is an array or an object that answers `to_ary`.
pub open spec fn converts_to_array(ruby: &Ruby, v: Value) -> bool {
    ruby.type_of(v) == ValueType::Array || (ruby.type_of(v) == ValueType::Object && !(ruby.coercions(
        v,
    ).1 is Absent))
}

/// Whether every element of `s` converts to `T`.
pub open spec fn all_convert<T: TryConvert>(ruby: &Ruby, s: Seq<Value>) -> bool {
    forall|j: int| 0 <= j < s.len() ==> T::converts(ruby, #[trigger] s[j])
}

/// `out` holds what each element of `s` converts to.
pub open spec fn converted<T: TryConvert>(ruby: &Ruby, s: Seq<Value>, out: Seq<T>) -> bool {
    out.len() == s.len() && forall|j: int|
        0 <= j < s.len() ==> T::conversion(ruby, #[trigger] s[j], Ok(out[j]))
}

/// `e` is the error of the first element of `s` that does not convert.
pub open spec fn first_failure<T: TryConvert>(ruby: &Ruby, s: Seq<Value>, e: Error) -> bool {
    exists|k: int|
        0 <= k < s.len() && !T::converts(ruby, #[trigger] s[k]) && T::conversion(ruby, s[k], Err(e))
            && all_convert::<T>(ruby, s.subrange(0, k))
}

/// A new array stays new, with its elements, as the heap grows further.
pub proof fn lemma_fresh_after_grow(new: &Ruby, mid: &Ruby, old: &Ruby, a: Value)
    requires
        fresh_array(mid, old, a, mid.elems(a)),
        new.wf(),
        new.grown_from(mid),
        forall|x: Value, y: Value|
            mid.live(x) && mid.live(y) ==> (#[trigger] new.shares(x, y) == mid.shares(x, y)),
    ensures
        fresh_array(new, old, a, new.elems(a)),
        new.elems(a) == mid.elems(a),
{
    new.lemma_fresh_grown(mid, old, a);
}

/// The runtime's `==` on two values: the same value, or integers of equal
/// value.
pub open spec fn values_equal(ruby: &Ruby, a: Value, b: Value) -> bool {
    a == b || (is_integer_type(ruby.type_of(a)) && is_integer_type(ruby.type_of(b)) && int_value(
        ruby,
        a,
    ) == int_value(ruby, b))
}

/// `s` without the elements equal to `item`.
pub open spec fn without(ruby: &Ruby, s: Seq<Value>, item: Value) -> Seq<Value>
    decreases s.len(),
{
    if s.len() == 0 {
        s
    } else {
        let rest = without(ruby, s.drop_last(), item);
        if values_equal(ruby, s.last(), item) {
            rest
        } else {
            rest.push(s.last())
        }
    }
}

/// Whether some element of `s` equals `item`.
pub open spec fn holds(ruby: &Ruby, s: Seq<Value>, item: Value) -> bool {
    exists|k: int| 0 <= k < s.len() && values_equal(ruby, #[trigger] s[k], item)
}

/// An element added at the end is found when it equals `item`.
pub proof fn lemma_holds_push(ruby: &Ruby, s: Seq<Value>, x: Value, item: Value)
    ensures
        holds(ruby, s.push(x), item) == (holds(ruby, s, item) || values_equal(ruby, x, item)),
{
    if holds(ruby, s, item) {
        let k = choose|k: int| 0 <= k < s.len() && values_equal(ruby, #[trigger] s[k], item);
        assert(s.push(x)[k] == s[k]);
    }
    if values_equal(ruby, x, item) {
        assert(s.push(x)[s.len() as int] == x);
    }
    if holds(ruby, s.push(x), item) {
        let k = choose|k: int| 0 <= k < s.len() + 1 && values_equal(ruby, #[trigger] s.push(x)[k], item);
        if k < s.len() {
            assert(s[k] == s.push(x)[k]);
        }
    }
}

/// Whether `e` is an array whose element `pos` equals `key`.
pub open spec fn pair_match(ruby: &Ruby, e: Value, key: Value, pos: int) -> bool {
    ruby.type_of(e) == ValueType::Array && pos < ruby.elems(e).len() && values_equal(
        ruby,
        ruby.elems(e)[pos],
        key,
    )
}

/// `r` is the first element of `s` that `pair_match`es, or `nil` when none
/// does.
pub open spec fn first_pair(ruby: &Ruby, s: Seq<Value>, key: Value, pos: int, r: Value) -> bool {
    if exists|k: int| 0 <= k < s.len() && pair_match(ruby, #[trigger] s[k], key, pos) {
        exists|k: int|
            0 <= k < s.len() && r == s[k] && pair_match(ruby, #[trigger] s[k], key, pos) && forall|
                j: int,
            | 0 <= j < k ==> !pair_match(ruby, #[trigger] s[j], key, pos)
    } else {
        r == Value::qnil()
    }
}

/// Whether every element of `s` is an integer.
pub open spec fn all_integers(ruby: &Ruby, s: Seq<Value>) -> bool {
    forall|i: int| 0 <= i < s.len() ==> is_integer_type(ruby.type_of(#[trigger] s[i]))
}

/// Whether the elements of `s` ascend by integer value.
pub open spec fn ascending(ruby: &Ruby, s: Seq<Value>) -> bool {
    forall|i: int, j: int|
        0 <= i < j < s.len() ==> int_value(ruby, #[trigger] s[i]) <= int_value(ruby, #[trigger] s[j])
}

/// How two elements compare: by value for two integers, equal for one value
/// twice, and not at all otherwise.
pub open spec fn elem_cmp(ruby: &Ruby, a: Value, b: Value) -> Option<Ordering> {
    if a == b {
        Some(Ordering::Equal)
    } else if is_integer_type(ruby.type_of(a)) && is_integer_type(ruby.type_of(b)) {
        if int_value(ruby, a) < int_value(ruby, b) {
            Some(Ordering::Less)
        } else if int_value(ruby, a) == int_value(ruby, b) {
            Some(Ordering::Equal)
        } else {
            Some(Ordering::Greater)
        }
    } else {
        None
    }
}

/// Lexicographic comparison of `s` and `t` from element `k` on: the first
/// unequal pair decides, a pair that does not compare makes the whole
/// comparison fail, and a sequence that runs out first is the lesser.
pub open spec fn seq_cmp(ruby: &Ruby, s: Seq<Value>, t: Seq<Value>, k: int) -> Option<Ordering>
    decreases s.len() - k,
{
    if k >= s.len() || k >= t.len() || k < 0 {
        if s.len() < t.len() {
            Some(Ordering::Less)
        } else if s.len() == t.len() {
            Some(Ordering::Equal)
        } else {
            Some(Ordering::Greater)
        }
    } else {
        match elem_cmp(ruby, s[k], t[k]) {
            Some(Ordering::Equal) => seq_cmp(ruby, s, t, k + 1),
            c => c,
        }
    }
}

/// An index counted from the end when negative.
pub open spec fn resolve_index(len: int, offset: int) -> int {
    if offset < 0 {
        len + offset
    } else {
        offset
    }
}

/// `s` back to front.
pub open spec fn reversed(s: Seq<Value>) -> Seq<Value> {
    Seq::new(s.len(), |i: int| s[s.len() - 1 - i])
}

/// `s` rotated so that the element at `rot` (counted modulo the length)
/// comes first.
pub open spec fn rotated(s: Seq<Value>, rot: int) -> Seq<Value> {
    if s.len() == 0 {
        s
    } else {
        Seq::new(s.len(), |i: int| s[(i + rot % (s.len() as int)) % (s.len() as int)])
    }
}

/// `s` cut or padded with `nil` to `n` elements.
pub open spec fn resized(s: Seq<Value>, n: int) -> Seq<Value> {
    if n <= s.len() {
        s.subrange(0, n)
    } else {
        s + Seq::new((n - s.len()) as nat, |i: int| Value::qnil())
    }
}

/// `rot` modulo `n`, for `n > 0`.
fn rotation(rot: isize, n: usize) -> (r: usize)
    requires
        n > 0,
    ensures
        r == rot as int % n as int,
        r < n,
{
    if rot >= 0 {
        (rot as usize) % n
    } else {
        let back: usize = if rot == isize::MIN {
            isize::MAX as usize
        } else {
            (-(rot + 1)) as usize
        };
        let m: usize = back % n;
        let r: usize = n - 1 - m;
        proof {
            let q = back as int / n as int;
            vstd::arithmetic::div_mod::lemma_fundamental_div_mod(back as int, n as int);
            assert(rot as int == (-q - 1) * n + r) by (nonlinear_arith)
                requires
                    back == -(rot + 1),
                    back == n * q + m,
                    r == n - 1 - m,
            ;
            vstd::arithmetic::div_mod::lemma_fundamental_div_mod_converse_mod(
                rot as int,
                n as int,
                -q - 1,
                r as int,
            );
        }
        r
    }
}

/// The integer that integer value `v` is.
fn int_of(ruby: &Ruby, v: Value) -> (r: Integer)
    requires
        ruby.wf(),
        is_integer_type(ruby.type_of(v)),
    ensures
        r@ == int_value(ruby, v),
{
    match Integer::from_value(ruby, v) {
        Some(i) => i,
        None => Integer::from_i64(0),
    }
}

/// What removing the last element of array `a` does: a frozen array
/// refuses, an empty one gives `nil`.
pub open spec fn pop_outcome(new: &Ruby, old: &Ruby, a: Value, r: Result<Value, Error>) -> bool {
    let s = old.elems(a);
    if old.frozen(a) {
        r == Err::<Value, Error>(frozen_error()) && new == old
    } else if s.len() == 0 {
        r == Ok::<Value, Error>(Value::qnil()) && written(new, old, a, s)
    } else {
        r == Ok::<Value, Error>(s.last()) && written(new, old, a, s.drop_last())
    }
}

/// What removing the first element of array `a` does: a frozen array
/// refuses, an empty one gives `nil`.
pub open spec fn shift_outcome(new: &Ruby, old: &Ruby, a: Value, r: Result<Value, Error>) -> bool {
    let s = old.elems(a);
    if old.frozen(a) {
        r == Err::<Value, Error>(frozen_error()) && new == old
    } else if s.len() == 0 {
        r == Ok::<Value, Error>(Value::qnil()) && written(new, old, a, s)
    } else {
        r == Ok::<Value, Error>(s[0]) && written(new, old, a, s.drop_first())
    }
}

/// What removing the element at `index` (from the end when negative) of
/// array `a` does: `nil`, with nothing written, when there is none.
pub open spec fn delete_at_outcome(
    new: &Ruby,
    old: &Ruby,
    a: Value,
    index: int,
    r: Result<Value, Error>,
) -> bool {
    let s = old.elems(a);
    let i = resolve_index(s.len() as int, index);
    if !(0 <= i < s.len()) {
        r == Ok::<Value, Error>(Value::qnil()) && new == old
    } else if old.frozen(a) {
        r == Err::<Value, Error>(frozen_error()) && new == old
    } else {
        r == Ok::<Value, Error>(s[i]) && written(new, old, a, s.remove(i))
    }
}

/// What storing `val` at `offset` (from the end when negative) of array `a`
/// does: past the end the array is padded with `nil`; before the start is
/// an `IndexError`.
pub open spec fn store_outcome(
    new: &Ruby,
    old: &Ruby,
    a: Value,
    offset: int,
    val: Value,
    r: Result<(), Error>,
) -> bool {
    let s = old.elems(a);
    let i = resolve_index(s.len() as int, offset);
    if i < 0 {
        r == Err::<(), Error>(Error::Raised(ExceptionClass::IndexError)) && new == old
    } else {
        write_outcome(new, old, a, resized(s, if i < s.len() { s.len() as int } else { i + 1 }).update(i, val), r)
    }
}

/// The element of array `a` at `offset` (from the end when negative), or
/// `nil` when there is none.
pub open spec fn entry_value(ruby: &Ruby, a: Value, offset: int) -> Value {
    let s = ruby.elems(a);
    let i = resolve_index(s.len() as int, offset);
    if 0 <= i < s.len() {
        s[i]
    } else {
        Value::qnil()
    }
}

/// `r` is `rv` with its value converted to `T`.
pub open spec fn then_convert<T: TryConvert>(ruby: &Ruby, rv: Result<Value, Error>, r: Result<T, Error>) -> bool {
    match rv {
        Ok(x) => T::conversion(ruby, x, r),
        Err(e) => r == Err::<T, Error>(e),
    }
}

/// `mid` is `old` after a native item became the value `v`, and `new`
/// followed from `mid` by a write: `v` stands for the item in `new`.
pub open spec fn item_written<T: IntoValue>(
    new: &Ruby,
    mid: &Ruby,
    old: &Ruby,
    a: Value,
    item: T,
    v: Value,
) -> bool {
    &&& mid.wf()
    &&& mid.grown_from(old)
    &&& mid.type_of(a) == ValueType::Array
    &&& mid.elems(a) == old.elems(a)
    &&& mid.frozen(a) == old.frozen(a)
    &&& item.represents(new, v)
}

proof fn lemma_item_written<T: IntoValue>(
    new: &Ruby,
    mid: &Ruby,
    old: &Ruby,
    a: Value,
    item: T,
    v: Value,
    r: Result<(), Error>,
)
    requires
        mid.wf(),
        mid.grown_from(old),
        mid.type_of(a) == ValueType::Array,
        mid.elems(a) == old.elems(a),
        mid.frozen(a) == old.frozen(a),
        item.represents(mid, v),
        (r is Err && new == mid) || (r is Ok && new.changed_only(mid, a)),
    ensures
        item_written(new, mid, old, a, item, v),
{
    if r is Ok {
        new.lemma_changed_preserves(mid, a);
        item.lemma_represents_grown(mid, new, v);
    }
}

/// Relies on std's `TryFrom<Vec<T>>` for `[T; N]`: a vector of exactly `N`
/// items becomes the array of those items, in order.
#[verifier::external_body]
fn vec_into_array<T, const N: usize>(items: Vec<T>) -> (r: [T; N])
    requires
        items@.len() == N,
    ensures
        r@ == items@,
{
    <[T; N]>::try_from(items).ok().unwrap()
}

/// Whether `a == b` holds in the runtime.
pub fn equal(ruby: &Ruby, a: Value, b: Value) -> (r: bool)
    requires
        ruby.wf(),
    ensures
        r == values_equal(ruby, a, b),
{
    if a == b {
        return true;
    }
    match (Integer::from_value(ruby, a), Integer::from_value(ruby, b)) {
        (Some(x), Some(y)) => x.compare(&y) == 0,
        _ => false,
    }
}

/// An array value, certified to be an array when it was made.
#[derive(Clone, Copy)]
pub struct RArray {
    val: Value,
}

impl View for RArray {
    type V = Value;

    closed spec fn view(&self) -> Value {
        self.val
    }
}

impl RArray {
    pub fn as_value(&self) -> (r: Value)
        ensures
            r == self@,
    {
        self.val
    }

    /// `v` as an array, if it is one.
    pub fn from_value(ruby: &Ruby, v: Value) -> (r: Option<RArray>)
        requires
            ruby.wf(),
        ensures
            r is Some <==> ruby.type_of(v) == ValueType::Array,
            r matches Some(a) ==> a@ == v,
    {
        match ruby.value_type(v) {
            ValueType::Array => Some(RArray { val: v }),
            _ => None,
        }
    }

    /// A new empty array.
    pub fn new(ruby: &mut Ruby) -> (r: RArray)
        requires
            old(ruby).wf(),
            old(ruby).has_room(1),
        ensures
            fresh_array(final(ruby), old(ruby), r@, Seq::empty()),
    {
        ruby.ary_new()
    }

    /// A new empty array with room for `n` elements.
    pub fn with_capacity(ruby: &mut Ruby, n: usize) -> (r: RArray)
        requires
            old(ruby).wf(),
            old(ruby).has_room(1),
        ensures
            fresh_array(final(ruby), old(ruby), r@, Seq::empty()),
    {
        ruby.ary_new_capa(n)
    }

    /// A new array of the values in `slice`.
    pub fn from_slice(ruby: &mut Ruby, slice: &[Value]) -> (r: RArray)
        requires
            old(ruby).wf(),
            old(ruby).has_room(1),
        ensures
            fresh_array(final(ruby), old(ruby), r@, slice@),
    {
        ruby.ary_new_from_values(slice)
    }

    /// A new array of the runtime values for the items of `vec`, in order.
    pub fn from_vec<T: IntoValue>(ruby: &mut Ruby, vec: Vec<T>) -> (r: RArray)
        requires
            old(ruby).wf(),
            old(ruby).has_room(vec@.len() + 1),
        ensures
            fresh_array(final(ruby), old(ruby), r@, final(ruby).elems(r@)),
            stand_for(final(ruby), all_values::<T, ()>(vec@), final(ruby).elems(r@)),
    {
        ruby.ary_from_vec(vec)
    }

    pub fn len(self, ruby: &Ruby) -> (r: usize)
        requires
            ruby.wf(),
            ruby.type_of(self@) == ValueType::Array,
        ensures
            r == ruby.elems(self@).len(),
    {
        ruby.ary_len(self.val)
    }

    pub fn is_empty(self, ruby: &Ruby) -> (r: bool)
        requires
            ruby.wf(),
            ruby.type_of(self@) == ValueType::Array,
        ensures
            r == (ruby.elems(self@).len() == 0),
    {
        self.len(ruby) == 0
    }

    /// The elements, in order.
    pub fn each(self, ruby: &Ruby) -> (r: Vec<Value>)
        requires
            ruby.wf(),
            ruby.type_of(self@) == ValueType::Array,
        ensures
            r@ == ruby.elems(self@),
    {
        ruby.ary_values(self.val)
    }

    /// The elements, read in place in the runtime's storage. The view
    /// borrows the runtime: nothing can write to the heap while it lives.
    pub fn as_slice<'a>(&self, ruby: &'a Ruby) -> (r: &'a [Value])
        requires
            ruby.wf(),
            ruby.type_of(self@) == ValueType::Array,
        ensures
            r@ == ruby.elems(self@),
    {
        ruby.ary_slice(self.val)
    }

    /// The elements as a native array of exactly `N` values; `TypeError`
    /// when the length is another.
    pub fn to_value_array<const N: usize>(self, ruby: &Ruby) -> (r: Result<[Value; N], Error>)
        requires
            ruby.wf(),
            ruby.type_of(self@) == ValueType::Array,
        ensures
            ruby.elems(self@).len() == N ==> (r matches Ok(a) && a@ == ruby.elems(self@)),
            ruby.elems(self@).len() != N ==> r == Err::<[Value; N], Error>(
                Error::Raised(ExceptionClass::TypeError),
            ),
    {
        let s = ruby.ary_slice(self.val);
        if s.len() != N {
            return Err(Error::Raised(ExceptionClass::TypeError));
        }
        let mut out: [Value; N] = [Value::nil(); N];
        let mut k: usize = 0;
        while k < N
            invariant
                k <= N,
                s@.len() == N,
                out@.len() == N,
                forall|j: int| 0 <= j < k ==> out@[j] == s@[j],
            decreases N - k,
        {
            out[k] = s[k];
            k = k + 1;
        }
        assert(out@ =~= s@);
        Ok(out)
    }

    /// The elements, each converted to `T`; the first element that does not
    /// convert gives the error.
    pub fn to_vec<T: TryConvert>(self, ruby: &Ruby) -> (r: Result<Vec<T>, Error>)
        requires
            ruby.wf(),
            ruby.type_of(self@) == ValueType::Array,
        ensures
            all_convert::<T>(ruby, ruby.elems(self@)) ==> (r matches Ok(out) && converted(
                ruby,
                ruby.elems(self@),
                out@,
            )),
            !all_convert::<T>(ruby, ruby.elems(self@)) ==> (r matches Err(e) && first_failure::<T>(
                ruby,
                ruby.elems(self@),
                e,
            )),
    {
        let s = ruby.ary_slice(self.val);
        let mut out: Vec<T> = Vec::new();
        let mut k: usize = 0;
        while k < s.len()
            invariant
                k <= s@.len(),
                ruby.wf(),
                s@ == ruby.elems(self@),
                all_convert::<T>(ruby, s@.subrange(0, k as int)),
                converted(ruby, s@.subrange(0, k as int), out@),
            decreases s@.len() - k,
        {
            match T::try_convert(ruby, s[k]) {
                Ok(x) => {
                    out.push(x);
                    proof {
                        assert forall|j: int| 0 <= j < k + 1 implies T::converts(
                            ruby,
                            #[trigger] s@.subrange(0, k + 1)[j],
                        ) by {
                            if j < k {
                                assert(s@.subrange(0, k + 1)[j] == s@.subrange(0, k as int)[j]);
                            }
                        }
                        assert forall|j: int| 0 <= j < k + 1 implies T::conversion(
                            ruby,
                            #[trigger] s@.subrange(0, k + 1)[j],
                            Ok(out@[j]),
                        ) by {
                            if j < k {
                                assert(s@.subrange(0, k + 1)[j] == s@.subrange(0, k as int)[j]);
                            }
                        }
                    }
                },
                Err(e) => {
                    proof {
                        assert(s@.subrange(0, k as int) =~= s@.subrange(0, k as int));
                        assert(!all_convert::<T>(ruby, s@)) by {
                            assert(!T::converts(ruby, s@[k as int]));
                        }
                    }
                    return Err(e);
                },
            }
            k = k + 1;
        }
        assert(s@.subrange(0, s@.len() as int) =~= s@);
        Ok(out)
    }

    /// The elements, each converted to `T`, as a native array of exactly
    /// `N` items. Another length is a `TypeError`; otherwise the first
    /// element that does not convert gives the error.
    pub fn to_array<T: TryConvert, const N: usize>(self, ruby: &Ruby) -> (r: Result<[T; N], Error>)
        requires
            ruby.wf(),
            ruby.type_of(self@) == ValueType::Array,
        ensures
            ruby.elems(self@).len() != N ==> r == Err::<[T; N], Error>(
                Error::Raised(ExceptionClass::TypeError),
            ),
            ruby.elems(self@).len() == N && all_convert::<T>(ruby, ruby.elems(self@)) ==> (r matches Ok(
                a,
            ) && converted(ruby, ruby.elems(self@), a@)),
            ruby.elems(self@).len() == N && !all_convert::<T>(ruby, ruby.elems(self@)) ==> (r matches Err(
                e,
            ) && first_failure::<T>(ruby, ruby.elems(self@), e)),
    {
        if ruby.ary_len(self.val) != N {
            return Err(Error::Raised(ExceptionClass::TypeError));
        }
        match self.to_vec::<T>(ruby) {
            Ok(items) => Ok(vec_into_array(items)),
            Err(e) => Err(e),
        }
    }

    /// Checks that every element converts to `T`, and copies the elements
    /// into a new hidden array; the first element that does not convert
    /// gives the error.
    pub fn typecheck<T: TryConvert>(self, ruby: &mut Ruby) -> (r: Result<TypedArray<T>, Error>)
        requires
            old(ruby).wf(),
            old(ruby).has_room(1),
            old(ruby).type_of(self@) == ValueType::Array,
        ensures
            all_convert::<T>(old(ruby), old(ruby).elems(self@)) ==> (r matches Ok(t) && fresh_array(
                final(ruby),
                old(ruby),
                t@,
                old(ruby).elems(self@),
            ) && final(ruby).hidden(t@)),
            !all_convert::<T>(old(ruby), old(ruby).elems(self@)) ==> (r matches Err(e)
                && first_failure::<T>(old(ruby), old(ruby).elems(self@), e) && *final(ruby)
                == *old(ruby)),
    {
        match self.to_vec::<T>(ruby) {
            Ok(_) => {
                let items = ruby.ary_values(self.val);
                let v = ruby.alloc_array(items, true);
                Ok(TypedArray { val: v, marker: PhantomData })
            },
            Err(e) => Err(e),
        }
    }

    /// Gives the array the elements `items`, unless it is frozen.
    fn write(self, ruby: &mut Ruby, items: Vec<Value>) -> (r: Result<(), Error>)
        requires
            old(ruby).wf(),
            old(ruby).type_of(self@) == ValueType::Array,
        ensures
            write_outcome(final(ruby), old(ruby), self@, items@, r),
    {
        if ruby.is_frozen(self.val) {
            return Err(Error::Raised(ExceptionClass::FrozenError));
        }
        ruby.ary_write(self.val, items);
        Ok(())
    }

    /// Appends the values of `s`.
    pub fn cat(self, ruby: &mut Ruby, s: &[Value]) -> (r: Result<(), Error>)
        requires
            old(ruby).wf(),
            old(ruby).type_of(self@) == ValueType::Array,
        ensures
            write_outcome(final(ruby), old(ruby), self@, old(ruby).elems(self@) + s@, r),
    {
        let mut items = ruby.ary_values(self.val);
        let mut k: usize = 0;
        let ghost start = items@;
        while k < s.len()
            invariant
                k <= s@.len(),
                items@ == start + s@.subrange(0, k as int),
            decreases s@.len() - k,
        {
            items.push(s[k]);
            k = k + 1;
            assert(items@ =~= start + s@.subrange(0, k as int));
        }
        assert(s@.subrange(0, s@.len() as int) =~= s@);
        self.write(ruby, items)
    }

    /// Appends the elements of `other`.
    pub fn concat(self, ruby: &mut Ruby, other: RArray) -> (r: Result<(), Error>)
        requires
            old(ruby).wf(),
            old(ruby).type_of(self@) == ValueType::Array,
            old(ruby).type_of(other@) == ValueType::Array,
        ensures
            write_outcome(
                final(ruby),
                old(ruby),
                self@,
                old(ruby).elems(self@) + old(ruby).elems(other@),
                r,
            ),
    {
        let tail = ruby.ary_values(other.val);
        self.cat(ruby, tail.as_slice())
    }

    /// A new array: the elements of `self`, then those of `other`, copied
    /// into storage of its own (it shares with neither).
    pub fn plus(self, ruby: &mut Ruby, other: RArray) -> (r: RArray)
        requires
            old(ruby).wf(),
            old(ruby).has_room(1),
            old(ruby).type_of(self@) == ValueType::Array,
            old(ruby).type_of(other@) == ValueType::Array,
        ensures
            fresh_array(
                final(ruby),
                old(ruby),
                r@,
                old(ruby).elems(self@) + old(ruby).elems(other@),
            ),
            forall|u: Value| !#[trigger] final(ruby).shares(r@, u),
    {
        let mut items = ruby.ary_values(self.val);
        let mut tail = ruby.ary_values(other.val);
        items.append(&mut tail);
        let v = ruby.alloc_array(items, false);
        RArray { val: v }
    }

    /// Appends `item`.
    pub fn push(self, ruby: &mut Ruby, item: Value) -> (r: Result<(), Error>)
        requires
            old(ruby).wf(),
            old(ruby).type_of(self@) == ValueType::Array,
        ensures
            write_outcome(final(ruby), old(ruby), self@, old(ruby).elems(self@).push(item), r),
    {
        let mut items = ruby.ary_values(self.val);
        items.push(item);
        self.write(ruby, items)
    }

    /// Removes and returns the last element; `nil` when there is none.
    pub fn pop(self, ruby: &mut Ruby) -> (r: Result<Value, Error>)
        requires
            old(ruby).wf(),
            old(ruby).type_of(self@) == ValueType::Array,
        ensures
            pop_outcome(final(ruby), old(ruby), self@, r),
    {
        let mut items = ruby.ary_values(self.val);
        assert(items@.len() == 0 ==> items@ =~= Seq::<Value>::empty());
        let out = match items.pop() {
            Some(x) => x,
            None => Value::nil(),
        };
        match self.write(ruby, items) {
            Ok(()) => Ok(out),
            Err(e) => Err(e),
        }
    }

    /// Puts `item` in front.
    pub fn unshift(self, ruby: &mut Ruby, item: Value) -> (r: Result<(), Error>)
        requires
            old(ruby).wf(),
            old(ruby).type_of(self@) == ValueType::Array,
        ensures
            write_outcome(final(ruby), old(ruby), self@, seq![item] + old(ruby).elems(self@), r),
    {
        let old_items = ruby.ary_values(self.val);
        let mut items: Vec<Value> = Vec::new();
        items.push(item);
        let mut k: usize = 0;
        while k < old_items.len()
            invariant
                k <= old_items@.len(),
                items@ == seq![item] + old_items@.subrange(0, k as int),
            decreases old_items@.len() - k,
        {
            items.push(old_items[k]);
            k = k + 1;
            assert(items@ =~= seq![item] + old_items@.subrange(0, k as int));
        }
        assert(old_items@.subrange(0, old_items@.len() as int) =~= old_items@);
        self.write(ruby, items)
    }

    /// Removes and returns the first element; `nil` when there is none.
    pub fn shift(self, ruby: &mut Ruby) -> (r: Result<Value, Error>)
        requires
            old(ruby).wf(),
            old(ruby).type_of(self@) == ValueType::Array,
        ensures
            shift_outcome(final(ruby), old(ruby), self@, r),
    {
        let old_items = ruby.ary_values(self.val);
        if old_items.len() == 0 {
            assert(old_items@ =~= Seq::<Value>::empty());
            return match self.write(ruby, old_items) {
                Ok(()) => Ok(Value::nil()),
                Err(e) => Err(e),
            };
        }
        let first = old_items[0];
        let mut items: Vec<Value> = Vec::new();
        let mut k: usize = 1;
        while k < old_items.len()
            invariant
                1 <= k <= old_items@.len(),
                items@ == old_items@.subrange(1, k as int),
            decreases old_items@.len() - k,
        {
            items.push(old_items[k]);
            k = k + 1;
            assert(items@ =~= old_items@.subrange(1, k as int));
        }
        assert(old_items@.subrange(1, old_items@.len() as int) =~= old_items@.drop_first());
        match self.write(ruby, items) {
            Ok(()) => Ok(first),
            Err(e) => Err(e),
        }
    }

    /// Whether some element equals `val`.
    pub fn includes(self, ruby: &Ruby, val: Value) -> (r: bool)
        requires
            ruby.wf(),
            ruby.type_of(self@) == ValueType::Array,
        ensures
            r == holds(ruby, ruby.elems(self@), val),
    {
        let items = ruby.ary_values(self.val);
        let mut k: usize = 0;
        while k < items.len()
            invariant
                k <= items@.len(),
                items@ == ruby.elems(self@),
                ruby.wf(),
                forall|j: int| 0 <= j < k ==> !values_equal(ruby, #[trigger] items@[j], val),
            decreases items@.len() - k,
        {
            if equal(ruby, items[k], val) {
                return true;
            }
            k = k + 1;
        }
        false
    }

    /// Removes every element equal to `item`. With none there, nothing is
    /// written and a frozen array raises nothing.
    pub fn delete(self, ruby: &mut Ruby, item: Value) -> (r: Result<(), Error>)
        requires
            old(ruby).wf(),
            old(ruby).type_of(self@) == ValueType::Array,
        ensures
            !holds(old(ruby), old(ruby).elems(self@), item) ==> r == Ok::<(), Error>(())
                && *final(ruby) == *old(ruby),
            holds(old(ruby), old(ruby).elems(self@), item) ==> write_outcome(
                final(ruby),
                old(ruby),
                self@,
                without(old(ruby), old(ruby).elems(self@), item),
                r,
            ),
    {
        let items = ruby.ary_values(self.val);
        let mut kept: Vec<Value> = Vec::new();
        let mut found = false;
        let mut k: usize = 0;
        while k < items.len()
            invariant
                k <= items@.len(),
                items@ == ruby.elems(self@),
                ruby.wf(),
                kept@ == without(ruby, items@.subrange(0, k as int), item),
                found == holds(ruby, items@.subrange(0, k as int), item),
            decreases items@.len() - k,
        {
            let x = items[k];
            proof {
                assert(items@.subrange(0, k + 1) =~= items@.subrange(0, k as int).push(x));
                assert(items@.subrange(0, k + 1).drop_last() =~= items@.subrange(0, k as int));
                lemma_holds_push(ruby, items@.subrange(0, k as int), x, item);
            }
            if equal(ruby, x, item) {
                found = true;
            } else {
                kept.push(x);
            }
            k = k + 1;
        }
        assert(items@.subrange(0, items@.len() as int) =~= items@);
        if !found {
            return Ok(());
        }
        self.write(ruby, kept)
    }

    /// Removes and returns the element at `index` (from the end when
    /// negative); `nil`, with nothing written, when there is none.
    pub fn delete_at(self, ruby: &mut Ruby, index: isize) -> (r: Result<Value, Error>)
        requires
            old(ruby).wf(),
            old(ruby).type_of(self@) == ValueType::Array,
        ensures
            delete_at_outcome(final(ruby), old(ruby), self@, index as int, r),
    {
        let mut items = ruby.ary_values(self.val);
        let n = items.len();
        let i: usize;
        if index < 0 {
            let back: usize = if index == isize::MIN {
                isize::MAX as usize + 1
            } else {
                (-index) as usize
            };
            if back > n {
                return Ok(Value::nil());
            }
            i = n - back;
        } else {
            if index as usize >= n {
                return Ok(Value::nil());
            }
            i = index as usize;
        }
        let x = items.remove(i);
        match self.write(ruby, items) {
            Ok(()) => Ok(x),
            Err(e) => Err(e),
        }
    }

    /// Removes every element.
    pub fn clear(self, ruby: &mut Ruby) -> (r: Result<(), Error>)
        requires
            old(ruby).wf(),
            old(ruby).type_of(self@) == ValueType::Array,
        ensures
            write_outcome(final(ruby), old(ruby), self@, Seq::empty(), r),
    {
        let items: Vec<Value> = Vec::new();
        assert(items@ =~= Seq::<Value>::empty());
        self.write(ruby, items)
    }

    /// Cuts the array to `len` elements, or pads it with `nil` to them.
    pub fn resize(self, ruby: &mut Ruby, len: usize) -> (r: Result<(), Error>)
        requires
            old(ruby).wf(),
            old(ruby).type_of(self@) == ValueType::Array,
        ensures
            write_outcome(
                final(ruby),
                old(ruby),
                self@,
                resized(old(ruby).elems(self@), len as int),
                r,
            ),
    {
        let mut items = ruby.ary_values(self.val);
        let ghost s = items@;
        if len <= items.len() {
            items.truncate(len);
            assert(items@ =~= resized(s, len as int));
        } else {
            while items.len() < len
                invariant
                    items@.len() <= len,
                    items@.len() >= s.len(),
                    len > s.len(),
                    items@ == s + Seq::new((items@.len() - s.len()) as nat, |i: int| Value::qnil()),
                decreases len - items@.len(),
            {
                items.push(Value::nil());
                assert(items@ =~= s + Seq::new(
                    (items@.len() - s.len()) as nat,
                    |i: int| Value::qnil(),
                ));
            }
        }
        self.write(ruby, items)
    }

    /// Reverses the order of the elements.
    pub fn reverse(self, ruby: &mut Ruby) -> (r: Result<(), Error>)
        requires
            old(ruby).wf(),
            old(ruby).type_of(self@) == ValueType::Array,
        ensures
            write_outcome(final(ruby), old(ruby), self@, reversed(old(ruby).elems(self@)), r),
    {
        let items = ruby.ary_values(self.val);
        let n = items.len();
        let mut out: Vec<Value> = Vec::new();
        let mut k: usize = 0;
        while k < n
            invariant
                n == items@.len(),
                k <= n,
                out@ == reversed(items@).subrange(0, k as int),
            decreases n - k,
        {
            out.push(items[n - 1 - k]);
            k = k + 1;
            assert(out@ =~= reversed(items@).subrange(0, k as int));
        }
        assert(reversed(items@).subrange(0, n as int) =~= reversed(items@));
        self.write(ruby, out)
    }

    /// Rotates the elements so that the one at `rot` (modulo the length)
    /// comes first; a negative `rot` rotates the other way.
    pub fn rotate(self, ruby: &mut Ruby, rot: isize) -> (r: Result<(), Error>)
        requires
            old(ruby).wf(),
            old(ruby).type_of(self@) == ValueType::Array,
        ensures
            write_outcome(final(ruby), old(ruby), self@, rotated(old(ruby).elems(self@), rot as int), r),
    {
        let items = ruby.ary_values(self.val);
        let n = items.len();
        if n == 0 {
            return self.write(ruby, items);
        }
        let shift: usize = rotation(rot, n);
        let mut out: Vec<Value> = Vec::new();
        let mut k: usize = 0;
        while k < n
            invariant
                n == items@.len(),
                n > 0,
                shift == rot as int % n as int,
                k <= n,
                out@ == rotated(items@, rot as int).subrange(0, k as int),
            decreases n - k,
        {
            let j: usize = if shift < n - k {
                k + shift
            } else {
                k - (n - shift)
            };
            proof {
                if shift < n - k {
                    vstd::arithmetic::div_mod::lemma_small_mod((k + shift) as nat, n as nat);
                } else {
                    vstd::arithmetic::div_mod::lemma_fundamental_div_mod_converse_mod(
                        (k + shift) as int,
                        n as int,
                        1,
                        j as int,
                    );
                }
            }
            out.push(items[j]);
            k = k + 1;
            assert(out@ =~= rotated(items@, rot as int).subrange(0, k as int));
        }
        assert(rotated(items@, rot as int).subrange(0, n as int) =~= rotated(items@, rot as int));
        self.write(ruby, out)
    }

    /// The element at `offset` (from the end when negative); `nil` when
    /// there is none.
    pub fn entry(self, ruby: &Ruby, offset: isize) -> (r: Value)
        requires
            ruby.wf(),
            ruby.type_of(self@) == ValueType::Array,
        ensures
            r == entry_value(ruby, self@, offset as int),
    {
        let n = ruby.ary_len(self.val);
        if offset < 0 {
            let back: usize = if offset == isize::MIN {
                isize::MAX as usize + 1
            } else {
                (-offset) as usize
            };
            if back > n {
                Value::nil()
            } else {
                ruby.ary_at(self.val, n - back)
            }
        } else if (offset as usize) < n {
            ruby.ary_at(self.val, offset as usize)
        } else {
            Value::nil()
        }
    }

    /// Stores `val` at `offset` (from the end when negative), padding with
    /// `nil` past the end. An offset before the start raises `IndexError`.
    pub fn store(self, ruby: &mut Ruby, offset: isize, val: Value) -> (r: Result<(), Error>)
        requires
            old(ruby).wf(),
            old(ruby).type_of(self@) == ValueType::Array,
        ensures
            store_outcome(final(ruby), old(ruby), self@, offset as int, val, r),
    {
        let mut items = ruby.ary_values(self.val);
        let ghost s = items@;
        let n = items.len();
        let i: usize;
        if offset < 0 {
            let back: usize = if offset == isize::MIN {
                isize::MAX as usize + 1
            } else {
                (-offset) as usize
            };
            if back > n {
                return Err(Error::Raised(ExceptionClass::IndexError));
            }
            i = n - back;
        } else {
            i = offset as usize;
        }
        if i < n {
            items.set(i, val);
            assert(items@ =~= resized(s, n as int).update(i as int, val));
        } else {
            while items.len() <= i
                invariant
                    items@.len() <= i + 1,
                    items@.len() >= s.len(),
                    i >= s.len(),
                    items@ == s + Seq::new((items@.len() - s.len()) as nat, |j: int| Value::qnil()),
                decreases i + 1 - items@.len(),
            {
                items.push(Value::nil());
                assert(items@ =~= s + Seq::new(
                    (items@.len() - s.len()) as nat,
                    |j: int| Value::qnil(),
                ));
            }
            items.set(i, val);
            assert(items@ =~= resized(s, i + 1).update(i as int, val));
        }
        self.write(ruby, items)
    }

    /// Gives this array the elements of `from`.
    pub fn replace(self, ruby: &mut Ruby, from: RArray) -> (r: Result<(), Error>)
        requires
            old(ruby).wf(),
            old(ruby).type_of(self@) == ValueType::Array,
            old(ruby).type_of(from@) == ValueType::Array,
        ensures
            write_outcome(final(ruby), old(ruby), self@, old(ruby).elems(from@), r),
    {
        let items = ruby.ary_values(from.val);
        self.write(ruby, items)
    }

    fn find_pair(self, ruby: &Ruby, key: Value, pos: usize) -> (r: Value)
        requires
            ruby.wf(),
            ruby.type_of(self@) == ValueType::Array,
        ensures
            first_pair(ruby, ruby.elems(self@), key, pos as int, r),
    {
        let items = ruby.ary_values(self.val);
        let mut k: usize = 0;
        while k < items.len()
            invariant
                k <= items@.len(),
                items@ == ruby.elems(self@),
                ruby.wf(),
                forall|j: int| 0 <= j < k ==> !pair_match(ruby, #[trigger] items@[j], key, pos as int),
            decreases items@.len() - k,
        {
            let e = items[k];
            match RArray::from_value(ruby, e) {
                Some(inner) => {
                    if pos < inner.len(ruby) {
                        let x = ruby.ary_at(e, pos);
                        if equal(ruby, x, key) {
                            return e;
                        }
                    }
                },
                None => {},
            }
            k = k + 1;
        }
        Value::nil()
    }

    /// The first element that is an array whose first element equals
    /// `key`; `nil` when there is none.
    pub fn assoc(self, ruby: &Ruby, key: Value) -> (r: Value)
        requires
            ruby.wf(),
            ruby.type_of(self@) == ValueType::Array,
        ensures
            first_pair(ruby, ruby.elems(self@), key, 0, r),
    {
        self.find_pair(ruby, key, 0)
    }

    /// The first element that is an array whose second element equals
    /// `value`; `nil` when there is none.
    pub fn rassoc(self, ruby: &Ruby, value: Value) -> (r: Value)
        requires
            ruby.wf(),
            ruby.type_of(self@) == ValueType::Array,
        ensures
            first_pair(ruby, ruby.elems(self@), value, 1, r),
    {
        self.find_pair(ruby, value, 1)
    }

    /// `v` as an array: converted as `try_convert` does, or else wrapped in
    /// a new one-element array.
    pub fn to_ary(ruby: &mut Ruby, v: Value) -> (r: Result<RArray, Error>)
        requires
            old(ruby).wf(),
            old(ruby).has_room(1),
        ensures
            converts_to_array(old(ruby), v) ==> ary_conversion(old(ruby), v, r) && *final(ruby)
                == *old(ruby),
            !converts_to_array(old(ruby), v) ==> (r matches Ok(a) && fresh_array(
                final(ruby),
                old(ruby),
                a@,
                seq![v],
            )),
    {
        let t = ruby.value_type(v);
        let wrap = match t {
            ValueType::Array => false,
            ValueType::Object => match ruby.coercions_of(v).1 {
                Coercion::Absent => true,
                _ => false,
            },
            _ => true,
        };
        if !wrap {
            return RArray::try_convert(ruby, v);
        }
        let mut items: Vec<Value> = Vec::new();
        items.push(v);
        Ok(ruby.ary_new_from_values(items.as_slice()))
    }

    /// Sorts the elements in ascending order. Only integers compare: an
    /// array of two or more elements with anything else raises
    /// `ArgumentError` and is left as it was.
    pub fn sort(self, ruby: &mut Ruby) -> (r: Result<(), Error>)
        requires
            old(ruby).wf(),
            old(ruby).type_of(self@) == ValueType::Array,
        ensures
            ({
                let s = old(ruby).elems(self@);
                if old(ruby).frozen(self@) {
                    r == Err::<(), Error>(frozen_error()) && *final(ruby) == *old(ruby)
                } else if s.len() >= 2 && !all_integers(old(ruby), s) {
                    r == Err::<(), Error>(Error::Raised(ExceptionClass::ArgumentError))
                        && *final(ruby) == *old(ruby)
                } else {
                    &&& r == Ok::<(), Error>(())
                    &&& written(final(ruby), old(ruby), self@, final(ruby).elems(self@))
                    &&& final(ruby).elems(self@).to_multiset() == s.to_multiset()
                    &&& ascending(old(ruby), final(ruby).elems(self@))
                }
            }),
    {
        broadcast use vstd::seq_lib::group_to_multiset_ensures;

        let items = ruby.ary_values(self.val);
        let n = items.len();
        if ruby.is_frozen(self.val) {
            return Err(Error::Raised(ExceptionClass::FrozenError));
        }
        if n < 2 {
            assert(ascending(ruby, items@));
            return self.write(ruby, items);
        }
        let mut k: usize = 0;
        while k < n
            invariant
                n == items@.len(),
                k <= n,
                ruby.wf(),
                *ruby == *old(ruby),
                items@ == old(ruby).elems(self@),
                !old(ruby).frozen(self@),
                n >= 2,
                forall|j: int| 0 <= j < k ==> is_integer_type(ruby.type_of(#[trigger] items@[j])),
            decreases n - k,
        {
            match ruby.value_type(items[k]) {
                ValueType::Fixnum => {},
                ValueType::Bignum => {},
                _ => {
                    assert(!is_integer_type(ruby.type_of(items@[k as int])));
                    return Err(Error::Raised(ExceptionClass::ArgumentError));
                },
            }
            k = k + 1;
        }
        let mut out: Vec<Value> = Vec::new();
        k = 0;
        assert(items@.subrange(0, 0) =~= Seq::<Value>::empty());
        assert(out@ =~= Seq::<Value>::empty());
        while k < n
            invariant
                n == items@.len(),
                k <= n,
                ruby.wf(),
                *ruby == *old(ruby),
                items@ == old(ruby).elems(self@),
                all_integers(ruby, items@),
                all_integers(ruby, out@),
                ascending(ruby, out@),
                out@.to_multiset() == items@.subrange(0, k as int).to_multiset(),
                out@.len() == k,
            decreases n - k,
        {
            let x = items[k];
            let xi = int_of(ruby, x);
            let mut p: usize = 0;
            while p < out.len() && int_of(ruby, out[p]).compare(&xi) <= 0
                invariant
                    p <= out@.len(),
                    ruby.wf(),
                    all_integers(ruby, out@),
                    forall|q: int| 0 <= q < p ==> int_value(ruby, #[trigger] out@[q]) <= xi@,
                decreases out@.len() - p,
            {
                p = p + 1;
            }
            let ghost before = out@;
            out.insert(p, x);
            proof {
                assert(items@.subrange(0, k + 1) =~= items@.subrange(0, k as int).push(x));
                vstd::seq_lib::to_multiset_insert(before, p as int, x);
                vstd::seq_lib::to_multiset_build(items@.subrange(0, k as int), x);
                assert forall|q: int| p < q < out@.len() implies int_value(ruby, #[trigger] out@[q])
                    > xi@ by {
                    assert(out@[q] == before[q - 1]);
                    if q - 1 > p {
                        assert(int_value(ruby, before[p as int]) <= int_value(ruby, before[q - 1]));
                    }
                }
                assert forall|i: int, j: int| 0 <= i < j < out@.len() implies int_value(
                    ruby,
                    #[trigger] out@[i],
                ) <= int_value(ruby, #[trigger] out@[j]) by {
                    if j < p {
                        assert(out@[i] == before[i] && out@[j] == before[j]);
                    } else if j == p {
                        assert(out@[i] == before[i]);
                    } else if i < p {
                        assert(out@[i] == before[i] && out@[j] == before[j - 1]);
                        assert(int_value(ruby, before[i]) <= xi@);
                    } else if i > p {
                        assert(out@[i] == before[i - 1] && out@[j] == before[j - 1]);
                    }
                }
                assert forall|i: int| 0 <= i < out@.len() implies is_integer_type(
                    ruby.type_of(#[trigger] out@[i]),
                ) by {
                    if i < p {
                        assert(out@[i] == before[i]);
                    } else if i > p {
                        assert(out@[i] == before[i - 1]);
                    }
                }
            }
            k = k + 1;
        }
        assert(items@.subrange(0, n as int) =~= items@);
        self.write(ruby, out)
    }

    /// Compares this array with `other` element by element.
    pub fn cmp(self, ruby: &Ruby, other: RArray) -> (r: Option<Ordering>)
        requires
            ruby.wf(),
            ruby.type_of(self@) == ValueType::Array,
            ruby.type_of(other@) == ValueType::Array,
        ensures
            r == seq_cmp(ruby, ruby.elems(self@), ruby.elems(other@), 0),
    {
        let s = ruby.ary_values(self.val);
        let t = ruby.ary_values(other.val);
        let mut k: usize = 0;
        while k < s.len() && k < t.len()
            invariant
                k <= s@.len(),
                k <= t@.len(),
                ruby.wf(),
                s@ == ruby.elems(self@),
                t@ == ruby.elems(other@),
                seq_cmp(ruby, s@, t@, 0) == seq_cmp(ruby, s@, t@, k as int),
            decreases s@.len() - k,
        {
            let a = s[k];
            let b = t[k];
            if a != b {
                match (Integer::from_value(ruby, a), Integer::from_value(ruby, b)) {
                    (Some(x), Some(y)) => {
                        let c = x.compare(&y);
                        if c < 0 {
                            return Some(Ordering::Less);
                        } else if c > 0 {
                            return Some(Ordering::Greater);
                        }
                    },
                    _ => {
                        return None;
                    },
                }
            }
            k = k + 1;
        }
        if s.len() < t.len() {
            Some(Ordering::Less)
        } else if s.len() == t.len() {
            Some(Ordering::Equal)
        } else {
            Some(Ordering::Greater)
        }
    }

    /// A new array holding the same elements, sharing this one's storage.
    pub fn dup(self, ruby: &mut Ruby) -> (r: RArray)
        requires
            old(ruby).wf(),
            old(ruby).has_room(1),
            old(ruby).type_of(self@) == ValueType::Array,
        ensures
            fresh_array(final(ruby), old(ruby), r@, old(ruby).elems(self@)),
            final(ruby).shares(self@, r@),
            final(ruby).shares(r@, self@),
            final(ruby).type_of(self@) == ValueType::Array,
            final(ruby).elems(self@) == old(ruby).elems(self@),
            !final(ruby).hidden(r@),
    {
        let n = ruby.ary_len(self.val);
        let v = ruby.ary_share(self.val, 0, n);
        proof {
            old(ruby).lemma_array_live(self@);
            ruby.lemma_grown_keeps(old(ruby), self@);
            ruby.lemma_shares_symmetric(self@, v);
            assert(old(ruby).elems(self@).subrange(0, n as int) =~= old(ruby).elems(self@));
        }
        RArray { val: v }
    }

    /// Whether this array and `other` read one storage buffer.
    pub fn is_shared(self, ruby: &Ruby, other: RArray) -> (r: bool)
        requires
            ruby.wf(),
            ruby.type_of(self@) == ValueType::Array,
            ruby.type_of(other@) == ValueType::Array,
        ensures
            r == ruby.shares(self@, other@),
    {
        ruby.ary_shared_with(self.val, other.val)
    }

    /// A new array of up to `length` elements from `offset`, sharing this
    /// one's storage; `None` when `offset` is past the end.
    pub fn subseq(self, ruby: &mut Ruby, offset: usize, length: usize) -> (r: Option<RArray>)
        requires
            old(ruby).wf(),
            old(ruby).has_room(1),
            old(ruby).type_of(self@) == ValueType::Array,
        ensures
            offset > old(ruby).elems(self@).len() ==> r is None && *final(ruby) == *old(ruby),
            offset <= old(ruby).elems(self@).len() ==> (r matches Some(a) && fresh_array(
                final(ruby),
                old(ruby),
                a@,
                old(ruby).elems(self@).subrange(
                    offset as int,
                    if offset + length <= old(ruby).elems(self@).len() {
                        offset + length
                    } else {
                        old(ruby).elems(self@).len() as int
                    },
                ),
            )),
    {
        let n = ruby.ary_len(self.val);
        if offset > n {
            return None;
        }
        let take = if length <= n - offset {
            length
        } else {
            n - offset
        };
        let v = ruby.ary_share(self.val, offset, take);
        Some(RArray { val: v })
    }
}

impl Ruby {
    /// A new empty array.
    pub fn ary_new(&mut self) -> (r: RArray)
        requires
            old(self).wf(),
            old(self).has_room(1),
        ensures
            fresh_array(final(self), old(self), r@, Seq::empty()),
            final(self).slot_count() == old(self).slot_count() + 1,
    {
        let v = self.alloc_array(Vec::new(), false);
        RArray { val: v }
    }

    /// A new empty array with room for `n` elements.
    pub fn ary_new_capa(&mut self, n: usize) -> (r: RArray)
        requires
            old(self).wf(),
            old(self).has_room(1),
        ensures
            fresh_array(final(self), old(self), r@, Seq::empty()),
            final(self).slot_count() == old(self).slot_count() + 1,
    {
        let v = self.alloc_array(Vec::with_capacity(n), false);
        RArray { val: v }
    }

    /// A new array of the values in `slice`.
    pub fn ary_new_from_values(&mut self, slice: &[Value]) -> (r: RArray)
        requires
            old(self).wf(),
            old(self).has_room(1),
        ensures
            fresh_array(final(self), old(self), r@, slice@),
    {
        let mut items: Vec<Value> = Vec::new();
        let mut k: usize = 0;
        while k < slice.len()
            invariant
                k <= slice@.len(),
                items@ == slice@.subrange(0, k as int),
            decreases slice@.len() - k,
        {
            items.push(slice[k]);
            k = k + 1;
            assert(items@ =~= slice@.subrange(0, k as int));
        }
        assert(slice@.subrange(0, slice@.len() as int) =~= slice@);
        let v = self.alloc_array(items, false);
        RArray { val: v }
    }

    /// A new array of the runtime values for the items of `vec`, in order.
    pub fn ary_from_vec<T: IntoValue>(&mut self, vec: Vec<T>) -> (r: RArray)
        requires
            old(self).wf(),
            old(self).has_room(vec@.len() + 1),
        ensures
            fresh_array(final(self), old(self), r@, final(self).elems(r@)),
            stand_for(final(self), all_values::<T, ()>(vec@), final(self).elems(r@)),
    {
        self.ary_from_iter(vec)
    }

    /// A new array of the runtime values for `items`, in order, or the
    /// first error among them. Values are gathered in a native buffer and
    /// appended `BATCH` at a time.
    pub fn ary_try_from_iter<T: IntoValue, E>(&mut self, items: Vec<Result<T, E>>) -> (r: Result<
        RArray,
        E,
    >)
        requires
            old(self).wf(),
            old(self).has_room(items@.len() + 1),
        ensures
            final(self).wf(),
            final(self).grown_from(old(self)),
            all_ok(items@) ==> (r matches Ok(a) && fresh_array(
                final(self),
                old(self),
                a@,
                final(self).elems(a@),
            ) && stand_for(final(self), items@, final(self).elems(a@))),
            !all_ok(items@) ==> (r matches Err(e) && first_error(items@, e)),
    {
        let n = items.len();
        let ary = if n > 0 {
            self.ary_new_capa(n)
        } else {
            self.ary_new()
        };
        let mut rest = items;
        let mut buffer: Vec<Value> = Vec::with_capacity(BATCH);
        let mut k: usize = 0;
        assert(rest@ =~= items@.subrange(0, n as int));
        assert(self.elems(ary@) + buffer@ =~= Seq::<Value>::empty());
        while k < n
            invariant
                n == items@.len(),
                k <= n,
                rest@ == items@.subrange(k as int, n as int),
                self.wf(),
                self.has_room((n - k) as nat),
                fresh_array(self, old(self), ary@, self.elems(ary@)),
                self.grown_from(old(self)),
                stand_for(self, items@.subrange(0, k as int), self.elems(ary@) + buffer@),
                buffer@.len() < BATCH,
                all_ok(items@.subrange(0, k as int)),
            decreases n - k,
        {
            let item = rest.remove(0);
            assert(item == items@[k as int]);
            assert(rest@ =~= items@.subrange(k + 1, n as int));
            match item {
                Ok(x) => {
                    let ghost before = *self;
                    let v = x.into_value(self);
                    proof {
                        self.lemma_grown_preserves(&before);
                        lemma_stand_for_kept(
                            items@.subrange(0, k as int),
                            before.elems(ary@) + buffer@,
                            &before,
                            self,
                        );
                        lemma_fresh_after_grow(self, &before, old(self), ary@);
                    }
                    buffer.push(v);
                    proof {
                        assert(items@.subrange(0, k + 1) =~= items@.subrange(0, k as int).push(
                            items@[k as int],
                        ));
                        assert(self.elems(ary@) + buffer@ =~= (self.elems(ary@) + buffer@.drop_last()).push(v));
                        assert forall|j: int| 0 <= j < k + 1 implies (#[trigger] items@.subrange(
                            0,
                            k + 1,
                        )[j]) is Ok by {
                            if j < k {
                                assert(items@.subrange(0, k + 1)[j] == items@.subrange(0, k as int)[j]);
                            }
                        }
                        assert forall|j: int| 0 <= j < k + 1 implies (#[trigger] items@.subrange(
                            0,
                            k + 1,
                        )[j])->Ok_0.represents(self, (self.elems(ary@) + buffer@)[j]) by {
                            if j < k {
                                assert(items@.subrange(0, k + 1)[j] == items@.subrange(0, k as int)[j]);
                            }
                        }
                    }
                    if buffer.len() >= BATCH {
                        let ghost mid = *self;
                        let _ = ary.cat(self, buffer.as_slice());
                        proof {
                            lemma_fresh_after_write(self, &mid, old(self), ary@);
                            self.lemma_changed_preserves(&mid, ary@);
                            lemma_stand_for_kept(
                                items@.subrange(0, k + 1),
                                mid.elems(ary@) + buffer@,
                                &mid,
                                self,
                            );
                        }
                        buffer.clear();
                        assert(self.elems(ary@) + buffer@ =~= self.elems(ary@));
                    }
                },
                Err(e) => {
                    proof {
                        assert(items@.subrange(0, k as int) =~= items@.subrange(0, k as int));
                    }
                    return Err(e);
                },
            }
            k = k + 1;
        }
        let ghost mid = *self;
        let _ = ary.cat(self, buffer.as_slice());
        proof {
            lemma_fresh_after_write(self, &mid, old(self), ary@);
            self.lemma_changed_preserves(&mid, ary@);
            lemma_stand_for_kept(items@.subrange(0, n as int), mid.elems(ary@) + buffer@, &mid, self);
            assert(items@.subrange(0, n as int) =~= items@);
        }
        Ok(ary)
    }

    /// A new array of the runtime values for `items`, in order.
    pub fn ary_from_iter<T: IntoValue>(&mut self, items: Vec<T>) -> (r: RArray)
        requires
            old(self).wf(),
            old(self).has_room(items@.len() + 1),
        ensures
            fresh_array(final(self), old(self), r@, final(self).elems(r@)),
            stand_for(final(self), all_values::<T, ()>(items@), final(self).elems(r@)),
    {
        let ghost src = items@;
        let mut rest = items;
        let mut wrapped: Vec<Result<T, ()>> = Vec::new();
        let mut k: usize = 0;
        let n = rest.len();
        while k < n
            invariant
                n == src.len(),
                k <= n,
                rest@ == src.subrange(k as int, n as int),
                wrapped@ == all_values::<T, ()>(src.subrange(0, k as int)),
            decreases n - k,
        {
            let x = rest.remove(0);
            wrapped.push(Ok(x));
            k = k + 1;
            assert(rest@ =~= src.subrange(k as int, n as int));
            assert(wrapped@ =~= all_values::<T, ()>(src.subrange(0, k as int)));
        }
        assert(src.subrange(0, n as int) =~= src);
        assert(all_ok(wrapped@));
        match self.ary_try_from_iter(wrapped) {
            Ok(a) => a,
            Err(_) => RArray { val: Value::nil() },
        }
    }
}


impl IntoValue for RArray {
    open spec fn represents(&self, ruby: &Ruby, v: Value) -> bool {
        v == self@
    }

    proof fn lemma_represents_grown(&self, old: &Ruby, new: &Ruby, v: Value) {
    }

    /// The value this view certifies.
    fn into_value(self, ruby: &mut Ruby) -> (v: Value) {
        proof {
            ruby.lemma_grown_refl();
        }
        self.val
    }
}

/// An array kept hidden from the runtime's object enumeration, for native
/// code to fill with values of one native type `T` before handing it over
/// with `to_r_array`.
pub struct TypedArray<T> {
    val: Value,
    marker: PhantomData<T>,
}

impl<T> View for TypedArray<T> {
    type V = Value;

    closed spec fn view(&self) -> Value {
        self.val
    }
}

impl<T> TypedArray<T> {
    fn as_r_array(&self) -> (r: RArray)
        ensures
            r@ == self@,
    {
        RArray { val: self.val }
    }

    /// Reveals the array: it becomes an ordinary array, seen by object
    /// enumeration.
    pub fn to_r_array(self, ruby: &mut Ruby) -> (r: RArray)
        requires
            old(ruby).wf(),
            old(ruby).type_of(self@) == ValueType::Array,
        ensures
            r@ == self@,
            final(ruby).wf(),
            final(ruby).flags_only(old(ruby), self@),
            !final(ruby).hidden(r@),
            final(ruby).type_of(r@) == ValueType::Array,
    {
        proof {
            old(ruby).lemma_array_live(self@);
        }
        ruby.obj_reveal(self.val);
        proof {
            ruby.lemma_flags_keep_type(old(ruby), self@);
        }
        RArray { val: self.val }
    }

    pub fn len(&self, ruby: &Ruby) -> (r: usize)
        requires
            ruby.wf(),
            ruby.type_of(self@) == ValueType::Array,
        ensures
            r == ruby.elems(self@).len(),
    {
        self.as_r_array().len(ruby)
    }

    pub fn is_empty(&self, ruby: &Ruby) -> (r: bool)
        requires
            ruby.wf(),
            ruby.type_of(self@) == ValueType::Array,
        ensures
            r == (ruby.elems(self@).len() == 0),
    {
        self.as_r_array().is_empty(ruby)
    }

    pub fn clear(&self, ruby: &mut Ruby) -> (r: Result<(), Error>)
        requires
            old(ruby).wf(),
            old(ruby).type_of(self@) == ValueType::Array,
        ensures
            write_outcome(final(ruby), old(ruby), self@, Seq::empty(), r),
    {
        self.as_r_array().clear(ruby)
    }

    pub fn concat(&self, ruby: &mut Ruby, other: TypedArray<T>) -> (r: Result<(), Error>)
        requires
            old(ruby).wf(),
            old(ruby).type_of(self@) == ValueType::Array,
            old(ruby).type_of(other@) == ValueType::Array,
        ensures
            write_outcome(
                final(ruby),
                old(ruby),
                self@,
                old(ruby).elems(self@) + old(ruby).elems(other@),
                r,
            ),
    {
        self.as_r_array().concat(ruby, other.as_r_array())
    }

    pub fn replace(&self, ruby: &mut Ruby, from: TypedArray<T>) -> (r: Result<(), Error>)
        requires
            old(ruby).wf(),
            old(ruby).type_of(self@) == ValueType::Array,
            old(ruby).type_of(from@) == ValueType::Array,
        ensures
            write_outcome(final(ruby), old(ruby), self@, old(ruby).elems(from@), r),
    {
        self.as_r_array().replace(ruby, from.as_r_array())
    }

    /// Removes every element equal to `item`. With none there, nothing is
    /// written and a frozen array raises nothing.
    pub fn delete(&self, ruby: &mut Ruby, item: Value) -> (r: Result<(), Error>)
        requires
            old(ruby).wf(),
            old(ruby).type_of(self@) == ValueType::Array,
        ensures
            !holds(old(ruby), old(ruby).elems(self@), item) ==> r == Ok::<(), Error>(())
                && *final(ruby) == *old(ruby),
            holds(old(ruby), old(ruby).elems(self@), item) ==> write_outcome(
                final(ruby),
                old(ruby),
                self@,
                without(old(ruby), old(ruby).elems(self@), item),
                r,
            ),
    {
        self.as_r_array().delete(ruby, item)
    }

    /// Whether some element equals `val`.
    pub fn includes(&self, ruby: &Ruby, val: Value) -> (r: bool)
        requires
            ruby.wf(),
            ruby.type_of(self@) == ValueType::Array,
        ensures
            r == holds(ruby, ruby.elems(self@), val),
    {
        self.as_r_array().includes(ruby, val)
    }

    /// Cuts the array to `len` elements, or pads it with `nil` to them.
    pub fn resize(&self, ruby: &mut Ruby, len: usize) -> (r: Result<(), Error>)
        requires
            old(ruby).wf(),
            old(ruby).type_of(self@) == ValueType::Array,
        ensures
            write_outcome(
                final(ruby),
                old(ruby),
                self@,
                resized(old(ruby).elems(self@), len as int),
                r,
            ),
    {
        self.as_r_array().resize(ruby, len)
    }

    /// Reverses the order of the elements.
    pub fn reverse(&self, ruby: &mut Ruby) -> (r: Result<(), Error>)
        requires
            old(ruby).wf(),
            old(ruby).type_of(self@) == ValueType::Array,
        ensures
            write_outcome(final(ruby), old(ruby), self@, reversed(old(ruby).elems(self@)), r),
    {
        self.as_r_array().reverse(ruby)
    }

    /// Rotates the elements so that the one at `rot` (modulo the length)
    /// comes first; a negative `rot` rotates the other way.
    pub fn rotate(&self, ruby: &mut Ruby, rot: isize) -> (r: Result<(), Error>)
        requires
            old(ruby).wf(),
            old(ruby).type_of(self@) == ValueType::Array,
        ensures
            write_outcome(final(ruby), old(ruby), self@, rotated(old(ruby).elems(self@), rot as int), r),
    {
        self.as_r_array().rotate(ruby, rot)
    }

    /// Sorts the elements in ascending order. Only integers compare: an
    /// array of two or more elements with anything else raises
    /// `ArgumentError` and is left as it was.
    pub fn sort(&self, ruby: &mut Ruby) -> (r: Result<(), Error>)
        requires
            old(ruby).wf(),
            old(ruby).type_of(self@) == ValueType::Array,
        ensures
            ({
                let s = old(ruby).elems(self@);
                if old(ruby).frozen(self@) {
                    r == Err::<(), Error>(frozen_error()) && *final(ruby) == *old(ruby)
                } else if s.len() >= 2 && !all_integers(old(ruby), s) {
                    r == Err::<(), Error>(Error::Raised(ExceptionClass::ArgumentError))
                        && *final(ruby) == *old(ruby)
                } else {
                    &&& r == Ok::<(), Error>(())
                    &&& written(final(ruby), old(ruby), self@, final(ruby).elems(self@))
                    &&& final(ruby).elems(self@).to_multiset() == s.to_multiset()
                    &&& ascending(old(ruby), final(ruby).elems(self@))
                }
            }),
    {
        self.as_r_array().sort(ruby)
    }

    /// The elements, read in place in the runtime's storage.
    pub fn as_slice<'a>(&self, ruby: &'a Ruby) -> (r: &'a [Value])
        requires
            ruby.wf(),
            ruby.type_of(self@) == ValueType::Array,
        ensures
            r@ == ruby.elems(self@),
    {
        ruby.ary_slice(self.val)
    }

    /// The elements as a native array of exactly `N` values; `TypeError`
    /// when the length is another.
    pub fn to_value_array<const N: usize>(&self, ruby: &Ruby) -> (r: Result<[Value; N], Error>)
        requires
            ruby.wf(),
            ruby.type_of(self@) == ValueType::Array,
        ensures
            ruby.elems(self@).len() == N ==> (r matches Ok(a) && a@ == ruby.elems(self@)),
            ruby.elems(self@).len() != N ==> r == Err::<[Value; N], Error>(
                Error::Raised(ExceptionClass::TypeError),
            ),
    {
        self.as_r_array().to_value_array(ruby)
    }

    /// A hidden duplicate, sharing this array's storage.
    pub fn dup(&self, ruby: &mut Ruby) -> (r: TypedArray<T>)
        requires
            old(ruby).wf(),
            old(ruby).has_room(1),
            old(ruby).type_of(self@) == ValueType::Array,
        ensures
            final(ruby).wf(),
            final(ruby).grown_from(old(ruby)),
            !old(ruby).live(r@),
            final(ruby).type_of(r@) == ValueType::Array,
            final(ruby).elems(r@) == old(ruby).elems(self@),
            final(ruby).hidden(r@),
            final(ruby).shares(self@, r@),
    {
        let d = self.as_r_array().dup(ruby);
        let ghost mid = *ruby;
        proof {
            ruby.lemma_array_live(d@);
        }
        ruby.obj_hide(d.as_value());
        proof {
            ruby.lemma_flags_keep_grown(&mid, old(ruby), d@);
        }
        TypedArray { val: d.as_value(), marker: PhantomData }
    }

    /// A new hidden array of up to `length` elements from `offset`, sharing
    /// this one's storage; `None` when `offset` is past the end.
    pub fn subseq(&self, ruby: &mut Ruby, offset: usize, length: usize) -> (r: Option<TypedArray<T>>)
        requires
            old(ruby).wf(),
            old(ruby).has_room(1),
            old(ruby).type_of(self@) == ValueType::Array,
        ensures
            offset > old(ruby).elems(self@).len() ==> r is None && *final(ruby) == *old(ruby),
            offset <= old(ruby).elems(self@).len() ==> (r matches Some(a) && {
                &&& final(ruby).wf()
                &&& final(ruby).grown_from(old(ruby))
                &&& !old(ruby).live(a@)
                &&& final(ruby).type_of(a@) == ValueType::Array
                &&& final(ruby).hidden(a@)
                &&& final(ruby).elems(a@) == old(ruby).elems(self@).subrange(
                    offset as int,
                    if offset + length <= old(ruby).elems(self@).len() {
                        offset + length
                    } else {
                        old(ruby).elems(self@).len() as int
                    },
                )
            }),
    {
        match self.as_r_array().subseq(ruby, offset, length) {
            None => None,
            Some(a) => {
                let ghost mid = *ruby;
                proof {
                    ruby.lemma_array_live(a@);
                }
                ruby.obj_hide(a.as_value());
                proof {
                    ruby.lemma_flags_keep_grown(&mid, old(ruby), a@);
                }
                Some(TypedArray { val: a.as_value(), marker: PhantomData })
            },
        }
    }

    /// A new hidden array: the elements of `self`, then those of `other`.
    pub fn plus(&self, ruby: &mut Ruby, other: TypedArray<T>) -> (r: TypedArray<T>)
        requires
            old(ruby).wf(),
            old(ruby).has_room(1),
            old(ruby).type_of(self@) == ValueType::Array,
            old(ruby).type_of(other@) == ValueType::Array,
        ensures
            final(ruby).wf(),
            final(ruby).grown_from(old(ruby)),
            !old(ruby).live(r@),
            final(ruby).type_of(r@) == ValueType::Array,
            final(ruby).elems(r@) == old(ruby).elems(self@) + old(ruby).elems(other@),
            final(ruby).hidden(r@),
    {
        let p = self.as_r_array().plus(ruby, other.as_r_array());
        let ghost mid = *ruby;
        proof {
            ruby.lemma_array_live(p@);
        }
        ruby.obj_hide(p.as_value());
        proof {
            ruby.lemma_flags_keep_grown(&mid, old(ruby), p@);
        }
        TypedArray { val: p.as_value(), marker: PhantomData }
    }
}

impl<T: IntoValue> TypedArray<T> {
    /// Appends the runtime value for `item`.
    pub fn push(&self, ruby: &mut Ruby, item: T) -> (r: Result<(), Error>)
        requires
            old(ruby).wf(),
            old(ruby).has_room(1),
            old(ruby).type_of(self@) == ValueType::Array,
        ensures
            exists|mid: Ruby, v: Value|
                item_written(final(ruby), &mid, old(ruby), self@, item, v) && write_outcome(
                    final(ruby),
                    &mid,
                    self@,
                    old(ruby).elems(self@).push(v),
                    r,
                ),
    {
        let ghost it = item;
        let v = item.into_value(ruby);
        let ghost mid = *ruby;
        proof {
            old(ruby).lemma_array_live(self@);
            mid.lemma_grown_keeps(old(ruby), self@);
        }
        let r = self.as_r_array().push(ruby, v);
        proof {
            lemma_item_written(ruby, &mid, old(ruby), self@, it, v, r);
        }
        r
    }

    /// Puts the runtime value for `item` in front.
    pub fn unshift(&self, ruby: &mut Ruby, item: T) -> (r: Result<(), Error>)
        requires
            old(ruby).wf(),
            old(ruby).has_room(1),
            old(ruby).type_of(self@) == ValueType::Array,
        ensures
            exists|mid: Ruby, v: Value|
                item_written(final(ruby), &mid, old(ruby), self@, item, v) && write_outcome(
                    final(ruby),
                    &mid,
                    self@,
                    seq![v] + old(ruby).elems(self@),
                    r,
                ),
    {
        let ghost it = item;
        let v = item.into_value(ruby);
        let ghost mid = *ruby;
        proof {
            old(ruby).lemma_array_live(self@);
            mid.lemma_grown_keeps(old(ruby), self@);
        }
        let r = self.as_r_array().unshift(ruby, v);
        proof {
            lemma_item_written(ruby, &mid, old(ruby), self@, it, v, r);
        }
        r
    }

    /// Stores the runtime value for `item` at `offset`, as `RArray::store`
    /// does.
    pub fn store(&self, ruby: &mut Ruby, offset: isize, item: T) -> (r: Result<(), Error>)
        requires
            old(ruby).wf(),
            old(ruby).has_room(1),
            old(ruby).type_of(self@) == ValueType::Array,
        ensures
            exists|mid: Ruby, v: Value|
                item_written(final(ruby), &mid, old(ruby), self@, item, v) && store_outcome(
                    final(ruby),
                    &mid,
                    self@,
                    offset as int,
                    v,
                    r,
                ),
    {
        let ghost it = item;
        let v = item.into_value(ruby);
        let ghost mid = *ruby;
        proof {
            old(ruby).lemma_array_live(self@);
            mid.lemma_grown_keeps(old(ruby), self@);
        }
        let r = self.as_r_array().store(ruby, offset, v);
        proof {
            if *ruby != mid {
                ruby.lemma_changed_preserves(&mid, self@);
                it.lemma_represents_grown(&mid, ruby, v);
            }
        }
        r
    }
}

impl<T: TryConvert> TypedArray<T> {
    /// Removes the last element and converts it to `T`.
    pub fn pop(&self, ruby: &mut Ruby) -> (r: Result<T, Error>)
        requires
            old(ruby).wf(),
            old(ruby).type_of(self@) == ValueType::Array,
        ensures
            exists|rv: Result<Value, Error>|
                pop_outcome(final(ruby), old(ruby), self@, rv) && then_convert(final(ruby), rv, r),
    {
        let rv = self.as_r_array().pop(ruby);
        let r = match rv {
            Ok(x) => T::try_convert(ruby, x),
            Err(e) => Err(e),
        };
        assert(pop_outcome(ruby, old(ruby), self@, rv) && then_convert(ruby, rv, r));
        r
    }

    /// Removes the first element and converts it to `T`.
    pub fn shift(&self, ruby: &mut Ruby) -> (r: Result<T, Error>)
        requires
            old(ruby).wf(),
            old(ruby).type_of(self@) == ValueType::Array,
        ensures
            exists|rv: Result<Value, Error>|
                shift_outcome(final(ruby), old(ruby), self@, rv) && then_convert(final(ruby), rv, r),
    {
        let rv = self.as_r_array().shift(ruby);
        let r = match rv {
            Ok(x) => T::try_convert(ruby, x),
            Err(e) => Err(e),
        };
        assert(shift_outcome(ruby, old(ruby), self@, rv) && then_convert(ruby, rv, r));
        r
    }

    /// Removes the element at `index` and converts it to `T`.
    pub fn delete_at(&self, ruby: &mut Ruby, index: isize) -> (r: Result<T, Error>)
        requires
            old(ruby).wf(),
            old(ruby).type_of(self@) == ValueType::Array,
        ensures
            exists|rv: Result<Value, Error>|
                delete_at_outcome(final(ruby), old(ruby), self@, index as int, rv) && then_convert(
                    final(ruby),
                    rv,
                    r,
                ),
    {
        let rv = self.as_r_array().delete_at(ruby, index);
        let r = match rv {
            Ok(x) => T::try_convert(ruby, x),
            Err(e) => Err(e),
        };
        assert(delete_at_outcome(ruby, old(ruby), self@, index as int, rv) && then_convert(ruby, rv, r));
        r
    }

    /// The element at `offset`, converted to `T`.
    pub fn entry(&self, ruby: &Ruby, offset: isize) -> (r: Result<T, Error>)
        requires
            ruby.wf(),
            ruby.type_of(self@) == ValueType::Array,
        ensures
            T::conversion(ruby, entry_value(ruby, self@, offset as int), r),
    {
        T::try_convert(ruby, self.as_r_array().entry(ruby, offset))
    }

    /// The elements, each converted to `T`.
    pub fn to_vec(&self, ruby: &Ruby) -> (r: Result<Vec<T>, Error>)
        requires
            ruby.wf(),
            ruby.type_of(self@) == ValueType::Array,
        ensures
            all_convert::<T>(ruby, ruby.elems(self@)) ==> (r matches Ok(out) && converted(
                ruby,
                ruby.elems(self@),
                out@,
            )),
            !all_convert::<T>(ruby, ruby.elems(self@)) ==> (r matches Err(e) && first_failure::<T>(
                ruby,
                ruby.elems(self@),
                e,
            )),
    {
        self.as_r_array().to_vec(ruby)
    }

    /// The elements, each converted to `T`, as a native array of exactly
    /// `N` items.
    pub fn to_array<const N: usize>(&self, ruby: &Ruby) -> (r: Result<[T; N], Error>)
        requires
            ruby.wf(),
            ruby.type_of(self@) == ValueType::Array,
        ensures
            ruby.elems(self@).len() != N ==> r == Err::<[T; N], Error>(
                Error::Raised(ExceptionClass::TypeError),
            ),
            ruby.elems(self@).len() == N && all_convert::<T>(ruby, ruby.elems(self@)) ==> (r matches Ok(
                a,
            ) && converted(ruby, ruby.elems(self@), a@)),
            ruby.elems(self@).len() == N && !all_convert::<T>(ruby, ruby.elems(self@)) ==> (r matches Err(
                e,
            ) && first_failure::<T>(ruby, ruby.elems(self@), e)),
    {
        self.as_r_array().to_array(ruby)
    }
}


impl Ruby {
    /// A new empty array, hidden from object enumeration.
    pub fn typed_ary_new<T>(&mut self) -> (r: TypedArray<T>)
        requires
            old(self).wf(),
            old(self).has_room(1),
        ensures
            fresh_array(final(self), old(self), r@, Seq::empty()),
            final(self).hidden(r@),
    {
        let items: Vec<Value> = Vec::new();
        assert(items@ =~= Seq::<Value>::empty());
        let v = self.alloc_array(items, true);
        TypedArray { val: v, marker: PhantomData }
    }
}


impl TryConvert for RArray {
    open spec fn converts(ruby: &Ruby, v: Value) -> bool {
        ruby.type_of(v) == ValueType::Array || (ruby.type_of(v) == ValueType::Object && match ruby.coercions(
            v,
        ).1 {
            Coercion::Returns(x) => ruby.type_of(x) == ValueType::Array,
            _ => false,
        })
    }

    open spec fn conversion(ruby: &Ruby, v: Value, r: Result<RArray, Error>) -> bool {
        ary_conversion(ruby, v, r)
    }

    /// An array converts as it is; an object through its `to_ary` method,
    /// whose exception is the error; anything else is a conversion error.
    fn try_convert(ruby: &Ruby, v: Value) -> (r: Result<RArray, Error>) {
        match ruby.value_type(v) {
            ValueType::Array => Ok(RArray { val: v }),
            ValueType::Object => match ruby.coercions_of(v).1 {
                Coercion::Raises(e) => Err(Error::Foreign(e)),
                Coercion::Returns(x) => match RArray::from_value(ruby, x) {
                    Some(a) => Ok(a),
                    None => Err(Error::Conversion(ValueType::Object)),
                },
                Coercion::Absent => Err(Error::Conversion(ValueType::Object)),
            },
            t => Err(Error::Conversion(t)),
        }
    }
}

} // verus!
