use std::cmp::Ordering;
use magnus::array::{RArray, TypedArray};
use magnus::convert::{IntoValue, TryConvert};
use magnus::error::{Error, ExceptionClass, ValueType};
use magnus::integer::Integer;
use magnus::runtime::{Coercion, Ruby};
use magnus::value::Value;

fn ints(ruby: &mut Ruby, ns: &[i64]) -> Vec<Value> {
    ns.iter().map(|n| Integer::from_i64(*n).into_value(ruby)).collect()
}

fn as_i64s(ruby: &Ruby, vs: &[Value]) -> Vec<i64> {
    vs.iter().map(|v| Integer::from_value(ruby, *v).unwrap().to_i64().unwrap()).collect()
}

#[test]
fn dup_shares_until_written() {
    let mut ruby = Ruby::new();
    let items = ints(&mut ruby, &[1, 2, 3, 4, 5]);
    let a = ruby.ary_from_vec(items);
    let b = a.dup(&mut ruby);
    assert!(a.is_shared(&ruby, b));
    assert!(b.is_shared(&ruby, a));
    let six = Value::fixnum(6).unwrap();
    b.push(&mut ruby, six).unwrap();
    assert!(!a.is_shared(&ruby, b));
    assert_eq!(as_i64s(&ruby, &a.each(&ruby)), vec![1, 2, 3, 4, 5]);
    assert_eq!(as_i64s(&ruby, &b.each(&ruby)), vec![1, 2, 3, 4, 5, 6]);
}

#[test]
fn writing_the_source_unshares_too() {
    let mut ruby = Ruby::new();
    let items = ints(&mut ruby, &[7, 8, 9]);
    let a = ruby.ary_from_vec(items);
    let b = a.dup(&mut ruby);
    a.reverse(&mut ruby).unwrap();
    assert!(!a.is_shared(&ruby, b));
    assert_eq!(as_i64s(&ruby, &a.each(&ruby)), vec![9, 8, 7]);
    assert_eq!(as_i64s(&ruby, &b.each(&ruby)), vec![7, 8, 9]);
}

#[test]
fn batch_construction_keeps_order() {
    let mut ruby = Ruby::new();
    let items: Vec<Value> = (0..300).map(|n| Value::fixnum(n).unwrap()).collect();
    let a = ruby.ary_from_iter(items);
    assert_eq!(a.len(&ruby), 300);
    let got = as_i64s(&ruby, &a.each(&ruby));
    assert_eq!(got, (0..300).collect::<Vec<i64>>());
}

#[test]
fn try_from_iter_stops_at_first_error() {
    let mut ruby = Ruby::new();
    let items: Vec<Result<Value, &str>> = vec![
        Ok(Value::fixnum(1).unwrap()),
        Err("first"),
        Ok(Value::fixnum(2).unwrap()),
        Err("second"),
    ];
    assert_eq!(ruby.ary_try_from_iter(items).err(), Some("first"));
    let ok: Vec<Result<Value, &str>> = vec![Ok(Value::nil()), Ok(Value::from_bool(true))];
    let a = ruby.ary_try_from_iter(ok).unwrap();
    assert_eq!(a.each(&ruby), vec![Value::nil(), Value::from_bool(true)]);
}

#[test]
fn empty_array() {
    let mut ruby = Ruby::new();
    let a = RArray::new(&mut ruby);
    assert!(a.is_empty(&ruby));
    let b = RArray::with_capacity(&mut ruby, 10);
    assert_eq!(b.len(&ruby), 0);
    assert_eq!(a.pop(&mut ruby), Ok(Value::nil()));
    assert_eq!(a.shift(&mut ruby), Ok(Value::nil()));
}

#[test]
fn frozen_array_refuses_writes() {
    let mut ruby = Ruby::new();
    let items = ints(&mut ruby, &[1, 2]);
    let a = RArray::from_slice(&mut ruby, &items);
    ruby.freeze(a.as_value());
    let frozen = Err(Error::Raised(ExceptionClass::FrozenError));
    assert_eq!(a.push(&mut ruby, Value::nil()), frozen);
    assert_eq!(a.clear(&mut ruby), frozen);
    assert_eq!(a.pop(&mut ruby), Err(Error::Raised(ExceptionClass::FrozenError)));
    assert_eq!(a.len(&ruby), 2);
}

#[test]
fn push_pop_shift_unshift() {
    let mut ruby = Ruby::new();
    let a = ruby.ary_new();
    a.push(&mut ruby, Value::fixnum(1).unwrap()).unwrap();
    a.push(&mut ruby, Value::fixnum(2).unwrap()).unwrap();
    a.unshift(&mut ruby, Value::fixnum(0).unwrap()).unwrap();
    assert_eq!(as_i64s(&ruby, &a.each(&ruby)), vec![0, 1, 2]);
    assert_eq!(a.pop(&mut ruby), Ok(Value::fixnum(2).unwrap()));
    assert_eq!(a.shift(&mut ruby), Ok(Value::fixnum(0).unwrap()));
    assert_eq!(as_i64s(&ruby, &a.each(&ruby)), vec![1]);
}

#[test]
fn rotate_resize_store_entry() {
    let mut ruby = Ruby::new();
    let items = ints(&mut ruby, &[1, 2, 3, 4]);
    let a = ruby.ary_from_vec(items);
    a.rotate(&mut ruby, 1).unwrap();
    assert_eq!(as_i64s(&ruby, &a.each(&ruby)), vec![2, 3, 4, 1]);
    a.rotate(&mut ruby, -3).unwrap();
    assert_eq!(as_i64s(&ruby, &a.each(&ruby)), vec![3, 4, 1, 2]);
    assert_eq!(a.entry(&ruby, -1), Value::fixnum(2).unwrap());
    assert_eq!(a.entry(&ruby, 9), Value::nil());
    a.resize(&mut ruby, 2).unwrap();
    assert_eq!(as_i64s(&ruby, &a.each(&ruby)), vec![3, 4]);
    a.store(&mut ruby, 3, Value::fixnum(5).unwrap()).unwrap();
    assert_eq!(a.each(&ruby)[2], Value::nil());
    assert_eq!(a.entry(&ruby, 3), Value::fixnum(5).unwrap());
    assert_eq!(
        a.store(&mut ruby, -9, Value::nil()),
        Err(Error::Raised(ExceptionClass::IndexError))
    );
}

#[test]
fn delete_and_includes_compare_integers_by_value() {
    let mut ruby = Ruby::new();
    let big = Integer::from_i64(i64::MAX).into_value(&mut ruby);
    let big2 = Integer::from_i64(i64::MAX).into_value(&mut ruby);
    assert_ne!(big, big2);
    let one = Value::fixnum(1).unwrap();
    let a = RArray::from_slice(&mut ruby, &[one, big, one]);
    assert!(a.includes(&ruby, big2));
    a.delete(&mut ruby, big2).unwrap();
    assert_eq!(a.each(&ruby), vec![one, one]);
    assert_eq!(a.delete_at(&mut ruby, -1), Ok(one));
    assert_eq!(a.delete_at(&mut ruby, 5), Ok(Value::nil()));
    assert_eq!(a.len(&ruby), 1);
}

#[test]
fn subseq_and_plus() {
    let mut ruby = Ruby::new();
    let items = ints(&mut ruby, &[1, 2, 3, 4, 5]);
    let a = ruby.ary_from_vec(items);
    let s = a.subseq(&mut ruby, 1, 10).unwrap();
    assert_eq!(as_i64s(&ruby, &s.each(&ruby)), vec![2, 3, 4, 5]);
    assert!(a.subseq(&mut ruby, 6, 1).is_none());
    let p = a.plus(&mut ruby, s);
    assert_eq!(p.len(&ruby), 9);
    a.concat(&mut ruby, s).unwrap();
    assert_eq!(a.len(&ruby), 9);
}

#[test]
fn assoc_and_conversions() {
    let mut ruby = Ruby::new();
    let k = Value::symbol(7);
    let pair = RArray::from_slice(&mut ruby, &[k, Value::fixnum(1).unwrap()]);
    let a = RArray::from_slice(&mut ruby, &[Value::nil(), pair.as_value()]);
    assert_eq!(a.assoc(&ruby, k), pair.as_value());
    assert_eq!(a.rassoc(&ruby, Value::fixnum(1).unwrap()), pair.as_value());
    assert_eq!(a.assoc(&ruby, Value::nil()), Value::nil());

    let conv = ruby.object_new(Coercion::Absent, Coercion::Returns(pair.as_value()));
    assert_eq!(RArray::try_convert(&ruby, conv).unwrap().as_value(), pair.as_value());
    assert!(matches!(
        RArray::try_convert(&ruby, Value::nil()),
        Err(Error::Conversion(ValueType::Nil))
    ));
    let wrapped = RArray::to_ary(&mut ruby, Value::nil()).unwrap();
    assert_eq!(wrapped.each(&ruby), vec![Value::nil()]);
}

#[test]
fn typed_array_is_hidden_until_revealed() {
    let mut ruby = Ruby::new();
    let t: TypedArray<Value> = ruby.typed_ary_new();
    t.push(&mut ruby, Value::fixnum(3).unwrap()).unwrap();
    let seen = ruby.each_object();
    assert!(seen.is_empty());
    let a = t.to_r_array(&mut ruby);
    assert_eq!(ruby.each_object(), vec![a.as_value()]);
    assert_eq!(a.len(&ruby), 1);
}

#[test]
fn sort_orders_integers() {
    let mut ruby = Ruby::new();
    let items = ints(&mut ruby, &[3, i64::MIN, 2, 9, 2]);
    let a = ruby.ary_from_vec(items);
    a.sort(&mut ruby).unwrap();
    assert_eq!(as_i64s(&ruby, &a.each(&ruby)), vec![i64::MIN, 2, 2, 3, 9]);
    let mixed = RArray::from_slice(&mut ruby, &[Value::fixnum(1).unwrap(), Value::nil()]);
    assert_eq!(mixed.sort(&mut ruby), Err(Error::Raised(ExceptionClass::ArgumentError)));
    let single = RArray::from_slice(&mut ruby, &[Value::nil()]);
    assert_eq!(single.sort(&mut ruby), Ok(()));
}

#[test]
fn compare_arrays() {
    let mut ruby = Ruby::new();
    let one = Value::fixnum(1).unwrap();
    let two = Value::fixnum(2).unwrap();
    let a = RArray::from_slice(&mut ruby, &[one, two]);
    let b = RArray::from_slice(&mut ruby, &[one, two, one]);
    let c = RArray::from_slice(&mut ruby, &[two]);
    let d = RArray::from_slice(&mut ruby, &[Value::nil()]);
    assert_eq!(a.cmp(&ruby, b), Some(Ordering::Less));
    assert_eq!(c.cmp(&ruby, a), Some(Ordering::Greater));
    assert_eq!(a.cmp(&ruby, a), Some(Ordering::Equal));
    assert_eq!(a.cmp(&ruby, d), None);
}

#[test]
fn slice_view_reads_in_place() {
    let mut ruby = Ruby::new();
    let items = ints(&mut ruby, &[4, 5, 6]);
    let a = ruby.ary_from_vec(items);
    let s = a.subseq(&mut ruby, 1, 2).unwrap();
    let view = s.as_slice(&ruby);
    assert_eq!(as_i64s(&ruby, view), vec![5, 6]);
    let t: TypedArray<Value> = ruby.typed_ary_new();
    t.push(&mut ruby, Value::nil()).unwrap();
    assert_eq!(t.as_slice(&ruby), &[Value::nil()]);
}

#[test]
fn fixed_size_arrays() {
    let mut ruby = Ruby::new();
    let one = Value::fixnum(1).unwrap();
    let a = RArray::from_slice(&mut ruby, &[one, Value::nil()]);
    let got: Result<[Value; 2], Error> = a.to_value_array(&ruby);
    assert_eq!(got, Ok([one, Value::nil()]));
    let wrong: Result<[Value; 3], Error> = a.to_value_array(&ruby);
    assert_eq!(wrong, Err(Error::Raised(ExceptionClass::TypeError)));
}

#[test]
fn convert_elements() {
    let mut ruby = Ruby::new();
    let items = ints(&mut ruby, &[1, i64::MAX]);
    let a = ruby.ary_from_vec(items);
    let got: Vec<Integer> = a.to_vec(&ruby).unwrap();
    assert_eq!(got[1].to_i64(), Ok(i64::MAX));
    let t = a.typecheck::<Integer>(&mut ruby).unwrap();
    assert_eq!(t.len(&ruby), 2);
    let exc = ruby.exception_new(ExceptionClass::RangeError);
    let bad = ruby.object_new(Coercion::Raises(exc), Coercion::Absent);
    let b = RArray::from_slice(&mut ruby, &[Value::fixnum(1).unwrap(), bad, Value::nil()]);
    assert_eq!(b.to_vec::<Integer>(&ruby).err(), Some(Error::Foreign(exc)));
    assert!(matches!(b.typecheck::<Integer>(&mut ruby), Err(Error::Foreign(e)) if e == exc));
    assert_eq!(b.to_vec::<Value>(&ruby).unwrap().len(), 3);
}

#[test]
fn arrays_from_native_values() {
    let mut ruby = Ruby::new();
    let a = ruby.ary_from_vec(vec![1i64, i64::MAX, -3]);
    assert_eq!(as_i64s(&ruby, &a.each(&ruby)), vec![1, i64::MAX, -3]);
    assert_eq!(ruby.value_type(a.each(&ruby)[1]), ValueType::Bignum);
    let b = RArray::from_vec(&mut ruby, vec![true, false]);
    assert_eq!(b.each(&ruby), vec![Value::from_bool(true), Value::from_bool(false)]);
    let items: Vec<Result<Integer, ()>> = vec![Ok(Integer::from_i64(5)), Ok(Integer::from_u64(u64::MAX))];
    let c = ruby.ary_try_from_iter(items).unwrap();
    let got: Vec<Integer> = c.to_vec(&ruby).unwrap();
    assert_eq!(got[1].to_u64(), Ok(u64::MAX));
}

#[test]
fn typed_array_of_integers() {
    let mut ruby = Ruby::new();
    let t: TypedArray<Integer> = ruby.typed_ary_new();
    t.push(&mut ruby, Integer::from_i64(7)).unwrap();
    t.unshift(&mut ruby, Integer::from_u64(u64::MAX)).unwrap();
    t.store(&mut ruby, 3, Integer::from_i64(-1)).unwrap();
    assert_eq!(t.len(&ruby), 4);
    assert_eq!(t.entry(&ruby, 0).unwrap().to_u64(), Ok(u64::MAX));
    assert!(matches!(t.entry(&ruby, 2), Err(Error::Conversion(ValueType::Nil))));
    assert_eq!(t.pop(&mut ruby).unwrap().to_i64(), Ok(-1));
    assert_eq!(t.shift(&mut ruby).unwrap().to_u64(), Ok(u64::MAX));
    assert_eq!(t.delete_at(&mut ruby, 0).unwrap().to_i64(), Ok(7));
    assert!(matches!(t.to_vec(&ruby), Err(Error::Conversion(ValueType::Nil))));
    t.clear(&mut ruby).unwrap();
    t.push(&mut ruby, Integer::from_i64(5)).unwrap();
    let back: Vec<Integer> = t.to_vec(&ruby).unwrap();
    assert_eq!(back.len(), 1);
    let arr: [Integer; 1] = t.to_array(&ruby).unwrap();
    assert_eq!(arr[0].to_i64(), Ok(5));
}

#[test]
fn to_array_converts_each_element() {
    let mut ruby = Ruby::new();
    let a = ruby.ary_from_vec(vec![1i64, 2]);
    let got: [Integer; 2] = a.to_array(&ruby).unwrap();
    assert_eq!(got[1].to_i64(), Ok(2));
    let wrong: Result<[Integer; 3], Error> = a.to_array(&ruby);
    assert!(matches!(wrong, Err(Error::Raised(ExceptionClass::TypeError))));
    let mixed = RArray::from_slice(&mut ruby, &[Value::fixnum(1).unwrap(), Value::nil()]);
    let bad: Result<[Integer; 2], Error> = mixed.to_array(&ruby);
    assert!(matches!(bad, Err(Error::Conversion(ValueType::Nil))));
}
