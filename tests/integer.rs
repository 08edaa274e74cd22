use magnus::error::{Error, ValueType};
use magnus::convert::{IntoValue, TryConvert};
use magnus::integer::Integer;
use magnus::runtime::{Coercion, Ruby};
use magnus::error::ExceptionClass;
use magnus::value::Value;

#[test]
fn immediate_boundary() {
    assert!(Integer::from_i64(4611686018427387904).is_bignum());
    assert!(Integer::from_i64(4611686018427387903).is_fixnum());
    assert!(Integer::from_i64(-4611686018427387904).is_fixnum());
    assert!(Integer::from_i64(-4611686018427387905).is_bignum());
}

#[test]
fn i64_round_trip() {
    for n in [0i64, 1, -1, 42, i64::MAX, i64::MIN, 4611686018427387904, -4611686018427387905] {
        assert_eq!(Integer::from_i64(n).to_i64(), Ok(n));
    }
}

#[test]
fn i64_round_trip_through_value() {
    let mut ruby = Ruby::new();
    for n in [0i64, -7, i64::MAX, i64::MIN, 4611686018427387903, 4611686018427387904] {
        let v = Integer::from_i64(n).into_value(&mut ruby);
        let back = Integer::from_value(&ruby, v).unwrap();
        assert_eq!(back.to_i64(), Ok(n));
    }
}

#[test]
fn add_fast_path_and_promotion() {
    let a = Integer::from_i64(20);
    let b = Integer::from_i64(22);
    let s = a.add(&b);
    assert!(s.is_fixnum());
    assert_eq!(s.to_i64(), Ok(42));

    let max = Integer::from_i64(4611686018427387903);
    let one = Integer::from_i64(1);
    let over = max.add(&one);
    assert!(over.is_bignum());
    assert_eq!(over.to_i64(), Ok(4611686018427387904));

    let big = Integer::from_i64(i64::MAX);
    let sum = big.add(&big);
    assert_eq!(sum.to_i64(), Err(Error::Range));
    let back = sum.sub(&big);
    assert_eq!(back.to_i64(), Ok(i64::MAX));
    assert_eq!(sum.to_u64(), Ok(18446744073709551614));
}

#[test]
fn norm_is_idempotent() {
    let max = Integer::from_i64(4611686018427387903);
    let one = Integer::from_i64(1);
    let big = max.add(&one).sub(&one);
    assert!(big.is_bignum());
    let n1 = big.norm();
    assert!(n1.is_fixnum());
    let n2 = n1.norm();
    assert!(n2.is_fixnum());
    assert!(n1 == n2);
    assert_eq!(n2.to_i64(), Ok(4611686018427387903));
}

#[test]
fn float_is_no_integer() {
    let mut ruby = Ruby::new();
    let f = ruby.float_new(1.5f64.to_bits());
    assert_eq!(ruby.value_type(f), ValueType::Float);
    assert!(matches!(Integer::try_convert(&ruby, f), Err(Error::Conversion(ValueType::Float))));
}

#[test]
fn raising_to_int_is_foreign_error() {
    let mut ruby = Ruby::new();
    let exc = ruby.exception_new(ExceptionClass::ArgumentError);
    let obj = ruby.object_new(Coercion::Raises(exc), Coercion::Absent);
    match Integer::try_convert(&ruby, obj) {
        Err(Error::Foreign(e)) => assert_eq!(e, exc),
        _ => panic!("expected the raised exception"),
    }
}

#[test]
fn mul_div_and_compare() {
    let a = Integer::from_i64(-7);
    let b = Integer::from_i64(2);
    assert_eq!(a.div(&b).to_i64(), Ok(-4));
    assert_eq!(Integer::from_i64(7).div(&Integer::from_i64(-2)).to_i64(), Ok(-4));
    assert_eq!(Integer::from_i64(-8).div(&b).to_i64(), Ok(-4));
    let q = Integer::from_i64(-4611686018427387904).div(&Integer::from_i64(-1));
    assert!(q.is_bignum());
    assert_eq!(q.to_i64(), Ok(4611686018427387904));
    let big = Integer::from_i64(i64::MAX).mul(&Integer::from_i64(4));
    assert!(big.is_bignum());
    assert_eq!(big.div(&Integer::from_i64(4)).to_i64(), Ok(i64::MAX));
    let neg = Integer::from_i64(i64::MIN).mul(&Integer::from_i64(2));
    assert_eq!(neg.div(&Integer::from_i64(-2)).to_u64(), Ok(9223372036854775808));
    // bignum division rounds toward negative infinity
    let m = Integer::from_i64(i64::MIN).sub(&Integer::from_i64(1));
    assert_eq!(m.div(&Integer::from_i64(2)).to_i64(), Ok(-4611686018427387905));
    assert!(a < b);
    assert!(big > b);
    assert_eq!(a.compare(&a), 0);
    let sq = big.mul(&big);
    assert_eq!(sq.div(&big).compare(&big), 0);
    let mut acc = Integer::from_i64(10);
    acc.add_assign(&Integer::from_i64(5));
    acc.mul_assign(&Integer::from_i64(3));
    acc.sub_assign(&Integer::from_i64(1));
    acc.div_assign(&Integer::from_i64(4));
    assert_eq!(acc.to_i64(), Ok(11));
}

#[test]
fn narrow_conversions() {
    assert_eq!(Integer::from_i64(127).to_i8(), Ok(127));
    assert_eq!(Integer::from_i64(128).to_i8(), Err(Error::Range));
    assert_eq!(Integer::from_i64(-1).to_u8(), Err(Error::Range));
    assert_eq!(Integer::from_i64(65535).to_u16(), Ok(65535));
    assert_eq!(Integer::from_i64(-32769).to_i16(), Err(Error::Range));
    assert_eq!(Integer::from_i64(-2147483648).to_i32(), Ok(-2147483648));
    assert_eq!(Integer::from_u64(u64::MAX).to_u64(), Ok(u64::MAX));
    assert_eq!(Integer::from_u64(u64::MAX).to_i64(), Err(Error::Range));
    assert_eq!(Integer::from_u64(4294967296).to_u32(), Err(Error::Range));
    assert_eq!(Integer::from_i64(5).to_usize(), Ok(5));
    assert_eq!(Integer::from_i64(-5).to_isize(), Ok(-5));
    assert!(Integer::from_u64(4611686018427387904).is_bignum());
}

#[test]
fn to_int_conversion() {
    let mut ruby = Ruby::new();
    let seven = Value::fixnum(7).unwrap();
    let obj = ruby.object_new(Coercion::Returns(seven), Coercion::Absent);
    assert_eq!(Integer::try_convert(&ruby, obj).unwrap().to_i64(), Ok(7));
    let plain = ruby.object_new(Coercion::Absent, Coercion::Absent);
    assert!(matches!(
        Integer::try_convert(&ruby, plain),
        Err(Error::Conversion(ValueType::Object))
    ));
    assert!(matches!(
        Integer::try_convert(&ruby, Value::nil()),
        Err(Error::Conversion(ValueType::Nil))
    ));
    assert_eq!(ruby.integer_from_i64(3).to_i64(), Ok(3));
    assert_eq!(ruby.integer_from_u64(3).to_u64(), Ok(3));
}
