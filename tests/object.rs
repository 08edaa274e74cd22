use magnus::error::{Error, ExceptionClass, ValueType};
use magnus::convert::TryConvert;
use magnus::object::{Binding, RFile, RObject, Thread};
use magnus::runtime::{Coercion, Ruby};
use magnus::value::Value;

#[test]
fn classification() {
    let mut ruby = Ruby::new();
    let o = ruby.object_new(Coercion::Absent, Coercion::Absent);
    assert!(RObject::from_value(&ruby, o).is_some());
    assert!(RFile::from_value(&ruby, o).is_none());
    assert!(Thread::from_value(&ruby, o).is_none());
    assert_eq!(ruby.value_type(Value::nil()), ValueType::Nil);
    assert_eq!(ruby.value_type(Value::from_bool(true)), ValueType::True);
    assert_eq!(ruby.value_type(Value::from_bool(false)), ValueType::False);
    assert_eq!(ruby.value_type(Value::symbol(3)), ValueType::Symbol);
    assert_eq!(ruby.value_type(Value::fixnum(-5).unwrap()), ValueType::Fixnum);
    assert_eq!(ruby.value_type(Value::from_slot(99)), ValueType::Undef);
}

#[test]
fn binding_locals() {
    let mut ruby = Ruby::new();
    let b = Binding::new(&mut ruby);
    let x = Value::symbol(1);
    assert_eq!(
        b.local_variable_get(&ruby, x),
        Err(Error::Raised(ExceptionClass::NameError))
    );
    b.local_variable_set(&mut ruby, x, Value::fixnum(1).unwrap());
    b.local_variable_set(&mut ruby, x, Value::fixnum(2).unwrap());
    assert_eq!(b.local_variable_get(&ruby, x), Ok(Value::fixnum(2).unwrap()));
    assert!(Binding::from_value(&ruby, b.as_value()).is_some());
}

#[test]
fn thread_states() {
    let mut ruby = Ruby::new();
    let v = ruby.thread_new();
    let t = Thread::from_value(&ruby, v).unwrap();
    assert_eq!(t.wakeup(&mut ruby), Ok(()));
    assert_eq!(t.kill(&mut ruby), Ok(()));
    assert_eq!(t.run(&mut ruby), Err(Error::Raised(ExceptionClass::ThreadError)));
    t.wakeup_alive(&mut ruby);
}

#[test]
fn conservative_marking() {
    let mut ruby = Ruby::new();
    let o = ruby.object_new(Coercion::Absent, Coercion::Absent);
    let words = vec![0u64, 7, o.as_word(), 8 * 1000, 3, o.as_word()];
    assert_eq!(ruby.mark_maybe(&words), vec![o, o]);
}

#[test]
fn wrapped_data_is_hidden_and_marks_through_its_payload() {
    let mut ruby = Ruby::new();
    let kept = ruby.object_new(Coercion::Absent, Coercion::Absent);
    let d = ruby.data_wrap(vec![42, kept.as_word(), 0x14]);
    assert_eq!(ruby.value_type(d), ValueType::Data);
    assert!(ruby.is_hidden(d));
    assert_eq!(ruby.each_object(), vec![kept]);
    assert_eq!(ruby.data_mark(d), vec![kept]);
}

#[test]
fn immediate_words() {
    assert_eq!(Value::fixnum(0).unwrap().as_word(), 1);
    assert_eq!(Value::fixnum(1).unwrap().as_word(), 3);
    assert_eq!(Value::fixnum(-1).unwrap().as_word(), u64::MAX);
    assert_eq!(Value::fixnum(-1).unwrap().fixnum_to_i64(), -1);
    assert_eq!(Value::fixnum(4611686018427387903).unwrap().fixnum_to_i64(), 4611686018427387903);
    assert!(Value::fixnum(4611686018427387904).is_none());
    assert_eq!(Value::nil().as_word(), 0x04);
    assert_eq!(Value::from_slot(0).as_word(), 8);
}

#[test]
fn stopping_threads() {
    let mut ruby = Ruby::new();
    let main = ruby.thread_new();
    assert!(ruby.thread_alone());
    assert_eq!(ruby.thread_stop(main), Err(Error::Raised(ExceptionClass::ThreadError)));
    let other = ruby.thread_new();
    assert!(!ruby.thread_alone());
    assert_eq!(ruby.thread_stop(main), Ok(()));
    let t = Thread::from_value(&ruby, main).unwrap();
    assert_eq!(t.wakeup(&mut ruby), Ok(()));
    Thread::from_value(&ruby, other).unwrap().kill(&mut ruby).unwrap();
    assert!(ruby.thread_alone());
}

#[test]
fn files() {
    let mut ruby = Ruby::new();
    let f = ruby.file_new(3);
    assert_eq!(RFile::from_value(&ruby, f).unwrap().as_value(), f);
    assert!(matches!(RFile::try_convert(&ruby, Value::nil()), Err(Error::Conversion(ValueType::Nil))));
}
