//! Integers in two representations: an immediate in the tagged word, or a
//! bignum on the heap. Arithmetic stays on immediates while results fit and
//! spills to bignums when they do not.
use crate::bignum::{floor_div, BigInt};
use crate::convert::{IntoValue, TryConvert};
use crate::error::{Error, ValueType};
use crate::runtime::{Coercion, Ruby};
use crate::value::{fixnum_range, fixnum_word, Value, FIXNUM_MAX, FIXNUM_MIN};
use std::cmp::Ordering;
use vstd::arithmetic::div_mod::{lemma_fundamental_div_mod, lemma_fundamental_div_mod_converse_div};
use vstd::prelude::*;

verus! {

/// What converting the integer `x` to an `i64` gives.
pub open spec fn i64_result(x: int) -> Result<i64, Error> {
    if i64::MIN <= x <= i64::MAX {
        Ok(x as i64)
    } else {
        Err(Error::Range)
    }
}

/// `y` is `x` in canonical form: the same integer, held as an immediate
/// exactly when it fits one.
pub open spec fn normalized(x: Integer, y: Integer) -> bool {
    y@ == x@ && y.is_fixnum_spec() == fixnum_range(x@)
}

/// Whether class `t` is one of the two integer representations.
pub open spec fn is_integer_type(t: ValueType) -> bool {
    t == ValueType::Fixnum || t == ValueType::Bignum
}

/// The integer an integer value `v` stands for.
pub open spec fn int_value(ruby: &Ruby, v: Value) -> int {
    if v.is_fixnum_spec() {
        v.fixnum_val()
    } else {
        ruby.bignum_val(v)
    }
}

/// What converting `v` to an integer gives: an integer converts as it is;
/// an object converts through its `to_int` method, and what that method
/// raises is the error; anything else is a conversion error.
pub open spec fn int_conversion(ruby: &Ruby, v: Value, r: Result<Integer, Error>) -> bool {
    let t = ruby.type_of(v);
    if is_integer_type(t) {
        r matches Ok(i) && i@ == int_value(ruby, v) && i.is_fixnum_spec() == (t == ValueType::Fixnum)
    } else if t == ValueType::Object {
        match ruby.coercions(v).0 {
            Coercion::Absent => r == Err::<Integer, Error>(Error::Conversion(ValueType::Object)),
            Coercion::Raises(e) => r == Err::<Integer, Error>(Error::Foreign(e)),
            Coercion::Returns(x) => if is_integer_type(ruby.type_of(x)) {
                r matches Ok(i) && i@ == int_value(ruby, x) && i.is_fixnum_spec() == (ruby.type_of(x)
                    == ValueType::Fixnum)
            } else {
                r == Err::<Integer, Error>(Error::Conversion(ValueType::Object))
            },
        }
    } else {
        r == Err::<Integer, Error>(Error::Conversion(t))
    }
}

/// An `i64` survives the trip into a runtime value and back: the value
/// that stands for it converts to an integer whose `i64` is `n` again.
pub proof fn law_i64_round_trip(ruby: &Ruby, n: i64, v: Value, r: Result<Integer, Error>)
    requires
        n.represents(ruby, v),
        int_conversion(ruby, v, r),
    ensures
        r matches Ok(i) && i64_result(i@) == Ok::<i64, Error>(n),
{
}

/// Adding two immediates whose sum fits one adds their words and takes one
/// away, modulo 2^64: the fast path needs no heap work.
pub proof fn law_fixnum_add_words(a: int, b: int)
    requires
        fixnum_range(a),
        fixnum_range(b),
        fixnum_range(a + b),
    ensures
        fixnum_word(a + b) == (fixnum_word(a) + fixnum_word(b) - 1) % 18446744073709551616,
{
    let m: int = 18446744073709551616;
    let s = fixnum_word(a) + fixnum_word(b) - 1;
    if a + b >= 0 {
        if a >= 0 && b >= 0 {
            vstd::arithmetic::div_mod::lemma_small_mod(s as nat, m as nat);
        } else {
            assert(s == fixnum_word(a + b) + m);
            vstd::arithmetic::div_mod::lemma_fundamental_div_mod_converse_mod(s, m, 1, fixnum_word(a + b));
        }
    } else {
        if a < 0 && b < 0 {
            assert(s == fixnum_word(a + b) + m);
            vstd::arithmetic::div_mod::lemma_fundamental_div_mod_converse_mod(s, m, 1, fixnum_word(a + b));
        } else {
            vstd::arithmetic::div_mod::lemma_small_mod(s as nat, m as nat);
        }
    }
}

/// Normalizing is idempotent, and turns a bignum that fits an immediate
/// into an immediate.
pub proof fn law_norm_idempotent(x: Integer, y: Integer, z: Integer)
    requires
        normalized(x, y),
        normalized(y, z),
    ensures
        normalized(x, z),
        z@ == y@,
        z.is_fixnum_spec() == y.is_fixnum_spec(),
        !x.is_fixnum_spec() && fixnum_range(x@) ==> y.is_fixnum_spec(),
{
}

/// A float is no integer, and a `to_int` method that raises makes the
/// conversion fail with what it raised.
pub proof fn law_conversion_failures(ruby: &Ruby, v: Value, r: Result<Integer, Error>)
    requires
        int_conversion(ruby, v, r),
    ensures
        ruby.type_of(v) == ValueType::Float ==> r == Err::<Integer, Error>(
            Error::Conversion(ValueType::Float),
        ),
        ruby.type_of(v) == ValueType::Object && ruby.coercions(v).0 is Raises ==> r == Err::<
            Integer,
            Error,
        >(Error::Foreign(ruby.coercions(v).0->Raises_0)),
{
}

enum Repr {
    /// The immediate's word read as a signed integer: `2n + 1`.
    Fixnum(i64),
    Bignum(BigInt),
}

/// An integer value, certified to be of one of the two integer
/// representations.
pub struct Integer {
    repr: Repr,
}

impl Integer {
    #[verifier::type_invariant]
    spec fn inv(&self) -> bool {
        match self.repr {
            Repr::Fixnum(raw) => raw % 2 == 1,
            Repr::Bignum(b) => b.wf(),
        }
    }

    /// The integer this stands for.
    pub closed spec fn view(&self) -> int {
        match self.repr {
            Repr::Fixnum(raw) => raw / 2,
            Repr::Bignum(b) => b@,
        }
    }

    /// An immediate's integer fits the immediate range.
    pub proof fn lemma_fixnum_range(&self)
        requires
            self.is_fixnum_spec(),
        ensures
            fixnum_range(self@),
    {
    }

    /// Whether this is held as an immediate.
    pub closed spec fn is_fixnum_spec(&self) -> bool {
        self.repr is Fixnum
    }

    fn fix(n: i64) -> (r: Integer)
        requires
            fixnum_range(n as int),
        ensures
            r@ == n,
            r.is_fixnum_spec(),
    {
        let raw: i64 = 2 * n + 1;
        assert(raw / 2 == n);
        Integer { repr: Repr::Fixnum(raw) }
    }

    fn big(b: BigInt) -> (r: Integer)
        requires
            b.wf(),
        ensures
            r@ == b@,
            !r.is_fixnum_spec(),
    {
        Integer { repr: Repr::Bignum(b) }
    }

    /// Whether this is held as an immediate.
    pub fn is_fixnum(&self) -> (r: bool)
        ensures
            r == self.is_fixnum_spec(),
    {
        match self.repr {
            Repr::Fixnum(_) => true,
            Repr::Bignum(_) => false,
        }
    }

    /// Whether this is held as a bignum.
    pub fn is_bignum(&self) -> (r: bool)
        ensures
            r == !self.is_fixnum_spec(),
    {
        !self.is_fixnum()
    }

    /// The integer `n`, as an immediate exactly when it fits one.
    pub fn from_i64(n: i64) -> (r: Integer)
        ensures
            r@ == n,
            r.is_fixnum_spec() == fixnum_range(n as int),
    {
        if FIXNUM_MIN <= n && n <= FIXNUM_MAX {
            Integer::fix(n)
        } else {
            Integer::big(BigInt::from_i64(n))
        }
    }

    /// The integer `n`, as an immediate exactly when it fits one.
    pub fn from_u64(n: u64) -> (r: Integer)
        ensures
            r@ == n,
            r.is_fixnum_spec() == fixnum_range(n as int),
    {
        if n <= FIXNUM_MAX as u64 {
            Integer::fix(n as i64)
        } else {
            Integer::big(BigInt::from_u64(n))
        }
    }

    /// The immediate's integer, for an immediate.
    fn small(&self) -> (r: i64)
        requires
            self.is_fixnum_spec(),
        ensures
            r == self@,
            fixnum_range(r as int),
    {
        proof {
            use_type_invariant(self);
        }
        match self.repr {
            Repr::Fixnum(raw) => (raw - 1) / 2,
            Repr::Bignum(_) => 0,
        }
    }

    /// The value as a bignum, whatever the representation.
    fn to_big(&self) -> (r: BigInt)
        ensures
            r.wf(),
            r@ == self@,
    {
        proof {
            use_type_invariant(self);
        }
        match &self.repr {
            Repr::Fixnum(_) => BigInt::from_i64(self.small()),
            Repr::Bignum(b) => b.copy(),
        }
    }

    /// The value as an `i64`, if it fits.
    fn value_i64(&self) -> (r: Option<i64>)
        ensures
            r is Some <==> i64::MIN <= self@ <= i64::MAX,
            r matches Some(x) ==> x == self@,
    {
        proof {
            use_type_invariant(self);
        }
        match &self.repr {
            Repr::Fixnum(_) => Some(self.small()),
            Repr::Bignum(b) => b.to_i64(),
        }
    }

    /// The same integer in its canonical form: an immediate whenever it
    /// fits one.
    pub fn norm(&self) -> (r: Integer)
        ensures
            normalized(*self, r),
    {
        proof {
            use_type_invariant(self);
        }
        match &self.repr {
            Repr::Fixnum(_) => Integer::fix(self.small()),
            Repr::Bignum(b) => match b.to_i64() {
                Some(x) => Integer::from_i64(x),
                None => Integer::big(b.copy()),
            },
        }
    }

    /// The value as an `i8`; `Range` when it does not fit.
    pub fn to_i8(&self) -> (r: Result<i8, Error>)
        ensures
            r is Ok <==> i8::MIN <= self@ <= i8::MAX,
            r matches Ok(x) ==> x == self@,
            r matches Err(e) ==> e == Error::Range,
    {
        match self.value_i64() {
            Some(x) => {
                if -128 <= x && x <= 127 {
                    Ok(x as i8)
                } else {
                    Err(Error::Range)
                }
            },
            None => Err(Error::Range),
        }
    }

    /// The value as an `i16`; `Range` when it does not fit.
    pub fn to_i16(&self) -> (r: Result<i16, Error>)
        ensures
            r is Ok <==> i16::MIN <= self@ <= i16::MAX,
            r matches Ok(x) ==> x == self@,
            r matches Err(e) ==> e == Error::Range,
    {
        match self.value_i64() {
            Some(x) => {
                if -32768 <= x && x <= 32767 {
                    Ok(x as i16)
                } else {
                    Err(Error::Range)
                }
            },
            None => Err(Error::Range),
        }
    }

    /// The value as an `i32`; `Range` when it does not fit.
    pub fn to_i32(&self) -> (r: Result<i32, Error>)
        ensures
            r is Ok <==> i32::MIN <= self@ <= i32::MAX,
            r matches Ok(x) ==> x == self@,
            r matches Err(e) ==> e == Error::Range,
    {
        match self.value_i64() {
            Some(x) => {
                if -2147483648 <= x && x <= 2147483647 {
                    Ok(x as i32)
                } else {
                    Err(Error::Range)
                }
            },
            None => Err(Error::Range),
        }
    }

    /// The value as an `i64`; `Range` when it does not fit.
    pub fn to_i64(&self) -> (r: Result<i64, Error>)
        ensures
            r == i64_result(self@),
    {
        match self.value_i64() {
            Some(x) => Ok(x),
            None => Err(Error::Range),
        }
    }

    /// The value as an `isize`; `Range` when it does not fit.
    pub fn to_isize(&self) -> (r: Result<isize, Error>)
        ensures
            r is Ok <==> isize::MIN <= self@ <= isize::MAX,
            r matches Ok(x) ==> x == self@,
            r matches Err(e) ==> e == Error::Range,
    {
        match self.value_i64() {
            Some(x) => {
                if isize::MIN as i64 <= x && x <= isize::MAX as i64 {
                    Ok(x as isize)
                } else {
                    Err(Error::Range)
                }
            },
            None => Err(Error::Range),
        }
    }

    /// The value as a `u64`, if it fits.
    fn value_u64(&self) -> (r: Option<u64>)
        ensures
            r is Some <==> 0 <= self@ <= u64::MAX,
            r matches Some(x) ==> x == self@,
    {
        proof {
            use_type_invariant(self);
        }
        match &self.repr {
            Repr::Fixnum(_) => {
                let x = self.small();
                if x >= 0 {
                    Some(x as u64)
                } else {
                    None
                }
            },
            Repr::Bignum(b) => b.to_u64(),
        }
    }

    /// The value as a `u8`; `Range` when it does not fit.
    pub fn to_u8(&self) -> (r: Result<u8, Error>)
        ensures
            r is Ok <==> 0 <= self@ <= u8::MAX,
            r matches Ok(x) ==> x == self@,
            r matches Err(e) ==> e == Error::Range,
    {
        match self.value_u64() {
            Some(x) => {
                if x <= 255 {
                    Ok(x as u8)
                } else {
                    Err(Error::Range)
                }
            },
            None => Err(Error::Range),
        }
    }

    /// The value as a `u16`; `Range` when it does not fit.
    pub fn to_u16(&self) -> (r: Result<u16, Error>)
        ensures
            r is Ok <==> 0 <= self@ <= u16::MAX,
            r matches Ok(x) ==> x == self@,
            r matches Err(e) ==> e == Error::Range,
    {
        match self.value_u64() {
            Some(x) => {
                if x <= 65535 {
                    Ok(x as u16)
                } else {
                    Err(Error::Range)
                }
            },
            None => Err(Error::Range),
        }
    }

    /// The value as a `u32`; `Range` when it does not fit.
    pub fn to_u32(&self) -> (r: Result<u32, Error>)
        ensures
            r is Ok <==> 0 <= self@ <= u32::MAX,
            r matches Ok(x) ==> x == self@,
            r matches Err(e) ==> e == Error::Range,
    {
        match self.value_u64() {
            Some(x) => {
                if x <= 4294967295 {
                    Ok(x as u32)
                } else {
                    Err(Error::Range)
                }
            },
            None => Err(Error::Range),
        }
    }

    /// The value as a `u64`; `Range` when it does not fit.
    pub fn to_u64(&self) -> (r: Result<u64, Error>)
        ensures
            r is Ok <==> 0 <= self@ <= u64::MAX,
            r matches Ok(x) ==> x == self@,
            r matches Err(e) ==> e == Error::Range,
    {
        match self.value_u64() {
            Some(x) => Ok(x),
            None => Err(Error::Range),
        }
    }

    /// The value as a `usize`; `Range` when it does not fit.
    pub fn to_usize(&self) -> (r: Result<usize, Error>)
        ensures
            r is Ok <==> 0 <= self@ <= usize::MAX,
            r matches Ok(x) ==> x == self@,
            r matches Err(e) ==> e == Error::Range,
    {
        match self.value_u64() {
            Some(x) => {
                if x <= usize::MAX as u64 {
                    Ok(x as usize)
                } else {
                    Err(Error::Range)
                }
            },
            None => Err(Error::Range),
        }
    }

    /// `self + other`. Two immediates whose sum fits an immediate add on
    /// their words alone, with no heap work; otherwise the sum is a bignum.
    pub fn add(&self, other: &Integer) -> (r: Integer)
        ensures
            r@ == self@ + other@,
            self.is_fixnum_spec() && other.is_fixnum_spec() ==> r.is_fixnum_spec() == fixnum_range(
                self@ + other@,
            ),
    {
        proof {
            use_type_invariant(self);
            use_type_invariant(other);
        }
        match (&self.repr, &other.repr) {
            (Repr::Fixnum(ra), Repr::Fixnum(rb)) => {
                // (2a + 1) + 2b is the word of a + b.
                match ra.checked_add(rb - 1) {
                    Some(raw) => {
                        let r = Integer { repr: Repr::Fixnum(raw) };
                        assert(r@ == self@ + other@);
                        r
                    },
                    None => Integer::big(self.to_big().add(&other.to_big())),
                }
            },
            _ => Integer::big(self.to_big().add(&other.to_big())),
        }
    }

    /// `self - other`, on the words alone where both are immediates and the
    /// difference fits one.
    pub fn sub(&self, other: &Integer) -> (r: Integer)
        ensures
            r@ == self@ - other@,
            self.is_fixnum_spec() && other.is_fixnum_spec() ==> r.is_fixnum_spec() == fixnum_range(
                self@ - other@,
            ),
    {
        proof {
            use_type_invariant(self);
            use_type_invariant(other);
        }
        match (&self.repr, &other.repr) {
            (Repr::Fixnum(ra), Repr::Fixnum(rb)) => {
                // (2a + 1) - 2b is the word of a - b.
                match ra.checked_sub(rb - 1) {
                    Some(raw) => {
                        let r = Integer { repr: Repr::Fixnum(raw) };
                        assert(r@ == self@ - other@);
                        r
                    },
                    None => Integer::big(self.to_big().sub(&other.to_big())),
                }
            },
            _ => Integer::big(self.to_big().sub(&other.to_big())),
        }
    }

    /// `self * other`: native multiplication of two immediates when the
    /// product fits an `i64`, bignum multiplication otherwise.
    pub fn mul(&self, other: &Integer) -> (r: Integer)
        ensures
            r@ == self@ * other@,
            self.is_fixnum_spec() && other.is_fixnum_spec() ==> r.is_fixnum_spec() == fixnum_range(
                self@ * other@,
            ),
    {
        if self.is_fixnum() && other.is_fixnum() {
            let a = self.small();
            let b = other.small();
            match a.checked_mul(b) {
                Some(p) => Integer::from_i64(p),
                None => Integer::big(self.to_big().mul(&other.to_big())),
            }
        } else {
            Integer::big(self.to_big().mul(&other.to_big()))
        }
    }

    /// `self / other`, rounding toward negative infinity whatever the
    /// representations. Two immediates divide natively; the quotient is an
    /// immediate exactly when it fits one. Any other pair goes through
    /// bignum division.
    pub fn div(&self, other: &Integer) -> (r: Integer)
        requires
            other@ != 0,
        ensures
            r@ == floor_div(self@, other@),
            self.is_fixnum_spec() && other.is_fixnum_spec() ==> r.is_fixnum_spec() == fixnum_range(
                floor_div(self@, other@),
            ),
    {
        if self.is_fixnum() && other.is_fixnum() {
            let a = self.small();
            let b = other.small();
            // Immediates are far from i64::MIN, so no step below overflows.
            let ua: u64 = if a < 0 {
                (-a) as u64
            } else {
                a as u64
            };
            let ub: u64 = if b < 0 {
                (-b) as u64
            } else {
                b as u64
            };
            let q: u64 = ua / ub;
            let rem: u64 = ua % ub;
            let ghost d = ub as int;
            // `x` is `self` with the sign of `other` folded in: the floor
            // quotient is `x / d`.
            let ghost x: int = if b < 0 { -a } else { a as int };
            proof {
                lemma_fundamental_div_mod(ua as int, ub as int);
                assert(q as int == (ua as int) / (ub as int));
                assert(rem as int == (ua as int) % (ub as int));
                assert(ua as int == (ub as int) * ((ua as int) / (ub as int)) + (ua as int) % (
                ub as int));
                assert(ua == q * d + rem) by (nonlinear_arith)
                    requires
                        ua == d * q + rem,
                ;
                assert(0 <= rem < d);
                assert(q <= ua) by (nonlinear_arith)
                    requires
                        ub >= 1,
                        ua == ub * q + rem,
                        rem >= 0,
                ;
                assert(floor_div(self@, other@) == x / d);
            }
            if (a < 0) == (b < 0) {
                proof {
                    assert(x == ua);
                    assert(x == q * d + rem);
                    lemma_fundamental_div_mod_converse_div(x, d, q as int, rem as int);
                }
                Integer::from_i64(q as i64)
            } else if rem == 0 {
                proof {
                    assert(x == (-(q as int)) * d + 0) by (nonlinear_arith)
                        requires
                            ua == d * q + rem,
                            rem == 0,
                            x == -ua,
                    ;
                    lemma_fundamental_div_mod_converse_div(x, d, -(q as int), 0);
                }
                Integer::from_i64(-(q as i64))
            } else {
                proof {
                    assert(x == (-(q as int) - 1) * d + (d - rem)) by (nonlinear_arith)
                        requires
                            ua == d * q + rem,
                            x == -ua,
                    ;
                    lemma_fundamental_div_mod_converse_div(x, d, -(q as int) - 1, d - rem);
                }
                Integer::from_i64(-(q as i64) - 1)
            }
        } else {
            Integer::big(self.to_big().div(&other.to_big()))
        }
    }

    /// `self += other`.
    pub fn add_assign(&mut self, other: &Integer)
        ensures
            final(self)@ == old(self)@ + other@,
    {
        *self = self.add(other);
    }

    /// `self -= other`.
    pub fn sub_assign(&mut self, other: &Integer)
        ensures
            final(self)@ == old(self)@ - other@,
    {
        *self = self.sub(other);
    }

    /// `self *= other`.
    pub fn mul_assign(&mut self, other: &Integer)
        ensures
            final(self)@ == old(self)@ * other@,
    {
        *self = self.mul(other);
    }

    /// `self /= other`, rounding toward negative infinity.
    pub fn div_assign(&mut self, other: &Integer)
        requires
            other@ != 0,
        ensures
            final(self)@ == floor_div(old(self)@, other@),
    {
        *self = self.div(other);
    }

    /// How `self` compares with `other`: `-1`, `0` or `1`. Immediates
    /// compare by their words; a bignum on either side compares as bignums.
    pub fn compare(&self, other: &Integer) -> (r: i8)
        ensures
            r == -1 <==> self@ < other@,
            r == 0 <==> self@ == other@,
            r == 1 <==> self@ > other@,
    {
        proof {
            use_type_invariant(self);
            use_type_invariant(other);
        }
        match (&self.repr, &other.repr) {
            (Repr::Fixnum(ra), Repr::Fixnum(rb)) => {
                if *ra < *rb {
                    -1
                } else if *ra == *rb {
                    0
                } else {
                    1
                }
            },
            _ => self.to_big().cmp(&other.to_big()),
        }
    }

    /// The integer `v` is, if it is one. Immediates are recognised by
    /// their bits alone.
    pub fn from_value(ruby: &Ruby, v: Value) -> (r: Option<Integer>)
        requires
            ruby.wf(),
        ensures
            r is Some <==> is_integer_type(ruby.type_of(v)),
            r matches Some(i) ==> i@ == int_value(ruby, v) && i.is_fixnum_spec() == (ruby.type_of(
                v,
            ) == ValueType::Fixnum),
    {
        proof {
            ruby.lemma_fixnum_type(v);
        }
        if v.is_fixnum() {
            return Some(Integer::fix(v.fixnum_to_i64()));
        }
        match ruby.value_type(v) {
            ValueType::Bignum => Some(Integer::big(ruby.bignum(v))),
            _ => None,
        }
    }

    /// This integer as a runtime value: an immediate, or a new bignum.
    pub fn to_value(&self, ruby: &mut Ruby) -> (v: Value)
        requires
            old(ruby).wf(),
            old(ruby).has_room(1),
        ensures
            final(ruby).wf(),
            final(ruby).grown_from(old(ruby)),
            final(ruby).slot_count() <= old(ruby).slot_count() + 1,
            is_integer_type(final(ruby).type_of(v)),
            (final(ruby).type_of(v) == ValueType::Fixnum) == self.is_fixnum_spec(),
            int_value(final(ruby), v) == self@,
            self.is_fixnum_spec() ==> v.word_spec() == fixnum_word(self@),
            forall|a: Value, b: Value| #[trigger]
                final(ruby).shares(a, b) == old(ruby).shares(a, b),
    {
        proof {
            use_type_invariant(self);
            ruby.lemma_grown_refl();
        }
        match &self.repr {
            Repr::Fixnum(_) => {
                let n = self.small();
                match Value::fixnum(n) {
                    Some(v) => {
                        proof {
                            ruby.lemma_fixnum_type(v);
                        }
                        v
                    },
                    None => Value::nil(),
                }
            },
            Repr::Bignum(b) => {
                let v = ruby.bignum_new(b.copy());
                proof {
                    ruby.lemma_fixnum_type(v);
                }
                v
            },
        }
    }
}

impl Ruby {
    /// The integer `n`, as an immediate exactly when it fits one.
    pub fn integer_from_i64(&self, n: i64) -> (r: Integer)
        ensures
            r@ == n,
            r.is_fixnum_spec() == fixnum_range(n as int),
    {
        Integer::from_i64(n)
    }

    /// The integer `n`, as an immediate exactly when it fits one.
    pub fn integer_from_u64(&self, n: u64) -> (r: Integer)
        ensures
            r@ == n,
            r.is_fixnum_spec() == fixnum_range(n as int),
    {
        Integer::from_u64(n)
    }
}

impl PartialEq for Integer {
    /// Equality of the integers, whatever their representations.
    fn eq(&self, other: &Integer) -> (r: bool) {
        self.compare(other) == 0
    }
}

impl vstd::std_specs::cmp::PartialEqSpecImpl for Integer {
    open spec fn obeys_eq_spec() -> bool {
        true
    }

    open spec fn eq_spec(&self, other: &Integer) -> bool {
        self@ == other@
    }
}

impl PartialOrd for Integer {
    fn partial_cmp(&self, other: &Integer) -> (r: Option<Ordering>) {
        let c = self.compare(other);
        if c < 0 {
            Some(Ordering::Less)
        } else if c == 0 {
            Some(Ordering::Equal)
        } else {
            Some(Ordering::Greater)
        }
    }
}

impl vstd::std_specs::cmp::PartialOrdSpecImpl for Integer {
    open spec fn obeys_partial_cmp_spec() -> bool {
        true
    }

    open spec fn partial_cmp_spec(&self, other: &Integer) -> Option<Ordering> {
        if self@ < other@ {
            Some(Ordering::Less)
        } else if self@ == other@ {
            Some(Ordering::Equal)
        } else {
            Some(Ordering::Greater)
        }
    }
}


impl TryConvert for Integer {
    open spec fn converts(ruby: &Ruby, v: Value) -> bool {
        is_integer_type(ruby.type_of(v)) || (ruby.type_of(v) == ValueType::Object && match ruby.coercions(
            v,
        ).0 {
            Coercion::Returns(x) => is_integer_type(ruby.type_of(x)),
            _ => false,
        })
    }

    open spec fn conversion(ruby: &Ruby, v: Value, r: Result<Integer, Error>) -> bool {
        int_conversion(ruby, v, r)
    }

    /// An integer converts as it is; an object through its `to_int` method,
    /// whose exception is the error; anything else is a conversion error.
    fn try_convert(ruby: &Ruby, v: Value) -> (r: Result<Integer, Error>) {
        match Integer::from_value(ruby, v) {
            Some(i) => Ok(i),
            None => {
                let t = ruby.value_type(v);
                match t {
                    ValueType::Object => match ruby.coercions_of(v).0 {
                        Coercion::Absent => Err(Error::Conversion(ValueType::Object)),
                        Coercion::Raises(e) => Err(Error::Foreign(e)),
                        Coercion::Returns(x) => match Integer::from_value(ruby, x) {
                            Some(i) => Ok(i),
                            None => Err(Error::Conversion(ValueType::Object)),
                        },
                    },
                    _ => Err(Error::Conversion(t)),
                }
            },
        }
    }
}


impl IntoValue for Integer {
    open spec fn represents(&self, ruby: &Ruby, v: Value) -> bool {
        is_integer_type(ruby.type_of(v)) && int_value(ruby, v) == self@
    }

    proof fn lemma_represents_grown(&self, old: &Ruby, new: &Ruby, v: Value) {
        new.lemma_kept_integer(old, v);
    }

    /// An immediate, or a new bignum.
    fn into_value(self, ruby: &mut Ruby) -> (v: Value) {
        Integer::to_value(&self, ruby)
    }
}

impl IntoValue for i64 {
    open spec fn represents(&self, ruby: &Ruby, v: Value) -> bool {
        is_integer_type(ruby.type_of(v)) && int_value(ruby, v) == *self
    }

    proof fn lemma_represents_grown(&self, old: &Ruby, new: &Ruby, v: Value) {
        new.lemma_kept_integer(old, v);
    }

    /// An immediate when `self` fits one, else a new bignum.
    fn into_value(self, ruby: &mut Ruby) -> (v: Value) {
        Integer::from_i64(self).to_value(ruby)
    }
}

} // verus!
