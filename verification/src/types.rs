use vstd::prelude::*;

use crate::dates::{date_of_str, date_render, parse_date, Date};
use crate::error::ZakuError;
use crate::numeric::{
    dec_add_of, dec_mul_of, dec_parse, dec_parse_of, dec_rem_of, dec_div_of, dec_render,
    dec_sub_of, norm_triple, pow10, rat_eq_int, signed_val, Decimal,
};
use crate::strutil::{chars_le, str_eq};

verus! {

/// The closed set of column datatypes.
#[derive(Clone, Copy, Debug, PartialEq, Eq, Structural)]
pub enum DataType {
    Text,
    Boolean,
    Number,
    Date,
}

/// A scalar value: one of the concrete datatypes, or the absent value.
#[derive(Debug, Clone)]
pub enum Value {
    Number(Decimal),
    Text(String),
    Boolean(bool),
    Date(Date),
    Null,
}

// ---------------------------------------------------------------------------
// Spec model of values
// ---------------------------------------------------------------------------
impl Value {
    /// Well-formedness of the payload.
    pub open spec fn wf(self) -> bool {
        match self {
            Value::Number(d) => d.wf(),
            Value::Date(d) => d.wf(),
            _ => true,
        }
    }

    /// The datatype this value belongs to; `Null` belongs to every type.
    pub open spec fn fits_type(self, dt: DataType) -> bool {
        match self {
            Value::Number(_) => dt == DataType::Number,
            Value::Text(_) => dt == DataType::Text,
            Value::Boolean(_) => dt == DataType::Boolean,
            Value::Date(_) => dt == DataType::Date,
            Value::Null => true,
        }
    }
}

/// Semantic equality: numbers by their rational value, text by characters,
/// dates by the calendar day. `Null` equals only `Null`.
pub open spec fn val_equiv(a: Value, b: Value) -> bool {
    match (a, b) {
        (Value::Number(x), Value::Number(y)) => x.same_value(y),
        (Value::Text(x), Value::Text(y)) => x@ == y@,
        (Value::Boolean(x), Value::Boolean(y)) => x == y,
        (Value::Date(x), Value::Date(y)) => x.key() == y.key(),
        (Value::Null, Value::Null) => true,
        _ => false,
    }
}

/// Copies a value; the copy equals the original.
pub fn dup_value(v: &Value) -> (r: Value)
    ensures
        r == *v,
{
    match v {
        Value::Number(d) => Value::Number(d.duplicate()),
        Value::Text(s) => Value::Text(s.clone()),
        Value::Boolean(b) => Value::Boolean(*b),
        Value::Date(d) => Value::Date(*d),
        Value::Null => Value::Null,
    }
}

/// Equality of values down to the representation: the same variant with the
/// same payload, the digits and scale of a number included.
pub open spec fn val_eq_repr(a: Value, b: Value) -> bool {
    match (a, b) {
        (Value::Number(x), Value::Number(y)) => x.neg == y.neg && x.digits@ == y.digits@
            && x.scale == y.scale,
        (Value::Text(x), Value::Text(y)) => x@ == y@,
        (Value::Boolean(x), Value::Boolean(y)) => x == y,
        (Value::Date(x), Value::Date(y)) => x == y,
        (Value::Null, Value::Null) => true,
        _ => false,
    }
}

/// A rank that separates the variants, with `Null` smallest.
pub open spec fn val_rank(v: Value) -> int {
    match v {
        Value::Null => 0,
        Value::Number(_) => 1,
        Value::Text(_) => 2,
        Value::Boolean(_) => 3,
        Value::Date(_) => 4,
    }
}

/// A total order on values, used by sorting: `Null` first, then by variant,
/// and within a variant numerically, lexicographically, or by calendar day.
pub open spec fn val_le(a: Value, b: Value) -> bool {
    if val_rank(a) != val_rank(b) {
        val_rank(a) < val_rank(b)
    } else {
        match (a, b) {
            (Value::Number(x), Value::Number(y)) => x.le(y),
            (Value::Text(x), Value::Text(y)) => chars_le(x@, y@),
            (Value::Boolean(x), Value::Boolean(y)) => !x || y,
            (Value::Date(x), Value::Date(y)) => x.key() <= y.key(),
            _ => true,
        }
    }
}

/// The value order is total.
pub proof fn lemma_val_le_total(a: Value, b: Value)
    ensures
        val_le(a, b) || val_le(b, a),
{
    if val_rank(a) == val_rank(b) {
        match (a, b) {
            (Value::Text(x), Value::Text(y)) => {
                crate::strutil::lemma_chars_le_total(x@, y@);
            },
            _ => {},
        }
    }
}

/// The value order is transitive.
pub proof fn lemma_val_le_trans(a: Value, b: Value, c: Value)
    requires
        a.wf(),
        b.wf(),
        c.wf(),
        val_le(a, b),
        val_le(b, c),
    ensures
        val_le(a, c),
{
    if val_rank(a) == val_rank(b) && val_rank(b) == val_rank(c) {
        match (a, b, c) {
            (Value::Number(x), Value::Number(y), Value::Number(z)) => {
                crate::numeric::lemma_dec_le_trans(x, y, z);
            },
            (Value::Text(x), Value::Text(y), Value::Text(z)) => {
                crate::strutil::lemma_chars_le_trans(x@, y@, z@);
            },
            _ => {},
        }
    }
}

/// Values below each other in the order are semantically equal.
pub proof fn lemma_val_le_antisym(a: Value, b: Value)
    requires
        a.wf(),
        b.wf(),
        val_le(a, b),
        val_le(b, a),
    ensures
        val_equiv(a, b),
{
    match (a, b) {
        (Value::Number(x), Value::Number(y)) => {
            crate::numeric::lemma_dec_le_antisym(x, y);
        },
        (Value::Text(x), Value::Text(y)) => {
            crate::strutil::lemma_chars_le_antisym(x@, y@);
        },
        _ => {},
    }
}

// ---------------------------------------------------------------------------
// Operand shapes of the binary operations
// ---------------------------------------------------------------------------
/// Both operands are booleans.
pub open spec fn logic_operands(a: Value, b: Value) -> Option<(bool, bool)> {
    match (a, b) {
        (Value::Boolean(x), Value::Boolean(y)) => Some((x, y)),
        _ => None,
    }
}

/// Equality accepts `Null` on either side and otherwise equal variants.
pub open spec fn eq_compatible(a: Value, b: Value) -> bool {
    a is Null || b is Null || val_rank(a) == val_rank(b)
}

/// Inequalities accept `Null` on either side, numbers, text and dates.
pub open spec fn ord_compatible(a: Value, b: Value) -> bool {
    a is Null || b is Null || (val_rank(a) == val_rank(b) && !(a is Boolean))
}

/// Arithmetic propagates a `Null` on either side and otherwise works on two
/// numbers; any other combination is a type error.
pub open spec fn arith_shape(a: Value, b: Value) -> Option<Option<(Decimal, Decimal)>> {
    if a is Null || b is Null {
        Some(None)
    } else {
        match (a, b) {
            (Value::Number(x), Value::Number(y)) => Some(Some((x, y))),
            _ => None,
        }
    }
}

/// Minimum and maximum accept numbers, dates, and `Null` as the identity.
pub open spec fn minmax_compatible(a: Value, b: Value) -> bool {
    match (a, b) {
        (Value::Null, Value::Null) => true,
        (Value::Null, Value::Number(_)) => true,
        (Value::Null, Value::Date(_)) => true,
        (Value::Number(_), Value::Null) => true,
        (Value::Date(_), Value::Null) => true,
        (Value::Number(_), Value::Number(_)) => true,
        (Value::Date(_), Value::Date(_)) => true,
        _ => false,
    }
}

impl Value {
    /// Boolean conjunction; defined on booleans only.
    pub fn and(&self, other: &Value) -> (r: Result<Value, ZakuError>)
        ensures
            match logic_operands(*self, *other) {
                Some(p) => r == Ok::<Value, ZakuError>(Value::Boolean(p.0 && p.1)),
                None => r is Err && r->Err_0 is TypeError,
            },
    {
        match (self, other) {
            (Value::Boolean(x), Value::Boolean(y)) => Ok(Value::Boolean(*x && *y)),
            _ => Err(ZakuError::TypeError(String::from_str("AND expects boolean operands"))),
        }
    }

    /// Boolean disjunction; defined on booleans only.
    pub fn or(&self, other: &Value) -> (r: Result<Value, ZakuError>)
        ensures
            match logic_operands(*self, *other) {
                Some(p) => r == Ok::<Value, ZakuError>(Value::Boolean(p.0 || p.1)),
                None => r is Err && r->Err_0 is TypeError,
            },
    {
        match (self, other) {
            (Value::Boolean(x), Value::Boolean(y)) => Ok(Value::Boolean(*x || *y)),
            _ => Err(ZakuError::TypeError(String::from_str("OR expects boolean operands"))),
        }
    }

    /// Semantic equality test; any comparison with `Null` is false.
    pub fn eq(&self, other: &Value) -> (r: Result<Value, ZakuError>)
        requires
            self.wf(),
            other.wf(),
        ensures
            eq_compatible(*self, *other) ==> r == Ok::<Value, ZakuError>(
                Value::Boolean(!(*self is Null) && !(*other is Null) && val_equiv(*self, *other)),
            ),
            !eq_compatible(*self, *other) ==> r is Err && r->Err_0 is TypeError,
    {
        match (self, other) {
            (Value::Null, _) => Ok(Value::Boolean(false)),
            (_, Value::Null) => Ok(Value::Boolean(false)),
            (Value::Number(x), Value::Number(y)) => Ok(Value::Boolean(x.cmp_dec(y) == 0)),
            (Value::Text(x), Value::Text(y)) => Ok(Value::Boolean(str_eq(x.as_str(), y.as_str()))),
            (Value::Boolean(x), Value::Boolean(y)) => Ok(Value::Boolean(*x == *y)),
            (Value::Date(x), Value::Date(y)) => Ok(Value::Boolean(x.cmp_date(y) == 0)),
            _ => Err(ZakuError::TypeError(String::from_str("cannot compare different datatypes"))),
        }
    }

    /// Semantic inequality test; any comparison with `Null` is false.
    pub fn neq(&self, other: &Value) -> (r: Result<Value, ZakuError>)
        requires
            self.wf(),
            other.wf(),
        ensures
            eq_compatible(*self, *other) ==> r == Ok::<Value, ZakuError>(
                Value::Boolean(!(*self is Null) && !(*other is Null) && !val_equiv(*self, *other)),
            ),
            !eq_compatible(*self, *other) ==> r is Err && r->Err_0 is TypeError,
    {
        match (self, other) {
            (Value::Null, _) => Ok(Value::Boolean(false)),
            (_, Value::Null) => Ok(Value::Boolean(false)),
            (Value::Number(x), Value::Number(y)) => Ok(Value::Boolean(x.cmp_dec(y) != 0)),
            (Value::Text(x), Value::Text(y)) => Ok(Value::Boolean(!str_eq(x.as_str(), y.as_str()))),
            (Value::Boolean(x), Value::Boolean(y)) => Ok(Value::Boolean(*x != *y)),
            (Value::Date(x), Value::Date(y)) => Ok(Value::Boolean(x.cmp_date(y) != 0)),
            _ => Err(ZakuError::TypeError(String::from_str("cannot compare different datatypes"))),
        }
    }

    /// Strictly-greater test; any comparison with `Null` is false.
    pub fn gt(&self, other: &Value) -> (r: Result<Value, ZakuError>)
        requires
            self.wf(),
            other.wf(),
        ensures
            ord_compatible(*self, *other) ==> r == Ok::<Value, ZakuError>(
                Value::Boolean(
                    !(*self is Null) && !(*other is Null) && !val_le(*self, *other),
                ),
            ),
            !ord_compatible(*self, *other) ==> r is Err && r->Err_0 is TypeError,
    {
        match (self, other) {
            (Value::Null, _) => Ok(Value::Boolean(false)),
            (_, Value::Null) => Ok(Value::Boolean(false)),
            (Value::Number(x), Value::Number(y)) => Ok(Value::Boolean(x.cmp_dec(y) == 1)),
            (Value::Text(x), Value::Text(y)) => Ok(
                Value::Boolean(!crate::strutil::str_le(x.as_str(), y.as_str())),
            ),
            (Value::Date(x), Value::Date(y)) => Ok(Value::Boolean(x.cmp_date(y) == 1)),
            _ => Err(ZakuError::TypeError(String::from_str("cannot compare different datatypes"))),
        }
    }

    /// Greater-or-equal test; any comparison with `Null` is false.
    pub fn gte(&self, other: &Value) -> (r: Result<Value, ZakuError>)
        requires
            self.wf(),
            other.wf(),
        ensures
            ord_compatible(*self, *other) ==> r == Ok::<Value, ZakuError>(
                Value::Boolean(!(*self is Null) && !(*other is Null) && val_le(*other, *self)),
            ),
            !ord_compatible(*self, *other) ==> r is Err && r->Err_0 is TypeError,
    {
        match (self, other) {
            (Value::Null, _) => Ok(Value::Boolean(false)),
            (_, Value::Null) => Ok(Value::Boolean(false)),
            (Value::Number(x), Value::Number(y)) => Ok(Value::Boolean(y.cmp_dec(x) != 1)),
            (Value::Text(x), Value::Text(y)) => Ok(
                Value::Boolean(crate::strutil::str_le(y.as_str(), x.as_str())),
            ),
            (Value::Date(x), Value::Date(y)) => Ok(Value::Boolean(x.cmp_date(y) != -1)),
            _ => Err(ZakuError::TypeError(String::from_str("cannot compare different datatypes"))),
        }
    }

    /// Strictly-less test; any comparison with `Null` is false.
    pub fn lt(&self, other: &Value) -> (r: Result<Value, ZakuError>)
        requires
            self.wf(),
            other.wf(),
        ensures
            ord_compatible(*self, *other) ==> r == Ok::<Value, ZakuError>(
                Value::Boolean(
                    !(*self is Null) && !(*other is Null) && !val_le(*other, *self),
                ),
            ),
            !ord_compatible(*self, *other) ==> r is Err && r->Err_0 is TypeError,
    {
        match (self, other) {
            (Value::Null, _) => Ok(Value::Boolean(false)),
            (_, Value::Null) => Ok(Value::Boolean(false)),
            (Value::Number(x), Value::Number(y)) => Ok(Value::Boolean(x.cmp_dec(y) == -1)),
            (Value::Text(x), Value::Text(y)) => Ok(
                Value::Boolean(!crate::strutil::str_le(y.as_str(), x.as_str())),
            ),
            (Value::Date(x), Value::Date(y)) => Ok(Value::Boolean(x.cmp_date(y) == -1)),
            _ => Err(ZakuError::TypeError(String::from_str("cannot compare different datatypes"))),
        }
    }

    /// Less-or-equal test; any comparison with `Null` is false.
    pub fn lte(&self, other: &Value) -> (r: Result<Value, ZakuError>)
        requires
            self.wf(),
            other.wf(),
        ensures
            ord_compatible(*self, *other) ==> r == Ok::<Value, ZakuError>(
                Value::Boolean(!(*self is Null) && !(*other is Null) && val_le(*self, *other)),
            ),
            !ord_compatible(*self, *other) ==> r is Err && r->Err_0 is TypeError,
    {
        match (self, other) {
            (Value::Null, _) => Ok(Value::Boolean(false)),
            (_, Value::Null) => Ok(Value::Boolean(false)),
            (Value::Number(x), Value::Number(y)) => Ok(Value::Boolean(x.cmp_dec(y) != 1)),
            (Value::Text(x), Value::Text(y)) => Ok(
                Value::Boolean(crate::strutil::str_le(x.as_str(), y.as_str())),
            ),
            (Value::Date(x), Value::Date(y)) => Ok(Value::Boolean(x.cmp_date(y) != 1)),
            _ => Err(ZakuError::TypeError(String::from_str("cannot compare different datatypes"))),
        }
    }

    /// Exact addition; a `Null` operand yields `Null`.
    pub fn add(&self, other: &Value) -> (r: Result<Value, ZakuError>)
        requires
            self.wf(),
            other.wf(),
        ensures
            match arith_shape(*self, *other) {
                None => r is Err && r->Err_0 is TypeError,
                Some(None) => r == Ok::<Value, ZakuError>(Value::Null),
                Some(Some(p)) => r is Ok && match r->Ok_0 {
                    Value::Number(d) => d.wf() && d.scale <= (if p.0.scale >= p.1.scale {
                        p.0.scale
                    } else {
                        p.1.scale
                    }) && rat_eq_int(
                        d.num(),
                        d.scale as int,
                        p.0.num() * pow10(p.1.scale as nat) + p.1.num() * pow10(p.0.scale as nat),
                        p.0.scale as int + p.1.scale as int,
                    ) && (d.neg, d.digits@, d.scale as int) == norm_triple(
                        dec_add_of(
                            p.0.neg,
                            p.0.digits@,
                            p.0.scale as int,
                            p.1.neg,
                            p.1.digits@,
                            p.1.scale as int,
                        ),
                    ),
                    _ => false,
                },
            },
    {
        match (self, other) {
            (Value::Null, _) => Ok(Value::Null),
            (_, Value::Null) => Ok(Value::Null),
            (Value::Number(x), Value::Number(y)) => Ok(Value::Number(x.add(y))),
            _ => Err(ZakuError::TypeError(String::from_str("addition expects numbers"))),
        }
    }

    /// Exact subtraction; a `Null` operand yields `Null`.
    pub fn sub(&self, other: &Value) -> (r: Result<Value, ZakuError>)
        requires
            self.wf(),
            other.wf(),
        ensures
            match arith_shape(*self, *other) {
                None => r is Err && r->Err_0 is TypeError,
                Some(None) => r == Ok::<Value, ZakuError>(Value::Null),
                Some(Some(p)) => r is Ok && match r->Ok_0 {
                    Value::Number(d) => d.wf() && rat_eq_int(
                        d.num(),
                        d.scale as int,
                        p.0.num() * pow10(p.1.scale as nat) - p.1.num() * pow10(p.0.scale as nat),
                        p.0.scale as int + p.1.scale as int,
                    ) && (d.neg, d.digits@, d.scale as int) == norm_triple(
                        dec_sub_of(
                            p.0.neg,
                            p.0.digits@,
                            p.0.scale as int,
                            p.1.neg,
                            p.1.digits@,
                            p.1.scale as int,
                        ),
                    ),
                    _ => false,
                },
            },
    {
        match (self, other) {
            (Value::Null, _) => Ok(Value::Null),
            (_, Value::Null) => Ok(Value::Null),
            (Value::Number(x), Value::Number(y)) => Ok(Value::Number(x.sub(y))),
            _ => Err(ZakuError::TypeError(String::from_str("subtraction expects numbers"))),
        }
    }

    /// Exact multiplication; a `Null` operand yields `Null`.
    pub fn mul(&self, other: &Value) -> (r: Result<Value, ZakuError>)
        requires
            self.wf(),
            other.wf(),
        ensures
            match arith_shape(*self, *other) {
                None => r is Err && r->Err_0 is TypeError,
                Some(None) => r == Ok::<Value, ZakuError>(Value::Null),
                Some(Some(p)) => if p.0.scale + p.1.scale <= i64::MAX {
                    r is Ok && match r->Ok_0 {
                        Value::Number(d) => d.wf() && rat_eq_int(
                            d.num(),
                            d.scale as int,
                            p.0.num() * p.1.num(),
                            p.0.scale as int + p.1.scale as int,
                        ) && (d.neg, d.digits@, d.scale as int) == norm_triple(
                            dec_mul_of(
                                p.0.neg,
                                p.0.digits@,
                                p.0.scale as int,
                                p.1.neg,
                                p.1.digits@,
                                p.1.scale as int,
                            ),
                        ),
                        _ => false,
                    }
                } else {
                    r is Err && r->Err_0 is TypeError
                },
            },
    {
        match (self, other) {
            (Value::Null, _) => Ok(Value::Null),
            (_, Value::Null) => Ok(Value::Null),
            (Value::Number(x), Value::Number(y)) => {
                if x.scale <= i64::MAX - y.scale {
                    Ok(Value::Number(x.mul(y)))
                } else {
                    Err(ZakuError::TypeError(String::from_str("the product's scale is too large")))
                }
            },
            _ => Err(ZakuError::TypeError(String::from_str("multiplication expects numbers"))),
        }
    }

    /// Division; a `Null` operand yields `Null`, a zero divisor is an error.
    pub fn div(&self, other: &Value) -> (r: Result<Value, ZakuError>)
        requires
            self.wf(),
            other.wf(),
        ensures
            match arith_shape(*self, *other) {
                None => r is Err && r->Err_0 is TypeError,
                Some(None) => r == Ok::<Value, ZakuError>(Value::Null),
                Some(Some(p)) => if p.1.num() == 0 || p.0.scale + p.1.digits@.len() + 128
                    > i64::MAX {
                    r is Err && r->Err_0 is TypeError
                } else {
                    r is Ok && match r->Ok_0 {
                        Value::Number(d) => d.wf() && ({
                            let w = dec_div_of(
                                p.0.neg,
                                p.0.digits@,
                                p.0.scale as int,
                                p.1.neg,
                                p.1.digits@,
                                p.1.scale as int,
                            );
                            rat_eq_int(
                                d.num(),
                                d.scale as int,
                                signed_val(w.0, crate::numeric::chars_int(w.1)),
                                w.2,
                            ) && (d.neg, d.digits@, d.scale as int) == norm_triple(w)
                        }),
                        _ => false,
                    }
                },
            },
    {
        match (self, other) {
            (Value::Null, _) => Ok(Value::Null),
            (_, Value::Null) => Ok(Value::Null),
            (Value::Number(x), Value::Number(y)) => {
                if y.is_zero() {
                    Err(ZakuError::TypeError(String::from_str("division by zero")))
                } else if (x.scale as u128) + (y.digits.as_str().unicode_len() as u128) + 128
                    > i64::MAX as u128 {
                    Err(ZakuError::TypeError(String::from_str("the quotient's scale is too large")))
                } else {
                    Ok(Value::Number(x.div(y)))
                }
            },
            _ => Err(ZakuError::TypeError(String::from_str("division expects numbers"))),
        }
    }

    /// Remainder; a `Null` operand yields `Null`, a zero divisor is an error.
    pub fn modulo(&self, other: &Value) -> (r: Result<Value, ZakuError>)
        requires
            self.wf(),
            other.wf(),
        ensures
            match arith_shape(*self, *other) {
                None => r is Err && r->Err_0 is TypeError,
                Some(None) => r == Ok::<Value, ZakuError>(Value::Null),
                Some(Some(p)) => if p.1.num() == 0 {
                    r is Err && r->Err_0 is TypeError
                } else {
                    r is Ok && match r->Ok_0 {
                        Value::Number(d) => d.wf() && ({
                            let w = dec_rem_of(
                                p.0.neg,
                                p.0.digits@,
                                p.0.scale as int,
                                p.1.neg,
                                p.1.digits@,
                                p.1.scale as int,
                            );
                            rat_eq_int(
                                d.num(),
                                d.scale as int,
                                signed_val(w.0, crate::numeric::chars_int(w.1)),
                                w.2,
                            ) && (d.neg, d.digits@, d.scale as int) == norm_triple(w)
                        }),
                        _ => false,
                    }
                },
            },
    {
        match (self, other) {
            (Value::Null, _) => Ok(Value::Null),
            (_, Value::Null) => Ok(Value::Null),
            (Value::Number(x), Value::Number(y)) => {
                if y.is_zero() {
                    Err(ZakuError::TypeError(String::from_str("modulo by zero")))
                } else {
                    Ok(Value::Number(x.rem(y)))
                }
            },
            _ => Err(ZakuError::TypeError(String::from_str("modulo expects numbers"))),
        }
    }

    /// The larger of two values; `Null` is absorbed. Defined on numbers and dates.
    pub fn maximum(&self, other: &Value) -> (r: Result<Value, ZakuError>)
        requires
            self.wf(),
            other.wf(),
        ensures
            minmax_compatible(*self, *other) ==> r is Ok && {
                let v = r->Ok_0;
                &&& v.wf()
                &&& if *self is Null {
                    v == *other
                } else if *other is Null {
                    v == *self
                } else {
                    (v == *self || v == *other) && val_le(*self, v)
                        && val_le(*other, v)
                }
            },
            !minmax_compatible(*self, *other) ==> r is Err && r->Err_0 is TypeError,
    {
        match (self, other) {
            (Value::Null, Value::Null) => Ok(Value::Null),
            (Value::Null, Value::Number(_)) => Ok(dup_value(other)),
            (Value::Null, Value::Date(_)) => Ok(dup_value(other)),
            (Value::Number(_), Value::Null) => Ok(dup_value(self)),
            (Value::Date(_), Value::Null) => Ok(dup_value(self)),
            (Value::Number(x), Value::Number(y)) => {
                if x.cmp_dec(y) == 1 {
                    Ok(dup_value(self))
                } else {
                    Ok(dup_value(other))
                }
            },
            (Value::Date(x), Value::Date(y)) => {
                if x.cmp_date(y) == 1 {
                    Ok(dup_value(self))
                } else {
                    Ok(dup_value(other))
                }
            },
            _ => Err(ZakuError::TypeError(String::from_str("max expects numbers or dates"))),
        }
    }

    /// The smaller of two values; `Null` is absorbed. Defined on numbers and dates.
    pub fn minimum(&self, other: &Value) -> (r: Result<Value, ZakuError>)
        requires
            self.wf(),
            other.wf(),
        ensures
            minmax_compatible(*self, *other) ==> r is Ok && {
                let v = r->Ok_0;
                &&& v.wf()
                &&& if *self is Null {
                    v == *other
                } else if *other is Null {
                    v == *self
                } else {
                    (v == *self || v == *other) && val_le(v, *self)
                        && val_le(v, *other)
                }
            },
            !minmax_compatible(*self, *other) ==> r is Err && r->Err_0 is TypeError,
    {
        match (self, other) {
            (Value::Null, Value::Null) => Ok(Value::Null),
            (Value::Null, Value::Number(_)) => Ok(dup_value(other)),
            (Value::Null, Value::Date(_)) => Ok(dup_value(other)),
            (Value::Number(_), Value::Null) => Ok(dup_value(self)),
            (Value::Date(_), Value::Null) => Ok(dup_value(self)),
            (Value::Number(x), Value::Number(y)) => {
                if x.cmp_dec(y) == 1 {
                    Ok(dup_value(other))
                } else {
                    Ok(dup_value(self))
                }
            },
            (Value::Date(x), Value::Date(y)) => {
                if x.cmp_date(y) == 1 {
                    Ok(dup_value(other))
                } else {
                    Ok(dup_value(self))
                }
            },
            _ => Err(ZakuError::TypeError(String::from_str("min expects numbers or dates"))),
        }
    }

    /// Renders the value the way the engine prints it; `Null` renders empty.
    pub fn render(&self) -> (r: String)
        requires
            self.wf(),
        ensures
            r@ == val_render(*self),
    {
        match self {
            Value::Number(d) => d.render(),
            Value::Text(s) => s.clone(),
            Value::Boolean(b) => {
                if *b {
                    let mut s = String::new();
                    crate::strutil::push_char(&mut s, 't');
                    crate::strutil::push_char(&mut s, 'r');
                    crate::strutil::push_char(&mut s, 'u');
                    crate::strutil::push_char(&mut s, 'e');
                    proof {
                        assert(s@ =~= seq!['t', 'r', 'u', 'e']);
                    }
                    s
                } else {
                    let mut s = String::new();
                    crate::strutil::push_char(&mut s, 'f');
                    crate::strutil::push_char(&mut s, 'a');
                    crate::strutil::push_char(&mut s, 'l');
                    crate::strutil::push_char(&mut s, 's');
                    crate::strutil::push_char(&mut s, 'e');
                    proof {
                        assert(s@ =~= seq!['f', 'a', 'l', 's', 'e']);
                    }
                    s
                }
            },
            Value::Date(d) => d.render(),
            Value::Null => String::new(),
        }
    }
}

/// How a value prints: numbers in plain decimal notation, dates as
/// `YYYY-MM-DD`, booleans as `true`/`false`, and `Null` as nothing.
pub open spec fn val_render(v: Value) -> Seq<char> {
    match v {
        Value::Number(d) => dec_render(d.neg, d.digits@, d.scale as int),
        Value::Text(s) => s@,
        Value::Boolean(b) => if b {
            seq!['t', 'r', 'u', 'e']
        } else {
            seq!['f', 'a', 'l', 's', 'e']
        },
        Value::Date(d) => date_render(d),
        Value::Null => Seq::empty(),
    }
}

// ---------------------------------------------------------------------------
// Values from strings
// ---------------------------------------------------------------------------
/// `true` or `false`, exactly.
pub open spec fn bool_of_str(s: Seq<char>) -> Option<bool> {
    if s == seq!['t', 'r', 'u', 'e'] {
        Some(true)
    } else if s == seq!['f', 'a', 'l', 's', 'e'] {
        Some(false)
    } else {
        None
    }
}

/// Parses `true` or `false`, the way `str::parse::<bool>` accepts them.
pub fn parse_bool(s: &str) -> (r: Option<bool>)
    ensures
        r == bool_of_str(s@),
{
    let n = s.unicode_len();
    if n == 4 {
        if s.get_char(0) == 't' && s.get_char(1) == 'r' && s.get_char(2) == 'u' && s.get_char(3)
            == 'e' {
            proof {
                assert(s@ =~= seq!['t', 'r', 'u', 'e']);
            }
            return Some(true);
        }
        proof {
            assert(s@ != seq!['t', 'r', 'u', 'e']);
            assert(s@.len() != 5);
        }
        return None;
    }
    if n == 5 {
        if s.get_char(0) == 'f' && s.get_char(1) == 'a' && s.get_char(2) == 'l' && s.get_char(3)
            == 's' && s.get_char(4) == 'e' {
            proof {
                assert(s@ =~= seq!['f', 'a', 'l', 's', 'e']);
            }
            return Some(false);
        }
        proof {
            assert(s@ != seq!['f', 'a', 'l', 's', 'e']);
            assert(s@.len() != 4);
        }
        return None;
    }
    None
}

/// The string with every comma removed, as the engine reads numbers from
/// delimited files.
pub open spec fn strip_commas(s: Seq<char>) -> Seq<char>
    decreases s.len(),
{
    if s.len() == 0 {
        Seq::empty()
    } else if s.last() == ',' {
        strip_commas(s.drop_last())
    } else {
        strip_commas(s.drop_last()).push(s.last())
    }
}

/// Removes every comma from a string.
pub fn remove_commas(s: &str) -> (r: String)
    ensures
        r@ == strip_commas(s@),
{
    let n = s.unicode_len();
    let mut out = String::new();
    let mut i: usize = 0;
    while i < n
        invariant
            n == s@.len(),
            i <= n,
            out@ == strip_commas(s@.take(i as int)),
        decreases n - i,
    {
        let c = s.get_char(i);
        proof {
            assert(s@.take(i + 1).drop_last() =~= s@.take(i as int));
            assert(s@.take(i + 1).last() == s@[i as int]);
        }
        if c != ',' {
            crate::strutil::push_char(&mut out, c);
        }
        i = i + 1;
    }
    proof {
        assert(s@.take(n as int) =~= s@);
    }
    out
}

/// The datatype inferred for a raw string: a date shape first, then a number,
/// then a boolean, and otherwise text.
pub open spec fn inferred_type(s: Seq<char>) -> DataType {
    if date_of_str(s) is Some {
        DataType::Date
    } else if dec_parse_of(s) is Some {
        DataType::Number
    } else if bool_of_str(s) is Some {
        DataType::Boolean
    } else {
        DataType::Text
    }
}

impl DataType {
    /// Infers the datatype of a raw string value.
    pub fn get_type_from_string_val(val: &str) -> (r: DataType)
        ensures
            r == inferred_type(val@),
    {
        if parse_date(val).is_some() {
            return DataType::Date;
        }
        if dec_parse(val).is_some() {
            return DataType::Number;
        }
        if parse_bool(val).is_some() {
            return DataType::Boolean;
        }
        DataType::Text
    }
}

/// Whether a non-empty raw string can be read at the given datatype.
pub open spec fn valid_for(s: Seq<char>, dt: DataType) -> bool {
    match dt {
        DataType::Number => dec_parse_of(strip_commas(s)) is Some,
        DataType::Date => date_of_str(s) is Some,
        DataType::Boolean => bool_of_str(s) is Some,
        DataType::Text => true,
    }
}

/// What a well-typed value read from a raw string must look like.
pub open spec fn value_of_string(s: Seq<char>, dt: DataType, v: Value) -> bool {
    if s.len() == 0 {
        v == Value::Null
    } else {
        match dt {
            DataType::Number => match v {
                Value::Number(d) => d.wf() && ({
                    let p = dec_parse_of(strip_commas(s))->Some_0;
                    rat_eq_int(d.num(), d.scale as int, signed_val(p.0, crate::numeric::chars_int(p.1)), p.2)
                }),
                _ => false,
            },
            DataType::Date => v == Value::Date(date_of_str(s)->Some_0),
            DataType::Boolean => v == Value::Boolean(bool_of_str(s)->Some_0),
            DataType::Text => match v {
                Value::Text(t) => t@ == s,
                _ => false,
            },
        }
    }
}

impl Value {
    /// Reads a numeric value from a string.
    pub fn number(val: &str) -> (r: Value)
        requires
            dec_parse_of(val@) is Some,
        ensures
            r is Number,
            r.wf(),
            ({
                let p = dec_parse_of(val@)->Some_0;
                rat_eq_int(
                    r->Number_0.num(),
                    r->Number_0.scale as int,
                    signed_val(p.0, crate::numeric::chars_int(p.1)),
                    p.2,
                )
            }),
    {
        match dec_parse(val) {
            Some(d) => Value::Number(d),
            None => {
                proof {
                    assert(false);
                }
                Value::Null
            },
        }
    }

    /// Reads a numeric value from a string, or nothing when it does not parse.
    pub fn number_checked(val: &str) -> (r: Option<Value>)
        ensures
            r is Some <==> dec_parse_of(val@) is Some,
            match r {
                Some(v) => v is Number && v.wf(),
                None => true,
            },
    {
        match dec_parse(val) {
            Some(_) => Some(Value::number(val)),
            None => None,
        }
    }

    /// Reads a date value from an ISO `YYYY-MM-DD` string.
    pub fn date(val: &str) -> (r: Value)
        requires
            date_of_str(val@) is Some,
        ensures
            r == Value::Date(date_of_str(val@)->Some_0),
            r.wf(),
    {
        match parse_date(val) {
            Some(d) => Value::Date(d),
            None => {
                proof {
                    assert(false);
                }
                Value::Null
            },
        }
    }

    /// Reads a date value from a string, or nothing when it does not parse.
    pub fn date_checked(val: &str) -> (r: Option<Value>)
        ensures
            r is Some <==> date_of_str(val@) is Some,
            match r {
                Some(v) => v == Value::Date(date_of_str(val@)->Some_0) && v.wf(),
                None => true,
            },
    {
        match parse_date(val) {
            Some(_) => Some(Value::date(val)),
            None => None,
        }
    }

    /// Reads a value of the given datatype from a raw string; an empty string
    /// reads as `Null`.
    pub fn get_value_from_string_val(val: &str, datatype: &DataType) -> (r: Value)
        requires
            val@.len() > 0 ==> valid_for(val@, *datatype),
        ensures
            r.wf(),
            r.fits_type(*datatype),
            value_of_string(val@, *datatype, r),
    {
        if val.unicode_len() == 0 {
            return Value::Null;
        }
        match datatype {
            DataType::Number => {
                let stripped = remove_commas(val);
                match dec_parse(stripped.as_str()) {
                    Some(d) => Value::Number(d),
                    None => {
                        proof {
                            assert(false);
                        }
                        Value::Null
                    },
                }
            },
            DataType::Date => Value::date(val),
            DataType::Boolean => {
                match parse_bool(val) {
                    Some(b) => Value::Boolean(b),
                    None => {
                        proof {
                            assert(false);
                        }
                        Value::Null
                    },
                }
            },
            DataType::Text => Value::Text(val.to_owned()),
        }
    }

    /// Reads a value of the given datatype from a raw string, or nothing when
    /// the string cannot be read at that type.
    pub fn value_from_string_checked(val: &str, datatype: &DataType) -> (r: Option<Value>)
        ensures
            r is Some <==> (val@.len() == 0 || valid_for(val@, *datatype)),
            match r {
                Some(v) => v.wf() && v.fits_type(*datatype) && value_of_string(
                    val@,
                    *datatype,
                    v,
                ),
                None => true,
            },
    {
        if val.unicode_len() == 0 {
            return Some(Value::get_value_from_string_val(val, datatype));
        }
        let ok = match datatype {
            DataType::Number => {
                let stripped = remove_commas(val);
                dec_parse(stripped.as_str()).is_some()
            },
            DataType::Date => parse_date(val).is_some(),
            DataType::Boolean => parse_bool(val).is_some(),
            DataType::Text => true,
        };
        if ok {
            Some(Value::get_value_from_string_val(val, datatype))
        } else {
            None
        }
    }
}


/// Decides semantic equality of two values.
pub fn val_equiv_exec(a: &Value, b: &Value) -> (r: bool)
    requires
        a.wf(),
        b.wf(),
    ensures
        r == val_equiv(*a, *b),
{
    match (a, b) {
        (Value::Number(x), Value::Number(y)) => x.cmp_dec(y) == 0,
        (Value::Text(x), Value::Text(y)) => str_eq(x.as_str(), y.as_str()),
        (Value::Boolean(x), Value::Boolean(y)) => *x == *y,
        (Value::Date(x), Value::Date(y)) => x.cmp_date(y) == 0,
        (Value::Null, Value::Null) => true,
        _ => false,
    }
}

/// Decides the total value order `val_le`.
pub fn val_le_exec(a: &Value, b: &Value) -> (r: bool)
    requires
        a.wf(),
        b.wf(),
    ensures
        r == val_le(*a, *b),
{
    let ra = val_rank_exec(a);
    let rb = val_rank_exec(b);
    if ra != rb {
        return ra < rb;
    }
    match (a, b) {
        (Value::Number(x), Value::Number(y)) => x.cmp_dec(y) != 1,
        (Value::Text(x), Value::Text(y)) => crate::strutil::str_le(x.as_str(), y.as_str()),
        (Value::Boolean(x), Value::Boolean(y)) => !*x || *y,
        (Value::Date(x), Value::Date(y)) => x.cmp_date(y) != 1,
        _ => true,
    }
}

/// The variant rank of a value.
pub fn val_rank_exec(v: &Value) -> (r: u8)
    ensures
        r as int == val_rank(*v),
{
    match v {
        Value::Null => 0,
        Value::Number(_) => 1,
        Value::Text(_) => 2,
        Value::Boolean(_) => 3,
        Value::Date(_) => 4,
    }
}


/// Decides equality of two datatypes.
pub fn datatype_eq(a: &DataType, b: &DataType) -> (r: bool)
    ensures
        r == (a == b),
{
    match (a, b) {
        (DataType::Text, DataType::Text) => true,
        (DataType::Boolean, DataType::Boolean) => true,
        (DataType::Number, DataType::Number) => true,
        (DataType::Date, DataType::Date) => true,
        _ => false,
    }
}

} // verus!
