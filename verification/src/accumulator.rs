use vstd::prelude::*;

use crate::error::ZakuError;
use crate::numeric::{pow10, rat_eq_int, Decimal};
use crate::physical_expr::PhysicalExprs;
use crate::types::{dup_value, minmax_compatible, val_le, Value};

verus! {

/// An aggregate over an input expression.
#[derive(Debug)]
pub enum AggregateExpressions {
    Sum(PhysicalExprs),
    Count(PhysicalExprs),
    Min(PhysicalExprs),
    Max(PhysicalExprs),
    Avg(PhysicalExprs),
}

impl AggregateExpressions {
    /// The expression whose values feed the accumulator.
    pub open spec fn input_spec(self) -> PhysicalExprs {
        match self {
            AggregateExpressions::Sum(e) => e,
            AggregateExpressions::Count(e) => e,
            AggregateExpressions::Min(e) => e,
            AggregateExpressions::Max(e) => e,
            AggregateExpressions::Avg(e) => e,
        }
    }

    /// A copy of the expression whose values feed the accumulator.
    pub fn input_expr(&self) -> (r: PhysicalExprs)
        ensures
            r == self.input_spec(),
    {
        match self {
            AggregateExpressions::Sum(e) => e.duplicate(),
            AggregateExpressions::Count(e) => e.duplicate(),
            AggregateExpressions::Min(e) => e.duplicate(),
            AggregateExpressions::Max(e) => e.duplicate(),
            AggregateExpressions::Avg(e) => e.duplicate(),
        }
    }

    /// A fresh, empty accumulator of the matching kind.
    pub fn create_accumulator(&self) -> (r: Accumulators)
        ensures
            r.inv(),
            r.is_empty(),
            match self {
                AggregateExpressions::Sum(_) => r is Sum,
                AggregateExpressions::Count(_) => r is Count,
                AggregateExpressions::Min(_) => r is Min,
                AggregateExpressions::Max(_) => r is Max,
                AggregateExpressions::Avg(_) => r is Avg,
            },
    {
        match self {
            AggregateExpressions::Sum(_) => Accumulators::Sum(Sum::new()),
            AggregateExpressions::Count(_) => Accumulators::Count(Count::new()),
            AggregateExpressions::Min(_) => Accumulators::Min(Min::new()),
            AggregateExpressions::Max(_) => Accumulators::Max(Max::new()),
            AggregateExpressions::Avg(_) => Accumulators::Avg(Avg::new()),
        }
    }
}

/// Running state of a `SUM`: the sum so far, or nothing before the first input.
#[derive(Debug)]
pub struct Sum {
    pub value: Option<Value>,
}

/// Running state of a `COUNT`: how many inputs arrived, `Null` included.
#[derive(Debug)]
pub struct Count {
    pub value: usize,
}

/// Running state of a `MIN`.
#[derive(Debug)]
pub struct Min {
    pub value: Option<Value>,
}

/// Running state of a `MAX`.
#[derive(Debug)]
pub struct Max {
    pub value: Option<Value>,
}

/// Running state of an `AVG`: the running sum and the number of inputs.
#[derive(Debug)]
pub struct Avg {
    pub sum: Option<Value>,
    pub count: usize,
}

impl Sum {
    pub fn new() -> (r: Sum)
        ensures
            r.value is None,
    {
        Sum { value: None }
    }
}

impl Count {
    pub fn new() -> (r: Count)
        ensures
            r.value == 0,
    {
        Count { value: 0 }
    }
}

impl Min {
    pub fn new() -> (r: Min)
        ensures
            r.value is None,
    {
        Min { value: None }
    }
}

impl Max {
    pub fn new() -> (r: Max)
        ensures
            r.value is None,
    {
        Max { value: None }
    }
}

impl Avg {
    pub fn new() -> (r: Avg)
        ensures
            r.sum is None,
            r.count == 0,
    {
        Avg { sum: None, count: 0 }
    }
}

/// A per-group accumulator of one aggregate kind.
#[derive(Debug)]
pub enum Accumulators {
    Sum(Sum),
    Count(Count),
    Min(Min),
    Max(Max),
    Avg(Avg),
}

/// The sum state holds a well-formed number once set.
pub open spec fn sum_state_inv(st: Option<Value>) -> bool {
    match st {
        None => true,
        Some(v) => v is Number && v.wf(),
    }
}

/// The min/max state holds a well-formed value once set.
pub open spec fn minmax_state_inv(st: Option<Value>) -> bool {
    match st {
        None => true,
        Some(v) => v.wf(),
    }
}

impl Accumulators {
    /// The accumulator state is well formed.
    pub open spec fn inv(self) -> bool {
        match self {
            Accumulators::Sum(a) => sum_state_inv(a.value),
            Accumulators::Count(_) => true,
            Accumulators::Min(a) => minmax_state_inv(a.value),
            Accumulators::Max(a) => minmax_state_inv(a.value),
            Accumulators::Avg(a) => sum_state_inv(a.sum) && (a.sum is Some <==> a.count > 0) && (
            a.sum matches Some(Value::Number(d)) ==> d.scale <= i64::MAX - 256),
        }
    }

    /// The accumulator has seen no input yet.
    pub open spec fn is_empty(self) -> bool {
        match self {
            Accumulators::Sum(a) => a.value is None,
            Accumulators::Count(a) => a.value == 0,
            Accumulators::Min(a) => a.value is None,
            Accumulators::Max(a) => a.value is None,
            Accumulators::Avg(a) => a.sum is None && a.count == 0,
        }
    }

    /// Whether another input can still be counted without overflowing.
    pub fn can_take_more(&self) -> (r: bool)
        ensures
            r == match self {
                Accumulators::Count(a) => a.value < usize::MAX,
                Accumulators::Avg(a) => a.count < usize::MAX,
                _ => true,
            },
    {
        match self {
            Accumulators::Count(a) => a.value < usize::MAX,
            Accumulators::Avg(a) => a.count < usize::MAX,
            _ => true,
        }
    }

    /// Feeds one input value into the accumulator. `COUNT` counts every
    /// value; `SUM` and `AVG` treat `Null` as zero; `MIN` and `MAX` absorb
    /// `Null`. A value of the wrong type is an error and leaves the state
    /// unchanged.
    pub fn accumulate(&mut self, value: &Value) -> (r: Result<(), ZakuError>)
        requires
            (*old(self)).inv(),
            value.wf(),
            (*old(self)) is Count ==> (*old(self))->Count_0.value < usize::MAX,
            (*old(self)) is Avg ==> (*old(self))->Avg_0.count < usize::MAX,
        ensures
            (*final(self)).inv(),
            (*final(self)) is Sum == (*old(self)) is Sum,
            (*final(self)) is Count == (*old(self)) is Count,
            (*final(self)) is Min == (*old(self)) is Min,
            (*final(self)) is Max == (*old(self)) is Max,
            (*final(self)) is Avg == (*old(self)) is Avg,
            match r {
                Ok(()) => accumulate_step(*old(self), *value, *final(self)),
                Err(e) => e is TypeError && *final(self) == *old(self),
            },
            r is Ok <==> accumulate_accepts(*old(self), *value),
    {
        match self {
            Accumulators::Sum(a) => {
                match value {
                    Value::Number(_) => {
                        match &a.value {
                            Some(s) => {
                                let next = match s.add(value) {
                                    Ok(v) => v,
                                    Err(_) => {
                                        proof {
                                            assert(false);
                                        }
                                        Value::Null
                                    },
                                };
                                a.value = Some(next);
                            },
                            None => {
                                a.value = Some(dup_value(value));
                            },
                        }
                        Ok(())
                    },
                    Value::Null => {
                        match &a.value {
                            Some(s) => {
                                let zero = Value::Number(Decimal::zero());
                                let next = match s.add(&zero) {
                                    Ok(v) => v,
                                    Err(_) => {
                                        proof {
                                            assert(false);
                                        }
                                        Value::Null
                                    },
                                };
                                a.value = Some(next);
                            },
                            None => {
                                a.value = Some(Value::Number(Decimal::zero()));
                            },
                        }
                        Ok(())
                    },
                    _ => Err(ZakuError::TypeError(String::from_str("SUM expects numbers"))),
                }
            },
            Accumulators::Count(a) => {
                a.value = a.value + 1;
                Ok(())
            },
            Accumulators::Min(a) => {
                match &a.value {
                    Some(v) => {
                        if matches!(v, Value::Number(_) | Value::Date(_)) {
                            match v.minimum(value) {
                                Ok(m) => {
                                    a.value = Some(m);
                                    Ok(())
                                },
                                Err(e) => Err(e),
                            }
                        } else {
                            // the state can only be Null here
                            a.value = Some(dup_value(value));
                            Ok(())
                        }
                    },
                    None => {
                        a.value = Some(dup_value(value));
                        Ok(())
                    },
                }
            },
            Accumulators::Max(a) => {
                match &a.value {
                    Some(v) => {
                        if matches!(v, Value::Number(_) | Value::Date(_)) {
                            match v.maximum(value) {
                                Ok(m) => {
                                    a.value = Some(m);
                                    Ok(())
                                },
                                Err(e) => Err(e),
                            }
                        } else {
                            a.value = Some(dup_value(value));
                            Ok(())
                        }
                    },
                    None => {
                        a.value = Some(dup_value(value));
                        Ok(())
                    },
                }
            },
            Accumulators::Avg(a) => {
                match value {
                    Value::Number(vd) => {
                        if vd.scale > i64::MAX - 256 {
                            return Err(
                                ZakuError::TypeError(
                                    String::from_str("the value's scale is too large to average"),
                                ),
                            );
                        }
                        match &a.sum {
                            Some(s) => {
                                let next = match s.add(value) {
                                    Ok(v) => v,
                                    Err(_) => {
                                        proof {
                                            assert(false);
                                        }
                                        Value::Null
                                    },
                                };
                                a.sum = Some(next);
                            },
                            None => {
                                a.sum = Some(dup_value(value));
                            },
                        }
                        a.count = a.count + 1;
                        Ok(())
                    },
                    Value::Null => {
                        match &a.sum {
                            Some(s) => {
                                let zero = Value::Number(Decimal::zero());
                                let next = match s.add(&zero) {
                                    Ok(v) => v,
                                    Err(_) => {
                                        proof {
                                            assert(false);
                                        }
                                        Value::Null
                                    },
                                };
                                a.sum = Some(next);
                            },
                            None => {
                                a.sum = Some(Value::Number(Decimal::zero()));
                            },
                        }
                        a.count = a.count + 1;
                        Ok(())
                    },
                    _ => Err(ZakuError::TypeError(String::from_str("AVG expects numbers"))),
                }
            },
        }
    }

    /// The finished value of the accumulator; an accumulator that saw no
    /// input yields `Null` (and a bare `COUNT` yields zero). An average is
    /// the bigdecimal quotient of the running sum by the input count.
    pub fn get_value(&self) -> (r: Value)
        requires
            self.inv(),
        ensures
            acc_finishes(*self, r),
    {
        match self {
            Accumulators::Sum(a) => {
                match &a.value {
                    Some(v) => dup_value(v),
                    None => Value::Null,
                }
            },
            Accumulators::Count(a) => Value::Number(Decimal::from_u64(a.value as u64)),
            Accumulators::Min(a) => {
                match &a.value {
                    Some(v) => dup_value(v),
                    None => Value::Null,
                }
            },
            Accumulators::Max(a) => {
                match &a.value {
                    Some(v) => dup_value(v),
                    None => Value::Null,
                }
            },
            Accumulators::Avg(a) => {
                match &a.sum {
                    Some(s) => {
                        let sd = match s {
                            Value::Number(sd) => sd,
                            _ => {
                                proof {
                                    assert(false);
                                }
                                return Value::Null;
                            },
                        };
                        let cnt = Decimal::from_u64(a.count as u64);
                        proof {
                            crate::numeric::lemma_chars_int_zero(cnt.digits@);
                            // a count of at most twenty digits leaves the
                            // division all the scale headroom it needs
                            crate::numeric::lemma_pow10_twenty();
                            crate::numeric::lemma_nat_digits_len(a.count as nat, 20);
                        }
                        Value::Number(sd.div(&cnt))
                    },
                    None => Value::Null,
                }
            },
        }
    }
}

/// The finished value an accumulator yields: a count as an exact decimal,
/// a sum, minimum or maximum as the value held (or `Null` for none), and an
/// average as the normalized quotient of the sum by the count.
pub open spec fn acc_finishes(st: Accumulators, r: Value) -> bool {
    r.wf() && match st {
        Accumulators::Sum(a) => match a.value {
            Some(w) => r == w,
            None => r == Value::Null,
        },
        Accumulators::Count(a) => r matches Value::Number(d) && d.num() == a.value as int && !d.neg
            && d.scale == 0 && d.digits@ == crate::numeric::nat_digits(a.value as nat),
        Accumulators::Min(a) => match a.value {
            Some(w) => r == w,
            None => r == Value::Null,
        },
        Accumulators::Max(a) => match a.value {
            Some(w) => r == w,
            None => r == Value::Null,
        },
        Accumulators::Avg(a) => match a.sum {
            Some(sv) => sv matches Value::Number(sd) && r matches Value::Number(d) && d.wf() && ({
                let w = crate::numeric::dec_div_of(
                    sd.neg,
                    sd.digits@,
                    sd.scale as int,
                    false,
                    crate::numeric::nat_digits(a.count as nat),
                    0,
                );
                rat_eq_int(
                    d.num(),
                    d.scale as int,
                    crate::numeric::signed_val(w.0, crate::numeric::chars_int(w.1)),
                    w.2,
                ) && (d.neg, d.digits@, d.scale as int) == crate::numeric::norm_triple(w)
            }),
            None => r == Value::Null,
        },
    }
}

/// Whether the accumulator takes this input at all.
pub open spec fn accumulate_accepts(st: Accumulators, v: Value) -> bool {
    match st {
        Accumulators::Sum(_) => v is Number || v is Null,
        Accumulators::Count(_) => true,
        Accumulators::Min(a) => match a.value {
            Some(cur) => if cur is Number || cur is Date {
                minmax_compatible(cur, v)
            } else {
                true
            },
            None => true,
        },
        Accumulators::Max(a) => match a.value {
            Some(cur) => if cur is Number || cur is Date {
                minmax_compatible(cur, v)
            } else {
                true
            },
            None => true,
        },
        Accumulators::Avg(_) => v is Null || (v matches Value::Number(d) && d.scale <= i64::MAX
            - 256),
    }
}

/// How one accepted input moves the accumulator state forward.
pub open spec fn accumulate_step(st: Accumulators, v: Value, st2: Accumulators) -> bool {
    match (st, st2) {
        (Accumulators::Sum(a), Accumulators::Sum(b)) => sum_step(a.value, v, b.value),
        (Accumulators::Count(a), Accumulators::Count(b)) => b.value == a.value + 1,
        (Accumulators::Min(a), Accumulators::Min(b)) => minmax_step(a.value, v, b.value, true),
        (Accumulators::Max(a), Accumulators::Max(b)) => minmax_step(a.value, v, b.value, false),
        (Accumulators::Avg(a), Accumulators::Avg(b)) => sum_step(a.sum, v, b.sum) && b.count
            == a.count + 1,
        _ => false,
    }
}

/// One step of a running sum: the first number starts it, `Null` adds zero,
/// and a later number is added exactly.
pub open spec fn sum_step(st: Option<Value>, v: Value, st2: Option<Value>) -> bool {
    match st {
        None => match v {
            Value::Number(_) => st2 == Some(v),
            _ => st2 matches Some(Value::Number(d)) && d.wf() && d.num() == 0 && d.scale == 0,
        },
        Some(s) => st2 matches Some(Value::Number(d)) && d.wf() && match (s, v) {
            (Value::Number(x), Value::Number(y)) => d.scale <= (if x.scale >= y.scale {
                x.scale
            } else {
                y.scale
            }) && rat_eq_int(
                d.num(),
                d.scale as int,
                x.num() * pow10(y.scale as nat) + y.num() * pow10(x.scale as nat),
                x.scale as int + y.scale as int,
            ),
            (Value::Number(x), _) => d.scale <= x.scale && rat_eq_int(
                d.num(),
                d.scale as int,
                x.num(),
                x.scale as int,
            ),
            _ => false,
        },
    }
}

/// One step of a running minimum or maximum: the first input starts it, a
/// `Null` state restarts it, and otherwise the smaller (or larger) side wins.
pub open spec fn minmax_step(st: Option<Value>, v: Value, st2: Option<Value>, is_min: bool) -> bool {
    match st {
        None => st2 == Some(v),
        Some(cur) => if cur is Number || cur is Date {
            st2 matches Some(m) && m.wf() && if v is Null {
                m == cur
            } else {
                (m == cur || m == v) && if is_min {
                    val_le(m, cur) && val_le(m, v)
                } else {
                    val_le(cur, m) && val_le(v, m)
                }
            }
        } else {
            st2 == Some(v)
        },
    }
}


/// The running state stays inside the datatype of the aggregate's column.
pub open spec fn acc_fits(st: Accumulators, dt: crate::types::DataType) -> bool {
    match st {
        Accumulators::Min(a) => match a.value {
            Some(v) => v.fits_type(dt),
            None => true,
        },
        Accumulators::Max(a) => match a.value {
            Some(v) => v.fits_type(dt),
            None => true,
        },
        _ => true,
    }
}

} // verus!
