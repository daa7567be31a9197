use vstd::prelude::*;

use crate::column_vector::{ColumnVector, LiteralVector, Vectors};
use crate::dates::Date;
use crate::error::ZakuError;
use crate::numeric::{norm_triple, pow10, rat_eq_int, signed_val, Decimal};
use crate::operators::{BooleanOp, MathOp};
use crate::record_batch::RecordBatch;
use crate::schema::Field;
use crate::types::{
    arith_shape, eq_compatible, logic_operands, ord_compatible, val_eq_repr, val_equiv, val_le,
    DataType, Value,
};

verus! {

/// A vectorized expression, evaluated over a record batch.
#[derive(Debug)]
pub enum PhysicalExprs {
    Column(usize),
    LiteralText(String),
    LiteralBoolean(bool),
    LiteralNumber(Decimal),
    LiteralDate(Date),
    BooleanExpr(BooleanExpr),
    MathExpr(MathExpr),
}

/// A comparison or logical operation over two expressions.
#[derive(Debug)]
pub struct BooleanExpr {
    pub l: Box<PhysicalExprs>,
    pub op: BooleanOp,
    pub r: Box<PhysicalExprs>,
}

/// An arithmetic operation over two expressions.
#[derive(Debug)]
pub struct MathExpr {
    pub l: Box<PhysicalExprs>,
    pub op: MathOp,
    pub r: Box<PhysicalExprs>,
}

impl BooleanExpr {
    pub fn new(l: Box<PhysicalExprs>, op: BooleanOp, r: Box<PhysicalExprs>) -> (res: BooleanExpr)
        ensures
            res.l == l,
            res.op == op,
            res.r == r,
    {
        BooleanExpr { l, op, r }
    }
}

impl MathExpr {
    pub fn new(l: Box<PhysicalExprs>, op: MathOp, r: Box<PhysicalExprs>) -> (res: MathExpr)
        ensures
            res.l == l,
            res.op == op,
            res.r == r,
    {
        MathExpr { l, op, r }
    }
}

// ---------------------------------------------------------------------------
// The meaning of one operator application
// ---------------------------------------------------------------------------
/// Whether the comparison or logical operator accepts these operands.
pub open spec fn bool_op_defined(op: BooleanOp, a: Value, b: Value) -> bool {
    match op {
        BooleanOp::And => logic_operands(a, b) is Some,
        BooleanOp::Or => logic_operands(a, b) is Some,
        BooleanOp::Eq => eq_compatible(a, b),
        BooleanOp::Neq => eq_compatible(a, b),
        _ => ord_compatible(a, b),
    }
}

/// The value a comparison or logical operator yields.
pub open spec fn apply_bool_op(op: BooleanOp, a: Value, b: Value, out: Value) -> bool {
    bool_op_defined(op, a, b) && match op {
        BooleanOp::And => out == Value::Boolean(
            logic_operands(a, b)->Some_0.0 && logic_operands(a, b)->Some_0.1,
        ),
        BooleanOp::Or => out == Value::Boolean(
            logic_operands(a, b)->Some_0.0 || logic_operands(a, b)->Some_0.1,
        ),
        BooleanOp::Eq => out == Value::Boolean(
            !(a is Null) && !(b is Null) && val_equiv(a, b),
        ),
        BooleanOp::Neq => out == Value::Boolean(
            !(a is Null) && !(b is Null) && !val_equiv(a, b),
        ),
        BooleanOp::Gt => out == Value::Boolean(!(a is Null) && !(b is Null) && !val_le(a, b)),
        BooleanOp::Gte => out == Value::Boolean(!(a is Null) && !(b is Null) && val_le(b, a)),
        BooleanOp::Lt => out == Value::Boolean(!(a is Null) && !(b is Null) && !val_le(b, a)),
        BooleanOp::Lte => out == Value::Boolean(!(a is Null) && !(b is Null) && val_le(a, b)),
    }
}

/// Whether the arithmetic operator accepts these operands, including the
/// zero-divisor rule.
pub open spec fn math_op_defined(op: MathOp, a: Value, b: Value) -> bool {
    match arith_shape(a, b) {
        None => false,
        Some(None) => true,
        Some(Some(p)) => match op {
            MathOp::Mul => p.0.scale + p.1.scale <= i64::MAX,
            MathOp::Div => p.1.num() != 0 && p.0.scale + p.1.digits@.len() + 128 <= i64::MAX,
            MathOp::Mod => p.1.num() != 0,
            _ => true,
        },
    }
}

/// The value an arithmetic operator yields: `Null` propagates, and a result
/// on two numbers denotes the exact (or, for division, the rounded) rational.
pub open spec fn apply_math_op(op: MathOp, a: Value, b: Value, out: Value) -> bool {
    math_op_defined(op, a, b) && match arith_shape(a, b) {
        None => false,
        Some(None) => out == Value::Null,
        Some(Some(p)) => match out {
            Value::Number(d) => d.wf() && ({
                let w = match op {
                    MathOp::Add => crate::numeric::dec_add_of(
                        p.0.neg,
                        p.0.digits@,
                        p.0.scale as int,
                        p.1.neg,
                        p.1.digits@,
                        p.1.scale as int,
                    ),
                    MathOp::Sub => crate::numeric::dec_sub_of(
                        p.0.neg,
                        p.0.digits@,
                        p.0.scale as int,
                        p.1.neg,
                        p.1.digits@,
                        p.1.scale as int,
                    ),
                    MathOp::Mul => crate::numeric::dec_mul_of(
                        p.0.neg,
                        p.0.digits@,
                        p.0.scale as int,
                        p.1.neg,
                        p.1.digits@,
                        p.1.scale as int,
                    ),
                    MathOp::Div => crate::numeric::dec_div_of(
                        p.0.neg,
                        p.0.digits@,
                        p.0.scale as int,
                        p.1.neg,
                        p.1.digits@,
                        p.1.scale as int,
                    ),
                    MathOp::Mod => crate::numeric::dec_rem_of(
                        p.0.neg,
                        p.0.digits@,
                        p.0.scale as int,
                        p.1.neg,
                        p.1.digits@,
                        p.1.scale as int,
                    ),
                };
                (d.neg, d.digits@, d.scale as int) == norm_triple(w) && match op {
                    MathOp::Add => rat_eq_int(
                        d.num(),
                        d.scale as int,
                        p.0.num() * pow10(p.1.scale as nat) + p.1.num() * pow10(p.0.scale as nat),
                        p.0.scale as int + p.1.scale as int,
                    ),
                    MathOp::Sub => rat_eq_int(
                        d.num(),
                        d.scale as int,
                        p.0.num() * pow10(p.1.scale as nat) - p.1.num() * pow10(p.0.scale as nat),
                        p.0.scale as int + p.1.scale as int,
                    ),
                    MathOp::Mul => rat_eq_int(
                        d.num(),
                        d.scale as int,
                        p.0.num() * p.1.num(),
                        p.0.scale as int + p.1.scale as int,
                    ),
                    _ => true,
                }
            }),
            _ => false,
        },
    }
}

// ---------------------------------------------------------------------------
// The meaning of evaluating an expression at one row
// ---------------------------------------------------------------------------
impl PhysicalExprs {
    /// Every column reference stays inside `ncols` columns.
    pub open spec fn bounds_ok(self, ncols: int) -> bool
        decreases self,
    {
        match self {
            PhysicalExprs::Column(c) => (c as int) < ncols,
            PhysicalExprs::BooleanExpr(be) => be.l.bounds_ok(ncols) && be.r.bounds_ok(ncols),
            PhysicalExprs::MathExpr(me) => me.l.bounds_ok(ncols) && me.r.bounds_ok(ncols),
            _ => true,
        }
    }

    /// Every literal payload is well formed.
    pub open spec fn wf_expr(self) -> bool
        decreases self,
    {
        match self {
            PhysicalExprs::LiteralNumber(d) => d.wf(),
            PhysicalExprs::LiteralDate(d) => d.wf(),
            PhysicalExprs::BooleanExpr(be) => be.l.wf_expr() && be.r.wf_expr(),
            PhysicalExprs::MathExpr(me) => me.l.wf_expr() && me.r.wf_expr(),
            _ => true,
        }
    }

    /// Copies the expression tree; the copy equals the original.
    pub fn duplicate(&self) -> (r: PhysicalExprs)
        ensures
            r == *self,
        decreases self,
    {
        match self {
            PhysicalExprs::Column(c) => PhysicalExprs::Column(*c),
            PhysicalExprs::LiteralText(s) => PhysicalExprs::LiteralText(s.clone()),
            PhysicalExprs::LiteralBoolean(v) => PhysicalExprs::LiteralBoolean(*v),
            PhysicalExprs::LiteralNumber(d) => PhysicalExprs::LiteralNumber(d.duplicate()),
            PhysicalExprs::LiteralDate(d) => PhysicalExprs::LiteralDate(*d),
            PhysicalExprs::BooleanExpr(be) => PhysicalExprs::BooleanExpr(
                BooleanExpr { l: Box::new(be.l.duplicate()), op: be.op, r: Box::new(be.r.duplicate()) },
            ),
            PhysicalExprs::MathExpr(me) => PhysicalExprs::MathExpr(
                MathExpr { l: Box::new(me.l.duplicate()), op: me.op, r: Box::new(me.r.duplicate()) },
            ),
        }
    }

    /// `out` is a value this expression can evaluate to at row `i`.
    pub open spec fn eval_ok(self, b: RecordBatch, i: int, out: Value) -> bool
        decreases self,
    {
        match self {
            PhysicalExprs::Column(c) => out == b.columns@[c as int].view_seq()[i],
            PhysicalExprs::LiteralText(s) => out == Value::Text(s),
            PhysicalExprs::LiteralBoolean(v) => out == Value::Boolean(v),
            PhysicalExprs::LiteralNumber(d) => out == Value::Number(d),
            PhysicalExprs::LiteralDate(d) => out == Value::Date(d),
            PhysicalExprs::BooleanExpr(be) => exists|lv: Value, rv: Value|
                be.l.eval_ok(b, i, lv) && be.r.eval_ok(b, i, rv) && #[trigger] apply_bool_op(
                    be.op,
                    lv,
                    rv,
                    out,
                ),
            PhysicalExprs::MathExpr(me) => exists|lv: Value, rv: Value|
                me.l.eval_ok(b, i, lv) && me.r.eval_ok(b, i, rv) && #[trigger] apply_math_op(
                    me.op,
                    lv,
                    rv,
                    out,
                ),
        }
    }

    /// Evaluating this expression at row `i` hits a type error.
    pub open spec fn eval_errs(self, b: RecordBatch, i: int) -> bool
        decreases self,
    {
        match self {
            PhysicalExprs::BooleanExpr(be) => be.l.eval_errs(b, i) || be.r.eval_errs(b, i) || (
            exists|lv: Value, rv: Value|
                be.l.eval_ok(b, i, lv) && be.r.eval_ok(b, i, rv) && !(#[trigger] bool_op_defined(
                    be.op,
                    lv,
                    rv,
                ))),
            PhysicalExprs::MathExpr(me) => me.l.eval_errs(b, i) || me.r.eval_errs(b, i) || (
            exists|lv: Value, rv: Value|
                me.l.eval_ok(b, i, lv) && me.r.eval_ok(b, i, rv) && !(#[trigger] math_op_defined(
                    me.op,
                    lv,
                    rv,
                ))),
            _ => false,
        }
    }

    /// The datatype of the column this expression evaluates to, read off the
    /// schema fields of the input.
    pub open spec fn out_dtype(self, fields: Seq<Field>) -> DataType
        decreases self,
    {
        match self {
            PhysicalExprs::Column(c) => fields[c as int].datatype,
            PhysicalExprs::LiteralText(_) => DataType::Text,
            PhysicalExprs::LiteralBoolean(_) => DataType::Boolean,
            PhysicalExprs::LiteralNumber(_) => DataType::Number,
            PhysicalExprs::LiteralDate(_) => DataType::Date,
            PhysicalExprs::BooleanExpr(_) => DataType::Boolean,
            PhysicalExprs::MathExpr(_) => DataType::Number,
        }
    }
}

/// Representation equality of operand pairs carries every comparison,
/// compatibility test and operand shape across.
pub proof fn lemma_repr_congr(a1: Value, b1: Value, a2: Value, b2: Value)
    requires
        val_eq_repr(a1, a2),
        val_eq_repr(b1, b2),
    ensures
        val_equiv(a1, b1) == val_equiv(a2, b2),
        val_le(a1, b1) == val_le(a2, b2),
        val_le(b1, a1) == val_le(b2, a2),
        logic_operands(a1, b1) == logic_operands(a2, b2),
        eq_compatible(a1, b1) == eq_compatible(a2, b2),
        ord_compatible(a1, b1) == ord_compatible(a2, b2),
        crate::types::val_rank(a1) == crate::types::val_rank(a2),
        crate::types::val_rank(b1) == crate::types::val_rank(b2),
{
}

/// Evaluation is deterministic up to the representation of values.
pub proof fn lemma_eval_det(e: PhysicalExprs, b: RecordBatch, i: int, v1: Value, v2: Value)
    requires
        e.eval_ok(b, i, v1),
        e.eval_ok(b, i, v2),
    ensures
        val_eq_repr(v1, v2),
    decreases e,
{
    match e {
        PhysicalExprs::BooleanExpr(be) => {
            let (l1, r1) = choose|lv: Value, rv: Value|
                be.l.eval_ok(b, i, lv) && be.r.eval_ok(b, i, rv) && #[trigger] apply_bool_op(
                    be.op,
                    lv,
                    rv,
                    v1,
                );
            let (l2, r2) = choose|lv: Value, rv: Value|
                be.l.eval_ok(b, i, lv) && be.r.eval_ok(b, i, rv) && #[trigger] apply_bool_op(
                    be.op,
                    lv,
                    rv,
                    v2,
                );
            lemma_eval_det(*be.l, b, i, l1, l2);
            lemma_eval_det(*be.r, b, i, r1, r2);
            lemma_repr_congr(l1, r1, l2, r2);
        },
        PhysicalExprs::MathExpr(me) => {
            let (l1, r1) = choose|lv: Value, rv: Value|
                me.l.eval_ok(b, i, lv) && me.r.eval_ok(b, i, rv) && #[trigger] apply_math_op(
                    me.op,
                    lv,
                    rv,
                    v1,
                );
            let (l2, r2) = choose|lv: Value, rv: Value|
                me.l.eval_ok(b, i, lv) && me.r.eval_ok(b, i, rv) && #[trigger] apply_math_op(
                    me.op,
                    lv,
                    rv,
                    v2,
                );
            lemma_eval_det(*me.l, b, i, l1, l2);
            lemma_eval_det(*me.r, b, i, r1, r2);
            lemma_repr_congr(l1, r1, l2, r2);
        },
        _ => {
            match v1 {
                Value::Number(_) => {},
                Value::Text(_) => {},
                Value::Boolean(_) => {},
                Value::Date(_) => {},
                Value::Null => {},
            }
        },
    }
}

/// An evaluation that produced a value rules out a type error on the same row.
pub proof fn lemma_eval_ok_no_err(e: PhysicalExprs, b: RecordBatch, i: int, v: Value)
    requires
        e.eval_ok(b, i, v),
    ensures
        !e.eval_errs(b, i),
    decreases e,
{
    match e {
        PhysicalExprs::BooleanExpr(be) => {
            let (l1, r1) = choose|lv: Value, rv: Value|
                be.l.eval_ok(b, i, lv) && be.r.eval_ok(b, i, rv) && #[trigger] apply_bool_op(
                    be.op,
                    lv,
                    rv,
                    v,
                );
            lemma_eval_ok_no_err(*be.l, b, i, l1);
            lemma_eval_ok_no_err(*be.r, b, i, r1);
            assert forall|lv: Value, rv: Value|
                be.l.eval_ok(b, i, lv) && be.r.eval_ok(b, i, rv) implies #[trigger] bool_op_defined(
                be.op,
                lv,
                rv,
            ) by {
                lemma_eval_det(*be.l, b, i, lv, l1);
                lemma_eval_det(*be.r, b, i, rv, r1);
                lemma_repr_congr(lv, rv, l1, r1);
            }
        },
        PhysicalExprs::MathExpr(me) => {
            let (l1, r1) = choose|lv: Value, rv: Value|
                me.l.eval_ok(b, i, lv) && me.r.eval_ok(b, i, rv) && #[trigger] apply_math_op(
                    me.op,
                    lv,
                    rv,
                    v,
                );
            lemma_eval_ok_no_err(*me.l, b, i, l1);
            lemma_eval_ok_no_err(*me.r, b, i, r1);
            assert forall|lv: Value, rv: Value|
                me.l.eval_ok(b, i, lv) && me.r.eval_ok(b, i, rv) implies #[trigger] math_op_defined(
                me.op,
                lv,
                rv,
            ) by {
                lemma_eval_det(*me.l, b, i, lv, l1);
                lemma_eval_det(*me.r, b, i, rv, r1);
            }
        },
        _ => {},
    }
}


/// Applies a comparison or logical operator to one pair of row values.
pub fn eval_bool_op(op: &BooleanOp, a: &Value, b: &Value) -> (r: Result<Value, ZakuError>)
    requires
        a.wf(),
        b.wf(),
    ensures
        match r {
            Ok(v) => apply_bool_op(*op, *a, *b, v),
            Err(e) => !bool_op_defined(*op, *a, *b) && e is TypeError,
        },
{
    match op {
        BooleanOp::And => a.and(b),
        BooleanOp::Or => a.or(b),
        BooleanOp::Eq => a.eq(b),
        BooleanOp::Neq => a.neq(b),
        BooleanOp::Gt => a.gt(b),
        BooleanOp::Gte => a.gte(b),
        BooleanOp::Lt => a.lt(b),
        BooleanOp::Lte => a.lte(b),
    }
}

/// Applies an arithmetic operator to one pair of row values.
pub fn eval_math_op(op: &MathOp, a: &Value, b: &Value) -> (r: Result<Value, ZakuError>)
    requires
        a.wf(),
        b.wf(),
    ensures
        match r {
            Ok(v) => apply_math_op(*op, *a, *b, v) && v.wf(),
            Err(e) => !math_op_defined(*op, *a, *b) && e is TypeError,
        },
{
    match op {
        MathOp::Add => a.add(b),
        MathOp::Sub => a.sub(b),
        MathOp::Mul => a.mul(b),
        MathOp::Div => a.div(b),
        MathOp::Mod => a.modulo(b),
    }
}

impl PhysicalExprs {
    /// Evaluates the expression over every row of the batch, producing one
    /// column of the batch's row count. The evaluation succeeds exactly when
    /// no row hits a type error.
    pub fn evaluate(&self, batch: &RecordBatch) -> (r: Result<Vectors, ZakuError>)
        requires
            batch.wf(),
            self.bounds_ok(batch.columns@.len() as int),
            self.wf_expr(),
        ensures
            match r {
                Ok(col) => {
                    &&& col.view_seq().len() == batch.nrows()
                    &&& col.wf()
                    &&& col.dtype() == self.out_dtype(batch.schema.fields@)
                    &&& forall|i: int|
                        0 <= i < batch.nrows() ==> self.eval_ok(
                            *batch,
                            i,
                            #[trigger] col.view_seq()[i],
                        )
                },
                Err(e) => (exists|i: int|
                    0 <= i < batch.nrows() && self.eval_errs(*batch, i)) && e is TypeError,
            },
        decreases self,
    {
        let n = batch.row_count();
        match self {
            PhysicalExprs::Column(c) => {
                let col = batch.columns[*c].duplicate();
                proof {
                    assert(batch.columns@[*c as int].wf());
                }
                Ok(col)
            },
            PhysicalExprs::LiteralText(s) => Ok(
                Vectors::LiteralVector(
                    crate::column_vector::LiteralVector {
                        datatype: DataType::Text,
                        value: Value::Text(s.clone()),
                        size: n,
                    },
                ),
            ),
            PhysicalExprs::LiteralBoolean(v) => Ok(
                Vectors::LiteralVector(
                    crate::column_vector::LiteralVector {
                        datatype: DataType::Boolean,
                        value: Value::Boolean(*v),
                        size: n,
                    },
                ),
            ),
            PhysicalExprs::LiteralNumber(d) => Ok(
                Vectors::LiteralVector(
                    crate::column_vector::LiteralVector {
                        datatype: DataType::Number,
                        value: Value::Number(d.duplicate()),
                        size: n,
                    },
                ),
            ),
            PhysicalExprs::LiteralDate(d) => Ok(
                Vectors::LiteralVector(
                    crate::column_vector::LiteralVector {
                        datatype: DataType::Date,
                        value: Value::Date(*d),
                        size: n,
                    },
                ),
            ),
            PhysicalExprs::BooleanExpr(be) => {
                let lcol = match be.l.evaluate(batch) {
                    Ok(col) => col,
                    Err(e) => {
                        proof {
                            let w = choose|w: int|
                                0 <= w < batch.nrows() && be.l.eval_errs(*batch, w);
                            assert(self.eval_errs(*batch, w));
                        }
                        return Err(e);
                    },
                };
                let rcol = match be.r.evaluate(batch) {
                    Ok(col) => col,
                    Err(e) => {
                        proof {
                            let w = choose|w: int|
                                0 <= w < batch.nrows() && be.r.eval_errs(*batch, w);
                            assert(self.eval_errs(*batch, w));
                        }
                        return Err(e);
                    },
                };
                let mut values: Vec<Value> = Vec::new();
                let mut i: usize = 0;
                while i < n
                    invariant
                        *self == PhysicalExprs::BooleanExpr(*be),
                        batch.wf(),
                        n as nat == batch.nrows(),
                        lcol.view_seq().len() == n as nat,
                        rcol.view_seq().len() == n as nat,
                        lcol.wf(),
                        rcol.wf(),
                        forall|k: int|
                            0 <= k < n ==> be.l.eval_ok(*batch, k, #[trigger] lcol.view_seq()[k]),
                        forall|k: int|
                            0 <= k < n ==> be.r.eval_ok(*batch, k, #[trigger] rcol.view_seq()[k]),
                        i <= n,
                        values@.len() == i,
                        forall|k: int|
                            0 <= k < i ==> apply_bool_op(
                                be.op,
                                lcol.view_seq()[k],
                                rcol.view_seq()[k],
                                #[trigger] values@[k],
                            ),
                    decreases n - i,
                {
                    match eval_bool_op(&be.op, lcol.get_value(&i), rcol.get_value(&i)) {
                        Ok(v) => {
                            values.push(v);
                        },
                        Err(e) => {
                            proof {
                                let lv = lcol.view_seq()[i as int];
                                let rv = rcol.view_seq()[i as int];
                                assert(be.l.eval_ok(*batch, i as int, lv) && be.r.eval_ok(
                                    *batch,
                                    i as int,
                                    rv,
                                ) && !bool_op_defined(be.op, lv, rv));
                                assert(self.eval_errs(*batch, i as int));
                            }
                            return Err(e);
                        },
                    }
                    i = i + 1;
                }
                let col = Vectors::ColumnVector(
                    ColumnVector { datatype: DataType::Boolean, values },
                );
                proof {
                    assert forall|k: int| 0 <= k < batch.nrows() implies self.eval_ok(
                        *batch,
                        k,
                        #[trigger] col.view_seq()[k],
                    ) by {
                        assert(apply_bool_op(
                            be.op,
                            lcol.view_seq()[k],
                            rcol.view_seq()[k],
                            col.view_seq()[k],
                        ));
                    }
                    assert forall|k: int| 0 <= k < col.view_seq().len() implies (
                    #[trigger] col.view_seq()[k]).wf() && col.view_seq()[k].fits_type(
                        col.dtype(),
                    ) by {
                        assert(apply_bool_op(
                            be.op,
                            lcol.view_seq()[k],
                            rcol.view_seq()[k],
                            col.view_seq()[k],
                        ));
                    }
                }
                Ok(col)
            },
            PhysicalExprs::MathExpr(me) => {
                let lcol = match me.l.evaluate(batch) {
                    Ok(col) => col,
                    Err(e) => {
                        proof {
                            let w = choose|w: int|
                                0 <= w < batch.nrows() && me.l.eval_errs(*batch, w);
                            assert(self.eval_errs(*batch, w));
                        }
                        return Err(e);
                    },
                };
                let rcol = match me.r.evaluate(batch) {
                    Ok(col) => col,
                    Err(e) => {
                        proof {
                            let w = choose|w: int|
                                0 <= w < batch.nrows() && me.r.eval_errs(*batch, w);
                            assert(self.eval_errs(*batch, w));
                        }
                        return Err(e);
                    },
                };
                let mut values: Vec<Value> = Vec::new();
                let mut i: usize = 0;
                while i < n
                    invariant
                        *self == PhysicalExprs::MathExpr(*me),
                        batch.wf(),
                        n as nat == batch.nrows(),
                        lcol.view_seq().len() == n as nat,
                        rcol.view_seq().len() == n as nat,
                        lcol.wf(),
                        rcol.wf(),
                        forall|k: int|
                            0 <= k < n ==> me.l.eval_ok(*batch, k, #[trigger] lcol.view_seq()[k]),
                        forall|k: int|
                            0 <= k < n ==> me.r.eval_ok(*batch, k, #[trigger] rcol.view_seq()[k]),
                        i <= n,
                        values@.len() == i,
                        forall|k: int|
                            0 <= k < i ==> apply_math_op(
                                me.op,
                                lcol.view_seq()[k],
                                rcol.view_seq()[k],
                                #[trigger] values@[k],
                            ) && values@[k].wf(),
                    decreases n - i,
                {
                    match eval_math_op(&me.op, lcol.get_value(&i), rcol.get_value(&i)) {
                        Ok(v) => {
                            values.push(v);
                        },
                        Err(e) => {
                            proof {
                                let lv = lcol.view_seq()[i as int];
                                let rv = rcol.view_seq()[i as int];
                                assert(me.l.eval_ok(*batch, i as int, lv) && me.r.eval_ok(
                                    *batch,
                                    i as int,
                                    rv,
                                ) && !math_op_defined(me.op, lv, rv));
                                assert(self.eval_errs(*batch, i as int));
                            }
                            return Err(e);
                        },
                    }
                    i = i + 1;
                }
                let col = Vectors::ColumnVector(
                    ColumnVector { datatype: DataType::Number, values },
                );
                proof {
                    assert forall|k: int| 0 <= k < batch.nrows() implies self.eval_ok(
                        *batch,
                        k,
                        #[trigger] col.view_seq()[k],
                    ) by {
                        assert(apply_math_op(
                            me.op,
                            lcol.view_seq()[k],
                            rcol.view_seq()[k],
                            col.view_seq()[k],
                        ));
                    }
                    assert forall|k: int| 0 <= k < col.view_seq().len() implies (
                    #[trigger] col.view_seq()[k]).wf() && col.view_seq()[k].fits_type(
                        col.dtype(),
                    ) by {
                        assert(apply_math_op(
                            me.op,
                            lcol.view_seq()[k],
                            rcol.view_seq()[k],
                            col.view_seq()[k],
                        ));
                    }
                }
                Ok(col)
            },
        }
    }
}

} // verus!
