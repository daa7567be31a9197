use vstd::prelude::*;

use crate::dates::{date_render, Date};
use crate::error::ZakuError;
use crate::numeric::{dec_render, Decimal};
use crate::operators::{BooleanOp, MathOp};
use crate::physical_expr::{BooleanExpr, MathExpr, PhysicalExprs};
use crate::schema::{first_match, Field};
use crate::strutil::str_eq;
use crate::types::{DataType, Value};

verus! {

/// A column reference by name.
#[derive(Debug)]
pub struct Column {
    pub name: String,
}

impl Column {
    pub fn new(name: String) -> (r: Column)
        ensures
            r.name == name,
    {
        Column { name }
    }

    pub fn name(&self) -> (r: &String)
        ensures
            r == &self.name,
    {
        &self.name
    }
}

/// An expression under an output name.
#[derive(Debug)]
pub struct AliasExpr {
    pub expr: Box<LogicalExprs>,
    pub alias: String,
}

impl AliasExpr {
    pub fn new(expr: LogicalExprs, alias: String) -> (r: AliasExpr)
        ensures
            r.expr == expr,
            r.alias == alias,
    {
        AliasExpr { expr: Box::new(expr), alias }
    }

    pub fn alias(&self) -> (r: &String)
        ensures
            r == &self.alias,
    {
        &self.alias
    }

    pub fn expr(&self) -> (r: &LogicalExprs)
        ensures
            r == &*self.expr,
    {
        &self.expr
    }
}

/// The aggregate functions, each over an inner expression.
#[derive(Debug)]
pub enum AggregateExprs {
    Count(Box<LogicalExprs>),
    Sum(Box<LogicalExprs>),
    Avg(Box<LogicalExprs>),
    Min(Box<LogicalExprs>),
    Max(Box<LogicalExprs>),
}

/// A typed scalar expression against a schema.
#[derive(Debug)]
pub enum LogicalExprs {
    Column(Column),
    ColumnIndex(usize),
    LiteralText(String),
    LiteralBoolean(bool),
    LiteralNumber(Decimal),
    LiteralDate(Date),
    BinaryExpr(BinaryExprs),
    AggregateExpr(AggregateExprs),
    AliasExpr(AliasExpr),
}

/// A binary operation: one of the comparison or arithmetic operators over
/// two logical expressions.
#[derive(Debug)]
pub enum BinaryExprs {
    Boolean(Box<LogicalExprs>, BooleanOp, Box<LogicalExprs>),
    Math(Box<LogicalExprs>, MathOp, Box<LogicalExprs>),
}

impl BinaryExprs {
    pub open spec fn left(self) -> LogicalExprs {
        match self {
            BinaryExprs::Boolean(l, _, _) => *l,
            BinaryExprs::Math(l, _, _) => *l,
        }
    }

    pub open spec fn right(self) -> LogicalExprs {
        match self {
            BinaryExprs::Boolean(_, _, r) => *r,
            BinaryExprs::Math(_, _, r) => *r,
        }
    }

    pub fn get_l(&self) -> (r: &LogicalExprs)
        ensures
            *r == self.left(),
    {
        match self {
            BinaryExprs::Boolean(l, _, _) => l,
            BinaryExprs::Math(l, _, _) => l,
        }
    }

    pub fn get_r(&self) -> (r: &LogicalExprs)
        ensures
            *r == self.right(),
    {
        match self {
            BinaryExprs::Boolean(_, _, r) => r,
            BinaryExprs::Math(_, _, r) => r,
        }
    }
}

// ---------------------------------------------------------------------------
// Spec model: field names and types an expression resolves to
// ---------------------------------------------------------------------------
/// The lower-case resolution name of a comparison operator.
pub open spec fn bool_op_name(op: BooleanOp) -> Seq<char> {
    match op {
        BooleanOp::And => seq!['a', 'n', 'd'],
        BooleanOp::Or => seq!['o', 'r'],
        BooleanOp::Eq => seq!['e', 'q'],
        BooleanOp::Neq => seq!['n', 'e', 'q'],
        BooleanOp::Gt => seq!['g', 't'],
        BooleanOp::Gte => seq!['g', 't', 'e'],
        BooleanOp::Lt => seq!['l', 't'],
        BooleanOp::Lte => seq!['l', 't', 'e'],
    }
}

/// The lower-case resolution name of an arithmetic operator.
pub open spec fn math_op_name(op: MathOp) -> Seq<char> {
    match op {
        MathOp::Add => seq!['a', 'd', 'd'],
        MathOp::Sub => seq!['s', 'u', 'b'],
        MathOp::Mul => seq!['m', 'u', 'l'],
        MathOp::Div => seq!['d', 'i', 'v'],
        MathOp::Mod => seq!['m', 'o', 'd'],
    }
}

impl AggregateExprs {
    /// The inner expression the aggregate folds over.
    pub open spec fn inner(self) -> LogicalExprs {
        match self {
            AggregateExprs::Count(e) => *e,
            AggregateExprs::Sum(e) => *e,
            AggregateExprs::Avg(e) => *e,
            AggregateExprs::Min(e) => *e,
            AggregateExprs::Max(e) => *e,
        }
    }

    /// The field an aggregate produces: `count`, `sum` and `avg` are always
    /// numbers; `min` and `max` keep the inner expression's type.
    pub open spec fn agg_field_spec(self, fields: Seq<Field>) -> Option<(Seq<char>, DataType)>
        decreases self,
    {
        match self {
            AggregateExprs::Count(_) => Some(
                (seq!['c', 'o', 'u', 'n', 't'], DataType::Number),
            ),
            AggregateExprs::Sum(_) => Some((seq!['s', 'u', 'm'], DataType::Number)),
            AggregateExprs::Avg(_) => Some((seq!['a', 'v', 'g'], DataType::Number)),
            AggregateExprs::Min(e) => match e.to_field_spec(fields) {
                Some(f) => Some((seq!['m', 'i', 'n'], f.1)),
                None => None,
            },
            AggregateExprs::Max(e) => match e.to_field_spec(fields) {
                Some(f) => Some((seq!['m', 'a', 'x'], f.1)),
                None => None,
            },
        }
    }
}

impl LogicalExprs {
    /// The name and type of the field this expression produces against the
    /// given input fields, or nothing where it does not resolve.
    pub open spec fn to_field_spec(self, fields: Seq<Field>) -> Option<(Seq<char>, DataType)>
        decreases self,
    {
        match self {
            LogicalExprs::Column(c) => match first_match(fields, c.name@) {
                Some(i) => Some((fields[i].name@, fields[i].datatype)),
                None => None,
            },
            LogicalExprs::ColumnIndex(i) => if (i as int) < fields.len() {
                Some((fields[i as int].name@, fields[i as int].datatype))
            } else {
                None
            },
            LogicalExprs::LiteralText(s) => Some((s@, DataType::Text)),
            LogicalExprs::LiteralBoolean(b) => Some(
                (
                    if b {
                        seq!['t', 'r', 'u', 'e']
                    } else {
                        seq!['f', 'a', 'l', 's', 'e']
                    },
                    DataType::Boolean,
                ),
            ),
            LogicalExprs::LiteralNumber(d) => Some(
                (dec_render(d.neg, d.digits@, d.scale as int), DataType::Number),
            ),
            LogicalExprs::LiteralDate(d) => Some((date_render(d), DataType::Date)),
            LogicalExprs::BinaryExpr(be) => match be {
                BinaryExprs::Boolean(l, op, r) => match (
                    l.to_field_spec(fields),
                    r.to_field_spec(fields),
                ) {
                    (Some(_), Some(_)) => Some((bool_op_name(op), DataType::Boolean)),
                    _ => None,
                },
                BinaryExprs::Math(l, op, r) => match (
                    l.to_field_spec(fields),
                    r.to_field_spec(fields),
                ) {
                    (Some(lf), Some(rf)) => if lf.1 == DataType::Number && rf.1
                        == DataType::Number {
                        Some((math_op_name(op), DataType::Number))
                    } else {
                        None
                    },
                    _ => None,
                },
            },
            LogicalExprs::AggregateExpr(a) => a.agg_field_spec(fields),
            LogicalExprs::AliasExpr(al) => match al.expr.to_field_spec(fields) {
                Some(f) => Some((al.alias@, f.1)),
                None => None,
            },
        }
    }

    /// Every aggregate nested anywhere in the expression, left to right.
    pub open spec fn aggregates_spec(self) -> Seq<AggregateExprs>
        decreases self,
    {
        match self {
            LogicalExprs::AggregateExpr(a) => seq![a],
            LogicalExprs::AliasExpr(al) => al.expr.aggregates_spec(),
            LogicalExprs::BinaryExpr(be) => match be {
                BinaryExprs::Boolean(l, _, r) => l.aggregates_spec() + r.aggregates_spec(),
                BinaryExprs::Math(l, _, r) => l.aggregates_spec() + r.aggregates_spec(),
            },
            _ => Seq::empty(),
        }
    }

    /// Whether any aggregate occurs in the expression.
    pub open spec fn has_aggregate(self) -> bool {
        self.aggregates_spec().len() > 0
    }

    /// The vectorized expression this resolves to: columns become positions,
    /// an alias evaluates its body, and an aggregate evaluates its input.
    pub open spec fn to_physical_spec(self, fields: Seq<Field>) -> Option<PhysicalExprs>
        decreases self,
    {
        match self {
            LogicalExprs::Column(c) => match first_match(fields, c.name@) {
                Some(i) => Some(PhysicalExprs::Column(i as usize)),
                None => None,
            },
            LogicalExprs::ColumnIndex(i) => Some(PhysicalExprs::Column(i)),
            LogicalExprs::LiteralText(s) => Some(PhysicalExprs::LiteralText(s)),
            LogicalExprs::LiteralBoolean(b) => Some(PhysicalExprs::LiteralBoolean(b)),
            LogicalExprs::LiteralNumber(d) => Some(PhysicalExprs::LiteralNumber(d)),
            LogicalExprs::LiteralDate(d) => Some(PhysicalExprs::LiteralDate(d)),
            LogicalExprs::BinaryExpr(be) => match be {
                BinaryExprs::Boolean(l, op, r) => match (
                    l.to_field_spec(fields),
                    r.to_field_spec(fields),
                ) {
                    (Some(lf), Some(rf)) => if lf.1 == rf.1 {
                        match (l.to_physical_spec(fields), r.to_physical_spec(fields)) {
                            (Some(lp), Some(rp)) => Some(
                                PhysicalExprs::BooleanExpr(
                                    BooleanExpr { l: Box::new(lp), op, r: Box::new(rp) },
                                ),
                            ),
                            _ => None,
                        }
                    } else {
                        None
                    },
                    _ => None,
                },
                BinaryExprs::Math(l, op, r) => match (
                    l.to_physical_spec(fields),
                    r.to_physical_spec(fields),
                ) {
                    (Some(lp), Some(rp)) => Some(
                        PhysicalExprs::MathExpr(MathExpr { l: Box::new(lp), op, r: Box::new(rp) }),
                    ),
                    _ => None,
                },
            },
            LogicalExprs::AggregateExpr(a) => a.inner().to_physical_spec(fields),
            LogicalExprs::AliasExpr(al) => al.expr.to_physical_spec(fields),
        }
    }

    /// Structural equality of two expressions, string payloads compared by
    /// their characters and numbers by sign, digits and scale.
    pub open spec fn same_expr(self, other: LogicalExprs) -> bool
        decreases self,
    {
        match (self, other) {
            (LogicalExprs::Column(a), LogicalExprs::Column(b)) => a.name@ == b.name@,
            (LogicalExprs::ColumnIndex(a), LogicalExprs::ColumnIndex(b)) => a == b,
            (LogicalExprs::LiteralText(a), LogicalExprs::LiteralText(b)) => a@ == b@,
            (LogicalExprs::LiteralBoolean(a), LogicalExprs::LiteralBoolean(b)) => a == b,
            (LogicalExprs::LiteralNumber(a), LogicalExprs::LiteralNumber(b)) => a.neg == b.neg
                && a.digits@ == b.digits@ && a.scale == b.scale,
            (LogicalExprs::LiteralDate(a), LogicalExprs::LiteralDate(b)) => a == b,
            (LogicalExprs::BinaryExpr(a), LogicalExprs::BinaryExpr(b)) => match (a, b) {
                (BinaryExprs::Boolean(al, aop, ar), BinaryExprs::Boolean(bl, bop, br)) => aop
                    == bop && al.same_expr(*bl) && ar.same_expr(*br),
                (BinaryExprs::Math(al, aop, ar), BinaryExprs::Math(bl, bop, br)) => aop == bop
                    && al.same_expr(*bl) && ar.same_expr(*br),
                _ => false,
            },
            (LogicalExprs::AggregateExpr(a), LogicalExprs::AggregateExpr(b)) => same_aggregate(
                a,
                b,
            ),
            (LogicalExprs::AliasExpr(a), LogicalExprs::AliasExpr(b)) => a.alias@ == b.alias@
                && a.expr.same_expr(*b.expr),
            _ => false,
        }
    }
}

/// Structural equality of two aggregates: the same kind over equal inners.
pub open spec fn same_aggregate(a: AggregateExprs, b: AggregateExprs) -> bool
    decreases a,
{
    match (a, b) {
        (AggregateExprs::Count(x), AggregateExprs::Count(y)) => x.same_expr(*y),
        (AggregateExprs::Sum(x), AggregateExprs::Sum(y)) => x.same_expr(*y),
        (AggregateExprs::Avg(x), AggregateExprs::Avg(y)) => x.same_expr(*y),
        (AggregateExprs::Min(x), AggregateExprs::Min(y)) => x.same_expr(*y),
        (AggregateExprs::Max(x), AggregateExprs::Max(y)) => x.same_expr(*y),
        _ => false,
    }
}


/// The resolution name of a comparison operator, as a string.
pub fn bool_op_name_string(op: &BooleanOp) -> (r: String)
    ensures
        r@ == bool_op_name(*op),
{
    let mut s = String::new();
    match op {
        BooleanOp::And => {
            crate::strutil::push_char(&mut s, 'a');
            crate::strutil::push_char(&mut s, 'n');
            crate::strutil::push_char(&mut s, 'd');
        },
        BooleanOp::Or => {
            crate::strutil::push_char(&mut s, 'o');
            crate::strutil::push_char(&mut s, 'r');
        },
        BooleanOp::Eq => {
            crate::strutil::push_char(&mut s, 'e');
            crate::strutil::push_char(&mut s, 'q');
        },
        BooleanOp::Neq => {
            crate::strutil::push_char(&mut s, 'n');
            crate::strutil::push_char(&mut s, 'e');
            crate::strutil::push_char(&mut s, 'q');
        },
        BooleanOp::Gt => {
            crate::strutil::push_char(&mut s, 'g');
            crate::strutil::push_char(&mut s, 't');
        },
        BooleanOp::Gte => {
            crate::strutil::push_char(&mut s, 'g');
            crate::strutil::push_char(&mut s, 't');
            crate::strutil::push_char(&mut s, 'e');
        },
        BooleanOp::Lt => {
            crate::strutil::push_char(&mut s, 'l');
            crate::strutil::push_char(&mut s, 't');
        },
        BooleanOp::Lte => {
            crate::strutil::push_char(&mut s, 'l');
            crate::strutil::push_char(&mut s, 't');
            crate::strutil::push_char(&mut s, 'e');
        },
    }
    proof {
        assert(s@ =~= bool_op_name(*op));
    }
    s
}

/// The resolution name of an arithmetic operator, as a string.
pub fn math_op_name_string(op: &MathOp) -> (r: String)
    ensures
        r@ == math_op_name(*op),
{
    let mut s = String::new();
    match op {
        MathOp::Add => {
            crate::strutil::push_char(&mut s, 'a');
            crate::strutil::push_char(&mut s, 'd');
            crate::strutil::push_char(&mut s, 'd');
        },
        MathOp::Sub => {
            crate::strutil::push_char(&mut s, 's');
            crate::strutil::push_char(&mut s, 'u');
            crate::strutil::push_char(&mut s, 'b');
        },
        MathOp::Mul => {
            crate::strutil::push_char(&mut s, 'm');
            crate::strutil::push_char(&mut s, 'u');
            crate::strutil::push_char(&mut s, 'l');
        },
        MathOp::Div => {
            crate::strutil::push_char(&mut s, 'd');
            crate::strutil::push_char(&mut s, 'i');
            crate::strutil::push_char(&mut s, 'v');
        },
        MathOp::Mod => {
            crate::strutil::push_char(&mut s, 'm');
            crate::strutil::push_char(&mut s, 'o');
            crate::strutil::push_char(&mut s, 'd');
        },
    }
    proof {
        assert(s@ =~= math_op_name(*op));
    }
    s
}

impl LogicalExprs {
    /// Every literal payload is well formed.
    pub open spec fn wf_lexpr(self) -> bool
        decreases self,
    {
        match self {
            LogicalExprs::LiteralNumber(d) => d.wf(),
            LogicalExprs::LiteralDate(d) => d.wf(),
            LogicalExprs::BinaryExpr(be) => be.left().wf_lexpr() && be.right().wf_lexpr(),
            LogicalExprs::AggregateExpr(a) => a.inner().wf_lexpr(),
            LogicalExprs::AliasExpr(al) => al.expr.wf_lexpr(),
            _ => true,
        }
    }

    /// Copies the expression tree; the copy equals the original.
    pub fn duplicate(&self) -> (r: LogicalExprs)
        ensures
            r == *self,
        decreases self,
    {
        match self {
            LogicalExprs::Column(c) => LogicalExprs::Column(Column { name: c.name.clone() }),
            LogicalExprs::ColumnIndex(i) => LogicalExprs::ColumnIndex(*i),
            LogicalExprs::LiteralText(s) => LogicalExprs::LiteralText(s.clone()),
            LogicalExprs::LiteralBoolean(b) => LogicalExprs::LiteralBoolean(*b),
            LogicalExprs::LiteralNumber(d) => LogicalExprs::LiteralNumber(d.duplicate()),
            LogicalExprs::LiteralDate(d) => LogicalExprs::LiteralDate(*d),
            LogicalExprs::BinaryExpr(be) => LogicalExprs::BinaryExpr(
                match be {
                    BinaryExprs::Boolean(l, op, r) => BinaryExprs::Boolean(
                        Box::new(l.duplicate()),
                        *op,
                        Box::new(r.duplicate()),
                    ),
                    BinaryExprs::Math(l, op, r) => BinaryExprs::Math(
                        Box::new(l.duplicate()),
                        *op,
                        Box::new(r.duplicate()),
                    ),
                },
            ),
            LogicalExprs::AggregateExpr(a) => LogicalExprs::AggregateExpr(a.duplicate()),
            LogicalExprs::AliasExpr(al) => LogicalExprs::AliasExpr(
                AliasExpr { expr: Box::new(al.expr.duplicate()), alias: al.alias.clone() },
            ),
        }
    }

    /// Resolves the field this expression produces against a schema.
    pub fn to_field(&self, input: &crate::schema::Schema) -> (r: Result<Field, ZakuError>)
        requires
            self.wf_lexpr(),
        ensures
            match r {
                Ok(f) => self.to_field_spec(input.fields@) == Some((f.name@, f.datatype)),
                Err(e) => self.to_field_spec(input.fields@) is None && e is ResolutionError,
            },
        decreases self,
    {
        match self {
            LogicalExprs::Column(c) => {
                match input.get_field(&c.name) {
                    Ok(f) => Ok(f.duplicate()),
                    Err(_) => Err(
                        ZakuError::ResolutionError(String::from_str("unknown column")),
                    ),
                }
            },
            LogicalExprs::ColumnIndex(i) => {
                match input.get_field_by_index(i) {
                    Ok(f) => Ok(f.duplicate()),
                    Err(_) => Err(
                        ZakuError::ResolutionError(String::from_str("column index out of range")),
                    ),
                }
            },
            LogicalExprs::LiteralText(s) => Ok(Field::new(s.clone(), DataType::Text)),
            LogicalExprs::LiteralBoolean(b) => {
                let name = Value::Boolean(*b).render();
                Ok(Field::new(name, DataType::Boolean))
            },
            LogicalExprs::LiteralNumber(d) => {
                let name = d.render();
                Ok(Field::new(name, DataType::Number))
            },
            LogicalExprs::LiteralDate(d) => {
                let name = d.render();
                Ok(Field::new(name, DataType::Date))
            },
            LogicalExprs::BinaryExpr(be) => {
                match be {
                    BinaryExprs::Boolean(l, op, r) => {
                        match (l.to_field(input), r.to_field(input)) {
                            (Ok(_), Ok(_)) => Ok(
                                Field::new(bool_op_name_string(op), DataType::Boolean),
                            ),
                            (Err(e), _) => Err(e),
                            (_, Err(e)) => Err(e),
                        }
                    },
                    BinaryExprs::Math(l, op, r) => {
                        match (l.to_field(input), r.to_field(input)) {
                            (Ok(lf), Ok(rf)) => {
                                if matches!(lf.datatype, DataType::Number) && matches!(
                                    rf.datatype,
                                    DataType::Number,
                                ) {
                                    Ok(Field::new(math_op_name_string(op), DataType::Number))
                                } else {
                                    Err(
                                        ZakuError::ResolutionError(
                                            String::from_str("arithmetic expects numbers"),
                                        ),
                                    )
                                }
                            },
                            (Err(e), _) => Err(e),
                            (_, Err(e)) => Err(e),
                        }
                    },
                }
            },
            LogicalExprs::AggregateExpr(a) => a.to_field(input),
            LogicalExprs::AliasExpr(al) => {
                match al.expr.to_field(input) {
                    Ok(f) => Ok(Field::new(al.alias.clone(), f.datatype)),
                    Err(e) => Err(e),
                }
            },
        }
    }

    /// Extracts every nested aggregate, left to right.
    pub fn as_aggregate(&self) -> (r: Vec<AggregateExprs>)
        ensures
            r@ == self.aggregates_spec(),
        decreases self,
    {
        match self {
            LogicalExprs::AggregateExpr(a) => {
                let mut out: Vec<AggregateExprs> = Vec::new();
                out.push(a.duplicate());
                proof {
                    assert(out@ =~= self.aggregates_spec());
                }
                out
            },
            LogicalExprs::AliasExpr(al) => al.expr.as_aggregate(),
            LogicalExprs::BinaryExpr(be) => {
                let (l, r) = match be {
                    BinaryExprs::Boolean(l, _, r) => (l, r),
                    BinaryExprs::Math(l, _, r) => (l, r),
                };
                let mut out = l.as_aggregate();
                let mut rs = r.as_aggregate();
                let ghost lpart = out@;
                let mut q: usize = 0;
                while q < rs.len()
                    invariant
                        q <= rs@.len(),
                        out@ == lpart + rs@.take(q as int),
                    decreases rs@.len() - q,
                {
                    out.push(rs[q].duplicate());
                    proof {
                        assert(rs@.take(q + 1) =~= rs@.take(q as int).push(rs@[q as int]));
                        assert(lpart + rs@.take(q + 1) =~= (lpart + rs@.take(q as int)).push(
                            rs@[q as int],
                        ));
                    }
                    q = q + 1;
                }
                proof {
                    assert(rs@.take(rs@.len() as int) =~= rs@);
                }
                out
            },
            _ => {
                let out: Vec<AggregateExprs> = Vec::new();
                proof {
                    assert(out@ =~= self.aggregates_spec());
                }
                out
            },
        }
    }

    /// Lowers the expression into its vectorized form against a schema.
    #[verifier::rlimit(60)]
    pub fn to_physical_expr(&self, input: &crate::schema::Schema) -> (r: Result<
        PhysicalExprs,
        ZakuError,
    >)
        requires
            self.wf_lexpr(),
        ensures
            match r {
                Ok(p) => self.to_physical_spec(input.fields@) == Some(p) && p.wf_expr() && (
                self.to_field_spec(input.fields@) is Some && !self.has_aggregate()
                    ==> p.bounds_ok(input.fields@.len() as int) && p.out_dtype(input.fields@)
                    == self.to_field_spec(input.fields@)->Some_0.1),
                Err(e) => e is ResolutionError && self.to_physical_spec(
                    input.fields@,
                ) is None,
            },
        decreases self,
    {
        match self {
            LogicalExprs::Column(c) => {
                match input.get_index(&c.name) {
                    Ok(i) => {
                        proof {
                            crate::schema::lemma_first_match(input.fields@, c.name@);
                        }
                        Ok(PhysicalExprs::Column(i))
                    },
                    Err(_) => Err(ZakuError::ResolutionError(String::from_str("unknown column"))),
                }
            },
            LogicalExprs::ColumnIndex(i) => Ok(PhysicalExprs::Column(*i)),
            LogicalExprs::LiteralText(s) => Ok(PhysicalExprs::LiteralText(s.clone())),
            LogicalExprs::LiteralBoolean(b) => Ok(PhysicalExprs::LiteralBoolean(*b)),
            LogicalExprs::LiteralNumber(d) => Ok(PhysicalExprs::LiteralNumber(d.duplicate())),
            LogicalExprs::LiteralDate(d) => Ok(PhysicalExprs::LiteralDate(*d)),
            LogicalExprs::BinaryExpr(be) => {
                match be {
                    BinaryExprs::Boolean(l, op, r) => {
                        let lf = match l.to_field(input) {
                            Ok(f) => f,
                            Err(_) => {
                                return Err(
                                    ZakuError::ResolutionError(
                                        String::from_str("cannot resolve comparison operand"),
                                    ),
                                );
                            },
                        };
                        let rf = match r.to_field(input) {
                            Ok(f) => f,
                            Err(_) => {
                                return Err(
                                    ZakuError::ResolutionError(
                                        String::from_str("cannot resolve comparison operand"),
                                    ),
                                );
                            },
                        };
                        if !crate::types::datatype_eq(&lf.datatype, &rf.datatype) {
                            return Err(
                                ZakuError::ResolutionError(
                                    String::from_str("datatypes do not match"),
                                ),
                            );
                        }
                        let lp = match l.to_physical_expr(input) {
                            Ok(p) => p,
                            Err(e) => {
                                return Err(e);
                            },
                        };
                        let rp = match r.to_physical_expr(input) {
                            Ok(p) => p,
                            Err(e) => {
                                return Err(e);
                            },
                        };
                        Ok(
                            PhysicalExprs::BooleanExpr(
                                BooleanExpr { l: Box::new(lp), op: *op, r: Box::new(rp) },
                            ),
                        )
                    },
                    BinaryExprs::Math(l, op, r) => {
                        let lp = match l.to_physical_expr(input) {
                            Ok(p) => p,
                            Err(e) => {
                                return Err(e);
                            },
                        };
                        let rp = match r.to_physical_expr(input) {
                            Ok(p) => p,
                            Err(e) => {
                                return Err(e);
                            },
                        };
                        Ok(
                            PhysicalExprs::MathExpr(
                                MathExpr { l: Box::new(lp), op: *op, r: Box::new(rp) },
                            ),
                        )
                    },
                }
            },
            LogicalExprs::AggregateExpr(a) => {
                let inner = a.input();
                inner.to_physical_expr(input)
            },
            LogicalExprs::AliasExpr(al) => al.expr.to_physical_expr(input),
        }
    }

    /// Decides structural equality of two expressions.
    pub fn same_expr_exec(&self, other: &LogicalExprs) -> (r: bool)
        ensures
            r == self.same_expr(*other),
        decreases self,
    {
        match (self, other) {
            (LogicalExprs::Column(a), LogicalExprs::Column(b)) => str_eq(
                a.name.as_str(),
                b.name.as_str(),
            ),
            (LogicalExprs::ColumnIndex(a), LogicalExprs::ColumnIndex(b)) => *a == *b,
            (LogicalExprs::LiteralText(a), LogicalExprs::LiteralText(b)) => str_eq(
                a.as_str(),
                b.as_str(),
            ),
            (LogicalExprs::LiteralBoolean(a), LogicalExprs::LiteralBoolean(b)) => *a == *b,
            (LogicalExprs::LiteralNumber(a), LogicalExprs::LiteralNumber(b)) => a.neg == b.neg
                && str_eq(a.digits.as_str(), b.digits.as_str()) && a.scale == b.scale,
            (LogicalExprs::LiteralDate(a), LogicalExprs::LiteralDate(b)) => a.year == b.year
                && a.month == b.month && a.day == b.day,
            (LogicalExprs::BinaryExpr(a), LogicalExprs::BinaryExpr(b)) => {
                match (a, b) {
                    (BinaryExprs::Boolean(al, aop, ar), BinaryExprs::Boolean(bl, bop, br)) => *aop
                        == *bop && al.same_expr_exec(bl) && ar.same_expr_exec(br),
                    (BinaryExprs::Math(al, aop, ar), BinaryExprs::Math(bl, bop, br)) => *aop == *bop
                        && al.same_expr_exec(bl) && ar.same_expr_exec(br),
                    _ => false,
                }
            },
            (LogicalExprs::AggregateExpr(a), LogicalExprs::AggregateExpr(b)) => a.same_agg_exec(b),
            (LogicalExprs::AliasExpr(a), LogicalExprs::AliasExpr(b)) => str_eq(
                a.alias.as_str(),
                b.alias.as_str(),
            ) && a.expr.same_expr_exec(&b.expr),
            _ => false,
        }
    }
}

impl AggregateExprs {
    /// Builds the aggregate named by a case-insensitive function name.
    pub fn from_str(func: &str, func_arg: LogicalExprs) -> (r: Result<AggregateExprs, ZakuError>)
        ensures
            match r {
                Ok(a) => a.inner() == func_arg,
                Err(e) => e is ParseError,
            },
    {
        let lowered = crate::sql_tokens::ascii_lower(func);
        if str_eq(lowered.as_str(), "count") {
            Ok(AggregateExprs::Count(Box::new(func_arg)))
        } else if str_eq(lowered.as_str(), "sum") {
            Ok(AggregateExprs::Sum(Box::new(func_arg)))
        } else if str_eq(lowered.as_str(), "avg") {
            Ok(AggregateExprs::Avg(Box::new(func_arg)))
        } else if str_eq(lowered.as_str(), "min") {
            Ok(AggregateExprs::Min(Box::new(func_arg)))
        } else if str_eq(lowered.as_str(), "max") {
            Ok(AggregateExprs::Max(Box::new(func_arg)))
        } else {
            Err(ZakuError::ParseError(String::from_str("unknown aggregate function")))
        }
    }

    /// Copies the aggregate; the copy equals the original.
    pub fn duplicate(&self) -> (r: AggregateExprs)
        ensures
            r == *self,
        decreases self,
    {
        match self {
            AggregateExprs::Count(e) => AggregateExprs::Count(Box::new(e.duplicate())),
            AggregateExprs::Sum(e) => AggregateExprs::Sum(Box::new(e.duplicate())),
            AggregateExprs::Avg(e) => AggregateExprs::Avg(Box::new(e.duplicate())),
            AggregateExprs::Min(e) => AggregateExprs::Min(Box::new(e.duplicate())),
            AggregateExprs::Max(e) => AggregateExprs::Max(Box::new(e.duplicate())),
        }
    }

    /// The inner expression the aggregate folds over.
    pub fn input(&self) -> (r: &LogicalExprs)
        ensures
            *r == self.inner(),
    {
        match self {
            AggregateExprs::Count(e) => e,
            AggregateExprs::Sum(e) => e,
            AggregateExprs::Avg(e) => e,
            AggregateExprs::Min(e) => e,
            AggregateExprs::Max(e) => e,
        }
    }

    /// The field the aggregate produces.
    pub fn to_field(&self, input: &crate::schema::Schema) -> (r: Result<Field, ZakuError>)
        requires
            self.wf_agg(),
        ensures
            match r {
                Ok(f) => self.agg_field_spec(input.fields@) == Some((f.name@, f.datatype)),
                Err(e) => self.agg_field_spec(input.fields@) is None && e is ResolutionError,
            },
        decreases self,
    {
        match self {
            AggregateExprs::Count(_) => {
                let mut name = String::new();
                crate::strutil::push_char(&mut name, 'c');
                crate::strutil::push_char(&mut name, 'o');
                crate::strutil::push_char(&mut name, 'u');
                crate::strutil::push_char(&mut name, 'n');
                crate::strutil::push_char(&mut name, 't');
                proof {
                    assert(name@ =~= seq!['c', 'o', 'u', 'n', 't']);
                }
                Ok(Field::new(name, DataType::Number))
            },
            AggregateExprs::Sum(_) => {
                let mut name = String::new();
                crate::strutil::push_char(&mut name, 's');
                crate::strutil::push_char(&mut name, 'u');
                crate::strutil::push_char(&mut name, 'm');
                proof {
                    assert(name@ =~= seq!['s', 'u', 'm']);
                }
                Ok(Field::new(name, DataType::Number))
            },
            AggregateExprs::Avg(_) => {
                let mut name = String::new();
                crate::strutil::push_char(&mut name, 'a');
                crate::strutil::push_char(&mut name, 'v');
                crate::strutil::push_char(&mut name, 'g');
                proof {
                    assert(name@ =~= seq!['a', 'v', 'g']);
                }
                Ok(Field::new(name, DataType::Number))
            },
            AggregateExprs::Min(e) => {
                match e.to_field(input) {
                    Ok(f) => {
                        let mut name = String::new();
                        crate::strutil::push_char(&mut name, 'm');
                        crate::strutil::push_char(&mut name, 'i');
                        crate::strutil::push_char(&mut name, 'n');
                        proof {
                            assert(name@ =~= seq!['m', 'i', 'n']);
                        }
                        Ok(Field::new(name, f.datatype))
                    },
                    Err(e2) => Err(e2),
                }
            },
            AggregateExprs::Max(e) => {
                match e.to_field(input) {
                    Ok(f) => {
                        let mut name = String::new();
                        crate::strutil::push_char(&mut name, 'm');
                        crate::strutil::push_char(&mut name, 'a');
                        crate::strutil::push_char(&mut name, 'x');
                        proof {
                            assert(name@ =~= seq!['m', 'a', 'x']);
                        }
                        Ok(Field::new(name, f.datatype))
                    },
                    Err(e2) => Err(e2),
                }
            },
        }
    }

    /// Decides structural equality of two aggregates.
    pub fn same_agg_exec(&self, other: &AggregateExprs) -> (r: bool)
        ensures
            r == same_aggregate(*self, *other),
        decreases self,
    {
        match (self, other) {
            (AggregateExprs::Count(x), AggregateExprs::Count(y)) => x.same_expr_exec(y),
            (AggregateExprs::Sum(x), AggregateExprs::Sum(y)) => x.same_expr_exec(y),
            (AggregateExprs::Avg(x), AggregateExprs::Avg(y)) => x.same_expr_exec(y),
            (AggregateExprs::Min(x), AggregateExprs::Min(y)) => x.same_expr_exec(y),
            (AggregateExprs::Max(x), AggregateExprs::Max(y)) => x.same_expr_exec(y),
            _ => false,
        }
    }

    /// Whether the inner expression itself nests an aggregate.
    pub open spec fn wf_agg(self) -> bool {
        self.inner().wf_lexpr()
    }
}

impl BinaryExprs {
    /// Builds the binary node for one SQL operator.
    pub fn new(l: LogicalExprs, op: &crate::sql_tokens::BinOpToken, r: LogicalExprs) -> (res:
        BinaryExprs)
        ensures
            match op {
                crate::sql_tokens::BinOpToken::And => res == BinaryExprs::Boolean(
                    Box::new(l),
                    BooleanOp::And,
                    Box::new(r),
                ),
                crate::sql_tokens::BinOpToken::Or => res == BinaryExprs::Boolean(
                    Box::new(l),
                    BooleanOp::Or,
                    Box::new(r),
                ),
                crate::sql_tokens::BinOpToken::Eq => res == BinaryExprs::Boolean(
                    Box::new(l),
                    BooleanOp::Eq,
                    Box::new(r),
                ),
                crate::sql_tokens::BinOpToken::Neq => res == BinaryExprs::Boolean(
                    Box::new(l),
                    BooleanOp::Neq,
                    Box::new(r),
                ),
                crate::sql_tokens::BinOpToken::Gt => res == BinaryExprs::Boolean(
                    Box::new(l),
                    BooleanOp::Gt,
                    Box::new(r),
                ),
                crate::sql_tokens::BinOpToken::Gte => res == BinaryExprs::Boolean(
                    Box::new(l),
                    BooleanOp::Gte,
                    Box::new(r),
                ),
                crate::sql_tokens::BinOpToken::Lt => res == BinaryExprs::Boolean(
                    Box::new(l),
                    BooleanOp::Lt,
                    Box::new(r),
                ),
                crate::sql_tokens::BinOpToken::Lte => res == BinaryExprs::Boolean(
                    Box::new(l),
                    BooleanOp::Lte,
                    Box::new(r),
                ),
                crate::sql_tokens::BinOpToken::Add => res == BinaryExprs::Math(
                    Box::new(l),
                    MathOp::Add,
                    Box::new(r),
                ),
                crate::sql_tokens::BinOpToken::Sub => res == BinaryExprs::Math(
                    Box::new(l),
                    MathOp::Sub,
                    Box::new(r),
                ),
                crate::sql_tokens::BinOpToken::Mul => res == BinaryExprs::Math(
                    Box::new(l),
                    MathOp::Mul,
                    Box::new(r),
                ),
                crate::sql_tokens::BinOpToken::Div => res == BinaryExprs::Math(
                    Box::new(l),
                    MathOp::Div,
                    Box::new(r),
                ),
                crate::sql_tokens::BinOpToken::Mod => res == BinaryExprs::Math(
                    Box::new(l),
                    MathOp::Mod,
                    Box::new(r),
                ),
            },
    {
        match op {
            crate::sql_tokens::BinOpToken::And => BinaryExprs::Boolean(
                Box::new(l),
                BooleanOp::And,
                Box::new(r),
            ),
            crate::sql_tokens::BinOpToken::Or => BinaryExprs::Boolean(
                Box::new(l),
                BooleanOp::Or,
                Box::new(r),
            ),
            crate::sql_tokens::BinOpToken::Eq => BinaryExprs::Boolean(
                Box::new(l),
                BooleanOp::Eq,
                Box::new(r),
            ),
            crate::sql_tokens::BinOpToken::Neq => BinaryExprs::Boolean(
                Box::new(l),
                BooleanOp::Neq,
                Box::new(r),
            ),
            crate::sql_tokens::BinOpToken::Gt => BinaryExprs::Boolean(
                Box::new(l),
                BooleanOp::Gt,
                Box::new(r),
            ),
            crate::sql_tokens::BinOpToken::Gte => BinaryExprs::Boolean(
                Box::new(l),
                BooleanOp::Gte,
                Box::new(r),
            ),
            crate::sql_tokens::BinOpToken::Lt => BinaryExprs::Boolean(
                Box::new(l),
                BooleanOp::Lt,
                Box::new(r),
            ),
            crate::sql_tokens::BinOpToken::Lte => BinaryExprs::Boolean(
                Box::new(l),
                BooleanOp::Lte,
                Box::new(r),
            ),
            crate::sql_tokens::BinOpToken::Add => BinaryExprs::Math(
                Box::new(l),
                MathOp::Add,
                Box::new(r),
            ),
            crate::sql_tokens::BinOpToken::Sub => BinaryExprs::Math(
                Box::new(l),
                MathOp::Sub,
                Box::new(r),
            ),
            crate::sql_tokens::BinOpToken::Mul => BinaryExprs::Math(
                Box::new(l),
                MathOp::Mul,
                Box::new(r),
            ),
            crate::sql_tokens::BinOpToken::Div => BinaryExprs::Math(
                Box::new(l),
                MathOp::Div,
                Box::new(r),
            ),
            crate::sql_tokens::BinOpToken::Mod => BinaryExprs::Math(
                Box::new(l),
                MathOp::Mod,
                Box::new(r),
            ),
        }
    }
}


impl AggregateExprs {
    /// Lowers the aggregate into its physical form: the same kind over the
    /// vectorized inner expression.
    pub fn to_physical_aggregate(&self, input: &crate::schema::Schema) -> (r: Result<
        crate::accumulator::AggregateExpressions,
        ZakuError,
    >)
        requires
            self.wf_agg(),
        ensures
            match r {
                Ok(pa) => self.inner().to_physical_spec(input.fields@) == Some(pa.input_spec())
                    && pa.input_spec().wf_expr(),
                Err(e) => e is ResolutionError,
            },
    {
        let inner_phys = match self.input().to_physical_expr(input) {
            Ok(p) => p,
            Err(e) => {
                return Err(e);
            },
        };
        Ok(
            match self {
                AggregateExprs::Count(_) => crate::accumulator::AggregateExpressions::Count(
                    inner_phys,
                ),
                AggregateExprs::Sum(_) => crate::accumulator::AggregateExpressions::Sum(inner_phys),
                AggregateExprs::Avg(_) => crate::accumulator::AggregateExpressions::Avg(inner_phys),
                AggregateExprs::Min(_) => crate::accumulator::AggregateExpressions::Min(inner_phys),
                AggregateExprs::Max(_) => crate::accumulator::AggregateExpressions::Max(inner_phys),
            },
        )
    }
}


/// Renders a logical expression the way a plan listing shows it: column
/// references behind a hash, literals by their value, operators infix, and
/// aggregates under their SQL names.
pub fn display_logical_expr(e: &LogicalExprs) -> (r: String)
    decreases e,
{
    let mut out = String::new();
    match e {
        LogicalExprs::Column(c) => {
            crate::strutil::push_char(&mut out, '#');
            out.append(c.name.as_str());
        },
        LogicalExprs::ColumnIndex(i) => {
            crate::strutil::push_char(&mut out, '#');
            let ds = crate::numeric::u64_to_dec_digits(*i as u64);
            out.append(ds.as_str());
        },
        LogicalExprs::LiteralText(t) => {
            out.append(t.as_str());
        },
        LogicalExprs::LiteralBoolean(b) => {
            let t = Value::Boolean(*b).render();
            out.append(t.as_str());
        },
        LogicalExprs::LiteralNumber(d) => {
            let v = Value::Number(d.duplicate());
            if crate::test_utils::is_wf_value(&v) {
                let t = v.render();
                out.append(t.as_str());
            }
        },
        LogicalExprs::LiteralDate(d) => {
            if d.year <= 9999 && 1 <= d.month && d.month <= 12 && 1 <= d.day && d.day <= 31 {
                let t = d.render();
                out.append(t.as_str());
            }
        },
        LogicalExprs::BinaryExpr(be) => {
            let (l, r2) = match be {
                BinaryExprs::Boolean(l, _, r2) => (l, r2),
                BinaryExprs::Math(l, _, r2) => (l, r2),
            };
            let lt = display_logical_expr(l);
            out.append(lt.as_str());
            crate::strutil::push_char(&mut out, ' ');
            let ot = match be {
                BinaryExprs::Boolean(_, op, _) => crate::operators::BinaryOp::to_string(op),
                BinaryExprs::Math(_, op, _) => crate::operators::BinaryOp::to_string(op),
            };
            out.append(ot.as_str());
            crate::strutil::push_char(&mut out, ' ');
            let rt = display_logical_expr(r2);
            out.append(rt.as_str());
        },
        LogicalExprs::AggregateExpr(a) => {
            let t = display_aggregate(a);
            out.append(t.as_str());
        },
        LogicalExprs::AliasExpr(al) => {
            let inner = display_logical_expr(&al.expr);
            out.append(inner.as_str());
            out.append(" as ");
            out.append(al.alias.as_str());
        },
    }
    out
}

/// Renders an aggregate under its upper-case SQL name.
pub fn display_aggregate(a: &AggregateExprs) -> (r: String)
    decreases a,
{
    let mut out = String::new();
    match a {
        AggregateExprs::Count(e) => {
            out.append("COUNT(");
            let t = display_logical_expr(e);
            out.append(t.as_str());
            out.append(")");
        },
        AggregateExprs::Sum(e) => {
            out.append("SUM(");
            let t = display_logical_expr(e);
            out.append(t.as_str());
            out.append(")");
        },
        AggregateExprs::Avg(e) => {
            out.append("AVG(");
            let t = display_logical_expr(e);
            out.append(t.as_str());
            out.append(")");
        },
        AggregateExprs::Min(e) => {
            out.append("MIN(");
            let t = display_logical_expr(e);
            out.append(t.as_str());
            out.append(")");
        },
        AggregateExprs::Max(e) => {
            out.append("MAX(");
            let t = display_logical_expr(e);
            out.append(t.as_str());
            out.append(")");
        },
    }
    out
}

/// Anything that prints as an infix binary operation.
pub trait BinaryExpr {
    fn to_string(&self) -> String;
}

impl BinaryExpr for BinaryExprs {
    /// The operands around the operator's SQL spelling.
    fn to_string(&self) -> String {
        let mut out = String::new();
        match self {
            BinaryExprs::Boolean(l, op, r) => {
                let lt = display_logical_expr(l);
                out.append(lt.as_str());
                crate::strutil::push_char(&mut out, ' ');
                let ot = crate::operators::BinaryOp::to_string(op);
                out.append(ot.as_str());
                crate::strutil::push_char(&mut out, ' ');
                let rt = display_logical_expr(r);
                out.append(rt.as_str());
            },
            BinaryExprs::Math(l, op, r) => {
                let lt = display_logical_expr(l);
                out.append(lt.as_str());
                crate::strutil::push_char(&mut out, ' ');
                let ot = crate::operators::BinaryOp::to_string(op);
                out.append(ot.as_str());
                crate::strutil::push_char(&mut out, ' ');
                let rt = display_logical_expr(r);
                out.append(rt.as_str());
            },
        }
        out
    }
}

} // verus!
