use vstd::prelude::*;

use crate::accumulator::AggregateExpressions;
use crate::numeric::u64_to_dec_digits;
use crate::operators::{BooleanOp, MathOp};
use crate::physical_expr::PhysicalExprs;
use crate::physical_plan::PhysicalPlans;
use crate::strutil::push_char;

verus! {

/// Appends the SQL spelling of a comparison operator.
fn push_bool_op(out: &mut String, op: &BooleanOp) {
    match op {
        BooleanOp::And => {
            push_char(out, 'A');
            push_char(out, 'N');
            push_char(out, 'D');
        },
        BooleanOp::Or => {
            push_char(out, 'O');
            push_char(out, 'R');
        },
        BooleanOp::Eq => push_char(out, '='),
        BooleanOp::Neq => {
            push_char(out, '<');
            push_char(out, '>');
        },
        BooleanOp::Gt => push_char(out, '>'),
        BooleanOp::Gte => {
            push_char(out, '>');
            push_char(out, '=');
        },
        BooleanOp::Lt => push_char(out, '<'),
        BooleanOp::Lte => {
            push_char(out, '<');
            push_char(out, '=');
        },
    }
}

/// Appends the SQL spelling of an arithmetic operator.
fn push_math_op(out: &mut String, op: &MathOp) {
    match op {
        MathOp::Add => push_char(out, '+'),
        MathOp::Sub => push_char(out, '-'),
        MathOp::Mul => push_char(out, '*'),
        MathOp::Div => push_char(out, '/'),
        MathOp::Mod => push_char(out, '%'),
    }
}

/// Appends one physical expression, columns as `#<position>`.
pub fn push_physical_expr(out: &mut String, e: &PhysicalExprs)
    requires
        e.wf_expr(),
    decreases e,
{
    match e {
        PhysicalExprs::Column(i) => {
            push_char(out, '#');
            let ds = u64_to_dec_digits(*i as u64);
            out.append(ds.as_str());
        },
        PhysicalExprs::LiteralText(s) => {
            out.append(s.as_str());
        },
        PhysicalExprs::LiteralBoolean(b) => {
            let v = crate::types::Value::Boolean(*b);
            let t = v.render();
            out.append(t.as_str());
        },
        PhysicalExprs::LiteralNumber(d) => {
            let t = d.render();
            out.append(t.as_str());
        },
        PhysicalExprs::LiteralDate(d) => {
            let t = d.render();
            out.append(t.as_str());
        },
        PhysicalExprs::BooleanExpr(be) => {
            push_physical_expr(out, &be.l);
            push_char(out, ' ');
            push_bool_op(out, &be.op);
            push_char(out, ' ');
            push_physical_expr(out, &be.r);
        },
        PhysicalExprs::MathExpr(me) => {
            push_physical_expr(out, &me.l);
            push_char(out, ' ');
            push_math_op(out, &me.op);
            push_char(out, ' ');
            push_physical_expr(out, &me.r);
        },
    }
}

/// Appends an aggregate expression under its SQL name.
fn push_aggregate(out: &mut String, a: &AggregateExpressions)
    requires
        a.input_spec().wf_expr(),
{
    match a {
        AggregateExpressions::Sum(e) => {
            push_char(out, 's');
            push_char(out, 'u');
            push_char(out, 'm');
            push_char(out, '(');
            push_physical_expr(out, e);
            push_char(out, ')');
        },
        AggregateExpressions::Count(e) => {
            push_char(out, 'c');
            push_char(out, 'o');
            push_char(out, 'u');
            push_char(out, 'n');
            push_char(out, 't');
            push_char(out, '(');
            push_physical_expr(out, e);
            push_char(out, ')');
        },
        AggregateExpressions::Avg(e) => {
            push_char(out, 'a');
            push_char(out, 'v');
            push_char(out, 'g');
            push_char(out, '(');
            push_physical_expr(out, e);
            push_char(out, ')');
        },
        AggregateExpressions::Min(e) => {
            push_char(out, 'm');
            push_char(out, 'i');
            push_char(out, 'n');
            push_char(out, '(');
            push_physical_expr(out, e);
            push_char(out, ')');
        },
        AggregateExpressions::Max(e) => {
            push_char(out, 'm');
            push_char(out, 'a');
            push_char(out, 'x');
            push_char(out, '(');
            push_physical_expr(out, e);
            push_char(out, ')');
        },
    }
}

/// Appends an operator's own line: its name and its expressions.
fn push_plan_line(out: &mut String, plan: &PhysicalPlans)
    requires
        plan.wf_plan(),
{
    match plan {
        PhysicalPlans::Scan(s) => {
            push_word(out, "Scan: ");
            let path = s.datasource.path();
            out.append(path.as_str());
            push_word(out, " | ");
            if s.projection.len() == 0 {
                push_word(out, "None");
            } else {
                let mut t: usize = 0;
                while t < s.projection.len()
                    invariant
                        t <= s.projection@.len(),
                    decreases s.projection@.len() - t,
                {
                    if t > 0 {
                        push_word(out, ", ");
                    }
                    out.append(s.projection[t].as_str());
                    t = t + 1;
                }
            }
        },
        PhysicalPlans::Projection(p) => {
            push_word(out, "Projection: ");
            let mut t: usize = 0;
            while t < p.expr.len()
                invariant
                    PhysicalPlans::Projection(*p).wf_plan(),
                    t <= p.expr@.len(),
                decreases p.expr@.len() - t,
            {
                if t > 0 {
                    push_word(out, ", ");
                }
                push_physical_expr(out, &p.expr[t]);
                t = t + 1;
            }
        },
        PhysicalPlans::Filter(f) => {
            push_word(out, "Filter: ");
            push_physical_expr(out, &f.expr);
        },
        PhysicalPlans::Limit(l) => {
            push_word(out, "Limit: ");
            let ds = u64_to_dec_digits(l.limit as u64);
            out.append(ds.as_str());
        },
        PhysicalPlans::Sort(s) => {
            push_word(out, "Sort: keys=");
            let mut t: usize = 0;
            while t < s.sort_keys.len()
                invariant
                    PhysicalPlans::Sort(*s).wf_plan(),
                    t <= s.sort_keys@.len(),
                decreases s.sort_keys@.len() - t,
            {
                if t > 0 {
                    push_word(out, ", ");
                }
                push_physical_expr(out, &s.sort_keys[t]);
                if t < s.asc.len() {
                    if s.asc[t] {
                        push_word(out, " asc");
                    } else {
                        push_word(out, " desc");
                    }
                }
                t = t + 1;
            }
        },
        PhysicalPlans::HashAggregate(h) => {
            push_word(out, "HashAggregate: group_expr=");
            if h.group_expr.len() == 0 {
                push_word(out, "None");
            } else {
                let mut t: usize = 0;
                while t < h.group_expr.len()
                    invariant
                        PhysicalPlans::HashAggregate(*h).wf_plan(),
                        t <= h.group_expr@.len(),
                    decreases h.group_expr@.len() - t,
                {
                    if t > 0 {
                        push_word(out, ", ");
                    }
                    push_physical_expr(out, &h.group_expr[t]);
                    t = t + 1;
                }
            }
            push_word(out, ", aggr_expr=");
            if h.aggr_expr.len() == 0 {
                push_word(out, "None");
            } else {
                let mut t: usize = 0;
                while t < h.aggr_expr.len()
                    invariant
                        PhysicalPlans::HashAggregate(*h).wf_plan(),
                        t <= h.aggr_expr@.len(),
                    decreases h.aggr_expr@.len() - t,
                {
                    if t > 0 {
                        push_word(out, ", ");
                    }
                    push_aggregate(out, &h.aggr_expr[t]);
                    t = t + 1;
                }
            }
        },
    }
}

/// Appends a short word.
fn push_word(out: &mut String, w: &str) {
    out.append(w);
}

/// Renders the operator tree, children indented below their parent.
pub fn format_physical_plan(plan: &PhysicalPlans, indent: usize) -> (r: String)
    requires
        plan.wf_plan(),
    decreases plan, 1int,
{
    let mut out = String::new();
    let mut t: usize = 0;
    while t < indent
        invariant
            t <= indent,
        decreases indent - t,
    {
        push_char(&mut out, ' ');
        push_char(&mut out, ' ');
        t = t + 1;
    }
    push_plan_line(&mut out, plan);
    push_char(&mut out, '\n');
    let next = if indent < usize::MAX {
        indent + 1
    } else {
        indent
    };
    match plan {
        PhysicalPlans::Scan(_) => {},
        PhysicalPlans::Projection(p) => {
            let child = format_physical_plan(&p.input, next);
            out.append(child.as_str());
        },
        PhysicalPlans::Filter(f) => {
            let child = format_physical_plan(&f.input, next);
            out.append(child.as_str());
        },
        PhysicalPlans::Limit(l) => {
            let child = format_physical_plan(&l.input, next);
            out.append(child.as_str());
        },
        PhysicalPlans::Sort(s) => {
            let child = format_physical_plan(&s.input, next);
            out.append(child.as_str());
        },
        PhysicalPlans::HashAggregate(h) => {
            let child = format_physical_plan(&h.input, next);
            out.append(child.as_str());
        },
    }
    out
}

} // verus!
