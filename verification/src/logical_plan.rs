use vstd::prelude::*;

use crate::datasource::Datasources;
use crate::error::ZakuError;
use crate::logical_expr::{AggregateExprs, LogicalExprs};
use crate::physical_expr::PhysicalExprs;
use crate::physical_plan::{
    aggr_out_dtype, FilterExec, HashAggregateExec, LimitExec, PhysicalPlans, ProjectionExec,
    ScanExec, SortExec,
};
use crate::schema::{select_fields, Field, Schema};

verus! {

/// A table scan with an optional pushdown projection.
#[derive(Debug)]
pub struct Scan {
    pub datasource: Datasources,
    pub projection: Vec<String>,
}

/// A projection: one expression per output column.
#[derive(Debug)]
pub struct Projection {
    pub schema: Schema,
    pub input: Box<LogicalPlans>,
    pub expr: Vec<LogicalExprs>,
}

/// A filter by a predicate.
#[derive(Debug)]
pub struct Filter {
    pub input: Box<LogicalPlans>,
    pub expr: LogicalExprs,
}

/// A row-count limit.
#[derive(Debug)]
pub struct Limit {
    pub input: Box<LogicalPlans>,
    pub limit: usize,
}

/// A grouping with aggregates; group fields come first in the schema.
#[derive(Debug)]
pub struct Aggregate {
    pub schema: Schema,
    pub input: Box<LogicalPlans>,
    pub group_expr: Vec<LogicalExprs>,
    pub aggregate_expr: Vec<AggregateExprs>,
}

/// A sort over key expressions with one direction flag each.
#[derive(Debug)]
pub struct Sort {
    pub input: Box<LogicalPlans>,
    pub keys: Vec<LogicalExprs>,
    pub asc: Vec<bool>,
}

/// A schema-typed relational operator tree.
#[derive(Debug)]
pub enum LogicalPlans {
    Scan(Scan),
    Projection(Projection),
    Filter(Filter),
    Limit(Limit),
    Aggregate(Aggregate),
    Sort(Sort),
}

/// A projection with one unlowerable expression does not lower.
pub proof fn lemma_projection_not_lowers(pr: Projection, k: int)
    requires
        0 <= k < pr.expr@.len(),
        pr.expr@[k].to_physical_spec(pr.input.out_lfields()) is None,
    ensures
        !plan_lowers(LogicalPlans::Projection(pr)),
{
}

/// A sort with one unlowerable key does not lower.
pub proof fn lemma_sort_not_lowers(so: Sort, k: int)
    requires
        0 <= k < so.keys@.len(),
        so.keys@[k].to_physical_spec(so.input.out_lfields()) is None,
    ensures
        !plan_lowers(LogicalPlans::Sort(so)),
{
}

/// A grouping with one unlowerable group key does not lower.
pub proof fn lemma_agg_group_not_lowers(a: Aggregate, k: int)
    requires
        0 <= k < a.group_expr@.len(),
        a.group_expr@[k].to_physical_spec(a.input.out_lfields()) is None,
    ensures
        !plan_lowers(LogicalPlans::Aggregate(a)),
{
}

/// A grouping with one unlowerable aggregate input does not lower.
pub proof fn lemma_agg_input_not_lowers(a: Aggregate, k: int)
    requires
        0 <= k < a.aggregate_expr@.len(),
        a.aggregate_expr@[k].inner().to_physical_spec(a.input.out_lfields()) is None,
    ensures
        !plan_lowers(LogicalPlans::Aggregate(a)),
{
}

/// Two batch streams carry the same table: the same fields and, column
/// for column, the same cells.
pub open spec fn batches_match(a: Seq<crate::record_batch::RecordBatch>, b: Seq<crate::record_batch::RecordBatch>) -> bool {
    a.len() == b.len() && forall|k: int|
        0 <= k < a.len() ==> (#[trigger] a[k]).schema.fields@ == b[k].schema.fields@
            && a[k].columns@.len() == b[k].columns@.len() && (forall|c: int|
            0 <= c < a[k].columns@.len() ==> (#[trigger] a[k].columns@[c]).view_seq()
                == b[k].columns@[c].view_seq())
}

/// The physical aggregate is the logical one's kind over the lowered input.
pub open spec fn agg_lowers_to(
    l: AggregateExprs,
    ph: crate::accumulator::AggregateExpressions,
    fields: Seq<Field>,
) -> bool {
    &&& (match (l, ph) {
        (AggregateExprs::Count(_), crate::accumulator::AggregateExpressions::Count(_)) => true,
        (AggregateExprs::Sum(_), crate::accumulator::AggregateExpressions::Sum(_)) => true,
        (AggregateExprs::Avg(_), crate::accumulator::AggregateExpressions::Avg(_)) => true,
        (AggregateExprs::Min(_), crate::accumulator::AggregateExpressions::Min(_)) => true,
        (AggregateExprs::Max(_), crate::accumulator::AggregateExpressions::Max(_)) => true,
        _ => false,
    })
    &&& l.inner().to_physical_spec(fields) == Some(ph.input_spec())
}

/// The physical plan mirrors the logical one, operator for operator: each
/// node lowers to its counterpart and every expression to its vectorized
/// form over the child's fields.
pub open spec fn lowers_to(lp: LogicalPlans, pp: PhysicalPlans) -> bool
    decreases lp,
{
    match lp {
        LogicalPlans::Scan(sl) => pp is Scan && pp->Scan_0.datasource.schema_spec().fields@
            == sl.datasource.schema_spec().fields@ && batches_match(
            pp->Scan_0.datasource.data_spec(),
            sl.datasource.data_spec(),
        ) && pp->Scan_0.projection@.map_values(|n: String| n@) == sl.projection@.map_values(
            |n: String| n@,
        ),
        LogicalPlans::Projection(pl) => pp is Projection && lowers_to(
            *pl.input,
            *pp->Projection_0.input,
        ) && pp->Projection_0.schema.fields@ == pl.schema.fields@
            && pp->Projection_0.expr@.len() == pl.expr@.len() && (forall|k: int|
            0 <= k < pl.expr@.len() ==> pl.expr@[k].to_physical_spec(pl.input.out_lfields())
                == Some(#[trigger] pp->Projection_0.expr@[k])),
        LogicalPlans::Filter(fl) => pp is Filter && lowers_to(*fl.input, *pp->Filter_0.input)
            && pp->Filter_0.schema.fields@ == fl.input.out_lfields() && fl.expr.to_physical_spec(
            fl.input.out_lfields(),
        ) == Some(pp->Filter_0.expr),
        LogicalPlans::Limit(ll) => pp is Limit && lowers_to(*ll.input, *pp->Limit_0.input)
            && pp->Limit_0.schema.fields@ == ll.input.out_lfields() && pp->Limit_0.limit
            == ll.limit,
        LogicalPlans::Sort(sl) => pp is Sort && lowers_to(*sl.input, *pp->Sort_0.input)
            && pp->Sort_0.schema.fields@ == sl.input.out_lfields() && pp->Sort_0.asc@ == sl.asc@
            && pp->Sort_0.sort_keys@.len() == sl.keys@.len() && (forall|k: int|
            0 <= k < sl.keys@.len() ==> sl.keys@[k].to_physical_spec(sl.input.out_lfields())
                == Some(#[trigger] pp->Sort_0.sort_keys@[k])),
        LogicalPlans::Aggregate(al) => pp is HashAggregate && lowers_to(
            *al.input,
            *pp->HashAggregate_0.input,
        ) && pp->HashAggregate_0.schema.fields@ == al.schema.fields@
            && pp->HashAggregate_0.group_expr@.len() == al.group_expr@.len() && (forall|k: int|
            0 <= k < al.group_expr@.len() ==> al.group_expr@[k].to_physical_spec(
                al.input.out_lfields(),
            ) == Some(#[trigger] pp->HashAggregate_0.group_expr@[k]))
            && pp->HashAggregate_0.aggr_expr@.len() == al.aggregate_expr@.len() && (forall|k: int|
            0 <= k < al.aggregate_expr@.len() ==> agg_lowers_to(
                al.aggregate_expr@[k],
                #[trigger] pp->HashAggregate_0.aggr_expr@[k],
                al.input.out_lfields(),
            )),
    }
}

/// Whether lowering the logical tree succeeds: every expression of every
/// node lowers against its input's fields.
pub open spec fn plan_lowers(p: LogicalPlans) -> bool
    decreases p,
{
    match p {
        LogicalPlans::Scan(_) => true,
        LogicalPlans::Projection(pr) => plan_lowers(*pr.input) && (forall|k: int|
            0 <= k < pr.expr@.len() ==> (#[trigger] pr.expr@[k]).to_physical_spec(
                pr.input.out_lfields(),
            ) is Some),
        LogicalPlans::Filter(f) => plan_lowers(*f.input) && f.expr.to_physical_spec(
            f.input.out_lfields(),
        ) is Some,
        LogicalPlans::Limit(l) => plan_lowers(*l.input),
        LogicalPlans::Sort(so) => plan_lowers(*so.input) && (forall|k: int|
            0 <= k < so.keys@.len() ==> (#[trigger] so.keys@[k]).to_physical_spec(
                so.input.out_lfields(),
            ) is Some),
        LogicalPlans::Aggregate(a) => plan_lowers(*a.input) && (forall|k: int|
            0 <= k < a.group_expr@.len() ==> (#[trigger] a.group_expr@[k]).to_physical_spec(
                a.input.out_lfields(),
            ) is Some) && (forall|k: int|
            0 <= k < a.aggregate_expr@.len() ==> (
            #[trigger] a.aggregate_expr@[k]).inner().to_physical_spec(
                a.input.out_lfields(),
            ) is Some),
    }
}

impl LogicalPlans {
    /// The fields of the relation this operator produces.
    pub open spec fn out_lfields(self) -> Seq<Field>
        decreases self,
    {
        match self {
            LogicalPlans::Scan(s) => if s.projection@.len() == 0 {
                s.datasource.schema_spec().fields@
            } else {
                select_fields(
                    s.datasource.schema_spec().fields@,
                    s.projection@.map_values(|n: String| n@),
                )
            },
            LogicalPlans::Projection(p) => p.schema.fields@,
            LogicalPlans::Filter(f) => f.input.out_lfields(),
            LogicalPlans::Limit(l) => l.input.out_lfields(),
            LogicalPlans::Aggregate(a) => a.schema.fields@,
            LogicalPlans::Sort(s) => s.input.out_lfields(),
        }
    }

    /// Structural well-formedness: every expression resolves against its
    /// input, aggregates stand only under `Aggregate`, and each node's
    /// schema is the one its expressions derive.
    pub open spec fn wf_lplan(self) -> bool
        decreases self,
    {
        match self {
            LogicalPlans::Scan(s) => s.datasource.wf(),
            LogicalPlans::Projection(p) => {
                &&& p.input.wf_lplan()
                &&& p.schema.fields@.len() == p.expr@.len()
                &&& forall|k: int|
                    0 <= k < p.expr@.len() ==> (#[trigger] p.expr@[k]).wf_lexpr()
                        && !p.expr@[k].has_aggregate() && p.expr@[k].to_field_spec(
                        p.input.out_lfields(),
                    ) is Some
                &&& forall|k: int|
                    0 <= k < p.expr@.len() ==> (#[trigger] p.schema.fields@[k]).name@
                        == p.expr@[k].to_field_spec(p.input.out_lfields())->Some_0.0
                        && p.schema.fields@[k].datatype == p.expr@[k].to_field_spec(
                        p.input.out_lfields(),
                    )->Some_0.1
            },
            LogicalPlans::Filter(f) => {
                &&& f.input.wf_lplan()
                &&& f.expr.wf_lexpr()
                &&& !f.expr.has_aggregate()
                &&& (f.expr.to_field_spec(f.input.out_lfields()) matches Some(p) && p.1
                    == crate::types::DataType::Boolean)
            },
            LogicalPlans::Limit(l) => l.input.wf_lplan(),
            LogicalPlans::Aggregate(a) => {
                &&& a.input.wf_lplan()
                &&& a.group_expr@.len() + a.aggregate_expr@.len() >= 1
                &&& forall|k: int|
                    0 <= k < a.group_expr@.len() ==> (#[trigger] a.group_expr@[k]).wf_lexpr()
                        && !a.group_expr@[k].has_aggregate() && a.group_expr@[k].to_field_spec(
                        a.input.out_lfields(),
                    ) is Some
                &&& forall|k: int|
                    0 <= k < a.aggregate_expr@.len() ==> (#[trigger] a.aggregate_expr@[k]).wf_agg()
                        && !a.aggregate_expr@[k].inner().has_aggregate()
                        && a.aggregate_expr@[k].inner().to_field_spec(
                        a.input.out_lfields(),
                    ) is Some && a.aggregate_expr@[k].agg_field_spec(a.input.out_lfields()) is Some
                &&& a.schema.fields@.len() == a.group_expr@.len() + a.aggregate_expr@.len()
                &&& forall|k: int|
                    0 <= k < a.group_expr@.len() ==> (#[trigger] a.schema.fields@[k]).name@
                        == a.group_expr@[k].to_field_spec(a.input.out_lfields())->Some_0.0
                        && a.schema.fields@[k].datatype == a.group_expr@[k].to_field_spec(
                        a.input.out_lfields(),
                    )->Some_0.1
                &&& forall|k: int|
                    0 <= k < a.aggregate_expr@.len() ==> a.schema.fields@[a.group_expr@.len()
                        + k].name@ == (#[trigger] a.aggregate_expr@[k]).agg_field_spec(
                        a.input.out_lfields(),
                    )->Some_0.0 && a.schema.fields@[a.group_expr@.len() + k].datatype
                        == a.aggregate_expr@[k].agg_field_spec(a.input.out_lfields())->Some_0.1
            },
            LogicalPlans::Sort(s) => {
                &&& s.input.wf_lplan()
                &&& s.keys@.len() == s.asc@.len()
                &&& forall|k: int|
                    0 <= k < s.keys@.len() ==> (#[trigger] s.keys@[k]).wf_lexpr()
                        && !s.keys@[k].has_aggregate() && s.keys@[k].to_field_spec(
                        s.input.out_lfields(),
                    ) is Some
            },
        }
    }

    /// The schema of the relation this operator produces.
    pub fn schema(&self) -> (r: Schema)
        ensures
            r.fields@ == self.out_lfields(),
        decreases self,
    {
        match self {
            LogicalPlans::Scan(s) => {
                if s.projection.len() == 0 {
                    s.datasource.schema().duplicate()
                } else {
                    s.datasource.schema().select(&s.projection)
                }
            },
            LogicalPlans::Projection(p) => p.schema.duplicate(),
            LogicalPlans::Filter(f) => f.input.schema(),
            LogicalPlans::Limit(l) => l.input.schema(),
            LogicalPlans::Aggregate(a) => a.schema.duplicate(),
            LogicalPlans::Sort(s) => s.input.schema(),
        }
    }

    /// Lowers the logical tree into the matching streaming operator tree;
    /// the physical plan is well formed and keeps the logical schema, and
    /// the lowering succeeds exactly when every expression lowers.
    #[verifier::rlimit(100)]
    #[verifier::spinoff_prover]
    pub fn to_physical_plan(&self) -> (r: Result<PhysicalPlans, ZakuError>)
        requires
            self.wf_lplan(),
        ensures
            match r {
                Ok(pp) => pp.wf_plan() && pp.out_fields() == self.out_lfields() && plan_lowers(
                    *self,
                ),
                Err(e) => e is ResolutionError && !plan_lowers(*self),
            },
            r is Ok ==> lowers_to(*self, r->Ok_0),
        decreases self,
    {
        match self {
            LogicalPlans::Scan(s) => {
                let mut proj: Vec<String> = Vec::new();
                let mut t: usize = 0;
                while t < s.projection.len()
                    invariant
                        t <= s.projection@.len(),
                        proj@.len() == t,
                        forall|q: int| 0 <= q < t ==> (#[trigger] proj@[q])@ == s.projection@[q]@,
                    decreases s.projection@.len() - t,
                {
                    proj.push(s.projection[t].clone());
                    t = t + 1;
                }
                let pp = PhysicalPlans::Scan(
                    ScanExec { datasource: s.datasource.duplicate(), projection: proj },
                );
                proof {
                    assert(pp.wf_plan());
                    assert(pp.out_fields() =~= self.out_lfields()) by {
                        let ds2 = pp->Scan_0.datasource;
                        assert(ds2.schema_spec().fields@ == s.datasource.schema_spec().fields@);
                        assert(pp->Scan_0.projection@.map_values(|n: String| n@)
                            =~= s.projection@.map_values(|n: String| n@));
                    }
                    assert(pp->Scan_0.projection@.map_values(|n: String| n@)
                        =~= s.projection@.map_values(|n: String| n@));
                    assert(batches_match(
                        pp->Scan_0.datasource.data_spec(),
                        s.datasource.data_spec(),
                    ));
                    assert(lowers_to(*self, pp));
                }
                Ok(pp)
            },
            LogicalPlans::Projection(p) => {
                let input = match p.input.to_physical_plan() {
                    Ok(ip) => ip,
                    Err(e) => {
                        return Err(e);
                    },
                };
                let ischema = p.input.schema();
                let mut phys: Vec<PhysicalExprs> = Vec::new();
                let mut t: usize = 0;
                while t < p.expr.len()
                    invariant
                        *self == LogicalPlans::Projection(*p),
                        LogicalPlans::Projection(*p).wf_lplan(),
                        ischema.fields@ == p.input.out_lfields(),
                        t <= p.expr@.len(),
                        phys@.len() == t,
                        forall|q: int|
                            0 <= q < t ==> (#[trigger] phys@[q]).bounds_ok(
                                ischema.fields@.len() as int,
                            ) && phys@[q].wf_expr() && phys@[q].out_dtype(ischema.fields@)
                                == p.expr@[q].to_field_spec(ischema.fields@)->Some_0.1,
                        forall|q: int|
                            0 <= q < t ==> (#[trigger] p.expr@[q]).to_physical_spec(
                                ischema.fields@,
                            ) == Some(phys@[q]),
                    decreases p.expr@.len() - t,
                {
                    match p.expr[t].to_physical_expr(&ischema) {
                        Ok(pe) => {
                            phys.push(pe);
                        },
                        Err(e) => {
                            proof {
                                assert(p.expr@[t as int].to_physical_spec(
                                    p.input.out_lfields(),
                                ) is None);
                                lemma_projection_not_lowers(*p, t as int);
                                assert(*self == LogicalPlans::Projection(*p));
                                assert(!plan_lowers(*self));
                            }
                            return Err(e);
                        },
                    }
                    t = t + 1;
                }
                let pp = PhysicalPlans::Projection(
                    ProjectionExec { schema: p.schema.duplicate(), input: Box::new(input), expr: phys },
                );
                proof {
                    assert(pp.wf_plan());
                    assert(lowers_to(*self, pp));
                }
                Ok(pp)
            },
            LogicalPlans::Filter(f) => {
                let input = match f.input.to_physical_plan() {
                    Ok(ip) => ip,
                    Err(e) => {
                        return Err(e);
                    },
                };
                let ischema = f.input.schema();
                let pe = match f.expr.to_physical_expr(&ischema) {
                    Ok(pe) => pe,
                    Err(e) => {
                        return Err(e);
                    },
                };
                let pp = PhysicalPlans::Filter(
                    FilterExec { schema: ischema, input: Box::new(input), expr: pe },
                );
                proof {
                    assert(pp.wf_plan());
                    assert(lowers_to(*self, pp));
                }
                Ok(pp)
            },
            LogicalPlans::Limit(l) => {
                let input = match l.input.to_physical_plan() {
                    Ok(ip) => ip,
                    Err(e) => {
                        return Err(e);
                    },
                };
                let ischema = l.input.schema();
                let pp = PhysicalPlans::Limit(
                    LimitExec { schema: ischema, input: Box::new(input), limit: l.limit },
                );
                proof {
                    assert(pp.wf_plan());
                    assert(lowers_to(*self, pp));
                }
                Ok(pp)
            },
            LogicalPlans::Sort(s) => {
                let input = match s.input.to_physical_plan() {
                    Ok(ip) => ip,
                    Err(e) => {
                        return Err(e);
                    },
                };
                let ischema = s.input.schema();
                let mut keys: Vec<PhysicalExprs> = Vec::new();
                let mut t: usize = 0;
                while t < s.keys.len()
                    invariant
                        *self == LogicalPlans::Sort(*s),
                        LogicalPlans::Sort(*s).wf_lplan(),
                        ischema.fields@ == s.input.out_lfields(),
                        t <= s.keys@.len(),
                        keys@.len() == t,
                        forall|q: int|
                            0 <= q < t ==> (#[trigger] keys@[q]).bounds_ok(
                                ischema.fields@.len() as int,
                            ) && keys@[q].wf_expr(),
                        forall|q: int|
                            0 <= q < t ==> (#[trigger] s.keys@[q]).to_physical_spec(
                                ischema.fields@,
                            ) == Some(keys@[q]),
                    decreases s.keys@.len() - t,
                {
                    match s.keys[t].to_physical_expr(&ischema) {
                        Ok(pe) => {
                            keys.push(pe);
                        },
                        Err(e) => {
                            proof {
                                assert(s.keys@[t as int].to_physical_spec(
                                    s.input.out_lfields(),
                                ) is None);
                                lemma_sort_not_lowers(*s, t as int);
                                assert(*self == LogicalPlans::Sort(*s));
                                assert(!plan_lowers(*self));
                            }
                            return Err(e);
                        },
                    }
                    t = t + 1;
                }
                let mut asc: Vec<bool> = Vec::new();
                let mut t2: usize = 0;
                while t2 < s.asc.len()
                    invariant
                        t2 <= s.asc@.len(),
                        asc@ == s.asc@.take(t2 as int),
                    decreases s.asc@.len() - t2,
                {
                    asc.push(s.asc[t2]);
                    proof {
                        assert(s.asc@.take(t2 + 1) =~= s.asc@.take(t2 as int).push(
                            s.asc@[t2 as int],
                        ));
                    }
                    t2 = t2 + 1;
                }
                proof {
                    assert(s.asc@.take(s.asc@.len() as int) =~= s.asc@);
                }
                let pp = PhysicalPlans::Sort(
                    SortExec { schema: ischema, input: Box::new(input), sort_keys: keys, asc },
                );
                proof {
                    assert(pp.wf_plan());
                    assert(lowers_to(*self, pp));
                }
                Ok(pp)
            },
            LogicalPlans::Aggregate(a) => {
                let input = match a.input.to_physical_plan() {
                    Ok(ip) => ip,
                    Err(e) => {
                        return Err(e);
                    },
                };
                let ischema = a.input.schema();
                let mut groups: Vec<PhysicalExprs> = Vec::new();
                let mut t: usize = 0;
                while t < a.group_expr.len()
                    invariant
                        *self == LogicalPlans::Aggregate(*a),
                        LogicalPlans::Aggregate(*a).wf_lplan(),
                        ischema.fields@ == a.input.out_lfields(),
                        t <= a.group_expr@.len(),
                        groups@.len() == t,
                        forall|q: int|
                            0 <= q < t ==> (#[trigger] groups@[q]).bounds_ok(
                                ischema.fields@.len() as int,
                            ) && groups@[q].wf_expr() && groups@[q].out_dtype(ischema.fields@)
                                == a.group_expr@[q].to_field_spec(ischema.fields@)->Some_0.1,
                        forall|q: int|
                            0 <= q < t ==> (#[trigger] a.group_expr@[q]).to_physical_spec(
                                ischema.fields@,
                            ) == Some(groups@[q]),
                    decreases a.group_expr@.len() - t,
                {
                    match a.group_expr[t].to_physical_expr(&ischema) {
                        Ok(pe) => {
                            groups.push(pe);
                        },
                        Err(e) => {
                            proof {
                                assert(a.group_expr@[t as int].to_physical_spec(
                                    a.input.out_lfields(),
                                ) is None);
                                lemma_agg_group_not_lowers(*a, t as int);
                                assert(*self == LogicalPlans::Aggregate(*a));
                                assert(!plan_lowers(*self));
                            }
                            return Err(e);
                        },
                    }
                    t = t + 1;
                }
                let mut aggrs: Vec<crate::accumulator::AggregateExpressions> = Vec::new();
                let mut t2: usize = 0;
                while t2 < a.aggregate_expr.len()
                    invariant
                        *self == LogicalPlans::Aggregate(*a),
                        LogicalPlans::Aggregate(*a).wf_lplan(),
                        ischema.fields@ == a.input.out_lfields(),
                        t2 <= a.aggregate_expr@.len(),
                        aggrs@.len() == t2,
                        forall|q: int|
                            0 <= q < t2 ==> (#[trigger] aggrs@[q]).input_spec().bounds_ok(
                                ischema.fields@.len() as int,
                            ) && aggrs@[q].input_spec().wf_expr() && aggr_out_dtype(
                                aggrs@[q],
                                ischema.fields@,
                            ) == a.aggregate_expr@[q].agg_field_spec(ischema.fields@)->Some_0.1,
                        groups@.len() == a.group_expr@.len(),
                        forall|q: int|
                            0 <= q < a.group_expr@.len() ==> (
                            #[trigger] a.group_expr@[q]).to_physical_spec(
                                ischema.fields@,
                            ) == Some(groups@[q]),
                        forall|q: int|
                            0 <= q < t2 ==> agg_lowers_to(
                                a.aggregate_expr@[q],
                                #[trigger] aggrs@[q],
                                ischema.fields@,
                            ),
                    decreases a.aggregate_expr@.len() - t2,
                {
                    let ae = &a.aggregate_expr[t2];
                    let inner_phys = match ae.input().to_physical_expr(&ischema) {
                        Ok(pe) => pe,
                        Err(e) => {
                            proof {
                                assert(a.aggregate_expr@[t2 as int].inner().to_physical_spec(
                                    a.input.out_lfields(),
                                ) is None);
                                lemma_agg_input_not_lowers(*a, t2 as int);
                                assert(*self == LogicalPlans::Aggregate(*a));
                                assert(!plan_lowers(*self));
                            }
                            return Err(e);
                        },
                    };
                    let pa = match ae {
                        AggregateExprs::Count(_) => crate::accumulator::AggregateExpressions::Count(
                            inner_phys,
                        ),
                        AggregateExprs::Sum(_) => crate::accumulator::AggregateExpressions::Sum(
                            inner_phys,
                        ),
                        AggregateExprs::Avg(_) => crate::accumulator::AggregateExpressions::Avg(
                            inner_phys,
                        ),
                        AggregateExprs::Min(_) => crate::accumulator::AggregateExpressions::Min(
                            inner_phys,
                        ),
                        AggregateExprs::Max(_) => crate::accumulator::AggregateExpressions::Max(
                            inner_phys,
                        ),
                    };
                    aggrs.push(pa);
                    t2 = t2 + 1;
                }
                let pp = PhysicalPlans::HashAggregate(
                    HashAggregateExec {
                        input: Box::new(input),
                        group_expr: groups,
                        aggr_expr: aggrs,
                        schema: a.schema.duplicate(),
                    },
                );
                proof {
                    assert(pp.wf_plan());
                    assert(lowers_to(*self, pp));
                    assert forall|k2: int|
                        0 <= k2 < a.aggregate_expr@.len() implies (
                    #[trigger] a.aggregate_expr@[k2]).inner().to_physical_spec(
                        a.input.out_lfields(),
                    ) is Some by {
                        assert(agg_lowers_to(a.aggregate_expr@[k2], aggrs@[k2], ischema.fields@));
                    }
                    assert(plan_lowers(*self));
                }
                Ok(pp)
            },
        }
    }
}


impl LogicalPlans {
    /// Copies the plan tree; the copy is well formed whenever the original
    /// is, produces the same fields, and lowers exactly when the original
    /// does.
    pub fn duplicate(&self) -> (r: LogicalPlans)
        ensures
            self.wf_lplan() ==> r.wf_lplan(),
            r.out_lfields() == self.out_lfields(),
            plan_lowers(r) == plan_lowers(*self),
        decreases self,
    {
        match self {
            LogicalPlans::Scan(s) => {
                let mut proj: Vec<String> = Vec::new();
                let mut t: usize = 0;
                while t < s.projection.len()
                    invariant
                        t <= s.projection@.len(),
                        proj@ == s.projection@.take(t as int),
                    decreases s.projection@.len() - t,
                {
                    proj.push(s.projection[t].clone());
                    proof {
                        assert(s.projection@.take(t + 1) =~= s.projection@.take(t as int).push(
                            s.projection@[t as int],
                        ));
                    }
                    t = t + 1;
                }
                proof {
                    assert(s.projection@.take(s.projection@.len() as int) =~= s.projection@);
                }
                let ds = s.datasource.duplicate();
                LogicalPlans::Scan(Scan { datasource: ds, projection: proj })
            },
            LogicalPlans::Projection(p) => LogicalPlans::Projection(
                Projection {
                    schema: p.schema.duplicate(),
                    input: Box::new(p.input.duplicate()),
                    expr: dup_exprs(&p.expr),
                },
            ),
            LogicalPlans::Filter(f) => LogicalPlans::Filter(
                Filter { input: Box::new(f.input.duplicate()), expr: f.expr.duplicate() },
            ),
            LogicalPlans::Limit(l) => LogicalPlans::Limit(
                Limit { input: Box::new(l.input.duplicate()), limit: l.limit },
            ),
            LogicalPlans::Aggregate(a) => {
                let mut aggs: Vec<AggregateExprs> = Vec::new();
                let mut t: usize = 0;
                while t < a.aggregate_expr.len()
                    invariant
                        t <= a.aggregate_expr@.len(),
                        aggs@ == a.aggregate_expr@.take(t as int),
                    decreases a.aggregate_expr@.len() - t,
                {
                    aggs.push(a.aggregate_expr[t].duplicate());
                    proof {
                        assert(a.aggregate_expr@.take(t + 1) =~= a.aggregate_expr@.take(
                            t as int,
                        ).push(a.aggregate_expr@[t as int]));
                    }
                    t = t + 1;
                }
                proof {
                    assert(a.aggregate_expr@.take(a.aggregate_expr@.len() as int)
                        =~= a.aggregate_expr@);
                }
                LogicalPlans::Aggregate(
                    Aggregate {
                        schema: a.schema.duplicate(),
                        input: Box::new(a.input.duplicate()),
                        group_expr: dup_exprs(&a.group_expr),
                        aggregate_expr: aggs,
                    },
                )
            },
            LogicalPlans::Sort(s) => {
                let mut asc: Vec<bool> = Vec::new();
                let mut t: usize = 0;
                while t < s.asc.len()
                    invariant
                        t <= s.asc@.len(),
                        asc@ == s.asc@.take(t as int),
                    decreases s.asc@.len() - t,
                {
                    asc.push(s.asc[t]);
                    proof {
                        assert(s.asc@.take(t + 1) =~= s.asc@.take(t as int).push(
                            s.asc@[t as int],
                        ));
                    }
                    t = t + 1;
                }
                proof {
                    assert(s.asc@.take(s.asc@.len() as int) =~= s.asc@);
                }
                LogicalPlans::Sort(
                    Sort { input: Box::new(s.input.duplicate()), keys: dup_exprs(&s.keys), asc },
                )
            },
        }
    }
}

/// Copies a list of expressions; the copy equals the original.
pub fn dup_exprs(v: &Vec<LogicalExprs>) -> (r: Vec<LogicalExprs>)
    ensures
        r@ == v@,
{
    let mut out: Vec<LogicalExprs> = Vec::new();
    let mut t: usize = 0;
    while t < v.len()
        invariant
            t <= v@.len(),
            out@ == v@.take(t as int),
        decreases v@.len() - t,
    {
        out.push(v[t].duplicate());
        proof {
            assert(v@.take(t + 1) =~= v@.take(t as int).push(v@[t as int]));
        }
        t = t + 1;
    }
    proof {
        assert(v@.take(v@.len() as int) =~= v@);
    }
    out
}

/// An expression a plain (non-aggregating) builder refuses: it holds an
/// aggregate or does not resolve against the input's fields.
pub open spec fn bad_plain_expr(e: LogicalExprs, fields: Seq<Field>) -> bool {
    e.has_aggregate() || e.to_field_spec(fields) is None
}

/// A filter predicate the builder refuses: it holds an aggregate, does not
/// resolve, or does not type to `Boolean`.
pub open spec fn bad_predicate(e: LogicalExprs, fields: Seq<Field>) -> bool {
    e.has_aggregate() || !(e.to_field_spec(fields) matches Some(p) && p.1
        == crate::types::DataType::Boolean)
}

/// An aggregate expression the grouping builder refuses: its own field
/// does not resolve.
pub open spec fn bad_agg_expr(ae: AggregateExprs, fields: Seq<Field>) -> bool {
    ae.agg_field_spec(fields) is None
}

/// Every group key and every aggregate resolves to a field: exactly the
/// condition on which building a grouping succeeds.
pub open spec fn agg_resolves(
    gs: Seq<LogicalExprs>,
    ags: Seq<AggregateExprs>,
    fields: Seq<Field>,
) -> bool {
    &&& forall|k: int| 0 <= k < gs.len() ==> (#[trigger] gs[k]).to_field_spec(fields) is Some
    &&& forall|k: int| 0 <= k < ags.len() ==> (#[trigger] ags[k]).agg_field_spec(fields) is Some
}

/// The extra conditions under which a freshly built grouping node is well
/// formed: the node does something, no group key folds an aggregate, and no
/// aggregate nests or loses its input.
pub open spec fn grouping_wf_conds(
    gs: Seq<LogicalExprs>,
    ags: Seq<AggregateExprs>,
    fields: Seq<Field>,
) -> bool {
    &&& gs.len() + ags.len() >= 1
    &&& forall|k: int| 0 <= k < gs.len() ==> !(#[trigger] gs[k]).has_aggregate()
    &&& forall|k: int|
        0 <= k < ags.len() ==> !(#[trigger] ags[k]).inner().has_aggregate()
            && ags[k].inner().to_field_spec(fields) is Some
}

impl Projection {
    /// Builds a projection over an input, deriving its schema from the
    /// expressions; expressions must resolve and carry no raw aggregates.
    pub fn new(input: LogicalPlans, expr: Vec<LogicalExprs>) -> (r: Result<Projection, ZakuError>)
        requires
            input.wf_lplan(),
            forall|k: int| 0 <= k < expr@.len() ==> (#[trigger] expr@[k]).wf_lexpr(),
        ensures
            match r {
                Ok(p) => LogicalPlans::Projection(p).wf_lplan() && p.input == input && p.expr@
                    == expr@ && (forall|k: int|
                    0 <= k < expr@.len() ==> !bad_plain_expr(
                        #[trigger] expr@[k],
                        input.out_lfields(),
                    )),
                Err(e) => e is ResolutionError && exists|k: int|
                    0 <= k < expr@.len() && bad_plain_expr(
                        #[trigger] expr@[k],
                        input.out_lfields(),
                    ),
            },
    {
        let ischema = input.schema();
        let mut fields: Vec<Field> = Vec::new();
        let mut t: usize = 0;
        while t < expr.len()
            invariant
                input.wf_lplan(),
                forall|k: int| 0 <= k < expr@.len() ==> (#[trigger] expr@[k]).wf_lexpr(),
                ischema.fields@ == input.out_lfields(),
                t <= expr@.len(),
                fields@.len() == t,
                forall|k: int|
                    0 <= k < t ==> !(#[trigger] expr@[k]).has_aggregate() && expr@[k].to_field_spec(
                        ischema.fields@,
                    ) is Some && fields@[k].name@ == expr@[k].to_field_spec(
                        ischema.fields@,
                    )->Some_0.0 && fields@[k].datatype == expr@[k].to_field_spec(
                        ischema.fields@,
                    )->Some_0.1,
            decreases expr@.len() - t,
        {
            let aggs = expr[t].as_aggregate();
            if aggs.len() > 0 {
                return Err(
                    ZakuError::ResolutionError(
                        String::from_str("projection cannot hold raw aggregates"),
                    ),
                );
            }
            match expr[t].to_field(&ischema) {
                Ok(f) => {
                    fields.push(f);
                },
                Err(e) => {
                    return Err(e);
                },
            }
            t = t + 1;
        }
        Ok(Projection { schema: Schema { fields }, input: Box::new(input), expr })
    }
}

impl Filter {
    /// Builds a filter; the predicate must resolve, hold no aggregates, and
    /// type to `Boolean`.
    pub fn new(input: LogicalPlans, expr: LogicalExprs) -> (r: Result<Filter, ZakuError>)
        requires
            input.wf_lplan(),
            expr.wf_lexpr(),
        ensures
            r is Ok <==> !bad_predicate(expr, input.out_lfields()),
            match r {
                Ok(f) => LogicalPlans::Filter(f).wf_lplan() && f.input == input && f.expr == expr,
                Err(e) => e is ResolutionError,
            },
    {
        let aggs = expr.as_aggregate();
        if aggs.len() > 0 {
            return Err(
                ZakuError::ResolutionError(String::from_str("predicate cannot hold aggregates")),
            );
        }
        let ischema = input.schema();
        match expr.to_field(&ischema) {
            Ok(f) => {
                if matches!(f.datatype, crate::types::DataType::Boolean) {
                    Ok(Filter { input: Box::new(input), expr })
                } else {
                    Err(
                        ZakuError::ResolutionError(
                            String::from_str("filter predicate must type to boolean"),
                        ),
                    )
                }
            },
            Err(e) => Err(e),
        }
    }
}

impl Limit {
    /// Builds a row-count limit.
    pub fn new(input: LogicalPlans, limit: usize) -> (r: Result<Limit, ZakuError>)
        requires
            input.wf_lplan(),
        ensures
            match r {
                Ok(l) => LogicalPlans::Limit(l).wf_lplan() && l.input == input && l.limit == limit,
                Err(_) => false,
            },
    {
        Ok(Limit { input: Box::new(input), limit })
    }
}

impl Sort {
    /// Builds a sort; every key must resolve, carry no aggregates, and come
    /// with a direction flag.
    pub fn new(input: LogicalPlans, keys: Vec<LogicalExprs>, asc: Vec<bool>) -> (r: Result<
        Sort,
        ZakuError,
    >)
        requires
            input.wf_lplan(),
            forall|k: int| 0 <= k < keys@.len() ==> (#[trigger] keys@[k]).wf_lexpr(),
        ensures
            match r {
                Ok(so) => LogicalPlans::Sort(so).wf_lplan() && so.input == input && so.keys@
                    == keys@ && so.asc@ == asc@ && keys@.len() == asc@.len() && (forall|k: int|
                    0 <= k < keys@.len() ==> !bad_plain_expr(
                        #[trigger] keys@[k],
                        input.out_lfields(),
                    )),
                Err(e) => e is ResolutionError && (keys@.len() != asc@.len() || exists|k: int|
                    0 <= k < keys@.len() && bad_plain_expr(
                        #[trigger] keys@[k],
                        input.out_lfields(),
                    )),
            },
    {
        if keys.len() != asc.len() {
            return Err(
                ZakuError::ResolutionError(String::from_str("each sort key needs a direction")),
            );
        }
        let ischema = input.schema();
        let mut t: usize = 0;
        while t < keys.len()
            invariant
                input.wf_lplan(),
                forall|k: int| 0 <= k < keys@.len() ==> (#[trigger] keys@[k]).wf_lexpr(),
                ischema.fields@ == input.out_lfields(),
                t <= keys@.len(),
                forall|k: int|
                    0 <= k < t ==> !(#[trigger] keys@[k]).has_aggregate() && keys@[k].to_field_spec(
                        ischema.fields@,
                    ) is Some,
            decreases keys@.len() - t,
        {
            let aggs = keys[t].as_aggregate();
            if aggs.len() > 0 {
                return Err(
                    ZakuError::ResolutionError(String::from_str("sort keys cannot hold aggregates")),
                );
            }
            match keys[t].to_field(&ischema) {
                Ok(_) => {},
                Err(e) => {
                    return Err(e);
                },
            }
            t = t + 1;
        }
        Ok(Sort { input: Box::new(input), keys, asc })
    }
}

impl Aggregate {
    /// Builds a grouping: group fields first, then one field per aggregate.
    pub fn new(
        input: LogicalPlans,
        group_expr: Vec<LogicalExprs>,
        aggregate_expr: Vec<AggregateExprs>,
    ) -> (r: Result<Aggregate, ZakuError>)
        requires
            input.wf_lplan(),
            forall|k: int| 0 <= k < group_expr@.len() ==> (#[trigger] group_expr@[k]).wf_lexpr(),
            forall|k: int|
                0 <= k < aggregate_expr@.len() ==> (#[trigger] aggregate_expr@[k]).wf_agg(),
        ensures
            r is Ok <==> agg_resolves(group_expr@, aggregate_expr@, input.out_lfields()),
            match r {
                Ok(a) => {
                    &&& a.input == input
                    &&& a.group_expr@ == group_expr@
                    &&& a.aggregate_expr@ == aggregate_expr@
                    &&& a.schema.fields@.len() == group_expr@.len() + aggregate_expr@.len()
                    &&& (forall|k: int|
                        0 <= k < group_expr@.len() ==> (#[trigger] a.schema.fields@[k]).name@
                            == group_expr@[k].to_field_spec(input.out_lfields())->Some_0.0
                            && a.schema.fields@[k].datatype == group_expr@[k].to_field_spec(
                            input.out_lfields(),
                        )->Some_0.1)
                    &&& (forall|k: int|
                        0 <= k < aggregate_expr@.len() ==> a.schema.fields@[group_expr@.len()
                            + k].name@ == (#[trigger] aggregate_expr@[k]).agg_field_spec(
                            input.out_lfields(),
                        )->Some_0.0 && a.schema.fields@[group_expr@.len() + k].datatype
                            == aggregate_expr@[k].agg_field_spec(input.out_lfields())->Some_0.1)
                    &&& (grouping_wf_conds(group_expr@, aggregate_expr@, input.out_lfields())
                        ==> LogicalPlans::Aggregate(a).wf_lplan())
                },
                Err(e) => e is ResolutionError,
            },
    {
        let ischema = input.schema();
        let mut fields: Vec<Field> = Vec::new();
        let mut t: usize = 0;
        while t < group_expr.len()
            invariant
                input.wf_lplan(),
                forall|k: int|
                    0 <= k < group_expr@.len() ==> (#[trigger] group_expr@[k]).wf_lexpr(),
                ischema.fields@ == input.out_lfields(),
                t <= group_expr@.len(),
                fields@.len() == t,
                forall|k: int|
                    0 <= k < t ==> (#[trigger] group_expr@[k]).to_field_spec(
                        ischema.fields@,
                    ) is Some && fields@[k].name@ == group_expr@[k].to_field_spec(
                        ischema.fields@,
                    )->Some_0.0 && fields@[k].datatype == group_expr@[k].to_field_spec(
                        ischema.fields@,
                    )->Some_0.1,
            decreases group_expr@.len() - t,
        {
            match group_expr[t].to_field(&ischema) {
                Ok(f) => {
                    fields.push(f);
                },
                Err(e) => {
                    return Err(e);
                },
            }
            t = t + 1;
        }
        let ngroups = group_expr.len();
        let mut t2: usize = 0;
        while t2 < aggregate_expr.len()
            invariant
                input.wf_lplan(),
                forall|k: int|
                    0 <= k < aggregate_expr@.len() ==> (#[trigger] aggregate_expr@[k]).wf_agg(),
                ischema.fields@ == input.out_lfields(),
                ngroups == group_expr@.len(),
                forall|k: int|
                    0 <= k < ngroups ==> (#[trigger] group_expr@[k]).wf_lexpr() && group_expr@[
                        k].to_field_spec(ischema.fields@) is Some && fields@[k].name@
                        == group_expr@[k].to_field_spec(ischema.fields@)->Some_0.0
                        && fields@[k].datatype == group_expr@[k].to_field_spec(
                        ischema.fields@,
                    )->Some_0.1,
                t2 <= aggregate_expr@.len(),
                fields@.len() == ngroups + t2,
                forall|k: int|
                    0 <= k < t2 ==> (#[trigger] aggregate_expr@[k]).agg_field_spec(
                        ischema.fields@,
                    ) is Some && fields@[ngroups + k].name@ == aggregate_expr@[k].agg_field_spec(
                        ischema.fields@,
                    )->Some_0.0 && fields@[ngroups + k].datatype
                        == aggregate_expr@[k].agg_field_spec(ischema.fields@)->Some_0.1,
            decreases aggregate_expr@.len() - t2,
        {
            let ae = &aggregate_expr[t2];
            match ae.to_field(&ischema) {
                Ok(f) => {
                    fields.push(f);
                },
                Err(e) => {
                    return Err(e);
                },
            }
            t2 = t2 + 1;
        }
        Ok(
            Aggregate {
                schema: Schema { fields },
                input: Box::new(input),
                group_expr,
                aggregate_expr,
            },
        )
    }
}

} // verus!
