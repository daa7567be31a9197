use vstd::prelude::*;

use crate::datasource::{Datasources, MemDatasource};
use crate::error::ZakuError;
use crate::logical_expr::{AggregateExprs, LogicalExprs};
use crate::logical_plan::{
    agg_resolves, bad_plain_expr, bad_predicate, grouping_wf_conds, Aggregate, Filter, Limit,
    LogicalPlans, Projection, Scan, Sort,
};
use crate::record_batch::RecordBatch;
use crate::schema::Schema;

verus! {

/// A logical plan under construction, built by chaining relational steps.
#[derive(Debug)]
pub struct Dataframe {
    pub plan: LogicalPlans,
}

impl Dataframe {
    /// The held plan is well formed.
    pub open spec fn wf(self) -> bool {
        self.plan.wf_lplan()
    }

    pub fn new(plan: LogicalPlans) -> (r: Dataframe)
        ensures
            r.plan == plan,
    {
        Dataframe { plan }
    }

    /// The schema of the rows this frame produces.
    pub fn schema(&self) -> (r: Schema)
        ensures
            r.fields@ == self.plan.out_lfields(),
    {
        self.plan.schema()
    }

    pub fn logical_plan(&self) -> (r: &LogicalPlans)
        ensures
            r == &self.plan,
    {
        &self.plan
    }

    /// A frame over an in-memory table.
    pub fn from_memory(schema: Schema, data: Vec<RecordBatch>) -> (r: Result<Dataframe, ZakuError>)
        requires
            forall|k: int|
                0 <= k < data@.len() ==> (#[trigger] data@[k]).wf() && data@[k].schema.fields@
                    == schema.fields@,
        ensures
            match r {
                Ok(df) => df.wf() && df.plan.out_lfields() == schema.fields@,
                Err(_) => false,
            },
    {
        let ds = Datasources::Mem(MemDatasource::new(schema, data));
        Ok(Dataframe { plan: LogicalPlans::Scan(Scan { datasource: ds, projection: Vec::new() }) })
    }

    /// Appends a projection step.
    pub fn projection(&self, expr: Vec<LogicalExprs>) -> (r: Result<Dataframe, ZakuError>)
        requires
            self.wf(),
            forall|k: int| 0 <= k < expr@.len() ==> (#[trigger] expr@[k]).wf_lexpr(),
        ensures
            match r {
                Ok(df) => df.wf() && (df.plan matches LogicalPlans::Projection(p) && p.expr@
                    == expr@ && p.input.out_lfields() == self.plan.out_lfields()),
                Err(e) => e is ResolutionError && exists|k: int|
                    0 <= k < expr@.len() && bad_plain_expr(
                        #[trigger] expr@[k],
                        self.plan.out_lfields(),
                    ),
            },
    {
        match Projection::new(self.plan.duplicate(), expr) {
            Ok(p) => Ok(Dataframe { plan: LogicalPlans::Projection(p) }),
            Err(e) => Err(e),
        }
    }

    /// Appends a filter step.
    pub fn filter(&self, expr: LogicalExprs) -> (r: Result<Dataframe, ZakuError>)
        requires
            self.wf(),
            expr.wf_lexpr(),
        ensures
            match r {
                Ok(df) => df.wf() && df.plan.out_lfields() == self.plan.out_lfields() && (
                df.plan matches LogicalPlans::Filter(f) && f.expr == expr),
                Err(e) => e is ResolutionError,
            },
            r is Ok <==> !bad_predicate(expr, self.plan.out_lfields()),
    {
        match Filter::new(self.plan.duplicate(), expr) {
            Ok(f) => Ok(Dataframe { plan: LogicalPlans::Filter(f) }),
            Err(e) => Err(e),
        }
    }

    /// Appends a row-count limit.
    pub fn limit(&self, limit: usize) -> (r: Result<Dataframe, ZakuError>)
        requires
            self.wf(),
        ensures
            match r {
                Ok(df) => df.wf() && df.plan.out_lfields() == self.plan.out_lfields() && (
                df.plan matches LogicalPlans::Limit(l) && l.limit == limit),
                Err(_) => false,
            },
    {
        match Limit::new(self.plan.duplicate(), limit) {
            Ok(l) => Ok(Dataframe { plan: LogicalPlans::Limit(l) }),
            Err(e) => Err(e),
        }
    }

    /// Appends a sort step.
    pub fn sort(&self, sort_by: Vec<LogicalExprs>, asc: Vec<bool>) -> (r: Result<
        Dataframe,
        ZakuError,
    >)
        requires
            self.wf(),
            forall|k: int| 0 <= k < sort_by@.len() ==> (#[trigger] sort_by@[k]).wf_lexpr(),
        ensures
            match r {
                Ok(df) => df.wf() && df.plan.out_lfields() == self.plan.out_lfields() && (
                df.plan matches LogicalPlans::Sort(so) && so.keys@ == sort_by@ && so.asc@
                    == asc@),
                Err(e) => e is ResolutionError && (sort_by@.len() != asc@.len() || exists|k: int|
                    0 <= k < sort_by@.len() && bad_plain_expr(
                        #[trigger] sort_by@[k],
                        self.plan.out_lfields(),
                    )),
            },
    {
        match Sort::new(self.plan.duplicate(), sort_by, asc) {
            Ok(s) => Ok(Dataframe { plan: LogicalPlans::Sort(s) }),
            Err(e) => Err(e),
        }
    }

    /// Appends a grouping step: group fields first, then the aggregates.
    pub fn aggregate(&self, group_by: Vec<LogicalExprs>, aggregates: Vec<AggregateExprs>) -> (r:
        Result<Dataframe, ZakuError>)
        requires
            self.wf(),
            forall|k: int| 0 <= k < group_by@.len() ==> (#[trigger] group_by@[k]).wf_lexpr(),
            forall|k: int| 0 <= k < aggregates@.len() ==> (#[trigger] aggregates@[k]).wf_agg(),
        ensures
            r is Ok <==> agg_resolves(group_by@, aggregates@, self.plan.out_lfields()),
            match r {
                Ok(df) => (df.plan matches LogicalPlans::Aggregate(a) && a.group_expr@ == group_by@
                    && a.aggregate_expr@ == aggregates@ && a.input.out_lfields()
                    == self.plan.out_lfields()) && (grouping_wf_conds(
                    group_by@,
                    aggregates@,
                    self.plan.out_lfields(),
                ) ==> df.wf()),
                Err(e) => e is ResolutionError,
            },
    {
        match Aggregate::new(self.plan.duplicate(), group_by, aggregates) {
            Ok(a) => Ok(Dataframe { plan: LogicalPlans::Aggregate(a) }),
            Err(e) => Err(e),
        }
    }

    /// Copies the frame; the copy stays well formed with the same fields
    /// and lowers exactly when the original does.
    pub fn duplicate(&self) -> (r: Dataframe)
        ensures
            self.wf() ==> r.wf(),
            r.plan.out_lfields() == self.plan.out_lfields(),
            crate::logical_plan::plan_lowers(r.plan) == crate::logical_plan::plan_lowers(
                self.plan,
            ),
    {
        Dataframe { plan: self.plan.duplicate() }
    }
}

} // verus!
