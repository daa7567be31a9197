use vstd::prelude::*;

use crate::accumulator::{Accumulators, AggregateExpressions};
use crate::column_vector::Vectors;
use crate::datasource::Datasources;
use crate::error::ZakuError;
use crate::physical_expr::PhysicalExprs;
use crate::record_batch::RecordBatch;
use crate::schema::{select_fields, Field, Schema};
use crate::sorting::{perm_ok, row_le};
use crate::types::{dup_value, val_equiv, Value};

verus! {

/// The table scan at the bottom of a pipeline.
#[derive(Debug)]
pub struct ScanExec {
    pub datasource: Datasources,
    pub projection: Vec<String>,
}

/// Evaluates one expression per output column.
#[derive(Debug)]
pub struct ProjectionExec {
    pub schema: Schema,
    pub input: Box<PhysicalPlans>,
    pub expr: Vec<PhysicalExprs>,
}

/// Keeps the rows whose predicate evaluates to exactly `true`.
#[derive(Debug)]
pub struct FilterExec {
    pub schema: Schema,
    pub input: Box<PhysicalPlans>,
    pub expr: PhysicalExprs,
}

/// Emits rows until the limit is reached.
#[derive(Debug)]
pub struct LimitExec {
    pub schema: Schema,
    pub input: Box<PhysicalPlans>,
    pub limit: usize,
}

/// Drains its input and emits it in sorted order.
#[derive(Debug)]
pub struct SortExec {
    pub schema: Schema,
    pub input: Box<PhysicalPlans>,
    pub sort_keys: Vec<PhysicalExprs>,
    pub asc: Vec<bool>,
}

/// Drains its input, grouping rows by key and folding the aggregates.
#[derive(Debug)]
pub struct HashAggregateExec {
    pub input: Box<PhysicalPlans>,
    pub group_expr: Vec<PhysicalExprs>,
    pub aggr_expr: Vec<AggregateExpressions>,
    pub schema: Schema,
}

/// A streaming operator tree.
#[derive(Debug)]
pub enum PhysicalPlans {
    Scan(ScanExec),
    Projection(ProjectionExec),
    Filter(FilterExec),
    Limit(LimitExec),
    HashAggregate(HashAggregateExec),
    Sort(SortExec),
}

/// The datatype an aggregate column carries: counting and averaging always
/// yield numbers; a minimum or maximum keeps its input type.
pub open spec fn aggr_out_dtype(a: AggregateExpressions, fields: Seq<Field>) -> crate::types::DataType {
    match a {
        AggregateExpressions::Count(_) => crate::types::DataType::Number,
        AggregateExpressions::Sum(_) => crate::types::DataType::Number,
        AggregateExpressions::Avg(_) => crate::types::DataType::Number,
        AggregateExpressions::Min(e) => e.out_dtype(fields),
        AggregateExpressions::Max(e) => e.out_dtype(fields),
    }
}

impl PhysicalPlans {
    /// The fields of the batches this operator emits.
    pub open spec fn out_fields(self) -> Seq<Field>
        decreases self,
    {
        match self {
            PhysicalPlans::Scan(s) => if s.projection@.len() == 0 {
                s.datasource.schema_spec().fields@
            } else {
                select_fields(
                    s.datasource.schema_spec().fields@,
                    s.projection@.map_values(|n: String| n@),
                )
            },
            PhysicalPlans::Projection(p) => p.schema.fields@,
            PhysicalPlans::Filter(f) => f.schema.fields@,
            PhysicalPlans::Limit(l) => l.schema.fields@,
            PhysicalPlans::HashAggregate(h) => h.schema.fields@,
            PhysicalPlans::Sort(s) => s.schema.fields@,
        }
    }

    /// Structural well-formedness of the operator tree: every node's schema
    /// agrees with its child, and every expression is typed and in bounds.
    pub open spec fn wf_plan(self) -> bool
        decreases self,
    {
        match self {
            PhysicalPlans::Scan(s) => s.datasource.wf(),
            PhysicalPlans::Projection(p) => {
                &&& p.input.wf_plan()
                &&& p.schema.fields@.len() == p.expr@.len()
                &&& forall|k: int|
                    0 <= k < p.expr@.len() ==> (#[trigger] p.expr@[k]).bounds_ok(
                        p.input.out_fields().len() as int,
                    ) && p.expr@[k].wf_expr()
                &&& forall|k: int|
                    0 <= k < p.expr@.len() ==> (#[trigger] p.schema.fields@[k]).datatype
                        == p.expr@[k].out_dtype(p.input.out_fields())
            },
            PhysicalPlans::Filter(f) => {
                &&& f.input.wf_plan()
                &&& f.expr.bounds_ok(f.input.out_fields().len() as int)
                &&& f.expr.wf_expr()
                &&& f.schema.fields@ == f.input.out_fields()
            },
            PhysicalPlans::Limit(l) => {
                &&& l.input.wf_plan()
                &&& l.schema.fields@ == l.input.out_fields()
            },
            PhysicalPlans::HashAggregate(h) => {
                &&& h.input.wf_plan()
                &&& forall|k: int|
                    0 <= k < h.group_expr@.len() ==> (#[trigger] h.group_expr@[k]).bounds_ok(
                        h.input.out_fields().len() as int,
                    ) && h.group_expr@[k].wf_expr()
                &&& forall|k: int|
                    0 <= k < h.aggr_expr@.len() ==> (#[trigger] h.aggr_expr@[k]).input_spec().bounds_ok(
                        h.input.out_fields().len() as int,
                    ) && h.aggr_expr@[k].input_spec().wf_expr()
                &&& h.schema.fields@.len() == h.group_expr@.len() + h.aggr_expr@.len()
                &&& h.schema.fields@.len() >= 1
                &&& forall|k: int|
                    0 <= k < h.group_expr@.len() ==> (#[trigger] h.schema.fields@[k]).datatype
                        == h.group_expr@[k].out_dtype(h.input.out_fields())
                &&& forall|k: int|
                    0 <= k < h.aggr_expr@.len() ==> h.schema.fields@[h.group_expr@.len() + k].datatype
                        == aggr_out_dtype(#[trigger] h.aggr_expr@[k], h.input.out_fields())
            },
            PhysicalPlans::Sort(s) => {
                &&& s.input.wf_plan()
                &&& forall|k: int|
                    0 <= k < s.sort_keys@.len() ==> (#[trigger] s.sort_keys@[k]).bounds_ok(
                        s.input.out_fields().len() as int,
                    ) && s.sort_keys@[k].wf_expr()
                &&& s.sort_keys@.len() == s.asc@.len()
                &&& s.schema.fields@ == s.input.out_fields()
            },
        }
    }
}

/// A batch stream is well formed under the given fields.
pub open spec fn batches_wf(bs: Seq<RecordBatch>, fields: Seq<Field>) -> bool {
    forall|k: int|
        0 <= k < bs.len() ==> (#[trigger] bs[k]).wf() && bs[k].schema.fields@ == fields
}

/// The total number of rows across a batch stream.
pub open spec fn total_rows(bs: Seq<RecordBatch>) -> nat
    decreases bs.len(),
{
    if bs.len() == 0 {
        0
    } else {
        total_rows(bs.drop_last()) + bs.last().nrows()
    }
}

/// The values of column `c` across a whole batch stream, in row order.
pub open spec fn flat_col(bs: Seq<RecordBatch>, c: int) -> Seq<Value>
    decreases bs.len(),
{
    if bs.len() == 0 {
        Seq::empty()
    } else {
        flat_col(bs.drop_last(), c) + bs.last().columns@[c].view_seq()
    }
}

/// Evaluating the expression hits a type error on some row of the batch.
pub open spec fn expr_errs_on(e: PhysicalExprs, b: RecordBatch) -> bool {
    exists|i: int| 0 <= i < b.nrows() && e.eval_errs(b, i)
}

/// Some listed expression errs on some batch of the stream.
pub open spec fn stream_expr_err(exprs: Seq<PhysicalExprs>, bs: Seq<RecordBatch>) -> bool {
    exists|k: int, c: int|
        0 <= k < bs.len() && 0 <= c < exprs.len() && #[trigger] expr_errs_on(exprs[c], bs[k])
}

/// What a scan emits: one batch per source batch, its columns narrowed to
/// the selected positions when a projection is given.
pub open spec fn scan_emits(s: ScanExec, out: Seq<RecordBatch>) -> bool {
    let src = s.datasource.data_spec();
    let fs = s.datasource.schema_spec().fields@;
    &&& batches_wf(out, PhysicalPlans::Scan(s).out_fields())
    &&& out.len() == src.len()
    &&& if s.projection@.len() == 0 {
        forall|k: int|
            0 <= k < out.len() ==> (#[trigger] out[k]).nrows() == src[k].nrows()
                && out[k].columns@.len() == src[k].columns@.len() && (forall|c: int|
                0 <= c < out[k].columns@.len() ==> (#[trigger] out[k].columns@[c]).view_seq()
                    == src[k].columns@[c].view_seq())
    } else {
        let idxs = crate::schema::selected_indices(
            fs,
            s.projection@.map_values(|n: String| n@),
        );
        forall|k: int|
            0 <= k < out.len() ==> (#[trigger] out[k]).columns@.len() == idxs.len() && (forall|
                c: int,
            |
                0 <= c < idxs.len() ==> (#[trigger] out[k].columns@[c]).view_seq()
                    == src[k].columns@[idxs[c]].view_seq())
    }
}

/// What a projection emits: per input batch, one output batch of the same
/// row count whose column `c` holds expression `c` evaluated at each row.
pub open spec fn projection_emits(
    p: ProjectionExec,
    mid: Seq<RecordBatch>,
    out: Seq<RecordBatch>,
) -> bool {
    &&& batches_wf(out, p.schema.fields@)
    &&& out.len() == mid.len()
    &&& (p.expr@.len() > 0 ==> forall|k: int|
        0 <= k < out.len() ==> (#[trigger] out[k]).nrows() == mid[k].nrows())
    &&& forall|k: int, c: int, i: int|
        0 <= k < out.len() && 0 <= c < p.expr@.len() && 0 <= i < mid[k].nrows()
            ==> #[trigger] p.expr@[c].eval_ok(mid[k], i, out[k].columns@[c].view_seq()[i])
}

/// One filtered batch: exactly the rows where the predicate is `true`, in
/// their original order.
pub open spec fn filter_keeps(f: FilterExec, b: RecordBatch, ob: RecordBatch) -> bool {
    let kept = kept_upto(f.expr, b, b.nrows() as int);
    &&& ob.columns@.len() == b.columns@.len()
    &&& ob.nrows() == kept.len()
    &&& forall|c: int, t: int|
        0 <= c < ob.columns@.len() && 0 <= t < kept.len() ==> #[trigger] ob.columns@[c].view_seq()[
        t] == b.columns@[c].view_seq()[kept[t]]
}

/// What a filter emits: each input batch filtered to its kept rows.
pub open spec fn filter_emits(f: FilterExec, mid: Seq<RecordBatch>, out: Seq<RecordBatch>) -> bool {
    &&& batches_wf(out, f.schema.fields@)
    &&& out.len() == mid.len()
    &&& forall|k: int| 0 <= k < out.len() ==> filter_keeps(f, mid[k], #[trigger] out[k])
}

/// What a limit emits: the prefix of the stream holding the first
/// `min(limit, total)` rows; a zero limit is one empty batch.
pub open spec fn limit_emits(l: LimitExec, mid: Seq<RecordBatch>, out: Seq<RecordBatch>) -> bool {
    &&& batches_wf(out, l.schema.fields@)
    &&& total_rows(out) == (if l.limit as nat <= total_rows(mid) {
        l.limit as nat
    } else {
        total_rows(mid)
    })
    &&& forall|c: int|
        0 <= c < l.schema.fields@.len() ==> #[trigger] flat_col(out, c) == flat_col(mid, c).take(
            total_rows(out) as int,
        )
    &&& (l.limit == 0 ==> out.len() == 1 && out[0].nrows() == 0)
}

impl ScanExec {
    /// Emits the source's batches, narrowed to the projected columns when a
    /// projection is given.
    pub fn execute(&self) -> (r: Result<Vec<RecordBatch>, ZakuError>)
        requires
            self.datasource.wf(),
        ensures
            match r {
                Ok(bs) => scan_emits(*self, bs@),
                Err(_) => false,
            },
    {
        let src = self.datasource.get_data();
        if self.projection.len() == 0 {
            let mut out: Vec<RecordBatch> = Vec::new();
            let mut k: usize = 0;
            while k < src.len()
                invariant
                    self.datasource.wf(),
                    src@ == self.datasource.data_spec(),
                    k <= src@.len(),
                    out@.len() == k,
                    forall|q: int|
                        0 <= q < k ==> (#[trigger] out@[q]).wf() && out@[q].schema.fields@
                            == self.datasource.schema_spec().fields@ && out@[q].nrows()
                            == src@[q].nrows() && out@[q].columns@.len() == src@[q].columns@.len()
                            && (forall|c: int|
                            0 <= c < out@[q].columns@.len() ==> (
                            #[trigger] out@[q].columns@[c]).view_seq()
                                == src@[q].columns@[c].view_seq()),
                decreases src@.len() - k,
            {
                out.push(src[k].duplicate());
                k = k + 1;
            }
            Ok(out)
        } else {
            // resolve the projected columns once, dropping unknown names
            let source_schema = self.datasource.schema();
            let mut indices: Vec<usize> = Vec::new();
            let mut t: usize = 0;
            let ghost names = self.projection@.map_values(|n: String| n@);
            let ghost src_fields = self.datasource.schema_spec().fields@;
            proof {
                assert(names.skip(0) =~= names);
                assert(indices@.map_values(|i: usize| src_fields[i as int]) =~= Seq::<
                    Field,
                >::empty());
                assert(indices@.map_values(|i: usize| i as int) =~= Seq::<int>::empty());
                assert(Seq::<Field>::empty() + select_fields(src_fields, names) =~= select_fields(
                    src_fields,
                    names,
                ));
                assert(Seq::<int>::empty() + crate::schema::selected_indices(src_fields, names)
                    =~= crate::schema::selected_indices(src_fields, names));
            }
            while t < self.projection.len()
                invariant
                    src_fields == self.datasource.schema_spec().fields@,
                    names == self.projection@.map_values(|n: String| n@),
                    *source_schema == self.datasource.schema_spec(),
                    t <= self.projection@.len(),
                    select_fields(src_fields, names) == indices@.map_values(
                        |i: usize| src_fields[i as int],
                    ) + select_fields(src_fields, names.skip(t as int)),
                    crate::schema::selected_indices(src_fields, names) == indices@.map_values(
                        |i: usize| i as int,
                    ) + crate::schema::selected_indices(src_fields, names.skip(t as int)),
                    forall|q: int|
                        0 <= q < indices@.len() ==> (#[trigger] indices@[q] as int)
                            < src_fields.len(),
                decreases self.projection@.len() - t,
            {
                let ghost before = indices@;
                match source_schema.get_index(&self.projection[t]) {
                    Ok(i) => {
                        indices.push(i);
                        proof {
                            crate::schema::lemma_first_match(src_fields, names[t as int]);
                        }
                    },
                    Err(_) => {},
                }
                proof {
                    let rest = names.skip(t as int);
                    assert(rest[0] == names[t as int]);
                    assert(rest.skip(1) =~= names.skip(t + 1));
                    match crate::schema::first_match(src_fields, names[t as int]) {
                        Some(j) => {
                            assert(indices@ =~= before.push(j as usize));
                            assert(indices@.map_values(|i: usize| src_fields[i as int])
                                =~= before.map_values(|i: usize| src_fields[i as int]) + seq![
                                src_fields[j],
                            ]);
                            assert(indices@.map_values(|i: usize| i as int) =~= before.map_values(
                                |i: usize| i as int,
                            ) + seq![j]);
                            assert(select_fields(src_fields, rest) == seq![src_fields[j]]
                                + select_fields(src_fields, rest.skip(1)));
                            assert(crate::schema::selected_indices(src_fields, rest) == seq![j]
                                + crate::schema::selected_indices(src_fields, rest.skip(1)));
                        },
                        None => {
                            assert(select_fields(src_fields, rest) == select_fields(
                                src_fields,
                                rest.skip(1),
                            ));
                            assert(crate::schema::selected_indices(src_fields, rest)
                                == crate::schema::selected_indices(src_fields, rest.skip(1)));
                        },
                    }
                }
                t = t + 1;
            }
            proof {
                assert(names.skip(self.projection@.len() as int) =~= Seq::<Seq<char>>::empty());
                assert(select_fields(src_fields, names.skip(self.projection@.len() as int))
                    =~= Seq::<Field>::empty());
                assert(crate::schema::selected_indices(
                    src_fields,
                    names.skip(self.projection@.len() as int),
                ) =~= Seq::<int>::empty());
                assert(select_fields(src_fields, names) =~= indices@.map_values(
                    |i: usize| src_fields[i as int],
                ));
                assert(crate::schema::selected_indices(src_fields, names) =~= indices@.map_values(
                    |i: usize| i as int,
                ));
            }
            let out_schema = source_schema.select(&self.projection);
            let mut out: Vec<RecordBatch> = Vec::new();
            let mut k: usize = 0;
            while k < src.len()
                invariant
                    self.datasource.wf(),
                    src@ == self.datasource.data_spec(),
                    src_fields == self.datasource.schema_spec().fields@,
                    out_schema.fields@ == select_fields(src_fields, names),
                    select_fields(src_fields, names) == indices@.map_values(
                        |i: usize| src_fields[i as int],
                    ),
                    forall|q: int|
                        0 <= q < indices@.len() ==> (#[trigger] indices@[q] as int)
                            < src_fields.len(),
                    k <= src@.len(),
                    out@.len() == k,
                    forall|q: int|
                        0 <= q < k ==> (#[trigger] out@[q]).wf() && out@[q].schema.fields@
                            == select_fields(src_fields, names) && out@[q].columns@.len()
                            == indices@.len() && (forall|c: int|
                            0 <= c < indices@.len() ==> (#[trigger] out@[q].columns@[c]).view_seq()
                                == src@[q].columns@[indices@[c] as int].view_seq()),
                decreases src@.len() - k,
            {
                let batch = &src[k];
                let mut columns: Vec<Vectors> = Vec::new();
                let mut c: usize = 0;
                while c < indices.len()
                    invariant
                        self.datasource.wf(),
                        src@ == self.datasource.data_spec(),
                        src_fields == self.datasource.schema_spec().fields@,
                        k < src@.len(),
                        batch == &src@[k as int],
                        forall|q: int|
                            0 <= q < indices@.len() ==> (#[trigger] indices@[q] as int)
                                < src_fields.len(),
                        c <= indices@.len(),
                        columns@.len() == c,
                        forall|q: int|
                            0 <= q < c ==> (#[trigger] columns@[q]).wf() && columns@[q].dtype()
                                == src_fields[indices@[q] as int].datatype
                                && columns@[q].view_seq().len() == batch.nrows()
                                && columns@[q].view_seq() == batch.columns@[
                                indices@[q] as int].view_seq(),
                    decreases indices@.len() - c,
                {
                    proof {
                        assert(src@[k as int].wf());
                        assert(src@[k as int].schema.fields@ == src_fields);
                    }
                    columns.push(batch.columns[indices[c]].duplicate());
                    c = c + 1;
                }
                let rb = RecordBatch { schema: out_schema.duplicate(), columns };
                proof {
                    assert(rb.wf()) by {
                        assert(rb.schema.fields@ == indices@.map_values(
                            |i: usize| src_fields[i as int],
                        ));
                        if rb.columns@.len() > 0 {
                            assert(rb.columns@[0].view_seq().len() == src@[k as int].nrows());
                        }
                        assert forall|j: int| 0 <= j < rb.columns@.len() implies (
                        #[trigger] rb.columns@[j]).dtype() == rb.schema.fields@[j].datatype by {
                            assert(rb.schema.fields@[j] == src_fields[indices@[j] as int]);
                        }
                    }
                }
                out.push(rb);
                k = k + 1;
            }
            proof {
                assert(scan_emits(*self, out@));
            }
            Ok(out)
        }
    }
}


impl ProjectionExec {
    /// Projects one batch: one output column per expression, each the row
    /// count of the input batch.
    pub fn project_batch(&self, batch: &RecordBatch) -> (r: Result<RecordBatch, ZakuError>)
        requires
            batch.wf(),
            batch.schema.fields@ == self.input.out_fields(),
            self.schema.fields@.len() == self.expr@.len(),
            forall|k: int|
                0 <= k < self.expr@.len() ==> (#[trigger] self.expr@[k]).bounds_ok(
                    self.input.out_fields().len() as int,
                ) && self.expr@[k].wf_expr(),
            forall|k: int|
                0 <= k < self.expr@.len() ==> (#[trigger] self.schema.fields@[k]).datatype
                    == self.expr@[k].out_dtype(self.input.out_fields()),
        ensures
            match r {
                Ok(b) => {
                    &&& b.wf()
                    &&& b.schema.fields@ == self.schema.fields@
                    &&& self.expr@.len() > 0 ==> b.nrows() == batch.nrows()
                    &&& forall|c: int, i: int|
                        0 <= c < self.expr@.len() && 0 <= i < batch.nrows()
                            ==> #[trigger] self.expr@[c].eval_ok(
                            *batch,
                            i,
                            b.columns@[c].view_seq()[i],
                        )
                },
                Err(e) => e is TypeError && exists|c: int|
                    0 <= c < self.expr@.len() && expr_errs_on(#[trigger] self.expr@[c], *batch),
            },
    {
        let mut columns: Vec<Vectors> = Vec::new();
        let mut c: usize = 0;
        while c < self.expr.len()
            invariant
                batch.wf(),
                batch.schema.fields@ == self.input.out_fields(),
                self.schema.fields@.len() == self.expr@.len(),
                forall|k: int|
                    0 <= k < self.expr@.len() ==> (#[trigger] self.expr@[k]).bounds_ok(
                        self.input.out_fields().len() as int,
                    ) && self.expr@[k].wf_expr(),
                forall|k: int|
                    0 <= k < self.expr@.len() ==> (#[trigger] self.schema.fields@[k]).datatype
                        == self.expr@[k].out_dtype(self.input.out_fields()),
                c <= self.expr@.len(),
                columns@.len() == c,
                forall|k: int|
                    0 <= k < c ==> (#[trigger] columns@[k]).wf() && columns@[k].dtype()
                        == self.schema.fields@[k].datatype && columns@[k].view_seq().len()
                        == batch.nrows() && (forall|i: int|
                        0 <= i < batch.nrows() ==> self.expr@[k].eval_ok(
                            *batch,
                            i,
                            #[trigger] columns@[k].view_seq()[i],
                        )),
            decreases self.expr@.len() - c,
        {
            match self.expr[c].evaluate(batch) {
                Ok(col) => {
                    columns.push(col);
                },
                Err(e) => {
                    proof {
                        assert(expr_errs_on(self.expr@[c as int], *batch));
                    }
                    return Err(e);
                },
            }
            c = c + 1;
        }
        let b = RecordBatch { schema: self.schema.duplicate(), columns };
        proof {
            if self.expr@.len() > 0 {
                assert(b.columns@[0].view_seq().len() == batch.nrows());
            }
        }
        Ok(b)
    }

    /// Projects every batch of the input stream; the row count of each batch
    /// is preserved.
    pub fn project_batches(&self, input: &Vec<RecordBatch>) -> (r: Result<
        Vec<RecordBatch>,
        ZakuError,
    >)
        requires
            batches_wf(input@, self.input.out_fields()),
            self.schema.fields@.len() == self.expr@.len(),
            forall|k: int|
                0 <= k < self.expr@.len() ==> (#[trigger] self.expr@[k]).bounds_ok(
                    self.input.out_fields().len() as int,
                ) && self.expr@[k].wf_expr(),
            forall|k: int|
                0 <= k < self.expr@.len() ==> (#[trigger] self.schema.fields@[k]).datatype
                    == self.expr@[k].out_dtype(self.input.out_fields()),
        ensures
            match r {
                Ok(bs) => projection_emits(*self, input@, bs@),
                Err(e) => e is TypeError && stream_expr_err(self.expr@, input@),
            },
    {
        let mut out: Vec<RecordBatch> = Vec::new();
        let mut k: usize = 0;
        while k < input.len()
            invariant
                batches_wf(input@, self.input.out_fields()),
                self.schema.fields@.len() == self.expr@.len(),
                forall|q: int|
                    0 <= q < self.expr@.len() ==> (#[trigger] self.expr@[q]).bounds_ok(
                        self.input.out_fields().len() as int,
                    ) && self.expr@[q].wf_expr(),
                forall|q: int|
                    0 <= q < self.expr@.len() ==> (#[trigger] self.schema.fields@[q]).datatype
                        == self.expr@[q].out_dtype(self.input.out_fields()),
                k <= input@.len(),
                out@.len() == k,
                batches_wf(out@, self.schema.fields@),
                self.expr@.len() > 0 ==> forall|q: int|
                    0 <= q < k ==> (#[trigger] out@[q]).nrows() == input@[q].nrows(),
                forall|q: int, c: int, i: int|
                    0 <= q < k && 0 <= c < self.expr@.len() && 0 <= i < input@[q].nrows()
                        ==> #[trigger] self.expr@[c].eval_ok(
                        input@[q],
                        i,
                        out@[q].columns@[c].view_seq()[i],
                    ),
            decreases input@.len() - k,
        {
            match self.project_batch(&input[k]) {
                Ok(b) => {
                    out.push(b);
                },
                Err(e) => {
                    proof {
                        let c = choose|c: int|
                            0 <= c < self.expr@.len() && expr_errs_on(
                                #[trigger] self.expr@[c],
                                input@[k as int],
                            );
                        assert(expr_errs_on(self.expr@[c], input@[k as int]));
                    }
                    return Err(e);
                },
            }
            k = k + 1;
        }
        proof {
            assert(projection_emits(*self, input@, out@));
        }
        Ok(out)
    }
}

/// Whether the filter keeps row `i` of the batch: the predicate evaluates to
/// exactly the boolean `true` there.
pub open spec fn keeps(pred: PhysicalExprs, b: RecordBatch, i: int) -> bool {
    pred.eval_ok(b, i, Value::Boolean(true))
}

/// The kept row positions among the first `n` rows, in order.
pub open spec fn kept_upto(pred: PhysicalExprs, b: RecordBatch, n: int) -> Seq<int>
    decreases n,
{
    if n <= 0 {
        Seq::empty()
    } else {
        kept_upto(pred, b, n - 1) + (if keeps(pred, b, n - 1) {
            seq![n - 1]
        } else {
            Seq::empty()
        })
    }
}

/// There are at most `n` kept rows among the first `n`.
pub proof fn lemma_kept_upto_len(pred: PhysicalExprs, b: RecordBatch, n: int)
    ensures
        kept_upto(pred, b, n).len() <= (if n >= 0 { n } else { 0 }),
    decreases n,
{
    if n > 0 {
        lemma_kept_upto_len(pred, b, n - 1);
    }
}

impl FilterExec {
    /// Filters one batch, keeping exactly the rows where the predicate is
    /// `true`, in their original order.
    pub fn filter_batch(&self, batch: &RecordBatch) -> (r: Result<RecordBatch, ZakuError>)
        requires
            batch.wf(),
            batch.schema.fields@ == self.input.out_fields(),
            self.expr.bounds_ok(self.input.out_fields().len() as int),
            self.expr.wf_expr(),
            self.schema.fields@ == self.input.out_fields(),
        ensures
            match r {
                Ok(b) => {
                    &&& b.wf()
                    &&& b.schema.fields@ == self.schema.fields@
                    &&& b.nrows() <= batch.nrows()
                    &&& filter_keeps(*self, *batch, b)
                },
                Err(e) => e is TypeError && expr_errs_on(self.expr, *batch),
            },
    {
        let n = batch.row_count();
        let pcol = match self.expr.evaluate(batch) {
            Ok(col) => col,
            Err(e) => {
                return Err(e);
            },
        };
        proof {
            assert(pcol.view_seq().len() == batch.nrows());
        }
        // the kept row positions
        let mut rows: Vec<usize> = Vec::new();
        let mut i: usize = 0;
        while i < n
            invariant
                batch.wf(),
                n as nat == batch.nrows(),
                pcol.view_seq().len() == n as nat,
                forall|q: int|
                    0 <= q < n ==> self.expr.eval_ok(*batch, q, #[trigger] pcol.view_seq()[q]),
                i <= n,
                rows@.map_values(|x: usize| x as int) == kept_upto(self.expr, *batch, i as int),
                forall|q: int| 0 <= q < rows@.len() ==> (#[trigger] rows@[q] as int) < n,
            decreases n - i,
        {
            let keep_row = match pcol.get_value(&i) {
                Value::Boolean(bv) => *bv,
                _ => false,
            };
            proof {
                if keep_row {
                    assert(keeps(self.expr, *batch, i as int));
                } else {
                    if keeps(self.expr, *batch, i as int) {
                        crate::physical_expr::lemma_eval_det(
                            self.expr,
                            *batch,
                            i as int,
                            pcol.view_seq()[i as int],
                            Value::Boolean(true),
                        );
                        assert(false);
                    }
                }
            }
            let ghost before = rows@;
            if keep_row {
                rows.push(i);
            }
            proof {
                if keep_row {
                    assert(rows@.map_values(|x: usize| x as int) =~= before.map_values(
                        |x: usize| x as int,
                    ) + seq![i as int]);
                } else {
                    assert(kept_upto(self.expr, *batch, i + 1) =~= kept_upto(
                        self.expr,
                        *batch,
                        i as int,
                    ));
                }
                assert(kept_upto(self.expr, *batch, i + 1) =~= kept_upto(self.expr, *batch, i as int)
                    + (if keeps(self.expr, *batch, i as int) {
                    seq![i as int]
                } else {
                    Seq::<int>::empty()
                }));
            }
            i = i + 1;
        }
        // rebuild every column over the kept rows
        let ghost kept = kept_upto(self.expr, *batch, n as int);
        let mut columns: Vec<Vectors> = Vec::new();
        let mut c: usize = 0;
        while c < batch.columns.len()
            invariant
                batch.wf(),
                n as nat == batch.nrows(),
                kept == kept_upto(self.expr, *batch, n as int),
                rows@.map_values(|x: usize| x as int) == kept,
                forall|q: int| 0 <= q < rows@.len() ==> (#[trigger] rows@[q] as int) < n,
                c <= batch.columns@.len(),
                columns@.len() == c,
                forall|q: int|
                    0 <= q < c ==> (#[trigger] columns@[q]).wf() && columns@[q].dtype()
                        == batch.columns@[q].dtype() && columns@[q].view_seq().len() == kept.len()
                        && (forall|t: int|
                        0 <= t < kept.len() ==> #[trigger] columns@[q].view_seq()[t]
                            == batch.columns@[q].view_seq()[kept[t]]),
            decreases batch.columns@.len() - c,
        {
            let col = &batch.columns[c];
            let mut values: Vec<Value> = Vec::new();
            let mut t: usize = 0;
            while t < rows.len()
                invariant
                    batch.wf(),
                    n as nat == batch.nrows(),
                    c < batch.columns@.len(),
                    col == &batch.columns@[c as int],
                    rows@.map_values(|x: usize| x as int) == kept,
                    forall|q: int| 0 <= q < rows@.len() ==> (#[trigger] rows@[q] as int) < n,
                    t <= rows@.len(),
                    values@.len() == t,
                    forall|q: int|
                        0 <= q < t ==> #[trigger] values@[q] == batch.columns@[c as int].view_seq()[
                        kept[q]],
                decreases rows@.len() - t,
            {
                values.push(dup_value(col.get_value(&rows[t])));
                proof {
                    assert(kept[t as int] == rows@[t as int] as int);
                }
                t = t + 1;
            }
            columns.push(
                Vectors::ColumnVector(
                    crate::column_vector::ColumnVector { datatype: *col.get_type(), values },
                ),
            );
            c = c + 1;
        }
        let b = RecordBatch { schema: self.schema.duplicate(), columns };
        proof {
            lemma_kept_upto_len(self.expr, *batch, n as int);
            assert(b.schema.fields@ == batch.schema.fields@);
            if b.columns@.len() > 0 {
                assert(b.columns@[0].view_seq().len() == kept.len());
            }
            assert(b.wf()) by {
                assert forall|j: int| 0 <= j < b.columns@.len() implies (
                #[trigger] b.columns@[j]).wf() && b.columns@[j].dtype()
                    == b.schema.fields@[j].datatype && b.columns@[j].view_seq().len()
                    == b.nrows() by {
                    assert(batch.columns@[j].dtype() == batch.schema.fields@[j].datatype);
                }
            }
        }
        Ok(b)
    }
}


/// A flat column has one value per row of the stream.
pub proof fn lemma_flat_len(bs: Seq<RecordBatch>, fields: Seq<Field>, c: int)
    requires
        batches_wf(bs, fields),
        0 <= c < fields.len(),
    ensures
        flat_col(bs, c).len() == total_rows(bs),
    decreases bs.len(),
{
    if bs.len() > 0 {
        assert(batches_wf(bs.drop_last(), fields)) by {
            assert(forall|k: int|
                0 <= k < bs.drop_last().len() ==> bs.drop_last()[k] == bs[k]);
        }
        lemma_flat_len(bs.drop_last(), fields, c);
        assert(bs.last().columns@[c].view_seq().len() == bs.last().nrows());
    }
}

/// A prefix of the stream carries a prefix of each flat column.
pub proof fn lemma_flat_prefix(bs: Seq<RecordBatch>, fields: Seq<Field>, c: int, k: int)
    requires
        batches_wf(bs, fields),
        0 <= c < fields.len(),
        0 <= k <= bs.len(),
    ensures
        total_rows(bs.take(k)) <= total_rows(bs),
        flat_col(bs.take(k), c) == flat_col(bs, c).take(total_rows(bs.take(k)) as int),
    decreases bs.len(),
{
    if k == bs.len() {
        assert(bs.take(k) =~= bs);
        lemma_flat_len(bs, fields, c);
        assert(flat_col(bs, c).take(total_rows(bs) as int) =~= flat_col(bs, c));
    } else {
        assert(batches_wf(bs.drop_last(), fields)) by {
            assert(forall|q: int|
                0 <= q < bs.drop_last().len() ==> bs.drop_last()[q] == bs[q]);
        }
        assert(bs.take(k) =~= bs.drop_last().take(k));
        lemma_flat_prefix(bs.drop_last(), fields, c, k);
        lemma_flat_len(bs.drop_last(), fields, c);
        assert(flat_col(bs, c) == flat_col(bs.drop_last(), c) + bs.last().columns@[c].view_seq());
        assert(flat_col(bs, c).take(total_rows(bs.take(k)) as int) =~= flat_col(
            bs.drop_last(),
            c,
        ).take(total_rows(bs.take(k)) as int));
    }
}

/// A prefix of the stream has no more rows than the whole.
pub proof fn lemma_total_prefix(bs: Seq<RecordBatch>, k: int)
    requires
        0 <= k <= bs.len(),
    ensures
        total_rows(bs.take(k)) <= total_rows(bs),
    decreases bs.len(),
{
    if k == bs.len() {
        assert(bs.take(k) =~= bs);
    } else {
        assert(bs.take(k) =~= bs.drop_last().take(k));
        lemma_total_prefix(bs.drop_last(), k);
    }
}

impl LimitExec {
    /// Emits rows from the input until `limit` rows have been delivered:
    /// each flat output column is the prefix of the matching input column of
    /// length `min(limit, input rows)`. A zero limit emits one empty batch.
    pub fn limit_batches(&self, input: &Vec<RecordBatch>) -> (r: Result<Vec<RecordBatch>, ZakuError>)
        requires
            batches_wf(input@, self.schema.fields@),
        ensures
            match r {
                Ok(bs) => limit_emits(*self, input@, bs@),
                Err(_) => false,
            },
    {
        let ghost fields = self.schema.fields@;
        let mut out: Vec<RecordBatch> = Vec::new();
        if self.limit == 0 {
            let mut columns: Vec<Vectors> = Vec::new();
            let mut c: usize = 0;
            let schema = self.schema.duplicate();
            while c < schema.fields.len()
                invariant
                    schema.fields@ == fields,
                    c <= fields.len(),
                    columns@.len() == c,
                    forall|q: int|
                        0 <= q < c ==> (#[trigger] columns@[q]).wf() && columns@[q].dtype()
                            == fields[q].datatype && columns@[q].view_seq().len() == 0,
                decreases fields.len() - c,
            {
                let dt = *schema.fields[c].datatype();
                columns.push(
                    Vectors::ColumnVector(
                        crate::column_vector::ColumnVector { datatype: dt, values: Vec::new() },
                    ),
                );
                c = c + 1;
            }
            let empty = RecordBatch { schema, columns };
            proof {
                assert(empty.wf());
                assert(empty.nrows() == 0) by {
                    if empty.columns@.len() > 0 {
                        assert(empty.columns@[0].view_seq().len() == 0);
                    }
                }
            }
            out.push(empty);
            proof {
                assert(total_rows(Seq::<RecordBatch>::empty()) == 0);
                assert(out@.drop_last() =~= Seq::<RecordBatch>::empty());
                assert(out@.last() == empty);
                assert(total_rows(out@) == 0);
                assert forall|c2: int| 0 <= c2 < fields.len() implies #[trigger] flat_col(out@, c2)
                    =~= flat_col(input@, c2).take(0) by {
                    assert(flat_col(Seq::<RecordBatch>::empty(), c2) =~= Seq::<Value>::empty());
                    assert(flat_col(out@, c2) == flat_col(out@.drop_last(), c2)
                        + out@.last().columns@[c2].view_seq());
                    assert(out@.last().columns@[c2].view_seq().len() == 0);
                }
            }
            return Ok(out);
        }
        let mut counter: usize = self.limit;
        let mut k: usize = 0;
        while k < input.len() && counter > 0
            invariant
                fields == self.schema.fields@,
                batches_wf(input@, fields),
                self.limit > 0,
                k <= input@.len(),
                counter <= self.limit,
                total_rows(out@) + counter == self.limit as nat,
                counter > 0 ==> total_rows(out@) == total_rows(input@.take(k as int)),
                counter == 0 ==> total_rows(out@) == self.limit as nat && total_rows(
                    input@.take(k as int),
                ) >= self.limit as nat,
                batches_wf(out@, fields),
                forall|c: int|
                    0 <= c < fields.len() ==> #[trigger] flat_col(out@, c) == flat_col(
                        input@.take(k as int),
                        c,
                    ).take(total_rows(out@) as int),
            decreases input@.len() - k,
        {
            let batch = &input[k];
            let rows = batch.row_count();
            let take_n: usize = if counter > rows {
                rows
            } else {
                counter
            };
            // build the prefix of this batch
            let mut columns: Vec<Vectors> = Vec::new();
            let mut c: usize = 0;
            while c < batch.columns.len()
                invariant
                    batches_wf(input@, fields),
                    k < input@.len(),
                    batch == &input@[k as int],
                    take_n as nat <= batch.nrows(),
                    c <= batch.columns@.len(),
                    columns@.len() == c,
                    forall|q: int|
                        0 <= q < c ==> (#[trigger] columns@[q]).wf() && columns@[q].dtype()
                            == batch.columns@[q].dtype() && columns@[q].view_seq()
                            == batch.columns@[q].view_seq().take(take_n as int),
                decreases batch.columns@.len() - c,
            {
                let col = &batch.columns[c];
                let mut values: Vec<Value> = Vec::new();
                let mut i: usize = 0;
                while i < take_n
                    invariant
                        batches_wf(input@, fields),
                        k < input@.len(),
                        c < input@[k as int].columns@.len(),
                        col == &input@[k as int].columns@[c as int],
                        take_n as nat <= input@[k as int].nrows(),
                        i <= take_n,
                        values@ == col.view_seq().take(i as int),
                    decreases take_n - i,
                {
                    proof {
                        assert(col.view_seq().len() == input@[k as int].nrows());
                        assert(col.view_seq().take(i + 1) =~= col.view_seq().take(i as int).push(
                            col.view_seq()[i as int],
                        ));
                    }
                    values.push(dup_value(col.get_value(&i)));
                    i = i + 1;
                }
                columns.push(
                    Vectors::ColumnVector(
                        crate::column_vector::ColumnVector {
                            datatype: *col.get_type(),
                            values,
                        },
                    ),
                );
                c = c + 1;
            }
            proof {
                assert(columns@.len() == batch.columns@.len());
                assert(batch.columns@.len() == input@[k as int].columns@.len());
            }
            let piece = RecordBatch { schema: self.schema.duplicate(), columns };
            proof {
                assert(input@[k as int].wf());
                assert(input@[k as int].columns@.len() == fields.len());
                assert(forall|q: int|
                    0 <= q < input@[k as int].columns@.len() ==> (
                    #[trigger] input@[k as int].columns@[q]).view_seq().len()
                        == input@[k as int].nrows());
                assert(take_n as nat <= input@[k as int].nrows());
                assert(piece.columns@.len() == input@[k as int].columns@.len());
                assert(piece.columns@.len() == piece.schema.fields@.len());
                assert(piece.wf()) by {
                    if piece.columns@.len() > 0 {
                        assert(piece.columns@[0].view_seq().len() == take_n as nat);
                    }
                    assert forall|j: int| 0 <= j < piece.columns@.len() implies (
                    #[trigger] piece.columns@[j]).dtype() == piece.schema.fields@[j].datatype by {
                        assert(input@[k as int].columns@[j].dtype()
                            == input@[k as int].schema.fields@[j].datatype);
                    }
                }
                assert(piece.nrows() == take_n as nat) by {
                    if piece.columns@.len() > 0 {
                        assert(piece.columns@[0].view_seq().len() == take_n as nat);
                    }
                }
            }
            let ghost out_before = out@;
            out.push(piece);
            counter = counter - take_n;
            proof {
                assert(out@.drop_last() =~= out_before);
                assert(total_rows(out@) == total_rows(out_before) + take_n as nat);
                assert(input@.take(k + 1).drop_last() =~= input@.take(k as int));
                assert(total_rows(input@.take(k + 1)) == total_rows(input@.take(k as int))
                    + input@[k as int].nrows());
                assert forall|c2: int| 0 <= c2 < fields.len() implies #[trigger] flat_col(out@, c2)
                    =~= flat_col(input@.take(k + 1), c2).take(total_rows(out@) as int) by {
                    assert(flat_col(out@, c2) == flat_col(out_before, c2)
                        + piece.columns@[c2].view_seq());
                    assert(flat_col(input@.take(k + 1), c2) == flat_col(input@.take(k as int), c2)
                        + input@[k as int].columns@[c2].view_seq());
                    assert(batches_wf(input@.take(k as int), fields)) by {
                        assert(forall|q: int|
                            0 <= q < input@.take(k as int).len() ==> input@.take(k as int)[q]
                                == input@[q]);
                    }
                    lemma_flat_len(input@.take(k as int), fields, c2);
                    assert(piece.columns@[c2].view_seq()
                        == input@[k as int].columns@[c2].view_seq().take(take_n as int));
                    assert(input@[k as int].columns@[c2].view_seq().len() == input@[k as int].nrows());
                }
            }
            k = k + 1;
        }
        proof {
            let m = total_rows(out@);
            if counter > 0 {
                // the input ran dry before the limit
                assert(k == input@.len());
                assert(input@.take(k as int) =~= input@);
                assert(m == total_rows(input@));
                assert(m <= self.limit as nat);
            } else {
                assert(m == self.limit as nat);
                assert forall|c2: int| 0 <= c2 < fields.len() implies #[trigger] flat_col(out@, c2)
                    == flat_col(input@, c2).take(m as int) by {
                    lemma_flat_prefix(input@, fields, c2, k as int);
                    assert(flat_col(out@, c2) == flat_col(input@.take(k as int), c2).take(m as int));
                    assert(flat_col(input@.take(k as int), c2) == flat_col(input@, c2).take(
                        total_rows(input@.take(k as int)) as int,
                    ));
                    assert(m <= total_rows(input@.take(k as int)));
                    lemma_total_prefix(input@, k as int);
                    lemma_flat_len(input@, fields, c2);
                    assert(flat_col(input@, c2).take(total_rows(input@.take(k as int)) as int).take(
                        m as int,
                    ) =~= flat_col(input@, c2).take(m as int));
                }
                assert(total_rows(input@.take(k as int)) <= total_rows(input@)) by {
                    lemma_total_prefix(input@, k as int);
                }
                assert(m <= total_rows(input@));
            }
        }
        Ok(out)
    }
}


/// The column positions a list of sort keys names, when every key is a plain
/// column reference.
pub open spec fn sort_key_columns(ks: Seq<PhysicalExprs>) -> Option<Seq<usize>> {
    if forall|k: int| 0 <= k < ks.len() ==> (#[trigger] ks[k]) is Column {
        Some(Seq::new(ks.len(), |k: int| ks[k]->Column_0))
    } else {
        None
    }
}

/// The key row at flat position `t`, read through the given key columns.
pub open spec fn flat_key_row(bs: Seq<RecordBatch>, inds: Seq<usize>, t: int) -> Seq<Value> {
    Seq::new(inds.len(), |q: int| flat_col(bs, inds[q] as int)[t])
}

/// Batches that carve a value sequence into chunks of `BATCH_SIZE` rows
/// flatten back to that sequence.
pub proof fn lemma_chunks_flat(bs: Seq<RecordBatch>, c: int, s: Seq<Value>)
    requires
        forall|k: int|
            0 <= k < bs.len() ==> (#[trigger] bs[k].columns@[c]).view_seq() == s.subrange(
                k * 1024,
                if (k + 1) * 1024 <= s.len() {
                    (k + 1) * 1024
                } else {
                    s.len() as int
                },
            ),
        bs.len() >= 1 ==> (bs.len() - 1) * 1024 <= s.len(),
    ensures
        flat_col(bs, c) == s.subrange(
            0,
            if bs.len() * 1024 <= s.len() {
                bs.len() as int * 1024
            } else {
                s.len() as int
            },
        ),
    decreases bs.len(),
{
    if bs.len() == 0 {
        assert(flat_col(bs, c) =~= s.subrange(0, 0));
    } else {
        let n = bs.len() as int;
        assert(forall|k: int| 0 <= k < bs.drop_last().len() ==> bs.drop_last()[k] == bs[k]);
        lemma_chunks_flat(bs.drop_last(), c, s);
        assert((n - 1) * 1024 == n * 1024 - 1024);
        assert((n - 1) * 1024 <= s.len());
        assert(flat_col(bs.drop_last(), c) == s.subrange(0, (n - 1) * 1024));
        assert(bs.last().columns@[c].view_seq() == s.subrange(
            (n - 1) * 1024,
            if n * 1024 <= s.len() {
                n * 1024
            } else {
                s.len() as int
            },
        ));
        assert(flat_col(bs, c) == flat_col(bs.drop_last(), c) + bs.last().columns@[c].view_seq());
        assert(s.subrange(0, (n - 1) * 1024) + s.subrange(
            (n - 1) * 1024,
            if n * 1024 <= s.len() {
                n * 1024
            } else {
                s.len() as int
            },
        ) =~= s.subrange(
            0,
            if n * 1024 <= s.len() {
                n * 1024
            } else {
                s.len() as int
            },
        ));
    }
}

/// The output stream's flat columns rearrange the input stream's by one
/// shared permutation, ties under the key order left in input order.
pub open spec fn flat_perm_of(
    out: Seq<RecordBatch>,
    inp: Seq<RecordBatch>,
    ncols: int,
    inds: Seq<usize>,
    asc: Seq<bool>,
    perm: Seq<usize>,
) -> bool {
    &&& perm.len() == total_rows(inp)
    &&& perm_ok(perm, total_rows(inp) as int)
    &&& forall|c: int, i: int|
        0 <= c < ncols && 0 <= i < perm.len() ==> #[trigger] flat_col(out, c)[i] == flat_col(
            inp,
            c,
        )[perm[i] as int]
    &&& forall|i: int, j: int|
        0 <= i < j < perm.len() && crate::sorting::row_equiv(
            flat_key_row(inp, inds, #[trigger] perm[i] as int),
            flat_key_row(inp, inds, #[trigger] perm[j] as int),
            asc,
        ) ==> perm[i] < perm[j]
}

/// What a sort emits: the same rows as its input, permuted into the key
/// order (stable on ties), re-cut into standard batches; a stream already
/// in order comes back with its flat columns unchanged.
pub open spec fn sort_emits(s: SortExec, inp: Seq<RecordBatch>, out: Seq<RecordBatch>) -> bool {
    match sort_key_columns(s.sort_keys@) {
        Some(inds) => {
            &&& batches_wf(out, s.schema.fields@)
            &&& total_rows(out) == total_rows(inp)
            &&& forall|i: int, j: int|
                0 <= i < j < total_rows(out) ==> row_le(
                    #[trigger] flat_key_row(out, inds, i),
                    #[trigger] flat_key_row(out, inds, j),
                    s.asc@,
                )
            &&& forall|k: int, c: int|
                0 <= k < out.len() && 0 <= c < s.schema.fields@.len()
                    ==> (#[trigger] out[k].columns@[c]).view_seq() == flat_col(out, c).subrange(
                    k * 1024,
                    if (k + 1) * 1024 <= total_rows(out) {
                        (k + 1) * 1024
                    } else {
                        total_rows(out) as int
                    },
                )
            &&& out.len() == (if total_rows(out) == 0 {
                1int
            } else {
                (total_rows(out) as int + 1023) / 1024
            })
            &&& ((forall|i: int, j: int|
                0 <= i < j < total_rows(inp) ==> row_le(
                    #[trigger] flat_key_row(inp, inds, i),
                    #[trigger] flat_key_row(inp, inds, j),
                    s.asc@,
                )) ==> forall|c: int|
                0 <= c < s.schema.fields@.len() ==> #[trigger] flat_col(out, c) == flat_col(
                    inp,
                    c,
                ))
            &&& exists|perm: Seq<usize>| #[trigger] flat_perm_of(
                out,
                inp,
                s.schema.fields@.len() as int,
                inds,
                s.asc@,
                perm,
            )
        },
        None => false,
    }
}

impl SortExec {
    /// Drains the input, sorts every row by the key columns (stable,
    /// lexicographic, honouring each key's direction), and re-emits the rows
    /// in batches of at most `BATCH_SIZE`. Sorting an already sorted stream
    /// leaves its rows unchanged. Keys must be plain column references.
    pub fn sort_batches(&self, input: &Vec<RecordBatch>) -> (r: Result<Vec<RecordBatch>, ZakuError>)
        requires
            PhysicalPlans::Sort(*self).wf_plan(),
            batches_wf(input@, self.schema.fields@),
        ensures
            match r {
                Ok(bs) => sort_emits(*self, input@, bs@),
                Err(e) => sort_key_columns(self.sort_keys@) is None && e is ResolutionError,
            },
    {
        let ghost fields = self.schema.fields@;
        // keys must be plain column references
        let mut keyidx: Vec<usize> = Vec::new();
        let mut t: usize = 0;
        while t < self.sort_keys.len()
            invariant
                t <= self.sort_keys@.len(),
                keyidx@.len() == t,
                forall|q: int|
                    0 <= q < t ==> (#[trigger] self.sort_keys@[q]) is Column && keyidx@[q]
                        == self.sort_keys@[q]->Column_0,
            decreases self.sort_keys@.len() - t,
        {
            match &self.sort_keys[t] {
                PhysicalExprs::Column(i) => {
                    keyidx.push(*i);
                },
                _ => {
                    return Err(
                        ZakuError::ResolutionError(
                            String::from_str("sort keys must be column references"),
                        ),
                    );
                },
            }
            t = t + 1;
        }
        let ghost inds = sort_key_columns(self.sort_keys@)->Some_0;
        proof {
            assert(sort_key_columns(self.sort_keys@) is Some);
            assert(keyidx@ =~= inds);
        }
        // drain the input into one value table
        let ncols = self.schema.fields.len();
        let mut cols: Vec<Vec<Value>> = Vec::new();
        let mut c: usize = 0;
        while c < ncols
            invariant
                c <= ncols,
                cols@.len() == c,
                forall|q: int| 0 <= q < c ==> (#[trigger] cols@[q]@).len() == 0,
            decreases ncols - c,
        {
            cols.push(Vec::new());
            c = c + 1;
        }
        let mut k: usize = 0;
        while k < input.len()
            invariant
                fields == self.schema.fields@,
                batches_wf(input@, fields),
                ncols == fields.len(),
                k <= input@.len(),
                cols@.len() == ncols,
                forall|q: int|
                    0 <= q < ncols ==> (#[trigger] cols@[q]@) == flat_col(
                        input@.take(k as int),
                        q,
                    ),
                forall|q: int, i: int|
                    0 <= q < ncols && 0 <= i < cols@[q]@.len() ==> (#[trigger] cols@[q]@[i]).wf()
                        && cols@[q]@[i].fits_type(fields[q].datatype),
                forall|q: int| 0 <= q < ncols ==> (#[trigger] cols@[q]@).len() == cols@[0]@.len(),
            decreases input@.len() - k,
        {
            proof {
                assert(input@.take(k as int) =~= input@.take(k + 1).drop_last());
            }
            let batch = &input[k];
            let mut c: usize = 0;
            while c < ncols
                invariant
                    fields == self.schema.fields@,
                    batches_wf(input@, fields),
                    ncols == fields.len(),
                    k < input@.len(),
                    batch == &input@[k as int],
                    c <= ncols,
                    cols@.len() == ncols,
                    forall|q: int|
                        c <= q < ncols ==> (#[trigger] cols@[q]@) == flat_col(
                            input@.take(k as int),
                            q,
                        ),
                    forall|q: int|
                        0 <= q < c ==> (#[trigger] cols@[q]@) == flat_col(input@.take(k as int), q)
                            + batch.columns@[q].view_seq(),
                    forall|q: int, i: int|
                        0 <= q < ncols && 0 <= i < cols@[q]@.len() ==> (
                        #[trigger] cols@[q]@[i]).wf() && cols@[q]@[i].fits_type(fields[q].datatype),
                decreases ncols - c,
            {
                let col = &batch.columns[c];
                let mut target = Vec::new();
                core::mem::swap(&mut target, &mut cols[c]);
                let nrows = col.size();
                let mut i: usize = 0;
                let ghost base = target@;
                while i < nrows
                    invariant
                        batches_wf(input@, fields),
                        k < input@.len(),
                        c < input@[k as int].columns@.len(),
                        col == &input@[k as int].columns@[c as int],
                        nrows as nat == col.view_seq().len(),
                        i <= nrows,
                        target@ == base + col.view_seq().take(i as int),
                    decreases nrows - i,
                {
                    target.push(dup_value(col.get_value(&i)));
                    proof {
                        assert(col.view_seq().take(i + 1) =~= col.view_seq().take(i as int).push(
                            col.view_seq()[i as int],
                        ));
                        assert(base + col.view_seq().take(i + 1) =~= (base + col.view_seq().take(
                            i as int,
                        )).push(col.view_seq()[i as int]));
                    }
                    i = i + 1;
                }
                proof {
                    assert(col.view_seq().take(nrows as int) =~= col.view_seq());
                    assert(input@[k as int].wf());
                }
                core::mem::swap(&mut target, &mut cols[c]);
                c = c + 1;
            }
            proof {
                assert forall|q: int| 0 <= q < ncols implies (#[trigger] cols@[q]@) == flat_col(
                    input@.take(k + 1),
                    q,
                ) by {
                    assert(flat_col(input@.take(k + 1), q) == flat_col(
                        input@.take(k + 1).drop_last(),
                        q,
                    ) + input@.take(k + 1).last().columns@[q].view_seq());
                }
                assert forall|q: int| 0 <= q < ncols implies (#[trigger] cols@[q]@).len()
                    == cols@[0]@.len() by {
                    assert(input@[k as int].wf());
                    assert(batches_wf(input@.take(k as int), fields)) by {
                        assert(forall|w: int|
                            0 <= w < input@.take(k as int).len() ==> input@.take(k as int)[w]
                                == input@[w]);
                    }
                    lemma_flat_len(input@.take(k as int), fields, q);
                    if ncols > 0 {
                        lemma_flat_len(input@.take(k as int), fields, 0);
                    }
                }
            }
            k = k + 1;
        }
        proof {
            assert(input@.take(input@.len() as int) =~= input@);
        }
        // one combined batch holds every row; sort it
        let schema_copy = self.schema.duplicate();
        let made = RecordBatch::make_cols(cols, &schema_copy);
        let combined = RecordBatch { schema: schema_copy, columns: made };
        proof {
            assert(combined.wf()) by {
                if combined.columns@.len() > 0 {
                    lemma_flat_len(input@, fields, 0);
                    assert forall|j: int| 0 <= j < combined.columns@.len() implies (
                    #[trigger] combined.columns@[j]).view_seq().len() == combined.nrows() by {
                        lemma_flat_len(input@, fields, j);
                    }
                }
                assert forall|j: int| 0 <= j < combined.columns@.len() implies (
                #[trigger] combined.columns@[j]).wf() by {
                    assert(combined.columns@[j].view_seq() == flat_col(input@, j));
                }
            }
        }
        let sorted = match combined.sort(&keyidx, &self.asc) {
            Ok(b) => b,
            Err(_) => {
                proof {
                    assert(keyidx@.len() == self.asc@.len());
                    assert forall|q: int| 0 <= q < keyidx@.len() implies (
                    #[trigger] keyidx@[q] as int) < combined.columns@.len() by {
                        assert(self.sort_keys@[q].bounds_ok(fields.len() as int));
                    }
                    assert(false);
                }
                return Err(ZakuError::new("sort failed"));
            },
        };
        // re-emit the sorted rows in standard batches
        let scols = sorted.column_count();
        let mut table: Vec<Vec<Value>> = Vec::new();
        let mut c2: usize = 0;
        while c2 < scols
            invariant
                sorted.wf(),
                scols as int == sorted.columns@.len(),
                c2 <= scols,
                table@.len() == c2,
                forall|q: int|
                    0 <= q < c2 ==> (#[trigger] table@[q]@) == sorted.columns@[q].view_seq(),
            decreases scols - c2,
        {
            let col = &sorted.columns[c2];
            let n2 = col.size();
            let mut values: Vec<Value> = Vec::new();
            let mut i: usize = 0;
            while i < n2
                invariant
                    sorted.wf(),
                    c2 < sorted.columns@.len(),
                    col == &sorted.columns@[c2 as int],
                    n2 as nat == col.view_seq().len(),
                    i <= n2,
                    values@ == col.view_seq().take(i as int),
                decreases n2 - i,
            {
                values.push(dup_value(col.get_value(&i)));
                proof {
                    assert(col.view_seq().take(i + 1) =~= col.view_seq().take(i as int).push(
                        col.view_seq()[i as int],
                    ));
                }
                i = i + 1;
            }
            proof {
                assert(col.view_seq().take(n2 as int) =~= col.view_seq());
            }
            table.push(values);
            c2 = c2 + 1;
        }
        proof {
            assert(crate::record_batch::cols_uniform(table@)) by {
                assert forall|q: int| 0 <= q < table@.len() implies (#[trigger] table@[q]@).len()
                    == table@[0]@.len() by {
                    assert(sorted.columns@[q].view_seq().len() == sorted.nrows());
                    assert(sorted.columns@[0].view_seq().len() == sorted.nrows());
                }
            }
            assert(crate::record_batch::cols_typed(table@, fields)) by {
                assert forall|q: int, i: int|
                    0 <= q < table@.len() && 0 <= i < table@[q]@.len() implies (
                #[trigger] table@[q]@[i]).wf() && table@[q]@[i].fits_type(fields[q].datatype) by {
                    assert(sorted.columns@[q].wf());
                    assert(sorted.columns@[q].view_seq()[i].wf());
                }
            }
        }
        let out = RecordBatch::to_record_batch(table, &self.schema);
        proof {
            let total = total_rows(input@);
            if fields.len() > 0 {
                lemma_flat_len(input@, fields, 0);
            }
            // every output chunk carves the sorted table
            assert forall|q: int| 0 <= q < fields.len() implies #[trigger] flat_col(out@, q)
                == sorted.columns@[q].view_seq() by {
                let sv = sorted.columns@[q].view_seq();
                if out@.len() >= 1 {
                    assert((out@.len() - 1) * 1024 <= sv.len()) by (nonlinear_arith)
                        requires
                            out@.len() >= 1,
                            sv.len() == 0 ==> out@.len() == 1,
                            sv.len() >= 1 ==> out@.len() == (sv.len() + 1023) / 1024,
                    ;
                }
                lemma_chunks_flat(out@, q, sv);
                assert(sv.subrange(
                    0,
                    if out@.len() * 1024 <= sv.len() {
                        out@.len() as int * 1024
                    } else {
                        sv.len() as int
                    },
                ) =~= sv) by {
                    if out@.len() * 1024 <= sv.len() {
                        assert(sv.len() <= out@.len() * 1024) by (nonlinear_arith)
                            requires
                                sv.len() == 0 ==> out@.len() == 1,
                                sv.len() >= 1 ==> out@.len() == (sv.len() + 1023) / 1024,
                        ;
                    }
                }
            }
            if fields.len() > 0 {
                lemma_flat_len(out@, fields, 0);
                assert(total_rows(out@) == sorted.nrows());
            } else {
                assert(total_rows(out@) == 0) by {
                    assert forall|w: int| 0 <= w < out@.len() implies (#[trigger] out@[w]).nrows()
                        == 0 by {
                        assert(out@[w].wf());
                        assert(out@[w].columns@.len() == 0);
                    }
                    lemma_total_zero(out@);
                }
                assert(total == 0) by {
                    assert forall|w: int| 0 <= w < input@.len() implies (
                    #[trigger] input@[w]).nrows() == 0 by {
                        assert(input@[w].wf());
                        assert(input@[w].columns@.len() == 0);
                    }
                    lemma_total_zero(input@);
                }
            }
            // key bounds, from the plan's well-formedness
            assert forall|q: int| 0 <= q < inds.len() implies (#[trigger] inds[q] as int)
                < fields.len() by {
                assert(self.sort_keys@[q].bounds_ok(fields.len() as int));
            }
            // sortedness carries from the combined sort to the flat stream
            assert forall|i: int, j: int| 0 <= i < j < total_rows(out@) implies row_le(
                #[trigger] flat_key_row(out@, inds, i),
                #[trigger] flat_key_row(out@, inds, j),
                self.asc@,
            ) by {
                assert(flat_key_row(out@, inds, i) =~= sorted.key_row(inds, i));
                assert(flat_key_row(out@, inds, j) =~= sorted.key_row(inds, j));
                assert(row_le(sorted.key_row(keyidx@, i), sorted.key_row(keyidx@, j), self.asc@));
            }
            // the permutation the combined sort applied, lifted to the flats
            let bperm = choose|bperm: Seq<usize>| #[trigger] crate::record_batch::batch_sorted_by(
                sorted,
                combined,
                keyidx@,
                self.asc@,
                bperm,
            );
            assert(flat_perm_of(out@, input@, fields.len() as int, inds, self.asc@, bperm)) by {
                if fields.len() > 0 {
                    lemma_flat_len(input@, fields, 0);
                    assert(combined.nrows() == total);
                } else {
                    assert(combined.columns@.len() == 0);
                    assert(combined.nrows() == 0);
                }
                assert(bperm.len() == total_rows(input@));
                assert forall|c: int, i: int|
                    0 <= c < fields.len() && 0 <= i < bperm.len() implies #[trigger] flat_col(
                    out@,
                    c,
                )[i] == flat_col(input@, c)[bperm[i] as int] by {
                    assert(flat_col(out@, c) == sorted.columns@[c].view_seq());
                    assert(sorted.columns@[c].view_seq()[i] == combined.columns@[c].view_seq()[
                        bperm[i] as int]);
                    assert(combined.columns@[c].view_seq() == flat_col(input@, c));
                }
                assert forall|i: int, j2: int|
                    0 <= i < j2 < bperm.len() && crate::sorting::row_equiv(
                        flat_key_row(input@, inds, #[trigger] bperm[i] as int),
                        flat_key_row(input@, inds, #[trigger] bperm[j2] as int),
                        self.asc@,
                    ) implies bperm[i] < bperm[j2] by {
                    assert(combined.key_row(keyidx@, bperm[i] as int) =~= flat_key_row(
                        input@,
                        inds,
                        bperm[i] as int,
                    ));
                    assert(combined.key_row(keyidx@, bperm[j2] as int) =~= flat_key_row(
                        input@,
                        inds,
                        bperm[j2] as int,
                    ));
                }
            }
            // a stream already in order comes back with the same rows
            if forall|i: int, j: int|
                0 <= i < j < total_rows(input@) ==> row_le(
                    #[trigger] flat_key_row(input@, inds, i),
                    #[trigger] flat_key_row(input@, inds, j),
                    self.asc@,
                ) {
                assert forall|i: int, j: int| 0 <= i < j < combined.nrows() implies row_le(
                    #[trigger] combined.key_row(keyidx@, i),
                    #[trigger] combined.key_row(keyidx@, j),
                    self.asc@,
                ) by {
                    assert(combined.key_row(keyidx@, i) =~= flat_key_row(input@, inds, i));
                    assert(combined.key_row(keyidx@, j) =~= flat_key_row(input@, inds, j));
                }
                assert forall|q: int| 0 <= q < fields.len() implies #[trigger] flat_col(out@, q)
                    == flat_col(input@, q) by {
                    assert(sorted.columns@[q].view_seq() == combined.columns@[q].view_seq());
                }
            }
        }
        Ok(out)
    }
}

/// A stream of empty batches has no rows.
pub proof fn lemma_total_zero(bs: Seq<RecordBatch>)
    requires
        forall|k: int| 0 <= k < bs.len() ==> (#[trigger] bs[k]).nrows() == 0,
    ensures
        total_rows(bs) == 0,
    decreases bs.len(),
{
    if bs.len() > 0 {
        assert(forall|k: int| 0 <= k < bs.drop_last().len() ==> bs.drop_last()[k] == bs[k]);
        lemma_total_zero(bs.drop_last());
    }
}


/// What the aggregate's output stream says about its input: one output row
/// per distinct group key, the keys pairwise distinct, each taken from some
/// input row, and every input row's key among them.
pub open spec fn aggregate_output_ok(
    gks: Seq<Seq<Value>>,
    bs: Seq<RecordBatch>,
    input: Seq<RecordBatch>,
    gs: Seq<PhysicalExprs>,
) -> bool {
    &&& total_rows(bs) == gks.len()
    &&& (forall|x: int, y: int|
        0 <= x < y < gks.len() ==> !vals_equiv_rows(#[trigger] gks[x], #[trigger] gks[y]))
    &&& (forall|t: int| 0 <= t < gks.len() ==> key_from_input(gs, input, #[trigger] gks[t]))
    &&& (forall|k: int, i: int, kr: Seq<Value>|
        0 <= k < input.len() && 0 <= i < input[k].nrows() && group_row_eval(gs, input[k], i, kr)
            ==> key_covered(gks, kr))
    &&& (forall|t: int, c: int|
        0 <= t < gks.len() && 0 <= c < gs.len() ==> #[trigger] flat_col(bs, c)[t] == gks[t][c])
}

/// Some input row evaluates its group key to exactly this row of values.
pub open spec fn key_from_input(
    gs: Seq<PhysicalExprs>,
    input: Seq<RecordBatch>,
    kr: Seq<Value>,
) -> bool {
    exists|k: int, i: int|
        0 <= k < input.len() && 0 <= i < input[k].nrows() && #[trigger] group_row_eval(
            gs,
            input[k],
            i,
            kr,
        )
}

/// Some group key of the output is semantically equal to this key row.
pub open spec fn key_covered(gks: Seq<Seq<Value>>, kr: Seq<Value>) -> bool {
    exists|t: int| 0 <= t < gks.len() && vals_equiv_rows(kr, #[trigger] gks[t])
}

/// Two key rows agree, value by value.
pub open spec fn vals_equiv_rows(a: Seq<Value>, b: Seq<Value>) -> bool {
    a.len() == b.len() && forall|t: int| 0 <= t < a.len() ==> val_equiv(#[trigger] a[t], b[t])
}

/// `kr` is a key row the group expressions can evaluate to at row `i`.
pub open spec fn group_row_eval(
    gs: Seq<PhysicalExprs>,
    b: RecordBatch,
    i: int,
    kr: Seq<Value>,
) -> bool {
    kr.len() == gs.len() && forall|t: int|
        0 <= t < gs.len() ==> (#[trigger] gs[t]).eval_ok(b, i, kr[t])
}

/// Decides semantic equality of two key rows of equal length.
pub fn rows_equiv_exec(a: &Vec<Value>, b: &Vec<Value>) -> (r: bool)
    requires
        forall|t: int| 0 <= t < a@.len() ==> (#[trigger] a@[t]).wf(),
        forall|t: int| 0 <= t < b@.len() ==> (#[trigger] b@[t]).wf(),
    ensures
        r == vals_equiv_rows(a@, b@),
{
    if a.len() != b.len() {
        return false;
    }
    let mut t: usize = 0;
    while t < a.len()
        invariant
            a@.len() == b@.len(),
            forall|q: int| 0 <= q < a@.len() ==> (#[trigger] a@[q]).wf(),
            forall|q: int| 0 <= q < b@.len() ==> (#[trigger] b@[q]).wf(),
            t <= a@.len(),
            forall|q: int| 0 <= q < t ==> val_equiv(#[trigger] a@[q], b@[q]),
        decreases a@.len() - t,
    {
        if !crate::types::val_equiv_exec(&a[t], &b[t]) {
            return false;
        }
        t = t + 1;
    }
    true
}

/// Whether one input value can feed an aggregate of this kind at all:
/// counting takes anything, sums and averages take numbers (an average
/// needs scale headroom for its final division), minima and maxima take
/// numbers or dates; `Null` always passes.
pub open spec fn kind_cell_ok(a: AggregateExpressions, v: Value) -> bool {
    match a {
        AggregateExpressions::Count(_) => true,
        AggregateExpressions::Sum(_) => v is Number || v is Null,
        AggregateExpressions::Avg(_) => v is Null || (v matches Value::Number(d) && d.scale
            <= i64::MAX - 256),
        AggregateExpressions::Min(_) => v is Number || v is Date || v is Null,
        AggregateExpressions::Max(_) => v is Number || v is Date || v is Null,
    }
}

/// `v` is a value the aggregate's input expression takes somewhere in the
/// stream.
pub open spec fn is_agg_cell(ae: AggregateExpressions, input: Seq<RecordBatch>, v: Value) -> bool {
    exists|k: int, i: int|
        0 <= k < input.len() && 0 <= i < input[k].nrows() && #[trigger] ae.input_spec().eval_ok(
            input[k],
            i,
            v,
        )
}

/// Some aggregate sees an input value its kind cannot take.
pub open spec fn bad_kind_cell(aggr: Seq<AggregateExpressions>, input: Seq<RecordBatch>) -> bool {
    exists|a: int, v: Value|
        0 <= a < aggr.len() && #[trigger] is_agg_cell(aggr[a], input, v) && !kind_cell_ok(
            aggr[a],
            v,
        )
}

/// Some minimum or maximum sees both a number and a date.
pub open spec fn mixed_minmax_cells(
    aggr: Seq<AggregateExpressions>,
    input: Seq<RecordBatch>,
) -> bool {
    exists|a: int, v1: Value, v2: Value|
        0 <= a < aggr.len() && (aggr[a] is Min || aggr[a] is Max) && #[trigger] is_agg_cell(
            aggr[a],
            input,
            v1,
        ) && #[trigger] is_agg_cell(aggr[a], input, v2) && v1 is Number && v2 is Date
}

/// The input expressions of the aggregates, in order.
pub open spec fn agg_inputs(h: HashAggregateExec) -> Seq<PhysicalExprs> {
    h.aggr_expr@.map_values(|a: AggregateExpressions| a.input_spec())
}

/// The conditions under which grouping signals a type error: an expression
/// errs, a value of the wrong kind arrives, or one minimum or maximum mixes
/// numbers with dates.
pub open spec fn agg_fails_on(h: HashAggregateExec, mid: Seq<RecordBatch>) -> bool {
    ||| stream_expr_err(h.group_expr@, mid)
    ||| stream_expr_err(agg_inputs(h), mid)
    ||| bad_kind_cell(h.aggr_expr@, mid)
    ||| mixed_minmax_cells(h.aggr_expr@, mid)
}


/// The accumulator states an input sequence can reach, fed in order from a
/// fresh accumulator of the aggregate's kind.
pub open spec fn folds_to(ae: AggregateExpressions, vs: Seq<Value>, st: Accumulators) -> bool
    decreases vs.len(),
{
    if vs.len() == 0 {
        st.inv() && st.is_empty() && acc_kind_matches(st, ae)
    } else {
        exists|st0: Accumulators|
            folds_to(ae, vs.drop_last(), st0) && #[trigger] crate::accumulator::accumulate_step(
                st0,
                vs.last(),
                st,
            )
    }
}

/// The cell is the finished value of an accumulator fold over the inputs.
pub open spec fn cell_folds(ae: AggregateExpressions, vs: Seq<Value>, cell: Value) -> bool {
    exists|st: Accumulators| folds_to(ae, vs, st) && #[trigger] crate::accumulator::acc_finishes(
        st,
        cell,
    )
}

/// The aggregate-input values of the rows of batch `k` before row `i` that
/// the assignment puts in group `t`, in row order.
pub open spec fn row_grp_inputs(
    vals: Map<(int, int, int), Value>,
    owner: Map<(int, int), int>,
    a: int,
    t: int,
    k: int,
    i: int,
) -> Seq<Value>
    decreases i,
{
    if i <= 0 {
        Seq::empty()
    } else {
        row_grp_inputs(vals, owner, a, t, k, i - 1) + (if owner.dom().contains((k, i - 1))
            && owner[(k, i - 1)] == t {
            seq![vals[(k, i - 1, a)]]
        } else {
            Seq::empty()
        })
    }
}

/// The aggregate-input values of group `t` across the first `k` batches.
pub open spec fn grp_inputs(
    vals: Map<(int, int, int), Value>,
    owner: Map<(int, int), int>,
    input: Seq<RecordBatch>,
    a: int,
    t: int,
    k: int,
) -> Seq<Value>
    decreases k,
{
    if k <= 0 {
        Seq::empty()
    } else {
        grp_inputs(vals, owner, input, a, t, k - 1) + row_grp_inputs(
            vals,
            owner,
            a,
            t,
            k - 1,
            input[k - 1].nrows() as int,
        )
    }
}

/// The group's inputs over the whole batches before `k` and the first `i`
/// rows of batch `k`.
pub open spec fn grp_prefix(
    vals: Map<(int, int, int), Value>,
    owner: Map<(int, int), int>,
    input: Seq<RecordBatch>,
    a: int,
    t: int,
    k: int,
    i: int,
) -> Seq<Value> {
    grp_inputs(vals, owner, input, a, t, k) + row_grp_inputs(vals, owner, a, t, k, i)
}

/// Two assignments that agree on the rows before the bound give the same
/// per-batch group inputs.
pub proof fn lemma_row_grp_agree(
    v1: Map<(int, int, int), Value>,
    o1: Map<(int, int), int>,
    v2: Map<(int, int, int), Value>,
    o2: Map<(int, int), int>,
    a: int,
    t: int,
    k: int,
    i: int,
)
    requires
        forall|i2: int|
            0 <= i2 < i ==> #[trigger] o1.dom().contains((k, i2)) == o2.dom().contains((k, i2)),
        forall|i2: int|
            0 <= i2 < i && o1.dom().contains((k, i2)) ==> #[trigger] o1[(k, i2)] == o2[(k, i2)],
        forall|i2: int|
            0 <= i2 < i && o1.dom().contains((k, i2)) && o1[(k, i2)] == t ==> #[trigger] v1[(
                k,
                i2,
                a,
            )] == v2[(k, i2, a)],
    ensures
        row_grp_inputs(v1, o1, a, t, k, i) == row_grp_inputs(v2, o2, a, t, k, i),
    decreases i,
{
    if i > 0 {
        lemma_row_grp_agree(v1, o1, v2, o2, a, t, k, i - 1);
    }
}

/// Two assignments that agree on the rows of the first `k` batches give the
/// same group inputs.
pub proof fn lemma_grp_agree(
    v1: Map<(int, int, int), Value>,
    o1: Map<(int, int), int>,
    v2: Map<(int, int, int), Value>,
    o2: Map<(int, int), int>,
    input: Seq<RecordBatch>,
    a: int,
    t: int,
    k: int,
)
    requires
        k <= input.len(),
        forall|k2: int, i2: int|
            0 <= k2 < k && 0 <= i2 < input[k2].nrows() ==> #[trigger] o1.dom().contains((k2, i2))
                == o2.dom().contains((k2, i2)),
        forall|k2: int, i2: int|
            0 <= k2 < k && 0 <= i2 < input[k2].nrows() && o1.dom().contains((k2, i2))
                ==> #[trigger] o1[(k2, i2)] == o2[(k2, i2)],
        forall|k2: int, i2: int|
            0 <= k2 < k && 0 <= i2 < input[k2].nrows() && o1.dom().contains((k2, i2)) && o1[(
                k2,
                i2,
            )] == t ==> #[trigger] v1[(k2, i2, a)] == v2[(k2, i2, a)],
    ensures
        grp_inputs(v1, o1, input, a, t, k) == grp_inputs(v2, o2, input, a, t, k),
    decreases k,
{
    if k > 0 {
        lemma_grp_agree(v1, o1, v2, o2, input, a, t, k - 1);
        lemma_row_grp_agree(v1, o1, v2, o2, a, t, k - 1, input[k - 1].nrows() as int);
    }
}

/// A group no row of the batch prefix is assigned to has no inputs there.
pub proof fn lemma_row_grp_absent(
    vals: Map<(int, int, int), Value>,
    owner: Map<(int, int), int>,
    a: int,
    t: int,
    k: int,
    i: int,
)
    requires
        forall|i2: int|
            0 <= i2 < i ==> !(#[trigger] owner.dom().contains((k, i2)) && owner[(k, i2)] == t),
    ensures
        row_grp_inputs(vals, owner, a, t, k, i) == Seq::<Value>::empty(),
    decreases i,
{
    if i > 0 {
        lemma_row_grp_absent(vals, owner, a, t, k, i - 1);
        assert(row_grp_inputs(vals, owner, a, t, k, i) =~= Seq::<Value>::empty());
    }
}

/// A group no row of the first `k` batches is assigned to has no inputs.
pub proof fn lemma_grp_absent(
    vals: Map<(int, int, int), Value>,
    owner: Map<(int, int), int>,
    input: Seq<RecordBatch>,
    a: int,
    t: int,
    k: int,
)
    requires
        k <= input.len(),
        forall|k2: int, i2: int|
            0 <= k2 < k && 0 <= i2 < input[k2].nrows() ==> !(#[trigger] owner.dom().contains(
                (k2, i2),
            ) && owner[(k2, i2)] == t),
    ensures
        grp_inputs(vals, owner, input, a, t, k) == Seq::<Value>::empty(),
    decreases k,
{
    if k > 0 {
        lemma_grp_absent(vals, owner, input, a, t, k - 1);
        lemma_row_grp_absent(vals, owner, a, t, k - 1, input[k - 1].nrows() as int);
        assert(grp_inputs(vals, owner, input, a, t, k) =~= Seq::<Value>::empty());
    }
}

/// A witness that the output's aggregate cells fold their groups: `owner`
/// assigns every input row to the group its key row stands for, `vals`
/// carries each row's evaluated aggregate inputs, and every aggregate cell
/// of the output finishes the fold of its group's inputs in stream order.
pub open spec fn agg_fold_witness(
    h: HashAggregateExec,
    mid: Seq<RecordBatch>,
    out: Seq<RecordBatch>,
    gks: Seq<Seq<Value>>,
    owner: Map<(int, int), int>,
    vals: Map<(int, int, int), Value>,
) -> bool {
    &&& (forall|k: int, i: int|
        0 <= k < mid.len() && 0 <= i < mid[k].nrows() ==> #[trigger] owner.dom().contains((k, i))
            && 0 <= owner[(k, i)] < gks.len() && (forall|kr: Seq<Value>|
            group_row_eval(h.group_expr@, mid[k], i, kr) ==> vals_equiv_rows(
                kr,
                gks[owner[(k, i)]],
            )))
    &&& (forall|k: int, i: int, a: int|
        0 <= k < mid.len() && 0 <= i < mid[k].nrows() && 0 <= a < h.aggr_expr@.len()
            ==> #[trigger] h.aggr_expr@[a].input_spec().eval_ok(mid[k], i, vals[(k, i, a)]))
    &&& (forall|t: int, a: int|
        0 <= t < gks.len() && 0 <= a < h.aggr_expr@.len() ==> #[trigger] cell_folds(
            h.aggr_expr@[a],
            grp_inputs(vals, owner, mid, a, t, mid.len() as int),
            flat_col(out, h.group_expr@.len() + a)[t],
        ))
}

/// The output's aggregate value columns fold their groups under some row
/// assignment and some evaluation of the aggregate inputs.
pub open spec fn agg_values_ok(
    h: HashAggregateExec,
    mid: Seq<RecordBatch>,
    out: Seq<RecordBatch>,
    gks: Seq<Seq<Value>>,
) -> bool {
    exists|owner: Map<(int, int), int>, vals: Map<(int, int, int), Value>|
        #[trigger] agg_fold_witness(h, mid, out, gks, owner, vals)
}

/// What grouping emits: well-formed batches under the aggregate schema
/// whose rows stand for the distinct group keys.
pub open spec fn agg_emits(h: HashAggregateExec, mid: Seq<RecordBatch>, out: Seq<RecordBatch>) -> bool {
    &&& batches_wf(out, h.schema.fields@)
    &&& exists|gks: Seq<Seq<Value>>|
        #[trigger] aggregate_output_ok(gks, out, mid, h.group_expr@) && agg_values_ok(
            h,
            mid,
            out,
            gks,
        )
}

/// A running minimum or maximum only ever holds `Null` or a value its input
/// expression took somewhere in the stream.
pub open spec fn minmax_origin(
    st: Accumulators,
    ae: AggregateExpressions,
    input: Seq<RecordBatch>,
) -> bool {
    match st {
        Accumulators::Min(x) => match x.value {
            Some(w) => w is Null || is_agg_cell(ae, input, w),
            None => true,
        },
        Accumulators::Max(x) => match x.value {
            Some(w) => w is Null || is_agg_cell(ae, input, w),
            None => true,
        },
        _ => true,
    }
}

/// The row counter inside one accumulator stays at or below `n`.
pub open spec fn counter_le(a: Accumulators, n: nat) -> bool {
    match a {
        Accumulators::Count(x) => x.value as nat <= n,
        Accumulators::Avg(x) => x.count as nat <= n,
        _ => true,
    }
}

/// Counters never run past the rows already folded in.
pub open spec fn counters_bounded(accs: Seq<Vec<Accumulators>>, processed: nat) -> bool {
    forall|j: int, a: int|
        0 <= j < accs.len() && 0 <= a < accs[j]@.len() ==> counter_le(
            #[trigger] accs[j]@[a],
            processed,
        )
}

impl HashAggregateExec {
    /// Drains the input, grouping every row by its group-key tuple and
    /// folding each aggregate over its group, then emits one output row per
    /// distinct group key: the key values followed by each aggregate's
    /// finished value. The order of the output rows follows the keys' first
    /// appearances.
    pub fn aggregate_batches(&self, input: &Vec<RecordBatch>) -> (r: Result<
        Vec<RecordBatch>,
        ZakuError,
    >)
        requires
            PhysicalPlans::HashAggregate(*self).wf_plan(),
            batches_wf(input@, self.input.out_fields()),
        ensures
            match r {
                Ok(bs) => agg_emits(*self, input@, bs@),
                Err(e) => (e is TypeError && agg_fails_on(*self, input@)) || (e is InternalError
                    && total_rows(input@) >= usize::MAX),
            },
    {
        let ghost infields = self.input.out_fields();
        let ghost gs = self.group_expr@;
        let ngroups = self.group_expr.len();
        let naggr = self.aggr_expr.len();
        let mut keys: Vec<Vec<Value>> = Vec::new();
        let mut accs: Vec<Vec<Accumulators>> = Vec::new();
        let ghost mut wk: Seq<(int, int)> = Seq::empty();
        let ghost mut owner: Map<(int, int), int> = Map::empty();
        let ghost mut vals: Map<(int, int, int), Value> = Map::empty();
        let ghost mut processed: nat = 0;
        proof {
            assert(input@.take(0) =~= Seq::<RecordBatch>::empty());
        }
        let mut k: usize = 0;
        while k < input.len()
            invariant
                infields == self.input.out_fields(),
                gs == self.group_expr@,
                PhysicalPlans::HashAggregate(*self).wf_plan(),
                batches_wf(input@, infields),
                ngroups == gs.len(),
                naggr == self.aggr_expr@.len(),
                k <= input@.len(),
                keys@.len() == accs@.len(),
                forall|j: int, t: int|
                    0 <= j < keys@.len() && 0 <= t < (#[trigger] keys@[j]@).len() ==> (
                    #[trigger] keys@[j]@[t]).wf() && keys@[j]@[t].fits_type(
                        self.schema.fields@[t].datatype,
                    ),
                forall|j: int| 0 <= j < keys@.len() ==> (#[trigger] keys@[j]@).len() == gs.len(),
                forall|x: int, y: int|
                    0 <= x < y < keys@.len() ==> !vals_equiv_rows(
                        #[trigger] keys@[x]@,
                        #[trigger] keys@[y]@,
                    ),
                forall|j: int| 0 <= j < accs@.len() ==> (#[trigger] accs@[j]@).len() == naggr,
                forall|j: int, a: int|
                    0 <= j < accs@.len() && 0 <= a < naggr ==> (#[trigger] accs@[j]@[a]).inv()
                        && acc_kind_matches(accs@[j]@[a], self.aggr_expr@[a])
                        && crate::accumulator::acc_fits(
                        accs@[j]@[a],
                        self.schema.fields@[gs.len() + a].datatype,
                    ) && minmax_origin(accs@[j]@[a], self.aggr_expr@[a], input@),
                processed == total_rows(input@.take(k as int)),
                counters_bounded(accs@, processed),
                wk.len() == keys@.len(),
                forall|j: int|
                    0 <= j < wk.len() ==> 0 <= (#[trigger] wk[j]).0 < input@.len() && 0 <= wk[j].1
                        < input@[wk[j].0].nrows() && group_row_eval(
                        gs,
                        input@[wk[j].0],
                        wk[j].1,
                        keys@[j]@,
                    ),
                forall|k2: int, i2: int|
                    #![trigger owner.dom().contains((k2, i2))]
                    #![trigger owner[(k2, i2)]]
                    0 <= k2 < k && 0 <= i2 < input@[k2].nrows() ==> owner.dom().contains(
                        (k2, i2),
                    ) && 0 <= owner[(k2, i2)] < keys@.len() && (forall|kr: Seq<Value>|
                        group_row_eval(gs, input@[k2], i2, kr) ==> vals_equiv_rows(
                            kr,
                            keys@[owner[(k2, i2)]]@,
                        )),
                forall|k2: int, i2: int|
                    #[trigger] owner.dom().contains((k2, i2)) ==> 0 <= k2 < k && 0 <= i2
                        < input@[k2].nrows(),
                forall|k2: int, i2: int, a: int|
                    owner.dom().contains((k2, i2)) && 0 <= a < naggr
                        ==> #[trigger] vals.dom().contains((k2, i2, a)),
                forall|k2: int, i2: int, a: int|
                    0 <= k2 < k && 0 <= i2 < input@[k2].nrows() && 0 <= a < naggr
                        ==> #[trigger] self.aggr_expr@[a].input_spec().eval_ok(
                        input@[k2],
                        i2,
                        vals[(k2, i2, a)],
                    ),
                forall|j: int, a: int|
                    0 <= j < accs@.len() && 0 <= a < naggr ==> folds_to(
                        self.aggr_expr@[a],
                        grp_prefix(vals, owner, input@, a, j, k as int, 0),
                        #[trigger] accs@[j]@[a],
                    ),
            decreases input@.len() - k,
        {
            let batch = &input[k];
            // evaluate the group keys and the aggregate inputs once per batch
            let mut gcols: Vec<Vectors> = Vec::new();
            let mut t: usize = 0;
            while t < ngroups
                invariant
                    infields == self.input.out_fields(),
                    gs == self.group_expr@,
                    PhysicalPlans::HashAggregate(*self).wf_plan(),
                    batches_wf(input@, infields),
                    ngroups == gs.len(),
                    k < input@.len(),
                    batch == &input@[k as int],
                    t <= ngroups,
                    gcols@.len() == t,
                    forall|q: int|
                        0 <= q < t ==> (#[trigger] gcols@[q]).wf() && gcols@[q].view_seq().len()
                            == batch.nrows() && gcols@[q].dtype() == gs[q].out_dtype(infields) && (
                        forall|i: int|
                            0 <= i < batch.nrows() ==> gs[q].eval_ok(
                                *batch,
                                i,
                                #[trigger] gcols@[q].view_seq()[i],
                            )),
                decreases ngroups - t,
            {
                match self.group_expr[t].evaluate(batch) {
                    Ok(col) => {
                        gcols.push(col);
                    },
                    Err(e) => {
                        proof {
                            assert(expr_errs_on(self.group_expr@[t as int], input@[k as int]));
                            assert(stream_expr_err(self.group_expr@, input@));
                        }
                        return Err(e);
                    },
                }
                t = t + 1;
            }
            let mut acols: Vec<Vectors> = Vec::new();
            let mut t2: usize = 0;
            while t2 < naggr
                invariant
                    infields == self.input.out_fields(),
                    PhysicalPlans::HashAggregate(*self).wf_plan(),
                    batches_wf(input@, infields),
                    naggr == self.aggr_expr@.len(),
                    k < input@.len(),
                    batch == &input@[k as int],
                    t2 <= naggr,
                    acols@.len() == t2,
                    forall|q: int|
                        0 <= q < t2 ==> (#[trigger] acols@[q]).wf() && acols@[q].view_seq().len()
                            == batch.nrows() && acols@[q].dtype()
                            == self.aggr_expr@[q].input_spec().out_dtype(infields) && (forall|
                            i2: int,
                        |
                            0 <= i2 < batch.nrows() ==> self.aggr_expr@[q].input_spec().eval_ok(
                                *batch,
                                i2,
                                #[trigger] acols@[q].view_seq()[i2],
                            )),
                decreases naggr - t2,
            {
                match self.aggr_expr[t2].input_expr().evaluate(batch) {
                    Ok(col) => {
                        acols.push(col);
                    },
                    Err(e) => {
                        proof {
                            assert(agg_inputs(*self)[t2 as int] == self.aggr_expr@[t2 as int].input_spec());
                            assert(expr_errs_on(agg_inputs(*self)[t2 as int], input@[k as int]));
                            assert(stream_expr_err(agg_inputs(*self), input@));
                        }
                        return Err(e);
                    },
                }
                t2 = t2 + 1;
            }
            // fold every row into its group
            let nrows = batch.row_count();
            let mut i: usize = 0;
            while i < nrows
                invariant
                    infields == self.input.out_fields(),
                    gs == self.group_expr@,
                    PhysicalPlans::HashAggregate(*self).wf_plan(),
                    batches_wf(input@, infields),
                    ngroups == gs.len(),
                    naggr == self.aggr_expr@.len(),
                    k < input@.len(),
                    batch == &input@[k as int],
                    nrows as nat == batch.nrows(),
                    gcols@.len() == ngroups,
                    forall|q: int|
                        0 <= q < ngroups ==> (#[trigger] gcols@[q]).wf()
                            && gcols@[q].view_seq().len() == batch.nrows() && gcols@[q].dtype()
                            == gs[q].out_dtype(infields) && (forall|i2: int|
                            0 <= i2 < batch.nrows() ==> gs[q].eval_ok(
                                *batch,
                                i2,
                                #[trigger] gcols@[q].view_seq()[i2],
                            )),
                    acols@.len() == naggr,
                    forall|q: int|
                        0 <= q < naggr ==> (#[trigger] acols@[q]).wf() && acols@[q].view_seq().len()
                            == batch.nrows() && acols@[q].dtype()
                            == self.aggr_expr@[q].input_spec().out_dtype(infields) && (forall|
                            i2: int,
                        |
                            0 <= i2 < batch.nrows() ==> self.aggr_expr@[q].input_spec().eval_ok(
                                *batch,
                                i2,
                                #[trigger] acols@[q].view_seq()[i2],
                            )),
                    i <= nrows,
                    keys@.len() == accs@.len(),
                    forall|j: int, t3: int|
                        0 <= j < keys@.len() && 0 <= t3 < (#[trigger] keys@[j]@).len() ==> (
                        #[trigger] keys@[j]@[t3]).wf() && keys@[j]@[t3].fits_type(
                            self.schema.fields@[t3].datatype,
                        ),
                    forall|j: int| 0 <= j < keys@.len() ==> (#[trigger] keys@[j]@).len() == gs.len(),
                    forall|x: int, y: int|
                        0 <= x < y < keys@.len() ==> !vals_equiv_rows(
                            #[trigger] keys@[x]@,
                            #[trigger] keys@[y]@,
                        ),
                    forall|j: int| 0 <= j < accs@.len() ==> (#[trigger] accs@[j]@).len() == naggr,
                    forall|j: int, a: int|
                        0 <= j < accs@.len() && 0 <= a < naggr ==> (#[trigger] accs@[j]@[a]).inv()
                            && acc_kind_matches(accs@[j]@[a], self.aggr_expr@[a])
                            && crate::accumulator::acc_fits(
                            accs@[j]@[a],
                            self.schema.fields@[gs.len() + a].datatype,
                        ) && minmax_origin(accs@[j]@[a], self.aggr_expr@[a], input@),
                    processed == total_rows(input@.take(k as int)) + i,
                    counters_bounded(accs@, processed),
                    wk.len() == keys@.len(),
                    forall|j: int|
                        0 <= j < wk.len() ==> 0 <= (#[trigger] wk[j]).0 < input@.len() && 0
                            <= wk[j].1 < input@[wk[j].0].nrows() && group_row_eval(
                            gs,
                            input@[wk[j].0],
                            wk[j].1,
                            keys@[j]@,
                        ),
                    forall|k2: int, i2: int|
                        #![trigger owner.dom().contains((k2, i2))]
                        #![trigger owner[(k2, i2)]]
                        ((0 <= k2 < k && 0 <= i2 < input@[k2].nrows()) || (k2 == k && 0 <= i2
                            < i)) ==> owner.dom().contains((k2, i2)) && 0 <= owner[(k2, i2)]
                            < keys@.len() && (forall|kr: Seq<Value>|
                            group_row_eval(gs, input@[k2], i2, kr) ==> vals_equiv_rows(
                                kr,
                                keys@[owner[(k2, i2)]]@,
                            )),
                    forall|k2: int, i2: int|
                        #[trigger] owner.dom().contains((k2, i2)) ==> (0 <= k2 < k && 0 <= i2
                            < input@[k2].nrows()) || (k2 == k && 0 <= i2 < i),
                    forall|k2: int, i2: int, a: int|
                        owner.dom().contains((k2, i2)) && 0 <= a < naggr
                            ==> #[trigger] vals.dom().contains((k2, i2, a)),
                    forall|k2: int, i2: int, a: int|
                        ((0 <= k2 < k && 0 <= i2 < input@[k2].nrows()) || (k2 == k && 0 <= i2 < i))
                            && 0 <= a < naggr ==> #[trigger] self.aggr_expr@[a].input_spec().eval_ok(
                            input@[k2],
                            i2,
                            vals[(k2, i2, a)],
                        ),
                    forall|j: int, a: int|
                        0 <= j < accs@.len() && 0 <= a < naggr ==> folds_to(
                            self.aggr_expr@[a],
                            grp_prefix(vals, owner, input@, a, j, k as int, i as int),
                            #[trigger] accs@[j]@[a],
                        ),
                decreases nrows - i,
            {
                // the key of this row
                let mut key: Vec<Value> = Vec::new();
                let mut t3: usize = 0;
                while t3 < ngroups
                    invariant
                        ngroups == gcols@.len(),
                        k < input@.len(),
                        batch == &input@[k as int],
                        i < nrows,
                        nrows as nat == batch.nrows(),
                        forall|q: int|
                            0 <= q < ngroups ==> (#[trigger] gcols@[q]).wf()
                                && gcols@[q].view_seq().len() == batch.nrows(),
                        t3 <= ngroups,
                        key@.len() == t3,
                        forall|q: int|
                            0 <= q < t3 ==> #[trigger] key@[q] == gcols@[q].view_seq()[i as int],
                    decreases ngroups - t3,
                {
                    key.push(dup_value(gcols[t3].get_value(&i)));
                    t3 = t3 + 1;
                }
                proof {
                    assert(group_row_eval(gs, *batch, i as int, key@));
                    assert forall|q: int| 0 <= q < key@.len() implies (#[trigger] key@[q]).wf()
                        && key@[q].fits_type(self.schema.fields@[q].datatype) by {
                        assert(gcols@[q].view_seq()[i as int].wf());
                        assert(gcols@[q].view_seq()[i as int].fits_type(gcols@[q].dtype()));
                    }
                }
                // find the row's group
                let mut found: usize = keys.len();
                let mut j: usize = 0;
                while j < keys.len() && found == keys.len()
                    invariant
                        keys@.len() == accs@.len(),
                        forall|q: int, t4: int|
                            0 <= q < keys@.len() && 0 <= t4 < (#[trigger] keys@[q]@).len() ==> (
                            #[trigger] keys@[q]@[t4]).wf(),
                        forall|q: int| 0 <= q < key@.len() ==> (#[trigger] key@[q]).wf(),
                        j <= keys@.len(),
                        found == keys@.len() || (found < keys@.len() && vals_equiv_rows(
                            key@,
                            keys@[found as int]@,
                        )),
                        found == keys@.len() ==> forall|q: int|
                            0 <= q < j ==> !vals_equiv_rows((#[trigger] keys@[q])@, key@),
                    decreases
                            keys@.len() - j,
                            (if found == keys@.len() {
                                1int
                            } else {
                                0int
                            }),
                {
                    if rows_equiv_exec(&keys[j], &key) {
                        proof {
                            lemma_rows_equiv_sym(keys@[j as int]@, key@);
                        }
                        found = j;
                    } else {
                        j = j + 1;
                    }
                }
                let ghost old_keys = keys@;
                let ghost old_accs = accs@;
                let slot: usize;
                if found == keys.len() {
                    // a new group
                    let mut fresh: Vec<Accumulators> = Vec::new();
                    let mut a: usize = 0;
                    while a < naggr
                        invariant
                            infields == self.input.out_fields(),
                            gs == self.group_expr@,
                            ngroups == gs.len(),
                            naggr == self.aggr_expr@.len(),
                            PhysicalPlans::HashAggregate(*self).wf_plan(),
                            a <= naggr,
                            fresh@.len() == a,
                            forall|q: int|
                                0 <= q < a ==> (#[trigger] fresh@[q]).inv() && fresh@[q].is_empty()
                                    && acc_kind_matches(fresh@[q], self.aggr_expr@[q])
                                    && crate::accumulator::acc_fits(
                                    fresh@[q],
                                    self.schema.fields@[gs.len() + q].datatype,
                                ),
                        decreases naggr - a,
                    {
                        let acc = self.aggr_expr[a].create_accumulator();
                        fresh.push(acc);
                        a = a + 1;
                    }
                    slot = keys.len();
                    keys.push(key);
                    accs.push(fresh);
                    proof {
                        wk = wk.push((k as int, i as int));
                        lemma_rows_equiv_refl(keys@[slot as int]@);
                        assert(vals_equiv_rows(key@, keys@[slot as int]@));
                        // the extended table keeps its invariants
                        assert forall|x: int, y: int|
                            0 <= x < y < keys@.len() implies !vals_equiv_rows(
                            #[trigger] keys@[x]@,
                            #[trigger] keys@[y]@,
                        ) by {
                            if y == keys@.len() - 1 {
                                assert(!vals_equiv_rows(old_keys[x]@, key@));
                            }
                        }
                        assert forall|j: int|
                            0 <= j < wk.len() implies 0 <= (#[trigger] wk[j]).0 < input@.len() && 0
                            <= wk[j].1 < input@[wk[j].0].nrows() && group_row_eval(
                            gs,
                            input@[wk[j].0],
                            wk[j].1,
                            keys@[j]@,
                        ) by {
                            if j < wk.len() - 1 {
                                assert(keys@[j] == old_keys[j]);
                            } else {
                                assert(keys@[j]@ == key@);
                            }
                        }
                    }
                } else {
                    slot = found;
                    proof {
                        assert(vals_equiv_rows(key@, keys@[slot as int]@));
                    }
                }
                proof {
                    // assign this row to its group and record its inputs
                    let o0 = owner;
                    let v0 = vals;
                    owner = owner.insert((k as int, i as int), slot as int);
                    vals = vals.union_prefer_right(
                        Map::new(
                            |key3: (int, int, int)| key3.0 == k as int && key3.1 == i as int && 0
                                <= key3.2 < naggr,
                            |key3: (int, int, int)| acols@[key3.2].view_seq()[i as int],
                        ),
                    );
                    assert forall|a: int| 0 <= a < naggr implies #[trigger] vals[(
                        k as int,
                        i as int,
                        a,
                    )] == acols@[a].view_seq()[i as int] by {}
                    assert forall|j2: int, a: int|
                        0 <= j2 < accs@.len() && 0 <= a < naggr implies folds_to(
                        self.aggr_expr@[a],
                        grp_prefix(vals, owner, input@, a, j2, k as int, i as int),
                        #[trigger] accs@[j2]@[a],
                    ) by {
                        lemma_grp_agree(vals, owner, v0, o0, input@, a, j2, k as int);
                        lemma_row_grp_agree(vals, owner, v0, o0, a, j2, k as int, i as int);
                        if j2 < old_accs.len() {
                            assert(accs@[j2] == old_accs[j2]);
                            assert(folds_to(
                                self.aggr_expr@[a],
                                grp_prefix(v0, o0, input@, a, j2, k as int, i as int),
                                accs@[j2]@[a],
                            ));
                        } else {
                            // the fresh group: no earlier row was assigned to it
                            assert forall|k2: int, i2: int|
                                0 <= k2 < k && 0 <= i2 < input@[k2].nrows() implies !(
                            #[trigger] o0.dom().contains((k2, i2)) && o0[(k2, i2)] == j2) by {
                                if o0.dom().contains((k2, i2)) {
                                    assert(0 <= o0[(k2, i2)] < old_keys.len());
                                }
                            }
                            assert forall|i2: int| 0 <= i2 < i implies !(
                            #[trigger] o0.dom().contains((k as int, i2)) && o0[(k as int, i2)]
                                == j2) by {
                                if o0.dom().contains((k as int, i2)) {
                                    assert(0 <= o0[(k as int, i2)] < old_keys.len());
                                }
                            }
                            lemma_grp_absent(v0, o0, input@, a, j2, k as int);
                            lemma_row_grp_absent(v0, o0, a, j2, k as int, i as int);
                            assert(grp_prefix(v0, o0, input@, a, j2, k as int, i as int)
                                =~= Seq::<Value>::empty());
                            assert(accs@[j2]@[a].is_empty() && accs@[j2]@[a].inv()
                                && acc_kind_matches(accs@[j2]@[a], self.aggr_expr@[a]));
                            assert(folds_to(
                                self.aggr_expr@[a],
                                Seq::<Value>::empty(),
                                accs@[j2]@[a],
                            ));
                        }
                        assert(grp_prefix(vals, owner, input@, a, j2, k as int, i as int)
                            == grp_prefix(v0, o0, input@, a, j2, k as int, i as int));
                    }
                }
                // feed each aggregate
                let mut a2: usize = 0;
                let mut row_accs = Vec::new();
                core::mem::swap(&mut row_accs, &mut accs[slot]);
                while a2 < naggr
                    invariant
                        infields == self.input.out_fields(),
                        gs == self.group_expr@,
                        ngroups == gs.len(),
                        naggr == self.aggr_expr@.len(),
                        PhysicalPlans::HashAggregate(*self).wf_plan(),
                        batches_wf(input@, infields),
                        k < input@.len(),
                        batch == &input@[k as int],
                        i < nrows,
                        nrows as nat == batch.nrows(),
                        acols@.len() == naggr,
                        forall|q: int|
                            0 <= q < naggr ==> (#[trigger] acols@[q]).wf()
                                && acols@[q].view_seq().len() == batch.nrows() && acols@[q].dtype()
                                == self.aggr_expr@[q].input_spec().out_dtype(infields) && (forall|
                                i2: int,
                            |
                                0 <= i2 < batch.nrows() ==> self.aggr_expr@[q].input_spec().eval_ok(
                                    *batch,
                                    i2,
                                    #[trigger] acols@[q].view_seq()[i2],
                                )),
                        a2 <= naggr,
                        row_accs@.len() == naggr,
                        forall|q: int|
                            0 <= q < naggr ==> (#[trigger] row_accs@[q]).inv()
                                && acc_kind_matches(row_accs@[q], self.aggr_expr@[q])
                                && crate::accumulator::acc_fits(
                                row_accs@[q],
                                self.schema.fields@[gs.len() + q].datatype,
                            ) && minmax_origin(row_accs@[q], self.aggr_expr@[q], input@),
                        processed == total_rows(input@.take(k as int)) + i,
                        forall|q: int|
                            0 <= q < a2 ==> counter_le(#[trigger] row_accs@[q], processed + 1),
                        forall|q: int|
                            a2 <= q < naggr ==> counter_le(#[trigger] row_accs@[q], processed),
                        forall|q: int|
                            0 <= q < naggr ==> #[trigger] vals[(k as int, i as int, q)]
                                == acols@[q].view_seq()[i as int],
                        forall|q: int|
                            0 <= q < a2 ==> folds_to(
                                self.aggr_expr@[q],
                                grp_prefix(vals, owner, input@, q, slot as int, k as int, i as int)
                                    .push(vals[(k as int, i as int, q)]),
                                #[trigger] row_accs@[q],
                            ),
                        forall|q: int|
                            a2 <= q < naggr ==> folds_to(
                                self.aggr_expr@[q],
                                grp_prefix(vals, owner, input@, q, slot as int, k as int, i as int),
                                #[trigger] row_accs@[q],
                            ),
                    decreases naggr - a2,
                {
                    let mut acc = Accumulators::Count(crate::accumulator::Count::new());
                    core::mem::swap(&mut acc, &mut row_accs[a2]);
                    if !acc.can_take_more() {
                        proof {
                            // the saturated counter has already seen usize::MAX rows
                            assert(counter_le(acc, processed));
                            assert(processed >= usize::MAX);
                            assert(input@.take(k + 1).drop_last() =~= input@.take(k as int));
                            assert(input@.take(k + 1).last() == input@[k as int]);
                            assert(total_rows(input@.take(k + 1)) >= processed + 1);
                            lemma_total_prefix(input@, k + 1);
                            assert(total_rows(input@) >= usize::MAX);
                        }
                        return Err(ZakuError::new("row count overflow"));
                    }
                    let v = acols[a2].get_value(&i);
                    let ghost dt = self.schema.fields@[gs.len() + a2 as int].datatype;
                    let ghost acc0 = acc;
                    proof {
                        assert(acols@[a2 as int].view_seq()[i as int].wf());
                        assert(acols@[a2 as int].view_seq()[i as int].fits_type(
                            acols@[a2 as int].dtype(),
                        ));
                        if acc0 is Min || acc0 is Max {
                            assert(dt == aggr_out_dtype(self.aggr_expr@[a2 as int], infields));
                            assert(dt == self.aggr_expr@[a2 as int].input_spec().out_dtype(
                                infields,
                            ));
                            assert(v.fits_type(dt));
                        }
                    }
                    proof {
                        assert(self.aggr_expr@[a2 as int].input_spec().eval_ok(
                            input@[k as int],
                            i as int,
                            acols@[a2 as int].view_seq()[i as int],
                        ));
                        assert(is_agg_cell(self.aggr_expr@[a2 as int], input@, *v));
                    }
                    match acc.accumulate(v) {
                        Ok(()) => {},
                        Err(e) => {
                            proof {
                                assert(!crate::accumulator::accumulate_accepts(acc0, *v));
                                match acc0 {
                                    Accumulators::Sum(_) => {
                                        assert(!kind_cell_ok(self.aggr_expr@[a2 as int], *v));
                                        assert(bad_kind_cell(self.aggr_expr@, input@));
                                    },
                                    Accumulators::Avg(_) => {
                                        assert(!kind_cell_ok(self.aggr_expr@[a2 as int], *v));
                                        assert(bad_kind_cell(self.aggr_expr@, input@));
                                    },
                                    Accumulators::Min(x) => {
                                        let cur = x.value->Some_0;
                                        assert(is_agg_cell(
                                            self.aggr_expr@[a2 as int],
                                            input@,
                                            cur,
                                        ));
                                        if cur is Number && *v is Date {
                                            assert(mixed_minmax_cells(self.aggr_expr@, input@));
                                        } else if cur is Date && *v is Number {
                                            assert(mixed_minmax_cells(self.aggr_expr@, input@));
                                        } else {
                                            assert(!kind_cell_ok(self.aggr_expr@[a2 as int], *v));
                                            assert(bad_kind_cell(self.aggr_expr@, input@));
                                        }
                                    },
                                    Accumulators::Max(x) => {
                                        let cur = x.value->Some_0;
                                        assert(is_agg_cell(
                                            self.aggr_expr@[a2 as int],
                                            input@,
                                            cur,
                                        ));
                                        if cur is Number && *v is Date {
                                            assert(mixed_minmax_cells(self.aggr_expr@, input@));
                                        } else if cur is Date && *v is Number {
                                            assert(mixed_minmax_cells(self.aggr_expr@, input@));
                                        } else {
                                            assert(!kind_cell_ok(self.aggr_expr@[a2 as int], *v));
                                            assert(bad_kind_cell(self.aggr_expr@, input@));
                                        }
                                    },
                                    Accumulators::Count(_) => {
                                        assert(false);
                                    },
                                }
                                assert(agg_fails_on(*self, input@));
                            }
                            return Err(e);
                        },
                    }
                    proof {
                        lemma_step_preserves(acc0, *v, acc, self.aggr_expr@[a2 as int], dt);
                        assert(minmax_origin(acc, self.aggr_expr@[a2 as int], input@));
                        assert(counter_le(acc0, processed));
                        assert(counter_le(acc, processed + 1));
                        // the new state folds the group's inputs extended by this row
                        let target = grp_prefix(
                            vals,
                            owner,
                            input@,
                            a2 as int,
                            slot as int,
                            k as int,
                            i as int,
                        ).push(vals[(k as int, i as int, a2 as int)]);
                        assert(target.drop_last() =~= grp_prefix(
                            vals,
                            owner,
                            input@,
                            a2 as int,
                            slot as int,
                            k as int,
                            i as int,
                        ));
                        assert(target.last() == *v);
                        assert(crate::accumulator::accumulate_step(acc0, target.last(), acc));
                        assert(folds_to(self.aggr_expr@[a2 as int], target, acc));
                    }
                    core::mem::swap(&mut acc, &mut row_accs[a2]);
                    a2 = a2 + 1;
                }
                let ghost fed = row_accs@;
                core::mem::swap(&mut row_accs, &mut accs[slot]);
                proof {
                    // replacing a slot's accumulators keeps the table facts
                    assert(accs@[slot as int]@ == fed);
                    assert(keys@.len() == accs@.len());
                    // this row's group is the slot it fed
                    assert forall|kr: Seq<Value>|
                        group_row_eval(gs, *batch, i as int, kr) implies vals_equiv_rows(
                        kr,
                        keys@[slot as int]@,
                    ) by {
                        assert forall|q: int| 0 <= q < gs.len() implies val_equiv(
                            #[trigger] kr[q],
                            key@[q],
                        ) by {
                            assert(gs[q].eval_ok(*batch, i as int, key@[q]));
                            crate::physical_expr::lemma_eval_det(
                                gs[q],
                                *batch,
                                i as int,
                                kr[q],
                                key@[q],
                            );
                            lemma_repr_equiv(kr[q], key@[q]);
                        }
                        assert(vals_equiv_rows(kr, key@));
                        lemma_rows_equiv_trans(kr, key@, keys@[slot as int]@);
                    }
                    // one more row folded in
                    processed = processed + 1;
                    assert forall|j2: int, a: int|
                        0 <= j2 < accs@.len() && 0 <= a < accs@[j2]@.len() implies counter_le(
                        #[trigger] accs@[j2]@[a],
                        processed,
                    ) by {
                        if j2 == slot as int {
                            assert(counter_le(fed[a], processed));
                        } else {
                            assert(counter_le(accs@[j2]@[a], (processed - 1) as nat));
                        }
                    }
                    assert forall|j2: int, a: int|
                        0 <= j2 < accs@.len() && 0 <= a < naggr implies folds_to(
                        self.aggr_expr@[a],
                        grp_prefix(vals, owner, input@, a, j2, k as int, i + 1),
                        #[trigger] accs@[j2]@[a],
                    ) by {
                        if j2 == slot as int {
                            assert(accs@[j2]@[a] == fed[a]);
                            assert(folds_to(
                                self.aggr_expr@[a],
                                grp_prefix(vals, owner, input@, a, slot as int, k as int, i as int)
                                    .push(vals[(k as int, i as int, a)]),
                                fed[a],
                            ));
                            assert(grp_prefix(vals, owner, input@, a, j2, k as int, i + 1)
                                =~= grp_prefix(
                                vals,
                                owner,
                                input@,
                                a,
                                slot as int,
                                k as int,
                                i as int,
                            ).push(vals[(k as int, i as int, a)]));
                        } else {
                            assert(folds_to(
                                self.aggr_expr@[a],
                                grp_prefix(vals, owner, input@, a, j2, k as int, i as int),
                                accs@[j2]@[a],
                            ));
                            assert(grp_prefix(vals, owner, input@, a, j2, k as int, i + 1)
                                =~= grp_prefix(vals, owner, input@, a, j2, k as int, i as int));
                        }
                    }
                }
                i = i + 1;
            }
            proof {
                assert(input@.take(k + 1).drop_last() =~= input@.take(k as int));
                assert(input@.take(k + 1).last() == input@[k as int]);
                assert(processed == total_rows(input@.take(k + 1)));
                assert forall|j2: int, a: int|
                    0 <= j2 < accs@.len() && 0 <= a < naggr implies folds_to(
                    self.aggr_expr@[a],
                    grp_prefix(vals, owner, input@, a, j2, k + 1, 0),
                    #[trigger] accs@[j2]@[a],
                ) by {
                    assert(folds_to(
                        self.aggr_expr@[a],
                        grp_prefix(vals, owner, input@, a, j2, k as int, nrows as int),
                        accs@[j2]@[a],
                    ));
                    assert(grp_prefix(vals, owner, input@, a, j2, k + 1, 0) =~= grp_prefix(
                        vals,
                        owner,
                        input@,
                        a,
                        j2,
                        k as int,
                        nrows as int,
                    ));
                }
            }
            k = k + 1;
        }
        // build the output table: key columns then aggregate columns
        let nentries = keys.len();
        let mut table: Vec<Vec<Value>> = Vec::new();
        let mut c: usize = 0;
        while c < ngroups
            invariant
                gs == self.group_expr@,
                ngroups == gs.len(),
                nentries == keys@.len(),
                keys@.len() == accs@.len(),
                forall|j: int| 0 <= j < keys@.len() ==> (#[trigger] keys@[j]@).len() == gs.len(),
                forall|j: int, t3: int|
                    0 <= j < keys@.len() && 0 <= t3 < (#[trigger] keys@[j]@).len() ==> (
                    #[trigger] keys@[j]@[t3]).wf() && keys@[j]@[t3].fits_type(
                        self.schema.fields@[t3].datatype,
                    ),
                c <= ngroups,
                table@.len() == c,
                forall|q: int|
                    0 <= q < c ==> (#[trigger] table@[q]@).len() == nentries && (forall|j: int|
                        0 <= j < nentries ==> (#[trigger] table@[q]@[j]).wf()
                            && table@[q]@[j].fits_type(self.schema.fields@[q].datatype)
                            && table@[q]@[j] == keys@[j]@[q]),
            decreases ngroups - c,
        {
            let mut colv: Vec<Value> = Vec::new();
            let mut j: usize = 0;
            while j < nentries
                invariant
                    ngroups == gs.len(),
                    c < ngroups,
                    nentries == keys@.len(),
                    forall|q: int| 0 <= q < keys@.len() ==> (#[trigger] keys@[q]@).len() == gs.len(),
                    forall|q: int, t3: int|
                        0 <= q < keys@.len() && 0 <= t3 < (#[trigger] keys@[q]@).len() ==> (
                        #[trigger] keys@[q]@[t3]).wf() && keys@[q]@[t3].fits_type(
                            self.schema.fields@[t3].datatype,
                        ),
                    j <= nentries,
                    colv@.len() == j,
                    forall|q: int|
                        0 <= q < j ==> (#[trigger] colv@[q]).wf() && colv@[q].fits_type(
                            self.schema.fields@[c as int].datatype,
                        ) && colv@[q] == keys@[q]@[c as int],
                decreases nentries - j,
            {
                colv.push(dup_value(&keys[j][c]));
                j = j + 1;
            }
            table.push(colv);
            c = c + 1;
        }
        let mut a3: usize = 0;
        while a3 < naggr
            invariant
                infields == self.input.out_fields(),
                gs == self.group_expr@,
                ngroups == gs.len(),
                naggr == self.aggr_expr@.len(),
                forall|a: int|
                    0 <= a < naggr ==> self.schema.fields@[gs.len() + a].datatype
                        == aggr_out_dtype(#[trigger] self.aggr_expr@[a], infields),
                nentries == keys@.len(),
                keys@.len() == accs@.len(),
                forall|j: int| 0 <= j < accs@.len() ==> (#[trigger] accs@[j]@).len() == naggr,
                forall|j: int, a: int|
                    0 <= j < accs@.len() && 0 <= a < naggr ==> (#[trigger] accs@[j]@[a]).inv()
                        && acc_kind_matches(accs@[j]@[a], self.aggr_expr@[a])
                        && crate::accumulator::acc_fits(
                        accs@[j]@[a],
                        self.schema.fields@[gs.len() + a].datatype,
                    ),
                a3 <= naggr,
                table@.len() == ngroups + a3,
                forall|q: int|
                    0 <= q < table@.len() ==> (#[trigger] table@[q]@).len() == nentries && (forall|
                        j: int,
                    |
                        0 <= j < nentries ==> (#[trigger] table@[q]@[j]).wf()
                            && table@[q]@[j].fits_type(self.schema.fields@[q].datatype)),
                forall|q: int, j: int|
                    0 <= q < ngroups && 0 <= j < nentries ==> #[trigger] table@[q]@[j] == keys@[j]@[
                        q],
                forall|q: int, j: int|
                    ngroups <= q < table@.len() && 0 <= j < nentries
                        ==> #[trigger] crate::accumulator::acc_finishes(
                        accs@[j]@[q - ngroups],
                        table@[q]@[j],
                    ),
            decreases naggr - a3,
        {
            let mut colv: Vec<Value> = Vec::new();
            let mut j: usize = 0;
            while j < nentries
                invariant
                    infields == self.input.out_fields(),
                    gs == self.group_expr@,
                    ngroups == gs.len(),
                    naggr == self.aggr_expr@.len(),
                    forall|a: int|
                        0 <= a < naggr ==> self.schema.fields@[gs.len() + a].datatype
                            == aggr_out_dtype(#[trigger] self.aggr_expr@[a], infields),
                    a3 < naggr,
                    nentries == keys@.len(),
                    keys@.len() == accs@.len(),
                    forall|q: int| 0 <= q < accs@.len() ==> (#[trigger] accs@[q]@).len() == naggr,
                    forall|q: int, a: int|
                        0 <= q < accs@.len() && 0 <= a < naggr ==> (#[trigger] accs@[q]@[a]).inv()
                            && acc_kind_matches(accs@[q]@[a], self.aggr_expr@[a])
                            && crate::accumulator::acc_fits(
                            accs@[q]@[a],
                            self.schema.fields@[gs.len() + a].datatype,
                        ),
                    j <= nentries,
                    colv@.len() == j,
                    forall|q: int|
                        0 <= q < j ==> (#[trigger] colv@[q]).wf() && colv@[q].fits_type(
                            self.schema.fields@[ngroups + a3 as int].datatype,
                        ) && crate::accumulator::acc_finishes(accs@[q]@[a3 as int], colv@[q]),
                decreases nentries - j,
            {
                let v = accs[j][a3].get_value();
                proof {
                    assert(self.schema.fields@[gs.len() + a3 as int].datatype == aggr_out_dtype(
                        self.aggr_expr@[a3 as int],
                        infields,
                    ));
                    lemma_value_fits(
                        accs@[j as int]@[a3 as int],
                        v,
                        self.aggr_expr@[a3 as int],
                        self.schema.fields@[ngroups + a3 as int].datatype,
                    );
                }
                colv.push(v);
                j = j + 1;
            }
            table.push(colv);
            a3 = a3 + 1;
        }
        proof {
            assert(crate::record_batch::cols_uniform(table@)) by {
                if table@.len() > 0 {
                    assert(table@[0]@.len() == nentries as nat);
                }
            }
            assert(crate::record_batch::cols_typed(table@, self.schema.fields@));
        }
        let out = RecordBatch::to_record_batch(table, &self.schema);
        proof {
            let gks = keys@.map_values(|v: Vec<Value>| v@);
            assert(batches_wf(out@, self.schema.fields@));
            // every output column flattens back to its table column
            assert forall|c2: int| 0 <= c2 < self.schema.fields@.len() implies #[trigger] flat_col(
                out@,
                c2,
            ) == table@[c2]@ by {
                if out@.len() >= 1 {
                    assert((out@.len() - 1) * 1024 <= table@[c2]@.len()) by (nonlinear_arith)
                        requires
                            out@.len() >= 1,
                            table@[c2]@.len() == nentries as nat,
                            nentries == 0 ==> out@.len() == 1,
                            nentries >= 1 ==> out@.len() == (nentries + 1023) / 1024,
                    ;
                }
                lemma_chunks_flat(out@, c2, table@[c2]@);
                if out@.len() * 1024 <= table@[c2]@.len() {
                    assert(table@[c2]@.len() <= out@.len() * 1024) by (nonlinear_arith)
                        requires
                            table@[c2]@.len() == nentries as nat,
                            nentries == 0 ==> out@.len() == 1,
                            nentries >= 1 ==> out@.len() == (nentries + 1023) / 1024,
                    ;
                }
                assert(table@[c2]@.subrange(
                    0,
                    if out@.len() * 1024 <= table@[c2]@.len() {
                        out@.len() as int * 1024
                    } else {
                        table@[c2]@.len() as int
                    },
                ) =~= table@[c2]@);
            }
            assert forall|t: int, c2: int|
                0 <= t < gks.len() && 0 <= c2 < gs.len() implies #[trigger] flat_col(out@, c2)[t]
                == gks[t][c2] by {
                assert(flat_col(out@, c2) == table@[c2]@);
                assert(table@[c2]@[t] == keys@[t]@[c2]);
                assert(gks[t] == keys@[t]@);
            }
            if self.schema.fields@.len() > 0 {
                lemma_flat_len(out@, self.schema.fields@, 0);
                assert(flat_col(out@, 0).len() == nentries as nat) by {
                    assert(flat_col(out@, 0) == table@[0]@.subrange(
                        0,
                        if out@.len() * 1024 <= table@[0]@.len() {
                            out@.len() as int * 1024
                        } else {
                            table@[0]@.len() as int
                        },
                    )) by {
                        if out@.len() >= 1 {
                            assert((out@.len() - 1) * 1024 <= table@[0]@.len())
                                by (nonlinear_arith)
                                requires
                                    out@.len() >= 1,
                                    table@[0]@.len() == 0 ==> out@.len() == 1,
                                    table@[0]@.len() >= 1 ==> out@.len() == (table@[0]@.len()
                                        + 1023) / 1024,
                            ;
                        }
                        lemma_chunks_flat(out@, 0, table@[0]@);
                    }
                    if out@.len() * 1024 <= table@[0]@.len() {
                        assert(table@[0]@.len() <= out@.len() * 1024) by (nonlinear_arith)
                            requires
                                table@[0]@.len() == 0 ==> out@.len() == 1,
                                table@[0]@.len() >= 1 ==> out@.len() == (table@[0]@.len() + 1023)
                                    / 1024,
                        ;
                    }
                }
                assert(total_rows(out@) == gks.len());
            } else {
                assert(false);
            }
            assert forall|x: int, y: int| 0 <= x < y < gks.len() implies !vals_equiv_rows(
                #[trigger] gks[x],
                #[trigger] gks[y],
            ) by {
                assert(gks[x] == keys@[x]@);
                assert(gks[y] == keys@[y]@);
            }
            assert forall|t: int| 0 <= t < gks.len() implies key_from_input(
                gs,
                input@,
                #[trigger] gks[t],
            ) by {
                assert(gks[t] == keys@[t]@);
                let k2 = wk[t].0;
                let i2 = wk[t].1;
                assert(0 <= k2 < input@.len() && 0 <= i2 < input@[k2].nrows() && group_row_eval(
                    gs,
                    input@[k2],
                    i2,
                    gks[t],
                ));
            }
            assert forall|k2: int, i2: int, kr: Seq<Value>|
                0 <= k2 < input@.len() && 0 <= i2 < input@[k2].nrows() && group_row_eval(
                    gs,
                    input@[k2],
                    i2,
                    kr,
                ) implies key_covered(gks, kr) by {
                let t = owner[(k2, i2)];
                assert(vals_equiv_rows(kr, keys@[t]@));
                assert(gks[t] == keys@[t]@);
                assert(0 <= t < gks.len() && vals_equiv_rows(kr, gks[t]));
            }
            assert(aggregate_output_ok(gks, out@, input@, gs));
            // the aggregate value columns fold their groups
            assert forall|t: int, a: int|
                0 <= t < gks.len() && 0 <= a < naggr implies #[trigger] cell_folds(
                self.aggr_expr@[a],
                grp_inputs(vals, owner, input@, a, t, input@.len() as int),
                flat_col(out@, gs.len() + a)[t],
            ) by {
                assert(flat_col(out@, ngroups + a) == table@[ngroups + a]@);
                let q = ngroups + a;
                assert(crate::accumulator::acc_finishes(accs@[t]@[q - ngroups], table@[q]@[t]));
                assert(q - ngroups == a);
                assert(crate::accumulator::acc_finishes(accs@[t]@[a], table@[ngroups + a]@[t]));
                assert(crate::accumulator::acc_finishes(
                    accs@[t]@[a],
                    flat_col(out@, gs.len() + a)[t],
                ));
                assert(folds_to(
                    self.aggr_expr@[a],
                    grp_prefix(vals, owner, input@, a, t, input@.len() as int, 0),
                    accs@[t]@[a],
                ));
                assert(grp_prefix(vals, owner, input@, a, t, input@.len() as int, 0) =~= grp_inputs(
                    vals,
                    owner,
                    input@,
                    a,
                    t,
                    input@.len() as int,
                ));
            }
            assert forall|k2: int, i2: int|
                0 <= k2 < input@.len() && 0 <= i2 < input@[k2].nrows() implies #[trigger] owner.dom().contains(
                (k2, i2),
            ) && 0 <= owner[(k2, i2)] < gks.len() && (forall|kr: Seq<Value>|
                group_row_eval(self.group_expr@, input@[k2], i2, kr) ==> vals_equiv_rows(
                    kr,
                    gks[owner[(k2, i2)]],
                )) by {
                assert(gks[owner[(k2, i2)]] == keys@[owner[(k2, i2)]]@);
            }
            assert(agg_fold_witness(*self, input@, out@, gks, owner, vals));
            assert(agg_values_ok(*self, input@, out@, gks));
            assert(agg_emits(*self, input@, out@));
        }
        Ok(out)
    }
}

/// The finished value of an accumulator fits the datatype of its column.
pub proof fn lemma_value_fits(
    st: Accumulators,
    v: Value,
    a: AggregateExpressions,
    dt: crate::types::DataType,
)
    requires
        st.inv(),
        acc_kind_matches(st, a),
        crate::accumulator::acc_fits(st, dt),
        (st is Sum || st is Count || st is Avg) ==> dt == crate::types::DataType::Number,
        v.wf(),
        match st {
            Accumulators::Sum(x) => match x.value {
                Some(w) => v == w,
                None => v == Value::Null,
            },
            Accumulators::Count(_) => v is Number,
            Accumulators::Min(x) => match x.value {
                Some(w) => v == w,
                None => v == Value::Null,
            },
            Accumulators::Max(x) => match x.value {
                Some(w) => v == w,
                None => v == Value::Null,
            },
            Accumulators::Avg(x) => v is Number || v is Null,
        },
    ensures
        v.fits_type(dt),
{
}

/// The accumulator kind belongs to the aggregate expression.
pub open spec fn acc_kind_matches(st: Accumulators, a: AggregateExpressions) -> bool {
    match a {
        AggregateExpressions::Sum(_) => st is Sum,
        AggregateExpressions::Count(_) => st is Count,
        AggregateExpressions::Min(_) => st is Min,
        AggregateExpressions::Max(_) => st is Max,
        AggregateExpressions::Avg(_) => st is Avg,
    }
}

/// Row equivalence is reflexive on well-formed rows.
pub proof fn lemma_rows_equiv_refl(a: Seq<Value>)
    requires
        forall|t: int| 0 <= t < a.len() ==> (#[trigger] a[t]).wf(),
    ensures
        vals_equiv_rows(a, a),
{
    assert forall|t: int| 0 <= t < a.len() implies val_equiv(#[trigger] a[t], a[t]) by {
        crate::sorting::lemma_val_equiv_sym(a[t], a[t]);
        lemma_equiv_refl(a[t]);
    }
}

/// Every value equals itself semantically.
pub proof fn lemma_equiv_refl(v: Value)
    ensures
        crate::types::val_equiv(v, v),
{
    match v {
        Value::Number(x) => {
            crate::numeric::lemma_rat_eq_from(
                x.num(),
                x.scale as int,
                x.num(),
                x.scale as int,
                if x.scale >= 0 {
                    x.scale as int
                } else {
                    0
                },
            );
        },
        _ => {},
    }
}

/// Row equivalence is symmetric.
pub proof fn lemma_rows_equiv_sym(a: Seq<Value>, b: Seq<Value>)
    requires
        vals_equiv_rows(a, b),
    ensures
        vals_equiv_rows(b, a),
{
    assert forall|t: int| 0 <= t < b.len() implies val_equiv(#[trigger] b[t], a[t]) by {
        crate::sorting::lemma_val_equiv_sym(a[t], b[t]);
    }
}

/// Row equivalence is transitive.
pub proof fn lemma_rows_equiv_trans(a: Seq<Value>, b: Seq<Value>, c: Seq<Value>)
    requires
        vals_equiv_rows(a, b),
        vals_equiv_rows(b, c),
    ensures
        vals_equiv_rows(a, c),
{
    assert forall|t: int| 0 <= t < a.len() implies val_equiv(#[trigger] a[t], c[t]) by {
        crate::sorting::lemma_val_equiv_trans(a[t], b[t], c[t]);
    }
}

/// Representation equality implies semantic equality.
pub proof fn lemma_repr_equiv(a: Value, b: Value)
    requires
        crate::types::val_eq_repr(a, b),
    ensures
        crate::types::val_equiv(a, b),
{
    match (a, b) {
        (Value::Number(x), Value::Number(y)) => {
            crate::numeric::lemma_rat_eq_from(
                x.num(),
                x.scale as int,
                y.num(),
                y.scale as int,
                if x.scale >= y.scale {
                    if x.scale >= 0 {
                        x.scale as int
                    } else {
                        0
                    }
                } else {
                    if y.scale >= 0 {
                        y.scale as int
                    } else {
                        0
                    }
                },
            );
        },
        _ => {},
    }
}

/// One accumulation step keeps the accumulator inside its kind, its
/// invariant, and the datatype of its output column.
pub proof fn lemma_step_preserves(
    st: Accumulators,
    v: Value,
    st2: Accumulators,
    a: AggregateExpressions,
    dt: crate::types::DataType,
)
    requires
        st.inv(),
        st2.inv(),
        v.wf(),
        acc_kind_matches(st, a),
        crate::accumulator::acc_fits(st, dt),
        crate::accumulator::accumulate_step(st, v, st2),
        st is Sum == st2 is Sum,
        st is Count == st2 is Count,
        st is Min == st2 is Min,
        st is Max == st2 is Max,
        st is Avg == st2 is Avg,
        (st is Min || st is Max) ==> v.fits_type(dt),
    ensures
        acc_kind_matches(st2, a),
        crate::accumulator::acc_fits(st2, dt),
{
}



/// The plan can emit exactly this batch stream: each operator's emission
/// relation holds of some stream its child emits.
pub open spec fn executes_to(p: PhysicalPlans, out: Seq<RecordBatch>) -> bool
    decreases p,
{
    match p {
        PhysicalPlans::Scan(s) => scan_emits(s, out),
        PhysicalPlans::Projection(pr) => exists|mid: Seq<RecordBatch>|
            executes_to(*pr.input, mid) && #[trigger] projection_emits(pr, mid, out),
        PhysicalPlans::Filter(f) => exists|mid: Seq<RecordBatch>|
            executes_to(*f.input, mid) && #[trigger] filter_emits(f, mid, out),
        PhysicalPlans::Limit(l) => exists|mid: Seq<RecordBatch>|
            executes_to(*l.input, mid) && #[trigger] limit_emits(l, mid, out),
        PhysicalPlans::Sort(so) => exists|mid: Seq<RecordBatch>|
            executes_to(*so.input, mid) && #[trigger] sort_emits(so, mid, out),
        PhysicalPlans::HashAggregate(h) => exists|mid: Seq<RecordBatch>|
            executes_to(*h.input, mid) && #[trigger] agg_emits(h, mid, out),
    }
}


/// The named conditions under which running the plan may fail: a child
/// fails, an expression hits a type error on an emitted stream, a sort key
/// is no plain column, a grouping meets a value of the wrong kind, or a
/// counter would overflow the machine.
pub open spec fn plan_errs(p: PhysicalPlans) -> bool
    decreases p,
{
    match p {
        PhysicalPlans::Scan(_) => false,
        PhysicalPlans::Projection(pr) => plan_errs(*pr.input) || exists|mid: Seq<RecordBatch>|
            #[trigger] executes_to(*pr.input, mid) && stream_expr_err(pr.expr@, mid),
        PhysicalPlans::Filter(f) => plan_errs(*f.input) || exists|mid: Seq<RecordBatch>, k: int|
            #[trigger] executes_to(*f.input, mid) && 0 <= k < mid.len() && #[trigger] expr_errs_on(
                f.expr,
                mid[k],
            ),
        PhysicalPlans::Limit(l) => plan_errs(*l.input),
        PhysicalPlans::Sort(so) => plan_errs(*so.input) || sort_key_columns(so.sort_keys@) is None,
        PhysicalPlans::HashAggregate(h) => plan_errs(*h.input) || exists|mid: Seq<RecordBatch>|
            #[trigger] executes_to(*h.input, mid) && (agg_fails_on(h, mid) || total_rows(mid)
                >= usize::MAX),
    }
}

impl PhysicalPlans {
    /// The schema of the batches this operator emits.
    pub fn schema(&self) -> (r: Schema)
        ensures
            r.fields@ == self.out_fields(),
    {
        match self {
            PhysicalPlans::Scan(s) => {
                if s.projection.len() == 0 {
                    s.datasource.schema().duplicate()
                } else {
                    s.datasource.schema().select(&s.projection)
                }
            },
            PhysicalPlans::Projection(p) => p.schema.duplicate(),
            PhysicalPlans::Filter(f) => f.schema.duplicate(),
            PhysicalPlans::Limit(l) => l.schema.duplicate(),
            PhysicalPlans::HashAggregate(h) => h.schema.duplicate(),
            PhysicalPlans::Sort(s) => s.schema.duplicate(),
        }
    }

    /// Runs the pipeline and materialises every output batch, in order.
    /// Every batch of the result carries the plan's schema, with all its
    /// columns of the batch's row count.
    pub fn execute(&self) -> (r: Result<Vec<RecordBatch>, ZakuError>)
        requires
            self.wf_plan(),
        ensures
            match r {
                Ok(bs) => batches_wf(bs@, self.out_fields()) && executes_to(*self, bs@),
                Err(e) => !(e is IoError) && !(e is CsvError) && plan_errs(*self),
            },
        decreases self,
    {
        match self {
            PhysicalPlans::Scan(s) => {
                let r = s.execute();
                proof {
                    if r is Ok {
                        assert(executes_to(*self, r->Ok_0@));
                    }
                }
                r
            },
            PhysicalPlans::Projection(p) => {
                let inb = match p.input.execute() {
                    Ok(bs) => bs,
                    Err(e) => {
                        return Err(e);
                    },
                };
                let r = p.project_batches(&inb);
                proof {
                    assert(executes_to(*p.input, inb@));
                    if r is Ok {
                        assert(executes_to(*self, r->Ok_0@));
                    } else {
                        assert(plan_errs(*self));
                    }
                }
                r
            },
            PhysicalPlans::Filter(f) => {
                let inb = match f.input.execute() {
                    Ok(bs) => bs,
                    Err(e) => {
                        return Err(e);
                    },
                };
                let mut out: Vec<RecordBatch> = Vec::new();
                let mut k: usize = 0;
                while k < inb.len()
                    invariant
                        PhysicalPlans::Filter(*f).wf_plan(),
                        batches_wf(inb@, f.input.out_fields()),
                        k <= inb@.len(),
                        batches_wf(out@, f.schema.fields@),
                        out@.len() == k,
                        forall|q: int|
                            0 <= q < k ==> (#[trigger] out@[q]).nrows() <= inb@[q].nrows(),
                        forall|q: int|
                            0 <= q < k ==> filter_keeps(*f, inb@[q], #[trigger] out@[q]),
                        executes_to(*f.input, inb@),
                        *self == PhysicalPlans::Filter(*f),
                    decreases inb@.len() - k,
                {
                    match f.filter_batch(&inb[k]) {
                        Ok(b) => {
                            out.push(b);
                        },
                        Err(e) => {
                            proof {
                                assert(executes_to(*f.input, inb@) && 0 <= k < inb@.len()
                                    && expr_errs_on(f.expr, inb@[k as int]));
                                assert(plan_errs(*self));
                            }
                            return Err(e);
                        },
                    }
                    k = k + 1;
                }
                proof {
                    assert(executes_to(*f.input, inb@) && filter_emits(*f, inb@, out@));
                    assert(executes_to(*self, out@));
                }
                Ok(out)
            },
            PhysicalPlans::Limit(l) => {
                let inb = match l.input.execute() {
                    Ok(bs) => bs,
                    Err(e) => {
                        return Err(e);
                    },
                };
                let r = l.limit_batches(&inb);
                proof {
                    assert(executes_to(*l.input, inb@));
                    if r is Ok {
                        assert(executes_to(*self, r->Ok_0@));
                    }
                }
                r
            },
            PhysicalPlans::Sort(so) => {
                let inb = match so.input.execute() {
                    Ok(bs) => bs,
                    Err(e) => {
                        return Err(e);
                    },
                };
                let r = so.sort_batches(&inb);
                proof {
                    assert(executes_to(*so.input, inb@));
                    if r is Ok {
                        assert(executes_to(*self, r->Ok_0@));
                    } else {
                        assert(plan_errs(*self));
                    }
                }
                r
            },
            PhysicalPlans::HashAggregate(h) => {
                let inb = match h.input.execute() {
                    Ok(bs) => bs,
                    Err(e) => {
                        return Err(e);
                    },
                };
                let r = h.aggregate_batches(&inb);
                proof {
                    assert(executes_to(*h.input, inb@));
                    if r is Ok {
                        assert(executes_to(*self, r->Ok_0@));
                    } else {
                        assert(plan_errs(*self));
                    }
                }
                r
            },
        }
    }
}


/// Sorting is idempotent: when a stream already stands in the key order a
/// sort imposes — as the output of that same sort does, ascending flags or
/// not — running the sort again hands back the very same batches: the same
/// batch count and, column for column, the same rows.
pub proof fn lemma_sort_idempotent(
    mid: Seq<RecordBatch>,
    out: Seq<RecordBatch>,
    inds: Seq<usize>,
    asc: Seq<bool>,
    fields: Seq<Field>,
)
    requires
        batches_wf(mid, fields),
        batches_wf(out, fields),
        // what the sort that produced `mid` guarantees of it
        forall|k: int, c: int|
            0 <= k < mid.len() && 0 <= c < fields.len() ==> (#[trigger] mid[k].columns@[c]).view_seq() == flat_col(
                mid,
                c,
            ).subrange(
                k * 1024,
                if (k + 1) * 1024 <= total_rows(mid) {
                    (k + 1) * 1024
                } else {
                    total_rows(mid) as int
                },
            ),
        mid.len() == (if total_rows(mid) == 0 {
            1int
        } else {
            (total_rows(mid) as int + 1023) / 1024
        }),
        // what sorting `mid` again guarantees of `out`
        total_rows(out) == total_rows(mid),
        forall|k: int, c: int|
            0 <= k < out.len() && 0 <= c < fields.len() ==> (#[trigger] out[k].columns@[c]).view_seq() == flat_col(
                out,
                c,
            ).subrange(
                k * 1024,
                if (k + 1) * 1024 <= total_rows(out) {
                    (k + 1) * 1024
                } else {
                    total_rows(out) as int
                },
            ),
        out.len() == (if total_rows(out) == 0 {
            1int
        } else {
            (total_rows(out) as int + 1023) / 1024
        }),
        // the re-sort of the already ordered stream kept every flat column
        forall|c: int| 0 <= c < fields.len() ==> #[trigger] flat_col(out, c) == flat_col(mid, c),
    ensures
        out.len() == mid.len(),
        forall|k: int, c: int|
            0 <= k < out.len() && 0 <= c < fields.len() ==> (#[trigger] out[k].columns@[c]).view_seq()
                == mid[k].columns@[c].view_seq(),
{
    assert forall|k: int, c: int|
        0 <= k < out.len() && 0 <= c < fields.len() implies (
    #[trigger] out[k].columns@[c]).view_seq() == mid[k].columns@[c].view_seq() by {
        assert(flat_col(out, c) == flat_col(mid, c));
    }
}

} // verus!
