use vstd::prelude::*;

use crate::column_vector::{ColumnVector, Vectors};
use crate::dataframe::Dataframe;
use crate::datasink::Datasink;
use crate::datasource::{Datasources, MemDatasource};
use crate::error::ZakuError;
use crate::logical_plan::{lowers_to, plan_lowers};
use crate::physical_plan::{PhysicalPlans, ScanExec};
use crate::record_batch::RecordBatch;
use crate::schema::{Field, Schema};
use crate::sql_parser::{explain_wildcard_tokens, parse, wildcard_tokens, Stmt};
use crate::sql_tokens::tokens_spec;
use crate::types::{DataType, Value};

verus! {

/// Plans one frame into a sink ready to stream: the sink carries the
/// frame's own schema over the lowered plan, and planning succeeds exactly
/// when the frame's expressions lower.
fn execute_select(df: &Dataframe) -> (r: Result<Datasink, ZakuError>)
    requires
        df.wf(),
    ensures
        match r {
            Ok(s) => s.wf() && s.schema.fields@ == df.plan.out_lfields() && plan_lowers(df.plan)
                && lowers_to(df.plan, s.input),
            Err(e) => e is ResolutionError && !plan_lowers(df.plan),
        },
{
    let schema = df.schema();
    let plan = match df.logical_plan().to_physical_plan() {
        Ok(p) => p,
        Err(e) => {
            return Err(e);
        },
    };
    Ok(Datasink { schema, input: plan })
}

/// Builds the one-row, one-column answer of an `EXPLAIN`: a sink over one
/// batch of one `Text` cell that holds the pretty printed plan, succeeding
/// exactly when the frame's plan lowers.
fn execute_explain(df: &Dataframe) -> (r: Result<Datasink, ZakuError>)
    requires
        df.wf(),
    ensures
        match r {
            Ok(s) => {
                &&& s.wf()
                &&& plan_lowers(df.plan)
                &&& s.schema.fields@.len() == 1
                &&& s.schema.fields@[0].datatype == DataType::Text
                &&& (s.input matches PhysicalPlans::Scan(sc) && sc.projection@.len() == 0
                    && sc.datasource.data_spec().len() == 1 && sc.datasource.data_spec()[0].nrows()
                    == 1 && sc.datasource.data_spec()[0].columns@.len() == 1
                    && sc.datasource.data_spec()[0].columns@[0].view_seq()[0] is Text)
            },
            Err(e) => e is ResolutionError && !plan_lowers(df.plan),
        },
{
    let plan = match df.logical_plan().to_physical_plan() {
        Ok(p) => p,
        Err(e) => {
            return Err(e);
        },
    };
    let text = crate::display::format_physical_plan(&plan, 0);
    let mut name = String::new();
    crate::strutil::push_char(&mut name, 'Q');
    crate::strutil::push_char(&mut name, 'u');
    crate::strutil::push_char(&mut name, 'e');
    crate::strutil::push_char(&mut name, 'r');
    crate::strutil::push_char(&mut name, 'y');
    crate::strutil::push_char(&mut name, ' ');
    crate::strutil::push_char(&mut name, 'P');
    crate::strutil::push_char(&mut name, 'l');
    crate::strutil::push_char(&mut name, 'a');
    crate::strutil::push_char(&mut name, 'n');
    let field = Field { name, datatype: DataType::Text };
    let mut fields: Vec<Field> = Vec::new();
    fields.push(field);
    let schema = Schema { fields };
    let mut values: Vec<Value> = Vec::new();
    values.push(Value::Text(text));
    let mut columns: Vec<Vectors> = Vec::new();
    columns.push(Vectors::ColumnVector(ColumnVector { datatype: DataType::Text, values }));
    let batch = RecordBatch { schema: schema.duplicate(), columns };
    let mut data: Vec<RecordBatch> = Vec::new();
    proof {
        assert(batch.wf()) by {
            assert(batch.columns@.len() == 1);
            assert(batch.columns@[0].view_seq().len() == 1);
            assert(batch.columns@[0].view_seq()[0] is Text);
        }
    }
    data.push(batch);
    let ds = Datasources::Mem(MemDatasource::new(schema.duplicate(), data));
    let scan = PhysicalPlans::Scan(ScanExec { datasource: ds, projection: Vec::new() });
    Ok(Datasink { schema, input: scan })
}

/// Parses one SQL statement against a frame and plans it into a sink; a
/// `COPY … TO` sink carries its target path for the caller to write.
pub fn execute(sql: &str, df: &Dataframe) -> (r: Result<(Datasink, Option<String>), ZakuError>)
    requires
        df.wf(),
    ensures
        match r {
            Ok(p) => p.0.wf(),
            Err(e) => e is ParseError || e is ResolutionError,
        },
        (tokens_spec(sql@) matches Some(tv) && wildcard_tokens(tv) && plan_lowers(df.plan)) ==> (
        r matches Ok(p) && p.1 is None && p.0.schema.fields@ == df.plan.out_lfields()),
        (tokens_spec(sql@) matches Some(tv) && explain_wildcard_tokens(tv) && plan_lowers(df.plan))
            ==> (r matches Ok(p) && p.1 is None && p.0.schema.fields@.len() == 1
            && p.0.schema.fields@[0].datatype == DataType::Text && (
        p.0.input matches PhysicalPlans::Scan(sc) && sc.datasource.data_spec().len() == 1
            && sc.datasource.data_spec()[0].nrows() == 1
            && sc.datasource.data_spec()[0].columns@.len() == 1)),
{
    let stmt = match parse(sql, df) {
        Ok(s) => s,
        Err(e) => {
            return Err(e);
        },
    };
    match stmt {
        Stmt::Select(d) => {
            match execute_select(&d) {
                Ok(s) => Ok((s, None)),
                Err(e) => Err(e),
            }
        },
        Stmt::Explain(d) => {
            match execute_explain(&d) {
                Ok(s) => Ok((s, None)),
                Err(e) => Err(e),
            }
        },
        Stmt::CopyTo(d, path) => {
            match execute_select(&d) {
                Ok(s) => Ok((s, Some(path))),
                Err(e) => Err(e),
            }
        },
    }
}

} // verus!
