//! An embeddable SQL query engine over tabular data loaded from delimited
//! text. A statement is tokenized and parsed, resolved into a typed logical
//! plan, lowered into a streaming physical plan, and run into columnar
//! record batches that can be printed or written back out as delimited text.
//!
//! The columnar model, the expression algebra, the planner and the operators
//! are verified; the arbitrary-precision decimal arithmetic and the calendar
//! parsing are called in outside crates behind a small trusted boundary.

use vstd::prelude::*;

mod accumulator;
mod column_vector;
mod csv_source;
mod csvtext;
mod dataframe;
mod datasink;
mod datasource;
mod dates;
mod display;
mod error;
mod execute;
mod logical_expr;
mod logical_plan;
mod numeric;
mod operators;
mod physical_expr;
mod physical_plan;
mod prettifier;
mod record_batch;
mod schema;
mod sorting;
mod sql_parser;
mod sql_tokens;
mod strutil;
mod test_utils;
mod types;
mod ui;

pub use accumulator::{Accumulators, AggregateExpressions, Avg, Count, Max, Min, Sum};
pub use column_vector::{ColumnVector, LiteralVector, Vectors};
pub use dataframe::Dataframe;
pub use datasink::Datasink;
pub use datasource::{CSVDatasource, Datasources, MemDatasource};
pub use dates::{parse_date, parse_iso_date_from_str, Date};
pub use display::format_physical_plan;
pub use error::ZakuError;
pub use execute::execute;
pub use logical_expr::{
    display_logical_expr, AggregateExprs, AliasExpr, BinaryExpr, BinaryExprs, Column, LogicalExprs,
};
pub use logical_plan::{
    Aggregate, Filter as LogicalFilter, Limit as LogicalLimit, LogicalPlans,
    Projection as LogicalProjection, Scan, Sort as LogicalSort,
};
pub use numeric::Decimal;
pub use operators::{BinaryOp, BooleanOp, MathOp};
pub use physical_expr::PhysicalExprs;
pub use physical_plan::{
    FilterExec, HashAggregateExec, LimitExec, PhysicalPlans, ProjectionExec, ScanExec, SortExec,
};
pub use prettifier::{get_divider, pad_value, RecordBatchPrettifier};
pub use record_batch::{RecordBatch, BATCH_SIZE};
pub use schema::{Field, Schema};
pub use sql_parser::{parse, parse_expr, parse_select, SelectStmt, Stmt};
pub use sql_tokens::{ascii_lower, tokenize, BinOpToken, Token};
pub use test_utils::{flatten_column, ContainerData, DatasinkBuilder};
pub use types::{DataType, Value};
pub use ui::{command_from_input, Command};

verus! {

} // verus!
