use vstd::prelude::*;

use crate::csvtext::{csv_rows_spec, parse_csv_text};
use crate::dataframe::Dataframe;
use crate::datasource::{CSVDatasource, Datasources};
use crate::error::ZakuError;
use crate::logical_plan::{LogicalPlans, Scan};
use crate::physical_plan::{flat_col, lemma_chunks_flat, lemma_flat_len, total_rows};
use crate::record_batch::{RecordBatch, BATCH_SIZE};
use crate::schema::{Field, Schema};
use crate::types::{inferred_type, valid_for, value_of_string, DataType, Value};

verus! {

/// The type a column's sampled cells settle on: each non-empty cell resets
/// it, and a cell that reads as text locks it there.
pub open spec fn infer_cells(cells: Seq<Seq<char>>) -> (DataType, bool)
    decreases cells.len(),
{
    if cells.len() == 0 {
        (DataType::Text, false)
    } else {
        let prev = infer_cells(cells.drop_last());
        if prev.1 || cells.last().len() == 0 {
            prev
        } else {
            (inferred_type(cells.last()), inferred_type(cells.last()) == DataType::Text)
        }
    }
}

/// How many data rows the inference samples: the first batch at most.
pub open spec fn sample_rows(m: Seq<Seq<Seq<char>>>) -> int {
    if m.len() - 1 > BATCH_SIZE as int {
        BATCH_SIZE as int
    } else {
        m.len() - 1
    }
}

/// The first `n` data cells of column `c`, in row order.
pub open spec fn col_cells(m: Seq<Seq<Seq<char>>>, c: int, n: int) -> Seq<Seq<char>>
    decreases n,
{
    if n <= 0 {
        Seq::empty()
    } else {
        col_cells(m, c, n - 1).push(m[n][c])
    }
}

/// The datatype inferred for column `c` of a parsed table.
pub open spec fn col_type_of(m: Seq<Seq<Seq<char>>>, c: int) -> DataType {
    infer_cells(col_cells(m, c, sample_rows(m))).0
}

/// Whether a parsed table loads: a header row with at least one name, every
/// data row as wide as the header, and every data cell empty or readable at
/// its column's inferred type.
pub open spec fn csv_loads(m: Seq<Seq<Seq<char>>>) -> bool {
    &&& m.len() >= 1
    &&& m[0].len() >= 1
    &&& (forall|r: int| 1 <= r < m.len() ==> (#[trigger] m[r]).len() == m[0].len())
    &&& (forall|r: int, c: int|
        1 <= r < m.len() && 0 <= c < m[0].len() ==> (#[trigger] m[r][c]).len() == 0 || valid_for(
            m[r][c],
            col_type_of(m, c),
        ))
}

/// What a frame loaded from delimited text holds: a scan whose schema is
/// the header under the inferred types, and whose rows are the parsed cells
/// read at those types, in order.
pub open spec fn csv_frame_ok(df: Dataframe, m: Seq<Seq<Seq<char>>>) -> bool {
    &&& df.plan is Scan
    &&& df.plan->Scan_0.projection@.len() == 0
    &&& df.plan.out_lfields() == df.plan->Scan_0.datasource.schema_spec().fields@
    &&& df.plan->Scan_0.datasource.schema_spec().fields@.len() == m[0].len()
    &&& (forall|c: int|
        0 <= c < m[0].len() ==> (
        #[trigger] df.plan->Scan_0.datasource.schema_spec().fields@[c]).name@ == m[0][c]
            && df.plan->Scan_0.datasource.schema_spec().fields@[c].datatype == col_type_of(m, c))
    &&& total_rows(df.plan->Scan_0.datasource.data_spec()) == m.len() - 1
    &&& (forall|c: int, r2: int|
        0 <= c < m[0].len() && 0 <= r2 < m.len() - 1 ==> value_of_string(
            #[trigger] m[r2 + 1][c],
            col_type_of(m, c),
            flat_col(df.plan->Scan_0.datasource.data_spec(), c)[r2],
        ))
}

impl CSVDatasource {
    /// Builds a table out of delimited text: the first row names the
    /// columns, the types are inferred from the first batch of rows with
    /// text sticking once seen, empty cells read as `Null`, and every cell
    /// must then read at its column's type.
    pub fn from_csv_text(path: &str, content: &str, delimiter: char) -> (r: Result<
        CSVDatasource,
        ZakuError,
    >)
        ensures
            r is Ok <==> (csv_rows_spec(content@, delimiter) matches Some(m) && csv_loads(m)),
            match r {
                Ok(ds) => Datasources::Csv(ds).wf() && csv_rows_spec(
                    content@,
                    delimiter,
                ) is Some && csv_table_ok(ds, csv_rows_spec(content@, delimiter)->Some_0),
                Err(e) => e is CsvError || e is ValueParseError,
            },
    {
        let rows = match parse_csv_text(content, delimiter) {
            Ok(rs) => rs,
            Err(e) => {
                return Err(e);
            },
        };
        let ghost m = csv_rows_spec(content@, delimiter)->Some_0;
        if rows.len() == 0 {
            return Err(ZakuError::CsvError(String::from_str("missing header row")));
        }
        let ncols = rows[0].len();
        if ncols == 0 {
            return Err(ZakuError::CsvError(String::from_str("missing column names")));
        }
        // the header names the fields; every row must be as wide
        let mut fields: Vec<Field> = Vec::new();
        let mut c: usize = 0;
        while c < ncols
            invariant
                rows@.len() > 0,
                ncols == rows@[0]@.len(),
                c <= ncols,
                fields@.len() == c,
                forall|q: int|
                    0 <= q < c ==> (#[trigger] fields@[q]).name@ == rows@[0]@[q]@
                        && fields@[q].datatype == DataType::Text,
            decreases ncols - c,
        {
            fields.push(Field { name: rows[0][c].clone(), datatype: DataType::Text });
            c = c + 1;
        }
        let mut k: usize = 1;
        while k < rows.len()
            invariant
                csv_rows_spec(content@, delimiter) == Some(m),
                m.len() == rows@.len(),
                forall|i2: int| 0 <= i2 < m.len() ==> (#[trigger] rows@[i2]@).len() == m[i2].len(),
                forall|i2: int, j2: int|
                    0 <= i2 < m.len() && 0 <= j2 < m[i2].len() ==> (#[trigger] rows@[i2]@[j2])@
                        == m[i2][j2],
                k <= rows@.len(),
                rows@.len() > 0,
                ncols == rows@[0]@.len(),
                forall|q: int| 1 <= q < k ==> (#[trigger] rows@[q]@).len() == ncols,
            decreases rows@.len() - k,
        {
            if rows[k].len() != ncols {
                proof {
                    assert(m[k as int].len() != m[0].len());
                    assert(!csv_loads(m));
                }
                return Err(ZakuError::CsvError(String::from_str("rows differ in width")));
            }
            k = k + 1;
        }
        // infer each column's type from the sampled rows
        let sample_end: usize = if rows.len() - 1 > BATCH_SIZE {
            1 + BATCH_SIZE
        } else {
            rows.len()
        };
        let mut locked: Vec<bool> = Vec::new();
        let mut c2: usize = 0;
        while c2 < ncols
            invariant
                c2 <= ncols,
                locked@.len() == c2,
                forall|q: int| 0 <= q < c2 ==> !(#[trigger] locked@[q]),
            decreases ncols - c2,
        {
            locked.push(false);
            c2 = c2 + 1;
        }
        let mut k2: usize = 1;
        proof {
            assert forall|q: int| 0 <= q < ncols implies col_cells(m, q, 0) =~= Seq::<
                Seq<char>,
            >::empty() by {}
        }
        while k2 < sample_end
            invariant
                csv_rows_spec(content@, delimiter) == Some(m),
                m.len() == rows@.len(),
                forall|i2: int| 0 <= i2 < m.len() ==> (#[trigger] rows@[i2]@).len() == m[i2].len(),
                forall|i2: int, j2: int|
                    0 <= i2 < m.len() && 0 <= j2 < m[i2].len() ==> (#[trigger] rows@[i2]@[j2])@
                        == m[i2][j2],
                1 <= k2 <= sample_end,
                sample_end <= rows@.len(),
                rows@.len() > 0,
                ncols == rows@[0]@.len(),
                forall|q: int| 1 <= q < rows@.len() ==> (#[trigger] rows@[q]@).len() == ncols,
                locked@.len() == ncols,
                fields@.len() == ncols,
                forall|q: int| 0 <= q < ncols ==> (#[trigger] fields@[q].name@) == rows@[0]@[q]@,
                forall|q: int|
                    0 <= q < ncols ==> (#[trigger] fields@[q].datatype) == infer_cells(
                        col_cells(m, q, k2 - 1),
                    ).0 && locked@[q] == infer_cells(col_cells(m, q, k2 - 1)).1,
            decreases sample_end - k2,
        {
            let mut c3: usize = 0;
            while c3 < ncols
                invariant
                csv_rows_spec(content@, delimiter) == Some(m),
                m.len() == rows@.len(),
                forall|i2: int| 0 <= i2 < m.len() ==> (#[trigger] rows@[i2]@).len() == m[i2].len(),
                forall|i2: int, j2: int|
                    0 <= i2 < m.len() && 0 <= j2 < m[i2].len() ==> (#[trigger] rows@[i2]@[j2])@
                        == m[i2][j2],
                    1 <= k2 < rows@.len(),
                    ncols == rows@[0]@.len(),
                    forall|q: int| 1 <= q < rows@.len() ==> (#[trigger] rows@[q]@).len() == ncols,
                    locked@.len() == ncols,
                    fields@.len() == ncols,
                    forall|q: int|
                        0 <= q < ncols ==> (#[trigger] fields@[q].name@) == rows@[0]@[q]@,
                    c3 <= ncols,
                    forall|q: int|
                        0 <= q < c3 ==> (#[trigger] fields@[q].datatype) == infer_cells(
                            col_cells(m, q, k2 as int),
                        ).0 && locked@[q] == infer_cells(col_cells(m, q, k2 as int)).1,
                    forall|q: int|
                        c3 <= q < ncols ==> (#[trigger] fields@[q].datatype) == infer_cells(
                            col_cells(m, q, k2 - 1),
                        ).0 && locked@[q] == infer_cells(col_cells(m, q, k2 - 1)).1,
                decreases ncols - c3,
            {
                proof {
                    assert(col_cells(m, c3 as int, k2 as int).drop_last() =~= col_cells(
                        m,
                        c3 as int,
                        k2 - 1,
                    ));
                    assert(col_cells(m, c3 as int, k2 as int).last() == m[k2 as int][c3 as int]);
                    assert(rows@[k2 as int]@[c3 as int]@ == m[k2 as int][c3 as int]);
                }
                let cell = &rows[k2][c3];
                if cell.as_str().unicode_len() > 0 && !locked[c3] {
                    let dt = DataType::get_type_from_string_val(cell.as_str());
                    if matches!(dt, DataType::Text) {
                        locked.set(c3, true);
                    }
                    let f = Field { name: fields[c3].name.clone(), datatype: dt };
                    fields.set(c3, f);
                }
                proof {
                    assert(fields@[c3 as int].datatype == infer_cells(
                        col_cells(m, c3 as int, k2 as int),
                    ).0);
                    assert(locked@[c3 as int] == infer_cells(col_cells(m, c3 as int, k2 as int)).1);
                }
                c3 = c3 + 1;
            }
            k2 = k2 + 1;
        }
        proof {
            assert(sample_end - 1 == sample_rows(m));
            assert forall|q: int| 0 <= q < ncols implies (#[trigger] fields@[q].datatype)
                == col_type_of(m, q) by {}
        }
        let schema = Schema { fields };
        // read every cell at its column's type
        let mut cols: Vec<Vec<Value>> = Vec::new();
        let mut c4: usize = 0;
        while c4 < ncols
            invariant
                schema.fields@.len() == ncols,
                c4 <= ncols,
                cols@.len() == c4,
                forall|q: int| 0 <= q < c4 ==> (#[trigger] cols@[q]@).len() == 0,
            decreases ncols - c4,
        {
            cols.push(Vec::new());
            c4 = c4 + 1;
        }
        let mut k3: usize = 1;
        while k3 < rows.len()
            invariant
                csv_rows_spec(content@, delimiter) == Some(m),
                m.len() == rows@.len(),
                forall|i2: int| 0 <= i2 < m.len() ==> (#[trigger] rows@[i2]@).len() == m[i2].len(),
                forall|i2: int, j2: int|
                    0 <= i2 < m.len() && 0 <= j2 < m[i2].len() ==> (#[trigger] rows@[i2]@[j2])@
                        == m[i2][j2],
                rows@.len() > 0,
                1 <= k3 <= rows@.len(),
                ncols == rows@[0]@.len(),
                forall|q: int| 1 <= q < rows@.len() ==> (#[trigger] rows@[q]@).len() == ncols,
                schema.fields@.len() == ncols,
                forall|q: int|
                    0 <= q < ncols ==> (#[trigger] schema.fields@[q].datatype) == col_type_of(m, q),
                cols@.len() == ncols,
                forall|q: int| 0 <= q < ncols ==> (#[trigger] cols@[q]@).len() == k3 - 1,
                forall|q: int, i: int|
                    0 <= q < ncols && 0 <= i < cols@[q]@.len() ==> (#[trigger] cols@[q]@[i]).wf()
                        && cols@[q]@[i].fits_type(schema.fields@[q].datatype),
                forall|q: int, i: int|
                    0 <= q < ncols && 0 <= i < k3 - 1 ==> #[trigger] value_of_string(
                        m[i + 1][q],
                        col_type_of(m, q),
                        cols@[q]@[i],
                    ) && (m[i + 1][q].len() == 0 || valid_for(m[i + 1][q], col_type_of(m, q))),
            decreases rows@.len() - k3,
        {
            let mut c5: usize = 0;
            while c5 < ncols
                invariant
                    csv_rows_spec(content@, delimiter) == Some(m),
                    m.len() == rows@.len(),
                    forall|i2: int| 0 <= i2 < m.len() ==> (#[trigger] rows@[i2]@).len() == m[i2].len(),
                    forall|i2: int, j2: int|
                        0 <= i2 < m.len() && 0 <= j2 < m[i2].len() ==> (#[trigger] rows@[i2]@[j2])@
                            == m[i2][j2],
                    1 <= k3 < rows@.len(),
                    ncols == rows@[0]@.len(),
                    forall|q: int| 1 <= q < rows@.len() ==> (#[trigger] rows@[q]@).len() == ncols,
                    schema.fields@.len() == ncols,
                    forall|q: int|
                        0 <= q < ncols ==> (#[trigger] schema.fields@[q].datatype) == col_type_of(
                            m,
                            q,
                        ),
                    cols@.len() == ncols,
                    c5 <= ncols,
                    forall|q: int|
                        0 <= q < ncols ==> (#[trigger] cols@[q]@).len() == (if q < c5 {
                            k3 as int
                        } else {
                            k3 - 1
                        }),
                    forall|q: int, i: int|
                        0 <= q < ncols && 0 <= i < cols@[q]@.len() ==> (
                        #[trigger] cols@[q]@[i]).wf() && cols@[q]@[i].fits_type(
                            schema.fields@[q].datatype,
                        ),
                    forall|q: int, i: int|
                        0 <= q < ncols && 0 <= i < cols@[q]@.len() ==> #[trigger] value_of_string(
                            m[i + 1][q],
                            col_type_of(m, q),
                            cols@[q]@[i],
                        ) && (m[i + 1][q].len() == 0 || valid_for(m[i + 1][q], col_type_of(m, q))),
                decreases ncols - c5,
            {
                proof {
                    assert(rows@[k3 as int]@[c5 as int]@ == m[k3 as int][c5 as int]);
                }
                let dt = schema.fields[c5].datatype;
                let v = match Value::value_from_string_checked(rows[k3][c5].as_str(), &dt) {
                    Some(v) => v,
                    None => {
                        proof {
                            assert(!(m[k3 as int][c5 as int].len() == 0 || valid_for(
                                m[k3 as int][c5 as int],
                                col_type_of(m, c5 as int),
                            )));
                            assert(!csv_loads(m));
                        }
                        return Err(
                            ZakuError::ValueParseError(
                                String::from_str("a cell does not read at its column's type"),
                            ),
                        );
                    },
                };
                let ghost pre_cols = cols@;
                let mut target = Vec::new();
                core::mem::swap(&mut target, &mut cols[c5]);
                target.push(v);
                core::mem::swap(&mut target, &mut cols[c5]);
                proof {
                    let i0 = k3 - 1;
                    assert(cols@[c5 as int]@[i0 as int] == v);
                    assert forall|q: int, i: int|
                        0 <= q < ncols && 0 <= i < cols@[q]@.len() implies #[trigger] value_of_string(
                        m[i + 1][q],
                        col_type_of(m, q),
                        cols@[q]@[i],
                    ) && (m[i + 1][q].len() == 0 || valid_for(m[i + 1][q], col_type_of(m, q))) by {
                        if q == c5 as int && i == i0 as int {
                            assert(value_of_string(
                                m[i0 + 1][c5 as int],
                                col_type_of(m, c5 as int),
                                cols@[c5 as int]@[i0 as int],
                            ));
                            assert(m[i0 + 1][c5 as int].len() == 0 || valid_for(
                                m[i0 + 1][c5 as int],
                                col_type_of(m, c5 as int),
                            ));
                        } else {
                            assert(cols@[q]@[i] == pre_cols[q]@[i]);
                            assert(value_of_string(m[i + 1][q], col_type_of(m, q), pre_cols[q]@[i]));
                            assert(m[i + 1][q].len() == 0 || valid_for(
                                m[i + 1][q],
                                col_type_of(m, q),
                            ));
                        }
                    }
                }
                c5 = c5 + 1;
            }
            k3 = k3 + 1;
        }
        let batches = RecordBatch::to_record_batch(cols, &schema);
        let ghost nrows: int = m.len() - 1;
        proof {
            // every flat output column is its value table column
            assert forall|c6: int| 0 <= c6 < ncols implies #[trigger] flat_col(batches@, c6)
                == cols@[c6]@ by {
                if batches@.len() >= 1 {
                    assert((batches@.len() - 1) * 1024 <= cols@[c6]@.len()) by (nonlinear_arith)
                        requires
                            batches@.len() >= 1,
                            cols@[c6]@.len() == nrows,
                            nrows == 0 ==> batches@.len() == 1,
                            nrows >= 1 ==> batches@.len() == (nrows + 1023) / 1024,
                    ;
                }
                lemma_chunks_flat(batches@, c6, cols@[c6]@);
                if batches@.len() * 1024 <= cols@[c6]@.len() {
                    assert(cols@[c6]@.len() <= batches@.len() * 1024) by (nonlinear_arith)
                        requires
                            cols@[c6]@.len() == nrows,
                            nrows == 0 ==> batches@.len() == 1,
                            nrows >= 1 ==> batches@.len() == (nrows + 1023) / 1024,
                    ;
                }
                assert(cols@[c6]@.subrange(
                    0,
                    if batches@.len() * 1024 <= cols@[c6]@.len() {
                        batches@.len() as int * 1024
                    } else {
                        cols@[c6]@.len() as int
                    },
                ) =~= cols@[c6]@);
            }
            lemma_flat_len(batches@, schema.fields@, 0);
            assert(total_rows(batches@) == nrows);
            assert forall|r2: int| 1 <= r2 < m.len() implies (#[trigger] m[r2]).len()
                == m[0].len() by {
                assert(rows@[r2]@.len() == ncols);
            }
            assert forall|r2: int, c6: int|
                1 <= r2 < m.len() && 0 <= c6 < m[0].len() implies (#[trigger] m[r2][c6]).len() == 0
                || valid_for(m[r2][c6], col_type_of(m, c6)) by {
                let i0 = r2 - 1;
                assert(value_of_string(m[i0 + 1][c6], col_type_of(m, c6), cols@[c6]@[i0]));
                assert(m[i0 + 1][c6].len() == 0 || valid_for(m[i0 + 1][c6], col_type_of(m, c6)));
                assert(r2 == i0 + 1);
            }
            assert(csv_loads(m));
        }
        let mut path_string = String::new();
        path_string.append(path);
        let out = CSVDatasource { path: path_string, schema, data: batches };
        proof {
            assert(csv_table_ok(out, m));
        }
        Ok(out)
    }
}

/// What a loaded table holds: the header names its fields under the
/// inferred types, and its batches carry the parsed cells read at those
/// types, in row order.
pub open spec fn csv_table_ok(ds: CSVDatasource, m: Seq<Seq<Seq<char>>>) -> bool {
    &&& ds.schema.fields@.len() == m[0].len()
    &&& (forall|c: int|
        0 <= c < m[0].len() ==> (#[trigger] ds.schema.fields@[c]).name@ == m[0][c]
            && ds.schema.fields@[c].datatype == col_type_of(m, c))
    &&& total_rows(ds.data@) == m.len() - 1
    &&& (forall|c: int, r2: int|
        0 <= c < m[0].len() && 0 <= r2 < m.len() - 1 ==> value_of_string(
            #[trigger] m[r2 + 1][c],
            col_type_of(m, c),
            flat_col(ds.data@, c)[r2],
        ))
}

/// A scan over a loaded table satisfies the frame contract.
proof fn lemma_csv_frame(df: Dataframe, csvds: CSVDatasource, m: Seq<Seq<Seq<char>>>)
    requires
        df.plan is Scan,
        df.plan->Scan_0.datasource == Datasources::Csv(csvds),
        df.plan->Scan_0.projection@.len() == 0,
        csv_table_ok(csvds, m),
    ensures
        csv_frame_ok(df, m),
{
    assert(df.plan->Scan_0.datasource.schema_spec() == csvds.schema);
    assert(df.plan->Scan_0.datasource.data_spec() == csvds.data@);
    assert(df.plan.out_lfields() == csvds.schema.fields@);
    assert forall|c: int, r2: int|
        0 <= c < m[0].len() && 0 <= r2 < m.len() - 1 implies value_of_string(
        #[trigger] m[r2 + 1][c],
        col_type_of(m, c),
        flat_col(df.plan->Scan_0.datasource.data_spec(), c)[r2],
    ) by {
        assert(value_of_string(m[r2 + 1][c], col_type_of(m, c), flat_col(csvds.data@, c)[r2]));
    }
    assert(csv_frame_ok(df, m));
}

impl Dataframe {
    /// A frame over a table read from delimited text.
    pub fn from_csv_text(path: &str, content: &str, delimiter: char) -> (r: Result<
        Dataframe,
        ZakuError,
    >)
        ensures
            r is Ok <==> (csv_rows_spec(content@, delimiter) matches Some(m) && csv_loads(m)),
            match r {
                Ok(df) => df.wf() && csv_rows_spec(content@, delimiter) is Some && csv_frame_ok(
                    df,
                    csv_rows_spec(content@, delimiter)->Some_0,
                ),
                Err(e) => e is CsvError || e is ValueParseError,
            },
    {
        let ds = match CSVDatasource::from_csv_text(path, content, delimiter) {
            Ok(d) => d,
            Err(e) => {
                return Err(e);
            },
        };
        let ghost gds = ds;
        let df = Dataframe {
            plan: LogicalPlans::Scan(
                Scan { datasource: Datasources::Csv(ds), projection: Vec::new() },
            ),
        };
        proof {
            let ghost m = csv_rows_spec(content@, delimiter)->Some_0;
            lemma_csv_frame(df, gds, m);
        }
        Ok(df)
    }
}

} // verus!
