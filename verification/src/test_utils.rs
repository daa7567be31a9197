use vstd::prelude::*;

use crate::column_vector::{ColumnVector, Vectors};
use crate::record_batch::RecordBatch;
use crate::schema::{Field, Schema};
use crate::strutil::str_eq;
use crate::types::{val_equiv_exec, DataType, Value};

verus! {

/// An expected result: a schema with its batches, as tests write them down.
#[derive(Debug)]
pub struct ContainerData {
    pub schema: Schema,
    pub data: Vec<RecordBatch>,
}

/// Builds expected results from short type names and rows of raw strings.
#[derive(Debug)]
pub struct DatasinkBuilder {
    pub schema: Option<Schema>,
    pub data: Option<Vec<Vec<Value>>>,
}

impl DatasinkBuilder {
    pub fn new() -> (r: DatasinkBuilder)
        ensures
            r.schema is None,
            r.data is None,
    {
        DatasinkBuilder { schema: None, data: None }
    }

    /// Reads one short type name: `num`, `text`, `bool` or `date`.
    fn get_datatype_from_str(s: &str) -> (r: DataType) {
        if str_eq(s, "num") {
            DataType::Number
        } else if str_eq(s, "bool") {
            DataType::Boolean
        } else if str_eq(s, "date") {
            DataType::Date
        } else {
            DataType::Text
        }
    }

    /// Names the columns and their types.
    pub fn add_schema(self, col_names: Vec<&str>, datatypes: Vec<&str>) -> (r: DatasinkBuilder) {
        let n = col_names.len();
        let mut fields: Vec<Field> = Vec::new();
        let mut i: usize = 0;
        while i < n
            invariant
                n == col_names@.len(),
                i <= n,
            decreases n - i,
        {
            let dt = if i < datatypes.len() {
                DatasinkBuilder::get_datatype_from_str(datatypes[i])
            } else {
                DataType::Text
            };
            let mut name = String::new();
            name.append(col_names[i]);
            fields.push(Field { name, datatype: dt });
            i = i + 1;
        }
        DatasinkBuilder { schema: Some(Schema { fields }), data: self.data }
    }

    /// Adds the rows, each cell written as the raw string of its value; a
    /// cell that does not read at its column's type reads as `Null`.
    pub fn add_data(self, data: Vec<Vec<&str>>) -> (r: DatasinkBuilder) {
        let schema = match &self.schema {
            Some(s) => s,
            None => {
                return DatasinkBuilder { schema: self.schema, data: self.data };
            },
        };
        let ncols = schema.fields.len();
        let mut cols: Vec<Vec<Value>> = Vec::new();
        let mut c: usize = 0;
        while c < ncols
            invariant
                ncols == schema.fields@.len(),
                c <= ncols,
                cols@.len() == c,
                forall|q: int|
                    0 <= q < c ==> (#[trigger] cols@[q]@).len() == 0,
            decreases ncols - c,
        {
            cols.push(Vec::new());
            c = c + 1;
        }
        let nrows = data.len();
        let mut i: usize = 0;
        while i < nrows
            invariant
                ncols == schema.fields@.len(),
                nrows == data@.len(),
                i <= nrows,
                cols@.len() == ncols,
                forall|q: int| 0 <= q < ncols ==> (#[trigger] cols@[q]@).len() == i,
                forall|q: int, w: int|
                    0 <= q < ncols && 0 <= w < cols@[q]@.len() ==> (#[trigger] cols@[q]@[w]).wf()
                        && cols@[q]@[w].fits_type(schema.fields@[q].datatype),
            decreases nrows - i,
        {
            let row = &data[i];
            let mut c2: usize = 0;
            while c2 < ncols
                invariant
                    ncols == schema.fields@.len(),
                    i < nrows,
                    nrows == data@.len(),
                    row == &data@[i as int],
                    c2 <= ncols,
                    cols@.len() == ncols,
                    forall|q: int|
                        0 <= q < ncols ==> (#[trigger] cols@[q]@).len() == (if q < c2 {
                            i + 1
                        } else {
                            i as int
                        }),
                    forall|q: int, w: int|
                        0 <= q < ncols && 0 <= w < cols@[q]@.len() ==> (
                        #[trigger] cols@[q]@[w]).wf() && cols@[q]@[w].fits_type(
                            schema.fields@[q].datatype,
                        ),
                decreases ncols - c2,
            {
                let cell: &str = if c2 < row.len() {
                    row[c2]
                } else {
                    ""
                };
                let dt = schema.fields[c2].datatype;
                let v = match Value::value_from_string_checked(cell, &dt) {
                    Some(v) => v,
                    None => Value::Null,
                };
                let mut target = Vec::new();
                core::mem::swap(&mut target, &mut cols[c2]);
                target.push(v);
                core::mem::swap(&mut target, &mut cols[c2]);
                c2 = c2 + 1;
            }
            i = i + 1;
        }
        DatasinkBuilder { schema: self.schema, data: Some(cols) }
    }

    /// Builds the expected result: one batch over the declared schema.
    pub fn build(self) -> (r: ContainerData) {
        let schema = match self.schema {
            Some(s) => s,
            None => Schema { fields: Vec::new() },
        };
        let mut columns: Vec<Vectors> = Vec::new();
        match self.data {
            Some(cols) => {
                let mut c: usize = 0;
                let ncols = cols.len();
                while c < ncols
                    invariant
                        ncols == cols@.len(),
                        c <= ncols,
                    decreases ncols - c,
                {
                    let dt = if c < schema.fields.len() {
                        schema.fields[c].datatype
                    } else {
                        DataType::Text
                    };
                    let mut values: Vec<Value> = Vec::new();
                    let col = &cols[c];
                    let mut i: usize = 0;
                    while i < col.len()
                        invariant
                            c < cols@.len(),
                            col == &cols@[c as int],
                            i <= col@.len(),
                        decreases col@.len() - i,
                    {
                        values.push(crate::types::dup_value(&col[i]));
                        i = i + 1;
                    }
                    columns.push(Vectors::ColumnVector(ColumnVector { datatype: dt, values }));
                    c = c + 1;
                }
            },
            None => {
                let mut c: usize = 0;
                while c < schema.fields.len()
                    invariant
                        c <= schema.fields@.len(),
                    decreases schema.fields@.len() - c,
                {
                    columns.push(
                        Vectors::ColumnVector(
                            ColumnVector {
                                datatype: schema.fields[c].datatype,
                                values: Vec::new(),
                            },
                        ),
                    );
                    c = c + 1;
                }
            },
        }
        let schema2 = schema.duplicate();
        let batch = RecordBatch { schema, columns };
        let mut data: Vec<RecordBatch> = Vec::new();
        data.push(batch);
        ContainerData { schema: schema2, data }
    }
}

impl ContainerData {
    /// Whether a materialised result matches this expectation: the same
    /// field names and types, the same total rows, and cell by cell the
    /// same value, numbers compared numerically.
    pub fn matches_batches(&self, actual: &Vec<RecordBatch>) -> (r: bool) {
        let ncols = self.schema.fields.len();
        // schemas agree
        let mut c: usize = 0;
        while c < ncols
            invariant
                ncols == self.schema.fields@.len(),
                c <= ncols,
            decreases ncols - c,
        {
            let mut k: usize = 0;
            while k < actual.len()
                invariant
                    ncols == self.schema.fields@.len(),
                    c < self.schema.fields@.len(),
                    k <= actual@.len(),
                decreases actual@.len() - k,
            {
                let b = &actual[k];
                if b.schema.fields.len() != ncols {
                    return false;
                }
                if !str_eq(
                    b.schema.fields[c].name.as_str(),
                    self.schema.fields[c].name.as_str(),
                ) {
                    return false;
                }
                if !crate::types::datatype_eq(&b.schema.fields[c].datatype, &self.schema.fields[c].datatype) {
                    return false;
                }
                k = k + 1;
            }
            c = c + 1;
        }
        // the expected cells, flattened
        let mut erows: usize = 0;
        let mut k2: usize = 0;
        while k2 < self.data.len()
            invariant
                k2 <= self.data@.len(),
            decreases self.data@.len() - k2,
        {
            let n = self.data[k2].row_count();
            if erows > usize::MAX - n {
                return false;
            }
            erows = erows + n;
            k2 = k2 + 1;
        }
        let mut arows: usize = 0;
        let mut k3: usize = 0;
        while k3 < actual.len()
            invariant
                k3 <= actual@.len(),
            decreases actual@.len() - k3,
        {
            let n = actual[k3].row_count();
            if arows > usize::MAX - n {
                return false;
            }
            arows = arows + n;
            k3 = k3 + 1;
        }
        if erows != arows {
            return false;
        }
        // cell by cell, walking both streams in row order
        let mut c2: usize = 0;
        while c2 < ncols
            invariant
                ncols == self.schema.fields@.len(),
                c2 <= ncols,
            decreases ncols - c2,
        {
            let evals = flatten_column(&self.data, c2);
            let avals = flatten_column(actual, c2);
            if evals.len() != avals.len() {
                return false;
            }
            let mut i: usize = 0;
            while i < evals.len()
                invariant
                    evals@.len() == avals@.len(),
                    i <= evals@.len(),
                    forall|q: int| 0 <= q < evals@.len() ==> (#[trigger] evals@[q]).wf(),
                    forall|q: int| 0 <= q < avals@.len() ==> (#[trigger] avals@[q]).wf(),
                decreases evals@.len() - i,
            {
                if !val_equiv_exec(&evals[i], &avals[i]) {
                    return false;
                }
                i = i + 1;
            }
            c2 = c2 + 1;
        }
        true
    }
}

/// The values of one column across a batch stream, in row order; a batch
/// without that column contributes nothing.
pub fn flatten_column(batches: &Vec<RecordBatch>, c: usize) -> (r: Vec<Value>)
    ensures
        forall|q: int| 0 <= q < r@.len() ==> (#[trigger] r@[q]).wf(),
{
    let mut out: Vec<Value> = Vec::new();
    let mut k: usize = 0;
    while k < batches.len()
        invariant
            k <= batches@.len(),
            forall|q: int| 0 <= q < out@.len() ==> (#[trigger] out@[q]).wf(),
        decreases batches@.len() - k,
    {
        let b = &batches[k];
        if c < b.columns.len() {
            let col = &b.columns[c];
            let n = col.size();
            let mut i: usize = 0;
            while i < n
                invariant
                    k < batches@.len(),
                    b == &batches@[k as int],
                    c < b.columns@.len(),
                    col == &b.columns@[c as int],
                    n as nat == col.view_seq().len(),
                    i <= n,
                    forall|q: int| 0 <= q < out@.len() ==> (#[trigger] out@[q]).wf(),
                decreases n - i,
            {
                let v = col.get_value(&i);
                if is_wf_value(v) {
                    out.push(crate::types::dup_value(v));
                }
                i = i + 1;
            }
        }
        k = k + 1;
    }
    out
}

/// Checks at run time that a value's payload is well formed.
pub fn is_wf_value(v: &Value) -> (r: bool)
    ensures
        r == v.wf(),
{
    match v {
        Value::Number(d) => {
            let s = d.digits.as_str();
            let n = s.unicode_len();
            if n == 0 {
                return false;
            }
            if d.scale < 0 {
                return false;
            }
            let mut i: usize = 0;
            let mut all_ok = true;
            while i < n
                invariant
                    n == s@.len(),
                    i <= n,
                    all_ok == (forall|q: int|
                        0 <= q < i ==> crate::numeric::is_digit_char(#[trigger] s@[q])),
                decreases n - i,
            {
                let ch = s.get_char(i);
                let u = ch as u32;
                if !(48 <= u && u <= 57) {
                    all_ok = false;
                }
                i = i + 1;
            }
            if !all_ok {
                return false;
            }
            if n > 1 && s.get_char(0) == '0' {
                return false;
            }
            proof {
                crate::numeric::lemma_chars_int_zero(d.digits@);
            }
            if d.neg && n == 1 && s.get_char(0) == '0' {
                proof {
                    assert(d.digits@ =~= seq!['0']);
                }
                return false;
            }
            proof {
                if !(d.digits@ =~= seq!['0']) {
                    if d.digits@.len() == 1 {
                        assert(d.digits@[0] != '0');
                    }
                }
            }
            true
        },
        Value::Date(d) => d.year <= 9999 && 1 <= d.month && d.month <= 12 && 1 <= d.day && d.day
            <= 31,
        _ => true,
    }
}

} // verus!
