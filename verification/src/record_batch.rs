use vstd::prelude::*;

use crate::column_vector::{ColumnVector, Vectors};
use crate::error::ZakuError;
use crate::schema::{Field, Schema};
use crate::sorting::{key_of, perm_ok, row_le, stable_sort_indices};
use crate::types::{dup_value, DataType, Value};

verus! {

/// The number of rows a materialised batch aims for.
pub const BATCH_SIZE: usize = 1024;

/// An immutable bundle of same-length columns under a schema.
#[derive(Debug, Clone)]
pub struct RecordBatch {
    pub schema: Schema,
    pub columns: Vec<Vectors>,
}

/// `out` holds exactly the rows of `inp`, rearranged by the permutation
/// `perm`, with ties under the key order left in their input order.
pub open spec fn batch_sorted_by(
    out: RecordBatch,
    inp: RecordBatch,
    ks: Seq<usize>,
    asc: Seq<bool>,
    perm: Seq<usize>,
) -> bool {
    &&& perm.len() == inp.nrows()
    &&& crate::sorting::perm_ok(perm, inp.nrows() as int)
    &&& forall|c: int, i: int|
        0 <= c < out.columns@.len() && 0 <= i < perm.len()
            ==> #[trigger] out.columns@[c].view_seq()[i] == inp.columns@[c].view_seq()[
        perm[i] as int]
    &&& forall|i: int, j: int|
        0 <= i < j < perm.len() && crate::sorting::row_equiv(
            inp.key_row(ks, #[trigger] perm[i] as int),
            inp.key_row(ks, #[trigger] perm[j] as int),
            asc,
        ) ==> perm[i] < perm[j]
}

impl RecordBatch {
    /// The shared row count: the length of the first column.
    pub open spec fn nrows(self) -> nat {
        if self.columns@.len() == 0 {
            0
        } else {
            self.columns@[0].view_seq().len()
        }
    }

    /// One column per schema field, every column of the field's type, all
    /// columns of one length, and every value well formed.
    pub open spec fn wf(self) -> bool {
        &&& self.columns@.len() == self.schema.fields@.len()
        &&& forall|j: int|
            0 <= j < self.columns@.len() ==> (#[trigger] self.columns@[j]).wf()
        &&& forall|j: int|
            0 <= j < self.columns@.len() ==> (#[trigger] self.columns@[j]).dtype()
                == self.schema.fields@[j].datatype
        &&& forall|j: int|
            0 <= j < self.columns@.len() ==> (#[trigger] self.columns@[j]).view_seq().len()
                == self.nrows()
    }

    /// The key row of batch row `i` under the key column list `ks`.
    pub open spec fn key_row(self, ks: Seq<usize>, i: int) -> Seq<Value> {
        Seq::new(ks.len(), |t: int| self.columns@[ks[t] as int].view_seq()[i])
    }

    pub fn new(schema: Schema, columns: Vec<Vectors>) -> (r: RecordBatch)
        ensures
            r.schema == schema,
            r.columns == columns,
    {
        RecordBatch { schema, columns }
    }

    pub fn schema(&self) -> (r: &Schema)
        ensures
            r == &self.schema,
    {
        &self.schema
    }

    pub fn columns(&self) -> (r: &Vec<Vectors>)
        ensures
            r == &self.columns,
    {
        &self.columns
    }

    /// The shared length of the columns; an empty batch has no rows.
    pub fn row_count(&self) -> (r: usize)
        ensures
            r as nat == self.nrows(),
    {
        if self.columns.len() == 0 {
            0
        } else {
            self.columns[0].size()
        }
    }

    pub fn column_count(&self) -> (r: usize)
        ensures
            r as int == self.columns@.len(),
    {
        self.columns.len()
    }

    /// The column at the given position.
    pub fn get(&self, index: &usize) -> (r: Result<&Vectors, ZakuError>)
        ensures
            match r {
                Ok(c) => *index < self.columns@.len() && *c == self.columns@[*index as int],
                Err(e) => *index >= self.columns@.len() && e is InternalError,
            },
    {
        if *index >= self.columns.len() {
            return Err(ZakuError::new("index out of bounds"));
        }
        Ok(&self.columns[*index])
    }

    /// Copies the batch; schema fields and column contents carry over.
    pub fn duplicate(&self) -> (r: RecordBatch)
        ensures
            r.schema.fields@ == self.schema.fields@,
            r.columns@.len() == self.columns@.len(),
            forall|j: int|
                0 <= j < self.columns@.len() ==> (#[trigger] r.columns@[j]).view_seq()
                    == self.columns@[j].view_seq() && r.columns@[j].dtype()
                    == self.columns@[j].dtype(),
            self.wf() ==> r.wf(),
    {
        let schema = self.schema.duplicate();
        let mut columns: Vec<Vectors> = Vec::new();
        let mut j: usize = 0;
        while j < self.columns.len()
            invariant
                j <= self.columns@.len(),
                columns@.len() == j,
                forall|k: int|
                    0 <= k < j ==> (#[trigger] columns@[k]).view_seq()
                        == self.columns@[k].view_seq() && columns@[k].dtype()
                        == self.columns@[k].dtype() && (self.columns@[k].wf()
                        ==> columns@[k].wf()),
            decreases self.columns@.len() - j,
        {
            columns.push(self.columns[j].duplicate());
            j = j + 1;
        }
        let r = RecordBatch { schema, columns };
        proof {
            if self.wf() {
                assert(r.nrows() == self.nrows());
            }
        }
        r
    }

    /// Sorts the rows by the given key columns, applying the matching
    /// direction flag to each key: a stable lexicographic sort. Sorting an
    /// already sorted batch returns it unchanged.
    pub fn sort(&self, keys: &Vec<usize>, asc: &Vec<bool>) -> (r: Result<RecordBatch, ZakuError>)
        requires
            self.wf(),
        ensures
            match r {
                Ok(b) => {
                    &&& keys@.len() == asc@.len()
                    &&& forall|t: int| 0 <= t < keys@.len() ==> (#[trigger] keys@[t] as int) < self.columns@.len()
                    &&& b.wf()
                    &&& b.schema.fields@ == self.schema.fields@
                    &&& b.nrows() == self.nrows()
                    &&& b.columns@.len() == self.columns@.len()
                    &&& forall|j: int|
                        0 <= j < b.columns@.len() ==> (#[trigger] b.columns@[j]).dtype()
                            == self.columns@[j].dtype()
                    &&& forall|i: int, j: int|
                        0 <= i < j < b.nrows() ==> row_le(
                            #[trigger] b.key_row(keys@, i),
                            #[trigger] b.key_row(keys@, j),
                            asc@,
                        )
                    &&& (forall|i: int, j: int|
                        0 <= i < j < self.nrows() ==> row_le(
                            #[trigger] self.key_row(keys@, i),
                            #[trigger] self.key_row(keys@, j),
                            asc@,
                        )) ==> forall|j: int|
                        0 <= j < b.columns@.len() ==> (#[trigger] b.columns@[j]).view_seq()
                            == self.columns@[j].view_seq()
                    &&& exists|perm: Seq<usize>| #[trigger] batch_sorted_by(
                        b,
                        *self,
                        keys@,
                        asc@,
                        perm,
                    )
                },
                Err(e) => (keys@.len() != asc@.len() || exists|t: int|
                    0 <= t < keys@.len() && (#[trigger] keys@[t] as int)
                        >= self.columns@.len()) && e is InternalError,
            },
    {
        if keys.len() != asc.len() {
            return Err(ZakuError::new("each sort key needs a direction"));
        }
        let mut t: usize = 0;
        while t < keys.len()
            invariant
                t <= keys@.len(),
                forall|k: int| 0 <= k < t ==> (#[trigger] keys@[k] as int) < self.columns@.len(),
            decreases keys@.len() - t,
        {
            if keys[t] >= self.columns.len() {
                return Err(ZakuError::new("sort key out of range"));
            }
            t = t + 1;
        }
        let n = self.row_count();
        // materialise the key rows
        let mut keyrows: Vec<Vec<Value>> = Vec::new();
        let mut i: usize = 0;
        while i < n
            invariant
                self.wf(),
                n as nat == self.nrows(),
                keys@.len() == asc@.len(),
                forall|k: int| 0 <= k < keys@.len() ==> (#[trigger] keys@[k] as int) < self.columns@.len(),
                i <= n,
                keyrows@.len() == i,
                forall|k: int|
                    0 <= k < i ==> (#[trigger] keyrows@[k]@) =~= self.key_row(keys@, k),
            decreases n - i,
        {
            let mut row: Vec<Value> = Vec::new();
            let mut t: usize = 0;
            while t < keys.len()
                invariant
                    self.wf(),
                    n as nat == self.nrows(),
                    i < n,
                    forall|k: int| 0 <= k < keys@.len() ==> (#[trigger] keys@[k] as int) < self.columns@.len(),
                    t <= keys@.len(),
                    row@.len() == t,
                    forall|k: int|
                        0 <= k < t ==> #[trigger] row@[k] == self.columns@[keys@[k] as int].view_seq()[i as int],
                decreases keys@.len() - t,
            {
                row.push(dup_value(self.columns[keys[t]].get_value(&i)));
                t = t + 1;
            }
            proof {
                assert(row@ =~= self.key_row(keys@, i as int));
            }
            keyrows.push(row);
            i = i + 1;
        }
        proof {
            assert forall|k: int| 0 <= k < keyrows@.len() implies crate::sorting::row_wf(
                #[trigger] keyrows@[k]@,
            ) by {
                assert(keyrows@[k]@ =~= self.key_row(keys@, k));
                assert forall|t: int| 0 <= t < keyrows@[k]@.len() implies keyrows@[k]@[t].wf() by {
                    assert(self.columns@[keys@[t] as int].wf());
                    assert(self.columns@[keys@[t] as int].view_seq()[k].wf());
                }
            }
            assert(forall|k: int|
                0 <= k < keyrows@.len() ==> (#[trigger] keyrows@[k]@).len() == asc@.len());
        }
        let perm = stable_sort_indices(&keyrows, asc);
        // rebuild every column in the sorted order
        let mut columns: Vec<Vectors> = Vec::new();
        let mut j: usize = 0;
        while j < self.columns.len()
            invariant
                self.wf(),
                n as nat == self.nrows(),
                perm@.len() == n as nat,
                perm_ok(perm@, n as int),
                j <= self.columns@.len(),
                columns@.len() == j,
                forall|k: int|
                    0 <= k < j ==> (#[trigger] columns@[k]).dtype() == self.columns@[k].dtype()
                        && columns@[k].wf() && columns@[k].view_seq().len() == n as nat
                        && forall|i: int|
                        0 <= i < n ==> columns@[k].view_seq()[i] == self.columns@[k].view_seq()[
                            perm@[i] as int
                        ],
            decreases self.columns@.len() - j,
        {
            columns.push(self.columns[j].reorder(&perm));
            j = j + 1;
        }
        let out = RecordBatch { schema: self.schema.duplicate(), columns };
        proof {
            assert(out.nrows() == self.nrows()) by {
                if out.columns@.len() > 0 {
                    assert(out.columns@[0].view_seq().len() == n as nat);
                }
            }
            // the sorted batch reads its key rows through the permutation
            assert forall|i: int| 0 <= i < n implies #[trigger] out.key_row(keys@, i)
                =~= keyrows@[perm@[i] as int]@ by {
                assert(keyrows@[perm@[i] as int]@ =~= self.key_row(keys@, perm@[i] as int));
            }
            assert forall|i: int, j2: int| 0 <= i < j2 < out.nrows() implies row_le(
                #[trigger] out.key_row(keys@, i),
                #[trigger] out.key_row(keys@, j2),
                asc@,
            ) by {
                assert(row_le(key_of(keyrows@, perm@[i] as int), key_of(keyrows@, perm@[j2] as int), asc@));
            }
            // a sorted input comes back unchanged
            // the permutation behind the rearrangement
            assert(batch_sorted_by(out, *self, keys@, asc@, perm@)) by {
                assert forall|i: int, j2: int|
                    0 <= i < j2 < perm@.len() && crate::sorting::row_equiv(
                        self.key_row(keys@, #[trigger] perm@[i] as int),
                        self.key_row(keys@, #[trigger] perm@[j2] as int),
                        asc@,
                    ) implies perm@[i] < perm@[j2] by {
                    assert(key_of(keyrows@, perm@[i] as int) =~= self.key_row(
                        keys@,
                        perm@[i] as int,
                    ));
                    assert(key_of(keyrows@, perm@[j2] as int) =~= self.key_row(
                        keys@,
                        perm@[j2] as int,
                    ));
                }
            }
            if forall|i: int, j2: int|
                0 <= i < j2 < self.nrows() ==> row_le(
                    #[trigger] self.key_row(keys@, i),
                    #[trigger] self.key_row(keys@, j2),
                    asc@,
                ) {
                assert forall|i: int, j2: int| 0 <= i < j2 < keyrows@.len() implies row_le(
                    #[trigger] key_of(keyrows@, i),
                    #[trigger] key_of(keyrows@, j2),
                    asc@,
                ) by {
                    assert(keyrows@[i]@ =~= self.key_row(keys@, i));
                    assert(keyrows@[j2]@ =~= self.key_row(keys@, j2));
                }
                assert(perm@ == crate::sorting::identity_perm(n as int));
                assert forall|k: int| 0 <= k < out.columns@.len() implies (
                #[trigger] out.columns@[k]).view_seq() == self.columns@[k].view_seq() by {
                    assert(forall|i: int|
                        0 <= i < n ==> #[trigger] perm@[i] == i as usize);
                    assert(out.columns@[k].view_seq() =~= self.columns@[k].view_seq());
                }
            }
        }
        Ok(out)
    }
}

/// A value table in column form: every column the length of the first.
pub open spec fn cols_uniform(cols: Seq<Vec<Value>>) -> bool {
    forall|c: int| 0 <= c < cols.len() ==> (#[trigger] cols[c]@).len() == cols[0]@.len()
}

/// Every value fits the datatype of its column under the schema.
pub open spec fn cols_typed(cols: Seq<Vec<Value>>, fields: Seq<Field>) -> bool {
    &&& cols.len() == fields.len()
    &&& forall|c: int, i: int|
        0 <= c < cols.len() && 0 <= i < cols[c]@.len() ==> (#[trigger] cols[c]@[i]).wf()
            && cols[c]@[i].fits_type(fields[c].datatype)
}

impl RecordBatch {
    /// Wraps value columns into typed column vectors under the schema.
    pub fn make_cols(batch: Vec<Vec<Value>>, schema: &Schema) -> (r: Vec<Vectors>)
        requires
            batch@.len() == schema.fields@.len(),
        ensures
            r@.len() == batch@.len(),
            forall|c: int|
                0 <= c < r@.len() ==> (#[trigger] r@[c]).view_seq() == batch@[c]@ && r@[c].dtype()
                    == schema.fields@[c].datatype,
    {
        let mut out: Vec<Vectors> = Vec::new();
        let mut c: usize = 0;
        while c < batch.len()
            invariant
                batch@.len() == schema.fields@.len(),
                c <= batch@.len(),
                out@.len() == c,
                forall|k: int|
                    0 <= k < c ==> (#[trigger] out@[k]).view_seq() == batch@[k]@ && out@[k].dtype()
                        == schema.fields@[k].datatype,
            decreases batch@.len() - c,
        {
            let mut values: Vec<Value> = Vec::new();
            let mut i: usize = 0;
            let col = &batch[c];
            while i < col.len()
                invariant
                    c < batch@.len(),
                    col == &batch@[c as int],
                    i <= col@.len(),
                    values@ == col@.take(i as int),
                decreases col@.len() - i,
            {
                values.push(dup_value(&col[i]));
                proof {
                    assert(col@.take(i + 1) =~= col@.take(i as int).push(col@[i as int]));
                }
                i = i + 1;
            }
            proof {
                assert(col@.take(col@.len() as int) =~= col@);
            }
            let dt = match schema.get_datatype_from_index(&c) {
                Ok(d) => *d,
                Err(_) => DataType::Text,
            };
            out.push(Vectors::ColumnVector(ColumnVector { datatype: dt, values }));
            c = c + 1;
        }
        out
    }

    /// Splits a value table into record batches of at most `BATCH_SIZE` rows,
    /// in row order; an empty table becomes one empty batch.
    pub fn to_record_batch(cols: Vec<Vec<Value>>, schema: &Schema) -> (r: Vec<RecordBatch>)
        requires
            cols_uniform(cols@),
            cols_typed(cols@, schema.fields@),
        ensures
            r@.len() >= 1,
            forall|k: int|
                0 <= k < r@.len() ==> (#[trigger] r@[k]).wf() && r@[k].schema.fields@
                    == schema.fields@,
            // the batches carve the table into row ranges of BATCH_SIZE
            forall|k: int, c: int|
                0 <= k < r@.len() && 0 <= c < cols@.len() ==> (#[trigger] r@[k].columns@[c]).view_seq() == cols@[c]@.subrange(
                    k * (BATCH_SIZE as int),
                    if (k + 1) * (BATCH_SIZE as int) <= cols@[0]@.len() {
                        (k + 1) * (BATCH_SIZE as int)
                    } else {
                        cols@[0]@.len() as int
                    },
                ),
            r@.len() == (if cols@.len() == 0 || cols@[0]@.len() == 0 {
                1int
            } else {
                (cols@[0]@.len() as int + (BATCH_SIZE as int) - 1) / (BATCH_SIZE as int)
            }),
    {
        let ncols = cols.len();
        let rows: usize = if ncols == 0 {
            0
        } else {
            cols[0].len()
        };
        let nbatches: usize = if rows == 0 {
            1
        } else {
            rows / BATCH_SIZE + (if rows % BATCH_SIZE == 0 {
                0
            } else {
                1
            })
        };
        proof {
            assert(BATCH_SIZE == 1024);
            if rows >= 1 {
                assert((nbatches as int - 1) * 1024 < rows as int <= nbatches as int * 1024)
                    by (nonlinear_arith)
                    requires
                        rows >= 1,
                        nbatches as int == rows as int / 1024 + (if rows as int % 1024 == 0 {
                            0int
                        } else {
                            1int
                        }),
                ;
                assert(nbatches as int == (cols@[0]@.len() as int + 1023) / 1024)
                    by (nonlinear_arith)
                    requires
                        rows as int == cols@[0]@.len(),
                        rows >= 1,
                        nbatches as int == rows as int / 1024 + (if rows as int % 1024 == 0 {
                            0int
                        } else {
                            1int
                        }),
                ;
            }
        }
        let mut out: Vec<RecordBatch> = Vec::new();
        let mut k: usize = 0;
        while k < nbatches
            invariant
                cols_uniform(cols@),
                cols_typed(cols@, schema.fields@),
                ncols == cols@.len(),
                rows as int == (if cols@.len() == 0 {
                    0int
                } else {
                    cols@[0]@.len() as int
                }),
                rows == 0 ==> nbatches == 1,
                rows >= 1 ==> (nbatches as int - 1) * (BATCH_SIZE as int) < rows as int
                    <= nbatches as int * (BATCH_SIZE as int),
                k <= nbatches,
                out@.len() == k,
                forall|q: int|
                    0 <= q < k ==> (#[trigger] out@[q]).wf() && out@[q].schema.fields@
                        == schema.fields@,
                forall|q: int, c: int|
                    0 <= q < k && 0 <= c < cols@.len() ==> (#[trigger] out@[q].columns@[c]).view_seq() == cols@[c]@.subrange(
                        q * (BATCH_SIZE as int),
                        if (q + 1) * (BATCH_SIZE as int) <= rows as int {
                            (q + 1) * (BATCH_SIZE as int)
                        } else {
                            rows as int
                        },
                    ),
            decreases nbatches - k,
        {
            proof {
                assert(BATCH_SIZE == 1024);
                if rows == 0 {
                    assert(k == 0);
                } else {
                    assert(k as int * 1024 <= (nbatches as int - 1) * 1024) by (nonlinear_arith)
                        requires
                            k as int <= nbatches as int - 1,
                    ;
                }
            }
            let lo: usize = k * BATCH_SIZE;
            let hi: usize = if BATCH_SIZE <= rows - lo {
                lo + BATCH_SIZE
            } else {
                rows
            };
            let mut batch: Vec<Vec<Value>> = Vec::new();
            let mut batch: Vec<Vec<Value>> = Vec::new();
            let mut c: usize = 0;
            while c < ncols
                invariant
                    cols_uniform(cols@),
                    cols_typed(cols@, schema.fields@),
                    ncols == cols@.len(),
                    rows as int == (if cols@.len() == 0 {
                        0int
                    } else {
                        cols@[0]@.len() as int
                    }),
                    lo <= hi <= rows,
                    c <= ncols,
                    batch@.len() == c,
                    forall|q: int|
                        0 <= q < c ==> (#[trigger] batch@[q]@) == cols@[q]@.subrange(
                            lo as int,
                            hi as int,
                        ),
                decreases ncols - c,
            {
                let mut seg: Vec<Value> = Vec::new();
                let mut i: usize = lo;
                while i < hi
                    invariant
                        cols_uniform(cols@),
                        ncols == cols@.len(),
                        c < ncols,
                        rows as int == cols@[0]@.len(),
                        lo <= i <= hi <= rows,
                        seg@.len() == i - lo,
                        forall|q: int|
                            0 <= q < i - lo ==> #[trigger] seg@[q] == cols@[c as int]@[lo + q],
                    decreases hi - i,
                {
                    proof {
                        assert(cols@[c as int]@.len() == cols@[0]@.len());
                    }
                    seg.push(dup_value(&cols[c][i]));
                    i = i + 1;
                }
                proof {
                    assert(seg@ =~= cols@[c as int]@.subrange(lo as int, hi as int));
                }
                batch.push(seg);
                c = c + 1;
            }
            let made = RecordBatch::make_cols(batch, schema);
            let rb = RecordBatch { schema: schema.duplicate(), columns: made };
            proof {
                assert(rb.wf()) by {
                    assert forall|j: int| 0 <= j < rb.columns@.len() implies (
                    #[trigger] rb.columns@[j]).wf() && rb.columns@[j].view_seq().len()
                        == rb.nrows() by {
                        if rb.columns@.len() > 0 {
                            assert(rb.columns@[0].view_seq().len() == hi - lo);
                        }
                        assert(rb.columns@[j].view_seq() == cols@[j]@.subrange(
                            lo as int,
                            hi as int,
                        ));
                        assert forall|i: int|
                            0 <= i < rb.columns@[j].view_seq().len() implies (
                        #[trigger] rb.columns@[j].view_seq()[i]).wf()
                            && rb.columns@[j].view_seq()[i].fits_type(
                            rb.columns@[j].dtype(),
                        ) by {
                            assert(cols@[j]@[lo + i].wf());
                            assert(cols@[j]@[lo + i].fits_type(schema.fields@[j].datatype));
                        }
                    }
                }
                // the row range of this batch
                assert(BATCH_SIZE == 1024);
                assert((k as int + 1) * 1024 == k as int * 1024 + 1024) by (nonlinear_arith);
                assert forall|c2: int| 0 <= c2 < cols@.len() implies (
                #[trigger] rb.columns@[c2]).view_seq() == cols@[c2]@.subrange(
                    k as int * (BATCH_SIZE as int),
                    if (k as int + 1) * (BATCH_SIZE as int) <= rows as int {
                        (k as int + 1) * (BATCH_SIZE as int)
                    } else {
                        rows as int
                    },
                ) by {
                    assert(lo as int == k as int * 1024);
                    assert(hi as int == (if (k as int + 1) * 1024 <= rows as int {
                        (k as int + 1) * 1024
                    } else {
                        rows as int
                    }));
                }
            }
            out.push(rb);
            k = k + 1;
        }
        out
    }
}


/// The lower-case name of a datatype, as a schema listing prints it.
pub open spec fn dt_name(dt: DataType) -> Seq<char> {
    match dt {
        DataType::Text => seq!['t', 'e', 'x', 't'],
        DataType::Boolean => seq!['b', 'o', 'o', 'l', 'e', 'a', 'n'],
        DataType::Number => seq!['n', 'u', 'm', 'b', 'e', 'r'],
        DataType::Date => seq!['d', 'a', 't', 'e'],
    }
}

impl DataType {
    /// Renders the datatype's name.
    pub fn display_string(&self) -> (r: String)
        ensures
            r@ == dt_name(*self),
    {
        let mut out = String::new();
        match self {
            DataType::Text => {
                crate::strutil::push_char(&mut out, 't');
                crate::strutil::push_char(&mut out, 'e');
                crate::strutil::push_char(&mut out, 'x');
                crate::strutil::push_char(&mut out, 't');
            },
            DataType::Boolean => {
                crate::strutil::push_char(&mut out, 'b');
                crate::strutil::push_char(&mut out, 'o');
                crate::strutil::push_char(&mut out, 'o');
                crate::strutil::push_char(&mut out, 'l');
                crate::strutil::push_char(&mut out, 'e');
                crate::strutil::push_char(&mut out, 'a');
                crate::strutil::push_char(&mut out, 'n');
            },
            DataType::Number => {
                crate::strutil::push_char(&mut out, 'n');
                crate::strutil::push_char(&mut out, 'u');
                crate::strutil::push_char(&mut out, 'm');
                crate::strutil::push_char(&mut out, 'b');
                crate::strutil::push_char(&mut out, 'e');
                crate::strutil::push_char(&mut out, 'r');
            },
            DataType::Date => {
                crate::strutil::push_char(&mut out, 'd');
                crate::strutil::push_char(&mut out, 'a');
                crate::strutil::push_char(&mut out, 't');
                crate::strutil::push_char(&mut out, 'e');
            },
        }
        proof {
            assert(out@ =~= dt_name(*self));
        }
        out
    }
}

impl Schema {
    /// The schema itself as a two-column batch: each field's name beside
    /// its datatype.
    pub fn to_record_batch(&self) -> (r: RecordBatch)
        ensures
            r.wf(),
            r.columns@.len() == 2,
            r.nrows() == self.fields@.len(),
            forall|i: int|
                0 <= i < self.fields@.len() ==> ((#[trigger] r.columns@[0].view_seq()[i]) matches
                    Value::Text(n) && n@ == self.fields@[i].name@),
            forall|i: int|
                0 <= i < self.fields@.len() ==> ((#[trigger] r.columns@[1].view_seq()[i]) matches
                    Value::Text(n) && n@ == dt_name(self.fields@[i].datatype)),
    {
        let n = self.fields.len();
        let mut names: Vec<Value> = Vec::new();
        let mut dts: Vec<Value> = Vec::new();
        let mut i: usize = 0;
        while i < n
            invariant
                n == self.fields@.len(),
                i <= n,
                names@.len() == i,
                dts@.len() == i,
                forall|q: int|
                    0 <= q < i ==> ((#[trigger] names@[q]) matches Value::Text(t) && t@
                        == self.fields@[q].name@),
                forall|q: int|
                    0 <= q < i ==> ((#[trigger] dts@[q]) matches Value::Text(t) && t@ == dt_name(
                        self.fields@[q].datatype,
                    )),
            decreases n - i,
        {
            names.push(Value::Text(self.fields[i].name.clone()));
            dts.push(Value::Text(self.fields[i].datatype.display_string()));
            i = i + 1;
        }
        let mut col_name = String::new();
        crate::strutil::push_char(&mut col_name, 'C');
        crate::strutil::push_char(&mut col_name, 'o');
        crate::strutil::push_char(&mut col_name, 'l');
        crate::strutil::push_char(&mut col_name, 'u');
        crate::strutil::push_char(&mut col_name, 'm');
        crate::strutil::push_char(&mut col_name, 'n');
        let mut dt_label = String::new();
        crate::strutil::push_char(&mut dt_label, 'D');
        crate::strutil::push_char(&mut dt_label, 'a');
        crate::strutil::push_char(&mut dt_label, 't');
        crate::strutil::push_char(&mut dt_label, 'a');
        crate::strutil::push_char(&mut dt_label, 't');
        crate::strutil::push_char(&mut dt_label, 'y');
        crate::strutil::push_char(&mut dt_label, 'p');
        crate::strutil::push_char(&mut dt_label, 'e');
        let mut fields: Vec<Field> = Vec::new();
        fields.push(Field { name: col_name, datatype: DataType::Text });
        fields.push(Field { name: dt_label, datatype: DataType::Text });
        let mut columns: Vec<Vectors> = Vec::new();
        columns.push(Vectors::ColumnVector(ColumnVector { datatype: DataType::Text, values: names }));
        columns.push(Vectors::ColumnVector(ColumnVector { datatype: DataType::Text, values: dts }));
        let r = RecordBatch { schema: Schema { fields }, columns };
        proof {
            assert(r.nrows() == n as nat);
            assert(r.wf()) by {
                assert forall|j: int| 0 <= j < r.columns@.len() implies (
                #[trigger] r.columns@[j]).wf() && r.columns@[j].view_seq().len() == r.nrows()
                    && r.columns@[j].dtype() == r.schema.fields@[j].datatype by {
                    if j == 0 {
                        assert forall|q: int|
                            0 <= q < r.columns@[0].view_seq().len() implies (
                        #[trigger] r.columns@[0].view_seq()[q]).wf()
                            && r.columns@[0].view_seq()[q].fits_type(DataType::Text) by {
                            assert(names@[q] is Text);
                        }
                    } else {
                        assert forall|q: int|
                            0 <= q < r.columns@[1].view_seq().len() implies (
                        #[trigger] r.columns@[1].view_seq()[q]).wf()
                            && r.columns@[1].view_seq()[q].fits_type(DataType::Text) by {
                            assert(dts@[q] is Text);
                        }
                    }
                }
            }
        }
        r
    }
}

} // verus!
