use vstd::prelude::*;

use crate::csvtext::encoded_field;
use crate::error::ZakuError;
use crate::physical_plan::{batches_wf, executes_to, plan_errs, PhysicalPlans};
use crate::record_batch::RecordBatch;
use crate::schema::{Field, Schema};
use crate::strutil::push_char;
use crate::types::val_render;

verus! {

/// The header line: each field name encoded, the delimiter between them.
pub open spec fn csv_header(fields: Seq<Field>, delim: char) -> Seq<char>
    decreases fields.len(),
{
    if fields.len() == 0 {
        Seq::empty()
    } else if fields.len() == 1 {
        encoded_field(fields[0].name@, delim)
    } else {
        csv_header(fields.drop_last(), delim) + seq![delim] + encoded_field(
            fields.last().name@,
            delim,
        )
    }
}

/// Row `i` of a batch: the first `n` cells rendered and encoded, the
/// delimiter between them.
pub open spec fn csv_row(b: RecordBatch, i: int, n: int, delim: char) -> Seq<char>
    decreases n,
{
    if n <= 0 {
        Seq::empty()
    } else {
        csv_row(b, i, n - 1, delim) + (if n > 1 {
            seq![delim]
        } else {
            Seq::empty()
        }) + encoded_field(val_render(b.columns@[n - 1].view_seq()[i]), delim)
    }
}

/// The first `n` rows of a batch, each row behind a line break.
pub open spec fn csv_rows(b: RecordBatch, n: int, delim: char) -> Seq<char>
    decreases n,
{
    if n <= 0 {
        Seq::empty()
    } else {
        csv_rows(b, n - 1, delim) + csv_row(b, n - 1, b.columns@.len() as int, delim) + seq!['\n']
    }
}

/// The rows of the first `k` batches of a stream.
pub open spec fn csv_batches(bs: Seq<RecordBatch>, k: int, delim: char) -> Seq<char>
    decreases k,
{
    if k <= 0 {
        Seq::empty()
    } else {
        csv_batches(bs, k - 1, delim) + csv_rows(bs[k - 1], bs[k - 1].nrows() as int, delim)
    }
}

/// Renders a batch stream as delimited text: the header line, then one
/// line per row in stream order, every field quoted where its text calls
/// for it.
pub fn render_csv(schema: &Schema, batches: &Vec<RecordBatch>, delim: char) -> (r: String)
    requires
        batches_wf(batches@, schema.fields@),
    ensures
        r@ == csv_header(schema.fields@, delim) + seq!['\n'] + csv_batches(
            batches@,
            batches@.len() as int,
            delim,
        ),
{
    let mut out = String::new();
    // the header row
    let nfields = schema.fields.len();
    let mut c: usize = 0;
    while c < nfields
        invariant
            nfields == schema.fields@.len(),
            c <= nfields,
            out@ == csv_header(schema.fields@.take(c as int), delim),
        decreases nfields - c,
    {
        if c > 0 {
            push_char(&mut out, delim);
        }
        crate::csvtext::write_field(&mut out, schema.fields[c].name.as_str(), delim);
        proof {
            let pre = schema.fields@.take(c as int);
            let now = schema.fields@.take(c + 1);
            assert(now.drop_last() =~= pre);
            assert(now.last() == schema.fields@[c as int]);
            assert(out@ =~= csv_header(now, delim));
        }
        c = c + 1;
    }
    proof {
        assert(schema.fields@.take(schema.fields@.len() as int) =~= schema.fields@);
    }
    push_char(&mut out, '\n');
    let ghost head = out@;
    // the data rows
    let mut k: usize = 0;
    while k < batches.len()
        invariant
            batches_wf(batches@, schema.fields@),
            k <= batches@.len(),
            out@ == head + csv_batches(batches@, k as int, delim),
        decreases batches@.len() - k,
    {
        let batch = &batches[k];
        let nrows = batch.row_count();
        let ncols = batch.column_count();
        let ghost batch_start = out@;
        let mut i: usize = 0;
        while i < nrows
            invariant
                batches_wf(batches@, schema.fields@),
                k < batches@.len(),
                batch == &batches@[k as int],
                nrows as nat == batch.nrows(),
                ncols as int == batch.columns@.len(),
                i <= nrows,
                out@ == batch_start + csv_rows(*batch, i as int, delim),
            decreases nrows - i,
        {
            let ghost row_start = out@;
            let mut c2: usize = 0;
            while c2 < ncols
                invariant
                    batches_wf(batches@, schema.fields@),
                    k < batches@.len(),
                    batch == &batches@[k as int],
                    nrows as nat == batch.nrows(),
                    ncols as int == batch.columns@.len(),
                    i < nrows,
                    c2 <= ncols,
                    out@ == row_start + csv_row(*batch, i as int, c2 as int, delim),
                decreases ncols - c2,
            {
                if c2 > 0 {
                    push_char(&mut out, delim);
                }
                proof {
                    assert(batches@[k as int].wf());
                    assert(batch.columns@[c2 as int].view_seq().len() == batch.nrows());
                    assert(batch.columns@[c2 as int].view_seq()[i as int].wf());
                }
                let rendered = batch.columns[c2].get_value(&i).render();
                crate::csvtext::write_field(&mut out, rendered.as_str(), delim);
                proof {
                    assert(out@ =~= row_start + csv_row(*batch, i as int, c2 + 1, delim));
                }
                c2 = c2 + 1;
            }
            push_char(&mut out, '\n');
            proof {
                assert(out@ =~= batch_start + csv_rows(*batch, i + 1, delim));
            }
            i = i + 1;
        }
        proof {
            assert(out@ =~= head + csv_batches(batches@, k + 1, delim));
        }
        k = k + 1;
    }
    out
}

/// The materialisation point of a query: its schema and the physical plan
/// whose batches it streams.
#[derive(Debug)]
pub struct Datasink {
    pub schema: Schema,
    pub input: PhysicalPlans,
}

impl Datasink {
    /// The sink is a well-formed plan under its own schema.
    pub open spec fn wf(self) -> bool {
        self.input.wf_plan() && self.schema.fields@ == self.input.out_fields()
    }

    pub fn new(schema: Schema, input: PhysicalPlans) -> (r: Datasink)
        ensures
            r.schema == schema,
            r.input == input,
    {
        Datasink { schema, input }
    }

    pub fn schema(&self) -> (r: &Schema)
        ensures
            r == &self.schema,
    {
        &self.schema
    }

    /// Runs the plan and collects every batch: exactly a stream the plan
    /// emits, each batch under the sink's schema with all columns of the
    /// batch's row count. It fails only where the plan names a failure.
    pub fn materialize(&self) -> (r: Result<Vec<RecordBatch>, ZakuError>)
        requires
            self.wf(),
        ensures
            match r {
                Ok(bs) => batches_wf(bs@, self.schema.fields@) && executes_to(self.input, bs@),
                Err(e) => !(e is IoError) && !(e is CsvError) && plan_errs(self.input),
            },
    {
        self.input.execute()
    }

    /// Renders the whole result as delimited text: a stream that the sink's
    /// own plan emits, behind the header line, one line per row in stream
    /// order, fields quoted where their text calls for it.
    pub fn to_csv_text(&self, delim: char) -> (r: Result<String, ZakuError>)
        requires
            self.wf(),
        ensures
            match r {
                Ok(text) => exists|bs: Seq<RecordBatch>|
                    executes_to(self.input, bs) && batches_wf(bs, self.schema.fields@) && text@
                        == csv_header(self.schema.fields@, delim) + seq!['\n']
                        + #[trigger] csv_batches(bs, bs.len() as int, delim),
                Err(e) => !(e is IoError) && !(e is CsvError) && plan_errs(self.input),
            },
    {
        let batches = match self.materialize() {
            Ok(bs) => bs,
            Err(e) => {
                return Err(e);
            },
        };
        let text = render_csv(&self.schema, &batches, delim);
        proof {
            assert(executes_to(self.input, batches@) && batches_wf(
                batches@,
                self.schema.fields@,
            ) && text@ == csv_header(self.schema.fields@, delim) + seq!['\n'] + csv_batches(
                batches@,
                batches@.len() as int,
                delim,
            ));
        }
        Ok(text)
    }
}

} // verus!
