use vstd::prelude::*;

use crate::record_batch::RecordBatch;
use crate::strutil::{push_char, push_repeated, repeat_char};
use crate::types::{val_render, Value};

verus! {

/// The padded form of a cell: one leading blank, the text, then blanks out
/// to `space + 2` characters.
pub open spec fn pad_spec(value: Seq<char>, space: int) -> Seq<char> {
    let body = seq![' '] + value;
    if body.len() >= space + 2 {
        body
    } else {
        body + repeat_char(' ', (space + 2 - body.len()) as nat)
    }
}

/// Pads one rendered cell to its column's width.
pub fn pad_value(value: String, space: usize) -> (r: String)
    requires
        space < usize::MAX - 2,
    ensures
        r@ == pad_spec(value@, space as int),
{
    let mut out = String::new();
    push_char(&mut out, ' ');
    let n = value.as_str().unicode_len();
    out.append(value.as_str());
    if n < space + 1 {
        push_repeated(&mut out, ' ', space + 1 - n);
        proof {
            assert(out@ =~= pad_spec(value@, space as int));
        }
    } else {
        proof {
            assert(out@ =~= pad_spec(value@, space as int));
        }
    }
    out
}

/// The divider under the header: runs of dashes, one per column, two wider
/// than the column, joined by plus signs.
pub open spec fn divider_spec(spaces: Seq<usize>) -> Seq<char>
    decreases spaces.len(),
{
    if spaces.len() == 0 {
        Seq::empty()
    } else if spaces.len() == 1 {
        repeat_char('-', (spaces[0] + 2) as nat)
    } else {
        divider_spec(spaces.drop_last()) + seq!['+'] + repeat_char(
            '-',
            (spaces.last() + 2) as nat,
        )
    }
}

/// Builds the divider line for the given column widths.
pub fn get_divider(cell_space: &Vec<usize>) -> (r: String)
    requires
        forall|i: int| 0 <= i < cell_space@.len() ==> (#[trigger] cell_space@[i]) < usize::MAX - 2,
    ensures
        r@ == divider_spec(cell_space@),
{
    let mut out = String::new();
    let mut i: usize = 0;
    while i < cell_space.len()
        invariant
            forall|q: int|
                0 <= q < cell_space@.len() ==> (#[trigger] cell_space@[q]) < usize::MAX - 2,
            i <= cell_space@.len(),
            out@ == divider_spec(cell_space@.take(i as int)),
        decreases cell_space@.len() - i,
    {
        if i > 0 {
            push_char(&mut out, '+');
        }
        push_repeated(&mut out, '-', cell_space[i] + 2);
        proof {
            let pre = cell_space@.take(i as int);
            let now = cell_space@.take(i + 1);
            assert(now.drop_last() =~= pre);
            assert(now.last() == cell_space@[i as int]);
            if i == 0 {
                assert(out@ =~= divider_spec(now));
            } else {
                assert(out@ =~= divider_spec(now));
            }
        }
        i = i + 1;
    }
    proof {
        assert(cell_space@.take(cell_space@.len() as int) =~= cell_space@);
    }
    out
}

/// The length of the longest line of a rendered cell, scanning left to
/// right with a current and a best count.
pub open spec fn widest_line_from(s: Seq<char>, cur: nat, best: nat) -> nat
    decreases s.len(),
{
    if s.len() == 0 {
        if cur > best {
            cur
        } else {
            best
        }
    } else if s[0] == '\n' {
        widest_line_from(
            s.skip(1),
            0,
            if cur > best {
                cur
            } else {
                best
            },
        )
    } else {
        widest_line_from(s.skip(1), cur + 1, best)
    }
}

/// The width of a cell: its longest line.
pub open spec fn cell_width(s: Seq<char>) -> nat {
    widest_line_from(s, 0, 0)
}

/// Measures the longest line of a rendered cell.
pub fn cell_width_exec(s: &str) -> (r: usize)
    ensures
        r as nat == cell_width(s@),
{
    let n = s.unicode_len();
    let mut cur: usize = 0;
    let mut best: usize = 0;
    let mut i: usize = 0;
    proof {
        assert(s@.skip(0) =~= s@);
    }
    while i < n
        invariant
            n == s@.len(),
            i <= n,
            cur <= i,
            best <= i,
            cell_width(s@) == widest_line_from(s@.skip(i as int), cur as nat, best as nat),
        decreases n - i,
    {
        let c = s.get_char(i);
        proof {
            assert(s@.skip(i as int)[0] == s@[i as int]);
            assert(s@.skip(i as int).skip(1) =~= s@.skip(i + 1));
        }
        if c == '\n' {
            if cur > best {
                best = cur;
            }
            cur = 0;
        } else {
            cur = cur + 1;
        }
        i = i + 1;
    }
    if cur > best {
        best = cur;
    }
    best
}

/// The width of column `c`: the widest cell, floored by the header width
/// when the header is printed.
pub open spec fn column_width(b: RecordBatch, c: int, with_schema: bool) -> nat {
    let base: nat = if with_schema {
        b.schema.fields@[c].name@.len()
    } else {
        0
    };
    col_width_from(b.columns@[c].view_seq(), base)
}

/// Folds the cells of a column into the running width.
pub open spec fn col_width_from(cells: Seq<Value>, best: nat) -> nat
    decreases cells.len(),
{
    if cells.len() == 0 {
        best
    } else {
        col_width_from(
            cells.skip(1),
            if cell_width(val_render(cells[0])) > best {
                cell_width(val_render(cells[0]))
            } else {
                best
            },
        )
    }
}

/// Prints record batches in a fixed-width table. Holds the batch and
/// whether a header row is wanted.
#[derive(Debug)]
pub struct RecordBatchPrettifier<'a> {
    pub rb: &'a RecordBatch,
    pub with_schema: bool,
}

impl<'a> RecordBatchPrettifier<'a> {
    pub fn new(rb: &'a RecordBatch, with_schema: bool) -> (r: RecordBatchPrettifier<'a>)
        ensures
            r.rb == rb,
            r.with_schema == with_schema,
    {
        RecordBatchPrettifier { rb, with_schema }
    }

    /// The width of every column: the widest rendered cell, a header name
    /// counting when it is printed.
    pub fn compute_cell_space(&self) -> (r: Vec<usize>)
        requires
            self.rb.wf(),
        ensures
            r@.len() == self.rb.columns@.len(),
            forall|c: int|
                0 <= c < r@.len() ==> (#[trigger] r@[c]) as nat == column_width(
                    *self.rb,
                    c,
                    self.with_schema,
                ),
    {
        let ncols = self.rb.column_count();
        let mut out: Vec<usize> = Vec::new();
        let mut c: usize = 0;
        while c < ncols
            invariant
                self.rb.wf(),
                ncols as int == self.rb.columns@.len(),
                c <= ncols,
                out@.len() == c,
                forall|q: int|
                    0 <= q < c ==> (#[trigger] out@[q]) as nat == column_width(
                        *self.rb,
                        q,
                        self.with_schema,
                    ),
            decreases ncols - c,
        {
            let col = &self.rb.columns[c];
            let mut best: usize = if self.with_schema {
                self.rb.schema.fields[c].name.as_str().unicode_len()
            } else {
                0
            };
            let n = col.size();
            let mut i: usize = 0;
            proof {
                assert(col.view_seq().skip(0) =~= col.view_seq());
            }
            while i < n
                invariant
                    self.rb.wf(),
                    c < self.rb.columns@.len(),
                    col == &self.rb.columns@[c as int],
                    n as nat == col.view_seq().len(),
                    i <= n,
                    column_width(*self.rb, c as int, self.with_schema) == col_width_from(
                        col.view_seq().skip(i as int),
                        best as nat,
                    ),
                decreases n - i,
            {
                let v = col.get_value(&i);
                let rendered = v.render();
                proof {
                    assert(col.view_seq().skip(i as int)[0] == col.view_seq()[i as int]);
                    assert(col.view_seq().skip(i as int).skip(1) =~= col.view_seq().skip(i + 1));
                }
                let w = cell_width_exec(rendered.as_str());
                if w > best {
                    best = w;
                }
                i = i + 1;
            }
            proof {
                assert(col.view_seq().skip(n as int) =~= Seq::<Value>::empty());
            }
            out.push(best);
            c = c + 1;
        }
        out
    }
}


/// The padded cells of row `i`, columns up to `n`, joined by bars.
pub open spec fn row_cells(b: RecordBatch, widths: Seq<usize>, i: int, n: int) -> Seq<char>
    decreases n,
{
    if n <= 0 {
        Seq::empty()
    } else {
        row_cells(b, widths, i, n - 1) + (if n > 1 {
            seq!['|']
        } else {
            Seq::empty()
        }) + pad_spec(val_render(b.columns@[n - 1].view_seq()[i]), widths[n - 1] as int)
    }
}

/// The padded header names, columns up to `n`, joined by bars.
pub open spec fn header_cells(b: RecordBatch, widths: Seq<usize>, n: int) -> Seq<char>
    decreases n,
{
    if n <= 0 {
        Seq::empty()
    } else {
        header_cells(b, widths, n - 1) + (if n > 1 {
            seq!['|']
        } else {
            Seq::empty()
        }) + pad_spec(b.schema.fields@[n - 1].name@, widths[n - 1] as int)
    }
}

/// The data lines, one per row up to `n`, each behind a line break.
pub open spec fn rows_part(b: RecordBatch, widths: Seq<usize>, n: int) -> Seq<char>
    decreases n,
{
    if n <= 0 {
        Seq::empty()
    } else {
        rows_part(b, widths, n - 1) + seq!['\n'] + row_cells(
            b,
            widths,
            n - 1,
            b.columns@.len() as int,
        )
    }
}

/// The whole rendering: the header when asked for, the divider, then one
/// line per row.
pub open spec fn prettify_spec(b: RecordBatch, widths: Seq<usize>, with_schema: bool) -> Seq<
    char,
> {
    (if with_schema {
        header_cells(b, widths, b.columns@.len() as int) + seq!['\n']
    } else {
        Seq::empty()
    }) + divider_spec(widths) + rows_part(b, widths, b.nrows() as int)
}

/// The computed width of every column, in order.
pub open spec fn fit_widths(b: RecordBatch, with_schema: bool) -> Seq<usize> {
    Seq::new(b.columns@.len(), |c: int| column_width(b, c, with_schema) as usize)
}

/// Every column's width leaves room for the two pad blanks.
pub open spec fn widths_fit(b: RecordBatch, with_schema: bool) -> bool {
    forall|c: int|
        0 <= c < b.columns@.len() ==> #[trigger] column_width(b, c, with_schema) < (usize::MAX
            - 2) as nat
}

impl<'a> RecordBatchPrettifier<'a> {
    /// Renders the batch as a fixed-width table: the header when asked for,
    /// the divider, then one line per row, every cell padded to its
    /// column's width. A batch with a column too wide for the pad blanks
    /// renders as the empty string.
    pub fn prettify(&self) -> (r: String)
        requires
            self.rb.wf(),
        ensures
            widths_fit(*self.rb, self.with_schema) ==> r@ == prettify_spec(
                *self.rb,
                fit_widths(*self.rb, self.with_schema),
                self.with_schema,
            ),
            !widths_fit(*self.rb, self.with_schema) ==> r@ == Seq::<char>::empty(),
    {
        let widths = self.compute_cell_space();
        let mut safe = true;
        let mut t: usize = 0;
        while t < widths.len()
            invariant
                widths@.len() == self.rb.columns@.len(),
                forall|c: int|
                    0 <= c < widths@.len() ==> (#[trigger] widths@[c]) as nat == column_width(
                        *self.rb,
                        c,
                        self.with_schema,
                    ),
                t <= widths@.len(),
                safe ==> forall|q: int|
                    0 <= q < t ==> (#[trigger] widths@[q]) < usize::MAX - 2,
                !safe ==> exists|q: int|
                    0 <= q < widths@.len() && (#[trigger] widths@[q]) >= usize::MAX - 2,
            decreases widths@.len() - t,
        {
            if widths[t] >= usize::MAX - 2 {
                safe = false;
            }
            t = t + 1;
        }
        if !safe {
            proof {
                let q = choose|q: int|
                    0 <= q < widths@.len() && (#[trigger] widths@[q]) >= usize::MAX - 2;
                assert(column_width(*self.rb, q, self.with_schema) >= (usize::MAX - 2) as nat);
                assert(!widths_fit(*self.rb, self.with_schema));
            }
            return String::new();
        }
        let r = self.render_with(&widths);
        proof {
            assert(widths@ =~= fit_widths(*self.rb, self.with_schema));
            assert forall|c: int| 0 <= c < self.rb.columns@.len() implies #[trigger] column_width(
                *self.rb,
                c,
                self.with_schema,
            ) < (usize::MAX - 2) as nat by {
                assert(widths@[c] < usize::MAX - 2);
            }
        }
        r
    }

    /// Renders the batch over the given column widths, exactly as
    /// `prettify_spec` lays the characters out.
    pub fn render_with(&self, widths: &Vec<usize>) -> (r: String)
        requires
            self.rb.wf(),
            widths@.len() == self.rb.columns@.len(),
            forall|q: int| 0 <= q < widths@.len() ==> (#[trigger] widths@[q]) < usize::MAX - 2,
        ensures
            r@ == prettify_spec(*self.rb, widths@, self.with_schema),
    {
        let b = self.rb;
        let ncols = b.column_count();
        let mut out = String::new();
        if self.with_schema {
            let mut c: usize = 0;
            while c < ncols
                invariant
                    self.rb.wf(),
                    b == self.rb,
                    ncols as int == b.columns@.len(),
                    widths@.len() == b.columns@.len(),
                    forall|q: int|
                        0 <= q < widths@.len() ==> (#[trigger] widths@[q]) < usize::MAX - 2,
                    c <= ncols,
                    out@ == header_cells(*b, widths@, c as int),
                decreases ncols - c,
            {
                if c > 0 {
                    push_char(&mut out, '|');
                }
                let padded = pad_value(b.schema.fields[c].name.clone(), widths[c]);
                out.append(padded.as_str());
                c = c + 1;
            }
            push_char(&mut out, '\n');
            proof {
                assert(out@ =~= header_cells(*b, widths@, b.columns@.len() as int) + seq!['\n']);
            }
        }
        let divider = get_divider(widths);
        out.append(divider.as_str());
        let nrows = b.row_count();
        let mut i: usize = 0;
        proof {
            assert(out@ =~= (if self.with_schema {
                header_cells(*b, widths@, b.columns@.len() as int) + seq!['\n']
            } else {
                Seq::<char>::empty()
            }) + divider_spec(widths@) + rows_part(*b, widths@, 0));
        }
        while i < nrows
            invariant
                self.rb.wf(),
                b == self.rb,
                ncols as int == b.columns@.len(),
                nrows as nat == b.nrows(),
                widths@.len() == b.columns@.len(),
                forall|q: int|
                    0 <= q < widths@.len() ==> (#[trigger] widths@[q]) < usize::MAX - 2,
                i <= nrows,
                out@ == (if self.with_schema {
                    header_cells(*b, widths@, b.columns@.len() as int) + seq!['\n']
                } else {
                    Seq::<char>::empty()
                }) + divider_spec(widths@) + rows_part(*b, widths@, i as int),
            decreases nrows - i,
        {
            push_char(&mut out, '\n');
            let mut c: usize = 0;
            let ghost line_start = out@;
            while c < ncols
                invariant
                    self.rb.wf(),
                    b == self.rb,
                    ncols as int == b.columns@.len(),
                    nrows as nat == b.nrows(),
                    i < nrows,
                    widths@.len() == b.columns@.len(),
                    forall|q: int|
                        0 <= q < widths@.len() ==> (#[trigger] widths@[q]) < usize::MAX - 2,
                    c <= ncols,
                    out@ == line_start + row_cells(*b, widths@, i as int, c as int),
                decreases ncols - c,
            {
                if c > 0 {
                    push_char(&mut out, '|');
                }
                proof {
                    assert(b.columns@[c as int].view_seq().len() == b.nrows());
                    assert(b.columns@[c as int].view_seq()[i as int].wf());
                }
                let rendered = b.columns[c].get_value(&i).render();
                let padded = pad_value(rendered, widths[c]);
                out.append(padded.as_str());
                proof {
                    assert(out@ =~= line_start + row_cells(*b, widths@, i as int, c + 1));
                }
                c = c + 1;
            }
            proof {
                assert(out@ =~= (if self.with_schema {
                    header_cells(*b, widths@, b.columns@.len() as int) + seq!['\n']
                } else {
                    Seq::<char>::empty()
                }) + divider_spec(widths@) + rows_part(*b, widths@, i + 1));
            }
            i = i + 1;
        }
        out
    }
}

impl RecordBatch {
    /// Fixed-width rendering, columns sized to their widest cell and the
    /// header when one is asked for: exactly the table `prettify_spec` lays
    /// out, or the empty string when a column is too wide to pad.
    pub fn print(&self, with_header: bool) -> (r: String)
        requires
            self.wf(),
        ensures
            widths_fit(*self, with_header) ==> r@ == prettify_spec(
                *self,
                fit_widths(*self, with_header),
                with_header,
            ),
            !widths_fit(*self, with_header) ==> r@ == Seq::<char>::empty(),
    {
        RecordBatchPrettifier::new(self, with_header).prettify()
    }
}

/// Printing a batch puts exactly the padded field names of its schema on
/// the header line; a projected batch therefore shows its projection's
/// field names, since an emitted batch carries the plan's schema.
pub proof fn lemma_header_shows_schema(
    a: RecordBatch,
    b: RecordBatch,
    widths: Seq<usize>,
    n: int,
)
    requires
        a.schema.fields@ == b.schema.fields@,
    ensures
        header_cells(a, widths, n) == header_cells(b, widths, n),
    decreases n,
{
    if n > 0 {
        lemma_header_shows_schema(a, b, widths, n - 1);
    }
}

} // verus!
