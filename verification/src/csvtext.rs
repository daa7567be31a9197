use vstd::prelude::*;

use crate::error::ZakuError;
use crate::strutil::{push_char, str_to_chars};

verus! {

/// One step of the delimited-text reader: already finished rows, the fields
/// of the open row, and the characters of the open field.
pub open spec fn csv_scan(
    s: Seq<char>,
    delim: char,
    rows: Seq<Seq<Seq<char>>>,
    row: Seq<Seq<char>>,
    field: Seq<char>,
    in_quotes: bool,
) -> Option<Seq<Seq<Seq<char>>>>
    decreases s.len(), 1nat,
{
    if s.len() == 0 {
        if in_quotes {
            None
        } else if row.len() == 0 && field.len() == 0 {
            Some(rows)
        } else {
            Some(rows.push(row.push(field)))
        }
    } else {
        let c = s[0];
        let rest = s.skip(1);
        if in_quotes {
            if c == '"' {
                if rest.len() > 0 && rest[0] == '"' {
                    csv_scan(rest.skip(1), delim, rows, row, field.push('"'), true)
                } else {
                    csv_scan(rest, delim, rows, row, field, false)
                }
            } else {
                csv_scan(rest, delim, rows, row, field.push(c), true)
            }
        } else if c == '"' {
            csv_scan(rest, delim, rows, row, field, true)
        } else if c == delim {
            csv_scan(rest, delim, rows, row.push(field), Seq::empty(), false)
        } else if c == '\n' {
            csv_scan(rest, delim, rows.push(row.push(field)), Seq::empty(), Seq::empty(), false)
        } else if c == '\r' {
            if rest.len() > 0 && rest[0] == '\n' {
                csv_scan(
                    rest.skip(1),
                    delim,
                    rows.push(row.push(field)),
                    Seq::empty(),
                    Seq::empty(),
                    false,
                )
            } else {
                csv_scan(rest, delim, rows, row, field.push(c), false)
            }
        } else {
            csv_scan(rest, delim, rows, row, field.push(c), false)
        }
    }
}

/// The rows of a delimited text: fields split on the delimiter, rows on
/// line breaks, double quotes enclosing fields with doubled-quote escapes.
/// An unclosed quote makes the text malformed.
pub open spec fn csv_rows_spec(s: Seq<char>, delim: char) -> Option<Seq<Seq<Seq<char>>>> {
    csv_scan(s, delim, Seq::empty(), Seq::empty(), Seq::empty(), false)
}

/// Reads a delimited text into its rows of raw fields.
pub fn parse_csv_text(content: &str, delim: char) -> (r: Result<Vec<Vec<String>>, ZakuError>)
    ensures
        match r {
            Ok(rows) => csv_rows_spec(content@, delim) matches Some(m) && m.len() == rows@.len()
                && (forall|i: int|
                0 <= i < rows@.len() ==> (#[trigger] rows@[i]@).len() == m[i].len() && (forall|
                    j: int,
                |
                    0 <= j < rows@[i]@.len() ==> (#[trigger] rows@[i]@[j])@ == m[i][j])),
            Err(e) => csv_rows_spec(content@, delim) is None && e is CsvError,
        },
{
    let cs = str_to_chars(content);
    let n = cs.len();
    let mut rows: Vec<Vec<String>> = Vec::new();
    let mut row: Vec<String> = Vec::new();
    let mut field = String::new();
    let mut in_quotes = false;
    let mut i: usize = 0;
    let ghost gdelim = delim;
    proof {
        assert(cs@.skip(0) =~= cs@);
        assert(rows@.map_values(|rw: Vec<String>| rw@.map_values(|f: String| f@)) =~= Seq::<
            Seq<Seq<char>>,
        >::empty());
        assert(row@.map_values(|f: String| f@) =~= Seq::<Seq<char>>::empty());
    }
    while i < n
        invariant
            cs@ == content@,
            n == cs@.len(),
            i <= n,
            csv_rows_spec(content@, gdelim) == csv_scan(
                cs@.skip(i as int),
                gdelim,
                rows@.map_values(|rw: Vec<String>| rw@.map_values(|f: String| f@)),
                row@.map_values(|f: String| f@),
                field@,
                in_quotes,
            ),
            gdelim == delim,
        decreases n - i,
    {
        let c = cs[i];
        proof {
            assert(cs@.skip(i as int)[0] == cs@[i as int]);
            assert(cs@.skip(i as int).skip(1) =~= cs@.skip(i + 1));
        }
        let ghost grows = rows@.map_values(|rw: Vec<String>| rw@.map_values(|f: String| f@));
        let ghost grow = row@.map_values(|f: String| f@);
        let ghost gfield = field@;
        if in_quotes {
            if c == '"' {
                if i + 1 < n && cs[i + 1] == '"' {
                    push_char(&mut field, '"');
                    proof {
                        assert(cs@.skip(i as int).skip(1)[0] == cs@[i + 1]);
                        assert(cs@.skip(i as int).skip(1).skip(1) =~= cs@.skip(i + 2));
                    }
                    i = i + 2;
                } else {
                    in_quotes = false;
                    i = i + 1;
                }
            } else {
                push_char(&mut field, c);
                i = i + 1;
            }
        } else if c == '"' {
            in_quotes = true;
            i = i + 1;
        } else if c == delim {
            row.push(field);
            field = String::new();
            proof {
                assert(row@.map_values(|f: String| f@) =~= grow.push(gfield));
            }
            i = i + 1;
        } else if c == '\n' {
            row.push(field);
            field = String::new();
            rows.push(row);
            row = Vec::new();
            proof {
                assert(rows@.map_values(|rw: Vec<String>| rw@.map_values(|f: String| f@))
                    =~~= grows.push(grow.push(gfield)));
                assert(row@.map_values(|f: String| f@) =~= Seq::<Seq<char>>::empty());
            }
            i = i + 1;
        } else if c == '\r' {
            if i + 1 < n && cs[i + 1] == '\n' {
                row.push(field);
                field = String::new();
                rows.push(row);
                row = Vec::new();
                proof {
                    assert(cs@.skip(i as int).skip(1)[0] == cs@[i + 1]);
                    assert(cs@.skip(i as int).skip(1).skip(1) =~= cs@.skip(i + 2));
                    assert(rows@.map_values(|rw: Vec<String>| rw@.map_values(|f: String| f@))
                        =~~= grows.push(grow.push(gfield)));
                    assert(row@.map_values(|f: String| f@) =~= Seq::<Seq<char>>::empty());
                }
                i = i + 2;
            } else {
                push_char(&mut field, c);
                i = i + 1;
            }
        } else {
            push_char(&mut field, c);
            i = i + 1;
        }
    }
    if in_quotes {
        return Err(ZakuError::CsvError(String::from_str("unclosed quote")));
    }
    if row.len() == 0 && field.as_str().unicode_len() == 0 {
        proof {
            assert(csv_rows_spec(content@, gdelim) matches Some(m) && m =~~= rows@.map_values(
                |rw: Vec<String>| rw@.map_values(|f: String| f@),
            ));
        }
        Ok(rows)
    } else {
        let ghost grows = rows@.map_values(|rw: Vec<String>| rw@.map_values(|f: String| f@));
        let ghost grow = row@.map_values(|f: String| f@);
        let ghost gfield = field@;
        row.push(field);
        rows.push(row);
        proof {
            assert(rows@.map_values(|rw: Vec<String>| rw@.map_values(|f: String| f@))
                =~~= grows.push(grow.push(gfield)));
        }
        Ok(rows)
    }
}

/// Whether a field must be quoted when written: it holds the delimiter, a
/// quote, or a line break.
pub open spec fn needs_quotes(s: Seq<char>, delim: char) -> bool {
    exists|i: int|
        0 <= i < s.len() && ((#[trigger] s[i]) == delim || s[i] == '"' || s[i] == '\n' || s[i]
            == '\r')
}

/// A field as it is written: quoted with doubled quotes when needed.
pub open spec fn encoded_field(s: Seq<char>, delim: char) -> Seq<char> {
    if needs_quotes(s, delim) {
        seq!['"'] + escape_quotes(s) + seq!['"']
    } else {
        s
    }
}

/// Every quote doubled.
pub open spec fn escape_quotes(s: Seq<char>) -> Seq<char>
    decreases s.len(),
{
    if s.len() == 0 {
        Seq::empty()
    } else if s.last() == '"' {
        escape_quotes(s.drop_last()) + seq!['"', '"']
    } else {
        escape_quotes(s.drop_last()).push(s.last())
    }
}

/// Writes one field, quoting it when its text calls for it.
pub fn write_field(out: &mut String, s: &str, delim: char)
    ensures
        final(out)@ == old(out)@ + encoded_field(s@, delim),
{
    let cs = str_to_chars(s);
    let n = cs.len();
    let mut needs = false;
    let mut i: usize = 0;
    while i < n
        invariant
            cs@ == s@,
            n == cs@.len(),
            i <= n,
            needs == exists|q: int|
                0 <= q < i && ((#[trigger] cs@[q]) == delim || cs@[q] == '"' || cs@[q] == '\n'
                    || cs@[q] == '\r'),
        decreases n - i,
    {
        let c = cs[i];
        if c == delim || c == '"' || c == '\n' || c == '\r' {
            needs = true;
        }
        i = i + 1;
    }
    proof {
        assert(needs == needs_quotes(s@, delim));
    }
    if !needs {
        out.append(s);
        proof {
            assert(old(out)@ + encoded_field(s@, delim) =~= out@);
        }
    } else {
        push_char(out, '"');
        let ghost base = out@;
        let mut j: usize = 0;
        while j < n
            invariant
                cs@ == s@,
                n == cs@.len(),
                j <= n,
                out@ == base + escape_quotes(cs@.take(j as int)),
            decreases n - j,
        {
            let c = cs[j];
            proof {
                assert(cs@.take(j + 1).drop_last() =~= cs@.take(j as int));
                assert(cs@.take(j + 1).last() == cs@[j as int]);
            }
            if c == '"' {
                push_char(out, '"');
                push_char(out, '"');
                proof {
                    assert(out@ =~= base + escape_quotes(cs@.take(j + 1)));
                }
            } else {
                push_char(out, c);
                proof {
                    assert(out@ =~= base + escape_quotes(cs@.take(j + 1)));
                }
            }
            j = j + 1;
        }
        push_char(out, '"');
        proof {
            assert(cs@.take(n as int) =~= cs@);
            assert(out@ =~= old(out)@ + encoded_field(s@, delim));
        }
    }
}

} // verus!
