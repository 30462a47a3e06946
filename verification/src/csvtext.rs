//! Verified parsing and printing of delimiter-separated text.
//!
//! The parser is a total character-level state machine: quoted fields may
//! hold separators, line breaks and doubled quotes; `\n` and `\r` both end a
//! row and blank lines are skipped, so CRLF input needs no pre-pass.  The
//! executable parser is proved to return exactly the rows of the spec-level
//! machine `csv_finish(csv_scan(..))`.

use vstd::prelude::*;
use vstd::string::*;

verus! {

#[derive(PartialEq, Eq, Structural, Clone, Copy, Debug)]
pub enum CsvMode {
    FieldStart,
    Unquoted,
    Quoted,
    QuoteInQuoted,
}

/// The spec-level parser state.
pub ghost struct CsvState {
    pub rows: Seq<Seq<Seq<char>>>,
    pub row: Seq<Seq<char>>,
    pub field: Seq<char>,
    pub mode: CsvMode,
    pub row_started: bool,
}

pub open spec fn csv_init() -> CsvState {
    CsvState {
        rows: Seq::empty(),
        row: Seq::empty(),
        field: Seq::empty(),
        mode: CsvMode::FieldStart,
        row_started: false,
    }
}

/// Commit the current row (used on a row terminator).
pub open spec fn csv_commit(st: CsvState) -> CsvState {
    CsvState {
        rows: st.rows.push(st.row.push(st.field)),
        row: Seq::empty(),
        field: Seq::empty(),
        mode: CsvMode::FieldStart,
        row_started: false,
    }
}

/// One step of the parser on character `c`.
pub open spec fn csv_step(st: CsvState, c: char) -> CsvState {
    match st.mode {
        CsvMode::FieldStart => {
            if c == '"' {
                CsvState { mode: CsvMode::Quoted, row_started: true, ..st }
            } else if c == ',' {
                CsvState { row: st.row.push(st.field), row_started: true, ..st }
            } else if c == '\n' || c == '\r' {
                if st.row_started {
                    csv_commit(st)
                } else {
                    st
                }
            } else {
                CsvState { field: st.field.push(c), mode: CsvMode::Unquoted, row_started: true, ..st }
            }
        },
        CsvMode::Unquoted => {
            if c == ',' {
                CsvState { row: st.row.push(st.field), field: Seq::empty(), mode: CsvMode::FieldStart, ..st }
            } else if c == '\n' || c == '\r' {
                csv_commit(st)
            } else {
                CsvState { field: st.field.push(c), ..st }
            }
        },
        CsvMode::Quoted => {
            if c == '"' {
                CsvState { mode: CsvMode::QuoteInQuoted, ..st }
            } else {
                CsvState { field: st.field.push(c), ..st }
            }
        },
        CsvMode::QuoteInQuoted => {
            if c == '"' {
                CsvState { field: st.field.push('"'), mode: CsvMode::Quoted, ..st }
            } else if c == ',' {
                CsvState { row: st.row.push(st.field), field: Seq::empty(), mode: CsvMode::FieldStart, ..st }
            } else if c == '\n' || c == '\r' {
                csv_commit(st)
            } else {
                CsvState { field: st.field.push(c), mode: CsvMode::Unquoted, ..st }
            }
        },
    }
}

/// The parser state after the first `n` characters of `s`.
pub open spec fn csv_scan(s: Seq<char>, n: int) -> CsvState
    decreases n,
{
    if n <= 0 {
        csv_init()
    } else {
        csv_step(csv_scan(s, n - 1), s[n - 1])
    }
}

/// The rows of a whole text: a final unterminated row is committed.
pub open spec fn csv_rows(s: Seq<char>) -> Seq<Seq<Seq<char>>> {
    let st = csv_scan(s, s.len() as int);
    if st.row_started {
        st.rows.push(st.row.push(st.field))
    } else {
        st.rows
    }
}

/// View of one parsed row.
pub open spec fn row_view(r: Vec<String>) -> Seq<Seq<char>> {
    r@.map(|i: int, f: String| f@)
}

/// View of a parsed table.
pub open spec fn rows_view(r: Vec<Vec<String>>) -> Seq<Seq<Seq<char>>> {
    r@.map(|i: int, row: Vec<String>| row_view(row))
}

/// Relies on `String`'s `FromIterator<char>`: collecting characters yields
/// the string of exactly those characters.
#[verifier::external_body]
pub(crate) fn chars_to_string(v: &Vec<char>) -> (r: String)
    ensures
        r@ == v@,
{
    v.iter().collect()
}

/// Parse a whole text into rows of fields.
pub fn parse_csv(text: &str) -> (r: Vec<Vec<String>>)
    ensures
        rows_view(r) == csv_rows(text@),
{
    let n = text.unicode_len();
    let mut rows: Vec<Vec<String>> = Vec::new();
    let mut row: Vec<String> = Vec::new();
    let mut field: Vec<char> = Vec::new();
    let mut mode = CsvMode::FieldStart;
    let mut row_started = false;
    let mut i: usize = 0;
    while i < n
        invariant
            0 <= i <= n,
            n == text@.len(),
            rows_view(rows) == csv_scan(text@, i as int).rows,
            row_view(row) == csv_scan(text@, i as int).row,
            field@ == csv_scan(text@, i as int).field,
            mode == csv_scan(text@, i as int).mode,
            row_started == csv_scan(text@, i as int).row_started,
        decreases n - i,
    {
        let ghost g = csv_scan(text@, i as int);
        let c = text.get_char(i);
        let is_term = c == '\n' || c == '\r';
        match mode {
            CsvMode::FieldStart => {
                if c == '"' {
                    mode = CsvMode::Quoted;
                    row_started = true;
                } else if c == ',' {
                    row.push(chars_to_string(&field));
                    row_started = true;
                    proof {
                        assert(row_view(row) =~= g.row.push(g.field));
                    }
                } else if is_term {
                    if row_started {
                        row.push(chars_to_string(&field));
                        proof {
                            assert(row_view(row) =~= g.row.push(g.field));
                        }
                        rows.push(row);
                        proof {
                            assert(rows_view(rows) =~= g.rows.push(g.row.push(g.field)));
                        }
                        row = Vec::new();
                        field.clear();
                        row_started = false;
                        proof {
                            assert(row_view(row) =~= Seq::<Seq<char>>::empty());
                        }
                    }
                } else {
                    field.push(c);
                    mode = CsvMode::Unquoted;
                    row_started = true;
                }
            },
            CsvMode::Unquoted => {
                if c == ',' {
                    row.push(chars_to_string(&field));
                    field.clear();
                    mode = CsvMode::FieldStart;
                    proof {
                        assert(row_view(row) =~= g.row.push(g.field));
                    }
                } else if is_term {
                    row.push(chars_to_string(&field));
                    proof {
                        assert(row_view(row) =~= g.row.push(g.field));
                    }
                    rows.push(row);
                    proof {
                        assert(rows_view(rows) =~= g.rows.push(g.row.push(g.field)));
                    }
                    row = Vec::new();
                    field.clear();
                    row_started = false;
                    mode = CsvMode::FieldStart;
                    proof {
                        assert(row_view(row) =~= Seq::<Seq<char>>::empty());
                    }
                } else {
                    field.push(c);
                }
            },
            CsvMode::Quoted => {
                if c == '"' {
                    mode = CsvMode::QuoteInQuoted;
                } else {
                    field.push(c);
                }
            },
            CsvMode::QuoteInQuoted => {
                if c == '"' {
                    field.push('"');
                    mode = CsvMode::Quoted;
                } else if c == ',' {
                    row.push(chars_to_string(&field));
                    field.clear();
                    mode = CsvMode::FieldStart;
                    proof {
                        assert(row_view(row) =~= g.row.push(g.field));
                    }
                } else if is_term {
                    row.push(chars_to_string(&field));
                    proof {
                        assert(row_view(row) =~= g.row.push(g.field));
                    }
                    rows.push(row);
                    proof {
                        assert(rows_view(rows) =~= g.rows.push(g.row.push(g.field)));
                    }
                    row = Vec::new();
                    field.clear();
                    row_started = false;
                    mode = CsvMode::FieldStart;
                    proof {
                        assert(row_view(row) =~= Seq::<Seq<char>>::empty());
                    }
                } else {
                    field.push(c);
                    mode = CsvMode::Unquoted;
                }
            },
        }
        proof {
            assert(csv_scan(text@, i + 1) == csv_step(g, text@[i as int]));
        }
        i += 1;
    }
    let ghost g = csv_scan(text@, n as int);
    if row_started {
        row.push(chars_to_string(&field));
        proof {
            assert(row_view(row) =~= g.row.push(g.field));
        }
        rows.push(row);
        proof {
            assert(rows_view(rows) =~= g.rows.push(g.row.push(g.field)));
        }
    }
    rows
}

/// Why a text could not be used as a table, or a required column is absent.
#[derive(Debug, PartialEq, Eq)]
pub enum CsvError {
    MissingHeader,
    UnequalRowLength,
    MissingColumn(String),
}

/// A parsed table: one header row and rectangular data rows.
pub struct CsvTable {
    pub header: Vec<String>,
    pub rows: Vec<Vec<String>>,
}

impl CsvTable {
    /// Every data row is as wide as the header.
    pub open spec fn wf(&self) -> bool {
        forall|i: int|
            0 <= i < self.rows@.len() ==> (#[trigger] self.rows@[i])@.len() == self.header@.len()
    }
}

/// Split a text into header and data rows, requiring every data row to have
/// exactly as many fields as the header.
pub fn table(text: &str) -> (r: Result<CsvTable, CsvError>)
    ensures
        match r {
            Ok(t) => {
                &&& table_ok(text@)
                &&& row_view(t.header) == header_of(text@)
                &&& rows_view(t.rows) == data_of(text@)
                &&& t.wf()
            },
            Err(e) => table_err(text@, e),
        },
{
    let mut rows = parse_csv(text);
    if rows.len() == 0 {
        return Err(CsvError::MissingHeader);
    }
    let ghost all = rows_view(rows);
    let header = rows.remove(0);
    proof {
        assert(rows_view(rows) =~= all.drop_first());
    }
    let hn = header.len();
    let n = rows.len();
    let mut i: usize = 0;
    while i < n
        invariant
            0 <= i <= n,
            n == rows@.len(),
            hn == header@.len(),
            rows_view(rows) == all.drop_first(),
            all == csv_rows(text@),
            all.len() == n + 1,
            row_view(header) == all[0],
            forall|j: int| 0 <= j < i ==> (#[trigger] rows@[j])@.len() == hn,
        decreases n - i,
    {
        if rows[i].len() != hn {
            proof {
                assert(rows_view(rows)[i as int] == row_view(rows@[i as int]));
                assert(all.drop_first()[i as int] == all[i + 1]);
                assert(csv_rows(text@)[i + 1].len() != csv_rows(text@)[0].len());
            }
            return Err(CsvError::UnequalRowLength);
        }
        i += 1;
    }
    proof {
        assert forall|j: int|
            1 <= j < csv_rows(text@).len() implies (#[trigger] csv_rows(text@)[j]).len()
            == csv_rows(text@)[0].len() by {
            assert(csv_rows(text@)[j] == all.drop_first()[j - 1]);
            assert(all.drop_first()[j - 1] == rows_view(rows)[j - 1]);
            assert(rows_view(rows)[j - 1] == row_view(rows@[j - 1]));
        }
    }
    Ok(CsvTable { header, rows })
}

/// Index of the first occurrence of `name` in `header`, from position `i`.
pub open spec fn col_from(header: Seq<Seq<char>>, name: Seq<char>, i: int) -> Option<int>
    decreases header.len() - i,
{
    if i >= header.len() {
        None
    } else if header[i] == name {
        Some(i)
    } else {
        col_from(header, name, i + 1)
    }
}

/// Index of the first header column named `name`.
pub open spec fn col(header: Seq<Seq<char>>, name: Seq<char>) -> Option<int> {
    col_from(header, name, 0)
}

pub proof fn lemma_col_bounds(header: Seq<Seq<char>>, name: Seq<char>, i: int)
    requires
        0 <= i,
    ensures
        match col_from(header, name, i) {
            Some(j) => i <= j < header.len() && header[j] == name,
            None => forall|j: int| i <= j < header.len() ==> header[j] != name,
        },
    decreases header.len() - i,
{
    if i < header.len() && header[i] != name {
        lemma_col_bounds(header, name, i + 1);
    }
}

/// Index of the first header column named `name`.
pub fn column_index(header: &Vec<String>, name: &str) -> (r: Option<usize>)
    ensures
        match col(row_view(*header), name@) {
            Some(i) => r == Some(i as usize),
            None => r is None,
        },
{
    let n = header.len();
    let ghost hv = row_view(*header);
    let mut i: usize = 0;
    while i < n
        invariant
            0 <= i <= n,
            n == header@.len(),
            hv == row_view(*header),
            col(hv, name@) == col_from(hv, name@, i as int),
        decreases n - i,
    {
        if crate::strmap::str_eq(header[i].as_str(), name) {
            proof {
                assert(hv[i as int] == name@);
            }
            return Some(i);
        }
        proof {
            assert(hv[i as int] != name@);
        }
        i += 1;
    }
    None
}

/// The text parses into a non-empty rectangular table.
pub open spec fn table_ok(s: Seq<char>) -> bool {
    csv_rows(s).len() > 0 && forall|i: int|
        1 <= i < csv_rows(s).len() ==> (#[trigger] csv_rows(s)[i]).len() == csv_rows(s)[0].len()
}

/// The table-shape error that `e` reports holds of the text.
pub open spec fn table_err(s: Seq<char>, e: CsvError) -> bool {
    match e {
        CsvError::MissingHeader => csv_rows(s).len() == 0,
        CsvError::UnequalRowLength => exists|i: int|
            1 <= i < csv_rows(s).len() && (#[trigger] csv_rows(s)[i]).len() != csv_rows(
                s,
            )[0].len(),
        CsvError::MissingColumn(_) => false,
    }
}

/// The header of a text that parses as a table.
pub open spec fn header_of(s: Seq<char>) -> Seq<Seq<char>> {
    csv_rows(s)[0]
}

/// The data rows of a text that parses as a table.
pub open spec fn data_of(s: Seq<char>) -> Seq<Seq<Seq<char>>> {
    csv_rows(s).drop_first()
}

/// Whether a field must be quoted when printed.
pub open spec fn needs_quoting(f: Seq<char>) -> bool {
    exists|i: int|
        0 <= i < f.len() && (f[i] == ',' || f[i] == '"' || f[i] == '\n' || f[i] == '\r')
}

/// A field's characters with every quote doubled.
pub open spec fn escaped(f: Seq<char>) -> Seq<char>
    decreases f.len(),
{
    if f.len() == 0 {
        Seq::empty()
    } else if f.last() == '"' {
        escaped(f.drop_last()).push('"').push('"')
    } else {
        escaped(f.drop_last()).push(f.last())
    }
}

/// A field as printed: quoted and escaped when needed, verbatim otherwise.
pub open spec fn encoded_field(f: Seq<char>) -> Seq<char> {
    if needs_quoting(f) {
        seq!['"'] + escaped(f) + seq!['"']
    } else {
        f
    }
}

/// A row as printed: encoded fields joined by commas.
pub open spec fn encoded_row(fields: Seq<Seq<char>>) -> Seq<char>
    decreases fields.len(),
{
    if fields.len() == 0 {
        Seq::empty()
    } else if fields.len() == 1 {
        encoded_field(fields[0])
    } else {
        encoded_row(fields.drop_last()) + seq![','] + encoded_field(fields.last())
    }
}

/// A table as printed: each row followed by a line feed.
pub open spec fn encoded_rows(rows: Seq<Seq<Seq<char>>>) -> Seq<char>
    decreases rows.len(),
{
    if rows.len() == 0 {
        Seq::empty()
    } else {
        encoded_rows(rows.drop_last()) + encoded_row(rows.last()) + seq!['\n']
    }
}

/// Append one encoded field to `out`.
fn push_encoded_field(out: &mut Vec<char>, f: &str)
    ensures
        final(out)@ == old(out)@ + encoded_field(f@),
{
    let n = f.unicode_len();
    let mut quote = false;
    let mut i: usize = 0;
    while i < n
        invariant
            0 <= i <= n,
            n == f@.len(),
            quote == exists|j: int|
                0 <= j < i && (f@[j] == ',' || f@[j] == '"' || f@[j] == '\n' || f@[j] == '\r'),
        decreases n - i,
    {
        let c = f.get_char(i);
        if c == ',' || c == '"' || c == '\n' || c == '\r' {
            quote = true;
        }
        i += 1;
    }
    if !quote {
        let mut i: usize = 0;
        while i < n
            invariant
                0 <= i <= n,
                n == f@.len(),
                out@ == old(out)@ + f@.take(i as int),
            decreases n - i,
        {
            out.push(f.get_char(i));
            proof {
                assert(old(out)@ + f@.take(i + 1) =~= (old(out)@ + f@.take(i as int)).push(
                    f@[i as int],
                ));
            }
            i += 1;
        }
        proof {
            assert(f@.take(n as int) =~= f@);
        }
    } else {
        out.push('"');
        let mut i: usize = 0;
        while i < n
            invariant
                0 <= i <= n,
                n == f@.len(),
                out@ == old(out)@ + seq!['"'] + escaped(f@.take(i as int)),
            decreases n - i,
        {
            let c = f.get_char(i);
            let ghost pre = out@;
            if c == '"' {
                out.push('"');
                out.push('"');
            } else {
                out.push(c);
            }
            proof {
                assert(f@.take(i + 1).drop_last() =~= f@.take(i as int));
                if c == '"' {
                    assert(out@ =~= old(out)@ + seq!['"'] + escaped(f@.take(i + 1)));
                } else {
                    assert(out@ =~= old(out)@ + seq!['"'] + escaped(f@.take(i + 1)));
                }
            }
            i += 1;
        }
        out.push('"');
        proof {
            assert(f@.take(n as int) =~= f@);
            assert(out@ =~= old(out)@ + encoded_field(f@));
        }
    }
}

/// Print one row, without the trailing line feed.
pub fn encode_row(fields: &Vec<String>) -> (r: String)
    ensures
        r@ == encoded_row(row_view(*fields)),
{
    let n = fields.len();
    let mut out: Vec<char> = Vec::new();
    let mut i: usize = 0;
    while i < n
        invariant
            0 <= i <= n,
            n == fields@.len(),
            out@ == encoded_row(row_view(*fields).take(i as int)),
        decreases n - i,
    {
        if i > 0 {
            out.push(',');
        }
        push_encoded_field(&mut out, fields[i].as_str());
        proof {
            let rv = row_view(*fields);
            assert(rv.take(i + 1).drop_last() =~= rv.take(i as int));
            assert(rv.take(i + 1).last() == rv[i as int]);
            if i == 0 {
                assert(out@ =~= encoded_row(rv.take(1)));
            } else {
                assert(out@ =~= encoded_row(rv.take(i as int)) + seq![','] + encoded_field(
                    rv[i as int],
                ));
                assert(out@ =~= encoded_row(rv.take(i + 1)));
            }
        }
        i += 1;
    }
    proof {
        assert(row_view(*fields).take(n as int) =~= row_view(*fields));
    }
    chars_to_string(&out)
}

} // verus!
