//! Reading and writing rows of comma-separated text.
//!
//! A row is an ordered sequence of fields. Reading handles quoted fields
//! with doubled-quote escaping, and a quoted field may span physical lines:
//! [`CsvParser`] holds the joining state while a caller feeds it one
//! physical line at a time. Writing quotes a field when it holds a comma, a
//! newline or a quote, doubling embedded quotes.

use vstd::prelude::*;

use crate::chars::chars_to_string;
use crate::chars::spec_trim_end;
use crate::chars::str_to_chars;
use crate::chars::trim_end_chars;
use vstd::string::StringSliceAdditionalSpecFns;

verus! {

/// Whether a field must be quoted when written: it holds a comma, a
/// newline or a quote.
pub open spec fn cell_needs_quotes(c: Seq<char>) -> bool {
    exists|i: int| 0 <= i < c.len() && (c[i] == ',' || c[i] == '\n' || c[i] == '"')
}

/// A field's characters with every quote doubled.
pub open spec fn double_quotes(c: Seq<char>) -> Seq<char>
    decreases c.len(),
{
    if c.len() == 0 {
        c
    } else if c[0] == '"' {
        seq!['"', '"'] + double_quotes(c.subrange(1, c.len() as int))
    } else {
        seq![c[0]] + double_quotes(c.subrange(1, c.len() as int))
    }
}

/// A field as it is written: quoted and with doubled quotes when it needs
/// quoting, verbatim otherwise.
pub open spec fn spec_quote_cell(c: Seq<char>) -> Seq<char> {
    if cell_needs_quotes(c) {
        seq!['"'] + double_quotes(c) + seq!['"']
    } else {
        c
    }
}

/// The fields of a row after the first, each preceded by a comma.
pub open spec fn export_rest(cells: Seq<Seq<char>>) -> Seq<char>
    decreases cells.len(),
{
    if cells.len() == 0 {
        Seq::empty()
    } else {
        seq![','] + spec_quote_cell(cells[0]) + export_rest(cells.drop_first())
    }
}

/// A row as one line of text, without the final newline.
pub open spec fn export_cells(cells: Seq<Seq<char>>) -> Seq<char> {
    if cells.len() == 0 {
        Seq::empty()
    } else {
        spec_quote_cell(cells[0]) + export_rest(cells.drop_first())
    }
}

/// Rows as text: each row's quoted fields joined by commas, each row ended
/// by a newline.
pub open spec fn spec_export(records: Seq<Seq<Seq<char>>>) -> Seq<char>
    decreases records.len(),
{
    if records.len() == 0 {
        Seq::empty()
    } else {
        export_cells(records[0]) + seq!['\n'] + spec_export(records.drop_first())
    }
}

/// Appends one field to `output`, quoted if it holds a comma, a newline or
/// a quote, with embedded quotes doubled.
pub fn quote_csv_cell(cell: &str, output: &mut String)
    ensures
        final(output)@ == old(output)@ + spec_quote_cell(cell@),
{
    let v = str_to_chars(cell);
    let n = v.len();
    let mut needs = false;
    let mut i: usize = 0;
    while i < n
        invariant
            i <= n,
            n == v@.len(),
            v@ == cell@,
            needs == exists|j: int| 0 <= j < i && (v@[j] == ',' || v@[j] == '\n' || v@[j] == '"'),
        decreases n - i,
    {
        let c = v[i];
        if c == ',' || c == '\n' || c == '"' {
            needs = true;
        }
        i = i + 1;
    }
    if !needs {
        output.append(cell);
        return;
    }
    let mut out: Vec<char> = Vec::new();
    out.push('"');
    let mut i: usize = 0;
    proof {
        assert(v@.take(0) =~= Seq::<char>::empty());
        assert(out@ =~= seq!['"'] + double_quotes(v@.take(0)));
    }
    while i < n
        invariant
            i <= n,
            n == v@.len(),
            v@ == cell@,
            out@ == seq!['"'] + double_quotes(v@.take(i as int)),
        decreases n - i,
    {
        let ghost pre = v@.take(i as int);
        let c = v[i];
        if c == '"' {
            out.push('"');
            out.push('"');
        } else {
            out.push(c);
        }
        proof {
            let cur = v@.take(i + 1 as int);
            lemma_double_quotes_snoc(cur);
            assert(cur.drop_last() =~= pre);
            assert(cur.last() == c);
        }
        i = i + 1;
    }
    out.push('"');
    proof {
        assert(v@.take(n as int) =~= v@);
        assert(out@ =~= seq!['"'] + double_quotes(v@) + seq!['"']);
    }
    let s = chars_to_string(&out);
    output.append(s.as_str());
}

/// Doubling quotes commutes with adding one character at the end.
proof fn lemma_double_quotes_snoc(c: Seq<char>)
    requires
        c.len() > 0,
    ensures
        double_quotes(c) == double_quotes(c.drop_last()) + (if c.last() == '"' {
            seq!['"', '"']
        } else {
            seq![c.last()]
        }),
    decreases c.len(),
{
    reveal_with_fuel(double_quotes, 3);
    if c.len() == 1 {
        assert(c.drop_last() =~= Seq::<char>::empty());
        assert(c.subrange(1, c.len() as int) =~= Seq::<char>::empty());
        if c[0] == '"' {
            assert(double_quotes(c) =~= seq!['"', '"']);
            assert(double_quotes(c.drop_last()) + seq!['"', '"'] =~= seq!['"', '"']);
        } else {
            assert(double_quotes(c) =~= seq![c[0]]);
            assert(double_quotes(c.drop_last()) + seq![c[0]] =~= seq![c[0]]);
        }
    } else {
        let t = c.subrange(1, c.len() as int);
        lemma_double_quotes_snoc(t);
        assert(t.drop_last() =~= c.drop_last().subrange(1, c.len() - 1));
        assert(t.last() == c.last());
        let head: Seq<char> = if c[0] == '"' {
            seq!['"', '"']
        } else {
            seq![c[0]]
        };
        assert(double_quotes(c) == head + double_quotes(t));
        assert(double_quotes(c.drop_last()) == head + double_quotes(c.drop_last().subrange(
            1,
            c.drop_last().len() as int,
        )));
        let tail: Seq<char> = if c.last() == '"' {
            seq!['"', '"']
        } else {
            seq![c.last()]
        };
        assert(double_quotes(c) =~= (head + double_quotes(t.drop_last())) + tail);
        assert(double_quotes(c.drop_last()) + tail =~= (head + double_quotes(t.drop_last()))
            + tail);
    }
}

/// Writes rows as comma-separated text into `output`, replacing what it
/// held.
pub fn export(records: &Vec<Vec<String>>, output: &mut String)
    ensures
        final(output)@ == spec_export(records.deep_view()),
{
    let mut fresh = String::new();
    let ghost all = records.deep_view();
    let n = records.len();
    let mut i: usize = 0;
    proof {
        assert(all.skip(0) =~= all);
    }
    while i < n
        invariant
            i <= n,
            n == records@.len(),
            all == records.deep_view(),
            spec_export(all) == fresh@ + spec_export(all.skip(i as int)),
        decreases n - i,
    {
        let ghost rest = all.skip(i as int);
        proof {
            assert(rest[0] == all[i as int]);
            assert(rest.drop_first() =~= all.skip(i + 1 as int));
            assert(all[i as int] =~~= records@[i as int].deep_view());
        }
        let line = &records[i];
        let m = line.len();
        let mut k: usize = 0;
        let ghost cells = all[i as int];
        let ghost after = spec_export(all.skip(i + 1 as int));
        proof {
            assert(spec_export(rest) == export_cells(cells) + seq!['\n'] + spec_export(
                rest.drop_first(),
            ));
            assert(spec_export(all) =~= fresh@ + export_cells(cells) + seq!['\n'] + after);
        }
        while k < m
            invariant
                k <= m,
                m == line@.len(),
                cells =~~= line.deep_view(),
                cells.len() == m,
                spec_export(all) == fresh@ + (if k == 0 {
                    export_cells(cells)
                } else {
                    export_rest(cells.skip(k as int))
                }) + seq!['\n'] + after,
            decreases m - k,
        {
            proof {
                assert(cells[k as int] =~~= line@[k as int]@);
            }
            if k > 0 {
                fresh.append(",");
                proof {
                    reveal_strlit(",");
                    assert(","@ =~= seq![',']);
                }
            }
            quote_csv_cell(line[k].as_str(), &mut fresh);
            proof {
                if k == 0 {
                    if m == 1 {
                        assert(cells.drop_first() =~= cells.skip(1));
                    }
                    assert(cells.drop_first() =~= cells.skip(1));
                    assert(export_cells(cells) == spec_quote_cell(cells[0]) + export_rest(
                        cells.skip(1),
                    ));
                    assert(spec_export(all) =~= fresh@ + export_rest(cells.skip(1)) + seq!['\n']
                        + after);
                } else {
                    assert(cells.skip(k as int).drop_first() =~= cells.skip(k + 1 as int));
                    assert(cells.skip(k as int)[0] == cells[k as int]);
                    assert(export_rest(cells.skip(k as int)) == seq![','] + spec_quote_cell(
                        cells[k as int],
                    ) + export_rest(cells.skip(k + 1 as int)));
                    assert(spec_export(all) =~= fresh@ + export_rest(cells.skip(k + 1 as int))
                        + seq!['\n'] + after);
                }
            }
            k = k + 1;
        }
        proof {
            if m == 0 {
                assert(export_cells(cells) =~= Seq::<char>::empty());
            } else {
                assert(cells.skip(m as int) =~= Seq::<Seq<char>>::empty());
                assert(export_rest(cells.skip(m as int)) =~= Seq::<char>::empty());
            }
        }
        fresh.append("\n");
        proof {
            reveal_strlit("\n");
            assert("\n"@ =~= seq!['\n']);
            assert(spec_export(all) =~= fresh@ + spec_export(all.skip(i + 1 as int)));
        }
        i = i + 1;
    }
    proof {
        assert(all.skip(n as int) =~= Seq::<Seq<Seq<char>>>::empty());
    }
    *output = fresh;
}

/// The number of quote characters in `s`.
pub open spec fn count_quotes(s: Seq<char>) -> nat
    decreases s.len(),
{
    if s.len() == 0 {
        0
    } else {
        count_quotes(s.drop_last()) + (if s.last() == '"' {
            1nat
        } else {
            0nat
        })
    }
}

/// The fields of one assembled row, scanned left to right: a quote toggles
/// quoted mode, a doubled quote inside quotes is a literal quote, and an
/// unquoted comma closes a field.
pub open spec fn csv_fields(
    s: Seq<char>,
    in_q: bool,
    cell: Seq<char>,
    acc: Seq<Seq<char>>,
) -> Seq<Seq<char>>
    decreases s.len(),
{
    if s.len() == 0 {
        acc.push(cell)
    } else {
        let c = s[0];
        if c == '"' {
            if in_q {
                if s.len() > 1 && s[1] == '"' {
                    csv_fields(s.subrange(2, s.len() as int), true, cell.push('"'), acc)
                } else {
                    csv_fields(s.subrange(1, s.len() as int), false, cell, acc)
                }
            } else {
                csv_fields(s.subrange(1, s.len() as int), true, cell, acc)
            }
        } else if c == ',' && !in_q {
            csv_fields(s.subrange(1, s.len() as int), in_q, Seq::empty(), acc.push(cell))
        } else {
            csv_fields(s.subrange(1, s.len() as int), in_q, cell.push(c), acc)
        }
    }
}

/// The fields of one assembled row.
pub open spec fn spec_parse_csv_line(s: Seq<char>) -> Seq<Seq<char>> {
    csv_fields(s, false, Seq::empty(), Seq::empty())
}

/// The mathematical content of a [`CsvParser`]: the row text assembled so
/// far, whether a quoted field is still open, and the byte count fed so
/// far.
pub struct CsvStateV {
    pub buffer: Seq<char>,
    pub in_quotes: bool,
    pub bytes_read: nat,
}

/// Assembles rows from physical lines of comma-separated text.
///
/// A caller feeds one physical line at a time; the parser joins lines while
/// a quoted field is open and says when a row is complete. What the lines
/// come from — a file, a socket, a string — is the caller's business.
#[derive(Debug)]
pub struct CsvParser {
    buffer: Vec<char>,
    in_quotes: bool,
    bytes_read: u128,
}

impl View for CsvParser {
    type V = CsvStateV;

    closed spec fn view(&self) -> CsvStateV {
        CsvStateV {
            buffer: self.buffer@,
            in_quotes: self.in_quotes,
            bytes_read: self.bytes_read as nat,
        }
    }
}

impl CsvParser {
    /// A parser with nothing assembled yet.
    pub fn new() -> (r: CsvParser)
        ensures
            r@.buffer == Seq::<char>::empty(),
            !r@.in_quotes,
            r@.bytes_read == 0,
    {
        CsvParser { buffer: Vec::new(), in_quotes: false, bytes_read: 0 }
    }

    /// Feeds one physical line, as read from the input, its line break
    /// included if one was present. The line is stripped of trailing
    /// whitespace and joined onto the row being assembled; an unmatched
    /// quote leaves the row open across lines. Returns whether the
    /// assembled row is complete.
    pub fn feed_line(&mut self, line: &str) -> (done: bool)
        ensures
            final(self)@.buffer == (if old(self)@.buffer.len() > 0 {
                old(self)@.buffer + seq!['\n']
            } else {
                old(self)@.buffer
            }) + spec_trim_end(line@),
            final(self)@.in_quotes == (old(self)@.in_quotes != (count_quotes(line@) % 2 == 1)),
            done == !final(self)@.in_quotes,
            final(self)@.bytes_read == (if old(self)@.bytes_read + (line.spec_bytes().len()
                as usize) <= u128::MAX {
                (old(self)@.bytes_read + (line.spec_bytes().len() as usize)) as nat
            } else {
                u128::MAX as nat
            }),
    {
        let v = str_to_chars(line);
        let n = v.len();
        let mut quotes: usize = 0;
        let mut i: usize = 0;
        while i < n
            invariant
                i <= n,
                n == v@.len(),
                quotes <= i,
                quotes == count_quotes(v@.take(i as int)),
            decreases n - i,
        {
            if v[i] == '"' {
                quotes = quotes + 1;
            }
            proof {
                assert(v@.take(i + 1 as int).drop_last() =~= v@.take(i as int));
            }
            i = i + 1;
        }
        proof {
            assert(v@.take(n as int) =~= v@);
        }
        if quotes % 2 == 1 {
            self.in_quotes = !self.in_quotes;
        }
        if self.buffer.len() > 0 {
            self.buffer.push('\n');
        }
        let trimmed = trim_end_chars(&v);
        crate::chars::push_all(&mut self.buffer, &trimmed);
        let add = line.len();
        if self.bytes_read <= u128::MAX - add as u128 {
            self.bytes_read = self.bytes_read + add as u128;
        } else {
            self.bytes_read = u128::MAX;
        }
        !self.in_quotes
    }

    /// Whether nothing has been assembled since the last [`Self::clear`].
    pub fn buffer_is_empty(&self) -> (r: bool)
        ensures
            r == (self@.buffer.len() == 0),
    {
        self.buffer.len() == 0
    }

    /// The fields of the row assembled so far.
    pub fn parse_csv_line(&self) -> (r: Vec<String>)
        ensures
            r.deep_view() == spec_parse_csv_line(self@.buffer),
    {
        let n = self.buffer.len();
        let mut in_q = false;
        let mut cell: Vec<char> = Vec::new();
        let mut acc: Vec<String> = Vec::new();
        let mut i: usize = 0;
        let ghost full = self@.buffer;
        proof {
            assert(full.skip(0) =~= full);
            assert(acc.deep_view() =~= Seq::<Seq<char>>::empty());
        }
        while i < n
            invariant
                i <= n,
                n == self@.buffer.len(),
                full == self@.buffer,
                spec_parse_csv_line(full) == csv_fields(
                    full.skip(i as int),
                    in_q,
                    cell@,
                    acc.deep_view(),
                ),
            decreases n - i,
        {
            let ghost rem = full.skip(i as int);
            let ghost old_acc = acc.deep_view();
            proof {
                assert(rem[0] == full[i as int]);
                assert(rem.subrange(1, rem.len() as int) =~= full.skip(i + 1 as int));
                if rem.len() > 1 {
                    assert(rem[1] == full[i + 1]);
                    assert(rem.subrange(2, rem.len() as int) =~= full.skip(i + 2 as int));
                }
            }
            let c = self.buffer[i];
            if c == '"' {
                if in_q {
                    if i + 1 < n && self.buffer[i + 1] == '"' {
                        cell.push('"');
                        i = i + 2;
                    } else {
                        in_q = false;
                        i = i + 1;
                    }
                } else {
                    in_q = true;
                    i = i + 1;
                }
            } else if c == ',' && !in_q {
                let ghost old_cell = cell@;
                acc.push(chars_to_string(&cell));
                cell = Vec::new();
                proof {
                    assert(acc.deep_view() =~~= old_acc.push(old_cell));
                }
                i = i + 1;
            } else {
                cell.push(c);
                i = i + 1;
            }
        }
        proof {
            assert(full.skip(n as int) =~= Seq::<char>::empty());
        }
        acc.push(chars_to_string(&cell));
        proof {
            assert(acc.deep_view() =~~= spec_parse_csv_line(full));
        }
        acc
    }

    /// How many bytes have been fed so far, for progress reporting. The
    /// counter saturates rather than wrap.
    pub fn bytes_read(&self) -> (r: u128)
        ensures
            r as nat == self@.bytes_read,
    {
        self.bytes_read
    }

    /// Discards the assembled row, ready for the next one.
    pub fn clear(&mut self)
        ensures
            final(self)@.buffer == Seq::<char>::empty(),
            final(self)@.in_quotes == old(self)@.in_quotes,
            final(self)@.bytes_read == old(self)@.bytes_read,
    {
        self.buffer = Vec::new();
    }
}

/// The physical lines of a text: each segment ends with a newline, except
/// possibly the last.
pub open spec fn spec_lines(s: Seq<char>) -> Seq<Seq<char>>
    decreases s.len(),
{
    if s.len() == 0 {
        Seq::empty()
    } else {
        match crate::chars::spec_find(s, seq!['\n']) {
            Some(i) => if i + 1 <= s.len() {
                seq![s.subrange(0, i + 1 as int)] + spec_lines(s.subrange(i + 1 as int, s.len() as int))
            } else {
                seq![s]
            },
            None => seq![s],
        }
    }
}

/// The rows assembled from physical lines: lines are joined while a quoted
/// field is open, each complete row is parsed into fields, and a leftover
/// open row at the end is parsed as it stands.
pub open spec fn spec_rows(lines: Seq<Seq<char>>, buffer: Seq<char>, in_q: bool) -> Seq<
    Seq<Seq<char>>,
>
    decreases lines.len(),
{
    if lines.len() == 0 {
        if buffer.len() == 0 {
            Seq::empty()
        } else {
            seq![spec_parse_csv_line(buffer)]
        }
    } else {
        let buf2 = (if buffer.len() > 0 {
            buffer + seq!['\n']
        } else {
            buffer
        }) + spec_trim_end(lines[0]);
        let q2 = in_q != (count_quotes(lines[0]) % 2 == 1);
        if !q2 {
            seq![spec_parse_csv_line(buf2)] + spec_rows(lines.drop_first(), Seq::empty(), false)
        } else {
            spec_rows(lines.drop_first(), buf2, q2)
        }
    }
}

/// The rows of a complete text of comma-separated values.
pub open spec fn spec_rows_of_text(s: Seq<char>) -> Seq<Seq<Seq<char>>> {
    spec_rows(spec_lines(s), Seq::empty(), false)
}

/// Splits a text into its physical lines, line breaks included.
fn text_lines(text: &str) -> (r: Vec<String>)
    ensures
        r.deep_view() == spec_lines(text@),
{
    let v = str_to_chars(text);
    let mut rem: Vec<char> = v;
    let mut out: Vec<String> = Vec::new();
    let mut nl: Vec<char> = Vec::new();
    nl.push('\n');
    proof {
        assert(nl@ =~= seq!['\n']);
        assert(out.deep_view() =~~= Seq::<Seq<char>>::empty());
        assert(Seq::<Seq<char>>::empty() + spec_lines(rem@) =~= spec_lines(rem@));
    }
    loop
        invariant
            nl@ == seq!['\n'],
            spec_lines(text@) == out.deep_view() + spec_lines(rem@),
        decreases rem@.len(),
    {
        if rem.len() == 0 {
            proof {
                assert(out.deep_view() + spec_lines(rem@) =~= out.deep_view());
            }
            return out;
        }
        let ghost old_out = out.deep_view();
        match crate::chars::find_sub(&rem, &nl) {
            Some(i) => {
                proof {
                    crate::chars::lemma_find_characterization(rem@, nl@);
                    assert(crate::chars::match_at(rem@, nl@, i as int));
                }
                let seg = crate::chars::subrange_chars(&rem, 0, i + 1);
                let next = crate::chars::subrange_chars(&rem, i + 1, rem.len());
                out.push(chars_to_string(&seg));
                proof {
                    assert(out.deep_view() =~~= old_out.push(rem@.subrange(0, i + 1 as int)));
                    assert(spec_lines(text@) =~= out.deep_view() + spec_lines(next@));
                }
                rem = next;
            },
            None => {
                let ghost r = rem@;
                out.push(chars_to_string(&rem));
                proof {
                    assert(out.deep_view() =~~= old_out.push(r));
                    assert(spec_lines(r) =~= seq![r]);
                    assert(out.deep_view() =~~= spec_lines(text@));
                }
                return out;
            },
        }
    }
}

/// Reads a complete text of comma-separated values into its rows of
/// fields.
pub fn rows_from_text(text: &str) -> (r: Vec<Vec<String>>)
    ensures
        r.deep_view() == spec_rows_of_text(text@),
{
    let lines = text_lines(text);
    let ghost all = lines.deep_view();
    let mut parser = CsvParser::new();
    let mut rows: Vec<Vec<String>> = Vec::new();
    let n = lines.len();
    let mut i: usize = 0;
    proof {
        assert(all.skip(0) =~= all);
        assert(rows.deep_view() =~~= Seq::<Seq<Seq<char>>>::empty());
        assert(Seq::<Seq<Seq<char>>>::empty() + spec_rows(all, Seq::empty(), false) =~= spec_rows(
            all,
            Seq::empty(),
            false,
        ));
    }
    while i < n
        invariant
            i <= n,
            n == lines@.len(),
            all == lines.deep_view(),
            spec_rows_of_text(text@) == rows.deep_view() + spec_rows(
                all.skip(i as int),
                parser@.buffer,
                parser@.in_quotes,
            ),
        decreases n - i,
    {
        let ghost rest = all.skip(i as int);
        proof {
            assert(rest[0] == all[i as int]);
            assert(rest.drop_first() =~= all.skip(i + 1 as int));
            assert(all[i as int] =~~= lines@[i as int]@);
        }
        let ghost old_rows = rows.deep_view();
        let ghost buf0 = parser@.buffer;
        let ghost q0 = parser@.in_quotes;
        let done = parser.feed_line(lines[i].as_str());
        proof {
            assert(spec_rows(rest, buf0, q0) == (if !parser@.in_quotes {
                seq![spec_parse_csv_line(parser@.buffer)] + spec_rows(
                    rest.drop_first(),
                    Seq::empty(),
                    false,
                )
            } else {
                spec_rows(rest.drop_first(), parser@.buffer, parser@.in_quotes)
            }));
        }
        if done {
            let ghost buf1 = parser@.buffer;
            let row = parser.parse_csv_line();
            parser.clear();
            rows.push(row);
            proof {
                assert(rows.deep_view() =~~= old_rows.push(spec_parse_csv_line(buf1)));
                assert(old_rows + (seq![spec_parse_csv_line(buf1)] + spec_rows(
                    rest.drop_first(),
                    Seq::empty(),
                    false,
                )) =~= rows.deep_view() + spec_rows(rest.drop_first(), Seq::empty(), false));
            }
        }
        i = i + 1;
    }
    proof {
        assert(all.skip(n as int) =~= Seq::<Seq<char>>::empty());
    }
    if !parser.buffer_is_empty() {
        let ghost old_rows = rows.deep_view();
        let row = parser.parse_csv_line();
        rows.push(row);
        proof {
            assert(rows.deep_view() =~~= old_rows.push(spec_parse_csv_line(parser@.buffer)));
            assert(old_rows + seq![spec_parse_csv_line(parser@.buffer)] =~= rows.deep_view());
        }
    } else {
        proof {
            assert(rows.deep_view() + Seq::<Seq<Seq<char>>>::empty() =~= rows.deep_view());
        }
    }
    rows
}

} // verus!
