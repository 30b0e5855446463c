//! The executor: what each parsed statement does to a table, stated
//! over the table's text. A table is one block of text whose first
//! line (up to the first newline) is the header — the comma-joined
//! column names — and whose further lines are comma-joined rows.
//!
//! These functions compute; they touch no file. The caller reads the
//! table's text, hands it in, and writes back or prints what comes
//! out. The `store` module drives them against an in-memory store
//! with the same rules.

use vstd::prelude::*;
use vstd::string::*;

use crate::ast::{ExecError, SqlCreate, SqlDrop, SqlInsert, SqlSelect, SqlSelectV};
use crate::text::{join, join_comma, lemma_split_len, split, split_str};

verus! {

/// A column list a table may be created with: at least one column,
/// no empty names.
pub open spec fn valid_schema(cols: Seq<Seq<char>>) -> bool {
    cols.len() > 0 && forall|i: int| 0 <= i < cols.len() ==> (#[trigger] cols[i]).len() > 0
}

/// The header of a table's text: its first line.
pub open spec fn header_of(content: Seq<char>) -> Seq<char> {
    split(content, '\n')[0]
}

/// Run a CREATE TABLE statement: when the column list is a valid
/// schema, the header line the new table consists of; otherwise the
/// statement is rejected and `InvalidSchema` reported.
pub fn create_table(query: &SqlCreate) -> (r: Result<String, ExecError>)
    ensures
        r is Ok <==> valid_schema(query@.columns),
        r matches Ok(h) ==> h@ == join(query@.columns, ","@),
        r matches Err(e) ==> e == ExecError::InvalidSchema,
{
    if query.columns.len() == 0 {
        return Err(ExecError::InvalidSchema);
    }
    let mut i: usize = 0;
    while i < query.columns.len()
        invariant
            i <= query.columns@.len(),
            forall|j: int| 0 <= j < i ==> (#[trigger] query.columns.deep_view()[j]).len() > 0,
        decreases query.columns@.len() - i,
    {
        if query.columns[i].as_str().is_empty() {
            proof {
                assert(query.columns.deep_view()[i as int] == query.columns@[i as int]@);
                assert(!valid_schema(query@.columns));
            }
            return Err(ExecError::InvalidSchema);
        }
        i = i + 1;
    }
    Ok(join_comma(&query.columns))
}

/// Run a DROP TABLE statement against a table that does or does not
/// exist: dropping a table that is not there fails with `NotFound`;
/// dropping one that is succeeds, and the caller removes it.
pub fn drop_table(query: &SqlDrop, exists: bool) -> (r: Result<(), ExecError>)
    ensures
        r is Ok <==> exists,
        r matches Err(e) ==> e == ExecError::NotFound,
{
    if exists {
        Ok(())
    } else {
        Err(ExecError::NotFound)
    }
}

/// The two vectors hold the same strings in the same order.
fn eq_string_vecs(a: &Vec<String>, b: &Vec<String>) -> (r: bool)
    ensures
        r == (a.deep_view() == b.deep_view()),
{
    if a.len() != b.len() {
        proof {
            assert(a.deep_view().len() != b.deep_view().len());
        }
        return false;
    }
    let mut i: usize = 0;
    while i < a.len()
        invariant
            a@.len() == b@.len(),
            i <= a@.len(),
            forall|j: int| 0 <= j < i ==> a.deep_view()[j] == b.deep_view()[j],
        decreases a@.len() - i,
    {
        if !(a[i] == b[i]) {
            proof {
                assert(a.deep_view()[i as int] != b.deep_view()[i as int]);
            }
            return false;
        }
        i = i + 1;
    }
    proof {
        assert(a.deep_view() =~= b.deep_view());
    }
    true
}

/// Run an INSERT INTO statement against a table's header line. The
/// statement's column list must equal the header's column list —
/// same names, same order — else the insert is rejected with
/// `SchemaMismatch`. On success: the text to append to the table, a
/// newline followed by the comma-joined values (written as given:
/// value arity is not checked against the column count).
pub fn insert_into(query: &SqlInsert, header: &str) -> (r: Result<String, ExecError>)
    ensures
        r is Ok <==> split(header@, ',') == query@.columns,
        r matches Ok(s) ==> s@ == seq!['\n'] + join(query@.values, ","@),
        r matches Err(e) ==> e == ExecError::SchemaMismatch,
{
    proof {
        reveal_strlit("\n");
    }
    let table_columns = split_str(header, ',');
    if eq_string_vecs(&table_columns, &query.columns) {
        let mut out: String = "\n".to_owned();
        let joined = join_comma(&query.values);
        out.append(joined.as_str());
        proof {
            assert("\n"@ =~= seq!['\n']);
        }
        Ok(out)
    } else {
        Err(ExecError::SchemaMismatch)
    }
}

/// One field as SELECT prints it: a leading space, the field, a
/// space and a vertical bar.
pub open spec fn field_cell(f: Seq<char>) -> Seq<char> {
    seq![' '] + f + seq![' ', '|']
}

/// A row as SELECT prints it: the cells of its fields, concatenated.
pub open spec fn render_row(fields: Seq<Seq<char>>) -> Seq<char>
    decreases fields.len(),
{
    if fields.len() == 0 {
        Seq::empty()
    } else {
        field_cell(fields[0]) + render_row(fields.drop_first())
    }
}

/// Rendering one more field appends its cell.
pub proof fn lemma_render_push(fields: Seq<Seq<char>>, x: Seq<char>)
    ensures
        render_row(fields.push(x)) == render_row(fields) + field_cell(x),
    decreases fields.len(),
{
    if fields.len() == 0 {
        assert(fields.push(x).drop_first() =~= Seq::<Seq<char>>::empty());
        assert(fields.push(x)[0] == x);
        assert(field_cell(x) + render_row(Seq::<Seq<char>>::empty()) =~= Seq::<char>::empty()
            + field_cell(x));
        assert(render_row(fields) + field_cell(x) =~= field_cell(x) + Seq::<char>::empty());
        assert(field_cell(x) + Seq::<char>::empty() =~= Seq::<char>::empty() + field_cell(x));
    } else {
        lemma_render_push(fields.drop_first(), x);
        assert(fields.push(x).drop_first() =~= fields.drop_first().push(x));
        assert(fields.push(x)[0] == fields[0]);
        assert(render_row(fields.push(x)) == field_cell(fields[0]) + (render_row(
            fields.drop_first(),
        ) + field_cell(x)));
        assert(field_cell(fields[0]) + (render_row(fields.drop_first()) + field_cell(x)) =~= (
        field_cell(fields[0]) + render_row(fields.drop_first())) + field_cell(x));
    }
}

/// Render the fields of one row, as `render_row` says.
fn render_fields(fields: &Vec<String>) -> (r: String)
    ensures
        r@ == render_row(fields.deep_view()),
{
    proof {
        reveal_strlit(" ");
        reveal_strlit(" |");
    }
    let mut out = String::new();
    let mut i: usize = 0;
    proof {
        assert(fields.deep_view().subrange(0, 0) =~= Seq::<Seq<char>>::empty());
        assert(out@ =~= render_row(fields.deep_view().subrange(0, 0)));
    }
    while i < fields.len()
        invariant
            i <= fields@.len(),
            out@ == render_row(fields.deep_view().subrange(0, i as int)),
        decreases fields@.len() - i,
    {
        out.append(" ");
        out.append(fields[i].as_str());
        out.append(" |");
        proof {
            reveal_strlit(" ");
            reveal_strlit(" |");
            let deep = fields.deep_view();
            assert(deep[i as int] == fields@[i as int]@);
            lemma_render_push(deep.subrange(0, i as int), deep[i as int]);
            assert(deep.subrange(0, i as int).push(deep[i as int]) =~= deep.subrange(0, i + 1));
            assert(" "@ =~= seq![' ']);
            assert(" |"@ =~= seq![' ', '|']);
            assert(out@ =~= render_row(deep.subrange(0, i as int)) + field_cell(deep[i as int]));
        }
        i = i + 1;
    }
    proof {
        assert(fields.deep_view().subrange(0, fields@.len() as int) =~= fields.deep_view());
    }
    out
}

/// The positions the requests pick from one header position `i`:
/// one copy of `i` for each request (from `j` on) equal to the
/// column name there, so duplicate requests yield duplicate copies.
pub open spec fn request_copies(req: Seq<Seq<char>>, col: Seq<char>, i: int, j: int) -> Seq<int>
    decreases req.len() - j,
{
    if j < 0 || j >= req.len() {
        Seq::empty()
    } else if req[j] == col {
        seq![i] + request_copies(req, col, i, j + 1)
    } else {
        request_copies(req, col, i, j + 1)
    }
}

/// The projected header positions from position `i` on: header
/// order first, request order within one position.
pub open spec fn projection_from(hdr: Seq<Seq<char>>, req: Seq<Seq<char>>, i: int) -> Seq<int>
    decreases hdr.len() - i,
{
    if i < 0 || i >= hdr.len() {
        Seq::empty()
    } else {
        request_copies(req, hdr[i], i, 0) + projection_from(hdr, req, i + 1)
    }
}

/// The header positions a projection emits, in header order; a
/// request matching no header entry contributes nothing.
pub open spec fn projection(hdr: Seq<Seq<char>>, req: Seq<Seq<char>>) -> Seq<int> {
    projection_from(hdr, req, 0)
}

/// The fields of one row at the given positions (from `j` on); a
/// position beyond the row's own field count contributes nothing.
pub open spec fn picked_fields(fields: Seq<Seq<char>>, idxs: Seq<int>, j: int) -> Seq<Seq<char>>
    decreases idxs.len() - j,
{
    if j < 0 || j >= idxs.len() {
        Seq::empty()
    } else if 0 <= idxs[j] < fields.len() {
        seq![fields[idxs[j]]] + picked_fields(fields, idxs, j + 1)
    } else {
        picked_fields(fields, idxs, j + 1)
    }
}

/// The positions as mathematical integers.
pub open spec fn ints_of(v: Seq<usize>) -> Seq<int> {
    v.map_values(|u: usize| u as int)
}

/// The columns a SELECT requests: its list when it has one, none
/// under a wildcard.
pub open spec fn requested_columns(q: SqlSelectV) -> Seq<Seq<char>> {
    match q.columns {
        Some(cs) => cs,
        None => Seq::empty(),
    }
}

/// One data row as SELECT prints it: under a wildcard every field in
/// stored order; under a projection the fields at the projected
/// header positions, in header order.
pub open spec fn row_output(hdr: Seq<Seq<char>>, q: SqlSelectV, row: Seq<char>) -> Seq<char> {
    let fields = split(row, ',');
    if q.all_columns is Some {
        render_row(fields)
    } else {
        render_row(picked_fields(fields, projection(hdr, requested_columns(q)), 0))
    }
}

/// The printed lines for the given data rows.
pub open spec fn rows_output(hdr: Seq<Seq<char>>, q: SqlSelectV, rows: Seq<Seq<char>>) -> Seq<
    Seq<char>,
> {
    rows.map_values(|row: Seq<char>| row_output(hdr, q, row))
}

/// Everything a SELECT against a table's text prints: one line per
/// data row, the header line itself never printed.
pub open spec fn select_output(content: Seq<char>, q: SqlSelectV) -> Seq<Seq<char>> {
    let lines = split(content, '\n');
    rows_output(split(lines[0], ','), q, lines.drop_first())
}

/// Compute the projected header positions, as `projection` says.
fn projection_exec(hdr: &Vec<String>, req: &Vec<String>) -> (r: Vec<usize>)
    ensures
        ints_of(r@) == projection(hdr.deep_view(), req.deep_view()),
{
    let ghost hdr_d = hdr.deep_view();
    let ghost req_d = req.deep_view();
    let mut out: Vec<usize> = Vec::new();
    let mut i: usize = 0;
    proof {
        assert(ints_of(out@) =~= Seq::<int>::empty());
        assert(ints_of(out@) + projection_from(hdr_d, req_d, 0) =~= projection(hdr_d, req_d));
    }
    while i < hdr.len()
        invariant
            hdr_d == hdr.deep_view(),
            req_d == req.deep_view(),
            i <= hdr@.len(),
            ints_of(out@) + projection_from(hdr_d, req_d, i as int) == projection(hdr_d, req_d),
        decreases hdr@.len() - i,
    {
        let mut j: usize = 0;
        proof {
            assert(projection_from(hdr_d, req_d, i as int) == request_copies(
                req_d,
                hdr_d[i as int],
                i as int,
                0,
            ) + projection_from(hdr_d, req_d, i + 1));
            assert(ints_of(out@) + (request_copies(req_d, hdr_d[i as int], i as int, 0)
                + projection_from(hdr_d, req_d, i + 1)) =~= (ints_of(out@) + request_copies(
                req_d,
                hdr_d[i as int],
                i as int,
                0,
            )) + projection_from(hdr_d, req_d, i + 1));
        }
        while j < req.len()
            invariant
                hdr_d == hdr.deep_view(),
                req_d == req.deep_view(),
                i < hdr@.len(),
                j <= req@.len(),
                (ints_of(out@) + request_copies(req_d, hdr_d[i as int], i as int, j as int))
                    + projection_from(hdr_d, req_d, i + 1) == projection(hdr_d, req_d),
            decreases req@.len() - j,
        {
            let ghost old_out = out@;
            let matches_here = hdr[i] == req[j];
            proof {
                assert(hdr_d[i as int] == hdr@[i as int]@);
                assert(req_d[j as int] == req@[j as int]@);
            }
            if matches_here {
                out.push(i);
                proof {
                    assert(ints_of(out@) =~= ints_of(old_out).push(i as int));
                    assert(request_copies(req_d, hdr_d[i as int], i as int, j as int) == seq![
                        i as int,
                    ] + request_copies(req_d, hdr_d[i as int], i as int, j + 1));
                    assert(ints_of(old_out) + (seq![i as int] + request_copies(
                        req_d,
                        hdr_d[i as int],
                        i as int,
                        j + 1,
                    )) =~= ints_of(old_out).push(i as int) + request_copies(
                        req_d,
                        hdr_d[i as int],
                        i as int,
                        j + 1,
                    ));
                }
            }
            j = j + 1;
        }
        i = i + 1;
    }
    proof {
        assert(ints_of(out@) + Seq::<int>::empty() =~= ints_of(out@));
    }
    out
}

/// Pick the fields of one row at the given positions, as
/// `picked_fields` says.
fn pick_fields(fields: &Vec<String>, idxs: &Vec<usize>) -> (r: Vec<String>)
    ensures
        r.deep_view() == picked_fields(fields.deep_view(), ints_of(idxs@), 0),
{
    let ghost fields_d = fields.deep_view();
    let ghost idx_i = ints_of(idxs@);
    let mut out: Vec<String> = Vec::new();
    let mut j: usize = 0;
    proof {
        assert(out.deep_view() =~= Seq::<Seq<char>>::empty());
        assert(out.deep_view() + picked_fields(fields_d, idx_i, 0) =~= picked_fields(
            fields_d,
            idx_i,
            0,
        ));
    }
    while j < idxs.len()
        invariant
            fields_d == fields.deep_view(),
            idx_i == ints_of(idxs@),
            j <= idxs@.len(),
            out.deep_view() + picked_fields(fields_d, idx_i, j as int) == picked_fields(
                fields_d,
                idx_i,
                0,
            ),
        decreases idxs@.len() - j,
    {
        proof {
            assert(idx_i[j as int] == idxs@[j as int] as int);
        }
        if idxs[j] < fields.len() {
            let ghost old_out = out;
            let f = fields[idxs[j]].clone();
            out.push(f);
            proof {
                crate::text::lemma_vec_deep_push(old_out, out, f);
                assert(f@ == fields_d[idx_i[j as int]]);
                assert(picked_fields(fields_d, idx_i, j as int) == seq![
                    fields_d[idx_i[j as int]],
                ] + picked_fields(fields_d, idx_i, j + 1));
                assert(old_out.deep_view() + (seq![fields_d[idx_i[j as int]]] + picked_fields(
                    fields_d,
                    idx_i,
                    j + 1,
                )) =~= out.deep_view() + picked_fields(fields_d, idx_i, j + 1));
            }
        }
        j = j + 1;
    }
    proof {
        assert(out.deep_view() + Seq::<Seq<char>>::empty() =~= out.deep_view());
    }
    out
}

/// Run a SELECT statement against a table's text: the lines it
/// prints, as `select_output` says. Under a wildcard, every field of
/// every data row in stored order; under a column list, the fields
/// at the matching header positions, in header order, one copy per
/// matching request; a request with no matching header entry
/// contributes nothing.
pub fn select_table(query: &SqlSelect, content: &str) -> (r: Vec<String>)
    ensures
        r.deep_view() == select_output(content@, query@),
{
    proof {
        lemma_split_len(content@, '\n');
    }
    let lines = split_str(content, '\n');
    let hdr = split_str(lines[0].as_str(), ',');
    let ghost lines_d = lines.deep_view();
    let ghost hdr_d = hdr.deep_view();
    let empty_req: Vec<String> = Vec::new();
    let wild = query.all_columns.is_some();
    let req: &Vec<String> = match query.columns {
        Some(ref cs) => cs,
        None => &empty_req,
    };
    proof {
        assert(empty_req.deep_view() =~= Seq::<Seq<char>>::empty());
        assert(req.deep_view() == requested_columns(query@));
    }
    let idxs = projection_exec(&hdr, req);
    let mut out: Vec<String> = Vec::new();
    let mut rix: usize = 1;
    proof {
        assert(lines_d.subrange(1, 1) =~= Seq::<Seq<char>>::empty());
        assert(out.deep_view() =~= rows_output(hdr_d, query@, lines_d.subrange(1, 1)));
    }
    while rix < lines.len()
        invariant
            lines_d == lines.deep_view(),
            hdr_d == hdr.deep_view(),
            lines_d == split(content@, '\n'),
            lines_d.len() >= 1,
            hdr_d == split(lines_d[0], ','),
            wild == (query@.all_columns is Some),
            ints_of(idxs@) == projection(hdr_d, requested_columns(query@)),
            1 <= rix <= lines@.len(),
            out.deep_view() == rows_output(hdr_d, query@, lines_d.subrange(1, rix as int)),
        decreases lines@.len() - rix,
    {
        let fields = split_str(lines[rix].as_str(), ',');
        proof {
            assert(fields.deep_view() == split(lines_d[rix as int], ','));
        }
        let rendered = if wild {
            render_fields(&fields)
        } else {
            let picked = pick_fields(&fields, &idxs);
            render_fields(&picked)
        };
        let ghost old_out = out;
        out.push(rendered);
        proof {
            crate::text::lemma_vec_deep_push(old_out, out, rendered);
            assert(rendered@ == row_output(hdr_d, query@, lines_d[rix as int]));
            assert(lines_d.subrange(1, rix as int).push(lines_d[rix as int]) =~= lines_d.subrange(
                1,
                rix + 1,
            ));
            assert(rows_output(hdr_d, query@, lines_d.subrange(1, rix as int)).push(
                row_output(hdr_d, query@, lines_d[rix as int]),
            ) =~= rows_output(hdr_d, query@, lines_d.subrange(1, rix + 1)));
        }
        rix = rix + 1;
    }
    proof {
        assert(lines_d.subrange(1, lines_d.len() as int) =~= lines_d.drop_first());
    }
    out
}

/// The header line of a table's text.
pub fn table_header(content: &str) -> (r: String)
    ensures
        r@ == header_of(content@),
{
    proof {
        lemma_split_len(content@, '\n');
    }
    let lines = split_str(content, '\n');
    let mut first = String::new();
    first.append(lines[0].as_str());
    proof {
        assert(Seq::<char>::empty() + lines.deep_view()[0] =~= lines.deep_view()[0]);
    }
    first
}

} // verus!
