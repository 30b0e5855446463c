//! The laws that hold across several operations: what a created
//! table's header splits back into, what a round trip of create,
//! insert and select prints, why a reordered column list is turned
//! away, in what order a projection emits fields, and that a SELECT
//! is idempotent. Each law is stated over the spec functions the
//! executable functions' own contracts use.

use vstd::prelude::*;

use crate::ast::{SqlCreateV, SqlQueryV, SqlSelectV};
use crate::executor::{
    header_of, projection, projection_from, render_row, request_copies, rows_output,
    select_output, valid_schema,
};
use crate::parser::{
    ident_end, lemma_ident_end_at, lemma_ws_end_at, list0, list_tail, match_at, spec_parse_create,
    spec_parse_query, ws_end,
};
use crate::text::{
    free_of, is_ident, is_ident_char, join, lemma_ident_free, lemma_join_free, lemma_split_concat,
    lemma_split_free, lemma_split_join, split,
};

verus! {

/// Every token of a list of valid identifiers is free of the
/// character `c` whenever `c` is no identifier character.
proof fn lemma_idents_free(items: Seq<Seq<char>>, c: char)
    requires
        forall|i: int| 0 <= i < items.len() ==> is_ident(#[trigger] items[i]),
        !is_ident_char(c),
    ensures
        forall|i: int| 0 <= i < items.len() ==> free_of(#[trigger] items[i], c),
{
    assert forall|i: int| 0 <= i < items.len() implies free_of(#[trigger] items[i], c) by {
        lemma_ident_free(items[i], c);
    }
}

/// A list of valid identifiers, written out with `", "` between each
/// pair and ended by anything that is neither an identifier
/// character nor a comma, parses back into exactly those
/// identifiers.
proof fn lemma_list_join(s: Seq<char>, i: int, items: Seq<Seq<char>>)
    requires
        0 <= i,
        items.len() >= 1,
        forall|c: int| 0 <= c < items.len() ==> is_ident(#[trigger] items[c]),
        i + join(items, ", "@).len() <= s.len(),
        s.subrange(i, i + join(items, ", "@).len()) == join(items, ", "@),
        i + join(items, ", "@).len() == s.len() || (!is_ident_char(
            s[i + join(items, ", "@).len()],
        ) && s[i + join(items, ", "@).len()] != ','),
    ensures
        list_tail(s, i) == (items, i + join(items, ", "@).len()),
        list0(s, i) == (items, i + join(items, ", "@).len()),
    decreases items.len(),
{
    reveal_strlit(", ");
    reveal_strlit(",");
    let sep = ", "@;
    let whole = join(items, sep);
    let end = i + whole.len();
    let t0 = items[0];
    assert(sep.len() == 2 && sep[0] == ',' && sep[1] == ' ');
    assert(","@.len() == 1 && ","@[0] == ',');
    assert forall|q: int| 0 <= q < whole.len() implies whole[q] == s[i + q] by {
        assert(s.subrange(i, i + whole.len() as int)[q] == s[i + q]);
    }
    if items.len() == 1 {
        assert(whole == t0);
        assert forall|k2: int| i <= k2 < end implies is_ident_char(s[k2]) by {
            assert(s[k2] == whole[k2 - i]);
            assert(whole[k2 - i] == t0[k2 - i]);
        }
        lemma_ident_end_at(s, i, end);
        assert(ident_end(s, i) == end);
        assert(s.subrange(i, end) =~= t0);
        if end + 1 <= s.len() {
            assert(s.subrange(end, end + 1)[0] == s[end]);
            assert(s[end] != ',');
            assert(s.subrange(end, end + 1) != ","@);
        }
        assert(!match_at(s, end, ","@));
        assert(list_tail(s, i) == (seq![t0], end));
        assert(seq![t0] =~= items);
    } else {
        let rest = items.drop_first();
        let rj = join(rest, sep);
        assert(whole == t0 + sep + rj);
        assert(rest[0] == items[1]);
        assert(rest[0].len() >= 1);
        let k = i + t0.len();
        assert(whole[t0.len() as int] == ',');
        assert(s[k] == ',');
        assert(!is_ident_char(','));
        assert forall|k2: int| i <= k2 < k implies is_ident_char(s[k2]) by {
            assert(s[k2] == whole[k2 - i]);
            assert(whole[k2 - i] == t0[k2 - i]);
        }
        lemma_ident_end_at(s, i, k);
        assert(s.subrange(i, k) =~= t0);
        assert(s.subrange(k, k + 1) =~= ","@);
        assert(match_at(s, k, ","@));
        assert(whole[t0.len() as int + 1] == ' ');
        assert(s[k + 1] == ' ');
        assert(whole[t0.len() as int + 2] == rj[0]);
        assert(rj[0] == rest[0][0]);
        assert(s[k + 2] == rest[0][0]);
        assert(is_ident_char(s[k + 2]) && !crate::text::is_ws_char(s[k + 2]));
        lemma_ws_end_at(s, k + 1, k + 2);
        assert(ws_end(s, k + 1) == k + 2);
        assert forall|q: int| 0 <= q < rj.len() implies s.subrange(k + 2, k + 2 + rj.len() as int)[q]
            == rj[q] by {
            assert(s.subrange(k + 2, k + 2 + rj.len() as int)[q] == s[k + 2 + q]);
            assert(s[k + 2 + q] == whole[t0.len() as int + 2 + q]);
            assert(whole[t0.len() as int + 2 + q] == rj[q]);
        }
        assert(s.subrange(k + 2, k + 2 + rj.len() as int) =~= rj);
        assert(k + 2 + rj.len() == end);
        lemma_list_join(s, k + 2, rest);
        assert(list_tail(s, k + 2) == (rest, end));
        assert(list_tail(s, i) == (seq![t0] + rest, end));
        assert(seq![t0] + rest =~= items);
    }
    assert(t0.len() >= 1);
    assert(ident_end(s, i) > i);
    assert(list0(s, i) == list_tail(s, i));
}

/// The full text of a CREATE TABLE statement over a table name and a
/// column list, written as the grammar reads it.
pub open spec fn create_statement(t: Seq<char>, cols: Seq<Seq<char>>) -> Seq<char> {
    "CREATE TABLE "@ + t + " ("@ + join(cols, ", "@) + ");"@
}

/// Parsing `CREATE TABLE t (c1, c2, ..., cn);` for valid identifiers
/// `t` and `c1..cn` (n at least one) consumes the whole statement and
/// yields a CreateTable with table name `t` and exactly those columns
/// in order.
#[verifier::rlimit(60)]
pub proof fn lemma_parse_create_statement(t: Seq<char>, cols: Seq<Seq<char>>)
    requires
        is_ident(t),
        cols.len() >= 1,
        forall|i: int| 0 <= i < cols.len() ==> is_ident(#[trigger] cols[i]),
    ensures
        spec_parse_query(create_statement(t, cols)) == Ok::<_, (int, crate::ast::Expectation)>(
            (
                create_statement(t, cols).len() as int,
                SqlQueryV::CreateTable(SqlCreateV { table_name: t, columns: cols }),
            ),
        ),
{
    reveal_strlit("CREATE TABLE ");
    reveal_strlit("CREATE TABLE");
    reveal_strlit(" (");
    reveal_strlit(");");
    reveal_strlit("(");
    reveal_strlit(")");
    reveal_strlit(";");
    let s = create_statement(t, cols);
    let jl = join(cols, ", "@).len();
    let tl = t.len() as int;
    assert(s.len() == 13 + tl + 2 + jl + 2);
    assert(forall|q: int| 0 <= q < 13 ==> s[q] == "CREATE TABLE "@[q]);
    assert(forall|q: int| 0 <= q < tl ==> s[13 + q] == t[q]);
    assert(s[13 + tl] == ' ' && s[14 + tl] == '(');
    assert(forall|q: int| 0 <= q < jl ==> s[15 + tl + q] == join(cols, ", "@)[q]);
    assert(s[15 + tl + jl] == ')' && s[16 + tl + jl] == ';');
    assert(s.subrange(0, 12) =~= "CREATE TABLE"@);
    assert(match_at(s, 0, "CREATE TABLE"@));
    lemma_ws_end_at(s, 12, 13);
    assert(ws_end(s, 12) == 13);
    lemma_ident_end_at(s, 13, 13 + tl);
    assert(ident_end(s, 13) == 13 + tl);
    assert(13 + tl > 13);
    assert(s.subrange(13, 13 + tl) =~= t);
    lemma_ws_end_at(s, 13 + tl, 14 + tl);
    assert(s.subrange(14 + tl, 15 + tl) =~= "("@);
    assert(match_at(s, 14 + tl, "("@));
    assert(s.subrange(15 + tl, 15 + tl + jl) =~= join(cols, ", "@));
    lemma_list_join(s, 15 + tl, cols);
    assert(list0(s, 15 + tl) == (cols, 15 + tl + jl));
    assert(s.subrange(15 + tl + jl, 16 + tl + jl) =~= ")"@);
    assert(match_at(s, 15 + tl + jl, ")"@));
    assert(s.subrange(16 + tl + jl, 17 + tl + jl) =~= ";"@);
    assert(match_at(s, 16 + tl + jl, ";"@));
    assert(spec_parse_create(s) == Ok::<_, (int, crate::ast::Expectation)>(
        (s.len() as int, SqlCreateV { table_name: t, columns: cols }),
    ));
}

/// Parsing `CREATE TABLE t ();` yields a CreateTable with zero
/// columns at the grammar level — and zero columns is no valid
/// schema, so running that statement is rejected with
/// `InvalidSchema` and touches nothing.
pub proof fn lemma_parse_create_no_columns(t: Seq<char>)
    requires
        is_ident(t),
    ensures
        spec_parse_query("CREATE TABLE "@ + t + " ();"@) == Ok::<_, (int, crate::ast::Expectation)>(
            (
                ("CREATE TABLE "@ + t + " ();"@).len() as int,
                SqlQueryV::CreateTable(
                    SqlCreateV { table_name: t, columns: Seq::empty() },
                ),
            ),
        ),
        !valid_schema(Seq::<Seq<char>>::empty()),
{
    reveal_strlit("CREATE TABLE ");
    reveal_strlit("CREATE TABLE");
    reveal_strlit(" ();");
    reveal_strlit("(");
    reveal_strlit(")");
    reveal_strlit(";");
    reveal_strlit(",");
    let s = "CREATE TABLE "@ + t + " ();"@;
    let tl = t.len() as int;
    assert(s.len() == 13 + tl + 4);
    assert(forall|q: int| 0 <= q < 13 ==> s[q] == "CREATE TABLE "@[q]);
    assert(forall|q: int| 0 <= q < tl ==> s[13 + q] == t[q]);
    assert(s[13 + tl] == ' ' && s[14 + tl] == '(' && s[15 + tl] == ')' && s[16 + tl] == ';');
    assert(s.subrange(0, 12) =~= "CREATE TABLE"@);
    assert(match_at(s, 0, "CREATE TABLE"@));
    lemma_ws_end_at(s, 12, 13);
    lemma_ident_end_at(s, 13, 13 + tl);
    assert(13 + tl > 13);
    assert(s.subrange(13, 13 + tl) =~= t);
    lemma_ws_end_at(s, 13 + tl, 14 + tl);
    assert(s.subrange(14 + tl, 15 + tl) =~= "("@);
    assert(match_at(s, 14 + tl, "("@));
    lemma_ident_end_at(s, 15 + tl, 15 + tl);
    assert(ident_end(s, 15 + tl) == 15 + tl);
    assert(s.subrange(15 + tl, 16 + tl)[0] == ')');
    assert(s.subrange(15 + tl, 16 + tl) != ","@);
    assert(!match_at(s, 15 + tl, ","@));
    assert(list0(s, 15 + tl) == (Seq::<Seq<char>>::empty(), 15 + tl));
    assert(s.subrange(15 + tl, 16 + tl) =~= ")"@);
    assert(match_at(s, 15 + tl, ")"@));
    assert(s.subrange(16 + tl, 17 + tl) =~= ";"@);
    assert(match_at(s, 16 + tl, ";"@));
    assert(spec_parse_create(s) == Ok::<_, (int, crate::ast::Expectation)>(
        (s.len() as int, SqlCreateV { table_name: t, columns: Seq::empty() }),
    ));
}

/// A header written as the comma-join of valid identifiers splits
/// back into exactly those identifiers: the schema a CREATE TABLE
/// stores is the schema an INSERT reads.
pub proof fn lemma_header_round_trip(cols: Seq<Seq<char>>)
    requires
        cols.len() >= 1,
        forall|i: int| 0 <= i < cols.len() ==> is_ident(#[trigger] cols[i]),
    ensures
        header_of(join(cols, ","@)) == join(cols, ","@),
        split(join(cols, ","@), ',') == cols,
{
    reveal_strlit(",");
    assert(","@ =~= seq![',']);
    lemma_idents_free(cols, '\n');
    lemma_idents_free(cols, ',');
    lemma_join_free(cols, ","@, '\n');
    lemma_split_free(join(cols, ","@), '\n');
    lemma_split_join(cols, ',');
    assert(join(cols, seq![',']) == join(cols, ","@));
}

/// The round trip: creating a table with valid identifier columns
/// succeeds; inserting with the same column list into the fresh
/// table succeeds; and a wildcard SELECT then prints exactly one
/// line, the rendering of the inserted values.
pub proof fn lemma_create_insert_select_round_trip(
    m: Map<Seq<char>, Seq<char>>,
    t: Seq<char>,
    cols: Seq<Seq<char>>,
    vals: Seq<Seq<char>>,
    q: SqlSelectV,
)
    requires
        cols.len() >= 1,
        forall|i: int| 0 <= i < cols.len() ==> is_ident(#[trigger] cols[i]),
        vals.len() >= 1,
        forall|i: int| 0 <= i < vals.len() ==> is_ident(#[trigger] vals[i]),
        q.table_name == t,
        q.all_columns is Some,
    ensures
        valid_schema(cols),
        split(header_of(m.insert(t, join(cols, ","@))[t]), ',') == cols,
        select_output(
            m.insert(t, join(cols, ","@)).insert(
                t,
                join(cols, ","@) + seq!['\n'] + join(vals, ","@),
            )[t],
            q,
        ) == seq![render_row(vals)],
{
    reveal_strlit(",");
    assert(","@ =~= seq![',']);
    let header = join(cols, ","@);
    let row = join(vals, ","@);
    let content = header + seq!['\n'] + row;
    lemma_header_round_trip(cols);
    lemma_header_round_trip(vals);
    lemma_idents_free(cols, '\n');
    lemma_idents_free(vals, '\n');
    lemma_join_free(cols, ","@, '\n');
    lemma_join_free(vals, ","@, '\n');
    lemma_split_concat(header, row, '\n');
    lemma_split_free(row, '\n');
    let lines = split(content, '\n');
    assert(lines =~= seq![header, row]);
    assert(lines.drop_first() =~= seq![row]);
    assert(lines[0] == header);
    let printed = rows_output(split(header, ','), q, seq![row]);
    assert(printed.len() == 1);
    assert(printed[0] == render_row(split(row, ',')));
    assert(printed =~= seq![render_row(vals)]);
}

/// The schema-mismatch rule: whatever the store held before, a
/// table just created with valid identifier columns turns away any
/// insert whose column list is not that very list.
pub proof fn lemma_insert_schema_mismatch(
    m: Map<Seq<char>, Seq<char>>,
    t: Seq<char>,
    cols: Seq<Seq<char>>,
    other: Seq<Seq<char>>,
)
    requires
        cols.len() >= 1,
        forall|i: int| 0 <= i < cols.len() ==> is_ident(#[trigger] cols[i]),
        other != cols,
    ensures
        split(header_of(m.insert(t, join(cols, ","@))[t]), ',') != other,
{
    lemma_header_round_trip(cols);
}

/// What one header position contributes: copies of that position
/// alone, and at least one exactly when some request (from `j` on)
/// names its column.
proof fn lemma_request_copies_props(req: Seq<Seq<char>>, col: Seq<char>, i: int, j: int)
    requires
        0 <= j,
    ensures
        forall|a: int|
            0 <= a < request_copies(req, col, i, j).len() ==> #[trigger] request_copies(
                req,
                col,
                i,
                j,
            )[a] == i,
        request_copies(req, col, i, j).len() > 0 <==> exists|b: int|
            j <= b < req.len() && req[b] == col,
    decreases req.len() - j,
{
    if j >= req.len() {
    } else {
        lemma_request_copies_props(req, col, i, j + 1);
        if req[j] == col {
            assert(request_copies(req, col, i, j).len() > 0);
            assert(j <= j < req.len() && req[j] == col);
        } else {
            if request_copies(req, col, i, j).len() > 0 {
                let b = choose|b: int| j + 1 <= b < req.len() && req[b] == col;
                assert(j <= b < req.len() && req[b] == col);
            }
            if exists|b: int| j <= b < req.len() && req[b] == col {
                let b = choose|b: int| j <= b < req.len() && req[b] == col;
                assert(j + 1 <= b < req.len() && req[b] == col);
            }
        }
    }
}

/// The projected positions from `i` on: all in `[i, hdr.len())`,
/// non-decreasing, and a position is among them exactly when its
/// column name is requested.
proof fn lemma_projection_from_props(hdr: Seq<Seq<char>>, req: Seq<Seq<char>>, i: int)
    requires
        i >= 0,
    ensures
        forall|a: int|
            0 <= a < projection_from(hdr, req, i).len() ==> i <= #[trigger] projection_from(
                hdr,
                req,
                i,
            )[a] < hdr.len(),
        forall|a: int, b: int|
            0 <= a < b < projection_from(hdr, req, i).len() ==> #[trigger] projection_from(
                hdr,
                req,
                i,
            )[a] <= #[trigger] projection_from(hdr, req, i)[b],
        forall|x: int|
            i <= x < hdr.len() ==> (projection_from(hdr, req, i).contains(x) <==> req.contains(
                #[trigger] hdr[x],
            )),
    decreases hdr.len() - i,
{
    if i >= hdr.len() {
    } else {
        lemma_projection_from_props(hdr, req, i + 1);
        lemma_request_copies_props(req, hdr[i], i, 0);
        let c = request_copies(req, hdr[i], i, 0);
        let rest = projection_from(hdr, req, i + 1);
        let whole = projection_from(hdr, req, i);
        assert(whole == c + rest);
        assert forall|x: int| i <= x < hdr.len() implies (whole.contains(x) <==> req.contains(
            #[trigger] hdr[x],
        )) by {
            if x == i {
                if req.contains(hdr[x]) {
                    let b = choose|b: int| 0 <= b < req.len() && req[b] == hdr[x];
                    assert(c.len() > 0);
                    assert(whole[0] == c[0]);
                    assert(whole[0] == i);
                }
                if whole.contains(x) {
                    let idx = choose|idx: int| 0 <= idx < whole.len() && whole[idx] == x;
                    if idx >= c.len() {
                        assert(whole[idx] == rest[idx - c.len()]);
                        assert(false);
                    }
                    assert(c.len() > 0);
                    let b = choose|b: int| 0 <= b < req.len() && req[b] == hdr[i];
                    assert(req.contains(hdr[x]));
                }
            } else {
                if req.contains(hdr[x]) {
                    assert(rest.contains(x));
                    let idx = choose|idx: int| 0 <= idx < rest.len() && rest[idx] == x;
                    assert(whole[c.len() + idx] == rest[idx]);
                }
                if whole.contains(x) {
                    let idx = choose|idx: int| 0 <= idx < whole.len() && whole[idx] == x;
                    if idx < c.len() {
                        assert(whole[idx] == i);
                        assert(false);
                    }
                    assert(rest[idx - c.len()] == x);
                    assert(rest.contains(x));
                }
            }
        }
        assert forall|a: int, b: int| 0 <= a < b < whole.len() implies #[trigger] whole[a]
            <= #[trigger] whole[b] by {
            if a < c.len() {
                assert(whole[a] == c[a]);
            } else {
                assert(whole[a] == rest[a - c.len()]);
            }
            if b < c.len() {
                assert(whole[b] == c[b]);
            } else {
                assert(whole[b] == rest[b - c.len()]);
            }
        }
    }
}

/// Projection follows header order, not request order: the emitted
/// header positions never decrease, each lies within the header, and
/// a position is emitted exactly when its column name is among the
/// requests — so a request matching no header entry contributes
/// nothing.
pub proof fn lemma_projection_header_order(hdr: Seq<Seq<char>>, req: Seq<Seq<char>>)
    ensures
        forall|a: int, b: int|
            0 <= a < b < projection(hdr, req).len() ==> #[trigger] projection(hdr, req)[a]
                <= #[trigger] projection(hdr, req)[b],
        forall|a: int|
            0 <= a < projection(hdr, req).len() ==> 0 <= #[trigger] projection(hdr, req)[a]
                < hdr.len(),
        forall|x: int|
            0 <= x < hdr.len() ==> (projection(hdr, req).contains(x) <==> req.contains(
                #[trigger] hdr[x],
            )),
{
    lemma_projection_from_props(hdr, req, 0);
}

/// A SELECT is idempotent: two results of the same statement against
/// the same table text are the same lines, since each is pinned to
/// `select_output` of that text and statement.
pub proof fn lemma_select_idempotent(
    r1: Vec<String>,
    r2: Vec<String>,
    content: Seq<char>,
    q: SqlSelectV,
)
    requires
        r1.deep_view() == select_output(content, q),
        r2.deep_view() == select_output(content, q),
    ensures
        r1.deep_view() == r2.deep_view(),
{
}

} // verus!
