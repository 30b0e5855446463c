//! The grammar of the statement language, as specification functions
//! over sequences of characters, and the executable parser proved
//! against it.
//!
//! A statement is one line of text ended by `;`. Keywords are
//! case-sensitive; identifiers are runs of alphanumeric characters;
//! whitespace (space or tab) is required after a keyword, optional
//! around list commas, and never a substitute for a comma. Each
//! parser returns the remaining input after its terminator, or a
//! syntax error carrying the unconsumed remainder and the
//! expectation that failed.

use vstd::prelude::*;
use vstd::string::*;

use crate::ast::{
    Expectation, ParseError, SqlCreate, SqlCreateV, SqlDrop, SqlDropV, SqlInsert, SqlInsertV,
    SqlQuery, SqlQueryV, SqlSelect, SqlSelectV,
};
use crate::text::{all_ident_chars, ident_chars_only, is_ident_char, is_ws_char, take_string};

verus! {

/// The end of the run of whitespace that starts at `i`: the first
/// position at or after `i` holding a non-whitespace character.
pub open spec fn ws_end(s: Seq<char>, i: int) -> int
    decreases s.len() - i,
{
    if 0 <= i < s.len() && is_ws_char(s[i]) {
        ws_end(s, i + 1)
    } else {
        i
    }
}

/// The end of the run of identifier characters that starts at `i`.
pub open spec fn ident_end(s: Seq<char>, i: int) -> int
    decreases s.len() - i,
{
    if 0 <= i < s.len() && is_ident_char(s[i]) {
        ident_end(s, i + 1)
    } else {
        i
    }
}

/// The text `t` stands in `s` at position `i`.
pub open spec fn match_at(s: Seq<char>, i: int, t: Seq<char>) -> bool {
    0 <= i && i + t.len() <= s.len() && s.subrange(i, i + t.len()) == t
}

/// Where the run of whitespace ends: within bounds, all whitespace
/// up to it, none at it.
pub proof fn lemma_ws_end(s: Seq<char>, i: int)
    requires
        0 <= i <= s.len(),
    ensures
        i <= ws_end(s, i) <= s.len(),
        forall|j: int| i <= j < ws_end(s, i) ==> is_ws_char(s[j]),
        ws_end(s, i) < s.len() ==> !is_ws_char(s[ws_end(s, i)]),
    decreases s.len() - i,
{
    if i < s.len() && is_ws_char(s[i]) {
        lemma_ws_end(s, i + 1);
    }
}

/// Where the run of identifier characters ends: within bounds, all
/// identifier characters up to it, none at it.
pub proof fn lemma_ident_end(s: Seq<char>, i: int)
    requires
        0 <= i <= s.len(),
    ensures
        i <= ident_end(s, i) <= s.len(),
        forall|j: int| i <= j < ident_end(s, i) ==> is_ident_char(s[j]),
        ident_end(s, i) < s.len() ==> !is_ident_char(s[ident_end(s, i)]),
    decreases s.len() - i,
{
    if i < s.len() && is_ident_char(s[i]) {
        lemma_ident_end(s, i + 1);
    }
}

/// When the characters from `i` up to `j` are whitespace and the one
/// at `j` (if any) is not, the whitespace run ends exactly at `j`.
pub proof fn lemma_ws_end_at(s: Seq<char>, i: int, j: int)
    requires
        0 <= i <= j <= s.len(),
        forall|k: int| i <= k < j ==> is_ws_char(s[k]),
        j == s.len() || !is_ws_char(s[j]),
    ensures
        ws_end(s, i) == j,
    decreases j - i,
{
    if i < j {
        lemma_ws_end_at(s, i + 1, j);
    }
}

/// When the characters from `i` up to `j` are identifier characters
/// and the one at `j` (if any) is not, the identifier run ends
/// exactly at `j`.
pub proof fn lemma_ident_end_at(s: Seq<char>, i: int, j: int)
    requires
        0 <= i <= j <= s.len(),
        forall|k: int| i <= k < j ==> is_ident_char(s[k]),
        j == s.len() || !is_ident_char(s[j]),
    ensures
        ident_end(s, i) == j,
    decreases j - i,
{
    if i < j {
        lemma_ident_end_at(s, i + 1, j);
    }
}

/// A non-empty comma-separated token list starting at `i`: the
/// tokens in order and the position after the last one. After each
/// comma, whitespace is discarded and the next token is taken even
/// if it is empty, so a dangling comma contributes an empty token.
pub open spec fn list_tail(s: Seq<char>, i: int) -> (Seq<Seq<char>>, int)
    decreases s.len() - i,
    via list_tail_dec
{
    let k = ident_end(s, i);
    let tok = s.subrange(i, k);
    if match_at(s, k, ","@) {
        let j = ws_end(s, k + 1);
        let (rest, p) = list_tail(s, j);
        (seq![tok] + rest, p)
    } else {
        (seq![tok], k)
    }
}

#[via_fn]
proof fn list_tail_dec(s: Seq<char>, i: int) {
    reveal_strlit(",");
    if 0 <= i <= s.len() {
        lemma_ident_end(s, i);
        let k = ident_end(s, i);
        if match_at(s, k, ","@) {
            lemma_ws_end(s, k + 1);
        }
    }
}

/// A possibly empty token list starting at `i`: empty when neither a
/// token character nor a comma stands there (so `()` holds zero
/// tokens), else as `list_tail`.
pub open spec fn list0(s: Seq<char>, i: int) -> (Seq<Seq<char>>, int) {
    if ident_end(s, i) == i && !match_at(s, i, ","@) {
        (Seq::empty(), i)
    } else {
        list_tail(s, i)
    }
}

/// The token list yielded by `list_tail` stands where the list
/// stands: tokens are runs of identifier characters, and the end
/// position stays within bounds.
pub proof fn lemma_list_tail(s: Seq<char>, i: int)
    requires
        0 <= i <= s.len(),
    ensures
        i <= list_tail(s, i).1 <= s.len(),
        all_ident_chars(list_tail(s, i).0),
    decreases s.len() - i,
{
    reveal_strlit(",");
    lemma_ident_end(s, i);
    let k = ident_end(s, i);
    let tok = s.subrange(i, k);
    if match_at(s, k, ","@) {
        lemma_ws_end(s, k + 1);
        let j = ws_end(s, k + 1);
        lemma_list_tail(s, j);
        let (rest, p) = list_tail(s, j);
        assert forall|t: int| 0 <= t < list_tail(s, i).0.len() implies ident_chars_only(
            #[trigger] list_tail(s, i).0[t],
        ) by {
            if t == 0 {
                assert(list_tail(s, i).0[0] == tok);
            } else {
                assert(list_tail(s, i).0[t] == rest[t - 1]);
            }
        }
    }
}

/// The grammar of CREATE TABLE:
/// `"CREATE TABLE" ws+ ident ws* "(" column_list ")" ";"`.
/// On success: the position after the `;` and the statement value.
/// On failure: the position of the first mismatch and the failed
/// expectation.
pub open spec fn spec_parse_create(s: Seq<char>) -> Result<(int, SqlCreateV), (int, Expectation)> {
    if !match_at(s, 0, "CREATE TABLE"@) {
        Err((0, Expectation::Keyword))
    } else {
        let i = "CREATE TABLE"@.len() as int;
        let j = ws_end(s, i);
        if j == i {
            Err((i, Expectation::CharClass))
        } else {
            let k = ident_end(s, j);
            if k == j {
                Err((j, Expectation::CharClass))
            } else {
                let m = ws_end(s, k);
                if !match_at(s, m, "("@) {
                    Err((m, Expectation::Delimiter))
                } else {
                    let (cols, p) = list0(s, m + 1);
                    if !match_at(s, p, ")"@) {
                        Err((p, Expectation::Delimiter))
                    } else if !match_at(s, p + 1, ";"@) {
                        Err((p + 1, Expectation::Delimiter))
                    } else {
                        Ok((p + 2, SqlCreateV { table_name: s.subrange(j, k), columns: cols }))
                    }
                }
            }
        }
    }
}

/// The grammar of DROP TABLE: `"DROP TABLE" ws+ ident ";"`.
pub open spec fn spec_parse_drop(s: Seq<char>) -> Result<(int, SqlDropV), (int, Expectation)> {
    if !match_at(s, 0, "DROP TABLE"@) {
        Err((0, Expectation::Keyword))
    } else {
        let i = "DROP TABLE"@.len() as int;
        let j = ws_end(s, i);
        if j == i {
            Err((i, Expectation::CharClass))
        } else {
            let k = ident_end(s, j);
            if k == j {
                Err((j, Expectation::CharClass))
            } else if !match_at(s, k, ";"@) {
                Err((k, Expectation::Delimiter))
            } else {
                Ok((k + 1, SqlDropV { table_name: s.subrange(j, k) }))
            }
        }
    }
}

/// The grammar of INSERT INTO:
/// `"INSERT INTO" ws+ ident ws* "(" column_list ")" ws* "VALUES" ws*
/// "(" value_list ")" ";"`.
pub open spec fn spec_parse_insert(s: Seq<char>) -> Result<(int, SqlInsertV), (int, Expectation)> {
    if !match_at(s, 0, "INSERT INTO"@) {
        Err((0, Expectation::Keyword))
    } else {
        let i = "INSERT INTO"@.len() as int;
        let j = ws_end(s, i);
        if j == i {
            Err((i, Expectation::CharClass))
        } else {
            let k = ident_end(s, j);
            if k == j {
                Err((j, Expectation::CharClass))
            } else {
                let m = ws_end(s, k);
                if !match_at(s, m, "("@) {
                    Err((m, Expectation::Delimiter))
                } else {
                    let (cols, p) = list0(s, m + 1);
                    if !match_at(s, p, ")"@) {
                        Err((p, Expectation::Delimiter))
                    } else {
                        let m2 = ws_end(s, p + 1);
                        if !match_at(s, m2, "VALUES"@) {
                            Err((m2, Expectation::Keyword))
                        } else {
                            let m3 = ws_end(s, m2 + "VALUES"@.len());
                            if !match_at(s, m3, "("@) {
                                Err((m3, Expectation::Delimiter))
                            } else {
                                let (vals, p2) = list0(s, m3 + 1);
                                if !match_at(s, p2, ")"@) {
                                    Err((p2, Expectation::Delimiter))
                                } else if !match_at(s, p2 + 1, ";"@) {
                                    Err((p2 + 1, Expectation::Delimiter))
                                } else {
                                    Ok(
                                        (
                                            p2 + 2,
                                            SqlInsertV {
                                                table_name: s.subrange(j, k),
                                                columns: cols,
                                                values: vals,
                                            },
                                        ),
                                    )
                                }
                            }
                        }
                    }
                }
            }
        }
    }
}

/// The tail every SELECT form shares: `ws* "FROM" ws+ ident ";"`
/// starting at `i`. On success: the position after the `;` and the
/// table name.
pub open spec fn spec_select_from(s: Seq<char>, i: int) -> Result<
    (int, Seq<char>),
    (int, Expectation),
> {
    let m = ws_end(s, i);
    if !match_at(s, m, "FROM"@) {
        Err((m, Expectation::Keyword))
    } else {
        let j = ws_end(s, m + "FROM"@.len());
        if j == m + "FROM"@.len() {
            Err((j, Expectation::CharClass))
        } else {
            let k = ident_end(s, j);
            if k == j {
                Err((j, Expectation::CharClass))
            } else if !match_at(s, k, ";"@) {
                Err((k, Expectation::Delimiter))
            } else {
                Ok((k + 1, s.subrange(j, k)))
            }
        }
    }
}

/// The grammar of SELECT:
/// `"SELECT" ws+ ( "*" | "(" column_list ")" | column_list ) ws*
/// "FROM" ws+ ident ";"`.
/// A wildcard populates `all_columns` alone; either list form
/// populates `columns` alone.
pub open spec fn spec_parse_select(s: Seq<char>) -> Result<(int, SqlSelectV), (int, Expectation)> {
    if !match_at(s, 0, "SELECT"@) {
        Err((0, Expectation::Keyword))
    } else {
        let i = "SELECT"@.len() as int;
        let j = ws_end(s, i);
        if j == i {
            Err((i, Expectation::CharClass))
        } else if match_at(s, j, "*"@) {
            match spec_select_from(s, j + 1) {
                Ok((q, name)) => Ok(
                    (
                        q,
                        SqlSelectV { columns: None, table_name: name, all_columns: Some("*"@) },
                    ),
                ),
                Err(e) => Err(e),
            }
        } else if match_at(s, j, "("@) {
            let (cols, p) = list0(s, j + 1);
            if !match_at(s, p, ")"@) {
                Err((p, Expectation::Delimiter))
            } else {
                match spec_select_from(s, p + 1) {
                    Ok((q, name)) => Ok(
                        (
                            q,
                            SqlSelectV { columns: Some(cols), table_name: name, all_columns: None },
                        ),
                    ),
                    Err(e) => Err(e),
                }
            }
        } else {
            let (cols, p) = list0(s, j);
            match spec_select_from(s, p) {
                Ok((q, name)) => Ok(
                    (
                        q,
                        SqlSelectV { columns: Some(cols), table_name: name, all_columns: None },
                    ),
                ),
                Err(e) => Err(e),
            }
        }
    }
}

/// Runtime scan matching `ws_end`.
fn scan_ws(s: &str, n: usize, i: usize) -> (r: usize)
    requires
        n == s@.len(),
        i <= n,
    ensures
        r as int == ws_end(s@, i as int),
        i <= r <= n,
{
    let mut cur: usize = i;
    while cur < n && crate::text::ws_char(s.get_char(cur))
        invariant
            n == s@.len(),
            i <= cur <= n,
            ws_end(s@, i as int) == ws_end(s@, cur as int),
        decreases n - cur,
    {
        cur = cur + 1;
    }
    cur
}

/// Runtime scan matching `ident_end`.
fn scan_ident(s: &str, n: usize, i: usize) -> (r: usize)
    requires
        n == s@.len(),
        i <= n,
    ensures
        r as int == ident_end(s@, i as int),
        i <= r <= n,
{
    let mut cur: usize = i;
    while cur < n && crate::text::ident_char(s.get_char(cur))
        invariant
            n == s@.len(),
            i <= cur <= n,
            ident_end(s@, i as int) == ident_end(s@, cur as int),
        decreases n - cur,
    {
        cur = cur + 1;
    }
    cur
}

/// Runtime check matching `match_at`.
fn match_at_exec(s: &str, n: usize, i: usize, t: &str, tn: usize) -> (r: bool)
    requires
        n == s@.len(),
        tn == t@.len(),
        i <= n,
    ensures
        r == match_at(s@, i as int, t@),
{
    if tn > n - i {
        return false;
    }
    let mut j: usize = 0;
    while j < tn
        invariant
            n == s@.len(),
            tn == t@.len(),
            i <= n,
            tn <= n - i,
            j <= tn,
            forall|q: int| 0 <= q < j ==> s@[i + q] == t@[q],
        decreases tn - j,
    {
        if s.get_char(i + j) != t.get_char(j) {
            proof {
                assert(s@.subrange(i as int, i + tn as int)[j as int] == s@[i + j]);
            }
            return false;
        }
        j = j + 1;
    }
    proof {
        assert(s@.subrange(i as int, i + tn as int) =~= t@);
    }
    true
}

/// A syntax error whose remainder is the input from `pos` on.
fn syntax_error(s: &str, n: usize, pos: usize, expected: Expectation) -> (r: ParseError)
    requires
        n == s@.len(),
        pos <= n,
    ensures
        r@.remaining == s@.subrange(pos as int, s@.len() as int),
        r@.expected == expected,
{
    ParseError { remaining: take_string(s, pos, n), expected }
}

/// Runtime parse matching `list_tail`.
fn parse_list_tail(s: &str, n: usize, i: usize) -> (r: (Vec<String>, usize))
    requires
        n == s@.len(),
        i <= n,
    ensures
        r.0.deep_view() == list_tail(s@, i as int).0,
        r.1 as int == list_tail(s@, i as int).1,
        r.1 <= n,
    decreases n - i,
{
    proof {
        reveal_strlit(",");
        lemma_list_tail(s@, i as int);
    }
    let k = scan_ident(s, n, i);
    let tok = take_string(s, i, k);
    if match_at_exec(s, n, k, ",", 1) {
        let j = scan_ws(s, n, k + 1);
        let (mut rest, p) = parse_list_tail(s, n, j);
        let ghost prev = rest.deep_view();
        let ghost oldv = rest@;
        rest.insert(0, tok);
        proof {
            assert forall|q: int| 0 <= q < rest.deep_view().len() implies rest.deep_view()[q] == (
            seq![s@.subrange(i as int, k as int)] + prev)[q] by {
                if q > 0 {
                    assert(rest@[q] == oldv[q - 1]);
                }
            }
            assert(rest.deep_view() =~= seq![s@.subrange(i as int, k as int)] + prev);
        }
        (rest, p)
    } else {
        let mut v: Vec<String> = Vec::new();
        v.push(tok);
        proof {
            assert(v.deep_view() =~= seq![s@.subrange(i as int, k as int)]);
        }
        (v, k)
    }
}

/// Runtime parse matching `list0`.
fn parse_list(s: &str, n: usize, i: usize) -> (r: (Vec<String>, usize))
    requires
        n == s@.len(),
        i <= n,
    ensures
        r.0.deep_view() == list0(s@, i as int).0,
        r.1 as int == list0(s@, i as int).1,
        r.1 <= n,
{
    proof {
        reveal_strlit(",");
    }
    let k = scan_ident(s, n, i);
    if k == i && !match_at_exec(s, n, i, ",", 1) {
        let v: Vec<String> = Vec::new();
        proof {
            assert(v.deep_view() =~= Seq::<Seq<char>>::empty());
        }
        (v, i)
    } else {
        parse_list_tail(s, n, i)
    }
}

/// Parse a CREATE TABLE statement, as `spec_parse_create` says: the
/// remaining input and the statement, or the syntax error at the
/// first mismatch.
pub fn parse_create(input: &str) -> (r: Result<(String, SqlCreate), ParseError>)
    ensures
        ({
            let n = input@.len() as int;
            match spec_parse_create(input@) {
                Ok((pos, q)) => r matches Ok(ok) && ok.0@ == input@.subrange(pos, n) && ok.1@ == q,
                Err((pos, e)) => r matches Err(err) && err@.remaining == input@.subrange(pos, n)
                    && err@.expected == e,
            }
        }),
{
    proof {
        reveal_strlit("CREATE TABLE");
        reveal_strlit("(");
        reveal_strlit(")");
        reveal_strlit(";");
    }
    let n = input.unicode_len();
    if !match_at_exec(input, n, 0, "CREATE TABLE", 12) {
        return Err(syntax_error(input, n, 0, Expectation::Keyword));
    }
    let i: usize = 12;
    let j = scan_ws(input, n, i);
    if j == i {
        return Err(syntax_error(input, n, i, Expectation::CharClass));
    }
    let k = scan_ident(input, n, j);
    if k == j {
        return Err(syntax_error(input, n, j, Expectation::CharClass));
    }
    let name = take_string(input, j, k);
    let m = scan_ws(input, n, k);
    if !match_at_exec(input, n, m, "(", 1) {
        return Err(syntax_error(input, n, m, Expectation::Delimiter));
    }
    let (cols, p) = parse_list(input, n, m + 1);
    if !match_at_exec(input, n, p, ")", 1) {
        return Err(syntax_error(input, n, p, Expectation::Delimiter));
    }
    if !match_at_exec(input, n, p + 1, ";", 1) {
        return Err(syntax_error(input, n, p + 1, Expectation::Delimiter));
    }
    let rest = take_string(input, p + 2, n);
    Ok((rest, SqlCreate { table_name: name, columns: cols }))
}

/// Parse a DROP TABLE statement, as `spec_parse_drop` says.
pub fn parse_drop(input: &str) -> (r: Result<(String, SqlDrop), ParseError>)
    ensures
        ({
            let n = input@.len() as int;
            match spec_parse_drop(input@) {
                Ok((pos, q)) => r matches Ok(ok) && ok.0@ == input@.subrange(pos, n) && ok.1@ == q,
                Err((pos, e)) => r matches Err(err) && err@.remaining == input@.subrange(pos, n)
                    && err@.expected == e,
            }
        }),
{
    proof {
        reveal_strlit("DROP TABLE");
        reveal_strlit(";");
    }
    let n = input.unicode_len();
    if !match_at_exec(input, n, 0, "DROP TABLE", 10) {
        return Err(syntax_error(input, n, 0, Expectation::Keyword));
    }
    let i: usize = 10;
    let j = scan_ws(input, n, i);
    if j == i {
        return Err(syntax_error(input, n, i, Expectation::CharClass));
    }
    let k = scan_ident(input, n, j);
    if k == j {
        return Err(syntax_error(input, n, j, Expectation::CharClass));
    }
    if !match_at_exec(input, n, k, ";", 1) {
        return Err(syntax_error(input, n, k, Expectation::Delimiter));
    }
    let name = take_string(input, j, k);
    let rest = take_string(input, k + 1, n);
    Ok((rest, SqlDrop { table_name: name }))
}

/// Parse an INSERT INTO statement, as `spec_parse_insert` says.
pub fn parse_insert(input: &str) -> (r: Result<(String, SqlInsert), ParseError>)
    ensures
        ({
            let n = input@.len() as int;
            match spec_parse_insert(input@) {
                Ok((pos, q)) => r matches Ok(ok) && ok.0@ == input@.subrange(pos, n) && ok.1@ == q,
                Err((pos, e)) => r matches Err(err) && err@.remaining == input@.subrange(pos, n)
                    && err@.expected == e,
            }
        }),
{
    proof {
        reveal_strlit("INSERT INTO");
        reveal_strlit("VALUES");
        reveal_strlit("(");
        reveal_strlit(")");
        reveal_strlit(";");
    }
    let n = input.unicode_len();
    if !match_at_exec(input, n, 0, "INSERT INTO", 11) {
        return Err(syntax_error(input, n, 0, Expectation::Keyword));
    }
    let i: usize = 11;
    let j = scan_ws(input, n, i);
    if j == i {
        return Err(syntax_error(input, n, i, Expectation::CharClass));
    }
    let k = scan_ident(input, n, j);
    if k == j {
        return Err(syntax_error(input, n, j, Expectation::CharClass));
    }
    let name = take_string(input, j, k);
    let m = scan_ws(input, n, k);
    if !match_at_exec(input, n, m, "(", 1) {
        return Err(syntax_error(input, n, m, Expectation::Delimiter));
    }
    let (cols, p) = parse_list(input, n, m + 1);
    if !match_at_exec(input, n, p, ")", 1) {
        return Err(syntax_error(input, n, p, Expectation::Delimiter));
    }
    let m2 = scan_ws(input, n, p + 1);
    if !match_at_exec(input, n, m2, "VALUES", 6) {
        return Err(syntax_error(input, n, m2, Expectation::Keyword));
    }
    let m3 = scan_ws(input, n, m2 + 6);
    if !match_at_exec(input, n, m3, "(", 1) {
        return Err(syntax_error(input, n, m3, Expectation::Delimiter));
    }
    let (vals, p2) = parse_list(input, n, m3 + 1);
    if !match_at_exec(input, n, p2, ")", 1) {
        return Err(syntax_error(input, n, p2, Expectation::Delimiter));
    }
    if !match_at_exec(input, n, p2 + 1, ";", 1) {
        return Err(syntax_error(input, n, p2 + 1, Expectation::Delimiter));
    }
    let rest = take_string(input, p2 + 2, n);
    Ok((rest, SqlInsert { table_name: name, columns: cols, values: vals }))
}

/// Runtime parse matching `spec_select_from`: the position after the
/// `;` and the table name.
fn parse_select_from(s: &str, n: usize, i: usize) -> (r: Result<(usize, String), ParseError>)
    requires
        n == s@.len(),
        i <= n,
    ensures
        ({
            match spec_select_from(s@, i as int) {
                Ok((pos, name)) => r matches Ok(ok) && ok.0 as int == pos && ok.0 <= n && ok.1@
                    == name,
                Err((pos, e)) => r matches Err(err) && err@.remaining == s@.subrange(
                    pos,
                    n as int,
                ) && err@.expected == e,
            }
        }),
{
    proof {
        reveal_strlit("FROM");
        reveal_strlit(";");
    }
    let m = scan_ws(s, n, i);
    if !match_at_exec(s, n, m, "FROM", 4) {
        return Err(syntax_error(s, n, m, Expectation::Keyword));
    }
    let j = scan_ws(s, n, m + 4);
    if j == m + 4 {
        return Err(syntax_error(s, n, j, Expectation::CharClass));
    }
    let k = scan_ident(s, n, j);
    if k == j {
        return Err(syntax_error(s, n, j, Expectation::CharClass));
    }
    if !match_at_exec(s, n, k, ";", 1) {
        return Err(syntax_error(s, n, k, Expectation::Delimiter));
    }
    Ok((k + 1, take_string(s, j, k)))
}

/// Parse a SELECT statement, as `spec_parse_select` says.
pub fn parse_select(input: &str) -> (r: Result<(String, SqlSelect), ParseError>)
    ensures
        ({
            let n = input@.len() as int;
            match spec_parse_select(input@) {
                Ok((pos, q)) => r matches Ok(ok) && ok.0@ == input@.subrange(pos, n) && ok.1@ == q,
                Err((pos, e)) => r matches Err(err) && err@.remaining == input@.subrange(pos, n)
                    && err@.expected == e,
            }
        }),
{
    proof {
        reveal_strlit("SELECT");
        reveal_strlit("*");
        reveal_strlit("(");
        reveal_strlit(")");
    }
    let n = input.unicode_len();
    if !match_at_exec(input, n, 0, "SELECT", 6) {
        return Err(syntax_error(input, n, 0, Expectation::Keyword));
    }
    let i: usize = 6;
    let j = scan_ws(input, n, i);
    if j == i {
        return Err(syntax_error(input, n, i, Expectation::CharClass));
    }
    if match_at_exec(input, n, j, "*", 1) {
        match parse_select_from(input, n, j + 1) {
            Ok((q, name)) => {
                let rest = take_string(input, q, n);
                let star = take_string(input, j, j + 1);
                proof {
                    assert(star@ =~= "*"@);
                }
                Ok(
                    (
                        rest,
                        SqlSelect { columns: None, table_name: name, all_columns: Some(star) },
                    ),
                )
            },
            Err(e) => Err(e),
        }
    } else if match_at_exec(input, n, j, "(", 1) {
        let (cols, p) = parse_list(input, n, j + 1);
        if !match_at_exec(input, n, p, ")", 1) {
            return Err(syntax_error(input, n, p, Expectation::Delimiter));
        }
        match parse_select_from(input, n, p + 1) {
            Ok((q, name)) => {
                let rest = take_string(input, q, n);
                Ok(
                    (
                        rest,
                        SqlSelect { columns: Some(cols), table_name: name, all_columns: None },
                    ),
                )
            },
            Err(e) => Err(e),
        }
    } else {
        let (cols, p) = parse_list(input, n, j);
        match parse_select_from(input, n, p) {
            Ok((q, name)) => {
                let rest = take_string(input, q, n);
                Ok(
                    (
                        rest,
                        SqlSelect { columns: Some(cols), table_name: name, all_columns: None },
                    ),
                )
            },
            Err(e) => Err(e),
        }
    }
}

/// Parse one statement of any kind, as `spec_parse_query` says:
/// the grammars are tried in a fixed order and the first success
/// wins.
pub fn parse_query(input: &str) -> (r: Result<(String, SqlQuery), ParseError>)
    ensures
        ({
            let n = input@.len() as int;
            match spec_parse_query(input@) {
                Ok((pos, q)) => r matches Ok(ok) && ok.0@ == input@.subrange(pos, n) && ok.1@ == q,
                Err((pos, e)) => r matches Err(err) && err@.remaining == input@.subrange(pos, n)
                    && err@.expected == e,
            }
        }),
{
    if let Ok((rest, q)) = parse_create(input) {
        return Ok((rest, SqlQuery::CreateTable(q)));
    }
    if let Ok((rest, q)) = parse_drop(input) {
        return Ok((rest, SqlQuery::Drop(q)));
    }
    if let Ok((rest, q)) = parse_insert(input) {
        return Ok((rest, SqlQuery::Insert(q)));
    }
    match parse_select(input) {
        Ok((rest, q)) => Ok((rest, SqlQuery::Selection(q))),
        Err(e) => Err(e),
    }
}

/// Statement dispatch, first successful match in a fixed order:
/// CREATE TABLE, then DROP TABLE, then INSERT INTO, then SELECT.
/// When none matches, the error is the SELECT grammar's.
pub open spec fn spec_parse_query(s: Seq<char>) -> Result<(int, SqlQueryV), (int, Expectation)> {
    if spec_parse_create(s) is Ok {
        let (p, q) = spec_parse_create(s)->Ok_0;
        Ok((p, SqlQueryV::CreateTable(q)))
    } else if spec_parse_drop(s) is Ok {
        let (p, q) = spec_parse_drop(s)->Ok_0;
        Ok((p, SqlQueryV::Drop(q)))
    } else if spec_parse_insert(s) is Ok {
        let (p, q) = spec_parse_insert(s)->Ok_0;
        Ok((p, SqlQueryV::Insert(q)))
    } else {
        match spec_parse_select(s) {
            Ok((p, q)) => Ok((p, SqlQueryV::Selection(q))),
            Err(e) => Err(e),
        }
    }
}

} // verus!
