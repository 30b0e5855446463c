//! Character classes and the sequence-level string operations the
//! grammar and the table format are specified with: joining a list of
//! tokens with a separator and splitting a string at a separator.

use vstd::prelude::*;
use vstd::string::*;

verus! {

/// The characters an identifier (table or column name) may contain.
pub open spec fn is_ident_char(c: char) -> bool {
    ('A' <= c && c <= 'Z') || ('a' <= c && c <= 'z') || ('0' <= c && c <= '9')
}

/// Every character of the string is an identifier character.
pub open spec fn ident_chars_only(s: Seq<char>) -> bool {
    forall|i: int| 0 <= i < s.len() ==> is_ident_char(s[i])
}

/// Every token in the list consists of identifier characters alone.
pub open spec fn all_ident_chars(toks: Seq<Seq<char>>) -> bool {
    forall|t: int| 0 <= t < toks.len() ==> ident_chars_only(#[trigger] toks[t])
}

/// A valid identifier: one or more alphanumeric characters.
pub open spec fn is_ident(s: Seq<char>) -> bool {
    s.len() > 0 && ident_chars_only(s)
}

/// Whitespace inside a statement: space or tab.
pub open spec fn is_ws_char(c: char) -> bool {
    c == ' ' || c == '\t'
}

/// Runtime check matching `is_ident_char`.
pub fn ident_char(c: char) -> (r: bool)
    ensures
        r == is_ident_char(c),
{
    ('A' <= c && c <= 'Z') || ('a' <= c && c <= 'z') || ('0' <= c && c <= '9')
}

/// Runtime check matching `is_ws_char`.
pub fn ws_char(c: char) -> (r: bool)
    ensures
        r == is_ws_char(c),
{
    c == ' ' || c == '\t'
}

/// The items joined with the separator between each pair:
/// `join(["a","b"], ",") == "a,b"`; the empty list joins to the
/// empty string, a single item to itself.
pub open spec fn join(items: Seq<Seq<char>>, sep: Seq<char>) -> Seq<char>
    decreases items.len(),
{
    if items.len() == 0 {
        Seq::empty()
    } else if items.len() == 1 {
        items[0]
    } else {
        items[0] + sep + join(items.drop_first(), sep)
    }
}

/// `s` cut at every occurrence of `sep`: the pieces in order, each
/// free of `sep`. The empty string splits to one empty piece, so the
/// result always holds at least one piece.
pub open spec fn split(s: Seq<char>, sep: char) -> Seq<Seq<char>>
    decreases s.len(),
{
    if s.len() == 0 {
        seq![Seq::<char>::empty()]
    } else if s[0] == sep {
        seq![Seq::<char>::empty()] + split(s.drop_first(), sep)
    } else {
        let r = split(s.drop_first(), sep);
        seq![seq![s[0]] + r[0]] + r.drop_first()
    }
}

/// A split never yields an empty list of pieces.
pub proof fn lemma_split_len(s: Seq<char>, sep: char)
    ensures
        split(s, sep).len() >= 1,
    decreases s.len(),
{
    if s.len() == 0 {
    } else {
        lemma_split_len(s.drop_first(), sep);
    }
}

/// The string holds no occurrence of the character.
pub open spec fn free_of(s: Seq<char>, c: char) -> bool {
    forall|i: int| 0 <= i < s.len() ==> s[i] != c
}

/// An identifier is free of every non-identifier character, commas
/// and newlines among them.
pub proof fn lemma_ident_free(s: Seq<char>, c: char)
    requires
        is_ident(s),
        !is_ident_char(c),
    ensures
        free_of(s, c),
{
}

/// Splitting a string that is free of the separator yields the
/// string itself as the one piece.
pub proof fn lemma_split_free(s: Seq<char>, sep: char)
    requires
        free_of(s, sep),
    ensures
        split(s, sep) =~= seq![s],
    decreases s.len(),
{
    if s.len() == 0 {
        assert(split(s, sep) =~~= seq![s]);
    } else {
        lemma_split_free(s.drop_first(), sep);
        assert(seq![s[0]] + s.drop_first() =~= s);
        assert(split(s, sep) =~~= seq![s]);
    }
}

/// Splitting at a separator that stands after a separator-free
/// prefix cuts exactly there.
pub proof fn lemma_split_concat(a: Seq<char>, b: Seq<char>, sep: char)
    requires
        free_of(a, sep),
    ensures
        split(a + seq![sep] + b, sep) =~= seq![a] + split(b, sep),
    decreases a.len(),
{
    let s = a + seq![sep] + b;
    if a.len() == 0 {
        assert(s[0] == sep);
        assert(s.drop_first() =~= b);
        assert(a =~= Seq::<char>::empty());
    } else {
        lemma_split_concat(a.drop_first(), b, sep);
        lemma_split_len(b, sep);
        assert(s.drop_first() =~= a.drop_first() + seq![sep] + b);
        assert(s[0] == a[0]);
        let r = split(s.drop_first(), sep);
        assert(r =~= seq![a.drop_first()] + split(b, sep));
        assert(seq![a[0]] + a.drop_first() =~= a);
        assert(r.drop_first() =~= split(b, sep));
    }
}

/// A join of separator-free items splits back into exactly those
/// items: the round trip between a table header or row and its
/// column list.
pub proof fn lemma_split_join(items: Seq<Seq<char>>, sep: char)
    requires
        items.len() >= 1,
        forall|i: int| 0 <= i < items.len() ==> free_of(#[trigger] items[i], sep),
    ensures
        split(join(items, seq![sep]), sep) =~= items,
    decreases items.len(),
{
    if items.len() == 1 {
        lemma_split_free(items[0], sep);
    } else {
        lemma_split_join(items.drop_first(), sep);
        assert(join(items, seq![sep]) =~= items[0] + seq![sep] + join(
            items.drop_first(),
            seq![sep],
        ));
        lemma_split_concat(items[0], join(items.drop_first(), seq![sep]), sep);
        assert(seq![items[0]] + items.drop_first() =~= items);
    }
}

/// A push on a vector of strings pushes the view on the deep view.
pub proof fn lemma_vec_deep_push(v: Vec<String>, w: Vec<String>, x: String)
    requires
        w@ == v@.push(x),
    ensures
        w.deep_view() == v.deep_view().push(x@),
{
    assert(w.deep_view() =~= v.deep_view().push(x@));
}

/// The first piece grown by a prefix: what a split looks like while
/// a partial piece is still being read.
pub open spec fn prepend_first(p: Seq<char>, pieces: Seq<Seq<char>>) -> Seq<Seq<char>> {
    seq![p + pieces[0]] + pieces.drop_first()
}

/// An owned copy of the characters of `s` from `i` up to `k`.
pub fn take_string(s: &str, i: usize, k: usize) -> (r: String)
    requires
        i <= k <= s@.len(),
    ensures
        r@ == s@.subrange(i as int, k as int),
{
    s.substring_char(i, k).to_owned()
}

/// Cut `s` at every occurrence of `sep`, as `split` says.
pub fn split_str(s: &str, sep: char) -> (r: Vec<String>)
    ensures
        r.deep_view() == split(s@, sep),
{
    let n = s.unicode_len();
    let mut done: Vec<String> = Vec::new();
    let mut start: usize = 0;
    let mut i: usize = 0;
    proof {
        lemma_split_len(s@, sep);
        assert(s@.subrange(0, n as int) =~= s@);
        assert(Seq::<char>::empty() + split(s@, sep)[0] =~= split(s@, sep)[0]);
        assert(done.deep_view() + prepend_first(
            s@.subrange(0, 0),
            split(s@.subrange(0, n as int), sep),
        ) =~= split(s@, sep));
    }
    while i < n
        invariant
            n == s@.len(),
            start <= i <= n,
            done.deep_view() + prepend_first(
                s@.subrange(start as int, i as int),
                split(s@.subrange(i as int, n as int), sep),
            ) == split(s@, sep),
        decreases n - i,
    {
        let ghost cur = s@.subrange(start as int, i as int);
        let ghost suffix = s@.subrange(i as int, n as int);
        let ghost suffix2 = s@.subrange(i + 1, n as int);
        proof {
            lemma_split_len(suffix2, sep);
            assert(suffix.len() > 0);
            assert(suffix[0] == s@[i as int]);
            assert(suffix.drop_first() =~= suffix2);
        }
        if s.get_char(i) == sep {
            let ghost old_done = done;
            let tok = take_string(s, start, i);
            done.push(tok);
            proof {
                lemma_vec_deep_push(old_done, done, tok);
                assert(split(suffix, sep) == seq![Seq::<char>::empty()] + split(suffix2, sep));
                assert(prepend_first(cur, split(suffix, sep)) =~= seq![cur] + split(suffix2, sep));
                assert(Seq::<char>::empty() + split(suffix2, sep)[0] =~= split(suffix2, sep)[0]);
                assert(prepend_first(s@.subrange(i + 1, i + 1), split(suffix2, sep)) =~= split(
                    suffix2,
                    sep,
                ));
                assert(done.deep_view() + prepend_first(
                    s@.subrange(i + 1, i + 1),
                    split(s@.subrange(i + 1, n as int), sep),
                ) =~= split(s@, sep));
            }
            start = i + 1;
        } else {
            proof {
                let r = split(suffix2, sep);
                assert(split(suffix, sep) == seq![seq![suffix[0]] + r[0]] + r.drop_first());
                assert(cur + (seq![s@[i as int]] + r[0]) =~= s@.subrange(start as int, i + 1)
                    + r[0]);
                assert(prepend_first(cur, split(suffix, sep)) =~= prepend_first(
                    s@.subrange(start as int, i + 1),
                    r,
                ));
            }
        }
        i = i + 1;
    }
    let ghost old_done = done;
    let tok = take_string(s, start, n);
    done.push(tok);
    proof {
        lemma_vec_deep_push(old_done, done, tok);
        let cur = s@.subrange(start as int, n as int);
        let suffix = s@.subrange(n as int, n as int);
        assert(suffix =~= Seq::<char>::empty());
        assert(split(suffix, sep) == seq![Seq::<char>::empty()]);
        assert(cur + Seq::<char>::empty() =~= cur);
        assert(prepend_first(cur, split(suffix, sep)) =~= seq![cur]);
        assert(done.deep_view() =~= split(s@, sep));
    }
    done
}

/// Joining one more item appends a separator and the item.
pub proof fn lemma_join_push(items: Seq<Seq<char>>, sep: Seq<char>, x: Seq<char>)
    ensures
        join(items.push(x), sep) == if items.len() == 0 {
            x
        } else {
            join(items, sep) + sep + x
        },
    decreases items.len(),
{
    if items.len() == 0 {
        assert(join(items.push(x), sep) == items.push(x)[0]);
        assert(items.push(x)[0] == x);
    } else if items.len() == 1 {
        assert(items.push(x).drop_first() =~= seq![x]);
        assert(join(seq![x], sep) == x);
        assert(join(items.push(x), sep) == items.push(x)[0] + sep + join(
            items.push(x).drop_first(),
            sep,
        ));
        assert(items.push(x)[0] == items[0]);
        assert(join(items, sep) == items[0]);
    } else {
        lemma_join_push(items.drop_first(), sep, x);
        assert(items.push(x).drop_first() =~= items.drop_first().push(x));
        assert(join(items.push(x), sep) == items[0] + sep + join(items.drop_first().push(x), sep));
        assert(join(items.drop_first().push(x), sep) == join(items.drop_first(), sep) + sep + x);
        assert(items[0] + sep + (join(items.drop_first(), sep) + sep + x) =~= (items[0] + sep
            + join(items.drop_first(), sep)) + sep + x);
    }
}

/// Join the items with a comma between each pair, as `join` says.
pub fn join_comma(items: &Vec<String>) -> (r: String)
    ensures
        r@ == join(items.deep_view(), ","@),
{
    proof {
        reveal_strlit(",");
    }
    let mut out = String::new();
    let mut i: usize = 0;
    proof {
        assert(items.deep_view().subrange(0, 0) =~= Seq::<Seq<char>>::empty());
        assert(out@ =~= join(items.deep_view().subrange(0, 0), ","@));
    }
    while i < items.len()
        invariant
            i <= items@.len(),
            out@ == join(items.deep_view().subrange(0, i as int), ","@),
        decreases items@.len() - i,
    {
        if i > 0 {
            out.append(",");
        }
        out.append(items[i].as_str());
        proof {
            let deep = items.deep_view();
            lemma_join_push(deep.subrange(0, i as int), ","@, deep[i as int]);
            assert(deep.subrange(0, i as int).push(deep[i as int]) =~= deep.subrange(0, i + 1));
            if i > 0 {
                assert(out@ =~= join(deep.subrange(0, i + 1), ","@));
            } else {
                assert(deep.subrange(0, 1) =~= seq![deep[0]]);
                assert(Seq::<char>::empty() + deep[0] =~= deep[0]);
            }
        }
        i = i + 1;
    }
    proof {
        assert(items.deep_view().subrange(0, items@.len() as int) =~= items.deep_view());
    }
    out
}

/// A join of items free of some character, with a separator free of
/// it too, stays free of that character.
pub proof fn lemma_join_free(items: Seq<Seq<char>>, sep: Seq<char>, c: char)
    requires
        forall|i: int| 0 <= i < items.len() ==> free_of(#[trigger] items[i], c),
        free_of(sep, c),
    ensures
        free_of(join(items, sep), c),
    decreases items.len(),
{
    if items.len() <= 1 {
    } else {
        lemma_join_free(items.drop_first(), sep, c);
        let rest = join(items.drop_first(), sep);
        assert forall|i: int| 0 <= i < join(items, sep).len() implies join(items, sep)[i]
            != c by {
            let j = join(items, sep);
            if i < items[0].len() {
                assert(j[i] == items[0][i]);
            } else if i < items[0].len() + sep.len() {
                assert(j[i] == sep[i - items[0].len()]);
            } else {
                assert(j[i] == rest[i - items[0].len() - sep.len()]);
            }
        }
    }
}

} // verus!
