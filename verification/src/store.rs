//! An in-memory table store: a set of named tables, each one block
//! of text in the table format, with the executor's rules applied on
//! every statement. Its view is the map from table names to table
//! text, so a statement's whole effect is one map equation.

use vstd::prelude::*;
use vstd::string::*;

use crate::ast::{ExecError, SqlCreate, SqlDrop, SqlInsert, SqlQuery, SqlQueryV, SqlSelect};
use crate::executor::{header_of, select_output, valid_schema};
use crate::text::{join, split};

verus! {

/// The map a list of named tables stands for; a later entry with the
/// same name would override an earlier one, but the store keeps
/// names unique.
pub open spec fn entries_map(s: Seq<(String, String)>) -> Map<Seq<char>, Seq<char>>
    decreases s.len(),
{
    if s.len() == 0 {
        Map::empty()
    } else {
        entries_map(s.drop_last()).insert(s.last().0@, s.last().1@)
    }
}

/// No two entries share a name.
pub open spec fn unique_names(s: Seq<(String, String)>) -> bool {
    forall|i: int, j: int| 0 <= i < j < s.len() ==> s[i].0@ != s[j].0@
}

/// A name is in the map exactly when some entry bears it.
proof fn lemma_entries_contains(s: Seq<(String, String)>, k: Seq<char>)
    ensures
        entries_map(s).contains_key(k) <==> exists|i: int|
            0 <= i < s.len() && (#[trigger] s[i]).0@ == k,
    decreases s.len(),
{
    if s.len() > 0 {
        lemma_entries_contains(s.drop_last(), k);
        if s.last().0@ == k {
            assert(s[s.len() - 1].0@ == k);
        } else {
            if entries_map(s).contains_key(k) {
                let i = choose|i: int| 0 <= i < s.drop_last().len() && (#[trigger] s.drop_last()[i]).0@
                    == k;
                assert(s[i].0@ == k);
            }
            if exists|i: int| 0 <= i < s.len() && (#[trigger] s[i]).0@ == k {
                let i = choose|i: int| 0 <= i < s.len() && (#[trigger] s[i]).0@ == k;
                assert(s.drop_last()[i].0@ == k);
            }
        }
    }
}

/// With unique names, the map sends each entry's name to its text.
proof fn lemma_entries_value(s: Seq<(String, String)>, i: int)
    requires
        unique_names(s),
        0 <= i < s.len(),
    ensures
        entries_map(s).contains_key(s[i].0@),
        entries_map(s)[s[i].0@] == s[i].1@,
    decreases s.len(),
{
    lemma_entries_contains(s, s[i].0@);
    if i < s.len() - 1 {
        assert(s[i].0@ != s.last().0@);
        assert(s.drop_last()[i] == s[i]);
        lemma_entries_value(s.drop_last(), i);
    }
}

/// Appending an entry inserts it into the map.
proof fn lemma_entries_push(s: Seq<(String, String)>, e: (String, String))
    ensures
        entries_map(s.push(e)) == entries_map(s).insert(e.0@, e.1@),
{
    assert(s.push(e).drop_last() =~= s);
    assert(s.push(e).last() == e);
}

/// With unique names, removing an entry removes its name from the
/// map and keeps the rest unique.
proof fn lemma_entries_remove(s: Seq<(String, String)>, i: int)
    requires
        unique_names(s),
        0 <= i < s.len(),
    ensures
        entries_map(s.remove(i)) == entries_map(s).remove(s[i].0@),
        unique_names(s.remove(i)),
    decreases s.len(),
{
    let k = s[i].0@;
    assert forall|a: int, b: int| 0 <= a < b < s.remove(i).len() implies s.remove(i)[a].0@ != s.remove(
        i,
    )[b].0@ by {
        assert(s.remove(i)[a] == if a < i {
            s[a]
        } else {
            s[a + 1]
        });
        assert(s.remove(i)[b] == if b < i {
            s[b]
        } else {
            s[b + 1]
        });
    }
    if i == s.len() - 1 {
        assert(s.remove(i) =~= s.drop_last());
        lemma_entries_contains(s.drop_last(), k);
        assert forall|j: int| 0 <= j < s.drop_last().len() implies (#[trigger] s.drop_last()[j]).0@
            != k by {
            assert(s.drop_last()[j] == s[j]);
        }
        assert(!entries_map(s.drop_last()).contains_key(k));
        assert(entries_map(s).remove(k) =~= entries_map(s.drop_last()));
    } else {
        lemma_entries_remove(s.drop_last(), i);
        assert(s.remove(i).drop_last() =~= s.drop_last().remove(i));
        assert(s.remove(i).last() == s.last());
        assert(s.drop_last()[i] == s[i]);
        assert(s.last().0@ != k);
        assert(entries_map(s.remove(i)) == entries_map(s.drop_last().remove(i)).insert(
            s.last().0@,
            s.last().1@,
        ));
        assert(entries_map(s.drop_last()).remove(k).insert(s.last().0@, s.last().1@)
            =~= entries_map(s.drop_last()).insert(s.last().0@, s.last().1@).remove(k));
    }
}

/// The in-memory table store. Its view is the map from table names
/// to table text.
pub struct TableStore {
    tables: Vec<(String, String)>,
}

impl View for TableStore {
    type V = Map<Seq<char>, Seq<char>>;

    closed spec fn view(&self) -> Map<Seq<char>, Seq<char>> {
        entries_map(self.tables@)
    }
}

impl TableStore {
    /// The store's internal shape is sound: one entry per name.
    pub closed spec fn wf(&self) -> bool {
        unique_names(self.tables@)
    }

    /// An empty store: no tables.
    pub fn new() -> (r: TableStore)
        ensures
            r.wf(),
            r@ == Map::<Seq<char>, Seq<char>>::empty(),
    {
        TableStore { tables: Vec::new() }
    }

    /// The index of the table bearing the name, if any.
    fn find(&self, name: &String) -> (r: Option<usize>)
        ensures
            match r {
                Some(i) => i < self.tables@.len() && self.tables@[i as int].0@ == name@,
                None => forall|j: int|
                    0 <= j < self.tables@.len() ==> (#[trigger] self.tables@[j]).0@ != name@,
            },
    {
        let mut i: usize = 0;
        while i < self.tables.len()
            invariant
                i <= self.tables@.len(),
                forall|j: int| 0 <= j < i ==> (#[trigger] self.tables@[j]).0@ != name@,
            decreases self.tables@.len() - i,
        {
            if self.tables[i].0 == *name {
                return Some(i);
            }
            i = i + 1;
        }
        None
    }

    /// Whether a table of this name is in the store.
    pub fn contains_table(&self, name: &String) -> (r: bool)
        ensures
            r == self@.contains_key(name@),
    {
        proof {
            lemma_entries_contains(self.tables@, name@);
        }
        self.find(name).is_some()
    }

    /// The text of the named table, if it is in the store.
    pub fn table_content(&self, name: &String) -> (r: Option<&String>)
        requires
            self.wf(),
        ensures
            match r {
                Some(content) => self@.contains_key(name@) && content@ == self@[name@],
                None => !self@.contains_key(name@),
            },
    {
        proof {
            lemma_entries_contains(self.tables@, name@);
        }
        match self.find(name) {
            Some(i) => {
                proof {
                    lemma_entries_value(self.tables@, i as int);
                }
                Some(&self.tables[i].1)
            },
            None => None,
        }
    }

    /// Remove the entry bearing the name, if any.
    fn remove_entry(&mut self, name: &String)
        requires
            old(self).wf(),
        ensures
            final(self).wf(),
            final(self)@ == old(self)@.remove(name@),
            !final(self)@.contains_key(name@),
    {
        proof {
            lemma_entries_contains(self.tables@, name@);
        }
        match self.find(name) {
            Some(i) => {
                proof {
                    lemma_entries_remove(self.tables@, i as int);
                }
                self.tables.remove(i);
                proof {
                    lemma_entries_contains(self.tables@, name@);
                }
            },
            None => {
                proof {
                    assert(!old(self)@.contains_key(name@));
                    assert(old(self)@.remove(name@) =~= old(self)@);
                }
            },
        }
    }

    /// Add an entry whose name is not in the store yet.
    fn push_entry(&mut self, name: String, content: String)
        requires
            old(self).wf(),
            !old(self)@.contains_key(name@),
        ensures
            final(self).wf(),
            final(self)@ == old(self)@.insert(name@, content@),
    {
        proof {
            lemma_entries_contains(self.tables@, name@);
            lemma_entries_push(self.tables@, (name, content));
        }
        let ghost oldt = self.tables@;
        self.tables.push((name, content));
        proof {
            assert forall|a: int, b: int| 0 <= a < b < self.tables@.len() implies self.tables@[a].0@
                != self.tables@[b].0@ by {
                if b < oldt.len() {
                    assert(self.tables@[a] == oldt[a]);
                    assert(self.tables@[b] == oldt[b]);
                } else {
                    assert(self.tables@[a] == oldt[a]);
                }
            }
        }
    }

    /// Run a CREATE TABLE statement: with a valid schema the store
    /// holds, afterwards, exactly the header line under the table's
    /// name — an existing table of that name is overwritten silently,
    /// prior data and all. An empty column list, or one with an empty
    /// name, is rejected with `InvalidSchema` and the store is left
    /// as it was.
    pub fn create_table(&mut self, query: &SqlCreate) -> (r: Result<(), ExecError>)
        requires
            old(self).wf(),
        ensures
            final(self).wf(),
            r is Ok <==> valid_schema(query@.columns),
            r is Ok ==> final(self)@ == old(self)@.insert(
                query@.table_name,
                join(query@.columns, ","@),
            ),
            r matches Err(e) ==> final(self)@ == old(self)@ && e == ExecError::InvalidSchema,
    {
        let header = match crate::executor::create_table(query) {
            Ok(h) => h,
            Err(e) => {
                return Err(e);
            },
        };
        self.remove_entry(&query.table_name);
        self.push_entry(query.table_name.clone(), header);
        proof {
            assert(old(self)@.remove(query@.table_name).insert(
                query@.table_name,
                join(query@.columns, ","@),
            ) =~= old(self)@.insert(query@.table_name, join(query@.columns, ","@)));
        }
        Ok(())
    }

    /// Run a DROP TABLE statement: the named table leaves the store
    /// for good; a name with no table fails with `NotFound`.
    pub fn drop_table(&mut self, query: &SqlDrop) -> (r: Result<(), ExecError>)
        requires
            old(self).wf(),
        ensures
            final(self).wf(),
            r is Ok <==> old(self)@.contains_key(query@.table_name),
            r is Ok ==> final(self)@ == old(self)@.remove(query@.table_name)
                && !final(self)@.contains_key(query@.table_name),
            r matches Err(e) ==> final(self)@ == old(self)@ && e == ExecError::NotFound,
    {
        let exists = self.contains_table(&query.table_name);
        match crate::executor::drop_table(query, exists) {
            Ok(u) => {
                self.remove_entry(&query.table_name);
                Ok(u)
            },
            Err(e) => Err(e),
        }
    }

    /// Run an INSERT INTO statement: when the named table is there
    /// and the statement's column list equals the table's header, a
    /// newline and the comma-joined values are appended to the
    /// table's text. A missing table fails with `NotFound` — reported
    /// rather than silently ignored, by design — and a differing
    /// column list with `SchemaMismatch`; either way the store is
    /// left as it was.
    pub fn insert_into(&mut self, query: &SqlInsert) -> (r: Result<(), ExecError>)
        requires
            old(self).wf(),
        ensures
            final(self).wf(),
            r is Ok <==> (old(self)@.contains_key(query@.table_name) && split(
                header_of(old(self)@[query@.table_name]),
                ',',
            ) == query@.columns),
            r is Ok ==> final(self)@ == old(self)@.insert(
                query@.table_name,
                old(self)@[query@.table_name] + seq!['\n'] + join(query@.values, ","@),
            ),
            r matches Err(e) ==> final(self)@ == old(self)@ && (e == ExecError::NotFound <==> !old(
                self)@.contains_key(query@.table_name)) && (e == ExecError::NotFound || e
                == ExecError::SchemaMismatch),
    {
        proof {
            lemma_entries_contains(self.tables@, query@.table_name);
        }
        let idx = match self.find(&query.table_name) {
            Some(i) => i,
            None => {
                return Err(ExecError::NotFound);
            },
        };
        proof {
            lemma_entries_value(self.tables@, idx as int);
        }
        let header = crate::executor::table_header(self.tables[idx].1.as_str());
        let suffix = match crate::executor::insert_into(query, header.as_str()) {
            Ok(s) => s,
            Err(e) => {
                return Err(e);
            },
        };
        proof {
            lemma_entries_remove(self.tables@, idx as int);
            lemma_entries_contains(self.tables@.remove(idx as int), query@.table_name);
        }
        let entry = self.tables.remove(idx);
        let mut content = entry.1;
        content.append(suffix.as_str());
        proof {
            assert(old(self)@[query@.table_name] + (seq!['\n'] + join(query@.values, ","@))
                =~= old(self)@[query@.table_name] + seq!['\n'] + join(query@.values, ","@));
        }
        self.push_entry(entry.0, content);
        proof {
            assert(old(self)@.remove(query@.table_name).insert(query@.table_name, content@)
                =~= old(self)@.insert(query@.table_name, content@));
        }
        Ok(())
    }

    /// Run a SELECT statement: the lines it prints, as
    /// `select_output` says; a missing table fails with `NotFound`.
    /// The store is not touched, so the same statement against the
    /// same store prints the same lines every time.
    pub fn select_table(&self, query: &SqlSelect) -> (r: Result<Vec<String>, ExecError>)
        requires
            self.wf(),
        ensures
            r is Ok <==> self@.contains_key(query@.table_name),
            r matches Ok(lines) ==> lines.deep_view() == select_output(
                self@[query@.table_name],
                query@,
            ),
            r matches Err(e) ==> e == ExecError::NotFound,
    {
        proof {
            lemma_entries_contains(self.tables@, query@.table_name);
        }
        match self.find(&query.table_name) {
            Some(i) => {
                proof {
                    lemma_entries_value(self.tables@, i as int);
                }
                Ok(crate::executor::select_table(query, self.tables[i].1.as_str()))
            },
            None => Err(ExecError::NotFound),
        }
    }

    /// Run one statement of any kind: the dispatch a read loop
    /// performs. SELECT answers with its printed lines; the other
    /// statements answer with no lines and their effect on the
    /// store.
    pub fn execute(&mut self, query: &SqlQuery) -> (r: Result<Vec<String>, ExecError>)
        requires
            old(self).wf(),
        ensures
            final(self).wf(),
            match query@ {
                SqlQueryV::CreateTable(c) => (r is Ok <==> valid_schema(c.columns)) && (r is Ok
                    ==> final(self)@ == old(self)@.insert(c.table_name, join(c.columns, ","@)))
                    && (r is Err ==> final(self)@ == old(self)@),
                SqlQueryV::Drop(d) => (r is Ok <==> old(self)@.contains_key(d.table_name)) && (
                r is Ok ==> final(self)@ == old(self)@.remove(d.table_name)) && (r is Err
                    ==> final(self)@ == old(self)@),
                SqlQueryV::Insert(q) => (r is Ok <==> (old(self)@.contains_key(q.table_name)
                    && split(header_of(old(self)@[q.table_name]), ',') == q.columns)) && (r is Ok
                    ==> final(self)@ == old(self)@.insert(
                    q.table_name,
                    old(self)@[q.table_name] + seq!['\n'] + join(q.values, ","@),
                )) && (r is Err ==> final(self)@ == old(self)@),
                SqlQueryV::Selection(q) => (r is Ok <==> old(self)@.contains_key(q.table_name)) && (
                r matches Ok(lines) ==> lines.deep_view() == select_output(
                    old(self)@[q.table_name],
                    q,
                )) && final(self)@ == old(self)@,
            },
            !(query@ is Selection) ==> (r matches Ok(lines) ==> lines@.len() == 0),
    {
        match query {
            SqlQuery::CreateTable(c) => {
                match self.create_table(c) {
                    Ok(_) => Ok(Vec::new()),
                    Err(e) => Err(e),
                }
            },
            SqlQuery::Drop(d) => {
                match self.drop_table(d) {
                    Ok(_) => Ok(Vec::new()),
                    Err(e) => Err(e),
                }
            },
            SqlQuery::Insert(q) => {
                match self.insert_into(q) {
                    Ok(_) => Ok(Vec::new()),
                    Err(e) => Err(e),
                }
            },
            SqlQuery::Selection(q) => self.select_table(q),
        }
    }
}

} // verus!
