//! Tables, columns and values, kept sorted by name.
use vstd::prelude::*;
use crate::text::{text_lt, less_than, lemma_text_lt_irreflexive, lemma_text_lt_transitive, lemma_text_lt_total};

verus! {

/// One stored value.
#[derive(Clone, Debug)]
pub enum DataType {
    String(String),
    Integer32(i32),
    /// A 32-bit float, held as the shortest decimal text that reads back to
    /// the same value (`5.5`, `1000.0`).
    Float32(String),
}

/// What a [`DataType`] holds, as mathematical values.
pub enum Value {
    Text(Seq<char>),
    Int(i32),
    Float(Seq<char>),
}

impl View for DataType {
    type V = Value;

    open spec fn view(&self) -> Value {
        match self {
            DataType::String(s) => Value::Text(s@),
            DataType::Integer32(n) => Value::Int(*n),
            DataType::Float32(t) => Value::Float(t@),
        }
    }
}

/// A column as its name and its values in order of insertion.
pub type ColumnView = (Seq<char>, Seq<Value>);

/// A table as its name and its columns.
pub type TableView = (Seq<char>, Seq<ColumnView>);

#[derive(Clone, Debug)]
pub struct Column {
    pub name: String,
    pub values: Vec<DataType>,
}

impl View for Column {
    type V = ColumnView;

    open spec fn view(&self) -> ColumnView {
        (self.name@, self.values@.map_values(|v: DataType| v@))
    }
}

#[derive(Clone, Debug)]
pub struct Table {
    pub name: String,
    pub columns: Vec<Column>,
}

impl View for Table {
    type V = TableView;

    open spec fn view(&self) -> TableView {
        (self.name@, self.columns@.map_values(|c: Column| c@))
    }
}

/// The collection of tables that commands act on.
#[derive(Clone, Debug)]
pub struct Database {
    pub tables: Vec<Table>,
}

impl View for Database {
    type V = Seq<TableView>;

    open spec fn view(&self) -> Seq<TableView> {
        self.tables@.map_values(|t: Table| t@)
    }
}

// Keyed sequences: entries sorted strictly by key, so each key occurs once.

pub open spec fn sorted_keys<V>(s: Seq<(Seq<char>, V)>) -> bool {
    forall|i: int, j: int| 0 <= i < j < s.len() ==> text_lt(#[trigger] s[i].0, #[trigger] s[j].0)
}

/// How many entries have a key below `k`: where `k` stands or would stand.
pub open spec fn count_below<V>(s: Seq<(Seq<char>, V)>, k: Seq<char>) -> int
    decreases s.len(),
{
    if s.len() == 0 {
        0
    } else {
        count_below(s.drop_last(), k) + if text_lt(s.last().0, k) {
            1int
        } else {
            0
        }
    }
}

/// The entry stored under `k`, if there is one.
pub open spec fn lookup<V>(s: Seq<(Seq<char>, V)>, k: Seq<char>) -> Option<V> {
    let i = count_below(s, k);
    if i < s.len() && s[i].0 == k {
        Some(s[i].1)
    } else {
        None
    }
}

/// `s` with `v` stored under `k`: it replaces the entry of that key, or is
/// placed among the others in key order.
pub open spec fn put<V>(s: Seq<(Seq<char>, V)>, k: Seq<char>, v: V) -> Seq<(Seq<char>, V)> {
    let i = count_below(s, k);
    if i < s.len() && s[i].0 == k {
        s.update(i, (k, v))
    } else {
        s.insert(i, (k, v))
    }
}

pub proof fn lemma_count_below<V>(s: Seq<(Seq<char>, V)>, k: Seq<char>)
    requires
        sorted_keys(s),
    ensures
        0 <= count_below(s, k) <= s.len(),
        forall|j: int| 0 <= j < s.len() ==> (j < count_below(s, k) <==> text_lt(#[trigger] s[j].0, k)),
    decreases s.len(),
{
    if s.len() > 0 {
        let p = s.drop_last();
        assert(sorted_keys(p)) by {
            assert forall|i: int, j: int| 0 <= i < j < p.len() implies text_lt(#[trigger] p[i].0, #[trigger] p[j].0) by {
                assert(text_lt(s[i].0, s[j].0));
            }
        }
        lemma_count_below(p, k);
        let n = s.len() - 1;
        if text_lt(s.last().0, k) {
            assert forall|j: int| 0 <= j < n implies text_lt(#[trigger] p[j].0, k) by {
                assert(text_lt(s[j].0, s[n].0));
                lemma_text_lt_transitive(s[j].0, s[n].0, k);
            }
        }
        assert forall|j: int| 0 <= j < s.len() implies (j < count_below(s, k) <==> text_lt(#[trigger] s[j].0, k)) by {
            if j < n {
                assert(s[j] == p[j]);
            }
        }
    }
}

pub proof fn lemma_put<V>(s: Seq<(Seq<char>, V)>, k: Seq<char>, v: V)
    requires
        sorted_keys(s),
    ensures
        sorted_keys(put(s, k, v)),
        lookup(put(s, k, v), k) == Some(v),
{
    lemma_count_below(s, k);
    let i = count_below(s, k);
    let r = put(s, k, v);
    if i < s.len() && s[i].0 == k {
        assert(sorted_keys(r)) by {
            assert forall|a: int, b: int| 0 <= a < b < r.len() implies text_lt(#[trigger] r[a].0, #[trigger] r[b].0) by {
                assert(text_lt(s[a].0, s[b].0));
            }
        }
    } else {
        assert forall|j: int| i <= j < s.len() implies text_lt(k, #[trigger] s[j].0) by {
            lemma_text_lt_total(s[i].0, k);
            if j > i {
                assert(text_lt(s[i].0, s[j].0));
                lemma_text_lt_transitive(k, s[i].0, s[j].0);
            }
        }
        assert(sorted_keys(r)) by {
            assert forall|a: int, b: int| 0 <= a < b < r.len() implies text_lt(#[trigger] r[a].0, #[trigger] r[b].0) by {
                if b < i {
                    assert(text_lt(s[a].0, s[b].0));
                } else if b == i {
                } else if a < i {
                    assert(text_lt(s[a].0, k));
                    lemma_text_lt_transitive(s[a].0, k, s[b - 1].0);
                } else if a == i {
                } else {
                    assert(text_lt(s[a - 1].0, s[b - 1].0));
                }
            }
        }
    }
    lemma_count_below(r, k);
    lemma_text_lt_irreflexive(k);
    assert(r[i].0 == k);
    assert forall|j: int| 0 <= j < i implies text_lt(#[trigger] r[j].0, k) by {
        assert(r[j] == s[j]);
    }
    if count_below(r, k) < i {
        assert(text_lt(r[count_below(r, k)].0, k));
    }
}

/// The position of `k` among the keys of `s`, for a scan that stops there.
pub proof fn lemma_count_below_at<V>(s: Seq<(Seq<char>, V)>, k: Seq<char>, i: int)
    requires
        sorted_keys(s),
        0 <= i <= s.len(),
        forall|j: int| 0 <= j < i ==> text_lt(#[trigger] s[j].0, k),
        i < s.len() ==> !text_lt(s[i].0, k),
    ensures
        count_below(s, k) == i,
{
    lemma_count_below(s, k);
    let c = count_below(s, k);
    if c < i {
        assert(text_lt(s[c].0, k));
    }
    if c > i {
        assert(text_lt(s[i].0, k));
    }
}

/// Each column is named once, in order, and holds at least one value.
pub open spec fn table_wf(t: TableView) -> bool {
    &&& sorted_keys(t.1)
    &&& forall|j: int| 0 <= j < t.1.len() ==> (#[trigger] t.1[j]).1.len() > 0
}

/// Each table is named once, in order, and is well formed.
pub open spec fn database_wf(d: Seq<TableView>) -> bool {
    &&& sorted_keys(d)
    &&& forall|i: int| 0 <= i < d.len() ==> #[trigger] table_wf((d[i].0, d[i].1))
}

/// The columns of `t` after `v` is appended to column `c`, which is created
/// when it is not there.
pub open spec fn append_value(cols: Seq<ColumnView>, c: Seq<char>, v: Value) -> Seq<ColumnView> {
    let old_values = match lookup(cols, c) {
        Some(vs) => vs,
        None => seq![],
    };
    put(cols, c, old_values.push(v))
}

impl Table {
    /// A table with no columns.
    pub fn new(name: String) -> (r: Table)
        ensures
            r@ == (name@, Seq::<ColumnView>::empty()),
            table_wf(r@),
    {
        let r = Table { name, columns: Vec::new() };
        assert(r@.1 =~= Seq::<ColumnView>::empty());
        r
    }

    /// Where column `name` stands, or would stand, and whether it is there.
    pub fn find_column(&self, name: &str) -> (r: (usize, bool))
        requires
            sorted_keys(self@.1),
        ensures
            r.0 == count_below(self@.1, name@),
            r.1 == (lookup(self@.1, name@) is Some),
    {
        let ghost s = self@.1;
        let mut i: usize = 0;
        while i < self.columns.len() && less_than(self.columns[i].name.as_str(), name)
            invariant
                s == self@.1,
                sorted_keys(s),
                i <= s.len(),
                forall|j: int| 0 <= j < i ==> text_lt(#[trigger] s[j].0, name@),
            decreases self.columns.len() - i,
        {
            i += 1;
        }
        proof {
            lemma_count_below_at(s, name@, i as int);
        }
        let found = i < self.columns.len() && self.columns[i].name == name.to_string();
        (i, found)
    }

    /// Appends `v` to column `column`, creating the column if it is absent.
    pub fn append(&mut self, column: String, v: DataType)
        requires
            table_wf(old(self)@),
        ensures
            final(self)@ == (old(self)@.0, append_value(old(self)@.1, column@, v@)),
            table_wf(final(self)@),
    {
        let ghost cols = self@.1;
        let ghost vv = v@;
        let (i, found) = self.find_column(column.as_str());
        proof {
            lemma_put(cols, column@, match lookup(cols, column@) { Some(vs) => vs, None => seq![] }.push(vv));
            lemma_count_below(cols, column@);
        }
        if found {
            let mut col = self.columns.remove(i);
            let ghost before = col@;
            col.values.push(v);
            assert(col@.1 =~= before.1.push(vv));
            self.columns.insert(i, col);
        } else {
            let mut values: Vec<DataType> = Vec::new();
            values.push(v);
            let col = Column { name: column, values };
            assert(col@.1 =~= seq![vv]);
            self.columns.insert(i, col);
        }
        assert(self@.1 =~= append_value(cols, column@, vv));
        assert forall|j: int| 0 <= j < self@.1.len() implies (#[trigger] self@.1[j]).1.len() > 0 by {
            if j != i {
                if j < i {
                    assert(self@.1[j] == cols[j]);
                } else if found {
                    assert(self@.1[j] == cols[j]);
                } else {
                    assert(self@.1[j] == cols[j - 1]);
                }
            }
        }
    }
}

impl Database {
    /// A collection with no tables.
    pub fn new() -> (r: Database)
        ensures
            r@ == Seq::<TableView>::empty(),
            database_wf(r@),
    {
        let r = Database { tables: Vec::new() };
        assert(r@ =~= Seq::<TableView>::empty());
        r
    }

    /// Where table `name` stands, or would stand, and whether it is there.
    pub fn find_table(&self, name: &str) -> (r: (usize, bool))
        requires
            sorted_keys(self@),
        ensures
            r.0 == count_below(self@, name@),
            r.1 == (lookup(self@, name@) is Some),
    {
        let ghost s = self@;
        let mut i: usize = 0;
        while i < self.tables.len() && less_than(self.tables[i].name.as_str(), name)
            invariant
                s == self@,
                sorted_keys(s),
                i <= s.len(),
                forall|j: int| 0 <= j < i ==> text_lt(#[trigger] s[j].0, name@),
            decreases self.tables.len() - i,
        {
            i += 1;
        }
        proof {
            lemma_count_below_at(s, name@, i as int);
        }
        let found = i < self.tables.len() && self.tables[i].name == name.to_string();
        (i, found)
    }

    /// Whether a table of that name exists.
    pub fn contains_table(&self, name: &str) -> (r: bool)
        requires
            database_wf(self@),
        ensures
            r == (lookup(self@, name@) is Some),
    {
        self.find_table(name).1
    }

    /// Puts an empty table under `name`, replacing any table of that name.
    pub fn create_table(&mut self, name: String)
        requires
            database_wf(old(self)@),
        ensures
            final(self)@ == put(old(self)@, name@, Seq::<ColumnView>::empty()),
            database_wf(final(self)@),
    {
        let ghost d = self@;
        let (i, found) = self.find_table(name.as_str());
        proof {
            lemma_put(d, name@, Seq::<ColumnView>::empty());
            lemma_count_below(d, name@);
        }
        let t = Table::new(name.clone());
        if found {
            self.tables.remove(i);
        }
        self.tables.insert(i, t);
        assert(self@ =~= put(d, name@, Seq::<ColumnView>::empty()));
        assert forall|j: int| 0 <= j < self@.len() implies #[trigger] table_wf((self@[j].0, self@[j].1)) by {
            if j < i {
                assert(self@[j] == d[j]);
                assert(table_wf((d[j].0, d[j].1)));
            } else if j > i {
                let k = if found { j } else { j - 1 };
                assert(self@[j] == d[k]);
                assert(table_wf((d[k].0, d[k].1)));
            } else {
                assert((self@[j].0, self@[j].1) == t@);
            }
        }
    }

    /// Appends `v` to column `column` of table `table`, which must exist.
    pub fn append_to(&mut self, table: &str, column: String, v: DataType)
        requires
            database_wf(old(self)@),
            lookup(old(self)@, table@) is Some,
        ensures
            final(self)@ == put(old(self)@, table@, append_value(lookup(old(self)@, table@)->Some_0, column@, v@)),
            database_wf(final(self)@),
    {
        let ghost d = self@;
        let (i, found) = self.find_table(table);
        proof {
            lemma_count_below(d, table@);
        }
        let mut t = self.tables.remove(i);
        proof {
            assert(t@ == d[i as int]);
            assert(table_wf((d[i as int].0, d[i as int].1)));
            assert(t@ == (t@.0, t@.1));
        }
        t.append(column, v);
        let ghost nt = t@;
        self.tables.insert(i, t);
        proof {
            lemma_put(d, table@, nt.1);
        }
        assert(self@ =~= put(d, table@, append_value(d[i as int].1, column@, v@)));
        assert forall|j: int| 0 <= j < self@.len() implies #[trigger] table_wf((self@[j].0, self@[j].1)) by {
            if j != i {
                assert(self@[j] == d[j]);
                assert(table_wf((d[j].0, d[j].1)));
            } else {
                assert((self@[j].0, self@[j].1) == nt);
            }
        }
    }
}

} // verus!
