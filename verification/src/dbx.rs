use vstd::prelude::*;

use crate::data::model::{key_names, Table};
use crate::text::{append_joined, joined, str_eq, texts};

pub mod ser;

verus! {

/// A value of an SQL column. `Real` holds the bit pattern of a 64-bit float.
#[derive(Clone, PartialEq, Debug)]
pub enum SqlValue {
    Null,
    Integer(i64),
    Real(u64),
    Text(String),
    Blob(Vec<u8>),
}

/// Two values are the same: equal, or blobs of the same bytes.
pub open spec fn same_value(a: SqlValue, b: SqlValue) -> bool {
    match (a, b) {
        (SqlValue::Blob(x), SqlValue::Blob(y)) => x@ == y@,
        _ => a == b,
    }
}

/// What a value holds, with texts and blobs as sequences.
pub enum ValueView {
    Null,
    Integer(i64),
    Real(u64),
    Text(Seq<char>),
    Blob(Seq<u8>),
}

impl View for SqlValue {
    type V = ValueView;

    open spec fn view(&self) -> ValueView {
        match self {
            SqlValue::Null => ValueView::Null,
            SqlValue::Integer(i) => ValueView::Integer(*i),
            SqlValue::Real(b) => ValueView::Real(*b),
            SqlValue::Text(t) => ValueView::Text(t@),
            SqlValue::Blob(b) => ValueView::Blob(b@),
        }
    }
}

impl SqlValue {
    /// A copy of the value.
    pub fn duplicate(&self) -> (r: Self)
        ensures
            same_value(r, *self),
            r@ == self@,
    {
        match self {
            SqlValue::Null => SqlValue::Null,
            SqlValue::Integer(i) => SqlValue::Integer(*i),
            SqlValue::Real(b) => SqlValue::Real(*b),
            SqlValue::Text(t) => SqlValue::Text(t.clone()),
            SqlValue::Blob(b) => {
                let c = b.clone();
                assert(c@ == b@);
                SqlValue::Blob(c)
            },
        }
    }

    pub fn text(s: &str) -> (r: Self)
        ensures
            r matches SqlValue::Text(t) && t@ == s@,
    {
        SqlValue::Text(s.to_owned())
    }

    /// The text of a `Text` value; the value must be one.
    pub fn into_text(self) -> (r: String)
        requires
            self is Text,
        ensures
            self matches SqlValue::Text(t) && r == t,
    {
        match self {
            SqlValue::Text(s) => s,
            _ => String::new(),
        }
    }
}

impl From<&str> for SqlValue {
    fn from(value: &str) -> (r: Self)
        ensures
            r matches SqlValue::Text(t) && t@ == value@,
    {
        SqlValue::text(value)
    }
}

impl vstd::std_specs::convert::FromSpecImpl<&str> for SqlValue {
    open spec fn obeys_from_spec() -> bool {
        false
    }

    open spec fn from_spec(v: &str) -> Self {
        SqlValue::Null
    }
}

impl From<u64> for SqlValue {
    fn from(value: u64) -> (r: Self) {
        SqlValue::Integer(value as i64)
    }
}

impl vstd::std_specs::convert::FromSpecImpl<u64> for SqlValue {
    open spec fn obeys_from_spec() -> bool {
        true
    }

    open spec fn from_spec(v: u64) -> Self {
        SqlValue::Integer(v as i64)
    }
}

impl From<bool> for SqlValue {
    fn from(value: bool) -> (r: Self) {
        SqlValue::Integer(
            if value {
                1
            } else {
                0
            },
        )
    }
}

impl vstd::std_specs::convert::FromSpecImpl<bool> for SqlValue {
    open spec fn obeys_from_spec() -> bool {
        true
    }

    open spec fn from_spec(v: bool) -> Self {
        SqlValue::Integer(
            if v {
                1
            } else {
                0
            },
        )
    }
}

/// The index of the first entry whose name is `k`.
pub open spec fn find_key(vals: Seq<(String, SqlValue)>, k: Seq<char>) -> Option<int>
    decreases vals.len(),
{
    if vals.len() == 0 {
        None
    } else if vals[0].0@ == k {
        Some(0)
    } else {
        match find_key(vals.drop_first(), k) {
            Some(i) => Some(i + 1),
            None => None,
        }
    }
}

/// `find_key` is the first position whose name is `k`.
pub proof fn lemma_find_key(vals: Seq<(String, SqlValue)>, k: Seq<char>, i: int)
    requires
        0 <= i <= vals.len(),
        forall|j: int| 0 <= j < i ==> (#[trigger] vals[j]).0@ != k,
    ensures
        i < vals.len() && vals[i].0@ == k ==> find_key(vals, k) == Some(i),
        i == vals.len() ==> find_key(vals, k) == None::<int>,
    decreases i,
{
    if i > 0 {
        assert forall|j: int| 0 <= j < i - 1 implies (#[trigger] vals.drop_first()[j]).0@ != k by {
            assert(vals.drop_first()[j] == vals[j + 1]);
        }
        lemma_find_key(vals.drop_first(), k, i - 1);
    } else if vals.len() > 0 && vals[0].0@ != k {
    }
}

pub proof fn lemma_find_key_bounds(vals: Seq<(String, SqlValue)>, k: Seq<char>)
    ensures
        find_key(vals, k) matches Some(i) ==> 0 <= i < vals.len() && vals[i].0@ == k && forall|j: int|
            0 <= j < i ==> (#[trigger] vals[j]).0@ != k,
    decreases vals.len(),
{
    if vals.len() > 0 {
        lemma_find_key_bounds(vals.drop_first(), k);
        if vals[0].0@ != k {
            if let Some(i) = find_key(vals.drop_first(), k) {
                assert forall|j: int| 0 <= j < i + 1 implies (#[trigger] vals[j]).0@ != k by {
                    if j > 0 {
                        assert(vals[j] == vals.drop_first()[j - 1]);
                    }
                }
            }
        }
    }
}

/// The named values of a row, with names as texts.
pub open spec fn values_view(vals: Seq<(String, SqlValue)>) -> Seq<(Seq<char>, ValueView)> {
    vals.map_values(|p: (String, SqlValue)| (p.0@, p.1@))
}

/// The value of the first entry named `k`.
pub open spec fn view_get(vals: Seq<(Seq<char>, ValueView)>, k: Seq<char>) -> Option<ValueView>
    decreases vals.len(),
{
    if vals.len() == 0 {
        None
    } else if vals[0].0 == k {
        Some(vals[0].1)
    } else {
        view_get(vals.drop_first(), k)
    }
}

/// Looking a name up in the view finds the value that `find_key` points at.
pub proof fn lemma_view_get(vals: Seq<(String, SqlValue)>, k: Seq<char>)
    ensures
        match find_key(vals, k) {
            Some(i) => view_get(values_view(vals), k) == Some(vals[i].1@),
            None => view_get(values_view(vals), k) is None,
        },
    decreases vals.len(),
{
    if vals.len() > 0 {
        assert(values_view(vals).drop_first() =~= values_view(vals.drop_first()));
        assert(values_view(vals)[0] == (vals[0].0@, vals[0].1@));
        lemma_view_get(vals.drop_first(), k);
        if vals[0].0@ != k {
            if let Some(i) = find_key(vals.drop_first(), k) {
                lemma_find_key_bounds(vals.drop_first(), k);
                assert(vals.drop_first()[i] == vals[i + 1]);
            }
        }
    }
}

/// A row as the table it belongs to and its named values.
pub struct RowView {
    pub table: Option<Seq<char>>,
    pub values: Seq<(Seq<char>, ValueView)>,
}

/// The views of a list of rows.
pub open spec fn rows_view(rows: Seq<DBRow>) -> Seq<RowView> {
    rows.map_values(|r: DBRow| r@)
}

impl View for DBRow {
    type V = RowView;

    open spec fn view(&self) -> RowView {
        RowView {
            table: match self.spec_table() {
                Some(t) => Some(t@),
                None => None,
            },
            values: values_view(self.spec_values()),
        }
    }
}

/// After appending an entry named `k`, the first entry named `k` is the one that was first
/// before, or the appended one where there was none: `get` after `insert` answers the value
/// that was there, else the inserted one.
pub proof fn law_get_after_insert(vals: Seq<(String, SqlValue)>, k: String, v: SqlValue)
    ensures
        find_key(vals.push((k, v)), k@) == match find_key(vals, k@) {
            Some(i) => Some(i),
            None => Some(vals.len() as int),
        },
{
    let n = vals.push((k, v));
    lemma_find_key_bounds(vals, k@);
    match find_key(vals, k@) {
        Some(i) => {
            assert forall|j: int| 0 <= j < i implies (#[trigger] n[j]).0@ != k@ by {
                assert(n[j] == vals[j]);
            }
            assert(n[i] == vals[i]);
            lemma_find_key(n, k@, i);
        },
        None => {
            assert forall|j: int| 0 <= j < vals.len() implies (#[trigger] vals[j]).0@ != k@ by {
                if vals[j].0@ == k@ {
                    lemma_first_key(vals, k@, j);
                }
            }
            assert forall|j: int| 0 <= j < vals.len() implies (#[trigger] n[j]).0@ != k@ by {
                assert(n[j] == vals[j]);
            }
            lemma_find_key(n, k@, vals.len() as int);
        },
    }
}

/// Where an entry is named `k`, some entry named `k` is found.
proof fn lemma_first_key(vals: Seq<(String, SqlValue)>, k: Seq<char>, m: int)
    requires
        0 <= m < vals.len(),
        vals[m].0@ == k,
    ensures
        find_key(vals, k) is Some,
    decreases m,
{
    if m > 0 && vals[0].0@ != k {
        assert(vals.drop_first()[m - 1] == vals[m]);
        lemma_first_key(vals.drop_first(), k, m - 1);
    }
}

/// In a row with at most one entry named `k`, `set(k, v)` followed by `get(k)` answers `v`:
/// the new last entry is the only one of that name.
pub proof fn law_get_after_set(
    old_vals: Seq<(String, SqlValue)>,
    new_vals: Seq<(String, SqlValue)>,
    k: Seq<char>,
    v: SqlValue,
)
    requires
        forall|i: int, j: int|
            0 <= i < j < old_vals.len() ==> !((#[trigger] old_vals[i]).0@ == k && (
            #[trigger] old_vals[j]).0@ == k),
        new_vals.len() >= 1,
        new_vals.last().0@ == k,
        new_vals.last().1 == v,
        match find_key(old_vals, k) {
            Some(i) => new_vals.drop_last() == old_vals.remove(i),
            None => new_vals.drop_last() == old_vals,
        },
    ensures
        find_key(new_vals, k) == Some((new_vals.len() - 1) as int),
        new_vals[new_vals.len() - 1].1 == v,
{
    lemma_find_key_bounds(old_vals, k);
    let last = new_vals.len() - 1;
    assert forall|j: int| 0 <= j < last implies (#[trigger] new_vals[j]).0@ != k by {
        assert(new_vals[j] == new_vals.drop_last()[j]);
        match find_key(old_vals, k) {
            Some(i) => {
                let r = old_vals.remove(i);
                assert(new_vals.drop_last().len() == r.len());
                if j < i {
                    assert(r[j] == old_vals[j]);
                } else {
                    assert(r[j] == old_vals[j + 1]);
                    assert(old_vals[i].0@ == k);
                    assert(!(old_vals[i].0@ == k && old_vals[j + 1].0@ == k));
                }
            },
            None => {
                if new_vals[j].0@ == k {
                    lemma_first_key(old_vals, k, j);
                }
            },
        }
    }
    lemma_find_key(new_vals, k, last);
}

/// A row: the table it belongs to and its named values in order.
#[derive(Clone)]
pub struct DBRow {
    table: Option<String>,
    values: Vec<(String, SqlValue)>,
}

impl DBRow {
    pub closed spec fn spec_table(&self) -> Option<String> {
        self.table
    }

    /// The named values, in insertion order.
    pub closed spec fn spec_values(&self) -> Seq<(String, SqlValue)> {
        self.values@
    }

    /// An empty row of table `table`.
    pub fn new(table: &str) -> (r: DBRow)
        ensures
            r.spec_table() matches Some(t) && t@ == table@,
            r.spec_values() == Seq::<(String, SqlValue)>::empty(),
    {
        DBRow { table: Some(table.to_owned()), values: Vec::new() }
    }

    fn find(&self, k: &str) -> (r: Option<usize>)
        ensures
            match r {
                Some(i) => find_key(self.spec_values(), k@) == Some(i as int),
                None => find_key(self.spec_values(), k@) == None::<int>,
            },
            r matches Some(i) ==> i < self.spec_values().len(),
    {
        let mut i: usize = 0;
        while i < self.values.len()
            invariant
                i <= self.values@.len(),
                forall|j: int| 0 <= j < i ==> (#[trigger] self.values@[j]).0@ != k@,
            decreases self.values.len() - i,
        {
            if str_eq(self.values[i].0.as_str(), k) {
                proof {
                    lemma_find_key(self.values@, k@, i as int);
                }
                return Some(i);
            }
            i = i + 1;
        }
        proof {
            lemma_find_key(self.values@, k@, i as int);
        }
        None
    }

    /// The value of the first entry named `k`.
    pub fn get(&self, k: &str) -> (r: Option<&SqlValue>)
        ensures
            match find_key(self.spec_values(), k@) {
                Some(i) => r == Some(&self.spec_values()[i].1),
                None => r is None,
            },
    {
        match self.find(k) {
            Some(i) => Some(&self.values[i].1),
            None => None,
        }
    }

    /// Appends an entry, even where the name is already present.
    pub fn insert(&mut self, k: String, v: SqlValue)
        ensures
            final(self).spec_values() == old(self).spec_values().push((k, v)),
            final(self).spec_table() == old(self).spec_table(),
    {
        self.values.push((k, v));
    }

    /// The names of all entries, in order.
    pub fn keys(&self) -> (r: Vec<String>)
        ensures
            r@.len() == self.spec_values().len(),
            forall|i: int| 0 <= i < r@.len() ==> #[trigger] r@[i]@ == self.spec_values()[i].0@,
    {
        let mut r: Vec<String> = Vec::new();
        let mut i: usize = 0;
        while i < self.values.len()
            invariant
                i <= self.values@.len(),
                r@.len() == i,
                forall|j: int| 0 <= j < i ==> #[trigger] r@[j]@ == self.values@[j].0@,
            decreases self.values.len() - i,
        {
            r.push(self.values[i].0.clone());
            i = i + 1;
        }
        r
    }

    pub fn contains_key(&self, k: &str) -> (r: bool)
        ensures
            r == find_key(self.spec_values(), k@) is Some,
    {
        self.find(k).is_some()
    }

    /// The position of the first entry named `k`.
    pub fn index(&self, k: &str) -> (r: Option<usize>)
        ensures
            match r {
                Some(i) => find_key(self.spec_values(), k@) == Some(i as int),
                None => find_key(self.spec_values(), k@) == None::<int>,
            },
    {
        self.find(k)
    }

    /// Removes the first entry named `k`, if there is one.
    pub fn remove(&mut self, k: &str)
        ensures
            final(self).spec_table() == old(self).spec_table(),
            match find_key(old(self).spec_values(), k@) {
                Some(i) => final(self).spec_values() == old(self).spec_values().remove(i),
                None => final(self).spec_values() == old(self).spec_values(),
            },
    {
        if let Some(pos) = self.find(k) {
            self.values.remove(pos);
        }
    }

    /// Replaces the first entry named `k` by a last entry `(k, v)`.
    pub fn set(&mut self, k: &str, v: SqlValue)
        ensures
            final(self).spec_table() == old(self).spec_table(),
            final(self).spec_values().len() >= 1,
            final(self).spec_values().last().0@ == k@,
            final(self).spec_values().last().1 == v,
            match find_key(old(self).spec_values(), k@) {
                Some(i) => final(self).spec_values().drop_last() == old(self).spec_values().remove(i),
                None => final(self).spec_values().drop_last() == old(self).spec_values(),
            },
    {
        self.remove(k);
        let ghost mid = self.values@;
        self.values.push((k.to_owned(), v));
        assert(self.values@.drop_last() =~= mid);
    }

    pub fn get_at(&self, idx: usize) -> (r: &SqlValue)
        requires
            idx < self.spec_values().len(),
        ensures
            *r == self.spec_values()[idx as int].1,
    {
        &self.values[idx].1
    }

    pub fn len(&self) -> (r: usize)
        ensures
            r == self.spec_values().len(),
    {
        self.values.len()
    }

    pub fn key_at(&self, idx: usize) -> (r: &str)
        requires
            idx < self.spec_values().len(),
        ensures
            r@ == self.spec_values()[idx as int].0@,
    {
        self.values[idx].0.as_str()
    }

    /// The name of the row's table; the row must have one.
    pub fn table(&self) -> (r: &str)
        requires
            self.spec_table() is Some,
        ensures
            r@ == self.spec_table()->0@,
    {
        match &self.table {
            Some(t) => t.as_str(),
            None => "",
        }
    }

    /// The names of the entries as "<a,b,c>" (just ">" for a row without entries).
    pub fn display_text(&self) -> (r: String)
        ensures
            r@ == row_text(self.spec_values()),
    {
        let mut r = String::new();
        let mut i: usize = 0;
        while i < self.values.len()
            invariant
                i <= self.values@.len(),
                r@ == names_text(self.values@.take(i as int)),
            decreases self.values.len() - i,
        {
            proof {
                assert(self.values@.take(i + 1).drop_last() =~= self.values@.take(i as int));
            }
            if i == 0 {
                crate::text::push_char(&mut r, '<');
            } else {
                crate::text::push_char(&mut r, ',');
            }
            r.append(self.values[i].0.as_str());
            i = i + 1;
        }
        proof {
            assert(self.values@.take(self.values@.len() as int) =~= self.values@);
        }
        crate::text::push_char(&mut r, '>');
        r
    }
}

/// "<a,b" for names a, b (empty for no names).
pub open spec fn names_text(vals: Seq<(String, SqlValue)>) -> Seq<char>
    decreases vals.len(),
{
    if vals.len() == 0 {
        seq![]
    } else {
        names_text(vals.drop_last()) + (if vals.len() == 1 {
            seq!['<']
        } else {
            seq![',']
        }) + vals.last().0@
    }
}

pub open spec fn row_text(vals: Seq<(String, SqlValue)>) -> Seq<char> {
    names_text(vals).push('>')
}

/// The texts of the names of a row's entries.
pub open spec fn value_names(vals: Seq<(String, SqlValue)>) -> Seq<Seq<char>> {
    Seq::new(vals.len(), |i: int| vals[i].0@)
}

/// "INSERT INTO t(a,b) VALUES (?,?)" for a row with entries a, b.
pub open spec fn insert_sql(table: Seq<char>, vals: Seq<(String, SqlValue)>) -> Seq<char> {
    "INSERT INTO "@ + table + "("@ + joined(value_names(vals), ","@) + ") VALUES ("@ + joined(
        Seq::new(vals.len(), |i: int| "?"@),
        ","@,
    ) + ")"@
}

/// The names of `key` for which the row has an entry, in key order.
pub open spec fn present_keys(key: Seq<Seq<char>>, vals: Seq<(String, SqlValue)>) -> Seq<Seq<char>>
    decreases key.len(),
{
    if key.len() == 0 {
        seq![]
    } else {
        let r = present_keys(key.drop_last(), vals);
        if find_key(vals, key.last()) is Some {
            r.push(key.last())
        } else {
            r
        }
    }
}

/// The values of the first entries of the present key names, in key order.
pub open spec fn key_values(key: Seq<Seq<char>>, vals: Seq<(String, SqlValue)>) -> Seq<SqlValue>
    decreases key.len(),
{
    if key.len() == 0 {
        seq![]
    } else {
        let r = key_values(key.drop_last(), vals);
        match find_key(vals, key.last()) {
            Some(i) => r.push(vals[i].1),
            None => r,
        }
    }
}

/// "UPDATE t SET a = ?,b = ? WHERE k = ? AND ..." for the entries of the row and the key
/// names for which the row has an entry.
pub open spec fn update_sql(table: Seq<char>, key: Seq<Seq<char>>, vals: Seq<(String, SqlValue)>) -> Seq<
    char,
> {
    let pk = present_keys(key, vals);
    "UPDATE "@ + table + " SET "@ + joined(
        Seq::new(vals.len(), |i: int| vals[i].0@ + " = ?"@),
        ","@,
    ) + " WHERE "@ + joined(Seq::new(pk.len(), |i: int| pk[i] + " = ?"@), " AND "@)
}

/// The values of `b` are the same values as those of `a`.
pub open spec fn same_values(a: Seq<SqlValue>, b: Seq<SqlValue>) -> bool {
    a.len() == b.len() && forall|i: int| 0 <= i < a.len() ==> same_value(#[trigger] a[i], b[i])
}

/// The INSERT statement for a row, and the values for its placeholders.
pub fn create_insert_statement_from(table_name: &str, row: &DBRow) -> (r: (String, Vec<SqlValue>))
    ensures
        r.0@ == insert_sql(table_name@, row.spec_values()),
        same_values(r.1@, Seq::new(row.spec_values().len(), |i: int| row.spec_values()[i].1)),
{
    let mut sql = String::new();
    sql.append("INSERT INTO ");
    sql.append(table_name);
    sql.append("(");
    let names = row.keys();
    append_joined(&mut sql, &names, ",");
    sql.append(") VALUES (");
    let mut marks: Vec<String> = Vec::new();
    let mut params: Vec<SqlValue> = Vec::new();
    let mut i: usize = 0;
    while i < row.values.len()
        invariant
            i <= row.values@.len(),
            marks@.len() == i,
            params@.len() == i,
            forall|j: int| 0 <= j < i ==> #[trigger] marks@[j]@ == "?"@,
            forall|j: int| 0 <= j < i ==> same_value(#[trigger] params@[j], row.values@[j].1),
        decreases row.values.len() - i,
    {
        marks.push("?".to_owned());
        params.push(row.values[i].1.duplicate());
        i = i + 1;
    }
    append_joined(&mut sql, &marks, ",");
    sql.append(")");
    proof {
        assert(texts(names@) =~= value_names(row.values@));
        assert(texts(marks@) =~= Seq::new(row.values@.len(), |i: int| "?"@));
        assert(sql@ =~= insert_sql(table_name@, row.values@));
    }
    (sql, params)
}

/// The UPDATE statement for a row under the given key names, and the values for its
/// placeholders: those of the row, then those of the present key names.
pub fn create_update_statement_from(table_name: &str, key: &[String], row: &DBRow) -> (r: (
    String,
    Vec<SqlValue>,
))
    ensures
        r.0@ == update_sql(table_name@, texts(key@), row.spec_values()),
        same_values(
            r.1@,
            Seq::new(row.spec_values().len(), |i: int| row.spec_values()[i].1) + key_values(
                texts(key@),
                row.spec_values(),
            ),
        ),
{
    let ghost vals = row.values@;
    let mut sql = String::new();
    sql.append("UPDATE ");
    sql.append(table_name);
    sql.append(" SET ");
    let mut sets: Vec<String> = Vec::new();
    let mut params: Vec<SqlValue> = Vec::new();
    let mut i: usize = 0;
    while i < row.values.len()
        invariant
            i <= vals.len(),
            vals == row.values@,
            sets@.len() == i,
            params@.len() == i,
            forall|j: int| 0 <= j < i ==> #[trigger] sets@[j]@ == vals[j].0@ + " = ?"@,
            forall|j: int| 0 <= j < i ==> same_value(#[trigger] params@[j], vals[j].1),
        decreases row.values.len() - i,
    {
        let mut t = row.values[i].0.clone();
        t.append(" = ?");
        sets.push(t);
        params.push(row.values[i].1.duplicate());
        i = i + 1;
    }
    append_joined(&mut sql, &sets, ",");
    sql.append(" WHERE ");
    let ghost kt = texts(key@);
    let ghost p0 = params@;
    let mut conds: Vec<String> = Vec::new();
    let mut k: usize = 0;
    while k < key.len()
        invariant
            k <= key@.len(),
            kt == texts(key@),
            vals == row.values@,
            p0.len() == vals.len(),
            conds@.len() == present_keys(kt.take(k as int), vals).len(),
            forall|j: int|
                0 <= j < conds@.len() ==> #[trigger] conds@[j]@ == present_keys(
                    kt.take(k as int),
                    vals,
                )[j] + " = ?"@,
            same_values(params@, p0 + key_values(kt.take(k as int), vals)),
        decreases key.len() - k,
    {
        proof {
            assert(kt.take(k + 1).drop_last() =~= kt.take(k as int));
            assert(kt.take(k + 1).last() == key@[k as int]@);
        }
        match row.find(key[k].as_str()) {
            Some(pos) => {
                let mut t = key[k].clone();
                t.append(" = ?");
                conds.push(t);
                params.push(row.values[pos].1.duplicate());
                proof {
                    let kv = key_values(kt.take(k + 1), vals);
                    assert(kv == key_values(kt.take(k as int), vals).push(vals[pos as int].1));
                    assert(p0 + kv =~= (p0 + key_values(kt.take(k as int), vals)).push(
                        vals[pos as int].1,
                    ));
                }
            },
            None => {},
        }
        k = k + 1;
    }
    append_joined(&mut sql, &conds, " AND ");
    proof {
        assert(kt.take(key@.len() as int) =~= kt);
        let pk = present_keys(kt, vals);
        assert(texts(sets@) =~= Seq::new(vals.len(), |i: int| vals[i].0@ + " = ?"@));
        assert(texts(conds@) =~= Seq::new(pk.len(), |i: int| pk[i] + " = ?"@));
        assert(sql@ =~= update_sql(table_name@, kt, vals));
        assert(p0 =~= Seq::new(vals.len(), |i: int| vals[i].1) ==> true);
        assert forall|j: int| 0 <= j < vals.len() implies same_value(
            #[trigger] p0[j],
            Seq::new(vals.len(), |i: int| vals[i].1)[j],
        ) by {}
    }
    (sql, params)
}

/// "CREATE TABLE t (a string,b int,primary key (a) );" for a table t with fields a and b
/// of which a is its key.
pub open spec fn create_table_sql(name: Seq<char>, fields: Seq<crate::data::model::Field>) -> Seq<
    char,
> {
    "CREATE TABLE "@ + name + " ("@ + joined(
        Seq::new(fields.len(), |i: int| fields[i].name@ + " "@ + fields[i].datatype@ + ","@),
        ""@,
    ) + "primary key ("@ + joined(key_names(fields), ","@) + ") );"@
}

/// The CREATE TABLE statement of a table of the data model.
pub fn build_create_table(t: &Table) -> (r: String)
    ensures
        r@ == create_table_sql(t.spec_name(), t.spec_fields()),
{
    let mut sql = String::new();
    sql.append("CREATE TABLE ");
    sql.append(t.name());
    sql.append(" (");
    let fields = t.fields();
    let mut cols: Vec<String> = Vec::new();
    let mut i: usize = 0;
    while i < fields.len()
        invariant
            i <= fields@.len(),
            fields@ == t.spec_fields(),
            cols@.len() == i,
            forall|j: int|
                0 <= j < i ==> #[trigger] cols@[j]@ == fields@[j].name@ + " "@ + fields@[j].datatype@
                    + ","@,
        decreases fields.len() - i,
    {
        let mut c = fields[i].name.clone();
        c.append(" ");
        c.append(fields[i].datatype.as_str());
        c.append(",");
        cols.push(c);
        i = i + 1;
    }
    append_joined(&mut sql, &cols, "");
    sql.append("primary key (");
    let keys = t.key();
    append_joined(&mut sql, &keys, ",");
    sql.append(") );");
    proof {
        assert(texts(cols@) =~= Seq::new(
            fields@.len(),
            |i: int| fields@[i].name@ + " "@ + fields@[i].datatype@ + ","@,
        ));
        assert(texts(keys@) =~= key_names(t.spec_fields()));
        assert(sql@ =~= create_table_sql(t.spec_name(), t.spec_fields()));
    }
    sql
}

/// A column of a table as the database describes it.
#[derive(Debug)]
pub struct DBField {
    pub name: String,
    pub datatype: String,
    pub default: Option<String>,
    pub key: bool,
    pub has_null: bool,
}

/// A table as the database describes it.
#[derive(Debug)]
pub struct DBTable {
    pub name: String,
    pub fields: Vec<DBField>,
}

/// The names of the key columns, in column order.
pub open spec fn db_key_names(fields: Seq<DBField>) -> Seq<Seq<char>>
    decreases fields.len(),
{
    if fields.len() == 0 {
        seq![]
    } else {
        let r = db_key_names(fields.drop_last());
        if fields.last().key {
            r.push(fields.last().name@)
        } else {
            r
        }
    }
}

impl DBTable {
    pub fn new(name: &str) -> (t: Self)
        ensures
            t.name@ == name@,
            t.fields@.len() == 0,
    {
        Self { name: name.to_owned(), fields: Vec::new() }
    }

    /// The names of the key columns, in column order.
    pub fn key(&self) -> (r: Vec<String>)
        ensures
            texts(r@) == db_key_names(self.fields@),
    {
        let mut r: Vec<String> = Vec::new();
        let mut i: usize = 0;
        while i < self.fields.len()
            invariant
                i <= self.fields@.len(),
                texts(r@) == db_key_names(self.fields@.take(i as int)),
            decreases self.fields.len() - i,
        {
            proof {
                assert(self.fields@.take(i + 1).drop_last() =~= self.fields@.take(i as int));
            }
            if self.fields[i].key {
                let ghost r0 = r@;
                r.push(self.fields[i].name.clone());
                assert(texts(r@) =~= texts(r0).push(self.fields@[i as int].name@));
            }
            i = i + 1;
        }
        proof {
            assert(self.fields@.take(self.fields@.len() as int) =~= self.fields@);
        }
        r
    }
}

/// One "ALTER TABLE t ADD COLUMN c" statement for each column c of the described table.
pub fn build_alter_table(t: &DBTable, t0: &Table) -> (r: Vec<String>)
    ensures
        r@.len() == t.fields@.len(),
        forall|i: int|
            0 <= i < r@.len() ==> #[trigger] r@[i]@ == "ALTER TABLE "@ + t.name@ + " "@
                + "ADD COLUMN "@ + t.fields@[i].name@,
{
    let mut result: Vec<String> = Vec::new();
    let mut i: usize = 0;
    while i < t.fields.len()
        invariant
            i <= t.fields@.len(),
            result@.len() == i,
            forall|j: int|
                0 <= j < i ==> #[trigger] result@[j]@ == "ALTER TABLE "@ + t.name@ + " "@
                    + "ADD COLUMN "@ + t.fields@[j].name@,
        decreases t.fields.len() - i,
    {
        let mut sql = String::new();
        sql.append("ALTER TABLE ");
        sql.append(t.name.as_str());
        sql.append(" ");
        sql.append("ADD COLUMN ");
        sql.append(t.fields[i].name.as_str());
        proof {
            assert(sql@ =~= "ALTER TABLE "@ + t.name@ + " "@ + "ADD COLUMN "@ + t.fields@[i as int].name@);
        }
        result.push(sql);
        i = i + 1;
    }
    result
}

/// Builds databases.
#[derive(Debug, Clone)]
pub struct DatabaseBuilder {}

impl DatabaseBuilder {
    pub fn new() -> (b: Self) {
        DatabaseBuilder {}
    }
}

/// The tables a database holds.
#[derive(Debug)]
pub struct DataDictionary {}

/// A column as the database reports it, with what changed of it.
#[derive(Debug, Clone)]
pub struct Field {
    name: String,
    datatype: String,
    key: bool,
    null: bool,
    exists: bool,
    changed: bool,
    default: Option<String>,
}

} // verus!
