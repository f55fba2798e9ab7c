use vstd::prelude::*;

use crate::dbx::{same_value, SqlValue};
use crate::text::{append_joined, joined, texts};

pub mod model;

verus! {

#[derive(Debug, Clone)]
pub enum Scalar {
    String(String),
}

impl Scalar {
    pub fn into_string(&self) -> (r: String)
        ensures
            self matches Scalar::String(s) && r == s,
    {
        match self {
            Scalar::String(s) => s.clone(),
        }
    }
}

/// One condition of a WHERE clause.
#[derive(Clone)]
pub enum WhereExpr {
    /// The field (first) equals the value (second).
    Equals(String, SqlValue),
}

/// A conjunction of conditions.
#[derive(Clone)]
pub struct WhereCondition {
    all: Vec<WhereExpr>,
}

pub open spec fn cond_field(e: WhereExpr) -> Seq<char> {
    match e {
        WhereExpr::Equals(f, _) => f@,
    }
}

pub open spec fn cond_value(e: WhereExpr) -> SqlValue {
    match e {
        WhereExpr::Equals(_, v) => v,
    }
}

/// " WHERE a = ? AND b = ?" for conditions on fields a, b; empty for no conditions.
pub open spec fn where_sql(conds: Seq<WhereExpr>) -> Seq<char> {
    if conds.len() == 0 {
        seq![]
    } else {
        " WHERE "@ + joined(Seq::new(conds.len(), |i: int| cond_field(conds[i]) + " = ?"@), " AND "@)
    }
}

/// "SELECT f1,f2 FROM table" followed by the WHERE clause of the conditions.
pub open spec fn select_sql(table: Seq<char>, fields: Seq<Seq<char>>, conds: Seq<WhereExpr>) -> Seq<
    char,
> {
    "SELECT "@ + joined(fields, ","@) + " FROM "@ + table + where_sql(conds)
}

/// `fld = 'value'` for each condition, the values written inline.
pub open spec fn inline_where_sql(conds: Seq<WhereExpr>) -> Seq<char> {
    if conds.len() == 0 {
        seq![]
    } else {
        " WHERE "@ + joined(
            Seq::new(
                conds.len(),
                |i: int|
                    cond_field(conds[i]) + " = '"@ + (match cond_value(conds[i]) {
                        SqlValue::Text(t) => t@,
                        _ => seq![],
                    }) + "'"@,
            ),
            " AND "@,
        )
    }
}

pub open spec fn all_text(conds: Seq<WhereExpr>) -> bool {
    forall|i: int| 0 <= i < conds.len() ==> cond_value(#[trigger] conds[i]) is Text
}

impl WhereCondition {
    /// The conditions, in the order they were added.
    pub closed spec fn spec_all(&self) -> Seq<WhereExpr> {
        self.all@
    }

    pub fn new() -> (r: Self)
        ensures
            r.spec_all() == Seq::<WhereExpr>::empty(),
    {
        Self { all: Vec::new() }
    }

    /// The condition with `expr` added last.
    pub fn and(self, expr: WhereExpr) -> (r: Self)
        ensures
            r.spec_all() == self.spec_all().push(expr),
    {
        let mut s = self;
        s.all.push(expr);
        s
    }

    /// The WHERE clause with a placeholder for each value.
    pub fn get_sql(&self) -> (r: String)
        ensures
            r@ == where_sql(self.spec_all()),
    {
        let mut sql = String::new();
        if self.all.len() > 0 {
            sql.append(" WHERE ");
            let mut items: Vec<String> = Vec::new();
            let mut i: usize = 0;
            while i < self.all.len()
                invariant
                    i <= self.all@.len(),
                    items@.len() == i,
                    forall|j: int|
                        0 <= j < i ==> #[trigger] items@[j]@ == cond_field(self.all@[j]) + " = ?"@,
                decreases self.all.len() - i,
            {
                match &self.all[i] {
                    WhereExpr::Equals(fld, _) => {
                        let mut t = fld.clone();
                        t.append(" = ?");
                        items.push(t);
                    },
                }
                i = i + 1;
            }
            append_joined(&mut sql, &items, " AND ");
            proof {
                assert(texts(items@) =~= Seq::new(
                    self.all@.len(),
                    |i: int| cond_field(self.all@[i]) + " = ?"@,
                ));
            }
        }
        sql
    }

    /// The values of the conditions, in order.
    pub fn get_params(&self) -> (r: Vec<SqlValue>)
        ensures
            r@.len() == self.spec_all().len(),
            forall|i: int|
                0 <= i < r@.len() ==> same_value(#[trigger] r@[i], cond_value(self.spec_all()[i])),
    {
        let mut p: Vec<SqlValue> = Vec::new();
        let mut i: usize = 0;
        while i < self.all.len()
            invariant
                i <= self.all@.len(),
                p@.len() == i,
                forall|j: int| 0 <= j < i ==> same_value(#[trigger] p@[j], cond_value(self.all@[j])),
            decreases self.all.len() - i,
        {
            match &self.all[i] {
                WhereExpr::Equals(_, v) => {
                    p.push(v.duplicate());
                },
            }
            i = i + 1;
        }
        p
    }

    /// The WHERE clause with the values written inline in quotes; every value must be text.
    pub fn literal_sql(&self) -> (r: String)
        requires
            all_text(self.spec_all()),
        ensures
            r@ == inline_where_sql(self.spec_all()),
    {
        let mut sql = String::new();
        if self.all.len() > 0 {
            sql.append(" WHERE ");
            let mut items: Vec<String> = Vec::new();
            let mut i: usize = 0;
            while i < self.all.len()
                invariant
                    i <= self.all@.len(),
                    all_text(self.all@),
                    items@.len() == i,
                    forall|j: int|
                        0 <= j < i ==> #[trigger] items@[j]@ == cond_field(self.all@[j]) + " = '"@
                            + (match cond_value(self.all@[j]) {
                            SqlValue::Text(t) => t@,
                            _ => seq![],
                        }) + "'"@,
                decreases self.all.len() - i,
            {
                assert(cond_value(self.all@[i as int]) is Text);
                match &self.all[i] {
                    WhereExpr::Equals(fld, v) => {
                        let mut t = fld.clone();
                        t.append(" = '");
                        match v {
                            SqlValue::Text(x) => t.append(x.as_str()),
                            _ => {},
                        }
                        t.append("'");
                        items.push(t);
                    },
                }
                i = i + 1;
            }
            append_joined(&mut sql, &items, " AND ");
            proof {
                assert(texts(items@) =~= Seq::new(
                    self.all@.len(),
                    |i: int|
                        cond_field(self.all@[i]) + " = '"@ + (match cond_value(self.all@[i]) {
                            SqlValue::Text(t) => t@,
                            _ => seq![],
                        }) + "'"@,
                ));
            }
        }
        sql
    }
}

/// A SELECT of some fields of one table under a condition.
#[derive(Clone)]
pub struct Query {
    table: String,
    fields: Vec<String>,
    condition: WhereCondition,
}

impl Query {
    pub closed spec fn spec_table(&self) -> Seq<char> {
        self.table@
    }

    pub closed spec fn spec_fields(&self) -> Seq<Seq<char>> {
        texts(self.fields@)
    }

    pub closed spec fn spec_condition(&self) -> WhereCondition {
        self.condition
    }

    pub fn new(table: &str, fields: Vec<&str>, condition: WhereCondition) -> (q: Self)
        ensures
            q.spec_table() == table@,
            q.spec_fields() == Seq::new(fields@.len(), |i: int| fields@[i]@),
            q.spec_condition() == condition,
    {
        let mut fs: Vec<String> = Vec::new();
        let mut i: usize = 0;
        while i < fields.len()
            invariant
                i <= fields@.len(),
                fs@.len() == i,
                forall|j: int| 0 <= j < i ==> #[trigger] fs@[j]@ == fields@[j]@,
            decreases fields.len() - i,
        {
            fs.push(fields[i].to_owned());
            i = i + 1;
        }
        let q = Self { table: table.to_owned(), fields: fs, condition };
        assert(q.spec_fields() =~= Seq::new(fields@.len(), |i: int| fields@[i]@));
        q
    }

    /// "SELECT f1,f2 FROM table WHERE a = ? AND ..." with a placeholder per condition.
    pub fn get_sql(&self) -> (r: String)
        ensures
            r@ == select_sql(self.spec_table(), self.spec_fields(), self.spec_condition().spec_all()),
    {
        let mut sql = String::new();
        sql.append("SELECT ");
        append_joined(&mut sql, &self.fields, ",");
        sql.append(" FROM ");
        sql.append(self.table.as_str());
        let cond = self.condition.get_sql();
        sql.append(cond.as_str());
        proof {
            assert(sql@ =~= select_sql(
                self.spec_table(),
                self.spec_fields(),
                self.spec_condition().spec_all(),
            ));
        }
        sql
    }

    /// The values that the placeholders of `get_sql` stand for, in order.
    pub fn get_params(&self) -> (r: Vec<SqlValue>)
        ensures
            r@.len() == self.spec_condition().spec_all().len(),
            forall|i: int|
                0 <= i < r@.len() ==> same_value(
                    #[trigger] r@[i],
                    cond_value(self.spec_condition().spec_all()[i]),
                ),
    {
        self.condition.get_params()
    }

    pub fn fields(&self) -> (r: &[String])
        ensures
            texts(r@) == self.spec_fields(),
    {
        self.fields.as_slice()
    }

    /// The SELECT with the condition values written inline; every value must be text.
    pub fn literal_sql(&self) -> (r: String)
        requires
            all_text(self.spec_condition().spec_all()),
        ensures
            r@ == "SELECT "@ + joined(self.spec_fields(), ","@) + " FROM "@ + self.spec_table()
                + inline_where_sql(self.spec_condition().spec_all()),
    {
        let mut sql = String::new();
        sql.append("SELECT ");
        append_joined(&mut sql, &self.fields, ",");
        sql.append(" FROM ");
        sql.append(self.table.as_str());
        let cond = self.condition.literal_sql();
        sql.append(cond.as_str());
        proof {
            assert(sql@ =~= "SELECT "@ + joined(self.spec_fields(), ","@) + " FROM "@
                + self.spec_table() + inline_where_sql(self.spec_condition().spec_all()));
        }
        sql
    }
}

} // verus!
