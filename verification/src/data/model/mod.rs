use vstd::prelude::*;

use self::meta::Meta;

pub mod meta;

verus! {

/// A named set of tables together with the relations between them.
#[derive(Debug, Clone)]
pub struct DataModel {
    name: String,
    tables: Vec<Table>,
    meta: Meta,
}

impl DataModel {
    pub closed spec fn spec_name(&self) -> Seq<char> {
        self.name@
    }

    /// The tables, in the order they were added.
    pub closed spec fn spec_tables(&self) -> Seq<Table> {
        self.tables@
    }

    pub closed spec fn spec_meta(&self) -> Meta {
        self.meta
    }

    pub fn new(name: &str) -> (m: Self)
        ensures
            m.spec_name() == name@,
            m.spec_tables() == Seq::<Table>::empty(),
            m.spec_meta().spec_relations() == Seq::<meta::Relation>::empty(),
    {
        Self { name: name.to_owned(), tables: Vec::new(), meta: Meta::new() }
    }

    /// The model with `tab` added as its last table.
    pub fn table(self, tab: Table) -> (m: Self)
        ensures
            m.spec_name() == self.spec_name(),
            m.spec_meta() == self.spec_meta(),
            m.spec_tables() == self.spec_tables().push(tab),
    {
        let mut s = self;
        s.tables.push(tab);
        s
    }

    /// The tables, first added first.
    pub fn tables(&self) -> (r: std::slice::Iter<'_, Table>)
        ensures
            vstd::std_specs::slice::into_iter_elts(r) == self.spec_tables(),
    {
        let r = self.tables.as_slice().iter();
        proof {
            broadcast use vstd::std_specs::slice::axiom_spec_slice_iter;
        }
        r
    }

    pub fn name(&self) -> (r: &str)
        ensures
            r@ == self.spec_name(),
    {
        self.name.as_str()
    }

    pub fn meta(&self) -> (r: &Meta)
        ensures
            *r == self.spec_meta(),
    {
        &self.meta
    }

    pub fn set_meta(&mut self, meta: Meta)
        ensures
            final(self).spec_meta() == meta,
            final(self).spec_name() == old(self).spec_name(),
            final(self).spec_tables() == old(self).spec_tables(),
    {
        self.meta = meta;
    }
}

/// A table of a data model: its name and its fields.
#[derive(Debug, Clone)]
pub struct Table {
    name: String,
    fields: Vec<Field>,
}

/// The names of the key fields, in field order.
pub open spec fn key_names(fields: Seq<Field>) -> Seq<Seq<char>>
    decreases fields.len(),
{
    if fields.len() == 0 {
        seq![]
    } else {
        let r = key_names(fields.drop_last());
        if fields.last().key {
            r.push(fields.last().name@)
        } else {
            r
        }
    }
}

impl Table {
    pub closed spec fn spec_name(&self) -> Seq<char> {
        self.name@
    }

    /// The fields, in the order they were added.
    pub closed spec fn spec_fields(&self) -> Seq<Field> {
        self.fields@
    }

    pub fn new(name: &str) -> (t: Self)
        ensures
            t.spec_name() == name@,
            t.spec_fields() == Seq::<Field>::empty(),
    {
        Self { name: name.to_owned(), fields: Vec::new() }
    }

    /// The table with a field `arg` of the given data type added last.
    pub fn field(self, arg: &str, key: bool, datatype: &str) -> (t: Self)
        ensures
            t.spec_name() == self.spec_name(),
            t.spec_fields().len() == self.spec_fields().len() + 1,
            t.spec_fields().drop_last() == self.spec_fields(),
            t.spec_fields().last().name@ == arg@,
            t.spec_fields().last().key == key,
            t.spec_fields().last().datatype@ == datatype@,
    {
        let mut s = self;
        s.fields.push(Field { name: arg.to_owned(), key, datatype: datatype.to_owned() });
        assert(s.fields@.drop_last() =~= self.fields@);
        s
    }

    pub fn name(&self) -> (r: &str)
        ensures
            r@ == self.spec_name(),
    {
        self.name.as_str()
    }

    pub fn fields(&self) -> (r: &[Field])
        ensures
            r@ == self.spec_fields(),
    {
        self.fields.as_slice()
    }

    /// The names of the key fields, in field order.
    pub fn key(&self) -> (r: Vec<String>)
        ensures
            r@.len() == key_names(self.spec_fields()).len(),
            forall|i: int| 0 <= i < r@.len() ==> #[trigger] r@[i]@ == key_names(self.spec_fields())[i],
    {
        let mut r: Vec<String> = Vec::new();
        let mut i: usize = 0;
        while i < self.fields.len()
            invariant
                i <= self.fields@.len(),
                r@.len() == key_names(self.fields@.take(i as int)).len(),
                forall|k: int|
                    0 <= k < r@.len() ==> #[trigger] r@[k]@ == key_names(self.fields@.take(i as int))[k],
            decreases self.fields.len() - i,
        {
            proof {
                assert(self.fields@.take(i + 1).drop_last() =~= self.fields@.take(i as int));
            }
            if self.fields[i].key {
                r.push(self.fields[i].name.clone());
            }
            i = i + 1;
        }
        proof {
            assert(self.fields@.take(self.fields@.len() as int) =~= self.fields@);
        }
        r
    }
}

/// A field of a table.
#[derive(Debug, Clone)]
pub struct Field {
    pub name: String,
    pub key: bool,
    pub datatype: String,
}

impl Field {
    /// A field of data type "string".
    pub fn new(name: &str, key: bool) -> (f: Self)
        ensures
            f.name@ == name@,
            f.key == key,
            f.datatype@ == "string"@,
    {
        Self { name: name.to_owned(), datatype: "string".to_owned(), key }
    }
}

} // verus!
