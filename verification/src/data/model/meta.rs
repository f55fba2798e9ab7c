use vstd::prelude::*;

use crate::text::str_eq;

verus! {

/// A relation from the rows of one table (`from`) under a field `name` to another table.
#[derive(Debug, Clone)]
pub struct Relation {
    pub id: String,
    pub from: String,
    pub to: String,
    pub name: String,
    pub kind: RelationKind,
    /// Pairs of (field in `from`, field in `to`) whose values are copied.
    pub fields: Vec<(String, String)>,
}

#[derive(Debug, Clone)]
pub enum RelationKind {
    One,
    Many,
    ManyMany(String),
}

/// The relations of a data model.
#[derive(Debug, Clone)]
pub struct Meta {
    relations: Vec<Relation>,
}

/// The id of the relation named `name` from table `from`: "from:name".
pub open spec fn relation_id(from: Seq<char>, name: Seq<char>) -> Seq<char> {
    from + seq![':'] + name
}

/// `r` is the relation named `name` from `from`.
pub open spec fn relation_matches(r: Relation, from: Seq<char>, name: Seq<char>) -> bool {
    r.from@ == from && r.name@ == name
}

/// The first of `rels` that is named `name` from table `from`.
pub open spec fn find_relation(rels: Seq<Relation>, from: Seq<char>, name: Seq<char>) -> Option<
    Relation,
>
    decreases rels.len(),
{
    if rels.len() == 0 {
        None
    } else if relation_matches(rels[0], from, name) {
        Some(rels[0])
    } else {
        find_relation(rels.drop_first(), from, name)
    }
}

/// `find_relation` gives the first match when none stands before position `i`.
pub proof fn lemma_find_relation(rels: Seq<Relation>, from: Seq<char>, name: Seq<char>, i: int)
    requires
        0 <= i <= rels.len(),
        forall|j: int| 0 <= j < i ==> !relation_matches(#[trigger] rels[j], from, name),
    ensures
        i < rels.len() && relation_matches(rels[i], from, name) ==> find_relation(rels, from, name)
            == Some(rels[i]),
        i == rels.len() ==> find_relation(rels, from, name) is None,
    decreases i,
{
    if i > 0 {
        assert forall|j: int| 0 <= j < i - 1 implies !relation_matches(
            #[trigger] rels.drop_first()[j],
            from,
            name,
        ) by {
            assert(rels.drop_first()[j] == rels[j + 1]);
        }
        lemma_find_relation(rels.drop_first(), from, name, i - 1);
        assert(!relation_matches(rels[0], from, name));
        if i < rels.len() {
            assert(rels.drop_first()[i - 1] == rels[i]);
        }
    }
}

impl Meta {
    /// The relations, in the order they were defined.
    pub closed spec fn spec_relations(&self) -> Seq<Relation> {
        self.relations@
    }

    pub fn new() -> (m: Self)
        ensures
            m.spec_relations() == Seq::<Relation>::empty(),
    {
        Self { relations: Vec::new() }
    }

    /// Adds a relation without field mappings and returns its id "from:name".
    pub fn define_relation(&mut self, kind: RelationKind, from: &str, name: &str, to: &str) -> (id:
        String)
        ensures
            id@ == relation_id(from@, name@),
            final(self).spec_relations().len() == old(self).spec_relations().len() + 1,
            final(self).spec_relations().drop_last() == old(self).spec_relations(),
            final(self).spec_relations().last().id@ == id@,
            final(self).spec_relations().last().from@ == from@,
            final(self).spec_relations().last().to@ == to@,
            final(self).spec_relations().last().name@ == name@,
            final(self).spec_relations().last().kind == kind,
            final(self).spec_relations().last().fields@.len() == 0,
    {
        let mut id = from.to_owned();
        crate::text::push_char(&mut id, ':');
        id.append(name);
        let r = Relation {
            id: id.clone(),
            from: from.to_owned(),
            to: to.to_owned(),
            name: name.to_owned(),
            kind,
            fields: Vec::new(),
        };
        self.relations.push(r);
        assert(self.relations@.drop_last() =~= old(self).relations@);
        id
    }

    /// The first relation named `name` from table `from`.
    pub fn get_relation(&self, from: &str, name: &str) -> (r: Option<&Relation>)
        ensures
            match r {
                Some(rel) => exists|i: int|
                    0 <= i < self.spec_relations().len() && self.spec_relations()[i] == *rel
                        && relation_matches(*rel, from@, name@) && forall|j: int|
                        0 <= j < i ==> !relation_matches(
                            #[trigger] self.spec_relations()[j],
                            from@,
                            name@,
                        ),
                None => forall|j: int|
                    0 <= j < self.spec_relations().len() ==> !relation_matches(
                        #[trigger] self.spec_relations()[j],
                        from@,
                        name@,
                    ),
            },
            match r {
                Some(rel) => find_relation(self.spec_relations(), from@, name@) == Some(*rel),
                None => find_relation(self.spec_relations(), from@, name@) is None,
            },
    {
        let mut i: usize = 0;
        while i < self.relations.len()
            invariant
                i <= self.relations@.len(),
                forall|j: int|
                    0 <= j < i ==> !relation_matches(#[trigger] self.relations@[j], from@, name@),
            decreases self.relations.len() - i,
        {
            let x = &self.relations[i];
            if str_eq(x.from.as_str(), from) && str_eq(x.name.as_str(), name) {
                assert(self.spec_relations()[i as int] == *x);
                proof {
                    lemma_find_relation(self.relations@, from@, name@, i as int);
                }
                return Some(x);
            }
            i = i + 1;
        }
        proof {
            lemma_find_relation(self.relations@, from@, name@, i as int);
        }
        None
    }

    /// Adds the field pair (from_field, to_field) to the first relation with the given id;
    /// nothing changes where no relation has that id.
    pub fn map_field(&mut self, id: &str, from_field: &str, to_field: &str)
        ensures
            final(self).spec_relations().len() == old(self).spec_relations().len(),
            forall|j: int|
                0 <= j < old(self).spec_relations().len() && (#[trigger] old(
                    self,
                ).spec_relations()[j]).id@ != id@ ==> final(self).spec_relations()[j] == old(
                    self,
                ).spec_relations()[j],
            forall|j: int|
                0 <= j < old(self).spec_relations().len() && (#[trigger] old(
                    self,
                ).spec_relations()[j]).id@ == id@ ==> ({
                    let o = old(self).spec_relations()[j];
                    let n = final(self).spec_relations()[j];
                    &&& n.id == o.id && n.from == o.from && n.to == o.to && n.name == o.name
                        && n.kind == o.kind
                    &&& if forall|k: int|
                        0 <= k < j ==> (#[trigger] old(self).spec_relations()[k]).id@ != id@ {
                        n.fields@.len() == o.fields@.len() + 1 && n.fields@.drop_last()
                            == o.fields@ && n.fields@.last().0@ == from_field@
                            && n.fields@.last().1@ == to_field@
                    } else {
                        n == o
                    }
                }),
    {
        let mut i: usize = 0;
        while i < self.relations.len()
            invariant
                i <= self.relations@.len(),
                self.relations@ == old(self).relations@,
                forall|j: int| 0 <= j < i ==> (#[trigger] self.relations@[j]).id@ != id@,
            decreases self.relations.len() - i,
        {
            if str_eq(self.relations[i].id.as_str(), id) {
                let mut r = self.relations.remove(i);
                r.fields.push((from_field.to_owned(), to_field.to_owned()));
                self.relations.insert(i, r);
                assert(self.relations@ =~= old(self).relations@.update(i as int, r));
                proof {
                    let o = old(self).relations@[i as int];
                    assert(r.fields@.drop_last() =~= o.fields@);
                }
                return;
            }
            i = i + 1;
        }
    }
}

} // verus!
