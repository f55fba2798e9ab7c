use tt_rust::data::model::meta::{Meta, RelationKind};
use tt_rust::data::model::DataModel;
use tt_rust::dbx::ser::err::Error;
use tt_rust::dbx::ser::{serialize_row, CopyRule, CopyRuleLib, FieldCopyRule, SerElement};
use tt_rust::dbx::SqlValue;

fn text(s: &str) -> SerElement {
    SerElement::Value(SqlValue::from(s))
}

fn row(name: &str, fields: Vec<(&str, SerElement)>) -> SerElement {
    SerElement::Row(
        name.to_string(),
        fields.into_iter().map(|(k, v)| (k.to_string(), v)).collect(),
    )
}

/// What serializing the person "Lizzy" of the order test gives.
fn lizzy() -> SerElement {
    row(
        "Person",
        vec![
            ("personid", text("#2")),
            ("name", text("Lizzy")),
            ("gender", text("Female")),
            ("age", SerElement::Value(SqlValue::from(21u64))),
            (
                "communications",
                SerElement::Sequence(vec![row(
                    "Communication.EMail",
                    vec![("personid", text("")), ("address", text("ab@c.de"))],
                )]),
            ),
            ("identification", row("map", vec![("X", text("Y"))])),
        ],
    )
}

fn order_model() -> DataModel {
    let mut model = DataModel::new("order");
    let mut meta = Meta::new();
    let rel = meta.define_relation(RelationKind::One, "Order", "sold_to", "Person");
    meta.map_field(rel.as_str(), "sold_to_id", "personid");
    let rel = meta.define_relation(RelationKind::Many, "Person", "communications", "EMail");
    meta.map_field(rel.as_str(), "personid", "personid");
    model.set_meta(meta);
    model
}

#[test]
fn order_serializer() {
    let o = row("Order", vec![("number", text("#100")), ("sold_to", lizzy())]);
    let _rule = CopyRule::new(vec![]);
    let model = order_model();

    let rs = serialize_row(&model, &o).unwrap();
    assert_eq!(4, rs.len());
    for r in rs.iter() {
        match r.table() {
            "Order" => {
                assert!(r.get("sold_to_id") == Some(&SqlValue::from("#2")));
            }
            "Person" => {}
            "Communication.EMail" => {}
            "map" => {}
            _ => panic!("unknown row type {}", r.table()),
        }
    }
}

#[test]
fn rows_come_in_order() {
    let o = row("Order", vec![("number", text("#100")), ("sold_to", lizzy())]);
    let rs = serialize_row(&order_model(), &o).unwrap();
    let tables: Vec<&str> = rs.iter().map(|r| r.table()).collect();
    assert_eq!(tables, vec!["Order", "Person", "Communication.EMail", "map"]);
    // the to-many relation copies the person's id into the e-mail row
    assert_eq!(rs[2].len(), 3);
    assert_eq!(rs[2].key_at(2), "personid");
    assert!(rs[2].get_at(2) == &SqlValue::from("#2"));
    // the first entry of that name is still the one the element gave
    assert!(rs[2].get("personid") == Some(&SqlValue::from("")));
    assert_eq!(rs[0].keys(), vec!["number".to_string(), "sold_to_id".to_string()]);
}

#[test]
fn person_rows_without_relations() {
    let p = row(
        "Person",
        vec![
            ("personid", text("#1")),
            ("name", text("Peter Jaeckel")),
            ("gender", text("m")),
            ("age", SerElement::Value(SqlValue::from(53u64))),
            (
                "communications",
                SerElement::Sequence(vec![
                    row(
                        "Communication.EMail",
                        vec![("personid", text("")), ("address", text("a@bc.de"))],
                    ),
                    row(
                        "Communication.Phone",
                        vec![("personid", text("")), ("number", text("1234"))],
                    ),
                ]),
            ),
            ("identification", row("map", vec![("A", text("B"))])),
        ],
    );
    let model = DataModel::new("person");
    let rs = serialize_row(&model, &p).unwrap();
    assert_eq!(4, rs.len());
    let r = &rs[0];
    assert!(r.get("name") == Some(&SqlValue::from("Peter Jaeckel")));
    assert!(r.get("gender") == Some(&SqlValue::from("m")));
    assert!(r.get("age") == Some(&SqlValue::from(53u64)));
    assert_eq!(r.table(), "Person");
    assert_eq!(rs[1].table(), "Communication.EMail");
    assert_eq!(rs[2].table(), "Communication.Phone");
    assert_eq!(rs[3].table(), "map");
}

#[test]
fn empty_field_is_null() {
    let p = row("T", vec![("a", SerElement::Empty)]);
    let rs = p.as_rows(None, &Meta::new()).unwrap();
    assert_eq!(rs.len(), 1);
    assert!(rs[0].get("a") == Some(&SqlValue::Null));
}

#[test]
fn single_values_make_no_rows() {
    assert!(SerElement::Empty.as_rows(None, &Meta::new()).is_err());
    assert!(text("x").as_rows(None, &Meta::new()).is_err());
    assert!(row("T", vec![]).as_rows(Some("f"), &Meta::new()).is_err());
    let s = SerElement::Sequence(vec![]);
    assert_eq!(s.as_rows(Some("f"), &Meta::new()).unwrap().len(), 0);
}

#[test]
fn one_relation_needs_a_row() {
    let mut meta = Meta::new();
    meta.define_relation(RelationKind::One, "Order", "sold_to", "Person");
    let o = row("Order", vec![("sold_to", text("x"))]);
    let e = o.as_rows(None, &meta).err().unwrap();
    assert!(matches!(e, Error::Generic(_)));
    assert!(e.display_text().starts_with("sql ser error: "));
}

#[test]
fn one_relation_with_missing_field_fails() {
    let mut meta = Meta::new();
    let rel = meta.define_relation(RelationKind::One, "Order", "sold_to", "Person");
    meta.map_field(rel.as_str(), "sold_to_id", "nothere");
    let o = row("Order", vec![("sold_to", row("Person", vec![("personid", text("#2"))]))]);
    assert!(o.as_rows(None, &meta).is_err());
}

#[test]
fn many_many_links_rows() {
    let mut meta = Meta::new();
    let rel = meta.define_relation(
        RelationKind::ManyMany("member".to_string()),
        "Group",
        "people",
        "Person",
    );
    meta.map_field(rel.as_str(), "gid", "group");
    meta.map_field(rel.as_str(), "pid", "person");
    let g = row(
        "Group",
        vec![
            ("gid", text("g1")),
            (
                "people",
                SerElement::Sequence(vec![
                    row("Person", vec![("pid", text("p1"))]),
                    row("Person", vec![("pid", text("p2"))]),
                ]),
            ),
        ],
    );
    let rs = g.as_rows(None, &meta).unwrap();
    let tables: Vec<&str> = rs.iter().map(|r| r.table()).collect();
    assert_eq!(tables, vec!["Group", "Person", "member", "Person", "member"]);
    assert!(rs[2].get("group") == Some(&SqlValue::from("g1")));
    assert!(rs[2].get("person") == Some(&SqlValue::from("p1")));
    assert!(rs[4].get("person") == Some(&SqlValue::from("p2")));
    // a many-to-many value must be a sequence
    let bad = row("Group", vec![("people", row("Person", vec![]))]);
    assert!(bad.as_rows(None, &meta).is_err());
}

#[test]
fn copy_rule_library() {
    let mut lib = CopyRuleLib::new();
    lib.add(
        "a",
        CopyRule::new(vec![FieldCopyRule { source: "x".to_string(), target: "y".to_string() }]),
    );
    lib.add("a", CopyRule::new(vec![]));
    let r = CopyRule::new(vec![]).many_to_many("m", "t1", CopyRule::new(vec![]), "t2", CopyRule::new(vec![]));
    lib.add("b", r);
}
