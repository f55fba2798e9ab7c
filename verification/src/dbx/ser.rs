use vstd::prelude::*;

use crate::data::model::meta::{find_relation, Meta, Relation, RelationKind};
use crate::data::model::DataModel;
use crate::dbx::{
    lemma_view_get, rows_view, values_view, view_get, DBRow, RowView, SqlValue, ValueView,
};
use err::Error;

pub mod err;

verus! {

/// A serialized value: nothing, a single value, a sequence, or a row of a table with its named
/// fields.
pub enum SerElement {
    Empty,
    Value(SqlValue),
    Sequence(Vec<SerElement>),
    Row(String, Vec<(String, SerElement)>),
}

/// The text of an optional `&str`.
pub open spec fn text_view(c: Option<&str>) -> Option<Seq<char>> {
    match c {
        Some(t) => Some(t@),
        None => None,
    }
}

/// An empty row of table `n`.
pub open spec fn empty_row(n: Seq<char>) -> RowView {
    RowView { table: Some(n), values: seq![] }
}

/// `r` with the entries `es` appended.
pub open spec fn with_values(r: RowView, es: Seq<(Seq<char>, ValueView)>) -> RowView {
    RowView { table: r.table, values: r.values + es }
}

/// The field pairs of a relation as texts: (from-field, to-field) when `forward`, else
/// (to-field, from-field).
pub open spec fn field_pairs(fields: Seq<(String, String)>, forward: bool) -> Seq<
    (Seq<char>, Seq<char>),
> {
    fields.map_values(
        |p: (String, String)|
            if forward {
                (p.0@, p.1@)
            } else {
                (p.1@, p.0@)
            },
    )
}

/// For each pair (destination, source) in order, the entry (destination, value of source in
/// `src`), appended to `acc`; `None` when `src` lacks a source.
pub open spec fn copied(
    src: Seq<(Seq<char>, ValueView)>,
    pairs: Seq<(Seq<char>, Seq<char>)>,
    acc: Seq<(Seq<char>, ValueView)>,
) -> Option<Seq<(Seq<char>, ValueView)>>
    decreases pairs.len(),
{
    if pairs.len() == 0 {
        Some(acc)
    } else {
        match view_get(src, pairs[0].1) {
            Some(v) => copied(src, pairs.drop_first(), acc.push((pairs[0].0, v))),
            None => None,
        }
    }
}

/// For each pair (field, target) in order, the entry (target, value of field in `a`, or else in
/// `b`), appended to `acc`; `None` when neither has the field.
pub open spec fn linked(
    a: Seq<(Seq<char>, ValueView)>,
    b: Seq<(Seq<char>, ValueView)>,
    pairs: Seq<(Seq<char>, Seq<char>)>,
    acc: Seq<(Seq<char>, ValueView)>,
) -> Option<Seq<(Seq<char>, ValueView)>>
    decreases pairs.len(),
{
    if pairs.len() == 0 {
        Some(acc)
    } else {
        let v = match view_get(a, pairs[0].0) {
            Some(x) => Some(x),
            None => view_get(b, pairs[0].0),
        };
        match v {
            Some(x) => linked(a, b, pairs.drop_first(), acc.push((pairs[0].1, x))),
            None => None,
        }
    }
}

/// The rows of an element, given the name of the enclosing field (`ctx`) and the relations of
/// the model; `None` where the element cannot be stored.
/// A row element gives its own row first, followed by the rows its fields produced; a sequence
/// gives the rows of its items in order.
pub open spec fn elem_rows(e: SerElement, ctx: Option<Seq<char>>, rels: Seq<Relation>) -> Option<
    Seq<RowView>,
>
    decreases e, 0nat,
{
    match e {
        SerElement::Sequence(s) => seq_rows(s@, ctx, rels, seq![]),
        SerElement::Row(n, fs) => match ctx {
            None => match fields_rows(fs@, n@, rels, (empty_row(n@), seq![])) {
                Some(st) => Some(seq![st.0] + st.1),
                None => None,
            },
            Some(_) => None,
        },
        _ => None,
    }
}

/// The rows of the items of `s` in order, appended to `acc`.
pub open spec fn seq_rows(
    s: Seq<SerElement>,
    ctx: Option<Seq<char>>,
    rels: Seq<Relation>,
    acc: Seq<RowView>,
) -> Option<Seq<RowView>>
    decreases s, 0nat,
{
    if s.len() == 0 {
        Some(acc)
    } else {
        match elem_rows(s[0], ctx, rels) {
            Some(r) => seq_rows(s.subrange(1, s.len() as int), ctx, rels, acc + r),
            None => None,
        }
    }
}

/// The state after the fields `fs` of a row of table `n`, in order, starting from `st`: the
/// row so far and the rows produced beside it.
pub open spec fn fields_rows(
    fs: Seq<(String, SerElement)>,
    n: Seq<char>,
    rels: Seq<Relation>,
    st: (RowView, Seq<RowView>),
) -> Option<(RowView, Seq<RowView>)>
    decreases fs, 0nat,
{
    if fs.len() == 0 {
        Some(st)
    } else {
        match entry_rows(fs[0].0@, fs[0].1, n, rels, st) {
            Some(st2) => fields_rows(fs.subrange(1, fs.len() as int), n, rels, st2),
            None => None,
        }
    }
}

/// The state after the field `k` with value `v` of a row of table `n`: by the first relation
/// of `n` named `k`, or as a plain field where there is none.
pub open spec fn entry_rows(
    k: Seq<char>,
    v: SerElement,
    n: Seq<char>,
    rels: Seq<Relation>,
    st: (RowView, Seq<RowView>),
) -> Option<(RowView, Seq<RowView>)>
    decreases v, 2nat,
{
    match find_relation(rels, n, k) {
        Some(rel) => match rel.kind {
            RelationKind::One => one_rows(v, rel.fields@, rels, st),
            RelationKind::Many => many_rows(v, rel.fields@, rels, st),
            RelationKind::ManyMany(t) => many_many_rows(v, t@, rel.fields@, rels, st),
        },
        None => field_rows(v, k, rels, st),
    }
}

/// A plain field: nothing becomes a null entry, a value an entry of the row; a sequence or a
/// row adds its rows beside.
pub open spec fn field_rows(
    v: SerElement,
    k: Seq<char>,
    rels: Seq<Relation>,
    st: (RowView, Seq<RowView>),
) -> Option<(RowView, Seq<RowView>)>
    decreases v, 1nat,
{
    match v {
        SerElement::Empty => Some((with_values(st.0, seq![(k, ValueView::Null)]), st.1)),
        SerElement::Value(x) => Some((with_values(st.0, seq![(k, x@)]), st.1)),
        _ => match elem_rows(v, None, rels) {
            Some(sub) => Some((st.0, st.1 + sub)),
            None => None,
        },
    }
}

/// A to-one relation: the value must be a row; its rows are added beside, and the row gets,
/// for each field pair (f, t), the entry f with the value of t in the first row beside.
pub open spec fn one_rows(
    v: SerElement,
    fields: Seq<(String, String)>,
    rels: Seq<Relation>,
    st: (RowView, Seq<RowView>),
) -> Option<(RowView, Seq<RowView>)>
    decreases v, 1nat,
{
    match v {
        SerElement::Row(_, _) => match elem_rows(v, None, rels) {
            Some(sub) => {
                let all = st.1 + sub;
                match copied(all[0].values, field_pairs(fields, true), seq![]) {
                    Some(es) => Some((with_values(st.0, es), all)),
                    None => None,
                }
            },
            None => None,
        },
        _ => None,
    }
}

/// A to-many relation: the value must be a sequence or a row; its rows are added beside, and
/// then every row beside gets, for each field pair (f, t), the entry t with the value of f in
/// the row.
pub open spec fn many_rows(
    v: SerElement,
    fields: Seq<(String, String)>,
    rels: Seq<Relation>,
    st: (RowView, Seq<RowView>),
) -> Option<(RowView, Seq<RowView>)>
    decreases v, 1nat,
{
    match v {
        SerElement::Sequence(_) | SerElement::Row(_, _) => match elem_rows(v, None, rels) {
            Some(sub) => {
                let all = st.1 + sub;
                if all.len() == 0 {
                    Some((st.0, all))
                } else {
                    match copied(st.0.values, field_pairs(fields, false), seq![]) {
                        Some(es) => Some((st.0, all.map_values(|r: RowView| with_values(r, es)))),
                        None => None,
                    }
                }
            },
            None => None,
        },
        _ => None,
    }
}

/// A many-to-many relation through table `t`: the value must be a sequence; see `link_rows`.
pub open spec fn many_many_rows(
    v: SerElement,
    t: Seq<char>,
    fields: Seq<(String, String)>,
    rels: Seq<Relation>,
    st: (RowView, Seq<RowView>),
) -> Option<(RowView, Seq<RowView>)>
    decreases v, 1nat,
{
    match v {
        SerElement::Sequence(s) => match link_rows(s@, st.0, t, fields, rels, st.1) {
            Some(rows) => Some((st.0, rows)),
            None => None,
        },
        _ => None,
    }
}

/// For each item of `s` in order: its rows, which must not be empty, followed by a row of table
/// `t` that links the row `rr` with the first of them (see `linked`), appended to `acc`.
pub open spec fn link_rows(
    s: Seq<SerElement>,
    rr: RowView,
    t: Seq<char>,
    fields: Seq<(String, String)>,
    rels: Seq<Relation>,
    acc: Seq<RowView>,
) -> Option<Seq<RowView>>
    decreases s, 0nat,
{
    if s.len() == 0 {
        Some(acc)
    } else {
        match elem_rows(s[0], None, rels) {
            Some(sub) => if sub.len() == 0 {
                None
            } else {
                match linked(rr.values, sub[0].values, field_pairs(fields, true), seq![]) {
                    Some(es) => link_rows(
                        s.subrange(1, s.len() as int),
                        rr,
                        t,
                        fields,
                        rels,
                        acc + sub + seq![RowView { table: Some(t), values: es }],
                    ),
                    None => None,
                }
            },
            None => None,
        }
    }
}

/// The state of a row under construction as a view.
pub open spec fn state_view(rr: DBRow, result: Seq<DBRow>) -> (RowView, Seq<RowView>) {
    (rr@, rows_view(result))
}

/// The result of a step as an optional state.
pub open spec fn step_view(r: Result<(), Error>, rr: DBRow, result: Seq<DBRow>) -> Option<
    (RowView, Seq<RowView>),
> {
    match r {
        Ok(_) => Some(state_view(rr, result)),
        Err(_) => None,
    }
}

/// The entries (destination, value of source in `src`) for the field pairs of `fields` (see
/// `field_pairs`).
fn copy_entries(src: &DBRow, fields: &Vec<(String, String)>, forward: bool) -> (r: Result<
    Vec<(String, SqlValue)>,
    Error,
>)
    ensures
        match r {
            Ok(es) => copied(src@.values, field_pairs(fields@, forward), seq![]) == Some(
                values_view(es@),
            ),
            Err(_) => copied(src@.values, field_pairs(fields@, forward), seq![]) is None,
        },
{
    let ghost pairs = field_pairs(fields@, forward);
    let mut es: Vec<(String, SqlValue)> = Vec::new();
    let mut i: usize = 0;
    assert(pairs.subrange(0, pairs.len() as int) =~= pairs);
    assert(values_view(es@) =~= Seq::<(Seq<char>, ValueView)>::empty());
    while i < fields.len()
        invariant
            i <= fields@.len(),
            pairs == field_pairs(fields@, forward),
            copied(src@.values, pairs, seq![]) == copied(
                src@.values,
                pairs.subrange(i as int, pairs.len() as int),
                values_view(es@),
            ),
        decreases fields.len() - i,
    {
        let (dest, source) = if forward {
            (&fields[i].0, &fields[i].1)
        } else {
            (&fields[i].1, &fields[i].0)
        };
        proof {
            lemma_view_get(src.spec_values(), source@);
            let rest = pairs.subrange(i as int, pairs.len() as int);
            assert(rest[0] == pairs[i as int]);
            assert(rest.drop_first() =~= pairs.subrange(i + 1, pairs.len() as int));
        }
        match src.get(source.as_str()) {
            Some(v) => {
                let ghost before = es@;
                es.push((dest.clone(), v.duplicate()));
                assert(values_view(es@) =~= values_view(before).push((dest@, v@)));
            },
            None => {
                return Err(Error::generic("a field could not be mapped"));
            },
        }
        i = i + 1;
    }
    proof {
        assert(pairs.subrange(i as int, pairs.len() as int) =~= Seq::<(Seq<char>, Seq<char>)>::empty());
    }
    Ok(es)
}

/// The row of table `t` that links `a` with `b`: for each field pair (f, t), the entry t with
/// the value of f in `a`, or else in `b`.
fn link_row(t: &String, a: &DBRow, b: &DBRow, fields: &Vec<(String, String)>) -> (r: Result<
    DBRow,
    Error,
>)
    ensures
        match r {
            Ok(row) => linked(a@.values, b@.values, field_pairs(fields@, true), seq![]) == Some(
                row@.values,
            ) && row@.table == Some(t@),
            Err(_) => linked(a@.values, b@.values, field_pairs(fields@, true), seq![]) is None,
        },
{
    let ghost pairs = field_pairs(fields@, true);
    let mut row = DBRow::new(t.as_str());
    let mut i: usize = 0;
    assert(pairs.subrange(0, pairs.len() as int) =~= pairs);
    assert(row@.values =~= Seq::<(Seq<char>, ValueView)>::empty());
    while i < fields.len()
        invariant
            i <= fields@.len(),
            pairs == field_pairs(fields@, true),
            row@.table == Some(t@),
            linked(a@.values, b@.values, pairs, seq![]) == linked(
                a@.values,
                b@.values,
                pairs.subrange(i as int, pairs.len() as int),
                row@.values,
            ),
        decreases fields.len() - i,
    {
        let fld = &fields[i].0;
        let target = &fields[i].1;
        proof {
            lemma_view_get(a.spec_values(), fld@);
            lemma_view_get(b.spec_values(), fld@);
            let rest = pairs.subrange(i as int, pairs.len() as int);
            assert(rest[0] == pairs[i as int]);
            assert(rest.drop_first() =~= pairs.subrange(i + 1, pairs.len() as int));
        }
        let v = match a.get(fld.as_str()) {
            Some(v0) => v0.duplicate(),
            None => match b.get(fld.as_str()) {
                Some(v0) => v0.duplicate(),
                None => {
                    return Err(Error::generic("a field could not be mapped"));
                },
            },
        };
        let ghost before = row@.values;
        row.insert(target.clone(), v);
        assert(row@.values =~= before.push((target@, v@)));
        i = i + 1;
    }
    proof {
        assert(pairs.subrange(i as int, pairs.len() as int) =~= Seq::<(Seq<char>, Seq<char>)>::empty());
    }
    Ok(row)
}

/// Appends the entries `es` to `row`.
fn append_entries(row: &mut DBRow, es: &Vec<(String, SqlValue)>)
    ensures
        final(row)@ == with_values(old(row)@, values_view(es@)),
{
    let mut i: usize = 0;
    while i < es.len()
        invariant
            i <= es@.len(),
            row@ == with_values(old(row)@, values_view(es@.take(i as int))),
        decreases es.len() - i,
    {
        let ghost before = row@.values;
        row.insert(es[i].0.clone(), es[i].1.duplicate());
        assert(values_view(es@.take(i + 1)) =~= values_view(es@.take(i as int)).push(
            (es@[i as int].0@, es@[i as int].1@),
        ));
        assert(row@.values =~= before.push((es@[i as int].0@, es@[i as int].1@)));
        i = i + 1;
    }
    assert(es@.take(es@.len() as int) =~= es@);
}

impl SerElement {
    /// Converts the element into the list of rows to be stored: a row element gives its own
    /// row first, followed by the rows its fields produced; a sequence gives the rows of its
    /// items in order. Fails where the element cannot be stored (see `elem_rows`).
    pub fn as_rows(&self, context: Option<&str>, meta: &Meta) -> (r: Result<Vec<DBRow>, Error>)
        ensures
            match r {
                Ok(rows) => elem_rows(*self, text_view(context), meta.spec_relations()) == Some(
                    rows_view(rows@),
                ),
                Err(_) => elem_rows(*self, text_view(context), meta.spec_relations()) is None,
            },
        decreases *self, 0nat,
    {
        let ghost rels = meta.spec_relations();
        match self {
            SerElement::Empty => Err(Error::generic("an empty value makes no rows")),
            SerElement::Value(_) => Err(Error::generic("a single value makes no rows")),
            SerElement::Sequence(s) => {
                let mut result: Vec<DBRow> = Vec::new();
                let mut i: usize = 0;
                proof {
                    assert(s@.subrange(0, s@.len() as int) =~= s@);
                    assert(rows_view(result@) =~= Seq::<RowView>::empty());
                }
                while i < s.len()
                    invariant
                        i <= s@.len(),
                        *self == SerElement::Sequence(*s),
                        rels == meta.spec_relations(),
                        seq_rows(s@, text_view(context), rels, seq![]) == seq_rows(
                            s@.subrange(i as int, s@.len() as int),
                            text_view(context),
                            rels,
                            rows_view(result@),
                        ),
                    decreases s.len() - i,
                {
                    proof {
                        let rest = s@.subrange(i as int, s@.len() as int);
                        assert(rest[0] == s@[i as int]);
                        assert(rest.subrange(1, rest.len() as int) =~= s@.subrange(
                            i + 1,
                            s@.len() as int,
                        ));
                    }
                    proof {
                        lemma_item_decreases(*self, i as int);
                    }
                    match s[i].as_rows(context, meta) {
                        Ok(rows) => {
                            let ghost before = result@;
                            let mut rows = rows;
                            let ghost added = rows@;
                            result.append(&mut rows);
                            assert(rows_view(result@) =~= rows_view(before) + rows_view(added));
                        },
                        Err(e) => {
                            return Err(e);
                        },
                    }
                    i = i + 1;
                }
                proof {
                    assert(s@.subrange(i as int, s@.len() as int) =~= Seq::<SerElement>::empty());
                }
                Ok(result)
            },
            SerElement::Row(n, r) => {
                if context.is_some() {
                    return Err(Error::generic("a row cannot stand inside a named field"));
                }
                let mut rr = DBRow::new(n.as_str());
                let mut result: Vec<DBRow> = Vec::new();
                let mut i: usize = 0;
                proof {
                    assert(r@.subrange(0, r@.len() as int) =~= r@);
                    assert(rows_view(result@) =~= Seq::<RowView>::empty());
                    assert(rr@.values =~= Seq::<(Seq<char>, ValueView)>::empty());
                }
                while i < r.len()
                    invariant
                        i <= r@.len(),
                        *self == SerElement::Row(*n, *r),
                        rels == meta.spec_relations(),
                        fields_rows(r@, n@, rels, (empty_row(n@), seq![])) == fields_rows(
                            r@.subrange(i as int, r@.len() as int),
                            n@,
                            rels,
                            state_view(rr, result@),
                        ),
                    decreases r.len() - i,
                {
                    proof {
                        let rest = r@.subrange(i as int, r@.len() as int);
                        assert(rest[0] == r@[i as int]);
                        assert(rest.subrange(1, rest.len() as int) =~= r@.subrange(
                            i + 1,
                            r@.len() as int,
                        ));
                    }
                    proof {
                        lemma_field_decreases(*self, i as int);
                    }
                    let step = handle_entry(&r[i].0, &r[i].1, n, meta, &mut rr, &mut result);
                    if step.is_err() {
                        return Err(Error::generic("a field could not be stored"));
                    }
                    i = i + 1;
                }
                proof {
                    assert(r@.subrange(i as int, r@.len() as int) =~= Seq::<
                        (String, SerElement),
                    >::empty());
                }
                let ghost before = result@;
                result.insert(0, rr);
                assert(rows_view(result@) =~= seq![rr@] + rows_view(before));
                Ok(result)
            },
        }
    }
}

/// One field `k` with value `v` of a row of table `n`: by the first relation of `n` named `k`,
/// or as a plain field where there is none.
fn handle_entry(
    k: &String,
    v: &SerElement,
    n: &String,
    meta: &Meta,
    rr: &mut DBRow,
    result: &mut Vec<DBRow>,
) -> (r: Result<(), Error>)
    ensures
        step_view(r, *final(rr), final(result)@) == entry_rows(
            k@,
            *v,
            n@,
            meta.spec_relations(),
            state_view(*old(rr), old(result)@),
        ),
    decreases *v, 2nat,
{
    match meta.get_relation(n.as_str(), k.as_str()) {
        Some(rel) => match &rel.kind {
            RelationKind::One => handle_one_relation(v, rr, &rel.fields, meta, result),
            RelationKind::Many => handle_many_relation(v, rr, &rel.fields, meta, result),
            RelationKind::ManyMany(t) => handle_many_many_relation(
                v,
                rr,
                t,
                &rel.fields,
                meta,
                result,
            ),
        },
        None => handle_field(v, rr, k, meta, result),
    }
}

/// A plain field: nothing becomes a null entry, a value an entry of the row `rr`; a sequence or
/// a row adds its rows to `result`.
fn handle_field(
    v: &SerElement,
    rr: &mut DBRow,
    k: &String,
    meta: &Meta,
    result: &mut Vec<DBRow>,
) -> (r: Result<(), Error>)
    ensures
        step_view(r, *final(rr), final(result)@) == field_rows(
            *v,
            k@,
            meta.spec_relations(),
            state_view(*old(rr), old(result)@),
        ),
    decreases *v, 1nat,
{
    match v {
        SerElement::Empty => {
            let ghost before = rr@.values;
            rr.insert(k.clone(), SqlValue::Null);
            assert(rr@.values =~= before + seq![(k@, ValueView::Null)]);
            Ok(())
        },
        SerElement::Value(x) => {
            let ghost before = rr@.values;
            let c = x.duplicate();
            rr.insert(k.clone(), c);
            assert(rr@.values =~= before + seq![(k@, x@)]);
            Ok(())
        },
        _ => match v.as_rows(None, meta) {
            Ok(rows) => {
                let ghost before = result@;
                let mut rows = rows;
                let ghost added = rows@;
                result.append(&mut rows);
                assert(rows_view(result@) =~= rows_view(before) + rows_view(added));
                Ok(())
            },
            Err(e) => Err(e),
        },
    }
}

/// A to-one relation: the value must be a row; its rows go to `result`, and `rr` gets, for each
/// field pair (f, t), the entry f with the value of t in the first row of `result`.
fn handle_one_relation(
    v: &SerElement,
    rr: &mut DBRow,
    fields: &Vec<(String, String)>,
    meta: &Meta,
    result: &mut Vec<DBRow>,
) -> (r: Result<(), Error>)
    ensures
        step_view(r, *final(rr), final(result)@) == one_rows(
            *v,
            fields@,
            meta.spec_relations(),
            state_view(*old(rr), old(result)@),
        ),
    decreases *v, 1nat,
{
    match v {
        SerElement::Row(_, _) => {
            match v.as_rows(None, meta) {
                Ok(rows) => {
                    let ghost before = result@;
                    let mut rows = rows;
                    let ghost added = rows@;
                    result.append(&mut rows);
                    assert(rows_view(result@) =~= rows_view(before) + rows_view(added));
                },
                Err(e) => {
                    return Err(e);
                },
            }
            assert(rows_view(result@)[0] == result@[0]@);
            match copy_entries(&result[0], fields, true) {
                Ok(es) => {
                    append_entries(rr, &es);
                    Ok(())
                },
                Err(e) => Err(e),
            }
        },
        _ => Err(Error::generic("a to-one relation needs a row")),
    }
}

/// A to-many relation: the value must be a sequence or a row; its rows go to `result`, and then
/// every row of `result` gets, for each field pair (f, t), the entry t with the value of f in
/// `rr`.
fn handle_many_relation(
    v: &SerElement,
    rr: &mut DBRow,
    fields: &Vec<(String, String)>,
    meta: &Meta,
    result: &mut Vec<DBRow>,
) -> (r: Result<(), Error>)
    ensures
        step_view(r, *final(rr), final(result)@) == many_rows(
            *v,
            fields@,
            meta.spec_relations(),
            state_view(*old(rr), old(result)@),
        ),
    decreases *v, 1nat,
{
    match v {
        SerElement::Sequence(_) | SerElement::Row(_, _) => {
            match v.as_rows(None, meta) {
                Ok(rows) => {
                    let ghost before = result@;
                    let mut rows = rows;
                    let ghost added = rows@;
                    result.append(&mut rows);
                    assert(rows_view(result@) =~= rows_view(before) + rows_view(added));
                },
                Err(e) => {
                    return Err(e);
                },
            }
            if result.len() == 0 {
                return Ok(());
            }
            let es = match copy_entries(rr, fields, false) {
                Ok(es) => es,
                Err(e) => {
                    return Err(e);
                },
            };
            let ghost all = rows_view(result@);
            let mut j: usize = 0;
            while j < result.len()
                invariant
                    j <= result@.len(),
                    all.len() == result@.len(),
                    forall|x: int| 0 <= x < j ==> (#[trigger] result@[x])@ == with_values(all[x], values_view(es@)),
                    forall|x: int| j <= x < result@.len() ==> (#[trigger] result@[x])@ == all[x],
                decreases result.len() - j,
            {
                append_entries(&mut result[j], &es);
                j = j + 1;
            }
            assert(rows_view(result@) =~= all.map_values(
                |r: RowView| with_values(r, values_view(es@)),
            ));
            Ok(())
        },
        _ => Err(Error::generic("a to-many relation needs a sequence or a row")),
    }
}

/// A many-to-many relation through table `t`: the value must be a sequence; for each item, its
/// rows go to `result`, followed by a row of `t` that links `rr` with the first of them.
fn handle_many_many_relation(
    v: &SerElement,
    rr: &DBRow,
    t: &String,
    fields: &Vec<(String, String)>,
    meta: &Meta,
    result: &mut Vec<DBRow>,
) -> (r: Result<(), Error>)
    ensures
        step_view(r, *rr, final(result)@) == many_many_rows(
            *v,
            t@,
            fields@,
            meta.spec_relations(),
            state_view(*rr, old(result)@),
        ),
    decreases *v, 1nat,
{
    let ghost rels = meta.spec_relations();
    match v {
        SerElement::Sequence(s) => {
            let mut i: usize = 0;
            proof {
                assert(s@.subrange(0, s@.len() as int) =~= s@);
            }
            while i < s.len()
                invariant
                    i <= s@.len(),
                    *v == SerElement::Sequence(*s),
                    rels == meta.spec_relations(),
                    link_rows(s@, rr@, t@, fields@, rels, rows_view(old(result)@)) == link_rows(
                        s@.subrange(i as int, s@.len() as int),
                        rr@,
                        t@,
                        fields@,
                        rels,
                        rows_view(result@),
                    ),
                decreases s.len() - i,
            {
                proof {
                    let rest = s@.subrange(i as int, s@.len() as int);
                    assert(rest[0] == s@[i as int]);
                    assert(rest.subrange(1, rest.len() as int) =~= s@.subrange(
                        i + 1,
                        s@.len() as int,
                    ));
                }
                proof {
                    lemma_item_decreases(*v, i as int);
                }
                let mut sub = match s[i].as_rows(None, meta) {
                    Ok(rows) => rows,
                    Err(e) => {
                        return Err(e);
                    },
                };
                if sub.len() == 0 {
                    return Err(Error::generic("a linked item makes no rows"));
                }
                assert(rows_view(sub@)[0] == sub@[0]@);
                let rel_row = match link_row(t, rr, &sub[0], fields) {
                    Ok(row) => row,
                    Err(e) => {
                        return Err(e);
                    },
                };
                let ghost before = result@;
                let ghost added = sub@;
                result.append(&mut sub);
                result.push(rel_row);
                assert(rows_view(result@) =~= rows_view(before) + rows_view(added) + seq![rel_row@]);
                i = i + 1;
            }
            proof {
                assert(s@.subrange(i as int, s@.len() as int) =~= Seq::<SerElement>::empty());
            }
            Ok(())
        },
        _ => Err(Error::generic("a many-to-many relation needs a sequence")),
    }
}

/// Processing fields never changes the table of the row under construction.
proof fn lemma_fields_keep_table(
    fs: Seq<(String, SerElement)>,
    n: Seq<char>,
    rels: Seq<Relation>,
    st: (RowView, Seq<RowView>),
)
    ensures
        fields_rows(fs, n, rels, st) matches Some(st2) ==> st2.0.table == st.0.table,
    decreases fs.len(),
{
    if fs.len() > 0 {
        match entry_rows(fs[0].0@, fs[0].1, n, rels, st) {
            Some(st2) => {
                lemma_fields_keep_table(fs.subrange(1, fs.len() as int), n, rels, st2);
            },
            None => {},
        }
    }
}

/// A row element gives its own row first: the rows of `Row(n, fields)`, where they can be
/// made, start with a row of table `n`.
pub proof fn law_own_row_first(n: String, fields: Vec<(String, SerElement)>, rels: Seq<Relation>)
    ensures
        elem_rows(SerElement::Row(n, fields), None, rels) matches Some(rows) ==> rows.len() >= 1
            && rows[0].table == Some(n@),
{
    lemma_fields_keep_table(fields@, n@, rels, (empty_row(n@), seq![]));
}

/// An item of a sequence element is smaller than the element.
proof fn lemma_item_decreases(e: SerElement, i: int)
    requires
        e is Sequence,
        0 <= i < e->Sequence_0@.len(),
    ensures
        decreases_to!(e => e->Sequence_0@[i]),
{
    let s = e->Sequence_0;
    assert(decreases_to!(e => s));
    assert(decreases_to!(s => s@));
    assert(decreases_to!(s@ => s@[i]));
}

/// The value of a field of a row element is smaller than the element.
proof fn lemma_field_decreases(e: SerElement, i: int)
    requires
        e is Row,
        0 <= i < e->Row_1@.len(),
    ensures
        decreases_to!(e => e->Row_1@[i].1),
{
    let r = e->Row_1;
    assert(decreases_to!(e => r));
    assert(decreases_to!(r => r@));
    assert(decreases_to!(r@ => r@[i]));
    assert(decreases_to!(r@[i] => r@[i].1));
}

/// The rows of a serialized value of the model: `element.as_rows(None, ..)` with the model's
/// relations.
pub fn serialize_row(model: &DataModel, element: &SerElement) -> (r: Result<Vec<DBRow>, Error>)
    ensures
        match r {
            Ok(rows) => elem_rows(*element, None, model.spec_meta().spec_relations()) == Some(
                rows_view(rows@),
            ),
            Err(_) => elem_rows(*element, None, model.spec_meta().spec_relations()) is None,
        },
{
    let meta = model.meta();
    element.as_rows(None, meta)
}

/// As `serialize_row`; the default row is carried by the serializer but given to no row.
pub fn serialize_row_with_default(model: &DataModel, default: &DBRow, element: &SerElement) -> (r:
    Result<Vec<DBRow>, Error>)
    ensures
        match r {
            Ok(rows) => elem_rows(*element, None, model.spec_meta().spec_relations()) == Some(
                rows_view(rows@),
            ),
            Err(_) => elem_rows(*element, None, model.spec_meta().spec_relations()) is None,
        },
{
    serialize_row(model, element)
}

/// The map of named rules given by a list of (name, rule) entries; a later entry for a name
/// stands over an earlier one.
pub open spec fn rules_map(rules: Seq<(String, CopyRule)>) -> Map<Seq<char>, CopyRule>
    decreases rules.len(),
{
    if rules.len() == 0 {
        Map::empty()
    } else {
        rules_map(rules.drop_last()).insert(rules.last().0@, rules.last().1)
    }
}

/// No name occurs twice.
pub open spec fn unique_names(rules: Seq<(String, CopyRule)>) -> bool {
    forall|i: int, j: int|
        0 <= i < j < rules.len() ==> (#[trigger] rules[i]).0@ != (#[trigger] rules[j]).0@
}

/// The rule of the entry at `i` is the rule of its name where no later entry has that name.
proof fn lemma_rules_map_at(rules: Seq<(String, CopyRule)>, i: int)
    requires
        0 <= i < rules.len(),
        forall|m: int| i < m < rules.len() ==> (#[trigger] rules[m]).0@ != rules[i].0@,
    ensures
        rules_map(rules).contains_key(rules[i].0@),
        rules_map(rules)[rules[i].0@] == rules[i].1,
    decreases rules.len(),
{
    if i < rules.len() - 1 {
        assert(rules.drop_last()[i] == rules[i]);
        assert forall|m: int| i < m < rules.drop_last().len() implies (
        #[trigger] rules.drop_last()[m]).0@ != rules.drop_last()[i].0@ by {
            assert(rules.drop_last()[m] == rules[m]);
        }
        lemma_rules_map_at(rules.drop_last(), i);
        assert(rules[rules.len() - 1].0@ != rules[i].0@);
    }
}

/// A name that no entry has has no rule.
proof fn lemma_rules_map_none(rules: Seq<(String, CopyRule)>, k: Seq<char>)
    requires
        forall|m: int| 0 <= m < rules.len() ==> (#[trigger] rules[m]).0@ != k,
    ensures
        !rules_map(rules).contains_key(k),
    decreases rules.len(),
{
    if rules.len() > 0 {
        assert forall|m: int| 0 <= m < rules.drop_last().len() implies (
        #[trigger] rules.drop_last()[m]).0@ != k by {
            assert(rules.drop_last()[m] == rules[m]);
        }
        lemma_rules_map_none(rules.drop_last(), k);
        assert(rules[rules.len() - 1].0@ != k);
    }
}

/// Replacing the entry at `i` by one of the same name, with no later entry of that name, sets
/// the rule of that name.
proof fn lemma_rules_map_update(rules: Seq<(String, CopyRule)>, i: int, e: (String, CopyRule))
    requires
        0 <= i < rules.len(),
        e.0@ == rules[i].0@,
        forall|m: int| i < m < rules.len() ==> (#[trigger] rules[m]).0@ != rules[i].0@,
    ensures
        rules_map(rules.update(i, e)) == rules_map(rules).insert(e.0@, e.1),
    decreases rules.len(),
{
    let u = rules.update(i, e);
    if i == rules.len() - 1 {
        assert(u.drop_last() =~= rules.drop_last());
        assert(rules_map(u) =~= rules_map(rules).insert(e.0@, e.1));
    } else {
        assert(u.drop_last() =~= rules.drop_last().update(i, e));
        assert forall|m: int| i < m < rules.drop_last().len() implies (
        #[trigger] rules.drop_last()[m]).0@ != rules.drop_last()[i].0@ by {
            assert(rules.drop_last()[m] == rules[m]);
        }
        lemma_rules_map_update(rules.drop_last(), i, e);
        assert(rules[rules.len() - 1].0@ != e.0@);
        assert(rules_map(u) =~= rules_map(rules).insert(e.0@, e.1));
    }
}

/// Named copy rules.
#[derive(Debug)]
pub struct CopyRuleLib {
    rules: Vec<(String, CopyRule)>,
}

impl View for CopyRuleLib {
    type V = Map<Seq<char>, CopyRule>;

    closed spec fn view(&self) -> Map<Seq<char>, CopyRule> {
        rules_map(self.rules@)
    }
}

impl CopyRuleLib {
    /// Its entries have distinct names.
    pub closed spec fn wf(&self) -> bool {
        unique_names(self.rules@)
    }

    /// A library without rules.
    pub fn new() -> (r: Self)
        ensures
            r.wf(),
            r@ == Map::<Seq<char>, CopyRule>::empty(),
    {
        Self { rules: Vec::new() }
    }

    /// The position of the entry named `name`.
    fn position(&self, name: &str) -> (r: Option<usize>)
        ensures
            match r {
                Some(i) => i < self.rules@.len() && self.rules@[i as int].0@ == name@,
                None => forall|m: int| 0 <= m < self.rules@.len() ==> (#[trigger] self.rules@[m]).0@ != name@,
            },
    {
        let mut i: usize = 0;
        while i < self.rules.len()
            invariant
                i <= self.rules@.len(),
                forall|m: int| 0 <= m < i ==> (#[trigger] self.rules@[m]).0@ != name@,
            decreases self.rules.len() - i,
        {
            if crate::text::str_eq(self.rules[i].0.as_str(), name) {
                return Some(i);
            }
            i = i + 1;
        }
        None
    }

    /// Sets the rule named `name`, in place of any earlier one.
    pub fn add(&mut self, name: &str, rule: CopyRule)
        requires
            old(self).wf(),
        ensures
            final(self).wf(),
            final(self)@ == old(self)@.insert(name@, rule),
    {
        match self.position(name) {
            Some(i) => {
                let ghost before = self.rules@;
                let entry = (name.to_owned(), rule);
                proof {
                    lemma_rules_map_update(before, i as int, entry);
                }
                self.rules.set(i, entry);
                assert(self.rules@ == before.update(i as int, entry));
            },
            None => {
                let ghost before = self.rules@;
                self.rules.push((name.to_owned(), rule));
                assert(self.rules@.drop_last() =~= before);
            },
        }
    }

    /// The rule named `rel`.
    fn get(&self, rel: &String) -> (r: Option<&CopyRule>)
        requires
            self.wf(),
        ensures
            match r {
                Some(x) => self@.contains_key(rel@) && self@[rel@] == *x,
                None => !self@.contains_key(rel@),
            },
    {
        match self.position(rel.as_str()) {
            Some(i) => {
                proof {
                    lemma_rules_map_at(self.rules@, i as int);
                }
                Some(&self.rules[i].1)
            },
            None => {
                proof {
                    lemma_rules_map_none(self.rules@, rel@);
                }
                None
            },
        }
    }
}

/// Copies the value of field `source` into field `target`.
#[derive(Debug, Clone)]
pub struct FieldCopyRule {
    pub source: String,
    pub target: String,
}

/// A many-to-many link named `name` between `table1` and `table2`.
#[derive(Debug)]
pub struct ManyToMany {
    name: String,
    table1: String,
    copy1: CopyRule,
    table2: String,
    copy2: CopyRule,
}

impl ManyToMany {
    pub closed spec fn spec_name(&self) -> Seq<char> {
        self.name@
    }

    pub closed spec fn spec_table1(&self) -> Seq<char> {
        self.table1@
    }

    pub closed spec fn spec_copy1(&self) -> CopyRule {
        self.copy1
    }

    pub closed spec fn spec_table2(&self) -> Seq<char> {
        self.table2@
    }

    pub closed spec fn spec_copy2(&self) -> CopyRule {
        self.copy2
    }
}

/// Field mappings, and a many-to-many link where there is one.
#[derive(Debug)]
pub struct CopyRule {
    field_mappings: Vec<FieldCopyRule>,
    many_to_many: Option<Box<ManyToMany>>,
}

impl CopyRule {
    pub closed spec fn spec_field_mappings(&self) -> Seq<FieldCopyRule> {
        self.field_mappings@
    }

    pub closed spec fn spec_many_to_many(&self) -> Option<ManyToMany> {
        match self.many_to_many {
            Some(m) => Some(*m),
            None => None,
        }
    }

    /// A rule with the given field mappings and no link.
    pub fn new(field_mappings: Vec<FieldCopyRule>) -> (r: Self)
        ensures
            r.spec_field_mappings() == field_mappings@,
            r.spec_many_to_many() is None,
    {
        Self { field_mappings, many_to_many: None }
    }

    /// The rule with the link `name` between `table1` (by `copy1`) and `table2` (by `copy2`).
    pub fn many_to_many(
        self,
        name: &str,
        table1: &str,
        copy1: CopyRule,
        table2: &str,
        copy2: CopyRule,
    ) -> (r: Self)
        ensures
            r.spec_field_mappings() == self.spec_field_mappings(),
            r.spec_many_to_many() matches Some(m) && m.spec_name() == name@ && m.spec_table1()
                == table1@ && m.spec_copy1() == copy1 && m.spec_table2() == table2@
                && m.spec_copy2() == copy2,
    {
        let mut r = self;
        r.many_to_many = Some(
            Box::new(
                ManyToMany {
                    name: name.to_owned(),
                    table1: table1.to_owned(),
                    copy1: copy1,
                    table2: table2.to_owned(),
                    copy2: copy2,
                },
            ),
        );
        r
    }
}

/// Serializes names of map keys.
pub struct NameSerializer {}

/// The link row of a many-to-many relation takes each field from the owning row where that
/// row has it, and only otherwise from the linked row: entry `j` after `acc` is named by the
/// target of pair `j` and holds the value of the pair's field in `a`, or else in `b`.
pub proof fn law_link_owner_first(
    a: Seq<(Seq<char>, ValueView)>,
    b: Seq<(Seq<char>, ValueView)>,
    pairs: Seq<(Seq<char>, Seq<char>)>,
    acc: Seq<(Seq<char>, ValueView)>,
    res: Seq<(Seq<char>, ValueView)>,
)
    requires
        linked(a, b, pairs, acc) == Some(res),
    ensures
        res.len() == acc.len() + pairs.len(),
        forall|i: int| 0 <= i < acc.len() ==> res[i] == acc[i],
        forall|j: int|
            0 <= j < pairs.len() ==> (#[trigger] res[acc.len() + j]).0 == pairs[j].1 && match view_get(
                a,
                pairs[j].0,
            ) {
                Some(x) => res[acc.len() + j].1 == x,
                None => view_get(b, pairs[j].0) == Some(res[acc.len() + j].1),
            },
    decreases pairs.len(),
{
    if pairs.len() > 0 {
        let v = match view_get(a, pairs[0].0) {
            Some(x) => Some(x),
            None => view_get(b, pairs[0].0),
        };
        let x = v->Some_0;
        let acc2 = acc.push((pairs[0].1, x));
        law_link_owner_first(a, b, pairs.drop_first(), acc2, res);
        assert forall|j: int| 0 <= j < pairs.len() implies (#[trigger] res[acc.len() + j]).0 == pairs[j].1
            && match view_get(a, pairs[j].0) {
                Some(x) => res[acc.len() + j].1 == x,
                None => view_get(b, pairs[j].0) == Some(res[acc.len() + j].1),
            } by {
            if j == 0 {
                assert(res[acc.len() as int] == acc2[acc.len() as int]);
            } else {
                assert(pairs.drop_first()[j - 1] == pairs[j]);
                assert(res[acc2.len() + (j - 1)] == res[acc.len() + j]);
            }
        }
    }
}

} // verus!
