use vstd::prelude::*;

use self::frame::Frame;
use self::input::{input_answer, input_ok, input_takes, Input};
use self::label::Label;
use self::panel::Panel;

pub mod frame;
pub mod input;
pub mod label;
pub mod panel;

verus! {

/// The largest coordinate and extent the widgets work with; sums of two stay within `u16`.
pub const LIMIT: u16 = 16384;

/// A rectangle of the screen: its corner and its width and height.
#[derive(Debug, Clone, Copy, PartialEq, Eq, Structural)]
pub struct Rect {
    pub x: u16,
    pub y: u16,
    pub w: u16,
    pub h: u16,
}

/// Every coordinate and extent of the rectangle is below `LIMIT`.
pub open spec fn rect_small(r: Rect) -> bool {
    r.x < LIMIT && r.y < LIMIT && r.w < LIMIT && r.h < LIMIT
}

/// The point lies in the rectangle.
pub open spec fn in_rect(r: Rect, x: u16, y: u16) -> bool {
    r.x <= x && r.y <= y && x < r.x + r.w && y < r.y + r.h
}

impl Rect {
    /// The empty rectangle at the origin.
    pub fn new() -> (r: Rect)
        ensures
            r == (Rect { x: 0, y: 0, w: 0, h: 0 }),
    {
        Rect { x: 0, y: 0, w: 0, h: 0 }
    }

    /// The point lies in the rectangle.
    pub fn contains(&self, x: u16, y: u16) -> (r: bool)
        requires
            rect_small(*self),
        ensures
            r == in_rect(*self, x, y),
    {
        self.x <= x && self.y <= y && x < (self.x + self.w) && y < (self.y + self.h)
    }
}

/// A size a widget asks for in one direction.
#[derive(Debug, Clone, Copy, PartialEq, Eq, Structural)]
pub enum Requirement {
    Chars(u16),
    Max,
}

/// The width and height a widget asks for.
#[derive(Debug, Clone, Copy, PartialEq, Eq, Structural)]
pub struct Requirements {
    pub w: Requirement,
    pub h: Requirement,
}

/// A request to the widgets of a form.
#[derive(Debug)]
pub enum AppRequest {
    /// Nothing; no widget answers it.
    NoRequest,
    /// Sets the text of the widget of that name.
    SetValue { name: String, value: String },
    /// Asks for the text of the input of that name.
    GetValue(String),
    /// Asks for the position of the first input below the given row.
    NextInput(u16, u16),
    /// Asks for the names and texts of all inputs.
    CollectAllValues,
}

/// An answer of a widget.
#[derive(Debug)]
pub enum AppResult {
    StringValue(String),
    Redraw,
    InputEnabled,
    NewCursorPosition(u16, u16),
    Values(Vec<(String, String)>),
}

/// Why a widget does not answer.
#[derive(Debug, Clone, Copy, PartialEq, Eq, Structural)]
pub enum AppError {
    NotRelevant,
    InvalidRequest,
}

/// A key of a key event.
#[derive(Debug, Clone, Copy, PartialEq, Eq, Structural)]
pub enum Key {
    Backspace,
    Enter,
    Left,
    Right,
    Up,
    Down,
    Esc,
    Char(char),
    Other,
}

/// Whether a key went down, repeated or went up.
#[derive(Debug, Clone, Copy, PartialEq, Eq, Structural)]
pub enum KeyKind {
    Press,
    Repeat,
    Release,
}

/// The modifier keys held with a key.
#[derive(Debug, Clone, Copy, PartialEq, Eq, Structural)]
pub struct Modifiers {
    pub shift: bool,
    pub control: bool,
    pub alt: bool,
    pub other: bool,
}

/// What the mouse did.
#[derive(Debug, Clone, Copy, PartialEq, Eq, Structural)]
pub enum MouseKind {
    Down,
    Up,
    Drag,
    Moved,
    ScrollDown,
    ScrollUp,
}

/// An event of the terminal.
#[derive(Debug, Clone, Copy, PartialEq, Eq, Structural)]
pub enum TermEvent {
    Key { code: Key, modifiers: Modifiers, kind: KeyKind },
    Mouse { kind: MouseKind, column: u16, row: u16 },
    Resize(u16, u16),
    Other,
}

/// No modifier key is held.
pub open spec fn no_modifiers(m: Modifiers) -> bool {
    !m.shift && !m.control && !m.alt && !m.other
}

/// Only the control key is held.
pub open spec fn control_only(m: Modifiers) -> bool {
    !m.shift && m.control && !m.alt && !m.other
}

/// A command to the screen.
#[derive(Debug)]
pub enum ScreenCmd {
    MoveTo(u16, u16),
    Print(String),
    PrintChar(char),
    Flush,
    BlinkingBlock,
    SteadyBar,
}

/// A screen command with its text as a sequence.
pub enum CmdView {
    MoveTo(u16, u16),
    Print(Seq<char>),
    PrintChar(char),
    Flush,
    BlinkingBlock,
    SteadyBar,
}

impl View for ScreenCmd {
    type V = CmdView;

    open spec fn view(&self) -> CmdView {
        match self {
            ScreenCmd::MoveTo(x, y) => CmdView::MoveTo(*x, *y),
            ScreenCmd::Print(s) => CmdView::Print(s@),
            ScreenCmd::PrintChar(c) => CmdView::PrintChar(*c),
            ScreenCmd::Flush => CmdView::Flush,
            ScreenCmd::BlinkingBlock => CmdView::BlinkingBlock,
            ScreenCmd::SteadyBar => CmdView::SteadyBar,
        }
    }
}

/// The views of a list of commands.
pub open spec fn cmds_view(v: Seq<ScreenCmd>) -> Seq<CmdView> {
    v.map_values(|c: ScreenCmd| c@)
}

/// The view of a list with a command appended.
pub proof fn lemma_cmds_push(v: Seq<ScreenCmd>, c: ScreenCmd)
    ensures
        cmds_view(v.push(c)) == cmds_view(v).push(c@),
{
    assert(cmds_view(v.push(c)) =~= cmds_view(v).push(c@));
}

/// A widget of a form.
pub enum Glyph {
    Label(Label),
    Input(Input),
    Panel(Panel),
    Frame(Frame),
}

/// The fields of a form, in the order the form lists them.
pub open spec fn inputs(g: Glyph) -> Seq<Input>
    decreases g,
{
    match g {
        Glyph::Label(_) => Seq::empty(),
        Glyph::Input(i) => seq![i],
        Glyph::Panel(p) => inputs_list(p.elements@),
        Glyph::Frame(f) => inputs(*f.content),
    }
}

/// What a widget answers to a terminal event: a frame takes a resize and asks for a redraw,
/// a panel answers as its widgets do (see `panel_answer`), a field as `input_answer` says,
/// and a label takes no event.
pub open spec fn glyph_answer(g: Glyph, ev: TermEvent) -> Result<AppResult, AppError>
    decreases g,
{
    match g {
        Glyph::Label(_) => Err(AppError::NotRelevant),
        Glyph::Input(i) => input_answer(i, ev),
        Glyph::Panel(p) => panel_answer(p.elements@, ev),
        Glyph::Frame(f) => match ev {
            TermEvent::Resize(_, _) => Ok(AppResult::Redraw),
            _ => glyph_answer(*f.content, ev),
        },
    }
}

/// What a list of widgets answers to a terminal event: the answer of the first widget that
/// takes it, or else the refusal of the last one (a refusal where the list is empty).
pub open spec fn panel_answer(v: Seq<Glyph>, ev: TermEvent) -> Result<AppResult, AppError>
    decreases v,
{
    if v.len() == 0 {
        Err(AppError::NotRelevant)
    } else {
        let a = panel_answer(v.drop_last(), ev);
        if a is Ok {
            a
        } else {
            glyph_answer(v.last(), ev)
        }
    }
}

/// Once a first part of the list takes the event, the list answers as that part does.
pub proof fn lemma_panel_answer_prefix(v: Seq<Glyph>, i: int, ev: TermEvent)
    requires
        0 <= i <= v.len(),
        panel_answer(v.take(i), ev) is Ok,
    ensures
        panel_answer(v, ev) == panel_answer(v.take(i), ev),
    decreases v.len(),
{
    if i < v.len() {
        assert(v.drop_last().take(i) =~= v.take(i));
        lemma_panel_answer_prefix(v.drop_last(), i, ev);
    } else {
        assert(v.take(i) =~= v);
    }
}

/// The fields of a list of widgets, in order.
pub open spec fn inputs_list(v: Seq<Glyph>) -> Seq<Input>
    decreases v,
{
    if v.len() == 0 {
        Seq::empty()
    } else {
        inputs_list(v.drop_last()) + inputs(v.last())
    }
}

/// The named widgets of a widget, in order: for each label and input field, whether it is a
/// field, its name and its text.
pub open spec fn entries(g: Glyph) -> Seq<(bool, Seq<char>, Seq<char>)>
    decreases g,
{
    match g {
        Glyph::Label(l) => seq![(false, l.name@, l.txt@)],
        Glyph::Input(i) => seq![(true, i.name@, i.txt@)],
        Glyph::Panel(p) => entries_list(p.elements@),
        Glyph::Frame(f) => entries(*f.content),
    }
}

/// The named widgets of a list of widgets, in order.
pub open spec fn entries_list(v: Seq<Glyph>) -> Seq<(bool, Seq<char>, Seq<char>)>
    decreases v,
{
    if v.len() == 0 {
        Seq::empty()
    } else {
        entries_list(v.drop_last()) + entries(v.last())
    }
}

/// The text of the first named widget called `name`.
pub open spec fn text_of_named(es: Seq<(bool, Seq<char>, Seq<char>)>, name: Seq<char>) -> Option<
    Seq<char>,
>
    decreases es.len(),
{
    if es.len() == 0 {
        None
    } else if es[0].1 == name {
        Some(es[0].2)
    } else {
        text_of_named(es.drop_first(), name)
    }
}

/// The text of the first input field called `name`.
pub open spec fn field_text(es: Seq<(bool, Seq<char>, Seq<char>)>, name: Seq<char>) -> Option<Seq<char>>
    decreases es.len(),
{
    if es.len() == 0 {
        None
    } else if es[0].0 && es[0].1 == name {
        Some(es[0].2)
    } else {
        field_text(es.drop_first(), name)
    }
}

/// The first named widget called `name` is an input field.
pub open spec fn first_is_field(es: Seq<(bool, Seq<char>, Seq<char>)>, name: Seq<char>) -> bool
    decreases es.len(),
{
    if es.len() == 0 {
        false
    } else if es[0].1 == name {
        es[0].0
    } else {
        first_is_field(es.drop_first(), name)
    }
}

/// The named widgets with the text of the first one called `name` set to `value`.
pub open spec fn set_named(es: Seq<(bool, Seq<char>, Seq<char>)>, name: Seq<char>, value: Seq<char>) -> Seq<
    (bool, Seq<char>, Seq<char>),
>
    decreases es.len(),
{
    if es.len() == 0 {
        es
    } else if es[0].1 == name {
        seq![(es[0].0, es[0].1, value)] + es.drop_first()
    } else {
        seq![es[0]] + set_named(es.drop_first(), name, value)
    }
}

/// What a request does to the named widgets and what it answers of them: `SetValue` sets the
/// text of the first widget with the name and answers `Redraw`, `GetValue` answers the text
/// of the first input field with the name; where there is none, and for `NoRequest`, the answer is
/// `NotRelevant`. Only `SetValue` changes a text.
pub open spec fn entries_post(
    req: AppRequest,
    e1: Seq<(bool, Seq<char>, Seq<char>)>,
    e2: Seq<(bool, Seq<char>, Seq<char>)>,
    r: Result<AppResult, AppError>,
) -> bool {
    match req {
        AppRequest::SetValue { name, value } => e2 == set_named(e1, name@, value@) && if text_of_named(
            e1,
            name@,
        ) is Some {
            r matches Ok(AppResult::Redraw)
        } else {
            r == Err::<AppResult, AppError>(AppError::NotRelevant)
        },
        AppRequest::GetValue(name) => e2 == e1 && match field_text(e1, name@) {
            Some(t) => r matches Ok(AppResult::StringValue(s)) && s@ == t,
            None => r == Err::<AppResult, AppError>(AppError::NotRelevant),
        },
        AppRequest::NoRequest => e2 == e1 && r == Err::<AppResult, AppError>(AppError::NotRelevant),
        _ => e2 == e1,
    }
}

pub proof fn lemma_text_of_named_concat(
    a: Seq<(bool, Seq<char>, Seq<char>)>,
    b: Seq<(bool, Seq<char>, Seq<char>)>,
    name: Seq<char>,
)
    ensures
        text_of_named(a + b, name) == match text_of_named(a, name) {
            Some(t) => Some(t),
            None => text_of_named(b, name),
        },
    decreases a.len(),
{
    if a.len() > 0 {
        assert((a + b).drop_first() =~= a.drop_first() + b);
        lemma_text_of_named_concat(a.drop_first(), b, name);
    } else {
        assert(a + b =~= b);
    }
}

pub proof fn lemma_field_text_concat(
    a: Seq<(bool, Seq<char>, Seq<char>)>,
    b: Seq<(bool, Seq<char>, Seq<char>)>,
    name: Seq<char>,
)
    ensures
        field_text(a + b, name) == match field_text(a, name) {
            Some(t) => Some(t),
            None => field_text(b, name),
        },
    decreases a.len(),
{
    if a.len() > 0 {
        assert((a + b).drop_first() =~= a.drop_first() + b);
        lemma_field_text_concat(a.drop_first(), b, name);
    } else {
        assert(a + b =~= b);
    }
}

pub proof fn lemma_set_named_concat(
    a: Seq<(bool, Seq<char>, Seq<char>)>,
    b: Seq<(bool, Seq<char>, Seq<char>)>,
    name: Seq<char>,
    value: Seq<char>,
)
    ensures
        set_named(a + b, name, value) == if text_of_named(a, name) is Some {
            set_named(a, name, value) + b
        } else {
            a + set_named(b, name, value)
        },
    decreases a.len(),
{
    if a.len() > 0 {
        assert((a + b).drop_first() =~= a.drop_first() + b);
        lemma_set_named_concat(a.drop_first(), b, name, value);
        if a[0].1 == name {
            assert(seq![(a[0].0, a[0].1, value)] + (a + b).drop_first() =~= seq![(a[0].0, a[0].1, value)]
                + a.drop_first() + b);
        } else if text_of_named(a, name) is Some {
            assert(seq![a[0]] + (set_named(a.drop_first(), name, value) + b) =~= seq![a[0]]
                + set_named(a.drop_first(), name, value) + b);
        } else {
            assert(seq![a[0]] + (a.drop_first() + set_named(b, name, value)) =~= a + set_named(
                b,
                name,
                value,
            ));
        }
    } else {
        assert(a + b =~= b);
        assert(a + set_named(b, name, value) =~= set_named(b, name, value));
    }
}

/// Without a widget called `name`, setting its text changes nothing.
pub proof fn lemma_set_named_none(es: Seq<(bool, Seq<char>, Seq<char>)>, name: Seq<char>, value: Seq<char>)
    requires
        text_of_named(es, name) is None,
    ensures
        set_named(es, name, value) == es,
    decreases es.len(),
{
    if es.len() > 0 {
        lemma_set_named_none(es.drop_first(), name, value);
        assert(seq![es[0]] + es.drop_first() =~= es);
    }
}

/// Where the first widget called `name` is an input field, after setting its text the first
/// field called `name` has the text set.
pub proof fn lemma_field_after_set(es: Seq<(bool, Seq<char>, Seq<char>)>, name: Seq<char>, value: Seq<char>)
    requires
        first_is_field(es, name),
    ensures
        text_of_named(es, name) is Some,
        field_text(set_named(es, name, value), name) == Some(value),
    decreases es.len(),
{
    if es[0].1 != name {
        lemma_field_after_set(es.drop_first(), name, value);
        assert((seq![es[0]] + set_named(es.drop_first(), name, value)).drop_first() =~= set_named(
            es.drop_first(),
            name,
            value,
        ));
    }
}

/// A request's effect on a list of widgets follows from its effect on a first part and on the
/// widget after it, with the answers combined as a panel combines them.
pub proof fn lemma_entries_post_step(
    req: AppRequest,
    a1: Seq<(bool, Seq<char>, Seq<char>)>,
    a2: Seq<(bool, Seq<char>, Seq<char>)>,
    ra: Result<AppResult, AppError>,
    b1: Seq<(bool, Seq<char>, Seq<char>)>,
    b2: Seq<(bool, Seq<char>, Seq<char>)>,
    rb: Result<AppResult, AppError>,
    rn: Result<AppResult, AppError>,
)
    requires
        entries_post(req, a1, a2, ra),
        entries_post(req, b1, b2, rb),
        (req is SetValue || req is GetValue || req is NoRequest) ==> ra is Err && (rb is Err ==> rn
            == ra) && (rb is Ok ==> rn == rb),
    ensures
        entries_post(req, a1 + b1, a2 + b2, rn),
{
    match req {
        AppRequest::SetValue { name, value } => {
            lemma_text_of_named_concat(a1, b1, name@);
            lemma_set_named_concat(a1, b1, name@, value@);
            lemma_set_named_none(a1, name@, value@);
        },
        AppRequest::GetValue(name) => {
            lemma_field_text_concat(a1, b1, name@);
        },
        _ => {},
    }
}

/// A request's effect on a first part of a list, where the answer is found there, is its
/// effect on the whole list when the rest is left as it is.
pub proof fn lemma_entries_post_rest(
    req: AppRequest,
    a1: Seq<(bool, Seq<char>, Seq<char>)>,
    a2: Seq<(bool, Seq<char>, Seq<char>)>,
    rest: Seq<(bool, Seq<char>, Seq<char>)>,
    r: Result<AppResult, AppError>,
)
    requires
        entries_post(req, a1, a2, r),
        r is Ok || rest.len() == 0,
    ensures
        entries_post(req, a1 + rest, a2 + rest, r),
{
    if rest.len() == 0 {
        assert(a1 + rest =~= a1);
        assert(a2 + rest =~= a2);
    } else {
        match req {
            AppRequest::SetValue { name, value } => {
                lemma_text_of_named_concat(a1, rest, name@);
                lemma_set_named_concat(a1, rest, name@, value@);
            },
            AppRequest::GetValue(name) => {
                lemma_field_text_concat(a1, rest, name@);
            },
            _ => {},
        }
    }
}

/// Reading a value gives back what was written: after `SetValue` with a name whose first
/// widget is an input field, `GetValue` with that name answers the value that was set.
pub proof fn law_get_value_after_set_value(
    g1: Glyph,
    g2: Glyph,
    g3: Glyph,
    name: String,
    value: String,
    r1: Result<AppResult, AppError>,
    r2: Result<AppResult, AppError>,
)
    requires
        first_is_field(entries(g1), name@),
        entries_post(AppRequest::SetValue { name, value }, entries(g1), entries(g2), r1),
        entries_post(AppRequest::GetValue(name), entries(g2), entries(g3), r2),
    ensures
        r1 matches Ok(AppResult::Redraw),
        r2 matches Ok(AppResult::StringValue(s)) && s@ == value@,
{
    lemma_field_after_set(entries(g1), name@, value@);
}

/// The names and texts of the fields of a form, in order.
pub open spec fn input_values(g: Glyph) -> Seq<(Seq<char>, Seq<char>)> {
    inputs(g).map_values(|i: Input| (i.name@, i.txt@))
}

/// A form whose places, cursors and texts stay below `LIMIT`.
pub open spec fn glyph_ok(g: Glyph) -> bool
    decreases g,
{
    match g {
        Glyph::Label(_) => true,
        Glyph::Input(i) => input_ok(i),
        Glyph::Panel(p) => rect_small(p.area) && p.elements@.len() < LIMIT && forall|i: int|
            0 <= i < p.elements@.len() ==> glyph_ok(#[trigger] p.elements@[i]),
        Glyph::Frame(f) => rect_small(f.area) && glyph_ok(*f.content),
    }
}

/// The names and texts of a list of answers' values.
pub open spec fn values_view(vs: Seq<(String, String)>) -> Seq<(Seq<char>, Seq<char>)> {
    vs.map_values(|p: (String, String)| (p.0@, p.1@))
}

/// The values an answer carries: those of `Values`, none otherwise.
pub open spec fn answered_values(r: Result<AppResult, AppError>) -> Seq<(Seq<char>, Seq<char>)> {
    match r {
        Ok(AppResult::Values(vs)) => values_view(vs@),
        _ => Seq::empty(),
    }
}

/// Every field of `g2` is the field of `g1` at its position, active exactly where the
/// point lies in it.
pub open spec fn hit_fields(f1: Seq<Input>, f2: Seq<Input>, x: u16, y: u16) -> bool {
    &&& f1.len() == f2.len()
    &&& forall|i: int|
        0 <= i < f1.len() ==> {
            let a = #[trigger] f1[i];
            let b = f2[i];
            &&& b.area == a.area && b.name == a.name && b.txt == a.txt
            &&& b.active == in_rect(a.area, x, y)
            &&& if b.active { b.pos == x - a.area.x } else { b.pos == a.pos }
        }
}

pub proof fn lemma_inputs_take(v: Seq<Glyph>, i: int)
    requires
        0 <= i < v.len(),
    ensures
        inputs_list(v.take(i + 1)) == inputs_list(v.take(i)) + inputs(v[i]),
{
    assert(v.take(i + 1).drop_last() =~= v.take(i));
}

pub proof fn lemma_hit_fields_concat(
    a1: Seq<Input>,
    a2: Seq<Input>,
    b1: Seq<Input>,
    b2: Seq<Input>,
    x: u16,
    y: u16,
)
    requires
        hit_fields(a1, a2, x, y),
        hit_fields(b1, b2, x, y),
    ensures
        hit_fields(a1 + b1, a2 + b2, x, y),
{
    assert forall|i: int| 0 <= i < (a1 + b1).len() implies {
        let a = #[trigger] (a1 + b1)[i];
        let b = (a2 + b2)[i];
        &&& b.area == a.area && b.name == a.name && b.txt == a.txt
        &&& b.active == in_rect(a.area, x, y)
        &&& if b.active { b.pos == x - a.area.x } else { b.pos == a.pos }
    } by {
        if i < a1.len() {
            assert((a1 + b1)[i] == a1[i]);
            assert((a2 + b2)[i] == a2[i]);
        } else {
            assert((a1 + b1)[i] == b1[i - a1.len()]);
            assert((a2 + b2)[i] == b2[i - a1.len()]);
        }
    }
}


/// The place of a widget.
pub open spec fn glyph_area(g: Glyph) -> Rect {
    match g {
        Glyph::Label(l) => l.area,
        Glyph::Input(i) => i.area,
        Glyph::Panel(p) => p.area,
        Glyph::Frame(f) => f.area,
    }
}

/// `r` can be given to `g`: the places `g` gives its parts stay below `LIMIT`, and a frame
/// has room for its border.
pub open spec fn alloc_ok(g: Glyph, r: Rect) -> bool
    decreases g,
{
    rect_small(r) && match g {
        Glyph::Panel(p) => r.y + p.elements@.len() < LIMIT && forall|i: int|
            0 <= i < p.elements@.len() ==> alloc_ok(
                #[trigger] p.elements@[i],
                Rect { x: r.x, y: (r.y + i) as u16, w: r.w, h: 1 },
            ),
        Glyph::Frame(f) => r.w >= 2 && r.h >= 2 && alloc_ok(
            *f.content,
            Rect { x: (r.x + 1) as u16, y: (r.y + 1) as u16, w: (r.w - 2) as u16, h: (r.h - 2) as u16 },
        ),
        _ => true,
    }
}

/// `g` can take the terminal event `ev`: typing fits, backspace has something to remove and
/// a frame can be laid out in a resized terminal.
pub open spec fn events_ok(g: Glyph, ev: TermEvent) -> bool
    decreases g,
{
    match g {
        Glyph::Label(_) => true,
        Glyph::Input(i) => input_takes(i, ev),
        Glyph::Panel(p) => forall|i: int|
            0 <= i < p.elements@.len() ==> events_ok(#[trigger] p.elements@[i], ev),
        Glyph::Frame(f) => match ev {
            TermEvent::Resize(w, h) => alloc_ok(g, Rect { x: 0, y: 0, w, h }),
            _ => events_ok(*f.content, ev),
        },
    }
}

/// The first field whose row lies below `y`.
pub open spec fn first_below(fields: Seq<Input>, y: u16) -> Option<Input>
    decreases fields.len(),
{
    if fields.len() == 0 {
        None
    } else if fields[0].area.y > y {
        Some(fields[0])
    } else {
        first_below(fields.drop_first(), y)
    }
}

/// Only active fields change under a terminal event, and only their texts and cursors.
pub open spec fn typed_fields(f1: Seq<Input>, f2: Seq<Input>) -> bool {
    &&& f1.len() == f2.len()
    &&& forall|i: int|
        0 <= i < f1.len() ==> {
            let a = #[trigger] f1[i];
            let b = f2[i];
            &&& b.area == a.area && b.name == a.name && b.active == a.active
            &&& !a.active ==> b.txt@ == a.txt@ && b.pos == a.pos
        }
}

/// The fields keep their places, names, cursors and activity.
pub open spec fn same_layout(f1: Seq<Input>, f2: Seq<Input>) -> bool {
    &&& f1.len() == f2.len()
    &&& forall|i: int|
        0 <= i < f1.len() ==> {
            let a = #[trigger] f1[i];
            let b = f2[i];
            b.area == a.area && b.name == a.name && b.active == a.active && b.pos == a.pos
        }
}

/// The fields keep everything but their places.
pub open spec fn same_fields_but_places(f1: Seq<Input>, f2: Seq<Input>) -> bool {
    &&& f1.len() == f2.len()
    &&& forall|i: int|
        0 <= i < f1.len() ==> {
            let a = #[trigger] f1[i];
            let b = f2[i];
            b.name == a.name && b.active == a.active && b.pos == a.pos && b.txt@ == a.txt@
        }
}

pub proof fn lemma_first_below_concat(a: Seq<Input>, b: Seq<Input>, y: u16)
    ensures
        first_below(a + b, y) == match first_below(a, y) {
            Some(i) => Some(i),
            None => first_below(b, y),
        },
    decreases a.len(),
{
    if a.len() > 0 {
        assert((a + b).drop_first() =~= a.drop_first() + b);
        lemma_first_below_concat(a.drop_first(), b, y);
    } else {
        assert(a + b =~= b);
    }
}

pub proof fn lemma_typed_concat(a1: Seq<Input>, a2: Seq<Input>, b1: Seq<Input>, b2: Seq<Input>)
    requires
        typed_fields(a1, a2),
        typed_fields(b1, b2),
    ensures
        typed_fields(a1 + b1, a2 + b2),
{
    assert forall|i: int| 0 <= i < (a1 + b1).len() implies {
        let a = #[trigger] (a1 + b1)[i];
        let b = (a2 + b2)[i];
        &&& b.area == a.area && b.name == a.name && b.active == a.active
        &&& !a.active ==> b.txt@ == a.txt@ && b.pos == a.pos
    } by {
        if i < a1.len() {
            assert((a1 + b1)[i] == a1[i]);
            assert((a2 + b2)[i] == a2[i]);
        } else {
            assert((a1 + b1)[i] == b1[i - a1.len()]);
            assert((a2 + b2)[i] == b2[i - a1.len()]);
        }
    }
}

/// The widget has a place to show in.
pub open spec fn glyph_allocated(g: Glyph) -> bool
    decreases g,
{
    match g {
        Glyph::Label(_) => true,
        Glyph::Input(i) => i.area.w > 0 && i.area.h > 0,
        Glyph::Panel(p) => p.area.w > 0 && p.area.h > 0,
        Glyph::Frame(f) => glyph_allocated(*f.content),
    }
}

/// The first field named `name`.
pub open spec fn first_named(fields: Seq<Input>, name: Seq<char>) -> Option<Input>
    decreases fields.len(),
{
    if fields.len() == 0 {
        None
    } else if fields[0].name@ == name {
        Some(fields[0])
    } else {
        first_named(fields.drop_first(), name)
    }
}

pub proof fn lemma_first_named_concat(a: Seq<Input>, b: Seq<Input>, name: Seq<char>)
    ensures
        first_named(a + b, name) == match first_named(a, name) {
            Some(i) => Some(i),
            None => first_named(b, name),
        },
    decreases a.len(),
{
    if a.len() > 0 {
        assert((a + b).drop_first() =~= a.drop_first() + b);
        lemma_first_named_concat(a.drop_first(), b, name);
    } else {
        assert(a + b =~= b);
    }
}

/// The fields keep everything.
pub open spec fn same_fields(f1: Seq<Input>, f2: Seq<Input>) -> bool {
    same_layout(f1, f2) && forall|i: int| 0 <= i < f1.len() ==> (#[trigger] f2[i]).txt@ == f1[i].txt@
}

pub proof fn lemma_same_fields_concat(a1: Seq<Input>, a2: Seq<Input>, b1: Seq<Input>, b2: Seq<Input>)
    requires
        same_fields(a1, a2),
        same_fields(b1, b2),
    ensures
        same_fields(a1 + b1, a2 + b2),
{
    assert forall|i: int| 0 <= i < (a1 + b1).len() implies {
        let a = #[trigger] (a1 + b1)[i];
        let b = (a2 + b2)[i];
        b.area == a.area && b.name == a.name && b.active == a.active && b.pos == a.pos
    } by {
        if i < a1.len() {
            assert((a1 + b1)[i] == a1[i]);
            assert((a2 + b2)[i] == a2[i]);
        } else {
            assert((a1 + b1)[i] == b1[i - a1.len()]);
            assert((a2 + b2)[i] == b2[i - a1.len()]);
        }
    }
    assert forall|i: int| 0 <= i < (a1 + b1).len() implies (#[trigger] (a2 + b2)[i]).txt@ == (a1
        + b1)[i].txt@ by {
        if i < a1.len() {
            assert((a1 + b1)[i] == a1[i]);
            assert((a2 + b2)[i] == a2[i]);
        } else {
            assert((a1 + b1)[i] == b1[i - a1.len()]);
            assert((a2 + b2)[i] == b2[i - a1.len()]);
        }
    }
}

/// What a request keeps of the fields: everything for the requests that only read,
/// everything but texts for the others.
pub open spec fn fields_kept(req: AppRequest, f1: Seq<Input>, f2: Seq<Input>) -> bool {
    match req {
        AppRequest::CollectAllValues => same_fields(f1, f2),
        AppRequest::NextInput(_, _) => same_fields(f1, f2),
        _ => same_layout(f1, f2),
    }
}

/// What a request answers where the fields alone fix it: the values of all fields, and the
/// position of the first field below a row.
pub open spec fn answer_post(req: AppRequest, f1: Seq<Input>, r: Result<AppResult, AppError>) -> bool {
    match req {
        AppRequest::CollectAllValues => answered_values(r) == f1.map_values(
            |i: Input| (i.name@, i.txt@),
        ) && (r is Ok <==> f1.len() > 0) && (r is Ok ==> r matches Ok(AppResult::Values(_))),
        AppRequest::NextInput(_, y) => match first_below(f1, y) {
            Some(i) => r == Ok::<AppResult, AppError>(AppResult::NewCursorPosition(i.area.x, i.area.y)),
            None => r == Err::<AppResult, AppError>(AppError::NotRelevant),
        },
        _ => true,
    }
}

/// What a request does to the fields and answers.
pub open spec fn request_post(
    req: AppRequest,
    f1: Seq<Input>,
    f2: Seq<Input>,
    r: Result<AppResult, AppError>,
) -> bool {
    fields_kept(req, f1, f2) && answer_post(req, f1, r)
}

pub proof fn lemma_same_layout_concat(a1: Seq<Input>, a2: Seq<Input>, b1: Seq<Input>, b2: Seq<Input>)
    requires
        same_layout(a1, a2),
        same_layout(b1, b2),
    ensures
        same_layout(a1 + b1, a2 + b2),
{
    assert forall|i: int| 0 <= i < (a1 + b1).len() implies {
        let a = #[trigger] (a1 + b1)[i];
        let b = (a2 + b2)[i];
        b.area == a.area && b.name == a.name && b.active == a.active && b.pos == a.pos
    } by {
        if i < a1.len() {
            assert((a1 + b1)[i] == a1[i]);
            assert((a2 + b2)[i] == a2[i]);
        } else {
            assert((a1 + b1)[i] == b1[i - a1.len()]);
            assert((a2 + b2)[i] == b2[i - a1.len()]);
        }
    }
}

pub proof fn lemma_kept_concat(req: AppRequest, a1: Seq<Input>, a2: Seq<Input>, b1: Seq<Input>, b2: Seq<Input>)
    requires
        fields_kept(req, a1, a2),
        fields_kept(req, b1, b2),
    ensures
        fields_kept(req, a1 + b1, a2 + b2),
{
    match req {
        AppRequest::CollectAllValues => lemma_same_fields_concat(a1, a2, b1, b2),
        AppRequest::NextInput(_, _) => lemma_same_fields_concat(a1, a2, b1, b2),
        _ => lemma_same_layout_concat(a1, a2, b1, b2),
    }
}

pub proof fn lemma_places_concat(a1: Seq<Input>, a2: Seq<Input>, b1: Seq<Input>, b2: Seq<Input>)
    requires
        same_fields_but_places(a1, a2),
        same_fields_but_places(b1, b2),
    ensures
        same_fields_but_places(a1 + b1, a2 + b2),
{
    assert forall|i: int| 0 <= i < (a1 + b1).len() implies {
        let a = #[trigger] (a1 + b1)[i];
        let b = (a2 + b2)[i];
        b.name == a.name && b.active == a.active && b.pos == a.pos && b.txt@ == a.txt@
    } by {
        if i < a1.len() {
            assert((a1 + b1)[i] == a1[i]);
            assert((a2 + b2)[i] == a2[i]);
        } else {
            assert((a1 + b1)[i] == b1[i - a1.len()]);
            assert((a2 + b2)[i] == b2[i - a1.len()]);
        }
    }
}

pub proof fn lemma_entries_split(v: Seq<Glyph>, k: int)
    requires
        0 <= k <= v.len(),
    ensures
        entries_list(v) == entries_list(v.take(k)) + entries_list(v.skip(k)),
    decreases v.len(),
{
    if k == v.len() {
        assert(v.take(k) =~= v);
        assert(v.skip(k) =~= Seq::<Glyph>::empty());
        assert(entries_list(v) + Seq::<(bool, Seq<char>, Seq<char>)>::empty() =~= entries_list(v));
    } else {
        lemma_entries_split(v.drop_last(), k);
        assert(v.drop_last().take(k) =~= v.take(k));
        assert(v.skip(k).drop_last() =~= v.drop_last().skip(k));
        assert(v.skip(k).last() == v.last());
        assert(entries_list(v.take(k)) + (entries_list(v.drop_last().skip(k)) + entries(v.last()))
            =~= entries_list(v.take(k)) + entries_list(v.drop_last().skip(k)) + entries(v.last()));
    }
}

pub proof fn lemma_inputs_split(v: Seq<Glyph>, k: int)
    requires
        0 <= k <= v.len(),
    ensures
        inputs_list(v) == inputs_list(v.take(k)) + inputs_list(v.skip(k)),
    decreases v.len(),
{
    if k == v.len() {
        assert(v.take(k) =~= v);
        assert(v.skip(k) =~= Seq::<Glyph>::empty());
        assert(inputs_list(v) + Seq::<Input>::empty() =~= inputs_list(v));
    } else {
        lemma_inputs_split(v.drop_last(), k);
        assert(v.drop_last().take(k) =~= v.take(k));
        assert(v.skip(k).drop_last() =~= v.drop_last().skip(k));
        assert(v.skip(k).last() == v.last());
    }
}


/// A widget that knows its area: a panel, or a frame around one with room for a border.
pub open spec fn has_area(g: Glyph) -> bool
    decreases g,
{
    match g {
        Glyph::Panel(_) => true,
        Glyph::Frame(f) => has_area(*f.content) && area_of(*f.content).w >= 2 && area_of(*f.content).h
            >= 2,
        _ => false,
    }
}

/// The widget after a resize: the panel, or the panel inside the frames, placed at the
/// origin with the given size; a label or field stays as it is.
pub open spec fn resized(g: Glyph, w: u16, h: u16) -> Glyph
    decreases g,
{
    match g {
        Glyph::Panel(p) => Glyph::Panel(Panel { area: Rect { x: 0, y: 0, w, h }, elements: p.elements }),
        Glyph::Frame(f) => Glyph::Frame(Frame { area: f.area, content: Box::new(resized(*f.content, w, h)) }),
        _ => g,
    }
}

/// The area of a widget that knows it: a panel's place, the inside of a frame's content.
pub open spec fn area_of(g: Glyph) -> Rect
    decreases g,
{
    match g {
        Glyph::Panel(p) => p.area,
        Glyph::Frame(f) => {
            let r = area_of(*f.content);
            Rect { x: (r.x + 1) as u16, y: (r.y + 1) as u16, w: (r.w - 2) as u16, h: (r.h - 2) as u16 }
        },
        _ => Rect { x: 0, y: 0, w: 0, h: 0 },
    }
}

/// A widget that can be drawn: frames around widgets that know their area.
pub open spec fn drawable(g: Glyph) -> bool
    decreases g,
{
    match g {
        Glyph::Panel(p) => forall|i: int| 0 <= i < p.elements@.len() ==> drawable(#[trigger] p.elements@[i]),
        Glyph::Frame(f) => has_area(Glyph::Frame(f)) && drawable(*f.content),
        _ => true,
    }
}

/// The number of commands that draw a widget.
/// `n` times the character `c`.
pub open spec fn repeated(c: char, n: nat) -> Seq<CmdView> {
    Seq::new(n, |i: int| CmdView::PrintChar(c))
}

/// The sides of a border on `n` rows from row `y` on: a bar left of column `x` and one right
/// after the `w` columns from `x` on.
pub open spec fn border_sides(x: u16, y: u16, w: u16, n: nat) -> Seq<CmdView>
    decreases n,
{
    if n == 0 {
        seq![]
    } else {
        border_sides(x, y, w, (n - 1) as nat) + seq![
            CmdView::MoveTo((x - 1) as u16, (y + n - 1) as u16),
            CmdView::PrintChar('\u{2502}'),
            CmdView::MoveTo((x + w) as u16, (y + n - 1) as u16),
            CmdView::PrintChar('\u{2502}'),
        ]
    }
}

/// The border drawn around the inside `r`: the top line on the row above, the sides on the
/// `h + 2` rows from `r.y` on, and the bottom line on row `r.y + r.h + 2`.
pub open spec fn border(r: Rect) -> Seq<CmdView> {
    seq![CmdView::MoveTo((r.x - 1) as u16, (r.y - 1) as u16), CmdView::PrintChar('\u{250c}')]
        + repeated('\u{2500}', r.w as nat) + seq![CmdView::PrintChar('\u{2510}')] + border_sides(
        r.x,
        r.y,
        r.w,
        (r.h + 2) as nat,
    ) + seq![
        CmdView::MoveTo((r.x - 1) as u16, (r.y + r.h + 2) as u16),
        CmdView::PrintChar('\u{2514}'),
    ] + repeated('\u{2500}', r.w as nat) + seq![CmdView::PrintChar('\u{2518}')]
}

/// The underscores that fill an input field after its text.
pub open spec fn fill_of(i: Input) -> Seq<char> {
    Seq::new(
        if i.txt@.len() < i.area.w {
            (i.area.w - i.txt@.len()) as nat
        } else {
            0nat
        },
        |k: int| '_',
    )
}

/// The commands that draw a widget: a label and an input field print their text at their
/// place, the field followed by its fill; a panel draws its widgets in order; a frame draws
/// its content and then its border.
pub open spec fn drawing(g: Glyph) -> Seq<CmdView>
    decreases g,
{
    match g {
        Glyph::Label(l) => seq![CmdView::MoveTo(l.area.x, l.area.y), CmdView::Print(l.txt@)],
        Glyph::Input(i) => seq![
            CmdView::MoveTo(i.area.x, i.area.y),
            CmdView::Print(i.txt@),
            CmdView::Print(fill_of(i)),
        ],
        Glyph::Panel(p) => drawing_list(p.elements@),
        Glyph::Frame(f) => drawing(*f.content) + border(area_of(Glyph::Frame(f))),
    }
}

/// The commands that draw the widgets one after the other.
pub open spec fn drawing_list(v: Seq<Glyph>) -> Seq<CmdView>
    decreases v,
{
    if v.len() == 0 {
        seq![]
    } else {
        drawing_list(v.drop_last()) + drawing(v.last())
    }
}

proof fn lemma_area_small(g: Glyph)
    requires
        glyph_ok(g),
        has_area(g),
    ensures
        area_of(g).x + area_of(g).w < 2 * LIMIT,
        area_of(g).y + area_of(g).h < 2 * LIMIT,
        g is Frame ==> area_of(g).x >= 1 && area_of(g).y >= 1,
    decreases g,
{
    if let Glyph::Frame(f) = g {
        lemma_area_small(*f.content);
    }
}

impl Glyph {
    /// A click: each field is activated exactly where the click lies in it. Answers
    /// `InputEnabled` where some field was hit.
    pub fn hit(&mut self, x: u16, y: u16) -> (r: Result<AppResult, AppError>)
        requires
            glyph_ok(*old(self)),
        ensures
            glyph_ok(*final(self)),
            hit_fields(inputs(*old(self)), inputs(*final(self)), x, y),
            (r matches Ok(AppResult::InputEnabled)) <==> exists|i: int|
                0 <= i < inputs(*old(self)).len() && in_rect(#[trigger] inputs(*old(self))[i].area, x, y),
            r is Ok ==> r matches Ok(AppResult::InputEnabled),
        decreases *old(self),
    {
        match self {
            Glyph::Label(_) => {
                assert(inputs(*old(self)).len() == 0);
                Err(AppError::NotRelevant)
            },
            Glyph::Input(i) => {
                let ghost i0 = *i;
                assert(inputs(*old(self)) =~= seq![i0]);
                let r = i.hit(x, y);
                proof {
                    assert(inputs(Glyph::Input(*i)) =~= seq![*i]);
                    if in_rect(i0.area, x, y) {
                        assert(in_rect(inputs(*old(self))[0].area, x, y));
                    }
                }
                r
            },
            Glyph::Panel(p) => p.hit(x, y),
            Glyph::Frame(f) => f.content.hit(x, y),
        }
    }

    /// Passes a terminal event to the widgets until one takes it. A frame takes a resize by
    /// laying itself out in the new size and asks for a redraw.
    pub fn handle_term_event(&mut self, ev: TermEvent) -> (r: Result<AppResult, AppError>)
        requires
            glyph_ok(*old(self)),
            events_ok(*old(self), ev),
        ensures
            glyph_ok(*final(self)),
            !(ev is Resize) ==> typed_fields(inputs(*old(self)), inputs(*final(self))),
            ev is Resize ==> same_fields_but_places(inputs(*old(self)), inputs(*final(self))),
            r == glyph_answer(*old(self), ev),
        decreases *old(self),
    {
        match self {
            Glyph::Label(_) => Err(AppError::NotRelevant),
            Glyph::Input(i) => {
                let ghost i0 = *i;
                assert(inputs(*old(self)) =~= seq![i0]);
                let r = i.handle_term_event(ev);
                proof {
                    assert(inputs(Glyph::Input(*i)) =~= seq![*i]);
                }
                r
            },
            Glyph::Panel(p) => p.handle_term_event(ev),
            Glyph::Frame(f) => {
                match ev {
                    TermEvent::Resize(w, h) => {
                        let ghost g0 = Glyph::Frame(*f);
                        f.allocate(Rect { x: 0, y: 0, w, h });
                        Ok(AppResult::Redraw)
                    },
                    _ => f.content.handle_term_event(ev),
                }
            },
        }
    }

    /// Passes a request to the widgets: a label or field of the name takes `SetValue`, the
    /// first field below the row answers `NextInput`, the first field of the name answers
    /// `GetValue`, and `CollectAllValues` gathers the names and texts of all fields.
    pub fn handle_app_request(&mut self, req: &AppRequest) -> (r: Result<AppResult, AppError>)
        requires
            glyph_ok(*old(self)),
            req matches AppRequest::SetValue { value, .. } ==> value@.len() < LIMIT,
        ensures
            glyph_ok(*final(self)),
            request_post(*req, inputs(*old(self)), inputs(*final(self)), r),
            entries_post(*req, entries(*old(self)), entries(*final(self)), r),
        decreases *old(self),
    {
        match self {
            Glyph::Label(l) => {
                let ghost l0 = *l;
                let r = l.handle_app_request(req);
                proof {
                    let e0 = entries(Glyph::Label(l0));
                    assert(e0.drop_first() =~= Seq::<(bool, Seq<char>, Seq<char>)>::empty());
                    if let AppRequest::GetValue(name) = req {
                        assert(field_text(e0.drop_first(), name@) is None);
                    }
                    if let AppRequest::SetValue { name, value } = req {
                        let e = entries(Glyph::Label(l0));
                        if name@ == l0.name@ {
                            assert(set_named(e, name@, value@) =~= seq![(false, l0.name@, value@)]);
                        } else {
                            assert(text_of_named(e.drop_first(), name@) is None);
                            lemma_set_named_none(e, name@, value@);
                        }
                    }
                    assert(inputs(*old(self)) =~= Seq::<Input>::empty());
                    assert(inputs(*self) =~= Seq::<Input>::empty());
                    assert(Seq::<Input>::empty().map_values(|i: Input| (i.name@, i.txt@)) =~= Seq::<
                        (Seq<char>, Seq<char>),
                    >::empty());
                    assert(answered_values(r) =~= Seq::<(Seq<char>, Seq<char>)>::empty());
                }
                r
            },
            Glyph::Input(i) => {
                let ghost i0 = *i;
                assert(inputs(*old(self)) =~= seq![i0]);
                let r = i.handle_app_request(req);
                proof {
                    let e0 = entries(Glyph::Input(i0));
                    assert(e0.drop_first() =~= Seq::<(bool, Seq<char>, Seq<char>)>::empty());
                    if let AppRequest::GetValue(name) = req {
                        assert(field_text(e0.drop_first(), name@) is None);
                    }
                    if let AppRequest::SetValue { name, value } = req {
                        let e = entries(Glyph::Input(i0));
                        if name@ == i0.name@ {
                            assert(set_named(e, name@, value@) =~= seq![(true, i0.name@, value@)]);
                        } else {
                            assert(text_of_named(e.drop_first(), name@) is None);
                            lemma_set_named_none(e, name@, value@);
                        }
                    }
                    assert(inputs(Glyph::Input(*i)) =~= seq![*i]);
                    if req is CollectAllValues {
                        let vs = r->Ok_0->Values_0;
                        assert(values_view(vs@) =~= seq![i0].map_values(|i: Input| (i.name@, i.txt@)));
                    }
                    if let AppRequest::NextInput(_, y) = *req {
                        assert(seq![i0].drop_first() =~= Seq::<Input>::empty());
                        assert(seq![i0][0] == i0);
                        assert(first_below(Seq::<Input>::empty(), y) is None);
                        assert(first_below(seq![i0], y) == if i0.area.y > y {
                            Some(i0)
                        } else {
                            None::<Input>
                        });
                    }
                }
                r
            },
            Glyph::Panel(p) => p.handle_app_request(req),
            Glyph::Frame(f) => f.content.handle_app_request(req),
        }
    }

    /// Lays the widget out in `allocation`: a panel stacks its widgets one row each, a frame
    /// gives its content the inside of its border.
    pub fn allocate(&mut self, allocation: Rect)
        requires
            glyph_ok(*old(self)),
            alloc_ok(*old(self), allocation),
        ensures
            glyph_ok(*final(self)),
            glyph_area(*final(self)) == allocation,
            same_fields_but_places(inputs(*old(self)), inputs(*final(self))),
        decreases *old(self),
    {
        match self {
            Glyph::Label(l) => {
                l.area = allocation;
            },
            Glyph::Input(i) => {
                let ghost i0 = *i;
                i.allocate(allocation);
                proof {
                    assert(inputs(*old(self)) =~= seq![i0]);
                    assert(inputs(Glyph::Input(*i)) =~= seq![*i]);
                }
            },
            Glyph::Panel(p) => p.allocate(allocation),
            Glyph::Frame(f) => f.allocate(allocation),
        }
    }

    /// The area of a panel, or the inside of a frame's content.
    pub fn area(&self) -> (r: Rect)
        requires
            glyph_ok(*self),
            has_area(*self),
        ensures
            r == area_of(*self),
            r.x + r.w < 2 * LIMIT,
            r.y + r.h < 2 * LIMIT,
            *self is Frame ==> r.x >= 1 && r.y >= 1,
        decreases *self,
    {
        proof {
            lemma_area_small(*self);
        }
        match self {
            Glyph::Panel(p) => p.area,
            Glyph::Frame(f) => {
                let r = f.content.area();
                Rect { x: r.x + 1, y: r.y + 1, w: r.w - 2, h: r.h - 2 }
            },
            _ => Rect::new(),
        }
    }

    /// The commands that draw the widget: a panel draws its widgets in order, a frame its
    /// content and then a border around the content's inside.
    pub fn write_to(&self) -> (r: Vec<ScreenCmd>)
        requires
            glyph_ok(*self),
            drawable(*self),
        ensures
            cmds_view(r@) == drawing(*self),
        decreases *self,
    {
        match self {
            Glyph::Label(l) => {
                let v = l.write_to();
                assert(cmds_view(v@) =~= drawing(*self));
                v
            },
            Glyph::Input(i) => {
                let v = i.write_to();
                assert(cmds_view(v@) =~= drawing(*self));
                v
            },
            Glyph::Panel(p) => p.write_to(),
            Glyph::Frame(f) => {
                let mut v = f.content.write_to();
                let r = self.area();
                let ghost top = cmds_view(v@) + seq![
                    CmdView::MoveTo((r.x - 1) as u16, (r.y - 1) as u16),
                    CmdView::PrintChar('\u{250c}'),
                ];
                v.push(ScreenCmd::MoveTo(r.x - 1, r.y - 1));
                v.push(ScreenCmd::PrintChar('\u{250c}'));
                assert(cmds_view(v@) =~= top);
                let mut i: u16 = 0;
                while i < r.w
                    invariant
                        i <= r.w,
                        cmds_view(v@) == top + repeated('\u{2500}', i as nat),
                    decreases r.w - i,
                {
                    let ghost before = v@;
                    v.push(ScreenCmd::PrintChar('\u{2500}'));
                    proof {
                        lemma_cmds_push(before, ScreenCmd::PrintChar('\u{2500}'));
                        assert(repeated('\u{2500}', (i + 1) as nat) =~= repeated(
                            '\u{2500}',
                            i as nat,
                        ).push(CmdView::PrintChar('\u{2500}')));
                    }
                    assert(cmds_view(v@) =~= top + repeated('\u{2500}', (i + 1) as nat));
                    i = i + 1;
                }
                v.push(ScreenCmd::PrintChar('\u{2510}'));
                let ghost head = top + repeated('\u{2500}', r.w as nat) + seq![
                    CmdView::PrintChar('\u{2510}'),
                ];
                assert(cmds_view(v@) =~= head);
                let mut y: u16 = r.y;
                while y < r.y + r.h + 2
                    invariant
                        r.x + r.w < 2 * LIMIT,
                        r.y + r.h < 2 * LIMIT,
                        r.x >= 1,
                        r.y <= y <= r.y + r.h + 2,
                        cmds_view(v@) == head + border_sides(r.x, r.y, r.w, (y - r.y) as nat),
                    decreases r.y + r.h + 2 - y,
                {
                    let ghost v0 = v@;
                    v.push(ScreenCmd::MoveTo(r.x - 1, y));
                    let ghost v1 = v@;
                    v.push(ScreenCmd::PrintChar('\u{2502}'));
                    let ghost v2 = v@;
                    v.push(ScreenCmd::MoveTo(r.x + r.w, y));
                    let ghost v3 = v@;
                    v.push(ScreenCmd::PrintChar('\u{2502}'));
                    proof {
                        lemma_cmds_push(v0, ScreenCmd::MoveTo((r.x - 1) as u16, y));
                        lemma_cmds_push(v1, ScreenCmd::PrintChar('\u{2502}'));
                        lemma_cmds_push(v2, ScreenCmd::MoveTo((r.x + r.w) as u16, y));
                        lemma_cmds_push(v3, ScreenCmd::PrintChar('\u{2502}'));
                        let n = (y + 1 - r.y) as nat;
                        assert(border_sides(r.x, r.y, r.w, n) == border_sides(
                            r.x,
                            r.y,
                            r.w,
                            (n - 1) as nat,
                        ) + seq![
                            CmdView::MoveTo((r.x - 1) as u16, y),
                            CmdView::PrintChar('\u{2502}'),
                            CmdView::MoveTo((r.x + r.w) as u16, y),
                            CmdView::PrintChar('\u{2502}'),
                        ]);
                    }
                    assert(cmds_view(v@) =~= head + border_sides(r.x, r.y, r.w, (y + 1 - r.y) as nat));
                    y = y + 1;
                }
                let ghost sides = head + border_sides(r.x, r.y, r.w, (r.h + 2) as nat) + seq![
                    CmdView::MoveTo((r.x - 1) as u16, (r.y + r.h + 2) as u16),
                    CmdView::PrintChar('\u{2514}'),
                ];
                v.push(ScreenCmd::MoveTo(r.x - 1, r.y + r.h + 2));
                v.push(ScreenCmd::PrintChar('\u{2514}'));
                assert(cmds_view(v@) =~= sides);
                let mut i: u16 = 0;
                while i < r.w
                    invariant
                        i <= r.w,
                        cmds_view(v@) == sides + repeated('\u{2500}', i as nat),
                    decreases r.w - i,
                {
                    let ghost before = v@;
                    v.push(ScreenCmd::PrintChar('\u{2500}'));
                    proof {
                        lemma_cmds_push(before, ScreenCmd::PrintChar('\u{2500}'));
                        assert(repeated('\u{2500}', (i + 1) as nat) =~= repeated(
                            '\u{2500}',
                            i as nat,
                        ).push(CmdView::PrintChar('\u{2500}')));
                    }
                    assert(cmds_view(v@) =~= sides + repeated('\u{2500}', (i + 1) as nat));
                    i = i + 1;
                }
                let ghost last = v@;
                v.push(ScreenCmd::PrintChar('\u{2518}'));
                proof {
                    lemma_cmds_push(last, ScreenCmd::PrintChar('\u{2518}'));
                    let c = drawing(*f.content);
                    let b = border(r);
                    assert(r == area_of(*self));
                    assert(drawing(*self) == c + b);
                    assert(cmds_view(v@) =~= c + b);
                }
                v
            },
        }
    }

    /// Sets the size of a panel, or of a frame's content.
    pub fn resize(&mut self, width: u16, height: u16)
        requires
            has_area(*old(self)),
        ensures
            inputs(*final(self)) == inputs(*old(self)),
            *final(self) == resized(*old(self), width, height),
        decreases *old(self),
    {
        match self {
            Glyph::Panel(p) => {
                p.area = Rect { x: 0, y: 0, w: width, h: height };
            },
            Glyph::Frame(f) => f.content.resize(width, height),
            _ => {},
        }
    }

    /// The widget can be drawn: every frame in it surrounds a widget that knows its area and
    /// has room for a border.
    pub fn can_draw(&self) -> (r: bool)
        requires
            glyph_ok(*self),
        ensures
            r == drawable(*self),
        decreases *self,
    {
        match self {
            Glyph::Panel(p) => p.can_draw(),
            Glyph::Frame(f) => {
                if !f.content.has_area_exec() {
                    return false;
                }
                let a = f.content.area();
                a.w >= 2 && a.h >= 2 && f.content.can_draw()
            },
            _ => true,
        }
    }

    /// The widget is valid: places, cursors, texts and lists stay below `LIMIT`.
    pub fn is_valid(&self) -> (r: bool)
        ensures
            r == glyph_ok(*self),
        decreases *self,
    {
        match self {
            Glyph::Label(_) => true,
            Glyph::Input(i) => i.is_valid(),
            Glyph::Panel(p) => p.is_valid(),
            Glyph::Frame(f) => f.area.x < LIMIT && f.area.y < LIMIT && f.area.w < LIMIT && f.area.h < LIMIT
                && f.content.is_valid(),
        }
    }

    /// The widget can take `ev`.
    pub fn takes(&self, ev: TermEvent) -> (r: bool)
        ensures
            r == events_ok(*self, ev),
        decreases *self,
    {
        match self {
            Glyph::Label(_) => true,
            Glyph::Input(i) => i.takes(ev),
            Glyph::Panel(p) => p.takes(ev),
            Glyph::Frame(f) => match ev {
                TermEvent::Resize(w, h) => self.fits(Rect { x: 0, y: 0, w, h }),
                _ => f.content.takes(ev),
            },
        }
    }

    /// The widget can be laid out in `r`.
    pub fn fits(&self, r: Rect) -> (b: bool)
        ensures
            b == alloc_ok(*self, r),
        decreases *self,
    {
        if !(r.x < LIMIT && r.y < LIMIT && r.w < LIMIT && r.h < LIMIT) {
            return false;
        }
        match self {
            Glyph::Panel(p) => p.fits(r),
            Glyph::Frame(f) => r.w >= 2 && r.h >= 2 && f.content.fits(
                Rect { x: r.x + 1, y: r.y + 1, w: r.w - 2, h: r.h - 2 },
            ),
            _ => true,
        }
    }

    /// The widget knows its area.
    pub fn has_area_exec(&self) -> (r: bool)
        requires
            glyph_ok(*self),
        ensures
            r == has_area(*self),
        decreases *self,
    {
        match self {
            Glyph::Panel(_) => true,
            Glyph::Frame(f) => {
                if !f.content.has_area_exec() {
                    return false;
                }
                let a = f.content.area();
                a.w >= 2 && a.h >= 2
            },
            _ => false,
        }
    }

    /// The widget has a place to show in: a label always, a field or panel of some size, a
    /// frame where its content has one.
    pub fn allocated(&self) -> (r: bool)
        ensures
            r == glyph_allocated(*self),
        decreases *self,
    {
        match self {
            Glyph::Label(_) => true,
            Glyph::Input(i) => i.allocated(),
            Glyph::Panel(p) => p.area.w > 0 && p.area.h > 0,
            Glyph::Frame(f) => f.content.allocated(),
        }
    }
}

} // verus!
