use vstd::prelude::*;

use std::rc::Rc;

use crate::ui::glyph::{cmds_view, CmdView, ScreenCmd, TermEvent};

verus! {

/// A value shown by a control.
pub enum Value {
    Literal(&'static str),
}

impl Value {
    fn new_literal(x: &'static str) -> (v: Value)
        ensures
            v == Value::Literal(x),
    {
        Value::Literal(x)
    }
}

/// The text a control shows.
#[derive(Clone)]
pub struct TextContent {
    pub content: String,
}

impl TextContent {
    pub fn new(content: &str) -> (t: Self)
        ensures
            t.content@ == content@,
    {
        TextContent { content: content.to_owned() }
    }

    fn empty() -> (t: TextContent)
        ensures
            t.content@ == Seq::<char>::empty(),
    {
        proof {
            reveal_strlit("");
        }
        Self::new("")
    }
}

/// A control of a form: it draws itself as screen commands and passes events on.
pub trait Widget {
    /// The control can be drawn: its positions fit the screen's coordinates.
    spec fn drawable(&self) -> bool;

    /// The commands that draw the control.
    spec fn drawing(&self) -> Seq<CmdView>;

    fn draw(&self) -> (r: Vec<ScreenCmd>)
        requires
            self.drawable(),
        ensures
            cmds_view(r@) == self.drawing(),
    ;

    /// Controls pass every event on.
    fn handle_event(&self, e: TermEvent) -> (r: Option<TermEvent>)
        ensures
            r == Some(e),
    ;
}

pub struct Size {
    pub width: u16,
    pub height: u16,
}

pub struct Location {
    pub x: u16,
    pub y: u16,
}

pub struct Rect {
    pub location: Location,
    pub size: Size,
}

/// A text at a location.
pub struct Label {
    pub txt: TextContent,
    pub location: Location,
}

/// An input field of a width at a location.
pub struct TextInput {
    pub txt: TextContent,
    pub location: Location,
    pub width: u16,
}

/// Controls drawn one after the other.
pub struct Form {
    v: Vec<WidgetRef>,
}

/// A shared reference to a control.
pub struct WidgetRef {
    w: Rc<Control>,
}

/// The kinds of control a `WidgetRef` holds.
pub enum Control {
    Label(Label),
    TextInput(TextInput),
    Form(Form),
}

/// Moves to the label's location and prints its text.
pub open spec fn label_drawing(l: Label) -> Seq<CmdView> {
    seq![CmdView::MoveTo(l.location.x, l.location.y), CmdView::Print(l.txt.content@)]
}

/// Prints the text at the location, then "]" at the end of the field.
pub open spec fn input_drawing(t: TextInput) -> Seq<CmdView> {
    seq![
        CmdView::MoveTo(t.location.x, t.location.y),
        CmdView::Print(t.txt.content@),
        CmdView::MoveTo((t.location.x + t.width) as u16, t.location.y),
        CmdView::Flush,
        CmdView::Print("]"@),
    ]
}

/// The end of an input field lies on the screen.
pub open spec fn input_fits(t: TextInput) -> bool {
    t.location.x + t.width <= u16::MAX
}

impl Form {
    pub closed spec fn spec_widgets(&self) -> Seq<WidgetRef> {
        self.v@
    }

    /// A form without controls.
    pub fn new() -> (f: Form)
        ensures
            f.spec_widgets().len() == 0,
            f.drawable(),
            f.drawing() == Seq::<CmdView>::empty(),
    {
        Form { v: Vec::new() }
    }

    /// Adds a control after the others.
    pub fn add(&mut self, w: WidgetRef)
        ensures
            final(self).spec_widgets() == old(self).spec_widgets().push(w),
            final(self).drawable() == (old(self).drawable() && w.drawable()),
            final(self).drawing() == old(self).drawing() + w.drawing(),
    {
        self.v.push(w);
        proof {
            assert(self.v@.subrange(0, self.v@.len() - 1) =~= old(self).v@);
            assert(control_ok(Control::Form(*self)) == (control_ok(Control::Form(*old(self)))
                && control_ok(*w.w))) by {
                if control_ok(Control::Form(*old(self))) && control_ok(*w.w) {
                    assert forall|i: int| 0 <= i < self.v@.len() implies control_ok(
                        *(#[trigger] self.v@[i]).w,
                    ) by {
                        if i < old(self).v@.len() {
                            assert(self.v@[i] == old(self).v@[i]);
                        }
                    }
                }
                if control_ok(Control::Form(*self)) {
                    assert(self.v@[self.v@.len() - 1] == w);
                    assert forall|i: int| 0 <= i < old(self).v@.len() implies control_ok(
                        *(#[trigger] old(self).v@[i]).w,
                    ) by {
                        assert(self.v@[i] == old(self).v@[i]);
                    }
                }
            }
        }
    }
}

impl WidgetRef {
    pub closed spec fn control(&self) -> Control {
        *self.w
    }
}

/// Every input field of the control fits the screen.
pub closed spec fn control_ok(c: Control) -> bool
    decreases c,
{
    match c {
        Control::Label(_) => true,
        Control::TextInput(t) => input_fits(t),
        Control::Form(f) => forall|i: int|
            0 <= i < f.v@.len() ==> control_ok(*(#[trigger] f.v@[i]).w),
    }
}

/// The commands that draw the control: a form draws its controls one after the other.
pub closed spec fn control_drawing(c: Control) -> Seq<CmdView>
    decreases c, 0nat,
{
    match c {
        Control::Label(l) => label_drawing(l),
        Control::TextInput(t) => input_drawing(t),
        Control::Form(f) => widgets_drawing(f.v@),
    }
}

/// The commands that draw the controls one after the other.
pub closed spec fn widgets_drawing(ws: Seq<WidgetRef>) -> Seq<CmdView>
    decreases ws, 0nat,
{
    if ws.len() == 0 {
        seq![]
    } else {
        widgets_drawing(ws.subrange(0, ws.len() - 1)) + control_drawing(*ws[ws.len() - 1].w)
    }
}

impl Label {
    /// A label with the text `arg` at (0, 0).
    pub fn new(arg: &str) -> (w: WidgetRef)
        ensures
            w.control() matches Control::Label(l) && l.txt.content@ == arg@ && l.location.x == 0
                && l.location.y == 0,
            w.drawable(),
            w.drawing() == seq![CmdView::MoveTo(0, 0), CmdView::Print(arg@)],
    {
        let l = Label { txt: TextContent::new(arg), location: Location { x: 0, y: 0 } };
        WidgetRef { w: Rc::new(Control::Label(l)) }
    }

    /// The label's text.
    pub fn content(&self) -> (t: TextContent)
        ensures
            t.content == self.txt.content,
    {
        TextContent { content: self.txt.content.clone() }
    }
}

impl TextInput {
    /// An empty input field of width `arg` at (0, 0).
    pub fn new(arg: u16) -> (w: WidgetRef)
        ensures
            w.control() matches Control::TextInput(t) && t.txt.content@ == Seq::<char>::empty()
                && t.location.x == 0 && t.location.y == 0 && t.width == arg,
            w.drawable(),
            w.drawing() == seq![
                CmdView::MoveTo(0, 0),
                CmdView::Print(Seq::<char>::empty()),
                CmdView::MoveTo(arg, 0),
                CmdView::Flush,
                CmdView::Print("]"@),
            ],
    {
        let t = TextInput { txt: TextContent::empty(), location: Location { x: 0, y: 0 }, width: arg };
        WidgetRef { w: Rc::new(Control::TextInput(t)) }
    }
}

/// Appends the commands that draw the control.
fn draw_control(c: &Control, out: &mut Vec<ScreenCmd>)
    requires
        control_ok(*c),
    ensures
        cmds_view(final(out)@) == cmds_view(old(out)@) + control_drawing(*c),
    decreases *c, 1nat,
{
    let ghost before = out@;
    match c {
        Control::Label(l) => {
            out.push(ScreenCmd::MoveTo(l.location.x, l.location.y));
            out.push(ScreenCmd::Print(l.txt.content.clone()));
        },
        Control::TextInput(t) => {
            out.push(ScreenCmd::MoveTo(t.location.x, t.location.y));
            out.push(ScreenCmd::Print(t.txt.content.clone()));
            out.push(ScreenCmd::MoveTo(t.location.x + t.width, t.location.y));
            out.push(ScreenCmd::Flush);
            out.push(ScreenCmd::Print("]".to_owned()));
            proof {
                reveal_strlit("]");
            }
        },
        Control::Form(f) => {
            draw_widgets(c, &f.v, out);
        },
    }
    assert(cmds_view(out@) =~= cmds_view(before) + control_drawing(*c));
}

/// Appends the commands that draw the controls of the form `c` one after the other.
fn draw_widgets(c: &Control, ws: &Vec<WidgetRef>, out: &mut Vec<ScreenCmd>)
    requires
        *c == Control::Form(Form { v: *ws }),
        control_ok(*c),
    ensures
        cmds_view(final(out)@) == cmds_view(old(out)@) + widgets_drawing(ws@),
    decreases *c, 0nat,
{
    let mut i: usize = 0;
    assert(ws@.subrange(0, 0) =~= Seq::<WidgetRef>::empty());
    assert(cmds_view(out@) =~= cmds_view(old(out)@) + widgets_drawing(ws@.subrange(0, 0)));
    while i < ws.len()
        invariant
            i <= ws@.len(),
            *c == Control::Form(Form { v: *ws }),
            control_ok(*c),
            cmds_view(out@) == cmds_view(old(out)@) + widgets_drawing(ws@.subrange(0, i as int)),
        decreases ws.len() - i,
    {
        proof {
            lemma_widget_decreases(*c, i as int);
            assert(control_ok(*ws@[i as int].w));
            assert(ws@.subrange(0, i + 1).subrange(0, i as int) =~= ws@.subrange(0, i as int));
            assert(ws@.subrange(0, i + 1)[i as int] == ws@[i as int]);
        }
        let ghost mid = out@;
        draw_control(&*ws[i].w, out);
        assert(cmds_view(out@) =~= cmds_view(old(out)@) + widgets_drawing(
            ws@.subrange(0, i + 1),
        ));
        i = i + 1;
    }
    assert(ws@.subrange(0, ws@.len() as int) =~= ws@);
}

/// A control of a form is smaller than the form.
proof fn lemma_widget_decreases(c: Control, i: int)
    requires
        c is Form,
        0 <= i < c->Form_0.v@.len(),
    ensures
        decreases_to!(c => *c->Form_0.v@[i].w),
{
    let f = c->Form_0;
    assert(decreases_to!(c => f));
    assert(decreases_to!(f => f.v));
    assert(decreases_to!(f.v => f.v@));
    assert(decreases_to!(f.v@ => f.v@[i]));
    assert(decreases_to!(f.v@[i] => f.v@[i].w));
}

impl Widget for WidgetRef {
    closed spec fn drawable(&self) -> bool {
        control_ok(*self.w)
    }

    closed spec fn drawing(&self) -> Seq<CmdView> {
        control_drawing(*self.w)
    }

    fn draw(&self) -> (r: Vec<ScreenCmd>) {
        let mut out: Vec<ScreenCmd> = Vec::new();
        draw_control(&*self.w, &mut out);
        assert(cmds_view(out@) =~= control_drawing(*self.w));
        out
    }

    fn handle_event(&self, e: TermEvent) -> (r: Option<TermEvent>) {
        Some(e)
    }
}

impl Widget for Form {
    closed spec fn drawable(&self) -> bool {
        control_ok(Control::Form(*self))
    }

    closed spec fn drawing(&self) -> Seq<CmdView> {
        widgets_drawing(self.v@)
    }

    fn draw(&self) -> (r: Vec<ScreenCmd>) {
        let mut out: Vec<ScreenCmd> = Vec::new();
        let mut i: usize = 0;
        assert(self.v@.subrange(0, 0) =~= Seq::<WidgetRef>::empty());
        while i < self.v.len()
            invariant
                i <= self.v@.len(),
                control_ok(Control::Form(*self)),
                cmds_view(out@) == widgets_drawing(self.v@.subrange(0, i as int)),
            decreases self.v.len() - i,
        {
            proof {
                assert(control_ok(*self.v@[i as int].w));
                assert(self.v@.subrange(0, i + 1).subrange(0, i as int) =~= self.v@.subrange(
                    0,
                    i as int,
                ));
                assert(self.v@.subrange(0, i + 1)[i as int] == self.v@[i as int]);
            }
            draw_control(&*self.v[i].w, &mut out);
            i = i + 1;
        }
        assert(self.v@.subrange(0, self.v@.len() as int) =~= self.v@);
        out
    }

    fn handle_event(&self, e: TermEvent) -> (r: Option<TermEvent>) {
        Some(e)
    }
}

impl Widget for Label {
    open spec fn drawable(&self) -> bool {
        true
    }

    open spec fn drawing(&self) -> Seq<CmdView> {
        label_drawing(*self)
    }

    fn draw(&self) -> (r: Vec<ScreenCmd>) {
        let mut out: Vec<ScreenCmd> = Vec::new();
        out.push(ScreenCmd::MoveTo(self.location.x, self.location.y));
        out.push(ScreenCmd::Print(self.txt.content.clone()));
        assert(cmds_view(out@) =~= label_drawing(*self));
        out
    }

    fn handle_event(&self, e: TermEvent) -> (r: Option<TermEvent>) {
        Some(e)
    }
}

impl Widget for TextInput {
    open spec fn drawable(&self) -> bool {
        input_fits(*self)
    }

    open spec fn drawing(&self) -> Seq<CmdView> {
        input_drawing(*self)
    }

    fn draw(&self) -> (r: Vec<ScreenCmd>) {
        let mut out: Vec<ScreenCmd> = Vec::new();
        out.push(ScreenCmd::MoveTo(self.location.x, self.location.y));
        out.push(ScreenCmd::Print(self.txt.content.clone()));
        out.push(ScreenCmd::MoveTo(self.location.x + self.width, self.location.y));
        out.push(ScreenCmd::Flush);
        out.push(ScreenCmd::Print("]".to_owned()));
        proof {
            reveal_strlit("]");
        }
        assert(cmds_view(out@) =~= input_drawing(*self));
        out
    }

    fn handle_event(&self, e: TermEvent) -> (r: Option<TermEvent>) {
        Some(e)
    }
}

} // verus!
