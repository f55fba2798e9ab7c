use vstd::prelude::*;

use crate::text::chars_of;
use crate::ui::glyph::{
    control_only, drawable, events_ok, first_below, glyph_answer, glyph_allocated, glyph_ok, hit_fields, inputs, same_fields_but_places, typed_fields,
    no_modifiers, AppRequest, AppResult, input::Input, Glyph, Key, KeyKind, MouseKind, ScreenCmd, TermEvent, LIMIT,
};

verus! {

/// The state of the form loop of the terminal program: the form, the cursor and the
/// requests that wait until the form is laid out.
pub struct EventLoop {
    pub form: Glyph,
    pub x: u16,
    pub y: u16,
    pub requests: Vec<AppRequest>,
}

/// What the program does after an event: whether it ends, and what it sends to the screen.
pub struct Step {
    pub quit: bool,
    pub commands: Vec<ScreenCmd>,
}

/// An answer the loop has no use for came back.
#[derive(Debug, Clone, Copy, PartialEq, Eq, Structural)]
pub enum LoopError {
    UnexpectedAnswer,
    /// The form has a frame without room for its border.
    NotDrawable,
}

/// Every waiting request can be handed to the form.
pub open spec fn requests_ok(v: Seq<AppRequest>) -> bool {
    forall|i: int|
        0 <= i < v.len() ==> (#[trigger] v[i] matches AppRequest::SetValue { value, .. } ==> value@.len()
            < LIMIT)
}

/// The state can take the event: the form is valid and drawable, the event fits the form,
/// and the cursor can move where the event moves it.
pub open spec fn loop_ok(s: EventLoop, ev: TermEvent) -> bool {
    &&& glyph_ok(s.form)
    &&& events_ok(s.form, ev)
    &&& requests_ok(s.requests@)
    &&& (ev matches TermEvent::Key { code: Key::Down, kind: KeyKind::Press, .. } ==> s.y < u16::MAX)
    &&& (ev matches TermEvent::Key { code: Key::Right, kind: KeyKind::Press, .. } ==> s.x < u16::MAX)
}

/// The event ends the loop: escape, or enter with only control held.
pub open spec fn quits(ev: TermEvent) -> bool {
    ||| ev matches TermEvent::Key { code: Key::Esc, .. }
    ||| ev matches TermEvent::Key { code: Key::Enter, modifiers, kind: KeyKind::Press } && control_only(
        modifiers,
    )
}

/// Where a cursor movement event puts the cursor, for the events that move it.
pub open spec fn moved_cursor(x: u16, y: u16, ev: TermEvent) -> Option<(u16, u16)> {
    match ev {
        TermEvent::Key { code: Key::Up, kind: KeyKind::Press, .. } => Some((x, if y > 0 { (y - 1) as u16 } else { y })),
        TermEvent::Key { code: Key::Down, kind: KeyKind::Press, .. } => Some((x, (y + 1) as u16)),
        TermEvent::Key { code: Key::Left, kind: KeyKind::Press, .. } => Some((if x > 0 { (x - 1) as u16 } else { x }, y)),
        TermEvent::Key { code: Key::Right, kind: KeyKind::Press, .. } => Some(((x + 1) as u16, y)),
        TermEvent::Mouse { kind: MouseKind::Down, column, row } => Some((column, row)),
        _ => None,
    }
}

/// The loop hands the event to the form: it neither ends the loop, nor moves the cursor, nor
/// is a mouse event or a plain enter.
pub open spec fn to_form(ev: TermEvent) -> bool {
    &&& !quits(ev)
    &&& !(ev is Mouse)
    &&& moved_cursor(0, 0, ev) is None
    &&& !(ev matches TermEvent::Key { code: Key::Enter, modifiers, kind: KeyKind::Press } && no_modifiers(
        modifiers,
    ))
}

impl EventLoop {
    /// A loop on `form` that first sets the given values and then moves to the first field.
    pub fn new(form: Glyph, values: &Vec<(String, String)>) -> (r: Self)
        requires
            forall|i: int| 0 <= i < values@.len() ==> (#[trigger] values@[i]).1@.len() < LIMIT,
        ensures
            r.form == form,
            r.x == 0 && r.y == 0,
            requests_ok(r.requests@),
            r.requests@.len() == values@.len() + 1,
            r.requests@.last() == AppRequest::NextInput(0, 0),
    {
        let mut requests: Vec<AppRequest> = Vec::new();
        let mut i: usize = 0;
        while i < values.len()
            invariant
                i <= values@.len(),
                requests@.len() == i,
                forall|k: int| 0 <= k < values@.len() ==> (#[trigger] values@[k]).1@.len() < LIMIT,
                requests_ok(requests@),
            decreases values.len() - i,
        {
            let (name, val) = &values[i];
            requests.push(AppRequest::SetValue { name: name.clone(), value: val.clone() });
            i = i + 1;
        }
        requests.push(AppRequest::NextInput(0, 0));
        EventLoop { form, x: 0, y: 0, requests }
    }

    /// The loop can take `ev`: the form is valid and can take the event, every waiting
    /// value fits a field, and the cursor can move where the event moves it.
    pub fn can_take(&self, ev: TermEvent) -> (r: bool)
        ensures
            r == loop_ok(*self, ev),
    {
        if !self.form.is_valid() || !self.form.takes(ev) {
            return false;
        }
        let mut i: usize = 0;
        while i < self.requests.len()
            invariant
                i <= self.requests@.len(),
                forall|k: int|
                    0 <= k < i ==> (#[trigger] self.requests@[k] matches AppRequest::SetValue { value, .. }
                        ==> value@.len() < LIMIT),
            decreases self.requests.len() - i,
        {
            if let AppRequest::SetValue { value, .. } = &self.requests[i] {
                if chars_of(value.as_str()).len() >= LIMIT as usize {
                    return false;
                }
            }
            i = i + 1;
        }
        match ev {
            TermEvent::Key { code: Key::Down, kind: KeyKind::Press, .. } => self.y < u16::MAX,
            TermEvent::Key { code: Key::Right, kind: KeyKind::Press, .. } => self.x < u16::MAX,
            _ => true,
        }
    }

    /// The names and texts of all fields of the form, where it has any.
    pub fn collect_values(&mut self) -> (r: Option<Vec<(String, String)>>)
        requires
            glyph_ok(old(self).form),
        ensures
            glyph_ok(final(self).form),
            match r {
                Some(vs) => crate::ui::glyph::values_view(vs@) == crate::ui::glyph::input_values(old(self).form)
                    && vs@.len() > 0,
                None => inputs(old(self).form).len() == 0,
            },
    {
        match self.form.handle_app_request(&AppRequest::CollectAllValues) {
            Ok(AppResult::Values(vs)) => {
                proof {
                    assert(crate::ui::glyph::values_view(vs@).len() == vs@.len());
                }
                Some(vs)
            },
            _ => None,
        }
    }

    /// Handles one terminal event. Escape and control-enter end the loop. Arrow keys and a
    /// mouse click move the cursor, enter asks for the next field below the cursor, and any
    /// other event goes to the form. Waiting requests then go to the form (those for the next
    /// field wait until the form is laid out), the answers move the cursor or ask for a
    /// redraw, the field under the cursor becomes the active one, and the cursor is shown.
    #[verifier::loop_isolation(false)]
    pub fn on_event(&mut self, ev: TermEvent) -> (r: Result<Step, LoopError>)
        requires
            loop_ok(*old(self), ev),
        ensures
            glyph_ok(final(self).form),
            requests_ok(final(self).requests@),
            r matches Ok(step) ==> step.quit == quits(ev),
            r matches Ok(step) ==> (step.quit ==> step.commands@.len() == 0 && final(self).x == old(
                self,
            ).x && final(self).y == old(self).y),
            r matches Ok(step) ==> (!step.quit ==> ({
                let n = step.commands@.len();
                &&& n >= 3
                &&& step.commands@[n - 2] == ScreenCmd::MoveTo(final(self).x, final(self).y)
                &&& step.commands@[n - 1] == ScreenCmd::Flush
                &&& forall|i: int|
                    0 <= i < inputs(final(self).form).len() ==> (#[trigger] inputs(final(self).form)[i]).active
                        == crate::ui::glyph::in_rect(inputs(final(self).form)[i].area, final(self).x, final(self).y)
            })),
            quits(ev) ==> r is Ok,
            old(self).requests@.len() == 0 && (ev is Mouse || moved_cursor(old(self).x, old(self).y, ev) is Some)
                ==> r is Ok,
            old(self).requests@.len() == 0 && to_form(ev) && glyph_answer(old(self).form, ev) is Err ==> r is Ok
                && final(self).x == old(self).x && final(self).y == old(self).y,
            old(self).requests@.len() == 0 && to_form(ev) && (glyph_answer(old(self).form, ev) matches Ok(
                AppResult::StringValue(_),
            ) || glyph_answer(old(self).form, ev) matches Ok(AppResult::InputEnabled)) ==> r == Err::<
                Step,
                LoopError,
            >(LoopError::UnexpectedAnswer),
            r == Err::<Step, LoopError>(LoopError::NotDrawable) ==> !drawable(final(self).form),
            r is Ok && old(self).requests@.len() == 0 && to_form(ev) ==> exists|f1: Seq<Input>|
                #[trigger] crate::evaluation::witness(f1) && (if ev is Resize {
                    same_fields_but_places(inputs(old(self).form), f1)
                } else {
                    typed_fields(inputs(old(self).form), f1)
                }) && hit_fields(f1, inputs(final(self).form), final(self).x, final(self).y),
            r is Ok && old(self).requests@.len() == 0 ==> match moved_cursor(old(self).x, old(self).y, ev) {
                Some((x, y)) => final(self).x == x && final(self).y == y,
                None => true,
            },
    {
        let mut commands: Vec<ScreenCmd> = Vec::new();
        let mut responses: Vec<AppResult> = Vec::new();
        match ev {
            TermEvent::Key { code: Key::Esc, .. } => {
                return Ok(Step { quit: true, commands });
            },
            TermEvent::Key { code: Key::Up, kind: KeyKind::Press, .. } => {
                if self.y > 0 {
                    self.y = self.y - 1;
                }
            },
            TermEvent::Key { code: Key::Down, kind: KeyKind::Press, .. } => {
                self.y = self.y + 1;
            },
            TermEvent::Key { code: Key::Left, kind: KeyKind::Press, .. } => {
                if self.x > 0 {
                    self.x = self.x - 1;
                }
            },
            TermEvent::Key { code: Key::Right, kind: KeyKind::Press, .. } => {
                self.x = self.x + 1;
            },
            TermEvent::Key { code: Key::Enter, modifiers, kind: KeyKind::Press } => {
                if !modifiers.shift && modifiers.control && !modifiers.alt && !modifiers.other {
                    return Ok(Step { quit: true, commands });
                } else if !modifiers.shift && !modifiers.control && !modifiers.alt && !modifiers.other {
                    self.requests.push(AppRequest::NextInput(self.x, self.y));
                } else {
                    match self.form.handle_term_event(ev) {
                        Ok(c) => responses.push(c),
                        Err(_) => {},
                    }
                }
            },
            TermEvent::Mouse { kind, column, row } => {
                if let MouseKind::Down = kind {
                    self.x = column;
                    self.y = row;
                }
            },
            _ => {
                match self.form.handle_term_event(ev) {
                    Ok(c) => responses.push(c),
                    Err(_) => {},
                }
            },
        }
        let ghost x1 = self.x;
        let ghost y1 = self.y;
        let ghost resp_before = responses@;
        let ghost start_empty = self.requests@.len() == 0;
        let ghost form1 = self.form;
        while self.requests.len() > 0
            invariant
                glyph_ok(self.form),
                requests_ok(self.requests@),
                self.x == x1 && self.y == y1,
                start_empty ==> self.requests@.len() == 0 && responses@ == resp_before && self.form == form1,
            decreases self.requests.len(),
        {
            let ghost prev = self.requests@;
            let req = self.requests.remove(0);
            assert(requests_ok(self.requests@)) by {
                assert forall|i: int| 0 <= i < self.requests@.len() implies (#[trigger] self.requests@[i] matches AppRequest::SetValue { value, .. } ==> value@.len() < LIMIT) by {
                    assert(self.requests@[i] == prev[i + 1]);
                }
            }
            assert(req == prev[0]);
            if let AppRequest::NextInput(_, _) = req {
                if !self.form.allocated() {
                    self.requests.insert(0, req);
                    break;
                }
            }
            match self.form.handle_app_request(&req) {
                Ok(result) => responses.push(result),
                Err(_) => {},
            }
        }
        let ghost old_form = self.form;
        let mut redraw = false;
        let mut j: usize = 0;
        while j < responses.len()
            invariant
                j <= responses@.len(),
                glyph_ok(self.form),
                requests_ok(self.requests@),
                self.form == old_form,
                commands@.len() == 0 || redraw,
                responses@.len() == 0 ==> !redraw,
                responses@.len() > 0 && (responses@[0] is StringValue || responses@[0] is InputEnabled) ==> j == 0,
                responses@.len() == 0 ==> self.x == x1 && self.y == y1,
            decreases responses.len() - j,
        {
            match &responses[j] {
                AppResult::StringValue(_) => {
                    return Err(LoopError::UnexpectedAnswer);
                },
                AppResult::InputEnabled => {
                    return Err(LoopError::UnexpectedAnswer);
                },
                AppResult::Redraw => {
                    commands.push(ScreenCmd::MoveTo(self.x, self.y));
                    commands.push(ScreenCmd::Flush);
                    redraw = true;
                },
                AppResult::NewCursorPosition(nx, ny) => {
                    self.x = *nx;
                    self.y = *ny;
                    redraw = true;
                },
                AppResult::Values(_) => {},
            }
            j = j + 1;
        }
        if redraw {
            if !self.form.can_draw() {
                return Err(LoopError::NotDrawable);
            }
            let mut cmds = self.form.write_to();
            commands.append(&mut cmds);
        }
        let ghost before_hit = inputs(self.form);
        let style = match self.form.hit(self.x, self.y) {
            Ok(AppResult::InputEnabled) => ScreenCmd::BlinkingBlock,
            _ => ScreenCmd::SteadyBar,
        };
        commands.push(style);
        commands.push(ScreenCmd::MoveTo(self.x, self.y));
        commands.push(ScreenCmd::Flush);
        proof {
            let after = inputs(self.form);
            assert(hit_fields(before_hit, after, self.x, self.y));
            assert(crate::evaluation::witness(before_hit));
            assert forall|i: int| 0 <= i < after.len() implies (#[trigger] after[i]).active
                == crate::ui::glyph::in_rect(after[i].area, self.x, self.y) by {
                assert(after[i].area == before_hit[i].area);
            }
        }
        Ok(Step { quit: false, commands })
    }
}

} // verus!
