use vstd::prelude::*;

use crate::text::{chars_of, str_eq, string_of};
use crate::ui::glyph::{
    in_rect, no_modifiers, rect_small, AppError, AppRequest, AppResult, Key, KeyKind, Rect, ScreenCmd,
    TermEvent, LIMIT,
};

verus! {

/// A text field: where it is, whether it takes keys, the position of the cursor in the text,
/// its name and its text.
pub struct Input {
    pub active: bool,
    pub pos: u16,
    pub area: Rect,
    pub name: String,
    pub txt: Vec<char>,
}

/// The field's place, cursor and text stay below `LIMIT`.
pub open spec fn input_ok(i: Input) -> bool {
    rect_small(i.area) && i.pos < LIMIT && i.txt@.len() < LIMIT
}

/// `ev` is a key press of a character.
pub open spec fn is_char_press(ev: TermEvent) -> bool {
    ev matches TermEvent::Key { code: Key::Char(_), kind: KeyKind::Press, .. }
}

/// `ev` is a press of backspace with no modifier.
pub open spec fn is_backspace(ev: TermEvent) -> bool {
    ev matches TermEvent::Key { code: Key::Backspace, modifiers, kind: KeyKind::Press }
        && no_modifiers(modifiers)
}

/// What the field answers to `ev`: the new cursor position on the screen after a typed
/// character or a backspace in an active field, and otherwise that the event is not for it.
pub open spec fn input_answer(i: Input, ev: TermEvent) -> Result<AppResult, AppError> {
    if is_char_press(ev) && i.active {
        let pos: int = if i.txt@.len() <= i.pos { i.txt@.len() + 1int } else { i.pos + 1 };
        Ok(AppResult::NewCursorPosition((i.area.x + pos) as u16, i.area.y))
    } else if is_backspace(ev) && i.active {
        Ok(AppResult::NewCursorPosition((i.area.x + i.pos - 1) as u16, i.area.y))
    } else {
        Err(AppError::NotRelevant)
    }
}

/// The field can take `ev`: a typed character fits, and backspace has a character to remove.
pub open spec fn input_takes(i: Input, ev: TermEvent) -> bool {
    &&& is_char_press(ev) && i.active ==> i.txt@.len() + 1 < LIMIT
    &&& is_backspace(ev) && i.active && i.txt@.len() >= i.pos ==> i.pos >= 1
}

impl Input {
    /// The field's place, cursor and text stay below `LIMIT`.
    pub fn is_valid(&self) -> (r: bool)
        ensures
            r == input_ok(*self),
    {
        self.area.x < LIMIT && self.area.y < LIMIT && self.area.w < LIMIT && self.area.h < LIMIT
            && self.pos < LIMIT && self.txt.len() < LIMIT as usize
    }

    /// The field can take `ev`.
    pub fn takes(&self, ev: TermEvent) -> (r: bool)
        ensures
            r == input_takes(*self, ev),
    {
        match ev {
            TermEvent::Key { code: Key::Char(_), kind: KeyKind::Press, .. } => !self.active
                || self.txt.len() < LIMIT as usize - 1,
            TermEvent::Key { code: Key::Backspace, modifiers, kind: KeyKind::Press } => {
                if !modifiers.shift && !modifiers.control && !modifiers.alt && !modifiers.other && self.active
                    && self.txt.len() >= self.pos as usize {
                    self.pos >= 1
                } else {
                    true
                }
            },
            _ => true,
        }
    }

    pub fn new(name: String, txt: String) -> (r: Self)
        ensures
            !r.active,
            r.pos == 0,
            r.area == (Rect { x: 0, y: 0, w: 0, h: 0 }),
            r.name == name,
            r.txt@ == txt@,
    {
        Input { active: false, pos: 0, area: Rect::new(), txt: chars_of(txt.as_str()), name }
    }

    /// The text as a string.
    pub fn text(&self) -> (r: String)
        ensures
            r@ == self.txt@,
    {
        string_of(self.txt.as_slice(), 0, self.txt.len())
    }

    /// In an active field a character overwrites the one at the cursor (or is appended at the
    /// end) and the cursor moves on; backspace removes the character before the cursor. Both
    /// answer the new cursor position on the screen. Other events are not for the field.
    pub fn handle_term_event(&mut self, ev: TermEvent) -> (r: Result<AppResult, AppError>)
        requires
            input_ok(*old(self)),
            input_takes(*old(self), ev),
        ensures
            input_ok(*final(self)),
            final(self).area == old(self).area,
            final(self).name == old(self).name,
            final(self).active == old(self).active,
            r == input_answer(*old(self), ev),
            ({
                let o = *old(self);
                let n = *final(self);
                if is_char_press(ev) && o.active {
                    let ch = ev->code->Char_0;
                    &&& if o.txt@.len() <= o.pos {
                        n.txt@ == o.txt@.push(ch) && n.pos == n.txt@.len()
                    } else {
                        n.txt@ == o.txt@.update(o.pos as int, ch) && n.pos == o.pos + 1
                    }
                    &&& r matches Ok(AppResult::NewCursorPosition(x, y)) && x == o.area.x + n.pos && y
                        == o.area.y
                } else if is_backspace(ev) && o.active {
                    if o.txt@.len() >= o.pos {
                        &&& n.pos == o.pos - 1
                        &&& n.txt@ == o.txt@.remove(o.pos - 1)
                        &&& r matches Ok(AppResult::NewCursorPosition(x, y)) && x == o.area.x + n.pos
                            && y == o.area.y
                    } else {
                        &&& n.txt@ == o.txt@ && n.pos == o.pos
                        &&& r matches Ok(AppResult::NewCursorPosition(x, y)) && x == o.area.x + o.pos - 1
                            && y == o.area.y
                    }
                } else {
                    r == Err::<AppResult, AppError>(AppError::NotRelevant) && n.txt@ == o.txt@ && n.pos
                        == o.pos
                }
            }),
    {
        match ev {
            TermEvent::Key { code: Key::Backspace, modifiers, kind: KeyKind::Press } => {
                if !(!modifiers.shift && !modifiers.control && !modifiers.alt && !modifiers.other) {
                    return Err(AppError::NotRelevant);
                }
                if self.active {
                    if self.txt.len() >= self.pos as usize {
                        self.pos = self.pos - 1;
                        self.txt.remove(self.pos as usize);
                        Ok(AppResult::NewCursorPosition(self.area.x + self.pos, self.area.y))
                    } else {
                        Ok(AppResult::NewCursorPosition(self.area.x + self.pos - 1, self.area.y))
                    }
                } else {
                    Err(AppError::NotRelevant)
                }
            },
            TermEvent::Key { code: Key::Char(ch), kind: KeyKind::Press, .. } => {
                if self.active {
                    if self.txt.len() <= self.pos as usize {
                        self.txt.push(ch);
                        self.pos = self.txt.len() as u16;
                    } else {
                        self.txt.set(self.pos as usize, ch);
                        self.pos = self.pos + 1;
                    }
                    Ok(AppResult::NewCursorPosition(self.area.x + self.pos, self.area.y))
                } else {
                    Err(AppError::NotRelevant)
                }
            },
            _ => Err(AppError::NotRelevant),
        }
    }

    /// `SetValue` and `GetValue` with the field's name set and read its text; `NextInput` at a
    /// row above the field answers the field's position; `CollectAllValues` answers the name
    /// and text.
    pub fn handle_app_request(&mut self, req: &AppRequest) -> (r: Result<AppResult, AppError>)
        requires
            input_ok(*old(self)),
            req matches AppRequest::SetValue { value, .. } ==> value@.len() < LIMIT,
        ensures
            input_ok(*final(self)),
            final(self).area == old(self).area,
            final(self).name == old(self).name,
            final(self).pos == old(self).pos,
            final(self).active == old(self).active,
            match *req {
                AppRequest::SetValue { name, value } => if name@ == old(self).name@ {
                    (r matches Ok(AppResult::Redraw)) && final(self).txt@ == value@
                } else {
                    r == Err::<AppResult, AppError>(AppError::NotRelevant) && final(self).txt@ == old(
                        self,
                    ).txt@
                },
                AppRequest::GetValue(name) => final(self).txt@ == old(self).txt@ && if name@
                    == old(self).name@ {
                    (r matches Ok(AppResult::StringValue(t)) && t@ == old(self).txt@)
                } else {
                    r == Err::<AppResult, AppError>(AppError::NotRelevant)
                },
                AppRequest::NextInput(_, y) => final(self).txt@ == old(self).txt@ && if old(
                    self,
                ).area.y > y {
                    r == Ok::<AppResult, AppError>(
                        AppResult::NewCursorPosition(old(self).area.x, old(self).area.y),
                    )
                } else {
                    r == Err::<AppResult, AppError>(AppError::NotRelevant)
                },
                AppRequest::CollectAllValues => final(self).txt@ == old(self).txt@ && (r matches Ok(
                    AppResult::Values(vs),
                ) && vs@.len() == 1 && vs@[0].0@ == old(self).name@ && vs@[0].1@ == old(
                    self,
                ).txt@),
                AppRequest::NoRequest => r == Err::<AppResult, AppError>(AppError::NotRelevant)
                    && final(self).txt@ == old(self).txt@,
            },
    {
        match req {
            AppRequest::SetValue { name, value } => {
                if str_eq(name.as_str(), self.name.as_str()) {
                    self.txt = chars_of(value.as_str());
                    Ok(AppResult::Redraw)
                } else {
                    Err(AppError::NotRelevant)
                }
            },
            AppRequest::GetValue(name) => {
                if str_eq(name.as_str(), self.name.as_str()) {
                    Ok(AppResult::StringValue(self.text()))
                } else {
                    Err(AppError::NotRelevant)
                }
            },
            AppRequest::NextInput(_, y) => {
                if self.area.y > *y {
                    Ok(AppResult::NewCursorPosition(self.area.x, self.area.y))
                } else {
                    Err(AppError::NotRelevant)
                }
            },
            AppRequest::CollectAllValues => {
                let mut v: Vec<(String, String)> = Vec::new();
                v.push((self.name.clone(), self.text()));
                Ok(AppResult::Values(v))
            },
            AppRequest::NoRequest => Err(AppError::NotRelevant),
        }
    }

    /// A click in the field activates it and puts the cursor under the click; a click
    /// elsewhere deactivates it.
    pub fn hit(&mut self, x: u16, y: u16) -> (r: Result<AppResult, AppError>)
        requires
            input_ok(*old(self)),
        ensures
            input_ok(*final(self)),
            final(self).area == old(self).area,
            final(self).name == old(self).name,
            final(self).txt == old(self).txt,
            if in_rect(old(self).area, x, y) {
                final(self).active && final(self).pos == x - old(self).area.x && (r matches Ok(
                    AppResult::InputEnabled,
                ))
            } else {
                !final(self).active && final(self).pos == old(self).pos && r == Err::<
                    AppResult,
                    AppError,
                >(AppError::NotRelevant)
            },
    {
        if self.area.contains(x, y) {
            self.active = true;
            self.pos = x - self.area.x;
            Ok(AppResult::InputEnabled)
        } else {
            self.active = false;
            Err(AppError::NotRelevant)
        }
    }

    pub fn allocate(&mut self, allocation: Rect)
        requires
            input_ok(*old(self)),
            rect_small(allocation),
        ensures
            input_ok(*final(self)),
            final(self).area == allocation,
            final(self).name == old(self).name,
            final(self).txt == old(self).txt,
            final(self).pos == old(self).pos,
            final(self).active == old(self).active,
    {
        self.area = allocation;
    }

    /// The field has a place of some size.
    pub fn allocated(&self) -> (r: bool)
        ensures
            r == (self.area.w > 0 && self.area.h > 0),
    {
        self.area.w > 0 && self.area.h > 0
    }

    /// The commands that draw the field: go to its corner, print its text, then underscores up
    /// to its width.
    pub fn write_to(&self) -> (r: Vec<ScreenCmd>)
        requires
            input_ok(*self),
        ensures
            r@.len() == 3,
            r@[0] == ScreenCmd::MoveTo(self.area.x, self.area.y),
            r@[1] matches ScreenCmd::Print(t) && t@ == self.txt@,
            r@[2] matches ScreenCmd::Print(t) && t@ == Seq::new(
                if self.txt@.len() < self.area.w {
                    (self.area.w - self.txt@.len()) as nat
                } else {
                    0nat
                },
                |i: int| '_',
            ),
    {
        let mut v: Vec<ScreenCmd> = Vec::new();
        v.push(ScreenCmd::MoveTo(self.area.x, self.area.y));
        v.push(ScreenCmd::Print(self.text()));
        let mut fill = String::new();
        let mut idx: u16 = self.txt.len() as u16;
        let ghost start = idx;
        while idx < self.area.w
            invariant
                start == self.txt@.len(),
                start <= idx,
                self.area.w < LIMIT,
                start < self.area.w ==> idx <= self.area.w,
                start >= self.area.w ==> idx == start,
                fill@ == Seq::new((idx - start) as nat, |i: int| '_'),
            decreases self.area.w - idx,
        {
            crate::text::push_char(&mut fill, '_');
            assert(fill@ =~= Seq::new((idx + 1 - start) as nat, |i: int| '_'));
            idx = idx + 1;
        }
        assert(fill@ =~= Seq::new(
            if self.txt@.len() < self.area.w {
                (self.area.w - self.txt@.len()) as nat
            } else {
                0nat
            },
            |i: int| '_',
        ));
        v.push(ScreenCmd::Print(fill));
        v
    }
}

} // verus!
