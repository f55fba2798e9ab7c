use vstd::prelude::*;

use crate::text::str_eq;
use crate::ui::glyph::{AppError, AppRequest, AppResult, Rect, ScreenCmd};

verus! {

/// A text at a place of the screen, with a name by which it can be set.
pub struct Label {
    pub area: Rect,
    pub name: String,
    pub txt: String,
}

impl Label {
    pub fn new(name: String, txt: String) -> (r: Self)
        ensures
            r.area == (Rect { x: 0, y: 0, w: 0, h: 0 }),
            r.name == name,
            r.txt == txt,
    {
        Label { area: Rect::new(), name, txt }
    }

    /// `SetValue` with the label's name replaces its text and asks for a redraw; any other
    /// request is not for it.
    pub fn handle_app_request(&mut self, req: &AppRequest) -> (r: Result<AppResult, AppError>)
        ensures
            match *req {
                AppRequest::SetValue { name, value } => if name@ == old(self).name@ {
                    (r matches Ok(AppResult::Redraw)) && final(self).txt@ == value@
                        && final(self).name == old(self).name && final(self).area == old(self).area
                } else {
                    r == Err::<AppResult, AppError>(AppError::NotRelevant) && *final(self) == *old(self)
                },
                _ => r == Err::<AppResult, AppError>(AppError::NotRelevant) && *final(self) == *old(self),
            },
    {
        match req {
            AppRequest::SetValue { name, value } => {
                if str_eq(name.as_str(), self.name.as_str()) {
                    self.txt = value.clone();
                    Ok(AppResult::Redraw)
                } else {
                    Err(AppError::NotRelevant)
                }
            },
            _ => Err(AppError::NotRelevant),
        }
    }

    /// The commands that draw the label: go to its corner, print its text.
    pub fn write_to(&self) -> (r: Vec<ScreenCmd>)
        ensures
            r@.len() == 2,
            r@[0] == ScreenCmd::MoveTo(self.area.x, self.area.y),
            r@[1] matches ScreenCmd::Print(t) && t@ == self.txt@,
    {
        let mut v: Vec<ScreenCmd> = Vec::new();
        v.push(ScreenCmd::MoveTo(self.area.x, self.area.y));
        v.push(ScreenCmd::Print(self.txt.clone()));
        v
    }
}

} // verus!
