use vstd::prelude::*;

use crate::ui::glyph::{
    alloc_ok, glyph_area, glyph_ok, inputs, rect_small, same_fields_but_places, Glyph, Rect,
};

verus! {

/// A border around a widget.
pub struct Frame {
    pub area: Rect,
    pub content: Box<Glyph>,
}

impl Frame {
    pub fn new(content: Box<Glyph>) -> (r: Self)
        ensures
            r.area == (Rect { x: 0, y: 0, w: 0, h: 0 }),
            r.content == content,
    {
        Frame { area: Rect::new(), content }
    }

    /// Lays the frame out in `allocation`; its content gets the inside of the border.
    pub fn allocate(&mut self, allocation: Rect)
        requires
            glyph_ok(Glyph::Frame(*old(self))),
            alloc_ok(Glyph::Frame(*old(self)), allocation),
        ensures
            glyph_ok(Glyph::Frame(*final(self))),
            final(self).area == allocation,
            glyph_area(*final(self).content) == (Rect {
                x: (allocation.x + 1) as u16,
                y: (allocation.y + 1) as u16,
                w: (allocation.w - 2) as u16,
                h: (allocation.h - 2) as u16,
            }),
            same_fields_but_places(inputs(*old(self).content), inputs(*final(self).content)),
        decreases *old(self),
    {
        self.area = allocation;
        self.content.allocate(
            Rect { x: allocation.x + 1, y: allocation.y + 1, w: allocation.w - 2, h: allocation.h - 2 },
        );
    }
}

} // verus!
