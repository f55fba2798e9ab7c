use vstd::prelude::*;

use crate::ui::glyph::input::Input;
use crate::ui::glyph::{
    alloc_ok, answer_post, answered_values, cmds_view, drawing_list, drawable, entries, entries_list, entries_post, lemma_entries_post_rest, lemma_entries_post_step, lemma_entries_split, ScreenCmd, events_ok, fields_kept, first_below, glyph_area, glyph_ok, hit_fields,
    in_rect, inputs, inputs_list, lemma_first_below_concat, lemma_hit_fields_concat,
    lemma_inputs_split, lemma_inputs_take, lemma_kept_concat, lemma_places_concat,
    lemma_panel_answer_prefix, lemma_typed_concat, panel_answer, rect_small, request_post, same_fields_but_places, typed_fields,
    values_view, AppError, AppRequest, AppResult, Glyph, Rect, TermEvent, LIMIT,
};

verus! {

/// Widgets one below the other.
pub struct Panel {
    pub area: Rect,
    pub elements: Vec<Glyph>,
}

impl Panel {
    /// The panel is valid: its place and its list stay below `LIMIT` and every widget is valid.
    pub fn is_valid(&self) -> (r: bool)
        ensures
            r == glyph_ok(Glyph::Panel(*self)),
        decreases *self,
    {
        if !(self.area.x < LIMIT && self.area.y < LIMIT && self.area.w < LIMIT && self.area.h < LIMIT
            && self.elements.len() < LIMIT as usize) {
            return false;
        }
        let mut i: usize = 0;
        while i < self.elements.len()
            invariant
                i <= self.elements@.len(),
                forall|k: int| 0 <= k < i ==> glyph_ok(#[trigger] self.elements@[k]),
            decreases self.elements.len() - i,
        {
            assert(decreases_to!(*self => self.elements@[i as int]));
            if !self.elements[i].is_valid() {
                proof {
                    let g = Glyph::Panel(*self);
                    assert(g->Panel_0.elements@[i as int] == self.elements@[i as int]);
                }
                return false;
            }
            i = i + 1;
        }
        true
    }

    /// Every widget of the panel can take `ev`.
    pub fn takes(&self, ev: TermEvent) -> (r: bool)
        ensures
            r == events_ok(Glyph::Panel(*self), ev),
        decreases *self,
    {
        let mut i: usize = 0;
        while i < self.elements.len()
            invariant
                i <= self.elements@.len(),
                forall|k: int| 0 <= k < i ==> events_ok(#[trigger] self.elements@[k], ev),
            decreases self.elements.len() - i,
        {
            assert(decreases_to!(*self => self.elements@[i as int]));
            if !self.elements[i].takes(ev) {
                proof {
                    let g = Glyph::Panel(*self);
                    assert(g->Panel_0.elements@[i as int] == self.elements@[i as int]);
                }
                return false;
            }
            i = i + 1;
        }
        true
    }

    /// The panel can be laid out in `r`: one row for each widget.
    pub fn fits(&self, r: Rect) -> (b: bool)
        ensures
            b == alloc_ok(Glyph::Panel(*self), r),
        decreases *self,
    {
        if !(r.x < LIMIT && r.y < LIMIT && r.w < LIMIT && r.h < LIMIT) {
            return false;
        }
        if !(self.elements.len() < (LIMIT - r.y) as usize) {
            return false;
        }
        let mut i: usize = 0;
        while i < self.elements.len()
            invariant
                i <= self.elements@.len(),
                r.y + self.elements@.len() < LIMIT,
                forall|k: int|
                    0 <= k < i ==> alloc_ok(
                        #[trigger] self.elements@[k],
                        Rect { x: r.x, y: (r.y + k) as u16, w: r.w, h: 1 },
                    ),
            decreases self.elements.len() - i,
        {
            assert(decreases_to!(*self => self.elements@[i as int]));
            let row = Rect { x: r.x, y: r.y + i as u16, w: r.w, h: 1 };
            if !self.elements[i].fits(row) {
                proof {
                    let g = Glyph::Panel(*self);
                    assert(g->Panel_0.elements@[i as int] == self.elements@[i as int]);
                }
                return false;
            }
            i = i + 1;
        }
        true
    }

    pub fn new() -> (r: Self)
        ensures
            r.area == (Rect { x: 0, y: 0, w: 0, h: 0 }),
            r.elements@.len() == 0,
    {
        Panel { area: Rect::new(), elements: Vec::new() }
    }

    /// Appends a widget.
    pub fn add(&mut self, g: Glyph)
        ensures
            final(self).elements@ == old(self).elements@.push(g),
            final(self).area == old(self).area,
    {
        self.elements.push(g);
    }

    /// Every widget can be drawn.
    pub fn can_draw(&self) -> (r: bool)
        requires
            glyph_ok(Glyph::Panel(*self)),
        ensures
            r == drawable(Glyph::Panel(*self)),
        decreases *self,
    {
        let mut i: usize = 0;
        while i < self.elements.len()
            invariant
                i <= self.elements@.len(),
                forall|k: int| 0 <= k < self.elements@.len() ==> glyph_ok(#[trigger] self.elements@[k]),
                forall|k: int| 0 <= k < i ==> drawable(#[trigger] self.elements@[k]),
            decreases self.elements.len() - i,
        {
            assert(decreases_to!(*self => self.elements@[i as int]));
            if !self.elements[i].can_draw() {
                proof {
                    let g = Glyph::Panel(*self);
                    assert(!drawable(self.elements@[i as int]));
                    assert(g->Panel_0.elements@[i as int] == self.elements@[i as int]);
                    assert(!(forall|k: int|
                        0 <= k < g->Panel_0.elements@.len() ==> drawable(
                            #[trigger] g->Panel_0.elements@[k],
                        )));
                }
                return false;
            }
            i = i + 1;
        }
        true
    }

    /// The commands that draw the widgets, in order.
    pub fn write_to(&self) -> (r: Vec<ScreenCmd>)
        requires
            glyph_ok(Glyph::Panel(*self)),
            drawable(Glyph::Panel(*self)),
        ensures
            cmds_view(r@) == drawing_list(self.elements@),
        decreases *self,
    {
        let mut v: Vec<ScreenCmd> = Vec::new();
        let mut i: usize = 0;
        while i < self.elements.len()
            invariant
                i <= self.elements@.len(),
                forall|k: int| 0 <= k < self.elements@.len() ==> glyph_ok(#[trigger] self.elements@[k]),
                forall|k: int| 0 <= k < self.elements@.len() ==> drawable(#[trigger] self.elements@[k]),
                cmds_view(v@) == drawing_list(self.elements@.take(i as int)),
            decreases self.elements.len() - i,
        {
            assert(decreases_to!(*self => self.elements@[i as int]));
            let ghost before = v@;
            let mut cmds = self.elements[i].write_to();
            let ghost added = cmds@;
            v.append(&mut cmds);
            assert(self.elements@.take(i + 1).drop_last() =~= self.elements@.take(i as int));
            assert(cmds_view(v@) =~= cmds_view(before) + cmds_view(added));
            i = i + 1;
        }
        assert(self.elements@.take(i as int) =~= self.elements@);
        v
    }

    /// Passes a click to every widget; answers the last answer that is not an error.
    pub fn hit(&mut self, x: u16, y: u16) -> (r: Result<AppResult, AppError>)
        requires
            glyph_ok(Glyph::Panel(*old(self))),
        ensures
            glyph_ok(Glyph::Panel(*final(self))),
            final(self).area == old(self).area,
            hit_fields(inputs_list(old(self).elements@), inputs_list(final(self).elements@), x, y),
            (r matches Ok(AppResult::InputEnabled)) <==> exists|i: int|
                0 <= i < inputs_list(old(self).elements@).len() && in_rect(
                    #[trigger] inputs_list(old(self).elements@)[i].area,
                    x,
                    y,
                ),
            r is Ok ==> r matches Ok(AppResult::InputEnabled),
        decreases *old(self),
    {
        let ghost old_elems = self.elements@;
        let mut r: Result<AppResult, AppError> = Err(AppError::NotRelevant);
        let mut i: usize = 0;
        while i < self.elements.len()
            invariant
                self.area == old(self).area,
                old_elems == old(self).elements@,
                self.elements@.len() == old_elems.len() < LIMIT,
                rect_small(self.area),
                i <= old_elems.len(),
                forall|k: int| 0 <= k < self.elements@.len() ==> glyph_ok(#[trigger] self.elements@[k]),
                forall|k: int| i <= k < old_elems.len() ==> self.elements@[k] == old_elems[k],
                hit_fields(
                    inputs_list(old_elems.take(i as int)),
                    inputs_list(self.elements@.take(i as int)),
                    x,
                    y,
                ),
                (r matches Ok(AppResult::InputEnabled)) <==> exists|j: int|
                    0 <= j < inputs_list(old_elems.take(i as int)).len() && in_rect(
                        #[trigger] inputs_list(old_elems.take(i as int))[j].area,
                        x,
                        y,
                    ),
                r is Ok ==> r matches Ok(AppResult::InputEnabled),
            decreases self.elements.len() - i,
        {
            let ghost prev = self.elements@;
            let mut g = self.elements.remove(i);
            assert(g == old_elems[i as int]);
            assert(decreases_to!(*old(self) => old_elems[i as int]));
            let er = g.hit(x, y);
            self.elements.insert(i, g);
            proof {
                let cur = self.elements@;
                assert(cur =~= prev.update(i as int, g));
                assert(cur.take(i as int) =~= prev.take(i as int));
                lemma_inputs_take(old_elems, i as int);
                lemma_inputs_take(cur, i as int);
                lemma_hit_fields_concat(
                    inputs_list(old_elems.take(i as int)),
                    inputs_list(cur.take(i as int)),
                    inputs(old_elems[i as int]),
                    inputs(g),
                    x,
                    y,
                );
                let a = inputs_list(old_elems.take(i as int));
                let b = inputs(old_elems[i as int]);
                assert forall|j: int| 0 <= j < b.len() implies (a + b)[a.len() + j] == b[j] by {}
                assert forall|j: int| 0 <= j < a.len() implies (a + b)[j] == a[j] by {}
            }
            if er.is_ok() {
                r = er;
            }
            proof {
                let a = inputs_list(old_elems.take(i as int));
                let b = inputs(old_elems[i as int]);
                if (exists|j: int| 0 <= j < (a + b).len() && in_rect(#[trigger] (a + b)[j].area, x, y)) {
                    let j = choose|j: int| 0 <= j < (a + b).len() && in_rect(#[trigger] (a + b)[j].area, x, y);
                    if j < a.len() {
                        assert(in_rect(a[j].area, x, y));
                    } else {
                        assert(in_rect(b[j - a.len()].area, x, y));
                    }
                }
                if (exists|j: int| 0 <= j < b.len() && in_rect(#[trigger] b[j].area, x, y)) {
                    let j = choose|j: int| 0 <= j < b.len() && in_rect(#[trigger] b[j].area, x, y);
                    assert(in_rect((a + b)[a.len() + j].area, x, y));
                }
                if (exists|j: int| 0 <= j < a.len() && in_rect(#[trigger] a[j].area, x, y)) {
                    let j = choose|j: int| 0 <= j < a.len() && in_rect(#[trigger] a[j].area, x, y);
                    assert(in_rect((a + b)[j].area, x, y));
                }
            }
            i = i + 1;
        }
        proof {
            assert(old_elems.take(i as int) =~= old_elems);
            assert(self.elements@.take(i as int) =~= self.elements@);
        }
        r
    }

    /// Passes a terminal event to the widgets in order until one takes it, and answers that
    /// answer, or the last refusal.
    #[verifier::loop_isolation(false)]
    pub fn handle_term_event(&mut self, ev: TermEvent) -> (r: Result<AppResult, AppError>)
        requires
            glyph_ok(Glyph::Panel(*old(self))),
            events_ok(Glyph::Panel(*old(self)), ev),
        ensures
            glyph_ok(Glyph::Panel(*final(self))),
            final(self).area == old(self).area,
            !(ev is Resize) ==> typed_fields(inputs_list(old(self).elements@), inputs_list(final(self).elements@)),
            ev is Resize ==> same_fields_but_places(inputs_list(old(self).elements@), inputs_list(final(self).elements@)),
            r == panel_answer(old(self).elements@, ev),
        decreases *old(self),
    {
        let ghost old_elems = self.elements@;
        let mut handled: Result<AppResult, AppError> = Err(AppError::NotRelevant);
        let mut i: usize = 0;
        proof {
            assert(old_elems.take(0) =~= Seq::<Glyph>::empty());
        }
        while i < self.elements.len() && handled.is_err()
            invariant
                handled == panel_answer(old_elems.take(i as int), ev),
                self.area == old(self).area,
                self.elements@.len() == old_elems.len(),
                i <= old_elems.len(),
                forall|k: int| 0 <= k < self.elements@.len() ==> glyph_ok(#[trigger] self.elements@[k]),
                forall|k: int| i <= k < old_elems.len() ==> self.elements@[k] == old_elems[k],
                !(ev is Resize) ==> typed_fields(
                    inputs_list(old_elems.take(i as int)),
                    inputs_list(self.elements@.take(i as int)),
                ),
                ev is Resize ==> same_fields_but_places(
                    inputs_list(old_elems.take(i as int)),
                    inputs_list(self.elements@.take(i as int)),
                ),
            decreases self.elements.len() - i,
        {
            let ghost prev = self.elements@;
            let mut g = self.elements.remove(i);
            assert(g == old_elems[i as int]);
            assert(decreases_to!(*old(self) => old_elems[i as int]));
            handled = g.handle_term_event(ev);
            self.elements.insert(i, g);
            proof {
                let cur = self.elements@;
                assert(cur =~= prev.update(i as int, g));
                assert(cur.take(i as int) =~= prev.take(i as int));
                lemma_inputs_take(old_elems, i as int);
                lemma_inputs_take(cur, i as int);
                if ev is Resize {
                    lemma_places_concat(
                        inputs_list(old_elems.take(i as int)),
                        inputs_list(cur.take(i as int)),
                        inputs(old_elems[i as int]),
                        inputs(g),
                    );
                } else {
                    lemma_typed_concat(
                        inputs_list(old_elems.take(i as int)),
                        inputs_list(cur.take(i as int)),
                        inputs(old_elems[i as int]),
                        inputs(g),
                    );
                }
            }
            proof {
                assert(old_elems.take(i + 1).drop_last() =~= old_elems.take(i as int));
                assert(old_elems.take(i + 1).last() == old_elems[i as int]);
            }
            i = i + 1;
        }
        proof {
            if i < old_elems.len() {
                lemma_panel_answer_prefix(old_elems, i as int, ev);
            } else {
                assert(old_elems.take(i as int) =~= old_elems);
            }
            let cur = self.elements@;
            lemma_inputs_split(old_elems, i as int);
            lemma_inputs_split(cur, i as int);
            assert(cur.skip(i as int) =~= old_elems.skip(i as int));
            let rest = inputs_list(old_elems.skip(i as int));
            if ev is Resize {
                lemma_places_concat(
                    inputs_list(old_elems.take(i as int)),
                    inputs_list(cur.take(i as int)),
                    rest,
                    rest,
                );
            } else {
                lemma_typed_concat(
                    inputs_list(old_elems.take(i as int)),
                    inputs_list(cur.take(i as int)),
                    rest,
                    rest,
                );
            }
        }
        handled
    }

    /// Passes a request to the widgets in order. Values of all widgets are joined; any other
    /// answer ends the walk and is the panel's answer.
    #[verifier::loop_isolation(false)]
    pub fn handle_app_request(&mut self, req: &AppRequest) -> (r: Result<AppResult, AppError>)
        requires
            glyph_ok(Glyph::Panel(*old(self))),
            req matches AppRequest::SetValue { value, .. } ==> value@.len() < LIMIT,
        ensures
            glyph_ok(Glyph::Panel(*final(self))),
            final(self).area == old(self).area,
            request_post(*req, inputs_list(old(self).elements@), inputs_list(final(self).elements@), r),
            entries_post(*req, entries_list(old(self).elements@), entries_list(final(self).elements@), r),
        decreases *old(self),
    {
        let ghost old_elems = self.elements@;
        let mut result: Result<AppResult, AppError> = Err(AppError::NotRelevant);
        let mut i: usize = 0;
        let mut stopped = false;
        proof {
            assert(entries_list(old_elems.take(0)) =~= Seq::<(bool, Seq<char>, Seq<char>)>::empty());
            assert(old_elems.take(0) =~= Seq::<Glyph>::empty());
            assert(inputs_list(old_elems.take(0)) =~= Seq::<Input>::empty());
            assert(Seq::<Input>::empty().map_values(|i: Input| (i.name@, i.txt@)) =~= Seq::<
                (Seq<char>, Seq<char>),
            >::empty());
            assert(answered_values(result) =~= Seq::<(Seq<char>, Seq<char>)>::empty());
        }
        while i < self.elements.len()
            invariant
                self.area == old(self).area,
                self.elements@.len() == old_elems.len(),
                i <= old_elems.len(),
                forall|k: int| 0 <= k < self.elements@.len() ==> glyph_ok(#[trigger] self.elements@[k]),
                forall|k: int| i <= k < old_elems.len() ==> self.elements@[k] == old_elems[k],
                fields_kept(*req, inputs_list(old_elems.take(i as int)), inputs_list(self.elements@.take(i as int))),
                answer_post(*req, inputs_list(old_elems.take(i as int)), result),
                *req is NextInput ==> result is Err,
                (*req is SetValue || *req is GetValue || *req is NoRequest) ==> result is Err,
                entries_post(*req, entries_list(old_elems.take(i as int)), entries_list(self.elements@.take(i as int)), result),
                !stopped,
            decreases self.elements.len() - i,
        {
            let ghost prev = self.elements@;
            let mut g = self.elements.remove(i);
            assert(g == old_elems[i as int]);
            assert(decreases_to!(*old(self) => old_elems[i as int]));
            let r = g.handle_app_request(req);
            self.elements.insert(i, g);
            let ghost a = inputs_list(old_elems.take(i as int));
            let ghost b = inputs(old_elems[i as int]);
            let ghost ea1 = entries_list(old_elems.take(i as int));
            let ghost ea2 = entries_list(self.elements@.take(i as int));
            let ghost result0 = result;
            proof {
                assert(old_elems.take(i + 1).drop_last() =~= old_elems.take(i as int));
                assert(self.elements@.take(i + 1).drop_last() =~= self.elements@.take(i as int));
                let cur = self.elements@;
                assert(cur =~= prev.update(i as int, g));
                assert(cur.take(i as int) =~= prev.take(i as int));
                lemma_inputs_take(old_elems, i as int);
                lemma_inputs_take(cur, i as int);
                lemma_kept_concat(*req, a, inputs_list(cur.take(i as int)), b, inputs(g));
                if let AppRequest::NextInput(_, y) = *req {
                    lemma_first_below_concat(a, b, y);
                }
            }
            let stop = match r {
                Ok(AppResult::Values(vs)) => {
                    result = match result {
                        Ok(AppResult::Values(old_vs)) => {
                            let mut acc = old_vs;
                            let mut j: usize = 0;
                            let ghost acc0 = acc@;
                            while j < vs.len()
                                invariant
                                    j <= vs@.len(),
                                    acc@ == acc0 + vs@.take(j as int),
                                decreases vs.len() - j,
                            {
                                let (k, v) = &vs[j];
                                acc.push((k.clone(), v.clone()));
                                assert(acc@ =~= acc0 + vs@.take(j + 1));
                                j = j + 1;
                            }
                            proof {
                                assert(vs@.take(j as int) =~= vs@);
                                assert(values_view(acc@) =~= values_view(acc0) + values_view(vs@));
                            }
                            Ok(AppResult::Values(acc))
                        },
                        _ => {
                            Ok(AppResult::Values(vs))
                        },
                    };
                    proof {
                        assert((a + b).map_values(|i: Input| (i.name@, i.txt@)) =~= a.map_values(
                            |i: Input| (i.name@, i.txt@),
                        ) + b.map_values(|i: Input| (i.name@, i.txt@)));
                    }
                    false
                },
                Ok(other) => {
                    result = Ok(other);
                    true
                },
                Err(_) => {
                    proof {
                        if *req is CollectAllValues {
                            assert(b.len() == 0);
                            assert(a + b =~= a);
                        }
                    }
                    false
                },
            };
            proof {
                lemma_entries_post_step(*req, ea1, ea2, result0, entries(old_elems[i as int]), entries(self.elements@[i as int]), r, result);
            }
            i = i + 1;
            if stop {
                stopped = true;
                break;
            }
        }
        assert(stopped || i == self.elements@.len());
        proof {
            let cur = self.elements@;
            lemma_inputs_split(old_elems, i as int);
            lemma_inputs_split(cur, i as int);
            assert(cur.skip(i as int) =~= old_elems.skip(i as int));
            let rest = inputs_list(old_elems.skip(i as int));
            lemma_kept_concat(*req, inputs_list(old_elems.take(i as int)), inputs_list(cur.take(i as int)), rest, rest);
            if let AppRequest::NextInput(_, y) = *req {
                lemma_first_below_concat(inputs_list(old_elems.take(i as int)), rest, y);
            }
            if i == old_elems.len() {
                assert(old_elems.take(i as int) =~= old_elems);
            }
            lemma_entries_split(old_elems, i as int);
            lemma_entries_split(cur, i as int);
            lemma_entries_post_rest(*req, entries_list(old_elems.take(i as int)), entries_list(cur.take(i as int)), entries_list(old_elems.skip(i as int)), result);
        }
        result
    }

    /// Lays the panel out in `allocation`: widget `i` gets row `allocation.y + i`, one row
    /// high and as wide as the panel.
    #[verifier::loop_isolation(false)]
    pub fn allocate(&mut self, allocation: Rect)
        requires
            glyph_ok(Glyph::Panel(*old(self))),
            alloc_ok(Glyph::Panel(*old(self)), allocation),
        ensures
            glyph_ok(Glyph::Panel(*final(self))),
            final(self).area == allocation,
            final(self).elements@.len() == old(self).elements@.len(),
            forall|i: int|
                0 <= i < final(self).elements@.len() ==> glyph_area(#[trigger] final(self).elements@[i])
                    == (Rect { x: allocation.x, y: (allocation.y + i) as u16, w: allocation.w, h: 1 }),
            same_fields_but_places(inputs_list(old(self).elements@), inputs_list(final(self).elements@)),
        decreases *old(self),
    {
        let ghost old_elems = self.elements@;
        self.area = allocation;
        let mut y: u16 = allocation.y;
        let mut i: usize = 0;
        while i < self.elements.len()
            invariant
                self.area == allocation,
                self.elements@.len() == old_elems.len(),
                i <= old_elems.len(),
                y == allocation.y + i,
                forall|k: int| 0 <= k < self.elements@.len() ==> glyph_ok(#[trigger] self.elements@[k]),
                forall|k: int| i <= k < old_elems.len() ==> self.elements@[k] == old_elems[k],
                forall|k: int|
                    0 <= k < i ==> glyph_area(#[trigger] self.elements@[k]) == (Rect {
                        x: allocation.x,
                        y: (allocation.y + k) as u16,
                        w: allocation.w,
                        h: 1,
                    }),
                same_fields_but_places(
                    inputs_list(old_elems.take(i as int)),
                    inputs_list(self.elements@.take(i as int)),
                ),
            decreases self.elements.len() - i,
        {
            let ghost prev = self.elements@;
            let mut g = self.elements.remove(i);
            assert(g == old_elems[i as int]);
            assert(decreases_to!(*old(self) => old_elems[i as int]));
            g.allocate(Rect { x: allocation.x, y, w: allocation.w, h: 1 });
            self.elements.insert(i, g);
            proof {
                let cur = self.elements@;
                assert(cur =~= prev.update(i as int, g));
                assert(cur.take(i as int) =~= prev.take(i as int));
                lemma_inputs_take(old_elems, i as int);
                lemma_inputs_take(cur, i as int);
                lemma_places_concat(
                    inputs_list(old_elems.take(i as int)),
                    inputs_list(cur.take(i as int)),
                    inputs(old_elems[i as int]),
                    inputs(g),
                );
            }
            y = y + 1;
            i = i + 1;
        }
        proof {
            assert(old_elems.take(i as int) =~= old_elems);
            assert(self.elements@.take(i as int) =~= self.elements@);
        }
    }
}

} // verus!
