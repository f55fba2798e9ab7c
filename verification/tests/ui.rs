use tt_rust::ui::glyph::frame::Frame;
use tt_rust::ui::glyph::input::Input;
use tt_rust::ui::glyph::label::Label;
use tt_rust::ui::glyph::panel::Panel;
use tt_rust::ui::glyph::{
    AppError, AppRequest, AppResult, Glyph, Key, KeyKind, Modifiers, Rect, ScreenCmd, TermEvent,
};
use tt_rust::ui::term::EventLoop;

fn form() -> Glyph {
    let mut p = Panel::new();
    p.add(Glyph::Label(Label::new("title".to_string(), "Address".to_string())));
    p.add(Glyph::Input(Input::new("street".to_string(), String::new())));
    p.add(Glyph::Input(Input::new("city".to_string(), String::new())));
    Glyph::Frame(Frame::new(Box::new(Glyph::Panel(p))))
}

fn value_of(g: &mut Glyph, name: &str) -> Result<AppResult, AppError> {
    g.handle_app_request(&AppRequest::GetValue(name.to_string()))
}

#[test]
fn get_value_after_set_value() {
    let mut g = form();
    let r = g.handle_app_request(&AppRequest::SetValue {
        name: "street".to_string(),
        value: "Alter Postweg".to_string(),
    });
    assert!(matches!(r, Ok(AppResult::Redraw)));
    match value_of(&mut g, "street") {
        Ok(AppResult::StringValue(s)) => assert_eq!(s, "Alter Postweg"),
        _ => panic!("no value"),
    }
    match value_of(&mut g, "city") {
        Ok(AppResult::StringValue(s)) => assert_eq!(s, ""),
        _ => panic!("no value"),
    }
    // labels take values but do not answer them
    let r = g.handle_app_request(&AppRequest::SetValue {
        name: "title".to_string(),
        value: "Home".to_string(),
    });
    assert!(matches!(r, Ok(AppResult::Redraw)));
    assert!(matches!(value_of(&mut g, "title"), Err(AppError::NotRelevant)));
    assert!(matches!(value_of(&mut g, "nothing"), Err(AppError::NotRelevant)));
    assert!(matches!(
        g.handle_app_request(&AppRequest::NoRequest),
        Err(AppError::NotRelevant)
    ));
}

#[test]
fn collect_all_values_in_order() {
    let mut g = form();
    g.handle_app_request(&AppRequest::SetValue {
        name: "city".to_string(),
        value: "Burgwedel".to_string(),
    })
    .unwrap();
    match g.handle_app_request(&AppRequest::CollectAllValues) {
        Ok(AppResult::Values(vs)) => assert_eq!(
            vs,
            vec![
                ("street".to_string(), String::new()),
                ("city".to_string(), "Burgwedel".to_string())
            ]
        ),
        _ => panic!("no values"),
    }
}

#[test]
fn layout_and_next_input() {
    let mut g = form();
    g.allocate(Rect { x: 0, y: 0, w: 20, h: 6 });
    assert!(g.allocated());
    match g.handle_app_request(&AppRequest::NextInput(0, 0)) {
        Ok(AppResult::NewCursorPosition(x, y)) => assert_eq!((x, y), (1, 2)),
        _ => panic!("no next input"),
    }
    match g.handle_app_request(&AppRequest::NextInput(0, 2)) {
        Ok(AppResult::NewCursorPosition(x, y)) => assert_eq!((x, y), (1, 3)),
        _ => panic!("no next input"),
    }
    assert!(matches!(
        g.handle_app_request(&AppRequest::NextInput(0, 3)),
        Err(AppError::NotRelevant)
    ));
}

#[test]
fn frame_draws_content_then_border() {
    let mut g = form();
    g.allocate(Rect { x: 0, y: 0, w: 6, h: 5 });
    assert!(g.can_draw());
    let cmds = g.write_to();
    // the content gets the inside (1, 1, 4, 3) of the allocation, and the border goes round
    // the inside (2, 2, 2, 1) of the content's area
    // label: 2, inputs: 3 each, border: 2 + 2 + 1 + 4 * 3 + 2 + 2 + 1
    assert_eq!(cmds.len(), 2 + 3 + 3 + 2 + 2 + 1 + 4 * 3 + 2 + 2 + 1);
    assert!(matches!(cmds[8], ScreenCmd::MoveTo(1, 1)));
    assert!(matches!(cmds[9], ScreenCmd::PrintChar('\u{250c}')));
    assert!(matches!(cmds[cmds.len() - 1], ScreenCmd::PrintChar('\u{2518}')));
}

#[test]
fn escape_quits_the_loop() {
    let mut l = EventLoop::new(form(), &vec![("street".to_string(), "x".to_string())]);
    let esc = TermEvent::Key {
        code: Key::Esc,
        modifiers: Modifiers { shift: false, control: false, alt: false, other: false },
        kind: KeyKind::Press,
    };
    let step = l.on_event(esc).unwrap();
    assert!(step.quit);
    assert!(step.commands.is_empty());
}

#[test]
fn resize_places_the_panel_at_the_origin() {
    let mut g = form();
    g.resize(30, 9);
    match g {
        Glyph::Frame(f) => match *f.content {
            Glyph::Panel(p) => {
                assert_eq!((p.area.x, p.area.y, p.area.w, p.area.h), (0, 0, 30, 9));
            },
            _ => panic!("the frame lost its panel"),
        },
        _ => panic!("the form lost its frame"),
    }
}

#[test]
fn a_label_only_form_refuses_a_typed_character() {
    let mut p = Panel::new();
    p.add(Glyph::Label(Label::new("title".to_string(), "Address".to_string())));
    let mut g = Glyph::Panel(p);
    let ev = TermEvent::Key {
        code: Key::Char('a'),
        modifiers: Modifiers { shift: false, control: false, alt: false, other: false },
        kind: KeyKind::Press,
    };
    assert!(matches!(g.handle_term_event(ev), Err(AppError::NotRelevant)));
}

#[test]
fn the_loop_refuses_a_resize_without_room_for_the_frame() {
    let l = EventLoop::new(form(), &vec![]);
    assert!(!l.can_take(TermEvent::Resize(1, 1)));
    assert!(l.can_take(TermEvent::Resize(30, 9)));
}
