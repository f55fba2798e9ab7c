use tt_rust::controls::{Form, Label, TextInput, Widget};
use tt_rust::ui::glyph::ScreenCmd;

fn texts(cmds: &[ScreenCmd]) -> Vec<String> {
    cmds.iter()
        .map(|c| match c {
            ScreenCmd::MoveTo(x, y) => format!("move {} {}", x, y),
            ScreenCmd::Print(s) => format!("print {}", s),
            ScreenCmd::PrintChar(c) => format!("char {}", c),
            ScreenCmd::Flush => "flush".to_string(),
            ScreenCmd::BlinkingBlock => "block".to_string(),
            ScreenCmd::SteadyBar => "bar".to_string(),
        })
        .collect()
}

#[test]
fn label_draws_its_text() {
    let l = Label::new("Name");
    assert_eq!(texts(&l.draw()), vec!["move 0 0", "print Name"]);
}

#[test]
fn input_draws_its_end() {
    let t = TextInput::new(12);
    assert_eq!(
        texts(&t.draw()),
        vec!["move 0 0", "print ", "move 12 0", "flush", "print ]"]
    );
}

#[test]
fn form_draws_controls_in_order() {
    let mut f = Form::new();
    assert!(f.draw().is_empty());
    f.add(Label::new("Address"));
    f.add(TextInput::new(3));
    assert_eq!(
        texts(&f.draw()),
        vec!["move 0 0", "print Address", "move 0 0", "print ", "move 3 0", "flush", "print ]"]
    );
}
