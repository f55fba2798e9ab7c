use tt_rust::runtime::sel::SelectorSet;
use tt_rust::runtime::{eval, Address, Frame, Handler, Instruction, Literal, Machine, Object, ObjectInternals, Procedure};

#[test]
fn selector() {
    let sel1 = SelectorSet::get("a:b:");
    let sel2 = SelectorSet::get(format!("{}:{}:", "a", "b").as_str());
    assert_eq!(sel1, sel2);
    assert_eq!(sel1.as_ptr(), sel2.as_ptr());
}

#[test]
fn eval_nil() {
    let m = Machine::new();
    let proc = Procedure {
        slot_count: 0,
        instructions: vec![Instruction::Return(Address::Receiver)],
    };
    let o = Object::new();
    let mut frame = Frame::new(&m, o.clone(), Box::new(proc));
    assert_eq!(eval(&mut frame), Ok(()));
    assert!(frame.result.same(&o));
}

#[test]
fn eval_string_literal() {
    let m = Machine::new();
    let proc = Procedure {
        slot_count: 0,
        instructions: vec![Instruction::Return(Address::Literal(Literal::String(
            "Test".into(),
        )))],
    };
    let o = Object::new_string("Test");
    let mut frame = Frame::new(&m, o.clone(), Box::new(proc));
    assert_eq!(eval(&mut frame), Ok(()));
    let result = frame.result.as_str().unwrap();
    assert_eq!(result, o.as_str().unwrap());
}

#[test]
fn eval_passes_other_returns() {
    let m = Machine::new();
    let proc = Procedure {
        slot_count: 3,
        instructions: vec![
            Instruction::Return(Address::Temporary(1)),
            Instruction::Return(Address::Literal(Literal::Int64(5))),
            Instruction::Return(Address::Literal(Literal::String("x".into()))),
            Instruction::Return(Address::Receiver),
        ],
    };
    let o = Object::new();
    let mut frame = Frame::new(&m, o.clone(), Box::new(proc));
    assert_eq!(frame.locals.len(), 2);
    assert!(frame.result.same(&m.nil));
    assert_eq!(eval(&mut frame), Ok(()));
    assert_eq!(frame.next_instruction, 5);
    assert_eq!(frame.result.as_str().unwrap(), "x");
    assert!(!frame.result.same(&o));
}

#[test]
fn eval_without_returns_keeps_result() {
    let m = Machine::new();
    let proc = Procedure {
        slot_count: 0,
        instructions: vec![Instruction::Return(Address::Super)],
    };
    let mut frame = Frame::new(&m, Object::new_with_handler(Handler::String), Box::new(proc));
    assert_eq!(eval(&mut frame), Ok(()));
    assert_eq!(frame.next_instruction, 1);
    assert!(frame.result.same(&m.nil));
    assert!(frame.result.as_str().is_none());
}

#[test]
fn send_by_handler() {
    let a = Object::new();
    assert!(a.send("foo", &[]).same(&a));
    let b = Object::new_with_handler(Handler::Str);
    assert!(b.send("foo", &[a.clone()]).same(&b));
    let c = Object::new_with_handler(Handler::String);
    let r = c.send("foo", &[]);
    assert!(!r.same(&c));
    assert_eq!(r.as_str().unwrap(), "...");
}
