use tt_rust::parser::AST;
use tt_rust::runtime::ObjectInternals;
use tt_rust::Context;
use tt_rust::runtime::Heap;
use tt_rust::{display_text, evaluate_script, send_message, EVAL_FUEL};

fn int_of(heap: &Heap, o: usize) -> Option<i64> {
    heap.as_int(o)
}

#[test]
fn eval_bug_1() {
    let (heap, o) = evaluate_script(String::from(
        "
        '' species new: 10 streamContents: [ :result | result nextPut: $X ].
    ",
    ))
    .unwrap();
    assert_eq!(heap.as_str(o), Some(String::from("X")));
}

#[test]
fn format() {
    let (mut heap, o) = evaluate_script(String::from(
        "
        1234.
    ",
    ))
    .unwrap();
    assert_eq!(int_of(&heap, o), Some(1234));
    assert_eq!(display_text(&mut heap, o, EVAL_FUEL).unwrap(), "1234");
}

#[test]
fn block_1() {
    let (heap, o) = evaluate_script(String::from(
        "
    [:x :y| x + y] value:1 value:2.
    ",
    ))
    .unwrap();
    assert_eq!(int_of(&heap, o), Some(3));
}

#[test]
fn points_2() {
    let (mut heap, o) = evaluate_script(String::from(
        "
    a := 100 @ 200. 
    b <- 300 @ 400. 
    Point x: a x + b y y: a y + b x.",
    ))
    .unwrap();
    let x = send_message(&mut heap, o, "x", &vec![], EVAL_FUEL).unwrap();
    assert_eq!(int_of(&heap, x), Some(500));
    let y = send_message(&mut heap, o, "y", &vec![], EVAL_FUEL).unwrap();
    assert_eq!(int_of(&heap, y), Some(500));
}

#[test]
fn points_1() {
    let (mut heap, o) =
        evaluate_script(String::from("a := 100 @ 200. b <- 300 @ 400. a + b.")).unwrap();
    let x = send_message(&mut heap, o, "x", &vec![], EVAL_FUEL).unwrap();
    assert_eq!(int_of(&heap, x), Some(400));
    let y = send_message(&mut heap, o, "y", &vec![], EVAL_FUEL).unwrap();
    assert_eq!(int_of(&heap, y), Some(600));
}

#[test]
fn eval_vars() {
    let (heap, o) = evaluate_script(String::from("a := 1. b <- 2. a + b.")).unwrap();
    assert_eq!(int_of(&heap, o), Some(3));
}

#[test]
fn eval() {
    let (heap, o) = evaluate_script(String::from(
        "
        1 + 2 * 3.",
    ))
    .unwrap();
    assert_eq!(int_of(&heap, o), Some(9));
}

#[test]
fn eval_to_3() {
    let (heap, o) = evaluate_script(String::from(
        "
        1 + 2.",
    ))
    .unwrap();
    assert_eq!(int_of(&heap, o), Some(3));
}

#[test]
fn eval_to_7() {
    let (heap, o) = evaluate_script(String::from(
        "
        1 + (2 * 3).",
    ))
    .unwrap();
    assert_eq!(int_of(&heap, o), Some(7));
}

#[test]
fn eval_into_string_objects() {
    let mut ctx = Context::new(0);
    let n = ctx.eval(&AST::Int(-42));
    assert_eq!(n.as_str().unwrap(), "-42");
    let none = ctx.eval(&AST::Statements(vec![]));
    assert_eq!(none.as_str().unwrap(), "<none>");
    let last = ctx.eval(&AST::Statements(vec![AST::Int(1), AST::Int(25)]));
    assert_eq!(last.as_str().unwrap(), "25");
    let sent = ctx.eval(&AST::InvokeSequence(
        Box::new(AST::Int(7)),
        vec![AST::Message { name: "+".to_string(), args: vec![AST::Int(1)] }],
    ));
    assert_eq!(sent.as_str().unwrap(), "7");
    let nomsg = ctx.eval(&AST::InvokeSequence(Box::new(AST::Int(7)), vec![AST::Empty]));
    assert_eq!(nomsg.as_str().unwrap(), "<nomsg>");
}
