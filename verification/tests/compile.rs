use tt_rust::code::{CompileError, CompiledMethod, Operation};
use tt_rust::parser::AST;
use tt_rust::code::CodeAddress;
use tt_rust::{BlockContext, ContextTrait};
use tt_rust::code::compile_script;
use tt_rust::{display_text, MethodContext, EVAL_FUEL};

#[test]
fn compile_to_7() {
    let code = compile_script(String::from(
        "
        1 + (2 * 3).",
    ))
    .unwrap();
    let f = MethodContext::new();
    let (heap, r) = code.run(f).unwrap();
    assert_eq!(Some(7), heap.as_int(r));
}

#[test]
fn compile_to_points() {
    let code = compile_script(String::from(
        "
        a := 100 @ 200. b <- 300 @ 400. a + b.",
    ))
    .unwrap();
    let f = MethodContext::new();
    let (mut heap, r) = code.run(f).unwrap();
    let r = display_text(&mut heap, r, EVAL_FUEL).unwrap();
    assert_eq!("400@600", r);
}

#[test]
fn compile_block() {
    let code = compile_script(String::from(
        "
        '' species new: 10 streamContents: [ :result | result nextPut: $X ].
        ",
    ))
    .unwrap();
    let f = MethodContext::new();
    let (mut heap, r) = code.run(f).unwrap();
    let r = display_text(&mut heap, r, EVAL_FUEL).unwrap();
    assert_eq!("X", r);
}

#[test]
fn parse_binary() {
    let code = compile_script(String::from("^1 < 2")).unwrap();
    let f = MethodContext::new();
    let (mut heap, r) = code.run(f).unwrap();
    let r = display_text(&mut heap, r, EVAL_FUEL).unwrap();
    assert_eq!("True", r);
}

#[test]
fn compile_if_true() {
    let code = compile_script(String::from(
        "
        a := 1.
        a < 2 ifTrue: [a := 3].
        ^a
        ",
    ))
    .unwrap();
    let f = MethodContext::new();
    let (heap, r) = code.run(f).unwrap();
    assert_eq!(Some(3), heap.as_int(r));
}

#[test]
fn compile_if_false() {
    let code = compile_script(String::from(
        "
        a := 1.
        a > 2 ifFalse: [a := 3].
        ^a
        ",
    ))
    .unwrap();
    let f = MethodContext::new();
    let (heap, r) = code.run(f).unwrap();
    assert_eq!(Some(3), heap.as_int(r));
}

#[test]
fn compile_to_more_points() {
    let code = compile_script(String::from(
        "
        a := 100 @ 200. 
        b <- 300 @ 400. 
        Point x: a x + b y y: a y + b x.",
    ));
    assert!(code.is_ok());
}

#[test]
fn block_context_uses_its_method_frame() {
    let mut b = BlockContext::new(MethodContext::new());
    assert!(b.ip() == CodeAddress(0, 0));
    b.set_value(&CodeAddress(0, 1), 5);
    b.set_value(&CodeAddress(1, 0), 6);
    b.set_value(&CodeAddress(0, 1), 7);
    assert_eq!(b.get_value(&CodeAddress(0, 1)), Some(7));
    assert_eq!(b.get_values(&vec![CodeAddress(1, 0), CodeAddress(0, 1)]), Some(vec![6, 7]));
    assert_eq!(b.get_values(&vec![CodeAddress(2, 0)]), None);
    b.next_ip();
    assert!(b.ip() == CodeAddress(0, 1));
    b.call(CodeAddress(3, 4));
    assert!(b.ip() == CodeAddress(3, 4));
}

#[test]
fn block_begins_with_its_arguments() {
    let code = compile_script(String::from("[:x :y| x + y] value:1 value:2.")).unwrap();
    let blocks = &code.data.blocks;
    assert_eq!(2, blocks.len());
    assert!(matches!(blocks[1].opcode[0], Operation::Arg(0)));
    assert!(matches!(blocks[1].opcode[1], Operation::Arg(1)));
    assert!(blocks[1].result.is_some());
    assert!(matches!(blocks[0].opcode[0], Operation::Block(1)));
    let names: Vec<&str> = code.data.names.iter().map(|(n, _)| n.as_str()).collect();
    assert_eq!(vec!["x", "y"], names);
}

#[test]
fn message_without_receiver_is_refused() {
    let mut m = CompiledMethod::new();
    let r = m.compile(&AST::Message { name: String::from("foo"), args: vec![] });
    assert_eq!(Err(CompileError::NoReceiver), r);
    assert_eq!(0, m.data.blocks[0].opcode.len());
}

#[test]
fn variable_compiles_to_one_address() {
    let mut m = CompiledMethod::new();
    let first = m.compile(&AST::Variable(String::from("x"))).unwrap();
    let second = m.compile(&AST::Variable(String::from("x"))).unwrap();
    assert_eq!(first, second);
    assert_eq!(CodeAddress(0, 0), first);
    assert_eq!(1, m.data.blocks[0].opcode.len());
    assert!(matches!(&m.data.blocks[0].opcode[0], Operation::Global(n) if n == "x"));
    assert_eq!(Some(first), m.idx_for("x"));
}

#[test]
fn a_block_of_literals_runs_to_its_result() {
    let mut m = CompiledMethod::new();
    m.data.blocks[0].opcode.push(Operation::Int(5));
    m.data.blocks[0].opcode.push(Operation::Char('x'));
    m.data.blocks[0].result = Some(CodeAddress(0, 0));
    let (heap, r) = m.run(MethodContext::new()).unwrap();
    assert_eq!(Some(5), heap.as_int(r));
}

#[test]
fn a_frame_beyond_the_blocks_is_refused() {
    let m = CompiledMethod::new();
    let mut f = MethodContext::new();
    f.call(CodeAddress(3, 0));
    assert!(m.run(f).is_err());
}

#[test]
fn a_block_context_works_on_the_method_frame() {
    let mut b = BlockContext::new(MethodContext::new());
    b.call(CodeAddress(2, 0));
    b.set_value(&CodeAddress(2, 0), 7);
    b.next_ip();
    let m = b.into_method();
    assert_eq!(m.ip(), CodeAddress(2, 1));
    assert_eq!(m.get_value(&CodeAddress(2, 0)), Some(7));
}

#[test]
fn the_method_cache_answers_the_last_method_of_a_name() {
    let mut c = tt_rust::method_cache::MethodCache::new();
    assert!(c.get("m").is_none());
    let mut m1 = CompiledMethod::new();
    m1.data.blocks[0].opcode.push(Operation::Int(1));
    c.add("m", m1);
    let mut m2 = CompiledMethod::new();
    m2.data.blocks[0].opcode.push(Operation::Int(2));
    m2.data.blocks[0].opcode.push(Operation::Int(3));
    c.add("m", m2);
    assert_eq!(c.get("m").unwrap().data.blocks[0].opcode.len(), 2);
    assert!(c.get("n").is_none());
}
