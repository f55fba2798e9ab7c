use vstd::prelude::*;

pub mod agent;
pub mod code;
pub mod controls;
pub mod data;
pub mod dbx;
pub mod evaluation;
pub mod method_cache;
pub mod grammar;
pub mod parser;
pub mod runtime;
pub mod text;
pub mod tsort;
pub mod ui;

use crate::code::CodeAddress;
use crate::parser::{copy_list, copy_names, same_ast, AST};
use crate::runtime::arr::ArrayReceiver;
use crate::runtime::blk::BlockReceiver;
use crate::runtime::chr::CharReceiver;
use crate::runtime::integer::{IntMetaReceiver, IntReceiver};
use crate::runtime::nil::NilReciever;
use crate::runtime::pnt::PointMetaReceiver;
use crate::runtime::{
    alloc_ok, alloc_text, grows, heap_ok, lemma_grows_refl, lemma_grows_trans, refs_ok,
    replies_new, step_ok, EvalError, Heap, Obj,
};
use crate::runtime::{Handler, Object, ObjectPtr};
use crate::text::{int_text, int_to_string, str_eq};
use crate::evaluation::{
    evaluates, evaluates_all, fails_at, args_fail_at, none_empty, sends_all, sends_fail_at,
    sent,
};

verus! {

/// The variables of an evaluation and the object that `self` names.
pub struct Context {
    pub receiver_names: Vec<(String, usize)>,
    pub myself: usize,
}

/// Every object that `c` names lies below `n`.
pub open spec fn ctx_ok(c: Context, n: nat) -> bool {
    &&& c.myself < n
    &&& forall|i: int|
        0 <= i < c.receiver_names@.len() ==> #[trigger] c.receiver_names@[i].1 < n
}

pub proof fn lemma_ctx_grows(c: Context, n: nat, m: nat)
    requires
        ctx_ok(c, n),
        n <= m,
    ensures
        ctx_ok(c, m),
{
}

/// The object a variable names: the value of its first entry.
pub open spec fn lookup(names: Seq<(String, usize)>, name: Seq<char>) -> Option<usize>
    decreases names.len(),
{
    if names.len() == 0 {
        None
    } else if names[0].0@ == name {
        Some(names[0].1)
    } else {
        lookup(names.drop_first(), name)
    }
}

proof fn lemma_lookup_in(names: Seq<(String, usize)>, name: Seq<char>, n: nat)
    requires
        forall|i: int| 0 <= i < names.len() ==> #[trigger] names[i].1 < n,
    ensures
        lookup(names, name) matches Some(x) ==> x < n,
    decreases names.len(),
{
    if names.len() > 0 {
        assert(names[0].1 < n);
        assert forall|i: int| 0 <= i < names.drop_first().len() implies #[trigger] names.drop_first()[i].1 < n by {
            assert(names.drop_first()[i] == names[i + 1]);
        }
        lemma_lookup_in(names.drop_first(), name, n);
    }
}

/// `lookup` over a prefix whose names all differ from `name` goes on past it.
proof fn lemma_lookup_skip(names: Seq<(String, usize)>, name: Seq<char>, i: int)
    requires
        0 <= i <= names.len(),
        forall|j: int| 0 <= j < i ==> (#[trigger] names[j]).0@ != name,
    ensures
        lookup(names, name) == lookup(names.subrange(i, names.len() as int), name),
    decreases i,
{
    if i > 0 {
        assert forall|j: int| 0 <= j < i - 1 implies (#[trigger] names.drop_first()[j]).0@ != name by {
            assert(names.drop_first()[j] == names[j + 1]);
        }
        lemma_lookup_skip(names.drop_first(), name, i - 1);
        assert(names.drop_first().subrange(i - 1, names.drop_first().len() as int) =~= names.subrange(
            i,
            names.len() as int,
        ));
    } else {
        assert(names.subrange(0, names.len() as int) =~= names);
    }
}

impl Context {
    /// A context with no variables, in which `self` names `myself`.
    pub fn new(myself: usize) -> (c: Self)
        ensures
            c.myself == myself,
            c.receiver_names@.len() == 0,
    {
        Context { receiver_names: Vec::new(), myself }
    }

    /// A copy of the context.
    pub fn duplicate(&self) -> (c: Self)
        ensures
            c.myself == self.myself,
            c.receiver_names@.len() == self.receiver_names@.len(),
            forall|i: int|
                0 <= i < c.receiver_names@.len() ==> (#[trigger] c.receiver_names@[i]).0@
                    == self.receiver_names@[i].0@ && c.receiver_names@[i].1
                    == self.receiver_names@[i].1,
    {
        let mut v: Vec<(String, usize)> = Vec::new();
        let mut i: usize = 0;
        while i < self.receiver_names.len()
            invariant
                i <= self.receiver_names@.len(),
                v@.len() == i,
                forall|j: int|
                    0 <= j < i ==> (#[trigger] v@[j]).0@ == self.receiver_names@[j].0@ && v@[j].1
                        == self.receiver_names@[j].1,
            decreases self.receiver_names.len() - i,
        {
            let (k, x) = &self.receiver_names[i];
            v.push((k.clone(), *x));
            i = i + 1;
        }
        Context { receiver_names: v, myself: self.myself }
    }

    /// Binds `name` to `rec`: the first entry of that name gets the new value, or a new
    /// entry is added.
    pub fn set_receiver(&mut self, name: &str, rec: usize)
        ensures
            lookup(final(self).receiver_names@, name@) == Some(rec),
            forall|k: Seq<char>|
                k != name@ ==> lookup(final(self).receiver_names@, k) == lookup(
                    old(self).receiver_names@,
                    k,
                ),
            final(self).myself == old(self).myself,
            forall|n: nat|
                ctx_ok(*old(self), n) && rec < n ==> #[trigger] ctx_ok(*final(self), n),
    {
        let ghost old_names = self.receiver_names@;
        let mut i: usize = 0;
        while i < self.receiver_names.len()
            invariant
                self.receiver_names@ == old_names,
                old_names == old(self).receiver_names@,
                self.myself == old(self).myself,
                i <= old_names.len(),
                forall|j: int| 0 <= j < i ==> (#[trigger] old_names[j]).0@ != name@,
            decreases self.receiver_names.len() - i,
        {
            if str_eq(self.receiver_names[i].0.as_str(), name) {
                let key = self.receiver_names[i].0.clone();
                self.receiver_names.set(i, (key, rec));
                proof {
                    let new_names = self.receiver_names@;
                    assert forall|n: nat| ctx_ok(*old(self), n) && rec < n implies #[trigger] ctx_ok(
                        *self,
                        n,
                    ) by {
                        assert forall|j: int| 0 <= j < new_names.len() implies #[trigger] new_names[j].1 < n by {
                            if j != i {
                                assert(new_names[j] == old_names[j]);
                            }
                        }
                    }
                    lemma_lookup_skip(new_names, name@, i as int);
                    assert forall|k: Seq<char>| k != name@ implies lookup(new_names, k) == lookup(
                        old_names,
                        k,
                    ) by {
                        lemma_lookup_change(old_names, i as int, rec, k);
                    }
                }
                return;
            }
            i = i + 1;
        }
        self.receiver_names.push((name.to_owned(), rec));
        proof {
            let new_names = self.receiver_names@;
            assert forall|n: nat| ctx_ok(*old(self), n) && rec < n implies #[trigger] ctx_ok(*self, n) by {
                assert forall|j: int| 0 <= j < new_names.len() implies #[trigger] new_names[j].1 < n by {
                    if j < old_names.len() {
                        assert(new_names[j] == old_names[j]);
                    }
                }
            }
            assert forall|j: int| 0 <= j < old_names.len() implies (#[trigger] new_names[j]).0@
                != name@ by {
                assert(new_names[j] == old_names[j]);
            }
            lemma_lookup_skip(new_names, name@, old_names.len() as int);
            assert forall|k: Seq<char>| k != name@ implies lookup(new_names, k) == lookup(
                old_names,
                k,
            ) by {
                lemma_lookup_push(old_names, new_names.last(), k);
            }
        }
    }

    /// The object that `name` names here, if any.
    pub fn get_receiver(&self, name: &str) -> (r: Option<usize>)
        ensures
            r == lookup(self.receiver_names@, name@),
    {
        let mut i: usize = 0;
        while i < self.receiver_names.len()
            invariant
                i <= self.receiver_names@.len(),
                forall|j: int| 0 <= j < i ==> (#[trigger] self.receiver_names@[j]).0@ != name@,
            decreases self.receiver_names.len() - i,
        {
            if str_eq(self.receiver_names[i].0.as_str(), name) {
                proof {
                    lemma_lookup_skip(self.receiver_names@, name@, i as int);
                }
                return Some(self.receiver_names[i].1);
            }
            i = i + 1;
        }
        proof {
            lemma_lookup_skip(self.receiver_names@, name@, i as int);
        }
        None
    }
}

proof fn lemma_lookup_change(names: Seq<(String, usize)>, i: int, rec: usize, k: Seq<char>)
    requires
        0 <= i < names.len(),
        k != names[i].0@,
    ensures
        lookup(names.update(i, (names[i].0, rec)), k) == lookup(names, k),
    decreases names.len(),
{
    let u = names.update(i, (names[i].0, rec));
    if i > 0 {
        assert(u.drop_first() =~= names.drop_first().update(i - 1, (names[i].0, rec)));
        assert(u[0] == names[0]);
        lemma_lookup_change(names.drop_first(), i - 1, rec, k);
    } else {
        assert(u.drop_first() =~= names.drop_first());
    }
}

proof fn lemma_lookup_push(names: Seq<(String, usize)>, e: (String, usize), k: Seq<char>)
    requires
        k != e.0@,
    ensures
        lookup(names.push(e), k) == lookup(names, k),
    decreases names.len(),
{
    if names.len() > 0 {
        assert(names.push(e).drop_first() =~= names.drop_first().push(e));
        assert(names.push(e)[0] == names[0]);
        lemma_lookup_push(names.drop_first(), e, k);
    } else {
        assert(names.push(e).drop_first() =~= names);
    }
}


/// A copy of a list of object names.
pub fn copy_refs(v: &Vec<usize>) -> (r: Vec<usize>)
    ensures
        r@ == v@,
{
    let mut r: Vec<usize> = Vec::new();
    let mut i: usize = 0;
    while i < v.len()
        invariant
            i <= v@.len(),
            r@ == v@.take(i as int),
        decreases v.len() - i,
    {
        r.push(v[i]);
        assert(r@ =~= v@.take(i + 1));
        i = i + 1;
    }
    assert(r@ =~= v@);
    r
}

/// What `target` answers to `selector` with the arguments `args`, by the kind of object it is.
pub open spec fn message_reply(
    fuel: nat,
    h: Seq<Obj>,
    h2: Seq<Obj>,
    target: usize,
    selector: Seq<char>,
    args: Seq<usize>,
    r: Result<usize, EvalError>,
) -> bool
    decreases fuel, 2nat, 0nat,
{
    match h[target as int] {
        Obj::Nil(_) => crate::runtime::nil::nil_reply(fuel, h, h2, selector, args, r),
        Obj::True(_) => crate::runtime::boo::bool_reply(fuel, h, h2, true, selector, args, r),
        Obj::False(_) => crate::runtime::boo::bool_reply(fuel, h, h2, false, selector, args, r),
        Obj::Int(i) => crate::runtime::integer::int_reply(fuel, h, h2, i.0, selector, args, r),
        Obj::IntMeta(_) => crate::runtime::integer::int_meta_reply(h, h2, selector, args, r),
        Obj::Point(p) => crate::runtime::pnt::point_reply(fuel, h, h2, p.0, p.1, selector, args, r),
        Obj::PointMeta(_) => crate::runtime::pnt::point_meta_reply(h, h2, selector, args, r),
        Obj::Char(c) => crate::runtime::chr::char_reply(fuel, h, h2, c.0, selector, args, r),
        Obj::Str(_) => crate::runtime::str::string_reply(fuel, h, h2, target, selector, args, r),
        Obj::StrMeta(_) => crate::runtime::str::string_meta_reply(fuel, h, h2, selector, args, r),
        Obj::Stream(_) => crate::runtime::stm::stream_reply(fuel, h, h2, target, selector, args, r),
        Obj::Array(a) => crate::runtime::arr::array_reply(h, h2, a.0@, selector, args, r),
        Obj::Block(_) => crate::runtime::blk::block_reply(h, h2, target, selector, args, r),
        Obj::CompiledBlock(_) => crate::code::compiled_block_reply(h, h2, selector, r),
    }
}

/// Sends the message `selector` with the arguments `args` to the object named `target` and
/// answers the object the receiver answers. Every kind of object answers the messages its
/// receiver type lists; any other message is not understood. Each send takes one unit of
/// `fuel`.
pub fn send_message(heap: &mut Heap, target: usize, selector: &str, args: &Vec<usize>, fuel: u64) -> (r:
    Result<usize, EvalError>)
    requires
        heap_ok(old(heap).view()),
        target < old(heap).view().len(),
        refs_ok(args@, old(heap).view().len()),
    ensures
        step_ok(old(heap).view(), final(heap).view(), r),
        fuel == 0 ==> (r is Err && r->Err_0 is OutOfFuel),
        fuel > 0 ==> message_reply(fuel as nat, old(heap).view(), final(heap).view(), target, selector@, args@, r),
        sent(fuel as nat, old(heap).view(), final(heap).view(), target, selector@, args@, r),
    decreases fuel, 2nat,
{
    proof {
        lemma_grows_refl(heap.view());
    }
    if fuel == 0 {
        return Err(EvalError::OutOfFuel);
    }
    match heap.get(target) {
        Obj::Nil(_) => crate::runtime::nil::receive_nil(heap, selector, args, fuel),
        Obj::True(_) => crate::runtime::boo::receive_bool(heap, true, selector, args, fuel),
        Obj::False(_) => crate::runtime::boo::receive_bool(heap, false, selector, args, fuel),
        Obj::Int(i) => {
            let n = i.0;
            crate::runtime::integer::receive_int(heap, n, selector, args, fuel)
        },
        Obj::IntMeta(_) => crate::runtime::integer::receive_int_meta(heap, selector, args),
        Obj::Point(p) => {
            let (x, y) = (p.0, p.1);
            crate::runtime::pnt::receive_point(heap, x, y, selector, args, fuel)
        },
        Obj::PointMeta(_) => crate::runtime::pnt::receive_point_meta(heap, selector, args),
        Obj::Char(c) => {
            let ch = c.0;
            crate::runtime::chr::receive_char(heap, ch, selector, args, fuel)
        },
        Obj::Str(_) => crate::runtime::str::receive_string(heap, target, selector, args, fuel),
        Obj::StrMeta(_) => crate::runtime::str::receive_string_meta(heap, selector, args, fuel),
        Obj::Stream(_) => crate::runtime::stm::receive_stream(heap, target, selector, args, fuel),
        Obj::Array(a) => {
            let elems = copy_refs(&a.0);
            proof {
                assert(crate::runtime::obj_refs_ok(heap.view()[target as int], heap.view().len()));
            }
            crate::runtime::arr::receive_array(heap, &elems, selector, args)
        },
        Obj::Block(_) => crate::runtime::blk::receive_block(heap, target, selector, args, fuel),
        Obj::CompiledBlock(b) => {
            let block = b.block;
            crate::code::receive_compiled_block(heap, block, selector, args, fuel)
        },
    }
}

/// `o` is a block with the given parameters, temporaries and body, that captured the
/// variables of `c`.
pub open spec fn captured_block(o: Obj, params: Seq<String>, temps: Seq<String>, body: AST, c: Context) -> bool {
    &&& o is Block
    &&& o->Block_0.params@ == params
    &&& o->Block_0.temps@ == temps
    &&& same_ast(*o->Block_0.body, body)
    &&& o->Block_0.ctx.myself == c.myself
    &&& o->Block_0.ctx.receiver_names@.len() == c.receiver_names@.len()
    &&& forall|i: int|
        0 <= i < c.receiver_names@.len() ==> (#[trigger] o->Block_0.ctx.receiver_names@[i]).0@
            == c.receiver_names@[i].0@ && o->Block_0.ctx.receiver_names@[i].1
            == c.receiver_names@[i].1
}

/// A syntax tree that `Context::eval` evaluates: an integer, statements of such trees, or a
/// message sequence whose target and message arguments are such trees.
pub open spec fn evaluable(t: AST) -> bool
    decreases t,
{
    match t {
        AST::Int(_) => true,
        AST::Statements(s) => forall|i: int| 0 <= i < s@.len() ==> evaluable(#[trigger] s@[i]),
        AST::InvokeSequence(target, msgs) => evaluable(*target) && forall|i: int, j: int|
            0 <= i < msgs@.len() && (#[trigger] msgs@[i]) is Message && 0 <= j
                < msgs@[i]->Message_args@.len() ==> evaluable(
                #[trigger] msgs@[i]->Message_args@[j],
            ),
        _ => false,
    }
}

/// Some tree of `msgs` is a message.
pub open spec fn has_message(msgs: Seq<AST>) -> bool {
    exists|i: int| 0 <= i < msgs.len() && (#[trigger] msgs[i]) is Message
}

/// The text of the string object that `Context::eval` gives for `t`: the decimal text of an
/// integer, that of the last statement ("<none>" for no statements), and for a message
/// sequence that of its target, which answers every message ("<nomsg>" where no message is
/// sent).
pub open spec fn eval_text(t: AST) -> Seq<char>
    decreases t,
{
    match t {
        AST::Int(n) => int_text(n as int),
        AST::Statements(s) => if s@.len() == 0 {
            "<none>"@
        } else {
            eval_text(s@[s@.len() - 1])
        },
        AST::InvokeSequence(target, msgs) => if has_message(msgs@) {
            eval_text(*target)
        } else {
            "<nomsg>"@
        },
        _ => seq![],
    }
}

/// A statement is smaller than the statements.
proof fn lemma_statement_decreases(t: AST, i: int)
    requires
        t is Statements,
        0 <= i < t->Statements_0@.len(),
    ensures
        decreases_to!(t => t->Statements_0@[i]),
{
    let s = t->Statements_0;
    assert(decreases_to!(t => s));
    assert(decreases_to!(s => s@));
    assert(decreases_to!(s@ => s@[i]));
}

/// The target of a message sequence and the arguments of its messages are smaller than it.
proof fn lemma_invoke_decreases(t: AST, i: int, j: int)
    requires
        t is InvokeSequence,
        0 <= i < t->InvokeSequence_1@.len(),
        t->InvokeSequence_1@[i] is Message,
        0 <= j < t->InvokeSequence_1@[i]->Message_args@.len(),
    ensures
        decreases_to!(t => t->InvokeSequence_1@[i]->Message_args@[j]),
{
    let msgs = t->InvokeSequence_1;
    let m = msgs@[i];
    let args = m->Message_args;
    assert(decreases_to!(t => msgs));
    assert(decreases_to!(msgs => msgs@));
    assert(decreases_to!(msgs@ => m));
    assert(decreases_to!(m => args));
    assert(decreases_to!(args => args@));
    assert(decreases_to!(args@ => args@[j]));
}

impl Context {
    /// Evaluates a syntax tree into a string object: an integer gives its decimal text,
    /// statements the value of the last one, and a message sequence sends each message, with
    /// its evaluated arguments, to the value of its target (see `eval_text`).
    pub fn eval(&mut self, t: &AST) -> (r: ObjectPtr)
        requires
            evaluable(*t),
        ensures
            r.spec_handler() == Handler::Nil,
            r.spec_vars().len() == 0,
            r.spec_text() == Some(eval_text(*t)),
            *final(self) == *old(self),
        decreases *t,
    {
        match t {
            AST::Int(n) => {
                let text = int_to_string(*n);
                Object::new_string(text.as_str())
            },
            AST::Statements(s) => {
                let mut r = Object::new_string("<none>");
                let mut i: usize = 0;
                while i < s.len()
                    invariant
                        i <= s@.len(),
                        *t == AST::Statements(*s),
                        evaluable(*t),
                        *self == *old(self),
                        r.spec_handler() == Handler::Nil,
                        r.spec_vars().len() == 0,
                        r.spec_text() == Some(
                            if i == 0 {
                                "<none>"@
                            } else {
                                eval_text(s@[i - 1])
                            },
                        ),
                    decreases s.len() - i,
                {
                    proof {
                        lemma_statement_decreases(*t, i as int);
                    }
                    r = self.eval(&s[i]);
                    i = i + 1;
                }
                r
            },
            AST::InvokeSequence(target, msgs) => {
                let target_obj = self.eval(target);
                let mut r = Object::new_string("<nomsg>");
                let mut i: usize = 0;
                while i < msgs.len()
                    invariant
                        i <= msgs@.len(),
                        *t == AST::InvokeSequence(*target, *msgs),
                        evaluable(*t),
                        *self == *old(self),
                        target_obj.spec_handler() == Handler::Nil,
                        target_obj.spec_text() == Some(eval_text(**target)),
                        target_obj.spec_vars().len() == 0,
                        r.spec_handler() == Handler::Nil,
                        r.spec_vars().len() == 0,
                        r.spec_text() == Some(
                            if has_message(msgs@.take(i as int)) {
                                eval_text(**target)
                            } else {
                                "<nomsg>"@
                            },
                        ),
                    decreases msgs.len() - i,
                {
                    proof {
                        assert(msgs@.take(i + 1).drop_last() =~= msgs@.take(i as int));
                        if has_message(msgs@.take(i as int)) {
                            let k = choose|k: int|
                                0 <= k < i && (#[trigger] msgs@.take(i as int)[k]) is Message;
                            assert(msgs@.take(i + 1)[k] == msgs@.take(i as int)[k]);
                        }
                    }
                    if let AST::Message { name, args } = &msgs[i] {
                        let mut oargs: Vec<ObjectPtr> = Vec::new();
                        let mut j: usize = 0;
                        while j < args.len()
                            invariant
                                j <= args@.len(),
                                i < msgs@.len(),
                                msgs@[i as int] == (AST::Message { name: *name, args: *args }),
                                *t == AST::InvokeSequence(*target, *msgs),
                                evaluable(*t),
                                *self == *old(self),
                            decreases args.len() - j,
                        {
                            proof {
                                lemma_invoke_decreases(*t, i as int, j as int);
                                assert(evaluable(msgs@[i as int]->Message_args@[j as int]));
                            }
                            let o = self.eval(&args[j]);
                            oargs.push(o);
                            j = j + 1;
                        }
                        r = target_obj.send(name.as_str(), oargs.as_slice());
                        assert(msgs@.take(i + 1)[i as int] is Message);
                    } else {
                        proof {
                            if has_message(msgs@.take(i + 1)) {
                                let k = choose|k: int|
                                    0 <= k < i + 1 && (#[trigger] msgs@.take(i + 1)[k]) is Message;
                                assert(k < i);
                                assert(msgs@.take(i as int)[k] == msgs@.take(i + 1)[k]);
                            }
                        }
                    }
                    i = i + 1;
                }
                assert(msgs@.take(msgs@.len() as int) =~= msgs@);
                r
            },
            _ => Object::new_string(""),
        }
    }

    /// Evaluates statements: makes a nil, then evaluates each statement in turn, and answers
    /// the value of the last one (the nil where there is none) or the first error.
    fn eval_statements(&mut self, heap: &mut Heap, t: &AST, s: &Vec<AST>, fuel: u64) -> (r: Result<
        usize,
        EvalError,
    >)
        requires
            heap_ok(old(heap).view()),
            ctx_ok(*old(self), old(heap).view().len()),
            fuel > 0,
            *t == AST::Statements(*s),
        ensures
            step_ok(old(heap).view(), final(heap).view(), r),
            ctx_ok(*final(self), final(heap).view().len()),
            final(self).myself == old(self).myself,
            crate::evaluation::statements_evaluate(
                (fuel - 1) as nat,
                *old(self),
                old(heap).view(),
                *t,
                *final(self),
                final(heap).view(),
                r,
            ),
        decreases fuel, 2nat,
    {
        let ghost h = heap.view();
        let ghost c0 = *self;
        let ghost f = (fuel - 1) as nat;
        proof {
            lemma_grows_refl(h);
        }
        let mut last = match alloc_ok(heap, Obj::Nil(NilReciever::get())) {
            Ok(x) => x,
            Err(e) => {
                return Err(e);
            },
        };
        let ghost h0 = heap.view();
        let ghost mut vals: Seq<usize> = Seq::empty();
        let mut i: usize = 0;
        while i < s.len()
            invariant
                i <= s@.len(),
                *t == AST::Statements(*s),
                f == fuel - 1,
                fuel > 0,
                h == old(heap).view(),
                c0 == *old(self),
                h0 == h.push(Obj::Nil(NilReciever)),
                last == (if vals.len() == 0 {
                    h.len() as usize
                } else {
                    vals.last()
                }),
                evaluates_all(f, c0, h0, s@, i as nat, *self, heap.view(), vals),
                heap_ok(heap.view()),
                grows(h, heap.view()),
                ctx_ok(*self, heap.view().len()),
                self.myself == c0.myself,
                last < heap.view().len(),
            decreases s.len() - i,
        {
            let ghost h1 = heap.view();
            let ghost c1 = *self;
            let res = self.eval_to_reciever(heap, &s[i], fuel - 1);
            proof {
                lemma_grows_trans(h, h1, heap.view());
            }
            match res {
                Ok(x) => {
                    proof {
                        crate::evaluation::lemma_all_push(f, c0, h0, s@, i as nat, c1, h1, vals, *self, heap.view(), x);
                        vals = vals.push(x);
                    }
                    last = x;
                },
                Err(e) => {
                    proof {
                        crate::evaluation::lemma_fails(f, c0, h0, s@, i as nat, c1, h1, vals, *self, heap.view(), e);
                        assert(crate::evaluation::witness((i as nat, e)));
                    }
                    return Err(e);
                },
            }
            i = i + 1;
        }
        proof {
            assert(crate::evaluation::witness(vals));
        }
        Ok(last)
    }

    /// Evaluates the expressions of `{ e1. e2 }` in turn and answers a new array of their
    /// values, or the first error.
    fn eval_table(&mut self, heap: &mut Heap, t: &AST, v: &Vec<AST>, fuel: u64) -> (r: Result<
        usize,
        EvalError,
    >)
        requires
            heap_ok(old(heap).view()),
            ctx_ok(*old(self), old(heap).view().len()),
            fuel > 0,
            *t == AST::Table(*v),
        ensures
            step_ok(old(heap).view(), final(heap).view(), r),
            ctx_ok(*final(self), final(heap).view().len()),
            final(self).myself == old(self).myself,
            crate::evaluation::table_evaluates(
                (fuel - 1) as nat,
                *old(self),
                old(heap).view(),
                *t,
                *final(self),
                final(heap).view(),
                r,
            ),
        decreases fuel, 2nat,
    {
        let ghost h = heap.view();
        let ghost c0 = *self;
        let ghost f = (fuel - 1) as nat;
        proof {
            lemma_grows_refl(h);
        }
        let mut refs: Vec<usize> = Vec::new();
        let mut i: usize = 0;
        while i < v.len()
            invariant
                i <= v@.len(),
                *t == AST::Table(*v),
                f == fuel - 1,
                fuel > 0,
                h == old(heap).view(),
                c0 == *old(self),
                evaluates_all(f, c0, h, v@, i as nat, *self, heap.view(), refs@),
                heap_ok(heap.view()),
                grows(h, heap.view()),
                ctx_ok(*self, heap.view().len()),
                self.myself == c0.myself,
                refs_ok(refs@, heap.view().len()),
            decreases v.len() - i,
        {
            let ghost h1 = heap.view();
            let ghost c1 = *self;
            let ghost before = refs@;
            let res = self.eval_to_reciever(heap, &v[i], fuel - 1);
            proof {
                lemma_grows_trans(h, h1, heap.view());
            }
            let x = match res {
                Ok(x) => x,
                Err(e) => {
                    proof {
                        crate::evaluation::lemma_fails(f, c0, h, v@, i as nat, c1, h1, before, *self, heap.view(), e);
                        assert(crate::evaluation::witness((i as nat, e)));
                    }
                    return Err(e);
                },
            };
            refs.push(x);
            proof {
                crate::evaluation::lemma_all_push(f, c0, h, v@, i as nat, c1, h1, before, *self, heap.view(), x);
            }
            i = i + 1;
        }
        let ghost h1 = heap.view();
        let ghost vals = refs@;
        let len_before = heap.objs.len();
        let r = alloc_ok(heap, Obj::Array(ArrayReceiver(refs)));
        proof {
            lemma_grows_trans(h, h1, heap.view());
            assert(len_before == h1.len());
            if r is Ok {
                assert(heap.view().drop_last() =~= h1);
            }
            assert(crate::evaluation::replies_array(h1, heap.view(), r, vals));
            assert(crate::evaluation::witness((h1, vals)));
        }
        r
    }

    /// Evaluates a message sequence: its target, then each message in turn, with its
    /// arguments evaluated in order, sent to the answer so far; answers the last answer or the
    /// first error.
    fn eval_sequence(&mut self, heap: &mut Heap, t: &AST, target: &Box<AST>, msgs: &Vec<AST>, fuel: u64) -> (r:
        Result<usize, EvalError>)
        requires
            heap_ok(old(heap).view()),
            ctx_ok(*old(self), old(heap).view().len()),
            fuel > 0,
            *t == AST::InvokeSequence(*target, *msgs),
        ensures
            step_ok(old(heap).view(), final(heap).view(), r),
            ctx_ok(*final(self), final(heap).view().len()),
            final(self).myself == old(self).myself,
            crate::evaluation::sequence_evaluates(
                (fuel - 1) as nat,
                *old(self),
                old(heap).view(),
                *t,
                *final(self),
                final(heap).view(),
                r,
            ),
        decreases fuel, 2nat,
    {
        let ghost h = heap.view();
        let ghost c0 = *self;
        let ghost f = (fuel - 1) as nat;
        proof {
            lemma_grows_refl(h);
        }
        let mut receiver = match self.eval_to_reciever(heap, target, fuel - 1) {
            Ok(x) => x,
            Err(e) => {
                proof {
                    assert(crate::evaluation::witness(e));
                }
                return Err(e);
            },
        };
        let ghost c1 = *self;
        let ghost h1 = heap.view();
        let ghost rec0 = receiver;
        let mut i: usize = 0;
        while i < msgs.len()
            invariant
                i <= msgs@.len(),
                *t == AST::InvokeSequence(*target, *msgs),
                f == fuel - 1,
                fuel > 0,
                h == old(heap).view(),
                c0 == *old(self),
                evaluates(f, c0, h, **target, c1, h1, Ok(rec0)),
                sends_all(f, c1, h1, msgs@, i as nat, rec0, *self, heap.view(), receiver),
                heap_ok(heap.view()),
                grows(h, heap.view()),
                ctx_ok(*self, heap.view().len()),
                self.myself == c0.myself,
                receiver < heap.view().len(),
            decreases msgs.len() - i,
        {
            let ghost cm = *self;
            let ghost hm = heap.view();
            let ghost rm = receiver;
            if let AST::Message { name, args } = &msgs[i] {
                let mut oargs: Vec<usize> = Vec::new();
                let mut j: usize = 0;
                proof {
                    lemma_grows_refl(hm);
                }
                while j < args.len()
                    invariant
                        j <= args@.len(),
                        i < msgs@.len(),
                        msgs@[i as int] == (AST::Message { name: *name, args: *args }),
                        *t == AST::InvokeSequence(*target, *msgs),
                        f == fuel - 1,
                        fuel > 0,
                        h == old(heap).view(),
                        c0 == *old(self),
                        evaluates(f, c0, h, **target, c1, h1, Ok(rec0)),
                        sends_all(f, c1, h1, msgs@, i as nat, rec0, cm, hm, rm),
                        receiver == rm,
                        evaluates_all(f, cm, hm, args@, j as nat, *self, heap.view(), oargs@),
                        none_empty(args@.take(j as int)),
                        heap_ok(heap.view()),
                        grows(h, heap.view()),
                        grows(hm, heap.view()),
                        ctx_ok(*self, heap.view().len()),
                        self.myself == c0.myself,
                        receiver < heap.view().len(),
                        refs_ok(oargs@, heap.view().len()),
                    decreases args.len() - j,
                {
                    if let AST::Empty = &args[j] {
                        proof {
                            crate::evaluation::lemma_args_fail(
                                f, cm, hm, args@, j as nat, *self, heap.view(), oargs@, *self, heap.view(),
                                EvalError::Unsupported,
                            );
                            assert(crate::evaluation::witness(j as nat));
                            crate::evaluation::lemma_sends_fail(
                                f, c1, h1, msgs@, i as nat, rec0, cm, hm, rm, *self, heap.view(), EvalError::Unsupported,
                            );
                            assert(crate::evaluation::witness((i as nat, EvalError::Unsupported)));
                            assert(crate::evaluation::witness((c1, h1, rec0)));
                        }
                        return Err(EvalError::Unsupported);
                    }
                    let ghost ca = *self;
                    let ghost ha = heap.view();
                    let ghost before = oargs@;
                    let res = self.eval_to_reciever(heap, &args[j], fuel - 1);
                    proof {
                        lemma_grows_trans(h, ha, heap.view());
                        lemma_grows_trans(hm, ha, heap.view());
                    }
                    let o = match res {
                        Ok(x) => x,
                        Err(e) => {
                            proof {
                                crate::evaluation::lemma_args_fail(
                                    f, cm, hm, args@, j as nat, ca, ha, before, *self, heap.view(), e,
                                );
                                assert(crate::evaluation::witness(j as nat));
                                crate::evaluation::lemma_sends_fail(
                                    f, c1, h1, msgs@, i as nat, rec0, cm, hm, rm, *self, heap.view(), e,
                                );
                                assert(crate::evaluation::witness((i as nat, e)));
                                assert(crate::evaluation::witness((c1, h1, rec0)));
                            }
                            return Err(e);
                        },
                    };
                    oargs.push(o);
                    proof {
                        crate::evaluation::lemma_all_push(f, cm, hm, args@, j as nat, ca, ha, before, *self, heap.view(), o);
                        assert(args@.take(j + 1).drop_last() =~= args@.take(j as int));
                        assert(none_empty(args@.take(j + 1)));
                    }
                    j = j + 1;
                }
                proof {
                    assert(args@.take(args@.len() as int) =~= args@);
                }
                let ghost ca = *self;
                let ghost ha = heap.view();
                let res = send_message(heap, receiver, name.as_str(), &oargs, fuel - 1);
                proof {
                    lemma_grows_trans(h, ha, heap.view());
                    assert(evaluates_all(f, cm, hm, args@, args@.len(), ca, ha, oargs@));
                }
                receiver = match res {
                    Ok(x) => x,
                    Err(e) => {
                        proof {
                            assert(crate::evaluation::witness((ha, oargs@)));
                            crate::evaluation::lemma_sends_fail(
                                f, c1, h1, msgs@, i as nat, rec0, cm, hm, rm, *self, heap.view(), e,
                            );
                            assert(crate::evaluation::witness((i as nat, e)));
                            assert(crate::evaluation::witness((c1, h1, rec0)));
                        }
                        return Err(e);
                    },
                };
                proof {
                    assert(crate::evaluation::witness((ha, oargs@)));
                    crate::evaluation::lemma_sends_push(
                        f, c1, h1, msgs@, i as nat, rec0, cm, hm, rm, *self, heap.view(), receiver,
                    );
                }
            } else {
                proof {
                    crate::evaluation::lemma_sends_push(
                        f, c1, h1, msgs@, i as nat, rec0, cm, hm, rm, *self, heap.view(), receiver,
                    );
                }
            }
            i = i + 1;
        }
        proof {
            assert(crate::evaluation::witness(receiver));
            assert(crate::evaluation::witness((c1, h1, rec0)));
        }
        Ok(receiver)
    }

    /// Evaluates a syntax tree with `fuel` steps, as `evaluates` describes: literals make new
    /// objects, a variable names the object it is bound to (or `self`, or the classes `Point`
    /// and `Integer`), an assignment binds the value of its expression, statements answer the
    /// value of the last one (nil where there is none), a message sequence sends its messages
    /// one after the other to the answers so far, `{ e }` makes an array and a block captures
    /// the variables seen here.
    pub fn eval_to_reciever(&mut self, heap: &mut Heap, t: &AST, fuel: u64) -> (r: Result<
        usize,
        EvalError,
    >)
        requires
            heap_ok(old(heap).view()),
            ctx_ok(*old(self), old(heap).view().len()),
        ensures
            step_ok(old(heap).view(), final(heap).view(), r),
            ctx_ok(*final(self), final(heap).view().len()),
            final(self).myself == old(self).myself,
            evaluates(fuel as nat, *old(self), old(heap).view(), *t, *final(self), final(heap).view(), r),
            fuel == 0 ==> (r is Err && r->Err_0 is OutOfFuel),
        decreases fuel, 3nat,
    {
        let ghost h = heap.view();
        proof {
            lemma_grows_refl(h);
        }
        if fuel == 0 {
            return Err(EvalError::OutOfFuel);
        }
        match t {
            AST::Int(n) => alloc_ok(heap, Obj::Int(IntReceiver::new(*n))),
            AST::Char(c) => alloc_ok(heap, Obj::Char(CharReceiver::new(*c))),
            AST::String(s) => alloc_text(heap, s.clone()),
            AST::Return(x) => self.eval_to_reciever(heap, x, fuel - 1),
            AST::Variable(name) => {
                match self.get_receiver(name.as_str()) {
                    Some(r) => {
                        proof {
                            lemma_lookup_in(self.receiver_names@, name@, h.len());
                        }
                        Ok(r)
                    },
                    None => {
                        if str_eq(name.as_str(), "self") {
                            Ok(self.myself)
                        } else if str_eq(name.as_str(), "Point") {
                            alloc_ok(heap, Obj::PointMeta(PointMetaReceiver))
                        } else if str_eq(name.as_str(), "Integer") {
                            alloc_ok(heap, Obj::IntMeta(IntMetaReceiver))
                        } else {
                            Err(EvalError::UnknownName(name.clone()))
                        }
                    },
                }
            },
            AST::Table(v) => self.eval_table(heap, t, v, fuel),
            AST::Statements(s) => self.eval_statements(heap, t, s, fuel),
            AST::InvokeSequence(target, msgs) => self.eval_sequence(heap, t, target, msgs, fuel),
            AST::Assign(n, e) => {
                if let AST::Name(name) = &**n {
                    let res = self.eval_to_reciever(heap, e, fuel - 1);
                    proof {
                        assert(crate::evaluation::witness(*self));
                    }
                    let value = match res {
                        Ok(v) => v,
                        Err(err) => {
                            return Err(err);
                        },
                    };
                    self.set_receiver(name.as_str(), value);
                    Ok(value)
                } else {
                    Err(EvalError::Unsupported)
                }
            },
            AST::Block { params, temps, body } => {
                let b = BlockReceiver {
                    params: copy_names(params),
                    temps: copy_names(temps),
                    body: Box::new(body.copy()),
                    ctx: self.duplicate(),
                };
                let r = alloc_ok(heap, Obj::Block(b));
                proof {
                    if r is Ok {
                        assert(heap.view().drop_last() =~= h);
                    }
                }
                r
            },
            _ => Err(EvalError::Unsupported),
        }
    }
}

/// The number of steps an evaluation of a script may take.
pub const EVAL_FUEL: u64 = 1000000;

/// `t` is the text the object `o` writes of itself: a new empty string is added at the end
/// of `h`, `basic_write_to` with that string goes to `o` and is answered, and the string then
/// holds `t`.
pub open spec fn displayed(fuel: nat, h: Seq<Obj>, h2: Seq<Obj>, o: usize, t: Seq<char>) -> bool {
    exists|h1: Seq<Obj>, a: usize|
        #[trigger] crate::evaluation::witness((h1, a)) && crate::runtime::replies_text(
            h,
            h1,
            Ok(h.len() as usize),
            Seq::empty(),
        ) && sent(fuel, h1, h2, o, "basic_write_to"@, seq![h.len() as usize], Ok(a)) && (h2[h.len() as int] matches Obj::Str(
            x,
        ) && x.val@ == t)
}

/// `write` with a new string holding `t0`, sent to an empty string, leaves that string
/// holding `t0`.
proof fn lemma_written_into_empty(fuel: nat, h1: Seq<Obj>, h2: Seq<Obj>, t0: Seq<char>, n: usize, a: usize)
    requires
        fuel > 0,
        n < h1.len() < usize::MAX,
        h1[n as int] matches Obj::Str(x) && x.val@.len() == 0,
        crate::runtime::nil::wrote_text(fuel, h1, h2, t0, seq![n], Ok(a)),
    ensures
        crate::runtime::str::text_at(h2, n as int) == t0,
{
    reveal_strlit("write");
    let h3 = choose|h3: Seq<Obj>|
        #[trigger] crate::evaluation::witness(h3) && crate::runtime::replies_text(
            h1,
            h3,
            Ok(h1.len() as usize),
            t0,
        ) && sent((fuel - 1) as nat, h3, h2, n, "write"@, seq![h1.len() as usize], Ok(a));
    if fuel == 1 {
        assert(false);
    }
    assert(h3[n as int] == h3.drop_last()[n as int]);
    assert(h3[h1.len() as int] == h3.last());
    assert(Seq::<char>::empty() + t0 =~= t0);
}

/// Displaying a string gives its whole text.
pub proof fn law_display_string(fuel: nat, h: Seq<Obj>, h2: Seq<Obj>, o: usize, t: Seq<char>)
    requires
        o < h.len() < usize::MAX - 1,
        h[o as int] is Str,
        displayed(fuel, h, h2, o, t),
    ensures
        t == h[o as int]->Str_0.val@,
{
    let (h1, a) = choose|h1: Seq<Obj>, a: usize|
        #[trigger] crate::evaluation::witness((h1, a)) && crate::runtime::replies_text(
            h,
            h1,
            Ok(h.len() as usize),
            Seq::empty(),
        ) && sent(fuel, h1, h2, o, "basic_write_to"@, seq![h.len() as usize], Ok(a)) && (h2[h.len() as int] matches Obj::Str(
            x,
        ) && x.val@ == t);
    assert(h1[o as int] == h1.drop_last()[o as int]);
    assert(h1[h.len() as int] == h1.last());
    lemma_written_into_empty(fuel, h1, h2, h[o as int]->Str_0.val@, h.len() as usize, a);
}

/// Displaying an integer gives its decimal text.
pub proof fn law_display_int(fuel: nat, h: Seq<Obj>, h2: Seq<Obj>, o: usize, t: Seq<char>)
    requires
        o < h.len() < usize::MAX - 1,
        h[o as int] is Int,
        displayed(fuel, h, h2, o, t),
    ensures
        t == int_text(h[o as int]->Int_0.0 as int),
{
    let (h1, a) = choose|h1: Seq<Obj>, a: usize|
        #[trigger] crate::evaluation::witness((h1, a)) && crate::runtime::replies_text(
            h,
            h1,
            Ok(h.len() as usize),
            Seq::empty(),
        ) && sent(fuel, h1, h2, o, "basic_write_to"@, seq![h.len() as usize], Ok(a)) && (h2[h.len() as int] matches Obj::Str(
            x,
        ) && x.val@ == t);
    assert(h1[o as int] == h1.drop_last()[o as int]);
    assert(h1[h.len() as int] == h1.last());
    lemma_written_into_empty(fuel, h1, h2, int_text(h[o as int]->Int_0.0 as int), h.len() as usize, a);
}

/// The text an object writes of itself: an empty string is sent to it with
/// `basic_write_to`, and its text afterwards is the answer.
pub fn display_text(heap: &mut Heap, r: usize, fuel: u64) -> (res: Result<String, EvalError>)
    requires
        heap_ok(old(heap).view()),
        r < old(heap).view().len(),
    ensures
        heap_ok(final(heap).view()),
        grows(old(heap).view(), final(heap).view()),
        res matches Ok(t) ==> displayed(fuel as nat, old(heap).view(), final(heap).view(), r, t@),
        res is Err ==> crate::runtime::heap_full(old(heap).view()) || exists|h1: Seq<Obj>, e: EvalError|
            #[trigger] crate::evaluation::witness((h1, e)) && crate::runtime::replies_text(
                old(heap).view(),
                h1,
                Ok(old(heap).view().len() as usize),
                Seq::empty(),
            ) && sent(
                fuel as nat,
                h1,
                final(heap).view(),
                r,
                "basic_write_to"@,
                seq![old(heap).view().len() as usize],
                Err(e),
            ),
{
    let ghost h = heap.view();
    proof {
        lemma_grows_refl(h);
    }
    let n0 = heap.len();
    let s = alloc_text(heap, String::new())?;
    let ghost h1 = heap.view();
    let mut a: Vec<usize> = Vec::new();
    a.push(s);
    proof {
        assert(s == n0);
        assert(a@ =~= seq![h.len() as usize]);
    }
    let x = match send_message(heap, r, "basic_write_to", &a, fuel) {
        Ok(x) => x,
        Err(e) => {
            proof {
                assert(crate::evaluation::witness((h1, e)));
            }
            return Err(e);
        },
    };
    proof {
        lemma_grows_trans(h, h1, heap.view());
        assert(h1[s as int] == h1.last());
        assert(crate::runtime::stable(h1[s as int], heap.view()[s as int]));
        assert(crate::evaluation::witness((h1, x)));
    }
    crate::runtime::text_of(heap, s)
}

/// Parses a script and evaluates its statements in a context in which `self` is nil.
/// Answers the heap and the object the last statement answered.
#[verifier::loop_isolation(false)]
pub fn evaluate_script(input_string: String) -> (r: Result<(Heap, usize), EvalError>)
    ensures
        r matches Ok((heap, o)) ==> heap_ok(heap.view()) && o < heap.view().len(),
        r matches Ok((heap, o)) ==> exists|ts: Seq<crate::parser::Token>, trees: Seq<AST>, c0: Context, c2: Context, vals: Seq<usize>|
            #[trigger] crate::evaluation::witness((ts, trees, c0, c2, vals)) && crate::parser::lexed(input_string@, ts)
                && trees.len() == 1 && crate::grammar::script(ts, trees[0]) && c0.myself == 0
                && c0.receiver_names@.len() == 0 && evaluates_all(
                EVAL_FUEL as nat,
                c0,
                seq![Obj::Nil(NilReciever)],
                trees,
                1,
                c2,
                heap.view(),
                vals,
            ) && o == vals.last(),
        crate::parser::lexemes_from(input_string@, 0) matches Err(p) ==> (r matches Err(
            EvalError::Syntax(crate::parser::SyntaxError::Lex(e)),
        ) && e.position == p),
        r matches Err(e) ==> e is Syntax || exists|
            ts: Seq<crate::parser::Token>,
            trees: Seq<AST>,
            c0: Context,
            c2: Context,
            h2: Seq<Obj>,
            k: nat,
        |
            #[trigger] crate::evaluation::witness((ts, trees, c0, c2, h2, k)) && crate::parser::lexed(input_string@, ts)
                && trees.len() == 1 && crate::grammar::script(ts, trees[0]) && c0.myself == 0
                && c0.receiver_names@.len() == 0 && crate::evaluation::fails_at(
                EVAL_FUEL as nat,
                c0,
                seq![Obj::Nil(NilReciever)],
                trees,
                k,
                c2,
                h2,
                e,
            ),
{
    let ghost input = input_string@;
    let trees = match crate::parser::parse_script(input_string) {
        Ok(t) => t,
        Err(e) => {
            return Err(EvalError::Syntax(e));
        },
    };
    let ghost ts = choose|ts: Seq<crate::parser::Token>|
        #[trigger] crate::evaluation::witness(ts) && crate::parser::lexed(input, ts) && crate::grammar::script(ts, trees@[0]);
    let mut heap = Heap::new();
    let nil = alloc_ok(&mut heap, Obj::Nil(NilReciever::get()))?;
    let mut ctx = Context::new(nil);
    let ghost c0 = ctx;
    let ghost h0 = heap.view();
    let ghost mut vals: Seq<usize> = Seq::empty();
    proof {
        assert(h0 =~= seq![Obj::Nil(NilReciever)]);
    }
    let mut o = nil;
    let mut i: usize = 0;
    while i < trees.len()
        invariant
            heap_ok(heap.view()),
            ctx_ok(ctx, heap.view().len()),
            o < heap.view().len(),
            i <= trees@.len(),
            evaluates_all(EVAL_FUEL as nat, c0, h0, trees@, i as nat, ctx, heap.view(), vals),
            i > 0 ==> o == vals.last(),
        decreases trees.len() - i,
    {
        let ghost c1 = ctx;
        let ghost h1 = heap.view();
        o = match ctx.eval_to_reciever(&mut heap, &trees[i], EVAL_FUEL) {
            Ok(x) => x,
            Err(e) => {
                proof {
                    assert(crate::evaluation::witness((c1, h1, vals)));
                    assert(crate::evaluation::fails_at(EVAL_FUEL as nat, c0, h0, trees@, i as nat, ctx, heap.view(), e));
                    assert(crate::evaluation::witness((ts, trees@, c0, ctx, heap.view(), i as nat)));
                }
                return Err(e);
            },
        };
        proof {
            crate::evaluation::lemma_all_push(EVAL_FUEL as nat, c0, h0, trees@, i as nat, c1, h1, vals, ctx, heap.view(), o);
            vals = vals.push(o);
        }
        i = i + 1;
    }
    proof {
        assert(crate::evaluation::witness((ts, trees@, c0, ctx, vals)));
    }
    Ok((heap, o))
}


/// The state of a running method: the address of the next operation and the values the
/// operations computed, by address.
pub struct FrameData {
    pub instruction_pointer: CodeAddress,
    pub values: Vec<(CodeAddress, usize)>,
}

/// The frame of a running method; its blocks share it.
pub struct MethodContext(pub FrameData);

/// The value stored under an address: that of its first entry.
pub open spec fn value_at(values: Seq<(CodeAddress, usize)>, a: CodeAddress) -> Option<usize>
    decreases values.len(),
{
    if values.len() == 0 {
        None
    } else if values[0].0 == a {
        Some(values[0].1)
    } else {
        value_at(values.drop_first(), a)
    }
}

proof fn lemma_value_skip(values: Seq<(CodeAddress, usize)>, a: CodeAddress, i: int)
    requires
        0 <= i <= values.len(),
        forall|j: int| 0 <= j < i ==> (#[trigger] values[j]).0 != a,
    ensures
        value_at(values, a) == value_at(values.subrange(i, values.len() as int), a),
    decreases i,
{
    if i > 0 {
        assert forall|j: int| 0 <= j < i - 1 implies (#[trigger] values.drop_first()[j]).0 != a by {
            assert(values.drop_first()[j] == values[j + 1]);
        }
        lemma_value_skip(values.drop_first(), a, i - 1);
        assert(values.drop_first().subrange(i - 1, values.drop_first().len() as int)
            =~= values.subrange(i, values.len() as int));
    } else {
        assert(values.subrange(0, values.len() as int) =~= values);
    }
}

proof fn lemma_value_change(values: Seq<(CodeAddress, usize)>, i: int, v: usize, k: CodeAddress)
    requires
        0 <= i < values.len(),
        k != values[i].0,
    ensures
        value_at(values.update(i, (values[i].0, v)), k) == value_at(values, k),
    decreases values.len(),
{
    let u = values.update(i, (values[i].0, v));
    if i > 0 {
        assert(u.drop_first() =~= values.drop_first().update(i - 1, (values[i].0, v)));
        assert(u[0] == values[0]);
        lemma_value_change(values.drop_first(), i - 1, v, k);
    } else {
        assert(u.drop_first() =~= values.drop_first());
    }
}

proof fn lemma_value_push(values: Seq<(CodeAddress, usize)>, e: (CodeAddress, usize), k: CodeAddress)
    requires
        k != e.0,
    ensures
        value_at(values.push(e), k) == value_at(values, k),
    decreases values.len(),
{
    if values.len() > 0 {
        assert(values.push(e).drop_first() =~= values.drop_first().push(e));
        assert(values.push(e)[0] == values[0]);
        lemma_value_push(values.drop_first(), e, k);
    } else {
        assert(values.push(e).drop_first() =~= values);
    }
}

impl FrameData {
    /// A frame at the start of block 0 with no values.
    pub fn new() -> (f: Self)
        ensures
            f.instruction_pointer == CodeAddress(0, 0),
            f.values@.len() == 0,
    {
        FrameData { instruction_pointer: CodeAddress(0, 0), values: Vec::new() }
    }
}

impl MethodContext {
    /// A frame at the start of block 0 with no values.
    pub fn new() -> (c: Self)
        ensures
            c.0.instruction_pointer == CodeAddress(0, 0),
            c.0.values@.len() == 0,
    {
        MethodContext(FrameData::new())
    }
}

/// The operations of a context on its frame: the instruction pointer and the stored values.
pub trait ContextTrait {
    /// The frame the context works on.
    spec fn frame(&self) -> FrameData;

    /// The address of the next operation.
    fn ip(&self) -> (r: CodeAddress)
        ensures
            r == self.frame().instruction_pointer,
    ;

    /// Moves to the next operation of the block.
    fn next_ip(&mut self)
        requires
            old(self).frame().instruction_pointer.1 < usize::MAX,
        ensures
            final(self).frame().instruction_pointer == CodeAddress(
                old(self).frame().instruction_pointer.0,
                (old(self).frame().instruction_pointer.1 + 1) as usize,
            ),
            final(self).frame().values == old(self).frame().values,
    ;

    /// Jumps to an address.
    fn call(&mut self, addr: CodeAddress)
        ensures
            final(self).frame().instruction_pointer == addr,
            final(self).frame().values == old(self).frame().values,
    ;

    /// The value stored under `addr`, if any.
    fn get_value(&self, addr: &CodeAddress) -> (r: Option<usize>)
        ensures
            r == value_at(self.frame().values@, *addr),
    ;

    /// The values stored under `addrs`, where each has one.
    fn get_values(&self, addrs: &Vec<CodeAddress>) -> (r: Option<Vec<usize>>)
        ensures
            match r {
                Some(v) => v@.len() == addrs@.len() && forall|i: int|
                    0 <= i < addrs@.len() ==> value_at(self.frame().values@, addrs@[i]) == Some(
                        #[trigger] v@[i],
                    ),
                None => exists|i: int|
                    0 <= i < addrs@.len() && value_at(self.frame().values@, #[trigger] addrs@[i])
                        is None,
            },
    ;

    /// Stores `value` under `addr`, replacing what was stored there.
    fn set_value(&mut self, addr: &CodeAddress, value: usize)
        ensures
            value_at(final(self).frame().values@, *addr) == Some(value),
            forall|k: CodeAddress|
                k != *addr ==> value_at(final(self).frame().values@, k) == value_at(
                    old(self).frame().values@,
                    k,
                ),
            final(self).frame().instruction_pointer == old(self).frame().instruction_pointer,
    ;
}

impl ContextTrait for MethodContext {
    open spec fn frame(&self) -> FrameData {
        self.0
    }

    /// The address of the next operation.
    fn ip(&self) -> (r: CodeAddress) {
        self.0.instruction_pointer
    }

    /// Moves to the next operation of the block.
    fn next_ip(&mut self) {
        self.0.instruction_pointer = CodeAddress(self.0.instruction_pointer.0, self.0.instruction_pointer.1 + 1);
    }

    /// Jumps to an address.
    fn call(&mut self, addr: CodeAddress) {
        self.0.instruction_pointer = addr;
    }

    /// The value stored under `addr`, if any.
    fn get_value(&self, addr: &CodeAddress) -> (r: Option<usize>) {
        let mut i: usize = 0;
        while i < self.0.values.len()
            invariant
                i <= self.0.values@.len(),
                forall|j: int| 0 <= j < i ==> (#[trigger] self.0.values@[j]).0 != *addr,
            decreases self.0.values.len() - i,
        {
            if self.0.values[i].0 == *addr {
                proof {
                    lemma_value_skip(self.0.values@, *addr, i as int);
                }
                return Some(self.0.values[i].1);
            }
            i = i + 1;
        }
        proof {
            lemma_value_skip(self.0.values@, *addr, i as int);
        }
        None
    }

    /// The values stored under `addrs`, where each has one.
    fn get_values(&self, addrs: &Vec<CodeAddress>) -> (r: Option<Vec<usize>>) {
        let mut v: Vec<usize> = Vec::new();
        let mut i: usize = 0;
        while i < addrs.len()
            invariant
                i <= addrs@.len(),
                v@.len() == i,
                forall|j: int| 0 <= j < i ==> value_at(self.0.values@, addrs@[j]) == Some(#[trigger] v@[j]),
            decreases addrs.len() - i,
        {
            match self.get_value(&addrs[i]) {
                Some(x) => v.push(x),
                None => {
                    return None;
                },
            }
            i = i + 1;
        }
        Some(v)
    }

    /// Stores `value` under `addr`, replacing what was stored there.
    fn set_value(&mut self, addr: &CodeAddress, value: usize) {
        let ghost old_values = self.0.values@;
        let mut i: usize = 0;
        while i < self.0.values.len()
            invariant
                self.0.values@ == old_values,
                old_values == old(self).0.values@,
                self.0.instruction_pointer == old(self).0.instruction_pointer,
                i <= old_values.len(),
                forall|j: int| 0 <= j < i ==> (#[trigger] old_values[j]).0 != *addr,
            decreases self.0.values.len() - i,
        {
            if self.0.values[i].0 == *addr {
                self.0.values.set(i, (*addr, value));
                proof {
                    let n = self.0.values@;
                    assert(n == old_values.update(i as int, (old_values[i as int].0, value)));
                    lemma_value_skip(n, *addr, i as int);
                    assert forall|k: CodeAddress| k != *addr implies value_at(n, k) == value_at(
                        old_values,
                        k,
                    ) by {
                        lemma_value_change(old_values, i as int, value, k);
                    }
                }
                return;
            }
            i = i + 1;
        }
        self.0.values.push((*addr, value));
        proof {
            let n = self.0.values@;
            assert forall|j: int| 0 <= j < old_values.len() implies (#[trigger] n[j]).0 != *addr by {
                assert(n[j] == old_values[j]);
            }
            lemma_value_skip(n, *addr, old_values.len() as int);
            assert forall|k: CodeAddress| k != *addr implies value_at(n, k) == value_at(old_values, k) by {
                lemma_value_push(old_values, (*addr, value), k);
            }
        }
    }
}

/// The context of a running block: it works on the frame of the method context it runs in.
pub struct BlockContext {
    parent: MethodContext,
}

impl BlockContext {
    /// A block context running in `ctx`.
    pub fn new(ctx: MethodContext) -> (b: Self)
        ensures
            b.frame() == ctx.0,
    {
        BlockContext { parent: ctx }
    }

    /// The method's frame back, with all that the block did to it: the block works on the
    /// method's own frame, which it holds while it runs.
    pub fn into_method(self) -> (c: MethodContext)
        ensures
            c.0 == self.frame(),
    {
        self.parent
    }
}

impl ContextTrait for BlockContext {
    closed spec fn frame(&self) -> FrameData {
        self.parent.0
    }

    fn ip(&self) -> (r: CodeAddress) {
        self.parent.ip()
    }

    fn next_ip(&mut self) {
        self.parent.next_ip()
    }

    fn call(&mut self, addr: CodeAddress) {
        self.parent.call(addr)
    }

    fn get_value(&self, addr: &CodeAddress) -> (r: Option<usize>) {
        self.parent.get_value(addr)
    }

    fn get_values(&self, addrs: &Vec<CodeAddress>) -> (r: Option<Vec<usize>>) {
        self.parent.get_values(addrs)
    }

    fn set_value(&mut self, addr: &CodeAddress, value: usize) {
        self.parent.set_value(addr, value)
    }
}

/// An input line is complete when it ends with a full stop.
pub fn input_complete(input: &str) -> (r: bool)
    ensures
        r == (input@.len() > 0 && input@.last() == '.'),
{
    let chars = crate::text::chars_of(input);
    let n = chars.len();
    n > 0 && chars[n - 1] == '.'
}

} // verus!
