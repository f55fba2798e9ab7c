use vstd::prelude::*;

use crate::parser::{copy_names, same_ast, AST};
use crate::runtime::nil::NilReciever;
use crate::runtime::{
    alloc_ok, alloc_text, heap_ok, int_of, lemma_grows_refl, lemma_grows_trans, lemma_update_ok,
    refs_ok, step_ok, EvalError, Heap, Obj,
};
use crate::text::{push_char, str_eq};
use crate::{ctx_ok, Context};

verus! {

/// A block: its parameters, its temporaries, its body and the variables it sees.
pub struct BlockReceiver {
    pub params: Vec<String>,
    pub temps: Vec<String>,
    pub body: Box<AST>,
    pub ctx: Context,
}

impl BlockReceiver {
    /// A block without variables, in which `self` names `myself`.
    pub fn new(myself: usize, params: &Vec<String>, temps: &Vec<String>, body: Box<AST>) -> (r: Self)
        ensures
            r.params@ == params@,
            r.temps@ == temps@,
            r.body == body,
            r.ctx.myself == myself,
            r.ctx.receiver_names@.len() == 0,
    {
        BlockReceiver {
            params: copy_names(params),
            temps: copy_names(temps),
            body,
            ctx: Context::new(myself),
        }
    }

    /// Binds a variable the block sees.
    pub fn define(&mut self, name: &str, rec: usize)
        ensures
            crate::lookup(final(self).ctx.receiver_names@, name@) == Some(rec),
            final(self).params == old(self).params,
            final(self).temps == old(self).temps,
            final(self).body == old(self).body,
            final(self).ctx.myself == old(self).ctx.myself,
            forall|n: nat|
                ctx_ok(old(self).ctx, n) && rec < n ==> #[trigger] ctx_ok(final(self).ctx, n),
    {
        self.ctx.set_receiver(name, rec);
    }
}

/// Evaluates the body of the block named `me` after binding its first parameters to `args`,
/// and keeps the variables the evaluation leaves for the next evaluation.
fn run_block(heap: &mut Heap, me: usize, args: &Vec<usize>, fuel: u64) -> (r: Result<usize, EvalError>)
    requires
        heap_ok(old(heap).view()),
        refs_ok(args@, old(heap).view().len()),
        me < old(heap).view().len(),
        old(heap).view()[me as int] is Block,
        args@.len() <= old(heap).view()[me as int]->Block_0.params@.len(),
        fuel > 0,
    ensures
        step_ok(old(heap).view(), final(heap).view(), r),
    decreases fuel, 0nat,
{
    let ghost h = heap.view();
    proof {
        lemma_grows_refl(h);
    }
    let (params, temps, body, mut ctx) = match heap.get(me) {
        Obj::Block(b) => (copy_names(&b.params), copy_names(&b.temps), b.body.copy(), b.ctx.duplicate()),
        _ => (Vec::new(), Vec::new(), AST::Empty, Context::new(0)),
    };
    proof {
        let b = h[me as int]->Block_0;
        assert(heap_ok(h));
        assert(crate::runtime::obj_refs_ok(h[me as int], h.len()));
        assert forall|i: int| 0 <= i < ctx.receiver_names@.len() implies #[trigger] ctx.receiver_names@[i].1 < h.len() by {
            assert(b.ctx.receiver_names@[i].1 < h.len());
        }
    }
    let mut i: usize = 0;
    while i < args.len()
        invariant
            i <= args@.len() <= params@.len(),
            ctx_ok(ctx, h.len()),
            refs_ok(args@, h.len()),
            ctx.myself == h[me as int]->Block_0.ctx.myself,
            heap.view() == h,
        decreases params.len() - i,
    {
        ctx.set_receiver(params[i].as_str(), args[i]);
        i = i + 1;
    }
    let r = ctx.eval_to_reciever(heap, &body, fuel - 1);
    let ghost h1 = heap.view();
    let o = Obj::Block(BlockReceiver { params, temps, body: Box::new(body), ctx });
    proof {
        assert(crate::runtime::stable(h[me as int], h1[me as int]));
        let b0 = h[me as int]->Block_0;
        let b1 = h1[me as int]->Block_0;
        crate::parser::lemma_same_ast_sym(*b0.body, *b1.body);
        crate::parser::lemma_same_ast_sym(body, *b0.body);
        crate::parser::lemma_same_ast_trans(*b1.body, *b0.body, body);
        assert(crate::runtime::stable(h1[me as int], o));
        lemma_update_ok(h1, me as int, o);
    }
    heap.set(me, o);
    proof {
        lemma_grows_trans(h, h1, heap.view());
    }
    r
}

/// What the block object `me` answers.
pub open spec fn block_reply(h: Seq<Obj>, h2: Seq<Obj>, me: usize, selector: Seq<char>, args: Seq<usize>, r: Result<usize, EvalError>) -> bool {
    &&& !(selector == "value"@ || selector == "value:"@ || selector == "value:value:"@
            || selector == "whileFalse:"@ || selector == "basic_write_to"@) ==> (r is Err && r->Err_0 is NotUnderstood)
}

/// `value`, `value:` and `value:value:` evaluate the body with the arguments as parameters;
/// `whileFalse:` evaluates the body until it answers a positive integer, sending `value` to
/// the argument after each other answer, and answers nil; `basic_write_to` sends `write`
/// with the parameter names to the argument.
#[verifier::loop_isolation(false)]
pub fn receive_block(heap: &mut Heap, me: usize, selector: &str, args: &Vec<usize>, fuel: u64) -> (r:
    Result<usize, EvalError>)
    requires
        heap_ok(old(heap).view()),
        refs_ok(args@, old(heap).view().len()),
        me < old(heap).view().len(),
        old(heap).view()[me as int] is Block,
        fuel > 0,
    ensures
        step_ok(old(heap).view(), final(heap).view(), r),
        block_reply(old(heap).view(), final(heap).view(), me, selector@, args@, r),
    decreases fuel, 1nat,
{
    proof {
        reveal_strlit("basic_write_to");
        assert("basic_write_to"@ =~= seq!['b', 'a', 's', 'i', 'c', '_', 'w', 'r', 'i', 't', 'e', '_', 't', 'o']);
        assert("basic_write_to"@.len() == 14 && "basic_write_to"@[0] == 'b' && "basic_write_to"@[1] == 'a' && "basic_write_to"@[2] == 's' && "basic_write_to"@[3] == 'i' && "basic_write_to"@[4] == 'c' && "basic_write_to"@[5] == '_' && "basic_write_to"@[6] == 'w' && "basic_write_to"@[7] == 'r' && "basic_write_to"@[8] == 'i' && "basic_write_to"@[9] == 't' && "basic_write_to"@[10] == 'e' && "basic_write_to"@[11] == '_' && "basic_write_to"@[12] == 't' && "basic_write_to"@[13] == 'o');
        reveal_strlit("value");
        assert("value"@ =~= seq!['v', 'a', 'l', 'u', 'e']);
        assert("value"@.len() == 5 && "value"@[0] == 'v' && "value"@[1] == 'a' && "value"@[2] == 'l' && "value"@[3] == 'u' && "value"@[4] == 'e');
        reveal_strlit("value:");
        assert("value:"@ =~= seq!['v', 'a', 'l', 'u', 'e', ':']);
        assert("value:"@.len() == 6 && "value:"@[0] == 'v' && "value:"@[1] == 'a' && "value:"@[2] == 'l' && "value:"@[3] == 'u' && "value:"@[4] == 'e' && "value:"@[5] == ':');
        reveal_strlit("value:value:");
        assert("value:value:"@ =~= seq!['v', 'a', 'l', 'u', 'e', ':', 'v', 'a', 'l', 'u', 'e', ':']);
        assert("value:value:"@.len() == 12 && "value:value:"@[0] == 'v' && "value:value:"@[1] == 'a' && "value:value:"@[2] == 'l' && "value:value:"@[3] == 'u' && "value:value:"@[4] == 'e' && "value:value:"@[5] == ':' && "value:value:"@[6] == 'v' && "value:value:"@[7] == 'a' && "value:value:"@[8] == 'l' && "value:value:"@[9] == 'u' && "value:value:"@[10] == 'e' && "value:value:"@[11] == ':');
        reveal_strlit("whileFalse:");
        assert("whileFalse:"@ =~= seq!['w', 'h', 'i', 'l', 'e', 'F', 'a', 'l', 's', 'e', ':']);
        assert("whileFalse:"@.len() == 11 && "whileFalse:"@[0] == 'w' && "whileFalse:"@[1] == 'h' && "whileFalse:"@[2] == 'i' && "whileFalse:"@[3] == 'l' && "whileFalse:"@[4] == 'e' && "whileFalse:"@[5] == 'F' && "whileFalse:"@[6] == 'a' && "whileFalse:"@[7] == 'l' && "whileFalse:"@[8] == 's' && "whileFalse:"@[9] == 'e' && "whileFalse:"@[10] == ':');
        reveal_strlit("write");
        assert("write"@ =~= seq!['w', 'r', 'i', 't', 'e']);
        assert("write"@.len() == 5 && "write"@[0] == 'w' && "write"@[1] == 'r' && "write"@[2] == 'i' && "write"@[3] == 't' && "write"@[4] == 'e');
    }
    let ghost h = heap.view();
    proof {
        lemma_grows_refl(h);
    }
    if str_eq(selector, "value") || str_eq(selector, "value:") || str_eq(selector, "value:value:") {
        let n: usize = if str_eq(selector, "value") {
            0
        } else if str_eq(selector, "value:") {
            1
        } else {
            2
        };
        let nparams = match heap.get(me) {
            Obj::Block(b) => b.params.len(),
            _ => 0,
        };
        if nparams != n {
            return Err(EvalError::WrongArity);
        }
        if args.len() < n {
            return Err(EvalError::MissingArgument);
        }
        let mut a: Vec<usize> = Vec::new();
        let mut i: usize = 0;
        while i < n
            invariant
                i <= n <= args@.len(),
                a@ == args@.take(i as int),
            decreases n - i,
        {
            a.push(args[i]);
            assert(a@ =~= args@.take(i + 1));
            i = i + 1;
        }
        run_block(heap, me, &a, fuel)
    } else if str_eq(selector, "whileFalse:") {
        if args.len() == 0 {
            return Err(EvalError::MissingArgument);
        }
        let none: Vec<usize> = Vec::new();
        let mut budget: u64 = fuel;
        loop
            invariant
                h == old(heap).view(),
                heap_ok(heap.view()),
                crate::runtime::grows(h, heap.view()),
                me < heap.view().len(),
                heap.view()[me as int] is Block,
                refs_ok(args@, heap.view().len()),
                args@.len() >= 1,
                none@.len() == 0,
                budget <= fuel,
            decreases budget,
        {
            if budget == 0 {
                return Err(EvalError::OutOfFuel);
            }
            let ghost h1 = heap.view();
            let res = run_block(heap, me, &none, budget);
            let ghost h2 = heap.view();
            proof {
                lemma_grows_trans(h, h1, h2);
            }
            let c = match res {
                Ok(c) => c,
                Err(e) => {
                    return Err(e);
                },
            };
            let v = int_of(heap, c)?;
            if v > 0 {
                break;
            }
            let res2 = crate::send_message(heap, args[0], "value", &none, budget - 1);
            proof {
                lemma_grows_trans(h, h2, heap.view());
            }
            if let Err(e) = res2 {
                return Err(e);
            }
            budget = budget - 1;
        }
        let ghost h1 = heap.view();
        let r = alloc_ok(heap, Obj::Nil(NilReciever::get()));
        proof {
            lemma_grows_trans(h, h1, heap.view());
        }
        r
    } else if str_eq(selector, "basic_write_to") {
        if args.len() == 0 {
            return Err(EvalError::MissingArgument);
        }
        let mut t = String::new();
        push_char(&mut t, '[');
        push_char(&mut t, '[');
        match heap.get(me) {
            Obj::Block(b) => {
                let mut i: usize = 0;
                while i < b.params.len()
                    invariant
                        i <= b.params@.len(),
                    decreases b.params.len() - i,
                {
                    if i > 0 {
                        push_char(&mut t, ',');
                        push_char(&mut t, ' ');
                    }
                    push_char(&mut t, '"');
                    t.append(b.params[i].as_str());
                    push_char(&mut t, '"');
                    i = i + 1;
                }
            },
            _ => {},
        }
        push_char(&mut t, ']');
        push_char(&mut t, ']');
        let s = alloc_text(heap, t)?;
        let ghost h1 = heap.view();
        let mut a: Vec<usize> = Vec::new();
        a.push(s);
        let r = crate::send_message(heap, args[0], "write", &a, fuel - 1);
        proof {
            lemma_grows_trans(h, h1, heap.view());
        }
        r
    } else {
        Err(EvalError::NotUnderstood(selector.to_owned()))
    }
}

} // verus!
