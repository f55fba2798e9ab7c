use vstd::prelude::*;

use crate::runtime::{
    alloc_text, heap_ok, lemma_grows_refl, lemma_grows_trans, refs_ok, step_ok, EvalError, Heap, Obj,
};
use crate::text::str_eq;

verus! {

/// The object nil.
#[derive(PartialEq, Eq, Structural)]
pub struct NilReciever;

impl NilReciever {
    pub fn get() -> (r: NilReciever)
        ensures
            r == NilReciever,
    {
        NilReciever
    }
}

/// `write` with a new string holding `t` went to the first argument, which answered `r`;
/// or there is no argument, or no room for the string.
pub open spec fn wrote_text(
    fuel: nat,
    h: Seq<Obj>,
    h2: Seq<Obj>,
    t: Seq<char>,
    args: Seq<usize>,
    r: Result<usize, EvalError>,
) -> bool
    decreases fuel, 0nat, 0nat,
{
    if args.len() == 0 {
        r == Err::<usize, EvalError>(EvalError::MissingArgument) && h2 == h
    } else if fuel == 0 {
        true
    } else {
        ||| r == Err::<usize, EvalError>(EvalError::HeapFull) && crate::runtime::heap_full(h) && h2 == h
        ||| exists|h1: Seq<Obj>|
            #[trigger] crate::evaluation::witness(h1) && crate::runtime::replies_text(
                h,
                h1,
                Ok(h.len() as usize),
                t,
            ) && crate::evaluation::sent(
                (fuel - 1) as nat,
                h1,
                h2,
                args[0],
                "write"@,
                seq![h.len() as usize],
                r,
            )
    }
}

/// Sends `write` with the text `t` to the first argument.
pub fn write_text_to(heap: &mut Heap, t: String, args: &Vec<usize>, fuel: u64) -> (r: Result<
    usize,
    EvalError,
>)
    requires
        heap_ok(old(heap).view()),
        refs_ok(args@, old(heap).view().len()),
        fuel > 0,
    ensures
        step_ok(old(heap).view(), final(heap).view(), r),
        args@.len() == 0 ==> (r is Err && r->Err_0 is MissingArgument),
        wrote_text(fuel as nat, old(heap).view(), final(heap).view(), t@, args@, r),
    decreases fuel, 0nat,
{
    let ghost h = heap.view();
    let ghost tv = t@;
    proof {
        lemma_grows_refl(h);
        reveal_strlit("write");
    }
    if args.len() == 0 {
        return Err(EvalError::MissingArgument);
    }
    let s = alloc_text(heap, t)?;
    let ghost h1 = heap.view();
    let mut a: Vec<usize> = Vec::new();
    a.push(s);
    let r = crate::send_message(heap, args[0], "write", &a, fuel - 1);
    proof {
        lemma_grows_trans(h, h1, heap.view());
        assert(a@ =~= seq![h.len() as usize]);
        assert(crate::evaluation::witness(h1));
    }
    r
}

/// What nil answers.
pub open spec fn nil_reply(fuel: nat, h: Seq<Obj>, h2: Seq<Obj>, selector: Seq<char>, args: Seq<usize>, r: Result<usize, EvalError>) -> bool
    decreases fuel, 1nat, 0nat,
{
    &&& selector != "basic_write_to"@ ==> (r is Err && r->Err_0 is NotUnderstood)
    &&& selector == "basic_write_to"@ ==> wrote_text(fuel, h, h2, "Nil"@, args, r)
}

/// `basic_write_to` sends `write` with "Nil" to the argument.
pub fn receive_nil(heap: &mut Heap, selector: &str, args: &Vec<usize>, fuel: u64) -> (r: Result<
    usize,
    EvalError,
>)
    requires
        heap_ok(old(heap).view()),
        refs_ok(args@, old(heap).view().len()),
        fuel > 0,
    ensures
        step_ok(old(heap).view(), final(heap).view(), r),
        nil_reply(fuel as nat, old(heap).view(), final(heap).view(), selector@, args@, r),
    decreases fuel, 1nat,
{
    proof {
        reveal_strlit("Nil");
        assert("Nil"@ =~= seq!['N', 'i', 'l']);
        assert("Nil"@.len() == 3 && "Nil"@[0] == 'N' && "Nil"@[1] == 'i' && "Nil"@[2] == 'l');
        reveal_strlit("basic_write_to");
        assert("basic_write_to"@ =~= seq!['b', 'a', 's', 'i', 'c', '_', 'w', 'r', 'i', 't', 'e', '_', 't', 'o']);
        assert("basic_write_to"@.len() == 14 && "basic_write_to"@[0] == 'b' && "basic_write_to"@[1] == 'a' && "basic_write_to"@[2] == 's' && "basic_write_to"@[3] == 'i' && "basic_write_to"@[4] == 'c' && "basic_write_to"@[5] == '_' && "basic_write_to"@[6] == 'w' && "basic_write_to"@[7] == 'r' && "basic_write_to"@[8] == 'i' && "basic_write_to"@[9] == 't' && "basic_write_to"@[10] == 'e' && "basic_write_to"@[11] == '_' && "basic_write_to"@[12] == 't' && "basic_write_to"@[13] == 'o');
    }
    proof {
        lemma_grows_refl(heap.view());
    }
    if str_eq(selector, "basic_write_to") {
        write_text_to(heap, String::from_str("Nil"), args, fuel)
    } else {
        Err(EvalError::NotUnderstood(selector.to_owned()))
    }
}

} // verus!
