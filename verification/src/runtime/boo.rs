use vstd::prelude::*;

use crate::runtime::nil::write_text_to;
use crate::runtime::{
    alloc_ok, heap_ok, lemma_grows_refl, refs_ok, replies_new, step_ok, EvalError, Heap, Obj,
};
use crate::text::str_eq;

verus! {

/// The object true.
#[derive(PartialEq, Eq, Structural)]
pub struct TrueReceiver;

/// The object false.
#[derive(PartialEq, Eq, Structural)]
pub struct FalseReceiver;

impl TrueReceiver {
    pub fn get() -> (r: TrueReceiver)
        ensures
            r == TrueReceiver,
    {
        TrueReceiver
    }
}

impl FalseReceiver {
    pub fn get() -> (r: FalseReceiver)
        ensures
            r == FalseReceiver,
    {
        FalseReceiver
    }
}

/// `value` went to argument `i`, which answered `r`; or there is no such argument.
pub open spec fn value_sent(
    fuel: nat,
    h: Seq<Obj>,
    h2: Seq<Obj>,
    args: Seq<usize>,
    i: int,
    r: Result<usize, EvalError>,
) -> bool
    decreases fuel, 0nat, 0nat,
{
    if i >= args.len() {
        r == Err::<usize, EvalError>(EvalError::MissingArgument) && h2 == h
    } else if fuel == 0 {
        true
    } else {
        crate::evaluation::sent((fuel - 1) as nat, h, h2, args[i], "value"@, Seq::empty(), r)
    }
}

/// Sends `value` to the argument `i`.
fn value_of_arg(heap: &mut Heap, args: &Vec<usize>, i: usize, fuel: u64) -> (r: Result<usize, EvalError>)
    requires
        heap_ok(old(heap).view()),
        refs_ok(args@, old(heap).view().len()),
        fuel > 0,
    ensures
        step_ok(old(heap).view(), final(heap).view(), r),
        i >= args@.len() ==> (r is Err && r->Err_0 is MissingArgument),
        value_sent(fuel as nat, old(heap).view(), final(heap).view(), args@, i as int, r),
    decreases fuel, 0nat,
{
    proof {
        lemma_grows_refl(heap.view());
        reveal_strlit("value");
    }
    if i >= args.len() {
        return Err(EvalError::MissingArgument);
    }
    let none: Vec<usize> = Vec::new();
    proof {
        assert(none@ =~= Seq::<usize>::empty());
    }
    crate::send_message(heap, args[i], "value", &none, fuel - 1)
}

/// What the boolean `b` answers.
pub open spec fn bool_reply(fuel: nat, h: Seq<Obj>, h2: Seq<Obj>, b: bool, selector: Seq<char>, args: Seq<usize>, r: Result<usize, EvalError>) -> bool
    decreases fuel, 1nat, 0nat,
{
    &&& b && selector == "ifTrue:"@ ==> value_sent(fuel, h, h2, args, 0, r)
    &&& !b && selector == "ifFalse:"@ ==> value_sent(fuel, h, h2, args, 0, r)
    &&& selector == "ifTrue:ifFalse:"@ ==> value_sent(fuel, h, h2, args, if b { 0 } else { 1 }, r)
    &&& selector == "basic_write_to"@ ==> crate::runtime::nil::wrote_text(
        fuel,
        h,
        h2,
        if b { "True"@ } else { "False"@ },
        args,
        r,
    )
    &&& b && selector == "ifFalse:"@ ==> replies_new(
        h,
        h2,
        r,
        Obj::True(TrueReceiver),
    )
    &&& !b && selector == "ifTrue:"@ ==> replies_new(
        h,
        h2,
        r,
        Obj::False(FalseReceiver),
    )
    &&& !(selector == "ifTrue:"@ || selector == "ifFalse:"@ || selector == "ifTrue:ifFalse:"@
            || selector == "basic_write_to"@) ==> (r is Err && r->Err_0 is NotUnderstood)
}

/// A boolean: `ifTrue:`, `ifFalse:` and `ifTrue:ifFalse:` send `value` to the argument for
/// the boolean's own case and otherwise answer the boolean; `basic_write_to` sends `write`
/// with "True" or "False".
pub fn receive_bool(heap: &mut Heap, b: bool, selector: &str, args: &Vec<usize>, fuel: u64) -> (r: Result<
    usize,
    EvalError,
>)
    requires
        heap_ok(old(heap).view()),
        refs_ok(args@, old(heap).view().len()),
        fuel > 0,
    ensures
        step_ok(old(heap).view(), final(heap).view(), r),
        bool_reply(fuel as nat, old(heap).view(), final(heap).view(), b, selector@, args@, r),
    decreases fuel, 1nat,
{
    proof {
        reveal_strlit("False");
        assert("False"@ =~= seq!['F', 'a', 'l', 's', 'e']);
        assert("False"@.len() == 5 && "False"@[0] == 'F' && "False"@[1] == 'a' && "False"@[2] == 'l' && "False"@[3] == 's' && "False"@[4] == 'e');
        reveal_strlit("True");
        assert("True"@ =~= seq!['T', 'r', 'u', 'e']);
        assert("True"@.len() == 4 && "True"@[0] == 'T' && "True"@[1] == 'r' && "True"@[2] == 'u' && "True"@[3] == 'e');
        reveal_strlit("basic_write_to");
        assert("basic_write_to"@ =~= seq!['b', 'a', 's', 'i', 'c', '_', 'w', 'r', 'i', 't', 'e', '_', 't', 'o']);
        assert("basic_write_to"@.len() == 14 && "basic_write_to"@[0] == 'b' && "basic_write_to"@[1] == 'a' && "basic_write_to"@[2] == 's' && "basic_write_to"@[3] == 'i' && "basic_write_to"@[4] == 'c' && "basic_write_to"@[5] == '_' && "basic_write_to"@[6] == 'w' && "basic_write_to"@[7] == 'r' && "basic_write_to"@[8] == 'i' && "basic_write_to"@[9] == 't' && "basic_write_to"@[10] == 'e' && "basic_write_to"@[11] == '_' && "basic_write_to"@[12] == 't' && "basic_write_to"@[13] == 'o');
        reveal_strlit("ifFalse:");
        assert("ifFalse:"@ =~= seq!['i', 'f', 'F', 'a', 'l', 's', 'e', ':']);
        assert("ifFalse:"@.len() == 8 && "ifFalse:"@[0] == 'i' && "ifFalse:"@[1] == 'f' && "ifFalse:"@[2] == 'F' && "ifFalse:"@[3] == 'a' && "ifFalse:"@[4] == 'l' && "ifFalse:"@[5] == 's' && "ifFalse:"@[6] == 'e' && "ifFalse:"@[7] == ':');
        reveal_strlit("ifTrue:");
        assert("ifTrue:"@ =~= seq!['i', 'f', 'T', 'r', 'u', 'e', ':']);
        assert("ifTrue:"@.len() == 7 && "ifTrue:"@[0] == 'i' && "ifTrue:"@[1] == 'f' && "ifTrue:"@[2] == 'T' && "ifTrue:"@[3] == 'r' && "ifTrue:"@[4] == 'u' && "ifTrue:"@[5] == 'e' && "ifTrue:"@[6] == ':');
        reveal_strlit("ifTrue:ifFalse:");
        assert("ifTrue:ifFalse:"@ =~= seq!['i', 'f', 'T', 'r', 'u', 'e', ':', 'i', 'f', 'F', 'a', 'l', 's', 'e', ':']);
        assert("ifTrue:ifFalse:"@.len() == 15 && "ifTrue:ifFalse:"@[0] == 'i' && "ifTrue:ifFalse:"@[1] == 'f' && "ifTrue:ifFalse:"@[2] == 'T' && "ifTrue:ifFalse:"@[3] == 'r' && "ifTrue:ifFalse:"@[4] == 'u' && "ifTrue:ifFalse:"@[5] == 'e' && "ifTrue:ifFalse:"@[6] == ':' && "ifTrue:ifFalse:"@[7] == 'i' && "ifTrue:ifFalse:"@[8] == 'f' && "ifTrue:ifFalse:"@[9] == 'F' && "ifTrue:ifFalse:"@[10] == 'a' && "ifTrue:ifFalse:"@[11] == 'l' && "ifTrue:ifFalse:"@[12] == 's' && "ifTrue:ifFalse:"@[13] == 'e' && "ifTrue:ifFalse:"@[14] == ':');
    }
    proof {
        lemma_grows_refl(heap.view());
    }
    if str_eq(selector, "ifTrue:") {
        if b {
            value_of_arg(heap, args, 0, fuel)
        } else {
            alloc_ok(heap, Obj::False(FalseReceiver::get()))
        }
    } else if str_eq(selector, "ifFalse:") {
        if b {
            alloc_ok(heap, Obj::True(TrueReceiver::get()))
        } else {
            value_of_arg(heap, args, 0, fuel)
        }
    } else if str_eq(selector, "ifTrue:ifFalse:") {
        value_of_arg(heap, args, if b { 0 } else { 1 }, fuel)
    } else if str_eq(selector, "basic_write_to") {
        let t = if b {
            String::from_str("True")
        } else {
            String::from_str("False")
        };
        write_text_to(heap, t, args, fuel)
    } else {
        Err(EvalError::NotUnderstood(selector.to_owned()))
    }
}

} // verus!
