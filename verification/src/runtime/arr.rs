use vstd::prelude::*;

use crate::runtime::integer::int_arg;
use crate::runtime::{
    heap_ok, lemma_grows_refl, obj_as_int, refs_ok, step_ok, EvalError, Heap, Obj,
};
use crate::text::str_eq;

verus! {

/// An array of objects.
pub struct ArrayReceiver(pub Vec<usize>);

/// What an array of the objects `elems` answers.
pub open spec fn array_reply(h: Seq<Obj>, h2: Seq<Obj>, elems: Seq<usize>, selector: Seq<char>, args: Seq<usize>, r: Result<usize, EvalError>) -> bool {
    &&& h2 == h
    &&& selector == "at:"@ && args.len() >= 1 ==> match obj_as_int(
        h[args[0] as int],
    ) {
        Some(i) => if 0 <= i < elems.len() {
            r == Ok::<usize, EvalError>(elems[i])
        } else {
            (r is Err && r->Err_0 is IndexOutOfRange)
        },
        None => (r is Err && r->Err_0 is NotAnInteger),
    }
    &&& selector != "at:"@ ==> (r is Err && r->Err_0 is NotUnderstood)
}

/// `at:` gives the element at the index the argument holds, counted from zero.
pub fn receive_array(heap: &mut Heap, elems: &Vec<usize>, selector: &str, args: &Vec<usize>) -> (r:
    Result<usize, EvalError>)
    requires
        heap_ok(old(heap).view()),
        refs_ok(args@, old(heap).view().len()),
        refs_ok(elems@, old(heap).view().len()),
    ensures
        step_ok(old(heap).view(), final(heap).view(), r),
        array_reply(old(heap).view(), final(heap).view(), elems@, selector@, args@, r),
{
    proof {
        reveal_strlit("at:");
        assert("at:"@ =~= seq!['a', 't', ':']);
        assert("at:"@.len() == 3 && "at:"@[0] == 'a' && "at:"@[1] == 't' && "at:"@[2] == ':');
    }
    proof {
        lemma_grows_refl(heap.view());
    }
    if !str_eq(selector, "at:") {
        return Err(EvalError::NotUnderstood(selector.to_owned()));
    }
    let i = int_arg(heap, args, 0)?;
    if i < 0 || i as u64 >= elems.len() as u64 {
        return Err(EvalError::IndexOutOfRange);
    }
    Ok(elems[i as usize])
}

} // verus!
