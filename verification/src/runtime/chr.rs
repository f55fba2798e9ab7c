use vstd::prelude::*;

use crate::runtime::integer::int_arg;
use crate::runtime::{
    alloc_bool, alloc_text, bool_obj, heap_ok, lemma_grows_refl, lemma_grows_trans, obj_as_int,
    refs_ok, replies_new, step_ok, EvalError, Heap, Obj,
};
use crate::text::{push_char, str_eq};

verus! {

/// A character.
#[derive(PartialEq, Eq, Structural)]
pub struct CharReceiver(pub char);

impl CharReceiver {
    pub fn new(c: char) -> (r: Self)
        ensures
            r.0 == c,
    {
        CharReceiver(c)
    }
}

/// `m` is the code of a character.
pub open spec fn is_char_code(m: int) -> bool {
    0 <= m <= 0x10FFFF && !(0xD800 <= m <= 0xDFFF)
}

/// What the character `c` answers.
pub open spec fn char_reply(fuel: nat, h: Seq<Obj>, h2: Seq<Obj>, c: char, selector: Seq<char>, args: Seq<usize>, r: Result<usize, EvalError>) -> bool
    decreases fuel, 1nat, 0nat,
{
    &&& selector == "basic_write_to"@ ==> crate::runtime::nil::wrote_text(fuel, h, h2, seq![c], args, r)
    &&& selector == "=="@ && args.len() >= 1 ==> match obj_as_int(
        h[args[0] as int],
    ) {
        Some(m) => if is_char_code(m) {
            replies_new(h, h2, r, bool_obj(c as int == m))
        } else {
            (r is Err && r->Err_0 is InvalidChar)
        },
        None => (r is Err && r->Err_0 is NotAnInteger),
    }
    &&& !(selector == "=="@ || selector == "basic_write_to"@) ==> (r is Err && r->Err_0 is NotUnderstood)
}

/// `==` compares with the character whose code is the argument; `basic_write_to` sends
/// `write` with the character to the argument.
pub fn receive_char(heap: &mut Heap, c: char, selector: &str, args: &Vec<usize>, fuel: u64) -> (r:
    Result<usize, EvalError>)
    requires
        heap_ok(old(heap).view()),
        refs_ok(args@, old(heap).view().len()),
        fuel > 0,
    ensures
        step_ok(old(heap).view(), final(heap).view(), r),
        char_reply(fuel as nat, old(heap).view(), final(heap).view(), c, selector@, args@, r),
    decreases fuel, 0nat,
{
    proof {
        reveal_strlit("==");
        assert("=="@ =~= seq!['=', '=']);
        assert("=="@.len() == 2 && "=="@[0] == '=' && "=="@[1] == '=');
        reveal_strlit("basic_write_to");
        assert("basic_write_to"@ =~= seq!['b', 'a', 's', 'i', 'c', '_', 'w', 'r', 'i', 't', 'e', '_', 't', 'o']);
        assert("basic_write_to"@.len() == 14 && "basic_write_to"@[0] == 'b' && "basic_write_to"@[1] == 'a' && "basic_write_to"@[2] == 's' && "basic_write_to"@[3] == 'i' && "basic_write_to"@[4] == 'c' && "basic_write_to"@[5] == '_' && "basic_write_to"@[6] == 'w' && "basic_write_to"@[7] == 'r' && "basic_write_to"@[8] == 'i' && "basic_write_to"@[9] == 't' && "basic_write_to"@[10] == 'e' && "basic_write_to"@[11] == '_' && "basic_write_to"@[12] == 't' && "basic_write_to"@[13] == 'o');
        reveal_strlit("write");
        assert("write"@ =~= seq!['w', 'r', 'i', 't', 'e']);
        assert("write"@.len() == 5 && "write"@[0] == 'w' && "write"@[1] == 'r' && "write"@[2] == 'i' && "write"@[3] == 't' && "write"@[4] == 'e');
    }
    let ghost h = heap.view();
    proof {
        lemma_grows_refl(h);
    }
    if str_eq(selector, "==") {
        let m = int_arg(heap, args, 0)?;
        if m < 0 || m > 0x10FFFF || (0xD800 <= m && m <= 0xDFFF) {
            return Err(EvalError::InvalidChar);
        }
        alloc_bool(heap, c as u32 as i64 == m)
    } else if str_eq(selector, "basic_write_to") {
        if args.len() == 0 {
            return Err(EvalError::MissingArgument);
        }
        let mut t = String::new();
        push_char(&mut t, c);
        let s = alloc_text(heap, t)?;
        let ghost h1 = heap.view();
        let mut a: Vec<usize> = Vec::new();
        a.push(s);
        let r = crate::send_message(heap, args[0], "write", &a, fuel - 1);
        proof {
            lemma_grows_trans(h, h1, heap.view());
            assert(a@ =~= seq![h.len() as usize]);
            assert(crate::evaluation::witness(h1));
        }
        r
    } else {
        Err(EvalError::NotUnderstood(selector.to_owned()))
    }
}

} // verus!
