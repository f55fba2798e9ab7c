use vstd::prelude::*;

use crate::runtime::{
    alloc_bool, alloc_ok, alloc_text, bool_obj, int_of, obj_as_int, obj_as_text, refs_ok,
    replies_new, replies_text, step_ok, text_int, text_of, EvalError, Heap, Obj, heap_ok,
    parse_decimal,
};
use crate::runtime::pnt::PointReceiver;
use crate::runtime::str::StringReceiver;
use crate::text::{int_text, int_to_string, str_eq};

verus! {

/// The class of integers.
#[derive(PartialEq, Eq, Structural)]
pub struct IntMetaReceiver;

/// An integer.
#[derive(PartialEq, Eq, Structural)]
pub struct IntReceiver(pub i64);

impl IntReceiver {
    pub fn new(n: i64) -> (r: Self)
        ensures
            r.0 == n,
    {
        IntReceiver(n)
    }
}

/// The integer argument `i` of a message.
pub fn int_arg(heap: &Heap, args: &Vec<usize>, i: usize) -> (r: Result<i64, EvalError>)
    requires
        refs_ok(args@, heap.view().len()),
    ensures
        i < args@.len() ==> match r {
            Ok(v) => obj_as_int(heap.view()[args@[i as int] as int]) == Some(v as int),
            Err(e) => obj_as_int(heap.view()[args@[i as int] as int]) is None && e is NotAnInteger,
        },
        i >= args@.len() ==> (r is Err && r->Err_0 is MissingArgument),
{
    if i >= args.len() {
        return Err(EvalError::MissingArgument);
    }
    int_of(heap, args[i])
}

/// What the integer `n` answers.
pub open spec fn int_reply(fuel: nat, h: Seq<Obj>, h2: Seq<Obj>, n: i64, selector: Seq<char>, args: Seq<usize>, r: Result<usize, EvalError>) -> bool
    decreases fuel, 1nat, 0nat,
{
    let arg = if args.len() >= 1 {
        obj_as_int(h[args[0] as int])
    } else {
        None
    };
    &&& (selector == "+"@ || selector == "*"@ || selector == "=="@ || selector == "<"@
            || selector == ">"@ || selector == "@"@) && args.len() == 0 ==> (r is Err && r->Err_0 is MissingArgument)
    &&& (selector == "+"@ || selector == "*"@ || selector == "=="@ || selector == "<"@
            || selector == ">"@ || selector == "@"@) && args.len() >= 1 && arg is None
    ==> (r is Err && r->Err_0 is NotAnInteger)
    &&& arg matches Some(m) ==> selector == "+"@ ==> if i64::MIN <= n + m <= i64::MAX {
        replies_new(h, h2, r, Obj::Int(IntReceiver((n + m) as i64)))
    } else {
        (r is Err && r->Err_0 is Overflow)
    }
    &&& arg matches Some(m) ==> selector == "*"@ ==> if i64::MIN <= n * m <= i64::MAX {
        replies_new(h, h2, r, Obj::Int(IntReceiver((n * m) as i64)))
    } else {
        (r is Err && r->Err_0 is Overflow)
    }
    &&& arg matches Some(m) ==> selector == "=="@ ==> replies_new(h, h2, r, bool_obj(n == m))
    &&& arg matches Some(m) ==> selector == "<"@ ==> replies_new(h, h2, r, bool_obj(n < m))
    &&& arg matches Some(m) ==> selector == ">"@ ==> replies_new(h, h2, r, bool_obj(n > m))
    &&& arg matches Some(m) ==> selector == "@"@ ==> replies_new(
        h,
        h2,
        r,
        Obj::Point(PointReceiver(n, m as i64)),
    )
    &&& selector == "asString"@ ==> replies_text(h, h2, r, int_text(n as int))
    &&& selector == "basic_write_to"@ ==> crate::runtime::nil::wrote_text(fuel, h, h2, int_text(n as int), args, r)
    &&& !(selector == "+"@ || selector == "*"@ || selector == "=="@ || selector == "<"@
            || selector == ">"@ || selector == "@"@ || selector == "asString"@ || selector
            == "basic_write_to"@) ==> (r is Err && r->Err_0 is NotUnderstood) && h2 == h
}

/// `n + m`, `n * m`, comparisons, `@` (a point) and `asString` on the integer `n`;
/// `basic_write_to` sends `write` with the decimal text to the argument.
pub fn receive_int(heap: &mut Heap, n: i64, selector: &str, args: &Vec<usize>, fuel: u64) -> (r:
    Result<usize, EvalError>)
    requires
        heap_ok(old(heap).view()),
        refs_ok(args@, old(heap).view().len()),
        fuel > 0,
    ensures
        step_ok(old(heap).view(), final(heap).view(), r),
        int_reply(fuel as nat, old(heap).view(), final(heap).view(), n, selector@, args@, r),
    decreases fuel, 0nat,
{
    proof {
        reveal_strlit("*");
        assert("*"@ =~= seq!['*']);
        assert("*"@.len() == 1 && "*"@[0] == '*');
        reveal_strlit("+");
        assert("+"@ =~= seq!['+']);
        assert("+"@.len() == 1 && "+"@[0] == '+');
        reveal_strlit("<");
        assert("<"@ =~= seq!['<']);
        assert("<"@.len() == 1 && "<"@[0] == '<');
        reveal_strlit("==");
        assert("=="@ =~= seq!['=', '=']);
        assert("=="@.len() == 2 && "=="@[0] == '=' && "=="@[1] == '=');
        reveal_strlit(">");
        assert(">"@ =~= seq!['>']);
        assert(">"@.len() == 1 && ">"@[0] == '>');
        reveal_strlit("@");
        assert("@"@ =~= seq!['@']);
        assert("@"@.len() == 1 && "@"@[0] == '@');
        reveal_strlit("asString");
        assert("asString"@ =~= seq!['a', 's', 'S', 't', 'r', 'i', 'n', 'g']);
        assert("asString"@.len() == 8 && "asString"@[0] == 'a' && "asString"@[1] == 's' && "asString"@[2] == 'S' && "asString"@[3] == 't' && "asString"@[4] == 'r' && "asString"@[5] == 'i' && "asString"@[6] == 'n' && "asString"@[7] == 'g');
        reveal_strlit("basic_write_to");
        assert("basic_write_to"@ =~= seq!['b', 'a', 's', 'i', 'c', '_', 'w', 'r', 'i', 't', 'e', '_', 't', 'o']);
        assert("basic_write_to"@.len() == 14 && "basic_write_to"@[0] == 'b' && "basic_write_to"@[1] == 'a' && "basic_write_to"@[2] == 's' && "basic_write_to"@[3] == 'i' && "basic_write_to"@[4] == 'c' && "basic_write_to"@[5] == '_' && "basic_write_to"@[6] == 'w' && "basic_write_to"@[7] == 'r' && "basic_write_to"@[8] == 'i' && "basic_write_to"@[9] == 't' && "basic_write_to"@[10] == 'e' && "basic_write_to"@[11] == '_' && "basic_write_to"@[12] == 't' && "basic_write_to"@[13] == 'o');
        reveal_strlit("write");
        assert("write"@ =~= seq!['w', 'r', 'i', 't', 'e']);
        assert("write"@.len() == 5 && "write"@[0] == 'w' && "write"@[1] == 'r' && "write"@[2] == 'i' && "write"@[3] == 't' && "write"@[4] == 'e');
    }
    let ghost h = heap.view();
    if str_eq(selector, "asString") {
        return alloc_text(heap, int_to_string(n));
    }
    if str_eq(selector, "basic_write_to") {
        if args.len() == 0 {
            proof {
                crate::runtime::lemma_grows_refl(h);
            }
            return Err(EvalError::MissingArgument);
        }
        let t = alloc_text(heap, int_to_string(n))?;
        let mut a: Vec<usize> = Vec::new();
        a.push(t);
        let ghost h1 = heap.view();
        let r = crate::send_message(heap, args[0], "write", &a, fuel - 1);
        proof {
            crate::runtime::lemma_grows_trans(h, h1, heap.view());
            assert(a@ =~= seq![h.len() as usize]);
            assert(crate::evaluation::witness(h1));
        }
        return r;
    }
    let is_binary = str_eq(selector, "+") || str_eq(selector, "*") || str_eq(selector, "==")
        || str_eq(selector, "<") || str_eq(selector, ">") || str_eq(selector, "@");
    if !is_binary {
        proof {
            crate::runtime::lemma_grows_refl(h);
        }
        return Err(EvalError::NotUnderstood(selector.to_owned()));
    }
    let m = match int_arg(heap, args, 0) {
        Ok(m) => m,
        Err(e) => {
            proof {
                crate::runtime::lemma_grows_refl(h);
            }
            return Err(e);
        },
    };
    if str_eq(selector, "+") {
        match n.checked_add(m) {
            Some(v) => alloc_ok(heap, Obj::Int(IntReceiver::new(v))),
            None => {
                proof {
                    crate::runtime::lemma_grows_refl(h);
                }
                Err(EvalError::Overflow)
            },
        }
    } else if str_eq(selector, "*") {
        match n.checked_mul(m) {
            Some(v) => alloc_ok(heap, Obj::Int(IntReceiver::new(v))),
            None => {
                proof {
                    crate::runtime::lemma_grows_refl(h);
                }
                Err(EvalError::Overflow)
            },
        }
    } else if str_eq(selector, "==") {
        alloc_bool(heap, n == m)
    } else if str_eq(selector, "<") {
        alloc_bool(heap, n < m)
    } else if str_eq(selector, ">") {
        alloc_bool(heap, n > m)
    } else {
        alloc_ok(heap, Obj::Point(PointReceiver::new(n, m)))
    }
}

/// What the class of integers answers.
pub open spec fn int_meta_reply(h: Seq<Obj>, h2: Seq<Obj>, selector: Seq<char>, args: Seq<usize>, r: Result<usize, EvalError>) -> bool {
    &&& selector == "readFrom:ifFail:"@ && args.len() >= 1 ==> ({
            match obj_as_text(h[args[0] as int]) {
                Some(t) => match text_int(t) {
                    Some(v) => replies_new(h, h2, r, Obj::Int(IntReceiver(v as i64))),
                    None => (r is Err && r->Err_0 is NotAnInteger),
                },
                None => (r is Err && r->Err_0 is NotAText),
            }
    })
    &&& selector != "readFrom:ifFail:"@ ==> (r is Err && r->Err_0 is NotUnderstood)
}

/// `readFrom:ifFail:` reads an integer from the text of the first argument.
pub fn receive_int_meta(heap: &mut Heap, selector: &str, args: &Vec<usize>) -> (r: Result<
    usize,
    EvalError,
>)
    requires
        heap_ok(old(heap).view()),
        refs_ok(args@, old(heap).view().len()),
    ensures
        step_ok(old(heap).view(), final(heap).view(), r),
        int_meta_reply(old(heap).view(), final(heap).view(), selector@, args@, r),
{
    proof {
        reveal_strlit("readFrom:ifFail:");
        assert("readFrom:ifFail:"@ =~= seq!['r', 'e', 'a', 'd', 'F', 'r', 'o', 'm', ':', 'i', 'f', 'F', 'a', 'i', 'l', ':']);
        assert("readFrom:ifFail:"@.len() == 16 && "readFrom:ifFail:"@[0] == 'r' && "readFrom:ifFail:"@[1] == 'e' && "readFrom:ifFail:"@[2] == 'a' && "readFrom:ifFail:"@[3] == 'd' && "readFrom:ifFail:"@[4] == 'F' && "readFrom:ifFail:"@[5] == 'r' && "readFrom:ifFail:"@[6] == 'o' && "readFrom:ifFail:"@[7] == 'm' && "readFrom:ifFail:"@[8] == ':' && "readFrom:ifFail:"@[9] == 'i' && "readFrom:ifFail:"@[10] == 'f' && "readFrom:ifFail:"@[11] == 'F' && "readFrom:ifFail:"@[12] == 'a' && "readFrom:ifFail:"@[13] == 'i' && "readFrom:ifFail:"@[14] == 'l' && "readFrom:ifFail:"@[15] == ':');
    }
    let ghost h = heap.view();
    proof {
        crate::runtime::lemma_grows_refl(h);
    }
    if !str_eq(selector, "readFrom:ifFail:") {
        return Err(EvalError::NotUnderstood(selector.to_owned()));
    }
    if args.len() == 0 {
        return Err(EvalError::MissingArgument);
    }
    let t = text_of(heap, args[0])?;
    match parse_decimal(t.as_str()) {
        Some(v) => alloc_ok(heap, Obj::Int(IntReceiver::new(v))),
        None => Err(EvalError::NotAnInteger),
    }
}

} // verus!
