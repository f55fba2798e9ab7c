use vstd::prelude::*;

use crate::runtime::integer::{int_arg, IntReceiver};
use crate::runtime::stm::StreamReceiver;
use crate::runtime::chr::is_char_code;
use crate::runtime::{
    alloc_ok, alloc_text, heap_ok, lemma_grows_refl, lemma_grows_trans, lemma_update_ok,
    obj_as_int, obj_as_text, refs_ok, replies_new, step_ok, text_of, EvalError, Heap, Obj,
};
use crate::text::{chars_of, push_char, str_eq, string_of};

verus! {

/// The class of strings.
#[derive(PartialEq, Eq, Structural)]
pub struct StringMetaReceiver {}

/// A string; its text can change.
pub struct StringReceiver {
    pub val: String,
}

impl StringReceiver {
    pub fn new(val: String) -> (r: Self)
        ensures
            r.val == val,
    {
        StringReceiver { val }
    }
}

/// The text of the string object named `me`.
pub open spec fn text_at(h: Seq<Obj>, me: int) -> Seq<char> {
    match h[me] {
        Obj::Str(s) => s.val@,
        _ => Seq::empty(),
    }
}

/// `t` with `c` inserted at position `i`.
pub open spec fn insert_at(t: Seq<char>, i: int, c: char) -> Seq<char> {
    t.take(i).push(c) + t.skip(i)
}

/// What the string object `me` answers.
pub open spec fn string_reply(fuel: nat, h: Seq<Obj>, h2: Seq<Obj>, me: usize, selector: Seq<char>, args: Seq<usize>, r: Result<usize, EvalError>) -> bool
    decreases fuel, 1nat, 0nat,
{
    let t = text_at(h, me as int);
    &&& selector == "basic_write_to"@ ==> crate::runtime::nil::wrote_text(fuel, h, h2, t, args, r)
    &&& selector == "species"@ ==> replies_new(h, h2, r, Obj::StrMeta(StringMetaReceiver {}))
    &&& selector == "size"@ ==> if vstd::utf8::encode_utf8(t).len() as usize <= i64::MAX {
        replies_new(h, h2, r, Obj::Int(IntReceiver(vstd::utf8::encode_utf8(t).len() as usize as i64)))
    } else {
        r == Err::<usize, EvalError>(EvalError::Overflow) && h2 == h
    }
    &&& selector == "basicAt:"@ && args.len() >= 1 ==> match obj_as_int(
        h[args[0] as int],
    ) {
        Some(i) => if 0 <= i < t.len() {
            replies_new(h, h2, r, Obj::Int(IntReceiver(t[i] as u32 as i64)))
        } else {
            (r is Err && r->Err_0 is IndexOutOfRange)
        },
        None => (r is Err && r->Err_0 is NotAnInteger),
    }
    &&& selector == "basicAt:put:"@ && args.len() >= 2 ==> match (
        obj_as_int(h[args[0] as int]),
        obj_as_int(h[args[1] as int]),
    ) {
        (Some(i), Some(code)) => if is_char_code(code) && 0 <= i <= t.len() {
            r == Ok::<usize, EvalError>(args[1]) && h2.len() == h.len() && text_at(
                h2,
                me as int,
            ) == insert_at(t, i, code as char)
        } else if !is_char_code(code) {
            (r is Err && r->Err_0 is InvalidChar)
        } else {
            (r is Err && r->Err_0 is IndexOutOfRange)
        },
        _ => (r is Err && r->Err_0 is NotAnInteger),
    }
    &&& selector == "write"@ && args.len() >= 1 ==> match obj_as_text(
        h[args[0] as int],
    ) {
        Some(a) => r == Ok::<usize, EvalError>(args[0]) && h2.len() == h.len()
            && text_at(h2, me as int) == t + a,
        None => (r is Err && r->Err_0 is NotAText),
    }
    &&& !(selector == "species"@ || selector == "size"@ || selector == "readStream"@
            || selector == "basicAt:"@ || selector == "basicAt:put:"@ || selector
            == "write"@ || selector == "basic_write_to"@) ==> (r is Err && r->Err_0 is NotUnderstood)
}

/// `species` gives the class of strings, `size` the length of the UTF-8 encoding,
/// `readStream` a stream on a copy, `basicAt:` the code of the character at a position
/// (from zero), `basicAt:put:` inserts the character with the code of the second argument
/// at a position and answers that argument, `write` appends the text of the argument and
/// answers it, and `basic_write_to` sends `write` with a copy to the argument.
pub fn receive_string(heap: &mut Heap, me: usize, selector: &str, args: &Vec<usize>, fuel: u64) -> (r:
    Result<usize, EvalError>)
    requires
        heap_ok(old(heap).view()),
        refs_ok(args@, old(heap).view().len()),
        me < old(heap).view().len(),
        old(heap).view()[me as int] is Str,
        fuel > 0,
    ensures
        step_ok(old(heap).view(), final(heap).view(), r),
        string_reply(fuel as nat, old(heap).view(), final(heap).view(), me, selector@, args@, r),
    decreases fuel, 0nat,
{
    proof {
        reveal_strlit("basicAt:");
        assert("basicAt:"@ =~= seq!['b', 'a', 's', 'i', 'c', 'A', 't', ':']);
        assert("basicAt:"@.len() == 8 && "basicAt:"@[0] == 'b' && "basicAt:"@[1] == 'a' && "basicAt:"@[2] == 's' && "basicAt:"@[3] == 'i' && "basicAt:"@[4] == 'c' && "basicAt:"@[5] == 'A' && "basicAt:"@[6] == 't' && "basicAt:"@[7] == ':');
        reveal_strlit("basicAt:put:");
        assert("basicAt:put:"@ =~= seq!['b', 'a', 's', 'i', 'c', 'A', 't', ':', 'p', 'u', 't', ':']);
        assert("basicAt:put:"@.len() == 12 && "basicAt:put:"@[0] == 'b' && "basicAt:put:"@[1] == 'a' && "basicAt:put:"@[2] == 's' && "basicAt:put:"@[3] == 'i' && "basicAt:put:"@[4] == 'c' && "basicAt:put:"@[5] == 'A' && "basicAt:put:"@[6] == 't' && "basicAt:put:"@[7] == ':' && "basicAt:put:"@[8] == 'p' && "basicAt:put:"@[9] == 'u' && "basicAt:put:"@[10] == 't' && "basicAt:put:"@[11] == ':');
        reveal_strlit("basic_write_to");
        assert("basic_write_to"@ =~= seq!['b', 'a', 's', 'i', 'c', '_', 'w', 'r', 'i', 't', 'e', '_', 't', 'o']);
        assert("basic_write_to"@.len() == 14 && "basic_write_to"@[0] == 'b' && "basic_write_to"@[1] == 'a' && "basic_write_to"@[2] == 's' && "basic_write_to"@[3] == 'i' && "basic_write_to"@[4] == 'c' && "basic_write_to"@[5] == '_' && "basic_write_to"@[6] == 'w' && "basic_write_to"@[7] == 'r' && "basic_write_to"@[8] == 'i' && "basic_write_to"@[9] == 't' && "basic_write_to"@[10] == 'e' && "basic_write_to"@[11] == '_' && "basic_write_to"@[12] == 't' && "basic_write_to"@[13] == 'o');
        reveal_strlit("readStream");
        assert("readStream"@ =~= seq!['r', 'e', 'a', 'd', 'S', 't', 'r', 'e', 'a', 'm']);
        assert("readStream"@.len() == 10 && "readStream"@[0] == 'r' && "readStream"@[1] == 'e' && "readStream"@[2] == 'a' && "readStream"@[3] == 'd' && "readStream"@[4] == 'S' && "readStream"@[5] == 't' && "readStream"@[6] == 'r' && "readStream"@[7] == 'e' && "readStream"@[8] == 'a' && "readStream"@[9] == 'm');
        reveal_strlit("size");
        assert("size"@ =~= seq!['s', 'i', 'z', 'e']);
        assert("size"@.len() == 4 && "size"@[0] == 's' && "size"@[1] == 'i' && "size"@[2] == 'z' && "size"@[3] == 'e');
        reveal_strlit("species");
        assert("species"@ =~= seq!['s', 'p', 'e', 'c', 'i', 'e', 's']);
        assert("species"@.len() == 7 && "species"@[0] == 's' && "species"@[1] == 'p' && "species"@[2] == 'e' && "species"@[3] == 'c' && "species"@[4] == 'i' && "species"@[5] == 'e' && "species"@[6] == 's');
        reveal_strlit("write");
        assert("write"@ =~= seq!['w', 'r', 'i', 't', 'e']);
        assert("write"@.len() == 5 && "write"@[0] == 'w' && "write"@[1] == 'r' && "write"@[2] == 'i' && "write"@[3] == 't' && "write"@[4] == 'e');
    }
    let ghost h = heap.view();
    proof {
        lemma_grows_refl(h);
    }
    let val = match heap.get(me) {
        Obj::Str(s) => s.val.clone(),
        _ => String::new(),
    };
    if str_eq(selector, "species") {
        alloc_ok(heap, Obj::StrMeta(StringMetaReceiver {}))
    } else if str_eq(selector, "size") {
        let n = val.as_str().len() as u64;
        proof {
            assert(val@ == text_at(h, me as int));
        }
        if n > 0x7fff_ffff_ffff_ffff {
            return Err(EvalError::Overflow);
        }
        alloc_ok(heap, Obj::Int(IntReceiver::new(n as i64)))
    } else if str_eq(selector, "readStream") {
        let copy = alloc_text(heap, val)?;
        let ghost h1 = heap.view();
        let r = alloc_ok(heap, Obj::Stream(StreamReceiver::new(copy)));
        proof {
            lemma_grows_trans(h, h1, heap.view());
        }
        r
    } else if str_eq(selector, "basicAt:") {
        let i = int_arg(heap, args, 0)?;
        let v = chars_of(val.as_str());
        if i < 0 || i as u64 >= v.len() as u64 {
            return Err(EvalError::IndexOutOfRange);
        }
        alloc_ok(heap, Obj::Int(IntReceiver::new(v[i as usize] as u32 as i64)))
    } else if str_eq(selector, "basicAt:put:") {
        if args.len() < 2 {
            return Err(EvalError::MissingArgument);
        }
        let i = int_arg(heap, args, 0)?;
        let code = int_arg(heap, args, 1)?;
        if code < 0 || code > 0x10FFFF || (0xD800 <= code && code <= 0xDFFF) {
            return Err(EvalError::InvalidChar);
        }
        let v = chars_of(val.as_str());
        if i < 0 || i as u64 > v.len() as u64 {
            return Err(EvalError::IndexOutOfRange);
        }
        let c = crate::runtime::char_code(code);
        let iu = i as usize;
        let mut t = string_of(v.as_slice(), 0, iu);
        push_char(&mut t, c);
        let rest = string_of(v.as_slice(), iu, v.len());
        t.append(rest.as_str());
        proof {
            assert(v@.subrange(0, iu as int) =~= v@.take(iu as int));
            assert(v@.subrange(iu as int, v@.len() as int) =~= v@.skip(iu as int));
        }
        let o = Obj::Str(StringReceiver::new(t));
        proof {
            lemma_update_ok(h, me as int, o);
        }
        heap.set(me, o);
        Ok(args[1])
    } else if str_eq(selector, "write") {
        if args.len() == 0 {
            return Err(EvalError::MissingArgument);
        }
        let a = text_of(heap, args[0])?;
        let mut t = val;
        t.append(a.as_str());
        let o = Obj::Str(StringReceiver::new(t));
        proof {
            lemma_update_ok(h, me as int, o);
        }
        heap.set(me, o);
        Ok(args[0])
    } else if str_eq(selector, "basic_write_to") {
        if args.len() == 0 {
            return Err(EvalError::MissingArgument);
        }
        let copy = alloc_text(heap, val)?;
        let ghost h1 = heap.view();
        let mut a: Vec<usize> = Vec::new();
        a.push(copy);
        let r = crate::send_message(heap, args[0], "write", &a, fuel - 1);
        proof {
            lemma_grows_trans(h, h1, heap.view());
            assert(a@ =~= seq![h.len() as usize]);
            assert(crate::evaluation::witness(h1));
        }
        r
    } else {
        Err(EvalError::NotUnderstood(selector.to_owned()))
    }
}

/// What the class of strings answers.
pub open spec fn string_meta_reply(fuel: nat, h: Seq<Obj>, h2: Seq<Obj>, selector: Seq<char>, args: Seq<usize>, r: Result<usize, EvalError>) -> bool
    decreases fuel, 1nat, 0nat,
{
    &&& selector == "new:streamContents:"@ && args.len() >= 2 && r is Ok ==> r == Ok::<
    usize,
    EvalError,
    >(h.len() as usize)
    &&& selector == "new:streamContents:"@ && args.len() < 2 ==> r == Err::<usize, EvalError>(
        EvalError::MissingArgument,
    ) && h2 == h
    &&& selector == "new:streamContents:"@ && args.len() >= 2 && fuel > 0 ==> {
        ||| r == Err::<usize, EvalError>(EvalError::HeapFull) && crate::runtime::heap_full(h) && h2 == h
        ||| r == Err::<usize, EvalError>(EvalError::HeapFull) && crate::runtime::heap_full(h2)
            && crate::runtime::replies_text(h, h2, Ok(h.len() as usize), Seq::empty())
        ||| exists|h1: Seq<Obj>, rv: Result<usize, EvalError>|
            #[trigger] crate::evaluation::witness((h1, rv)) && crate::runtime::replies_text(
                h,
                h1,
                Ok(h.len() as usize),
                Seq::empty(),
            ) && crate::evaluation::sent(
                (fuel - 1) as nat,
                h1.push(Obj::Stream(StreamReceiver { buf: h.len() as usize, idx: 0 })),
                h2,
                args[1],
                "value:"@,
                seq![(h.len() + 1) as usize],
                rv,
            ) && match rv {
                Ok(_) => r == Ok::<usize, EvalError>(h.len() as usize),
                Err(e) => r == Err::<usize, EvalError>(e),
            }
    }
    &&& selector != "new:streamContents:"@ ==> (r is Err && r->Err_0 is NotUnderstood)
}

/// `new:streamContents:` makes an empty string, sends `value:` with a stream on it to the
/// second argument and answers the string.
pub fn receive_string_meta(heap: &mut Heap, selector: &str, args: &Vec<usize>, fuel: u64) -> (r:
    Result<usize, EvalError>)
    requires
        heap_ok(old(heap).view()),
        refs_ok(args@, old(heap).view().len()),
        fuel > 0,
    ensures
        step_ok(old(heap).view(), final(heap).view(), r),
        string_meta_reply(fuel as nat, old(heap).view(), final(heap).view(), selector@, args@, r),
    decreases fuel, 0nat,
{
    proof {
        reveal_strlit("new:streamContents:");
        assert("new:streamContents:"@ =~= seq!['n', 'e', 'w', ':', 's', 't', 'r', 'e', 'a', 'm', 'C', 'o', 'n', 't', 'e', 'n', 't', 's', ':']);
        assert("new:streamContents:"@.len() == 19 && "new:streamContents:"@[0] == 'n' && "new:streamContents:"@[1] == 'e' && "new:streamContents:"@[2] == 'w' && "new:streamContents:"@[3] == ':' && "new:streamContents:"@[4] == 's' && "new:streamContents:"@[5] == 't' && "new:streamContents:"@[6] == 'r' && "new:streamContents:"@[7] == 'e' && "new:streamContents:"@[8] == 'a' && "new:streamContents:"@[9] == 'm' && "new:streamContents:"@[10] == 'C' && "new:streamContents:"@[11] == 'o' && "new:streamContents:"@[12] == 'n' && "new:streamContents:"@[13] == 't' && "new:streamContents:"@[14] == 'e' && "new:streamContents:"@[15] == 'n' && "new:streamContents:"@[16] == 't' && "new:streamContents:"@[17] == 's' && "new:streamContents:"@[18] == ':');
        reveal_strlit("value:");
        assert("value:"@ =~= seq!['v', 'a', 'l', 'u', 'e', ':']);
        assert("value:"@.len() == 6 && "value:"@[0] == 'v' && "value:"@[1] == 'a' && "value:"@[2] == 'l' && "value:"@[3] == 'u' && "value:"@[4] == 'e' && "value:"@[5] == ':');
    }
    let ghost h = heap.view();
    proof {
        lemma_grows_refl(h);
    }
    if !str_eq(selector, "new:streamContents:") {
        return Err(EvalError::NotUnderstood(selector.to_owned()));
    }
    if args.len() < 2 {
        return Err(EvalError::MissingArgument);
    }
    let result = alloc_text(heap, String::new())?;
    let ghost h1 = heap.view();
    let stream = alloc_ok(heap, Obj::Stream(StreamReceiver::new(result)))?;
    let ghost h2 = heap.view();
    let mut a: Vec<usize> = Vec::new();
    a.push(stream);
    let rv = crate::send_message(heap, args[1], "value:", &a, fuel - 1);
    proof {
        lemma_grows_trans(h, h1, h2);
        lemma_grows_trans(h, h2, heap.view());
        assert(a@ =~= seq![(h.len() + 1) as usize]);
        assert(crate::evaluation::witness((h1, rv)));
    }
    match rv {
        Ok(_) => Ok(result),
        Err(e) => Err(e),
    }
}

/// A string answers `size` with a new integer object: the number of bytes of its UTF-8
/// text. `Overflow` comes only for a text whose length does not fit in an `i64`.
pub proof fn law_string_size(
    fuel: nat,
    h: Seq<Obj>,
    h2: Seq<Obj>,
    me: usize,
    args: Seq<usize>,
    r: Result<usize, EvalError>,
)
    requires
        fuel > 0,
        me < h.len(),
        h[me as int] is Str,
        crate::message_reply(fuel, h, h2, me, "size"@, args, r),
    ensures
        ({
            let n = vstd::utf8::encode_utf8(h[me as int]->Str_0.val@).len();
            &&& n <= i64::MAX && n <= usize::MAX && !crate::runtime::heap_full(h) ==> r == Ok::<
                usize,
                EvalError,
            >(h.len() as usize) && h2 == h.push(Obj::Int(IntReceiver(n as i64)))
            &&& r == Err::<usize, EvalError>(EvalError::Overflow) ==> n > i64::MAX || n > usize::MAX
        }),
{
}

} // verus!
