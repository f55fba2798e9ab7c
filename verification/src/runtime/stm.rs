use vstd::prelude::*;

use crate::runtime::chr::is_char_code;
use crate::runtime::integer::{int_arg, IntReceiver};
use crate::runtime::{
    alloc_ok, alloc_text, heap_ok, int_of, lemma_grows_refl, lemma_grows_trans, lemma_update_ok,
    obj_as_int, refs_ok, replies_new, step_ok, EvalError, Heap, Obj,
};
use crate::text::{push_char, str_eq};

verus! {

/// A stream over a collection: the object it reads from and writes to, and the position of
/// the next element.
pub struct StreamReceiver {
    pub buf: usize,
    pub idx: i64,
}

impl StreamReceiver {
    pub fn new(buf: usize) -> (r: Self)
        ensures
            r.buf == buf && r.idx == 0,
    {
        StreamReceiver { buf, idx: 0 }
    }
}

/// The position of the stream object named `me`.
pub open spec fn stream_at(h: Seq<Obj>, me: int) -> (usize, i64) {
    match h[me] {
        Obj::Stream(s) => (s.buf, s.idx),
        _ => (0, 0),
    }
}

/// The stream `me` moved one position on and `r` is its collection and old position; or the
/// position is at its limit and nothing changed.
pub open spec fn advanced(h: Seq<Obj>, h2: Seq<Obj>, me: usize, r: Result<(usize, i64), EvalError>) -> bool {
    let (buf, idx) = stream_at(h, me as int);
    if idx == i64::MAX {
        r == Err::<(usize, i64), EvalError>(EvalError::Overflow) && h2 == h
    } else {
        r == Ok::<(usize, i64), EvalError>((buf, idx)) && h2 == h.update(
            me as int,
            Obj::Stream(StreamReceiver { buf, idx: (idx + 1) as i64 }),
        )
    }
}

/// After the stream `me` moved on (`advanced`), a new integer of its old position `idx` was
/// made and sent with `extra` as `selector` to the collection `buf`, which answered `r`.
pub open spec fn sent_at_position(
    fuel: nat,
    h: Seq<Obj>,
    h2: Seq<Obj>,
    me: usize,
    selector: Seq<char>,
    extra: Seq<usize>,
    r: Result<usize, EvalError>,
) -> bool
    decreases fuel, 0nat, 0nat,
{
    let (buf, idx) = stream_at(h, me as int);
    if fuel == 0 {
        true
    } else if idx == i64::MAX {
        r == Err::<usize, EvalError>(EvalError::Overflow) && h2 == h
    } else {
        let h1 = h.update(me as int, Obj::Stream(StreamReceiver { buf, idx: (idx + 1) as i64 }));
        ||| r == Err::<usize, EvalError>(EvalError::HeapFull) && crate::runtime::heap_full(h1) && h2 == h1
        ||| crate::evaluation::sent(
            (fuel - 1) as nat,
            h1.push(Obj::Int(IntReceiver(idx))),
            h2,
            buf,
            selector,
            seq![h.len() as usize] + extra,
            r,
        )
    }
}

/// Moves the stream one position on and answers the old position.
fn advance(heap: &mut Heap, me: usize) -> (r: Result<(usize, i64), EvalError>)
    requires
        heap_ok(old(heap).view()),
        me < old(heap).view().len(),
        old(heap).view()[me as int] is Stream,
    ensures
        heap_ok(final(heap).view()),
        crate::runtime::grows(old(heap).view(), final(heap).view()),
        final(heap).view().len() == old(heap).view().len(),
        r matches Ok((buf, idx)) ==> (buf, idx) == stream_at(old(heap).view(), me as int) && buf
            < final(heap).view().len() && stream_at(final(heap).view(), me as int) == (
            buf,
            (idx + 1) as i64,
        ),
        advanced(old(heap).view(), final(heap).view(), me, r),
{
    let ghost h = heap.view();
    proof {
        lemma_grows_refl(h);
    }
    let (buf, idx) = match heap.get(me) {
        Obj::Stream(s) => (s.buf, s.idx),
        _ => (0, 0),
    };
    if idx == i64::MAX {
        return Err(EvalError::Overflow);
    }
    let o = Obj::Stream(StreamReceiver { buf, idx: idx + 1 });
    proof {
        lemma_update_ok(h, me as int, o);
    }
    heap.set(me, o);
    Ok((buf, idx))
}

/// `next` answers what the collection answers to `basicAt:` with the position and moves on.
fn next_element(heap: &mut Heap, me: usize, fuel: u64) -> (r: Result<usize, EvalError>)
    requires
        heap_ok(old(heap).view()),
        me < old(heap).view().len(),
        old(heap).view()[me as int] is Stream,
        fuel > 0,
    ensures
        step_ok(old(heap).view(), final(heap).view(), r),
        sent_at_position(fuel as nat, old(heap).view(), final(heap).view(), me, "basicAt:"@, Seq::empty(), r),
    decreases fuel, 0nat,
{
    let ghost h = heap.view();
    let (buf, idx) = advance(heap, me)?;
    let ghost h1 = heap.view();
    let i = alloc_ok(heap, Obj::Int(IntReceiver::new(idx)))?;
    let ghost h2 = heap.view();
    let mut a: Vec<usize> = Vec::new();
    a.push(i);
    let r = crate::send_message(heap, buf, "basicAt:", &a, fuel - 1);
    proof {
        lemma_grows_trans(h, h1, h2);
        lemma_grows_trans(h, h2, heap.view());
        assert(a@ =~= seq![h.len() as usize] + Seq::<usize>::empty());
    }
    r
}

/// `atEnd`: the collection was sent `size`, and the answer is a new 1 where the position has
/// reached the size and 0 before.
pub open spec fn stream_at_end(fuel: nat, h: Seq<Obj>, h2: Seq<Obj>, me: usize, r: Result<usize, EvalError>) -> bool
    decreases fuel, 0nat, 0nat,
{
    let (buf, idx) = stream_at(h, me as int);
    if fuel == 0 {
        true
    } else {
        exists|h1: Seq<Obj>, n: Result<usize, EvalError>|
            #[trigger] crate::evaluation::witness((h1, n)) && crate::evaluation::sent(
                (fuel - 1) as nat,
                h,
                h1,
                buf,
                "size"@,
                Seq::empty(),
                n,
            ) && match n {
                Err(e) => r == Err::<usize, EvalError>(e) && h2 == h1,
                Ok(no) => match obj_as_int(h1[no as int]) {
                    None => r == Err::<usize, EvalError>(EvalError::NotAnInteger) && h2 == h1,
                    Some(size) => replies_new(
                        h1,
                        h2,
                        r,
                        Obj::Int(IntReceiver(if idx < size { 0 } else { 1 })),
                    ),
                },
            }
    }
}

/// What the stream object `me` answers.
pub open spec fn stream_reply(fuel: nat, h: Seq<Obj>, h2: Seq<Obj>, me: usize, selector: Seq<char>, args: Seq<usize>, r: Result<usize, EvalError>) -> bool
    decreases fuel, 1nat, 0nat,
{
    &&& selector == "next"@ ==> sent_at_position(fuel, h, h2, me, "basicAt:"@, Seq::empty(), r)
    &&& (selector == "nextPut:"@ || selector == "nextPutAll:"@) ==> if args.len() == 0 {
        r == Err::<usize, EvalError>(EvalError::MissingArgument) && h2 == h
    } else {
        sent_at_position(fuel, h, h2, me, "basicAt:put:"@, seq![args[0]], r)
    }
    &&& selector == "atEnd"@ ==> stream_at_end(fuel, h, h2, me, r)
    &&& !(selector == "next"@ || selector == "nextPut:"@ || selector == "nextPutAll:"@
            || selector == "atEnd"@ || selector == "upTo:"@) ==> (r is Err && r->Err_0 is NotUnderstood)
}

/// `next` reads an element, `nextPut:` and `nextPutAll:` write the argument with
/// `basicAt:put:` at the position, `atEnd` answers 1 where the position has reached the
/// collection's `size` and 0 before, and `upTo:` reads up to the character whose code is the
/// argument and answers the characters read before it.
#[verifier::loop_isolation(false)]
pub fn receive_stream(heap: &mut Heap, me: usize, selector: &str, args: &Vec<usize>, fuel: u64) -> (r:
    Result<usize, EvalError>)
    requires
        heap_ok(old(heap).view()),
        refs_ok(args@, old(heap).view().len()),
        me < old(heap).view().len(),
        old(heap).view()[me as int] is Stream,
        fuel > 0,
    ensures
        step_ok(old(heap).view(), final(heap).view(), r),
        stream_reply(fuel as nat, old(heap).view(), final(heap).view(), me, selector@, args@, r),
    decreases fuel, 1nat,
{
    proof {
        reveal_strlit("atEnd");
        assert("atEnd"@ =~= seq!['a', 't', 'E', 'n', 'd']);
        assert("atEnd"@.len() == 5 && "atEnd"@[0] == 'a' && "atEnd"@[1] == 't' && "atEnd"@[2] == 'E' && "atEnd"@[3] == 'n' && "atEnd"@[4] == 'd');
        reveal_strlit("basicAt:put:");
        assert("basicAt:put:"@ =~= seq!['b', 'a', 's', 'i', 'c', 'A', 't', ':', 'p', 'u', 't', ':']);
        assert("basicAt:put:"@.len() == 12 && "basicAt:put:"@[0] == 'b' && "basicAt:put:"@[1] == 'a' && "basicAt:put:"@[2] == 's' && "basicAt:put:"@[3] == 'i' && "basicAt:put:"@[4] == 'c' && "basicAt:put:"@[5] == 'A' && "basicAt:put:"@[6] == 't' && "basicAt:put:"@[7] == ':' && "basicAt:put:"@[8] == 'p' && "basicAt:put:"@[9] == 'u' && "basicAt:put:"@[10] == 't' && "basicAt:put:"@[11] == ':');
        reveal_strlit("next");
        assert("next"@ =~= seq!['n', 'e', 'x', 't']);
        assert("next"@.len() == 4 && "next"@[0] == 'n' && "next"@[1] == 'e' && "next"@[2] == 'x' && "next"@[3] == 't');
        reveal_strlit("nextPut:");
        assert("nextPut:"@ =~= seq!['n', 'e', 'x', 't', 'P', 'u', 't', ':']);
        assert("nextPut:"@.len() == 8 && "nextPut:"@[0] == 'n' && "nextPut:"@[1] == 'e' && "nextPut:"@[2] == 'x' && "nextPut:"@[3] == 't' && "nextPut:"@[4] == 'P' && "nextPut:"@[5] == 'u' && "nextPut:"@[6] == 't' && "nextPut:"@[7] == ':');
        reveal_strlit("nextPutAll:");
        assert("nextPutAll:"@ =~= seq!['n', 'e', 'x', 't', 'P', 'u', 't', 'A', 'l', 'l', ':']);
        assert("nextPutAll:"@.len() == 11 && "nextPutAll:"@[0] == 'n' && "nextPutAll:"@[1] == 'e' && "nextPutAll:"@[2] == 'x' && "nextPutAll:"@[3] == 't' && "nextPutAll:"@[4] == 'P' && "nextPutAll:"@[5] == 'u' && "nextPutAll:"@[6] == 't' && "nextPutAll:"@[7] == 'A' && "nextPutAll:"@[8] == 'l' && "nextPutAll:"@[9] == 'l' && "nextPutAll:"@[10] == ':');
        reveal_strlit("size");
        assert("size"@ =~= seq!['s', 'i', 'z', 'e']);
        assert("size"@.len() == 4 && "size"@[0] == 's' && "size"@[1] == 'i' && "size"@[2] == 'z' && "size"@[3] == 'e');
        reveal_strlit("upTo:");
        assert("upTo:"@ =~= seq!['u', 'p', 'T', 'o', ':']);
        assert("upTo:"@.len() == 5 && "upTo:"@[0] == 'u' && "upTo:"@[1] == 'p' && "upTo:"@[2] == 'T' && "upTo:"@[3] == 'o' && "upTo:"@[4] == ':');
    }
    let ghost h = heap.view();
    proof {
        lemma_grows_refl(h);
    }
    if str_eq(selector, "next") {
        next_element(heap, me, fuel)
    } else if str_eq(selector, "nextPut:") || str_eq(selector, "nextPutAll:") {
        if args.len() == 0 {
            return Err(EvalError::MissingArgument);
        }
        let (buf, idx) = advance(heap, me)?;
        let ghost h1 = heap.view();
        let i = alloc_ok(heap, Obj::Int(IntReceiver::new(idx)))?;
        let ghost h2 = heap.view();
        let mut a: Vec<usize> = Vec::new();
        a.push(i);
        a.push(args[0]);
        let r = crate::send_message(heap, buf, "basicAt:put:", &a, fuel - 1);
        proof {
            lemma_grows_trans(h, h1, h2);
            lemma_grows_trans(h, h2, heap.view());
            assert(a@ =~= seq![h.len() as usize] + seq![args@[0]]);
        }
        r
    } else if str_eq(selector, "atEnd") {
        let (buf, idx) = match heap.get(me) {
            Obj::Stream(s) => (s.buf, s.idx),
            _ => (0, 0),
        };
        let none: Vec<usize> = Vec::new();
        proof {
            assert(none@ =~= Seq::<usize>::empty());
        }
        let n0 = crate::send_message(heap, buf, "size", &none, fuel - 1);
        let ghost h1 = heap.view();
        proof {
            assert(crate::evaluation::witness((h1, n0)));
        }
        let n = match n0 {
            Ok(v) => v,
            Err(e) => {
                return Err(e);
            },
        };
        let size = match int_of(heap, n) {
            Ok(v) => v,
            Err(e) => {
                return Err(e);
            },
        };
        let r = alloc_ok(heap, Obj::Int(IntReceiver::new(if idx < size { 0 } else { 1 })));
        proof {
            lemma_grows_trans(h, h1, heap.view());
        }
        r
    } else if str_eq(selector, "upTo:") {
        let end = int_arg(heap, args, 0)?;
        if !(0 <= end && end <= 0x10FFFF && !(0xD800 <= end && end <= 0xDFFF)) {
            return Err(EvalError::InvalidChar);
        }
        let mut t = String::new();
        let mut budget: u64 = fuel - 1;
        loop
            invariant
                heap_ok(heap.view()),
                crate::runtime::grows(h, heap.view()),
                me < heap.view().len(),
                heap.view()[me as int] is Stream,
                budget < fuel,
            decreases budget,
        {
            if budget == 0 {
                return Err(EvalError::OutOfFuel);
            }
            let ghost h1 = heap.view();
            let e = next_element(heap, me, budget);
            let ghost h2 = heap.view();
            proof {
                lemma_grows_trans(h, h1, h2);
            }
            let e = match e {
                Ok(x) => x,
                Err(err) => {
                    return Err(err);
                },
            };
            let code = int_of(heap, e)?;
            if !(0 <= code && code <= 0x10FFFF && !(0xD800 <= code && code <= 0xDFFF)) {
                return Err(EvalError::InvalidChar);
            }
            if code == end {
                break;
            }
            push_char(&mut t, crate::runtime::char_code(code));
            budget = budget - 1;
        }
        let ghost h1 = heap.view();
        let r = alloc_text(heap, t);
        proof {
            lemma_grows_trans(h, h1, heap.view());
        }
        r
    } else {
        Err(EvalError::NotUnderstood(selector.to_owned()))
    }
}

} // verus!
