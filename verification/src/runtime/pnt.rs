use vstd::prelude::*;

use crate::runtime::integer::{int_arg, IntReceiver};
use crate::runtime::{
    alloc_ok, alloc_text, heap_ok, lemma_grows_refl, lemma_grows_trans, obj_as_int, refs_ok,
    replies_new, step_ok, EvalError, Heap, Obj,
};
use crate::text::{int_text, push_char, push_int, str_eq};

verus! {

/// The class of points.
#[derive(PartialEq, Eq, Structural)]
pub struct PointMetaReceiver;

/// A point `x@y`.
#[derive(PartialEq, Eq, Structural)]
pub struct PointReceiver(pub i64, pub i64);

impl PointReceiver {
    pub fn new(x: i64, y: i64) -> (r: Self)
        ensures
            r.0 == x && r.1 == y,
    {
        PointReceiver(x, y)
    }
}

/// The text of a point: `x@y`.
pub open spec fn point_text(x: int, y: int) -> Seq<char> {
    int_text(x) + seq!['@'] + int_text(y)
}

/// `+` with a point argument: the argument was sent `x` and `y`, and the answer is a new point
/// of the sums; or the argument is missing, answers no integer, or a sum overflows.
pub open spec fn point_added(
    fuel: nat,
    h: Seq<Obj>,
    h2: Seq<Obj>,
    x: i64,
    y: i64,
    args: Seq<usize>,
    r: Result<usize, EvalError>,
) -> bool
    decreases fuel, 0nat, 0nat,
{
    if args.len() == 0 {
        r == Err::<usize, EvalError>(EvalError::MissingArgument) && h2 == h
    } else if fuel == 0 {
        true
    } else {
        let f = (fuel - 1) as nat;
        exists|h1: Seq<Obj>, rx: Result<usize, EvalError>|
            #[trigger] crate::evaluation::witness((h1, rx)) && crate::evaluation::sent(
                f,
                h,
                h1,
                args[0],
                "x"@,
                Seq::empty(),
                rx,
            ) && match rx {
                Err(e) => r == Err::<usize, EvalError>(e) && h2 == h1,
                Ok(xo) => match obj_as_int(h1[xo as int]) {
                    None => r == Err::<usize, EvalError>(EvalError::NotAnInteger) && h2 == h1,
                    Some(ax) => exists|h3: Seq<Obj>, ry: Result<usize, EvalError>|
                        #[trigger] crate::evaluation::witness((h3, ry)) && crate::evaluation::sent(
                            f,
                            h1,
                            h3,
                            args[0],
                            "y"@,
                            Seq::empty(),
                            ry,
                        ) && match ry {
                            Err(e) => r == Err::<usize, EvalError>(e) && h2 == h3,
                            Ok(yo) => match obj_as_int(h3[yo as int]) {
                                None => r == Err::<usize, EvalError>(EvalError::NotAnInteger) && h2 == h3,
                                Some(ay) => if i64::MIN <= x + ax <= i64::MAX && i64::MIN <= y + ay <= i64::MAX {
                                    replies_new(h3, h2, r, Obj::Point(PointReceiver((x + ax) as i64, (y + ay) as i64)))
                                } else {
                                    r == Err::<usize, EvalError>(EvalError::Overflow) && h2 == h3
                                },
                            },
                        },
                },
            }
    }
}

/// What the class of points answers.
pub open spec fn point_meta_reply(h: Seq<Obj>, h2: Seq<Obj>, selector: Seq<char>, args: Seq<usize>, r: Result<usize, EvalError>) -> bool {
    &&& selector == "x:y:"@ && args.len() >= 2 ==> ({
            match (obj_as_int(h[args[0] as int]), obj_as_int(h[args[1] as int])) {
                (Some(x), Some(y)) => replies_new(
                    h,
                    h2,
                    r,
                    Obj::Point(PointReceiver(x as i64, y as i64)),
                ),
                _ => (r is Err && r->Err_0 is NotAnInteger),
            }
    })
    &&& selector != "x:y:"@ ==> (r is Err && r->Err_0 is NotUnderstood)
}

/// `x:y:` makes a point of two integers.
pub fn receive_point_meta(heap: &mut Heap, selector: &str, args: &Vec<usize>) -> (r: Result<
    usize,
    EvalError,
>)
    requires
        heap_ok(old(heap).view()),
        refs_ok(args@, old(heap).view().len()),
    ensures
        step_ok(old(heap).view(), final(heap).view(), r),
        point_meta_reply(old(heap).view(), final(heap).view(), selector@, args@, r),
{
    proof {
        reveal_strlit("x:y:");
        assert("x:y:"@ =~= seq!['x', ':', 'y', ':']);
        assert("x:y:"@.len() == 4 && "x:y:"@[0] == 'x' && "x:y:"@[1] == ':' && "x:y:"@[2] == 'y' && "x:y:"@[3] == ':');
    }
    let ghost h = heap.view();
    proof {
        lemma_grows_refl(h);
    }
    if !str_eq(selector, "x:y:") {
        return Err(EvalError::NotUnderstood(selector.to_owned()));
    }
    let x = int_arg(heap, args, 0)?;
    let y = int_arg(heap, args, 1)?;
    alloc_ok(heap, Obj::Point(PointReceiver::new(x, y)))
}

/// What the point `x@y` answers.
pub open spec fn point_reply(fuel: nat, h: Seq<Obj>, h2: Seq<Obj>, x: i64, y: i64, selector: Seq<char>, args: Seq<usize>, r: Result<usize, EvalError>) -> bool
    decreases fuel, 1nat, 0nat,
{
    &&& selector == "basic_write_to"@ ==> crate::runtime::nil::wrote_text(
        fuel,
        h,
        h2,
        point_text(x as int, y as int),
        args,
        r,
    )
    &&& selector == "+"@ ==> point_added(fuel, h, h2, x, y, args, r)
    &&& selector == "x"@ ==> replies_new(h, h2, r, Obj::Int(IntReceiver(x)))
    &&& selector == "y"@ ==> replies_new(h, h2, r, Obj::Int(IntReceiver(y)))
    &&& !(selector == "x"@ || selector == "y"@ || selector == "+"@ || selector
            == "basic_write_to"@) ==> (r is Err && r->Err_0 is NotUnderstood)
}

/// `x` and `y` give the coordinates; `+` adds the coordinates of the argument, read by
/// sending it `x` and `y`; `basic_write_to` sends `write` with `x@y` to the argument.
pub fn receive_point(heap: &mut Heap, x: i64, y: i64, selector: &str, args: &Vec<usize>, fuel: u64) -> (r:
    Result<usize, EvalError>)
    requires
        heap_ok(old(heap).view()),
        refs_ok(args@, old(heap).view().len()),
        fuel > 0,
    ensures
        step_ok(old(heap).view(), final(heap).view(), r),
        point_reply(fuel as nat, old(heap).view(), final(heap).view(), x, y, selector@, args@, r),
    decreases fuel, 0nat,
{
    proof {
        reveal_strlit("+");
        assert("+"@ =~= seq!['+']);
        assert("+"@.len() == 1 && "+"@[0] == '+');
        reveal_strlit("basic_write_to");
        assert("basic_write_to"@ =~= seq!['b', 'a', 's', 'i', 'c', '_', 'w', 'r', 'i', 't', 'e', '_', 't', 'o']);
        assert("basic_write_to"@.len() == 14 && "basic_write_to"@[0] == 'b' && "basic_write_to"@[1] == 'a' && "basic_write_to"@[2] == 's' && "basic_write_to"@[3] == 'i' && "basic_write_to"@[4] == 'c' && "basic_write_to"@[5] == '_' && "basic_write_to"@[6] == 'w' && "basic_write_to"@[7] == 'r' && "basic_write_to"@[8] == 'i' && "basic_write_to"@[9] == 't' && "basic_write_to"@[10] == 'e' && "basic_write_to"@[11] == '_' && "basic_write_to"@[12] == 't' && "basic_write_to"@[13] == 'o');
        reveal_strlit("write");
        assert("write"@ =~= seq!['w', 'r', 'i', 't', 'e']);
        assert("write"@.len() == 5 && "write"@[0] == 'w' && "write"@[1] == 'r' && "write"@[2] == 'i' && "write"@[3] == 't' && "write"@[4] == 'e');
        reveal_strlit("x");
        assert("x"@ =~= seq!['x']);
        assert("x"@.len() == 1 && "x"@[0] == 'x');
        reveal_strlit("y");
        assert("y"@ =~= seq!['y']);
        assert("y"@.len() == 1 && "y"@[0] == 'y');
    }
    let ghost h = heap.view();
    proof {
        lemma_grows_refl(h);
    }
    if str_eq(selector, "x") {
        alloc_ok(heap, Obj::Int(IntReceiver::new(x)))
    } else if str_eq(selector, "y") {
        alloc_ok(heap, Obj::Int(IntReceiver::new(y)))
    } else if str_eq(selector, "+") {
        if args.len() == 0 {
            return Err(EvalError::MissingArgument);
        }
        let arg = args[0];
        let none: Vec<usize> = Vec::new();
        proof {
            reveal_strlit("x");
            reveal_strlit("y");
            assert(none@ =~= Seq::<usize>::empty());
        }
        let rx0 = crate::send_message(heap, arg, "x", &none, fuel - 1);
        let ghost h1 = heap.view();
        proof {
            assert(crate::evaluation::witness((h1, rx0)));
        }
        let rx = match rx0 {
            Ok(v) => v,
            Err(e) => {
                return Err(e);
            },
        };
        let ax = match crate::runtime::int_of(heap, rx) {
            Ok(v) => v,
            Err(e) => {
                return Err(e);
            },
        };
        let ry = crate::send_message(heap, arg, "y", &none, fuel - 1);
        let ghost h2 = heap.view();
        proof {
            lemma_grows_trans(h, h1, h2);
            assert(crate::evaluation::witness((h2, ry)));
        }
        let ry = match ry {
            Ok(x) => x,
            Err(e) => {
                return Err(e);
            },
        };
        let ay = match crate::runtime::int_of(heap, ry) {
            Ok(v) => v,
            Err(e) => {
                return Err(e);
            },
        };
        match (x.checked_add(ax), y.checked_add(ay)) {
            (Some(nx), Some(ny)) => {
                let r = alloc_ok(heap, Obj::Point(PointReceiver::new(nx, ny)));
                proof {
                    lemma_grows_trans(h, h2, heap.view());
                }
                r
            },
            _ => Err(EvalError::Overflow),
        }
    } else if str_eq(selector, "basic_write_to") {
        if args.len() == 0 {
            return Err(EvalError::MissingArgument);
        }
        let mut t = String::new();
        push_int(&mut t, x);
        push_char(&mut t, '@');
        push_int(&mut t, y);
        assert(t@ =~= point_text(x as int, y as int));
        let s = alloc_text(heap, t)?;
        let ghost h1 = heap.view();
        let mut a: Vec<usize> = Vec::new();
        a.push(s);
        let r = crate::send_message(heap, args[0], "write", &a, fuel - 1);
        proof {
            lemma_grows_trans(h, h1, heap.view());
            assert(a@ =~= seq![h.len() as usize]);
            assert(crate::evaluation::witness(h1));
        }
        r
    } else {
        Err(EvalError::NotUnderstood(selector.to_owned()))
    }
}

} // verus!
