use vstd::prelude::*;

use crate::parser::AST;
use crate::runtime::integer::{IntMetaReceiver, IntReceiver};
use crate::runtime::chr::CharReceiver;
use crate::runtime::nil::NilReciever;
use crate::runtime::pnt::PointMetaReceiver;
use crate::runtime::{replies_new, replies_text, EvalError, Obj};
use crate::{captured_block, lookup, message_reply, Context};

verus! {

/// Names a value as a witness of a claim that some value exists.
pub open spec fn witness<T>(x: T) -> bool {
    true
}

/// The outcome of sending `selector` with `args` to `target` when `fuel` steps are left:
/// out of steps at none, else what the object answers.
pub open spec fn sent(
    fuel: nat,
    h: Seq<Obj>,
    h2: Seq<Obj>,
    target: usize,
    selector: Seq<char>,
    args: Seq<usize>,
    r: Result<usize, EvalError>,
) -> bool
    decreases fuel, 3nat, 0nat,
{
    if fuel == 0 {
        r == Err::<usize, EvalError>(EvalError::OutOfFuel) && h2 == h
    } else {
        message_reply(fuel, h, h2, target, selector, args, r)
    }
}

/// What the variable `name` names in `c`: its binding, else `self`, a new class object for
/// `Point` and `Integer`, or no object.
pub open spec fn variable_value(
    c: Context,
    h: Seq<Obj>,
    h2: Seq<Obj>,
    name: Seq<char>,
    r: Result<usize, EvalError>,
) -> bool {
    match lookup(c.receiver_names@, name) {
        Some(x) => r == Ok::<usize, EvalError>(x) && h2 == h,
        None => if name == "self"@ {
            r == Ok::<usize, EvalError>(c.myself) && h2 == h
        } else if name == "Point"@ {
            replies_new(h, h2, r, Obj::PointMeta(PointMetaReceiver))
        } else if name == "Integer"@ {
            replies_new(h, h2, r, Obj::IntMeta(IntMetaReceiver))
        } else {
            r matches Err(EvalError::UnknownName(m)) && m@ == name && h2 == h
        },
    }
}

/// `c2` is `c` with `name` bound to `v`.
pub open spec fn assigned(c: Context, c2: Context, name: Seq<char>, v: usize) -> bool {
    &&& c2.myself == c.myself
    &&& lookup(c2.receiver_names@, name) == Some(v)
    &&& forall|k: Seq<char>|
        k != name ==> #[trigger] lookup(c2.receiver_names@, k) == lookup(c.receiver_names@, k)
}

/// The answer is a new array of the objects `vals`, or the heap is full.
pub open spec fn replies_array(h: Seq<Obj>, h2: Seq<Obj>, r: Result<usize, EvalError>, vals: Seq<usize>) -> bool {
    ||| r == Ok::<usize, EvalError>(h.len() as usize) && h2.len() == h.len() + 1 && h2.drop_last() == h
        && (h2.last() matches Obj::Array(a) && a.0@ == vals)
    ||| r == Err::<usize, EvalError>(EvalError::HeapFull) && crate::runtime::heap_full(h) && h2 == h
}

/// No tree of `ts` is empty.
pub open spec fn none_empty(ts: Seq<AST>) -> bool {
    forall|i: int| 0 <= i < ts.len() ==> !(#[trigger] ts[i] is Empty)
}

/// The first `n` trees of `ts` evaluate one after the other without error, from context `c`
/// and heap `h` to context `c2` and heap `h2`, and answer `vals`.
pub open spec fn evaluates_all(
    fuel: nat,
    c: Context,
    h: Seq<Obj>,
    ts: Seq<AST>,
    n: nat,
    c2: Context,
    h2: Seq<Obj>,
    vals: Seq<usize>,
) -> bool
    decreases fuel, 5nat, n,
{
    if n == 0 {
        c2 == c && h2 == h && vals.len() == 0
    } else if n > ts.len() {
        false
    } else {
        &&& vals.len() == n
        &&& exists|cm: Context, hm: Seq<Obj>|
            #[trigger] witness((cm, hm)) && evaluates_all(fuel, c, h, ts, (n - 1) as nat, cm, hm, vals.drop_last())
                && evaluates(fuel, cm, hm, ts[n - 1], c2, h2, Ok(vals.last()))
    }
}

/// Evaluating the trees of `ts` one after the other fails at tree `k` with `e`, ending in
/// context `c2` and heap `h2`.
pub open spec fn fails_at(
    fuel: nat,
    c: Context,
    h: Seq<Obj>,
    ts: Seq<AST>,
    k: nat,
    c2: Context,
    h2: Seq<Obj>,
    e: EvalError,
) -> bool
    decreases fuel, 6nat, k,
{
    &&& k < ts.len()
    &&& exists|cm: Context, hm: Seq<Obj>, vals: Seq<usize>|
        #[trigger] witness((cm, hm, vals)) && evaluates_all(fuel, c, h, ts, k, cm, hm, vals) && evaluates(
            fuel,
            cm,
            hm,
            ts[k as int],
            c2,
            h2,
            Err(e),
        )
}

/// Evaluating the arguments `ts` one after the other fails at argument `k` with `e`: it is
/// empty, or its evaluation fails.
pub open spec fn args_fail_at(
    fuel: nat,
    c: Context,
    h: Seq<Obj>,
    ts: Seq<AST>,
    k: nat,
    c2: Context,
    h2: Seq<Obj>,
    e: EvalError,
) -> bool
    decreases fuel, 6nat, k,
{
    &&& k < ts.len()
    &&& none_empty(ts.take(k as int))
    &&& exists|cm: Context, hm: Seq<Obj>, vals: Seq<usize>|
        #[trigger] witness((cm, hm, vals)) && evaluates_all(fuel, c, h, ts, k, cm, hm, vals) && if ts[k as int] is Empty {
            e == EvalError::Unsupported && c2 == cm && h2 == hm
        } else {
            evaluates(fuel, cm, hm, ts[k as int], c2, h2, Err(e))
        }
}

/// The first `n` trees of `msgs` are sent one after the other without error, starting from
/// the receiver `rec0`: each message, with its arguments evaluated in order, goes to the
/// answer so far, and `rec` is the last answer. Trees that are not messages are passed over.
pub open spec fn sends_all(
    fuel: nat,
    c: Context,
    h: Seq<Obj>,
    msgs: Seq<AST>,
    n: nat,
    rec0: usize,
    c2: Context,
    h2: Seq<Obj>,
    rec: usize,
) -> bool
    decreases fuel, 7nat, n,
{
    if n == 0 {
        c2 == c && h2 == h && rec == rec0
    } else if n > msgs.len() {
        false
    } else {
        exists|cm: Context, hm: Seq<Obj>, rm: usize|
            #[trigger] witness((cm, hm, rm)) && sends_all(fuel, c, h, msgs, (n - 1) as nat, rec0, cm, hm, rm) && match msgs[n
                - 1] {
                AST::Message { name, args } => exists|ha: Seq<Obj>, vals: Seq<usize>|
                    #[trigger] witness((ha, vals)) && evaluates_all(fuel, cm, hm, args@, args@.len(), c2, ha, vals)
                        && none_empty(args@) && sent(fuel, ha, h2, rm, name@, vals, Ok(rec)),
                _ => c2 == cm && h2 == hm && rec == rm,
            }
    }
}

/// Sending the trees of `msgs` one after the other from the receiver `rec0` fails at tree
/// `k` with `e`: an argument of that message fails, or the message's answer is `e`.
pub open spec fn sends_fail_at(
    fuel: nat,
    c: Context,
    h: Seq<Obj>,
    msgs: Seq<AST>,
    k: nat,
    rec0: usize,
    c2: Context,
    h2: Seq<Obj>,
    e: EvalError,
) -> bool
    decreases fuel, 8nat, k,
{
    &&& k < msgs.len()
    &&& exists|cm: Context, hm: Seq<Obj>, rm: usize|
        #[trigger] witness((cm, hm, rm)) && sends_all(fuel, c, h, msgs, k, rec0, cm, hm, rm) && match msgs[k as int] {
            AST::Message { name, args } => {
                ||| exists|j: nat| #[trigger] witness(j) && args_fail_at(fuel, cm, hm, args@, j, c2, h2, e)
                ||| exists|ha: Seq<Obj>, vals: Seq<usize>|
                    #[trigger] witness((ha, vals)) && evaluates_all(fuel, cm, hm, args@, args@.len(), c2, ha, vals)
                        && none_empty(args@) && sent(fuel, ha, h2, rm, name@, vals, Err(e))
            },
            _ => false,
        }
}

/// The statements `t` evaluate with `fuel` steps for each: a new nil is made, then each
/// statement is evaluated in turn, and the answer is the value of the last one (the nil where
/// there is none) or the first error.
pub open spec fn statements_evaluate(
    fuel: nat,
    c: Context,
    h: Seq<Obj>,
    t: AST,
    c2: Context,
    h2: Seq<Obj>,
    r: Result<usize, EvalError>,
) -> bool
    decreases fuel, 9nat, 0nat,
{
    match t {
        AST::Statements(s) => {
            ||| r == Err::<usize, EvalError>(EvalError::HeapFull) && crate::runtime::heap_full(h) && c2 == c
                && h2 == h
            ||| {
                let h0 = h.push(Obj::Nil(NilReciever));
                let nil = h.len() as usize;
                ||| exists|vals: Seq<usize>|
                    #[trigger] witness(vals) && evaluates_all(fuel, c, h0, s@, s@.len(), c2, h2, vals) && r == Ok::<
                        usize,
                        EvalError,
                    >(if vals.len() == 0 {
                        nil
                    } else {
                        vals.last()
                    })
                ||| exists|k: nat, e: EvalError|
                    #[trigger] witness((k, e)) && fails_at(fuel, c, h0, s@, k, c2, h2, e) && r == Err::<usize, EvalError>(e)
            }
        },
        _ => false,
    }
}

/// `{ e1. e2 }` evaluates its expressions in turn with `fuel` steps for each and answers a
/// new array of their values, or the first error.
pub open spec fn table_evaluates(
    fuel: nat,
    c: Context,
    h: Seq<Obj>,
    t: AST,
    c2: Context,
    h2: Seq<Obj>,
    r: Result<usize, EvalError>,
) -> bool
    decreases fuel, 9nat, 0nat,
{
    match t {
        AST::Table(v) => {
            ||| exists|k: nat, e: EvalError|
                #[trigger] witness((k, e)) && fails_at(fuel, c, h, v@, k, c2, h2, e) && r == Err::<usize, EvalError>(e)
            ||| exists|hm: Seq<Obj>, vals: Seq<usize>|
                #[trigger] witness((hm, vals)) && evaluates_all(fuel, c, h, v@, v@.len(), c2, hm, vals) && replies_array(
                    hm,
                    h2,
                    r,
                    vals,
                )
        },
        _ => false,
    }
}

/// A message sequence evaluates its target, then sends its messages in turn, each to the
/// answer so far, with `fuel` steps for each part; it answers the last answer or the first
/// error.
pub open spec fn sequence_evaluates(
    fuel: nat,
    c: Context,
    h: Seq<Obj>,
    t: AST,
    c2: Context,
    h2: Seq<Obj>,
    r: Result<usize, EvalError>,
) -> bool
    decreases fuel, 9nat, 0nat,
{
    match t {
        AST::InvokeSequence(target, msgs) => {
            ||| exists|e: EvalError|
                #[trigger] witness(e) && evaluates(fuel, c, h, *target, c2, h2, Err(e)) && r == Err::<usize, EvalError>(e)
            ||| exists|c1: Context, h1: Seq<Obj>, rec0: usize|
                #[trigger] witness((c1, h1, rec0)) && evaluates(fuel, c, h, *target, c1, h1, Ok(rec0)) && {
                    ||| exists|rec: usize|
                        #[trigger] witness(rec) && sends_all(fuel, c1, h1, msgs@, msgs@.len(), rec0, c2, h2, rec)
                            && r == Ok::<usize, EvalError>(rec)
                    ||| exists|k: nat, e: EvalError|
                        #[trigger] witness((k, e)) && sends_fail_at(fuel, c1, h1, msgs@, k, rec0, c2, h2, e) && r == Err::<
                            usize,
                            EvalError,
                        >(e)
                }
        },
        _ => false,
    }
}

/// Evaluating `t` with `fuel` steps left, from context `c` and heap `h`, ends in context `c2`
/// and heap `h2` with the answer `r`. Literals make new objects; a variable names what
/// `variable_value` says; an assignment binds the name to the value of its expression;
/// statements answer the value of the last one, or a new nil where there is none; `{ e }`
/// answers a new array of the values; a message sequence sends its messages to the answers
/// so far; a block captures the variables of `c`. Each part is evaluated with one step less,
/// and the first error ends the evaluation.
pub open spec fn evaluates(
    fuel: nat,
    c: Context,
    h: Seq<Obj>,
    t: AST,
    c2: Context,
    h2: Seq<Obj>,
    r: Result<usize, EvalError>,
) -> bool
    decreases fuel, 4nat, 0nat,
{
    if fuel == 0 {
        r == Err::<usize, EvalError>(EvalError::OutOfFuel) && c2 == c && h2 == h
    } else {
        let f = (fuel - 1) as nat;
        match t {
            AST::Int(n) => c2 == c && replies_new(h, h2, r, Obj::Int(IntReceiver(n))),
            AST::Char(ch) => c2 == c && replies_new(h, h2, r, Obj::Char(CharReceiver(ch))),
            AST::String(s) => c2 == c && replies_text(h, h2, r, s@),
            AST::Return(x) => evaluates(f, c, h, *x, c2, h2, r),
            AST::Variable(name) => c2 == c && variable_value(c, h, h2, name@, r),
            AST::Assign(target, value) => match *target {
                AST::Name(name) => exists|cm: Context|
                    #[trigger] witness(cm) && evaluates(f, c, h, *value, cm, h2, r) && match r {
                        Ok(v) => assigned(cm, c2, name@, v),
                        Err(_) => c2 == cm,
                    },
                _ => r == Err::<usize, EvalError>(EvalError::Unsupported) && c2 == c && h2 == h,
            },
            AST::Statements(_) => statements_evaluate(f, c, h, t, c2, h2, r),
            AST::Table(_) => table_evaluates(f, c, h, t, c2, h2, r),
            AST::InvokeSequence(_, _) => sequence_evaluates(f, c, h, t, c2, h2, r),
            AST::Block { params, temps, body } => c2 == c && match r {
                Ok(x) => x == h.len() as usize && h2.len() == h.len() + 1 && h2.drop_last() == h
                    && captured_block(h2.last(), params@, temps@, *body, c),
                Err(e) => e == EvalError::HeapFull && crate::runtime::heap_full(h) && h2 == h,
            },
            _ => r == Err::<usize, EvalError>(EvalError::Unsupported) && c2 == c && h2 == h,
        }
    }
}

/// One more tree evaluated without error extends the evaluation of the first `n`.
pub proof fn lemma_all_push(
    fuel: nat,
    c: Context,
    h: Seq<Obj>,
    ts: Seq<AST>,
    n: nat,
    cm: Context,
    hm: Seq<Obj>,
    vals: Seq<usize>,
    c2: Context,
    h2: Seq<Obj>,
    x: usize,
)
    requires
        evaluates_all(fuel, c, h, ts, n, cm, hm, vals),
        n < ts.len(),
        evaluates(fuel, cm, hm, ts[n as int], c2, h2, Ok(x)),
    ensures
        evaluates_all(fuel, c, h, ts, n + 1, c2, h2, vals.push(x)),
{
    let m = (n + 1) as nat;
    assert(witness((cm, hm)));
    assert(vals.push(x).drop_last() =~= vals);
    assert(((m - 1) as nat) == n);
    assert(evaluates_all(fuel, c, h, ts, (m - 1) as nat, cm, hm, vals.push(x).drop_last()));
    assert(vals.push(x).last() == x);
    assert(ts[m - 1] == ts[n as int]);
}

/// The evaluation of the first `k` trees without error, then of tree `k` with an error, fails
/// at `k`.
pub proof fn lemma_fails(
    fuel: nat,
    c: Context,
    h: Seq<Obj>,
    ts: Seq<AST>,
    k: nat,
    cm: Context,
    hm: Seq<Obj>,
    vals: Seq<usize>,
    c2: Context,
    h2: Seq<Obj>,
    e: EvalError,
)
    requires
        evaluates_all(fuel, c, h, ts, k, cm, hm, vals),
        k < ts.len(),
        evaluates(fuel, cm, hm, ts[k as int], c2, h2, Err(e)),
    ensures
        fails_at(fuel, c, h, ts, k, c2, h2, e),
{
    assert(witness((cm, hm, vals)));
}

/// The evaluation of the first `k` arguments without error, then an empty argument `k` or an
/// error at argument `k`, fails at `k`.
pub proof fn lemma_args_fail(
    fuel: nat,
    c: Context,
    h: Seq<Obj>,
    ts: Seq<AST>,
    k: nat,
    cm: Context,
    hm: Seq<Obj>,
    vals: Seq<usize>,
    c2: Context,
    h2: Seq<Obj>,
    e: EvalError,
)
    requires
        evaluates_all(fuel, c, h, ts, k, cm, hm, vals),
        k < ts.len(),
        none_empty(ts.take(k as int)),
        if ts[k as int] is Empty {
            e == EvalError::Unsupported && c2 == cm && h2 == hm
        } else {
            evaluates(fuel, cm, hm, ts[k as int], c2, h2, Err(e))
        },
    ensures
        args_fail_at(fuel, c, h, ts, k, c2, h2, e),
{
    assert(witness((cm, hm, vals)));
}

/// Sending one more tree after the first `n` without error: a message whose arguments
/// evaluate and whose answer is `rec`, or a tree that is passed over.
pub proof fn lemma_sends_push(
    fuel: nat,
    c: Context,
    h: Seq<Obj>,
    msgs: Seq<AST>,
    n: nat,
    rec0: usize,
    cm: Context,
    hm: Seq<Obj>,
    rm: usize,
    c2: Context,
    h2: Seq<Obj>,
    rec: usize,
)
    requires
        sends_all(fuel, c, h, msgs, n, rec0, cm, hm, rm),
        n < msgs.len(),
        match msgs[n as int] {
            AST::Message { name, args } => exists|ha: Seq<Obj>, vals: Seq<usize>|
                #[trigger] witness((ha, vals)) && evaluates_all(fuel, cm, hm, args@, args@.len(), c2, ha, vals) && none_empty(
                    args@,
                ) && sent(fuel, ha, h2, rm, name@, vals, Ok(rec)),
            _ => c2 == cm && h2 == hm && rec == rm,
        },
    ensures
        sends_all(fuel, c, h, msgs, n + 1, rec0, c2, h2, rec),
{
    let m = (n + 1) as nat;
    assert(witness((cm, hm, rm)));
    assert(((m - 1) as nat) == n);
    assert(sends_all(fuel, c, h, msgs, (m - 1) as nat, rec0, cm, hm, rm));
    assert(msgs[m - 1] == msgs[n as int]);
}

/// Sending fails at tree `k` after the first `k` were sent without error.
pub proof fn lemma_sends_fail(
    fuel: nat,
    c: Context,
    h: Seq<Obj>,
    msgs: Seq<AST>,
    k: nat,
    rec0: usize,
    cm: Context,
    hm: Seq<Obj>,
    rm: usize,
    c2: Context,
    h2: Seq<Obj>,
    e: EvalError,
)
    requires
        sends_all(fuel, c, h, msgs, k, rec0, cm, hm, rm),
        k < msgs.len(),
        match msgs[k as int] {
            AST::Message { name, args } => {
                ||| exists|j: nat| #[trigger] witness(j) && args_fail_at(fuel, cm, hm, args@, j, c2, h2, e)
                ||| exists|ha: Seq<Obj>, vals: Seq<usize>|
                    #[trigger] witness((ha, vals)) && evaluates_all(fuel, cm, hm, args@, args@.len(), c2, ha, vals)
                        && none_empty(args@) && sent(fuel, ha, h2, rm, name@, vals, Err(e))
            },
            _ => false,
        },
    ensures
        sends_fail_at(fuel, c, h, msgs, k, rec0, c2, h2, e),
{
    assert(witness((cm, hm, rm)));
}

/// A table answers a new array with one element for each of its expressions, in order:
/// element `i` is what expression `i` answered when the expressions were evaluated one after
/// the other.
pub proof fn law_table_array(
    fuel: nat,
    c: Context,
    h: Seq<Obj>,
    v: Vec<AST>,
    c2: Context,
    h2: Seq<Obj>,
    x: usize,
)
    requires
        table_evaluates(fuel, c, h, AST::Table(v), c2, h2, Ok(x)),
        h2.len() <= usize::MAX,
    ensures
        x < h2.len(),
        h2[x as int] matches Obj::Array(a) && a.0@.len() == v@.len() && exists|hm: Seq<Obj>|
            #[trigger] witness(hm) && evaluates_all(fuel, c, h, v@, v@.len(), c2, hm, a.0@) && x == hm.len(),
{
    let (hm, vals) = choose|hm: Seq<Obj>, vals: Seq<usize>|
        #[trigger] witness((hm, vals)) && evaluates_all(fuel, c, h, v@, v@.len(), c2, hm, vals)
            && replies_array(hm, h2, Ok(x), vals);
    assert(h2[x as int] == h2.last());
    assert(witness(hm));
}

} // verus!
