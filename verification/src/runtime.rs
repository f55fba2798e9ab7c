use vstd::prelude::*;

use crate::parser::{all_digits, digits_value, is_digit, lemma_digits_grow, same_ast, SyntaxError};
use crate::text::{chars_of, push_char};
use crate::code::{CompiledBlock, CompiledMethod};
use crate::{Context, MethodContext};
use self::arr::ArrayReceiver;
use self::blk::BlockReceiver;
use self::boo::{FalseReceiver, TrueReceiver};
use self::chr::CharReceiver;
use self::integer::{IntMetaReceiver, IntReceiver};
use self::nil::NilReciever;
use self::pnt::{PointMetaReceiver, PointReceiver};
use self::stm::StreamReceiver;
use self::str::{StringMetaReceiver, StringReceiver};

pub mod arr;
pub mod blk;
pub mod boo;
pub mod chr;
pub mod integer;
pub mod nil;
pub mod pnt;
pub mod sel;
pub mod stm;
pub mod str;

verus! {

/// Why an evaluation stopped.
#[derive(Debug)]
pub enum EvalError {
    /// The receiver has no method for the selector.
    NotUnderstood(String),
    /// A message came with fewer arguments than its method reads.
    MissingArgument,
    /// A value that has to be read as an integer is none.
    NotAnInteger,
    /// A value that has to be read as a text is none.
    NotAText,
    /// An integer result does not fit in 64 bits.
    Overflow,
    /// An index lies outside a string or an array.
    IndexOutOfRange,
    /// An integer is no character code.
    InvalidChar,
    /// A variable that is neither defined nor a known global.
    UnknownName(String),
    /// A syntax tree node that is not evaluated.
    Unsupported,
    /// A block was sent `value:` or `value:value:` with another number of parameters.
    WrongArity,
    /// The evaluation took more steps than it was given.
    OutOfFuel,
    /// The heap holds as many objects as an index can name.
    HeapFull,
    /// The text is no script.
    Syntax(SyntaxError),
    /// The script cannot be compiled.
    Compile(crate::code::CompileError),
}

/// An object of the heap. Each kind of receiver is one variant.
pub enum Obj {
    Nil(NilReciever),
    True(TrueReceiver),
    False(FalseReceiver),
    Int(IntReceiver),
    IntMeta(IntMetaReceiver),
    Point(PointReceiver),
    PointMeta(PointMetaReceiver),
    Char(CharReceiver),
    Str(StringReceiver),
    StrMeta(StringMetaReceiver),
    Stream(StreamReceiver),
    Array(ArrayReceiver),
    Block(BlockReceiver),
    CompiledBlock(CompiledBlock),
}

/// The objects that an evaluation creates. An object is named by its index, which stays
/// valid: objects are only added, never removed. A heap also holds the compiled method that
/// runs on it and that method's frame.
pub struct Heap {
    pub objs: Vec<Obj>,
    pub method: CompiledMethod,
    pub frame: MethodContext,
}

/// Every object that `o` refers to lies below `n`.
pub open spec fn obj_refs_ok(o: Obj, n: nat) -> bool {
    match o {
        Obj::Stream(s) => s.buf < n,
        Obj::Array(a) => forall|i: int| 0 <= i < a.0@.len() ==> #[trigger] a.0@[i] < n,
        Obj::Block(b) => crate::ctx_ok(b.ctx, n),
        _ => true,
    }
}

/// Every reference held by an object of the heap names an object of the heap.
pub open spec fn heap_ok(h: Seq<Obj>) -> bool {
    forall|i: int| 0 <= i < h.len() ==> obj_refs_ok(#[trigger] h[i], h.len())
}

/// What can change of an object: the text of a string, the position of a stream and the
/// variables of a block. Everything else is fixed once the object exists.
pub open spec fn stable(a: Obj, b: Obj) -> bool {
    match (a, b) {
        (Obj::Nil(_), Obj::Nil(_)) => true,
        (Obj::True(_), Obj::True(_)) => true,
        (Obj::False(_), Obj::False(_)) => true,
        (Obj::Int(x), Obj::Int(y)) => x == y,
        (Obj::IntMeta(_), Obj::IntMeta(_)) => true,
        (Obj::Point(x), Obj::Point(y)) => x == y,
        (Obj::PointMeta(_), Obj::PointMeta(_)) => true,
        (Obj::Char(x), Obj::Char(y)) => x == y,
        (Obj::Str(_), Obj::Str(_)) => true,
        (Obj::StrMeta(_), Obj::StrMeta(_)) => true,
        (Obj::Stream(x), Obj::Stream(y)) => x.buf == y.buf,
        (Obj::Array(x), Obj::Array(y)) => x.0@ == y.0@,
        (Obj::CompiledBlock(x), Obj::CompiledBlock(y)) => x == y,
        (Obj::Block(x), Obj::Block(y)) => x.params@ == y.params@ && x.temps@ == y.temps@
            && same_ast(*x.body, *y.body) && x.ctx.myself == y.ctx.myself,
        _ => false,
    }
}

/// `new` is `old` with objects added and only what may change of an object changed.
pub open spec fn grows(old: Seq<Obj>, new: Seq<Obj>) -> bool {
    &&& old.len() <= new.len()
    &&& forall|i: int| 0 <= i < old.len() ==> stable(#[trigger] old[i], new[i])
}

pub proof fn lemma_stable_refl(o: Obj)
    ensures
        stable(o, o),
{
    if let Obj::Block(b) = o {
        crate::parser::lemma_same_ast_refl(*b.body);
    }
}

pub proof fn lemma_stable_trans(a: Obj, b: Obj, c: Obj)
    requires
        stable(a, b),
        stable(b, c),
    ensures
        stable(a, c),
{
    if let Obj::Block(x) = a {
        if let Obj::Block(y) = b {
            if let Obj::Block(z) = c {
                crate::parser::lemma_same_ast_trans(*x.body, *y.body, *z.body);
            }
        }
    }
}

/// Growth is reflexive.
pub proof fn lemma_grows_refl(h: Seq<Obj>)
    ensures
        grows(h, h),
{
    assert forall|i: int| 0 <= i < h.len() implies stable(#[trigger] h[i], h[i]) by {
        lemma_stable_refl(h[i]);
    }
}

/// Growth is transitive: what an evaluation keeps fixed stays fixed over any number of
/// evaluations.
pub proof fn lemma_grows_trans(a: Seq<Obj>, b: Seq<Obj>, c: Seq<Obj>)
    requires
        grows(a, b),
        grows(b, c),
    ensures
        grows(a, c),
{
    assert forall|i: int| 0 <= i < a.len() implies stable(#[trigger] a[i], c[i]) by {
        lemma_stable_trans(a[i], b[i], c[i]);
    }
}

/// References that were valid stay valid as the heap grows.
pub proof fn lemma_refs_grow(o: Obj, n: nat, m: nat)
    requires
        obj_refs_ok(o, n),
        n <= m,
    ensures
        obj_refs_ok(o, m),
{
    if let Obj::Block(b) = o {
        crate::lemma_ctx_grows(b.ctx, n, m);
    }
}

impl Heap {
    /// The objects, by index.
    pub open spec fn view(&self) -> Seq<Obj> {
        self.objs@
    }

    /// An empty heap with an empty method.
    pub fn new() -> (h: Heap)
        ensures
            h.view() == Seq::<Obj>::empty(),
    {
        Heap { objs: Vec::new(), method: CompiledMethod::new(), frame: MethodContext::new() }
    }

    /// An empty heap on which `method` runs in `frame`.
    pub fn with_method(method: CompiledMethod, frame: MethodContext) -> (h: Heap)
        ensures
            h.view() == Seq::<Obj>::empty(),
            h.method == method,
            h.frame == frame,
    {
        Heap { objs: Vec::new(), method, frame }
    }

    pub fn len(&self) -> (n: usize)
        ensures
            n == self.view().len(),
    {
        self.objs.len()
    }

    /// The integer read from the object named `r`, where there is one.
    pub fn as_int(&self, r: usize) -> (res: Option<i64>)
        ensures
            r < self.view().len() ==> match res {
                Some(v) => obj_as_int(self.view()[r as int]) == Some(v as int),
                None => obj_as_int(self.view()[r as int]) is None,
            },
    {
        if r >= self.objs.len() {
            return None;
        }
        match int_of(self, r) {
            Ok(v) => Some(v),
            Err(_) => None,
        }
    }

    /// The text read from the object named `r`, where there is one.
    pub fn as_str(&self, r: usize) -> (res: Option<String>)
        ensures
            r < self.view().len() ==> match res {
                Some(t) => obj_as_text(self.view()[r as int]) == Some(t@),
                None => obj_as_text(self.view()[r as int]) is None,
            },
    {
        if r >= self.objs.len() {
            return None;
        }
        match text_of(self, r) {
            Ok(t) => Some(t),
            Err(_) => None,
        }
    }

    /// The object named `r`.
    pub fn get(&self, r: usize) -> (o: &Obj)
        requires
            r < self.view().len(),
        ensures
            *o == self.view()[r as int],
    {
        &self.objs[r]
    }

    /// Adds an object and returns its name; fails where the heap holds as many objects as
    /// an index can name.
    pub fn add_object(&mut self, o: Obj) -> (r: Result<usize, EvalError>)
        ensures
            match r {
                Ok(i) => i == old(self).view().len() && final(self).view() == old(
                    self,
                ).view().push(o),
                Err(e) => e is HeapFull && heap_full(old(self).view()) && final(self).view() == old(self).view(),
            },
            old(self).view().len() < usize::MAX - 1 ==> r is Ok,
            final(self).method == old(self).method,
            final(self).frame == old(self).frame,
    {
        if self.objs.len() >= usize::MAX - 1 {
            return Err(EvalError::HeapFull);
        }
        self.objs.push(o);
        Ok(self.objs.len() - 1)
    }

    /// Replaces the object named `r`.
    pub fn set(&mut self, r: usize, o: Obj)
        requires
            r < old(self).view().len(),
        ensures
            final(self).view() == old(self).view().update(r as int, o),
            final(self).method == old(self).method,
            final(self).frame == old(self).frame,
    {
        self.objs.set(r, o);
    }
}

/// Adding an object whose references are valid keeps the heap valid and grows it.
pub proof fn lemma_alloc_ok(h: Seq<Obj>, o: Obj)
    requires
        heap_ok(h),
        obj_refs_ok(o, h.len() + 1),
    ensures
        heap_ok(h.push(o)),
        grows(h, h.push(o)),
{
    assert forall|i: int| 0 <= i < h.push(o).len() implies obj_refs_ok(
        #[trigger] h.push(o)[i],
        h.push(o).len(),
    ) by {
        if i < h.len() {
            lemma_refs_grow(h[i], h.len(), h.len() + 1);
        }
    }
    assert forall|i: int| 0 <= i < h.len() implies stable(#[trigger] h[i], h.push(o)[i]) by {
        lemma_stable_refl(h[i]);
    }
}

/// Replacing an object by a stable one with valid references keeps the heap valid and
/// grows it.
pub proof fn lemma_update_ok(h: Seq<Obj>, r: int, o: Obj)
    requires
        heap_ok(h),
        0 <= r < h.len(),
        obj_refs_ok(o, h.len()),
        stable(h[r], o),
    ensures
        heap_ok(h.update(r, o)),
        grows(h, h.update(r, o)),
{
    assert forall|i: int| 0 <= i < h.len() implies stable(#[trigger] h[i], h.update(r, o)[i]) by {
        if i != r {
            lemma_stable_refl(h[i]);
        }
    }
}


/// The value of a decimal text with an optional sign, where it fits in an `i64`.
pub open spec fn text_int(s: Seq<char>) -> Option<int> {
    let neg = s.len() > 0 && s[0] == '-';
    let start: int = if s.len() > 0 && (s[0] == '-' || s[0] == '+') {
        1
    } else {
        0
    };
    let digits = s.subrange(start, s.len() as int);
    if digits.len() == 0 || !all_digits(digits, 0, digits.len() as int) {
        None
    } else {
        let v = if neg {
            -digits_value(digits)
        } else {
            digits_value(digits)
        };
        if i64::MIN <= v <= i64::MAX {
            Some(v)
        } else {
            None
        }
    }
}

/// The integer an object stands for where one is read from it: integers, booleans (1 and
/// 0), characters (their code) and strings holding a decimal number.
pub open spec fn obj_as_int(o: Obj) -> Option<int> {
    match o {
        Obj::Int(i) => Some(i.0 as int),
        Obj::True(_) => Some(1),
        Obj::False(_) => Some(0),
        Obj::Char(c) => Some(c.0 as int),
        Obj::Str(s) => text_int(s.val@),
        _ => None,
    }
}

/// The text an object stands for where one is read from it.
pub open spec fn obj_as_text(o: Obj) -> Option<Seq<char>> {
    match o {
        Obj::Str(s) => Some(s.val@),
        Obj::True(_) => Some(seq!['T', 'r', 'u', 'e']),
        Obj::False(_) => Some(seq!['F', 'a', 'l', 's', 'e']),
        Obj::Char(c) => Some(seq![c.0]),
        _ => None,
    }
}

/// The value of a decimal text with an optional sign, where it fits in an `i64`.
pub fn parse_decimal(s: &str) -> (r: Option<i64>)
    ensures
        match r {
            Some(v) => text_int(s@) == Some(v as int),
            None => text_int(s@) is None,
        },
{
    let v = chars_of(s);
    let n = v.len();
    let neg = n > 0 && v[0] == '-';
    let start: usize = if n > 0 && (v[0] == '-' || v[0] == '+') {
        1
    } else {
        0
    };
    let ghost digits = s@.subrange(start as int, n as int);
    if start == n {
        return None;
    }
    let mut acc: i64 = 0;
    let mut i: usize = start;
    while i < n
        invariant
            v@ == s@,
            n == v@.len(),
            start < n,
            start <= i <= n,
            start == (if s@.len() > 0 && (s@[0] == '-' || s@[0] == '+') { 1int } else { 0int }),
            neg == (s@.len() > 0 && s@[0] == '-'),
            digits == v@.subrange(start as int, n as int),
            all_digits(v@.subrange(start as int, i as int), 0, i - start),
            acc == if neg {
                -digits_value(v@.subrange(start as int, i as int))
            } else {
                digits_value(v@.subrange(start as int, i as int))
            },
        decreases n - i,
    {
        let c = v[i];
        if !('0' <= c && c <= '9') {
            assert(!is_digit(digits[i - start]));
            return None;
        }
        let d: i64 = (c as u32 - '0' as u32) as i64;
        let ghost next_prefix = v@.subrange(start as int, i + 1);
        assert(next_prefix.drop_last() =~= v@.subrange(start as int, i as int));
        assert(all_digits(next_prefix, 0, i + 1 - start));
        assert(digits_value(next_prefix) == digits_value(v@.subrange(start as int, i as int)) * 10
            + d);
        let next = if neg {
            match acc.checked_mul(10) {
                Some(m) => m.checked_sub(d),
                None => None,
            }
        } else {
            match acc.checked_mul(10) {
                Some(m) => m.checked_add(d),
                None => None,
            }
        };
        match next {
            Some(x) => {
                acc = x;
            },
            None => {
                proof {
                    if all_digits(digits, 0, digits.len() as int) {
                        lemma_digits_grow(digits, i + 1 - start);
                        assert(digits.take(i + 1 - start) =~= next_prefix);
                    }
                }
                return None;
            },
        }
        i = i + 1;
    }
    assert(v@.subrange(start as int, n as int) =~= digits);
    Some(acc)
}

/// The integer read from the object named `r`; `NotAnInteger` where none is.
pub fn int_of(heap: &Heap, r: usize) -> (res: Result<i64, EvalError>)
    requires
        r < heap.view().len(),
    ensures
        match res {
            Ok(v) => obj_as_int(heap.view()[r as int]) == Some(v as int),
            Err(e) => obj_as_int(heap.view()[r as int]) is None && e is NotAnInteger,
        },
{
    match heap.get(r) {
        Obj::Int(i) => Ok(i.0),
        Obj::True(_) => Ok(1),
        Obj::False(_) => Ok(0),
        Obj::Char(c) => Ok(c.0 as u32 as i64),
        Obj::Str(s) => match parse_decimal(s.val.as_str()) {
            Some(v) => Ok(v),
            None => Err(EvalError::NotAnInteger),
        },
        _ => Err(EvalError::NotAnInteger),
    }
}

/// The text read from the object named `r`; `NotAText` where none is.
pub fn text_of(heap: &Heap, r: usize) -> (res: Result<String, EvalError>)
    requires
        r < heap.view().len(),
    ensures
        match res {
            Ok(t) => obj_as_text(heap.view()[r as int]) == Some(t@),
            Err(e) => obj_as_text(heap.view()[r as int]) is None && e is NotAText,
        },
{
    match heap.get(r) {
        Obj::Str(s) => Ok(s.val.clone()),
        Obj::True(_) => {
            let t = String::from_str("True");
            proof {
                reveal_strlit("True");
            }
            assert(t@ =~= seq!['T', 'r', 'u', 'e']);
            Ok(t)
        },
        Obj::False(_) => {
            let t = String::from_str("False");
            proof {
                reveal_strlit("False");
            }
            assert(t@ =~= seq!['F', 'a', 'l', 's', 'e']);
            Ok(t)
        },
        Obj::Char(c) => {
            let mut t = String::new();
            push_char(&mut t, c.0);
            assert(t@ =~= seq![c.0]);
            Ok(t)
        },
        _ => Err(EvalError::NotAText),
    }
}


/// Every name in `args` is an object of a heap of `n` objects.
pub open spec fn refs_ok(args: Seq<usize>, n: nat) -> bool {
    forall|i: int| 0 <= i < args.len() ==> #[trigger] args[i] < n
}

/// What every evaluation step keeps: the heap stays valid, objects are only added or
/// changed where they may change, and a result names an object of the heap.
pub open spec fn step_ok(old: Seq<Obj>, new: Seq<Obj>, r: Result<usize, EvalError>) -> bool {
    &&& heap_ok(new)
    &&& grows(old, new)
    &&& r matches Ok(x) ==> x < new.len()
}

/// The heap holds as many objects as an index can name.
pub open spec fn heap_full(h: Seq<Obj>) -> bool {
    h.len() >= usize::MAX - 1
}

/// The reply is a new object `o`, added at the end of the heap, or the heap is full.
pub open spec fn replies_new(old: Seq<Obj>, new: Seq<Obj>, r: Result<usize, EvalError>, o: Obj) -> bool {
    ||| r == Ok::<usize, EvalError>(old.len() as usize) && new == old.push(o)
    ||| (r is Err && r->Err_0 is HeapFull) && heap_full(old) && new == old
}

/// The reply is a new string holding `t`, or the heap is full.
pub open spec fn replies_text(old: Seq<Obj>, new: Seq<Obj>, r: Result<usize, EvalError>, t: Seq<char>) -> bool {
    ||| r == Ok::<usize, EvalError>(old.len() as usize) && new.len() == old.len() + 1 && new.drop_last()
        == old && new.last() is Str && new.last()->Str_0.val@ == t
    ||| (r is Err && r->Err_0 is HeapFull) && heap_full(old) && new == old
}

/// The boolean object for `b`.
pub open spec fn bool_obj(b: bool) -> Obj {
    if b {
        Obj::True(TrueReceiver)
    } else {
        Obj::False(FalseReceiver)
    }
}

/// Adds an object whose references are valid.
pub fn alloc_ok(heap: &mut Heap, o: Obj) -> (r: Result<usize, EvalError>)
    requires
        heap_ok(old(heap).view()),
        obj_refs_ok(o, old(heap).view().len() + 1),
    ensures
        step_ok(old(heap).view(), final(heap).view(), r),
        replies_new(old(heap).view(), final(heap).view(), r, o),
        old(heap).view().len() < usize::MAX - 1 ==> r is Ok,
        final(heap).method == old(heap).method,
        final(heap).frame == old(heap).frame,
{
    let ghost h = heap.view();
    proof {
        lemma_alloc_ok(h, o);
        lemma_grows_refl(h);
    }
    heap.add_object(o)
}

/// Adds a string object.
pub fn alloc_text(heap: &mut Heap, t: String) -> (r: Result<usize, EvalError>)
    requires
        heap_ok(old(heap).view()),
    ensures
        step_ok(old(heap).view(), final(heap).view(), r),
        replies_text(old(heap).view(), final(heap).view(), r, t@),
        old(heap).view().len() < usize::MAX - 1 ==> r is Ok,
        final(heap).method == old(heap).method,
        final(heap).frame == old(heap).frame,
{
    let ghost h = heap.view();
    let o = Obj::Str(StringReceiver { val: t });
    let r = alloc_ok(heap, o);
    proof {
        if r is Ok {
            assert(heap.view().drop_last() =~= h);
        }
    }
    r
}

/// Adds the boolean object for `b`.
pub fn alloc_bool(heap: &mut Heap, b: bool) -> (r: Result<usize, EvalError>)
    requires
        heap_ok(old(heap).view()),
    ensures
        step_ok(old(heap).view(), final(heap).view(), r),
        replies_new(old(heap).view(), final(heap).view(), r, bool_obj(b)),
{
    if b {
        alloc_ok(heap, Obj::True(TrueReceiver::get()))
    } else {
        alloc_ok(heap, Obj::False(FalseReceiver::get()))
    }
}


/// The character with the code `code`; a wrapper of `char::from_u32`, which std documents
/// as giving the character of a code that is a Unicode scalar value.
#[verifier::external_body]
pub fn char_code(code: i64) -> (c: char)
    requires
        crate::runtime::chr::is_char_code(code as int),
    ensures
        c as int == code,
{
    char::from_u32(code as u32).unwrap()
}


/// Where an instruction finds a value.
#[derive(Debug)]
pub enum Address {
    Instance(i32),
    Temporary(i32),
    Literal(Literal),
    Receiver,
    Super,
}

/// A constant of a procedure.
#[derive(Debug)]
pub enum Literal {
    String(String),
    Int64(i64),
    Int8(i8),
    U8(u8),
    U64(u64),
}

/// An instruction of a procedure.
#[derive(Debug)]
pub enum Instruction {
    Return(Address),
}

/// How an object answers messages: `Nil` and `Str` answer the object itself, `String` a new
/// string object "...".
#[derive(Clone, Copy, PartialEq, Eq, Structural, Debug)]
pub enum Handler {
    Nil,
    Str,
    String,
}

/// A shared reference to an object.
#[derive(Clone)]
pub struct ObjectPtr {
    ptr: std::sync::Arc<Object>,
}

/// An object: its handler, its variables and the literal it holds.
pub struct Object {
    data: ObjectData,
}

struct ObjectData {
    handler: Handler,
    vars: Vec<ObjectPtr>,
    literal: Option<Literal>,
}

/// The text of a string literal.
pub open spec fn literal_text(l: Option<Literal>) -> Option<Seq<char>> {
    match l {
        Some(Literal::String(s)) => Some(s@),
        _ => None,
    }
}

impl Object {
    pub closed spec fn spec_handler(&self) -> Handler {
        self.data.handler
    }

    pub closed spec fn spec_vars(&self) -> Seq<ObjectPtr> {
        self.data.vars@
    }

    pub closed spec fn spec_text(&self) -> Option<Seq<char>> {
        literal_text(self.data.literal)
    }

    /// A new object without variables or literal, answering as `Nil`.
    pub fn new() -> (r: ObjectPtr)
        ensures
            r.spec_handler() == Handler::Nil,
            r.spec_vars().len() == 0,
            r.spec_text() is None,
    {
        Object::new_with_handler(Handler::Nil)
    }

    /// A new object without variables or literal, answering by `handler`.
    pub fn new_with_handler(handler: Handler) -> (r: ObjectPtr)
        ensures
            r.spec_handler() == handler,
            r.spec_vars().len() == 0,
            r.spec_text() is None,
    {
        ObjectPtr {
            ptr: std::sync::Arc::new(
                Object { data: ObjectData { handler, vars: Vec::new(), literal: None } },
            ),
        }
    }

    /// A new object holding the string `s`, answering as `Nil`.
    pub fn new_string(s: &str) -> (r: ObjectPtr)
        ensures
            r.spec_handler() == Handler::Nil,
            r.spec_vars().len() == 0,
            r.spec_text() == Some(s@),
    {
        ObjectPtr {
            ptr: std::sync::Arc::new(
                Object {
                    data: ObjectData {
                        handler: Handler::Nil,
                        vars: Vec::new(),
                        literal: Some(Literal::String(s.to_owned())),
                    },
                },
            ),
        }
    }
}

impl ObjectPtr {
    pub closed spec fn spec_handler(&self) -> Handler {
        self.ptr.spec_handler()
    }

    pub closed spec fn spec_vars(&self) -> Seq<ObjectPtr> {
        self.ptr.spec_vars()
    }

    pub closed spec fn spec_text(&self) -> Option<Seq<char>> {
        self.ptr.spec_text()
    }

    /// Another reference to the same object.
    pub fn share(&self) -> (r: ObjectPtr)
        ensures
            r == *self,
    {
        ObjectPtr { ptr: share_arc(&self.ptr) }
    }

    /// Sends a message: the object's handler answers it (see `Handler`).
    pub fn send(&self, selector: &str, args: &[ObjectPtr]) -> (r: ObjectPtr)
        ensures
            self.spec_handler() != Handler::String ==> r == *self,
            self.spec_handler() == Handler::String ==> r.spec_handler() == Handler::Nil
                && r.spec_vars().len() == 0 && r.spec_text() == Some("..."@),
    {
        let handler = self.ptr.data.handler;
        match handler {
            Handler::Nil => nil_handler(selector, self.share(), args),
            Handler::Str => str_handler(selector, self.share(), args),
            Handler::String => string_handler(selector, self.share(), args),
        }
    }

    /// The two references name the same object.
    pub fn same(&self, other: &ObjectPtr) -> (r: bool)
        ensures
            r ==> *self == *other,
    {
        same_allocation(&self.ptr, &other.ptr)
    }
}

/// Another `Arc` to the same allocation; a wrapper of `Arc::clone`, which std documents as
/// making a clone of the pointer that points to the same allocation, so to the same value.
#[verifier::external_body]
fn share_arc(a: &std::sync::Arc<Object>) -> (r: std::sync::Arc<Object>)
    ensures
        r == *a,
{
    std::sync::Arc::clone(a)
}

/// Whether two `Arc`s point to the same allocation; a wrapper of `Arc::ptr_eq`, which std
/// documents as returning true if the two point to the same allocation. Where they do, they
/// point to the same value.
#[verifier::external_body]
fn same_allocation(a: &std::sync::Arc<Object>, b: &std::sync::Arc<Object>) -> (r: bool)
    ensures
        r ==> *a == *b,
{
    std::sync::Arc::ptr_eq(a, b)
}

/// Access to what an object holds.
pub trait ObjectInternals {
    /// The string the object holds, if any.
    spec fn text(&self) -> Option<Seq<char>>;

    /// The string the object holds, if any.
    fn as_str(&self) -> (r: Option<String>)
        ensures
            match r {
                Some(s) => self.text() == Some(s@),
                None => self.text() is None,
            },
    ;
}

impl ObjectInternals for Object {
    open spec fn text(&self) -> Option<Seq<char>> {
        self.spec_text()
    }

    fn as_str(&self) -> (r: Option<String>) {
        match &self.data.literal {
            Some(Literal::String(s)) => Some(s.clone()),
            _ => None,
        }
    }
}

impl ObjectInternals for ObjectPtr {
    open spec fn text(&self) -> Option<Seq<char>> {
        self.spec_text()
    }

    fn as_str(&self) -> (r: Option<String>) {
        self.ptr.as_str()
    }
}

/// A procedure: its number of slots and its instructions.
pub struct Procedure {
    pub slot_count: i32,
    pub instructions: Vec<Instruction>,
}

/// The machine: its nil object.
pub struct Machine {
    pub nil: ObjectPtr,
}

impl Machine {
    pub fn new() -> (m: Machine)
        ensures
            m.nil.spec_handler() == Handler::Nil,
            m.nil.spec_vars().len() == 0,
            m.nil.spec_text() is None,
    {
        let nil = Object::new();
        Machine { nil }
    }
}

/// The activation of a procedure on a receiver.
pub struct Frame<'a> {
    pub machine: &'a Machine,
    pub receiver: ObjectPtr,
    pub next_instruction: usize,
    pub locals: Vec<ObjectPtr>,
    pub proc: Box<Procedure>,
    pub result: ObjectPtr,
}

impl<'a> Frame<'a> {
    /// A frame at the first instruction, with one nil local per slot after the first and nil
    /// as its result.
    pub fn new(m: &'a Machine, receiver: ObjectPtr, proc: Box<Procedure>) -> (f: Frame<'a>)
        ensures
            f.machine == m,
            f.receiver == receiver,
            f.next_instruction == 0,
            f.locals@.len() == (if proc.slot_count >= 1 {
                proc.slot_count - 1
            } else {
                0
            }),
            forall|i: int| 0 <= i < f.locals@.len() ==> #[trigger] f.locals@[i] == m.nil,
            f.proc == proc,
            f.result == m.nil,
    {
        let mut locals: Vec<ObjectPtr> = Vec::new();
        let mut i: i32 = 1;
        while i < proc.slot_count
            invariant
                1 <= i,
                i <= proc.slot_count || i == 1,
                locals@.len() == i - 1,
                forall|k: int| 0 <= k < locals@.len() ==> #[trigger] locals@[k] == m.nil,
            decreases proc.slot_count - i,
        {
            locals.push(m.nil.share());
            i = i + 1;
        }
        Frame {
            machine: m,
            receiver: receiver,
            next_instruction: 0,
            locals: locals,
            proc: proc,
            result: m.nil.share(),
        }
    }
}

fn nil_handler(_sel: &str, s: ObjectPtr, _args: &[ObjectPtr]) -> (r: ObjectPtr)
    ensures
        r == s,
{
    s
}

fn str_handler(_sel: &str, s: ObjectPtr, _args: &[ObjectPtr]) -> (r: ObjectPtr)
    ensures
        r == s,
{
    s
}

fn string_handler(_sel: &str, _s: ObjectPtr, _args: &[ObjectPtr]) -> (r: ObjectPtr)
    ensures
        r.spec_handler() == Handler::Nil,
        r.spec_vars().len() == 0,
        r.spec_text() == Some("..."@),
{
    Object::new_string("...")
}

/// The instruction returns: the receiver or a string literal.
pub open spec fn is_return(i: Instruction) -> bool {
    i matches Instruction::Return(Address::Receiver) || i matches Instruction::Return(
        Address::Literal(Literal::String(_)),
    )
}

/// `result` is what the returning instruction `i` gives on `receiver`: a new string object
/// for a string literal, else the receiver.
pub open spec fn returned(i: Instruction, result: ObjectPtr, receiver: ObjectPtr) -> bool {
    match i {
        Instruction::Return(Address::Literal(Literal::String(s))) => result.spec_handler()
            == Handler::Nil && result.spec_vars().len() == 0 && result.spec_text() == Some(s@),
        _ => result == receiver,
    }
}

/// The first returning instruction at `from` or after.
pub open spec fn first_return(instrs: Seq<Instruction>, from: int) -> Option<int>
    decreases instrs.len() - from,
{
    if from < 0 || from >= instrs.len() {
        None
    } else if is_return(instrs[from]) {
        Some(from)
    } else {
        first_return(instrs, from + 1)
    }
}

/// Runs the frame's procedure from its next instruction to its end: the first instruction that
/// returns the receiver or a string literal sets the result (the receiver, or a new string
/// object) and ends the run; other returns are passed over.
pub fn eval(frame: &mut Frame) -> (r: Result<(), String>)
    requires
        old(frame).proc.instructions@.len() < usize::MAX,
    ensures
        r is Ok,
        final(frame).machine == old(frame).machine,
        final(frame).receiver == old(frame).receiver,
        final(frame).locals == old(frame).locals,
        final(frame).proc == old(frame).proc,
        ({
            let instrs = old(frame).proc.instructions@;
            let n = instrs.len() as int;
            match first_return(instrs, old(frame).next_instruction as int) {
                None => final(frame).result == old(frame).result && final(frame).next_instruction
                    == (if old(frame).next_instruction < n {
                    n
                } else {
                    old(frame).next_instruction as int
                }),
                Some(j) => final(frame).next_instruction == n + 1 && returned(
                    instrs[j],
                    final(frame).result,
                    old(frame).receiver,
                ),
            }
        }),
{
    let n = frame.proc.instructions.len();
    let ghost start = frame.next_instruction as int;
    while frame.next_instruction < n
        invariant
            n == frame.proc.instructions@.len(),
            n < usize::MAX,
            frame.machine == old(frame).machine,
            frame.receiver == old(frame).receiver,
            frame.locals == old(frame).locals,
            frame.proc == old(frame).proc,
            start == old(frame).next_instruction,
            start < n ==> start <= frame.next_instruction <= n + 1,
            start < n && frame.next_instruction <= n ==> frame.result == old(frame).result
                && first_return(frame.proc.instructions@, start) == first_return(
                frame.proc.instructions@,
                frame.next_instruction as int,
            ),
            start < n && frame.next_instruction == n + 1 ==> ({
                let instrs = frame.proc.instructions@;
                first_return(instrs, start) matches Some(j) && returned(
                    instrs[j],
                    frame.result,
                    old(frame).receiver,
                )
            }),
            start >= n ==> frame.next_instruction == start && frame.result == old(frame).result,
        decreases n + 1 - frame.next_instruction,
    {
        match &frame.proc.instructions[frame.next_instruction] {
            Instruction::Return(Address::Receiver) => {
                frame.result = frame.receiver.share();
                jump_to_end(frame);
            },
            Instruction::Return(Address::Literal(Literal::String(s))) => {
                let o = Object::new_string(s.as_str());
                frame.result = o;
                jump_to_end(frame);
            },
            Instruction::Return(_) => {},
        }
        frame.next_instruction = frame.next_instruction + 1;
    }
    Ok(())
}

/// Moves the frame past its last instruction.
fn jump_to_end(frame: &mut Frame)
    ensures
        final(frame).next_instruction == old(frame).proc.instructions@.len(),
        final(frame).machine == old(frame).machine,
        final(frame).receiver == old(frame).receiver,
        final(frame).locals == old(frame).locals,
        final(frame).proc == old(frame).proc,
        final(frame).result == old(frame).result,
{
    let n = frame.proc.instructions.len();
    frame.next_instruction = n;
}

} // verus!
