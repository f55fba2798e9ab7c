use vstd::prelude::*;

use crate::parser::AST;
use crate::runtime::{heap_ok, step_ok, EvalError, Heap, Obj};
use crate::text::str_eq;
use crate::{ContextTrait, MethodContext};

verus! {

/// The address of an operation: its block and its position in the block. The value an
/// operation computes is stored under its address.
#[derive(Debug, Clone, Copy, PartialEq, Eq, Structural)]
pub struct CodeAddress(pub usize, pub usize);

/// One operation of a block.
#[derive(Debug)]
pub enum Operation {
    Int(i64),
    Str(String),
    /// Sends the selector to the value at the address with the values at the addresses.
    Invoke(String, CodeAddress, Vec<CodeAddress>),
    /// Makes a block object for the block with this number.
    Block(usize),
    Global(String),
    Char(char),
    String(String),
    /// Takes the argument with this number of the block's call.
    Arg(usize),
    /// The value at the address.
    Return(CodeAddress),
    Param(usize),
    Myself,
    /// Copies the value at the first address to the second.
    Move(CodeAddress, Option<CodeAddress>),
}

/// A block of operations and the address of its result.
#[derive(Debug)]
pub struct ByteCode {
    pub result: Option<CodeAddress>,
    pub opcode: Vec<Operation>,
}

/// What a compilation builds: the blocks, a stack of addresses of values that messages are
/// sent to, the block being compiled and the addresses that names are bound to.
#[derive(Debug)]
pub struct CompiledMethodData {
    pub blocks: Vec<ByteCode>,
    pub stack: Vec<CodeAddress>,
    pub current_block: usize,
    pub names: Vec<(String, CodeAddress)>,
}

/// A method compiled to blocks of operations; block 0 is the method's own.
#[derive(Debug)]
pub struct CompiledMethod {
    pub data: CompiledMethodData,
}

/// A block object: the block of the running method it evaluates.
#[derive(Debug, Clone, Copy, PartialEq, Eq, Structural)]
pub struct CompiledBlock {
    pub block: usize,
}

impl CompiledBlock {
    pub fn new(block: usize) -> (r: Self)
        ensures
            r.block == block,
    {
        CompiledBlock { block }
    }
}

/// Why a tree cannot be compiled.
#[derive(Debug, Clone, PartialEq, Eq, Structural)]
pub enum CompileError {
    /// A node that the compiler does not handle.
    Unsupported,
    /// A message with no value to send it to.
    NoReceiver,
    /// A block that ends up with no operation to answer.
    EmptyBlock,
}

/// The operations of the blocks.
pub open spec fn ops(m: CompiledMethodData) -> Seq<Seq<Operation>> {
    m.blocks@.map_values(|b: ByteCode| b.opcode@)
}

/// `new` holds every block of `old` with the same operations first, and maybe more.
pub open spec fn extends(old: Seq<Seq<Operation>>, new: Seq<Seq<Operation>>) -> bool {
    &&& old.len() <= new.len()
    &&& forall|i: int| 0 <= i < old.len() ==> (#[trigger] new[i]).len() >= old[i].len()
        && new[i].subrange(0, old[i].len() as int) == old[i]
}

/// The block being compiled exists.
pub open spec fn wf_data(m: CompiledMethodData) -> bool {
    m.current_block < m.blocks@.len()
}

/// The address of the first binding of `name`.
pub open spec fn first_binding(names: Seq<(String, CodeAddress)>, name: Seq<char>) -> Option<CodeAddress>
    decreases names.len(),
{
    if names.len() == 0 {
        None
    } else if names[0].0@ == name {
        Some(names[0].1)
    } else {
        first_binding(names.drop_first(), name)
    }
}

proof fn lemma_first_binding_push(names: Seq<(String, CodeAddress)>, b: (String, CodeAddress), name: Seq<char>)
    ensures
        first_binding(names.push(b), name) == match first_binding(names, name) {
            Some(a) => Some(a),
            None => if b.0@ == name {
                Some(b.1)
            } else {
                None
            },
        },
    decreases names.len(),
{
    let s = names.push(b);
    if names.len() > 0 {
        assert(s[0] == names[0]);
        assert(s.drop_first() =~= names.drop_first().push(b));
        lemma_first_binding_push(names.drop_first(), b, name);
    } else {
        assert(s[0] == b);
        assert(first_binding(s.drop_first(), name) is None);
    }
}

/// A variable compiles to the address that its name is bound to afterwards, so every later
/// use of the name compiles to the same address.
pub proof fn law_variable_stays_bound(
    d: CompiledMethodData,
    e: CompiledMethodData,
    name: String,
    a: CodeAddress,
)
    requires
        compiled(d, e, AST::Variable(name), Ok(a)),
    ensures
        first_binding(e.names@, name@) == Some(a),
{
    if first_binding(d.names@, name@) is None {
        lemma_first_binding_push(d.names@, (name, a), name@);
    }
}

/// The result address of each block.
pub open spec fn results(m: CompiledMethodData) -> Seq<Option<CodeAddress>> {
    m.blocks@.map_values(|b: ByteCode| b.result)
}

/// The operations, bindings, stack and block being compiled are the same.
pub open spec fn unchanged(d: CompiledMethodData, e: CompiledMethodData) -> bool {
    &&& ops(e) == ops(d)
    &&& results(e) == results(d)
    &&& e.names@ == d.names@
    &&& e.stack@ == d.stack@
    &&& e.current_block == d.current_block
}

/// `op` was appended to the block being compiled and `r` is its address, with nothing else
/// changed; or the block is full and nothing changed.
pub open spec fn appended(
    d: CompiledMethodData,
    e: CompiledMethodData,
    r: Result<CodeAddress, CompileError>,
    op: Operation,
) -> bool {
    let cb = d.current_block;
    match r {
        Ok(a) => {
            &&& a == CodeAddress(cb, ops(d)[cb as int].len() as usize)
            &&& ops(e) == ops(d).update(cb as int, ops(d)[cb as int].push(op))
            &&& results(e) == results(d)
            &&& e.names@ == d.names@
            &&& e.stack@ == d.stack@
        },
        Err(err) => err == CompileError::Unsupported && block_full(d) && unchanged(d, e),
    }
}

/// The block being compiled holds as many operations as it can take.
pub open spec fn block_full(d: CompiledMethodData) -> bool {
    ops(d)[d.current_block as int].len() >= usize::MAX - 1
}

/// `b` holds the bindings of `a` first, and maybe more.
pub open spec fn names_kept(a: Seq<(String, CodeAddress)>, b: Seq<(String, CodeAddress)>) -> bool {
    &&& a.len() <= b.len()
    &&& forall|i: int| 0 <= i < a.len() ==> #[trigger] b[i] == a[i]
}

/// The blocks other than `cb` keep their result addresses.
pub open spec fn other_results_kept(d: CompiledMethodData, e: CompiledMethodData, cb: usize) -> bool {
    &&& results(d).len() <= results(e).len()
    &&& forall|i: int| 0 <= i < results(d).len() && i != cb ==> #[trigger] results(e)[i] == results(d)[i]
}

/// Compiling a block with parameters `params` answered the address of a `Block` operation
/// for a new block, which starts with one `Arg` operation for each parameter, has a result
/// address, and whose parameters are bound to those operations.
pub open spec fn block_compiled(
    d: CompiledMethodData,
    e: CompiledMethodData,
    params: Seq<String>,
    r: Result<CodeAddress, CompileError>,
) -> bool {
    let cb = d.current_block;
    r matches Ok(a) ==> {
        let k = d.blocks@.len();
        &&& is_last_op(d, e, a)
        &&& a.1 == ops(d)[cb as int].len()
        &&& ops(e)[cb as int][a.1 as int] == Operation::Block(k as usize)
        &&& k < ops(e).len()
        &&& results(e)[k as int] is Some
        &&& ops(e)[k as int].len() >= params.len()
        &&& forall|i: int| 0 <= i < params.len() ==> #[trigger] ops(e)[k as int][i] == Operation::Arg(i as usize)
        &&& e.names@.len() >= d.names@.len() + params.len()
        &&& forall|i: int| 0 <= i < params.len() ==> #[trigger] e.names@[d.names@.len() + i] == (
            params[i],
            CodeAddress(k as usize, i as usize),
        )
    }
}

/// The tree holds a message that is not one of a sequence's messages, so that it may find
/// no value to be sent to.
pub open spec fn stray_message(a: AST) -> bool
    decreases a, 0nat,
{
    match a {
        AST::Message { .. } => true,
        AST::Block { body, .. } => stray_message(*body),
        AST::Return(x) => stray_message(*x),
        AST::Statements(s) => exists|k: int| 0 <= k < s@.len() && stray_message(#[trigger] s@[k]),
        AST::InvokeSequence(t, m) => stray_message(*t) || exists|k: int|
            0 <= k < m@.len() && stray_in_sequence(#[trigger] m@[k]),
        AST::Assign(_, v) => stray_message(*v),
        _ => false,
    }
}

/// A message of a sequence holds a stray message in its arguments; anything else in a
/// sequence is stray as it stands.
pub open spec fn stray_in_sequence(a: AST) -> bool
    decreases a, 1nat,
{
    match a {
        AST::Message { args, .. } => exists|j: int| 0 <= j < args@.len() && stray_message(#[trigger] args@[j]),
        _ => stray_message(a),
    }
}

/// Compiling the tree may add no operation: it is made of variables (which may be bound
/// already) and of statements, sequences without messages and assignments of such trees.
pub open spec fn may_emit_nothing(a: AST) -> bool
    decreases a,
{
    match a {
        AST::Variable(_) => true,
        AST::Statements(s) => forall|k: int| 0 <= k < s@.len() ==> may_emit_nothing(#[trigger] s@[k]),
        AST::InvokeSequence(t, m) => may_emit_nothing(*t) && forall|k: int|
            0 <= k < m@.len() ==> may_emit_nothing(#[trigger] m@[k]),
        AST::Assign(_, v) => may_emit_nothing(*v),
        _ => false,
    }
}

/// The tree holds a block without parameters whose body may add no operation, so that the
/// block may end up with nothing to answer.
pub open spec fn bare_block(a: AST) -> bool
    decreases a,
{
    match a {
        AST::Block { params, body, .. } => params@.len() == 0 && may_emit_nothing(*body) || bare_block(*body),
        AST::Return(x) => bare_block(*x),
        AST::Statements(s) => exists|k: int| 0 <= k < s@.len() && bare_block(#[trigger] s@[k]),
        AST::InvokeSequence(t, m) => bare_block(*t) || exists|k: int| 0 <= k < m@.len() && bare_block(#[trigger] m@[k]),
        AST::Message { args, .. } => exists|j: int| 0 <= j < args@.len() && bare_block(#[trigger] args@[j]),
        AST::Assign(_, v) => bare_block(*v),
        _ => false,
    }
}

/// The tree holds a node the compiler does not handle: a kind of node it has no case for,
/// an assignment to something other than a name, or a block with too many parameters.
pub open spec fn unsupported_node(a: AST) -> bool
    decreases a,
{
    match a {
        AST::Int(_) | AST::Char(_) | AST::String(_) | AST::Variable(_) => false,
        AST::Block { params, body, .. } => params@.len() >= usize::MAX - 1 || unsupported_node(*body),
        AST::Return(x) => unsupported_node(*x),
        AST::Statements(s) => exists|k: int| 0 <= k < s@.len() && unsupported_node(#[trigger] s@[k]),
        AST::InvokeSequence(t, m) => unsupported_node(*t) || exists|k: int|
            0 <= k < m@.len() && unsupported_node(#[trigger] m@[k]),
        AST::Message { args, .. } => exists|j: int| 0 <= j < args@.len() && unsupported_node(#[trigger] args@[j]),
        AST::Assign(target, v) => !(*target is Name) || unsupported_node(*v),
        _ => true,
    }
}

/// The method has no room left: as many blocks, or a block with as many operations, as an
/// index can name.
pub open spec fn room_out(e: CompiledMethodData) -> bool {
    ||| e.blocks@.len() >= usize::MAX - 1
    ||| exists|i: int| 0 <= i < ops(e).len() && (#[trigger] ops(e)[i]).len() >= usize::MAX - 1
}

/// Why compiling `a` can fail with `err`, leaving the data `e`.
pub open spec fn compile_fault(a: AST, err: CompileError, e: CompiledMethodData) -> bool {
    match err {
        CompileError::NoReceiver => stray_message(a),
        CompileError::EmptyBlock => bare_block(a),
        CompileError::Unsupported => unsupported_node(a) || room_out(e),
    }
}

/// Why compiling `a` into a new method can fail with `err`: the causes of `compile_fault`,
/// where running out of room needs a tree of about as many nodes as an index can name.
pub open spec fn script_fault(a: AST, err: CompileError) -> bool {
    match err {
        CompileError::NoReceiver => stray_message(a),
        CompileError::EmptyBlock => bare_block(a),
        CompileError::Unsupported => unsupported_node(a) || ast_size(a) >= usize::MAX - 2,
    }
}

/// What compiling `ast` did, from the data `d` before to the data `e` after, answering `r`.
/// `b` is `a` with `x` pushed on the stack of values that messages go to.
pub open spec fn pushed(a: CompiledMethodData, b: CompiledMethodData, x: CodeAddress) -> bool {
    &&& ops(b) == ops(a)
    &&& results(b) == results(a)
    &&& b.names@ == a.names@
    &&& b.stack@ == a.stack@.push(x)
    &&& b.current_block == a.current_block
}

/// The operation at `at` in block `cb` sends `sel` to the value at `rec`.
pub open spec fn invoked(e: CompiledMethodData, cb: usize, at: CodeAddress, sel: Seq<char>, rec: CodeAddress) -> bool {
    &&& at.0 == cb
    &&& cb < ops(e).len()
    &&& at.1 < ops(e)[cb as int].len()
    &&& ops(e)[cb as int][at.1 as int] matches Operation::Invoke(s, x, _) && s@ == sel && x == rec
}

/// Each message of `msgs` went to the answer before it: `addrs[0]` is the target's address,
/// and message `i` is an `Invoke` at `addrs[i + 1]` whose receiver is `addrs[i]`.
pub open spec fn chained(e: CompiledMethodData, cb: usize, msgs: Seq<AST>, addrs: Seq<CodeAddress>) -> bool {
    &&& addrs.len() == msgs.len() + 1
    &&& forall|i: int|
        0 <= i < msgs.len() ==> (#[trigger] msgs[i] matches AST::Message { name, .. } ==> invoked(
            e,
            cb,
            addrs[i + 1],
            name@,
            addrs[i],
        ))
}

pub open spec fn compiled(d: CompiledMethodData, e: CompiledMethodData, ast: AST, r: Result<CodeAddress, CompileError>) -> bool
    decreases ast,
{
    let cb = d.current_block;
    match ast {
        AST::Int(n) => appended(d, e, r, Operation::Int(n)),
        AST::Char(c) => appended(d, e, r, Operation::Char(c)),
        AST::String(t) => appended(d, e, r, Operation::String(t)),
        AST::Variable(name) => match first_binding(d.names@, name@) {
            Some(a) => r == Ok::<CodeAddress, CompileError>(a) && unchanged(d, e),
            None => match r {
                Ok(a) => {
                    &&& a == CodeAddress(cb, ops(d)[cb as int].len() as usize)
                    &&& ops(e) == ops(d).update(cb as int, ops(d)[cb as int].push(Operation::Global(name)))
                    &&& results(e) == results(d)
                    &&& e.names@ == d.names@.push((name, a))
                    &&& e.stack@ == d.stack@
                },
                Err(err) => err == CompileError::Unsupported && block_full(d) && unchanged(d, e),
            },
        },
        AST::Assign(target, v) => match *target {
            AST::Name(name) => r matches Ok(a) ==> exists|d1: CompiledMethodData|
                #[trigger] crate::evaluation::witness(d1) && compiled(d, d1, *v, Ok(a)) && if a.0 > 0 {
                    &&& ops(e) == ops(d1).update(
                        cb as int,
                        ops(d1)[cb as int].push(Operation::Move(a, first_binding(d1.names@, name@))),
                    )
                    &&& e.names@ == d1.names@
                } else {
                    &&& ops(e) == ops(d1)
                    &&& e.names@ == d1.names@.push((name, a))
                },
            _ => r == Err::<CodeAddress, CompileError>(CompileError::Unsupported) && unchanged(d, e),
        },
        AST::Return(x) => r matches Ok(a) ==> exists|d1: CompiledMethodData, ax: CodeAddress|
            #[trigger] crate::evaluation::witness((d1, ax)) && compiled(d, d1, *x, Ok(ax)) && a == CodeAddress(
                cb,
                ops(d1)[cb as int].len() as usize,
            ) && ops(e) == ops(d1).update(cb as int, ops(d1)[cb as int].push(Operation::Return(ax))),
        AST::Block { params, .. } => block_compiled(d, e, params@, r),
        AST::Statements(s) => {
            &&& s@.len() == 0 ==> r == Ok::<CodeAddress, CompileError>(CodeAddress(0, 0)) && unchanged(d, e)
            &&& s@.len() > 0 ==> (r matches Ok(a) ==> exists|ds: Seq<CompiledMethodData>, addrs: Seq<CodeAddress>|
                #[trigger] crate::evaluation::witness((ds, addrs)) && ds.len() == s@.len() + 1 && addrs.len()
                    == s@.len() && ds[0] == d && ds.last() == e && a == addrs.last() && forall|j: int|
                    0 <= j < s@.len() ==> compiled(ds[j], ds[j + 1], #[trigger] s@[j], Ok(addrs[j])))
        },
        AST::InvokeSequence(t, msgs) => r matches Ok(a) ==> {
            &&& results(e)[cb as int] == Some(a)
            &&& exists|d1: CompiledMethodData, addrs: Seq<CodeAddress>, ds: Seq<CompiledMethodData>, es: Seq<
                CompiledMethodData,
            >|
                #[trigger] crate::evaluation::witness((d1, addrs, ds, es)) && compiled(d, d1, *t, Ok(addrs[0]))
                    && chained(e, cb, msgs@, addrs) && a == addrs.last() && ds.len() == msgs@.len() + 1
                    && es.len() == msgs@.len() && pushed(d1, ds[0], addrs[0]) && ops(e) == ops(ds.last())
                    && forall|k: int|
                    0 <= k < msgs@.len() ==> compiled(ds[k], es[k], #[trigger] msgs@[k], Ok(addrs[k + 1]))
                        && pushed(es[k], ds[k + 1], addrs[k + 1])
        },
        AST::Message { name, args } => if d.stack@.len() == 0 {
            r == Err::<CodeAddress, CompileError>(CompileError::NoReceiver) && unchanged(d, e)
        } else {
            &&& r matches Err(err) ==> (err == CompileError::NoReceiver ==> exists|j: int|
                0 <= j < args@.len() && stray_message(#[trigger] args@[j]))
            &&& r matches Ok(a) ==> {
                &&& is_last_op(d, e, a)
                &&& ops(e)[cb as int][a.1 as int] matches Operation::Invoke(sel, rec, argv)
                &&& sel == name
                &&& rec == d.stack@.last()
                &&& argv@.len() == args@.len()
                &&& exists|ds: Seq<CompiledMethodData>|
                    #[trigger] crate::evaluation::witness(ds) && ds.len() == args@.len() + 1 && ops(ds[0])
                        == ops(d) && ds[0].names@ == d.names@ && ds[0].current_block == cb && ds[0].stack@
                        == d.stack@.drop_last() && a.1 == ops(ds.last())[cb as int].len() && forall|j: int|
                        0 <= j < args@.len() ==> compiled(
                            ds[j],
                            ds[j + 1],
                            #[trigger] args@[j],
                            Ok(argv@[j]),
                        )
            }
        },
        _ => r == Err::<CodeAddress, CompileError>(CompileError::Unsupported) && unchanged(d, e),
    }
}

/// `a` is the address of the last operation of the block being compiled.
pub open spec fn is_last_op(d: CompiledMethodData, e: CompiledMethodData, a: CodeAddress) -> bool {
    &&& a.0 == d.current_block
    &&& a.1 + 1 == ops(e)[a.0 as int].len()
}

impl ByteCode {
    pub fn new() -> (r: Self)
        ensures
            r.result is None,
            r.opcode@.len() == 0,
    {
        ByteCode { result: None, opcode: Vec::new() }
    }

    /// Appends an operation and answers its position.
    pub fn push(&mut self, op: Operation) -> (r: usize)
        requires
            old(self).opcode@.len() < usize::MAX,
        ensures
            final(self).opcode@ == old(self).opcode@.push(op),
            final(self).result == old(self).result,
            r == old(self).opcode@.len(),
    {
        self.opcode.push(op);
        self.opcode.len() - 1
    }

    pub fn set_result(&mut self, addr: CodeAddress)
        ensures
            final(self).result == Some(addr),
            final(self).opcode == old(self).opcode,
    {
        self.result = Some(addr);
    }

    pub fn result(&self) -> (r: Option<CodeAddress>)
        ensures
            r == self.result,
    {
        self.result
    }

    pub fn len(&self) -> (r: usize)
        ensures
            r == self.opcode@.len(),
    {
        self.opcode.len()
    }
}

proof fn lemma_extends_refl(a: Seq<Seq<Operation>>)
    ensures
        extends(a, a),
{
    assert forall|i: int| 0 <= i < a.len() implies (#[trigger] a[i]).len() >= a[i].len()
        && a[i].subrange(0, a[i].len() as int) == a[i] by {
        assert(a[i].subrange(0, a[i].len() as int) =~= a[i]);
    }
}

proof fn lemma_extends_at(a: Seq<Seq<Operation>>, b: Seq<Seq<Operation>>, i: int, j: int)
    requires
        extends(a, b),
        0 <= i < a.len(),
        0 <= j < a[i].len(),
    ensures
        b[i][j] == a[i][j],
{
    assert(b[i].subrange(0, a[i].len() as int)[j] == b[i][j]);
}

/// A bound on what compiling the tree can add: one operation or block for each node and
/// each block parameter, and one more block for each block.
pub open spec fn ast_size(a: AST) -> int
    decreases a,
{
    match a {
        AST::Block { params, body, .. } => params@.len() + ast_size(*body) + 2,
        AST::Return(x) => ast_size(*x) + 1,
        AST::Statements(s) => sizes(s@) + 1,
        AST::InvokeSequence(t, m) => ast_size(*t) + sizes(m@) + 1,
        AST::Message { args, .. } => sizes(args@) + 1,
        AST::Assign(_, v) => ast_size(*v) + 1,
        _ => 1,
    }
}

/// The bounds of a list of trees, added up.
pub open spec fn sizes(s: Seq<AST>) -> int
    decreases s,
{
    if s.len() == 0 {
        0
    } else {
        sizes(s.drop_last()) + ast_size(s.last())
    }
}

/// From `d` to `e` at most `n` blocks were added, and each block gained at most `n`
/// operations.
pub open spec fn grows_within(d: CompiledMethodData, e: CompiledMethodData, n: int) -> bool {
    &&& e.blocks@.len() <= d.blocks@.len() + n
    &&& forall|i: int|
        0 <= i < ops(e).len() ==> (#[trigger] ops(e)[i]).len() <= (if i < ops(d).len() {
            ops(d)[i].len() as int
        } else {
            0
        }) + n
}

proof fn lemma_sizes_nonneg(s: Seq<AST>)
    ensures
        sizes(s) >= 0,
    decreases s,
{
    if s.len() > 0 {
        lemma_sizes_nonneg(s.drop_last());
        lemma_ast_size_pos(s.last());
    }
}

proof fn lemma_ast_size_pos(a: AST)
    ensures
        ast_size(a) >= 1,
    decreases a,
{
    match a {
        AST::Block { body, .. } => lemma_ast_size_pos(*body),
        AST::Return(x) => lemma_ast_size_pos(*x),
        AST::Statements(s) => lemma_sizes_nonneg(s@),
        AST::InvokeSequence(t, m) => {
            lemma_ast_size_pos(*t);
            lemma_sizes_nonneg(m@);
        },
        AST::Message { args, .. } => lemma_sizes_nonneg(args@),
        AST::Assign(_, v) => lemma_ast_size_pos(*v),
        _ => {},
    }
}

proof fn lemma_sizes_prefix(s: Seq<AST>, k: int)
    requires
        0 <= k <= s.len(),
    ensures
        sizes(s.take(k)) <= sizes(s),
    decreases s.len(),
{
    if k < s.len() {
        assert(s.drop_last().take(k) =~= s.take(k));
        lemma_sizes_prefix(s.drop_last(), k);
        lemma_ast_size_pos(s.last());
    } else {
        assert(s.take(k) =~= s);
    }
}

proof fn lemma_grows_within_trans(d1: CompiledMethodData, d2: CompiledMethodData, d3: CompiledMethodData, n1: int, n2: int)
    requires
        grows_within(d1, d2, n1),
        grows_within(d2, d3, n2),
        ops(d1).len() <= ops(d2).len(),
        n1 >= 0,
        n2 >= 0,
    ensures
        grows_within(d1, d3, n1 + n2),
{
    assert forall|i: int| 0 <= i < ops(d3).len() implies (#[trigger] ops(d3)[i]).len() <= (if i < ops(d1).len() {
        ops(d1)[i].len() as int
    } else {
        0
    }) + n1 + n2 by {
        if i < ops(d2).len() {
            assert(ops(d2)[i].len() <= (if i < ops(d1).len() {
                ops(d1)[i].len() as int
            } else {
                0
            }) + n1);
        }
    }
}

/// One more tree of a list compiled: the bound of the first `i + 1` trees holds.
proof fn lemma_list_step(d0: CompiledMethodData, di: CompiledMethodData, ei: CompiledMethodData, s: Seq<AST>, i: int)
    requires
        0 <= i < s.len(),
        grows_within(d0, di, sizes(s.take(i))),
        grows_within(di, ei, ast_size(s[i])),
        ops(d0).len() <= ops(di).len(),
    ensures
        grows_within(d0, ei, sizes(s.take(i + 1))),
        sizes(s.take(i + 1)) <= sizes(s),
{
    assert(s.take(i + 1).drop_last() =~= s.take(i));
    assert(s.take(i + 1).last() == s[i]);
    lemma_sizes_nonneg(s.take(i));
    lemma_ast_size_pos(s[i]);
    lemma_grows_within_trans(d0, di, ei, sizes(s.take(i)), ast_size(s[i]));
    lemma_sizes_prefix(s, i + 1);
}

/// The blocks of `d` other than block `cb` hold the same operations in `e`.
pub open spec fn others_kept(d: CompiledMethodData, e: CompiledMethodData, cb: usize) -> bool {
    forall|i: int| 0 <= i < ops(d).len() && i != cb ==> #[trigger] ops(e)[i] == ops(d)[i]
}

proof fn lemma_others_kept_trans(d1: CompiledMethodData, d2: CompiledMethodData, d3: CompiledMethodData, cb: usize)
    requires
        others_kept(d1, d2, cb),
        others_kept(d2, d3, cb),
        ops(d1).len() <= ops(d2).len(),
    ensures
        others_kept(d1, d3, cb),
{
    assert forall|i: int| 0 <= i < ops(d1).len() && i != cb implies #[trigger] ops(d3)[i] == ops(d1)[i] by {
        assert(ops(d2)[i] == ops(d1)[i]);
    }
}

/// Where no block of `d` was the one changed, every block of `d` was kept.
proof fn lemma_all_kept(d: CompiledMethodData, e: CompiledMethodData, c: usize, c2: usize)
    requires
        others_kept(d, e, c),
        c >= ops(d).len(),
    ensures
        others_kept(d, e, c2),
{
}

/// The pieces of a compiled message sequence make it one.
proof fn lemma_sequence_compiled(
    d: CompiledMethodData,
    e: CompiledMethodData,
    t: AST,
    msgs: Vec<AST>,
    d1: CompiledMethodData,
    addrs: Seq<CodeAddress>,
    ds: Seq<CompiledMethodData>,
    es: Seq<CompiledMethodData>,
    a: CodeAddress,
)
    requires
        results(e)[d.current_block as int] == Some(a),
        compiled(d, d1, t, Ok(addrs[0])),
        chained(e, d.current_block, msgs@, addrs),
        a == addrs.last(),
        ds.len() == msgs@.len() + 1,
        es.len() == msgs@.len(),
        pushed(d1, ds[0], addrs[0]),
        ops(e) == ops(ds.last()),
        forall|k: int|
            0 <= k < msgs@.len() ==> compiled(ds[k], es[k], #[trigger] msgs@[k], Ok(addrs[k + 1]))
                && pushed(es[k], ds[k + 1], addrs[k + 1]),
    ensures
        compiled(d, e, AST::InvokeSequence(Box::new(t), msgs), Ok(a)),
{
    let ast = AST::InvokeSequence(Box::new(t), msgs);
    reveal_with_fuel(compiled, 2);
    assert(ast matches AST::InvokeSequence(t2, m2) && *t2 == t && m2 == msgs);
    assert(crate::evaluation::witness((d1, addrs, ds, es)));
    assert(exists|d1: CompiledMethodData, addrs: Seq<CodeAddress>, ds: Seq<CompiledMethodData>, es: Seq<
        CompiledMethodData,
    >|
        #[trigger] crate::evaluation::witness((d1, addrs, ds, es)) && compiled(d, d1, t, Ok(addrs[0]))
            && chained(e, d.current_block, msgs@, addrs) && a == addrs.last() && ds.len() == msgs@.len() + 1
            && es.len() == msgs@.len() && pushed(d1, ds[0], addrs[0]) && ops(e) == ops(ds.last())
            && forall|k: int|
            0 <= k < msgs@.len() ==> compiled(ds[k], es[k], #[trigger] msgs@[k], Ok(addrs[k + 1]))
                && pushed(es[k], ds[k + 1], addrs[k + 1]));
}

proof fn lemma_extends_trans(a: Seq<Seq<Operation>>, b: Seq<Seq<Operation>>, c: Seq<Seq<Operation>>)
    requires
        extends(a, b),
        extends(b, c),
    ensures
        extends(a, c),
{
    assert forall|i: int| 0 <= i < a.len() implies (#[trigger] c[i]).len() >= a[i].len()
        && c[i].subrange(0, a[i].len() as int) == a[i] by {
        assert(c[i].subrange(0, a[i].len() as int) =~= c[i].subrange(0, b[i].len() as int).subrange(
            0,
            a[i].len() as int,
        ));
    }
}

impl CompiledMethod {
    /// A method with one empty block, being compiled.
    pub fn new() -> (m: Self)
        ensures
            m.data.blocks@.len() == 1,
            m.data.blocks@[0].opcode@.len() == 0,
            m.data.blocks@[0].result is None,
            m.data.current_block == 0,
            m.data.stack@.len() == 0,
            m.data.names@.len() == 0,
            wf_data(m.data),
    {
        let mut blocks: Vec<ByteCode> = Vec::new();
        blocks.push(ByteCode::new());
        CompiledMethod {
            data: CompiledMethodData { blocks, stack: Vec::new(), current_block: 0, names: Vec::new() },
        }
    }

    /// Binds a name to an address; a later binding of the same name stays behind the first.
    pub fn define(&mut self, name: String, idx: CodeAddress)
        ensures
            final(self).data.names@ == old(self).data.names@.push((name, idx)),
            final(self).data.blocks == old(self).data.blocks,
            final(self).data.stack == old(self).data.stack,
            final(self).data.current_block == old(self).data.current_block,
    {
        self.data.names.push((name, idx));
    }

    /// The address of the first binding of `name`.
    pub fn idx_for(&self, name: &str) -> (r: Option<CodeAddress>)
        ensures
            r == first_binding(self.data.names@, name@),
            match r {
                Some(a) => exists|i: int|
                    0 <= i < self.data.names@.len() && self.data.names@[i].0@ == name@
                        && self.data.names@[i].1 == a && forall|j: int|
                        0 <= j < i ==> (#[trigger] self.data.names@[j]).0@ != name@,
                None => forall|j: int|
                    0 <= j < self.data.names@.len() ==> (#[trigger] self.data.names@[j]).0@
                        != name@,
            },
    {
        let mut i: usize = 0;
        assert(self.data.names@.skip(0) =~= self.data.names@);
        while i < self.data.names.len()
            invariant
                i <= self.data.names@.len(),
                forall|j: int| 0 <= j < i ==> (#[trigger] self.data.names@[j]).0@ != name@,
                first_binding(self.data.names@, name@) == first_binding(
                    self.data.names@.skip(i as int),
                    name@,
                ),
            decreases self.data.names.len() - i,
        {
            proof {
                let rest = self.data.names@.skip(i as int);
                assert(rest[0] == self.data.names@[i as int]);
                assert(rest.drop_first() =~= self.data.names@.skip(i + 1));
            }
            if str_eq(self.data.names[i].0.as_str(), name) {
                return Some(self.data.names[i].1);
            }
            i = i + 1;
        }
        proof {
            assert(self.data.names@.skip(i as int).len() == 0);
        }
        None
    }

    /// Appends an operation to the block being compiled and answers its address.
    pub fn push(&mut self, op: Operation) -> (r: Result<CodeAddress, CompileError>)
        requires
            wf_data(old(self).data),
        ensures
            wf_data(final(self).data),
            final(self).data.current_block == old(self).data.current_block,
            final(self).data.stack == old(self).data.stack,
            final(self).data.names == old(self).data.names,
            extends(ops(old(self).data), ops(final(self).data)),
            r matches Ok(a) ==> a.0 == old(self).data.current_block && a.1 == ops(
                old(self).data,
            )[a.0 as int].len() && ops(final(self).data) == ops(old(self).data).update(
                a.0 as int,
                ops(old(self).data)[a.0 as int].push(op),
            ),
            r is Err ==> final(self).data == old(self).data,
            results(final(self).data) == results(old(self).data),
            appended(old(self).data, final(self).data, r, op),
            grows_within(old(self).data, final(self).data, 1),
            others_kept(old(self).data, final(self).data, old(self).data.current_block),
    {
        let block_num = self.data.current_block;
        if self.data.blocks[block_num].len() >= usize::MAX - 1 {
            proof {
                lemma_extends_refl(ops(self.data));
            }
            return Err(CompileError::Unsupported);
        }
        let ghost o = ops(self.data);
        let mut b = self.data.blocks.remove(block_num);
        let pos = b.push(op);
        self.data.blocks.insert(block_num, b);
        proof {
            let n = ops(self.data);
            assert(results(self.data) =~= results(old(self).data));
            assert(n =~= o.update(block_num as int, o[block_num as int].push(op)));
            assert forall|i: int| 0 <= i < o.len() implies (#[trigger] n[i]).len() >= o[i].len()
                && n[i].subrange(0, o[i].len() as int) == o[i] by {
                if i == block_num {
                    assert(n[i].subrange(0, o[i].len() as int) =~= o[i]);
                } else {
                    assert(n[i].subrange(0, o[i].len() as int) =~= o[i]);
                }
            }
        }
        Ok(CodeAddress(block_num, pos))
    }

    /// The number of operations of the block being compiled.
    pub fn len(&self) -> (r: usize)
        requires
            wf_data(self.data),
        ensures
            r == ops(self.data)[self.data.current_block as int].len(),
    {
        self.data.blocks[self.data.current_block].len()
    }
}


impl CompiledMethod {
    /// Compiles a tree into operations of the block being compiled and answers the address
    /// of its value: literals become operations, a variable is the address bound to its name
    /// (or a new `Global` operation), a message sequence pushes the address of each answer for
    /// the next message to take, a block is compiled into a new block whose result is the last
    /// address left on the stack (or its last operation), and an assignment binds the name to
    /// the value's address, or copies the value where it was computed in a block.
    #[verifier::loop_isolation(false)]
    #[verifier::rlimit(100)]
    pub fn compile(&mut self, ast: &AST) -> (r: Result<CodeAddress, CompileError>)
        requires
            wf_data(old(self).data),
        ensures
            wf_data(final(self).data),
            final(self).data.current_block == old(self).data.current_block,
            extends(ops(old(self).data), ops(final(self).data)),
            names_kept(old(self).data.names@, final(self).data.names@),
            other_results_kept(old(self).data, final(self).data, old(self).data.current_block),
            compiled(old(self).data, final(self).data, *ast, r),
            r matches Err(err) ==> compile_fault(*ast, err, final(self).data),
            r is Ok && ops(final(self).data)[old(self).data.current_block as int].len() == ops(
                old(self).data,
            )[old(self).data.current_block as int].len() ==> may_emit_nothing(*ast),
            grows_within(old(self).data, final(self).data, ast_size(*ast)),
            others_kept(old(self).data, final(self).data, old(self).data.current_block),
        decreases ast, 1nat,
    {
        let ghost o = ops(self.data);
        proof {
            lemma_extends_refl(o);
        }
        match ast {
            AST::Int(v) => {
                let r = self.push(Operation::Int(*v));
                assert(grows_within(old(self).data, self.data, ast_size(*ast)));
                r
            },
            AST::Char(v) => {
                let r = self.push(Operation::Char(*v));
                assert(grows_within(old(self).data, self.data, ast_size(*ast)));
                r
            },
            AST::String(v) => {
                let r = self.push(Operation::String(v.clone()));
                assert(grows_within(old(self).data, self.data, ast_size(*ast)));
                r
            },
            AST::Block { params, body, .. } => {
                let r = self.compile_block(params, body);
                assert(grows_within(old(self).data, self.data, ast_size(*ast)));
                r
            },
            AST::Return(x) => {
                let ghost d0 = self.data;
                let res = self.compile(x);
                proof {
                    lemma_ast_size_pos(**x);
                }
                let idx = res?;
                let ghost before = ops(self.data);
                let ghost d1 = self.data;
                let r = self.push(Operation::Return(idx));
                proof {
                    assert(crate::evaluation::witness((d1, idx)));
                    assert(compiled(old(self).data, self.data, *ast, r));
                    lemma_extends_trans(o, before, ops(self.data));
                    lemma_grows_within_trans(d0, d1, self.data, ast_size(**x), 1);
                    lemma_others_kept_trans(d0, d1, self.data, d0.current_block);
                    assert(grows_within(old(self).data, self.data, ast_size(*ast)));
                }
                r
            },
            AST::Statements(s) => {
                let mut n = CodeAddress(0, 0);
                let mut i: usize = 0;
                let ghost mut ds: Seq<CompiledMethodData> = seq![self.data];
                let ghost mut addrs: Seq<CodeAddress> = Seq::empty();
                proof {
                    assert(s@.take(0) =~= Seq::<AST>::empty());
                }
                while i < s.len()
                    invariant
                        i == 0 ==> n == CodeAddress(0, 0) && unchanged(old(self).data, self.data),
                        ops(self.data)[old(self).data.current_block as int].len() == ops(
                            old(self).data,
                        )[old(self).data.current_block as int].len() ==> forall|k: int|
                            0 <= k < i ==> may_emit_nothing(#[trigger] s@[k]),
                        wf_data(self.data),
                        self.data.current_block == old(self).data.current_block,
                        extends(o, ops(self.data)),
                        names_kept(old(self).data.names@, self.data.names@),
                        other_results_kept(old(self).data, self.data, old(self).data.current_block),
                        i <= s@.len(),
                        grows_within(old(self).data, self.data, sizes(s@.take(i as int))),
                        others_kept(old(self).data, self.data, old(self).data.current_block),
                        ds.len() == i + 1,
                        addrs.len() == i,
                        ds[0] == old(self).data,
                        ds.last() == self.data,
                        i > 0 ==> n == addrs.last(),
                        forall|j: int| 0 <= j < i ==> compiled(ds[j], ds[j + 1], #[trigger] s@[j], Ok(addrs[j])),
                    decreases s.len() - i,
                {
                    let ghost before = ops(self.data);
                    let ghost di = self.data;
                    assert(decreases_to!(s => s@[i as int]));
                    let res = self.compile(&s[i]);
                    proof {
                        lemma_extends_trans(o, before, ops(self.data));
                        lemma_list_step(old(self).data, di, self.data, s@, i as int);
                        lemma_others_kept_trans(old(self).data, di, self.data, old(self).data.current_block);
                    }
                    n = match res {
                        Ok(v) => v,
                        Err(e) => {
                            return Err(e);
                        },
                    };
                    proof {
                        ds = ds.push(self.data);
                        addrs = addrs.push(n);
                    }
                    i = i + 1;
                }
                proof {
                    assert(crate::evaluation::witness((ds, addrs)));
                    lemma_sizes_prefix(s@, i as int);
                    assert(compiled(old(self).data, self.data, *ast, Ok(n)));
                    assert(grows_within(old(self).data, self.data, ast_size(*ast)));
                }
                Ok(n)
            },
            AST::InvokeSequence(_, _) => self.compile_sequence(ast),
            AST::Message { name, args } => {
                match self.data.stack.pop() {
                    Some(receiver_idx) => {
                        let mut argv: Vec<CodeAddress> = Vec::new();
                        let ghost dp = self.data;
                        proof {
                            assert(ops(dp) == ops(old(self).data));
                            assert(dp.stack@ == old(self).data.stack@.drop_last());
                        }
                        let ghost mut ds: Seq<CompiledMethodData> = seq![self.data];
                        let mut i: usize = 0;
                        proof {
                            assert(args@.take(0) =~= Seq::<AST>::empty());
                        }
                        while i < args.len()
                            invariant
                                wf_data(self.data),
                                self.data.current_block == old(self).data.current_block,
                                extends(o, ops(self.data)),
                                names_kept(old(self).data.names@, self.data.names@),
                                other_results_kept(old(self).data, self.data, old(self).data.current_block),
                                i <= args@.len(),
                                argv@.len() == i,
                                old(self).data.stack@.len() > 0,
                                receiver_idx == old(self).data.stack@.last(),
                                ds[0] == dp,
                                ops(dp) == ops(old(self).data),
                                dp.names@ == old(self).data.names@,
                                dp.current_block == old(self).data.current_block,
                                dp.stack@ == old(self).data.stack@.drop_last(),
                                others_kept(old(self).data, self.data, old(self).data.current_block),
                                ds.len() == i + 1,
                                ds.last() == self.data,
                                forall|j: int|
                                    0 <= j < i ==> compiled(ds[j], ds[j + 1], #[trigger] args@[j], Ok(argv@[j])),
                                grows_within(old(self).data, self.data, sizes(args@.take(i as int))),
                            decreases args.len() - i,
                        {
                            let ghost before = ops(self.data);
                            let ghost di = self.data;
                            assert(decreases_to!(args => args@[i as int]));
                            let res = self.compile(&args[i]);
                            proof {
                                lemma_extends_trans(o, before, ops(self.data));
                                lemma_list_step(old(self).data, di, self.data, args@, i as int);
                                lemma_others_kept_trans(old(self).data, di, self.data, old(self).data.current_block);
                            }
                            let x = match res {
                                Ok(v) => v,
                                Err(e) => {
                                    return Err(e);
                                },
                            };
                            proof {
                                ds = ds.push(self.data);
                            }
                            argv.push(x);
                            i = i + 1;
                        }
                        let ghost before = ops(self.data);
                        let ghost av = argv@;
                        let ghost dm = self.data;
                        let r = self.push(Operation::Invoke(name.clone(), receiver_idx, argv));
                        proof {
                            lemma_extends_trans(o, before, ops(self.data));
                            assert(crate::evaluation::witness(ds));
                            assert(args@.take(args@.len() as int) =~= args@);
                            lemma_sizes_nonneg(args@);
                            lemma_grows_within_trans(old(self).data, dm, self.data, sizes(args@), 1);
                            lemma_others_kept_trans(old(self).data, dm, self.data, old(self).data.current_block);
                            assert(compiled(old(self).data, self.data, *ast, r));
                        }
                        r
                    },
                    None => {
                        proof {
                            lemma_sizes_nonneg(args@);
                        }
                        Err(CompileError::NoReceiver)
                    },
                }
            },
            AST::Variable(name) => match self.idx_for(name.as_str()) {
                Some(idx) => {
                    assert(grows_within(old(self).data, self.data, ast_size(*ast)));
                    Ok(idx)
                },
                None => {
                    let idx = self.push(Operation::Global(name.clone()))?;
                    self.define(name.clone(), idx);
                    assert(grows_within(old(self).data, self.data, ast_size(*ast)));
                    Ok(idx)
                },
            },
            AST::Assign(namet, v) => {
                if let AST::Name(name) = &**namet {
                    let ghost d0 = self.data;
                    let res = self.compile(v);
                    proof {
                        lemma_ast_size_pos(**v);
                    }
                    let idx = res?;
                    let ghost d1 = self.data;
                    proof {
                        assert(crate::evaluation::witness(d1));
                    }
                    if idx.0 > 0 {
                        let to = self.idx_for(name.as_str());
                        let ghost before = ops(self.data);
                        let ghost dm = self.data;
                        let r = self.push(Operation::Move(idx, to));
                        proof {
                            lemma_extends_trans(o, before, ops(self.data));
                            lemma_grows_within_trans(d0, dm, self.data, ast_size(**v), 1);
                            lemma_others_kept_trans(d0, dm, self.data, d0.current_block);
                        }
                        r?;
                        assert(grows_within(old(self).data, self.data, ast_size(*ast)));
                        assert(compiled(old(self).data, self.data, *ast, Ok(idx)));
                    } else {
                        self.define(name.clone(), idx);
                        assert(grows_within(old(self).data, self.data, ast_size(*ast)));
                        assert(compiled(old(self).data, self.data, *ast, Ok(idx)));
                    }
                    Ok(idx)
                } else {
                    proof {
                        lemma_ast_size_pos(**v);
                    }
                    Err(CompileError::Unsupported)
                }
            },
            _ => {
                assert(grows_within(old(self).data, self.data, ast_size(*ast)));
                Err(CompileError::Unsupported)
            },
        }
    }

    /// Compiles a message sequence: its target, then each message sent to the answer before
    /// it; the block's result is the last answer.
    #[verifier::loop_isolation(false)]
    #[verifier::rlimit(100)]
    fn compile_sequence(&mut self, ast: &AST) -> (r: Result<CodeAddress, CompileError>)
        requires
            wf_data(old(self).data),
            *ast is InvokeSequence,
        ensures
            wf_data(final(self).data),
            final(self).data.current_block == old(self).data.current_block,
            extends(ops(old(self).data), ops(final(self).data)),
            names_kept(old(self).data.names@, final(self).data.names@),
            other_results_kept(old(self).data, final(self).data, old(self).data.current_block),
            compiled(old(self).data, final(self).data, *ast, r),
            r matches Err(err) ==> compile_fault(*ast, err, final(self).data),
            r is Ok && ops(final(self).data)[old(self).data.current_block as int].len() == ops(
                old(self).data,
            )[old(self).data.current_block as int].len() ==> may_emit_nothing(*ast),
            grows_within(old(self).data, final(self).data, ast_size(*ast)),
            others_kept(old(self).data, final(self).data, old(self).data.current_block),
        decreases ast, 0nat,
    {
        let ghost o = ops(self.data);
        proof {
            lemma_extends_refl(o);
        }
        let (a, b) = match ast {
            AST::InvokeSequence(a, b) => (a, b),
            _ => {
                proof {
                    assert(false);
                }
                return Err(CompileError::Unsupported);
            },
        };
        let res0 = self.compile(a);
        proof {
            lemma_sizes_nonneg(b@);
            lemma_ast_size_pos(**a);
            assert(b@.take(0) =~= Seq::<AST>::empty());
        }
        let mut n = res0?;
        let ghost d1 = self.data;
        let ghost cb = self.data.current_block;
        let ghost mut addrs: Seq<CodeAddress> = seq![n];
        self.data.stack.push(n);
        let ghost mut ds: Seq<CompiledMethodData> = seq![self.data];
        let ghost mut es: Seq<CompiledMethodData> = Seq::empty();
        proof {
            assert(results(self.data) =~= results(d1));
            assert(ops(self.data) =~= ops(d1));
        }
        let mut i: usize = 0;
        while i < b.len()
            invariant
                wf_data(self.data),
                self.data.current_block == old(self).data.current_block,
                cb == old(self).data.current_block,
                extends(o, ops(self.data)),
                names_kept(old(self).data.names@, self.data.names@),
                other_results_kept(old(self).data, self.data, old(self).data.current_block),
                i <= b@.len(),
                compiled(old(self).data, d1, **a, Ok(addrs[0])),
                addrs.len() == i + 1,
                addrs.last() == n,
                self.data.stack@.len() > 0 && self.data.stack@.last() == n,
                chained(self.data, cb, b@.take(i as int), addrs),
                grows_within(old(self).data, d1, ast_size(**a)),
                extends(o, ops(d1)),
                grows_within(d1, self.data, sizes(b@.take(i as int))),
                ops(d1).len() <= ops(self.data).len(),
                ds.len() == i + 1,
                es.len() == i,
                ds.last() == self.data,
                others_kept(old(self).data, self.data, cb),
                pushed(d1, ds[0], addrs[0]),
                forall|k: int|
                    0 <= k < i ==> compiled(ds[k], es[k], #[trigger] b@[k], Ok(addrs[k + 1])) && pushed(
                        es[k],
                        ds[k + 1],
                        addrs[k + 1],
                    ),
                ops(self.data)[cb as int].len() == ops(old(self).data)[cb as int].len() ==> may_emit_nothing(**a)
                    && forall|k: int| 0 <= k < i ==> may_emit_nothing(#[trigger] b@[k]),
            decreases b.len() - i,
        {
            let ghost before = ops(self.data);
            let ghost di = self.data;
            let ghost ds0 = ds;
            let ghost es0 = es;
            let ghost addrs0 = addrs;
            assert(decreases_to!(b => b@[i as int]));
            let res = self.compile(&b[i]);
            proof {
                lemma_extends_trans(o, before, ops(self.data));
                lemma_list_step(d1, di, self.data, b@, i as int);
                lemma_others_kept_trans(old(self).data, di, self.data, cb);
                lemma_sizes_nonneg(b@.take(i + 1));
                lemma_grows_within_trans(old(self).data, d1, self.data, ast_size(**a), sizes(b@.take(i + 1)));
            }
            n = match res {
                Ok(v) => v,
                Err(e) => {
                    proof {
                        let m = b@[i as int];
                        if e == CompileError::NoReceiver {
                            assert(stray_in_sequence(m));
                        } else if e == CompileError::EmptyBlock {
                            assert(bare_block(m));
                        } else if unsupported_node(m) {
                            assert(unsupported_node(b@[i as int]));
                        }
                    }
                    return Err(e);
                },
            };
            proof {
                let ei = self.data;
                let msgs = b@.take(i + 1);
                let naddrs = addrs.push(n);
                assert forall|k: int|
                    0 <= k < msgs.len() implies (#[trigger] msgs[k] matches AST::Message { name, .. }
                    ==> invoked(ei, cb, naddrs[k + 1], name@, naddrs[k])) by {
                    if k < i {
                        assert(msgs[k] == b@.take(i as int)[k]);
                        if let AST::Message { name, .. } = msgs[k] {
                            let at = addrs[k + 1];
                            assert(invoked(di, cb, at, name@, addrs[k]));
                            assert(ops(ei)[cb as int].subrange(0, ops(di)[cb as int].len() as int)
                                == ops(di)[cb as int]);
                            assert(ops(ei)[cb as int][at.1 as int] == ops(ei)[cb as int].subrange(
                                0,
                                ops(di)[cb as int].len() as int,
                            )[at.1 as int]);
                        }
                    } else {
                        assert(msgs[k] == b@[i as int]);
                    }
                }
                addrs = naddrs;
            }
            let ghost ei = self.data;
            self.data.stack.push(n);
            proof {
                assert(results(self.data) =~= results(ei));
                assert(ops(self.data) =~= ops(ei));
                es = es.push(ei);
                ds = ds.push(self.data);
                assert(pushed(es[i as int], ds[i + 1], addrs[i + 1]));
                assert(compiled(ds[i as int], es[i as int], b@[i as int], Ok(addrs[i + 1])));
                assert forall|k: int|
                    0 <= k < i + 1 implies compiled(ds[k], es[k], #[trigger] b@[k], Ok(addrs[k + 1]))
                    && pushed(es[k], ds[k + 1], addrs[k + 1]) by {
                    if k < i {
                        assert(ds[k] == ds0[k] && es[k] == es0[k] && addrs[k + 1] == addrs0[k + 1]);
                        assert(ds[k + 1] == ds0[k + 1]);
                        assert(compiled(ds0[k], es0[k], b@[k], Ok(addrs0[k + 1])));
                        assert(pushed(es0[k], ds0[k + 1], addrs0[k + 1]));
                    } else {
                        assert(k == i);
                    }
                }
            }
            i = i + 1;
        }
        proof {
            assert(b@.take(b@.len() as int) =~= b@);
            lemma_grows_within_trans(old(self).data, d1, self.data, ast_size(**a), sizes(b@));
        }
        let block_num = self.data.current_block;
        let ghost before = ops(self.data);
        let ghost rb = results(self.data);
        let mut blk = self.data.blocks.remove(block_num);
        blk.set_result(n);
        self.data.blocks.insert(block_num, blk);
        proof {
            assert(ops(self.data) =~= before);
            assert(results(self.data) =~= rb.update(block_num as int, Some(n)));
            assert(crate::evaluation::witness((d1, addrs, ds, es)));
            assert(grows_within(old(self).data, self.data, ast_size(*ast)));
            assert(ops(self.data) == ops(ds.last()));
            assert(pushed(d1, ds[0], addrs[0]));
            assert(chained(self.data, cb, b@, addrs));
            assert(results(self.data)[cb as int] == Some(n));
            assert(*ast == AST::InvokeSequence(*a, *b));
            lemma_sequence_compiled(old(self).data, self.data, **a, *b, d1, addrs, ds, es, n);
        }
        Ok(n)
    }

    /// Compiles a block into a new block: one `Arg` operation and one binding for each
    /// parameter, then the body; the block's result is the last address left on the stack, or
    /// its last operation. Answers the address of a `Block` operation in the block being
    /// compiled.
    #[verifier::loop_isolation(false)]
    fn compile_block(&mut self, params: &Vec<String>, body: &AST) -> (r: Result<CodeAddress, CompileError>)
        requires
            wf_data(old(self).data),
        ensures
            wf_data(final(self).data),
            final(self).data.current_block == old(self).data.current_block,
            extends(ops(old(self).data), ops(final(self).data)),
            names_kept(old(self).data.names@, final(self).data.names@),
            other_results_kept(old(self).data, final(self).data, old(self).data.current_block),
            block_compiled(old(self).data, final(self).data, params@, r),
            r is Ok ==> ops(final(self).data)[old(self).data.current_block as int].len() > ops(
                old(self).data,
            )[old(self).data.current_block as int].len(),
            grows_within(old(self).data, final(self).data, params@.len() + ast_size(*body) + 2),
            others_kept(old(self).data, final(self).data, old(self).data.current_block),
            r matches Err(err) ==> match err {
                CompileError::NoReceiver => stray_message(*body),
                CompileError::EmptyBlock => params@.len() == 0 && may_emit_nothing(*body) || bare_block(*body),
                CompileError::Unsupported => params@.len() >= usize::MAX - 1 || unsupported_node(*body)
                    || room_out(final(self).data),
            },
        decreases body, 2nat,
    {
        let ghost o = ops(self.data);
        proof {
            lemma_extends_refl(o);
        }
        let old_block = self.data.current_block;
        let ghost d0 = self.data;
        proof {
            lemma_ast_size_pos(*body);
        }
        if self.data.blocks.len() >= usize::MAX - 1 {
            return Err(CompileError::Unsupported);
        }
        let block_num = self.data.blocks.len();
        let ghost n0 = self.data.names@;
        let ghost res0 = results(self.data);
        self.data.blocks.push(ByteCode::new());
        self.data.current_block = block_num;
        let ghost o1 = ops(self.data);
        proof {
            assert forall|i: int| 0 <= i < o.len() implies (#[trigger] o1[i]).len() >= o[i].len()
                && o1[i].subrange(0, o[i].len() as int) == o[i] by {
                assert(o1[i] == o[i]);
                assert(o[i].subrange(0, o[i].len() as int) =~= o[i]);
            }
            assert(results(self.data) =~= res0.push(None));
            assert(grows_within(d0, self.data, 1));
        }
        let mut param_idx: usize = 0;
        while param_idx < params.len()
            invariant
                wf_data(self.data),
                self.data.current_block == block_num,
                block_num == res0.len(),
                extends(o, ops(self.data)),
                param_idx <= params@.len(),
                results(self.data) == res0.push(None),
                self.data.names@.len() == n0.len() + param_idx,
                names_kept(n0, self.data.names@),
                forall|i: int|
                    0 <= i < param_idx ==> #[trigger] self.data.names@[n0.len() + i] == (
                        params@[i],
                        CodeAddress(block_num, i as usize),
                    ),
                ops(self.data)[block_num as int].len() == param_idx,
                forall|i: int|
                    0 <= i < param_idx ==> #[trigger] ops(self.data)[block_num as int][i]
                        == Operation::Arg(i as usize),
                grows_within(d0, self.data, 1 + param_idx),
                ops(d0).len() <= ops(self.data).len(),
                others_kept(d0, self.data, block_num),
            decreases params.len() - param_idx,
        {
            let ghost before = ops(self.data);
            let ghost dp = self.data;
            let ghost nb = self.data.names@;
            let idx = match self.push(Operation::Arg(param_idx)) {
                Ok(a) => a,
                Err(e) => {
                    self.data.current_block = old_block;
                    return Err(e);
                },
            };
            proof {
                lemma_extends_trans(o, before, ops(self.data));
                lemma_grows_within_trans(d0, dp, self.data, 1 + param_idx as int, 1);
                lemma_others_kept_trans(d0, dp, self.data, block_num);
            }
            self.define(params[param_idx].clone(), idx);
            proof {
                assert(self.data.names@ == nb.push((params@[param_idx as int], idx)));
            }
            param_idx = param_idx + 1;
        }
        let ghost before = ops(self.data);
        let ghost n1 = self.data.names@;
        let ghost r1 = results(self.data);
        let ghost dq = self.data;
        let res = self.compile(body);
        proof {
            lemma_extends_trans(o, before, ops(self.data));
            lemma_grows_within_trans(d0, dq, self.data, 1 + params@.len() as int, ast_size(*body));
            lemma_others_kept_trans(d0, dq, self.data, block_num);
            lemma_all_kept(d0, self.data, block_num, old_block);
            assert forall|i: int| 0 <= i < params@.len() implies #[trigger] ops(self.data)[block_num as int][i]
                == Operation::Arg(i as usize) by {
                lemma_extends_at(before, ops(self.data), block_num as int, i);
            }
        }
        if let Err(e) = res {
            let ghost eb = self.data;
            self.data.current_block = old_block;
            proof {
                assert(ops(self.data) == ops(eb));
                assert(self.data.blocks@.len() == eb.blocks@.len());
                if room_out(eb) {
                    if eb.blocks@.len() < usize::MAX - 1 {
                        let i = choose|i: int| 0 <= i < ops(eb).len() && (#[trigger] ops(eb)[i]).len() >= usize::MAX - 1;
                        assert(ops(self.data)[i].len() >= usize::MAX - 1);
                    }
                }
            }
            return Err(e);
        }
        let pos = self.len();
        let ghost before = ops(self.data);
        let ghost r2 = results(self.data);
        match self.data.stack.pop() {
            Some(addr) => {
                let mut b = self.data.blocks.remove(block_num);
                b.set_result(addr);
                self.data.blocks.insert(block_num, b);
                proof {
                    assert(results(self.data) =~= r2.update(block_num as int, Some(addr)));
                }
            },
            None => {
                if pos == 0 {
                    self.data.current_block = old_block;
                    return Err(CompileError::EmptyBlock);
                }
                let mut b = self.data.blocks.remove(block_num);
                b.set_result(CodeAddress(block_num, pos - 1));
                self.data.blocks.insert(block_num, b);
                proof {
                    assert(results(self.data) =~= r2.update(
                        block_num as int,
                        Some(CodeAddress(block_num, (pos - 1) as usize)),
                    ));
                }
            },
        }
        proof {
            assert(ops(self.data) =~= before);
        }
        self.data.current_block = old_block;
        let ghost before = ops(self.data);
        let ghost dr = self.data;
        proof {
            assert(grows_within(d0, dr, 1 + params@.len() + ast_size(*body)));
        }
        let r = self.push(Operation::Block(block_num));
        proof {
            lemma_extends_trans(o, before, ops(self.data));
            lemma_grows_within_trans(d0, dr, self.data, 1 + params@.len() as int + ast_size(*body), 1);
            lemma_others_kept_trans(d0, dr, self.data, old_block);
            assert forall|i: int| 0 <= i < params@.len() implies #[trigger] ops(self.data)[block_num as int][i]
                == Operation::Arg(i as usize) by {
                lemma_extends_at(before, ops(self.data), block_num as int, i);
            }
        }
        r
    }

}


/// A copy of a list of addresses.
fn copy_addrs(v: &Vec<CodeAddress>) -> (r: Vec<CodeAddress>)
    ensures
        r@ == v@,
{
    let mut r: Vec<CodeAddress> = Vec::new();
    let mut i: usize = 0;
    while i < v.len()
        invariant
            i <= v@.len(),
            r@ == v@.take(i as int),
        decreases v.len() - i,
    {
        r.push(v[i]);
        assert(r@ =~= v@.take(i + 1));
        i = i + 1;
    }
    assert(r@ =~= v@);
    r
}

/// Two operations are the same: of the same kind, with the same texts, numbers and addresses.
pub open spec fn same_op(a: Operation, b: Operation) -> bool {
    match (a, b) {
        (Operation::Int(x), Operation::Int(y)) => x == y,
        (Operation::Str(x), Operation::Str(y)) => x@ == y@,
        (Operation::Invoke(s, x, v), Operation::Invoke(t, y, w)) => s@ == t@ && x == y && v@ == w@,
        (Operation::Block(x), Operation::Block(y)) => x == y,
        (Operation::Global(x), Operation::Global(y)) => x@ == y@,
        (Operation::Char(x), Operation::Char(y)) => x == y,
        (Operation::String(x), Operation::String(y)) => x@ == y@,
        (Operation::Arg(x), Operation::Arg(y)) => x == y,
        (Operation::Return(x), Operation::Return(y)) => x == y,
        (Operation::Param(x), Operation::Param(y)) => x == y,
        (Operation::Myself, Operation::Myself) => true,
        (Operation::Move(x, p), Operation::Move(y, q)) => x == y && p == q,
        _ => false,
    }
}

/// A copy of an operation.
fn copy_op(op: &Operation) -> (r: Operation)
    ensures
        same_op(r, *op),
{
    match op {
        Operation::Int(v) => Operation::Int(*v),
        Operation::Str(s) => Operation::Str(s.clone()),
        Operation::Invoke(s, a, v) => Operation::Invoke(s.clone(), *a, copy_addrs(v)),
        Operation::Block(b) => Operation::Block(*b),
        Operation::Global(s) => Operation::Global(s.clone()),
        Operation::Char(c) => Operation::Char(*c),
        Operation::String(s) => Operation::String(s.clone()),
        Operation::Arg(n) => Operation::Arg(*n),
        Operation::Return(a) => Operation::Return(*a),
        Operation::Param(n) => Operation::Param(*n),
        Operation::Myself => Operation::Myself,
        Operation::Move(a, b) => Operation::Move(*a, *b),
    }
}

/// The operation at `ip` of the running method, if there is one.
fn operation_at(heap: &Heap, ip: CodeAddress) -> (r: Option<Operation>)
    ensures
        r is Some <==> ip.0 < heap.method.data.blocks@.len() && ip.1
            < heap.method.data.blocks@[ip.0 as int].opcode@.len(),
        r matches Some(o) ==> same_op(o, heap.method.data.blocks@[ip.0 as int].opcode@[ip.1 as int]),
{
    if ip.0 < heap.method.data.blocks.len() && ip.1 < heap.method.data.blocks[ip.0].opcode.len() {
        Some(copy_op(&heap.method.data.blocks[ip.0].opcode[ip.1]))
    } else {
        None
    }
}

/// The running block has no operation left; fails where the frame is in no block.
fn done(heap: &Heap) -> (r: Result<bool, EvalError>)
    ensures
        r is Ok <==> heap.frame.0.instruction_pointer.0 < heap.method.data.blocks@.len(),
        r matches Ok(d) ==> d == (heap.method.data.blocks@[heap.frame.0.instruction_pointer.0 as int].opcode@.len()
            <= heap.frame.0.instruction_pointer.1),
        r matches Err(e) ==> e is Unsupported,
{
    let ip = heap.frame.ip();
    if ip.0 >= heap.method.data.blocks.len() {
        return Err(EvalError::Unsupported);
    }
    Ok(heap.method.data.blocks[ip.0].opcode.len() <= ip.1)
}

/// The object stored under `addr` in the frame.
fn frame_value(heap: &Heap, addr: &CodeAddress) -> (r: Result<usize, EvalError>)
    ensures
        match crate::value_at(heap.frame.0.values@, *addr) {
            Some(v) => if v < heap.view().len() {
                r == Ok::<usize, EvalError>(v)
            } else {
                r == Err::<usize, EvalError>(EvalError::Unsupported)
            },
            None => r == Err::<usize, EvalError>(EvalError::Unsupported),
        },
{
    match heap.frame.get_value(addr) {
        Some(v) => {
            if v < heap.len() {
                Ok(v)
            } else {
                Err(EvalError::Unsupported)
            }
        },
        None => Err(EvalError::Unsupported),
    }
}

/// `o` is the object that running `op` makes: the number, the character, a string holding
/// the operation's text, or a block object for the block's number.
pub open spec fn made_by(op: Operation, o: Obj) -> bool {
    match op {
        Operation::Int(v) => o == Obj::Int(crate::runtime::integer::IntReceiver(v)),
        Operation::Char(c) => o == Obj::Char(crate::runtime::chr::CharReceiver(c)),
        Operation::String(t) => o matches Obj::Str(x) && x.val@ == t@,
        Operation::Block(b) => o matches Obj::CompiledBlock(x) && x.block == b,
        _ => false,
    }
}

/// Running a string operation makes a string that holds the operation's text, and running a
/// number operation makes that number.
pub proof fn law_operation_object(op: Operation, o: Obj)
    requires
        made_by(op, o),
    ensures
        op matches Operation::String(t) ==> o matches Obj::Str(x) && x.val@ == t@,
        op matches Operation::Int(v) ==> o matches Obj::Int(n) && n.0 == v,
        op matches Operation::Char(c) ==> o matches Obj::Char(x) && x.0 == c,
{
}

/// An operation that only makes a new object: a number, a character, a string or a block.
pub open spec fn makes_object(o: Operation) -> bool {
    o is Int || o is Char || o is String || o is Block
}

/// From the address `ip` to the end of its block every operation only makes a new object,
/// and the block's result is the address of one of them.
pub open spec fn straight_run(m: CompiledMethodData, ip: CodeAddress) -> bool {
    &&& ip.0 < m.blocks@.len()
    &&& ip.1 <= m.blocks@[ip.0 as int].opcode@.len() < usize::MAX
    &&& forall|k: int|
        ip.1 <= k < m.blocks@[ip.0 as int].opcode@.len() ==> makes_object(
            #[trigger] m.blocks@[ip.0 as int].opcode@[k],
        )
    &&& m.blocks@[ip.0 as int].result matches Some(a) && a.0 == ip.0 && ip.1 <= a.1 && a.1
        < m.blocks@[ip.0 as int].opcode@.len()
}

/// An object of a heap of `n` objects is stored under `a`.
pub open spec fn holds_object(values: Seq<(CodeAddress, usize)>, a: CodeAddress, n: nat) -> bool {
    match crate::value_at(values, a) {
        Some(v) => v < n,
        None => false,
    }
}

/// Under `a` is stored an object of `h` that `op` makes.
pub open spec fn holds_made(values: Seq<(CodeAddress, usize)>, a: CodeAddress, h: Seq<Obj>, op: Operation) -> bool {
    match crate::value_at(values, a) {
        Some(v) => v < h.len() && made_by(op, h[v as int]),
        None => false,
    }
}

/// The operation at the result address of the block `ip` is in.
pub open spec fn result_op(m: CompiledMethodData, ip: CodeAddress) -> Operation {
    m.blocks@[ip.0 as int].opcode@[m.blocks@[ip.0 as int].result->Some_0.1 as int]
}

/// The number of operations from `ip` to the end of its block.
pub open spec fn steps_left(m: CompiledMethodData, ip: CodeAddress) -> int {
    m.blocks@[ip.0 as int].opcode@.len() - ip.1
}

/// The frame has run its block to the end and `v` is stored under the block's result address.
pub open spec fn ended_with(m: CompiledMethodData, f: crate::FrameData, v: usize) -> bool {
    let ip = f.instruction_pointer;
    &&& ip.0 < m.blocks@.len()
    &&& m.blocks@[ip.0 as int].opcode@.len() <= ip.1
    &&& m.blocks@[ip.0 as int].result matches Some(a) && crate::value_at(f.values@, a) == Some(v)
}

/// Runs the operation at the frame's address and stores its value under the address the
/// frame holds afterwards, then moves on.
#[verifier::loop_isolation(false)]
fn process_step(heap: &mut Heap, fuel: u64) -> (r: Result<(), EvalError>)
    requires
        heap_ok(old(heap).view()),
        fuel > 0,
    ensures
        heap_ok(final(heap).view()),
        crate::runtime::grows(old(heap).view(), final(heap).view()),
        ({
            let ip = old(heap).frame.0.instruction_pointer;
            let m = old(heap).method.data;
            ip.0 < m.blocks@.len() && ip.1 < m.blocks@[ip.0 as int].opcode@.len() && makes_object(
                m.blocks@[ip.0 as int].opcode@[ip.1 as int],
            ) && old(heap).view().len() < usize::MAX - 1 && ip.1 < usize::MAX - 1 ==> {
                &&& r is Ok
                &&& final(heap).method == old(heap).method
                &&& final(heap).frame.0.instruction_pointer == CodeAddress(ip.0, (ip.1 + 1) as usize)
                &&& final(heap).view().len() == old(heap).view().len() + 1
                &&& final(heap).view().drop_last() == old(heap).view()
                &&& made_by(m.blocks@[ip.0 as int].opcode@[ip.1 as int], final(heap).view().last())
                &&& crate::value_at(final(heap).frame.0.values@, ip) == Some(old(heap).view().len() as usize)
                &&& forall|k: CodeAddress|
                    k != ip ==> #[trigger] crate::value_at(final(heap).frame.0.values@, k)
                        == crate::value_at(old(heap).frame.0.values@, k)
            }
        }),
    decreases fuel, 0nat,
{
    let ghost h = heap.view();
    proof {
        crate::runtime::lemma_grows_refl(h);
    }
    let ip = heap.frame.ip();
    let op = match operation_at(heap, ip) {
        Some(op) => op,
        None => {
            return Err(EvalError::Unsupported);
        },
    };
    let res: Result<usize, EvalError> = match op {
        Operation::Int(v) => crate::runtime::alloc_ok(heap, Obj::Int(crate::runtime::integer::IntReceiver::new(v))),
        Operation::Invoke(selector, receiver, args) => {
            let rec = frame_value(heap, &receiver)?;
            let mut argv: Vec<usize> = Vec::new();
            let mut i: usize = 0;
            while i < args.len()
                invariant
                    heap.view() == h,
                    heap_ok(h),
                    rec < h.len(),
                    crate::runtime::refs_ok(argv@, h.len()),
                    i <= args@.len(),
                decreases args.len() - i,
            {
                let x = frame_value(heap, &args[i])?;
                argv.push(x);
                i = i + 1;
            }
            crate::send_message(heap, rec, selector.as_str(), &argv, fuel - 1)
        },
        Operation::Block(b) => crate::runtime::alloc_ok(heap, Obj::CompiledBlock(CompiledBlock::new(b))),
        Operation::Char(c) => crate::runtime::alloc_ok(heap, Obj::Char(crate::runtime::chr::CharReceiver::new(c))),
        Operation::String(s) => crate::runtime::alloc_text(heap, s),
        Operation::Return(addr) => frame_value(heap, &addr),
        Operation::Move(from, Some(to)) => {
            let v = frame_value(heap, &from)?;
            heap.frame.set_value(&to, v);
            Ok(v)
        },
        _ => Err(EvalError::Unsupported),
    };
    let v = res?;
    let now = heap.frame.ip();
    heap.frame.set_value(&now, v);
    if now.1 == usize::MAX {
        return Err(EvalError::Overflow);
    }
    heap.frame.next_ip();
    Ok(())
}

/// Runs operations until the block the frame is in has none left, then answers the value
/// stored under that block's result address.
#[verifier::loop_isolation(false)]
pub fn run_frame(heap: &mut Heap, fuel: u64) -> (r: Result<usize, EvalError>)
    requires
        heap_ok(old(heap).view()),
    ensures
        crate::runtime::step_ok(old(heap).view(), final(heap).view(), r),
        r matches Ok(v) ==> ended_with(final(heap).method.data, final(heap).frame.0, v),
        straight_run(old(heap).method.data, old(heap).frame.0.instruction_pointer) && steps_left(
            old(heap).method.data,
            old(heap).frame.0.instruction_pointer,
        ) <= fuel && old(heap).view().len() + steps_left(
            old(heap).method.data,
            old(heap).frame.0.instruction_pointer,
        ) < usize::MAX - 1 ==> r is Ok && made_by(
            result_op(old(heap).method.data, old(heap).frame.0.instruction_pointer),
            final(heap).view()[r->Ok_0 as int],
        ),
    decreases fuel, 1nat,
{
    let ghost h = heap.view();
    let ghost m0 = heap.method;
    let ghost ip0 = heap.frame.0.instruction_pointer;
    let ghost st = straight_run(m0.data, ip0) && steps_left(m0.data, ip0) <= fuel && h.len() + steps_left(
        m0.data,
        ip0,
    ) < usize::MAX - 1;
    let ghost n = m0.data.blocks@[ip0.0 as int].opcode@.len();
    proof {
        crate::runtime::lemma_grows_refl(h);
    }
    let mut budget: u64 = fuel;
    loop
        invariant
            heap_ok(heap.view()),
            crate::runtime::grows(h, heap.view()),
            budget <= fuel,
            st ==> {
                let ip = heap.frame.0.instruction_pointer;
                &&& heap.method == m0
                &&& ip.0 == ip0.0
                &&& ip0.1 <= ip.1 <= n
                &&& heap.view().len() == h.len() + (ip.1 - ip0.1)
                &&& budget == fuel - (ip.1 - ip0.1)
                &&& forall|k: usize|
                    ip0.1 <= k < ip.1 ==> #[trigger] holds_made(
                        heap.frame.0.values@,
                        CodeAddress(ip0.0, k),
                        heap.view(),
                        m0.data.blocks@[ip0.0 as int].opcode@[k as int],
                    )
            },
        decreases budget,
    {
        if done(heap)? {
            break;
        }
        if budget == 0 {
            return Err(EvalError::OutOfFuel);
        }
        let ghost h1 = heap.view();
        let ghost f1 = heap.frame.0;
        let res = process_step(heap, budget);
        proof {
            crate::runtime::lemma_grows_trans(h, h1, heap.view());
            if st {
                assert(makes_object(m0.data.blocks@[ip0.0 as int].opcode@[f1.instruction_pointer.1 as int]));
                assert forall|k: usize|
                    ip0.1 <= k < heap.frame.0.instruction_pointer.1 implies #[trigger] holds_made(
                        heap.frame.0.values@,
                        CodeAddress(ip0.0, k),
                        heap.view(),
                        m0.data.blocks@[ip0.0 as int].opcode@[k as int],
                    ) by {
                    if k != f1.instruction_pointer.1 {
                        assert(holds_made(f1.values@, CodeAddress(ip0.0, k), h1, m0.data.blocks@[ip0.0 as int].opcode@[k as int]));
                        assert(crate::value_at(heap.frame.0.values@, CodeAddress(ip0.0, k))
                            == crate::value_at(f1.values@, CodeAddress(ip0.0, k)));
                        let v = crate::value_at(f1.values@, CodeAddress(ip0.0, k))->Some_0;
                        assert(heap.view()[v as int] == heap.view().drop_last()[v as int]);
                    } else {
                        assert(CodeAddress(ip0.0, k) == f1.instruction_pointer);
                    }
                }
            }
        }
        res?;
        budget = budget - 1;
    }
    let blk = heap.frame.ip().0;
    if blk >= heap.method.data.blocks.len() {
        return Err(EvalError::Unsupported);
    }
    match heap.method.data.blocks[blk].result {
        Some(addr) => {
            proof {
                if st {
                    assert(addr == CodeAddress(ip0.0, addr.1));
                    assert(holds_made(
                        heap.frame.0.values@,
                        CodeAddress(ip0.0, addr.1),
                        heap.view(),
                        m0.data.blocks@[ip0.0 as int].opcode@[addr.1 as int],
                    ));
                }
            }
            frame_value(heap, &addr)
        },
        None => Err(EvalError::Unsupported),
    }
}

/// What a block of the running method answers: only `value` and `value:` are understood.
pub open spec fn compiled_block_reply(h: Seq<Obj>, h2: Seq<Obj>, selector: Seq<char>, r: Result<usize, EvalError>) -> bool {
    !(selector == "value"@ || selector == "value:"@) ==> (r is Err && r->Err_0 is NotUnderstood) && h2 == h
}

/// `value` and `value:` run the block in the running method's frame: the frame jumps to the
/// block's first operation, its `Arg` operations take the arguments, and the block runs to
/// its end.
#[verifier::loop_isolation(false)]
pub fn receive_compiled_block(heap: &mut Heap, block: usize, selector: &str, args: &Vec<usize>, fuel: u64) -> (r:
    Result<usize, EvalError>)
    requires
        heap_ok(old(heap).view()),
        crate::runtime::refs_ok(args@, old(heap).view().len()),
        fuel > 0,
    ensures
        crate::runtime::step_ok(old(heap).view(), final(heap).view(), r),
        compiled_block_reply(old(heap).view(), final(heap).view(), selector@, r),
    decreases fuel, 1nat,
{
    proof {
        crate::runtime::lemma_grows_refl(heap.view());
        reveal_strlit("value");
        reveal_strlit("value:");
    }
    if !(str_eq(selector, "value") || str_eq(selector, "value:")) {
        return Err(EvalError::NotUnderstood(selector.to_owned()));
    }
    heap.frame.call(CodeAddress(block, 0));
    if str_eq(selector, "value:") {
        loop
            invariant
                heap_ok(heap.view()),
                crate::runtime::refs_ok(args@, heap.view().len()),
                heap.view() == old(heap).view(),
                heap.frame.0.instruction_pointer.0 == block,
            decreases usize::MAX - heap.frame.0.instruction_pointer.1,
        {
            let ip = heap.frame.ip();
            match operation_at(heap, ip) {
                Some(Operation::Arg(n)) => {
                    if n >= args.len() {
                        return Err(EvalError::MissingArgument);
                    }
                    heap.frame.set_value(&ip, args[n]);
                    if ip.1 == usize::MAX {
                        return Err(EvalError::Overflow);
                    }
                    heap.frame.next_ip();
                },
                _ => {
                    break;
                },
            }
        }
    }
    run_frame(heap, fuel - 1)
}

/// What a new method holds: one empty block, being compiled, and no stack or names.
pub open spec fn fresh_data(d: CompiledMethodData) -> bool {
    &&& d.blocks@.len() == 1
    &&& d.blocks@[0].opcode@.len() == 0
    &&& d.blocks@[0].result is None
    &&& d.current_block == 0
    &&& d.stack@.len() == 0
    &&& d.names@.len() == 0
}

/// Parses a script and compiles its statements into one method.
#[verifier::loop_isolation(false)]
pub fn compile_script(input_string: String) -> (r: Result<CompiledMethod, EvalError>)
    ensures
        r matches Ok(m) ==> wf_data(m.data),
        crate::parser::lexemes_from(input_string@, 0) matches Err(p) ==> (r matches Err(
            EvalError::Syntax(crate::parser::SyntaxError::Lex(e)),
        ) && e.position == p),
        r matches Ok(m) ==> exists|toks: Seq<crate::parser::Token>, tree: AST, d0: CompiledMethodData, a: CodeAddress|
            #[trigger] crate::evaluation::witness((toks, tree, d0, a)) && crate::parser::lexed(input_string@, toks)
                && crate::grammar::script(toks, tree) && fresh_data(d0) && compiled(
                d0,
                m.data,
                tree,
                Ok(a),
            ),
        r matches Err(EvalError::Compile(err)) ==> exists|
            toks: Seq<crate::parser::Token>,
            tree: AST,
            d0: CompiledMethodData,
            d1: CompiledMethodData,
        |
            #[trigger] crate::evaluation::witness((toks, tree, d0, d1)) && crate::parser::lexed(input_string@, toks)
                && crate::grammar::script(toks, tree) && fresh_data(d0) && compiled(d0, d1, tree, Err(err))
                && script_fault(tree, err),
        r matches Err(e) ==> e is Syntax || e is Compile,
{
    let ghost input = input_string@;
    let trees = match crate::parser::parse_script(input_string) {
        Ok(t) => t,
        Err(e) => {
            return Err(EvalError::Syntax(e));
        },
    };
    let ghost toks = choose|toks: Seq<crate::parser::Token>|
        #[trigger] crate::evaluation::witness(toks) && crate::parser::lexed(input, toks)
            && crate::grammar::script(toks, trees@[0]);
    let mut o = CompiledMethod::new();
    let ghost d0 = o.data;
    let ghost mut last: Result<CodeAddress, CompileError> = Ok(CodeAddress(0, 0));
    let mut i: usize = 0;
    while i < trees.len()
        invariant
            wf_data(o.data),
            trees@.len() == 1,
            i <= 1,
            fresh_data(d0),
            i == 0 ==> o.data == d0,
            i == 1 ==> last is Ok && compiled(d0, o.data, trees@[0], last),
        decreases trees.len() - i,
    {
        let ghost before = o.data;
        let res = o.compile(&trees[i]);
        proof {
            last = res;
        }
        match res {
            Ok(_) => {},
            Err(e) => {
                proof {
                    assert(crate::evaluation::witness((toks, trees@[0], d0, o.data)));
                    let t = trees@[0];
                    if e == CompileError::Unsupported && !unsupported_node(t) {
                        assert(room_out(o.data));
                        if o.data.blocks@.len() < usize::MAX - 1 {
                            let k = choose|k: int| 0 <= k < ops(o.data).len() && (#[trigger] ops(o.data)[k]).len() >= usize::MAX - 1;
                            assert(ops(o.data)[k].len() <= (if k < ops(d0).len() { ops(d0)[k].len() as int } else { 0 }) + ast_size(t));
                        }
                    }
                }
                return Err(EvalError::Compile(e));
            },
        }
        i = i + 1;
    }
    proof {
        assert(crate::evaluation::witness((toks, trees@[0], d0, last->Ok_0)));
    }
    Ok(o)
}

impl CompiledMethod {
    /// Runs the method in `ctx` on a new heap and answers the heap and the value of the
    /// block the frame ends in.
    pub fn run(self, ctx: MethodContext) -> (r: Result<(Heap, usize), EvalError>)
        ensures
            r matches Ok((heap, v)) ==> heap_ok(heap.view()) && v < heap.view().len() && ended_with(
                heap.method.data,
                heap.frame.0,
                v,
            ),
            straight_run(self.data, ctx.0.instruction_pointer) && steps_left(self.data, ctx.0.instruction_pointer)
                <= crate::EVAL_FUEL ==> r is Ok && made_by(
                result_op(self.data, ctx.0.instruction_pointer),
                r->Ok_0.0.view()[r->Ok_0.1 as int],
            ),
    {
        let mut heap = Heap::with_method(self, ctx);
        let v = run_frame(&mut heap, crate::EVAL_FUEL)?;
        Ok((heap, v))
    }
}

} // verus!
