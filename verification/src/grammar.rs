use vstd::prelude::*;

use crate::evaluation::witness;
use crate::parser::{digits_value, Token, TokenKind, AST};

verus! {

/// Token `i` is of kind `k`.
pub open spec fn at(ts: Seq<Token>, i: int, k: TokenKind) -> bool {
    0 <= i < ts.len() && ts[i].kind == k
}

/// Token `i` as a literal or a variable: an integer that fits in 64 bits, an identifier, a
/// string without its quotes, or the character after `$`.
pub open spec fn literal(ts: Seq<Token>, i: int, a: AST) -> bool {
    &&& 0 <= i < ts.len()
    &&& match ts[i].kind {
        TokenKind::Int => digits_value(ts[i].text@) <= i64::MAX && a == AST::Int(
            digits_value(ts[i].text@) as i64,
        ),
        TokenKind::Identifier => a matches AST::Variable(s) && s@ == ts[i].text@,
        TokenKind::Str => a matches AST::String(s) && s@ == ts[i].text@.subrange(
            1,
            ts[i].text@.len() - 1,
        ),
        TokenKind::Char => a == AST::Char(ts[i].text@[1]),
        _ => false,
    }
}

/// The messages `msgs` are the unary messages named by the identifiers from token `k` on.
pub open spec fn unary_msgs(ts: Seq<Token>, k: int, msgs: Seq<AST>) -> bool {
    forall|m: int|
        0 <= m < msgs.len() ==> at(ts, k + m, TokenKind::Identifier) && (#[trigger] msgs[m] matches AST::Message {
            name,
            args,
        } && name@ == ts[k + m].text@ && args@.len() == 0)
}

/// The position after `| a b |` at `p`, or `p` where there is none.
pub open spec fn skip_temps(ts: Seq<Token>, p: int) -> int {
    if at(ts, p, TokenKind::Bar) {
        let e = idents_end(ts, p + 1);
        if at(ts, e, TokenKind::Bar) {
            e + 1
        } else {
            p
        }
    } else {
        p
    }
}

/// The first position from `p` on that holds no identifier.
pub open spec fn idents_end(ts: Seq<Token>, p: int) -> int
    decreases ts.len() - p,
{
    if at(ts, p, TokenKind::Identifier) {
        idents_end(ts, p + 1)
    } else {
        p
    }
}

/// `a` is the send `left` with one more message named `name` with one argument: appended to
/// `left`'s messages where `left` is a send.
pub open spec fn appended(left: AST, a: AST, name: Seq<char>) -> bool {
    &&& a matches AST::InvokeSequence(t, msgs)
    &&& msgs@.len() >= 1
    &&& msgs@.last() matches AST::Message { name: n, args } && n@ == name && args@.len() == 1
    &&& match left {
        AST::InvokeSequence(lt, lmsgs) => t == lt && msgs@.drop_last() == lmsgs@,
        _ => *t == left && msgs@.len() == 1,
    }
}

/// The argument of the last message of a send.
pub open spec fn last_arg(a: AST) -> AST {
    a->InvokeSequence_1@.last()->Message_args@[0]
}

/// Tokens `i..j` are a primary: a block, `{ expression }`, `( expression )` or a literal.
pub open spec fn primary(ts: Seq<Token>, i: int, j: int, a: AST) -> bool
    decreases j - i, 0int,
{
    if 0 <= i < j <= ts.len() {
        if at(ts, i, TokenKind::LBracket) {
            block(ts, i + 1, j, a)
        } else if at(ts, i, TokenKind::LBrace) {
            &&& i + 1 < j - 1
            &&& at(ts, j - 1, TokenKind::RBrace)
            &&& a matches AST::Table(v)
            &&& v@.len() == 1
            &&& expression(ts, i + 1, j - 1, v@[0])
        } else if at(ts, i, TokenKind::LParen) {
            i + 1 < j - 1 && at(ts, j - 1, TokenKind::RParen) && expression(ts, i + 1, j - 1, a)
        } else {
            j == i + 1 && literal(ts, i, a)
        }
    } else {
        false
    }
}

/// Tokens `i..j` are a primary followed by all the unary messages that follow it.
pub open spec fn unary(ts: Seq<Token>, i: int, j: int, a: AST) -> bool
    decreases j - i, 1int,
{
    if 0 <= i < j <= ts.len() {
        &&& !at(ts, j, TokenKind::Identifier)
        &&& {
            ||| primary(ts, i, j, a)
            ||| a matches AST::InvokeSequence(t, msgs) && msgs@.len() >= 1 && i < j - msgs@.len()
                && primary(ts, i, j - msgs@.len(), *t) && unary_msgs(ts, j - msgs@.len(), msgs@)
        }
    } else {
        false
    }
}

/// Tokens `i..j` are unary expressions joined by binary selectors, gathered from the left
/// (not necessarily all that follow).
pub open spec fn binary_prefix(ts: Seq<Token>, i: int, j: int, a: AST) -> bool
    decreases j - i, 2int,
{
    if 0 <= i < j <= ts.len() {
        ||| unary(ts, i, j, a)
        ||| exists|k: int, left: AST|
            #[trigger] witness((k, left)) && i < k && k + 1 < j && binary_prefix(ts, i, k, left) && at(
                ts,
                k,
                TokenKind::Binary,
            ) && appended(left, a, ts[k].text@) && unary(ts, k + 1, j, last_arg(a))
    } else {
        false
    }
}

/// Tokens `i..j` are unary expressions joined by all the binary selectors that follow.
pub open spec fn binary(ts: Seq<Token>, i: int, j: int, a: AST) -> bool
    decreases j - i, 3int,
{
    if 0 <= i < j <= ts.len() {
        !at(ts, j, TokenKind::Binary) && binary_prefix(ts, i, j, a)
    } else {
        false
    }
}

/// Tokens `p..q` are binary messages, each a binary selector and a unary expression.
pub open spec fn bin_msgs(ts: Seq<Token>, p: int, q: int, ms: Seq<AST>) -> bool
    decreases q - p, 2int,
{
    if 0 <= p <= q <= ts.len() {
        if ms.len() == 0 {
            p == q
        } else {
            exists|r: int|
                #[trigger] witness(r) && p <= r && r + 1 < q && bin_msgs(ts, p, r, ms.drop_last()) && at(
                    ts,
                    r,
                    TokenKind::Binary,
                ) && (ms.last() matches AST::Message { name, args } && name@ == ts[r].text@
                    && args@.len() == 1 && unary(ts, r + 1, q, args@[0]))
        }
    } else {
        false
    }
}

/// Tokens `i..j` are keyword parts, each a keyword and a binary expression; `name` is the
/// keywords joined and `args` the expressions.
pub open spec fn kw_parts(ts: Seq<Token>, i: int, j: int, name: Seq<char>, args: Seq<AST>) -> bool
    decreases j - i, 4int,
{
    if 0 <= i <= j <= ts.len() {
        if args.len() == 0 {
            j == i && name.len() == 0
        } else {
            exists|k: int|
                #[trigger] witness(k) && i <= k && k + 1 < j && at(ts, k, TokenKind::Keyword) && name.len()
                    >= ts[k].text@.len() && kw_parts(
                    ts,
                    i,
                    k,
                    name.subrange(0, name.len() - ts[k].text@.len()),
                    args.drop_last(),
                ) && name.subrange(name.len() - ts[k].text@.len(), name.len() as int)
                    == ts[k].text@ && binary(ts, k + 1, j, args.last())
        }
    } else {
        false
    }
}

/// Tokens `i..j` are a keyword message: all the keyword parts that follow.
pub open spec fn keyword_msg(ts: Seq<Token>, i: int, j: int, m: AST) -> bool
    decreases j - i, 5int,
{
    &&& m matches AST::Message { name, args }
    &&& args@.len() >= 1
    &&& kw_parts(ts, i, j, name@, args@)
    &&& !at(ts, j, TokenKind::Keyword)
}

/// Tokens `k..j` are the messages of a basic expression: all the unary messages that
/// follow, then all the binary messages, then at most one keyword message.
pub open spec fn basic_msgs(ts: Seq<Token>, k: int, j: int, msgs: Seq<AST>) -> bool
    decreases j - k, 6int,
{
    if 0 <= k <= j <= ts.len() {
        exists|k1: int, k2: int, nb: int|
            #[trigger] witness((k1, k2, nb)) && k <= k1 <= k2 <= j && 0 <= nb && k1 - k + nb
                <= msgs.len() && unary_msgs(ts, k, msgs.take(k1 - k)) && !at(
                ts,
                k1,
                TokenKind::Identifier,
            ) && bin_msgs(ts, k1, k2, msgs.subrange(k1 - k, k1 - k + nb)) && !at(
                ts,
                k2,
                TokenKind::Binary,
            ) && if at(ts, k2, TokenKind::Keyword) {
                msgs.len() == k1 - k + nb + 1 && keyword_msg(ts, k2, j, msgs.last())
            } else {
                msgs.len() == k1 - k + nb && j == k2
            }
    } else {
        false
    }
}

/// Tokens `i..j` are a basic expression: a primary and the messages that follow it, all
/// sent to the primary's value.
pub open spec fn basic(ts: Seq<Token>, i: int, j: int, a: AST) -> bool
    decreases j - i, 7int,
{
    if 0 <= i < j <= ts.len() {
        ||| primary(ts, i, j, a) && !at(ts, j, TokenKind::Identifier) && !at(ts, j, TokenKind::Binary)
            && !at(ts, j, TokenKind::Keyword)
        ||| a matches AST::InvokeSequence(t, msgs) && msgs@.len() >= 1 && exists|k: int|
            #[trigger] witness(k) && i < k < j && primary(ts, i, k, *t) && basic_msgs(ts, k, j, msgs@)
    } else {
        false
    }
}

/// Tokens `i..j` are an expression: `name := expression` (or `<-`), or a basic expression.
pub open spec fn expression(ts: Seq<Token>, i: int, j: int, a: AST) -> bool
    decreases j - i, 8int,
{
    if 0 <= i < j <= ts.len() {
        if at(ts, i, TokenKind::Identifier) && at(ts, i + 1, TokenKind::Assign) {
            &&& a matches AST::Assign(n, e)
            &&& (*n matches AST::Name(s) && s@ == ts[i].text@)
            &&& i + 2 < j
            &&& expression(ts, i + 2, j, *e)
        } else {
            basic(ts, i, j, a)
        }
    } else {
        false
    }
}

/// A dot at `q` that separates two statements: something other than `]` follows it.
pub open spec fn separating_dot(ts: Seq<Token>, q: int) -> bool {
    at(ts, q, TokenKind::Dot) && q + 1 < ts.len() && !at(ts, q + 1, TokenKind::RBracket)
}

/// Tokens `i..p` are the statements `v`, each an expression followed by a separating dot.
pub open spec fn stmts_prefix(ts: Seq<Token>, i: int, p: int, v: Seq<AST>) -> bool
    decreases p - i, 9int,
{
    if 0 <= i <= p <= ts.len() {
        if v.len() == 0 {
            p == i
        } else {
            exists|r: int|
                #[trigger] witness(r) && i <= r && r + 1 < p && stmts_prefix(ts, i, r, v.drop_last())
                    && !at(ts, r, TokenKind::Return) && expression(ts, r, p - 1, v.last())
                    && separating_dot(ts, p - 1)
        }
    } else {
        false
    }
}

/// Tokens `p..j` are the last statement `s`: `^ expression` with an optional dot, or an
/// expression not followed by a separating dot.
pub open spec fn last_stmt(ts: Seq<Token>, p: int, j: int, s: AST) -> bool
    decreases j - p, 9int,
{
    if 0 <= p < j <= ts.len() {
        if at(ts, p, TokenKind::Return) {
            s matches AST::Return(e) && exists|q: int|
                #[trigger] witness(q) && p + 1 < q <= j && expression(ts, p + 1, q, *e) && j == if at(
                    ts,
                    q,
                    TokenKind::Dot,
                ) {
                    q + 1
                } else {
                    q
                }
        } else {
            expression(ts, p, j, s) && !separating_dot(ts, j)
        }
    } else {
        false
    }
}

/// Tokens `i..j` are a statement list.
pub open spec fn statements(ts: Seq<Token>, i: int, j: int, a: AST) -> bool
    decreases j - i, 10int,
{
    if 0 <= i < j <= ts.len() {
        &&& a matches AST::Statements(v)
        &&& v@.len() >= 1
        &&& exists|p: int|
            #[trigger] witness(p) && i <= p < j && stmts_prefix(ts, i, p, v@.drop_last()) && last_stmt(
                ts,
                p,
                j,
                v@.last(),
            )
    } else {
        false
    }
}

/// The parameters `params` stand from token `i` on, each a colon and an identifier.
pub open spec fn block_params(ts: Seq<Token>, i: int, params: Seq<String>) -> bool
    decreases params.len(),
{
    if params.len() == 0 {
        true
    } else {
        let m = params.len() - 1;
        &&& block_params(ts, i, params.drop_last())
        &&& at(ts, i + 2 * m, TokenKind::Colon)
        &&& at(ts, i + 2 * m + 1, TokenKind::Identifier)
        &&& params.last()@ == ts[i + 2 * m + 1].text@
    }
}

/// One more parameter after those that stand from token `i` on.
pub proof fn lemma_block_params_push(ts: Seq<Token>, i: int, params: Seq<String>, x: String)
    requires
        block_params(ts, i, params),
        at(ts, i + 2 * params.len(), TokenKind::Colon),
        at(ts, i + 2 * params.len() + 1, TokenKind::Identifier),
        x@ == ts[i + 2 * params.len() + 1].text@,
    ensures
        block_params(ts, i, params.push(x)),
{
    assert(params.push(x).drop_last() =~= params);
}

/// Tokens `i..j` are a block after its `[`: parameters `:x :y |`, temporaries `| a b |`
/// (dropped), statements and `]`.
pub open spec fn block(ts: Seq<Token>, i: int, j: int, a: AST) -> bool
    decreases j - i, 11int,
{
    if 0 <= i < j <= ts.len() {
        &&& a matches AST::Block { params, temps, body }
        &&& temps@.len() == 0
        &&& block_params(ts, i, params@)
        &&& !at(ts, i + 2 * params@.len(), TokenKind::Colon)
        &&& params@.len() > 0 ==> at(ts, i + 2 * params@.len(), TokenKind::Bar)
        &&& {
            let p = skip_temps(
                ts,
                if params@.len() > 0 {
                    i + 2 * params@.len() + 1
                } else {
                    i
                },
            );
            i <= p < j - 1 && statements(ts, p, j - 1, *body) && at(ts, j - 1, TokenKind::RBracket)
        }
    } else {
        false
    }
}

/// The tokens are a script: statements, then at most a dot.
pub open spec fn script(ts: Seq<Token>, a: AST) -> bool {
    exists|q: int|
        #[trigger] witness(q) && statements(ts, 0, q, a) && (q == ts.len() || (at(ts, q, TokenKind::Dot)
            && q + 1 == ts.len()))
}

/// A unary expression starts a chain of binary messages.
pub proof fn lemma_binary_start(ts: Seq<Token>, i: int, j: int, a: AST)
    requires
        unary(ts, i, j, a),
    ensures
        binary_prefix(ts, i, j, a),
{
}

/// One more binary message extends a chain.
pub proof fn lemma_binary_step(ts: Seq<Token>, i: int, k: int, left: AST, j: int, a: AST)
    requires
        binary_prefix(ts, i, k, left),
        i < k,
        k + 1 < j <= ts.len(),
        at(ts, k, TokenKind::Binary),
        appended(left, a, ts[k].text@),
        unary(ts, k + 1, j, last_arg(a)),
    ensures
        binary_prefix(ts, i, j, a),
{
    assert(witness((k, left)));
}

/// No keyword parts stand at `i`.
pub proof fn lemma_kw_start(ts: Seq<Token>, i: int)
    requires
        0 <= i <= ts.len(),
    ensures
        kw_parts(ts, i, i, Seq::empty(), Seq::empty()),
{
}

/// One more keyword part extends the keyword parts.
pub proof fn lemma_kw_step(
    ts: Seq<Token>,
    i: int,
    k: int,
    name: Seq<char>,
    args: Seq<AST>,
    j: int,
    arg: AST,
)
    requires
        kw_parts(ts, i, k, name, args),
        i <= k,
        k + 1 < j <= ts.len(),
        at(ts, k, TokenKind::Keyword),
        binary(ts, k + 1, j, arg),
    ensures
        kw_parts(ts, i, j, name + ts[k].text@, args.push(arg)),
{
    let t = ts[k].text@;
    let n2 = name + t;
    assert(witness(k));
    assert(n2.subrange(0, n2.len() - t.len()) =~= name);
    assert(n2.subrange(n2.len() - t.len(), n2.len() as int) =~= t);
    assert(args.push(arg).drop_last() =~= args);
}

/// One more unary message after those that stand from token `k` on.
pub proof fn lemma_unary_msgs_push(ts: Seq<Token>, k: int, msgs: Seq<AST>, m: AST)
    requires
        unary_msgs(ts, k, msgs),
        at(ts, k + msgs.len(), TokenKind::Identifier),
        m matches AST::Message { name, args } && name@ == ts[k + msgs.len()].text@ && args@.len() == 0,
    ensures
        unary_msgs(ts, k, msgs.push(m)),
{
    let q = msgs.push(m);
    assert forall|i: int| 0 <= i < q.len() implies at(ts, k + i, TokenKind::Identifier) && (
    #[trigger] q[i] matches AST::Message { name, args } && name@ == ts[k + i].text@ && args@.len()
        == 0) by {
        if i < msgs.len() {
            assert(q[i] == msgs[i]);
        }
    }
}

/// No binary messages stand at `p`.
pub proof fn lemma_bin_msgs_start(ts: Seq<Token>, p: int)
    requires
        0 <= p <= ts.len(),
    ensures
        bin_msgs(ts, p, p, Seq::empty()),
{
}

/// One more binary message extends binary messages.
pub proof fn lemma_bin_msgs_step(ts: Seq<Token>, p: int, r: int, ms: Seq<AST>, q: int, m: AST)
    requires
        bin_msgs(ts, p, r, ms),
        p <= r,
        r + 1 < q <= ts.len(),
        at(ts, r, TokenKind::Binary),
        m matches AST::Message { name, args } && name@ == ts[r].text@ && args@.len() == 1 && unary(
            ts,
            r + 1,
            q,
            args@[0],
        ),
    ensures
        bin_msgs(ts, p, q, ms.push(m)),
{
    assert(witness(r));
    assert(ms.push(m).drop_last() =~= ms);
}

/// The messages of a basic expression, from their parts.
pub proof fn lemma_basic_msgs(ts: Seq<Token>, k: int, j: int, msgs: Seq<AST>, k1: int, k2: int, nb: int)
    requires
        0 <= k <= k1 <= k2 <= j <= ts.len(),
        0 <= nb,
        k1 - k + nb <= msgs.len(),
        unary_msgs(ts, k, msgs.take(k1 - k)),
        !at(ts, k1, TokenKind::Identifier),
        bin_msgs(ts, k1, k2, msgs.subrange(k1 - k, k1 - k + nb)),
        !at(ts, k2, TokenKind::Binary),
        if at(ts, k2, TokenKind::Keyword) {
            msgs.len() == k1 - k + nb + 1 && keyword_msg(ts, k2, j, msgs.last())
        } else {
            msgs.len() == k1 - k + nb && j == k2
        },
    ensures
        basic_msgs(ts, k, j, msgs),
{
    assert(witness((k1, k2, nb)));
}

/// A primary and the messages sent to it are a basic expression.
pub proof fn lemma_basic_send(ts: Seq<Token>, i: int, k: int, j: int, a: AST)
    requires
        a matches AST::InvokeSequence(t, msgs) && msgs@.len() >= 1 && primary(ts, i, k, *t)
            && basic_msgs(ts, k, j, msgs@),
        0 <= i < k < j <= ts.len(),
    ensures
        basic(ts, i, j, a),
{
    assert(witness(k));
}

/// One more statement, followed by a separating dot, extends the statements.
pub proof fn lemma_stmts_prefix_step(ts: Seq<Token>, i: int, r: int, v: Seq<AST>, p: int, e: AST)
    requires
        stmts_prefix(ts, i, r, v),
        i <= r,
        r + 1 < p <= ts.len(),
        !at(ts, r, TokenKind::Return),
        expression(ts, r, p - 1, e),
        separating_dot(ts, p - 1),
    ensures
        stmts_prefix(ts, i, p, v.push(e)),
{
    assert(witness(r));
    assert(v.push(e).drop_last() =~= v);
}

/// No statements stand at `i`.
pub proof fn lemma_stmts_prefix_start(ts: Seq<Token>, i: int)
    requires
        0 <= i <= ts.len(),
    ensures
        stmts_prefix(ts, i, i, Seq::empty()),
{
}

/// A return statement, with its optional dot, is a last statement.
pub proof fn lemma_last_return(ts: Seq<Token>, p: int, q: int, j: int, s: AST)
    requires
        at(ts, p, TokenKind::Return),
        s matches AST::Return(e) && expression(ts, p + 1, q, *e),
        p + 1 < q <= j <= ts.len(),
        j == if at(ts, q, TokenKind::Dot) {
            q + 1
        } else {
            q
        },
    ensures
        last_stmt(ts, p, j, s),
{
    assert(witness(q));
}

/// Statements before a last statement are a statement list.
pub proof fn lemma_statements(ts: Seq<Token>, i: int, p: int, j: int, a: AST)
    requires
        a matches AST::Statements(v) && v@.len() >= 1 && stmts_prefix(ts, i, p, v@.drop_last())
            && last_stmt(ts, p, j, v@.last()),
        0 <= i <= p < j <= ts.len(),
    ensures
        statements(ts, i, j, a),
{
    assert(witness(p));
}

/// Statements that end the tokens, or end before a last dot, are a script.
pub proof fn lemma_script(ts: Seq<Token>, q: int, a: AST)
    requires
        statements(ts, 0, q, a),
        q == ts.len() || (at(ts, q, TokenKind::Dot) && q + 1 == ts.len()),
    ensures
        script(ts, a),
{
    assert(witness(q));
}

/// The keyword pairs of a method header: keyword `m` stands at token `2m` and the name of
/// parameter `m` after it; `name` is the keywords joined.
pub open spec fn kw_header(ts: Seq<Token>, name: Seq<char>, params: Seq<String>) -> bool
    decreases params.len(),
{
    if params.len() == 0 {
        name.len() == 0
    } else {
        let m = params.len() - 1;
        let t = ts[2 * m].text@;
        &&& at(ts, 2 * m, TokenKind::Keyword)
        &&& at(ts, 2 * m + 1, TokenKind::Identifier)
        &&& params.last()@ == ts[2 * m + 1].text@
        &&& name.len() >= t.len()
        &&& name.subrange(name.len() - t.len(), name.len() as int) == t
        &&& kw_header(ts, name.subrange(0, name.len() - t.len()), params.drop_last())
    }
}

/// One more keyword pair in a method header.
pub proof fn lemma_kw_header_push(ts: Seq<Token>, name: Seq<char>, params: Seq<String>, x: String)
    requires
        kw_header(ts, name, params),
        at(ts, 2 * (params.len() as int), TokenKind::Keyword),
        at(ts, 2 * (params.len() as int) + 1, TokenKind::Identifier),
        x@ == ts[2 * (params.len() as int) + 1].text@,
    ensures
        kw_header(ts, name + ts[2 * (params.len() as int)].text@, params.push(x)),
{
    let t = ts[2 * (params.len() as int)].text@;
    let n2 = name + t;
    assert(n2.subrange(0, n2.len() - t.len()) =~= name);
    assert(n2.subrange(n2.len() - t.len(), n2.len() as int) =~= t);
    assert(params.push(x).drop_last() =~= params);
}

/// The header of a method up to token `p`: a unary selector, a binary selector and its
/// parameter, or keyword pairs (as many as stand there).
pub open spec fn method_header(ts: Seq<Token>, name: Seq<char>, params: Seq<String>, p: int) -> bool {
    if at(ts, 0, TokenKind::Identifier) {
        name == ts[0].text@ && params.len() == 0 && p == 1
    } else if at(ts, 0, TokenKind::Binary) && at(ts, 1, TokenKind::Identifier) {
        name == ts[0].text@ && params.len() == 1 && params[0]@ == ts[1].text@ && p == 2
    } else {
        &&& params.len() >= 1
        &&& p == 2 * params.len()
        &&& kw_header(ts, name, params)
        &&& !(at(ts, p, TokenKind::Keyword) && at(ts, p + 1, TokenKind::Identifier))
    }
}

/// The tokens are a method: a header, temporaries (dropped) and statements up to the end.
pub open spec fn method(ts: Seq<Token>, a: AST) -> bool {
    &&& a matches AST::Method { name, params, temps, body }
    &&& temps@.len() == 0
    &&& exists|p: int|
        #[trigger] witness(p) && method_header(ts, name@, params@, p) && statements(
            ts,
            skip_temps(ts, p),
            ts.len() as int,
            *body,
        )
}

/// A header and statements up to the end are a method.
pub proof fn lemma_method(ts: Seq<Token>, p: int, a: AST)
    requires
        a matches AST::Method { name, params, temps, body } && temps@.len() == 0 && method_header(
            ts,
            name@,
            params@,
            p,
        ) && statements(ts, skip_temps(ts, p), ts.len() as int, *body),
    ensures
        method(ts, a),
{
    assert(witness(p));
}

} // verus!
