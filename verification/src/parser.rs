use vstd::prelude::*;

use crate::evaluation::witness;
use crate::grammar::{
    appended, at, basic, basic_msgs, bin_msgs, binary, binary_prefix, block, expression, idents_end,
    keyword_msg, kw_parts, last_arg, last_stmt, literal, primary, script, separating_dot, skip_temps,
    statements, stmts_prefix, unary, unary_msgs,
};
use crate::text::{chars_of, string_of};

verus! {

/// The kinds of lexemes of the language. Whitespace and comments (text between double
/// quotes) separate lexemes and are dropped.
#[derive(Debug, Clone, Copy, PartialEq, Eq, Structural)]
pub enum TokenKind {
    /// `[0-9]+`
    Int,
    /// `[a-zA-Z_][a-zA-Z_0-9]*`
    Identifier,
    /// an identifier directly followed by `:`
    Keyword,
    /// text between single quotes, quotes included
    Str,
    Colon,
    EndOfChunk,
    Dot,
    LBracket,
    RBracket,
    LParen,
    RParen,
    Bar,
    LBrace,
    RBrace,
    /// `:=` or `<-`
    Assign,
    /// a run of the characters `-%&,*+/<=>?@~!`
    Binary,
    /// `$` and the character after it
    Char,
    /// `^`
    Return,
}

/// A lexeme: its kind, its text and where the text stands in the input (as character
/// positions, end exclusive).
#[derive(Debug, Clone)]
pub struct Token {
    pub kind: TokenKind,
    pub text: String,
    pub start: usize,
    pub end: usize,
}

pub open spec fn is_digit(c: char) -> bool {
    '0' <= c <= '9'
}

pub open spec fn is_ident_start(c: char) -> bool {
    ('a' <= c <= 'z') || ('A' <= c <= 'Z') || c == '_'
}

pub open spec fn is_ident_char(c: char) -> bool {
    is_ident_start(c) || is_digit(c)
}

pub open spec fn is_binary_char(c: char) -> bool {
    c == '-' || c == '%' || c == '&' || c == ',' || c == '*' || c == '+' || c == '/' || c
        == '<' || c == '=' || c == '>' || c == '?' || c == '@' || c == '~' || c == '!'
}

pub open spec fn is_space(c: char) -> bool {
    c == ' ' || c == '\t' || c == '\n' || c == '\r' || c == '\x0b' || c == '\x0c'
}

pub open spec fn all_digits(t: Seq<char>, from: int, to: int) -> bool {
    forall|i: int| from <= i < to ==> is_digit(#[trigger] t[i])
}

pub open spec fn all_ident(t: Seq<char>, from: int, to: int) -> bool {
    forall|i: int| from <= i < to ==> is_ident_char(#[trigger] t[i])
}

pub open spec fn all_binary(t: Seq<char>, from: int, to: int) -> bool {
    forall|i: int| from <= i < to ==> is_binary_char(#[trigger] t[i])
}

pub open spec fn no_quote(t: Seq<char>, from: int, to: int) -> bool {
    forall|i: int| from <= i < to ==> #[trigger] t[i] != '\''
}

/// `t` is a text of the lexeme kind `k`.
pub open spec fn kind_matches(k: TokenKind, t: Seq<char>) -> bool {
    match k {
        TokenKind::Int => t.len() >= 1 && all_digits(t, 0, t.len() as int),
        TokenKind::Identifier => t.len() >= 1 && is_ident_start(t[0]) && all_ident(t, 1, t.len() as int),
        TokenKind::Keyword => t.len() >= 2 && is_ident_start(t[0]) && all_ident(t, 1, t.len() - 1) && t.last() == ':',
        TokenKind::Str => t.len() >= 2 && t[0] == '\'' && t.last() == '\'' && no_quote(t, 1, t.len() - 1),
        TokenKind::Colon => t == seq![':'],
        TokenKind::EndOfChunk => t == seq!['!'],
        TokenKind::Dot => t == seq!['.'],
        TokenKind::LBracket => t == seq!['['],
        TokenKind::RBracket => t == seq![']'],
        TokenKind::LParen => t == seq!['('],
        TokenKind::RParen => t == seq![')'],
        TokenKind::Bar => t == seq!['|'],
        TokenKind::LBrace => t == seq!['{'],
        TokenKind::RBrace => t == seq!['}'],
        TokenKind::Assign => t == seq![':', '='] || t == seq!['<', '-'],
        TokenKind::Binary => t.len() >= 1 && all_binary(t, 0, t.len() as int),
        TokenKind::Char => t.len() == 2 && t[0] == '$' && t[1] != '\n',
        TokenKind::Return => t == seq!['^'],
    }
}

/// The tokens stand in order in `input`, each is the text it covers and of its kind.
pub open spec fn tokens_of(input: Seq<char>, toks: Seq<Token>) -> bool {
    &&& forall|i: int|
        0 <= i < toks.len() ==> {
            let t = #[trigger] toks[i];
            &&& t.start < t.end <= input.len()
            &&& t.text@ == input.subrange(t.start as int, t.end as int)
            &&& kind_matches(t.kind, t.text@)
        }
    &&& forall|i: int, j: int| 0 <= i < j < toks.len() ==> #[trigger] toks[i].end <= #[trigger] toks[j].start
}

fn digit_char(c: char) -> (r: bool)
    ensures
        r == is_digit(c),
{
    '0' <= c && c <= '9'
}

fn ident_start(c: char) -> (r: bool)
    ensures
        r == is_ident_start(c),
{
    ('a' <= c && c <= 'z') || ('A' <= c && c <= 'Z') || c == '_'
}

fn ident_char(c: char) -> (r: bool)
    ensures
        r == is_ident_char(c),
{
    ident_start(c) || digit_char(c)
}

fn binary_char(c: char) -> (r: bool)
    ensures
        r == is_binary_char(c),
{
    c == '-' || c == '%' || c == '&' || c == ',' || c == '*' || c == '+' || c == '/' || c == '<'
        || c == '=' || c == '>' || c == '?' || c == '@' || c == '~' || c == '!'
}

fn space(c: char) -> (r: bool)
    ensures
        r == is_space(c),
{
    c == ' ' || c == '\t' || c == '\n' || c == '\r' || c == '\x0b' || c == '\x0c'
}

/// The end of the run of characters from `from` on that satisfy `p`.
fn run_end(v: &Vec<char>, from: usize, kind: u8) -> (e: usize)
    requires
        from <= v@.len(),
        kind < 3,
    ensures
        from <= e <= v@.len(),
        forall|i: int| from <= i < e ==> run_char(kind, #[trigger] v@[i]),
        e < v@.len() ==> !run_char(kind, v@[e as int]),
{
    let mut e = from;
    while e < v.len()
        invariant
            from <= e <= v@.len(),
            forall|i: int| from <= i < e ==> run_char(kind, #[trigger] v@[i]),
        decreases v.len() - e,
    {
        let c = v[e];
        let ok = if kind == 0 {
            digit_char(c)
        } else if kind == 1 {
            ident_char(c)
        } else {
            binary_char(c)
        };
        if !ok {
            return e;
        }
        e = e + 1;
    }
    e
}

/// The character classes of `run_end`: digits, identifier characters, binary characters.
pub open spec fn run_char(kind: u8, c: char) -> bool {
    if kind == 0 {
        is_digit(c)
    } else if kind == 1 {
        is_ident_char(c)
    } else {
        is_binary_char(c)
    }
}

/// The first position from `from` on that holds `c`, or the length where none does.
fn find_char(v: &Vec<char>, from: usize, c: char) -> (e: usize)
    requires
        from <= v@.len(),
    ensures
        from <= e <= v@.len(),
        forall|i: int| from <= i < e ==> #[trigger] v@[i] != c,
        e < v@.len() ==> v@[e as int] == c,
{
    let mut e = from;
    while e < v.len()
        invariant
            from <= e <= v@.len(),
            forall|i: int| from <= i < e ==> #[trigger] v@[i] != c,
        decreases v.len() - e,
    {
        if v[e] == c {
            return e;
        }
        e = e + 1;
    }
    e
}

/// The end of the run of characters from `from` on that are of the class `kind`.
pub open spec fn run_to(input: Seq<char>, from: int, kind: u8) -> int
    decreases input.len() - from,
{
    if from < 0 || from >= input.len() || !run_char(kind, input[from]) {
        from
    } else {
        run_to(input, from + 1, kind)
    }
}

/// The first position from `from` on that holds `c`, or the length where none does.
pub open spec fn find_to(input: Seq<char>, from: int, c: char) -> int
    decreases input.len() - from,
{
    if from < 0 || from >= input.len() || input[from] == c {
        from
    } else {
        find_to(input, from + 1, c)
    }
}

/// What the lexer does at one position: skips to a position, takes a lexeme of a kind up to
/// a position, or fails.
pub enum LexStep {
    Skip(int),
    Take(TokenKind, int),
    Fail,
}

/// The lexical rule at position `i` (which holds a character): whitespace and comments are
/// skipped; a run of digits, an identifier (a keyword when a colon follows), a quoted string,
/// `:=` or a colon, `$` with a character, a run of binary characters (`!` alone and `<-`
/// alone are their own kinds) or a one-character lexeme is taken; anything else fails.
pub open spec fn lex_step(input: Seq<char>, i: int) -> LexStep {
    let c = input[i];
    if is_space(c) {
        LexStep::Skip(i + 1)
    } else if is_digit(c) {
        LexStep::Take(TokenKind::Int, run_to(input, i, 0))
    } else if is_ident_start(c) {
        let e = run_to(input, i + 1, 1);
        if e < input.len() && input[e] == ':' {
            LexStep::Take(TokenKind::Keyword, e + 1)
        } else {
            LexStep::Take(TokenKind::Identifier, e)
        }
    } else if c == '\'' {
        let e = find_to(input, i + 1, '\'');
        if e == input.len() {
            LexStep::Fail
        } else {
            LexStep::Take(TokenKind::Str, e + 1)
        }
    } else if c == '"' {
        let e = find_to(input, i + 1, '"');
        if e == input.len() {
            LexStep::Fail
        } else {
            LexStep::Skip(e + 1)
        }
    } else if c == ':' {
        if i + 1 < input.len() && input[i + 1] == '=' {
            LexStep::Take(TokenKind::Assign, i + 2)
        } else {
            LexStep::Take(TokenKind::Colon, i + 1)
        }
    } else if c == '$' {
        if i + 1 < input.len() && input[i + 1] != '\n' {
            LexStep::Take(TokenKind::Char, i + 2)
        } else {
            LexStep::Fail
        }
    } else if is_binary_char(c) {
        let e = run_to(input, i, 2);
        if e - i == 1 && c == '!' {
            LexStep::Take(TokenKind::EndOfChunk, i + 1)
        } else if e - i == 2 && c == '<' && input[i + 1] == '-' {
            LexStep::Take(TokenKind::Assign, e)
        } else {
            LexStep::Take(TokenKind::Binary, e)
        }
    } else {
        match one_char_kind(c) {
            Some(k) => LexStep::Take(k, i + 1),
            None => LexStep::Fail,
        }
    }
}

/// The kind of a lexeme of one character that is none of the others.
pub open spec fn one_char_kind(c: char) -> Option<TokenKind> {
    if c == '.' {
        Some(TokenKind::Dot)
    } else if c == '[' {
        Some(TokenKind::LBracket)
    } else if c == ']' {
        Some(TokenKind::RBracket)
    } else if c == '(' {
        Some(TokenKind::LParen)
    } else if c == ')' {
        Some(TokenKind::RParen)
    } else if c == '|' {
        Some(TokenKind::Bar)
    } else if c == '{' {
        Some(TokenKind::LBrace)
    } else if c == '}' {
        Some(TokenKind::RBrace)
    } else if c == '^' {
        Some(TokenKind::Return)
    } else {
        None
    }
}

/// The lexemes of `input` from position `i` on, as kinds with start and end positions, or
/// the position of the first character that starts no lexeme.
pub open spec fn lexemes_from(input: Seq<char>, i: int) -> Result<Seq<(TokenKind, int, int)>, int>
    decreases input.len() - i,
{
    if i < 0 || i >= input.len() {
        Ok(Seq::empty())
    } else {
        match lex_step(input, i) {
            LexStep::Skip(j) => if i < j <= input.len() {
                lexemes_from(input, j)
            } else {
                Err(i)
            },
            LexStep::Take(k, j) => if i < j <= input.len() {
                match lexemes_from(input, j) {
                    Ok(rest) => Ok(seq![(k, i, j)] + rest),
                    Err(p) => Err(p),
                }
            } else {
                Err(i)
            },
            LexStep::Fail => Err(i),
        }
    }
}

/// The tokens are the lexemes of `input`, each with its text.
pub open spec fn lexed(input: Seq<char>, toks: Seq<Token>) -> bool {
    tokens_of(input, toks) && lexemes_from(input, 0) == Ok::<Seq<(TokenKind, int, int)>, int>(
        token_spans(toks),
    )
}

/// The kinds and positions of tokens.
pub open spec fn token_spans(toks: Seq<Token>) -> Seq<(TokenKind, int, int)> {
    toks.map_values(|t: Token| (t.kind, t.start as int, t.end as int))
}

proof fn lemma_run_to(input: Seq<char>, from: int, e: int, kind: u8)
    requires
        0 <= from <= e <= input.len(),
        forall|i: int| from <= i < e ==> run_char(kind, #[trigger] input[i]),
        e < input.len() ==> !run_char(kind, input[e]),
    ensures
        run_to(input, from, kind) == e,
    decreases e - from,
{
    if from < e {
        lemma_run_to(input, from + 1, e, kind);
    }
}

proof fn lemma_find_to(input: Seq<char>, from: int, e: int, c: char)
    requires
        0 <= from <= e <= input.len(),
        forall|i: int| from <= i < e ==> #[trigger] input[i] != c,
        e < input.len() ==> input[e] == c,
    ensures
        find_to(input, from, c) == e,
    decreases e - from,
{
    if from < e {
        lemma_find_to(input, from + 1, e, c);
    }
}

/// Where lexing stopped: the position of a character that starts no lexeme.
#[derive(Debug, Clone, PartialEq, Eq, Structural)]
pub struct LexError {
    pub position: usize,
}

fn single_kind(c: char) -> (r: Option<TokenKind>)
    ensures
        r == one_char_kind(c),
        match r {
            Some(k) => kind_matches(k, seq![c]) && k != TokenKind::Binary && k
                != TokenKind::Identifier && k != TokenKind::Int,
            None => true,
        },
{
    if c == '.' {
        Some(TokenKind::Dot)
    } else if c == '[' {
        Some(TokenKind::LBracket)
    } else if c == ']' {
        Some(TokenKind::RBracket)
    } else if c == '(' {
        Some(TokenKind::LParen)
    } else if c == ')' {
        Some(TokenKind::RParen)
    } else if c == '|' {
        Some(TokenKind::Bar)
    } else if c == '{' {
        Some(TokenKind::LBrace)
    } else if c == '}' {
        Some(TokenKind::RBrace)
    } else if c == '^' {
        Some(TokenKind::Return)
    } else {
        None
    }
}

/// Splits `input` into lexemes, longest match first and, between matches of equal length,
/// the kind listed first in `TokenKind` (so `!` alone is `EndOfChunk` and `<-` alone is
/// `Assign`). Whitespace and comments are dropped. Fails at the first character that starts
/// no lexeme: an unclosed string or comment, a `$` at the end or before a newline, or a
/// character of no kind.
pub fn lex(input: &str) -> (r: Result<Vec<Token>, LexError>)
    ensures
        r matches Ok(toks) ==> tokens_of(input@, toks@),
        r matches Err(e) ==> e.position < input@.len(),
        match r {
            Ok(toks) => lexemes_from(input@, 0) == Ok::<Seq<(TokenKind, int, int)>, int>(token_spans(toks@)),
            Err(e) => lexemes_from(input@, 0) == Err::<Seq<(TokenKind, int, int)>, int>(e.position as int),
        },
{
    let v = chars_of(input);
    let n = v.len();
    let mut toks: Vec<Token> = Vec::new();
    let mut i: usize = 0;
    proof {
        assert(token_spans(toks@) =~= Seq::<(TokenKind, int, int)>::empty());
        if let Ok(rest) = lexemes_from(input@, 0) {
            assert(token_spans(toks@) + rest =~= rest);
        }
    }
    while i < n
        invariant
            v@ == input@,
            n == v@.len(),
            i <= n,
            tokens_of(input@, toks@),
            forall|j: int| 0 <= j < toks@.len() ==> #[trigger] toks@[j].end <= i,
            lexemes_from(input@, 0) == match lexemes_from(input@, i as int) {
                Ok(rest) => Ok::<Seq<(TokenKind, int, int)>, int>(token_spans(toks@) + rest),
                Err(p) => Err::<Seq<(TokenKind, int, int)>, int>(p),
            },
        decreases n - i,
    {
        let c = v[i];
        let mut kind = TokenKind::Dot;
        let mut end: usize = i + 1;
        let mut skip = false;
        if space(c) {
            skip = true;
        } else if digit_char(c) {
            kind = TokenKind::Int;
            end = run_end(&v, i, 0);
            proof {
                lemma_run_to(v@, i as int, end as int, 0);
            }
            assert(all_digits(v@.subrange(i as int, end as int), 0, end - i)) by {
                assert forall|k: int| 0 <= k < end - i implies is_digit(
                    #[trigger] v@.subrange(i as int, end as int)[k],
                ) by {
                    assert(run_char(0, v@[i + k]));
                }
            }
        } else if ident_start(c) {
            let e = run_end(&v, i + 1, 1);
            proof {
                lemma_run_to(v@, i + 1, e as int, 1);
            }
            if e < n && v[e] == ':' {
                kind = TokenKind::Keyword;
                end = e + 1;
            } else {
                kind = TokenKind::Identifier;
                end = e;
            }
            let ghost t = v@.subrange(i as int, end as int);
            assert(all_ident(t, 1, e - i)) by {
                assert forall|k: int| 1 <= k < e - i implies is_ident_char(#[trigger] t[k]) by {
                    assert(run_char(1, v@[i + k]));
                }
            }
        } else if c == '\'' {
            let e = find_char(&v, i + 1, '\'');
            proof {
                lemma_find_to(v@, i + 1, e as int, '\'');
            }
            if e == n {
                return Err(LexError { position: i });
            }
            kind = TokenKind::Str;
            end = e + 1;
            let ghost t = v@.subrange(i as int, end as int);
            assert(no_quote(t, 1, t.len() - 1)) by {
                assert forall|k: int| 1 <= k < t.len() - 1 implies #[trigger] t[k] != '\'' by {
                    assert(t[k] == v@[i + k]);
                }
            }
        } else if c == '"' {
            let e = find_char(&v, i + 1, '"');
            proof {
                lemma_find_to(v@, i + 1, e as int, '"');
            }
            if e == n {
                return Err(LexError { position: i });
            }
            skip = true;
            end = e + 1;
        } else if c == ':' {
            if i + 1 < n && v[i + 1] == '=' {
                kind = TokenKind::Assign;
                end = i + 2;
                assert(v@.subrange(i as int, end as int) =~= seq![':', '=']);
            } else {
                kind = TokenKind::Colon;
                assert(v@.subrange(i as int, end as int) =~= seq![':']);
            }
        } else if c == '$' {
            if i + 1 < n && v[i + 1] != '\n' {
                kind = TokenKind::Char;
                end = i + 2;
            } else {
                return Err(LexError { position: i });
            }
        } else if binary_char(c) {
            let e = run_end(&v, i, 2);
            proof {
                lemma_run_to(v@, i as int, e as int, 2);
            }
            if e - i == 1 && c == '!' {
                kind = TokenKind::EndOfChunk;
                assert(v@.subrange(i as int, end as int) =~= seq!['!']);
            } else if e - i == 2 && c == '<' && v[i + 1] == '-' {
                kind = TokenKind::Assign;
                end = e;
                assert(v@.subrange(i as int, end as int) =~= seq!['<', '-']);
            } else {
                kind = TokenKind::Binary;
                end = e;
                let ghost t = v@.subrange(i as int, end as int);
                assert(all_binary(t, 0, t.len() as int)) by {
                    assert forall|k: int| 0 <= k < t.len() implies is_binary_char(
                        #[trigger] t[k],
                    ) by {
                        assert(run_char(2, v@[i + k]));
                    }
                }
            }
        } else {
            match single_kind(c) {
                Some(k) => {
                    kind = k;
                    assert(v@.subrange(i as int, end as int) =~= seq![c]);
                },
                None => {
                    return Err(LexError { position: i });
                },
            }
        }
        proof {
            assert(i < end <= n);
            if skip {
                assert(lex_step(v@, i as int) == LexStep::Skip(end as int));
            } else {
                assert(lex_step(v@, i as int) == LexStep::Take(kind, end as int));
            }
        }
        let ghost spans_before = token_spans(toks@);
        if !skip {
            let text = string_of(v.as_slice(), i, end);
            let t = Token { kind, text, start: i, end };
            let ghost old_toks = toks@;
            toks.push(t);
            assert forall|a: int, b: int| 0 <= a < b < toks@.len() implies #[trigger] toks@[a].end
                <= #[trigger] toks@[b].start by {
                if b < old_toks.len() {
                    assert(old_toks[a] == toks@[a] && old_toks[b] == toks@[b]);
                } else {
                    assert(old_toks[a] == toks@[a]);
                }
            }
        }
        proof {
            if !skip {
                assert(token_spans(toks@) =~= spans_before.push((kind, i as int, end as int)));
                if let Ok(rest) = lexemes_from(v@, end as int) {
                    assert(spans_before + (seq![(kind, i as int, end as int)] + rest) =~= token_spans(toks@)
                        + rest);
                }
            }
        }
        i = end;
    }
    proof {
        assert(token_spans(toks@) + Seq::<(TokenKind, int, int)>::empty() =~= token_spans(toks@));
    }
    Ok(toks)
}


/// The syntax tree of scripts and methods.
#[derive(Debug)]
pub enum AST {
    Int(i64),
    Char(char),
    String(String),
    Name(String),
    Method { name: String, params: Vec<String>, temps: Vec<String>, body: Box<AST> },
    Block { params: Vec<String>, temps: Vec<String>, body: Box<AST> },
    Return(Box<AST>),
    PatternPart(String, Option<Box<AST>>, Box<AST>),
    List(Box<AST>, Box<AST>),
    Table(Vec<AST>),
    Statements(Vec<AST>),
    InvokeSequence(Box<AST>, Vec<AST>),
    InvokeCascade(Box<AST>, Vec<AST>),
    Message { name: String, args: Vec<AST> },
    Variable(String),
    Assign(Box<AST>, Box<AST>),
    Dummy(String),
    Empty,
}

/// A copy of a list of names.
pub fn copy_names(v: &Vec<String>) -> (r: Vec<String>)
    ensures
        r@ == v@,
{
    let mut r: Vec<String> = Vec::new();
    let mut i: usize = 0;
    while i < v.len()
        invariant
            i <= v@.len(),
            r@ == v@.take(i as int),
        decreases v.len() - i,
    {
        let s = v[i].clone();
        r.push(s);
        assert(r@ =~= v@.take(i + 1));
        i = i + 1;
    }
    assert(r@ =~= v@);
    r
}


/// Two trees are the same: of the same shape, with the same names and literals.
pub open spec fn same_ast(a: AST, b: AST) -> bool
    decreases a,
{
    match (a, b) {
        (AST::Int(x), AST::Int(y)) => x == y,
        (AST::Char(x), AST::Char(y)) => x == y,
        (AST::String(x), AST::String(y)) => x@ == y@,
        (AST::Name(x), AST::Name(y)) => x@ == y@,
        (
            AST::Method { name: n1, params: p1, temps: t1, body: b1 },
            AST::Method { name: n2, params: p2, temps: t2, body: b2 },
        ) => n1@ == n2@ && p1@ == p2@ && t1@ == t2@ && same_ast(*b1, *b2),
        (
            AST::Block { params: p1, temps: t1, body: b1 },
            AST::Block { params: p2, temps: t2, body: b2 },
        ) => p1@ == p2@ && t1@ == t2@ && same_ast(*b1, *b2),
        (AST::Return(x), AST::Return(y)) => same_ast(*x, *y),
        (AST::PatternPart(s1, a1, r1), AST::PatternPart(s2, a2, r2)) => s1@ == s2@ && match (
            a1,
            a2,
        ) {
            (Some(x), Some(y)) => same_ast(*x, *y),
            (None, None) => true,
            _ => false,
        } && same_ast(*r1, *r2),
        (AST::List(a1, b1), AST::List(a2, b2)) => same_ast(*a1, *a2) && same_ast(*b1, *b2),
        (AST::Table(v), AST::Table(w)) => same_list(v@, w@),
        (AST::Statements(v), AST::Statements(w)) => same_list(v@, w@),
        (AST::InvokeSequence(t1, v), AST::InvokeSequence(t2, w)) => same_ast(*t1, *t2)
            && same_list(v@, w@),
        (AST::InvokeCascade(t1, v), AST::InvokeCascade(t2, w)) => same_ast(*t1, *t2)
            && same_list(v@, w@),
        (AST::Message { name: n1, args: v }, AST::Message { name: n2, args: w }) => n1@ == n2@
            && same_list(v@, w@),
        (AST::Variable(x), AST::Variable(y)) => x@ == y@,
        (AST::Assign(a1, b1), AST::Assign(a2, b2)) => same_ast(*a1, *a2) && same_ast(*b1, *b2),
        (AST::Dummy(x), AST::Dummy(y)) => x@ == y@,
        (AST::Empty, AST::Empty) => true,
        _ => false,
    }
}

/// Two lists of trees are the same, element by element.
pub open spec fn same_list(v: Seq<AST>, w: Seq<AST>) -> bool
    decreases v,
{
    v.len() == w.len() && forall|i: int| 0 <= i < v.len() ==> same_ast(#[trigger] v[i], w[i])
}

impl AST {
    /// A copy of the tree.
    pub fn copy(&self) -> (r: AST)
        ensures
            same_ast(r, *self),
        decreases self,
    {
        match self {
            AST::Int(n) => AST::Int(*n),
            AST::Char(c) => AST::Char(*c),
            AST::String(s) => AST::String(s.clone()),
            AST::Name(s) => AST::Name(s.clone()),
            AST::Method { name, params, temps, body } => AST::Method {
                name: name.clone(),
                params: copy_names(params),
                temps: copy_names(temps),
                body: Box::new(body.copy()),
            },
            AST::Block { params, temps, body } => AST::Block {
                params: copy_names(params),
                temps: copy_names(temps),
                body: Box::new(body.copy()),
            },
            AST::Return(x) => AST::Return(Box::new(x.copy())),
            AST::PatternPart(s, a, rest) => {
                let a2 = match a {
                    Some(x) => Some(Box::new(x.copy())),
                    None => None,
                };
                AST::PatternPart(s.clone(), a2, Box::new(rest.copy()))
            },
            AST::List(a, b) => AST::List(Box::new(a.copy()), Box::new(b.copy())),
            AST::Table(v) => AST::Table(copy_list(v)),
            AST::Statements(v) => AST::Statements(copy_list(v)),
            AST::InvokeSequence(t, v) => AST::InvokeSequence(Box::new(t.copy()), copy_list(v)),
            AST::InvokeCascade(t, v) => AST::InvokeCascade(Box::new(t.copy()), copy_list(v)),
            AST::Message { name, args } => AST::Message { name: name.clone(), args: copy_list(args) },
            AST::Variable(s) => AST::Variable(s.clone()),
            AST::Assign(a, b) => AST::Assign(Box::new(a.copy()), Box::new(b.copy())),
            AST::Dummy(s) => AST::Dummy(s.clone()),
            AST::Empty => AST::Empty,
        }
    }
}

/// A copy of a list of trees.
pub fn copy_list(v: &Vec<AST>) -> (r: Vec<AST>)
    ensures
        same_list(r@, v@),
    decreases v,
{
    let mut r: Vec<AST> = Vec::new();
    let mut i: usize = 0;
    while i < v.len()
        invariant
            i <= v@.len(),
            r@.len() == i,
            forall|j: int| 0 <= j < i ==> same_ast(#[trigger] r@[j], v@[j]),
        decreases v.len() - i,
    {
        assert(decreases_to!(v => v@[i as int]));
        let x = v[i].copy();
        r.push(x);
        i = i + 1;
    }
    r
}


/// Where parsing stopped: the index of the lexeme that does not fit, or the number of
/// lexemes where the input ended early.
#[derive(Debug, Clone, PartialEq, Eq, Structural)]
pub struct ParseError {
    pub position: usize,
}

/// Why a text is not a script or a method.
#[derive(Debug, Clone, PartialEq, Eq, Structural)]
pub enum SyntaxError {
    Lex(LexError),
    Parse(ParseError),
}

/// The number of colons in a text.
pub open spec fn colons(s: Seq<char>) -> nat
    decreases s.len(),
{
    if s.len() == 0 {
        0
    } else {
        colons(s.drop_last()) + if s.last() == ':' {
            1nat
        } else {
            0nat
        }
    }
}

/// The number of arguments a selector takes: one per keyword part, one for a binary
/// selector, none for a unary one.
pub open spec fn arity(name: Seq<char>) -> nat {
    if name.len() > 0 && name.last() == ':' {
        colons(name)
    } else if name.len() > 0 && is_binary_char(name[0]) {
        1
    } else {
        0
    }
}

/// An expression as the parser builds it: literals, variables, blocks, `{ e }`, message
/// sends whose messages take as many arguments as their selectors say, and assignments.
pub open spec fn wf_expr(a: AST) -> bool
    decreases a,
{
    match a {
        AST::Int(_) => true,
        AST::Char(_) => true,
        AST::String(_) => true,
        AST::Variable(_) => true,
        AST::Table(v) => v@.len() == 1 && wf_expr(v@[0]),
        AST::Block { params, temps, body } => temps@.len() == 0 && wf_body(*body),
        AST::InvokeSequence(t, msgs) => wf_expr(*t) && msgs@.len() >= 1 && forall|i: int|
            0 <= i < msgs@.len() ==> wf_message(#[trigger] msgs@[i]),
        AST::Assign(n, e) => (*n) is Name && wf_expr(*e),
        _ => false,
    }
}

/// A message whose arguments match its selector.
pub open spec fn wf_message(m: AST) -> bool
    decreases m,
{
    match m {
        AST::Message { name, args } => args@.len() == arity(name@) && forall|i: int|
            0 <= i < args@.len() ==> wf_expr(#[trigger] args@[i]),
        _ => false,
    }
}

/// A statement list: at least one statement, a return only as the last.
pub open spec fn wf_body(b: AST) -> bool
    decreases b,
{
    match b {
        AST::Statements(v) => v@.len() >= 1 && (forall|i: int|
            0 <= i < v@.len() - 1 ==> wf_expr(#[trigger] v@[i])) && match v@.last() {
            AST::Return(e) => wf_expr(*e),
            _ => wf_expr(v@.last()),
        },
        _ => false,
    }
}

/// Every lexeme is a text of its kind.
pub open spec fn lexemes_ok(toks: Seq<Token>) -> bool {
    &&& toks.len() < usize::MAX
    &&& forall|i: int| 0 <= i < toks.len() ==> kind_matches(#[trigger] toks[i].kind, toks[i].text@)
}

/// The value of a text of decimal digits.
pub open spec fn digits_value(s: Seq<char>) -> int
    decreases s.len(),
{
    if s.len() == 0 {
        0
    } else {
        digits_value(s.drop_last()) * 10 + (s.last() as int - '0' as int)
    }
}

/// The value of a text of decimal digits, where it fits in an `i64`.
pub fn parse_int(text: &str) -> (r: Option<i64>)
    requires
        all_digits(text@, 0, text@.len() as int),
    ensures
        r matches Some(n) ==> n == digits_value(text@),
        r is None ==> digits_value(text@) > i64::MAX,
{
    let v = chars_of(text);
    let mut n: i64 = 0;
    let mut i: usize = 0;
    while i < v.len()
        invariant
            v@ == text@,
            i <= v@.len(),
            all_digits(text@, 0, text@.len() as int),
            n == digits_value(v@.take(i as int)),
        decreases v.len() - i,
    {
        assert(v@.take(i + 1).drop_last() =~= v@.take(i as int));
        let d = v[i];
        assert(is_digit(v@[i as int]));
        let dv: i64 = if d == '0' {
            0
        } else if d == '1' {
            1
        } else if d == '2' {
            2
        } else if d == '3' {
            3
        } else if d == '4' {
            4
        } else if d == '5' {
            5
        } else if d == '6' {
            6
        } else if d == '7' {
            7
        } else if d == '8' {
            8
        } else {
            9
        };
        assert(dv == d as int - '0' as int);
        match n.checked_mul(10) {
            Some(m) => match m.checked_add(dv) {
                Some(k) => {
                    n = k;
                },
                None => {
                    proof {
                        lemma_digits_grow(v@, i as int + 1);
                    }
                    return None;
                },
            },
            None => {
                proof {
                    lemma_digits_grow(v@, i as int + 1);
                }
                return None;
            },
        }
        i = i + 1;
    }
    assert(v@.take(v@.len() as int) =~= v@);
    Some(n)
}

/// Appending digits never makes the value smaller.
pub proof fn lemma_digits_grow(s: Seq<char>, k: int)
    requires
        0 <= k <= s.len(),
        all_digits(s, 0, s.len() as int),
    ensures
        digits_value(s.take(k)) <= digits_value(s),
        digits_value(s.take(k)) >= 0,
    decreases s.len() - k,
{
    if k < s.len() {
        lemma_digits_grow(s, k + 1);
        assert(s.take(k + 1).drop_last() =~= s.take(k));
        assert(is_digit(s[k]));
        lemma_digits_nonneg(s.take(k));
    } else {
        assert(s.take(k) =~= s);
        lemma_digits_nonneg(s);
    }
}

pub proof fn lemma_digits_nonneg(s: Seq<char>)
    requires
        all_digits(s, 0, s.len() as int),
    ensures
        digits_value(s) >= 0,
    decreases s.len(),
{
    if s.len() > 0 {
        assert(is_digit(s[s.len() - 1]));
        lemma_digits_nonneg(s.drop_last());
    }
}

fn kind_at(toks: &Vec<Token>, pos: usize) -> (r: Option<TokenKind>)
    ensures
        pos < toks@.len() ==> r == Some(toks@[pos as int].kind),
        pos >= toks@.len() ==> r is None,
{
    if pos < toks.len() {
        Some(toks[pos].kind)
    } else {
        None
    }
}

fn is_kind(toks: &Vec<Token>, pos: usize, k: TokenKind) -> (r: bool)
    ensures
        r == (pos < toks@.len() && toks@[pos as int].kind == k),
{
    match kind_at(toks, pos) {
        Some(x) => x == k,
        None => false,
    }
}


/// The text of a lexeme.
fn token_text(toks: &Vec<Token>, pos: usize) -> (r: String)
    requires
        pos < toks@.len(),
    ensures
        r@ == toks@[pos as int].text@,
{
    toks[pos].text.clone()
}

/// A character literal is an expression.
proof fn lemma_char_literal(c: char)
    ensures
        wf_expr(AST::Char(c)),
{
}

/// A literal or a variable: `[0-9]+`, a string, a character, an identifier.
fn parse_literal(toks: &Vec<Token>, pos: usize) -> (r: Result<AST, ParseError>)
    requires
        lexemes_ok(toks@),
        pos < toks@.len(),
    ensures
        r matches Ok(a) ==> wf_expr(a) && literal(toks@, pos as int, a),
        r matches Err(e) ==> e.position <= toks@.len(),
{
    let kind = toks[pos].kind;
    assert(kind_matches(toks@[pos as int].kind, toks@[pos as int].text@));
    match kind {
        TokenKind::Int => match parse_int(toks[pos].text.as_str()) {
            Some(n) => {
                let a = AST::Int(n);
                assert(wf_expr(a));
                Ok(a)
            },
            None => Err(ParseError { position: pos }),
        },
        TokenKind::Identifier => {
            let a = AST::Variable(token_text(toks, pos));
            assert(wf_expr(a));
            Ok(a)
        },
        TokenKind::Str => {
            let v = chars_of(toks[pos].text.as_str());
            let a = AST::String(string_of(v.as_slice(), 1, v.len() - 1));
            assert(wf_expr(a));
            Ok(a)
        },
        TokenKind::Char => {
            let v = chars_of(toks[pos].text.as_str());
            let c: char = v[1];
            proof {
                lemma_char_literal(c);
            }
            let a = AST::Char(c);
            assert(wf_expr(a));
            Ok(a)
        },
        _ => Err(ParseError { position: pos }),
    }
}

/// `[0-9]+`, an identifier, a string, a character, a block, `{ expression }` or
/// `( expression )`.
fn parse_primary(toks: &Vec<Token>, pos: usize) -> (r: Result<(AST, usize), ParseError>)
    requires
        lexemes_ok(toks@),
        pos <= toks@.len(),
    ensures
        r matches Ok((a, p)) ==> pos < p <= toks@.len() && wf_expr(a) && primary(toks@, pos as int, p as int, a),
        r matches Err(e) ==> e.position <= toks@.len(),
    decreases toks@.len() - pos, 0nat,
{
    if pos >= toks.len() {
        return Err(ParseError { position: toks.len() });
    }
    if is_kind(toks, pos, TokenKind::LBracket) {
        parse_block(toks, pos + 1)
    } else if is_kind(toks, pos, TokenKind::LBrace) || is_kind(toks, pos, TokenKind::LParen) {
        let brace = is_kind(toks, pos, TokenKind::LBrace);
        let (e, p) = match parse_expression(toks, pos + 1) {
            Ok(x) => x,
            Err(e) => {
                return Err(e);
            },
        };
        if brace && is_kind(toks, p, TokenKind::RBrace) {
            let mut v: Vec<AST> = Vec::new();
            v.push(e);
            assert(v@[0] == e);
            Ok((AST::Table(v), p + 1))
        } else if !brace && is_kind(toks, p, TokenKind::RParen) {
            Ok((e, p + 1))
        } else {
            Err(ParseError { position: p })
        }
    } else {
        match parse_literal(toks, pos) {
            Ok(a) => Ok((a, pos + 1)),
            Err(e) => Err(e),
        }
    }
}

/// A unary message: an identifier as selector, no arguments.
proof fn lemma_unary_arity(t: Seq<char>)
    requires
        kind_matches(TokenKind::Identifier, t),
    ensures
        arity(t) == 0,
{
    assert(is_ident_char(t.last()));
}

/// A binary message: a run of binary characters as selector, one argument.
proof fn lemma_binary_arity(t: Seq<char>)
    requires
        kind_matches(TokenKind::Binary, t),
    ensures
        arity(t) == 1,
{
    assert(is_binary_char(t.last()));
    assert(is_binary_char(t[0]));
}

/// A primary followed by unary messages.
fn parse_unary_expression(toks: &Vec<Token>, pos: usize) -> (r: Result<(AST, usize), ParseError>)
    requires
        lexemes_ok(toks@),
        pos <= toks@.len(),
    ensures
        r matches Ok((a, p)) ==> pos < p <= toks@.len() && wf_expr(a) && unary(toks@, pos as int, p as int, a),
        r matches Err(e) ==> e.position <= toks@.len(),
    decreases toks@.len() - pos, 1nat,
{
    let (prim, mut p) = parse_primary(toks, pos)?;
    let ghost k = p as int;
    let mut msgs: Vec<AST> = Vec::new();
    while is_kind(toks, p, TokenKind::Identifier)
        invariant
            lexemes_ok(toks@),
            pos < k <= p <= toks@.len(),
            p == k + msgs@.len(),
            primary(toks@, pos as int, k, prim),
            unary_msgs(toks@, k, msgs@),
            forall|i: int| 0 <= i < msgs@.len() ==> wf_message(#[trigger] msgs@[i]),
        decreases toks@.len() - p,
    {
        proof {
            lemma_unary_arity(toks@[p as int].text@);
        }
        let m = AST::Message { name: token_text(toks, p), args: Vec::new() };
        let ghost before = msgs@;
        msgs.push(m);
        proof {
            assert forall|i: int| 0 <= i < msgs@.len() implies at(toks@, k + i, TokenKind::Identifier) && (
            #[trigger] msgs@[i] matches AST::Message { name, args } && name@ == toks@[k + i].text@
                && args@.len() == 0) by {
                if i < before.len() {
                    assert(msgs@[i] == before[i]);
                }
            }
        }
        p = p + 1;
    }
    if msgs.len() == 0 {
        Ok((prim, p))
    } else {
        let a = AST::InvokeSequence(Box::new(prim), msgs);
        Ok((a, p))
    }
}

/// Appends a message to a send, or makes a send of one message.
fn append_message(left: AST, m: AST) -> (r: AST)
    requires
        wf_expr(left),
        wf_message(m),
        m matches AST::Message { args, .. } && args@.len() == 1,
    ensures
        wf_expr(r),
        appended(left, r, m->Message_name@),
        r->InvokeSequence_1@.last() == m,
{
    match left {
        AST::InvokeSequence(target, msgs) => {
            let mut msgs = msgs;
            let ghost before = msgs@;
            msgs.push(m);
            assert(msgs@.drop_last() =~= before);
            AST::InvokeSequence(target, msgs)
        },
        other => {
            let mut msgs: Vec<AST> = Vec::new();
            msgs.push(m);
            AST::InvokeSequence(Box::new(other), msgs)
        },
    }
}

/// Unary expressions joined by binary selectors, left to right.
fn parse_binary_expression(toks: &Vec<Token>, pos: usize) -> (r: Result<(AST, usize), ParseError>)
    requires
        lexemes_ok(toks@),
        pos <= toks@.len(),
    ensures
        r matches Ok((a, p)) ==> pos < p <= toks@.len() && wf_expr(a) && binary(toks@, pos as int, p as int, a),
        r matches Err(e) ==> e.position <= toks@.len(),
    decreases toks@.len() - pos, 2nat,
{
    let (first, mut p) = parse_unary_expression(toks, pos)?;
    let mut left = first;
    proof {
        crate::grammar::lemma_binary_start(toks@, pos as int, p as int, left);
    }
    while is_kind(toks, p, TokenKind::Binary)
        invariant
            lexemes_ok(toks@),
            pos < p <= toks@.len(),
            wf_expr(left),
            binary_prefix(toks@, pos as int, p as int, left),
        decreases toks@.len() - p,
    {
        let (arg, q) = parse_unary_expression(toks, p + 1)?;
        proof {
            lemma_binary_arity(toks@[p as int].text@);
        }
        let mut args: Vec<AST> = Vec::new();
        args.push(arg);
        assert(args@[0] == arg);
        let m = AST::Message { name: token_text(toks, p), args };
        let ghost old_left = left;
        left = append_message(left, m);
        proof {
            crate::grammar::lemma_binary_step(toks@, pos as int, p as int, old_left, q as int, left);
        }
        p = q;
    }
    Ok((left, p))
}

proof fn lemma_colons_concat(a: Seq<char>, b: Seq<char>)
    ensures
        colons(a + b) == colons(a) + colons(b),
    decreases b.len(),
{
    if b.len() > 0 {
        assert((a + b).drop_last() =~= a + b.drop_last());
        lemma_colons_concat(a, b.drop_last());
    } else {
        assert(a + b =~= a);
    }
}

proof fn lemma_keyword_colons(t: Seq<char>)
    requires
        kind_matches(TokenKind::Keyword, t),
    ensures
        colons(t) == 1,
{
    let p = t.drop_last();
    assert forall|k: int| 0 <= k <= p.len() implies colons(#[trigger] p.take(k)) == 0 by {
        lemma_no_colons(p, k);
    }
    assert(p.take(p.len() as int) =~= p);
}

proof fn lemma_no_colons(p: Seq<char>, k: int)
    requires
        0 <= k <= p.len(),
        p.len() >= 1,
        is_ident_start(p[0]),
        all_ident(p, 1, p.len() as int),
    ensures
        colons(p.take(k)) == 0,
    decreases k,
{
    if k > 0 {
        assert(p.take(k).drop_last() =~= p.take(k - 1));
        lemma_no_colons(p, k - 1);
        if k - 1 > 0 {
            assert(is_ident_char(p[k - 1]));
        }
    }
}

/// Keyword parts, each a keyword and a binary expression; the selector is the keywords
/// joined.
fn parse_keyword_message(toks: &Vec<Token>, pos: usize) -> (r: Result<(AST, usize), ParseError>)
    requires
        lexemes_ok(toks@),
        pos < toks@.len(),
        toks@[pos as int].kind == TokenKind::Keyword,
    ensures
        r matches Ok((a, p)) ==> pos < p <= toks@.len() && wf_message(a) && keyword_msg(
            toks@,
            pos as int,
            p as int,
            a,
        ),
        r matches Err(e) ==> e.position <= toks@.len(),
    decreases toks@.len() - pos, 2nat,
{
    let mut name = String::new();
    let mut args: Vec<AST> = Vec::new();
    let mut p = pos;
    proof {
        crate::grammar::lemma_kw_start(toks@, pos as int);
        assert(name@ =~= Seq::<char>::empty());
        assert(args@ =~= Seq::<AST>::empty());
    }
    while is_kind(toks, p, TokenKind::Keyword)
        invariant
            lexemes_ok(toks@),
            pos <= p <= toks@.len(),
            p == pos ==> toks@[pos as int].kind == TokenKind::Keyword,
            p > pos ==> args@.len() >= 1 && name@.len() > 0 && name@.last() == ':',
            colons(name@) == args@.len(),
            forall|i: int| 0 <= i < args@.len() ==> wf_expr(#[trigger] args@[i]),
            kw_parts(toks@, pos as int, p as int, name@, args@),
        decreases toks@.len() - p,
    {
        let (arg, q) = parse_binary_expression(toks, p + 1)?;
        let kw = token_text(toks, p);
        proof {
            lemma_keyword_colons(kw@);
            lemma_colons_concat(name@, kw@);
            crate::grammar::lemma_kw_step(toks@, pos as int, p as int, name@, args@, q as int, arg);
        }
        name.append(kw.as_str());
        args.push(arg);
        p = q;
    }
    Ok((AST::Message { name, args }, p))
}

/// A primary, then unary messages, binary messages and at most one keyword message.
fn parse_basic_expression(toks: &Vec<Token>, pos: usize) -> (r: Result<(AST, usize), ParseError>)
    requires
        lexemes_ok(toks@),
        pos <= toks@.len(),
    ensures
        r matches Ok((a, p)) ==> pos < p <= toks@.len() && wf_expr(a) && basic(toks@, pos as int, p as int, a),
        r matches Err(e) ==> e.position <= toks@.len(),
    decreases toks@.len() - pos, 3nat,
{
    let (prim, mut p) = parse_primary(toks, pos)?;
    let ghost k = p as int;
    let mut msgs: Vec<AST> = Vec::new();
    while is_kind(toks, p, TokenKind::Identifier)
        invariant
            lexemes_ok(toks@),
            pos < k <= p <= toks@.len(),
            p == k + msgs@.len(),
            unary_msgs(toks@, k, msgs@),
            forall|i: int| 0 <= i < msgs@.len() ==> wf_message(#[trigger] msgs@[i]),
        decreases toks@.len() - p,
    {
        proof {
            lemma_unary_arity(toks@[p as int].text@);
        }
        let m = AST::Message { name: token_text(toks, p), args: Vec::new() };
        proof {
            crate::grammar::lemma_unary_msgs_push(toks@, k, msgs@, m);
        }
        msgs.push(m);
        p = p + 1;
    }
    let ghost k1 = p as int;
    let ghost nu = msgs@.len() as int;
    let ghost us = msgs@;
    proof {
        crate::grammar::lemma_bin_msgs_start(toks@, k1);
        assert(msgs@.subrange(nu, msgs@.len() as int) =~= Seq::<AST>::empty());
        assert(msgs@.take(nu) =~= us);
    }
    while is_kind(toks, p, TokenKind::Binary)
        invariant
            lexemes_ok(toks@),
            pos < k <= k1 <= p <= toks@.len(),
            nu <= msgs@.len(),
            k1 == k + nu,
            p >= k + msgs@.len(),
            msgs@.take(nu) == us,
            unary_msgs(toks@, k, us),
            !at(toks@, k1, TokenKind::Identifier),
            bin_msgs(toks@, k1, p as int, msgs@.subrange(nu, msgs@.len() as int)),
            forall|i: int| 0 <= i < msgs@.len() ==> wf_message(#[trigger] msgs@[i]),
        decreases toks@.len() - p,
    {
        let (arg, q) = parse_unary_expression(toks, p + 1)?;
        proof {
            lemma_binary_arity(toks@[p as int].text@);
        }
        let mut args: Vec<AST> = Vec::new();
        args.push(arg);
        assert(args@[0] == arg);
        let m = AST::Message { name: token_text(toks, p), args };
        let ghost before = msgs@;
        proof {
            crate::grammar::lemma_bin_msgs_step(
                toks@,
                k1,
                p as int,
                before.subrange(nu, before.len() as int),
                q as int,
                m,
            );
        }
        msgs.push(m);
        proof {
            assert(msgs@.subrange(nu, msgs@.len() as int) =~= before.subrange(nu, before.len() as int).push(m));
            assert(msgs@.take(nu) =~= before.take(nu));
        }
        p = q;
    }
    let ghost k2 = p as int;
    let ghost nb = msgs@.len() - nu;
    let ghost bs = msgs@;
    if is_kind(toks, p, TokenKind::Keyword) {
        let (m, q) = parse_keyword_message(toks, p)?;
        msgs.push(m);
        proof {
            assert(msgs@.take(nu) =~= bs.take(nu));
            assert(msgs@.subrange(nu, nu + nb) =~= bs.subrange(nu, bs.len() as int));
        }
        p = q;
    } else {
        proof {
            assert(msgs@.subrange(nu, nu + nb) =~= bs.subrange(nu, bs.len() as int));
        }
    }
    if msgs.len() == 0 {
        Ok((prim, p))
    } else {
        let ghost ms = msgs@;
        let a = AST::InvokeSequence(Box::new(prim), msgs);
        proof {
            crate::grammar::lemma_basic_msgs(toks@, k, p as int, ms, k1, k2, nb);
            crate::grammar::lemma_basic_send(toks@, pos as int, k, p as int, a);
        }
        Ok((a, p))
    }
}

/// An assignment `name := expression` (or `<-`), or a basic expression.
fn parse_expression(toks: &Vec<Token>, pos: usize) -> (r: Result<(AST, usize), ParseError>)
    requires
        lexemes_ok(toks@),
        pos <= toks@.len(),
    ensures
        r matches Ok((a, p)) ==> pos < p <= toks@.len() && wf_expr(a) && expression(toks@, pos as int, p as int, a),
        r matches Err(e) ==> e.position <= toks@.len(),
    decreases toks@.len() - pos, 4nat,
{
    if is_kind(toks, pos, TokenKind::Identifier) && is_kind(toks, pos + 1, TokenKind::Assign) {
        let (e, p) = parse_expression(toks, pos + 2)?;
        let name = token_text(toks, pos);
        Ok((AST::Assign(Box::new(AST::Name(name)), Box::new(e)), p))
    } else {
        parse_basic_expression(toks, pos)
    }
}

/// Statements separated by dots; a return (`^ expression`, with an optional dot) ends them.
/// A dot that is followed by nothing or by `]` is left to the caller.
fn parse_statements(toks: &Vec<Token>, pos: usize) -> (r: Result<(AST, usize), ParseError>)
    requires
        lexemes_ok(toks@),
        pos <= toks@.len(),
    ensures
        r matches Ok((a, p)) ==> pos < p <= toks@.len() && wf_body(a) && statements(
            toks@,
            pos as int,
            p as int,
            a,
        ),
        r matches Err(e) ==> e.position <= toks@.len(),
    decreases toks@.len() - pos, 5nat,
{
    let mut v: Vec<AST> = Vec::new();
    let mut p = pos;
    proof {
        crate::grammar::lemma_stmts_prefix_start(toks@, pos as int);
        assert(v@ =~= Seq::<AST>::empty());
    }
    loop
        invariant
            lexemes_ok(toks@),
            pos <= p <= toks@.len(),
            p == pos <==> v@.len() == 0,
            forall|i: int| 0 <= i < v@.len() ==> wf_expr(#[trigger] v@[i]),
            stmts_prefix(toks@, pos as int, p as int, v@),
        decreases toks@.len() - p,
    {
        let ghost before = v@;
        if is_kind(toks, p, TokenKind::Return) {
            let (e, q) = parse_expression(toks, p + 1)?;
            let ret = AST::Return(Box::new(e));
            v.push(ret);
            let q2 = if is_kind(toks, q, TokenKind::Dot) {
                q + 1
            } else {
                q
            };
            let a = AST::Statements(v);
            proof {
                crate::grammar::lemma_last_return(toks@, p as int, q as int, q2 as int, ret);
                assert(v@.drop_last() =~= before);
                crate::grammar::lemma_statements(toks@, pos as int, p as int, q2 as int, a);
            }
            return Ok((a, q2));
        }
        let (e, q) = parse_expression(toks, p)?;
        v.push(e);
        if is_kind(toks, q, TokenKind::Dot) && q + 1 < toks.len() && !is_kind(
            toks,
            q + 1,
            TokenKind::RBracket,
        ) {
            proof {
                crate::grammar::lemma_stmts_prefix_step(toks@, pos as int, p as int, before, q + 1, e);
            }
            p = q + 1;
        } else {
            let a = AST::Statements(v);
            proof {
                assert(!separating_dot(toks@, q as int));
                assert(last_stmt(toks@, p as int, q as int, e));
                assert(v@.drop_last() =~= before);
                crate::grammar::lemma_statements(toks@, pos as int, p as int, q as int, a);
            }
            return Ok((a, q));
        }
    }
}

/// After `[`: block parameters (`:x :y |`), temporaries (`| a b |`, dropped), statements
/// and `]`.
fn parse_block(toks: &Vec<Token>, pos: usize) -> (r: Result<(AST, usize), ParseError>)
    requires
        lexemes_ok(toks@),
        pos <= toks@.len(),
    ensures
        r matches Ok((a, p)) ==> pos < p <= toks@.len() && wf_expr(a) && block(toks@, pos as int, p as int, a),
        r matches Err(e) ==> e.position <= toks@.len(),
    decreases toks@.len() - pos, 6nat,
{
    let mut params: Vec<String> = Vec::new();
    let mut p = pos;
    while is_kind(toks, p, TokenKind::Colon)
        invariant
            lexemes_ok(toks@),
            pos <= p <= toks@.len(),
            p == pos + 2 * params@.len(),
            crate::grammar::block_params(toks@, pos as int, params@),
        decreases toks@.len() - p,
    {
        if !is_kind(toks, p + 1, TokenKind::Identifier) {
            return Err(ParseError { position: if p + 1 < toks.len() { p + 1 } else { toks.len() } });
        }
        let ghost before = params@;
        let x = token_text(toks, p + 1);
        proof {
            crate::grammar::lemma_block_params_push(toks@, pos as int, before, x);
        }
        params.push(x);
        p = p + 2;
    }
    if params.len() > 0 {
        if !is_kind(toks, p, TokenKind::Bar) {
            return Err(ParseError { position: p });
        }
        p = p + 1;
    }
    p = skip_temporaries(toks, p);
    let (body, q) = parse_statements(toks, p)?;
    if !is_kind(toks, q, TokenKind::RBracket) {
        return Err(ParseError { position: q });
    }
    let temps: Vec<String> = Vec::new();
    assert(temps@.len() == 0);
    Ok((AST::Block { params, temps, body: Box::new(body) }, q + 1))
}

/// Skips `| a b |` where it stands at `pos`.
fn skip_temporaries(toks: &Vec<Token>, pos: usize) -> (r: usize)
    requires
        pos <= toks@.len() < usize::MAX,
    ensures
        pos <= r <= toks@.len(),
        r == skip_temps(toks@, pos as int),
{
    if !is_kind(toks, pos, TokenKind::Bar) {
        return pos;
    }
    let mut p = pos + 1;
    while is_kind(toks, p, TokenKind::Identifier)
        invariant
            pos < p <= toks@.len() < usize::MAX,
            idents_end(toks@, pos + 1) == idents_end(toks@, p as int),
        decreases toks@.len() - p,
    {
        p = p + 1;
    }
    if is_kind(toks, p, TokenKind::Bar) {
        p + 1
    } else {
        pos
    }
}


/// A method definition as the parser builds it: a selector, its parameters and a statement
/// list.
pub open spec fn wf_method(a: AST) -> bool {
    match a {
        AST::Method { name, params, temps, body } => params@.len() == arity(name@) && temps@.len()
            == 0 && wf_body(*body),
        _ => false,
    }
}

fn lex_checked(input: &str) -> (r: Result<Vec<Token>, SyntaxError>)
    ensures
        r matches Ok(toks) ==> lexemes_ok(toks@) && tokens_of(input@, toks@) && lexemes_from(input@, 0)
            == Ok::<Seq<(TokenKind, int, int)>, int>(token_spans(toks@)),
        match lexemes_from(input@, 0) {
            Ok(_) => !(r matches Err(SyntaxError::Lex(_))),
            Err(p) => r matches Err(SyntaxError::Lex(e)) && e.position == p,
        },
{
    match lex(input) {
        Ok(toks) => {
            if toks.len() >= usize::MAX - 1 {
                return Err(SyntaxError::Parse(ParseError { position: 0 }));
            }
            assert forall|i: int| 0 <= i < toks@.len() implies kind_matches(
                #[trigger] toks@[i].kind,
                toks@[i].text@,
            ) by {
                assert(tokens_of(input@, toks@));
            }
            Ok(toks)
        },
        Err(e) => Err(SyntaxError::Lex(e)),
    }
}

/// Parses a script: statements, optionally ended by a dot. The result holds the one
/// statement list.
pub fn parse_script(input_string: String) -> (r: Result<Vec<AST>, SyntaxError>)
    ensures
        r matches Ok(v) ==> v@.len() == 1 && wf_body(v@[0]),
        r matches Ok(v) ==> exists|toks: Seq<Token>|
            #[trigger] witness(toks) && lexed(input_string@, toks) && script(toks, v@[0]),
        lexemes_from(input_string@, 0) matches Err(p) ==> (r matches Err(SyntaxError::Lex(e))
            && e.position == p),
{
    let toks = lex_checked(input_string.as_str())?;
    let (s, p) = match parse_statements(&toks, 0) {
        Ok(x) => x,
        Err(e) => {
            return Err(SyntaxError::Parse(e));
        },
    };
    let q = if is_kind(&toks, p, TokenKind::Dot) {
        p + 1
    } else {
        p
    };
    if q != toks.len() {
        return Err(SyntaxError::Parse(ParseError { position: q }));
    }
    proof {
        crate::grammar::lemma_script(toks@, p as int, s);
        assert(witness(toks@));
    }
    let mut v: Vec<AST> = Vec::new();
    v.push(s);
    Ok(v)
}

/// Parses a method definition: a unary selector, a binary selector and a parameter, or
/// keywords each with a parameter; then temporaries (dropped) and statements.
pub fn parse_method(input_string: String) -> (r: Result<Vec<AST>, SyntaxError>)
    ensures
        r matches Ok(v) ==> v@.len() == 1 && wf_method(v@[0]),
        r matches Ok(v) ==> exists|toks: Seq<Token>|
            #[trigger] witness(toks) && lexed(input_string@, toks) && crate::grammar::method(toks, v@[0]),
        lexemes_from(input_string@, 0) matches Err(p) ==> (r matches Err(SyntaxError::Lex(e))
            && e.position == p),
{
    let toks = lex_checked(input_string.as_str())?;
    let mut name = String::new();
    let mut params: Vec<String> = Vec::new();
    let mut p: usize = 0;
    if is_kind(&toks, 0, TokenKind::Identifier) {
        name = token_text(&toks, 0);
        proof {
            lemma_unary_arity(name@);
        }
        p = 1;
    } else if is_kind(&toks, 0, TokenKind::Binary) && is_kind(&toks, 1, TokenKind::Identifier) {
        name = token_text(&toks, 0);
        proof {
            lemma_binary_arity(name@);
        }
        params.push(token_text(&toks, 1));
        p = 2;
    } else {
        proof {
            assert(name@ =~= Seq::<char>::empty());
        }
        while is_kind(&toks, p, TokenKind::Keyword) && is_kind(&toks, p + 1, TokenKind::Identifier)
            invariant
                lexemes_ok(toks@),
                p <= toks@.len(),
                colons(name@) == params@.len(),
                p > 0 ==> name@.len() > 0 && name@.last() == ':',
                p == 0 ==> params@.len() == 0,
                p == 2 * params@.len(),
                crate::grammar::kw_header(toks@, name@, params@),
            decreases toks@.len() - p,
        {
            let kw = token_text(&toks, p);
            let x = token_text(&toks, p + 1);
            proof {
                lemma_keyword_colons(kw@);
                lemma_colons_concat(name@, kw@);
                crate::grammar::lemma_kw_header_push(toks@, name@, params@, x);
            }
            name.append(kw.as_str());
            params.push(x);
            p = p + 2;
        }
        if p == 0 {
            return Err(SyntaxError::Parse(ParseError { position: 0 }));
        }
    }
    let p0 = p;
    proof {
        assert(crate::grammar::method_header(toks@, name@, params@, p0 as int));
    }
    p = skip_temporaries(&toks, p);
    let (body, q) = match parse_statements(&toks, p) {
        Ok(x) => x,
        Err(e) => {
            return Err(SyntaxError::Parse(e));
        },
    };
    if q != toks.len() {
        return Err(SyntaxError::Parse(ParseError { position: q }));
    }
    let temps: Vec<String> = Vec::new();
    let m = AST::Method { name, params, temps, body: Box::new(body) };
    proof {
        crate::grammar::lemma_method(toks@, p0 as int, m);
        assert(witness(toks@));
    }
    let mut v: Vec<AST> = Vec::new();
    v.push(m);
    Ok(v)
}


pub proof fn lemma_same_ast_refl(a: AST)
    ensures
        same_ast(a, a),
    decreases a,
{
    match a {
        AST::Method { body, .. } => lemma_same_ast_refl(*body),
        AST::Block { body, .. } => lemma_same_ast_refl(*body),
        AST::Return(x) => lemma_same_ast_refl(*x),
        AST::PatternPart(_, o, r) => {
            if let Some(x) = o {
                lemma_same_ast_refl(*x);
            }
            lemma_same_ast_refl(*r);
        },
        AST::List(x, y) => {
            lemma_same_ast_refl(*x);
            lemma_same_ast_refl(*y);
        },
        AST::Table(v) => lemma_same_list_refl(v@),
        AST::Statements(v) => lemma_same_list_refl(v@),
        AST::InvokeSequence(t, v) => {
            lemma_same_ast_refl(*t);
            lemma_same_list_refl(v@);
        },
        AST::InvokeCascade(t, v) => {
            lemma_same_ast_refl(*t);
            lemma_same_list_refl(v@);
        },
        AST::Message { args, .. } => lemma_same_list_refl(args@),
        AST::Assign(x, y) => {
            lemma_same_ast_refl(*x);
            lemma_same_ast_refl(*y);
        },
        _ => {},
    }
}

pub proof fn lemma_same_list_refl(v: Seq<AST>)
    ensures
        same_list(v, v),
    decreases v,
{
    assert forall|i: int| 0 <= i < v.len() implies same_ast(#[trigger] v[i], v[i]) by {
        lemma_same_ast_refl(v[i]);
    }
}

pub proof fn lemma_same_ast_trans(a: AST, b: AST, c: AST)
    requires
        same_ast(a, b),
        same_ast(b, c),
    ensures
        same_ast(a, c),
    decreases a,
{
    match (a, b, c) {
        (AST::Method { body: x, .. }, AST::Method { body: y, .. }, AST::Method { body: z, .. }) => {
            lemma_same_ast_trans(*x, *y, *z)
        },
        (AST::Block { body: x, .. }, AST::Block { body: y, .. }, AST::Block { body: z, .. }) => {
            lemma_same_ast_trans(*x, *y, *z)
        },
        (AST::Return(x), AST::Return(y), AST::Return(z)) => lemma_same_ast_trans(*x, *y, *z),
        (AST::PatternPart(_, o1, r1), AST::PatternPart(_, o2, r2), AST::PatternPart(_, o3, r3)) => {
            if let (Some(x), Some(y), Some(z)) = (o1, o2, o3) {
                lemma_same_ast_trans(*x, *y, *z);
            }
            lemma_same_ast_trans(*r1, *r2, *r3);
        },
        (AST::List(x1, y1), AST::List(x2, y2), AST::List(x3, y3)) => {
            lemma_same_ast_trans(*x1, *x2, *x3);
            lemma_same_ast_trans(*y1, *y2, *y3);
        },
        (AST::Table(v1), AST::Table(v2), AST::Table(v3)) => lemma_same_list_trans(v1@, v2@, v3@),
        (AST::Statements(v1), AST::Statements(v2), AST::Statements(v3)) => lemma_same_list_trans(
            v1@,
            v2@,
            v3@,
        ),
        (AST::InvokeSequence(t1, v1), AST::InvokeSequence(t2, v2), AST::InvokeSequence(t3, v3)) => {
            lemma_same_ast_trans(*t1, *t2, *t3);
            lemma_same_list_trans(v1@, v2@, v3@);
        },
        (AST::InvokeCascade(t1, v1), AST::InvokeCascade(t2, v2), AST::InvokeCascade(t3, v3)) => {
            lemma_same_ast_trans(*t1, *t2, *t3);
            lemma_same_list_trans(v1@, v2@, v3@);
        },
        (AST::Message { args: v1, .. }, AST::Message { args: v2, .. }, AST::Message {
            args: v3,
            ..
        }) => lemma_same_list_trans(v1@, v2@, v3@),
        (AST::Assign(x1, y1), AST::Assign(x2, y2), AST::Assign(x3, y3)) => {
            lemma_same_ast_trans(*x1, *x2, *x3);
            lemma_same_ast_trans(*y1, *y2, *y3);
        },
        _ => {},
    }
}

pub proof fn lemma_same_list_trans(u: Seq<AST>, v: Seq<AST>, w: Seq<AST>)
    requires
        same_list(u, v),
        same_list(v, w),
    ensures
        same_list(u, w),
    decreases u,
{
    assert forall|i: int| 0 <= i < u.len() implies same_ast(#[trigger] u[i], w[i]) by {
        lemma_same_ast_trans(u[i], v[i], w[i]);
    }
}


pub proof fn lemma_same_ast_sym(a: AST, b: AST)
    requires
        same_ast(a, b),
    ensures
        same_ast(b, a),
    decreases a,
{
    match (a, b) {
        (AST::Method { body: x, .. }, AST::Method { body: y, .. }) => lemma_same_ast_sym(*x, *y),
        (AST::Block { body: x, .. }, AST::Block { body: y, .. }) => lemma_same_ast_sym(*x, *y),
        (AST::Return(x), AST::Return(y)) => lemma_same_ast_sym(*x, *y),
        (AST::PatternPart(_, o1, r1), AST::PatternPart(_, o2, r2)) => {
            if let (Some(x), Some(y)) = (o1, o2) {
                lemma_same_ast_sym(*x, *y);
            }
            lemma_same_ast_sym(*r1, *r2);
        },
        (AST::List(x1, y1), AST::List(x2, y2)) => {
            lemma_same_ast_sym(*x1, *x2);
            lemma_same_ast_sym(*y1, *y2);
        },
        (AST::Table(v1), AST::Table(v2)) => lemma_same_list_sym(v1@, v2@),
        (AST::Statements(v1), AST::Statements(v2)) => lemma_same_list_sym(v1@, v2@),
        (AST::InvokeSequence(t1, v1), AST::InvokeSequence(t2, v2)) => {
            lemma_same_ast_sym(*t1, *t2);
            lemma_same_list_sym(v1@, v2@);
        },
        (AST::InvokeCascade(t1, v1), AST::InvokeCascade(t2, v2)) => {
            lemma_same_ast_sym(*t1, *t2);
            lemma_same_list_sym(v1@, v2@);
        },
        (AST::Message { args: v1, .. }, AST::Message { args: v2, .. }) => lemma_same_list_sym(
            v1@,
            v2@,
        ),
        (AST::Assign(x1, y1), AST::Assign(x2, y2)) => {
            lemma_same_ast_sym(*x1, *x2);
            lemma_same_ast_sym(*y1, *y2);
        },
        _ => {},
    }
}

pub proof fn lemma_same_list_sym(u: Seq<AST>, v: Seq<AST>)
    requires
        same_list(u, v),
    ensures
        same_list(v, u),
    decreases u,
{
    assert forall|i: int| 0 <= i < v.len() implies same_ast(#[trigger] v[i], u[i]) by {
        lemma_same_ast_sym(u[i], v[i]);
    }
}

/// The value of an integer literal.
pub fn eval(value: &AST) -> (r: i64)
    requires
        value is Int,
    ensures
        r == value->Int_0,
{
    match value {
        AST::Int(n) => *n,
        _ => 0,
    }
}

} // verus!
