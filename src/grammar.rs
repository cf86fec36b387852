use vstd::prelude::*;

use crate::ast::AstV;
use crate::error::ParseErrorType;
use crate::lexer::{Keyword, TokV};

verus! {

/// The model of a syntax error: its kind, its primary label, its primary span (byte offset
/// and length), its help text, and its secondary spans (byte offset, length, label).
pub struct PErr {
    pub kind: ParseErrorType,
    pub label: Seq<char>,
    pub span: (int, int),
    pub help: Option<Seq<char>>,
    pub spans: Seq<(int, int, Seq<char>)>,
}

/// The byte offset where token `i` begins, from the offsets `o` of the tokens; 0 where none is
/// known.
pub open spec fn off(o: Seq<int>, i: int) -> int {
    if 0 <= i < o.len() {
        o[i]
    } else {
        0
    }
}

/// The outcome of parsing from a position: the tree or the error, and the position after.
pub type Parsed<A> = (Result<A, PErr>, int);

/// The token at `i`; past the end, the end-of-input token.
pub open spec fn tk(t: Seq<TokV>, i: int) -> TokV {
    if 0 <= i < t.len() {
        t[i]
    } else {
        TokV::EOF
    }
}

/// The position after `i`; the last token is never passed.
pub open spec fn adv(t: Seq<TokV>, i: int) -> int {
    if i < t.len() - 1 {
        i + 1
    } else {
        i
    }
}

/// The position after `i` when the token there is `tok`, else `i`.
pub open spec fn skip(t: Seq<TokV>, i: int, tok: TokV) -> int {
    if tk(t, i) == tok {
        adv(t, i)
    } else {
        i
    }
}

/// An error at token `i`, with a one-byte primary span and no secondary span.
pub open spec fn perr(o: Seq<int>, i: int, kind: ParseErrorType, label: Seq<char>, help: Option<Seq<char>>) -> PErr {
    PErr { kind, label, span: (off(o, i), 1), help, spans: Seq::empty() }
}

/// What an error raised inside a block whose `{` begins at byte `open` becomes when the block
/// unwinds: a missing-block error is relabelled as the end of the block, points at the opening
/// brace, and tells how to close the block.
pub open spec fn in_block(e: PErr, open: int) -> PErr {
    if e.kind == ParseErrorType::BLOCK {
        PErr {
            kind: e.kind,
            label: "Found end of block"@,
            span: e.span,
            help: Some("Close the block with a '}'"@),
            spans: e.spans.push((open, 0, "Found opening '{' here"@)),
        }
    } else {
        e
    }
}

/// The guard of a step that must move forward; it always holds of the parser's own steps.
pub open spec fn stuck<A>(o: Seq<int>, i: int) -> Parsed<A> {
    (Err(perr(o, i, ParseErrorType::UNEXPECTED, "Parser made no progress"@, None)), i)
}

/// EXP := (ATOM | FORM | BLOCK) followed by any number of argument lists.
pub open spec fn p_exp(t: Seq<TokV>, o: Seq<int>, i: int) -> Parsed<AstV>
    decreases t.len() - i, 9int,
{
    let (r, j) = match tk(t, i) {
        TokV::Ident(_) | TokV::Int(_) | TokV::Str(_) => p_atom(t, o, i),
        TokV::Kw(_) => p_form(t, o, i),
        TokV::OpenBrace => p_block(t, o, i),
        _ => (Err(perr(o, i, ParseErrorType::BLOCK, "Expected expression"@, None)), i),
    };
    match r {
        Err(e) => (Err(e), j),
        Ok(a) => if j > i && i >= 0 && j <= t.len() {
            p_suffix(t, o, j, a)
        } else {
            stuck(o, j)
        },
    }
}

/// The argument lists that follow the expression `a` at `j`.
pub open spec fn p_suffix(t: Seq<TokV>, o: Seq<int>, j: int, a: AstV) -> Parsed<AstV>
    decreases t.len() - j, 8int,
{
    if tk(t, j) == TokV::OpenParen {
        let (r, k) = p_app(t, o, j, a);
        match r {
            Err(e) => (Err(e), k),
            Ok(b) => if k > j && k <= t.len() {
                p_suffix(t, o, k, b)
            } else {
                stuck(o, k)
            },
        }
    } else {
        (Ok(a), j)
    }
}

/// APPLICATION := EXP '(' ARGLIST? ')', with `a` the expression before `(` at `j`.
pub open spec fn p_app(t: Seq<TokV>, o: Seq<int>, j: int, a: AstV) -> Parsed<AstV>
    decreases t.len() - j, 7int,
{
    let j1 = skip(t, j, TokV::OpenParen);
    if j1 <= j {
        stuck(o, j1)
    } else if tk(t, j1) == TokV::CloseParen {
        (Ok(AstV::App(Box::new(a), Seq::empty())), adv(t, j1))
    } else {
        p_args(t, o, j1, a, Seq::empty())
    }
}

/// The arguments from `k` on, after `acc`, each followed by `,` or by the closing `)`.
pub open spec fn p_args(t: Seq<TokV>, o: Seq<int>, k: int, a: AstV, acc: Seq<AstV>) -> Parsed<AstV>
    decreases t.len() - k, 10int,
{
    let (r, m) = p_exp(t, o, k);
    match r {
        Err(e) => (Err(e), m),
        Ok(x) => if m <= k || m > t.len() {
            stuck(o, m)
        } else if tk(t, m) == TokV::CloseParen {
            (Ok(AstV::App(Box::new(a), acc.push(x))), adv(t, m))
        } else {
            p_args(t, o, skip(t, m, TokV::Comma), a, acc.push(x))
        },
    }
}

/// ATOM := INTEGER | STRING | IDENTIFIER, where an identifier may begin an assignment.
pub open spec fn p_atom(t: Seq<TokV>, o: Seq<int>, i: int) -> Parsed<AstV>
    decreases t.len() - i, 8int,
{
    match tk(t, i) {
        TokV::Int(n) => (Ok(AstV::Int(n)), adv(t, i)),
        TokV::Str(s) => (Ok(AstV::Str(s)), adv(t, i)),
        _ => p_assign(t, o, i),
    }
}

/// An identifier alone, or ASSIGN := IDENT '=' EXP.
pub open spec fn p_assign(t: Seq<TokV>, o: Seq<int>, i: int) -> Parsed<AstV>
    decreases t.len() - i, 7int,
{
    match p_ident(t, o, i) {
        (Err(e), j) => (Err(e), j),
        (Ok(name), j) => if tk(t, j) == TokV::Equals {
            let k = adv(t, j);
            if k > i && i >= 0 {
                match p_exp(t, o, k) {
                    (Ok(x), m) => (Ok(AstV::Assign(name, Box::new(x))), m),
                    (Err(e), m) => (Err(e), m),
                }
            } else {
                stuck(o, k)
            }
        } else {
            (Ok(AstV::Ident(name)), j)
        },
    }
}

/// An identifier, where one is required.
pub open spec fn p_ident(t: Seq<TokV>, o: Seq<int>, i: int) -> Parsed<Seq<char>> {
    match tk(t, i) {
        TokV::Ident(name) => (Ok(name), adv(t, i)),
        _ => (
            Err(
                perr(
                    o,
                    i,
                    ParseErrorType::UNEXPECTED,
                    "Expected an identifier"@,
                    Some(
                        "A valid identifier starts with a valid unicode character, but not a digit, '+' or '-'."@,
                    ),
                ),
            ),
            i,
        ),
    }
}

/// FORM := LAMBDA | COND | LET | DEF, chosen by the keyword at `i`.
pub open spec fn p_form(t: Seq<TokV>, o: Seq<int>, i: int) -> Parsed<AstV>
    decreases t.len() - i, 8int,
{
    match tk(t, i) {
        TokV::Kw(Keyword::Def) => p_def(t, o, i),
        TokV::Kw(Keyword::Let) => p_let(t, o, i),
        TokV::Kw(Keyword::Lambda) => p_lambda(t, o, i),
        _ => p_cond(t, o, i),
    }
}

/// DEF := 'def' IDENT EXP
pub open spec fn p_def(t: Seq<TokV>, o: Seq<int>, i: int) -> Parsed<AstV>
    decreases t.len() - i, 7int,
{
    match p_ident(t, o, adv(t, i)) {
        (Err(e), j) => (Err(e), j),
        (Ok(name), k) => if k > i && i >= 0 {
            match p_exp(t, o, k) {
                (Ok(x), m) => (Ok(AstV::Def(name, Box::new(x))), m),
                (Err(e), m) => (Err(e), m),
            }
        } else {
            stuck(o, k)
        },
    }
}

/// LET := 'let' IDENT '='? EXP
pub open spec fn p_let(t: Seq<TokV>, o: Seq<int>, i: int) -> Parsed<AstV>
    decreases t.len() - i, 7int,
{
    let j = adv(t, i);
    match tk(t, j) {
        TokV::Ident(name) => {
            let k = skip(t, adv(t, j), TokV::Equals);
            if k > i && i >= 0 {
                match p_exp(t, o, k) {
                    (Ok(x), m) => (Ok(AstV::Let(name, Box::new(x))), m),
                    (Err(e), m) => (Err(e), m),
                }
            } else {
                stuck(o, k)
            }
        },
        _ => (
            Err(
                perr(
                    o,
                    j,
                    ParseErrorType::LET,
                    "Expected an identifier"@,
                    Some("Let expression has form 'let x = 5'"@),
                ),
            ),
            j,
        ),
    }
}

/// LAMBDA := ('lambda' | 'λ') '(' PARAMS? ')' BLOCK
pub open spec fn p_lambda(t: Seq<TokV>, o: Seq<int>, i: int) -> Parsed<AstV>
    decreases t.len() - i, 7int,
{
    let j1 = skip(t, adv(t, i), TokV::OpenParen);
    let (ps, j2) = p_params(t, o, j1, Seq::empty());
    let j3 = skip(t, j2, TokV::CloseParen);
    if j3 > i && i >= 0 && j3 <= t.len() {
        match p_block(t, o, j3) {
            (Ok(AstV::Block(body)), m) => (Ok(AstV::Lambda(ps, body)), m),
            (Ok(_), m) => (Err(perr(o, m, ParseErrorType::BLOCK, "Expected expression"@, None)), m),
            (Err(e), m) => (Err(e), m),
        }
    } else {
        stuck(o, j3)
    }
}

/// PARAMS := IDENT (',' IDENT)*, after the names `acc`.
pub open spec fn p_params(t: Seq<TokV>, o: Seq<int>, j: int, acc: Seq<Seq<char>>) -> (Seq<Seq<char>>, int)
    decreases t.len() - j,
{
    match tk(t, j) {
        TokV::Ident(name) => {
            let j1 = adv(t, j);
            if tk(t, j1) == TokV::Comma && j1 > j && adv(t, j1) > j1 {
                p_params(t, o, adv(t, j1), acc.push(name))
            } else {
                (acc.push(name), skip(t, j1, TokV::Comma))
            }
        },
        _ => (acc, j),
    }
}

/// COND := 'cond' CLAUSE*
pub open spec fn p_cond(t: Seq<TokV>, o: Seq<int>, i: int) -> Parsed<AstV>
    decreases t.len() - i, 7int,
{
    let j = adv(t, i);
    if j > i && i >= 0 {
        p_clauses(t, o, j, Seq::empty())
    } else {
        stuck(o, j)
    }
}

/// The clauses from `j` on, after `acc`.
pub open spec fn p_clauses(t: Seq<TokV>, o: Seq<int>, j: int, acc: Seq<(AstV, AstV)>) -> Parsed<AstV>
    decreases t.len() - j, 10int,
{
    if tk(t, j) == TokV::OpenParen {
        match p_clause(t, o, j) {
            (Err(e), k) => (Err(e), k),
            (Ok(c), k) => if k > j && k <= t.len() {
                p_clauses(t, o, k, acc.push(c))
            } else {
                stuck(o, k)
            },
        }
    } else {
        (Ok(AstV::Cond(acc)), j)
    }
}

/// CLAUSE := '(' EXP '=>' EXP ')'
pub open spec fn p_clause(t: Seq<TokV>, o: Seq<int>, j: int) -> Parsed<(AstV, AstV)>
    decreases t.len() - j, 8int,
{
    let j1 = skip(t, j, TokV::OpenParen);
    if j1 > j && j >= 0 {
        match p_exp(t, o, j1) {
            (Err(e), k) => (Err(e), k),
            (Ok(c), k) => {
                let k1 = skip(t, k, TokV::Arrow);
                if k1 > j && k1 <= t.len() {
                    match p_exp(t, o, k1) {
                        (Err(e), m) => (Err(e), m),
                        (Ok(x), m) => (Ok((c, x)), skip(t, m, TokV::CloseParen)),
                    }
                } else {
                    stuck(o, k1)
                }
            },
        }
    } else {
        stuck(o, j1)
    }
}

/// BLOCK := '{' (EXP (';' EXP)*)? '}'
pub open spec fn p_block(t: Seq<TokV>, o: Seq<int>, i: int) -> Parsed<AstV>
    decreases t.len() - i, 8int,
{
    if tk(t, i) != TokV::OpenBrace {
        (
            Err(
                perr(
                    o,
                    i,
                    ParseErrorType::BLOCK,
                    "Expected a block"@,
                    Some("Create a block with enclosing braces"@),
                ),
            ),
            i,
        )
    } else {
        let j = adv(t, i);
        if j > i && i >= 0 {
            p_items(t, o, j, Seq::empty(), i)
        } else {
            stuck(o, j)
        }
    }
}

/// The expressions of a block from `j` on, after `acc`, up to the closing `}`; the block's `{`
/// is token `open`.
pub open spec fn p_items(t: Seq<TokV>, o: Seq<int>, j: int, acc: Seq<AstV>, open: int) -> Parsed<AstV>
    decreases t.len() - j, 10int,
{
    if tk(t, j) == TokV::CloseBrace {
        (Ok(AstV::Block(acc)), adv(t, j))
    } else {
        match p_exp(t, o, j) {
            (Err(e), k) => (Err(in_block(e, off(o, open))), k),
            (Ok(x), k) => {
                let k1 = skip(t, k, TokV::Semicolon);
                if k1 > j && k1 <= t.len() {
                    p_items(t, o, k1, acc.push(x), open)
                } else {
                    stuck(o, k1)
                }
            },
        }
    }
}

} // verus!
