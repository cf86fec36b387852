use std::rc::Rc;
use vstd::prelude::*;

use crate::ast::{lemma_asts_view, lemma_clauses_view, asts_view, clauses_view, Ast, AstV};
use crate::grammar::{
    in_block, p_app, p_args, p_assign, p_atom, p_block, p_clause, p_clauses, p_cond, p_def, p_exp,
    p_form, p_ident, p_items, p_lambda, p_let, p_params, p_suffix, perr, off, PErr,
    in_block as block_error,
};
use crate::value::names_view;
use crate::error::{LabeledSpan, ParseError, ParseErrorType};
use crate::json::{ast_matches, canonical, Json};
use crate::lexer::{
    lex_all, lex_offsets, skip_blank,
    lemma_skip_blank_ge, lemma_token_progress, Keyword, LexToken, Lexer, TokV, Token, TokenContainer,
};
use crate::text::same_text;

verus! {

/// The models of the tokens of a slice.
pub open spec fn token_views<T: LexToken>(tokens: Seq<T>) -> Seq<TokV> {
    tokens.map_values(|t: T| t.token_view()@)
}

/// The tree `a` has the form that its first token `t` announces: a literal, a name or an
/// assignment to it, a definition, a `let`, a lambda, a `cond` or a block.
pub open spec fn announced_by(t: TokV, a: Ast) -> bool {
    match t {
        TokV::Int(n) => a == Ast::Integer(n),
        TokV::Str(s) => a is String && a->String_0@ == s,
        TokV::Ident(name) => (a is Identifier && a->Identifier_0@ == name) || (a is Assignment
            && a->Assignment_0@ == name),
        TokV::Kw(Keyword::Def) => a is Def,
        TokV::Kw(Keyword::Let) => a is Let,
        TokV::Kw(Keyword::Lambda) => a is Lambda,
        TokV::Kw(Keyword::Cond) => a is Cond,
        TokV::OpenBrace => a is Block,
        _ => false,
    }
}

/// `r` is the JSON encoding of the tree that `p` gives, in the wire form where every object has
/// one member, or the error that it gives.
pub open spec fn encodes_parse(r: Result<Json, ParseError>, p: Result<AstV, PErr>) -> bool {
    match p {
        Ok(v) => r is Ok && canonical(r->Ok_0) && exists|a: Ast| a@ == v && ast_matches(r->Ok_0, a),
        Err(pe) => r is Err && perr_of(r->Err_0) == pe,
    }
}

/// The model of a syntax error.
pub open spec fn perr_of(e: ParseError) -> PErr {
    PErr {
        kind: e.error_type,
        label: e.label@,
        span: (e.main_span.0 as int, e.main_span.1 as int),
        help: match e.help {
            Some(h) => Some(h@),
            None => None,
        },
        spans: spans_view(e.other_spans@),
    }
}

/// The models of secondary spans: byte offset, length, label.
pub open spec fn spans_view(v: Seq<LabeledSpan>) -> Seq<(int, int, Seq<char>)> {
    v.map_values(|s: LabeledSpan| (s.offset as int, s.len as int, s.label@))
}

proof fn lemma_no_spans(v: Seq<LabeledSpan>)
    requires
        v.len() == 0,
    ensures
        spans_view(v) == Seq::<(int, int, Seq<char>)>::empty(),
{
    assert(spans_view(v) =~= Seq::<(int, int, Seq<char>)>::empty());
}

/// The model of a parse outcome.
pub open spec fn parsed<A: View>(r: Result<A, ParseError>) -> Result<A::V, PErr> {
    match r {
        Ok(a) => Ok(a@),
        Err(e) => Err(perr_of(e)),
    }
}

/// Where a token begins in the source, if it carries that; else 0.
pub open spec fn tok_offset<T: LexToken>(t: T) -> int {
    match t.source_view() {
        Some(s) => s as int,
        None => 0,
    }
}

pub open spec fn token_offsets<T: LexToken>(tokens: Seq<T>) -> Seq<int> {
    Seq::new(tokens.len(), |i: int| tok_offset(tokens[i]))
}

/// Whether two tokens are the same.
fn token_eq(a: &Token, b: &Token) -> (r: bool)
    ensures
        r == (a@ == b@),
{
    match (a, b) {
        (Token::Identifier(x), Token::Identifier(y)) => same_text(x.as_str(), y.as_str()),
        (Token::String(x), Token::String(y)) => same_text(x.as_str(), y.as_str()),
        (Token::Keyword(x), Token::Keyword(y)) => *x == *y,
        (Token::Integer(x), Token::Integer(y)) => *x == *y,
        (Token::OpenParen, Token::OpenParen) => true,
        (Token::CloseParen, Token::CloseParen) => true,
        (Token::OpenBrace, Token::OpenBrace) => true,
        (Token::CloseBrace, Token::CloseBrace) => true,
        (Token::Comma, Token::Comma) => true,
        (Token::Semicolon, Token::Semicolon) => true,
        (Token::Equals, Token::Equals) => true,
        (Token::Arrow, Token::Arrow) => true,
        (Token::EOF, Token::EOF) => true,
        (Token::Error, Token::Error) => true,
        _ => false,
    }
}

/// A recursive-descent parser over a slice of tokens that ends with the end-of-input token.
pub struct Parser<'a, T: LexToken> {
    pub tokens: &'a [T],
    pub current: usize,
    pub source_name: &'a str,
    pub source: &'a str,
}

impl<'a, T: LexToken> Parser<'a, T> {
    /// The token slice is not empty and ends with the end-of-input token, and the position is
    /// on one of its tokens.
    pub open spec fn wf(&self) -> bool {
        &&& self.tokens@.len() > 0
        &&& token_views(self.tokens@).last() == TokV::EOF
        &&& self.current < self.tokens@.len()
    }

    pub open spec fn toks(&self) -> Seq<TokV> {
        token_views(self.tokens@)
    }

    pub open spec fn offs(&self) -> Seq<int> {
        token_offsets(self.tokens@)
    }

    pub open spec fn tok(&self) -> TokV {
        token_views(self.tokens@)[self.current as int]
    }

    pub fn new(source_name: &'a str, source: &'a str, tokens: &'a [T]) -> (r: Self)
        requires
            tokens@.len() > 0,
            token_views(tokens@).last() == TokV::EOF,
        ensures
            r.wf(),
            r.source_name == source_name,
            r.source == source,
            r.tokens@ == tokens@,
            r.current == 0,
    {
        Parser { tokens, current: 0, source_name, source }
    }

    /// The token at the current position.
    fn current_token(&self) -> (r: &Token)
        requires
            self.wf(),
        ensures
            r@ == self.tok(),
    {
        self.tokens[self.current].token()
    }

    /// Where in the source the current token began, if the tokens carry that.
    fn current_source(&self) -> (r: Option<usize>)
        requires
            self.wf(),
        ensures
            r == self.tokens@[self.current as int].source_view(),
    {
        self.tokens[self.current].source()
    }

    fn current_offset(&self) -> (r: usize)
        requires
            self.wf(),
        ensures
            r as int == off(self.offs(), self.current as int),
    {
        match self.current_source() {
            Some(s) => s,
            None => 0,
        }
    }

    /// Moves to the next token; the end-of-input token is never passed.
    fn next_token(&mut self)
        requires
            old(self).wf(),
        ensures
            final(self).wf(),
            final(self).tokens == old(self).tokens,
            old(self).tok() != TokV::EOF ==> final(self).current == old(self).current + 1,
            old(self).current <= final(self).current,
    {
        if self.current < self.tokens.len() - 1 {
            self.current = self.current + 1;
        }
    }

    /// Moves past the current token when it is `token`.
    fn consume(&mut self, token: &Token) -> (r: bool)
        requires
            old(self).wf(),
            token@ != TokV::EOF,
        ensures
            final(self).wf(),
            final(self).tokens == old(self).tokens,
            r == (old(self).tok() == token@),
            r ==> final(self).current == old(self).current + 1,
            !r ==> final(self).current == old(self).current,
    {
        if token_eq(self.current_token(), token) {
            self.next_token();
            true
        } else {
            false
        }
    }

    /// Parses one expression and returns its JSON encoding.
    pub fn parse_program(&mut self) -> (r: Result<Json, ParseError>)
        requires
            old(self).wf(),
        ensures
            final(self).wf(),
            r matches Ok(j) ==> exists|a: Ast| ast_matches(j, a),
            encodes_parse(r, p_exp(old(self).toks(), old(self).offs(), old(self).current as int).0),
    {
        match self.parse_exp() {
            Ok(a) => {
                let j = a.to_json();
                Ok(j)
            },
            Err(e) => Err(e),
        }
    }

    fn expected_expression(&self) -> (r: ParseError)
        requires
            self.wf(),
        ensures
            r.error_type == ParseErrorType::BLOCK,
            r.label@ == "Expected expression"@,
            perr_of(r) == perr(self.offs(), self.current as int, ParseErrorType::BLOCK, "Expected expression"@, None),
    {
        let r = ParseError::new(
            ParseErrorType::BLOCK,
            self.source_name,
            self.source,
            (self.current_offset(), 1),
            "Expected expression",
        );
        proof {
            lemma_no_spans(r.other_spans@);
        }
        r
    }

    /// An error of kind `kind` at the current token, with a one-byte span.
    fn error_here(&self, kind: ParseErrorType, label: &str, help: Option<&str>) -> (r: ParseError)
        requires
            self.wf(),
        ensures
            perr_of(r) == perr(
                self.offs(),
                self.current as int,
                kind,
                label@,
                match help {
                    Some(h) => Some(h@),
                    None => None,
                },
            ),
    {
        let help_text = match help {
            Some(h) => Some(h.to_string()),
            None => None,
        };
        let r = ParseError::new_full(
            kind,
            self.source_name,
            self.source,
            (self.current_offset(), 1),
            label,
            help_text,
            Vec::new(),
        );
        proof {
            lemma_no_spans(r.other_spans@);
        }
        r
    }

    /// EXP := (ATOM | FORM | BLOCK) followed by any number of argument lists.
    fn parse_exp(&mut self) -> (r: Result<Ast, ParseError>)
        requires
            old(self).wf(),
        ensures
            final(self).wf(),
            final(self).tokens == old(self).tokens,
            old(self).current <= final(self).current,
            r is Ok ==> old(self).current < final(self).current,
            !(old(self).tok() is Ident || old(self).tok() is Int || old(self).tok() is Str
                || old(self).tok() is Kw || old(self).tok() == TokV::OpenBrace) ==> (r matches Err(e)
                && e.error_type == ParseErrorType::BLOCK && e.label@ == "Expected expression"@
                && final(self).current == old(self).current),
            (r is Ok && old(self).tok() is Int && token_views(old(self).tokens@)[old(self).current + 1]
                != TokV::OpenParen) ==> r->Ok_0 == Ast::Integer(old(self).tok()->Int_0),
            (r is Ok && old(self).tok() is Str && token_views(old(self).tokens@)[old(self).current + 1]
                != TokV::OpenParen) ==> (r->Ok_0 is String && r->Ok_0->String_0@ == old(self).tok()->Str_0),
            r is Ok ==> final(self).tok() != TokV::OpenParen,
            r is Ok ==> r->Ok_0 is Application || announced_by(old(self).tok(), r->Ok_0),
            (parsed(r), final(self).current as int) == p_exp(old(self).toks(), old(self).offs(), old(self).current as int),
        decreases old(self).tokens@.len() - old(self).current, 3int,
    {
        let first = match self.current_token() {
            Token::Identifier(_) | Token::Integer(_) | Token::String(_) => self.parse_atom(),
            Token::Keyword(_) => self.parse_form(),
            Token::OpenBrace => self.parse_block(),
            _ => {
                return Err(self.expected_expression());
            },
        };
        let mut expr = match first {
            Ok(e) => e,
            Err(e) => {
                return Err(e);
            },
        };
        let ghost start = old(self).current;
        let ghost first_end = self.current;
        let ghost first_expr = expr;
        while token_eq(self.current_token(), &Token::OpenParen)
            invariant
                self.wf(),
                self.tokens == old(self).tokens,
                start == old(self).current,
                start < first_end <= self.current,
                self.current == first_end ==> expr == first_expr,
                self.current > first_end ==> expr is Application,
                announced_by(old(self).tok(), first_expr),
                token_views(self.tokens@)[first_end as int] != TokV::OpenParen ==> self.current == first_end,
                old(self).tok() is Ident || old(self).tok() is Int || old(self).tok() is Str
                    || old(self).tok() is Kw || old(self).tok() == TokV::OpenBrace,
                p_suffix(self.toks(), self.offs(), self.current as int, expr@) == p_exp(old(self).toks(), old(self).offs(), old(self).current as int),
            decreases self.tokens@.len() - self.current,
        {
            expr = match self.parse_application(expr) {
                Ok(e) => e,
                Err(e) => {
                    return Err(e);
                },
            };
        }
        Ok(expr)
    }

    /// FORM := LAMBDA | COND | LET | DEF
    fn parse_form(&mut self) -> (r: Result<Ast, ParseError>)
        requires
            old(self).wf(),
            old(self).tok() is Kw,
        ensures
            final(self).wf(),
            final(self).tokens == old(self).tokens,
            old(self).current <= final(self).current,
            r is Ok ==> old(self).current < final(self).current,
            r is Ok ==> announced_by(old(self).tok(), r->Ok_0),
            (parsed(r), final(self).current as int) == p_form(old(self).toks(), old(self).offs(), old(self).current as int),
        decreases old(self).tokens@.len() - old(self).current, 2int,
    {
        match self.current_token() {
            Token::Keyword(Keyword::Def) => self.parse_definition(),
            Token::Keyword(Keyword::Let) => self.parse_let(),
            Token::Keyword(Keyword::Lambda) => self.parse_lambda(),
            _ => self.parse_cond(),
        }
    }

    /// ATOM := IDENTIFIER | INTEGER | STRING, where an identifier may start an assignment.
    fn parse_atom(&mut self) -> (r: Result<Ast, ParseError>)
        requires
            old(self).wf(),
            old(self).tok() is Ident || old(self).tok() is Int || old(self).tok() is Str,
        ensures
            final(self).wf(),
            final(self).tokens == old(self).tokens,
            old(self).current <= final(self).current,
            r is Ok ==> old(self).current < final(self).current,
            old(self).tok() is Int ==> r == Ok::<Ast, ParseError>(Ast::Integer(old(self).tok()->Int_0))
                && final(self).current == old(self).current + 1,
            old(self).tok() is Str ==> (r is Ok && r->Ok_0 is String && r->Ok_0->String_0@ == old(self).tok()->Str_0
                && final(self).current == old(self).current + 1),
            r is Ok ==> announced_by(old(self).tok(), r->Ok_0),
            (parsed(r), final(self).current as int) == p_atom(old(self).toks(), old(self).offs(), old(self).current as int),
        decreases old(self).tokens@.len() - old(self).current, 2int,
    {
        match self.current_token() {
            Token::Integer(n) => {
                let n = *n;
                self.next_token();
                Ok(Ast::Integer(n))
            },
            Token::String(s) => {
                let s = s.clone();
                self.next_token();
                Ok(Ast::String(s))
            },
            _ => self.parse_assignment(),
        }
    }

    /// APPLICATION := EXP '(' ARGLIST? ')', with `func` the expression already parsed.
    fn parse_application(&mut self, func: Ast) -> (r: Result<Ast, ParseError>)
        requires
            old(self).wf(),
            old(self).tok() == TokV::OpenParen,
        ensures
            final(self).wf(),
            final(self).tokens == old(self).tokens,
            old(self).current <= final(self).current,
            r is Ok ==> old(self).current < final(self).current,
            r is Ok ==> r->Ok_0 is Application && *r->Ok_0->Application_0 == func,
            r is Ok ==> token_views(old(self).tokens@)[final(self).current - 1] == TokV::CloseParen,
            (parsed(r), final(self).current as int) == p_app(old(self).toks(), old(self).offs(), old(self).current as int, func@),
        decreases old(self).tokens@.len() - old(self).current, 1int,
    {
        self.consume(&Token::OpenParen);
        let mut args: Vec<Ast> = Vec::new();
        if !self.consume(&Token::CloseParen) {
            loop
                invariant_except_break
                    p_args(self.toks(), self.offs(), self.current as int, func@, asts_view(args@, 0)) == p_app(
                        old(self).toks(),
                        old(self).offs(),
                        old(self).current as int,
                        func@,
                    ),
                invariant
                    self.wf(),
                    self.tokens == old(self).tokens,
                    old(self).current < self.current,
                ensures
                    self.wf(),
                    self.tokens == old(self).tokens,
                    old(self).current < self.current,
                    token_views(self.tokens@)[self.current - 1] == TokV::CloseParen,
                    (Ok::<AstV, PErr>(AstV::App(Box::new(func@), asts_view(args@, 0))), self.current as int) == p_app(
                        old(self).toks(),
                        old(self).offs(),
                        old(self).current as int,
                        func@,
                    ),
                decreases self.tokens@.len() - self.current,
            {
                match self.parse_exp() {
                    Ok(e) => {
                        let ghost before = args@;
                        args.push(e);
                        proof {
                            lemma_asts_view(before, 0);
                            lemma_asts_view(args@, 0);
                            assert(asts_view(args@, 0) =~= asts_view(before, 0).push(args@.last()@));
                        }
                    },
                    Err(e) => {
                        return Err(e);
                    },
                }
                if self.consume(&Token::CloseParen) {
                    break;
                }
                self.consume(&Token::Comma);
            }
        }
        proof {
            lemma_asts_view(args@, 0);
        }
        Ok(Ast::Application(Box::new(func), args))
    }

    /// LAMBDA := ('lambda' | 'λ') '(' PARAMS? ')' BLOCK
    fn parse_lambda(&mut self) -> (r: Result<Ast, ParseError>)
        requires
            old(self).wf(),
            old(self).tok() is Kw,
        ensures
            final(self).wf(),
            final(self).tokens == old(self).tokens,
            old(self).current <= final(self).current,
            r is Ok ==> old(self).current < final(self).current,
            r is Ok ==> r->Ok_0 is Lambda,
            (parsed(r), final(self).current as int) == p_lambda(old(self).toks(), old(self).offs(), old(self).current as int),
        decreases old(self).tokens@.len() - old(self).current, 1int,
    {
        self.next_token();
        self.consume(&Token::OpenParen);
        let params = self.parse_parameters();
        self.consume(&Token::CloseParen);
        match self.parse_block() {
            Ok(Ast::Block(body)) => Ok(Ast::Lambda(Rc::new(params), Rc::new(body))),
            Ok(_) => Err(self.expected_expression()),
            Err(e) => Err(e),
        }
    }

    /// PARAMS := IDENT (',' IDENT)*
    fn parse_parameters(&mut self) -> (r: Vec<String>)
        requires
            old(self).wf(),
        ensures
            final(self).wf(),
            final(self).tokens == old(self).tokens,
            old(self).current <= final(self).current,
            (names_view(r@), final(self).current as int) == p_params(old(self).toks(), old(self).offs(), old(self).current as int, Seq::empty()),
    {
        let mut params: Vec<String> = Vec::new();
        assert(names_view(params@) =~= Seq::<Seq<char>>::empty());
        loop
            invariant_except_break
                p_params(self.toks(), self.offs(), self.current as int, names_view(params@)) == p_params(
                    old(self).toks(),
                    old(self).offs(),
                    old(self).current as int,
                    Seq::empty(),
                ),
            invariant
                self.wf(),
                self.tokens == old(self).tokens,
                old(self).current <= self.current,
            ensures
                self.wf(),
                self.tokens == old(self).tokens,
                old(self).current <= self.current,
                (names_view(params@), self.current as int) == p_params(
                    old(self).toks(),
                    old(self).offs(),
                    old(self).current as int,
                    Seq::empty(),
                ),
            decreases self.tokens@.len() - self.current,
        {
            let name = match self.current_token() {
                Token::Identifier(name) => name.clone(),
                _ => {
                    break;
                },
            };
            let ghost before = params@;
            params.push(name);
            assert(names_view(params@) =~= names_view(before).push(params@.last()@));
            self.next_token();
            if !self.consume(&Token::Comma) {
                break;
            }
        }
        params
    }

    /// COND := 'cond' CLAUSE*
    fn parse_cond(&mut self) -> (r: Result<Ast, ParseError>)
        requires
            old(self).wf(),
            old(self).tok() is Kw,
        ensures
            final(self).wf(),
            final(self).tokens == old(self).tokens,
            old(self).current <= final(self).current,
            r is Ok ==> old(self).current < final(self).current,
            r is Ok ==> r->Ok_0 is Cond,
            (parsed(r), final(self).current as int) == p_cond(old(self).toks(), old(self).offs(), old(self).current as int),
        decreases old(self).tokens@.len() - old(self).current, 1int,
    {
        self.next_token();
        let mut clauses: Vec<(Ast, Ast)> = Vec::new();
        while token_eq(self.current_token(), &Token::OpenParen)
            invariant
                self.wf(),
                self.tokens == old(self).tokens,
                old(self).current < self.current,
                p_clauses(self.toks(), self.offs(), self.current as int, clauses_view(clauses@, 0)) == p_cond(
                    old(self).toks(),
                    old(self).offs(),
                    old(self).current as int,
                ),
            decreases self.tokens@.len() - self.current,
        {
            match self.parse_clause() {
                Ok(c) => {
                    let ghost before = clauses@;
                    clauses.push(c);
                    proof {
                        lemma_clauses_view(before, 0);
                        lemma_clauses_view(clauses@, 0);
                        assert(clauses_view(clauses@, 0) =~= clauses_view(before, 0).push(
                            (clauses@.last().0@, clauses@.last().1@),
                        ));
                    }
                },
                Err(e) => {
                    return Err(e);
                },
            }
        }
        proof {
            lemma_clauses_view(clauses@, 0);
        }
        Ok(Ast::Cond(clauses))
    }

    /// CLAUSE := '(' EXP '=>' EXP ')'
    fn parse_clause(&mut self) -> (r: Result<(Ast, Ast), ParseError>)
        requires
            old(self).wf(),
            old(self).tok() == TokV::OpenParen,
        ensures
            final(self).wf(),
            final(self).tokens == old(self).tokens,
            old(self).current <= final(self).current,
            r is Ok ==> old(self).current < final(self).current,
            ({
                let (sr, send) = p_clause(old(self).toks(), old(self).offs(), old(self).current as int);
                final(self).current as int == send && match r {
                    Ok(c) => sr == Ok::<(AstV, AstV), PErr>((c.0@, c.1@)),
                    Err(e) => sr == Err::<(AstV, AstV), PErr>(perr_of(e)),
                }
            }),
        decreases old(self).tokens@.len() - old(self).current, 1int,
    {
        self.consume(&Token::OpenParen);
        let condition = match self.parse_exp() {
            Ok(e) => e,
            Err(e) => {
                return Err(e);
            },
        };
        self.consume(&Token::Arrow);
        let result = match self.parse_exp() {
            Ok(e) => e,
            Err(e) => {
                return Err(e);
            },
        };
        self.consume(&Token::CloseParen);
        Ok((condition, result))
    }

    /// BLOCK := '{' (EXP (';' EXP)*)? '}'
    fn parse_block(&mut self) -> (r: Result<Ast, ParseError>)
        requires
            old(self).wf(),
        ensures
            final(self).wf(),
            final(self).tokens == old(self).tokens,
            old(self).current <= final(self).current,
            r matches Ok(a) ==> old(self).current < final(self).current && a is Block,
            old(self).tok() != TokV::OpenBrace ==> (r matches Err(e) && e.error_type
                == ParseErrorType::BLOCK && e.label@ == "Expected a block"@),
            (r matches Err(e) && old(self).tok() == TokV::OpenBrace && e.error_type
                == ParseErrorType::BLOCK) ==> (r matches Err(e) && e.label@ == "Found end of block"@
                && (e.help matches Some(h) && h@ == "Close the block with a '}'"@)),
            r is Ok ==> old(self).tok() == TokV::OpenBrace && token_views(old(self).tokens@)[final(self).current - 1]
                == TokV::CloseBrace,
            (parsed(r), final(self).current as int) == p_block(old(self).toks(), old(self).offs(), old(self).current as int),
        decreases old(self).tokens@.len() - old(self).current, 2int,
    {
        let start = self.current_offset();
        if token_eq(self.current_token(), &Token::OpenBrace) {
            self.next_token();
        } else {
            return Err(
                self.error_here(
                    ParseErrorType::BLOCK,
                    "Expected a block",
                    Some("Create a block with enclosing braces"),
                ),
            );
        }
        let mut exps: Vec<Ast> = Vec::new();
        loop
            invariant_except_break
                p_items(self.toks(), self.offs(), self.current as int, asts_view(exps@, 0), old(self).current as int) == p_block(
                    old(self).toks(),
                    old(self).offs(),
                    old(self).current as int,
                ),
            invariant
                self.wf(),
                self.tokens == old(self).tokens,
                old(self).tok() == TokV::OpenBrace,
                old(self).current < self.current,
                start as int == off(old(self).offs(), old(self).current as int),
            ensures
                self.wf(),
                self.tokens == old(self).tokens,
                old(self).current < self.current,
                token_views(self.tokens@)[self.current - 1] == TokV::CloseBrace,
                (Ok::<AstV, PErr>(AstV::Block(asts_view(exps@, 0))), self.current as int) == p_block(
                    old(self).toks(),
                    old(self).offs(),
                    old(self).current as int,
                ),
            decreases self.tokens@.len() - self.current,
        {
            if self.consume(&Token::CloseBrace) {
                break;
            }
            match self.parse_exp() {
                Ok(e) => {
                    let ghost before = exps@;
                    exps.push(e);
                    proof {
                        lemma_asts_view(before, 0);
                        lemma_asts_view(exps@, 0);
                        assert(asts_view(exps@, 0) =~= asts_view(before, 0).push(exps@.last()@));
                    }
                },
                Err(mut e) => {
                    let ghost inner = perr_of(e);
                    if e.error_type == ParseErrorType::BLOCK {
                        e.change_label("Found end of block");
                        let mut spans: Vec<LabeledSpan> = Vec::new();
                        let span = LabeledSpan { offset: start, len: 0, label: "Found opening '{' here".to_string() };
                        let ghost sv = (span.offset as int, span.len as int, span.label@);
                        spans.push(span);
                        let ghost added = spans@;
                        let ghost before_spans = e.other_spans@;
                        e.add_spans(&mut spans);
                        e.add_help("Close the block with a '}'");
                        proof {
                            assert(e.other_spans@ == before_spans + added);
                            assert(spans_view(e.other_spans@) =~= spans_view(before_spans).push(sv));
                        }
                    }
                    proof {
                        assert(perr_of(e) == block_error(inner, start as int));
                    }
                    return Err(e);
                },
            }
            self.consume(&Token::Semicolon);
        }
        proof {
            lemma_asts_view(exps@, 0);
        }
        Ok(Ast::Block(exps))
    }

    /// LET := 'let' IDENT '='? EXP
    fn parse_let(&mut self) -> (r: Result<Ast, ParseError>)
        requires
            old(self).wf(),
            old(self).tok() is Kw,
        ensures
            final(self).wf(),
            final(self).tokens == old(self).tokens,
            old(self).current <= final(self).current,
            r is Ok ==> old(self).current < final(self).current,
            r is Ok ==> r->Ok_0 is Let && token_views(old(self).tokens@)[old(self).current + 1] == TokV::Ident(r->Ok_0->Let_0@),
            (parsed(r), final(self).current as int) == p_let(old(self).toks(), old(self).offs(), old(self).current as int),
        decreases old(self).tokens@.len() - old(self).current, 1int,
    {
        self.next_token();
        let name = match self.current_token() {
            Token::Identifier(name) => name.clone(),
            _ => {
                return Err(
                    self.error_here(
                        ParseErrorType::LET,
                        "Expected an identifier",
                        Some("Let expression has form 'let x = 5'"),
                    ),
                );
            },
        };
        self.next_token();
        self.consume(&Token::Equals);
        match self.parse_exp() {
            Ok(e) => Ok(Ast::Let(name, Box::new(e))),
            Err(e) => Err(e),
        }
    }

    /// DEF := 'def' IDENT EXP
    fn parse_definition(&mut self) -> (r: Result<Ast, ParseError>)
        requires
            old(self).wf(),
            old(self).tok() is Kw,
        ensures
            final(self).wf(),
            final(self).tokens == old(self).tokens,
            old(self).current <= final(self).current,
            r is Ok ==> old(self).current < final(self).current,
            r is Ok ==> r->Ok_0 is Def && token_views(old(self).tokens@)[old(self).current + 1] == TokV::Ident(r->Ok_0->Def_0@),
            (parsed(r), final(self).current as int) == p_def(old(self).toks(), old(self).offs(), old(self).current as int),
        decreases old(self).tokens@.len() - old(self).current, 1int,
    {
        self.next_token();
        let name = match self.parse_identifier() {
            Ok(n) => n,
            Err(e) => {
                return Err(e);
            },
        };
        match self.parse_exp() {
            Ok(e) => Ok(Ast::Def(name, Box::new(e))),
            Err(e) => Err(e),
        }
    }

    /// An identifier, where one is required.
    fn parse_identifier(&mut self) -> (r: Result<String, ParseError>)
        requires
            old(self).wf(),
        ensures
            final(self).wf(),
            final(self).tokens == old(self).tokens,
            old(self).current <= final(self).current,
            r matches Ok(name) ==> old(self).tok() == TokV::Ident(name@) && final(self).current == old(self).current + 1,
            r is Err ==> final(self).current == old(self).current,
            ({
                let (sr, send) = p_ident(old(self).toks(), old(self).offs(), old(self).current as int);
                final(self).current as int == send && match r {
                    Ok(name) => sr == Ok::<Seq<char>, PErr>(name@),
                    Err(e) => sr == Err::<Seq<char>, PErr>(perr_of(e)),
                }
            }),
    {
        match self.current_token() {
            Token::Identifier(name) => {
                let name = name.clone();
                self.next_token();
                Ok(name)
            },
            _ => Err(
                self.error_here(
                    ParseErrorType::UNEXPECTED,
                    "Expected an identifier",
                    Some("A valid identifier starts with a valid unicode character, but not a digit, '+' or '-'."),
                ),
            ),
        }
    }

    /// ASSIGN := IDENT '=' EXP, or else the identifier alone.
    fn parse_assignment(&mut self) -> (r: Result<Ast, ParseError>)
        requires
            old(self).wf(),
            old(self).tok() is Ident,
        ensures
            final(self).wf(),
            final(self).tokens == old(self).tokens,
            old(self).current <= final(self).current,
            r is Ok ==> old(self).current < final(self).current,
            r is Ok ==> announced_by(old(self).tok(), r->Ok_0),
            (parsed(r), final(self).current as int) == p_assign(old(self).toks(), old(self).offs(), old(self).current as int),
        decreases old(self).tokens@.len() - old(self).current, 1int,
    {
        let name = match self.parse_identifier() {
            Ok(n) => n,
            Err(e) => {
                return Err(e);
            },
        };
        if self.consume(&Token::Equals) {
            match self.parse_exp() {
                Ok(e) => Ok(Ast::Assignment(name, Box::new(e))),
                Err(e) => Err(e),
            }
        } else {
            Ok(Ast::Identifier(name))
        }
    }
}

/// Lexes `input` and parses one expression from its tokens, returning its JSON encoding.
pub fn parse(source_name: &str, input: &str) -> (r: Result<Json, ParseError>)
    ensures
        r matches Ok(j) ==> exists|a: Ast| ast_matches(j, a),
        input@.len() <= usize::MAX / 4 && lex_all(input@, 0).contains(TokV::Error) ==> (r matches Err(e)
            && e.error_type == ParseErrorType::UNEXPECTED),
        input@.len() <= usize::MAX / 4 && !lex_all(input@, 0).contains(TokV::Error) ==> encodes_parse(
            r,
            p_exp(lex_all(input@, 0), lex_offsets(input@, 0), 0).0,
        ),
{
    if input.unicode_len() > usize::MAX / 4 {
        return Err(ParseError::new(ParseErrorType::UNEXPECTED, source_name, input, (0, 0), "Source is too long"));
    }
    let mut lexer = Lexer::new(source_name, input);
    let mut tokens: Vec<TokenContainer> = Vec::new();
    proof {
        lemma_skip_blank_ge(input@, 0, false);
    }
    assert(token_views(tokens@) =~= Seq::<TokV>::empty());
    assert(token_offsets(tokens@) =~= Seq::<int>::empty());
    loop
        invariant_except_break
            tokens@.len() == 0 || token_views(tokens@).last() != TokV::EOF,
            token_views(tokens@) + lex_all(input@, lexer.current as int) == lex_all(input@, 0),
            token_offsets(tokens@) + lex_offsets(input@, lexer.current as int) == lex_offsets(input@, 0),
        invariant
            lexer.wf(),
            lexer.chars@ == input@,
            (lexer.errors@.len() > 0) == token_views(tokens@).contains(TokV::Error),
            forall|k: int| 0 <= k < lexer.errors@.len() ==> #[trigger] lexer.errors@[k].error_type == ParseErrorType::UNEXPECTED,
        ensures
            tokens@.len() > 0,
            token_views(tokens@).last() == TokV::EOF,
            token_views(tokens@) == lex_all(input@, 0),
            token_offsets(tokens@) == lex_offsets(input@, 0),
        decreases lexer.chars@.len() - lexer.current,
    {
        proof {
            lemma_skip_blank_ge(lexer.chars@, lexer.current as int, false);
            lemma_token_progress(lexer.chars@, skip_blank(lexer.chars@, lexer.current as int, false));
        }
        let old_current = lexer.current;
        let ghost errors_before = lexer.errors@;
        let token = lexer.next_token_container();
        let is_end = match token.token {
            Token::EOF => true,
            _ => false,
        };
        let ghost before = tokens@;
        let ghost cur = old_current as int;
        let ghost tv = token.token@;
        let ghost to = token.source as int;
        tokens.push(token);
        assert(token_views(tokens@) =~= token_views(before).push(tokens@.last().token_view()@));
        assert(token_offsets(tokens@) =~= token_offsets(before).push(to));
        proof {
            if tv == TokV::Error {
                assert(token_views(tokens@).last() == TokV::Error);
            } else {
                assert forall|x: TokV| token_views(tokens@).contains(x) && x == TokV::Error implies token_views(before).contains(x) by {
                    let k = choose|k: int| 0 <= k < token_views(tokens@).len() && token_views(tokens@)[k] == x;
                    assert(k < token_views(before).len());
                    assert(token_views(before)[k] == x);
                }
                if token_views(before).contains(TokV::Error) {
                    let k = choose|k: int| 0 <= k < token_views(before).len() && token_views(before)[k] == TokV::Error;
                    assert(token_views(tokens@)[k] == TokV::Error);
                }
            }
            assert forall|k: int| 0 <= k < lexer.errors@.len() implies #[trigger] lexer.errors@[k].error_type == ParseErrorType::UNEXPECTED by {
                if k < errors_before.len() {
                    assert(lexer.errors@.subrange(0, errors_before.len() as int)[k] == errors_before[k]);
                }
            }
        }
        if is_end {
            assert(token_views(tokens@) =~= token_views(before) + lex_all(input@, cur));
            assert(token_offsets(tokens@) =~= token_offsets(before) + lex_offsets(input@, cur));
            break;
        }
        assert(tv != TokV::EOF);
        assert(lex_all(input@, cur) == seq![tv] + lex_all(input@, lexer.current as int));
        assert(lex_offsets(input@, cur) == seq![to] + lex_offsets(input@, lexer.current as int));
        assert(token_views(tokens@) + lex_all(input@, lexer.current as int) =~= token_views(before) + lex_all(input@, cur));
        assert(token_offsets(tokens@) + lex_offsets(input@, lexer.current as int) =~= token_offsets(before) + lex_offsets(input@, cur));
    }
    if lexer.errors.len() > 0 {
        assert(lexer.errors@[0].error_type == ParseErrorType::UNEXPECTED);
        return Err(lexer.errors.swap_remove(0));
    }
    let mut parser = Parser::new(source_name, input, tokens.as_slice());
    parser.parse_program()
}

} // verus!
