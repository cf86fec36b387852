use std::rc::Rc;
use vstd::prelude::*;

use crate::value::names_view;

verus! {

/// The typed syntax tree that the evaluator walks.
#[derive(Debug, PartialEq)]
pub enum Ast {
    Integer(i64),
    String(String),
    Boolean(bool),
    Identifier(String),
    /// A bare array of the wire format: evaluates to a list of its elements' values.
    List(Vec<Ast>),
    Block(Vec<Ast>),
    /// Parameter names and body block.
    Lambda(Rc<Vec<String>>, Rc<Vec<Ast>>),
    /// Head and arguments.
    Application(Box<Ast>, Vec<Ast>),
    /// Clauses, each a condition and a result.
    Cond(Vec<(Ast, Ast)>),
    Let(String, Box<Ast>),
    Def(String, Box<Ast>),
    Assignment(String, Box<Ast>),
}

/// The mathematical model of a syntax tree.
pub enum AstV {
    Int(i64),
    Str(Seq<char>),
    Bool(bool),
    Ident(Seq<char>),
    List(Seq<AstV>),
    Block(Seq<AstV>),
    Lambda(Seq<Seq<char>>, Seq<AstV>),
    App(Box<AstV>, Seq<AstV>),
    Cond(Seq<(AstV, AstV)>),
    Let(Seq<char>, Box<AstV>),
    Def(Seq<char>, Box<AstV>),
    Assign(Seq<char>, Box<AstV>),
}

pub open spec fn ast_view(a: Ast) -> AstV
    decreases a, 0int,
{
    match a {
        Ast::Integer(n) => AstV::Int(n),
        Ast::String(s) => AstV::Str(s@),
        Ast::Boolean(b) => AstV::Bool(b),
        Ast::Identifier(s) => AstV::Ident(s@),
        Ast::List(v) => AstV::List(asts_view(v@, 0)),
        Ast::Block(v) => AstV::Block(asts_view(v@, 0)),
        Ast::Lambda(ps, body) => AstV::Lambda(names_view(ps@), asts_view(body@, 0)),
        Ast::Application(h, args) => AstV::App(Box::new(ast_view(*h)), asts_view(args@, 0)),
        Ast::Cond(cl) => AstV::Cond(clauses_view(cl@, 0)),
        Ast::Let(n, r) => AstV::Let(n@, Box::new(ast_view(*r))),
        Ast::Def(n, r) => AstV::Def(n@, Box::new(ast_view(*r))),
        Ast::Assignment(n, r) => AstV::Assign(n@, Box::new(ast_view(*r))),
    }
}

pub open spec fn asts_view(s: Seq<Ast>, i: int) -> Seq<AstV>
    decreases s, s.len() - i,
{
    if 0 <= i < s.len() {
        seq![ast_view(s[i])] + asts_view(s, i + 1)
    } else {
        Seq::empty()
    }
}

pub open spec fn clauses_view(s: Seq<(Ast, Ast)>, i: int) -> Seq<(AstV, AstV)>
    decreases s, s.len() - i,
{
    if 0 <= i < s.len() {
        seq![(ast_view(s[i].0), ast_view(s[i].1))] + clauses_view(s, i + 1)
    } else {
        Seq::empty()
    }
}

impl View for Ast {
    type V = AstV;

    open spec fn view(&self) -> AstV {
        ast_view(*self)
    }
}

pub proof fn lemma_asts_view(s: Seq<Ast>, i: int)
    requires
        0 <= i <= s.len(),
    ensures
        asts_view(s, i) == Seq::new((s.len() - i) as nat, |k: int| ast_view(s[i + k])),
    decreases s.len() - i,
{
    if i < s.len() {
        lemma_asts_view(s, i + 1);
        assert(asts_view(s, i) =~= Seq::new((s.len() - i) as nat, |k: int| ast_view(s[i + k])));
    } else {
        assert(asts_view(s, i) =~= Seq::new((s.len() - i) as nat, |k: int| ast_view(s[i + k])));
    }
}

pub proof fn lemma_clauses_view(s: Seq<(Ast, Ast)>, i: int)
    requires
        0 <= i <= s.len(),
    ensures
        clauses_view(s, i) == Seq::new(
            (s.len() - i) as nat,
            |k: int| (ast_view(s[i + k].0), ast_view(s[i + k].1)),
        ),
    decreases s.len() - i,
{
    if i < s.len() {
        lemma_clauses_view(s, i + 1);
    }
    assert(clauses_view(s, i) =~= Seq::new(
        (s.len() - i) as nat,
        |k: int| (ast_view(s[i + k].0), ast_view(s[i + k].1)),
    ));
}

} // verus!
