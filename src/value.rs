use std::rc::Rc;
use vstd::prelude::*;

use crate::ast::Ast;
use crate::text::{int_text, int_to_string};

verus! {

/// The built-in operations of the language, each bound under one name in the root frame.
#[derive(PartialEq, Eq, Structural, Clone, Copy, Debug)]
pub enum Builtin {
    Print,
    Println,
    Dbg,
    Add,
    Sub,
    Mul,
    Div,
    Rem,
    Zero,
    Equal,
    Greater,
    Less,
    ToUppercase,
    ToLowercase,
    Concat,
    Contains,
    Length,
    AsList,
    ListGet,
    ListSet,
    Sort,
}

/// A function value: a host built-in, or a closure made by a lambda.
#[derive(Debug, PartialEq)]
#[allow(inconsistent_fields)]
pub enum Function {
    CoreFunction { name: String, func: Builtin },
    Function { name: String, args: Rc<Vec<String>>, func: Rc<Vec<Ast>>, env: usize },
}

/// A runtime value of the language.
#[derive(Debug, PartialEq)]
pub enum Expr {
    Integer(i64),
    Boolean(bool),
    String(String),
    List(Rc<Vec<Expr>>),
    Function(Function),
}

/// The mathematical model of a runtime value.
pub enum Val {
    Int(i64),
    Bool(bool),
    Str(Seq<char>),
    List(Seq<Val>),
    Builtin(Seq<char>, Builtin),
    /// Display name, parameter names, body block and the handle of the captured frame.
    User(Seq<char>, Seq<Seq<char>>, Rc<Vec<Ast>>, usize),
}

pub open spec fn names_view(s: Seq<String>) -> Seq<Seq<char>> {
    s.map_values(|n: String| n@)
}

pub open spec fn val_of(e: Expr) -> Val
    decreases e, 0int,
{
    match e {
        Expr::Integer(n) => Val::Int(n),
        Expr::Boolean(b) => Val::Bool(b),
        Expr::String(s) => Val::Str(s@),
        Expr::List(l) => Val::List(vals_of(l@, 0)),
        Expr::Function(Function::CoreFunction { name, func }) => Val::Builtin(name@, func),
        Expr::Function(Function::Function { name, args, func, env }) => Val::User(
            name@,
            names_view(args@),
            func,
            env,
        ),
    }
}

pub open spec fn vals_of(s: Seq<Expr>, i: int) -> Seq<Val>
    decreases s, s.len() - i,
{
    if 0 <= i < s.len() {
        seq![val_of(s[i])] + vals_of(s, i + 1)
    } else {
        Seq::empty()
    }
}

impl View for Expr {
    type V = Val;

    open spec fn view(&self) -> Val {
        val_of(*self)
    }
}

pub proof fn lemma_vals_of(s: Seq<Expr>, i: int)
    requires
        0 <= i <= s.len(),
    ensures
        vals_of(s, i).len() == s.len() - i,
        forall|k: int| 0 <= k < s.len() - i ==> #[trigger] vals_of(s, i)[k] == val_of(s[i + k]),
    decreases s.len() - i,
{
    if i < s.len() {
        lemma_vals_of(s, i + 1);
    }
}

/// The values of a sequence of runtime values, one for one.
pub open spec fn vals(s: Seq<Expr>) -> Seq<Val> {
    Seq::new(s.len(), |k: int| val_of(s[k]))
}

pub proof fn lemma_vals_of_is_vals(s: Seq<Expr>)
    ensures
        vals_of(s, 0) == vals(s),
{
    lemma_vals_of(s, 0);
    assert(vals_of(s, 0) =~= vals(s));
}

pub open spec fn builtin_name(b: Builtin) -> Seq<char> {
    match b {
        Builtin::Print => "print"@,
        Builtin::Println => "println"@,
        Builtin::Dbg => "dbg"@,
        Builtin::Add => "add"@,
        Builtin::Sub => "sub"@,
        Builtin::Mul => "mul"@,
        Builtin::Div => "div"@,
        Builtin::Rem => "rem"@,
        Builtin::Zero => "zero?"@,
        Builtin::Equal => "equal?"@,
        Builtin::Greater => "greater?"@,
        Builtin::Less => "less?"@,
        Builtin::ToUppercase => "to_uppercase"@,
        Builtin::ToLowercase => "to_lowercase"@,
        Builtin::Concat => "concat"@,
        Builtin::Contains => "contains"@,
        Builtin::Length => "length"@,
        Builtin::AsList => "as_list"@,
        Builtin::ListGet => "get"@,
        Builtin::ListSet => "set"@,
        Builtin::Sort => "sort"@,
    }
}

/// The display form of a value: decimal digits, `true`/`false`, the raw string,
/// `[e1, e2]` for a list and `function: <name>` for a function.
pub open spec fn display_of(v: Val) -> Seq<char>
    decreases v, 0int,
{
    match v {
        Val::Int(n) => int_text(n as int),
        Val::Bool(b) => if b { "true"@ } else { "false"@ },
        Val::Str(s) => s,
        Val::List(l) => "["@ + join_display(l, l.len() as int) + "]"@,
        Val::Builtin(name, _) => "function: "@ + name,
        Val::User(name, _, _, _) => "function: "@ + name,
    }
}

/// The display forms of the first `n` values of `l`, separated by `", "`.
pub open spec fn join_display(l: Seq<Val>, n: int) -> Seq<char>
    decreases l, n,
{
    if n <= 0 || n > l.len() {
        Seq::empty()
    } else if n == 1 {
        display_of(l[0])
    } else {
        join_display(l, n - 1) + ", "@ + display_of(l[n - 1])
    }
}

/// The debug form of a value, as `dbg` writes it.
pub open spec fn debug_of(v: Val) -> Seq<char>
    decreases v, 0int,
{
    match v {
        Val::Int(n) => "Integer("@ + int_text(n as int) + ")"@,
        Val::Bool(b) => "Boolean("@ + (if b { "true"@ } else { "false"@ }) + ")"@,
        Val::Str(s) => "String("@ + s + ")"@,
        Val::List(l) => "List(["@ + join_debug(l, l.len() as int) + "])"@,
        Val::Builtin(name, _) => "Function("@ + name + ")"@,
        Val::User(name, _, _, _) => "Function("@ + name + ")"@,
    }
}

pub open spec fn join_debug(l: Seq<Val>, n: int) -> Seq<char>
    decreases l, n,
{
    if n <= 0 || n > l.len() {
        Seq::empty()
    } else if n == 1 {
        debug_of(l[0])
    } else {
        join_debug(l, n - 1) + ", "@ + debug_of(l[n - 1])
    }
}

impl Function {
    pub fn name(&self) -> (r: &String)
        ensures
            r == match self {
                Function::CoreFunction { name, .. } => name,
                Function::Function { name, .. } => name,
            },
    {
        match self {
            Function::CoreFunction { name, .. } => name,
            Function::Function { name, .. } => name,
        }
    }

    /// A second handle on the same function; the parameter list and body are shared.
    pub fn share(&self) -> (r: Function)
        ensures
            r == *self,
    {
        match self {
            Function::CoreFunction { name, func } => Function::CoreFunction {
                name: name.clone(),
                func: *func,
            },
            Function::Function { name, args, func, env } => Function::Function {
                name: name.clone(),
                args: args.clone(),
                func: func.clone(),
                env: *env,
            },
        }
    }
}

impl Expr {
    /// A second handle on the same value; list contents are shared, not copied.
    pub fn share(&self) -> (r: Expr)
        ensures
            r == *self,
    {
        match self {
            Expr::Integer(n) => Expr::Integer(*n),
            Expr::Boolean(b) => Expr::Boolean(*b),
            Expr::String(s) => Expr::String(s.clone()),
            Expr::List(l) => Expr::List(l.clone()),
            Expr::Function(f) => Expr::Function(f.share()),
        }
    }

    /// The display form of the value.
    pub fn to_string(&self) -> (r: String)
        ensures
            r@ == display_of(self@),
        decreases self@,
    {
        match self {
            Expr::Integer(n) => int_to_string(*n),
            Expr::Boolean(b) => if *b {
                "true".to_string()
            } else {
                "false".to_string()
            },
            Expr::String(s) => s.clone(),
            Expr::List(l) => {
                let mut out = "[".to_string();
                let ghost vs = vals_of(l@, 0);
                proof {
                    lemma_vals_of(l@, 0);
                }
                let mut i: usize = 0;
                while i < l.len()
                    invariant
                        0 <= i <= l.len(),
                        vs == vals_of(l@, 0),
                        self@ == Val::List(vs),
                        vs.len() == l@.len(),
                        forall|k: int| 0 <= k < l@.len() ==> #[trigger] vs[k] == val_of(l@[k]),
                        out@ == "["@ + join_display(vs, i as int),
                    decreases l.len() - i,
                {
                    if i > 0 {
                        out.append(", ");
                    }
                    proof {
                        assert(vs[i as int] == l@[i as int]@);
                        let ghost me = self@;
                        assert(decreases_to!(me => me->List_0[i as int]));
                    }
                    let part = l[i].to_string();
                    out.append(part.as_str());
                    proof {
                        assert(vs[i as int] == val_of(l@[i as int]));
                        if i > 0 {
                            assert(out@ == "["@ + (join_display(vs, i as int) + ", "@ + display_of(vs[i as int])));
                        }
                    }
                    i = i + 1;
                }
                out.append("]");
                proof {
                    assert(val_of(*self) == Val::List(vs));
                }
                out
            },
            Expr::Function(f) => {
                let mut out = "function: ".to_string();
                out.append(f.name().as_str());
                out
            },
        }
    }
}

impl Expr {
    /// The debug form of the value, as `dbg` writes it.
    pub fn debug_string(&self) -> (r: String)
        ensures
            r@ == debug_of(self@),
        decreases self@,
    {
        let mut out = String::new();
        match self {
            Expr::Integer(n) => {
                out.append("Integer(");
                out.append(int_to_string(*n).as_str());
                out.append(")");
            },
            Expr::Boolean(b) => {
                out.append("Boolean(");
                out.append(if *b { "true" } else { "false" });
                out.append(")");
            },
            Expr::String(s) => {
                out.append("String(");
                out.append(s.as_str());
                out.append(")");
            },
            Expr::List(l) => {
                out.append("List([");
                let ghost vs = vals_of(l@, 0);
                proof {
                    lemma_vals_of(l@, 0);
                }
                let mut i: usize = 0;
                while i < l.len()
                    invariant
                        0 <= i <= l.len(),
                        vs == vals_of(l@, 0),
                        self@ == Val::List(vs),
                        vs.len() == l@.len(),
                        forall|k: int| 0 <= k < l@.len() ==> #[trigger] vs[k] == val_of(l@[k]),
                        out@ == "List(["@ + join_debug(vs, i as int),
                    decreases l.len() - i,
                {
                    if i > 0 {
                        out.append(", ");
                    }
                    proof {
                        assert(vs[i as int] == l@[i as int]@);
                        let ghost me = self@;
                        assert(decreases_to!(me => me->List_0[i as int]));
                    }
                    let part = l[i].debug_string();
                    out.append(part.as_str());
                    proof {
                        if i > 0 {
                            assert(out@ == "List(["@ + (join_debug(vs, i as int) + ", "@ + debug_of(vs[i as int])));
                        }
                    }
                    i = i + 1;
                }
                out.append("])");
            },
            Expr::Function(f) => {
                out.append("Function(");
                out.append(f.name().as_str());
                out.append(")");
            },
        }
        proof {
            assert(out@ =~= debug_of(self@));
        }
        out
    }
}

} // verus!
