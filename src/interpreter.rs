use vstd::prelude::*;

use crate::ast::Ast;
use crate::environment::{
    find_var,
    lemma_assign_in_len, assign_in, bind_var, frames_view, lookup_in, output_view, Environment, FrameV,
    LocalEnvironment,
};
use crate::error::{Fault, InterpError};
use crate::functions::{builtin_output, builtin_result, call_builtin, concat_all, outcome};
use crate::json::{ast_matches, Json};
use crate::error::fault_text;
use crate::value::{
    display_of, lemma_vals_of_is_vals, names_view, vals, Expr, Function, Val,
};

verus! {

/// How deep user-function calls may nest: no limit but the host stack.
pub const MAX_CALL_DEPTH: u64 = 18446744073709551615;

/// The global state and the handle of the current frame.
#[derive(Debug)]
pub struct Interpreter {
    pub global: Environment,
    /// The store of all frames; a handle is an index into it. A frame is never removed, since
    /// any closure may still hold its handle.
    pub frames: Vec<LocalEnvironment>,
    /// The handle of the current frame.
    pub local: usize,
}

/// The mathematical model of an interpreter.
pub struct State {
    pub frames: Seq<FrameV>,
    pub local: usize,
    pub output: Seq<Seq<char>>,
    pub lexical: bool,
    pub store: bool,
}

impl View for Interpreter {
    type V = State;

    open spec fn view(&self) -> State {
        State {
            frames: frames_view(self.frames@),
            local: self.local,
            output: output_view(self.global.output@),
            lexical: self.global.lexical_scope,
            store: self.global.store_output,
        }
    }
}

/// `st` with a new, empty frame whose parent is the current frame, made current.
pub open spec fn enter_new(st: State) -> State {
    State {
        frames: st.frames.push(FrameV { vars: Seq::empty(), parent: Some(st.local) }),
        local: st.frames.len() as usize,
        ..st
    }
}

/// `st` with its current frame set back to `local`.
pub open spec fn restore(st: State, local: usize) -> State {
    State { local, ..st }
}

/// The value of a block whose expressions gave `vs`: the last, or `false` when there is none.
pub open spec fn block_value(vs: Seq<Val>) -> Val {
    if vs.len() == 0 {
        Val::Bool(false)
    } else {
        vs.last()
    }
}

/// `vars` with the first `n` names bound to the first `n` values, in order.
pub open spec fn bind_all(vars: Seq<(Seq<char>, Val)>, names: Seq<Seq<char>>, vs: Seq<Val>, n: int) -> Seq<(Seq<char>, Val)>
    decreases n,
{
    if n <= 0 {
        vars
    } else {
        bind_var(bind_all(vars, names, vs, n - 1), names[n - 1], vs[n - 1])
    }
}

pub open spec fn depth_fault() -> Fault {
    Fault::Runtime("call depth limit exceeded"@)
}

pub open spec fn frame_fault() -> Fault {
    Fault::Runtime("frame handle out of range"@)
}

/// Evaluation of `e` from state `st`, with `fuel` more nested calls of user functions
/// allowed: the state after, and the value or the error.
pub open spec fn eval_spec(st: State, e: Ast, fuel: nat) -> (State, Result<Val, Fault>)
    decreases fuel, e, 0int,
{
    match e {
        Ast::Integer(n) => (st, Ok(Val::Int(n))),
        Ast::String(s) => (st, Ok(Val::Str(s@))),
        Ast::Boolean(b) => (st, Ok(Val::Bool(b))),
        Ast::Identifier(name) => match lookup_in(st.frames, st.local as int, name@) {
            Some(v) => (st, Ok(v)),
            None => (st, Err(Fault::Undefined(name@))),
        },
        Ast::List(items) => {
            let (st1, r) = eval_seq(st, items@, 0, fuel);
            match r {
                Ok(vs) => (st1, Ok(Val::List(vs))),
                Err(f) => (st1, Err(f)),
            }
        },
        Ast::Block(items) => {
            let (st1, r) = eval_seq(enter_new(st), items@, 0, fuel);
            match r {
                Ok(vs) => (restore(st1, st.local), Ok(block_value(vs))),
                Err(f) => (restore(st1, st.local), Err(f)),
            }
        },
        Ast::Lambda(params, body) => (
            st,
            Ok(Val::User("Anonymous"@, names_view(params@), body, st.local)),
        ),
        Ast::Application(head, args) => {
            let (st1, h) = eval_spec(st, *head, fuel);
            match h {
                Err(f) => (st1, Err(f)),
                Ok(hv) => match hv {
                    Val::Builtin(_, op) => {
                        let (st2, ra) = eval_seq(st1, args@, 0, fuel);
                        match ra {
                            Err(f) => (st2, Err(f)),
                            Ok(vs) => (
                                State { output: st2.output + builtin_output(op, vs, st2.store), ..st2 },
                                builtin_result(op, vs),
                            ),
                        }
                    },
                    Val::User(name, params, body, env) => {
                        let (st2, ra) = eval_seq(st1, args@, 0, fuel);
                        match ra {
                            Err(f) => (st2, Err(f)),
                            Ok(vs) => if vs.len() != params.len() {
                                (st2, Err(Fault::Argument(name, params.len() as usize, vs.len() as usize)))
                            } else if fuel == 0 {
                                (st2, Err(depth_fault()))
                            } else if st2.lexical && env >= st2.frames.len() {
                                (st2, Err(frame_fault()))
                            } else {
                                let parent = if st2.lexical { env } else { st2.local };
                                let frame = FrameV {
                                    vars: bind_all(Seq::empty(), params, vs, vs.len() as int),
                                    parent: Some(parent),
                                };
                                let st3 = State {
                                    frames: st2.frames.push(frame),
                                    local: st2.frames.len() as usize,
                                    ..st2
                                };
                                let (st4, rb) = eval_seq(st3, body@, 0, (fuel - 1) as nat);
                                match rb {
                                    Ok(bs) => (restore(st4, st2.local), Ok(block_value(bs))),
                                    Err(f) => (restore(st4, st2.local), Err(f)),
                                }
                            },
                        }
                    },
                    _ => (st1, Err(Fault::Type("function"@, display_of(hv)))),
                },
            }
        },
        Ast::Cond(clauses) => eval_cond(st, clauses@, 0, fuel),
        Ast::Let(name, rhs) => {
            let (st1, r) = eval_spec(st, *rhs, fuel);
            match r {
                Err(f) => (st1, Err(f)),
                Ok(v) => (
                    State {
                        frames: st1.frames.push(
                            FrameV { vars: seq![(name@, v)], parent: Some(st1.local) },
                        ),
                        local: st1.frames.len() as usize,
                        ..st1
                    },
                    Ok(v),
                ),
            }
        },
        Ast::Def(name, rhs) => {
            let (st1, r) = eval_spec(st, *rhs, fuel);
            match r {
                Err(f) => (st1, Err(f)),
                Ok(v) => if st1.local < st1.frames.len() {
                    let fr = st1.frames[st1.local as int];
                    if find_var(fr.vars, name@, 0) is Some {
                        (
                            State {
                                frames: st1.frames.push(
                                    FrameV { vars: seq![(name@, v)], parent: Some(st1.local) },
                                ),
                                local: st1.frames.len() as usize,
                                ..st1
                            },
                            Ok(v),
                        )
                    } else {
                    (
                        State {
                            frames: st1.frames.update(
                                st1.local as int,
                                FrameV { vars: bind_var(fr.vars, name@, v), parent: fr.parent },
                            ),
                            ..st1
                        },
                        Ok(v),
                    )
                    }
                } else {
                    (st1, Err(frame_fault()))
                },
            }
        },
        Ast::Assignment(name, rhs) => {
            let (st1, r) = eval_spec(st, *rhs, fuel);
            match r {
                Err(f) => (st1, Err(f)),
                Ok(v) => match assign_in(st1.frames, st1.local as int, name@, v) {
                    Some(fs) => (State { frames: fs, ..st1 }, Ok(v)),
                    None => (st1, Err(Fault::Undefined(name@))),
                },
            }
        },
    }
}

/// Evaluation of `es[i..]` in order, stopping at the first error.
pub open spec fn eval_seq(st: State, es: Seq<Ast>, i: int, fuel: nat) -> (State, Result<Seq<Val>, Fault>)
    decreases fuel, es, es.len() - i,
{
    if i < 0 || i >= es.len() {
        (st, Ok(Seq::empty()))
    } else {
        let (st1, r) = eval_spec(st, es[i], fuel);
        match r {
            Err(f) => (st1, Err(f)),
            Ok(v) => {
                let (st2, rs) = eval_seq(st1, es, i + 1, fuel);
                match rs {
                    Ok(vs) => (st2, Ok(seq![v] + vs)),
                    Err(f) => (st2, Err(f)),
                }
            },
        }
    }
}

/// Evaluation of the clauses `cl[i..]`: the result of the first whose condition is true,
/// `false` when none is; a condition that is not a boolean is an error.
pub open spec fn eval_cond(st: State, cl: Seq<(Ast, Ast)>, i: int, fuel: nat) -> (State, Result<Val, Fault>)
    decreases fuel, cl, cl.len() - i,
{
    if i < 0 || i >= cl.len() {
        (st, Ok(Val::Bool(false)))
    } else {
        let (st1, c) = eval_spec(st, cl[i].0, fuel);
        match c {
            Err(f) => (st1, Err(f)),
            Ok(Val::Bool(true)) => eval_spec(st1, cl[i].1, fuel),
            Ok(Val::Bool(false)) => eval_cond(st1, cl, i + 1, fuel),
            Ok(other) => (st1, Err(Fault::Type("bool"@, display_of(other)))),
        }
    }
}

/// The state after an evaluation step keeps the flags of the state before, and no frame is
/// ever removed.
pub open spec fn keeps(before: State, after: State) -> bool {
    &&& after.lexical == before.lexical
    &&& after.store == before.store
    &&& after.frames.len() >= before.frames.len()
}

/// Evaluation never changes the scope mode or the output mode, and never drops a frame.
pub proof fn lemma_eval_keeps(st: State, e: Ast, fuel: nat)
    ensures
        keeps(st, eval_spec(st, e, fuel).0),
    decreases fuel, e, 0int,
{
    match e {
        Ast::List(items) => {
            lemma_seq_keeps(st, items@, 0, fuel);
        },
        Ast::Block(items) => {
            lemma_seq_keeps(enter_new(st), items@, 0, fuel);
        },
        Ast::Application(head, args) => {
            lemma_eval_keeps(st, *head, fuel);
            let (st1, h) = eval_spec(st, *head, fuel);
            if let Ok(hv) = h {
                match hv {
                    Val::Builtin(_, op) => {
                        lemma_seq_keeps(st1, args@, 0, fuel);
                    },
                    Val::User(name, params, body, env) => {
                        lemma_seq_keeps(st1, args@, 0, fuel);
                        let (st2, ra) = eval_seq(st1, args@, 0, fuel);
                        if let Ok(vs) = ra {
                            if vs.len() == params.len() && fuel != 0 && !(st2.lexical && env >= st2.frames.len()) {
                                let parent = if st2.lexical { env } else { st2.local };
                                let frame = FrameV {
                                    vars: bind_all(Seq::empty(), params, vs, vs.len() as int),
                                    parent: Some(parent),
                                };
                                let st3 = State {
                                    frames: st2.frames.push(frame),
                                    local: st2.frames.len() as usize,
                                    ..st2
                                };
                                lemma_seq_keeps(st3, body@, 0, (fuel - 1) as nat);
                            }
                        }
                    },
                    _ => {},
                }
            }
        },
        Ast::Cond(clauses) => {
            lemma_cond_keeps(st, clauses@, 0, fuel);
        },
        Ast::Let(name, rhs) => {
            lemma_eval_keeps(st, *rhs, fuel);
        },
        Ast::Def(name, rhs) => {
            lemma_eval_keeps(st, *rhs, fuel);
        },
        Ast::Assignment(name, rhs) => {
            lemma_eval_keeps(st, *rhs, fuel);
            let (st1, r) = eval_spec(st, *rhs, fuel);
            if let Ok(v) = r {
                lemma_assign_in_len(st1.frames, st1.local as int, name@, v);
            }
        },
        _ => {},
    }
}

pub proof fn lemma_seq_keeps(st: State, es: Seq<Ast>, i: int, fuel: nat)
    ensures
        keeps(st, eval_seq(st, es, i, fuel).0),
    decreases fuel, es, es.len() - i,
{
    if 0 <= i < es.len() {
        lemma_eval_keeps(st, es[i], fuel);
        let (st1, r) = eval_spec(st, es[i], fuel);
        if r is Ok {
            lemma_seq_keeps(st1, es, i + 1, fuel);
        }
    }
}

pub proof fn lemma_cond_keeps(st: State, cl: Seq<(Ast, Ast)>, i: int, fuel: nat)
    ensures
        keeps(st, eval_cond(st, cl, i, fuel).0),
    decreases fuel, cl, cl.len() - i,
{
    if 0 <= i < cl.len() {
        lemma_eval_keeps(st, cl[i].0, fuel);
        let (st1, c) = eval_spec(st, cl[i].0, fuel);
        match c {
            Ok(Val::Bool(true)) => {
                lemma_eval_keeps(st1, cl[i].1, fuel);
            },
            Ok(Val::Bool(false)) => {
                lemma_cond_keeps(st1, cl, i + 1, fuel);
            },
            _ => {},
        }
    }
}

/// The model of the outcome of evaluating a sequence of expressions.
pub open spec fn seq_outcome(r: Result<Vec<Expr>, InterpError>) -> Result<Seq<Val>, Fault> {
    match r {
        Ok(v) => Ok(vals(v@)),
        Err(e) => Err(e@),
    }
}

fn block_result(vs: &Vec<Expr>) -> (r: Expr)
    ensures
        r@ == block_value(vals(vs@)),
{
    if vs.len() == 0 {
        Expr::Boolean(false)
    } else {
        vs[vs.len() - 1].share()
    }
}

impl Interpreter {
    /// A fresh interpreter whose current frame is the root frame.
    pub fn new(lexical_scope: bool, store_output: bool) -> (r: Interpreter)
        ensures
            r@ == (State {
                frames: seq![FrameV { vars: crate::environment::root_vars(), parent: None }],
                local: 0,
                output: Seq::empty(),
                lexical: lexical_scope,
                store: store_output,
            }),
    {
        let global = Environment { lexical_scope, store_output, output: Vec::new() };
        let mut frames: Vec<LocalEnvironment> = Vec::new();
        frames.push(LocalEnvironment::default_environment());
        let r = Interpreter { global, frames, local: 0 };
        assert(r@.frames =~= seq![FrameV { vars: crate::environment::root_vars(), parent: None }]);
        assert(r@.output =~= Seq::<Seq<char>>::empty());
        r
    }

    /// Enters a new, empty frame whose parent is the current one; returns the previous handle.
    pub fn enter_new_local(&mut self) -> (r: usize)
        ensures
            final(self)@ == enter_new(old(self)@),
            r == old(self).local,
    {
        let old_local = self.local;
        let frame = LocalEnvironment::from_parent(old_local);
        let ghost fv = frame@;
        self.frames.push(frame);
        self.local = self.frames.len() - 1;
        assert(self@.frames =~= old(self)@.frames.push(fv));
        old_local
    }

    /// Makes `local` the current frame; returns the previous handle.
    pub fn enter_local(&mut self, local: usize) -> (r: usize)
        ensures
            final(self)@ == restore(old(self)@, local),
            r == old(self).local,
    {
        let old_local = self.local;
        self.local = local;
        old_local
    }

    /// Evaluates `e` with `fuel` more nested calls of user functions allowed.
    pub fn eval_with_fuel(&mut self, e: &Ast, fuel: u64) -> (r: Result<Expr, InterpError>)
        ensures
            (final(self)@, outcome(r)) == eval_spec(old(self)@, *e, fuel as nat),
        decreases fuel, *e, 2int,
    {
        match e {
            Ast::Integer(n) => Ok(Expr::Integer(*n)),
            Ast::String(s) => Ok(Expr::String(s.clone())),
            Ast::Boolean(b) => Ok(Expr::Boolean(*b)),
            Ast::Identifier(name) => {
                match LocalEnvironment::lookup(&self.frames, self.local, name.as_str()) {
                    Some(v) => Ok(v),
                    None => Err(InterpError::UndefinedError { symbol: name.clone() }),
                }
            },
            Ast::List(items) => {
                proof {
                    assert(decreases_to!(*e => e->List_0@));
                }
                match self.eval_seq(items.as_slice(), 0, fuel) {
                    Ok(vs) => {
                        proof {
                            lemma_vals_of_is_vals(vs@);
                        }
                        Ok(Expr::List(std::rc::Rc::new(vs)))
                    },
                    Err(err) => Err(err),
                }
            },
            Ast::Block(items) => {
                proof {
                    assert(decreases_to!(*e => e->Block_0@));
                }
                let old_local = self.enter_new_local();
                let r = self.eval_seq(items.as_slice(), 0, fuel);
                self.local = old_local;
                match r {
                    Ok(vs) => Ok(block_result(&vs)),
                    Err(err) => Err(err),
                }
            },
            Ast::Lambda(params, body) => Ok(
                Expr::Function(
                    Function::Function {
                        name: "Anonymous".to_string(),
                        args: params.clone(),
                        func: body.clone(),
                        env: self.local,
                    },
                ),
            ),
            Ast::Application(_, _) => self.function_application(e, fuel),
            Ast::Cond(clauses) => {
                proof {
                    assert(decreases_to!(*e => e->Cond_0@));
                }
                self.eval_cond(clauses.as_slice(), 0, fuel)
            },
            Ast::Let(name, rhs) => {
                let v = match self.eval_with_fuel(rhs, fuel) {
                    Ok(v) => v,
                    Err(err) => {
                        return Err(err);
                    },
                };
                let mut variables: Vec<(String, Expr)> = Vec::new();
                variables.push((name.clone(), v.share()));
                let frame = LocalEnvironment { variables, parent: Some(self.local) };
                let ghost fv = frame@;
                assert(fv.vars =~= seq![(name@, v@)]);
                let ghost before = self@.frames;
                self.frames.push(frame);
                self.local = self.frames.len() - 1;
                assert(self@.frames =~= before.push(fv));
                Ok(v)
            },
            Ast::Def(name, rhs) => {
                let v = match self.eval_with_fuel(rhs, fuel) {
                    Ok(v) => v,
                    Err(err) => {
                        return Err(err);
                    },
                };
                if self.local >= self.frames.len() {
                    return Err(InterpError::RuntimeError { message: "frame handle out of range".to_string() });
                }
                let ghost before = self@.frames;
                if self.frames[self.local].position(name.as_str()).is_some() {
                    let mut variables: Vec<(String, Expr)> = Vec::new();
                    variables.push((name.clone(), v.share()));
                    let frame = LocalEnvironment { variables, parent: Some(self.local) };
                    let ghost fv = frame@;
                    assert(fv.vars =~= seq![(name@, v@)]);
                    self.frames.push(frame);
                    self.local = self.frames.len() - 1;
                    assert(self@.frames =~= before.push(fv));
                    return Ok(v);
                }
                let mut frame = LocalEnvironment { variables: Vec::new(), parent: None };
                self.frames.set_and_swap(self.local, &mut frame);
                frame.bind(name.clone(), v.share());
                let ghost fv = frame@;
                self.frames.set_and_swap(self.local, &mut frame);
                assert(self@.frames =~= before.update(self.local as int, fv));
                Ok(v)
            },
            Ast::Assignment(name, rhs) => {
                let v = match self.eval_with_fuel(rhs, fuel) {
                    Ok(v) => v,
                    Err(err) => {
                        return Err(err);
                    },
                };
                LocalEnvironment::assignment(&mut self.frames, self.local, name.as_str(), &v)
            },
        }
    }

    /// Applies a function: evaluates the head, requires a function, evaluates the arguments
    /// left to right, and calls a built-in on them, or runs a user function's body in a new
    /// frame that binds its parameters.
    fn function_application(&mut self, e: &Ast, fuel: u64) -> (r: Result<Expr, InterpError>)
        requires
            e is Application,
        ensures
            (final(self)@, outcome(r)) == eval_spec(old(self)@, *e, fuel as nat),
        decreases fuel, *e, 1int,
    {
        let (head, args) = match e {
            Ast::Application(head, args) => (head, args),
            _ => unreached(),
        };
        let h = match self.eval_with_fuel(head, fuel) {
            Ok(h) => h,
            Err(err) => {
                return Err(err);
            },
        };
        proof {
            assert(decreases_to!(*e => e->Application_1@));
        }
        match h {
            Expr::Function(Function::CoreFunction { name, func }) => {
                let vs = match self.eval_seq(args.as_slice(), 0, fuel) {
                    Ok(vs) => vs,
                    Err(err) => {
                        return Err(err);
                    },
                };
                call_builtin(func, vs.as_slice(), &mut self.global)
            },
            Expr::Function(Function::Function { name, args: params, func: body, env }) => {
                let vs = match self.eval_seq(args.as_slice(), 0, fuel) {
                    Ok(vs) => vs,
                    Err(err) => {
                        return Err(err);
                    },
                };
                let ghost args_v = vals(vs@);
                let ghost params_v = names_view(params@);
                if vs.len() != params.len() {
                    return Err(InterpError::ArgumentError { func: name, expected: params.len(), got: vs.len() });
                }
                if fuel == 0 {
                    return Err(InterpError::RuntimeError { message: "call depth limit exceeded".to_string() });
                }
                if self.global.lexical_scope && env >= self.frames.len() {
                    return Err(InterpError::RuntimeError { message: "frame handle out of range".to_string() });
                }
                let parent = if self.global.lexical_scope { env } else { self.local };
                let mut frame = LocalEnvironment::from_parent(parent);
                let mut k: usize = 0;
                while k < vs.len()
                    invariant
                        0 <= k <= vs.len(),
                        vs.len() == params.len(),
                        args_v == vals(vs@),
                        params_v == names_view(params@),
                        frame@ == (FrameV { vars: bind_all(Seq::empty(), params_v, args_v, k as int), parent: Some(parent) }),
                    decreases vs.len() - k,
                {
                    frame.bind(params[k].clone(), vs[k].share());
                    k = k + 1;
                }
                let saved = self.local;
                let ghost fv = frame@;
                let ghost before = self@.frames;
                self.frames.push(frame);
                self.local = self.frames.len() - 1;
                assert(self@.frames =~= before.push(fv));
                let rb = self.eval_seq(body.as_slice(), 0, fuel - 1);
                self.local = saved;
                match rb {
                    Ok(bs) => Ok(block_result(&bs)),
                    Err(err) => Err(err),
                }
            },
            other => Err(InterpError::TypeError { expected: "function".to_string(), found: other.to_string() }),
        }
    }

    /// Evaluates `es[i..]` in order, stopping at the first error.
    fn eval_seq(&mut self, es: &[Ast], i: usize, fuel: u64) -> (r: Result<Vec<Expr>, InterpError>)
        ensures
            (final(self)@, seq_outcome(r)) == eval_seq(old(self)@, es@, i as int, fuel as nat),
        decreases fuel, es@, es@.len() - i,
    {
        if i >= es.len() {
            proof {
                lemma_vals_of_is_vals(Seq::<Expr>::empty());
            }
            let v: Vec<Expr> = Vec::new();
            assert(vals(v@) =~= Seq::<Val>::empty());
            return Ok(v);
        }
        let v = match self.eval_with_fuel(&es[i], fuel) {
            Ok(v) => v,
            Err(err) => {
                return Err(err);
            },
        };
        let mut rest = match self.eval_seq(es, i + 1, fuel) {
            Ok(rest) => rest,
            Err(err) => {
                return Err(err);
            },
        };
        let ghost old_rest = rest@;
        let ghost vv = v@;
        rest.insert(0, v);
        assert(vals(rest@) =~= seq![vv] + vals(old_rest));
        Ok(rest)
    }

    /// Evaluates the clauses `cl[i..]` of a `cond`.
    fn eval_cond(&mut self, cl: &[(Ast, Ast)], i: usize, fuel: u64) -> (r: Result<Expr, InterpError>)
        ensures
            (final(self)@, outcome(r)) == eval_cond(old(self)@, cl@, i as int, fuel as nat),
        decreases fuel, cl@, cl@.len() - i,
    {
        if i >= cl.len() {
            return Ok(Expr::Boolean(false));
        }
        proof {
            assert(decreases_to!(cl@ => cl@[i as int].0));
        }
        let c = match self.eval_with_fuel(&cl[i].0, fuel) {
            Ok(c) => c,
            Err(err) => {
                return Err(err);
            },
        };
        match c {
            Expr::Boolean(true) => {
                proof {
                    assert(decreases_to!(cl@ => cl@[i as int].1));
                }
                self.eval_with_fuel(&cl[i].1, fuel)
            },
            Expr::Boolean(false) => self.eval_cond(cl, i + 1, fuel),
            other => Err(InterpError::TypeError { expected: "bool".to_string(), found: other.to_string() }),
        }
    }
}

impl Interpreter {
    /// Evaluates `e` with the default limit on nested calls.
    pub fn run(&mut self, e: &Ast) -> (r: Result<Expr, InterpError>)
        ensures
            (final(self)@, outcome(r)) == eval_spec(old(self)@, *e, MAX_CALL_DEPTH as nat),
    {
        self.eval_with_fuel(e, MAX_CALL_DEPTH)
    }

    /// All output written so far, as one string.
    pub fn output_text(&self) -> (r: String)
        ensures
            r@ == concat_all(self@.output, self@.output.len() as int),
    {
        let mut out = String::new();
        let mut i: usize = 0;
        while i < self.global.output.len()
            invariant
                0 <= i <= self.global.output.len(),
                self@.output.len() == self.global.output@.len(),
                out@ == concat_all(self@.output, i as int),
            decreases self.global.output.len() - i,
        {
            out.append(self.global.output[i].as_str());
            i = i + 1;
        }
        out
    }
}

impl Expr {
    /// Evaluates the tree that `val` encodes, in `interpreter`.
    pub fn eval(val: &Json, interpreter: &mut Interpreter) -> (r: Result<Expr, InterpError>)
        ensures
            *val is Number ==> (final(interpreter)@ == old(interpreter)@ && (r matches Err(e) && e is TypeError)),
            (final(interpreter)@ == old(interpreter)@ && (r matches Err(e) && (e is ParseError || e is TypeError))
                && forall|a: Ast| !ast_matches(*val, a))
                || exists|a: Ast| ast_matches(*val, a) && (final(interpreter)@, outcome(r)) == eval_spec(
                old(interpreter)@,
                a,
                MAX_CALL_DEPTH as nat,
            ),
    {
        match Ast::from_json(val) {
            Ok(a) => interpreter.run(&a),
            Err(e) => Err(e),
        }
    }
}

/// The state of a fresh interpreter.
pub open spec fn initial_state(lexical: bool, store: bool) -> State {
    State {
        frames: seq![FrameV { vars: crate::environment::root_vars(), parent: None }],
        local: 0,
        output: Seq::empty(),
        lexical,
        store,
    }
}

/// Some tree that `j` encodes, evaluated in a fresh interpreter with the default call limit,
/// ends in state `st` with outcome `r`.
pub open spec fn runs_to(j: Json, lexical: bool, store: bool, st: State, r: Result<Val, Fault>) -> bool {
    exists|a: Ast| ast_matches(j, a) && eval_spec(initial_state(lexical, store), a, MAX_CALL_DEPTH as nat) == (st, r)
}

/// Evaluates the tree that `val` encodes in a fresh interpreter, returning the value and the
/// interpreter after it.
pub fn interpret_default(val: &Json, lexical_scope: bool, store_output: bool) -> (r: Result<(Expr, Interpreter), InterpError>)
    ensures
        match r {
            Ok((v, i)) => runs_to(*val, lexical_scope, store_output, i@, Ok(v@))
                && i.global.lexical_scope == lexical_scope && i.global.store_output == store_output,
            Err(e) => ((e is ParseError || e is TypeError) && forall|a: Ast| !ast_matches(*val, a))
                || exists|st: State| runs_to(*val, lexical_scope, store_output, st, Err(e@)),
        },
        *val is Number ==> (r matches Err(e) && e is TypeError),
{
    let mut interpreter = Interpreter::new(lexical_scope, store_output);
    let ghost st0 = interpreter@;
    assert(st0 == initial_state(lexical_scope, store_output));
    let r = Expr::eval(val, &mut interpreter);
    let ghost conversion_failed = interpreter@ == st0 && (r is Err && (r->Err_0 is ParseError || r->Err_0 is TypeError))
        && forall|a: Ast| !ast_matches(*val, a);
    proof {
        if !conversion_failed {
            let a = choose|a: Ast| ast_matches(*val, a) && (interpreter@, outcome(r)) == eval_spec(st0, a, MAX_CALL_DEPTH as nat);
            lemma_eval_keeps(st0, a, MAX_CALL_DEPTH as nat);
            assert(runs_to(*val, lexical_scope, store_output, interpreter@, outcome(r)));
        }
    }
    match r {
        Ok(v) => Ok((v, interpreter)),
        Err(e) => Err(e),
    }
}

/// The text that the embeddable surface hands back: the output followed by the display form
/// of the value, or the message of the error.
pub fn interpret_to_string(val: &Json, lexical_scope: bool) -> (r: String)
    ensures
        (exists|st: State, v: Val| runs_to(*val, lexical_scope, true, st, Ok(v))
            && r@ == concat_all(st.output, st.output.len() as int) + display_of(v))
        || (exists|e: InterpError| r@ == fault_text(e@) && (((e is ParseError || e is TypeError)
            && forall|a: Ast| !ast_matches(*val, a)) || exists|st: State|
            runs_to(*val, lexical_scope, true, st, Err(e@)))),
{
    match interpret_default(val, lexical_scope, true) {
        Ok((v, interpreter)) => {
            let mut out = interpreter.output_text();
            out.append(v.to_string().as_str());
            assert(runs_to(*val, lexical_scope, true, interpreter@, Ok(v@)));
            out
        },
        Err(e) => {
            let m = e.message();
            assert(m@ == fault_text(e@));
            m
        },
    }
}

} // verus!
