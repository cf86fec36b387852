use vstd::prelude::*;

use crate::ast::Ast;
use crate::environment::{
    assign_in, bind_var, find_var, frames_wf, lemma_find_var, lookup_in, FrameV,
};
use crate::error::Fault;
use crate::interpreter::{
    bind_all, enter_new, eval_cond, eval_seq, eval_spec, initial_state, lemma_seq_keeps, restore, State,
};
use crate::lexer::{digits_end, digits_value, scan_string, spec_is_digit, token_at, TokV};
use crate::text::{digit_char, digits_of, int_text};
use crate::value::{display_of, Val};

verus! {

/// Binding a name makes it resolve, in that frame, to the bound value.
pub proof fn lemma_bind_var_finds(vars: Seq<(Seq<char>, Val)>, name: Seq<char>, v: Val)
    ensures
        find_var(bind_var(vars, name, v), name, 0) matches Some(k) && bind_var(vars, name, v)[k] == (name, v),
{
    lemma_find_var(vars, name, 0);
    match find_var(vars, name, 0) {
        Some(k) => {
            lemma_find_var_update(vars, name, v, k, 0);
        },
        None => {
            lemma_find_var_push(vars, name, v, 0);
        },
    }
}

proof fn lemma_find_var_update(vars: Seq<(Seq<char>, Val)>, name: Seq<char>, v: Val, k: int, i: int)
    requires
        0 <= i <= k < vars.len(),
        find_var(vars, name, i) == Some(k),
    ensures
        find_var(vars.update(k, (name, v)), name, i) == Some(k),
    decreases k - i,
{
    if i < k {
        lemma_find_var_update(vars, name, v, k, i + 1);
    }
}

proof fn lemma_find_var_push(vars: Seq<(Seq<char>, Val)>, name: Seq<char>, v: Val, i: int)
    requires
        0 <= i <= vars.len(),
        find_var(vars, name, i) is None,
    ensures
        find_var(vars.push((name, v)), name, i) == Some(vars.len() as int),
    decreases vars.len() - i,
{
    if i < vars.len() {
        lemma_find_var_push(vars, name, v, i + 1);
    }
}

/// Assignment succeeds exactly where lookup does, and afterwards the name resolves to the
/// assigned value.
pub proof fn lemma_assign_then_lookup(frames: Seq<FrameV>, at: int, name: Seq<char>, v: Val)
    ensures
        (assign_in(frames, at, name, v) is Some) == (lookup_in(frames, at, name) is Some),
        assign_in(frames, at, name, v) matches Some(fs) ==> lookup_in(fs, at, name) == Some(v),
    decreases at,
{
    if 0 <= at < frames.len() {
        match find_var(frames[at].vars, name, 0) {
            Some(k) => {
                lemma_find_var(frames[at].vars, name, 0);
                lemma_find_var_update(frames[at].vars, name, v, k, 0);
            },
            None => match frames[at].parent {
                Some(p) => if p < at {
                    lemma_assign_then_lookup(frames, p as int, name, v);
                    if let Some(fs) = assign_in(frames, p as int, name, v) {
                        lemma_assign_keeps_above(frames, p as int, name, v, at);
                    }
                },
                None => {},
            },
        }
    }
}

/// Assigning from frame `at` changes no frame above `at`.
proof fn lemma_assign_keeps_above(frames: Seq<FrameV>, at: int, name: Seq<char>, v: Val, above: int)
    requires
        at < above < frames.len(),
        assign_in(frames, at, name, v) is Some,
    ensures
        assign_in(frames, at, name, v).unwrap().len() == frames.len(),
        assign_in(frames, at, name, v).unwrap()[above] == frames[above],
    decreases at,
{
    if 0 <= at < frames.len() {
        if find_var(frames[at].vars, name, 0) is None {
            if let Some(p) = frames[at].parent {
                if p < at {
                    lemma_assign_keeps_above(frames, p as int, name, v, above);
                }
            }
        }
    }
}

/// Assignment to a name that is bound returns the new value, and later lookup of the name
/// gives it; assignment to a name that no enclosing frame binds is an undefined-symbol error.
pub proof fn law_assignment(st: State, name: String, rhs: Box<Ast>, fuel: nat)
    ensures
        ({
            let (st1, r) = eval_spec(st, *rhs, fuel);
            let (st2, a) = eval_spec(st, Ast::Assignment(name, rhs), fuel);
            match r {
                Ok(v) => if lookup_in(st1.frames, st1.local as int, name@) is Some {
                    a == Ok::<Val, Fault>(v) && st2.local == st1.local && lookup_in(st2.frames, st2.local as int, name@) == Some(v)
                } else {
                    a == Err::<Val, Fault>(Fault::Undefined(name@)) && st2 == st1
                },
                Err(f) => a == Err::<Val, Fault>(f),
            }
        }),
{
    let (st1, r) = eval_spec(st, *rhs, fuel);
    if let Ok(v) = r {
        lemma_assign_then_lookup(st1.frames, st1.local as int, name@, v);
    }
}

/// `def` of a name that the current frame does not bind yet binds it in that frame, and the
/// frame handle stays: the name then resolves from that frame, so every closure made in it sees
/// the definition, including closures defined before it in the same block (mutual recursion).
/// `def` of a name that the current frame binds already opens a new frame for it, as `let`
/// does: the name resolves to the new value from there on, and no frame that existed before
/// changes.
pub proof fn law_def(st: State, name: String, rhs: Box<Ast>, fuel: nat)
    ensures
        ({
            let (st1, r) = eval_spec(st, *rhs, fuel);
            let (st2, d) = eval_spec(st, Ast::Def(name, rhs), fuel);
            match r {
                Ok(v) => st1.local < st1.frames.len() < usize::MAX ==> {
                    &&& d == Ok::<Val, Fault>(v)
                    &&& lookup_in(st2.frames, st2.local as int, name@) == Some(v)
                    &&& if find_var(st1.frames[st1.local as int].vars, name@, 0) is None {
                        &&& st2.local == st1.local
                        &&& st2.frames.len() == st1.frames.len()
                        &&& forall|i: int|
                            0 <= i < st1.frames.len() && i != st1.local ==> st2.frames[i] == st1.frames[i]
                    } else {
                        &&& st2.frames.len() == st1.frames.len() + 1
                        &&& st2.frames.subrange(0, st1.frames.len() as int) == st1.frames
                        &&& st2.frames[st2.local as int].parent == Some(st1.local)
                    }
                },
                Err(_) => true,
            }
        }),
{
    let (st1, r) = eval_spec(st, *rhs, fuel);
    if let Ok(v) = r {
        if st1.local < st1.frames.len() < usize::MAX {
            let (st2, d) = eval_spec(st, Ast::Def(name, rhs), fuel);
            if find_var(st1.frames[st1.local as int].vars, name@, 0) is None {
                lemma_bind_var_finds(st1.frames[st1.local as int].vars, name@, v);
            } else {
                assert(st2.frames.subrange(0, st1.frames.len() as int) =~= st1.frames);
                let f = st2.frames[st2.local as int];
                assert(f.vars == seq![(name@, v)]);
                assert(find_var(f.vars, name@, 0) == Some(0int));
                assert(lookup_in(st2.frames, st2.local as int, name@) == Some(v));
            }
        }
    }
}

/// A closure sees the bindings in effect when it was made: a later `def` of a name that is
/// already bound in the current frame leaves every frame that existed before unchanged, so a
/// name resolves from any of them (a closure's captured frame among them) as before.
pub proof fn law_redefinition_hidden_from_earlier_closures(
    st: State,
    name: String,
    rhs: Box<Ast>,
    fuel: nat,
    at: int,
    n: Seq<char>,
)
    requires
        0 <= at < st.frames.len(),
        local_only(*rhs),
    ensures
        ({
            let (st1, r) = eval_spec(st, *rhs, fuel);
            let st2 = eval_spec(st, Ast::Def(name, rhs), fuel).0;
            (r is Ok && st1.local < st1.frames.len() && find_var(st1.frames[st1.local as int].vars, name@, 0) is Some)
                ==> lookup_in(st2.frames, at, n) == lookup_in(st.frames, at, n)
        }),
{
    let (st1, r) = eval_spec(st, *rhs, fuel);
    lemma_local_extends(st, *rhs, fuel);
    lemma_lookup_extends(st.frames, st1.frames, at, n);
    if let Ok(v) = r {
        if st1.local < st1.frames.len() && find_var(st1.frames[st1.local as int].vars, name@, 0) is Some {
            let st2 = eval_spec(st, Ast::Def(name, rhs), fuel).0;
            lemma_extends_push(st1.frames, st2.frames.last());
            assert(st2.frames == st1.frames.push(st2.frames.last()));
            lemma_lookup_extends(st1.frames, st2.frames, at, n);
        }
    }
}

/// `cond` tries its clauses in order: a clause whose condition is `true` gives the value of
/// its result and no later clause is looked at; one whose condition is `false` passes on to the
/// next; a condition that is not a boolean is a type error; with no clause left the value is
/// `false`.
pub proof fn law_cond_selection(st: State, cl: Seq<(Ast, Ast)>, i: int, fuel: nat)
    requires
        0 <= i,
    ensures
        i >= cl.len() ==> eval_cond(st, cl, i, fuel) == (st, Ok::<Val, Fault>(Val::Bool(false))),
        i < cl.len() ==> ({
            let (st1, c) = eval_spec(st, cl[i].0, fuel);
            match c {
                Ok(Val::Bool(true)) => eval_cond(st, cl, i, fuel) == eval_spec(st1, cl[i].1, fuel),
                Ok(Val::Bool(false)) => eval_cond(st, cl, i, fuel) == eval_cond(st1, cl, i + 1, fuel),
                Ok(other) => eval_cond(st, cl, i, fuel) == (st1, Err::<Val, Fault>(Fault::Type("bool"@, display_of(other)))),
                Err(f) => eval_cond(st, cl, i, fuel) == (st1, Err::<Val, Fault>(f)),
            }
        }),
{
}

/// A user function applied to a number of arguments other than its number of parameters
/// fails with its name and both counts, before its body is entered.
pub proof fn law_arity(st: State, head: Box<Ast>, args: Vec<Ast>, fuel: nat)
    ensures
        ({
            let (st1, h) = eval_spec(st, *head, fuel);
            let (st2, ra) = eval_seq(st1, args@, 0, fuel);
            match (h, ra) {
                (Ok(Val::User(name, params, body, env)), Ok(vs)) => vs.len() != params.len() ==> eval_spec(
                    st,
                    Ast::Application(head, args),
                    fuel,
                ) == (st2, Err::<Val, Fault>(Fault::Argument(name, params.len() as usize, vs.len() as usize))),
                _ => true,
            }
        }),
{
}

/// A user function's body runs in a new frame that binds the parameters to the arguments and
/// whose parent is the frame captured when the function was made (lexical scope) or the
/// caller's current frame (dynamic scope); afterwards the caller's frame is current again.
pub proof fn law_call_frame(st: State, head: Box<Ast>, args: Vec<Ast>, fuel: nat)
    ensures
        ({
            let (st1, h) = eval_spec(st, *head, fuel);
            let (st2, ra) = eval_seq(st1, args@, 0, fuel);
            match (h, ra) {
                (Ok(Val::User(name, params, body, env)), Ok(vs)) => (vs.len() == params.len() && fuel > 0 && (
                st2.lexical ==> env < st2.frames.len())) ==> {
                    let frame = FrameV {
                        vars: bind_all(Seq::empty(), params, vs, vs.len() as int),
                        parent: Some(if st2.lexical { env } else { st2.local }),
                    };
                    let st3 = State { frames: st2.frames.push(frame), local: st2.frames.len() as usize, ..st2 };
                    let (st4, rb) = eval_seq(st3, body@, 0, (fuel - 1) as nat);
                    eval_spec(st, Ast::Application(head, args), fuel).0 == restore(st4, st2.local)
                },
                _ => true,
            }
        }),
{
}

/// A block restores the current frame on every exit path, error or not.
pub proof fn law_block_restores_frame(st: State, items: Vec<Ast>, fuel: nat)
    ensures
        eval_spec(st, Ast::Block(items), fuel).0.local == st.local,
{
}

proof fn lemma_digit_char(d: int)
    requires
        0 <= d < 10,
    ensures
        spec_is_digit(digit_char(d)),
        digit_char(d) as u32 - '0' as u32 == d,
{
}

/// The value of a run of digits depends only on the characters in it.
proof fn lemma_digits_value_same(a: Seq<char>, b: Seq<char>, i: int, j: int, shift: int)
    requires
        0 <= i <= j <= a.len(),
        0 <= i + shift,
        j + shift <= b.len(),
        forall|k: int| i <= k < j ==> a[k] == #[trigger] b[k + shift],
    ensures
        digits_value(a, i, j) == digits_value(b, i + shift, j + shift),
    decreases j - i,
{
    if i < j {
        lemma_digits_value_same(a, b, i, j - 1, shift);
        assert(a[j - 1] == b[j - 1 + shift]);
    }
}

proof fn lemma_digits_end_all(cs: Seq<char>, i: int)
    requires
        0 <= i <= cs.len(),
        forall|k: int| i <= k < cs.len() ==> spec_is_digit(#[trigger] cs[k]),
    ensures
        digits_end(cs, i) == cs.len(),
    decreases cs.len() - i,
{
    if i < cs.len() {
        lemma_digits_end_all(cs, i + 1);
    }
}

/// The decimal digits of `m` are digits, at least one, and read back as `m`.
proof fn lemma_digits_of(m: nat)
    ensures
        digits_of(m).len() >= 1,
        forall|k: int| 0 <= k < digits_of(m).len() ==> spec_is_digit(#[trigger] digits_of(m)[k]),
        digits_value(digits_of(m), 0, digits_of(m).len() as int) == m,
    decreases m,
{
    if m < 10 {
        lemma_digit_char(m as int);
        assert(digits_value(digits_of(m), 0, 0) == 0);
    } else {
        let d = digits_of(m / 10);
        lemma_digits_of(m / 10);
        lemma_digit_char((m % 10) as int);
        let e = d.push(digit_char((m % 10) as int));
        assert(e == digits_of(m));
        lemma_digits_value_same(d, e, 0, d.len() as int, 0);
        assert(digits_value(e, 0, e.len() as int) == digits_value(e, 0, d.len() as int) * 10 + (m % 10));
        assert(m == (m / 10) * 10 + m % 10) by (nonlinear_arith);
    }
}

/// Lexing the display form of an integer gives back that integer, as one token that spans
/// the whole text.
pub proof fn law_integer_display_round_trip(n: i64)
    ensures
        token_at(int_text(n as int), 0) == (TokV::Int(n), int_text(n as int).len() as int),
{
    let t = int_text(n as int);
    if n < 0 {
        let m = (-(n as int)) as nat;
        let d = digits_of(m);
        lemma_digits_of(m);
        assert(t == seq!['-'] + d);
        assert forall|k: int| 1 <= k < t.len() implies spec_is_digit(#[trigger] t[k]) by {
            assert(t[k] == d[k - 1]);
        }
        lemma_digits_end_all(t, 1);
        assert forall|k: int| 0 <= k < d.len() implies d[k] == #[trigger] t[k + 1] by {}
        lemma_digits_value_same(d, t, 0, d.len() as int, 1);
        assert(digits_value(t, 1, t.len() as int) == m);
    } else {
        let d = digits_of(n as nat);
        lemma_digits_of(n as nat);
        lemma_digits_end_all(t, 0);
    }
}

proof fn lemma_scan_plain(cs: Seq<char>, j: int, acc: Seq<char>)
    requires
        1 <= j < cs.len(),
        cs.last() == '"',
        forall|k: int| 1 <= k < cs.len() - 1 ==> #[trigger] cs[k] != '"' && cs[k] != '\\',
    ensures
        scan_string(cs, j, acc, true) == (acc + cs.subrange(j, cs.len() - 1), cs.len() as int, true),
    decreases cs.len() - j,
{
    if j < cs.len() - 1 {
        lemma_scan_plain(cs, j + 1, acc.push(cs[j]));
        assert(acc.push(cs[j]) + cs.subrange(j + 1, cs.len() - 1) =~= acc + cs.subrange(j, cs.len() - 1));
    } else {
        assert(acc + cs.subrange(j, cs.len() - 1) =~= acc);
    }
}

/// A string without quotes or backslashes, written between double quotes, lexes to a string
/// token whose display form is the string itself.
pub proof fn law_string_display_round_trip(s: Seq<char>)
    requires
        forall|k: int| 0 <= k < s.len() ==> #[trigger] s[k] != '"' && s[k] != '\\',
    ensures
        token_at(seq!['"'] + s + seq!['"'], 0) == (TokV::Str(s), s.len() + 2int),
        display_of(Val::Str(s)) == s,
{
    let cs = seq!['"'] + s + seq!['"'];
    assert forall|k: int| 1 <= k < cs.len() - 1 implies #[trigger] cs[k] != '"' && cs[k] != '\\' by {
        assert(cs[k] == s[k - 1]);
    }
    lemma_scan_plain(cs, 1, Seq::empty());
    assert(Seq::<char>::empty() + cs.subrange(1, cs.len() - 1) =~= s);
}

/// Built only from literals, names, lists, blocks, lambdas, `cond`s and `let`s: no `def`, no
/// assignment and no call.
pub open spec fn local_only(e: Ast) -> bool
    decreases e, 0int,
{
    match e {
        Ast::List(items) => all_local(items@),
        Ast::Block(items) => all_local(items@),
        Ast::Cond(cl) => forall|k: int|
            0 <= k < cl@.len() ==> local_only(#[trigger] cl@[k].0) && local_only(cl@[k].1),
        Ast::Let(_, rhs) => local_only(*rhs),
        Ast::Def(_, _) | Ast::Assignment(_, _) | Ast::Application(_, _) => false,
        _ => true,
    }
}

pub open spec fn all_local(es: Seq<Ast>) -> bool
    decreases es, 0int,
{
    forall|k: int| 0 <= k < es.len() ==> local_only(#[trigger] es[k])
}

/// `b` holds the frames of `a` unchanged, perhaps followed by more.
pub open spec fn extends(a: Seq<FrameV>, b: Seq<FrameV>) -> bool {
    b.len() >= a.len() && b.subrange(0, a.len() as int) == a
}

proof fn lemma_extends_trans(a: Seq<FrameV>, b: Seq<FrameV>, c: Seq<FrameV>)
    requires
        extends(a, b),
        extends(b, c),
    ensures
        extends(a, c),
{
    assert(c.subrange(0, a.len() as int) =~= b.subrange(0, a.len() as int));
}

proof fn lemma_extends_push(a: Seq<FrameV>, f: FrameV)
    ensures
        extends(a, a.push(f)),
{
    assert(a.push(f).subrange(0, a.len() as int) =~= a);
}

/// Frames added after `at` do not change what a name resolves to from `at`.
pub proof fn lemma_lookup_extends(a: Seq<FrameV>, b: Seq<FrameV>, at: int, name: Seq<char>)
    requires
        extends(a, b),
        at < a.len(),
    ensures
        lookup_in(b, at, name) == lookup_in(a, at, name),
    decreases at,
{
    if 0 <= at {
        assert(b[at] == b.subrange(0, a.len() as int)[at]);
        if let Some(p) = a[at].parent {
            if p < at {
                lemma_lookup_extends(a, b, p as int, name);
            }
        }
    }
}

proof fn lemma_local_extends(st: State, e: Ast, fuel: nat)
    requires
        local_only(e),
    ensures
        extends(st.frames, eval_spec(st, e, fuel).0.frames),
    decreases fuel, e, 0int,
{
    assert(st.frames.subrange(0, st.frames.len() as int) =~= st.frames);
    match e {
        Ast::List(items) => {
            lemma_seq_local_extends(st, items@, 0, fuel);
        },
        Ast::Block(items) => {
            let st0 = enter_new(st);
            lemma_extends_push(st.frames, st0.frames.last());
            assert(st0.frames == st.frames.push(st0.frames.last()));
            lemma_seq_local_extends(st0, items@, 0, fuel);
            lemma_extends_trans(st.frames, st0.frames, eval_seq(st0, items@, 0, fuel).0.frames);
        },
        Ast::Cond(cl) => {
            assert forall|k: int| 0 <= k < cl@.len() implies local_only(#[trigger] cl@[k].0) && local_only(cl@[k].1) by {
                assert(local_only(Ast::Cond(cl)));
            }
            lemma_cond_local_extends(st, cl@, 0, fuel);
        },
        Ast::Let(name, rhs) => {
            lemma_local_extends(st, *rhs, fuel);
            let (st1, r) = eval_spec(st, *rhs, fuel);
            if let Ok(v) = r {
                let f = FrameV { vars: seq![(name@, v)], parent: Some(st1.local) };
                lemma_extends_push(st1.frames, f);
                lemma_extends_trans(st.frames, st1.frames, st1.frames.push(f));
            }
        },
        _ => {},
    }
}

proof fn lemma_seq_local_extends(st: State, es: Seq<Ast>, i: int, fuel: nat)
    requires
        all_local(es),
    ensures
        extends(st.frames, eval_seq(st, es, i, fuel).0.frames),
    decreases fuel, es, es.len() - i,
{
    assert(st.frames.subrange(0, st.frames.len() as int) =~= st.frames);
    if 0 <= i < es.len() {
        lemma_local_extends(st, es[i], fuel);
        let (st1, r) = eval_spec(st, es[i], fuel);
        if r is Ok {
            lemma_seq_local_extends(st1, es, i + 1, fuel);
            lemma_extends_trans(st.frames, st1.frames, eval_seq(st1, es, i + 1, fuel).0.frames);
        }
    }
}

proof fn lemma_cond_local_extends(st: State, cl: Seq<(Ast, Ast)>, i: int, fuel: nat)
    requires
        forall|k: int| 0 <= k < cl.len() ==> local_only(#[trigger] cl[k].0) && local_only(cl[k].1),
    ensures
        extends(st.frames, eval_cond(st, cl, i, fuel).0.frames),
    decreases fuel, cl, cl.len() - i,
{
    assert(st.frames.subrange(0, st.frames.len() as int) =~= st.frames);
    if 0 <= i < cl.len() {
        lemma_local_extends(st, cl[i].0, fuel);
        let (st1, c) = eval_spec(st, cl[i].0, fuel);
        match c {
            Ok(Val::Bool(true)) => {
                lemma_local_extends(st1, cl[i].1, fuel);
                lemma_extends_trans(st.frames, st1.frames, eval_spec(st1, cl[i].1, fuel).0.frames);
            },
            Ok(Val::Bool(false)) => {
                lemma_cond_local_extends(st1, cl, i + 1, fuel);
                lemma_extends_trans(st.frames, st1.frames, eval_cond(st1, cl, i + 1, fuel).0.frames);
            },
            _ => {},
        }
    }
}

/// A `let` inside a block does not leak: after a block built only from literals, names,
/// lists, blocks, lambdas, `cond`s and `let`s, the current frame is the one before it and
/// every name resolves from it as it did before.
pub proof fn law_block_let_does_not_leak(st: State, items: Vec<Ast>, fuel: nat, name: Seq<char>)
    requires
        all_local(items@),
        st.local < st.frames.len(),
    ensures
        eval_spec(st, Ast::Block(items), fuel).0.local == st.local,
        lookup_in(eval_spec(st, Ast::Block(items), fuel).0.frames, st.local as int, name) == lookup_in(
            st.frames,
            st.local as int,
            name,
        ),
{
    let e = Ast::Block(items);
    assert(local_only(e));
    lemma_local_extends(st, e, fuel);
    lemma_lookup_extends(st.frames, eval_spec(st, e, fuel).0.frames, st.local as int, name);
}

/// The frames form chains that end, and the current frame exists.
pub open spec fn state_wf(st: State) -> bool {
    frames_wf(st.frames) && st.local < st.frames.len()
}

proof fn lemma_assign_keeps_parents(frames: Seq<FrameV>, at: int, name: Seq<char>, v: Val)
    ensures
        assign_in(frames, at, name, v) matches Some(fs) ==> fs.len() == frames.len() && forall|i: int|
            0 <= i < frames.len() ==> #[trigger] fs[i].parent == frames[i].parent,
    decreases at,
{
    if 0 <= at < frames.len() {
        if find_var(frames[at].vars, name, 0) is None {
            if let Some(p) = frames[at].parent {
                if p < at {
                    lemma_assign_keeps_parents(frames, p as int, name, v);
                }
            }
        }
    }
}

/// A fresh interpreter is well formed.
pub proof fn law_initial_state_wf(lexical: bool, store: bool)
    ensures
        state_wf(initial_state(lexical, store)),
{
}

/// Evaluation keeps the frames well formed: every frame's parent comes before it, so every
/// chain of parents ends, and the current frame exists.
pub proof fn law_eval_keeps_wf(st: State, e: Ast, fuel: nat)
    requires
        state_wf(st),
    ensures
        state_wf(eval_spec(st, e, fuel).0),
    decreases fuel, e, 0int,
{
    match e {
        Ast::List(items) => {
            law_seq_keeps_wf(st, items@, 0, fuel);
        },
        Ast::Block(items) => {
            let st0 = enter_new(st);
            assert(state_wf(st0));
            law_seq_keeps_wf(st0, items@, 0, fuel);
            lemma_seq_keeps(st0, items@, 0, fuel);
        },
        Ast::Application(head, args) => {
            law_eval_keeps_wf(st, *head, fuel);
            let (st1, h) = eval_spec(st, *head, fuel);
            if let Ok(hv) = h {
                match hv {
                    Val::Builtin(_, op) => {
                        law_seq_keeps_wf(st1, args@, 0, fuel);
                    },
                    Val::User(name, params, body, env) => {
                        law_seq_keeps_wf(st1, args@, 0, fuel);
                        let (st2, ra) = eval_seq(st1, args@, 0, fuel);
                        if let Ok(vs) = ra {
                            if vs.len() == params.len() && fuel != 0 && !(st2.lexical && env >= st2.frames.len()) {
                                let parent = if st2.lexical { env } else { st2.local };
                                let frame = FrameV {
                                    vars: bind_all(Seq::empty(), params, vs, vs.len() as int),
                                    parent: Some(parent),
                                };
                                let st3 = State {
                                    frames: st2.frames.push(frame),
                                    local: st2.frames.len() as usize,
                                    ..st2
                                };
                                assert(state_wf(st3));
                                law_seq_keeps_wf(st3, body@, 0, (fuel - 1) as nat);
                                lemma_seq_keeps(st3, body@, 0, (fuel - 1) as nat);
                            }
                        }
                    },
                    _ => {},
                }
            }
        },
        Ast::Cond(clauses) => {
            law_cond_keeps_wf(st, clauses@, 0, fuel);
        },
        Ast::Let(name, rhs) => {
            law_eval_keeps_wf(st, *rhs, fuel);
        },
        Ast::Def(name, rhs) => {
            law_eval_keeps_wf(st, *rhs, fuel);
        },
        Ast::Assignment(name, rhs) => {
            law_eval_keeps_wf(st, *rhs, fuel);
            let (st1, r) = eval_spec(st, *rhs, fuel);
            if let Ok(v) = r {
                lemma_assign_keeps_parents(st1.frames, st1.local as int, name@, v);
            }
        },
        _ => {},
    }
}

proof fn law_seq_keeps_wf(st: State, es: Seq<Ast>, i: int, fuel: nat)
    requires
        state_wf(st),
    ensures
        state_wf(eval_seq(st, es, i, fuel).0),
    decreases fuel, es, es.len() - i,
{
    if 0 <= i < es.len() {
        law_eval_keeps_wf(st, es[i], fuel);
        let (st1, r) = eval_spec(st, es[i], fuel);
        if r is Ok {
            law_seq_keeps_wf(st1, es, i + 1, fuel);
        }
    }
}

proof fn law_cond_keeps_wf(st: State, cl: Seq<(Ast, Ast)>, i: int, fuel: nat)
    requires
        state_wf(st),
    ensures
        state_wf(eval_cond(st, cl, i, fuel).0),
    decreases fuel, cl, cl.len() - i,
{
    if 0 <= i < cl.len() {
        law_eval_keeps_wf(st, cl[i].0, fuel);
        let (st1, c) = eval_spec(st, cl[i].0, fuel);
        match c {
            Ok(Val::Bool(true)) => {
                law_eval_keeps_wf(st1, cl[i].1, fuel);
            },
            Ok(Val::Bool(false)) => {
                law_cond_keeps_wf(st1, cl, i + 1, fuel);
            },
            _ => {},
        }
    }
}

} // verus!
