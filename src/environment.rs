use vstd::prelude::*;

use crate::error::{Fault, InterpError};
use crate::text::same_text;
use crate::value::{builtin_name, Builtin, Expr, Function, Val};

verus! {

/// One frame of bindings, linked to the frame that encloses it.
/// Frames live in one store, `Vec<LocalEnvironment>`, and are named by their index there;
/// a closure keeps the index of the frame it was made in, so every holder sees later changes.
#[derive(Debug)]
pub struct LocalEnvironment {
    pub variables: Vec<(String, Expr)>,
    pub parent: Option<usize>,
}

/// The process-wide state of one run.
#[derive(Debug)]
pub struct Environment {
    /// Closures see the frames of their definition (true) or of their caller (false).
    pub lexical_scope: bool,
    /// The front end should hand back the output as a string instead of printing it.
    pub store_output: bool,
    /// The output written so far, one entry per chunk.
    pub output: Vec<String>,
}

/// The mathematical model of a frame.
pub struct FrameV {
    pub vars: Seq<(Seq<char>, Val)>,
    pub parent: Option<usize>,
}

impl View for LocalEnvironment {
    type V = FrameV;

    open spec fn view(&self) -> FrameV {
        FrameV {
            vars: self.variables@.map_values(|p: (String, Expr)| (p.0@, p.1@)),
            parent: self.parent,
        }
    }
}

pub open spec fn frames_view(fs: Seq<LocalEnvironment>) -> Seq<FrameV> {
    fs.map_values(|f: LocalEnvironment| f@)
}

pub open spec fn output_view(o: Seq<String>) -> Seq<Seq<char>> {
    o.map_values(|s: String| s@)
}

/// The first position at or after `i` where `name` is bound in `vars`.
pub open spec fn find_var(vars: Seq<(Seq<char>, Val)>, name: Seq<char>, i: int) -> Option<int>
    decreases vars.len() - i,
{
    if i < 0 || i >= vars.len() {
        None
    } else if vars[i].0 == name {
        Some(i)
    } else {
        find_var(vars, name, i + 1)
    }
}

pub proof fn lemma_find_var(vars: Seq<(Seq<char>, Val)>, name: Seq<char>, i: int)
    requires
        0 <= i,
    ensures
        match find_var(vars, name, i) {
            Some(k) => i <= k < vars.len() && vars[k].0 == name,
            None => forall|j: int| i <= j < vars.len() ==> #[trigger] vars[j].0 != name,
        },
    decreases vars.len() - i,
{
    if i < vars.len() && vars[i].0 != name {
        lemma_find_var(vars, name, i + 1);
    }
}

/// `vars` with `name` bound to `v`: an existing binding of the name is replaced, else one is added.
pub open spec fn bind_var(vars: Seq<(Seq<char>, Val)>, name: Seq<char>, v: Val) -> Seq<(Seq<char>, Val)> {
    match find_var(vars, name, 0) {
        Some(k) => vars.update(k, (name, v)),
        None => vars.push((name, v)),
    }
}

/// What `name` resolves to from frame `at`: the binding in the first frame of the chain
/// from `at` to its root that binds it.
pub open spec fn lookup_in(frames: Seq<FrameV>, at: int, name: Seq<char>) -> Option<Val>
    decreases at,
{
    if 0 <= at < frames.len() {
        match find_var(frames[at].vars, name, 0) {
            Some(k) => Some(frames[at].vars[k].1),
            None => match frames[at].parent {
                Some(p) => if p < at {
                    lookup_in(frames, p as int, name)
                } else {
                    None
                },
                None => None,
            },
        }
    } else {
        None
    }
}

/// The frames after assigning `v` to `name` from frame `at`: the first frame of the chain that
/// binds the name is changed; `None` when no frame of the chain binds it.
pub open spec fn assign_in(frames: Seq<FrameV>, at: int, name: Seq<char>, v: Val) -> Option<Seq<FrameV>>
    decreases at,
{
    if 0 <= at < frames.len() {
        match find_var(frames[at].vars, name, 0) {
            Some(k) => Some(
                frames.update(
                    at,
                    FrameV { vars: frames[at].vars.update(k, (name, v)), parent: frames[at].parent },
                ),
            ),
            None => match frames[at].parent {
                Some(p) => if p < at {
                    assign_in(frames, p as int, name, v)
                } else {
                    None
                },
                None => None,
            },
        }
    } else {
        None
    }
}

/// Each frame's parent comes before it in the store, so every chain ends.
pub open spec fn frames_wf(frames: Seq<FrameV>) -> bool {
    forall|i: int| 0 <= i < frames.len() ==> match #[trigger] frames[i].parent {
        Some(p) => p < i,
        None => true,
    }
}

pub open spec fn builtin_binding(b: Builtin) -> (Seq<char>, Val) {
    (builtin_name(b), Val::Builtin(builtin_name(b), b))
}

/// The bindings of the root frame: the built-ins, then `x`, `v`, `i`, `true` and `false`.
pub open spec fn root_vars() -> Seq<(Seq<char>, Val)> {
    seq![
        builtin_binding(Builtin::Print),
        builtin_binding(Builtin::Println),
        builtin_binding(Builtin::Dbg),
        builtin_binding(Builtin::Equal),
        builtin_binding(Builtin::Greater),
        builtin_binding(Builtin::Less),
        builtin_binding(Builtin::Add),
        builtin_binding(Builtin::Sub),
        builtin_binding(Builtin::Mul),
        builtin_binding(Builtin::Div),
        builtin_binding(Builtin::Rem),
        builtin_binding(Builtin::Zero),
        builtin_binding(Builtin::ToUppercase),
        builtin_binding(Builtin::ToLowercase),
        builtin_binding(Builtin::Concat),
        builtin_binding(Builtin::Contains),
        builtin_binding(Builtin::Length),
        builtin_binding(Builtin::AsList),
        builtin_binding(Builtin::ListGet),
        builtin_binding(Builtin::ListSet),
        builtin_binding(Builtin::Sort),
        ("x"@, Val::Int(10)),
        ("v"@, Val::Int(5)),
        ("i"@, Val::Int(1)),
        ("true"@, Val::Bool(true)),
        ("false"@, Val::Bool(false)),
    ]
}

fn builtin_entry(name: &str, func: Builtin) -> (r: (String, Expr))
    requires
        name@ == builtin_name(func),
    ensures
        (r.0@, r.1@) == builtin_binding(func),
{
    (name.to_string(), Expr::Function(Function::CoreFunction { name: name.to_string(), func }))
}

pub proof fn lemma_assign_in_len(frames: Seq<FrameV>, at: int, name: Seq<char>, v: Val)
    ensures
        assign_in(frames, at, name, v) matches Some(fs) ==> fs.len() == frames.len(),
    decreases at,
{
    if 0 <= at < frames.len() {
        if find_var(frames[at].vars, name, 0) is None {
            if let Some(p) = frames[at].parent {
                if p < at {
                    lemma_assign_in_len(frames, p as int, name, v);
                }
            }
        }
    }
}

impl LocalEnvironment {
    /// The root frame, holding the built-ins and the default constants.
    pub fn default_environment() -> (r: LocalEnvironment)
        ensures
            r@ == (FrameV { vars: root_vars(), parent: None }),
    {
        let mut variables: Vec<(String, Expr)> = Vec::new();
        variables.push(builtin_entry("print", Builtin::Print));
        variables.push(builtin_entry("println", Builtin::Println));
        variables.push(builtin_entry("dbg", Builtin::Dbg));
        variables.push(builtin_entry("equal?", Builtin::Equal));
        variables.push(builtin_entry("greater?", Builtin::Greater));
        variables.push(builtin_entry("less?", Builtin::Less));
        variables.push(builtin_entry("add", Builtin::Add));
        variables.push(builtin_entry("sub", Builtin::Sub));
        variables.push(builtin_entry("mul", Builtin::Mul));
        variables.push(builtin_entry("div", Builtin::Div));
        variables.push(builtin_entry("rem", Builtin::Rem));
        variables.push(builtin_entry("zero?", Builtin::Zero));
        variables.push(builtin_entry("to_uppercase", Builtin::ToUppercase));
        variables.push(builtin_entry("to_lowercase", Builtin::ToLowercase));
        variables.push(builtin_entry("concat", Builtin::Concat));
        variables.push(builtin_entry("contains", Builtin::Contains));
        variables.push(builtin_entry("length", Builtin::Length));
        variables.push(builtin_entry("as_list", Builtin::AsList));
        variables.push(builtin_entry("get", Builtin::ListGet));
        variables.push(builtin_entry("set", Builtin::ListSet));
        variables.push(builtin_entry("sort", Builtin::Sort));
        variables.push(("x".to_string(), Expr::Integer(10)));
        variables.push(("v".to_string(), Expr::Integer(5)));
        variables.push(("i".to_string(), Expr::Integer(1)));
        variables.push(("true".to_string(), Expr::Boolean(true)));
        variables.push(("false".to_string(), Expr::Boolean(false)));
        let r = LocalEnvironment { variables, parent: None };
        assert(r@.vars =~= root_vars());
        r
    }

    /// A new, empty frame whose parent is `parent`.
    pub fn from_parent(parent: usize) -> (r: LocalEnvironment)
        ensures
            r@ == (FrameV { vars: Seq::empty(), parent: Some(parent) }),
    {
        let r = LocalEnvironment { variables: Vec::new(), parent: Some(parent) };
        assert(r@.vars =~= Seq::empty());
        r
    }

    pub fn return_parent(&self) -> (r: Option<usize>)
        ensures
            r == self.parent,
    {
        self.parent
    }

    /// The position of `name` in this frame, if it binds it.
    pub fn position(&self, name: &str) -> (r: Option<usize>)
        ensures
            r matches Some(k) ==> find_var(self@.vars, name@, 0) == Some(k as int)
                && k < self.variables.len() && self.variables@[k as int].0@ == name@,
            r is None ==> find_var(self@.vars, name@, 0) is None,
    {
        proof {
            lemma_find_var(self@.vars, name@, 0);
        }
        let mut i: usize = 0;
        while i < self.variables.len()
            invariant
                0 <= i <= self.variables.len(),
                find_var(self@.vars, name@, 0) == find_var(self@.vars, name@, i as int),
            decreases self.variables.len() - i,
        {
            if same_text(self.variables[i].0.as_str(), name) {
                return Some(i);
            }
            i = i + 1;
        }
        None
    }

    /// Binds `name` to `value` in this frame, replacing a binding of the same name.
    pub fn bind(&mut self, name: String, value: Expr)
        ensures
            final(self)@ == (FrameV { vars: bind_var(old(self)@.vars, name@, value@), parent: old(self)@.parent }),
    {
        match self.position(name.as_str()) {
            Some(k) => {
                let ghost n = name@;
                let ghost v = value@;
                self.variables.set(k, (name, value));
                assert(self@.vars =~= old(self)@.vars.update(k as int, (n, v)));
            },
            None => {
                let ghost n = name@;
                let ghost v = value@;
                self.variables.push((name, value));
                assert(self@.vars =~= old(self)@.vars.push((n, v)));
            },
        }
    }

    /// Resolves `binding` from frame `at` of the store `frames`.
    pub fn lookup(frames: &Vec<LocalEnvironment>, at: usize, binding: &str) -> (r: Option<Expr>)
        ensures
            r matches Some(e) ==> lookup_in(frames_view(frames@), at as int, binding@) == Some(e@),
            r is None ==> lookup_in(frames_view(frames@), at as int, binding@) is None,
    {
        let ghost fv = frames_view(frames@);
        let mut cur: usize = at;
        loop
            invariant
                fv == frames_view(frames@),
                lookup_in(fv, at as int, binding@) == lookup_in(fv, cur as int, binding@),
            decreases cur,
        {
            if cur >= frames.len() {
                return None;
            }
            let frame = &frames[cur];
            assert(fv[cur as int] == frame@);
            match frame.position(binding) {
                Some(k) => {
                    return Some(frame.variables[k].1.share());
                },
                None => match frame.parent {
                    Some(p) => {
                        if p < cur {
                            cur = p;
                        } else {
                            return None;
                        }
                    },
                    None => {
                        return None;
                    },
                },
            }
        }
    }

    /// Assigns `new_value` to the first frame of the chain from `at` that binds `identifier`.
    pub fn assignment(
        frames: &mut Vec<LocalEnvironment>,
        at: usize,
        identifier: &str,
        new_value: &Expr,
    ) -> (r: Result<Expr, InterpError>)
        ensures
            match assign_in(frames_view(old(frames)@), at as int, identifier@, new_value@) {
                Some(fs) => r matches Ok(e) && e == *new_value && frames_view(final(frames)@) == fs,
                None => r matches Err(e) && e@ == Fault::Undefined(identifier@)
                    && final(frames)@ == old(frames)@,
            },
    {
        let ghost fv = frames_view(frames@);
        let mut cur: usize = at;
        loop
            invariant
                fv == frames_view(old(frames)@),
                frames@ == old(frames)@,
                assign_in(fv, at as int, identifier@, new_value@) == assign_in(fv, cur as int, identifier@, new_value@),
            decreases cur,
        {
            if cur >= frames.len() {
                return Err(InterpError::UndefinedError { symbol: identifier.to_string() });
            }
            assert(fv[cur as int] == frames@[cur as int]@);
            match frames[cur].position(identifier) {
                Some(k) => {
                    let mut frame = LocalEnvironment { variables: Vec::new(), parent: None };
                    frames.set_and_swap(cur, &mut frame);
                    let ghost n = identifier@;
                    let ghost v = new_value@;
                    frame.variables.set(k, (identifier.to_string(), new_value.share()));
                    assert(frame@.vars =~= fv[cur as int].vars.update(k as int, (n, v)));
                    frames.set_and_swap(cur, &mut frame);
                    assert(frames_view(frames@) =~= fv.update(
                        cur as int,
                        FrameV { vars: fv[cur as int].vars.update(k as int, (n, v)), parent: fv[cur as int].parent },
                    ));
                    return Ok(new_value.share());
                },
                None => match frames[cur].parent {
                    Some(p) => {
                        if p < cur {
                            cur = p;
                        } else {
                            return Err(InterpError::UndefinedError { symbol: identifier.to_string() });
                        }
                    },
                    None => {
                        return Err(InterpError::UndefinedError { symbol: identifier.to_string() });
                    },
                },
            }
        }
    }
}

impl Environment {
    /// Appends one chunk of output.
    pub fn add_output(&mut self, output: &str)
        ensures
            output_view(final(self).output@) == output_view(old(self).output@).push(output@),
            final(self).lexical_scope == old(self).lexical_scope,
            final(self).store_output == old(self).store_output,
    {
        let s = output.to_string();
        let ghost sv = s@;
        self.output.push(s);
        assert(output_view(self.output@) =~= output_view(old(self).output@).push(sv));
    }
}

} // verus!
