use std::rc::Rc;
use vstd::prelude::*;

use crate::ast::Ast;
use crate::error::{Fault, InterpError};
use crate::text::same_text;

verus! {

/// A JSON value: the wire format of the syntax tree.
#[derive(Debug, PartialEq)]
pub enum Json {
    Null,
    Bool(bool),
    /// A number that fits in `i64`.
    Int(i64),
    /// Any other number, as its text.
    Number(String),
    Str(String),
    Array(Vec<Json>),
    /// The members of an object, in order; keys are unique.
    Object(Vec<(String, Json)>),
}

/// The value under `key` when `j` is an object that has it.
pub open spec fn field(j: Json, key: Seq<char>) -> Option<Json> {
    match j {
        Json::Object(m) => {
            let k = key_index(m@, key, 0);
            if 0 <= k < m@.len() {
                Some(m@[k].1)
            } else {
                None
            }
        },
        _ => None,
    }
}

/// The name in `{"Identifier": name}`.
pub open spec fn ident_name(j: Json) -> Option<Seq<char>> {
    match field(j, "Identifier"@) {
        Some(Json::Str(s)) => Some(s@),
        _ => None,
    }
}

/// The position of the first member of `m` at or after `i` whose key is `key`, or -1.
pub open spec fn key_index(m: Seq<(String, Json)>, key: Seq<char>, i: int) -> int
    decreases m.len() - i,
{
    if i < 0 || i >= m.len() {
        -1
    } else if m[i].0@ == key {
        i
    } else {
        key_index(m, key, i + 1)
    }
}

/// Every object in `j` has exactly one member: the wire form that the encoder writes, with no
/// extra members.
pub open spec fn canonical(j: Json) -> bool
    decreases j, 0int,
{
    match j {
        Json::Array(items) => all_canonical(items@),
        Json::Object(m) => m@.len() == 1 && canonical(m@[0].1),
        _ => true,
    }
}

pub open spec fn all_canonical(js: Seq<Json>) -> bool
    decreases js, 0int,
{
    forall|k: int| 0 <= k < js.len() ==> canonical(#[trigger] js[k])
}

/// The tree `a` is what the JSON value `j` encodes.
pub open spec fn ast_matches(j: Json, a: Ast) -> bool
    decreases j, 0int,
{
    match j {
        Json::Bool(b) => a == Ast::Boolean(b),
        Json::Int(n) => a == Ast::Integer(n),
        Json::Str(s) => a is String && a->String_0@ == s@,
        Json::Array(items) => a is List && all_match(items@, a->List_0@),
        Json::Object(m) => object_matches(m@, a),
        _ => false,
    }
}

/// The JSON values `js` encode the trees `asts`, one for one.
pub open spec fn all_match(js: Seq<Json>, asts: Seq<Ast>) -> bool
    decreases js, 0int,
{
    js.len() == asts.len() && forall|k: int| 0 <= k < js.len() ==> ast_matches(#[trigger] js[k], asts[k])
}

/// A pair `[{"Identifier": name}, value]` naming `name` and encoding `rhs`.
pub open spec fn binding_matches(v: Seq<Json>, name: String, rhs: Ast) -> bool
    decreases v, 0int,
{
    v.len() == 2 && ident_name(v[0]) == Some(name@) && ast_matches(v[1], rhs)
}

/// The object with members `m` encodes the form `a`: the first of the keys `Identifier`,
/// `Block`, `Lambda`, `Application`, `Cond`, `Let`, `Def`, `Assignment` that it has decides
/// the form (an `Identifier` counts only when it holds a string).
pub open spec fn object_matches(m: Seq<(String, Json)>, a: Ast) -> bool
    decreases m, 0int,
{
    let ki = key_index(m, "Identifier"@, 0);
    let kb = key_index(m, "Block"@, 0);
    let kl = key_index(m, "Lambda"@, 0);
    let ka = key_index(m, "Application"@, 0);
    let kc = key_index(m, "Cond"@, 0);
    let klet = key_index(m, "Let"@, 0);
    let kd = key_index(m, "Def"@, 0);
    let ks = key_index(m, "Assignment"@, 0);
    if 0 <= ki < m.len() && m[ki].1 is Str {
        a is Identifier && a->Identifier_0@ == m[ki].1->Str_0@
    } else if 0 <= kb < m.len() {
        m[kb].1 is Array && a is Block && all_match(m[kb].1->Array_0@, a->Block_0@)
    } else if 0 <= kl < m.len() {
        &&& m[kl].1 is Array
        &&& m[kl].1->Array_0@.len() == 2
        &&& a is Lambda
        &&& params_match(m[kl].1->Array_0@[0], a->Lambda_0@)
        &&& body_matches(m[kl].1->Array_0@[1], a->Lambda_1@)
    } else if 0 <= ka < m.len() {
        &&& m[ka].1 is Array
        &&& m[ka].1->Array_0@.len() >= 1
        &&& a is Application
        &&& ast_matches(m[ka].1->Array_0@[0], *a->Application_0)
        &&& all_match(m[ka].1->Array_0@.drop_first(), a->Application_1@)
    } else if 0 <= kc < m.len() {
        &&& m[kc].1 is Array
        &&& a is Cond
        &&& m[kc].1->Array_0@.len() == a->Cond_0@.len()
        &&& forall|k: int|
            0 <= k < a->Cond_0@.len() ==> clause_matches(#[trigger] m[kc].1->Array_0@[k], a->Cond_0@[k])
    } else if 0 <= klet < m.len() {
        m[klet].1 is Array && a is Let && binding_matches(m[klet].1->Array_0@, a->Let_0, *a->Let_1)
    } else if 0 <= kd < m.len() {
        m[kd].1 is Array && a is Def && binding_matches(m[kd].1->Array_0@, a->Def_0, *a->Def_1)
    } else if 0 <= ks < m.len() {
        m[ks].1 is Array && a is Assignment && binding_matches(
            m[ks].1->Array_0@,
            a->Assignment_0,
            *a->Assignment_1,
        )
    } else {
        false
    }
}

/// `{"Block": [...]}` encoding the body `body`.
pub open spec fn body_matches(j: Json, body: Seq<Ast>) -> bool
    decreases j, 0int,
{
    match j {
        Json::Object(m) => {
            let k = key_index(m@, "Block"@, 0);
            0 <= k < m@.len() && m@[k].1 is Array && all_match(m@[k].1->Array_0@, body)
        },
        _ => false,
    }
}

/// `{"Parameters": [{"Identifier": p}, ...]}` naming the parameters `ps`.
pub open spec fn params_match(j: Json, ps: Seq<String>) -> bool {
    &&& field(j, "Parameters"@) matches Some(Json::Array(items))
    &&& items@.len() == ps.len()
    &&& forall|k: int| 0 <= k < ps.len() ==> ident_name(#[trigger] items@[k]) == Some(ps[k]@)
}

/// `j` encodes no clause.
pub open spec fn encodes_no_clause(j: Json) -> bool {
    forall|c: (Ast, Ast)| !clause_matches(j, c)
}

/// `{"Clause": [condition, result]}` encoding the clause `c`.
pub open spec fn clause_matches(j: Json, c: (Ast, Ast)) -> bool
    decreases j, 0int,
{
    match j {
        Json::Object(m) => {
            let k = key_index(m@, "Clause"@, 0);
            &&& 0 <= k < m@.len()
            &&& m@[k].1 is Array
            &&& m@[k].1->Array_0@.len() == 2
            &&& ast_matches(m@[k].1->Array_0@[0], c.0)
            &&& ast_matches(m@[k].1->Array_0@[1], c.1)
        },
        _ => false,
    }
}

/// The tags of the wire format are distinct words.
pub proof fn lemma_tags_distinct()
    ensures
        "Identifier"@ != "Block"@,
        "Identifier"@ != "Lambda"@,
        "Identifier"@ != "Application"@,
        "Identifier"@ != "Cond"@,
        "Identifier"@ != "Let"@,
        "Identifier"@ != "Def"@,
        "Identifier"@ != "Assignment"@,
        "Block"@ != "Lambda"@,
        "Block"@ != "Application"@,
        "Block"@ != "Cond"@,
        "Block"@ != "Let"@,
        "Block"@ != "Def"@,
        "Block"@ != "Assignment"@,
        "Lambda"@ != "Application"@,
        "Lambda"@ != "Cond"@,
        "Lambda"@ != "Let"@,
        "Lambda"@ != "Def"@,
        "Lambda"@ != "Assignment"@,
        "Application"@ != "Cond"@,
        "Application"@ != "Let"@,
        "Application"@ != "Def"@,
        "Application"@ != "Assignment"@,
        "Cond"@ != "Let"@,
        "Cond"@ != "Def"@,
        "Cond"@ != "Assignment"@,
        "Let"@ != "Def"@,
        "Let"@ != "Assignment"@,
        "Def"@ != "Assignment"@,
{
    reveal_strlit("Identifier");
    reveal_strlit("Block");
    reveal_strlit("Lambda");
    reveal_strlit("Application");
    reveal_strlit("Cond");
    reveal_strlit("Let");
    reveal_strlit("Def");
    reveal_strlit("Assignment");
    assert("Let"@[0] != "Def"@[0]);
    assert("Identifier"@[0] != "Application"@[0]);
    assert("Identifier"@[0] != "Assignment"@[0]);
    assert("Application"@[1] != "Assignment"@[1]);
    assert("Lambda"@[1] != "Let"@[1]);
    assert("Block"@[0] != "Lambda"@[0]);
    assert("Block"@[0] != "Cond"@[0]);
    assert("Lambda"@[0] != "Cond"@[0]);
}

pub proof fn lemma_key_index(m: Seq<(String, Json)>, key: Seq<char>, i: int)
    requires
        0 <= i,
    ensures
        key_index(m, key, i) == -1 || (i <= key_index(m, key, i) < m.len() && m[key_index(m, key, i)].0@ == key),
    decreases m.len() - i,
{
    if i < m.len() && m[i].0@ != key {
        lemma_key_index(m, key, i + 1);
    }
}

/// The member of `m` under `key`, found as `key_index` finds it.
fn get_member<'a>(m: &'a Vec<(String, Json)>, key: &str) -> (r: Option<&'a Json>)
    ensures
        ({
            let k = key_index(m@, key@, 0);
            match r {
                Some(v) => 0 <= k < m@.len() && *v == m@[k].1,
                None => !(0 <= k < m@.len()),
            }
        }),
{
    proof {
        lemma_key_index(m@, key@, 0);
    }
    let mut i: usize = 0;
    while i < m.len()
        invariant
            0 <= i <= m.len(),
            key_index(m@, key@, 0) == key_index(m@, key@, i as int),
        decreases m.len() - i,
    {
        if same_text(m[i].0.as_str(), key) {
            return Some(&m[i].1);
        }
        i = i + 1;
    }
    None
}

/// The name of `{"Identifier": name}`.
fn ident_of(j: &Json) -> (r: Option<String>)
    ensures
        match r {
            Some(s) => ident_name(*j) == Some(s@),
            None => ident_name(*j) is None,
        },
{
    match j {
        Json::Object(m) => match get_member(m, "Identifier") {
            Some(Json::Str(s)) => Some(s.clone()),
            _ => None,
        },
        _ => None,
    }
}

/// The names of a list of `{"Identifier": name}` objects; `None` when one is not such an object.
fn params_from_json(plist: &Vec<Json>) -> (r: Option<Vec<String>>)
    ensures
        match r {
            Some(ns) => ns@.len() == plist@.len() && forall|q: int| 0 <= q < plist@.len() ==> ident_name(#[trigger] plist@[q]) == Some(ns@[q]@),
            None => exists|q: int| 0 <= q < plist@.len() && ident_name(plist@[q]) is None,
        },
{
    let mut names: Vec<String> = Vec::new();
    let mut i: usize = 0;
    while i < plist.len()
        invariant
            0 <= i <= plist.len(),
            names@.len() == i,
            forall|q: int| 0 <= q < i ==> ident_name(#[trigger] plist@[q]) == Some(names@[q]@),
        decreases plist.len() - i,
    {
        match ident_of(&plist[i]) {
            Some(name) => {
                names.push(name);
            },
            None => {
                return None;
            },
        }
        i = i + 1;
    }
    Some(names)
}

/// `{"Identifier": name}`.
fn ident_json(name: &String) -> (r: Json)
    ensures
        ident_name(r) == Some(name@),
        r matches Json::Object(m) && m@.len() == 1 && m@[0].0@ == "Identifier"@ && m@[0].1 == Json::Str(*name),
        forall|k: Seq<char>| #[trigger] key_index(r->Object_0@, k, 0) == (if "Identifier"@ == k { 0int } else { -1int }),
        canonical(r),
{
    let mut m: Vec<(String, Json)> = Vec::new();
    m.push(("Identifier".to_string(), Json::Str(name.clone())));
    proof {
        lemma_single_member(m@);
        assert(canonical(m@[0].1));
    }
    Json::Object(m)
}

/// `[{"Identifier": name}, value]`.
fn binding_json(name: &String, value: Json) -> (r: Json)
    ensures
        r matches Json::Array(v) && v@.len() == 2 && ident_name(v@[0]) == Some(name@) && v@[1] == value,
        canonical(value) ==> canonical(r),
{
    let mut v: Vec<Json> = Vec::new();
    v.push(ident_json(name));
    let ghost value_ok = canonical(value);
    v.push(value);
    proof {
        if value_ok {
            assert forall|k: int| 0 <= k < v@.len() implies canonical(#[trigger] v@[k]) by {}
            assert(all_canonical(v@));
        }
    }
    Json::Array(v)
}

proof fn lemma_single_member(m: Seq<(String, Json)>)
    requires
        m.len() == 1,
    ensures
        forall|key: Seq<char>| #[trigger] key_index(m, key, 0) == (if m[0].0@ == key { 0int } else { -1int }),
{
    assert forall|key: Seq<char>| #[trigger] key_index(m, key, 0) == (if m[0].0@ == key { 0int } else { -1int }) by {
        reveal_with_fuel(key_index, 2);
    }
}

/// An object with the single member `key: value`.
fn tagged(key: &str, value: Json) -> (r: Json)
    ensures
        r matches Json::Object(m) && m@.len() == 1 && m@[0].0@ == key@ && m@[0].1 == value,
        forall|k: Seq<char>| #[trigger] key_index(r->Object_0@, k, 0) == (if key@ == k { 0int } else { -1int }),
        canonical(r) == canonical(value),
{
    let mut m: Vec<(String, Json)> = Vec::new();
    m.push((key.to_string(), value));
    proof {
        lemma_single_member(m@);
    }
    Json::Object(m)
}

fn malformed(message: &str) -> (r: InterpError)
    ensures
        r is ParseError,
{
    InterpError::ParseError { message: message.to_string() }
}

impl Ast {
    /// The tree that a JSON value encodes. Fails exactly when it encodes none: with a type
    /// error for a number outside the `i64` range, else with a parse error.
    pub fn from_json(j: &Json) -> (r: Result<Ast, InterpError>)
        ensures
            match r {
                Ok(a) => ast_matches(*j, a),
                Err(e) => (e is ParseError || e is TypeError) && forall|a: Ast| !ast_matches(*j, a),
            },
            *j is Number ==> (r matches Err(e) && e is TypeError),
            (*j is Null || *j is Bool || *j is Int || *j is Str) ==> (r matches Err(e) ==> e is ParseError),
        decreases *j, 1int,
    {
        match j {
            Json::Null => Err(malformed("null is not an expression")),
            Json::Bool(b) => Ok(Ast::Boolean(*b)),
            Json::Int(n) => Ok(Ast::Integer(*n)),
            Json::Number(text) => Err(InterpError::TypeError { expected: "i64".to_string(), found: text.clone() }),
            Json::Str(s) => Ok(Ast::String(s.clone())),
            Json::Array(items) => {
                proof {
                    assert(decreases_to!(*j => j->Array_0@));
                }
                match Ast::from_json_items(items.as_slice()) {
                    Ok(v) => {
                        let a = Ast::List(v);
                        assert(ast_matches(*j, a));
                        Ok(a)
                    },
                    Err(e) => {
                        proof {
                            assert forall|a: Ast| !ast_matches(*j, a) by {
                                if a is List {
                                    assert(!all_match(items@, a->List_0@));
                                }
                            }
                        }
                        Err(e)
                    },
                }
            },
            Json::Object(m) => {
                proof {
                    assert(decreases_to!(*j => j->Object_0@));
                }
                let r = Ast::from_json_object(m);
                proof {
                    if r is Err {
                        assert forall|a: Ast| !ast_matches(*j, a) by {
                            assert(!object_matches(m@, a));
                        }
                    }
                }
                r
            },
        }
    }

    /// The trees that a sequence of JSON values encodes, one for one.
    pub fn from_json_items(items: &[Json]) -> (r: Result<Vec<Ast>, InterpError>)
        ensures
            match r {
                Ok(v) => all_match(items@, v@),
                Err(e) => (e is ParseError || e is TypeError) && forall|asts: Seq<Ast>| !all_match(items@, asts),
            },
        decreases items@, 0int,
    {
        let mut out: Vec<Ast> = Vec::new();
        let mut i: usize = 0;
        while i < items.len()
            invariant
                0 <= i <= items.len(),
                out@.len() == i,
                forall|k: int| 0 <= k < i ==> ast_matches(#[trigger] items@[k], out@[k]),
            decreases items.len() - i,
        {
            proof {
                assert(decreases_to!(items@ => items@[i as int]));
            }
            match Ast::from_json(&items[i]) {
                Ok(a) => {
                    out.push(a);
                },
                Err(e) => {
                    proof {
                        assert forall|asts: Seq<Ast>| !all_match(items@, asts) by {
                            if asts.len() == items@.len() {
                                assert(!ast_matches(items@[i as int], asts[i as int]));
                            }
                        }
                    }
                    return Err(e);
                },
            }
            i = i + 1;
        }
        Ok(out)
    }

    fn from_json_object(m: &Vec<(String, Json)>) -> (r: Result<Ast, InterpError>)
        ensures
            match r {
                Ok(a) => object_matches(m@, a),
                Err(e) => (e is ParseError || e is TypeError) && forall|a: Ast| !object_matches(m@, a),
            },
        decreases m@, 0int,
    {
        proof {
            lemma_key_index(m@, "Identifier"@, 0);
            lemma_key_index(m@, "Block"@, 0);
            lemma_key_index(m@, "Lambda"@, 0);
            lemma_key_index(m@, "Application"@, 0);
            lemma_key_index(m@, "Cond"@, 0);
            lemma_key_index(m@, "Let"@, 0);
            lemma_key_index(m@, "Def"@, 0);
            lemma_key_index(m@, "Assignment"@, 0);
        }
        if let Some(Json::Str(name)) = get_member(m, "Identifier") {
            return Ok(Ast::Identifier(name.clone()));
        }
        if let Some(v) = get_member(m, "Block") {
            let ghost k = key_index(m@, "Block"@, 0);
            return match v {
                Json::Array(items) => {
                    proof {
                        assert(decreases_to!(m@ => m@[k].1->Array_0@));
                    }
                    match Ast::from_json_items(items.as_slice()) {
                        Ok(es) => Ok(Ast::Block(es)),
                        Err(e) => {
                            proof {
                                assert forall|a: Ast| !object_matches(m@, a) by {
                                    if a is Block {
                                        assert(!all_match(items@, a->Block_0@));
                                    }
                                }
                            }
                            Err(e)
                        },
                    }
                },
                _ => Err(malformed("Expected expressions within block.")),
            };
        }
        if let Some(v) = get_member(m, "Lambda") {
            let ghost k = key_index(m@, "Lambda"@, 0);
            let parts = match v {
                Json::Array(p) => p,
                _ => {
                    return Err(malformed("Function should have an associated parameters list and block."));
                },
            };
            if parts.len() != 2 {
                return Err(malformed("Function should have an associated parameters list and block."));
            }
            let plist = match &parts[0] {
                Json::Object(pm) => match get_member(pm, "Parameters") {
                    Some(Json::Array(items)) => items,
                    _ => {
                        return Err(malformed("Parameters list is missing."));
                    },
                },
                _ => {
                    return Err(malformed("Parameters list is missing."));
                },
            };
            let names = match params_from_json(plist) {
                Some(ns) => ns,
                None => {
                    proof {
                        assert forall|a: Ast| !object_matches(m@, a) by {
                            if a is Lambda && params_match(parts@[0], a->Lambda_0@) {
                                let q = choose|q: int| 0 <= q < plist@.len() && ident_name(plist@[q]) is None;
                                assert(ident_name(plist@[q]) == Some(a->Lambda_0@[q]@));
                            }
                        }
                    }
                    return Err(malformed("All parameters must be an identifier."));
                },
            };
            let body_items = match &parts[1] {
                Json::Object(bm) => match get_member(bm, "Block") {
                    Some(Json::Array(items)) => {
                        proof {
                            let bk = key_index(parts@[1]->Object_0@, "Block"@, 0);
                            assert(decreases_to!(m@ => m@[k].1->Array_0@[1]->Object_0@[bk].1->Array_0@));
                        }
                        items
                    },
                    _ => {
                        return Err(malformed("Function should contain a block."));
                    },
                },
                _ => {
                    return Err(malformed("Function should contain a block."));
                },
            };
            let body = match Ast::from_json_items(body_items.as_slice()) {
                Ok(b) => b,
                Err(e) => {
                    proof {
                        assert forall|a: Ast| !object_matches(m@, a) by {
                            if a is Lambda {
                                assert(!all_match(body_items@, a->Lambda_1@));
                            }
                        }
                    }
                    return Err(e);
                },
            };
            let a = Ast::Lambda(Rc::new(names), Rc::new(body));
            assert(params_match(parts@[0], a->Lambda_0@));
            return Ok(a);
        }
        if let Some(v) = get_member(m, "Application") {
            let ghost k = key_index(m@, "Application"@, 0);
            let parts = match v {
                Json::Array(p) => p,
                _ => {
                    return Err(malformed("Expected function and arguments."));
                },
            };
            if parts.len() == 0 {
                return Err(malformed("Function application on nothing."));
            }
            proof {
                assert(decreases_to!(m@ => m@[k].1->Array_0@[0]));
                assert(decreases_to!(m@ => m@[k].1->Array_0@));
            }
            let head = match Ast::from_json(&parts[0]) {
                Ok(h) => h,
                Err(e) => {
                    proof {
                        assert forall|a: Ast| !object_matches(m@, a) by {
                            if a is Application {
                                assert(!ast_matches(parts@[0], *a->Application_0));
                            }
                        }
                    }
                    return Err(e);
                },
            };
            let args = match Ast::tail_from_json(parts.as_slice()) {
                Ok(args) => args,
                Err(e) => {
                    proof {
                        assert forall|a: Ast| !object_matches(m@, a) by {
                            if a is Application {
                                assert(!all_match(parts@.drop_first(), a->Application_1@));
                            }
                        }
                    }
                    return Err(e);
                },
            };
            return Ok(Ast::Application(Box::new(head), args));
        }
        if let Some(v) = get_member(m, "Cond") {
            let ghost k = key_index(m@, "Cond"@, 0);
            let parts = match v {
                Json::Array(p) => p,
                _ => {
                    return Err(malformed("Expected a list of clauses."));
                },
            };
            proof {
                assert(decreases_to!(m@ => m@[k].1->Array_0@));
            }
            return match Ast::clauses_from_json(parts.as_slice()) {
                Ok(clauses) => Ok(Ast::Cond(clauses)),
                Err(e) => {
                    proof {
                        assert forall|a: Ast| !object_matches(m@, a) by {
                            if a is Cond && parts@.len() == a->Cond_0@.len() {
                                let q = choose|q: int| 0 <= q < parts@.len() && #[trigger] encodes_no_clause(parts@[q]);
                                assert(!clause_matches(parts@[q], a->Cond_0@[q]));
                            }
                        }
                    }
                    Err(e)
                },
            };
        }
        if let Some(v) = get_member(m, "Let") {
            proof {
                let k = key_index(m@, "Let"@, 0);
                assert(decreases_to!(m@ => m@[k].1));
            }
            return match Ast::binding_from_json(v) {
                Ok((name, rhs)) => Ok(Ast::Let(name, Box::new(rhs))),
                Err(e) => {
                    proof {
                        assert forall|a: Ast| !object_matches(m@, a) by {
                            if a is Let {
                                assert(!(v is Array && binding_matches(v->Array_0@, a->Let_0, *a->Let_1)));
                            }
                        }
                    }
                    Err(e)
                },
            };
        }
        if let Some(v) = get_member(m, "Def") {
            proof {
                let k = key_index(m@, "Def"@, 0);
                assert(decreases_to!(m@ => m@[k].1));
            }
            return match Ast::binding_from_json(v) {
                Ok((name, rhs)) => Ok(Ast::Def(name, Box::new(rhs))),
                Err(e) => {
                    proof {
                        assert forall|a: Ast| !object_matches(m@, a) by {
                            if a is Def {
                                assert(!(v is Array && binding_matches(v->Array_0@, a->Def_0, *a->Def_1)));
                            }
                        }
                    }
                    Err(e)
                },
            };
        }
        if let Some(v) = get_member(m, "Assignment") {
            proof {
                let k = key_index(m@, "Assignment"@, 0);
                assert(decreases_to!(m@ => m@[k].1));
            }
            return match Ast::binding_from_json(v) {
                Ok((name, rhs)) => Ok(Ast::Assignment(name, Box::new(rhs))),
                Err(e) => {
                    proof {
                        assert forall|a: Ast| !object_matches(m@, a) by {
                            if a is Assignment {
                                assert(!(v is Array && binding_matches(v->Array_0@, a->Assignment_0, *a->Assignment_1)));
                            }
                        }
                    }
                    Err(e)
                },
            };
        }
        Err(malformed("Found JSON Object in AST but it does not contain a known keyword"))
    }

    /// The trees that `parts[1..]` encode, one for one.
    fn tail_from_json(parts: &[Json]) -> (r: Result<Vec<Ast>, InterpError>)
        requires
            parts@.len() >= 1,
        ensures
            match r {
                Ok(v) => all_match(parts@.drop_first(), v@),
                Err(e) => (e is ParseError || e is TypeError) && forall|asts: Seq<Ast>| !all_match(parts@.drop_first(), asts),
            },
        decreases parts@, 0int,
    {
        let mut args: Vec<Ast> = Vec::new();
        let mut i: usize = 1;
        while i < parts.len()
            invariant
                1 <= i <= parts.len(),
                args@.len() == i - 1,
                forall|q: int| 0 <= q < i - 1 ==> ast_matches(#[trigger] parts@.drop_first()[q], args@[q]),
            decreases parts.len() - i,
        {
            proof {
                assert(decreases_to!(parts@ => parts@[i as int]));
            }
            match Ast::from_json(&parts[i]) {
                Ok(a) => {
                    args.push(a);
                },
                Err(e) => {
                    proof {
                        assert forall|asts: Seq<Ast>| !all_match(parts@.drop_first(), asts) by {
                            if asts.len() == parts@.len() - 1 {
                                assert(!ast_matches(parts@.drop_first()[i - 1], asts[i - 1]));
                            }
                        }
                    }
                    return Err(e);
                },
            }
            i = i + 1;
        }
        Ok(args)
    }

    /// The clauses that a sequence of `{"Clause": [condition, result]}` objects encodes.
    fn clauses_from_json(parts: &[Json]) -> (r: Result<Vec<(Ast, Ast)>, InterpError>)
        ensures
            match r {
                Ok(cs) => cs@.len() == parts@.len() && forall|q: int| 0 <= q < parts@.len() ==> clause_matches(#[trigger] parts@[q], cs@[q]),
                Err(e) => (e is ParseError || e is TypeError) && exists|q: int| 0 <= q < parts@.len() && #[trigger] encodes_no_clause(parts@[q]),
            },
        decreases parts@, 0int,
    {
        let mut clauses: Vec<(Ast, Ast)> = Vec::new();
        let mut i: usize = 0;
        while i < parts.len()
            invariant
                0 <= i <= parts.len(),
                clauses@.len() == i,
                forall|q: int| 0 <= q < i ==> clause_matches(#[trigger] parts@[q], clauses@[q]),
            decreases parts.len() - i,
        {
            let ghost q = i as int;
            let pair = match &parts[i] {
                Json::Object(cm) => {
                    proof {
                        lemma_key_index(cm@, "Clause"@, 0);
                    }
                    match get_member(cm, "Clause") {
                        Some(Json::Array(pair)) => pair,
                        _ => {
                            proof {
                                assert forall|c: (Ast, Ast)| !clause_matches(parts@[q], c) by {}
                                assert(encodes_no_clause(parts@[q]));
                            }
                            return Err(malformed("Expected a Clause."));
                        },
                    }
                },
                _ => {
                    proof {
                        assert forall|c: (Ast, Ast)| !clause_matches(parts@[q], c) by {}
                        assert(encodes_no_clause(parts@[q]));
                    }
                    return Err(malformed("Expected a Clause."));
                },
            };
            if pair.len() != 2 {
                proof {
                    assert forall|c: (Ast, Ast)| !clause_matches(parts@[q], c) by {}
                    assert(encodes_no_clause(parts@[q]));
                }
                return Err(malformed("Clause did not contain both a condition and expression."));
            }
            proof {
                let cm = parts@[q]->Object_0;
                let ck = key_index(cm@, "Clause"@, 0);
                let pr = cm@[ck].1->Array_0;
                assert(decreases_to!(parts@ => parts@[q]));
                assert(decreases_to!(parts@[q] => cm));
                assert(decreases_to!(cm => cm@));
                assert(decreases_to!(cm@ => cm@[ck]));
                assert(decreases_to!(cm@[ck] => cm@[ck].1));
                assert(decreases_to!(cm@[ck].1 => pr));
                assert(decreases_to!(pr => pr@));
                assert(decreases_to!(pr@ => pr@[0]));
                assert(decreases_to!(pr@ => pr@[1]));
                assert(decreases_to!(parts@ => pr@[0]));
                assert(decreases_to!(parts@ => pr@[1]));
            }
            let c = match Ast::from_json(&pair[0]) {
                Ok(c) => c,
                Err(e) => {
                    proof {
                        assert forall|c: (Ast, Ast)| !clause_matches(parts@[q], c) by {
                            assert(!ast_matches(pair@[0], c.0));
                        }
                        assert(encodes_no_clause(parts@[q]));
                    }
                    return Err(e);
                },
            };
            let r = match Ast::from_json(&pair[1]) {
                Ok(r) => r,
                Err(e) => {
                    proof {
                        assert forall|c: (Ast, Ast)| !clause_matches(parts@[q], c) by {
                            assert(!ast_matches(pair@[1], c.1));
                        }
                        assert(encodes_no_clause(parts@[q]));
                    }
                    return Err(e);
                },
            };
            clauses.push((c, r));
            i = i + 1;
        }
        Ok(clauses)
    }

    /// The name and value of a binding form: `[{"Identifier": name}, value]`.
    fn binding_from_json(v: &Json) -> (r: Result<(String, Ast), InterpError>)
        ensures
            match r {
                Ok((name, rhs)) => v is Array && binding_matches(v->Array_0@, name, rhs),
                Err(e) => (e is ParseError || e is TypeError) && forall|name: String, rhs: Ast|
                    !(v is Array && #[trigger] binding_matches(v->Array_0@, name, rhs)),
            },
        decreases *v, 2int,
    {
        let parts = match v {
            Json::Array(p) => p,
            _ => {
                return Err(malformed("A binding expects an identifier and a value to be bound."));
            },
        };
        if parts.len() != 2 {
            return Err(malformed("A binding expects an identifier and a value to be bound."));
        }
        let name = match ident_of(&parts[0]) {
            Some(n) => n,
            None => {
                return Err(malformed("Expecting an identifier in a binding."));
            },
        };
        proof {
            assert(decreases_to!(*v => v->Array_0@[1]));
        }
        match Ast::from_json(&parts[1]) {
            Ok(rhs) => Ok((name, rhs)),
            Err(e) => {
                proof {
                    assert forall|n: String, rhs: Ast| !(v is Array && #[trigger] binding_matches(v->Array_0@, n, rhs)) by {
                        assert(!ast_matches(parts@[1], rhs));
                    }
                }
                Err(e)
            },
        }
    }

    /// The JSON encoding of this tree.
    pub fn to_json(&self) -> (r: Json)
        ensures
            self is List || self is String || self is Boolean || self is Integer || self is Identifier
                || self is Block || self is Lambda || self is Application || self is Cond || self is Let
                || self is Def || self is Assignment,
            ast_matches(r, *self),
            canonical(r),
        decreases *self,
    {
        proof {
            lemma_tags_distinct();
        }
        match self {
            Ast::Integer(n) => Json::Int(*n),
            Ast::String(s) => Json::Str(s.clone()),
            Ast::Boolean(b) => Json::Bool(*b),
            Ast::Identifier(name) => {
                let r = ident_json(name);
                assert(object_matches(r->Object_0@, *self));
                r
            },
            Ast::List(items) => Json::Array(Ast::items_to_json(items.as_slice())),
            Ast::Block(items) => {
                let r = tagged("Block", Json::Array(Ast::items_to_json(items.as_slice())));
                assert(object_matches(r->Object_0@, *self));
                r
            },
            Ast::Lambda(params, body) => {
                let mut ps: Vec<Json> = Vec::new();
                let mut i: usize = 0;
                while i < params.len()
                    invariant
                        0 <= i <= params.len(),
                        ps@.len() == i,
                        forall|k: int| 0 <= k < i ==> ident_name(#[trigger] ps@[k]) == Some(params@[k]@),
                        forall|k: int| 0 <= k < i ==> canonical(#[trigger] ps@[k]),
                    decreases params.len() - i,
                {
                    ps.push(ident_json(&params[i]));
                    i = i + 1;
                }
                let ghost psv = ps@;
                let pj = tagged("Parameters", Json::Array(ps));
                assert(canonical(Json::Array(ps)) || !all_canonical(psv));
                proof {
                    assert(decreases_to!(*self => self->Lambda_1@));
                }
                let bj = tagged("Block", Json::Array(Ast::items_to_json(body.as_slice())));
                let mut parts: Vec<Json> = Vec::new();
                parts.push(pj);
                parts.push(bj);
                assert(all_canonical(parts@));
                let r = tagged("Lambda", Json::Array(parts));
                assert(object_matches(r->Object_0@, *self));
                r
            },
            Ast::Application(head, args) => {
                let mut parts: Vec<Json> = Vec::new();
                parts.push(head.to_json());
                let mut rest = Ast::items_to_json(args.as_slice());
                let ghost rv = rest@;
                parts.append(&mut rest);
                let ghost p = parts@;
                assert(p.drop_first() =~= rv);
                assert forall|k: int| 0 <= k < p.len() implies canonical(#[trigger] p[k]) by {
                    if k > 0 {
                        assert(p[k] == rv[k - 1]);
                    }
                }
                assert(all_canonical(p));
                let r = tagged("Application", Json::Array(parts));
                assert(object_matches(r->Object_0@, *self));
                r
            },
            Ast::Cond(clauses) => {
                let mut cs: Vec<Json> = Vec::new();
                let mut i: usize = 0;
                while i < clauses.len()
                    invariant
                        0 <= i <= clauses.len(),
                        cs@.len() == i,
                        *self == Ast::Cond(*clauses),
                        forall|k: int| 0 <= k < i ==> clause_matches(#[trigger] cs@[k], clauses@[k]),
                        forall|k: int| 0 <= k < i ==> canonical(#[trigger] cs@[k]),
                    decreases clauses.len() - i,
                {
                    proof {
                        assert(decreases_to!(*self => self->Cond_0@[i as int].0));
                        assert(decreases_to!(*self => self->Cond_0@[i as int].1));
                    }
                    let mut pair: Vec<Json> = Vec::new();
                    pair.push(clauses[i].0.to_json());
                    pair.push(clauses[i].1.to_json());
                    assert(all_canonical(pair@));
                    cs.push(tagged("Clause", Json::Array(pair)));
                    i = i + 1;
                }
                assert(all_canonical(cs@));
                let r = tagged("Cond", Json::Array(cs));
                assert(object_matches(r->Object_0@, *self));
                r
            },
            Ast::Let(name, rhs) => {
                let r = tagged("Let", binding_json(name, rhs.to_json()));
                assert(object_matches(r->Object_0@, *self));
                r
            },
            Ast::Def(name, rhs) => {
                let r = tagged("Def", binding_json(name, rhs.to_json()));
                assert(object_matches(r->Object_0@, *self));
                r
            },
            Ast::Assignment(name, rhs) => {
                let r = tagged("Assignment", binding_json(name, rhs.to_json()));
                assert(object_matches(r->Object_0@, *self));
                r
            },
        }
    }

    /// The JSON encodings of trees, one for one.
    pub fn items_to_json(items: &[Ast]) -> (r: Vec<Json>)
        ensures
            all_match(r@, items@),
            all_canonical(r@),
        decreases items@,
    {
        let mut out: Vec<Json> = Vec::new();
        let mut i: usize = 0;
        while i < items.len()
            invariant
                0 <= i <= items.len(),
                out@.len() == i,
                forall|k: int| 0 <= k < i ==> ast_matches(#[trigger] out@[k], items@[k]),
                forall|k: int| 0 <= k < i ==> canonical(#[trigger] out@[k]),
            decreases items.len() - i,
        {
            out.push(items[i].to_json());
            i = i + 1;
        }
        out
    }
}

} // verus!
