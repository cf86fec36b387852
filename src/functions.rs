use std::rc::Rc;
use vstd::prelude::*;
use vstd::math::abs;
use vstd::relations::sorted_by;

use crate::environment::{output_view, Environment};
use crate::error::{Fault, InterpError};
use crate::text::{same_text};
use crate::value::{
    builtin_name, debug_of, names_view, display_of, lemma_vals_of, lemma_vals_of_is_vals, val_of, vals, vals_of,
    Builtin, Expr, Function, Val,
};

verus! {

/// What `str::to_uppercase` makes of a string.
pub uninterp spec fn upper_of(s: Seq<char>) -> Seq<char>;

/// What `str::to_lowercase` makes of a string.
pub uninterp spec fn lower_of(s: Seq<char>) -> Seq<char>;

/// Relies on `str::to_uppercase`: the Unicode upper case of the text, a function of its
/// characters alone.
#[verifier::external_body]
fn uppercase(s: &str) -> (r: String)
    ensures
        r@ == upper_of(s@),
{
    s.to_uppercase()
}

/// Relies on `str::to_lowercase`: the Unicode lower case of the text, a function of its
/// characters alone.
#[verifier::external_body]
fn lowercase(s: &str) -> (r: String)
    ensures
        r@ == lower_of(s@),
{
    s.to_lowercase()
}

/// `needle` occurs in `hay` as a run of consecutive characters.
pub open spec fn has_substring(hay: Seq<char>, needle: Seq<char>) -> bool {
    exists|i: int|
        0 <= i && i + needle.len() <= hay.len() && #[trigger] hay.subrange(i, i + needle.len())
            == needle
}

/// Relies on `str::contains` with a `&str` pattern: true when `needle` occurs in `hay`.
#[verifier::external_body]
fn text_contains(hay: &str, needle: &str) -> (r: bool)
    ensures
        r == has_substring(hay@, needle@),
{
    hay.contains(needle)
}

pub open spec fn int_leq() -> spec_fn(i64, i64) -> bool {
    |x: i64, y: i64| x <= y
}

/// Relies on `slice::sort_unstable` on `i64`: the same integers, in ascending order.
#[verifier::external_body]
fn sort_ints(v: &mut Vec<i64>)
    ensures
        final(v)@ == old(v)@.sort_by(int_leq()),
{
    v.sort_unstable()
}

/// `a` comes before or equals `b`, comparing characters by code point from the left, a prefix
/// first.
pub open spec fn text_leq(a: Seq<char>, b: Seq<char>) -> bool
    decreases a.len(),
{
    if a.len() == 0 {
        true
    } else if b.len() == 0 {
        false
    } else if a[0] != b[0] {
        (a[0] as u32) < (b[0] as u32)
    } else {
        text_leq(a.drop_first(), b.drop_first())
    }
}

pub open spec fn text_order() -> spec_fn(Seq<char>, Seq<char>) -> bool {
    |a: Seq<char>, b: Seq<char>| text_leq(a, b)
}

/// Relies on `slice::sort_unstable` on `String`: ascending in `String`'s order, which compares
/// the UTF-8 bytes from the left and so orders characters by code point, a prefix first.
#[verifier::external_body]
fn sort_texts(v: &mut Vec<String>)
    ensures
        names_view(final(v)@) == names_view(old(v)@).sort_by(text_order()),
{
    v.sort_unstable()
}

pub open spec fn in_i64(x: int) -> bool {
    i64::MIN <= x <= i64::MAX
}

pub open spec fn overflow() -> Fault {
    Fault::Runtime("integer overflow"@)
}

/// The sum of `s[..n]`, added from the left; `None` once a running sum leaves the `i64` range.
pub open spec fn checked_sum(s: Seq<i64>, n: int) -> Option<i64>
    decreases n,
{
    if n <= 0 {
        Some(0)
    } else {
        match checked_sum(s, n - 1) {
            Some(t) => if in_i64(t + s[n - 1]) {
                Some((t + s[n - 1]) as i64)
            } else {
                None
            },
            None => None,
        }
    }
}

/// The product of `s[..n]`, multiplied from the left; `None` once a running product leaves
/// the `i64` range.
pub open spec fn checked_product(s: Seq<i64>, n: int) -> Option<i64>
    decreases n,
{
    if n <= 0 {
        Some(1)
    } else {
        match checked_product(s, n - 1) {
            Some(t) => if in_i64(t * s[n - 1]) {
                Some((t * s[n - 1]) as i64)
            } else {
                None
            },
            None => None,
        }
    }
}

/// `s[0]` minus each of `s[1..n]` in turn (zero when `n` is zero); `None` once a running
/// difference leaves the `i64` range.
pub open spec fn checked_difference(s: Seq<i64>, n: int) -> Option<i64>
    decreases n,
{
    if n <= 0 {
        Some(0)
    } else if n == 1 {
        Some(s[0])
    } else {
        match checked_difference(s, n - 1) {
            Some(t) => if in_i64(t - s[n - 1]) {
                Some((t - s[n - 1]) as i64)
            } else {
                None
            },
            None => None,
        }
    }
}

/// Division truncated toward zero.
pub open spec fn trunc_div(a: int, b: int) -> int {
    let q: int = (abs(a) / abs(b)) as int;
    if (a < 0) != (b < 0) {
        -q
    } else {
        q
    }
}

/// The remainder of `trunc_div`: it takes the sign of the dividend.
pub open spec fn trunc_rem(a: int, b: int) -> int {
    a - b * trunc_div(a, b)
}

/// The index of the first value at or after `i` that is not an integer.
pub open spec fn first_non_int(a: Seq<Val>, i: int) -> Option<int>
    decreases a.len() - i,
{
    if i < 0 || i >= a.len() {
        None
    } else if a[i] is Int {
        first_non_int(a, i + 1)
    } else {
        Some(i)
    }
}

/// The index of the first value at or after `i` that is not a string.
pub open spec fn first_non_str(a: Seq<Val>, i: int) -> Option<int>
    decreases a.len() - i,
{
    if i < 0 || i >= a.len() {
        None
    } else if a[i] is Str {
        first_non_str(a, i + 1)
    } else {
        Some(i)
    }
}

pub open spec fn int_args(a: Seq<Val>) -> Seq<i64> {
    Seq::new(a.len(), |k: int| a[k]->Int_0)
}

pub open spec fn str_args(a: Seq<Val>) -> Seq<Seq<char>> {
    Seq::new(a.len(), |k: int| a[k]->Str_0)
}

pub open spec fn type_fault(expected: Seq<char>, v: Val) -> Fault {
    Fault::Type(expected, display_of(v))
}

pub open spec fn arity_fault(op: Builtin, expected: usize, got: int) -> Fault {
    Fault::Argument(builtin_name(op), expected, got as usize)
}

/// The integers of `a`, or the type error for its first value that is not one.
pub open spec fn ints_or_fault(a: Seq<Val>) -> Result<Seq<i64>, Fault> {
    match first_non_int(a, 0) {
        Some(k) => Err(type_fault("integer"@, a[k])),
        None => Ok(int_args(a)),
    }
}

/// The strings of `a`, or the type error for its first value that is not one.
pub open spec fn strs_or_fault(a: Seq<Val>) -> Result<Seq<Seq<char>>, Fault> {
    match first_non_str(a, 0) {
        Some(k) => Err(type_fault("string"@, a[k])),
        None => Ok(str_args(a)),
    }
}

pub open spec fn concat_all(s: Seq<Seq<char>>, n: int) -> Seq<char>
    decreases n,
{
    if n <= 0 || n > s.len() {
        Seq::empty()
    } else {
        concat_all(s, n - 1) + s[n - 1]
    }
}

/// Equality of values: integers, booleans and strings by value, lists element by element,
/// built-ins by operation. Closures are never equal.
pub open spec fn same_value(x: Val, y: Val) -> bool
    decreases x, 0int,
{
    match (x, y) {
        (Val::Int(a), Val::Int(b)) => a == b,
        (Val::Bool(a), Val::Bool(b)) => a == b,
        (Val::Str(a), Val::Str(b)) => a == b,
        (Val::List(a), Val::List(b)) => a.len() == b.len() && same_values(a, b, a.len() as int),
        (Val::Builtin(_, a), Val::Builtin(_, b)) => a == b,
        _ => false,
    }
}

/// The first `n` values of `a` and `b` are pairwise equal.
pub open spec fn same_values(a: Seq<Val>, b: Seq<Val>, n: int) -> bool
    decreases a, n,
{
    if n <= 0 || n > a.len() || n > b.len() {
        true
    } else {
        same_values(a, b, n - 1) && same_value(a[n - 1], b[n - 1])
    }
}

pub open spec fn from_checked(r: Option<i64>) -> Result<Val, Fault> {
    match r {
        Some(t) => Ok(Val::Int(t)),
        None => Err(overflow()),
    }
}

pub open spec fn two_ints(op: Builtin, a: Seq<Val>) -> Result<(i64, i64), Fault> {
    match ints_or_fault(a) {
        Err(f) => Err(f),
        Ok(s) => if s.len() != 2 {
            Err(arity_fault(op, 2, s.len() as int))
        } else {
            Ok((s[0], s[1]))
        },
    }
}

pub open spec fn division(op: Builtin, a: Seq<Val>) -> Result<Val, Fault> {
    match two_ints(op, a) {
        Err(f) => Err(f),
        Ok((x, y)) => if y == 0 {
            Err(Fault::Runtime("division by zero"@))
        } else if x == i64::MIN && y == -1 {
            Err(overflow())
        } else if op == Builtin::Div {
            Ok(Val::Int(trunc_div(x as int, y as int) as i64))
        } else {
            Ok(Val::Int(trunc_rem(x as int, y as int) as i64))
        },
    }
}

/// The upper case of `t` for `to_uppercase`, else its lower case.
pub open spec fn case_of(op: Builtin, t: Seq<char>) -> Seq<char> {
    if op == Builtin::ToUppercase {
        upper_of(t)
    } else {
        lower_of(t)
    }
}

pub open spec fn case_map(op: Builtin, a: Seq<Val>) -> Result<Val, Fault> {
    if a.len() == 0 {
        Err(arity_fault(op, 1, 0))
    } else {
        match strs_or_fault(a) {
            Err(e) => Err(e),
            Ok(s) => if a.len() == 1 {
                Ok(Val::Str(case_of(op, s[0])))
            } else {
                Ok(Val::List(Seq::new(s.len(), |k: int| Val::Str(case_of(op, s[k])))))
            },
        }
    }
}

/// The list and index that `get` and `set` work on, or why there are none.
pub open spec fn list_index(op: Builtin, a: Seq<Val>, arity: usize) -> Result<(Seq<Val>, int), Fault> {
    if a.len() != arity {
        Err(arity_fault(op, arity, a.len() as int))
    } else if !(a[1] is Int) {
        Err(type_fault("integer"@, a[1]))
    } else if !(a[0] is List) {
        Err(type_fault("list"@, a[0]))
    } else if !(0 <= a[1]->Int_0 < a[0]->List_0.len()) {
        Err(Fault::Runtime("index out of bounds"@))
    } else {
        Ok((a[0]->List_0, a[1]->Int_0 as int))
    }
}

/// What a built-in returns on the argument values `a`.
pub open spec fn builtin_result(op: Builtin, a: Seq<Val>) -> Result<Val, Fault> {
    match op {
        Builtin::Print | Builtin::Println | Builtin::Dbg => Ok(Val::Bool(true)),
        Builtin::Add => match ints_or_fault(a) {
            Err(f) => Err(f),
            Ok(s) => from_checked(checked_sum(s, s.len() as int)),
        },
        Builtin::Sub => match ints_or_fault(a) {
            Err(f) => Err(f),
            Ok(s) => from_checked(checked_difference(s, s.len() as int)),
        },
        Builtin::Mul => match ints_or_fault(a) {
            Err(f) => Err(f),
            Ok(s) => from_checked(checked_product(s, s.len() as int)),
        },
        Builtin::Div | Builtin::Rem => division(op, a),
        Builtin::Zero => match ints_or_fault(a) {
            Err(f) => Err(f),
            Ok(s) => if s.len() != 1 {
                Err(arity_fault(op, 1, s.len() as int))
            } else {
                Ok(Val::Bool(s[0] == 0))
            },
        },
        Builtin::Equal => if a.len() == 0 {
            Ok(Val::Bool(false))
        } else {
            Ok(Val::Bool(forall|k: int| 0 <= k < a.len() ==> #[trigger] same_value(a[k], a[0])))
        },
        Builtin::Greater => match two_ints(op, a) {
            Err(f) => Err(f),
            Ok((x, y)) => Ok(Val::Bool(x > y)),
        },
        Builtin::Less => match two_ints(op, a) {
            Err(f) => Err(f),
            Ok((x, y)) => Ok(Val::Bool(x < y)),
        },
        Builtin::ToUppercase | Builtin::ToLowercase => case_map(op, a),
        Builtin::Concat => match strs_or_fault(a) {
            Err(f) => Err(f),
            Ok(s) => Ok(Val::Str(concat_all(s, s.len() as int))),
        },
        Builtin::Contains => match strs_or_fault(a) {
            Err(f) => Err(f),
            Ok(s) => if s.len() < 2 {
                Err(arity_fault(op, 2, s.len() as int))
            } else {
                Ok(Val::Bool(forall|k: int| 1 <= k < s.len() ==> has_substring(#[trigger] s[k], s[0])))
            },
        },
        Builtin::Length => if a.len() != 1 {
            Err(arity_fault(op, 1, a.len() as int))
        } else {
            match a[0] {
                Val::Str(s) => Ok(Val::Int(vstd::utf8::encode_utf8(s).len() as usize as i64)),
                Val::List(l) => Ok(Val::Int(l.len() as i64)),
                _ => Err(type_fault("string or list"@, a[0])),
            }
        },
        Builtin::AsList => Ok(Val::List(a)),
        Builtin::ListGet => match list_index(op, a, 2) {
            Err(f) => Err(f),
            Ok((l, i)) => Ok(l[i]),
        },
        Builtin::ListSet => match list_index(op, a, 3) {
            Err(f) => Err(f),
            Ok((l, i)) => Ok(Val::List(l.update(i, a[2]))),
        },
        Builtin::Sort => if a.len() != 1 {
            Err(arity_fault(op, 1, a.len() as int))
        } else if !(a[0] is List) {
            Err(type_fault("list"@, a[0]))
        } else if a[0]->List_0.len() > 0 && a[0]->List_0[0] is Str {
            match strs_or_fault(a[0]->List_0) {
                Err(f) => Err(f),
                Ok(s) => Ok(Val::List(s.sort_by(text_order()).map_values(|x: Seq<char>| Val::Str(x)))),
            }
        } else {
            match ints_or_fault(a[0]->List_0) {
                Err(f) => Err(f),
                Ok(s) => Ok(Val::List(s.sort_by(int_leq()).map_values(|x: i64| Val::Int(x)))),
            }
        },
    }
}

/// The chunks of output that a built-in appends: the display form of each argument for
/// `print`; for `println` each display form followed by a newline when output is stored, else
/// the display forms and then one newline; for `dbg` each debug form followed by a newline.
pub open spec fn builtin_output(op: Builtin, a: Seq<Val>, store: bool) -> Seq<Seq<char>> {
    match op {
        Builtin::Print => a.map_values(|v: Val| display_of(v)),
        Builtin::Println => if store {
            a.map_values(|v: Val| display_of(v) + "\n"@)
        } else {
            a.map_values(|v: Val| display_of(v)).push("\n"@)
        },
        Builtin::Dbg => a.map_values(|v: Val| debug_of(v) + "\n"@),
        _ => Seq::empty(),
    }
}

/// The model of an evaluation outcome.
pub open spec fn outcome(r: Result<Expr, InterpError>) -> Result<Val, Fault> {
    match r {
        Ok(e) => Ok(e@),
        Err(e) => Err(e@),
    }
}

/// A built-in's call on `args` returned what `builtin_result` says, appended what
/// `builtin_output` says, and left the flags alone.
pub open spec fn builtin_post(
    op: Builtin,
    args: Seq<Expr>,
    before: Environment,
    after: Environment,
    r: Result<Expr, InterpError>,
) -> bool {
    &&& outcome(r) == builtin_result(op, vals(args))
    &&& output_view(after.output@) == output_view(before.output@) + builtin_output(
        op,
        vals(args),
        before.store_output,
    )
    &&& after.lexical_scope == before.lexical_scope
    &&& after.store_output == before.store_output
}

pub proof fn lemma_checked_sum_stays_none(s: Seq<i64>, k: int, n: int)
    requires
        0 <= k <= n,
        checked_sum(s, k) is None,
    ensures
        checked_sum(s, n) is None,
    decreases n - k,
{
    if k < n {
        lemma_checked_sum_stays_none(s, k, n - 1);
    }
}

pub proof fn lemma_checked_product_stays_none(s: Seq<i64>, k: int, n: int)
    requires
        0 <= k <= n,
        checked_product(s, k) is None,
    ensures
        checked_product(s, n) is None,
    decreases n - k,
{
    if k < n {
        lemma_checked_product_stays_none(s, k, n - 1);
    }
}

pub proof fn lemma_checked_difference_stays_none(s: Seq<i64>, k: int, n: int)
    requires
        1 <= k <= n,
        checked_difference(s, k) is None,
    ensures
        checked_difference(s, n) is None,
    decreases n - k,
{
    if k < n {
        lemma_checked_difference_stays_none(s, k, n - 1);
    }
}

fn type_error(expected: &str, v: &Expr) -> (r: InterpError)
    ensures
        r@ == type_fault(expected@, v@),
{
    InterpError::TypeError { expected: expected.to_string(), found: v.to_string() }
}

fn arity_error(op: Builtin, name: &str, expected: usize, got: usize) -> (r: InterpError)
    requires
        name@ == builtin_name(op),
    ensures
        r@ == arity_fault(op, expected, got as int),
{
    InterpError::ArgumentError { func: name.to_string(), expected, got }
}

fn overflow_error() -> (r: InterpError)
    ensures
        r@ == overflow(),
{
    InterpError::RuntimeError { message: "integer overflow".to_string() }
}

/// The integers among `args`, or the type error for the first argument that is not one.
pub fn exprs_into_i64(args: &[Expr]) -> (r: Result<Vec<i64>, InterpError>)
    ensures
        match ints_or_fault(vals(args@)) {
            Ok(s) => r matches Ok(v) && v@ == s,
            Err(f) => r matches Err(e) && e@ == f,
        },
{
    let ghost a = vals(args@);
    let mut out: Vec<i64> = Vec::new();
    let mut i: usize = 0;
    while i < args.len()
        invariant
            0 <= i <= args.len(),
            a == vals(args@),
            first_non_int(a, 0) == first_non_int(a, i as int),
            out@ == int_args(a).take(i as int),
        decreases args.len() - i,
    {
        match &args[i] {
            Expr::Integer(n) => {
                out.push(*n);
                assert(out@ =~= int_args(a).take(i + 1));
            },
            other => {
                return Err(type_error("integer", other));
            },
        }
        i = i + 1;
    }
    assert(out@ =~= int_args(a));
    Ok(out)
}

/// The strings among `args`, or the type error for the first argument that is not one.
fn exprs_into_strings(args: &[Expr]) -> (r: Result<Vec<String>, InterpError>)
    ensures
        match strs_or_fault(vals(args@)) {
            Ok(s) => r matches Ok(v) && v@.len() == s.len() && forall|k: int|
                0 <= k < s.len() ==> #[trigger] v@[k]@ == s[k],
            Err(f) => r matches Err(e) && e@ == f,
        },
{
    let ghost a = vals(args@);
    let mut out: Vec<String> = Vec::new();
    let mut i: usize = 0;
    while i < args.len()
        invariant
            0 <= i <= args.len(),
            a == vals(args@),
            first_non_str(a, 0) == first_non_str(a, i as int),
            out@.len() == i,
            forall|k: int| 0 <= k < i ==> #[trigger] out@[k]@ == str_args(a)[k],
        decreases args.len() - i,
    {
        match &args[i] {
            Expr::String(t) => {
                out.push(t.clone());
            },
            other => {
                return Err(type_error("string", other));
            },
        }
        i = i + 1;
    }
    Ok(out)
}

/// Integer sum of the arguments; zero for none.
pub fn add(args: &[Expr], global: &mut Environment) -> (r: Result<Expr, InterpError>)
    ensures
        builtin_post(Builtin::Add, args@, *old(global), *final(global), r),
{
    let ints = match exprs_into_i64(args) {
        Ok(v) => v,
        Err(e) => {
            assert(output_view(global.output@) =~= output_view(global.output@) + Seq::empty());
            return Err(e);
        },
    };
    assert(output_view(global.output@) =~= output_view(global.output@) + Seq::empty());
    let mut total: i64 = 0;
    let mut i: usize = 0;
    while i < ints.len()
        invariant
            0 <= i <= ints.len(),
            checked_sum(ints@, i as int) == Some(total),
            ints_or_fault(vals(args@)) == Ok::<Seq<i64>, Fault>(ints@),
        decreases ints.len() - i,
    {
        match total.checked_add(ints[i]) {
            Some(t) => {
                total = t;
            },
            None => {
                assert(checked_sum(ints@, i + 1) is None);
                proof {
                    lemma_checked_sum_stays_none(ints@, i + 1, ints@.len() as int);
                }
                return Err(overflow_error());
            },
        }
        i = i + 1;
    }
    Ok(Expr::Integer(total))
}

/// The first argument minus each of the others in turn; zero for none.
pub fn sub(args: &[Expr], global: &mut Environment) -> (r: Result<Expr, InterpError>)
    ensures
        builtin_post(Builtin::Sub, args@, *old(global), *final(global), r),
{
    assert(output_view(global.output@) =~= output_view(global.output@) + Seq::empty());
    let ints = match exprs_into_i64(args) {
        Ok(v) => v,
        Err(e) => {
            return Err(e);
        },
    };
    if ints.len() == 0 {
        return Ok(Expr::Integer(0));
    }
    let mut total: i64 = ints[0];
    let mut i: usize = 1;
    while i < ints.len()
        invariant
            1 <= i <= ints.len(),
            checked_difference(ints@, i as int) == Some(total),
            ints_or_fault(vals(args@)) == Ok::<Seq<i64>, Fault>(ints@),
        decreases ints.len() - i,
    {
        match total.checked_sub(ints[i]) {
            Some(t) => {
                total = t;
            },
            None => {
                proof {
                    lemma_checked_difference_stays_none(ints@, i + 1, ints@.len() as int);
                }
                return Err(overflow_error());
            },
        }
        i = i + 1;
    }
    Ok(Expr::Integer(total))
}

/// Integer product of the arguments; one for none.
pub fn mul(args: &[Expr], global: &mut Environment) -> (r: Result<Expr, InterpError>)
    ensures
        builtin_post(Builtin::Mul, args@, *old(global), *final(global), r),
{
    assert(output_view(global.output@) =~= output_view(global.output@) + Seq::empty());
    let ints = match exprs_into_i64(args) {
        Ok(v) => v,
        Err(e) => {
            return Err(e);
        },
    };
    let mut total: i64 = 1;
    let mut i: usize = 0;
    while i < ints.len()
        invariant
            0 <= i <= ints.len(),
            checked_product(ints@, i as int) == Some(total),
            ints_or_fault(vals(args@)) == Ok::<Seq<i64>, Fault>(ints@),
        decreases ints.len() - i,
    {
        match total.checked_mul(ints[i]) {
            Some(t) => {
                total = t;
            },
            None => {
                proof {
                    lemma_checked_product_stays_none(ints@, i + 1, ints@.len() as int);
                }
                return Err(overflow_error());
            },
        }
        i = i + 1;
    }
    Ok(Expr::Integer(total))
}

fn divide(op: Builtin, name: &str, args: &[Expr]) -> (r: Result<Expr, InterpError>)
    requires
        op == Builtin::Div || op == Builtin::Rem,
        name@ == builtin_name(op),
    ensures
        outcome(r) == division(op, vals(args@)),
{
    let ints = match exprs_into_i64(args) {
        Ok(v) => v,
        Err(e) => {
            return Err(e);
        },
    };
    if ints.len() != 2 {
        return Err(arity_error(op, name, 2, ints.len()));
    }
    let x = ints[0];
    let y = ints[1];
    if y == 0 {
        return Err(InterpError::RuntimeError { message: "division by zero".to_string() });
    }
    if x == i64::MIN && y == -1 {
        return Err(overflow_error());
    }
    let xa: u128 = if x < 0 { (-(x as i128)) as u128 } else { x as u128 };
    let ya: u128 = if y < 0 { (-(y as i128)) as u128 } else { y as u128 };
    assert(xa as int == abs(x as int) && ya as int == abs(y as int));
    if op == Builtin::Div {
        let q: u128 = xa / ya;
        assert(q <= xa) by (nonlinear_arith)
            requires
                ya >= 1,
                q == xa / ya,
        ;
        if ya >= 2 {
            assert(q * 2 <= xa) by (nonlinear_arith)
                requires
                    ya >= 2,
                    q == xa / ya,
            ;
        }
        let tq: i128 = if (x < 0) != (y < 0) { -(q as i128) } else { q as i128 };
        assert(tq == trunc_div(x as int, y as int));
        Ok(Expr::Integer(tq as i64))
    } else {
        let q: u128 = xa / ya;
        let m: u128 = xa % ya;
        assert(xa == ya * q + m && m < ya) by (nonlinear_arith)
            requires
                ya >= 1,
                q == xa / ya,
                m == xa % ya,
        ;
        let rr: i128 = if x < 0 { -(m as i128) } else { m as i128 };
        let ghost tq: int = trunc_div(x as int, y as int);
        assert(rr == trunc_rem(x as int, y as int)) by (nonlinear_arith)
            requires
                xa == ya * q + m,
                tq == (if (x < 0) != (y < 0) { -(q as int) } else { q as int }),
                xa == (if x < 0 { -x } else { x as int }),
                ya == (if y < 0 { -y } else { y as int }),
                rr == (if x < 0 { -(m as int) } else { m as int }),
                trunc_rem(x as int, y as int) == x - y * tq,
        ;
        Ok(Expr::Integer(rr as i64))
    }
}

/// The first argument divided by the second, truncated toward zero.
pub fn div(args: &[Expr], global: &mut Environment) -> (r: Result<Expr, InterpError>)
    ensures
        builtin_post(Builtin::Div, args@, *old(global), *final(global), r),
{
    assert(output_view(global.output@) =~= output_view(global.output@) + Seq::empty());
    divide(Builtin::Div, "div", args)
}

/// The remainder of the first argument divided by the second, with the dividend's sign.
pub fn rem(args: &[Expr], global: &mut Environment) -> (r: Result<Expr, InterpError>)
    ensures
        builtin_post(Builtin::Rem, args@, *old(global), *final(global), r),
{
    assert(output_view(global.output@) =~= output_view(global.output@) + Seq::empty());
    divide(Builtin::Rem, "rem", args)
}

fn compare(op: Builtin, name: &str, args: &[Expr]) -> (r: Result<Expr, InterpError>)
    requires
        op == Builtin::Greater || op == Builtin::Less,
        name@ == builtin_name(op),
    ensures
        outcome(r) == builtin_result(op, vals(args@)),
{
    let ints = match exprs_into_i64(args) {
        Ok(v) => v,
        Err(e) => {
            return Err(e);
        },
    };
    if ints.len() != 2 {
        return Err(arity_error(op, name, 2, ints.len()));
    }
    if op == Builtin::Greater {
        Ok(Expr::Boolean(ints[0] > ints[1]))
    } else {
        Ok(Expr::Boolean(ints[0] < ints[1]))
    }
}

/// Whether the first argument is greater than the second.
pub fn greater(args: &[Expr], global: &mut Environment) -> (r: Result<Expr, InterpError>)
    ensures
        builtin_post(Builtin::Greater, args@, *old(global), *final(global), r),
{
    assert(output_view(global.output@) =~= output_view(global.output@) + Seq::empty());
    compare(Builtin::Greater, "greater?", args)
}

/// Whether the first argument is less than the second.
pub fn less(args: &[Expr], global: &mut Environment) -> (r: Result<Expr, InterpError>)
    ensures
        builtin_post(Builtin::Less, args@, *old(global), *final(global), r),
{
    assert(output_view(global.output@) =~= output_view(global.output@) + Seq::empty());
    compare(Builtin::Less, "less?", args)
}

/// Whether the single argument is zero.
pub fn zero(args: &[Expr], global: &mut Environment) -> (r: Result<Expr, InterpError>)
    ensures
        builtin_post(Builtin::Zero, args@, *old(global), *final(global), r),
{
    assert(output_view(global.output@) =~= output_view(global.output@) + Seq::empty());
    let ints = match exprs_into_i64(args) {
        Ok(v) => v,
        Err(e) => {
            return Err(e);
        },
    };
    if ints.len() != 1 {
        return Err(arity_error(Builtin::Zero, "zero?", 1, ints.len()));
    }
    Ok(Expr::Boolean(ints[0] == 0))
}

/// Whether two values are equal in the sense of `same_value`.
pub fn values_equal(x: &Expr, y: &Expr) -> (r: bool)
    ensures
        r == same_value(x@, y@),
    decreases x@,
{
    match (x, y) {
        (Expr::Integer(a), Expr::Integer(b)) => *a == *b,
        (Expr::Boolean(a), Expr::Boolean(b)) => *a == *b,
        (Expr::String(a), Expr::String(b)) => same_text(a.as_str(), b.as_str()),
        (Expr::List(a), Expr::List(b)) => {
            let ghost va = vals_of(a@, 0);
            let ghost vb = vals_of(b@, 0);
            proof {
                lemma_vals_of(a@, 0);
                lemma_vals_of(b@, 0);
            }
            if a.len() != b.len() {
                return false;
            }
            let mut i: usize = 0;
            while i < a.len()
                invariant
                    0 <= i <= a.len(),
                    a.len() == b.len(),
                    x@ == Val::List(va),
                    y@ == Val::List(vb),
                    va.len() == a@.len(),
                    vb.len() == b@.len(),
                    forall|k: int| 0 <= k < a@.len() ==> #[trigger] va[k] == val_of(a@[k]),
                    forall|k: int| 0 <= k < b@.len() ==> #[trigger] vb[k] == val_of(b@[k]),
                    same_values(va, vb, i as int),
                decreases a.len() - i,
            {
                proof {
                    assert(va[i as int] == a@[i as int]@);
                    let ghost me = x@;
                    assert(decreases_to!(me => me->List_0[i as int]));
                }
                if !values_equal(&a[i], &b[i]) {
                    proof {
                        lemma_same_values_prefix(va, vb, i as int + 1, va.len() as int);
                    }
                    return false;
                }
                i = i + 1;
            }
            true
        },
        (Expr::Function(Function::CoreFunction { func: a, .. }), Expr::Function(Function::CoreFunction { func: b, .. })) => *a == *b,
        _ => false,
    }
}

pub proof fn lemma_same_values_prefix(a: Seq<Val>, b: Seq<Val>, k: int, n: int)
    requires
        1 <= k <= n <= a.len(),
        n <= b.len(),
        !same_values(a, b, k),
    ensures
        !same_values(a, b, n),
    decreases n - k,
{
    if k < n {
        lemma_same_values_prefix(a, b, k, n - 1);
    }
}

/// Whether every argument equals the first; false when there are none.
pub fn eq(args: &[Expr], global: &mut Environment) -> (r: Result<Expr, InterpError>)
    ensures
        builtin_post(Builtin::Equal, args@, *old(global), *final(global), r),
{
    assert(output_view(global.output@) =~= output_view(global.output@) + Seq::empty());
    let ghost a = vals(args@);
    if args.len() == 0 {
        return Ok(Expr::Boolean(false));
    }
    let mut i: usize = 0;
    while i < args.len()
        invariant
            0 <= i <= args.len(),
            args.len() > 0,
            a == vals(args@),
            forall|k: int| 0 <= k < i ==> #[trigger] same_value(a[k], a[0]),
        decreases args.len() - i,
    {
        if !values_equal(&args[i], &args[0]) {
            assert(!same_value(a[i as int], a[0]));
            return Ok(Expr::Boolean(false));
        }
        i = i + 1;
    }
    Ok(Expr::Boolean(true))
}

fn case_change(op: Builtin, name: &str, args: &[Expr]) -> (r: Result<Expr, InterpError>)
    requires
        op == Builtin::ToUppercase || op == Builtin::ToLowercase,
        name@ == builtin_name(op),
    ensures
        outcome(r) == builtin_result(op, vals(args@)),
{
    if args.len() == 0 {
        return Err(arity_error(op, name, 1, 0));
    }
    let strs = match exprs_into_strings(args) {
        Ok(v) => v,
        Err(e) => {
            return Err(e);
        },
    };
    let ghost s = str_args(vals(args@));
    if args.len() == 1 {
        let t = if op == Builtin::ToUppercase {
            uppercase(strs[0].as_str())
        } else {
            lowercase(strs[0].as_str())
        };
        return Ok(Expr::String(t));
    }
    let mut out: Vec<Expr> = Vec::new();
    let mut i: usize = 0;
    while i < strs.len()
        invariant
            0 <= i <= strs.len(),
            strs.len() == s.len(),
            s == str_args(vals(args@)),
            strs_or_fault(vals(args@)) == Ok::<Seq<Seq<char>>, Fault>(s),
            forall|k: int| 0 <= k < s.len() ==> #[trigger] strs@[k]@ == s[k],
            out@.len() == i,
            forall|k: int| 0 <= k < i ==> #[trigger] out@[k]@ == Val::Str(case_of(op, s[k])),
        decreases strs.len() - i,
    {
        let t = if op == Builtin::ToUppercase {
            uppercase(strs[i].as_str())
        } else {
            lowercase(strs[i].as_str())
        };
        out.push(Expr::String(t));
        i = i + 1;
    }
    let r = Expr::List(Rc::new(out));
    proof {
        lemma_vals_of_is_vals(out@);
        assert forall|k: int| 0 <= k < s.len() implies #[trigger] vals(out@)[k] == Val::Str(case_of(op, s[k])) by {
            assert(out@[k]@ == Val::Str(case_of(op, s[k])));
        }
        assert(vals(out@) =~= Seq::new(s.len(), |k: int| Val::Str(case_of(op, s[k]))));
    }
    Ok(r)
}

/// The argument strings in upper case: one string for one argument, else a list of them.
pub fn to_uppercase(args: &[Expr], global: &mut Environment) -> (r: Result<Expr, InterpError>)
    ensures
        builtin_post(Builtin::ToUppercase, args@, *old(global), *final(global), r),
{
    assert(output_view(global.output@) =~= output_view(global.output@) + Seq::empty());
    case_change(Builtin::ToUppercase, "to_uppercase", args)
}

/// The argument strings in lower case: one string for one argument, else a list of them.
pub fn to_lowercase(args: &[Expr], global: &mut Environment) -> (r: Result<Expr, InterpError>)
    ensures
        builtin_post(Builtin::ToLowercase, args@, *old(global), *final(global), r),
{
    assert(output_view(global.output@) =~= output_view(global.output@) + Seq::empty());
    case_change(Builtin::ToLowercase, "to_lowercase", args)
}

/// The argument strings joined end to end.
pub fn concat(args: &[Expr], global: &mut Environment) -> (r: Result<Expr, InterpError>)
    ensures
        builtin_post(Builtin::Concat, args@, *old(global), *final(global), r),
{
    assert(output_view(global.output@) =~= output_view(global.output@) + Seq::empty());
    let strs = match exprs_into_strings(args) {
        Ok(v) => v,
        Err(e) => {
            return Err(e);
        },
    };
    let ghost s = str_args(vals(args@));
    let mut out = String::new();
    let mut i: usize = 0;
    while i < strs.len()
        invariant
            0 <= i <= strs.len(),
            strs.len() == s.len(),
            strs_or_fault(vals(args@)) == Ok::<Seq<Seq<char>>, Fault>(s),
            forall|k: int| 0 <= k < s.len() ==> #[trigger] strs@[k]@ == s[k],
            out@ == concat_all(s, i as int),
        decreases strs.len() - i,
    {
        out.append(strs[i].as_str());
        i = i + 1;
    }
    Ok(Expr::String(out))
}

/// Whether every argument after the first contains the first.
pub fn contains(args: &[Expr], global: &mut Environment) -> (r: Result<Expr, InterpError>)
    ensures
        builtin_post(Builtin::Contains, args@, *old(global), *final(global), r),
{
    assert(output_view(global.output@) =~= output_view(global.output@) + Seq::empty());
    let strs = match exprs_into_strings(args) {
        Ok(v) => v,
        Err(e) => {
            return Err(e);
        },
    };
    let ghost s = str_args(vals(args@));
    if strs.len() < 2 {
        return Err(arity_error(Builtin::Contains, "contains", 2, strs.len()));
    }
    let mut i: usize = 1;
    while i < strs.len()
        invariant
            1 <= i <= strs.len(),
            strs.len() == s.len(),
            strs_or_fault(vals(args@)) == Ok::<Seq<Seq<char>>, Fault>(s),
            forall|k: int| 0 <= k < s.len() ==> #[trigger] strs@[k]@ == s[k],
            forall|k: int| 1 <= k < i ==> has_substring(#[trigger] s[k], s[0]),
        decreases strs.len() - i,
    {
        if !text_contains(strs[i].as_str(), strs[0].as_str()) {
            assert(!has_substring(s[i as int], s[0]));
            return Ok(Expr::Boolean(false));
        }
        i = i + 1;
    }
    Ok(Expr::Boolean(true))
}

/// The arguments as a list.
pub fn as_list(args: &[Expr], global: &mut Environment) -> (r: Result<Expr, InterpError>)
    ensures
        builtin_post(Builtin::AsList, args@, *old(global), *final(global), r),
{
    assert(output_view(global.output@) =~= output_view(global.output@) + Seq::empty());
    let mut out: Vec<Expr> = Vec::new();
    let mut i: usize = 0;
    while i < args.len()
        invariant
            0 <= i <= args.len(),
            out@ == args@.take(i as int),
        decreases args.len() - i,
    {
        out.push(args[i].share());
        assert(out@ =~= args@.take(i + 1));
        i = i + 1;
    }
    assert(out@ =~= args@);
    proof {
        lemma_vals_of_is_vals(out@);
    }
    Ok(Expr::List(Rc::new(out)))
}

/// Checks what `get` and `set` need, returning the list and the index.
fn list_and_index<'a>(op: Builtin, name: &str, args: &'a [Expr], arity: usize) -> (r: Result<(&'a Rc<Vec<Expr>>, usize), InterpError>)
    requires
        op == Builtin::ListGet || op == Builtin::ListSet,
        name@ == builtin_name(op),
        arity >= 2,
    ensures
        match list_index(op, vals(args@), arity) {
            Ok((l, i)) => r matches Ok((lv, iv)) && vals(lv@) == l && iv == i && args@[0] == Expr::List(*lv),
            Err(f) => r matches Err(e) && e@ == f,
        },
{
    if args.len() != arity {
        return Err(arity_error(op, name, arity, args.len()));
    }
    let idx: i64 = match &args[1] {
        Expr::Integer(n) => *n,
        other => {
            return Err(type_error("integer", other));
        },
    };
    match &args[0] {
        Expr::List(l) => {
            proof {
                lemma_vals_of_is_vals(l@);
            }
            if idx < 0 || (idx as u64) >= (l.len() as u64) {
                return Err(InterpError::RuntimeError { message: "index out of bounds".to_string() });
            }
            Ok((l, idx as usize))
        },
        other => Err(type_error("list", other)),
    }
}

/// The element of a list at an index.
pub fn get(args: &[Expr], global: &mut Environment) -> (r: Result<Expr, InterpError>)
    ensures
        builtin_post(Builtin::ListGet, args@, *old(global), *final(global), r),
{
    assert(output_view(global.output@) =~= output_view(global.output@) + Seq::empty());
    match list_and_index(Builtin::ListGet, "get", args, 2) {
        Ok((l, i)) => Ok(l[i].share()),
        Err(e) => Err(e),
    }
}

/// A copy of a list with the element at an index replaced.
pub fn set(args: &[Expr], global: &mut Environment) -> (r: Result<Expr, InterpError>)
    ensures
        builtin_post(Builtin::ListSet, args@, *old(global), *final(global), r),
{
    assert(output_view(global.output@) =~= output_view(global.output@) + Seq::empty());
    match list_and_index(Builtin::ListSet, "set", args, 3) {
        Ok((l, idx)) => {
            let mut out: Vec<Expr> = Vec::new();
            let mut i: usize = 0;
            while i < l.len()
                invariant
                    0 <= i <= l.len(),
                    idx < l.len(),
                    args@.len() == 3,
                    out@ == l@.update(idx as int, args@[2]).take(i as int),
                decreases l.len() - i,
            {
                if i == idx {
                    out.push(args[2].share());
                } else {
                    out.push(l[i].share());
                }
                assert(out@ =~= l@.update(idx as int, args@[2]).take(i + 1));
                i = i + 1;
            }
            assert(out@ =~= l@.update(idx as int, args@[2]));
            proof {
                lemma_vals_of_is_vals(out@);
                assert(vals(out@) =~= vals(l@).update(idx as int, vals(args@)[2]));
            }
            Ok(Expr::List(Rc::new(out)))
        },
        Err(e) => Err(e),
    }
}

/// The length of a string in bytes, or of a list in elements.
pub fn length(args: &[Expr], global: &mut Environment) -> (r: Result<Expr, InterpError>)
    ensures
        builtin_post(Builtin::Length, args@, *old(global), *final(global), r),
{
    assert(output_view(global.output@) =~= output_view(global.output@) + Seq::empty());
    if args.len() != 1 {
        return Err(arity_error(Builtin::Length, "length", 1, args.len()));
    }
    match &args[0] {
        Expr::String(s) => Ok(Expr::Integer(s.as_str().len() as i64)),
        Expr::List(l) => {
            proof {
                lemma_vals_of(l@, 0);
            }
            Ok(Expr::Integer(l.len() as i64))
        },
        other => Err(type_error("string or list", other)),
    }
}

/// A list of integers in ascending order, or of strings in ascending order.
pub fn sort(args: &[Expr], global: &mut Environment) -> (r: Result<Expr, InterpError>)
    ensures
        builtin_post(Builtin::Sort, args@, *old(global), *final(global), r),
{
    assert(output_view(global.output@) =~= output_view(global.output@) + Seq::empty());
    if args.len() != 1 {
        return Err(arity_error(Builtin::Sort, "sort", 1, args.len()));
    }
    match &args[0] {
        Expr::List(l) => {
            proof {
                lemma_vals_of_is_vals(l@);
            }
            if l.len() > 0 {
                if let Expr::String(_) = &l[0] {
                    let mut texts = match exprs_into_strings(l.as_slice()) {
                        Ok(v) => v,
                        Err(e) => {
                            return Err(e);
                        },
                    };
                    assert(names_view(texts@) =~= str_args(vals(l@)));
                    sort_texts(&mut texts);
                    let mut out: Vec<Expr> = Vec::new();
                    let mut i: usize = 0;
                    while i < texts.len()
                        invariant
                            0 <= i <= texts.len(),
                            out@.len() == i,
                            forall|k: int| 0 <= k < i ==> #[trigger] out@[k]@ == Val::Str(texts@[k]@),
                        decreases texts.len() - i,
                    {
                        out.push(Expr::String(texts[i].clone()));
                        i = i + 1;
                    }
                    proof {
                        lemma_vals_of_is_vals(out@);
                        assert forall|k: int| 0 <= k < out@.len() implies #[trigger] vals(out@)[k]
                            == names_view(texts@).map_values(|x: Seq<char>| Val::Str(x))[k] by {
                            assert(out@[k]@ == Val::Str(texts@[k]@));
                        }
                        assert(vals(out@) =~= names_view(texts@).map_values(|x: Seq<char>| Val::Str(x)));
                    }
                    return Ok(Expr::List(Rc::new(out)));
                }
            }
            let mut ints = match exprs_into_i64(l.as_slice()) {
                Ok(v) => v,
                Err(e) => {
                    return Err(e);
                },
            };
            sort_ints(&mut ints);
            let mut out: Vec<Expr> = Vec::new();
            let mut i: usize = 0;
            while i < ints.len()
                invariant
                    0 <= i <= ints.len(),
                    out@.len() == i,
                    forall|k: int| 0 <= k < i ==> #[trigger] out@[k] == Expr::Integer(ints@[k]),
                decreases ints.len() - i,
            {
                out.push(Expr::Integer(ints[i]));
                i = i + 1;
            }
            proof {
                lemma_vals_of_is_vals(out@);
                assert(vals(out@) =~= ints@.map_values(|x: i64| Val::Int(x)));
            }
            Ok(Expr::List(Rc::new(out)))
        },
        other => Err(type_error("list", other)),
    }
}

fn write_values(args: &[Expr], global: &mut Environment, newline: bool)
    ensures
        output_view(final(global).output@) == output_view(old(global).output@) + (if newline {
            vals(args@).map_values(|v: Val| display_of(v) + "\n"@)
        } else {
            vals(args@).map_values(|v: Val| display_of(v))
        }),
        final(global).lexical_scope == old(global).lexical_scope,
        final(global).store_output == old(global).store_output,
{
    let ghost a = vals(args@);
    let ghost chunks = if newline {
        a.map_values(|v: Val| display_of(v) + "\n"@)
    } else {
        a.map_values(|v: Val| display_of(v))
    };
    let mut i: usize = 0;
    while i < args.len()
        invariant
            0 <= i <= args.len(),
            a == vals(args@),
            chunks.len() == a.len(),
            forall|k: int| 0 <= k < a.len() ==> #[trigger] chunks[k] == (if newline { display_of(a[k]) + "\n"@ } else { display_of(a[k]) }),
            output_view(global.output@) == output_view(old(global).output@) + chunks.take(i as int),
            global.lexical_scope == old(global).lexical_scope,
            global.store_output == old(global).store_output,
        decreases args.len() - i,
    {
        let mut text = args[i].to_string();
        if newline {
            text.append("\n");
        }
        global.add_output(text.as_str());
        assert(chunks.take(i + 1) =~= chunks.take(i as int).push(chunks[i as int]));
        i = i + 1;
    }
    assert(chunks.take(args.len() as int) =~= chunks);
}

/// Writes the display form of each argument.
pub fn print(args: &[Expr], global: &mut Environment) -> (r: Result<Expr, InterpError>)
    ensures
        builtin_post(Builtin::Print, args@, *old(global), *final(global), r),
{
    write_values(args, global, false);
    Ok(Expr::Boolean(true))
}

/// Writes the display form of each argument, then a newline: after each argument when output
/// is stored, else once at the end.
pub fn println(args: &[Expr], global: &mut Environment) -> (r: Result<Expr, InterpError>)
    ensures
        builtin_post(Builtin::Println, args@, *old(global), *final(global), r),
{
    if global.store_output {
        write_values(args, global, true);
    } else {
        write_values(args, global, false);
        global.add_output("\n");
        assert(output_view(global.output@) =~= output_view(old(global).output@) + vals(args@).map_values(|v: Val| display_of(v)).push("\n"@));
    }
    Ok(Expr::Boolean(true))
}

/// Writes the debug form of each argument, each followed by a newline.
pub fn dbg(args: &[Expr], global: &mut Environment) -> (r: Result<Expr, InterpError>)
    ensures
        builtin_post(Builtin::Dbg, args@, *old(global), *final(global), r),
{
    let ghost a = vals(args@);
    let ghost chunks = a.map_values(|v: Val| debug_of(v) + "\n"@);
    let mut i: usize = 0;
    while i < args.len()
        invariant
            0 <= i <= args.len(),
            a == vals(args@),
            chunks == a.map_values(|v: Val| debug_of(v) + "\n"@),
            output_view(global.output@) == output_view(old(global).output@) + chunks.take(i as int),
            global.lexical_scope == old(global).lexical_scope,
            global.store_output == old(global).store_output,
        decreases args.len() - i,
    {
        let mut text = args[i].debug_string();
        text.append("\n");
        global.add_output(text.as_str());
        assert(chunks.take(i + 1) =~= chunks.take(i as int).push(chunks[i as int]));
        i = i + 1;
    }
    assert(chunks.take(args.len() as int) =~= chunks);
    Ok(Expr::Boolean(true))
}

/// Calls the built-in `op` on `args`.
pub fn call_builtin(op: Builtin, args: &[Expr], global: &mut Environment) -> (r: Result<Expr, InterpError>)
    ensures
        builtin_post(op, args@, *old(global), *final(global), r),
{
    match op {
        Builtin::Print => print(args, global),
        Builtin::Println => println(args, global),
        Builtin::Dbg => dbg(args, global),
        Builtin::Add => crate::functions::add(args, global),
        Builtin::Sub => crate::functions::sub(args, global),
        Builtin::Mul => crate::functions::mul(args, global),
        Builtin::Div => div(args, global),
        Builtin::Rem => rem(args, global),
        Builtin::Zero => zero(args, global),
        Builtin::Equal => eq(args, global),
        Builtin::Greater => greater(args, global),
        Builtin::Less => less(args, global),
        Builtin::ToUppercase => to_uppercase(args, global),
        Builtin::ToLowercase => to_lowercase(args, global),
        Builtin::Concat => concat(args, global),
        Builtin::Contains => contains(args, global),
        Builtin::Length => length(args, global),
        Builtin::AsList => as_list(args, global),
        Builtin::ListGet => get(args, global),
        Builtin::ListSet => set(args, global),
        Builtin::Sort => sort(args, global),
    }
}

} // verus!
