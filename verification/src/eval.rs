//! The type-directed evaluator.
//!
//! `Value::eval` walks an expression tree against one element's facts and
//! returns a typed value or a descriptive error. The spec function `g_eval`
//! states the result exactly, for every expression and every element.
//!
//! Integer division by zero is reported as an explicit error, and so is any
//! arithmetic result outside the 32-bit signed range: the evaluator never
//! wraps and never panics.

use vstd::prelude::*;

use crate::ast::{lemma_view_exprs, view_expr, view_exprs, BinaryOperator, Expr, GExpr, UnaryOperator};
use crate::elements::Element;
use crate::value::{
    canon_ints, gdiff, ginsert, gsubset, gunion, gvalid, lemma_canon_ints, lemma_canonical_eq,
    lemma_gdiff, lemma_ginsert, lemma_gunion, set_all_in, set_contains, set_insert, set_diff,
    set_union, strictly_sorted, tag_of, values_eq, view_value, view_values, GValue, Value,
};

verus! {

/// An evaluation error: the one query in question fails with a description,
/// the program is never crashed.
#[derive(PartialEq, Eq, Debug)]
pub enum EvalError {
    /// The query names a symbol outside the fixed table.
    UnknownSymbol(String),
    /// A unary operator applied to a value of the wrong kind.
    UnaryMismatch(UnaryOperator, Value),
    /// A binary operator applied to values of the wrong kinds.
    BinaryMismatch(BinaryOperator, Value, Value),
    /// Integer division by zero.
    DivisionByZero,
    /// An arithmetic result outside the 32-bit signed range.
    Overflow,
    /// The whole query evaluated to something other than a boolean.
    NotBoolean(Value),
}

/// The mathematical value of an [`EvalError`].
#[verifier::ext_equal]
pub enum GEvalError {
    UnknownSymbol(Seq<char>),
    UnaryMismatch(UnaryOperator, GValue),
    BinaryMismatch(BinaryOperator, GValue, GValue),
    DivisionByZero,
    Overflow,
    NotBoolean(GValue),
}

/// The ghost mirror of one evaluation error.
pub open spec fn view_eval_error(e: EvalError) -> GEvalError {
    match e {
        EvalError::UnknownSymbol(s) => GEvalError::UnknownSymbol(s@),
        EvalError::UnaryMismatch(op, v) => GEvalError::UnaryMismatch(op, view_value(v)),
        EvalError::BinaryMismatch(op, l, r) => GEvalError::BinaryMismatch(
            op,
            view_value(l),
            view_value(r),
        ),
        EvalError::DivisionByZero => GEvalError::DivisionByZero,
        EvalError::Overflow => GEvalError::Overflow,
        EvalError::NotBoolean(v) => GEvalError::NotBoolean(view_value(v)),
    }
}

impl View for EvalError {
    type V = GEvalError;

    open spec fn view(&self) -> GEvalError {
        view_eval_error(*self)
    }
}

/// The fixed, closed symbol table: what each known name means for one
/// element; any other name is an unresolved-symbol error.
pub open spec fn g_lookup(name: Seq<char>, el: Element) -> Result<GValue, GEvalError> {
    if name == "atomic_number"@ || name == "z"@ {
        Ok(GValue::Int(el.atomic_number as i32))
    } else if name == "group"@ {
        Ok(GValue::Int(
            match el.group {
                Some(g) => g as i32,
                None => -1i32,
            },
        ))
    } else if name == "period"@ {
        Ok(GValue::Int(el.period as i32))
    } else if name == "block"@ {
        Ok(GValue::Int(el.block as i32))
    } else if name == "oxidation_states.common"@ {
        Ok(GValue::SetOf(canon_ints(el.oxidation_states.common@)))
    } else if name == "oxidation_states.notable"@ {
        Ok(GValue::SetOf(canon_ints(el.oxidation_states.notable@)))
    } else if name == "oxidation_states.predicted"@ {
        Ok(GValue::SetOf(canon_ints(el.oxidation_states.predicted@)))
    } else if name == "oxidation_states.citation_needed"@ {
        Ok(GValue::SetOf(canon_ints(el.oxidation_states.citation_needed@)))
    } else {
        Err(GEvalError::UnknownSymbol(name))
    }
}

/// An integer result if it fits the 32-bit signed range, else an overflow
/// error.
pub open spec fn g_int_result(v: int) -> Result<GValue, GEvalError> {
    if v < i32::MIN || v > i32::MAX {
        Err(GEvalError::Overflow)
    } else {
        Ok(GValue::Int(v as i32))
    }
}

/// What a unary operator yields: `!` negates a boolean, `-` negates an
/// integer; anything else is a type error naming the operator and operand.
pub open spec fn g_apply_unary(op: UnaryOperator, v: GValue) -> Result<GValue, GEvalError> {
    match (op, v) {
        (UnaryOperator::Not, GValue::Bool(b)) => Ok(GValue::Bool(!b)),
        (UnaryOperator::Minus, GValue::Int(i)) => g_int_result(-(i as int)),
        _ => Err(GEvalError::UnaryMismatch(op, v)),
    }
}

/// What a binary operator yields on two evaluated operands: exactly one
/// typing rule applies per combination, anything else is a type error.
pub open spec fn g_apply_binary(op: BinaryOperator, l: GValue, r: GValue) -> Result<
    GValue,
    GEvalError,
> {
    match (op, l, r) {
        (BinaryOperator::Or, GValue::Bool(x), GValue::Bool(y)) => Ok(GValue::Bool(x || y)),
        (BinaryOperator::And, GValue::Bool(x), GValue::Bool(y)) => Ok(GValue::Bool(x && y)),
        (BinaryOperator::Equal, GValue::Bool(x), GValue::Bool(y)) => Ok(GValue::Bool(x == y)),
        (BinaryOperator::Equal, GValue::Int(x), GValue::Int(y)) => Ok(GValue::Bool(x == y)),
        (BinaryOperator::Equal, GValue::SetOf(s), GValue::SetOf(t)) => Ok(GValue::Bool(s == t)),
        (BinaryOperator::NotEqual, GValue::Bool(x), GValue::Bool(y)) => Ok(GValue::Bool(x != y)),
        (BinaryOperator::NotEqual, GValue::Int(x), GValue::Int(y)) => Ok(GValue::Bool(x != y)),
        (BinaryOperator::NotEqual, GValue::SetOf(s), GValue::SetOf(t)) => Ok(
            GValue::Bool(s != t),
        ),
        (BinaryOperator::LessThan, GValue::Int(x), GValue::Int(y)) => Ok(GValue::Bool(x < y)),
        (BinaryOperator::LessEqual, GValue::Int(x), GValue::Int(y)) => Ok(GValue::Bool(x <= y)),
        (BinaryOperator::GreaterThan, GValue::Int(x), GValue::Int(y)) => Ok(GValue::Bool(x > y)),
        (BinaryOperator::GreaterEqual, GValue::Int(x), GValue::Int(y)) => Ok(
            GValue::Bool(x >= y),
        ),
        (BinaryOperator::Plus, GValue::Int(x), GValue::Int(y)) => g_int_result(x + y),
        (BinaryOperator::Minus, GValue::Int(x), GValue::Int(y)) => g_int_result(x - y),
        (BinaryOperator::Multiply, GValue::Int(x), GValue::Int(y)) => g_int_result(x * y),
        (BinaryOperator::Divide, GValue::Int(x), GValue::Int(y)) => {
            if y == 0 {
                Err(GEvalError::DivisionByZero)
            } else {
                match x.checked_div(y) {
                    Some(q) => Ok(GValue::Int(q)),
                    None => Err(GEvalError::Overflow),
                }
            }
        },
        (BinaryOperator::Plus, GValue::SetOf(s), GValue::SetOf(t)) => Ok(
            GValue::SetOf(gunion(s, t)),
        ),
        (BinaryOperator::Minus, GValue::SetOf(s), GValue::SetOf(t)) => Ok(
            GValue::SetOf(gdiff(s, t)),
        ),
        (BinaryOperator::InSet, GValue::SetOf(s), GValue::SetOf(t)) => Ok(
            GValue::Bool(gsubset(s, t)),
        ),
        (BinaryOperator::InSet, GValue::Int(x), GValue::SetOf(t)) => Ok(
            GValue::Bool(t.contains(GValue::Int(x))),
        ),
        (BinaryOperator::InSet, GValue::Bool(x), GValue::SetOf(t)) => Ok(
            GValue::Bool(t.contains(GValue::Bool(x))),
        ),
        _ => Err(GEvalError::BinaryMismatch(op, l, r)),
    }
}

/// What evaluating one expression against one element yields: literals
/// evaluate to themselves, symbols through the fixed table, operators per
/// the typing rules; the left operand's error comes first.
pub open spec fn g_eval(e: GExpr, el: Element) -> Result<GValue, GEvalError>
    decreases e,
{
    match e {
        GExpr::LBool(b) => Ok(GValue::Bool(b)),
        GExpr::LInt(i) => Ok(GValue::Int(i)),
        GExpr::Symbol(name) => g_lookup(name, el),
        GExpr::LSet(els) => match g_eval_members(els, el) {
            Ok(s) => Ok(GValue::SetOf(s)),
            Err(err) => Err(err),
        },
        GExpr::UnaryOp(op, e1) => match g_eval(*e1, el) {
            Ok(v) => g_apply_unary(op, v),
            Err(err) => Err(err),
        },
        GExpr::BinaryOp(op, l, r) => match g_eval(*l, el) {
            Ok(lv) => match g_eval(*r, el) {
                Ok(rv) => g_apply_binary(op, lv, rv),
                Err(err) => Err(err),
            },
            Err(err) => Err(err),
        },
    }
}

/// Evaluates set-literal members left to right into a canonical member
/// sequence; the first member error short-circuits the whole evaluation.
pub open spec fn g_eval_members(els: Seq<GExpr>, el: Element) -> Result<Seq<GValue>, GEvalError>
    decreases els,
{
    if els.len() == 0 {
        Ok(Seq::empty())
    } else {
        match g_eval_members(els.drop_last(), el) {
            Ok(acc) => match g_eval(els.last(), el) {
                Ok(v) => Ok(ginsert(acc, v)),
                Err(err) => Err(err),
            },
            Err(err) => Err(err),
        }
    }
}

/// Every value the evaluator yields has all its sets in canonical form.
pub proof fn lemma_g_eval_valid(e: GExpr, el: Element)
    ensures
        g_eval(e, el) matches Ok(v) ==> gvalid(v),
    decreases e,
{
    match e {
        GExpr::Symbol(name) => {
            lemma_lookup_valid(name, el);
        },
        GExpr::LSet(els) => {
            lemma_g_eval_members_valid(els, el);
        },
        GExpr::UnaryOp(op, e1) => {
            lemma_g_eval_valid(*e1, el);
        },
        GExpr::BinaryOp(op, l, r) => {
            lemma_g_eval_valid(*l, el);
            lemma_g_eval_valid(*r, el);
            if g_eval(*l, el) matches Ok(lv) && g_eval(*r, el) matches Ok(rv) {
                let lv = g_eval(*l, el)->Ok_0;
                let rv = g_eval(*r, el)->Ok_0;
                match (op, lv, rv) {
                    (BinaryOperator::Plus, GValue::SetOf(s), GValue::SetOf(t)) => {
                        lemma_gunion(s, t);
                        lemma_set_members_valid(gunion(s, t), s, t);
                    },
                    (BinaryOperator::Minus, GValue::SetOf(s), GValue::SetOf(t)) => {
                        lemma_gdiff(s, t);
                        lemma_set_members_valid(gdiff(s, t), s, t);
                    },
                    _ => {},
                }
            }
        },
        _ => {},
    }
}

/// Members evaluated into a set literal form a canonical sequence of valid
/// values.
proof fn lemma_g_eval_members_valid(els: Seq<GExpr>, el: Element)
    ensures
        g_eval_members(els, el) matches Ok(s) ==> strictly_sorted(s) && forall|i: int|
            0 <= i < s.len() ==> gvalid(#[trigger] s[i]),
    decreases els,
{
    if els.len() > 0 {
        lemma_g_eval_members_valid(els.drop_last(), el);
        lemma_g_eval_valid(els.last(), el);
        if g_eval_members(els.drop_last(), el) matches Ok(acc) && g_eval(els.last(), el) matches Ok(
            v,
        ) {
            let acc = g_eval_members(els.drop_last(), el)->Ok_0;
            let v = g_eval(els.last(), el)->Ok_0;
            lemma_ginsert(acc, v);
            let r = ginsert(acc, v);
            assert forall|i: int| 0 <= i < r.len() implies gvalid(#[trigger] r[i]) by {
                assert(r.contains(r[i]));
                if acc.contains(r[i]) {
                    let k = choose|k: int| 0 <= k < acc.len() && acc[k] == r[i];
                }
            }
        }
    }
}

/// A symbol lookup yields a valid value when it yields one.
proof fn lemma_lookup_valid(name: Seq<char>, el: Element)
    ensures
        g_lookup(name, el) matches Ok(v) ==> gvalid(v),
{
    lemma_canon_ints(el.oxidation_states.common@);
    lemma_canon_ints(el.oxidation_states.notable@);
    lemma_canon_ints(el.oxidation_states.predicted@);
    lemma_canon_ints(el.oxidation_states.citation_needed@);
    lemma_ints_members_valid(el.oxidation_states.common@);
    lemma_ints_members_valid(el.oxidation_states.notable@);
    lemma_ints_members_valid(el.oxidation_states.predicted@);
    lemma_ints_members_valid(el.oxidation_states.citation_needed@);
}

/// A canonical sequence of integers holds only valid values.
proof fn lemma_ints_members_valid(xs: Seq<i8>)
    ensures
        forall|i: int| 0 <= i < canon_ints(xs).len() ==> gvalid(#[trigger] canon_ints(xs)[i]),
{
    lemma_canon_ints(xs);
    let c = canon_ints(xs);
    assert forall|i: int| 0 <= i < c.len() implies gvalid(#[trigger] c[i]) by {
        assert(c.contains(c[i]));
    }
}

/// Members of a union or difference of two valid member sequences are valid.
proof fn lemma_set_members_valid(r: Seq<GValue>, s: Seq<GValue>, t: Seq<GValue>)
    requires
        forall|x: GValue| #[trigger] r.contains(x) ==> s.contains(x) || t.contains(x),
        forall|i: int| 0 <= i < s.len() ==> gvalid(#[trigger] s[i]),
        forall|i: int| 0 <= i < t.len() ==> gvalid(#[trigger] t[i]),
    ensures
        forall|i: int| 0 <= i < r.len() ==> gvalid(#[trigger] r[i]),
{
    assert forall|i: int| 0 <= i < r.len() implies gvalid(#[trigger] r[i]) by {
        assert(r.contains(r[i]));
        if s.contains(r[i]) {
            let k = choose|k: int| 0 <= k < s.len() && s[k] == r[i];
        } else {
            let k = choose|k: int| 0 <= k < t.len() && t[k] == r[i];
        }
    }
}

/// Type safety of equality: comparing values of different kinds is a type
/// error, never a boolean.
pub proof fn lemma_mixed_equality_is_type_error(l: GValue, r: GValue)
    requires
        tag_of(l) != tag_of(r),
    ensures
        g_apply_binary(BinaryOperator::Equal, l, r) == Err::<GValue, GEvalError>(
            GEvalError::BinaryMismatch(BinaryOperator::Equal, l, r),
        ),
{
}

/// On two canonical sets the evaluator's `==` is set equality: it yields
/// `true` exactly when the two sets hold the same members.
pub proof fn lemma_equal_on_sets(s: Seq<GValue>, t: Seq<GValue>)
    requires
        strictly_sorted(s),
        strictly_sorted(t),
    ensures
        g_apply_binary(BinaryOperator::Equal, GValue::SetOf(s), GValue::SetOf(t)) == Ok::<
            GValue,
            GEvalError,
        >(GValue::Bool(s == t)),
        (s == t) <==> (forall|x: GValue|
            #![trigger s.contains(x)]
            #![trigger t.contains(x)]
            s.contains(x) <==> t.contains(x)),
{
    if forall|x: GValue|
        #![trigger s.contains(x)]
        #![trigger t.contains(x)]
        s.contains(x) <==> t.contains(x) {
        lemma_canonical_eq(s, t);
    }
}

/// A member error anywhere in a prefix is the whole evaluation's error.
proof fn lemma_members_err_extend(els: Seq<GExpr>, k: int, el: Element, err: GEvalError)
    requires
        0 <= k <= els.len(),
        g_eval_members(els.take(k), el) == Err::<Seq<GValue>, GEvalError>(err),
    ensures
        g_eval_members(els, el) == Err::<Seq<GValue>, GEvalError>(err),
    decreases els.len() - k,
{
    if k < els.len() {
        assert(els.take(k + 1).drop_last() =~= els.take(k));
        assert(els.take(k + 1).last() == els[k]);
        lemma_members_err_extend(els, k + 1, el, err);
    } else {
        assert(els.take(k) =~= els);
    }
}

/// Whether the string holds exactly the given text.
fn str_is(s: &String, lit: &str) -> (r: bool)
    ensures
        r == (s@ == lit@),
{
    s.eq(&lit.to_owned())
}

/// The canonical set value holding the given integers.
fn ints_to_set(xs: &Vec<i8>) -> (r: Vec<Value>)
    ensures
        view_values(r@) == canon_ints(xs@),
{
    let mut acc: Vec<Value> = Vec::new();
    let mut i: usize = 0;
    while i < xs.len()
        invariant
            i <= xs@.len(),
            view_values(acc@) == canon_ints(xs@.take(i as int)),
        decreases xs@.len() - i,
    {
        proof {
            assert(xs@.take(i + 1).drop_last() =~= xs@.take(i as int));
            assert(xs@.take(i + 1).last() == xs@[i as int]);
        }
        acc = set_insert(acc, Value::Int(xs[i] as i32));
        i = i + 1;
    }
    proof {
        assert(xs@.take(xs@.len() as int) =~= xs@);
    }
    acc
}

/// The value of one symbol for one element, per the fixed table.
fn lookup_symbol(name: &String, element: &Element) -> (res: Result<Value, EvalError>)
    ensures
        (match g_lookup(name@, *element) {
            Ok(gv) => res matches Ok(v) && v@ == gv,
            Err(ge) => res matches Err(e) && e@ == ge,
        }),
{
    if str_is(name, "atomic_number") || str_is(name, "z") {
        Ok(Value::Int(element.atomic_number as i32))
    } else if str_is(name, "group") {
        match element.group {
            Some(g) => Ok(Value::Int(g as i32)),
            None => Ok(Value::Int(-1)),
        }
    } else if str_is(name, "period") {
        Ok(Value::Int(element.period as i32))
    } else if str_is(name, "block") {
        Ok(Value::Int(element.block as i32))
    } else if str_is(name, "oxidation_states.common") {
        Ok(Value::SetOf(ints_to_set(&element.oxidation_states.common)))
    } else if str_is(name, "oxidation_states.notable") {
        Ok(Value::SetOf(ints_to_set(&element.oxidation_states.notable)))
    } else if str_is(name, "oxidation_states.predicted") {
        Ok(Value::SetOf(ints_to_set(&element.oxidation_states.predicted)))
    } else if str_is(name, "oxidation_states.citation_needed") {
        Ok(Value::SetOf(ints_to_set(&element.oxidation_states.citation_needed)))
    } else {
        Err(EvalError::UnknownSymbol(name.clone()))
    }
}

/// What a binary operator yields on two evaluated operands.
fn apply_binary(op: BinaryOperator, l: Value, r: Value) -> (res: Result<Value, EvalError>)
    ensures
        (match g_apply_binary(op, l@, r@) {
            Ok(gv) => res matches Ok(v) && v@ == gv,
            Err(ge) => res matches Err(e) && e@ == ge,
        }),
{
    match (op, l, r) {
        (BinaryOperator::Or, Value::Bool(x), Value::Bool(y)) => Ok(Value::Bool(x || y)),
        (BinaryOperator::And, Value::Bool(x), Value::Bool(y)) => Ok(Value::Bool(x && y)),
        (BinaryOperator::Equal, Value::Bool(x), Value::Bool(y)) => Ok(Value::Bool(x == y)),
        (BinaryOperator::Equal, Value::Int(x), Value::Int(y)) => Ok(Value::Bool(x == y)),
        (BinaryOperator::Equal, Value::SetOf(s), Value::SetOf(t)) => Ok(
            Value::Bool(values_eq(&s, &t)),
        ),
        (BinaryOperator::NotEqual, Value::Bool(x), Value::Bool(y)) => Ok(Value::Bool(x != y)),
        (BinaryOperator::NotEqual, Value::Int(x), Value::Int(y)) => Ok(Value::Bool(x != y)),
        (BinaryOperator::NotEqual, Value::SetOf(s), Value::SetOf(t)) => Ok(
            Value::Bool(!values_eq(&s, &t)),
        ),
        (BinaryOperator::LessThan, Value::Int(x), Value::Int(y)) => Ok(Value::Bool(x < y)),
        (BinaryOperator::LessEqual, Value::Int(x), Value::Int(y)) => Ok(Value::Bool(x <= y)),
        (BinaryOperator::GreaterThan, Value::Int(x), Value::Int(y)) => Ok(Value::Bool(x > y)),
        (BinaryOperator::GreaterEqual, Value::Int(x), Value::Int(y)) => Ok(Value::Bool(x >= y)),
        (BinaryOperator::Plus, Value::Int(x), Value::Int(y)) => {
            match x.checked_add(y) {
                Some(s) => Ok(Value::Int(s)),
                None => Err(EvalError::Overflow),
            }
        },
        (BinaryOperator::Minus, Value::Int(x), Value::Int(y)) => {
            match x.checked_sub(y) {
                Some(s) => Ok(Value::Int(s)),
                None => Err(EvalError::Overflow),
            }
        },
        (BinaryOperator::Multiply, Value::Int(x), Value::Int(y)) => {
            match x.checked_mul(y) {
                Some(s) => Ok(Value::Int(s)),
                None => Err(EvalError::Overflow),
            }
        },
        (BinaryOperator::Divide, Value::Int(x), Value::Int(y)) => {
            if y == 0 {
                Err(EvalError::DivisionByZero)
            } else {
                match x.checked_div(y) {
                    Some(q) => Ok(Value::Int(q)),
                    None => Err(EvalError::Overflow),
                }
            }
        },
        (BinaryOperator::Plus, Value::SetOf(s), Value::SetOf(t)) => Ok(
            Value::SetOf(set_union(s, &t)),
        ),
        (BinaryOperator::Minus, Value::SetOf(s), Value::SetOf(t)) => Ok(
            Value::SetOf(set_diff(&s, &t)),
        ),
        (BinaryOperator::InSet, Value::SetOf(s), Value::SetOf(t)) => Ok(
            Value::Bool(set_all_in(&s, &t)),
        ),
        (BinaryOperator::InSet, Value::Int(x), Value::SetOf(t)) => Ok(
            Value::Bool(set_contains(&t, &Value::Int(x))),
        ),
        (BinaryOperator::InSet, Value::Bool(x), Value::SetOf(t)) => Ok(
            Value::Bool(set_contains(&t, &Value::Bool(x))),
        ),
        (o, lv, rv) => Err(EvalError::BinaryMismatch(o, lv, rv)),
    }
}

impl Value {
    /// Evaluates one expression against one element: exactly what `g_eval`
    /// states, for every expression and every element.
    pub fn eval(expr: &Expr, element: &Element) -> (res: Result<Value, EvalError>)
        ensures
            (match g_eval(expr@, *element) {
                Ok(gv) => res matches Ok(v) && v@ == gv,
                Err(ge) => res matches Err(e) && e@ == ge,
            }),
        decreases *expr,
    {
        match expr {
            Expr::LBool(b) => Ok(Value::Bool(*b)),
            Expr::LInt(i) => Ok(Value::Int(*i)),
            Expr::Symbol(name) => lookup_symbol(name, element),
            Expr::LSet(els) => {
                let ghost gels = view_exprs(els@);
                proof {
                    lemma_view_exprs(els@);
                }
                let mut acc: Vec<Value> = Vec::new();
                let mut i: usize = 0;
                while i < els.len()
                    invariant
                        *expr == Expr::LSet(*els),
                        gels == view_exprs(els@),
                        gels.len() == els@.len(),
                        forall|j: int| 0 <= j < els@.len() ==> gels[j] == view_expr(els@[j]),
                        i <= els@.len(),
                        g_eval_members(gels.take(i as int), *element) == Ok::<
                            Seq<GValue>,
                            GEvalError,
                        >(view_values(acc@)),
                    decreases els@.len() - i,
                {
                    proof {
                        assert(*els == expr->LSet_0);
                        assert(decreases_to!(*expr => expr->LSet_0));
                        assert(decreases_to!(*els => els@));
                        assert(decreases_to!(els@ => els@[i as int]));
                        assert(decreases_to!(*expr => els@[i as int]));
                        assert(gels.take(i + 1).drop_last() =~= gels.take(i as int));
                        assert(gels.take(i + 1).last() == gels[i as int]);
                    }
                    match Value::eval(&els[i], element) {
                        Ok(v) => {
                            acc = set_insert(acc, v);
                        },
                        Err(e) => {
                            proof {
                                assert(g_eval_members(gels.take(i + 1), *element) == Err::<
                                    Seq<GValue>,
                                    GEvalError,
                                >(e@));
                                lemma_members_err_extend(gels, i + 1, *element, e@);
                            }
                            return Err(e);
                        },
                    }
                    i = i + 1;
                }
                proof {
                    assert(gels.take(gels.len() as int) =~= gels);
                }
                Ok(Value::SetOf(acc))
            },
            Expr::UnaryOp(op, sub) => {
                let v = match Value::eval(&**sub, element) {
                    Ok(v) => v,
                    Err(e) => {
                        return Err(e);
                    },
                };
                match (op, v) {
                    (UnaryOperator::Not, Value::Bool(b)) => Ok(Value::Bool(!b)),
                    (UnaryOperator::Minus, Value::Int(i)) => {
                        if i == i32::MIN {
                            Err(EvalError::Overflow)
                        } else {
                            Ok(Value::Int(-i))
                        }
                    },
                    (o, other) => Err(EvalError::UnaryMismatch(*o, other)),
                }
            },
            Expr::BinaryOp(op, l, r) => {
                let lv = match Value::eval(&**l, element) {
                    Ok(v) => v,
                    Err(e) => {
                        return Err(e);
                    },
                };
                let rv = match Value::eval(&**r, element) {
                    Ok(v) => v,
                    Err(e) => {
                        return Err(e);
                    },
                };
                apply_binary(*op, lv, rv)
            },
        }
    }
}

} // verus!
