//! Compiled queries.
//!
//! A [`Query`] wraps one parsed expression: built once from a query string,
//! immutable, and evaluated once per element, yielding one boolean or a
//! descriptive error.

use vstd::prelude::*;

use crate::ast::{view_expr, Expr, GExpr};
use crate::elements::Element;
use crate::eval::{g_eval, EvalError, GEvalError};
use crate::parser::{parse_query, sp_query, ParseError};
use crate::value::{GValue, Value};
use vstd::string::StringSliceAdditionalSpecFns;

verus! {

/// A compiled boolean expression over element attributes.
#[derive(Debug)]
pub struct Query {
    compiled: Expr,
}

impl View for Query {
    type V = GExpr;

    closed spec fn view(&self) -> GExpr {
        view_expr(self.compiled)
    }
}

impl Clone for Query {
    /// A clone mirrors the original exactly.
    fn clone(&self) -> (r: Self)
        ensures
            r@ == self@,
    {
        Query { compiled: self.compiled.clone() }
    }
}

impl Query {
    /// Compiles one query string: the whole input must be one expression,
    /// modulo surrounding whitespace; any remainder is an error.
    pub fn new(input: &str) -> (r: Result<Query, ParseError>)
        ensures
            (match sp_query(input.spec_bytes()) {
                Ok(g) => r matches Ok(q) && q@ == g,
                Err(pe) => r == Err::<Query, ParseError>(pe),
            }),
    {
        match parse_query(input) {
            Ok(e) => Ok(Query { compiled: e }),
            Err(pe) => Err(pe),
        }
    }

    /// Evaluates the query against one element: the boolean the evaluator
    /// yields; a non-boolean result is itself an error, never coerced.
    pub fn evaluate_on(&self, element: &Element) -> (r: Result<bool, EvalError>)
        ensures
            (match g_eval(self@, *element) {
                Ok(v) => (match v {
                    GValue::Bool(b) => r == Ok::<bool, EvalError>(b),
                    _ => r matches Err(e) && e@ == GEvalError::NotBoolean(v),
                }),
                Err(ge) => r matches Err(e) && e@ == ge,
            }),
    {
        match Value::eval(&self.compiled, element) {
            Ok(Value::Bool(b)) => Ok(b),
            Ok(other) => Err(EvalError::NotBoolean(other)),
            Err(e) => Err(e),
        }
    }
}

/// One user-supplied marking: a renderer color and the query that selects
/// the elements it applies to.
#[derive(Debug)]
pub struct MarkQuery {
    pub color: String,
    pub query: Query,
}

impl Clone for MarkQuery {
    /// A clone mirrors the original exactly.
    fn clone(&self) -> (r: Self)
        ensures
            r.color@ == self.color@,
            r.query@ == self.query@,
    {
        MarkQuery { color: self.color.clone(), query: self.query.clone() }
    }
}

} // verus!
