//! The query grammar and its parser.
//!
//! The grammar is a precedence ladder of thirteen left-associative binary
//! levels (loosest first: `||`, `&&`, `==`, `!=`, `<`, `<=`, `>`, `>=`,
//! `in`, `+`, `-`, `*`, `/`), then prefix `!`, then prefix `-`, then the
//! primary forms: a parenthesized expression, a set literal, a boolean
//! literal, a signed integer literal, or a dot-segmented symbol.
//!
//! The spec functions state exactly what is parsed, over the input's UTF-8
//! bytes; the executable parser returns the same tree and the same new
//! position, or the same error, and never panics.

use vstd::prelude::*;

use crate::ast::{view_expr, view_exprs, BinaryOperator, Expr, GExpr, UnaryOperator};
use vstd::string::StrSliceExecFns;
use vstd::string::StringSliceAdditionalSpecFns;

verus! {

/// A parse error, with the byte offset of the offending region.
#[derive(PartialEq, Eq, Debug, Clone, Copy)]
pub enum ParseError {
    /// No literal, symbol, set or group starts here.
    UnexpectedToken { at: usize },
    /// An integer literal outside the 32-bit signed range.
    IntOutOfRange { at: usize },
    /// A parenthesized expression without its `)`.
    MissingClosingParen { at: usize },
    /// A set literal without its `}`.
    MissingClosingBrace { at: usize },
    /// The query went on after a complete expression.
    TrailingInput { at: usize },
}

impl ParseError {
    /// The byte offset of the offending region.
    pub fn at(&self) -> (r: usize)
        ensures
            (match *self {
                ParseError::UnexpectedToken { at } => r == at,
                ParseError::IntOutOfRange { at } => r == at,
                ParseError::MissingClosingParen { at } => r == at,
                ParseError::MissingClosingBrace { at } => r == at,
                ParseError::TrailingInput { at } => r == at,
            }),
    {
        match self {
            ParseError::UnexpectedToken { at } => *at,
            ParseError::IntOutOfRange { at } => *at,
            ParseError::MissingClosingParen { at } => *at,
            ParseError::MissingClosingBrace { at } => *at,
            ParseError::TrailingInput { at } => *at,
        }
    }

    /// A short description of the error.
    pub fn message(&self) -> (r: &'static str)
        ensures
            (match *self {
                ParseError::UnexpectedToken { .. } => r@ == "expected an expression"@,
                ParseError::IntOutOfRange { .. } => r@ == "integer literal out of range"@,
                ParseError::MissingClosingParen { .. } => r@ == "missing closing parenthesis"@,
                ParseError::MissingClosingBrace { .. } => r@ == "missing closing brace"@,
                ParseError::TrailingInput { .. } => r@ == "unexpected continuation after the query"@,
            }),
    {
        match self {
            ParseError::UnexpectedToken { .. } => "expected an expression",
            ParseError::IntOutOfRange { .. } => "integer literal out of range",
            ParseError::MissingClosingParen { .. } => "missing closing parenthesis",
            ParseError::MissingClosingBrace { .. } => "missing closing brace",
            ParseError::TrailingInput { .. } => "unexpected continuation after the query",
        }
    }
}

/// An ASCII whitespace byte: space, tab, newline or carriage return.
pub open spec fn is_ws(b: u8) -> bool {
    b == 32 || b == 9 || b == 10 || b == 13
}

/// An ASCII decimal digit.
pub open spec fn is_digit(b: u8) -> bool {
    48 <= b <= 57
}

/// An ASCII letter.
pub open spec fn is_alpha(b: u8) -> bool {
    (65 <= b <= 90) || (97 <= b <= 122)
}

/// A letter, digit or underscore: what a symbol segment continues with.
pub open spec fn is_ident(b: u8) -> bool {
    is_alpha(b) || is_digit(b) || b == 95
}

/// The first position at or after `pos` that does not hold whitespace.
pub open spec fn sp_ws(s: Seq<u8>, pos: int) -> int
    decreases s.len() - pos,
{
    if 0 <= pos < s.len() && is_ws(s[pos]) {
        sp_ws(s, pos + 1)
    } else {
        pos
    }
}

/// The first position at or after `pos` that does not continue an
/// identifier.
pub open spec fn sp_ident_end(s: Seq<u8>, pos: int) -> int
    decreases s.len() - pos,
{
    if 0 <= pos < s.len() && is_ident(s[pos]) {
        sp_ident_end(s, pos + 1)
    } else {
        pos
    }
}

/// The first position at or after `pos` that does not hold a digit.
pub open spec fn sp_digits_end(s: Seq<u8>, pos: int) -> int
    decreases s.len() - pos,
{
    if 0 <= pos < s.len() && is_digit(s[pos]) {
        sp_digits_end(s, pos + 1)
    } else {
        pos
    }
}

/// The number written by the digits in `[from, to)`.
pub open spec fn sp_digits_val(s: Seq<u8>, from: int, to: int) -> int
    decreases to - from,
{
    if from < to {
        sp_digits_val(s, from, to - 1) * 10 + (s[to - 1] - 48)
    } else {
        0
    }
}

/// Matches one byte `c` after whitespace: the position after it, or nothing.
pub open spec fn sp_tag1(s: Seq<u8>, pos: int, c: u8) -> Option<int> {
    let p = sp_ws(s, pos);
    if pos <= p && p < s.len() && s[p] == c {
        Some(p + 1)
    } else {
        None
    }
}

/// Matches two bytes `c0 c1` after whitespace: the position after them, or
/// nothing.
pub open spec fn sp_tag2(s: Seq<u8>, pos: int, c0: u8, c1: u8) -> Option<int> {
    let p = sp_ws(s, pos);
    if pos <= p && p + 1 < s.len() && s[p] == c0 && s[p + 1] == c1 {
        Some(p + 2)
    } else {
        None
    }
}

/// The binary operator parsed at one precedence level, loosest first.
pub open spec fn level_binop(level: int) -> BinaryOperator {
    if level == 0 {
        BinaryOperator::Or
    } else if level == 1 {
        BinaryOperator::And
    } else if level == 2 {
        BinaryOperator::Equal
    } else if level == 3 {
        BinaryOperator::NotEqual
    } else if level == 4 {
        BinaryOperator::LessThan
    } else if level == 5 {
        BinaryOperator::LessEqual
    } else if level == 6 {
        BinaryOperator::GreaterThan
    } else if level == 7 {
        BinaryOperator::GreaterEqual
    } else if level == 8 {
        BinaryOperator::InSet
    } else if level == 9 {
        BinaryOperator::Plus
    } else if level == 10 {
        BinaryOperator::Minus
    } else if level == 11 {
        BinaryOperator::Multiply
    } else {
        BinaryOperator::Divide
    }
}

/// Matches one precedence level's operator token after whitespace.
pub open spec fn sp_level_tag(s: Seq<u8>, pos: int, level: int) -> Option<int> {
    if level == 0 {
        sp_tag2(s, pos, 124, 124)  // ||
    } else if level == 1 {
        sp_tag2(s, pos, 38, 38)  // &&
    } else if level == 2 {
        sp_tag2(s, pos, 61, 61)  // ==
    } else if level == 3 {
        sp_tag2(s, pos, 33, 61)  // !=
    } else if level == 4 {
        sp_tag1(s, pos, 60)  // <
    } else if level == 5 {
        sp_tag2(s, pos, 60, 61)  // <=
    } else if level == 6 {
        sp_tag1(s, pos, 62)  // >
    } else if level == 7 {
        sp_tag2(s, pos, 62, 61)  // >=
    } else if level == 8 {
        sp_tag2(s, pos, 105, 110)  // in
    } else if level == 9 {
        sp_tag1(s, pos, 43)  // +
    } else if level == 10 {
        sp_tag1(s, pos, 45)  // -
    } else if level == 11 {
        sp_tag1(s, pos, 42)  // *
    } else {
        sp_tag1(s, pos, 47)  // /
    }
}

/// The characters of the symbol written in `[from, to)`; symbols are ASCII,
/// each byte is its character.
pub open spec fn sym_chars(s: Seq<u8>, from: int, to: int) -> Seq<char> {
    s.subrange(from, to).map_values(|b: u8| b as char)
}

/// Parses a signed integer literal at `p` (no leading whitespace): an
/// optional sign, one or more digits, and a 32-bit signed range check.
pub open spec fn sp_int(s: Seq<u8>, p: int) -> Result<(GExpr, int), ParseError> {
    if !(0 <= p < s.len()) {
        Err(ParseError::UnexpectedToken { at: p as usize })
    } else {
        let neg = s[p] == 45;
        let d0 = if s[p] == 45 || s[p] == 43 {
            p + 1
        } else {
            p
        };
        let dend = sp_digits_end(s, d0);
        if dend == d0 {
            Err(ParseError::UnexpectedToken { at: p as usize })
        } else {
            let m = sp_digits_val(s, d0, dend);
            let v = if neg {
                -m
            } else {
                m
            };
            if v < i32::MIN || v > i32::MAX {
                Err(ParseError::IntOutOfRange { at: p as usize })
            } else {
                Ok((GExpr::LInt(v as i32), dend))
            }
        }
    }
}

/// The end of the dot-segmented continuation of a symbol: repeatedly a dot
/// followed by a segment that starts with a letter.
pub open spec fn sp_dots_end(s: Seq<u8>, pos: int) -> int
    decreases s.len() - pos,
{
    if 0 <= pos && pos + 1 < s.len() && s[pos] == 46 && is_alpha(s[pos + 1]) {
        let q = sp_ident_end(s, pos + 2);
        // a segment only moves forward; the test makes that evident to the
        // termination checker
        if pos < q <= s.len() {
            sp_dots_end(s, q)
        } else {
            pos
        }
    } else {
        pos
    }
}

/// Parses a symbol at `p` (no leading whitespace): a letter starts each
/// dot-segment, letters, digits and underscores continue it.
pub open spec fn sp_symbol(s: Seq<u8>, p: int) -> Result<(GExpr, int), ParseError> {
    if !(0 <= p < s.len() && is_alpha(s[p])) {
        Err(ParseError::UnexpectedToken { at: p as usize })
    } else {
        let e1 = sp_ident_end(s, p + 1);
        let e2 = sp_dots_end(s, e1);
        Ok((GExpr::Symbol(sym_chars(s, p, e2)), e2))
    }
}

/// Whether `[p, p+4)` spells `true`.
pub open spec fn sp_lit_true(s: Seq<u8>, p: int) -> bool {
    0 <= p && p + 4 <= s.len() && s[p] == 116 && s[p + 1] == 114 && s[p + 2] == 117 && s[p + 3]
        == 101
}

/// Whether `[p, p+5)` spells `false`.
pub open spec fn sp_lit_false(s: Seq<u8>, p: int) -> bool {
    0 <= p && p + 5 <= s.len() && s[p] == 102 && s[p + 1] == 97 && s[p + 2] == 108 && s[p + 3]
        == 115 && s[p + 4] == 101
}

/// Parses one precedence level: for a binary level, the next-tighter level
/// followed by a left fold of its operator; level 13 is prefix `!`, level 14
/// prefix `-`, level 15 the primary forms.
pub open spec fn sp_level(s: Seq<u8>, pos: int, level: int) -> Result<(GExpr, int), ParseError>
    decreases s.len() - pos, 44 - 2 * (if level <= 15 { level } else { 15 }),
{
    if level <= 12 {
        match sp_level(s, pos, level + 1) {
            Err(e) => Err(e),
            Ok((e0, p0)) => {
                // a parse only moves forward; the test makes that evident to
                // the termination checker
                if pos <= p0 <= s.len() {
                    sp_fold(s, p0, level, e0)
                } else {
                    Err(ParseError::UnexpectedToken { at: pos as usize })
                }
            },
        }
    } else if level == 13 || level == 14 {
        let c: u8 = if level == 13 {
            33
        } else {
            45
        };  // ! or -
        let op = if level == 13 {
            UnaryOperator::Not
        } else {
            UnaryOperator::Minus
        };
        match sp_tag1(s, pos, c) {
            Some(p1) => match sp_level(s, p1, level + 1) {
                Ok((e, p2)) => Ok((GExpr::UnaryOp(op, Box::new(e)), p2)),
                Err(_) => sp_level(s, pos, level + 1),
            },
            None => sp_level(s, pos, level + 1),
        }
    } else {
        sp_primary(s, pos)
    }
}

/// Left-folds one binary level's operator: as long as its token follows,
/// parses the next-tighter level and extends the tree to the left.
pub open spec fn sp_fold(s: Seq<u8>, pos: int, level: int, acc: GExpr) -> Result<
    (GExpr, int),
    ParseError,
>
    decreases s.len() - pos, 43 - 2 * (if level <= 15 { level } else { 15 }),
{
    match sp_level_tag(s, pos, level) {
        None => Ok((acc, pos)),
        Some(p1) => match sp_level(s, p1, level + 1) {
            Err(_) => Ok((acc, pos)),
            Ok((rhs, p2)) => {
                // a parse only moves forward; the test makes that evident to
                // the termination checker
                if p1 <= p2 <= s.len() {
                    sp_fold(
                        s,
                        p2,
                        level,
                        GExpr::BinaryOp(level_binop(level), Box::new(acc), Box::new(rhs)),
                    )
                } else {
                    Ok((acc, pos))
                }
            },
        },
    }
}

/// Parses a primary form after whitespace: a parenthesized expression, a set
/// literal, `true`, `false`, an integer literal, or a symbol.
pub open spec fn sp_primary(s: Seq<u8>, pos: int) -> Result<(GExpr, int), ParseError>
    decreases s.len() - pos, 10int,
{
    let p = sp_ws(s, pos);
    if !(pos <= p <= s.len()) {
        // skipping whitespace only moves forward; the test makes that
        // evident to the termination checker
        Err(ParseError::UnexpectedToken { at: pos as usize })
    } else if p < s.len() && s[p] == 40 {  // (
        match sp_level(s, p + 1, 0) {
            Err(e) => Err(e),
            Ok((e, p2)) => match sp_tag1(s, p2, 41) {  // )
                Some(p3) => Ok((e, p3)),
                None => Err(ParseError::MissingClosingParen { at: p2 as usize }),
            },
        }
    } else if p < s.len() && s[p] == 123 {  // {
        let (items, p2) = sp_set_items(s, p + 1);
        match sp_tag1(s, p2, 125) {  // }
            Some(p3) => Ok((GExpr::LSet(items), p3)),
            None => Err(ParseError::MissingClosingBrace { at: p2 as usize }),
        }
    } else if sp_lit_true(s, p) {
        Ok((GExpr::LBool(true), p + 4))
    } else if sp_lit_false(s, p) {
        Ok((GExpr::LBool(false), p + 5))
    } else if p < s.len() && (s[p] == 43 || s[p] == 45 || is_digit(s[p])) {
        sp_int(s, p)
    } else if p < s.len() && is_alpha(s[p]) {
        sp_symbol(s, p)
    } else {
        Err(ParseError::UnexpectedToken { at: p as usize })
    }
}

/// Parses the comma-separated members of a set literal, zero or more; a
/// member that fails to parse ends the list without consuming.
pub open spec fn sp_set_items(s: Seq<u8>, pos: int) -> (Seq<GExpr>, int)
    decreases s.len() - pos, 51int,
{
    match sp_level(s, pos, 0) {
        Err(_) => (Seq::empty(), pos),
        Ok((e, p1)) => {
            // a parse only moves forward; the test makes that evident to the
            // termination checker
            if pos <= p1 <= s.len() {
                sp_set_more(s, p1, seq![e])
            } else {
                (seq![e], pos)
            }
        },
    }
}

/// Parses further `, member` pairs of a set literal; the comma must follow
/// the previous member directly.
pub open spec fn sp_set_more(s: Seq<u8>, pos: int, acc: Seq<GExpr>) -> (Seq<GExpr>, int)
    decreases s.len() - pos, 50int,
{
    if 0 <= pos < s.len() && s[pos] == 44 {  // ,
        match sp_level(s, pos + 1, 0) {
            Err(_) => (acc, pos),
            Ok((e, p2)) => {
                // a parse only moves forward; the test makes that evident to
                // the termination checker
                if pos + 1 <= p2 <= s.len() {
                    sp_set_more(s, p2, acc.push(e))
                } else {
                    (acc.push(e), pos)
                }
            },
        }
    } else {
        (acc, pos)
    }
}

/// Parses a boolean literal after whitespace: the token `true` or `false`.
pub open spec fn sp_bool(s: Seq<u8>, pos: int) -> Result<(GExpr, int), ParseError> {
    let p = sp_ws(s, pos);
    if sp_lit_true(s, p) {
        Ok((GExpr::LBool(true), p + 4))
    } else if sp_lit_false(s, p) {
        Ok((GExpr::LBool(false), p + 5))
    } else {
        Err(ParseError::UnexpectedToken { at: p as usize })
    }
}

/// Parses a whole query: a full expression, trailing whitespace, and the
/// end of the input; any remainder is an error, never a silent truncation.
pub open spec fn sp_query(s: Seq<u8>) -> Result<GExpr, ParseError> {
    match sp_level(s, 0, 0) {
        Err(e) => Err(e),
        Ok((e, p)) => {
            let p2 = sp_ws(s, p);
            if p2 == s.len() {
                Ok(e)
            } else {
                Err(ParseError::TrailingInput { at: p2 as usize })
            }
        },
    }
}

/// An identifier scan stays inside the input and passes only identifier
/// bytes.
pub proof fn lemma_sp_ident_end(s: Seq<u8>, pos: int)
    requires
        0 <= pos <= s.len(),
    ensures
        pos <= sp_ident_end(s, pos) <= s.len(),
        forall|j: int| pos <= j < sp_ident_end(s, pos) ==> is_ident(#[trigger] s[j]),
    decreases s.len() - pos,
{
    if pos < s.len() && is_ident(s[pos]) {
        lemma_sp_ident_end(s, pos + 1);
    }
}

/// A digit scan stays inside the input and passes only digits.
pub proof fn lemma_sp_digits_end(s: Seq<u8>, pos: int)
    requires
        0 <= pos <= s.len(),
    ensures
        pos <= sp_digits_end(s, pos) <= s.len(),
        forall|j: int| pos <= j < sp_digits_end(s, pos) ==> is_digit(#[trigger] s[j]),
    decreases s.len() - pos,
{
    if pos < s.len() && is_digit(s[pos]) {
        lemma_sp_digits_end(s, pos + 1);
    }
}

/// The dot-segment scan stays inside the input and passes only dots and
/// identifier bytes.
pub proof fn lemma_sp_dots_end(s: Seq<u8>, pos: int)
    requires
        0 <= pos <= s.len(),
    ensures
        pos <= sp_dots_end(s, pos) <= s.len(),
        forall|j: int| pos <= j < sp_dots_end(s, pos) ==> s[j] == 46 || is_ident(#[trigger] s[j]),
    decreases s.len() - pos,
{
    if 0 <= pos && pos + 1 < s.len() && s[pos] == 46 && is_alpha(s[pos + 1]) {
        lemma_sp_ident_end(s, pos + 2);
        let q = sp_ident_end(s, pos + 2);
        if pos < q <= s.len() {
            lemma_sp_dots_end(s, q);
        }
    }
}

/// The number written by a digit run is never negative.
pub proof fn lemma_digits_val_nonneg(s: Seq<u8>, from: int, to: int)
    requires
        forall|j: int| from <= j < to ==> is_digit(#[trigger] s[j]),
    ensures
        sp_digits_val(s, from, to) >= 0,
    decreases to - from,
{
    if from < to {
        lemma_digits_val_nonneg(s, from, to - 1);
    }
}

/// Skips whitespace: the first position holding none.
fn skip_ws(s: &Vec<u8>, pos: usize) -> (r: usize)
    requires
        pos <= s@.len(),
    ensures
        r as int == sp_ws(s@, pos as int),
        pos <= r <= s@.len(),
{
    let mut i = pos;
    while i < s.len() && (s[i] == 32 || s[i] == 9 || s[i] == 10 || s[i] == 13)
        invariant
            pos <= i <= s@.len(),
            sp_ws(s@, pos as int) == sp_ws(s@, i as int),
        decreases s@.len() - i,
    {
        i = i + 1;
    }
    i
}

/// Scans identifier bytes: the first position not continuing an identifier.
fn ident_end(s: &Vec<u8>, pos: usize) -> (r: usize)
    requires
        pos <= s@.len(),
    ensures
        r as int == sp_ident_end(s@, pos as int),
        pos <= r <= s@.len(),
{
    let mut i = pos;
    while i < s.len() && ((65 <= s[i] && s[i] <= 90) || (97 <= s[i] && s[i] <= 122) || (48 <= s[i]
        && s[i] <= 57) || s[i] == 95)
        invariant
            pos <= i <= s@.len(),
            sp_ident_end(s@, pos as int) == sp_ident_end(s@, i as int),
        decreases s@.len() - i,
    {
        i = i + 1;
    }
    i
}

/// Scans digits: the first position not holding one.
fn digits_end(s: &Vec<u8>, pos: usize) -> (r: usize)
    requires
        pos <= s@.len(),
    ensures
        r as int == sp_digits_end(s@, pos as int),
        pos <= r <= s@.len(),
{
    let mut i = pos;
    while i < s.len() && (48 <= s[i] && s[i] <= 57)
        invariant
            pos <= i <= s@.len(),
            sp_digits_end(s@, pos as int) == sp_digits_end(s@, i as int),
        decreases s@.len() - i,
    {
        i = i + 1;
    }
    i
}

/// Scans a symbol's dot-segmented continuation.
fn dots_end(s: &Vec<u8>, pos: usize) -> (r: usize)
    requires
        pos <= s@.len(),
    ensures
        r as int == sp_dots_end(s@, pos as int),
        pos <= r <= s@.len(),
{
    let mut i = pos;
    loop
        invariant
            pos <= i <= s@.len(),
            sp_dots_end(s@, pos as int) == sp_dots_end(s@, i as int),
        decreases s@.len() - i,
    {
        if i < s.len() && i + 1 < s.len() && s[i] == 46 && ((65 <= s[i + 1] && s[i + 1] <= 90) || (
        97 <= s[i + 1] && s[i + 1] <= 122)) {
            let q = ident_end(s, i + 2);
            i = q;
        } else {
            return i;
        }
    }
}

/// Matches one byte `c` after whitespace.
fn tag1(s: &Vec<u8>, pos: usize, c: u8) -> (r: Option<usize>)
    requires
        pos <= s@.len(),
    ensures
        (match sp_tag1(s@, pos as int, c) {
            Some(p) => r matches Some(q) && q == p && pos < q <= s@.len(),
            None => r is None,
        }),
{
    let p = skip_ws(s, pos);
    if p < s.len() && s[p] == c {
        Some(p + 1)
    } else {
        None
    }
}

/// Matches two bytes `c0 c1` after whitespace.
fn tag2(s: &Vec<u8>, pos: usize, c0: u8, c1: u8) -> (r: Option<usize>)
    requires
        pos <= s@.len(),
    ensures
        (match sp_tag2(s@, pos as int, c0, c1) {
            Some(p) => r matches Some(q) && q == p && pos < q <= s@.len(),
            None => r is None,
        }),
{
    let p = skip_ws(s, pos);
    if p < s.len() && p + 1 < s.len() && s[p] == c0 && s[p + 1] == c1 {
        Some(p + 2)
    } else {
        None
    }
}

/// Matches one precedence level's operator token.
fn level_tag(s: &Vec<u8>, pos: usize, level: u8) -> (r: Option<usize>)
    requires
        pos <= s@.len(),
        level <= 12,
    ensures
        (match sp_level_tag(s@, pos as int, level as int) {
            Some(p) => r matches Some(q) && q == p && pos < q <= s@.len(),
            None => r is None,
        }),
{
    match level {
        0 => tag2(s, pos, 124, 124),
        1 => tag2(s, pos, 38, 38),
        2 => tag2(s, pos, 61, 61),
        3 => tag2(s, pos, 33, 61),
        4 => tag1(s, pos, 60),
        5 => tag2(s, pos, 60, 61),
        6 => tag1(s, pos, 62),
        7 => tag2(s, pos, 62, 61),
        8 => tag2(s, pos, 105, 110),
        9 => tag1(s, pos, 43),
        10 => tag1(s, pos, 45),
        11 => tag1(s, pos, 42),
        _ => tag1(s, pos, 47),
    }
}

/// The binary operator of one precedence level.
fn level_op(level: u8) -> (op: BinaryOperator)
    ensures
        op == level_binop(level as int),
{
    match level {
        0 => BinaryOperator::Or,
        1 => BinaryOperator::And,
        2 => BinaryOperator::Equal,
        3 => BinaryOperator::NotEqual,
        4 => BinaryOperator::LessThan,
        5 => BinaryOperator::LessEqual,
        6 => BinaryOperator::GreaterThan,
        7 => BinaryOperator::GreaterEqual,
        8 => BinaryOperator::InSet,
        9 => BinaryOperator::Plus,
        10 => BinaryOperator::Minus,
        11 => BinaryOperator::Multiply,
        _ => BinaryOperator::Divide,
    }
}

/// Whether `true` is spelled at `p`.
fn lit_true(s: &Vec<u8>, p: usize) -> (r: bool)
    requires
        p <= s@.len(),
    ensures
        r == sp_lit_true(s@, p as int),
{
    p < s.len() && s.len() - p >= 4 && s[p] == 116 && s[p + 1] == 114 && s[p + 2] == 117 && s[p
        + 3] == 101
}

/// Whether `false` is spelled at `p`.
fn lit_false(s: &Vec<u8>, p: usize) -> (r: bool)
    requires
        p <= s@.len(),
    ensures
        r == sp_lit_false(s@, p as int),
{
    p < s.len() && s.len() - p >= 5 && s[p] == 102 && s[p + 1] == 97 && s[p + 2] == 108 && s[p + 3]
        == 115 && s[p + 4] == 101
}

/// Relies on `String::from_utf8`: UTF-8 decodes ASCII bytes one-to-one, so
/// bytes below 128 become exactly the characters with the same codes.
#[verifier::external_body]
fn ascii_to_string(bytes: &Vec<u8>) -> (r: String)
    requires
        forall|i: int| 0 <= i < bytes@.len() ==> bytes@[i] < 128,
    ensures
        r@.len() == bytes@.len(),
        forall|i: int| 0 <= i < bytes@.len() ==> r@[i] == bytes@[i] as char,
{
    match String::from_utf8(bytes.clone()) {
        Ok(s) => s,
        Err(_) => String::new(),
    }
}

/// Parses a signed integer literal at `p`.
fn p_int(s: &Vec<u8>, p: usize) -> (r: Result<(Expr, usize), ParseError>)
    requires
        p <= s@.len(),
    ensures
        (match sp_int(s@, p as int) {
            Ok((g, q)) => r matches Ok((e, n)) && view_expr(e) == g && n == q && p <= n
                <= s@.len(),
            Err(pe) => r == Err::<(Expr, usize), ParseError>(pe),
        }),
{
    if p >= s.len() {
        return Err(ParseError::UnexpectedToken { at: p });
    }
    let neg = s[p] == 45;
    let d0 = if s[p] == 45 || s[p] == 43 {
        p + 1
    } else {
        p
    };
    let dend = digits_end(s, d0);
    proof {
        lemma_sp_digits_end(s@, d0 as int);
    }
    if dend == d0 {
        return Err(ParseError::UnexpectedToken { at: p });
    }
    let ghost whole = sp_digits_val(s@, d0 as int, dend as int);
    let mut acc: i64 = 0;
    let mut over = false;
    let mut i = d0;
    while i < dend
        invariant
            d0 <= i <= dend <= s@.len(),
            forall|j: int| d0 <= j < dend ==> is_digit(#[trigger] s@[j]),
            !over ==> acc as int == sp_digits_val(s@, d0 as int, i as int) && 0 <= acc
                <= 0x8000_0000,
            over ==> sp_digits_val(s@, d0 as int, i as int) > 0x8000_0000,
        decreases dend - i,
    {
        if !over {
            let d = s[i] - 48;
            acc = acc * 10 + (d as i64);
            if acc > 0x8000_0000 {
                over = true;
            }
        } else {
            proof {
                lemma_digits_val_nonneg(s@, d0 as int, i as int);
            }
        }
        i = i + 1;
    }
    proof {
        lemma_digits_val_nonneg(s@, d0 as int, dend as int);
    }
    if over {
        return Err(ParseError::IntOutOfRange { at: p });
    }
    if neg {
        let v = -acc;
        proof {
            assert(whole <= 0x8000_0000);
        }
        Ok((Expr::LInt(v as i32), dend))
    } else {
        if acc > 0x7fff_ffff {
            return Err(ParseError::IntOutOfRange { at: p });
        }
        Ok((Expr::LInt(acc as i32), dend))
    }
}

/// Parses a symbol at `p`.
fn p_symbol_at(s: &Vec<u8>, p: usize) -> (r: Result<(Expr, usize), ParseError>)
    requires
        p <= s@.len(),
    ensures
        (match sp_symbol(s@, p as int) {
            Ok((g, q)) => r matches Ok((e, n)) && view_expr(e) == g && n == q && p <= n
                <= s@.len(),
            Err(pe) => r == Err::<(Expr, usize), ParseError>(pe),
        }),
{
    if !(p < s.len() && ((65 <= s[p] && s[p] <= 90) || (97 <= s[p] && s[p] <= 122))) {
        return Err(ParseError::UnexpectedToken { at: p });
    }
    let e1 = ident_end(s, p + 1);
    let e2 = dots_end(s, e1);
    proof {
        lemma_sp_ident_end(s@, p + 1);
        lemma_sp_dots_end(s@, e1 as int);
    }
    let mut bytes: Vec<u8> = Vec::new();
    let mut j = p;
    while j < e2
        invariant
            p <= j <= e2 <= s@.len(),
            bytes@ =~= s@.subrange(p as int, j as int),
        decreases e2 - j,
    {
        let b = s[j];
        bytes.push(b);
        proof {
            assert(bytes@ =~= s@.subrange(p as int, j + 1));
        }
        j = j + 1;
    }
    proof {
        assert(forall|i: int| 0 <= i < bytes@.len() ==> bytes@[i] < 128) by {
            assert(forall|k: int|
                p + 1 <= k < e2 ==> s@[k] == 46 || is_ident(#[trigger] s@[k]));
        }
    }
    let name = ascii_to_string(&bytes);
    proof {
        assert(name@ =~= sym_chars(s@, p as int, e2 as int));
    }
    Ok((Expr::Symbol(name), e2))
}

/// Parses one precedence level.
fn p_level(s: &Vec<u8>, pos: usize, level: u8) -> (r: Result<(Expr, usize), ParseError>)
    requires
        pos <= s@.len(),
        level <= 15,
    ensures
        (match sp_level(s@, pos as int, level as int) {
            Ok((g, q)) => r matches Ok((e, n)) && view_expr(e) == g && n == q && pos <= n
                <= s@.len(),
            Err(pe) => r == Err::<(Expr, usize), ParseError>(pe),
        }),
    decreases s@.len() - pos, 44 - 2 * (level as int),
{
    if level <= 12 {
        match p_level(s, pos, level + 1) {
            Err(e) => Err(e),
            Ok((e0, p0)) => p_fold(s, p0, level, e0),
        }
    } else if level == 13 || level == 14 {
        let c: u8 = if level == 13 {
            33
        } else {
            45
        };
        let op = if level == 13 {
            UnaryOperator::Not
        } else {
            UnaryOperator::Minus
        };
        match tag1(s, pos, c) {
            Some(p1) => {
                match p_level(s, p1, level + 1) {
                    Ok((e, p2)) => Ok((Expr::UnaryOp(op, Box::new(e)), p2)),
                    Err(_) => p_level(s, pos, level + 1),
                }
            },
            None => p_level(s, pos, level + 1),
        }
    } else {
        p_primary(s, pos)
    }
}

/// Left-folds one binary level's operator over the next-tighter level.
fn p_fold(s: &Vec<u8>, pos: usize, level: u8, acc: Expr) -> (r: Result<(Expr, usize), ParseError>)
    requires
        pos <= s@.len(),
        level <= 12,
    ensures
        (match sp_fold(s@, pos as int, level as int, view_expr(acc)) {
            Ok((g, q)) => r matches Ok((e, n)) && view_expr(e) == g && n == q && pos <= n
                <= s@.len(),
            Err(pe) => r == Err::<(Expr, usize), ParseError>(pe),
        }),
    decreases s@.len() - pos, 43 - 2 * (level as int),
{
    match level_tag(s, pos, level) {
        None => Ok((acc, pos)),
        Some(p1) => match p_level(s, p1, level + 1) {
            Err(_) => Ok((acc, pos)),
            Ok((rhs, p2)) => {
                let op = level_op(level);
                p_fold(s, p2, level, Expr::BinaryOp(op, Box::new(acc), Box::new(rhs)))
            },
        },
    }
}

/// Parses a primary form.
fn p_primary(s: &Vec<u8>, pos: usize) -> (r: Result<(Expr, usize), ParseError>)
    requires
        pos <= s@.len(),
    ensures
        (match sp_primary(s@, pos as int) {
            Ok((g, q)) => r matches Ok((e, n)) && view_expr(e) == g && n == q && pos <= n
                <= s@.len(),
            Err(pe) => r == Err::<(Expr, usize), ParseError>(pe),
        }),
    decreases s@.len() - pos, 10int,
{
    let p = skip_ws(s, pos);
    if p < s.len() && s[p] == 40 {
        match p_level(s, p + 1, 0) {
            Err(e) => Err(e),
            Ok((e, p2)) => match tag1(s, p2, 41) {
                Some(p3) => Ok((e, p3)),
                None => Err(ParseError::MissingClosingParen { at: p2 }),
            },
        }
    } else if p < s.len() && s[p] == 123 {
        let (items, p2) = p_set_items(s, p + 1);
        match tag1(s, p2, 125) {
            Some(p3) => Ok((Expr::LSet(items), p3)),
            None => Err(ParseError::MissingClosingBrace { at: p2 }),
        }
    } else if lit_true(s, p) {
        Ok((Expr::LBool(true), p + 4))
    } else if lit_false(s, p) {
        Ok((Expr::LBool(false), p + 5))
    } else if p < s.len() && (s[p] == 43 || s[p] == 45 || (48 <= s[p] && s[p] <= 57)) {
        p_int(s, p)
    } else if p < s.len() && ((65 <= s[p] && s[p] <= 90) || (97 <= s[p] && s[p] <= 122)) {
        p_symbol_at(s, p)
    } else {
        Err(ParseError::UnexpectedToken { at: p })
    }
}

/// Parses the members of a set literal.
fn p_set_items(s: &Vec<u8>, pos: usize) -> (r: (Vec<Expr>, usize))
    requires
        pos <= s@.len(),
    ensures
        ({
            let (gitems, q) = sp_set_items(s@, pos as int);
            view_exprs(r.0@) == gitems && r.1 == q && pos <= r.1 <= s@.len()
        }),
    decreases s@.len() - pos, 51int,
{
    match p_level(s, pos, 0) {
        Err(_) => (Vec::new(), pos),
        Ok((e, p1)) => {
            let mut items: Vec<Expr> = Vec::new();
            items.push(e);
            proof {
                assert(items@.drop_last() =~= Seq::<Expr>::empty());
                assert(view_exprs(Seq::<Expr>::empty()) =~= Seq::<GExpr>::empty());
                assert(view_exprs(items@) == view_exprs(items@.drop_last()).push(
                    view_expr(items@.last()),
                ));
                assert(items@.last() == e);
                assert(view_exprs(items@) =~= seq![view_expr(e)]);
            }
            p_set_more(s, p1, items)
        },
    }
}

/// Parses further `, member` pairs of a set literal.
fn p_set_more(s: &Vec<u8>, pos: usize, acc: Vec<Expr>) -> (r: (Vec<Expr>, usize))
    requires
        pos <= s@.len(),
    ensures
        ({
            let (gitems, q) = sp_set_more(s@, pos as int, view_exprs(acc@));
            view_exprs(r.0@) == gitems && r.1 == q && pos <= r.1 <= s@.len()
        }),
    decreases s@.len() - pos, 50int,
{
    if pos < s.len() && s[pos] == 44 {
        match p_level(s, pos + 1, 0) {
            Err(_) => (acc, pos),
            Ok((e, p2)) => {
                let ghost before = acc@;
                let mut acc2 = acc;
                acc2.push(e);
                proof {
                    assert(acc2@.drop_last() =~= before);
                    assert(view_exprs(acc2@) == view_exprs(before).push(view_expr(e)));
                }
                p_set_more(s, p2, acc2)
            },
        }
    } else {
        (acc, pos)
    }
}

/// Parses a whole query: the expression, then trailing whitespace, then the
/// end of the input.
pub(crate) fn parse_query(input: &str) -> (r: Result<Expr, ParseError>)
    ensures
        (match sp_query(input.spec_bytes()) {
            Ok(g) => r matches Ok(e) && e@ == g,
            Err(pe) => r == Err::<Expr, ParseError>(pe),
        }),
{
    let bytes = input.as_bytes_vec();
    match p_level(&bytes, 0, 0) {
        Err(e) => Err(e),
        Ok((e, p)) => {
            let p2 = skip_ws(&bytes, p);
            if p2 == bytes.len() {
                Ok(e)
            } else {
                Err(ParseError::TrailingInput { at: p2 })
            }
        },
    }
}

impl Expr {
    /// Parses an expression from the start of the text: the tree and the
    /// byte offset of the unconsumed remainder, or the error `sp_level`
    /// states.
    pub fn parse(input: &str) -> (r: Result<(Expr, usize), ParseError>)
        ensures
            (match sp_level(input.spec_bytes(), 0, 0) {
                Ok((g, q)) => r matches Ok((e, n)) && e@ == g && n == q && n
                    <= input.spec_bytes().len(),
                Err(pe) => r == Err::<(Expr, usize), ParseError>(pe),
            }),
    {
        let bytes = input.as_bytes_vec();
        p_level(&bytes, 0, 0)
    }

    /// Parses a boolean literal from the start of the text.
    pub fn literal_bool(input: &str) -> (r: Result<(Expr, usize), ParseError>)
        ensures
            (match sp_bool(input.spec_bytes(), 0) {
                Ok((g, q)) => r matches Ok((e, n)) && e@ == g && n == q && n
                    <= input.spec_bytes().len(),
                Err(pe) => r == Err::<(Expr, usize), ParseError>(pe),
            }),
    {
        let bytes = input.as_bytes_vec();
        let p = skip_ws(&bytes, 0);
        if lit_true(&bytes, p) {
            Ok((Expr::LBool(true), p + 4))
        } else if lit_false(&bytes, p) {
            let n = bytes.len();
            proof {
                assert(p + 5 <= n);
            }
            Ok((Expr::LBool(false), p + 5))
        } else {
            Err(ParseError::UnexpectedToken { at: p })
        }
    }

    /// Parses a signed integer literal from the start of the text.
    pub fn literal_int(input: &str) -> (r: Result<(Expr, usize), ParseError>)
        ensures
            (match sp_int(input.spec_bytes(), sp_ws(input.spec_bytes(), 0)) {
                Ok((g, q)) => r matches Ok((e, n)) && e@ == g && n == q && n
                    <= input.spec_bytes().len(),
                Err(pe) => r == Err::<(Expr, usize), ParseError>(pe),
            }),
    {
        let bytes = input.as_bytes_vec();
        let p = skip_ws(&bytes, 0);
        p_int(&bytes, p)
    }

    /// Parses a symbol from the start of the text.
    pub fn symbol(input: &str) -> (r: Result<(Expr, usize), ParseError>)
        ensures
            (match sp_symbol(input.spec_bytes(), sp_ws(input.spec_bytes(), 0)) {
                Ok((g, q)) => r matches Ok((e, n)) && e@ == g && n == q && n
                    <= input.spec_bytes().len(),
                Err(pe) => r == Err::<(Expr, usize), ParseError>(pe),
            }),
    {
        let bytes = input.as_bytes_vec();
        let p = skip_ws(&bytes, 0);
        p_symbol_at(&bytes, p)
    }
}

} // verus!
