//! Typed AST of the GRL rule language.
use vstd::prelude::*;

use crate::text::{chars_of, i64_to_decimal, int_to_decimal, parse_i64, spec_parse_i64, string_of};

verus! {

#[derive(Debug)]
pub struct RuleAst {
    pub name: String,
    pub salience: i32,
    pub when: Expr,
    pub then: Vec<Stmt>,
}

#[derive(Debug)]
pub enum Stmt {
    /// `Request.RiskScore = Request.RiskScore + 80`
    Assign { target: Path, value: Expr },
    /// `block("reason")`, `allow()`, `challenge()`, `rate_limit(60)`, `log("msg")`
    Call(CallExpr),
}

#[derive(Debug)]
pub enum Expr {
    Literal(Value),
    Path(Path),
    Call(CallExpr),
    Binary { op: BinOp, left: Box<Expr>, right: Box<Expr> },
    Unary { op: UnaryOp, expr: Box<Expr> },
}

#[derive(Debug)]
pub struct CallExpr {
    pub name: String,
    pub args: Vec<Expr>,
}

/// `Request.Path` or `Request.Headers["X-Forwarded-For"]`.
#[derive(Debug, Clone)]
pub struct Path {
    pub segments: Vec<PathSeg>,
}

#[derive(Debug, Clone)]
pub enum PathSeg {
    Field(String),
    Index(String),
}

#[derive(Debug, Clone, Copy, PartialEq, Eq)]
pub enum BinOp {
    And,
    Or,
    Eq,
    Neq,
    Lt,
    Lte,
    Gt,
    Gte,
    Add,
    Sub,
    Mul,
    Div,
}

#[derive(Debug, Clone, Copy, PartialEq, Eq)]
pub enum UnaryOp {
    Not,
}

/// A runtime value of the rule language.
#[derive(Debug, Clone)]
pub enum Value {
    Null,
    Bool(bool),
    Int(i64),
    Str(String),
}

/// A `Value` with its text as characters.
pub enum ValueView {
    Null,
    Bool(bool),
    Int(i64),
    Str(Seq<char>),
}

impl View for Value {
    type V = ValueView;

    open spec fn view(&self) -> ValueView {
        match self {
            Value::Null => ValueView::Null,
            Value::Bool(b) => ValueView::Bool(*b),
            Value::Int(i) => ValueView::Int(*i),
            Value::Str(s) => ValueView::Str(s@),
        }
    }
}

/// Truthiness: `false`, `null`, `0` and `""` are false.
pub open spec fn spec_as_bool(v: ValueView) -> bool {
    match v {
        ValueView::Bool(b) => b,
        ValueView::Null => false,
        ValueView::Int(i) => i != 0,
        ValueView::Str(s) => s.len() != 0,
    }
}

/// Integer reading: booleans as 0/1, strings parsed as `i64` (0 when not a number).
pub open spec fn spec_as_int(v: ValueView) -> i64 {
    match v {
        ValueView::Int(i) => i,
        ValueView::Bool(b) => if b {
            1
        } else {
            0
        },
        ValueView::Str(s) => match spec_parse_i64(s) {
            Some(n) => n,
            None => 0,
        },
        ValueView::Null => 0,
    }
}

/// Text reading: integers in decimal, booleans as `true`/`false`, null as `""`.
pub open spec fn spec_as_str(v: ValueView) -> Seq<char> {
    match v {
        ValueView::Str(s) => s,
        ValueView::Int(i) => int_to_decimal(i as int),
        ValueView::Bool(b) => if b {
            "true"@
        } else {
            "false"@
        },
        ValueView::Null => seq![],
    }
}

impl Value {
    pub fn as_bool(&self) -> (r: bool)
        ensures
            r == spec_as_bool(self@),
    {
        match self {
            Value::Bool(b) => *b,
            Value::Null => false,
            Value::Int(i) => *i != 0,
            Value::Str(s) => {
                let cs = chars_of(s.as_str());
                cs.len() != 0
            },
        }
    }

    pub fn as_int(&self) -> (r: i64)
        ensures
            r == spec_as_int(self@),
    {
        match self {
            Value::Int(i) => *i,
            Value::Bool(b) => if *b {
                1
            } else {
                0
            },
            Value::Str(s) => {
                let cs = chars_of(s.as_str());
                match parse_i64(cs.as_slice()) {
                    Some(n) => n,
                    None => 0,
                }
            },
            Value::Null => 0,
        }
    }

    pub fn as_str(&self) -> (r: String)
        ensures
            r@ == spec_as_str(self@),
    {
        match self {
            Value::Str(s) => s.clone(),
            Value::Int(i) => {
                let d = i64_to_decimal(*i);
                string_of(d.as_slice())
            },
            Value::Bool(b) => {
                let cs = if *b {
                    chars_of("true")
                } else {
                    chars_of("false")
                };
                string_of(cs.as_slice())
            },
            Value::Null => {
                let e: Vec<char> = Vec::new();
                string_of(e.as_slice())
            },
        }
    }
}

/// The views of a list of values.
pub open spec fn values_view(v: Seq<Value>) -> Seq<ValueView> {
    v.map_values(|x: Value| x@)
}

} // verus!
