//! Canonical printing of GRL expressions: the key under which identical
//! sub-expressions are shared in the RETE alpha layer.
use vstd::prelude::*;

use crate::grl::ast::{BinOp, CallExpr, Expr, Path, PathSeg, UnaryOp, Value, ValueView};
use crate::text::{chars_of, debug_quote, debug_quoted, i64_to_decimal, int_to_decimal, push_chars, push_str, string_of};

verus! {

/// The text of one path segment (`first` tells whether it opens the path).
pub open spec fn seg_text(s: PathSeg, first: bool) -> Seq<char> {
    match s {
        PathSeg::Field(name) => if first {
            name@
        } else {
            seq!['.'] + name@
        },
        PathSeg::Index(key) => "[\""@ + key@ + "\"]"@,
    }
}

/// `Request.Headers["X"]`-style text of a path.
pub open spec fn path_text(segs: Seq<PathSeg>) -> Seq<char>
    decreases segs.len(),
{
    if segs.len() == 0 {
        seq![]
    } else {
        path_text(segs.drop_last()) + seg_text(segs.last(), segs.len() == 1)
    }
}

/// The text of a literal value.
pub open spec fn value_text(v: ValueView) -> Seq<char> {
    match v {
        ValueView::Null => "null"@,
        ValueView::Bool(b) => if b {
            "true"@
        } else {
            "false"@
        },
        ValueView::Int(i) => int_to_decimal(i as int),
        ValueView::Str(s) => debug_quoted(s),
    }
}

/// The symbol of a binary operator.
pub open spec fn bin_sym(op: BinOp) -> Seq<char> {
    match op {
        BinOp::And => "&&"@,
        BinOp::Or => "||"@,
        BinOp::Eq => "=="@,
        BinOp::Neq => "!="@,
        BinOp::Lt => "<"@,
        BinOp::Lte => "<="@,
        BinOp::Gt => ">"@,
        BinOp::Gte => ">="@,
        BinOp::Add => "+"@,
        BinOp::Sub => "-"@,
        BinOp::Mul => "*"@,
        BinOp::Div => "/"@,
    }
}

/// The canonical text of an expression: literals as written, paths dotted,
/// calls as `name(a,b)`, unary and binary expressions fully parenthesised.
pub open spec fn expr_text(e: Expr) -> Seq<char>
    decreases e,
{
    match e {
        Expr::Literal(v) => value_text(v@),
        Expr::Path(p) => path_text(p.segments@),
        Expr::Call(c) => {
            proof {
                assert(decreases_to!(c => c.args));
                assert(decreases_to!(c.args => c.args@));
            }
            c.name@ + seq!['('] + args_text(c.args@) + seq![')']
        },
        Expr::Unary { op, expr } => seq!['(', '!'] + expr_text(*expr) + seq![')'],
        Expr::Binary { op, left, right } => seq!['('] + expr_text(*left) + seq![' '] + bin_sym(op)
            + seq![' '] + expr_text(*right) + seq![')'],
    }
}

/// The arguments of a call, separated by commas.
pub open spec fn args_text(args: Seq<Expr>) -> Seq<char>
    decreases args,
{
    if args.len() == 0 {
        seq![]
    } else if args.len() == 1 {
        expr_text(args[0])
    } else {
        proof {
            assert(args.drop_last() =~= args.subrange(0, args.len() - 1));
        }
        args_text(args.drop_last()) + seq![','] + expr_text(args.last())
    }
}

fn bin_symbol(op: BinOp) -> (r: &'static str)
    ensures
        r@ == bin_sym(op),
{
    match op {
        BinOp::And => "&&",
        BinOp::Or => "||",
        BinOp::Eq => "==",
        BinOp::Neq => "!=",
        BinOp::Lt => "<",
        BinOp::Lte => "<=",
        BinOp::Gt => ">",
        BinOp::Gte => ">=",
        BinOp::Add => "+",
        BinOp::Sub => "-",
        BinOp::Mul => "*",
        BinOp::Div => "/",
    }
}

/// Append the text of a path.
pub fn fmt_path(p: &Path, out: &mut Vec<char>)
    ensures
        final(out)@ == old(out)@ + path_text(p.segments@),
{
    let mut i: usize = 0;
    let ghost o0 = out@;
    assert(p.segments@.take(0) =~= Seq::<PathSeg>::empty());
    while i < p.segments.len()
        invariant
            i <= p.segments@.len(),
            out@ == o0 + path_text(p.segments@.take(i as int)),
        decreases p.segments.len() - i,
    {
        let ghost before = out@;
        match &p.segments[i] {
            PathSeg::Field(name) => {
                if i > 0 {
                    out.push('.');
                }
                push_str(out, name.as_str());
            },
            PathSeg::Index(key) => {
                push_str(out, "[\"");
                push_str(out, key.as_str());
                push_str(out, "\"]");
            },
        }
        assert(p.segments@.take(i + 1).drop_last() =~= p.segments@.take(i as int));
        assert(p.segments@.take(i + 1).last() == p.segments@[i as int]);
        assert(out@ =~= before + seg_text(p.segments@[i as int], i == 0));
        i += 1;
    }
    assert(p.segments@.take(p.segments@.len() as int) =~= p.segments@);
}

/// Append the text of a literal value.
pub fn fmt_value(v: &Value, out: &mut Vec<char>)
    ensures
        final(out)@ == old(out)@ + value_text(v@),
{
    match v {
        Value::Null => push_str(out, "null"),
        Value::Bool(b) => push_str(out, if *b { "true" } else { "false" }),
        Value::Int(i) => {
            let d = i64_to_decimal(*i);
            push_chars(out, d.as_slice());
        },
        Value::Str(s) => {
            let q = debug_quote(s.as_str());
            push_str(out, q.as_str());
        },
    }
}

/// Append the canonical text of an expression.
pub fn fmt_expr(e: &Expr, out: &mut Vec<char>)
    ensures
        final(out)@ == old(out)@ + expr_text(*e),
    decreases e, 0nat,
{
    let ghost o0 = out@;
    match e {
        Expr::Literal(v) => fmt_value(v, out),
        Expr::Path(p) => fmt_path(p, out),
        Expr::Call(c) => {
            push_str(out, c.name.as_str());
            out.push('(');
            proof {
                assert(decreases_to!(*e => *c));
                assert(decreases_to!(*c => c.args));
            }
            fmt_args(&c.args, out);
            out.push(')');
            assert(out@ =~= o0 + expr_text(*e));
        },
        Expr::Unary { op, expr } => {
            out.push('(');
            out.push('!');
            fmt_expr(expr, out);
            out.push(')');
            assert(out@ =~= o0 + expr_text(*e));
        },
        Expr::Binary { op, left, right } => {
            out.push('(');
            fmt_expr(left, out);
            out.push(' ');
            push_str(out, bin_symbol(*op));
            out.push(' ');
            fmt_expr(right, out);
            out.push(')');
            assert(out@ =~= o0 + expr_text(*e));
        },
    }
}

fn fmt_args(args: &Vec<Expr>, out: &mut Vec<char>)
    ensures
        final(out)@ == old(out)@ + args_text(args@),
    decreases args, 1nat,
{
    let ghost o0 = out@;
    let mut i: usize = 0;
    assert(args@.take(0) =~= Seq::<Expr>::empty());
    while i < args.len()
        invariant
            i <= args@.len(),
            out@ == o0 + args_text(args@.take(i as int)),
        decreases args.len() - i,
    {
        let ghost before = out@;
        if i > 0 {
            out.push(',');
        }
        proof {
            assert(decreases_to!(*args => args@));
            assert(decreases_to!(args@ => args@[i as int]));
        }
        fmt_expr(&args[i], out);
        assert(args@.take(i + 1).drop_last() =~= args@.take(i as int));
        assert(args@.take(i + 1).last() == args@[i as int]);
        proof {
            if i == 0 {
                assert(args@.take(1) =~= seq![args@[0]]);
            }
        }
        i += 1;
        assert(out@ =~= o0 + args_text(args@.take(i as int)));
    }
    assert(args@.take(args@.len() as int) =~= args@);
}

/// The canonical text of an expression.
pub fn print_expr(e: &Expr) -> (r: String)
    ensures
        r@ == expr_text(*e),
{
    let mut out: Vec<char> = Vec::new();
    fmt_expr(e, &mut out);
    assert(out@ =~= expr_text(*e));
    string_of(out.as_slice())
}

/// The text of a path (`Display` of a path).
pub fn path_to_string(p: &Path) -> (r: String)
    ensures
        r@ == path_text(p.segments@),
{
    let mut out: Vec<char> = Vec::new();
    fmt_path(p, &mut out);
    assert(out@ =~= path_text(p.segments@));
    string_of(out.as_slice())
}

} // verus!
