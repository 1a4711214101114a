use vstd::prelude::*;

use crate::exp::{exps_model, names_model, Exp, ExpModel};
use crate::parse::{Bexp, BexpModel, Op, Side};
use crate::text::{append_chars, append_lit, chars_to_string, to_chars};
use vstd::string::StrSliceExecFns;
use vstd::string::StringExecFns;

verus! {

broadcast use vstd::seq::group_seq_axioms;

// ---------------------------------------------------------------------------
// From expressions to binary trees, with minimal parentheses
// ---------------------------------------------------------------------------

/// The printed tree of an expression: each operator node becomes a binary
/// node, children are parenthesised only where re-parsing would otherwise
/// group them differently, and the empty table prints as `nil`.
pub open spec fn spec_serialise_exp(e: ExpModel) -> BexpModel
    decreases e, 0nat,
{
    match e {
        ExpModel::Let(x, e1, b) => BexpModel::Binary(
            Box::new(
                BexpModel::Binary(
                    Box::new(BexpModel::Var(x)),
                    Op::Let,
                    Box::new(spec_with_parens(*e1, Op::Let, Side::Right)),
                ),
            ),
            Op::In,
            Box::new(spec_with_parens(*b, Op::In, Side::Right)),
        ),
        ExpModel::Select(cols, src) => BexpModel::Binary(
            Box::new(spec_ser_var_list(cols)),
            Op::Select,
            Box::new(spec_with_parens(*src, Op::Select, Side::Right)),
        ),
        ExpModel::Where(l, r) => BexpModel::Binary(
            Box::new(spec_with_parens(*l, Op::Where, Side::Left)),
            Op::Where,
            Box::new(spec_with_parens(*r, Op::Where, Side::Right)),
        ),
        ExpModel::Union(l, r) => BexpModel::Binary(
            Box::new(spec_with_parens(*l, Op::Union, Side::Left)),
            Op::Union,
            Box::new(spec_with_parens(*r, Op::Union, Side::Right)),
        ),
        ExpModel::Difference(l, r) => BexpModel::Binary(
            Box::new(spec_with_parens(*l, Op::Difference, Side::Left)),
            Op::Difference,
            Box::new(spec_with_parens(*r, Op::Difference, Side::Right)),
        ),
        ExpModel::Product(l, r) => BexpModel::Binary(
            Box::new(spec_with_parens(*l, Op::Product, Side::Left)),
            Op::Product,
            Box::new(spec_with_parens(*r, Op::Product, Side::Right)),
        ),
        ExpModel::Table(cols, cells) => if cols.len() == 0 && cells.len() == 0 {
            BexpModel::Nil
        } else {
            BexpModel::Binary(
                Box::new(spec_ser_var_list(cols)),
                Op::Table,
                Box::new(spec_ser_exp_list(cells)),
            )
        },
        ExpModel::Or(l, r) => BexpModel::Binary(
            Box::new(spec_with_parens(*l, Op::Or, Side::Left)),
            Op::Or,
            Box::new(spec_with_parens(*r, Op::Or, Side::Right)),
        ),
        ExpModel::Equals(l, r) => BexpModel::Binary(
            Box::new(spec_with_parens(*l, Op::Equals, Side::Left)),
            Op::Equals,
            Box::new(spec_with_parens(*r, Op::Equals, Side::Right)),
        ),
        ExpModel::And(l, r) => BexpModel::Binary(
            Box::new(spec_with_parens(*l, Op::And, Side::Left)),
            Op::And,
            Box::new(spec_with_parens(*r, Op::And, Side::Right)),
        ),
        ExpModel::Not(i) => BexpModel::Binary(
            Box::new(BexpModel::Var("not"@)),
            Op::App,
            Box::new(spec_with_parens(*i, Op::App, Side::Left)),
        ),
        ExpModel::Bool(v) => BexpModel::Bool(v),
        ExpModel::Int(v) => BexpModel::Int(v),
        ExpModel::Str(s) => BexpModel::Str(s),
        ExpModel::Var(v) => BexpModel::Var(v),
    }
}

/// The printed tree of a child on the given side of `parent`: wrapped in
/// parentheses exactly when the child is an operator node that binds
/// loosest, or equally tightly but associates to the other side.
pub open spec fn spec_with_parens(child: ExpModel, parent: Op, side: Side) -> BexpModel
    decreases child, 1nat,
{
    let b = spec_serialise_exp(child);
    match b {
        BexpModel::Binary(_, op, _) => if op.spec_prec() < parent.spec_prec() || (op.spec_prec()
            == parent.spec_prec() && op.spec_assoc() != side) {
            BexpModel::Parens(Box::new(b))
        } else {
            b
        },
        _ => b,
    }
}

/// A name list as a right-nested `,` chain; the empty list is `nil`.
pub open spec fn spec_ser_var_list(vars: Seq<Seq<char>>) -> BexpModel
    decreases vars.len(),
{
    if vars.len() == 0 {
        BexpModel::Nil
    } else if vars.len() == 1 {
        BexpModel::Var(vars[0])
    } else {
        BexpModel::Binary(
            Box::new(BexpModel::Var(vars[0])),
            Op::Item,
            Box::new(spec_ser_var_list(vars.drop_first())),
        )
    }
}

/// A cell list as a right-nested `,` chain; the empty list is `nil`.
pub open spec fn spec_ser_exp_list(exps: Seq<ExpModel>) -> BexpModel
    decreases exps, 1nat,
{
    if exps.len() == 0 {
        BexpModel::Nil
    } else if exps.len() == 1 {
        spec_serialise_exp(exps[0])
    } else {
        BexpModel::Binary(
            Box::new(spec_serialise_exp(exps[0])),
            Op::Item,
            Box::new(spec_ser_exp_list(exps.drop_first())),
        )
    }
}

// ---------------------------------------------------------------------------
// From binary trees to text
// ---------------------------------------------------------------------------

/// The text of an operator.
pub open spec fn spec_op_str(op: Op) -> Seq<char> {
    match op {
        Op::In => ";"@,
        Op::Let => "="@,
        Op::Select => "<-"@,
        Op::Where => "?"@,
        Op::Union => "+"@,
        Op::Difference => "-"@,
        Op::Product => "*"@,
        Op::Table => ":"@,
        Op::Item => ","@,
        Op::Or => "||"@,
        Op::Equals => "=="@,
        Op::And => "&&"@,
        Op::App => " "@,
    }
}

pub open spec fn spec_digit_char(d: int) -> char {
    ((48 + d) as u8) as char
}

/// The decimal digits of `n` (for non-negative `n`), most significant
/// first.
pub open spec fn spec_digits_seq(n: int) -> Seq<char>
    decreases n,
{
    if n < 10 {
        seq![spec_digit_char(n)]
    } else {
        spec_digits_seq(n / 10) + seq![spec_digit_char(n % 10)]
    }
}

/// The decimal text of an integer, with a minus sign when negative.
pub open spec fn spec_int_str(n: int) -> Seq<char> {
    if n < 0 {
        seq!['-'] + spec_digits_seq(-n)
    } else {
        spec_digits_seq(n)
    }
}

/// The text of a binary tree: children and operators in order, with
/// parentheses only where the tree holds a `Parens` node.
pub open spec fn spec_print(b: BexpModel) -> Seq<char>
    decreases b,
{
    match b {
        BexpModel::Binary(l, op, r) => spec_print(*l) + spec_op_str(op) + spec_print(*r),
        BexpModel::Parens(i) => seq!['('] + spec_print(*i) + seq![')'],
        BexpModel::Bool(v) => if v {
            "true"@
        } else {
            "false"@
        },
        BexpModel::Int(v) => spec_int_str(v as int),
        BexpModel::Nil => "nil"@,
        BexpModel::Str(s) => seq!['\''] + s + seq!['\''],
        BexpModel::Var(v) => v,
    }
}

/// What `serialise` returns: the text of the printed tree.
pub open spec fn spec_serialise(e: ExpModel) -> Seq<char> {
    spec_print(spec_serialise_exp(e))
}

// ---------------------------------------------------------------------------
// The executable printer
// ---------------------------------------------------------------------------

fn serialise_op(op: Op) -> (r: &'static str)
    ensures
        r@ == spec_op_str(op),
{
    match op {
        Op::In => ";",
        Op::Let => "=",
        Op::Select => "<-",
        Op::Where => "?",
        Op::Union => "+",
        Op::Difference => "-",
        Op::Product => "*",
        Op::Table => ":",
        Op::Item => ",",
        Op::Or => "||",
        Op::Equals => "==",
        Op::And => "&&",
        Op::App => " ",
    }
}

/// Appends the decimal digits of `m`, most significant first.
fn push_digits(m: u64, out: &mut Vec<char>)
    ensures
        final(out)@ == old(out)@ + spec_digits_seq(m as int),
    decreases m,
{
    if m >= 10 {
        push_digits(m / 10, out);
    }
    let d: u8 = 48 + (m % 10) as u8;
    out.push(d as char);
    proof {
        assert(out@ =~= old(out)@ + spec_digits_seq(m as int));
    }
}

/// Appends the decimal text of `n`.
fn push_int(n: i64, out: &mut Vec<char>)
    ensures
        final(out)@ == old(out)@ + spec_int_str(n as int),
{
    if n < 0 {
        out.push('-');
        let m: u64 = ((-(n + 1)) as u64) + 1;
        proof {
            assert(m as int == -(n as int));
        }
        push_digits(m, out);
        proof {
            assert(out@ =~= old(out)@ + (seq!['-'] + spec_digits_seq(-(n as int))));
        }
    } else {
        push_digits(n as u64, out);
    }
}

/// Appends the text of a binary tree.
fn print_bexp(b: &Bexp, out: &mut Vec<char>)
    ensures
        final(out)@ == old(out)@ + spec_print(b.model()),
    decreases b,
{
    match b {
        Bexp::Binary(l, op, r) => {
            print_bexp(l, out);
            append_lit(out, serialise_op(*op));
            print_bexp(r, out);
            proof {
                assert(out@ =~= old(out)@ + (spec_print(l.model()) + spec_op_str(*op)
                    + spec_print(r.model())));
            }
        },
        Bexp::Parens(i) => {
            out.push('(');
            print_bexp(i, out);
            out.push(')');
            proof {
                assert(out@ =~= old(out)@ + (seq!['('] + spec_print(i.model()) + seq![')']));
            }
        },
        Bexp::Bool(v) => {
            if *v {
                append_lit(out, "true");
            } else {
                append_lit(out, "false");
            }
        },
        Bexp::Int(v) => {
            push_int(*v, out);
        },
        Bexp::Nil => {
            append_lit(out, "nil");
        },
        Bexp::Str(t) => {
            out.push('\'');
            let cs = to_chars(t.as_str());
            append_chars(out, &cs);
            out.push('\'');
            proof {
                assert(out@ =~= old(out)@ + (seq!['\''] + t@ + seq!['\'']));
            }
        },
        Bexp::Var(v) => {
            let cs = to_chars(v.as_str());
            append_chars(out, &cs);
        },
    }
}

/// The text of a binary tree.
fn serialise_bexp(exp: Bexp) -> (r: String)
    ensures
        r@ == spec_print(exp.model()),
{
    let mut out: Vec<char> = Vec::new();
    print_bexp(&exp, &mut out);
    chars_to_string(&out)
}

/// The printed tree of a child on the given side of `parent`.
fn with_parens(exp: Exp, parent: Op, side: Side) -> (r: Bexp)
    ensures
        r.model() == spec_with_parens(exp.model(), parent, side),
    decreases exp, 1nat,
{
    let b = serialise_exp(exp);
    let wrap = match &b {
        Bexp::Binary(_, op, _) => {
            let o = *op;
            o.prec() < parent.prec() || (o.prec() == parent.prec() && o.assoc() != side)
        },
        _ => false,
    };
    if wrap {
        Bexp::Parens(Box::new(b))
    } else {
        b
    }
}

/// A name list as a right-nested `,` chain.
fn serialise_var_list(vars: Vec<String>) -> (r: Bexp)
    ensures
        r.model() == spec_ser_var_list(names_model(vars@)),
    decreases vars@.len(),
{
    let ghost vm = names_model(vars@);
    let mut vars = vars;
    if vars.len() == 0 {
        Bexp::Nil
    } else if vars.len() == 1 {
        let v = vars.remove(0);
        proof {
            assert(vm[0] == v@);
        }
        Bexp::Var(v)
    } else {
        let v = vars.remove(0);
        proof {
            assert(vm[0] == v@);
            assert(names_model(vars@) =~= vm.drop_first());
        }
        let vb = Bexp::Var(v);
        proof {
            assert(vb.model() == BexpModel::Var(vm[0]));
        }
        let rest = serialise_var_list(vars);
        Bexp::Binary(Box::new(vb), Op::Item, Box::new(rest))
    }
}

/// A cell list as a right-nested `,` chain.
fn serialise_exp_list(exps: Vec<Exp>) -> (r: Bexp)
    ensures
        r.model() == spec_ser_exp_list(exps_model(exps@)),
    decreases exps@, 1nat,
{
    let ghost em = exps_model(exps@);
    let mut exps = exps;
    if exps.len() == 0 {
        Bexp::Nil
    } else if exps.len() == 1 {
        let e = exps.remove(0);
        proof {
            assert(em[0] == e.model());
        }
        serialise_exp(e)
    } else {
        let e = exps.remove(0);
        proof {
            assert(em[0] == e.model());
            assert(exps_model(exps@) =~= em.drop_first());
        }
        let fb = serialise_exp(e);
        let rest = serialise_exp_list(exps);
        Bexp::Binary(Box::new(fb), Op::Item, Box::new(rest))
    }
}

/// The printed tree of an expression.
fn serialise_exp(exp: Exp) -> (r: Bexp)
    ensures
        r.model() == spec_serialise_exp(exp.model()),
    decreases exp, 0nat,
{
    let ghost em = exp.model();
    match exp {
        Exp::Let(x, e1, b) => {
            let ghost xm = x@;
            let ghost e1m = e1.model();
            let ghost bm = b.model();
            proof {
                assert(em == ExpModel::Let(xm, Box::new(e1m), Box::new(bm)));
            }
            let xb = Bexp::Var(x);
            proof {
                assert(xb.model() == BexpModel::Var(xm));
            }
            let binding = Bexp::Binary(
                Box::new(xb),
                Op::Let,
                Box::new(with_parens(*e1, Op::Let, Side::Right)),
            );
            proof {
                assert(binding.model() == BexpModel::Binary(
                    Box::new(BexpModel::Var(xm)),
                    Op::Let,
                    Box::new(spec_with_parens(e1m, Op::Let, Side::Right)),
                ));
            }
            Bexp::Binary(Box::new(binding), Op::In, Box::new(with_parens(*b, Op::In, Side::Right)))
        },
        Exp::Select(cols, src) => {
            let ghost cm = names_model(cols@);
            let ghost sm = src.model();
            proof {
                assert(em == ExpModel::Select(cm, Box::new(sm)));
            }
            Bexp::Binary(
                Box::new(serialise_var_list(cols)),
                Op::Select,
                Box::new(with_parens(*src, Op::Select, Side::Right)),
            )
        },
        Exp::Where(l, r) => {
            let ghost lm = l.model();
            let ghost rm = r.model();
            proof {
                assert(em == ExpModel::Where(Box::new(lm), Box::new(rm)));
            }
            Bexp::Binary(
                Box::new(with_parens(*l, Op::Where, Side::Left)),
                Op::Where,
                Box::new(with_parens(*r, Op::Where, Side::Right)),
            )
        },
        Exp::Union(l, r) => {
            let ghost lm = l.model();
            let ghost rm = r.model();
            proof {
                assert(em == ExpModel::Union(Box::new(lm), Box::new(rm)));
            }
            Bexp::Binary(
                Box::new(with_parens(*l, Op::Union, Side::Left)),
                Op::Union,
                Box::new(with_parens(*r, Op::Union, Side::Right)),
            )
        },
        Exp::Difference(l, r) => {
            let ghost lm = l.model();
            let ghost rm = r.model();
            proof {
                assert(em == ExpModel::Difference(Box::new(lm), Box::new(rm)));
            }
            Bexp::Binary(
                Box::new(with_parens(*l, Op::Difference, Side::Left)),
                Op::Difference,
                Box::new(with_parens(*r, Op::Difference, Side::Right)),
            )
        },
        Exp::Product(l, r) => {
            let ghost lm = l.model();
            let ghost rm = r.model();
            proof {
                assert(em == ExpModel::Product(Box::new(lm), Box::new(rm)));
            }
            Bexp::Binary(
                Box::new(with_parens(*l, Op::Product, Side::Left)),
                Op::Product,
                Box::new(with_parens(*r, Op::Product, Side::Right)),
            )
        },
        Exp::Table(cols, cells) => {
            let ghost cm = names_model(cols@);
            let ghost km = exps_model(cells@);
            proof {
                assert(em == ExpModel::Table(cm, km));
            }
            if cols.len() == 0 && cells.len() == 0 {
                Bexp::Nil
            } else {
                Bexp::Binary(
                    Box::new(serialise_var_list(cols)),
                    Op::Table,
                    Box::new(serialise_exp_list(cells)),
                )
            }
        },
        Exp::Or(l, r) => {
            let ghost lm = l.model();
            let ghost rm = r.model();
            proof {
                assert(em == ExpModel::Or(Box::new(lm), Box::new(rm)));
            }
            Bexp::Binary(
                Box::new(with_parens(*l, Op::Or, Side::Left)),
                Op::Or,
                Box::new(with_parens(*r, Op::Or, Side::Right)),
            )
        },
        Exp::Equals(l, r) => {
            let ghost lm = l.model();
            let ghost rm = r.model();
            proof {
                assert(em == ExpModel::Equals(Box::new(lm), Box::new(rm)));
            }
            Bexp::Binary(
                Box::new(with_parens(*l, Op::Equals, Side::Left)),
                Op::Equals,
                Box::new(with_parens(*r, Op::Equals, Side::Right)),
            )
        },
        Exp::And(l, r) => {
            let ghost lm = l.model();
            let ghost rm = r.model();
            proof {
                assert(em == ExpModel::And(Box::new(lm), Box::new(rm)));
            }
            Bexp::Binary(
                Box::new(with_parens(*l, Op::And, Side::Left)),
                Op::And,
                Box::new(with_parens(*r, Op::And, Side::Right)),
            )
        },
        Exp::Not(i) => {
            let ghost im = i.model();
            proof {
                assert(em == ExpModel::Not(Box::new(im)));
            }
            let nb = Bexp::Var(String::from_str("not"));
            proof {
                assert(nb.model() == BexpModel::Var("not"@));
            }
            Bexp::Binary(Box::new(nb), Op::App, Box::new(with_parens(*i, Op::App, Side::Left)))
        },
        Exp::Bool(v) => {
            proof {
                assert(em == ExpModel::Bool(v));
            }
            Bexp::Bool(v)
        },
        Exp::Int(v) => {
            proof {
                assert(em == ExpModel::Int(v));
            }
            Bexp::Int(v)
        },
        Exp::Str(s) => {
            let ghost sm = s@;
            proof {
                assert(em == ExpModel::Str(sm));
            }
            Bexp::Str(s)
        },
        Exp::Var(v) => {
            let ghost vm = v@;
            proof {
                assert(em == ExpModel::Var(vm));
            }
            Bexp::Var(v)
        },
    }
}

/// The minimally parenthesised text of an expression: printing an
/// expression and parsing the result yields the expression back, up to the
/// shapes named in the round-trip laws.
pub fn serialise(exp: Exp) -> (r: String)
    ensures
        r@ == spec_serialise(exp.model()),
{
    serialise_bexp(serialise_exp(exp))
}

} // verus!
