use vstd::prelude::*;

use crate::analyse::{spec_reads, spec_reads_cells, spec_writes};
use crate::eval::{spec_eval, spec_eval_cells, EvalError};
use crate::exp::ExpModel;
use crate::parse::{spec_parse_exp, spec_parse_var_list, spec_parse_exp_list, BexpModel, Op, Side};
use crate::serialise::{spec_ser_exp_list, spec_ser_var_list, spec_serialise_exp,
    spec_with_parens};

verus! {

broadcast use vstd::seq::group_seq_axioms;

// ---------------------------------------------------------------------------
// Printing and parsing invert each other
// ---------------------------------------------------------------------------

/// A scalar cell: one that prints as a single atom, so that a printed
/// cell list reads back cell for cell.
pub open spec fn scalar(e: ExpModel) -> bool {
    e is Bool || e is Int || e is Str || e is Var
}

pub open spec fn scalar_cells(cells: Seq<ExpModel>, k: int) -> bool
    decreases cells.len() - k,
{
    if k < 0 || k >= cells.len() {
        true
    } else {
        scalar(cells[k]) && scalar_cells(cells, k + 1)
    }
}

/// An expression whose printed text reads back as the same tree: every
/// table literal in it holds only scalar cells. A table cell that itself
/// prints as an operator chain (a nested table, a parenthesised
/// operator) needs parentheses that the printer does not place, so such
/// expressions are left out.
pub open spec fn round_trips(e: ExpModel) -> bool
    decreases e,
{
    match e {
        ExpModel::Let(_, e1, b) => round_trips(*e1) && round_trips(*b),
        ExpModel::Select(_, src) => round_trips(*src),
        ExpModel::Where(l, r) => round_trips(*l) && round_trips(*r),
        ExpModel::Union(l, r) => round_trips(*l) && round_trips(*r),
        ExpModel::Difference(l, r) => round_trips(*l) && round_trips(*r),
        ExpModel::Product(l, r) => round_trips(*l) && round_trips(*r),
        ExpModel::Table(_, cells) => scalar_cells(cells, 0),
        ExpModel::Or(l, r) => round_trips(*l) && round_trips(*r),
        ExpModel::Equals(l, r) => round_trips(*l) && round_trips(*r),
        ExpModel::And(l, r) => round_trips(*l) && round_trips(*r),
        ExpModel::Not(i) => round_trips(*i),
        _ => true,
    }
}

/// Lowering a printed name list yields the names back.
pub proof fn lemma_var_list_round_trip(vars: Seq<Seq<char>>)
    ensures
        spec_parse_var_list(spec_ser_var_list(vars)) == Option::Some(vars),
    decreases vars.len(),
{
    if vars.len() == 0 {
        assert(spec_parse_var_list(spec_ser_var_list(vars)) =~= Option::Some(vars));
    } else if vars.len() == 1 {
        assert(seq![vars[0]] =~= vars);
    } else {
        lemma_var_list_round_trip(vars.drop_first());
        assert(seq![vars[0]] + vars.drop_first() =~= vars);
    }
}

/// A scalar cell prints as a single atom, which lowers back to the
/// cell.
pub proof fn lemma_scalar_round_trip(c: ExpModel)
    requires
        scalar(c),
    ensures
        spec_parse_exp(spec_serialise_exp(c)) == Option::Some(c),
        !(spec_serialise_exp(c) is Binary),
        !(spec_serialise_exp(c) is Nil),
{
    match c {
        ExpModel::Bool(b) => {
            assert(spec_serialise_exp(c) == BexpModel::Bool(b));
        },
        ExpModel::Int(v) => {
            assert(spec_serialise_exp(c) == BexpModel::Int(v));
        },
        ExpModel::Str(s) => {
            assert(spec_serialise_exp(c) == BexpModel::Str(s));
        },
        ExpModel::Var(v) => {
            assert(spec_serialise_exp(c) == BexpModel::Var(v));
        },
        _ => {},
    }
}

proof fn lemma_scalar_cells_iff(cells: Seq<ExpModel>, k: int)
    requires
        0 <= k <= cells.len(),
    ensures
        scalar_cells(cells, k) <==> (forall|i: int| k <= i < cells.len() ==> scalar(
            #[trigger] cells[i],
        )),
    decreases cells.len() - k,
{
    if k < cells.len() {
        lemma_scalar_cells_iff(cells, k + 1);
    }
}

/// Lowering a printed list of scalar cells yields the cells back.
pub proof fn lemma_exp_list_round_trip(cells: Seq<ExpModel>)
    requires
        scalar_cells(cells, 0),
    ensures
        spec_parse_exp_list(spec_ser_exp_list(cells)) == Option::Some(cells),
    decreases cells.len(),
{
    lemma_scalar_cells_iff(cells, 0);
    if cells.len() == 0 {
        assert(spec_parse_exp_list(spec_ser_exp_list(cells)) =~~= Option::Some(cells));
    } else if cells.len() == 1 {
        lemma_scalar_round_trip(cells[0]);
        assert(seq![cells[0]] =~= cells);
    } else {
        lemma_scalar_round_trip(cells[0]);
        let rest = cells.drop_first();
        lemma_scalar_cells_iff(rest, 0);
        assert(forall|i: int| 0 <= i < rest.len() ==> scalar(#[trigger] rest[i]));
        lemma_exp_list_round_trip(rest);
        assert(seq![cells[0]] + rest =~= cells);
    }
}

/// The parse-print round trip at the tree level: lowering the printed
/// tree of a round-tripping expression yields the expression back. The
/// text level — that the printed characters lex to this tree — is
/// exercised by the test suite.
pub proof fn lemma_round_trip(e: ExpModel)
    requires
        round_trips(e),
    ensures
        spec_parse_exp(spec_serialise_exp(e)) == Option::Some(e),
    decreases e, 0nat,
{
    match e {
        ExpModel::Let(x, e1, b) => {
            lemma_round_trip_child(*e1, Op::Let, Side::Right);
            lemma_round_trip_child(*b, Op::In, Side::Right);
            assert(spec_parse_exp(BexpModel::Var(x)) == Option::Some(ExpModel::Var(x)));
        },
        ExpModel::Select(cols, src) => {
            lemma_var_list_round_trip(cols);
            lemma_round_trip_child(*src, Op::Select, Side::Right);
        },
        ExpModel::Where(l, r) => {
            lemma_round_trip_child(*l, Op::Where, Side::Left);
            lemma_round_trip_child(*r, Op::Where, Side::Right);
        },
        ExpModel::Union(l, r) => {
            lemma_round_trip_child(*l, Op::Union, Side::Left);
            lemma_round_trip_child(*r, Op::Union, Side::Right);
        },
        ExpModel::Difference(l, r) => {
            lemma_round_trip_child(*l, Op::Difference, Side::Left);
            lemma_round_trip_child(*r, Op::Difference, Side::Right);
        },
        ExpModel::Product(l, r) => {
            lemma_round_trip_child(*l, Op::Product, Side::Left);
            lemma_round_trip_child(*r, Op::Product, Side::Right);
        },
        ExpModel::Table(cols, cells) => {
            if cols.len() == 0 && cells.len() == 0 {
                assert(spec_parse_exp(BexpModel::Nil) =~= Option::Some(
                    ExpModel::Table(Seq::empty(), Seq::empty()),
                ));
                assert(Seq::<Seq<char>>::empty() =~= cols);
                assert(Seq::<ExpModel>::empty() =~= cells);
            } else {
                lemma_var_list_round_trip(cols);
                lemma_exp_list_round_trip(cells);
            }
        },
        ExpModel::Or(l, r) => {
            lemma_round_trip_child(*l, Op::Or, Side::Left);
            lemma_round_trip_child(*r, Op::Or, Side::Right);
        },
        ExpModel::Equals(l, r) => {
            lemma_round_trip_child(*l, Op::Equals, Side::Left);
            lemma_round_trip_child(*r, Op::Equals, Side::Right);
        },
        ExpModel::And(l, r) => {
            lemma_round_trip_child(*l, Op::And, Side::Left);
            lemma_round_trip_child(*r, Op::And, Side::Right);
        },
        ExpModel::Not(i) => {
            lemma_round_trip_child(*i, Op::App, Side::Left);
            assert(spec_parse_exp(BexpModel::Var("not"@)) == Option::Some(
                ExpModel::Var("not"@),
            ));
        },
        _ => {
            lemma_scalar_round_trip(e);
        },
    }
}

/// As `lemma_round_trip`, through the printer's placement of
/// parentheses: a parenthesised child lowers to the same expression.
pub proof fn lemma_round_trip_child(child: ExpModel, parent: Op, side: Side)
    requires
        round_trips(child),
    ensures
        spec_parse_exp(spec_with_parens(child, parent, side)) == Option::Some(child),
    decreases child, 1nat,
{
    lemma_round_trip(child);
}

/// Parentheses are idempotent at the tree level: a parenthesised tree
/// lowers to what the tree lowers to. Together with the grammar, this is
/// why `(s)` parses as `s` does.
pub proof fn lemma_parens_idempotent(b: BexpModel)
    ensures
        spec_parse_exp(BexpModel::Parens(Box::new(b))) == spec_parse_exp(b),
{
}

// ---------------------------------------------------------------------------
// Laws of evaluation
// ---------------------------------------------------------------------------

/// A fully reduced value: a literal, or a table of values.
pub open spec fn is_value(e: ExpModel) -> bool
    decreases e, 0nat,
{
    match e {
        ExpModel::Bool(_) => true,
        ExpModel::Int(_) => true,
        ExpModel::Str(_) => true,
        ExpModel::Table(_, cells) => cells_values(cells, 0),
        _ => false,
    }
}

pub open spec fn cells_values(cells: Seq<ExpModel>, k: int) -> bool
    decreases cells, 1nat, cells.len() - k,
{
    if k < 0 || k >= cells.len() {
        true
    } else {
        is_value(cells[k]) && cells_values(cells, k + 1)
    }
}

/// A value evaluates to itself, in any environment.
pub proof fn lemma_value_evals_to_itself(v: ExpModel, env: Map<Seq<char>, ExpModel>)
    requires
        is_value(v),
    ensures
        spec_eval(v, env) == Result::<(ExpModel, Map<Seq<char>, ExpModel>), EvalError>::Ok(
            (v, env),
        ),
    decreases v, 0nat,
{
    match v {
        ExpModel::Table(cols, cells) => {
            lemma_value_cells(cells, env, 0);
            assert(cells.subrange(0, cells.len() as int) =~= cells);
        },
        _ => {},
    }
}

proof fn lemma_value_cells(cells: Seq<ExpModel>, env: Map<Seq<char>, ExpModel>, k: int)
    requires
        cells_values(cells, 0),
        0 <= k <= cells.len(),
    ensures
        spec_eval_cells(cells, env, k) == Result::<Seq<ExpModel>, EvalError>::Ok(
            cells.subrange(k, cells.len() as int),
        ),
    decreases cells, 1nat, cells.len() - k,
{
    lemma_cells_values_at(cells, k);
    if k < cells.len() {
        lemma_value_evals_to_itself(cells[k], env);
        lemma_value_cells(cells, env, k + 1);
        assert(seq![cells[k]] + cells.subrange(k + 1, cells.len() as int) =~= cells.subrange(
            k,
            cells.len() as int,
        ));
    } else {
        assert(cells.subrange(k, cells.len() as int) =~= Seq::<ExpModel>::empty());
    }
}

proof fn lemma_cells_values_at(cells: Seq<ExpModel>, k: int)
    requires
        cells_values(cells, 0),
        0 <= k <= cells.len(),
    ensures
        cells_values(cells, k),
        k < cells.len() ==> is_value(cells[k]),
    decreases k,
{
    if k > 0 {
        lemma_cells_values_at_step(cells, 0, k);
    }
}

proof fn lemma_cells_values_at_step(cells: Seq<ExpModel>, from: int, k: int)
    requires
        cells_values(cells, from),
        0 <= from <= k <= cells.len(),
    ensures
        cells_values(cells, k),
        k < cells.len() ==> is_value(cells[k]),
    decreases k - from,
{
    if from < k {
        lemma_cells_values_at_step(cells, from + 1, k);
    }
}

/// Union identity: joining a table value with the empty table of the
/// same columns gives the table back, rows in order.
pub proof fn lemma_union_identity(
    cols: Seq<Seq<char>>,
    cells: Seq<ExpModel>,
    env: Map<Seq<char>, ExpModel>,
)
    requires
        is_value(ExpModel::Table(cols, cells)),
    ensures
        spec_eval(
            ExpModel::Union(
                Box::new(ExpModel::Table(cols, cells)),
                Box::new(ExpModel::Table(cols, Seq::empty())),
            ),
            env,
        ) == Result::<(ExpModel, Map<Seq<char>, ExpModel>), EvalError>::Ok(
            (ExpModel::Table(cols, cells), env),
        ),
{
    lemma_value_evals_to_itself(ExpModel::Table(cols, cells), env);
    lemma_value_evals_to_itself(ExpModel::Table(cols, Seq::empty()), env);
    assert(cells + Seq::<ExpModel>::empty() =~= cells);
}

/// Every aligned row of a cell list is found among its own rows.
proof fn lemma_contains_aligned(cells: Seq<ExpModel>, w: int, from: int, p: int)
    requires
        w >= 1,
        0 <= from <= p < cells.len(),
        (p - from) % w == 0,
    ensures
        spec_rows_contain_here(cells, from, w, p),
    decreases p - from,
{
    if from < p {
        assert((p - (from + w)) % w == 0) by {
            assert(p - (from + w) == (p - from) - w);
            vstd::arithmetic::div_mod::lemma_mod_sub_multiples_vanish(p - from, w);
        }
        assert(from + w <= p) by {
            if from + w > p {
                assert(0 < p - from < w);
                vstd::arithmetic::div_mod::lemma_small_mod((p - from) as nat, w as nat);
            }
        }
        lemma_contains_aligned(cells, w, from + w, p);
    }
}

/// `spec_rows_contain` holds when the row at aligned position `p` is the
/// row sought.
spec fn spec_rows_contain_here(cells: Seq<ExpModel>, from: int, w: int, p: int) -> bool {
    crate::eval::spec_rows_contain(
        cells,
        from,
        w,
        cells.subrange(p, crate::eval::spec_row_hi(p, w, cells.len() as int)),
    )
}

proof fn lemma_diff_self_empty(cells: Seq<ExpModel>, start: int, w: int)
    requires
        w >= 1,
        0 <= start,
        start % w == 0,
    ensures
        crate::eval::spec_diff_cells(cells, start, w, cells) == Seq::<ExpModel>::empty(),
    decreases cells.len() - start,
{
    if start < cells.len() {
        lemma_contains_aligned(cells, w, 0, start);
        let hi = crate::eval::spec_row_hi(start, w, cells.len() as int);
        if hi < cells.len() {
            assert(hi == start + w);
            assert((start + w) % w == 0) by {
                vstd::arithmetic::div_mod::lemma_mod_add_multiples_vanish(start, w);
            }
            lemma_diff_self_empty(cells, hi, w);
        } else {
            assert(crate::eval::spec_diff_cells(cells, hi, w, cells)
                == Seq::<ExpModel>::empty());
        }
    }
}

/// Difference annihilates itself: subtracting a table value from itself
/// leaves a table with the same columns and no rows. This holds whether
/// or not the table has duplicate rows.
pub proof fn lemma_difference_self(
    cols: Seq<Seq<char>>,
    cells: Seq<ExpModel>,
    env: Map<Seq<char>, ExpModel>,
)
    requires
        is_value(ExpModel::Table(cols, cells)),
    ensures
        spec_eval(
            ExpModel::Difference(
                Box::new(ExpModel::Table(cols, cells)),
                Box::new(ExpModel::Table(cols, cells)),
            ),
            env,
        ) == Result::<(ExpModel, Map<Seq<char>, ExpModel>), EvalError>::Ok(
            (ExpModel::Table(cols, Seq::empty()), env),
        ),
{
    lemma_value_evals_to_itself(ExpModel::Table(cols, cells), env);
    let w = crate::eval::spec_width(cols.len() as int);
    lemma_diff_self_empty(cells, 0, w);
}

/// Or short-circuits: when the left operand evaluates to `true`, the
/// disjunction is `true`, whatever the right operand is — even one whose
/// evaluation fails.
pub proof fn lemma_or_short_circuit(
    l: ExpModel,
    r: ExpModel,
    env: Map<Seq<char>, ExpModel>,
)
    requires
        spec_eval(l, env) matches Result::Ok(p) && p.0 == ExpModel::Bool(true),
    ensures
        spec_eval(ExpModel::Or(Box::new(l), Box::new(r)), env) == Result::<
            (ExpModel, Map<Seq<char>, ExpModel>),
            EvalError,
        >::Ok((ExpModel::Bool(true), env)),
{
}

/// And short-circuits: when the left operand evaluates to `false`, the
/// conjunction is `false`, whatever the right operand is.
pub proof fn lemma_and_short_circuit(
    l: ExpModel,
    r: ExpModel,
    env: Map<Seq<char>, ExpModel>,
)
    requires
        spec_eval(l, env) matches Result::Ok(p) && p.0 == ExpModel::Bool(false),
    ensures
        spec_eval(ExpModel::And(Box::new(l), Box::new(r)), env) == Result::<
            (ExpModel, Map<Seq<char>, ExpModel>),
            EvalError,
        >::Ok((ExpModel::Bool(false), env)),
{
}

/// Shadowing: binding `x` twice, the inner binding wins, so
/// `Let(x, e1, Let(x, e2, Var(x)))` evaluates to the value of `e2`.
pub proof fn lemma_let_shadowing(
    x: Seq<char>,
    e1: ExpModel,
    e2: ExpModel,
    v1: ExpModel,
    v2: ExpModel,
    env: Map<Seq<char>, ExpModel>,
)
    requires
        spec_eval(e1, env) matches Result::Ok(p) && p.0 == v1,
        spec_eval(e2, env.insert(x, v1)) matches Result::Ok(p) && p.0 == v2,
    ensures
        spec_eval(
            ExpModel::Let(
                x,
                Box::new(e1),
                Box::new(
                    ExpModel::Let(x, Box::new(e2), Box::new(ExpModel::Var(x))),
                ),
            ),
            env,
        ) matches Result::Ok(q) && q.0 == v2,
{
    let inner = ExpModel::Let(x, Box::new(e2), Box::new(ExpModel::Var(x)));
    let outer = ExpModel::Let(x, Box::new(e1), Box::new(inner));
    let env1 = env.insert(x, v1);
    let env2 = env1.insert(x, v2);
    assert(spec_eval(outer, env) == spec_eval(inner, env1));
    assert(spec_eval(inner, env1) == spec_eval(ExpModel::Var(x), env2));
    assert(env2.dom().contains(x));
    assert(env2[x] == v2);
    assert(spec_eval(ExpModel::Var(x), env2) == Result::<
        (ExpModel, Map<Seq<char>, ExpModel>),
        EvalError,
    >::Ok((v2, env2)));
}

// ---------------------------------------------------------------------------
// Laws of the analyser
// ---------------------------------------------------------------------------

/// The free reads never include a name that an enclosing `Let` defines:
/// whatever is in `defined` stays out of the result.
pub proof fn lemma_reads_not_shadowed(e: ExpModel, defined: Set<Seq<char>>, n: Seq<char>)
    requires
        defined.contains(n),
    ensures
        !spec_reads(e, defined).contains(n),
    decreases e, 0nat,
{
    match e {
        ExpModel::Let(x, e1, body) => {
            lemma_reads_not_shadowed(*e1, defined, n);
            lemma_reads_not_shadowed(*body, defined.insert(x), n);
        },
        ExpModel::Select(_, src) => {
            lemma_reads_not_shadowed(*src, defined, n);
        },
        ExpModel::Where(l, r) => {
            lemma_reads_not_shadowed(*l, defined, n);
            lemma_reads_not_shadowed(*r, defined, n);
        },
        ExpModel::Union(l, r) => {
            lemma_reads_not_shadowed(*l, defined, n);
            lemma_reads_not_shadowed(*r, defined, n);
        },
        ExpModel::Difference(l, r) => {
            lemma_reads_not_shadowed(*l, defined, n);
            lemma_reads_not_shadowed(*r, defined, n);
        },
        ExpModel::Product(l, r) => {
            lemma_reads_not_shadowed(*l, defined, n);
            lemma_reads_not_shadowed(*r, defined, n);
        },
        ExpModel::Table(_, cells) => {
            lemma_reads_cells_not_shadowed(cells, defined, n, 0);
        },
        ExpModel::Or(l, r) => {
            lemma_reads_not_shadowed(*l, defined, n);
            lemma_reads_not_shadowed(*r, defined, n);
        },
        ExpModel::Equals(l, r) => {
            lemma_reads_not_shadowed(*l, defined, n);
            lemma_reads_not_shadowed(*r, defined, n);
        },
        ExpModel::And(l, r) => {
            lemma_reads_not_shadowed(*l, defined, n);
            lemma_reads_not_shadowed(*r, defined, n);
        },
        ExpModel::Not(i) => {
            lemma_reads_not_shadowed(*i, defined, n);
        },
        _ => {},
    }
}

proof fn lemma_reads_cells_not_shadowed(
    cells: Seq<ExpModel>,
    defined: Set<Seq<char>>,
    n: Seq<char>,
    k: int,
)
    requires
        defined.contains(n),
    ensures
        !spec_reads_cells(cells, defined, k).contains(n),
    decreases cells, 1nat, cells.len() - k,
{
    if 0 <= k < cells.len() {
        lemma_reads_not_shadowed(cells[k], defined, n);
        lemma_reads_cells_not_shadowed(cells, defined, n, k + 1);
    }
}

/// The top-level writes are exactly the binders on the right spine of
/// the `Let` chain: the binder joins the body's writes, and any
/// expression other than a `Let` writes nothing.
pub proof fn lemma_writes_are_spine(x: Seq<char>, e1: ExpModel, body: ExpModel)
    ensures
        spec_writes(ExpModel::Let(x, Box::new(e1), Box::new(body))) == spec_writes(
            body,
        ).insert(x),
        !(e1 is Let) ==> spec_writes(e1) == Set::<Seq<char>>::empty(),
{
}


/// The cells of one left row paired with `m` right rows have length
/// `m` times a combined row.
proof fn lemma_prod_with_len(lrow: Seq<ExpModel>, rcells: Seq<ExpModel>, start: int, wr: int, m: int)
    requires
        wr >= 1,
        m >= 0,
        start >= 0,
        rcells.len() - start == m * wr,
    ensures
        crate::eval::spec_prod_with(lrow, rcells, start, wr).len() == m * (lrow.len() + wr),
    decreases m,
{
    if m == 0 {
        assert(m * wr == 0) by (nonlinear_arith)
            requires
                m == 0,
        ;
        assert(m * (lrow.len() + wr) == 0) by (nonlinear_arith)
            requires
                m == 0,
        ;
    } else {
        assert(m * wr >= wr) by (nonlinear_arith)
            requires
                m >= 1,
                wr >= 1,
        ;
        let hi = crate::eval::spec_row_hi(start, wr, rcells.len() as int);
        assert(hi == start + wr);
        assert(rcells.len() - hi == (m - 1) * wr) by (nonlinear_arith)
            requires
                rcells.len() - start == m * wr,
                hi == start + wr,
        ;
        lemma_prod_with_len(lrow, rcells, hi, wr, m - 1);
        assert(lrow.len() + wr + (m - 1) * (lrow.len() + wr) == m * (lrow.len() + wr))
            by (nonlinear_arith);
    }
}

/// The cells of a product of `ml` left rows and `mr` right rows.
proof fn lemma_prod_cells_len(
    lcells: Seq<ExpModel>,
    start: int,
    wl: int,
    rcells: Seq<ExpModel>,
    wr: int,
    ml: int,
    mr: int,
)
    requires
        wl >= 1,
        wr >= 1,
        ml >= 0,
        mr >= 0,
        start >= 0,
        lcells.len() - start == ml * wl,
        rcells.len() == mr * wr,
    ensures
        crate::eval::spec_prod_cells(lcells, start, wl, rcells, wr).len() == ml * (mr * (wl
            + wr)),
    decreases ml,
{
    if ml == 0 {
        assert(ml * wl == 0) by (nonlinear_arith)
            requires
                ml == 0,
        ;
        assert(ml * (mr * (wl + wr)) == 0) by (nonlinear_arith)
            requires
                ml == 0,
        ;
    } else {
        assert(ml * wl >= wl) by (nonlinear_arith)
            requires
                ml >= 1,
                wl >= 1,
        ;
        let hi = crate::eval::spec_row_hi(start, wl, lcells.len() as int);
        assert(hi == start + wl);
        assert(lcells.subrange(start, hi).len() == wl);
        lemma_prod_with_len(lcells.subrange(start, hi), rcells, 0, wr, mr);
        assert(lcells.len() - hi == (ml - 1) * wl) by (nonlinear_arith)
            requires
                lcells.len() - start == ml * wl,
                hi == start + wl,
        ;
        lemma_prod_cells_len(lcells, hi, wl, rcells, wr, ml - 1, mr);
        assert(mr * (wl + wr) + (ml - 1) * (mr * (wl + wr)) == ml * (mr * (wl + wr)))
            by (nonlinear_arith);
    }
}

/// Product size: the product of a table of `na` rows and a table of
/// `nb` rows has the two column lists joined, and `na * nb` rows, each
/// a left row followed by a right row.
pub proof fn lemma_product_size(
    cols_a: Seq<Seq<char>>,
    cells_a: Seq<ExpModel>,
    na: int,
    cols_b: Seq<Seq<char>>,
    cells_b: Seq<ExpModel>,
    nb: int,
    env: Map<Seq<char>, ExpModel>,
)
    requires
        is_value(ExpModel::Table(cols_a, cells_a)),
        is_value(ExpModel::Table(cols_b, cells_b)),
        na >= 0,
        nb >= 0,
        cells_a.len() == na * crate::eval::spec_width(cols_a.len() as int),
        cells_b.len() == nb * crate::eval::spec_width(cols_b.len() as int),
    ensures
        spec_eval(
            ExpModel::Product(
                Box::new(ExpModel::Table(cols_a, cells_a)),
                Box::new(ExpModel::Table(cols_b, cells_b)),
            ),
            env,
        ) matches Result::Ok(p) && p.0 matches ExpModel::Table(c2, out) && c2 == cols_a + cols_b
            && out.len() == (na * nb) * (crate::eval::spec_width(cols_a.len() as int)
            + crate::eval::spec_width(cols_b.len() as int)),
{
    lemma_value_evals_to_itself(ExpModel::Table(cols_a, cells_a), env);
    lemma_value_evals_to_itself(ExpModel::Table(cols_b, cells_b), env);
    let wa = crate::eval::spec_width(cols_a.len() as int);
    let wb = crate::eval::spec_width(cols_b.len() as int);
    lemma_prod_cells_len(cells_a, 0, wa, cells_b, wb, na, nb);
    assert(na * (nb * (wa + wb)) == (na * nb) * (wa + wb)) by (nonlinear_arith);
}


proof fn lemma_col_index_bounds(tcols: Seq<Seq<char>>, name: Seq<char>, k: int)
    requires
        crate::eval::spec_col_index_before(tcols, name, k) is Some,
    ensures
        0 <= crate::eval::spec_col_index_before(tcols, name, k)->Some_0 < k,
    decreases k,
{
    if k > 0 && !(tcols[k - 1] == name) {
        lemma_col_index_bounds(tcols, name, k - 1);
    }
}

proof fn lemma_keep_all_present(cols: Seq<Seq<char>>, tcols: Seq<Seq<char>>, k: int)
    requires
        0 <= k <= cols.len(),
        forall|j: int|
            0 <= j < cols.len() ==> #[trigger] crate::eval::spec_col_index(tcols, cols[j])
                is Some,
    ensures
        crate::eval::spec_keep(cols, tcols, k).len() == cols.len() - k,
        forall|j: int|
            0 <= j < cols.len() - k ==> #[trigger] crate::eval::spec_keep(cols, tcols, k)[j]
                == crate::eval::spec_col_index(tcols, cols[k + j])->Some_0,
    decreases cols.len() - k,
{
    if k < cols.len() {
        lemma_keep_all_present(cols, tcols, k + 1);
    }
}

proof fn lemma_pick_full(cells: Seq<ExpModel>, start: int, hi: int, keep: Seq<int>, k: int)
    requires
        0 <= k <= keep.len(),
        0 <= start <= hi <= cells.len(),
        forall|j: int| 0 <= j < keep.len() ==> 0 <= #[trigger] keep[j] < hi - start,
    ensures
        crate::eval::spec_pick(cells, start, hi, keep, k).len() == keep.len() - k,
        forall|j: int|
            0 <= j < keep.len() - k ==> #[trigger] crate::eval::spec_pick(
                cells,
                start,
                hi,
                keep,
                k,
            )[j] == cells[start + keep[k + j]],
    decreases keep.len() - k,
{
    if k < keep.len() {
        lemma_pick_full(cells, start, hi, keep, k + 1);
    }
}

proof fn lemma_select_full(cells: Seq<ExpModel>, start: int, w: int, keep: Seq<int>, m: int)
    requires
        w >= 1,
        m >= 0,
        start >= 0,
        cells.len() - start == m * w,
        forall|j: int| 0 <= j < keep.len() ==> 0 <= #[trigger] keep[j] < w,
    ensures
        crate::eval::spec_select_cells(cells, start, w, keep).len() == m * keep.len(),
        forall|i: int, j: int|
            0 <= i < m && 0 <= j < keep.len() ==> #[trigger] crate::eval::spec_select_cells(
                cells,
                start,
                w,
                keep,
            )[i * keep.len() + j] == cells[start + i * w + keep[j]],
    decreases m,
{
    let out = crate::eval::spec_select_cells(cells, start, w, keep);
    let kl = keep.len() as int;
    if m == 0 {
        assert(m * w == 0) by (nonlinear_arith)
            requires
                m == 0,
        ;
        assert(m * kl == 0) by (nonlinear_arith)
            requires
                m == 0,
        ;
    } else {
        assert(m * w >= w) by (nonlinear_arith)
            requires
                m >= 1,
                w >= 1,
        ;
        let hi = crate::eval::spec_row_hi(start, w, cells.len() as int);
        assert(hi == start + w);
        lemma_pick_full(cells, start, hi, keep, 0);
        assert(cells.len() - hi == (m - 1) * w) by (nonlinear_arith)
            requires
                cells.len() - start == m * w,
                hi == start + w,
        ;
        lemma_select_full(cells, hi, w, keep, m - 1);
        let rest = crate::eval::spec_select_cells(cells, hi, w, keep);
        assert(out.len() == kl + (m - 1) * kl);
        assert(kl + (m - 1) * kl == m * kl) by (nonlinear_arith);
        assert forall|i: int, j: int| 0 <= i < m && 0 <= j < keep.len() implies #[trigger] out[i
            * kl + j] == cells[start + i * w + keep[j]] by {
            if i == 0 {
                assert(i * kl == 0) by (nonlinear_arith)
                    requires
                        i == 0,
                ;
                assert(i * w == 0) by (nonlinear_arith)
                    requires
                        i == 0,
                ;
                assert(out[j] == cells[start + keep[j]]);
            } else {
                assert(i * kl >= kl) by (nonlinear_arith)
                    requires
                        i >= 1,
                        kl >= 0,
                ;
                assert(i * kl + j - kl == (i - 1) * kl + j) by (nonlinear_arith);
                assert((i - 1) * kl + j < (m - 1) * kl) by (nonlinear_arith)
                    requires
                        1 <= i < m,
                        0 <= j < kl,
                ;
                assert(out == crate::eval::spec_pick(cells, start, hi, keep, 0) + rest);
                assert(crate::eval::spec_select_cells(cells, hi, w, keep)[(i - 1) * keep.len()
                    + j] == cells[hi + (i - 1) * w + keep[j]]);
                assert(out[i * kl + j] == rest[(i - 1) * kl + j]);
                assert(hi + (i - 1) * w == start + i * w) by (nonlinear_arith)
                    requires
                        hi == start + w,
                ;
            }
        }
    }
}

/// Select projection: when every requested column is present in the
/// source table, the output columns are the requested names in request
/// order, and row `i`, position `j` of the output is the cell of source
/// row `i` under the requested column, rows in order.
pub proof fn lemma_select_projection(
    cols: Seq<Seq<char>>,
    tcols: Seq<Seq<char>>,
    cells: Seq<ExpModel>,
    n: int,
    env: Map<Seq<char>, ExpModel>,
)
    requires
        is_value(ExpModel::Table(tcols, cells)),
        forall|j: int|
            0 <= j < cols.len() ==> #[trigger] crate::eval::spec_col_index(tcols, cols[j])
                is Some,
        n >= 0,
        cells.len() == n * crate::eval::spec_width(tcols.len() as int),
    ensures
        spec_eval(
            ExpModel::Select(cols, Box::new(ExpModel::Table(tcols, cells))),
            env,
        ) matches Result::Ok(p) && p.0 matches ExpModel::Table(c2, out) && c2 == cols
            && out.len() == n * cols.len()
            && (forall|i: int, j: int|
            0 <= i < n && 0 <= j < cols.len() ==> #[trigger] out[i * cols.len() + j]
                == cells[i * crate::eval::spec_width(tcols.len() as int)
                + crate::eval::spec_col_index(tcols, cols[j])->Some_0]),
{
    lemma_value_evals_to_itself(ExpModel::Table(tcols, cells), env);
    let w = crate::eval::spec_width(tcols.len() as int);
    let keep = crate::eval::spec_keep(cols, tcols, 0);
    lemma_keep_all_present(cols, tcols, 0);
    assert forall|j: int| 0 <= j < keep.len() implies 0 <= #[trigger] keep[j] < w by {
        assert(crate::eval::spec_col_index(tcols, cols[j]) is Some);
        assert(keep[j] == crate::eval::spec_col_index(tcols, cols[0 + j])->Some_0);
        lemma_col_index_bounds(tcols, cols[j], tcols.len() as int);
    }
    lemma_select_full(cells, 0, w, keep, n);
}


proof fn lemma_digits_val_same(a: Seq<char>, b: Seq<char>, from: int, to: int)
    requires
        forall|i: int| from <= i < to ==> a[i] == b[i],
    ensures
        crate::parse::spec_digits_val(a, from, to) == crate::parse::spec_digits_val(b, from, to),
    decreases to - from,
{
    if from < to {
        lemma_digits_val_same(a, b, from, to - 1);
    }
}

/// The decimal text the printer writes for a non-negative number is read
/// back as that number by the lexer's digit rule: the two directions of
/// the integer grammar agree.
pub proof fn lemma_digits_round_trip(n: int)
    requires
        0 <= n,
    ensures
        crate::parse::spec_digits_val(
            crate::serialise::spec_digits_seq(n),
            0,
            crate::serialise::spec_digits_seq(n).len() as int,
        ) == n,
    decreases n,
{
    let s = crate::serialise::spec_digits_seq(n);
    if n < 10 {
        assert(s == seq![crate::serialise::spec_digit_char(n)]);
        assert(s[0] as u32 == 48 + n);
        assert(crate::parse::spec_digits_val(s, 0, 0) == 0);
    } else {
        let s1 = crate::serialise::spec_digits_seq(n / 10);
        let c = crate::serialise::spec_digit_char(n % 10);
        assert(s == s1 + seq![c]);
        lemma_digits_round_trip(n / 10);
        lemma_digits_val_same(s, s1, 0, s1.len() as int);
        assert(s[s.len() - 1] == c);
        assert(c as u32 == 48 + n % 10);
        vstd::arithmetic::div_mod::lemma_fundamental_div_mod(n, 10);
    }
}

} // verus!



