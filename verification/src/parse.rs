use vstd::prelude::*;

use crate::exp::{Exp, ExpModel};
use vstd::string::StringExecFns;
use vstd::string::StrSliceExecFns;

verus! {

broadcast use vstd::seq::group_seq_axioms;

/// A binary operator of the concrete syntax. The last alternative, `App`,
/// is the empty operator: two adjacent atoms are an application.
#[derive(Debug, Copy, Clone, PartialEq, Eq, Structural)]
pub enum Op {
    In,
    Let,
    Select,
    Where,
    Union,
    Difference,
    Product,
    Table,
    Item,
    Or,
    Equals,
    And,
    App,
}

/// The side of a parent operator on which a child sits, and the
/// associativity of an operator.
#[derive(Debug, Copy, Clone, PartialEq, Eq, Structural)]
pub enum Side {
    Left,
    Right,
}

impl Op {
    /// Associativity of each operator.
    pub open spec fn spec_assoc(&self) -> Side {
        match *self {
            Op::In => Side::Right,
            Op::Let => Side::Left,
            Op::Select => Side::Left,
            Op::Where => Side::Left,
            Op::Union => Side::Left,
            Op::Difference => Side::Left,
            Op::Product => Side::Left,
            Op::Table => Side::Left,
            Op::Item => Side::Right,
            Op::Or => Side::Left,
            Op::And => Side::Left,
            Op::Equals => Side::Left,
            Op::App => Side::Left,
        }
    }

    /// Precedence of each operator; 1 binds loosest, 13 tightest.
    pub open spec fn spec_prec(&self) -> u32 {
        match *self {
            Op::In => 1,
            Op::Let => 2,
            Op::Select => 3,
            Op::Where => 4,
            Op::Union => 5,
            Op::Difference => 6,
            Op::Product => 7,
            Op::Table => 8,
            Op::Item => 9,
            Op::Or => 10,
            Op::And => 11,
            Op::Equals => 12,
            Op::App => 13,
        }
    }

    pub fn assoc(&self) -> (s: Side)
        ensures
            s == self.spec_assoc(),
    {
        match *self {
            Op::In => Side::Right,
            Op::Let => Side::Left,
            Op::Select => Side::Left,
            Op::Where => Side::Left,
            Op::Union => Side::Left,
            Op::Difference => Side::Left,
            Op::Product => Side::Left,
            Op::Table => Side::Left,
            Op::Item => Side::Right,
            Op::Or => Side::Left,
            Op::And => Side::Left,
            Op::Equals => Side::Left,
            Op::App => Side::Left,
        }
    }

    pub fn prec(&self) -> (p: u32)
        ensures
            p == self.spec_prec(),
            1 <= p <= 13,
    {
        match *self {
            Op::In => 1,
            Op::Let => 2,
            Op::Select => 3,
            Op::Where => 4,
            Op::Union => 5,
            Op::Difference => 6,
            Op::Product => 7,
            Op::Table => 8,
            Op::Item => 9,
            Op::Or => 10,
            Op::And => 11,
            Op::Equals => 12,
            Op::App => 13,
        }
    }
}

/// A binary-shaped expression: the tree that the token layer produces and
/// the pretty-printer renders, before and after the lowering to `Exp`.
#[derive(Debug, PartialEq)]
pub enum Bexp {
    Binary(Box<Bexp>, Op, Box<Bexp>),
    Parens(Box<Bexp>),
    Bool(bool),
    Int(i64),
    Nil,
    Str(String),
    Var(String),
}

/// The mathematical shape of a `Bexp`, with strings as character sequences.
#[verifier::ext_equal]
pub enum BexpModel {
    Binary(Box<BexpModel>, Op, Box<BexpModel>),
    Parens(Box<BexpModel>),
    Bool(bool),
    Int(i64),
    Nil,
    Str(Seq<char>),
    Var(Seq<char>),
}

impl Bexp {
    /// The mathematical shape of this tree.
    pub open spec fn model(self) -> BexpModel
        decreases self,
    {
        match self {
            Bexp::Binary(l, op, r) => BexpModel::Binary(
                Box::new(l.model()),
                op,
                Box::new(r.model()),
            ),
            Bexp::Parens(b) => BexpModel::Parens(Box::new(b.model())),
            Bexp::Bool(b) => BexpModel::Bool(b),
            Bexp::Int(i) => BexpModel::Int(i),
            Bexp::Nil => BexpModel::Nil,
            Bexp::Str(s) => BexpModel::Str(s@),
            Bexp::Var(v) => BexpModel::Var(v@),
        }
    }
}

// ---------------------------------------------------------------------------
// Character classes
// ---------------------------------------------------------------------------

pub open spec fn is_space_char(c: char) -> bool {
    c == ' ' || c == '\t' || c == '\r' || c == '\n'
}

pub open spec fn is_digit_char(c: char) -> bool {
    48 <= c as u32 && c as u32 <= 57
}

pub open spec fn is_alpha_char(c: char) -> bool {
    (65 <= c as u32 && c as u32 <= 90) || (97 <= c as u32 && c as u32 <= 122)
}

pub open spec fn is_ident_char(c: char) -> bool {
    is_alpha_char(c) || is_digit_char(c) || c == '_'
}

// ---------------------------------------------------------------------------
// Junk: whitespace, line comments, block comments
// ---------------------------------------------------------------------------

/// The first position at or after `i` that ends a line comment: the next
/// newline, or the end of the input.
pub open spec fn spec_line_end(s: Seq<char>, i: int) -> int
    decreases s.len() - i,
{
    if 0 <= i && i < s.len() && s[i] != '\n' {
        spec_line_end(s, i + 1)
    } else {
        i
    }
}

pub proof fn lemma_line_end_bounds(s: Seq<char>, i: int)
    requires
        0 <= i <= s.len(),
    ensures
        i <= spec_line_end(s, i) <= s.len(),
    decreases s.len() - i,
{
    if i < s.len() && s[i] != '\n' {
        lemma_line_end_bounds(s, i + 1);
    }
}

/// The position of the first `*/` at or after `i`, if any.
pub open spec fn spec_block_end(s: Seq<char>, i: int) -> Option<int>
    decreases s.len() - i,
{
    if 0 <= i && i + 2 <= s.len() {
        if s[i] == '*' && s[i + 1] == '/' {
            Option::Some(i)
        } else {
            spec_block_end(s, i + 1)
        }
    } else {
        Option::None
    }
}

pub proof fn lemma_block_end_bounds(s: Seq<char>, i: int)
    requires
        0 <= i,
        spec_block_end(s, i) is Some,
    ensures
        i <= spec_block_end(s, i)->Some_0,
        spec_block_end(s, i)->Some_0 + 2 <= s.len(),
    decreases s.len() - i,
{
    if i + 2 <= s.len() && !(s[i] == '*' && s[i + 1] == '/') {
        lemma_block_end_bounds(s, i + 1);
    }
}

/// Skips whitespace, `--` line comments, and terminated `/* */` block
/// comments, starting at `i`. An unterminated block comment is not consumed:
/// the junk ends before its `/*`, and the atom that follows fails.
pub open spec fn spec_junk(s: Seq<char>, i: int) -> int
    decreases s.len() - i,
        via spec_junk_dec
{
    if 0 <= i && i < s.len() && is_space_char(s[i]) {
        spec_junk(s, i + 1)
    } else if 0 <= i && i + 2 <= s.len() && s[i] == '-' && s[i + 1] == '-' {
        spec_junk(s, spec_line_end(s, i + 2))
    } else if 0 <= i && i + 2 <= s.len() && s[i] == '/' && s[i + 1] == '*' {
        match spec_block_end(s, i + 2) {
            Option::Some(j) => spec_junk(s, j + 2),
            Option::None => i,
        }
    } else {
        i
    }
}

#[via_fn]
proof fn spec_junk_dec(s: Seq<char>, i: int) {
    if 0 <= i && i + 2 <= s.len() && s[i] == '-' && s[i + 1] == '-' {
        lemma_line_end_bounds(s, i + 2);
    }
    if 0 <= i && i + 2 <= s.len() && s[i] == '/' && s[i + 1] == '*' {
        if spec_block_end(s, i + 2) is Some {
            lemma_block_end_bounds(s, i + 2);
        }
    }
}

pub proof fn lemma_junk_bounds(s: Seq<char>, i: int)
    requires
        0 <= i <= s.len(),
    ensures
        i <= spec_junk(s, i) <= s.len(),
    decreases s.len() - i,
{
    if i < s.len() && is_space_char(s[i]) {
        lemma_junk_bounds(s, i + 1);
    } else if i + 2 <= s.len() && s[i] == '-' && s[i + 1] == '-' {
        lemma_line_end_bounds(s, i + 2);
        lemma_junk_bounds(s, spec_line_end(s, i + 2));
    } else if i + 2 <= s.len() && s[i] == '/' && s[i + 1] == '*' {
        if spec_block_end(s, i + 2) is Some {
            lemma_block_end_bounds(s, i + 2);
            lemma_junk_bounds(s, spec_block_end(s, i + 2)->Some_0 + 2);
        }
    }
}

// ---------------------------------------------------------------------------
// Atoms other than parentheses
// ---------------------------------------------------------------------------

pub open spec fn spec_lex_bool(s: Seq<char>, i: int) -> Option<(BexpModel, int)> {
    if 0 <= i && i + 4 <= s.len() && s[i] == 't' && s[i + 1] == 'r' && s[i + 2] == 'u' && s[i + 3]
        == 'e' {
        Option::Some((BexpModel::Bool(true), i + 4))
    } else if 0 <= i && i + 5 <= s.len() && s[i] == 'f' && s[i + 1] == 'a' && s[i + 2] == 'l' && s[i
        + 3] == 's' && s[i + 4] == 'e' {
        Option::Some((BexpModel::Bool(false), i + 5))
    } else {
        Option::None
    }
}

pub open spec fn spec_lex_nil(s: Seq<char>, i: int) -> Option<(BexpModel, int)> {
    if 0 <= i && i + 3 <= s.len() && s[i] == 'n' && s[i + 1] == 'i' && s[i + 2] == 'l' {
        Option::Some((BexpModel::Nil, i + 3))
    } else {
        Option::None
    }
}

/// The first position at or after `i` that is not a decimal digit.
pub open spec fn spec_digits_end(s: Seq<char>, i: int) -> int
    decreases s.len() - i,
{
    if 0 <= i && i < s.len() && is_digit_char(s[i]) {
        spec_digits_end(s, i + 1)
    } else {
        i
    }
}

pub proof fn lemma_digits_end_bounds(s: Seq<char>, i: int)
    requires
        0 <= i <= s.len(),
    ensures
        i <= spec_digits_end(s, i) <= s.len(),
        forall|m: int| i <= m < spec_digits_end(s, i) ==> is_digit_char(s[m]),
    decreases s.len() - i,
{
    if i < s.len() && is_digit_char(s[i]) {
        lemma_digits_end_bounds(s, i + 1);
    }
}

/// The value of the decimal digits `s[from..to]`.
pub open spec fn spec_digits_val(s: Seq<char>, from: int, to: int) -> int
    decreases to - from,
{
    if to <= from {
        0
    } else {
        spec_digits_val(s, from, to - 1) * 10 + (s[to - 1] as u32 - 48)
    }
}

/// An integer literal: an optional minus sign followed by one or more
/// digits, rejected when its value does not fit a 64-bit signed integer.
pub open spec fn spec_lex_int(s: Seq<char>, i: int) -> Option<(BexpModel, int)> {
    let neg = 0 <= i && i < s.len() && s[i] == '-';
    let d0 = if neg {
        i + 1
    } else {
        i
    };
    let dend = spec_digits_end(s, d0);
    if dend == d0 {
        Option::None
    } else {
        let v = spec_digits_val(s, d0, dend);
        if neg {
            if v <= 9223372036854775808 {
                Option::Some((BexpModel::Int((-v) as i64), dend))
            } else {
                Option::None
            }
        } else {
            if v <= 9223372036854775807 {
                Option::Some((BexpModel::Int(v as i64), dend))
            } else {
                Option::None
            }
        }
    }
}

/// The first position at or after `i` that holds a quote, or the end.
pub open spec fn spec_quote_end(s: Seq<char>, i: int) -> int
    decreases s.len() - i,
{
    if 0 <= i && i < s.len() && s[i] != '\'' {
        spec_quote_end(s, i + 1)
    } else {
        i
    }
}

pub proof fn lemma_quote_end_bounds(s: Seq<char>, i: int)
    requires
        0 <= i <= s.len(),
    ensures
        i <= spec_quote_end(s, i) <= s.len(),
    decreases s.len() - i,
{
    if i < s.len() && s[i] != '\'' {
        lemma_quote_end_bounds(s, i + 1);
    }
}

/// A single-quoted string literal; the interior may hold any character but
/// a quote, and there are no escape sequences. Fails when unterminated.
pub open spec fn spec_lex_str(s: Seq<char>, i: int) -> Option<(BexpModel, int)> {
    if 0 <= i && i < s.len() && s[i] == '\'' {
        let q = spec_quote_end(s, i + 1);
        if q < s.len() {
            Option::Some((BexpModel::Str(s.subrange(i + 1, q)), q + 1))
        } else {
            Option::None
        }
    } else {
        Option::None
    }
}

/// The first position at or after `i` that cannot continue an identifier.
pub open spec fn spec_ident_end(s: Seq<char>, i: int) -> int
    decreases s.len() - i,
{
    if 0 <= i && i < s.len() && is_ident_char(s[i]) {
        spec_ident_end(s, i + 1)
    } else {
        i
    }
}

pub proof fn lemma_ident_end_bounds(s: Seq<char>, i: int)
    requires
        0 <= i <= s.len(),
    ensures
        i <= spec_ident_end(s, i) <= s.len(),
    decreases s.len() - i,
{
    if i < s.len() && is_ident_char(s[i]) {
        lemma_ident_end_bounds(s, i + 1);
    }
}

/// An identifier: a letter or underscore, then letters, digits and
/// underscores.
pub open spec fn spec_lex_var(s: Seq<char>, i: int) -> Option<(BexpModel, int)> {
    if 0 <= i && i < s.len() && (is_alpha_char(s[i]) || s[i] == '_') {
        let e = spec_ident_end(s, i + 1);
        Option::Some((BexpModel::Var(s.subrange(i, e)), e))
    } else {
        Option::None
    }
}

/// The operator at position `i`. Total: when no written operator matches,
/// the result is the empty operator `App`, which consumes nothing.
pub open spec fn spec_lex_op(s: Seq<char>, i: int) -> (Op, int) {
    if 0 <= i && i < s.len() && s[i] == ';' {
        (Op::In, i + 1)
    } else if 0 <= i && i + 2 <= s.len() && s[i] == '=' && s[i + 1] == '=' {
        (Op::Equals, i + 2)
    } else if 0 <= i && i < s.len() && s[i] == '=' {
        (Op::Let, i + 1)
    } else if 0 <= i && i + 2 <= s.len() && s[i] == '<' && s[i + 1] == '-' {
        (Op::Select, i + 2)
    } else if 0 <= i && i < s.len() && s[i] == '?' {
        (Op::Where, i + 1)
    } else if 0 <= i && i < s.len() && s[i] == '+' {
        (Op::Union, i + 1)
    } else if 0 <= i && i < s.len() && s[i] == '-' {
        (Op::Difference, i + 1)
    } else if 0 <= i && i < s.len() && s[i] == '*' {
        (Op::Product, i + 1)
    } else if 0 <= i && i < s.len() && s[i] == ':' {
        (Op::Table, i + 1)
    } else if 0 <= i && i < s.len() && s[i] == ',' {
        (Op::Item, i + 1)
    } else if 0 <= i && i + 2 <= s.len() && s[i] == '|' && s[i + 1] == '|' {
        (Op::Or, i + 2)
    } else if 0 <= i && i + 2 <= s.len() && s[i] == '&' && s[i + 1] == '&' {
        (Op::And, i + 2)
    } else {
        (Op::App, i)
    }
}

pub proof fn lemma_lex_op_bounds(s: Seq<char>, i: int)
    requires
        0 <= i <= s.len(),
    ensures
        i <= spec_lex_op(s, i).1 <= s.len(),
{
}

// ---------------------------------------------------------------------------
// The token layer: one atom, then operator-atom pairs
// ---------------------------------------------------------------------------

/// An atom: a parenthesised expression, `true`/`false`, an integer, `nil`,
/// a string, or an identifier, tried in that order.
pub open spec fn spec_lex_atom(s: Seq<char>, i: int) -> Option<(BexpModel, int)>
    decreases s.len() - i, 0nat,
        via spec_lex_atom_dec
{
    if 0 <= i && i <= s.len() {
        if i < s.len() && s[i] == '(' {
            match spec_lex_bexp(s, i + 1) {
                Option::Some((b, j)) => if 0 <= j && j < s.len() && s[j] == ')' {
                    Option::Some((BexpModel::Parens(Box::new(b)), j + 1))
                } else {
                    Option::None
                },
                Option::None => Option::None,
            }
        } else {
            match spec_lex_bool(s, i) {
                Option::Some(r) => Option::Some(r),
                Option::None => match spec_lex_int(s, i) {
                    Option::Some(r) => Option::Some(r),
                    Option::None => match spec_lex_nil(s, i) {
                        Option::Some(r) => Option::Some(r),
                        Option::None => match spec_lex_str(s, i) {
                            Option::Some(r) => Option::Some(r),
                            Option::None => spec_lex_var(s, i),
                        },
                    },
                },
            }
        }
    } else {
        Option::None
    }
}

#[via_fn]
proof fn spec_lex_atom_dec(s: Seq<char>, i: int) {
}

/// The operator-atom pairs that follow the first atom, with junk allowed
/// before each operator and each atom. Stops, consuming nothing further,
/// as soon as no atom follows the next operator.
pub open spec fn spec_lex_ops(s: Seq<char>, i: int) -> (Seq<(Op, BexpModel)>, int)
    decreases s.len() - i, 1nat,
        via spec_lex_ops_dec
{
    if 0 <= i && i <= s.len() {
        let j = spec_junk(s, i);
        let (op, j2) = spec_lex_op(s, j);
        let j3 = spec_junk(s, j2);
        match spec_lex_atom(s, j3) {
            Option::Some((b, j4)) => if i < j4 && j4 <= s.len() {
                let (rest, end) = spec_lex_ops(s, j4);
                (seq![(op, b)] + rest, end)
            } else {
                (Seq::empty(), i)
            },
            Option::None => (Seq::empty(), i),
        }
    } else {
        (Seq::empty(), i)
    }
}

#[via_fn]
proof fn spec_lex_ops_dec(s: Seq<char>, i: int) {
    if 0 <= i && i <= s.len() {
        lemma_junk_bounds(s, i);
        let j = spec_junk(s, i);
        lemma_lex_op_bounds(s, j);
        let (op, j2) = spec_lex_op(s, j);
        lemma_junk_bounds(s, j2);
    }
}

/// A whole expression: junk, an atom, operator-atom pairs, junk. The
/// resulting flat sequence is shaped into a tree by precedence climbing.
pub open spec fn spec_lex_bexp(s: Seq<char>, i: int) -> Option<(BexpModel, int)>
    decreases s.len() - i, 2nat,
        via spec_lex_bexp_dec
{
    if 0 <= i && i <= s.len() {
        let j0 = spec_junk(s, i);
        match spec_lex_atom(s, j0) {
            Option::None => Option::None,
            Option::Some((first, j1)) => if j0 < j1 && j1 <= s.len() {
                let (rest, j2) = spec_lex_ops(s, j1);
                let j3 = spec_junk(s, j2);
                Option::Some((spec_assoc_tree(first, rest), j3))
            } else {
                Option::None
            },
        }
    } else {
        Option::None
    }
}

#[via_fn]
proof fn spec_lex_bexp_dec(s: Seq<char>, i: int) {
    if 0 <= i && i <= s.len() {
        lemma_junk_bounds(s, i);
    }
}

// ---------------------------------------------------------------------------
// Precedence climbing
// ---------------------------------------------------------------------------

/// Does `o` bind tighter on the right of `op`: strictly higher precedence,
/// or the same precedence with right associativity?
pub open spec fn spec_tighter(o: Op, op: Op) -> bool {
    o.spec_prec() > op.spec_prec() || (o.spec_prec() == op.spec_prec() && o.spec_assoc()
        == Side::Right)
}

/// Precedence climbing over the flat operator stream `rest[i..]`: extends
/// `lhs` with every following operator of precedence at least `min`.
/// Returns the tree and the index of the first pair not consumed.
pub open spec fn spec_climb(
    rest: Seq<(Op, BexpModel)>,
    i: int,
    lhs: BexpModel,
    min: int,
) -> (BexpModel, int)
    decreases rest.len() - i, 0nat,
{
    if 0 <= i && i < rest.len() && rest[i].0.spec_prec() as int >= min {
        let op = rest[i].0;
        let (rhs, j) = spec_climb_rhs(rest, i + 1, rest[i].1, op);
        if i < j && j <= rest.len() {
            spec_climb(rest, j, BexpModel::Binary(Box::new(lhs), op, Box::new(rhs)), min)
        } else {
            (BexpModel::Binary(Box::new(lhs), op, Box::new(rhs)), j)
        }
    } else {
        (lhs, i)
    }
}

/// The right operand of `op`: starting from its atom `rhs`, consumes every
/// following operator that binds tighter on the right of `op`.
pub open spec fn spec_climb_rhs(
    rest: Seq<(Op, BexpModel)>,
    i: int,
    rhs: BexpModel,
    op: Op,
) -> (BexpModel, int)
    decreases rest.len() - i, 1nat,
{
    if 0 <= i && i < rest.len() && spec_tighter(rest[i].0, op) {
        let m = if rest[i].0.spec_prec() > op.spec_prec() {
            op.spec_prec() as int + 1
        } else {
            op.spec_prec() as int
        };
        let (rhs2, j) = spec_climb(rest, i, rhs, m);
        if i < j && j <= rest.len() {
            spec_climb_rhs(rest, j, rhs2, op)
        } else {
            (rhs2, j)
        }
    } else {
        (rhs, i)
    }
}

/// The tree for the flat sequence `first, rest`: every operator has
/// precedence at least 1, so a minimum of 0 consumes the whole stream.
pub open spec fn spec_assoc_tree(first: BexpModel, rest: Seq<(Op, BexpModel)>) -> BexpModel {
    spec_climb(rest, 0, first, 0).0
}

// ---------------------------------------------------------------------------
// Lowering the binary tree to an expression
// ---------------------------------------------------------------------------

/// Lowers a binary tree to an expression. `a ; b` requires `a` to be a
/// `=` binding and becomes a `Let`; `<-` becomes `Select` over a name list;
/// `:` becomes a `Table`; application allows only the function `not`;
/// `nil` is the empty table; `=`, `,` and other malformed shapes are
/// rejected.
pub open spec fn spec_parse_exp(b: BexpModel) -> Option<ExpModel>
    decreases b, 0nat,
{
    match b {
        BexpModel::Binary(l, op, r) => match op {
            Op::In => match *l {
                BexpModel::Binary(lv, lop, le) => if lop == Op::Let {
                    match spec_parse_exp(*lv) {
                        Option::Some(ExpModel::Var(x)) => match (
                            spec_parse_exp(*le),
                            spec_parse_exp(*r),
                        ) {
                            (Option::Some(e), Option::Some(body)) => Option::Some(
                                ExpModel::Let(x, Box::new(e), Box::new(body)),
                            ),
                            _ => Option::None,
                        },
                        _ => Option::None,
                    }
                } else {
                    Option::None
                },
                _ => Option::None,
            },
            Op::Let => Option::None,
            Op::Select => match (spec_parse_var_list(*l), spec_parse_exp(*r)) {
                (Option::Some(cols), Option::Some(src)) => Option::Some(
                    ExpModel::Select(cols, Box::new(src)),
                ),
                _ => Option::None,
            },
            Op::Where => match (spec_parse_exp(*l), spec_parse_exp(*r)) {
                (Option::Some(a), Option::Some(c)) => Option::Some(
                    ExpModel::Where(Box::new(a), Box::new(c)),
                ),
                _ => Option::None,
            },
            Op::Union => match (spec_parse_exp(*l), spec_parse_exp(*r)) {
                (Option::Some(a), Option::Some(c)) => Option::Some(
                    ExpModel::Union(Box::new(a), Box::new(c)),
                ),
                _ => Option::None,
            },
            Op::Difference => match (spec_parse_exp(*l), spec_parse_exp(*r)) {
                (Option::Some(a), Option::Some(c)) => Option::Some(
                    ExpModel::Difference(Box::new(a), Box::new(c)),
                ),
                _ => Option::None,
            },
            Op::Product => match (spec_parse_exp(*l), spec_parse_exp(*r)) {
                (Option::Some(a), Option::Some(c)) => Option::Some(
                    ExpModel::Product(Box::new(a), Box::new(c)),
                ),
                _ => Option::None,
            },
            Op::Table => match (spec_parse_var_list(*l), spec_parse_exp_list(*r)) {
                (Option::Some(cols), Option::Some(cells)) => Option::Some(
                    ExpModel::Table(cols, cells),
                ),
                _ => Option::None,
            },
            Op::Item => Option::None,
            Op::Or => match (spec_parse_exp(*l), spec_parse_exp(*r)) {
                (Option::Some(a), Option::Some(c)) => Option::Some(
                    ExpModel::Or(Box::new(a), Box::new(c)),
                ),
                _ => Option::None,
            },
            Op::Equals => match (spec_parse_exp(*l), spec_parse_exp(*r)) {
                (Option::Some(a), Option::Some(c)) => Option::Some(
                    ExpModel::Equals(Box::new(a), Box::new(c)),
                ),
                _ => Option::None,
            },
            Op::And => match (spec_parse_exp(*l), spec_parse_exp(*r)) {
                (Option::Some(a), Option::Some(c)) => Option::Some(
                    ExpModel::And(Box::new(a), Box::new(c)),
                ),
                _ => Option::None,
            },
            Op::App => match spec_parse_exp(*l) {
                Option::Some(ExpModel::Var(name)) => if name == "not"@ {
                    match spec_parse_exp(*r) {
                        Option::Some(e) => Option::Some(ExpModel::Not(Box::new(e))),
                        Option::None => Option::None,
                    }
                } else {
                    Option::None
                },
                _ => Option::None,
            },
        },
        BexpModel::Parens(inner) => spec_parse_exp(*inner),
        BexpModel::Bool(v) => Option::Some(ExpModel::Bool(v)),
        BexpModel::Int(v) => Option::Some(ExpModel::Int(v)),
        BexpModel::Nil => Option::Some(ExpModel::Table(Seq::empty(), Seq::empty())),
        BexpModel::Str(s) => Option::Some(ExpModel::Str(s)),
        BexpModel::Var(v) => Option::Some(ExpModel::Var(v)),
    }
}

/// Lowers a `,` chain to a list of identifiers: `nil` is the empty list,
/// and every element must be an identifier.
pub open spec fn spec_parse_var_list(b: BexpModel) -> Option<Seq<Seq<char>>>
    decreases b, 0nat,
{
    match b {
        BexpModel::Nil => Option::Some(Seq::empty()),
        BexpModel::Var(v) => Option::Some(seq![v]),
        BexpModel::Binary(l, op, r) => if op == Op::Item {
            match *l {
                BexpModel::Var(v) => match spec_parse_var_list(*r) {
                    Option::Some(vs) => Option::Some(seq![v] + vs),
                    Option::None => Option::None,
                },
                _ => Option::None,
            }
        } else {
            Option::None
        },
        _ => Option::None,
    }
}

/// Lowers a `,` chain to a list of expressions: `nil` is the empty list,
/// and anything that is not a chain is a list of one.
pub open spec fn spec_parse_exp_list(b: BexpModel) -> Option<Seq<ExpModel>>
    decreases b, 1nat,
{
    match b {
        BexpModel::Nil => Option::Some(Seq::empty()),
        BexpModel::Binary(l, op, r) => if op == Op::Item {
            match (spec_parse_exp(*l), spec_parse_exp_list(*r)) {
                (Option::Some(e), Option::Some(es)) => Option::Some(seq![e] + es),
                _ => Option::None,
            }
        } else {
            match spec_parse_exp(b) {
                Option::Some(e) => Option::Some(seq![e]),
                Option::None => Option::None,
            }
        },
        _ => match spec_parse_exp(b) {
            Option::Some(e) => Option::Some(seq![e]),
            Option::None => Option::None,
        },
    }
}

/// What `parse` returns on the characters `s`: the lexed and lowered
/// expression when the whole input is one well-formed expression, and
/// nothing otherwise.
pub open spec fn spec_parse(s: Seq<char>) -> Option<ExpModel> {
    match spec_lex_bexp(s, 0) {
        Option::Some((b, j)) => if j == s.len() {
            spec_parse_exp(b)
        } else {
            Option::None
        },
        Option::None => Option::None,
    }
}

// ---------------------------------------------------------------------------
// The executable lexer
// ---------------------------------------------------------------------------

/// The models of a token list.
pub open spec fn pairs_model(v: Seq<(Op, Bexp)>) -> Seq<(Op, BexpModel)> {
    v.map(|k: int, p: (Op, Bexp)| (p.0, p.1.model()))
}

/// How an executable atom result corresponds to its model: same success,
/// same shape, same end position, and on success the position advanced.
pub open spec fn atom_matches(
    r: Option<(Bexp, usize)>,
    m: Option<(BexpModel, int)>,
    i: int,
    n: int,
) -> bool {
    match (r, m) {
        (Option::Some((b, j)), Option::Some(p)) => b.model() == p.0 && j as int == p.1 && i < j
            && j <= n,
        (Option::None, Option::None) => true,
        _ => false,
    }
}

fn is_space(c: char) -> (r: bool)
    ensures
        r == is_space_char(c),
{
    c == ' ' || c == '\t' || c == '\r' || c == '\n'
}

fn is_digit(c: char) -> (r: bool)
    ensures
        r == is_digit_char(c),
{
    let u = c as u32;
    48 <= u && u <= 57
}

fn is_ident(c: char) -> (r: bool)
    ensures
        r == is_ident_char(c),
{
    let u = c as u32;
    (65 <= u && u <= 90) || (97 <= u && u <= 122) || (48 <= u && u <= 57) || c == '_'
}

fn line_end(s: &Vec<char>, i: usize) -> (j: usize)
    requires
        i <= s@.len(),
    ensures
        j as int == spec_line_end(s@, i as int),
        i <= j <= s@.len(),
    decreases s@.len() - i,
{
    if i < s.len() && s[i] != '\n' {
        line_end(s, i + 1)
    } else {
        i
    }
}

fn block_end(s: &Vec<char>, i: usize) -> (r: Option<usize>)
    requires
        i <= s@.len(),
    ensures
        match r {
            Option::Some(j) => spec_block_end(s@, i as int) == Option::Some(j as int) && i <= j && j
                + 2 <= s@.len(),
            Option::None => spec_block_end(s@, i as int) is None,
        },
    decreases s@.len() - i,
{
    if i < s.len() && s.len() - i >= 2 {
        if s[i] == '*' && s[i + 1] == '/' {
            Option::Some(i)
        } else {
            block_end(s, i + 1)
        }
    } else {
        Option::None
    }
}

fn junk(s: &Vec<char>, i: usize) -> (j: usize)
    requires
        i <= s@.len(),
    ensures
        j as int == spec_junk(s@, i as int),
        i <= j <= s@.len(),
    decreases s@.len() - i,
{
    if i < s.len() && is_space(s[i]) {
        junk(s, i + 1)
    } else if i < s.len() && s.len() - i >= 2 && s[i] == '-' && s[i + 1] == '-' {
        let e = line_end(s, i + 2);
        junk(s, e)
    } else if i < s.len() && s.len() - i >= 2 && s[i] == '/' && s[i + 1] == '*' {
        match block_end(s, i + 2) {
            Option::Some(j) => junk(s, j + 2),
            Option::None => i,
        }
    } else {
        i
    }
}

fn parse_bool(s: &Vec<char>, i: usize) -> (r: Option<(Bexp, usize)>)
    requires
        i <= s@.len(),
    ensures
        atom_matches(r, spec_lex_bool(s@, i as int), i as int, s@.len() as int),
{
    if i < s.len() && s.len() - i >= 4 && s[i] == 't' && s[i + 1] == 'r' && s[i + 2] == 'u' && s[i
        + 3] == 'e' {
        Option::Some((Bexp::Bool(true), i + 4))
    } else if i < s.len() && s.len() - i >= 5 && s[i] == 'f' && s[i + 1] == 'a' && s[i + 2] == 'l'
        && s[i + 3] == 's' && s[i + 4] == 'e' {
        Option::Some((Bexp::Bool(false), i + 5))
    } else {
        Option::None
    }
}

fn parse_nil(s: &Vec<char>, i: usize) -> (r: Option<(Bexp, usize)>)
    requires
        i <= s@.len(),
    ensures
        atom_matches(r, spec_lex_nil(s@, i as int), i as int, s@.len() as int),
{
    if i < s.len() && s.len() - i >= 3 && s[i] == 'n' && s[i + 1] == 'i' && s[i + 2] == 'l' {
        Option::Some((Bexp::Nil, i + 3))
    } else {
        Option::None
    }
}

fn digits_end(s: &Vec<char>, i: usize) -> (j: usize)
    requires
        i <= s@.len(),
    ensures
        j as int == spec_digits_end(s@, i as int),
        i <= j <= s@.len(),
    decreases s@.len() - i,
{
    if i < s.len() && is_digit(s[i]) {
        digits_end(s, i + 1)
    } else {
        i
    }
}

fn quote_end(s: &Vec<char>, i: usize) -> (j: usize)
    requires
        i <= s@.len(),
    ensures
        j as int == spec_quote_end(s@, i as int),
        i <= j <= s@.len(),
    decreases s@.len() - i,
{
    if i < s.len() && s[i] != '\'' {
        quote_end(s, i + 1)
    } else {
        i
    }
}

fn ident_end(s: &Vec<char>, i: usize) -> (j: usize)
    requires
        i <= s@.len(),
    ensures
        j as int == spec_ident_end(s@, i as int),
        i <= j <= s@.len(),
    decreases s@.len() - i,
{
    if i < s.len() && is_ident(s[i]) {
        ident_end(s, i + 1)
    } else {
        i
    }
}

fn parse_int(s: &Vec<char>, i: usize) -> (r: Option<(Bexp, usize)>)
    requires
        i <= s@.len(),
    ensures
        atom_matches(r, spec_lex_int(s@, i as int), i as int, s@.len() as int),
{
    let neg = i < s.len() && s[i] == '-';
    let d0 = if neg {
        i + 1
    } else {
        i
    };
    let dend = digits_end(s, d0);
    if dend == d0 {
        return Option::None;
    }
    proof {
        lemma_digits_end_bounds(s@, d0 as int);
    }
    let limit: u128 = if neg {
        9223372036854775808
    } else {
        9223372036854775807
    };
    let mut acc: u128 = 0;
    let mut k = d0;
    while k < dend
        invariant
            d0 <= k <= dend <= s@.len(),
            dend as int == spec_digits_end(s@, d0 as int),
            forall|m: int| d0 <= m < dend ==> is_digit_char(s@[m]),
            acc <= limit ==> acc as int == spec_digits_val(s@, d0 as int, k as int),
            acc > limit ==> spec_digits_val(s@, d0 as int, k as int) > limit,
            limit == if neg {
                9223372036854775808u128
            } else {
                9223372036854775807u128
            },
        decreases dend - k,
    {
        let d = (s[k] as u32) - 48;
        if acc <= limit {
            acc = acc * 10 + (d as u128);
        }
        k = k + 1;
    }
    if acc > limit {
        return Option::None;
    }
    let val: i64 = if neg {
        if acc == 9223372036854775808 {
            (-9223372036854775807i64) - 1
        } else {
            -(acc as i64)
        }
    } else {
        acc as i64
    };
    Option::Some((Bexp::Int(val), dend))
}

fn parse_str(s: &Vec<char>, i: usize) -> (r: Option<(Bexp, usize)>)
    requires
        i <= s@.len(),
    ensures
        atom_matches(r, spec_lex_str(s@, i as int), i as int, s@.len() as int),
{
    if i < s.len() && s[i] == '\'' {
        let q = quote_end(s, i + 1);
        if q < s.len() {
            let content = crate::text::copy_range(s, i + 1, q);
            Option::Some((Bexp::Str(crate::text::chars_to_string(&content)), q + 1))
        } else {
            Option::None
        }
    } else {
        Option::None
    }
}

fn parse_var(s: &Vec<char>, i: usize) -> (r: Option<(Bexp, usize)>)
    requires
        i <= s@.len(),
    ensures
        atom_matches(r, spec_lex_var(s@, i as int), i as int, s@.len() as int),
{
    if i < s.len() && (is_ident(s[i]) && !is_digit(s[i]) || s[i] == '_') {
        let e = ident_end(s, i + 1);
        let name = crate::text::copy_range(s, i, e);
        Option::Some((Bexp::Var(crate::text::chars_to_string(&name)), e))
    } else {
        Option::None
    }
}

fn parse_op(s: &Vec<char>, i: usize) -> (r: (Op, usize))
    requires
        i <= s@.len(),
    ensures
        (r.0, r.1 as int) == spec_lex_op(s@, i as int),
        i <= r.1 <= s@.len(),
{
    if i < s.len() && s[i] == ';' {
        (Op::In, i + 1)
    } else if i < s.len() && s.len() - i >= 2 && s[i] == '=' && s[i + 1] == '=' {
        (Op::Equals, i + 2)
    } else if i < s.len() && s[i] == '=' {
        (Op::Let, i + 1)
    } else if i < s.len() && s.len() - i >= 2 && s[i] == '<' && s[i + 1] == '-' {
        (Op::Select, i + 2)
    } else if i < s.len() && s[i] == '?' {
        (Op::Where, i + 1)
    } else if i < s.len() && s[i] == '+' {
        (Op::Union, i + 1)
    } else if i < s.len() && s[i] == '-' {
        (Op::Difference, i + 1)
    } else if i < s.len() && s[i] == '*' {
        (Op::Product, i + 1)
    } else if i < s.len() && s[i] == ':' {
        (Op::Table, i + 1)
    } else if i < s.len() && s[i] == ',' {
        (Op::Item, i + 1)
    } else if i < s.len() && s.len() - i >= 2 && s[i] == '|' && s[i + 1] == '|' {
        (Op::Or, i + 2)
    } else if i < s.len() && s.len() - i >= 2 && s[i] == '&' && s[i + 1] == '&' {
        (Op::And, i + 2)
    } else {
        (Op::App, i)
    }
}

fn parse_atom(s: &Vec<char>, i: usize) -> (r: Option<(Bexp, usize)>)
    requires
        i <= s@.len(),
    ensures
        atom_matches(r, spec_lex_atom(s@, i as int), i as int, s@.len() as int),
    decreases s@.len() - i, 0nat,
{
    if i < s.len() && s[i] == '(' {
        match parse_bexp(s, i + 1) {
            Option::Some((b, j)) => {
                if j < s.len() && s[j] == ')' {
                    Option::Some((Bexp::Parens(Box::new(b)), j + 1))
                } else {
                    Option::None
                }
            },
            Option::None => Option::None,
        }
    } else {
        match parse_bool(s, i) {
            Option::Some(a) => Option::Some(a),
            Option::None => match parse_int(s, i) {
                Option::Some(a) => Option::Some(a),
                Option::None => match parse_nil(s, i) {
                    Option::Some(a) => Option::Some(a),
                    Option::None => match parse_str(s, i) {
                        Option::Some(a) => Option::Some(a),
                        Option::None => parse_var(s, i),
                    },
                },
            },
        }
    }
}

fn parse_ops(s: &Vec<char>, i: usize) -> (r: (Vec<(Op, Bexp)>, usize))
    requires
        i <= s@.len(),
    ensures
        ({
            let m = spec_lex_ops(s@, i as int);
            pairs_model(r.0@) == m.0 && r.1 as int == m.1 && i <= r.1 <= s@.len()
        }),
    decreases s@.len() - i, 1nat,
{
    let j = junk(s, i);
    let (op, j2) = parse_op(s, j);
    let j3 = junk(s, j2);
    match parse_atom(s, j3) {
        Option::Some((b, j4)) => {
            let rec = parse_ops(s, j4);
            let mut rest = rec.0;
            let ghost rest0 = rest@;
            let ghost bm = b.model();
            rest.insert(0, (op, b));
            proof {
                assert(pairs_model(rest@) =~= seq![(op, bm)] + pairs_model(rest0));
            }
            (rest, rec.1)
        },
        Option::None => {
            let out: Vec<(Op, Bexp)> = Vec::new();
            proof {
                assert(pairs_model(out@) =~= Seq::<(Op, BexpModel)>::empty());
            }
            (out, i)
        },
    }
}

fn parse_bexp(s: &Vec<char>, i: usize) -> (r: Option<(Bexp, usize)>)
    requires
        i <= s@.len(),
    ensures
        ({
            let m = spec_lex_bexp(s@, i as int);
            match (r, m) {
                (Option::Some((b, j)), Option::Some(p)) => b.model() == p.0 && j as int == p.1 && i
                    <= j <= s@.len(),
                (Option::None, Option::None) => true,
                _ => false,
            }
        }),
    decreases s@.len() - i, 2nat,
{
    let j0 = junk(s, i);
    match parse_atom(s, j0) {
        Option::None => Option::None,
        Option::Some((first, j1)) => {
            let rec = parse_ops(s, j1);
            let j3 = junk(s, rec.1);
            let b = assoc_tree(first, &rec.0);
            Option::Some((b, j3))
        },
    }
}

impl Clone for Bexp {
    /// A structural copy: the clone has the same model.
    fn clone(&self) -> (r: Self)
        ensures
            r.model() == self.model(),
        decreases self,
    {
        match self {
            Bexp::Binary(l, op, r2) => Bexp::Binary(
                Box::new((&**l).clone()),
                *op,
                Box::new((&**r2).clone()),
            ),
            Bexp::Parens(b) => Bexp::Parens(Box::new((&**b).clone())),
            Bexp::Bool(b) => Bexp::Bool(*b),
            Bexp::Int(v) => Bexp::Int(*v),
            Bexp::Nil => Bexp::Nil,
            Bexp::Str(t) => Bexp::Str(t.clone()),
            Bexp::Var(v) => Bexp::Var(v.clone()),
        }
    }
}

fn climb(rest: &Vec<(Op, Bexp)>, i: usize, lhs: Bexp, min: u32) -> (r: (Bexp, usize))
    requires
        i <= rest@.len(),
    ensures
        ({
            let m = spec_climb(pairs_model(rest@), i as int, lhs.model(), min as int);
            r.0.model() == m.0 && r.1 as int == m.1 && i <= r.1 <= rest@.len()
        }),
    decreases rest@.len() - i, 0nat,
{
    if i < rest.len() {
        let op = rest[i].0;
        if op.prec() >= min {
            let rhs0 = rest[i].1.clone();
            let (rhs, j) = climb_rhs(rest, i + 1, rhs0, op);
            climb(rest, j, Bexp::Binary(Box::new(lhs), op, Box::new(rhs)), min)
        } else {
            (lhs, i)
        }
    } else {
        (lhs, i)
    }
}

fn climb_rhs(rest: &Vec<(Op, Bexp)>, i: usize, rhs: Bexp, op: Op) -> (r: (Bexp, usize))
    requires
        i <= rest@.len(),
    ensures
        ({
            let m = spec_climb_rhs(pairs_model(rest@), i as int, rhs.model(), op);
            r.0.model() == m.0 && r.1 as int == m.1 && i <= r.1 <= rest@.len()
        }),
    decreases rest@.len() - i, 1nat,
{
    if i < rest.len() {
        let o2 = rest[i].0;
        if o2.prec() > op.prec() || (o2.prec() == op.prec() && o2.assoc() == Side::Right) {
            let m = if o2.prec() > op.prec() {
                op.prec() + 1
            } else {
                op.prec()
            };
            let (rhs2, j) = climb(rest, i, rhs, m);
            if j > i {
                climb_rhs(rest, j, rhs2, op)
            } else {
                (rhs2, j)
            }
        } else {
            (rhs, i)
        }
    } else {
        (rhs, i)
    }
}

fn assoc_tree(first: Bexp, rest: &Vec<(Op, Bexp)>) -> (r: Bexp)
    ensures
        r.model() == spec_assoc_tree(first.model(), pairs_model(rest@)),
{
    let c = climb(rest, 0, first, 0);
    c.0
}

// ---------------------------------------------------------------------------
// The executable lowering
// ---------------------------------------------------------------------------

fn is_not_name(s: &String) -> (r: bool)
    ensures
        r == (s@ == "not"@),
{
    proof {
        reveal_strlit("not");
    }
    let t = s.as_str();
    if t.unicode_len() == 3 {
        let r = t.get_char(0) == 'n' && t.get_char(1) == 'o' && t.get_char(2) == 't';
        proof {
            if r {
                assert(s@ =~= "not"@);
            }
        }
        r
    } else {
        false
    }
}

fn parse_var_list(bexp: Bexp) -> (r: Result<Vec<String>, String>)
    ensures
        match (r, spec_parse_var_list(bexp.model())) {
            (Result::Ok(v), Option::Some(vs)) => crate::exp::names_model(v@) == vs,
            (Result::Err(_), Option::None) => true,
            _ => false,
        },
    decreases bexp, 0nat,
{
    let ghost bm = bexp.model();
    match bexp {
        Bexp::Nil => {
            let out: Vec<String> = Vec::new();
            proof {
                assert(crate::exp::names_model(out@) =~= Seq::<Seq<char>>::empty());
            }
            Result::Ok(out)
        },
        Bexp::Var(v) => {
            let ghost vm = v@;
            let mut out: Vec<String> = Vec::new();
            out.push(v);
            proof {
                assert(bm == BexpModel::Var(vm));
                assert(crate::exp::names_model(out@) =~= seq![vm]);
            }
            Result::Ok(out)
        },
        Bexp::Binary(l, op, rest) => {
            let ghost lm = l.model();
            let ghost rm = rest.model();
            proof {
                assert(bm == BexpModel::Binary(Box::new(lm), op, Box::new(rm)));
            }
            if op == Op::Item {
                match *l {
                    Bexp::Var(v) => match parse_var_list(*rest) {
                        Result::Ok(mut vs) => {
                            let ghost vs0 = vs@;
                            let ghost vm = v@;
                            proof {
                                assert(lm == BexpModel::Var(vm));
                            }
                            vs.insert(0, v);
                            proof {
                                assert(crate::exp::names_model(vs@) =~= seq![vm]
                                    + crate::exp::names_model(vs0));
                            }
                            Result::Ok(vs)
                        },
                        Result::Err(e) => Result::Err(e),
                    },
                    _ => Result::Err(String::from_str("expected variable")),
                }
            } else {
                Result::Err(String::from_str("expected variables"))
            }
        },
        _ => Result::Err(String::from_str("expected variables")),
    }
}

fn parse_exp_list(bexp: Bexp) -> (r: Result<Vec<Exp>, String>)
    ensures
        match (r, spec_parse_exp_list(bexp.model())) {
            (Result::Ok(v), Option::Some(es)) => crate::exp::exps_model(v@) == es,
            (Result::Err(_), Option::None) => true,
            _ => false,
        },
    decreases bexp, 1nat,
{
    match bexp {
        Bexp::Nil => {
            let out: Vec<Exp> = Vec::new();
            proof {
                assert(crate::exp::exps_model(out@) =~= Seq::<ExpModel>::empty());
            }
            Result::Ok(out)
        },
        Bexp::Binary(l, op, rest) => {
            if op == Op::Item {
                match parse_exp(*l) {
                    Result::Ok(e) => match parse_exp_list(*rest) {
                        Result::Ok(mut es) => {
                            let ghost es0 = es@;
                            let ghost em = e.model();
                            es.insert(0, e);
                            proof {
                                assert(crate::exp::exps_model(es@) =~= seq![em]
                                    + crate::exp::exps_model(es0));
                            }
                            Result::Ok(es)
                        },
                        Result::Err(e2) => Result::Err(e2),
                    },
                    Result::Err(e2) => Result::Err(e2),
                }
            } else {
                match parse_exp(Bexp::Binary(l, op, rest)) {
                    Result::Ok(e) => {
                        let ghost em = e.model();
                        let mut out: Vec<Exp> = Vec::new();
                        out.push(e);
                        proof {
                            assert(crate::exp::exps_model(out@) =~= seq![em]);
                        }
                        Result::Ok(out)
                    },
                    Result::Err(e2) => Result::Err(e2),
                }
            }
        },
        other => match parse_exp(other) {
            Result::Ok(e) => {
                let ghost em = e.model();
                let mut out: Vec<Exp> = Vec::new();
                out.push(e);
                proof {
                    assert(crate::exp::exps_model(out@) =~= seq![em]);
                }
                Result::Ok(out)
            },
            Result::Err(e2) => Result::Err(e2),
        },
    }
}

fn parse_exp(bexp: Bexp) -> (r: Result<Exp, String>)
    ensures
        match (r, spec_parse_exp(bexp.model())) {
            (Result::Ok(e), Option::Some(em)) => e.model() == em,
            (Result::Err(_), Option::None) => true,
            _ => false,
        },
    decreases bexp, 0nat,
{
    let ghost bm = bexp.model();
    match bexp {
        Bexp::Binary(l, op, r) => {
            let ghost lm = l.model();
            let ghost rm = r.model();
            proof {
                assert(bm == BexpModel::Binary(Box::new(lm), op, Box::new(rm)));
            }
            match op {
            Op::In => match *l {
                Bexp::Binary(lv, lop, le) => {
                    let ghost lvm = lv.model();
                    let ghost lem = le.model();
                    proof {
                        assert(lm == BexpModel::Binary(Box::new(lvm), lop, Box::new(lem)));
                    }
                    if lop == Op::Let {
                        match parse_exp(*lv) {
                            Result::Ok(Exp::Var(x)) => match parse_exp(*le) {
                                Result::Ok(e) => match parse_exp(*r) {
                                    Result::Ok(body) => Result::Ok(
                                        Exp::Let(x, Box::new(e), Box::new(body)),
                                    ),
                                    Result::Err(e2) => Result::Err(e2),
                                },
                                Result::Err(e2) => Result::Err(e2),
                            },
                            Result::Ok(_) => Result::Err(String::from_str("expected var")),
                            Result::Err(e2) => Result::Err(e2),
                        }
                    } else {
                        Result::Err(String::from_str("expected let"))
                    }
                },
                _ => Result::Err(String::from_str("expected let")),
            },
            Op::Let => Result::Err(String::from_str("let not allowed here")),
            Op::Select => match parse_var_list(*l) {
                Result::Ok(cols) => match parse_exp(*r) {
                    Result::Ok(src) => Result::Ok(Exp::Select(cols, Box::new(src))),
                    Result::Err(e2) => Result::Err(e2),
                },
                Result::Err(e2) => Result::Err(e2),
            },
            Op::Where => match (parse_exp(*l), parse_exp(*r)) {
                (Result::Ok(a), Result::Ok(c)) => Result::Ok(Exp::Where(Box::new(a), Box::new(c))),
                (Result::Err(e2), _) => Result::Err(e2),
                (_, Result::Err(e2)) => Result::Err(e2),
            },
            Op::Union => match (parse_exp(*l), parse_exp(*r)) {
                (Result::Ok(a), Result::Ok(c)) => Result::Ok(Exp::Union(Box::new(a), Box::new(c))),
                (Result::Err(e2), _) => Result::Err(e2),
                (_, Result::Err(e2)) => Result::Err(e2),
            },
            Op::Difference => match (parse_exp(*l), parse_exp(*r)) {
                (Result::Ok(a), Result::Ok(c)) => Result::Ok(
                    Exp::Difference(Box::new(a), Box::new(c)),
                ),
                (Result::Err(e2), _) => Result::Err(e2),
                (_, Result::Err(e2)) => Result::Err(e2),
            },
            Op::Product => match (parse_exp(*l), parse_exp(*r)) {
                (Result::Ok(a), Result::Ok(c)) => Result::Ok(
                    Exp::Product(Box::new(a), Box::new(c)),
                ),
                (Result::Err(e2), _) => Result::Err(e2),
                (_, Result::Err(e2)) => Result::Err(e2),
            },
            Op::Table => match parse_var_list(*l) {
                Result::Ok(cols) => match parse_exp_list(*r) {
                    Result::Ok(cells) => Result::Ok(Exp::Table(cols, cells)),
                    Result::Err(e2) => Result::Err(e2),
                },
                Result::Err(e2) => Result::Err(e2),
            },
            Op::Item => Result::Err(String::from_str("item not allowed here")),
            Op::Or => match (parse_exp(*l), parse_exp(*r)) {
                (Result::Ok(a), Result::Ok(c)) => Result::Ok(Exp::Or(Box::new(a), Box::new(c))),
                (Result::Err(e2), _) => Result::Err(e2),
                (_, Result::Err(e2)) => Result::Err(e2),
            },
            Op::Equals => match (parse_exp(*l), parse_exp(*r)) {
                (Result::Ok(a), Result::Ok(c)) => Result::Ok(Exp::Equals(Box::new(a), Box::new(c))),
                (Result::Err(e2), _) => Result::Err(e2),
                (_, Result::Err(e2)) => Result::Err(e2),
            },
            Op::And => match (parse_exp(*l), parse_exp(*r)) {
                (Result::Ok(a), Result::Ok(c)) => Result::Ok(Exp::And(Box::new(a), Box::new(c))),
                (Result::Err(e2), _) => Result::Err(e2),
                (_, Result::Err(e2)) => Result::Err(e2),
            },
            Op::App => match parse_exp(*l) {
                Result::Ok(Exp::Var(name)) => {
                    if is_not_name(&name) {
                        match parse_exp(*r) {
                            Result::Ok(e) => Result::Ok(Exp::Not(Box::new(e))),
                            Result::Err(e2) => Result::Err(e2),
                        }
                    } else {
                        Result::Err(String::from_str("unknown function").concat(name.as_str()))
                    }
                },
                Result::Ok(_) => Result::Err(String::from_str("cannot apply")),
                Result::Err(e2) => Result::Err(e2),
            },
            }
        },
        Bexp::Parens(inner) => parse_exp(*inner),
        Bexp::Bool(v) => Result::Ok(Exp::Bool(v)),
        Bexp::Int(v) => Result::Ok(Exp::Int(v)),
        Bexp::Nil => {
            let cols: Vec<String> = Vec::new();
            let cells: Vec<Exp> = Vec::new();
            proof {
                assert(crate::exp::names_model(cols@) =~= Seq::<Seq<char>>::empty());
                assert(crate::exp::exps_model(cells@) =~= Seq::<ExpModel>::empty());
            }
            Result::Ok(Exp::Table(cols, cells))
        },
        Bexp::Str(t) => Result::Ok(Exp::Str(t)),
        Bexp::Var(v) => Result::Ok(Exp::Var(v)),
    }
}

/// Parses one whole DRD expression: junk and the expression must consume
/// the entire input. Succeeds exactly when the input is well formed, and
/// then returns the expression the grammar gives it.
pub fn parse(input: &str) -> (r: Result<Exp, String>)
    ensures
        match (r, spec_parse(input@)) {
            (Result::Ok(e), Option::Some(em)) => e.model() == em,
            (Result::Err(_), Option::None) => true,
            _ => false,
        },
{
    let chars = crate::text::to_chars(input);
    match parse_bexp(&chars, 0) {
        Option::Some((b, j)) => {
            if j == chars.len() {
                parse_exp(b)
            } else {
                Result::Err(String::from_str("unconsumed input"))
            }
        },
        Option::None => Result::Err(String::from_str("could not parse expression")),
    }
}

} // verus!
