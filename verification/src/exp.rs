use vstd::prelude::*;

verus! {

/// A DRD expression: the abstract syntax that the parser produces, the
/// evaluator reduces, and the pretty-printer serialises.
///
/// A *value* is an `Exp` whose outermost form is `Bool`, `Int`, `Str`, or
/// `Table` of already-reduced cells.
#[derive(Debug, PartialEq)]
pub enum Exp {
    Let(String, Box<Exp>, Box<Exp>),
    Select(Vec<String>, Box<Exp>),
    Where(Box<Exp>, Box<Exp>),
    Union(Box<Exp>, Box<Exp>),
    Difference(Box<Exp>, Box<Exp>),
    Product(Box<Exp>, Box<Exp>),
    Table(Vec<String>, Vec<Exp>),
    Or(Box<Exp>, Box<Exp>),
    Equals(Box<Exp>, Box<Exp>),
    And(Box<Exp>, Box<Exp>),
    Not(Box<Exp>),
    Bool(bool),
    Int(i64),
    Str(String),
    Var(String),
}

/// The mathematical shape of an `Exp`: identifiers and string literals are
/// sequences of characters, and the cell list of a table is a sequence of
/// models. All contracts in this crate speak of expressions through this
/// type.
#[verifier::ext_equal]
pub enum ExpModel {
    Let(Seq<char>, Box<ExpModel>, Box<ExpModel>),
    Select(Seq<Seq<char>>, Box<ExpModel>),
    Where(Box<ExpModel>, Box<ExpModel>),
    Union(Box<ExpModel>, Box<ExpModel>),
    Difference(Box<ExpModel>, Box<ExpModel>),
    Product(Box<ExpModel>, Box<ExpModel>),
    Table(Seq<Seq<char>>, Seq<ExpModel>),
    Or(Box<ExpModel>, Box<ExpModel>),
    Equals(Box<ExpModel>, Box<ExpModel>),
    And(Box<ExpModel>, Box<ExpModel>),
    Not(Box<ExpModel>),
    Bool(bool),
    Int(i64),
    Str(Seq<char>),
    Var(Seq<char>),
}

/// The models of a list of identifiers: each `String` as its character
/// sequence.
pub open spec fn names_model(v: Seq<String>) -> Seq<Seq<char>> {
    v.map(|i: int, s: String| s@)
}

/// The models of a list of expressions.
pub open spec fn exps_model(v: Seq<Exp>) -> Seq<ExpModel>
    decreases v,
{
    Seq::new(v.len(), |i: int| if 0 <= i < v.len() { v[i].model() } else { ExpModel::Bool(false) })
}

impl Exp {
    /// The mathematical shape of this expression.
    pub open spec fn model(self) -> ExpModel
        decreases self,
    {
        match self {
            Exp::Let(x, e, b) => ExpModel::Let(x@, Box::new(e.model()), Box::new(b.model())),
            Exp::Select(cols, src) => ExpModel::Select(names_model(cols@), Box::new(src.model())),
            Exp::Where(l, r) => ExpModel::Where(Box::new(l.model()), Box::new(r.model())),
            Exp::Union(l, r) => ExpModel::Union(Box::new(l.model()), Box::new(r.model())),
            Exp::Difference(l, r) => ExpModel::Difference(
                Box::new(l.model()),
                Box::new(r.model()),
            ),
            Exp::Product(l, r) => ExpModel::Product(Box::new(l.model()), Box::new(r.model())),
            Exp::Table(cols, cells) => ExpModel::Table(names_model(cols@), exps_model(cells@)),
            Exp::Or(l, r) => ExpModel::Or(Box::new(l.model()), Box::new(r.model())),
            Exp::Equals(l, r) => ExpModel::Equals(Box::new(l.model()), Box::new(r.model())),
            Exp::And(l, r) => ExpModel::And(Box::new(l.model()), Box::new(r.model())),
            Exp::Not(e) => ExpModel::Not(Box::new(e.model())),
            Exp::Bool(b) => ExpModel::Bool(b),
            Exp::Int(i) => ExpModel::Int(i),
            Exp::Str(s) => ExpModel::Str(s@),
            Exp::Var(x) => ExpModel::Var(x@),
        }
    }
}

} // verus!
