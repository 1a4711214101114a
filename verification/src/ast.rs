use vstd::prelude::*;

verus! {

/// A uniformly node-shaped form of the syntax tree, with one struct per
/// operator and explicit `Program`, `Row` and `Cell` nodes. The parser,
/// evaluator and printer work on the flat `crate::exp::Exp`; this form
/// names each node so that tools that walk the tree can take one node at
/// a time.
#[derive(Debug, PartialEq)]
pub struct Program(pub Vec<Exp>);

#[derive(Debug, PartialEq)]
pub enum Exp {
    Let(Let),
    Select(Select),
    Where(Where),
    Union(Union),
    Difference(Difference),
    Product(Product),
    Table(Table),
    Row(Row),
    Cell(Cell),
    Or(Or),
    Equals(Equals),
    And(And),
    Not(Not),
    Bool(Bool),
    Int(Int),
    Str(Str),
    Var(Var),
}

#[derive(Debug, PartialEq)]
pub struct Let(pub Var, pub Box<Exp>);

#[derive(Debug, PartialEq)]
pub struct Select(pub Vec<Var>, pub Box<Exp>);

#[derive(Debug, PartialEq)]
pub struct Where(pub Box<Exp>, pub Box<Exp>);

#[derive(Debug, PartialEq)]
pub struct Union(pub Box<Exp>, pub Box<Exp>);

#[derive(Debug, PartialEq)]
pub struct Difference(pub Box<Exp>, pub Box<Exp>);

#[derive(Debug, PartialEq)]
pub struct Product(pub Box<Exp>, pub Box<Exp>);

#[derive(Debug, PartialEq)]
pub struct Table(pub Box<Exp>, pub Box<Exp>);

#[derive(Debug, PartialEq)]
pub struct Row(pub Box<Exp>, pub Box<Exp>);

#[derive(Debug, PartialEq)]
pub struct Cell(pub Var, pub Box<Exp>);

#[derive(Debug, PartialEq)]
pub struct Or(pub Box<Exp>, pub Box<Exp>);

#[derive(Debug, PartialEq)]
pub struct Equals(pub Box<Exp>, pub Box<Exp>);

#[derive(Debug, PartialEq)]
pub struct And(pub Box<Exp>, pub Box<Exp>);

#[derive(Debug, PartialEq)]
pub struct Not(pub Box<Exp>);

#[derive(Debug, PartialEq)]
pub struct Bool(pub bool);

#[derive(Debug, PartialEq)]
pub struct Int(pub i64);

#[derive(Debug, PartialEq)]
pub struct Str(pub String);

#[derive(Debug, PartialEq)]
pub struct Var(pub String);

} // verus!
