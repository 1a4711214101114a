use vstd::prelude::*;

use crate::exp::{exps_model, names_model, Exp, ExpModel};
use vstd::string::StrSliceExecFns;
use vstd::string::StringExecFns;

verus! {

broadcast use vstd::seq::group_seq_axioms;

// ---------------------------------------------------------------------------
// Structural copies and structural equality
// ---------------------------------------------------------------------------

/// A copy of a name list with the same models.
pub fn clone_names(v: &Vec<String>) -> (r: Vec<String>)
    ensures
        names_model(r@) == names_model(v@),
{
    let mut out: Vec<String> = Vec::new();
    let mut k: usize = 0;
    while k < v.len()
        invariant
            k <= v@.len(),
            out@.len() == k,
            forall|m: int| 0 <= m < k ==> out@[m]@ == v@[m]@,
        decreases v@.len() - k,
    {
        out.push(v[k].clone());
        k = k + 1;
    }
    proof {
        assert(names_model(out@) =~= names_model(v@));
    }
    out
}

/// A copy of a cell list with the same models.
pub fn clone_exps(v: &Vec<Exp>) -> (r: Vec<Exp>)
    ensures
        exps_model(r@) == exps_model(v@),
    decreases v@, 1nat,
{
    let mut out: Vec<Exp> = Vec::new();
    let mut k: usize = 0;
    while k < v.len()
        invariant
            k <= v@.len(),
            out@.len() == k,
            forall|m: int| 0 <= m < k ==> out@[m].model() == v@[m].model(),
        decreases v@.len() - k,
    {
        out.push(v[k].clone());
        k = k + 1;
    }
    proof {
        assert(exps_model(out@) =~= exps_model(v@));
    }
    out
}

impl Clone for Exp {
    /// A structural copy: the clone has the same model.
    fn clone(&self) -> (r: Self)
        ensures
            r.model() == self.model(),
        decreases self, 0nat,
    {
        match self {
            Exp::Let(x, e1, b) => Exp::Let(
                x.clone(),
                Box::new((&**e1).clone()),
                Box::new((&**b).clone()),
            ),
            Exp::Select(cols, src) => Exp::Select(clone_names(cols), Box::new((&**src).clone())),
            Exp::Where(l, r2) => Exp::Where(Box::new((&**l).clone()), Box::new((&**r2).clone())),
            Exp::Union(l, r2) => Exp::Union(Box::new((&**l).clone()), Box::new((&**r2).clone())),
            Exp::Difference(l, r2) => Exp::Difference(
                Box::new((&**l).clone()),
                Box::new((&**r2).clone()),
            ),
            Exp::Product(l, r2) => Exp::Product(
                Box::new((&**l).clone()),
                Box::new((&**r2).clone()),
            ),
            Exp::Table(cols, cells) => Exp::Table(clone_names(cols), clone_exps(cells)),
            Exp::Or(l, r2) => Exp::Or(Box::new((&**l).clone()), Box::new((&**r2).clone())),
            Exp::Equals(l, r2) => Exp::Equals(Box::new((&**l).clone()), Box::new((&**r2).clone())),
            Exp::And(l, r2) => Exp::And(Box::new((&**l).clone()), Box::new((&**r2).clone())),
            Exp::Not(i) => Exp::Not(Box::new((&**i).clone())),
            Exp::Bool(v) => Exp::Bool(*v),
            Exp::Int(v) => Exp::Int(*v),
            Exp::Str(s) => Exp::Str(s.clone()),
            Exp::Var(v) => Exp::Var(v.clone()),
        }
    }
}

/// Whether two name lists have the same models.
pub fn names_eq(a: &Vec<String>, b: &Vec<String>) -> (r: bool)
    ensures
        r == (names_model(a@) == names_model(b@)),
{
    if a.len() != b.len() {
        return false;
    }
    let mut k: usize = 0;
    while k < a.len()
        invariant
            k <= a@.len(),
            a@.len() == b@.len(),
            forall|m: int| 0 <= m < k ==> a@[m]@ == b@[m]@,
        decreases a@.len() - k,
    {
        if !(a[k] == b[k]) {
            proof {
                assert(names_model(a@)[k as int] != names_model(b@)[k as int]);
            }
            return false;
        }
        k = k + 1;
    }
    proof {
        assert(names_model(a@) =~= names_model(b@));
    }
    true
}

/// Whether two expressions have the same model: the structural equality
/// that `==` in the language and row comparison in `-` use.
pub fn exp_eq(a: &Exp, b: &Exp) -> (r: bool)
    ensures
        r == (a.model() == b.model()),
    decreases a, 0nat,
{
    match a {
        Exp::Let(x1, e1, b1) => match b {
            Exp::Let(x2, e2, b2) => {
                proof {
                    assert(a.model() == ExpModel::Let(x1@, Box::new((**e1).model()), Box::new((**b1).model())));
                    assert(b.model() == ExpModel::Let(x2@, Box::new((**e2).model()), Box::new((**b2).model())));
                }
                *x1 == *x2 && exp_eq(e1, e2) && exp_eq(b1, b2)
            },
            _ => {
                proof {
                    lemma_model_variant(a);
                    lemma_model_variant(b);
                }
                false
            },
        },
        Exp::Select(c1, s1) => match b {
            Exp::Select(c2, s2) => {
                proof {
                    assert(a.model() == ExpModel::Select(names_model(c1@), Box::new((**s1).model())));
                    assert(b.model() == ExpModel::Select(names_model(c2@), Box::new((**s2).model())));
                }
                names_eq(c1, c2) && exp_eq(s1, s2)
            },
            _ => {
                proof {
                    lemma_model_variant(a);
                    lemma_model_variant(b);
                }
                false
            },
        },
        Exp::Where(l1, r1) => match b {
            Exp::Where(l2, r2) => {
                proof {
                    assert(a.model() == ExpModel::Where(Box::new((**l1).model()), Box::new((**r1).model())));
                    assert(b.model() == ExpModel::Where(Box::new((**l2).model()), Box::new((**r2).model())));
                }
                exp_eq(l1, l2) && exp_eq(r1, r2)
            },
            _ => {
                proof {
                    lemma_model_variant(a);
                    lemma_model_variant(b);
                }
                false
            },
        },
        Exp::Union(l1, r1) => match b {
            Exp::Union(l2, r2) => {
                proof {
                    assert(a.model() == ExpModel::Union(Box::new((**l1).model()), Box::new((**r1).model())));
                    assert(b.model() == ExpModel::Union(Box::new((**l2).model()), Box::new((**r2).model())));
                }
                exp_eq(l1, l2) && exp_eq(r1, r2)
            },
            _ => {
                proof {
                    lemma_model_variant(a);
                    lemma_model_variant(b);
                }
                false
            },
        },
        Exp::Difference(l1, r1) => match b {
            Exp::Difference(l2, r2) => {
                proof {
                    assert(a.model() == ExpModel::Difference(Box::new((**l1).model()), Box::new((**r1).model())));
                    assert(b.model() == ExpModel::Difference(Box::new((**l2).model()), Box::new((**r2).model())));
                }
                exp_eq(l1, l2) && exp_eq(r1, r2)
            },
            _ => {
                proof {
                    lemma_model_variant(a);
                    lemma_model_variant(b);
                }
                false
            },
        },
        Exp::Product(l1, r1) => match b {
            Exp::Product(l2, r2) => {
                proof {
                    assert(a.model() == ExpModel::Product(Box::new((**l1).model()), Box::new((**r1).model())));
                    assert(b.model() == ExpModel::Product(Box::new((**l2).model()), Box::new((**r2).model())));
                }
                exp_eq(l1, l2) && exp_eq(r1, r2)
            },
            _ => {
                proof {
                    lemma_model_variant(a);
                    lemma_model_variant(b);
                }
                false
            },
        },
        Exp::Table(c1, k1) => match b {
            Exp::Table(c2, k2) => {
                proof {
                    assert(a.model() == ExpModel::Table(names_model(c1@), exps_model(k1@)));
                    assert(b.model() == ExpModel::Table(names_model(c2@), exps_model(k2@)));
                }
                names_eq(c1, c2) && exps_eq(k1, k2)
            },
            _ => {
                proof {
                    lemma_model_variant(a);
                    lemma_model_variant(b);
                }
                false
            },
        },
        Exp::Or(l1, r1) => match b {
            Exp::Or(l2, r2) => {
                proof {
                    assert(a.model() == ExpModel::Or(Box::new((**l1).model()), Box::new((**r1).model())));
                    assert(b.model() == ExpModel::Or(Box::new((**l2).model()), Box::new((**r2).model())));
                }
                exp_eq(l1, l2) && exp_eq(r1, r2)
            },
            _ => {
                proof {
                    lemma_model_variant(a);
                    lemma_model_variant(b);
                }
                false
            },
        },
        Exp::Equals(l1, r1) => match b {
            Exp::Equals(l2, r2) => {
                proof {
                    assert(a.model() == ExpModel::Equals(Box::new((**l1).model()), Box::new((**r1).model())));
                    assert(b.model() == ExpModel::Equals(Box::new((**l2).model()), Box::new((**r2).model())));
                }
                exp_eq(l1, l2) && exp_eq(r1, r2)
            },
            _ => {
                proof {
                    lemma_model_variant(a);
                    lemma_model_variant(b);
                }
                false
            },
        },
        Exp::And(l1, r1) => match b {
            Exp::And(l2, r2) => {
                proof {
                    assert(a.model() == ExpModel::And(Box::new((**l1).model()), Box::new((**r1).model())));
                    assert(b.model() == ExpModel::And(Box::new((**l2).model()), Box::new((**r2).model())));
                }
                exp_eq(l1, l2) && exp_eq(r1, r2)
            },
            _ => {
                proof {
                    lemma_model_variant(a);
                    lemma_model_variant(b);
                }
                false
            },
        },
        Exp::Not(i1) => match b {
            Exp::Not(i2) => {
                proof {
                    assert(a.model() == ExpModel::Not(Box::new((**i1).model())));
                    assert(b.model() == ExpModel::Not(Box::new((**i2).model())));
                }
                exp_eq(i1, i2)
            },
            _ => {
                proof {
                    lemma_model_variant(a);
                    lemma_model_variant(b);
                }
                false
            },
        },
        Exp::Bool(v1) => match b {
            Exp::Bool(v2) => {
                proof {
                    assert(a.model() == ExpModel::Bool(*v1));
                    assert(b.model() == ExpModel::Bool(*v2));
                }
                *v1 == *v2
            },
            _ => {
                proof {
                    lemma_model_variant(a);
                    lemma_model_variant(b);
                }
                false
            },
        },
        Exp::Int(v1) => match b {
            Exp::Int(v2) => {
                proof {
                    assert(a.model() == ExpModel::Int(*v1));
                    assert(b.model() == ExpModel::Int(*v2));
                }
                *v1 == *v2
            },
            _ => {
                proof {
                    lemma_model_variant(a);
                    lemma_model_variant(b);
                }
                false
            },
        },
        Exp::Str(s1) => match b {
            Exp::Str(s2) => {
                proof {
                    assert(a.model() == ExpModel::Str(s1@));
                    assert(b.model() == ExpModel::Str(s2@));
                }
                *s1 == *s2
            },
            _ => {
                proof {
                    lemma_model_variant(a);
                    lemma_model_variant(b);
                }
                false
            },
        },
        Exp::Var(v1) => match b {
            Exp::Var(v2) => {
                proof {
                    assert(a.model() == ExpModel::Var(v1@));
                    assert(b.model() == ExpModel::Var(v2@));
                }
                *v1 == *v2
            },
            _ => {
                proof {
                    lemma_model_variant(a);
                    lemma_model_variant(b);
                }
                false
            },
        },
    }
}

/// An expression's model has the same outermost shape as the expression.
pub proof fn lemma_model_variant(e: &Exp)
    ensures
        (e is Let <==> e.model() is Let),
        (e is Select <==> e.model() is Select),
        (e is Where <==> e.model() is Where),
        (e is Union <==> e.model() is Union),
        (e is Difference <==> e.model() is Difference),
        (e is Product <==> e.model() is Product),
        (e is Table <==> e.model() is Table),
        (e is Or <==> e.model() is Or),
        (e is Equals <==> e.model() is Equals),
        (e is And <==> e.model() is And),
        (e is Not <==> e.model() is Not),
        (e is Bool <==> e.model() is Bool),
        (e is Int <==> e.model() is Int),
        (e is Str <==> e.model() is Str),
        (e is Var <==> e.model() is Var),
{
    match e {
        Exp::Let(..) => {},
        Exp::Select(..) => {},
        Exp::Where(..) => {},
        Exp::Union(..) => {},
        Exp::Difference(..) => {},
        Exp::Product(..) => {},
        Exp::Table(..) => {},
        Exp::Or(..) => {},
        Exp::Equals(..) => {},
        Exp::And(..) => {},
        Exp::Not(..) => {},
        Exp::Bool(..) => {},
        Exp::Int(..) => {},
        Exp::Str(..) => {},
        Exp::Var(..) => {},
    }
}

/// Whether two cell lists have the same models, element by element.
pub fn exps_eq(a: &Vec<Exp>, b: &Vec<Exp>) -> (r: bool)
    ensures
        r == (exps_model(a@) == exps_model(b@)),
    decreases a@, 1nat,
{
    if a.len() != b.len() {
        proof {
            assert(exps_model(a@).len() != exps_model(b@).len());
        }
        return false;
    }
    let mut k: usize = 0;
    while k < a.len()
        invariant
            k <= a@.len(),
            a@.len() == b@.len(),
            forall|m: int| 0 <= m < k ==> a@[m].model() == b@[m].model(),
        decreases a@.len() - k,
    {
        if !exp_eq(&a[k], &b[k]) {
            proof {
                assert(exps_model(a@)[k as int] != exps_model(b@)[k as int]);
            }
            return false;
        }
        k = k + 1;
    }
    proof {
        assert(exps_model(a@) =~= exps_model(b@));
    }
    true
}

// ---------------------------------------------------------------------------
// Environments
// ---------------------------------------------------------------------------

/// The mapping that a list of bindings denotes: entries are folded in
/// order, so a later binding of a name replaces an earlier one.
pub open spec fn spec_entries_map(s: Seq<(String, Exp)>) -> Map<Seq<char>, ExpModel>
    decreases s.len(),
{
    if s.len() == 0 {
        Map::empty()
    } else {
        spec_entries_map(s.drop_last()).insert(s.last().0@, s.last().1.model())
    }
}


/// A name in the denoted mapping is the name of some binding.
pub proof fn lemma_entries_dom(s: Seq<(String, Exp)>, n: Seq<char>)
    requires
        spec_entries_map(s).dom().contains(n),
    ensures
        exists|i: int| 0 <= i < s.len() && #[trigger] s[i].0@ == n,
    decreases s.len(),
{
    if s.len() > 0 {
        if s.last().0@ == n {
            assert(s[s.len() - 1].0@ == n);
        } else {
            lemma_entries_dom(s.drop_last(), n);
            let i = choose|i: int|
                0 <= i < s.drop_last().len() && #[trigger] s.drop_last()[i].0@ == n;
            assert(s[i].0@ == n);
        }
    }
}

/// With pairwise distinct names, each binding holds its own name's value
/// in the denoted mapping.
pub proof fn lemma_entries_index(s: Seq<(String, Exp)>, i: int)
    requires
        0 <= i < s.len(),
        forall|a: int, b: int| 0 <= a < b < s.len() ==> s[a].0@ != s[b].0@,
    ensures
        spec_entries_map(s).dom().contains(s[i].0@),
        spec_entries_map(s)[s[i].0@] == s[i].1.model(),
    decreases s.len(),
{
    if i < s.len() - 1 {
        lemma_entries_index(s.drop_last(), i);
        assert(s.drop_last()[i] == s[i]);
        assert(s.last().0@ != s[i].0@);
    }
}

/// An environment: a mapping from identifiers to values, held as a list
/// of bindings with pairwise distinct names.
pub struct Env {
    pub pairs: Vec<(String, Exp)>,
}

impl View for Env {
    type V = Map<Seq<char>, ExpModel>;

    open spec fn view(&self) -> Map<Seq<char>, ExpModel> {
        spec_entries_map(self.pairs@)
    }
}

proof fn lemma_entries_absent(s: Seq<(String, Exp)>, n: Seq<char>)
    requires
        forall|i: int| 0 <= i < s.len() ==> s[i].0@ != n,
    ensures
        !spec_entries_map(s).dom().contains(n),
    decreases s.len(),
{
    if s.len() > 0 {
        lemma_entries_absent(s.drop_last(), n);
    }
}

proof fn lemma_entries_update(s: Seq<(String, Exp)>, k: int, p: (String, Exp))
    requires
        0 <= k < s.len(),
        s[k].0@ == p.0@,
        forall|i: int, j: int| 0 <= i < j < s.len() ==> s[i].0@ != s[j].0@,
    ensures
        spec_entries_map(s.update(k, p)) =~= spec_entries_map(s).insert(p.0@, p.1.model()),
    decreases s.len(),
{
    let t = s.update(k, p);
    if k == s.len() - 1 {
        assert(t.drop_last() =~= s.drop_last());
    } else {
        assert(t.drop_last() =~= s.drop_last().update(k, p));
        lemma_entries_update(s.drop_last(), k, p);
        assert(s.last().0@ != p.0@);
    }
}

impl Env {
    /// No two bindings share a name.
    pub open spec fn wf(&self) -> bool {
        forall|i: int, j: int|
            0 <= i < j < self.pairs@.len() ==> self.pairs@[i].0@ != self.pairs@[j].0@
    }

    /// The empty environment.
    pub fn new() -> (e: Env)
        ensures
            e@ == Map::<Seq<char>, ExpModel>::empty(),
            e.wf(),
    {
        Env { pairs: Vec::new() }
    }

    /// The value bound to `name`, if any.
    pub fn get(&self, name: &String) -> (r: Option<&Exp>)
        ensures
            match r {
                Option::Some(e) => self@.dom().contains(name@) && e.model() == self@[name@],
                Option::None => !self@.dom().contains(name@),
            },
    {
        proof {
            assert(self.pairs@.take(self.pairs@.len() as int) =~= self.pairs@);
        }
        self.get_from(name, self.pairs.len())
    }

    fn get_from(&self, name: &String, k: usize) -> (r: Option<&Exp>)
        requires
            k <= self.pairs@.len(),
        ensures
            match r {
                Option::Some(e) => spec_entries_map(self.pairs@.take(k as int)).dom().contains(
                    name@,
                ) && e.model() == spec_entries_map(self.pairs@.take(k as int))[name@],
                Option::None => !spec_entries_map(self.pairs@.take(k as int)).dom().contains(name@),
            },
        decreases k,
    {
        if k == 0 {
            Option::None
        } else {
            proof {
                assert(self.pairs@.take(k as int).drop_last() =~= self.pairs@.take(k - 1));
                assert(self.pairs@.take(k as int).last() == self.pairs@[k - 1]);
            }
            if self.pairs[k - 1].0 == *name {
                Option::Some(&self.pairs[k - 1].1)
            } else {
                self.get_from(name, k - 1)
            }
        }
    }

    /// Binds `name` to `v`, replacing any earlier binding of `name`.
    pub fn insert(&mut self, name: String, v: Exp)
        requires
            old(self).wf(),
        ensures
            final(self).wf(),
            final(self)@ == old(self)@.insert(name@, v.model()),
    {
        let ghost s0 = self.pairs@;
        let mut k: usize = 0;
        while k < self.pairs.len()
            invariant
                k <= self.pairs@.len(),
                self.pairs@ == s0,
                s0 == old(self).pairs@,
                forall|i: int| 0 <= i < k ==> s0[i].0@ != name@,
                forall|i: int, j: int| 0 <= i < j < s0.len() ==> s0[i].0@ != s0[j].0@,
            decreases self.pairs@.len() - k,
        {
            if self.pairs[k].0 == name {
                let ghost kk = k as int;
                self.pairs.remove(k);
                self.pairs.insert(k, (name, v));
                proof {
                    assert(self.pairs@ =~= s0.update(kk, self.pairs@[kk]));
                    lemma_entries_update(s0, kk, self.pairs@[kk]);
                    assert(forall|i: int, j: int|
                        0 <= i < j < self.pairs@.len() ==> self.pairs@[i].0@
                            != self.pairs@[j].0@);
                }
                return;
            }
            k = k + 1;
        }
        self.pairs.push((name, v));
        proof {
            lemma_entries_absent(s0, self.pairs@.last().0@);
            assert(self.pairs@.drop_last() =~= s0);
            assert(forall|i: int, j: int|
                0 <= i < j < self.pairs@.len() ==> self.pairs@[i].0@ != self.pairs@[j].0@);
        }
    }
}

impl Clone for Env {
    /// A copy with the same mapping; a well-formed environment stays so.
    fn clone(&self) -> (r: Self)
        ensures
            r@ == self@,
            self.wf() ==> r.wf(),
    {
        let mut out: Vec<(String, Exp)> = Vec::new();
        let mut k: usize = 0;
        while k < self.pairs.len()
            invariant
                k <= self.pairs@.len(),
                out@.len() == k,
                forall|m: int|
                    0 <= m < k ==> out@[m].0@ == self.pairs@[m].0@ && out@[m].1.model()
                        == self.pairs@[m].1.model(),
            decreases self.pairs@.len() - k,
        {
            let name = self.pairs[k].0.clone();
            let v = self.pairs[k].1.clone();
            out.push((name, v));
            k = k + 1;
        }
        proof {
            lemma_entries_congruent(out@, self.pairs@);
        }
        Env { pairs: out }
    }
}

proof fn lemma_entries_congruent(a: Seq<(String, Exp)>, b: Seq<(String, Exp)>)
    requires
        a.len() == b.len(),
        forall|m: int| 0 <= m < a.len() ==> a[m].0@ == b[m].0@ && a[m].1.model() == b[m].1.model(),
    ensures
        spec_entries_map(a) =~= spec_entries_map(b),
    decreases a.len(),
{
    if a.len() > 0 {
        lemma_entries_congruent(a.drop_last(), b.drop_last());
    }
}


// ---------------------------------------------------------------------------
// The meaning of evaluation
// ---------------------------------------------------------------------------

/// Why evaluation fails: a table operator applied to a non-table, a forced
/// operand of `?` or `not` that is not a boolean, a `+` or `-` of tables
/// with different column lists, or an unbound variable.
#[verifier::ext_equal]
pub enum EvalError {
    NotATable,
    NotABool,
    ColumnMismatch,
    Undefined(Seq<char>),
}

/// The end of the row that starts at `start`: `w` cells on, clipped to the
/// cell count `n`, so the last row of a ragged table may be short.
pub open spec fn spec_row_hi(start: int, w: int, n: int) -> int {
    if start + w <= n {
        start + w
    } else {
        n
    }
}

/// The position of the last column named `name` among the first `k`
/// columns, if any: a later column shadows an earlier one of the same
/// name.
pub open spec fn spec_col_index_before(cols: Seq<Seq<char>>, name: Seq<char>, k: int) -> Option<
    int,
>
    decreases k,
{
    if k <= 0 {
        Option::None
    } else if cols[k - 1] == name {
        Option::Some(k - 1)
    } else {
        spec_col_index_before(cols, name, k - 1)
    }
}

pub open spec fn spec_col_index(cols: Seq<Seq<char>>, name: Seq<char>) -> Option<int> {
    spec_col_index_before(cols, name, cols.len() as int)
}

/// The source positions of the requested columns `cols[k..]` within
/// `tcols`; a requested name absent from `tcols` is dropped.
pub open spec fn spec_keep(cols: Seq<Seq<char>>, tcols: Seq<Seq<char>>, k: int) -> Seq<int>
    decreases cols.len() - k,
{
    if k < 0 || k >= cols.len() {
        Seq::empty()
    } else {
        match spec_col_index(tcols, cols[k]) {
            Option::Some(i) => seq![i] + spec_keep(cols, tcols, k + 1),
            Option::None => spec_keep(cols, tcols, k + 1),
        }
    }
}

/// The cells picked from one row by the positions `keep[k..]`: a position
/// past the end of a short row yields nothing.
pub open spec fn spec_pick(
    cells: Seq<ExpModel>,
    start: int,
    hi: int,
    keep: Seq<int>,
    k: int,
) -> Seq<ExpModel>
    decreases keep.len() - k,
{
    if k < 0 || k >= keep.len() {
        Seq::empty()
    } else {
        let rest = spec_pick(cells, start, hi, keep, k + 1);
        if start + keep[k] < hi {
            seq![cells[start + keep[k]]] + rest
        } else {
            rest
        }
    }
}

/// The cells of a projection: each row of width `w` from `start` on
/// contributes its picked cells in row order.
pub open spec fn spec_select_cells(
    cells: Seq<ExpModel>,
    start: int,
    w: int,
    keep: Seq<int>,
) -> Seq<ExpModel>
    decreases cells.len() - start,
{
    if start < 0 || start >= cells.len() || w < 1 {
        Seq::empty()
    } else {
        let hi = spec_row_hi(start, w, cells.len() as int);
        spec_pick(cells, start, hi, keep, 0) + spec_select_cells(cells, hi, w, keep)
    }
}

/// The environment a row filter sees: each column name bound to the cell
/// below it, and nothing else; a repeated name takes its rightmost cell.
pub open spec fn spec_row_env(
    vars: Seq<Seq<char>>,
    cells: Seq<ExpModel>,
    start: int,
    k: int,
) -> Map<Seq<char>, ExpModel>
    decreases k,
{
    if k <= 0 {
        Map::empty()
    } else {
        spec_row_env(vars, cells, start, k - 1).insert(vars[k - 1], cells[start + k - 1])
    }
}

/// Whether some row of width `w` from `start` on equals `row`.
pub open spec fn spec_rows_contain(cells: Seq<ExpModel>, start: int, w: int, row: Seq<ExpModel>) -> bool
    decreases cells.len() - start,
{
    if start < 0 || start >= cells.len() || w < 1 {
        false
    } else {
        let hi = spec_row_hi(start, w, cells.len() as int);
        cells.subrange(start, hi) == row || spec_rows_contain(cells, hi, w, row)
    }
}

/// The cells of a difference: every left row that equals no right row, in
/// order.
pub open spec fn spec_diff_cells(
    lcells: Seq<ExpModel>,
    start: int,
    w: int,
    rcells: Seq<ExpModel>,
) -> Seq<ExpModel>
    decreases lcells.len() - start,
{
    if start < 0 || start >= lcells.len() || w < 1 {
        Seq::empty()
    } else {
        let hi = spec_row_hi(start, w, lcells.len() as int);
        let row = lcells.subrange(start, hi);
        let rest = spec_diff_cells(lcells, hi, w, rcells);
        if spec_rows_contain(rcells, 0, w, row) {
            rest
        } else {
            row + rest
        }
    }
}

/// One left row paired with every right row of width `wr` from `start`
/// on.
pub open spec fn spec_prod_with(
    lrow: Seq<ExpModel>,
    rcells: Seq<ExpModel>,
    start: int,
    wr: int,
) -> Seq<ExpModel>
    decreases rcells.len() - start,
{
    if start < 0 || start >= rcells.len() || wr < 1 {
        Seq::empty()
    } else {
        let hi = spec_row_hi(start, wr, rcells.len() as int);
        lrow + rcells.subrange(start, hi) + spec_prod_with(lrow, rcells, hi, wr)
    }
}

/// The cells of a product: left rows outer, right rows inner.
pub open spec fn spec_prod_cells(
    lcells: Seq<ExpModel>,
    start: int,
    wl: int,
    rcells: Seq<ExpModel>,
    wr: int,
) -> Seq<ExpModel>
    decreases lcells.len() - start,
{
    if start < 0 || start >= lcells.len() || wl < 1 {
        Seq::empty()
    } else {
        let hi = spec_row_hi(start, wl, lcells.len() as int);
        spec_prod_with(lcells.subrange(start, hi), rcells, 0, wr) + spec_prod_cells(
            lcells,
            hi,
            wl,
            rcells,
            wr,
        )
    }
}

/// The width used to chunk a table's cells into rows: the column count,
/// or 1 for a table without columns.
pub open spec fn spec_width(ncols: int) -> int {
    if ncols == 0 {
        1
    } else {
        ncols
    }
}

/// What evaluation returns: call-by-value, recursive, and pure. Every
/// arm that succeeds hands back the environment it was given, except
/// `Let`, which evaluates its body under the extended environment and
/// hands that environment back for the persistence layer to inspect.
pub open spec fn spec_eval(e: ExpModel, env: Map<Seq<char>, ExpModel>) -> Result<
    (ExpModel, Map<Seq<char>, ExpModel>),
    EvalError,
>
    decreases e, 0nat,
{
    match e {
        ExpModel::Let(x, e1, body) => match spec_eval(*e1, env) {
            Result::Err(er) => Result::Err(er),
            Result::Ok(p) => spec_eval(*body, env.insert(x, p.0)),
        },
        ExpModel::Select(cols, src) => match spec_eval(*src, env) {
            Result::Err(er) => Result::Err(er),
            Result::Ok(p) => match p.0 {
                ExpModel::Table(tcols, cells) => Result::Ok(
                    (
                        ExpModel::Table(
                            cols,
                            spec_select_cells(
                                cells,
                                0,
                                spec_width(tcols.len() as int),
                                spec_keep(cols, tcols, 0),
                            ),
                        ),
                        env,
                    ),
                ),
                _ => Result::Err(EvalError::NotATable),
            },
        },
        ExpModel::Where(src, cond) => match spec_eval(*src, env) {
            Result::Err(er) => Result::Err(er),
            Result::Ok(p) => match p.0 {
                ExpModel::Table(vars, cells) => match spec_where_rows(
                    cells,
                    0,
                    spec_width(vars.len() as int),
                    vars,
                    *cond,
                ) {
                    Result::Err(er) => Result::Err(er),
                    Result::Ok(kept) => Result::Ok((ExpModel::Table(vars, kept), env)),
                },
                _ => Result::Err(EvalError::NotATable),
            },
        },
        ExpModel::Union(l, r) => match spec_eval(*l, env) {
            Result::Err(er) => Result::Err(er),
            Result::Ok(p) => match p.0 {
                ExpModel::Table(lvars, lcells) => match spec_eval(*r, env) {
                    Result::Err(er) => Result::Err(er),
                    Result::Ok(q) => match q.0 {
                        ExpModel::Table(rvars, rcells) => if lvars == rvars {
                            Result::Ok((ExpModel::Table(lvars, lcells + rcells), env))
                        } else {
                            Result::Err(EvalError::ColumnMismatch)
                        },
                        _ => Result::Err(EvalError::NotATable),
                    },
                },
                _ => Result::Err(EvalError::NotATable),
            },
        },
        ExpModel::Difference(l, r) => match spec_eval(*l, env) {
            Result::Err(er) => Result::Err(er),
            Result::Ok(p) => match p.0 {
                ExpModel::Table(lvars, lcells) => match spec_eval(*r, env) {
                    Result::Err(er) => Result::Err(er),
                    Result::Ok(q) => match q.0 {
                        ExpModel::Table(rvars, rcells) => if lvars == rvars {
                            Result::Ok(
                                (
                                    ExpModel::Table(
                                        lvars,
                                        spec_diff_cells(
                                            lcells,
                                            0,
                                            spec_width(lvars.len() as int),
                                            rcells,
                                        ),
                                    ),
                                    env,
                                ),
                            )
                        } else {
                            Result::Err(EvalError::ColumnMismatch)
                        },
                        _ => Result::Err(EvalError::NotATable),
                    },
                },
                _ => Result::Err(EvalError::NotATable),
            },
        },
        ExpModel::Product(l, r) => match spec_eval(*l, env) {
            Result::Err(er) => Result::Err(er),
            Result::Ok(p) => match p.0 {
                ExpModel::Table(lvars, lcells) => match spec_eval(*r, env) {
                    Result::Err(er) => Result::Err(er),
                    Result::Ok(q) => match q.0 {
                        ExpModel::Table(rvars, rcells) => Result::Ok(
                            (
                                ExpModel::Table(
                                    lvars + rvars,
                                    spec_prod_cells(
                                        lcells,
                                        0,
                                        spec_width(lvars.len() as int),
                                        rcells,
                                        spec_width(rvars.len() as int),
                                    ),
                                ),
                                env,
                            ),
                        ),
                        _ => Result::Err(EvalError::NotATable),
                    },
                },
                _ => Result::Err(EvalError::NotATable),
            },
        },
        ExpModel::Table(cols, cells) => match spec_eval_cells(cells, env, 0) {
            Result::Err(er) => Result::Err(er),
            Result::Ok(vs) => Result::Ok((ExpModel::Table(cols, vs), env)),
        },
        ExpModel::Or(l, r) => match spec_eval(*l, env) {
            Result::Err(er) => Result::Err(er),
            Result::Ok(p) => if p.0 == ExpModel::Bool(true) {
                Result::Ok((ExpModel::Bool(true), env))
            } else {
                match spec_eval(*r, env) {
                    Result::Err(er) => Result::Err(er),
                    Result::Ok(q) => if q.0 == ExpModel::Bool(true) {
                        Result::Ok((ExpModel::Bool(true), env))
                    } else {
                        Result::Ok((ExpModel::Bool(false), env))
                    },
                }
            },
        },
        ExpModel::Equals(l, r) => match spec_eval(*l, env) {
            Result::Err(er) => Result::Err(er),
            Result::Ok(p) => match spec_eval(*r, env) {
                Result::Err(er) => Result::Err(er),
                Result::Ok(q) => Result::Ok((ExpModel::Bool(p.0 == q.0), env)),
            },
        },
        ExpModel::And(l, r) => match spec_eval(*l, env) {
            Result::Err(er) => Result::Err(er),
            Result::Ok(p) => if p.0 == ExpModel::Bool(false) {
                Result::Ok((ExpModel::Bool(false), env))
            } else {
                match spec_eval(*r, env) {
                    Result::Err(er) => Result::Err(er),
                    Result::Ok(q) => if q.0 == ExpModel::Bool(false) {
                        Result::Ok((ExpModel::Bool(false), env))
                    } else {
                        Result::Ok((ExpModel::Bool(true), env))
                    },
                }
            },
        },
        ExpModel::Not(i) => match spec_eval(*i, env) {
            Result::Err(er) => Result::Err(er),
            Result::Ok(p) => match p.0 {
                ExpModel::Bool(b) => Result::Ok((ExpModel::Bool(!b), env)),
                _ => Result::Err(EvalError::NotABool),
            },
        },
        ExpModel::Bool(v) => Result::Ok((ExpModel::Bool(v), env)),
        ExpModel::Int(v) => Result::Ok((ExpModel::Int(v), env)),
        ExpModel::Str(s) => Result::Ok((ExpModel::Str(s), env)),
        ExpModel::Var(x) => if env.dom().contains(x) {
            Result::Ok((env[x], env))
        } else {
            Result::Err(EvalError::Undefined(x))
        },
    }
}

/// The rows kept by a filter: each row in turn, under its row
/// environment; a row whose condition is neither `true` nor `false` is an
/// error.
pub open spec fn spec_where_rows(
    cells: Seq<ExpModel>,
    start: int,
    w: int,
    vars: Seq<Seq<char>>,
    cond: ExpModel,
) -> Result<Seq<ExpModel>, EvalError>
    decreases cond, 1nat, cells.len() - start,
{
    if start < 0 || start >= cells.len() || w < 1 {
        Result::Ok(Seq::empty())
    } else {
        let hi = spec_row_hi(start, w, cells.len() as int);
        let k0 = if vars.len() as int <= hi - start {
            vars.len() as int
        } else {
            hi - start
        };
        match spec_eval(cond, spec_row_env(vars, cells, start, k0)) {
            Result::Err(er) => Result::Err(er),
            Result::Ok(p) => if p.0 == ExpModel::Bool(true) {
                match spec_where_rows(cells, hi, w, vars, cond) {
                    Result::Err(er) => Result::Err(er),
                    Result::Ok(rest) => Result::Ok(cells.subrange(start, hi) + rest),
                }
            } else if p.0 == ExpModel::Bool(false) {
                spec_where_rows(cells, hi, w, vars, cond)
            } else {
                Result::Err(EvalError::NotABool)
            },
        }
    }
}

/// The values of a literal table's cells, each evaluated in the current
/// environment; the first failure is the result.
pub open spec fn spec_eval_cells(
    cells: Seq<ExpModel>,
    env: Map<Seq<char>, ExpModel>,
    k: int,
) -> Result<Seq<ExpModel>, EvalError>
    decreases cells, 1nat, cells.len() - k,
{
    if k < 0 || k >= cells.len() {
        Result::Ok(Seq::empty())
    } else {
        match spec_eval(cells[k], env) {
            Result::Err(er) => Result::Err(er),
            Result::Ok(p) => match spec_eval_cells(cells, env, k + 1) {
                Result::Err(er) => Result::Err(er),
                Result::Ok(rest) => Result::Ok(seq![p.0] + rest),
            },
        }
    }
}


// ---------------------------------------------------------------------------
// The executable evaluator
// ---------------------------------------------------------------------------

/// The mathematical values of a list of positions.
pub open spec fn idxs_model(v: Seq<usize>) -> Seq<int> {
    v.map(|i: int, x: usize| x as int)
}

/// Whether a value is the boolean `true`.
fn is_true(v: &Exp) -> (r: bool)
    ensures
        r == (v.model() == ExpModel::Bool(true)),
{
    match v {
        Exp::Bool(b) => {
            proof {
                assert(v.model() == ExpModel::Bool(*b));
            }
            *b
        },
        _ => {
            proof {
                lemma_model_variant(v);
            }
            false
        },
    }
}

/// Whether a value is the boolean `false`.
fn is_false(v: &Exp) -> (r: bool)
    ensures
        r == (v.model() == ExpModel::Bool(false)),
{
    match v {
        Exp::Bool(b) => {
            proof {
                assert(v.model() == ExpModel::Bool(*b));
            }
            !*b
        },
        _ => {
            proof {
                lemma_model_variant(v);
            }
            false
        },
    }
}

/// The columns and cells of a table value, or nothing for any other
/// value.
fn table_parts(v: Exp) -> (r: Option<(Vec<String>, Vec<Exp>)>)
    ensures
        match r {
            Option::Some(p) => v.model() == ExpModel::Table(names_model(p.0@), exps_model(p.1@)),
            Option::None => !(v.model() is Table),
        },
{
    match v {
        Exp::Table(cols, cells) => {
            let ghost cm = names_model(cols@);
            let ghost km = exps_model(cells@);
            proof {
                assert(v.model() == ExpModel::Table(cm, km));
            }
            Option::Some((cols, cells))
        },
        other => {
            proof {
                lemma_model_variant(&other);
            }
            Option::None
        },
    }
}

/// A copy of the cells `v[from..to]` with the same models.
fn clone_range(v: &Vec<Exp>, from: usize, to: usize) -> (r: Vec<Exp>)
    requires
        from <= to <= v@.len(),
    ensures
        exps_model(r@) == exps_model(v@).subrange(from as int, to as int),
{
    let mut out: Vec<Exp> = Vec::new();
    let mut k: usize = from;
    while k < to
        invariant
            from <= k <= to <= v@.len(),
            out@.len() == k - from,
            forall|m: int| 0 <= m < k - from ==> out@[m].model() == v@[from + m].model(),
        decreases to - k,
    {
        out.push(v[k].clone());
        k = k + 1;
    }
    proof {
        assert(exps_model(out@) =~= exps_model(v@).subrange(from as int, to as int));
    }
    out
}

fn col_index_before(tcols: &Vec<String>, name: &String, k: usize) -> (r: Option<usize>)
    requires
        k <= tcols@.len(),
    ensures
        match r {
            Option::Some(i) => spec_col_index_before(names_model(tcols@), name@, k as int)
                == Option::Some(i as int),
            Option::None => spec_col_index_before(names_model(tcols@), name@, k as int) is None,
        },
    decreases k,
{
    if k == 0 {
        Option::None
    } else {
        if tcols[k - 1] == *name {
            Option::Some(k - 1)
        } else {
            col_index_before(tcols, name, k - 1)
        }
    }
}

fn keep_indices(cols: &Vec<String>, tcols: &Vec<String>, k: usize) -> (r: Vec<usize>)
    requires
        k <= cols@.len(),
    ensures
        idxs_model(r@) == spec_keep(names_model(cols@), names_model(tcols@), k as int),
    decreases cols@.len() - k,
{
    if k >= cols.len() {
        let out: Vec<usize> = Vec::new();
        proof {
            assert(idxs_model(out@) =~= Seq::<int>::empty());
        }
        out
    } else {
        match col_index_before(tcols, &cols[k], tcols.len()) {
            Option::Some(i) => {
                let mut rest = keep_indices(cols, tcols, k + 1);
                let ghost r0 = rest@;
                rest.insert(0, i);
                proof {
                    assert(idxs_model(rest@) =~= seq![i as int] + idxs_model(r0));
                }
                rest
            },
            Option::None => keep_indices(cols, tcols, k + 1),
        }
    }
}

fn pick_row(cells: &Vec<Exp>, start: usize, hi: usize, keep: &Vec<usize>, k: usize) -> (r: Vec<
    Exp,
>)
    requires
        start <= hi <= cells@.len(),
        k <= keep@.len(),
    ensures
        exps_model(r@) == spec_pick(
            exps_model(cells@),
            start as int,
            hi as int,
            idxs_model(keep@),
            k as int,
        ),
    decreases keep@.len() - k,
{
    if k >= keep.len() {
        let out: Vec<Exp> = Vec::new();
        proof {
            assert(exps_model(out@) =~= Seq::<ExpModel>::empty());
        }
        out
    } else {
        let rest0 = pick_row(cells, start, hi, keep, k + 1);
        if keep[k] < hi - start {
            let idx = start + keep[k];
            let mut rest = rest0;
            let ghost r0 = rest@;
            rest.insert(0, cells[idx].clone());
            proof {
                assert(exps_model(rest@) =~= seq![exps_model(cells@)[idx as int]] + exps_model(
                    r0,
                ));
            }
            rest
        } else {
            rest0
        }
    }
}

fn select_cells(cells: &Vec<Exp>, start: usize, w: usize, keep: &Vec<usize>) -> (r: Vec<Exp>)
    requires
        w >= 1,
    ensures
        exps_model(r@) == spec_select_cells(
            exps_model(cells@),
            start as int,
            w as int,
            idxs_model(keep@),
        ),
    decreases cells@.len() - start,
{
    if start >= cells.len() {
        let out: Vec<Exp> = Vec::new();
        proof {
            assert(exps_model(out@) =~= Seq::<ExpModel>::empty());
        }
        out
    } else {
        let hi = if w <= cells.len() - start {
            start + w
        } else {
            cells.len()
        };
        let mut row = pick_row(cells, start, hi, keep, 0);
        let ghost rowm = exps_model(row@);
        let mut rest = select_cells(cells, hi, w, keep);
        let ghost restm = exps_model(rest@);
        row.append(&mut rest);
        proof {
            assert(exps_model(row@) =~= rowm + restm);
        }
        row
    }
}

fn rows_eq(a: &Vec<Exp>, lo: usize, hi: usize, b: &Vec<Exp>, blo: usize, bhi: usize) -> (r: bool)
    requires
        lo <= hi <= a@.len(),
        blo <= bhi <= b@.len(),
    ensures
        r == (exps_model(a@).subrange(lo as int, hi as int) == exps_model(b@).subrange(
            blo as int,
            bhi as int,
        )),
{
    if hi - lo != bhi - blo {
        proof {
            assert(exps_model(a@).subrange(lo as int, hi as int).len() != exps_model(
                b@,
            ).subrange(blo as int, bhi as int).len());
        }
        return false;
    }
    let n = hi - lo;
    let mut k: usize = 0;
    while k < n
        invariant
            k <= n,
            n == hi - lo,
            n == bhi - blo,
            lo <= hi <= a@.len(),
            blo <= bhi <= b@.len(),
            forall|m: int| 0 <= m < k ==> #[trigger] a@[lo + m].model() == b@[blo + m].model(),
        decreases n - k,
    {
        if !exp_eq(&a[lo + k], &b[blo + k]) {
            proof {
                assert(exps_model(a@).subrange(lo as int, hi as int)[k as int] != exps_model(
                    b@,
                ).subrange(blo as int, bhi as int)[k as int]);
            }
            return false;
        }
        k = k + 1;
    }
    proof {
        assert forall|m: int| 0 <= m < n implies exps_model(a@).subrange(lo as int, hi as int)[m]
            == exps_model(b@).subrange(blo as int, bhi as int)[m] by {
            assert(a@[lo + m].model() == b@[blo + m].model());
        }
        assert(exps_model(a@).subrange(lo as int, hi as int) =~= exps_model(b@).subrange(
            blo as int,
            bhi as int,
        ));
    }
    true
}

fn rows_contain(rcells: &Vec<Exp>, start: usize, w: usize, lcells: &Vec<Exp>, lo: usize, hi: usize) -> (r:
    bool)
    requires
        w >= 1,
        lo <= hi <= lcells@.len(),
    ensures
        r == spec_rows_contain(
            exps_model(rcells@),
            start as int,
            w as int,
            exps_model(lcells@).subrange(lo as int, hi as int),
        ),
    decreases rcells@.len() - start,
{
    if start >= rcells.len() {
        false
    } else {
        let rhi = if w <= rcells.len() - start {
            start + w
        } else {
            rcells.len()
        };
        if rows_eq(rcells, start, rhi, lcells, lo, hi) {
            true
        } else {
            rows_contain(rcells, rhi, w, lcells, lo, hi)
        }
    }
}

fn diff_cells(lcells: &Vec<Exp>, start: usize, w: usize, rcells: &Vec<Exp>) -> (r: Vec<Exp>)
    requires
        w >= 1,
    ensures
        exps_model(r@) == spec_diff_cells(
            exps_model(lcells@),
            start as int,
            w as int,
            exps_model(rcells@),
        ),
    decreases lcells@.len() - start,
{
    if start >= lcells.len() {
        let out: Vec<Exp> = Vec::new();
        proof {
            assert(exps_model(out@) =~= Seq::<ExpModel>::empty());
        }
        out
    } else {
        let hi = if w <= lcells.len() - start {
            start + w
        } else {
            lcells.len()
        };
        let rest = diff_cells(lcells, hi, w, rcells);
        if rows_contain(rcells, 0, w, lcells, start, hi) {
            rest
        } else {
            let mut row = clone_range(lcells, start, hi);
            let ghost rowm = exps_model(row@);
            let ghost restm = exps_model(rest@);
            let mut rr = rest;
            row.append(&mut rr);
            proof {
                assert(exps_model(row@) =~= rowm + restm);
            }
            row
        }
    }
}

fn prod_with(lcells: &Vec<Exp>, llo: usize, lhi: usize, rcells: &Vec<Exp>, start: usize, wr: usize) -> (r:
    Vec<Exp>)
    requires
        wr >= 1,
        llo <= lhi <= lcells@.len(),
    ensures
        exps_model(r@) == spec_prod_with(
            exps_model(lcells@).subrange(llo as int, lhi as int),
            exps_model(rcells@),
            start as int,
            wr as int,
        ),
    decreases rcells@.len() - start,
{
    if start >= rcells.len() {
        let out: Vec<Exp> = Vec::new();
        proof {
            assert(exps_model(out@) =~= Seq::<ExpModel>::empty());
        }
        out
    } else {
        let rhi = if wr <= rcells.len() - start {
            start + wr
        } else {
            rcells.len()
        };
        let mut row = clone_range(lcells, llo, lhi);
        let ghost lm = exps_model(row@);
        let mut rrow = clone_range(rcells, start, rhi);
        let ghost rm = exps_model(rrow@);
        row.append(&mut rrow);
        let mut rest = prod_with(lcells, llo, lhi, rcells, rhi, wr);
        let ghost restm = exps_model(rest@);
        row.append(&mut rest);
        proof {
            assert(exps_model(row@) =~= lm + rm + restm);
        }
        row
    }
}

fn prod_cells(lcells: &Vec<Exp>, start: usize, wl: usize, rcells: &Vec<Exp>, wr: usize) -> (r: Vec<
    Exp,
>)
    requires
        wl >= 1,
        wr >= 1,
    ensures
        exps_model(r@) == spec_prod_cells(
            exps_model(lcells@),
            start as int,
            wl as int,
            exps_model(rcells@),
            wr as int,
        ),
    decreases lcells@.len() - start,
{
    if start >= lcells.len() {
        let out: Vec<Exp> = Vec::new();
        proof {
            assert(exps_model(out@) =~= Seq::<ExpModel>::empty());
        }
        out
    } else {
        let hi = if wl <= lcells.len() - start {
            start + wl
        } else {
            lcells.len()
        };
        let mut part = prod_with(lcells, start, hi, rcells, 0, wr);
        let ghost pm = exps_model(part@);
        let mut rest = prod_cells(lcells, hi, wl, rcells, wr);
        let ghost restm = exps_model(rest@);
        part.append(&mut rest);
        proof {
            assert(exps_model(part@) =~= pm + restm);
        }
        part
    }
}

fn where_rows(cells: &Vec<Exp>, start: usize, w: usize, vars: &Vec<String>, cond: &Exp) -> (r:
    Result<Vec<Exp>, String>)
    requires
        w >= 1,
    ensures
        ({
            let m = spec_where_rows(
                exps_model(cells@),
                start as int,
                w as int,
                names_model(vars@),
                cond.model(),
            );
            match (r, m) {
                (Result::Ok(v), Result::Ok(s)) => exps_model(v@) == s,
                (Result::Err(_), Result::Err(_)) => true,
                _ => false,
            }
        }),
    decreases cond, 1nat, cells@.len() - start,
{
    if start >= cells.len() {
        let out: Vec<Exp> = Vec::new();
        proof {
            assert(exps_model(out@) =~= Seq::<ExpModel>::empty());
        }
        Result::Ok(out)
    } else {
        let hi = if w <= cells.len() - start {
            start + w
        } else {
            cells.len()
        };
        let k0 = if vars.len() <= hi - start {
            vars.len()
        } else {
            hi - start
        };
        let mut renv = Env::new();
        let mut j: usize = 0;
        while j < k0
            invariant
                j <= k0,
                k0 <= vars@.len(),
                start + k0 <= cells@.len(),
                cells@.len() <= usize::MAX,
                renv.wf(),
                renv@ == spec_row_env(
                    names_model(vars@),
                    exps_model(cells@),
                    start as int,
                    j as int,
                ),
            decreases k0 - j,
    {
            proof {
                assert((start as int) + (j as int) < (cells@.len() as int));
            }
            renv.insert(vars[j].clone(), cells[start + j].clone());
            j = j + 1;
        }
        match eval(cond, &renv) {
            Result::Err(e) => Result::Err(e),
            Result::Ok(p) => {
                let v0 = p.0;
                if is_true(&v0) {
                    match where_rows(cells, hi, w, vars, cond) {
                        Result::Err(e) => Result::Err(e),
                        Result::Ok(rest) => {
                            let mut row = clone_range(cells, start, hi);
                            let ghost rowm = exps_model(row@);
                            let ghost restm = exps_model(rest@);
                            let mut rr = rest;
                            row.append(&mut rr);
                            proof {
                                assert(exps_model(row@) =~= rowm + restm);
                            }
                            Result::Ok(row)
                        },
                    }
                } else if is_false(&v0) {
                    where_rows(cells, hi, w, vars, cond)
                } else {
                    Result::Err(String::from_str("expected boolean in where clause"))
                }
            },
        }
    }
}

fn eval_cells(cells: &Vec<Exp>, env: &Env, k: usize) -> (r: Result<Vec<Exp>, String>)
    requires
        env.wf(),
        k <= cells@.len(),
    ensures
        ({
            let m = spec_eval_cells(exps_model(cells@), env@, k as int);
            match (r, m) {
                (Result::Ok(v), Result::Ok(s)) => exps_model(v@) == s,
                (Result::Err(_), Result::Err(_)) => true,
                _ => false,
            }
        }),
    decreases cells@, 1nat, cells@.len() - k,
{
    if k >= cells.len() {
        let out: Vec<Exp> = Vec::new();
        proof {
            assert(exps_model(out@) =~= Seq::<ExpModel>::empty());
        }
        Result::Ok(out)
    } else {
        match eval(&cells[k], env) {
            Result::Err(e) => Result::Err(e),
            Result::Ok(p) => match eval_cells(cells, env, k + 1) {
                Result::Err(e) => Result::Err(e),
                Result::Ok(mut rest) => {
                    let ghost r0 = rest@;
                    let ghost vm = p.0.model();
                    rest.insert(0, p.0);
                    proof {
                        assert(exps_model(rest@) =~= seq![vm] + exps_model(r0));
                    }
                    Result::Ok(rest)
                },
            },
        }
    }
}

/// Evaluates an expression under an environment. On success the result is
/// the value and the environment that the persistence layer inspects:
/// the given bindings, extended by the `Let` chain that encloses the
/// final body. Fails exactly when the meaning of evaluation fails: on a
/// non-table under a table operator, a forced non-boolean, a column
/// mismatch in `+` or `-`, or an unbound variable.
#[verifier::rlimit(100)]
pub fn eval(exp: &Exp, env: &Env) -> (r: Result<(Exp, Env), String>)
    requires
        env.wf(),
    ensures
        ({
            let m = spec_eval(exp.model(), env@);
            match (r, m) {
                (Result::Ok(p), Result::Ok(q)) => p.0.model() == q.0 && p.1@ == q.1 && p.1.wf(),
                (Result::Err(_), Result::Err(_)) => true,
                _ => false,
            }
        }),
    decreases exp, 0nat,
{
    let ghost em = exp.model();
    match exp {
        Exp::Let(x, e1, body) => {
            proof {
                assert(em == ExpModel::Let(
                    x@,
                    Box::new((**e1).model()),
                    Box::new((**body).model()),
                ));
            }
            match eval(e1, env) {
                Result::Err(e) => Result::Err(e),
                Result::Ok(p) => {
                    let mut env2 = env.clone();
                    env2.insert(x.clone(), p.0);
                    eval(body, &env2)
                },
            }
        },
        Exp::Select(cols, src) => {
            proof {
                assert(em == ExpModel::Select(names_model(cols@), Box::new((**src).model())));
            }
            match eval(src, env) {
                Result::Err(e) => Result::Err(e),
                Result::Ok(p) => match table_parts(p.0) {
                    Option::Some(t) => {
                        let (tcols, cells) = t;
                        let w = if tcols.len() == 0 {
                            1
                        } else {
                            tcols.len()
                        };
                        let keep = keep_indices(cols, &tcols, 0);
                        let out = select_cells(&cells, 0, w, &keep);
                        Result::Ok((Exp::Table(clone_names(cols), out), env.clone()))
                    },
                    Option::None => Result::Err(String::from_str("expected table")),
                },
            }
        },
        Exp::Where(src, cond) => {
            proof {
                assert(em == ExpModel::Where(
                    Box::new((**src).model()),
                    Box::new((**cond).model()),
                ));
            }
            match eval(src, env) {
                Result::Err(e) => Result::Err(e),
                Result::Ok(p) => match table_parts(p.0) {
                    Option::Some(t) => {
                        let (vars, cells) = t;
                        let w = if vars.len() == 0 {
                            1
                        } else {
                            vars.len()
                        };
                        match where_rows(&cells, 0, w, &vars, cond) {
                            Result::Err(e) => Result::Err(e),
                            Result::Ok(kept) => Result::Ok(
                                (Exp::Table(vars, kept), env.clone()),
                            ),
                        }
                    },
                    Option::None => Result::Err(String::from_str("expected table")),
                },
            }
        },
        Exp::Union(l, r2) => {
            proof {
                assert(em == ExpModel::Union(Box::new((**l).model()), Box::new((**r2).model())));
            }
            match eval(l, env) {
                Result::Err(e) => Result::Err(e),
                Result::Ok(p) => match table_parts(p.0) {
                    Option::Some(t) => {
                        let (lvars, lcells) = t;
                        match eval(r2, env) {
                            Result::Err(e) => Result::Err(e),
                            Result::Ok(q) => match table_parts(q.0) {
                                Option::Some(u) => {
                                    let (rvars, rcells) = u;
                                    if names_eq(&lvars, &rvars) {
                                        let mut out = lcells;
                                        let ghost lcm = exps_model(out@);
                                        let ghost rcm = exps_model(rcells@);
                                        let mut rc = rcells;
                                        out.append(&mut rc);
                                        proof {
                                            assert(exps_model(out@) =~= lcm + rcm);
                                        }
                                        Result::Ok((Exp::Table(lvars, out), env.clone()))
                                    } else {
                                        Result::Err(
                                            String::from_str(
                                                "expected tables with matching columns in union",
                                            ),
                                        )
                                    }
                                },
                                Option::None => Result::Err(String::from_str("expected table")),
                            },
                        }
                    },
                    Option::None => Result::Err(String::from_str("expected table")),
                },
            }
        },
        Exp::Difference(l, r2) => {
            proof {
                assert(em == ExpModel::Difference(
                    Box::new((**l).model()),
                    Box::new((**r2).model()),
                ));
            }
            match eval(l, env) {
                Result::Err(e) => Result::Err(e),
                Result::Ok(p) => match table_parts(p.0) {
                    Option::Some(t) => {
                        let (lvars, lcells) = t;
                        match eval(r2, env) {
                            Result::Err(e) => Result::Err(e),
                            Result::Ok(q) => match table_parts(q.0) {
                                Option::Some(u) => {
                                    let (rvars, rcells) = u;
                                    if names_eq(&lvars, &rvars) {
                                        let w = if lvars.len() == 0 {
                                            1
                                        } else {
                                            lvars.len()
                                        };
                                        let kept = diff_cells(&lcells, 0, w, &rcells);
                                        Result::Ok((Exp::Table(lvars, kept), env.clone()))
                                    } else {
                                        Result::Err(
                                            String::from_str(
                                                "expected tables with matching columns in difference",
                                            ),
                                        )
                                    }
                                },
                                Option::None => Result::Err(String::from_str("expected table")),
                            },
                        }
                    },
                    Option::None => Result::Err(String::from_str("expected table")),
                },
            }
        },
        Exp::Product(l, r2) => {
            proof {
                assert(em == ExpModel::Product(
                    Box::new((**l).model()),
                    Box::new((**r2).model()),
                ));
            }
            match eval(l, env) {
                Result::Err(e) => Result::Err(e),
                Result::Ok(p) => match table_parts(p.0) {
                    Option::Some(t) => {
                        let (lvars, lcells) = t;
                        match eval(r2, env) {
                            Result::Err(e) => Result::Err(e),
                            Result::Ok(q) => match table_parts(q.0) {
                                Option::Some(u) => {
                                    let (rvars, rcells) = u;
                                    let wl = if lvars.len() == 0 {
                                        1
                                    } else {
                                        lvars.len()
                                    };
                                    let wr = if rvars.len() == 0 {
                                        1
                                    } else {
                                        rvars.len()
                                    };
                                    let cells = prod_cells(&lcells, 0, wl, &rcells, wr);
                                    let mut allcols = lvars;
                                    let ghost lvm = names_model(allcols@);
                                    let ghost rvm = names_model(rvars@);
                                    let mut rv = rvars;
                                    allcols.append(&mut rv);
                                    proof {
                                        assert(names_model(allcols@) =~= lvm + rvm);
                                    }
                                    Result::Ok((Exp::Table(allcols, cells), env.clone()))
                                },
                                Option::None => Result::Err(String::from_str("expected table")),
                            },
                        }
                    },
                    Option::None => Result::Err(String::from_str("expected table")),
                },
            }
        },
        Exp::Table(cols, cells) => {
            proof {
                assert(em == ExpModel::Table(names_model(cols@), exps_model(cells@)));
            }
            match eval_cells(cells, env, 0) {
                Result::Err(e) => Result::Err(e),
                Result::Ok(vs) => Result::Ok((Exp::Table(clone_names(cols), vs), env.clone())),
            }
        },
        Exp::Or(l, r2) => {
            proof {
                assert(em == ExpModel::Or(Box::new((**l).model()), Box::new((**r2).model())));
            }
            match eval(l, env) {
                Result::Err(e) => Result::Err(e),
                Result::Ok(p) => {
                    if is_true(&p.0) {
                        Result::Ok((Exp::Bool(true), env.clone()))
                    } else {
                        match eval(r2, env) {
                            Result::Err(e) => Result::Err(e),
                            Result::Ok(q) => {
                                if is_true(&q.0) {
                                    Result::Ok((Exp::Bool(true), env.clone()))
                                } else {
                                    Result::Ok((Exp::Bool(false), env.clone()))
                                }
                            },
                        }
                    }
                },
            }
        },
        Exp::Equals(l, r2) => {
            proof {
                assert(em == ExpModel::Equals(Box::new((**l).model()), Box::new((**r2).model())));
            }
            match eval(l, env) {
                Result::Err(e) => Result::Err(e),
                Result::Ok(p) => match eval(r2, env) {
                    Result::Err(e) => Result::Err(e),
                    Result::Ok(q) => Result::Ok((Exp::Bool(exp_eq(&p.0, &q.0)), env.clone())),
                },
            }
        },
        Exp::And(l, r2) => {
            proof {
                assert(em == ExpModel::And(Box::new((**l).model()), Box::new((**r2).model())));
            }
            match eval(l, env) {
                Result::Err(e) => Result::Err(e),
                Result::Ok(p) => {
                    if is_false(&p.0) {
                        Result::Ok((Exp::Bool(false), env.clone()))
                    } else {
                        match eval(r2, env) {
                            Result::Err(e) => Result::Err(e),
                            Result::Ok(q) => {
                                if is_false(&q.0) {
                                    Result::Ok((Exp::Bool(false), env.clone()))
                                } else {
                                    Result::Ok((Exp::Bool(true), env.clone()))
                                }
                            },
                        }
                    }
                },
            }
        },
        Exp::Not(i) => {
            proof {
                assert(em == ExpModel::Not(Box::new((**i).model())));
            }
            match eval(i, env) {
                Result::Err(e) => Result::Err(e),
                Result::Ok(p) => match p.0 {
                    Exp::Bool(b) => {
                        proof {
                            assert(p.0.model() == ExpModel::Bool(b));
                        }
                        Result::Ok((Exp::Bool(!b), env.clone()))
                    },
                    other => {
                        proof {
                            lemma_model_variant(&other);
                        }
                        Result::Err(String::from_str("expected boolean"))
                    },
                },
            }
        },
        Exp::Bool(v) => {
            proof {
                assert(em == ExpModel::Bool(*v));
            }
            Result::Ok((Exp::Bool(*v), env.clone()))
        },
        Exp::Int(v) => {
            proof {
                assert(em == ExpModel::Int(*v));
            }
            Result::Ok((Exp::Int(*v), env.clone()))
        },
        Exp::Str(s) => {
            proof {
                assert(em == ExpModel::Str(s@));
            }
            Result::Ok((Exp::Str(s.clone()), env.clone()))
        },
        Exp::Var(x) => {
            proof {
                assert(em == ExpModel::Var(x@));
            }
            match env.get(x) {
                Option::Some(v) => Result::Ok((v.clone(), env.clone())),
                Option::None => Result::Err(
                    String::from_str("Variable `").concat(x.as_str()).concat("` not defined"),
                ),
            }
        },
    }
}

} // verus!


