use vstd::prelude::*;

use crate::exp::{Exp, ExpModel};

verus! {

broadcast use vstd::seq::group_seq_axioms, vstd::set::group_set_axioms;

/// The names among the first `k` items.
pub open spec fn set_of(items: Seq<String>, k: int) -> Set<Seq<char>>
    decreases k,
{
    if k <= 0 {
        Set::empty()
    } else {
        set_of(items, k - 1).insert(items[k - 1]@)
    }
}

/// An item below `k` is in the set of the first `k` items.
pub proof fn lemma_set_of_mono(items: Seq<String>, i: int, k: int)
    requires
        0 <= i < k,
    ensures
        set_of(items, k).contains(items[i]@),
    decreases k,
{
    if i < k - 1 {
        lemma_set_of_mono(items, i, k - 1);
    }
}

/// Lists equal name for name below `k` have the same set.
pub proof fn lemma_set_of_congruent(a: Seq<String>, b: Seq<String>, k: int)
    requires
        forall|i: int| 0 <= i < k ==> #[trigger] a[i]@ == b[i]@,
    ensures
        set_of(a, k) == set_of(b, k),
    decreases k,
{
    if k > 0 {
        lemma_set_of_congruent(a, b, k - 1);
        assert(set_of(a, k) =~= set_of(b, k));
    } else {
        assert(set_of(a, k) =~= set_of(b, k));
    }
}

/// A finite set of identifiers, held as a list without repeats.
pub struct NameSet {
    pub items: Vec<String>,
}

impl View for NameSet {
    type V = Set<Seq<char>>;

    open spec fn view(&self) -> Set<Seq<char>> {
        set_of(self.items@, self.items@.len() as int)
    }
}

impl NameSet {
    /// No name occurs twice.
    pub open spec fn wf(&self) -> bool {
        forall|i: int, j: int|
            0 <= i < j < self.items@.len() ==> self.items@[i]@ != self.items@[j]@
    }

    /// Whether `name` is in the set.
    pub fn contains(&self, name: &String) -> (r: bool)
        ensures
            r == self@.contains(name@),
    {
        let mut k: usize = 0;
        while k < self.items.len()
            invariant
                k <= self.items@.len(),
                !set_of(self.items@, k as int).contains(name@),
            decreases self.items@.len() - k,
        {
            if self.items[k] == *name {
                proof {
                    lemma_set_of_mono(self.items@, k as int, self.items@.len() as int);
                }
                return true;
            }
            k = k + 1;
        }
        false
    }
}

impl Clone for NameSet {
    /// A copy with the same names; a set without repeats stays so.
    fn clone(&self) -> (r: Self)
        ensures
            r@ == self@,
            self.wf() ==> r.wf(),
    {
        let mut out: Vec<String> = Vec::new();
        let mut k: usize = 0;
        while k < self.items.len()
            invariant
                k <= self.items@.len(),
                out@.len() == k,
                forall|m: int| 0 <= m < k ==> #[trigger] out@[m]@ == self.items@[m]@,
            decreases self.items@.len() - k,
        {
            out.push(self.items[k].clone());
            k = k + 1;
        }
        let r = NameSet { items: out };
        proof {
            lemma_set_of_congruent(r.items@, self.items@, self.items@.len() as int);
        }
        r
    }
}

/// The empty set of names.
pub fn empty() -> (r: NameSet)
    ensures
        r@ == Set::<Seq<char>>::empty(),
        r.wf(),
{
    NameSet { items: Vec::new() }
}

/// The set holding the one name `s`.
pub fn single(s: &str) -> (r: NameSet)
    ensures
        r@ == Set::<Seq<char>>::empty().insert(s@),
        r.wf(),
{
    let mut items: Vec<String> = Vec::new();
    items.push(s.to_owned());
    let r = NameSet { items };
    proof {
        assert(set_of(r.items@, 0) == Set::<Seq<char>>::empty());
        assert(r@ =~= Set::<Seq<char>>::empty().insert(s@));
    }
    r
}

/// The union of two sets of names.
pub fn union(a: NameSet, b: NameSet) -> (r: NameSet)
    requires
        a.wf(),
    ensures
        r@ == a@.union(b@),
        r.wf(),
{
    let ghost av = a@;
    let mut out = a;
    let mut k: usize = 0;
    while k < b.items.len()
        invariant
            k <= b.items@.len(),
            out.wf(),
            out@ == av.union(set_of(b.items@, k as int)),
        decreases b.items@.len() - k,
    {
        let ghost before = out.items@;
        let ghost x = b.items@[k as int]@;
        if !out.contains(&b.items[k]) {
            proof {
                assert forall|i: int| 0 <= i < before.len() implies #[trigger] before[i]@
                    != x by {
                    if before[i]@ == x {
                        lemma_set_of_mono(before, i, before.len() as int);
                    }
                }
            }
            out.items.push(b.items[k].clone());
            proof {
                lemma_set_of_congruent(out.items@, before, before.len() as int);
                assert(out@ =~= av.union(set_of(b.items@, k + 1)));
            }
        } else {
            proof {
                assert(out@ =~= av.union(set_of(b.items@, k + 1)));
            }
        }
        k = k + 1;
    }
    proof {
        assert(out@ =~= av.union(b@));
    }
    out
}

/// The names in both sets.
pub fn intersect(a: &NameSet, b: &NameSet) -> (r: NameSet)
    requires
        a.wf(),
    ensures
        r@ == a@.intersect(b@),
        r.wf(),
{
    let mut out = empty();
    let mut k: usize = 0;
    while k < a.items.len()
        invariant
            k <= a.items@.len(),
            a.wf(),
            out.wf(),
            out@ == set_of(a.items@, k as int).intersect(b@),
        decreases a.items@.len() - k,
    {
        let ghost before = out.items@;
        let ghost x = a.items@[k as int]@;
        if b.contains(&a.items[k]) && !out.contains(&a.items[k]) {
            proof {
                assert forall|i: int| 0 <= i < before.len() implies #[trigger] before[i]@
                    != x by {
                    if before[i]@ == x {
                        lemma_set_of_mono(before, i, before.len() as int);
                    }
                }
            }
            out.items.push(a.items[k].clone());
            proof {
                lemma_set_of_congruent(out.items@, before, before.len() as int);
                assert(out@ =~= set_of(a.items@, k + 1).intersect(b@));
            }
        } else {
            proof {
                assert(out@ =~= set_of(a.items@, k + 1).intersect(b@));
            }
        }
        k = k + 1;
    }
    proof {
        assert(out@ =~= a@.intersect(b@));
    }
    out
}

// ---------------------------------------------------------------------------
// Free reads and top-level writes
// ---------------------------------------------------------------------------

/// The names an expression reads from its environment: every `Var` not
/// shadowed by an enclosing `Let`. A `Select` or `Table` column list is
/// not a read.
pub open spec fn spec_reads(e: ExpModel, defined: Set<Seq<char>>) -> Set<Seq<char>>
    decreases e, 0nat,
{
    match e {
        ExpModel::Let(x, e1, body) => spec_reads(*e1, defined).union(
            spec_reads(*body, defined.insert(x)),
        ),
        ExpModel::Select(_, src) => spec_reads(*src, defined),
        ExpModel::Where(l, r) => spec_reads(*l, defined).union(spec_reads(*r, defined)),
        ExpModel::Union(l, r) => spec_reads(*l, defined).union(spec_reads(*r, defined)),
        ExpModel::Difference(l, r) => spec_reads(*l, defined).union(spec_reads(*r, defined)),
        ExpModel::Product(l, r) => spec_reads(*l, defined).union(spec_reads(*r, defined)),
        ExpModel::Table(_, cells) => spec_reads_cells(cells, defined, 0),
        ExpModel::Or(l, r) => spec_reads(*l, defined).union(spec_reads(*r, defined)),
        ExpModel::Equals(l, r) => spec_reads(*l, defined).union(spec_reads(*r, defined)),
        ExpModel::And(l, r) => spec_reads(*l, defined).union(spec_reads(*r, defined)),
        ExpModel::Not(i) => spec_reads(*i, defined),
        ExpModel::Var(x) => if !defined.contains(x) {
            Set::empty().insert(x)
        } else {
            Set::empty()
        },
        _ => Set::empty(),
    }
}

/// The reads of a cell list.
pub open spec fn spec_reads_cells(
    cells: Seq<ExpModel>,
    defined: Set<Seq<char>>,
    k: int,
) -> Set<Seq<char>>
    decreases cells, 1nat, cells.len() - k,
{
    if k < 0 || k >= cells.len() {
        Set::empty()
    } else {
        spec_reads(cells[k], defined).union(spec_reads_cells(cells, defined, k + 1))
    }
}

/// The names an expression writes at top level: the binders on the right
/// spine of its `Let` chain, and nothing below anything else.
pub open spec fn spec_writes(e: ExpModel) -> Set<Seq<char>>
    decreases e,
{
    match e {
        ExpModel::Let(x, _, body) => spec_writes(*body).insert(x),
        _ => Set::empty(),
    }
}

/// The free reads of an expression, given the names already defined.
pub fn analyse_reads(exp: &Exp, defined: &NameSet) -> (r: NameSet)
    requires
        defined.wf(),
    ensures
        r@ == spec_reads(exp.model(), defined@),
        r.wf(),
    decreases exp, 0nat,
{
    let ghost em = exp.model();
    match exp {
        Exp::Let(x, e1, body) => {
            proof {
                assert(em == ExpModel::Let(
                    x@,
                    Box::new((**e1).model()),
                    Box::new((**body).model()),
                ));
            }
            let d2 = union(single(x.as_str()), defined.clone());
            proof {
                assert(d2@ =~= defined@.insert(x@));
            }
            union(analyse_reads(e1, defined), analyse_reads(body, &d2))
        },
        Exp::Select(cols, src) => {
            proof {
                assert(em == ExpModel::Select(
                    crate::exp::names_model(cols@),
                    Box::new((**src).model()),
                ));
            }
            analyse_reads(src, defined)
        },
        Exp::Where(l, r2) => {
            proof {
                assert(em == ExpModel::Where(Box::new((**l).model()), Box::new((**r2).model())));
            }
            union(analyse_reads(l, defined), analyse_reads(r2, defined))
        },
        Exp::Union(l, r2) => {
            proof {
                assert(em == ExpModel::Union(Box::new((**l).model()), Box::new((**r2).model())));
            }
            union(analyse_reads(l, defined), analyse_reads(r2, defined))
        },
        Exp::Difference(l, r2) => {
            proof {
                assert(em == ExpModel::Difference(
                    Box::new((**l).model()),
                    Box::new((**r2).model()),
                ));
            }
            union(analyse_reads(l, defined), analyse_reads(r2, defined))
        },
        Exp::Product(l, r2) => {
            proof {
                assert(em == ExpModel::Product(
                    Box::new((**l).model()),
                    Box::new((**r2).model()),
                ));
            }
            union(analyse_reads(l, defined), analyse_reads(r2, defined))
        },
        Exp::Table(cols, cells) => {
            proof {
                assert(em == ExpModel::Table(
                    crate::exp::names_model(cols@),
                    crate::exp::exps_model(cells@),
                ));
            }
            reads_cells(cells, defined, 0)
        },
        Exp::Or(l, r2) => {
            proof {
                assert(em == ExpModel::Or(Box::new((**l).model()), Box::new((**r2).model())));
            }
            union(analyse_reads(l, defined), analyse_reads(r2, defined))
        },
        Exp::Equals(l, r2) => {
            proof {
                assert(em == ExpModel::Equals(Box::new((**l).model()), Box::new((**r2).model())));
            }
            union(analyse_reads(l, defined), analyse_reads(r2, defined))
        },
        Exp::And(l, r2) => {
            proof {
                assert(em == ExpModel::And(Box::new((**l).model()), Box::new((**r2).model())));
            }
            union(analyse_reads(l, defined), analyse_reads(r2, defined))
        },
        Exp::Not(i) => {
            proof {
                assert(em == ExpModel::Not(Box::new((**i).model())));
            }
            analyse_reads(i, defined)
        },
        Exp::Var(x) => {
            proof {
                assert(em == ExpModel::Var(x@));
            }
            if !defined.contains(x) {
                single(x.as_str())
            } else {
                empty()
            }
        },
        Exp::Bool(v) => {
            proof {
                assert(em == ExpModel::Bool(*v));
            }
            empty()
        },
        Exp::Int(v) => {
            proof {
                assert(em == ExpModel::Int(*v));
            }
            empty()
        },
        Exp::Str(s) => {
            proof {
                assert(em == ExpModel::Str(s@));
            }
            empty()
        },
    }
}

fn reads_cells(cells: &Vec<Exp>, defined: &NameSet, k: usize) -> (r: NameSet)
    requires
        defined.wf(),
        k <= cells@.len(),
    ensures
        r@ == spec_reads_cells(crate::exp::exps_model(cells@), defined@, k as int),
        r.wf(),
    decreases cells@, 1nat, cells@.len() - k,
{
    if k >= cells.len() {
        empty()
    } else {
        union(analyse_reads(&cells[k], defined), reads_cells(cells, defined, k + 1))
    }
}

/// The top-level writes of an expression.
pub fn analyse_writes(exp: &Exp) -> (r: NameSet)
    ensures
        r@ == spec_writes(exp.model()),
        r.wf(),
    decreases exp,
{
    let ghost em = exp.model();
    match exp {
        Exp::Let(x, e1, body) => {
            proof {
                assert(em == ExpModel::Let(
                    x@,
                    Box::new((**e1).model()),
                    Box::new((**body).model()),
                ));
            }
            let r = union(single(x.as_str()), analyse_writes(body));
            proof {
                assert(r@ =~= spec_writes((**body).model()).insert(x@));
            }
            r
        },
        _ => {
            proof {
                crate::eval::lemma_model_variant(exp);
            }
            empty()
        },
    }
}

} // verus!
