use vstd::prelude::*;

use crate::analyse::{analyse_reads, analyse_writes, empty, intersect, spec_reads, spec_writes,
    NameSet};
use crate::eval::{eval, lemma_entries_dom, lemma_entries_index, spec_eval, Env};
use crate::exp::{Exp, ExpModel};
use crate::parse::{parse, spec_parse};
use crate::serialise::{serialise, spec_serialise};
use vstd::string::StringExecFns;

verus! {

broadcast use vstd::seq::group_seq_axioms;

/// The name-and-contents pairs as character sequences.
pub open spec fn texts_model(v: Seq<(String, String)>) -> Seq<(Seq<char>, Seq<char>)> {
    v.map(|i: int, p: (String, String)| (p.0@, p.1@))
}

/// The environment a list of loaded files denotes: each file's contents
/// parsed, a later file overriding an earlier one of the same name; and
/// nothing when any file fails to parse.
pub open spec fn spec_load_env(loaded: Seq<(Seq<char>, Seq<char>)>) -> Option<
    Map<Seq<char>, ExpModel>,
>
    decreases loaded.len(),
{
    if loaded.len() == 0 {
        Option::Some(Map::empty())
    } else {
        match (spec_load_env(loaded.drop_last()), spec_parse(loaded.last().1)) {
            (Option::Some(m), Option::Some(e)) => Option::Some(m.insert(loaded.last().0, e)),
            _ => Option::None,
        }
    }
}

proof fn lemma_load_env_none(loaded: Seq<(Seq<char>, Seq<char>)>, k: int)
    requires
        0 <= k <= loaded.len(),
        spec_load_env(loaded.take(k)) is None,
    ensures
        spec_load_env(loaded) is None,
    decreases loaded.len() - k,
{
    if k < loaded.len() {
        assert(loaded.take(k + 1).drop_last() =~= loaded.take(k));
        lemma_load_env_none(loaded, k + 1);
    } else {
        assert(loaded.take(k) =~= loaded);
    }
}

/// Parses the loaded files into an environment. A file that does not
/// parse is presumed corrupt and aborts the request.
pub fn load_env(loaded: &Vec<(String, String)>) -> (r: Result<Env, String>)
    ensures
        match spec_load_env(texts_model(loaded@)) {
            Option::Some(m) => r matches Result::Ok(env) && env@ == m && env.wf(),
            Option::None => r is Err,
        },
{
    let ghost lm = texts_model(loaded@);
    let mut env = Env::new();
    let mut k: usize = 0;
    while k < loaded.len()
        invariant
            k <= loaded@.len(),
            lm == texts_model(loaded@),
            env.wf(),
            spec_load_env(lm.take(k as int)) == Option::Some(env@),
        decreases loaded@.len() - k,
    {
        proof {
            assert(lm.take(k + 1).drop_last() =~= lm.take(k as int));
            assert(lm.take(k + 1).last() == lm[k as int]);
        }
        match parse(loaded[k].1.as_str()) {
            Result::Ok(e) => {
                env.insert(loaded[k].0.clone(), e);
            },
            Result::Err(e) => {
                proof {
                    lemma_load_env_none(lm, k + 1);
                }
                return Result::Err(e);
            },
        }
        k = k + 1;
    }
    proof {
        assert(lm.take(loaded@.len() as int) =~= lm);
    }
    Result::Ok(env)
}

/// Whether a binding of `n` must be written back after evaluation: it
/// names an existing file, the program writes it at top level, and the
/// final environment binds it.
pub open spec fn write_due(
    n: Seq<char>,
    em: ExpModel,
    files: Set<Seq<char>>,
    envm: Map<Seq<char>, ExpModel>,
) -> bool {
    files.contains(n) && spec_writes(em).contains(n) && envm.dom().contains(n)
}

/// A correct write-back list: distinct names, each entry due and holding
/// the serialised value of its binding, and one entry for every due
/// name.
pub open spec fn writes_good(
    outs: Seq<(String, String)>,
    em: ExpModel,
    files: Set<Seq<char>>,
    envm: Map<Seq<char>, ExpModel>,
) -> bool {
    &&& forall|j1: int, j2: int| 0 <= j1 < j2 < outs.len() ==> outs[j1].0@ != outs[j2].0@
    &&& forall|j: int|
        0 <= j < outs.len() ==> write_due(#[trigger] outs[j].0@, em, files, envm) && outs[j].1@
            == spec_serialise(envm[outs[j].0@])
    &&& forall|n: Seq<char>|
        #[trigger] write_due(n, em, files, envm) ==> exists|j: int|
            0 <= j < outs.len() && #[trigger] outs[j].0@ == n
}

/// Parses a request and plans its storage reads: the expression, and the
/// names of the existing files that it reads free. Fails exactly when the
/// text does not parse.
pub fn plan_request(text: &str, files: &NameSet) -> (r: Result<(Exp, NameSet), String>)
    requires
        files.wf(),
    ensures
        match spec_parse(text@) {
            Option::None => r is Err,
            Option::Some(m) => r matches Result::Ok(p) && p.0.model() == m && p.1@
                == files@.intersect(spec_reads(m, Set::empty())) && p.1.wf(),
        },
{
    match parse(text) {
        Result::Err(e) => Result::Err(e),
        Result::Ok(e) => {
            let reads = intersect(files, &analyse_reads(&e, &empty()));
            Result::Ok((e, reads))
        },
    }
}

/// Runs a planned request: parses the loaded files into an environment,
/// evaluates the expression, and returns the serialised result together
/// with the bindings to write back, each serialised. Fails exactly when a
/// loaded file is corrupt or evaluation fails; nothing is written then.
pub fn run_request(exp: &Exp, loaded: &Vec<(String, String)>, files: &NameSet) -> (r: Result<
    (String, Vec<(String, String)>),
    String,
>)
    requires
        files.wf(),
    ensures
        ({
            let em = exp.model();
            match spec_load_env(texts_model(loaded@)) {
                Option::None => r is Err,
                Option::Some(envm) => match spec_eval(em, envm) {
                    Result::Err(_) => r is Err,
                    Result::Ok(q) => r matches Result::Ok(p) && p.0@ == spec_serialise(q.0)
                        && writes_good(p.1@, em, files@, q.1),
                },
            }
        }),
{
    let ghost em = exp.model();
    match load_env(loaded) {
        Result::Err(e) => Result::Err(e),
        Result::Ok(env) => match eval(exp, &env) {
            Result::Err(e) => Result::Err(e),
            Result::Ok(p) => {
                let (value, env2) = p;
                let ghost envm2 = env2@;
                let writes = intersect(files, &analyse_writes(exp));
                let mut outs: Vec<(String, String)> = Vec::new();
                let mut k: usize = 0;
                while k < env2.pairs.len()
                    invariant
                        k <= env2.pairs@.len(),
                        env2.wf(),
                        envm2 == env2@,
                        em == exp.model(),
                        writes.wf(),
                        writes@ == files@.intersect(spec_writes(em)),
                        files.wf(),
                        forall|j: int|
                            0 <= j < outs@.len() ==> write_due(
                                #[trigger] outs@[j].0@,
                                em,
                                files@,
                                envm2,
                            ) && outs@[j].1@ == spec_serialise(envm2[outs@[j].0@]),
                        forall|j1: int, j2: int|
                            0 <= j1 < j2 < outs@.len() ==> outs@[j1].0@ != outs@[j2].0@,
                        forall|j: int|
                            #![trigger outs@[j].0@]
                            0 <= j < outs@.len() ==> exists|i: int|
                                0 <= i < k && outs@[j].0@ == #[trigger] env2.pairs@[i].0@,
                        forall|i: int|
                            0 <= i < k && write_due(
                                #[trigger] env2.pairs@[i].0@,
                                em,
                                files@,
                                envm2,
                            ) ==> exists|j: int|
                                0 <= j < outs@.len() && #[trigger] outs@[j].0@
                                    == env2.pairs@[i].0@,
                    decreases env2.pairs@.len() - k,
                {
                    let ghost outs0 = outs@;
                    if writes.contains(&env2.pairs[k].0) {
                        proof {
                            lemma_entries_index(env2.pairs@, k as int);
                        }
                        let n = env2.pairs[k].0.clone();
                        let content = serialise(env2.pairs[k].1.clone());
                        outs.push((n, content));
                        proof {
                            assert(outs@[outs@.len() - 1].0@ == env2.pairs@[k as int].0@);
                        }
                    } else {
                        proof {
                            assert(!write_due(env2.pairs@[k as int].0@, em, files@, envm2));
                        }
                    }
                    proof {
                        assert forall|i: int|
                            0 <= i < k + 1 && write_due(
                                #[trigger] env2.pairs@[i].0@,
                                em,
                                files@,
                                envm2,
                            ) implies exists|j: int|
                            0 <= j < outs@.len() && #[trigger] outs@[j].0@
                                == env2.pairs@[i].0@ by {
                            if i < k {
                                let j0 = choose|j0: int|
                                    0 <= j0 < outs0.len() && #[trigger] outs0[j0].0@
                                        == env2.pairs@[i].0@;
                                assert(outs@[j0].0@ == env2.pairs@[i].0@);
                            } else {
                                assert(outs@[outs@.len() - 1].0@ == env2.pairs@[i].0@);
                            }
                        }
                    }
                    k = k + 1;
                }
                proof {
                    assert forall|n: Seq<char>| #[trigger] write_due(n, em, files@, envm2)
                        implies exists|j: int|
                        0 <= j < outs@.len() && #[trigger] outs@[j].0@ == n by {
                        lemma_entries_dom(env2.pairs@, n);
                        let i = choose|i: int|
                            0 <= i < env2.pairs@.len() && #[trigger] env2.pairs@[i].0@ == n;
                        assert(write_due(env2.pairs@[i].0@, em, files@, envm2));
                    }
                }
                let response = serialise(value);
                Result::Ok((response, outs))
            },
        },
    }
}

} // verus!
