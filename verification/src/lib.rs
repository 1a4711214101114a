use vstd::prelude::*;

pub mod analyse;
pub mod ast;
pub mod cli;
pub mod eval;
pub mod exp;
pub mod laws;
pub mod parse;
pub mod request;
pub mod serialise;
pub mod text;

pub use cli::Cli;
pub use eval::{eval, Env};
pub use exp::Exp;
pub use parse::{parse, Bexp, Op, Side};
pub use serialise::serialise;

verus! {

/// Parses `text` and evaluates the expression under `env`: the whole
/// request pipeline short of the storage layer. Fails exactly when the
/// text does not parse or evaluation fails.
pub fn read_eval(text: &str, env: &Env) -> (r: Result<(Exp, Env), String>)
    requires
        env.wf(),
    ensures
        match parse::spec_parse(text@) {
            Option::None => r is Err,
            Option::Some(m) => match eval::spec_eval(m, env@) {
                Result::Ok(q) => r matches Result::Ok(p) && p.0.model() == q.0 && p.1@ == q.1
                    && p.1.wf(),
                Result::Err(_) => r is Err,
            },
        },
{
    match parse(text) {
        Result::Ok(e) => eval(&e, env),
        Result::Err(msg) => Result::Err(msg),
    }
}

} // verus!
