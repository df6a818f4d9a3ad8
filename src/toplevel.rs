use vstd::prelude::*;

use crate::arena::{RuccoArena, RuccoExpRef};
use crate::compiler::{compile, compiled, compiles_as, stop_code};
use crate::error::{RuccoErr, RuccoReaderErr, RuccoRuntimeErr, RuntimeErrView};
use crate::reader::{parse, Reader};
use crate::sexp::render;

verus! {

/// The run-time environment, handed through unchanged.
pub type RuccoEnv = std::collections::HashMap<String, String>;

/// Reads the first expression of `buf`.
pub fn read(buf: &str, arena: &mut RuccoArena) -> (r: Result<RuccoExpRef, RuccoReaderErr>)
    requires
        old(arena).wf(),
    ensures
        final(arena).grows_from(old(arena)),
        parse(buf@, 0) matches Ok((t, _)) ==> (r matches Ok(h) && final(arena).finite(h)
            && final(arena).term(h) == t),
        parse(buf@, 0) matches Err(e) ==> r == Err::<RuccoExpRef, RuccoReaderErr>(e),
{
    let mut reader = Reader::new(buf);
    reader.read(arena)
}

/// Compiles `exp`; the environment is not consulted.
pub fn eval(exp: &RuccoExpRef, env: &mut RuccoEnv, arena: &mut RuccoArena) -> (r: Result<
    RuccoExpRef,
    RuccoRuntimeErr,
>)
    requires
        old(arena).wf(),
        *exp < old(arena).nodes().len() ==> old(arena).finite(*exp),
    ensures
        *final(env) == *old(env),
        final(arena).grows_from(old(arena)),
        *exp >= old(arena).nodes().len() ==> (r matches Err(e) && e@ == RuntimeErrView::InvalidReference),
        *exp < old(arena).nodes().len() ==> compiles_as(
            compiled(old(arena).term(*exp), stop_code()),
            r,
            final(arena),
        ),
{
    compile(exp, arena)
}

/// The text to show for a result.
pub fn print(buf: &str) -> (r: String)
    ensures
        r@ == buf@,
{
    String::from_str(buf)
}

/// Reads the first expression of `buf`, compiles it, and prints the code.
pub fn rep(buf: &str, env: &mut RuccoEnv, arena: &mut RuccoArena) -> (r: Result<String, RuccoErr>)
    requires
        old(arena).wf(),
    ensures
        *final(env) == *old(env),
        final(arena).grows_from(old(arena)),
        parse(buf@, 0) matches Err(e) ==> (r matches Err(RuccoErr::Reader(x)) && x == e),
        parse(buf@, 0) matches Ok((t, _)) ==> match compiled(t, stop_code()) {
            Ok(code) => r matches Ok(s) && s@ == render(code),
            Err(e) => r matches Err(RuccoErr::Runtime(x)) && x@ == e,
        },
{
    let ghost a0 = *arena;
    let exp = match read(buf, arena) {
        Ok(h) => h,
        Err(e) => {
            return Err(RuccoErr::Reader(e));
        },
    };
    let ghost a1 = *arena;
    proof {
        a1.lemma_node_term(exp);
    }
    let code = match eval(&exp, env, arena) {
        Ok(h) => h,
        Err(e) => {
            proof {
                RuccoArena::lemma_grows_trans(&a0, &a1, arena);
            }
            return Err(RuccoErr::Runtime(e));
        },
    };
    proof {
        RuccoArena::lemma_grows_trans(&a0, &a1, arena);
    }
    let text = arena.render(code);
    Ok(print(text.as_str()))
}

} // verus!
