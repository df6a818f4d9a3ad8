//! Front end of a small Lisp: an arena of cons cells, a reader from text to
//! expressions, and a compiler from expressions to stack-machine code.
use vstd::prelude::*;

pub mod arena;
pub mod atom;
pub mod compiler;
pub mod error;
pub mod reader;
pub mod roundtrip;
pub mod sexp;
pub mod token;
pub mod toplevel;

pub use arena::{RuccoArena, RuccoExp, RuccoExpRef};
pub use atom::RuccoAtom;
pub use compiler::compile;
pub use error::{
    RuccoActualDataType, RuccoDataType, RuccoErr, RuccoReaderErr, RuccoReplErr, RuccoRuntimeErr,
};
pub use reader::Reader;
pub use toplevel::{eval, print, read, rep, RuccoEnv};

verus! {

} // verus!
