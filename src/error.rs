use vstd::prelude::*;

use crate::atom::{atom_text, string_from_chars, AtomView, RuccoAtom};
use crate::sexp::{render, Sexp};

verus! {

/// Signals of the read-eval-print loop.
#[derive(Debug, Clone, Copy, PartialEq, Eq)]
pub enum RuccoReplErr {
    EmptyInput,
}

/// Malformed or truncated input.
#[derive(Debug, Clone, Copy, PartialEq, Eq)]
pub enum RuccoReaderErr {
    UnexpectedEof,
    UnexpectedChar { char: char },
}

/// Classification of a value, used in diagnostics.
#[derive(Debug, Clone, Copy, PartialEq, Eq)]
pub enum RuccoDataType {
    // top level
    Atom,
    Cons,
    // atom
    Int,
    Float,
    Symbol,
    // cons
    List,
    DotList,
    // bool
    Nil,
    T,
}

/// What a value turned out to be: its classification and its printed form.
#[derive(Debug, Clone, PartialEq, Eq)]
pub struct RuccoActualDataType {
    pub data_type: Vec<RuccoDataType>,
    pub value: String,
}

/// Classification and printed form, mathematically.
pub struct ActualView {
    pub data_type: Seq<RuccoDataType>,
    pub value: Seq<char>,
}

impl View for RuccoActualDataType {
    type V = ActualView;

    open spec fn view(&self) -> ActualView {
        ActualView { data_type: self.data_type@, value: self.value@ }
    }
}

pub open spec fn atom_kind(a: AtomView) -> RuccoDataType {
    match a {
        AtomView::Int(_) => RuccoDataType::Int,
        AtomView::Float(_) => RuccoDataType::Float,
        AtomView::Symbol(_) => RuccoDataType::Symbol,
    }
}

/// How a diagnostic describes the value `t`.
pub open spec fn actual_of(t: Sexp) -> ActualView {
    match t {
        Sexp::Atom(a) => ActualView {
            data_type: seq![RuccoDataType::Atom, atom_kind(a)],
            value: atom_text(a),
        },
        Sexp::Pair(_, _) => ActualView {
            data_type: seq![RuccoDataType::Cons, RuccoDataType::List],
            value: render(t),
        },
    }
}

/// Errors raised while handling expressions.
#[derive(Debug)]
pub enum RuccoRuntimeErr {
    VoidVariable { name: String },
    VoidFunction { name: String },
    InvalidReference,
    WrongTypeArgument { name: String, expected: RuccoDataType, actual: RuccoActualDataType },
    WrongNumberOfArguments { name: String, expected: (usize, usize), actual: usize },
}

/// A runtime error, mathematically.
pub enum RuntimeErrView {
    VoidVariable(Seq<char>),
    VoidFunction(Seq<char>),
    InvalidReference,
    WrongTypeArgument(Seq<char>, RuccoDataType, ActualView),
    WrongNumberOfArguments(Seq<char>, (usize, usize), nat),
}

impl View for RuccoRuntimeErr {
    type V = RuntimeErrView;

    open spec fn view(&self) -> RuntimeErrView {
        match self {
            RuccoRuntimeErr::VoidVariable { name } => RuntimeErrView::VoidVariable(name@),
            RuccoRuntimeErr::VoidFunction { name } => RuntimeErrView::VoidFunction(name@),
            RuccoRuntimeErr::InvalidReference => RuntimeErrView::InvalidReference,
            RuccoRuntimeErr::WrongTypeArgument { name, expected, actual } => {
                RuntimeErrView::WrongTypeArgument(name@, *expected, actual@)
            },
            RuccoRuntimeErr::WrongNumberOfArguments { name, expected, actual } => {
                RuntimeErrView::WrongNumberOfArguments(name@, *expected, *actual as nat)
            },
        }
    }
}

/// Any error of the read-compile-print cycle.
#[derive(Debug)]
pub enum RuccoErr {
    Repl(RuccoReplErr),
    Reader(RuccoReaderErr),
    Runtime(RuccoRuntimeErr),
}

/// The error of an operation `name` that wanted a pair and met the atom `a`.
pub open spec fn not_a_pair(name: Seq<char>, a: AtomView) -> RuntimeErrView {
    RuntimeErrView::WrongTypeArgument(name, RuccoDataType::Cons, actual_of(Sexp::Atom(a)))
}

impl RuccoActualDataType {
    /// Describes an atom.
    pub fn from_atom(atom: &RuccoAtom) -> (r: RuccoActualDataType)
        ensures
            r@ == actual_of(Sexp::Atom(atom@)),
    {
        let kind = match atom {
            RuccoAtom::Int(_) => RuccoDataType::Int,
            RuccoAtom::Float(_) => RuccoDataType::Float,
            RuccoAtom::Symbol(_) => RuccoDataType::Symbol,
        };
        let mut text: Vec<char> = Vec::new();
        atom.push_text(&mut text);
        let value = string_from_chars(&text);
        let r = RuccoActualDataType { data_type: vec![RuccoDataType::Atom, kind], value };
        proof {
            assert(r@.data_type =~= seq![RuccoDataType::Atom, atom_kind(atom@)]);
        }
        r
    }
}

impl RuccoRuntimeErr {
    /// The error of operation `name`, which wanted a pair and met `atom`.
    pub fn not_a_pair(name: &str, atom: &RuccoAtom) -> (r: RuccoRuntimeErr)
        ensures
            r@ == not_a_pair(name@, atom@),
    {
        RuccoRuntimeErr::WrongTypeArgument {
            name: String::from_str(name),
            expected: RuccoDataType::Cons,
            actual: RuccoActualDataType::from_atom(atom),
        }
    }
}

} // verus!
