use vstd::prelude::*;

use crate::arena::{args_error, args_padded, RuccoArena, RuccoExp, RuccoExpRef};
use crate::atom::{is_symbol_named, AtomView, RuccoAtom};
use crate::error::{actual_of, not_a_pair, RuccoDataType, RuccoRuntimeErr, RuntimeErrView};
use crate::sexp::{cons, items_of, lemma_list_of_small, list1, list2, list3, nil, symbol, Sexp};

verus! {

/// The code that ends a program: `((stop))`.
pub open spec fn stop_code() -> Sexp {
    list1(list1(symbol("stop"@)))
}

/// The continuation of a branch: `((join))`.
pub open spec fn join_code() -> Sexp {
    list1(list1(symbol("join"@)))
}

/// `(ldc t)` in front of `code`.
pub open spec fn load_constant(t: Sexp, code: Sexp) -> Sexp {
    cons(list2(symbol("ldc"@), t), code)
}

/// Code for an atom: `t`, `nil` and non-symbols are constants; another
/// symbol would be a variable, which has no value here.
pub open spec fn compile_atom(a: AtomView, code: Sexp) -> Result<Sexp, RuntimeErrView> {
    match a {
        AtomView::Symbol(name) => if name == "t"@ || name == "nil"@ {
            Ok(load_constant(Sexp::Atom(a), code))
        } else {
            Err(RuntimeErrView::VoidVariable(name))
        },
        _ => Ok(load_constant(Sexp::Atom(a), code)),
    }
}

/// The instructions for `t`, in front of `code`.
pub open spec fn compiled(t: Sexp, code: Sexp) -> Result<Sexp, RuntimeErrView>
    decreases t,
{
    match t {
        Sexp::Atom(a) => compile_atom(a, code),
        Sexp::Pair(head, args) => match *head {
            Sexp::Atom(AtomView::Symbol(name)) => {
                if name == "quote"@ {
                    match *args {
                        Sexp::Pair(x, _) => Ok(load_constant(*x, code)),
                        Sexp::Atom(a) => Err(not_a_pair("car"@, a)),
                    }
                } else if name == "if"@ {
                    match args_error(*args, "compile"@, 2, 3) {
                        Some(e) => Err(e),
                        None => match *args {
                            Sexp::Pair(test, r1) => match *r1 {
                                Sexp::Pair(then, r2) => {
                                    let else_code = match *r2 {
                                        Sexp::Pair(e, _) => compiled(*e, join_code()),
                                        Sexp::Atom(_) => compile_atom(
                                            AtomView::Symbol("nil"@),
                                            join_code(),
                                        ),
                                    };
                                    match (compiled(*test, nil()), compiled(*then, join_code())) {
                                        (Err(e), _) => Err(e),
                                        (Ok(_), Err(e)) => Err(e),
                                        (Ok(tc), Ok(thc)) => match else_code {
                                            Err(e) => Err(e),
                                            Ok(ec) => Ok(
                                                cons(
                                                    first_of(tc),
                                                    cons(list3(symbol("sel"@), thc, ec), code),
                                                ),
                                            ),
                                        },
                                    }
                                },
                                Sexp::Atom(_) => Err(RuntimeErrView::InvalidReference),
                            },
                            Sexp::Atom(_) => Err(RuntimeErrView::InvalidReference),
                        },
                    }
                } else {
                    Err(RuntimeErrView::VoidFunction(name))
                }
            },
            other => Err(
                RuntimeErrView::WrongTypeArgument("compile"@, RuccoDataType::Symbol, actual_of(other)),
            ),
        },
    }
}

/// The first element of a pair.
pub open spec fn first_of(t: Sexp) -> Sexp {
    match t {
        Sexp::Pair(x, _) => *x,
        Sexp::Atom(_) => t,
    }
}

/// What the compiler's result promises: the code it built, or its error.
pub open spec fn compiles_as(
    c: Result<Sexp, RuntimeErrView>,
    r: Result<RuccoExpRef, RuccoRuntimeErr>,
    arena: &RuccoArena,
) -> bool {
    match c {
        Ok(code) => r matches Ok(h) && arena.finite(h) && arena.term(h) == code,
        Err(e) => r matches Err(x) && x@ == e,
    }
}

/// Lowers the expression `exp` to an instruction list that ends in `(stop)`.
pub fn compile(exp: &RuccoExpRef, arena: &mut RuccoArena) -> (r: Result<RuccoExpRef, RuccoRuntimeErr>)
    requires
        old(arena).wf(),
        *exp < old(arena).nodes().len() ==> old(arena).finite(*exp),
    ensures
        final(arena).grows_from(old(arena)),
        *exp >= old(arena).nodes().len() ==> (r matches Err(e) && e@ == RuntimeErrView::InvalidReference),
        *exp < old(arena).nodes().len() ==> compiles_as(
            compiled(old(arena).term(*exp), stop_code()),
            r,
            final(arena),
        ),
{
    let ghost a0 = *arena;
    proof {
        arena.lemma_grows_refl();
    }
    if *exp >= arena.nodes_len() {
        return Err(RuccoRuntimeErr::InvalidReference);
    }
    let stop = arena.alloc_symbol("stop");
    let ghost a1 = *arena;
    let stop_code = alloc_list1(arena, stop);
    let ghost a2 = *arena;
    let code = alloc_list1(arena, stop_code);
    let ghost a3 = *arena;
    proof {
        RuccoArena::lemma_grows_trans(&a0, &a1, &a2);
        RuccoArena::lemma_grows_trans(&a0, &a2, &a3);
    }
    let r = comp(*exp, arena, code, Ghost(a3.term(*exp)));
    proof {
        RuccoArena::lemma_grows_trans(&a0, &a3, arena);
    }
    r
}

fn alloc_list1(arena: &mut RuccoArena, a: RuccoExpRef) -> (r: RuccoExpRef)
    requires
        old(arena).wf(),
        old(arena).finite(a),
    ensures
        final(arena).grows_from(old(arena)),
        final(arena).finite(r),
        final(arena).term(r) == list1(old(arena).term(a)),
{
    let mut v: Vec<RuccoExpRef> = Vec::new();
    v.push(a);
    proof {
        assert(arena.terms(v@) =~= seq![arena.term(a)]);
        lemma_list_of_small(arena.term(a), arena.term(a), arena.term(a));
    }
    arena.alloc_list(v)
}

/// Builds `(ldc value)` in front of `code`.
fn emit_load(arena: &mut RuccoArena, value: RuccoExpRef, code: RuccoExpRef) -> (r: RuccoExpRef)
    requires
        old(arena).wf(),
        old(arena).finite(value),
        old(arena).finite(code),
    ensures
        final(arena).grows_from(old(arena)),
        final(arena).finite(r),
        final(arena).term(r) == load_constant(old(arena).term(value), old(arena).term(code)),
{
    let ghost a0 = *arena;
    let ldc = arena.alloc_symbol("ldc");
    let ghost a1 = *arena;
    let mut v: Vec<RuccoExpRef> = Vec::new();
    v.push(ldc);
    v.push(value);
    proof {
        assert(a1.finite(value));
        assert(a1.all_finite(v@));
        assert(a1.terms(v@) =~= seq![symbol("ldc"@), a0.term(value)]);
        lemma_list_of_small(symbol("ldc"@), a0.term(value), a0.term(value));
    }
    let instr = arena.alloc_list(v);
    let ghost a2 = *arena;
    proof {
        RuccoArena::lemma_grows_trans(&a0, &a1, &a2);
    }
    let r = arena.alloc_cons(instr, code);
    proof {
        RuccoArena::lemma_grows_trans(&a0, &a2, arena);
    }
    r
}

/// How the head of a form directs its compilation.
enum Head {
    Quote,
    If,
    Unknown(String),
}

fn comp(
    exp: RuccoExpRef,
    arena: &mut RuccoArena,
    code: RuccoExpRef,
    Ghost(t): Ghost<Sexp>,
) -> (r: Result<RuccoExpRef, RuccoRuntimeErr>)
    requires
        old(arena).wf(),
        old(arena).finite(exp),
        old(arena).finite(code),
        old(arena).term(exp) == t,
    ensures
        final(arena).grows_from(old(arena)),
        compiles_as(compiled(t, old(arena).term(code)), r, final(arena)),
    decreases t, 1int,
{
    let ghost a0 = *arena;
    proof {
        arena.lemma_grows_refl();
        arena.lemma_node_term(exp);
    }
    let (car, cdr) = match arena.get(exp) {
        Ok(RuccoExp::Atom(a)) => {
            if let RuccoAtom::Symbol(name) = a {
                if !is_symbol_named(a, "t") && !is_symbol_named(a, "nil") {
                    return Err(RuccoRuntimeErr::VoidVariable { name: name.clone() });
                }
            }
            return Ok(emit_load(arena, exp, code));
        },
        Ok(RuccoExp::Cons { car, cdr }) => (*car, *cdr),
        Err(e) => {
            return Err(e);
        },
    };
    proof {
        arena.lemma_node_term(car);
        arena.lemma_node_term(cdr);
    }
    let head = match arena.get(car) {
        Ok(RuccoExp::Atom(a)) => match a {
            RuccoAtom::Symbol(name) => {
                if is_symbol_named(a, "quote") {
                    Head::Quote
                } else if is_symbol_named(a, "if") {
                    Head::If
                } else {
                    Head::Unknown(name.clone())
                }
            },
            _ => {
                return Err(
                    RuccoRuntimeErr::WrongTypeArgument {
                        name: String::from_str("compile"),
                        expected: RuccoDataType::Symbol,
                        actual: arena.actual_data_type(car),
                    },
                );
            },
        },
        Ok(RuccoExp::Cons { .. }) => {
            return Err(
                RuccoRuntimeErr::WrongTypeArgument {
                    name: String::from_str("compile"),
                    expected: RuccoDataType::Symbol,
                    actual: arena.actual_data_type(car),
                },
            );
        },
        Err(e) => {
            return Err(e);
        },
    };
    match head {
        Head::Unknown(name) => Err(RuccoRuntimeErr::VoidFunction { name }),
        Head::Quote => {
            let datum = match arena.get(cdr) {
                Ok(node) => match node.car_weak() {
                    Ok(h) => h,
                    Err(e) => {
                        return Err(e);
                    },
                },
                Err(e) => {
                    return Err(e);
                },
            };
            Ok(emit_load(arena, datum, code))
        },
        Head::If => comp_if(cdr, arena, code, Ghost(t)),
    }
}

/// Every code the compiler builds is a pair: an instruction in front of
/// the rest.
proof fn lemma_compiled_pair(t: Sexp, code: Sexp)
    ensures
        compiled(t, code) matches Ok(c) ==> c is Pair,
{
}

fn alloc_list3(arena: &mut RuccoArena, a: RuccoExpRef, b: RuccoExpRef, c: RuccoExpRef) -> (r: RuccoExpRef)
    requires
        old(arena).wf(),
        old(arena).finite(a),
        old(arena).finite(b),
        old(arena).finite(c),
    ensures
        final(arena).grows_from(old(arena)),
        final(arena).finite(r),
        final(arena).term(r) == list3(old(arena).term(a), old(arena).term(b), old(arena).term(c)),
{
    let mut v: Vec<RuccoExpRef> = Vec::new();
    v.push(a);
    v.push(b);
    v.push(c);
    proof {
        assert(arena.terms(v@) =~= seq![arena.term(a), arena.term(b), arena.term(c)]);
        lemma_list_of_small(arena.term(a), arena.term(b), arena.term(c));
    }
    arena.alloc_list(v)
}

fn comp_if(
    args: RuccoExpRef,
    arena: &mut RuccoArena,
    code: RuccoExpRef,
    Ghost(t): Ghost<Sexp>,
) -> (r: Result<RuccoExpRef, RuccoRuntimeErr>)
    requires
        old(arena).wf(),
        old(arena).finite(args),
        old(arena).finite(code),
        t == cons(symbol("if"@), old(arena).term(args)),
    ensures
        final(arena).grows_from(old(arena)),
        compiles_as(compiled(t, old(arena).term(code)), r, final(arena)),
    decreases t, 0int,
{
    let ghost a0 = *arena;
    let ghost at = a0.term(args);
    let ghost ct = a0.term(code);
    proof {
        reveal_strlit("if");
        reveal_strlit("quote");
        assert("if"@.len() != "quote"@.len());
    }
    let nil_h = arena.alloc_symbol("nil");
    let ghost a1 = *arena;
    proof {
        a1.lemma_node_term(nil_h);
    }
    let argv = match arena.extract_args(args, "compile", 2, 3, nil_h) {
        Ok(v) => v,
        Err(e) => {
            return Err(e);
        },
    };
    let ghost items = items_of(at)->0;
    proof {
        assert(args_padded(&a1, argv@, items, 3, nil_h));
        assert(at is Pair);
        let r1 = *at->Pair_1;
        assert(items == seq![*at->Pair_0] + items_of(r1)->0);
        assert(r1 is Pair);
        let r2 = *r1->Pair_1;
        assert(items_of(r1)->0 == seq![*r1->Pair_0] + items_of(r2)->0);
        assert(items[0] == *at->Pair_0);
        assert(items[1] == *r1->Pair_0);
        assert(argv@.subrange(0, items.len() as int)[0] == argv@[0]);
        assert(argv@.subrange(0, items.len() as int)[1] == argv@[1]);
        assert(a1.finite(argv@[0]));
        assert(a1.finite(argv@[1]));
        assert(a1.term(argv@[0]) == *at->Pair_0);
        assert(a1.term(argv@[1]) == *r1->Pair_0);
        if argv@[2] != nil_h {
            assert(items.len() == 3);
            assert(argv@.subrange(0, items.len() as int)[2] == argv@[2]);
            assert(r2 is Pair);
            assert(items[2] == *r2->Pair_0);
            assert(a1.term(argv@[2]) == *r2->Pair_0);
        } else if items.len() == 3 {
            assert(argv@.subrange(0, items.len() as int)[2] == argv@[2]);
            assert(r2 is Pair);
            assert(items[2] == *r2->Pair_0);
        } else {
            assert(r2 is Atom);
        }
        assert(decreases_to!(t => t->Pair_1));
        assert(decreases_to!(at => at->Pair_0));
        assert(decreases_to!(at => at->Pair_1));
        assert(decreases_to!(r1 => r1->Pair_0));
        assert(decreases_to!(r1 => r1->Pair_1));
    }
    let join = arena.alloc_symbol("join");
    let ghost a2 = *arena;
    let join_exp = alloc_list1(arena, join);
    let ghost a3 = *arena;
    let join_h = alloc_list1(arena, join_exp);
    let ghost a4 = *arena;
    proof {
        RuccoArena::lemma_grows_trans(&a0, &a1, &a2);
        RuccoArena::lemma_grows_trans(&a0, &a2, &a3);
        RuccoArena::lemma_grows_trans(&a0, &a3, &a4);
        RuccoArena::lemma_grows_trans(&a1, &a2, &a3);
        RuccoArena::lemma_grows_trans(&a1, &a3, &a4);
        assert(a4.term(join_h) == join_code());
    }
    let test_code = match comp(argv[0], arena, nil_h, Ghost(a4.term(argv[0]))) {
        Ok(h) => h,
        Err(e) => {
            proof {
                RuccoArena::lemma_grows_trans(&a0, &a4, arena);
            }
            return Err(e);
        },
    };
    let ghost a5 = *arena;
    proof {
        RuccoArena::lemma_grows_trans(&a0, &a4, &a5);
        RuccoArena::lemma_grows_trans(&a1, &a4, &a5);
    }
    let then_code = match comp(argv[1], arena, join_h, Ghost(a5.term(argv[1]))) {
        Ok(h) => h,
        Err(e) => {
            proof {
                RuccoArena::lemma_grows_trans(&a0, &a5, arena);
            }
            return Err(e);
        },
    };
    let ghost a6 = *arena;
    proof {
        RuccoArena::lemma_grows_trans(&a0, &a5, &a6);
        RuccoArena::lemma_grows_trans(&a1, &a5, &a6);
        RuccoArena::lemma_grows_trans(&a4, &a5, &a6);
    }
    let else_code = if argv[2] == nil_h {
        emit_load(arena, nil_h, join_h)
    } else {
        match comp(argv[2], arena, join_h, Ghost(a6.term(argv[2]))) {
            Ok(h) => h,
            Err(e) => {
                proof {
                    RuccoArena::lemma_grows_trans(&a0, &a6, arena);
                }
                return Err(e);
            },
        }
    };
    let ghost a7 = *arena;
    proof {
        RuccoArena::lemma_grows_trans(&a0, &a6, &a7);
        lemma_compiled_pair(a4.term(argv@[0]), nil());
        a7.lemma_node_term(test_code);
    }
    let first = match arena.get(test_code) {
        Ok(node) => match node.car_weak() {
            Ok(h) => h,
            Err(e) => {
                return Err(e);
            },
        },
        Err(e) => {
            return Err(e);
        },
    };
    let sel = arena.alloc_symbol("sel");
    let ghost a8 = *arena;
    let sel_body = alloc_list3(arena, sel, then_code, else_code);
    let ghost a9 = *arena;
    let rest = arena.alloc_cons(sel_body, code);
    let ghost a10 = *arena;
    proof {
        RuccoArena::lemma_grows_trans(&a0, &a7, &a8);
        RuccoArena::lemma_grows_trans(&a0, &a8, &a9);
        RuccoArena::lemma_grows_trans(&a7, &a8, &a9);
        RuccoArena::lemma_grows_trans(&a0, &a9, &a10);
        RuccoArena::lemma_grows_trans(&a7, &a9, &a10);
    }
    let r = arena.alloc_cons(first, rest);
    proof {
        RuccoArena::lemma_grows_trans(&a0, &a10, arena);
        RuccoArena::lemma_grows_trans(&a7, &a10, arena);
    }
    Ok(r)
}

} // verus!
