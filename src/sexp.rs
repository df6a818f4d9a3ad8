use vstd::prelude::*;

use crate::atom::{atom_text, AtomView};

verus! {

/// The mathematical value of an expression: a finite tree of cons cells.
pub enum Sexp {
    Atom(AtomView),
    Pair(Box<Sexp>, Box<Sexp>),
}

pub open spec fn symbol(name: Seq<char>) -> Sexp {
    Sexp::Atom(AtomView::Symbol(name))
}

pub open spec fn nil() -> Sexp {
    symbol("nil"@)
}

pub open spec fn cons(x: Sexp, y: Sexp) -> Sexp {
    Sexp::Pair(Box::new(x), Box::new(y))
}

/// The chain of pairs holding `items` in order and ending in `tail`.
pub open spec fn list_with_tail(items: Seq<Sexp>, tail: Sexp) -> Sexp
    decreases items.len(),
{
    if items.len() == 0 {
        tail
    } else {
        cons(items[0], list_with_tail(items.drop_first(), tail))
    }
}

/// The proper list of `items`, ending in `nil`.
pub open spec fn list_of(items: Seq<Sexp>) -> Sexp {
    list_with_tail(items, nil())
}

pub open spec fn list1(a: Sexp) -> Sexp {
    cons(a, nil())
}

pub open spec fn list2(a: Sexp, b: Sexp) -> Sexp {
    cons(a, cons(b, nil()))
}

pub open spec fn list3(a: Sexp, b: Sexp, c: Sexp) -> Sexp {
    cons(a, cons(b, cons(c, nil())))
}

/// Printed form: `(e1 e2 ... en)` for a proper list, `(e1 ... . x)` for a
/// dotted one.
pub open spec fn render(t: Sexp) -> Seq<char>
    decreases t,
{
    match t {
        Sexp::Atom(a) => atom_text(a),
        Sexp::Pair(x, y) => seq!['('] + render(*x) + render_tail(*y) + seq![')'],
    }
}

/// Printed form of what follows the first element of a list.
pub open spec fn render_tail(t: Sexp) -> Seq<char>
    decreases t,
{
    match t {
        Sexp::Atom(a) => if t == nil() {
            Seq::empty()
        } else {
            seq![' ', '.', ' '] + atom_text(a)
        },
        Sexp::Pair(x, y) => seq![' '] + render(*x) + render_tail(*y),
    }
}

/// The elements of a proper list (`nil` is the empty list), or `None` when the
/// chain ends in another atom.
pub open spec fn items_of(t: Sexp) -> Option<Seq<Sexp>>
    decreases t,
{
    match t {
        Sexp::Atom(_) => if t == nil() {
            Some(Seq::empty())
        } else {
            None
        },
        Sexp::Pair(x, y) => match items_of(*y) {
            Some(rest) => Some(seq![*x] + rest),
            None => None,
        },
    }
}

/// The atom that ends a chain of pairs.
pub open spec fn tail_atom(t: Sexp) -> AtomView
    decreases t,
{
    match t {
        Sexp::Atom(a) => a,
        Sexp::Pair(_, y) => tail_atom(*y),
    }
}

/// A list built in two steps is the list of both parts.
pub proof fn lemma_list_append(a: Seq<Sexp>, b: Seq<Sexp>, tail: Sexp)
    ensures
        list_with_tail(a + b, tail) == list_with_tail(a, list_with_tail(b, tail)),
    decreases a.len(),
{
    if a.len() > 0 {
        assert((a + b).drop_first() =~= a.drop_first() + b);
        lemma_list_append(a.drop_first(), b, tail);
    } else {
        assert(a + b =~= b);
    }
}

pub proof fn lemma_list_of_small(a: Sexp, b: Sexp, c: Sexp)
    ensures
        list_of(seq![a]) == list1(a),
        list_of(seq![a, b]) == list2(a, b),
        list_of(seq![a, b, c]) == list3(a, b, c),
{
    assert(seq![a].drop_first() =~= Seq::<Sexp>::empty());
    assert(seq![a, b].drop_first() =~= seq![b]);
    assert(seq![b].drop_first() =~= Seq::<Sexp>::empty());
    assert(seq![a, b, c].drop_first() =~= seq![b, c]);
    assert(seq![b, c].drop_first() =~= seq![c]);
    assert(seq![c].drop_first() =~= Seq::<Sexp>::empty());
    assert(list_with_tail(Seq::<Sexp>::empty(), nil()) == nil());
    assert(list_of(seq![c]) == list1(c));
    assert(list_of(seq![b]) == list1(b));
    assert(list_of(seq![b, c]) == list2(b, c));
}

} // verus!
