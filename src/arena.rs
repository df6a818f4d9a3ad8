use vstd::prelude::*;

use crate::atom::{is_symbol_named, string_from_chars, AtomView, RuccoAtom};
use crate::error::{
    actual_of, not_a_pair, RuccoActualDataType, RuccoDataType, RuccoRuntimeErr, RuntimeErrView,
};
use crate::sexp::{
    cons, items_of, list_of, list_with_tail, nil, render, render_tail, symbol, tail_atom, Sexp,
};

verus! {

/// A handle to a node of a `RuccoArena`: the node's index.
pub type RuccoExpRef = usize;

/// A node: an atom, or a cons cell whose fields are handles.
#[derive(Debug, Clone, PartialEq, Eq)]
pub enum RuccoExp {
    Atom(RuccoAtom),
    Cons { car: RuccoExpRef, cdr: RuccoExpRef },
}

impl RuccoExp {
    /// A symbol node with the given name (not interned).
    pub fn new_symbol(e: &str) -> (r: RuccoExp)
        ensures
            r matches RuccoExp::Atom(a) && a@ == AtomView::Symbol(e@),
    {
        RuccoExp::Atom(RuccoAtom::new_symbol(e))
    }

    /// Whether this node is an atom.
    pub fn is_atom(&self) -> (r: bool)
        ensures
            r == self is Atom,
    {
        match self {
            RuccoExp::Atom(_) => true,
            RuccoExp::Cons { .. } => false,
        }
    }

    /// Whether this node is a pair.
    pub fn is_cons(&self) -> (r: bool)
        ensures
            r == self is Cons,
    {
        !self.is_atom()
    }

    /// Whether this node is an integer atom.
    pub fn is_int(&self) -> (r: bool)
        ensures
            r == (self matches RuccoExp::Atom(a) && a is Int),
    {
        match self {
            RuccoExp::Atom(RuccoAtom::Int(_)) => true,
            _ => false,
        }
    }

    /// Whether this node is a symbol atom.
    pub fn is_symbol(&self) -> (r: bool)
        ensures
            r == (self matches RuccoExp::Atom(a) && a is Symbol),
    {
        match self {
            RuccoExp::Atom(RuccoAtom::Symbol(_)) => true,
            _ => false,
        }
    }

    /// The handle in the first field of a pair.
    pub fn car_weak(&self) -> (r: Result<RuccoExpRef, RuccoRuntimeErr>)
        ensures
            self matches RuccoExp::Cons { car, .. } ==> (r matches Ok(x) && x == car),
            self matches RuccoExp::Atom(a) ==> (r matches Err(e) && e@ == not_a_pair("car"@, a@)),
    {
        match self {
            RuccoExp::Atom(a) => Err(RuccoRuntimeErr::not_a_pair("car", a)),
            RuccoExp::Cons { car, .. } => Ok(*car),
        }
    }

    /// The handle in the second field of a pair.
    pub fn cdr_weak(&self) -> (r: Result<RuccoExpRef, RuccoRuntimeErr>)
        ensures
            self matches RuccoExp::Cons { cdr, .. } ==> (r matches Ok(x) && x == cdr),
            self matches RuccoExp::Atom(a) ==> (r matches Err(e) && e@ == not_a_pair("cdr"@, a@)),
    {
        match self {
            RuccoExp::Atom(a) => Err(RuccoRuntimeErr::not_a_pair("cdr", a)),
            RuccoExp::Cons { cdr, .. } => Ok(*cdr),
        }
    }

    /// The node in the first field of a pair, resolved in `arena`.
    pub fn car<'a>(&self, arena: &'a RuccoArena) -> (r: Result<&'a RuccoExp, RuccoRuntimeErr>)
        ensures
            self matches RuccoExp::Atom(a) ==> (r matches Err(e) && e@ == not_a_pair("car"@, a@)),
            self matches RuccoExp::Cons { car, .. } ==> {
                &&& car < arena.nodes().len() ==> (r matches Ok(x) && *x == arena.nodes()[car as int])
                &&& car >= arena.nodes().len() ==> (r matches Err(e) && e@
                    == RuntimeErrView::InvalidReference)
            },
    {
        match self.car_weak() {
            Ok(h) => arena.get(h),
            Err(e) => Err(e),
        }
    }

    /// The node in the second field of a pair, resolved in `arena`.
    pub fn cdr<'a>(&self, arena: &'a RuccoArena) -> (r: Result<&'a RuccoExp, RuccoRuntimeErr>)
        ensures
            self matches RuccoExp::Atom(a) ==> (r matches Err(e) && e@ == not_a_pair("cdr"@, a@)),
            self matches RuccoExp::Cons { cdr, .. } ==> {
                &&& cdr < arena.nodes().len() ==> (r matches Ok(x) && *x == arena.nodes()[cdr as int])
                &&& cdr >= arena.nodes().len() ==> (r matches Err(e) && e@
                    == RuntimeErrView::InvalidReference)
            },
    {
        match self.cdr_weak() {
            Ok(h) => arena.get(h),
            Err(e) => Err(e),
        }
    }

    /// Replaces the first field of this pair.
    pub fn setcar(&mut self, car: RuccoExpRef) -> (r: Result<RuccoExpRef, RuccoRuntimeErr>)
        ensures
            *old(self) matches RuccoExp::Cons { cdr, .. } ==> (r matches Ok(x) && x == car
                && *final(self) == RuccoExp::Cons { car, cdr }),
            *old(self) matches RuccoExp::Atom(a) ==> (r matches Err(e) && e@ == not_a_pair(
                "setcar"@,
                a@,
            ) && *final(self) == *old(self)),
    {
        let cdr = match self {
            RuccoExp::Atom(a) => {
                return Err(RuccoRuntimeErr::not_a_pair("setcar", a));
            },
            RuccoExp::Cons { cdr, .. } => *cdr,
        };
        *self = RuccoExp::Cons { car, cdr };
        Ok(car)
    }

    /// Replaces the second field of this pair.
    pub fn setcdr(&mut self, cdr: RuccoExpRef) -> (r: Result<RuccoExpRef, RuccoRuntimeErr>)
        ensures
            *old(self) matches RuccoExp::Cons { car, .. } ==> (r matches Ok(x) && x == cdr
                && *final(self) == RuccoExp::Cons { car, cdr }),
            *old(self) matches RuccoExp::Atom(a) ==> (r matches Err(e) && e@ == not_a_pair(
                "setcdr"@,
                a@,
            ) && *final(self) == *old(self)),
    {
        let car = match self {
            RuccoExp::Atom(a) => {
                return Err(RuccoRuntimeErr::not_a_pair("setcdr", a));
            },
            RuccoExp::Cons { car, .. } => *car,
        };
        *self = RuccoExp::Cons { car, cdr };
        Ok(cdr)
    }
}

/// The value of handle `h` among `nodes`, unfolded at most `fuel` levels deep;
/// `None` when a handle on the way is dangling or the fuel runs out (which a
/// cycle always does).
pub open spec fn term_at(nodes: Seq<RuccoExp>, h: int, fuel: nat) -> Option<Sexp>
    decreases fuel,
{
    if fuel == 0 || h < 0 || h >= nodes.len() {
        None
    } else {
        match nodes[h] {
            RuccoExp::Atom(a) => Some(Sexp::Atom(a@)),
            RuccoExp::Cons { car, cdr } => {
                let x = term_at(nodes, car as int, (fuel - 1) as nat);
                let y = term_at(nodes, cdr as int, (fuel - 1) as nat);
                if x is Some && y is Some {
                    Some(cons(x->0, y->0))
                } else {
                    None
                }
            },
        }
    }
}

/// The handle interned under `name`, searching from the latest entry.
pub open spec fn lookup(table: Seq<(String, RuccoExpRef)>, name: Seq<char>) -> Option<RuccoExpRef>
    decreases table.len(),
{
    if table.len() == 0 {
        None
    } else if table.last().0@ == name {
        Some(table.last().1)
    } else {
        lookup(table.drop_last(), name)
    }
}

proof fn lemma_fuel_mono(nodes: Seq<RuccoExp>, h: int, f1: nat, f2: nat)
    requires
        term_at(nodes, h, f1) is Some,
        f1 <= f2,
    ensures
        term_at(nodes, h, f2) == term_at(nodes, h, f1),
    decreases f1,
{
    if let RuccoExp::Cons { car, cdr } = nodes[h] {
        lemma_fuel_mono(nodes, car as int, (f1 - 1) as nat, (f2 - 1) as nat);
        lemma_fuel_mono(nodes, cdr as int, (f1 - 1) as nat, (f2 - 1) as nat);
    }
}

proof fn lemma_prefix(nodes: Seq<RuccoExp>, more: Seq<RuccoExp>, h: int, f: nat)
    requires
        term_at(nodes, h, f) is Some,
        nodes.len() <= more.len(),
        forall|i: int| 0 <= i < nodes.len() ==> more[i] == nodes[i],
    ensures
        term_at(more, h, f) == term_at(nodes, h, f),
    decreases f,
{
    if let RuccoExp::Cons { car, cdr } = nodes[h] {
        lemma_prefix(nodes, more, car as int, (f - 1) as nat);
        lemma_prefix(nodes, more, cdr as int, (f - 1) as nat);
    }
}

/// The error of walking `t` as a proper list when it is not one.
pub open spec fn walk_error(t: Sexp) -> RuntimeErrView {
    not_a_pair(
        if t is Atom {
            "into_iter"@
        } else {
            "iter"@
        },
        tail_atom(t),
    )
}

/// Why the argument form `t` does not fit `min` to `max` arguments, if it does not.
pub open spec fn args_error(t: Sexp, name: Seq<char>, min: usize, max: usize) -> Option<
    RuntimeErrView,
> {
    match items_of(t) {
        None => Some(walk_error(t)),
        Some(items) => if min <= items.len() <= max {
            None
        } else {
            Some(RuntimeErrView::WrongNumberOfArguments(name, (min, max), items.len()))
        },
    }
}

/// `v` holds handles of `items`, then `pad` up to `max` entries.
pub open spec fn args_padded(
    arena: &RuccoArena,
    v: Seq<RuccoExpRef>,
    items: Seq<Sexp>,
    max: usize,
    pad: RuccoExpRef,
) -> bool {
    &&& v.len() == max
    &&& items.len() <= max
    &&& arena.all_finite(v.subrange(0, items.len() as int))
    &&& arena.terms(v.subrange(0, items.len() as int)) == items
    &&& forall|i: int| items.len() <= i < max ==> v[i] == pad
}

/// Every pair that `h` reaches within `fuel` levels lies in `[lo, hi)`.
pub open spec fn within_at(nodes: Seq<RuccoExp>, h: int, fuel: nat, lo: int, hi: int) -> bool
    decreases fuel,
{
    if fuel == 0 || h < 0 || h >= nodes.len() {
        false
    } else {
        match nodes[h] {
            RuccoExp::Atom(_) => true,
            RuccoExp::Cons { car, cdr } => {
                &&& lo <= h < hi
                &&& within_at(nodes, car as int, (fuel - 1) as nat, lo, hi)
                &&& within_at(nodes, cdr as int, (fuel - 1) as nat, lo, hi)
            },
        }
    }
}

proof fn lemma_within_term(nodes: Seq<RuccoExp>, h: int, f: nat, lo: int, hi: int)
    requires
        within_at(nodes, h, f, lo, hi),
    ensures
        term_at(nodes, h, f) is Some,
    decreases f,
{
    if let RuccoExp::Cons { car, cdr } = nodes[h] {
        lemma_within_term(nodes, car as int, (f - 1) as nat, lo, hi);
        lemma_within_term(nodes, cdr as int, (f - 1) as nat, lo, hi);
    }
}

proof fn lemma_within_frame(
    nodes: Seq<RuccoExp>,
    more: Seq<RuccoExp>,
    h: int,
    f: nat,
    lo: int,
    hi: int,
)
    requires
        within_at(nodes, h, f, lo, hi),
        nodes.len() <= more.len(),
        forall|i: int|
            0 <= i < nodes.len() && (lo <= i < hi || nodes[i] is Atom) ==> more[i] == nodes[i],
    ensures
        within_at(more, h, f, lo, hi),
        term_at(more, h, f) == term_at(nodes, h, f),
    decreases f,
{
    if let RuccoExp::Cons { car, cdr } = nodes[h] {
        lemma_within_frame(nodes, more, car as int, (f - 1) as nat, lo, hi);
        lemma_within_frame(nodes, more, cdr as int, (f - 1) as nat, lo, hi);
    }
}

proof fn lemma_within_widen(
    nodes: Seq<RuccoExp>,
    h: int,
    f: nat,
    lo: int,
    hi: int,
    lo2: int,
    hi2: int,
)
    requires
        within_at(nodes, h, f, lo, hi),
        lo2 <= lo,
        hi <= hi2,
    ensures
        within_at(nodes, h, f, lo2, hi2),
    decreases f,
{
    if let RuccoExp::Cons { car, cdr } = nodes[h] {
        lemma_within_widen(nodes, car as int, (f - 1) as nat, lo, hi, lo2, hi2);
        lemma_within_widen(nodes, cdr as int, (f - 1) as nat, lo, hi, lo2, hi2);
    }
}

proof fn lemma_within_fuel(nodes: Seq<RuccoExp>, h: int, f1: nat, f2: nat, lo: int, hi: int)
    requires
        within_at(nodes, h, f1, lo, hi),
        f1 <= f2,
    ensures
        within_at(nodes, h, f2, lo, hi),
    decreases f1,
{
    if let RuccoExp::Cons { car, cdr } = nodes[h] {
        lemma_within_fuel(nodes, car as int, (f1 - 1) as nat, (f2 - 1) as nat, lo, hi);
        lemma_within_fuel(nodes, cdr as int, (f1 - 1) as nat, (f2 - 1) as nat, lo, hi);
    }
}

/// The owner of every node of a session. Nodes are only ever appended; a
/// handle is valid while it is below the number of nodes.
pub struct RuccoArena {
    arena: Vec<RuccoExp>,
    symbols: Vec<(String, RuccoExpRef)>,
}

impl RuccoArena {
    /// The nodes, in order of allocation.
    pub closed spec fn nodes(&self) -> Seq<RuccoExp> {
        self.arena@
    }

    /// The symbol table is sound: each entry names a symbol node of that name.
    pub closed spec fn wf(&self) -> bool {
        forall|i: int|
            0 <= i < self.symbols@.len() ==> {
                let (name, h) = #[trigger] self.symbols@[i];
                &&& h < self.arena@.len()
                &&& self.arena@[h as int] matches RuccoExp::Atom(RuccoAtom::Symbol(s))
                &&& s@ == name@
            }
    }

    /// Whether `h` is valid and what it reaches is a finite tree.
    pub closed spec fn finite(&self, h: RuccoExpRef) -> bool {
        exists|f: nat| (#[trigger] term_at(self.arena@, h as int, f)) is Some
    }

    /// The value of a finite handle.
    pub closed spec fn term(&self, h: RuccoExpRef) -> Sexp {
        let f = choose|f: nat| (#[trigger] term_at(self.arena@, h as int, f)) is Some;
        term_at(self.arena@, h as int, f)->0
    }

    /// The handle interned for the symbol `name`, if any.
    pub closed spec fn interned(&self, name: Seq<char>) -> Option<RuccoExpRef> {
        lookup(self.symbols@, name)
    }

    /// `self` holds every value and every interned symbol that `old` held.
    pub open spec fn grows_from(&self, old: &RuccoArena) -> bool {
        &&& self.wf()
        &&& self.keeps_nodes_of(old)
        &&& forall|h: RuccoExpRef| #[trigger]
            old.finite(h) ==> self.finite(h) && self.term(h) == old.term(h)
        &&& forall|name: Seq<char>| #[trigger]
            old.interned(name) is Some ==> self.interned(name) == old.interned(name)
    }

    /// The nodes of `old` stand unchanged at the start of `self`.
    pub open spec fn keeps_nodes_of(&self, old: &RuccoArena) -> bool {
        &&& old.nodes().len() <= self.nodes().len()
        &&& forall|i: int| 0 <= i < old.nodes().len() ==> #[trigger] self.nodes()[i] == old.nodes()[i]
    }

    /// `self` differs from `old` at most in pairs outside `[lo, hi)`, and in
    /// nodes added at the end.
    pub open spec fn agrees_on(&self, old: &RuccoArena, lo: int, hi: int) -> bool {
        &&& old.nodes().len() <= self.nodes().len()
        &&& forall|i: int|
            0 <= i < old.nodes().len() && (lo <= i < hi || old.nodes()[i] is Atom)
                ==> #[trigger] self.nodes()[i] == old.nodes()[i]
    }

    /// Every pair that `h` reaches lies in `[lo, hi)`, and what it reaches
    /// is a finite tree.
    pub closed spec fn confined(&self, h: RuccoExpRef, lo: int, hi: int) -> bool {
        exists|f: nat| #[trigger] within_at(self.arena@, h as int, f, lo, hi)
    }

    pub open spec fn all_finite(&self, hs: Seq<RuccoExpRef>) -> bool {
        forall|i: int| 0 <= i < hs.len() ==> self.finite(#[trigger] hs[i])
    }

    /// The values of the handles `hs`.
    pub open spec fn terms(&self, hs: Seq<RuccoExpRef>) -> Seq<Sexp> {
        hs.map_values(|h: RuccoExpRef| self.term(h))
    }

    proof fn lemma_term_is(&self, h: RuccoExpRef, f: nat)
        requires
            term_at(self.arena@, h as int, f) is Some,
        ensures
            self.finite(h),
            self.term(h) == term_at(self.arena@, h as int, f)->0,
    {
        let g = choose|g: nat| (#[trigger] term_at(self.arena@, h as int, g)) is Some;
        if f <= g {
            lemma_fuel_mono(self.arena@, h as int, f, g);
        } else {
            lemma_fuel_mono(self.arena@, h as int, g, f);
        }
    }

    proof fn lemma_fuel_of(&self, h: RuccoExpRef) -> (f: nat)
        requires
            self.finite(h),
        ensures
            term_at(self.arena@, h as int, f) is Some,
            self.term(h) == term_at(self.arena@, h as int, f)->0,
    {
        let f = choose|f: nat| (#[trigger] term_at(self.arena@, h as int, f)) is Some;
        f
    }

    /// What the value of a finite handle is made of.
    pub proof fn lemma_node_term(&self, h: RuccoExpRef)
        requires
            self.finite(h),
        ensures
            h < self.nodes().len(),
            self.nodes()[h as int] matches RuccoExp::Atom(a) ==> self.term(h) == Sexp::Atom(a@),
            self.nodes()[h as int] matches RuccoExp::Cons { car, cdr } ==> {
                &&& self.finite(car)
                &&& self.finite(cdr)
                &&& self.term(h) == cons(self.term(car), self.term(cdr))
            },
    {
        let f = self.lemma_fuel_of(h);
        if let RuccoExp::Cons { car, cdr } = self.arena@[h as int] {
            self.lemma_term_is(car, (f - 1) as nat);
            self.lemma_term_is(cdr, (f - 1) as nat);
        }
    }

    /// An arena that keeps the nodes of `old` as its first nodes, and its
    /// symbol entries, holds every value `old` held.
    proof fn lemma_extends(&self, old: &RuccoArena)
        requires
            old.arena@.len() <= self.arena@.len(),
            forall|i: int| 0 <= i < old.arena@.len() ==> self.arena@[i] == old.arena@[i],
        ensures
            forall|h: RuccoExpRef| #[trigger]
                old.finite(h) ==> self.finite(h) && self.term(h) == old.term(h),
    {
        assert forall|h: RuccoExpRef| #[trigger] old.finite(h) implies self.finite(h) && self.term(
            h,
        ) == old.term(h) by {
            let f = old.lemma_fuel_of(h);
            lemma_prefix(old.arena@, self.arena@, h as int, f);
            self.lemma_term_is(h, f);
        }
    }

    /// What a confined handle reaches is finite.
    pub proof fn lemma_confined_finite(&self, h: RuccoExpRef, lo: int, hi: int)
        requires
            self.confined(h, lo, hi),
        ensures
            self.finite(h),
    {
        let f = choose|f: nat| #[trigger] within_at(self.arena@, h as int, f, lo, hi);
        lemma_within_term(self.arena@, h as int, f, lo, hi);
        self.lemma_term_is(h, f);
    }

    /// A confined handle keeps its value while the pairs of its region and
    /// the atoms stay as they were.
    pub proof fn lemma_confined_frame(&self, old: &RuccoArena, h: RuccoExpRef, lo: int, hi: int)
        requires
            old.confined(h, lo, hi),
            self.agrees_on(old, lo, hi),
        ensures
            self.confined(h, lo, hi),
            self.finite(h),
            old.finite(h),
            self.term(h) == old.term(h),
    {
        let f = choose|f: nat| #[trigger] within_at(old.arena@, h as int, f, lo, hi);
        lemma_within_frame(old.arena@, self.arena@, h as int, f, lo, hi);
        lemma_within_term(old.arena@, h as int, f, lo, hi);
        old.lemma_term_is(h, f);
        self.lemma_term_is(h, f);
    }

    /// A region can be widened.
    pub proof fn lemma_confined_widen(&self, h: RuccoExpRef, lo: int, hi: int, lo2: int, hi2: int)
        requires
            self.confined(h, lo, hi),
            lo2 <= lo,
            hi <= hi2,
        ensures
            self.confined(h, lo2, hi2),
    {
        let f = choose|f: nat| #[trigger] within_at(self.arena@, h as int, f, lo, hi);
        lemma_within_widen(self.arena@, h as int, f, lo, hi, lo2, hi2);
    }

    /// A finite handle whose value is an atom is an atom node, which any
    /// region holds.
    pub proof fn lemma_atom_confined(&self, h: RuccoExpRef, lo: int, hi: int)
        requires
            self.finite(h),
            self.term(h) is Atom,
        ensures
            self.confined(h, lo, hi),
            self.nodes()[h as int] is Atom,
    {
        self.lemma_node_term(h);
        assert(within_at(self.arena@, h as int, 1, lo, hi));
    }

    /// A pair in `[lo, hi)` whose fields are confined there is confined too.
    pub proof fn lemma_cons_confined(&self, h: RuccoExpRef, lo: int, hi: int)
        requires
            h < self.nodes().len(),
            lo <= h < hi,
            self.nodes()[h as int] matches RuccoExp::Cons { car, cdr } && self.confined(car, lo, hi)
                && self.confined(cdr, lo, hi),
        ensures
            self.confined(h, lo, hi),
            self.finite(h),
            self.nodes()[h as int] matches RuccoExp::Cons { car, cdr } && self.term(h) == cons(
                self.term(car),
                self.term(cdr),
            ),
    {
        if let RuccoExp::Cons { car, cdr } = self.arena@[h as int] {
            let f1 = choose|f: nat| #[trigger] within_at(self.arena@, car as int, f, lo, hi);
            let f2 = choose|f: nat| #[trigger] within_at(self.arena@, cdr as int, f, lo, hi);
            let f = if f1 <= f2 {
                f2
            } else {
                f1
            };
            lemma_within_fuel(self.arena@, car as int, f1, f, lo, hi);
            lemma_within_fuel(self.arena@, cdr as int, f2, f, lo, hi);
            assert(within_at(self.arena@, h as int, f + 1, lo, hi));
            lemma_within_term(self.arena@, h as int, f + 1, lo, hi);
            self.lemma_term_is(h, f + 1);
            lemma_within_term(self.arena@, car as int, f, lo, hi);
            lemma_within_term(self.arena@, cdr as int, f, lo, hi);
            self.lemma_term_is(car, f);
            self.lemma_term_is(cdr, f);
        }
    }

    /// An arena that keeps the nodes and the symbol entries of `old` grows
    /// from it.
    pub proof fn lemma_grows_by_keeping(&self, old: &RuccoArena)
        requires
            self.wf(),
            self.keeps_nodes_of(old),
            forall|name: Seq<char>| #[trigger]
                old.interned(name) is Some ==> self.interned(name) == old.interned(name),
        ensures
            self.grows_from(old),
    {
        self.lemma_extends(old);
    }

    /// Growth is transitive.
    pub proof fn lemma_grows_trans(a: &RuccoArena, b: &RuccoArena, c: &RuccoArena)
        requires
            b.grows_from(a),
            c.grows_from(b),
        ensures
            c.grows_from(a),
    {
        assert forall|h: RuccoExpRef| #[trigger] a.finite(h) implies c.finite(h) && c.term(h)
            == a.term(h) by {
            assert(b.finite(h));
        }
        assert forall|name: Seq<char>| #[trigger] a.interned(name) is Some implies c.interned(name)
            == a.interned(name) by {
            assert(b.interned(name) is Some);
        }
    }

    /// A well-formed arena grows from itself.
    pub proof fn lemma_grows_refl(&self)
        requires
            self.wf(),
        ensures
            self.grows_from(self),
    {
        self.lemma_extends(self);
    }

    /// An empty arena.
    pub fn new() -> (r: RuccoArena)
        ensures
            r.wf(),
            r.nodes().len() == 0,
            forall|name: Seq<char>| #[trigger] r.interned(name) is None,
    {
        RuccoArena { arena: Vec::new(), symbols: Vec::new() }
    }

    /// Stores a new node and returns its handle.
    pub fn alloc_node(&mut self, exp: RuccoExp) -> (r: RuccoExpRef)
        requires
            old(self).wf(),
        ensures
            r == old(self).nodes().len(),
            final(self).nodes() == old(self).nodes().push(exp),
            final(self).grows_from(old(self)),
            forall|name: Seq<char>| #[trigger] final(self).interned(name) == old(self).interned(name),
            exp matches RuccoExp::Atom(a) ==> final(self).finite(r) && final(self).term(r)
                == Sexp::Atom(a@),
            exp matches RuccoExp::Cons { car, cdr } ==> (old(self).finite(car) && old(self).finite(
                cdr,
            ) ==> final(self).finite(r) && final(self).term(r) == cons(
                old(self).term(car),
                old(self).term(cdr),
            )),
    {
        let ghost before = *self;
        let ghost e = exp;
        let r = self.arena.len();
        self.arena.push(exp);
        proof {
            self.lemma_extends(&before);
            assert forall|i: int| 0 <= i < self.symbols@.len() implies {
                let (name, h) = #[trigger] self.symbols@[i];
                &&& h < self.arena@.len()
                &&& self.arena@[h as int] matches RuccoExp::Atom(RuccoAtom::Symbol(s))
                &&& s@ == name@
            } by {
                assert(before.symbols@[i] == self.symbols@[i]);
            }
            match e {
                RuccoExp::Atom(a) => {
                    self.lemma_term_is(r, 1);
                },
                RuccoExp::Cons { car, cdr } => {
                    if before.finite(car) && before.finite(cdr) {
                        let f1 = before.lemma_fuel_of(car);
                        let f2 = before.lemma_fuel_of(cdr);
                        let f = if f1 <= f2 { f2 } else { f1 };
                        lemma_fuel_mono(before.arena@, car as int, f1, f);
                        lemma_fuel_mono(before.arena@, cdr as int, f2, f);
                        lemma_prefix(before.arena@, self.arena@, car as int, f);
                        lemma_prefix(before.arena@, self.arena@, cdr as int, f);
                        self.lemma_term_is(r, f + 1);
                    }
                },
            }
        }
        r
    }

    /// Stores a new cons cell.
    pub fn alloc_cons(&mut self, car: RuccoExpRef, cdr: RuccoExpRef) -> (r: RuccoExpRef)
        requires
            old(self).wf(),
        ensures
            r == old(self).nodes().len(),
            final(self).nodes() == old(self).nodes().push(RuccoExp::Cons { car, cdr }),
            final(self).grows_from(old(self)),
            forall|name: Seq<char>| #[trigger] final(self).interned(name) == old(self).interned(name),
            old(self).finite(car) && old(self).finite(cdr) ==> final(self).finite(r)
                && final(self).term(r) == cons(old(self).term(car), old(self).term(cdr)),
    {
        self.alloc_node(RuccoExp::Cons { car, cdr })
    }

    /// The canonical node of the symbol `sym`, made on its first request;
    /// every later request returns that same handle and changes nothing.
    pub fn alloc_symbol(&mut self, sym: &str) -> (r: RuccoExpRef)
        requires
            old(self).wf(),
        ensures
            final(self).grows_from(old(self)),
            final(self).interned(sym@) == Some(r),
            final(self).finite(r),
            final(self).term(r) == symbol(sym@),
            old(self).interned(sym@) matches Some(h) ==> r == h && *final(self) == *old(self),
            old(self).interned(sym@) is None ==> r == old(self).nodes().len()
                && final(self).nodes().len() == old(self).nodes().len() + 1,
            forall|name: Seq<char>|
                name != sym@ ==> #[trigger] final(self).interned(name) == old(self).interned(name),
    {
        let name = String::from_str(sym);
        let mut i = self.symbols.len();
        proof {
            assert(self.symbols@.subrange(0, i as int) =~= self.symbols@);
        }
        while i > 0
            invariant
                self.wf(),
                i <= self.symbols@.len(),
                name@ == sym@,
                lookup(self.symbols@, sym@) == lookup(self.symbols@.subrange(0, i as int), sym@),
            decreases i,
        {
            let entry = &self.symbols[i - 1];
            if entry.0.eq(&name) {
                let h = entry.1;
                proof {
                    let t = self.symbols@.subrange(0, i as int);
                    assert(t.last() == self.symbols@[i - 1]);
                    assert(lookup(t, sym@) == Some(h));
                    let (n, hh) = self.symbols@[i - 1];
                    assert(self.arena@[hh as int] matches RuccoExp::Atom(RuccoAtom::Symbol(s)));
                    self.lemma_term_is(h, 1);
                    assert(self.interned(sym@) == Some(h));
                    self.lemma_extends(self);
                }
                return h;
            }
            proof {
                let t = self.symbols@.subrange(0, i as int);
                assert(t.drop_last() =~= self.symbols@.subrange(0, i - 1));
            }
            i = i - 1;
        }
        proof {
            assert(self.symbols@.subrange(0, 0) =~= Seq::<(String, RuccoExpRef)>::empty());
        }
        let ghost before = *self;
        let atom = RuccoAtom::Symbol(String::from_str(sym));
        let h = self.arena.len();
        self.arena.push(RuccoExp::Atom(atom));
        self.symbols.push((name, h));
        proof {
            assert(self.symbols@.drop_last() =~= before.symbols@);
            assert forall|j: int| 0 <= j < self.symbols@.len() implies {
                let (n, hh) = #[trigger] self.symbols@[j];
                &&& hh < self.arena@.len()
                &&& self.arena@[hh as int] matches RuccoExp::Atom(RuccoAtom::Symbol(s))
                &&& s@ == n@
            } by {
                if j < before.symbols@.len() {
                    assert(self.symbols@[j] == before.symbols@[j]);
                }
            }
            self.lemma_term_is(h, 1);
            self.lemma_extends(&before);
        }
        h
    }

    /// The number of nodes.
    pub fn nodes_len(&self) -> (r: usize)
        ensures
            r == self.nodes().len(),
    {
        self.arena.len()
    }

    /// Resolves a handle: the node, or `InvalidReference` when it is dangling.
    pub fn get(&self, h: RuccoExpRef) -> (r: Result<&RuccoExp, RuccoRuntimeErr>)
        ensures
            r is Ok <==> h < self.nodes().len(),
            r matches Ok(e) ==> *e == self.nodes()[h as int],
            r matches Err(e) ==> e@ == RuntimeErrView::InvalidReference,
    {
        if h < self.arena.len() {
            Ok(&self.arena[h])
        } else {
            Err(RuccoRuntimeErr::InvalidReference)
        }
    }

    /// Builds the proper list of `exps`, right to left, one cell per item.
    pub fn alloc_list(&mut self, exps: Vec<RuccoExpRef>) -> (r: RuccoExpRef)
        requires
            old(self).wf(),
        ensures
            final(self).grows_from(old(self)),
            old(self).all_finite(exps@) ==> final(self).finite(r) && final(self).term(r) == list_of(
                old(self).terms(exps@),
            ),
    {
        let ghost start = *self;
        let ghost items = start.terms(exps@);
        let mut lst = self.alloc_symbol("nil");
        let mut i = exps.len();
        proof {
            assert(items.subrange(i as int, i as int) =~= Seq::<Sexp>::empty());
        }
        while i > 0
            invariant
                self.grows_from(&start),
                i <= exps@.len(),
                items == start.terms(exps@),
                start.all_finite(exps@) ==> self.finite(lst) && self.term(lst) == list_with_tail(
                    items.subrange(i as int, exps@.len() as int),
                    nil(),
                ),
            decreases i,
        {
            let ghost mid = *self;
            let h = exps[i - 1];
            lst = self.alloc_cons(h, lst);
            proof {
                RuccoArena::lemma_grows_trans(&start, &mid, self);
                if start.all_finite(exps@) {
                    assert(start.finite(exps@[i - 1]));
                    let sub = items.subrange(i - 1, exps@.len() as int);
                    assert(sub.drop_first() =~= items.subrange(i as int, exps@.len() as int));
                    assert(sub[0] == items[i - 1]);
                }
            }
            i = i - 1;
        }
        proof {
            assert(items.subrange(0, exps@.len() as int) =~= items);
        }
        lst
    }

    /// Builds a list of all but the last of `exps` that ends in the last one:
    /// `[a, b, c]` gives `(a b . c)`.
    pub fn alloc_dotlist(&mut self, exps: Vec<RuccoExpRef>) -> (r: RuccoExpRef)
        requires
            old(self).wf(),
            exps@.len() >= 1,
        ensures
            final(self).grows_from(old(self)),
            old(self).all_finite(exps@) ==> final(self).finite(r) && final(self).term(r)
                == list_with_tail(old(self).terms(exps@).drop_last(), old(self).terms(exps@).last()),
    {
        let ghost start = *self;
        let ghost items = start.terms(exps@);
        let n = exps.len();
        let mut lst = exps[n - 1];
        let mut i = n - 1;
        proof {
            self.lemma_extends(self);
            assert(items.drop_last().subrange(i as int, i as int) =~= Seq::<Sexp>::empty());
        }
        while i > 0
            invariant
                self.grows_from(&start),
                i < n,
                n == exps@.len(),
                items == start.terms(exps@),
                start.all_finite(exps@) ==> self.finite(lst) && self.term(lst) == list_with_tail(
                    items.drop_last().subrange(i as int, n - 1),
                    items.last(),
                ),
            decreases i,
        {
            let ghost mid = *self;
            let h = exps[i - 1];
            lst = self.alloc_cons(h, lst);
            proof {
                RuccoArena::lemma_grows_trans(&start, &mid, self);
                if start.all_finite(exps@) {
                    assert(start.finite(exps@[i - 1]));
                    let sub = items.drop_last().subrange(i - 1, n - 1);
                    assert(sub.drop_first() =~= items.drop_last().subrange(i as int, n - 1));
                    assert(sub[0] == items[i - 1]);
                }
            }
            i = i - 1;
        }
        proof {
            assert(items.drop_last().subrange(0, n - 1) =~= items.drop_last());
        }
        lst
    }

    /// A fresh cell `(nil . nil)`.
    pub fn cell(&mut self) -> (r: RuccoExpRef)
        requires
            old(self).wf(),
        ensures
            final(self).grows_from(old(self)),
            final(self).finite(r),
            final(self).term(r) == cons(nil(), nil()),
    {
        let ghost start = *self;
        let nil_h = self.alloc_symbol("nil");
        let ghost mid = *self;
        let r = self.alloc_cons(nil_h, nil_h);
        proof {
            RuccoArena::lemma_grows_trans(&start, &mid, self);
        }
        r
    }

    /// Replaces the first field of the pair `h`.
    pub fn set_first(&mut self, h: RuccoExpRef, car: RuccoExpRef) -> (r: Result<
        RuccoExpRef,
        RuccoRuntimeErr,
    >)
        requires
            old(self).wf(),
        ensures
            final(self).wf(),
            forall|name: Seq<char>| #[trigger] final(self).interned(name) == old(self).interned(name),
            h >= old(self).nodes().len() ==> (r matches Err(e) && e@ == RuntimeErrView::InvalidReference
                && *final(self) == *old(self)),
            h < old(self).nodes().len() ==> match old(self).nodes()[h as int] {
                RuccoExp::Atom(a) => (r matches Err(e) && e@ == not_a_pair("setcar"@, a@)
                    && *final(self) == *old(self)),
                RuccoExp::Cons { car: _, cdr } => (r matches Ok(x) && x == car && final(self).nodes()
                    == old(self).nodes().update(h as int, RuccoExp::Cons { car, cdr })),
            },
    {
        if h >= self.arena.len() {
            return Err(RuccoRuntimeErr::InvalidReference);
        }
        let cdr = match &self.arena[h] {
            RuccoExp::Atom(a) => {
                return Err(RuccoRuntimeErr::not_a_pair("setcar", a));
            },
            RuccoExp::Cons { car: _, cdr } => *cdr,
        };
        self.replace_cell(h, RuccoExp::Cons { car, cdr });
        Ok(car)
    }

    /// Replaces the second field of the pair `h`.
    pub fn set_rest(&mut self, h: RuccoExpRef, cdr: RuccoExpRef) -> (r: Result<
        RuccoExpRef,
        RuccoRuntimeErr,
    >)
        requires
            old(self).wf(),
        ensures
            final(self).wf(),
            forall|name: Seq<char>| #[trigger] final(self).interned(name) == old(self).interned(name),
            h >= old(self).nodes().len() ==> (r matches Err(e) && e@ == RuntimeErrView::InvalidReference
                && *final(self) == *old(self)),
            h < old(self).nodes().len() ==> match old(self).nodes()[h as int] {
                RuccoExp::Atom(a) => (r matches Err(e) && e@ == not_a_pair("setcdr"@, a@)
                    && *final(self) == *old(self)),
                RuccoExp::Cons { car, cdr: _ } => (r matches Ok(x) && x == cdr && final(self).nodes()
                    == old(self).nodes().update(h as int, RuccoExp::Cons { car, cdr })),
            },
    {
        if h >= self.arena.len() {
            return Err(RuccoRuntimeErr::InvalidReference);
        }
        let car = match &self.arena[h] {
            RuccoExp::Atom(a) => {
                return Err(RuccoRuntimeErr::not_a_pair("setcdr", a));
            },
            RuccoExp::Cons { car, cdr: _ } => *car,
        };
        self.replace_cell(h, RuccoExp::Cons { car, cdr });
        Ok(cdr)
    }

    fn replace_cell(&mut self, h: RuccoExpRef, exp: RuccoExp)
        requires
            old(self).wf(),
            h < old(self).nodes().len(),
            old(self).nodes()[h as int] is Cons,
            exp is Cons,
        ensures
            final(self).wf(),
            final(self).symbols == old(self).symbols,
            final(self).nodes() == old(self).nodes().update(h as int, exp),
    {
        let ghost before = *self;
        self.arena.set(h, exp);
        proof {
            assert forall|i: int| 0 <= i < self.symbols@.len() implies {
                let (name, k) = #[trigger] self.symbols@[i];
                &&& k < self.arena@.len()
                &&& self.arena@[k as int] matches RuccoExp::Atom(RuccoAtom::Symbol(s))
                &&& s@ == name@
            } by {
                assert(before.symbols@[i] == self.symbols@[i]);
            }
        }
    }

    /// The printed form of the value of `h`.
    pub fn render(&self, h: RuccoExpRef) -> (r: String)
        requires
            self.finite(h),
        ensures
            r@ == render(self.term(h)),
    {
        let mut out: Vec<char> = Vec::new();
        self.push_render(h, &mut out, Ghost(self.term(h)));
        proof {
            assert(out@ =~= render(self.term(h)));
        }
        string_from_chars(&out)
    }

    fn push_render(&self, h: RuccoExpRef, out: &mut Vec<char>, Ghost(t): Ghost<Sexp>)
        requires
            self.finite(h),
            self.term(h) == t,
        ensures
            final(out)@ == old(out)@ + render(t),
        decreases t,
    {
        proof {
            self.lemma_node_term(h);
        }
        match &self.arena[h] {
            RuccoExp::Atom(a) => a.push_text(out),
            RuccoExp::Cons { car, cdr } => {
                let ghost o = out@;
                proof {
                    assert(t == cons(self.term(*car), self.term(*cdr)));
                    assert(decreases_to!(t => t->Pair_0));
                    assert(decreases_to!(t => t->Pair_1));
                }
                out.push('(');
                self.push_render(*car, out, Ghost(self.term(*car)));
                self.push_render_tail(*cdr, out, Ghost(self.term(*cdr)));
                out.push(')');
                proof {
                    assert(out@ =~= o + render(t));
                }
            },
        }
    }

    fn push_render_tail(&self, h: RuccoExpRef, out: &mut Vec<char>, Ghost(t): Ghost<Sexp>)
        requires
            self.finite(h),
            self.term(h) == t,
        ensures
            final(out)@ == old(out)@ + render_tail(t),
        decreases t,
    {
        proof {
            self.lemma_node_term(h);
        }
        let ghost o = out@;
        match &self.arena[h] {
            RuccoExp::Atom(a) => {
                if !is_symbol_named(a, "nil") {
                    out.push(' ');
                    out.push('.');
                    out.push(' ');
                    a.push_text(out);
                }
                proof {
                    assert(out@ =~= o + render_tail(t));
                }
            },
            RuccoExp::Cons { car, cdr } => {
                out.push(' ');
                self.push_render(*car, out, Ghost(self.term(*car)));
                self.push_render_tail(*cdr, out, Ghost(self.term(*cdr)));
                proof {
                    assert(out@ =~= o + render_tail(t));
                }
            },
        }
    }

    /// Deep structural equality of the values of two handles.
    pub fn equal(&self, h1: RuccoExpRef, h2: RuccoExpRef) -> (r: bool)
        requires
            self.finite(h1),
            self.finite(h2),
        ensures
            r == (self.term(h1) == self.term(h2)),
    {
        self.equal_rec(h1, h2, Ghost(self.term(h1)))
    }

    fn equal_rec(&self, h1: RuccoExpRef, h2: RuccoExpRef, Ghost(t): Ghost<Sexp>) -> (r: bool)
        requires
            self.finite(h1),
            self.finite(h2),
            self.term(h1) == t,
        ensures
            r == (self.term(h1) == self.term(h2)),
        decreases t,
    {
        proof {
            self.lemma_node_term(h1);
            self.lemma_node_term(h2);
        }
        match (&self.arena[h1], &self.arena[h2]) {
            (RuccoExp::Atom(a), RuccoExp::Atom(b)) => a.same(b),
            (RuccoExp::Cons { car: x1, cdr: y1 }, RuccoExp::Cons { car: x2, cdr: y2 }) => {
                proof {
                    assert(t == cons(self.term(*x1), self.term(*y1)));
                    assert(decreases_to!(t => t->Pair_0));
                    assert(decreases_to!(t => t->Pair_1));
                }
                let same_car = self.equal_rec(*x1, *x2, Ghost(self.term(*x1)));
                if !same_car {
                    return false;
                }
                self.equal_rec(*y1, *y2, Ghost(self.term(*y1)))
            },
            _ => false,
        }
    }

    /// The elements of the proper list `h`, in order.
    pub fn iter(&self, h: RuccoExpRef) -> (r: Result<Vec<RuccoExpRef>, RuccoRuntimeErr>)
        requires
            self.finite(h),
        ensures
            r is Ok <==> items_of(self.term(h)) is Some,
            r matches Ok(v) ==> self.all_finite(v@) && self.terms(v@) == items_of(self.term(h))->0,
            r matches Err(e) ==> e@ == walk_error(self.term(h)),
    {
        let mut out: Vec<RuccoExpRef> = Vec::new();
        proof {
            assert(self.terms(out@) =~= Seq::<Sexp>::empty());
        }
        match self.collect_items(h, true, &mut out, Ghost(self.term(h))) {
            Ok(()) => {
                proof {
                    assert(self.terms(out@) =~= items_of(self.term(h))->0);
                }
                Ok(out)
            },
            Err(e) => Err(e),
        }
    }

    fn collect_items(
        &self,
        h: RuccoExpRef,
        first: bool,
        out: &mut Vec<RuccoExpRef>,
        Ghost(t): Ghost<Sexp>,
    ) -> (r: Result<(), RuccoRuntimeErr>)
        requires
            self.finite(h),
            self.term(h) == t,
            self.all_finite(old(out)@),
        ensures
            r is Ok <==> items_of(t) is Some,
            r is Ok ==> self.all_finite(final(out)@) && self.terms(final(out)@) == self.terms(
                old(out)@,
            ) + items_of(t)->0,
            r matches Err(e) ==> e@ == not_a_pair(
                if first && t is Atom {
                    "into_iter"@
                } else {
                    "iter"@
                },
                tail_atom(t),
            ),
        decreases t,
    {
        proof {
            self.lemma_node_term(h);
        }
        match &self.arena[h] {
            RuccoExp::Atom(a) => {
                if is_symbol_named(a, "nil") {
                    proof {
                        assert(self.terms(out@) + items_of(t)->0 =~= self.terms(out@));
                    }
                    Ok(())
                } else {
                    let name = if first {
                        "into_iter"
                    } else {
                        "iter"
                    };
                    Err(RuccoRuntimeErr::not_a_pair(name, a))
                }
            },
            RuccoExp::Cons { car, cdr } => {
                let ghost o = out@;
                out.push(*car);
                proof {
                    assert(self.terms(out@) =~= self.terms(o).push(self.term(*car)));
                }
                let r = self.collect_items(*cdr, false, out, Ghost(self.term(*cdr)));
                proof {
                    if r is Ok {
                        let rest = items_of(self.term(*cdr))->0;
                        assert(items_of(t)->0 == seq![self.term(*car)] + rest);
                        assert(self.terms(o).push(self.term(*car)) + rest =~= self.terms(o) + (seq![
                            self.term(*car),
                        ] + rest));
                    }
                }
                r
            },
        }
    }

    /// The arguments of the form `h`, checked to number `min` to `max` and
    /// padded with `nil_exp` to `max` handles.
    pub fn extract_args(
        &self,
        h: RuccoExpRef,
        name: &str,
        min: usize,
        max: usize,
        nil_exp: RuccoExpRef,
    ) -> (r: Result<Vec<RuccoExpRef>, RuccoRuntimeErr>)
        requires
            self.finite(h),
        ensures
            args_error(self.term(h), name@, min, max) matches Some(e) ==> (r matches Err(x) && x@
                == e),
            args_error(self.term(h), name@, min, max) is None && nil_exp >= self.nodes().len()
                ==> (r matches Err(x) && x@ == RuntimeErrView::InvalidReference),
            args_error(self.term(h), name@, min, max) is None && nil_exp < self.nodes().len()
                ==> (r matches Ok(v) && args_padded(self, v@, items_of(self.term(h))->0, max, nil_exp)),
    {
        let args = match self.iter(h) {
            Ok(v) => v,
            Err(e) => {
                return Err(e);
            },
        };
        let n = args.len();
        if !(min <= n && n <= max) {
            return Err(
                RuccoRuntimeErr::WrongNumberOfArguments {
                    name: String::from_str(name),
                    expected: (min, max),
                    actual: n,
                },
            );
        }
        if nil_exp >= self.arena.len() {
            return Err(RuccoRuntimeErr::InvalidReference);
        }
        let mut v = args;
        proof {
            assert(v@.subrange(0, n as int) =~= v@);
        }
        while v.len() < max
            invariant
                n <= v@.len() <= max,
                v@.subrange(0, n as int) == args@,
                forall|i: int| n <= i < v@.len() ==> v@[i] == nil_exp,
            decreases max - v@.len(),
        {
            let ghost o = v@;
            v.push(nil_exp);
            proof {
                assert(v@.subrange(0, n as int) =~= o.subrange(0, n as int));
            }
        }
        Ok(v)
    }

    /// Describes the value of `h` for a diagnostic.
    pub fn actual_data_type(&self, h: RuccoExpRef) -> (r: RuccoActualDataType)
        requires
            self.finite(h),
        ensures
            r@ == actual_of(self.term(h)),
    {
        proof {
            self.lemma_node_term(h);
        }
        match &self.arena[h] {
            RuccoExp::Atom(a) => RuccoActualDataType::from_atom(a),
            RuccoExp::Cons { .. } => {
                let value = self.render(h);
                let r = RuccoActualDataType {
                    data_type: vec![RuccoDataType::Cons, RuccoDataType::List],
                    value,
                };
                proof {
                    assert(r@.data_type =~= seq![RuccoDataType::Cons, RuccoDataType::List]);
                }
                r
            },
        }
    }
}

impl Default for RuccoArena {
    /// An empty arena.
    fn default() -> (r: RuccoArena)
        ensures
            r.wf(),
            r.nodes().len() == 0,
    {
        RuccoArena::new()
    }
}

} // verus!
