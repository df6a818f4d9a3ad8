use vstd::prelude::*;

use crate::arena::{RuccoArena, RuccoExp, RuccoExpRef};
use crate::atom::{string_from_chars, RuccoAtom};
use crate::error::RuccoReaderErr;
use crate::sexp::{lemma_list_append, list2, list_with_tail, nil, symbol, Sexp};
use crate::token::{
    classify_token, is_delim, is_delimiter, is_whitespace, is_ws, token_atom, token_end, ws_len,
    TokenValue,
};

verus! {

/// What reading from a position gives: the expression and the position after
/// it, or the error.
pub type ParseResult = Result<(Sexp, int), RuccoReaderErr>;

/// The first non-whitespace position from `i` on.
pub open spec fn skip_ws(s: Seq<char>, i: int) -> int {
    i + ws_len(s, i)
}

/// Reads one expression of `s` from position `i`.
pub open spec fn parse(s: Seq<char>, i: int) -> ParseResult
    decreases s.len() - i, 0int,
{
    let j = skip_ws(s, i);
    if j >= s.len() || j < 0 {
        Err(RuccoReaderErr::UnexpectedEof)
    } else if s[j] == '\'' {
        match parse(s, j + 1) {
            Ok((t, k)) => Ok((list2(symbol("quote"@), t), k)),
            Err(e) => Err(e),
        }
    } else if s[j] == '(' {
        parse_list(s, j + 1)
    } else if s[j] == ')' {
        Err(RuccoReaderErr::UnexpectedEof)
    } else {
        let e = token_end(s, j);
        Ok((Sexp::Atom(token_atom(s.subrange(j, e))), e))
    }
}

/// Reads the inside of a list from just after its `(`.
pub open spec fn parse_list(s: Seq<char>, i: int) -> ParseResult
    decreases s.len() - i, 1int,
{
    let j = skip_ws(s, i);
    if j >= s.len() || j < 0 {
        Err(RuccoReaderErr::UnexpectedEof)
    } else if s[j] == ')' {
        Ok((nil(), j + 1))
    } else {
        match parse(s, j) {
            // A read always advances (`lemma_parse_advances`), so this guard,
            // which bounds the recursion, never fails a read.
            Ok((x, k)) => if k <= j || k > s.len() {
                Err(RuccoReaderErr::UnexpectedEof)
            } else {
                prepend(seq![x], parse_rest(s, k))
            },
            Err(e) => Err(e),
        }
    }
}

/// Reads what follows an element of a list: more elements, a dotted tail,
/// or the closing `)`.
pub open spec fn parse_rest(s: Seq<char>, i: int) -> ParseResult
    decreases s.len() - i, 1int,
{
    let j = skip_ws(s, i);
    if j >= s.len() || j < 0 {
        Err(RuccoReaderErr::UnexpectedEof)
    } else if s[j] == ')' {
        Ok((nil(), j + 1))
    } else if s[j] == '.' {
        match parse(s, j + 1) {
            Ok((t, k)) => {
                let m = skip_ws(s, k);
                if m >= s.len() || m < 0 {
                    Err(RuccoReaderErr::UnexpectedEof)
                } else if s[m] == ')' {
                    Ok((t, m + 1))
                } else {
                    Err(RuccoReaderErr::UnexpectedChar { char: s[m] })
                }
            },
            Err(e) => Err(e),
        }
    } else {
        match parse(s, j) {
            Ok((x, k)) => if k <= j || k > s.len() {
                Err(RuccoReaderErr::UnexpectedEof)
            } else {
                prepend(seq![x], parse_rest(s, k))
            },
            Err(e) => Err(e),
        }
    }
}

/// Puts `items` in front of the list tail that `r` read.
pub open spec fn prepend(items: Seq<Sexp>, r: ParseResult) -> ParseResult {
    match r {
        Ok((tail, m)) => Ok((list_with_tail(items, tail), m)),
        Err(e) => Err(e),
    }
}

proof fn lemma_ws_len_bound(s: Seq<char>, i: int)
    requires
        0 <= i <= s.len(),
    ensures
        i + ws_len(s, i) <= s.len(),
    decreases s.len() - i,
{
    if i < s.len() && is_ws(s[i]) {
        lemma_ws_len_bound(s, i + 1);
    }
}

proof fn lemma_token_end_bound(s: Seq<char>, i: int)
    requires
        0 <= i <= s.len(),
    ensures
        i <= token_end(s, i) <= s.len(),
    decreases s.len() - i,
{
    if i < s.len() && !is_delim(s[i]) {
        lemma_token_end_bound(s, i + 1);
    }
}

/// Skipping whitespace stops at a character that is not whitespace.
pub proof fn lemma_skip_stops(s: Seq<char>, i: int)
    requires
        0 <= i,
    ensures
        skip_ws(s, i) < s.len() ==> !is_ws(s[skip_ws(s, i)]),
        i <= skip_ws(s, i),
    decreases s.len() - i,
{
    if 0 <= i < s.len() && is_ws(s[i]) {
        lemma_skip_stops(s, i + 1);
    }
}

/// A successful read ends past where it began and within the input.
pub proof fn lemma_parse_advances(s: Seq<char>, i: int)
    requires
        0 <= i <= s.len(),
    ensures
        parse(s, i) matches Ok((_, k)) ==> i < k <= s.len(),
        parse_list(s, i) matches Ok((_, k)) ==> i < k <= s.len(),
        parse_rest(s, i) matches Ok((_, k)) ==> i < k <= s.len(),
    decreases s.len() - i,
{
    lemma_ws_len_bound(s, i);
    let j = skip_ws(s, i);
    if j < s.len() {
        lemma_token_end_bound(s, j);
        if j + 1 <= s.len() {
            lemma_parse_advances(s, j + 1);
        }
        if let Ok((_, k)) = parse(s, j) {
            if j < i {
            } else if i < j {
                lemma_parse_advances(s, j);
            } else {
                lemma_parse_advances_top(s, j);
            }
            if j < k && k <= s.len() {
                lemma_parse_advances(s, k);
            }
        }
        if let Ok((_, k)) = parse(s, j + 1) {
            lemma_ws_len_bound(s, k);
        }
    }
}

proof fn lemma_parse_advances_top(s: Seq<char>, j: int)
    requires
        0 <= j < s.len(),
        !is_ws(s[j]),
    ensures
        parse(s, j) matches Ok((_, k)) ==> j < k <= s.len(),
    decreases s.len() - j, 0int,
{
    assert(ws_len(s, j) == 0);
    lemma_token_end_bound(s, j);
    if j + 1 <= s.len() {
        lemma_parse_advances(s, j + 1);
    }
    if s[j] != '\'' && s[j] != '(' && s[j] != ')' {
        assert(!is_delim(s[j]));
        assert(token_end(s, j) == token_end(s, j + 1));
        lemma_token_end_bound(s, j + 1);
    }
}

/// `r`, the arena and the position are what reading `p` promised.
pub open spec fn reads_as(
    p: ParseResult,
    r: Result<RuccoExpRef, RuccoReaderErr>,
    arena: &RuccoArena,
    pos: int,
) -> bool {
    match p {
        Ok((t, k)) => r matches Ok(h) && arena.finite(h) && arena.term(h) == t && pos == k,
        Err(e) => r == Err::<RuccoExpRef, RuccoReaderErr>(e),
    }
}

/// A list being read: cell `cells[j]` holds element `elems[j]`, whose
/// pairs lie in `[starts[j], ends[j])` and whose value is `terms[j]`.
pub struct ListState {
    pub cells: Seq<RuccoExpRef>,
    pub elems: Seq<RuccoExpRef>,
    pub starts: Seq<int>,
    pub ends: Seq<int>,
    pub terms: Seq<Sexp>,
}

pub open spec fn push_cell(
    st: ListState,
    cell: RuccoExpRef,
    x: RuccoExpRef,
    sx: int,
    ex: int,
    tx: Sexp,
) -> ListState {
    ListState {
        cells: st.cells.push(cell),
        elems: st.elems.push(x),
        starts: st.starts.push(sx),
        ends: st.ends.push(ex),
        terms: st.terms.push(tx),
    }
}

/// Cell `j` of the list is in place: it holds its element and points to the
/// next cell, the last one to `tail`; cells and elements lie above `lo`, in
/// the order they were read.
pub open spec fn cell_ok(arena: &RuccoArena, st: ListState, j: int, lo: int, tail: RuccoExpRef) -> bool {
    let n = st.cells.len() as int;
    &&& lo <= st.starts[j] <= st.ends[j] <= st.cells[j]
    &&& st.cells[j] < arena.nodes().len()
    &&& st.cells[j] <= st.cells[n - 1]
    &&& j + 1 < n ==> st.cells[j] < st.starts[j + 1]
    &&& arena.nodes()[st.cells[j] as int] == RuccoExp::Cons {
        car: st.elems[j],
        cdr: if j + 1 < n {
            st.cells[j + 1]
        } else {
            tail
        },
    }
    &&& arena.confined(st.elems[j], st.starts[j], st.ends[j])
    &&& arena.term(st.elems[j]) == st.terms[j]
}

pub open spec fn chain_ok(arena: &RuccoArena, st: ListState, lo: int, tail: RuccoExpRef) -> bool {
    &&& st.cells.len() >= 1
    &&& st.elems.len() == st.cells.len()
    &&& st.starts.len() == st.cells.len()
    &&& st.ends.len() == st.cells.len()
    &&& st.terms.len() == st.cells.len()
    &&& forall|j: int| 0 <= j < st.cells.len() ==> #[trigger] cell_ok(arena, st, j, lo, tail)
}

/// Growing the arena leaves the list in place.
proof fn lemma_chain_grow(a: &RuccoArena, b: &RuccoArena, st: ListState, lo: int, tail: RuccoExpRef)
    requires
        chain_ok(a, st, lo, tail),
        b.grows_from(a),
    ensures
        chain_ok(b, st, lo, tail),
{
    assert forall|j: int| 0 <= j < st.cells.len() implies #[trigger] cell_ok(b, st, j, lo, tail) by {
        assert(cell_ok(a, st, j, lo, tail));
        assert(b.nodes()[st.cells[j] as int] == a.nodes()[st.cells[j] as int]);
        b.lemma_confined_frame(a, st.elems[j], st.starts[j], st.ends[j]);
    }
}

/// Pointing the last cell to `new_tail` leaves the rest of the list in place.
proof fn lemma_chain_patch(
    a: &RuccoArena,
    b: &RuccoArena,
    st: ListState,
    lo: int,
    tail: RuccoExpRef,
    new_tail: RuccoExpRef,
)
    requires
        chain_ok(a, st, lo, tail),
        b.nodes() == a.nodes().update(
            st.cells.last() as int,
            RuccoExp::Cons { car: st.elems.last(), cdr: new_tail },
        ),
    ensures
        chain_ok(b, st, lo, new_tail),
        b.agrees_on(a, 0, st.cells.last() as int),
{
    let n = st.cells.len() as int;
    let p = st.cells.last() as int;
    assert(cell_ok(a, st, n - 1, lo, tail));
    assert forall|i: int|
        0 <= i < a.nodes().len() && ((0 <= i < p) || a.nodes()[i] is Atom) implies #[trigger] b.nodes()[i]
        == a.nodes()[i] by {
        if i == p {
            assert(a.nodes()[p] is Cons);
        }
    }
    assert forall|j: int| 0 <= j < n implies #[trigger] cell_ok(b, st, j, lo, new_tail) by {
        assert(cell_ok(a, st, j, lo, tail));
        if j + 1 < n {
            assert(cell_ok(a, st, j + 1, lo, tail));
            assert(st.cells[j] < st.cells[j + 1]);
        }
        b.lemma_confined_frame(a, st.elems[j], st.starts[j], st.ends[j]);
    }
}

/// A new last cell holding `x` joins the list.
proof fn lemma_chain_push(
    a: &RuccoArena,
    st: ListState,
    lo: int,
    tail: RuccoExpRef,
    cell: RuccoExpRef,
    x: RuccoExpRef,
    sx: int,
    ex: int,
    tx: Sexp,
)
    requires
        chain_ok(a, st, lo, cell),
        cell < a.nodes().len(),
        a.nodes()[cell as int] == (RuccoExp::Cons { car: x, cdr: tail }),
        a.confined(x, sx, ex),
        a.term(x) == tx,
        st.cells.last() < sx,
        sx <= ex <= cell,
    ensures
        chain_ok(a, push_cell(st, cell, x, sx, ex, tx), lo, tail),
{
    let n = st.cells.len() as int;
    let st2 = push_cell(st, cell, x, sx, ex, tx);
    assert(cell_ok(a, st, n - 1, lo, cell));
    assert forall|j: int| 0 <= j < n + 1 implies #[trigger] cell_ok(a, st2, j, lo, tail) by {
        if j < n {
            assert(cell_ok(a, st, j, lo, cell));
        }
    }
}

/// A list in place has, from cell `j` on, the value of its elements from `j`
/// on, ending in the value of `tail`.
proof fn lemma_chain_value(
    a: &RuccoArena,
    st: ListState,
    lo: int,
    hi: int,
    tail: RuccoExpRef,
    j: int,
)
    requires
        chain_ok(a, st, lo, tail),
        a.confined(tail, lo, hi),
        a.nodes().len() <= hi,
        0 <= j < st.cells.len(),
    ensures
        a.confined(st.cells[j], lo, hi),
        a.term(st.cells[j]) == list_with_tail(
            st.terms.subrange(j, st.cells.len() as int),
            a.term(tail),
        ),
    decreases st.cells.len() - j,
{
    let n = st.cells.len() as int;
    assert(cell_ok(a, st, j, lo, tail));
    a.lemma_confined_widen(st.elems[j], st.starts[j], st.ends[j], lo, hi);
    let rest = st.terms.subrange(j, n);
    assert(rest.drop_first() =~= st.terms.subrange(j + 1, n));
    if j + 1 < n {
        lemma_chain_value(a, st, lo, hi, tail, j + 1);
    } else {
        assert(st.terms.subrange(j + 1, n) =~= Seq::<Sexp>::empty());
    }
    a.lemma_cons_confined(st.cells[j], lo, hi);
}

/// A cursor over the text being read.
pub struct Reader {
    input: Vec<char>,
    pos: usize,
}

impl Reader {
    /// The text.
    pub closed spec fn input(&self) -> Seq<char> {
        self.input@
    }

    /// The position of the next character to read.
    pub closed spec fn pos(&self) -> int {
        self.pos as int
    }

    pub open spec fn wf(&self) -> bool {
        self.pos() <= self.input().len()
    }

    /// A reader at the start of `input`.
    pub fn new(input: &str) -> (r: Reader)
        ensures
            r.input() == input@,
            r.pos() == 0,
    {
        let n = input.unicode_len();
        let mut chars: Vec<char> = Vec::new();
        let mut i: usize = 0;
        while i < n
            invariant
                n == input@.len(),
                i <= n,
                chars@ == input@.subrange(0, i as int),
            decreases n - i,
        {
            chars.push(input.get_char(i));
            i = i + 1;
            proof {
                assert(chars@ =~= input@.subrange(0, i as int));
            }
        }
        proof {
            assert(input@.subrange(0, n as int) =~= input@);
        }
        Reader { input: chars, pos: 0 }
    }

    /// How many characters have been read.
    pub fn offset(&self) -> (r: usize)
        ensures
            r == self.pos(),
    {
        self.pos
    }

    fn skip_whitespace(&mut self)
        requires
            old(self).wf(),
        ensures
            final(self).wf(),
            final(self).input() == old(self).input(),
            final(self).pos() == skip_ws(old(self).input(), old(self).pos()),
    {
        let ghost start = self.pos as int;
        let ghost inp = self.input@;
        while self.pos < self.input.len() && is_whitespace(self.input[self.pos])
            invariant
                self.input@ == inp,
                inp == old(self).input(),
                start == old(self).pos(),
                start <= self.pos <= self.input@.len(),
                start + ws_len(self.input@, start) == self.pos + ws_len(self.input@, self.pos as int),
            decreases self.input@.len() - self.pos,
        {
            self.pos = self.pos + 1;
        }
    }

    fn read_atom(&mut self, arena: &mut RuccoArena) -> (r: RuccoExpRef)
        requires
            old(self).wf(),
            old(arena).wf(),
            old(self).pos() < old(self).input().len(),
            !is_delim(old(self).input()[old(self).pos()]),
        ensures
            final(self).wf(),
            final(self).input() == old(self).input(),
            final(arena).grows_from(old(arena)),
            final(self).pos() == token_end(old(self).input(), old(self).pos()),
            final(arena).finite(r),
            final(arena).term(r) == Sexp::Atom(
                token_atom(old(self).input().subrange(old(self).pos(), final(self).pos())),
            ),
    {
        let start = self.pos;
        let ghost inp = self.input@;
        let mut tok: Vec<char> = Vec::new();
        while self.pos < self.input.len() && !is_delimiter(self.input[self.pos])
            invariant
                self.input@ == inp,
                inp == old(self).input(),
                start == old(self).pos(),
                start < inp.len(),
                !is_delim(inp[start as int]),
                start <= self.pos <= self.input@.len(),
                token_end(self.input@, start as int) == token_end(self.input@, self.pos as int),
                tok@ == self.input@.subrange(start as int, self.pos as int),
            decreases self.input@.len() - self.pos,
        {
            tok.push(self.input[self.pos]);
            self.pos = self.pos + 1;
            proof {
                assert(tok@ =~= self.input@.subrange(start as int, self.pos as int));
            }
        }
        match classify_token(&tok) {
            TokenValue::Int(v) => arena.alloc_node(RuccoExp::Atom(RuccoAtom::Int(v))),
            TokenValue::Float(f) => {
                let text = string_from_chars(&f);
                arena.alloc_node(RuccoExp::Atom(RuccoAtom::Float(text)))
            },
            TokenValue::Symbol => {
                let name = string_from_chars(&tok);
                arena.alloc_symbol(name.as_str())
            },
        }
    }

    /// Reads one expression and moves past it, leaving whatever follows it
    /// unread. `'x` reads as `(quote x)`; a list is built left to right, each
    /// new cell patched in as the `rest` of the one before.
    pub fn read(&mut self, arena: &mut RuccoArena) -> (r: Result<RuccoExpRef, RuccoReaderErr>)
        requires
            old(self).wf(),
            old(arena).wf(),
        ensures
            final(self).wf(),
            final(self).input() == old(self).input(),
            final(arena).grows_from(old(arena)),
            reads_as(parse(old(self).input(), old(self).pos()), r, final(arena), final(self).pos()),
            r matches Ok(h) ==> final(arena).confined(
                h,
                old(arena).nodes().len() as int,
                final(arena).nodes().len() as int,
            ),
        decreases old(self).input().len() - old(self).pos(), 0int,
    {
        let ghost s = self.input@;
        let ghost a0 = *arena;
        let ghost lo = a0.nodes().len() as int;
        proof {
            arena.lemma_grows_refl();
        }
        self.skip_whitespace();
        if self.pos >= self.input.len() {
            return Err(RuccoReaderErr::UnexpectedEof);
        }
        let c = self.input[self.pos];
        if c == '\'' {
            self.pos = self.pos + 1;
            let quote = arena.alloc_symbol("quote");
            let ghost a1 = *arena;
            let ghost sx = a1.nodes().len() as int;
            let exp = match self.read(arena) {
                Ok(h) => h,
                Err(e) => {
                    proof {
                        RuccoArena::lemma_grows_trans(&a0, &a1, arena);
                    }
                    return Err(e);
                },
            };
            let ghost a2 = *arena;
            let ghost ex = a2.nodes().len() as int;
            let nil_h = arena.alloc_symbol("nil");
            let ghost a3 = *arena;
            let rest = arena.alloc_cons(exp, nil_h);
            let ghost a4 = *arena;
            let r = arena.alloc_cons(quote, rest);
            proof {
                RuccoArena::lemma_grows_trans(&a0, &a1, &a2);
                RuccoArena::lemma_grows_trans(&a0, &a2, &a3);
                RuccoArena::lemma_grows_trans(&a2, &a3, &a4);
                RuccoArena::lemma_grows_trans(&a0, &a3, &a4);
                RuccoArena::lemma_grows_trans(&a2, &a4, arena);
                RuccoArena::lemma_grows_trans(&a0, &a4, arena);
                let hi = arena.nodes().len() as int;
                arena.lemma_confined_frame(&a2, exp, sx, ex);
                arena.lemma_confined_widen(exp, sx, ex, lo, hi);
                assert(a1.finite(quote));
                arena.lemma_atom_confined(quote, lo, hi);
                arena.lemma_atom_confined(nil_h, lo, hi);
                assert(arena.nodes()[rest as int] == a4.nodes()[rest as int]);
                arena.lemma_cons_confined(rest, lo, hi);
                arena.lemma_cons_confined(r, lo, hi);
            }
            Ok(r)
        } else if c == '(' {
            self.pos = self.pos + 1;
            self.read_cons(arena)
        } else if c == ')' {
            Err(RuccoReaderErr::UnexpectedEof)
        } else {
            proof {
                lemma_skip_stops(s, old(self).pos());
            }
            let r = self.read_atom(arena);
            proof {
                arena.lemma_atom_confined(r, lo, arena.nodes().len() as int);
            }
            Ok(r)
        }
    }

    fn read_cons(&mut self, arena: &mut RuccoArena) -> (r: Result<RuccoExpRef, RuccoReaderErr>)
        requires
            old(self).wf(),
            old(arena).wf(),
        ensures
            final(self).wf(),
            final(self).input() == old(self).input(),
            final(arena).grows_from(old(arena)),
            reads_as(
                parse_list(old(self).input(), old(self).pos()),
                r,
                final(arena),
                final(self).pos(),
            ),
            r matches Ok(h) ==> final(arena).confined(
                h,
                old(arena).nodes().len() as int,
                final(arena).nodes().len() as int,
            ),
        decreases old(self).input().len() - old(self).pos(), 1int,
    {
        let ghost s = self.input@;
        let ghost i0 = self.pos as int;
        let ghost a0 = *arena;
        let ghost lo = a0.nodes().len() as int;
        proof {
            arena.lemma_grows_refl();
        }
        self.skip_whitespace();
        if self.pos >= self.input.len() {
            return Err(RuccoReaderErr::UnexpectedEof);
        }
        let nil_h = arena.alloc_symbol("nil");
        let ghost a1 = *arena;
        proof {
            RuccoArena::lemma_grows_trans(&a0, &a0, &a1);
            a1.lemma_atom_confined(nil_h, lo, lo);
            a1.lemma_node_term(nil_h);
        }
        if self.input[self.pos] == ')' {
            self.pos = self.pos + 1;
            proof {
                a1.lemma_atom_confined(nil_h, lo, a1.nodes().len() as int);
            }
            return Ok(nil_h);
        }
        let ghost j = self.pos as int;
        let ghost st0 = arena.nodes().len() as int;
        let first = match self.read(arena) {
            Ok(h) => h,
            Err(e) => {
                proof {
                    RuccoArena::lemma_grows_trans(&a0, &a1, arena);
                }
                return Err(e);
            },
        };
        let ghost a2 = *arena;
        proof {
            lemma_parse_advances(s, j);
            RuccoArena::lemma_grows_trans(&a0, &a1, &a2);
        }
        // The first cell ends in `nil` until the next element is known.
        let head = arena.alloc_cons(first, nil_h);
        let ghost a3 = *arena;
        let mut prev = head;
        let ghost mut st = ListState {
            cells: seq![head],
            elems: seq![first],
            starts: seq![st0],
            ends: seq![a2.nodes().len() as int],
            terms: seq![a2.term(first)],
        };
        proof {
            RuccoArena::lemma_grows_trans(&a0, &a2, &a3);
            RuccoArena::lemma_grows_trans(&a1, &a2, &a3);
            a3.lemma_confined_frame(&a2, first, st0, a2.nodes().len() as int);
            assert(a3.nodes()[nil_h as int] == a1.nodes()[nil_h as int]);
            assert(cell_ok(&a3, st, 0, lo, nil_h));
            assert(parse_list(s, i0) == prepend(st.terms, parse_rest(s, self.pos())));
        }
        loop
            invariant
                self.wf(),
                self.input() == s,
                s == old(self).input(),
                a0 == *old(arena),
                i0 == old(self).pos(),
                lo == a0.nodes().len(),
                i0 <= self.pos(),
                arena.grows_from(&a0),
                arena.finite(nil_h),
                arena.term(nil_h) == nil(),
                arena.nodes()[nil_h as int] is Atom,
                chain_ok(arena, st, lo, nil_h),
                prev == st.cells.last(),
                head == st.cells[0],
                parse_list(s, i0) == prepend(st.terms, parse_rest(s, self.pos())),
            decreases s.len() - self.pos(),
        {
            let ghost ai = *arena;
            proof {
                assert(cell_ok(&ai, st, st.cells.len() - 1, lo, nil_h));
            }
            self.skip_whitespace();
            if self.pos >= self.input.len() {
                return Err(RuccoReaderErr::UnexpectedEof);
            }
            let c = self.input[self.pos];
            if c == ')' {
                self.pos = self.pos + 1;
                proof {
                    ai.lemma_atom_confined(nil_h, lo, ai.nodes().len() as int);
                    lemma_chain_value(&ai, st, lo, ai.nodes().len() as int, nil_h, 0);
                    assert(st.terms.subrange(0, st.cells.len() as int) =~= st.terms);
                    ai.lemma_confined_finite(head, lo, ai.nodes().len() as int);
                }
                return Ok(head);
            }
            if c == '.' {
                self.pos = self.pos + 1;
                let ghost sy = arena.nodes().len() as int;
                let tail = match self.read(arena) {
                    Ok(h) => h,
                    Err(e) => {
                        proof {
                            RuccoArena::lemma_grows_trans(&a0, &ai, arena);
                        }
                        return Err(e);
                    },
                };
                let ghost ay = *arena;
                proof {
                    RuccoArena::lemma_grows_trans(&a0, &ai, &ay);
                    lemma_chain_grow(&ai, &ay, st, lo, nil_h);
                }
                self.skip_whitespace();
                if self.pos >= self.input.len() {
                    return Err(RuccoReaderErr::UnexpectedEof);
                }
                let d = self.input[self.pos];
                if d == ')' {
                    self.pos = self.pos + 1;
                    let _ = arena.set_rest(prev, tail);
                    proof {
                        assert(cell_ok(&ay, st, st.cells.len() - 1, lo, nil_h));
                        lemma_chain_patch(&ay, arena, st, lo, nil_h, tail);
                        arena.lemma_grows_by_keeping(&a0);
                        arena.lemma_confined_frame(&ay, tail, sy, ay.nodes().len() as int);
                        let hi = arena.nodes().len() as int;
                        arena.lemma_confined_widen(tail, sy, ay.nodes().len() as int, lo, hi);
                        lemma_chain_value(arena, st, lo, arena.nodes().len() as int, tail, 0);
                        assert(st.terms.subrange(0, st.cells.len() as int) =~= st.terms);
                        arena.lemma_confined_finite(head, lo, arena.nodes().len() as int);
                    }
                    return Ok(head);
                }
                return Err(RuccoReaderErr::UnexpectedChar { char: d });
            }
            let ghost j = self.pos as int;
            let ghost sx = arena.nodes().len() as int;
            let x = match self.read(arena) {
                Ok(h) => h,
                Err(e) => {
                    proof {
                        RuccoArena::lemma_grows_trans(&a0, &ai, arena);
                    }
                    return Err(e);
                },
            };
            let ghost ax = *arena;
            let ghost ex = ax.nodes().len() as int;
            proof {
                lemma_parse_advances(s, j);
                RuccoArena::lemma_grows_trans(&a0, &ai, &ax);
                lemma_chain_grow(&ai, &ax, st, lo, nil_h);
            }
            let cell = arena.alloc_cons(x, nil_h);
            let ghost ac = *arena;
            proof {
                RuccoArena::lemma_grows_trans(&a0, &ax, &ac);
                lemma_chain_grow(&ax, &ac, st, lo, nil_h);
                ac.lemma_confined_frame(&ax, x, sx, ex);
                assert(cell_ok(&ac, st, st.cells.len() - 1, lo, nil_h));
            }
            let _ = arena.set_rest(prev, cell);
            proof {
                lemma_chain_patch(&ac, arena, st, lo, nil_h, cell);
                arena.lemma_grows_by_keeping(&a0);
                let p = st.cells.last() as int;
                ac.lemma_atom_confined(nil_h, 0, p);
                arena.lemma_confined_frame(&ac, nil_h, 0, p);
                ac.lemma_node_term(nil_h);
                arena.lemma_confined_frame(&ac, x, sx, ex);
                lemma_chain_push(arena, st, lo, nil_h, cell, x, sx, ex, ax.term(x));
                let old_terms = st.terms;
                match parse_rest(s, self.pos()) {
                    Ok((t, m)) => {
                        lemma_list_append(old_terms, seq![ax.term(x)], t);
                    },
                    Err(_) => {},
                }
                assert(old_terms.push(ax.term(x)) =~= old_terms + seq![ax.term(x)]);
                st = push_cell(st, cell, x, sx, ex, ax.term(x));
            }
            prev = cell;
        }
    }
}

} // verus!
