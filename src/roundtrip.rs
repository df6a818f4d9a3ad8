use vstd::prelude::*;

use crate::atom::{atom_text, digit_char, int_text, nat_text, AtomView};
use crate::error::RuccoReaderErr;
use crate::reader::{parse, parse_list, parse_rest, prepend, skip_ws};
use crate::sexp::{cons, list_of, list_with_tail, nil, render, render_tail, Sexp};
use crate::token::{
    digit_run, digit_value, digits_value, is_delim, is_digit, is_ws, token_atom, token_end, ws_len,
};

verus! {

/// An atom whose printed form, standing inside a list, reads back as the same
/// atom: a nonempty token that does not open with a quote or a dot.
pub open spec fn reads_back(a: AtomView) -> bool {
    let s = atom_text(a);
    &&& s.len() > 0
    &&& forall|i: int| 0 <= i < s.len() ==> !is_delim(#[trigger] s[i])
    &&& s[0] != '\'' && s[0] != '.'
    &&& token_atom(s) == a
}

proof fn lemma_digit_char(d: int)
    requires
        0 <= d < 10,
    ensures
        is_digit(digit_char(d)),
        digit_value(digit_char(d)) == d,
        !is_delim(digit_char(d)),
        digit_char(d) != '+' && digit_char(d) != '-' && digit_char(d) != '\'' && digit_char(d)
            != '.',
{
    assert(digit_char(d) as u32 == 48 + d);
}

proof fn lemma_nat_text(n: nat)
    ensures
        nat_text(n).len() > 0,
        forall|k: int| 0 <= k < nat_text(n).len() ==> is_digit(#[trigger] nat_text(n)[k]),
        forall|k: int| 0 <= k < nat_text(n).len() ==> !is_delim(#[trigger] nat_text(n)[k]),
        nat_text(n)[0] != '+' && nat_text(n)[0] != '-' && nat_text(n)[0] != '\'' && nat_text(n)[0]
            != '.',
        digits_value(nat_text(n)) == n,
    decreases n,
{
    if n < 10 {
        lemma_digit_char(n as int);
        assert(nat_text(n).drop_last() =~= Seq::<char>::empty());
        assert(digits_value(nat_text(n)) == digits_value(nat_text(n).drop_last()) * 10
            + digit_value(nat_text(n).last()));
    } else {
        lemma_nat_text(n / 10);
        lemma_digit_char((n % 10) as int);
        let t = nat_text(n);
        assert(t.drop_last() =~= nat_text(n / 10));
        assert(t[0] == nat_text(n / 10)[0]);
        assert(t.last() == digit_char((n % 10) as int));
        assert(n == (n / 10) * 10 + n % 10) by (nonlinear_arith);
        assert(digits_value(t) == digits_value(t.drop_last()) * 10 + digit_value(t.last()));
    }
}

proof fn lemma_digit_run_full(t: Seq<char>, i: int)
    requires
        0 <= i <= t.len(),
        forall|k: int| i <= k < t.len() ==> is_digit(#[trigger] t[k]),
    ensures
        digit_run(t, i) == t.len(),
    decreases t.len() - i,
{
    if i < t.len() {
        lemma_digit_run_full(t, i + 1);
    }
}

/// Every integer atom reads back, so a proper list of integers always
/// takes the round trip.
pub proof fn lemma_int_reads_back(i: i64)
    ensures
        reads_back(AtomView::Int(i as int)),
{
    let v = i as int;
    let s = int_text(v);
    if v < 0 {
        let n = (-v) as nat;
        lemma_nat_text(n);
        let d = nat_text(n);
        assert(s == seq!['-'] + d);
        assert(s.subrange(1, s.len() as int) =~= d);
        assert forall|k: int| 0 <= k < s.len() implies !is_delim(#[trigger] s[k]) by {
            if k > 0 {
                assert(s[k] == d[k - 1]);
            }
        }
        lemma_digit_run_full(s, 1);
    } else {
        let n = v as nat;
        lemma_nat_text(n);
        assert(s.subrange(0, s.len() as int) =~= s);
        lemma_digit_run_full(s, 0);
    }
}

/// The proper list of the atoms `atoms`.
pub open spec fn atom_list(atoms: Seq<AtomView>) -> Sexp {
    list_of(atoms.map_values(|a: AtomView| Sexp::Atom(a)))
}

proof fn lemma_token_end_at(s: Seq<char>, i: int, n: int)
    requires
        0 <= i,
        0 <= n,
        i + n <= s.len(),
        forall|k: int| i <= k < i + n ==> !is_delim(#[trigger] s[k]),
        i + n == s.len() || is_delim(s[i + n]),
    ensures
        token_end(s, i) == i + n,
    decreases n,
{
    if n > 0 {
        lemma_token_end_at(s, i + 1, n - 1);
    }
}

proof fn lemma_atom_list_split(atoms: Seq<AtomView>, j: int)
    requires
        0 <= j < atoms.len(),
    ensures
        atom_list(atoms.subrange(j, atoms.len() as int)) == cons(
            Sexp::Atom(atoms[j]),
            atom_list(atoms.subrange(j + 1, atoms.len() as int)),
        ),
{
    let sx = atoms.subrange(j, atoms.len() as int).map_values(|a: AtomView| Sexp::Atom(a));
    let rest = atoms.subrange(j + 1, atoms.len() as int).map_values(|a: AtomView| Sexp::Atom(a));
    assert(sx.drop_first() =~= rest);
    assert(sx[0] == Sexp::Atom(atoms[j]));
}

/// Reads an atom token at `i` whose text is `atom_text(a)` and that a
/// delimiter or the end follows.
proof fn lemma_parse_atom(s: Seq<char>, i: int, a: AtomView)
    requires
        0 <= i,
        reads_back(a),
        i + atom_text(a).len() <= s.len(),
        s.subrange(i, i + atom_text(a).len()) == atom_text(a),
        i + atom_text(a).len() == s.len() || is_delim(s[i + atom_text(a).len()]),
    ensures
        parse(s, i) == Ok::<(Sexp, int), RuccoReaderErr>((Sexp::Atom(a), i + atom_text(a).len())),
        s[i] != ')' && s[i] != '.',
{
    let txt = atom_text(a);
    let n = txt.len() as int;
    assert(s[i] == txt[0]);
    assert forall|k: int| i <= k < i + n implies !is_delim(#[trigger] s[k]) by {
        assert(s[k] == txt[k - i]);
    }
    lemma_token_end_at(s, i, n);
    assert(!is_delim(s[i]));
    assert(ws_len(s, i) == 0);
}

proof fn lemma_parse_tail(s: Seq<char>, atoms: Seq<AtomView>, j: int, pos: int)
    requires
        0 <= j <= atoms.len(),
        0 <= pos <= s.len(),
        forall|i: int| 0 <= i < atoms.len() ==> reads_back(#[trigger] atoms[i]),
        s.subrange(pos, s.len() as int) == render_tail(
            atom_list(atoms.subrange(j, atoms.len() as int)),
        ) + seq![')'],
    ensures
        parse_rest(s, pos) == Ok::<(Sexp, int), RuccoReaderErr>(
            (atom_list(atoms.subrange(j, atoms.len() as int)), s.len() as int),
        ),
    decreases atoms.len() - j,
{
    let n = atoms.len() as int;
    if j == n {
        let e = atoms.subrange(j, n).map_values(|a: AtomView| Sexp::Atom(a));
        assert(e =~= Seq::<Sexp>::empty());
        assert(atom_list(atoms.subrange(j, n)) == nil());
        assert(s[pos] == s.subrange(pos, s.len() as int)[0]);
        assert(ws_len(s, pos) == 0);
    } else {
        let a = atoms[j];
        let txt = atom_text(a);
        let m = txt.len() as int;
        lemma_atom_list_split(atoms, j);
        let rest = atom_list(atoms.subrange(j + 1, n));
        let rest_text = render_tail(rest);
        let sub = s.subrange(pos, s.len() as int);
        assert(render(Sexp::Atom(a)) == txt);
        assert(render_tail(cons(Sexp::Atom(a), rest)) == seq![' '] + render(Sexp::Atom(a))
            + rest_text);
        assert(sub == seq![' '] + txt + rest_text + seq![')']);
        assert(sub.len() == s.len() - pos);
        assert(sub.len() == m + rest_text.len() + 2);
        assert(s[pos] == sub[0]);
        assert(s[pos] == ' ');
        assert(s.subrange(pos + 1, pos + 1 + m) =~= txt) by {
            assert forall|k: int| 0 <= k < m implies s.subrange(pos + 1, pos + 1 + m)[k] == txt[k] by {
                assert(s[pos + 1 + k] == sub[1 + k]);
            }
        }
        let after = pos + 1 + m;
        if j + 1 < n {
            lemma_atom_list_split(atoms, j + 1);
            assert(rest_text[0] == ' ');
            assert(s[after] == sub[1 + m]);
        } else {
            let e = atoms.subrange(j + 1, n).map_values(|a: AtomView| Sexp::Atom(a));
            assert(e =~= Seq::<Sexp>::empty());
            assert(rest == nil());
            assert(rest_text.len() == 0);
            assert(s[after] == sub[1 + m]);
        }
        lemma_parse_atom(s, pos + 1, a);
        assert(!is_ws(s[pos + 1]));
        assert(ws_len(s, pos + 1) == 0);
        assert(s.subrange(after, s.len() as int) =~= rest_text + seq![')']) by {
            assert forall|k: int| 0 <= k < s.len() - after implies s.subrange(
                after,
                s.len() as int,
            )[k] == (rest_text + seq![')'])[k] by {
                assert(s[after + k] == sub[1 + m + k]);
            }
        }
        lemma_parse_tail(s, atoms, j + 1, after);
        assert(seq![Sexp::Atom(a)].drop_first() =~= Seq::<Sexp>::empty());
        assert(list_with_tail(Seq::<Sexp>::empty(), rest) == rest);
        assert(list_with_tail(seq![Sexp::Atom(a)], rest) == cons(Sexp::Atom(a), rest));
        assert(parse(s, pos + 1) == Ok::<(Sexp, int), RuccoReaderErr>((Sexp::Atom(a), after)));
        assert(skip_ws(s, pos) == pos + 1);
    }
}

/// Round trip: the printed form of a nonempty proper list of atoms that
/// read back reads as that same list, using the whole text, so printing what
/// was read gives the text again.
pub proof fn lemma_round_trip(atoms: Seq<AtomView>)
    requires
        atoms.len() > 0,
        forall|i: int| 0 <= i < atoms.len() ==> reads_back(#[trigger] atoms[i]),
    ensures
        parse(render(atom_list(atoms)), 0) == Ok::<(Sexp, int), RuccoReaderErr>(
            (atom_list(atoms), render(atom_list(atoms)).len() as int),
        ),
{
    let n = atoms.len() as int;
    let t = atom_list(atoms);
    let s = render(t);
    assert(atoms.subrange(0, n) =~= atoms);
    lemma_atom_list_split(atoms, 0);
    let a = atoms[0];
    let txt = atom_text(a);
    let m = txt.len() as int;
    let rest = atom_list(atoms.subrange(1, n));
    let rest_text = render_tail(rest);
    assert(render(Sexp::Atom(a)) == txt);
    assert(t == cons(Sexp::Atom(a), rest));
    assert(render(cons(Sexp::Atom(a), rest)) == seq!['('] + render(Sexp::Atom(a)) + rest_text
        + seq![')']);
    assert(s == seq!['('] + txt + rest_text + seq![')']);
    assert(ws_len(s, 0) == 0);
    assert(s.subrange(1, 1 + m) =~= txt) by {
        assert forall|k: int| 0 <= k < m implies s.subrange(1, 1 + m)[k] == txt[k] by {
            assert(s[1 + k] == txt[k]);
        }
    }
    if 1 < n {
        lemma_atom_list_split(atoms, 1);
        assert(rest_text[0] == ' ');
        assert(s[1 + m] == rest_text[0]);
    } else {
        let e = atoms.subrange(1, n).map_values(|a: AtomView| Sexp::Atom(a));
        assert(e =~= Seq::<Sexp>::empty());
        assert(rest == nil());
        assert(rest_text.len() == 0);
        assert(s[1 + m] == ')');
    }
    lemma_parse_atom(s, 1, a);
    assert(!is_ws(s[1]));
    assert(ws_len(s, 1) == 0);
    assert(s.subrange(1 + m, s.len() as int) =~= rest_text + seq![')']) by {
        assert forall|k: int| 0 <= k < s.len() - (1 + m) implies s.subrange(
            1 + m,
            s.len() as int,
        )[k] == (rest_text + seq![')'])[k] by {
            assert(s[1 + m + k] == (rest_text + seq![')'])[k]);
        }
    }
    lemma_parse_tail(s, atoms, 1, 1 + m);
    assert(seq![Sexp::Atom(a)].drop_first() =~= Seq::<Sexp>::empty());
    assert(list_with_tail(Seq::<Sexp>::empty(), rest) == rest);
    assert(list_with_tail(seq![Sexp::Atom(a)], rest) == t);
    assert(parse_list(s, 1) == prepend(seq![Sexp::Atom(a)], parse_rest(s, 1 + m)));
    assert(parse(s, 0) == parse_list(s, 1));
}

} // verus!
