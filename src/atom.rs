use vstd::prelude::*;

verus! {

/// A scalar leaf value.
///
/// A float is held as its decimal literal in canonical form (see
/// `canonical_decimal` in the reader): an optional `-`, the integer digits
/// without leading zeros (at least one digit), then `.` and the fraction
/// digits without trailing zeros when any remain.
#[derive(Debug, Clone, PartialEq, Eq)]
pub enum RuccoAtom {
    Int(i64),
    Float(String),
    Symbol(String),
}

/// What an atom is, mathematically.
pub enum AtomView {
    Int(int),
    Float(Seq<char>),
    Symbol(Seq<char>),
}

impl View for RuccoAtom {
    type V = AtomView;

    open spec fn view(&self) -> AtomView {
        match self {
            RuccoAtom::Int(i) => AtomView::Int(*i as int),
            RuccoAtom::Float(s) => AtomView::Float(s@),
            RuccoAtom::Symbol(s) => AtomView::Symbol(s@),
        }
    }
}

/// The character of a decimal digit `d` (0 to 9).
pub open spec fn digit_char(d: int) -> char {
    (48 + d) as char
}

/// Decimal text of a natural number, without leading zeros.
pub open spec fn nat_text(n: nat) -> Seq<char>
    decreases n,
{
    if n < 10 {
        seq![digit_char(n as int)]
    } else {
        nat_text(n / 10) + seq![digit_char((n % 10) as int)]
    }
}

/// Decimal text of an integer, with a leading `-` when negative.
pub open spec fn int_text(i: int) -> Seq<char> {
    if i < 0 {
        seq!['-'] + nat_text((-i) as nat)
    } else {
        nat_text(i as nat)
    }
}

/// The printed form of an atom.
pub open spec fn atom_text(a: AtomView) -> Seq<char> {
    match a {
        AtomView::Int(i) => int_text(i),
        AtomView::Float(s) => s,
        AtomView::Symbol(s) => s,
    }
}

fn push_nat_text(n: u64, out: &mut Vec<char>)
    ensures
        final(out)@ == old(out)@ + nat_text(n as nat),
    decreases n,
{
    if n >= 10 {
        push_nat_text(n / 10, out);
    }
    let d: u8 = (n % 10) as u8;
    out.push((48u8 + d) as char);
    proof {
        assert((48u8 + d) as char == digit_char((n % 10) as int));
    }
}

/// Appends the decimal text of `i` to `out`.
pub fn push_int_text(i: i64, out: &mut Vec<char>)
    ensures
        final(out)@ == old(out)@ + int_text(i as int),
{
    if i < 0 {
        out.push('-');
        let m: u64 = (0i128 - (i as i128)) as u64;
        push_nat_text(m, out);
        proof {
            assert(final(out)@ =~= old(out)@ + int_text(i as int));
        }
    } else {
        push_nat_text(i as u64, out);
    }
}

impl RuccoAtom {
    /// A symbol atom with the given name.
    pub fn new_symbol(e: &str) -> (r: RuccoAtom)
        ensures
            r@ == AtomView::Symbol(e@),
    {
        RuccoAtom::Symbol(String::from_str(e))
    }

    /// Appends the printed form of this atom to `out`.
    pub fn push_text(&self, out: &mut Vec<char>)
        ensures
            final(out)@ == old(out)@ + atom_text(self@),
    {
        match self {
            RuccoAtom::Int(i) => push_int_text(*i, out),
            RuccoAtom::Float(s) => push_str(s.as_str(), out),
            RuccoAtom::Symbol(s) => push_str(s.as_str(), out),
        }
    }
}

/// Whether `a` is the symbol `name`.
pub fn is_symbol_named(a: &RuccoAtom, name: &str) -> (r: bool)
    ensures
        r == (a@ == AtomView::Symbol(name@)),
{
    match a {
        RuccoAtom::Symbol(s) => {
            let n = String::from_str(name);
            s.eq(&n)
        },
        _ => false,
    }
}

impl RuccoAtom {
    /// Whether two atoms hold the same value.
    pub fn same(&self, other: &RuccoAtom) -> (r: bool)
        ensures
            r == (self@ == other@),
    {
        match (self, other) {
            (RuccoAtom::Int(i), RuccoAtom::Int(j)) => *i == *j,
            (RuccoAtom::Float(s), RuccoAtom::Float(t)) => s.eq(t),
            (RuccoAtom::Symbol(s), RuccoAtom::Symbol(t)) => s.eq(t),
            _ => false,
        }
    }
}

/// Appends the characters of `s` to `out`.
pub fn push_str(s: &str, out: &mut Vec<char>)
    ensures
        final(out)@ == old(out)@ + s@,
{
    let n = s.unicode_len();
    let mut i: usize = 0;
    while i < n
        invariant
            n == s@.len(),
            i <= n,
            out@ == old(out)@ + s@.subrange(0, i as int),
        decreases n - i,
    {
        let c = s.get_char(i);
        out.push(c);
        i = i + 1;
        proof {
            assert(s@.subrange(0, i as int) =~= s@.subrange(0, i - 1) + seq![c]);
        }
    }
    proof {
        assert(s@.subrange(0, n as int) =~= s@);
    }
}

/// Relies on `String: FromIterator<char>`: the string holds the characters in order.
#[verifier::external_body]
pub(crate) fn string_from_chars(chars: &Vec<char>) -> (r: String)
    ensures
        r@ == chars@,
{
    chars.iter().collect()
}

} // verus!
