use vstd::prelude::*;

use crate::atom::AtomView;

verus! {

/// Unicode White_Space, the class `char::is_whitespace` tests.
pub open spec fn is_ws(c: char) -> bool {
    let n = c as u32;
    ||| n == 32
    ||| 9 <= n <= 13
    ||| n == 0x85
    ||| n == 0xa0
    ||| n == 0x1680
    ||| 0x2000 <= n <= 0x200a
    ||| n == 0x2028
    ||| n == 0x2029
    ||| n == 0x202f
    ||| n == 0x205f
    ||| n == 0x3000
}

/// Characters that end a token.
pub open spec fn is_delim(c: char) -> bool {
    is_ws(c) || c == '(' || c == ')'
}

pub open spec fn is_digit(c: char) -> bool {
    48 <= c as u32 <= 57
}

pub open spec fn digit_value(c: char) -> nat {
    (c as u32 - 48) as nat
}

/// The number of whitespace characters from `i` on.
pub open spec fn ws_len(s: Seq<char>, i: int) -> nat
    decreases s.len() - i,
{
    if 0 <= i < s.len() && is_ws(s[i]) {
        1 + ws_len(s, i + 1)
    } else {
        0
    }
}

/// The end of the token that starts at `i`: the first delimiter, or the end.
pub open spec fn token_end(s: Seq<char>, i: int) -> int
    decreases s.len() - i,
{
    if 0 <= i < s.len() && !is_delim(s[i]) {
        token_end(s, i + 1)
    } else {
        i
    }
}

/// The end of the run of digits that starts at `i`.
pub open spec fn digit_run(t: Seq<char>, i: int) -> int
    decreases t.len() - i,
{
    if 0 <= i < t.len() && is_digit(t[i]) {
        digit_run(t, i + 1)
    } else {
        i
    }
}

/// 1 when the token starts with a sign.
pub open spec fn sign_len(t: Seq<char>) -> int {
    if t.len() > 0 && (t[0] == '+' || t[0] == '-') {
        1
    } else {
        0
    }
}

/// `[+-]?[0-9]+`
pub open spec fn is_int_token(t: Seq<char>) -> bool {
    let b = sign_len(t);
    b < t.len() && digit_run(t, b) == t.len()
}

/// `[+-]?[0-9]*\.[0-9]+`
pub open spec fn is_float_token(t: Seq<char>) -> bool {
    let b = sign_len(t);
    let p = digit_run(t, b);
    &&& p + 1 < t.len()
    &&& t[p] == '.'
    &&& digit_run(t, p + 1) == t.len()
}

pub open spec fn digits_value(d: Seq<char>) -> nat
    decreases d.len(),
{
    if d.len() == 0 {
        0
    } else {
        digits_value(d.drop_last()) * 10 + digit_value(d.last())
    }
}

/// The value of an integer token.
pub open spec fn int_value(t: Seq<char>) -> int {
    let v = digits_value(t.subrange(sign_len(t), t.len() as int)) as int;
    if t[0] == '-' {
        -v
    } else {
        v
    }
}

pub open spec fn fits_i64(v: int) -> bool {
    i64::MIN <= v <= i64::MAX
}

pub open spec fn trim_leading_zeros(d: Seq<char>) -> Seq<char>
    decreases d.len(),
{
    if d.len() > 0 && d[0] == '0' {
        trim_leading_zeros(d.drop_first())
    } else {
        d
    }
}

pub open spec fn trim_trailing_zeros(d: Seq<char>) -> Seq<char>
    decreases d.len(),
{
    if d.len() > 0 && d.last() == '0' {
        trim_trailing_zeros(d.drop_last())
    } else {
        d
    }
}

/// The canonical text of a float token: no `+`, no leading zeros in the
/// integer part (but at least one digit), no trailing zeros in the fraction,
/// and no `.` when the fraction is zero.
pub open spec fn canonical_decimal(t: Seq<char>) -> Seq<char> {
    let b = sign_len(t);
    let p = digit_run(t, b);
    let ip = trim_leading_zeros(t.subrange(b, p));
    let fp = trim_trailing_zeros(t.subrange(p + 1, t.len() as int));
    (if t[0] == '-' {
        seq!['-']
    } else {
        Seq::empty()
    }) + (if ip.len() == 0 {
        seq!['0']
    } else {
        ip
    }) + (if fp.len() == 0 {
        Seq::empty()
    } else {
        seq!['.'] + fp
    })
}

/// The atom a token stands for: an integer that fits in 64 bits, else a
/// float, else a symbol.
pub open spec fn token_atom(t: Seq<char>) -> AtomView {
    if is_int_token(t) && fits_i64(int_value(t)) {
        AtomView::Int(int_value(t))
    } else if is_float_token(t) {
        AtomView::Float(canonical_decimal(t))
    } else {
        AtomView::Symbol(t)
    }
}

pub fn is_whitespace(c: char) -> (r: bool)
    ensures
        r == is_ws(c),
{
    let n = c as u32;
    n == 32 || (9 <= n && n <= 13) || n == 0x85 || n == 0xa0 || n == 0x1680 || (0x2000 <= n && n
        <= 0x200a) || n == 0x2028 || n == 0x2029 || n == 0x202f || n == 0x205f || n == 0x3000
}

pub fn is_delimiter(c: char) -> (r: bool)
    ensures
        r == is_delim(c),
{
    is_whitespace(c) || c == '(' || c == ')'
}

fn is_digit_char(c: char) -> (r: bool)
    ensures
        r == is_digit(c),
{
    let n = c as u32;
    48 <= n && n <= 57
}

fn digit_run_from(t: &Vec<char>, i: usize) -> (r: usize)
    requires
        i <= t@.len(),
    ensures
        r == digit_run(t@, i as int),
        i <= r <= t@.len(),
{
    let mut k = i;
    while k < t.len() && is_digit_char(t[k])
        invariant
            i <= k <= t@.len(),
            digit_run(t@, i as int) == digit_run(t@, k as int),
        decreases t@.len() - k,
    {
        k = k + 1;
    }
    k
}

proof fn lemma_digits_grow(d: Seq<char>, i: int)
    requires
        0 <= i < d.len(),
    ensures
        digits_value(d.subrange(0, i + 1)) == digits_value(d.subrange(0, i)) * 10 + digit_value(
            d[i],
        ),
{
    assert(d.subrange(0, i + 1).drop_last() =~= d.subrange(0, i));
}

/// The value of the digits `t[lo..]`, or `None` when it exceeds 2^63.
fn digits_magnitude(t: &Vec<char>, lo: usize) -> (r: Option<u64>)
    requires
        lo <= t@.len(),
        forall|i: int| lo <= i < t@.len() ==> is_digit(#[trigger] t@[i]),
    ensures
        r matches Some(m) ==> m == digits_value(t@.subrange(lo as int, t@.len() as int)) && m
            <= 0x8000_0000_0000_0000u64,
        r is None ==> digits_value(t@.subrange(lo as int, t@.len() as int))
            > 0x8000_0000_0000_0000u64,
{
    let ghost d = t@.subrange(lo as int, t@.len() as int);
    let mut acc: u64 = 0;
    let mut big = false;
    let mut i = lo;
    proof {
        assert(d.subrange(0, 0) =~= Seq::<char>::empty());
    }
    while i < t.len()
        invariant
            lo <= i <= t@.len(),
            d == t@.subrange(lo as int, t@.len() as int),
            forall|k: int| lo <= k < t@.len() ==> is_digit(#[trigger] t@[k]),
            !big ==> acc == digits_value(d.subrange(0, i - lo)) && acc <= 0x8000_0000_0000_0000u64,
            big ==> digits_value(d.subrange(0, i - lo)) > 0x8000_0000_0000_0000u64,
        decreases t@.len() - i,
    {
        let c = t[i];
        let dv = (c as u32 - 48) as u64;
        proof {
            assert(d[i - lo] == c);
            lemma_digits_grow(d, i - lo);
        }
        if !big {
            let next: u128 = (acc as u128) * 10 + (dv as u128);
            if next > 0x8000_0000_0000_0000u128 {
                big = true;
            } else {
                acc = next as u64;
            }
        }
        i = i + 1;
    }
    proof {
        assert(d.subrange(0, d.len() as int) =~= d);
    }
    if big {
        None
    } else {
        Some(acc)
    }
}

/// Appends the digits `t[lo..hi]` to `out`.
fn push_range(t: &Vec<char>, lo: usize, hi: usize, out: &mut Vec<char>)
    requires
        lo <= hi <= t@.len(),
    ensures
        final(out)@ == old(out)@ + t@.subrange(lo as int, hi as int),
{
    let mut i = lo;
    while i < hi
        invariant
            lo <= i <= hi,
            hi <= t@.len(),
            out@ == old(out)@ + t@.subrange(lo as int, i as int),
        decreases hi - i,
    {
        out.push(t[i]);
        i = i + 1;
        proof {
            assert(t@.subrange(lo as int, i as int) =~= t@.subrange(lo as int, i - 1) + seq![
                t@[i - 1],
            ]);
        }
    }
}

/// The canonical text of a float token.
fn canonical_float(t: &Vec<char>) -> (r: Vec<char>)
    requires
        is_float_token(t@),
    ensures
        r@ == canonical_decimal(t@),
{
    let ghost s = t@;
    let n = t.len();
    let b: usize = if t[0] == '+' || t[0] == '-' {
        1
    } else {
        0
    };
    let p = digit_run_from(t, b);
    let mut out: Vec<char> = Vec::new();
    if t[0] == '-' {
        out.push('-');
    }
    let ghost o1 = out@;
    let mut k = b;
    while k < p && t[k] == '0'
        invariant
            b <= k <= p,
            p < n,
            s == t@,
            n == t@.len(),
            trim_leading_zeros(s.subrange(b as int, p as int)) == trim_leading_zeros(
                s.subrange(k as int, p as int),
            ),
        decreases p - k,
    {
        proof {
            assert(s.subrange(k as int, p as int).drop_first() =~= s.subrange(k + 1, p as int));
        }
        k = k + 1;
    }
    proof {
        let sub = s.subrange(k as int, p as int);
        if k < p {
            assert(sub[0] == t@[k as int]);
        }
        assert(trim_leading_zeros(sub) == sub);
    }
    if k == p {
        out.push('0');
    } else {
        push_range(t, k, p, &mut out);
    }
    let ghost o2 = out@;
    let mut e = n;
    while e > p + 1 && t[e - 1] == '0'
        invariant
            p + 1 <= e <= n,
            n == t@.len(),
            s == t@,
            trim_trailing_zeros(s.subrange(p + 1, n as int)) == trim_trailing_zeros(
                s.subrange(p + 1, e as int),
            ),
        decreases e,
    {
        proof {
            assert(s.subrange(p + 1, e as int).drop_last() =~= s.subrange(p + 1, e - 1));
        }
        e = e - 1;
    }
    proof {
        let sub = s.subrange(p + 1, e as int);
        if e > p + 1 {
            assert(sub.last() == t@[e - 1]);
        }
        assert(trim_trailing_zeros(sub) == sub);
    }
    if e > p + 1 {
        out.push('.');
        push_range(t, p + 1, e, &mut out);
    }
    proof {
        assert(out@ =~= canonical_decimal(s));
    }
    out
}

/// What a token reads as.
pub enum TokenValue {
    Int(i64),
    Float(Vec<char>),
    Symbol,
}

/// Classifies a token (a nonempty run of non-delimiters).
pub fn classify_token(t: &Vec<char>) -> (r: TokenValue)
    requires
        t@.len() > 0,
    ensures
        r matches TokenValue::Int(v) ==> token_atom(t@) == AtomView::Int(v as int),
        r matches TokenValue::Float(f) ==> token_atom(t@) == AtomView::Float(f@),
        r is Symbol ==> token_atom(t@) == AtomView::Symbol(t@),
{
    let n = t.len();
    let b: usize = if t[0] == '+' || t[0] == '-' {
        1
    } else {
        0
    };
    let p = digit_run_from(t, b);
    if b < n && p == n {
        proof {
            assert forall|i: int| b <= i < n implies is_digit(#[trigger] t@[i]) by {
                lemma_digit_run_all(t@, b as int, i);
            }
        }
        match digits_magnitude(t, b) {
            Some(m) => {
                if t[0] == '-' {
                    let v: i64 = if m == 0x8000_0000_0000_0000u64 {
                        i64::MIN
                    } else {
                        -(m as i64)
                    };
                    return TokenValue::Int(v);
                } else if m <= 0x7fff_ffff_ffff_ffffu64 {
                    return TokenValue::Int(m as i64);
                }
            },
            None => {},
        }
    }
    if p < n - 1 && t[p] == '.' && digit_run_from(t, p + 1) == n {
        return TokenValue::Float(canonical_float(t));
    }
    TokenValue::Symbol
}

proof fn lemma_digit_run_all(t: Seq<char>, i: int, k: int)
    requires
        0 <= i <= k < t.len(),
        digit_run(t, i) == t.len(),
    ensures
        is_digit(t[k]),
    decreases k - i,
{
    if i < k {
        lemma_digit_run_all(t, i + 1, k);
    }
}

} // verus!
