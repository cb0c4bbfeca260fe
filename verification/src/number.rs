//! The grammar of decimal floating-point literals that `str::parse::<f64>`
//! accepts, as the standard library documents it:
//!
//! ```text
//! Float  ::= Sign? ( 'inf' | 'infinity' | 'nan' | Number )
//! Number ::= ( Digit+ | Digit+ '.' Digit* | Digit* '.' Digit+ ) Exp?
//! Exp    ::= 'e' Sign? Digit+
//! Sign   ::= [+-]
//! Digit  ::= [0-9]
//! ```
//!
//! The grammar applies to the text after ASCII lowercasing.
use vstd::prelude::*;

verus! {

/// An ASCII decimal digit.
pub open spec fn is_digit(c: char) -> bool {
    '0' <= c <= '9'
}

/// A sign character.
pub open spec fn is_sign(c: char) -> bool {
    c == '+' || c == '-'
}

/// An exponent marker (`e` in either case).
pub open spec fn is_exp_marker(c: char) -> bool {
    c == 'e' || c == 'E'
}

/// ASCII lowercasing of one character.
pub open spec fn ascii_lower(c: char) -> char {
    if 'A' <= c <= 'Z' {
        ((c as u32) + 32) as char
    } else {
        c
    }
}

/// `s` equals the lowercase word `w` after ASCII lowercasing.
pub open spec fn eq_ignore_case(s: Seq<char>, w: Seq<char>) -> bool {
    &&& s.len() == w.len()
    &&& forall|i: int| 0 <= i < s.len() ==> ascii_lower(#[trigger] s[i]) == w[i]
}

/// A non-empty run of digits.
pub open spec fn is_digits(s: Seq<char>) -> bool {
    &&& s.len() > 0
    &&& forall|i: int| 0 <= i < s.len() ==> is_digit(#[trigger] s[i])
}

/// `Digit+ | Digit+ '.' Digit* | Digit* '.' Digit+`: digits with at most one
/// point and at least one digit.
pub open spec fn is_mantissa(m: Seq<char>) -> bool {
    &&& forall|i: int| 0 <= i < m.len() ==> is_digit(#[trigger] m[i]) || m[i] == '.'
    &&& forall|i: int, j: int| 0 <= i < j < m.len() ==> !(#[trigger] m[i] == '.' && #[trigger] m[j] == '.')
    &&& exists|i: int| 0 <= i < m.len() && is_digit(#[trigger] m[i])
}

/// `Sign? Digit+`, the part after the exponent marker.
pub open spec fn is_exponent(e: Seq<char>) -> bool {
    ||| is_digits(e)
    ||| e.len() > 0 && is_sign(e[0]) && is_digits(e.drop_first())
}

/// `Number`: a mantissa, optionally followed by an exponent marker and an exponent.
pub open spec fn is_number(t: Seq<char>) -> bool {
    ||| is_mantissa(t)
    ||| exists|p: int|
        0 <= p < t.len() && is_exp_marker(#[trigger] t[p]) && is_mantissa(t.take(p))
            && is_exponent(t.skip(p + 1))
}

/// The text after an optional leading sign.
pub open spec fn unsigned_part(s: Seq<char>) -> Seq<char> {
    if s.len() > 0 && is_sign(s[0]) {
        s.drop_first()
    } else {
        s
    }
}

/// `Float`: the texts on which `str::parse::<f64>` succeeds.
pub open spec fn is_float_literal(s: Seq<char>) -> bool {
    let t = unsigned_part(s);
    ||| eq_ignore_case(t, seq!['i', 'n', 'f'])
    ||| eq_ignore_case(t, seq!['i', 'n', 'f', 'i', 'n', 'i', 't', 'y'])
    ||| eq_ignore_case(t, seq!['n', 'a', 'n'])
    ||| is_number(t)
}

fn is_digit_char(c: char) -> (r: bool)
    ensures
        r == is_digit(c),
{
    '0' <= c && c <= '9'
}

fn lower_char(c: char) -> (r: char)
    ensures
        r == ascii_lower(c),
{
    if 'A' <= c && c <= 'Z' {
        let u = (c as u32) + 32;
        // `u` is an ASCII lowercase letter.
        if u == 97 {
            'a'
        } else if u == 98 {
            'b'
        } else if u == 99 {
            'c'
        } else if u == 100 {
            'd'
        } else if u == 101 {
            'e'
        } else if u == 102 {
            'f'
        } else if u == 103 {
            'g'
        } else if u == 104 {
            'h'
        } else if u == 105 {
            'i'
        } else if u == 106 {
            'j'
        } else if u == 107 {
            'k'
        } else if u == 108 {
            'l'
        } else if u == 109 {
            'm'
        } else if u == 110 {
            'n'
        } else if u == 111 {
            'o'
        } else if u == 112 {
            'p'
        } else if u == 113 {
            'q'
        } else if u == 114 {
            'r'
        } else if u == 115 {
            's'
        } else if u == 116 {
            't'
        } else if u == 117 {
            'u'
        } else if u == 118 {
            'v'
        } else if u == 119 {
            'w'
        } else if u == 120 {
            'x'
        } else if u == 121 {
            'y'
        } else {
            'z'
        }
    } else {
        c
    }
}

fn eq_ignore_case_at(v: &[char], start: usize, w: &[char]) -> (r: bool)
    requires
        start <= v@.len(),
    ensures
        r == eq_ignore_case(v@.skip(start as int), w@),
{
    let n = v.len();
    let m = w.len();
    if n - start != m {
        return false;
    }
    let mut i: usize = 0;
    while i < m
        invariant
            n == v@.len(),
            m == w@.len(),
            start + m == n,
            i <= m,
            forall|k: int| 0 <= k < i ==> ascii_lower(v@[start + k]) == w@[k],
        decreases m - i,
    {
        if lower_char(v[start + i]) != w[i] {
            assert(ascii_lower(v@.skip(start as int)[i as int]) != w@[i as int]);
            return false;
        }
        i = i + 1;
    }
    assert forall|k: int| 0 <= k < v@.skip(start as int).len() implies ascii_lower(
        #[trigger] v@.skip(start as int)[k],
    ) == w@[k] by {
        assert(v@.skip(start as int)[k] == v@[start + k]);
    }
    true
}

/// Whether `v[from..to]` is a mantissa.
fn mantissa_between(v: &[char], from: usize, to: usize) -> (r: bool)
    requires
        from <= to <= v@.len(),
    ensures
        r == is_mantissa(v@.subrange(from as int, to as int)),
{
    let ghost m = v@.subrange(from as int, to as int);
    let mut points: usize = 0;
    let mut digits: bool = false;
    let mut i = from;
    let mut point_at: usize = 0;
    while i < to
        invariant
            from <= i <= to <= v@.len(),
            m == v@.subrange(from as int, to as int),
            forall|k: int| 0 <= k < i - from ==> is_digit(#[trigger] m[k]) || m[k] == '.',
            points <= 1,
            points == 0 ==> forall|k: int| 0 <= k < i - from ==> #[trigger] m[k] != '.',
            points == 1 ==> 0 <= point_at < i - from && m[point_at as int] == '.' && forall|k: int|
                0 <= k < i - from && k != point_at ==> #[trigger] m[k] != '.',
            digits <==> exists|k: int| 0 <= k < i - from && is_digit(#[trigger] m[k]),
        decreases to - i,
    {
        let c = v[i];
        assert(m[i - from] == c);
        if is_digit_char(c) {
            digits = true;
        } else if c == '.' {
            if points == 1 {
                assert(m[point_at as int] == '.' && m[i - from] == '.');
                return false;
            }
            points = 1;
            point_at = i - from;
        } else {
            assert(!(is_digit(m[i - from]) || m[i - from] == '.'));
            return false;
        }
        i = i + 1;
    }
    digits
}

/// Whether `v[from..]` is a non-empty run of digits.
fn digits_from(v: &[char], from: usize) -> (r: bool)
    requires
        from <= v@.len(),
    ensures
        r == is_digits(v@.skip(from as int)),
{
    let n = v.len();
    if from == n {
        return false;
    }
    let mut i = from;
    while i < n
        invariant
            n == v@.len(),
            from <= i <= n,
            forall|k: int| from <= k < i ==> is_digit(#[trigger] v@[k]),
        decreases n - i,
    {
        if !is_digit_char(v[i]) {
            assert(!is_digit(v@.skip(from as int)[i - from]));
            return false;
        }
        i = i + 1;
    }
    assert forall|k: int| 0 <= k < v@.skip(from as int).len() implies is_digit(
        #[trigger] v@.skip(from as int)[k],
    ) by {
        assert(v@.skip(from as int)[k] == v@[from + k]);
    }
    true
}

/// Whether `v[from..]` is an exponent.
fn exponent_from(v: &[char], from: usize) -> (r: bool)
    requires
        from <= v@.len(),
    ensures
        r == is_exponent(v@.skip(from as int)),
{
    let n = v.len();
    if from < n && (v[from] == '+' || v[from] == '-') {
        let r = digits_from(v, from + 1);
        assert(v@.skip(from as int).drop_first() =~= v@.skip(from + 1));
        if !r {
            assert(!is_digits(v@.skip(from as int))) by {
                assert(!is_digit(v@.skip(from as int)[0]));
            }
        }
        r
    } else {
        digits_from(v, from)
    }
}

/// Whether `v[from..]` is a `Number`.
fn number_from(v: &[char], from: usize) -> (r: bool)
    requires
        from <= v@.len(),
    ensures
        r == is_number(v@.skip(from as int)),
{
    let n = v.len();
    let ghost t = v@.skip(from as int);
    let mut p = from;
    while p < n && v[p] != 'e' && v[p] != 'E'
        invariant
            n == v@.len(),
            from <= p <= n,
            forall|k: int| from <= k < p ==> !is_exp_marker(#[trigger] v@[k]),
        decreases n - p,
    {
        p = p + 1;
    }
    assert(v@.subrange(from as int, n as int) =~= t);
    if p == n {
        let r = mantissa_between(v, from, n);
        assert forall|q: int| 0 <= q < t.len() implies !is_exp_marker(#[trigger] t[q]) by {
            assert(t[q] == v@[from + q]);
        }
        r
    } else {
        let rm = mantissa_between(v, from, p);
        let re = exponent_from(v, p + 1);
        let ghost q = p - from;
        assert(t[q] == v@[p as int]);
        assert(v@.subrange(from as int, p as int) =~= t.take(q));
        assert(v@.skip(p + 1) =~= t.skip(q + 1));
        // `t` is not a mantissa: it holds an exponent marker.
        assert(!is_mantissa(t)) by {
            assert(!(is_digit(t[q]) || t[q] == '.'));
        }
        if rm && re {
            assert(is_exp_marker(t[q]) && is_mantissa(t.take(q)) && is_exponent(t.skip(q + 1)));
        } else {
            // Any other marker position fails too: an earlier one does not
            // exist, a later one leaves a marker inside the mantissa.
            assert forall|p2: int|
                0 <= p2 < t.len() && is_exp_marker(#[trigger] t[p2]) implies !(is_mantissa(
                t.take(p2),
            ) && is_exponent(t.skip(p2 + 1))) by {
                if p2 < q {
                    assert(t[p2] == v@[from + p2]);
                } else if p2 > q {
                    assert(t.take(p2)[q] == t[q]);
                    assert(!(is_digit(t.take(p2)[q]) || t.take(p2)[q] == '.'));
                }
            }
        }
        rm && re
    }
}

/// Whether `str::parse::<f64>` succeeds on `s`, decided by the documented
/// grammar.
pub fn parses_as_float(s: &str) -> (r: bool)
    ensures
        r == is_float_literal(s@),
{
    let v = crate::text::chars_of(s);
    let n = v.len();
    let start: usize = if n > 0 && (v[0] == '+' || v[0] == '-') {
        1
    } else {
        0
    };
    assert(v@.skip(start as int) =~= unsigned_part(s@));
    let inf = ['i', 'n', 'f'];
    let infinity = ['i', 'n', 'f', 'i', 'n', 'i', 't', 'y'];
    let nan = ['n', 'a', 'n'];
    assert(inf@ =~= seq!['i', 'n', 'f']);
    assert(infinity@ =~= seq!['i', 'n', 'f', 'i', 'n', 'i', 't', 'y']);
    assert(nan@ =~= seq!['n', 'a', 'n']);
    let v = v.as_slice();
    eq_ignore_case_at(v, start, inf.as_slice()) || eq_ignore_case_at(v, start, infinity.as_slice())
        || eq_ignore_case_at(v, start, nan.as_slice()) || number_from(v, start)
}

} // verus!
