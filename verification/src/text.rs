//! Character-level text operations: whitespace, trimming, UTF-8 byte
//! lengths, word counts, substring replacement, joining, line splitting
//! and decimal formatting.
use vstd::prelude::*;
use vstd::utf8::*;

verus! {

// ---------------------------------------------------------------------------
// Specifications
// ---------------------------------------------------------------------------

/// The Unicode `White_Space` property (the set that `char::is_whitespace`,
/// `str::trim` and `str::split_whitespace` use).
pub open spec fn is_ws(c: char) -> bool {
    let u = c as u32;
    ||| 0x09 <= u <= 0x0D
    ||| u == 0x20
    ||| u == 0x85
    ||| u == 0xA0
    ||| u == 0x1680
    ||| 0x2000 <= u <= 0x200A
    ||| u == 0x2028
    ||| u == 0x2029
    ||| u == 0x202F
    ||| u == 0x205F
    ||| u == 0x3000
}

/// Every character of `s` is whitespace.
pub open spec fn all_ws(s: Seq<char>) -> bool {
    forall|i: int| 0 <= i < s.len() ==> is_ws(#[trigger] s[i])
}

/// `s` without its leading whitespace.
pub open spec fn trim_start(s: Seq<char>) -> Seq<char>
    decreases s.len(),
{
    if s.len() > 0 && is_ws(s[0]) {
        trim_start(s.drop_first())
    } else {
        s
    }
}

/// `s` without its trailing whitespace.
pub open spec fn trim_end(s: Seq<char>) -> Seq<char>
    decreases s.len(),
{
    if s.len() > 0 && is_ws(s.last()) {
        trim_end(s.drop_last())
    } else {
        s
    }
}

/// `s` without leading and trailing whitespace (`str::trim`).
pub open spec fn trim(s: Seq<char>) -> Seq<char> {
    trim_end(trim_start(s))
}

/// The number of bytes of the UTF-8 encoding of `c`.
pub open spec fn char_width(c: char) -> nat {
    let u = c as u32;
    if u <= 0x7F {
        1
    } else if u <= 0x7FF {
        2
    } else if u <= 0xFFFF {
        3
    } else {
        4
    }
}

/// The number of bytes of the UTF-8 encoding of `s` (what `str::len` returns).
pub open spec fn utf8_len(s: Seq<char>) -> nat
    decreases s.len(),
{
    if s.len() == 0 {
        0
    } else {
        char_width(s[0]) + utf8_len(s.drop_first())
    }
}

/// Position `i` of `s` starts a word: a non-whitespace character that is
/// first or follows whitespace.
pub open spec fn starts_word(s: Seq<char>, i: int) -> bool {
    &&& !is_ws(s[i])
    &&& (i == 0 || is_ws(s[i - 1]))
}

/// The number of whitespace-separated words of `s`
/// (`str::split_whitespace().count()`).
pub open spec fn word_count(s: Seq<char>) -> nat
    decreases s.len(),
{
    if s.len() == 0 {
        0
    } else {
        word_count(s.drop_last()) + if starts_word(s, s.len() - 1) {
            1nat
        } else {
            0nat
        }
    }
}

/// `s` with every occurrence of the non-empty pattern `pat` replaced by `rep`,
/// scanning left to right without overlap (`str::replace`).
pub open spec fn replace_all(s: Seq<char>, pat: Seq<char>, rep: Seq<char>) -> Seq<char>
    decreases s.len(),
{
    if pat.len() == 0 || s.len() < pat.len() {
        s
    } else if s.take(pat.len() as int) == pat {
        rep + replace_all(s.skip(pat.len() as int), pat, rep)
    } else {
        seq![s[0]] + replace_all(s.drop_first(), pat, rep)
    }
}

/// The parts joined with `sep` between consecutive parts (`[String]::join`).
pub open spec fn join(parts: Seq<Seq<char>>, sep: Seq<char>) -> Seq<char>
    decreases parts.len(),
{
    if parts.len() == 0 {
        seq![]
    } else if parts.len() == 1 {
        parts[0]
    } else {
        join(parts.drop_last(), sep) + sep + parts.last()
    }
}

/// The index of the first `'\n'` at or after `i`, or `s.len()` if there is none.
pub open spec fn newline_at_or_after(s: Seq<char>, i: int) -> int
    decreases s.len() - i,
{
    if i < 0 || i >= s.len() {
        s.len() as int
    } else if s[i] == '\n' {
        i
    } else {
        newline_at_or_after(s, i + 1)
    }
}

/// The line that starts at `i` and ends before `j` (`j` a newline position or
/// the end): a `'\r'` right before a newline is dropped.
pub open spec fn line_between(s: Seq<char>, i: int, j: int) -> Seq<char> {
    let l = s.subrange(i, j);
    if j < s.len() && l.len() > 0 && l.last() == '\r' {
        l.drop_last()
    } else {
        l
    }
}

/// The lines of `s` from position `i` on (`str::lines`).
pub open spec fn lines_from(s: Seq<char>, i: int) -> Seq<Seq<char>>
    decreases s.len() + 1 - i,
{
    if i < 0 || i >= s.len() {
        seq![]
    } else {
        let j = newline_at_or_after(s, i);
        proof {
            lemma_newline_bounds(s, i);
        }
        seq![line_between(s, i, j)] + lines_from(s, j + 1)
    }
}

/// The next newline position lies between `i` and the end.
pub proof fn lemma_newline_bounds(s: Seq<char>, i: int)
    requires
        0 <= i <= s.len(),
    ensures
        i <= newline_at_or_after(s, i) <= s.len(),
    decreases s.len() - i,
{
    if i < s.len() && s[i] != '\n' {
        lemma_newline_bounds(s, i + 1);
    }
}

/// The lines `ls`, each followed by a newline, one after the other.
pub open spec fn joined_lines(ls: Seq<Seq<char>>) -> Seq<char>
    decreases ls.len(),
{
    if ls.len() == 0 {
        seq![]
    } else {
        joined_lines(ls.drop_last()) + ls.last() + seq!['\n']
    }
}

/// Joining a line in front of other lines puts it and a newline in front.
proof fn lemma_joined_lines_prepend(l: Seq<char>, rest: Seq<Seq<char>>)
    ensures
        joined_lines(seq![l] + rest) == l + seq!['\n'] + joined_lines(rest),
    decreases rest.len(),
{
    if rest.len() == 0 {
        let all = seq![l] + rest;
        assert(all.drop_last() =~= Seq::<Seq<char>>::empty());
        assert(all.last() == l);
        assert(joined_lines(Seq::<Seq<char>>::empty()) == Seq::<char>::empty());
        assert(joined_lines(all) == joined_lines(all.drop_last()) + all.last() + seq!['\n']);
        assert(joined_lines(all) =~= l + seq!['\n'] + joined_lines(rest));
    } else {
        lemma_joined_lines_prepend(l, rest.drop_last());
        let all = seq![l] + rest;
        assert(all.drop_last() =~= seq![l] + rest.drop_last());
        assert(all.last() == rest.last());
        assert(joined_lines(all) == joined_lines(all.drop_last()) + all.last() + seq!['\n']);
        assert(joined_lines(rest) == joined_lines(rest.drop_last()) + rest.last() + seq!['\n']);
        assert(joined_lines(all) =~= l + seq!['\n'] + joined_lines(rest));
    }
}

/// The next newline at or after `i` is a newline, with none before it.
proof fn lemma_newline_found(s: Seq<char>, i: int)
    requires
        0 <= i <= s.len(),
    ensures
        newline_at_or_after(s, i) < s.len() ==> s[newline_at_or_after(s, i)] == '\n',
        forall|k: int| i <= k < newline_at_or_after(s, i) ==> s[k] != '\n',
    decreases s.len() - i,
{
    if i < s.len() && s[i] != '\n' {
        lemma_newline_found(s, i + 1);
    }
}

/// Without carriage returns, the lines of `s` from `i` on, each followed by
/// a newline, are the rest of `s`, with a newline added when `s` does not
/// end with one.
pub proof fn lemma_joined_lines_from(s: Seq<char>, i: int)
    requires
        0 <= i <= s.len(),
        forall|k: int| 0 <= k < s.len() ==> s[k] != '\r',
    ensures
        joined_lines(lines_from(s, i)) == if i >= s.len() {
            Seq::<char>::empty()
        } else if s.last() == '\n' {
            s.skip(i)
        } else {
            s.skip(i) + seq!['\n']
        },
    decreases s.len() - i,
{
    if i < s.len() {
        let j = newline_at_or_after(s, i);
        lemma_newline_bounds(s, i);
        lemma_newline_found(s, i);
        let l = line_between(s, i, j);
        assert(l == s.subrange(i, j));
        lemma_joined_lines_prepend(l, lines_from(s, j + 1));
        if j < s.len() {
            lemma_joined_lines_from(s, j + 1);
            if j + 1 >= s.len() {
                assert(s.subrange(i, j) + seq!['\n'] =~= s.skip(i));
            } else if s.last() == '\n' {
                assert(s.subrange(i, j) + seq!['\n'] + s.skip(j + 1) =~= s.skip(i));
            } else {
                assert(s.subrange(i, j) + seq!['\n'] + (s.skip(j + 1) + seq!['\n']) =~= s.skip(i)
                    + seq!['\n']);
            }
        } else {
            assert(s[s.len() - 1] != '\n');
            assert(lines_from(s, j + 1) =~= Seq::<Seq<char>>::empty());
            assert(joined_lines(Seq::<Seq<char>>::empty()) =~= Seq::<char>::empty());
            assert(s.subrange(i, j) + seq!['\n'] + Seq::<char>::empty() =~= s.skip(i) + seq!['\n']);
        }
    }
}

/// A trailing newline changes neither the trimmed text nor whether the text
/// is all whitespace.
pub proof fn lemma_trim_trailing_newline(x: Seq<char>)
    ensures
        trim(x + seq!['\n']) == trim(x),
        all_ws(x + seq!['\n']) == all_ws(x),
{
    let y = x + seq!['\n'];
    assert(is_ws('\n'));
    assert(y.last() == '\n');
    if all_ws(x) {
        assert forall|k: int| 0 <= k < y.len() implies is_ws(#[trigger] y[k]) by {
            if k < x.len() {
                assert(y[k] == x[k]);
            }
        }
        lemma_trim_empty(x);
        lemma_trim_empty(y);
    } else {
        let k = choose|k: int| 0 <= k < x.len() && !is_ws(#[trigger] x[k]);
        assert(y[k] == x[k]);
        lemma_trim_start_append_newline(x);
        let t = trim_start(x);
        assert((t + seq!['\n']).drop_last() =~= t);
    }
}

/// Trimming the start of a text with a non-space character is not affected
/// by a newline at its end.
proof fn lemma_trim_start_append_newline(x: Seq<char>)
    requires
        !all_ws(x),
    ensures
        trim_start(x + seq!['\n']) == trim_start(x) + seq!['\n'],
    decreases x.len(),
{
    let y = x + seq!['\n'];
    assert(y[0] == x[0]);
    if is_ws(x[0]) {
        assert(y.drop_first() =~= x.drop_first() + seq!['\n']);
        assert(!all_ws(x.drop_first())) by {
            let k = choose|k: int| 0 <= k < x.len() && !is_ws(#[trigger] x[k]);
            assert(k > 0);
            assert(x.drop_first()[k - 1] == x[k]);
        }
        lemma_trim_start_append_newline(x.drop_first());
    }
}

/// The character sequences held by a sequence of vectors.
pub open spec fn views_of(v: Seq<Vec<char>>) -> Seq<Seq<char>> {
    v.map_values(|l: Vec<char>| l@)
}

/// The lines of `s` (`str::lines`).
pub open spec fn lines(s: Seq<char>) -> Seq<Seq<char>> {
    lines_from(s, 0)
}

/// The ASCII decimal digit for `d < 10`.
pub open spec fn digit(d: nat) -> char {
    if d == 0 {
        '0'
    } else if d == 1 {
        '1'
    } else if d == 2 {
        '2'
    } else if d == 3 {
        '3'
    } else if d == 4 {
        '4'
    } else if d == 5 {
        '5'
    } else if d == 6 {
        '6'
    } else if d == 7 {
        '7'
    } else if d == 8 {
        '8'
    } else {
        '9'
    }
}

/// The decimal representation of `n`, without leading zeros (`Display` of an
/// unsigned integer).
pub open spec fn decimal(n: nat) -> Seq<char>
    decreases n,
{
    if n < 10 {
        seq![digit(n)]
    } else {
        decimal(n / 10).push(digit(n % 10))
    }
}

// ---------------------------------------------------------------------------
// Lemmas
// ---------------------------------------------------------------------------

/// The width of a character is the length of its UTF-8 encoding.
pub proof fn lemma_char_width(c: char)
    ensures
        encode_scalar(c as u32).len() == char_width(c),
        1 <= char_width(c) <= 4,
{
    char_is_scalar(c);
}

/// `utf8_len` is the length of `encode_utf8`.
pub proof fn lemma_utf8_len(s: Seq<char>)
    ensures
        utf8_len(s) == encode_utf8(s).len(),
    decreases s.len(),
{
    if s.len() > 0 {
        lemma_char_width(s[0]);
        lemma_utf8_len(s.drop_first());
    }
}

/// The byte length of a concatenation is the sum of the byte lengths.
pub proof fn lemma_utf8_len_concat(a: Seq<char>, b: Seq<char>)
    ensures
        utf8_len(a + b) == utf8_len(a) + utf8_len(b),
    decreases a.len(),
{
    if a.len() > 0 {
        assert((a + b).drop_first() =~= a.drop_first() + b);
        lemma_utf8_len_concat(a.drop_first(), b);
    } else {
        assert(a + b =~= b);
    }
}

/// Adding one character to a prefix adds its width.
pub proof fn lemma_utf8_len_take_next(s: Seq<char>, k: int)
    requires
        0 <= k < s.len(),
    ensures
        utf8_len(s.take(k + 1)) == utf8_len(s.take(k)) + char_width(s[k]),
{
    assert(s.take(k + 1) =~= s.take(k) + seq![s[k]]);
    lemma_utf8_len_concat(s.take(k), seq![s[k]]);
    assert(seq![s[k]].drop_first() =~= Seq::<char>::empty());
    assert(utf8_len(Seq::<char>::empty()) == 0);
    assert(utf8_len(seq![s[k]]) == char_width(s[k]) + utf8_len(seq![s[k]].drop_first()));
}

/// Longer prefixes have at least as many bytes, and strictly more when longer.
pub proof fn lemma_utf8_len_take_mono(s: Seq<char>, k1: int, k2: int)
    requires
        0 <= k1 <= k2 <= s.len(),
    ensures
        utf8_len(s.take(k1)) + (k2 - k1) <= utf8_len(s.take(k2)),
    decreases k2 - k1,
{
    if k1 < k2 {
        lemma_utf8_len_take_mono(s, k1, k2 - 1);
        lemma_utf8_len_take_next(s, k2 - 1);
        lemma_char_width(s[k2 - 1]);
    }
}

/// `trim_start` removes exactly the leading whitespace.
proof fn lemma_trim_start_skip(s: Seq<char>, i: int)
    requires
        0 <= i <= s.len(),
        forall|k: int| 0 <= k < i ==> is_ws(#[trigger] s[k]),
    ensures
        trim_start(s) == trim_start(s.skip(i)),
    decreases i,
{
    if i > 0 {
        lemma_trim_start_skip(s, i - 1);
        assert(s.skip(i - 1).drop_first() =~= s.skip(i));
    } else {
        assert(s.skip(0) =~= s);
    }
}

/// `trim_end` removes exactly the trailing whitespace.
proof fn lemma_trim_end_take(s: Seq<char>, j: int)
    requires
        0 <= j <= s.len(),
        forall|k: int| j <= k < s.len() ==> is_ws(#[trigger] s[k]),
    ensures
        trim_end(s) == trim_end(s.take(j)),
    decreases s.len() - j,
{
    if j < s.len() {
        lemma_trim_end_take(s, j + 1);
        assert(s.take(j + 1).drop_last() =~= s.take(j));
    } else {
        assert(s.take(j) =~= s);
    }
}

/// A trimmed sequence is empty exactly when the sequence is all whitespace.
pub proof fn lemma_trim_empty(s: Seq<char>)
    ensures
        trim(s).len() == 0 <==> all_ws(s),
        trim_start(s).len() == 0 <==> all_ws(s),
    decreases s.len(),
{
    lemma_trim_start_empty(s);
    lemma_trim_end_empty(trim_start(s));
    lemma_trim_start_first(s);
    if trim_start(s).len() > 0 {
        assert(!all_ws(trim_start(s)) && !is_ws(trim_start(s)[0]));
    }
}

/// `trim_end` gives a prefix that, when non-empty, ends with a
/// non-whitespace character.
proof fn lemma_trim_end_shape(s: Seq<char>)
    ensures
        trim_end(s).len() <= s.len(),
        trim_end(s) == s.take(trim_end(s).len() as int),
        trim_end(s).len() > 0 ==> !is_ws(trim_end(s).last()),
    decreases s.len(),
{
    if s.len() > 0 && is_ws(s.last()) {
        lemma_trim_end_shape(s.drop_last());
        let t = trim_end(s.drop_last());
        assert(s.drop_last().take(t.len() as int) =~= s.take(t.len() as int));
    } else {
        assert(s.take(s.len() as int) =~= s);
    }
}

/// The trimmed form of a text that is not all whitespace is non-empty and
/// neither begins nor ends with whitespace.
pub proof fn lemma_trim_shape(s: Seq<char>)
    requires
        !all_ws(s),
    ensures
        trim(s).len() > 0,
        !is_ws(trim(s)[0]),
        !is_ws(trim(s).last()),
{
    lemma_trim_empty(s);
    lemma_trim_start_first(s);
    let t = trim_start(s);
    lemma_trim_end_shape(t);
    let l = trim(s).len() as int;
    assert(trim(s) == t.take(l));
    assert(t.take(l)[0] == t[0]);
}

/// A non-empty `trim_start` begins with a non-whitespace character.
proof fn lemma_trim_start_first(s: Seq<char>)
    ensures
        trim_start(s).len() > 0 ==> !is_ws(trim_start(s)[0]),
    decreases s.len(),
{
    if s.len() > 0 && is_ws(s[0]) {
        lemma_trim_start_first(s.drop_first());
    }
}

proof fn lemma_trim_start_empty(s: Seq<char>)
    ensures
        trim_start(s).len() == 0 <==> all_ws(s),
    decreases s.len(),
{
    if s.len() > 0 {
        lemma_trim_start_empty(s.drop_first());
        if is_ws(s[0]) {
            if all_ws(s.drop_first()) {
                assert forall|i: int| 0 <= i < s.len() implies is_ws(#[trigger] s[i]) by {
                    if i > 0 {
                        assert(s[i] == s.drop_first()[i - 1]);
                    }
                }
            } else {
                let k = choose|k: int| 0 <= k < s.drop_first().len() && !is_ws(s.drop_first()[k]);
                assert(s[k + 1] == s.drop_first()[k]);
            }
        }
    }
}

proof fn lemma_trim_end_empty(s: Seq<char>)
    ensures
        trim_end(s).len() == 0 <==> all_ws(s),
    decreases s.len(),
{
    if s.len() > 0 {
        lemma_trim_end_empty(s.drop_last());
        if is_ws(s.last()) {
            if all_ws(s.drop_last()) {
                assert forall|i: int| 0 <= i < s.len() implies is_ws(#[trigger] s[i]) by {
                    if i < s.len() - 1 {
                        assert(s[i] == s.drop_last()[i]);
                    }
                }
            } else {
                let k = choose|k: int| 0 <= k < s.drop_last().len() && !is_ws(s.drop_last()[k]);
                assert(s[k] == s.drop_last()[k]);
            }
        }
    }
}

// ---------------------------------------------------------------------------
// Executable operations
// ---------------------------------------------------------------------------

/// The characters of `s`, in order.
pub fn chars_of(s: &str) -> (v: Vec<char>)
    ensures
        v@ == s@,
{
    let mut v: Vec<char> = Vec::new();
    for c in it: s.chars()
        invariant
            it.seq() == s@,
            v@ == it.seq().take(it.index() as int),
    {
        v.push(c);
    }
    v
}

/// `String::push`: appends the character `c` to the end of `s`.
#[verifier::external_body]
fn string_push(s: &mut String, c: char)
    ensures
        final(s)@ == old(s)@.push(c),
{
    s.push(c);
}

/// Appends the characters `v` to `s`.
pub fn push_chars(s: &mut String, v: &[char])
    ensures
        final(s)@ == old(s)@ + v@,
{
    let n = v.len();
    for i in 0..n
        invariant
            n == v@.len(),
            s@ == old(s)@ + v@.take(i as int),
    {
        string_push(s, v[i]);
        assert(v@.take(i as int).push(v@[i as int]) =~= v@.take(i + 1));
    }
    assert(v@.take(n as int) =~= v@);
}

/// A string holding the characters `v`.
pub fn string_of(v: &[char]) -> (s: String)
    ensures
        s@ == v@,
{
    let mut s = String::new();
    push_chars(&mut s, v);
    s
}

/// A copy of the string `s`.
pub fn copy_string(s: &str) -> (r: String)
    ensures
        r@ == s@,
{
    let v = chars_of(s);
    string_of(v.as_slice())
}

/// Appends the string `t` to `s`.
pub fn push_str(s: &mut String, t: &str)
    ensures
        final(s)@ == old(s)@ + t@,
{
    let v = chars_of(t);
    push_chars(s, v.as_slice());
}

/// Whether two strings hold the same characters.
pub fn str_eq(a: &str, b: &str) -> (r: bool)
    ensures
        r == (a@ == b@),
{
    let va = chars_of(a);
    let vb = chars_of(b);
    chars_eq(va.as_slice(), vb.as_slice())
}

/// Whether two character sequences are equal.
pub fn chars_eq(a: &[char], b: &[char]) -> (r: bool)
    ensures
        r == (a@ == b@),
{
    if a.len() != b.len() {
        return false;
    }
    let n = a.len();
    for i in 0..n
        invariant
            n == a@.len(),
            n == b@.len(),
            forall|k: int| 0 <= k < i ==> a@[k] == b@[k],
    {
        if a[i] != b[i] {
            return false;
        }
    }
    assert(a@ =~= b@);
    true
}

/// The characters `v[i..j]`.
pub fn sub_chars(v: &[char], i: usize, j: usize) -> (r: Vec<char>)
    requires
        i <= j <= v@.len(),
    ensures
        r@ == v@.subrange(i as int, j as int),
{
    let mut r: Vec<char> = Vec::new();
    let mut k = i;
    while k < j
        invariant
            i <= k <= j <= v@.len(),
            r@ == v@.subrange(i as int, k as int),
        decreases j - k,
    {
        r.push(v[k]);
        assert(v@.subrange(i as int, k as int).push(v@[k as int]) =~= v@.subrange(
            i as int,
            k + 1,
        ));
        k = k + 1;
    }
    r
}

/// `char::is_whitespace`: whether `c` has the Unicode `White_Space` property.
pub fn is_whitespace(c: char) -> (r: bool)
    ensures
        r == is_ws(c),
{
    let u = c as u32;
    (0x09 <= u && u <= 0x0D) || u == 0x20 || u == 0x85 || u == 0xA0 || u == 0x1680 || (0x2000
        <= u && u <= 0x200A) || u == 0x2028 || u == 0x2029 || u == 0x202F || u == 0x205F || u
        == 0x3000
}

/// The characters of `v` without leading and trailing whitespace.
pub fn trim_chars(v: &[char]) -> (r: Vec<char>)
    ensures
        r@ == trim(v@),
{
    let n = v.len();
    let mut i: usize = 0;
    while i < n && is_whitespace(v[i])
        invariant
            i <= n == v@.len(),
            forall|k: int| 0 <= k < i ==> is_ws(#[trigger] v@[k]),
        decreases n - i,
    {
        i = i + 1;
    }
    proof {
        lemma_trim_start_skip(v@, i as int);
        if i < n {
            assert(trim_start(v@.skip(i as int)) == v@.skip(i as int));
        } else {
            assert(v@.skip(i as int).len() == 0);
        }
    }
    let mut j: usize = n;
    while j > i && is_whitespace(v[j - 1])
        invariant
            i <= j <= n == v@.len(),
            forall|k: int| j <= k < n ==> is_ws(#[trigger] v@[k]),
        decreases j,
    {
        j = j - 1;
    }
    let ghost t = v@.skip(i as int);
    proof {
        assert forall|k: int| (j - i) <= k < t.len() implies is_ws(#[trigger] t[k]) by {
            assert(t[k] == v@[k + i]);
        }
        lemma_trim_end_take(t, j - i);
        if j > i {
            assert(t.take(j - i).last() == v@[j - 1]);
        }
        assert(t.take(j - i) =~= v@.subrange(i as int, j as int));
    }
    sub_chars(v, i, j)
}

/// Whether `v` holds nothing but whitespace (`str::trim().is_empty()`).
pub fn is_blank(v: &[char]) -> (r: bool)
    ensures
        r == (trim(v@).len() == 0),
        r == all_ws(v@),
{
    let t = trim_chars(v);
    proof {
        lemma_trim_empty(v@);
    }
    t.len() == 0
}

/// The number of bytes of the UTF-8 encoding of `s` (`str::len`).
pub fn byte_len(s: &str) -> (n: usize)
    ensures
        n == utf8_len(s@),
{
    proof {
        lemma_utf8_len(s@);
    }
    let b = s.as_bytes();
    b.len()
}

/// The number of bytes of the UTF-8 encoding of `c`.
pub fn char_width_of(c: char) -> (w: usize)
    ensures
        w == char_width(c),
{
    let u = c as u32;
    if u <= 0x7F {
        1
    } else if u <= 0x7FF {
        2
    } else if u <= 0xFFFF {
        3
    } else {
        4
    }
}

/// The number of whitespace-separated words of `v`.
pub fn count_words(v: &[char]) -> (n: usize)
    ensures
        n == word_count(v@),
{
    let len = v.len();
    let mut count: usize = 0;
    for i in 0..len
        invariant
            len == v@.len(),
            count == word_count(v@.take(i as int)),
            count <= i,
    {
        let ghost t = v@.take(i + 1);
        assert(t.drop_last() =~= v@.take(i as int));
        if !is_whitespace(v[i]) && (i == 0 || is_whitespace(v[i - 1])) {
            assert(starts_word(t, i as int));
            count = count + 1;
        } else {
            assert(!starts_word(t, i as int));
        }
    }
    assert(v@.take(len as int) =~= v@);
    count
}

/// Whether `v[i..i + pat.len()]` equals `pat`.
pub fn matches_at(v: &[char], i: usize, pat: &[char]) -> (r: bool)
    requires
        i + pat@.len() <= v@.len(),
    ensures
        r == (v@.subrange(i as int, i + pat@.len()) == pat@),
{
    let m = pat.len();
    let n = v.len();
    let mut k: usize = 0;
    while k < m
        invariant
            m == pat@.len(),
            n == v@.len(),
            i + m <= v@.len(),
            k <= m,
            forall|l: int| 0 <= l < k ==> v@[i + l] == pat@[l],
        decreases m - k,
    {
        if v[i + k] != pat[k] {
            assert(v@.subrange(i as int, i + m)[k as int] != pat@[k as int]);
            return false;
        }
        k = k + 1;
    }
    assert(v@.subrange(i as int, i + m) =~= pat@);
    true
}

proof fn lemma_replace_step_match(s: Seq<char>, pat: Seq<char>, rep: Seq<char>, i: int)
    requires
        pat.len() > 0,
        0 <= i,
        i + pat.len() <= s.len(),
        s.subrange(i, i + pat.len()) == pat,
    ensures
        replace_all(s.skip(i), pat, rep) == rep + replace_all(s.skip(i + pat.len()), pat, rep),
{
    assert(s.skip(i).take(pat.len() as int) =~= s.subrange(i, i + pat.len()));
    assert(s.skip(i).skip(pat.len() as int) =~= s.skip(i + pat.len()));
}

proof fn lemma_replace_step_other(s: Seq<char>, pat: Seq<char>, rep: Seq<char>, i: int)
    requires
        pat.len() > 0,
        0 <= i < s.len(),
        i + pat.len() > s.len() || s.subrange(i, i + pat.len()) != pat,
    ensures
        replace_all(s.skip(i), pat, rep) == seq![s[i]] + replace_all(s.skip(i + 1), pat, rep),
{
    assert(s.skip(i).drop_first() =~= s.skip(i + 1));
    if i + pat.len() > s.len() {
        assert(replace_all(s.skip(i), pat, rep) == s.skip(i));
        assert(replace_all(s.skip(i + 1), pat, rep) == s.skip(i + 1));
        assert(s.skip(i) =~= seq![s[i]] + s.skip(i + 1));
    } else {
        assert(s.skip(i).take(pat.len() as int) =~= s.subrange(i, i + pat.len()));
    }
}

/// `v` with every occurrence of the non-empty `pat` replaced by `rep`.
pub fn replace_chars(v: &[char], pat: &[char], rep: &[char]) -> (r: Vec<char>)
    requires
        pat@.len() > 0,
    ensures
        r@ == replace_all(v@, pat@, rep@),
{
    let n = v.len();
    let m = pat.len();
    let mut out: Vec<char> = Vec::new();
    let mut i: usize = 0;
    assert(v@.skip(0) =~= v@);
    while i < n
        invariant
            n == v@.len(),
            m == pat@.len(),
            m > 0,
            i <= n,
            out@ + replace_all(v@.skip(i as int), pat@, rep@) == replace_all(v@, pat@, rep@),
        decreases n - i,
    {
        let ghost before = out@;
        if m <= n - i && matches_at(v, i, pat) {
            proof {
                lemma_replace_step_match(v@, pat@, rep@, i as int);
            }
            let k = rep.len();
            for l in 0..k
                invariant
                    k == rep@.len(),
                    out@ == before + rep@.take(l as int),
            {
                out.push(rep[l]);
                assert(rep@.take(l as int).push(rep@[l as int]) =~= rep@.take(l + 1));
            }
            assert(rep@.take(k as int) =~= rep@);
            assert(out@ + replace_all(v@.skip(i + m), pat@, rep@) =~= before + (rep@
                + replace_all(v@.skip(i + m), pat@, rep@)));
            i = i + m;
        } else {
            proof {
                lemma_replace_step_other(v@, pat@, rep@, i as int);
            }
            out.push(v[i]);
            assert(out@ + replace_all(v@.skip(i + 1), pat@, rep@) =~= before + (seq![v@[i as int]]
                + replace_all(v@.skip(i + 1), pat@, rep@)));
            i = i + 1;
        }
    }
    assert(v@.skip(n as int).len() == 0);
    assert(out@ + replace_all(v@.skip(n as int), pat@, rep@) =~= out@);
    out
}

/// The parts joined with `sep` between consecutive parts.
pub fn join_strings(parts: &Vec<String>, sep: &str) -> (r: String)
    ensures
        r@ == join(parts.deep_view(), sep@),
{
    let mut r = String::new();
    let n = parts.len();
    let ghost pv = parts.deep_view();
    for i in 0..n
        invariant
            n == parts@.len(),
            pv == parts.deep_view(),
            pv.len() == n,
            r@ == join(pv.take(i as int), sep@),
    {
        assert(pv[i as int] == parts@[i as int]@);
        if i > 0 {
            push_str(&mut r, sep);
        }
        push_str(&mut r, parts[i].as_str());
        assert(pv.take(i + 1).drop_last() =~= pv.take(i as int));
        if i == 0 {
            assert(r@ =~= join(pv.take(1), sep@));
        }
    }
    assert(pv.take(n as int) =~= pv);
    r
}

/// The lines of `v` (`str::lines`).
pub fn split_lines(v: &[char]) -> (r: Vec<Vec<char>>)
    ensures
        views_of(r@) == lines(v@),
{
    let n = v.len();
    let mut out: Vec<Vec<char>> = Vec::new();
    let mut i: usize = 0;
    while i < n
        invariant
            n == v@.len(),
            i <= n,
            views_of(out@) + lines_from(v@, i as int) == lines(v@),
        decreases n - i,
    {
        let mut j = i;
        while j < n && v[j] != '\n'
            invariant
                n == v@.len(),
                i <= j <= n,
                newline_at_or_after(v@, i as int) == newline_at_or_after(v@, j as int),
            decreases n - j,
        {
            j = j + 1;
        }
        let mut line = sub_chars(v, i, j);
        if j < n && line.len() > 0 && line[line.len() - 1] == '\r' {
            line.pop();
            assert(line@ =~= v@.subrange(i as int, j as int).drop_last());
        }
        assert(line@ == line_between(v@, i as int, j as int));
        let ghost prev = views_of(out@);
        let ghost lv = line@;
        out.push(line);
        assert(views_of(out@) =~= prev.push(lv));
        assert(views_of(out@) + lines_from(v@, j + 1) =~= prev + lines_from(v@, i as int));
        if j < n {
            i = j + 1;
        } else {
            i = n;
        }
    }
    assert(views_of(out@) + lines_from(v@, i as int) =~= views_of(out@));
    out
}

/// The ASCII digit for `d < 10`.
fn digit_char(d: u64) -> (c: char)
    requires
        d < 10,
    ensures
        c == digit(d as nat),
{
    if d == 0 {
        '0'
    } else if d == 1 {
        '1'
    } else if d == 2 {
        '2'
    } else if d == 3 {
        '3'
    } else if d == 4 {
        '4'
    } else if d == 5 {
        '5'
    } else if d == 6 {
        '6'
    } else if d == 7 {
        '7'
    } else if d == 8 {
        '8'
    } else {
        '9'
    }
}

/// The decimal representation of `n`.
pub fn decimal_chars(n: u64) -> (r: Vec<char>)
    ensures
        r@ == decimal(n as nat),
    decreases n,
{
    if n < 10 {
        let mut r: Vec<char> = Vec::new();
        r.push(digit_char(n));
        r
    } else {
        let mut r = decimal_chars(n / 10);
        r.push(digit_char(n % 10));
        r
    }
}

/// Appends the decimal representation of `n` to `s`.
pub fn push_decimal(s: &mut String, n: u64)
    ensures
        final(s)@ == old(s)@ + decimal(n as nat),
{
    let d = decimal_chars(n);
    push_chars(s, d.as_slice());
}

/// Whether `v` starts with `prefix`.
pub fn starts_with(v: &[char], prefix: &[char]) -> (r: bool)
    ensures
        r == (prefix@.len() <= v@.len() && v@.take(prefix@.len() as int) == prefix@),
{
    if prefix.len() > v.len() {
        return false;
    }
    let r = matches_at(v, 0, prefix);
    assert(v@.subrange(0, prefix@.len() as int) =~= v@.take(prefix@.len() as int));
    r
}

} // verus!
