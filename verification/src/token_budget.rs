//! Token estimation, budget checks and truncation to a budget.
//!
//! A token is estimated from the byte length of the text and a
//! characters-per-token ratio, and from the number of whitespace-separated
//! words; the larger of the two counts.
use vstd::prelude::*;

use crate::text::{
    byte_len, char_width_of, chars_of, copy_string, count_words, decimal, is_whitespace, is_ws,
    lemma_char_width, lemma_utf8_len_take_mono, lemma_utf8_len_take_next, push_decimal, push_str,
    starts_word, string_of, sub_chars, utf8_len, word_count,
};

verus! {

/// The mathematical value of a [`TokenBudget`]: the maximum number of tokens
/// and the characters-per-token ratio `chars_num / chars_den`.
pub struct BudgetModel {
    pub max_tokens: nat,
    pub chars_num: nat,
    pub chars_den: nat,
}

/// The mathematical value of a [`TokenError`].
pub enum TokenErrorModel {
    Exceeded { estimated: nat, max: nat },
    EstimationFailed(Seq<char>),
}

/// Error from token budget operations.
#[derive(Debug)]
pub enum TokenError {
    Exceeded { estimated: usize, max: usize },
    EstimationFailed(String),
}

impl View for TokenError {
    type V = TokenErrorModel;

    open spec fn view(&self) -> TokenErrorModel {
        match self {
            TokenError::Exceeded { estimated, max } => TokenErrorModel::Exceeded {
                estimated: *estimated as nat,
                max: *max as nat,
            },
            TokenError::EstimationFailed(t) => TokenErrorModel::EstimationFailed(t@),
        }
    }
}

/// Token budget estimator and enforcer.
///
/// The default ratio is 4 characters (bytes) per token.
#[derive(Debug, Clone, Copy)]
pub struct TokenBudget {
    max_tokens: usize,
    chars_num: u64,
    chars_den: u64,
}

impl View for TokenBudget {
    type V = BudgetModel;

    closed spec fn view(&self) -> BudgetModel {
        BudgetModel {
            max_tokens: self.max_tokens as nat,
            chars_num: self.chars_num as nat,
            chars_den: self.chars_den as nat,
        }
    }
}

// ---------------------------------------------------------------------------
// Specifications
// ---------------------------------------------------------------------------

/// `a / b` rounded up, for `b > 0`.
pub open spec fn ceil_div(a: nat, b: nat) -> nat {
    ((a + b - 1) / (b as int)) as nat
}

/// The smaller of two numbers.
pub open spec fn min_nat(a: nat, b: nat) -> nat {
    if a <= b {
        a
    } else {
        b
    }
}

/// The larger of two numbers.
pub open spec fn max_nat(a: nat, b: nat) -> nat {
    if a >= b {
        a
    } else {
        b
    }
}

/// The estimate from `bytes` bytes: `bytes / ratio` rounded up, saturating at
/// `usize::MAX` (a zero ratio saturates).
pub open spec fn char_estimate(b: BudgetModel, bytes: nat) -> nat {
    if b.chars_num == 0 {
        usize::MAX as nat
    } else {
        min_nat(ceil_div(bytes * b.chars_den, b.chars_num), usize::MAX as nat)
    }
}

/// The estimated number of tokens of `text`: zero for the empty text, else
/// the larger of the byte-based estimate and the word count.
pub open spec fn estimate(b: BudgetModel, text: Seq<char>) -> nat {
    if text.len() == 0 {
        0
    } else {
        max_nat(char_estimate(b, utf8_len(text)), word_count(text))
    }
}

/// `text` fits the budget.
pub open spec fn within_budget(b: BudgetModel, text: Seq<char>) -> bool {
    estimate(b, text) <= b.max_tokens
}

/// The number of bytes that `max_tokens` tokens allow: `max_tokens * ratio`
/// rounded down, saturating at `usize::MAX`.
pub open spec fn max_chars(b: BudgetModel) -> nat {
    if b.chars_den == 0 {
        0
    } else {
        min_nat((b.max_tokens * b.chars_num) / b.chars_den, usize::MAX as nat)
    }
}

/// The number of leading characters of `s` that fit in `m` bytes, scanning
/// from the `k`-th character on: the first `j >= k` such that one more
/// character would exceed `m` bytes, or the whole length.
pub open spec fn chars_within_from(s: Seq<char>, m: nat, k: int) -> int
    decreases s.len() - k,
{
    if k >= s.len() {
        s.len() as int
    } else if utf8_len(s.take(k + 1)) > m {
        k
    } else {
        chars_within_from(s, m, k + 1)
    }
}

/// The number of characters of the longest prefix of `s` whose encoding
/// fits in `m` bytes (the byte allowance, moved back to a character
/// boundary).
pub open spec fn chars_within(s: Seq<char>, m: nat) -> int {
    chars_within_from(s, m, 0)
}

/// The largest `j` with `j + 2 <= k` where `s` holds `". "`, or `-1`.
pub open spec fn last_period_space(s: Seq<char>, k: int) -> int
    decreases k,
{
    if k < 2 {
        -1
    } else if s[k - 2] == '.' && s[k - 1] == ' ' {
        k - 2
    } else {
        last_period_space(s, k - 1)
    }
}

/// The largest `j < k` with `s[j] == c`, or `-1`.
pub open spec fn last_char_before(s: Seq<char>, k: int, c: char) -> int
    decreases k,
{
    if k <= 0 {
        -1
    } else if s[k - 1] == c {
        k - 1
    } else {
        last_char_before(s, k - 1, c)
    }
}

/// The ideographic full stop.
pub open spec fn ideographic_full_stop() -> char {
    '\u{3002}'
}

/// Cutting `text` whose first `k` characters fit: after the last sentence
/// end (`". "`, kept as `"."`, or `"。"`), else before the last space, else
/// right at `k`.
pub open spec fn cut(text: Seq<char>, k: int) -> Seq<char> {
    let p = last_period_space(text, k);
    let q = last_char_before(text, k, ideographic_full_stop());
    let w = last_char_before(text, k, ' ');
    if p >= 0 {
        text.take(p) + seq!['.']
    } else if q >= 0 {
        text.take(q + 1)
    } else if w >= 0 {
        text.take(w)
    } else {
        text.take(k)
    }
}

/// The first cut of a text over budget: the text itself when its bytes fit
/// the allowance, else the cut of the characters that fit it.
pub open spec fn base_cut(b: BudgetModel, text: Seq<char>) -> Seq<char> {
    if utf8_len(text) <= max_chars(b) {
        text
    } else {
        cut(text, chars_within(text, max_chars(b)))
    }
}

/// `s.take(j)` ends at a word boundary: it is empty, the whole of `s`, or
/// ends after a non-space character that a whitespace character follows.
pub open spec fn word_end(s: Seq<char>, j: int) -> bool {
    ||| j == 0
    ||| j == s.len()
    ||| (0 < j < s.len() && is_ws(s[j]) && !is_ws(s[j - 1]))
}

/// The largest `i <= j` at which `s` may be cut at a word boundary and
/// still fit the budget (0 at worst: the empty text fits every budget).
pub open spec fn last_fit(b: BudgetModel, s: Seq<char>, j: int) -> int
    decreases j,
{
    if j <= 0 {
        0
    } else if word_end(s, j) && within_budget(b, s.take(j)) {
        j
    } else {
        last_fit(b, s, j - 1)
    }
}

/// The outcome of `truncate_to_budget`: a text within the budget as it is;
/// else the first cut, shortened at word boundaries until it fits.
pub open spec fn truncate(b: BudgetModel, text: Seq<char>) -> Seq<char> {
    if within_budget(b, text) {
        text
    } else {
        let c = base_cut(b, text);
        c.take(last_fit(b, c, c.len() as int))
    }
}

/// The text of a token error (what its `Display` shows).
pub open spec fn token_error_text(e: TokenErrorModel) -> Seq<char> {
    match e {
        TokenErrorModel::Exceeded { estimated, max } => "Token limit exceeded: estimated "@
            + decimal(estimated) + " tokens, max is "@ + decimal(max),
        TokenErrorModel::EstimationFailed(t) => "Token estimation failed for text: "@ + t,
    }
}

// ---------------------------------------------------------------------------
// Lemmas
// ---------------------------------------------------------------------------

proof fn lemma_last_period_space(s: Seq<char>, k: int)
    requires
        0 <= k <= s.len(),
    ensures
        last_period_space(s, k) == -1 || 0 <= last_period_space(s, k) <= k - 2,
        last_period_space(s, k) >= 0 ==> s[last_period_space(s, k)] == '.'
            && s[last_period_space(s, k) + 1] == ' ',
        forall|q: int|
            last_period_space(s, k) < q && q + 2 <= k ==> !(#[trigger] s[q] == '.' && s[q + 1] == ' '),
    decreases k,
{
    if k >= 2 && !(s[k - 2] == '.' && s[k - 1] == ' ') {
        lemma_last_period_space(s, k - 1);
    }
}

proof fn lemma_last_char_before(s: Seq<char>, k: int, c: char)
    requires
        0 <= k <= s.len(),
    ensures
        -1 <= last_char_before(s, k, c) < k,
        last_char_before(s, k, c) >= 0 ==> s[last_char_before(s, k, c)] == c,
        forall|q: int| last_char_before(s, k, c) < q < k ==> #[trigger] s[q] != c,
    decreases k,
{
    if k > 0 && s[k - 1] != c {
        lemma_last_char_before(s, k - 1, c);
    }
}

/// A cut is a prefix of the text of at most `k` characters.
proof fn lemma_cut_prefix(text: Seq<char>, k: int)
    requires
        0 <= k <= text.len(),
    ensures
        cut(text, k).len() <= k,
        cut(text, k) == text.take(cut(text, k).len() as int),
{
    lemma_last_period_space(text, k);
    lemma_last_char_before(text, k, ideographic_full_stop());
    lemma_last_char_before(text, k, ' ');
    let p = last_period_space(text, k);
    if p >= 0 {
        assert(text.take(p) + seq!['.'] =~= text.take(p + 1));
    }
}

/// Scanning for the characters that fit `m` bytes ends on a prefix that
/// fits, and that one more character would exceed.
proof fn lemma_chars_within_from(s: Seq<char>, m: nat, k: int)
    requires
        0 <= k <= s.len(),
        utf8_len(s.take(k)) <= m,
    ensures
        k <= chars_within_from(s, m, k) <= s.len(),
        utf8_len(s.take(chars_within_from(s, m, k))) <= m,
        chars_within_from(s, m, k) < s.len() ==> utf8_len(
            s.take(chars_within_from(s, m, k) + 1),
        ) > m,
    decreases s.len() - k,
{
    if k < s.len() && utf8_len(s.take(k + 1)) <= m {
        lemma_chars_within_from(s, m, k + 1);
    }
}

/// The characters that fit `m` bytes form a prefix of at most `m` bytes.
proof fn lemma_chars_within(s: Seq<char>, m: nat)
    ensures
        0 <= chars_within(s, m) <= s.len(),
        utf8_len(s.take(chars_within(s, m))) <= m,
{
    assert(s.take(0) =~= Seq::<char>::empty());
    lemma_chars_within_from(s, m, 0);
}

/// The first cut is a prefix of the text; when the text is longer than the
/// allowance, it has at most the allowance of bytes.
proof fn lemma_base_cut(b: BudgetModel, text: Seq<char>)
    ensures
        base_cut(b, text).len() <= text.len(),
        base_cut(b, text) == text.take(base_cut(b, text).len() as int),
        utf8_len(text) > max_chars(b) ==> utf8_len(base_cut(b, text)) <= max_chars(b),
{
    if utf8_len(text) <= max_chars(b) {
        assert(text.take(text.len() as int) =~= text);
    } else {
        let k = chars_within(text, max_chars(b));
        lemma_chars_within(text, max_chars(b));
        lemma_cut_prefix(text, k);
        lemma_utf8_len_take_mono(text, cut(text, k).len() as int, k);
    }
}

/// The shortening at word boundaries ends at a boundary where the prefix
/// fits the budget.
proof fn lemma_last_fit(b: BudgetModel, s: Seq<char>, j: int)
    requires
        0 <= j <= s.len(),
    ensures
        0 <= last_fit(b, s, j) <= j,
        word_end(s, last_fit(b, s, j)),
        within_budget(b, s.take(last_fit(b, s, j))),
        forall|i: int|
            last_fit(b, s, j) < i <= j && word_end(s, i) ==> !within_budget(b, #[trigger] s.take(i)),
    decreases j,
{
    if j <= 0 {
        assert(s.take(0).len() == 0);
    } else if !(word_end(s, j) && within_budget(b, s.take(j))) {
        lemma_last_fit(b, s, j - 1);
    }
}

// ---------------------------------------------------------------------------
// Implementation
// ---------------------------------------------------------------------------

fn last_period_space_exec(v: &[char], k: usize) -> (r: Option<usize>)
    requires
        k <= v@.len(),
    ensures
        match r {
            Some(j) => last_period_space(v@, k as int) == j,
            None => last_period_space(v@, k as int) == -1,
        },
{
    let mut i = k;
    while i >= 2
        invariant
            i <= k <= v@.len(),
            last_period_space(v@, k as int) == last_period_space(v@, i as int),
        decreases i,
    {
        if v[i - 2] == '.' && v[i - 1] == ' ' {
            return Some(i - 2);
        }
        i = i - 1;
    }
    None
}

fn last_char_before_exec(v: &[char], k: usize, c: char) -> (r: Option<usize>)
    requires
        k <= v@.len(),
    ensures
        match r {
            Some(j) => last_char_before(v@, k as int, c) == j,
            None => last_char_before(v@, k as int, c) == -1,
        },
{
    let mut i = k;
    while i > 0
        invariant
            i <= k <= v@.len(),
            last_char_before(v@, k as int, c) == last_char_before(v@, i as int, c),
        decreases i,
    {
        if v[i - 1] == c {
            return Some(i - 1);
        }
        i = i - 1;
    }
    None
}

/// The number of leading characters of `v` that fit in `m` bytes.
fn chars_within_exec(v: &[char], m: usize) -> (k: usize)
    ensures
        k == chars_within(v@, m as nat),
        k <= v@.len(),
{
    let n = v.len();
    let mut k: usize = 0;
    let mut acc: usize = 0;
    assert(v@.take(0) =~= Seq::<char>::empty());
    while k < n
        invariant
            n == v@.len(),
            k <= n,
            acc == utf8_len(v@.take(k as int)),
            acc <= m,
            chars_within_from(v@, m as nat, k as int) == chars_within(v@, m as nat),
        decreases n - k,
    {
        proof {
            lemma_utf8_len_take_next(v@, k as int);
        }
        let w = char_width_of(v[k]);
        if w > m - acc {
            return k;
        }
        acc = acc + w;
        k = k + 1;
    }
    k
}

/// The cut of `v` whose first `k` characters fit the allowance.
fn cut_exec(v: &[char], k: usize) -> (r: Vec<char>)
    requires
        k <= v@.len(),
    ensures
        r@ == cut(v@, k as int),
{
    match last_period_space_exec(v, k) {
        Some(p) => {
            proof {
                lemma_last_period_space(v@, k as int);
            }
            let mut r = sub_chars(v, 0, p);
            r.push('.');
            assert(r@ =~= v@.take(p as int) + seq!['.']);
            return r;
        },
        None => {},
    }
    match last_char_before_exec(v, k, '\u{3002}') {
        Some(q) => {
            proof {
                lemma_last_char_before(v@, k as int, '\u{3002}');
            }
            let r = sub_chars(v, 0, q + 1);
            assert(r@ =~= v@.take(q + 1));
            return r;
        },
        None => {},
    }
    match last_char_before_exec(v, k, ' ') {
        Some(w) => {
            proof {
                lemma_last_char_before(v@, k as int, ' ');
            }
            let r = sub_chars(v, 0, w);
            assert(r@ =~= v@.take(w as int));
            return r;
        },
        None => {},
    }
    let r = sub_chars(v, 0, k);
    assert(r@ =~= v@.take(k as int));
    r
}

impl TokenError {
    /// The text of this error (what `Display` shows).
    pub fn to_string(&self) -> (s: String)
        ensures
            s@ == token_error_text(self@),
    {
        match self {
            TokenError::Exceeded { estimated, max } => {
                let mut s = copy_string("Token limit exceeded: estimated ");
                push_decimal(&mut s, *estimated as u64);
                push_str(&mut s, " tokens, max is ");
                push_decimal(&mut s, *max as u64);
                s
            },
            TokenError::EstimationFailed(t) => {
                let mut s = copy_string("Token estimation failed for text: ");
                push_str(&mut s, t.as_str());
                s
            },
        }
    }
}

impl TokenBudget {
    /// The ratio is a positive fraction with a non-zero denominator.
    #[verifier::type_invariant]
    closed spec fn inv(&self) -> bool {
        self.chars_den > 0
    }

    /// Create a new token budget with the given maximum and 4 characters per
    /// token.
    pub fn new(max_tokens: usize) -> (b: Self)
        ensures
            b@ == (BudgetModel { max_tokens: max_tokens as nat, chars_num: 4, chars_den: 1 }),
    {
        TokenBudget { max_tokens, chars_num: 4, chars_den: 1 }
    }

    /// Set a custom characters-per-token ratio, `numerator / denominator`.
    pub fn with_chars_per_token(self, numerator: u64, denominator: u64) -> (b: Self)
        requires
            denominator > 0,
        ensures
            b@ == (BudgetModel {
                max_tokens: self@.max_tokens,
                chars_num: numerator as nat,
                chars_den: denominator as nat,
            }),
    {
        TokenBudget { max_tokens: self.max_tokens, chars_num: numerator, chars_den: denominator }
    }

    /// Get the maximum token count.
    pub fn max_tokens(&self) -> (n: usize)
        ensures
            n == self@.max_tokens,
    {
        self.max_tokens
    }

    /// Estimate the number of tokens in a text string.
    pub fn estimate_tokens(&self, text: &str) -> (n: usize)
        ensures
            n == estimate(self@, text@),
    {
        let v = chars_of(text);
        if v.len() == 0 {
            return 0;
        }
        let bytes = byte_len(text);
        let words = count_words(v.as_slice());
        proof {
            lemma_word_count_le_len(v@);
        }
        self.estimate_counts(bytes, words)
    }

    /// The estimate of a non-empty text of `bytes` bytes and `words` words:
    /// the larger of the byte-based estimate and the word count.
    fn estimate_counts(&self, bytes: usize, words: usize) -> (n: usize)
        ensures
            n == max_nat(char_estimate(self@, bytes as nat), words as nat),
    {
        let est: usize = if self.chars_num == 0 {
            usize::MAX
        } else {
            let num = self.chars_num as u128;
            let b128 = bytes as u128;
            let d128 = self.chars_den as u128;
            assert(b128 * d128 <= 0xffff_ffff_ffff_ffff * 0xffff_ffff_ffff_ffffnat) by (nonlinear_arith)
                requires
                    b128 <= 0xffff_ffff_ffff_ffff,
                    d128 <= 0xffff_ffff_ffff_ffff,
            ;
            let scaled = b128 * d128;
            let q = (scaled + (num - 1)) / num;
            if q > usize::MAX as u128 {
                usize::MAX
            } else {
                q as usize
            }
        };
        if est >= words {
            est
        } else {
            words
        }
    }

    /// Check if text is within budget.
    pub fn is_within_budget(&self, text: &str) -> (r: bool)
        ensures
            r == within_budget(self@, text@),
    {
        self.estimate_tokens(text) <= self.max_tokens
    }

    /// Validate that text is within budget: the estimate, or the error that
    /// says by how much it is exceeded.
    pub fn validate(&self, text: &str) -> (r: Result<usize, TokenError>)
        ensures
            match r {
                Ok(n) => within_budget(self@, text@) && n == estimate(self@, text@),
                Err(e) => !within_budget(self@, text@) && e@ == (TokenErrorModel::Exceeded {
                    estimated: estimate(self@, text@),
                    max: self@.max_tokens,
                }),
            },
    {
        let count = self.estimate_tokens(text);
        if count > self.max_tokens {
            Err(TokenError::Exceeded { estimated: count, max: self.max_tokens })
        } else {
            Ok(count)
        }
    }

    /// The number of bytes that the budget allows.
    fn max_chars_exec(&self) -> (n: usize)
        ensures
            n == max_chars(self@),
    {
        proof {
            use_type_invariant(self);
        }
        let m128 = self.max_tokens as u128;
        let n128 = self.chars_num as u128;
        assert(m128 * n128 <= 0xffff_ffff_ffff_ffff * 0xffff_ffff_ffff_ffffnat) by (nonlinear_arith)
            requires
                m128 <= 0xffff_ffff_ffff_ffff,
                n128 <= 0xffff_ffff_ffff_ffff,
        ;
        let prod = m128 * n128;
        let q = prod / (self.chars_den as u128);
        if q > usize::MAX as u128 {
            usize::MAX
        } else {
            q as usize
        }
    }

    /// The characters of the last word-boundary prefix of `c` that fits the
    /// budget.
    fn last_fit_exec(&self, c: &[char]) -> (j: usize)
        requires
            utf8_len(c@) <= usize::MAX,
        ensures
            j == last_fit(self@, c@, c@.len() as int),
    {
        let n = c.len();
        let mut best: usize = 0;
        let mut bytes: usize = 0;
        let mut words: usize = 0;
        let mut j: usize = 0;
        assert(c@.take(0) =~= Seq::<char>::empty());
        while j < n
            invariant
                n == c@.len(),
                utf8_len(c@) <= usize::MAX,
                j <= n,
                bytes == utf8_len(c@.take(j as int)),
                words == word_count(c@.take(j as int)),
                words <= j,
                best == last_fit(self@, c@, j as int),
            decreases n - j,
        {
            proof {
                lemma_utf8_len_take_next(c@, j as int);
                lemma_utf8_len_take_mono(c@, j + 1, n as int);
                assert(c@.take(n as int) =~= c@);
            }
            let ghost t = c@.take(j + 1);
            assert(t.drop_last() =~= c@.take(j as int));
            let starts = !is_whitespace(c[j]) && (j == 0 || is_whitespace(c[j - 1]));
            assert(starts == starts_word(t, j as int));
            bytes = bytes + char_width_of(c[j]);
            if starts {
                words = words + 1;
            }
            j = j + 1;
            let at_end = j == n || (is_whitespace(c[j]) && !is_whitespace(c[j - 1]));
            assert(at_end == word_end(c@, j as int));
            if at_end && self.estimate_counts(bytes, words) <= self.max_tokens {
                best = j;
            }
        }
        best
    }

    /// Truncate text to fit within the token budget: a text within the
    /// budget is kept; otherwise it is cut after the last sentence end or
    /// before the last space within the byte allowance (else at the
    /// allowance, on a character boundary), then shortened at word
    /// boundaries until its estimate fits.
    pub fn truncate_to_budget(&self, text: &str) -> (r: String)
        ensures
            r@ == truncate(self@, text@),
    {
        if self.is_within_budget(text) {
            return copy_string(text);
        }
        let max_chars = self.max_chars_exec();
        let bytes = byte_len(text);
        let v = chars_of(text);
        let c: Vec<char> = if bytes <= max_chars {
            v
        } else {
            let k = chars_within_exec(v.as_slice(), max_chars);
            cut_exec(v.as_slice(), k)
        };
        proof {
            lemma_base_cut(self@, text@);
            lemma_utf8_len_take_mono(text@, c@.len() as int, text@.len() as int);
            assert(text@.take(text@.len() as int) =~= text@);
        }
        assert(c@ == base_cut(self@, text@));
        let j = self.last_fit_exec(c.as_slice());
        proof {
            lemma_last_fit(self@, c@, c@.len() as int);
        }
        let r = sub_chars(c.as_slice(), 0, j);
        assert(r@ =~= c@.take(j as int));
        string_of(r.as_slice())
    }

    /// Calculate how many tokens remain in the budget after the given text
    /// (zero when the text exceeds it).
    pub fn remaining(&self, text: &str) -> (n: usize)
        ensures
            n == if estimate(self@, text@) <= self@.max_tokens {
                self@.max_tokens - estimate(self@, text@)
            } else {
                0
            },
    {
        self.max_tokens.saturating_sub(self.estimate_tokens(text))
    }
}

/// A sequence has no more words than characters.
proof fn lemma_word_count_le_len(s: Seq<char>)
    ensures
        word_count(s) <= s.len(),
    decreases s.len(),
{
    if s.len() > 0 {
        lemma_word_count_le_len(s.drop_last());
    }
}

// ---------------------------------------------------------------------------
// Laws
// ---------------------------------------------------------------------------

/// Truncation gives a prefix of the text; when it cuts a text longer than
/// the byte allowance, the result has no more bytes than the allowance.
pub proof fn law_truncate_is_prefix(b: BudgetModel, text: Seq<char>)
    ensures
        truncate(b, text).len() <= text.len(),
        truncate(b, text) == text.take(truncate(b, text).len() as int),
        !within_budget(b, text) && utf8_len(text) > max_chars(b) ==> utf8_len(truncate(b, text))
            <= max_chars(b),
{
    if within_budget(b, text) {
        assert(text.take(text.len() as int) =~= text);
    } else {
        let c = base_cut(b, text);
        lemma_base_cut(b, text);
        lemma_last_fit(b, c, c.len() as int);
        let j = last_fit(b, c, c.len() as int);
        assert(c.take(j) =~= text.take(j));
        lemma_utf8_len_take_mono(c, j, c.len() as int);
        assert(c.take(c.len() as int) =~= c);
    }
}

/// Truncation always gives a text within the budget.
pub proof fn law_truncate_fits(b: BudgetModel, text: Seq<char>)
    ensures
        within_budget(b, truncate(b, text)),
{
    if !within_budget(b, text) {
        let c = base_cut(b, text);
        lemma_base_cut(b, text);
        lemma_last_fit(b, c, c.len() as int);
    }
}

/// Truncating twice is truncating once.
pub proof fn law_truncate_idempotent(b: BudgetModel, text: Seq<char>)
    ensures
        truncate(b, truncate(b, text)) == truncate(b, text),
{
    law_truncate_fits(b, text);
}

/// A text within the budget is returned unchanged by truncation.
pub proof fn law_truncate_keeps_fitting_text(b: BudgetModel, text: Seq<char>)
    requires
        within_budget(b, text),
    ensures
        truncate(b, text) == text,
{
}

/// Where truncation first cuts a text whose first `k` characters fit the
/// byte allowance: after the last sentence end `". "` among them (the
/// period kept, the space dropped); without one, after the last
/// ideographic full stop among them; without either, before the last space
/// among them; without any, right after the `k` characters. So a cut that
/// ends with a period ends where the text holds `". "`, or is the hard cut.
pub proof fn law_cut_points(text: Seq<char>, k: int)
    requires
        0 <= k <= text.len(),
    ensures
        forall|p: int|
            0 <= p && p + 2 <= k && #[trigger] text[p] == '.' && text[p + 1] == ' ' && (forall|q: int|
                p < q && q + 2 <= k ==> !(#[trigger] text[q] == '.' && text[q + 1] == ' '))
                ==> cut(text, k) == text.take(p + 1),
        (forall|q: int| 0 <= q && q + 2 <= k ==> !(#[trigger] text[q] == '.' && text[q + 1] == ' '))
            ==> forall|p: int|
            0 <= p < k && #[trigger] text[p] == '\u{3002}' && (forall|q: int|
                p < q < k ==> #[trigger] text[q] != '\u{3002}') ==> cut(text, k) == text.take(p + 1),
        (forall|q: int| 0 <= q && q + 2 <= k ==> !(#[trigger] text[q] == '.' && text[q + 1] == ' '))
            && (forall|q: int| 0 <= q < k ==> #[trigger] text[q] != '\u{3002}') ==> forall|w: int|
            0 <= w < k && #[trigger] text[w] == ' ' && (forall|q: int| w < q < k ==> #[trigger] text[q] != ' ')
                ==> cut(text, k) == text.take(w),
        (forall|q: int| 0 <= q && q + 2 <= k ==> !(#[trigger] text[q] == '.' && text[q + 1] == ' '))
            && (forall|q: int| 0 <= q < k ==> #[trigger] text[q] != '\u{3002}') && (forall|q: int|
            0 <= q < k ==> #[trigger] text[q] != ' ') ==> cut(text, k) == text.take(k),
        cut(text, k).len() > 0 && cut(text, k).last() == '.' ==> cut(text, k).len() == k || (
        cut(text, k).len() + 1 <= k && text[cut(text, k).len() as int] == ' '),
{
    lemma_last_period_space(text, k);
    lemma_last_char_before(text, k, ideographic_full_stop());
    lemma_last_char_before(text, k, ' ');
    lemma_cut_prefix(text, k);
    let lp = last_period_space(text, k);
    let lq = last_char_before(text, k, ideographic_full_stop());
    let lw = last_char_before(text, k, ' ');
    if lp >= 0 {
        assert(text.take(lp) + seq!['.'] =~= text.take(lp + 1));
    }
    assert forall|p: int|
        0 <= p && p + 2 <= k && #[trigger] text[p] == '.' && text[p + 1] == ' ' && (forall|q: int|
            p < q && q + 2 <= k ==> !(#[trigger] text[q] == '.' && text[q + 1] == ' ')) implies cut(
        text,
        k,
    ) == text.take(p + 1) by {
        if lp < p {
            assert(!(text[p] == '.' && text[p + 1] == ' '));
        }
        if lp > p {
            assert(!(text[lp] == '.' && text[lp + 1] == ' '));
        }
    }
    assert forall|p: int|
        (forall|q: int| 0 <= q && q + 2 <= k ==> !(#[trigger] text[q] == '.' && text[q + 1] == ' '))
            && 0 <= p < k && #[trigger] text[p] == '\u{3002}' && (forall|q: int|
            p < q < k ==> #[trigger] text[q] != '\u{3002}') implies cut(text, k) == text.take(p + 1) by {
        if lp >= 0 {
            assert(!(text[lp] == '.' && text[lp + 1] == ' '));
        }
        if lq < p {
            assert(text[p] != '\u{3002}');
        }
        if lq > p {
            assert(text[lq] != '\u{3002}');
        }
    }
    assert forall|w: int|
        (forall|q: int| 0 <= q && q + 2 <= k ==> !(#[trigger] text[q] == '.' && text[q + 1] == ' '))
            && (forall|q: int| 0 <= q < k ==> #[trigger] text[q] != '\u{3002}') && 0 <= w < k
            && #[trigger] text[w] == ' ' && (forall|q: int| w < q < k ==> #[trigger] text[q] != ' ')
        implies cut(text, k) == text.take(w) by {
        if lp >= 0 {
            assert(!(text[lp] == '.' && text[lp + 1] == ' '));
        }
        if lq >= 0 {
            assert(text[lq] != '\u{3002}');
        }
        if lw < w {
            assert(text[w] != ' ');
        }
        if lw > w {
            assert(text[lw] != ' ');
        }
    }
    if (forall|q: int| 0 <= q && q + 2 <= k ==> !(#[trigger] text[q] == '.' && text[q + 1] == ' '))
        && (forall|q: int| 0 <= q < k ==> #[trigger] text[q] != '\u{3002}') && (forall|q: int|
        0 <= q < k ==> #[trigger] text[q] != ' ') {
        if lp >= 0 {
            assert(!(text[lp] == '.' && text[lp + 1] == ' '));
        }
        if lq >= 0 {
            assert(text[lq] != '\u{3002}');
        }
        if lw >= 0 {
            assert(text[lw] != ' ');
        }
    }
    let r = cut(text, k);
    if r.len() > 0 && r.last() == '.' && r.len() != k {
        assert(r.last() == text[r.len() - 1]);
        if lp < 0 && lq >= 0 {
            assert(r.last() == text[lq]);
        } else if lp < 0 && lq < 0 && lw >= 0 {
            assert(r.len() == lw);
            assert(text[lw - 1] == '.' && text[lw] == ' ');
            assert(lw - 1 + 2 <= k);
        }
    }
}

/// A text over the budget is truncated to the longest prefix of its first
/// cut that fits the budget and ends at a word boundary (the start, the end
/// of the cut, or a non-space character followed by whitespace). The first
/// cut is the text itself when its bytes fit the allowance, else the cut of
/// its longest prefix whose bytes fit the allowance.
pub proof fn law_truncate_longest_fit(b: BudgetModel, text: Seq<char>)
    requires
        !within_budget(b, text),
    ensures
        utf8_len(text) <= max_chars(b) ==> base_cut(b, text) == text,
        utf8_len(text) > max_chars(b) ==> {
            &&& base_cut(b, text) == cut(text, chars_within(text, max_chars(b)))
            &&& 0 <= chars_within(text, max_chars(b)) <= text.len()
            &&& utf8_len(text.take(chars_within(text, max_chars(b)))) <= max_chars(b)
            &&& chars_within(text, max_chars(b)) < text.len() ==> utf8_len(
                text.take(chars_within(text, max_chars(b)) + 1),
            ) > max_chars(b)
        },
        truncate(b, text) == base_cut(b, text).take(truncate(b, text).len() as int),
        within_budget(b, truncate(b, text)),
        truncate(b, text).len() == 0 || truncate(b, text).len() == base_cut(b, text).len() || (
        truncate(b, text).len() < base_cut(b, text).len() && is_ws(
            base_cut(b, text)[truncate(b, text).len() as int],
        ) && !is_ws(base_cut(b, text)[truncate(b, text).len() - 1])),
        forall|j: int|
            truncate(b, text).len() < j <= base_cut(b, text).len() && (j == base_cut(b, text).len() || (
            is_ws(base_cut(b, text)[j]) && !is_ws(base_cut(b, text)[j - 1]))) ==> !within_budget(
                b,
                #[trigger] base_cut(b, text).take(j),
            ),
{
    let c = base_cut(b, text);
    lemma_base_cut(b, text);
    if utf8_len(text) > max_chars(b) {
        assert(text.take(0) =~= Seq::<char>::empty());
        lemma_chars_within_from(text, max_chars(b), 0);
    }
    lemma_last_fit(b, c, c.len() as int);
    let j = last_fit(b, c, c.len() as int);
    assert(c.take(j).len() == j);
}

/// The empty text is estimated at zero tokens and fits every budget.
pub proof fn law_empty_text_fits(b: BudgetModel)
    ensures
        estimate(b, Seq::<char>::empty()) == 0,
        within_budget(b, Seq::<char>::empty()),
{
}

/// The estimate is at least the word count and at least the byte-based
/// estimate, for non-empty text.
pub proof fn law_estimate_bounds(b: BudgetModel, text: Seq<char>)
    requires
        text.len() > 0,
    ensures
        estimate(b, text) >= word_count(text),
        estimate(b, text) >= char_estimate(b, utf8_len(text)),
{
}

} // verus!
