//! Recognition of floating-point literals.
//!
//! A unit of input is accepted as a number when it matches the literal
//! grammar of a double-precision float:
//!
//! ```text
//! Literal ::= Sign? ( 'inf' | 'infinity' | 'nan' | Number )
//! Number  ::= Count '.'? Count? Exp? | '.' Count Exp?
//! Exp     ::= ('e' | 'E') Sign? Count
//! Count   ::= Digit+
//! Sign    ::= '+' | '-'
//! ```
//!
//! The three words are matched without regard to ASCII case.

use vstd::prelude::*;

verus! {

/// The ten ASCII digit characters.
pub open spec fn is_digit_char(c: char) -> bool {
    c == '0' || c == '1' || c == '2' || c == '3' || c == '4' || c == '5' || c == '6' || c == '7'
        || c == '8' || c == '9'
}

pub open spec fn all_digits(s: Seq<char>) -> bool {
    forall|i: int| 0 <= i < s.len() ==> is_digit_char(#[trigger] s[i])
}

/// A nonempty run of ASCII digits (`Count` in the grammar).
pub open spec fn is_digit_run(s: Seq<char>) -> bool {
    s.len() > 0 && all_digits(s)
}

pub open spec fn has_sign(s: Seq<char>) -> bool {
    s.len() > 0 && (s[0] == '+' || s[0] == '-')
}

/// The sequence with a leading sign character removed, if one is present.
pub open spec fn strip_sign(s: Seq<char>) -> Seq<char> {
    if has_sign(s) {
        s.skip(1)
    } else {
        s
    }
}

/// `c` is `lower` or `upper`: a single character matched without case.
pub open spec fn char_ci(c: char, lower: char, upper: char) -> bool {
    c == lower || c == upper
}

pub open spec fn is_word_inf(s: Seq<char>) -> bool {
    s.len() == 3 && char_ci(s[0], 'i', 'I') && char_ci(s[1], 'n', 'N') && char_ci(s[2], 'f', 'F')
}

pub open spec fn is_word_infinity(s: Seq<char>) -> bool {
    s.len() == 8 && char_ci(s[0], 'i', 'I') && char_ci(s[1], 'n', 'N') && char_ci(
        s[2],
        'f',
        'F',
    ) && char_ci(s[3], 'i', 'I') && char_ci(s[4], 'n', 'N') && char_ci(s[5], 'i', 'I') && char_ci(
        s[6],
        't',
        'T',
    ) && char_ci(s[7], 'y', 'Y')
}

pub open spec fn is_word_nan(s: Seq<char>) -> bool {
    s.len() == 3 && char_ci(s[0], 'n', 'N') && char_ci(s[1], 'a', 'A') && char_ci(s[2], 'n', 'N')
}

/// Index of the first `'.'` in `s`, or `s.len()` if there is none.
pub open spec fn dot_pos(s: Seq<char>) -> int
    decreases s.len(),
{
    if s.len() == 0 {
        0
    } else if s[0] == '.' {
        0
    } else {
        1 + dot_pos(s.skip(1))
    }
}

/// Index of the first exponent marker (`'e'` or `'E'`) in `s`, or `s.len()`.
pub open spec fn exp_pos(s: Seq<char>) -> int
    decreases s.len(),
{
    if s.len() == 0 {
        0
    } else if s[0] == 'e' || s[0] == 'E' {
        0
    } else {
        1 + exp_pos(s.skip(1))
    }
}

pub proof fn lemma_dot_pos(s: Seq<char>)
    ensures
        0 <= dot_pos(s) <= s.len(),
        forall|i: int| 0 <= i < dot_pos(s) ==> #[trigger] s[i] != '.',
        dot_pos(s) < s.len() ==> s[dot_pos(s)] == '.',
    decreases s.len(),
{
    if s.len() != 0 && s[0] != '.' {
        lemma_dot_pos(s.skip(1));
        assert forall|i: int| 0 <= i < dot_pos(s) implies #[trigger] s[i] != '.' by {
            if i >= 1 {
                assert(s.skip(1)[i - 1] == s[i]);
            }
        }
        if dot_pos(s) < s.len() {
            assert(s.skip(1)[dot_pos(s) - 1] == s[dot_pos(s)]);
        }
    }
}

pub proof fn lemma_exp_pos(s: Seq<char>)
    ensures
        0 <= exp_pos(s) <= s.len(),
        forall|i: int| 0 <= i < exp_pos(s) ==> #[trigger] s[i] != 'e' && s[i] != 'E',
        exp_pos(s) < s.len() ==> s[exp_pos(s)] == 'e' || s[exp_pos(s)] == 'E',
    decreases s.len(),
{
    if s.len() != 0 && !(s[0] == 'e' || s[0] == 'E') {
        lemma_exp_pos(s.skip(1));
        assert forall|i: int| 0 <= i < exp_pos(s) implies #[trigger] s[i] != 'e' && s[i] != 'E' by {
            if i >= 1 {
                assert(s.skip(1)[i - 1] == s[i]);
            }
        }
        if exp_pos(s) < s.len() {
            assert(s.skip(1)[exp_pos(s) - 1] == s[exp_pos(s)]);
        }
    }
}

/// `Count '.'? Count?` or `'.' Count`: digits with at most one dot and at
/// least one digit.
pub open spec fn is_mantissa(m: Seq<char>) -> bool {
    let d = dot_pos(m);
    if d >= m.len() {
        is_digit_run(m)
    } else {
        all_digits(m.take(d)) && all_digits(m.skip(d + 1)) && m.len() >= 2
    }
}

/// What may follow the exponent marker: an optionally signed `Count`.
pub open spec fn is_exp_tail(t: Seq<char>) -> bool {
    is_digit_run(strip_sign(t))
}

/// `Number` in the grammar: a mantissa with an optional exponent part.
pub open spec fn is_number_body(b: Seq<char>) -> bool {
    let k = exp_pos(b);
    if k >= b.len() {
        is_mantissa(b)
    } else {
        is_mantissa(b.take(k)) && is_exp_tail(b.skip(k + 1))
    }
}

/// The unit is a valid double-precision float literal.
pub open spec fn spec_is_float_literal(s: Seq<char>) -> bool {
    let b = strip_sign(s);
    is_word_inf(b) || is_word_infinity(b) || is_word_nan(b) || is_number_body(b)
}

proof fn lemma_mantissa_no_space(m: Seq<char>, j: int)
    requires
        is_mantissa(m),
        0 <= j < m.len(),
    ensures
        m[j] != ' ',
{
    lemma_dot_pos(m);
    let d = dot_pos(m);
    if d >= m.len() {
        assert(is_digit_char(m[j]));
    } else if j < d {
        assert(m.take(d)[j] == m[j]);
        assert(is_digit_char(m[j]));
    } else if j > d {
        assert(m.skip(d + 1)[j - d - 1] == m[j]);
        assert(is_digit_char(m[j]));
    }
}

proof fn lemma_body_no_space(b: Seq<char>, j: int)
    requires
        is_word_inf(b) || is_word_infinity(b) || is_word_nan(b) || is_number_body(b),
        0 <= j < b.len(),
    ensures
        b[j] != ' ',
{
    if is_word_inf(b) || is_word_infinity(b) || is_word_nan(b) {
    } else {
        lemma_exp_pos(b);
        let k = exp_pos(b);
        if k >= b.len() {
            lemma_mantissa_no_space(b, j);
        } else if j < k {
            assert(b.take(k)[j] == b[j]);
            lemma_mantissa_no_space(b.take(k), j);
        } else if j > k {
            let t = b.skip(k + 1);
            assert(t[j - k - 1] == b[j]);
            if has_sign(t) && j == k + 1 {
            } else {
                let l = if has_sign(t) {
                    j - k - 2
                } else {
                    j - k - 1
                };
                assert(strip_sign(t)[l] == b[j]);
                assert(is_digit_char(b[j]));
            }
        }
    }
}

/// A float literal never contains a space, so a unit that is a literal is
/// the whole of any line made of it alone.
pub proof fn lemma_literal_no_space(s: Seq<char>)
    requires
        spec_is_float_literal(s),
    ensures
        forall|i: int| 0 <= i < s.len() ==> #[trigger] s[i] != ' ',
{
    let b = strip_sign(s);
    assert forall|i: int| 0 <= i < s.len() implies #[trigger] s[i] != ' ' by {
        if has_sign(s) && i == 0 {
        } else {
            let j = if has_sign(s) {
                i - 1
            } else {
                i
            };
            assert(b[j] == s[i]);
            lemma_body_no_space(b, j);
        }
    }
}

fn char_ci_check(c: char, lower: char, upper: char) -> (r: bool)
    ensures
        r == char_ci(c, lower, upper),
{
    c == lower || c == upper
}

fn digit_check(c: char) -> (r: bool)
    ensures
        r == is_digit_char(c),
{
    c == '0' || c == '1' || c == '2' || c == '3' || c == '4' || c == '5' || c == '6' || c == '7'
        || c == '8' || c == '9'
}

/// All characters of `s` in `[from, to)` are ASCII digits.
fn all_digits_range(s: &str, from: usize, to: usize) -> (r: bool)
    requires
        from <= to <= s@.len(),
    ensures
        r == all_digits(s@.subrange(from as int, to as int)),
{
    let ghost sub = s@.subrange(from as int, to as int);
    let mut i: usize = from;
    while i < to
        invariant
            from <= i <= to <= s@.len(),
            sub == s@.subrange(from as int, to as int),
            forall|j: int| 0 <= j < i - from ==> is_digit_char(#[trigger] sub[j]),
        decreases to - i,
    {
        let c = s.get_char(i);
        if !digit_check(c) {
            assert(sub[i - from] == c);
            return false;
        }
        assert(sub[i - from] == c);
        i += 1;
    }
    true
}

/// Index of the first `'.'` in `s` within `[from, to)`, or `to` if none.
fn find_dot(s: &str, from: usize, to: usize) -> (r: usize)
    requires
        from <= to <= s@.len(),
    ensures
        from <= r <= to,
        r - from == dot_pos(s@.subrange(from as int, to as int)),
{
    let ghost sub = s@.subrange(from as int, to as int);
    let mut i: usize = from;
    while i < to
        invariant
            from <= i <= to <= s@.len(),
            sub == s@.subrange(from as int, to as int),
            forall|j: int| 0 <= j < i - from ==> #[trigger] sub[j] != '.',
        decreases to - i,
    {
        let c = s.get_char(i);
        assert(sub[i - from] == c);
        if c == '.' {
            proof {
                lemma_dot_pos(sub);
            }
            return i;
        }
        i += 1;
    }
    proof {
        lemma_dot_pos(sub);
    }
    to
}

/// Index of the first `'e'` or `'E'` in `s` within `[from, to)`, or `to`.
fn find_exp(s: &str, from: usize, to: usize) -> (r: usize)
    requires
        from <= to <= s@.len(),
    ensures
        from <= r <= to,
        r - from == exp_pos(s@.subrange(from as int, to as int)),
{
    let ghost sub = s@.subrange(from as int, to as int);
    let mut i: usize = from;
    while i < to
        invariant
            from <= i <= to <= s@.len(),
            sub == s@.subrange(from as int, to as int),
            forall|j: int| 0 <= j < i - from ==> #[trigger] sub[j] != 'e' && sub[j] != 'E',
        decreases to - i,
    {
        let c = s.get_char(i);
        assert(sub[i - from] == c);
        if c == 'e' || c == 'E' {
            proof {
                lemma_exp_pos(sub);
            }
            return i;
        }
        i += 1;
    }
    proof {
        lemma_exp_pos(sub);
    }
    to
}

/// The characters of `s` in `[from, to)` form a mantissa.
fn mantissa_range(s: &str, from: usize, to: usize) -> (r: bool)
    requires
        from <= to <= s@.len(),
    ensures
        r == is_mantissa(s@.subrange(from as int, to as int)),
{
    let ghost sub = s@.subrange(from as int, to as int);
    let d = find_dot(s, from, to);
    if d == to {
        to - from > 0 && all_digits_range(s, from, to)
    } else {
        proof {
            assert(sub.take(d - from) =~= s@.subrange(from as int, d as int));
            assert(sub.skip(d - from + 1) =~= s@.subrange(d + 1, to as int));
        }
        let digits_before = all_digits_range(s, from, d);
        let digits_after = all_digits_range(s, d + 1, to);
        digits_before && digits_after && to - from >= 2
    }
}

/// The characters of `s` in `[from, to)` form an optionally signed digit run.
fn exp_tail_range(s: &str, from: usize, to: usize) -> (r: bool)
    requires
        from <= to <= s@.len(),
    ensures
        r == is_exp_tail(s@.subrange(from as int, to as int)),
{
    let ghost sub = s@.subrange(from as int, to as int);
    let mut start = from;
    if to > from {
        let c = s.get_char(from);
        assert(sub[0] == c);
        if c == '+' || c == '-' {
            start = from + 1;
        }
    }
    proof {
        assert(strip_sign(sub) =~= s@.subrange(start as int, to as int));
    }
    to - start > 0 && all_digits_range(s, start, to)
}

/// Decides whether `s` is a valid double-precision float literal.
pub fn is_float_literal(s: &str) -> (r: bool)
    ensures
        r == spec_is_float_literal(s@),
{
    let n = s.unicode_len();
    let mut i: usize = 0;
    if n > 0 {
        let c = s.get_char(0);
        if c == '+' || c == '-' {
            i = 1;
        }
    }
    let ghost body = strip_sign(s@);
    proof {
        assert(body =~= s@.subrange(i as int, n as int));
    }
    let m = n - i;
    if m == 3 {
        let c0 = s.get_char(i);
        let c1 = s.get_char(i + 1);
        let c2 = s.get_char(i + 2);
        assert(body[0] == c0 && body[1] == c1 && body[2] == c2);
        if char_ci_check(c0, 'i', 'I') && char_ci_check(c1, 'n', 'N') && char_ci_check(
            c2,
            'f',
            'F',
        ) {
            return true;
        }
        if char_ci_check(c0, 'n', 'N') && char_ci_check(c1, 'a', 'A') && char_ci_check(
            c2,
            'n',
            'N',
        ) {
            return true;
        }
    }
    if m == 8 {
        let c0 = s.get_char(i);
        let c1 = s.get_char(i + 1);
        let c2 = s.get_char(i + 2);
        let c3 = s.get_char(i + 3);
        let c4 = s.get_char(i + 4);
        let c5 = s.get_char(i + 5);
        let c6 = s.get_char(i + 6);
        let c7 = s.get_char(i + 7);
        assert(body[0] == c0 && body[1] == c1 && body[2] == c2 && body[3] == c3 && body[4] == c4
            && body[5] == c5 && body[6] == c6 && body[7] == c7);
        if char_ci_check(c0, 'i', 'I') && char_ci_check(c1, 'n', 'N') && char_ci_check(c2, 'f', 'F')
            && char_ci_check(c3, 'i', 'I') && char_ci_check(c4, 'n', 'N') && char_ci_check(
            c5,
            'i',
            'I',
        ) && char_ci_check(c6, 't', 'T') && char_ci_check(c7, 'y', 'Y') {
            return true;
        }
    }
    assert(!is_word_inf(body) && !is_word_infinity(body) && !is_word_nan(body));
    let k = find_exp(s, i, n);
    if k == n {
        mantissa_range(s, i, n)
    } else {
        proof {
            assert(body.take(k - i) =~= s@.subrange(i as int, k as int));
            assert(body.skip(k - i + 1) =~= s@.subrange(k + 1, n as int));
        }
        let mant = mantissa_range(s, i, k);
        let tail = exp_tail_range(s, k + 1, n);
        mant && tail
    }
}

} // verus!
