//! Lexical analysis of an input line.
//!
//! A line is split on single ASCII space characters into units; each unit is
//! classified as one of the four operator symbols or as a float literal.
//! Empty units (from adjacent or leading/trailing spaces, or an empty line)
//! match neither form, so they fail classification, and a single invalid unit
//! aborts the whole tokenization.

use crate::literal::is_float_literal;
use crate::literal::spec_is_float_literal;
use vstd::prelude::*;

verus! {

#[derive(Clone, Copy, PartialEq, Eq, Structural, Debug)]
pub enum OperatorKind {
    Add,
    Sub,
    Mul,
    Div,
}

/// A classified unit of input: one of the four operators, or a number.
/// A number token carries the literal text of its unit; the embedding
/// program converts it to the double value it denotes.
#[derive(Clone, Debug)]
pub enum Token {
    Operator(OperatorKind),
    Number(String),
}

/// Tokenization failure: some unit of the line is neither an operator symbol
/// nor a float literal. The first such unit is reported.
#[derive(Clone, Debug)]
pub struct TokenParseError {
    pub offending_unit: String,
}

/// The operator denoted by a unit, if any.
pub open spec fn spec_operator_of(u: Seq<char>) -> Option<OperatorKind> {
    if u.len() == 1 && u[0] == '+' {
        Some(OperatorKind::Add)
    } else if u.len() == 1 && u[0] == '-' {
        Some(OperatorKind::Sub)
    } else if u.len() == 1 && u[0] == '*' {
        Some(OperatorKind::Mul)
    } else if u.len() == 1 && u[0] == '/' {
        Some(OperatorKind::Div)
    } else {
        None
    }
}

/// A unit is classifiable: an operator symbol or a float literal.
pub open spec fn unit_ok(u: Seq<char>) -> bool {
    spec_operator_of(u) is Some || spec_is_float_literal(u)
}

/// `t` is the token that the unit `u` classifies as.
pub open spec fn token_matches(t: Token, u: Seq<char>) -> bool {
    match t {
        Token::Operator(k) => spec_operator_of(u) == Some(k),
        Token::Number(lit) => spec_operator_of(u) is None && spec_is_float_literal(u) && lit@ == u,
    }
}

/// Index of the first `' '` in `s`, or `s.len()` if there is none.
pub open spec fn space_pos(s: Seq<char>) -> int
    decreases s.len(),
{
    if s.len() == 0 {
        0
    } else if s[0] == ' ' {
        0
    } else {
        1 + space_pos(s.skip(1))
    }
}

pub proof fn lemma_space_pos(s: Seq<char>)
    ensures
        0 <= space_pos(s) <= s.len(),
        forall|i: int| 0 <= i < space_pos(s) ==> #[trigger] s[i] != ' ',
        space_pos(s) < s.len() ==> s[space_pos(s)] == ' ',
    decreases s.len(),
{
    if s.len() != 0 && s[0] != ' ' {
        lemma_space_pos(s.skip(1));
        assert forall|i: int| 0 <= i < space_pos(s) implies #[trigger] s[i] != ' ' by {
            if i >= 1 {
                assert(s.skip(1)[i - 1] == s[i]);
            }
        }
        if space_pos(s) < s.len() {
            assert(s.skip(1)[space_pos(s) - 1] == s[space_pos(s)]);
        }
    }
}

/// The units of a line: the maximal runs of non-space characters between
/// single space separators. An empty line has one empty unit, and adjacent,
/// leading or trailing spaces produce empty units.
pub open spec fn split_on_space(s: Seq<char>) -> Seq<Seq<char>>
    decreases s.len(),
{
    if s.len() == 0 {
        seq![Seq::<char>::empty()]
    } else if s[0] == ' ' {
        seq![Seq::<char>::empty()] + split_on_space(s.skip(1))
    } else {
        let rest = split_on_space(s.skip(1));
        seq![seq![s[0]] + rest[0]] + rest.skip(1)
    }
}

pub proof fn lemma_split_len(s: Seq<char>)
    ensures
        split_on_space(s).len() >= 1,
    decreases s.len(),
{
    if s.len() != 0 {
        lemma_split_len(s.skip(1));
    }
}

/// The first unit of a line runs to its first space: if the line has no
/// space it is one unit, and otherwise it is the part before the first
/// space followed by the units of the part after it.
pub proof fn lemma_split_chunk(s: Seq<char>)
    ensures
        space_pos(s) >= s.len() ==> split_on_space(s) == seq![s],
        space_pos(s) < s.len() ==> split_on_space(s) == seq![s.take(space_pos(s))]
            + split_on_space(s.skip(space_pos(s) + 1)),
    decreases s.len(),
{
    lemma_space_pos(s);
    if s.len() == 0 {
        assert(s =~= Seq::<char>::empty());
        assert(split_on_space(s) =~= seq![s]);
    } else if s[0] == ' ' {
        assert(s.take(0) =~= Seq::<char>::empty());
        assert(split_on_space(s) =~= seq![s.take(0)] + split_on_space(s.skip(1)));
    } else {
        lemma_split_chunk(s.skip(1));
        lemma_split_len(s.skip(1));
        let k = space_pos(s);
        let rest = split_on_space(s.skip(1));
        if space_pos(s.skip(1)) >= s.skip(1).len() {
            assert(k >= s.len());
            assert(rest == seq![s.skip(1)]);
            assert(seq![s[0]] + s.skip(1) =~= s);
            assert(split_on_space(s) =~= seq![s]);
        } else {
            let k1 = space_pos(s.skip(1));
            assert(k == 1 + k1);
            assert(rest == seq![s.skip(1).take(k1)] + split_on_space(s.skip(1).skip(k1 + 1)));
            assert(rest[0] == s.skip(1).take(k1));
            assert(seq![s[0]] + s.skip(1).take(k1) =~= s.take(k));
            assert(s.skip(1).skip(k1 + 1) =~= s.skip(k + 1));
            assert(rest.skip(1) =~= split_on_space(s.skip(1).skip(k1 + 1)));
            assert(split_on_space(s) =~= seq![s.take(k)] + split_on_space(s.skip(k + 1)));
        }
    }
}

/// An operator symbol is never a float literal, so the two classifications
/// of a unit cannot overlap.
pub proof fn lemma_operator_not_literal(s: Seq<char>)
    requires
        spec_operator_of(s) is Some,
    ensures
        !spec_is_float_literal(s),
{
    let b = crate::literal::strip_sign(s);
    if s[0] == '+' || s[0] == '-' {
        assert(b =~= Seq::<char>::empty());
        assert(!crate::literal::is_digit_run(b));
    } else {
        assert(b == s);
        assert(!crate::literal::is_digit_char(s[0]));
        if crate::literal::is_number_body(b) {
            crate::literal::lemma_exp_pos(b);
            let k = crate::literal::exp_pos(b);
            assert(k == 1);
            crate::literal::lemma_dot_pos(b);
            assert(crate::literal::dot_pos(b) == 1);
            assert(!crate::literal::is_digit_run(b));
        }
    }
}

/// A line that is one valid float literal tokenizes as exactly one unit,
/// classified as a number token carrying the literal itself (whose double
/// value the embedding program then parses out of it).
pub proof fn lemma_float_literal_single_token(s: Seq<char>)
    requires
        crate::literal::spec_is_float_literal(s),
    ensures
        split_on_space(s) == seq![s],
        unit_ok(s),
        spec_operator_of(s) is None,
        forall|t: Token|
            token_matches(t, s) == match t {
                Token::Number(lit) => lit@ == s,
                Token::Operator(_) => false,
            },
{
    crate::literal::lemma_literal_no_space(s);
    lemma_space_pos(s);
    lemma_split_chunk(s);
    if spec_operator_of(s) is Some {
        lemma_operator_not_literal(s);
    }
}

/// A line that is a single unit (it contains no space) which is neither an
/// operator symbol nor a valid float literal fails tokenization, and the
/// line itself is the offending unit. A line with spaces in it is split
/// first, so this is stated for single units: the line `1 2`, say, is not
/// parseable as a float as a whole, yet it tokenizes as two number tokens.
pub proof fn lemma_invalid_unit_rejected(s: Seq<char>)
    requires
        !crate::literal::spec_is_float_literal(s),
        spec_operator_of(s) is None,
        forall|i: int| 0 <= i < s.len() ==> #[trigger] s[i] != ' ',
    ensures
        split_on_space(s) == seq![s],
        !unit_ok(s),
{
    lemma_space_pos(s);
    lemma_split_chunk(s);
}

/// Classifies a single unit as the operator it denotes, if any.
pub fn operator_of(unit: &str) -> (r: Option<OperatorKind>)
    ensures
        r == spec_operator_of(unit@),
{
    let n = unit.unicode_len();
    if n != 1 {
        return None;
    }
    let c = unit.get_char(0);
    if c == '+' {
        Some(OperatorKind::Add)
    } else if c == '-' {
        Some(OperatorKind::Sub)
    } else if c == '*' {
        Some(OperatorKind::Mul)
    } else if c == '/' {
        Some(OperatorKind::Div)
    } else {
        None
    }
}

/// Classifies a single unit of input: an operator symbol yields an operator
/// token, a float literal yields a number token carrying the unit's text,
/// and anything else is a tokenization error naming the unit.
pub fn classify_unit(unit: &str) -> (r: Result<Token, TokenParseError>)
    ensures
        match r {
            Ok(t) => unit_ok(unit@) && token_matches(t, unit@),
            Err(e) => !unit_ok(unit@) && e.offending_unit@ == unit@,
        },
{
    match operator_of(unit) {
        Some(k) => Ok(Token::Operator(k)),
        None => {
            if is_float_literal(unit) {
                Ok(Token::Number(String::from_str(unit)))
            } else {
                Err(TokenParseError { offending_unit: String::from_str(unit) })
            }
        },
    }
}

/// Index of the first space in `line` at or after `start`, or `n` if none.
fn find_space(line: &str, start: usize, n: usize) -> (j: usize)
    requires
        start <= n,
        n == line@.len(),
    ensures
        start <= j <= n,
        forall|l: int| start <= l < j ==> #[trigger] line@[l] != ' ',
        j < n ==> line@[j as int] == ' ',
{
    let mut j = start;
    while j < n
        invariant
            start <= j <= n,
            n == line@.len(),
            forall|l: int| start <= l < j ==> #[trigger] line@[l] != ' ',
        decreases n - j,
    {
        if line.get_char(j) == ' ' {
            return j;
        }
        j += 1;
    }
    j
}

/// Splits a line on single spaces and classifies every unit.
///
/// On success the tokens correspond one to one, in order, to the units of
/// the line. On failure no tokens are produced and the error carries the
/// first unit that is neither an operator symbol nor a float literal.
pub fn tokenize(line: &str) -> (r: Result<Vec<Token>, TokenParseError>)
    ensures
        match r {
            Ok(ts) => {
                let units = split_on_space(line@);
                &&& ts@.len() == units.len()
                &&& forall|i: int| 0 <= i < units.len() ==> unit_ok(#[trigger] units[i])
                &&& forall|i: int|
                    0 <= i < units.len() ==> token_matches(#[trigger] ts@[i], units[i])
            },
            Err(e) => {
                let units = split_on_space(line@);
                exists|i: int|
                    {
                        &&& 0 <= i < units.len()
                        &&& !unit_ok(#[trigger] units[i])
                        &&& e.offending_unit@ == units[i]
                        &&& forall|j: int| 0 <= j < i ==> unit_ok(#[trigger] units[j])
                    }
            },
        },
{
    let ghost units = split_on_space(line@);
    let n = line.unicode_len();
    let mut tokens: Vec<Token> = Vec::new();
    let mut start: usize = 0;
    proof {
        assert(line@.skip(0) =~= line@);
        assert(units.skip(0) =~= units);
        lemma_split_len(line@);
    }
    loop
        invariant
            start <= n,
            n == line@.len(),
            units == split_on_space(line@),
            tokens@.len() <= units.len(),
            units.skip(tokens@.len() as int) == split_on_space(line@.skip(start as int)),
            forall|i: int| 0 <= i < tokens@.len() ==> unit_ok(#[trigger] units[i]),
            forall|i: int| 0 <= i < tokens@.len() ==> token_matches(#[trigger] tokens@[i], units[i]),
        decreases n - start + (units.len() - tokens@.len()),
    {
        let ghost remaining = line@.skip(start as int);
        proof {
            lemma_split_len(remaining);
            lemma_split_chunk(remaining);
            lemma_space_pos(remaining);
        }
        let j = find_space(line, start, n);
        proof {
            let k = space_pos(remaining);
            assert forall|l: int| 0 <= l < j - start implies #[trigger] remaining[l] != ' ' by {
                assert(remaining[l] == line@[start + l]);
            }
            if k < j - start {
                assert(remaining[k] == line@[start + k]);
                assert(false);
            }
            if k > j - start {
                if (j as int) < (n as int) {
                    assert(remaining[j - start] == line@[j as int]);
                    assert(false);
                }
                assert(k <= remaining.len());
                assert(false);
            }
            assert(k == j - start);
        }
        let unit = line.substring_char(start, j);
        proof {
            assert(unit@ =~= remaining.take(j - start));
        }
        let ghost idx = tokens@.len() as int;
        match classify_unit(unit) {
            Ok(t) => {
                proof {
                    if j < n {
                        assert(units.skip(idx) == seq![unit@] + split_on_space(
                            remaining.skip(j - start + 1),
                        ));
                        assert(units[idx] == units.skip(idx)[0]);
                        assert(remaining.skip(j - start + 1) =~= line@.skip(j + 1));
                        assert(units.skip(idx + 1) =~= units.skip(idx).skip(1));
                        assert(units.skip(idx).skip(1) =~= split_on_space(
                            remaining.skip(j - start + 1),
                        ));
                        assert(units.skip(idx + 1) == split_on_space(line@.skip(j + 1)));
                        assert(idx + 1 <= units.len());
                    } else {
                        assert(units.skip(idx) == seq![unit@]);
                        assert(units[idx] == units.skip(idx)[0]);
                    }
                }
                tokens.push(t);
                if j == n {
                    proof {
                        assert(tokens@.len() == units.len());
                    }
                    return Ok(tokens);
                }
                start = j + 1;
            },
            Err(e) => {
                proof {
                    assert(units[idx] == units.skip(idx)[0]);
                    assert(units.skip(idx)[0] == unit@);
                }
                return Err(e);
            },
        }
    }
}

} // verus!

