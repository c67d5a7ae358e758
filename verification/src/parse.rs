//! Validation and parsing of operand tokens.
//!
//! A token is parsed as an optionally signed decimal integer after trimming
//! surrounding whitespace.  The two operand tokens of a line are parsed
//! independently, except that a failed pre-filter short-circuits both.

use vstd::prelude::*;
use vstd::string::StrSliceExecFns;
use vstd::string::StringExecFns;

use crate::text::{digit_char_at, digit_value, space_char, is_digit, is_space, digit_val};

verus! {

/// A token plausibly holds a number: at least one decimal digit occurs in it.
pub open spec fn contains_digit(s: Seq<char>) -> bool {
    exists|i: int| 0 <= i < s.len() && is_digit(s[i])
}

/// Whether a single token contains a decimal digit.
pub fn has_digit(s: &str) -> (r: bool)
    ensures
        r == contains_digit(s@),
{
    let n: usize = s.unicode_len();
    let mut i: usize = 0;
    while i < n
        invariant
            n == s@.len(),
            i <= n,
            forall|k: int| 0 <= k < i ==> !is_digit(s@[k]),
        decreases n - i,
    {
        if digit_char_at(s.get_char(i)) {
            return true;
        }
        i = i + 1;
    }
    false
}

/// Check that the two operand tokens plausibly hold numbers.
///
/// This is a cheap pre-filter, not a grammar check: it accepts any token
/// with a digit somewhere in it, and leaves real validity to the parser.
pub fn preparse(v1: &str, v2: &str) -> (r: bool)
    ensures
        r == (contains_digit(v1@) && contains_digit(v2@)),
{
    has_digit(v1) && has_digit(v2)
}

/// Why an operand token failed to parse.
#[derive(Clone, Copy, Debug, PartialEq, Eq, Structural)]
pub enum ParseError {
    /// The token is empty once surrounding whitespace is trimmed.
    Empty,
    /// A character other than a decimal digit stands where a digit must.
    InvalidDigit,
    /// The number does not fit in a signed 64-bit integer.
    OutOfRange,
    /// The pre-filter rejected the pair of operand tokens, so neither
    /// was parsed.
    NotNumeric,
}

impl ParseError {
    /// A one-line human-readable description of the failure.
    pub fn describe(&self) -> (r: String)
        ensures
            self is Empty ==> r@ == "empty operand"@,
            self is InvalidDigit ==> r@ == "operand is not a valid integer"@,
            self is OutOfRange ==> r@ == "operand is out of range"@,
            self is NotNumeric ==> r@ == "pre-parse validation failed"@,
    {
        match self {
            ParseError::Empty => "empty operand".to_owned(),
            ParseError::InvalidDigit => "operand is not a valid integer".to_owned(),
            ParseError::OutOfRange => "operand is out of range".to_owned(),
            ParseError::NotNumeric => "pre-parse validation failed".to_owned(),
        }
    }
}

/// The first index at or after `i` holding a non-space character, or the
/// length of `s` when only spaces follow.
pub open spec fn skip_spaces(s: Seq<char>, i: int) -> int
    decreases s.len() - i,
{
    if i < 0 || i >= s.len() || !is_space(s[i]) {
        i
    } else {
        skip_spaces(s, i + 1)
    }
}

/// The index just past the last non-space character strictly before `j`,
/// or zero when only spaces precede.
pub open spec fn rstrip_spaces(s: Seq<char>, j: int) -> int
    decreases j,
{
    if j <= 0 || j > s.len() || !is_space(s[j - 1]) {
        j
    } else {
        rstrip_spaces(s, j - 1)
    }
}

pub proof fn lemma_skip_spaces_bounds(s: Seq<char>, i: int)
    requires
        0 <= i <= s.len(),
    ensures
        i <= skip_spaces(s, i) <= s.len(),
    decreases s.len() - i,
{
    if !(i >= s.len() || !is_space(s[i])) {
        lemma_skip_spaces_bounds(s, i + 1);
    }
}

pub proof fn lemma_rstrip_spaces_bounds(s: Seq<char>, j: int)
    requires
        0 <= j <= s.len(),
    ensures
        0 <= rstrip_spaces(s, j) <= j,
    decreases j,
{
    if !(j <= 0 || !is_space(s[j - 1])) {
        lemma_rstrip_spaces_bounds(s, j - 1);
    }
}

/// Stripping from the right never passes a non-space character.
pub proof fn lemma_rstrip_stops_at_nonspace(s: Seq<char>, j: int, a: int)
    requires
        0 <= a < j <= s.len(),
        !is_space(s[a]),
    ensures
        a < rstrip_spaces(s, j),
    decreases j,
{
    if !(j <= 0 || !is_space(s[j - 1])) {
        if a < j - 1 {
            lemma_rstrip_stops_at_nonspace(s, j - 1, a);
        }
    }
}

/// The token with surrounding whitespace removed.
pub open spec fn trim_of(s: Seq<char>) -> Seq<char> {
    if skip_spaces(s, 0) == s.len() {
        Seq::empty()
    } else {
        s.subrange(skip_spaces(s, 0), rstrip_spaces(s, s.len() as int))
    }
}

/// The value of a sequence of decimal digit characters, most significant
/// first.
pub open spec fn digits_val(d: Seq<char>) -> int
    decreases d.len(),
{
    if d.len() == 0 {
        0
    } else {
        digits_val(d.drop_last()) * 10 + digit_val(d.last())
    }
}

/// Every character of the sequence is a decimal digit.
pub open spec fn all_digits(d: Seq<char>) -> bool {
    forall|i: int| 0 <= i < d.len() ==> is_digit(d[i])
}

pub proof fn lemma_digits_val_nonneg(d: Seq<char>)
    ensures
        digits_val(d) >= 0,
    decreases d.len(),
{
    if d.len() > 0 {
        lemma_digits_val_nonneg(d.drop_last());
    }
}

/// Extending a digit string to the right never lowers its value.
pub proof fn lemma_digits_val_prefix(d: Seq<char>, n: int)
    requires
        0 <= n <= d.len(),
    ensures
        digits_val(d) >= digits_val(d.subrange(0, n)),
    decreases d.len() - n,
{
    if n < d.len() {
        lemma_digits_val_prefix(d, n + 1);
        let p = d.subrange(0, n + 1);
        assert(p.drop_last() =~= d.subrange(0, n));
        lemma_digits_val_nonneg(d.subrange(0, n));
    } else {
        assert(d.subrange(0, n) =~= d);
    }
}

/// What parsing a single operand token yields, at the level of the model:
/// trim surrounding whitespace, read an optional sign, then decimal digits,
/// and reject values outside the signed 64-bit range.
pub open spec fn spec_parse_int(s: Seq<char>) -> Result<int, ParseError> {
    let t = trim_of(s);
    if t.len() == 0 {
        Err(ParseError::Empty)
    } else {
        let neg = t[0] == '-';
        let d = if t[0] == '-' || t[0] == '+' {
            t.drop_first()
        } else {
            t
        };
        if d.len() == 0 || !all_digits(d) {
            Err(ParseError::InvalidDigit)
        } else {
            let v = if neg {
                -digits_val(d)
            } else {
                digits_val(d)
            };
            if i64::MIN <= v <= i64::MAX {
                Ok(v)
            } else {
                Err(ParseError::OutOfRange)
            }
        }
    }
}

/// Parse one operand token as a signed 64-bit integer.
#[verifier::loop_isolation(false)]
pub fn parse_i64(s: &str) -> (r: Result<i64, ParseError>)
    ensures
        (r is Ok <==> spec_parse_int(s@) is Ok),
        r is Ok ==> Ok::<int, ParseError>(r->Ok_0 as int) == spec_parse_int(s@),
        r is Err ==> Err::<int, ParseError>(r->Err_0) == spec_parse_int(s@),
{
    let n: usize = s.unicode_len();
    let mut start: usize = 0;
    while start < n && space_char(s.get_char(start))
        invariant
            n == s@.len(),
            start <= n,
            skip_spaces(s@, 0) == skip_spaces(s@, start as int),
        decreases n - start,
    {
        start = start + 1;
    }
    assert(skip_spaces(s@, 0) == start as int);
    if start == n {
        assert(trim_of(s@) =~= Seq::<char>::empty());
        return Err(ParseError::Empty);
    }
    let mut end: usize = n;
    while end > start && space_char(s.get_char(end - 1))
        invariant
            n == s@.len(),
            start < n,
            start < end <= n,
            !is_space(s@[start as int]),
            rstrip_spaces(s@, n as int) == rstrip_spaces(s@, end as int),
        decreases end,
    {
        end = end - 1;
    }
    assert(rstrip_spaces(s@, n as int) == end as int);
    let ghost t = trim_of(s@);
    assert(t =~= s@.subrange(start as int, end as int));
    assert(t.len() > 0);

    let c0 = s.get_char(start);
    let mut i: usize = start;
    let mut neg = false;
    if c0 == '-' {
        neg = true;
        i = start + 1;
    } else if c0 == '+' {
        i = start + 1;
    }
    let ghost d = if t[0] == '-' || t[0] == '+' {
        t.drop_first()
    } else {
        t
    };
    assert(d =~= s@.subrange(i as int, end as int));
    assert(neg == (t[0] == '-'));
    if i == end {
        assert(d.len() == 0);
        return Err(ParseError::InvalidDigit);
    }

    let mut j: usize = i;
    while j < end
        invariant
            n == s@.len(),
            i <= j <= end <= n,
            forall|k: int| i <= k < j ==> is_digit(s@[k]),
        decreases end - j,
    {
        if !digit_char_at(s.get_char(j)) {
            assert(!all_digits(d)) by {
                assert(d[j - i] == s@[j as int]);
            }
            return Err(ParseError::InvalidDigit);
        }
        j = j + 1;
    }
    assert(all_digits(d)) by {
        assert(forall|k: int| 0 <= k < d.len() ==> d[k] == s@[k + i]);
    }

    let mut acc: u128 = 0;
    let mut j2: usize = i;
    while j2 < end
        invariant
            n == s@.len(),
            i <= j2 <= end <= n,
            d =~= s@.subrange(i as int, end as int),
            all_digits(d),
            acc as int == digits_val(s@.subrange(i as int, j2 as int)),
            acc <= 9223372036854775808u128,
        decreases end - j2,
    {
        let c = s.get_char(j2);
        assert(is_digit(c)) by {
            assert(d[j2 - i] == s@[j2 as int]);
        }
        let dv: u8 = digit_value(c);
        let ghost pre = s@.subrange(i as int, j2 as int);
        acc = acc * 10 + (dv as u128);
        j2 = j2 + 1;
        assert(s@.subrange(i as int, j2 as int).drop_last() =~= pre);
        if acc > 9223372036854775808u128 {
            proof {
                let p = s@.subrange(i as int, j2 as int);
                assert(p =~= d.subrange(0, j2 - i));
                lemma_digits_val_prefix(d, j2 - i);
                assert(digits_val(d) > 9223372036854775808);
            }
            return Err(ParseError::OutOfRange);
        }
    }
    assert(s@.subrange(i as int, j2 as int) =~= d);
    assert(acc as int == digits_val(d));

    if neg {
        if acc == 9223372036854775808u128 {
            Ok(i64::MIN)
        } else {
            Ok(-((acc as i64)))
        }
    } else {
        if acc <= 9223372036854775807u128 {
            Ok(acc as i64)
        } else {
            Err(ParseError::OutOfRange)
        }
    }
}

/// The pair of parse outcomes for the two operand tokens of a line: the
/// pre-filter gates the pair, and past it each token is parsed on its own.
pub open spec fn spec_intparse(a: Seq<char>, b: Seq<char>) -> (Result<int, ParseError>, Result<
    int,
    ParseError,
>) {
    if contains_digit(a) && contains_digit(b) {
        (spec_parse_int(a), spec_parse_int(b))
    } else {
        (Err(ParseError::NotNumeric), Err(ParseError::NotNumeric))
    }
}

/// Parse the two operand tokens.
///
/// When the pre-filter rejects the pair, both results carry the same
/// failure marker and no numeric parse is attempted.
pub fn intparse(v1: &str, v2: &str) -> (r: (Result<i64, ParseError>, Result<i64, ParseError>))
    ensures
        (r.0 is Ok <==> spec_intparse(v1@, v2@).0 is Ok),
        r.0 is Ok ==> Ok::<int, ParseError>(r.0->Ok_0 as int) == spec_intparse(v1@, v2@).0,
        r.0 is Err ==> Err::<int, ParseError>(r.0->Err_0) == spec_intparse(v1@, v2@).0,
        (r.1 is Ok <==> spec_intparse(v1@, v2@).1 is Ok),
        r.1 is Ok ==> Ok::<int, ParseError>(r.1->Ok_0 as int) == spec_intparse(v1@, v2@).1,
        r.1 is Err ==> Err::<int, ParseError>(r.1->Err_0) == spec_intparse(v1@, v2@).1,
{
    if preparse(v1, v2) {
        (parse_i64(v1), parse_i64(v2))
    } else {
        (Err(ParseError::NotNumeric), Err(ParseError::NotNumeric))
    }
}

/// Once the pre-filter passes, parsing is independent per operand: each
/// component of the pair is the parse of its own token alone, untouched by
/// the other token.
pub proof fn lemma_parse_independent(a: Seq<char>, b: Seq<char>)
    requires
        contains_digit(a),
        contains_digit(b),
    ensures
        spec_intparse(a, b).0 == spec_parse_int(a),
        spec_intparse(a, b).1 == spec_parse_int(b),
{
}

} // verus!
