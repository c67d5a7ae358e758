//! Rendering computed values back to text.
//!
//! A value renders as its decimal digits, with a leading minus sign when
//! negative; a non-zero division remainder follows the quotient as an
//! ` R<remainder>` suffix.  Rendering a value and parsing the rendered
//! text gives the value back.

use vstd::prelude::*;
use vstd::string::StrSliceExecFns;
use vstd::string::StringExecFns;

use crate::text::{digit_char, digit_val, is_digit, is_space};
use crate::eval::Eval;
use crate::parse::{
    all_digits,
    digits_val,
    lemma_digits_val_nonneg,
    skip_spaces,
    rstrip_spaces,
    trim_of,
    spec_parse_int,
    ParseError,
};

verus! {

/// The decimal digits of a non-negative integer, most significant first.
pub open spec fn spec_digits(n: int) -> Seq<char>
    decreases n,
{
    if n <= 9 {
        seq![digit_char(n)]
    } else {
        spec_digits(n / 10).push(digit_char(n % 10))
    }
}

/// The rendering of an integer: its digits, with a minus sign when
/// negative.
pub open spec fn spec_render_int(v: int) -> Seq<char> {
    if v < 0 {
        seq!['-'] + spec_digits(-v)
    } else {
        spec_digits(v)
    }
}

/// The rendering of a computed value: the value, then the remainder after
/// an ` R` marker when the remainder is not zero.
pub open spec fn spec_render_eval(value: int, remainder: int) -> Seq<char> {
    if remainder == 0 {
        spec_render_int(value)
    } else {
        spec_render_int(value) + seq![' ', 'R'] + spec_render_int(remainder)
    }
}

/// The digits of a non-negative integer are decimal digits and carry its
/// value.
pub proof fn lemma_spec_digits(n: int)
    requires
        n >= 0,
    ensures
        spec_digits(n).len() >= 1,
        all_digits(spec_digits(n)),
        digits_val(spec_digits(n)) == n,
    decreases n,
{
    if n <= 9 {
        let d = seq![digit_char(n)];
        assert(d.drop_last() =~= Seq::<char>::empty());
        assert(digits_val(d) == digits_val(Seq::<char>::empty()) * 10 + digit_val(digit_char(n)));
    } else {
        lemma_spec_digits(n / 10);
        let d = spec_digits(n / 10);
        let whole = d.push(digit_char(n % 10));
        assert(whole.drop_last() =~= d);
        assert(digits_val(whole) == (n / 10) * 10 + (n % 10));
        assert((n / 10) * 10 + (n % 10) == n) by {
            vstd::arithmetic::div_mod::lemma_fundamental_div_mod(n, 10);
        }
    }
}

/// A single-character string for each digit value.
fn digit_str(d: u8) -> (r: &'static str)
    requires
        d < 10,
    ensures
        r@ =~= seq![digit_char(d as int)],
{
    proof {
        reveal_strlit("0");
        reveal_strlit("1");
        reveal_strlit("2");
        reveal_strlit("3");
        reveal_strlit("4");
        reveal_strlit("5");
        reveal_strlit("6");
        reveal_strlit("7");
        reveal_strlit("8");
        reveal_strlit("9");
    }
    match d {
        0 => "0",
        1 => "1",
        2 => "2",
        3 => "3",
        4 => "4",
        5 => "5",
        6 => "6",
        7 => "7",
        8 => "8",
        _ => "9",
    }
}

/// The decimal digits of a non-negative number.
fn render_digits(n: u64) -> (r: String)
    ensures
        r@ == spec_digits(n as int),
    decreases n,
{
    if n <= 9 {
        digit_str(n as u8).to_owned()
    } else {
        let mut s = render_digits(n / 10);
        s.append(digit_str((n % 10) as u8));
        assert(s@ =~= spec_digits(n as int));
        s
    }
}

/// Render an integer in decimal.
pub fn render_int(v: i64) -> (r: String)
    ensures
        r@ == spec_render_int(v as int),
{
    if v >= 0 {
        render_digits(v as u64)
    } else {
        let m: u64 = if v == i64::MIN {
            9223372036854775808u64
        } else {
            (-v) as u64
        };
        proof {
            reveal_strlit("-");
        }
        let mut s = "-".to_owned();
        s.append(render_digits(m).as_str());
        assert(s@ =~= spec_render_int(v as int));
        s
    }
}

/// Render a computed value, with its remainder suffix when one is there.
pub fn render_eval(e: &Eval) -> (r: String)
    ensures
        r@ == spec_render_eval(e.value as int, e.remainder as int),
{
    let mut s = render_int(e.value);
    if e.remainder != 0 {
        proof {
            reveal_strlit(" R");
        }
        s.append(" R");
        s.append(render_int(e.remainder).as_str());
        assert(s@ =~= spec_render_eval(e.value as int, e.remainder as int));
    }
    s
}

/// No character of a rendered integer is whitespace, and trimming leaves
/// it alone.
proof fn lemma_digits_no_space(n: int)
    requires
        n >= 0,
    ensures
        forall|i: int| 0 <= i < spec_digits(n).len() ==> !is_space(spec_digits(n)[i]),
    decreases n,
{
    lemma_spec_digits(n);
    if n > 9 {
        lemma_digits_no_space(n / 10);
    }
}

/// A sequence without leading or trailing whitespace trims to itself.
proof fn lemma_trim_id(s: Seq<char>)
    requires
        s.len() > 0,
        !is_space(s[0]),
        !is_space(s[s.len() - 1]),
    ensures
        trim_of(s) == s,
{
    assert(skip_spaces(s, 0) == 0);
    assert(rstrip_spaces(s, s.len() as int) == s.len() as int);
    assert(s.subrange(0, s.len() as int) =~= s);
}

/// Rendering an integer and parsing the rendered text gives the integer
/// back: the calculator's output for any computed value reads back as
/// that value.
pub proof fn lemma_render_parse_roundtrip(v: i64)
    ensures
        spec_parse_int(spec_render_int(v as int)) == Ok::<int, ParseError>(v as int),
{
    let s = spec_render_int(v as int);
    if v >= 0 {
        lemma_spec_digits(v as int);
        lemma_digits_no_space(v as int);
        lemma_trim_id(s);
        assert(!is_digit('-') && !is_digit('+'));
        assert(s[0] != '-' && s[0] != '+');
        lemma_digits_val_nonneg(s);
    } else {
        let m = -(v as int);
        lemma_spec_digits(m);
        lemma_digits_no_space(m);
        assert(s[0] == '-');
        assert(!is_space(s[s.len() - 1])) by {
            assert(s[s.len() - 1] == spec_digits(m)[spec_digits(m).len() - 1]);
        }
        lemma_trim_id(s);
        assert(s.drop_first() =~= spec_digits(m));
    }
}

} // verus!
