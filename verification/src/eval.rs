//! Operator dispatch over signed 64-bit integers.
//!
//! Division yields a truncated quotient together with its remainder;
//! exponentiation takes a non-negative exponent; the square root of a
//! non-negative operand is the floor of the real square root.

use vstd::prelude::*;
use vstd::arithmetic::power::{pow, lemma0_pow, lemma1_pow, lemma_pow0, lemma_pow_increases};
use vstd::arithmetic::div_mod::{
    lemma_div_basics_4,
    lemma_div_basics_5,
    lemma_div_is_ordered,
    lemma_div_is_ordered_by_denominator,
    lemma_fundamental_div_mod,
    lemma_mod_bound,
};

use crate::text::str_eq;

verus! {

/// Why a defined computation could not be carried out.
#[derive(Clone, Copy, Debug, PartialEq, Eq, Structural)]
pub enum Error {
    /// The operator symbol is not in the operation table.
    InvalidOperation,
    /// The divisor of a division is zero.
    DivideByZero,
}

/// A computed value: the result proper, and the remainder of an integer
/// division (zero for every other operator, and for even divisions).
#[derive(Clone, Copy, Debug, PartialEq, Eq, Structural)]
pub struct Eval {
    pub value: i64,
    pub remainder: i64,
}

pub open spec fn add_sym() -> Seq<char> {
    seq!['+']
}

pub open spec fn sub_sym() -> Seq<char> {
    seq!['-']
}

pub open spec fn mul_sym() -> Seq<char> {
    seq!['*']
}

pub open spec fn div_sym() -> Seq<char> {
    seq!['/']
}

pub open spec fn pow_sym() -> Seq<char> {
    seq!['^']
}

pub open spec fn sqrt_sym() -> Seq<char> {
    seq!['s', 'q', 'r', 't']
}

/// The magnitude of an integer.
pub open spec fn mag(x: int) -> int {
    if x < 0 {
        -x
    } else {
        x
    }
}

/// Quotient of a division truncated toward zero.
pub open spec fn trunc_div(x: int, d: int) -> int {
    if x == 0 {
        0
    } else if x > 0 && d > 0 {
        x / d
    } else if x < 0 && d < 0 {
        (-x) / (-d)
    } else if x < 0 {
        -((-x) / d)
    } else {
        -(x / (-d))
    }
}

/// Remainder of a division truncated toward zero; its sign follows the
/// dividend.
pub open spec fn trunc_rem(x: int, d: int) -> int {
    if x == 0 {
        0
    } else if x > 0 && d > 0 {
        x % d
    } else if x < 0 && d < 0 {
        -((-x) % (-d))
    } else if x < 0 {
        -((-x) % d)
    } else {
        x % (-d)
    }
}

/// The base raised to a non-negative exponent; zero stands in for the
/// undefined negative-exponent case, which every caller rules out.
pub open spec fn pow_val(b: int, e: int) -> int {
    if e >= 0 {
        pow(b, e as nat)
    } else {
        0
    }
}

/// The floor of the square root of a non-negative integer.
pub open spec fn isqrt_val(n: int) -> int
    decreases n,
{
    if n <= 0 {
        0
    } else {
        let p = isqrt_val(n - 1);
        if (p + 1) * (p + 1) <= n {
            p + 1
        } else {
            p
        }
    }
}

/// The floor of the square root is the unique integer whose square
/// brackets the operand.
pub proof fn lemma_isqrt_bracket(n: int)
    requires
        n >= 0,
    ensures
        isqrt_val(n) >= 0,
        isqrt_val(n) * isqrt_val(n) <= n,
        n < (isqrt_val(n) + 1) * (isqrt_val(n) + 1),
    decreases n,
{
    if n > 0 {
        lemma_isqrt_bracket(n - 1);
        let p = isqrt_val(n - 1);
        if (p + 1) * (p + 1) <= n {
            assert(n < (p + 2) * (p + 2)) by (nonlinear_arith)
                requires
                    p >= 0,
                    n - 1 < (p + 1) * (p + 1),
            {
            }
        }
    }
}

/// Two integers whose squares both bracket `n` are equal.
pub proof fn lemma_isqrt_unique(n: int, r: int, q: int)
    requires
        r >= 0,
        q >= 0,
        r * r <= n < (r + 1) * (r + 1),
        q * q <= n < (q + 1) * (q + 1),
    ensures
        r == q,
{
    assert(r == q) by (nonlinear_arith)
        requires
            r >= 0,
            q >= 0,
            r * r <= n < (r + 1) * (r + 1),
            q * q <= n < (q + 1) * (q + 1),
    {
    }
}

/// What each operator symbol computes, at the level of the model: the
/// operation table of the calculator.  The result pairs a value with the
/// remainder of a division (zero elsewhere).
pub open spec fn spec_eval(a: int, op: Seq<char>, b: int) -> Result<(int, int), Error> {
    if op == add_sym() {
        Ok((a + b, 0))
    } else if op == sub_sym() {
        Ok((a - b, 0))
    } else if op == mul_sym() {
        Ok((a * b, 0))
    } else if op == div_sym() {
        if b == 0 {
            Err(Error::DivideByZero)
        } else {
            Ok((trunc_div(a, b), trunc_rem(a, b)))
        }
    } else if op == pow_sym() {
        Ok((pow_val(a, b), 0))
    } else if op == sqrt_sym() {
        Ok((isqrt_val(a), 0))
    } else {
        Err(Error::InvalidOperation)
    }
}

/// The machine-width side conditions of the operation table: the value the
/// table defines exists as a signed 64-bit integer, and the exponent is
/// non-negative.
pub open spec fn eval_fits(a: int, op: Seq<char>, b: int) -> bool {
    if op == add_sym() {
        i64::MIN <= a + b <= i64::MAX
    } else if op == sub_sym() {
        i64::MIN <= a - b <= i64::MAX
    } else if op == mul_sym() {
        i64::MIN <= a * b <= i64::MAX
    } else if op == div_sym() {
        !(a == i64::MIN && b == -1)
    } else if op == pow_sym() {
        0 <= b && i64::MIN <= pow_val(a, b) <= i64::MAX
    } else if op == sqrt_sym() {
        0 <= a
    } else {
        true
    }
}

/// A truncated quotient and remainder stay in the 64-bit range whenever
/// the operands do, except for the lone overflowing quotient.
proof fn lemma_trunc_div_fits(x: int, d: int)
    requires
        i64::MIN <= x <= i64::MAX,
        i64::MIN <= d <= i64::MAX,
        d != 0,
        !(x == i64::MIN && d == -1),
    ensures
        i64::MIN <= trunc_div(x, d) <= i64::MAX,
        i64::MIN <= trunc_rem(x, d) <= i64::MAX,
{
    broadcast use lemma_div_basics_4, lemma_div_basics_5;

    if x == 0 {
    } else if x > 0 && d > 0 {
        lemma_mod_bound(x, d);
    } else if x < 0 && d < 0 {
        lemma_mod_bound(-x, -d);
        if d == -1 {
            lemma_fundamental_div_mod(-x, 1);
            lemma_mod_bound(-x, 1);
        } else {
            lemma_div_is_ordered_by_denominator(-x, 2, -d);
            lemma_div_is_ordered(-x, -(i64::MIN as int), 2);
        }
    } else if x < 0 {
        lemma_mod_bound(-x, d);
    } else {
        lemma_mod_bound(x, -d);
    }
}

/// The magnitude of a power is the power of the magnitude.
proof fn lemma_pow_mag(b: int, e: nat)
    ensures
        mag(pow(b, e)) == pow(mag(b), e),
    decreases e,
{
    reveal(pow);
    if e > 0 {
        lemma_pow_mag(b, (e - 1) as nat);
        assert(pow(b, e) == b * pow(b, (e - 1) as nat));
        assert(pow(mag(b), e) == mag(b) * pow(mag(b), (e - 1) as nat));
        assert(mag(b * pow(b, (e - 1) as nat)) == mag(b) * mag(pow(b, (e - 1) as nat)))
            by (nonlinear_arith);
    }
}

/// With a base of magnitude at least one, the magnitude of a power never
/// shrinks as the exponent grows.
proof fn lemma_pow_mag_mono(b: int, e1: nat, e2: nat)
    requires
        mag(b) >= 1,
        e1 <= e2,
    ensures
        mag(pow(b, e1)) <= mag(pow(b, e2)),
{
    lemma_pow_mag(b, e1);
    lemma_pow_mag(b, e2);
    lemma_pow_increases(mag(b) as nat, e1, e2);
}

/// A power of a negative one alternates between one and negative one.
proof fn lemma_neg_one_pow(e: nat)
    ensures
        pow(-1, e) == if e % 2 == 0 {
            1int
        } else {
            -1int
        },
    decreases e,
{
    reveal(pow);
    if e > 0 {
        lemma_neg_one_pow((e - 1) as nat);
    }
}

/// Compute the power when it exists as a signed 64-bit integer, and report
/// that it does not otherwise.
pub fn pow_checked(base: i64, e: i64) -> (r: Option<i64>)
    requires
        e >= 0,
    ensures
        (r is Some <==> i64::MIN <= pow_val(base as int, e as int) <= i64::MAX),
        r is Some ==> r->0 as int == pow_val(base as int, e as int),
{
    if base == 0 {
        if e == 0 {
            proof {
                lemma_pow0(base as int);
            }
            Some(1)
        } else {
            proof {
                lemma0_pow(e as nat);
            }
            Some(0)
        }
    } else if base == 1 {
        proof {
            lemma1_pow(e as nat);
        }
        Some(1)
    } else if base == -1 {
        proof {
            lemma_neg_one_pow(e as nat);
        }
        if (e as u64) % 2 == 0 {
            Some(1)
        } else {
            Some(-1)
        }
    } else {
        proof {
            lemma_pow0(base as int);
        }
        let mut acc: i128 = 1;
        let mut j: i64 = 0;
        while j < e
            invariant
                0 <= j <= e,
                mag(base as int) >= 2,
                acc as int == pow(base as int, j as nat),
                -9223372036854775808i128 <= acc <= 9223372036854775808i128,
            decreases e - j,
        {
            let ghost prev = acc as int;
            proof {
                assert(-170141183460469231731687303715884105728 <= prev * (base as int)
                    <= 170141183460469231731687303715884105727) by (nonlinear_arith)
                    requires
                        -9223372036854775808 <= prev <= 9223372036854775808,
                        -9223372036854775808 <= base as int <= 9223372036854775807,
                {
                }
            }
            acc = acc * (base as i128);
            j = j + 1;
            assert(acc as int == pow(base as int, j as nat)) by {
                reveal(pow);
                assert(prev * (base as int) == (base as int) * prev) by (nonlinear_arith);
            }
            if acc < -9223372036854775808i128 || acc > 9223372036854775808i128 {
                proof {
                    lemma_pow_mag_mono(base as int, j as nat, e as nat);
                }
                return None;
            }
        }
        if acc >= i64::MIN as i128 && acc <= i64::MAX as i128 {
            Some(acc as i64)
        } else {
            None
        }
    }
}

/// The floor of the square root of a non-negative operand, by bisection.
pub fn isqrt_checked(n: i64) -> (r: i64)
    requires
        n >= 0,
    ensures
        r as int == isqrt_val(n as int),
{
    let m: u64 = n as u64;
    let mut lo: u64 = 0;
    let mut hi: u64 = 3037000499;
    if m < 2 {
        proof {
            let mi = m as int;
            let ni = n as int;
            lemma_isqrt_bracket(ni);
            assert(mi * mi <= ni && ni < (mi + 1) * (mi + 1)) by (nonlinear_arith)
                requires
                    0 <= ni < 2,
                    mi == ni,
            {
            }
            lemma_isqrt_unique(ni, isqrt_val(ni), mi);
        }
        return n;
    }
    assert((hi + 1) * (hi + 1) > m as int) by (nonlinear_arith)
        requires
            hi == 3037000499,
            m <= 9223372036854775807,
    {
    }
    while lo < hi
        invariant
            lo <= hi <= 3037000499,
            lo * lo <= m as int,
            (hi + 1) * (hi + 1) > m as int,
        decreases hi - lo,
    {
        let mid: u64 = lo + (hi - lo + 1) / 2;
        assert(lo < mid <= hi);
        assert(mid * mid <= 9223372036854775807 + 2 * 3037000499 + 2) by (nonlinear_arith)
            requires
                mid <= 3037000500,
        {
        }
        if mid * mid <= m {
            lo = mid;
        } else {
            hi = mid - 1;
        }
    }
    proof {
        lemma_isqrt_bracket(n as int);
        lemma_isqrt_unique(n as int, isqrt_val(n as int), lo as int);
    }
    lo as i64
}

/// Compute what the operator symbol says over the two operands.
///
/// Every operator of the table is computed exactly as the table defines
/// it; a zero divisor and an unknown operator are the two errors, each
/// returned exactly when its condition holds.
pub fn calc(v1: i64, op: &str, v2: i64) -> (r: Result<Eval, Error>)
    requires
        eval_fits(v1 as int, op@, v2 as int),
    ensures
        (r is Ok <==> spec_eval(v1 as int, op@, v2 as int) is Ok),
        r is Ok ==> Ok::<(int, int), Error>((r->Ok_0.value as int, r->Ok_0.remainder as int))
            == spec_eval(v1 as int, op@, v2 as int),
        r is Err ==> Err::<(int, int), Error>(r->Err_0) == spec_eval(v1 as int, op@, v2 as int),
{
    proof {
        reveal_strlit("+");
        reveal_strlit("-");
        reveal_strlit("*");
        reveal_strlit("/");
        reveal_strlit("^");
        reveal_strlit("sqrt");
        assert("+"@ =~= add_sym());
        assert("-"@ =~= sub_sym());
        assert("*"@ =~= mul_sym());
        assert("/"@ =~= div_sym());
        assert("^"@ =~= pow_sym());
        assert("sqrt"@ =~= sqrt_sym());
    }
    if str_eq(op, "+") {
        Ok(Eval { value: v1 + v2, remainder: 0 })
    } else if str_eq(op, "-") {
        Ok(Eval { value: v1 - v2, remainder: 0 })
    } else if str_eq(op, "*") {
        Ok(Eval { value: v1 * v2, remainder: 0 })
    } else if str_eq(op, "/") {
        if v2 == 0 {
            Err(Error::DivideByZero)
        } else {
            proof {
                lemma_trunc_div_fits(v1 as int, v2 as int);
            }
            let q = v1.checked_div(v2);
            let rem = v1.checked_rem(v2);
            match (q, rem) {
                (Some(qq), Some(rr)) => Ok(Eval { value: qq, remainder: rr }),
                _ => {
                    proof {
                        assert(false);
                    }
                    Err(Error::DivideByZero)
                },
            }
        }
    } else if str_eq(op, "^") {
        match pow_checked(v1, v2) {
            Some(p) => Ok(Eval { value: p, remainder: 0 }),
            None => {
                proof {
                    assert(false);
                }
                Err(Error::InvalidOperation)
            },
        }
    } else if str_eq(op, "sqrt") {
        Ok(Eval { value: isqrt_checked(v1), remainder: 0 })
    } else {
        Err(Error::InvalidOperation)
    }
}

/// Compute what the operator symbol says, deciding first whether the
/// defined value exists in the 64-bit range.
///
/// The answer is present exactly when the machine-width side conditions
/// hold, and then carries what `calc` returns; it is absent exactly when
/// the defined value cannot be represented.
pub fn try_calc(v1: i64, op: &str, v2: i64) -> (r: Option<Result<Eval, Error>>)
    ensures
        (r is Some <==> eval_fits(v1 as int, op@, v2 as int)),
        r is Some ==> {
            let inner = r->0;
            &&& (inner is Ok <==> spec_eval(v1 as int, op@, v2 as int) is Ok)
            &&& (inner is Ok ==> Ok::<(int, int), Error>(
                (inner->Ok_0.value as int, inner->Ok_0.remainder as int),
            ) == spec_eval(v1 as int, op@, v2 as int))
            &&& (inner is Err ==> Err::<(int, int), Error>(inner->Err_0) == spec_eval(
                v1 as int,
                op@,
                v2 as int,
            ))
        },
{
    proof {
        reveal_strlit("+");
        reveal_strlit("-");
        reveal_strlit("*");
        reveal_strlit("/");
        reveal_strlit("^");
        reveal_strlit("sqrt");
        assert("+"@ =~= add_sym());
        assert("-"@ =~= sub_sym());
        assert("*"@ =~= mul_sym());
        assert("/"@ =~= div_sym());
        assert("^"@ =~= pow_sym());
        assert("sqrt"@ =~= sqrt_sym());
    }
    if str_eq(op, "+") {
        match v1.checked_add(v2) {
            Some(_) => Some(calc(v1, op, v2)),
            None => None,
        }
    } else if str_eq(op, "-") {
        match v1.checked_sub(v2) {
            Some(_) => Some(calc(v1, op, v2)),
            None => None,
        }
    } else if str_eq(op, "*") {
        match v1.checked_mul(v2) {
            Some(_) => Some(calc(v1, op, v2)),
            None => None,
        }
    } else if str_eq(op, "/") {
        if v1 == i64::MIN && v2 == -1 {
            None
        } else {
            Some(calc(v1, op, v2))
        }
    } else if str_eq(op, "^") {
        if v2 < 0 {
            None
        } else {
            match pow_checked(v1, v2) {
                Some(_) => Some(calc(v1, op, v2)),
                None => None,
            }
        }
    } else if str_eq(op, "sqrt") {
        if v1 < 0 {
            None
        } else {
            Some(calc(v1, op, v2))
        }
    } else {
        Some(calc(v1, op, v2))
    }
}

} // verus!
