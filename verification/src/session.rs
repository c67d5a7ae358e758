//! One step of the read–evaluate–print loop: classify a line of input and
//! produce what the loop should do with it.
//!
//! A line is split on whitespace.  A lone exit keyword ends the session; a
//! line of three tokens, or of two when the operator is the unary square
//! root, is dispatched through the parser and the evaluator; anything else
//! is malformed.  Every failure is reported and leaves the session running.

use vstd::prelude::*;
use vstd::string::StrSliceExecFns;
use vstd::string::StringExecFns;

use crate::text::{is_space, space_char, str_eq};
use crate::parse::{intparse, spec_intparse, ParseError};
use crate::eval::{eval_fits, spec_eval, sqrt_sym, try_calc, Error};
use crate::render::{render_eval, spec_render_eval};

verus! {

/// The keyword that ends the session.
pub open spec fn exit_word() -> Seq<char> {
    seq!['e', 'x', 'i', 't']
}

/// The first index at or after `i` where a token ends: the next whitespace
/// character, or the end of the line.
pub open spec fn token_end(s: Seq<char>, i: int) -> int
    decreases s.len() - i,
{
    if i < 0 || i >= s.len() || is_space(s[i]) {
        i
    } else {
        token_end(s, i + 1)
    }
}

proof fn lemma_token_end_bounds(s: Seq<char>, i: int)
    requires
        0 <= i <= s.len(),
    ensures
        i <= token_end(s, i) <= s.len(),
    decreases s.len() - i,
{
    if !(i >= s.len() || is_space(s[i])) {
        lemma_token_end_bounds(s, i + 1);
    }
}

/// The whitespace-separated tokens of the line from position `i` on.
pub open spec fn tokens_from(s: Seq<char>, i: int) -> Seq<Seq<char>>
    decreases s.len() - i,
        when 0 <= i <= s.len()
        via tokens_from_dec
{
    if i >= s.len() {
        Seq::empty()
    } else if is_space(s[i]) {
        tokens_from(s, i + 1)
    } else {
        seq![s.subrange(i, token_end(s, i))] + tokens_from(s, token_end(s, i))
    }
}

#[via_fn]
proof fn tokens_from_dec(s: Seq<char>, i: int) {
    if 0 <= i < s.len() && !is_space(s[i]) {
        lemma_token_end_bounds(s, i + 1);
    }
}

/// The whitespace-separated tokens of a line.
pub open spec fn spec_tokens(s: Seq<char>) -> Seq<Seq<char>> {
    tokens_from(s, 0)
}

/// Split a line into its whitespace-separated tokens.
#[verifier::loop_isolation(false)]
pub fn tokenize(line: &str) -> (r: Vec<String>)
    ensures
        r.deep_view() == spec_tokens(line@),
{
    let n: usize = line.unicode_len();
    let mut toks: Vec<String> = Vec::new();
    let mut i: usize = 0;
    assert(toks.deep_view() + tokens_from(line@, 0) =~= spec_tokens(line@));
    while i < n
        invariant
            i <= n,
            toks.deep_view() + tokens_from(line@, i as int) =~= spec_tokens(line@),
        decreases n - i,
    {
        if space_char(line.get_char(i)) {
            i = i + 1;
        } else {
            let ghost old_toks = toks.deep_view();
            let mut j: usize = i;
            while j < n && !space_char(line.get_char(j))
                invariant
                    i <= j <= n,
                    token_end(line@, i as int) == token_end(line@, j as int),
                decreases n - j,
            {
                j = j + 1;
            }
            assert(token_end(line@, i as int) == j as int);
            let t = line.substring_char(i, j).to_owned();
            toks.push(t);
            proof {
                assert(toks.deep_view() =~= old_toks.push(t@));
                assert(toks.deep_view() + tokens_from(line@, j as int) =~= spec_tokens(line@));
            }
            i = j;
        }
    }
    assert(toks.deep_view() =~= spec_tokens(line@));
    toks
}

/// What the loop should do with one line of input.
#[derive(Debug)]
pub enum Response {
    /// The line is the exit keyword alone: say farewell and stop.
    Exit,
    /// The expression was computed: show the rendered value.
    Value(String),
    /// The token count fits no expression shape: report and carry on.
    Malformed,
    /// An operand failed to parse; each failing operand carries its own
    /// failure.
    BadOperands(Option<ParseError>, Option<ParseError>),
    /// The operands parsed but the computation failed.
    CalcFailed(Error),
    /// The defined value of the expression does not exist in the 64-bit
    /// range.
    OutOfRange,
}

/// Classify one line of input and compute what it asks for.
///
/// The contract walks the whole pipeline: tokenize, recognize the exit
/// keyword, check the token count against the operator's arity, parse both
/// operands, evaluate, and render.  In the two-token unary form the square
/// root keyword may stand on either side of its operand, and the missing
/// second operand is read as zero; the zero never shows in the result.
pub fn process_line(line: &str) -> (r: Response)
    ensures
        ({
            let toks = spec_tokens(line@);
            if toks.len() == 1 && toks[0] == exit_word() {
                r is Exit
            } else if !(toks.len() == 3 || (toks.len() == 2 && (toks[1] == sqrt_sym() || toks[0]
                == sqrt_sym()))) {
                r is Malformed
            } else {
                let a = if toks.len() == 2 && toks[1] != sqrt_sym() {
                    toks[1]
                } else {
                    toks[0]
                };
                let op = if toks.len() == 2 && toks[1] != sqrt_sym() {
                    toks[0]
                } else {
                    toks[1]
                };
                let b = if toks.len() == 3 {
                    toks[2]
                } else {
                    seq!['0']
                };
                let pr = spec_intparse(a, b);
                if pr.0 is Err || pr.1 is Err {
                    &&& r is BadOperands
                    &&& (r->BadOperands_0 is Some <==> pr.0 is Err)
                    &&& (pr.0 is Err ==> r->BadOperands_0->0 == pr.0->Err_0)
                    &&& (r->BadOperands_1 is Some <==> pr.1 is Err)
                    &&& (pr.1 is Err ==> r->BadOperands_1->0 == pr.1->Err_0)
                } else {
                    let v1 = pr.0->Ok_0;
                    let v2 = pr.1->Ok_0;
                    if !eval_fits(v1, op, v2) {
                        r is OutOfRange
                    } else {
                        let ev = spec_eval(v1, op, v2);
                        &&& (r is Value <==> ev is Ok)
                        &&& (ev is Ok ==> r->Value_0@ == spec_render_eval(
                            ev->Ok_0.0,
                            ev->Ok_0.1,
                        ))
                        &&& (ev is Err ==> r is CalcFailed && r->CalcFailed_0 == ev->Err_0)
                    }
                }
            }
        }),
{
    proof {
        reveal_strlit("exit");
        reveal_strlit("sqrt");
        reveal_strlit("0");
        assert("exit"@ =~= exit_word());
        assert("sqrt"@ =~= sqrt_sym());
        assert("0"@ =~= seq!['0']);
    }
    let toks = tokenize(line);
    let ghost stoks = spec_tokens(line@);
    if toks.len() == 1 && str_eq(toks[0].as_str(), "exit") {
        return Response::Exit;
    }
    let sqrt_second = toks.len() == 2 && str_eq(toks[1].as_str(), "sqrt");
    let sqrt_first = toks.len() == 2 && str_eq(toks[0].as_str(), "sqrt");
    if !(toks.len() == 3 || sqrt_second || sqrt_first) {
        return Response::Malformed;
    }
    let opi: usize = if toks.len() == 2 && !sqrt_second {
        0
    } else {
        1
    };
    let v1i: usize = if toks.len() == 2 && !sqrt_second {
        1
    } else {
        0
    };
    let v2s: &str = if toks.len() == 3 {
        toks[2].as_str()
    } else {
        "0"
    };
    let pr = intparse(toks[v1i].as_str(), v2s);
    match pr {
        (Ok(a), Ok(b)) => {
            match try_calc(a, toks[opi].as_str(), b) {
                Some(Ok(e)) => Response::Value(render_eval(&e)),
                Some(Err(err)) => Response::CalcFailed(err),
                None => Response::OutOfRange,
            }
        },
        (r1, r2) => {
            let e1 = match r1 {
                Err(e) => Some(e),
                Ok(_) => None,
            };
            let e2 = match r2 {
                Err(e) => Some(e),
                Ok(_) => None,
            };
            Response::BadOperands(e1, e2)
        },
    }
}

} // verus!
