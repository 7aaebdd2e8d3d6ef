//! Validation of JSON number tokens. The `hours` field of an entry is
//! carried as its literal number token, so the codec can write it into
//! the file verbatim and read it back unchanged; this module decides
//! whether a string is such a token.
use vstd::prelude::*;
use crate::strutil::string_to_chars;

verus! {

/// The states of the number-token automaton, following the JSON
/// grammar `-? (0 | [1-9][0-9]*) (. [0-9]+)? ([eE] [+-]? [0-9]+)?`.
pub enum NumState {
    /// Nothing read yet.
    Start,
    /// A leading minus sign was read.
    Minus,
    /// The integer part is exactly "0".
    IntZero,
    /// Inside a nonzero integer part.
    IntDigits,
    /// A decimal point was read, no fraction digit yet.
    Dot,
    /// Inside the fraction digits.
    Frac,
    /// An exponent marker was read, no sign or digit yet.
    ExpMark,
    /// An exponent sign was read, no digit yet.
    ExpSign,
    /// Inside the exponent digits.
    ExpDigits,
    /// The input can no longer be a number token.
    Fail,
}

pub open spec fn is_digit(c: char) -> bool {
    ('0' as u32) <= (c as u32) <= ('9' as u32)
}

/// Characters that may occur in a number token.
pub open spec fn is_number_char(c: char) -> bool {
    is_digit(c) || c == '-' || c == '+' || c == '.' || c == 'e' || c == 'E'
}

/// One automaton step.
pub open spec fn num_step(st: NumState, c: char) -> NumState {
    if !is_number_char(c) {
        NumState::Fail
    } else {
        match st {
            NumState::Start => {
                if c == '-' {
                    NumState::Minus
                } else if c == '0' {
                    NumState::IntZero
                } else if is_digit(c) {
                    NumState::IntDigits
                } else {
                    NumState::Fail
                }
            },
            NumState::Minus => {
                if c == '0' {
                    NumState::IntZero
                } else if is_digit(c) {
                    NumState::IntDigits
                } else {
                    NumState::Fail
                }
            },
            NumState::IntZero => {
                if c == '.' {
                    NumState::Dot
                } else if c == 'e' || c == 'E' {
                    NumState::ExpMark
                } else {
                    NumState::Fail
                }
            },
            NumState::IntDigits => {
                if is_digit(c) {
                    NumState::IntDigits
                } else if c == '.' {
                    NumState::Dot
                } else if c == 'e' || c == 'E' {
                    NumState::ExpMark
                } else {
                    NumState::Fail
                }
            },
            NumState::Dot => {
                if is_digit(c) {
                    NumState::Frac
                } else {
                    NumState::Fail
                }
            },
            NumState::Frac => {
                if is_digit(c) {
                    NumState::Frac
                } else if c == 'e' || c == 'E' {
                    NumState::ExpMark
                } else {
                    NumState::Fail
                }
            },
            NumState::ExpMark => {
                if c == '+' || c == '-' {
                    NumState::ExpSign
                } else if is_digit(c) {
                    NumState::ExpDigits
                } else {
                    NumState::Fail
                }
            },
            NumState::ExpSign => {
                if is_digit(c) {
                    NumState::ExpDigits
                } else {
                    NumState::Fail
                }
            },
            NumState::ExpDigits => {
                if is_digit(c) {
                    NumState::ExpDigits
                } else {
                    NumState::Fail
                }
            },
            NumState::Fail => NumState::Fail,
        }
    }
}

/// Runs the automaton over `t` from state `st`.
pub open spec fn num_run(st: NumState, t: Seq<char>) -> NumState
    decreases t.len(),
{
    if t.len() == 0 {
        st
    } else {
        num_run(num_step(st, t[0]), t.skip(1))
    }
}

pub open spec fn num_accepts(st: NumState) -> bool {
    st is IntZero || st is IntDigits || st is Frac || st is ExpDigits
}

/// Whether `t` is a complete JSON number token.
pub open spec fn is_number_token(t: Seq<char>) -> bool {
    num_accepts(num_run(NumState::Start, t))
}

/// Running over `t` and then one more character is one more step.
pub proof fn lemma_num_run_snoc(st: NumState, t: Seq<char>, c: char)
    ensures
        num_run(st, t.push(c)) == num_step(num_run(st, t), c),
    decreases t.len(),
{
    assert(num_run(st, t.push(c)) == num_run(num_step(st, t.push(c)[0]), t.push(c).skip(1)));
    if t.len() == 0 {
        assert(t.push(c)[0] == c);
        assert(t.push(c).skip(1) =~= Seq::<char>::empty());
        assert(num_run(num_step(st, c), Seq::<char>::empty()) == num_step(st, c));
    } else {
        assert(t.push(c)[0] == t[0]);
        assert(t.push(c).skip(1) =~= t.skip(1).push(c));
        lemma_num_run_snoc(num_step(st, t[0]), t.skip(1), c);
        assert(num_run(st, t) == num_run(num_step(st, t[0]), t.skip(1)));
    }
}

/// A run that does not fail read number characters only.
pub proof fn lemma_num_run_chars(st: NumState, t: Seq<char>)
    requires
        !(num_run(st, t) is Fail),
    ensures
        forall|i: int| 0 <= i < t.len() ==> is_number_char(#[trigger] t[i]),
    decreases t.len(),
{
    if t.len() > 0 {
        lemma_num_run_chars(num_step(st, t[0]), t.skip(1));
        assert(!(num_step(st, t[0]) is Fail)) by {
            if num_step(st, t[0]) is Fail {
                lemma_num_run_fail(t.skip(1));
            }
        }
        assert forall|i: int| 0 <= i < t.len() implies is_number_char(#[trigger] t[i]) by {
            if i > 0 {
                assert(t[i] == t.skip(1)[i - 1]);
            }
        }
    }
}

/// From the failed state every run stays failed.
pub proof fn lemma_num_run_fail(t: Seq<char>)
    ensures
        num_run(NumState::Fail, t) is Fail,
    decreases t.len(),
{
    if t.len() > 0 {
        lemma_num_run_fail(t.skip(1));
    }
}

/// Decides whether `t` is a JSON number token.
pub fn check_number_chars(t: &Vec<char>) -> (b: bool)
    ensures
        b == is_number_token(t@),
{
    let mut st = NumState::Start;
    let mut i: usize = 0;
    proof {
        assert(t@.take(0) =~= Seq::<char>::empty());
    }
    while i < t.len()
        invariant
            0 <= i <= t@.len(),
            st == num_run(NumState::Start, t@.take(i as int)),
        decreases t@.len() - i,
    {
        proof {
            assert(t@.take(i + 1) =~= t@.take(i as int).push(t@[i as int]));
            lemma_num_run_snoc(NumState::Start, t@.take(i as int), t@[i as int]);
        }
        st = num_step_exec(st, t[i]);
        i = i + 1;
    }
    proof {
        assert(t@.take(t@.len() as int) =~= t@);
    }
    num_accepts_exec(&st)
}

/// Decides whether `s` is a JSON number token; the form in which the
/// `hours` field must be handed to the store.
pub fn check_number_token(s: &str) -> (b: bool)
    ensures
        b == is_number_token(s@),
{
    let v = string_to_chars(s);
    check_number_chars(&v)
}

fn num_accepts_exec(st: &NumState) -> (b: bool)
    ensures
        b == num_accepts(*st),
{
    match st {
        NumState::IntZero => true,
        NumState::IntDigits => true,
        NumState::Frac => true,
        NumState::ExpDigits => true,
        _ => false,
    }
}

fn is_digit_exec(c: char) -> (b: bool)
    ensures
        b == is_digit(c),
{
    let u = c as u32;
    ('0' as u32) <= u && u <= ('9' as u32)
}

pub fn is_number_char_exec(c: char) -> (b: bool)
    ensures
        b == is_number_char(c),
{
    is_digit_exec(c) || c == '-' || c == '+' || c == '.' || c == 'e' || c == 'E'
}

fn num_step_exec(st: NumState, c: char) -> (r: NumState)
    ensures
        r == num_step(st, c),
{
    if !is_number_char_exec(c) {
        NumState::Fail
    } else {
        match st {
            NumState::Start => {
                if c == '-' {
                    NumState::Minus
                } else if c == '0' {
                    NumState::IntZero
                } else if is_digit_exec(c) {
                    NumState::IntDigits
                } else {
                    NumState::Fail
                }
            },
            NumState::Minus => {
                if c == '0' {
                    NumState::IntZero
                } else if is_digit_exec(c) {
                    NumState::IntDigits
                } else {
                    NumState::Fail
                }
            },
            NumState::IntZero => {
                if c == '.' {
                    NumState::Dot
                } else if c == 'e' || c == 'E' {
                    NumState::ExpMark
                } else {
                    NumState::Fail
                }
            },
            NumState::IntDigits => {
                if is_digit_exec(c) {
                    NumState::IntDigits
                } else if c == '.' {
                    NumState::Dot
                } else if c == 'e' || c == 'E' {
                    NumState::ExpMark
                } else {
                    NumState::Fail
                }
            },
            NumState::Dot => {
                if is_digit_exec(c) {
                    NumState::Frac
                } else {
                    NumState::Fail
                }
            },
            NumState::Frac => {
                if is_digit_exec(c) {
                    NumState::Frac
                } else if c == 'e' || c == 'E' {
                    NumState::ExpMark
                } else {
                    NumState::Fail
                }
            },
            NumState::ExpMark => {
                if c == '+' || c == '-' {
                    NumState::ExpSign
                } else if is_digit_exec(c) {
                    NumState::ExpDigits
                } else {
                    NumState::Fail
                }
            },
            NumState::ExpSign => {
                if is_digit_exec(c) {
                    NumState::ExpDigits
                } else {
                    NumState::Fail
                }
            },
            NumState::ExpDigits => {
                if is_digit_exec(c) {
                    NumState::ExpDigits
                } else {
                    NumState::Fail
                }
            },
            NumState::Fail => NumState::Fail,
        }
    }
}

/// Every character of a number token is a number character.
pub proof fn lemma_token_chars(t: Seq<char>)
    requires
        is_number_token(t),
    ensures
        forall|i: int| 0 <= i < t.len() ==> is_number_char(#[trigger] t[i]),
{
    lemma_num_run_chars(NumState::Start, t);
}

} // verus!
