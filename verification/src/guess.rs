//! The number-guessing game: reading a guess and judging it against the
//! secret number.
use vstd::prelude::*;
use crate::text::{chars_of, parse_u64_chars, parse_unsigned, trim, trim_chars};

verus! {

/// How a guess compares with the secret number.
#[derive(PartialEq, Eq, Structural, Clone, Copy, Debug)]
pub enum Verdict {
    TooBig,
    TooSmall,
    Correct,
}

/// The verdict on `guess` against `secret`.
pub fn judge_guess(guess: u32, secret: u32) -> (v: Verdict)
    ensures
        v == Verdict::Correct <==> guess == secret,
        v == Verdict::TooBig <==> guess > secret,
        v == Verdict::TooSmall <==> guess < secret,
{
    if guess == secret {
        Verdict::Correct
    } else if guess > secret {
        Verdict::TooBig
    } else {
        Verdict::TooSmall
    }
}

/// The guess on an input line: the trimmed line read as a `u32`, or none
/// where it is not one (the game then asks again).
pub fn parse_guess(line: &str) -> (g: Option<u32>)
    ensures
        match parse_unsigned(trim(line@), u32::MAX as nat) {
            Some(n) => g == Some(n as u32),
            None => g is None,
        },
{
    let v = chars_of(line);
    let t = trim_chars(v.as_slice());
    match parse_u64_chars(t.as_slice()) {
        Some(n) => {
            if n <= u32::MAX as u64 {
                Some(n as u32)
            } else {
                None
            }
        },
        None => {
            proof {
                if parse_unsigned(t@, u32::MAX as nat) is Some {
                    assert(parse_unsigned(t@, u64::MAX as nat) is Some);
                }
            }
            None
        },
    }
}

} // verus!
