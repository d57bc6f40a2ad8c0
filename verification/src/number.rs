//! Which texts read as a floating-point number, by the grammar that the
//! standard library documents for `f64::from_str`:
//! `Sign? ('inf' | 'infinity' | 'nan' | Number)`, the words in any case,
//! `Number ::= (Digit+ | Digit+ '.' Digit* | Digit* '.' Digit+) Exp?`,
//! `Exp ::= ('e' | 'E') Sign? Digit+`. Every such text parses (too large a
//! number reads as infinity), and no other does.
use vstd::prelude::*;
use crate::text::{all_digits, find_first, is_digit_char, find_char, lemma_find_first, sub_chars, chars_of};

verus! {

/// `s` without one leading `+` or `-`.
pub open spec fn unsigned_part(s: Seq<char>) -> Seq<char> {
    if s.len() > 0 && (s[0] == '+' || s[0] == '-') {
        s.drop_first()
    } else {
        s
    }
}

/// The ASCII lowercase of `c`.
pub open spec fn ascii_lower(c: char) -> char {
    if 'A' <= c && c <= 'Z' {
        ((c as u32) + 32) as char
    } else {
        c
    }
}

/// `s` spells `word` (given in lowercase) in any mix of cases.
pub open spec fn spells(s: Seq<char>, word: Seq<char>) -> bool {
    s.len() == word.len() && forall|i: int| 0 <= i < s.len() ==> ascii_lower(#[trigger] s[i]) == word[i]
}

/// `inf`, `infinity` or `nan`, in any case.
pub open spec fn special_float(s: Seq<char>) -> bool {
    spells(s, seq!['i', 'n', 'f']) || spells(s, seq!['i', 'n', 'f', 'i', 'n', 'i', 't', 'y'])
        || spells(s, seq!['n', 'a', 'n'])
}

/// Digits with at most one `.` among them, and at least one digit.
pub open spec fn mantissa(m: Seq<char>) -> bool {
    match find_first(m, '.') {
        None => m.len() > 0 && all_digits(m),
        Some(d) => all_digits(m.take(d)) && all_digits(m.skip(d + 1)) && m.len() > 1,
    }
}

/// An optional sign, then at least one digit.
pub open spec fn exponent(e: Seq<char>) -> bool {
    unsigned_part(e).len() > 0 && all_digits(unsigned_part(e))
}

/// The position of the first `e` or `E`, if any.
pub open spec fn find_exp(s: Seq<char>) -> Option<int>
    decreases s.len(),
{
    if s.len() == 0 {
        None
    } else if s[0] == 'e' || s[0] == 'E' {
        Some(0)
    } else {
        match find_exp(s.drop_first()) {
            Some(i) => Some(i + 1),
            None => None,
        }
    }
}

/// A decimal number with an optional exponent.
pub open spec fn decimal_number(b: Seq<char>) -> bool {
    match find_exp(b) {
        None => mantissa(b),
        Some(k) => mantissa(b.take(k)) && exponent(b.skip(k + 1)),
    }
}

/// `s` reads as an `f64` by `str::parse`.
pub open spec fn parses_as_f64(s: Seq<char>) -> bool {
    special_float(unsigned_part(s)) || decimal_number(unsigned_part(s))
}

proof fn lemma_find_exp_at(s: Seq<char>, i: int)
    requires
        0 <= i <= s.len(),
        forall|j: int| 0 <= j < i ==> s[j] != 'e' && s[j] != 'E',
        i < s.len() ==> (s[i] == 'e' || s[i] == 'E'),
    ensures
        find_exp(s) == if i < s.len() { Some(i) } else { None::<int> },
    decreases s.len(),
{
    if s.len() > 0 && i > 0 {
        assert forall|j: int| 0 <= j < i - 1 implies s.drop_first()[j] != 'e' && s.drop_first()[j] != 'E' by {
            assert(s.drop_first()[j] == s[j + 1]);
        }
        lemma_find_exp_at(s.drop_first(), i - 1);
    }
}

fn digits_only(v: &[char]) -> (b: bool)
    ensures
        b == all_digits(v@),
{
    let mut i: usize = 0;
    while i < v.len()
        invariant
            i <= v@.len(),
            forall|j: int| 0 <= j < i ==> crate::text::is_digit(#[trigger] v@[j]),
        decreases v.len() - i,
    {
        if !is_digit_char(v[i]) {
            return false;
        }
        i += 1;
    }
    true
}

fn unsigned_chars(v: &[char]) -> (r: Vec<char>)
    ensures
        r@ == unsigned_part(v@),
{
    if v.len() > 0 && (v[0] == '+' || v[0] == '-') {
        let r = sub_chars(v, 1, v.len());
        assert(r@ =~= v@.drop_first());
        r
    } else {
        sub_chars(v, 0, v.len())
    }
}

fn lower_char(c: char) -> (r: char)
    ensures
        r == ascii_lower(c),
{
    if 'A' <= c && c <= 'Z' {
        ((c as u32) + 32) as u8 as char
    } else {
        c
    }
}

fn spells_word(s: &[char], word: &[char]) -> (b: bool)
    ensures
        b == spells(s@, word@),
{
    if s.len() != word.len() {
        return false;
    }
    let mut i: usize = 0;
    while i < s.len()
        invariant
            s@.len() == word@.len(),
            i <= s@.len(),
            forall|j: int| 0 <= j < i ==> ascii_lower(#[trigger] s@[j]) == word@[j],
        decreases s.len() - i,
    {
        if lower_char(s[i]) != word[i] {
            return false;
        }
        i += 1;
    }
    true
}

fn is_mantissa(m: &[char]) -> (b: bool)
    ensures
        b == mantissa(m@),
{
    proof {
        lemma_find_first(m@, '.');
    }
    assert(m@.skip(0) =~= m@);
    let n = m.len();
    match find_char(m, 0, '.') {
        None => m.len() > 0 && digits_only(m),
        Some(d) => {
            assert(find_first(m@, '.') is Some);
            assert(d == find_first(m@, '.')->0);
            let before = sub_chars(m, 0, d);
            let after = sub_chars(m, d + 1, m.len());
            assert(before@ =~= m@.take(d as int));
            assert(after@ =~= m@.skip(d + 1));
            digits_only(before.as_slice()) && digits_only(after.as_slice()) && m.len() > 1
        },
    }
}

fn is_exponent(e: &[char]) -> (b: bool)
    ensures
        b == exponent(e@),
{
    let u = unsigned_chars(e);
    u.len() > 0 && digits_only(u.as_slice())
}

/// Whether `s` reads as an `f64` by `str::parse`.
pub fn reads_as_f64(s: &str) -> (b: bool)
    ensures
        b == parses_as_f64(s@),
{
    let v = chars_of(s);
    let u = unsigned_chars(v.as_slice());
    let inf: Vec<char> = vec!['i', 'n', 'f'];
    let infinity: Vec<char> = vec!['i', 'n', 'f', 'i', 'n', 'i', 't', 'y'];
    let nan: Vec<char> = vec!['n', 'a', 'n'];
    assert(inf@ =~= seq!['i', 'n', 'f']);
    assert(infinity@ =~= seq!['i', 'n', 'f', 'i', 'n', 'i', 't', 'y']);
    assert(nan@ =~= seq!['n', 'a', 'n']);
    if spells_word(u.as_slice(), inf.as_slice()) || spells_word(u.as_slice(), infinity.as_slice())
        || spells_word(u.as_slice(), nan.as_slice()) {
        return true;
    }
    let mut k: usize = 0;
    while k < u.len() && u[k] != 'e' && u[k] != 'E'
        invariant
            k <= u@.len(),
            forall|j: int| 0 <= j < k ==> u@[j] != 'e' && u@[j] != 'E',
        decreases u.len() - k,
    {
        k += 1;
    }
    proof {
        lemma_find_exp_at(u@, k as int);
    }
    if k == u.len() {
        is_mantissa(u.as_slice())
    } else {
        let m = sub_chars(u.as_slice(), 0, k);
        let e = sub_chars(u.as_slice(), k + 1, u.len());
        assert(m@ =~= u@.take(k as int));
        assert(e@ =~= u@.skip(k + 1));
        is_mantissa(m.as_slice()) && is_exponent(e.as_slice())
    }
}

} // verus!
