use vstd::arithmetic::div_mod::lemma_fundamental_div_mod;
use vstd::arithmetic::mul::lemma_mul_inequality;
use vstd::prelude::*;
use vstd::string::StringExecFns;

use crate::chars::char_is_digit;
use crate::chars::chars_vec;
use crate::chars::copy_range;
use crate::chars::digit_val;
use crate::chars::is_digit_char;
use crate::chars::string_from_chars;
use crate::token::Token;
use crate::token::TokenV;

verus! {

/// Whether every character of `s` is an ASCII decimal digit.
pub open spec fn all_digits(s: Seq<char>) -> bool {
    forall|i: int| 0 <= i < s.len() ==> is_digit_char(s[i])
}

/// The value of a digit run read as a decimal numeral (0 when `s` is empty).
pub open spec fn digits_val(s: Seq<char>) -> int
    decreases s.len(),
{
    if s.len() == 0 {
        0
    } else {
        digits_val(s.drop_last()) * 10 + digit_val(s.last())
    }
}

/// The end of the digit run that starts at `i`: the first index at or after
/// `i` holding a non-digit, or `s.len()` when digits run to the end.
pub open spec fn scan_digits(s: Seq<char>, i: int) -> int
    decreases s.len() - i,
{
    if i < 0 || i >= s.len() {
        i
    } else if is_digit_char(s[i]) {
        scan_digits(s, i + 1)
    } else {
        i
    }
}

pub proof fn lemma_scan_digits(s: Seq<char>, i: int)
    requires
        0 <= i <= s.len(),
    ensures
        i <= scan_digits(s, i) <= s.len(),
        forall|k: int| i <= k < scan_digits(s, i) ==> is_digit_char(s[k]),
        scan_digits(s, i) < s.len() ==> !is_digit_char(s[scan_digits(s, i)]),
    decreases s.len() - i,
{
    if i < s.len() && is_digit_char(s[i]) {
        lemma_scan_digits(s, i + 1);
    }
}

/// A digit run stops exactly where the first non-digit stands.
pub proof fn lemma_scan_digits_stops(s: Seq<char>, i: int, j: int)
    requires
        0 <= i <= j <= s.len(),
        forall|k: int| i <= k < j ==> is_digit_char(s[k]),
        j == s.len() || !is_digit_char(s[j]),
    ensures
        scan_digits(s, i) == j,
    decreases j - i,
{
    if i < j {
        lemma_scan_digits_stops(s, i + 1, j);
    }
}

pub proof fn lemma_digits_val_nonneg(s: Seq<char>)
    requires
        all_digits(s),
    ensures
        digits_val(s) >= 0,
    decreases s.len(),
{
    if s.len() > 0 {
        assert(all_digits(s.drop_last()));
        lemma_digits_val_nonneg(s.drop_last());
    }
}

/// Reading more digits never shrinks the value: the value of a prefix is a
/// lower bound for the value of the whole run.
pub proof fn lemma_digits_val_prefix(s: Seq<char>, m: int)
    requires
        all_digits(s),
        0 <= m <= s.len(),
    ensures
        digits_val(s.subrange(0, m)) <= digits_val(s),
    decreases s.len(),
{
    if m == s.len() {
        assert(s.subrange(0, m) =~= s);
    } else {
        assert(all_digits(s.drop_last()));
        assert(s.drop_last().subrange(0, m) =~= s.subrange(0, m));
        lemma_digits_val_prefix(s.drop_last(), m);
        lemma_digits_val_nonneg(s.drop_last());
    }
}

/// How the overflow test in `digits_to_i64` relates to the exact value.
proof fn lemma_mul10_bound(acc: int, d: int)
    requires
        0 <= acc,
        0 <= d <= 9,
    ensures
        acc <= (i64::MAX - d) / 10 ==> acc * 10 + d <= i64::MAX,
        acc > (i64::MAX - d) / 10 ==> acc * 10 + d > i64::MAX,
{
    let q = (i64::MAX - d) / 10;
    lemma_fundamental_div_mod(i64::MAX - d, 10);
    if acc <= q {
        lemma_mul_inequality(acc, q, 10);
    } else {
        lemma_mul_inequality(q + 1, acc, 10);
    }
}

/// Reads the digit run `chars[from..to]` as a decimal numeral: the exact
/// value when it fits in an `i64`, and `None` when it exceeds `i64::MAX`.
pub fn digits_to_i64(chars: &Vec<char>, from: usize, to: usize) -> (r: Option<i64>)
    requires
        from <= to <= chars@.len(),
        all_digits(chars@.subrange(from as int, to as int)),
    ensures
        ({
            let v = digits_val(chars@.subrange(from as int, to as int));
            match r {
                Some(n) => v <= i64::MAX && n == v,
                None => v > i64::MAX,
            }
        }),
{
    let ghost s = chars@.subrange(from as int, to as int);
    let mut acc: i64 = 0;
    let mut i: usize = from;
    while i < to
        invariant
            from <= i <= to <= chars@.len(),
            s == chars@.subrange(from as int, to as int),
            all_digits(s),
            0 <= acc,
            acc == digits_val(chars@.subrange(from as int, i as int)),
        decreases to - i,
    {
        proof {
            assert(is_digit_char(chars@[i as int])) by {
                assert(s[i - from] == chars@[i as int]);
            }
        }
        let u = chars[i] as u32;
        let d = (u - 48) as i64;
        let ghost prefix = chars@.subrange(from as int, i as int);
        let ghost extended = chars@.subrange(from as int, i + 1 as int);
        proof {
            assert(extended.drop_last() =~= prefix);
            assert(extended.last() == chars@[i as int]);
            lemma_mul10_bound(acc as int, d as int);
        }
        if acc > (i64::MAX - d) / 10 {
            proof {
                assert(digits_val(extended) > i64::MAX);
                assert(extended =~= s.subrange(0, i + 1 - from));
                lemma_digits_val_prefix(s, i + 1 - from);
            }
            return None;
        }
        acc = acc * 10 + d;
        i = i + 1;
    }
    proof {
        assert(chars@.subrange(from as int, i as int) =~= s);
    }
    Some(acc)
}

/// A lexer step in the composable style: the input left over after this
/// recognizer ran, and the token it produced, if any.
pub struct LexResult {
    pub remaining: String,
    pub token: Option<Token>,
}

/// A self-contained recognizer for one leading integer token: it consumes
/// the digit run at the head of its input and leaves the rest untouched.
pub struct ConsumeNumber {
    pub inputstream: String,
}

/// What one `ConsumeNumber::next` step yields on input `s`: the leftover
/// characters and the recognized token.  A head that starts with no digit
/// produces nothing; a digit run beyond `i64::MAX` is consumed but yields no
/// token.
pub open spec fn consume_number_spec(s: Seq<char>) -> (Seq<char>, Option<TokenV>) {
    let e = scan_digits(s, 0);
    if e == 0 {
        (s, None)
    } else if digits_val(s.subrange(0, e)) <= i64::MAX {
        (s.skip(e), Some(TokenV::Integer(digits_val(s.subrange(0, e)) as i64)))
    } else {
        (s.skip(e), None)
    }
}

impl ConsumeNumber {
    pub fn new(inputstream: &str) -> (r: Self)
        ensures
            r.inputstream@ == inputstream@,
    {
        ConsumeNumber { inputstream: String::from_str(inputstream) }
    }

    /// Runs the recognizer once on the current input, without consuming it
    /// from `self`.
    pub fn next(&mut self) -> (r: LexResult)
        ensures
            *final(self) == *old(self),
            r.remaining@ == consume_number_spec(old(self).inputstream@).0,
            r.token.deep_view() == consume_number_spec(old(self).inputstream@).1,
    {
        let chars = chars_vec(self.inputstream.as_str());
        let ghost s = chars@;
        let e = scan_digits_exec(&chars, 0);
        proof {
            lemma_scan_digits(s, 0);
        }
        if e == 0 {
            let remaining = string_from_chars(&chars);
            proof {
                assert(s.skip(0) =~= s);
            }
            LexResult { remaining, token: None }
        } else {
            let rest = copy_range(&chars, e, chars.len());
            let remaining = string_from_chars(&rest);
            let token = match digits_to_i64(&chars, 0, e) {
                Some(n) => Some(Token::INTEGER(n)),
                None => None,
            };
            proof {
                assert(chars@.subrange(0, e as int) =~= s.subrange(0, e as int));
                assert(rest@ =~= s.skip(e as int));
            }
            LexResult { remaining, token }
        }
    }

    /// Replaces the input that the next step will read.
    pub fn set_input(&mut self, input: &str)
        ensures
            final(self).inputstream@ == input@,
    {
        self.inputstream = String::from_str(input);
    }
}

/// The end of the digit run that starts at `from`, computed by one forward
/// scan.
pub fn scan_digits_exec(input: &Vec<char>, from: usize) -> (r: usize)
    requires
        from <= input@.len(),
    ensures
        r as int == scan_digits(input@, from as int),
{
    let mut j: usize = from;
    while j < input.len() && char_is_digit(input[j])
        invariant
            from <= j <= input@.len(),
            forall|k: int| from <= k < j ==> is_digit_char(input@[k]),
        decreases input@.len() - j,
    {
        j = j + 1;
    }
    proof {
        lemma_scan_digits_stops(input@, from as int, j as int);
    }
    j
}

} // verus!
