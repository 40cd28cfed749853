use vstd::prelude::*;

use crate::chars::char_is_alphabetic;
use crate::chars::char_is_digit;
use crate::chars::char_is_whitespace;
use crate::chars::chars_vec;
use crate::chars::copy_range;
use crate::chars::is_alphabetic_char;
use crate::chars::is_digit_char;
use crate::chars::is_whitespace_char;
use crate::chars::string_from_chars;
use crate::errors::LexError;
use crate::errors::LexErrorKind;
use crate::errors::LexErrorKindV;
use crate::errors::LexErrorV;
use crate::number::all_digits;
use crate::number::digits_to_i64;
use crate::number::digits_val;
use crate::number::lemma_digits_val_nonneg;
use crate::number::lemma_scan_digits;
use crate::number::scan_digits;
use crate::number::scan_digits_exec;
use crate::token::Token;
use crate::token::TokenV;

verus! {

/// The position of the closing quote for a string opened before `i`: the
/// first index at or after `i` holding `"`, or `s.len()` when none does.
pub open spec fn scan_string(s: Seq<char>, i: int) -> int
    decreases s.len() - i,
{
    if i < 0 || i >= s.len() {
        s.len() as int
    } else if s[i] == '"' {
        i
    } else {
        scan_string(s, i + 1)
    }
}

pub proof fn lemma_scan_string(s: Seq<char>, i: int)
    requires
        0 <= i <= s.len(),
    ensures
        i <= scan_string(s, i) <= s.len(),
        forall|k: int| i <= k < scan_string(s, i) ==> s[k] != '"',
        scan_string(s, i) < s.len() ==> s[scan_string(s, i)] == '"',
    decreases s.len() - i,
{
    if i < s.len() && s[i] != '"' {
        lemma_scan_string(s, i + 1);
    }
}

/// The scan for a closing quote stops exactly at the first quote.
pub proof fn lemma_scan_string_stops(s: Seq<char>, i: int, j: int)
    requires
        0 <= i <= j <= s.len(),
        forall|k: int| i <= k < j ==> s[k] != '"',
        j == s.len() || s[j] == '"',
    ensures
        scan_string(s, i) == j,
    decreases j - i,
{
    if i < j {
        lemma_scan_string_stops(s, i + 1, j);
    }
}

/// The end of the alphabetic run that starts at `i`.
pub open spec fn scan_alpha(s: Seq<char>, i: int) -> int
    decreases s.len() - i,
{
    if i < 0 || i >= s.len() {
        i
    } else if is_alphabetic_char(s[i]) {
        scan_alpha(s, i + 1)
    } else {
        i
    }
}

pub proof fn lemma_scan_alpha(s: Seq<char>, i: int)
    requires
        0 <= i <= s.len(),
    ensures
        i <= scan_alpha(s, i) <= s.len(),
        forall|k: int| i <= k < scan_alpha(s, i) ==> is_alphabetic_char(s[k]),
        scan_alpha(s, i) < s.len() ==> !is_alphabetic_char(s[scan_alpha(s, i)]),
    decreases s.len() - i,
{
    if i < s.len() && is_alphabetic_char(s[i]) {
        lemma_scan_alpha(s, i + 1);
    }
}

/// An alphabetic run stops exactly where the first non-alphabetic stands.
pub proof fn lemma_scan_alpha_stops(s: Seq<char>, i: int, j: int)
    requires
        0 <= i <= j <= s.len(),
        forall|k: int| i <= k < j ==> is_alphabetic_char(s[k]),
        j == s.len() || !is_alphabetic_char(s[j]),
    ensures
        scan_alpha(s, i) == j,
    decreases j - i,
{
    if i < j {
        lemma_scan_alpha_stops(s, i + 1, j);
    }
}

/// The line counter after consuming `c` on line `line`; it saturates rather
/// than wrap.
pub open spec fn bump_line(line: int, c: char) -> int {
    if c == '\n' && line < usize::MAX {
        line + 1
    } else {
        line
    }
}

/// Prepends a token to the outcome of scanning the rest of the input.
pub open spec fn with_token(t: TokenV, rest: Result<Seq<TokenV>, LexErrorV>) -> Result<
    Seq<TokenV>,
    LexErrorV,
> {
    match rest {
        Ok(ts) => Ok(seq![t] + ts),
        Err(e) => Err(e),
    }
}

/// The tokens encoded by `s` from position `i` on, at line `line` — or the
/// first lexical fault.  This is the tokenizer: one forward scan that skips
/// whitespace, recognizes the six structural characters, quote-delimited
/// strings without escape processing, unsigned digit runs (with a following
/// `.` run classified as a float literal, kept as its text), and the three
/// keywords `true`, `false`, `null`.
pub open spec fn spec_tokenize_at(s: Seq<char>, i: int, line: int) -> Result<
    Seq<TokenV>,
    LexErrorV,
>
    decreases s.len() - i,
    via spec_tokenize_at_dec
{
    if i < 0 || i >= s.len() {
        Ok(Seq::empty())
    } else {
        let c = s[i];
        if is_whitespace_char(c) {
            spec_tokenize_at(s, i + 1, bump_line(line, c))
        } else if c == '{' {
            with_token(TokenV::LBrace, spec_tokenize_at(s, i + 1, line))
        } else if c == '}' {
            with_token(TokenV::RBrace, spec_tokenize_at(s, i + 1, line))
        } else if c == '[' {
            with_token(TokenV::LBrack, spec_tokenize_at(s, i + 1, line))
        } else if c == ']' {
            with_token(TokenV::RBrack, spec_tokenize_at(s, i + 1, line))
        } else if c == ':' {
            with_token(TokenV::Colon, spec_tokenize_at(s, i + 1, line))
        } else if c == ',' {
            with_token(TokenV::Comma, spec_tokenize_at(s, i + 1, line))
        } else if c == '"' {
            let q = scan_string(s, i + 1);
            if q >= s.len() {
                Err(LexErrorV { kind: LexErrorKindV::UnterminatedString, line, pos: i })
            } else {
                with_token(TokenV::Str(s.subrange(i + 1, q)), spec_tokenize_at(s, q + 1, line))
            }
        } else if is_digit_char(c) {
            let e = scan_digits(s, i);
            if e < s.len() && s[e] == '.' {
                let f = scan_digits(s, e + 1);
                with_token(TokenV::Float(s.subrange(i, f)), spec_tokenize_at(s, f, line))
            } else {
                let v = digits_val(s.subrange(i, e));
                if v <= i64::MAX {
                    with_token(TokenV::Integer(v as i64), spec_tokenize_at(s, e, line))
                } else {
                    Err(LexErrorV { kind: LexErrorKindV::InvalidNumber, line, pos: i })
                }
            }
        } else if is_alphabetic_char(c) {
            let e = scan_alpha(s, i);
            let w = s.subrange(i, e);
            if w == seq!['t', 'r', 'u', 'e'] {
                with_token(TokenV::Boolean(true), spec_tokenize_at(s, e, line))
            } else if w == seq!['f', 'a', 'l', 's', 'e'] {
                with_token(TokenV::Boolean(false), spec_tokenize_at(s, e, line))
            } else if w == seq!['n', 'u', 'l', 'l'] {
                with_token(TokenV::Null, spec_tokenize_at(s, e, line))
            } else {
                Err(LexErrorV { kind: LexErrorKindV::InvalidLiteral(w), line, pos: i })
            }
        } else {
            Err(LexErrorV { kind: LexErrorKindV::UnrecognizedCharacter(c), line, pos: i })
        }
    }
}

#[via_fn]
proof fn spec_tokenize_at_dec(s: Seq<char>, i: int, line: int) {
    if 0 <= i < s.len() {
        let c = s[i];
        if c == '"' {
            lemma_scan_string(s, i + 1);
        }
        if is_digit_char(c) {
            lemma_scan_digits(s, i);
            let e = scan_digits(s, i);
            if e < s.len() && s[e] == '.' {
                lemma_scan_digits(s, e + 1);
            }
        }
        if is_alphabetic_char(c) {
            lemma_scan_alpha(s, i);
        }
    }
}

/// The tokens encoded by the whole of `s`, or the first lexical fault.
pub open spec fn spec_tokenize(s: Seq<char>) -> Result<Seq<TokenV>, LexErrorV> {
    spec_tokenize_at(s, 0, 1)
}

/// How an executable tokenizer outcome realizes the specified one: the same
/// success/failure verdict, the same token views, the same error.
pub open spec fn lex_result_matches(
    r: Result<Vec<Token>, LexError>,
    sp: Result<Seq<TokenV>, LexErrorV>,
) -> bool {
    match (r, sp) {
        (Ok(v), Ok(ts)) => v.deep_view() == ts,
        (Err(e), Err(se)) => e@ == se,
        _ => false,
    }
}

/// Loop invariant of `Lexer::parse`: what the scan has emitted so far
/// (`toks`), together with whatever scanning resumes to at `pos`/`line`,
/// equals the outcome of scanning the whole input.
pub open spec fn continues(s: Seq<char>, toks: Seq<TokenV>, pos: int, line: int) -> bool {
    match spec_tokenize_at(s, pos, line) {
        Ok(rest) => spec_tokenize(s) == Ok::<Seq<TokenV>, LexErrorV>(toks + rest),
        Err(e) => spec_tokenize(s) == Err::<Seq<TokenV>, LexErrorV>(e),
    }
}

/// Appending one Vec element appends its view to the deep view.
pub proof fn lemma_deep_view_push<T: DeepView>(v1: Vec<T>, v2: Vec<T>, t: T)
    requires
        v2@ == v1@.push(t),
    ensures
        v2.deep_view() == v1.deep_view().push(t.deep_view()),
{
    assert(v2.deep_view() =~= v1.deep_view().push(t.deep_view()));
}

/// Emitting the token that scanning produces at `pos` keeps `continues`.
proof fn lemma_step_token(
    s: Seq<char>,
    toks: Seq<TokenV>,
    toks2: Seq<TokenV>,
    pos: int,
    line: int,
    t: TokenV,
    next: int,
    nline: int,
)
    requires
        continues(s, toks, pos, line),
        spec_tokenize_at(s, pos, line) == with_token(t, spec_tokenize_at(s, next, nline)),
        toks2 == toks.push(t),
    ensures
        continues(s, toks2, next, nline),
{
    match spec_tokenize_at(s, next, nline) {
        Ok(rest) => {
            assert(toks + (seq![t] + rest) =~= toks.push(t) + rest);
        },
        Err(e) => {},
    }
}

/// The index of the first `"` at or after `from`, or the input's length.
pub fn scan_string_exec(input: &Vec<char>, from: usize) -> (r: usize)
    requires
        from <= input@.len(),
    ensures
        r as int == scan_string(input@, from as int),
{
    let mut j: usize = from;
    while j < input.len() && input[j] != '"'
        invariant
            from <= j <= input@.len(),
            forall|k: int| from <= k < j ==> input@[k] != '"',
        decreases input@.len() - j,
    {
        j = j + 1;
    }
    proof {
        lemma_scan_string_stops(input@, from as int, j as int);
    }
    j
}

/// The end of the alphabetic run that starts at `from`.
pub fn scan_alpha_exec(input: &Vec<char>, from: usize) -> (r: usize)
    requires
        from <= input@.len(),
    ensures
        r as int == scan_alpha(input@, from as int),
{
    let mut j: usize = from;
    while j < input.len() && char_is_alphabetic(input[j])
        invariant
            from <= j <= input@.len(),
            forall|k: int| from <= k < j ==> is_alphabetic_char(input@[k]),
        decreases input@.len() - j,
    {
        j = j + 1;
    }
    proof {
        lemma_scan_alpha_stops(input@, from as int, j as int);
    }
    j
}

/// The tokenizer: holds the input as its character sequence and scans it in
/// one forward pass.
pub struct Lexer {
    pub input: Vec<char>,
}

impl Lexer {
    pub fn new(input: &str) -> (r: Self)
        ensures
            r.input@ == input@,
    {
        Lexer { input: chars_vec(input) }
    }

    /// Scans the whole input into its token sequence, or reports the first
    /// lexical fault.  The result is exactly `spec_tokenize` of the input,
    /// so two scans of equal inputs yield equal outcomes.
    pub fn parse(&mut self) -> (r: Result<Vec<Token>, LexError>)
        ensures
            final(self).input@ == old(self).input@,
            lex_result_matches(r, spec_tokenize(old(self).input@)),
    {
        let ghost s = self.input@;
        let mut tokens: Vec<Token> = Vec::new();
        let mut pos: usize = 0;
        let mut line: usize = 1;
        proof {
            if spec_tokenize_at(s, 0, 1) is Ok {
                assert(tokens.deep_view() + spec_tokenize_at(s, 0, 1)->Ok_0 =~= spec_tokenize_at(
                    s,
                    0,
                    1,
                )->Ok_0);
            }
        }
        while pos < self.input.len()
            invariant
                self.input@ == s,
                pos <= s.len(),
                1 <= line,
                continues(s, tokens.deep_view(), pos as int, line as int),
            decreases s.len() - pos,
        {
            let c = self.input[pos];
            let ghost toks = tokens.deep_view();
            if char_is_whitespace(c) {
                proof {
                    assert(spec_tokenize_at(s, pos as int, line as int) == spec_tokenize_at(
                        s,
                        pos + 1,
                        bump_line(line as int, c),
                    ));
                }
                if c == '\n' && line < usize::MAX {
                    line = line + 1;
                }
                pos = pos + 1;
            } else if c == '{' || c == '}' || c == '[' || c == ']' || c == ':' || c == ',' {
                let tok = if c == '{' {
                    Token::LBRACE
                } else if c == '}' {
                    Token::RBRACE
                } else if c == '[' {
                    Token::LBRAC
                } else if c == ']' {
                    Token::RBRAC
                } else if c == ':' {
                    Token::COLON
                } else {
                    Token::COMMA
                };
                let ghost gt = tok@;
                let ghost prev = tokens;
                tokens.push(tok);
                proof {
                    lemma_deep_view_push(prev, tokens, tokens@.last());
                    lemma_step_token(
                        s,
                        toks,
                        tokens.deep_view(),
                        pos as int,
                        line as int,
                        gt,
                        pos + 1,
                        line as int,
                    );
                }
                pos = pos + 1;
            } else if c == '"' {
                let q = scan_string_exec(&self.input, pos + 1);
                proof {
                    lemma_scan_string(s, pos + 1);
                }
                if q == self.input.len() {
                    return Err(LexError { kind: LexErrorKind::UnterminatedString, line, pos });
                }
                let cvec = copy_range(&self.input, pos + 1, q);
                let st = string_from_chars(&cvec);
                let tok = Token::STRING(st);
                let ghost gt = tok@;
                let ghost prev = tokens;
                tokens.push(tok);
                proof {
                    lemma_deep_view_push(prev, tokens, tokens@.last());
                    lemma_step_token(
                        s,
                        toks,
                        tokens.deep_view(),
                        pos as int,
                        line as int,
                        gt,
                        q + 1,
                        line as int,
                    );
                }
                pos = q + 1;
            } else if char_is_digit(c) {
                let e = scan_digits_exec(&self.input, pos);
                proof {
                    lemma_scan_digits(s, pos as int);
                }
                if e < self.input.len() && self.input[e] == '.' {
                    let f = scan_digits_exec(&self.input, e + 1);
                    proof {
                        lemma_scan_digits(s, e + 1);
                    }
                    let lit = copy_range(&self.input, pos, f);
                    let st = string_from_chars(&lit);
                    let tok = Token::FLOAT(st);
                    let ghost gt = tok@;
                    let ghost prev = tokens;
                    tokens.push(tok);
                    proof {
                        lemma_deep_view_push(prev, tokens, tokens@.last());
                        lemma_step_token(
                            s,
                            toks,
                            tokens.deep_view(),
                            pos as int,
                            line as int,
                            gt,
                            f as int,
                            line as int,
                        );
                    }
                    pos = f;
                } else {
                    proof {
                        assert forall|k: int|
                            0 <= k < s.subrange(pos as int, e as int).len() implies is_digit_char(
                            s.subrange(pos as int, e as int)[k],
                        ) by {
                            assert(s.subrange(pos as int, e as int)[k] == s[pos + k]);
                        }
                        lemma_digits_val_nonneg(s.subrange(pos as int, e as int));
                    }
                    match digits_to_i64(&self.input, pos, e) {
                        Some(n) => {
                            let tok = Token::INTEGER(n);
                            let ghost gt = tok@;
                            let ghost prev = tokens;
                            tokens.push(tok);
                            proof {
                                lemma_deep_view_push(prev, tokens, tokens@.last());
                                lemma_step_token(
                                    s,
                                    toks,
                                    tokens.deep_view(),
                                    pos as int,
                                    line as int,
                                    gt,
                                    e as int,
                                    line as int,
                                );
                            }
                            pos = e;
                        },
                        None => {
                            return Err(
                                LexError { kind: LexErrorKind::InvalidNumber, line, pos },
                            );
                        },
                    }
                }
            } else if char_is_alphabetic(c) {
                let e = scan_alpha_exec(&self.input, pos);
                proof {
                    lemma_scan_alpha(s, pos as int);
                }
                let w = copy_range(&self.input, pos, e);
                let ghost wv = s.subrange(pos as int, e as int);
                let is_true = w.len() == 4 && w[0] == 't' && w[1] == 'r' && w[2] == 'u' && w[3]
                    == 'e';
                let is_false = w.len() == 5 && w[0] == 'f' && w[1] == 'a' && w[2] == 'l' && w[3]
                    == 's' && w[4] == 'e';
                let is_null = w.len() == 4 && w[0] == 'n' && w[1] == 'u' && w[2] == 'l' && w[3]
                    == 'l';
                proof {
                    assert(is_true == (wv == seq!['t', 'r', 'u', 'e'])) by {
                        if is_true {
                            assert(wv =~= seq!['t', 'r', 'u', 'e']);
                        }
                        if wv == seq!['t', 'r', 'u', 'e'] {
                            assert(wv[0] == 't' && wv[1] == 'r' && wv[2] == 'u' && wv[3] == 'e');
                        }
                    }
                    assert(is_false == (wv == seq!['f', 'a', 'l', 's', 'e'])) by {
                        if is_false {
                            assert(wv =~= seq!['f', 'a', 'l', 's', 'e']);
                        }
                        if wv == seq!['f', 'a', 'l', 's', 'e'] {
                            assert(wv[0] == 'f' && wv[1] == 'a' && wv[2] == 'l' && wv[3] == 's'
                                && wv[4] == 'e');
                        }
                    }
                    assert(is_null == (wv == seq!['n', 'u', 'l', 'l'])) by {
                        if is_null {
                            assert(wv =~= seq!['n', 'u', 'l', 'l']);
                        }
                        if wv == seq!['n', 'u', 'l', 'l'] {
                            assert(wv[0] == 'n' && wv[1] == 'u' && wv[2] == 'l' && wv[3] == 'l');
                        }
                    }
                }
                if is_true || is_false || is_null {
                    let tok = if is_true {
                        Token::BOOLEAN(true)
                    } else if is_false {
                        Token::BOOLEAN(false)
                    } else {
                        Token::NONE
                    };
                    let ghost gt = tok@;
                    let ghost prev = tokens;
                    tokens.push(tok);
                    proof {
                        lemma_deep_view_push(prev, tokens, tokens@.last());
                        lemma_step_token(
                            s,
                            toks,
                            tokens.deep_view(),
                            pos as int,
                            line as int,
                            gt,
                            e as int,
                            line as int,
                        );
                    }
                    pos = e;
                } else {
                    let st = string_from_chars(&w);
                    return Err(
                        LexError { kind: LexErrorKind::InvalidLiteral(st), line, pos },
                    );
                }
            } else {
                return Err(
                    LexError { kind: LexErrorKind::UnrecognizedCharacter(c), line, pos },
                );
            }
        }
        proof {
            assert(spec_tokenize_at(s, pos as int, line as int) == Ok::<
                Seq<TokenV>,
                LexErrorV,
            >(Seq::empty()));
            assert(tokens.deep_view() + Seq::<TokenV>::empty() =~= tokens.deep_view());
        }
        Ok(tokens)
    }
}

/// Scans `input` into its token sequence, or reports the first lexical
/// fault.  The outcome is exactly `spec_tokenize` of the input's characters:
/// a function of the text alone, so repeated scans of the same text agree.
pub fn tokenize(input: &str) -> (r: Result<Vec<Token>, LexError>)
    ensures
        lex_result_matches(r, spec_tokenize(input@)),
{
    let mut lexer = Lexer::new(input);
    lexer.parse()
}

/// Scanning is deterministic: any two outcomes that meet `tokenize`'s
/// contract on the same character sequence agree — the same verdict, token
/// for token and error for error.
pub proof fn lemma_tokenize_deterministic(
    r1: Result<Vec<Token>, LexError>,
    r2: Result<Vec<Token>, LexError>,
    s: Seq<char>,
)
    requires
        lex_result_matches(r1, spec_tokenize(s)),
        lex_result_matches(r2, spec_tokenize(s)),
    ensures
        r1 is Ok <==> r2 is Ok,
        r1 matches Ok(v1) ==> r2 matches Ok(v2) && v1.deep_view() == v2.deep_view(),
        r1 matches Err(e1) ==> r2 matches Err(e2) && e1@ == e2@,
{
}

} // verus!
