use vstd::prelude::*;

use crate::errors::ParseError;
use crate::errors::ParseErrorV;
use crate::lexer::lemma_deep_view_push;
use crate::token::Token;
use crate::token::TokenV;

verus! {

/// One parsed JSON value: the recursive output type.  An object is an
/// ordered list of pairs, not a key-unique mapping: duplicate keys are kept
/// in parse order, deliberately.  A `Float` carries the literal's text, as
/// its token does.
#[derive(Debug, PartialEq)]
pub enum JsonType {
    String(String),
    Boolean(bool),
    Float(String),
    Integer(i64),
    Array(Vec<JsonType>),
    Object(Vec<(String, JsonType)>),
    Null,
}

/// The mathematical image of a `JsonType` tree.
pub enum JsonV {
    Str(Seq<char>),
    Boolean(bool),
    Float(Seq<char>),
    Integer(i64),
    Array(Seq<JsonV>),
    Object(Seq<(Seq<char>, JsonV)>),
    Null,
}

/// The mathematical image of a `JsonType` value.
pub open spec fn json_view(v: JsonType) -> JsonV
    decreases v,
{
    match v {
        JsonType::String(s) => JsonV::Str(s@),
        JsonType::Boolean(b) => JsonV::Boolean(b),
        JsonType::Float(t) => JsonV::Float(t@),
        JsonType::Integer(n) => JsonV::Integer(n),
        JsonType::Array(items) => JsonV::Array(json_arr_view(items@)),
        JsonType::Object(pairs) => JsonV::Object(json_obj_view(pairs@)),
        JsonType::Null => JsonV::Null,
    }
}

/// The images of an array's elements, in order.
pub open spec fn json_arr_view(s: Seq<JsonType>) -> Seq<JsonV>
    decreases s,
{
    if s.len() == 0 {
        Seq::empty()
    } else {
        json_arr_view(s.drop_last()).push(json_view(s.last()))
    }
}

/// The images of an object's members, in order.
pub open spec fn json_obj_view(s: Seq<(String, JsonType)>) -> Seq<(Seq<char>, JsonV)>
    decreases s,
{
    if s.len() == 0 {
        Seq::empty()
    } else {
        json_obj_view(s.drop_last()).push((s.last().0@, json_view(s.last().1)))
    }
}

pub proof fn lemma_json_arr_view_index(s: Seq<JsonType>)
    ensures
        json_arr_view(s).len() == s.len(),
        forall|k: int| 0 <= k < s.len() ==> json_arr_view(s)[k] == json_view(s[k]),
    decreases s,
{
    if s.len() > 0 {
        lemma_json_arr_view_index(s.drop_last());
    }
}

pub proof fn lemma_json_obj_view_index(s: Seq<(String, JsonType)>)
    ensures
        json_obj_view(s).len() == s.len(),
        forall|k: int|
            0 <= k < s.len() ==> json_obj_view(s)[k] == (s[k].0@, json_view(s[k].1)),
    decreases s,
{
    if s.len() > 0 {
        lemma_json_obj_view_index(s.drop_last());
    }
}

impl DeepView for JsonType {
    type V = JsonV;

    open spec fn deep_view(&self) -> JsonV {
        json_view(*self)
    }
}

/// The deepest nesting of containers the parser will enter.
pub const MAX_DEPTH: u64 = 1000;

/// The value that starts at token `i`, with `depth` the remaining nesting
/// budget: a literal token becomes the matching leaf; `{` and `[` open a
/// container parsed by the item functions below; every other token, and a
/// missing one, is a fault.  On success the second component is the position
/// one past the value's last token.
pub open spec fn spec_parse_value(ts: Seq<TokenV>, i: int, depth: nat) -> Result<
    (JsonV, int),
    ParseErrorV,
>
    decreases ts.len() - i, 0int,
{
    if i < 0 || i >= ts.len() {
        Err(ParseErrorV::UnexpectedEndOfInput)
    } else if depth == 0 {
        Err(ParseErrorV::DepthExceeded)
    } else {
        match ts[i] {
            TokenV::Str(sv) => Ok((JsonV::Str(sv), i + 1)),
            TokenV::Float(t) => Ok((JsonV::Float(t), i + 1)),
            TokenV::Integer(n) => Ok((JsonV::Integer(n), i + 1)),
            TokenV::Boolean(b) => Ok((JsonV::Boolean(b), i + 1)),
            TokenV::Null => Ok((JsonV::Null, i + 1)),
            TokenV::LBrace => spec_parse_object_items(
                ts,
                i + 1,
                (depth - 1) as nat,
                Seq::empty(),
                true,
            ),
            TokenV::LBrack => spec_parse_array_items(
                ts,
                i + 1,
                (depth - 1) as nat,
                Seq::empty(),
                true,
            ),
            _ => Err(ParseErrorV::UnexpectedToken { found: ts[i], pos: i }),
        }
    }
}

/// The members of an object from token `i` on, `acc` holding the pairs read
/// so far.  `allow_end` is false right after a comma: a `}` there is the
/// trailing-comma fault, not a valid end.  `depth` is the nesting budget for
/// the member values.
pub open spec fn spec_parse_object_items(
    ts: Seq<TokenV>,
    i: int,
    depth: nat,
    acc: Seq<(Seq<char>, JsonV)>,
    allow_end: bool,
) -> Result<(JsonV, int), ParseErrorV>
    decreases ts.len() - i, 1int,
{
    if i < 0 || i >= ts.len() {
        Err(ParseErrorV::ExpectedKeyOrBrace { pos: i })
    } else {
        match ts[i] {
            TokenV::RBrace => if allow_end {
                Ok((JsonV::Object(acc), i + 1))
            } else {
                Err(ParseErrorV::ExpectedKeyOrBrace { pos: i })
            },
            TokenV::Str(key) => if i + 1 >= ts.len() || !(ts[i + 1] is Colon) {
                Err(ParseErrorV::ExpectedColon { pos: i + 1 })
            } else {
                match spec_parse_value(ts, i + 2, depth) {
                    Err(e) => Err(e),
                    Ok((v, j)) => if !(i + 2 < j && j <= ts.len()) {
                        // never reached — a value consumes at least one token
                        // (`lemma_parse_value_bounds`); written out so the
                        // recursion visibly descends
                        Err(ParseErrorV::UnexpectedEndOfInput)
                    } else {
                        let acc2 = acc.push((key, v));
                        if j >= ts.len() {
                            Err(ParseErrorV::ExpectedCommaOrBrace { pos: j })
                        } else {
                            match ts[j] {
                                TokenV::Comma => spec_parse_object_items(
                                    ts,
                                    j + 1,
                                    depth,
                                    acc2,
                                    false,
                                ),
                                TokenV::RBrace => Ok((JsonV::Object(acc2), j + 1)),
                                _ => Err(ParseErrorV::ExpectedCommaOrBrace { pos: j }),
                            }
                        }
                    },
                }
            },
            _ => Err(ParseErrorV::ExpectedKeyOrBrace { pos: i }),
        }
    }
}

/// The elements of an array from token `i` on, `acc` holding the elements
/// read so far.  `allow_end` is false right after a comma, so a trailing
/// comma is rejected: the `]` is then read as the start of a value and
/// reported as an unexpected token.
pub open spec fn spec_parse_array_items(
    ts: Seq<TokenV>,
    i: int,
    depth: nat,
    acc: Seq<JsonV>,
    allow_end: bool,
) -> Result<(JsonV, int), ParseErrorV>
    decreases ts.len() - i, 1int,
{
    if i < 0 || i >= ts.len() {
        Err(ParseErrorV::UnexpectedEndOfInput)
    } else if ts[i] is RBrack && allow_end {
        Ok((JsonV::Array(acc), i + 1))
    } else {
        match spec_parse_value(ts, i, depth) {
            Err(e) => Err(e),
            Ok((v, j)) => if !(i < j && j <= ts.len()) {
                // never reached — see `lemma_parse_value_bounds`
                Err(ParseErrorV::UnexpectedEndOfInput)
            } else {
                let acc2 = acc.push(v);
                if j >= ts.len() {
                    Err(ParseErrorV::ExpectedCommaOrBracket { pos: j })
                } else {
                    match ts[j] {
                        TokenV::Comma => spec_parse_array_items(ts, j + 1, depth, acc2, false),
                        TokenV::RBrack => Ok((JsonV::Array(acc2), j + 1)),
                        _ => Err(ParseErrorV::ExpectedCommaOrBracket { pos: j }),
                    }
                }
            },
        }
    }
}

/// A successful parse always advances: the position after a value lies
/// strictly beyond its first token and within the sequence.  In particular
/// the descent guards written into the item functions never fire.
pub proof fn lemma_parse_value_bounds(ts: Seq<TokenV>, i: int, depth: nat)
    ensures
        spec_parse_value(ts, i, depth) matches Ok(p) ==> i < p.1 <= ts.len(),
    decreases ts.len() - i, 0int,
{
    if 0 <= i < ts.len() && depth > 0 {
        match ts[i] {
            TokenV::LBrace => {
                lemma_parse_object_items_bounds(ts, i + 1, (depth - 1) as nat, Seq::empty(), true);
            },
            TokenV::LBrack => {
                lemma_parse_array_items_bounds(ts, i + 1, (depth - 1) as nat, Seq::empty(), true);
            },
            _ => {},
        }
    }
}

pub proof fn lemma_parse_object_items_bounds(
    ts: Seq<TokenV>,
    i: int,
    depth: nat,
    acc: Seq<(Seq<char>, JsonV)>,
    allow_end: bool,
)
    ensures
        spec_parse_object_items(ts, i, depth, acc, allow_end) matches Ok(p) ==> i < p.1
            <= ts.len(),
    decreases ts.len() - i, 1int,
{
    if 0 <= i < ts.len() {
        match ts[i] {
            TokenV::Str(key) => {
                if !(i + 1 >= ts.len() || !(ts[i + 1] is Colon)) {
                    lemma_parse_value_bounds(ts, i + 2, depth);
                    match spec_parse_value(ts, i + 2, depth) {
                        Ok((v, j)) => {
                            if i + 2 < j && j <= ts.len() && j < ts.len() && ts[j] is Comma {
                                lemma_parse_object_items_bounds(
                                    ts,
                                    j + 1,
                                    depth,
                                    acc.push((key, v)),
                                    false,
                                );
                            }
                        },
                        Err(_) => {},
                    }
                }
            },
            _ => {},
        }
    }
}

pub proof fn lemma_parse_array_items_bounds(
    ts: Seq<TokenV>,
    i: int,
    depth: nat,
    acc: Seq<JsonV>,
    allow_end: bool,
)
    ensures
        spec_parse_array_items(ts, i, depth, acc, allow_end) matches Ok(p) ==> i < p.1
            <= ts.len(),
    decreases ts.len() - i, 1int,
{
    if 0 <= i < ts.len() && !(ts[i] is RBrack && allow_end) {
        lemma_parse_value_bounds(ts, i, depth);
        match spec_parse_value(ts, i, depth) {
            Ok((v, j)) => {
                if i < j && j <= ts.len() && j < ts.len() && ts[j] is Comma {
                    lemma_parse_array_items_bounds(ts, j + 1, depth, acc.push(v), false);
                }
            },
            Err(_) => {},
        }
    }
}

/// A `JsonType` container's view is the deep view of its vector.
pub proof fn lemma_object_deep_view(pairs: Vec<(String, JsonType)>)
    ensures
        JsonType::Object(pairs).deep_view() == JsonV::Object(pairs.deep_view()),
{
    lemma_json_obj_view_index(pairs@);
    assert(json_obj_view(pairs@) =~= pairs.deep_view());
}

pub proof fn lemma_array_deep_view(items: Vec<JsonType>)
    ensures
        JsonType::Array(items).deep_view() == JsonV::Array(items.deep_view()),
{
    lemma_json_arr_view_index(items@);
    assert(json_arr_view(items@) =~= items.deep_view());
}

/// How an executable parsing outcome realizes the specified one: the same
/// verdict, the same value view, and on success the same resume position.
pub open spec fn parse_result_matches(
    r: Result<JsonType, ParseError>,
    post_pos: int,
    sp: Result<(JsonV, int), ParseErrorV>,
) -> bool {
    match (r, sp) {
        (Ok(v), Ok(p)) => v.deep_view() == p.0 && post_pos == p.1,
        (Err(e), Err(se)) => e@ == se,
        _ => false,
    }
}

/// The recursive-descent parser: a cursor over an owned token sequence.
/// `pos` is the index of the next unconsumed token; a peek reads without
/// advancing it, a consume reads and advances.
pub struct Parser {
    pub tokens: Vec<Token>,
    pub pos: usize,
}

impl Parser {
    pub fn new(tokens: Vec<Token>) -> (r: Self)
        ensures
            r.tokens == tokens,
            r.pos == 0,
    {
        Parser { tokens, pos: 0 }
    }

    /// Parses one value starting at the cursor, with `depth` the remaining
    /// nesting budget.  On success the cursor stands one past the value's
    /// last token; trailing tokens are left unconsumed for the caller.
    pub fn parse_value(&mut self, depth: u64) -> (r: Result<JsonType, ParseError>)
        ensures
            final(self).tokens == old(self).tokens,
            parse_result_matches(
                r,
                final(self).pos as int,
                spec_parse_value(
                    old(self).tokens.deep_view(),
                    old(self).pos as int,
                    depth as nat,
                ),
            ),
        decreases depth, 0int,
    {
        if self.pos >= self.tokens.len() {
            return Err(ParseError::UnexpectedEndOfInput);
        }
        if depth == 0 {
            return Err(ParseError::DepthExceeded);
        }
        let at = self.pos;
        let tok = self.tokens[at].duplicate();
        self.pos = at + 1;
        match tok {
            Token::STRING(sv) => Ok(JsonType::String(sv)),
            Token::FLOAT(t) => Ok(JsonType::Float(t)),
            Token::INTEGER(n) => Ok(JsonType::Integer(n)),
            Token::BOOLEAN(b) => Ok(JsonType::Boolean(b)),
            Token::NONE => Ok(JsonType::Null),
            Token::LBRACE => self.parse_object(depth - 1),
            Token::LBRAC => self.parse_array(depth - 1),
            other => Err(ParseError::UnexpectedToken { found: other, pos: at }),
        }
    }

    /// Parses the members of an object whose `{` was already consumed, up to
    /// and including the closing `}`.  `depth` is the nesting budget for the
    /// member values.
    pub fn parse_object(&mut self, depth: u64) -> (r: Result<JsonType, ParseError>)
        ensures
            final(self).tokens == old(self).tokens,
            parse_result_matches(
                r,
                final(self).pos as int,
                spec_parse_object_items(
                    old(self).tokens.deep_view(),
                    old(self).pos as int,
                    depth as nat,
                    Seq::empty(),
                    true,
                ),
            ),
        decreases depth, 1int,
    {
        let ghost ts = self.tokens.deep_view();
        let ghost i0 = self.pos as int;
        let mut pairs: Vec<(String, JsonType)> = Vec::new();
        let mut allow_end = true;
        proof {
            assert(pairs.deep_view() =~= Seq::<(Seq<char>, JsonV)>::empty());
        }
        loop
            invariant
                self.tokens == old(self).tokens,
                ts == self.tokens.deep_view(),
                i0 == old(self).pos,
                depth as nat == depth,
                spec_parse_object_items(ts, i0, depth as nat, Seq::empty(), true)
                    == spec_parse_object_items(
                    ts,
                    self.pos as int,
                    depth as nat,
                    pairs.deep_view(),
                    allow_end,
                ),
            decreases self.tokens@.len() - self.pos,
        {
            if self.pos >= self.tokens.len() {
                return Err(ParseError::ExpectedKeyOrBrace { pos: self.pos });
            }
            let at = self.pos;
            let tok = self.tokens[at].duplicate();
            proof {
                assert(ts[at as int] == self.tokens@[at as int]@);
                assert(tok@ == ts[at as int]);
            }
            match tok {
                Token::RBRACE => {
                    if allow_end {
                        self.pos = at + 1;
                        proof {
                            lemma_object_deep_view(pairs);
                        }
                        return Ok(JsonType::Object(pairs));
                    } else {
                        return Err(ParseError::ExpectedKeyOrBrace { pos: at });
                    }
                },
                Token::STRING(key) => {
                    self.pos = at + 1;
                    if self.pos >= self.tokens.len() {
                        return Err(ParseError::ExpectedColon { pos: self.pos });
                    }
                    let is_colon = match &self.tokens[self.pos] {
                        Token::COLON => true,
                        _ => false,
                    };
                    proof {
                        assert(ts[self.pos as int] == self.tokens@[self.pos as int]@);
                        assert(is_colon == (ts[at + 1] is Colon));
                    }
                    if !is_colon {
                        return Err(ParseError::ExpectedColon { pos: self.pos });
                    }
                    self.pos = self.pos + 1;
                    let ghost vstart = self.pos as int;
                    let v = match self.parse_value(depth) {
                        Ok(v) => v,
                        Err(e) => return Err(e),
                    };
                    proof {
                        lemma_parse_value_bounds(ts, vstart, depth as nat);
                    }
                    let j = self.pos;
                    let ghost prev_pairs = pairs;
                    pairs.push((key, v));
                    proof {
                        lemma_deep_view_push(prev_pairs, pairs, pairs@.last());
                    }
                    if j >= self.tokens.len() {
                        return Err(ParseError::ExpectedCommaOrBrace { pos: j });
                    }
                    let tok2 = self.tokens[j].duplicate();
                    proof {
                        assert(ts[j as int] == self.tokens@[j as int]@);
                        assert(tok2@ == ts[j as int]);
                    }
                    match tok2 {
                        Token::COMMA => {
                            self.pos = j + 1;
                            allow_end = false;
                        },
                        Token::RBRACE => {
                            self.pos = j + 1;
                            proof {
                                lemma_object_deep_view(pairs);
                            }
                            return Ok(JsonType::Object(pairs));
                        },
                        _ => {
                            return Err(ParseError::ExpectedCommaOrBrace { pos: j });
                        },
                    }
                },
                _ => {
                    return Err(ParseError::ExpectedKeyOrBrace { pos: at });
                },
            }
        }
    }

    /// Parses the elements of an array whose `[` was already consumed, up to
    /// and including the closing `]`.  `depth` is the nesting budget for the
    /// element values.
    pub fn parse_array(&mut self, depth: u64) -> (r: Result<JsonType, ParseError>)
        ensures
            final(self).tokens == old(self).tokens,
            parse_result_matches(
                r,
                final(self).pos as int,
                spec_parse_array_items(
                    old(self).tokens.deep_view(),
                    old(self).pos as int,
                    depth as nat,
                    Seq::empty(),
                    true,
                ),
            ),
        decreases depth, 1int,
    {
        let ghost ts = self.tokens.deep_view();
        let ghost i0 = self.pos as int;
        let mut items: Vec<JsonType> = Vec::new();
        let mut allow_end = true;
        proof {
            assert(items.deep_view() =~= Seq::<JsonV>::empty());
        }
        loop
            invariant
                self.tokens == old(self).tokens,
                ts == self.tokens.deep_view(),
                i0 == old(self).pos,
                depth as nat == depth,
                spec_parse_array_items(ts, i0, depth as nat, Seq::empty(), true)
                    == spec_parse_array_items(
                    ts,
                    self.pos as int,
                    depth as nat,
                    items.deep_view(),
                    allow_end,
                ),
            decreases self.tokens@.len() - self.pos,
        {
            if self.pos >= self.tokens.len() {
                return Err(ParseError::UnexpectedEndOfInput);
            }
            let at = self.pos;
            let is_rbrack = match &self.tokens[at] {
                Token::RBRAC => true,
                _ => false,
            };
            proof {
                assert(ts[at as int] == self.tokens@[at as int]@);
                assert(is_rbrack == (ts[at as int] is RBrack));
            }
            if is_rbrack && allow_end {
                self.pos = at + 1;
                proof {
                    lemma_array_deep_view(items);
                }
                return Ok(JsonType::Array(items));
            }
            let v = match self.parse_value(depth) {
                Ok(v) => v,
                Err(e) => return Err(e),
            };
            proof {
                lemma_parse_value_bounds(ts, at as int, depth as nat);
            }
            let j = self.pos;
            let ghost prev_items = items;
            items.push(v);
            proof {
                lemma_deep_view_push(prev_items, items, items@.last());
            }
            if j >= self.tokens.len() {
                return Err(ParseError::ExpectedCommaOrBracket { pos: j });
            }
            let tok2 = self.tokens[j].duplicate();
            proof {
                assert(ts[j as int] == self.tokens@[j as int]@);
                assert(tok2@ == ts[j as int]);
            }
            match tok2 {
                Token::COMMA => {
                    self.pos = j + 1;
                    allow_end = false;
                },
                Token::RBRAC => {
                    self.pos = j + 1;
                    proof {
                        lemma_array_deep_view(items);
                    }
                    return Ok(JsonType::Array(items));
                },
                _ => {
                    return Err(ParseError::ExpectedCommaOrBracket { pos: j });
                },
            }
        }
    }

    /// Parses the one value that starts at the cursor, under the fixed
    /// nesting budget `MAX_DEPTH`.
    pub fn ast(&mut self) -> (r: Result<JsonType, ParseError>)
        ensures
            final(self).tokens == old(self).tokens,
            parse_result_matches(
                r,
                final(self).pos as int,
                spec_parse_value(
                    old(self).tokens.deep_view(),
                    old(self).pos as int,
                    MAX_DEPTH as nat,
                ),
            ),
    {
        self.parse_value(MAX_DEPTH)
    }
}

/// Parses the token sequence into the one value that starts at its head, or
/// reports the first syntactic fault.  Tokens after that value are left
/// unconsumed and ignored here; a caller that must reject trailing tokens
/// can drive `Parser` directly and inspect its cursor.
pub fn parse(tokens: Vec<Token>) -> (r: Result<JsonType, ParseError>)
    ensures
        ({
            let sp = spec_parse_value(tokens.deep_view(), 0, MAX_DEPTH as nat);
            match (r, sp) {
                (Ok(v), Ok(p)) => v.deep_view() == p.0,
                (Err(e), Err(se)) => e@ == se,
                _ => false,
            }
        }),
{
    let mut parser = Parser::new(tokens);
    parser.ast()
}

} // verus!
