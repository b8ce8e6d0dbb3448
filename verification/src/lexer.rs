use vstd::prelude::*;
use vstd::string::StrSliceExecFns;

use crate::diagnostics::{Error, ErrorV, ErrorVariant, ErrorVariantV, InputLocation};
use crate::position::{Position, Positioned};
use crate::text::{ident_char, ident_start_char, is_ident_char, is_ident_start, is_space,
    space_char, str_eq};
use crate::token::{Token, TokenV};

verus! {

/// The end of the run of characters satisfying `pred` that starts at `i`:
/// the first index at or after `i` whose character fails `pred`, or the end
/// of the buffer.
pub open spec fn run_end(s: Seq<char>, i: int, pred: spec_fn(char) -> bool) -> int
    decreases s.len() - i
        when 0 <= i <= s.len()
{
    if i < s.len() && pred(s[i]) {
        run_end(s, i + 1, pred)
    } else {
        i
    }
}

/// Every character of the run satisfies `pred`, the run stays inside the
/// buffer, and the character after it (if any) fails `pred`.
pub proof fn lemma_run_end(s: Seq<char>, i: int, pred: spec_fn(char) -> bool)
    requires
        0 <= i <= s.len(),
    ensures
        i <= run_end(s, i, pred) <= s.len(),
        forall|j: int| i <= j < run_end(s, i, pred) ==> pred(s[j]),
        run_end(s, i, pred) < s.len() ==> !pred(s[run_end(s, i, pred)]),
    decreases s.len() - i,
{
    if i < s.len() && pred(s[i]) {
        lemma_run_end(s, i + 1, pred);
    }
}

/// `run_end` is the only index with the properties of `lemma_run_end`.
pub proof fn lemma_run_end_unique(s: Seq<char>, i: int, k: int, pred: spec_fn(char) -> bool)
    requires
        0 <= i <= k <= s.len(),
        forall|j: int| i <= j < k ==> pred(s[j]),
        k < s.len() ==> !pred(s[k]),
    ensures
        run_end(s, i, pred) == k,
    decreases s.len() - i,
{
    if i < k {
        lemma_run_end_unique(s, i + 1, k, pred);
    }
}

/// The identifier-character predicate as a first-class spec function.
pub open spec fn ident_pred() -> spec_fn(char) -> bool {
    |c: char| is_ident_char(c)
}

/// The whitespace predicate as a first-class spec function.
pub open spec fn space_pred() -> spec_fn(char) -> bool {
    |c: char| is_space(c)
}

/// Keyword classification of an identifier's text.
pub open spec fn classify_ident(text: Seq<char>) -> TokenV {
    if text == "forall"@ {
        TokenV::Forall
    } else if text == "true"@ {
        TokenV::True
    } else if text == "false"@ {
        TokenV::False
    } else {
        TokenV::Ident(text)
    }
}

/// A token of the specification-level scan: its value and its position.
pub struct LexedV {
    pub tok: TokenV,
    pub position: Position,
}

/// What one scan step at cursor `i` yields: the next token together with the
/// cursor just past it (before trailing whitespace is discarded), a lexical
/// error, or the end of the buffer.
pub enum Step {
    Tok { tok: TokenV, position: Position, next: int },
    Fail { err: ErrorV },
    Done,
}

/// The single character-class decision of the lexer, at cursor `i`.
pub open spec fn step(s: Seq<char>, i: int) -> Step {
    if i >= s.len() {
        Step::Done
    } else {
        let c = s[i];
        if is_ident_start(c) {
            let j = run_end(s, i, ident_pred());
            Step::Tok {
                tok: classify_ident(s.subrange(i, j)),
                position: Position::Span(i as usize, j as usize),
                next: j,
            }
        } else if c == ' ' {
            Step::Tok { tok: TokenV::Indent, position: Position::Pos(i as usize), next: i + 1 }
        } else if c == '=' {
            if i + 1 >= s.len() {
                Step::Fail {
                    err: ErrorV {
                        variant: ErrorVariantV::UnexpectedEndOfInput,
                        location: InputLocation::Pos((i + 1) as usize),
                    },
                }
            } else if s[i + 1] == '>' {
                Step::Tok {
                    tok: TokenV::Implication,
                    position: Position::Span(i as usize, (i + 2) as usize),
                    next: i + 2,
                }
            } else {
                Step::Fail {
                    err: ErrorV {
                        variant: ErrorVariantV::UnexpectedCharacter {
                            found: s[i + 1],
                            expected: Some(seq!['>']),
                        },
                        location: InputLocation::Pos((i + 1) as usize),
                    },
                }
            }
        } else if c == '(' {
            Step::Tok { tok: TokenV::OpeningParen, position: Position::Pos(i as usize), next: i + 1 }
        } else if c == ')' {
            Step::Tok { tok: TokenV::ClosingParen, position: Position::Pos(i as usize), next: i + 1 }
        } else {
            Step::Fail {
                err: ErrorV {
                    variant: ErrorVariantV::UnexpectedCharacter { found: c, expected: None },
                    location: InputLocation::Pos(i as usize),
                },
            }
        }
    }
}

/// The cursor after the token that `step` yields at `next`, once the run of
/// trailing whitespace has been discarded.
pub open spec fn after_token(s: Seq<char>, next: int) -> int {
    run_end(s, next, space_pred())
}

/// A successful scan step lands strictly past `i` and inside the buffer, and
/// so does the cursor after the trailing whitespace.
pub proof fn lemma_step_in_range(s: Seq<char>, i: int)
    requires
        0 <= i <= s.len(),
    ensures
        step(s, i) matches Step::Tok { next, .. } ==> i < next <= s.len() && next <= after_token(
            s,
            next,
        ) <= s.len(),
{
    match step(s, i) {
        Step::Tok { next, .. } => {
            if is_ident_start(s[i]) {
                assert(ident_pred()(s[i]));
                assert(run_end(s, i, ident_pred()) == run_end(s, i + 1, ident_pred()));
                lemma_run_end(s, i + 1, ident_pred());
            }
            lemma_run_end(s, next, space_pred());
        },
        _ => {},
    }
}

/// Outcome of matching `expected` against the buffer starting at `i`: the
/// cursor just past the match, or the first mismatch or end-of-input error.
pub open spec fn take_spec(s: Seq<char>, i: int, expected: Seq<char>) -> Result<int, ErrorV>
    decreases expected.len(),
{
    if expected.len() == 0 {
        Ok(i)
    } else if i >= s.len() {
        Err(
            ErrorV {
                variant: ErrorVariantV::UnexpectedEndOfInput,
                location: InputLocation::Pos(i as usize),
            },
        )
    } else if s[i] == expected[0] {
        take_spec(s, i + 1, expected.skip(1))
    } else {
        Err(
            ErrorV {
                variant: ErrorVariantV::UnexpectedCharacter {
                    found: s[i],
                    expected: Some(seq![expected[0]]),
                },
                location: InputLocation::Pos(i as usize),
            },
        )
    }
}

/// The full token sequence from cursor `i` on, or the first lexical error.
pub open spec fn lex_from(s: Seq<char>, i: int) -> Result<Seq<LexedV>, ErrorV>
    decreases s.len() - i
        when 0 <= i <= s.len()
{
    match step(s, i) {
        Step::Done => Ok(Seq::empty()),
        Step::Fail { err } => Err(err),
        Step::Tok { tok, position, next } => {
            proof {
                lemma_step_in_range(s, i);
            }
            match lex_from(s, after_token(s, next)) {
                Ok(rest) => Ok(seq![LexedV { tok, position }] + rest),
                Err(e) => Err(e),
            }
        },
    }
}

/// Law: every position a successful scan produces is well-formed — a span's
/// start never lies after its end.
pub proof fn lemma_lex_positions_well_formed(s: Seq<char>, i: int)
    requires
        0 <= i <= s.len() <= usize::MAX,
    ensures
        lex_from(s, i) matches Ok(toks) ==> forall|k: int|
            0 <= k < toks.len() ==> (#[trigger] toks[k].position).well_formed(),
    decreases s.len() - i,
{
    match step(s, i) {
        Step::Tok { tok, position, next } => {
            lemma_step_in_range(s, i);
            if is_ident_start(s[i]) {
                assert(ident_pred()(s[i]));
                assert(run_end(s, i, ident_pred()) == run_end(s, i + 1, ident_pred()));
                lemma_run_end(s, i + 1, ident_pred());
            }
            assert(position.well_formed());
            lemma_lex_positions_well_formed(s, after_token(s, next));
        },
        _ => {},
    }
}

/// The specification-level values of a produced token list.
pub open spec fn tokens_view<'a>(v: Seq<Positioned<Token<'a>>>) -> Seq<LexedV> {
    v.map_values(|p: Positioned<Token<'a>>| LexedV { tok: p.inner@, position: p.position })
}

/// A scanner for the formula language: turns a source buffer into a sequence
/// of position-tagged tokens. The scanner itself is stateless; the cursor is
/// threaded explicitly through every read primitive.
pub struct Lexer<'a> {
    buffer: &'a str,
}

impl<'a> View for Lexer<'a> {
    type V = Seq<char>;

    closed spec fn view(&self) -> Seq<char> {
        self.buffer@
    }
}

impl<'a> Lexer<'a> {
    /// Create a new Lexer from an input buffer.
    pub fn new(buffer: &'a str) -> (r: Self)
        ensures
            r@ == buffer@,
    {
        Lexer { buffer }
    }

    /// Scan the whole buffer, starting at cursor position zero, into the full
    /// ordered token list, or fail with the first lexical error encountered.
    /// No error recovery: lexing halts at the first bad character.
    pub fn tokenize(&self) -> (r: Result<Vec<Positioned<Token<'a>>>, Error>)
        ensures
            match lex_from(self@, 0) {
                Ok(toks) => r matches Ok(v) && tokens_view(v@) == toks,
                Err(ev) => r matches Err(e) && e@ == ev,
            },
    {
        let ghost s = self@;
        let mut pos: usize = 0;
        let mut tokens: Vec<Positioned<Token<'a>>> = Vec::new();
        proof {
            assert(tokens_view(tokens@) =~= Seq::<LexedV>::empty());
        }
        loop
            invariant
                pos <= s.len(),
                s == self@,
                lex_from(s, 0) == (match lex_from(s, pos as int) {
                    Ok(rest) => Ok::<Seq<LexedV>, ErrorV>(tokens_view(tokens@) + rest),
                    Err(e) => Err::<Seq<LexedV>, ErrorV>(e),
                }),
            decreases s.len() - pos,
        {
            let ghost prev = pos as int;
            let ghost prev_tokens = tokens@;
            match self.read_next_token(&mut pos) {
                Ok(Some(token)) => {
                    proof {
                        lemma_step_in_range(s, prev);
                    }
                    tokens.push(token);
                    proof {
                        let lv = LexedV { tok: token.inner@, position: token.position };
                        assert(tokens_view(tokens@) =~= tokens_view(prev_tokens) + seq![lv]);
                        if let Ok(rest) = lex_from(s, pos as int) {
                            assert(tokens_view(prev_tokens) + (seq![lv] + rest) =~= tokens_view(
                                tokens@,
                            ) + rest);
                        }
                    }
                },
                Ok(None) => {
                    proof {
                        assert(tokens_view(tokens@) + Seq::<LexedV>::empty() =~= tokens_view(
                            tokens@,
                        ));
                    }
                    return Ok(tokens);
                },
                Err(e) => {
                    return Err(e);
                },
            }
        }
    }

    /// Scan the token at the cursor, if any, then silently consume the run of
    /// whitespace that follows it. A mismatch on the two-character
    /// implication sequence is reported as the error the underlying `take`
    /// produced, rather than being swallowed.
    fn read_next_token(&self, pos: &mut usize) -> (r: Result<
        Option<Positioned<Token<'a>>>,
        Error,
    >)
        requires
            *old(pos) <= self@.len(),
        ensures
            match step(self@, *old(pos) as int) {
                Step::Done => r matches Ok(rr) && rr is None && *final(pos) == *old(pos),
                Step::Tok { tok, position, next } => {
                    &&& r matches Ok(rr) && rr matches Some(t) && t.inner@ == tok && t.position
                        == position
                    &&& *final(pos) == after_token(self@, next)
                    &&& *final(pos) <= self@.len()
                },
                Step::Fail { err } => r matches Err(e) && e@ == err,
            },
    {
        let ghost s = self@;
        let ghost i = *pos as int;
        let token: Option<Positioned<Token<'a>>> = match self.peek(pos) {
            Some(c) => {
                if ident_start_char(c) {
                    let pred_ident = |c2: char| -> (b: bool)
                        ensures
                            b == is_ident_char(c2),
                        { ident_char(c2) };
                    let cw = self.consume_while(pos, pred_ident);
                    proof {
                        assert(is_ident_char(s[i]));
                        if *pos == i {
                            assert(call_ensures(pred_ident, (s[i],), false));
                            assert(false);
                        }
                        assert forall|j: int| i <= j < *pos as int implies ident_pred()(
                            s[j],
                        ) by {
                            assert(call_ensures(pred_ident, (s[j],), true));
                        }
                        if (*pos as int) < s.len() {
                            assert(call_ensures(pred_ident, (s[*pos as int],), false));
                            assert(!ident_pred()(s[*pos as int]));
                        }
                        lemma_run_end_unique(s, i, *pos as int, ident_pred());
                    }
                    let ident = cw.unwrap();
                    let text: &'a str = ident.inner;
                    let tok: Token<'a> = if str_eq(text, "forall") {
                        Token::Forall
                    } else if str_eq(text, "true") {
                        Token::True
                    } else if str_eq(text, "false") {
                        Token::False
                    } else {
                        Token::Ident(text)
                    };
                    Some(Positioned::new(tok, ident.position))
                } else if c == ' ' {
                    let o = self.consume(pos).unwrap();
                    Some(Positioned::new(Token::Indent, o.position))
                } else if c == '=' {
                    proof {
                        reveal_strlit("=>");
                        assert("=>"@.len() == 2 && "=>"@[0] == '=' && "=>"@[1] == '>');
                        assert("=>"@.skip(1) =~= seq!['>']);
                        assert(take_spec(s, i, "=>"@) == take_spec(s, i + 1, seq!['>']));
                        assert(seq!['>'].skip(1) =~= Seq::<char>::empty());
                        if i + 1 < s.len() && s[i + 1] == '>' {
                            assert(take_spec(s, i + 1, seq!['>']) == take_spec(
                                s,
                                i + 2,
                                seq!['>'].skip(1),
                            ));
                        }
                    }
                    match self.take(pos, "=>") {
                        Ok(read) => Some(Positioned::new(Token::Implication, read.position)),
                        Err(e) => {
                            return Err(e);
                        },
                    }
                } else if c == '(' {
                    let o = self.consume(pos).unwrap();
                    Some(Positioned::new(Token::OpeningParen, o.position))
                } else if c == ')' {
                    let o = self.consume(pos).unwrap();
                    Some(Positioned::new(Token::ClosingParen, o.position))
                } else {
                    return Err(
                        Error::new(
                            ErrorVariant::UnexpectedCharacter { found: c, expected: None },
                            InputLocation::Pos(*pos),
                        ),
                    );
                }
            },
            None => None,
        };
        // Following a token, there can be an arbitrary number of whitespaces.
        let ghost next = *pos as int;
        let pred_space = |c2: char| -> (b: bool)
            ensures
                b == is_space(c2),
            { space_char(c2) };
        let _ = self.consume_while(pos, pred_space);
        proof {
            assert forall|j: int| next <= j < *pos as int implies space_pred()(s[j]) by {
                assert(call_ensures(pred_space, (s[j],), true));
            }
            if (*pos as int) < s.len() {
                assert(call_ensures(pred_space, (s[*pos as int],), false));
                assert(!space_pred()(s[*pos as int]));
            }
            lemma_run_end_unique(s, next, *pos as int, space_pred());
        }
        Ok(token)
    }

    /// Return the character at the cursor, positioned at the pre-advance
    /// offset, and advance the cursor by one; nothing at the end of the
    /// buffer.
    pub fn consume(&self, pos: &mut usize) -> (r: Option<Positioned<char>>)
        ensures
            *old(pos) < self@.len() ==> {
                &&& r matches Some(p) && p.inner == self@[*old(pos) as int] && p.position
                    == Position::Pos(*old(pos))
                &&& *final(pos) == *old(pos) + 1
            },
            *old(pos) >= self@.len() ==> r is None && *final(pos) == *old(pos),
    {
        let len = self.buffer.unicode_len();
        if *pos < len {
            let c = self.buffer.get_char(*pos);
            let res = Positioned::new(c, Position::Pos(*pos));
            *pos += 1;
            Some(res)
        } else {
            None
        }
    }

    /// Read exactly `n` characters as a positioned span and advance the
    /// cursor by `n`. Callers must ensure that `n` characters remain.
    pub fn consume_exact(&self, pos: &mut usize, n: usize) -> (r: Positioned<&'a str>)
        requires
            *old(pos) + n <= self@.len(),
        ensures
            r.inner@ == self@.subrange(*old(pos) as int, *old(pos) + n as int),
            r.position matches Position::Span(lo, hi) && lo == *old(pos) && hi == *old(pos) + n,
            *final(pos) == *old(pos) + n,
    {
        let len = self.buffer.unicode_len();
        proof {
            assert(*pos + n <= len);
        }
        let end = *pos + n;
        let res = Positioned::new(self.buffer.substring_char(*pos, end), Position::Span(*pos, end));
        *pos = end;
        res
    }

    /// Read the maximal run of leading characters satisfying `predicate` as a
    /// positioned span, advancing the cursor past it; nothing (and no
    /// advancement) if the run is empty.
    pub fn consume_while<P: Fn(char) -> bool>(&self, pos: &mut usize, predicate: P) -> (r: Option<
        Positioned<&'a str>,
    >)
        requires
            *old(pos) <= self@.len(),
            forall|c: char| call_requires(predicate, (c,)),
        ensures
            *old(pos) <= *final(pos) <= self@.len(),
            forall|j: int| *old(pos) <= j < *final(pos) ==> call_ensures(
                predicate,
                (self@[j],),
                true,
            ),
            *final(pos) < self@.len() ==> call_ensures(
                predicate,
                (self@[*final(pos) as int],),
                false,
            ),
            r matches Some(p) ==> {
                &&& *old(pos) < *final(pos)
                &&& p.inner@ == self@.subrange(*old(pos) as int, *final(pos) as int)
                &&& p.position matches Position::Span(lo, hi) && lo == *old(pos)
                    && hi == *final(pos)
            },
            r is None ==> *final(pos) == *old(pos),
            *old(pos) < *final(pos) ==> r is Some,
    {
        let len = self.buffer.unicode_len();
        let start = *pos;
        let mut end = start;
        let mut stopped = false;
        while !stopped && end < len
            invariant
                len == self@.len(),
                start <= end <= len,
                forall|c: char| call_requires(predicate, (c,)),
                forall|j: int| start <= j < end ==> call_ensures(predicate, (self@[j],), true),
                stopped ==> end < len && call_ensures(predicate, (self@[end as int],), false),
            decreases len - end + (if stopped { 0int } else { 1int }),
        {
            let c = self.buffer.get_char(end);
            if predicate(c) {
                end += 1;
            } else {
                stopped = true;
            }
        }
        if end == start {
            None
        } else {
            Some(self.consume_exact(pos, end - start))
        }
    }

    /// Return the character at the cursor without advancing.
    pub fn peek(&self, pos: &usize) -> (r: Option<char>)
        ensures
            *pos < self@.len() ==> r == Some(self@[*pos as int]),
            *pos >= self@.len() ==> r is None,
    {
        let len = self.buffer.unicode_len();
        if *pos < len {
            Some(self.buffer.get_char(*pos))
        } else {
            None
        }
    }

    /// Attempt to consume characters matching `expected` one at a time. The
    /// first mismatch fails with `UnexpectedCharacter` at the offset of the
    /// mismatched character; running out of input mid-match fails with
    /// `UnexpectedEndOfInput`. On success the result spans the matched text.
    pub fn take(&self, pos: &mut usize, expected: &str) -> (r: Result<Positioned<()>, Error>)
        ensures
            match take_spec(self@, *old(pos) as int, expected@) {
                Ok(end) => {
                    &&& r matches Ok(p) && p.position matches Position::Span(lo, hi) && lo == *old(
                        pos,
                    ) && hi == end
                    &&& *final(pos) == end
                },
                Err(ev) => r matches Err(e) && e@ == ev,
            },
    {
        let initial_pos = *pos;
        let elen = expected.unicode_len();
        let mut k: usize = 0;
        proof {
            assert(expected@.skip(0) =~= expected@);
        }
        while k < elen
            invariant
                elen == expected@.len(),
                k <= elen,
                initial_pos == *old(pos),
                *pos == initial_pos + k,
                take_spec(self@, initial_pos as int, expected@) == take_spec(
                    self@,
                    *pos as int,
                    expected@.skip(k as int),
                ),
            decreases elen - k,
        {
            let at = *pos;
            let ghost rem = expected@.skip(k as int);
            proof {
                assert(rem.len() == elen - k);
                assert(rem[0] == expected@[k as int]);
                assert(rem.skip(1) =~= expected@.skip(k as int + 1));
            }
            match self.consume(pos) {
                Some(found) => {
                    let found_c = found.into_inner();
                    let expected_char = expected.get_char(k);
                    if found_c != expected_char {
                        let mut only: Vec<char> = Vec::new();
                        only.push(expected_char);
                        proof {
                            assert(only@ =~= seq![expected@[k as int]]);
                        }
                        return Err(
                            Error::new(
                                ErrorVariant::UnexpectedCharacter {
                                    found: found_c,
                                    expected: Some(only),
                                },
                                InputLocation::Pos(at),
                            ),
                        );
                    }
                },
                None => {
                    return Err(
                        Error::new(ErrorVariant::UnexpectedEndOfInput, InputLocation::Pos(at)),
                    );
                },
            }
            k += 1;
        }
        proof {
            assert(expected@.skip(k as int) =~= Seq::<char>::empty());
        }
        Ok(Positioned::new((), Position::Span(initial_pos, *pos)))
    }

    /// Read exactly `n` characters starting at `pos` without advancing.
    pub fn peek_exact(&self, pos: usize, n: usize) -> (r: &'a str)
        requires
            pos + n <= self@.len(),
        ensures
            r@ == self@.subrange(pos as int, pos + n as int),
    {
        let len = self.buffer.unicode_len();
        proof {
            assert(pos + n <= len);
        }
        let end = pos + n;
        self.buffer.substring_char(pos, end)
    }
}

} // verus!
