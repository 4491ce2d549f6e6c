//! The lexer: turns the input text into a sequence of positioned tokens,
//! one character class at a time.
//!
//! Positions are 0-based character indices into the input. Whitespace is
//! skipped; `( ) + - * / % ^` are single-character tokens; any other
//! character starts a numeric-literal scan that greedily consumes ASCII
//! digits and at most one `.`. A run without a single digit is a lexical
//! error, reported at the run's starting position.

use vstd::prelude::*;

verus! {

/// A character with the Unicode `White_Space` property: the characters the
/// lexer skips between tokens.
pub open spec fn is_ws_char(c: char) -> bool {
    let n = c as u32;
    (0x09 <= n && n <= 0x0D) || n == 0x20 || n == 0x85 || n == 0xA0 || n == 0x1680 || (0x2000
        <= n && n <= 0x200A) || n == 0x2028 || n == 0x2029 || n == 0x202F || n == 0x205F || n
        == 0x3000
}

/// An ASCII digit `0`..=`9`: the characters a numeric literal is made of.
pub open spec fn is_digit_char(c: char) -> bool {
    let n = c as u32;
    0x30 <= n && n <= 0x39
}

fn char_is_ws(c: char) -> (r: bool)
    ensures
        r == is_ws_char(c),
{
    let n = c as u32;
    (0x09 <= n && n <= 0x0D) || n == 0x20 || n == 0x85 || n == 0xA0 || n == 0x1680 || (0x2000
        <= n && n <= 0x200A) || n == 0x2028 || n == 0x2029 || n == 0x202F || n == 0x205F || n
        == 0x3000
}

fn char_is_digit(c: char) -> (r: bool)
    ensures
        r == is_digit_char(c),
{
    let n = c as u32;
    0x30 <= n && n <= 0x39
}

/// A lexical unit. A numeric literal carries the characters that were
/// consumed for it (ASCII digits and at most one dot, at least one digit);
/// its numeric reading is left to the caller.
#[derive(Debug, PartialEq)]
pub enum Token {
    LParen,
    RParen,
    Plus,
    Dash,
    Star,
    Slash,
    Percent,
    Caret,
    Number(Vec<char>),
}

/// The mathematical model of a [`Token`]: the literal is a sequence of
/// characters.
pub ghost enum TokG {
    LParen,
    RParen,
    Plus,
    Dash,
    Star,
    Slash,
    Percent,
    Caret,
    Number(Seq<char>),
}

impl View for Token {
    type V = TokG;

    open spec fn view(&self) -> TokG {
        match self {
            Token::LParen => TokG::LParen,
            Token::RParen => TokG::RParen,
            Token::Plus => TokG::Plus,
            Token::Dash => TokG::Dash,
            Token::Star => TokG::Star,
            Token::Slash => TokG::Slash,
            Token::Percent => TokG::Percent,
            Token::Caret => TokG::Caret,
            Token::Number(lit) => TokG::Number(lit@),
        }
    }
}

pub const UNKNOWN_SYMBOL: &'static str = "unknown symbol";

/// A 0-based character index into the input text.
pub type TokenPosition = usize;

/// A lexical error: the position of the offending run, and a message.
pub type LexErr = (TokenPosition, &'static str);

/// One step of the lexer: a positioned token, or a lexical error.
pub type LexResult = Result<(TokenPosition, Token), LexErr>;

/// The index of the first non-whitespace character at or after `i`, or
/// `s.len()` if only whitespace remains.
pub open spec fn skip_ws_from(s: Seq<char>, i: int) -> int
    decreases s.len() - i,
{
    if i < 0 || i >= s.len() {
        s.len() as int
    } else if is_ws_char(s[i]) {
        skip_ws_from(s, i + 1)
    } else {
        i
    }
}

/// The end of the numeric run that starts at `i`: digits are consumed, and
/// one dot when `seen_dot` does not yet hold; any other character (or a
/// second dot) ends the run.
pub open spec fn num_run_end(s: Seq<char>, i: int, seen_dot: bool) -> int
    decreases s.len() - i,
{
    if i < 0 || i >= s.len() {
        s.len() as int
    } else if is_digit_char(s[i]) {
        num_run_end(s, i + 1, seen_dot)
    } else if s[i] == '.' && !seen_dot {
        num_run_end(s, i + 1, true)
    } else {
        i
    }
}

/// Whether the run contains at least one digit: exactly the runs that are
/// well-formed numeric literals.
pub open spec fn has_digit(q: Seq<char>) -> bool {
    exists|k: int| 0 <= k < q.len() && is_digit_char(q[k])
}

/// One step of the lexer at character index `i`, as a value: the end of the
/// input, a token with its starting position and the index just after it, or
/// a lexical failure at a position.
pub ghost enum LexStepG {
    End,
    Tok { pos: int, tok: TokG, next: int },
    Fail { pos: int },
}

/// What the lexer produces at character index `i` of `s`: whitespace is
/// skipped, the eight operator and parenthesis characters are
/// single-character tokens, and every other character opens a numeric run,
/// which is a `Number` token exactly when it holds a digit.
pub open spec fn next_token_spec(s: Seq<char>, i: int) -> LexStepG {
    let j = skip_ws_from(s, i);
    if j >= s.len() {
        LexStepG::End
    } else if s[j] == '(' {
        LexStepG::Tok { pos: j, tok: TokG::LParen, next: j + 1 }
    } else if s[j] == ')' {
        LexStepG::Tok { pos: j, tok: TokG::RParen, next: j + 1 }
    } else if s[j] == '+' {
        LexStepG::Tok { pos: j, tok: TokG::Plus, next: j + 1 }
    } else if s[j] == '-' {
        LexStepG::Tok { pos: j, tok: TokG::Dash, next: j + 1 }
    } else if s[j] == '*' {
        LexStepG::Tok { pos: j, tok: TokG::Star, next: j + 1 }
    } else if s[j] == '/' {
        LexStepG::Tok { pos: j, tok: TokG::Slash, next: j + 1 }
    } else if s[j] == '%' {
        LexStepG::Tok { pos: j, tok: TokG::Percent, next: j + 1 }
    } else if s[j] == '^' {
        LexStepG::Tok { pos: j, tok: TokG::Caret, next: j + 1 }
    } else {
        let e = num_run_end(s, j, false);
        let lit = s.subrange(j, e);
        if has_digit(lit) {
            LexStepG::Tok { pos: j, tok: TokG::Number(lit), next: e }
        } else {
            LexStepG::Fail { pos: j }
        }
    }
}

proof fn lemma_skip_ws_bounds(s: Seq<char>, i: int)
    requires
        0 <= i <= s.len(),
    ensures
        i <= skip_ws_from(s, i) <= s.len(),
    decreases s.len() - i,
{
    if i < s.len() && is_ws_char(s[i]) {
        lemma_skip_ws_bounds(s, i + 1);
    }
}

proof fn lemma_num_run_end_bounds(s: Seq<char>, i: int, seen_dot: bool)
    requires
        0 <= i <= s.len(),
    ensures
        i <= num_run_end(s, i, seen_dot) <= s.len(),
    decreases s.len() - i,
{
    if i < s.len() {
        if is_digit_char(s[i]) {
            lemma_num_run_end_bounds(s, i + 1, seen_dot);
        } else if s[i] == '.' && !seen_dot {
            lemma_num_run_end_bounds(s, i + 1, true);
        }
    }
}

/// A token's span lies within the input and is never empty, and a failure
/// position lies within the input.
pub proof fn lemma_next_token_bounds(s: Seq<char>, i: int)
    requires
        0 <= i <= s.len(),
    ensures
        match next_token_spec(s, i) {
            LexStepG::End => true,
            LexStepG::Tok { pos, tok, next } => i <= pos && pos < next && next <= s.len(),
            LexStepG::Fail { pos } => i <= pos && pos < s.len(),
        },
{
    lemma_skip_ws_bounds(s, i);
    let j = skip_ws_from(s, i);
    if j < s.len() {
        lemma_num_run_end_bounds(s, j, false);
        let e = num_run_end(s, j, false);
        let lit = s.subrange(j, e);
        if has_digit(lit) {
            assert(lit.len() > 0);
        }
    }
}

proof fn lemma_skip_ws_all(s: Seq<char>, i: int)
    requires
        0 <= i <= s.len(),
        forall|k: int| 0 <= k < s.len() ==> is_ws_char(s[k]),
    ensures
        skip_ws_from(s, i) == s.len(),
    decreases s.len() - i,
{
    if i < s.len() {
        lemma_skip_ws_all(s, i + 1);
    }
}

/// An input of whitespace alone (the empty input included) yields an empty
/// token sequence: at every position the lexer is already at the end.
pub proof fn lemma_ws_only_end(s: Seq<char>, i: int)
    requires
        0 <= i <= s.len(),
        forall|k: int| 0 <= k < s.len() ==> is_ws_char(s[k]),
    ensures
        next_token_spec(s, i) is End,
{
    lemma_skip_ws_all(s, i);
}

/// The model of a [`Lexer`]: the input text and the current character
/// position.
pub ghost struct LexerModel {
    pub text: Seq<char>,
    pub pos: int,
}

/// A lazy lexer over an input text: tokens are produced one at a time, on
/// demand, by [`Lexer::next`] and inspected without being consumed by
/// [`Lexer::peek`].
pub struct Lexer {
    chars: Vec<char>,
    pos: usize,
}

impl View for Lexer {
    type V = LexerModel;

    closed spec fn view(&self) -> LexerModel {
        LexerModel { text: self.chars@, pos: self.pos as int }
    }
}

impl Lexer {
    /// The position never runs past the end of the text.
    pub open spec fn wf(&self) -> bool {
        self@.pos <= self@.text.len()
    }

    /// A fresh lexer over `input`, positioned at its first character.
    pub fn new(input: &str) -> (l: Lexer)
        ensures
            l@.text == input@,
            l@.pos == 0,
            l.wf(),
    {
        let n = input.unicode_len();
        let mut v: Vec<char> = Vec::new();
        let mut i: usize = 0;
        while i < n
            invariant
                n == input@.len(),
                i <= n,
                v@ == input@.subrange(0, i as int),
            decreases n - i,
        {
            v.push(input.get_char(i));
            i = i + 1;
            proof {
                assert(v@ =~= input@.subrange(0, i as int));
            }
        }
        proof {
            assert(v@ =~= input@);
        }
        Lexer { chars: v, pos: 0 }
    }

    /// The scanning step both `peek` and `next` share: the item that
    /// [`next_token_spec`] describes at the current position, and the
    /// position the lexer moves to when the item is consumed.
    fn scan(&self) -> (r: (Option<LexResult>, usize))
        requires
            self.wf(),
        ensures
            self@.pos <= r.1 <= self@.text.len(),
            match next_token_spec(self@.text, self@.pos) {
                LexStepG::End => r.0 is None && r.1 == self@.text.len(),
                LexStepG::Tok { pos, tok, next } => match r.0 {
                    Some(Ok((p, t))) => p == pos && t@ == tok && r.1 == next && self@.pos <= pos
                        && pos < next,
                    _ => false,
                },
                LexStepG::Fail { pos } => match r.0 {
                    Some(Err((p, m))) => p == pos && m@ == "unknown symbol"@ && r.1 == pos
                        && self@.pos <= pos,
                    _ => false,
                },
            },
    {
        let ghost text = self@.text;
        let ghost p0 = self@.pos;
        let mut j: usize = self.pos;
        while j < self.chars.len() && char_is_ws(self.chars[j])
            invariant
                p0 <= j <= text.len(),
                self@.text == text,
                self@.pos == p0,
                skip_ws_from(text, p0) == skip_ws_from(text, j as int),
            decreases text.len() - j,
        {
            j = j + 1;
        }
        proof {
            assert(skip_ws_from(text, j as int) == j as int);
            assert(skip_ws_from(text, p0) == j as int);
        }
        if j >= self.chars.len() {
            return (None, j);
        }
        let c = self.chars[j];
        if c == '(' {
            return (Some(Ok((j, Token::LParen))), j + 1);
        }
        if c == ')' {
            return (Some(Ok((j, Token::RParen))), j + 1);
        }
        if c == '+' {
            return (Some(Ok((j, Token::Plus))), j + 1);
        }
        if c == '-' {
            return (Some(Ok((j, Token::Dash))), j + 1);
        }
        if c == '*' {
            return (Some(Ok((j, Token::Star))), j + 1);
        }
        if c == '/' {
            return (Some(Ok((j, Token::Slash))), j + 1);
        }
        if c == '%' {
            return (Some(Ok((j, Token::Percent))), j + 1);
        }
        if c == '^' {
            return (Some(Ok((j, Token::Caret))), j + 1);
        }
        let start = j;
        let mut k: usize = j;
        let mut seen_dot = false;
        let mut saw_digit = false;
        let mut lit: Vec<char> = Vec::new();
        while k < self.chars.len() && (char_is_digit(self.chars[k]) || (self.chars[k] == '.'
            && !seen_dot))
            invariant
                start <= k <= text.len(),
                start == skip_ws_from(text, p0),
                start < text.len(),
                self@.text == text,
                num_run_end(text, start as int, false) == num_run_end(text, k as int, seen_dot),
                lit@ == text.subrange(start as int, k as int),
                saw_digit == has_digit(lit@),
            decreases text.len() - k,
        {
            let ghost old_lit = lit@;
            if char_is_digit(self.chars[k]) {
                saw_digit = true;
            } else {
                seen_dot = true;
            }
            lit.push(self.chars[k]);
            k = k + 1;
            proof {
                assert(lit@ =~= text.subrange(start as int, k as int));
                if is_digit_char(text[k - 1]) {
                    assert(is_digit_char(lit@[lit@.len() - 1]));
                    assert(has_digit(lit@));
                } else {
                    assert(forall|m: int| 0 <= m < lit@.len() - 1 ==> lit@[m] == old_lit[m]);
                    assert(has_digit(lit@) == has_digit(old_lit));
                }
            }
        }
        proof {
            assert(num_run_end(text, k as int, seen_dot) == k as int);
            assert(num_run_end(text, start as int, false) == k as int);
        }
        if saw_digit {
            (Some(Ok((start, Token::Number(lit)))), k)
        } else {
            (Some(Err((start, UNKNOWN_SYMBOL))), start)
        }
    }

    /// The next item of the token sequence, without consuming it.
    pub fn peek(&self) -> (r: Option<LexResult>)
        requires
            self.wf(),
        ensures
            match next_token_spec(self@.text, self@.pos) {
                LexStepG::End => r is None,
                LexStepG::Tok { pos, tok, next } => match r {
                    Some(Ok((p, t))) => p == pos && t@ == tok,
                    _ => false,
                },
                LexStepG::Fail { pos } => match r {
                    Some(Err((p, m))) => p == pos && m@ == "unknown symbol"@,
                    _ => false,
                },
            },
    {
        let (item, _) = self.scan();
        item
    }

    /// The next item of the token sequence; the lexer advances past a token,
    /// stays at a failure, and rests at the end of the text once the tokens
    /// are exhausted.
    pub fn next(&mut self) -> (r: Option<LexResult>)
        requires
            old(self).wf(),
        ensures
            final(self).wf(),
            final(self)@.text == old(self)@.text,
            old(self)@.pos <= final(self)@.pos,
            match next_token_spec(old(self)@.text, old(self)@.pos) {
                LexStepG::End => r is None && final(self)@.pos == old(self)@.text.len(),
                LexStepG::Tok { pos, tok, next } => match r {
                    Some(Ok((p, t))) => p == pos && t@ == tok && final(self)@.pos == next
                        && old(self)@.pos < next,
                    _ => false,
                },
                LexStepG::Fail { pos } => match r {
                    Some(Err((p, m))) => p == pos && m@ == "unknown symbol"@
                        && final(self)@.pos == pos,
                    _ => false,
                },
            },
    {
        let (item, np) = self.scan();
        self.pos = np;
        item
    }
}

} // verus!
