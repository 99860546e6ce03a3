//! Tokenizer: turns a sequence of source characters into tokens.
//!
//! Whitespace and `#`-prefixed line comments are skipped. Identifiers are
//! maximal runs of alphanumeric characters starting with an alphabetic one;
//! the reserved words `def` and `extern` become keyword tokens. Numbers are
//! maximal runs of digits and dots holding at least one digit and at most one
//! dot; the literal text is kept verbatim in the token. The stream ends with
//! exactly one end-of-input token.

use vstd::prelude::*;

verus! {

// ---------------------------------------------------------------------------
// Character classes (ASCII)
// ---------------------------------------------------------------------------

pub open spec fn is_space_char(c: char) -> bool {
    c == ' ' || c == '\t' || c == '\r' || c == '\n'
}

pub open spec fn is_alpha_char(c: char) -> bool {
    ('a' as u32 <= c as u32 && c as u32 <= 'z' as u32) || ('A' as u32 <= c as u32 && c as u32
        <= 'Z' as u32)
}

pub open spec fn is_digit_char(c: char) -> bool {
    '0' as u32 <= c as u32 && c as u32 <= '9' as u32
}

pub open spec fn is_alnum_char(c: char) -> bool {
    is_alpha_char(c) || is_digit_char(c)
}

/// Characters that may appear in a numeric literal run.
pub open spec fn is_num_char(c: char) -> bool {
    is_digit_char(c) || c == '.'
}

fn is_space(c: char) -> (r: bool)
    ensures
        r == is_space_char(c),
{
    c == ' ' || c == '\t' || c == '\r' || c == '\n'
}

fn is_alpha(c: char) -> (r: bool)
    ensures
        r == is_alpha_char(c),
{
    let u = c as u32;
    ('a' as u32 <= u && u <= 'z' as u32) || ('A' as u32 <= u && u <= 'Z' as u32)
}

fn is_digit(c: char) -> (r: bool)
    ensures
        r == is_digit_char(c),
{
    let u = c as u32;
    '0' as u32 <= u && u <= '9' as u32
}

fn is_alnum(c: char) -> (r: bool)
    ensures
        r == is_alnum_char(c),
{
    is_alpha(c) || is_digit(c)
}

fn is_num(c: char) -> (r: bool)
    ensures
        r == is_num_char(c),
{
    is_digit(c) || c == '.'
}

// ---------------------------------------------------------------------------
// Tokens
// ---------------------------------------------------------------------------

/// A lexical token. `Identifier` and `Number` carry their source text; a
/// numeric literal is kept verbatim, already checked for shape.
#[derive(Debug, PartialEq)]
pub enum Token {
    Eof,
    Def,
    Extern,
    LessThan,
    Plus,
    Minus,
    Star,
    LParen,
    RParen,
    Comma,
    Semicolon,
    Identifier(String),
    Number(String),
}

/// The mathematical value of a token: its text as a sequence of characters.
pub enum TokenView {
    Eof,
    Def,
    Extern,
    LessThan,
    Plus,
    Minus,
    Star,
    LParen,
    RParen,
    Comma,
    Semicolon,
    Identifier(Seq<char>),
    Number(Seq<char>),
}

impl View for Token {
    type V = TokenView;

    open spec fn view(&self) -> TokenView {
        match self {
            Token::Eof => TokenView::Eof,
            Token::Def => TokenView::Def,
            Token::Extern => TokenView::Extern,
            Token::LessThan => TokenView::LessThan,
            Token::Plus => TokenView::Plus,
            Token::Minus => TokenView::Minus,
            Token::Star => TokenView::Star,
            Token::LParen => TokenView::LParen,
            Token::RParen => TokenView::RParen,
            Token::Comma => TokenView::Comma,
            Token::Semicolon => TokenView::Semicolon,
            Token::Identifier(s) => TokenView::Identifier(s@),
            Token::Number(s) => TokenView::Number(s@),
        }
    }
}

impl Clone for Token {
    fn clone(&self) -> (r: Token)
        ensures
            r == *self,
    {
        match self {
            Token::Eof => Token::Eof,
            Token::Def => Token::Def,
            Token::Extern => Token::Extern,
            Token::LessThan => Token::LessThan,
            Token::Plus => Token::Plus,
            Token::Minus => Token::Minus,
            Token::Star => Token::Star,
            Token::LParen => Token::LParen,
            Token::RParen => Token::RParen,
            Token::Comma => Token::Comma,
            Token::Semicolon => Token::Semicolon,
            Token::Identifier(s) => Token::Identifier(s.clone()),
            Token::Number(s) => Token::Number(s.clone()),
        }
    }
}

pub open spec fn token_views(s: Seq<Token>) -> Seq<TokenView> {
    s.map_values(|t: Token| t@)
}

/// The characters of the reserved word introducing a definition.
pub open spec fn kw_def() -> Seq<char> {
    seq!['d', 'e', 'f']
}

/// The characters of the reserved word introducing an external declaration.
pub open spec fn kw_extern() -> Seq<char> {
    seq!['e', 'x', 't', 'e', 'r', 'n']
}

// ---------------------------------------------------------------------------
// Errors
// ---------------------------------------------------------------------------

/// A lexical error. Either is fatal to the current input line.
#[derive(Debug, Clone, Copy, PartialEq, Eq)]
pub enum LexError {
    /// A character that cannot start or continue any token.
    UnexpectedChar(char),
    /// A numeric literal run with no digit or with more than one dot.
    MalformedNumber,
}

// ---------------------------------------------------------------------------
// The scanning functions, as specification
// ---------------------------------------------------------------------------

/// Position after skipping whitespace and `#`-comments from `i` onward.
/// `comment` says whether scanning currently stands inside a comment.
pub open spec fn spec_skip_ws(chars: Seq<char>, i: int, comment: bool) -> int
    decreases chars.len() - i,
        when 0 <= i <= chars.len()
{
    if i == chars.len() {
        i
    } else if comment || chars[i] == '#' || is_space_char(chars[i]) {
        spec_skip_ws(
            chars,
            i + 1,
            if chars[i] == '\n' {
                false
            } else if chars[i] == '#' {
                true
            } else {
                comment
            },
        )
    } else {
        i
    }
}

pub proof fn lemma_skip_ws_range(chars: Seq<char>, i: int, comment: bool)
    requires
        0 <= i <= chars.len(),
    ensures
        i <= spec_skip_ws(chars, i, comment) <= chars.len(),
    decreases chars.len() - i,
{
    if i < chars.len() && (comment || chars[i] == '#' || is_space_char(chars[i])) {
        lemma_skip_ws_range(
            chars,
            i + 1,
            if chars[i] == '\n' {
                false
            } else if chars[i] == '#' {
                true
            } else {
                comment
            },
        );
    }
}

/// End of the maximal alphanumeric run starting at `i`.
pub open spec fn spec_ident_end(chars: Seq<char>, i: int) -> int
    decreases chars.len() - i,
        when 0 <= i <= chars.len()
{
    if i < chars.len() && is_alnum_char(chars[i]) {
        spec_ident_end(chars, i + 1)
    } else {
        i
    }
}

pub proof fn lemma_ident_end_range(chars: Seq<char>, i: int)
    requires
        0 <= i <= chars.len(),
    ensures
        i <= spec_ident_end(chars, i) <= chars.len(),
    decreases chars.len() - i,
{
    if i < chars.len() && is_alnum_char(chars[i]) {
        lemma_ident_end_range(chars, i + 1);
    }
}

/// End of the maximal digits-and-dots run starting at `i`.
pub open spec fn spec_num_end(chars: Seq<char>, i: int) -> int
    decreases chars.len() - i,
        when 0 <= i <= chars.len()
{
    if i < chars.len() && is_num_char(chars[i]) {
        spec_num_end(chars, i + 1)
    } else {
        i
    }
}

pub proof fn lemma_num_end_range(chars: Seq<char>, i: int)
    requires
        0 <= i <= chars.len(),
    ensures
        i <= spec_num_end(chars, i) <= chars.len(),
    decreases chars.len() - i,
{
    if i < chars.len() && is_num_char(chars[i]) {
        lemma_num_end_range(chars, i + 1);
    }
}

pub open spec fn count_dots(s: Seq<char>) -> int
    decreases s.len(),
{
    if s.len() == 0 {
        0
    } else {
        count_dots(s.drop_last()) + if s.last() == '.' {
            1int
        } else {
            0int
        }
    }
}

pub open spec fn has_digit(s: Seq<char>) -> bool {
    exists|k: int| 0 <= k < s.len() && is_digit_char(s[k])
}

/// A digits-and-dots run is a well-formed numeric literal when it holds at
/// least one digit and at most one dot.
pub open spec fn num_text_valid(s: Seq<char>) -> bool {
    count_dots(s) <= 1 && has_digit(s)
}

/// The token found at position `i`, with the position just after it.
pub open spec fn spec_get_token(chars: Seq<char>, i: int) -> (Result<TokenView, LexError>, int) {
    let k = spec_skip_ws(chars, i, false);
    if k >= chars.len() {
        (Ok(TokenView::Eof), k)
    } else {
        let c = chars[k];
        if is_alpha_char(c) {
            let e = spec_ident_end(chars, k);
            let t = chars.subrange(k, e);
            if t == kw_def() {
                (Ok(TokenView::Def), e)
            } else if t == kw_extern() {
                (Ok(TokenView::Extern), e)
            } else {
                (Ok(TokenView::Identifier(t)), e)
            }
        } else if is_num_char(c) {
            let e = spec_num_end(chars, k);
            let t = chars.subrange(k, e);
            if num_text_valid(t) {
                (Ok(TokenView::Number(t)), e)
            } else {
                (Err(LexError::MalformedNumber), e)
            }
        } else if c == '+' {
            (Ok(TokenView::Plus), k + 1)
        } else if c == '-' {
            (Ok(TokenView::Minus), k + 1)
        } else if c == '<' {
            (Ok(TokenView::LessThan), k + 1)
        } else if c == '(' {
            (Ok(TokenView::LParen), k + 1)
        } else if c == ')' {
            (Ok(TokenView::RParen), k + 1)
        } else if c == ',' {
            (Ok(TokenView::Comma), k + 1)
        } else if c == ';' {
            (Ok(TokenView::Semicolon), k + 1)
        } else if c == '*' {
            (Ok(TokenView::Star), k + 1)
        } else {
            (Err(LexError::UnexpectedChar(c)), k + 1)
        }
    }
}

/// The whole token stream from position `i` on: the tokens up to and
/// including the single end-of-input token, or the first lexical error.
pub open spec fn spec_tokens(chars: Seq<char>, i: int) -> Result<Seq<TokenView>, LexError>
    decreases chars.len() - i,
        when 0 <= i <= chars.len()
{
    let (r, j) = spec_get_token(chars, i);
    match r {
        Err(e) => Err(e),
        Ok(t) => if t is Eof {
            Ok(seq![TokenView::Eof])
        } else if i < j <= chars.len() {
            match spec_tokens(chars, j) {
                Ok(rest) => Ok(seq![t] + rest),
                Err(e) => Err(e),
            }
        } else {
            // never reached: a token other than end-of-input consumes input
            Ok(seq![t])
        },
    }
}

// ---------------------------------------------------------------------------
// String building
// ---------------------------------------------------------------------------

/// Relies on String::push: appends the given character to the end of the
/// string.
#[verifier::external_body]
pub(crate) fn push_char(s: &mut String, c: char)
    ensures
        final(s)@ == old(s)@.push(c),
{
    s.push(c)
}

fn chars_to_string(v: &Vec<char>) -> (s: String)
    ensures
        s@ == v@,
{
    let mut s = String::new();
    let mut i: usize = 0;
    while i < v.len()
        invariant
            i <= v.len(),
            s@ == v@.subrange(0, i as int),
        decreases v.len() - i,
    {
        push_char(&mut s, v[i]);
        i = i + 1;
        proof {
            assert(s@ =~= v@.subrange(0, i as int));
        }
    }
    proof {
        assert(s@ =~= v@);
    }
    s
}

// ---------------------------------------------------------------------------
// The reader
// ---------------------------------------------------------------------------

/// Reads tokens off a character sequence, one at a time.
pub struct TokenReader {
    /// The source characters.
    pub chars: Vec<char>,
    /// The position of the next character not yet consumed.
    pub pos: usize,
    /// Whether the single end-of-input token has been handed out by `next`.
    pub has_returned_eof: bool,
}

impl TokenReader {
    pub open spec fn wf(&self) -> bool {
        self.pos <= self.chars.len()
    }

    pub fn new(chars: Vec<char>) -> (r: TokenReader)
        ensures
            r.wf(),
            r.chars == chars,
            r.pos == 0,
            !r.has_returned_eof,
    {
        TokenReader { chars, pos: 0, has_returned_eof: false }
    }

    /// Consumes whitespace and `#`-prefixed line comments.
    pub fn skip_whitespace_and_comments(&mut self)
        requires
            old(self).wf(),
        ensures
            final(self).wf(),
            final(self).chars == old(self).chars,
            final(self).has_returned_eof == old(self).has_returned_eof,
            final(self).pos == spec_skip_ws(old(self).chars@, old(self).pos as int, false),
    {
        let mut comment = false;
        loop
            invariant
                self.wf(),
                self.chars == old(self).chars,
                self.has_returned_eof == old(self).has_returned_eof,
                spec_skip_ws(old(self).chars@, old(self).pos as int, false) == spec_skip_ws(
                    self.chars@,
                    self.pos as int,
                    comment,
                ),
            decreases self.chars.len() - self.pos,
        {
            if self.pos >= self.chars.len() {
                return ;
            }
            let c = self.chars[self.pos];
            if comment || c == '#' || is_space(c) {
                self.pos = self.pos + 1;
                if c == '\n' {
                    comment = false;
                } else if c == '#' {
                    comment = true;
                }
            } else {
                return ;
            }
        }
    }

    /// Consumes the maximal alphanumeric run at the current position and
    /// returns its text.
    pub fn get_identifier(&mut self) -> (r: String)
        requires
            old(self).wf(),
        ensures
            final(self).wf(),
            final(self).chars == old(self).chars,
            final(self).has_returned_eof == old(self).has_returned_eof,
            final(self).pos == spec_ident_end(old(self).chars@, old(self).pos as int),
            r@ == old(self).chars@.subrange(old(self).pos as int, final(self).pos as int),
    {
        let v = self.collect_ident();
        chars_to_string(&v)
    }

    /// Consumes the maximal digits-and-dots run at the current position and
    /// returns its text, rejecting a run that is not a well-formed numeric
    /// literal.
    pub fn get_number(&mut self) -> (r: Result<String, LexError>)
        requires
            old(self).wf(),
        ensures
            final(self).wf(),
            final(self).chars == old(self).chars,
            final(self).has_returned_eof == old(self).has_returned_eof,
            final(self).pos == spec_num_end(old(self).chars@, old(self).pos as int),
            ({
                let t = old(self).chars@.subrange(old(self).pos as int, final(self).pos as int);
                match r {
                    Ok(s) => num_text_valid(t) && s@ == t,
                    Err(e) => !num_text_valid(t) && e == LexError::MalformedNumber,
                }
            }),
    {
        let mut v: Vec<char> = Vec::new();
        let mut dots: usize = 0;
        let mut saw_digit = false;
        loop
            invariant
                self.wf(),
                self.chars == old(self).chars,
                self.has_returned_eof == old(self).has_returned_eof,
                old(self).pos <= self.pos,
                spec_num_end(old(self).chars@, old(self).pos as int) == spec_num_end(
                    self.chars@,
                    self.pos as int,
                ),
                v@ == self.chars@.subrange(old(self).pos as int, self.pos as int),
                dots == count_dots(v@),
                dots <= v@.len(),
                saw_digit == has_digit(v@),
            decreases self.chars.len() - self.pos,
        {
            if self.pos < self.chars.len() && is_num(self.chars[self.pos]) {
                let c = self.chars[self.pos];
                let ghost prev = v@;
                v.push(c);
                self.pos = self.pos + 1;
                if c == '.' {
                    dots = dots + 1;
                } else {
                    saw_digit = true;
                }
                proof {
                    assert(v@ =~= self.chars@.subrange(old(self).pos as int, self.pos as int));
                    assert(v@.drop_last() =~= prev);
                    if has_digit(prev) {
                        let k = choose|k: int| 0 <= k < prev.len() && is_digit_char(prev[k]);
                        assert(is_digit_char(v@[k]));
                    }
                    if is_digit_char(c) {
                        assert(is_digit_char(v@[v@.len() - 1]));
                    }
                    if has_digit(v@) && !has_digit(prev) && !is_digit_char(c) {
                        let k = choose|k: int| 0 <= k < v@.len() && is_digit_char(v@[k]);
                        assert(k < prev.len() ==> is_digit_char(prev[k]));
                        assert(false);
                    }
                }
            } else {
                if dots <= 1 && saw_digit {
                    return Ok(chars_to_string(&v));
                } else {
                    return Err(LexError::MalformedNumber);
                }
            }
        }
    }

    /// Classifies a just-collected identifier run: a reserved word becomes
    /// its keyword token, anything else an identifier token.
    fn ident_token(v: &Vec<char>) -> (t: Token)
        ensures
            t@ == (if v@ == kw_def() {
                TokenView::Def
            } else if v@ == kw_extern() {
                TokenView::Extern
            } else {
                TokenView::Identifier(v@)
            }),
    {
        if v.len() == 3 && v[0] == 'd' && v[1] == 'e' && v[2] == 'f' {
            proof {
                assert(v@ =~= kw_def());
            }
            Token::Def
        } else if v.len() == 6 && v[0] == 'e' && v[1] == 'x' && v[2] == 't' && v[3] == 'e' && v[4]
            == 'r' && v[5] == 'n' {
            proof {
                assert(v@ =~= kw_extern());
            }
            Token::Extern
        } else {
            proof {
                if v@ == kw_def() {
                    assert(v@.len() == 3 && v@[0] == 'd' && v@[1] == 'e' && v@[2] == 'f');
                    assert(false);
                }
                if v@ == kw_extern() {
                    assert(v@.len() == 6 && v@[0] == 'e' && v@[1] == 'x' && v@[2] == 't' && v@[3]
                        == 'e' && v@[4] == 'r' && v@[5] == 'n');
                    assert(false);
                }
            }
            Token::Identifier(chars_to_string(v))
        }
    }

    /// Reads one token; end of input is reported as the end-of-input token.
    pub fn get_token(&mut self) -> (r: Result<Token, LexError>)
        requires
            old(self).wf(),
        ensures
            final(self).wf(),
            final(self).chars == old(self).chars,
            final(self).has_returned_eof == old(self).has_returned_eof,
            final(self).pos == spec_get_token(old(self).chars@, old(self).pos as int).1,
            ({
                let expect = spec_get_token(old(self).chars@, old(self).pos as int).0;
                match r {
                    Ok(t) => expect == Ok::<TokenView, LexError>(t@),
                    Err(e) => expect == Err::<TokenView, LexError>(e),
                }
            }),
    {
        proof {
            lemma_skip_ws_range(self.chars@, self.pos as int, false);
        }
        self.skip_whitespace_and_comments();
        if self.pos >= self.chars.len() {
            return Ok(Token::Eof);
        }
        let c = self.chars[self.pos];
        if is_alpha(c) {
            proof {
                lemma_ident_end_range(self.chars@, self.pos as int);
            }
            let v = self.collect_ident();
            Ok(Self::ident_token(&v))
        } else if is_num(c) {
            proof {
                lemma_num_end_range(self.chars@, self.pos as int);
            }
            match self.get_number() {
                Ok(s) => Ok(Token::Number(s)),
                Err(e) => Err(e),
            }
        } else {
            self.pos = self.pos + 1;
            if c == '+' {
                Ok(Token::Plus)
            } else if c == '-' {
                Ok(Token::Minus)
            } else if c == '<' {
                Ok(Token::LessThan)
            } else if c == '(' {
                Ok(Token::LParen)
            } else if c == ')' {
                Ok(Token::RParen)
            } else if c == ',' {
                Ok(Token::Comma)
            } else if c == ';' {
                Ok(Token::Semicolon)
            } else if c == '*' {
                Ok(Token::Star)
            } else {
                Err(LexError::UnexpectedChar(c))
            }
        }
    }

    /// Consumes the maximal alphanumeric run and returns its characters.
    fn collect_ident(&mut self) -> (v: Vec<char>)
        requires
            old(self).wf(),
        ensures
            final(self).wf(),
            final(self).chars == old(self).chars,
            final(self).has_returned_eof == old(self).has_returned_eof,
            final(self).pos == spec_ident_end(old(self).chars@, old(self).pos as int),
            v@ == old(self).chars@.subrange(old(self).pos as int, final(self).pos as int),
    {
        let mut v: Vec<char> = Vec::new();
        loop
            invariant
                self.wf(),
                self.chars == old(self).chars,
                self.has_returned_eof == old(self).has_returned_eof,
                old(self).pos <= self.pos,
                spec_ident_end(old(self).chars@, old(self).pos as int) == spec_ident_end(
                    self.chars@,
                    self.pos as int,
                ),
                v@ == self.chars@.subrange(old(self).pos as int, self.pos as int),
            decreases self.chars.len() - self.pos,
        {
            if self.pos < self.chars.len() && is_alnum(self.chars[self.pos]) {
                v.push(self.chars[self.pos]);
                self.pos = self.pos + 1;
                proof {
                    assert(v@ =~= self.chars@.subrange(old(self).pos as int, self.pos as int));
                }
            } else {
                return v;
            }
        }
    }

    /// Reads one token for iteration: the end-of-input token is handed out
    /// once, after which `None` is returned.
    pub fn next(&mut self) -> (r: Result<Option<Token>, LexError>)
        requires
            old(self).wf(),
        ensures
            final(self).wf(),
            final(self).chars == old(self).chars,
            final(self).pos == spec_get_token(old(self).chars@, old(self).pos as int).1,
            ({
                let expect = spec_get_token(old(self).chars@, old(self).pos as int).0;
                match r {
                    Ok(Some(t)) => expect == Ok::<TokenView, LexError>(t@) && (t@ is Eof ==> !old(self).has_returned_eof
                        && final(self).has_returned_eof),
                    Ok(None) => expect == Ok::<TokenView, LexError>(TokenView::Eof) && old(self).has_returned_eof
                        && final(self).has_returned_eof,
                    Err(e) => expect == Err::<TokenView, LexError>(e),
                }
            }),
            !(r matches Ok(Some(t)) && t@ is Eof) ==> final(self).has_returned_eof == old(
                self).has_returned_eof,
    {
        let t = self.get_token()?;
        match t {
            Token::Eof => {
                if self.has_returned_eof {
                    Ok(None)
                } else {
                    self.has_returned_eof = true;
                    Ok(Some(Token::Eof))
                }
            },
            _ => Ok(Some(t)),
        }
    }

    /// Reads the whole remaining stream: every token up to and including the
    /// single end-of-input token, or the first lexical error.
    pub fn tokenize(&mut self) -> (r: Result<Vec<Token>, LexError>)
        requires
            old(self).wf(),
        ensures
            final(self).wf(),
            final(self).chars == old(self).chars,
            ({
                let expect = spec_tokens(old(self).chars@, old(self).pos as int);
                match r {
                    Ok(v) => expect == Ok::<Seq<TokenView>, LexError>(token_views(v@)),
                    Err(e) => expect == Err::<Seq<TokenView>, LexError>(e),
                }
            }),
    {
        let mut out: Vec<Token> = Vec::new();
        loop
            invariant
                self.wf(),
                self.chars == old(self).chars,
                spec_tokens(old(self).chars@, old(self).pos as int) == (match spec_tokens(
                    self.chars@,
                    self.pos as int,
                ) {
                    Ok(ts) => Ok::<Seq<TokenView>, LexError>(token_views(out@) + ts),
                    Err(e) => Err(e),
                }),
            decreases self.chars.len() - self.pos,
        {
            let ghost pos0: int = self.pos as int;
            let tr = self.get_token();
            match tr {
                Err(e) => {
                    return Err(e);
                },
                Ok(t) => {
                    let is_eof = matches!(t, Token::Eof);
                    let ghost tv = t@;
                    let ghost prev = out@;
                    out.push(t);
                    proof {
                        assert(token_views(out@) =~= token_views(prev).push(tv));
                    }
                    if is_eof {
                        proof {
                            assert(spec_tokens(self.chars@, pos0) == Ok::<
                                Seq<TokenView>,
                                LexError,
                            >(seq![TokenView::Eof]));
                            assert(token_views(prev) + seq![TokenView::Eof] =~= token_views(out@));
                        }
                        return Ok(out);
                    }
                    proof {
                        lemma_get_token_progress(self.chars@, pos0);
                        match spec_tokens(self.chars@, self.pos as int) {
                            Ok(rest) => {
                                assert(spec_tokens(self.chars@, pos0) == Ok::<
                                    Seq<TokenView>,
                                    LexError,
                                >(seq![tv] + rest));
                                assert(token_views(prev) + (seq![tv] + rest) =~= token_views(out@)
                                    + rest);
                            },
                            Err(_) => {},
                        }
                    }
                },
            }
        }
    }
}

/// A token other than end-of-input consumes at least one character.
pub proof fn lemma_get_token_progress(chars: Seq<char>, i: int)
    requires
        0 <= i <= chars.len(),
    ensures
        i <= spec_get_token(chars, i).1 <= chars.len(),
        !(spec_get_token(chars, i).0 == Ok::<TokenView, LexError>(TokenView::Eof)) ==> i
            < spec_get_token(chars, i).1,
{
    lemma_skip_ws_range(chars, i, false);
    let k = spec_skip_ws(chars, i, false);
    if k < chars.len() {
        let c = chars[k];
        if is_alpha_char(c) {
            lemma_ident_end_range(chars, k);
            assert(spec_ident_end(chars, k) == spec_ident_end(chars, k + 1));
            lemma_ident_end_range(chars, k + 1);
        } else if is_num_char(c) {
            lemma_num_end_range(chars, k);
            assert(spec_num_end(chars, k) == spec_num_end(chars, k + 1));
            lemma_num_end_range(chars, k + 1);
        }
    }
}

} // verus!
