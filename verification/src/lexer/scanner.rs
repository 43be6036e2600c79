//! The scanner: source text in, tokens and lexical errors out.

use vstd::prelude::*;
use crate::lexer::token::{Keyword, Literal, LiteralView, Token, TokenType, TokenView};
use crate::text::{
    char_is_alphabetic, char_is_alphanumeric, char_is_whitespace, chars_of, decimal_nat,
    is_alphabetic, is_alphanumeric, is_whitespace, push_char, push_decimal, push_text, text_of,
};

verus! {

/// A lexical error: a character no token can start with, or a string literal
/// that is never closed.
#[derive(Debug, PartialEq, Eq)]
pub struct LexError {
    pub line: usize,
    pub message: String,
}

/// The mathematical content of a [`LexError`].
pub struct LexErrorView {
    pub line: nat,
    pub message: Seq<char>,
}

impl View for LexError {
    type V = LexErrorView;

    open spec fn view(&self) -> LexErrorView {
        LexErrorView { line: self.line as nat, message: self.message@ }
    }
}

impl LexErrorView {
    /// The diagnostic line of the error.
    pub open spec fn display(self) -> Seq<char> {
        "[line "@ + decimal_nat(self.line) + "] Error: "@ + self.message
    }
}

impl LexError {
    /// The error as a diagnostic line, `[line <n>] Error: <message>`.
    pub fn to_string(&self) -> (r: String)
        ensures
            r@ == self@.display(),
    {
        let mut out = String::new();
        push_text(&mut out, "[line ");
        push_decimal(&mut out, self.line as u64);
        push_text(&mut out, "] Error: ");
        push_text(&mut out, self.message.as_str());
        assert(out@ =~= self@.display());
        out
    }
}

/// The views of a run of tokens.
pub open spec fn token_views(tokens: Seq<Token>) -> Seq<TokenView> {
    tokens.map_values(|t: Token| t@)
}

/// The views of a run of lexical errors.
pub open spec fn error_views(errors: Seq<LexError>) -> Seq<LexErrorView> {
    errors.map_values(|e: LexError| e@)
}

/// An ordered run of tokens.
pub struct TokenArray {
    pub tokens: Vec<Token>,
}

impl View for TokenArray {
    type V = Seq<TokenView>;

    open spec fn view(&self) -> Seq<TokenView> {
        token_views(self.tokens@)
    }
}

impl TokenArray {
    /// Appends `token` to the run.
    pub fn push(&mut self, token: Token)
        ensures
            final(self).tokens@ == old(self).tokens@.push(token),
            final(self)@ == old(self)@.push(token@),
    {
        self.tokens.push(token);
        assert(self@ =~= old(self)@.push(token@));
    }

    /// The listing form of the run: each token's display followed by a newline.
    pub open spec fn listing(tokens: Seq<TokenView>) -> Seq<char>
        decreases tokens.len(),
    {
        if tokens.len() == 0 {
            Seq::empty()
        } else {
            TokenArray::listing(tokens.drop_last()) + tokens.last().display() + "\n"@
        }
    }

    /// The run as a listing, one token per line.
    pub fn to_string(&self) -> (r: String)
        ensures
            r@ == TokenArray::listing(self@),
    {
        let mut out = String::new();
        let mut i: usize = 0;
        while i < self.tokens.len()
            invariant
                i <= self.tokens.len(),
                out@ == TokenArray::listing(self@.subrange(0, i as int)),
            decreases self.tokens.len() - i,
        {
            let shown = self.tokens[i].to_string();
            push_text(&mut out, shown.as_str());
            push_text(&mut out, "\n");
            proof {
                let upto = self@.subrange(0, i + 1);
                assert(upto.drop_last() =~= self@.subrange(0, i as int));
                assert(upto.last() == self.tokens@[i as int]@);
            }
            i = i + 1;
        }
        assert(self@.subrange(0, i as int) =~= self@);
        out
    }
}

/// Whether `c` is one of the ten decimal digits.
pub open spec fn is_digit(c: char) -> bool {
    '0' <= c <= '9'
}

/// Whether an identifier or keyword can start with `c`.
pub open spec fn is_word_start(c: char) -> bool {
    is_alphabetic(c) || c == '_'
}

/// Whether `c` can continue an identifier or keyword.
pub open spec fn is_word_part(c: char) -> bool {
    is_alphanumeric(c) || c == '_'
}

/// The first position at or after `pos` whose character fails `keep`, or the
/// end of the text.
pub open spec fn run_end(chars: Seq<char>, pos: int, keep: spec_fn(char) -> bool) -> int
    decreases chars.len() - pos,
{
    if 0 <= pos < chars.len() && keep(chars[pos]) {
        run_end(chars, pos + 1, keep)
    } else {
        pos
    }
}

/// The line count after one more newline; it stops at the largest line number
/// the machine can hold.
pub open spec fn next_line(line: nat) -> nat {
    if line < usize::MAX {
        line + 1
    } else {
        line
    }
}

/// The line reached after the characters `chars[from..to]`, starting on `line`.
pub open spec fn line_after(chars: Seq<char>, from: int, to: int, line: nat) -> nat
    decreases to - from,
{
    if from >= to {
        line
    } else if chars[to - 1] == '\n' {
        next_line(line_after(chars, from, to - 1, line))
    } else {
        line_after(chars, from, to - 1, line)
    }
}

/// What the scanner makes of the text at one position.
pub struct Step {
    /// Where the next scan starts.
    pub next: int,
    /// The line at `next`.
    pub line: nat,
    /// The token produced, if any.
    pub token: Option<TokenView>,
    /// The error recorded, if any.
    pub error: Option<LexErrorView>,
}

/// A step that yields a token without payload, made of `chars[pos..end]`.
pub open spec fn plain(chars: Seq<char>, pos: int, end: int, kind: TokenType, line: nat) -> Step {
    Step {
        next: end,
        line,
        token: Some(TokenView { kind, lexeme: chars.subrange(pos, end), literal: None, line }),
        error: None,
    }
}

/// A step that yields nothing and moves to `end`.
pub open spec fn skip(end: int, line: nat) -> Step {
    Step { next: end, line, token: None, error: None }
}

/// Where the numeral that starts at `pos` ends: after its digits, and after a
/// `.` with the digits behind it when a digit follows the `.`.
pub open spec fn number_end(chars: Seq<char>, pos: int) -> int {
    let whole = run_end(chars, pos, |c: char| is_digit(c));
    if whole + 1 < chars.len() && chars[whole] == '.' && is_digit(chars[whole + 1]) {
        run_end(chars, whole + 1, |c: char| is_digit(c))
    } else {
        whole
    }
}

/// The kind of the word `lexeme`: a keyword if it spells one, else an identifier.
pub open spec fn word_kind(lexeme: Seq<char>) -> TokenType {
    match Keyword::lookup(lexeme) {
        Some(k) => TokenType::Keyword(k),
        None => TokenType::Identifier,
    }
}

/// The message recorded for a character that starts no token.
pub open spec fn unexpected_character(c: char) -> Seq<char> {
    "Unexpected character: "@.push(c)
}

/// The scan of one token, comment, blank or error at `pos`, which lies inside
/// the text. Two-character operators win over their one-character prefixes.
pub open spec fn step(chars: Seq<char>, pos: int, line: nat) -> Step {
    let c = chars[pos];
    let twin = pos + 1 < chars.len() && chars[pos + 1] == '=';
    if c == '=' {
        if twin {
            plain(chars, pos, pos + 2, TokenType::EqualEqual, line)
        } else {
            plain(chars, pos, pos + 1, TokenType::Equal, line)
        }
    } else if c == '!' {
        if twin {
            plain(chars, pos, pos + 2, TokenType::BangEqual, line)
        } else {
            plain(chars, pos, pos + 1, TokenType::Bang, line)
        }
    } else if c == '<' {
        if twin {
            plain(chars, pos, pos + 2, TokenType::LessEqual, line)
        } else {
            plain(chars, pos, pos + 1, TokenType::Less, line)
        }
    } else if c == '>' {
        if twin {
            plain(chars, pos, pos + 2, TokenType::GreaterEqual, line)
        } else {
            plain(chars, pos, pos + 1, TokenType::Greater, line)
        }
    } else if c == '(' {
        plain(chars, pos, pos + 1, TokenType::LeftParen, line)
    } else if c == ')' {
        plain(chars, pos, pos + 1, TokenType::RightParen, line)
    } else if c == '{' {
        plain(chars, pos, pos + 1, TokenType::LeftBrace, line)
    } else if c == '}' {
        plain(chars, pos, pos + 1, TokenType::RightBrace, line)
    } else if c == ',' {
        plain(chars, pos, pos + 1, TokenType::Comma, line)
    } else if c == '.' {
        plain(chars, pos, pos + 1, TokenType::Dot, line)
    } else if c == '-' {
        plain(chars, pos, pos + 1, TokenType::Minus, line)
    } else if c == '+' {
        plain(chars, pos, pos + 1, TokenType::Plus, line)
    } else if c == ';' {
        plain(chars, pos, pos + 1, TokenType::Semicolon, line)
    } else if c == '*' {
        plain(chars, pos, pos + 1, TokenType::Star, line)
    } else if c == '\n' {
        skip(pos + 1, next_line(line))
    } else if is_whitespace(c) {
        skip(pos + 1, line)
    } else if c == '/' {
        if pos + 1 < chars.len() && chars[pos + 1] == '/' {
            skip(run_end(chars, pos + 2, |c: char| c != '\n'), line)
        } else {
            plain(chars, pos, pos + 1, TokenType::Slash, line)
        }
    } else if c == '"' {
        let close = run_end(chars, pos + 1, |c: char| c != '"');
        let end_line = line_after(chars, pos + 1, close, line);
        if close < chars.len() {
            Step {
                next: close + 1,
                line: end_line,
                token: Some(
                    TokenView {
                        kind: TokenType::String,
                        lexeme: chars.subrange(pos, close + 1),
                        literal: Some(LiteralView::String(chars.subrange(pos + 1, close))),
                        line: end_line,
                    },
                ),
                error: None,
            }
        } else {
            Step {
                next: close,
                line: end_line,
                token: None,
                error: Some(LexErrorView { line: end_line, message: "Unterminated string."@ }),
            }
        }
    } else if is_digit(c) {
        let end = number_end(chars, pos);
        Step {
            next: end,
            line,
            token: Some(
                TokenView {
                    kind: TokenType::Number,
                    lexeme: chars.subrange(pos, end),
                    literal: Some(LiteralView::Number(chars.subrange(pos, end))),
                    line,
                },
            ),
            error: None,
        }
    } else if is_word_start(c) {
        let end = run_end(chars, pos + 1, |c: char| is_word_part(c));
        plain(chars, pos, end, word_kind(chars.subrange(pos, end)), line)
    } else {
        Step {
            next: pos + 1,
            line,
            token: None,
            error: Some(LexErrorView { line, message: unexpected_character(c) }),
        }
    }
}

/// The tokens and errors of a text, or of the rest of one.
pub struct Lexed {
    pub tokens: Seq<TokenView>,
    pub errors: Seq<LexErrorView>,
}

/// The sequence of no element or one.
pub open spec fn optional<T>(item: Option<T>) -> Seq<T> {
    match item {
        Some(t) => seq![t],
        None => Seq::empty(),
    }
}

/// The end-of-input token on `line`.
pub open spec fn eof_token(line: nat) -> TokenView {
    TokenView { kind: TokenType::Eof, lexeme: Seq::empty(), literal: None, line }
}

/// The tokens and errors of `chars[pos..]`, scanned from line `line`. The
/// tokens end with the end-of-input token.
pub open spec fn lex_from(chars: Seq<char>, pos: int, line: nat) -> Lexed
    decreases chars.len() - pos,
{
    if pos < 0 || pos >= chars.len() {
        Lexed { tokens: seq![eof_token(line)], errors: Seq::empty() }
    } else {
        let s = step(chars, pos, line);
        if s.next <= pos || s.next > chars.len() {
            Lexed { tokens: seq![eof_token(line)], errors: Seq::empty() }
        } else {
            let rest = lex_from(chars, s.next, s.line);
            Lexed {
                tokens: optional(s.token) + rest.tokens,
                errors: optional(s.error) + rest.errors,
            }
        }
    }
}

/// The tokens and errors of a whole text.
pub open spec fn lex(chars: Seq<char>) -> Lexed {
    lex_from(chars, 0, 1)
}

/// A run ends at or after its start and inside the text, every character
/// before its end is kept, and the one at its end is not.
pub proof fn lemma_run_end(chars: Seq<char>, pos: int, keep: spec_fn(char) -> bool)
    requires
        0 <= pos <= chars.len(),
    ensures
        pos <= run_end(chars, pos, keep) <= chars.len(),
        forall|i: int| pos <= i < run_end(chars, pos, keep) ==> keep(#[trigger] chars[i]),
        run_end(chars, pos, keep) < chars.len() ==> !keep(chars[run_end(chars, pos, keep)]),
    decreases chars.len() - pos,
{
    if pos < chars.len() && keep(chars[pos]) {
        lemma_run_end(chars, pos + 1, keep);
    }
}

/// A run that is entered in its middle ends where the whole run ends.
pub proof fn lemma_run_end_resume(
    chars: Seq<char>,
    pos: int,
    mid: int,
    keep: spec_fn(char) -> bool,
)
    requires
        0 <= pos <= mid <= chars.len(),
        forall|i: int| pos <= i < mid ==> keep(#[trigger] chars[i]),
    ensures
        run_end(chars, pos, keep) == run_end(chars, mid, keep),
    decreases mid - pos,
{
    if pos < mid {
        lemma_run_end_resume(chars, pos + 1, mid, keep);
    }
}

/// Every step moves forward and stays inside the text.
pub proof fn lemma_step_advances(chars: Seq<char>, pos: int, line: nat)
    requires
        0 <= pos < chars.len(),
    ensures
        pos < step(chars, pos, line).next <= chars.len(),
{
    lemma_run_end(chars, pos + 1, |c: char| c != '"');
    lemma_run_end(chars, pos + 1, |c: char| is_word_part(c));
    lemma_run_end(chars, pos, |c: char| is_digit(c));
    let whole = run_end(chars, pos, |c: char| is_digit(c));
    if whole + 1 <= chars.len() {
        lemma_run_end(chars, whole + 1, |c: char| is_digit(c));
    }
    if pos + 2 <= chars.len() {
        lemma_run_end(chars, pos + 2, |c: char| c != '\n');
    }
}

/// The tokens of a text end with the end-of-input token.
pub proof fn lemma_lex_ends_with_eof(chars: Seq<char>, pos: int, line: nat)
    ensures
        lex_from(chars, pos, line).tokens.len() > 0,
        lex_from(chars, pos, line).tokens.last().kind == TokenType::Eof,
    decreases chars.len() - pos,
{
    if 0 <= pos < chars.len() {
        let s = step(chars, pos, line);
        if pos < s.next <= chars.len() {
            lemma_lex_ends_with_eof(chars, s.next, s.line);
        }
    }
}

/// The scanner's state: the text, the extent of the token being scanned, the
/// current line, and what has been produced so far.
pub struct Scanner {
    chars: Vec<char>,
    line: usize,
    start: usize,
    current: usize,
    errors: Vec<LexError>,
    pub tokens: TokenArray,
}

impl Scanner {
    /// The text being scanned.
    pub closed spec fn source(&self) -> Seq<char> {
        self.chars@
    }

    /// The position of the next character to read.
    pub closed spec fn position(&self) -> int {
        self.current as int
    }

    /// The line of the next character to read.
    pub closed spec fn line(&self) -> nat {
        self.line as nat
    }

    /// The tokens produced so far.
    pub closed spec fn produced(&self) -> Seq<TokenView> {
        self.tokens@
    }

    /// The errors recorded so far.
    pub closed spec fn errors(&self) -> Seq<LexErrorView> {
        error_views(self.errors@)
    }

    /// The state is consistent: the token under scan lies inside the text.
    pub closed spec fn wf(&self) -> bool {
        self.start <= self.current <= self.chars.len()
    }

    /// A scanner at the start of `input`.
    pub fn new(input: &str) -> (r: Self)
        ensures
            r.wf(),
            r.source() == input@,
            r.position() == 0,
            r.line() == 1,
            r.produced() == Seq::<TokenView>::empty(),
            r.errors() == Seq::<LexErrorView>::empty(),
    {
        let r = Scanner {
            chars: chars_of(input),
            line: 1,
            start: 0,
            current: 0,
            errors: Vec::new(),
            tokens: TokenArray { tokens: Vec::new() },
        };
        assert(r.tokens@ =~= Seq::<TokenView>::empty());
        assert(r.errors() =~= Seq::<LexErrorView>::empty());
        r
    }

    fn begin_token(&mut self)
        requires
            old(self).wf(),
        ensures
            final(self).wf(),
            final(self).start == old(self).current,
            final(self).current == old(self).current,
            final(self).line == old(self).line,
            final(self).chars == old(self).chars,
            final(self).tokens == old(self).tokens,
            final(self).errors == old(self).errors,
    {
        self.start = self.current;
    }

    fn advance(&mut self) -> (r: Option<char>)
        requires
            old(self).wf(),
        ensures
            final(self).wf(),
            final(self).start == old(self).start,
            final(self).line == old(self).line,
            final(self).chars == old(self).chars,
            final(self).tokens == old(self).tokens,
            final(self).errors == old(self).errors,
            old(self).current < old(self).chars.len() ==> r == Some(
                old(self).chars@[old(self).current as int],
            ) && final(self).current == old(self).current + 1,
            old(self).current >= old(self).chars.len() ==> r.is_none() && final(self).current
                == old(self).current,
    {
        if self.current < self.chars.len() {
            let c = self.chars[self.current];
            self.current = self.current + 1;
            Some(c)
        } else {
            None
        }
    }

    fn peek(&self) -> (r: Option<char>)
        requires
            self.wf(),
        ensures
            self.current < self.chars.len() ==> r == Some(self.chars@[self.current as int]),
            self.current >= self.chars.len() ==> r.is_none(),
    {
        if self.current < self.chars.len() {
            Some(self.chars[self.current])
        } else {
            None
        }
    }

    fn get_lexeme(&self) -> (r: String)
        requires
            self.wf(),
        ensures
            r@ == self.chars@.subrange(self.start as int, self.current as int),
    {
        text_of(&self.chars, self.start, self.current)
    }

    fn make_token(&mut self, token_type: TokenType, literal: Option<Literal>)
        requires
            old(self).wf(),
        ensures
            final(self).wf(),
            final(self).start == old(self).start,
            final(self).current == old(self).current,
            final(self).line == old(self).line,
            final(self).chars == old(self).chars,
            final(self).errors == old(self).errors,
            final(self).tokens@ == old(self).tokens@.push(
                TokenView {
                    kind: token_type,
                    lexeme: old(self).chars@.subrange(
                        old(self).start as int,
                        old(self).current as int,
                    ),
                    literal: match literal {
                        Some(l) => Some(l@),
                        None => None,
                    },
                    line: old(self).line as nat,
                },
            ),
    {
        let lexeme = self.get_lexeme();
        let token = Token::new(token_type, lexeme, literal, self.line);
        self.tokens.push(token);
    }

    fn report(&mut self, message: String)
        requires
            old(self).wf(),
        ensures
            final(self).wf(),
            final(self).start == old(self).start,
            final(self).current == old(self).current,
            final(self).line == old(self).line,
            final(self).chars == old(self).chars,
            final(self).tokens == old(self).tokens,
            final(self).errors() == old(self).errors().push(
                LexErrorView { line: old(self).line as nat, message: message@ },
            ),
    {
        let error = LexError { line: self.line, message };
        self.errors.push(error);
        assert(self.errors() =~= old(self).errors().push(error@));
    }

    /// Scans the whole text: every token, then the end-of-input token. Errors
    /// are recorded and do not stop the scan.
    pub fn scan_tokens(&mut self)
        requires
            old(self).wf(),
        ensures
            final(self).wf(),
            final(self).source() == old(self).source(),
            final(self).position() == final(self).source().len(),
            final(self).produced() == old(self).produced() + lex_from(
                old(self).source(),
                old(self).position(),
                old(self).line(),
            ).tokens,
            final(self).errors() == old(self).errors() + lex_from(
                old(self).source(),
                old(self).position(),
                old(self).line(),
            ).errors,
    {
        while self.current < self.chars.len()
            invariant
                self.wf(),
                self.chars == old(self).chars,
                self.tokens@ + lex_from(self.chars@, self.current as int, self.line as nat).tokens
                    == old(self).tokens@ + lex_from(
                    old(self).chars@,
                    old(self).current as int,
                    old(self).line as nat,
                ).tokens,
                self.errors() + lex_from(self.chars@, self.current as int, self.line as nat).errors
                    == old(self).errors() + lex_from(
                    old(self).chars@,
                    old(self).current as int,
                    old(self).line as nat,
                ).errors,
            decreases self.chars.len() - self.current,
        {
            let ghost before_tokens = self.tokens@;
            let ghost before_errors = self.errors();
            let ghost pos = self.current as int;
            let ghost line = self.line as nat;
            self.scan_token();
            proof {
                let s = step(self.chars@, pos, line);
                lemma_step_advances(self.chars@, pos, line);
                let rest = lex_from(self.chars@, s.next, s.line);
                assert((before_tokens + optional(s.token)) + rest.tokens =~= before_tokens + (
                optional(s.token) + rest.tokens));
                assert((before_errors + optional(s.error)) + rest.errors =~= before_errors + (
                optional(s.error) + rest.errors));
            }
        }
        self.begin_token();
        self.make_token(TokenType::Eof, None);
        proof {
            let done = lex_from(self.chars@, self.current as int, self.line as nat);
            assert(self.chars@.subrange(self.current as int, self.current as int)
                =~= Seq::<char>::empty());
            assert(done.errors =~= Seq::<LexErrorView>::empty());
            assert(self.errors() + done.errors =~= self.errors());
        }
    }

    /// Scans one token, comment, blank or error at the current position.
    fn scan_token(&mut self)
        requires
            old(self).wf(),
            old(self).current < old(self).chars.len(),
        ensures
            final(self).wf(),
            final(self).chars == old(self).chars,
            old(self).current < final(self).current,
            final(self).current == step(
                old(self).chars@,
                old(self).current as int,
                old(self).line as nat,
            ).next,
            final(self).line == step(
                old(self).chars@,
                old(self).current as int,
                old(self).line as nat,
            ).line,
            final(self).tokens@ == old(self).tokens@ + optional(
                step(old(self).chars@, old(self).current as int, old(self).line as nat).token,
            ),
            final(self).errors() == old(self).errors() + optional(
                step(old(self).chars@, old(self).current as int, old(self).line as nat).error,
            ),
    {
        let ghost chars = self.chars@;
        let ghost pos = self.current as int;
        self.begin_token();
        let c = match self.advance() {
            Some(c) => c,
            None => {
                return ;
            },
        };
        if c == '=' {
            self.operator(TokenType::EqualEqual, TokenType::Equal);
        } else if c == '!' {
            self.operator(TokenType::BangEqual, TokenType::Bang);
        } else if c == '<' {
            self.operator(TokenType::LessEqual, TokenType::Less);
        } else if c == '>' {
            self.operator(TokenType::GreaterEqual, TokenType::Greater);
        } else if c == '(' {
            self.make_token(TokenType::LeftParen, None);
        } else if c == ')' {
            self.make_token(TokenType::RightParen, None);
        } else if c == '{' {
            self.make_token(TokenType::LeftBrace, None);
        } else if c == '}' {
            self.make_token(TokenType::RightBrace, None);
        } else if c == ',' {
            self.make_token(TokenType::Comma, None);
        } else if c == '.' {
            self.make_token(TokenType::Dot, None);
        } else if c == '-' {
            self.make_token(TokenType::Minus, None);
        } else if c == '+' {
            self.make_token(TokenType::Plus, None);
        } else if c == ';' {
            self.make_token(TokenType::Semicolon, None);
        } else if c == '*' {
            self.make_token(TokenType::Star, None);
        } else if c == '\n' {
            self.count_line();
        } else if char_is_whitespace(c) {
        } else if c == '/' {
            if self.peek() == Some('/') {
                self.advance();
                while self.current < self.chars.len() && self.chars[self.current] != '\n'
                    invariant
                        self.wf(),
                        self.chars@ == chars,
                        self.chars == old(self).chars,
                        self.tokens == old(self).tokens,
                        self.errors == old(self).errors,
                        self.line == old(self).line,
                        pos + 2 <= self.current,
                        forall|i: int| pos + 2 <= i < self.current ==> #[trigger] chars[i] != '\n',
                    decreases self.chars.len() - self.current,
                {
                    self.advance();
                }
                proof {
                    lemma_run_end_resume(chars, pos + 2, self.current as int, |c: char| c != '\n');
                    lemma_run_end(chars, self.current as int, |c: char| c != '\n');
                }
            } else {
                self.make_token(TokenType::Slash, None);
            }
        } else if c == '"' {
            self.scan_string();
        } else if c >= '0' && c <= '9' {
            self.scan_number();
        } else if char_is_alphabetic(c) || c == '_' {
            self.scan_word();
        } else {
            let mut message = String::new();
            push_text(&mut message, "Unexpected character: ");
            push_char(&mut message, c);
            assert(message@ =~= unexpected_character(c));
            self.report(message);
        }
        proof {
            let s = step(chars, pos, old(self).line as nat);
            lemma_step_advances(chars, pos, old(self).line as nat);
            assert(self.tokens@ =~= old(self).tokens@ + optional(s.token));
            assert(self.errors() =~= old(self).errors() + optional(s.error));
        }
    }

    /// Makes the two-character operator if `=` follows, else the one-character one.
    fn operator(&mut self, double: TokenType, single: TokenType)
        requires
            old(self).wf(),
            old(self).current == old(self).start + 1,
        ensures
            final(self).wf(),
            final(self).chars == old(self).chars,
            final(self).line == old(self).line,
            final(self).errors == old(self).errors,
            ({
                let chars = old(self).chars@;
                let pos = old(self).start as int;
                let twin = pos + 1 < chars.len() && chars[pos + 1] == '=';
                &&& final(self).current == if twin {
                    pos + 2
                } else {
                    pos + 1
                }
                &&& final(self).tokens@ == old(self).tokens@.push(
                    TokenView {
                        kind: if twin {
                            double
                        } else {
                            single
                        },
                        lexeme: chars.subrange(pos, final(self).current as int),
                        literal: None,
                        line: old(self).line as nat,
                    },
                )
            }),
    {
        if self.peek() == Some('=') {
            self.advance();
            self.make_token(double, None);
        } else {
            self.make_token(single, None);
        }
    }

    fn count_line(&mut self)
        requires
            old(self).wf(),
        ensures
            final(self).wf(),
            final(self).start == old(self).start,
            final(self).current == old(self).current,
            final(self).line == next_line(old(self).line as nat),
            final(self).chars == old(self).chars,
            final(self).tokens == old(self).tokens,
            final(self).errors == old(self).errors,
    {
        if self.line < usize::MAX {
            self.line = self.line + 1;
        }
    }

    /// Scans the rest of a word whose first character has been read.
    fn scan_word(&mut self)
        requires
            old(self).wf(),
            old(self).current == old(self).start + 1,
        ensures
            final(self).wf(),
            final(self).chars == old(self).chars,
            final(self).line == old(self).line,
            final(self).errors == old(self).errors,
            final(self).current == run_end(
                old(self).chars@,
                old(self).start + 1,
                |c: char| is_word_part(c),
            ),
            final(self).tokens@ == old(self).tokens@.push(
                TokenView {
                    kind: word_kind(
                        old(self).chars@.subrange(
                            old(self).start as int,
                            final(self).current as int,
                        ),
                    ),
                    lexeme: old(self).chars@.subrange(
                        old(self).start as int,
                        final(self).current as int,
                    ),
                    literal: None,
                    line: old(self).line as nat,
                },
            ),
    {
        let ghost chars = self.chars@;
        let ghost first = self.current as int;
        loop
            invariant
                self.wf(),
                self.chars == old(self).chars,
                self.tokens == old(self).tokens,
                self.errors == old(self).errors,
                self.line == old(self).line,
                self.start == old(self).start,
                self.chars@ == chars,
                0 <= first <= self.current,
                forall|i: int| first <= i < self.current ==> is_word_part(#[trigger] chars[i]),
            ensures
                self.current == run_end(chars, first, |c: char| is_word_part(c)),
            decreases self.chars.len() - self.current,
        {
            let more = match self.peek() {
                Some(next_char) => char_is_alphanumeric(next_char) || next_char == '_',
                None => false,
            };
            if !more {
                proof {
                    lemma_run_end_resume(
                        chars,
                        first,
                        self.current as int,
                        |c: char| is_word_part(c),
                    );
                }
                break ;
            }
            self.advance();
        }
        let lexeme = self.get_lexeme();
        let token_type = match Keyword::from_str(lexeme.as_str()) {
            Some(keyword) => TokenType::Keyword(keyword),
            None => TokenType::Identifier,
        };
        self.make_token(token_type, None);
    }

    /// Scans the rest of a numeral whose first digit has been read.
    fn scan_number(&mut self)
        requires
            old(self).wf(),
            old(self).current == old(self).start + 1,
            is_digit(old(self).chars@[old(self).start as int]),
        ensures
            final(self).wf(),
            final(self).chars == old(self).chars,
            final(self).line == old(self).line,
            final(self).errors == old(self).errors,
            final(self).current == number_end(old(self).chars@, old(self).start as int),
            final(self).tokens@ == old(self).tokens@.push(
                TokenView {
                    kind: TokenType::Number,
                    lexeme: old(self).chars@.subrange(
                        old(self).start as int,
                        final(self).current as int,
                    ),
                    literal: Some(
                        LiteralView::Number(
                            old(self).chars@.subrange(
                                old(self).start as int,
                                final(self).current as int,
                            ),
                        ),
                    ),
                    line: old(self).line as nat,
                },
            ),
    {
        let ghost chars = self.chars@;
        let ghost pos = self.start as int;
        self.digits(Ghost(pos));
        let ghost whole = self.current as int;
        if self.current < self.chars.len() && self.chars[self.current] == '.' && self.current + 1
            < self.chars.len() && self.chars[self.current + 1] >= '0' && self.chars[self.current
            + 1] <= '9' {
            self.advance();
            self.digits(Ghost(whole + 1));
        }
        let numeral = self.get_lexeme();
        self.make_token(TokenType::Number, Some(Literal::Number(numeral)));
    }

    /// Reads on to the end of the run of digits that starts at `first`.
    fn digits(&mut self, Ghost(first): Ghost<int>)
        requires
            old(self).wf(),
            0 <= first <= old(self).current,
            forall|i: int|
                first <= i < old(self).current ==> is_digit(#[trigger] old(self).chars@[i]),
        ensures
            final(self).wf(),
            final(self).chars == old(self).chars,
            final(self).start == old(self).start,
            final(self).line == old(self).line,
            final(self).tokens == old(self).tokens,
            final(self).errors == old(self).errors,
            final(self).current == run_end(old(self).chars@, first, |c: char| is_digit(c)),
            old(self).current <= final(self).current,
    {
        let ghost chars = self.chars@;
        while self.current < self.chars.len() && self.chars[self.current] >= '0'
            && self.chars[self.current] <= '9'
            invariant
                self.wf(),
                self.chars == old(self).chars,
                self.tokens == old(self).tokens,
                self.errors == old(self).errors,
                self.line == old(self).line,
                self.start == old(self).start,
                old(self).current <= self.current,
                self.chars@ == chars,
                0 <= first,
                forall|i: int| first <= i < self.current ==> is_digit(#[trigger] chars[i]),
            decreases self.chars.len() - self.current,
        {
            self.advance();
        }
        proof {
            lemma_run_end_resume(chars, first, self.current as int, |c: char| is_digit(c));
        }
    }

    /// Scans the rest of a string literal whose opening quote has been read.
    fn scan_string(&mut self)
        requires
            old(self).wf(),
            old(self).current == old(self).start + 1,
        ensures
            final(self).wf(),
            final(self).chars == old(self).chars,
            ({
                let chars = old(self).chars@;
                let pos = old(self).start as int;
                let close = run_end(chars, pos + 1, |c: char| c != '"');
                let end_line = line_after(chars, pos + 1, close, old(self).line as nat);
                &&& final(self).line == end_line
                &&& close < chars.len() ==> {
                    &&& final(self).current == close + 1
                    &&& final(self).errors() == old(self).errors()
                    &&& final(self).tokens@ == old(self).tokens@.push(
                        TokenView {
                            kind: TokenType::String,
                            lexeme: chars.subrange(pos, close + 1),
                            literal: Some(LiteralView::String(chars.subrange(pos + 1, close))),
                            line: end_line,
                        },
                    )
                }
                &&& close >= chars.len() ==> {
                    &&& final(self).current == close
                    &&& final(self).tokens == old(self).tokens
                    &&& final(self).errors() == old(self).errors().push(
                        LexErrorView { line: end_line, message: "Unterminated string."@ },
                    )
                }
            }),
    {
        let ghost chars = self.chars@;
        let ghost pos = self.start as int;
        let ghost line = self.line as nat;
        while self.current < self.chars.len() && self.chars[self.current] != '"'
            invariant
                self.wf(),
                self.chars == old(self).chars,
                self.chars@ == chars,
                self.tokens == old(self).tokens,
                self.errors == old(self).errors,
                self.start == old(self).start,
                pos + 1 <= self.current,
                self.line == line_after(chars, pos + 1, self.current as int, line),
                forall|i: int| pos + 1 <= i < self.current ==> #[trigger] chars[i] != '"',
            decreases self.chars.len() - self.current,
        {
            if self.chars[self.current] == '\n' {
                self.count_line();
            }
            self.advance();
        }
        proof {
            lemma_run_end_resume(chars, pos + 1, self.current as int, |c: char| c != '"');
        }
        if self.current < self.chars.len() {
            let text = text_of(&self.chars, self.start + 1, self.current);
            self.advance();
            self.make_token(TokenType::String, Some(Literal::String(text)));
        } else {
            let mut message = String::new();
            push_text(&mut message, "Unterminated string.");
            assert(message@ =~= "Unterminated string."@);
            self.report(message);
        }
    }

    /// Whether any lexical error has been recorded.
    pub fn had_error(&self) -> (r: bool)
        ensures
            r == (self.errors().len() > 0),
    {
        self.errors.len() > 0
    }

    /// Hands over the tokens produced so far.
    pub fn into_tokens(self) -> (r: TokenArray)
        ensures
            r@ == self.produced(),
    {
        self.tokens
    }

    /// The lexical errors recorded so far, oldest first.
    pub fn lexical_errors(&self) -> (r: &Vec<LexError>)
        ensures
            error_views(r@) == self.errors(),
    {
        &self.errors
    }
}

/// Scans `input` into its tokens; the last one is the end-of-input token.
/// Lexical errors do not stop the scan: the tokens are those of the text with
/// the offending characters left out.
pub fn scan(input: &str) -> (r: TokenArray)
    ensures
        r@ == lex(input@).tokens,
        r@.len() > 0,
        r@.last().kind == TokenType::Eof,
{
    let mut scanner = Scanner::new(input);
    scanner.scan_tokens();
    proof {
        assert(scanner.produced() =~= lex(input@).tokens);
        lemma_lex_ends_with_eof(input@, 0, 1);
    }
    scanner.into_tokens()
}

} // verus!
