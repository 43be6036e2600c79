//! The token model: kinds, literal payloads and the token itself.

use vstd::prelude::*;
use crate::text::{push_text, str_equals};

verus! {

/// The reserved words of the language.
#[derive(Debug, Clone, Copy, PartialEq, Eq, Structural)]
pub enum Keyword {
    And,
    Class,
    Else,
    False,
    For,
    Fun,
    If,
    Nil,
    Or,
    Print,
    Return,
    Super,
    This,
    True,
    Var,
    While,
}

impl Keyword {
    /// The spelling of the keyword in source text.
    pub open spec fn text(self) -> Seq<char> {
        match self {
            Keyword::And => "and"@,
            Keyword::Class => "class"@,
            Keyword::Else => "else"@,
            Keyword::False => "false"@,
            Keyword::For => "for"@,
            Keyword::Fun => "fun"@,
            Keyword::If => "if"@,
            Keyword::Nil => "nil"@,
            Keyword::Or => "or"@,
            Keyword::Print => "print"@,
            Keyword::Return => "return"@,
            Keyword::Super => "super"@,
            Keyword::This => "this"@,
            Keyword::True => "true"@,
            Keyword::Var => "var"@,
            Keyword::While => "while"@,
        }
    }

    /// The keyword spelled `s`, if there is one.
    pub open spec fn lookup(s: Seq<char>) -> Option<Keyword> {
        if exists|k: Keyword| k.text() == s {
            Some(choose|k: Keyword| k.text() == s)
        } else {
            None
        }
    }

    /// No two keywords share a spelling.
    pub proof fn lemma_text_injective(a: Keyword, b: Keyword)
        requires
            a.text() == b.text(),
        ensures
            a == b,
    {
        reveal_strlit("and");
        reveal_strlit("class");
        reveal_strlit("else");
        reveal_strlit("false");
        reveal_strlit("for");
        reveal_strlit("fun");
        reveal_strlit("if");
        reveal_strlit("nil");
        reveal_strlit("or");
        reveal_strlit("print");
        reveal_strlit("return");
        reveal_strlit("super");
        reveal_strlit("this");
        reveal_strlit("true");
        reveal_strlit("var");
        reveal_strlit("while");
        if a != b {
            let s = a.text();
            let t = b.text();
            assert(s.len() == t.len());
            assert(s[0] == t[0]);
            assert(s[1] == t[1]);
            if s.len() > 2 {
                assert(s[2] == t[2]);
            }
        }
    }

    /// A keyword is found under its own spelling, and under no other.
    pub proof fn lemma_lookup(s: Seq<char>)
        ensures
            match Keyword::lookup(s) {
                Some(k) => k.text() == s,
                None => forall|k: Keyword| k.text() != s,
            },
            forall|k: Keyword| k.text() == s ==> Keyword::lookup(s) == Some(k),
    {
        assert forall|k: Keyword| k.text() == s implies Keyword::lookup(s) == Some(k) by {
            let found = choose|k: Keyword| k.text() == s;
            Keyword::lemma_text_injective(found, k);
        }
    }

    /// Recognises a reserved word by its exact spelling.
    pub fn from_str(s: &str) -> (r: Option<Keyword>)
        ensures
            r == Keyword::lookup(s@),
    {
        let r = if str_equals(s, "and") {
            Some(Keyword::And)
        } else if str_equals(s, "class") {
            Some(Keyword::Class)
        } else if str_equals(s, "else") {
            Some(Keyword::Else)
        } else if str_equals(s, "false") {
            Some(Keyword::False)
        } else if str_equals(s, "for") {
            Some(Keyword::For)
        } else if str_equals(s, "fun") {
            Some(Keyword::Fun)
        } else if str_equals(s, "if") {
            Some(Keyword::If)
        } else if str_equals(s, "nil") {
            Some(Keyword::Nil)
        } else if str_equals(s, "or") {
            Some(Keyword::Or)
        } else if str_equals(s, "print") {
            Some(Keyword::Print)
        } else if str_equals(s, "return") {
            Some(Keyword::Return)
        } else if str_equals(s, "super") {
            Some(Keyword::Super)
        } else if str_equals(s, "this") {
            Some(Keyword::This)
        } else if str_equals(s, "true") {
            Some(Keyword::True)
        } else if str_equals(s, "var") {
            Some(Keyword::Var)
        } else if str_equals(s, "while") {
            Some(Keyword::While)
        } else {
            None
        };
        proof {
            Keyword::lemma_lookup(s@);
            match r {
                Some(k) => {
                    assert(k.text() == s@);
                },
                None => {
                    assert forall|k: Keyword| k.text() != s@ by {
                        match k {
                            Keyword::And => {},
                            Keyword::Class => {},
                            Keyword::Else => {},
                            Keyword::False => {},
                            Keyword::For => {},
                            Keyword::Fun => {},
                            Keyword::If => {},
                            Keyword::Nil => {},
                            Keyword::Or => {},
                            Keyword::Print => {},
                            Keyword::Return => {},
                            Keyword::Super => {},
                            Keyword::This => {},
                            Keyword::True => {},
                            Keyword::Var => {},
                            Keyword::While => {},
                        }
                    }
                },
            }
        }
        r
    }

    /// The name of the variant, as written in this file.
    pub open spec fn variant_name(self) -> Seq<char> {
        match self {
            Keyword::And => "And"@,
            Keyword::Class => "Class"@,
            Keyword::Else => "Else"@,
            Keyword::False => "False"@,
            Keyword::For => "For"@,
            Keyword::Fun => "Fun"@,
            Keyword::If => "If"@,
            Keyword::Nil => "Nil"@,
            Keyword::Or => "Or"@,
            Keyword::Print => "Print"@,
            Keyword::Return => "Return"@,
            Keyword::Super => "Super"@,
            Keyword::This => "This"@,
            Keyword::True => "True"@,
            Keyword::Var => "Var"@,
            Keyword::While => "While"@,
        }
    }

    pub fn name(self) -> (r: &'static str)
        ensures
            r@ == self.variant_name(),
    {
        match self {
            Keyword::And => "And",
            Keyword::Class => "Class",
            Keyword::Else => "Else",
            Keyword::False => "False",
            Keyword::For => "For",
            Keyword::Fun => "Fun",
            Keyword::If => "If",
            Keyword::Nil => "Nil",
            Keyword::Or => "Or",
            Keyword::Print => "Print",
            Keyword::Return => "Return",
            Keyword::Super => "Super",
            Keyword::This => "This",
            Keyword::True => "True",
            Keyword::Var => "Var",
            Keyword::While => "While",
        }
    }
}

/// The kind of a token.
#[derive(Debug, Clone, Copy, PartialEq, Eq, Structural)]
pub enum TokenType {
    // Single-character tokens.
    LeftBrace,
    RightBrace,
    LeftParen,
    RightParen,
    Comma,
    Dot,
    Minus,
    Plus,
    Semicolon,
    Slash,
    Star,
    Eof,
    // Literals.
    String,
    Number,
    // One or two character tokens.
    Equal,
    EqualEqual,
    Bang,
    BangEqual,
    Less,
    LessEqual,
    Greater,
    GreaterEqual,
    // Identifiers.
    Identifier,
    // Keywords.
    Keyword(Keyword),
}

/// What `heck` makes of `s` in SHOUTY_SNAKE_CASE: words split at
/// non-alphanumeric characters and case changes, upper-cased and joined by `_`.
pub uninterp spec fn shouty_snake_case(s: Seq<char>) -> Seq<char>;

/// `heck::ToShoutySnakeCase::to_shouty_snake_case` on a string slice. The
/// conversion reads nothing but its argument, so its result is named.
#[verifier::external_body]
fn to_shouty_snake_case(s: &str) -> (r: String)
    ensures
        r@ == shouty_snake_case(s@),
{
    heck::ToShoutySnakeCase::to_shouty_snake_case(s)
}

impl TokenType {
    /// The name of the variant, as written in this file; a keyword goes by the
    /// name of the keyword's own variant.
    pub open spec fn variant_name(self) -> Seq<char> {
        match self {
            TokenType::LeftBrace => "LeftBrace"@,
            TokenType::RightBrace => "RightBrace"@,
            TokenType::LeftParen => "LeftParen"@,
            TokenType::RightParen => "RightParen"@,
            TokenType::Comma => "Comma"@,
            TokenType::Dot => "Dot"@,
            TokenType::Minus => "Minus"@,
            TokenType::Plus => "Plus"@,
            TokenType::Semicolon => "Semicolon"@,
            TokenType::Slash => "Slash"@,
            TokenType::Star => "Star"@,
            TokenType::Eof => "Eof"@,
            TokenType::String => "String"@,
            TokenType::Number => "Number"@,
            TokenType::Equal => "Equal"@,
            TokenType::EqualEqual => "EqualEqual"@,
            TokenType::Bang => "Bang"@,
            TokenType::BangEqual => "BangEqual"@,
            TokenType::Less => "Less"@,
            TokenType::LessEqual => "LessEqual"@,
            TokenType::Greater => "Greater"@,
            TokenType::GreaterEqual => "GreaterEqual"@,
            TokenType::Identifier => "Identifier"@,
            TokenType::Keyword(k) => k.variant_name(),
        }
    }

    pub fn name(self) -> (r: &'static str)
        ensures
            r@ == self.variant_name(),
    {
        match self {
            TokenType::LeftBrace => "LeftBrace",
            TokenType::RightBrace => "RightBrace",
            TokenType::LeftParen => "LeftParen",
            TokenType::RightParen => "RightParen",
            TokenType::Comma => "Comma",
            TokenType::Dot => "Dot",
            TokenType::Minus => "Minus",
            TokenType::Plus => "Plus",
            TokenType::Semicolon => "Semicolon",
            TokenType::Slash => "Slash",
            TokenType::Star => "Star",
            TokenType::Eof => "Eof",
            TokenType::String => "String",
            TokenType::Number => "Number",
            TokenType::Equal => "Equal",
            TokenType::EqualEqual => "EqualEqual",
            TokenType::Bang => "Bang",
            TokenType::BangEqual => "BangEqual",
            TokenType::Less => "Less",
            TokenType::LessEqual => "LessEqual",
            TokenType::Greater => "Greater",
            TokenType::GreaterEqual => "GreaterEqual",
            TokenType::Identifier => "Identifier",
            TokenType::Keyword(k) => k.name(),
        }
    }

    /// The display form of the kind.
    pub open spec fn display(self) -> Seq<char> {
        shouty_snake_case(self.variant_name())
    }

    /// The kind in SHOUTY_SNAKE_CASE, such as `LEFT_BRACE` or `AND`.
    pub fn to_string(&self) -> (r: String)
        ensures
            r@ == self.display(),
    {
        to_shouty_snake_case(self.name())
    }
}

/// The payload of a literal token.
#[derive(Debug, PartialEq, Eq)]
pub enum Literal {
    /// The characters between the quotes.
    String(String),
    /// The numeral exactly as written: digits, with at most one `.` inside.
    Number(String),
    Boolean(bool),
    Nil,
}

/// The mathematical content of a [`Literal`].
pub enum LiteralView {
    String(Seq<char>),
    Number(Seq<char>),
    Boolean(bool),
    Nil,
}

impl View for Literal {
    type V = LiteralView;

    open spec fn view(&self) -> LiteralView {
        match self {
            Literal::String(s) => LiteralView::String(s@),
            Literal::Number(n) => LiteralView::Number(n@),
            Literal::Boolean(b) => LiteralView::Boolean(*b),
            Literal::Nil => LiteralView::Nil,
        }
    }
}

impl Clone for Literal {
    fn clone(&self) -> (r: Self)
        ensures
            r == *self,
    {
        match self {
            Literal::String(s) => Literal::String(s.clone()),
            Literal::Number(n) => Literal::Number(n.clone()),
            Literal::Boolean(b) => Literal::Boolean(*b),
            Literal::Nil => Literal::Nil,
        }
    }
}

/// Whether `numeral` holds a `.`.
pub open spec fn has_point(numeral: Seq<char>) -> bool {
    numeral.contains('.')
}

impl LiteralView {
    /// The display form of the payload. A numeral without a fraction is shown
    /// with `.0` after it.
    pub open spec fn display(self) -> Seq<char> {
        match self {
            LiteralView::String(s) => s,
            LiteralView::Number(n) => if has_point(n) {
                n
            } else {
                n + ".0"@
            },
            LiteralView::Boolean(b) => if b {
                "true"@
            } else {
                "false"@
            },
            LiteralView::Nil => "nil"@,
        }
    }
}

/// Whether `text` holds the character `wanted`.
pub fn contains_char(text: &str, wanted: char) -> (r: bool)
    ensures
        r == text@.contains(wanted),
{
    let chars = crate::text::chars_of(text);
    let mut i: usize = 0;
    while i < chars.len()
        invariant
            i <= chars.len(),
            chars@ == text@,
            forall|j: int| 0 <= j < i ==> chars@[j] != wanted,
        decreases chars.len() - i,
    {
        if chars[i] == wanted {
            return true;
        }
        i = i + 1;
    }
    false
}

impl Literal {
    /// The payload as text.
    pub fn to_string(&self) -> (r: String)
        ensures
            r@ == self@.display(),
    {
        match self {
            Literal::String(s) => s.clone(),
            Literal::Number(n) => {
                let mut out = n.clone();
                if !contains_char(n.as_str(), '.') {
                    push_text(&mut out, ".0");
                }
                out
            },
            Literal::Boolean(b) => {
                let mut out = String::new();
                if *b {
                    push_text(&mut out, "true");
                } else {
                    push_text(&mut out, "false");
                }
                assert(out@ =~= self@.display());
                out
            },
            Literal::Nil => {
                let mut out = String::new();
                push_text(&mut out, "nil");
                assert(out@ =~= self@.display());
                out
            },
        }
    }
}

/// One lexical unit of the source text.
#[derive(Debug, PartialEq, Eq)]
pub struct Token {
    pub token_type: TokenType,
    /// The exact source text the token was scanned from.
    pub lexeme: String,
    pub literal: Option<Literal>,
    /// The line the token ends on, counted from one.
    pub line: usize,
}

/// The mathematical content of a [`Token`].
pub struct TokenView {
    pub kind: TokenType,
    pub lexeme: Seq<char>,
    pub literal: Option<LiteralView>,
    pub line: nat,
}

impl View for Token {
    type V = TokenView;

    open spec fn view(&self) -> TokenView {
        TokenView {
            kind: self.token_type,
            lexeme: self.lexeme@,
            literal: match self.literal {
                Some(l) => Some(l@),
                None => None,
            },
            line: self.line as nat,
        }
    }
}

impl Clone for Token {
    fn clone(&self) -> (r: Self)
        ensures
            r == *self,
    {
        Token {
            token_type: self.token_type,
            lexeme: self.lexeme.clone(),
            literal: match &self.literal {
                Some(l) => Some(l.clone()),
                None => None,
            },
            line: self.line,
        }
    }
}

impl TokenView {
    /// The line shown for the token: kind, lexeme, then the payload or `null`.
    pub open spec fn display(self) -> Seq<char> {
        self.kind.display() + " "@ + self.lexeme + " "@ + match self.literal {
            Some(l) => l.display(),
            None => "null"@,
        }
    }
}

impl Token {
    /// A token with the given parts.
    pub fn new(token_type: TokenType, lexeme: String, literal: Option<Literal>, line: usize) -> (r:
        Self)
        ensures
            r.token_type == token_type,
            r.lexeme == lexeme,
            r.literal == literal,
            r.line == line,
    {
        Token { token_type, lexeme, literal, line }
    }

    /// The token as one line of a token listing.
    pub fn to_string(&self) -> (r: String)
        ensures
            r@ == self@.display(),
    {
        let mut out = self.token_type.to_string();
        push_text(&mut out, " ");
        push_text(&mut out, self.lexeme.as_str());
        push_text(&mut out, " ");
        match &self.literal {
            Some(l) => {
                let shown = l.to_string();
                push_text(&mut out, shown.as_str());
            },
            None => {
                push_text(&mut out, "null");
            },
        }
        out
    }
}

} // verus!
