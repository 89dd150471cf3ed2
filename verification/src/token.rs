use crate::error::{Failure, ParseError, Rule};
use vstd::prelude::*;

verus! {

/// A token: a keyword, a punctuation mark, a literal with its value, or an
/// identifier with its name.
#[derive(PartialEq, Debug)]
pub enum Token {
    /// The keyword `print`.
    Print,
    /// The keyword `var`.
    Var,
    /// The keyword `let`.
    Let,
    /// The mark `=`.
    Assign,
    /// The mark `+`.
    Plus,
    /// The mark `-`.
    Minus,
    /// The mark `!`.
    Bang,
    /// The mark `{`.
    LeftBrace,
    /// The mark `}`.
    RightBrace,
    /// Decimal digits, by the number that they spell.
    Integer(i32),
    /// A string in double quotes, by what stands between the quotes.
    Str(String),
    /// The keywords `true` and `false`.
    Boolean(bool),
    /// A word that is no keyword.
    Identifier(String),
}

/// The mathematical content of a [`Token`].
pub enum TokenView {
    Print,
    Var,
    Let,
    Assign,
    Plus,
    Minus,
    Bang,
    LeftBrace,
    RightBrace,
    Integer(i32),
    Str(Seq<char>),
    Boolean(bool),
    Identifier(Seq<char>),
}

impl View for Token {
    type V = TokenView;

    open spec fn view(&self) -> TokenView {
        match *self {
            Token::Print => TokenView::Print,
            Token::Var => TokenView::Var,
            Token::Let => TokenView::Let,
            Token::Assign => TokenView::Assign,
            Token::Plus => TokenView::Plus,
            Token::Minus => TokenView::Minus,
            Token::Bang => TokenView::Bang,
            Token::LeftBrace => TokenView::LeftBrace,
            Token::RightBrace => TokenView::RightBrace,
            Token::Integer(n) => TokenView::Integer(n),
            Token::Str(s) => TokenView::Str(s@),
            Token::Boolean(b) => TokenView::Boolean(b),
            Token::Identifier(name) => TokenView::Identifier(name@),
        }
    }
}

/// A token with the index of its first character in the text.
#[derive(PartialEq, Debug)]
pub struct Lexeme {
    pub token: Token,
    pub position: usize,
}

/// The mathematical content of a [`Lexeme`].
pub struct LexemeView {
    pub token: TokenView,
    pub position: int,
}

impl View for Lexeme {
    type V = LexemeView;

    open spec fn view(&self) -> LexemeView {
        LexemeView { token: self.token@, position: self.position as int }
    }
}

/// The tokens of a text in order, and the length of the text, which is the
/// position of its end.
#[derive(PartialEq, Debug)]
pub struct TokenStream {
    pub lexemes: Vec<Lexeme>,
    pub end: usize,
}

/// The mathematical content of a [`TokenStream`].
pub struct Tokens {
    pub lexemes: Seq<LexemeView>,
    pub end: int,
}

impl View for TokenStream {
    type V = Tokens;

    open spec fn view(&self) -> Tokens {
        Tokens { lexemes: self.lexemes@.map_values(|lexeme: Lexeme| lexeme@), end: self.end as int }
    }
}

impl Tokens {
    /// The token at an index, if there is one.
    pub open spec fn token(self, at: int) -> Option<TokenView> {
        if 0 <= at < self.lexemes.len() {
            Some(self.lexemes[at].token)
        } else {
            None
        }
    }

    /// Where in the text the token at an index starts; past the last token,
    /// the end of the text.
    pub open spec fn position(self, at: int) -> int {
        if 0 <= at < self.lexemes.len() {
            self.lexemes[at].position
        } else {
            self.end
        }
    }

    /// The failure of a production at the token at an index.
    pub open spec fn failure(self, rule: Rule, at: int) -> Failure {
        Failure { rule, position: self.position(at) }
    }
}

impl TokenStream {
    /// The token at an index, if there is one.
    pub fn token(&self, at: usize) -> (token: Option<&Token>)
        ensures
            match token {
                Some(token) => self@.token(at as int) == Some(token@) && at < self.lexemes.len(),
                None => self@.token(at as int) is None,
            },
    {
        if at < self.lexemes.len() {
            Some(&self.lexemes[at].token)
        } else {
            None
        }
    }

    /// Where in the text the token at an index starts; past the last token,
    /// the end of the text.
    pub fn position(&self, at: usize) -> (position: usize)
        ensures
            position == self@.position(at as int),
    {
        if at < self.lexemes.len() {
            self.lexemes[at].position
        } else {
            self.end
        }
    }

    /// The failure of a production at the token at an index.
    pub fn failure(&self, rule: Rule, at: usize) -> (error: ParseError)
        ensures
            error@ == self@.failure(rule, at as int),
    {
        ParseError { rule, position: self.position(at) }
    }
}

} // verus!
