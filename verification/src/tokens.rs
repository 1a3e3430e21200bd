//! The tokens of the schema language.

use vstd::prelude::*;
use vstd::string::*;
use crate::decimal::Decimal;
use crate::text::{append_decimal, append_integer, decimal_text, integer_text};

verus! {

/// Punctuation, operators and the two keywords that are no type names.
#[derive(Clone, Copy, PartialEq, Eq, Structural, Debug)]
pub enum SpecialToken {
    /// `(`
    LParen,
    /// `)`
    RParen,
    /// `{`
    LBrace,
    /// `}`
    RBrace,
    /// `[`
    LBracket,
    /// `]`
    RBracket,
    /// `=`
    Equal,
    /// `,`
    Comma,
    /// `:`
    Colon,
    /// `;`
    Semicolon,
    /// `-`
    Minus,
    /// `+`
    Plus,
    /// `enum`
    Enum,
    /// `null`
    Null,
    /// `#`
    Hash,
    /// `..`
    Interval,
}

/// The keywords that name a type.
#[derive(Clone, Copy, PartialEq, Eq, Structural, Debug)]
pub enum TypeName {
    /// `string`
    TypeString,
    /// `integer`
    TypeInteger,
    /// `floating`
    TypeFloating,
    /// `boolean`
    TypeBoolean,
    /// `object`
    TypeObject,
    /// `any`
    TypeAny,
}

/// A token.
#[derive(PartialEq, Debug)]
pub enum Token {
    /// The token in front of the first one of a stream.
    Nil,
    Ident(String),
    Integer(i64),
    Floating(Decimal),
    String(String),
    Boolean(bool),
    Type(TypeName),
    Special(SpecialToken),
    /// The token behind the last one of a stream.
    Eof,
}

/// A token as a plain value: texts are sequences of characters.
pub enum TokenView {
    Nil,
    Ident(Seq<char>),
    Integer(i64),
    Floating(Decimal),
    String(Seq<char>),
    Boolean(bool),
    Type(TypeName),
    Special(SpecialToken),
    Eof,
}

impl View for Token {
    type V = TokenView;

    open spec fn view(&self) -> TokenView {
        match self {
            Token::Nil => TokenView::Nil,
            Token::Ident(text) => TokenView::Ident(text@),
            Token::Integer(val) => TokenView::Integer(*val),
            Token::Floating(val) => TokenView::Floating(*val),
            Token::String(text) => TokenView::String(text@),
            Token::Boolean(val) => TokenView::Boolean(*val),
            Token::Type(name) => TokenView::Type(*name),
            Token::Special(sign) => TokenView::Special(*sign),
            Token::Eof => TokenView::Eof,
        }
    }
}

impl Clone for Token {
    fn clone(&self) -> (r: Self)
        ensures
            r == *self,
    {
        match self {
            Token::Nil => Token::Nil,
            Token::Ident(text) => Token::Ident(text.clone()),
            Token::Integer(val) => Token::Integer(*val),
            Token::Floating(val) => Token::Floating(*val),
            Token::String(text) => Token::String(text.clone()),
            Token::Boolean(val) => Token::Boolean(*val),
            Token::Type(name) => Token::Type(*name),
            Token::Special(sign) => Token::Special(*sign),
            Token::Eof => Token::Eof,
        }
    }
}

/// The text of a type keyword.
pub open spec fn type_text(name: TypeName) -> Seq<char> {
    match name {
        TypeName::TypeString => "string"@,
        TypeName::TypeInteger => "integer"@,
        TypeName::TypeFloating => "floating"@,
        TypeName::TypeBoolean => "boolean"@,
        TypeName::TypeObject => "object"@,
        TypeName::TypeAny => "any"@,
    }
}

/// The text of a special token.
pub open spec fn special_text(sign: SpecialToken) -> Seq<char> {
    match sign {
        SpecialToken::LParen => "("@,
        SpecialToken::RParen => ")"@,
        SpecialToken::LBrace => "{"@,
        SpecialToken::RBrace => "}"@,
        SpecialToken::LBracket => "["@,
        SpecialToken::RBracket => "]"@,
        SpecialToken::Equal => "="@,
        SpecialToken::Comma => ","@,
        SpecialToken::Colon => ":"@,
        SpecialToken::Semicolon => ";"@,
        SpecialToken::Interval => ".."@,
        SpecialToken::Plus => "+"@,
        SpecialToken::Minus => "-"@,
        SpecialToken::Hash => "#"@,
        SpecialToken::Enum => "enum"@,
        SpecialToken::Null => "null"@,
    }
}

/// The text that stands for a token in a message: an identifier as it is, a
/// string between double quotes, a number in digits, a keyword or a sign as
/// it is written.
pub open spec fn token_text(token: TokenView) -> Seq<char> {
    match token {
        TokenView::Nil => "None"@,
        TokenView::Ident(ident) => ident,
        TokenView::Integer(i) => integer_text(i as int),
        TokenView::Floating(f) => decimal_text(f),
        TokenView::String(s) => seq!['"'] + s + seq!['"'],
        TokenView::Boolean(b) => if b {
            "true"@
        } else {
            "false"@
        },
        TokenView::Type(t) => type_text(t),
        TokenView::Special(spec) => special_text(spec),
        TokenView::Eof => "eof"@,
    }
}

impl Token {
    pub fn is_ident(&self) -> (r: bool)
        ensures
            r == (self@ is Ident),
    {
        match self {
            Token::Ident(_) => true,
            _ => false,
        }
    }

    pub fn is_floating(&self) -> (r: bool)
        ensures
            r == (self@ is Floating),
    {
        match self {
            Token::Floating(_) => true,
            _ => false,
        }
    }

    pub fn is_integer(&self) -> (r: bool)
        ensures
            r == (self@ is Integer),
    {
        match self {
            Token::Integer(_) => true,
            _ => false,
        }
    }

    pub fn is_number(&self) -> (r: bool)
        ensures
            r == (self@ is Integer || self@ is Floating),
    {
        match self {
            Token::Integer(_) => true,
            Token::Floating(_) => true,
            _ => false,
        }
    }

    pub fn is_string(&self) -> (r: bool)
        ensures
            r == (self@ is String),
    {
        match self {
            Token::String(_) => true,
            _ => false,
        }
    }

    pub fn is_boolean(&self) -> (r: bool)
        ensures
            r == (self@ is Boolean),
    {
        match self {
            Token::Boolean(_) => true,
            _ => false,
        }
    }

    pub fn is_eof(&self) -> (r: bool)
        ensures
            r == (self@ is Eof),
    {
        match self {
            Token::Eof => true,
            _ => false,
        }
    }

    /// The test for the special token `val`.
    pub fn is_special(val: SpecialToken) -> (r: impl Fn(&Token) -> bool)
        ensures
            forall|tok: &Token| #[trigger] r.requires((tok,)),
            forall|tok: &Token, found: bool| #[trigger]
                r.ensures((tok,), found) ==> found == (tok@ == TokenView::Special(val)),
    {
        move |tok: &Token| -> (found: bool)
            ensures
                found == (tok@ == TokenView::Special(val)),
            {
                match tok {
                    Token::Special(s) => *s == val,
                    _ => false,
                }
            }
    }

    pub fn is_type(&self) -> (r: bool)
        ensures
            r == (self@ is Type),
    {
        match self {
            Token::Type(_) => true,
            _ => false,
        }
    }
}

/// A token with the line and the column at which it starts.
#[derive(Debug)]
pub struct TokenInfo {
    token: Token,
    position: (usize, usize),
    literal: String,
}

/// A token with its place, as a plain value.
pub struct TokenInfoView {
    pub token: TokenView,
    pub position: (usize, usize),
    pub literal: Seq<char>,
}

impl View for TokenInfo {
    type V = TokenInfoView;

    closed spec fn view(&self) -> TokenInfoView {
        TokenInfoView { token: self.token@, position: self.position, literal: self.literal@ }
    }
}

impl Clone for TokenInfo {
    fn clone(&self) -> (r: Self)
        ensures
            r == *self,
    {
        TokenInfo {
            token: self.token.clone(),
            position: self.position,
            literal: self.literal.clone(),
        }
    }
}

impl TokenInfo {
    /// The token itself.
    pub closed spec fn token_of(&self) -> Token {
        self.token
    }

    /// The token `value` at `pos`, with an empty literal text.
    pub fn new(value: Token, pos: (usize, usize)) -> (r: TokenInfo)
        ensures
            r@ == (TokenInfoView { token: value@, position: pos, literal: Seq::<char>::empty() }),
    {
        TokenInfo { token: value, position: pos, literal: String::new() }
    }

    /// The token `value` at `pos`, with the text `literal` that it was
    /// written as.
    pub fn with_literal(value: Token, pos: (usize, usize), literal: String) -> (r: TokenInfo)
        ensures
            r@ == (TokenInfoView { token: value@, position: pos, literal: literal@ }),
    {
        TokenInfo { token: value, position: pos, literal }
    }

    pub fn token(&self) -> (r: &Token)
        ensures
            r@ == self@.token,
            *r == self.token_of(),
    {
        &self.token
    }

    /// The line and the column at which the token starts.
    pub fn position(&self) -> (r: (usize, usize))
        ensures
            r == self@.position,
    {
        self.position
    }

    /// The text of the token as the source had it, where it was kept.
    pub fn literal(&self) -> (r: &str)
        ensures
            r@ == self@.literal,
    {
        self.literal.as_str()
    }

    /// The text that stands for the token in a message.
    pub fn to_string(&self) -> (r: String)
        ensures
            r@ == token_text(self@.token),
    {
        match &self.token {
            Token::Nil => String::from_str("None"),
            Token::Ident(ident) => ident.clone(),
            Token::Integer(i) => {
                let mut out = String::new();
                append_integer(&mut out, *i);
                proof {
                    assert(Seq::<char>::empty() + integer_text(*i as int) =~= integer_text(
                        *i as int,
                    ));
                }
                out
            },
            Token::Floating(f) => {
                let mut out = String::new();
                append_decimal(&mut out, f);
                proof {
                    assert(Seq::<char>::empty() + decimal_text(*f) =~= decimal_text(*f));
                }
                out
            },
            Token::String(s) => {
                let mut out = String::new();
                out.push('"');
                out.append(s.as_str());
                out.push('"');
                proof {
                    assert(out@ =~= seq!['"'] + s@ + seq!['"']);
                }
                out
            },
            Token::Boolean(b) => String::from_str(
                if *b {
                    "true"
                } else {
                    "false"
                },
            ),
            Token::Type(t) => match t {
                TypeName::TypeString => String::from_str("string"),
                TypeName::TypeInteger => String::from_str("integer"),
                TypeName::TypeFloating => String::from_str("floating"),
                TypeName::TypeBoolean => String::from_str("boolean"),
                TypeName::TypeObject => String::from_str("object"),
                TypeName::TypeAny => String::from_str("any"),
            },
            Token::Special(spec) => match spec {
                SpecialToken::LParen => String::from_str("("),
                SpecialToken::RParen => String::from_str(")"),
                SpecialToken::LBrace => String::from_str("{"),
                SpecialToken::RBrace => String::from_str("}"),
                SpecialToken::LBracket => String::from_str("["),
                SpecialToken::RBracket => String::from_str("]"),
                SpecialToken::Equal => String::from_str("="),
                SpecialToken::Comma => String::from_str(","),
                SpecialToken::Colon => String::from_str(":"),
                SpecialToken::Semicolon => String::from_str(";"),
                SpecialToken::Interval => String::from_str(".."),
                SpecialToken::Plus => String::from_str("+"),
                SpecialToken::Minus => String::from_str("-"),
                SpecialToken::Hash => String::from_str("#"),
                SpecialToken::Enum => String::from_str("enum"),
                SpecialToken::Null => String::from_str("null"),
            },
            Token::Eof => String::from_str("eof"),
        }
    }
}

} // verus!
