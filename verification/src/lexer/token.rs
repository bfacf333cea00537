//! Tokens: their kinds, the bytes they were read from, and the rules that
//! classify a word as a keyword or an identifier and a numeral as an integer.

use crate::lexer::number::{all_digits, digits_value, parse_i64};
use vstd::prelude::*;
use vstd::string::*;
use vstd::utf8::*;

verus! {

/// The kind of a token.
#[derive(Debug, PartialEq)]
pub enum Name {
    // Special
    ILLEGAL,
    EOF,
    // Identifiers + literals
    IDENT(String),
    INT(i64),
    // Operators
    ASSIGN,
    PLUS,
    MINUS,
    BANG,
    ASTERISK,
    SLASH,
    // Comparison
    EQ,
    NOTEQ,
    LT,
    GT,
    // Delimiters
    COMMA,
    SEMICOLON,
    // Braces
    LPAREN,
    RPAREN,
    LBRACE,
    RBRACE,
    // Keywords
    FUNCTION,
    LET,
    TRUE,
    FALSE,
    IF,
    ELSE,
    RETURN,
}

/// What a `Name` stands for in contracts: the same kinds, with an
/// identifier's text as a sequence of characters.
pub enum NameView {
    Illegal,
    Eof,
    Ident(Seq<char>),
    Int(i64),
    Assign,
    Plus,
    Minus,
    Bang,
    Asterisk,
    Slash,
    Eq,
    NotEq,
    Lt,
    Gt,
    Comma,
    Semicolon,
    LParen,
    RParen,
    LBrace,
    RBrace,
    Function,
    Let,
    True,
    False,
    If,
    Else,
    Return,
}

impl View for Name {
    type V = NameView;

    open spec fn view(&self) -> NameView {
        match *self {
            Name::ILLEGAL => NameView::Illegal,
            Name::EOF => NameView::Eof,
            Name::IDENT(text) => NameView::Ident(text@),
            Name::INT(value) => NameView::Int(value),
            Name::ASSIGN => NameView::Assign,
            Name::PLUS => NameView::Plus,
            Name::MINUS => NameView::Minus,
            Name::BANG => NameView::Bang,
            Name::ASTERISK => NameView::Asterisk,
            Name::SLASH => NameView::Slash,
            Name::EQ => NameView::Eq,
            Name::NOTEQ => NameView::NotEq,
            Name::LT => NameView::Lt,
            Name::GT => NameView::Gt,
            Name::COMMA => NameView::Comma,
            Name::SEMICOLON => NameView::Semicolon,
            Name::LPAREN => NameView::LParen,
            Name::RPAREN => NameView::RParen,
            Name::LBRACE => NameView::LBrace,
            Name::RBRACE => NameView::RBrace,
            Name::FUNCTION => NameView::Function,
            Name::LET => NameView::Let,
            Name::TRUE => NameView::True,
            Name::FALSE => NameView::False,
            Name::IF => NameView::If,
            Name::ELSE => NameView::Else,
            Name::RETURN => NameView::Return,
        }
    }
}

impl Clone for Name {
    fn clone(&self) -> (res: Name)
        ensures
            res@ == self@,
    {
        match self {
            Name::ILLEGAL => Name::ILLEGAL,
            Name::EOF => Name::EOF,
            Name::IDENT(text) => Name::IDENT(text.clone()),
            Name::INT(value) => Name::INT(*value),
            Name::ASSIGN => Name::ASSIGN,
            Name::PLUS => Name::PLUS,
            Name::MINUS => Name::MINUS,
            Name::BANG => Name::BANG,
            Name::ASTERISK => Name::ASTERISK,
            Name::SLASH => Name::SLASH,
            Name::EQ => Name::EQ,
            Name::NOTEQ => Name::NOTEQ,
            Name::LT => Name::LT,
            Name::GT => Name::GT,
            Name::COMMA => Name::COMMA,
            Name::SEMICOLON => Name::SEMICOLON,
            Name::LPAREN => Name::LPAREN,
            Name::RPAREN => Name::RPAREN,
            Name::LBRACE => Name::LBRACE,
            Name::RBRACE => Name::RBRACE,
            Name::FUNCTION => Name::FUNCTION,
            Name::LET => Name::LET,
            Name::TRUE => Name::TRUE,
            Name::FALSE => Name::FALSE,
            Name::IF => Name::IF,
            Name::ELSE => Name::ELSE,
            Name::RETURN => Name::RETURN,
        }
    }
}

/// The kind of a word: one of the seven keywords if the word spells it,
/// else an identifier that carries the word.
pub open spec fn word_kind(text: Seq<char>) -> NameView {
    if text == "fn"@ {
        NameView::Function
    } else if text == "let"@ {
        NameView::Let
    } else if text == "true"@ {
        NameView::True
    } else if text == "false"@ {
        NameView::False
    } else if text == "if"@ {
        NameView::If
    } else if text == "else"@ {
        NameView::Else
    } else if text == "return"@ {
        NameView::Return
    } else {
        NameView::Ident(text)
    }
}

/// The kind of a numeral: an integer if the bytes are an unbroken run of
/// at least one digit and what the run denotes fits in a signed 64-bit
/// integer, with that value; else illegal.
pub open spec fn numeral_kind(bytes: Seq<u8>) -> NameView {
    if bytes.len() > 0 && all_digits(bytes) && digits_value(bytes) <= i64::MAX {
        NameView::Int(digits_value(bytes) as i64)
    } else {
        NameView::Illegal
    }
}

/// True when the two texts are made of the same characters.
fn same_text(a: &str, b: &str) -> (res: bool)
    ensures
        res == (a@ == b@),
{
    let x = a.as_bytes();
    let y = b.as_bytes();
    proof {
        encode_utf8_decode_utf8(a@);
        encode_utf8_decode_utf8(b@);
    }
    if x.len() != y.len() {
        return false;
    }
    let mut i: usize = 0;
    while i < x.len()
        invariant
            i <= x.len(),
            x.len() == y.len(),
            x@.take(i as int) == y@.take(i as int),
            x@ == encode_utf8(a@),
            y@ == encode_utf8(b@),
            decode_utf8(encode_utf8(a@)) == a@,
            decode_utf8(encode_utf8(b@)) == b@,
        decreases x.len() - i,
    {
        if x[i] != y[i] {
            return false;
        }
        assert(x@.take(i + 1) =~= x@.take(i as int).push(x@[i as int]));
        assert(y@.take(i + 1) =~= y@.take(i as int).push(y@[i as int]));
        i += 1;
    }
    assert(x@ =~= x@.take(i as int));
    assert(y@ =~= y@.take(i as int));
    true
}

/// `String::from_utf8`: succeeds exactly on valid UTF-8, and the string it
/// gives is made of the bytes it was given.
#[verifier::external_body]
fn string_from_utf8(bytes: Vec<u8>) -> (res: Option<String>)
    ensures
        res is Some <==> valid_utf8(bytes@),
        res matches Some(text) ==> encode_utf8(text@) == bytes@,
{
    String::from_utf8(bytes).ok()
}

/// The raw bytes that a token was read from.
#[derive(Debug)]
pub struct Literal {
    pub chars: Vec<u8>,
}

impl View for Literal {
    type V = Seq<u8>;

    open spec fn view(&self) -> Seq<u8> {
        self.chars@
    }
}

impl Clone for Literal {
    fn clone(&self) -> (res: Literal)
        ensures
            res@ == self@,
    {
        Literal { chars: self.chars.clone() }
    }
}

impl Literal {
    pub fn new(chars: Vec<u8>) -> (res: Literal)
        ensures
            res.chars == chars,
    {
        Literal { chars }
    }

    /// The literal as text. The bytes must be valid UTF-8.
    pub fn to_string(&self) -> (res: String)
        requires
            valid_utf8(self@),
        ensures
            res@ == decode_utf8(self@),
    {
        match string_from_utf8(self.chars.clone()) {
            Some(text) => {
                proof {
                    encode_utf8_decode_utf8(text@);
                }
                text
            },
            None => vstd::pervasive::unreached(),
        }
    }
}

/// A classified lexical unit: its kind and the bytes that produced it.
#[derive(Debug)]
pub struct Token {
    pub name: Name,
    pub literal: Literal,
}

/// What a `Token` stands for in contracts.
pub struct TokenView {
    pub name: NameView,
    pub literal: Seq<u8>,
}

impl View for Token {
    type V = TokenView;

    open spec fn view(&self) -> TokenView {
        TokenView { name: self.name@, literal: self.literal@ }
    }
}

/// What a sequence of tokens stands for in contracts: the view of each.
pub open spec fn tokens_view(tokens: Seq<Token>) -> Seq<TokenView> {
    Seq::new(tokens.len(), |i: int| tokens[i]@)
}

impl Clone for Token {
    fn clone(&self) -> (res: Token)
        ensures
            res@ == self@,
    {
        Token { name: self.name.clone(), literal: self.literal.clone() }
    }
}

impl Token {
    pub fn new(name: Name, literal: Literal) -> (res: Token)
        ensures
            res.name == name,
            res.literal == literal,
    {
        Token { name, literal }
    }

    /// Classifies a word: a keyword if it spells one, else an identifier
    /// that carries the word as its text. The bytes must be valid UTF-8.
    pub fn lookup_ident(literal: &Literal) -> (name: Name)
        requires
            valid_utf8(literal@),
        ensures
            name@ == word_kind(decode_utf8(literal@)),
    {
        let string = literal.to_string();
        if same_text(string.as_str(), "fn") {
            Name::FUNCTION
        } else if same_text(string.as_str(), "let") {
            Name::LET
        } else if same_text(string.as_str(), "true") {
            Name::TRUE
        } else if same_text(string.as_str(), "false") {
            Name::FALSE
        } else if same_text(string.as_str(), "if") {
            Name::IF
        } else if same_text(string.as_str(), "else") {
            Name::ELSE
        } else if same_text(string.as_str(), "return") {
            Name::RETURN
        } else {
            Name::IDENT(string)
        }
    }

    /// Classifies a numeral: an integer with its value if the bytes are an
    /// unbroken run of digits that fits in a signed 64-bit integer, else
    /// illegal. A sign is no digit.
    pub fn int_literal(literal: &Literal) -> (name: Name)
        ensures
            name@ == numeral_kind(literal@),
    {
        let chars = literal.chars.as_slice();
        if chars.len() == 0 || chars[0] < '0' as u8 || chars[0] > '9' as u8 {
            return Name::ILLEGAL;
        }
        match parse_i64(chars) {
            Some(value) => Name::INT(value),
            None => Name::ILLEGAL,
        }
    }

    pub fn is_eof(&self) -> (res: bool)
        ensures
            res == (self@.name is Eof),
    {
        match self.name {
            Name::EOF => true,
            _ => false,
        }
    }

    pub fn is_semicolon(&self) -> (res: bool)
        ensures
            res == (self@.name is Semicolon),
    {
        match self.name {
            Name::SEMICOLON => true,
            _ => false,
        }
    }
}

} // verus!
