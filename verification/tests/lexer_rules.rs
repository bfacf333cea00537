use monkey::lexer;
use monkey::lexer::token::{Name, Token};

fn lex(source: &str) -> Vec<Token> {
    lexer::new(String::from(source)).tokens()
}

fn names(source: &str) -> Vec<Name> {
    lex(source).into_iter().map(|token| token.name).collect()
}

fn ident(text: &str) -> Name {
    Name::IDENT(String::from(text))
}

#[test]
fn tokens_are_what_next_token_hands_out() {
    let source = "let five = 5; five != 10 # \0 x";
    let mut lexer = lexer::new(String::from(source));
    let mut one_by_one = Vec::new();
    loop {
        let token = lexer.next_token();
        let done = token.is_eof();
        one_by_one.push(token);
        if done {
            break;
        }
    }

    let tokens = lex(source);
    assert_eq!(tokens.len(), 10);
    assert_eq!(tokens.len(), one_by_one.len());
    for (a, b) in tokens.iter().zip(one_by_one.iter()) {
        assert_eq!(a.name, b.name);
        assert_eq!(a.literal.chars, b.literal.chars);
    }
}

#[test]
fn tokens_go_on_from_where_the_lexer_stands() {
    let mut lexer = lexer::new(String::from("a b c"));
    assert_eq!(lexer.next_token().name, ident("a"));

    let rest: Vec<Name> = lexer.tokens().into_iter().map(|token| token.name).collect();
    assert_eq!(rest, vec![ident("b"), ident("c"), Name::EOF]);

    let after: Vec<Name> = lexer.tokens().into_iter().map(|token| token.name).collect();
    assert_eq!(after, vec![Name::EOF]);
}

#[test]
fn empty_input_is_end_of_input() {
    assert_eq!(names(""), vec![Name::EOF]);
    assert_eq!(names(" \t\r\n"), vec![Name::EOF]);
}

#[test]
fn end_of_input_is_handed_out_again() {
    let mut lexer = lexer::new(String::from("x"));
    assert_eq!(lexer.next_token().name, ident("x"));
    assert_eq!(lexer.next_token().name, Name::EOF);
    assert_eq!(lexer.next_token().name, Name::EOF);
    assert_eq!(lexer.next_token().name, Name::EOF);
}

#[test]
fn end_of_input_is_the_last_token_only() {
    for source in ["", "let x = 5;", "== != = !", "# 12 ab", "😀 x"] {
        let tokens = lex(source);
        let last = tokens.len() - 1;
        for (i, token) in tokens.iter().enumerate() {
            assert_eq!(token.is_eof(), i == last, "{:?} at {}", source, i);
        }
    }
}

#[test]
fn zero_byte_ends_the_input() {
    let mut lexer = lexer::new(String::from("a\0b"));
    assert_eq!(lexer.next_token().name, ident("a"));
    assert_eq!(lexer.next_token().name, Name::EOF);
    assert_eq!(lexer.next_token().name, Name::EOF);
}

#[test]
fn end_of_input_carries_a_zero_byte() {
    let tokens = lex("");
    assert_eq!(tokens[0].literal.chars, vec![0u8]);
}

#[test]
fn fixed_symbols() {
    assert_eq!(
        names("=+-!*/<>(){},;"),
        vec![
            Name::ASSIGN,
            Name::PLUS,
            Name::MINUS,
            Name::BANG,
            Name::ASTERISK,
            Name::SLASH,
            Name::LT,
            Name::GT,
            Name::LPAREN,
            Name::RPAREN,
            Name::LBRACE,
            Name::RBRACE,
            Name::COMMA,
            Name::SEMICOLON,
            Name::EOF,
        ]
    );
}

#[test]
fn two_byte_operators_are_one_token() {
    assert_eq!(names("=="), vec![Name::EQ, Name::EOF]);
    assert_eq!(names("!="), vec![Name::NOTEQ, Name::EOF]);
    assert_eq!(names("a==b"), vec![ident("a"), Name::EQ, ident("b"), Name::EOF]);
    assert_eq!(names("a!=b"), vec![ident("a"), Name::NOTEQ, ident("b"), Name::EOF]);

    let tokens = lex("== !=");
    assert_eq!(tokens[0].literal.chars, b"==".to_vec());
    assert_eq!(tokens[1].literal.chars, b"!=".to_vec());
}

#[test]
fn lookahead_is_one_byte() {
    assert_eq!(names("==="), vec![Name::EQ, Name::ASSIGN, Name::EOF]);
    assert_eq!(names("!=="), vec![Name::NOTEQ, Name::ASSIGN, Name::EOF]);
    assert_eq!(names("= ="), vec![Name::ASSIGN, Name::ASSIGN, Name::EOF]);
    assert_eq!(names("! ="), vec![Name::BANG, Name::ASSIGN, Name::EOF]);
    assert_eq!(names("=!"), vec![Name::ASSIGN, Name::BANG, Name::EOF]);
    assert_eq!(names("!!="), vec![Name::BANG, Name::NOTEQ, Name::EOF]);
    assert_eq!(names("="), vec![Name::ASSIGN, Name::EOF]);
    assert_eq!(names("!"), vec![Name::BANG, Name::EOF]);
}

#[test]
fn two_character_operators_in_a_line() {
    assert_eq!(
        names("10 == 10; 10 != 9;"),
        vec![
            Name::INT(10),
            Name::EQ,
            Name::INT(10),
            Name::SEMICOLON,
            Name::INT(10),
            Name::NOTEQ,
            Name::INT(9),
            Name::SEMICOLON,
            Name::EOF,
        ]
    );
}

#[test]
fn keywords() {
    assert_eq!(
        names("fn let true false if else return"),
        vec![
            Name::FUNCTION,
            Name::LET,
            Name::TRUE,
            Name::FALSE,
            Name::IF,
            Name::ELSE,
            Name::RETURN,
            Name::EOF,
        ]
    );
}

#[test]
fn other_words_are_identifiers() {
    assert_eq!(names("letx"), vec![ident("letx"), Name::EOF]);
    assert_eq!(names("Let"), vec![ident("Let"), Name::EOF]);
    assert_eq!(names("_"), vec![ident("_"), Name::EOF]);
    assert_eq!(names("foo_bar"), vec![ident("foo_bar"), Name::EOF]);
    assert_eq!(names("returns iff"), vec![ident("returns"), ident("iff"), Name::EOF]);
    assert_eq!(names("f n"), vec![ident("f"), ident("n"), Name::EOF]);
}

#[test]
fn words_may_hold_digits_after_their_first_byte() {
    assert_eq!(names("x1"), vec![ident("x1"), Name::EOF]);
    assert_eq!(names("let1"), vec![ident("let1"), Name::EOF]);
    assert_eq!(names("_9a"), vec![ident("_9a"), Name::EOF]);
    assert_eq!(names("1x"), vec![Name::INT(1), ident("x"), Name::EOF]);
}

#[test]
fn word_literal_is_the_run() {
    let tokens = lex("  foobar;");
    assert_eq!(tokens[0].literal.chars, b"foobar".to_vec());
    assert_eq!(tokens[0].literal.to_string(), "foobar");
    assert_eq!(tokens[1].literal.chars, b";".to_vec());
}

#[test]
fn integers() {
    assert_eq!(names("0"), vec![Name::INT(0), Name::EOF]);
    assert_eq!(names("007"), vec![Name::INT(7), Name::EOF]);
    assert_eq!(names("838383"), vec![Name::INT(838383), Name::EOF]);
    assert_eq!(names("9223372036854775807"), vec![Name::INT(i64::MAX), Name::EOF]);
    assert_eq!(names("-5"), vec![Name::MINUS, Name::INT(5), Name::EOF]);
    assert_eq!(names("12ab"), vec![Name::INT(12), ident("ab"), Name::EOF]);
}

#[test]
fn integers_out_of_range_are_illegal() {
    assert_eq!(names("9223372036854775808"), vec![Name::ILLEGAL, Name::EOF]);
    assert_eq!(names("99999999999999999999999999"), vec![Name::ILLEGAL, Name::EOF]);
    let tokens = lex("9223372036854775808;");
    assert_eq!(tokens[0].literal.chars, b"9223372036854775808".to_vec());
    assert_eq!(tokens[1].name, Name::SEMICOLON);
}

#[test]
fn unknown_bytes_are_illegal_one_by_one() {
    assert_eq!(names("#@"), vec![Name::ILLEGAL, Name::ILLEGAL, Name::EOF]);
    assert_eq!(names("é"), vec![Name::ILLEGAL, Name::ILLEGAL, Name::EOF]);
    let tokens = lex("a$b");
    assert_eq!(tokens[1].name, Name::ILLEGAL);
    assert_eq!(tokens[1].literal.chars, b"$".to_vec());
}

#[test]
fn whitespace_between_tokens_does_not_matter() {
    let plain = names("let x=5;y!=x");
    assert_eq!(plain, names("let x = 5 ; y != x"));
    assert_eq!(plain, names("  let\tx\n=\r\n5\t\t;   y  !=  x  "));
    assert_eq!(plain, names("\n\n\nlet x =5;y!= x\n"));
}

#[test]
fn whitespace_inside_a_token_does_matter() {
    assert_eq!(names("le t"), vec![ident("le"), ident("t"), Name::EOF]);
    assert_eq!(names("1 0"), vec![Name::INT(1), Name::INT(0), Name::EOF]);
}

#[test]
fn other_blank_bytes_are_not_whitespace() {
    assert_eq!(names("\u{b}"), vec![Name::ILLEGAL, Name::EOF]);
    assert_eq!(names("\u{c}"), vec![Name::ILLEGAL, Name::EOF]);
}
