use monkey::lexer;
use monkey::lexer::token::Name;

#[test]
fn next_token() {
    let input = String::from("=+(){},;");

    let mut lexer = lexer::new(input);

    assert_eq!(Name::ASSIGN, lexer.next_token().name);
    assert_eq!(Name::PLUS, lexer.next_token().name);
    assert_eq!(Name::LPAREN, lexer.next_token().name);
    assert_eq!(Name::RPAREN, lexer.next_token().name);
    assert_eq!(Name::LBRACE, lexer.next_token().name);
    assert_eq!(Name::RBRACE, lexer.next_token().name);
    assert_eq!(Name::COMMA, lexer.next_token().name);
    assert_eq!(Name::SEMICOLON, lexer.next_token().name);
    assert_eq!(Name::EOF, lexer.next_token().name);
}

#[test]
fn illegal_next_token() {
    let input = String::from("#");

    let mut lexer = lexer::new(input);

    assert_eq!(Name::ILLEGAL, lexer.next_token().name);
    assert_eq!(Name::EOF, lexer.next_token().name);
}

#[test]
fn next_token_with_whitespace() {
    let input = String::from("
            let five = 5;
            let ten = 10;

            let add = fn(x, y) {
              x + y;
            };

            let result = add(five, ten);
        ");

    let mut lexer = lexer::new(input);

    assert_eq!(Name::LET, lexer.next_token().name);
    assert_eq!(Name::IDENT(String::from("five")), lexer.next_token().name);
    assert_eq!(Name::ASSIGN, lexer.next_token().name);
    assert_eq!(Name::INT(5), lexer.next_token().name);
    assert_eq!(Name::SEMICOLON, lexer.next_token().name);
    assert_eq!(Name::LET, lexer.next_token().name);
    assert_eq!(Name::IDENT(String::from("ten")), lexer.next_token().name);
    assert_eq!(Name::ASSIGN, lexer.next_token().name);
    assert_eq!(Name::INT(10), lexer.next_token().name);
    assert_eq!(Name::SEMICOLON, lexer.next_token().name);
    assert_eq!(Name::LET, lexer.next_token().name);
    assert_eq!(Name::IDENT(String::from("add")), lexer.next_token().name);
    assert_eq!(Name::ASSIGN, lexer.next_token().name);
    assert_eq!(Name::FUNCTION, lexer.next_token().name);
    assert_eq!(Name::LPAREN, lexer.next_token().name);
    assert_eq!(Name::IDENT(String::from("x")), lexer.next_token().name);
    assert_eq!(Name::COMMA, lexer.next_token().name);
    assert_eq!(Name::IDENT(String::from("y")), lexer.next_token().name);
    assert_eq!(Name::RPAREN, lexer.next_token().name);
    assert_eq!(Name::LBRACE, lexer.next_token().name);
    assert_eq!(Name::IDENT(String::from("x")), lexer.next_token().name);
    assert_eq!(Name::PLUS, lexer.next_token().name);
    assert_eq!(Name::IDENT(String::from("y")), lexer.next_token().name);
    assert_eq!(Name::SEMICOLON, lexer.next_token().name);
    assert_eq!(Name::RBRACE, lexer.next_token().name);
    assert_eq!(Name::SEMICOLON, lexer.next_token().name);
    assert_eq!(Name::LET, lexer.next_token().name);
    assert_eq!(Name::IDENT(String::from("result")), lexer.next_token().name);
    assert_eq!(Name::ASSIGN, lexer.next_token().name);
    assert_eq!(Name::IDENT(String::from("add")), lexer.next_token().name);
    assert_eq!(Name::LPAREN, lexer.next_token().name);
    assert_eq!(Name::IDENT(String::from("five")), lexer.next_token().name);
    assert_eq!(Name::COMMA, lexer.next_token().name);
    assert_eq!(Name::IDENT(String::from("ten")), lexer.next_token().name);
    assert_eq!(Name::RPAREN, lexer.next_token().name);
    assert_eq!(Name::SEMICOLON, lexer.next_token().name);
    assert_eq!(Name::EOF, lexer.next_token().name);
}

#[test]
fn next_token_with_gibberish() {
    let input = String::from("
            !-/*5;
            5 < 10 > 5;
        ");

    let mut lexer = lexer::new(input);

    assert_eq!(Name::BANG, lexer.next_token().name);
    assert_eq!(Name::MINUS, lexer.next_token().name);
    assert_eq!(Name::SLASH, lexer.next_token().name);
    assert_eq!(Name::ASTERISK, lexer.next_token().name);
    assert_eq!(Name::INT(5), lexer.next_token().name);
    assert_eq!(Name::SEMICOLON, lexer.next_token().name);
    assert_eq!(Name::INT(5), lexer.next_token().name);
    assert_eq!(Name::LT, lexer.next_token().name);
    assert_eq!(Name::INT(10), lexer.next_token().name);
    assert_eq!(Name::GT, lexer.next_token().name);
    assert_eq!(Name::INT(5), lexer.next_token().name);
    assert_eq!(Name::SEMICOLON, lexer.next_token().name);
    assert_eq!(Name::EOF, lexer.next_token().name);
}

#[test]
fn next_token_with_conditions() {
    let input = String::from("
            if (5 < 10) {
                return true;
            } else {
                return false;
            }
        ");

    let mut lexer = lexer::new(input);

    assert_eq!(Name::IF, lexer.next_token().name);
    assert_eq!(Name::LPAREN, lexer.next_token().name);
    assert_eq!(Name::INT(5), lexer.next_token().name);
    assert_eq!(Name::LT, lexer.next_token().name);
    assert_eq!(Name::INT(10), lexer.next_token().name);
    assert_eq!(Name::RPAREN, lexer.next_token().name);
    assert_eq!(Name::LBRACE, lexer.next_token().name);
    assert_eq!(Name::RETURN, lexer.next_token().name);
    assert_eq!(Name::TRUE, lexer.next_token().name);
    assert_eq!(Name::SEMICOLON, lexer.next_token().name);
    assert_eq!(Name::RBRACE, lexer.next_token().name);
    assert_eq!(Name::ELSE, lexer.next_token().name);
    assert_eq!(Name::LBRACE, lexer.next_token().name);
    assert_eq!(Name::RETURN, lexer.next_token().name);
    assert_eq!(Name::FALSE, lexer.next_token().name);
    assert_eq!(Name::SEMICOLON, lexer.next_token().name);
    assert_eq!(Name::RBRACE, lexer.next_token().name);
    assert_eq!(Name::EOF, lexer.next_token().name);
}

#[test]
fn next_token_with_two_character_operators() {
    let input = String::from("
            10 == 10;
            10 != 9;
        ");

    let mut lexer = lexer::new(input);

    assert_eq!(Name::INT(10), lexer.next_token().name);
    assert_eq!(Name::EQ, lexer.next_token().name);
    assert_eq!(Name::INT(10), lexer.next_token().name);
    assert_eq!(Name::SEMICOLON, lexer.next_token().name);
    assert_eq!(Name::INT(10), lexer.next_token().name);
    assert_eq!(Name::NOTEQ, lexer.next_token().name);
    assert_eq!(Name::INT(9), lexer.next_token().name);
    assert_eq!(Name::SEMICOLON, lexer.next_token().name);
    assert_eq!(Name::EOF, lexer.next_token().name);
}

#[test]
fn is_letter() {
    assert_eq!(true, lexer::is_letter(b'a'));
    assert_eq!(true, lexer::is_letter(b'b'));
    assert_eq!(true, lexer::is_letter(b'c'));
    assert_eq!(true, lexer::is_letter(b'y'));
    assert_eq!(true, lexer::is_letter(b'x'));
    assert_eq!(true, lexer::is_letter(b'z'));
    assert_eq!(true, lexer::is_letter(b'A'));
    assert_eq!(true, lexer::is_letter(b'B'));
    assert_eq!(true, lexer::is_letter(b'C'));
    assert_eq!(true, lexer::is_letter(b'X'));
    assert_eq!(true, lexer::is_letter(b'Y'));
    assert_eq!(true, lexer::is_letter(b'Z'));
    assert_eq!(true, lexer::is_letter(b'_'));
    assert_eq!(false, lexer::is_letter(b'0'));
    assert_eq!(false, lexer::is_letter(b'9'));
}

#[test]
fn is_digit() {
    assert_eq!(true, lexer::is_digit(b'0'));
    assert_eq!(true, lexer::is_digit(b'1'));
    assert_eq!(true, lexer::is_digit(b'2'));
    assert_eq!(true, lexer::is_digit(b'3'));
    assert_eq!(true, lexer::is_digit(b'4'));
    assert_eq!(true, lexer::is_digit(b'5'));
    assert_eq!(true, lexer::is_digit(b'6'));
    assert_eq!(true, lexer::is_digit(b'7'));
    assert_eq!(true, lexer::is_digit(b'8'));
    assert_eq!(true, lexer::is_digit(b'9'));
    assert_eq!(false, lexer::is_digit(b'a'));
    assert_eq!(false, lexer::is_digit(b'z'));
    assert_eq!(false, lexer::is_digit(b'A'));
    assert_eq!(false, lexer::is_digit(b'Z'));
    assert_eq!(false, lexer::is_digit(b'_'));
}
