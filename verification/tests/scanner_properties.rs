use monkey_lexer::lexer::Lexer;
use monkey_lexer::token::TokenType;

fn collect_tokens(input: &str) -> Vec<(TokenType, String)> {
    let mut lexer = Lexer::new(input);
    let mut tokens: Vec<(TokenType, String)> = Vec::new();
    loop {
        let token = lexer.next_token();
        let done = token.token_type == TokenType::Eof;
        tokens.push((token.token_type, token.literal));
        if done {
            return tokens;
        }
    }
}

fn expect_tokens(input: &str, expected: &[(TokenType, &str)]) {
    let tokens = collect_tokens(input);
    assert_eq!(tokens.len(), expected.len(), "token count for {:?}", input);
    for (index, (token_type, literal)) in expected.iter().enumerate() {
        assert_eq!(tokens[index].0, *token_type, "category at [{index}] of {:?}", input);
        assert_eq!(tokens[index].1, *literal, "literal at [{index}] of {:?}", input);
    }
}

#[test]
fn scenario_punctuation() {
    expect_tokens(
        "=+(){},;",
        &[
            (TokenType::Assign, "="),
            (TokenType::Plus, "+"),
            (TokenType::Lparen, "("),
            (TokenType::Rparen, ")"),
            (TokenType::Lbrace, "{"),
            (TokenType::Rbrace, "}"),
            (TokenType::Comma, ","),
            (TokenType::Semicolon, ";"),
            (TokenType::Eof, ""),
        ],
    );
}

#[test]
fn scenario_let_binding() {
    expect_tokens(
        "let five = 5;",
        &[
            (TokenType::Let, "let"),
            (TokenType::Ident, "five"),
            (TokenType::Assign, "="),
            (TokenType::Int, "5"),
            (TokenType::Semicolon, ";"),
            (TokenType::Eof, ""),
        ],
    );
}

#[test]
fn scenario_operators() {
    expect_tokens(
        "!-/*5;",
        &[
            (TokenType::Bang, "!"),
            (TokenType::Minus, "-"),
            (TokenType::Slash, "/"),
            (TokenType::Asterisk, "*"),
            (TokenType::Int, "5"),
            (TokenType::Semicolon, ";"),
            (TokenType::Eof, ""),
        ],
    );
}

#[test]
fn scenario_comparisons() {
    expect_tokens(
        "5 < 10 > 5;",
        &[
            (TokenType::Int, "5"),
            (TokenType::Lt, "<"),
            (TokenType::Int, "10"),
            (TokenType::Gt, ">"),
            (TokenType::Int, "5"),
            (TokenType::Semicolon, ";"),
            (TokenType::Eof, ""),
        ],
    );
}

#[test]
fn scenario_illegal_character() {
    expect_tokens("@", &[(TokenType::Illegal, "@"), (TokenType::Eof, "")]);
}

#[test]
fn scenario_empty_input() {
    expect_tokens("", &[(TokenType::Eof, "")]);
}

#[test]
fn other_illegal_characters() {
    expect_tokens(
        "#$",
        &[(TokenType::Illegal, "#"), (TokenType::Illegal, "$"), (TokenType::Eof, "")],
    );
}

#[test]
fn end_of_input_is_idempotent() {
    let mut lexer = Lexer::new("x");
    let first = lexer.next_token();
    assert_eq!(first.token_type, TokenType::Ident);
    assert_eq!(first.literal, "x");
    for _ in 0..4 {
        let token = lexer.next_token();
        assert_eq!(token.token_type, TokenType::Eof);
        assert_eq!(token.literal, "");
    }
}

#[test]
fn whitespace_between_tokens_is_invisible() {
    let plain = collect_tokens("let five=5;if(a<b){return true;}");
    let spaced = collect_tokens("  let\tfive =\n5 ;\r\nif ( a < b )\t{ return\ntrue ; } ");
    assert_eq!(plain, spaced);
}

#[test]
fn keyword_exactness() {
    assert_eq!(monkey_lexer::token::lookup_ident("fn"), TokenType::Function);
    assert_eq!(monkey_lexer::token::lookup_ident("let"), TokenType::Let);
    assert_eq!(monkey_lexer::token::lookup_ident("true"), TokenType::True);
    assert_eq!(monkey_lexer::token::lookup_ident("false"), TokenType::False);
    assert_eq!(monkey_lexer::token::lookup_ident("if"), TokenType::If);
    assert_eq!(monkey_lexer::token::lookup_ident("else"), TokenType::Else);
    assert_eq!(monkey_lexer::token::lookup_ident("return"), TokenType::Return);
    assert_eq!(monkey_lexer::token::lookup_ident("fn2"), TokenType::Ident);
    assert_eq!(monkey_lexer::token::lookup_ident("Let"), TokenType::Ident);
    assert_eq!(monkey_lexer::token::lookup_ident("_fn"), TokenType::Ident);
    expect_tokens(
        "Let _fn",
        &[(TokenType::Ident, "Let"), (TokenType::Ident, "_fn"), (TokenType::Eof, "")],
    );
}

#[test]
fn maximal_munch() {
    expect_tokens(
        "12345abc",
        &[(TokenType::Int, "12345"), (TokenType::Ident, "abc"), (TokenType::Eof, "")],
    );
}

#[test]
fn underscore_starts_identifier() {
    expect_tokens(
        "_x = 1;",
        &[
            (TokenType::Ident, "_x"),
            (TokenType::Assign, "="),
            (TokenType::Int, "1"),
            (TokenType::Semicolon, ";"),
            (TokenType::Eof, ""),
        ],
    );
}

#[test]
fn alphabetic_beyond_ascii_continues_identifier() {
    expect_tokens(
        "héllo = 1;",
        &[
            (TokenType::Ident, "héllo"),
            (TokenType::Assign, "="),
            (TokenType::Int, "1"),
            (TokenType::Semicolon, ";"),
            (TokenType::Eof, ""),
        ],
    );
}

#[test]
fn nul_character_is_illegal_not_end() {
    expect_tokens(
        "a\0b",
        &[
            (TokenType::Ident, "a"),
            (TokenType::Illegal, "\0"),
            (TokenType::Ident, "b"),
            (TokenType::Eof, ""),
        ],
    );
}
