use lox::lexer::Lexer;
use lox::token::{Token, TokenType};

fn lex(source: &str) -> Vec<Token> {
    Lexer::new(source.to_string()).tokens()
}

fn kinds(source: &str) -> Vec<TokenType> {
    lex(source).iter().map(|t| t.token_type).collect()
}

fn lexemes(source: &str) -> Vec<String> {
    lex(source).iter().map(|t| t.literal.clone()).collect()
}

#[test]
fn token_new_keeps_kind_and_lexeme() {
    let token = Token::new(TokenType::Identifier, "abc".to_string());
    assert_eq!(token.token_type, TokenType::Identifier);
    assert_eq!(token.literal, "abc");
}

#[test]
fn empty_input_is_one_eof() {
    assert_eq!(kinds(""), vec![TokenType::Eof]);
    assert_eq!(lexemes(""), vec![String::new()]);
}

#[test]
fn single_character_tokens() {
    assert_eq!(
        kinds("( ) { } , . - + ; * /\n"),
        vec![
            TokenType::LeftParen,
            TokenType::RightParen,
            TokenType::LeftBrace,
            TokenType::RightBrace,
            TokenType::Comma,
            TokenType::Dot,
            TokenType::Minus,
            TokenType::Plus,
            TokenType::Semicolon,
            TokenType::Star,
            TokenType::Slash,
            TokenType::Eof,
        ]
    );
    assert_eq!(
        lexemes("( ) { } , . - + ; * /\n"),
        vec!["(", ")", "{", "}", ",", ".", "-", "+", ";", "*", "/", ""]
    );
}

#[test]
fn single_character_tokens_without_blanks() {
    assert_eq!(
        kinds("(){},.-+;*\n"),
        vec![
            TokenType::LeftParen,
            TokenType::RightParen,
            TokenType::LeftBrace,
            TokenType::RightBrace,
            TokenType::Comma,
            TokenType::Dot,
            TokenType::Minus,
            TokenType::Plus,
            TokenType::Semicolon,
            TokenType::Star,
            TokenType::Eof,
        ]
    );
}

#[test]
fn one_or_two_character_operators() {
    assert_eq!(
        kinds("= == ! != < <= > >=\n"),
        vec![
            TokenType::Equal,
            TokenType::EqualEqual,
            TokenType::Bang,
            TokenType::BangEqual,
            TokenType::Less,
            TokenType::LessEqual,
            TokenType::Greater,
            TokenType::GreaterEqual,
            TokenType::Eof,
        ]
    );
    assert_eq!(
        lexemes("= == ! != < <= > >=\n"),
        vec!["=", "==", "!", "!=", "<", "<=", ">", ">=", ""]
    );
}

#[test]
fn equal_signs_pair_up_from_the_left() {
    assert_eq!(
        kinds("===\n"),
        vec![TokenType::EqualEqual, TokenType::Equal, TokenType::Eof]
    );
    assert_eq!(
        kinds("<==\n"),
        vec![TokenType::LessEqual, TokenType::Equal, TokenType::Eof]
    );
    assert_eq!(
        kinds("! =\n"),
        vec![TokenType::Bang, TokenType::Equal, TokenType::Eof]
    );
}

#[test]
fn every_keyword_has_its_own_kind() {
    let source = "and class else false fun for if nil or print return super this true var while\n";
    assert_eq!(
        kinds(source),
        vec![
            TokenType::And,
            TokenType::Class,
            TokenType::Else,
            TokenType::False,
            TokenType::Fun,
            TokenType::For,
            TokenType::If,
            TokenType::Nil,
            TokenType::Or,
            TokenType::Print,
            TokenType::Return,
            TokenType::Super,
            TokenType::This,
            TokenType::True,
            TokenType::Var,
            TokenType::While,
            TokenType::Eof,
        ]
    );
    assert_eq!(
        lexemes(source),
        vec![
            "and", "class", "else", "false", "fun", "for", "if", "nil", "or", "print", "return",
            "super", "this", "true", "var", "while", ""
        ]
    );
}

#[test]
fn keywords_are_never_identifiers() {
    for word in [
        "and", "class", "else", "false", "fun", "for", "if", "nil", "or", "print", "return",
        "super", "this", "true", "var", "while",
    ] {
        let tokens = lex(&format!("{} ", word));
        assert_eq!(tokens.len(), 2);
        assert_ne!(tokens[0].token_type, TokenType::Identifier);
        assert_eq!(tokens[0].literal, word);
        assert_eq!(lox::lexer::keyword(word), tokens[0].token_type);
    }
}

#[test]
fn words_around_keywords_are_identifiers() {
    assert_eq!(
        kinds("printer ands iff var1 Print IF x\n"),
        vec![
            TokenType::Identifier,
            TokenType::Identifier,
            TokenType::Identifier,
            TokenType::Identifier,
            TokenType::Identifier,
            TokenType::Identifier,
            TokenType::Identifier,
            TokenType::Eof,
        ]
    );
    assert_eq!(
        lexemes("printer ands iff var1 Print IF x\n"),
        vec!["printer", "ands", "iff", "var1", "Print", "IF", "x", ""]
    );
}

#[test]
fn keyword_lookup_on_plain_words() {
    assert_eq!(lox::lexer::keyword("print"), TokenType::Print);
    assert_eq!(lox::lexer::keyword("prin"), TokenType::Identifier);
    assert_eq!(lox::lexer::keyword("printt"), TokenType::Identifier);
    assert_eq!(lox::lexer::keyword(""), TokenType::Identifier);
    assert_eq!(lox::lexer::keyword("While"), TokenType::Identifier);
}

#[test]
fn same_text_compares_characters() {
    assert!(lox::lexer::same_text("", ""));
    assert!(lox::lexer::same_text("var", "var"));
    assert!(!lox::lexer::same_text("var", "vat"));
    assert!(!lox::lexer::same_text("var", "va"));
    assert!(lox::lexer::same_text("h\u{e9}", "h\u{e9}"));
}

#[test]
fn identifiers_go_on_over_letters_of_any_alphabet() {
    let tokens = lex("caf\u{e9}9 x\n");
    assert_eq!(tokens[0].token_type, TokenType::Identifier);
    assert_eq!(tokens[0].literal, "caf\u{e9}9");
    assert_eq!(tokens[1].literal, "x");
}

#[test]
fn identifiers_start_with_a_basic_letter_only() {
    let tokens = lex("\u{e9}a\n");
    assert_eq!(tokens[0].token_type, TokenType::Unknown);
    assert_eq!(tokens[0].literal, "");
    assert_eq!(tokens[1].token_type, TokenType::Identifier);
    assert_eq!(tokens[1].literal, "a");
}

#[test]
fn underscore_is_not_part_of_a_word() {
    assert_eq!(
        kinds("a_b\n"),
        vec![
            TokenType::Identifier,
            TokenType::Unknown,
            TokenType::Identifier,
            TokenType::Eof
        ]
    );
}

#[test]
fn numbers_with_and_without_fraction() {
    assert_eq!(
        kinds("12 3.25 007\n"),
        vec![
            TokenType::NumberLiteral,
            TokenType::NumberLiteral,
            TokenType::NumberLiteral,
            TokenType::Eof
        ]
    );
    assert_eq!(lexemes("12 3.25 007\n"), vec!["12", "3.25", "007", ""]);
}

#[test]
fn a_point_without_a_digit_behind_it_is_left_alone() {
    assert_eq!(
        kinds("7. 1.x .5 1.2.3\n"),
        vec![
            TokenType::NumberLiteral,
            TokenType::Dot,
            TokenType::NumberLiteral,
            TokenType::Dot,
            TokenType::Identifier,
            TokenType::Dot,
            TokenType::NumberLiteral,
            TokenType::NumberLiteral,
            TokenType::Dot,
            TokenType::NumberLiteral,
            TokenType::Eof,
        ]
    );
    assert_eq!(
        lexemes("7. 1.x .5 1.2.3\n"),
        vec!["7", ".", "1", ".", "x", ".", "5", "1.2", ".", "3", ""]
    );
}

#[test]
fn digits_then_letters_are_two_tokens() {
    assert_eq!(lexemes("12ab\n"), vec!["12", "ab", ""]);
}

#[test]
fn string_literal_keeps_its_quotes() {
    let tokens = lex("\"hi there\" 1\n");
    assert_eq!(tokens[0].token_type, TokenType::StringLiteral);
    assert_eq!(tokens[0].literal, "\"hi there\"");
    assert_eq!(tokens[1].token_type, TokenType::NumberLiteral);
    assert_eq!(tokens[2].token_type, TokenType::Eof);
}

#[test]
fn empty_string_literal() {
    let tokens = lex("\"\"\n");
    assert_eq!(tokens[0].token_type, TokenType::StringLiteral);
    assert_eq!(tokens[0].literal, "\"\"");
}

#[test]
fn comment_marks_inside_a_string_are_text() {
    let tokens = lex("\"a // b\" 2\n");
    assert_eq!(tokens[0].token_type, TokenType::StringLiteral);
    assert_eq!(tokens[0].literal, "\"a // b\"");
    assert_eq!(tokens[1].literal, "2");
}

#[test]
fn unterminated_string_is_an_unknown_token() {
    let mut lexer = Lexer::new("\"abc".to_string());
    let first = lexer.next_token();
    assert_eq!(first.token_type, TokenType::Unknown);
    assert_eq!(first.literal, "Unterimated string");
    assert_eq!(lexer.next_token().token_type, TokenType::Eof);
}

#[test]
fn unterminated_string_after_other_tokens() {
    let tokens = lex("1 + \"abc\ndef");
    assert_eq!(
        tokens.iter().map(|t| t.token_type).collect::<Vec<_>>(),
        vec![
            TokenType::NumberLiteral,
            TokenType::Plus,
            TokenType::Unknown,
            TokenType::Eof
        ]
    );
    assert_eq!(tokens[2].literal, "Unterimated string");
}

#[test]
fn a_null_character_ends_a_string_like_the_end_of_input() {
    let tokens = lex("\"ab\0cd\"\n");
    assert_eq!(tokens[0].token_type, TokenType::Unknown);
    assert_eq!(tokens[0].literal, "Unterimated string");
}

#[test]
fn line_comment_is_skipped() {
    assert_eq!(lexemes("1 // one\n2 // two\n3\n"), vec!["1", "2", "3", ""]);
    assert_eq!(
        kinds("// only a comment\n"),
        vec![TokenType::Eof]
    );
}

#[test]
fn line_comment_at_the_end_without_newline() {
    assert_eq!(lexemes("1 // one"), vec!["1", ""]);
}

#[test]
fn comments_in_a_row() {
    assert_eq!(lexemes("// a\n// b\n  // c\n7\n"), vec!["7", ""]);
}

#[test]
fn a_single_slash_is_an_operator() {
    assert_eq!(
        kinds("8 / 2\n"),
        vec![
            TokenType::NumberLiteral,
            TokenType::Slash,
            TokenType::NumberLiteral,
            TokenType::Eof
        ]
    );
}

#[test]
fn unknown_character_has_an_empty_lexeme() {
    let tokens = lex("@ # 1\n");
    assert_eq!(tokens[0].token_type, TokenType::Unknown);
    assert_eq!(tokens[0].literal, "");
    assert_eq!(tokens[1].token_type, TokenType::Unknown);
    assert_eq!(tokens[1].literal, "");
    assert_eq!(tokens[2].token_type, TokenType::NumberLiteral);
    assert_eq!(tokens[3].token_type, TokenType::Eof);
}

#[test]
fn the_character_in_front_of_the_end_is_never_scanned() {
    assert_eq!(lexemes("1;"), vec!["1", ""]);
    assert_eq!(lexemes("7"), vec![""]);
    assert_eq!(lexemes("1;\n"), vec!["1", ";", ""]);
    assert_eq!(lexemes("1 ;"), vec!["1", ";", ""]);
}

#[test]
fn a_null_character_behind_the_cursor_ends_the_input() {
    assert_eq!(lexemes("1 \02 3\n"), vec!["1", ""]);
    assert_eq!(lexemes("12\0 3\n"), vec!["12", "", "3", ""]);
}

#[test]
fn blanks_up_to_the_end_are_followed_by_the_end_of_input() {
    assert_eq!(
        kinds("1;  "),
        vec![
            TokenType::NumberLiteral,
            TokenType::Semicolon,
            TokenType::Eof
        ]
    );
    assert_eq!(
        kinds("1;\n\n"),
        vec![
            TokenType::NumberLiteral,
            TokenType::Semicolon,
            TokenType::Eof
        ]
    );
    assert_eq!(
        kinds("1; \t\r\n  \n"),
        vec![
            TokenType::NumberLiteral,
            TokenType::Semicolon,
            TokenType::Eof
        ]
    );
}

#[test]
fn text_of_blanks_only_is_one_eof() {
    assert_eq!(kinds(" "), vec![TokenType::Eof]);
    assert_eq!(kinds("  "), vec![TokenType::Eof]);
    assert_eq!(kinds("  \n"), vec![TokenType::Eof]);
    assert_eq!(kinds("\n\n\n\n"), vec![TokenType::Eof]);
    assert_eq!(lexemes(" \t \r\n "), vec![String::new()]);
    let mut lexer = Lexer::new("  ".to_string());
    assert_eq!(lexer.next_token().token_type, TokenType::Eof);
    assert_eq!(lexer.next_token().token_type, TokenType::Eof);
}

#[test]
fn newlines_up_to_the_end_are_counted() {
    let mut lexer = Lexer::new("1\n\n\n".to_string());
    assert_eq!(lexer.next_token().literal, "1");
    assert_eq!(lexer.line(), 1);
    assert_eq!(lexer.next_token().token_type, TokenType::Eof);
    assert_eq!(lexer.line(), 4);
    assert_eq!(lexer.next_token().token_type, TokenType::Eof);
    assert_eq!(lexer.line(), 4);
}

#[test]
fn blanks_behind_a_comment_up_to_the_end() {
    assert_eq!(lexemes("1 // one\n  \n"), vec!["1", ""]);
    assert_eq!(lexemes("// one\n\n\n"), vec![""]);
}

#[test]
fn a_null_character_behind_blanks_is_an_unknown_character() {
    assert_eq!(
        kinds("1   \0\n"),
        vec![TokenType::NumberLiteral, TokenType::Unknown, TokenType::Eof]
    );
}

#[test]
fn next_token_hands_out_one_token_per_call() {
    let mut lexer = Lexer::new("var x = 1;\n".to_string());
    let expected = [
        (TokenType::Var, "var"),
        (TokenType::Identifier, "x"),
        (TokenType::Equal, "="),
        (TokenType::NumberLiteral, "1"),
        (TokenType::Semicolon, ";"),
        (TokenType::Eof, ""),
        (TokenType::Eof, ""),
    ];
    for (kind, lexeme) in expected {
        let token = lexer.next_token();
        assert_eq!(token.token_type, kind);
        assert_eq!(token.literal, lexeme);
    }
}

#[test]
fn tokens_end_with_exactly_one_eof() {
    for source in ["", "1", "1 + 2;\n", "// c\n", "\"open", "a b c d e\n"] {
        let tokens = lex(source);
        let eofs = tokens
            .iter()
            .filter(|t| t.token_type == TokenType::Eof)
            .count();
        assert_eq!(eofs, 1);
        assert_eq!(tokens.last().unwrap().token_type, TokenType::Eof);
        assert_eq!(tokens.last().unwrap().literal, "");
    }
}

#[test]
fn tokens_continue_from_the_cursor() {
    let mut lexer = Lexer::new("1 + 2;\n".to_string());
    let first = lexer.next_token();
    assert_eq!(first.literal, "1");
    let rest = lexer.tokens();
    assert_eq!(
        rest.iter().map(|t| t.literal.as_str()).collect::<Vec<_>>(),
        vec!["+", "2", ";", ""]
    );
    assert_eq!(lexer.tokens().len(), 1);
}

#[test]
fn scanner_starts_on_line_one() {
    let lexer = Lexer::new("1\n2\n".to_string());
    assert_eq!(lexer.line(), 1);
}

#[test]
fn newlines_between_tokens_are_counted() {
    let mut lexer = Lexer::new("1\n\n2\r\n3\n".to_string());
    assert_eq!(lexer.next_token().literal, "1");
    assert_eq!(lexer.line(), 1);
    assert_eq!(lexer.next_token().literal, "2");
    assert_eq!(lexer.line(), 3);
    assert_eq!(lexer.next_token().literal, "3");
    assert_eq!(lexer.line(), 4);
    assert_eq!(lexer.next_token().token_type, TokenType::Eof);
    assert_eq!(lexer.line(), 4);
}

#[test]
fn newlines_in_strings_and_comments_are_counted() {
    let mut lexer = Lexer::new("\"a\nb\nc\" // x\n1\n".to_string());
    assert_eq!(lexer.next_token().token_type, TokenType::StringLiteral);
    assert_eq!(lexer.line(), 3);
    assert_eq!(lexer.next_token().literal, "1");
    assert_eq!(lexer.line(), 4);
}

#[test]
fn rejoined_lexemes_are_the_source_without_blanks_and_comments() {
    let source = "print (1 + 2.5) * x1; // sum\nvar s = \"a b\" ;\n";
    let joined: String = lexemes(source).concat();
    assert_eq!(joined, "print(1+2.5)*x1;vars=\"a b\";");
}

#[test]
fn scanning_twice_gives_the_same_tokens() {
    let source = "print 1 + 2 * (3 - 4) / 5; // done\n";
    let a = lex(source);
    let b = lex(source);
    assert_eq!(a.len(), b.len());
    for (x, y) in a.iter().zip(b.iter()) {
        assert_eq!(x.token_type, y.token_type);
        assert_eq!(x.literal, y.literal);
    }
}

#[test]
fn every_number_lexeme_reads_as_a_number() {
    let tokens = lex("0 7 12.5 007 3.14159 10.0 1.2.3 9.\n");
    let mut numbers = 0;
    for token in tokens.iter() {
        if token.token_type == TokenType::NumberLiteral {
            numbers += 1;
            assert!(token.literal.parse::<f64>().is_ok());
            assert!(token.literal.chars().all(|c| c.is_ascii_digit() || c == '.'));
            assert!(token.literal.chars().filter(|c| *c == '.').count() <= 1);
        }
    }
    assert_eq!(numbers, 9);
}

#[test]
fn character_classes() {
    assert!(lox::chars::blank(' ') && lox::chars::blank('\t'));
    assert!(lox::chars::blank('\r') && lox::chars::blank('\n'));
    assert!(!lox::chars::blank('a') && !lox::chars::blank('\0'));
    assert!(lox::chars::digit('0') && lox::chars::digit('9'));
    assert!(!lox::chars::digit('a') && !lox::chars::digit('\u{663}'));
    assert!(lox::chars::letter('a') && lox::chars::letter('Z'));
    assert!(!lox::chars::letter('\u{e9}') && !lox::chars::letter('_'));
    assert!(lox::chars::word('\u{e9}') && lox::chars::word('5') && lox::chars::word('q'));
    assert!(lox::chars::word('A') && lox::chars::word('z') && lox::chars::word('\u{4eac}'));
    assert!(!lox::chars::word('_') && !lox::chars::word(' ') && !lox::chars::word('/'));
    assert!(!lox::chars::word('"') && !lox::chars::word('\n') && !lox::chars::word('\x7f'));
    assert!(!lox::chars::word('\u{663}') && !lox::chars::word('\u{1f49d}'));
    for code in 0u8..=127 {
        let c = code as char;
        assert_eq!(lox::chars::word(c), c.is_alphabetic() || c.is_digit(10));
    }
}
