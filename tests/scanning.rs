use rox::literals::LiteralType;
use rox::rox::Rox;
use rox::scanner::Scanner;
use rox::token::Token;
use rox::token_type::TokenType;

fn scan(source: &str) -> (Vec<Token>, Rox) {
    let mut rox = Rox::new(false);
    let tokens = rox.run(&source.to_string());
    (tokens, rox)
}

fn kinds(tokens: &[Token]) -> Vec<TokenType> {
    tokens.iter().map(|t| t._type).collect()
}

fn text_of(literal: &LiteralType) -> String {
    match literal {
        LiteralType::Custom(s) => s.clone(),
        LiteralType::Number(s) => s.clone(),
        LiteralType::Text(s) => s.to_string(),
        LiteralType::Eof => String::new(),
    }
}

#[test]
fn parenthesised_sum() {
    let (tokens, rox) = scan("(1 + 2)");
    assert_eq!(
        kinds(&tokens),
        vec![
            TokenType::LeftParen,
            TokenType::Number,
            TokenType::Plus,
            TokenType::Number,
            TokenType::RightParen,
            TokenType::Eof
        ]
    );
    assert!(matches!(&tokens[1].literal, LiteralType::Number(n) if n.parse::<f64>().unwrap() == 1.0));
    assert!(matches!(&tokens[3].literal, LiteralType::Number(n) if n.parse::<f64>().unwrap() == 2.0));
    assert!(!rox.had_error);
}

#[test]
fn variable_declaration() {
    let (tokens, rox) = scan("var x = 10;");
    assert_eq!(
        kinds(&tokens),
        vec![
            TokenType::Var,
            TokenType::Identifier,
            TokenType::Equal,
            TokenType::Number,
            TokenType::Semicolon,
            TokenType::Eof
        ]
    );
    assert_eq!(text_of(&tokens[1].literal), "x");
    assert!(matches!(&tokens[3].literal, LiteralType::Number(n) if n.parse::<f64>().unwrap() == 10.0));
    assert!(!rox.had_error);
}

#[test]
fn comment_then_plus() {
    let (tokens, rox) = scan("// hi\n+");
    assert_eq!(kinds(&tokens), vec![TokenType::Comment, TokenType::Plus, TokenType::Eof]);
    assert_eq!(text_of(&tokens[0].literal), "hi");
    assert_eq!(tokens[0].line, 1);
    assert_eq!(tokens[1].line, 2);
    assert!(!rox.had_error);
}

#[test]
fn unterminated_string() {
    let (tokens, rox) = scan("\"abc");
    assert_eq!(kinds(&tokens), vec![TokenType::Eof]);
    assert!(rox.had_error);
    assert_eq!(rox.diagnostics.len(), 1);
    assert_eq!(rox.diagnostics[0].message, "Unterminated string.");
}

#[test]
fn unrecognized_character() {
    let (tokens, rox) = scan("@");
    assert_eq!(kinds(&tokens), vec![TokenType::Eof]);
    assert!(rox.had_error);
    assert_eq!(rox.diagnostics.len(), 1);
    assert_eq!(rox.diagnostics[0].line, 1);
    assert_eq!(rox.diagnostics[0].location, "");
    assert_eq!(rox.diagnostics[0].message, "Unrecognized character: @");
}

#[test]
fn empty_source() {
    let (tokens, rox) = scan("");
    assert_eq!(kinds(&tokens), vec![TokenType::Eof]);
    assert!(matches!(tokens[0].literal, LiteralType::Eof));
    assert_eq!(tokens[0].line, 1);
    assert!(!rox.had_error);
}

#[test]
fn ends_with_single_eof() {
    for source in ["", "@#$", "\"open", "a b c", "1.2.3", "// only a comment", "\n\n\n"] {
        let (tokens, _) = scan(source);
        let eofs = tokens.iter().filter(|t| t._type == TokenType::Eof).count();
        assert_eq!(eofs, 1);
        assert_eq!(tokens.last().unwrap()._type, TokenType::Eof);
    }
}

#[test]
fn same_input_same_output() {
    let source = "fun f(a) { return a >= 1.5 and !b; } // done\n@";
    let (first, rox1) = scan(source);
    let (second, rox2) = scan(source);
    assert_eq!(kinds(&first), kinds(&second));
    assert_eq!(format!("{:?}", first), format!("{:?}", second));
    assert_eq!(rox1.had_error, rox2.had_error);
    assert!(rox1.had_error);
}

#[test]
fn operators_rescan_to_themselves() {
    let (tokens, _) = scan("( ) { } , . - + ; / * ! != = == > >= < <=");
    assert_eq!(tokens.len(), 20);
    for t in &tokens[..tokens.len() - 1] {
        let lexeme = text_of(&t.literal);
        assert_eq!(lexeme, t._type.lexeme());
        let (again, rox) = scan(&lexeme);
        assert_eq!(kinds(&again), vec![t._type, TokenType::Eof]);
        assert!(!rox.had_error);
    }
}

#[test]
fn two_character_operators_win() {
    let (tokens, _) = scan("!= == <= >= !==");
    assert_eq!(
        kinds(&tokens),
        vec![
            TokenType::BangEqual,
            TokenType::EqualEqual,
            TokenType::LessEqual,
            TokenType::GreaterEqual,
            TokenType::BangEqual,
            TokenType::Equal,
            TokenType::Eof
        ]
    );
    let (tokens, _) = scan("! = < >");
    assert_eq!(
        kinds(&tokens),
        vec![TokenType::Bang, TokenType::Equal, TokenType::Less, TokenType::Greater, TokenType::Eof]
    );
}

#[test]
fn unterminated_string_reported_on_its_last_line() {
    let (tokens, rox) = scan("\"a\nb");
    assert_eq!(kinds(&tokens), vec![TokenType::Eof]);
    assert_eq!(tokens[0].line, 2);
    assert_eq!(rox.diagnostics[0].line, 2);
}

#[test]
fn other_kinds_have_no_fixed_lexeme() {
    assert_eq!(TokenType::Identifier.lexeme(), "");
    assert_eq!(TokenType::Eof.lexeme(), "");
    assert_eq!(TokenType::BangEqual.lexeme(), "!=");
}

#[test]
fn lines_follow_newlines() {
    let (tokens, _) = scan("a\nb\n\nc");
    assert_eq!(tokens.iter().map(|t| t.line).collect::<Vec<_>>(), vec![1, 2, 4, 4]);
}

#[test]
fn multi_line_string_takes_its_first_line() {
    let (tokens, rox) = scan("\"a\nb\" x");
    assert_eq!(kinds(&tokens), vec![TokenType::String, TokenType::Identifier, TokenType::Eof]);
    assert_eq!(text_of(&tokens[0].literal), "a\nb");
    assert_eq!(tokens[0].line, 1);
    assert_eq!(tokens[1].line, 2);
    assert!(!rox.had_error);
}

#[test]
fn numbers_with_and_without_fraction() {
    let (tokens, _) = scan("3.14 7. 42");
    assert_eq!(
        kinds(&tokens),
        vec![TokenType::Number, TokenType::Number, TokenType::Dot, TokenType::Number, TokenType::Eof]
    );
    assert_eq!(text_of(&tokens[0].literal), "3.14");
    assert_eq!(text_of(&tokens[1].literal), "7");
    assert_eq!(text_of(&tokens[3].literal), "42");
}

#[test]
fn keywords_and_identifiers() {
    let (tokens, _) = scan(
        "and or class if else true false nil for fun print return super this var while _x1 While",
    );
    assert_eq!(
        kinds(&tokens),
        vec![
            TokenType::And,
            TokenType::Or,
            TokenType::Class,
            TokenType::If,
            TokenType::Else,
            TokenType::True,
            TokenType::False,
            TokenType::Nil,
            TokenType::For,
            TokenType::Fun,
            TokenType::Print,
            TokenType::Return,
            TokenType::Super,
            TokenType::This,
            TokenType::Var,
            TokenType::While,
            TokenType::Identifier,
            TokenType::Identifier,
            TokenType::Eof
        ]
    );
    assert_eq!(text_of(&tokens[0].literal), "and");
    assert_eq!(text_of(&tokens[16].literal), "_x1");
}

#[test]
fn comment_body_is_trimmed() {
    let (tokens, _) = scan("//   spaced out\t \n/");
    assert_eq!(kinds(&tokens), vec![TokenType::Comment, TokenType::Slash, TokenType::Eof]);
    assert_eq!(text_of(&tokens[0].literal), "spaced out");
}

#[test]
fn errors_do_not_stop_the_scan() {
    let (tokens, rox) = scan("a @ b\n# c");
    assert_eq!(
        kinds(&tokens),
        vec![TokenType::Identifier, TokenType::Identifier, TokenType::Identifier, TokenType::Eof]
    );
    assert_eq!(rox.diagnostics.len(), 2);
    assert_eq!(rox.diagnostics[0].line, 1);
    assert_eq!(rox.diagnostics[1].line, 2);
    assert_eq!(rox.diagnostics[1].message, "Unrecognized character: #");
}

#[test]
fn error_flag_is_sticky() {
    let mut rox = Rox::new(false);
    rox.run(&"@".to_string());
    assert!(rox.had_error);
    rox.run(&"1 + 2".to_string());
    assert!(rox.had_error);
    assert_eq!(rox.diagnostics.len(), 1);
}

#[test]
fn error_records_a_diagnostic() {
    let mut rox = Rox::new(false);
    Rox::error(7, "bad thing".to_string(), &mut rox);
    assert!(rox.had_error);
    assert_eq!(rox.diagnostics.len(), 1);
    assert_eq!(rox.diagnostics[0].line, 7);
    assert_eq!(rox.diagnostics[0].message, "bad thing");
}

#[test]
fn new_session_holds_reserved_words() {
    let rox = Rox::new(true);
    assert!(rox.had_error);
    assert_eq!(rox.keywords.len(), 16);
    assert_eq!(rox.keyword_for(&"while".to_string()), TokenType::While);
    assert_eq!(rox.keyword_for(&"whilst".to_string()), TokenType::Identifier);
    assert!(rox.diagnostics.is_empty());
}

#[test]
fn scanner_used_directly() {
    let mut rox = Rox::new(false);
    let mut scanner = Scanner::new("x\n;".to_string());
    assert!(scanner.tokens().is_empty());
    scanner.scan_tokens(&mut rox);
    let tokens = scanner.into_tokens();
    assert_eq!(kinds(&tokens), vec![TokenType::Identifier, TokenType::Semicolon, TokenType::Eof]);
    assert_eq!(tokens[2].line, 2);
    assert!(tokens.iter().all(|t| t.lexeme.is_none()));
}
