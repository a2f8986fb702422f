use tinylang::lexer::{tokenize, Lexer};
use tinylang::token::{number_value, Token, TokenKind};

fn kinds(tokens: &[Token]) -> Vec<TokenKind> {
    tokens.iter().map(|t| t.kind).collect()
}

#[test]
fn tokenize_simple_program_has_single_trailing_eof_and_no_errors() {
    let (tokens, errors) = tokenize("(let x 5)");
    assert!(errors.is_empty());
    assert_eq!(
        kinds(&tokens),
        vec![
            TokenKind::LeftParen,
            TokenKind::KwLet,
            TokenKind::Ident,
            TokenKind::Num,
            TokenKind::RightParen,
            TokenKind::Eof,
        ]
    );
    let eof_count = tokens.iter().filter(|t| t.kind == TokenKind::Eof).count();
    assert_eq!(eof_count, 1);
}

#[test]
fn tokenize_operators_and_comparisons() {
    let (tokens, errors) = tokenize("+ - * / % < <= > >= = ~ and or { } , .");
    assert!(errors.is_empty());
    assert_eq!(
        kinds(&tokens),
        vec![
            TokenKind::Plus,
            TokenKind::Minus,
            TokenKind::Star,
            TokenKind::Slash,
            TokenKind::Percent,
            TokenKind::Less,
            TokenKind::LessEqual,
            TokenKind::Greater,
            TokenKind::GreaterEqual,
            TokenKind::Equal,
            TokenKind::Tilde,
            TokenKind::KwAnd,
            TokenKind::KwOr,
            TokenKind::LeftBrace,
            TokenKind::RightBrace,
            TokenKind::Comma,
            TokenKind::Dot,
            TokenKind::Eof,
        ]
    );
}

#[test]
fn tokenize_keywords_and_identifiers() {
    let (tokens, errors) = tokenize("func if nil or ret true false while let const set and foo_1:b");
    assert!(errors.is_empty());
    assert_eq!(
        kinds(&tokens),
        vec![
            TokenKind::KwFunc,
            TokenKind::KwIf,
            TokenKind::KwNil,
            TokenKind::KwOr,
            TokenKind::KwRet,
            TokenKind::KwTrue,
            TokenKind::KwFalse,
            TokenKind::KwWhile,
            TokenKind::KwLet,
            TokenKind::KwConst,
            TokenKind::KwSet,
            TokenKind::KwAnd,
            TokenKind::Ident,
            TokenKind::Eof,
        ]
    );
    assert_eq!(tokens[12].text, "foo_1:b");
}

#[test]
fn tokenize_numbers_and_negative_sign() {
    let (tokens, errors) = tokenize("12 3.5 -7 - 4");
    assert!(errors.is_empty());
    assert_eq!(
        kinds(&tokens),
        vec![
            TokenKind::Num,
            TokenKind::Num,
            TokenKind::Num,
            TokenKind::Minus,
            TokenKind::Num,
            TokenKind::Eof,
        ]
    );
    assert_eq!(tokens[0].text, "12");
    assert_eq!(tokens[1].text, "3.5");
    assert_eq!(tokens[2].text, "-7");
}

#[test]
fn tokenize_strings_keep_delimiters_in_text() {
    let (tokens, errors) = tokenize("\"hello\" 'wo rld'");
    assert!(errors.is_empty());
    assert_eq!(kinds(&tokens), vec![TokenKind::StrLit, TokenKind::StrLit, TokenKind::Eof]);
    assert_eq!(tokens[0].text, "\"hello\"");
    assert_eq!(tokens[1].text, "'wo rld'");
}

#[test]
fn unterminated_string_reports_one_error_and_no_token() {
    let (tokens, errors) = tokenize("\"never closed");
    assert_eq!(errors, vec!["1 | Unterminated string".to_string()]);
    assert_eq!(kinds(&tokens), vec![TokenKind::Eof]);
}

#[test]
fn unexpected_character_reports_error_and_continues() {
    let (tokens, errors) = tokenize("( @ )");
    assert_eq!(errors, vec!["1 | Unexpected character: @".to_string()]);
    assert_eq!(
        kinds(&tokens),
        vec![TokenKind::LeftParen, TokenKind::RightParen, TokenKind::Eof]
    );
}

#[test]
fn comments_are_skipped_and_lines_counted() {
    let (tokens, errors) = tokenize("# line comment\nx\n%% block\ncomment %% y");
    assert!(errors.is_empty());
    assert_eq!(kinds(&tokens), vec![TokenKind::Ident, TokenKind::Ident, TokenKind::Eof]);
    assert_eq!(tokens[0].line, 2);
    assert_eq!(tokens[1].line, 4);
}

#[test]
fn token_lines_start_at_one_and_follow_newlines() {
    let (tokens, errors) = tokenize("a\nb");
    assert!(errors.is_empty());
    assert_eq!(tokens[0].line, 1);
    assert_eq!(tokens[1].line, 2);
}

#[test]
fn lexer_get_errors_is_none_without_errors() {
    let mut lexer = Lexer::new("(x)");
    let _ = lexer.scan_tokens();
    assert!(lexer.get_errors().is_none());
    let mut bad = Lexer::new("@");
    let _ = bad.scan_tokens();
    let errs = bad.get_errors().unwrap();
    assert_eq!(errs.len(), 1);
}

#[test]
fn empty_source_scans_to_a_single_eof() {
    let (tokens, errors) = tokenize("");
    assert!(errors.is_empty());
    assert_eq!(kinds(&tokens), vec![TokenKind::Eof]);
    assert_eq!(tokens[0].line, 1);
}

#[test]
fn number_value_parses_integers_and_truncates_fractions() {
    assert_eq!(number_value(&"42".to_string()), 42);
    assert_eq!(number_value(&"-7".to_string()), -7);
    assert_eq!(number_value(&"3.5".to_string()), 3);
    assert_eq!(number_value(&"0".to_string()), 0);
    assert_eq!(number_value(&"99999999999999999999".to_string()), -1);
}
