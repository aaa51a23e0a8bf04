use compiler::lexer::cursor::Cursor;
use compiler::lexer::lexer::keyword_or_identifier;
use compiler::lexer::text::{same_text, width_of};
use compiler::lexer::{Lexer, LexerError, Span, Token, TokenKind};

fn token(kind: TokenKind, start: usize, end: usize) -> Token {
    Token { kind, span: Span { start, end } }
}

fn all_tokens(source: &str) -> Vec<Result<Token, LexerError>> {
    let mut lexer = Lexer::new(source);
    let mut out = Vec::new();
    loop {
        let next = lexer.nextToken();
        let done = matches!(&next, Ok(t) if t.kind == TokenKind::Eof);
        out.push(next);
        if done || out.len() > 100 {
            return out;
        }
    }
}

#[test]
fn cursor_starts_before_the_first_character() {
    let cursor = Cursor::new("ab");
    assert_eq!(cursor.position(), 0);
    assert_eq!(cursor.peek(), Some('a'));
    assert_eq!(cursor.peek(), Some('a'));
    assert_eq!(cursor.position(), 0);
}

#[test]
fn cursor_advances_by_one_character() {
    let mut cursor = Cursor::new("ab");
    assert_eq!(cursor.advance(), Some('a'));
    assert_eq!(cursor.position(), 1);
    assert_eq!(cursor.peek(), Some('b'));
    assert_eq!(cursor.advance(), Some('b'));
    assert_eq!(cursor.position(), 2);
    assert_eq!(cursor.peek(), None);
    assert_eq!(cursor.advance(), None);
    assert_eq!(cursor.position(), 2);
}

#[test]
fn cursor_on_empty_text_yields_nothing() {
    let mut cursor = Cursor::new("");
    assert_eq!(cursor.peek(), None);
    assert_eq!(cursor.advance(), None);
    assert_eq!(cursor.position(), 0);
}

#[test]
fn cursor_moves_by_the_encoded_width() {
    // one, two, three and four bytes
    let source = "a\u{e9}\u{20ac}\u{1f600}z";
    let mut cursor = Cursor::new(source);
    assert_eq!(cursor.advance(), Some('a'));
    assert_eq!(cursor.position(), 1);
    assert_eq!(cursor.advance(), Some('\u{e9}'));
    assert_eq!(cursor.position(), 3);
    assert_eq!(cursor.advance(), Some('\u{20ac}'));
    assert_eq!(cursor.position(), 6);
    assert_eq!(cursor.peek(), Some('\u{1f600}'));
    assert_eq!(cursor.advance(), Some('\u{1f600}'));
    assert_eq!(cursor.position(), 10);
    assert_eq!(cursor.advance(), Some('z'));
    assert_eq!(cursor.position(), 11);
    assert_eq!(cursor.position(), source.len());
    assert_eq!(cursor.advance(), None);
}

#[test]
fn cursor_position_is_always_a_character_boundary() {
    let source = "\u{1f600}\u{e9}x\u{20ac}";
    let mut cursor = Cursor::new(source);
    loop {
        assert!(source.is_char_boundary(cursor.position()));
        if cursor.advance().is_none() {
            break;
        }
    }
    assert_eq!(cursor.position(), source.len());
}

#[test]
fn width_of_matches_the_encoding() {
    assert_eq!(width_of('\0'), 1);
    assert_eq!(width_of('\u{7f}'), 1);
    assert_eq!(width_of('\u{80}'), 2);
    assert_eq!(width_of('\u{7ff}'), 2);
    assert_eq!(width_of('\u{800}'), 3);
    assert_eq!(width_of('\u{ffff}'), 3);
    assert_eq!(width_of('\u{10000}'), 4);
    assert_eq!(width_of('\u{10ffff}'), 4);
    for c in ['a', '\u{e9}', '\u{d7ff}', '\u{e000}', '\u{1f600}'] {
        assert_eq!(width_of(c), c.len_utf8());
    }
}

#[test]
fn same_text_compares_contents() {
    assert!(same_text("", ""));
    assert!(same_text("var", "var"));
    assert!(!same_text("var", "vars"));
    assert!(!same_text("var", "vat"));
    assert!(!same_text("var", ""));
    assert!(same_text("h\u{e9}", "h\u{e9}"));
    assert!(!same_text("h\u{e9}", "h\u{e8}"));
}

#[test]
fn keyword_table() {
    assert_eq!(keyword_or_identifier("var".to_string()), TokenKind::Var);
    assert_eq!(keyword_or_identifier("func".to_string()), TokenKind::Func);
    assert_eq!(keyword_or_identifier("return".to_string()), TokenKind::Return);
    assert_eq!(keyword_or_identifier("if".to_string()), TokenKind::If);
    assert_eq!(keyword_or_identifier("else".to_string()), TokenKind::Else);
    assert_eq!(keyword_or_identifier("true".to_string()), TokenKind::True);
    assert_eq!(keyword_or_identifier("false".to_string()), TokenKind::False);
    assert_eq!(keyword_or_identifier("null".to_string()), TokenKind::Null);
}

#[test]
fn words_outside_the_keyword_table_are_identifiers() {
    for word in ["while", "for", "Var", "VAR", "variable", "va", "nulls", "_", "x1"] {
        assert_eq!(
            keyword_or_identifier(word.to_string()),
            TokenKind::Identifier(word.to_string())
        );
    }
}

#[test]
fn empty_input_yields_eof() {
    let mut lexer = Lexer::new("");
    assert_eq!(lexer.nextToken(), Ok(token(TokenKind::Eof, 0, 0)));
}

#[test]
fn eof_is_yielded_again_and_again() {
    let mut lexer = Lexer::new(";");
    assert_eq!(lexer.nextToken(), Ok(token(TokenKind::Semicolon, 0, 1)));
    assert_eq!(lexer.nextToken(), Ok(token(TokenKind::Eof, 1, 1)));
    assert_eq!(lexer.nextToken(), Ok(token(TokenKind::Eof, 1, 1)));
}

#[test]
fn whitespace_only_yields_eof_behind_the_whitespace() {
    let mut lexer = Lexer::new(" \t\r\n  ");
    assert_eq!(lexer.nextToken(), Ok(token(TokenKind::Eof, 6, 6)));
}

#[test]
fn unicode_whitespace_is_passed_over() {
    // a no-break space and an ideographic space: two and three bytes
    let mut lexer = Lexer::new("\u{a0}\u{3000}");
    assert_eq!(lexer.nextToken(), Ok(token(TokenKind::Eof, 5, 5)));
    let mut lexer = Lexer::new("\u{a0}\u{3000};");
    assert_eq!(lexer.nextToken(), Ok(token(TokenKind::Semicolon, 5, 6)));
}

#[test]
fn string_literal_spans_both_quotes() {
    let mut lexer = Lexer::new("\"abc\"");
    assert_eq!(
        lexer.nextToken(),
        Ok(token(TokenKind::StringLiteral("abc".to_string()), 0, 5))
    );
    assert_eq!(lexer.nextToken(), Ok(token(TokenKind::Eof, 5, 5)));
}

#[test]
fn unterminated_string_fails() {
    let mut lexer = Lexer::new("\"abc");
    assert_eq!(
        lexer.nextToken(),
        Err(LexerError::UnterminatedString { span: Span { start: 0, end: 4 } })
    );
    assert_eq!(lexer.nextToken(), Ok(token(TokenKind::Eof, 4, 4)));
}

#[test]
fn lone_quote_is_an_unterminated_string() {
    let mut lexer = Lexer::new("  \"");
    assert_eq!(
        lexer.nextToken(),
        Err(LexerError::UnterminatedString { span: Span { start: 2, end: 3 } })
    );
}

#[test]
fn empty_string_literal() {
    let mut lexer = Lexer::new("\"\"");
    assert_eq!(lexer.nextToken(), Ok(token(TokenKind::StringLiteral(String::new()), 0, 2)));
}

#[test]
fn string_literal_keeps_its_characters_as_they_are() {
    let mut lexer = Lexer::new("\"a b\\n\n\tvar ( \u{e9}\u{1f600}\" ;");
    assert_eq!(
        lexer.nextToken(),
        Ok(token(TokenKind::StringLiteral("a b\\n\n\tvar ( \u{e9}\u{1f600}".to_string()), 0, 21))
    );
    assert_eq!(lexer.nextToken(), Ok(token(TokenKind::Semicolon, 22, 23)));
}

#[test]
fn var_is_a_keyword() {
    let mut lexer = Lexer::new("var");
    assert_eq!(lexer.nextToken(), Ok(token(TokenKind::Var, 0, 3)));
    assert_eq!(lexer.nextToken(), Ok(token(TokenKind::Eof, 3, 3)));
}

#[test]
fn variable_is_an_identifier() {
    let mut lexer = Lexer::new("variable");
    assert_eq!(
        lexer.nextToken(),
        Ok(token(TokenKind::Identifier("variable".to_string()), 0, 8))
    );
    assert_eq!(lexer.nextToken(), Ok(token(TokenKind::Eof, 8, 8)));
}

#[test]
fn every_keyword_is_recognized() {
    let tokens = all_tokens("var func return if else true false null");
    let kinds: Vec<TokenKind> = tokens.into_iter().map(|t| t.unwrap().kind).collect();
    assert_eq!(
        kinds,
        vec![
            TokenKind::Var,
            TokenKind::Func,
            TokenKind::Return,
            TokenKind::If,
            TokenKind::Else,
            TokenKind::True,
            TokenKind::False,
            TokenKind::Null,
            TokenKind::Eof,
        ]
    );
}

#[test]
fn while_and_for_are_plain_identifiers() {
    let mut lexer = Lexer::new("while for");
    assert_eq!(lexer.nextToken(), Ok(token(TokenKind::Identifier("while".to_string()), 0, 5)));
    assert_eq!(lexer.nextToken(), Ok(token(TokenKind::Identifier("for".to_string()), 6, 9)));
}

#[test]
fn identifiers_take_letters_digits_and_underscores() {
    let mut lexer = Lexer::new("_a1_b2 x");
    assert_eq!(lexer.nextToken(), Ok(token(TokenKind::Identifier("_a1_b2".to_string()), 0, 6)));
    assert_eq!(lexer.nextToken(), Ok(token(TokenKind::Identifier("x".to_string()), 7, 8)));
    let mut lexer = Lexer::new("_");
    assert_eq!(lexer.nextToken(), Ok(token(TokenKind::Identifier("_".to_string()), 0, 1)));
}

#[test]
fn identifiers_may_hold_letters_beyond_ascii() {
    let mut lexer = Lexer::new("\u{e9}t\u{e9}2;");
    assert_eq!(
        lexer.nextToken(),
        Ok(token(TokenKind::Identifier("\u{e9}t\u{e9}2".to_string()), 0, 6))
    );
    assert_eq!(lexer.nextToken(), Ok(token(TokenKind::Semicolon, 6, 7)));
}

#[test]
fn identifier_ends_at_punctuation() {
    let mut lexer = Lexer::new("f(x)");
    assert_eq!(lexer.nextToken(), Ok(token(TokenKind::Identifier("f".to_string()), 0, 1)));
    assert_eq!(lexer.nextToken(), Ok(token(TokenKind::LeftParen, 1, 2)));
    assert_eq!(lexer.nextToken(), Ok(token(TokenKind::Identifier("x".to_string()), 2, 3)));
    assert_eq!(lexer.nextToken(), Ok(token(TokenKind::RightParen, 3, 4)));
    assert_eq!(lexer.nextToken(), Ok(token(TokenKind::Eof, 4, 4)));
}

#[test]
fn structural_tokens_span_one_byte() {
    let mut lexer = Lexer::new("(){};");
    assert_eq!(lexer.nextToken(), Ok(token(TokenKind::LeftParen, 0, 1)));
    assert_eq!(lexer.nextToken(), Ok(token(TokenKind::RightParen, 1, 2)));
    assert_eq!(lexer.nextToken(), Ok(token(TokenKind::LeftBrace, 2, 3)));
    assert_eq!(lexer.nextToken(), Ok(token(TokenKind::RightBrace, 3, 4)));
    assert_eq!(lexer.nextToken(), Ok(token(TokenKind::Semicolon, 4, 5)));
    assert_eq!(lexer.nextToken(), Ok(token(TokenKind::Eof, 5, 5)));
}

#[test]
fn a_digit_begins_no_token() {
    let mut lexer = Lexer::new("1");
    assert_eq!(
        lexer.nextToken(),
        Err(LexerError::UnexpectedCharacter { found: '1', span: Span { start: 0, end: 1 } })
    );
}

#[test]
fn operators_begin_no_token() {
    for c in ['=', '+', '-', '*', '/', '%', ',', '.', ':', '<', '>', '!', '&', '|'] {
        let source = format!(" {}", c);
        let mut lexer = Lexer::new(&source);
        assert_eq!(
            lexer.nextToken(),
            Err(LexerError::UnexpectedCharacter { found: c, span: Span { start: 1, end: 2 } })
        );
        assert_eq!(lexer.nextToken(), Ok(token(TokenKind::Eof, 2, 2)));
    }
}

#[test]
fn unexpected_character_spans_all_its_bytes() {
    let mut lexer = Lexer::new("\u{20ac}x");
    assert_eq!(
        lexer.nextToken(),
        Err(LexerError::UnexpectedCharacter {
            found: '\u{20ac}',
            span: Span { start: 0, end: 3 },
        })
    );
    assert_eq!(lexer.nextToken(), Ok(token(TokenKind::Identifier("x".to_string()), 3, 4)));
}

#[test]
fn scanning_goes_on_behind_an_error() {
    let results = all_tokens("var x = \"hi\";");
    assert_eq!(
        results,
        vec![
            Ok(token(TokenKind::Var, 0, 3)),
            Ok(token(TokenKind::Identifier("x".to_string()), 4, 5)),
            Err(LexerError::UnexpectedCharacter { found: '=', span: Span { start: 6, end: 7 } }),
            Ok(token(TokenKind::StringLiteral("hi".to_string()), 8, 12)),
            Ok(token(TokenKind::Semicolon, 12, 13)),
            Ok(token(TokenKind::Eof, 13, 13)),
        ]
    );
}

#[test]
fn tokens_of_a_function_header() {
    let results = all_tokens("func main() {\n    return;\n}\n");
    let kinds: Vec<TokenKind> = results.into_iter().map(|t| t.unwrap().kind).collect();
    assert_eq!(
        kinds,
        vec![
            TokenKind::Func,
            TokenKind::Identifier("main".to_string()),
            TokenKind::LeftParen,
            TokenKind::RightParen,
            TokenKind::LeftBrace,
            TokenKind::Return,
            TokenKind::Semicolon,
            TokenKind::RightBrace,
            TokenKind::Eof,
        ]
    );
}

#[test]
fn span_new_keeps_both_ends() {
    let span = Span::new(3, 8);
    assert_eq!(span, Span { start: 3, end: 8 });
    assert_eq!(Span::new(4, 4), Span { start: 4, end: 4 });
}

#[test]
fn tokens_compare_by_kind_payload_and_span() {
    let a = token(TokenKind::Identifier("a".to_string()), 0, 1);
    assert_eq!(a.clone(), a);
    assert_ne!(a, token(TokenKind::Identifier("b".to_string()), 0, 1));
    assert_ne!(a, token(TokenKind::Identifier("a".to_string()), 1, 2));
}

#[test]
fn same_kind_ignores_what_a_token_carries() {
    let a = TokenKind::Identifier("a".to_string());
    let b = TokenKind::Identifier("b".to_string());
    assert!(a.same_kind(&b));
    assert!(TokenKind::StringLiteral("x".to_string()).same_kind(&TokenKind::StringLiteral(String::new())));
    assert!(!a.same_kind(&TokenKind::StringLiteral("a".to_string())));
    assert!(TokenKind::Semicolon.same_kind(&TokenKind::Semicolon));
    assert!(!TokenKind::Semicolon.same_kind(&TokenKind::Colon));
    assert!(TokenKind::Eof.same_kind(&TokenKind::Eof));
    assert!(!TokenKind::Plus.same_kind(&TokenKind::Minus));
}
