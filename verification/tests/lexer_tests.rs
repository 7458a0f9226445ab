use mini_pascal::chars::{classify, classify_text, Glyph};
use mini_pascal::lexer::{tokenize, tokenize_glyphs, LexError, Token};

fn id(name: &str) -> Token {
    Token::Identifier(name.to_string())
}

fn kw(name: &str) -> Token {
    Token::Keyword(name.to_string())
}

fn text(s: &str) -> Token {
    Token::StringLiteral(s.to_string())
}

#[test]
fn test_tokenize_simple_program() {
    let source_code = r#"
            var
                a, b: integer;
                result: integer;

            begin
                a := 10;
                b := 20;
                result := a + b;
                writeln('The result is: ', result);
            end
        "#;

    let tokens = tokenize(source_code).unwrap();

    let expected_tokens = vec![
        Token::Keyword("var".to_string()),
        Token::Identifier("a".to_string()),
        Token::Symbol(','),
        Token::Identifier("b".to_string()),
        Token::Symbol(':'),
        Token::Keyword("integer".to_string()),
        Token::Symbol(';'),
        Token::Identifier("result".to_string()),
        Token::Symbol(':'),
        Token::Keyword("integer".to_string()),
        Token::Symbol(';'),
        Token::Keyword("begin".to_string()),
        Token::Identifier("a".to_string()),
        Token::Assignment,
        Token::IntegerLiteral(10),
        Token::Symbol(';'),
        Token::Identifier("b".to_string()),
        Token::Assignment,
        Token::IntegerLiteral(20),
        Token::Symbol(';'),
        Token::Identifier("result".to_string()),
        Token::Assignment,
        Token::Identifier("a".to_string()),
        Token::Symbol('+'),
        Token::Identifier("b".to_string()),
        Token::Symbol(';'),
        Token::Keyword("writeln".to_string()),
        Token::Symbol('('),
        Token::StringLiteral("The result is: ".to_string()),
        Token::Symbol(','),
        Token::Identifier("result".to_string()),
        Token::Symbol(')'),
        Token::Symbol(';'),
        Token::Keyword("end".to_string()),
        Token::EndOfInput,
    ];

    assert_eq!(tokens, expected_tokens, "Token mismatch. Uncomment the printout and check the output for differences.");
}

#[test]
fn identifiers_around_a_comma() {
    assert_eq!(
        tokenize("a,b"),
        Ok(vec![id("a"), Token::Symbol(','), id("b"), Token::EndOfInput])
    );
}

#[test]
fn assignment_of_a_number() {
    assert_eq!(
        tokenize("x:=10;"),
        Ok(vec![
            id("x"),
            Token::Assignment,
            Token::IntegerLiteral(10),
            Token::Symbol(';'),
            Token::EndOfInput
        ])
    );
}

#[test]
fn empty_text_is_end_of_input_alone() {
    assert_eq!(tokenize(""), Ok(vec![Token::EndOfInput]));
    assert_eq!(tokenize(" \t\r\n "), Ok(vec![Token::EndOfInput]));
}

#[test]
fn every_keyword_is_recognised() {
    assert_eq!(
        tokenize("var begin end integer writeln"),
        Ok(vec![
            kw("var"),
            kw("begin"),
            kw("end"),
            kw("integer"),
            kw("writeln"),
            Token::EndOfInput
        ])
    );
}

#[test]
fn near_keywords_are_identifiers() {
    assert_eq!(
        tokenize("vars Var en end1 writel"),
        Ok(vec![
            id("vars"),
            id("Var"),
            id("en"),
            id("end1"),
            id("writel"),
            Token::EndOfInput
        ])
    );
}

#[test]
fn a_word_takes_the_longest_alphanumeric_run() {
    assert_eq!(
        tokenize("abc123+x9"),
        Ok(vec![id("abc123"), Token::Symbol('+'), id("x9"), Token::EndOfInput])
    );
}

#[test]
fn a_word_goes_on_over_letters_outside_ascii() {
    assert_eq!(tokenize("caf\u{e9}"), Ok(vec![id("caf\u{e9}"), Token::EndOfInput]));
}

#[test]
fn a_letter_outside_ascii_starts_no_word() {
    assert_eq!(tokenize("\u{e9}"), Err(LexError::UnexpectedCharacter('\u{e9}')));
}

#[test]
fn an_underscore_is_refused() {
    assert_eq!(tokenize("a_b"), Err(LexError::UnexpectedCharacter('_')));
}

#[test]
fn operators_and_marks_are_symbols() {
    assert_eq!(
        tokenize("+-*/;(),"),
        Ok(vec![
            Token::Symbol('+'),
            Token::Symbol('-'),
            Token::Symbol('*'),
            Token::Symbol('/'),
            Token::Symbol(';'),
            Token::Symbol('('),
            Token::Symbol(')'),
            Token::Symbol(','),
            Token::EndOfInput
        ])
    );
}

#[test]
fn a_colon_alone_is_a_symbol() {
    assert_eq!(
        tokenize("a: b"),
        Ok(vec![id("a"), Token::Symbol(':'), id("b"), Token::EndOfInput])
    );
    assert_eq!(tokenize(":"), Ok(vec![Token::Symbol(':'), Token::EndOfInput]));
    assert_eq!(
        tokenize(": ="),
        Err(LexError::UnexpectedCharacter('='))
    );
}

#[test]
fn numbers_up_to_the_largest_i32() {
    assert_eq!(tokenize("0"), Ok(vec![Token::IntegerLiteral(0), Token::EndOfInput]));
    assert_eq!(tokenize("007"), Ok(vec![Token::IntegerLiteral(7), Token::EndOfInput]));
    assert_eq!(
        tokenize("2147483647"),
        Ok(vec![Token::IntegerLiteral(2147483647), Token::EndOfInput])
    );
    assert_eq!(
        tokenize("00000000000000000000002147483647"),
        Ok(vec![Token::IntegerLiteral(2147483647), Token::EndOfInput])
    );
}

#[test]
fn a_number_too_large_is_an_overflow() {
    assert_eq!(tokenize("2147483648"), Err(LexError::IntegerOverflow));
    assert_eq!(tokenize("x := 99999999999999999999999999;"), Err(LexError::IntegerOverflow));
}

#[test]
fn a_minus_sign_is_no_part_of_a_number() {
    assert_eq!(
        tokenize("-5"),
        Ok(vec![Token::Symbol('-'), Token::IntegerLiteral(5), Token::EndOfInput])
    );
}

#[test]
fn a_number_run_takes_unicode_numbers_and_refuses_them() {
    // Superscript two counts as a number character, so it joins the run,
    // but it is no decimal digit.
    assert_eq!(tokenize("1\u{b2}"), Err(LexError::UnexpectedCharacter('\u{b2}')));
    // The overflow comes first when it stands to the left.
    assert_eq!(tokenize("99999999999\u{b2}"), Err(LexError::IntegerOverflow));
}

#[test]
fn a_number_ends_before_a_letter() {
    assert_eq!(
        tokenize("12ab"),
        Ok(vec![Token::IntegerLiteral(12), id("ab"), Token::EndOfInput])
    );
}

#[test]
fn double_quoted_literal() {
    assert_eq!(
        tokenize("\"hi there\";"),
        Ok(vec![text("hi there"), Token::Symbol(';'), Token::EndOfInput])
    );
    assert_eq!(tokenize("\"\""), Ok(vec![text(""), Token::EndOfInput]));
}

#[test]
fn single_quoted_literal() {
    assert_eq!(
        tokenize("'hi there';"),
        Ok(vec![text("hi there"), Token::Symbol(';'), Token::EndOfInput])
    );
    assert_eq!(tokenize("''"), Ok(vec![text(""), Token::EndOfInput]));
}

#[test]
fn a_literal_may_hold_the_other_quote_and_any_character() {
    assert_eq!(
        tokenize("'say \"x\" @ #'"),
        Ok(vec![text("say \"x\" @ #"), Token::EndOfInput])
    );
    assert_eq!(tokenize("\"it's\""), Ok(vec![text("it's"), Token::EndOfInput]));
}

#[test]
fn unterminated_single_quoted_literal_takes_the_rest() {
    assert_eq!(tokenize("'abc"), Ok(vec![text("abc"), Token::EndOfInput]));
    assert_eq!(tokenize("'"), Ok(vec![text(""), Token::EndOfInput]));
    assert_eq!(
        tokenize("x := 'abc; y"),
        Ok(vec![id("x"), Token::Assignment, text("abc; y"), Token::EndOfInput])
    );
}

#[test]
fn unterminated_double_quoted_literal_takes_the_rest() {
    assert_eq!(tokenize("\"abc"), Ok(vec![text("abc"), Token::EndOfInput]));
    assert_eq!(tokenize("\""), Ok(vec![text(""), Token::EndOfInput]));
}

#[test]
fn the_closing_quote_is_taken_once() {
    assert_eq!(
        tokenize("'a''b'"),
        Ok(vec![text("a"), text("b"), Token::EndOfInput])
    );
    assert_eq!(tokenize("'a'+"), Ok(vec![text("a"), Token::Symbol('+'), Token::EndOfInput]));
}

#[test]
fn unicode_white_space_is_skipped() {
    assert_eq!(
        tokenize("a\u{a0}b\u{2003}c"),
        Ok(vec![id("a"), id("b"), id("c"), Token::EndOfInput])
    );
}

#[test]
fn an_unknown_character_ends_the_scan() {
    assert_eq!(tokenize("a := 1 # 2"), Err(LexError::UnexpectedCharacter('#')));
    assert_eq!(tokenize("{"), Err(LexError::UnexpectedCharacter('{')));
    assert_eq!(tokenize("a = b"), Err(LexError::UnexpectedCharacter('=')));
}

#[test]
fn the_first_error_is_reported() {
    assert_eq!(tokenize("# 99999999999"), Err(LexError::UnexpectedCharacter('#')));
    assert_eq!(tokenize("99999999999 #"), Err(LexError::IntegerOverflow));
}

#[test]
fn tokens_always_end_with_end_of_input() {
    for source in ["", "a", "a b c", "'open", "1+2", "writeln('x');"] {
        let tokens = tokenize(source).unwrap();
        assert_eq!(tokens.last(), Some(&Token::EndOfInput));
        assert_eq!(tokens.iter().filter(|t| **t == Token::EndOfInput).count(), 1);
    }
}

#[test]
fn classify_looks_the_classes_up() {
    assert_eq!(
        classify('a'),
        Glyph { ch: 'a', alphanumeric: true, numeric: false, whitespace: false }
    );
    assert_eq!(
        classify('7'),
        Glyph { ch: '7', alphanumeric: true, numeric: true, whitespace: false }
    );
    assert_eq!(
        classify(' '),
        Glyph { ch: ' ', alphanumeric: false, numeric: false, whitespace: true }
    );
    assert_eq!(
        classify('+'),
        Glyph { ch: '+', alphanumeric: false, numeric: false, whitespace: false }
    );
    assert_eq!(
        classify('\u{b2}'),
        Glyph { ch: '\u{b2}', alphanumeric: true, numeric: true, whitespace: false }
    );
}

#[test]
fn classify_text_keeps_the_order() {
    let glyphs = classify_text("a 1");
    assert_eq!(glyphs.len(), 3);
    assert_eq!(glyphs[0], classify('a'));
    assert_eq!(glyphs[1], classify(' '));
    assert_eq!(glyphs[2], classify('1'));
    assert_eq!(classify_text(""), vec![]);
}

fn plain(ch: char) -> Glyph {
    Glyph { ch, alphanumeric: false, numeric: false, whitespace: false }
}

#[test]
fn the_scan_goes_by_the_classes_it_is_given() {
    // 'b' is not marked alphanumeric here, so the word ends after 'a'.
    let glyphs = vec![plain('a'), plain('b')];
    assert_eq!(tokenize_glyphs(&glyphs), Ok(vec![id("a"), id("b"), Token::EndOfInput]));
    // '#' marked as white space is skipped.
    let glyphs = vec![plain('a'), Glyph { whitespace: true, ..plain('#') }, plain('b')];
    assert_eq!(tokenize_glyphs(&glyphs), Ok(vec![id("a"), id("b"), Token::EndOfInput]));
    // '#' marked alphanumeric joins the word.
    let glyphs = vec![plain('a'), Glyph { alphanumeric: true, ..plain('#') }];
    assert_eq!(tokenize_glyphs(&glyphs), Ok(vec![id("a#"), Token::EndOfInput]));
    // A digit that is not marked numeric ends the number run.
    let glyphs = vec![plain('1'), plain('2')];
    assert_eq!(
        tokenize_glyphs(&glyphs),
        Ok(vec![Token::IntegerLiteral(1), Token::IntegerLiteral(2), Token::EndOfInput])
    );
    let glyphs = vec![plain('1'), Glyph { numeric: true, ..plain('2') }];
    assert_eq!(tokenize_glyphs(&glyphs), Ok(vec![Token::IntegerLiteral(12), Token::EndOfInput]));
}

#[test]
fn tokenize_is_the_scan_of_the_classified_text() {
    for source in ["a,b", "x:=10;", "'open", "caf\u{e9} 1\u{b2}", "a # b"] {
        assert_eq!(tokenize(source), tokenize_glyphs(&classify_text(source)));
    }
}

#[test]
fn a_token_and_its_clone_are_equal() {
    for token in tokenize("var x := 'a' + 1 ;").unwrap() {
        assert_eq!(token.clone(), token);
    }
}
