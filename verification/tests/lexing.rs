use pylang::tokenizer::{clean_tokens, consume_whitespace, tokenize, Token};

fn count(tokens: &[Token], t: &Token) -> usize {
    tokens.iter().filter(|x| *x == t).count()
}

#[test]
fn assignment_tokens() {
    let tokens = tokenize("x = 5");
    assert_eq!(
        tokens,
        vec![
            Token::Identifier("x".to_string()),
            Token::Equals,
            Token::Integer(5),
            Token::EOF,
        ]
    );
}

#[test]
fn greedy_two_character_operators() {
    let tokens = tokenize("-> ** // == != <= >=");
    assert_eq!(
        tokens,
        vec![
            Token::Arrow,
            Token::DoubleStar,
            Token::DoubleSlash,
            Token::DoubleEquals,
            Token::NotEquals,
            Token::LessThanOrEqual,
            Token::GreaterThanOrEqual,
            Token::EOF,
        ]
    );
}

#[test]
fn single_character_operators_and_delimiters() {
    let tokens = tokenize("+-*/%=<>(){}[],:;");
    assert_eq!(
        tokens,
        vec![
            Token::Plus,
            Token::Minus,
            Token::Star,
            Token::Slash,
            Token::Percent,
            Token::Equals,
            Token::LessThan,
            Token::GreaterThan,
            Token::LParen,
            Token::RParen,
            Token::LBrace,
            Token::RBrace,
            Token::LBracket,
            Token::RBracket,
            Token::Comma,
            Token::Colon,
            Token::Semicolon,
            Token::EOF,
        ]
    );
}

#[test]
fn keywords_and_named_literals() {
    let tokens = tokenize("def return if elif else while None True False and or not in is");
    assert_eq!(
        tokens,
        vec![
            Token::DefKeyword,
            Token::ReturnKeyword,
            Token::IfKeyword,
            Token::ElifKeyword,
            Token::ElseKeyword,
            Token::WhileKeyword,
            Token::NoneLiteral,
            Token::BooleanLiteral(true),
            Token::BooleanLiteral(false),
            Token::And,
            Token::Or,
            Token::Not,
            Token::In,
            Token::Is,
            Token::EOF,
        ]
    );
}

#[test]
fn identifiers_with_underscores_and_digits() {
    let tokens = tokenize("_x y2 definitely");
    assert_eq!(
        tokens,
        vec![
            Token::Identifier("_x".to_string()),
            Token::Identifier("y2".to_string()),
            Token::Identifier("definitely".to_string()),
            Token::EOF,
        ]
    );
}

#[test]
fn string_literal_between_matching_quotes() {
    assert_eq!(
        tokenize("'abc'"),
        vec![Token::StringLiteral("abc".to_string()), Token::EOF]
    );
    assert_eq!(
        tokenize("\"a'b\""),
        vec![Token::StringLiteral("a'b".to_string()), Token::EOF]
    );
}

#[test]
fn unterminated_string_consumes_to_end_of_input() {
    assert_eq!(
        tokenize("\"ab"),
        vec![Token::StringLiteral("ab".to_string()), Token::EOF]
    );
}

#[test]
fn comment_runs_to_end_of_line() {
    let tokens = tokenize("# hi\nx");
    assert_eq!(
        tokens,
        vec![
            Token::Comment(" hi".to_string()),
            Token::Newline,
            Token::Identifier("x".to_string()),
            Token::EOF,
        ]
    );
}

#[test]
fn integer_and_float_literals() {
    assert_eq!(tokenize("42"), vec![Token::Integer(42), Token::EOF]);
    assert_eq!(
        tokenize("3.14"),
        vec![Token::Float("3.14".to_string()), Token::EOF]
    );
}

#[test]
fn oversized_integer_literal_saturates() {
    assert_eq!(
        tokenize("99999999999999999999999999"),
        vec![Token::Integer(i64::MAX), Token::EOF]
    );
    assert_eq!(
        tokenize("9223372036854775807"),
        vec![Token::Integer(i64::MAX), Token::EOF]
    );
    assert_eq!(
        tokenize("9223372036854775806"),
        vec![Token::Integer(i64::MAX - 1), Token::EOF]
    );
}

#[test]
fn unrecognized_characters_are_dropped() {
    let tokens = tokenize("x $ @ y");
    assert_eq!(
        tokens,
        vec![
            Token::Identifier("x".to_string()),
            Token::Identifier("y".to_string()),
            Token::EOF,
        ]
    );
}

#[test]
fn lone_exclamation_mark_is_dropped() {
    assert_eq!(tokenize("a ! b").len(), 3);
}

// A text whose lines all start without leading whitespace yields no
// Indent and no Dedent.
#[test]
fn flat_text_has_no_structural_tokens() {
    let tokens = tokenize("a = 1\nb = 2\nc = a + b\n");
    assert_eq!(count(&tokens, &Token::Indent), 0);
    assert_eq!(count(&tokens, &Token::Dedent), 0);
}

// Indent minus Dedent equals the net indentation depth at end of input.
#[test]
fn indent_dedent_balance_matches_final_depth() {
    // ends back at depth zero
    let balanced = tokenize("if (a):\n    x = 1\nz = 2\n");
    assert_eq!(
        count(&balanced, &Token::Indent),
        count(&balanced, &Token::Dedent)
    );
    // input ends inside the block: one push, no pop
    let hanging = tokenize("if (a):\n    x = 1");
    assert_eq!(count(&hanging, &Token::Indent), 1);
    assert_eq!(count(&hanging, &Token::Dedent), 0);
}

#[test]
fn tab_counts_as_four_spaces() {
    let with_tab = tokenize("if (a):\n\tx = 1\nz = 2\n");
    assert_eq!(count(&with_tab, &Token::Indent), 1);
    assert_eq!(count(&with_tab, &Token::Dedent), 1);
}

#[test]
fn nested_indentation_pops_per_level() {
    let tokens = tokenize("if (a):\n    if (b):\n        x = 1\nz = 2\n");
    assert_eq!(count(&tokens, &Token::Indent), 2);
    assert_eq!(count(&tokens, &Token::Dedent), 2);
}

#[test]
fn clean_collapses_consecutive_newlines() {
    let cleaned = clean_tokens(tokenize("a\n\n\nb\n"));
    assert_eq!(
        cleaned,
        vec![
            Token::Identifier("a".to_string()),
            Token::Newline,
            Token::Identifier("b".to_string()),
            Token::Newline,
            Token::EOF,
        ]
    );
}

#[test]
fn clean_drops_dedent_below_level_zero() {
    let raw = vec![
        Token::Dedent,
        Token::Identifier("a".to_string()),
        Token::Indent,
        Token::Dedent,
        Token::Dedent,
        Token::EOF,
    ];
    let cleaned = clean_tokens(raw);
    assert_eq!(
        cleaned,
        vec![
            Token::Identifier("a".to_string()),
            Token::Indent,
            Token::Dedent,
            Token::EOF,
        ]
    );
}

#[test]
fn clean_strips_comment_tokens() {
    let cleaned = clean_tokens(tokenize("x = 1 # set x\ny = 2\n"));
    assert!(!cleaned
        .iter()
        .any(|t| matches!(t, Token::Comment(_))));
}

#[test]
fn consume_whitespace_skips_spaces_and_tabs() {
    assert_eq!(consume_whitespace("  \tx", 0), 3);
    assert_eq!(consume_whitespace("x y", 1), 2);
    assert_eq!(consume_whitespace("xy", 0), 0);
    assert_eq!(consume_whitespace("  ", 0), 2);
}

#[test]
fn every_stream_ends_with_exactly_one_eof() {
    for src in ["", "x", "if (a):\n    b\n", "'unterminated", "###"] {
        let tokens = tokenize(src);
        assert_eq!(count(&tokens, &Token::EOF), 1);
        assert_eq!(tokens.last(), Some(&Token::EOF));
    }
}
