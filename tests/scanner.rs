use tinyc_lexer::{hit_at_start, init_grammar, lex, Category, Grammar, Rule, ScanError, Token, TokenClass};

fn ident(s: &str) -> Token {
    Token::Identifier(s.to_string())
}

fn keyword(s: &str) -> Token {
    Token::Keyword(s.to_string())
}

fn constant(s: &str) -> Token {
    Token::Constant(s.to_string())
}

fn default_lex(text: &str) -> Result<Vec<Token>, ScanError> {
    let grammar = init_grammar().unwrap();
    lex(text, &grammar)
}

/// The default categories, with identifiers moved ahead of the keywords.
fn identifiers_first() -> Grammar {
    let fixed = |t: Token, p: &str| Category::compile(TokenClass::Fixed(t), vec![p]).unwrap();
    Grammar::new(vec![
        Category::compile(TokenClass::Identifier, vec![r"^[a-zA-Z_]\w*\b"]).unwrap(),
        Category::compile(TokenClass::Constant, vec![r"^[0-9]+\b"]).unwrap(),
        Category::compile(TokenClass::Keyword, vec![r"^int\b", r"^void\b", r"^return\b"]).unwrap(),
        fixed(Token::ParenthesisOpen, r"^\("),
        fixed(Token::ParenthesisClose, r"^\)"),
        fixed(Token::BraceOpen, r"^\{"),
        fixed(Token::BraceClose, r"^\}"),
        fixed(Token::Semicolon, "^;"),
        fixed(Token::Comment, "^//.*"),
    ])
}

#[test]
fn default_grammar_builds() {
    assert!(init_grammar().is_ok());
}

#[test]
fn end_to_end_example() {
    let tokens = default_lex("int main(void) { return 2; }").unwrap();
    assert_eq!(
        tokens,
        vec![
            keyword("int"),
            ident("main"),
            Token::ParenthesisOpen,
            keyword("void"),
            Token::ParenthesisClose,
            Token::BraceOpen,
            keyword("return"),
            constant("2"),
            Token::Semicolon,
            Token::BraceClose,
        ]
    );
}

#[test]
fn return_is_a_keyword() {
    assert_eq!(default_lex("return").unwrap(), vec![keyword("return")]);
    assert_eq!(default_lex("  return 0;").unwrap()[0], keyword("return"));
}

#[test]
fn table_order_decides_return() {
    assert_eq!(lex("return", &identifiers_first()).unwrap(), vec![ident("return")]);
    assert_eq!(lex("void", &identifiers_first()).unwrap(), vec![ident("void")]);
}

#[test]
fn keyword_prefix_is_an_identifier() {
    let tokens = default_lex("integer returns int_x void2").unwrap();
    assert_eq!(tokens, vec![ident("integer"), ident("returns"), ident("int_x"), ident("void2")]);
}

#[test]
fn trailing_comment() {
    assert_eq!(
        default_lex("int x; // trailing comment").unwrap(),
        vec![keyword("int"), ident("x"), Token::Semicolon, Token::Comment]
    );
}

#[test]
fn comment_ends_at_newline() {
    assert_eq!(
        default_lex("int x; // c\nreturn 2;").unwrap(),
        vec![
            keyword("int"),
            ident("x"),
            Token::Semicolon,
            Token::Comment,
            keyword("return"),
            constant("2"),
            Token::Semicolon,
        ]
    );
}

#[test]
fn comment_runs_to_end_of_line() {
    let tokens = default_lex("// one\nx // two\n;").unwrap();
    assert_eq!(tokens, vec![Token::Comment, ident("x"), Token::Comment, Token::Semicolon]);
}

#[test]
fn comment_is_not_found_past_the_cursor() {
    let err = default_lex("@ // note").unwrap_err();
    assert_eq!(err.offset, 0);
    assert_eq!(err.remainder, "@ // note");
}

#[test]
fn unknown_character_fails() {
    let err = default_lex("int @ x").unwrap_err();
    assert_eq!(err.offset, 4);
    assert_eq!(err.remainder, "@ x");
}

#[test]
fn failure_offset_counts_characters() {
    let err = default_lex("x\u{3000}\u{e9}").unwrap_err();
    assert_eq!(err.offset, 2);
    assert_eq!(err.remainder, "\u{e9}");
}

#[test]
fn digits_glued_to_letters_fail() {
    let err = default_lex("x = 2x").unwrap_err();
    assert_eq!(err.offset, 2);
    assert_eq!(err.remainder, "= 2x");
    let err = default_lex("2x").unwrap_err();
    assert_eq!(err.remainder, "2x");
}

#[test]
fn empty_and_blank_inputs_give_no_tokens() {
    assert_eq!(default_lex("").unwrap(), vec![]);
    assert_eq!(default_lex(" \t\r\n\u{3000}").unwrap(), vec![]);
}

#[test]
fn white_space_is_skipped_everywhere() {
    let tokens = default_lex("\n\t x\u{a0}\u{2003};\n\n").unwrap();
    assert_eq!(tokens, vec![ident("x"), Token::Semicolon]);
}

#[test]
fn tokens_follow_source_order() {
    let tokens = default_lex("{ 10 ) abc ( } ;").unwrap();
    assert_eq!(
        tokens,
        vec![
            Token::BraceOpen,
            constant("10"),
            Token::ParenthesisClose,
            ident("abc"),
            Token::ParenthesisOpen,
            Token::BraceClose,
            Token::Semicolon,
        ]
    );
}

#[test]
fn lexemes_and_white_space_cover_the_input() {
    let text = "  foo_1  (42)\t;";
    let tokens = default_lex(text).unwrap();
    let lexeme_len: usize = tokens
        .iter()
        .map(|t| match t {
            Token::Identifier(s) | Token::Constant(s) | Token::Keyword(s) => s.chars().count(),
            _ => 1,
        })
        .sum();
    let white_len = text.chars().filter(|c| c.is_whitespace()).count();
    assert_eq!(lexeme_len + white_len, text.chars().count());
    assert_eq!(tokens, vec![ident("foo_1"), Token::ParenthesisOpen, constant("42"), Token::ParenthesisClose, Token::Semicolon]);
}

#[test]
fn scanning_twice_gives_the_same_tokens() {
    let grammar = init_grammar().unwrap();
    let text = "int main(void) { return 2; } // end";
    assert_eq!(lex(text, &grammar).unwrap(), lex(text, &grammar).unwrap());
}

#[test]
fn earlier_rule_of_a_category_wins() {
    let grammar = Grammar::new(vec![Category::compile(TokenClass::Keyword, vec!["^re", "^return"]).unwrap()]);
    let err = lex("return", &grammar).unwrap_err();
    assert_eq!(err.offset, 2);
    assert_eq!(err.remainder, "turn");
}

#[test]
fn empty_match_is_no_hit() {
    let grammar = Grammar::new(vec![Category::compile(TokenClass::Identifier, vec!["^a*"]).unwrap()]);
    let err = lex("aab", &grammar).unwrap_err();
    assert_eq!(err.offset, 2);
    assert_eq!(err.remainder, "b");
}

#[test]
fn match_past_the_cursor_is_no_hit() {
    let grammar = Grammar::new(vec![Category::compile(TokenClass::Identifier, vec!["b"]).unwrap()]);
    let err = lex("ab", &grammar).unwrap_err();
    assert_eq!(err.remainder, "ab");
    assert_eq!(lex("bb", &grammar).unwrap(), vec![ident("b"), ident("b")]);
}

#[test]
fn fixed_category_emits_its_token() {
    let grammar = Grammar::new(vec![Category::compile(TokenClass::Fixed(Token::Semicolon), vec!["^;+"]).unwrap()]);
    assert_eq!(lex(";;; ;", &grammar).unwrap(), vec![Token::Semicolon, Token::Semicolon]);
}

#[test]
fn invalid_pattern_is_rejected() {
    let err = Rule::new("foo(bar").err().unwrap();
    assert_eq!(err.pattern, "foo(bar");
    assert!(Category::compile(TokenClass::Constant, vec!["^[0-9]+", "("]).is_err());
}

#[test]
fn rule_keeps_its_pattern() {
    let rule = Rule::new(r"^\d+").unwrap();
    assert_eq!(rule.pattern(), r"^\d+");
    assert_eq!(rule.match_at_start("12ab"), Some(("12".to_string(), "ab".to_string())));
    assert_eq!(rule.match_at_start("ab12"), None);
}

#[test]
fn token_duplicate_is_equal() {
    let t = constant("7");
    assert_eq!(t.duplicate(), t);
    assert_ne!(t, ident("7"));
}

#[test]
fn hit_at_start_takes_a_match_at_the_cursor() {
    let found = Some(("".to_string(), "int".to_string(), " x;".to_string()));
    assert_eq!(hit_at_start(found), Some(("int".to_string(), " x;".to_string())));
}

#[test]
fn hit_at_start_rejects_a_later_match() {
    let found = Some(("@ ".to_string(), "// c".to_string(), "".to_string()));
    assert_eq!(hit_at_start(found), None);
}

#[test]
fn hit_at_start_rejects_an_empty_match() {
    let found = Some(("".to_string(), "".to_string(), "abc".to_string()));
    assert_eq!(hit_at_start(found), None);
    assert_eq!(hit_at_start(None), None);
}
