use lispy::lexer::{tokenize, LexerToken};

fn symbol(text: &str) -> LexerToken {
    LexerToken::Symbol(text.to_string())
}

fn number(text: &str) -> LexerToken {
    LexerToken::Number(text.to_string())
}

#[test]
fn brackets_and_punctuation() {
    assert_eq!(
        tokenize("(){}'`~~@&"),
        vec![
            LexerToken::ListStart,
            LexerToken::ListEnd,
            LexerToken::HashStart,
            LexerToken::HashEnd,
            LexerToken::Quote,
            LexerToken::QuasiQuote,
            LexerToken::Unquote,
            LexerToken::SpliceUnquote,
            LexerToken::ArgsSpread,
        ]
    );
}

#[test]
fn splice_unquote_matches_before_unquote() {
    assert_eq!(tokenize("~@x"), vec![LexerToken::SpliceUnquote, symbol("x")]);
    assert_eq!(tokenize("~ @"), vec![LexerToken::Unquote, LexerToken::Error]);
}

#[test]
fn separators_and_comments_are_skipped() {
    assert_eq!(tokenize(" \t\n,, "), vec![]);
    assert_eq!(tokenize("a ; b c\nd"), vec![symbol("a"), symbol("d")]);
    assert_eq!(tokenize(""), vec![]);
}

#[test]
fn comment_needs_its_line_end() {
    assert_eq!(tokenize("a ;b"), vec![symbol("a"), LexerToken::Error, symbol("b")]);
}

#[test]
fn reserved_words() {
    assert_eq!(
        tokenize("nil true false"),
        vec![LexerToken::Nil, LexerToken::Boolean(true), LexerToken::Boolean(false)]
    );
    assert_eq!(tokenize("nilly truest"), vec![symbol("nilly"), symbol("truest")]);
}

#[test]
fn numbers() {
    assert_eq!(tokenize("1 -2 3.5 -4.25 .5 -.5 6."), vec![
        number("1"),
        number("-2"),
        number("3.5"),
        number("-4.25"),
        number(".5"),
        number("-.5"),
        number("6."),
    ]);
}

#[test]
fn number_wins_over_symbol_of_the_same_length() {
    assert_eq!(tokenize("-5"), vec![number("-5")]);
    assert_eq!(tokenize("-"), vec![symbol("-")]);
    assert_eq!(tokenize("-5a"), vec![symbol("-5a")]);
    assert_eq!(tokenize("-5.5a"), vec![number("-5.5"), symbol("a")]);
}

#[test]
fn symbol_does_not_begin_with_a_digit() {
    assert_eq!(tokenize("1abc"), vec![number("1"), symbol("abc")]);
}

#[test]
fn symbols() {
    assert_eq!(
        tokenize("def! let* a-b? + <= x=1 &rest"),
        vec![
            symbol("def!"),
            symbol("let*"),
            symbol("a-b?"),
            symbol("+"),
            LexerToken::Error,
            symbol("="),
            symbol("x=1"),
            symbol("&rest"),
        ]
    );
}

#[test]
fn keywords() {
    assert_eq!(
        tokenize(":a ::b :k-1! :"),
        vec![
            LexerToken::Keyword(":a".to_string()),
            LexerToken::Keyword("::b".to_string()),
            LexerToken::Keyword(":k-1!".to_string()),
            LexerToken::Error,
        ]
    );
}

#[test]
fn strings_are_stored_without_their_quotes() {
    assert_eq!(tokenize("\"abc\""), vec![LexerToken::String("abc".to_string())]);
    assert_eq!(tokenize("\"\""), vec![LexerToken::String(String::new())]);
    assert_eq!(tokenize("\"a b\" c"), vec![LexerToken::String("a b".to_string()), symbol("c")]);
}

#[test]
fn escaped_quote_stays_in_the_string() {
    assert_eq!(tokenize("\"a\\\"b\""), vec![LexerToken::String("a\\\"b".to_string())]);
}

#[test]
fn string_ends_with_its_last_escaped_quote_where_no_other_closes_it() {
    assert_eq!(tokenize("\"a\\\" b"), vec![LexerToken::String("a\\".to_string()), symbol("b")]);
}

#[test]
fn string_without_an_end_is_an_error() {
    assert_eq!(tokenize("\"abc"), vec![LexerToken::Error, symbol("abc")]);
}

#[test]
fn unrecognized_run_is_one_error() {
    assert_eq!(tokenize("[[[ a"), vec![LexerToken::Error, symbol("a")]);
    assert_eq!(tokenize("a ^% b"), vec![symbol("a"), LexerToken::Error, symbol("b")]);
}

#[test]
fn text_beyond_ascii_is_unrecognized() {
    assert_eq!(tokenize("é"), vec![LexerToken::Error]);
    assert_eq!(tokenize("\"é\""), vec![LexerToken::String("é".to_string())]);
}
