use lispy::compiler::{
    build_any_form, build_from_tokens, compile_source_code_to_ast, number_count, number_literals,
    TokenReader,
};
use lispy::lexer::{tokenize, LexerToken};
use lispy::types::LispyType;

fn bits(value: f64) -> u64 {
    value.to_bits()
}

fn read(source: &str, numbers: Vec<f64>) -> Result<Vec<LispyType>, LispyType> {
    compile_source_code_to_ast(source, numbers.into_iter().map(bits).collect())
}

fn read_error(source: &str) -> String {
    read(source, vec![]).unwrap_err().as_error().unwrap().error_type
}

fn symbol(text: &str) -> LispyType {
    LispyType::create_symbol(text)
}

#[test]
fn atoms() {
    let forms = read("nil true false 1.5 \"s\" :k sym", vec![1.5]).unwrap();
    assert_eq!(forms.len(), 7);
    assert!(forms[0].is_nil());
    assert_eq!(forms[1].as_bool(), Some(&true));
    assert_eq!(forms[2].as_bool(), Some(&false));
    assert_eq!(forms[3].as_number(), Some(&bits(1.5)));
    assert_eq!(forms[4].as_string(), Some(&"s".to_string()));
    assert_eq!(forms[5].as_keyword(), Some(&":k".to_string()));
    assert_eq!(forms[6].as_symbol(), Some(&"sym".to_string()));
}

#[test]
fn empty_source_has_no_form() {
    assert_eq!(read("", vec![]), Ok(vec![]));
    assert_eq!(read(" ; nothing\n", vec![]), Ok(vec![]));
}

#[test]
fn nested_lists() {
    let forms = read("(a (b c) ())", vec![]).unwrap();
    let expected = LispyType::create_list(vec![
        symbol("a"),
        LispyType::create_list(vec![symbol("b"), symbol("c")]),
        LispyType::create_list(vec![]),
    ]);
    assert_eq!(forms, vec![expected]);
}

#[test]
fn numbers_are_taken_in_order() {
    let forms = read("(1 (2.5 x) -3)", vec![1.0, 2.5, -3.0]).unwrap();
    let expected = LispyType::create_list(vec![
        LispyType::create_number(bits(1.0)),
        LispyType::create_list(vec![LispyType::create_number(bits(2.5)), symbol("x")]),
        LispyType::create_number(bits(-3.0)),
    ]);
    assert_eq!(forms, vec![expected]);
}

#[test]
fn number_without_a_value_is_a_read_error() {
    assert_eq!(read_error("(1 2)"), "READ_ERROR");
}

#[test]
fn hash_holds_its_entries() {
    let forms = read("{:a 1 \"b\" x}", vec![1.0]).unwrap();
    let entries = forms[0].as_hash().unwrap();
    assert_eq!(entries.len(), 2);
    assert_eq!(entries[0].0.as_keyword(), Some(&":a".to_string()));
    assert_eq!(entries[0].1.as_number(), Some(&bits(1.0)));
    assert_eq!(entries[1].0.as_string(), Some(&"b".to_string()));
    assert_eq!(entries[1].1.as_symbol(), Some(&"x".to_string()));
}

#[test]
fn hash_key_that_comes_again_replaces_its_value() {
    let forms = read("{a x b y a z}", vec![]).unwrap();
    let entries = forms[0].as_hash().unwrap();
    assert_eq!(entries.len(), 2);
    assert_eq!(entries[0].0.as_symbol(), Some(&"a".to_string()));
    assert_eq!(entries[0].1.as_symbol(), Some(&"z".to_string()));
    assert_eq!(entries[1].1.as_symbol(), Some(&"y".to_string()));
}

#[test]
fn unmatched_brackets_are_read_errors() {
    assert_eq!(read_error("(a b"), "READ_ERROR");
    assert_eq!(read_error("a)"), "READ_ERROR");
    assert_eq!(read_error("{a b"), "READ_ERROR");
    assert_eq!(read_error("}"), "READ_ERROR");
    assert_eq!(read_error("(a }"), "READ_ERROR");
}

#[test]
fn odd_hash_is_a_read_error() {
    assert_eq!(read_error("{a}"), "READ_ERROR");
    assert_eq!(read_error("{a b c}"), "READ_ERROR");
}

#[test]
fn hash_key_must_be_an_atom() {
    assert_eq!(read_error("{(a) b}"), "READ_ERROR");
    assert_eq!(read_error("{{} b}"), "READ_ERROR");
}

#[test]
fn error_token_is_a_read_error() {
    assert_eq!(read_error("(a [ b)"), "READ_ERROR");
    assert_eq!(read_error("\"open"), "READ_ERROR");
}

#[test]
fn reader_shortcut_tokens_are_read_errors() {
    assert_eq!(read_error("'a"), "READ_ERROR");
    assert_eq!(read_error("`a"), "READ_ERROR");
    assert_eq!(read_error("~a"), "READ_ERROR");
    assert_eq!(read_error("~@a"), "READ_ERROR");
}

#[test]
fn args_spread_reads_as_the_symbol() {
    assert_eq!(read("(a & b)", vec![]), Ok(vec![LispyType::create_list(vec![
        symbol("a"),
        symbol("&"),
        symbol("b"),
    ])]));
}

#[test]
fn token_reader_walks_the_tokens() {
    let mut reader = TokenReader::new(tokenize("a 1"), vec![bits(1.0)]);
    assert!(!reader.is_empty());
    assert_eq!(reader.peek(), LexerToken::Symbol("a".to_string()));
    assert_eq!(reader.grab(), LexerToken::Symbol("a".to_string()));
    assert_eq!(reader.grab(), LexerToken::Number("1".to_string()));
    assert!(reader.is_empty());
    assert_eq!(reader.seen, 1);
}

#[test]
fn one_form_at_a_time() {
    let mut reader = TokenReader::new(tokenize("(a) b"), vec![]);
    assert_eq!(build_any_form(&mut reader), Ok(LispyType::create_list(vec![symbol("a")])));
    assert_eq!(reader.index, 3);
    assert_eq!(build_from_tokens(&mut reader), Ok(vec![symbol("b")]));
    assert!(build_any_form(&mut reader).is_err());
}

#[test]
fn number_literals_are_the_texts_of_the_number_tokens() {
    let tokens = tokenize("(+ 1 (* -2.5 x) .5)");
    assert_eq!(number_count(&tokens), 3);
    assert_eq!(number_literals(&tokens), vec!["1".to_string(), "-2.5".to_string(), ".5".to_string()]);
}
