use lispy::compiler::{compile_source_code_to_ast, number_literals};
use lispy::lexer::tokenize;
use lispy::printer::{display, Piece};
use lispy::types::LispyType;

fn read(source: &str) -> Result<Vec<LispyType>, LispyType> {
    let numbers = number_literals(&tokenize(source))
        .iter()
        .map(|text| text.parse::<f64>().unwrap().to_bits())
        .collect();
    compile_source_code_to_ast(source, numbers)
}

fn write(forms: &[LispyType]) -> String {
    let mut pieces = Vec::new();
    for (index, form) in forms.iter().enumerate() {
        if index > 0 {
            pieces.push(Piece::Text(" ".to_string()));
        }
        display(form, &mut pieces);
    }
    pieces
        .iter()
        .map(|piece| match piece {
            Piece::Text(text) => text.clone(),
            Piece::Number(bits) => format!("{}", f64::from_bits(*bits)),
        })
        .collect()
}

fn reads_back(source: &str) {
    let forms = read(source).unwrap();
    let written = write(&forms);
    assert_eq!(read(&written), Ok(forms), "{} was written as {}", source, written);
}

#[test]
fn atoms_read_back() {
    reads_back("nil true false");
    reads_back("a b-c? def! + - * / = & x=1 $v #t _");
    reads_back(":k ::k :a-b!");
    reads_back("\"\" \"text\" \"with space\" \"with \\\" quote\" \"(not a list)\"");
    reads_back("1 -2 3.5 -0.25 .5 6. 1000000 0.1");
}

#[test]
fn lists_and_hashes_read_back() {
    reads_back("()");
    reads_back("(a (b (c)) () \"s\" 1.5)");
    reads_back("{}");
    reads_back("{a 1 \"k\" (x y) :k {n nil}}");
    reads_back("(def! f (fn* (n & rest) (if (= n 0) rest (f (- n 1)))))");
}

#[test]
fn whitespace_and_comments_do_not_count() {
    let spaced = read("  ( a,,b\n\t c ) ; note\n d").unwrap();
    assert_eq!(write(&spaced), "(a b c) d");
    assert_eq!(read("(a b c) d"), Ok(spaced));
}

#[test]
fn later_value_of_a_key_is_what_is_written() {
    let forms = read("{a 1 b 2 a 3}").unwrap();
    assert_eq!(write(&forms), "{a 3 b 2}");
    reads_back("{a 1 b 2 a 3}");
}

#[test]
fn last_string_may_end_in_a_backslash() {
    reads_back("(a \"b\" \"c\\\" d)");
}

#[test]
fn string_that_ends_in_a_backslash_swallows_what_follows() {
    let source = "{k 1 j \"s\" k \"a\\\"}";
    let forms = read(source).unwrap();
    assert_eq!(write(&forms), "{k \"a\\\" j \"s\"}");
    assert_ne!(read(&write(&forms)), Ok(forms));
}

#[test]
fn number_that_is_not_written_as_a_number_does_not_read_back() {
    let forms = vec![LispyType::create_number(f64::INFINITY.to_bits())];
    assert_eq!(write(&forms), "inf");
    assert_eq!(read("inf"), Ok(vec![LispyType::create_symbol("inf")]));
}
