use rust_cpp_parser::arguments::extract_arguments;
use rust_cpp_parser::record::{Argument, ParseError};

fn argument(arg_type: &str, arg_name: &str) -> Argument {
    Argument { arg_type: arg_type.to_string(), arg_name: arg_name.to_string() }
}

#[test]
fn empty_text_holds_no_argument() {
    assert_eq!(extract_arguments(""), Ok(vec![]));
}

#[test]
fn one_argument() {
    assert_eq!(extract_arguments("int a"), Ok(vec![argument("int", "a")]));
}

#[test]
fn arguments_keep_their_order() {
    assert_eq!(
        extract_arguments("int a, char b,long c"),
        Ok(vec![argument("int", "a"), argument("char", "b"), argument("long", "c")])
    );
}

#[test]
fn single_word_is_refused() {
    assert_eq!(extract_arguments("int"), Err(ParseError::InvalidArgumentSyntax));
}

#[test]
fn three_words_are_refused() {
    assert_eq!(extract_arguments("const int a"), Err(ParseError::InvalidArgumentSyntax));
}

#[test]
fn empty_segment_is_refused() {
    assert_eq!(extract_arguments(","), Err(ParseError::InvalidArgumentSyntax));
    assert_eq!(extract_arguments("int a,,int b"), Err(ParseError::InvalidArgumentSyntax));
    assert_eq!(extract_arguments(" "), Err(ParseError::InvalidArgumentSyntax));
}

#[test]
fn later_segment_is_refused() {
    assert_eq!(extract_arguments("int a, b"), Err(ParseError::InvalidArgumentSyntax));
}

#[test]
fn any_whitespace_separates_the_words() {
    assert_eq!(extract_arguments("\tint\u{a0}\u{3000}a\n"), Ok(vec![argument("int", "a")]));
}

#[test]
fn agrees_with_the_standard_library() {
    let samples = [
        "", "a b", "a  b", " a b ", "a b,c d", "a b, c d ,e f", "a", "a b c", ",", "a b,",
        ",a b", "x\ty,\u{2003}p q", "int* p, int& q", "a\u{200b}b c",
    ];
    for text in samples {
        let mut expected = Ok(Vec::new());
        if !text.is_empty() {
            for segment in text.split(',') {
                let parts: Vec<&str> = segment.split_whitespace().collect();
                if parts.len() != 2 {
                    expected = Err(ParseError::InvalidArgumentSyntax);
                    break;
                }
                if let Ok(list) = expected.as_mut() {
                    list.push(argument(parts[0], parts[1]));
                }
            }
        }
        assert_eq!(extract_arguments(text), expected, "{:?}", text);
    }
}
