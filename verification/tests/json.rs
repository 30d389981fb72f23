use rust_cpp_parser::emitter::emit;
use rust_cpp_parser::json::{compact_json, written};
use rust_cpp_parser::record::{Argument, FunctionRecord};
use rust_cpp_parser::scanner::parse_cpp_function_syntax;

fn named(function_name: &str) -> FunctionRecord {
    FunctionRecord {
        return_type: String::new(),
        function_name: function_name.to_string(),
        arguments: vec![Argument { arg_type: "int".to_string(), arg_name: "a".to_string() }],
        function_body: String::new(),
    }
}

#[test]
fn compact_form_has_no_insignificant_whitespace() {
    assert_eq!(compact_json(" { \"a\" : [ 1 , 2 ] } "), Some("{\"a\":[1,2]}".to_string()));
}

#[test]
fn compact_form_of_compact_text_is_the_text() {
    assert_eq!(compact_json("{\"a\":[1,2]}"), Some("{\"a\":[1,2]}".to_string()));
}

#[test]
fn text_that_is_not_json_has_no_compact_form() {
    assert_eq!(compact_json("int main() { }"), None);
    assert_eq!(compact_json(""), None);
    assert_eq!(compact_json("{ \"data\": [ }"), None);
}

#[test]
fn written_value_is_its_compact_text() {
    let parsed = serde_json::from_str::<serde_json::Value>("[ true , null , \"x y\" ]");
    assert_eq!(written(parsed), Some("[true,null,\"x y\"]".to_string()));
}

#[test]
fn written_error_is_nothing() {
    let parsed = serde_json::from_str::<serde_json::Value>("[ true ");
    assert!(parsed.is_err());
    assert_eq!(written(parsed), None);
}

#[test]
fn document_in_compact_form() {
    let records = parse_cpp_function_syntax("int add(int a, int b) { return a+b; } void g() { }").unwrap();
    let compact = compact_json(&emit(&records)).unwrap();
    assert_eq!(
        compact,
        "{\"data\":[{\"largs\":[{\"arg\":\"a\",\"type\":\"int\"},{\"arg\":\"b\",\"type\":\"int\"}],\"name\":\"add\",\"object\":\"function\"},{\"largs\":[],\"name\":\"g\",\"object\":\"function\"}]}"
    );
}

#[test]
fn document_without_records_in_compact_form() {
    assert_eq!(compact_json(&emit(&vec![])), Some("{\"data\":[]}".to_string()));
}

#[test]
fn document_with_a_quote_in_a_name_is_not_json() {
    assert_eq!(compact_json(&emit(&vec![named("a\"b")])), None);
}

#[test]
fn document_with_a_stray_backslash_in_a_name_is_not_json() {
    assert_eq!(compact_json(&emit(&vec![named("a\\qb")])), None);
}

#[test]
fn backslash_in_a_name_may_be_read_as_an_escape() {
    let compact = compact_json(&emit(&vec![named("a\\u0062c")])).unwrap();
    assert_eq!(
        compact,
        "{\"data\":[{\"largs\":[{\"arg\":\"a\",\"type\":\"int\"}],\"name\":\"abc\",\"object\":\"function\"}]}"
    );
}
