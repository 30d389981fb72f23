use rust_cpp_parser::record::{Argument, FunctionRecord, ParseError};
use rust_cpp_parser::scanner::{parse_cpp_function_syntax, ScanState};

fn argument(arg_type: &str, arg_name: &str) -> Argument {
    Argument { arg_type: arg_type.to_string(), arg_name: arg_name.to_string() }
}

fn record(return_type: &str, function_name: &str, arguments: Vec<Argument>, body: &str) -> FunctionRecord {
    FunctionRecord {
        return_type: return_type.to_string(),
        function_name: function_name.to_string(),
        arguments,
        function_body: body.to_string(),
    }
}

#[test]
fn zero_argument_function() {
    let records = parse_cpp_function_syntax("int main() { return 0; }").unwrap();
    assert_eq!(records.len(), 1);
    assert_eq!(records[0].return_type, "int");
    assert_eq!(records[0].function_name, "main");
    assert!(records[0].arguments.is_empty());
}

#[test]
fn body_of_a_well_formed_function_is_empty() {
    // Between the braces only the spaces reach the buffer, and the body is
    // the trimmed buffer.
    let records = parse_cpp_function_syntax("int main() { return 0; }").unwrap();
    assert_eq!(records[0].function_body, "");
    let records = parse_cpp_function_syntax("int main() {return 0;}").unwrap();
    assert_eq!(records[0].function_body, "");
}

#[test]
fn multiple_arguments() {
    let records = parse_cpp_function_syntax("int add(int a, int b) { return a+b; }").unwrap();
    assert_eq!(records.len(), 1);
    assert_eq!(records[0].return_type, "int");
    assert_eq!(records[0].function_name, "add");
    assert_eq!(records[0].arguments, vec![argument("int", "a"), argument("int", "b")]);
}

#[test]
fn malformed_argument_is_refused() {
    assert_eq!(
        parse_cpp_function_syntax("void f(int) { }"),
        Err(ParseError::InvalidArgumentSyntax)
    );
}

#[test]
fn sequential_functions_keep_source_order() {
    let records =
        parse_cpp_function_syntax("int a() { x } void b(char c) { y } long d(int e, int f) { z }")
            .unwrap();
    assert_eq!(
        records,
        vec![
            record("int", "a", vec![], ""),
            record("void", "b", vec![argument("char", "c")], ""),
            record("long", "d", vec![argument("int", "e"), argument("int", "f")], ""),
        ]
    );
}

#[test]
fn functions_without_a_gap_between_them() {
    let records = parse_cpp_function_syntax("int a() {}int b() {}").unwrap();
    assert_eq!(records, vec![record("int", "a", vec![], ""), record("int", "b", vec![], "")]);
}

#[test]
fn scan_of_two_texts_is_the_scan_of_each() {
    let first = "int a(int x) { one }";
    let second = " void b() { two } char c(char y, char z) { three }";
    let mut expected = parse_cpp_function_syntax(first).unwrap();
    expected.extend(parse_cpp_function_syntax(second).unwrap());
    let whole = format!("{}{}", first, second);
    assert_eq!(parse_cpp_function_syntax(&whole).unwrap(), expected);
    assert_eq!(expected.len(), 3);
}

#[test]
fn error_in_a_later_function_leaves_no_records() {
    assert_eq!(
        parse_cpp_function_syntax("int good() { } void bad(int) { }"),
        Err(ParseError::InvalidArgumentSyntax)
    );
}

#[test]
fn line_feed_in_argument_list_joins_its_neighbours() {
    let records = parse_cpp_function_syntax("void f(in\nt a) { }").unwrap();
    assert_eq!(records[0].arguments, vec![argument("int", "a")]);
    assert_eq!(
        parse_cpp_function_syntax("void f(int\na) { }"),
        Err(ParseError::InvalidArgumentSyntax)
    );
}

#[test]
fn line_feeds_are_dropped_everywhere() {
    let text = "in\nt ma\nin(\nint a,\nint b\n)\n {\n return a;\n }\n\nvoid g() {\n}\n";
    let without: String = text.chars().filter(|c| *c != '\n').collect();
    assert_eq!(parse_cpp_function_syntax(text), parse_cpp_function_syntax(&without));
    let records = parse_cpp_function_syntax(text).unwrap();
    assert_eq!(
        records,
        vec![
            record("int", "main", vec![argument("int", "a"), argument("int", "b")], ""),
            record("void", "g", vec![], ""),
        ]
    );
}

#[test]
fn empty_input_has_no_records() {
    assert_eq!(parse_cpp_function_syntax(""), Ok(vec![]));
}

#[test]
fn function_without_closing_brace_is_dropped() {
    assert_eq!(parse_cpp_function_syntax("int f() { return 0;"), Ok(vec![]));
    assert_eq!(
        parse_cpp_function_syntax("int a() { } int f() { return 0;"),
        Ok(vec![record("int", "a", vec![], "")])
    );
}

#[test]
fn return_type_ends_at_the_first_space() {
    let records = parse_cpp_function_syntax("unsigned int f() { }").unwrap();
    assert_eq!(records, vec![record("unsigned", "int f", vec![], "")]);
}

#[test]
fn second_leading_space_ends_an_empty_return_type() {
    let records = parse_cpp_function_syntax("  int f() { }").unwrap();
    assert_eq!(records, vec![record("", "int f", vec![], "")]);
}

#[test]
fn parenthesis_in_a_body_replaces_the_name() {
    let records = parse_cpp_function_syntax("void f(int a) { g(); }").unwrap();
    assert_eq!(records, vec![record("void", "", vec![], "")]);
}

#[test]
fn text_without_parentheses_ends_up_in_the_body() {
    let records = parse_cpp_function_syntax("int f { x y }").unwrap();
    assert_eq!(records, vec![record("int", "", vec![], "f  x y")]);
}

#[test]
fn closing_brace_alone_finishes_an_empty_record() {
    let records = parse_cpp_function_syntax("}}").unwrap();
    assert_eq!(records, vec![record("", "", vec![], ""), record("", "", vec![], "")]);
}

#[test]
fn one_record_for_each_closing_brace() {
    let text = "int a() { } b } int c(int d) { e }";
    let braces = text.chars().filter(|c| *c == '}').count();
    assert_eq!(parse_cpp_function_syntax(text).unwrap().len(), braces);
    assert_eq!(braces, 3);
}

#[test]
fn records_hold_no_bracket_and_no_line_feed() {
    let text = "int a(int b) { c(\n) } { d } e( {\n f }";
    let records = parse_cpp_function_syntax(text).unwrap();
    assert_eq!(records.len(), 3);
    let clean = |s: &str| !s.contains(|c| "(){}\n".contains(c));
    for r in &records {
        assert!(clean(&r.return_type) && clean(&r.function_name) && clean(&r.function_body));
        for a in &r.arguments {
            assert!(clean(&a.arg_type) && clean(&a.arg_name));
        }
    }
}

#[test]
fn blank_argument_list_is_refused() {
    assert_eq!(parse_cpp_function_syntax("void f( ) { }"), Err(ParseError::InvalidArgumentSyntax));
}

#[test]
fn trailing_comma_is_refused() {
    assert_eq!(
        parse_cpp_function_syntax("void f(int a,) { }"),
        Err(ParseError::InvalidArgumentSyntax)
    );
}

#[test]
fn whitespace_around_arguments_is_ignored() {
    let records = parse_cpp_function_syntax("void f(  int   a ,char\tb ) { }").unwrap();
    assert_eq!(records[0].arguments, vec![argument("int", "a"), argument("char", "b")]);
}

#[test]
fn stepping_by_hand_is_scanning() {
    let text = "int add(int a, int b) { return a+b; } void g() { }";
    let mut state = ScanState::new();
    for c in text.chars() {
        state = state.step(c).unwrap();
    }
    assert_eq!(state.into_records(), parse_cpp_function_syntax(text).unwrap());
}

#[test]
fn step_refuses_a_malformed_argument_list() {
    let mut state = ScanState::new();
    for c in "void f(int".chars() {
        state = state.step(c).unwrap();
    }
    assert!(matches!(state.step(')'), Err(ParseError::InvalidArgumentSyntax)));
}

#[test]
fn error_message() {
    assert_eq!(ParseError::InvalidArgumentSyntax.message(), "Invalid argument syntax");
}

#[test]
fn spaces_between_the_parts_do_not_matter() {
    let tight = parse_cpp_function_syntax("int add(int a,int b){return a+b;}").unwrap();
    let loose =
        parse_cpp_function_syntax("int    add   (  int   a  ,   int  b )    {  return a+b;  }")
            .unwrap();
    let expected = vec![record("int", "add", vec![argument("int", "a"), argument("int", "b")], "")];
    assert_eq!(tight, expected);
    assert_eq!(loose, expected);
}
