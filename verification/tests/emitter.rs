use rust_cpp_parser::emitter::emit;
use rust_cpp_parser::record::{Argument, FunctionRecord};
use rust_cpp_parser::scanner::parse_cpp_function_syntax;

fn argument(arg_type: &str, arg_name: &str) -> Argument {
    Argument { arg_type: arg_type.to_string(), arg_name: arg_name.to_string() }
}

fn record(return_type: &str, function_name: &str, arguments: Vec<Argument>, body: &str) -> FunctionRecord {
    FunctionRecord {
        return_type: return_type.to_string(),
        function_name: function_name.to_string(),
        arguments,
        function_body: body.to_string(),
    }
}

/// The text of one record with the given name and argument list.
fn object(name: &str, largs: &str) -> String {
    let indent = " ".repeat(24);
    format!(
        "{{\n{indent}\"object\": \"function\",\n{indent}\"name\": \"{name}\",\n{indent}\"largs\": [{largs}]\n{close}}}",
        indent = indent,
        name = name,
        largs = largs,
        close = " ".repeat(20),
    )
}

#[test]
fn document_without_records() {
    assert_eq!(emit(&vec![]), "{ \"data\": [] }");
}

#[test]
fn document_of_one_function_without_arguments() {
    let text = emit(&vec![record("int", "main", vec![], "return 0;")]);
    assert_eq!(
        text,
        "{ \"data\": [{\n                        \"object\": \"function\",\n                        \"name\": \"main\",\n                        \"largs\": []\n                    }] }"
    );
    assert_eq!(text, format!("{{ \"data\": [{}] }}", object("main", "")));
}

#[test]
fn document_lists_arguments_in_order() {
    let text = emit(&vec![record("int", "add", vec![argument("int", "a"), argument("long", "b")], "")]);
    let largs = "{ \"type\": \"int\", \"arg\": \"a\" }, { \"type\": \"long\", \"arg\": \"b\" }";
    assert_eq!(text, format!("{{ \"data\": [{}] }}", object("add", largs)));
}

#[test]
fn document_lists_records_in_order() {
    let text = emit(&vec![
        record("int", "first", vec![argument("int", "a")], ""),
        record("void", "second", vec![], ""),
        record("void", "third", vec![], ""),
    ]);
    let expected = format!(
        "{{ \"data\": [{}, {}, {}] }}",
        object("first", "{ \"type\": \"int\", \"arg\": \"a\" }"),
        object("second", ""),
        object("third", "")
    );
    assert_eq!(text, expected);
}

#[test]
fn emitting_twice_gives_the_same_text() {
    let records = vec![
        record("int", "add", vec![argument("int", "a"), argument("int", "b")], "body"),
        record("void", "g", vec![], ""),
    ];
    let first = emit(&records);
    let second = emit(&records);
    assert_eq!(first, second);
}

#[test]
fn return_type_and_body_are_not_written() {
    let plain = emit(&vec![record("int", "f", vec![argument("int", "a")], "")]);
    let other = emit(&vec![record("unsigned", "f", vec![argument("int", "a")], "return a;")]);
    assert_eq!(plain, other);
    assert!(!other.contains("unsigned"));
    assert!(!other.contains("return"));
}

#[test]
fn scanned_source_is_emitted_with_its_names_and_arguments() {
    let source = "int add(int a, int b) { return a+b; } void reset() { count = 0; }";
    let records = parse_cpp_function_syntax(source).unwrap();
    let expected = format!(
        "{{ \"data\": [{}, {}] }}",
        object("add", "{ \"type\": \"int\", \"arg\": \"a\" }, { \"type\": \"int\", \"arg\": \"b\" }"),
        object("reset", "")
    );
    assert_eq!(emit(&records), expected);
    let declared = vec![
        record("", "add", vec![argument("int", "a"), argument("int", "b")], "anything"),
        record("", "reset", vec![], "else"),
    ];
    assert_eq!(emit(&records), emit(&declared));
}

#[test]
fn quote_in_a_name_is_written_as_it_is() {
    let text = emit(&vec![record("int", "a\"b\\c", vec![], "")]);
    assert_eq!(text, format!("{{ \"data\": [{}] }}", object("a\"b\\c", "")));
}
