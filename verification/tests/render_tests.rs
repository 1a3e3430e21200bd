use schemer::formatting::{element_format, Formatting, ValueToString};
use schemer::decimal::Decimal;
use schemer::lexer::Lexer;
use schemer::objects::FieldType;
use schemer::parser::Parser;
use schemer::to_json::{to_json_schema, to_json_values};
use schemer::to_schemer::{field_to_string, is_ident_string, quote};

fn parsed(text: &str) -> FieldType {
    let tokens = match Lexer::new().run(text) {
        Ok(tokens) => tokens,
        Err(error) => panic!("{}", error.message()),
    };
    match Parser::new(tokens).parse_field() {
        Ok(field) => field,
        Err(error) => panic!("{}: {}", text, error.msg()),
    }
}

/// Renders, parses the rendering, and checks that it renders the same way
/// again, as a schema and as JSON.
fn comes_back(text: &str) {
    let first = parsed(text);
    for shift in [0usize, 2] {
        let rendered = field_to_string(&first, shift);
        let second = parsed(&rendered);
        assert_eq!(field_to_string(&second, shift), rendered);
        assert_eq!(second.name(), first.name());
        assert_eq!(to_json_values(&second), to_json_values(&first));
        assert_eq!(to_json_schema(&second), to_json_schema(&first));
    }
}

#[test]
fn scalar_fields_round_trip() {
    comes_back("a: integer");
    comes_back("a: integer = 7");
    comes_back("a: integer = -7");
    comes_back("a: integer 1..10 = 5");
    comes_back("a: integer 1.. = 5");
    comes_back("a: integer ..10 = 5");
    comes_back("a: integer -10..-1 = -5");
    comes_back("a: integer enum {3, 4, 5} = 4");
    comes_back("a: integer 1..10 enum {3, 4, 5} = 4");
    comes_back("a: integer[] = [1, 2, 3]");
    comes_back("a: integer[]");
    comes_back("b: boolean = true");
    comes_back("b: boolean[] = [true, false]");
    comes_back("f: floating = 1.5");
    comes_back("f: floating 0.5..2.5 enum {1.5, 2} = 2");
    comes_back("f: floating = -1.5e-3");
    comes_back("f: floating[] = [1e10, 2.25, 3]");
    comes_back(r#"s: string = "text""#);
    comes_back(r#"s: string enum {"a", "b"} = "b""#);
    comes_back(r#"s: string[] = ["a", "b"]"#);
    comes_back(r#""a name": string = "x""#);
    comes_back(r#"x (readonly, required = false, unit: "m", levels: [1, 2]): integer = 1"#);
}

#[test]
fn strings_with_quotes_and_backslashes_round_trip() {
    comes_back(r#"s: string = "say \"hi\"""#);
    comes_back(r#"s: string = "back\\slash""#);
    comes_back(r#"s: string = "tab\there""#);
    comes_back(r#"s: string = "odd \q escape""#);
    let field = parsed(r#"s: string = "say \"hi\" \\ now""#);
    assert_eq!(field.value().as_string(), Some(r#"say "hi" \ now"#));
    assert_eq!(field_to_string(&field, 0), r#"s: string = "say \"hi\" \\ now""#);
}

#[test]
fn end_to_end_example_renders() {
    let field = parsed("person: object {\n  name: string\n  age: integer 0..150 = 30\n}");
    let rendered = field_to_string(&field, 2);
    assert_eq!(
        rendered,
        "person: object {\n  name: string,\n  age: integer 0..150 = 30\n} = {\n  name: \"\",\n  age: 30\n}"
    );
    let again = parsed(&rendered);
    assert_eq!(again.name(), "person");
    let declared: Vec<String> = match again.value() {
        schemer::objects::Element::Object(object) => {
            object.fields().iter().map(|f| field_to_string(f, 0)).collect()
        }
        _ => panic!("not an object field"),
    };
    assert_eq!(declared, vec!["name: string", "age: integer 0..150 = 30"]);
    assert_eq!(to_json_values(&again), "{\n  \"name\": \"\",\n  \"age\": 30\n}");
}

#[test]
fn one_line_layout_has_no_line_feeds() {
    let field = parsed("o: object { a: integer[] = [1, 2], b: boolean = true }");
    assert_eq!(
        field_to_string(&field, 0),
        "o: object {a: integer[] = [1,2],b: boolean = true} = {a: [1,2],b: true}"
    );
}

#[test]
fn json_values_of_scalars_and_lists() {
    assert_eq!(to_json_values(&parsed("x: integer = 5")), "5");
    assert_eq!(to_json_values(&parsed("x: integer[] = [1, 2, 3]")), "[\n  1,\n  2,\n  3\n]");
    assert_eq!(to_json_values(&parsed("x: integer[]")), "[]");
    assert_eq!(to_json_values(&parsed(r#"x: string = "a\"b""#)), r#""a\"b""#);
    assert_eq!(to_json_values(&parsed("x: boolean")), "false");
    assert_eq!(to_json_values(&parsed("x: floating = 2.50")), "250e-2");
    assert_eq!(
        to_json_values(&parsed("p: object { a: integer } = { a: 1, b: [true, null] }")),
        "{\n  \"a\": 1,\n  \"b\": [\n    true,\n    null\n  ]\n}"
    );
}

#[test]
fn json_schema_of_an_integer_field() {
    assert_eq!(
        to_json_schema(&parsed("x (readonly): integer 1..10 = 5")),
        "{\n  \"type\": \"integer\",\n  \"minimum\": 1,\n  \"maximum\": 10,\n  \"readonly\": true\n}"
    );
    assert_eq!(
        to_json_schema(&parsed("x: integer[] enum {1, 2}")),
        "{\n  \"type\": \"array\",\n  \"items\": {\n    \"type\": \"integer\",\n    \"enum\": [\n      1,\n      2\n    ]\n  }\n}"
    );
}

#[test]
fn json_schema_of_an_object_field() {
    assert_eq!(
        to_json_schema(&parsed("o: object { a (required): string, b: boolean }")),
        "{\n  \"type\": \"object\",\n  \"required\": [\n    \"a\"\n  ],\n  \"properties\": {\n    \"a\": {\n      \"type\": \"string\"\n    },\n    \"b\": {\n      \"type\": \"boolean\"\n    }\n  }\n}"
    );
}

#[test]
fn layout_of_lists() {
    let format = Formatting::new(2);
    let items = vec!["a".to_string(), "b".to_string()];
    assert_eq!(format.format_array(&items, 0), "\n  a,\n  b\n");
    assert_eq!(format.format_array(&items, 1), "\n    a,\n    b\n  ");
    assert_eq!(format.format_array(&Vec::new(), 3), "");
    assert_eq!(format.format_t_array(&vec![1i64, -2], 0), "\n  1,\n  -2\n");
    assert_eq!(format.format_value(&true), "true");
    assert_eq!(format.sh(2), "    ");
    assert_eq!(format.nl_sh(1), ",\n  ");
    let flat = Formatting::new(0);
    assert_eq!(flat.format_array(&items, 2), "a,b");
}

#[test]
fn values_convert_to_text() {
    assert_eq!(0i64.convert(), "0");
    assert_eq!(i64::MIN.convert(), "-9223372036854775808");
    assert_eq!(i64::MAX.convert(), "9223372036854775807");
    assert_eq!(false.convert(), "false");
    assert_eq!("a\\b\"c".to_string().convert(), r#""a\\b\"c""#);
    assert_eq!(Decimal { negative: true, mantissa: 15, exponent: -1 }.convert(), "-15e-1");
    assert_eq!(Decimal { negative: false, mantissa: 0, exponent: 0 }.convert(), "0e0");
}

#[test]
fn names_are_quoted_when_needed() {
    assert!(is_ident_string("abc_1"));
    assert!(is_ident_string("1abc"));
    assert!(is_ident_string(""));
    assert!(!is_ident_string("a b"));
    assert!(!is_ident_string("a-b"));
    assert_eq!(quote("abc"), "abc");
    assert_eq!(quote("a b"), "\"a b\"");
}

#[test]
fn element_format_indents_by_the_given_width() {
    let field = parsed("x: integer[] = [1, 2]");
    assert_eq!(element_format(field.value(), 4), "[\n    1,\n    2\n]");
    assert_eq!(element_format(field.value(), 0), "[1,2]");
}

#[test]
fn plain_scalar_fields_parse_back_to_themselves() {
    for text in [
        "a: integer",
        "a: integer = 9223372036854775807",
        "a: integer = -9223372036854775808",
        "integer_1: integer = -1",
        "\"two words\": boolean = true",
        "b: boolean",
        "\"a-b\": string = \"x \\\"y\\\" \\\\ z\"",
        "s: string",
        "f: floating = 15e-1",
        "f: floating = -18446744073709551609e-9223372036854775808",
        "f: floating",
    ] {
        let field = parsed(text);
        for width in [0usize, 1, 4] {
            assert_eq!(field_to_string(&field, width), text);
        }
    }
}

#[test]
fn names_that_do_not_read_back() {
    let field = FieldType::new(
        "1a".to_string(),
        schemer::objects::Element::Integer(schemer::objects::IntegerType::from(1)),
        schemer::objects::Options::new(),
    );
    let rendered = field_to_string(&field, 0);
    assert_eq!(rendered, "1a: integer = 1");
    let tokens = Lexer::new().run(&rendered).ok().unwrap();
    assert!(Parser::new(tokens).parse_field().is_err());
}

#[test]
fn object_fields_do_not_come_back_the_same() {
    let first = parsed("o: object { a: integer }");
    let rendered = field_to_string(&first, 0);
    assert_eq!(rendered, "o: object {a: integer} = {a: 0}");
    let second = parsed(&rendered);
    assert!(first.value().as_object().is_none());
    assert!(second.value().as_object().is_some());
}
