use schemer::decimal::Decimal;
use schemer::grammar::ErrorKind;
use schemer::helpers::PossibleArray;
use schemer::lexer::Lexer;
use schemer::objects::{Element, FieldType};
use schemer::parser::{Parser, ParserError};
use schemer::tokens::{Token, TokenInfo, TypeName};

fn tokens_of(text: &str) -> Vec<TokenInfo> {
    match Lexer::new().run(text) {
        Ok(tokens) => tokens,
        Err(error) => panic!("{}", error.message()),
    }
}

fn parse(text: &str) -> Result<FieldType, ParserError> {
    Parser::new(tokens_of(text)).parse_field()
}

fn parsed(text: &str) -> FieldType {
    match parse(text) {
        Ok(field) => field,
        Err(error) => panic!("{}", error.msg()),
    }
}

fn failure(text: &str) -> ParserError {
    match parse(text) {
        Ok(_) => panic!("parsed: {}", text),
        Err(error) => error,
    }
}

/// The stream of `text` with the identifier `any` turned into the type name.
fn tokens_with_any(text: &str) -> Vec<TokenInfo> {
    tokens_of(text)
        .into_iter()
        .map(|info| match info.token() {
            Token::Ident(name) if name == "any" => {
                TokenInfo::new(Token::Type(TypeName::TypeAny), info.position())
            }
            _ => info,
        })
        .collect()
}

#[test]
fn interval_is_enforced() {
    let error = failure("x: integer 1..10 = 15");
    assert_eq!(error.kind(), ErrorKind::IntervalViolation);
    assert_eq!(error.msg(), "current '15' at 1:20. Value 15 is invalid for integer interval");

    let field = parsed("x: integer 1..10 = 5");
    assert_eq!(field.name(), "x");
    assert_eq!(field.value().as_integer(), Some(5));
    match field.value() {
        Element::Integer(number) => {
            assert!(number.interval().has_min());
            assert!(number.interval().has_max());
            assert_eq!(number.interval().min(0), 1);
            assert_eq!(number.interval().max(0), 10);
        }
        _ => panic!("not an integer field"),
    }
}

#[test]
fn interval_bounds_are_inclusive() {
    assert_eq!(parsed("x: integer 1..10 = 1").value().as_integer(), Some(1));
    assert_eq!(parsed("x: integer 1..10 = 10").value().as_integer(), Some(10));
    assert_eq!(failure("x: integer 1..10 = 0").kind(), ErrorKind::IntervalViolation);
    assert_eq!(failure("x: integer 1..10 = 11").kind(), ErrorKind::IntervalViolation);
}

#[test]
fn open_intervals_bound_one_side() {
    assert_eq!(parsed("x: integer 3.. = 1000").value().as_integer(), Some(1000));
    assert_eq!(failure("x: integer 3.. = 2").kind(), ErrorKind::IntervalViolation);
    assert_eq!(parsed("x: integer ..3 = -1000").value().as_integer(), Some(-1000));
    assert_eq!(failure("x: integer ..3 = 4").kind(), ErrorKind::IntervalViolation);
}

#[test]
fn signs_apply_to_numbers() {
    assert_eq!(parsed("x: integer = -5").value().as_integer(), Some(-5));
    assert_eq!(parsed("x: integer = +5").value().as_integer(), Some(5));
    assert_eq!(parsed("x: integer -5..-1 = -3").value().as_integer(), Some(-3));
    assert_eq!(failure("x: integer -5..-1 = 3").kind(), ErrorKind::IntervalViolation);
    assert_eq!(parsed("x: integer enum {-1, 1} = -1").value().as_integer(), Some(-1));
    assert_eq!(failure("x: integer enum {-1} = 1").kind(), ErrorKind::EnumViolation);
}

#[test]
fn enum_is_enforced() {
    let error = failure(r#"s: string enum {"a","b"} = "c""#);
    assert_eq!(error.kind(), ErrorKind::EnumViolation);
    assert_eq!(error.msg(), "current '\"c\"' at 1:28. Value 'c' is not valid for enum.");

    let field = parsed(r#"s: string enum {"a","b"} = "a""#);
    assert_eq!(field.value().as_string(), Some("a"));
    let field = parsed(r#"s: string enum {"a","b"} = "b""#);
    assert_eq!(field.value().as_string(), Some("b"));
}

#[test]
fn first_enum_member_is_the_value_of_the_field() {
    let field = parsed(r#"s: string enum {"a","b"}"#);
    assert_eq!(field.value().as_string(), Some("a"));
    let field = parsed("n: integer enum {7, 8}");
    assert_eq!(field.value().as_integer(), Some(7));
}

#[test]
fn number_enum_needs_no_interval() {
    assert_eq!(parsed("n: integer enum {7, 8} = 8").value().as_integer(), Some(8));
    assert_eq!(failure("n: integer enum {7, 8} = 9").kind(), ErrorKind::EnumViolation);
    assert_eq!(parsed("n: integer 1..9 enum {7, 8} = 8").value().as_integer(), Some(8));
    assert_eq!(failure("n: integer 1..7 enum {7, 8} = 8").kind(), ErrorKind::IntervalViolation);
}

#[test]
fn scalar_for_an_array_field_is_refused() {
    let error = failure("x: integer[] = 5");
    assert_eq!(error.kind(), ErrorKind::UnexpectedToken);
    assert_eq!(error.msg(), "unexpected '5' at 1:16. Expected '['");
}

#[test]
fn array_for_a_scalar_field_is_refused() {
    let error = failure("x: integer = [5]");
    assert_eq!(error.kind(), ErrorKind::UnexpectedToken);
    assert_eq!(error.msg(), "unexpected '[' at 1:14. Expected 'integer'");
}

#[test]
fn array_values_are_read_in_order() {
    let field = parsed("x: integer[] = [1, 2, 3]");
    match field.value() {
        Element::Integer(number) => match number.value() {
            PossibleArray::Array(items) => assert_eq!(*items, vec![1, 2, 3]),
            _ => panic!("not an array"),
        },
        _ => panic!("not an integer field"),
    }
    assert_eq!(failure("x: integer[] 1..2 = [1, 3]").kind(), ErrorKind::IntervalViolation);
    assert_eq!(
        failure("x: integer[] = [1, 2").msg(),
        "unexpected 'eof' at 11:11. Expected '] or integer'"
    );
}

#[test]
fn duplicate_field_is_rejected() {
    let error = failure("o: object { a: integer a: string }");
    assert_eq!(error.kind(), ErrorKind::DuplicateField);
    assert_eq!(error.msg(), "current 'string' at 1:27. Field 'a' is already defined in object.");
}

#[test]
fn any_type_is_inferred() {
    let tokens = tokens_with_any(r#"main: any = { x: 1, y: "s", z: [1,2,3] }"#);
    let field = match Parser::new(tokens).parse_field() {
        Ok(field) => field,
        Err(error) => panic!("{}", error.msg()),
    };
    assert_eq!(field.name(), "main");
    let inner = match field.value() {
        Element::Any(any) => match any.value() {
            PossibleArray::Value(inner) => match &**inner {
                Some(element) => element,
                None => panic!("holds nothing"),
            },
            _ => panic!("a list"),
        },
        _ => panic!("not a field of any type"),
    };
    let object = match inner {
        Element::Object(object) => object,
        _ => panic!("not an object"),
    };
    let names: Vec<&str> = object.fields().iter().map(|f| f.name()).collect();
    assert_eq!(names, vec!["x", "y", "z"]);
    assert_eq!(object.get_field("x").unwrap().value().as_integer(), Some(1));
    assert_eq!(object.get_field("y").unwrap().value().as_string(), Some("s"));
    match object.get_field("z").unwrap().value() {
        Element::Any(list) => match list.value() {
            PossibleArray::Array(items) => {
                let numbers: Vec<Option<i64>> = items
                    .iter()
                    .map(|item| match &**item {
                        Some(element) => element.as_integer(),
                        None => None,
                    })
                    .collect();
                assert_eq!(numbers, vec![Some(1), Some(2), Some(3)]);
            }
            _ => panic!("not a list"),
        },
        _ => panic!("not a list"),
    }
    assert!(object.get_field("w").is_none());
}

#[test]
fn any_is_no_keyword_of_the_lexer() {
    let error = failure("main: any = 1");
    assert_eq!(error.kind(), ErrorKind::MissingType);
    assert_eq!(error.msg(), "current 'any' at 1:7. typename");
}

#[test]
fn any_needs_a_value() {
    let tokens = tokens_with_any("main: any");
    match Parser::new(tokens).parse_field() {
        Ok(_) => panic!("parsed"),
        Err(error) => {
            assert_eq!(error.kind(), ErrorKind::UnexpectedToken);
            assert_eq!(error.msg(), "unexpected 'eof' at 4:4. Expected '= or :'");
        }
    }
}

#[test]
fn end_to_end_example() {
    let field = parsed("person: object {\n  name: string\n  age: integer 0..150 = 30\n}");
    assert_eq!(field.name(), "person");
    assert!(field.options().empty());
    let object = match field.value() {
        Element::Object(object) => object,
        _ => panic!("not an object field"),
    };
    let names: Vec<&str> = object.fields().iter().map(|f| f.name()).collect();
    assert_eq!(names, vec!["name", "age"]);
    let name = object.get_field("name").unwrap();
    assert_eq!(name.value().as_string(), Some(""));
    let age = object.get_field("age").unwrap();
    assert_eq!(age.value().as_integer(), Some(30));
    match age.value() {
        Element::Integer(number) => {
            assert_eq!(number.interval().min(-1), 0);
            assert_eq!(number.interval().max(-1), 150);
            assert!(number.enum_values().is_none());
        }
        _ => panic!("not an integer field"),
    }
}

#[test]
fn options_default_to_true() {
    let field = parsed(r#"x (readonly, required = false, unit: "m"): integer"#);
    assert!(field.options().has_bool("readonly"));
    assert!(!field.options().has_bool("required"));
    assert!(!field.options().has_bool("unit"));
    assert!(!field.options().has_bool("missing"));
    let names: Vec<&str> = field.options().all().iter().map(|o| o.name()).collect();
    assert_eq!(names, vec!["readonly", "required", "unit"]);
    assert_eq!(field.options().all()[2].value().as_string(), Some("m"));
}

#[test]
fn object_literal_follows_the_declaration() {
    let field = parsed("p: object { a: integer 1..5, b: string } = { a: 3, b: \"x\", c: true }");
    let object = field.value().as_object().unwrap();
    let names: Vec<&str> = object.fields().iter().map(|f| f.name()).collect();
    assert_eq!(names, vec!["a", "b", "c"]);
    assert_eq!(object.get_field("a").unwrap().value().as_integer(), Some(3));
    assert_eq!(object.get_field("b").unwrap().value().as_string(), Some("x"));
    assert_eq!(object.get_field("c").unwrap().value().as_boolean(), Some(true));

    let error = failure("p: object { a: integer 1..5 } = { a: \"x\" }");
    assert_eq!(error.kind(), ErrorKind::UnexpectedToken);
    assert_eq!(error.msg(), "unexpected '\"x\"' at 1:38. Expected 'integer'");
}

#[test]
fn object_literal_takes_the_type_of_the_declaration_only() {
    let field = parsed("p: object { a: integer 1..5 = 2 } = { a: 6 }");
    let object = field.value().as_object().unwrap();
    assert_eq!(object.get_field("a").unwrap().value().as_integer(), Some(6));
    match field.value() {
        Element::Object(declared) => {
            assert_eq!(declared.get_field("a").unwrap().value().as_integer(), Some(2));
        }
        _ => panic!("not an object field"),
    }
}

#[test]
fn undeclared_field_without_value_is_unresolved() {
    let error = failure("p: object { a: integer } = { b }");
    assert_eq!(error.kind(), ErrorKind::UnresolvedField);
    assert_eq!(
        error.msg(),
        "current 'b' at 1:30. Object doesn't contain field with name 'b' and it's type cannot be detected"
    );
}

#[test]
fn array_of_objects_checks_every_item() {
    let field = parsed("p: object[] { a: integer 1..5 } = [{ a: 1 }, { a: 2 }]");
    match field.value() {
        Element::Object(object) => match object.value() {
            PossibleArray::Array(items) => {
                let values: Vec<Option<i64>> = items
                    .iter()
                    .map(|item| match &**item {
                        Some(o) => o.get_field("a").unwrap().value().as_integer(),
                        None => None,
                    })
                    .collect();
                assert_eq!(values, vec![Some(1), Some(2)]);
            }
            _ => panic!("not an array"),
        },
        _ => panic!("not an object field"),
    }
    assert_eq!(
        failure("p: object[] { a: integer 1..5 } = [{ a: 1 }, { a: true }]").kind(),
        ErrorKind::UnexpectedToken
    );
    assert_eq!(
        failure("p: object[] { a: integer } = { a: 1 }").msg(),
        "unexpected '{' at 1:30. Expected '['"
    );
}

#[test]
fn floating_fields_take_whole_numbers_too() {
    let field = parsed("f: floating 0..1 = 0.5");
    assert_eq!(
        field.value().as_floating(),
        Some(Decimal { negative: false, mantissa: 5, exponent: -1 })
    );
    let field = parsed("f: floating = 2");
    assert_eq!(
        field.value().as_floating(),
        Some(Decimal { negative: false, mantissa: 2, exponent: 0 })
    );
    assert_eq!(field.value().as_integer(), Some(2));
    let error = failure("f: floating 0..1 = 1.5");
    assert_eq!(error.kind(), ErrorKind::IntervalViolation);
    assert_eq!(error.msg(), "current '15e-1' at 1:20. Value 15e-1 is invalid for floating interval");
    assert_eq!(parsed("f: floating enum {1.50, 2} = 15e-1").value().as_integer(), Some(1));
    assert_eq!(failure("f: floating enum {1.5, 2} = 1.6").kind(), ErrorKind::EnumViolation);
}

#[test]
fn missing_colon_and_type_are_reported() {
    assert_eq!(failure("x integer").msg(), "unexpected 'integer' at 1:3. Expected ':'");
    assert_eq!(failure("x: 5").kind(), ErrorKind::MissingType);
    assert_eq!(failure("x:").msg(), "current 'eof' at 3:3. typename");
}

#[test]
fn parser_walks_the_stream() {
    let mut parser = Parser::new(tokens_of("a b"));
    assert_eq!(*parser.current().token(), Token::Nil);
    assert_eq!(*parser.next().token(), Token::Ident("a".to_string()));
    assert!(!parser.eof());
    assert!(parser.advance());
    assert!(!parser.expect(&|token: &Token| token.is_string()));
    assert!(parser.expect(&|token: &Token| token.is_ident()));
    assert_eq!(*parser.current().token(), Token::Ident("b".to_string()));
    assert!(parser.next_eof());
    assert_eq!(*parser.next().token(), Token::Eof);
    assert_eq!(parser.next().position(), (3, 3));
    assert!(!parser.advance());
    assert!(parser.eof());
    assert!(!parser.advance());
}

#[test]
fn sign_without_number_is_an_invalid_literal() {
    let error = failure("f: floating = - x");
    assert_eq!(error.kind(), ErrorKind::InvalidLiteral);
    assert_eq!(error.msg(), "current 'x' at 1:17. Should not be here");
}

#[test]
fn errors_from_messages_have_no_kind() {
    let error = ParserError::new("something".to_string());
    assert_eq!(error.kind(), ErrorKind::Other);
    assert_eq!(error.msg(), "something");
    let error = ParserError::with_kind(ErrorKind::MissingType, "m".to_string());
    assert_eq!(error.kind(), ErrorKind::MissingType);
}

#[test]
fn literal_text_of_a_token_serves_as_a_name() {
    let mut tokens = tokens_of("x: integer = 3");
    let keyword = TokenInfo::with_literal(
        Token::Special(schemer::tokens::SpecialToken::Enum),
        (1, 1),
        "enum".to_string(),
    );
    assert_eq!(keyword.literal(), "enum");
    tokens[1] = keyword;
    let field = match Parser::new(tokens).parse_field() {
        Ok(field) => field,
        Err(error) => panic!("{}", error.msg()),
    };
    assert_eq!(field.name(), "enum");
    assert_eq!(field.value().as_integer(), Some(3));

    let error = failure("enum: integer = 3");
    assert_eq!(error.kind(), ErrorKind::MissingType);
}

#[test]
fn quoted_names_may_be_keywords() {
    let field = parsed(r#""enum": integer = 3"#);
    assert_eq!(field.name(), "enum");
}

#[test]
fn field_without_name_starts_with_the_type() {
    let field = parsed("integer = 3");
    assert_eq!(field.name(), "");
    assert_eq!(field.value().as_integer(), Some(3));
}

#[test]
fn typed_parsers_work_behind_the_type_name() {
    let mut parser = Parser::new(tokens_of("[] = [true]"));
    let flags = parser.parse_boolean().ok().unwrap();
    assert_eq!(flags.value().as_array(), Some(&vec![true]));
    assert!(parser.next_eof());

    let mut parser = Parser::new(tokens_of(r#"enum {"a"} = "a""#));
    assert_eq!(parser.parse_string().ok().unwrap().value().as_value(), Some(&"a".to_string()));

    let mut parser = Parser::new(tokens_of("..5 = 5"));
    assert_eq!(parser.parse_integer().ok().unwrap().value().as_value(), Some(&5));

    let mut parser = Parser::new(tokens_of("= 0.25"));
    assert_eq!(
        parser.parse_floating().ok().unwrap().value().as_value(),
        Some(&Decimal { negative: false, mantissa: 25, exponent: -2 })
    );

    let mut parser = Parser::new(tokens_of("{ a: boolean; b: boolean, }"));
    assert_eq!(parser.parse_object().ok().unwrap().fields().len(), 2);

    let mut parser = Parser::new(tokens_of(": null"));
    assert!(parser.parse_any().is_ok());

    let mut parser = Parser::new(tokens_of(""));
    assert!(parser.parse_any().is_err());
    let mut parser = Parser::new(Vec::new());
    assert!(parser.eof());
    assert!(parser.parse_field().is_err());
}

#[test]
fn guessed_values_take_their_type_from_the_token() {
    let tokens = tokens_with_any(r#"v: any = [1, -2.5, "s", true, null, { a: +1 }, []]"#);
    let field = Parser::new(tokens).parse_field().ok().unwrap();
    let list = match field.value() {
        Element::Any(any) => match any.value() {
            PossibleArray::Value(inner) => match &**inner {
                Some(Element::Any(list)) => list.clone(),
                _ => panic!("not a list"),
            },
            _ => panic!("not a value"),
        },
        _ => panic!("not any"),
    };
    let items = list.value().as_array().unwrap();
    assert_eq!(items.len(), 7);
    let item = |i: usize| (*items[i]).as_ref().unwrap();
    assert_eq!(item(0).as_integer(), Some(1));
    assert_eq!(
        item(1).as_floating(),
        Some(Decimal { negative: true, mantissa: 25, exponent: -1 })
    );
    assert_eq!(item(2).as_string(), Some("s"));
    assert_eq!(item(3).as_boolean(), Some(true));
    assert!(matches!(item(4), Element::Any(_)));
    match item(5) {
        Element::Object(object) => {
            assert_eq!(object.get_field("a").unwrap().value().as_integer(), Some(1));
        }
        _ => panic!("not an object"),
    }
    assert!(matches!(item(6), Element::Any(_)));

    let tokens = tokens_with_any("v: any = )");
    let error = Parser::new(tokens).parse_field().err().unwrap();
    assert_eq!(error.msg(), "unexpected ')' at 1:10. Expected 'valid data'");
    let tokens = tokens_with_any("v: any = - true");
    let error = Parser::new(tokens).parse_field().err().unwrap();
    assert_eq!(error.msg(), "unexpected 'true' at 1:12. Expected 'number value'");
}

fn names_are_unique(element: &Element) -> bool {
    match element {
        Element::Object(object) => object_is_well_named(object),
        Element::Any(any) => match any.value() {
            PossibleArray::Value(inner) => (**inner).as_ref().map_or(true, names_are_unique),
            PossibleArray::Array(items) => {
                items.iter().all(|item| (**item).as_ref().map_or(true, names_are_unique))
            }
        },
        _ => true,
    }
}

fn object_is_well_named(object: &schemer::objects::ObjectType) -> bool {
    let names: Vec<&str> = object.fields().iter().map(|f| f.name()).collect();
    let unique = names.iter().enumerate().all(|(i, name)| !names[..i].contains(name));
    let fields = object.fields().iter().all(|f| names_are_unique(f.value()));
    let held = match object.value() {
        PossibleArray::Value(inner) => (**inner).as_ref().map_or(true, object_is_well_named),
        PossibleArray::Array(items) => {
            items.iter().all(|item| (**item).as_ref().map_or(true, object_is_well_named))
        }
    };
    unique && fields && held
}

#[test]
fn names_are_unique_in_every_object_of_a_field() {
    let field = parsed(
        "p: object[] { a: integer, b: object { a: string } = { a: \"x\", a: \"y\", c: { d: 1, d: 2 } } } \
         = [{ a: 1, a: 2, z: [{ q: 1, q: 2 }] }, { b: { a: \"k\" } }]",
    );
    assert!(names_are_unique(field.value()));
    let items = match field.value() {
        Element::Object(object) => object.value().as_array().unwrap().len(),
        _ => 0,
    };
    assert_eq!(items, 2);
}
