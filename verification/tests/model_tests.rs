use schemer::chars::{digit_value, is_digit, is_whitespace, len_utf8};
use schemer::decimal::{power_of_ten, Decimal};
use schemer::helpers::{Enum, Interval, Literal, Numeric, PossibleArray};
use schemer::lexer::{is_ident, is_ident_string, scan_ident, scan_number, scan_string,
    skip_spaces, str_head_tail, Number};
use schemer::object_base::ObjectBase;
use schemer::objects::{AnyType, BooleanType, Element, FieldType, FloatingType, IntegerType, Module,
    ObjectType, Options, StringType};
use schemer::scanner::Scanner;
use schemer::text::{append_integer, append_natural, same_text};
use schemer::tokens::{SpecialToken, Token, TokenInfo, TypeName};
use schemer::trie::Trie;

fn dec(negative: bool, mantissa: u64, exponent: i64) -> Decimal {
    Decimal { negative, mantissa, exponent }
}

#[test]
fn character_classes_agree_with_std() {
    for code in 0u32..=0x10ffff {
        if let Some(c) = char::from_u32(code) {
            assert_eq!(is_whitespace(c), c.is_whitespace(), "white space {:x}", code);
            assert_eq!(is_digit(c), c.is_digit(10), "digit {:x}", code);
            assert_eq!(is_ident(c), c.is_ascii_alphabetic() || c == '_', "ident {:x}", code);
            assert_eq!(len_utf8(c), c.len_utf8(), "length {:x}", code);
        }
    }
    assert_eq!(digit_value('0'), 0);
    assert_eq!(digit_value('7'), 7);
}

#[test]
fn scanner_tracks_lines_and_columns() {
    let mut scanner = Scanner::new("ab\nc\u{e9}");
    assert_eq!(scanner.top(), 'a');
    assert_eq!(scanner.position(), (1, 1));
    assert_eq!(scanner.advance(), 1);
    assert_eq!(scanner.position(), (1, 2));
    let saved = scanner.backup();
    assert_eq!(scanner.advance(), 1);
    assert_eq!(scanner.top(), '\n');
    assert_eq!(scanner.advance(), 1);
    assert_eq!(scanner.position(), (2, 1));
    assert_eq!(scanner.get(), "c\u{e9}");
    assert_eq!(scanner.advance(), 1);
    assert_eq!(scanner.advance(), 2);
    assert!(scanner.eol());
    assert_eq!(scanner.top(), '\0');
    assert_eq!(scanner.advance(), 0);
    assert_eq!(scanner.position(), (2, 3));
    scanner.restore(&saved);
    assert_eq!(scanner.get(), "b\nc\u{e9}");
    assert_eq!(scanner.position(), (1, 2));
    scanner.jump(2);
    assert_eq!(scanner.get(), "c\u{e9}");
    scanner.jump(10);
    assert!(scanner.eol());
}

#[test]
fn scanner_advances_while_accepted() {
    let mut scanner = Scanner::new("\u{e9}\u{e9}x\u{e9}");
    assert_eq!(scanner.advance_while(|c| c == '\u{e9}'), 4);
    assert_eq!(scanner.get(), "x\u{e9}");
    assert_eq!(scanner.advance_while(|c| c == '\u{e9}'), 0);
    assert_eq!(scanner.advance_while(|_| true), 3);
    assert!(scanner.eol());
}

#[test]
fn trie_finds_the_longest_match() {
    let mut trie: Trie<u8> = Trie::new();
    assert!(trie.set("in", 1));
    assert!(trie.set("integer", 2));
    assert!(trie.set("..", 3));

    let mut scanner = Scanner::new("integers");
    assert_eq!(trie.get(&mut scanner), Some((&2, 7)));
    assert_eq!(scanner.get(), "s");
    assert_eq!(scanner.position(), (1, 8));

    let mut scanner = Scanner::new("integ");
    assert_eq!(trie.get(&mut scanner), Some((&1, 2)));
    assert_eq!(scanner.get(), "teg");

    let mut scanner = Scanner::new(".x");
    assert_eq!(trie.get(&mut scanner), None);
    assert_eq!(scanner.get(), ".x");
    assert_eq!(scanner.position(), (1, 1));

    let mut scanner = Scanner::new("");
    assert_eq!(trie.get(&mut scanner), None);

    assert!(trie.set("in", 9));
    let mut scanner = Scanner::new("in");
    assert_eq!(trie.get(&mut scanner), Some((&9, 2)));
    assert!(scanner.eol());
}

#[test]
fn lexer_helpers_scan_their_part() {
    let mut scanner = Scanner::new("  \t\n x");
    skip_spaces(&mut scanner);
    assert_eq!(scanner.get(), "x");
    assert_eq!(scanner.position(), (2, 2));

    let mut scanner = Scanner::new("ab_1-c");
    assert_eq!(scan_ident(&mut scanner), "ab_1");
    assert_eq!(scanner.get(), "-c");

    assert_eq!(str_head_tail("\u{e9}x"), ('\u{e9}', "x"));
    assert_eq!(str_head_tail(""), ('\0', ""));
    assert!(is_ident_string("a1"));
    assert!(!is_ident_string("1a"));
    assert!(!is_ident_string(""));
    assert!(!is_ident_string(".."));
}

#[test]
fn strings_end_with_the_delimiter() {
    let mut scanner = Scanner::new(r#"a\tb" rest"#);
    assert_eq!(scan_string(&mut scanner, "\""), "a\tb");
    assert_eq!(scanner.get(), " rest");

    let mut scanner = Scanner::new("one--two--");
    assert_eq!(scan_string(&mut scanner, "--"), "one");
    assert_eq!(scanner.get(), "two--");

    let mut scanner = Scanner::new(r"a\-b--c");
    assert_eq!(scan_string(&mut scanner, "--"), "a-b");
    assert_eq!(scanner.get(), "c");

    let mut scanner = Scanner::new("tail\\");
    assert_eq!(scan_string(&mut scanner, "\""), "tail\0");
    assert!(scanner.eol());

    let mut scanner = Scanner::new(r"a\n\r\\\q");
    assert_eq!(scan_string(&mut scanner, "\""), "a\n\r\\\\q");
}

#[test]
fn numbers_scan_to_whole_or_decimal() {
    let cases: Vec<(&str, Number, &str)> = vec![
        ("42", Number::Integer(42), ""),
        ("42x", Number::Integer(42), "x"),
        ("3.", Number::Integer(3), "."),
        ("3..5", Number::Integer(3), "..5"),
        ("3e", Number::Integer(3), "e"),
        ("3e+", Number::Integer(3), "e+"),
        ("1.5e2", Number::Floating(dec(false, 15, 1)), ""),
        ("1.50", Number::Floating(dec(false, 150, -2)), ""),
        ("3.e5", Number::Floating(dec(false, 3, 5)), ""),
        ("2E-3,", Number::Floating(dec(false, 2, -3)), ","),
        ("0.001", Number::Floating(dec(false, 1, -3)), ""),
        ("007", Number::Integer(7), ""),
        ("9223372036854775807", Number::Integer(i64::MAX), ""),
        ("9223372036854775808", Number::Integer(i64::MIN), ""),
        ("1844674407370955160.9", Number::Floating(dec(false, 18446744073709551609, -1)), ""),
        ("18446744073709551609.5", Number::Floating(dec(false, 18446744073709551609, 0)), ""),
        ("18446744073709551615.0", Number::Floating(dec(false, 1844674407370955161, 1)), ""),
        ("18446744073709551616.5", Number::Floating(dec(false, 1844674407370955161, 1)), ""),
        ("184467440737095516160e-1", Number::Floating(dec(false, 1844674407370955161, 1)), ""),
        ("0.12345678901234567890123", Number::Floating(dec(false, 12345678901234567890, -20)), ""),
        ("0.99999999999999999999999", Number::Floating(dec(false, 9999999999999999999, -19)), ""),
    ];
    for (text, number, rest) in cases {
        let mut scanner = Scanner::new(text);
        assert_eq!(scan_number(&mut scanner), number, "{}", text);
        assert_eq!(scanner.get(), rest, "{}", text);
    }
}

#[test]
fn decimals_compare_by_value() {
    let one_and_half = dec(false, 15, -1);
    assert!(one_and_half.same(&dec(false, 150, -2)));
    assert!(one_and_half.same(&dec(false, 1500, -3)));
    assert!(!one_and_half.same(&dec(true, 15, -1)));
    assert!(dec(false, 0, 5).same(&dec(true, 0, -7)));
    assert!(dec(false, 15, 1).same(&Decimal::from_integer(150)));
    assert!(one_and_half.le(&dec(false, 2, 0)));
    assert!(!dec(false, 2, 0).le(&one_and_half));
    assert!(dec(true, 2, 0).le(&dec(true, 15, -1)));
    assert!(!dec(true, 15, -1).le(&dec(true, 2, 0)));
    assert!(dec(true, 1, 300).le(&dec(false, 1, -300)));
    assert!(dec(false, 1, -300).le(&dec(false, 1, 300)));
    assert!(!dec(false, 1, 300).le(&dec(false, u64::MAX, 280)));
    assert!(dec(false, u64::MAX, 0).le(&dec(false, 1844674407370955162, 1)));
    assert!(!dec(false, u64::MAX, 0).le(&dec(false, 1844674407370955161, 1)));
    assert!(dec(false, 1, i64::MAX).le(&dec(false, 1, i64::MAX)));
    assert!(dec(false, 1, i64::MIN).le(&dec(false, 1, i64::MAX)));
    assert!(!dec(false, 1, i64::MAX).le(&dec(false, 1, i64::MIN)));
    assert!(Decimal::zero().is_zero());
    assert_eq!(Decimal::name(), "floating");
    assert_eq!(<i64 as Numeric>::name(), "integer");
    assert_eq!(dec(false, 5, 0).negated(), dec(true, 5, 0));
    assert_eq!(Decimal::from_integer(i64::MIN), dec(true, 9223372036854775808, 0));
    assert_eq!(power_of_ten(0), 1);
    assert_eq!(power_of_ten(19), 10_000_000_000_000_000_000);
}

#[test]
fn decimals_truncate_towards_zero() {
    assert_eq!(dec(false, 15, -1).truncate(), 1);
    assert_eq!(dec(true, 15, -1).truncate(), -1);
    assert_eq!(dec(false, 15, 1).truncate(), 150);
    assert_eq!(dec(false, 9, -1).truncate(), 0);
    assert_eq!(dec(false, 1, 30).truncate(), i64::MAX);
    assert_eq!(dec(true, 1, 30).truncate(), i64::MIN);
    assert_eq!(dec(false, 1, -30).truncate(), 0);
    assert_eq!(dec(true, 9223372036854775808, 0).truncate(), i64::MIN);
    assert_eq!(dec(false, 9223372036854775807, 0).truncate(), i64::MAX);
    assert_eq!(dec(false, 0, 1000).truncate(), 0);
}

#[test]
fn interval_checks_both_bounds() {
    let mut interval: Interval<i64> = Interval::none();
    assert!(!interval.has_minmax());
    assert!(interval.check(i64::MIN) && interval.check(i64::MAX));
    assert_eq!(interval.min(-1), -1);
    assert_eq!(interval.max(-2), -2);
    interval.set_min(1);
    assert!(interval.has_min() && !interval.has_max() && interval.has_minmax());
    assert!(!interval.check(0) && interval.check(1) && interval.check(100));
    interval.set_max(10);
    assert!(interval.has_max());
    assert!(interval.check(10) && !interval.check(11));
    assert_eq!((interval.min(0), interval.max(0)), (1, 10));
    let copy = interval.clone();
    assert!(copy.check(5) && !copy.check(0));
}

#[test]
fn enum_rejects_duplicates() {
    let mut listed = Enum::create_with(3i64);
    assert!(listed.check(&3));
    assert!(!listed.check(&4));
    assert!(listed.try_add(4));
    assert!(!listed.try_add(3));
    assert!(!listed.try_add(4));
    assert!(listed.try_add(5));
    assert_eq!(*listed.values(), vec![3, 4, 5]);
    assert_eq!(*listed.duplicate().values(), vec![3, 4, 5]);

    let mut decimals = Enum::create_with(dec(false, 15, -1));
    assert!(!decimals.try_add(dec(false, 150, -2)));
    assert_eq!(decimals.values().len(), 1);

    let mut names = Enum::create_with("a".to_string());
    assert!(!names.try_add("a".to_string()));
    assert!(names.try_add("b".to_string()));
    assert_eq!(*names.clone().values(), vec!["a".to_string(), "b".to_string()]);
}

#[test]
fn possible_array_holds_one_or_many() {
    let mut single = PossibleArray::Value(1);
    assert!(!single.is_array());
    single.add_value(2);
    assert_eq!(single.as_value(), Some(&2));
    assert!(single.as_array().is_none());
    let mut many: PossibleArray<i64> = PossibleArray::new_array();
    assert!(many.is_array());
    many.add_value(1);
    many.add_value(2);
    assert_eq!(many.as_array(), Some(&vec![1, 2]));
    assert!(many.as_value().is_none());
    assert_eq!(many.clone().as_array(), Some(&vec![1, 2]));
}

#[test]
fn scalar_types_start_with_defaults() {
    let mut text = StringType::new();
    assert!(text.is_default() && !text.is_array());
    text.add_value("x");
    assert!(!text.is_default());
    assert!(text.check_enum(&"anything".to_string()));
    assert!(text.add_enum_value("a"));
    assert!(text.add_enum_value("b"));
    assert!(!text.add_enum_value("a"));
    assert!(text.check_enum(&"b".to_string()));
    assert!(!text.check_enum(&"x".to_string()));
    assert_eq!(text.enum_values().as_ref().unwrap().values().len(), 2);
    text.make_array();
    assert!(text.is_array() && text.is_default());
    assert!(StringType::new_array().is_array());
    assert_eq!(Element::String(StringType::from("v")).as_string(), Some("v"));
    let mut replaced = StringType::new();
    replaced.set_value(PossibleArray::Value("r".to_string()));
    assert_eq!(replaced.value().as_value(), Some(&"r".to_string()));

    let mut number = IntegerType::new();
    assert!(number.is_default());
    assert!(number.add_enum_value(4));
    assert_eq!(number.value().as_value(), Some(&4));
    assert!(number.add_enum_value(6));
    assert_eq!(number.value().as_value(), Some(&4));
    assert!(number.check_enum(6) && !number.check_enum(5));
    number.set_min(5);
    number.set_max(7);
    assert!(number.check_minmax(5) && number.check_minmax(7) && !number.check_minmax(4));
    number.add_value(9);
    assert_eq!(Element::Integer(number.clone()).as_integer(), Some(9));
    assert!(IntegerType::new_array().is_array());
    assert_eq!(IntegerType::from(3).value().as_value(), Some(&3));
    number.set_value(PossibleArray::Array(vec![1, 2]));
    assert!(number.is_array());

    let mut floating = FloatingType::create();
    assert!(floating.is_default());
    floating.add_value(dec(true, 0, 3));
    assert!(floating.is_default());
    floating.add_value(dec(false, 25, -1));
    assert!(!floating.is_default());
    assert_eq!(Element::Floating(floating).as_integer(), Some(2));

    let mut flag = BooleanType::new();
    assert!(flag.is_default() && !flag.get_value());
    flag.add_value(true);
    assert!(flag.get_value() && !flag.is_default());
    flag.make_array();
    assert!(!flag.get_value());
    flag.add_value(true);
    flag.add_value(false);
    assert!(flag.get_value());
    flag.set_value(PossibleArray::Value(false));
    assert_eq!(Element::Boolean(flag).as_boolean(), Some(false));
    assert_eq!(Element::Boolean(BooleanType::from(true)).as_boolean(), Some(true));
    assert_eq!(Element::Nil.as_boolean(), None);
    assert_eq!(Element::Integer(IntegerType::from(3)).as_floating(), Some(dec(false, 3, 0)));
}

#[test]
fn object_fields_keep_their_order_and_names_are_unique() {
    let mut object = ObjectType::new();
    assert!(!object.is_default());
    let field = |name: &str, value: i64| {
        FieldType::new(name.to_string(), Element::Integer(IntegerType::from(value)), Options::new())
    };
    object.add_field(field("b", 1));
    object.add_field(field("a", 2));
    object.add_field(field("b", 3));
    let names: Vec<&str> = object.fields().iter().map(|f| f.name()).collect();
    assert_eq!(names, vec!["b", "a"]);
    assert!(object.has_field("a") && !object.has_field("c"));
    assert_eq!(object.get_field("b").unwrap().value().as_integer(), Some(3));
    assert!(object.get_field("c").is_none());
    let copy = object.clone_fields();
    assert_eq!(copy.len(), 2);

    let mut holder = ObjectType::new();
    holder.set_fields(copy);
    holder.add_value(object.clone());
    assert!(holder.is_default());
    assert!(Element::Object(holder.clone()).as_object().is_some());
    holder.make_array();
    assert!(holder.is_array() && holder.is_default());
    holder.add_value(object);
    assert_eq!(holder.value().as_array().unwrap().len(), 1);
    assert!(Element::Object(holder).as_object().is_none());
}

#[test]
fn any_type_and_options_and_module() {
    let mut any = AnyType::new();
    assert!(!any.is_default() && !any.is_array());
    any.add_value(Element::Boolean(BooleanType::from(true)));
    assert!(any.is_default());
    let mut list = AnyType::new_array();
    list.add_value(Element::Nil);
    list.add_value(Element::Any(any.clone()));
    assert_eq!(list.value().as_array().unwrap().len(), 2);
    list.set_value(PossibleArray::Value(Box::new(None)));
    assert!(!list.is_array());

    let mut options = Options::new();
    assert!(options.empty());
    options.add("a", Element::Boolean(BooleanType::from(true)));
    options.add("b", Element::Integer(IntegerType::from(1)));
    options.add("a", Element::Boolean(BooleanType::from(false)));
    assert!(!options.empty());
    assert_eq!(options.all().len(), 2);
    assert!(!options.has_bool("a") && !options.has_bool("b") && !options.has_bool("c"));
    assert!(!options.clone().has_bool("a"));

    let mut module = Module::new();
    module.set_name("m".to_string());
    assert_eq!(module.name(), "m");
    module.add_field(FieldType::new("x".to_string(), Element::Nil, Options::new()));
    module.add_field(FieldType::new("x".to_string(), Element::Any(any), Options::new()));
    assert_eq!(module.fields().len(), 2);
    assert!(matches!(module.get_field("x").unwrap().value(), Element::Nil));
    assert!(module.get_field("y").is_none());
    assert_eq!(module.clone().fields().len(), 2);
}

#[test]
fn tokens_render_as_text() {
    let text = |token: Token| TokenInfo::new(token, (1, 1)).to_string();
    assert_eq!(text(Token::Nil), "None");
    assert_eq!(text(Token::Eof), "eof");
    assert_eq!(text(Token::Ident("id".to_string())), "id");
    assert_eq!(text(Token::String("s".to_string())), "\"s\"");
    assert_eq!(text(Token::Integer(-12)), "-12");
    assert_eq!(text(Token::Floating(dec(false, 15, -1))), "15e-1");
    assert_eq!(text(Token::Boolean(true)), "true");
    assert_eq!(text(Token::Type(TypeName::TypeAny)), "any");
    assert_eq!(text(Token::Type(TypeName::TypeFloating)), "floating");
    assert_eq!(text(Token::Special(SpecialToken::Interval)), "..");
    assert_eq!(text(Token::Special(SpecialToken::Null)), "null");
    let check = Token::is_special(SpecialToken::Comma);
    assert!(check(&Token::Special(SpecialToken::Comma)));
    assert!(!check(&Token::Special(SpecialToken::Colon)));
    assert!(!check(&Token::Eof));
    assert!(Token::Integer(1).is_number() && Token::Floating(dec(false, 1, 0)).is_number());
    assert!(Token::Integer(1).is_integer() && !Token::Integer(1).is_floating());
    assert!(Token::Type(TypeName::TypeObject).is_type() && Token::Eof.is_eof());
    assert_eq!(TokenInfo::new(Token::Eof, (2, 3)).clone().position(), (2, 3));
    assert_eq!(TokenInfo::new(Token::Eof, (2, 3)).literal(), "");
}

#[test]
fn text_helpers() {
    let mut out = String::from("n=");
    append_natural(&mut out, 0);
    append_natural(&mut out, u64::MAX);
    append_integer(&mut out, -40);
    assert_eq!(out, "n=018446744073709551615-40");
    assert!(same_text("", ""));
    assert!(same_text("a\u{e9}", "a\u{e9}"));
    assert!(!same_text("a", "ab"));
    assert!(!same_text("ab", "a"));
    assert!(!same_text("ab", "ac"));
}
