//! The parser: from tokens to fields.

use vstd::prelude::*;
use vstd::string::*;
use crate::decimal::Decimal;
use crate::grammar::{accept_assign, accept_special, accept_value, any_parse, array_read,
    assigned_read, begin_read, blank_object, boolean_parse, boolean_value_read,
    constraints_read, cursor_ok, declared_fields, declared_read, element_guess, enum_read,
    eof_info, field_parse, floating_bound_read, floating_member_read, floating_value_read,
    integer_bound_read, integer_member_read, integer_value_read, interval_read, lifted,
    list_guess, literal_field, literal_fields, literal_read, members_read, mistaken, name_read,
    number_guess, number_parse, object_array_read, object_assigned, object_guess,
    object_literal_read, object_parse, object_value_read, option_items, options_parse,
    same_kind, same_read, sign_read, start, starts_floating, starts_integer, step,
    string_member_read, string_parse, string_value_read, token_at, typed_parse, unexpected,
    upper_bound_read, Cursor, ErrorKind, Outcome, ParserErrorView};
use crate::invariants::{lemma_field_parse_well_named, lemma_object_parse_well_named,
    object_well_named, well_named};
use crate::lexer::token_views;
use crate::object_base::ObjectBase;
use crate::objects::{AnyType, AnyTypeView, BooleanType, Element, ElementView, FieldType,
    FloatingType, IntegerType, NumberType, ObjectType, ObjectTypeView, OptionView, Options,
    StringType};
use crate::text::{append_decimal, append_integer, append_natural};
use crate::tokens::{SpecialToken, Token, TokenInfo, TokenInfoView, TokenView, TypeName};

verus! {

/// A cursor to come back to.
struct ParserState {
    current: usize,
    next: usize,
}

/// An error of the parser: its kind and its message.
#[derive(Debug)]
pub struct ParserError {
    kind: ErrorKind,
    msg: String,
}

impl View for ParserError {
    type V = ParserErrorView;

    closed spec fn view(&self) -> ParserErrorView {
        ParserErrorView { kind: self.kind, msg: self.msg@ }
    }
}

impl ParserError {
    /// An error with the message `val` and no particular kind.
    pub fn new(val: String) -> (r: ParserError)
        ensures
            r@ == (ParserErrorView { kind: ErrorKind::Other, msg: val@ }),
    {
        ParserError { kind: ErrorKind::Other, msg: val }
    }

    /// An error of the kind `kind` with the message `val`.
    pub fn with_kind(kind: ErrorKind, val: String) -> (r: ParserError)
        ensures
            r@ == (ParserErrorView { kind, msg: val@ }),
    {
        ParserError { kind, msg: val }
    }

    pub fn msg(&self) -> (r: &str)
        ensures
            r@ == self@.msg,
    {
        self.msg.as_str()
    }

    pub fn kind(&self) -> (r: ErrorKind)
        ensures
            r == self@.kind,
    {
        self.kind
    }
}

/// The parser: a token stream and a cursor in it.
pub struct Parser {
    tokens: Vec<TokenInfo>,
    current: usize,
    next: usize,
    eof_token: TokenInfo,
}

impl Parser {
    #[verifier::type_invariant]
    spec fn well_formed(&self) -> bool {
        &&& self.current <= self.next <= self.tokens@.len()
        &&& self.eof_token@ == eof_info(token_views(self.tokens@))
    }

    /// The token stream.
    pub closed spec fn stream(&self) -> Seq<TokenInfoView> {
        token_views(self.tokens@)
    }

    /// Where the parser stands.
    pub closed spec fn cursor(&self) -> Cursor {
        Cursor { current: self.current as int, next: self.next as int }
    }

    /// The token that comes next.
    pub closed spec fn peek(&self) -> Token {
        if self.next == self.tokens@.len() {
            self.eof_token.token_of()
        } else {
            self.tokens@[self.next as int].token_of()
        }
    }

    /// A parser at the start of the stream `toks`. The first token of a
    /// stream counts as taken.
    pub fn new(toks: Vec<TokenInfo>) -> (r: Parser)
        ensures
            r.stream() == token_views(toks@),
            r.cursor() == start(token_views(toks@)),
    {
        let len = toks.len();
        Parser {
            tokens: toks,
            current: 0,
            next: if len == 0 {
                0
            } else {
                1
            },
            eof_token: TokenInfo::new(Token::Eof, (len, len)),
        }
    }

    fn backup(&self) -> (r: ParserState)
        ensures
            r.current == self.cursor().current,
            r.next == self.cursor().next,
            cursor_ok(self.stream(), self.cursor()),
    {
        proof {
            use_type_invariant(self);
        }
        ParserState { current: self.current, next: self.next }
    }

    fn restore(&mut self, bu: &ParserState)
        requires
            bu.current <= bu.next <= old(self).stream().len(),
        ensures
            final(self).stream() == old(self).stream(),
            final(self).cursor() == (Cursor { current: bu.current as int, next: bu.next as int }),
    {
        proof {
            use_type_invariant(&*self);
        }
        if bu.current <= self.next {
            self.current = bu.current;
            self.next = bu.next;
        } else {
            self.next = bu.next;
            self.current = bu.current;
        }
    }

    /// Takes the next token: it becomes the current one. Returns whether
    /// there was a token to take.
    pub fn advance(&mut self) -> (r: bool)
        ensures
            final(self).stream() == old(self).stream(),
            final(self).cursor() == step(old(self).stream(), old(self).cursor()),
            r == (old(self).cursor().next != old(self).stream().len()),
            cursor_ok(final(self).stream(), final(self).cursor()),
    {
        proof {
            use_type_invariant(&*self);
        }
        self.current = self.next;
        if self.next == self.tokens.len() {
            false
        } else {
            self.next += 1;
            true
        }
    }

    /// Whether the current place is behind the stream.
    pub fn eof(&self) -> (r: bool)
        ensures
            r == (self.cursor().current == self.stream().len()),
    {
        self.current == self.tokens.len()
    }

    /// Whether the next place is behind the stream.
    pub fn next_eof(&self) -> (r: bool)
        ensures
            r == (self.cursor().next == self.stream().len()),
    {
        self.next == self.tokens.len()
    }

    /// The current token.
    pub fn current(&self) -> (r: &TokenInfo)
        ensures
            r@ == token_at(self.stream(), self.cursor().current),
            cursor_ok(self.stream(), self.cursor()),
    {
        proof {
            use_type_invariant(self);
        }
        if self.eof() {
            &self.eof_token
        } else {
            &self.tokens[self.current]
        }
    }

    /// The token that comes next.
    pub fn next(&self) -> (r: &TokenInfo)
        ensures
            r@ == token_at(self.stream(), self.cursor().next),
            r.token_of() == self.peek(),
            cursor_ok(self.stream(), self.cursor()),
    {
        proof {
            use_type_invariant(self);
        }
        if self.next_eof() {
            &self.eof_token
        } else {
            &self.tokens[self.next]
        }
    }

    /// The error for a next token that is not what the grammar asks for.
    fn panic_expect(&self, exp: &str) -> (r: ParserError)
        ensures
            r@ == unexpected(self.stream(), self.cursor(), exp@),
    {
        let found = self.next();
        let mut msg = String::from_str("unexpected '");
        msg.append(found.to_string().as_str());
        msg.append("' at ");
        append_natural(&mut msg, found.position().0 as u64);
        msg.push(':');
        append_natural(&mut msg, found.position().1 as u64);
        msg.append(". Expected '");
        msg.append(exp);
        msg.push('\'');
        proof {
            assert(msg@ =~= unexpected(self.stream(), self.cursor(), exp@).msg);
        }
        ParserError::with_kind(ErrorKind::UnexpectedToken, msg)
    }

    /// The error of the kind `kind` for the current token.
    fn panic_current(&self, kind: ErrorKind, exp: &str) -> (r: ParserError)
        ensures
            r@ == mistaken(self.stream(), self.cursor(), kind, exp@),
    {
        let found = self.current();
        let mut msg = String::from_str("current '");
        msg.append(found.to_string().as_str());
        msg.append("' at ");
        append_natural(&mut msg, found.position().0 as u64);
        msg.push(':');
        append_natural(&mut msg, found.position().1 as u64);
        msg.append(". ");
        msg.append(exp);
        proof {
            assert(msg@ =~= mistaken(self.stream(), self.cursor(), kind, exp@).msg);
        }
        ParserError::with_kind(kind, msg)
    }

    /// Takes the next token if `call` accepts it, and says whether it did.
    pub fn expect<F: Fn(&Token) -> bool>(&mut self, call: &F) -> (r: bool)
        requires
            forall|token: &Token| call.requires((token,)),
        ensures
            call.ensures((&old(self).peek(),), r),
            old(self).peek()@ == token_at(old(self).stream(), old(self).cursor().next).token,
            final(self).stream() == old(self).stream(),
            final(self).cursor() == (if r {
                step(old(self).stream(), old(self).cursor())
            } else {
                old(self).cursor()
            }),
            cursor_ok(final(self).stream(), final(self).cursor()),
    {
        proof {
            use_type_invariant(&*self);
        }
        if call(self.next().token()) {
            self.advance();
            true
        } else {
            false
        }
    }

    /// Takes the next token if it is the sign `sign`.
    fn expect_special(&mut self, sign: SpecialToken) -> (r: bool)
        ensures
            final(self).stream() == old(self).stream(),
            (r, final(self).cursor()) == accept_special(
                old(self).stream(),
                old(self).cursor(),
                sign,
            ),
            cursor_ok(final(self).stream(), final(self).cursor()),
    {
        let wanted = Token::is_special(sign);
        self.expect(&wanted)
    }

    /// Takes the next token if it is `=` or `:`.
    fn expect_assign(&mut self) -> (r: bool)
        ensures
            final(self).stream() == old(self).stream(),
            (r, final(self).cursor()) == accept_assign(old(self).stream(), old(self).cursor()),
            cursor_ok(final(self).stream(), final(self).cursor()),
    {
        self.expect_special(SpecialToken::Equal) || self.expect_special(SpecialToken::Colon)
    }

    /// Reads a name: an identifier, a string, or a token with a literal
    /// text.
    fn read_name(&mut self) -> (r: (bool, String))
        ensures
            final(self).stream() == old(self).stream(),
            (r.0, r.1@, final(self).cursor()) == name_read(old(self).stream(), old(self).cursor()),
            cursor_ok(final(self).stream(), final(self).cursor()),
    {
        proof {
            use_type_invariant(&*self);
        }
        let found = self.next();
        let name = match found.token() {
            Token::Ident(value) => Some(value.clone()),
            Token::String(value) => Some(value.clone()),
            _ => if !found.literal().is_empty() {
                Some(String::from_str(found.literal()))
            } else {
                None
            },
        };
        match name {
            Some(value) => {
                self.advance();
                (true, value)
            },
            None => (false, String::new()),
        }
    }

    /// Reads a sign in front of a number and says whether it was `-`.
    fn read_sign(&mut self) -> (r: bool)
        ensures
            final(self).stream() == old(self).stream(),
            (r, final(self).cursor()) == sign_read(old(self).stream(), old(self).cursor()),
            cursor_ok(final(self).stream(), final(self).cursor()),
    {
        proof {
            use_type_invariant(&*self);
        }
        let minus = match self.current().token() {
            Token::Special(SpecialToken::Minus) => true,
            _ => false,
        };
        let plus = match self.current().token() {
            Token::Special(SpecialToken::Plus) => true,
            _ => false,
        };
        if minus {
            self.advance();
            true
        } else if plus {
            self.advance();
            false
        } else {
            false
        }
    }
}

/// A field type whose values the parser reads from single tokens.
pub trait ValueReadCheck: View + Sized {
    /// Whether a value of the type may start with `token`.
    spec fn accepts(token: TokenView) -> bool;

    /// What the messages of the parser call a value of the type.
    spec fn expected_text() -> Seq<char>;

    /// The field after the value at the current token was read, and the
    /// cursor behind the value; or the error if the value is not admitted.
    spec fn value_read(value: Self::V, toks: Seq<TokenInfoView>, at: Cursor) -> Outcome<Self::V>;

    /// No value starts with the token that closes the stream, and reading a
    /// value never moves the cursor back or out of the stream.
    proof fn lemma_value_read(value: Self::V, toks: Seq<TokenInfoView>, at: Cursor)
        requires
            cursor_ok(toks, at),
        ensures
            !Self::accepts(TokenView::Eof),
            Self::value_read(value, toks, at) matches Ok((_, to)) ==> cursor_ok(toks, to)
                && at.next <= to.next,
    ;

    /// Whether a value of the type may start with `val`.
    fn token_checker(val: &Token) -> (r: bool)
        ensures
            r == Self::accepts(val@),
    ;

    /// What the messages of the parser call a value of the type.
    fn expected() -> (r: &'static str)
        ensures
            r@ == Self::expected_text(),
    ;

    /// Reads the value at the current token into the field.
    fn read_value(&mut self, parser: &mut Parser) -> (r: Result<(), ParserError>)
        ensures
            final(parser).stream() == old(parser).stream(),
            match Self::value_read(old(self)@, old(parser).stream(), old(parser).cursor()) {
                Ok((value, at)) => r is Ok && final(self)@ == value && final(parser).cursor()
                    == at,
                Err(error) => r is Err && r->Err_0@ == error && error.kind != ErrorKind::Other,
            },
    ;
}

/// A field type with an interval.
pub trait WithInterval: View + Sized {
    /// The field after the bound at the current token was read, the lower or
    /// the upper one, and the cursor behind the bound.
    spec fn bound_read(value: Self::V, toks: Seq<TokenInfoView>, at: Cursor, upper: bool) -> (
        Self::V,
        Cursor,
    );

    /// Reading a bound never moves the cursor back or out of the stream.
    proof fn lemma_bound_read(value: Self::V, toks: Seq<TokenInfoView>, at: Cursor, upper: bool)
        requires
            cursor_ok(toks, at),
        ensures
            cursor_ok(toks, Self::bound_read(value, toks, at, upper).1),
            at.next <= Self::bound_read(value, toks, at, upper).1.next,
    ;

    /// Reads the lower bound at the current token.
    fn set_min(&mut self, parser: &mut Parser)
        ensures
            final(parser).stream() == old(parser).stream(),
            (final(self)@, final(parser).cursor()) == Self::bound_read(
                old(self)@,
                old(parser).stream(),
                old(parser).cursor(),
                false,
            ),
    ;

    /// Reads the upper bound at the current token.
    fn set_max(&mut self, parser: &mut Parser)
        ensures
            final(parser).stream() == old(parser).stream(),
            (final(self)@, final(parser).cursor()) == Self::bound_read(
                old(self)@,
                old(parser).stream(),
                old(parser).cursor(),
                true,
            ),
    ;
}

/// A field type with an enumeration.
pub trait WithEnum: View + Sized {
    /// The field after the member at the current token was listed, and the
    /// cursor behind the member.
    spec fn member_read(value: Self::V, toks: Seq<TokenInfoView>, at: Cursor) -> (Self::V, Cursor);

    /// Reading a member never moves the cursor back or out of the stream.
    proof fn lemma_member_read(value: Self::V, toks: Seq<TokenInfoView>, at: Cursor)
        requires
            cursor_ok(toks, at),
        ensures
            cursor_ok(toks, Self::member_read(value, toks, at).1),
            at.next <= Self::member_read(value, toks, at).1.next,
    ;

    /// Lists the member at the current token. Returns `false` if it was
    /// listed already.
    fn enum_add_value(&mut self, parser: &mut Parser) -> (r: bool)
        ensures
            final(parser).stream() == old(parser).stream(),
            (final(self)@, final(parser).cursor()) == Self::member_read(
                old(self)@,
                old(parser).stream(),
                old(parser).cursor(),
            ),
    ;
}

/// The whole number `val` with the sign that was read in front of it.
fn apply_sign(minus: bool, val: i64) -> (r: i64)
    ensures
        r == crate::grammar::signed_integer(minus, val),
{
    if minus {
        val.wrapping_mul(-1)
    } else {
        val
    }
}

/// The decimal that the token stands for, with the sign that was read in
/// front of it.
fn decimal_of(minus: bool, token: &Token) -> (r: Option<Decimal>)
    ensures
        r == (match crate::grammar::decimal_of_token(token@) {
            Some(val) => Some(crate::grammar::signed_decimal(minus, val)),
            None => None,
        }),
{
    let val = match token {
        Token::Floating(val) => *val,
        Token::Integer(val) => Decimal::from_integer(*val),
        _ => {
            return None;
        },
    };
    if minus {
        Some(val.negated())
    } else {
        Some(val)
    }
}

impl WithInterval for IntegerType {
    open spec fn bound_read(
        value: Self::V,
        toks: Seq<TokenInfoView>,
        at: Cursor,
        upper: bool,
    ) -> (Self::V, Cursor) {
        integer_bound_read(value, toks, at, upper)
    }

    proof fn lemma_bound_read(value: Self::V, toks: Seq<TokenInfoView>, at: Cursor, upper: bool) {
    }

    fn set_min(&mut self, parser: &mut Parser) {
        let minus = parser.read_sign();
        match parser.current().token() {
            Token::Integer(val) => NumberType::set_min(self, apply_sign(minus, *val)),
            _ => (),
        }
    }

    fn set_max(&mut self, parser: &mut Parser) {
        let minus = parser.read_sign();
        match parser.current().token() {
            Token::Integer(val) => NumberType::set_max(self, apply_sign(minus, *val)),
            _ => (),
        }
    }
}

impl WithInterval for FloatingType {
    open spec fn bound_read(
        value: Self::V,
        toks: Seq<TokenInfoView>,
        at: Cursor,
        upper: bool,
    ) -> (Self::V, Cursor) {
        floating_bound_read(value, toks, at, upper)
    }

    proof fn lemma_bound_read(value: Self::V, toks: Seq<TokenInfoView>, at: Cursor, upper: bool) {
    }

    fn set_min(&mut self, parser: &mut Parser) {
        let minus = parser.read_sign();
        match decimal_of(minus, parser.current().token()) {
            Some(val) => NumberType::set_min(self, val),
            None => (),
        }
    }

    fn set_max(&mut self, parser: &mut Parser) {
        let minus = parser.read_sign();
        match decimal_of(minus, parser.current().token()) {
            Some(val) => NumberType::set_max(self, val),
            None => (),
        }
    }
}

impl WithEnum for IntegerType {
    open spec fn member_read(value: Self::V, toks: Seq<TokenInfoView>, at: Cursor) -> (
        Self::V,
        Cursor,
    ) {
        integer_member_read(value, toks, at)
    }

    proof fn lemma_member_read(value: Self::V, toks: Seq<TokenInfoView>, at: Cursor) {
    }

    fn enum_add_value(&mut self, parser: &mut Parser) -> (r: bool) {
        let minus = parser.read_sign();
        match parser.current().token() {
            Token::Integer(val) => self.add_enum_value(apply_sign(minus, *val)),
            _ => true,
        }
    }
}

impl WithEnum for FloatingType {
    open spec fn member_read(value: Self::V, toks: Seq<TokenInfoView>, at: Cursor) -> (
        Self::V,
        Cursor,
    ) {
        floating_member_read(value, toks, at)
    }

    proof fn lemma_member_read(value: Self::V, toks: Seq<TokenInfoView>, at: Cursor) {
    }

    fn enum_add_value(&mut self, parser: &mut Parser) -> (r: bool) {
        let minus = parser.read_sign();
        match decimal_of(minus, parser.current().token()) {
            Some(val) => self.add_enum_value(val),
            None => true,
        }
    }
}

impl WithEnum for StringType {
    open spec fn member_read(value: Self::V, toks: Seq<TokenInfoView>, at: Cursor) -> (
        Self::V,
        Cursor,
    ) {
        string_member_read(value, toks, at)
    }

    proof fn lemma_member_read(value: Self::V, toks: Seq<TokenInfoView>, at: Cursor) {
    }

    fn enum_add_value(&mut self, parser: &mut Parser) -> (r: bool) {
        match parser.current().token() {
            Token::String(val) => self.add_enum_value(val.as_str()),
            _ => true,
        }
    }
}

impl ValueReadCheck for StringType {
    open spec fn accepts(token: TokenView) -> bool {
        token is String
    }

    open spec fn expected_text() -> Seq<char> {
        "string"@
    }

    open spec fn value_read(value: Self::V, toks: Seq<TokenInfoView>, at: Cursor) -> Outcome<
        Self::V,
    > {
        string_value_read(value, toks, at)
    }

    proof fn lemma_value_read(value: Self::V, toks: Seq<TokenInfoView>, at: Cursor) {
    }

    fn token_checker(val: &Token) -> (r: bool) {
        val.is_string()
    }

    fn expected() -> (r: &'static str) {
        "string"
    }

    fn read_value(&mut self, parser: &mut Parser) -> (r: Result<(), ParserError>) {
        match parser.current().token() {
            Token::String(val) => {
                if !self.check_enum(val) {
                    let mut note = String::from_str("Value '");
                    note.append(val.as_str());
                    note.append("' is not valid for enum.");
                    return Err(parser.panic_current(ErrorKind::EnumViolation, note.as_str()));
                }
                self.add_value(val.as_str());
                Ok(())
            },
            _ => Ok(()),
        }
    }
}

impl ValueReadCheck for IntegerType {
    open spec fn accepts(token: TokenView) -> bool {
        starts_integer(token)
    }

    open spec fn expected_text() -> Seq<char> {
        "integer"@
    }

    open spec fn value_read(value: Self::V, toks: Seq<TokenInfoView>, at: Cursor) -> Outcome<
        Self::V,
    > {
        integer_value_read(value, toks, at)
    }

    proof fn lemma_value_read(value: Self::V, toks: Seq<TokenInfoView>, at: Cursor) {
    }

    fn token_checker(val: &Token) -> (r: bool) {
        match val {
            Token::Integer(_) => true,
            Token::Special(v) => match v {
                SpecialToken::Plus => true,
                SpecialToken::Minus => true,
                _ => false,
            },
            _ => false,
        }
    }

    fn expected() -> (r: &'static str) {
        "integer"
    }

    fn read_value(&mut self, parser: &mut Parser) -> (r: Result<(), ParserError>) {
        let minus = parser.read_sign();
        match parser.current().token() {
            Token::Integer(val) => {
                let result = apply_sign(minus, *val);
                if !self.check_enum(result) {
                    let mut note = String::from_str("Value ");
                    append_integer(&mut note, result);
                    note.append(" is invalid for integer enum");
                    return Err(parser.panic_current(ErrorKind::EnumViolation, note.as_str()));
                } else if !self.check_minmax(result) {
                    let mut note = String::from_str("Value ");
                    append_integer(&mut note, result);
                    note.append(" is invalid for integer interval");
                    return Err(parser.panic_current(ErrorKind::IntervalViolation, note.as_str()));
                } else {
                    self.add_value(result);
                    Ok(())
                }
            },
            _ => Ok(()),
        }
    }
}

impl ValueReadCheck for FloatingType {
    open spec fn accepts(token: TokenView) -> bool {
        starts_floating(token)
    }

    open spec fn expected_text() -> Seq<char> {
        "floating or integer"@
    }

    open spec fn value_read(value: Self::V, toks: Seq<TokenInfoView>, at: Cursor) -> Outcome<
        Self::V,
    > {
        floating_value_read(value, toks, at)
    }

    proof fn lemma_value_read(value: Self::V, toks: Seq<TokenInfoView>, at: Cursor) {
    }

    fn token_checker(val: &Token) -> (r: bool) {
        match val {
            Token::Integer(_) => true,
            Token::Floating(_) => true,
            Token::Special(v) => match v {
                SpecialToken::Plus => true,
                SpecialToken::Minus => true,
                _ => false,
            },
            _ => false,
        }
    }

    fn expected() -> (r: &'static str) {
        "floating or integer"
    }

    fn read_value(&mut self, parser: &mut Parser) -> (r: Result<(), ParserError>) {
        let minus = parser.read_sign();
        let val = match decimal_of(minus, parser.current().token()) {
            Some(val) => val,
            None => {
                return Err(parser.panic_current(ErrorKind::InvalidLiteral, "Should not be here"));
            },
        };
        if !self.check_enum(val) {
            let mut note = String::from_str("Value ");
            append_decimal(&mut note, &val);
            note.append(" is invalid for floating enum");
            return Err(parser.panic_current(ErrorKind::EnumViolation, note.as_str()));
        } else if !self.check_minmax(val) {
            let mut note = String::from_str("Value ");
            append_decimal(&mut note, &val);
            note.append(" is invalid for floating interval");
            return Err(parser.panic_current(ErrorKind::IntervalViolation, note.as_str()));
        } else {
            self.add_value(val);
            Ok(())
        }
    }
}

impl ValueReadCheck for BooleanType {
    open spec fn accepts(token: TokenView) -> bool {
        token is Boolean
    }

    open spec fn expected_text() -> Seq<char> {
        "true or false"@
    }

    open spec fn value_read(value: Self::V, toks: Seq<TokenInfoView>, at: Cursor) -> Outcome<
        Self::V,
    > {
        boolean_value_read(value, toks, at)
    }

    proof fn lemma_value_read(value: Self::V, toks: Seq<TokenInfoView>, at: Cursor) {
    }

    fn token_checker(val: &Token) -> (r: bool) {
        val.is_boolean()
    }

    fn expected() -> (r: &'static str) {
        "true or false"
    }

    fn read_value(&mut self, parser: &mut Parser) -> (r: Result<(), ParserError>) {
        match parser.current().token() {
            Token::Boolean(val) => {
                self.add_value(*val);
                Ok(())
            },
            _ => Ok(()),
        }
    }
}

/// Whether the result `r` of reading into a field is what `outcome` says:
/// on success the field is `value` and the cursor is `at`, on failure the
/// error is the same, and it has one of the kinds of the grammar.
pub open spec fn read_as<V>(outcome: Outcome<V>, r: Result<(), ParserError>, value: V, at: Cursor)
    -> bool {
    match outcome {
        Ok((read, to)) => r is Ok && value == read && at == to,
        Err(error) => r is Err && r->Err_0@ == error && error.kind != ErrorKind::Other,
    }
}

/// Whether the result `r` of parsing a field is what `outcome` says: on
/// success the field is the same and the cursor is `at`, on failure the error
/// is the same, and it has one of the kinds of the grammar.
pub open spec fn parsed_as<T: View>(outcome: Outcome<T::V>, r: Result<T, ParserError>, at: Cursor)
    -> bool {
    match outcome {
        Ok((read, to)) => r is Ok && r->Ok_0@ == read && at == to,
        Err(error) => r is Err && r->Err_0@ == error && error.kind != ErrorKind::Other,
    }
}

/// A fresh field of the kind of `val`: an array field if `val` is one.
fn create_same_object<T: ObjectBase>(val: &T) -> (r: T)
    ensures
        r@ == same_kind::<T>(val@),
{
    let mut res = T::create();
    if val.is_array() {
        res.make_array();
    }
    res
}

impl Parser {
    /// Takes the next token if a value of the type `T` may start with it.
    fn expect_value<T: ValueReadCheck>(&mut self) -> (r: bool)
        ensures
            final(self).stream() == old(self).stream(),
            (r, final(self).cursor()) == accept_value::<T>(old(self).stream(), old(self).cursor()),
            cursor_ok(final(self).stream(), final(self).cursor()),
            old(self).cursor().next <= final(self).cursor().next,
            r ==> old(self).cursor().next < final(self).cursor().next,
    {
        proof {
            use_type_invariant(&*self);
            T::lemma_value_read(arbitrary(), self.stream(), self.cursor());
        }
        let wanted = |token: &Token| -> (found: bool)
            ensures
                found == T::accepts(token@),
            {
                T::token_checker(token)
            };
        self.expect(&wanted)
    }

    /// Reads the start of a type: the suffix `[` `]` makes `result` an array
    /// field.
    fn parse_begin<T: ObjectBase>(&mut self, mut result: T) -> (r: Result<T, ParserError>)
        ensures
            final(self).stream() == old(self).stream(),
            parsed_as::<T>(
                begin_read::<T>(result@, old(self).stream(), old(self).cursor()),
                r,
                final(self).cursor(),
            ),
            cursor_ok(final(self).stream(), final(self).cursor()),
            old(self).cursor().next <= final(self).cursor().next,
    {
        proof {
            reveal(begin_read);
        }
        if self.expect_special(SpecialToken::LBracket) {
            if !self.expect_special(SpecialToken::RBracket) {
                return Err(self.panic_expect("]"));
            }
            result.make_array();
        }
        Ok(result)
    }

    /// Reads the upper bound of an interval, if a number stands at the
    /// cursor.
    fn read_upper_bound<T: ValueReadCheck + WithInterval>(&mut self, result: &mut T)
        ensures
            final(self).stream() == old(self).stream(),
            (final(result)@, final(self).cursor()) == upper_bound_read::<T>(
                old(result)@,
                old(self).stream(),
                old(self).cursor(),
            ),
            cursor_ok(final(self).stream(), final(self).cursor()),
            old(self).cursor().next <= final(self).cursor().next,
    {
        if self.expect_value::<T>() {
            proof {
                T::lemma_bound_read(result@, self.stream(), self.cursor(), true);
            }
            result.set_max(self);
        }
    }

    /// Reads an interval, if one stands at the cursor, and says whether
    /// there was one.
    fn try_read_interval<T: ValueReadCheck + WithInterval>(&mut self, result: &mut T) -> (r:
        Result<bool, ParserError>)
        ensures
            final(self).stream() == old(self).stream(),
            match interval_read::<T>(old(result)@, old(self).stream(), old(self).cursor()) {
                Ok((found, value, at)) => r == Ok::<bool, ParserError>(found) && final(result)@
                    == value && final(self).cursor() == at,
                Err(error) => r is Err && r->Err_0@ == error && error.kind != ErrorKind::Other,
            },
            cursor_ok(final(self).stream(), final(self).cursor()),
            old(self).cursor().next <= final(self).cursor().next,
            r == Ok::<bool, ParserError>(true) ==> old(self).cursor().next
                < final(self).cursor().next,
    {
        proof {
            reveal(interval_read);
        }
        if self.expect_value::<T>() {
            proof {
                T::lemma_bound_read(result@, self.stream(), self.cursor(), false);
            }
            result.set_min(self);
            if !self.expect_special(SpecialToken::Interval) {
                return Err(self.panic_expect(".."));
            }
            self.read_upper_bound(result);
            Ok(true)
        } else if self.expect_special(SpecialToken::Interval) {
            self.read_upper_bound(result);
            Ok(true)
        } else {
            Ok(false)
        }
    }

    /// Reads the members of an enumeration.
    fn read_members<T: ValueReadCheck + WithEnum>(&mut self, output: &mut T)
        ensures
            final(self).stream() == old(self).stream(),
            (final(output)@, final(self).cursor()) == members_read::<T>(
                old(output)@,
                old(self).stream(),
                old(self).cursor(),
            ),
            cursor_ok(final(self).stream(), final(self).cursor()),
            old(self).cursor().next <= final(self).cursor().next,
    {
        let ghost toks = self.stream();
        let ghost first_value = output@;
        let ghost first_at = self.cursor();
        proof {
            use_type_invariant(&*self);
        }
        loop
            invariant_except_break
                members_read::<T>(output@, toks, self.cursor()) == members_read::<T>(
                    first_value,
                    toks,
                    first_at,
                ),
            invariant
                self.stream() == toks,
                cursor_ok(toks, self.cursor()),
                first_at.next <= self.cursor().next,
            ensures
                (output@, self.cursor()) == members_read::<T>(first_value, toks, first_at),
            decreases toks.len() - self.cursor().next,
        {
            if !self.expect_value::<T>() {
                break;
            }
            proof {
                T::lemma_member_read(output@, toks, self.cursor());
            }
            output.enum_add_value(self);
            self.expect_special(SpecialToken::Comma);
        }
    }

    /// Reads an enumeration, if one stands at the cursor, and says whether
    /// there was one.
    fn try_read_enum<T: ValueReadCheck + WithEnum>(&mut self, output: &mut T) -> (r: Result<
        bool,
        ParserError,
    >)
        ensures
            final(self).stream() == old(self).stream(),
            match enum_read::<T>(old(output)@, old(self).stream(), old(self).cursor()) {
                Ok((found, value, at)) => r == Ok::<bool, ParserError>(found) && final(output)@
                    == value && final(self).cursor() == at,
                Err(error) => r is Err && r->Err_0@ == error && error.kind != ErrorKind::Other,
            },
            cursor_ok(final(self).stream(), final(self).cursor()),
            old(self).cursor().next <= final(self).cursor().next,
            r == Ok::<bool, ParserError>(true) ==> old(self).cursor().next
                < final(self).cursor().next,
    {
        proof {
            reveal(enum_read);
        }
        if self.expect_special(SpecialToken::Enum) {
            if self.expect_special(SpecialToken::LBrace) {
                self.read_members(output);
                if !self.expect_special(SpecialToken::RBrace) {
                    let mut wanted = String::from_str("} or ");
                    wanted.append(T::expected());
                    return Err(self.panic_expect(wanted.as_str()));
                }
                Ok(true)
            } else {
                Err(self.panic_expect("{"))
            }
        } else {
            Ok(false)
        }
    }

    /// Reads a literal of the type into `output`.
    fn read_value_nocheck<T: ValueReadCheck + ObjectBase>(&mut self, output: &mut T) -> (r: Result<
        (),
        ParserError,
    >)
        ensures
            final(self).stream() == old(self).stream(),
            read_as(
                literal_read::<T>(old(output)@, old(self).stream(), old(self).cursor()),
                r,
                final(output)@,
                final(self).cursor(),
            ),
            cursor_ok(final(self).stream(), final(self).cursor()),
            r is Ok ==> old(self).cursor().next < final(self).cursor().next,
    {
        proof {
            reveal(literal_read);
        }
        if !output.is_array() {
            if !self.expect_value::<T>() {
                return Err(self.panic_expect(T::expected()));
            }
            proof {
                use_type_invariant(&*self);
                T::lemma_value_read(output@, self.stream(), self.cursor());
            }
            let read = output.read_value(self);
            proof {
                use_type_invariant(&*self);
            }
            read
        } else {
            if !self.expect_special(SpecialToken::LBracket) {
                return Err(self.panic_expect("["));
            }
            self.try_read_array(output)
        }
    }

    /// Reads the value of a field into `output`, if one is given.
    fn read_value<T: ValueReadCheck + ObjectBase>(&mut self, output: &mut T) -> (r: Result<
        bool,
        ParserError,
    >)
        ensures
            final(self).stream() == old(self).stream(),
            match assigned_read::<T>(old(output)@, old(self).stream(), old(self).cursor()) {
                Ok((value, at)) => r == Ok::<bool, ParserError>(true) && final(output)@ == value
                    && final(self).cursor() == at,
                Err(error) => r is Err && r->Err_0@ == error && error.kind != ErrorKind::Other,
            },
            cursor_ok(final(self).stream(), final(self).cursor()),
            r is Ok ==> old(self).cursor().next <= final(self).cursor().next,
    {
        proof {
            reveal(assigned_read);
        }
        if self.expect_assign() {
            match self.read_value_nocheck(output) {
                Ok(()) => {},
                Err(error) => {
                    return Err(error);
                },
            }
        }
        Ok(true)
    }

    /// Reads the items of an array literal into `output`, up to the `]`.
    fn try_read_array<T: ValueReadCheck>(&mut self, output: &mut T) -> (r: Result<
        (),
        ParserError,
    >)
        ensures
            final(self).stream() == old(self).stream(),
            read_as(
                array_read::<T>(old(output)@, old(self).stream(), old(self).cursor()),
                r,
                final(output)@,
                final(self).cursor(),
            ),
            cursor_ok(final(self).stream(), final(self).cursor()),
            r is Ok ==> old(self).cursor().next < final(self).cursor().next,
    {
        let ghost toks = self.stream();
        let ghost first_value = output@;
        let ghost first_at = self.cursor();
        proof {
            use_type_invariant(&*self);
        }
        loop
            invariant_except_break
                array_read::<T>(output@, toks, self.cursor()) == array_read::<T>(
                    first_value,
                    toks,
                    first_at,
                ),
            invariant
                self.stream() == toks,
                toks == old(self).stream(),
                first_value == old(output)@,
                first_at == old(self).cursor(),
                cursor_ok(toks, self.cursor()),
                first_at.next <= self.cursor().next,
            ensures
                !accept_value::<T>(toks, self.cursor()).0,
                array_read::<T>(output@, toks, self.cursor()) == array_read::<T>(
                    first_value,
                    toks,
                    first_at,
                ),
            decreases toks.len() - self.cursor().next,
        {
            if !self.expect_value::<T>() {
                break;
            }
            proof {
                T::lemma_value_read(output@, toks, self.cursor());
            }
            let read = output.read_value(self);
            proof {
                use_type_invariant(&*self);
            }
            match read {
                Ok(()) => {},
                Err(error) => {
                    return Err(error);
                },
            }
            self.expect_special(SpecialToken::Comma);
        }
        if !self.expect_special(SpecialToken::RBracket) {
            let mut wanted = String::from_str("] or ");
            wanted.append(T::expected());
            return Err(self.panic_expect(wanted.as_str()));
        }
        Ok(())
    }

    /// Reads intervals and enumerations in turn until neither stands at the
    /// cursor.
    fn read_constraints<T: ValueReadCheck + WithInterval + WithEnum>(&mut self, result: &mut T)
        -> (r: Result<(), ParserError>)
        ensures
            final(self).stream() == old(self).stream(),
            read_as(
                constraints_read::<T>(old(result)@, old(self).stream(), old(self).cursor()),
                r,
                final(result)@,
                final(self).cursor(),
            ),
            cursor_ok(final(self).stream(), final(self).cursor()),
            r is Ok ==> old(self).cursor().next <= final(self).cursor().next,
    {
        let ghost toks = self.stream();
        let ghost first_value = result@;
        let ghost first_at = self.cursor();
        proof {
            use_type_invariant(&*self);
        }
        loop
            invariant_except_break
                constraints_read::<T>(result@, toks, self.cursor()) == constraints_read::<T>(
                    first_value,
                    toks,
                    first_at,
                ),
            invariant
                self.stream() == toks,
                toks == old(self).stream(),
                first_value == old(result)@,
                first_at == old(self).cursor(),
                cursor_ok(toks, self.cursor()),
                first_at.next <= self.cursor().next,
            ensures
                constraints_read::<T>(first_value, toks, first_at) == Ok::<
                    (T::V, Cursor),
                    ParserErrorView,
                >((result@, self.cursor())),
            decreases toks.len() - self.cursor().next,
        {
            let had_interval = match self.try_read_interval(result) {
                Ok(found) => found,
                Err(error) => {
                    return Err(error);
                },
            };
            let had_enum = match self.try_read_enum(result) {
                Ok(found) => found,
                Err(error) => {
                    return Err(error);
                },
            };
            if !had_interval && !had_enum {
                break;
            }
        }
        Ok(())
    }

    /// Parses a number field behind its type name.
    fn parse_number<T: ValueReadCheck + ObjectBase + WithEnum + WithInterval>(
        &mut self,
        result: T,
    ) -> (r: Result<T, ParserError>)
        requires
            result@ == T::fresh(),
        ensures
            final(self).stream() == old(self).stream(),
            parsed_as::<T>(
                number_parse::<T>(old(self).stream(), old(self).cursor()),
                r,
                final(self).cursor(),
            ),
            cursor_ok(final(self).stream(), final(self).cursor()),
            r is Ok ==> old(self).cursor().next <= final(self).cursor().next,
    {
        proof {
            reveal(number_parse);
        }
        let mut result = match self.parse_begin(result) {
            Ok(begun) => begun,
            Err(error) => {
                return Err(error);
            },
        };
        match self.read_constraints(&mut result) {
            Ok(()) => {},
            Err(error) => {
                return Err(error);
            },
        }
        match self.read_value(&mut result) {
            Ok(_) => {},
            Err(error) => {
                return Err(error);
            },
        }
        Ok(result)
    }

    /// Parses an integer field behind its type name: the array suffix,
    /// intervals and enumerations, and a value.
    pub fn parse_integer(&mut self) -> (r: Result<IntegerType, ParserError>)
        ensures
            final(self).stream() == old(self).stream(),
            parsed_as::<IntegerType>(
                number_parse::<IntegerType>(old(self).stream(), old(self).cursor()),
                r,
                final(self).cursor(),
            ),
            cursor_ok(final(self).stream(), final(self).cursor()),
            r is Ok ==> old(self).cursor().next <= final(self).cursor().next,
    {
        self.parse_number(IntegerType::new())
    }

    /// Parses a floating field behind its type name: the array suffix,
    /// intervals and enumerations, and a value.
    pub fn parse_floating(&mut self) -> (r: Result<FloatingType, ParserError>)
        ensures
            final(self).stream() == old(self).stream(),
            parsed_as::<FloatingType>(
                number_parse::<FloatingType>(old(self).stream(), old(self).cursor()),
                r,
                final(self).cursor(),
            ),
            cursor_ok(final(self).stream(), final(self).cursor()),
            r is Ok ==> old(self).cursor().next <= final(self).cursor().next,
    {
        self.parse_number(FloatingType::new())
    }

    /// Parses a boolean field behind its type name: the array suffix and a
    /// value.
    pub fn parse_boolean(&mut self) -> (r: Result<BooleanType, ParserError>)
        ensures
            final(self).stream() == old(self).stream(),
            parsed_as::<BooleanType>(
                boolean_parse(old(self).stream(), old(self).cursor()),
                r,
                final(self).cursor(),
            ),
            cursor_ok(final(self).stream(), final(self).cursor()),
            r is Ok ==> old(self).cursor().next <= final(self).cursor().next,
    {
        proof {
            reveal(boolean_parse);
        }
        let mut result = match self.parse_begin(BooleanType::new()) {
            Ok(begun) => begun,
            Err(error) => {
                return Err(error);
            },
        };
        match self.read_value(&mut result) {
            Ok(_) => {},
            Err(error) => {
                return Err(error);
            },
        }
        Ok(result)
    }

    /// Parses a string field behind its type name: the array suffix, an
    /// enumeration and a value.
    pub fn parse_string(&mut self) -> (r: Result<StringType, ParserError>)
        ensures
            final(self).stream() == old(self).stream(),
            parsed_as::<StringType>(
                string_parse(old(self).stream(), old(self).cursor()),
                r,
                final(self).cursor(),
            ),
            cursor_ok(final(self).stream(), final(self).cursor()),
            r is Ok ==> old(self).cursor().next <= final(self).cursor().next,
    {
        proof {
            reveal(string_parse);
        }
        let mut result = match self.parse_begin(StringType::new()) {
            Ok(begun) => begun,
            Err(error) => {
                return Err(error);
            },
        };
        match self.try_read_enum(&mut result) {
            Ok(_) => {},
            Err(error) => {
                return Err(error);
            },
        }
        match self.read_value(&mut result) {
            Ok(_) => {},
            Err(error) => {
                return Err(error);
            },
        }
        Ok(result)
    }

    /// Reads a literal of the type into the fresh field `value` and returns
    /// the field.
    fn parse_value_for<T: ValueReadCheck + ObjectBase>(&mut self, mut value: T) -> (r: Result<
        T,
        ParserError,
    >)
        ensures
            final(self).stream() == old(self).stream(),
            parsed_as::<T>(
                literal_read::<T>(value@, old(self).stream(), old(self).cursor()),
                r,
                final(self).cursor(),
            ),
            cursor_ok(final(self).stream(), final(self).cursor()),
            r is Ok ==> old(self).cursor().next < final(self).cursor().next,
    {
        match self.read_value_nocheck(&mut value) {
            Ok(()) => {},
            Err(error) => {
                return Err(error);
            },
        }
        Ok(value)
    }
}

/// The plain value of an element that may be missing.
pub open spec fn read_view(read: Option<Element>) -> Option<ElementView> {
    match read {
        Some(element) => Some(element@),
        None => None,
    }
}

impl Parser {
    /// Reads a number with a sign in front of it. Its type is taken from
    /// the token behind the sign.
    fn guess_number(&mut self) -> (r: Result<Element, ParserError>)
        ensures
            final(self).stream() == old(self).stream(),
            parsed_as::<Element>(
                number_guess(old(self).stream(), old(self).cursor()),
                r,
                final(self).cursor(),
            ),
            cursor_ok(final(self).stream(), final(self).cursor()),
            r is Ok ==> old(self).cursor().next < final(self).cursor().next,
    {
        let bu = self.backup();
        self.advance();
        let whole = self.next().token().is_integer();
        let decimal = self.next().token().is_floating();
        if whole {
            self.restore(&bu);
            match self.parse_value_for(IntegerType::new()) {
                Ok(value) => Ok(Element::Integer(value)),
                Err(error) => Err(error),
            }
        } else if decimal {
            self.restore(&bu);
            match self.parse_value_for(FloatingType::new()) {
                Ok(value) => Ok(Element::Floating(value)),
                Err(error) => Err(error),
            }
        } else {
            Err(self.panic_expect("number value"))
        }
    }

    /// Reads a value whose type is taken from the value itself.
    fn guess_element(&mut self) -> (r: Result<Element, ParserError>)
        ensures
            final(self).stream() == old(self).stream(),
            parsed_as::<Element>(
                element_guess(old(self).stream(), old(self).cursor()),
                r,
                final(self).cursor(),
            ),
            cursor_ok(final(self).stream(), final(self).cursor()),
            r is Ok ==> old(self).cursor().next < final(self).cursor().next,
        decreases old(self).stream().len() - old(self).cursor().next, 1int,
    {
        proof {
            use_type_invariant(&*self);
        }
        let kind = match self.next().token() {
            Token::Integer(_) => 0u8,
            Token::Floating(_) => 1u8,
            Token::Boolean(_) => 2u8,
            Token::String(_) => 3u8,
            Token::Special(SpecialToken::LBrace) => 4u8,
            Token::Special(SpecialToken::LBracket) => 5u8,
            Token::Special(SpecialToken::Minus) => 6u8,
            Token::Special(SpecialToken::Plus) => 6u8,
            Token::Special(SpecialToken::Null) => 7u8,
            _ => 8u8,
        };
        if kind == 0 {
            match self.parse_value_for(IntegerType::new()) {
                Ok(value) => Ok(Element::Integer(value)),
                Err(error) => Err(error),
            }
        } else if kind == 1 {
            match self.parse_value_for(FloatingType::new()) {
                Ok(value) => Ok(Element::Floating(value)),
                Err(error) => Err(error),
            }
        } else if kind == 2 {
            match self.parse_value_for(BooleanType::new()) {
                Ok(value) => Ok(Element::Boolean(value)),
                Err(error) => Err(error),
            }
        } else if kind == 3 {
            match self.parse_value_for(StringType::new()) {
                Ok(value) => Ok(Element::String(value)),
                Err(error) => Err(error),
            }
        } else if kind == 4 {
            self.advance();
            match self.guess_object() {
                Ok(value) => Ok(Element::Object(value)),
                Err(error) => Err(error),
            }
        } else if kind == 5 {
            self.advance();
            self.read_any_array()
        } else if kind == 6 {
            self.guess_number()
        } else if kind == 7 {
            self.advance();
            Ok(Element::Any(AnyType::new()))
        } else {
            Err(self.panic_expect("valid data"))
        }
    }

    /// Reads the fields of an object whose types are taken from their
    /// values, behind the `{`.
    fn guess_object(&mut self) -> (r: Result<ObjectType, ParserError>)
        ensures
            final(self).stream() == old(self).stream(),
            parsed_as::<ObjectType>(
                object_guess(
                    crate::grammar::blank_object(Seq::empty()),
                    old(self).stream(),
                    old(self).cursor(),
                ),
                r,
                final(self).cursor(),
            ),
            cursor_ok(final(self).stream(), final(self).cursor()),
            r is Ok ==> old(self).cursor().next < final(self).cursor().next,
        decreases old(self).stream().len() - old(self).cursor().next, 2int,
    {
        let mut next = ObjectType::new();
        let ghost toks = self.stream();
        let ghost first_value = next@;
        let ghost first_at = self.cursor();
        proof {
            use_type_invariant(&*self);
        }
        loop
            invariant_except_break
                object_guess(next@, toks, self.cursor()) == object_guess(
                    first_value,
                    toks,
                    first_at,
                ),
            invariant
                self.stream() == toks,
                toks == old(self).stream(),
                first_value == crate::grammar::blank_object(Seq::empty()),
                first_at == old(self).cursor(),
                cursor_ok(toks, self.cursor()),
                first_at.next <= self.cursor().next,
            ensures
                object_guess(first_value, toks, first_at) == Ok::<
                    (ObjectTypeView, Cursor),
                    ParserErrorView,
                >((next@, self.cursor())),
                first_at.next < self.cursor().next,
            decreases toks.len() - self.cursor().next,
        {
            if self.expect_special(SpecialToken::RBrace) {
                break;
            }
            let (found, field_name) = self.read_name();
            if !found {
                return Err(self.panic_expect("ident, string or }"));
            }
            self.expect_assign();
            let opts = Options::new();
            let element = match self.guess_element() {
                Ok(element) => element,
                Err(error) => {
                    return Err(error);
                },
            };
            next.add_field(FieldType::new(field_name, element, opts));
            self.expect_special(SpecialToken::Comma);
        }
        Ok(next)
    }

    /// Reads the items of a list whose types are taken from the items
    /// themselves, behind the `[`.
    fn read_any_array(&mut self) -> (r: Result<Element, ParserError>)
        ensures
            final(self).stream() == old(self).stream(),
            parsed_as::<Element>(
                lifted(
                    list_guess(
                        AnyType::emptied(AnyType::fresh()),
                        old(self).stream(),
                        old(self).cursor(),
                    ),
                    |value: AnyTypeView| ElementView::Any(value),
                ),
                r,
                final(self).cursor(),
            ),
            cursor_ok(final(self).stream(), final(self).cursor()),
            r is Ok ==> old(self).cursor().next < final(self).cursor().next,
        decreases old(self).stream().len() - old(self).cursor().next, 2int,
    {
        let mut new_any = AnyType::new_array();
        let ghost toks = self.stream();
        let ghost first_value = new_any@;
        let ghost first_at = self.cursor();
        proof {
            use_type_invariant(&*self);
        }
        loop
            invariant_except_break
                list_guess(new_any@, toks, self.cursor()) == list_guess(
                    first_value,
                    toks,
                    first_at,
                ),
            invariant
                self.stream() == toks,
                toks == old(self).stream(),
                first_value == AnyType::emptied(AnyType::fresh()),
                first_at == old(self).cursor(),
                cursor_ok(toks, self.cursor()),
                first_at.next <= self.cursor().next,
            ensures
                list_guess(first_value, toks, first_at) == Ok::<
                    (AnyTypeView, Cursor),
                    ParserErrorView,
                >((new_any@, self.cursor())),
                first_at.next < self.cursor().next,
            decreases toks.len() - self.cursor().next,
        {
            if self.expect_special(SpecialToken::RBracket) {
                break;
            }
            let element = match self.guess_element() {
                Ok(element) => element,
                Err(error) => {
                    return Err(error);
                },
            };
            new_any.add_value(element);
            self.expect_special(SpecialToken::Comma);
        }
        Ok(Element::Any(new_any))
    }

    /// Reads the options of a field, if any are given.
    fn try_read_options(&mut self) -> (r: Result<Options, ParserError>)
        ensures
            final(self).stream() == old(self).stream(),
            parsed_as::<Options>(
                options_parse(old(self).stream(), old(self).cursor()),
                r,
                final(self).cursor(),
            ),
            cursor_ok(final(self).stream(), final(self).cursor()),
            r is Ok ==> old(self).cursor().next <= final(self).cursor().next,
    {
        proof {
            reveal(options_parse);
        }
        let mut result = Options::new();
        if self.expect_special(SpecialToken::LParen) {
            let ghost toks = self.stream();
            let ghost first_value = result@;
            let ghost first_at = self.cursor();
            loop
                invariant_except_break
                    option_items(result@, toks, self.cursor()) == option_items(
                        first_value,
                        toks,
                        first_at,
                    ),
                invariant
                    self.stream() == toks,
                    toks == old(self).stream(),
                    options_parse(toks, old(self).cursor()) == option_items(
                        first_value,
                        toks,
                        first_at,
                    ),
                    cursor_ok(toks, self.cursor()),
                    old(self).cursor().next <= first_at.next <= self.cursor().next,
                ensures
                    option_items(first_value, toks, first_at) == Ok::<
                        (Seq<OptionView>, Cursor),
                        ParserErrorView,
                    >((result@, self.cursor())),
                decreases toks.len() - self.cursor().next,
            {
                if self.expect_special(SpecialToken::RParen) {
                    break;
                }
                let (found, name) = self.read_name();
                if !found {
                    return Err(self.panic_expect("ident or string"));
                }
                if self.expect_assign() {
                    let element = match self.guess_element() {
                        Ok(element) => element,
                        Err(error) => {
                            return Err(error);
                        },
                    };
                    match element {
                        Element::Nil => {
                            result.add(name.as_str(), Element::Boolean(BooleanType::from(true)))
                        },
                        _ => { result.add(name.as_str(), element) },
                    }
                } else {
                    result.add(name.as_str(), Element::Boolean(BooleanType::from(true)))
                }
                self.expect_special(SpecialToken::Comma);
            }
        }
        Ok(result)
    }

    /// Parses a field of any type behind its type name: `=` or `:` and a
    /// value whose type is taken from the value.
    pub fn parse_any(&mut self) -> (r: Result<AnyType, ParserError>)
        ensures
            final(self).stream() == old(self).stream(),
            parsed_as::<AnyType>(
                any_parse(old(self).stream(), old(self).cursor()),
                r,
                final(self).cursor(),
            ),
            cursor_ok(final(self).stream(), final(self).cursor()),
            r is Ok ==> old(self).cursor().next < final(self).cursor().next,
    {
        proof {
            reveal(any_parse);
        }
        let mut result = AnyType::new();
        if self.expect_assign() {
            match self.guess_element() {
                Ok(element) => {
                    result.add_value(element);
                },
                Err(error) => {
                    return Err(error);
                },
            }
        } else {
            return Err(self.panic_expect("= or :"));
        }
        Ok(result)
    }

    /// Reads the value of an object field into `output`, if one is given.
    fn read_object_value(&mut self, output: &mut ObjectType) -> (r: Result<bool, ParserError>)
        ensures
            final(self).stream() == old(self).stream(),
            match object_assigned(old(output)@, old(self).stream(), old(self).cursor()) {
                Ok((value, at)) => r == Ok::<bool, ParserError>(true) && final(output)@ == value
                    && final(self).cursor() == at,
                Err(error) => r is Err && r->Err_0@ == error && error.kind != ErrorKind::Other,
            },
            cursor_ok(final(self).stream(), final(self).cursor()),
            r is Ok ==> old(self).cursor().next <= final(self).cursor().next,
        decreases old(self).stream().len() - old(self).cursor().next, 3int,
    {
        if self.expect_assign() {
            match self.read_object_literal(output) {
                Ok(()) => {},
                Err(error) => {
                    return Err(error);
                },
            }
        }
        Ok(true)
    }

    /// Reads a literal for an object field into `output`.
    fn read_object_literal(&mut self, output: &mut ObjectType) -> (r: Result<(), ParserError>)
        ensures
            final(self).stream() == old(self).stream(),
            read_as(
                object_literal_read(old(output)@, old(self).stream(), old(self).cursor()),
                r,
                final(output)@,
                final(self).cursor(),
            ),
            cursor_ok(final(self).stream(), final(self).cursor()),
            r is Ok ==> old(self).cursor().next < final(self).cursor().next,
        decreases old(self).stream().len() - old(self).cursor().next, 3int,
    {
        if !output.is_array() {
            if !self.expect_special(SpecialToken::LBrace) {
                return Err(self.panic_expect("{"));
            }
            output.read_value(self)
        } else {
            if !self.expect_special(SpecialToken::LBracket) {
                return Err(self.panic_expect("["));
            }
            self.read_object_array(output)
        }
    }

    /// Reads the objects of an array literal into `output`, up to the `]`.
    fn read_object_array(&mut self, output: &mut ObjectType) -> (r: Result<(), ParserError>)
        ensures
            final(self).stream() == old(self).stream(),
            read_as(
                object_array_read(old(output)@, old(self).stream(), old(self).cursor()),
                r,
                final(output)@,
                final(self).cursor(),
            ),
            cursor_ok(final(self).stream(), final(self).cursor()),
            r is Ok ==> old(self).cursor().next < final(self).cursor().next,
        decreases old(self).stream().len() - old(self).cursor().next, 3int,
    {
        let ghost toks = self.stream();
        let ghost first_value = output@;
        let ghost first_at = self.cursor();
        proof {
            use_type_invariant(&*self);
        }
        loop
            invariant_except_break
                object_array_read(output@, toks, self.cursor()) == object_array_read(
                    first_value,
                    toks,
                    first_at,
                ),
            invariant
                self.stream() == toks,
                toks == old(self).stream(),
                first_value == old(output)@,
                first_at == old(self).cursor(),
                cursor_ok(toks, self.cursor()),
                first_at.next <= self.cursor().next,
            ensures
                !accept_special(toks, self.cursor(), SpecialToken::LBrace).0,
                object_array_read(output@, toks, self.cursor()) == object_array_read(
                    first_value,
                    toks,
                    first_at,
                ),
            decreases toks.len() - self.cursor().next,
        {
            if !self.expect_special(SpecialToken::LBrace) {
                break;
            }
            match output.read_value(self) {
                Ok(()) => {},
                Err(error) => {
                    return Err(error);
                },
            }
            self.expect_special(SpecialToken::Comma);
        }
        if !self.expect_special(SpecialToken::RBracket) {
            return Err(self.panic_expect("] or {"));
        }
        Ok(())
    }

    /// Reads the value of a field that is declared as `declaration` into a
    /// fresh field of the same kind.
    fn read_same<T: ValueReadCheck + ObjectBase>(&mut self, declaration: &T) -> (r: Result<
        T,
        ParserError,
    >)
        ensures
            final(self).stream() == old(self).stream(),
            parsed_as::<T>(
                same_read::<T>(declaration@, old(self).stream(), old(self).cursor()),
                r,
                final(self).cursor(),
            ),
            cursor_ok(final(self).stream(), final(self).cursor()),
            r is Ok ==> old(self).cursor().next <= final(self).cursor().next,
    {
        let mut val = create_same_object(declaration);
        match self.read_value(&mut val) {
            Ok(_) => Ok(val),
            Err(error) => Err(error),
        }
    }

    /// Reads the value of a declared field of an object literal, behind the
    /// name.
    fn read_declared(&mut self, declaration: &Element) -> (r: Result<Option<Element>, ParserError>)
        ensures
            final(self).stream() == old(self).stream(),
            match declared_read(declaration@, old(self).stream(), old(self).cursor()) {
                Ok((read, at)) => r is Ok && read_view(r->Ok_0) == read && final(self).cursor()
                    == at,
                Err(error) => r is Err && r->Err_0@ == error && error.kind != ErrorKind::Other,
            },
            cursor_ok(final(self).stream(), final(self).cursor()),
            r is Ok ==> old(self).cursor().next <= final(self).cursor().next,
        decreases old(self).stream().len() - old(self).cursor().next, 4int,
    {
        proof {
            use_type_invariant(&*self);
        }
        match declaration {
            Element::Nil => Ok(None),
            Element::String(v) => match self.read_same(v) {
                Ok(val) => Ok(Some(Element::String(val))),
                Err(error) => Err(error),
            },
            Element::Integer(v) => match self.read_same(v) {
                Ok(val) => Ok(Some(Element::Integer(val))),
                Err(error) => Err(error),
            },
            Element::Floating(v) => match self.read_same(v) {
                Ok(val) => Ok(Some(Element::Floating(val))),
                Err(error) => Err(error),
            },
            Element::Boolean(v) => match self.read_same(v) {
                Ok(val) => Ok(Some(Element::Boolean(val))),
                Err(error) => Err(error),
            },
            Element::Object(v) => {
                let mut val = create_same_object(v);
                val.set_fields(v.clone_fields());
                match self.read_object_value(&mut val) {
                    Ok(_) => Ok(Some(Element::Object(val))),
                    Err(error) => Err(error),
                }
            },
            Element::Any(_) => Ok(None),
        }
    }

    /// Reads the value of the field `field_name` of an object literal,
    /// behind the name: as the declaration in `declared` says, or with the
    /// type taken from the value where the field is not declared.
    fn read_literal_field(&mut self, declared: &ObjectType, field_name: &str) -> (r: Result<
        Option<Element>,
        ParserError,
    >)
        ensures
            final(self).stream() == old(self).stream(),
            match literal_field(
                declared@.fields,
                field_name@,
                old(self).stream(),
                old(self).cursor(),
            ) {
                Ok((read, at)) => r is Ok && read_view(r->Ok_0) == read && final(self).cursor()
                    == at,
                Err(error) => r is Err && r->Err_0@ == error && error.kind != ErrorKind::Other,
            },
            cursor_ok(final(self).stream(), final(self).cursor()),
            r is Ok ==> old(self).cursor().next <= final(self).cursor().next,
        decreases old(self).stream().len() - old(self).cursor().next, 5int,
    {
        proof {
            use_type_invariant(&*self);
        }
        match declared.get_field(field_name) {
            Some(value) => self.read_declared(value.value()),
            None => {
                if self.expect_assign() {
                    match self.guess_element() {
                        Ok(element) => Ok(Some(element)),
                        Err(error) => Err(error),
                    }
                } else {
                    let mut note = String::from_str("Object doesn't contain field with name '");
                    note.append(field_name);
                    note.append("' and it's type cannot be detected");
                    Err(self.panic_current(ErrorKind::UnresolvedField, note.as_str()))
                }
            },
        }
    }

    /// Parses the element of a field whose type name is the current token.
    fn parse_typed(&mut self) -> (r: Result<Element, ParserError>)
        ensures
            final(self).stream() == old(self).stream(),
            parsed_as::<Element>(
                typed_parse(old(self).stream(), old(self).cursor()),
                r,
                final(self).cursor(),
            ),
            cursor_ok(final(self).stream(), final(self).cursor()),
            r is Ok ==> old(self).cursor().next <= final(self).cursor().next,
        decreases old(self).stream().len() - old(self).cursor().next, 8int,
    {
        proof {
            use_type_invariant(&*self);
        }
        let name = match self.current().token() {
            Token::Type(name) => Some(*name),
            _ => None,
        };
        match name {
            Some(TypeName::TypeString) => match self.parse_string() {
                Ok(val) => Ok(Element::String(val)),
                Err(error) => Err(error),
            },
            Some(TypeName::TypeInteger) => match self.parse_integer() {
                Ok(val) => Ok(Element::Integer(val)),
                Err(error) => Err(error),
            },
            Some(TypeName::TypeFloating) => match self.parse_floating() {
                Ok(val) => Ok(Element::Floating(val)),
                Err(error) => Err(error),
            },
            Some(TypeName::TypeBoolean) => match self.parse_boolean() {
                Ok(val) => Ok(Element::Boolean(val)),
                Err(error) => Err(error),
            },
            Some(TypeName::TypeObject) => match self.parse_object() {
                Ok(val) => Ok(Element::Object(val)),
                Err(error) => Err(error),
            },
            Some(TypeName::TypeAny) => match self.parse_any() {
                Ok(val) => Ok(Element::Any(val)),
                Err(error) => Err(error),
            },
            None => Err(self.panic_current(ErrorKind::MissingType, "typename")),
        }
    }

    /// Parses a field: optionally a name, optionally options, `:` if there
    /// is a name, the type name and what belongs to the type. In every object
    /// of the field the names of the fields are unique.
    pub fn parse_field(&mut self) -> (r: Result<FieldType, ParserError>)
        ensures
            final(self).stream() == old(self).stream(),
            parsed_as::<FieldType>(
                field_parse(old(self).stream(), old(self).cursor()),
                r,
                final(self).cursor(),
            ),
            cursor_ok(final(self).stream(), final(self).cursor()),
            r is Ok ==> old(self).cursor().next < final(self).cursor().next,
            r matches Ok(field) ==> well_named(field@.value),
        decreases old(self).stream().len() - old(self).cursor().next, 5int,
    {
        proof {
            use_type_invariant(&*self);
            lemma_field_parse_well_named(self.stream(), self.cursor());
        }
        let (_, name) = self.read_name();
        let opts = match self.try_read_options() {
            Ok(opts) => opts,
            Err(error) => {
                return Err(error);
            },
        };
        if !name.as_str().is_empty() && !self.expect_special(SpecialToken::Colon) {
            return Err(self.panic_expect(":"));
        }
        if !self.advance() {
            return Err(self.panic_current(ErrorKind::MissingType, "typename"));
        }
        match self.parse_typed() {
            Ok(element) => Ok(FieldType::new(name, element, opts)),
            Err(error) => Err(error),
        }
    }

    /// Parses an object field behind its type name: the array suffix, and
    /// optionally `{`, the declared fields and `}`, and a value.
    pub fn parse_object(&mut self) -> (r: Result<ObjectType, ParserError>)
        ensures
            final(self).stream() == old(self).stream(),
            parsed_as::<ObjectType>(
                object_parse(old(self).stream(), old(self).cursor()),
                r,
                final(self).cursor(),
            ),
            cursor_ok(final(self).stream(), final(self).cursor()),
            r is Ok ==> old(self).cursor().next <= final(self).cursor().next,
            r matches Ok(object) ==> object_well_named(object@),
        decreases old(self).stream().len() - old(self).cursor().next, 7int,
    {
        proof {
            lemma_object_parse_well_named(self.stream(), self.cursor());
        }
        let mut result = match self.parse_begin(ObjectType::new()) {
            Ok(begun) => begun,
            Err(error) => {
                return Err(error);
            },
        };
        if self.expect_special(SpecialToken::LBrace) {
            let ghost toks = self.stream();
            let ghost first_value = result@;
            let ghost first_at = self.cursor();
            loop
                invariant_except_break
                    declared_fields(result@, toks, self.cursor()) == declared_fields(
                        first_value,
                        toks,
                        first_at,
                    ),
                invariant
                    self.stream() == toks,
                    toks == old(self).stream(),
                    object_parse(toks, old(self).cursor()) == (match declared_fields(
                        first_value,
                        toks,
                        first_at,
                    ) {
                        Ok((declared, behind_fields)) => object_assigned(
                            declared,
                            toks,
                            behind_fields,
                        ),
                        Err(error) => Err(error),
                    }),
                    cursor_ok(toks, self.cursor()),
                    old(self).cursor().next < first_at.next <= self.cursor().next,
                ensures
                    declared_fields(first_value, toks, first_at) == Ok::<
                        (ObjectTypeView, Cursor),
                        ParserErrorView,
                    >((result@, self.cursor())),
                decreases toks.len() - self.cursor().next,
            {
                if self.expect_special(SpecialToken::RBrace) {
                    break;
                }
                let element = match self.parse_field() {
                    Ok(element) => element,
                    Err(error) => {
                        return Err(error);
                    },
                };
                if result.has_field(element.name()) {
                    let mut note = String::from_str("Field '");
                    note.append(element.name());
                    note.append("' is already defined in object.");
                    return Err(self.panic_current(ErrorKind::DuplicateField, note.as_str()));
                }
                result.add_field(element);
                if !self.expect_special(SpecialToken::Semicolon) {
                    self.expect_special(SpecialToken::Comma);
                }
            }
            match self.read_object_value(&mut result) {
                Ok(_) => {},
                Err(error) => {
                    return Err(error);
                },
            }
        }
        Ok(result)
    }
}

impl ObjectType {
    /// Reads an object literal behind its `{` against the fields that this
    /// field declares. The object of the literal starts with the declared
    /// fields and gets the fields of the literal; it becomes the value of
    /// this field, or the last of its values if this is an array field.
    pub fn read_value(&mut self, parser: &mut Parser) -> (r: Result<(), ParserError>)
        ensures
            final(parser).stream() == old(parser).stream(),
            read_as(
                object_value_read(old(self)@, old(parser).stream(), old(parser).cursor()),
                r,
                final(self)@,
                final(parser).cursor(),
            ),
            cursor_ok(final(parser).stream(), final(parser).cursor()),
            r is Ok ==> old(parser).cursor().next < final(parser).cursor().next,
        decreases old(parser).stream().len() - old(parser).cursor().next, 2int,
    {
        let mut next = ObjectType::new();
        next.set_fields(self.clone_fields());
        let ghost toks = parser.stream();
        let ghost declared = self@.fields;
        let ghost first_value = next@;
        let ghost first_at = parser.cursor();
        proof {
            use_type_invariant(&*parser);
        }
        loop
            invariant_except_break
                literal_fields(declared, next@, toks, parser.cursor()) == literal_fields(
                    declared,
                    first_value,
                    toks,
                    first_at,
                ),
            invariant
                parser.stream() == toks,
                toks == old(parser).stream(),
                *self == *old(self),
                declared == self@.fields,
                first_value == blank_object(declared),
                first_at == old(parser).cursor(),
                cursor_ok(toks, parser.cursor()),
                first_at.next <= parser.cursor().next,
            ensures
                literal_fields(declared, first_value, toks, first_at) == Ok::<
                    (ObjectTypeView, Cursor),
                    ParserErrorView,
                >((next@, parser.cursor())),
                first_at.next < parser.cursor().next,
            decreases toks.len() - parser.cursor().next,
        {
            if parser.expect_special(SpecialToken::RBrace) {
                break;
            }
            let (found, field_name) = parser.read_name();
            if !found {
                return Err(parser.panic_expect("ident, string or }"));
            }
            let read = match parser.read_literal_field(&*self, field_name.as_str()) {
                Ok(read) => read,
                Err(error) => {
                    return Err(error);
                },
            };
            match read {
                Some(value) => {
                    next.add_field(FieldType::new(field_name, value, Options::new()));
                },
                None => {},
            }
            parser.expect_special(SpecialToken::Comma);
        }
        self.add_value(next);
        Ok(())
    }
}

} // verus!
