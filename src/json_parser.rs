//! A recursive-descent JSON parser over a forward-only character cursor.
use vstd::prelude::*;

use crate::json_grammar::{
    array_at, digits_len, expected_but_got, fail, hex_escape_at, hex_value, is_digit, is_hex_digit,
    items_at, keyword_at, members_at, number_at, object_at, parse_text, simple_escape, string_at,
    string_body_at, value_at, ws_len,
};
use crate::json_value::{Failure, Json, JsonObject, JsonValue, ParseError};
use crate::text::{char_from_u32, char_is_whitespace, chars_of, is_scalar_value, push_char};

verus! {

/// `r` with `k` more characters counted as consumed.
spec fn shift<T>(r: Result<(T, nat), Failure>, k: nat) -> Result<(T, nat), Failure> {
    match r {
        Ok((t, n)) => Ok((t, n + k)),
        Err(f) => Err(f),
    }
}

/// The character that the escape `\e` stands for, if it is a one-character
/// escape.
fn escape_char(e: char) -> (r: Option<char>)
    ensures
        r == simple_escape(e),
{
    match e {
        'n' => Some('\n'),
        't' => Some('\t'),
        'r' => Some('\r'),
        '"' => Some('"'),
        '\\' => Some('\\'),
        '/' => Some('/'),
        _ => None,
    }
}

fn is_ascii_digit(c: char) -> (r: bool)
    ensures
        r == is_digit(c),
{
    '0' <= c && c <= '9'
}

/// The value of a hexadecimal digit.
fn hex_digit(c: char) -> (r: Option<u32>)
    ensures
        is_hex_digit(c) ==> r == Some(hex_value(c) as u32),
        !is_hex_digit(c) ==> r is None,
{
    if '0' <= c && c <= '9' {
        Some(c as u32 - '0' as u32)
    } else if 'a' <= c && c <= 'f' {
        Some(c as u32 - 'a' as u32 + 10)
    } else if 'A' <= c && c <= 'F' {
        Some(c as u32 - 'A' as u32 + 10)
    } else {
        None
    }
}

/// The models of the values, in order.
spec fn values_model(v: Seq<JsonValue>) -> Seq<Json> {
    Seq::new(v.len(), |i: int| v[i]@)
}

proof fn lemma_array_model(items: Vec<JsonValue>)
    ensures
        JsonValue::Array(items)@ == Json::Array(values_model(items@)),
{
    let m = JsonValue::Array(items).model();
    let a = m->Array_0;
    assert(a.len() == items.len());
    assert(a =~= values_model(items@));
}

spec fn as_array(r: Result<(Seq<Json>, nat), Failure>) -> Result<(Json, nat), Failure> {
    match r {
        Ok((a, n)) => Ok((Json::Array(a), n)),
        Err(f) => Err(f),
    }
}

spec fn as_object(r: Result<(Seq<(Seq<char>, Json)>, nat), Failure>) -> Result<(Json, nat), Failure> {
    match r {
        Ok((m, n)) => Ok((Json::Object(m), n)),
        Err(f) => Err(f),
    }
}

/// The cursor: the input's characters and the number consumed so far.
struct Parser {
    chars: Vec<char>,
    position: usize,
}

impl Parser {
    spec fn wf(&self) -> bool {
        self.position <= self.chars.len()
    }

    fn new(input: &str) -> (p: Parser)
        ensures
            p.wf(),
            p.chars@ == input@,
            p.position == 0,
    {
        let chars = chars_of(input);
        Parser { chars, position: 0 }
    }

    fn error(&self, message: &str) -> (e: ParseError)
        ensures
            e@ == fail(message@, self.position as nat),
    {
        ParseError { message: message.to_string(), position: self.position }
    }

    fn next(&mut self) -> (r: Option<char>)
        requires
            old(self).wf(),
        ensures
            final(self).wf(),
            final(self).chars == old(self).chars,
            old(self).position < old(self).chars.len() ==> r == Some(old(self).chars@[old(self).position as int])
                && final(self).position == old(self).position + 1,
            old(self).position >= old(self).chars.len() ==> r is None && final(self).position == old(self).position,
    {
        if self.position < self.chars.len() {
            let c = self.chars[self.position];
            self.position += 1;
            Some(c)
        } else {
            None
        }
    }

    fn peek(&self) -> (r: Option<char>)
        requires
            self.wf(),
        ensures
            self.position < self.chars.len() ==> r == Some(self.chars@[self.position as int]),
            self.position >= self.chars.len() ==> r is None,
    {
        if self.position < self.chars.len() {
            Some(self.chars[self.position])
        } else {
            None
        }
    }

    fn skip_whitespace(&mut self)
        requires
            old(self).wf(),
        ensures
            final(self).wf(),
            final(self).chars == old(self).chars,
            final(self).position == old(self).position + ws_len(old(self).chars@, old(self).position as nat),
    {
        let ghost start = self.position as nat;
        while self.position < self.chars.len() && char_is_whitespace(self.chars[self.position])
            invariant
                self.wf(),
                self.chars == old(self).chars,
                start <= self.position,
                ws_len(self.chars@, start) == (self.position - start) + ws_len(self.chars@, self.position as nat),
            decreases self.chars.len() - self.position,
        {
            self.position += 1;
        }
    }

    fn expect_keyword(&mut self, keyword: &str) -> (r: Result<(), ParseError>)
        requires
            old(self).wf(),
        ensures
            final(self).wf(),
            final(self).chars == old(self).chars,
            match keyword_at(old(self).chars@, old(self).position as nat, keyword@, 0) {
                Ok(_) => r is Ok && final(self).position == old(self).position + keyword@.len(),
                Err(f) => r matches Err(e) && e@ == f,
            },
    {
        let ghost s = self.chars@;
        let ghost p = self.position as nat;
        let n = keyword.unicode_len();
        let mut i: usize = 0;
        while i < n
            invariant
                self.wf(),
                self.chars == old(self).chars,
                s == self.chars@,
                p == old(self).position,
                n == keyword@.len(),
                i <= n,
                self.position == p + i,
                keyword_at(s, p, keyword@, 0) == keyword_at(s, p, keyword@, i as nat),
            decreases n - i,
        {
            let expected = keyword.get_char(i);
            match self.peek() {
                Some(c) => {
                    if c != expected {
                        let mut message = String::from_str("Expected '");
                        push_char(&mut message, expected);
                        message.append("' but got '");
                        push_char(&mut message, c);
                        message.append("'");
                        assert(message@ =~= expected_but_got(expected, c));
                        return Err(ParseError { message, position: self.position });
                    }
                    self.next();
                },
                None => {
                    return Err(self.error("Unexpected end of input"));
                },
            }
            i += 1;
        }
        Ok(())
    }

    /// Reads a string literal whose opening quote is the next character.
    fn parse_string(&mut self) -> (r: Result<String, ParseError>)
        requires
            old(self).wf(),
            old(self).position < old(self).chars.len(),
            old(self).chars@[old(self).position as int] == '"',
        ensures
            final(self).wf(),
            final(self).chars == old(self).chars,
            match string_at(old(self).chars@, old(self).position as nat) {
                Ok((t, n)) => r matches Ok(x) && x@ == t && final(self).position == old(self).position + n,
                Err(f) => r matches Err(e) && e@ == f,
            },
    {
        let ghost s = self.chars@;
        let ghost p = self.position as nat;
        self.next();
        let mut out = String::new();
        loop
            invariant
                self.wf(),
                self.chars == old(self).chars,
                s == self.chars@,
                p == old(self).position,
                p < self.position,
                string_at(s, p) == shift(
                    string_body_at(s, self.position as nat, out@),
                    (self.position - p) as nat,
                ),
            decreases self.chars.len() - self.position,
        {
            match self.next() {
                None => {
                    return Err(self.error("Unterminated string"));
                },
                Some(c) => {
                    if c == '"' {
                        return Ok(out);
                    } else if c == '\\' {
                        match self.peek() {
                            None => {
                                return Err(self.error("Unterminated string"));
                            },
                            Some(e) => {
                                match escape_char(e) {
                                    Some(d) => {
                                        self.next();
                                        push_char(&mut out, d);
                                    },
                                    None => {
                                        if e == 'u' {
                                            self.next();
                                            match self.parse_unicode_escape() {
                                                Ok(ch) => {
                                                    push_char(&mut out, ch);
                                                },
                                                Err(err) => {
                                                    return Err(err);
                                                },
                                            }
                                        } else {
                                            let mut message = String::from_str("Invalid escape: \\");
                                            push_char(&mut message, e);
                                            return Err(ParseError { message, position: self.position });
                                        }
                                    },
                                }
                            },
                        }
                    } else {
                        push_char(&mut out, c);
                    }
                },
            }
        }
    }

    /// Reads one value, after any whitespace at the cursor.
    fn parse_value(&mut self) -> (r: Result<JsonValue, ParseError>)
        requires
            old(self).wf(),
        ensures
            final(self).wf(),
            final(self).chars == old(self).chars,
            match value_at(old(self).chars@, old(self).position as nat) {
                Ok((v, n)) => r matches Ok(x) && x@ == v && final(self).position == old(self).position + n,
                Err(f) => r matches Err(e) && e@ == f,
            },
        decreases old(self).chars.len() - old(self).position, 1nat,
    {
        self.skip_whitespace();
        match self.peek() {
            None => Err(self.error("Unexpected end of input")),
            Some(c) => {
                if c == 'n' {
                    self.parse_null()
                } else if c == 't' || c == 'f' {
                    self.parse_bool()
                } else if c == '"' {
                    match self.parse_string() {
                        Ok(t) => Ok(JsonValue::String(t)),
                        Err(e) => Err(e),
                    }
                } else if c == '[' {
                    self.parse_array()
                } else if c == '{' {
                    self.parse_object()
                } else if c == '-' || is_ascii_digit(c) {
                    self.parse_number()
                } else {
                    let mut message = String::from_str("Unexpected character: ");
                    push_char(&mut message, c);
                    Err(ParseError { message, position: self.position })
                }
            },
        }
    }

    /// Reads the literal `null`.
    fn parse_null(&mut self) -> (r: Result<JsonValue, ParseError>)
        requires
            old(self).wf(),
        ensures
            final(self).wf(),
            final(self).chars == old(self).chars,
            match keyword_at(old(self).chars@, old(self).position as nat, "null"@, 0) {
                Ok(_) => r matches Ok(x) && x@ == Json::Null && final(self).position == old(self).position
                    + "null"@.len(),
                Err(f) => r matches Err(e) && e@ == f,
            },
    {
        match self.expect_keyword("null") {
            Ok(()) => Ok(JsonValue::Null),
            Err(e) => Err(e),
        }
    }

    /// Reads the literal `true` where the cursor stands at `t`, else `false`.
    fn parse_bool(&mut self) -> (r: Result<JsonValue, ParseError>)
        requires
            old(self).wf(),
            old(self).position < old(self).chars.len(),
        ensures
            final(self).wf(),
            final(self).chars == old(self).chars,
            ({
                let word = if old(self).chars@[old(self).position as int] == 't' {
                    "true"@
                } else {
                    "false"@
                };
                match keyword_at(old(self).chars@, old(self).position as nat, word, 0) {
                    Ok(_) => r matches Ok(x) && x@ == Json::Bool(
                        old(self).chars@[old(self).position as int] == 't',
                    ) && final(self).position == old(self).position + word.len(),
                    Err(f) => r matches Err(e) && e@ == f,
                }
            }),
    {
        if self.peek() == Some('t') {
            match self.expect_keyword("true") {
                Ok(()) => Ok(JsonValue::Bool(true)),
                Err(e) => Err(e),
            }
        } else {
            match self.expect_keyword("false") {
                Ok(()) => Ok(JsonValue::Bool(false)),
                Err(e) => Err(e),
            }
        }
    }

    /// Reads an array whose opening bracket is the next character.
    fn parse_array(&mut self) -> (r: Result<JsonValue, ParseError>)
        requires
            old(self).wf(),
            old(self).position < old(self).chars.len(),
            old(self).chars@[old(self).position as int] == '[',
        ensures
            final(self).wf(),
            final(self).chars == old(self).chars,
            match array_at(old(self).chars@, old(self).position as nat) {
                Ok((v, n)) => r matches Ok(x) && x@ == v && final(self).position == old(self).position + n,
                Err(f) => r matches Err(e) && e@ == f,
            },
        decreases old(self).chars.len() - old(self).position - 1, 3nat,
    {
        let ghost s = self.chars@;
        let ghost p = self.position as nat;
        self.next();
        self.skip_whitespace();
        let mut arr: Vec<JsonValue> = Vec::new();
        if self.peek() == Some(']') {
            self.next();
            proof {
                lemma_array_model(arr);
                assert(values_model(arr@) =~= Seq::empty());
            }
            return Ok(JsonValue::Array(arr));
        }
        let ghost q = self.position as nat;
        assert(values_model(arr@) =~= Seq::empty());
        loop
            invariant
                self.wf(),
                self.chars == old(self).chars,
                s == self.chars@,
                p == old(self).position,
                p < q <= self.position,
                array_at(s, p) == as_array(shift(items_at(s, q, Seq::empty()), (q - p) as nat)),
                items_at(s, q, Seq::empty()) == shift(
                    items_at(s, self.position as nat, values_model(arr@)),
                    (self.position - q) as nat,
                ),
            decreases self.chars.len() - self.position,
        {
            let v = match self.parse_value() {
                Ok(v) => v,
                Err(e) => {
                    return Err(e);
                },
            };
            let ghost acc = values_model(arr@);
            arr.push(v);
            assert(values_model(arr@) =~= acc.push(v@));
            self.skip_whitespace();
            match self.peek() {
                Some(',') => {
                    self.next();
                    self.skip_whitespace();
                },
                Some(']') => {
                    self.next();
                    proof {
                        lemma_array_model(arr);
                    }
                    return Ok(JsonValue::Array(arr));
                },
                _ => {
                    return Err(self.error("Expected ',' or ']'"));
                },
            }
        }
    }

    /// Reads an object whose opening brace is the next character.
    fn parse_object(&mut self) -> (r: Result<JsonValue, ParseError>)
        requires
            old(self).wf(),
            old(self).position < old(self).chars.len(),
            old(self).chars@[old(self).position as int] == '{',
        ensures
            final(self).wf(),
            final(self).chars == old(self).chars,
            match object_at(old(self).chars@, old(self).position as nat) {
                Ok((v, n)) => r matches Ok(x) && x@ == v && final(self).position == old(self).position + n,
                Err(f) => r matches Err(e) && e@ == f,
            },
        decreases old(self).chars.len() - old(self).position - 1, 3nat,
    {
        let ghost s = self.chars@;
        let ghost p = self.position as nat;
        self.next();
        self.skip_whitespace();
        let mut obj = JsonObject::new();
        if self.peek() == Some('}') {
            self.next();
            return Ok(JsonValue::Object(obj));
        }
        let ghost q = self.position as nat;
        loop
            invariant
                self.wf(),
                self.chars == old(self).chars,
                s == self.chars@,
                p == old(self).position,
                p < q <= self.position,
                object_at(s, p) == as_object(shift(members_at(s, q, Seq::empty()), (q - p) as nat)),
                members_at(s, q, Seq::empty()) == shift(
                    members_at(s, self.position as nat, obj.entries()),
                    (self.position - q) as nat,
                ),
            decreases self.chars.len() - self.position,
        {
            self.skip_whitespace();
            if self.peek() != Some('"') {
                return Err(self.error("Expected string key"));
            }
            let key = match self.parse_string() {
                Ok(k) => k,
                Err(e) => {
                    return Err(e);
                },
            };
            self.skip_whitespace();
            if self.peek() != Some(':') {
                return Err(self.error("Expected ':'"));
            }
            self.next();
            let value = match self.parse_value() {
                Ok(v) => v,
                Err(e) => {
                    return Err(e);
                },
            };
            obj.insert(key, value);
            self.skip_whitespace();
            match self.peek() {
                Some(',') => {
                    self.next();
                },
                Some('}') => {
                    self.next();
                    return Ok(JsonValue::Object(obj));
                },
                _ => {
                    return Err(self.error("Expected ',' or '}'"));
                },
            }
        }
    }

    /// Consumes the run of ASCII digits at the cursor, appending it to `text`.
    fn take_digits(&mut self, text: &mut String) -> (count: usize)
        requires
            old(self).wf(),
        ensures
            final(self).wf(),
            final(self).chars == old(self).chars,
            count == digits_len(old(self).chars@, old(self).position as nat),
            final(self).position == old(self).position + count,
            final(text)@ == old(text)@ + old(self).chars@.subrange(
                old(self).position as int,
                final(self).position as int,
            ),
    {
        let ghost s = self.chars@;
        let ghost p = self.position as nat;
        let mut count: usize = 0;
        while self.position < self.chars.len() && is_ascii_digit(self.chars[self.position])
            invariant
                self.wf(),
                self.chars == old(self).chars,
                s == self.chars@,
                self.position == p + count,
                digits_len(s, p) == count + digits_len(s, self.position as nat),
                text@ == old(text)@ + s.subrange(p as int, self.position as int),
            decreases self.chars.len() - self.position,
        {
            push_char(text, self.chars[self.position]);
            self.position += 1;
            count += 1;
            assert(text@ =~= old(text)@ + s.subrange(p as int, self.position as int));
        }
        count
    }

    /// Reads a number literal that starts at the cursor; the value keeps the
    /// literal's text.
    #[verifier::rlimit(60)]
    fn parse_number(&mut self) -> (r: Result<JsonValue, ParseError>)
        requires
            old(self).wf(),
        ensures
            final(self).wf(),
            final(self).chars == old(self).chars,
            match number_at(old(self).chars@, old(self).position as nat) {
                Ok((v, n)) => r matches Ok(x) && x@ == v && final(self).position == old(self).position + n,
                Err(f) => r matches Err(e) && e@ == f,
            },
    {
        let ghost s = self.chars@;
        let ghost p = self.position as int;
        let mut text = String::new();
        if self.peek() == Some('-') {
            self.next();
            push_char(&mut text, '-');
        }
        assert(text@ =~= s.subrange(p, self.position as int));
        // integer part
        match self.peek() {
            Some(c) => {
                if c == '0' {
                    self.next();
                    push_char(&mut text, c);
                    assert(text@ =~= s.subrange(p, self.position as int));
                } else if is_ascii_digit(c) {
                    self.take_digits(&mut text);
                } else {
                    return Err(self.error("Expected digit"));
                }
            },
            None => {
                return Err(self.error("Expected digit"));
            },
        }
        assert(text@ =~= s.subrange(p, self.position as int));
        // fraction
        if self.peek() == Some('.') {
            self.next();
            push_char(&mut text, '.');
            if self.take_digits(&mut text) == 0 {
                return Err(self.error("Expected digit after decimal point"));
            }
        }
        assert(text@ =~= s.subrange(p, self.position as int));
        // exponent
        match self.peek() {
            Some(c) => {
                if c == 'e' || c == 'E' {
                    self.next();
                    push_char(&mut text, c);
                    match self.peek() {
                        Some(sign) => {
                            if sign == '+' || sign == '-' {
                                self.next();
                                push_char(&mut text, sign);
                            }
                        },
                        None => {},
                    }
                    if self.take_digits(&mut text) == 0 {
                        return Err(self.error("Expected digit in exponent"));
                    }
                }
            },
            None => {},
        }
        assert(text@ =~= s.subrange(p, self.position as int));
        Ok(JsonValue::Number(text))
    }

    /// Reads the four hexadecimal digits of a `\u` escape and decodes them as
    /// one code point.
    fn parse_unicode_escape(&mut self) -> (r: Result<char, ParseError>)
        requires
            old(self).wf(),
        ensures
            final(self).wf(),
            final(self).chars == old(self).chars,
            match hex_escape_at(old(self).chars@, old(self).position as nat, 0, 0) {
                Ok(code) => if is_scalar_value(code) {
                    r == Ok::<char, ParseError>((code as u32) as char) && final(self).position == old(self).position + 4
                } else {
                    r matches Err(e) && e@ == fail("Invalid unicode code point"@, (old(self).position + 4) as nat)
                },
                Err(f) => r matches Err(e) && e@ == f,
            },
    {
        let ghost s = self.chars@;
        let ghost p = self.position as nat;
        let mut code: u32 = 0;
        let mut k: usize = 0;
        while k < 4
            invariant
                self.wf(),
                self.chars == old(self).chars,
                s == self.chars@,
                p == old(self).position,
                k <= 4,
                self.position == p + k,
                hex_escape_at(s, p, 0, 0) == hex_escape_at(s, p, k as nat, code as nat),
                k == 0 ==> code == 0,
                k == 1 ==> code < 0x10,
                k == 2 ==> code < 0x100,
                k == 3 ==> code < 0x1000,
                k == 4 ==> code < 0x10000,
            decreases 4 - k,
        {
            match self.peek() {
                Some(c) => match hex_digit(c) {
                    Some(d) => {
                        self.next();
                        code = code * 16 + d;
                    },
                    None => {
                        return Err(self.error("Invalid unicode escape"));
                    },
                },
                None => {
                    return Err(self.error("Invalid unicode escape"));
                },
            }
            k += 1;
        }
        assert(hex_escape_at(s, p, 0, 0) == Ok::<nat, Failure>(code as nat));
        match char_from_u32(code) {
            Some(ch) => {
                proof {
                    vstd::utf8::char_u32_cast(ch, code);
                }
                Ok(ch)
            },
            None => Err(self.error("Invalid unicode code point")),
        }
    }
}

/// Parses a whole JSON text: one value, surrounded by nothing but whitespace.
pub fn parse(input: &str) -> (r: Result<JsonValue, ParseError>)
    ensures
        match parse_text(input@) {
            Ok(v) => r matches Ok(x) && x@ == v,
            Err(f) => r matches Err(e) && e@ == f,
        },
{
    let mut parser = Parser::new(input);
    let value = match parser.parse_value() {
        Ok(v) => v,
        Err(e) => {
            return Err(e);
        },
    };
    parser.skip_whitespace();
    if parser.peek().is_some() {
        return Err(parser.error("Unexpected characters after JSON value"));
    }
    Ok(value)
}

} // verus!
