//! The JSON grammar as the parser reads it: for each production, what it
//! yields and how many characters it consumes from a position of the input, or
//! the failure it reports and where.
use vstd::prelude::*;

use crate::assoc::insert_member;
use crate::json_value::{Failure, Json};
use crate::text::{is_scalar_value, is_white_space};

verus! {

pub open spec fn fail(message: Seq<char>, position: nat) -> Failure {
    Failure { message, position }
}

pub open spec fn is_digit(c: char) -> bool {
    '0' <= c <= '9'
}

pub open spec fn is_hex_digit(c: char) -> bool {
    ||| '0' <= c <= '9'
    ||| 'a' <= c <= 'f'
    ||| 'A' <= c <= 'F'
}

pub open spec fn hex_value(c: char) -> nat {
    if '0' <= c <= '9' {
        (c as nat - '0' as nat) as nat
    } else if 'a' <= c <= 'f' {
        (c as nat - 'a' as nat + 10) as nat
    } else {
        (c as nat - 'A' as nat + 10) as nat
    }
}

/// The number of characters from `pos` to the end of the input.
pub open spec fn rest_len(s: Seq<char>, pos: nat) -> nat {
    if pos <= s.len() {
        (s.len() - pos) as nat
    } else {
        0
    }
}

/// The number of whitespace characters in the run that starts at `pos`.
pub open spec fn ws_len(s: Seq<char>, pos: nat) -> nat
    decreases rest_len(s, pos),
{
    if pos < s.len() && is_white_space(s[pos as int]) {
        1 + ws_len(s, pos + 1)
    } else {
        0
    }
}

/// The number of ASCII digits in the run that starts at `pos`.
pub open spec fn digits_len(s: Seq<char>, pos: nat) -> nat
    decreases rest_len(s, pos),
{
    if pos < s.len() && is_digit(s[pos as int]) {
        1 + digits_len(s, pos + 1)
    } else {
        0
    }
}

pub open spec fn expected_but_got(expected: char, got: char) -> Seq<char> {
    "Expected '"@ + seq![expected] + "' but got '"@ + seq![got] + "'"@
}

/// Matching the characters of `keyword` from index `i` on against the input
/// from `p + i` on.
pub open spec fn keyword_at(s: Seq<char>, p: nat, keyword: Seq<char>, i: nat) -> Result<(), Failure>
    decreases keyword.len() - i,
{
    if i >= keyword.len() {
        Ok(())
    } else if p + i >= s.len() {
        Err(fail("Unexpected end of input"@, p + i))
    } else if s[(p + i) as int] != keyword[i as int] {
        Err(fail(expected_but_got(keyword[i as int], s[(p + i) as int]), p + i))
    } else {
        keyword_at(s, p, keyword, i + 1)
    }
}

/// The four hexadecimal digits of a `\u` escape that starts at `r`, read from
/// digit `k` on, with `acc` the value of the digits before it.
pub open spec fn hex_escape_at(s: Seq<char>, r: nat, k: nat, acc: nat) -> Result<nat, Failure>
    decreases 4 - k,
{
    if k >= 4 {
        Ok(acc)
    } else if r + k >= s.len() {
        Err(fail("Invalid unicode escape"@, r + k))
    } else if !is_hex_digit(s[(r + k) as int]) {
        Err(fail("Invalid unicode escape"@, r + k))
    } else {
        hex_escape_at(s, r, k + 1, acc * 16 + hex_value(s[(r + k) as int]))
    }
}

/// The character that a one-character escape `\e` stands for.
pub open spec fn simple_escape(e: char) -> Option<char> {
    if e == 'n' {
        Some('\n')
    } else if e == 't' {
        Some('\t')
    } else if e == 'r' {
        Some('\r')
    } else if e == '"' {
        Some('"')
    } else if e == '\\' {
        Some('\\')
    } else if e == '/' {
        Some('/')
    } else {
        None
    }
}

/// The rest of a string literal from `q` on, after its opening quote: the
/// decoded characters (`acc` followed by those decoded from `q` on) and the
/// number of characters consumed from `q` through the closing quote.
///
/// Each `\u` escape stands alone: the halves of a UTF-16 surrogate pair are
/// not joined, and an escape that names a surrogate is refused.
pub open spec fn string_body_at(s: Seq<char>, q: nat, acc: Seq<char>) -> Result<
    (Seq<char>, nat),
    Failure,
>
    decreases rest_len(s, q),
{
    if q >= s.len() {
        Err(fail("Unterminated string"@, q))
    } else if s[q as int] == '"' {
        Ok((acc, 1))
    } else if s[q as int] == '\\' {
        if q + 1 >= s.len() {
            Err(fail("Unterminated string"@, q + 1))
        } else {
            let e = s[(q + 1) as int];
            match simple_escape(e) {
                Some(d) => match string_body_at(s, q + 2, acc.push(d)) {
                    Ok((t, n)) => Ok((t, n + 2)),
                    Err(f) => Err(f),
                },
                None => if e == 'u' {
                    match hex_escape_at(s, q + 2, 0, 0) {
                        Err(f) => Err(f),
                        Ok(code) => if is_scalar_value(code) {
                            match string_body_at(s, q + 6, acc.push((code as u32) as char)) {
                                Ok((t, n)) => Ok((t, n + 6)),
                                Err(f) => Err(f),
                            }
                        } else {
                            Err(fail("Invalid unicode code point"@, q + 6))
                        },
                    }
                } else {
                    Err(fail("Invalid escape: \\"@.push(e), q + 1))
                },
            }
        }
    } else {
        match string_body_at(s, q + 1, acc.push(s[q as int])) {
            Ok((t, n)) => Ok((t, n + 1)),
            Err(f) => Err(f),
        }
    }
}

/// A string literal whose opening quote stands at `p`.
pub open spec fn string_at(s: Seq<char>, p: nat) -> Result<(Seq<char>, nat), Failure> {
    match string_body_at(s, p + 1, Seq::empty()) {
        Ok((t, n)) => Ok((t, n + 1)),
        Err(f) => Err(f),
    }
}

/// A number literal that starts at `p`: an optional minus sign, `0` or a
/// nonzero digit followed by digits, an optional fraction of at least one
/// digit, and an optional exponent of at least one digit.
pub open spec fn number_at(s: Seq<char>, p: nat) -> Result<(Json, nat), Failure> {
    let p1 = if p < s.len() && s[p as int] == '-' {
        p + 1
    } else {
        p
    };
    if !(p1 < s.len() && is_digit(s[p1 as int])) {
        Err(fail("Expected digit"@, p1))
    } else {
        let p2 = if s[p1 as int] == '0' {
            p1 + 1
        } else {
            p1 + digits_len(s, p1)
        };
        let fraction = p2 < s.len() && s[p2 as int] == '.';
        if fraction && digits_len(s, p2 + 1) == 0 {
            Err(fail("Expected digit after decimal point"@, p2 + 1))
        } else {
            let p3 = if fraction {
                p2 + 1 + digits_len(s, p2 + 1)
            } else {
                p2
            };
            let exponent = p3 < s.len() && (s[p3 as int] == 'e' || s[p3 as int] == 'E');
            let q = if exponent && p3 + 1 < s.len() && (s[(p3 + 1) as int] == '+' || s[(p3 + 1) as int] == '-') {
                p3 + 2
            } else {
                p3 + 1
            };
            if exponent && digits_len(s, q) == 0 {
                Err(fail("Expected digit in exponent"@, q))
            } else {
                let p4 = if exponent {
                    q + digits_len(s, q)
                } else {
                    p3
                };
                Ok((Json::Number(s.subrange(p as int, p4 as int)), (p4 - p) as nat))
            }
        }
    }
}

/// One value, after any whitespace that starts at `pos`: the value and the
/// number of characters consumed from `pos`, whitespace included.
pub open spec fn value_at(s: Seq<char>, pos: nat) -> Result<(Json, nat), Failure>
    decreases rest_len(s, pos), 1nat,
{
    let w = ws_len(s, pos);
    let p = pos + w;
    if p >= s.len() {
        Err(fail("Unexpected end of input"@, p))
    } else {
        let c = s[p as int];
        if c == 'n' {
            match keyword_at(s, p, "null"@, 0) {
                Ok(_) => Ok((Json::Null, w + "null"@.len())),
                Err(f) => Err(f),
            }
        } else if c == 't' {
            match keyword_at(s, p, "true"@, 0) {
                Ok(_) => Ok((Json::Bool(true), w + "true"@.len())),
                Err(f) => Err(f),
            }
        } else if c == 'f' {
            match keyword_at(s, p, "false"@, 0) {
                Ok(_) => Ok((Json::Bool(false), w + "false"@.len())),
                Err(f) => Err(f),
            }
        } else if c == '"' {
            match string_at(s, p) {
                Ok((t, n)) => Ok((Json::Str(t), w + n)),
                Err(f) => Err(f),
            }
        } else if c == '[' {
            match array_at(s, p) {
                Ok((v, n)) => Ok((v, w + n)),
                Err(f) => Err(f),
            }
        } else if c == '{' {
            match object_at(s, p) {
                Ok((v, n)) => Ok((v, w + n)),
                Err(f) => Err(f),
            }
        } else if c == '-' || is_digit(c) {
            match number_at(s, p) {
                Ok((v, n)) => Ok((v, w + n)),
                Err(f) => Err(f),
            }
        } else {
            Err(fail("Unexpected character: "@.push(c), p))
        }
    }
}

/// An array whose opening bracket stands at `p`, and the number of
/// characters consumed from `p` through its closing bracket.
pub open spec fn array_at(s: Seq<char>, p: nat) -> Result<(Json, nat), Failure>
    decreases rest_len(s, p + 1), 3nat,
{
    let w = ws_len(s, p + 1);
    let q = p + 1 + w;
    if q < s.len() && s[q as int] == ']' {
        Ok((Json::Array(Seq::empty()), w + 2))
    } else {
        match items_at(s, q, Seq::empty()) {
            Ok((a, n)) => Ok((Json::Array(a), 1 + w + n)),
            Err(f) => Err(f),
        }
    }
}

/// An object whose opening brace stands at `p`, and the number of characters
/// consumed from `p` through its closing brace.
pub open spec fn object_at(s: Seq<char>, p: nat) -> Result<(Json, nat), Failure>
    decreases rest_len(s, p + 1), 3nat,
{
    let w = ws_len(s, p + 1);
    let q = p + 1 + w;
    if q < s.len() && s[q as int] == '}' {
        Ok((Json::Object(Seq::empty()), w + 2))
    } else {
        match members_at(s, q, Seq::empty()) {
            Ok((m, n)) => Ok((Json::Object(m), 1 + w + n)),
            Err(f) => Err(f),
        }
    }
}

/// The elements of an array from `q` on, where an element must start: `acc`
/// followed by the elements read, and the number of characters consumed from
/// `q` through the closing bracket.
pub open spec fn items_at(s: Seq<char>, q: nat, acc: Seq<Json>) -> Result<(Seq<Json>, nat), Failure>
    decreases rest_len(s, q), 2nat,
{
    match value_at(s, q) {
        Err(f) => Err(f),
        Ok((v, n)) => {
            let r = q + n + ws_len(s, q + n);
            if r < s.len() && s[r as int] == ',' {
                let w = ws_len(s, r + 1);
                match items_at(s, r + 1 + w, acc.push(v)) {
                    Ok((a, m)) => Ok((a, (r + 1 + w + m - q) as nat)),
                    Err(f) => Err(f),
                }
            } else if r < s.len() && s[r as int] == ']' {
                Ok((acc.push(v), (r + 1 - q) as nat))
            } else {
                Err(fail("Expected ',' or ']'"@, r))
            }
        },
    }
}

/// The members of an object from `q` on, where a member must start: `acc`
/// with the members read stored into it, and the number of characters
/// consumed from `q` through the closing brace.
pub open spec fn members_at(s: Seq<char>, q: nat, acc: Seq<(Seq<char>, Json)>) -> Result<
    (Seq<(Seq<char>, Json)>, nat),
    Failure,
>
    decreases rest_len(s, q), 2nat,
{
    let k = q + ws_len(s, q);
    if !(k < s.len() && s[k as int] == '"') {
        Err(fail("Expected string key"@, k))
    } else {
        match string_at(s, k) {
            Err(f) => Err(f),
            Ok((key, n1)) => {
                let r = k + n1 + ws_len(s, k + n1);
                if !(r < s.len() && s[r as int] == ':') {
                    Err(fail("Expected ':'"@, r))
                } else {
                    match value_at(s, r + 1) {
                        Err(f) => Err(f),
                        Ok((v, n2)) => {
                            let e = r + 1 + n2 + ws_len(s, r + 1 + n2);
                            let stored = insert_member(acc, key, v);
                            if e < s.len() && s[e as int] == ',' {
                                match members_at(s, e + 1, stored) {
                                    Ok((m, n)) => Ok((m, (e + 1 + n - q) as nat)),
                                    Err(f) => Err(f),
                                }
                            } else if e < s.len() && s[e as int] == '}' {
                                Ok((stored, (e + 1 - q) as nat))
                            } else {
                                Err(fail("Expected ',' or '}'"@, e))
                            }
                        },
                    }
                }
            },
        }
    }
}

/// A whole JSON text: one value, then nothing but whitespace.
pub open spec fn parse_text(s: Seq<char>) -> Result<Json, Failure> {
    match value_at(s, 0) {
        Err(f) => Err(f),
        Ok((v, n)) => {
            let p = n + ws_len(s, n);
            if p < s.len() {
                Err(fail("Unexpected characters after JSON value"@, p))
            } else {
                Ok(v)
            }
        },
    }
}

} // verus!
