//! What the parser guarantees across inputs: it is deterministic, a failure
//! lies within the input, and parsed objects never repeat a key. The laws on
//! printed values are in `json_print`.
use vstd::prelude::*;

use crate::assoc::{insert_member, is_first_key, keys_distinct, lemma_insert_keeps_keys_distinct};
use crate::json_grammar::{
    array_at, digits_len, hex_escape_at, hex_value, is_digit, is_hex_digit, items_at, keyword_at,
    members_at, number_at, object_at, parse_text, rest_len, simple_escape, string_at, string_body_at,
    value_at, ws_len,
};
use crate::json_value::{Failure, Json};

verus! {

/// Parsing is a function of the text alone: equal texts give equal results.
pub proof fn lemma_parse_deterministic(a: Seq<char>, b: Seq<char>)
    requires
        a == b,
    ensures
        parse_text(a) == parse_text(b),
{
}

proof fn lemma_ws_bound(s: Seq<char>, pos: nat)
    requires
        pos <= s.len(),
    ensures
        pos + ws_len(s, pos) <= s.len(),
    decreases s.len() - pos,
{
    if pos < s.len() {
        lemma_ws_bound(s, pos + 1);
    }
}

proof fn lemma_digits_bound(s: Seq<char>, pos: nat)
    requires
        pos <= s.len(),
    ensures
        pos + digits_len(s, pos) <= s.len(),
    decreases s.len() - pos,
{
    if pos < s.len() {
        lemma_digits_bound(s, pos + 1);
    }
}

proof fn lemma_keyword_bound(s: Seq<char>, p: nat, kw: Seq<char>, i: nat)
    requires
        p + i <= s.len(),
    ensures
        keyword_at(s, p, kw, i) matches Err(f) ==> f.position <= s.len(),
        keyword_at(s, p, kw, i) is Ok && i <= kw.len() ==> p + kw.len() <= s.len(),
    decreases kw.len() - i,
{
    if i < kw.len() && p + i < s.len() && s[(p + i) as int] == kw[i as int] {
        lemma_keyword_bound(s, p, kw, i + 1);
    }
}

proof fn lemma_hex_bound(s: Seq<char>, r: nat, k: nat, acc: nat)
    requires
        r + k <= s.len(),
    ensures
        hex_escape_at(s, r, k, acc) matches Err(f) ==> f.position <= s.len(),
        hex_escape_at(s, r, k, acc) is Ok && k <= 4 ==> r + 4 <= s.len(),
    decreases 4 - k,
{
    if k < 4 && r + k < s.len() && is_hex_digit(s[(r + k) as int]) {
        lemma_hex_bound(s, r, k + 1, acc * 16 + hex_value(s[(r + k) as int]));
    }
}

proof fn lemma_string_bound(s: Seq<char>, q: nat, acc: Seq<char>)
    requires
        q <= s.len(),
    ensures
        match string_body_at(s, q, acc) {
            Ok((_, n)) => q + n <= s.len(),
            Err(f) => f.position <= s.len(),
        },
    decreases s.len() - q,
{
    if q < s.len() && s[q as int] != '"' {
        if s[q as int] == '\\' {
            if q + 1 < s.len() {
                let e = s[(q + 1) as int];
                match simple_escape(e) {
                    Some(d) => {
                        lemma_string_bound(s, q + 2, acc.push(d));
                    },
                    None => {
                        if e == 'u' {
                            lemma_hex_bound(s, q + 2, 0, 0);
                            if let Ok(code) = hex_escape_at(s, q + 2, 0, 0) {
                                lemma_string_bound(s, q + 6, acc.push((code as u32) as char));
                            }
                        }
                    },
                }
            }
        } else {
            lemma_string_bound(s, q + 1, acc.push(s[q as int]));
        }
    }
}

proof fn lemma_number_bound(s: Seq<char>, p: nat)
    requires
        p <= s.len(),
    ensures
        match number_at(s, p) {
            Ok((_, n)) => p + n <= s.len(),
            Err(f) => f.position <= s.len(),
        },
{
    let p1 = if p < s.len() && s[p as int] == '-' {
        p + 1
    } else {
        p
    };
    if p1 < s.len() {
        lemma_digits_bound(s, p1);
        let p2 = if s[p1 as int] == '0' {
            p1 + 1
        } else {
            p1 + digits_len(s, p1)
        };
        if p2 < s.len() {
            lemma_digits_bound(s, p2 + 1);
        }
        let p3 = if p2 < s.len() && s[p2 as int] == '.' {
            p2 + 1 + digits_len(s, p2 + 1)
        } else {
            p2
        };
        if p3 < s.len() {
            lemma_digits_bound(s, p3 + 1);
            if p3 + 1 < s.len() {
                lemma_digits_bound(s, p3 + 2);
            }
        }
    }
}

proof fn lemma_value_bound(s: Seq<char>, pos: nat)
    requires
        pos <= s.len(),
    ensures
        match value_at(s, pos) {
            Ok((_, n)) => pos + n <= s.len(),
            Err(f) => f.position <= s.len(),
        },
    decreases rest_len(s, pos), 1nat,
{
    lemma_ws_bound(s, pos);
    let p = pos + ws_len(s, pos);
    if p < s.len() {
        let c = s[p as int];
        lemma_keyword_bound(s, p, "null"@, 0);
        lemma_keyword_bound(s, p, "true"@, 0);
        lemma_keyword_bound(s, p, "false"@, 0);
        if c == '"' {
            lemma_string_bound(s, p + 1, Seq::empty());
        } else if c == '[' {
            lemma_array_bound(s, p);
        } else if c == '{' {
            lemma_object_bound(s, p);
        } else if c == '-' || is_digit(c) {
            lemma_number_bound(s, p);
        }
    }
}

proof fn lemma_array_bound(s: Seq<char>, p: nat)
    requires
        p < s.len(),
    ensures
        match array_at(s, p) {
            Ok((_, n)) => p + n <= s.len(),
            Err(f) => f.position <= s.len(),
        },
    decreases rest_len(s, p + 1), 3nat,
{
    lemma_ws_bound(s, p + 1);
    let q = p + 1 + ws_len(s, p + 1);
    if !(q < s.len() && s[q as int] == ']') {
        lemma_items_bound(s, q, Seq::empty());
    }
}

proof fn lemma_object_bound(s: Seq<char>, p: nat)
    requires
        p < s.len(),
    ensures
        match object_at(s, p) {
            Ok((_, n)) => p + n <= s.len(),
            Err(f) => f.position <= s.len(),
        },
    decreases rest_len(s, p + 1), 3nat,
{
    lemma_ws_bound(s, p + 1);
    let q = p + 1 + ws_len(s, p + 1);
    if !(q < s.len() && s[q as int] == '}') {
        lemma_members_bound(s, q, Seq::empty());
    }
}

proof fn lemma_items_bound(s: Seq<char>, q: nat, acc: Seq<Json>)
    requires
        q <= s.len(),
    ensures
        match items_at(s, q, acc) {
            Ok((_, n)) => q + n <= s.len(),
            Err(f) => f.position <= s.len(),
        },
    decreases rest_len(s, q), 2nat,
{
    lemma_value_bound(s, q);
    if let Ok((v, n)) = value_at(s, q) {
        lemma_ws_bound(s, q + n);
        let r = q + n + ws_len(s, q + n);
        if r < s.len() && s[r as int] == ',' {
            lemma_ws_bound(s, r + 1);
            lemma_items_bound(s, r + 1 + ws_len(s, r + 1), acc.push(v));
        }
    }
}

proof fn lemma_members_bound(s: Seq<char>, q: nat, acc: Seq<(Seq<char>, Json)>)
    requires
        q <= s.len(),
    ensures
        match members_at(s, q, acc) {
            Ok((_, n)) => q + n <= s.len(),
            Err(f) => f.position <= s.len(),
        },
    decreases rest_len(s, q), 2nat,
{
    lemma_ws_bound(s, q);
    let k = q + ws_len(s, q);
    if k < s.len() && s[k as int] == '"' {
        lemma_string_bound(s, k + 1, Seq::empty());
        if let Ok((key, n1)) = string_at(s, k) {
            lemma_ws_bound(s, k + n1);
            let r = k + n1 + ws_len(s, k + n1);
            if r < s.len() && s[r as int] == ':' {
                lemma_value_bound(s, r + 1);
                if let Ok((v, n2)) = value_at(s, r + 1) {
                    lemma_ws_bound(s, r + 1 + n2);
                    let e = r + 1 + n2 + ws_len(s, r + 1 + n2);
                    if e < s.len() && s[e as int] == ',' {
                        lemma_members_bound(s, e + 1, insert_member(acc, key, v));
                    }
                }
            }
        }
    }
}

/// A failure is reported at a position within the input: it counts the
/// characters consumed before the violation, never more than the text holds.
pub proof fn lemma_failure_within_input(s: Seq<char>)
    ensures
        parse_text(s) matches Err(f) ==> f.position <= s.len(),
{
    lemma_value_bound(s, 0);
    if let Ok((_, n)) = value_at(s, 0) {
        lemma_ws_bound(s, n);
    }
}

/// Every object in `v`, at any depth, has distinct keys.
pub open spec fn keys_unique(v: Json) -> bool
    decreases v,
{
    match v {
        Json::Array(es) => forall|i: int| 0 <= i < es.len() ==> keys_unique(#[trigger] es[i]),
        Json::Object(ms) => keys_distinct(ms) && forall|i: int|
            0 <= i < ms.len() ==> keys_unique(#[trigger] ms[i].1),
        _ => true,
    }
}

proof fn lemma_value_unique(s: Seq<char>, pos: nat)
    ensures
        value_at(s, pos) matches Ok((v, _)) ==> keys_unique(v),
    decreases rest_len(s, pos), 1nat,
{
    let p = pos + ws_len(s, pos);
    if p < s.len() {
        let c = s[p as int];
        if c == '[' {
            lemma_array_unique(s, p);
        } else if c == '{' {
            lemma_object_unique(s, p);
        }
    }
}

proof fn lemma_array_unique(s: Seq<char>, p: nat)
    requires
        p < s.len(),
    ensures
        array_at(s, p) matches Ok((v, _)) ==> keys_unique(v),
    decreases rest_len(s, p + 1), 3nat,
{
    let q = p + 1 + ws_len(s, p + 1);
    if !(q < s.len() && s[q as int] == ']') {
        lemma_items_unique(s, q, Seq::empty());
    }
}

proof fn lemma_object_unique(s: Seq<char>, p: nat)
    requires
        p < s.len(),
    ensures
        object_at(s, p) matches Ok((v, _)) ==> keys_unique(v),
    decreases rest_len(s, p + 1), 3nat,
{
    let q = p + 1 + ws_len(s, p + 1);
    if !(q < s.len() && s[q as int] == '}') {
        lemma_members_unique(s, q, Seq::empty());
    }
}

proof fn lemma_items_unique(s: Seq<char>, q: nat, acc: Seq<Json>)
    requires
        forall|i: int| 0 <= i < acc.len() ==> keys_unique(#[trigger] acc[i]),
    ensures
        items_at(s, q, acc) matches Ok((a, _)) ==> forall|i: int|
            0 <= i < a.len() ==> keys_unique(#[trigger] a[i]),
    decreases rest_len(s, q), 2nat,
{
    lemma_value_unique(s, q);
    if let Ok((v, n)) = value_at(s, q) {
        let r = q + n + ws_len(s, q + n);
        let next = acc.push(v);
        assert forall|i: int| 0 <= i < next.len() implies keys_unique(#[trigger] next[i]) by {
            if i < acc.len() {
                assert(next[i] == acc[i]);
            }
        }
        if r < s.len() && s[r as int] == ',' {
            lemma_items_unique(s, r + 1 + ws_len(s, r + 1), next);
        }
    }
}

proof fn lemma_members_unique(s: Seq<char>, q: nat, acc: Seq<(Seq<char>, Json)>)
    requires
        keys_distinct(acc),
        forall|i: int| 0 <= i < acc.len() ==> keys_unique(#[trigger] acc[i].1),
    ensures
        members_at(s, q, acc) matches Ok((m, _)) ==> keys_distinct(m) && forall|i: int|
            0 <= i < m.len() ==> keys_unique(#[trigger] m[i].1),
    decreases rest_len(s, q), 2nat,
{
    let k = q + ws_len(s, q);
    if k < s.len() && s[k as int] == '"' {
        if let Ok((key, n1)) = string_at(s, k) {
            let r = k + n1 + ws_len(s, k + n1);
            if r < s.len() && s[r as int] == ':' {
                lemma_value_unique(s, r + 1);
                if let Ok((v, n2)) = value_at(s, r + 1) {
                    let e = r + 1 + n2 + ws_len(s, r + 1 + n2);
                    let stored = insert_member(acc, key, v);
                    lemma_insert_keeps_keys_distinct(acc, key, v);
                    assert forall|i: int| 0 <= i < stored.len() implies keys_unique(
                        #[trigger] stored[i].1,
                    ) by {
                        if exists|c: int| is_first_key(acc, key, c) {
                            let c = choose|c: int| is_first_key(acc, key, c);
                            assert(stored == acc.update(c, (key, v)));
                            if i != c {
                                assert(stored[i] == acc[i]);
                            }
                        } else {
                            assert(stored == acc.push((key, v)));
                            if i < acc.len() {
                                assert(stored[i] == acc[i]);
                            }
                        }
                    }
                    if e < s.len() && s[e as int] == ',' {
                        lemma_members_unique(s, e + 1, stored);
                    }
                }
            }
        }
    }
}

/// In a parsed value every object has distinct keys: a repeated key keeps
/// only its last value.
pub proof fn lemma_parsed_keys_unique(s: Seq<char>)
    ensures
        parse_text(s) matches Ok(v) ==> keys_unique(v),
{
    lemma_value_unique(s, 0);
}

} // verus!
