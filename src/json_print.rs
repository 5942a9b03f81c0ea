//! Writing a JSON value out, in any of the ways the grammar accepts, and the
//! proof that the parser reads every such text back as the value.
//!
//! A text the grammar accepts is whitespace, one value written out, and
//! whitespace: between any two tokens a whitespace run, each string character
//! raw or escaped in any accepted way, each number as a literal the grammar
//! reads whole, keys possibly repeated. `render` with a `Layout` writes exactly
//! these texts, so the laws below speak of every conforming text.
use vstd::prelude::*;

use crate::assoc::insert_member;
use crate::json_grammar::{
    digits_len, hex_escape_at, hex_value, is_digit, is_hex_digit, items_at, keyword_at, members_at,
    number_at, parse_text, simple_escape, string_body_at, value_at, ws_len,
};
use crate::json_value::{Failure, Json};
use crate::text::{all_white, is_scalar_value, is_white_space};

verus! {

/// A value that has a printed form: each number is a literal that the grammar
/// reads whole.
pub open spec fn printable(v: Json) -> bool
    decreases v,
{
    match v {
        Json::Number(l) => number_at(l, 0) == Ok::<(Json, nat), Failure>((Json::Number(l), l.len())),
        Json::Array(es) => forall|i: int| 0 <= i < es.len() ==> printable(#[trigger] es[i]),
        Json::Object(ms) => forall|i: int| 0 <= i < ms.len() ==> printable(#[trigger] ms[i].1),
        _ => true,
    }
}

/// What a printed value reads back as: in each object, at any depth, a
/// repeated key keeps the place of its first occurrence and the value of its
/// last.
pub open spec fn collapse(v: Json) -> Json
    decreases v, 1nat,
{
    match v {
        Json::Array(es) => Json::Array(collapsed_elements(es, es.len())),
        Json::Object(ms) => Json::Object(stored_members(ms, ms.len())),
        _ => v,
    }
}

/// The first `n` elements, each collapsed.
pub open spec fn collapsed_elements(es: Seq<Json>, n: nat) -> Seq<Json>
    decreases es, 0nat, n,
{
    if n == 0 || n > es.len() {
        Seq::empty()
    } else {
        collapsed_elements(es, (n - 1) as nat).push(collapse(es[n - 1]))
    }
}

/// The first `n` members stored one after another, each value collapsed.
pub open spec fn stored_members(ms: Seq<(Seq<char>, Json)>, n: nat) -> Seq<(Seq<char>, Json)>
    decreases ms, 0nat, n,
{
    if n == 0 || n > ms.len() {
        Seq::empty()
    } else {
        insert_member(stored_members(ms, (n - 1) as nat), ms[n - 1].0, collapse(ms[n - 1].1))
    }
}

/// The value of the four hexadecimal digits of a `\u` escape `p`.
pub open spec fn hex4(p: Seq<char>) -> nat {
    ((hex_value(p[2]) * 16 + hex_value(p[3])) * 16 + hex_value(p[4])) * 16 + hex_value(p[5])
}

/// `p` is a way to write the character `c` inside a string literal: `c`
/// itself (unless it is `"` or `\`), a one-character escape such as `\n` or
/// `\/`, or a `\u` escape with its code point.
pub open spec fn is_spelling(c: char, p: Seq<char>) -> bool {
    ||| p == seq![c] && c != '"' && c != '\\'
    ||| p.len() == 2 && p[0] == '\\' && simple_escape(p[1]) == Some(c)
    ||| p.len() == 6 && p[0] == '\\' && p[1] == 'u' && is_hex_digit(p[2]) && is_hex_digit(p[3])
        && is_hex_digit(p[4]) && is_hex_digit(p[5]) && hex4(p) == (c as u32) as nat
}

/// The shortest way to write `c`: itself, or escaped by a backslash where it
/// is `"` or `\`.
pub open spec fn plain_spelling(c: char) -> Seq<char> {
    if c == '"' || c == '\\' {
        seq!['\\', c]
    } else {
        seq![c]
    }
}

/// The characters of `t` as written: character `i` as `ways[i]` where that
/// is a way to write it, else in its shortest form.
pub open spec fn spell(t: Seq<char>, ways: Seq<Seq<char>>) -> Seq<char>
    decreases t.len(),
{
    if t.len() == 0 {
        Seq::empty()
    } else {
        let first = if ways.len() > 0 && is_spelling(t[0], ways[0]) {
            ways[0]
        } else {
            plain_spelling(t[0])
        };
        first + spell(t.drop_first(), if ways.len() > 0 { ways.drop_first() } else { ways })
    }
}

/// A string literal for `t`, its characters written as `lay` says.
pub open spec fn quoted(t: Seq<char>, lay: Layout) -> Seq<char> {
    seq!['"'] + spell(t, ways_of(lay)) + seq!['"']
}

/// How the characters of a string are written, where `lay` says.
pub open spec fn ways_of(lay: Layout) -> Seq<Seq<char>> {
    match lay {
        Layout::Text(ways) => ways,
        _ => Seq::empty(),
    }
}

/// How a value is written out. For a string, how each of its characters is
/// written. For an array or object, the whitespace runs between its tokens,
/// in order, and the layouts of its parts: of each element, or of each
/// member's key and value in turn. A run or layout that is missing stands for
/// none.
pub enum Layout {
    Flat,
    Text(Seq<Seq<char>>),
    Nested(Seq<Seq<char>>, Seq<Layout>),
}

/// The `k`-th whitespace run of `lay`.
pub open spec fn gap(lay: Layout, k: nat) -> Seq<char> {
    match lay {
        Layout::Nested(g, _) => if k < g.len() {
            g[k as int]
        } else {
            Seq::empty()
        },
        _ => Seq::empty(),
    }
}

/// The layout of the `i`-th part.
pub open spec fn inner(lay: Layout, i: nat) -> Layout {
    match lay {
        Layout::Nested(_, ls) => if i < ls.len() {
            ls[i as int]
        } else {
            Layout::Flat
        },
        _ => Layout::Flat,
    }
}

/// All runs of `lay`, at any depth, are whitespace.
pub open spec fn white_layout(lay: Layout) -> bool
    decreases lay,
{
    match lay {
        Layout::Nested(g, ls) => (forall|k: int| 0 <= k < g.len() ==> all_white(#[trigger] g[k]))
            && forall|i: int| 0 <= i < ls.len() ==> white_layout(#[trigger] ls[i]),
        _ => true,
    }
}

proof fn lemma_white_parts(lay: Layout, k: nat, i: nat)
    requires
        white_layout(lay),
    ensures
        all_white(gap(lay, k)),
        white_layout(inner(lay, i)),
{
}

/// The printed form of `v`. Inside an array with `n` elements, run `0`
/// follows `[`, run `2i + 1` follows element `i` and run `2i + 2` the comma
/// after it; inside an object run `0` follows `{`, and for member `i` runs
/// `4i + 1` to `4i + 4` follow its key, its colon, its value and the comma
/// after it, and parts `2i` and `2i + 1` lay out its key and its value.
pub open spec fn render(v: Json, lay: Layout) -> Seq<char>
    decreases v, 0nat,
{
    match v {
        Json::Null => "null"@,
        Json::Bool(b) => if b {
            "true"@
        } else {
            "false"@
        },
        Json::Number(l) => l,
        Json::Str(t) => quoted(t, lay),
        Json::Array(es) => if es.len() == 0 {
            seq!['['] + gap(lay, 0) + seq![']']
        } else {
            seq!['['] + gap(lay, 0) + render_elements(es, lay, 0)
        },
        Json::Object(ms) => if ms.len() == 0 {
            seq!['{'] + gap(lay, 0) + seq!['}']
        } else {
            seq!['{'] + gap(lay, 0) + render_members(ms, lay, 0)
        },
    }
}

/// The elements from `i` on, separated by commas, and the closing bracket.
pub open spec fn render_elements(es: Seq<Json>, lay: Layout, i: nat) -> Seq<char>
    decreases es, es.len() - i,
{
    if i >= es.len() {
        seq![']']
    } else {
        let head = render(es[i as int], inner(lay, i)) + gap(lay, 2 * i + 1);
        if i + 1 == es.len() {
            head + seq![']']
        } else {
            head + seq![','] + gap(lay, 2 * i + 2) + render_elements(es, lay, i + 1)
        }
    }
}

/// The members from `i` on, separated by commas, and the closing brace.
pub open spec fn render_members(ms: Seq<(Seq<char>, Json)>, lay: Layout, i: nat) -> Seq<char>
    decreases ms, ms.len() - i,
{
    if i >= ms.len() {
        seq!['}']
    } else {
        let head = quoted(ms[i as int].0, inner(lay, 2 * i)) + gap(lay, 4 * i + 1) + seq![':']
            + gap(lay, 4 * i + 2) + render(ms[i as int].1, inner(lay, 2 * i + 1)) + gap(
            lay,
            4 * i + 3,
        );
        if i + 1 == ms.len() {
            head + seq!['}']
        } else {
            head + seq![','] + gap(lay, 4 * i + 4) + render_members(ms, lay, i + 1)
        }
    }
}

/// `x` stands in `s` from `pos` on.
pub open spec fn holds_at(s: Seq<char>, pos: nat, x: Seq<char>) -> bool {
    pos + x.len() <= s.len() && forall|i: int| 0 <= i < x.len() ==> s[(pos + i) as int] == #[trigger] x[i]
}

/// At `k` the input ends or has a character that cannot continue a number.
pub open spec fn stops_number(s: Seq<char>, k: nat) -> bool {
    k >= s.len() || !(is_digit(s[k as int]) || s[k as int] == '.' || s[k as int] == 'e' || s[k as int]
        == 'E')
}

/// A character that can begin a value.
pub open spec fn starts_value(c: char) -> bool {
    c == 'n' || c == 't' || c == 'f' || c == '"' || c == '[' || c == '{' || c == '-' || is_digit(c)
}

proof fn lemma_split(s: Seq<char>, pos: nat, a: Seq<char>, b: Seq<char>)
    requires
        holds_at(s, pos, a + b),
    ensures
        holds_at(s, pos, a),
        holds_at(s, pos + a.len(), b),
{
    assert forall|i: int| 0 <= i < a.len() implies s[(pos + i) as int] == #[trigger] a[i] by {
        assert((a + b)[i] == a[i]);
    }
    assert forall|i: int| 0 <= i < b.len() implies s[(pos + a.len() + i) as int] == #[trigger] b[i] by {
        assert((a + b)[a.len() + i] == b[i]);
    }
}

proof fn lemma_ws_run(s: Seq<char>, a: nat, u: Seq<char>)
    requires
        holds_at(s, a, u),
        all_white(u),
        a + u.len() == s.len() || !is_white_space(s[(a + u.len()) as int]),
    ensures
        ws_len(s, a) == u.len(),
    decreases u.len(),
{
    if u.len() > 0 {
        assert(s[(a + 0) as int] == u[0]);
        assert(holds_at(s, a + 1, u.drop_first())) by {
            assert forall|i: int| 0 <= i < u.drop_first().len() implies s[((a + 1) + i) as int]
                == #[trigger] u.drop_first()[i] by {
                assert(s[(a + (i + 1)) as int] == u[i + 1]);
            }
        }
        lemma_ws_run(s, a + 1, u.drop_first());
    }
}

proof fn lemma_digits_frame(l: Seq<char>, s: Seq<char>, pos: nat, i: nat)
    requires
        holds_at(s, pos, l),
        i <= l.len(),
        pos + l.len() == s.len() || !is_digit(s[(pos + l.len()) as int]),
    ensures
        digits_len(s, pos + i) == digits_len(l, i),
    decreases l.len() - i,
{
    if i < l.len() {
        assert(s[(pos + i) as int] == l[i as int]);
        lemma_digits_frame(l, s, pos, i + 1);
    }
}

proof fn lemma_keyword(s: Seq<char>, p: nat, kw: Seq<char>, i: nat)
    requires
        holds_at(s, p, kw),
        i <= kw.len(),
    ensures
        keyword_at(s, p, kw, i) == Ok::<(), Failure>(()),
    decreases kw.len() - i,
{
    if i < kw.len() {
        assert(s[(p + i) as int] == kw[i as int]);
        lemma_keyword(s, p, kw, i + 1);
    }
}

proof fn lemma_hex4(s: Seq<char>, r: nat, p: Seq<char>)
    requires
        p.len() == 6,
        is_hex_digit(p[2]) && is_hex_digit(p[3]) && is_hex_digit(p[4]) && is_hex_digit(p[5]),
        r + 4 <= s.len(),
        s[r as int] == p[2] && s[(r + 1) as int] == p[3],
        s[(r + 2) as int] == p[4] && s[(r + 3) as int] == p[5],
    ensures
        hex_escape_at(s, r, 0, 0) == Ok::<nat, Failure>(hex4(p)),
{
    let h1 = hex_value(p[2]);
    assert(hex_escape_at(s, r, 0, 0) == hex_escape_at(s, r, 1, 0 * 16 + h1));
    assert(hex_escape_at(s, r, 1, h1) == hex_escape_at(s, r, 2, h1 * 16 + hex_value(p[3])));
    let h2 = h1 * 16 + hex_value(p[3]);
    assert(hex_escape_at(s, r, 2, h2) == hex_escape_at(s, r, 3, h2 * 16 + hex_value(p[4])));
    let h3 = h2 * 16 + hex_value(p[4]);
    assert(hex_escape_at(s, r, 3, h3) == hex_escape_at(s, r, 4, h3 * 16 + hex_value(p[5])));
}

proof fn lemma_string(t: Seq<char>, ways: Seq<Seq<char>>, s: Seq<char>, q: nat, acc: Seq<char>)
    requires
        holds_at(s, q, spell(t, ways) + seq!['"']),
    ensures
        string_body_at(s, q, acc) == Ok::<(Seq<char>, nat), Failure>(
            (acc + t, spell(t, ways).len() + 1),
        ),
    decreases t.len(),
{
    let e = spell(t, ways) + seq!['"'];
    if t.len() == 0 {
        assert(e[0] == '"');
        assert(s[(q + 0) as int] == e[0]);
        assert(acc + t =~= acc);
    } else {
        let c = t[0];
        let rest = t.drop_first();
        let more = if ways.len() > 0 {
            ways.drop_first()
        } else {
            ways
        };
        let piece = if ways.len() > 0 && is_spelling(c, ways[0]) {
            ways[0]
        } else {
            plain_spelling(c)
        };
        assert(is_spelling(c, piece));
        let tail = spell(rest, more) + seq!['"'];
        assert(e =~= piece + tail);
        lemma_split(s, q, piece, tail);
        assert(s[(q + 0) as int] == piece[0]);
        if piece.len() == 1 {
            assert(piece[0] == c);
            lemma_string(rest, more, s, q + 1, acc.push(c));
        } else if piece.len() == 2 {
            assert(s[(q + 1) as int] == piece[1]);
            lemma_string(rest, more, s, q + 2, acc.push(c));
        } else {
            assert(s[(q + 1) as int] == piece[1]);
            assert(s[(q + 2) as int] == piece[2]);
            assert(s[(q + 3) as int] == piece[3]);
            assert(s[(q + 4) as int] == piece[4]);
            assert(s[(q + 5) as int] == piece[5]);
            lemma_hex4(s, q + 2, piece);
            vstd::utf8::char_u32_cast(c, hex4(piece) as u32);
            assert(is_scalar_value(hex4(piece)));
            lemma_string(rest, more, s, q + 6, acc.push(c));
        }
        assert(acc.push(c) + rest =~= acc + t);
    }
}

#[verifier::rlimit(40)]
proof fn lemma_number(l: Seq<char>, s: Seq<char>, pos: nat)
    requires
        number_at(l, 0) == Ok::<(Json, nat), Failure>((Json::Number(l), l.len())),
        holds_at(s, pos, l),
        stops_number(s, pos + l.len()),
    ensures
        number_at(s, pos) == Ok::<(Json, nat), Failure>((Json::Number(l), l.len())),
{
    assert forall|i: int| 0 <= i < l.len() implies #[trigger] s[(pos + i) as int] == l[i] by {}
    assert(s.subrange(pos as int, (pos + l.len()) as int) =~= l);
    let n = l.len();
    let p1 = if 0 < n && l[0] == '-' {
        1nat
    } else {
        0nat
    };
    assert(p1 < n && is_digit(l[p1 as int]));
    assert(s[(pos + 0) as int] == l[0]);
    assert(s[(pos + p1) as int] == l[p1 as int]);
    let p2 = if l[p1 as int] == '0' {
        p1 + 1
    } else {
        p1 + digits_len(l, p1)
    };
    lemma_digits_frame(l, s, pos, p1);
    assert(p2 <= n);
    if p2 < n {
        assert(s[(pos + p2) as int] == l[p2 as int]);
    }
    let fraction = p2 < n && l[p2 as int] == '.';
    if fraction {
        lemma_digits_frame(l, s, pos, p2 + 1);
    }
    let p3 = if fraction {
        p2 + 1 + digits_len(l, p2 + 1)
    } else {
        p2
    };
    assert(p3 <= n);
    if p3 < n {
        assert(s[(pos + p3) as int] == l[p3 as int]);
    }
    if p3 + 1 < n {
        assert(s[(pos + p3 + 1) as int] == l[(p3 + 1) as int]);
    }
    let exponent = p3 < n && (l[p3 as int] == 'e' || l[p3 as int] == 'E');
    let q = if exponent && p3 + 1 < n && (l[(p3 + 1) as int] == '+' || l[(p3 + 1) as int] == '-') {
        p3 + 2
    } else {
        p3 + 1
    };
    if exponent {
        assert(q <= n);
        lemma_digits_frame(l, s, pos, q);
    }
}

proof fn lemma_render_first(v: Json, lay: Layout)
    requires
        printable(v),
    ensures
        render(v, lay).len() > 0,
        starts_value(render(v, lay)[0]),
{
    reveal_strlit("null");
    reveal_strlit("true");
    reveal_strlit("false");
    match v {
        Json::Number(l) => {
            assert(l.len() > 0);
        },
        _ => {},
    }
}

/// The whitespace before a value is skipped, and the value's first character
/// follows it.
proof fn lemma_value_start(v: Json, lay: Layout, u: Seq<char>, s: Seq<char>, pos: nat)
    requires
        printable(v),
        all_white(u),
        holds_at(s, pos, u + render(v, lay)),
    ensures
        ws_len(s, pos) == u.len(),
        holds_at(s, pos + u.len(), render(v, lay)),
        pos + u.len() < s.len(),
        s[(pos + u.len()) as int] == render(v, lay)[0],
        starts_value(render(v, lay)[0]),
{
    let r = render(v, lay);
    let p = pos + u.len();
    lemma_split(s, pos, u, r);
    lemma_render_first(v, lay);
    assert(s[(p + 0) as int] == r[0]);
    lemma_ws_run(s, pos, u);
}

proof fn lemma_literal_value(v: Json, lay: Layout, u: Seq<char>, s: Seq<char>, pos: nat)
    requires
        v is Null || v is Bool,
        all_white(u),
        holds_at(s, pos, u + render(v, lay)),
    ensures
        value_at(s, pos) == Ok::<(Json, nat), Failure>((collapse(v), u.len() + render(v, lay).len())),
{
    lemma_value_start(v, lay, u, s, pos);
    let p = pos + u.len();
    reveal_strlit("null");
    reveal_strlit("true");
    reveal_strlit("false");
    match v {
        Json::Null => {
            lemma_keyword(s, p, "null"@, 0);
        },
        Json::Bool(b) => {
            if b {
                lemma_keyword(s, p, "true"@, 0);
            } else {
                lemma_keyword(s, p, "false"@, 0);
            }
        },
        _ => {},
    }
}

proof fn lemma_number_value(v: Json, lay: Layout, u: Seq<char>, s: Seq<char>, pos: nat)
    requires
        v is Number,
        printable(v),
        all_white(u),
        holds_at(s, pos, u + render(v, lay)),
        stops_number(s, pos + u.len() + render(v, lay).len()),
    ensures
        value_at(s, pos) == Ok::<(Json, nat), Failure>((collapse(v), u.len() + render(v, lay).len())),
{
    lemma_value_start(v, lay, u, s, pos);
    lemma_number(v->Number_0, s, pos + u.len());
}

proof fn lemma_string_value(v: Json, lay: Layout, u: Seq<char>, s: Seq<char>, pos: nat)
    requires
        v is Str,
        all_white(u),
        holds_at(s, pos, u + render(v, lay)),
    ensures
        value_at(s, pos) == Ok::<(Json, nat), Failure>((collapse(v), u.len() + render(v, lay).len())),
{
    lemma_value_start(v, lay, u, s, pos);
    let p = pos + u.len();
    let t = v->Str_0;
    let r = render(v, lay);
    let ways = ways_of(lay);
    assert(r =~= seq!['"'] + (spell(t, ways) + seq!['"']));
    lemma_split(s, p, seq!['"'], spell(t, ways) + seq!['"']);
    lemma_string(t, ways, s, p + 1, Seq::empty());
    assert(Seq::<char>::empty() + t =~= t);
}

proof fn lemma_value(v: Json, lay: Layout, u: Seq<char>, s: Seq<char>, pos: nat)
    requires
        printable(v),
        white_layout(lay),
        all_white(u),
        holds_at(s, pos, u + render(v, lay)),
        stops_number(s, pos + u.len() + render(v, lay).len()),
    ensures
        value_at(s, pos) == Ok::<(Json, nat), Failure>((collapse(v), u.len() + render(v, lay).len())),
    decreases v, 1nat,
{
    match v {
        Json::Null => {
            lemma_literal_value(v, lay, u, s, pos);
        },
        Json::Bool(_) => {
            lemma_literal_value(v, lay, u, s, pos);
        },
        Json::Number(_) => {
            lemma_number_value(v, lay, u, s, pos);
        },
        Json::Str(_) => {
            lemma_string_value(v, lay, u, s, pos);
        },
        Json::Array(_) => {
            lemma_array_value(v, lay, u, s, pos);
        },
        Json::Object(_) => {
            lemma_object_value(v, lay, u, s, pos);
        },
    }
}

#[verifier::rlimit(60)]
proof fn lemma_array_value(v: Json, lay: Layout, u: Seq<char>, s: Seq<char>, pos: nat)
    requires
        v is Array,
        printable(v),
        white_layout(lay),
        all_white(u),
        holds_at(s, pos, u + render(v, lay)),
    ensures
        value_at(s, pos) == Ok::<(Json, nat), Failure>((collapse(v), u.len() + render(v, lay).len())),
    decreases v, 0nat,
{
    lemma_value_start(v, lay, u, s, pos);
    let r = render(v, lay);
    let p = pos + u.len();
    let es = v->Array_0;
    let g = gap(lay, 0);
    lemma_white_parts(lay, 0, 0);
    if es.len() == 0 {
        assert(r =~= seq!['['] + (g + seq![']']));
        lemma_split(s, p, seq!['['], g + seq![']']);
        lemma_split(s, p + 1, g, seq![']']);
        assert(s[(p + 1 + g.len() + 0) as int] == seq![']'][0]);
        lemma_ws_run(s, p + 1, g);
        assert(collapsed_elements(es, 0) =~= Seq::<Json>::empty());
    } else {
        let rest = render_elements(es, lay, 0);
        assert(r =~= seq!['['] + (g + rest));
        lemma_split(s, p, seq!['['], g + rest);
        lemma_split(s, p + 1, g, rest);
        lemma_render_first(es[0], inner(lay, 0));
        assert(rest[0] == render(es[0], inner(lay, 0))[0]);
        assert(s[(p + 1 + g.len() + 0) as int] == rest[0]);
        lemma_ws_run(s, p + 1, g);
        lemma_elements(es, lay, 0, s, p + 1 + g.len());
    }
}

#[verifier::rlimit(60)]
proof fn lemma_object_value(v: Json, lay: Layout, u: Seq<char>, s: Seq<char>, pos: nat)
    requires
        v is Object,
        printable(v),
        white_layout(lay),
        all_white(u),
        holds_at(s, pos, u + render(v, lay)),
    ensures
        value_at(s, pos) == Ok::<(Json, nat), Failure>((collapse(v), u.len() + render(v, lay).len())),
    decreases v, 0nat,
{
    lemma_value_start(v, lay, u, s, pos);
    let r = render(v, lay);
    let p = pos + u.len();
    let ms = v->Object_0;
    let g = gap(lay, 0);
    lemma_white_parts(lay, 0, 0);
    if ms.len() == 0 {
        assert(r =~= seq!['{'] + (g + seq!['}']));
        lemma_split(s, p, seq!['{'], g + seq!['}']);
        lemma_split(s, p + 1, g, seq!['}']);
        assert(s[(p + 1 + g.len() + 0) as int] == seq!['}'][0]);
        lemma_ws_run(s, p + 1, g);
        assert(stored_members(ms, 0) =~= Seq::<(Seq<char>, Json)>::empty());
    } else {
        let rest = render_members(ms, lay, 0);
        assert(r =~= seq!['{'] + (g + rest));
        lemma_split(s, p, seq!['{'], g + rest);
        lemma_split(s, p + 1, g, rest);
        assert(rest[0] == '"');
        assert(s[(p + 1 + g.len() + 0) as int] == rest[0]);
        lemma_ws_run(s, p + 1, g);
        assert(Seq::<char>::empty() + rest =~= rest);
        lemma_members(ms, lay, 0, Seq::empty(), s, p + 1 + g.len());
    }
}

#[verifier::rlimit(60)]
proof fn lemma_elements(es: Seq<Json>, lay: Layout, i: nat, s: Seq<char>, q: nat)
    requires
        i < es.len(),
        forall|j: int| 0 <= j < es.len() ==> printable(#[trigger] es[j]),
        white_layout(lay),
        holds_at(s, q, render_elements(es, lay, i)),
    ensures
        items_at(s, q, collapsed_elements(es, i)) == Ok::<(Seq<Json>, nat), Failure>(
            (collapsed_elements(es, es.len()), render_elements(es, lay, i).len()),
        ),
    decreases es, es.len() - i, 0nat,
{
    let e = es[i as int];
    let el = inner(lay, i);
    let re = render(e, el);
    let g1 = gap(lay, 2 * i + 1);
    let g2 = gap(lay, 2 * i + 2);
    lemma_white_parts(lay, 2 * i + 1, i);
    lemma_white_parts(lay, 2 * i + 2, i);
    let rest = render_elements(es, lay, i);
    lemma_render_first(e, el);
    assert(Seq::<char>::empty() + re =~= re);
    if i + 1 == es.len() {
        assert(rest =~= re + (g1 + seq![']']));
        lemma_split(s, q, re, g1 + seq![']']);
        lemma_split(s, q + re.len(), g1, seq![']']);
        assert(s[(q + re.len() + g1.len() + 0) as int] == seq![']'][0]);
        if g1.len() > 0 {
            assert(s[(q + re.len() + 0) as int] == g1[0]);
        }
        lemma_value(e, el, Seq::empty(), s, q);
        lemma_ws_run(s, q + re.len(), g1);
    } else {
        let tail = render_elements(es, lay, i + 1);
        assert(rest =~= re + (g1 + (seq![','] + (g2 + tail))));
        lemma_split(s, q, re, g1 + (seq![','] + (g2 + tail)));
        lemma_split(s, q + re.len(), g1, seq![','] + (g2 + tail));
        lemma_split(s, q + re.len() + g1.len(), seq![','], g2 + tail);
        lemma_split(s, q + re.len() + g1.len() + 1, g2, tail);
        assert(s[(q + re.len() + g1.len() + 0) as int] == seq![','][0]);
        if g1.len() > 0 {
            assert(s[(q + re.len() + 0) as int] == g1[0]);
        }
        lemma_value(e, el, Seq::empty(), s, q);
        lemma_ws_run(s, q + re.len(), g1);
        lemma_render_first(es[(i + 1) as int], inner(lay, i + 1));
        assert(tail[0] == render(es[(i + 1) as int], inner(lay, i + 1))[0]);
        assert(s[(q + re.len() + g1.len() + 1 + g2.len() + 0) as int] == tail[0]);
        lemma_ws_run(s, q + re.len() + g1.len() + 1, g2);
        lemma_elements(es, lay, i + 1, s, q + re.len() + g1.len() + 1 + g2.len());
    }
}

#[verifier::rlimit(100)]
proof fn lemma_members(
    ms: Seq<(Seq<char>, Json)>,
    lay: Layout,
    i: nat,
    u: Seq<char>,
    s: Seq<char>,
    q: nat,
)
    requires
        i < ms.len(),
        forall|j: int| 0 <= j < ms.len() ==> printable(#[trigger] ms[j].1),
        white_layout(lay),
        all_white(u),
        holds_at(s, q, u + render_members(ms, lay, i)),
    ensures
        members_at(s, q, stored_members(ms, i)) == Ok::<(Seq<(Seq<char>, Json)>, nat), Failure>(
            (stored_members(ms, ms.len()), u.len() + render_members(ms, lay, i).len()),
        ),
    decreases ms, ms.len() - i, 0nat,
{
    let key = ms[i as int].0;
    let v = ms[i as int].1;
    let kl = inner(lay, 2 * i);
    let vl = inner(lay, 2 * i + 1);
    let kq = quoted(key, kl);
    let rv = render(v, vl);
    let ga = gap(lay, 4 * i + 1);
    let gb = gap(lay, 4 * i + 2);
    let gc = gap(lay, 4 * i + 3);
    let gd = gap(lay, 4 * i + 4);
    lemma_white_parts(lay, 4 * i + 1, 2 * i + 1);
    lemma_white_parts(lay, 4 * i + 2, i);
    lemma_white_parts(lay, 4 * i + 3, i);
    lemma_white_parts(lay, 4 * i + 4, i);
    let rest = render_members(ms, lay, i);
    let last = i + 1 == ms.len();
    let after = if last {
        seq!['}']
    } else {
        seq![','] + gd + render_members(ms, lay, i + 1)
    };
    assert(rest =~= kq + (ga + (seq![':'] + (gb + (rv + (gc + after))))));
    lemma_split(s, q, u, rest);
    let k = q + u.len();
    lemma_split(s, k, kq, ga + (seq![':'] + (gb + (rv + (gc + after)))));
    let k1 = k + kq.len();
    lemma_split(s, k1, ga, seq![':'] + (gb + (rv + (gc + after))));
    let k2 = k1 + ga.len();
    lemma_split(s, k2, seq![':'], gb + (rv + (gc + after)));
    assert(gb + (rv + (gc + after)) =~= (gb + rv) + (gc + after));
    lemma_split(s, k2 + 1, gb + rv, gc + after);
    let k3 = k2 + 1 + gb.len() + rv.len();
    lemma_split(s, k3, gc, after);
    let k4 = k3 + gc.len();
    // the key
    assert(s[(k + 0) as int] == kq[0]);
    lemma_ws_run(s, q, u);
    let ways = ways_of(kl);
    assert(kq =~= seq!['"'] + (spell(key, ways) + seq!['"']));
    lemma_split(s, k, seq!['"'], spell(key, ways) + seq!['"']);
    lemma_string(key, ways, s, k + 1, Seq::empty());
    assert(Seq::<char>::empty() + key =~= key);
    // the colon
    assert(s[(k2 + 0) as int] == seq![':'][0]);
    lemma_ws_run(s, k1, ga);
    // the value
    assert(s[(k4 + 0) as int] == after[0]);
    if gc.len() > 0 {
        assert(s[(k3 + 0) as int] == gc[0]);
    }
    lemma_value(v, vl, gb, s, k2 + 1);
    lemma_ws_run(s, k3, gc);
    // storing the member
    if !last {
        let tail = render_members(ms, lay, i + 1);
        assert(after =~= seq![','] + (gd + tail));
        lemma_split(s, k4, seq![','], gd + tail);
        lemma_members(ms, lay, i + 1, gd, s, k4 + 1);
    }
}

/// Every conforming text parses, to the value it spells out: whitespace
/// before it, after it and between any two of its tokens, and the way each
/// string character is written, make no difference; a repeated key keeps its
/// last value.
pub proof fn lemma_printed_value_reads_back(v: Json, lay: Layout, before: Seq<char>, after: Seq<char>)
    requires
        printable(v),
        white_layout(lay),
        all_white(before),
        all_white(after),
    ensures
        parse_text(before + render(v, lay) + after) == Ok::<Json, Failure>(collapse(v)),
{
    let r = render(v, lay);
    let s = before + r + after;
    assert(s =~= (before + r) + after);
    lemma_split(s, 0, before + r, after);
    if after.len() > 0 {
        assert(s[(0 + (before + r).len() + 0) as int] == after[0]);
    }
    lemma_value(v, lay, before, s, 0);
    lemma_ws_run(s, (before + r).len(), after);
}

/// Whitespace between tokens, before and after a value, and how its strings
/// are escaped do not change what a text parses to.
pub proof fn lemma_layout_does_not_change_value(
    v: Json,
    lay1: Layout,
    lay2: Layout,
    before1: Seq<char>,
    after1: Seq<char>,
    before2: Seq<char>,
    after2: Seq<char>,
)
    requires
        printable(v),
        white_layout(lay1),
        white_layout(lay2),
        all_white(before1),
        all_white(after1),
        all_white(before2),
        all_white(after2),
    ensures
        parse_text(before1 + render(v, lay1) + after1) == parse_text(before2 + render(v, lay2) + after2),
        parse_text(before1 + render(v, lay1) + after1) is Ok,
{
    lemma_printed_value_reads_back(v, lay1, before1, after1);
    lemma_printed_value_reads_back(v, lay2, before2, after2);
}

} // verus!
