//! HTTP/1.1 request parsing, response building and routing.
use vstd::prelude::*;
use vstd::utf8::encode_utf8;

use crate::assoc::{assoc_get, assoc_insert, assoc_view, insert_member, lookup};
use crate::json_grammar::{rest_len, ws_len};
use crate::text::{
    char_is_whitespace, chars_of, decimal, decimal_string, lower_of, lowercase, push_decimal, slice_chars,
    starts_with_chars, string_of,
};

verus! {

/// The number of characters from `i` up to the next newline or the end.
pub open spec fn line_len(s: Seq<char>, i: nat) -> nat
    decreases s.len() - i,
{
    if i < s.len() && s[i as int] != '\n' {
        1 + line_len(s, i + 1)
    } else {
        0
    }
}

/// The lines of `s` from `i` on, as `str::lines` gives them: split at `\n`,
/// a `\r` before the `\n` dropped, the last line ending optional.
pub open spec fn lines_from(s: Seq<char>, i: nat) -> Seq<Seq<char>>
    decreases rest_len(s, i),
{
    if i >= s.len() {
        Seq::empty()
    } else {
        let e = i + line_len(s, i);
        let raw = s.subrange(i as int, e as int);
        let line = if e < s.len() && raw.len() > 0 && raw.last() == '\r' {
            raw.drop_last()
        } else {
            raw
        };
        seq![line] + lines_from(s, e + 1)
    }
}

/// The number of non-whitespace characters from `i` on.
pub open spec fn word_len(s: Seq<char>, i: nat) -> nat
    decreases s.len() - i,
{
    if i < s.len() && !crate::text::is_white_space(s[i as int]) {
        1 + word_len(s, i + 1)
    } else {
        0
    }
}

/// The words of `s` from `i` on, as `str::split_whitespace` gives them.
pub open spec fn words_from(s: Seq<char>, i: nat) -> Seq<Seq<char>>
    decreases rest_len(s, i),
{
    let j = i + ws_len(s, i);
    if j >= s.len() {
        Seq::empty()
    } else {
        let k = j + 1 + word_len(s, j + 1);
        seq![s.subrange(j as int, k as int)] + words_from(s, k)
    }
}

/// The first index from `i` on where `": "` starts, if any.
pub open spec fn separator_at(s: Seq<char>, i: nat) -> Option<nat>
    decreases s.len() - i,
{
    if i + 1 >= s.len() {
        None
    } else if s[i as int] == ':' && s[(i + 1) as int] == ' ' {
        Some(i)
    } else {
        separator_at(s, i + 1)
    }
}

/// The header fields of lines `i` on, up to the first empty line, in order:
/// each `key: value` line gives its key in lowercase and its value; a line
/// without `": "` gives none.
pub open spec fn header_fields(lines: Seq<Seq<char>>, i: nat) -> Seq<(Seq<char>, Seq<char>)>
    decreases lines.len() - i,
{
    if i >= lines.len() || lines[i as int].len() == 0 {
        Seq::empty()
    } else {
        let l = lines[i as int];
        match separator_at(l, 0) {
            Some(t) => seq![
                (lower_of(l.subrange(0, t as int)), l.subrange((t + 2) as int, l.len() as int)),
            ] + header_fields(lines, i + 1),
            None => header_fields(lines, i + 1),
        }
    }
}

/// The headers after storing the fields one after another into `acc`: a
/// later field with a name already stored replaces its value.
pub open spec fn stored(
    acc: Seq<(Seq<char>, Seq<char>)>,
    fields: Seq<(Seq<char>, Seq<char>)>,
) -> Seq<(Seq<char>, Seq<char>)>
    decreases fields.len(),
{
    if fields.len() == 0 {
        acc
    } else {
        let last = fields.last();
        insert_member(stored(acc, fields.drop_last()), last.0, last.1)
    }
}

/// The model of a [`Request`].
pub struct RequestView {
    pub method: Seq<char>,
    pub path: Seq<char>,
    pub headers: Seq<(Seq<char>, Seq<char>)>,
}

/// The request that `raw` holds: method and path are the first two words of
/// the first line; `None` where there is no line or it has fewer words.
pub open spec fn request_of(raw: Seq<char>) -> Option<RequestView> {
    let lines = lines_from(raw, 0);
    if lines.len() == 0 {
        None
    } else {
        let parts = words_from(lines[0], 0);
        if parts.len() < 2 {
            None
        } else {
            Some(
                RequestView {
                    method: parts[0],
                    path: parts[1],
                    headers: stored(Seq::empty(), header_fields(lines, 1)),
                },
            )
        }
    }
}

pub open spec fn char_vecs(v: Seq<Vec<char>>) -> Seq<Seq<char>> {
    v.map_values(|x: Vec<char>| x@)
}

fn split_lines(s: &Vec<char>) -> (r: Vec<Vec<char>>)
    ensures
        char_vecs(r@) == lines_from(s@, 0),
{
    let mut out: Vec<Vec<char>> = Vec::new();
    let mut i: usize = 0;
    while i < s.len()
        invariant
            i <= s@.len(),
            lines_from(s@, 0) == char_vecs(out@) + lines_from(s@, i as nat),
        decreases s.len() - i,
    {
        let mut e: usize = i;
        while e < s.len() && s[e] != '\n'
            invariant
                i <= e <= s@.len(),
                line_len(s@, i as nat) == (e - i) + line_len(s@, e as nat),
            decreases s.len() - e,
        {
            e += 1;
        }
        let stop = if e < s.len() && e > i && s[e - 1] == '\r' {
            e - 1
        } else {
            e
        };
        let line = slice_chars(s, i, stop);
        let ghost old_out = out@;
        out.push(line);
        assert(char_vecs(out@) =~= char_vecs(old_out).push(line@));
        assert(lines_from(s@, i as nat) == seq![line@] + lines_from(s@, (e + 1) as nat)) by {
            let raw = s@.subrange(i as int, e as int);
            if e < s@.len() && raw.len() > 0 && raw.last() == '\r' {
                assert(raw.drop_last() =~= s@.subrange(i as int, stop as int));
            } else {
                assert(raw =~= s@.subrange(i as int, stop as int));
            }
        }
        assert(char_vecs(out@) + lines_from(s@, (e + 1) as nat) =~= char_vecs(old_out) + lines_from(s@, i as nat));
        if e < s.len() {
            i = e + 1;
        } else {
            i = s.len();
        }
    }
    assert(char_vecs(out@) =~= lines_from(s@, 0));
    out
}

fn split_words(s: &Vec<char>) -> (r: Vec<Vec<char>>)
    ensures
        char_vecs(r@) == words_from(s@, 0),
{
    let mut out: Vec<Vec<char>> = Vec::new();
    let mut i: usize = 0;
    while i < s.len()
        invariant
            i <= s@.len(),
            words_from(s@, 0) == char_vecs(out@) + words_from(s@, i as nat),
        decreases s.len() - i,
    {
        let mut j: usize = i;
        while j < s.len() && char_is_whitespace(s[j])
            invariant
                i <= j <= s@.len(),
                ws_len(s@, i as nat) == (j - i) + ws_len(s@, j as nat),
            decreases s.len() - j,
        {
            j += 1;
        }
        if j >= s.len() {
            assert(words_from(s@, i as nat) =~= Seq::<Seq<char>>::empty());
            assert(char_vecs(out@) =~= words_from(s@, 0));
            return out;
        }
        let mut k: usize = j + 1;
        while k < s.len() && !char_is_whitespace(s[k])
            invariant
                j < k <= s@.len(),
                word_len(s@, (j + 1) as nat) == (k - j - 1) + word_len(s@, k as nat),
            decreases s.len() - k,
        {
            k += 1;
        }
        let word = slice_chars(s, j, k);
        let ghost old_out = out@;
        out.push(word);
        assert(char_vecs(out@) =~= char_vecs(old_out).push(word@));
        assert(char_vecs(out@) + words_from(s@, k as nat) =~= char_vecs(old_out) + words_from(s@, i as nat));
        i = k;
    }
    assert(words_from(s@, i as nat) =~= Seq::<Seq<char>>::empty());
    assert(char_vecs(out@) =~= words_from(s@, 0));
    out
}

fn find_separator(s: &Vec<char>) -> (r: Option<usize>)
    ensures
        match separator_at(s@, 0) {
            Some(t) => r matches Some(x) && x as nat == t,
            None => r is None,
        },
        r matches Some(t) ==> t + 1 < s@.len(),
{
    let n = s.len();
    let mut i: usize = 0;
    while i < n && i + 1 < n
        invariant
            n == s@.len(),
            separator_at(s@, 0) == separator_at(s@, i as nat),
        decreases s.len() - i,
    {
        if s[i] == ':' && s[i + 1] == ' ' {
            return Some(i);
        }
        i += 1;
    }
    None
}

/// Stores the header fields, in order, into an empty header list: a later
/// field with a name already stored replaces its value.
pub fn store_headers(fields: &Vec<(String, String)>) -> (r: Vec<(String, String)>)
    ensures
        assoc_view(r@) == stored(Seq::empty(), assoc_view(fields@)),
{
    let ghost fv = assoc_view(fields@);
    let mut headers: Vec<(String, String)> = Vec::new();
    let mut i: usize = 0;
    assert(fv.subrange(0, 0) =~= Seq::<(Seq<char>, Seq<char>)>::empty());
    assert(assoc_view(headers@) =~= Seq::<(Seq<char>, Seq<char>)>::empty());
    while i < fields.len()
        invariant
            fv == assoc_view(fields@),
            i <= fields@.len(),
            assoc_view(headers@) == stored(Seq::empty(), fv.subrange(0, i as int)),
        decreases fields.len() - i,
    {
        let name = fields[i].0.clone();
        let value = fields[i].1.clone();
        assert(fv[i as int] == (name@, value@));
        assoc_insert(&mut headers, name, value);
        assert(fv.subrange(0, (i + 1) as int).drop_last() =~= fv.subrange(0, i as int));
        i += 1;
    }
    assert(fv.subrange(0, i as int) =~= fv);
    headers
}

/// An HTTP request: method, path and headers, the header names in lowercase.
#[derive(Debug)]
pub struct Request {
    pub method: String,
    pub path: String,
    pub headers: Vec<(String, String)>,
}

impl View for Request {
    type V = RequestView;

    open spec fn view(&self) -> RequestView {
        RequestView { method: self.method@, path: self.path@, headers: assoc_view(self.headers@) }
    }
}

impl Request {
    /// Reads the request line and the headers of a raw request.
    pub fn parse(raw: &str) -> (r: Option<Request>)
        ensures
            match request_of(raw@) {
                Some(m) => r matches Some(x) && x@ == m,
                None => r is None,
            },
    {
        let s = chars_of(raw);
        let lines = split_lines(&s);
        let ghost ls = char_vecs(lines@);
        if lines.len() == 0 {
            return None;
        }
        let parts = split_words(&lines[0]);
        assert(ls[0] == lines@[0]@);
        if parts.len() < 2 {
            return None;
        }
        let method = string_of(&parts[0]);
        let path = string_of(&parts[1]);
        let mut fields: Vec<(String, String)> = Vec::new();
        assert(assoc_view(fields@) =~= Seq::<(Seq<char>, Seq<char>)>::empty());
        let mut i: usize = 1;
        while i < lines.len()
            invariant
                ls == char_vecs(lines@),
                1 <= i <= lines@.len(),
                header_fields(ls, 1) == assoc_view(fields@) + header_fields(ls, i as nat),
            ensures
                header_fields(ls, 1) == assoc_view(fields@),
            decreases lines.len() - i,
        {
            let line = &lines[i];
            assert(ls[i as int] == line@);
            if line.len() == 0 {
                assert(assoc_view(fields@) + header_fields(ls, i as nat) =~= assoc_view(fields@));
                break;
            }
            match find_separator(line) {
                Some(t) => {
                    let key = string_of(&slice_chars(line, 0, t));
                    let value = string_of(&slice_chars(line, t + 2, line.len()));
                    let name = lowercase(key.as_str());
                    let ghost before = assoc_view(fields@);
                    fields.push((name, value));
                    assert(key@ == line@.subrange(0, t as int));
                    assert(value@ == line@.subrange((t + 2) as int, line@.len() as int));
                    assert(assoc_view(fields@) =~= before.push((lower_of(key@), value@)));
                    assert(assoc_view(fields@) + header_fields(ls, (i + 1) as nat) =~= before
                        + header_fields(ls, i as nat));
                },
                None => {},
            }
            i += 1;
        }
        assert(assoc_view(fields@) + header_fields(ls, i as nat) =~= assoc_view(fields@));
        let headers = store_headers(&fields);
        let req = Request { method, path, headers };
        assert(char_vecs(parts@)[0] == parts@[0]@);
        assert(char_vecs(parts@)[1] == parts@[1]@);
        assert(req@ == request_of(raw@)->Some_0);
        Some(req)
    }

    /// The value of the header `name`, given in lowercase.
    pub fn header(&self, name: &str) -> (r: Option<&String>)
        ensures
            match lookup(self@.headers, name@) {
                Some(v) => r matches Some(x) && x@ == v,
                None => r is None,
            },
    {
        assoc_get(&self.headers, name)
    }
}

/// The header block: one `key: value` line per header, in order.
pub open spec fn header_block(h: Seq<(Seq<char>, Seq<char>)>) -> Seq<char>
    decreases h.len(),
{
    if h.len() == 0 {
        Seq::empty()
    } else {
        header_block(h.drop_last()) + h.last().0 + ": "@ + h.last().1 + "\r\n"@
    }
}

/// The text of a response: status line, header block, empty line, body.
pub open spec fn response_text(
    code: nat,
    text: Seq<char>,
    headers: Seq<(Seq<char>, Seq<char>)>,
    body: Seq<char>,
) -> Seq<char> {
    "HTTP/1.1 "@ + decimal(code) + " "@ + text + "\r\n"@ + header_block(headers) + "\r\n"@ + body
}

/// An HTTP response under construction.
#[derive(Debug)]
pub struct Response {
    pub status_code: u16,
    pub status_text: String,
    pub headers: Vec<(String, String)>,
    pub body: String,
}

impl Response {
    /// A response with the given status, no headers and an empty body.
    pub fn new(status_code: u16, status_text: &str) -> (r: Response)
        ensures
            r.status_code == status_code,
            r.status_text@ == status_text@,
            r.headers@.len() == 0,
            r.body@ == Seq::<char>::empty(),
    {
        Response {
            status_code,
            status_text: String::from_str(status_text),
            headers: Vec::new(),
            body: String::new(),
        }
    }

    /// Sets the body and stores its length in bytes as `Content-Length`.
    pub fn with_body(self, body: &str) -> (r: Response)
        ensures
            r.status_code == self.status_code,
            r.status_text@ == self.status_text@,
            r.body@ == body@,
            assoc_view(r.headers@) == insert_member(
                assoc_view(self.headers@),
                "Content-Length"@,
                decimal(body.len() as nat),
            ),
    {
        let mut r = self;
        r.body = String::from_str(body);
        let length = decimal_string(body.len() as u64);
        assoc_insert(&mut r.headers, String::from_str("Content-Length"), length);
        r
    }

    /// Stores the header `key: value`; an existing header `key` takes the new
    /// value.
    pub fn with_header(self, key: &str, value: &str) -> (r: Response)
        ensures
            r.status_code == self.status_code,
            r.status_text@ == self.status_text@,
            r.body@ == self.body@,
            assoc_view(r.headers@) == insert_member(assoc_view(self.headers@), key@, value@),
    {
        let mut r = self;
        assoc_insert(&mut r.headers, String::from_str(key), String::from_str(value));
        r
    }

    /// The response as it goes on the wire.
    pub fn to_string(&self) -> (r: String)
        ensures
            r@ == response_text(
                self.status_code as nat,
                self.status_text@,
                assoc_view(self.headers@),
                self.body@,
            ),
    {
        let ghost h = assoc_view(self.headers@);
        let mut out = String::from_str("HTTP/1.1 ");
        push_decimal(&mut out, self.status_code as u64);
        out.append(" ");
        out.append(self.status_text.as_str());
        out.append("\r\n");
        let ghost head = out@;
        let mut i: usize = 0;
        assert(h.subrange(0, 0) =~= Seq::<(Seq<char>, Seq<char>)>::empty());
        assert(out@ =~= head + header_block(h.subrange(0, 0)));
        while i < self.headers.len()
            invariant
                h == assoc_view(self.headers@),
                i <= self.headers@.len(),
                out@ == head + header_block(h.subrange(0, i as int)),
            decreases self.headers.len() - i,
        {
            out.append(self.headers[i].0.as_str());
            out.append(": ");
            out.append(self.headers[i].1.as_str());
            out.append("\r\n");
            assert(h.subrange(0, (i + 1) as int).drop_last() =~= h.subrange(0, i as int));
            i += 1;
            assert(out@ =~= head + header_block(h.subrange(0, i as int)));
        }
        assert(h.subrange(0, i as int) =~= h);
        out.append("\r\n");
        out.append(self.body.as_str());
        assert(out@ =~= response_text(self.status_code as nat, self.status_text@, h, self.body@));
        out
    }
}

/// The number of bytes of the UTF-8 encoding of `s`, as `str::len` reports
/// it.
pub open spec fn byte_len(s: Seq<char>) -> nat {
    (encode_utf8(s).len() as usize) as nat
}

/// A complete plain-text response.
pub open spec fn text_response(code: nat, status: Seq<char>, body: Seq<char>) -> Seq<char> {
    "HTTP/1.1 "@ + decimal(code) + " "@ + status
        + "\r\nContent-Type: text/plain; charset=utf-8\r\nContent-Length: "@ + decimal(byte_len(body))
        + "\r\nConnection: close\r\n\r\n"@ + body
}

/// A complete JSON response.
pub open spec fn json_response(code: nat, body: Seq<char>) -> Seq<char> {
    "HTTP/1.1 "@ + decimal(code)
        + " OK\r\nContent-Type: application/json; charset=utf-8\r\nContent-Length: "@ + decimal(
        byte_len(body),
    ) + "\r\nConnection: close\r\n\r\n"@ + body
}

/// The response to a `GET` of `path`.
pub open spec fn route_spec(path: Seq<char>) -> Seq<char> {
    let hello = "/hello/"@;
    if path == "/"@ {
        text_response(200, "OK"@, "Welcome to Rust HTTP Server!"@)
    } else if path == "/json"@ {
        json_response(200, "{\"message\": \"Hello, JSON!\", \"status\": \"ok\"}"@)
    } else if hello.len() <= path.len() && path.subrange(0, hello.len() as int) == hello {
        let name = path.subrange(hello.len() as int, path.len() as int);
        if name.len() == 0 {
            text_response(400, "Bad Request"@, "Name is required"@)
        } else {
            text_response(200, "OK"@, "Hello, "@ + name + "!"@)
        }
    } else if path == "/headers"@ {
        text_response(200, "OK"@, "Use /headers endpoint to see request headers"@)
    } else {
        text_response(404, "Not Found"@, "Path '"@ + path + "' not found"@)
    }
}

/// The response to a request line: method and path are its first two words.
pub open spec fn dispatch_spec(line: Seq<char>) -> Seq<char> {
    let parts = words_from(line, 0);
    if parts.len() < 2 {
        text_response(400, "Bad Request"@, "Invalid request"@)
    } else if parts[0] != "GET"@ {
        text_response(405, "Method Not Allowed"@, "Only GET is supported"@)
    } else {
        route_spec(parts[1])
    }
}

/// A plain-text response with the given status and body.
pub fn build_response(status_code: u16, status_text: &str, body: &str) -> (r: String)
    ensures
        r@ == text_response(status_code as nat, status_text@, body@),
{
    let mut out = String::from_str("HTTP/1.1 ");
    push_decimal(&mut out, status_code as u64);
    out.append(" ");
    out.append(status_text);
    out.append("\r\nContent-Type: text/plain; charset=utf-8\r\nContent-Length: ");
    push_decimal(&mut out, body.len() as u64);
    out.append("\r\nConnection: close\r\n\r\n");
    out.append(body);
    assert(out@ =~= text_response(status_code as nat, status_text@, body@));
    out
}

/// A JSON response with the given status code and body.
pub fn build_json_response(status_code: u16, body: &str) -> (r: String)
    ensures
        r@ == json_response(status_code as nat, body@),
{
    let mut out = String::from_str("HTTP/1.1 ");
    push_decimal(&mut out, status_code as u64);
    out.append(" OK\r\nContent-Type: application/json; charset=utf-8\r\nContent-Length: ");
    push_decimal(&mut out, body.len() as u64);
    out.append("\r\nConnection: close\r\n\r\n");
    out.append(body);
    assert(out@ =~= json_response(status_code as nat, body@));
    out
}

/// The response to a `GET` of `path`.
pub fn match_route(path: &str) -> (r: String)
    ensures
        r@ == route_spec(path@),
{
    let p = String::from_str(path);
    if p == String::from_str("/") {
        return build_response(200, "OK", "Welcome to Rust HTTP Server!");
    }
    if p == String::from_str("/json") {
        return build_json_response(200, "{\"message\": \"Hello, JSON!\", \"status\": \"ok\"}");
    }
    let chars = chars_of(path);
    let hello = chars_of("/hello/");
    if starts_with_chars(&chars, &hello) {
        let name = string_of(&slice_chars(&chars, hello.len(), chars.len()));
        if name.as_str().is_empty() {
            return build_response(400, "Bad Request", "Name is required");
        }
        let mut body = String::from_str("Hello, ");
        body.append(name.as_str());
        body.append("!");
        return build_response(200, "OK", body.as_str());
    }
    if p == String::from_str("/headers") {
        return build_response(200, "OK", "Use /headers endpoint to see request headers");
    }
    let mut body = String::from_str("Path '");
    body.append(path);
    body.append("' not found");
    build_response(404, "Not Found", body.as_str())
}

/// The response to a request line.
pub fn route_request(request_line: &str) -> (r: String)
    ensures
        r@ == dispatch_spec(request_line@),
{
    let parts = split_words(&chars_of(request_line));
    if parts.len() < 2 {
        return build_response(400, "Bad Request", "Invalid request");
    }
    assert(char_vecs(parts@)[0] == parts@[0]@);
    assert(char_vecs(parts@)[1] == parts@[1]@);
    let method = string_of(&parts[0]);
    if method != String::from_str("GET") {
        return build_response(405, "Method Not Allowed", "Only GET is supported");
    }
    let path = string_of(&parts[1]);
    match_route(path.as_str())
}

} // verus!
