//! The graph server's side of HTTP: what a request asks for, and how a reply begins.

use vstd::prelude::*;
use vstd::string::*;
use vstd::utf8::*;

use crate::text::{chars_of, decimal, number, same};

verus! {

/// The text of bytes that need not be valid UTF-8.
pub uninterp spec fn lossy_text(bytes: Seq<u8>) -> Seq<char>;

/// `String::from_utf8_lossy`: the text of bytes.
///
/// Valid UTF-8 is decoded as it is. What stands for an invalid part is a name.
#[verifier::external_body]
fn from_lossy(bytes: &[u8]) -> (r: String)
    ensures
        r@ == lossy_text(bytes@),
        valid_utf8(bytes@) ==> r@ == decode_utf8(bytes@),
{
    String::from_utf8_lossy(bytes).into_owned()
}

/// The text of bytes that need not be valid UTF-8.
pub fn text_of_bytes(bytes: &[u8]) -> (r: String)
    ensures
        r@ == lossy_text(bytes@),
        valid_utf8(bytes@) ==> r@ == decode_utf8(bytes@),
{
    from_lossy(bytes)
}

/// Whether a character is white space.
pub open spec fn is_space(c: char) -> bool {
    ||| 0x09 <= c as u32 <= 0x0d
    ||| c as u32 == 0x20
    ||| c as u32 == 0x85
    ||| c as u32 == 0xa0
    ||| c as u32 == 0x1680
    ||| 0x2000 <= c as u32 <= 0x200a
    ||| c as u32 == 0x2028
    ||| c as u32 == 0x2029
    ||| c as u32 == 0x202f
    ||| c as u32 == 0x205f
    ||| c as u32 == 0x3000
}

/// The start of a text before the first `stop`.
pub open spec fn before_char(text: Seq<char>, stop: char) -> Seq<char>
    decreases text.len(),
{
    if text.len() == 0 || text[0] == stop {
        seq![]
    } else {
        seq![text[0]] + before_char(text.drop_first(), stop)
    }
}

/// A text without the white space at its start.
pub open spec fn from_word(text: Seq<char>) -> Seq<char>
    decreases text.len(),
{
    if text.len() > 0 && is_space(text[0]) {
        from_word(text.drop_first())
    } else {
        text
    }
}

/// The start of a text before the first white space.
pub open spec fn before_space(text: Seq<char>) -> Seq<char>
    decreases text.len(),
{
    if text.len() == 0 || is_space(text[0]) {
        seq![]
    } else {
        seq![text[0]] + before_space(text.drop_first())
    }
}

/// The first word of a text.
pub open spec fn first_word(text: Seq<char>) -> Seq<char> {
    before_space(from_word(text))
}

/// What follows the first word of a text.
pub open spec fn behind_first_word(text: Seq<char>) -> Seq<char> {
    from_word(text).skip(first_word(text).len() as int)
}

/// What a request asks for.
#[derive(Clone, Copy, Debug, PartialEq, Eq, Structural)]
pub enum Route {
    /// The page.
    Page,
    /// The page's script.
    Script,
    /// The graph.
    Graph,
    /// Something by another method than `GET`.
    MethodNotAllowed,
    /// Something that is not there.
    NotFound,
}

/// What a request asks for, by the first two words of its first line: the method, and the
/// path, of which what follows a question mark does not count.
pub open spec fn route_of(request: Seq<char>) -> Route {
    let line = before_char(request, '\n');
    let second = first_word(behind_first_word(line));
    let path = before_char(
        if second.len() == 0 {
            "/"@
        } else {
            second
        },
        '?',
    );
    if first_word(line) != "GET"@ {
        Route::MethodNotAllowed
    } else if path == "/"@ {
        Route::Page
    } else if path == "/app.js"@ {
        Route::Script
    } else if path == "/api/graph"@ {
        Route::Graph
    } else {
        Route::NotFound
    }
}

fn space(c: char) -> (r: bool)
    ensures
        r == is_space(c),
{
    let code: u32 = c as u32;
    (0x09 <= code && code <= 0x0d) || code == 0x20 || code == 0x85 || code == 0xa0 || code
        == 0x1680 || (0x2000 <= code && code <= 0x200a) || code == 0x2028 || code == 0x2029
        || code == 0x202f || code == 0x205f || code == 0x3000
}

fn until_char(text: &str, stop: char) -> (r: String)
    ensures
        r@ == before_char(text@, stop),
{
    let chars = chars_of(text);
    let mut r = String::new();
    let mut i: usize = 0;
    assert(text@.skip(0) =~= text@);
    assert(r@ + before_char(text@, stop) =~= before_char(text@, stop));
    while i < chars.len()
        invariant
            i <= chars@.len(),
            chars@ == text@,
            r@ + before_char(text@.skip(i as int), stop) == before_char(text@, stop),
        decreases chars.len() - i,
    {
        let ghost rest = text@.skip(i as int);
        assert(rest.drop_first() =~= text@.skip(i + 1));
        let ghost before = r@;
        if chars[i] == stop {
            assert(r@ + before_char(rest, stop) =~= r@);
            return r;
        }
        r.push(chars[i]);
        i = i + 1;
        assert(before + (seq![rest[0]] + before_char(text@.skip(i as int), stop)) =~= r@
            + before_char(text@.skip(i as int), stop));
    }
    assert(r@ + before_char(text@.skip(i as int), stop) =~= r@);
    r
}

/// The word of `text` that starts at or after a place, and the place behind it.
fn word_from(chars: &Vec<char>, start: usize) -> (r: (String, usize))
    requires
        start <= chars@.len(),
    ensures
        r.1 <= chars@.len(),
        r.0@ == first_word(chars@.skip(start as int)),
        chars@.skip(r.1 as int) == behind_first_word(chars@.skip(start as int)),
{
    let ghost text = chars@.skip(start as int);
    let mut i: usize = start;
    while i < chars.len() && space(chars[i])
        invariant
            start <= i <= chars@.len(),
            from_word(text) == from_word(chars@.skip(i as int)),
        decreases chars.len() - i,
    {
        assert(chars@.skip(i as int).drop_first() =~= chars@.skip(i + 1));
        i = i + 1;
    }
    let ghost from = chars@.skip(i as int);
    assert(from_word(text) == from);
    let mut word = String::new();
    let ghost begin = i as int;
    assert(word@ + before_space(from) =~= before_space(from));
    while i < chars.len() && !space(chars[i])
        invariant
            0 <= begin <= i <= chars@.len(),
            from == chars@.skip(begin),
            word@ == chars@.subrange(begin, i as int),
            word@ + before_space(chars@.skip(i as int)) == before_space(from),
        decreases chars.len() - i,
    {
        let ghost rest = chars@.skip(i as int);
        let ghost before = word@;
        assert(rest.drop_first() =~= chars@.skip(i + 1));
        word.push(chars[i]);
        i = i + 1;
        assert(before + (seq![rest[0]] + before_space(chars@.skip(i as int))) =~= word@
            + before_space(chars@.skip(i as int)));
        assert(word@ =~= chars@.subrange(begin, i as int));
    }
    proof {
        assert(before_space(chars@.skip(i as int)) =~= seq![]);
        assert(word@ + before_space(chars@.skip(i as int)) =~= word@);
        assert(word@.len() == i - begin);
        assert(from.skip(word@.len() as int) =~= chars@.skip(i as int));
    }
    (word, i)
}

/// What a request asks for.
pub fn route_request(request: &str) -> (r: Route)
    ensures
        r == route_of(request@),
{
    let line = until_char(request, '\n');
    let chars = chars_of(line.as_str());
    assert(chars@.skip(0) =~= line@);
    let (method, behind) = word_from(&chars, 0);
    let (second, _) = word_from(&chars, behind);
    if !same(method.as_str(), "GET") {
        return Route::MethodNotAllowed;
    }
    let path = if chars_of(second.as_str()).len() == 0 {
        until_char("/", '?')
    } else {
        until_char(second.as_str(), '?')
    };
    if same(path.as_str(), "/") {
        Route::Page
    } else if same(path.as_str(), "/app.js") {
        Route::Script
    } else if same(path.as_str(), "/api/graph") {
        Route::Graph
    } else {
        Route::NotFound
    }
}

/// What the bytes of a request ask for.
pub fn route(request: &[u8]) -> (r: Route)
    ensures
        r == route_of(lossy_text(request@)),
        valid_utf8(request@) ==> r == route_of(decode_utf8(request@)),
{
    let text = text_of_bytes(request);
    route_request(text.as_str())
}

impl Route {
    /// The status with which a request is answered.
    pub open spec fn status_text(self) -> Seq<char> {
        match self {
            Route::MethodNotAllowed => "405 Method Not Allowed"@,
            Route::NotFound => "404 Not Found"@,
            _ => "200 OK"@,
        }
    }

    /// The type of what a request is answered with.
    pub open spec fn content_type_text(self) -> Seq<char> {
        match self {
            Route::Page => "text/html; charset=utf-8"@,
            Route::Script => "application/javascript; charset=utf-8"@,
            Route::Graph => "application/json"@,
            Route::MethodNotAllowed | Route::NotFound => "text/plain; charset=utf-8"@,
        }
    }

    /// The status with which a request is answered.
    pub fn status(self) -> (r: &'static str)
        ensures
            r@ == self.status_text(),
    {
        match self {
            Route::MethodNotAllowed => "405 Method Not Allowed",
            Route::NotFound => "404 Not Found",
            _ => "200 OK",
        }
    }

    /// The type of what a request is answered with.
    pub fn content_type(self) -> (r: &'static str)
        ensures
            r@ == self.content_type_text(),
    {
        match self {
            Route::Page => "text/html; charset=utf-8",
            Route::Script => "application/javascript; charset=utf-8",
            Route::Graph => "application/json",
            Route::MethodNotAllowed | Route::NotFound => "text/plain; charset=utf-8",
        }
    }

    /// What is answered where nothing is served.
    pub fn refusal(self) -> (r: Option<&'static str>)
        ensures
            match self {
                Route::MethodNotAllowed => r is Some && r->Some_0@ == "method not allowed"@,
                Route::NotFound => r is Some && r->Some_0@ == "not found"@,
                _ => r is None,
            },
    {
        match self {
            Route::MethodNotAllowed => Some("method not allowed"),
            Route::NotFound => Some("not found"),
            _ => None,
        }
    }
}

/// The head of a reply.
pub open spec fn head_of(status: Seq<char>, content_type: Seq<char>, length: nat) -> Seq<char> {
    "HTTP/1.1 "@ + status + "\r\nContent-Type: "@ + content_type + "\r\nContent-Length: "@
        + decimal(length)
        + "\r\nCache-Control: no-store\r\nConnection: close\r\n\r\n"@
}

/// The head of a reply.
pub fn response_head(status: &str, content_type: &str, length: usize) -> (r: String)
    ensures
        r@ == head_of(status@, content_type@, length as nat),
{
    let mut head = "HTTP/1.1 ".to_owned();
    head.append(status);
    head.append("\r\nContent-Type: ");
    head.append(content_type);
    head.append("\r\nContent-Length: ");
    head.append(number(length as u64).as_str());
    head.append("\r\nCache-Control: no-store\r\nConnection: close\r\n\r\n");
    head
}

/// Of the ASCII characters, tab, line feed, vertical tab, form feed, carriage return and
/// the space are white space, and no other.
pub proof fn ascii_white_space(c: char)
    requires
        c as u32 <= 0x7f,
    ensures
        is_space(c) <==> c == '\t' || c == '\n' || c as u32 == 0x0b || c as u32 == 0x0c || c
            == '\r' || c == ' ',
{
}

/// Whether a text has no white space in it.
pub open spec fn is_word(text: Seq<char>) -> bool {
    text.len() > 0 && forall|i: int| 0 <= i < text.len() ==> !is_space(#[trigger] text[i])
}

/// Whether a text is empty or begins with white space.
pub open spec fn breaks(text: Seq<char>) -> bool {
    text.len() == 0 || is_space(text[0])
}

proof fn lemma_before_char(a: Seq<char>, b: Seq<char>, stop: char)
    requires
        !a.contains(stop),
    ensures
        before_char(a + b, stop) == a + before_char(b, stop),
    decreases a.len(),
{
    let text = a + b;
    if a.len() == 0 {
        assert(text =~= b);
        assert(a + before_char(b, stop) =~= before_char(b, stop));
    } else {
        let rest = a.drop_first();
        assert(a.contains(a[0]));
        assert(!rest.contains(stop)) by {
            if rest.contains(stop) {
                let k = rest.index_of(stop);
                assert(a[k + 1] == stop);
            }
        }
        lemma_before_char(rest, b, stop);
        assert(text.drop_first() =~= rest + b);
        assert(before_char(text, stop) =~= a + before_char(b, stop));
    }
}

proof fn lemma_first_word(word: Seq<char>, rest: Seq<char>)
    requires
        is_word(word),
        breaks(rest),
    ensures
        first_word(word + rest) == word,
        behind_first_word(word + rest) == rest,
{
    let text = word + rest;
    assert(text[0] == word[0]);
    assert(from_word(text) == text);
    lemma_before_space(word, rest);
    assert(text.skip(word.len() as int) =~= rest);
}

proof fn lemma_before_space(word: Seq<char>, rest: Seq<char>)
    requires
        forall|i: int| 0 <= i < word.len() ==> !is_space(#[trigger] word[i]),
        breaks(rest),
    ensures
        before_space(word + rest) == word,
    decreases word.len(),
{
    let text = word + rest;
    if word.len() == 0 {
        assert(text =~= rest);
        assert(before_space(text) =~= word);
    } else {
        let tail = word.drop_first();
        assert forall|i: int| 0 <= i < tail.len() implies !is_space(#[trigger] tail[i]) by {
            assert(tail[i] == word[i + 1]);
        }
        lemma_before_space(tail, rest);
        assert(!is_space(word[0]));
        assert(text.drop_first() =~= tail + rest);
        assert(before_space(text) =~= word);
    }
}

/// A request is answered by its method and path alone: whatever follows a question mark in
/// its target, and whatever follows the target, changes nothing. Only `GET` is allowed, and
/// three paths are there.
pub proof fn request_is_routed_by_method_and_path(
    method: Seq<char>,
    path: Seq<char>,
    query: Seq<char>,
    rest: Seq<char>,
)
    requires
        is_word(method),
        is_word(path + query),
        !path.contains('?'),
        query.len() > 0 ==> query[0] == '?',
        rest.len() > 0 ==> rest[0] == ' ' || rest[0] == '\r' || rest[0] == '\n',
    ensures
        route_of(method + seq![' '] + (path + query) + rest) == if method != "GET"@ {
            Route::MethodNotAllowed
        } else if path == "/"@ {
            Route::Page
        } else if path == "/app.js"@ {
            Route::Script
        } else if path == "/api/graph"@ {
            Route::Graph
        } else {
            Route::NotFound
        },
{
    let target = path + query;
    let request = method + seq![' '] + target + rest;
    let front = method + seq![' '] + target;
    assert(!front.contains('\n')) by {
        if front.contains('\n') {
            let k = front.index_of('\n');
            if k < method.len() {
                assert(!is_space(method[k]));
            } else if k > method.len() {
                assert(front[k] == target[k - method.len() - 1]);
                assert(!is_space(target[k - method.len() - 1]));
            }
        }
    }
    lemma_before_char(front, rest, '\n');
    let tail = before_char(rest, '\n');
    let line = before_char(request, '\n');
    assert(line == front + tail);
    assert(breaks(tail));
    let behind = seq![' '] + (target + tail);
    assert(line =~= method + behind);
    lemma_first_word(method, behind);
    assert(behind.drop_first() =~= target + tail);
    assert(!is_space((target + tail)[0])) by {
        assert((target + tail)[0] == target[0]);
    }
    assert(from_word(behind) == from_word(target + tail));
    assert(from_word(target + tail) == target + tail);
    lemma_first_word(target, tail);
    assert(first_word(behind) == target);
    lemma_before_char(path, query, '?');
    assert(before_char(query, '?') =~= seq![]);
    assert(path + before_char(query, '?') =~= path);
    assert(before_char(target, '?') == path);
}

/// What is there is answered with `200`, under the type of what it is; the rest is answered
/// in plain text, that it is not allowed or not there.
pub proof fn status_tells_whether_it_is_there(route: Route)
    ensures
        route.status_text() == if route is MethodNotAllowed {
            "405 Method Not Allowed"@
        } else if route is NotFound {
            "404 Not Found"@
        } else {
            "200 OK"@
        },
        route is Page ==> route.content_type_text() == "text/html; charset=utf-8"@,
        route is Script ==> route.content_type_text() == "application/javascript; charset=utf-8"@,
        route is Graph ==> route.content_type_text() == "application/json"@,
        route is MethodNotAllowed || route is NotFound ==> route.content_type_text()
            == "text/plain; charset=utf-8"@,
{
}

/// The head of a reply is a status line, four header lines and an empty line; it gives
/// the type and the length of what follows.
pub proof fn head_gives_type_and_length(status: Seq<char>, content_type: Seq<char>, length: nat)
    ensures
        head_of(status, content_type, length) == "HTTP/1.1 "@ + status + "\r\n"@
            + "Content-Type: "@ + content_type + "\r\n"@ + "Content-Length: "@ + decimal(length)
            + "\r\n"@ + "Cache-Control: no-store\r\n"@ + "Connection: close\r\n"@ + "\r\n"@,
{
    reveal_strlit("\r\n");
    reveal_strlit("\r\nContent-Type: ");
    reveal_strlit("Content-Type: ");
    reveal_strlit("\r\nContent-Length: ");
    reveal_strlit("Content-Length: ");
    reveal_strlit("\r\nCache-Control: no-store\r\nConnection: close\r\n\r\n");
    reveal_strlit("Cache-Control: no-store\r\n");
    reveal_strlit("Connection: close\r\n");
    assert("\r\nContent-Type: "@ =~= "\r\n"@ + "Content-Type: "@);
    assert("\r\nContent-Length: "@ =~= "\r\n"@ + "Content-Length: "@);
    assert("\r\nCache-Control: no-store\r\nConnection: close\r\n\r\n"@ =~= "\r\n"@
        + "Cache-Control: no-store\r\n"@ + "Connection: close\r\n"@ + "\r\n"@);
    assert(head_of(status, content_type, length) =~= "HTTP/1.1 "@ + status + "\r\n"@
        + "Content-Type: "@ + content_type + "\r\n"@ + "Content-Length: "@ + decimal(length)
        + "\r\n"@ + "Cache-Control: no-store\r\n"@ + "Connection: close\r\n"@ + "\r\n"@);
}

/// A request without a target asks for the page.
pub proof fn request_without_target_asks_for_the_page(method: Seq<char>, rest: Seq<char>)
    requires
        is_word(method),
        rest.len() > 0 ==> rest[0] == '\n',
    ensures
        route_of(method + rest) == if method == "GET"@ {
            Route::Page
        } else {
            Route::MethodNotAllowed
        },
{
    assert(!method.contains('\n')) by {
        if method.contains('\n') {
            assert(!is_space(method[method.index_of('\n')]));
        }
    }
    lemma_before_char(method, rest, '\n');
    assert(before_char(rest, '\n') =~= seq![]);
    let line = before_char(method + rest, '\n');
    assert(line =~= method + seq![]);
    lemma_first_word(method, seq![]);
    assert(behind_first_word(line) =~= seq![]);
    assert(first_word(seq![]) =~= seq![]);
    reveal_strlit("/");
    let slash = "/"@;
    assert(!slash.contains('?'));
    lemma_before_char(slash, seq![], '?');
    assert(slash + before_char(seq![], '?') =~= slash);
    assert(slash + seq![] =~= slash);
}

} // verus!
