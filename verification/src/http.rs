//! The HTTP side of the server: request heads in, responses out.

use crate::text::{append_decimal, chars_of, decimal, find_char, joined_by, law_split_of_two_texts, law_split_undoes_joining, law_until_stops_at_the_first, slice_chars, spells, split, string_of, until};
use crate::web_path::{entries, from_utf8_lossy, law_parent_steps_are_refused, law_url_paths_resolve, ordinary, resolve_web_path, slashed, text_of, texts};
use vstd::prelude::*;
use vstd::string::StringExecFns;
use vstd::utf8::{decode_utf8, encode_utf8, valid_utf8};

verus! {

/// A request head longer than this is given up on.
pub const MAX_REQUEST_BYTES: usize = 16 * 1024;

/// The blank line that ends a request head stands at `i`.
pub open spec fn delimiter_at(bytes: Seq<u8>, i: int) -> bool {
    &&& 0 <= i
    &&& i + 4 <= bytes.len()
    &&& bytes[i] == 13
    &&& bytes[i + 1] == 10
    &&& bytes[i + 2] == 13
    &&& bytes[i + 3] == 10
}

/// The request head ends just before `end`, with its first blank line.
pub open spec fn is_head_end(bytes: Seq<u8>, end: int) -> bool {
    &&& delimiter_at(bytes, end - 4)
    &&& forall|j: int| j < end - 4 ==> !#[trigger] delimiter_at(bytes, j)
}

/// The end of the request head, if it is all there.
pub fn find_head_end(bytes: &[u8]) -> (end: Option<usize>)
    ensures
        match end {
            Some(end) => is_head_end(bytes@, end as int),
            None => forall|j: int| !#[trigger] delimiter_at(bytes@, j),
        },
{
    let mut i: usize = 0;
    while i < bytes.len() && bytes.len() - i >= 4
        invariant
            i <= bytes@.len(),
            forall|j: int| j < i ==> !#[trigger] delimiter_at(bytes@, j),
        decreases bytes@.len() - i,
    {
        if bytes[i] == 13 && bytes[i + 1] == 10 && bytes[i + 2] == 13 && bytes[i + 3] == 10 {
            assert(delimiter_at(bytes@, i as int));
            return Some(i + 4);
        }
        i = i + 1;
    }
    None
}

/// How far a request head has come.
#[derive(Debug, Clone, Copy, PartialEq, Eq, Structural)]
pub enum HeadStatus {
    /// The peer closed the connection first.
    Closed,
    /// More bytes than a request head may have.
    TooLarge,
    /// The blank line is still missing.
    Incomplete,
    /// The head takes up this many bytes.
    Complete(usize),
}

/// A request head that is being read.
#[derive(Debug)]
pub struct RequestHead {
    bytes: Vec<u8>,
}

impl View for RequestHead {
    type V = Seq<u8>;

    /// The bytes read so far.
    closed spec fn view(&self) -> Seq<u8> {
        self.bytes@
    }
}

impl RequestHead {
    pub fn new() -> (head: Self)
        ensures
            head@ == Seq::<u8>::empty(),
    {
        RequestHead { bytes: Vec::new() }
    }

    /// Take in what one read from the connection returned; nothing means that
    /// the peer has closed it.
    pub fn feed(&mut self, chunk: &[u8]) -> (status: HeadStatus)
        ensures
            final(self)@ == old(self)@ + chunk@,
            match status {
                HeadStatus::Closed => chunk@.len() == 0,
                HeadStatus::TooLarge => {
                    &&& chunk@.len() > 0
                    &&& final(self)@.len() > MAX_REQUEST_BYTES
                    &&& final(self)@.len() > 16_384
                },
                HeadStatus::Incomplete => {
                    &&& chunk@.len() > 0
                    &&& final(self)@.len() <= MAX_REQUEST_BYTES
                    &&& forall|j: int| !#[trigger] delimiter_at(final(self)@, j)
                },
                HeadStatus::Complete(end) => {
                    &&& chunk@.len() > 0
                    &&& final(self)@.len() <= MAX_REQUEST_BYTES
                    &&& final(self)@.len() <= 16_384
                    &&& 4 <= end <= final(self)@.len()
                    &&& final(self)@.subrange(end - 4, end as int) == seq![13u8, 10, 13, 10]
                    &&& is_head_end(final(self)@, end as int)
                },
            },
    {
        let ghost before = self.bytes@;
        if chunk.len() == 0 {
            assert(before + chunk@ =~= before);
            return HeadStatus::Closed;
        }
        self.bytes.extend_from_slice(chunk);
        assert(self.bytes@ =~= before + chunk@);
        if self.bytes.len() > MAX_REQUEST_BYTES {
            return HeadStatus::TooLarge;
        }
        match find_head_end(self.bytes.as_slice()) {
            Some(end) => {
                assert(self.bytes@.subrange(end - 4, end as int) =~= seq![13u8, 10, 13, 10]);
                HeadStatus::Complete(end)
            },
            None => HeadStatus::Incomplete,
        }
    }

    /// The bytes of the head itself, for a handshake that reads them again.
    pub fn head_bytes(&self, end: usize) -> (head: Vec<u8>)
        requires
            end <= self@.len(),
        ensures
            head@ == self@.take(end as int),
    {
        let mut head: Vec<u8> = Vec::new();
        head.extend_from_slice(vstd::slice::slice_subrange(self.bytes.as_slice(), 0, end));
        assert(head@ =~= self.bytes@.take(end as int));
        head
    }

    /// The head as text.
    pub fn request(&self, end: usize) -> (request: String)
        requires
            end <= self@.len(),
        ensures
            request@ == text_of(self@.take(end as int)),
            valid_utf8(self@.take(end as int)) ==> request@ == decode_utf8(self@.take(end as int)),
    {
        from_utf8_lossy(self.head_bytes(end).as_slice())
    }
}

/// `c`, or its lower-case form if it is an ASCII capital.
pub open spec fn lower(c: char) -> char {
    if 'A' <= c <= 'Z' {
        (c as u32 + 32) as char
    } else {
        c
    }
}

/// `needle` stands at `i` in `s`, ASCII capitals of `s` taken as lower case.
pub open spec fn occurs_at(s: Seq<char>, needle: Seq<char>, i: int) -> bool {
    &&& 0 <= i
    &&& i + needle.len() <= s.len()
    &&& forall|k: int| 0 <= k < needle.len() ==> lower(#[trigger] s[i + k]) == needle[k]
}

/// `needle` stands somewhere in `s`, ASCII capitals of `s` taken as lower case.
pub open spec fn mentions(s: Seq<char>, needle: Seq<char>) -> bool {
    exists|i: int| occurs_at(s, needle, i)
}

fn lower_char(c: char) -> (l: char)
    ensures
        l == lower(c),
{
    if 'A' <= c && c <= 'Z' {
        (c as u8 + 32) as char
    } else {
        c
    }
}

fn has_at(s: &[char], needle: &[char], i: usize) -> (b: bool)
    requires
        i <= s@.len(),
    ensures
        b == occurs_at(s@, needle@, i as int),
{
    if s.len() - i < needle.len() {
        return false;
    }
    let total: usize = s.len();
    let mut k: usize = 0;
    while k < needle.len()
        invariant
            k <= needle@.len(),
            total == s@.len(),
            i + needle@.len() <= s@.len(),
            forall|j: int| 0 <= j < k ==> lower(#[trigger] s@[i + j]) == needle@[j],
        decreases needle@.len() - k,
    {
        if lower_char(s[i + k]) != needle[k] {
            assert(lower(s@[i + k]) != needle@[k as int]);
            return false;
        }
        k = k + 1;
    }
    true
}

fn has_mention(s: &[char], needle: &str) -> (b: bool)
    ensures
        b == mentions(s@, needle@),
{
    let wanted: Vec<char> = chars_of(needle);
    let mut i: usize = 0;
    while i < s.len()
        invariant
            i <= s@.len(),
            wanted@ == needle@,
            forall|j: int| 0 <= j < i ==> !occurs_at(s@, needle@, j),
        decreases s@.len() - i,
    {
        if has_at(s, wanted.as_slice(), i) {
            return true;
        }
        i = i + 1;
    }
    has_at(s, wanted.as_slice(), i)
}

/// A request asks for a WebSocket: it has the upgrade header and a key.
pub open spec fn wants_websocket(request: Seq<char>) -> bool {
    mentions(request, "upgrade: websocket"@) && mentions(request, "sec-websocket-key:"@)
}

pub fn is_websocket_upgrade(request: &str) -> (b: bool)
    ensures
        b == wants_websocket(request@),
{
    let chars: Vec<char> = chars_of(request);
    has_mention(chars.as_slice(), "upgrade: websocket") && has_mention(
        chars.as_slice(),
        "sec-websocket-key:",
    )
}

/// The characters that Unicode calls white space.
pub open spec fn white_space(c: char) -> bool {
    ||| 0x9 <= c as u32 <= 0xd
    ||| c as u32 == 0x20
    ||| c as u32 == 0x85
    ||| c as u32 == 0xa0
    ||| c as u32 == 0x1680
    ||| 0x2000 <= c as u32 <= 0x200a
    ||| c as u32 == 0x2028
    ||| c as u32 == 0x2029
    ||| c as u32 == 0x202f
    ||| c as u32 == 0x205f
    ||| c as u32 == 0x3000
}

fn is_white_space(c: char) -> (b: bool)
    ensures
        b == white_space(c),
{
    let n: u32 = c as u32;
    (0x9 <= n && n <= 0xd) || n == 0x20 || n == 0x85 || n == 0xa0 || n == 0x1680 || (0x2000 <= n && n
        <= 0x200a) || n == 0x2028 || n == 0x2029 || n == 0x202f || n == 0x205f || n == 0x3000
}

/// `s` without the white space it starts with.
pub open spec fn trim_start(s: Seq<char>) -> Seq<char>
    decreases s.len(),
{
    if s.len() > 0 && white_space(s[0]) {
        trim_start(s.skip(1))
    } else {
        s
    }
}

/// The characters of `s` before its first white space.
pub open spec fn word(s: Seq<char>) -> Seq<char>
    decreases s.len(),
{
    if s.len() > 0 && !white_space(s[0]) {
        seq![s[0]] + word(s.skip(1))
    } else {
        Seq::empty()
    }
}

/// The first line of `s`, without its line ending.
pub open spec fn first_line(s: Seq<char>) -> Seq<char> {
    let line = until(s, '\n');
    if line.len() < s.len() && line.len() > 0 && line.last() == '\r' {
        line.drop_last()
    } else {
        line
    }
}

/// The first word of the request line.
pub open spec fn request_method(request: Seq<char>) -> Seq<char> {
    word(trim_start(first_line(request)))
}

/// The second word of the request line; the root when there is none.
pub open spec fn request_target(request: Seq<char>) -> Seq<char> {
    let line = trim_start(first_line(request));
    let target = word(trim_start(line.skip(word(line).len() as int)));
    if target.len() == 0 {
        seq!['/']
    } else {
        target
    }
}

/// What a request asks for.
#[derive(Debug)]
pub enum Route {
    /// Neither `GET` nor `HEAD`.
    MethodNotAllowed,
    /// The path leads out of the web root.
    NotFound { head_only: bool },
    /// The file reached from the web root through these entries.
    File { relative: Vec<String>, head_only: bool },
}

/// Where a request leads.
pub open spec fn leads_to(request: Seq<char>, route: Route) -> bool {
    let method = request_method(request);
    let found = entries(split(until(request_target(request), '?'), '/'));
    match route {
        Route::MethodNotAllowed => method != "GET"@ && method != "HEAD"@,
        Route::NotFound { head_only } => {
            &&& method == "GET"@ || method == "HEAD"@
            &&& head_only == (method == "HEAD"@)
            &&& found is None
        },
        Route::File { relative, head_only } => {
            &&& method == "GET"@ || method == "HEAD"@
            &&& head_only == (method == "HEAD"@)
            &&& found == Some(texts(relative@))
        },
    }
}

/// The end of the white space that starts at `from`.
fn skip_white_space(s: &[char], from: usize) -> (at: usize)
    requires
        from <= s@.len(),
    ensures
        from <= at <= s@.len(),
        s@.skip(at as int) == trim_start(s@.skip(from as int)),
{
    let mut at: usize = from;
    while at < s.len() && is_white_space(s[at])
        invariant
            from <= at <= s@.len(),
            trim_start(s@.skip(at as int)) == trim_start(s@.skip(from as int)),
        decreases s@.len() - at,
    {
        assert(s@.skip(at as int).skip(1) =~= s@.skip(at + 1));
        at = at + 1;
    }
    at
}

/// The end of the word that starts at `from`.
fn skip_word(s: &[char], from: usize) -> (end: usize)
    requires
        from <= s@.len(),
    ensures
        from <= end <= s@.len(),
        s@.subrange(from as int, end as int) == word(s@.skip(from as int)),
{
    let mut end: usize = from;
    assert(s@.subrange(from as int, from as int) + word(s@.skip(from as int)) =~= word(
        s@.skip(from as int),
    ));
    while end < s.len() && !is_white_space(s[end])
        invariant
            from <= end <= s@.len(),
            s@.subrange(from as int, end as int) + word(s@.skip(end as int)) == word(
                s@.skip(from as int),
            ),
        decreases s@.len() - end,
    {
        proof {
            let rest = s@.skip(end as int);
            assert(rest.skip(1) =~= s@.skip(end + 1));
            assert(s@.subrange(from as int, end + 1) + word(s@.skip(end + 1)) =~= s@.subrange(
                from as int,
                end as int,
            ) + word(rest));
        }
        end = end + 1;
    }
    assert(s@.subrange(from as int, end as int) + Seq::<char>::empty() =~= s@.subrange(
        from as int,
        end as int,
    ));
    end
}

/// The first line of `s`, without its line ending.
fn line_of(s: &[char]) -> (line: Vec<char>)
    ensures
        line@ == first_line(s@),
{
    let end: usize = find_char(s, 0, '\n');
    assert(s@.skip(0) =~= s@);
    let ghost whole = s@.subrange(0, end as int);
    if end < s.len() && end > 0 && s[end - 1] == '\r' {
        let line: Vec<char> = slice_chars(s, 0, end - 1);
        assert(line@ =~= whole.drop_last());
        line
    } else {
        slice_chars(s, 0, end)
    }
}

/// Find out what a request asks for.
pub fn route(request: &str) -> (r: Route)
    ensures
        leads_to(request@, r),
{
    let chars: Vec<char> = chars_of(request);
    let line: Vec<char> = line_of(chars.as_slice());
    let s: &[char] = line.as_slice();
    let method_at: usize = skip_white_space(s, 0);
    let method_end: usize = skip_word(s, method_at);
    let method: Vec<char> = slice_chars(s, method_at, method_end);
    let target_at: usize = skip_white_space(s, method_end);
    let target_end: usize = skip_word(s, target_at);
    let mut target: Vec<char> = slice_chars(s, target_at, target_end);
    proof {
        assert(s@.skip(0) =~= s@);
        assert(s@.skip(method_at as int).skip(method@.len() as int) =~= s@.skip(
            method_end as int,
        ));
    }
    if target.len() == 0 {
        target.push('/');
        assert(target@ =~= seq!['/']);
    }
    assert(target@ == request_target(request@));
    let head_only: bool = spells(method.as_slice(), "HEAD");
    if !spells(method.as_slice(), "GET") && !head_only {
        return Route::MethodNotAllowed;
    }
    let query: usize = find_char(target.as_slice(), 0, '?');
    let path: Vec<char> = slice_chars(target.as_slice(), 0, query);
    assert(target@.skip(0) =~= target@);
    match resolve_web_path(string_of(path.as_slice()).as_str()) {
        Some(relative) => Route::File { relative, head_only },
        None => Route::NotFound { head_only },
    }
}

/// The header of a response.
pub open spec fn response_header(status: Seq<char>, content_type: Seq<char>, len: nat) -> Seq<char> {
    "HTTP/1.1 "@ + status + "\r\nContent-Type: "@ + content_type + "\r\nContent-Length: "@
        + decimal(len) + "\r\nConnection: close\r\n\r\n"@
}

/// A response; `HEAD` requests are answered without the body, under the header
/// that a `GET` gets.
pub open spec fn response(
    status: Seq<char>,
    content_type: Seq<char>,
    body: Seq<u8>,
    head_only: bool,
) -> Seq<u8> {
    let header = encode_utf8(response_header(status, content_type, body.len()));
    if head_only {
        header
    } else {
        header + body
    }
}

/// Write out a response.
pub fn write_response(status: &str, content_type: &str, body: &[u8], head_only: bool) -> (bytes: Vec<
    u8,
>)
    ensures
        bytes@ == response(status@, content_type@, body@, head_only),
        bytes@ == encode_utf8(
            "HTTP/1.1 "@ + status@ + "\r\nContent-Type: "@ + content_type@
                + "\r\nContent-Length: "@ + decimal(body@.len())
                + "\r\nConnection: close\r\n\r\n"@,
        ) + (if head_only {
            Seq::empty()
        } else {
            body@
        }),
{
    let mut header: String = String::from_str("HTTP/1.1 ");
    header.append(status);
    header.append("\r\nContent-Type: ");
    header.append(content_type);
    header.append("\r\nContent-Length: ");
    append_decimal(&mut header, body.len() as u64);
    header.append("\r\nConnection: close\r\n\r\n");
    let mut bytes: Vec<u8> = Vec::new();
    let text: &str = header.as_str();
    bytes.extend_from_slice(text.as_bytes());
    assert(bytes@ =~= encode_utf8(header@));
    if !head_only {
        let ghost before = bytes@;
        bytes.extend_from_slice(body);
        assert(bytes@ =~= before + body@);
    } else {
        assert(bytes@ + Seq::<u8>::empty() =~= bytes@);
    }
    bytes
}

/// The body of a 404 response: `404 Not Found`.
pub open spec fn not_found_body() -> Seq<u8> {
    encode_utf8("404 Not Found"@)
}

/// The response to a request for a file that is not there.
pub fn not_found(head_only: bool) -> (bytes: Vec<u8>)
    ensures
        bytes@ == response("404 Not Found"@, "text/plain"@, not_found_body(), head_only),
{
    let body: &str = "404 Not Found";
    write_response("404 Not Found", "text/plain", body.as_bytes(), head_only)
}

/// The response to a request that is neither `GET` nor `HEAD`.
pub fn method_not_allowed() -> (bytes: Vec<u8>)
    ensures
        bytes@ == response(
            "405 Method Not Allowed"@,
            "text/plain"@,
            encode_utf8("method not allowed"@),
            false,
        ),
{
    let body: &str = "method not allowed";
    write_response("405 Method Not Allowed", "text/plain", body.as_bytes(), false)
}

/// The response that carries a file.
pub fn found(content_type: &str, body: &[u8], head_only: bool) -> (bytes: Vec<u8>)
    ensures
        bytes@ == response("200 OK"@, content_type@, body@, head_only),
{
    write_response("200 OK", content_type, body, head_only)
}

/// The name to look up for a target without a port gets the default one.
pub open spec fn lookup_name(target: Seq<char>) -> Seq<char> {
    if target.contains(':') {
        target
    } else {
        target + ":9000"@
    }
}

/// The name to look up for a `host` or `host:port` target (default port 9000).
pub fn lookup_query(target: &str) -> (query: String)
    ensures
        query@ == lookup_name(target@),
        target@.contains(':') ==> query@ == target@,
        !target@.contains(':') ==> query@ == target@ + ":9000"@,
{
    let chars: Vec<char> = chars_of(target);
    let colon: usize = find_char(chars.as_slice(), 0, ':');
    let mut query: String = String::from_str(target);
    if colon == chars.len() {
        assert(!target@.contains(':'));
        query.append(":9000");
    } else {
        assert(target@[colon as int] == ':');
    }
    query
}

/// A head has one end.
pub proof fn law_head_end_is_unique(bytes: Seq<u8>, a: int, b: int)
    requires
        is_head_end(bytes, a),
        is_head_end(bytes, b),
    ensures
        a == b,
{
}

/// However the head is cut into reads, it ends at the same place: bytes that
/// follow do not move the end.
pub proof fn law_head_end_is_stable(bytes: Seq<u8>, more: Seq<u8>, end: int)
    requires
        is_head_end(bytes, end),
    ensures
        is_head_end(bytes + more, end),
{
    assert forall|j: int| j < end - 4 implies !#[trigger] delimiter_at(bytes + more, j) by {
        if delimiter_at(bytes + more, j) {
            assert(delimiter_at(bytes, j));
        }
    }
}

/// A request leads to one place.
pub proof fn law_route_is_determined(request: Seq<char>, a: Route, b: Route)
    requires
        leads_to(request, a),
        leads_to(request, b),
    ensures
        a is MethodNotAllowed <==> b is MethodNotAllowed,
        a is NotFound <==> b is NotFound,
        a matches Route::NotFound { head_only: x } ==> (b matches Route::NotFound { head_only: y }
            ==> x == y),
        a matches Route::File { relative: p, head_only: x } ==> (b matches Route::File {
            relative: q,
            head_only: y,
        } ==> texts(p@) == texts(q@) && x == y),
{
    reveal_strlit("GET");
    reveal_strlit("HEAD");
    assert("GET"@.len() != "HEAD"@.len());
}

/// Letter case does not matter when a request is recognised as an upgrade.
pub proof fn law_upgrade_ignores_case(a: Seq<char>, b: Seq<char>)
    requires
        a.len() == b.len(),
        forall|i: int| 0 <= i < a.len() ==> lower(#[trigger] a[i]) == lower(b[i]),
    ensures
        wants_websocket(a) == wants_websocket(b),
{
    lemma_mentions_ignores_case(a, b, "upgrade: websocket"@);
    lemma_mentions_ignores_case(b, a, "upgrade: websocket"@);
    lemma_mentions_ignores_case(a, b, "sec-websocket-key:"@);
    lemma_mentions_ignores_case(b, a, "sec-websocket-key:"@);
}

proof fn lemma_mentions_ignores_case(a: Seq<char>, b: Seq<char>, needle: Seq<char>)
    requires
        a.len() == b.len(),
        forall|i: int| 0 <= i < a.len() ==> lower(#[trigger] a[i]) == lower(b[i]),
    ensures
        mentions(a, needle) ==> mentions(b, needle),
{
    if mentions(a, needle) {
        let i = choose|i: int| occurs_at(a, needle, i);
        assert forall|k: int| 0 <= k < needle.len() implies lower(#[trigger] b[i + k]) == needle[k] by {
            assert(lower(a[i + k]) == needle[k]);
        }
        assert(occurs_at(b, needle, i));
    }
}

/// The head ends with the first blank line, wherever that stands.
pub proof fn law_head_ends_with_the_first_blank_line(bytes: Seq<u8>, end: int)
    ensures
        is_head_end(bytes, end) <==> {
            &&& 4 <= end <= bytes.len()
            &&& bytes.subrange(end - 4, end) == seq![13u8, 10, 13, 10]
            &&& forall|j: int|
                4 <= j < end ==> #[trigger] bytes.subrange(j - 4, j) != seq![13u8, 10, 13, 10]
        },
{
    assert forall|j: int| 4 <= j <= bytes.len() implies (delimiter_at(bytes, j - 4)
        <==> #[trigger] bytes.subrange(j - 4, j) == seq![13u8, 10, 13, 10]) by {
        let part = bytes.subrange(j - 4, j);
        assert(part[0] == bytes[j - 4] && part[1] == bytes[j - 3] && part[2] == bytes[j - 2]
            && part[3] == bytes[j - 1]);
        if delimiter_at(bytes, j - 4) {
            assert(part =~= seq![13u8, 10, 13, 10]);
        }
    }
    if is_head_end(bytes, end) {
        assert forall|j: int| 4 <= j < end implies #[trigger] bytes.subrange(j - 4, j) != seq![
            13u8,
            10,
            13,
            10,
        ] by {
            assert(!delimiter_at(bytes, j - 4));
        }
    }
    if 4 <= end <= bytes.len() && bytes.subrange(end - 4, end) == seq![13u8, 10, 13, 10] && (
    forall|j: int|
        4 <= j < end ==> #[trigger] bytes.subrange(j - 4, j) != seq![13u8, 10, 13, 10]) {
        assert forall|i: int| i < end - 4 implies !#[trigger] delimiter_at(bytes, i) by {
            if delimiter_at(bytes, i) {
                assert(bytes.subrange(i + 4 - 4, i + 4) != seq![13u8, 10, 13, 10]);
            }
        }
    }
}

/// Among the ASCII characters, the space and five control characters are white
/// space.
pub proof fn law_ascii_white_space(c: char)
    requires
        c as u32 <= 0x7f,
    ensures
        white_space(c) <==> c == ' ' || c == '\t' || c == '\n' || c == '\r' || c as u32 == 0xb
            || c as u32 == 0xc,
{
    vstd::utf8::char_u32_cast(c, c as u32);
}

/// Words end at white space.
proof fn lemma_word(text: Seq<char>, rest: Seq<char>)
    requires
        forall|i: int| 0 <= i < text.len() ==> '!' <= #[trigger] text[i] <= '~',
        rest.len() > 0 ==> rest[0] == ' ' || rest[0] == '\t',
    ensures
        word(text + rest) == text,
    decreases text.len(),
{
    let all = text + rest;
    if text.len() == 0 {
        assert(all =~= rest);
        assert(word(all) =~= text);
    } else {
        lemma_word(text.skip(1), rest);
        assert(all.skip(1) =~= text.skip(1) + rest);
        assert(all[0] == text[0]);
        assert(seq![text[0]] + text.skip(1) =~= text);
    }
}

/// Spaces and tabs before a word are trimmed, and the word is not.
proof fn lemma_trim(gap: Seq<char>, text: Seq<char>)
    requires
        forall|i: int| 0 <= i < gap.len() ==> #[trigger] gap[i] == ' ' || gap[i] == '\t',
        text.len() > 0 ==> '!' <= text[0] <= '~',
    ensures
        trim_start(gap + text) == text,
    decreases gap.len(),
{
    let all = gap + text;
    if gap.len() == 0 {
        assert(all =~= text);
    } else {
        assert(all[0] == gap[0]);
        lemma_trim(gap.skip(1), text);
        assert(all.skip(1) =~= gap.skip(1) + text);
    }
}

/// A line ends at the end of the text, at a line feed, or at a carriage return
/// and a line feed.
pub open spec fn is_line_end(ending: Seq<char>) -> bool {
    ||| ending.len() == 0
    ||| ending[0] == '\n'
    ||| ending.len() > 1 && ending[0] == '\r' && ending[1] == '\n'
}

/// The first two words of the request line are the method and the target,
/// whatever the words are, whatever spaces and tabs stand around them and whatever
/// follows them. Without a second word the target is the root.
pub proof fn law_request_line(
    lead: Seq<char>,
    method: Seq<char>,
    gap: Seq<char>,
    target: Seq<char>,
    space: Seq<char>,
    version: Seq<char>,
    ending: Seq<char>,
)
    requires
        method.len() > 0,
        gap.len() > 0,
        space.len() > 0,
        target.len() == 0 ==> version.len() == 0,
        forall|i: int| 0 <= i < lead.len() ==> #[trigger] lead[i] == ' ' || lead[i] == '\t',
        forall|i: int| 0 <= i < gap.len() ==> #[trigger] gap[i] == ' ' || gap[i] == '\t',
        forall|i: int| 0 <= i < space.len() ==> #[trigger] space[i] == ' ' || space[i] == '\t',
        forall|i: int| 0 <= i < method.len() ==> '!' <= #[trigger] method[i] <= '~',
        forall|i: int| 0 <= i < target.len() ==> '!' <= #[trigger] target[i] <= '~',
        forall|i: int| 0 <= i < version.len() ==> '!' <= #[trigger] version[i] <= '~',
        is_line_end(ending),
    ensures
        request_method(lead + method + gap + target + space + version + ending) == method,
        target.len() > 0 ==> request_target(
            lead + method + gap + target + space + version + ending,
        ) == target,
        target.len() == 0 ==> request_target(
            lead + method + gap + target + space + version + ending,
        ) == seq!['/'],
{
    let line = lead + method + gap + target + space + version;
    let request = lead + method + gap + target + space + version + ending;
    assert forall|i: int| 0 <= i < line.len() implies line[i] != '\n' && line[i] != '\r' by {
        let a = lead.len() as int;
        let b = a + method.len();
        let c = b + gap.len();
        let d = c + target.len();
        let e = d + space.len();
        if i < a {
            assert(line[i] == lead[i]);
        } else if i < b {
            assert(line[i] == method[i - a]);
        } else if i < c {
            assert(line[i] == gap[i - b]);
        } else if i < d {
            assert(line[i] == target[i - c]);
        } else if i < e {
            assert(line[i] == space[i - d]);
        } else {
            assert(line[i] == version[i - e]);
        }
    }
    lemma_first_line(line, ending);
    let tail = gap + target + space + version;
    let words = method + tail;
    assert(line =~= lead + words);
    assert(words[0] == method[0]);
    lemma_trim(lead, words);
    assert(tail[0] == gap[0]);
    lemma_word(method, tail);
    assert(words.skip(method.len() as int) =~= tail);
    if target.len() > 0 {
        let second = target + (space + version);
        assert(tail =~= gap + second);
        assert(second[0] == target[0]);
        lemma_trim(gap, second);
        assert((space + version)[0] == space[0]);
        lemma_word(target, space + version);
    } else {
        let blank = gap + space;
        assert(tail =~= blank + Seq::<char>::empty());
        assert forall|i: int| 0 <= i < blank.len() implies #[trigger] blank[i] == ' ' || blank[i]
            == '\t' by {
            if i < gap.len() {
                assert(blank[i] == gap[i]);
            } else {
                assert(blank[i] == space[i - gap.len()]);
            }
        }
        lemma_trim(blank, Seq::empty());
    }
}

/// The first line ends before the line ending.
proof fn lemma_first_line(line: Seq<char>, ending: Seq<char>)
    requires
        forall|i: int| 0 <= i < line.len() ==> #[trigger] line[i] != '\n' && line[i] != '\r',
        is_line_end(ending),
    ensures
        first_line(line + ending) == line,
{
    let all = line + ending;
    law_until_stops_at_the_first(all, '\n');
    let head = until(all, '\n');
    let whole = if ending.len() > 1 && ending[0] == '\r' {
        line + seq!['\r']
    } else {
        line
    };
    assert(head =~= whole) by {
        assert forall|i: int| 0 <= i < whole.len() implies whole[i] != '\n' && whole[i] == all[i] by {
            if i < line.len() {
                assert(whole[i] == line[i]);
            }
        }
        if head.len() > whole.len() {
            assert(all[whole.len() as int] == '\n');
            assert(head[whole.len() as int] == all[whole.len() as int]);
            assert(head.contains(head[whole.len() as int]));
        } else if head.len() < whole.len() {
            assert(all[head.len() as int] == '\n');
        }
        assert forall|i: int| 0 <= i < head.len() implies head[i] == whole[i] by {
            assert(head[i] == all[i]);
        }
    }
    if ending.len() > 1 && ending[0] == '\r' {
        assert(whole.drop_last() =~= line);
    } else if line.len() > 0 {
        assert(head.last() == line[line.len() - 1]);
    }
}

/// A `GET` or `HEAD` request for the URL path of ordinary file names, with or
/// without a query, leads to the file that they name below the web root.
pub proof fn law_requests_lead_to_their_files(
    head_only: bool,
    components: Seq<Seq<char>>,
    query: Option<Seq<char>>,
    version: Seq<char>,
    ending: Seq<char>,
    route: Route,
)
    requires
        components.len() > 0,
        forall|i: int| 0 <= i < components.len() ==> ordinary(#[trigger] components[i]),
        forall|i: int, j: int|
            0 <= i < components.len() && 0 <= j < components[i].len() ==> '!'
                <= #[trigger] components[i][j] <= '~' && components[i][j] != '?',
        query matches Some(q) ==> forall|i: int| 0 <= i < q.len() ==> '!' <= #[trigger] q[i] <= '~',
        forall|i: int| 0 <= i < version.len() ==> '!' <= #[trigger] version[i] <= '~',
        is_line_end(ending),
        leads_to(
            Seq::empty() + (if head_only { "HEAD"@ } else { "GET"@ }) + seq![' '] + (slashed(
                components,
            ) + asked(query)) + seq![' '] + version + ending,
            route,
        ),
    ensures
        route matches Route::File { relative, head_only: h } && texts(relative@) == components && h
            == head_only,
{
    let path = slashed(components);
    let target = path + asked(query);
    let method = if head_only { "HEAD"@ } else { "GET"@ };
    reveal_strlit("GET");
    reveal_strlit("HEAD");
    assert("GET"@.len() != "HEAD"@.len());
    lemma_joined_chars(components);
    let names = joined_by(components, '/');
    assert forall|i: int| 0 <= i < path.len() implies '!' <= #[trigger] path[i] <= '~' && path[i]
        != '?' by {
        if i > 0 {
            assert(path[i] == names[i - 1]);
        }
    }
    assert forall|i: int| 0 <= i < target.len() implies '!' <= #[trigger] target[i] <= '~' by {
        if i < path.len() {
            assert(target[i] == path[i]);
        } else if i > path.len() {
            assert(target[i] == query->0[i - path.len() - 1]);
        }
    }
    law_request_line(Seq::empty(), method, seq![' '], target, seq![' '], version, ending);
    assert(until(target, '?') == path) by {
        law_until_stops_at_the_first(target, '?');
        let head = until(target, '?');
        if head.len() < path.len() {
            assert(target[head.len() as int] == path[head.len() as int]);
        } else if head.len() > path.len() {
            assert(head[path.len() as int] == target[path.len() as int]);
            assert(head.contains(head[path.len() as int]));
        }
        assert forall|i: int| 0 <= i < head.len() implies head[i] == path[i] by {
            assert(head[i] == target[i]);
        }
        assert(head =~= path);
    }
    law_url_paths_resolve(components);
}

/// The query of a request target, behind its question mark.
pub open spec fn asked(query: Option<Seq<char>>) -> Seq<char> {
    match query {
        Some(q) => seq!['?'] + q,
        None => Seq::empty(),
    }
}

/// Joined names are made of the characters of the names and of slashes.
proof fn lemma_joined_chars(components: Seq<Seq<char>>)
    requires
        forall|i: int, j: int|
            0 <= i < components.len() && 0 <= j < components[i].len() ==> '!'
                <= #[trigger] components[i][j] <= '~' && components[i][j] != '?',
    ensures
        forall|k: int|
            0 <= k < joined_by(components, '/').len() ==> '!' <= #[trigger] joined_by(
                components,
                '/',
            )[k] <= '~' && joined_by(components, '/')[k] != '?',
    decreases components.len(),
{
    if components.len() > 1 {
        let rest = components.skip(1);
        assert forall|i: int, j: int|
            0 <= i < rest.len() && 0 <= j < rest[i].len() implies '!' <= #[trigger] rest[i][j]
            <= '~' && rest[i][j] != '?' by {
            assert(rest[i] == components[i + 1]);
            assert(rest[i][j] == components[i + 1][j]);
        }
        lemma_joined_chars(rest);
        let all = joined_by(components, '/');
        let first = components[0];
        assert forall|k: int| 0 <= k < all.len() implies '!' <= #[trigger] all[k] <= '~' && all[k]
            != '?' by {
            if k < first.len() {
                assert(all[k] == components[0][k]);
            } else if k > first.len() {
                assert(all[k] == joined_by(rest, '/')[k - first.len() - 1]);
            }
        }
    } else if components.len() == 1 {
        let all = joined_by(components, '/');
        assert forall|k: int| 0 <= k < all.len() implies '!' <= #[trigger] all[k] <= '~' && all[k]
            != '?' by {
            assert(all[k] == components[0][k]);
        }
    }
}

/// A request with any other method is refused, whatever it asks for.
pub proof fn law_other_methods_are_refused(
    method: Seq<char>,
    target: Seq<char>,
    version: Seq<char>,
    ending: Seq<char>,
    route: Route,
)
    requires
        method.len() > 0,
        target.len() > 0,
        method != "GET"@,
        method != "HEAD"@,
        forall|i: int| 0 <= i < method.len() ==> '!' <= #[trigger] method[i] <= '~',
        forall|i: int| 0 <= i < target.len() ==> '!' <= #[trigger] target[i] <= '~',
        forall|i: int| 0 <= i < version.len() ==> '!' <= #[trigger] version[i] <= '~',
        is_line_end(ending),
        leads_to(
            Seq::empty() + method + seq![' '] + target + seq![' '] + version + ending,
            route,
        ),
    ensures
        route is MethodNotAllowed,
{
    law_request_line(Seq::empty(), method, seq![' '], target, seq![' '], version, ending);
}

/// `a` is the lower-case letter or other character `b`, or its capital.
pub open spec fn same_letter(a: char, b: char) -> bool {
    a == b || ('A' <= a <= 'Z' && a as u32 + 32 == b as u32)
}

/// A request is an upgrade exactly when the header and the key stand somewhere
/// in it, in whatever case.
pub proof fn law_upgrade_names_header_and_key(request: Seq<char>)
    ensures
        wants_websocket(request) <==> {
            &&& exists|i: int| #[trigger] spelled_at(request, "upgrade: websocket"@, i)
            &&& exists|i: int| #[trigger] spelled_at(request, "sec-websocket-key:"@, i)
        },
{
    reveal_strlit("upgrade: websocket");
    reveal_strlit("sec-websocket-key:");
    lemma_mentions_spelled(request, "upgrade: websocket"@);
    lemma_mentions_spelled(request, "sec-websocket-key:"@);
}

/// `needle` is spelled at `i`, in whatever case.
pub open spec fn spelled_at(s: Seq<char>, needle: Seq<char>, i: int) -> bool {
    &&& 0 <= i
    &&& i + needle.len() <= s.len()
    &&& forall|k: int| 0 <= k < needle.len() ==> same_letter(s[i + k], #[trigger] needle[k])
}

proof fn lemma_mentions_spelled(s: Seq<char>, needle: Seq<char>)
    requires
        forall|k: int| 0 <= k < needle.len() ==> !('A' <= #[trigger] needle[k] <= 'Z'),
    ensures
        mentions(s, needle) <==> exists|i: int| #[trigger] spelled_at(s, needle, i),
{
    assert forall|i: int| occurs_at(s, needle, i) <==> #[trigger] spelled_at(s, needle, i) by {
        if occurs_at(s, needle, i) {
            assert forall|k: int| 0 <= k < needle.len() implies same_letter(
                s[i + k],
                #[trigger] needle[k],
            ) by {
                assert(lower(s[i + k]) == needle[k]);
                lemma_lower(s[i + k], needle[k]);
            }
        }
        if spelled_at(s, needle, i) {
            assert forall|k: int| 0 <= k < needle.len() implies lower(#[trigger] s[i + k])
                == needle[k] by {
                assert(same_letter(s[i + k], needle[k]));
                lemma_lower(s[i + k], needle[k]);
            }
        }
    }
    if mentions(s, needle) {
        let i = choose|i: int| occurs_at(s, needle, i);
        assert(spelled_at(s, needle, i));
    }
    if exists|i: int| #[trigger] spelled_at(s, needle, i) {
        let i = choose|i: int| #[trigger] spelled_at(s, needle, i);
        assert(occurs_at(s, needle, i));
    }
}

/// Lower-casing makes two spellings of a letter equal, and nothing else.
proof fn lemma_lower(a: char, b: char)
    requires
        !('A' <= b <= 'Z'),
    ensures
        lower(a) == b <==> same_letter(a, b),
{
    vstd::utf8::char_u32_cast(b, b as u32);
    if 'A' <= a <= 'Z' {
        let l = (a as u32 + 32) as u32;
        assert(lower(a) == l as char);
        assert(l as char as u32 == l);
    }
}

/// The response to `HEAD` is the response to `GET` without its body.
pub proof fn law_head_response_lacks_only_the_body(
    status: Seq<char>,
    content_type: Seq<char>,
    body: Seq<u8>,
)
    ensures
        response(status, content_type, body, true) + body == response(
            status,
            content_type,
            body,
            false,
        ),
        response(status, content_type, body, true) == encode_utf8(
            "HTTP/1.1 "@ + status + "\r\nContent-Type: "@ + content_type
                + "\r\nContent-Length: "@ + decimal(body.len())
                + "\r\nConnection: close\r\n\r\n"@,
        ),
{
}

/// A target with a port is looked up as it is, one without gets port 9000.
pub proof fn law_lookup_keeps_a_port(host: Seq<char>, port: Seq<char>)
    requires
        !host.contains(':'),
    ensures
        lookup_name(host + seq![':'] + port) == host + seq![':'] + port,
        lookup_name(host) == host + seq![':', '9', '0', '0', '0'],
{
    let target = host + seq![':'] + port;
    assert(target[host.len() as int] == ':');
    reveal_strlit(":9000");
    assert(":9000"@ =~= seq![':', '9', '0', '0', '0']);
}

/// A request for a path with a step to the parent directory is not found, wherever
/// the step stands.
pub proof fn law_requests_for_parent_directories_are_not_found(
    head_only: bool,
    components: Seq<Seq<char>>,
    at: int,
    version: Seq<char>,
    ending: Seq<char>,
    route: Route,
)
    requires
        0 <= at < components.len(),
        components[at] == seq!['.', '.'],
        forall|i: int, j: int|
            0 <= i < components.len() && 0 <= j < components[i].len() ==> '!'
                <= #[trigger] components[i][j] <= '~' && components[i][j] != '?',
        forall|i: int| 0 <= i < components.len() ==> !(#[trigger] components[i]).contains('/'),
        forall|i: int| 0 <= i < version.len() ==> '!' <= #[trigger] version[i] <= '~',
        is_line_end(ending),
        leads_to(
            Seq::empty() + (if head_only { "HEAD"@ } else { "GET"@ }) + seq![' '] + slashed(
                components,
            ) + seq![' '] + version + ending,
            route,
        ),
    ensures
        route matches Route::NotFound { head_only: h } && h == head_only,
{
    let path = slashed(components);
    let method = if head_only { "HEAD"@ } else { "GET"@ };
    reveal_strlit("GET");
    reveal_strlit("HEAD");
    assert("GET"@.len() != "HEAD"@.len());
    lemma_joined_chars(components);
    let names = joined_by(components, '/');
    assert forall|i: int| 0 <= i < path.len() implies '!' <= #[trigger] path[i] <= '~' && path[i]
        != '?' by {
        if i > 0 {
            assert(path[i] == names[i - 1]);
        }
    }
    law_request_line(Seq::empty(), method, seq![' '], path, seq![' '], version, ending);
    law_until_stops_at_the_first(path, '?');
    let head = until(path, '?');
    assert(head =~= path) by {
        if head.len() < path.len() {
            assert(path[head.len() as int] != '?');
        }
        assert forall|i: int| 0 <= i < head.len() implies head[i] == path[i] by {}
    }
    let none = Seq::<char>::empty();
    law_split_of_two_texts(none, names, '/');
    assert(none + seq!['/'] + names =~= path);
    law_split_undoes_joining(components, '/');
    let parts = split(none, '/') + components;
    assert(parts[split(none, '/').len() + at] == components[at]);
    law_parent_steps_are_refused(parts, split(none, '/').len() + at);
}

/// Outside ASCII, the white space is that of Unicode: the next line and no-break
/// space, and the spaces and separators of the general punctuation and of Ogham
/// and ideographic writing.
pub proof fn law_other_white_space(c: char)
    requires
        c as u32 > 0x7f,
    ensures
        white_space(c) <==> {
            let n = c as u32;
            n == 0x85 || n == 0xa0 || n == 0x1680 || (0x2000 <= n && n <= 0x200a) || n == 0x2028 || n
                == 0x2029 || n == 0x202f || n == 0x205f || n == 0x3000
        },
{
}

} // verus!
