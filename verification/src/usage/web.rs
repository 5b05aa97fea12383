//! Calls about requests and responses.

use crate::http::{asked, found, is_line_end, is_websocket_upgrade, law_head_ends_with_the_first_blank_line, law_other_methods_are_refused, law_requests_for_parent_directories_are_not_found, law_requests_lead_to_their_files, law_upgrade_names_header_and_key, lookup_query, method_not_allowed, not_found, route, spelled_at, write_response, HeadStatus, RequestHead, Route};
use crate::text::decimal;
use crate::web_path::{content_type_for, law_extension_is_behind_the_last_dot, law_media_types, law_url_paths_resolve, ordinary, resolve_web_path, slashed, texts};
use vstd::prelude::*;
use vstd::utf8::encode_utf8;

verus! {

/// The URL path of ordinary file names resolves to these names.
pub proof fn law_resolving_paths(components: Seq<Seq<char>>, path: &str, relative: Option<Vec<String>>)
    requires
        call_ensures(resolve_web_path, (path,), relative),
        components.len() > 0,
        path@ == slashed(components),
        forall|i: int|
            0 <= i < components.len() ==> {
                let name = #[trigger] components[i];
                &&& name.len() > 0
                &&& !name.contains('/')
                &&& !name.contains('\\')
                &&& !name.contains('%')
                &&& !(name.len() == 1 && name[0] == '.')
                &&& !(name.len() == 2 && name[0] == '.' && name[1] == '.')
            },
    ensures
        relative matches Some(names) && texts(names@) == components,
{
    assert forall|i: int| 0 <= i < components.len() implies ordinary(#[trigger] components[i]) by {}
    law_url_paths_resolve(components);
}

/// A request for a file below the web root leads to it, with or without a query,
/// and a request for its header alone leads there too.
pub proof fn law_routing_files(
    head_only: bool,
    components: Seq<Seq<char>>,
    query: Option<Seq<char>>,
    version: Seq<char>,
    ending: Seq<char>,
    request: &str,
    r: Route,
)
    requires
        call_ensures(route, (request,), r),
        components.len() > 0,
        forall|i: int| 0 <= i < components.len() ==> ordinary(#[trigger] components[i]),
        forall|i: int, j: int|
            0 <= i < components.len() && 0 <= j < components[i].len() ==> '!'
                <= #[trigger] components[i][j] <= '~' && components[i][j] != '?',
        query matches Some(q) ==> forall|i: int| 0 <= i < q.len() ==> '!' <= #[trigger] q[i] <= '~',
        forall|i: int| 0 <= i < version.len() ==> '!' <= #[trigger] version[i] <= '~',
        is_line_end(ending),
        request@ == Seq::empty() + (if head_only { "HEAD"@ } else { "GET"@ }) + seq![' '] + (slashed(
            components,
        ) + asked(query)) + seq![' '] + version + ending,
    ensures
        r matches Route::File { relative, head_only: h } && texts(relative@) == components && h
            == head_only,
{
    law_requests_lead_to_their_files(head_only, components, query, version, ending, r);
}

/// A request out of the web root is not found, and one with another method is
/// refused.
pub proof fn law_routing_the_rest(
    method: Seq<char>,
    target: Seq<char>,
    components: Seq<Seq<char>>,
    at: int,
    version: Seq<char>,
    ending: Seq<char>,
    outward: &str,
    lost: Route,
    odd: &str,
    refused: Route,
)
    requires
        call_ensures(route, (outward,), lost),
        call_ensures(route, (odd,), refused),
        0 <= at < components.len(),
        components[at] == seq!['.', '.'],
        forall|i: int, j: int|
            0 <= i < components.len() && 0 <= j < components[i].len() ==> '!'
                <= #[trigger] components[i][j] <= '~' && components[i][j] != '?',
        forall|i: int| 0 <= i < components.len() ==> !(#[trigger] components[i]).contains('/'),
        method.len() > 0,
        target.len() > 0,
        method != "GET"@,
        method != "HEAD"@,
        forall|i: int| 0 <= i < method.len() ==> '!' <= #[trigger] method[i] <= '~',
        forall|i: int| 0 <= i < target.len() ==> '!' <= #[trigger] target[i] <= '~',
        forall|i: int| 0 <= i < version.len() ==> '!' <= #[trigger] version[i] <= '~',
        is_line_end(ending),
        outward@ == Seq::empty() + "GET"@ + seq![' '] + slashed(components) + seq![' '] + version
            + ending,
        odd@ == Seq::empty() + method + seq![' '] + target + seq![' '] + version + ending,
    ensures
        lost matches Route::NotFound { head_only } && !head_only,
        refused is MethodNotAllowed,
{
    law_requests_for_parent_directories_are_not_found(
        false,
        components,
        at,
        version,
        ending,
        lost,
    );
    law_other_methods_are_refused(method, target, version, ending, refused);
}

/// The type of a file goes by its extension, wherever the file is.
pub proof fn law_typing_files(
    directory: Seq<char>,
    stem: Seq<char>,
    ext: Seq<char>,
    path: &str,
    t: &'static str,
)
    requires
        call_ensures(content_type_for, (path,), t),
        path@ == directory + seq!['/'] + (stem + seq!['.'] + ext),
        stem.len() > 0,
        ext.len() > 0,
        !stem.contains('/'),
        !ext.contains('/'),
        !ext.contains('.'),
    ensures
        ext == "html"@ ==> t@ == "text/html; charset=utf-8"@,
        ext == "js"@ || ext == "mjs"@ ==> t@ == "text/javascript; charset=utf-8"@,
        ext == "css"@ ==> t@ == "text/css; charset=utf-8"@,
        ext == "wasm"@ ==> t@ == "application/wasm"@,
        ext == "json"@ || ext == "map"@ ==> t@ == "application/json"@,
        ext == "svg"@ ==> t@ == "image/svg+xml"@,
        ext == "png"@ ==> t@ == "image/png"@,
        ext == "jpg"@ || ext == "jpeg"@ ==> t@ == "image/jpeg"@,
        ext == "ico"@ ==> t@ == "image/x-icon"@,
        ext == "txt"@ ==> t@ == "text/plain; charset=utf-8"@,
        ext == "woff2"@ ==> t@ == "font/woff2"@,
        ext == "webmanifest"@ ==> t@ == "application/manifest+json"@,
{
    law_extension_is_behind_the_last_dot(directory, stem, ext);
    law_media_types(ext);
}

/// A request asks for a WebSocket exactly when the header and the key stand
/// somewhere in it, in whatever case.
pub proof fn law_recognising_upgrades(request: &str, b: bool)
    requires
        call_ensures(is_websocket_upgrade, (request,), b),
    ensures
        b <==> (exists|i: int| #[trigger] spelled_at(request@, "upgrade: websocket"@, i)) && (exists|
            i: int,
        | #[trigger]
            spelled_at(request@, "sec-websocket-key:"@, i)),
{
    law_upgrade_names_header_and_key(request@);
}

/// A request head is complete with its first blank line, given up on above 16 KiB,
/// and cut off by an empty read.
pub proof fn law_reading_heads(head: &mut RequestHead, chunk: &[u8], status: HeadStatus)
    requires
        call_ensures(RequestHead::feed, (head, chunk), status),
    ensures
        final(head)@ == old(head)@ + chunk@,
        status is Closed <==> chunk@.len() == 0,
        status is TooLarge <==> chunk@.len() > 0 && final(head)@.len() > 16_384,
        status matches HeadStatus::Complete(end) ==> {
            &&& 4 <= end <= final(head)@.len()
            &&& final(head)@.subrange(end - 4, end as int) == seq![13u8, 10, 13, 10]
            &&& forall|j: int|
                4 <= j < end ==> #[trigger] final(head)@.subrange(j - 4, j) != seq![13u8, 10, 13, 10]
        },
        status is Incomplete ==> forall|j: int|
            4 <= j <= final(head)@.len() ==> #[trigger] final(head)@.subrange(j - 4, j) != seq![
                13u8,
                10,
                13,
                10,
            ],
{
    let bytes = final(head)@;
    if let HeadStatus::Complete(end) = status {
        law_head_ends_with_the_first_blank_line(bytes, end as int);
    }
    if status is Incomplete {
        assert forall|j: int| 4 <= j <= bytes.len() implies #[trigger] bytes.subrange(j - 4, j)
            != seq![13u8, 10, 13, 10] by {
            let part = bytes.subrange(j - 4, j);
            assert(part[0] == bytes[j - 4] && part[1] == bytes[j - 3] && part[2] == bytes[j - 2]
                && part[3] == bytes[j - 1]);
            assert(!crate::http::delimiter_at(bytes, j - 4));
        }
    }
}

/// A response states its status, its type and its length, and `HEAD` gets all but
/// the body.
pub proof fn law_responding(
    status: &str,
    content_type: &str,
    body: &[u8],
    full: Vec<u8>,
    header: Vec<u8>,
)
    requires
        call_ensures(write_response, (status, content_type, body, false), full),
        call_ensures(write_response, (status, content_type, body, true), header),
    ensures
        full@ == header@ + body@,
        header@ == encode_utf8(
            "HTTP/1.1 "@ + status@ + "\r\nContent-Type: "@ + content_type@
                + "\r\nContent-Length: "@ + decimal(body@.len())
                + "\r\nConnection: close\r\n\r\n"@,
        ),
{
    assert(header@ =~= encode_utf8(
        "HTTP/1.1 "@ + status@ + "\r\nContent-Type: "@ + content_type@ + "\r\nContent-Length: "@
            + decimal(body@.len()) + "\r\nConnection: close\r\n\r\n"@,
    ));
}

/// A file is sent with status 200, a missing one is answered with 404 and a wrong
/// method with 405; to `HEAD`, each without the body.
pub proof fn law_answers(
    content_type: &str,
    body: &[u8],
    ok: Vec<u8>,
    missing: Vec<u8>,
    missing_head: Vec<u8>,
    wrong: Vec<u8>,
)
    requires
        call_ensures(found, (content_type, body, false), ok),
        call_ensures(not_found, (false,), missing),
        call_ensures(not_found, (true,), missing_head),
        call_ensures(method_not_allowed, (), wrong),
    ensures
        ok@ == encode_utf8(
            "HTTP/1.1 "@ + "200 OK"@ + "\r\nContent-Type: "@ + content_type@
                + "\r\nContent-Length: "@ + decimal(body@.len())
                + "\r\nConnection: close\r\n\r\n"@,
        ) + body@,
        missing@ == missing_head@ + encode_utf8("404 Not Found"@),
        missing_head@ == encode_utf8(
            "HTTP/1.1 "@ + "404 Not Found"@ + "\r\nContent-Type: "@ + "text/plain"@
                + "\r\nContent-Length: "@ + decimal(encode_utf8("404 Not Found"@).len())
                + "\r\nConnection: close\r\n\r\n"@,
        ),
        wrong@ == encode_utf8(
            "HTTP/1.1 "@ + "405 Method Not Allowed"@ + "\r\nContent-Type: "@ + "text/plain"@
                + "\r\nContent-Length: "@ + decimal(encode_utf8("method not allowed"@).len())
                + "\r\nConnection: close\r\n\r\n"@,
        ) + encode_utf8("method not allowed"@),
{
}

/// A target is looked up with its own port, or with port 9000.
pub proof fn law_looking_up(target: &str, query: String)
    requires
        call_ensures(lookup_query, (target,), query),
    ensures
        target@.contains(':') ==> query@ == target@,
        !target@.contains(':') ==> query@ == target@ + seq![':', '9', '0', '0', '0'],
{
    reveal_strlit(":9000");
    assert(":9000"@ =~= seq![':', '9', '0', '0', '0']);
}

} // verus!
