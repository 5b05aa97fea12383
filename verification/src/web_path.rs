//! From URL paths to files of the web root.

use crate::text::{chars_of, find_char, joined_by, law_split_of_two_texts, law_split_undoes_joining, slice_chars, spells, split, split_chars, string_of};
use vstd::prelude::*;
use vstd::utf8::{decode_utf8, encode_scalar, encode_utf8, encode_utf8_decode_utf8, encode_utf8_valid_utf8, is_ascii_chars, is_ascii_chars_encode_utf8, valid_utf8};

verus! {

/// The value of a hexadecimal digit.
pub open spec fn hex_digit(byte: u8) -> Option<u8> {
    if 48 <= byte <= 57 {
        Some((byte - 48) as u8)
    } else if 97 <= byte <= 102 {
        Some((byte - 97 + 10) as u8)
    } else if 65 <= byte <= 70 {
        Some((byte - 65 + 10) as u8)
    } else {
        None
    }
}

pub fn hex_value(byte: u8) -> (v: Option<u8>)
    ensures
        v == hex_digit(byte),
{
    if 48 <= byte && byte <= 57 {
        Some(byte - 48)
    } else if 97 <= byte && byte <= 102 {
        Some(byte - 97 + 10)
    } else if 65 <= byte && byte <= 70 {
        Some(byte - 65 + 10)
    } else {
        None
    }
}

/// Whether `bytes` start with a `%` and two hexadecimal digits.
pub open spec fn starts_with_escape(bytes: Seq<u8>) -> bool {
    &&& bytes.len() >= 3
    &&& bytes[0] == 37
    &&& hex_digit(bytes[1]) is Some
    &&& hex_digit(bytes[2]) is Some
}

/// `bytes` with every escape replaced by the byte it stands for. A `%` that
/// starts no escape stands for itself.
pub open spec fn percent_decoded(bytes: Seq<u8>) -> Seq<u8>
    decreases bytes.len(),
{
    if bytes.len() == 0 {
        Seq::empty()
    } else if starts_with_escape(bytes) {
        seq![(hex_digit(bytes[1])->0 * 16 + hex_digit(bytes[2])->0) as u8] + percent_decoded(
            bytes.skip(3),
        )
    } else {
        seq![bytes[0]] + percent_decoded(bytes.skip(1))
    }
}

/// Replace every escape by the byte it stands for.
pub fn percent_decode_bytes(bytes: &[u8]) -> (out: Vec<u8>)
    ensures
        out@ == percent_decoded(bytes@),
{
    let mut out: Vec<u8> = Vec::new();
    let mut i: usize = 0;
    assert(bytes@.skip(0) =~= bytes@);
    assert(out@ + percent_decoded(bytes@) =~= percent_decoded(bytes@));
    while i < bytes.len()
        invariant
            i <= bytes@.len(),
            out@ + percent_decoded(bytes@.skip(i as int)) == percent_decoded(bytes@),
        decreases bytes@.len() - i,
    {
        let ghost rest = bytes@.skip(i as int);
        let ghost before = out@;
        let left: usize = bytes.len() - i;
        if bytes[i] == 37 && left > 2 {
            if let (Some(hi), Some(lo)) = (hex_value(bytes[i + 1]), hex_value(bytes[i + 2])) {
                assert(starts_with_escape(rest));
                out.push(hi * 16 + lo);
                proof {
                    assert(rest.skip(3) =~= bytes@.skip(i + 3));
                    assert(out@ + percent_decoded(rest.skip(3)) =~= before + percent_decoded(rest));
                }
                i = i + 3;
                continue ;
            }
        }
        assert(!starts_with_escape(rest));
        out.push(bytes[i]);
        proof {
            assert(rest.skip(1) =~= bytes@.skip(i + 1));
            assert(out@ + percent_decoded(rest.skip(1)) =~= before + percent_decoded(rest));
        }
        i = i + 1;
    }
    assert(out@ + Seq::<u8>::empty() =~= out@);
    out
}

/// The text that `String::from_utf8_lossy` makes of `bytes`.
pub uninterp spec fn utf8_lossy(bytes: Seq<u8>) -> Seq<char>;

/// `String::from_utf8_lossy`: the text of `bytes`, with the replacement
/// character in place of what is not valid UTF-8. Valid UTF-8 is taken as it
/// is; where replacements go is not stated.
#[verifier::external_body]
pub(crate) fn from_utf8_lossy(bytes: &[u8]) -> (s: String)
    ensures
        s@ == utf8_lossy(bytes@),
        valid_utf8(bytes@) ==> s@ == decode_utf8(bytes@),
{
    String::from_utf8_lossy(bytes).into_owned()
}

/// The text of `bytes`: what they encode where they are valid UTF-8.
pub open spec fn text_of(bytes: Seq<u8>) -> Seq<char> {
    if valid_utf8(bytes) {
        decode_utf8(bytes)
    } else {
        utf8_lossy(bytes)
    }
}

/// Replace the percent escapes of `input`.
pub fn percent_decode(input: &str) -> (s: String)
    ensures
        s@ == decoded_text(input@),
        valid_utf8(percent_decoded(encode_utf8(input@))) ==> s@ == decode_utf8(
            percent_decoded(encode_utf8(input@)),
        ),
{
    let out: Vec<u8> = percent_decode_bytes(input.as_bytes());
    from_utf8_lossy(out.as_slice())
}

/// A path component with its escapes replaced.
pub open spec fn decoded_text(component: Seq<char>) -> Seq<char> {
    text_of(percent_decoded(encode_utf8(component)))
}

/// A decoded component names an entry of the directory it is looked up in: it
/// holds no separator and is not a step to this or the parent directory.
pub open spec fn names_entry(decoded: Seq<char>) -> bool {
    &&& !decoded.contains('/')
    &&& !decoded.contains('\\')
    &&& decoded != seq!['.', '.']
    &&& decoded != seq!['.']
}

/// Whether a decoded component names an entry of the directory it is looked up
/// in.
pub fn is_entry_name(decoded: &str) -> (b: bool)
    ensures
        b == names_entry(decoded@),
        b == (!decoded@.contains('/') && !decoded@.contains('\\') && decoded@ != seq!['.', '.']
            && decoded@ != seq!['.']),
{
    let chars: Vec<char> = chars_of(decoded);
    let slash: usize = find_char(chars.as_slice(), 0, '/');
    let backslash: usize = find_char(chars.as_slice(), 0, '\\');
    proof {
        reveal_strlit("..");
        reveal_strlit(".");
        assert(".."@ =~= seq!['.', '.']);
        assert("."@ =~= seq!['.']);
    }
    slash == chars.len() && backslash == chars.len() && !spells(chars.as_slice(), "..") && !spells(
        chars.as_slice(),
        ".",
    )
}

/// The entries to walk from the web root for the given path components, unless
/// one of them is refused.
pub open spec fn entries(components: Seq<Seq<char>>) -> Option<Seq<Seq<char>>>
    decreases components.len(),
{
    if components.len() == 0 {
        Some(Seq::empty())
    } else {
        let first = components[0];
        let rest = entries(components.skip(1));
        if first.len() == 0 || first == seq!['.'] {
            rest
        } else if first == seq!['.', '.'] || !names_entry(decoded_text(first)) {
            None
        } else {
            match rest {
                Some(names) => Some(seq![decoded_text(first)] + names),
                None => None,
            }
        }
    }
}

/// The characters of every string.
pub open spec fn texts(strings: Seq<String>) -> Seq<Seq<char>> {
    strings.map_values(|s: String| s@)
}

/// The entries to walk from the web root for a URL path; none for a path that
/// would leave it.
pub fn resolve_web_path(raw_path: &str) -> (relative: Option<Vec<String>>)
    ensures
        match relative {
            Some(names) => entries(split(raw_path@, '/')) == Some(texts(names@)),
            None => entries(split(raw_path@, '/')) is None,
        },
{
    let parts: Vec<Vec<char>> = split_chars(chars_of(raw_path).as_slice(), '/');
    let ghost all = split(raw_path@, '/');
    let ghost view = |p: Vec<char>| p@;
    let mut relative: Vec<String> = Vec::new();
    let mut i: usize = 0;
    proof {
        reveal_strlit("..");
        reveal_strlit(".");
        assert(".."@ =~= seq!['.', '.']);
        assert("."@ =~= seq!['.']);
        assert(all.skip(0) =~= all);
        if let Some(names) = entries(all) {
            assert(texts(relative@) + names =~= names);
        }
    }
    while i < parts.len()
        invariant
            i <= parts@.len(),
            view == (|p: Vec<char>| p@),
            all == parts@.map_values(view),
            all == split(raw_path@, '/'),
            "."@ == seq!['.'],
            ".."@ == seq!['.', '.'],
            entries(all) == prepend(texts(relative@), entries(all.skip(i as int))),
        decreases parts@.len() - i,
    {
        let ghost before = texts(relative@);
        let ghost later = entries(all.skip(i + 1));
        let component: &Vec<char> = &parts[i];
        proof {
            assert(all.skip(i as int)[0] == component@);
            assert(all.skip(i as int).skip(1) =~= all.skip(i + 1));
        }
        if component.len() == 0 || spells(component.as_slice(), ".") {
            assert(entries(all.skip(i as int)) == later);
        } else if spells(component.as_slice(), "..") {
            return None;
        } else {
            let decoded: String = percent_decode(string_of(component.as_slice()).as_str());
            if !is_entry_name(decoded.as_str()) {
                return None;
            }
            relative.push(decoded);
            proof {
                let name = decoded_text(component@);
                assert(texts(relative@) =~= before.push(name));
                if let Some(names) = later {
                    assert(before.push(name) + names =~= before + (seq![name] + names));
                }
            }
        }
        i = i + 1;
    }
    proof {
        assert(all.skip(all.len() as int) =~= Seq::empty());
        assert(texts(relative@) + Seq::<Seq<char>>::empty() =~= texts(relative@));
    }
    Some(relative)
}

spec fn prepend(front: Seq<Seq<char>>, back: Option<Seq<Seq<char>>>) -> Option<Seq<Seq<char>>> {
    match back {
        Some(names) => Some(front + names),
        None => None,
    }
}

/// No path leads out of the web root: every entry that is walked is an entry of
/// the directory reached so far.
pub proof fn law_paths_stay_below_the_root(components: Seq<Seq<char>>, i: int)
    requires
        entries(components) is Some,
        0 <= i < entries(components)->0.len(),
    ensures
        names_entry(entries(components)->0[i]),
    decreases components.len(),
{
    let first = components[0];
    let rest = components.skip(1);
    if first.len() == 0 || first == seq!['.'] {
        law_paths_stay_below_the_root(rest, i);
    } else if i > 0 {
        law_paths_stay_below_the_root(rest, i - 1);
    }
}

/// A path with a step to the parent directory is refused.
pub proof fn law_parent_steps_are_refused(components: Seq<Seq<char>>, i: int)
    requires
        0 <= i < components.len(),
        components[i] == seq!['.', '.'],
    ensures
        entries(components) is None,
    decreases components.len(),
{
    if i > 0 {
        law_parent_steps_are_refused(components.skip(1), i - 1);
    }
}

/// Empty components and steps to the same directory change nothing.
pub proof fn law_idle_components_are_skipped(components: Seq<Seq<char>>, i: int)
    requires
        0 <= i < components.len(),
        components[i].len() == 0 || components[i] == seq!['.'],
    ensures
        entries(components) == entries(components.remove(i)),
    decreases components.len(),
{
    if i == 0 {
        assert(components.remove(0) =~= components.skip(1));
    } else {
        law_idle_components_are_skipped(components.skip(1), i - 1);
        assert(components.remove(i).skip(1) =~= components.skip(1).remove(i - 1));
    }
}

/// Bytes without a `%` are not changed by decoding.
pub proof fn law_plain_bytes_decode_to_themselves(bytes: Seq<u8>)
    requires
        forall|i: int| 0 <= i < bytes.len() ==> bytes[i] != 37,
    ensures
        percent_decoded(bytes) == bytes,
    decreases bytes.len(),
{
    if bytes.len() > 0 {
        law_plain_bytes_decode_to_themselves(bytes.skip(1));
        assert(seq![bytes[0]] + bytes.skip(1) =~= bytes);
    }
}

/// A component of ASCII characters without a `%` names itself.
pub proof fn law_plain_components_name_themselves(component: Seq<char>)
    requires
        is_ascii_chars(component),
        !component.contains('%'),
    ensures
        decoded_text(component) == component,
{
    let bytes = encode_utf8(component);
    is_ascii_chars_encode_utf8(component);
    assert forall|i: int| 0 <= i < bytes.len() implies bytes[i] != 37 by {
        assert(component.contains(component[i]));
        assert(component[i] as u8 == bytes[i]);
    }
    law_plain_bytes_decode_to_themselves(bytes);
    encode_utf8_valid_utf8(component);
    encode_utf8_decode_utf8(component);
}

/// The last component of a path that is not idle; none when that is a step to
/// the parent directory.
pub open spec fn file_name(components: Seq<Seq<char>>) -> Option<Seq<char>>
    decreases components.len(),
{
    if components.len() == 0 {
        None
    } else if components.last().len() == 0 || components.last() == seq!['.'] {
        file_name(components.drop_last())
    } else if components.last() == seq!['.', '.'] {
        None
    } else {
        Some(components.last())
    }
}

/// The characters behind the last dot of a file name, unless the name has no
/// dot or only one at its start.
pub open spec fn extension(name: Seq<char>) -> Option<Seq<char>> {
    let dot = last_dot(name);
    if dot <= 0 {
        None
    } else {
        Some(name.skip(dot + 1))
    }
}

/// The position of the last dot, or -1.
pub open spec fn last_dot(name: Seq<char>) -> int
    decreases name.len(),
{
    if name.len() == 0 {
        -1
    } else if name.last() == '.' {
        name.len() - 1
    } else {
        last_dot(name.drop_last())
    }
}

/// The extension of the file at `path`; empty when it has none.
pub open spec fn path_extension(path: Seq<char>) -> Seq<char> {
    match file_name(split(path, '/')) {
        None => Seq::empty(),
        Some(name) => match extension(name) {
            None => Seq::empty(),
            Some(ext) => ext,
        },
    }
}

/// The media type for a file extension.
pub open spec fn media_type(ext: Seq<char>) -> Seq<char> {
    if ext == "html"@ {
        "text/html; charset=utf-8"@
    } else if ext == "js"@ || ext == "mjs"@ {
        "text/javascript; charset=utf-8"@
    } else if ext == "css"@ {
        "text/css; charset=utf-8"@
    } else if ext == "wasm"@ {
        "application/wasm"@
    } else if ext == "json"@ || ext == "map"@ {
        "application/json"@
    } else if ext == "svg"@ {
        "image/svg+xml"@
    } else if ext == "png"@ {
        "image/png"@
    } else if ext == "jpg"@ || ext == "jpeg"@ {
        "image/jpeg"@
    } else if ext == "ico"@ {
        "image/x-icon"@
    } else if ext == "txt"@ {
        "text/plain; charset=utf-8"@
    } else if ext == "woff2"@ {
        "font/woff2"@
    } else if ext == "webmanifest"@ {
        "application/manifest+json"@
    } else {
        "application/octet-stream"@
    }
}

/// The media type of the file at `path`, by its extension.
pub fn content_type_for(path: &str) -> (t: &'static str)
    ensures
        t@ == media_type(path_extension(path@)),
{
    let ext: Vec<char> = extension_of(path);
    let e: &[char] = ext.as_slice();
    if spells(e, "html") {
        "text/html; charset=utf-8"
    } else if spells(e, "js") || spells(e, "mjs") {
        "text/javascript; charset=utf-8"
    } else if spells(e, "css") {
        "text/css; charset=utf-8"
    } else if spells(e, "wasm") {
        "application/wasm"
    } else if spells(e, "json") || spells(e, "map") {
        "application/json"
    } else if spells(e, "svg") {
        "image/svg+xml"
    } else if spells(e, "png") {
        "image/png"
    } else if spells(e, "jpg") || spells(e, "jpeg") {
        "image/jpeg"
    } else if spells(e, "ico") {
        "image/x-icon"
    } else if spells(e, "txt") {
        "text/plain; charset=utf-8"
    } else if spells(e, "woff2") {
        "font/woff2"
    } else if spells(e, "webmanifest") {
        "application/manifest+json"
    } else {
        "application/octet-stream"
    }
}

/// The extension of the file at `path`; empty when it has none.
fn extension_of(path: &str) -> (ext: Vec<char>)
    ensures
        ext@ == path_extension(path@),
{
    let parts: Vec<Vec<char>> = split_chars(chars_of(path).as_slice(), '/');
    let ghost all = split(path@, '/');
    let ghost view = |p: Vec<char>| p@;
    let mut i: usize = parts.len();
    proof {
        reveal_strlit("..");
        reveal_strlit(".");
        assert(".."@ =~= seq!['.', '.']);
        assert("."@ =~= seq!['.']);
        assert(all.take(all.len() as int) =~= all);
    }
    while i > 0
        invariant
            i <= parts@.len(),
            view == (|p: Vec<char>| p@),
            all == parts@.map_values(view),
            all == split(path@, '/'),
            "."@ == seq!['.'],
            ".."@ == seq!['.', '.'],
            file_name(all.take(i as int)) == file_name(all),
        decreases i,
    {
        let component: &[char] = parts[i - 1].as_slice();
        proof {
            assert(all.take(i as int).last() == component@);
            assert(all.take(i as int).drop_last() =~= all.take(i - 1));
        }
        if component.len() == 0 || spells(component, ".") {
            i = i - 1;
        } else if spells(component, "..") {
            return Vec::new();
        } else {
            return name_extension(component);
        }
    }
    Vec::new()
}

/// The extension of a file name; empty when it has none.
fn name_extension(name: &[char]) -> (ext: Vec<char>)
    ensures
        ext@ == (match extension(name@) {
            None => Seq::empty(),
            Some(e) => e,
        }),
{
    let mut i: usize = name.len();
    assert(name@.take(name@.len() as int) =~= name@);
    while i > 0
        invariant
            i <= name@.len(),
            last_dot(name@.take(i as int)) == last_dot(name@),
        decreases i,
    {
        proof {
            assert(name@.take(i as int).last() == name@[i - 1]);
            assert(name@.take(i as int).drop_last() =~= name@.take(i - 1));
        }
        if name[i - 1] == '.' {
            if i == 1 {
                return Vec::new();
            }
            let ext: Vec<char> = slice_chars(name, i, name.len());
            assert(ext@ =~= name@.skip(i as int));
            return ext;
        }
        i = i - 1;
    }
    Vec::new()
}

/// The hexadecimal digits are the ten digits and six letters of either case.
pub proof fn law_hex_digits(byte: u8)
    ensures
        0x30 <= byte <= 0x39 ==> hex_digit(byte) == Some((byte - 0x30) as u8),
        0x41 <= byte <= 0x46 ==> hex_digit(byte) == Some((byte - 0x41 + 10) as u8),
        0x61 <= byte <= 0x66 ==> hex_digit(byte) == Some((byte - 0x61 + 10) as u8),
        hex_digit(byte) is Some ==> 0x30 <= byte <= 0x39 || 0x41 <= byte <= 0x46 || 0x61 <= byte
            <= 0x66,
{
}

/// The digit for a value below sixteen.
pub open spec fn hex_char(value: int, capital: bool) -> u8 {
    if value < 10 {
        (0x30 + value) as u8
    } else if capital {
        (0x41 + value - 10) as u8
    } else {
        (0x61 + value - 10) as u8
    }
}

/// An escape stands for its byte, whichever byte that is and whatever the case of
/// its digits.
pub proof fn law_escape_stands_for_its_byte(byte: u8, high: bool, low: bool, rest: Seq<u8>)
    ensures
        percent_decoded(
            seq![0x25u8, hex_char(byte as int / 16, high), hex_char(byte as int % 16, low)] + rest,
        ) == seq![byte] + percent_decoded(rest),
{
    let all = seq![0x25u8, hex_char(byte as int / 16, high), hex_char(byte as int % 16, low)]
        + rest;
    assert(all.skip(3) =~= rest);
    assert(starts_with_escape(all));
}

/// A byte that starts no escape stands for itself.
pub proof fn law_other_bytes_stand_for_themselves(byte: u8, rest: Seq<u8>)
    requires
        byte != 0x25 || rest.len() < 2 || !(0x30 <= rest[0] <= 0x39 || 0x41 <= rest[0] <= 0x46
            || 0x61 <= rest[0] <= 0x66) || !(0x30 <= rest[1] <= 0x39 || 0x41 <= rest[1] <= 0x46
            || 0x61 <= rest[1] <= 0x66),
    ensures
        percent_decoded(seq![byte] + rest) == seq![byte] + percent_decoded(rest),
{
    let all = seq![byte] + rest;
    assert(all.skip(1) =~= rest);
    if rest.len() >= 2 {
        assert(all[1] == rest[0] && all[2] == rest[1]);
    }
    assert(!starts_with_escape(all));
}

/// The encoding of text without a `%` holds no byte of one.
proof fn lemma_no_percent(text: Seq<char>)
    requires
        !text.contains('%'),
    ensures
        forall|i: int| 0 <= i < encode_utf8(text).len() ==> encode_utf8(text)[i] != 37,
    decreases text.len(),
{
    if text.len() > 0 {
        let c = text[0] as u32;
        let rest = text.drop_first();
        assert(text.contains(text[0]));
        vstd::utf8::char_u32_cast(text[0], c);
        assert(c != 37);
        assert(!rest.contains('%')) by {
            if rest.contains('%') {
                let i = choose|i: int| 0 <= i < rest.len() && rest[i] == '%';
                assert(text[i + 1] == '%');
            }
        }
        lemma_no_percent(rest);
        let first = encode_scalar(c);
        assert forall|i: int| 0 <= i < first.len() implies first[i] != 37 by {
            assert(c <= 0x7f ==> (c & 0x7f) as u8 == c) by (bit_vector);
            assert(forall|x: u8| (0xC0u8 | x) >= 0x80 && (0xE0u8 | x) >= 0x80 && (0xF0u8 | x)
                >= 0x80 && (0x80u8 | x) >= 0x80) by (bit_vector);
        }
        let all = encode_utf8(text);
        assert(all == first + encode_utf8(rest));
        assert forall|i: int| 0 <= i < all.len() implies all[i] != 37 by {
            if i >= first.len() {
                assert(all[i] == encode_utf8(rest)[i - first.len()]);
            }
        }
    }
}

/// A component without a `%` names itself, whatever characters it is made of.
pub proof fn law_unescaped_components_name_themselves(component: Seq<char>)
    requires
        !component.contains('%'),
    ensures
        decoded_text(component) == component,
{
    lemma_no_percent(component);
    law_plain_bytes_decode_to_themselves(encode_utf8(component));
    encode_utf8_valid_utf8(component);
    encode_utf8_decode_utf8(component);
}

/// A file name as it may stand in a path: not empty, without separators and
/// escapes, and no step to this or the parent directory.
pub open spec fn ordinary(name: Seq<char>) -> bool {
    &&& name.len() > 0
    &&& !name.contains('/')
    &&& !name.contains('\\')
    &&& !name.contains('%')
    &&& !(name.len() == 1 && name[0] == '.')
    &&& !(name.len() == 2 && name[0] == '.' && name[1] == '.')
}

/// Every path of ordinary names resolves, and to exactly these names.
pub proof fn law_ordinary_paths_resolve(components: Seq<Seq<char>>)
    requires
        forall|i: int|
            0 <= i < components.len() ==> {
                let name = #[trigger] components[i];
                &&& name.len() > 0
                &&& !name.contains('/')
                &&& !name.contains('\\')
                &&& !name.contains('%')
                &&& !(name.len() == 1 && name[0] == '.')
                &&& !(name.len() == 2 && name[0] == '.' && name[1] == '.')
            },
    ensures
        entries(components) == Some(components),
    decreases components.len(),
{
    if components.len() == 0 {
        assert(components =~= Seq::empty());
    } else {
        let first = components[0];
        let rest = components.skip(1);
        assert forall|i: int| 0 <= i < rest.len() implies ordinary(#[trigger] rest[i]) by {
            assert(rest[i] == components[i + 1]);
        }
        law_ordinary_paths_resolve(rest);
        law_unescaped_components_name_themselves(first);
        assert(seq![first] + rest =~= components);
    }
}

/// Whatever a path looks like, every name that it resolves to is one of an entry
/// of the directory reached so far: it holds no separator and is no step to this
/// or the parent directory.
pub proof fn law_resolved_names_hold_no_steps(components: Seq<Seq<char>>, i: int)
    requires
        entries(components) is Some,
        0 <= i < entries(components)->0.len(),
    ensures
        ({
            let name = entries(components)->0[i];
            &&& !name.contains('/')
            &&& !name.contains('\\')
            &&& name != seq!['.']
            &&& name != seq!['.', '.']
        }),
{
    law_paths_stay_below_the_root(components, i);
}

/// A URL path: every component behind a slash.
pub open spec fn slashed(components: Seq<Seq<char>>) -> Seq<char> {
    seq!['/'] + joined_by(components, '/')
}

/// The URL path of ordinary names resolves to these names.
pub proof fn law_url_paths_resolve(components: Seq<Seq<char>>)
    requires
        components.len() > 0,
        forall|i: int| 0 <= i < components.len() ==> ordinary(#[trigger] components[i]),
    ensures
        entries(split(slashed(components), '/')) == Some(components),
{
    let none = Seq::<char>::empty();
    law_split_of_two_texts(none, joined_by(components, '/'), '/');
    assert(none + seq!['/'] + joined_by(components, '/') =~= slashed(components));
    law_split_undoes_joining(components, '/');
    law_split_undoes_joining(seq![none], '/');
    assert(joined_by(seq![none], '/') =~= none);
    let parts = seq![none] + components;
    assert(split(slashed(components), '/') =~= parts);
    assert(parts.skip(1) =~= components);
    law_ordinary_paths_resolve(components);
}

/// The extension of a file is what stands behind the last dot of its name, in
/// whatever directory the file is.
pub proof fn law_extension_is_behind_the_last_dot(
    directory: Seq<char>,
    stem: Seq<char>,
    ext: Seq<char>,
)
    requires
        stem.len() > 0,
        ext.len() > 0,
        !stem.contains('/'),
        !ext.contains('/'),
        !ext.contains('.'),
    ensures
        path_extension(stem + seq!['.'] + ext) == ext,
        path_extension(directory + seq!['/'] + (stem + seq!['.'] + ext)) == ext,
{
    let name = stem + seq!['.'] + ext;
    assert(!name.contains('/')) by {
        if name.contains('/') {
            let i = choose|i: int| 0 <= i < name.len() && name[i] == '/';
            if i < stem.len() {
                assert(stem[i] == '/');
            } else if i > stem.len() {
                assert(ext[i - stem.len() - 1] == '/');
            }
        }
    }
    lemma_last_dot(stem, ext);
    assert(name.skip(stem.len() as int + 1) =~= ext);
    assert(ext[0] != '.') by {
        assert(ext.contains(ext[0]));
    }
    if name.len() == 2 {
        assert(name[1] == ext[0]) by {
            assert(stem.len() >= 1);
        }
    }
    lemma_file_name(directory, name);
}

/// A name without a dot has no extension, and neither has one whose only dot is
/// its first character.
pub proof fn law_no_extension_without_a_dot(directory: Seq<char>, name: Seq<char>)
    requires
        name.len() > 0,
        name != seq!['.'],
        !name.contains('/'),
        !name.skip(1).contains('.'),
    ensures
        path_extension(name) == Seq::<char>::empty(),
        path_extension(directory + seq!['/'] + name) == Seq::<char>::empty(),
{
    assert(name != seq!['.', '.']) by {
        if name == seq!['.', '.'] {
            assert(name.skip(1)[0] == '.');
        }
    }
    lemma_low_dot(name);
    lemma_file_name(directory, name);
}

/// The name behind the last slash is the file name.
proof fn lemma_file_name(directory: Seq<char>, name: Seq<char>)
    requires
        name.len() > 0,
        !name.contains('/'),
        name != seq!['.'],
        name != seq!['.', '.'],
    ensures
        file_name(split(name, '/')) == Some(name),
        file_name(split(directory + seq!['/'] + name, '/')) == Some(name),
{
    law_split_undoes_joining(seq![name], '/');
    assert(joined_by(seq![name], '/') == name);
    law_split_of_two_texts(directory, name, '/');
    let parts = split(directory, '/') + seq![name];
    assert(parts.last() == name);
}

/// The last dot of a name is the one before its extension.
proof fn lemma_last_dot(stem: Seq<char>, ext: Seq<char>)
    requires
        !ext.contains('.'),
    ensures
        last_dot(stem + seq!['.'] + ext) == stem.len(),
    decreases ext.len(),
{
    let name = stem + seq!['.'] + ext;
    if ext.len() > 0 {
        assert(ext.contains(ext.last()));
        assert(!ext.drop_last().contains('.')) by {
            if ext.drop_last().contains('.') {
                let i = choose|i: int| 0 <= i < ext.drop_last().len() && ext.drop_last()[i] == '.';
                assert(ext[i] == '.');
            }
        }
        lemma_last_dot(stem, ext.drop_last());
        assert(name.drop_last() =~= stem + seq!['.'] + ext.drop_last());
    }
}

/// A name without a dot behind its first character has its last dot there, if
/// anywhere.
proof fn lemma_low_dot(name: Seq<char>)
    requires
        name.len() > 0,
        !name.skip(1).contains('.'),
    ensures
        last_dot(name) <= 0,
    decreases name.len(),
{
    if name.len() > 1 {
        let tail = name.skip(1);
        assert(tail.contains(tail.last()));
        assert(tail.last() == name.last());
        let shorter = name.drop_last();
        assert(!shorter.skip(1).contains('.')) by {
            if shorter.skip(1).contains('.') {
                let i = choose|i: int| 0 <= i < shorter.skip(1).len() && shorter.skip(1)[i] == '.';
                assert(tail[i] == '.');
            }
        }
        lemma_low_dot(shorter);
    } else {
        assert(name.drop_last() =~= Seq::empty());
        assert(last_dot(name.drop_last()) == -1);
    }
}

/// Each extension has its media type, and any other one that of plain bytes.
pub proof fn law_media_types(ext: Seq<char>)
    ensures
        ext == "html"@ ==> media_type(ext) == "text/html; charset=utf-8"@,
        ext == "js"@ ==> media_type(ext) == "text/javascript; charset=utf-8"@,
        ext == "mjs"@ ==> media_type(ext) == "text/javascript; charset=utf-8"@,
        ext == "css"@ ==> media_type(ext) == "text/css; charset=utf-8"@,
        ext == "wasm"@ ==> media_type(ext) == "application/wasm"@,
        ext == "json"@ ==> media_type(ext) == "application/json"@,
        ext == "map"@ ==> media_type(ext) == "application/json"@,
        ext == "svg"@ ==> media_type(ext) == "image/svg+xml"@,
        ext == "png"@ ==> media_type(ext) == "image/png"@,
        ext == "jpg"@ ==> media_type(ext) == "image/jpeg"@,
        ext == "jpeg"@ ==> media_type(ext) == "image/jpeg"@,
        ext == "ico"@ ==> media_type(ext) == "image/x-icon"@,
        ext == "txt"@ ==> media_type(ext) == "text/plain; charset=utf-8"@,
        ext == "woff2"@ ==> media_type(ext) == "font/woff2"@,
        ext == "webmanifest"@ ==> media_type(ext) == "application/manifest+json"@,
        ext != "html"@ && ext != "js"@ && ext != "mjs"@ && ext != "css"@ && ext != "wasm"@ && ext != "json"@ && ext != "map"@ && ext != "svg"@ && ext != "png"@ && ext != "jpg"@ && ext != "jpeg"@ && ext != "ico"@ && ext != "txt"@ && ext != "woff2"@ && ext != "webmanifest"@ ==> media_type(ext) == "application/octet-stream"@,
{
    reveal_strlit("html");
    reveal_strlit("js");
    reveal_strlit("mjs");
    reveal_strlit("css");
    reveal_strlit("wasm");
    reveal_strlit("json");
    reveal_strlit("map");
    reveal_strlit("svg");
    reveal_strlit("png");
    reveal_strlit("jpg");
    reveal_strlit("jpeg");
    reveal_strlit("ico");
    reveal_strlit("txt");
    reveal_strlit("woff2");
    reveal_strlit("webmanifest");
    assert(ext == "html"@ ==> ext.len() == 4 && ext[0] == 'h' && ext[1] == 't' && ext[2] == 'm' && ext[3] == 'l');
    assert(ext == "js"@ ==> ext.len() == 2 && ext[0] == 'j' && ext[1] == 's');
    assert(ext == "mjs"@ ==> ext.len() == 3 && ext[0] == 'm' && ext[1] == 'j' && ext[2] == 's');
    assert(ext == "css"@ ==> ext.len() == 3 && ext[0] == 'c' && ext[1] == 's' && ext[2] == 's');
    assert(ext == "wasm"@ ==> ext.len() == 4 && ext[0] == 'w' && ext[1] == 'a' && ext[2] == 's' && ext[3] == 'm');
    assert(ext == "json"@ ==> ext.len() == 4 && ext[0] == 'j' && ext[1] == 's' && ext[2] == 'o' && ext[3] == 'n');
    assert(ext == "map"@ ==> ext.len() == 3 && ext[0] == 'm' && ext[1] == 'a' && ext[2] == 'p');
    assert(ext == "svg"@ ==> ext.len() == 3 && ext[0] == 's' && ext[1] == 'v' && ext[2] == 'g');
    assert(ext == "png"@ ==> ext.len() == 3 && ext[0] == 'p' && ext[1] == 'n' && ext[2] == 'g');
    assert(ext == "jpg"@ ==> ext.len() == 3 && ext[0] == 'j' && ext[1] == 'p' && ext[2] == 'g');
    assert(ext == "jpeg"@ ==> ext.len() == 4 && ext[0] == 'j' && ext[1] == 'p' && ext[2] == 'e' && ext[3] == 'g');
    assert(ext == "ico"@ ==> ext.len() == 3 && ext[0] == 'i' && ext[1] == 'c' && ext[2] == 'o');
    assert(ext == "txt"@ ==> ext.len() == 3 && ext[0] == 't' && ext[1] == 'x' && ext[2] == 't');
    assert(ext == "woff2"@ ==> ext.len() == 5 && ext[0] == 'w' && ext[1] == 'o' && ext[2] == 'f' && ext[3] == 'f' && ext[4] == '2');
    assert(ext == "webmanifest"@ ==> ext.len() == 11 && ext[0] == 'w' && ext[1] == 'e' && ext[2] == 'b' && ext[3] == 'm' && ext[4] == 'a' && ext[5] == 'n' && ext[6] == 'i' && ext[7] == 'f' && ext[8] == 'e' && ext[9] == 's' && ext[10] == 't');
}

/// The texts of strings are those of each of them.
pub proof fn law_texts(strings: Seq<String>, i: int)
    requires
        0 <= i < strings.len(),
    ensures
        texts(strings).len() == strings.len(),
        texts(strings)[i] == strings[i]@,
{
}

/// Every path whose components decode to usable names resolves to these names,
/// escaped or not.
pub proof fn law_decoded_names_resolve(components: Seq<Seq<char>>, names: Seq<Seq<char>>)
    requires
        components.len() == names.len(),
        forall|i: int|
            0 <= i < components.len() ==> {
                let c = #[trigger] components[i];
                let bytes = percent_decoded(encode_utf8(c));
                &&& c.len() > 0
                &&& c != seq!['.']
                &&& c != seq!['.', '.']
                &&& valid_utf8(bytes)
                &&& decode_utf8(bytes) == names[i]
                &&& !names[i].contains('/')
                &&& !names[i].contains('\\')
                &&& names[i] != seq!['.']
                &&& names[i] != seq!['.', '.']
            },
    ensures
        entries(components) == Some(names),
    decreases components.len(),
{
    if components.len() == 0 {
        assert(names =~= Seq::empty());
    } else {
        let first = components[0];
        let rest = components.skip(1);
        let others = names.skip(1);
        assert forall|i: int| 0 <= i < rest.len() implies {
            let c = #[trigger] rest[i];
            let bytes = percent_decoded(encode_utf8(c));
            &&& c.len() > 0
            &&& c != seq!['.']
            &&& c != seq!['.', '.']
            &&& valid_utf8(bytes)
            &&& decode_utf8(bytes) == others[i]
            &&& !others[i].contains('/')
            &&& !others[i].contains('\\')
            &&& others[i] != seq!['.']
            &&& others[i] != seq!['.', '.']
        } by {
            assert(rest[i] == components[i + 1] && others[i] == names[i + 1]);
        }
        law_decoded_names_resolve(rest, others);
        assert(seq![names[0]] + others =~= names);
    }
}

/// One component that decodes to a separator or a step makes the whole path
/// refused, wherever it stands.
pub proof fn law_decoded_steps_are_refused(components: Seq<Seq<char>>, i: int)
    requires
        0 <= i < components.len(),
        components[i].len() > 0,
        components[i] != seq!['.'],
        ({
            let bytes = percent_decoded(encode_utf8(components[i]));
            let name = decode_utf8(bytes);
            &&& valid_utf8(bytes)
            &&& name.contains('/') || name.contains('\\') || name == seq!['.'] || name == seq![
                '.',
                '.',
            ]
        }),
    ensures
        entries(components) is None,
    decreases components.len(),
{
    if i > 0 {
        law_decoded_steps_are_refused(components.skip(1), i - 1);
    }
}

/// A slash or a step to the same directory at the end of a path does not change
/// the file that it names; a step to the parent directory names none.
pub proof fn law_file_names_ignore_idle_ends(components: Seq<Seq<char>>)
    ensures
        file_name(components.push(Seq::empty())) == file_name(components),
        file_name(components.push(seq!['.'])) == file_name(components),
        file_name(components.push(seq!['.', '.'])) is None,
        file_name(Seq::empty()) is None,
{
    assert(components.push(Seq::empty()).drop_last() =~= components);
    assert(components.push(seq!['.']).drop_last() =~= components);
}

} // verus!
