//! Paths as text: percent-decoding of a request target, joining it onto the
//! server root, and the parts of a path (its last segment, its extension)
//! that later stages read.
//!
//! A path is a string with `/` between its segments.  Joining is textual:
//! nothing here looks for `..`, so a target may name a place outside the root.

use vstd::prelude::*;
use vstd::utf8::encode_utf8;
use vstd::utf8::encode_utf8_decode_utf8;
use vstd::utf8::encode_utf8_valid_utf8;
use vstd::utf8::is_ascii_chars;
use vstd::utf8::is_ascii_chars_encode_utf8;
use crate::text::last_index_before;
use crate::text::last_index_of;
use crate::text::lossy_text;
use crate::text::to_chars;

verus! {

/// The value of an ASCII hexadecimal digit, in either case.
pub open spec fn hex_value(b: u8) -> Option<u8> {
    if 0x30 <= b <= 0x39 {
        Some((b - 0x30) as u8)
    } else if 0x41 <= b <= 0x46 {
        Some((b - 0x41 + 10) as u8)
    } else if 0x61 <= b <= 0x66 {
        Some((b - 0x61 + 10) as u8)
    } else {
        None
    }
}

/// Whether `bytes` begins with a `%` and two hexadecimal digits.
pub open spec fn starts_with_escape(bytes: Seq<u8>) -> bool {
    &&& bytes.len() >= 3
    &&& bytes[0] == 0x25
    &&& hex_value(bytes[1]) is Some
    &&& hex_value(bytes[2]) is Some
}

/// Percent-decoding on bytes: each `%` that two hexadecimal digits follow
/// becomes the byte they spell; every other byte, a stray `%` included, stays.
pub open spec fn percent_decoded_bytes(bytes: Seq<u8>) -> Seq<u8>
    decreases bytes.len(),
{
    if bytes.len() == 0 {
        bytes
    } else if starts_with_escape(bytes) {
        seq![(hex_value(bytes[1])->0 * 16 + hex_value(bytes[2])->0) as u8] + percent_decoded_bytes(
            bytes.skip(3),
        )
    } else {
        seq![bytes[0]] + percent_decoded_bytes(bytes.skip(1))
    }
}

/// Percent-decoding on text: the UTF-8 bytes of `text` are percent-decoded
/// and the outcome is read back as text, permissively.
pub open spec fn percent_decoded(text: Seq<char>) -> Seq<char> {
    lossy_text(percent_decoded_bytes(encode_utf8(text)))
}

/// Percent-decodes a request target.
///
/// Trusted: the body calls `url_escape::decode`, which hands the bytes of its
/// argument to `percent_encoding::percent_decode` and reads the outcome with
/// `String::from_utf8_lossy`.  The contract states the first step in full, as
/// [`percent_decoded_bytes`], and the second as [`lossy_text`] does.
#[verifier::external_body]
pub(crate) fn percent_decode(target: &str) -> (decoded: String)
    ensures
        decoded@ == percent_decoded(target@),
{
    url_escape::decode(target).into_owned()
}

/// The upper-case hexadecimal digit that stands for `v`, for `v` below sixteen.
pub open spec fn hex_digit(v: u8) -> u8 {
    if v < 10 {
        (0x30 + v) as u8
    } else {
        (0x37 + v) as u8
    }
}

/// `bytes` with every byte written as an escape: a `%` and two hexadecimal
/// digits.
pub open spec fn escaped(bytes: Seq<u8>) -> Seq<u8>
    decreases bytes.len(),
{
    if bytes.len() == 0 {
        bytes
    } else {
        seq![0x25u8, hex_digit(bytes[0] / 16), hex_digit(bytes[0] % 16)] + escaped(
            bytes.drop_first(),
        )
    }
}

/// The text whose characters are the given ASCII bytes.
pub open spec fn ascii_text(bytes: Seq<u8>) -> Seq<char> {
    Seq::new(bytes.len(), |i: int| bytes[i] as char)
}

/// The percent-encoding of `bytes` in which every byte is escaped.
pub open spec fn percent_encoded(bytes: Seq<u8>) -> Seq<char> {
    ascii_text(escaped(bytes))
}

/// Escapes are three ASCII bytes each, none of them white space or a slash.
pub proof fn lemma_escaped_bytes(bytes: Seq<u8>)
    ensures
        escaped(bytes).len() == 3 * bytes.len(),
        forall|i: int|
            0 <= i < escaped(bytes).len() ==> {
                let b = #[trigger] escaped(bytes)[i];
                b == 0x25 || 0x30 <= b <= 0x39 || 0x41 <= b <= 0x46
            },
    decreases bytes.len(),
{
    if bytes.len() > 0 {
        lemma_escaped_bytes(bytes.drop_first());
    }
}

/// Percent-decoding undoes escaping, byte for byte.
pub proof fn lemma_unescape(bytes: Seq<u8>)
    ensures
        percent_decoded_bytes(escaped(bytes)) == bytes,
    decreases bytes.len(),
{
    if bytes.len() > 0 {
        let b = bytes[0];
        let all = escaped(bytes);
        let rest = escaped(bytes.drop_first());
        assert(hex_value(hex_digit(b / 16)) == Some((b / 16) as u8));
        assert(hex_value(hex_digit(b % 16)) == Some((b % 16) as u8));
        assert(all.skip(3) =~= rest);
        assert(starts_with_escape(all));
        assert((b / 16) * 16 + b % 16 == b);
        lemma_unescape(bytes.drop_first());
        assert(percent_decoded_bytes(all) =~= seq![b] + bytes.drop_first());
        assert(seq![b] + bytes.drop_first() =~= bytes);
    } else {
        assert(escaped(bytes) =~= bytes);
    }
}

/// Text made of ASCII bytes has exactly those bytes as its UTF-8.
pub proof fn lemma_ascii_text_bytes(bytes: Seq<u8>)
    requires
        forall|i: int| 0 <= i < bytes.len() ==> #[trigger] bytes[i] < 128,
    ensures
        encode_utf8(ascii_text(bytes)) == bytes,
{
    let text = ascii_text(bytes);
    assert(is_ascii_chars(text)) by {
        assert forall|i: int| 0 <= i < text.len() implies '\0' <= #[trigger] text[i]
            <= '\u{7f}' by {
            assert(bytes[i] < 128);
        }
    }
    is_ascii_chars_encode_utf8(text);
    assert forall|i: int| 0 <= i < bytes.len() implies encode_utf8(text)[i] == bytes[i] by {
        assert(text[i] as u8 == encode_utf8(text)[i]);
        assert(bytes[i] < 128);
    }
    assert(encode_utf8(text) =~= bytes);
}

/// Escaping any bytes and percent-decoding the outcome reads the bytes as
/// text: what an escape can spell, decoding brings back.
pub proof fn lemma_percent_round_trip_bytes(bytes: Seq<u8>)
    ensures
        percent_decoded(percent_encoded(bytes)) == lossy_text(bytes),
{
    lemma_escaped_bytes(bytes);
    lemma_ascii_text_bytes(escaped(bytes));
    lemma_unescape(bytes);
}

/// Percent-encoding a text and decoding it again gives the text back.
pub proof fn lemma_percent_round_trip(segment: Seq<char>)
    ensures
        percent_decoded(percent_encoded(encode_utf8(segment))) == segment,
{
    lemma_percent_round_trip_bytes(encode_utf8(segment));
    encode_utf8_valid_utf8(segment);
    encode_utf8_decode_utf8(segment);
}

/// `target` without one leading `/`, if it has one.
pub open spec fn strip_leading_slash(target: Seq<char>) -> Seq<char> {
    if target.len() > 0 && target[0] == '/' {
        target.drop_first()
    } else {
        target
    }
}

/// `relative` appended to `root`, with a `/` between them unless `root` is
/// empty or already ends in one.
pub open spec fn joined(root: Seq<char>, relative: Seq<char>) -> Seq<char> {
    if root.len() == 0 || root.last() == '/' {
        root + relative
    } else {
        root + seq!['/'] + relative
    }
}

/// The file-system path that a decoded target names under `root`.
pub open spec fn resolved(root: Seq<char>, decoded_target: Seq<char>) -> Seq<char> {
    joined(root, strip_leading_slash(decoded_target))
}

/// Maps a decoded request target to a path under `root`.
pub fn resolve(root: &str, decoded_target: &str) -> (path: String)
    ensures
        path@ == resolved(root@, decoded_target@),
{
    let target = to_chars(decoded_target);
    let relative = if target.len() > 0 && target[0] == '/' {
        decoded_target.substring_char(1, target.len())
    } else {
        decoded_target
    };
    assert(relative@ =~= strip_leading_slash(decoded_target@));
    let base = to_chars(root);
    let mut path = String::from_str(root);
    if base.len() > 0 && base[base.len() - 1] != '/' {
        proof {
            reveal_strlit("/");
        }
        path.append("/");
        assert(path@ =~= root@ + seq!['/']);
    }
    path.append(relative);
    path
}

/// Whether `path` ends in a segment that is a single `.`.
pub open spec fn ends_in_dot_segment(path: Seq<char>) -> bool {
    &&& path.len() > 0
    &&& path.last() == '.'
    &&& (path.len() == 1 || path[path.len() - 2] == '/')
}

/// How much of `path` is left once its trailing slashes and its trailing
/// segments that are a single `.` are set aside.
pub open spec fn name_end(path: Seq<char>) -> nat
    decreases path.len(),
{
    if path.len() > 0 && (path.last() == '/' || ends_in_dot_segment(path)) {
        name_end(path.drop_last())
    } else {
        path.len()
    }
}

/// The name that `path` ends in: its last segment, once trailing slashes and
/// trailing segments that are a single `.` are set aside.  A path that ends
/// in `..`, or in which no segment is left, has the empty name.
pub open spec fn file_name(path: Seq<char>) -> Seq<char> {
    let kept = path.take(name_end(path) as int);
    let name = kept.skip(last_index_of(kept, '/') + 1);
    if name == seq!['.', '.'] {
        Seq::empty()
    } else {
        name
    }
}

/// What is left of a path is a prefix of it, and ends neither in a slash nor
/// in a segment that is a single `.`.
pub proof fn lemma_name_end(path: Seq<char>)
    ensures
        name_end(path) <= path.len(),
        name_end(path) > 0 ==> path[name_end(path) - 1] != '/',
        !ends_in_dot_segment(path.take(name_end(path) as int)),
    decreases path.len(),
{
    if path.len() > 0 && (path.last() == '/' || ends_in_dot_segment(path)) {
        let front = path.drop_last();
        lemma_name_end(front);
        assert(front.take(name_end(front) as int) =~= path.take(name_end(path) as int));
    } else {
        assert(path.take(path.len() as int) =~= path);
    }
}

/// A slash at the end of a path, or a segment `.` at its end, does not change
/// the name it ends in: `docs`, `docs/`, `docs/.` and `docs/./` name the same.
pub proof fn lemma_file_name_ignores_trailing(path: Seq<char>)
    ensures
        file_name(path.push('/')) == file_name(path),
        file_name(path.push('/').push('.')) == file_name(path),
{
    lemma_name_end(path);
    let slashed = path.push('/');
    assert(slashed.drop_last() =~= path);
    assert(name_end(slashed) == name_end(path));
    assert(slashed.take(name_end(path) as int) =~= path.take(name_end(path) as int));
    let dotted = slashed.push('.');
    assert(dotted.drop_last() =~= slashed);
    assert(ends_in_dot_segment(dotted));
    assert(name_end(dotted) == name_end(path));
    assert(dotted.take(name_end(path) as int) =~= path.take(name_end(path) as int));
}

/// The name that `path` ends in; see [`file_name`].
pub fn file_name_of(path: &str) -> (name: &str)
    ensures
        name@ == file_name(path@),
{
    let chars = to_chars(path);
    let mut end: usize = chars.len();
    assert(chars@.take(end as int) =~= chars@);
    while end > 0 && (chars[end - 1] == '/' || (chars[end - 1] == '.' && (end == 1 || chars[end
        - 2] == '/')))
        invariant
            end <= chars@.len(),
            name_end(chars@) == name_end(chars@.take(end as int)),
        decreases end,
    {
        assert(chars@.take(end as int).drop_last() =~= chars@.take(end - 1));
        end = end - 1;
    }
    let start = match last_index_before(&chars, end, '/') {
        Some(i) => i + 1,
        None => 0,
    };
    assert(chars@.take(end as int).skip(start as int) =~= chars@.subrange(
        start as int,
        end as int,
    ));
    if end - start == 2 && chars[start] == '.' && chars[start + 1] == '.' {
        assert(chars@.subrange(start as int, end as int) =~= seq!['.', '.']);
        path.substring_char(0, 0)
    } else {
        assert(chars@.subrange(start as int, end as int) != seq!['.', '.']) by {
            let name = chars@.subrange(start as int, end as int);
            if name.len() == 2 {
                assert(name[0] == chars@[start as int]);
                assert(name[1] == chars@[start + 1]);
            }
        }
        path.substring_char(start, end)
    }
}

/// The extension of the file at `path`: what stands behind the last `.` of
/// its file name.  A name without a `.`, or whose only `.` is its first
/// character, has none.
pub open spec fn extension(path: Seq<char>) -> Option<Seq<char>> {
    let name = file_name(path);
    let dot = last_index_of(name, '.');
    if dot <= 0 {
        None
    } else {
        Some(name.skip(dot + 1))
    }
}

/// The extension of the file at `path`, if its name has one.
pub fn file_extension(path: &str) -> (found: Option<&str>)
    ensures
        match found {
            Some(e) => extension(path@) == Some(e@),
            None => extension(path@) is None,
        },
{
    let name = file_name_of(path);
    let letters = to_chars(name);
    assert(letters@.take(letters@.len() as int) =~= letters@);
    match last_index_before(&letters, letters.len(), '.') {
        Some(dot) => {
            if dot == 0 {
                None
            } else {
                let found = name.substring_char(dot + 1, letters.len());
                assert(found@ =~= name@.skip(dot + 1));
                Some(found)
            }
        },
        None => None,
    }
}

} // verus!
