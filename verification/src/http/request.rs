//! The request parser: from the bytes a client sent to the request they
//! carry, or to nothing where they carry none that this server answers.
//!
//! Only the request line is read: the first line of the text, split at white
//! space.  Its first word must be `GET`; its second is the target.

use vstd::prelude::*;
use vstd::utf8::encode_utf8;
use vstd::utf8::encode_utf8_decode_utf8;
use vstd::utf8::encode_utf8_valid_utf8;
use crate::http::path::ascii_text;
use crate::http::path::escaped;
use crate::http::path::joined;
use crate::http::path::lemma_ascii_text_bytes;
use crate::http::path::lemma_escaped_bytes;
use crate::http::path::lemma_unescape;
use crate::http::path::percent_decode;
use crate::http::path::percent_decoded_bytes;
use crate::http::path::percent_encoded;
use crate::http::path::strip_leading_slash;
use crate::text::lemma_encode_utf8_concat;
use crate::http::path::percent_decoded;
use crate::http::path::resolve;
use crate::http::path::resolved;
use crate::text::decode_lossy;
use crate::text::lossy_text;
use crate::text::to_chars;

verus! {

/// Whether `c` is white space: a character with the Unicode property
/// `White_Space`.
pub open spec fn is_whitespace(c: char) -> bool {
    ||| '\u{9}' <= c <= '\u{d}'
    ||| c == ' '
    ||| c == '\u{85}'
    ||| c == '\u{a0}'
    ||| c == '\u{1680}'
    ||| '\u{2000}' <= c <= '\u{200a}'
    ||| c == '\u{2028}'
    ||| c == '\u{2029}'
    ||| c == '\u{202f}'
    ||| c == '\u{205f}'
    ||| c == '\u{3000}'
}

/// Whether `c` is white space.
pub fn whitespace(c: char) -> (white: bool)
    ensures
        white == is_whitespace(c),
{
    ('\u{9}' <= c && c <= '\u{d}') || c == ' ' || c == '\u{85}' || c == '\u{a0}' || c
        == '\u{1680}' || ('\u{2000}' <= c && c <= '\u{200a}') || c == '\u{2028}' || c
        == '\u{2029}' || c == '\u{202f}' || c == '\u{205f}' || c == '\u{3000}'
}

/// The index of the first line feed in `text`, or the length of `text` where
/// it holds none.
pub open spec fn line_feed(text: Seq<char>) -> int
    decreases text.len(),
{
    if text.len() == 0 || text[0] == '\n' {
        0
    } else {
        1 + line_feed(text.drop_first())
    }
}

/// The first line of `text`, without the line feed that ends it and without
/// a carriage return just before that line feed.  Empty text has no line; text
/// without a line feed is one line.
pub open spec fn first_line(text: Seq<char>) -> Option<Seq<char>> {
    let end = line_feed(text);
    if text.len() == 0 {
        None
    } else if 0 < end < text.len() && text[end - 1] == '\r' {
        Some(text.take(end - 1))
    } else {
        Some(text.take(end))
    }
}

/// Where the word at or after `from` begins: the first index from `from` on
/// that holds no white space, or the length of `line`.
pub open spec fn word_start(line: Seq<char>, from: int) -> int
    decreases line.len() - from,
{
    if 0 <= from < line.len() && is_whitespace(line[from]) {
        word_start(line, from + 1)
    } else {
        from
    }
}

/// Where the word that begins at `from` ends: the first index from `from` on
/// that holds white space, or the length of `line`.
pub open spec fn word_end(line: Seq<char>, from: int) -> int
    decreases line.len() - from,
{
    if 0 <= from < line.len() && !is_whitespace(line[from]) {
        word_end(line, from + 1)
    } else {
        from
    }
}

/// The only method this server answers.
pub open spec fn get_method() -> Seq<char> {
    seq!['G', 'E', 'T']
}

/// A request that this server answers.
pub struct HttpRequest {
    /// The method, which is always `GET`.
    pub method: String,
    /// The target as the client wrote it, percent-encoded.
    pub raw_target: String,
    /// The place in the file system that the target names.
    pub path: String,
    /// The request line that the method and the target were read from.
    pub request_line: String,
}

/// What an [`HttpRequest`] holds, as mathematical values.
pub struct RequestView {
    pub method: Seq<char>,
    pub raw_target: Seq<char>,
    pub path: Seq<char>,
    pub request_line: Seq<char>,
}

impl RequestView {
    /// What holds of every request that was read under `root`: the method is
    /// `GET`, the target is a word, and the path is what the target names.
    pub open spec fn well_formed(self, root: Seq<char>) -> bool {
        &&& self.method == get_method()
        &&& is_word(self.raw_target)
        &&& self.path == resolved(root, percent_decoded(self.raw_target))
    }
}

impl View for HttpRequest {
    type V = RequestView;

    open spec fn view(&self) -> RequestView {
        RequestView {
            method: self.method@,
            raw_target: self.raw_target@,
            path: self.path@,
            request_line: self.request_line@,
        }
    }
}

/// The request that the line `line` carries, if it carries one: its first two
/// words are the method and the target, and the method must be `GET`.
pub open spec fn parsed_line(line: Seq<char>, root: Seq<char>) -> Option<RequestView> {
    let method_start = word_start(line, 0);
    let method_end = word_end(line, method_start);
    let target_start = word_start(line, method_end);
    let target_end = word_end(line, target_start);
    let method = line.subrange(method_start, method_end);
    let target = line.subrange(target_start, target_end);
    if target_start < line.len() && method == get_method() {
        Some(
            RequestView {
                method,
                raw_target: target,
                path: resolved(root, percent_decoded(target)),
                request_line: line,
            },
        )
    } else {
        None
    }
}

/// The request that the text `text` carries, if it carries one.
pub open spec fn parsed_text(text: Seq<char>, root: Seq<char>) -> Option<RequestView> {
    match first_line(text) {
        Some(line) => parsed_line(line, root),
        None => None,
    }
}

/// The request that the bytes `buffer` carry, if they carry one.
pub open spec fn parsed_request(buffer: Seq<u8>, root: Seq<char>) -> Option<RequestView> {
    parsed_text(lossy_text(buffer), root)
}

/// The view of a request that may be absent.
pub open spec fn view_of(request: Option<HttpRequest>) -> Option<RequestView> {
    match request {
        Some(r) => Some(r@),
        None => None,
    }
}

/// Whether `text` is a word: not empty, and free of white space.
pub open spec fn is_word(text: Seq<char>) -> bool {
    &&& text.len() > 0
    &&& forall|i: int| 0 <= i < text.len() ==> !is_whitespace(#[trigger] text[i])
}

/// A request line that asks for `target`: `GET`, a space, the target, a
/// space, and whatever follows.
pub open spec fn get_line(target: Seq<char>, rest: Seq<char>) -> Seq<char> {
    get_method() + seq![' '] + target + seq![' '] + rest
}

/// Where a word begins and ends: both places lie within the line, a word
/// begins on a character that is no white space, and holds none.
pub proof fn lemma_word_bounds(line: Seq<char>, from: int)
    requires
        0 <= from <= line.len(),
    ensures
        from <= word_start(line, from) <= line.len(),
        word_start(line, from) < line.len() ==> !is_whitespace(line[word_start(line, from)]),
        from <= word_end(line, from) <= line.len(),
        from < line.len() && !is_whitespace(line[from]) ==> from < word_end(line, from),
        forall|i: int| from <= i < word_end(line, from) ==> !is_whitespace(#[trigger] line[i]),
    decreases line.len() - from,
{
    if from < line.len() {
        lemma_word_bounds(line, from + 1);
    }
}

/// Every request that a line carries is well formed, and remembers its line.
pub proof fn lemma_parsed_is_well_formed(line: Seq<char>, root: Seq<char>)
    ensures
        parsed_line(line, root) matches Some(request) ==> request.well_formed(root)
            && request.request_line == line,
{
    let method_start = word_start(line, 0);
    lemma_word_bounds(line, 0);
    let method_end = word_end(line, method_start);
    lemma_word_bounds(line, method_start);
    let target_start = word_start(line, method_end);
    lemma_word_bounds(line, method_end);
    let target_end = word_end(line, target_start);
    lemma_word_bounds(line, target_start);
    if target_start < line.len() {
        let target = line.subrange(target_start, target_end);
        assert forall|i: int| 0 <= i < target.len() implies !is_whitespace(
            #[trigger] target[i],
        ) by {
            assert(target[i] == line[target_start + i]);
        }
    }
}

/// A run of white space ends where the next word begins.
pub proof fn lemma_word_start(line: Seq<char>, from: int, to: int)
    requires
        0 <= from <= to <= line.len(),
        forall|i: int| from <= i < to ==> is_whitespace(#[trigger] line[i]),
        to == line.len() || !is_whitespace(line[to]),
    ensures
        word_start(line, from) == to,
    decreases to - from,
{
    if from < to {
        lemma_word_start(line, from + 1, to);
    }
}

/// A word ends at the first white space behind it, or with the line.
pub proof fn lemma_word_end(line: Seq<char>, from: int, to: int)
    requires
        0 <= from <= to <= line.len(),
        forall|i: int| from <= i < to ==> !is_whitespace(#[trigger] line[i]),
        to == line.len() || is_whitespace(line[to]),
    ensures
        word_end(line, from) == to,
    decreases to - from,
{
    if from < to {
        lemma_word_end(line, from + 1, to);
    }
}

/// Text without a line feed is searched to its end.
pub proof fn lemma_line_feed(text: Seq<char>, at: int)
    requires
        0 <= at <= text.len(),
        forall|i: int| 0 <= i < at ==> #[trigger] text[i] != '\n',
        at == text.len() || text[at] == '\n',
    ensures
        line_feed(text) == at,
    decreases at,
{
    if at > 0 {
        let rest = text.drop_first();
        assert forall|i: int| 0 <= i < at - 1 implies #[trigger] rest[i] != '\n' by {
            assert(rest[i] == text[i + 1]);
        }
        lemma_line_feed(rest, at - 1);
    }
}

/// A line that is ended by a carriage return and a line feed is the first
/// line of the text, whatever follows it.
pub proof fn lemma_first_line(line: Seq<char>, more: Seq<char>)
    requires
        forall|i: int| 0 <= i < line.len() ==> #[trigger] line[i] != '\n',
    ensures
        first_line(line + seq!['\r', '\n'] + more) == Some(line),
{
    let text = line + seq!['\r', '\n'] + more;
    let at = line.len() as int + 1;
    assert forall|i: int| 0 <= i < at implies #[trigger] text[i] != '\n' by {
        if i < line.len() {
            assert(text[i] == line[i]);
        }
    }
    assert(text[at] == '\n');
    lemma_line_feed(text, at);
    assert(text[at - 1] == '\r');
    assert(text.take(at - 1) =~= line);
}

/// Every request line of the form `GET`, space, target, space, rest, where the
/// target is a word, carries a request for that target, resolved under the root.
pub proof fn lemma_get_line_parses(target: Seq<char>, rest: Seq<char>, root: Seq<char>)
    requires
        is_word(target),
    ensures
        parsed_line(get_line(target, rest), root) == Some(
            RequestView {
                method: get_method(),
                raw_target: target,
                path: resolved(root, percent_decoded(target)),
                request_line: get_line(target, rest),
            },
        ),
{
    let line = get_line(target, rest);
    let n = target.len() as int;
    assert(line.len() == 5 + n + rest.len());
    assert(line[0] == 'G' && line[1] == 'E' && line[2] == 'T' && line[3] == ' ');
    assert forall|i: int| 4 <= i < 4 + n implies !is_whitespace(#[trigger] line[i]) by {
        assert(line[i] == target[i - 4]);
    }
    assert(line[4 + n] == ' ');
    lemma_word_start(line, 0, 0);
    lemma_word_end(line, 0, 3);
    lemma_word_start(line, 3, 4);
    lemma_word_end(line, 4, 4 + n);
    assert(line.subrange(0, 3) =~= get_method());
    assert(line.subrange(4, 4 + n) =~= target);
}

/// The parser reads back what percent-encoding wrote: a request for the
/// percent-encoding of any text, sent as the first line of a buffer, resolves
/// to that text under the root.
pub proof fn lemma_request_round_trip(
    segment: Seq<char>,
    version: Seq<char>,
    more: Seq<char>,
    root: Seq<char>,
)
    requires
        forall|i: int| 0 <= i < version.len() ==> #[trigger] version[i] != '\n',
    ensures
        ({
            let target = seq!['/'] + percent_encoded(encode_utf8(segment));
            let text = get_line(target, version) + seq!['\r', '\n'] + more;
            &&& parsed_request(encode_utf8(text), root) matches Some(request)
            &&& request.raw_target == target
            &&& request.path == joined(root, segment)
        }),
{
    let bytes = encode_utf8(segment);
    let encoded = percent_encoded(bytes);
    let target = seq!['/'] + encoded;
    let line = get_line(target, version);
    let text = line + seq!['\r', '\n'] + more;
    // The buffer is valid UTF-8, so decoding it gives the text back.
    encode_utf8_valid_utf8(text);
    encode_utf8_decode_utf8(text);
    // The target is a word.
    lemma_escaped_bytes(bytes);
    assert(is_word(target)) by {
        assert forall|i: int| 0 <= i < target.len() implies !is_whitespace(
            #[trigger] target[i],
        ) by {
            if i > 0 {
                let b = escaped(bytes)[i - 1];
                assert(target[i] == b as char);
            }
        }
    }
    // The line holds no line feed, so it is the first line.
    assert forall|i: int| 0 <= i < line.len() implies #[trigger] line[i] != '\n' by {
        if 4 <= i < 4 + target.len() {
            assert(line[i] == target[i - 4]);
            assert(!is_whitespace(target[i - 4]));
        } else if i >= 5 + target.len() {
            assert(line[i] == version[i - 5 - target.len()]);
        }
    }
    lemma_first_line(line, more);
    lemma_get_line_parses(target, version, root);
    // Decoding the target gives a slash and the segment.
    let slash = seq![0x2fu8];
    assert(target =~= ascii_text(slash + escaped(bytes)));
    lemma_ascii_text_bytes(slash + escaped(bytes));
    assert(ascii_text(slash) =~= seq!['/']);
    lemma_ascii_text_bytes(slash);
    lemma_unescape(bytes);
    assert((slash + escaped(bytes)).skip(1) =~= escaped(bytes));
    assert(percent_decoded_bytes(slash + escaped(bytes)) =~= slash + bytes);
    lemma_encode_utf8_concat(seq!['/'], segment);
    encode_utf8_valid_utf8(seq!['/'] + segment);
    encode_utf8_decode_utf8(seq!['/'] + segment);
    assert(percent_decoded(target) == seq!['/'] + segment);
    assert(strip_leading_slash(seq!['/'] + segment) =~= segment);
}

fn find_line_feed(chars: &Vec<char>) -> (end: usize)
    ensures
        end == line_feed(chars@),
        end <= chars@.len(),
{
    let mut end: usize = 0;
    assert(chars@.skip(0) =~= chars@);
    while end < chars.len() && chars[end] != '\n'
        invariant
            end <= chars@.len(),
            line_feed(chars@) == end + line_feed(chars@.skip(end as int)),
        decreases chars@.len() - end,
    {
        assert(chars@.skip(end as int).drop_first() =~= chars@.skip(end + 1));
        end = end + 1;
    }
    end
}

fn find_word_start(chars: &Vec<char>, from: usize) -> (start: usize)
    requires
        from <= chars@.len(),
    ensures
        start == word_start(chars@, from as int),
        from <= start <= chars@.len(),
{
    let mut start: usize = from;
    while start < chars.len() && whitespace(chars[start])
        invariant
            from <= start <= chars@.len(),
            word_start(chars@, from as int) == word_start(chars@, start as int),
        decreases chars@.len() - start,
    {
        start = start + 1;
    }
    start
}

fn find_word_end(chars: &Vec<char>, from: usize) -> (end: usize)
    requires
        from <= chars@.len(),
    ensures
        end == word_end(chars@, from as int),
        from <= end <= chars@.len(),
{
    let mut end: usize = from;
    while end < chars.len() && !whitespace(chars[end])
        invariant
            from <= end <= chars@.len(),
            word_end(chars@, from as int) == word_end(chars@, end as int),
        decreases chars@.len() - end,
    {
        end = end + 1;
    }
    end
}

/// The first line of `text`, if it has one.
pub fn take_first_line(text: &str) -> (line: Option<&str>)
    ensures
        match line {
            Some(l) => first_line(text@) == Some(l@),
            None => first_line(text@) is None,
        },
{
    let chars = to_chars(text);
    if chars.len() == 0 {
        return None;
    }
    let end = find_line_feed(&chars);
    if 0 < end && end < chars.len() && chars[end - 1] == '\r' {
        Some(text.substring_char(0, end - 1))
    } else {
        Some(text.substring_char(0, end))
    }
}

impl HttpRequest {
    /// Reads the request that one request line carries.
    pub fn from_line(line: &str, root: &str) -> (request: Option<HttpRequest>)
        ensures
            view_of(request) == parsed_line(line@, root@),
            request matches Some(r) ==> r@.well_formed(root@),
    {
        proof {
            lemma_parsed_is_well_formed(line@, root@);
        }
        let chars = to_chars(line);
        let method_start = find_word_start(&chars, 0);
        let method_end = find_word_end(&chars, method_start);
        let target_start = find_word_start(&chars, method_end);
        let target_end = find_word_end(&chars, target_start);
        if target_start >= chars.len() {
            return None;
        }
        if method_end - method_start != 3 || chars[method_start] != 'G' || chars[method_start + 1]
            != 'E' || chars[method_start + 2] != 'T' {
            assert(line@.subrange(method_start as int, method_end as int) != get_method()) by {
                let method = line@.subrange(method_start as int, method_end as int);
                if method.len() == 3 {
                    assert(method[0] == line@[method_start as int]);
                    assert(method[1] == line@[method_start + 1]);
                    assert(method[2] == line@[method_start + 2]);
                }
            }
            return None;
        }
        let method = line.substring_char(method_start, method_end);
        assert(method@ =~= get_method());
        let target = line.substring_char(target_start, target_end);
        let decoded = percent_decode(target);
        Some(
            HttpRequest {
                method: String::from_str(method),
                raw_target: String::from_str(target),
                path: resolve(root, decoded.as_str()),
                request_line: String::from_str(line),
            },
        )
    }

    /// Reads the request that a text carries on its first line.
    pub fn from_text(text: &str, root: &str) -> (request: Option<HttpRequest>)
        ensures
            view_of(request) == parsed_text(text@, root@),
            request matches Some(r) ==> r@.well_formed(root@),
    {
        match take_first_line(text) {
            Some(line) => HttpRequest::from_line(line, root),
            None => None,
        }
    }

    /// Reads the request that the bytes of a client carry.
    ///
    /// The bytes are decoded permissively, so no input is refused for its
    /// encoding: `None` means only that the first line is no request that
    /// this server answers.
    pub fn from_buffer(buffer: &[u8], root: &str) -> (request: Option<HttpRequest>)
        ensures
            view_of(request) == parsed_request(buffer@, root@),
            request matches Some(r) ==> r@.well_formed(root@),
    {
        let text = decode_lossy(buffer);
        HttpRequest::from_text(text.as_str(), root)
    }
}

} // verus!
