//! The response builder: the three responses this server gives, and their
//! framing as HTTP/1.1 bytes.
//!
//! Every response has the same shape: a status line, a `Content-Length` and a
//! `Content-Type` header in that order, an empty line, and the body.

use vstd::prelude::*;
use vstd::seq_lib::to_multiset_build;
use vstd::utf8::encode_utf8;
use crate::http::content::content_type;
use crate::http::content::content_type_of;
use crate::http::path::file_name;
use crate::http::path::file_name_of;
use crate::text::decimal;
use crate::text::decimal_string;
use crate::text::last_index_before;
use crate::text::last_index_of;
use crate::text::lemma_encode_utf8_concat;
use crate::text::text_eq;
use crate::text::to_chars;
use crate::text::trim_leading;
use crate::text::trim_trailing;
use crate::text::trim_end;
use crate::text::trim_start;

verus! {

/// The status line of a successful response.
pub const STATUS_OK: &'static str = "HTTP/1.1 200 OK";

/// The status line of every other response.
pub const STATUS_NOT_FOUND: &'static str = "HTTP/1.1 404 NOT FOUND";

/// The name of the header that gives the body's length in bytes.
pub const CONTENT_LENGTH: &'static str = "Content-Length";

/// The name of the header that gives the body's media type.
pub const CONTENT_TYPE: &'static str = "Content-Type";

/// The media type of the pages this server writes itself.
pub const TEXT_HTML: &'static str = "text/html";

/// The page that answers whatever cannot be served.
pub const NOT_FOUND_PAGE: &'static str = "<html><body><h1>404 - Not Found</h1></body></html>";

/// How the page that lists a directory begins.
pub const PAGE_HEAD: &'static str =
    "\n    <!DOCTYPE html>\n    <html>\n    <head>\n        <meta charset=\"utf-8\">\n        <style>\n            .highlight { color: red; }\n        </style>\n    </head>\n    <body>";

/// How the page that lists a directory ends.
pub const PAGE_TAIL: &'static str = "\n    </body>\n    </html>\n    ";

/// What stands before the directory's path in the heading of the page.
pub const HEADING_OPEN: &'static str = "<h1>Directory listing for ";

/// What stands behind the directory's path in the heading of the page.
pub const HEADING_CLOSE: &'static str = "</h1>";

/// What stands before the parent's place in the link to the parent.
pub const PARENT_OPEN: &'static str = "<a href=\"/";

/// What stands behind the parent's place in the link to the parent.
pub const PARENT_CLOSE: &'static str = "\">Parent directory</a><br>";

/// What stands before the address in the link to a child.
pub const ANCHOR_OPEN: &'static str = "<a href=\"";

/// What stands between the address and the visible name in the link to a child.
pub const ANCHOR_MIDDLE: &'static str = "\">";

/// What stands behind the visible name in the link to a child.
pub const ANCHOR_CLOSE: &'static str = "</a><br>";

/// One header of a response; it views as the pair of its name and value.
pub struct Header {
    pub name: String,
    pub value: String,
}

impl View for Header {
    type V = (Seq<char>, Seq<char>);

    open spec fn view(&self) -> (Seq<char>, Seq<char>) {
        (self.name@, self.value@)
    }
}

/// A complete response, before it is written out.
pub struct RenderedResponse {
    pub status_line: String,
    pub headers: Vec<Header>,
    pub body: Vec<u8>,
}

/// What a [`RenderedResponse`] holds, as mathematical values.
pub struct ResponseView {
    pub status_line: Seq<char>,
    pub headers: Seq<(Seq<char>, Seq<char>)>,
    pub body: Seq<u8>,
}

impl View for RenderedResponse {
    type V = ResponseView;

    open spec fn view(&self) -> ResponseView {
        ResponseView {
            status_line: self.status_line@,
            headers: Seq::new(self.headers@.len(), |i: int| self.headers@[i]@),
            body: self.body@,
        }
    }
}

/// The line that a header makes in the head of a response.
pub open spec fn header_line(header: (Seq<char>, Seq<char>)) -> Seq<char> {
    header.0 + seq![':', ' '] + header.1 + seq!['\r', '\n']
}

/// The lines of `headers`, in their order.
pub open spec fn header_lines(headers: Seq<(Seq<char>, Seq<char>)>) -> Seq<char>
    decreases headers.len(),
{
    if headers.len() == 0 {
        Seq::empty()
    } else {
        header_lines(headers.drop_last()) + header_line(headers.last())
    }
}

impl ResponseView {
    /// Everything before the body: the status line, the header lines and the
    /// empty line that ends them.
    pub open spec fn head(self) -> Seq<char> {
        self.status_line + seq!['\r', '\n'] + header_lines(self.headers) + seq!['\r', '\n']
    }

    /// The bytes that go to the client: the head in UTF-8, then the body.
    pub open spec fn wire(self) -> Seq<u8> {
        encode_utf8(self.head()) + self.body
    }

    /// The shape every response of this server has: one of the two status
    /// lines, and exactly the two headers, the length being that of the body.
    pub open spec fn well_formed(self) -> bool {
        &&& self.status_line == STATUS_OK@ || self.status_line == STATUS_NOT_FOUND@
        &&& self.headers.len() == 2
        &&& self == framed(self.status_line, self.headers[1].1, self.body)
    }
}

/// The response with the given status line, media type and body.
pub open spec fn framed(status_line: Seq<char>, content_type: Seq<char>, body: Seq<u8>) -> ResponseView {
    ResponseView {
        status_line,
        headers: seq![(CONTENT_LENGTH@, decimal(body.len())), (CONTENT_TYPE@, content_type)],
        body,
    }
}

/// The response that answers a request that cannot be served.
pub open spec fn not_found() -> ResponseView {
    framed(STATUS_NOT_FOUND@, TEXT_HTML@, encode_utf8(NOT_FOUND_PAGE@))
}

impl RenderedResponse {
    /// Frames `body` with a status line and the two headers.
    pub fn frame(status_line: &str, content_type: &str, body: Vec<u8>) -> (response: RenderedResponse)
        ensures
            response@ == framed(status_line@, content_type@, body@),
    {
        let mut headers: Vec<Header> = Vec::new();
        headers.push(
            Header { name: String::from_str(CONTENT_LENGTH), value: decimal_string(body.len()) },
        );
        headers.push(
            Header { name: String::from_str(CONTENT_TYPE), value: String::from_str(content_type) },
        );
        let response = RenderedResponse {
            status_line: String::from_str(status_line),
            headers,
            body,
        };
        assert(response@.headers =~= framed(status_line@, content_type@, body@).headers);
        response
    }

    /// The bytes of this response as they go to the client.
    pub fn to_bytes(&self) -> (bytes: Vec<u8>)
        ensures
            bytes@ == self@.wire(),
    {
        proof {
            reveal_strlit("\r\n");
            reveal_strlit(": ");
        }
        let mut head = self.status_line.clone();
        head.append("\r\n");
        let mut i: usize = 0;
        assert(self@.headers.take(0) =~= Seq::empty());
        while i < self.headers.len()
            invariant
                i <= self.headers@.len(),
                self@.headers.len() == self.headers@.len(),
                "\r\n"@ == seq!['\r', '\n'],
                ": "@ == seq![':', ' '],
                head@ == self@.status_line + seq!['\r', '\n'] + header_lines(
                    self@.headers.take(i as int),
                ),
            decreases self.headers@.len() - i,
        {
            let header = &self.headers[i];
            head.append(header.name.as_str());
            head.append(": ");
            head.append(header.value.as_str());
            head.append("\r\n");
            proof {
                let seen = self@.headers.take(i + 1);
                assert(seen.drop_last() =~= self@.headers.take(i as int));
                assert(seen.last() == header@);
                assert(head@ =~= self@.status_line + seq!['\r', '\n'] + header_lines(seen));
            }
            i = i + 1;
        }
        assert(self@.headers.take(i as int) =~= self@.headers);
        head.append("\r\n");
        let mut bytes = head.as_str().as_bytes_vec();
        bytes.extend_from_slice(self.body.as_slice());
        assert(bytes@ =~= self@.wire());
        bytes
    }
}

/// Renders the response to a request that cannot be served.
pub fn send_404() -> (response: RenderedResponse)
    ensures
        response@ == not_found(),
        response@.well_formed(),
{
    RenderedResponse::frame(STATUS_NOT_FOUND, TEXT_HTML, NOT_FOUND_PAGE.as_bytes_vec())
}

/// The response that serves the file at `path` with the given content.
pub open spec fn served(path: Seq<char>, content: Seq<u8>) -> ResponseView {
    framed(STATUS_OK@, content_type_of(path, content), content)
}

/// Renders the response that serves a file.
///
/// `content` is everything that was read from the file at `path`; it becomes
/// the body, byte for byte, and its length the `Content-Length`.
pub fn serve_file(path: &str, content: Vec<u8>) -> (response: RenderedResponse)
    ensures
        response@ == served(path@, content@),
        response@.well_formed(),
{
    let media_type = content_type(path, content.as_slice());
    RenderedResponse::frame(STATUS_OK, media_type.as_str(), content)
}

/// The heading of the page that lists the directory at `path`.  The path is
/// written as it is, with no escaping.
pub open spec fn heading(path: Seq<char>) -> Seq<char> {
    HEADING_OPEN@ + path + HEADING_CLOSE@
}

/// The link to the parent of `target`: to what stands before the last `/` of
/// the target, leading slashes set aside.  Nothing where the target holds no `/`.
pub open spec fn parent_link(target: Seq<char>) -> Seq<char> {
    let slash = last_index_of(target, '/');
    if slash < 0 {
        Seq::empty()
    } else {
        PARENT_OPEN@ + trim_leading(target.take(slash), '/') + PARENT_CLOSE@
    }
}

/// The link to the child `name` of the directory that was asked for as `base`.
pub open spec fn anchor(base: Seq<char>, name: Seq<char>) -> Seq<char> {
    ANCHOR_OPEN@ + base + seq!['/'] + name + ANCHOR_MIDDLE@ + name + ANCHOR_CLOSE@
}

/// The links to `names`, in their order.
pub open spec fn anchors(base: Seq<char>, names: Seq<Seq<char>>) -> Seq<char>
    decreases names.len(),
{
    if names.len() == 0 {
        Seq::empty()
    } else {
        anchors(base, names.drop_last()) + anchor(base, names.last())
    }
}

/// The children that get a link: all but those named like the directory itself.
pub open spec fn listed(own: Seq<char>, children: Seq<Seq<char>>) -> Seq<Seq<char>> {
    children.filter(|name: Seq<char>| name != own)
}

/// The page that lists the directory at `path`, asked for as `target`, whose
/// entries are `children`.
pub open spec fn listing_page(path: Seq<char>, target: Seq<char>, children: Seq<Seq<char>>) -> Seq<
    char,
> {
    PAGE_HEAD@ + heading(path) + parent_link(target) + anchors(
        trim_trailing(target, '/'),
        listed(file_name(path), children),
    ) + PAGE_TAIL@
}

/// The response that lists a directory.
pub open spec fn listing(path: Seq<char>, target: Seq<char>, children: Seq<Seq<char>>) -> ResponseView {
    framed(STATUS_OK@, TEXT_HTML@, encode_utf8(listing_page(path, target, children)))
}

/// Every child not named like the directory gets a link as often as it was
/// read, and a child named like the directory gets none: what is linked is
/// exactly what was read, whatever the order.
pub proof fn lemma_listed_exact(own: Seq<char>, children: Seq<Seq<char>>)
    ensures
        listed(own, children).to_multiset().count(own) == 0,
        forall|name: Seq<char>|
            name != own ==> #[trigger] listed(own, children).to_multiset().count(name)
                == children.to_multiset().count(name),
    decreases children.len(),
{
    reveal(Seq::filter);
    if children.len() == 0 {
        assert(listed(own, children) =~= children);
        children.to_multiset_ensures();
        assert(!children.contains(own));
    } else {
        let front = children.drop_last();
        let last = children.last();
        lemma_listed_exact(own, front);
        assert(children =~= front.push(last));
        to_multiset_build(front, last);
        if last != own {
            assert(listed(own, children) == listed(own, front).push(last));
            to_multiset_build(listed(own, front), last);
        } else {
            assert(listed(own, children) == listed(own, front));
        }
    }
}

/// The children that get a link do not depend on the order in which the
/// children were read: the same children in another order get the same links.
pub proof fn lemma_listed_ignores_order(
    own: Seq<char>,
    first: Seq<Seq<char>>,
    second: Seq<Seq<char>>,
)
    requires
        first.to_multiset() == second.to_multiset(),
    ensures
        listed(own, first).to_multiset() == listed(own, second).to_multiset(),
{
    lemma_listed_exact(own, first);
    lemma_listed_exact(own, second);
    assert(listed(own, first).to_multiset() =~= listed(own, second).to_multiset());
}

/// How many bytes the links to `names` take.
pub open spec fn anchors_size(base: Seq<char>, names: Seq<Seq<char>>) -> nat
    decreases names.len(),
{
    if names.len() == 0 {
        0
    } else {
        anchors_size(base, names.drop_last()) + encode_utf8(anchor(base, names.last())).len()
    }
}

proof fn lemma_anchors_size(base: Seq<char>, names: Seq<Seq<char>>)
    ensures
        encode_utf8(anchors(base, names)).len() == anchors_size(base, names),
    decreases names.len(),
{
    if names.len() > 0 {
        lemma_anchors_size(base, names.drop_last());
        lemma_encode_utf8_concat(anchors(base, names.drop_last()), anchor(base, names.last()));
    }
}

proof fn lemma_anchors_size_remove(base: Seq<char>, names: Seq<Seq<char>>, j: int)
    requires
        0 <= j < names.len(),
    ensures
        anchors_size(base, names) == anchors_size(base, names.remove(j)) + encode_utf8(
            anchor(base, names[j]),
        ).len(),
    decreases names.len(),
{
    if j == names.len() - 1 {
        assert(names.remove(j) =~= names.drop_last());
    } else {
        lemma_anchors_size_remove(base, names.drop_last(), j);
        assert(names.remove(j).drop_last() =~= names.drop_last().remove(j));
        assert(names.remove(j).last() == names.last());
    }
}

proof fn lemma_anchors_size_ignores_order(
    base: Seq<char>,
    first: Seq<Seq<char>>,
    second: Seq<Seq<char>>,
)
    requires
        first.to_multiset() == second.to_multiset(),
    ensures
        anchors_size(base, first) == anchors_size(base, second),
    decreases first.len(),
{
    first.to_multiset_ensures();
    second.to_multiset_ensures();
    if first.len() > 0 {
        let last = first.last();
        let at = first.len() - 1;
        assert(first[at] == last);
        assert(first.contains(last));
        assert(first.to_multiset().count(last) > 0);
        assert(second.to_multiset().count(last) > 0);
        assert(second.contains(last));
        let j = choose|j: int| 0 <= j < second.len() && second[j] == last;
        assert(first.remove(at) =~= first.drop_last());
        assert(first.drop_last().to_multiset() =~= second.remove(j).to_multiset());
        lemma_anchors_size_ignores_order(base, first.drop_last(), second.remove(j));
        lemma_anchors_size_remove(base, second, j);
    }
}

/// The length of the page that lists a directory, and with it the
/// `Content-Length` of the response, does not depend on the order in which
/// the children were read.
pub proof fn lemma_listing_length_ignores_order(
    path: Seq<char>,
    target: Seq<char>,
    first: Seq<Seq<char>>,
    second: Seq<Seq<char>>,
)
    requires
        first.to_multiset() == second.to_multiset(),
    ensures
        listing(path, target, first).body.len() == listing(path, target, second).body.len(),
        listing(path, target, first).headers == listing(path, target, second).headers,
{
    let own = file_name(path);
    let base = trim_trailing(target, '/');
    let front = PAGE_HEAD@ + heading(path) + parent_link(target);
    let one = anchors(base, listed(own, first));
    let other = anchors(base, listed(own, second));
    lemma_listed_ignores_order(own, first, second);
    lemma_anchors_size_ignores_order(base, listed(own, first), listed(own, second));
    lemma_anchors_size(base, listed(own, first));
    lemma_anchors_size(base, listed(own, second));
    lemma_encode_utf8_concat(front, one);
    lemma_encode_utf8_concat(front + one, PAGE_TAIL@);
    lemma_encode_utf8_concat(front, other);
    lemma_encode_utf8_concat(front + other, PAGE_TAIL@);
}

/// The head of every response reads: the status line, the length of the
/// body under `Content-Length`, the media type under `Content-Type`, and an
/// empty line; nothing else.
pub proof fn lemma_framed_head(status_line: Seq<char>, content_type: Seq<char>, body: Seq<u8>)
    ensures
        framed(status_line, content_type, body).head() == status_line + seq!['\r', '\n']
            + CONTENT_LENGTH@ + seq![':', ' '] + decimal(body.len()) + seq!['\r', '\n']
            + CONTENT_TYPE@ + seq![':', ' '] + content_type + seq!['\r', '\n'] + seq!['\r', '\n'],
{
    let response = framed(status_line, content_type, body);
    let length = (CONTENT_LENGTH@, decimal(body.len()));
    let kind = (CONTENT_TYPE@, content_type);
    assert(response.headers.drop_last() =~= seq![length]);
    assert(seq![length].drop_last() =~= Seq::empty());
    assert(header_lines(Seq::empty()) =~= Seq::empty());
    assert(header_lines(seq![length]) =~= header_line(length));
    assert(header_lines(response.headers) =~= header_line(length) + header_line(kind));
    assert(response.head() =~= status_line + seq!['\r', '\n'] + CONTENT_LENGTH@ + seq![':', ' ']
        + decimal(body.len()) + seq!['\r', '\n'] + CONTENT_TYPE@ + seq![':', ' '] + content_type
        + seq!['\r', '\n'] + seq!['\r', '\n']);
}

/// What one more child adds to the children that get a link.
proof fn lemma_listed_next(own: Seq<char>, children: Seq<Seq<char>>, i: int)
    requires
        0 <= i < children.len(),
    ensures
        listed(own, children.take(i + 1)) == if children[i] != own {
            listed(own, children.take(i)).push(children[i])
        } else {
            listed(own, children.take(i))
        },
{
    reveal(Seq::filter);
    assert(children.take(i + 1).drop_last() =~= children.take(i));
}

fn append_parent_link(page: &mut String, raw_target: &str)
    ensures
        final(page)@ == old(page)@ + parent_link(raw_target@),
{
    let target = to_chars(raw_target);
    assert(target@.take(target@.len() as int) =~= target@);
    match last_index_before(&target, target.len(), '/') {
        Some(slash) => {
            let parent = trim_start(raw_target.substring_char(0, slash), '/');
            page.append(PARENT_OPEN);
            page.append(parent);
            page.append(PARENT_CLOSE);
            assert(page@ =~= old(page)@ + parent_link(raw_target@));
        },
        None => {
            assert(page@ =~= old(page)@ + parent_link(raw_target@));
        },
    }
}

fn append_anchor(page: &mut String, base: &str, name: &str)
    ensures
        final(page)@ == old(page)@ + anchor(base@, name@),
{
    proof {
        reveal_strlit("/");
    }
    page.append(ANCHOR_OPEN);
    page.append(base);
    page.append("/");
    page.append(name);
    page.append(ANCHOR_MIDDLE);
    page.append(name);
    page.append(ANCHOR_CLOSE);
    assert(page@ =~= old(page)@ + anchor(base@, name@));
}

/// Renders the page that lists a directory.
///
/// `path` is the directory's place in the file system, `raw_target` the
/// request target it was asked for as, and `children` the names of its
/// immediate entries in the order in which they were read.  A child named like
/// the directory itself gets no link; every other child gets exactly one.
pub fn list_directory(path: &str, raw_target: &str, children: &Vec<String>) -> (response:
    RenderedResponse)
    ensures
        response@ == listing(path@, raw_target@, children.deep_view()),
        response@.well_formed(),
{
    let own = file_name_of(path);
    let base = trim_end(raw_target, '/');
    let mut page = String::from_str(PAGE_HEAD);
    page.append(HEADING_OPEN);
    page.append(path);
    page.append(HEADING_CLOSE);
    append_parent_link(&mut page, raw_target);
    let ghost names = children.deep_view();
    let ghost start = PAGE_HEAD@ + heading(path@) + parent_link(raw_target@);
    assert(page@ =~= start);
    assert(names.take(0) =~= Seq::empty());
    assert(listed(own@, names.take(0)) =~= Seq::empty()) by {
        reveal(Seq::filter);
    }
    let mut i: usize = 0;
    while i < children.len()
        invariant
            i <= children@.len(),
            names == children.deep_view(),
            page@ == start + anchors(base@, listed(own@, names.take(i as int))),
        decreases children@.len() - i,
    {
        let name = children[i].as_str();
        assert(name@ == names[i as int]);
        proof {
            lemma_listed_next(own@, names, i as int);
        }
        if !text_eq(name, own) {
            append_anchor(&mut page, base, name);
            proof {
                let before = listed(own@, names.take(i as int));
                assert(before.push(name@).drop_last() =~= before);
                assert(page@ =~= start + anchors(base@, before.push(name@)));
            }
        }
        i = i + 1;
    }
    assert(names.take(i as int) =~= names);
    page.append(PAGE_TAIL);
    assert(page@ =~= listing_page(path@, raw_target@, names));
    RenderedResponse::frame(STATUS_OK, TEXT_HTML, page.as_str().as_bytes_vec())
}

} // verus!
