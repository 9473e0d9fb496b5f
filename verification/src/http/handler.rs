//! The decisions of the connection handler.
//!
//! Serving one connection takes two steps with a look at the file system
//! between them.  [`receive`] reads the client's bytes and says whether there
//! is anything to look up; [`respond`] takes what was found at the request's
//! path and renders the response.  Whoever owns the connection does the
//! reading, the looking and the writing.

use vstd::prelude::*;
use vstd::utf8::encode_utf8;
use crate::http::path::file_name;
use crate::http::response::anchors;
use crate::http::response::heading;
use crate::http::response::lemma_listed_exact;
use crate::http::response::listed;
use crate::http::response::parent_link;
use crate::http::response::CONTENT_LENGTH;
use crate::http::response::CONTENT_TYPE;
use crate::http::response::NOT_FOUND_PAGE;
use crate::http::response::PAGE_HEAD;
use crate::http::response::PAGE_TAIL;
use crate::http::response::STATUS_NOT_FOUND;
use crate::http::response::STATUS_OK;
use crate::http::response::TEXT_HTML;
use crate::text::decimal;
use crate::text::trim_trailing;
use crate::http::request::parsed_request;
use crate::http::request::HttpRequest;
use crate::http::request::RequestView;
use crate::http::response::list_directory;
use crate::http::response::listing;
use crate::http::response::not_found;
use crate::http::response::send_404;
use crate::http::response::serve_file;
use crate::http::response::served;
use crate::http::response::RenderedResponse;
use crate::http::response::ResponseView;

verus! {

/// What the file system holds at the path of a request, at the time of asking.
pub enum ClassifiedTarget {
    /// Nothing is there.
    Missing,
    /// Something is there, but it could not be read.
    Unreadable,
    /// A directory, with the names of its immediate entries as they were read.
    Directory { children: Vec<String> },
    /// Anything else, with all of its content.
    File { content: Vec<u8> },
}

/// What a [`ClassifiedTarget`] holds, as mathematical values.
pub enum TargetView {
    Missing,
    Unreadable,
    Directory { children: Seq<Seq<char>> },
    File { content: Seq<u8> },
}

impl View for ClassifiedTarget {
    type V = TargetView;

    open spec fn view(&self) -> TargetView {
        match self {
            ClassifiedTarget::Missing => TargetView::Missing,
            ClassifiedTarget::Unreadable => TargetView::Unreadable,
            ClassifiedTarget::Directory { children } => TargetView::Directory {
                children: children.deep_view(),
            },
            ClassifiedTarget::File { content } => TargetView::File { content: content@ },
        }
    }
}

/// What to do once the client's bytes are read.
pub enum Step {
    /// Write this response; there is nothing to look up.
    Reply(RenderedResponse),
    /// Look at the file system at this request's path, then call [`respond`].
    Inspect(HttpRequest),
}

/// What a [`Step`] holds, as mathematical values.
pub enum StepView {
    Reply(ResponseView),
    Inspect(RequestView),
}

impl View for Step {
    type V = StepView;

    open spec fn view(&self) -> StepView {
        match self {
            Step::Reply(response) => StepView::Reply(response@),
            Step::Inspect(request) => StepView::Inspect(request@),
        }
    }
}

/// The step that follows the bytes `buffer`: bytes that carry no request are
/// answered at once, as if they had asked for something that is not there.
pub open spec fn next_step(buffer: Seq<u8>, root: Seq<char>) -> StepView {
    match parsed_request(buffer, root) {
        Some(request) => StepView::Inspect(request),
        None => StepView::Reply(not_found()),
    }
}

/// The response to `request`, given what its path holds.  What is missing or
/// cannot be read is answered alike.
pub open spec fn answer(request: RequestView, target: TargetView) -> ResponseView {
    match target {
        TargetView::Missing => not_found(),
        TargetView::Unreadable => not_found(),
        TargetView::Directory { children } => listing(request.path, request.raw_target, children),
        TargetView::File { content } => served(request.path, content),
    }
}

/// The response to the bytes `buffer`, where `target` is what the file system
/// holds at the path that they ask for: both steps, one after the other.
pub open spec fn exchange(buffer: Seq<u8>, root: Seq<char>, target: TargetView) -> ResponseView {
    match next_step(buffer, root) {
        StepView::Inspect(request) => answer(request, target),
        StepView::Reply(response) => response,
    }
}

/// A request for a file is answered with `200 OK`, the exact number of the
/// file's bytes as `Content-Length`, and the file's exact bytes as the body.
pub proof fn lemma_file_is_served_whole(buffer: Seq<u8>, root: Seq<char>, content: Seq<u8>)
    requires
        parsed_request(buffer, root) is Some,
    ensures
        ({
            let response = exchange(buffer, root, TargetView::File { content });
            &&& response.status_line == STATUS_OK@
            &&& response.headers[0] == (CONTENT_LENGTH@, decimal(content.len()))
            &&& response.body == content
        }),
{
}

/// Whatever the bytes of the client are, if nothing is found at the path
/// they ask for, the response is the one fixed `404` page.
pub proof fn lemma_missing_is_not_found(buffer: Seq<u8>, root: Seq<char>)
    ensures
        exchange(buffer, root, TargetView::Missing) == not_found(),
        not_found().status_line == STATUS_NOT_FOUND@,
        not_found().body == encode_utf8(NOT_FOUND_PAGE@),
{
}

/// A request for a directory is answered with `200 OK` and an HTML page in
/// which, behind the heading and the link to the parent, every child that is
/// not named like the directory has its link, and nothing else has one.
pub proof fn lemma_directory_is_listed(
    buffer: Seq<u8>,
    root: Seq<char>,
    children: Seq<Seq<char>>,
)
    requires
        parsed_request(buffer, root) is Some,
    ensures
        ({
            let request = parsed_request(buffer, root)->0;
            let response = exchange(buffer, root, TargetView::Directory { children });
            let shown = listed(file_name(request.path), children);
            &&& response.status_line == STATUS_OK@
            &&& response.headers[1] == (CONTENT_TYPE@, TEXT_HTML@)
            &&& response.body == encode_utf8(
                PAGE_HEAD@ + heading(request.path) + parent_link(request.raw_target) + anchors(
                    trim_trailing(request.raw_target, '/'),
                    shown,
                ) + PAGE_TAIL@,
            )
            &&& shown.to_multiset().count(file_name(request.path)) == 0
            &&& forall|name: Seq<char>|
                name != file_name(request.path) ==> #[trigger] shown.to_multiset().count(name)
                    == children.to_multiset().count(name)
        }),
{
    let request = parsed_request(buffer, root)->0;
    lemma_listed_exact(file_name(request.path), children);
}

/// The same bytes against the same state of the file system are answered
/// with the same bytes: a response depends on nothing else.
pub proof fn lemma_exchange_is_repeatable(
    buffer: Seq<u8>,
    root: Seq<char>,
    target: TargetView,
    first: ResponseView,
    second: ResponseView,
)
    requires
        first == exchange(buffer, root, target),
        second == exchange(buffer, root, target),
    ensures
        first.wire() == second.wire(),
{
}

/// Every response has one of the two status lines and exactly the two
/// headers, whatever was asked and whatever was found.
pub proof fn lemma_exchange_is_well_formed(buffer: Seq<u8>, root: Seq<char>, target: TargetView)
    ensures
        exchange(buffer, root, target).well_formed(),
{
}

/// Decides what follows the bytes that a client sent.
pub fn receive(buffer: &[u8], root: &str) -> (step: Step)
    ensures
        step@ == next_step(buffer@, root@),
        step matches Step::Reply(response) ==> response@.well_formed(),
        step matches Step::Inspect(request) ==> request@.well_formed(root@),
{
    match HttpRequest::from_buffer(buffer, root) {
        Some(request) => Step::Inspect(request),
        None => Step::Reply(send_404()),
    }
}

/// Renders the response to `request`, given what its path holds.
pub fn respond(request: &HttpRequest, target: ClassifiedTarget) -> (response: RenderedResponse)
    ensures
        response@ == answer(request@, target@),
        response@.well_formed(),
{
    match target {
        ClassifiedTarget::Missing => send_404(),
        ClassifiedTarget::Unreadable => send_404(),
        ClassifiedTarget::Directory { children } => list_directory(
            request.path.as_str(),
            request.raw_target.as_str(),
            &children,
        ),
        ClassifiedTarget::File { content } => serve_file(request.path.as_str(), content),
    }
}

} // verus!
