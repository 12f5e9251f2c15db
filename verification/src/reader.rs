//! Reading one request from a connection, step by step: the caller reads
//! from the connection what a step asks for, and hands it to the next step.
use crate::bytes::{CR, LF};
use crate::parser::{
    body_start, content_length, declared_length, head_end, head_end_from, is_blank_line,
    lemma_head_end_from, parse_http_request, parsed_request,
};
use crate::request::{HttpRequest, RequestError, RequestErrorView, RequestView};
use vstd::prelude::*;
use vstd::slice::{slice_subrange, slice_to_vec};

verus! {

/// What the reader needs next, or what came of the reading.
#[derive(Debug, Clone)]
pub enum ReadStep {
    /// The head is not complete. Next comes [`read_line_step`] with the
    /// bytes held here and with the bytes of the connection up to and with
    /// the next line feed, or up to its end where no line feed comes.
    NeedLine(Vec<u8>),
    /// The head is read and announces a body of this length. Next comes
    /// [`read_body_step`] with the request held here and with that many
    /// bytes of the connection, or with all that are left where it ends
    /// before.
    NeedBody(HttpRequest, usize),
    /// The request is read.
    Done(HttpRequest),
    /// There is no request to be had.
    Failed(RequestError),
}

/// The mathematical value of a [`ReadStep`].
pub enum ReadStepView {
    NeedLine(Seq<u8>),
    NeedBody(RequestView, nat),
    Done(RequestView),
    Failed(RequestErrorView),
}

impl View for ReadStep {
    type V = ReadStepView;

    open spec fn view(&self) -> ReadStepView {
        match self {
            ReadStep::NeedLine(block) => ReadStepView::NeedLine(block@),
            ReadStep::NeedBody(request, length) => ReadStepView::NeedBody(
                request@,
                *length as nat,
            ),
            ReadStep::Done(request) => ReadStepView::Done(request@),
            ReadStep::Failed(error) => ReadStepView::Failed(error@),
        }
    }
}

/// `request` with the body `body`.
pub open spec fn with_body(request: RequestView, body: Seq<u8>) -> RequestView {
    RequestView {
        method: request.method,
        target: request.target,
        version: request.version,
        headers: request.headers,
        body: Some(body),
    }
}

/// The request that a connection holds whose bytes, up to its end, are
/// `stream`: the head as [`parsed_request`] reads it, and for a body, where
/// the field `Content-Length` announces one, as many bytes after the head
/// as announced. Where fewer are left the body is truncated, and there is
/// no request. What follows the body is not looked at.
pub open spec fn read_request(stream: Seq<u8>) -> Result<RequestView, RequestErrorView> {
    match parsed_request(stream) {
        Err(error) => Err(error),
        Ok(request) => match declared_length(request.headers) {
            Err(error) => Err(error),
            Ok(None) => Ok(request),
            Ok(Some(length)) => body_step(request, length, stream.skip(body_start(stream))),
        },
    }
}

/// The body length that the head of `stream` announces, where the head is
/// a request's and announces one.
pub open spec fn announced_length(stream: Seq<u8>) -> Option<nat> {
    match parsed_request(stream) {
        Err(_) => None,
        Ok(request) => match declared_length(request.headers) {
            Err(_) => None,
            Ok(length) => length,
        },
    }
}

/// Whether `block` ends with a blank line.
pub open spec fn ends_head(block: Seq<u8>) -> bool {
    block.len() >= 2 && is_blank_line(block, block.len() - 2)
}

/// What comes after the head is read whole.
pub open spec fn after_head(block: Seq<u8>) -> ReadStepView {
    match parsed_request(block) {
        Err(error) => ReadStepView::Failed(error),
        Ok(request) => match declared_length(request.headers) {
            Err(error) => ReadStepView::Failed(error),
            Ok(None) => ReadStepView::Done(request),
            Ok(Some(length)) => ReadStepView::NeedBody(request, length),
        },
    }
}

/// The step after `chunk` came in behind `block`. The head is whole once
/// the bytes end with a blank line, or once nothing more came in because the
/// connection has ended.
pub open spec fn line_step(block: Seq<u8>, chunk: Seq<u8>) -> ReadStepView {
    let grown = block + chunk;
    if chunk.len() == 0 || ends_head(grown) {
        after_head(grown)
    } else {
        ReadStepView::NeedLine(grown)
    }
}

/// The request with its body, given the `bytes` that came in when `length`
/// were asked for: too few are a truncated body, and of more than asked for
/// only the first `length` count.
pub open spec fn body_step(request: RequestView, length: nat, bytes: Seq<u8>) -> Result<
    RequestView,
    RequestErrorView,
> {
    if bytes.len() < length {
        Err(RequestErrorView::TruncatedBody)
    } else {
        Ok(with_body(request, bytes.take(length as int)))
    }
}

/// The first step: nothing is read yet.
pub fn start_reading() -> (step: ReadStep)
    ensures
        step@ == ReadStepView::NeedLine(Seq::<u8>::empty()),
{
    ReadStep::NeedLine(Vec::new())
}

/// Whether `block` ends with a blank line.
pub fn head_complete(block: &[u8]) -> (complete: bool)
    ensures
        complete == ends_head(block@),
{
    let n = block.len();
    n >= 2 && block[n - 2] == CR && block[n - 1] == LF && (n == 2 || (n >= 4 && block[n - 4] == CR
        && block[n - 3] == LF))
}

/// Takes in the next `chunk` of the head behind `block`: see [`line_step`].
pub fn read_line_step(block: Vec<u8>, chunk: &[u8]) -> (step: ReadStep)
    ensures
        step@ == line_step(block@, chunk@),
{
    let mut grown = block;
    grown.extend_from_slice(chunk);
    assert(grown@ == block@ + chunk@);
    if chunk.len() > 0 && !head_complete(grown.as_slice()) {
        return ReadStep::NeedLine(grown);
    }
    let (request, _) = match parse_http_request(grown.as_slice()) {
        Ok(parsed) => parsed,
        Err(error) => {
            return ReadStep::Failed(error);
        },
    };
    match content_length(&request.headers) {
        Err(error) => ReadStep::Failed(error),
        Ok(None) => ReadStep::Done(request),
        Ok(Some(length)) => ReadStep::NeedBody(request, length),
    }
}

/// Takes in the body: see [`body_step`].
pub fn read_body_step(request: HttpRequest, length: usize, bytes: Vec<u8>) -> (read: Result<
    HttpRequest,
    RequestError,
>)
    ensures
        match read {
            Ok(whole) => body_step(request@, length as nat, bytes@) == Ok::<
                RequestView,
                RequestErrorView,
            >(whole@),
            Err(error) => body_step(request@, length as nat, bytes@) == Err::<
                RequestView,
                RequestErrorView,
            >(error@),
        },
        bytes@.len() < length ==> read == Err::<HttpRequest, RequestError>(
            RequestError::TruncatedBody,
        ),
        read matches Ok(whole) ==> whole.body matches Some(body) && body@.len() == length,
{
    if bytes.len() < length {
        return Err(RequestError::TruncatedBody);
    }
    let mut body = bytes;
    body.truncate(length);
    assert(body@ == bytes@.take(length as int));
    Ok(
        HttpRequest {
            method: request.method,
            target: request.target,
            version: request.version,
            headers: request.headers,
            body: Some(body),
        },
    )
}

/// A blank line that nothing blank precedes is where the head ends.
proof fn lemma_head_end_is(input: Seq<u8>, at: int)
    requires
        is_blank_line(input, at),
        forall|p: int| 0 <= p < at ==> !is_blank_line(input, p),
    ensures
        head_end(input) == at,
{
    lemma_head_end_from(input, 0);
}

/// Without a blank line the head ends with the input.
proof fn lemma_head_end_absent(input: Seq<u8>)
    requires
        forall|p: int| 0 <= p && p + 2 <= input.len() ==> !is_blank_line(input, p),
    ensures
        head_end(input) == input.len(),
{
    lemma_head_end_from(input, 0);
}

/// Reading line by line keeps clear of blank lines until one ends the head.
proof fn lemma_head_open(stream: Seq<u8>, pos: int, end: int)
    requires
        0 <= pos < end <= stream.len(),
        forall|p: int| 0 <= p && p + 2 <= pos ==> !is_blank_line(stream, p),
        forall|k: int| pos <= k < end - 1 ==> stream[k] != LF,
        !ends_head(stream.take(end)),
    ensures
        forall|p: int| 0 <= p && p + 2 <= end ==> !is_blank_line(stream, p),
{
    assert forall|p: int| 0 <= p && p + 2 <= end implies !is_blank_line(stream, p) by {
        if p + 2 == end && is_blank_line(stream, p) {
            assert(is_blank_line(stream.take(end), end - 2));
        }
    }
}

/// Reading line by line finds the head that the whole stream has.
proof fn lemma_head_whole(stream: Seq<u8>, pos: int, end: int)
    requires
        0 <= pos <= end <= stream.len(),
        forall|p: int| 0 <= p && p + 2 <= pos ==> !is_blank_line(stream, p),
        forall|k: int| pos <= k < end - 1 ==> stream[k] != LF,
        end == pos ==> pos == stream.len(),
        end == pos || ends_head(stream.take(end)),
    ensures
        parsed_request(stream.take(end)) == parsed_request(stream),
        body_start(stream) == end,
{
    let grown = stream.take(end);
    if end == pos {
        assert(grown == stream);
        lemma_head_end_absent(stream);
    } else {
        assert(is_blank_line(stream, end - 2));
        assert forall|p: int| 0 <= p < end - 2 implies !is_blank_line(stream, p) by {}
        assert forall|p: int| 0 <= p < end - 2 implies !is_blank_line(grown, p) by {
            if is_blank_line(grown, p) {
                assert(is_blank_line(stream, p));
            }
        }
        lemma_head_end_is(stream, end - 2);
        lemma_head_end_is(grown, end - 2);
        assert(grown.take(end - 2) == stream.take(end - 2));
    }
}

/// The end of the line that starts at `start`: the index after the next
/// line feed, or the length of `stream` where none follows.
fn line_end(stream: &[u8], start: usize) -> (end: usize)
    requires
        start <= stream.len(),
    ensures
        start <= end <= stream.len(),
        start < stream.len() ==> start < end,
        forall|k: int| start <= k < end - 1 ==> stream@[k] != LF,
{
    let mut end: usize = start;
    while end < stream.len()
        invariant
            start <= end <= stream.len(),
            forall|k: int| start <= k < end ==> stream@[k] != LF,
        decreases stream.len() - end,
    {
        if stream[end] == LF {
            return end + 1;
        }
        end += 1;
    }
    end
}

/// Reads the request of a connection whose bytes, up to its end, are
/// `stream`: see [`read_request`]. The bytes go through the same steps, line
/// by line and then the body, that a caller takes who reads them from a
/// connection.
pub fn reader_request(stream: &[u8]) -> (read: Result<HttpRequest, RequestError>)
    ensures
        match read {
            Ok(request) => read_request(stream@) == Ok::<RequestView, RequestErrorView>(request@),
            Err(error) => read_request(stream@) == Err::<RequestView, RequestErrorView>(error@),
        },
        announced_length(stream@) matches Some(length) ==> if stream@.len() - body_start(stream@)
            < length {
            read == Err::<HttpRequest, RequestError>(RequestError::TruncatedBody)
        } else {
            read matches Ok(request) && request.body matches Some(body) && body@.len() == length
        },
{
    let mut block: Vec<u8> = Vec::new();
    let mut pos: usize = 0;
    proof {
        assert(block@ == stream@.take(0));
    }
    loop
        invariant
            pos <= stream.len(),
            block@ == stream@.take(pos as int),
            forall|p: int| 0 <= p && p + 2 <= pos ==> !is_blank_line(stream@, p),
        decreases stream.len() - pos,
    {
        let end = line_end(stream, pos);
        let chunk = slice_subrange(stream, pos, end);
        proof {
            assert(block@ + chunk@ == stream@.take(end as int));
        }
        match read_line_step(block, chunk) {
            ReadStep::NeedLine(grown) => {
                proof {
                    lemma_head_open(stream@, pos as int, end as int);
                }
                block = grown;
                pos = end;
            },
            ReadStep::Done(request) => {
                proof {
                    lemma_head_whole(stream@, pos as int, end as int);
                }
                return Ok(request);
            },
            ReadStep::Failed(error) => {
                proof {
                    lemma_head_whole(stream@, pos as int, end as int);
                }
                return Err(error);
            },
            ReadStep::NeedBody(request, length) => {
                proof {
                    lemma_head_whole(stream@, pos as int, end as int);
                }
                let left = stream.len() - end;
                let taken = if left < length {
                    left
                } else {
                    length
                };
                let bytes = slice_to_vec(slice_subrange(stream, end, end + taken));
                proof {
                    let rest = stream@.skip(end as int);
                    assert(rest.len() == left);
                    if left >= length {
                        assert(bytes@.take(length as int) == rest.take(length as int));
                    }
                }
                return read_body_step(request, length, bytes);
            },
        }
    }
}

} // verus!
