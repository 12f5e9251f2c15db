//! The grammar of a request's head: the request line and the header lines,
//! up to the blank line that ends them.
use crate::bytes::{
    bytes_eq, crlf, parse_number, parsed_number, split_whitespace, tokens, views, COLON, CR, LF,
    SPACE,
};
use crate::headers::Headers;
use crate::request::{HttpMethod, HttpRequest, RequestError, RequestErrorView, RequestView};
use vstd::prelude::*;
use vstd::slice::{slice_subrange, slice_to_vec};
use vstd::string::StringSliceAdditionalSpecFns;

verus! {

/// What a request line says: its three words are the method, the target and
/// the protocol version. A line of fewer or more words is refused, and so
/// is, after that, one whose method is neither `GET` nor `POST`.
pub open spec fn parsed_request_line(line: Seq<u8>) -> Result<
    (HttpMethod, Seq<u8>, Seq<u8>),
    RequestErrorView,
> {
    let words = tokens(line);
    if words.len() == 0 {
        Err(RequestErrorView::MissingMethod)
    } else if words.len() == 1 {
        Err(RequestErrorView::MissingTarget)
    } else if words.len() == 2 {
        Err(RequestErrorView::MissingVersion)
    } else if words.len() > 3 {
        Err(RequestErrorView::MalformedRequestLine)
    } else if words[0] == "GET".spec_bytes() {
        Ok((HttpMethod::Get, words[1], words[2]))
    } else if words[0] == "POST".spec_bytes() {
        Ok((HttpMethod::Post, words[1], words[2]))
    } else {
        Err(RequestErrorView::UnsupportedMethod)
    }
}

/// Parses a request line: see [`parsed_request_line`].
pub fn parse_request_line(line: &[u8]) -> (parsed: Result<
    (HttpMethod, Vec<u8>, Vec<u8>),
    RequestError,
>)
    ensures
        match parsed {
            Ok((method, target, version)) => parsed_request_line(line@) == Ok::<
                (HttpMethod, Seq<u8>, Seq<u8>),
                RequestErrorView,
            >((method, target@, version@)),
            Err(error) => parsed_request_line(line@) == Err::<
                (HttpMethod, Seq<u8>, Seq<u8>),
                RequestErrorView,
            >(error@),
        },
{
    let mut words = split_whitespace(line);
    let ghost all = tokens(line@);
    if words.len() == 0 {
        return Err(RequestError::MissingMethod);
    }
    if words.len() == 1 {
        return Err(RequestError::MissingTarget);
    }
    if words.len() == 2 {
        return Err(RequestError::MissingVersion);
    }
    if words.len() > 3 {
        return Err(RequestError::MalformedRequestLine);
    }
    assert(all[0] == words@[0]@ && all[1] == words@[1]@ && all[2] == words@[2]@);
    let version = words.pop().unwrap();
    let target = words.pop().unwrap();
    let name = words.pop().unwrap();
    if bytes_eq(name.as_slice(), "GET".as_bytes()) {
        Ok((HttpMethod::Get, target, version))
    } else if bytes_eq(name.as_slice(), "POST".as_bytes()) {
        Ok((HttpMethod::Post, target, version))
    } else {
        Err(RequestError::UnsupportedMethod)
    }
}

/// Whether a colon and a space stand at `i` and `i + 1`.
pub open spec fn is_delimiter(line: Seq<u8>, i: int) -> bool {
    0 <= i && i + 1 < line.len() && line[i] == COLON && line[i + 1] == SPACE
}

/// The index of the first colon-and-space at or after `from`, or the length
/// of the line where there is none.
pub open spec fn delimiter_index(line: Seq<u8>, from: int) -> int
    decreases line.len() - from,
{
    if from >= line.len() {
        line.len() as int
    } else if is_delimiter(line, from) {
        from
    } else {
        delimiter_index(line, from + 1)
    }
}

/// What a header line says: the name before its first colon-and-space and
/// the value after it. A line without one is refused, and the error holds
/// the line.
pub open spec fn parsed_header_line(line: Seq<u8>) -> Result<(Seq<u8>, Seq<u8>), RequestErrorView> {
    let at = delimiter_index(line, 0);
    if at < line.len() {
        Ok((line.take(at), line.skip(at + 2)))
    } else {
        Err(RequestErrorView::MalformedHeader(line))
    }
}

/// Where [`delimiter_index`] points: at the first colon-and-space, if any.
pub proof fn lemma_delimiter_index(line: Seq<u8>, from: int)
    requires
        0 <= from,
    ensures
        from <= delimiter_index(line, from) || delimiter_index(line, from) == line.len(),
        delimiter_index(line, from) <= line.len() || delimiter_index(line, from) == from,
        delimiter_index(line, from) < line.len() ==> is_delimiter(
            line,
            delimiter_index(line, from),
        ),
        forall|i: int| from <= i < delimiter_index(line, from) ==> !is_delimiter(line, i),
    decreases line.len() - from,
{
    if from < line.len() && !is_delimiter(line, from) {
        lemma_delimiter_index(line, from + 1);
    }
}

/// Parses a header line: see [`parsed_header_line`].
pub fn parse_header_line(line: &[u8]) -> (parsed: Result<(Vec<u8>, Vec<u8>), RequestError>)
    ensures
        match parsed {
            Ok((name, value)) => parsed_header_line(line@) == Ok::<
                (Seq<u8>, Seq<u8>),
                RequestErrorView,
            >((name@, value@)),
            Err(error) => parsed_header_line(line@) == Err::<(Seq<u8>, Seq<u8>), RequestErrorView>(
                error@,
            ),
        },
{
    let mut at: usize = 0;
    while at < line.len()
        invariant
            at <= line.len(),
            delimiter_index(line@, 0) == delimiter_index(line@, at as int),
        decreases line.len() - at,
    {
        if line[at] == COLON && at + 1 < line.len() && line[at + 1] == SPACE {
            let name = slice_to_vec(slice_subrange(line, 0, at));
            let value = slice_to_vec(slice_subrange(line, at + 2, line.len()));
            return Ok((name, value));
        }
        at += 1;
    }
    Err(RequestError::MalformedHeader(slice_to_vec(line)))
}

/// The pieces of `block` between line ends, each a carriage return and a
/// line feed. There is always at least one piece; the last one is what
/// follows the last line end.
pub open spec fn raw_lines(block: Seq<u8>) -> Seq<Seq<u8>>
    decreases block.len(),
{
    if block.len() == 0 {
        seq![Seq::<u8>::empty()]
    } else {
        let before = raw_lines(block.drop_last());
        let open = before.last();
        if block.last() == LF && open.len() > 0 && open.last() == CR {
            before.update(before.len() - 1, open.drop_last()).push(Seq::<u8>::empty())
        } else {
            before.update(before.len() - 1, open.push(block.last()))
        }
    }
}

/// The lines of `block`. Each ends with a line end, but the last one may end
/// with the block instead.
pub open spec fn lines(block: Seq<u8>) -> Seq<Seq<u8>> {
    let raw = raw_lines(block);
    if raw.last().len() == 0 {
        raw.drop_last()
    } else {
        raw
    }
}

/// The pieces written one after the other with a line end between
/// neighbours.
pub open spec fn joined_lines(pieces: Seq<Seq<u8>>) -> Seq<u8>
    decreases pieces.len(),
{
    if pieces.len() == 0 {
        Seq::<u8>::empty()
    } else if pieces.len() == 1 {
        pieces[0]
    } else {
        joined_lines(pieces.drop_last()) + crlf() + pieces.last()
    }
}

/// There is always a piece, and the pieces with the line ends put back
/// between them are the block.
pub proof fn lemma_raw_lines_rejoin(block: Seq<u8>)
    ensures
        raw_lines(block).len() >= 1,
        joined_lines(raw_lines(block)) == block,
    decreases block.len(),
{
    if block.len() > 0 {
        let before = raw_lines(block.drop_last());
        let open = before.last();
        lemma_raw_lines_rejoin(block.drop_last());
        assert(block == block.drop_last().push(block.last()));
        if block.last() == LF && open.len() > 0 && open.last() == CR {
            let closed = before.update(before.len() - 1, open.drop_last());
            assert(closed.push(Seq::<u8>::empty()).drop_last() == closed);
            assert(open == open.drop_last().push(CR));
            if before.len() > 1 {
                assert(closed.drop_last() == before.drop_last());
            }
            assert(joined_lines(closed) + crlf() == joined_lines(before).push(LF));
        } else {
            let grown = before.update(before.len() - 1, open.push(block.last()));
            if before.len() > 1 {
                assert(grown.drop_last() == before.drop_last());
            }
        }
    }
}

/// Splits `block` into its lines: see [`lines`].
pub fn split_lines(block: &[u8]) -> (found: Vec<Vec<u8>>)
    ensures
        views(found@) == lines(block@),
{
    let mut found: Vec<Vec<u8>> = Vec::new();
    let mut open: Vec<u8> = Vec::new();
    let mut i: usize = 0;
    proof {
        assert(views(found@).push(open@) == raw_lines(block@.take(0)));
    }
    while i < block.len()
        invariant
            i <= block.len(),
            views(found@).push(open@) == raw_lines(block@.take(i as int)),
        decreases block.len() - i,
    {
        let ghost before = raw_lines(block@.take(i as int));
        let ghost closed = views(found@);
        proof {
            assert(block@.take(i + 1).drop_last() == block@.take(i as int));
            assert(before.last() == open@);
        }
        let b = block[i];
        if b == LF && open.len() > 0 && open[open.len() - 1] == CR {
            open.pop();
            found.push(open);
            open = Vec::new();
            proof {
                assert(views(found@).push(open@) == before.update(
                    before.len() - 1,
                    before.last().drop_last(),
                ).push(Seq::<u8>::empty()));
            }
        } else {
            open.push(b);
            proof {
                assert(views(found@).push(open@) == before.update(
                    before.len() - 1,
                    before.last().push(b),
                ));
            }
        }
        i += 1;
    }
    proof {
        assert(block@.take(i as int) == block@);
        assert(raw_lines(block@).last() == open@);
        assert(raw_lines(block@).drop_last() == views(found@));
    }
    if open.len() > 0 {
        let ghost closed = views(found@);
        found.push(open);
        proof {
            assert(views(found@) == closed.push(open@));
        }
    }
    found
}

/// The map that the header lines fill, one after the other, so that of two
/// fields of one name the later stays. The first line that is no header line
/// gives the error.
pub open spec fn parsed_headers(header_lines: Seq<Seq<u8>>) -> Result<
    Map<Seq<u8>, Seq<u8>>,
    RequestErrorView,
>
    decreases header_lines.len(),
{
    if header_lines.len() == 0 {
        Ok(Map::empty())
    } else {
        match parsed_headers(header_lines.drop_last()) {
            Err(error) => Err(error),
            Ok(fields) => match parsed_header_line(header_lines.last()) {
                Err(error) => Err(error),
                Ok((name, value)) => Ok(fields.insert(name, value)),
            },
        }
    }
}

/// The request that the lines of a head describe: the first is the request
/// line, the others are header lines. A head without lines has no method.
/// The request has no body yet.
pub open spec fn parsed_head(head_lines: Seq<Seq<u8>>) -> Result<RequestView, RequestErrorView> {
    if head_lines.len() == 0 {
        Err(RequestErrorView::MissingMethod)
    } else {
        match parsed_request_line(head_lines[0]) {
            Err(error) => Err(error),
            Ok((method, target, version)) => match parsed_headers(head_lines.skip(1)) {
                Err(error) => Err(error),
                Ok(headers) => Ok(RequestView { method, target, version, headers, body: None }),
            },
        }
    }
}

/// Whether a blank line stands at `at`: a line end that follows another
/// line end, or that the input starts with.
pub open spec fn is_blank_line(input: Seq<u8>, at: int) -> bool {
    &&& 0 <= at && at + 2 <= input.len()
    &&& input[at] == CR && input[at + 1] == LF
    &&& (at == 0 || (at >= 2 && input[at - 2] == CR && input[at - 1] == LF))
}

/// The index of the first blank line at or after `from`, or the length of
/// the input where there is none.
pub open spec fn head_end_from(input: Seq<u8>, from: int) -> int
    decreases input.len() - from,
{
    if from >= input.len() {
        input.len() as int
    } else if is_blank_line(input, from) {
        from
    } else {
        head_end_from(input, from + 1)
    }
}

/// Where the head of a request ends: at its first blank line, or with the
/// input where there is none.
pub open spec fn head_end(input: Seq<u8>) -> int {
    head_end_from(input, 0)
}

/// Where the body starts: after the blank line, or, where there is none,
/// at the end of the input.
pub open spec fn body_start(input: Seq<u8>) -> int {
    if head_end(input) < input.len() {
        head_end(input) + 2
    } else {
        input.len() as int
    }
}

/// Where [`head_end_from`] points: at the first blank line, if any.
pub proof fn lemma_head_end_from(input: Seq<u8>, from: int)
    requires
        0 <= from <= input.len(),
    ensures
        from <= head_end_from(input, from) <= input.len(),
        head_end_from(input, from) < input.len() ==> is_blank_line(
            input,
            head_end_from(input, from),
        ),
        forall|i: int| from <= i < head_end_from(input, from) ==> !is_blank_line(input, i),
    decreases input.len() - from,
{
    if from < input.len() && !is_blank_line(input, from) {
        lemma_head_end_from(input, from + 1);
    }
}

/// The head of the request that `input` starts with: what the lines before
/// its first blank line describe.
pub open spec fn parsed_request(input: Seq<u8>) -> Result<RequestView, RequestErrorView> {
    parsed_head(lines(input.take(head_end(input))))
}

/// Finds the end of the head: see [`head_end`].
pub fn find_head_end(input: &[u8]) -> (end: usize)
    ensures
        end == head_end(input@),
        end <= input.len(),
{
    let mut at: usize = 0;
    while at < input.len()
        invariant
            at <= input.len(),
            head_end(input@) == head_end_from(input@, at as int),
        decreases input.len() - at,
    {
        if input[at] == CR && at + 1 < input.len() && input[at + 1] == LF && (at == 0 || (at >= 2
            && input[at - 2] == CR && input[at - 1] == LF)) {
            return at;
        }
        at += 1;
    }
    at
}

/// Parses the header lines: see [`parsed_headers`].
fn parse_headers(header_lines: &[Vec<u8>]) -> (parsed: Result<Headers, RequestError>)
    ensures
        match parsed {
            Ok(headers) => parsed_headers(views(header_lines@)) == Ok::<
                Map<Seq<u8>, Seq<u8>>,
                RequestErrorView,
            >(headers@),
            Err(error) => parsed_headers(views(header_lines@)) == Err::<
                Map<Seq<u8>, Seq<u8>>,
                RequestErrorView,
            >(error@),
        },
{
    let ghost all = views(header_lines@);
    let mut headers = Headers::new();
    let mut i: usize = 0;
    proof {
        assert(all.take(0) == Seq::<Seq<u8>>::empty());
    }
    while i < header_lines.len()
        invariant
            i <= header_lines.len(),
            all == views(header_lines@),
            parsed_headers(all.take(i as int)) == Ok::<Map<Seq<u8>, Seq<u8>>, RequestErrorView>(
                headers@,
            ),
        decreases header_lines.len() - i,
    {
        proof {
            assert(all.take(i + 1).drop_last() == all.take(i as int));
            assert(all.take(i + 1).last() == header_lines@[i as int]@);
        }
        match parse_header_line(header_lines[i].as_slice()) {
            Ok((name, value)) => {
                headers.insert(name, value);
            },
            Err(error) => {
                proof {
                    lemma_headers_error_stays(all, i + 1);
                }
                return Err(error);
            },
        }
        i += 1;
    }
    proof {
        assert(all.take(i as int) == all);
    }
    Ok(headers)
}

/// Once a line is refused, the lines after it change nothing.
proof fn lemma_headers_error_stays(header_lines: Seq<Seq<u8>>, k: int)
    requires
        0 <= k <= header_lines.len(),
        parsed_headers(header_lines.take(k)) is Err,
    ensures
        parsed_headers(header_lines) == parsed_headers(header_lines.take(k)),
    decreases header_lines.len(),
{
    if k == header_lines.len() {
        assert(header_lines.take(k) == header_lines);
    } else {
        assert(header_lines.drop_last().take(k) == header_lines.take(k));
        lemma_headers_error_stays(header_lines.drop_last(), k);
    }
}

/// Parses the head of the request that `input` starts with: the request
/// line and the header lines, up to the first blank line. Also returned is
/// the index at which the body starts: after the blank line, or at the end
/// of the input where it holds no blank line. What stands there is not looked
/// at, and the request returned has no body.
pub fn parse_http_request(input: &[u8]) -> (parsed: Result<(HttpRequest, usize), RequestError>)
    ensures
        match parsed {
            Ok((request, rest)) => parsed_request(input@) == Ok::<RequestView, RequestErrorView>(
                request@,
            ) && rest == body_start(input@),
            Err(error) => parsed_request(input@) == Err::<RequestView, RequestErrorView>(error@),
        },
{
    let end = find_head_end(input);
    let head_lines = split_lines(slice_subrange(input, 0, end));
    if head_lines.len() == 0 {
        return Err(RequestError::MissingMethod);
    }
    let header_lines = slice_subrange(head_lines.as_slice(), 1, head_lines.len());
    proof {
        assert(views(header_lines@) == views(head_lines@).skip(1));
    }
    let (method, target, version) = match parse_request_line(head_lines[0].as_slice()) {
        Ok(words) => words,
        Err(error) => {
            return Err(error);
        },
    };
    let headers = match parse_headers(header_lines) {
        Ok(headers) => headers,
        Err(error) => {
            return Err(error);
        },
    };
    let rest: usize = if end < input.len() {
        proof {
            lemma_head_end_from(input@, 0);
        }
        end + 2
    } else {
        end
    };
    Ok((HttpRequest { method, target, version, headers, body: None }, rest))
}

/// The body length that the headers announce: the number in the field
/// `Content-Length`. Without the field there is no body. A value that is no
/// number, or a number that no `usize` holds, is refused.
pub open spec fn declared_length(headers: Map<Seq<u8>, Seq<u8>>) -> Result<
    Option<nat>,
    RequestErrorView,
> {
    if !headers.contains_key("Content-Length".spec_bytes()) {
        Ok(None)
    } else {
        match parsed_number(headers["Content-Length".spec_bytes()]) {
            Some(length) => if length <= usize::MAX {
                Ok(Some(length))
            } else {
                Err(RequestErrorView::InvalidContentLength)
            },
            None => Err(RequestErrorView::InvalidContentLength),
        }
    }
}

/// The length of an optional length.
pub open spec fn optional_length(length: Option<usize>) -> Option<nat> {
    match length {
        Some(length) => Some(length as nat),
        None => None,
    }
}

/// Reads the body length that the headers announce: see [`declared_length`].
pub fn content_length(headers: &Headers) -> (length: Result<Option<usize>, RequestError>)
    ensures
        match length {
            Ok(length) => declared_length(headers@) == Ok::<Option<nat>, RequestErrorView>(
                optional_length(length),
            ),
            Err(error) => declared_length(headers@) == Err::<Option<nat>, RequestErrorView>(error@),
        },
{
    match headers.get("Content-Length".as_bytes()) {
        None => Ok(None),
        Some(value) => match parse_number(value.as_slice()) {
            Some(length) => Ok(Some(length)),
            None => Err(RequestError::InvalidContentLength),
        },
    }
}

} // verus!
