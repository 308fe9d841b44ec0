//! Decoding a request from the bytes of one connection.
//!
//! `Decoder` is the incremental form: it says what to read next and takes
//! what was read. `Request::parse` is the same decoding over a buffer that
//! holds everything the peer sent.

use crate::parser::{json_outcome, outcome_view, parse_json};
use crate::request::{params_of, query_of, Request, RequestView};
use crate::text::{
    blank, chars_of, decimal, find, find_char, fold_case, is_blank, lemma_decimal_reads_back,
    lemma_find_absent, matches_ignoring_case, parse_unsigned, same_ignoring_case, skip_spaces,
    text_from_utf8, text_of, to_upper, trim, trim_bounds, trim_start, trimmed_len,
    unsigned_value, upper_text, word_bounds, words,
};
use vstd::prelude::*;
use vstd::utf8::{decode_utf8, valid_utf8};

verus! {

// The parts of a request

/// The body that a request stores for a JSON parse result: the compact
/// rendering, or a diagnostic that carries the parser's message.
pub open spec fn body_text(outcome: Result<Seq<char>, Seq<char>>) -> Seq<char> {
    match outcome {
        Ok(text) => text,
        Err(message) => "Failed to parse JSON: "@ + message,
    }
}

/// The request that a request line and the parse result of the body make:
/// the first word, in upper case, is the method, the second is the target,
/// which is the path and also gives the query and the parameters. `None`
/// where the line has fewer than two words.
pub open spec fn assembled(line: Seq<char>, outcome: Result<Seq<char>, Seq<char>>) -> Option<
    RequestView,
> {
    let tokens = words(line);
    if tokens.len() >= 2 {
        Some(
            RequestView {
                path: tokens[1],
                method: to_upper(tokens[0]),
                body: Some(body_text(outcome)),
                query: query_of(tokens[1]),
                params: params_of(tokens[1]),
            },
        )
    } else {
        None
    }
}

/// The mathematical value of an optional request.
pub open spec fn optional_request(r: Option<Request>) -> Option<RequestView> {
    match r {
        Some(request) => Some(request@),
        None => None,
    }
}

impl Request {
    /// Builds the request from its request line and the parse result of its
    /// body.
    pub fn assemble(request_line: &str, outcome: Result<String, String>) -> (r: Option<Request>)
        ensures
            optional_request(r) == assembled(request_line@, outcome_view(outcome)),
    {
        let chars = chars_of(request_line);
        let tokens = word_bounds(&chars);
        if tokens.len() < 2 {
            return None;
        }
        let (method_from, method_to) = tokens[0];
        let (target_from, target_to) = tokens[1];
        let method = upper_text(&chars, method_from, method_to);
        let target = text_of(&chars, target_from, target_to);
        let query = Request::parse_query(target.as_str());
        let params = Request::parse_params(target.as_str());
        let body = match outcome {
            Ok(text) => text,
            Err(message) => String::from_str("Failed to parse JSON: ").concat(message.as_str()),
        };
        Some(Request { path: target, method, body: Some(body), query, params })
    }
}

// The length header

/// The length that a header line declares. The line declares one where the
/// text before its first `:` is `content-length` in any case, and the text
/// between the first and the second `:`, white space trimmed, is an unsigned
/// decimal numeral that fits the machine word.
pub open spec fn header_length(header: Seq<char>) -> Option<usize> {
    let colon = find(header, ':', 0);
    let end = find(header, ':', colon + 1);
    if colon < header.len() && same_ignoring_case(header.subrange(0, colon), "content-length"@) {
        match unsigned_value(trim(header.subrange(colon + 1, end))) {
            Some(v) => if v <= usize::MAX {
                Some(v as usize)
            } else {
                None
            },
            None => None,
        }
    } else {
        None
    }
}

/// The content length after a header line: the line's own where it declares
/// one, else the length so far.
pub open spec fn next_length(header: Seq<char>, so_far: usize) -> usize {
    match header_length(header) {
        Some(n) => n,
        None => so_far,
    }
}

/// The length that the header line `header` declares, if it declares one.
pub fn declared_length(header: &Vec<char>) -> (r: Option<usize>)
    ensures
        r == header_length(header@),
{
    let colon = find_char(header, ':', 0);
    if colon >= header.len() {
        return None;
    }
    let name = chars_of("content-length");
    if !matches_ignoring_case(header, 0, colon, &name) {
        return None;
    }
    let end = find_char(header, ':', colon + 1);
    let (from, to) = trim_bounds(header, colon + 1, end);
    parse_unsigned(header, from, to)
}

// The decoder, read by read

/// Where the decoding of one request stands.
#[derive(Debug)]
pub enum Decoder {
    /// Nothing was read yet; the request line comes first.
    RequestLine,
    /// The request line was read; header lines follow.
    Headers { request_line: String, content_length: usize },
    /// The headers ended and declared a body of `content_length` bytes.
    Body { request_line: String, content_length: usize },
    /// Decoding ended, with a request or without.
    Closed,
}

/// What one read on the connection gave.
#[derive(Debug)]
pub enum Input {
    /// The bytes that were read: a line with its terminator, the rest of the
    /// stream where it ends before one, or the bytes of the body.
    Data(Vec<u8>),
    /// The read failed, or the stream ended before the bytes asked for.
    Failed,
}

/// What the decoder needs next.
#[derive(Debug)]
pub enum Demand {
    /// One line: the bytes up to and including the next line feed, or up to
    /// the end of the stream.
    Line,
    /// Exactly this many bytes.
    Bytes(usize),
    /// Nothing more: decoding ended with this result.
    Done(Option<Request>),
}

/// The mathematical value of a `Decoder`.
pub enum DecoderView {
    RequestLine,
    Headers { request_line: Seq<char>, content_length: usize },
    Body { request_line: Seq<char>, content_length: usize },
    Closed,
}

/// The mathematical value of a `Demand`.
pub enum DemandView {
    Line,
    Bytes(usize),
    Done(Option<RequestView>),
}

impl View for Decoder {
    type V = DecoderView;

    open spec fn view(&self) -> DecoderView {
        match self {
            Decoder::RequestLine => DecoderView::RequestLine,
            Decoder::Headers { request_line, content_length } => DecoderView::Headers {
                request_line: request_line@,
                content_length: *content_length,
            },
            Decoder::Body { request_line, content_length } => DecoderView::Body {
                request_line: request_line@,
                content_length: *content_length,
            },
            Decoder::Closed => DecoderView::Closed,
        }
    }
}

impl View for Input {
    type V = Option<Seq<u8>>;

    open spec fn view(&self) -> Option<Seq<u8>> {
        match self {
            Input::Data(bytes) => Some(bytes@),
            Input::Failed => None,
        }
    }
}

impl View for Demand {
    type V = DemandView;

    open spec fn view(&self) -> DemandView {
        match self {
            Demand::Line => DemandView::Line,
            Demand::Bytes(n) => DemandView::Bytes(*n),
            Demand::Done(r) => DemandView::Done(optional_request(*r)),
        }
    }
}

/// Decoding has failed: the decoder is closed and there is no request.
pub open spec fn failed() -> (DecoderView, DemandView) {
    (DecoderView::Closed, DemandView::Done(None))
}

/// The decoder's transition: the state and the demand that follow `state`
/// when the read it asked for gave `input`.
pub open spec fn step_of(state: DecoderView, input: Option<Seq<u8>>) -> (DecoderView, DemandView) {
    match (state, input) {
        (DecoderView::RequestLine, Some(bytes)) => if valid_utf8(bytes) {
            (
                DecoderView::Headers { request_line: decode_utf8(bytes), content_length: 0 },
                DemandView::Line,
            )
        } else {
            failed()
        },
        (DecoderView::Headers { request_line, content_length }, Some(bytes)) => if !valid_utf8(
            bytes,
        ) {
            failed()
        } else if is_blank(decode_utf8(bytes)) {
            if content_length > 0 {
                (
                    DecoderView::Body { request_line, content_length },
                    DemandView::Bytes(content_length),
                )
            } else {
                failed()
            }
        } else {
            (
                DecoderView::Headers {
                    request_line,
                    content_length: next_length(decode_utf8(bytes), content_length),
                },
                DemandView::Line,
            )
        },
        (DecoderView::Body { request_line, content_length }, Some(bytes)) => if bytes.len()
            == content_length && valid_utf8(bytes) {
            (
                DecoderView::Closed,
                DemandView::Done(assembled(request_line, json_outcome(decode_utf8(bytes)))),
            )
        } else {
            failed()
        },
        _ => failed(),
    }
}

impl Decoder {
    /// A decoder at the start of a connection. Its first demand is a line.
    pub fn new() -> (r: (Decoder, Demand))
        ensures
            r.0@ == DecoderView::RequestLine,
            r.1@ == DemandView::Line,
    {
        (Decoder::RequestLine, Demand::Line)
    }

    /// Takes what the last read gave and says what to read next.
    pub fn step(self, input: Input) -> (r: (Decoder, Demand))
        ensures
            (r.0@, r.1@) == step_of(self@, input@),
    {
        let bytes = match input {
            Input::Failed => {
                return (Decoder::Closed, Demand::Done(None));
            },
            Input::Data(bytes) => bytes,
        };
        match self {
            Decoder::Closed => (Decoder::Closed, Demand::Done(None)),
            Decoder::RequestLine => match text_from_utf8(bytes) {
                Some(request_line) => (
                    Decoder::Headers { request_line, content_length: 0 },
                    Demand::Line,
                ),
                None => (Decoder::Closed, Demand::Done(None)),
            },
            Decoder::Headers { request_line, content_length } => match text_from_utf8(bytes) {
                None => (Decoder::Closed, Demand::Done(None)),
                Some(header) => {
                    let chars = chars_of(header.as_str());
                    assert(chars@.subrange(0, chars@.len() as int) == chars@);
                    if blank(&chars, 0, chars.len()) {
                        if content_length > 0 {
                            (
                                Decoder::Body { request_line, content_length },
                                Demand::Bytes(content_length),
                            )
                        } else {
                            (Decoder::Closed, Demand::Done(None))
                        }
                    } else {
                        let content_length = match declared_length(&chars) {
                            Some(n) => n,
                            None => content_length,
                        };
                        (Decoder::Headers { request_line, content_length }, Demand::Line)
                    }
                },
            },
            Decoder::Body { request_line, content_length } => {
                if bytes.len() != content_length {
                    return (Decoder::Closed, Demand::Done(None));
                }
                match text_from_utf8(bytes) {
                    None => (Decoder::Closed, Demand::Done(None)),
                    Some(payload) => {
                        let outcome = parse_json(payload.as_str());
                        let request = Request::assemble(request_line.as_str(), outcome);
                        (Decoder::Closed, Demand::Done(request))
                    },
                }
            },
        }
    }
}

// Whole messages

/// The index just past the first line feed of `raw` at or after `from`, or
/// `raw.len()` where there is none: the end of the line that begins at `from`.
pub open spec fn line_end(raw: Seq<u8>, from: int) -> int
    decreases raw.len() - from,
{
    if from >= raw.len() {
        raw.len() as int
    } else if raw[from] == 10u8 {
        from + 1
    } else {
        line_end(raw, from + 1)
    }
}

/// How the header lines of a message end.
pub enum Head {
    /// A header line is not well-formed UTF-8.
    Broken,
    /// The blank line, or the end of the stream, ends the headers at byte
    /// `at`, and the last header that declared a length declared
    /// `content_length`.
    Ends { at: int, content_length: usize },
}

/// The end of the header lines of `raw` that begin at `from`, where the
/// lines before declared the length `so_far`.
pub open spec fn head_from(raw: Seq<u8>, from: int, so_far: usize) -> Head
    decreases raw.len() - from,
{
    let end = line_end(raw, from);
    let line = raw.subrange(from, end);
    if !valid_utf8(line) {
        Head::Broken
    } else if is_blank(decode_utf8(line)) {
        Head::Ends { at: end, content_length: so_far }
    } else if from < end <= raw.len() {
        head_from(raw, end, next_length(decode_utf8(line), so_far))
    } else {
        Head::Broken
    }
}

/// The request that `raw` holds, given its request line and the end of its
/// headers: there is one where the declared length is not zero and `raw`
/// holds that many bytes of well-formed UTF-8 after the headers.
pub open spec fn completed(raw: Seq<u8>, request_line: Seq<char>, head: Head) -> Option<
    RequestView,
> {
    match head {
        Head::Broken => None,
        Head::Ends { at, content_length } => {
            let body = raw.subrange(at, at + content_length);
            if content_length == 0 || at + content_length > raw.len() || !valid_utf8(body) {
                None
            } else {
                assembled(request_line, json_outcome(decode_utf8(body)))
            }
        },
    }
}

/// The request that the bytes `raw` of one connection hold, if they hold one.
pub open spec fn decoded(raw: Seq<u8>) -> Option<RequestView> {
    let first = line_end(raw, 0);
    let request_line = raw.subrange(0, first);
    if valid_utf8(request_line) {
        completed(raw, decode_utf8(request_line), head_from(raw, first, 0))
    } else {
        None
    }
}

/// The end of the line of `raw` that begins at `from`.
fn next_line(raw: &[u8], from: usize) -> (end: usize)
    requires
        from <= raw.len(),
    ensures
        end == line_end(raw@, from as int),
        from <= end <= raw.len(),
        from < raw.len() ==> from < end,
{
    let mut i: usize = from;
    while i < raw.len() && raw[i] != 10u8
        invariant
            from <= i <= raw.len(),
            line_end(raw@, from as int) == line_end(raw@, i as int),
        decreases raw.len() - i,
    {
        i += 1;
    }
    if i < raw.len() {
        i + 1
    } else {
        i
    }
}

/// The bytes `raw[from..to]` on their own.
fn bytes_of(raw: &[u8], from: usize, to: usize) -> (r: Vec<u8>)
    requires
        from <= to <= raw.len(),
    ensures
        r@ == raw@.subrange(from as int, to as int),
{
    let mut r: Vec<u8> = Vec::new();
    let mut i: usize = from;
    while i < to
        invariant
            from <= i <= to <= raw.len(),
            r@ == raw@.subrange(from as int, i as int),
        decreases to - i,
    {
        r.push(raw[i]);
        i += 1;
    }
    r
}

/// How far a decoder is from its end: a number that every step lowers,
/// but for a header line that leaves the decoder among the headers.
pub open spec fn phase(state: DecoderView, demand: DemandView) -> int {
    match demand {
        DemandView::Done(_) => 0,
        DemandView::Bytes(_) => 1,
        DemandView::Line => if state is RequestLine {
            3
        } else {
            2
        },
    }
}

/// What a decoder in `state` with the demand `demand` ends with when its
/// reads are served from `raw`, from byte `at` on: a line is cut at the next
/// line feed or at the end of `raw`, and a read of more bytes than are left
/// fails.
pub open spec fn fed(raw: Seq<u8>, state: DecoderView, demand: DemandView, at: int) -> Option<
    RequestView,
>
    decreases phase(state, demand), raw.len() - at,
{
    match demand {
        DemandView::Done(r) => r,
        DemandView::Bytes(n) => {
            let input = if 0 <= at && at + n <= raw.len() {
                Some(raw.subrange(at, at + n))
            } else {
                None
            };
            let next = step_of(state, input);
            match next.1 {
                DemandView::Done(r) => r,
                _ => None,
            }
        },
        DemandView::Line => {
            let end = line_end(raw, at);
            let next = step_of(state, Some(raw.subrange(at, end)));
            if phase(next.0, next.1) < phase(state, demand) || (phase(next.0, next.1) == phase(
                state,
                demand,
            ) && at < end <= raw.len()) {
                fed(raw, next.0, next.1, end)
            } else {
                None
            }
        },
    }
}

impl Request {
    /// Decodes the request that `stream` holds, where `stream` is everything
    /// the peer sent on one connection: the request line, header lines up to
    /// a blank line or the end of the stream, and a body of the declared
    /// length. The bytes after the body are not looked at.
    pub fn parse(stream: &[u8]) -> (r: Option<Request>)
        ensures
            optional_request(r) == decoded(stream@),
    {
        let start = Decoder::new();
        let mut state = start.0;
        let mut demand = start.1;
        let mut at: usize = 0;
        proof {
            lemma_decoder_agrees_with_decoded(stream@);
        }
        loop
            invariant
                at <= stream.len(),
                fed(stream@, state@, demand@, at as int) == decoded(stream@),
            decreases phase(state@, demand@), stream.len() - at,
        {
            match demand {
                Demand::Done(r) => {
                    return r;
                },
                Demand::Line => {
                    let end = next_line(stream, at);
                    let chunk = bytes_of(stream, at, end);
                    let next = state.step(Input::Data(chunk));
                    state = next.0;
                    demand = next.1;
                    at = end;
                },
                Demand::Bytes(n) => {
                    let input = if n <= stream.len() - at {
                        Input::Data(bytes_of(stream, at, at + n))
                    } else {
                        Input::Failed
                    };
                    let next = state.step(input);
                    return match next.1 {
                        Demand::Done(r) => r,
                        _ => None,
                    };
                },
            }
        }
    }
}

// What holds of the decoder

/// A line ends after it begins and within the bytes.
pub proof fn lemma_line_end_bounds(raw: Seq<u8>, from: int)
    requires
        0 <= from <= raw.len(),
    ensures
        from <= line_end(raw, from) <= raw.len(),
        from < raw.len() ==> from < line_end(raw, from),
    decreases raw.len() - from,
{
    if from < raw.len() && raw[from] != 10u8 {
        lemma_line_end_bounds(raw, from + 1);
    }
}

/// A decoder among the headers, fed from `raw`, ends with what the header
/// lines and the body of `raw` give.
pub proof fn lemma_decoder_reads_the_head(
    raw: Seq<u8>,
    request_line: Seq<char>,
    content_length: usize,
    at: int,
)
    requires
        0 <= at <= raw.len(),
    ensures
        fed(raw, DecoderView::Headers { request_line, content_length }, DemandView::Line, at)
            == completed(raw, request_line, head_from(raw, at, content_length)),
    decreases raw.len() - at,
{
    reveal_with_fuel(fed, 2);
    lemma_line_end_bounds(raw, at);
    let end = line_end(raw, at);
    let line = raw.subrange(at, end);
    if valid_utf8(line) && !is_blank(decode_utf8(line)) {
        lemma_decoder_reads_the_head(
            raw,
            request_line,
            next_length(decode_utf8(line), content_length),
            end,
        );
    }
}

/// The decoder and the whole-message decoding agree: a fresh decoder whose
/// reads are served from `raw` ends with the request that `raw` holds.
pub proof fn lemma_decoder_agrees_with_decoded(raw: Seq<u8>)
    ensures
        fed(raw, DecoderView::RequestLine, DemandView::Line, 0) == decoded(raw),
{
    reveal_with_fuel(fed, 2);
    lemma_line_end_bounds(raw, 0);
    let first = line_end(raw, 0);
    let line = raw.subrange(0, first);
    if valid_utf8(line) {
        lemma_decoder_reads_the_head(raw, decode_utf8(line), 0, first);
    }
}

/// A message that declares more bytes of body than it holds has no request.
pub proof fn lemma_short_body_has_no_request(raw: Seq<u8>, at: int, content_length: usize)
    requires
        head_from(raw, line_end(raw, 0), 0) == (Head::Ends { at, content_length }),
        at + content_length > raw.len(),
    ensures
        decoded(raw) is None,
{
}

/// The length header that a response carries reads back as the length it
/// was written for.
pub proof fn lemma_length_header_reads_back(n: usize)
    ensures
        header_length("Content-Length: "@ + decimal(n as nat) + "\r\n"@) == Some(n),
{
    reveal_strlit("Content-Length: ");
    reveal_strlit("content-length");
    reveal_strlit("\r\n");
    lemma_decimal_reads_back(n as nat);
    let label = "Content-Length: "@;
    let digits = decimal(n as nat);
    let header = label + digits + "\r\n"@;
    let len = header.len() as int;
    assert forall|i: int| 0 <= i < 16 implies header[i] == label[i] by {}
    assert forall|i: int| 16 <= i < 16 + digits.len() implies header[i] == digits[i - 16] by {}
    assert(find(header, ':', 0) == 14) by {
        reveal_with_fuel(find, 16);
    }
    let name = header.subrange(0, 14);
    assert(same_ignoring_case(name, "content-length"@)) by {
        assert forall|i: int| 0 <= i < 14 implies fold_case(#[trigger] name[i]) == fold_case(
            "content-length"@[i],
        ) by {}
    }
    assert(find(header, ':', 15) == len) by {
        assert forall|i: int| 15 <= i < len implies header[i] != ':' by {}
        lemma_find_absent(header, ':', 15);
    }
    let value = header.subrange(15, len);
    assert(skip_spaces(value, 0) == 1) by {
        reveal_with_fuel(skip_spaces, 3);
    }
    let rest = trim_start(value);
    assert(trimmed_len(rest) == digits.len()) by {
        reveal_with_fuel(trimmed_len, 4);
    }
    assert(trim(value) == digits);
}

} // verus!
