//! The order of work for one request, as a state machine.
//!
//! The machine decides; its caller does the reading and the storing. Each
//! step takes what the last action brought and says what to do next.

use crate::decimal::{parse_u32, read_u32};
use crate::err::{HttpError, HttpErrorKind, HttpErrorView};
use crate::http_param::string_views;
use crate::http_request::{failure, parse_head_bytes, parse_heading, HttpRequest, RequestView};
use crate::multipart::{
    are_parts, boundary_of, is_part, multipart_distribution, offsets_of, parse_multipart_boundary,
    parse_multipart_parts, part_content, part_name, part_offsets, part_span, PartFile,
};
use crate::scanner::{lemma_scan_len, read_until, take_til};
use crate::search::{contains_pattern, find_in};
use crate::text::{chars_of, decode, decoded, string_of};
use vstd::prelude::*;
use vstd::slice::{slice_subrange, slice_to_vec};
use vstd::string::*;
use vstd::utf8::encode_utf8;

verus! {

/// A letter in lower case, if it is an ASCII letter; any other character unchanged.
pub open spec fn ascii_lower(c: char) -> char {
    if 'A' <= c <= 'Z' {
        ((c as u8 + 32) as u8) as char
    } else {
        c
    }
}

/// `value` holds the word `multipart`, in whatever case.
pub open spec fn mentions_multipart(value: Seq<char>) -> bool {
    contains_pattern(value.map_values(|c: char| ascii_lower(c)), "multipart"@)
}

/// How the body of a request is to be read.
#[derive(Clone, Copy, Debug, PartialEq, Eq, Structural)]
pub enum BodyPlan {
    /// There is no body to read.
    Skip,
    /// The bytes that are buffered after the head are the body.
    Plain,
    /// The body is multipart and is read up to its closing boundary.
    Multipart,
}

/// The plan for the body that the headers call for.
///
/// Without `Content-Length`, or with one that is zero, there is nothing to
/// read, whatever the content type. Otherwise the body is multipart if
/// `Content-Type` mentions it and plain if not. A `Content-Length` that is
/// no number is a malformed header.
pub open spec fn plan_body(headers: Map<Seq<char>, Seq<char>>) -> Result<BodyPlan, HttpErrorView> {
    if !headers.contains_key("Content-Length"@) {
        Ok(BodyPlan::Skip)
    } else {
        let length = headers["Content-Length"@];
        match parse_u32(length) {
            None => Err(failure(HttpErrorKind::MalformedHeader, "Content-Length: "@ + length)),
            Some(n) => if n == 0 {
                Ok(BodyPlan::Skip)
            } else if headers.contains_key("Content-Type"@) && mentions_multipart(
                headers["Content-Type"@],
            ) {
                Ok(BodyPlan::Multipart)
            } else {
                Ok(BodyPlan::Plain)
            },
        }
    }
}

/// A request whose `Content-Length` is zero has no body to read, whatever its content type.
pub proof fn lemma_zero_length_skips_body(headers: Map<Seq<char>, Seq<char>>)
    requires
        headers.contains_key("Content-Length"@),
        parse_u32(headers["Content-Length"@]) == Some(0u32),
    ensures
        plan_body(headers) == Ok::<BodyPlan, HttpErrorView>(BodyPlan::Skip),
{
}

/// A letter in lower case, if it is an ASCII letter.
fn lower(c: char) -> (r: char)
    ensures
        r == ascii_lower(c),
{
    if 'A' <= c && c <= 'Z' {
        ((c as u8) + 32) as char
    } else {
        c
    }
}

/// Tests whether `value` holds the word `multipart`, in whatever case.
pub fn is_multipart(value: &str) -> (r: bool)
    ensures
        r == mentions_multipart(value@),
{
    let chars = chars_of(value);
    let mut lowered: Vec<char> = Vec::new();
    let mut i: usize = 0;
    while i < chars.len()
        invariant
            i <= chars.len(),
            lowered@.len() == i,
            forall|k: int| 0 <= k < i ==> lowered@[k] == ascii_lower(chars@[k]),
        decreases chars.len() - i,
    {
        lowered.push(lower(chars[i]));
        i += 1;
    }
    assert(lowered@ =~= value@.map_values(|c: char| ascii_lower(c)));
    let word = chars_of("multipart");
    match find_in(lowered.as_slice(), word.as_slice(), 0) {
        Some(_) => true,
        None => false,
    }
}

/// Decides how the body of a request is to be read.
pub fn body_plan(request: &HttpRequest) -> (r: Result<BodyPlan, HttpError>)
    ensures
        match r {
            Ok(plan) => plan_body(request@.headers) == Ok::<BodyPlan, HttpErrorView>(plan),
            Err(e) => plan_body(request@.headers) == Err::<BodyPlan, HttpErrorView>(e@),
        },
{
    let length = match request.headers.get("Content-Length") {
        None => {
            return Ok(BodyPlan::Skip);
        },
        Some(length) => length,
    };
    let digits = chars_of(length.as_str());
    match read_u32(digits.as_slice()) {
        None => {
            let mut line = "Content-Length: ".to_owned();
            line.append(length.as_str());
            Err(HttpError::about(HttpErrorKind::MalformedHeader, line))
        },
        Some(n) => {
            if n == 0 {
                Ok(BodyPlan::Skip)
            } else {
                match request.headers.get("Content-Type") {
                    Some(kind) => {
                        if is_multipart(kind.as_str()) {
                            Ok(BodyPlan::Multipart)
                        } else {
                            Ok(BodyPlan::Plain)
                        }
                    },
                    None => Ok(BodyPlan::Plain),
                }
            }
        },
    }
}

/// Where the parsing of a request stands.
#[derive(Clone, Copy, Debug, PartialEq, Eq, Structural)]
pub enum ParseState {
    AwaitingHead,
    HeadParsed,
    PlainBody,
    MultipartBody,
    Done,
    ParseFailed,
}

/// What the last action brought.
#[derive(Debug)]
pub enum ParseEvent {
    /// Nothing: the caller asks what to do.
    Nothing,
    /// The bytes that were read or taken.
    Bytes(Vec<u8>),
    /// Reading or storing failed.
    IoFailed,
}

/// What the caller is to do next.
#[derive(Debug)]
pub enum ParseAction {
    /// Run the scanner with this terminator and hand over what it returns.
    ReadUntil(Vec<u8>),
    /// Hand over the bytes that are buffered behind the head.
    TakeBuffered,
    /// Nothing outside: step again.
    Proceed,
    /// Store these files; the request is complete unless storing fails.
    Store(Vec<PartFile>),
    /// Nothing: the request is complete.
    Finish,
    /// Nothing: the parse has failed.
    Fail,
}

/// The parser of one request.
#[derive(Debug)]
pub struct RequestParser {
    pub state: ParseState,
    /// The request as far as it is parsed.
    pub request: HttpRequest,
    /// Why the parse failed, once it has.
    pub error: Option<HttpError>,
    /// The bytes of the head section, once they are read.
    pub head: Vec<u8>,
    /// The boundary token of a multipart body.
    pub boundary: String,
}

/// The terminator of the head section: an empty line.
pub open spec fn head_terminator() -> Seq<u8> {
    seq![0x0du8, 0x0au8, 0x0du8, 0x0au8]
}

/// The terminator of a multipart body: its boundary token and two hyphens.
pub open spec fn body_terminator(boundary: Seq<char>) -> Seq<u8> {
    encode_utf8(boundary) + seq![0x2du8, 0x2du8]
}

/// The names of the first `n` parts.
pub open spec fn part_names(n: nat) -> Seq<Seq<char>> {
    Seq::new(n, |i: int| part_name(i as nat))
}

/// An error of the given kind without text.
pub open spec fn plain_failure(kind: HttpErrorKind) -> HttpErrorView {
    HttpErrorView { kind, msg: None }
}

impl RequestParser {
    /// The parse has failed with `e`.
    pub open spec fn failed_with(&self, action: ParseAction, e: HttpErrorView) -> bool {
        &&& self.state == ParseState::ParseFailed
        &&& self.error matches Some(x)
        &&& x@ == e
        &&& action is Fail
    }

    /// What holds after `head` was accepted as the head section.
    pub open spec fn with_head(&self, action: ParseAction, head: Seq<u8>) -> bool {
        match parse_head_bytes(head) {
            Err(e) => self.failed_with(action, e),
            Ok(request) => {
                &&& self.state == ParseState::HeadParsed
                &&& self.request@ == request
                &&& self.head@ == head
                &&& action is Proceed
            },
        }
    }

    /// What holds after the body of `request` was planned, `head` being its head section.
    pub open spec fn planned(&self, action: ParseAction, request: RequestView, head: Seq<u8>) -> bool {
        match plan_body(request.headers) {
            Err(e) => self.failed_with(action, e),
            Ok(BodyPlan::Skip) => self.state == ParseState::Done && self.request@ == request
                && action is Finish,
            Ok(BodyPlan::Plain) => self.state == ParseState::PlainBody && self.request@ == request
                && action is TakeBuffered,
            Ok(BodyPlan::Multipart) => match boundary_of(head) {
                Err(e) => self.failed_with(action, e),
                Ok(token) => {
                    &&& self.state == ParseState::MultipartBody
                    &&& self.request@ == request
                    &&& self.boundary@ == token
                    &&& action matches ParseAction::ReadUntil(term)
                    &&& term@ == body_terminator(token)
                },
            },
        }
    }

    /// What holds after `bytes` were accepted as the plain body of `before`.
    pub open spec fn with_plain_body(
        &self,
        action: ParseAction,
        before: RequestView,
        bytes: Seq<u8>,
    ) -> bool {
        match decoded(bytes) {
            None => self.failed_with(action, plain_failure(HttpErrorKind::InvalidEncoding)),
            Some(text) => self.state == ParseState::Done && self.request@ == (RequestView {
                body: text,
                ..before
            }) && action is Finish,
        }
    }

    /// What holds after `body` was accepted as the multipart body of
    /// `before`, delimited by `boundary`.
    pub open spec fn with_multipart_body(
        &self,
        action: ParseAction,
        before: RequestView,
        boundary: Seq<char>,
        body: Seq<u8>,
    ) -> bool {
        let token = encode_utf8(boundary);
        let offsets = part_offsets(body, token);
        if forall|i: int|
            0 <= i < offsets.len() ==> (#[trigger] part_span(body, offsets, token.len() as int, i))
                is Some {
            &&& self.state == ParseState::Done
            &&& self.request@ == (RequestView { files: part_names(offsets.len()), ..before })
            &&& action matches ParseAction::Store(files)
            &&& are_parts(files@, body, offsets, token.len() as int, offsets.len() as int)
        } else {
            self.failed_with(action, plain_failure(HttpErrorKind::MalformedHeader))
        }
    }

    /// What holds when the parser only repeats what is to be done in its state.
    pub open spec fn waiting(&self, action: ParseAction, before: Self) -> bool {
        &&& *self == before
        &&& match before.state {
            ParseState::AwaitingHead => (action matches ParseAction::ReadUntil(term) && term@
                == head_terminator()),
            ParseState::PlainBody => action is TakeBuffered,
            ParseState::MultipartBody => (action matches ParseAction::ReadUntil(term) && term@
                == body_terminator(before.boundary@)),
            ParseState::HeadParsed => action is Proceed,
            ParseState::Done => action is Finish,
            ParseState::ParseFailed => action is Fail,
        }
    }

    /// What holds after a step from `before` on `event`.
    ///
    /// A failed parse stays failed. A failure of reading or storing fails
    /// the parse in any other state, also when the request is complete and
    /// its files are being stored. Bytes are the head section, the plain
    /// body or the multipart body, by the state; once the head is parsed
    /// the next step plans the body.
    pub open spec fn stepped(&self, action: ParseAction, before: Self, event: ParseEvent) -> bool {
        match (before.state, event) {
            (ParseState::ParseFailed, _) => self.waiting(action, before),
            (_, ParseEvent::IoFailed) => self.failed_with(
                action,
                plain_failure(HttpErrorKind::IoFailure),
            ),
            (ParseState::HeadParsed, _) => self.planned(action, before.request@, before.head@),
            (_, ParseEvent::Nothing) => self.waiting(action, before),
            (ParseState::Done, ParseEvent::Bytes(_)) => self.waiting(action, before),
            (ParseState::AwaitingHead, ParseEvent::Bytes(head)) => self.with_head(action, head@),
            (ParseState::PlainBody, ParseEvent::Bytes(bytes)) => self.with_plain_body(
                action,
                before.request@,
                bytes@,
            ),
            (ParseState::MultipartBody, ParseEvent::Bytes(body)) => self.with_multipart_body(
                action,
                before.request@,
                before.boundary@,
                body@,
            ),
        }
    }

    /// A parser that awaits the head section.
    pub fn new() -> (parser: RequestParser)
        ensures
            parser.state == ParseState::AwaitingHead,
            parser.error is None,
            parser.request@ == HttpRequest::empty_view(),
            parser.head@ == Seq::<u8>::empty(),
            parser.boundary@ == Seq::<char>::empty(),
    {
        RequestParser {
            state: ParseState::AwaitingHead,
            request: HttpRequest::new(),
            error: None,
            head: Vec::new(),
            boundary: String::new(),
        }
    }

    /// Fails the parse with `e`.
    fn fail(&mut self, e: HttpError) -> (action: ParseAction)
        ensures
            final(self).failed_with(action, e@),
    {
        self.state = ParseState::ParseFailed;
        self.error = Some(e);
        ParseAction::Fail
    }

    /// What is to be done in the state the parser is in.
    fn wait(&self) -> (action: ParseAction)
        ensures
            self.waiting(action, *self),
    {
        match self.state {
            ParseState::AwaitingHead => {
                let term: Vec<u8> = vec![0x0du8, 0x0au8, 0x0du8, 0x0au8];
                assert(term@ =~= head_terminator());
                ParseAction::ReadUntil(term)
            },
            ParseState::PlainBody => ParseAction::TakeBuffered,
            ParseState::MultipartBody => ParseAction::ReadUntil(closing(self.boundary.as_str())),
            ParseState::HeadParsed => ParseAction::Proceed,
            ParseState::Done => ParseAction::Finish,
            ParseState::ParseFailed => ParseAction::Fail,
        }
    }

    /// Takes the bytes of the head section and parses them.
    fn accept_head(&mut self, head: Vec<u8>) -> (action: ParseAction)
        ensures
            final(self).with_head(action, head@),
    {
        match parse_heading(head.as_slice()) {
            Ok(request) => {
                self.request = request;
                self.head = head;
                self.state = ParseState::HeadParsed;
                ParseAction::Proceed
            },
            Err(e) => self.fail(e),
        }
    }

    /// Plans the body of the request whose head was parsed.
    fn plan(&mut self) -> (action: ParseAction)
        ensures
            final(self).planned(action, old(self).request@, old(self).head@),
    {
        match body_plan(&self.request) {
            Err(e) => self.fail(e),
            Ok(BodyPlan::Skip) => {
                self.state = ParseState::Done;
                ParseAction::Finish
            },
            Ok(BodyPlan::Plain) => {
                self.state = ParseState::PlainBody;
                ParseAction::TakeBuffered
            },
            Ok(BodyPlan::Multipart) => match parse_multipart_boundary(self.head.as_slice()) {
                Err(e) => self.fail(e),
                Ok(token) => {
                    let term = closing(token.as_str());
                    self.boundary = token;
                    self.state = ParseState::MultipartBody;
                    ParseAction::ReadUntil(term)
                },
            },
        }
    }

    /// Takes the bytes that were buffered behind the head as the body.
    fn accept_plain_body(&mut self, bytes: Vec<u8>) -> (action: ParseAction)
        ensures
            final(self).with_plain_body(action, old(self).request@, bytes@),
    {
        match decode(bytes.as_slice()) {
            None => self.fail(HttpError::of_kind(HttpErrorKind::InvalidEncoding)),
            Some(text) => {
                self.request.body = string_of(text.as_slice());
                self.state = ParseState::Done;
                ParseAction::Finish
            },
        }
    }

    /// Takes the bytes of a multipart body and cuts them into the files to store.
    fn accept_multipart_body(&mut self, body: Vec<u8>) -> (action: ParseAction)
        ensures
            final(self).with_multipart_body(
                action,
                old(self).request@,
                old(self).boundary@,
                body@,
            ),
    {
        let distribution = multipart_distribution(
            body.as_slice(),
            self.boundary.as_str().as_bytes(),
        );
        let ghost token = encode_utf8(self.boundary@);
        let ghost offsets = part_offsets(body@, token);
        match parse_multipart_parts(body.as_slice(), distribution) {
            Err(e) => self.fail(e),
            Ok(files) => {
                assert(offsets == offsets_of(distribution.boundary_indexes@));
                assert forall|i: int| 0 <= i < offsets.len() implies (#[trigger] part_span(
                    body@,
                    offsets,
                    token.len() as int,
                    i,
                )) is Some by {
                    assert(is_part(files@[i], body@, offsets, token.len() as int, i));
                }
                let mut names: Vec<String> = Vec::new();
                let mut i: usize = 0;
                while i < files.len()
                    invariant
                        i <= files.len(),
                        names@.len() == i,
                        are_parts(files@, body@, offsets, token.len() as int, offsets.len() as int),
                        forall|k: int| 0 <= k < i ==> names@[k]@ == part_name(k as nat),
                    decreases files.len() - i,
                {
                    names.push(files[i].name.clone());
                    i += 1;
                }
                assert(string_views(names@) =~= part_names(offsets.len()));
                self.request.files = names;
                self.state = ParseState::Done;
                ParseAction::Store(files)
            },
        }
    }

    /// One step of the parser: takes what the last action brought and says what to do next.
    pub fn step(&mut self, event: ParseEvent) -> (action: ParseAction)
        ensures
            final(self).stepped(action, *old(self), event),
    {
        match self.state {
            ParseState::ParseFailed => self.wait(),
            _ => match event {
                ParseEvent::IoFailed => self.fail(HttpError::of_kind(HttpErrorKind::IoFailure)),
                ParseEvent::Nothing => match self.state {
                    ParseState::HeadParsed => self.plan(),
                    _ => self.wait(),
                },
                ParseEvent::Bytes(bytes) => match self.state {
                    ParseState::HeadParsed => self.plan(),
                    ParseState::Done => self.wait(),
                    ParseState::AwaitingHead => self.accept_head(bytes),
                    ParseState::PlainBody => self.accept_plain_body(bytes),
                    _ => self.accept_multipart_body(bytes),
                },
            },
        }
    }
}

/// The terminator of a multipart body with the given boundary token.
fn closing(boundary: &str) -> (term: Vec<u8>)
    ensures
        term@ == body_terminator(boundary@),
{
    let mut term: Vec<u8> = Vec::new();
    term.extend_from_slice(boundary.as_bytes());
    term.push(0x2d);
    term.push(0x2d);
    assert(term@ =~= body_terminator(boundary@));
    term
}

/// What parsing a request yields whose bytes are all in `source`: the
/// request and the files of its multipart body.
///
/// The head section is read up to the empty line that ends it. A plain
/// body is all that follows the head; a multipart body is read from there
/// up to the closing boundary.
pub open spec fn parse_request(source: Seq<u8>) -> Result<
    (RequestView, Seq<(Seq<char>, Seq<u8>)>),
    HttpErrorView,
> {
    let head = read_until(source, head_terminator());
    let rest = source.skip(head.len() as int);
    match parse_head_bytes(head) {
        Err(e) => Err(e),
        Ok(request) => match plan_body(request.headers) {
            Err(e) => Err(e),
            Ok(BodyPlan::Skip) => Ok((request, Seq::empty())),
            Ok(BodyPlan::Plain) => match decoded(rest) {
                None => Err(plain_failure(HttpErrorKind::InvalidEncoding)),
                Some(text) => Ok((RequestView { body: text, ..request }, Seq::empty())),
            },
            Ok(BodyPlan::Multipart) => match boundary_of(head) {
                Err(e) => Err(e),
                Ok(boundary) => {
                    let body = read_until(rest, body_terminator(boundary));
                    let token = encode_utf8(boundary);
                    let offsets = part_offsets(body, token);
                    if forall|i: int|
                        0 <= i < offsets.len() ==> (#[trigger] part_span(
                            body,
                            offsets,
                            token.len() as int,
                            i,
                        )) is Some {
                        Ok(
                            (
                                RequestView { files: part_names(offsets.len()), ..request },
                                Seq::new(
                                    offsets.len(),
                                    |i: int|
                                        (
                                            part_name(i as nat),
                                            part_content(body, offsets, token.len() as int, i),
                                        ),
                                ),
                            ),
                        )
                    } else {
                        Err(plain_failure(HttpErrorKind::MalformedHeader))
                    }
                },
            },
        },
    }
}

/// The names and contents of files.
pub open spec fn file_views(files: Seq<PartFile>) -> Seq<(Seq<char>, Seq<u8>)> {
    Seq::new(files.len(), |i: int| (files[i].name@, files[i].content@))
}

/// The error of a parser that has failed.
fn failure_of(parser: RequestParser) -> (e: HttpError)
    requires
        parser.error is Some,
    ensures
        Some(e) == parser.error,
{
    match parser.error {
        Some(e) => e,
        None => HttpError::new(),
    }
}

/// Parses a request whose bytes are all in `source`, and returns it with
/// the files of its multipart body, which are left to the caller to store.
pub fn parse_http_request(source: &[u8]) -> (r: Result<(HttpRequest, Vec<PartFile>), HttpError>)
    ensures
        match r {
            Ok((request, files)) => parse_request(source@) == Ok::<
                (RequestView, Seq<(Seq<char>, Seq<u8>)>),
                HttpErrorView,
            >((request@, file_views(files@))),
            Err(e) => parse_request(source@) == Err::<
                (RequestView, Seq<(Seq<char>, Seq<u8>)>),
                HttpErrorView,
            >(e@),
        },
{
    let mut parser = RequestParser::new();
    let term: Vec<u8> = vec![0x0du8, 0x0au8, 0x0du8, 0x0au8];
    assert(term@ =~= head_terminator());
    let head = take_til(source, term.as_slice());
    proof {
        lemma_scan_len(source@, head_terminator(), 0);
    }
    let rest = slice_subrange(source, head.len(), source.len());
    assert(rest@ =~= source@.skip(head@.len() as int));
    let ghost head_bytes = head@;
    match parser.step(ParseEvent::Bytes(head)) {
        ParseAction::Proceed => {},
        _ => {
            return Err(failure_of(parser));
        },
    }
    match parser.step(ParseEvent::Nothing) {
        ParseAction::Finish => {
            assert(file_views(Seq::<PartFile>::empty()) =~= Seq::empty());
            Ok((parser.request, Vec::new()))
        },
        ParseAction::TakeBuffered => match parser.step(ParseEvent::Bytes(slice_to_vec(rest))) {
            ParseAction::Finish => {
                assert(file_views(Seq::<PartFile>::empty()) =~= Seq::empty());
                Ok((parser.request, Vec::new()))
            },
            _ => Err(failure_of(parser)),
        },
        ParseAction::ReadUntil(term) => {
            let body = take_til(rest, term.as_slice());
            let ghost body_bytes = body@;
            let ghost token = encode_utf8(parser.boundary@);
            let ghost offsets = part_offsets(body_bytes, token);
            match parser.step(ParseEvent::Bytes(body)) {
                ParseAction::Store(files) => {
                    proof {
                        assert forall|i: int| 0 <= i < offsets.len() implies file_views(files@)[i]
                            == (
                            part_name(i as nat),
                            part_content(body_bytes, offsets, token.len() as int, i),
                        ) by {
                            assert(is_part(files@[i], body_bytes, offsets, token.len() as int, i));
                        }
                        assert(file_views(files@) =~= parse_request(source@)->Ok_0.1);
                    }
                    Ok((parser.request, files))
                },
                _ => Err(failure_of(parser)),
            }
        },
        _ => Err(failure_of(parser)),
    }
}

impl HttpRequest {
    /// Parses a request whose bytes are all in `source`, as `parse_http_request` does.
    pub fn parse(source: &[u8]) -> (r: Result<(HttpRequest, Vec<PartFile>), HttpError>)
        ensures
            match r {
                Ok((request, files)) => parse_request(source@) == Ok::<
                    (RequestView, Seq<(Seq<char>, Seq<u8>)>),
                    HttpErrorView,
                >((request@, file_views(files@))),
                Err(e) => parse_request(source@) == Err::<
                    (RequestView, Seq<(Seq<char>, Seq<u8>)>),
                    HttpErrorView,
                >(e@),
            },
    {
        parse_http_request(source)
    }
}

/// Once the head is parsed, a request whose `Content-Length` is zero is
/// complete at the next step, with nothing to read, whatever its content
/// type and whatever the step was given, a failure apart.
pub proof fn lemma_zero_length_reads_no_body(
    before: RequestParser,
    event: ParseEvent,
    after: RequestParser,
    action: ParseAction,
)
    requires
        before.state == ParseState::HeadParsed,
        !(event is IoFailed),
        before.request@.headers.contains_key("Content-Length"@),
        parse_u32(before.request@.headers["Content-Length"@]) == Some(0u32),
        after.stepped(action, before, event),
    ensures
        after.state == ParseState::Done,
        action is Finish,
        after.request@ == before.request@,
{
}

} // verus!
