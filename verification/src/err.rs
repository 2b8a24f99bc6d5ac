//! The error type shared by the request parser and the parameter accessors.

use vstd::prelude::*;
use vstd::string::*;

verus! {

/// What went wrong.
#[derive(Clone, Copy, Debug, PartialEq, Eq, Structural)]
pub enum HttpErrorKind {
    /// The head section is empty once whitespace and NUL padding are trimmed.
    EmptyRequest,
    /// The method of the start line is not one of the supported methods.
    UnsupportedMethod,
    /// A line of a header block cannot be taken apart.
    MalformedHeader,
    /// A multipart request names no usable boundary.
    BoundaryNotFound,
    /// The byte source or the file store failed.
    IoFailure,
    /// Bytes that must be text are not well-formed UTF-8.
    InvalidEncoding,
    /// The request has no parameter of the requested name.
    MissingParam,
    /// The requested parameter is a list, not a single value.
    ParamNotSingular,
    /// Any other failure, described by its message alone.
    Other,
}

/// An error with its kind and, where there is one, the text it is about:
/// the offending token, line or parameter name, or a free message.
#[derive(Clone, Debug)]
pub struct HttpError {
    pub kind: HttpErrorKind,
    pub msg: Option<String>,
}

/// The mathematical content of an `HttpError`.
pub struct HttpErrorView {
    pub kind: HttpErrorKind,
    pub msg: Option<Seq<char>>,
}

impl View for HttpError {
    type V = HttpErrorView;

    open spec fn view(&self) -> HttpErrorView {
        HttpErrorView {
            kind: self.kind,
            msg: match self.msg {
                Some(m) => Some(m@),
                None => None,
            },
        }
    }
}

/// The text that `HttpError::to_string` renders for an error with message `msg`.
pub open spec fn error_text(msg: Option<Seq<char>>) -> Seq<char> {
    match msg {
        Some(m) => "HttpError {\n\tmsg: "@ + m + "\n}"@,
        None => "HttpError {}"@,
    }
}

impl HttpError {
    /// An error without a message.
    pub fn new() -> (e: HttpError)
        ensures
            e@ == (HttpErrorView { kind: HttpErrorKind::Other, msg: None }),
    {
        HttpError { kind: HttpErrorKind::Other, msg: None }
    }

    /// An error that carries `msg`.
    pub fn from_str(msg: &str) -> (e: HttpError)
        ensures
            e@ == (HttpErrorView { kind: HttpErrorKind::Other, msg: Some(msg@) }),
    {
        HttpError { kind: HttpErrorKind::Other, msg: Some(msg.to_owned()) }
    }

    /// An error of the given kind without a message.
    pub fn of_kind(kind: HttpErrorKind) -> (e: HttpError)
        ensures
            e@ == (HttpErrorView { kind, msg: None }),
    {
        HttpError { kind, msg: None }
    }

    /// An error of the given kind about `text`.
    pub fn about(kind: HttpErrorKind, text: String) -> (e: HttpError)
        ensures
            e@ == (HttpErrorView { kind, msg: Some(text@) }),
    {
        HttpError { kind, msg: Some(text) }
    }

    /// The error as a line of text for logs.
    pub fn to_string(&self) -> (s: String)
        ensures
            s@ == error_text(self@.msg),
    {
        match &self.msg {
            Some(m) => {
                let mut s = "HttpError {\n\tmsg: ".to_owned();
                s.append(m.as_str());
                s.append("\n}");
                s
            },
            None => "HttpError {}".to_owned(),
        }
    }
}

} // verus!
