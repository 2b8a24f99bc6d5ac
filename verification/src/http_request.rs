//! The request and the parser of its head section.

use crate::err::{HttpError, HttpErrorKind, HttpErrorView};
use crate::http_param::{string_views, HttpParamValue, ParamValueView};
use crate::search::{find, find_in, lemma_find_first, matches_at};
use crate::str_map::{to_map, StrMap};
use crate::text::{
    blank, chars_equal, chars_of, decode, decoded, is_blank, lemma_split_nonempty,
    lemma_split_pieces_exclude, lemma_split_single, slice_chars, split, split_chars, string_of,
    trim, trimmed, views,
};
use vstd::prelude::*;

verus! {

/// The text of each value of a map of strings.
pub open spec fn text_map(m: Map<Seq<char>, String>) -> Map<Seq<char>, Seq<char>> {
    m.map_values(|v: String| v@)
}

/// The content of each value of a map of parameters.
pub open spec fn param_map(m: Map<Seq<char>, HttpParamValue>) -> Map<Seq<char>, ParamValueView> {
    m.map_values(|v: HttpParamValue| v@)
}

/// The query string of a request target: what follows its last `?`, if it has one.
pub open spec fn query_of(target: Seq<char>) -> Option<Seq<char>> {
    let parts = split(target, '?');
    if parts.len() == 1 {
        None
    } else {
        Some(parts.last())
    }
}

/// The key of one `key=value` pair: the piece before the first `=`, empty if there is no `=`.
pub open spec fn pair_key(pair: Seq<char>) -> Seq<char> {
    let pieces = split(pair, '=');
    if pieces.len() >= 2 {
        pieces[0]
    } else {
        Seq::empty()
    }
}

/// The value of one `key=value` pair: the piece after the last `=`, the
/// whole pair if there is no `=`.
pub open spec fn pair_value(pair: Seq<char>) -> Seq<char> {
    split(pair, '=').last()
}

/// The parameters that the first `n` pairs define. A pair with an empty
/// value defines nothing; of two pairs with one key the later one counts.
pub open spec fn pairs_upto(pairs: Seq<Seq<char>>, n: int) -> Map<Seq<char>, Seq<char>>
    decreases n,
{
    if n <= 0 {
        Map::empty()
    } else {
        let before = pairs_upto(pairs, n - 1);
        let pair = pairs[n - 1];
        if pair_value(pair).len() == 0 {
            before
        } else {
            before.insert(pair_key(pair), pair_value(pair))
        }
    }
}

/// The parameters of a request target as raw text.
pub open spec fn raw_params(target: Seq<char>) -> Map<Seq<char>, Seq<char>> {
    match query_of(target) {
        None => Map::empty(),
        Some(query) => {
            let pairs = split(query, '&');
            pairs_upto(pairs, pairs.len() as int)
        },
    }
}

/// A raw value as a parameter value: a list of its comma-separated pieces
/// if it holds a comma, itself otherwise.
pub open spec fn classify(value: Seq<char>) -> ParamValueView {
    if value.contains(',') {
        ParamValueView::List(split(value, ','))
    } else {
        ParamValueView::Singular(value)
    }
}

/// The parameters of a request target.
pub open spec fn complex_params(target: Seq<char>) -> Map<Seq<char>, ParamValueView> {
    raw_params(target).map_values(|v: Seq<char>| classify(v))
}

/// A request target without `?` has no parameters.
pub proof fn lemma_no_query_no_params(target: Seq<char>)
    requires
        !target.contains('?'),
    ensures
        raw_params(target) == Map::<Seq<char>, Seq<char>>::empty(),
        complex_params(target) == Map::<Seq<char>, ParamValueView>::empty(),
{
    lemma_split_single(target, '?');
    assert(complex_params(target) =~= Map::<Seq<char>, ParamValueView>::empty());
}

/// A request target whose query string is empty has no parameters.
pub proof fn lemma_empty_query_no_params(target: Seq<char>)
    requires
        query_of(target) == Some(Seq::<char>::empty()),
    ensures
        raw_params(target) == Map::<Seq<char>, Seq<char>>::empty(),
        complex_params(target) == Map::<Seq<char>, ParamValueView>::empty(),
{
    let empty = Seq::<char>::empty();
    assert(split(empty, '&') == seq![empty]);
    assert(split(empty, '=') == seq![empty]);
    assert(pair_value(empty).len() == 0);
    reveal_with_fuel(pairs_upto, 2);
    assert(raw_params(target) =~= Map::<Seq<char>, Seq<char>>::empty());
    assert(complex_params(target) =~= Map::<Seq<char>, ParamValueView>::empty());
}

/// No pair defines a parameter with an empty value.
pub proof fn lemma_no_empty_values(pairs: Seq<Seq<char>>, n: int, key: Seq<char>)
    requires
        0 <= n <= pairs.len(),
        pairs_upto(pairs, n).contains_key(key),
    ensures
        pairs_upto(pairs, n)[key].len() > 0,
    decreases n,
{
    if n > 0 {
        let pair = pairs[n - 1];
        if pair_value(pair).len() == 0 || pair_key(pair) != key {
            lemma_no_empty_values(pairs, n - 1, key);
        }
    }
}

/// No parameter of a request target has an empty value.
pub proof fn lemma_params_have_values(target: Seq<char>, key: Seq<char>)
    requires
        raw_params(target).contains_key(key),
    ensures
        raw_params(target)[key].len() > 0,
{
    let pairs = split(query_of(target)->0, '&');
    lemma_no_empty_values(pairs, pairs.len() as int, key);
}

/// The raw parameters of a request target given by its characters.
fn raw_params_of(target: &[char]) -> (r: StrMap<String>)
    ensures
        text_map(r@) == raw_params(target@),
{
    let parts = split_chars(target, '?');
    proof {
        lemma_split_nonempty(target@, '?');
    }
    let mut m: StrMap<String> = StrMap::new();
    if parts.len() == 1 {
        assert(text_map(m@) =~= Map::<Seq<char>, Seq<char>>::empty());
        return m;
    }
    let query = &parts[parts.len() - 1];
    assert(query@ == split(target@, '?').last());
    let pairs = split_chars(query.as_slice(), '&');
    let mut i: usize = 0;
    assert(text_map(m@) =~= pairs_upto(views(pairs@), 0));
    while i < pairs.len()
        invariant
            i <= pairs.len(),
            text_map(m@) == pairs_upto(views(pairs@), i as int),
        decreases pairs.len() - i,
    {
        let pieces = split_chars(pairs[i].as_slice(), '=');
        proof {
            lemma_split_nonempty(pairs@[i as int]@, '=');
        }
        let value = &pieces[pieces.len() - 1];
        assert(value@ == pair_value(views(pairs@)[i as int]));
        if value.len() > 0 {
            let key = if pieces.len() >= 2 {
                string_of(pieces[0].as_slice())
            } else {
                String::new()
            };
            assert(key@ == pair_key(views(pairs@)[i as int]));
            let ghost before = m@;
            let text = string_of(value.as_slice());
            m.insert(key, text);
            assert(text_map(before.insert(key@, text)) =~= text_map(before).insert(key@, text@));
        }
        i += 1;
    }
    m
}

/// Reads the query parameters of a request target as raw text.
///
/// The query string is what follows the last `?`; it is cut at every `&`,
/// and each piece at its `=` signs. A piece without `=` is a value under
/// the empty key; with several `=`, its first part is the key and its last
/// part the value. Pieces with an empty value are left out.
pub fn parse_params(uri: &str) -> (r: StrMap<String>)
    ensures
        text_map(r@) == raw_params(uri@),
{
    let chars = chars_of(uri);
    raw_params_of(chars.as_slice())
}

/// The strings made of each vector of characters.
fn strings_of(pieces: &Vec<Vec<char>>) -> (r: Vec<String>)
    ensures
        string_views(r@) == views(pieces@),
{
    let mut out: Vec<String> = Vec::new();
    let mut i: usize = 0;
    while i < pieces.len()
        invariant
            i <= pieces.len(),
            out.len() == i,
            forall|k: int| 0 <= k < i ==> out@[k]@ == pieces@[k]@,
        decreases pieces.len() - i,
    {
        out.push(string_of(pieces[i].as_slice()));
        i += 1;
    }
    assert(string_views(out@) =~= views(pieces@));
    out
}

/// Makes a parameter value of a raw value.
pub fn classify_value(value: &str) -> (r: HttpParamValue)
    ensures
        r@ == classify(value@),
{
    let chars = chars_of(value);
    let pieces = split_chars(chars.as_slice(), ',');
    proof {
        lemma_split_single(value@, ',');
    }
    if pieces.len() > 1 {
        HttpParamValue::List(strings_of(&pieces))
    } else {
        HttpParamValue::Singular(value.to_owned())
    }
}

/// Each raw value of `m` as a parameter value.
pub open spec fn classified(m: Map<Seq<char>, String>) -> Map<Seq<char>, ParamValueView> {
    m.map_values(|v: String| classify(v@))
}

/// The parameters of a request target given by its characters.
fn complex_params_of(target: &[char]) -> (r: StrMap<HttpParamValue>)
    ensures
        param_map(r@) == complex_params(target@),
{
    let raw = raw_params_of(target);
    let n = raw.len();
    let mut out: StrMap<HttpParamValue> = StrMap::new();
    let mut i: usize = 0;
    let ghost entries = raw.entries();
    assert(param_map(out@) =~= classified(to_map(entries.take(0))));
    while i < n
        invariant
            i <= n,
            n == entries.len(),
            entries == raw.entries(),
            param_map(out@) == classified(to_map(entries.take(i as int))),
        decreases n - i,
    {
        let key = raw.key_at(i).clone();
        let value = classify_value(raw.value_at(i).as_str());
        let ghost before = out@;
        proof {
            let e0 = entries.take(i as int);
            let e1 = entries.take(i + 1);
            assert(e1.drop_last() =~= e0);
            assert(e1.last() == entries[i as int]);
            assert(to_map(e1) == to_map(e0).insert(entries[i as int].0, entries[i as int].1));
            assert(classified(to_map(e1)) =~= classified(to_map(e0)).insert(key@, value@));
            assert(param_map(before.insert(key@, value)) =~= param_map(before).insert(
                key@,
                value@,
            ));
        }
        out.insert(key, value);
        i += 1;
    }
    proof {
        assert(entries.take(n as int) =~= entries);
        assert(classified(raw@) =~= text_map(raw@).map_values(|v: Seq<char>| classify(v)));
    }
    out
}

/// Reads the query parameters of a request target.
///
/// The raw parameters are those of `parse_params`; a value that holds a
/// comma becomes the list of its comma-separated pieces, untrimmed.
pub fn parse_complex_params(uri: &str) -> (r: StrMap<HttpParamValue>)
    ensures
        param_map(r@) == complex_params(uri@),
{
    let chars = chars_of(uri);
    complex_params_of(chars.as_slice())
}

/// The request methods that the parser accepts.
#[derive(Clone, Copy, Debug, PartialEq, Eq, Structural)]
pub enum HttpMethod {
    Get,
    Post,
    Put,
    Patch,
    Option,
}

/// A parsed request.
#[derive(Debug)]
pub struct HttpRequest {
    pub method: HttpMethod,
    /// Header names and values as received; of two headers with one name the later one counts.
    pub headers: StrMap<String>,
    /// The path of the request target, without the query string.
    pub uri: String,
    /// The parameters of the query string.
    pub params: StrMap<HttpParamValue>,
    pub body: String,
    /// The names of the files that the parts of a multipart body were stored under.
    pub files: Vec<String>,
}

/// The mathematical content of an `HttpRequest`.
pub struct RequestView {
    pub method: HttpMethod,
    pub headers: Map<Seq<char>, Seq<char>>,
    pub uri: Seq<char>,
    pub params: Map<Seq<char>, ParamValueView>,
    pub body: Seq<char>,
    pub files: Seq<Seq<char>>,
}

impl View for HttpRequest {
    type V = RequestView;

    open spec fn view(&self) -> RequestView {
        RequestView {
            method: self.method,
            headers: text_map(self.headers@),
            uri: self.uri@,
            params: param_map(self.params@),
            body: self.body@,
            files: string_views(self.files@),
        }
    }
}

/// The parameter `name` of a request as a single value.
pub open spec fn singular_param(params: Map<Seq<char>, ParamValueView>, name: Seq<char>) -> Result<
    Seq<char>,
    HttpErrorView,
> {
    if !params.contains_key(name) {
        Err(failure(HttpErrorKind::MissingParam, name))
    } else {
        match params[name] {
            ParamValueView::Singular(value) => Ok(value),
            ParamValueView::List(_) => Err(failure(HttpErrorKind::ParamNotSingular, name)),
        }
    }
}

impl HttpRequest {
    /// The content of an empty request: a `GET` without target, headers, parameters or body.
    pub open spec fn empty_view() -> RequestView {
        RequestView {
            method: HttpMethod::Get,
            headers: Map::empty(),
            uri: Seq::empty(),
            params: Map::empty(),
            body: Seq::empty(),
            files: Seq::empty(),
        }
    }

    /// An empty request.
    pub fn new() -> (request: HttpRequest)
        ensures
            request@ == HttpRequest::empty_view(),
    {
        let request = HttpRequest {
            method: HttpMethod::Get,
            headers: StrMap::new(),
            uri: String::new(),
            params: StrMap::new(),
            body: String::new(),
            files: Vec::new(),
        };
        assert(request@.headers =~= Map::empty());
        assert(request@.params =~= Map::empty());
        assert(request@.files =~= Seq::empty());
        request
    }

    /// The text of the parameter `param_name`, which must be there and be a single value.
    ///
    /// Fails with `MissingParam` if the request has no such parameter and
    /// with `ParamNotSingular` if it is a list; the error names the parameter.
    pub fn get_param(&self, param_name: &str) -> (r: Result<&String, HttpError>)
        ensures
            match r {
                Ok(value) => singular_param(self@.params, param_name@) == Ok::<
                    Seq<char>,
                    HttpErrorView,
                >(value@),
                Err(e) => singular_param(self@.params, param_name@) == Err::<
                    Seq<char>,
                    HttpErrorView,
                >(e@),
            },
    {
        match self.params.get(param_name) {
            None => Err(HttpError::about(HttpErrorKind::MissingParam, param_name.to_owned())),
            Some(HttpParamValue::Singular(value)) => Ok(value),
            Some(HttpParamValue::List(_)) => Err(
                HttpError::about(HttpErrorKind::ParamNotSingular, param_name.to_owned()),
            ),
        }
    }
}

/// The method that a trimmed method token names.
pub open spec fn method_of(token: Seq<char>) -> Option<HttpMethod> {
    if token == "GET"@ {
        Some(HttpMethod::Get)
    } else if token == "POST"@ {
        Some(HttpMethod::Post)
    } else if token == "PUT"@ {
        Some(HttpMethod::Put)
    } else if token == "PATCH"@ {
        Some(HttpMethod::Patch)
    } else if token == "OPTION"@ {
        Some(HttpMethod::Option)
    } else {
        None
    }
}

/// What stands between the name and the value of a header.
pub open spec fn separator() -> Seq<char> {
    seq![':', ' ']
}

/// The name of a header line: what precedes its first separator, trimmed.
pub open spec fn header_name(line: Seq<char>) -> Seq<char> {
    trim(line.take(find(line, separator(), 0)->0))
}

/// The value of a header line: what follows its first separator, trimmed.
pub open spec fn header_value(line: Seq<char>) -> Seq<char> {
    trim(line.skip(find(line, separator(), 0)->0 + 2))
}

/// Where the scan of the header lines stops, starting at line `from`, and
/// whether it stops well: at a blank line or after the last line (`true`),
/// or at a line without separator (`false`).
pub open spec fn scan_headers(lines: Seq<Seq<char>>, from: int) -> (int, bool)
    decreases lines.len() - from,
{
    if from >= lines.len() || is_blank(lines[from]) {
        (from, true)
    } else if find(lines[from], separator(), 0) is None {
        (from, false)
    } else {
        scan_headers(lines, from + 1)
    }
}

/// The headers that lines `1..n` define; of two lines with one name the later one counts.
pub open spec fn headers_upto(lines: Seq<Seq<char>>, n: int) -> Map<Seq<char>, Seq<char>>
    decreases n,
{
    if n <= 1 {
        Map::empty()
    } else {
        headers_upto(lines, n - 1).insert(header_name(lines[n - 1]), header_value(lines[n - 1]))
    }
}

/// An error of the given kind about `text`.
pub open spec fn failure(kind: HttpErrorKind, text: Seq<char>) -> HttpErrorView {
    HttpErrorView { kind, msg: Some(text) }
}

/// What parsing the head section `text` yields.
///
/// The first line is the start line: its first token, trimmed, names the
/// method and its second token is the request target. The lines after it
/// are headers, up to the first blank line.
pub open spec fn parse_head(text: Seq<char>) -> Result<RequestView, HttpErrorView> {
    if is_blank(text) {
        Err(HttpErrorView { kind: HttpErrorKind::EmptyRequest, msg: None })
    } else {
        let lines = split(text, '\n');
        let tokens = split(lines[0], ' ');
        match method_of(trim(tokens[0])) {
            None => Err(failure(HttpErrorKind::UnsupportedMethod, tokens[0])),
            Some(method) => {
                if tokens.len() < 2 {
                    Err(failure(HttpErrorKind::MalformedHeader, lines[0]))
                } else {
                    let (stop, well) = scan_headers(lines, 1);
                    if !well {
                        Err(failure(HttpErrorKind::MalformedHeader, lines[stop]))
                    } else {
                        Ok(
                            RequestView {
                                method,
                                headers: headers_upto(lines, stop),
                                uri: split(tokens[1], '?')[0],
                                params: complex_params(tokens[1]),
                                body: Seq::empty(),
                                files: Seq::empty(),
                            },
                        )
                    }
                }
            },
        }
    }
}

/// What parsing the bytes of a head section yields: they must be UTF-8.
pub open spec fn parse_head_bytes(bytes: Seq<u8>) -> Result<RequestView, HttpErrorView> {
    match decoded(bytes) {
        None => Err(HttpErrorView { kind: HttpErrorKind::InvalidEncoding, msg: None }),
        Some(text) => parse_head(text),
    }
}

/// The scan of the header lines passes over well-formed lines that are not blank.
pub proof fn lemma_scan_headers_skips(lines: Seq<Seq<char>>, from: int, i: int)
    requires
        0 <= from <= i <= lines.len(),
        forall|k: int|
            from <= k < i ==> !is_blank(#[trigger] lines[k]) && find(lines[k], separator(), 0)
                is Some,
    ensures
        scan_headers(lines, from) == scan_headers(lines, i),
    decreases i - from,
{
    if from < i {
        assert(!is_blank(lines[from]));
        lemma_scan_headers_skips(lines, from + 1, i);
    }
}

/// A head section with a header line that has no `": "`, before any blank
/// line, fails as a whole with `MalformedHeader` and that line.
pub proof fn lemma_malformed_header_fails(text: Seq<char>, i: int)
    requires
        !is_blank(text),
        method_of(trim(split(split(text, '\n')[0], ' ')[0])) is Some,
        split(split(text, '\n')[0], ' ').len() >= 2,
        1 <= i < split(text, '\n').len(),
        forall|k: int|
            1 <= k < i ==> !is_blank(#[trigger] split(text, '\n')[k]) && find(
                split(text, '\n')[k],
                separator(),
                0,
            ) is Some,
        !is_blank(split(text, '\n')[i]),
        find(split(text, '\n')[i], separator(), 0) is None,
    ensures
        parse_head(text) == Err::<RequestView, HttpErrorView>(
            failure(HttpErrorKind::MalformedHeader, split(text, '\n')[i]),
        ),
{
    lemma_scan_headers_skips(split(text, '\n'), 1, i);
}

/// The path of a parsed request holds no `?`.
pub proof fn lemma_uri_has_no_query(text: Seq<char>)
    requires
        parse_head(text) is Ok,
    ensures
        !parse_head(text)->Ok_0.uri.contains('?'),
{
    let lines = split(text, '\n');
    let tokens = split(lines[0], ' ');
    lemma_split_nonempty(tokens[1], '?');
    lemma_split_pieces_exclude(tokens[1], '?', 0);
}

/// The method that a trimmed method token names.
fn method_from(token: &[char]) -> (r: Option<HttpMethod>)
    ensures
        r == method_of(token@),
{
    if chars_equal(token, "GET") {
        Some(HttpMethod::Get)
    } else if chars_equal(token, "POST") {
        Some(HttpMethod::Post)
    } else if chars_equal(token, "PUT") {
        Some(HttpMethod::Put)
    } else if chars_equal(token, "PATCH") {
        Some(HttpMethod::Patch)
    } else if chars_equal(token, "OPTION") {
        Some(HttpMethod::Option)
    } else {
        None
    }
}

/// Parses the text of a head section.
#[verifier::loop_isolation(false)]
fn parse_head_text(text: &[char]) -> (r: Result<HttpRequest, HttpError>)
    ensures
        match r {
            Ok(request) => parse_head(text@) == Ok::<RequestView, HttpErrorView>(request@),
            Err(e) => parse_head(text@) == Err::<RequestView, HttpErrorView>(e@),
        },
{
    if blank(text) {
        return Err(HttpError::of_kind(HttpErrorKind::EmptyRequest));
    }
    let lines = split_chars(text, '\n');
    proof {
        lemma_split_nonempty(text@, '\n');
    }
    let tokens = split_chars(lines[0].as_slice(), ' ');
    proof {
        lemma_split_nonempty(lines@[0]@, ' ');
    }
    let name = trimmed(tokens[0].as_slice());
    let method = match method_from(name.as_slice()) {
        Some(m) => m,
        None => {
            return Err(
                HttpError::about(
                    HttpErrorKind::UnsupportedMethod,
                    string_of(tokens[0].as_slice()),
                ),
            );
        },
    };
    if tokens.len() < 2 {
        return Err(
            HttpError::about(HttpErrorKind::MalformedHeader, string_of(lines[0].as_slice())),
        );
    }
    let target = &tokens[1];
    let params = complex_params_of(target.as_slice());
    let parts = split_chars(target.as_slice(), '?');
    proof {
        lemma_split_nonempty(target@, '?');
    }
    let uri = string_of(parts[0].as_slice());

    let mut sep: Vec<char> = Vec::new();
    sep.push(':');
    sep.push(' ');
    assert(sep@ =~= separator());
    let mut headers: StrMap<String> = StrMap::new();
    let ghost all = views(lines@);
    let mut i: usize = 1;
    assert(text_map(headers@) =~= headers_upto(all, 1));
    let mut more = true;
    while more && i < lines.len()
        invariant
            1 <= i <= lines.len(),
            all == views(lines@),
            sep@ == separator(),
            text_map(headers@) == headers_upto(all, i as int),
            scan_headers(all, 1) == scan_headers(all, i as int),
            !more ==> i < lines.len() && is_blank(all[i as int]),
        decreases lines.len() - i + (if more { 1int } else { 0int }),
    {
        let line = &lines[i];
        assert(line@ == all[i as int]);
        if blank(line.as_slice()) {
            more = false;
            continue;
        }
        match find_in(line.as_slice(), sep.as_slice(), 0) {
            None => {
                return Err(
                    HttpError::about(HttpErrorKind::MalformedHeader, string_of(line.as_slice())),
                );
            },
            Some(at) => {
                let width = line.len();
                proof {
                    lemma_find_first(line@, separator(), 0);
                    assert(matches_at(line@, separator(), at as int));
                    assert(separator().len() == 2);
                    assert(at + 2 <= width);
                }
                let left = slice_chars(line.as_slice(), 0, at);
                let right = slice_chars(line.as_slice(), at + 2, width);
                let key = string_of(trimmed(left.as_slice()).as_slice());
                let value = string_of(trimmed(right.as_slice()).as_slice());
                assert(key@ == header_name(all[i as int]));
                assert(value@ == header_value(all[i as int]));
                let ghost before = headers@;
                headers.insert(key, value);
                assert(text_map(before.insert(key@, value)) =~= text_map(before).insert(
                    key@,
                    value@,
                ));
            },
        }
        i += 1;
    }
    let request = HttpRequest {
        method,
        headers,
        uri,
        params,
        body: String::new(),
        files: Vec::new(),
    };
    assert(string_views(request.files@) =~= Seq::<Seq<char>>::empty());
    assert(request@.headers == headers_upto(all, i as int));
    Ok(request)
}

/// Parses the head section of a request: the start line and the headers.
///
/// Fails with `InvalidEncoding` if the bytes are not UTF-8, with
/// `EmptyRequest` if nothing but whitespace and NUL padding is there, with
/// `UnsupportedMethod` and the token if the method is not supported, and
/// with `MalformedHeader` and the line if the start line has no request
/// target or a header line before the first blank line has no `": "`.
pub fn parse_heading(buffer: &[u8]) -> (r: Result<HttpRequest, HttpError>)
    ensures
        match r {
            Ok(request) => parse_head_bytes(buffer@) == Ok::<RequestView, HttpErrorView>(request@),
            Err(e) => parse_head_bytes(buffer@) == Err::<RequestView, HttpErrorView>(e@),
        },
        r matches Ok(request) ==> !request.uri@.contains('?'),
{
    match decode(buffer) {
        None => Err(HttpError::of_kind(HttpErrorKind::InvalidEncoding)),
        Some(text) => {
            let r = parse_head_text(text.as_slice());
            proof {
                if r is Ok {
                    lemma_uri_has_no_query(text@);
                }
            }
            r
        },
    }
}

} // verus!
