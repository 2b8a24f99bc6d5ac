//! Multipart bodies: the boundary token, where it occurs, and the parts it delimits.

use crate::decimal::{decimal, push_decimal};
use crate::err::{HttpError, HttpErrorKind, HttpErrorView};
use crate::search::{find, find_in, lemma_find_first, matches_at};
use crate::text::{decode, decoded, string_of};
use vstd::prelude::*;
use vstd::slice::slice_subrange;

verus! {

/// The bytes of `boundary=`, which announce the boundary token.
pub open spec fn marker() -> Seq<u8> {
    seq![0x62u8, 0x6fu8, 0x75u8, 0x6eu8, 0x64u8, 0x61u8, 0x72u8, 0x79u8, 0x3du8]
}

/// The bytes that end a boundary token: `;`, CR and LF.
pub open spec fn ends_token(b: u8) -> bool {
    b == 0x3b || b == 0x0d || b == 0x0a
}

/// The bytes that end a line: CR and LF.
pub open spec fn is_line_end(b: u8) -> bool {
    b == 0x0d || b == 0x0a
}

/// Index of the first byte at or after `from` that ends a token, or `s.len()` if there is none.
pub open spec fn token_end(s: Seq<u8>, from: int) -> int
    decreases s.len() - from,
{
    if from >= s.len() {
        s.len() as int
    } else if ends_token(s[from]) {
        from
    } else {
        token_end(s, from + 1)
    }
}

/// Where the boundary token stands in a head section: from the end of the
/// first marker up to the next byte that ends a token. There is none if the
/// marker is missing or the bytes run out before the token ends.
pub open spec fn boundary_span(head: Seq<u8>) -> Option<(int, int)> {
    match find(head, marker(), 0) {
        None => None,
        Some(at) => {
            let start = at + marker().len();
            let end = token_end(head, start);
            if end >= head.len() {
                None
            } else {
                Some((start, end))
            }
        },
    }
}

/// The boundary token that a head section declares.
pub open spec fn boundary_of(head: Seq<u8>) -> Result<Seq<char>, HttpErrorView> {
    match boundary_span(head) {
        None => Err(HttpErrorView { kind: HttpErrorKind::BoundaryNotFound, msg: None }),
        Some((start, end)) => match decoded(head.subrange(start, end)) {
            None => Err(HttpErrorView { kind: HttpErrorKind::InvalidEncoding, msg: None }),
            Some(token) => Ok(token),
        },
    }
}

/// `token_end` finds a byte that ends a token, and the earliest one.
pub proof fn lemma_token_end(s: Seq<u8>, from: int)
    requires
        0 <= from <= s.len(),
    ensures
        from <= token_end(s, from) <= s.len(),
        token_end(s, from) < s.len() ==> ends_token(s[token_end(s, from)]),
        forall|k: int| from <= k < token_end(s, from) ==> !ends_token(s[k]),
    decreases s.len() - from,
{
    if from < s.len() && !ends_token(s[from]) {
        lemma_token_end(s, from + 1);
    }
}

/// An index with no token end before it, and one at it or the end of `s`, is the token end.
proof fn lemma_token_end_is(s: Seq<u8>, from: int, i: int)
    requires
        0 <= from <= i <= s.len(),
        forall|k: int| from <= k < i ==> !ends_token(s[k]),
        i < s.len() ==> ends_token(s[i]),
    ensures
        token_end(s, from) == i,
    decreases i - from,
{
    if from < i {
        lemma_token_end_is(s, from + 1, i);
    }
}

/// The boundary token stands behind a marker and before a byte that ends it,
/// and none of its bytes ends a token.
pub proof fn lemma_boundary_span(head: Seq<u8>)
    requires
        boundary_span(head) is Some,
    ensures
        ({
            let (start, end) = boundary_span(head)->0;
            &&& 0 <= start <= end < head.len()
            &&& matches_at(head, marker(), start - marker().len())
            &&& ends_token(head[end])
            &&& forall|k: int| start <= k < end ==> !ends_token(head[k])
        }),
{
    lemma_find_first(head, marker(), 0);
    let at = find(head, marker(), 0)->0;
    lemma_token_end(head, at + marker().len());
}

/// The bytes of the marker.
/// A token that stands behind the first marker, holds no byte that ends a
/// token and is followed by one, is the boundary token.
pub proof fn lemma_boundary_found(head: Seq<u8>, at: int, end: int)
    requires
        find(head, marker(), 0) == Some(at),
        at + marker().len() <= end < head.len(),
        forall|k: int| at + marker().len() <= k < end ==> !ends_token(head[k]),
        ends_token(head[end]),
    ensures
        boundary_span(head) == Some((at + marker().len(), end)),
{
    lemma_find_first(head, marker(), 0);
    lemma_token_end_is(head, at + marker().len(), end);
}

fn marker_bytes() -> (m: Vec<u8>)
    ensures
        m@ == marker(),
{
    let m: Vec<u8> = vec![0x62u8, 0x6fu8, 0x75u8, 0x6eu8, 0x64u8, 0x61u8, 0x72u8, 0x79u8, 0x3du8];
    assert(m@ =~= marker());
    m
}

/// Finds the boundary token that the head section of a multipart request declares.
///
/// The token follows the first `boundary=` and ends before the next `;`,
/// CR or LF. Fails with `BoundaryNotFound` if there is no `boundary=` or no
/// such byte after it, and with `InvalidEncoding` if the token is not UTF-8.
pub fn parse_multipart_boundary(buffer: &[u8]) -> (r: Result<String, HttpError>)
    ensures
        match r {
            Ok(token) => boundary_of(buffer@) == Ok::<Seq<char>, HttpErrorView>(token@),
            Err(e) => boundary_of(buffer@) == Err::<Seq<char>, HttpErrorView>(e@),
        },
{
    let m = marker_bytes();
    let total = buffer.len();
    let at = match find_in(buffer, m.as_slice(), 0) {
        Some(at) => at,
        None => {
            return Err(HttpError::of_kind(HttpErrorKind::BoundaryNotFound));
        },
    };
    proof {
        lemma_find_first(buffer@, marker(), 0);
        assert(matches_at(buffer@, marker(), at as int));
        assert(at + m@.len() <= total);
    }
    let start: usize = at + m.len();
    let mut end: usize = start;
    while end < buffer.len() && !(buffer[end] == 0x3b || buffer[end] == 0x0d || buffer[end] == 0x0a)
        invariant
            start <= end <= buffer.len(),
            forall|k: int| start <= k < end ==> !ends_token(buffer@[k]),
        decreases buffer.len() - end,
    {
        end += 1;
    }
    proof {
        lemma_token_end_is(buffer@, start as int, end as int);
    }
    if end >= buffer.len() {
        return Err(HttpError::of_kind(HttpErrorKind::BoundaryNotFound));
    }
    match decode(slice_subrange(buffer, start, end)) {
        Some(token) => Ok(string_of(token.as_slice())),
        None => Err(HttpError::of_kind(HttpErrorKind::InvalidEncoding)),
    }
}

/// Where `pat` occurs in `body` at or after `from`, each search starting
/// where the match before it ended. An empty pattern occurs nowhere.
pub open spec fn occurrences(body: Seq<u8>, pat: Seq<u8>, from: int) -> Seq<int>
    decreases body.len() - from,
    via occurrences_decreases
{
    if pat.len() == 0 {
        Seq::empty()
    } else {
        match find(body, pat, from) {
            None => Seq::empty(),
            Some(at) => seq![at] + occurrences(body, pat, at + pat.len()),
        }
    }
}

#[via_fn]
proof fn occurrences_decreases(body: Seq<u8>, pat: Seq<u8>, from: int) {
    if from >= 0 {
        lemma_find_first(body, pat, from);
    }
}

/// The offsets of the parts of a body: every occurrence of the boundary but
/// the last one, which closes the body.
pub open spec fn part_offsets(body: Seq<u8>, boundary: Seq<u8>) -> Seq<int> {
    let all = occurrences(body, boundary, 0);
    if all.len() == 0 {
        all
    } else {
        all.drop_last()
    }
}

/// The numbers of a vector of offsets.
pub open spec fn offsets_of(v: Seq<usize>) -> Seq<int> {
    Seq::new(v.len(), |i: int| v[i] as int)
}

/// Every occurrence is a match at or after `from`, and each one starts
/// where the one before it has ended, or later.
pub proof fn lemma_occurrences(body: Seq<u8>, pat: Seq<u8>, from: int)
    requires
        0 <= from,
    ensures
        forall|i: int|
            0 <= i < occurrences(body, pat, from).len() ==> from <= (#[trigger] occurrences(
                body,
                pat,
                from,
            )[i]) && matches_at(body, pat, occurrences(body, pat, from)[i]),
        forall|i: int, j: int|
            0 <= i < j < occurrences(body, pat, from).len() ==> (#[trigger] occurrences(
                body,
                pat,
                from,
            )[i]) + pat.len() <= #[trigger] occurrences(body, pat, from)[j],
    decreases body.len() - from,
{
    if pat.len() > 0 {
        lemma_find_first(body, pat, from);
        match find(body, pat, from) {
            None => {},
            Some(at) => {
                lemma_occurrences(body, pat, at + pat.len());
                let rest = occurrences(body, pat, at + pat.len());
                let all = occurrences(body, pat, from);
                assert(all == seq![at] + rest);
                assert forall|i: int| 0 <= i < all.len() implies from <= (#[trigger] all[i])
                    && matches_at(body, pat, all[i]) by {
                    if i > 0 {
                        assert(all[i] == rest[i - 1]);
                    }
                }
                assert forall|i: int, j: int| 0 <= i < j < all.len() implies (#[trigger] all[i])
                    + pat.len() <= #[trigger] all[j] by {
                    assert(all[j] == rest[j - 1]);
                    if i > 0 {
                        assert(all[i] == rest[i - 1]);
                    }
                }
            },
        }
    }
}

/// The offsets of the parts are strictly increasing, and the boundary occurs at each.
pub proof fn lemma_part_offsets(body: Seq<u8>, boundary: Seq<u8>)
    ensures
        forall|i: int|
            0 <= i < part_offsets(body, boundary).len() ==> matches_at(
                body,
                boundary,
                #[trigger] part_offsets(body, boundary)[i],
            ),
        forall|i: int, j: int|
            0 <= i < j < part_offsets(body, boundary).len() ==> (#[trigger] part_offsets(
                body,
                boundary,
            )[i]) < #[trigger] part_offsets(body, boundary)[j],
        part_offsets(body, boundary).len() == if occurrences(body, boundary, 0).len() >= 2 {
            occurrences(body, boundary, 0).len() - 1
        } else {
            0
        },
{
    lemma_occurrences(body, boundary, 0);
    let all = occurrences(body, boundary, 0);
    let parts = part_offsets(body, boundary);
    assert forall|i: int| 0 <= i < parts.len() implies matches_at(
        body,
        boundary,
        #[trigger] parts[i],
    ) by {
        assert(parts[i] == all[i]);
    }
    assert forall|i: int, j: int| 0 <= i < j < parts.len() implies (#[trigger] parts[i])
        < #[trigger] parts[j] by {
        assert(parts[i] == all[i]);
        assert(parts[j] == all[j]);
    }
}

/// Where the parts of a multipart body start.
#[derive(Clone, Debug, PartialEq, Eq)]
pub struct MultipartDistribution {
    /// The offsets at which the boundary token occurs before each part.
    pub boundary_indexes: Vec<usize>,
    /// The length of the boundary token in bytes.
    pub boundary_len: usize,
}

/// Locates the parts of a multipart body.
///
/// The boundary is searched from the start of the body, each search
/// starting where the match before it ended. The last occurrence closes
/// the body and starts no part, so it is left out.
pub fn multipart_distribution(multipart_request: &[u8], boundary: &[u8]) -> (d:
    MultipartDistribution)
    ensures
        offsets_of(d.boundary_indexes@) == part_offsets(multipart_request@, boundary@),
        d.boundary_len == boundary.len(),
{
    let mut starts: Vec<usize> = Vec::new();
    let mut next: usize = 0;
    let mut more = boundary.len() > 0;
    let total = multipart_request.len();
    let ghost body = multipart_request@;
    let ghost pat = boundary@;
    assert(offsets_of(starts@) + occurrences(body, pat, 0) =~= occurrences(body, pat, 0));
    while more
        invariant
            body == multipart_request@,
            pat == boundary@,
            next <= body.len(),
            total == body.len(),
            occurrences(body, pat, 0) == offsets_of(starts@) + occurrences(body, pat, next as int),
            !more ==> occurrences(body, pat, next as int).len() == 0,
            more ==> pat.len() > 0,
        decreases body.len() - next + (if more { 1int } else { 0int }),
    {
        match find_in(multipart_request, boundary, next) {
            None => {
                more = false;
            },
            Some(at) => {
                proof {
                    lemma_find_first(body, pat, next as int);
                    assert(matches_at(body, pat, at as int));
                    assert(at + boundary@.len() <= total);
                    let rest = occurrences(body, pat, at + pat.len());
                    assert(offsets_of(starts@.push(at)) =~= offsets_of(starts@) + seq![at as int]);
                    assert(offsets_of(starts@) + (seq![at as int] + rest) =~= (offsets_of(starts@)
                        + seq![at as int]) + rest);
                }
                starts.push(at);
                next = at + boundary.len();
            },
        }
    }
    assert(offsets_of(starts@) =~= occurrences(body, pat, 0));
    let ghost all = starts@;
    starts.pop();
    assert(offsets_of(starts@) =~= part_offsets(body, pat)) by {
        if all.len() > 0 {
            assert(starts@ =~= all.drop_last());
        }
    }
    MultipartDistribution { boundary_indexes: starts, boundary_len: boundary.len() }
}

/// Index of the first CR or LF at or after `from`, or `s.len()` if there is none.
pub open spec fn line_end(s: Seq<u8>, from: int) -> int
    decreases s.len() - from,
{
    if from >= s.len() {
        s.len() as int
    } else if is_line_end(s[from]) {
        from
    } else {
        line_end(s, from + 1)
    }
}

/// Where the content of a part starts whose header block starts at `from`.
///
/// The header lines are passed over one by one: each ends at the first CR
/// or LF, and the next one starts two bytes further. The block ends at the
/// line end that is followed, two bytes further, by another CR or LF; the
/// content starts two bytes after that. There is no content start if the
/// bytes run out before, or one byte before the content would start.
pub open spec fn content_start(s: Seq<u8>, from: int) -> Option<int>
    decreases s.len() - from,
    via content_start_decreases
{
    if from < 0 || from >= s.len() {
        None
    } else {
        let at = line_end(s, from);
        if at + 2 >= s.len() {
            None
        } else if is_line_end(s[at + 2]) {
            if at + 4 <= s.len() {
                Some(at + 4)
            } else {
                None
            }
        } else {
            content_start(s, at + 2)
        }
    }
}

#[via_fn]
proof fn content_start_decreases(s: Seq<u8>, from: int) {
    if 0 <= from <= s.len() {
        lemma_line_end(s, from);
    }
}

/// `line_end` finds a CR or LF, and the earliest one.
pub proof fn lemma_line_end(s: Seq<u8>, from: int)
    requires
        0 <= from <= s.len(),
    ensures
        from <= line_end(s, from) <= s.len(),
        line_end(s, from) < s.len() ==> is_line_end(s[line_end(s, from)]),
        forall|k: int| from <= k < line_end(s, from) ==> !is_line_end(s[k]),
    decreases s.len() - from,
{
    if from < s.len() && !is_line_end(s[from]) {
        lemma_line_end(s, from + 1);
    }
}

/// An index with no CR or LF before it, and one at it or the end of `s`, is the line end.
proof fn lemma_line_end_is(s: Seq<u8>, from: int, i: int)
    requires
        0 <= from <= i <= s.len(),
        forall|k: int| from <= k < i ==> !is_line_end(s[k]),
        i < s.len() ==> is_line_end(s[i]),
    ensures
        line_end(s, from) == i,
    decreases i - from,
{
    if from < i {
        lemma_line_end_is(s, from + 1, i);
    }
}

/// Where part `i` ends: where the next part's boundary starts, or at the end of the body.
pub open spec fn part_end(offsets: Seq<int>, i: int, len: int) -> int {
    if i + 1 < offsets.len() {
        offsets[i + 1]
    } else {
        len
    }
}

/// The content of part `i`, as a range of the body: from the end of the
/// part's header block, which follows the boundary and a line terminator of
/// two bytes, to the end of the part. There is none if the header block
/// does not end within the body or ends after the part does.
pub open spec fn part_span(body: Seq<u8>, offsets: Seq<int>, boundary_len: int, i: int) -> Option<
    (int, int),
> {
    let end = part_end(offsets, i, body.len() as int);
    match content_start(body, offsets[i] + boundary_len + 2) {
        None => None,
        Some(start) => if start <= end <= body.len() {
            Some((start, end))
        } else {
            None
        },
    }
}

/// The content of part `i`: the bytes of its content range.
pub open spec fn part_content(body: Seq<u8>, offsets: Seq<int>, boundary_len: int, i: int) -> Seq<
    u8,
> {
    match part_span(body, offsets, boundary_len, i) {
        Some((start, end)) => body.subrange(start, end),
        None => Seq::empty(),
    }
}

/// The name of the file that part `i` is stored under.
pub open spec fn part_name(i: nat) -> Seq<char> {
    "imported_file_"@ + decimal(i)
}

/// One part of a multipart body, as it is to be stored.
#[derive(Clone, Debug, PartialEq, Eq)]
pub struct PartFile {
    pub name: String,
    pub content: Vec<u8>,
}

/// `file` is part `i` of the body: it has the part's name and content.
pub open spec fn is_part(
    file: PartFile,
    body: Seq<u8>,
    offsets: Seq<int>,
    boundary_len: int,
    i: int,
) -> bool {
    &&& part_span(body, offsets, boundary_len, i) is Some
    &&& file.content@ == part_content(body, offsets, boundary_len, i)
    &&& file.name@ == part_name(i as nat)
}

/// `files` are the first `n` parts of the body, in order.
pub open spec fn are_parts(
    files: Seq<PartFile>,
    body: Seq<u8>,
    offsets: Seq<int>,
    boundary_len: int,
    n: int,
) -> bool {
    &&& files.len() == n
    &&& forall|i: int| 0 <= i < n ==> is_part(#[trigger] files[i], body, offsets, boundary_len, i)
}

/// Cutting one body by one distribution gives the same files each time:
/// the same names and the same bytes, in the same order.
pub proof fn lemma_parts_are_determined(
    first: Seq<PartFile>,
    second: Seq<PartFile>,
    body: Seq<u8>,
    offsets: Seq<int>,
    boundary_len: int,
    n: int,
)
    requires
        are_parts(first, body, offsets, boundary_len, n),
        are_parts(second, body, offsets, boundary_len, n),
    ensures
        first.len() == second.len(),
        forall|i: int|
            0 <= i < first.len() ==> (#[trigger] first[i]).name@ == second[i].name@
                && first[i].content@ == second[i].content@,
{
    assert forall|i: int| 0 <= i < first.len() implies (#[trigger] first[i]).name@
        == second[i].name@ && first[i].content@ == second[i].content@ by {
        assert(is_part(first[i], body, offsets, boundary_len, i));
        assert(is_part(second[i], body, offsets, boundary_len, i));
    }
}

/// Finds the first CR or LF at or after `from`.
fn find_line_end(s: &[u8], from: usize) -> (at: usize)
    requires
        from <= s.len(),
    ensures
        at == line_end(s@, from as int),
        from <= at <= s.len(),
{
    let mut at: usize = from;
    while at < s.len() && !(s[at] == 0x0d || s[at] == 0x0a)
        invariant
            from <= at <= s.len(),
            forall|k: int| from <= k < at ==> !is_line_end(s@[k]),
        decreases s.len() - at,
    {
        at += 1;
    }
    proof {
        lemma_line_end_is(s@, from as int, at as int);
    }
    at
}

/// Finds where the content starts after a header block that starts at `from`.
pub fn find_content_start(s: &[u8], from: usize) -> (r: Option<usize>)
    ensures
        match r {
            Some(at) => content_start(s@, from as int) == Some(at as int),
            None => content_start(s@, from as int) is None,
        },
{
    let mut line: usize = from;
    loop
        invariant
            from <= line,
            content_start(s@, from as int) == content_start(s@, line as int),
        decreases s.len() - line,
    {
        if line >= s.len() {
            return None;
        }
        let at = find_line_end(s, line);
        if s.len() - at <= 2 {
            return None;
        }
        if s[at + 2] == 0x0d || s[at + 2] == 0x0a {
            if s.len() - at < 4 {
                return None;
            }
            return Some(at + 4);
        }
        line = at + 2;
    }
}

/// The name of the file that part `i` is stored under.
pub fn part_file_name(i: usize) -> (name: String)
    ensures
        name@ == part_name(i as nat),
{
    let mut name = "imported_file_".to_owned();
    push_decimal(&mut name, i as u64);
    name
}

/// A copy of `s[from..to]`.
fn copy_bytes(s: &[u8], from: usize, to: usize) -> (r: Vec<u8>)
    requires
        from <= to <= s.len(),
    ensures
        r@ == s@.subrange(from as int, to as int),
{
    let mut r: Vec<u8> = Vec::new();
    let mut i: usize = from;
    while i < to
        invariant
            from <= i <= to <= s.len(),
            r@ == s@.subrange(from as int, i as int),
        decreases to - i,
    {
        r.push(s[i]);
        i += 1;
        assert(s@.subrange(from as int, i as int) =~= s@.subrange(from as int, i - 1).push(
            s@[i - 1],
        ));
    }
    r
}

/// Cuts a multipart body into its parts.
///
/// Part `i` starts at offset `i` of the distribution and ends where part
/// `i + 1` starts, the last one at the end of the body. Its content is
/// what follows its header block; its name is `imported_file_` and `i` in
/// decimal. Fails with `MalformedHeader` if some part has no content
/// range, and then yields no part at all.
pub fn parse_multipart_parts(buffer: &[u8], distribution: MultipartDistribution) -> (r: Result<
    Vec<PartFile>,
    HttpError,
>)
    ensures
        match r {
            Ok(files) => are_parts(
                files@,
                buffer@,
                offsets_of(distribution.boundary_indexes@),
                distribution.boundary_len as int,
                distribution.boundary_indexes@.len() as int,
            ),
            Err(e) => e@ == (HttpErrorView { kind: HttpErrorKind::MalformedHeader, msg: None })
                && exists|i: int|
                0 <= i < distribution.boundary_indexes@.len() && (#[trigger] part_span(
                    buffer@,
                    offsets_of(distribution.boundary_indexes@),
                    distribution.boundary_len as int,
                    i,
                )) is None,
        },
{
    let n = distribution.boundary_indexes.len();
    let total = buffer.len();
    let ghost offsets = offsets_of(distribution.boundary_indexes@);
    let ghost blen = distribution.boundary_len as int;
    let mut files: Vec<PartFile> = Vec::new();
    let mut i: usize = 0;
    while i < n
        invariant
            i <= n,
            n == distribution.boundary_indexes@.len(),
            offsets == offsets_of(distribution.boundary_indexes@),
            blen == distribution.boundary_len as int,
            total == buffer@.len(),
            are_parts(files@, buffer@, offsets, blen, i as int),
        decreases n - i,
    {
        let end: usize = if i + 1 < n {
            distribution.boundary_indexes[i + 1]
        } else {
            total
        };
        assert(end == part_end(offsets, i as int, buffer@.len() as int));
        let offset = distribution.boundary_indexes[i];
        assert(offsets[i as int] == offset as int);
        let block: Option<usize> = match offset.checked_add(distribution.boundary_len) {
            Some(after) => after.checked_add(2),
            None => None,
        };
        let start: Option<usize> = match block {
            Some(from) => find_content_start(buffer, from),
            None => None,
        };
        assert(match start {
            Some(at) => content_start(buffer@, offsets[i as int] + blen + 2) == Some(at as int),
            None => content_start(buffer@, offsets[i as int] + blen + 2) is None,
        });
        match start {
            Some(at) if at <= end && end <= total => {
                let file = PartFile { name: part_file_name(i), content: copy_bytes(buffer, at, end) };
                let ghost before = files@;
                assert(part_span(buffer@, offsets, blen, i as int) == Some((at as int, end as int)));
                files.push(file);
                assert forall|k: int| 0 <= k < i + 1 implies is_part(
                    #[trigger] files@[k],
                    buffer@,
                    offsets,
                    blen,
                    k,
                ) by {
                    if k < i {
                        assert(files@[k] == before[k]);
                    }
                }
            },
            _ => {
                assert(part_span(buffer@, offsets, blen, i as int) is None);
                return Err(HttpError::of_kind(HttpErrorKind::MalformedHeader));
            },
        }
        i += 1;
    }
    Ok(files)
}

} // verus!
