//! Text as sequences of characters: decoding, trimming and splitting.

use vstd::prelude::*;
use vstd::string::*;
use vstd::utf8::*;

verus! {

/// `String::push` appends the character to the end of the string and
/// leaves the characters before it as they were.
pub assume_specification[ std::string::String::push ](s: &mut std::string::String, c: char)
    ensures
        final(s)@ == old(s)@.push(c),
;

/// Calls `core::str::from_utf8`. Trusted: the call succeeds exactly on
/// well-formed UTF-8, and the text it returns is made of the same bytes.
#[verifier::external_body]
pub(crate) fn str_from_utf8(bytes: &[u8]) -> (r: Option<&str>)
    ensures
        r is Some <==> valid_utf8(bytes@),
        r matches Some(s) ==> s.spec_bytes() == bytes@,
{
    core::str::from_utf8(bytes).ok()
}

/// The text that `bytes` encode, if they are well-formed UTF-8.
pub open spec fn decoded(bytes: Seq<u8>) -> Option<Seq<char>> {
    if valid_utf8(bytes) {
        Some(decode_utf8(bytes))
    } else {
        None
    }
}

/// Decodes UTF-8 bytes into their characters.
pub fn decode(bytes: &[u8]) -> (r: Option<Vec<char>>)
    ensures
        match r {
            Some(v) => decoded(bytes@) == Some(v@),
            None => decoded(bytes@) is None,
        },
{
    match str_from_utf8(bytes) {
        Some(s) => {
            proof {
                encode_utf8_decode_utf8(s@);
            }
            Some(chars_of(s))
        },
        None => None,
    }
}

/// The characters of `s`, in order, as an indexable vector.
pub fn chars_of(s: &str) -> (v: Vec<char>)
    ensures
        v@ == s@,
{
    let mut v: Vec<char> = Vec::new();
    for c in it: s.chars()
        invariant
            v@ == it.seq().take(it.index() as int),
            it.seq() == s@,
    {
        v.push(c);
    }
    v
}

/// A string made of the characters of `v`, in order.
pub fn string_of(v: &[char]) -> (s: String)
    ensures
        s@ == v@,
{
    let mut s = String::new();
    let mut i: usize = 0;
    while i < v.len()
        invariant
            i <= v.len(),
            s@ == v@.take(i as int),
        decreases v.len() - i,
    {
        s.push(v[i]);
        i += 1;
        assert(v@.take(i as int) =~= v@.take(i - 1).push(v@[i - 1]));
    }
    assert(v@.take(v.len() as int) =~= v@);
    s
}

/// A copy of `v[from..to]`.
pub fn slice_chars(v: &[char], from: usize, to: usize) -> (r: Vec<char>)
    requires
        from <= to <= v.len(),
    ensures
        r@ == v@.subrange(from as int, to as int),
{
    let mut r: Vec<char> = Vec::new();
    let mut i: usize = from;
    while i < to
        invariant
            from <= i <= to <= v.len(),
            r@ == v@.subrange(from as int, i as int),
        decreases to - i,
    {
        r.push(v[i]);
        i += 1;
        assert(v@.subrange(from as int, i as int) =~= v@.subrange(from as int, i - 1).push(
            v@[i - 1],
        ));
    }
    r
}

/// Tests whether `v` holds exactly the characters of `s`.
pub fn chars_equal(v: &[char], s: &str) -> (r: bool)
    ensures
        r == (v@ == s@),
{
    let w = chars_of(s);
    if v.len() != w.len() {
        return false;
    }
    let mut i: usize = 0;
    while i < v.len()
        invariant
            i <= v.len(),
            v.len() == w.len(),
            w@ == s@,
            forall|k: int| 0 <= k < i ==> v@[k] == w@[k],
        decreases v.len() - i,
    {
        if v[i] != w[i] {
            return false;
        }
        i += 1;
    }
    assert(v@ =~= w@);
    true
}

/// Characters with the Unicode property `White_Space`.
pub open spec fn is_whitespace(c: char) -> bool {
    let u = c as u32;
    ||| 0x09 <= u <= 0x0D
    ||| u == 0x20
    ||| u == 0x85
    ||| u == 0xA0
    ||| u == 0x1680
    ||| 0x2000 <= u <= 0x200A
    ||| u == 0x2028
    ||| u == 0x2029
    ||| u == 0x202F
    ||| u == 0x205F
    ||| u == 0x3000
}

/// Tests whether `c` is a whitespace character.
pub fn whitespace(c: char) -> (r: bool)
    ensures
        r == is_whitespace(c),
{
    let u: u32 = c as u32;
    (0x09 <= u && u <= 0x0D) || u == 0x20 || u == 0x85 || u == 0xA0 || u == 0x1680 || (0x2000 <= u
        && u <= 0x200A) || u == 0x2028 || u == 0x2029 || u == 0x202F || u == 0x205F || u == 0x3000
}

/// `s` without its leading whitespace.
pub open spec fn trim_start(s: Seq<char>) -> Seq<char>
    decreases s.len(),
{
    if s.len() > 0 && is_whitespace(s[0]) {
        trim_start(s.skip(1))
    } else {
        s
    }
}

/// `s` without its trailing whitespace.
pub open spec fn trim_end(s: Seq<char>) -> Seq<char>
    decreases s.len(),
{
    if s.len() > 0 && is_whitespace(s.last()) {
        trim_end(s.drop_last())
    } else {
        s
    }
}

/// `s` without leading and trailing whitespace.
pub open spec fn trim(s: Seq<char>) -> Seq<char> {
    trim_end(trim_start(s))
}

/// Nothing but NUL characters is left of `s` once it is trimmed.
pub open spec fn is_blank(s: Seq<char>) -> bool {
    forall|i: int| 0 <= i < trim(s).len() ==> trim(s)[i] == '\0'
}

/// A copy of `v` without leading and trailing whitespace.
pub fn trimmed(v: &[char]) -> (r: Vec<char>)
    ensures
        r@ == trim(v@),
{
    let n = v.len();
    let mut a: usize = 0;
    assert(v@.skip(0) =~= v@);
    while a < n && whitespace(v[a])
        invariant
            a <= n,
            n == v.len(),
            trim_start(v@) == trim_start(v@.skip(a as int)),
        decreases n - a,
    {
        assert(v@.skip(a as int).skip(1) =~= v@.skip(a + 1));
        a += 1;
    }
    assert(trim_start(v@) == v@.skip(a as int));
    let mut b: usize = n;
    while b > a && whitespace(v[b - 1])
        invariant
            a <= b <= n,
            n == v.len(),
            trim(v@) == trim_end(v@.subrange(a as int, b as int)),
        decreases b - a,
    {
        assert(v@.subrange(a as int, b as int).drop_last() =~= v@.subrange(a as int, b - 1));
        b -= 1;
    }
    slice_chars(v, a, b)
}

/// Tests whether only NUL characters are left of `v` once it is trimmed.
pub fn blank(v: &[char]) -> (r: bool)
    ensures
        r == is_blank(v@),
{
    let t = trimmed(v);
    let mut i: usize = 0;
    while i < t.len()
        invariant
            i <= t.len(),
            t@ == trim(v@),
            forall|k: int| 0 <= k < i ==> t@[k] == '\0',
        decreases t.len() - i,
    {
        if t[i] != '\0' {
            return false;
        }
        i += 1;
    }
    true
}

/// Index of the first `c` in `s` at or after `from`, or `s.len()` if there is none.
pub open spec fn first_index(s: Seq<char>, c: char, from: int) -> int
    decreases s.len() - from,
{
    if from >= s.len() {
        s.len() as int
    } else if s[from] == c {
        from
    } else {
        first_index(s, c, from + 1)
    }
}

/// The pieces of `s` between occurrences of `c`: one more piece than there
/// are occurrences, empty pieces included.
pub open spec fn split(s: Seq<char>, c: char) -> Seq<Seq<char>>
    decreases s.len(),
{
    let i = first_index(s, c, 0);
    if 0 <= i < s.len() {
        seq![s.take(i)] + split(s.skip(i + 1), c)
    } else {
        seq![s]
    }
}

/// `first_index` finds an occurrence, and the earliest one.
pub proof fn lemma_first_index(s: Seq<char>, c: char, from: int)
    requires
        0 <= from <= s.len(),
    ensures
        from <= first_index(s, c, from) <= s.len(),
        first_index(s, c, from) < s.len() ==> s[first_index(s, c, from)] == c,
        forall|k: int| from <= k < first_index(s, c, from) ==> s[k] != c,
    decreases s.len() - from,
{
    if from < s.len() && s[from] != c {
        lemma_first_index(s, c, from + 1);
    }
}

/// An index with no `c` before it, and `c` at it or the end of `s`, is the first index.
pub proof fn lemma_first_index_is(s: Seq<char>, c: char, from: int, i: int)
    requires
        0 <= from <= i <= s.len(),
        forall|k: int| from <= k < i ==> s[k] != c,
        i < s.len() ==> s[i] == c,
    ensures
        first_index(s, c, from) == i,
    decreases i - from,
{
    if from < i {
        lemma_first_index_is(s, c, from + 1, i);
    }
}

/// The pieces put together again, with `c` between them.
pub open spec fn join(pieces: Seq<Seq<char>>, c: char) -> Seq<char>
    decreases pieces.len(),
{
    if pieces.len() == 0 {
        Seq::empty()
    } else if pieces.len() == 1 {
        pieces[0]
    } else {
        pieces[0] + seq![c] + join(pieces.skip(1), c)
    }
}

/// Joining the pieces of a split gives the text back.
pub proof fn lemma_join_split(s: Seq<char>, c: char)
    ensures
        join(split(s, c), c) == s,
    decreases s.len(),
{
    lemma_first_index(s, c, 0);
    let i = first_index(s, c, 0);
    if i < s.len() {
        let rest = split(s.skip(i + 1), c);
        lemma_join_split(s.skip(i + 1), c);
        lemma_split_nonempty(s.skip(i + 1), c);
        assert(split(s, c).skip(1) =~= rest);
        assert(s.take(i) + seq![c] + s.skip(i + 1) =~= s);
    }
}

/// A split always yields at least one piece.
pub proof fn lemma_split_nonempty(s: Seq<char>, c: char)
    ensures
        split(s, c).len() >= 1,
{
}

/// A text without `c` is its own single piece, and only such a text has a single piece.
pub proof fn lemma_split_single(s: Seq<char>, c: char)
    ensures
        split(s, c).len() == 1 <==> !s.contains(c),
        !s.contains(c) ==> split(s, c) == seq![s],
{
    lemma_first_index(s, c, 0);
    let i = first_index(s, c, 0);
    if i < s.len() {
        lemma_split_nonempty(s.skip(i + 1), c);
        assert(s.contains(c));
    }
}

/// No piece of a split holds the separator.
pub proof fn lemma_split_pieces_exclude(s: Seq<char>, c: char, i: int)
    requires
        0 <= i < split(s, c).len(),
    ensures
        !split(s, c)[i].contains(c),
    decreases s.len(),
{
    lemma_first_index(s, c, 0);
    let k = first_index(s, c, 0);
    if k < s.len() {
        if i > 0 {
            lemma_split_pieces_exclude(s.skip(k + 1), c, i - 1);
        }
    }
}

/// The views of a vector of character vectors.
pub open spec fn views(vs: Seq<Vec<char>>) -> Seq<Seq<char>> {
    Seq::new(vs.len(), |i: int| vs[i]@)
}

/// Splits `v` at every occurrence of `c`.
pub fn split_chars(v: &[char], c: char) -> (r: Vec<Vec<char>>)
    ensures
        views(r@) == split(v@, c),
{
    let mut out: Vec<Vec<char>> = Vec::new();
    let mut cur: Vec<char> = Vec::new();
    let mut i: usize = 0;
    let ghost mut start: int = 0;
    assert(v@.skip(0) =~= v@);
    assert(views(out@) + split(v@.skip(0), c) =~= split(v@, c));
    while i < v.len()
        invariant
            0 <= start <= i <= v.len(),
            cur@ == v@.subrange(start, i as int),
            forall|k: int| start <= k < i ==> v@[k] != c,
            split(v@, c) == views(out@) + split(v@.skip(start), c),
        decreases v.len() - i,
    {
        if v[i] == c {
            proof {
                let t = v@.skip(start);
                lemma_first_index_is(t, c, 0, i - start);
                assert(t.take(i - start) =~= cur@);
                assert(t.skip(i - start + 1) =~= v@.skip(i + 1));
                assert(views(out@.push(cur)) =~= views(out@) + seq![cur@]);
                assert(views(out@) + (seq![cur@] + split(v@.skip(i + 1), c)) =~= (views(out@)
                    + seq![cur@]) + split(v@.skip(i + 1), c));
                start = i + 1;
            }
            out.push(cur);
            cur = Vec::new();
        } else {
            cur.push(v[i]);
        }
        i += 1;
        assert(cur@ =~= v@.subrange(start, i as int));
    }
    proof {
        let t = v@.skip(start);
        lemma_first_index_is(t, c, 0, t.len() as int);
        assert(t =~= cur@);
        assert(views(out@.push(cur)) =~= views(out@) + seq![cur@]);
    }
    out.push(cur);
    out
}

} // verus!
