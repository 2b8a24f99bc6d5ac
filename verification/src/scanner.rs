//! The byte scanner: reading up to and including a terminator.

use crate::search::{matches_at, occurs_at};
use vstd::prelude::*;

verus! {

/// The last bytes of `buf` are `term`.
pub open spec fn ends_with(buf: Seq<u8>, term: Seq<u8>) -> bool {
    term.len() <= buf.len() && matches_at(buf, term, buf.len() - term.len())
}

/// How many bytes of `source` the scanner consumes, given that the first
/// `n` of them did not stop it: it stops after the first byte with which
/// what was read ends with `term`, or when the source is exhausted.
pub open spec fn scan_len(source: Seq<u8>, term: Seq<u8>, n: int) -> int
    decreases source.len() - n,
{
    if n >= source.len() {
        source.len() as int
    } else if ends_with(source.take(n + 1), term) {
        n + 1
    } else {
        scan_len(source, term, n + 1)
    }
}

/// What the scanner returns on `source`: the bytes it consumed, terminator included.
pub open spec fn read_until(source: Seq<u8>, term: Seq<u8>) -> Seq<u8> {
    source.take(scan_len(source, term, 0))
}

/// The scan stops within the source, at the first prefix that ends with the
/// terminator; if it stops before the end of the source, there is such a prefix.
pub proof fn lemma_scan_len(source: Seq<u8>, term: Seq<u8>, n: int)
    requires
        0 <= n <= source.len(),
    ensures
        n <= scan_len(source, term, n) <= source.len(),
        n < source.len() ==> n < scan_len(source, term, n),
        forall|k: int| n < k < scan_len(source, term, n) ==> !ends_with(source.take(k), term),
        scan_len(source, term, n) < source.len() ==> ends_with(
            source.take(scan_len(source, term, n)),
            term,
        ),
    decreases source.len() - n,
{
    if n < source.len() && !ends_with(source.take(n + 1), term) {
        lemma_scan_len(source, term, n + 1);
    }
}

/// What the scanner returns is the start of the source. It ends with the
/// terminator unless it is the whole source, and nothing shorter that it
/// has read does.
pub proof fn lemma_read_until(source: Seq<u8>, term: Seq<u8>)
    ensures
        read_until(source, term).len() <= source.len(),
        read_until(source, term) == source.take(read_until(source, term).len() as int),
        read_until(source, term).len() < source.len() ==> ends_with(read_until(source, term), term),
        forall|k: int|
            0 < k < read_until(source, term).len() ==> !ends_with(
                #[trigger] source.take(k),
                term,
            ),
{
    lemma_scan_len(source, term, 0);
}

/// Tests whether the last bytes of `buf` are `term`.
pub fn ends_with_bytes(buf: &[u8], term: &[u8]) -> (r: bool)
    ensures
        r == ends_with(buf@, term@),
{
    if term.len() > buf.len() {
        return false;
    }
    occurs_at(buf, term, buf.len() - term.len())
}

/// One step of the scanner. `byte` is what the source gave: a byte, or
/// nothing when it is exhausted. A byte is appended to `buf`. The result
/// says whether the scan is over: the source is exhausted, or `buf` now
/// ends with `term`.
pub fn take_til_step(buf: &mut Vec<u8>, term: &[u8], byte: Option<u8>) -> (done: bool)
    ensures
        match byte {
            Some(b) => final(buf)@ == old(buf)@.push(b) && done == ends_with(final(buf)@, term@),
            None => final(buf)@ == old(buf)@ && done,
        },
{
    match byte {
        Some(b) => {
            buf.push(b);
            ends_with_bytes(buf.as_slice(), term)
        },
        None => true,
    }
}

/// Runs the scanner on a source that is held in memory.
pub fn take_til(source: &[u8], term: &[u8]) -> (r: Vec<u8>)
    ensures
        r@ == read_until(source@, term@),
{
    let mut buf: Vec<u8> = Vec::new();
    let mut done = false;
    assert(buf@ =~= source@.take(0));
    while !done
        invariant
            buf@.len() <= source@.len(),
            buf@ == source@.take(buf@.len() as int),
            !done ==> scan_len(source@, term@, 0) == scan_len(source@, term@, buf@.len() as int),
            done ==> buf@ == read_until(source@, term@),
        decreases source@.len() - buf@.len() + (if done { 0int } else { 1int }),
    {
        let n = buf.len();
        let byte = if n < source.len() {
            Some(source[n])
        } else {
            None
        };
        proof {
            if n < source.len() {
                assert(source@.take(n + 1) =~= source@.take(n as int).push(source@[n as int]));
            }
        }
        done = take_til_step(&mut buf, term, byte);
    }
    buf
}

} // verus!
