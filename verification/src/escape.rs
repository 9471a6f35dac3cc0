//! Escape sequences of an input line.
//!
//! A line is scanned once, byte by byte, from left to right. The marker `!`
//! followed by another byte is a directive of two bytes: `!!` stands for one
//! `!`, `!n` for a line feed, `!e` ends the scan, and the marker with any
//! other byte stands for nothing. A marker at the very end of the line and
//! every other byte stand for themselves.
//!
//! The second byte of a directive belongs to it and is not read again: `!!e`
//! is a `!` and an `e`. A directive is read from the bytes of the line, never
//! from what another directive stands for, and a `!!` does not shield what
//! follows it: in `!!!e` the first two bytes give a `!`, and the two after
//! them still end the scan.
//!
//! The scan works on bytes, so the byte that a directive drops may be the
//! first of a longer character. What is left is decoded leniently: bytes that
//! are no valid UTF-8 turn into replacement characters.

use vstd::prelude::*;
use vstd::utf8::*;

verus! {

/// The byte that introduces a directive, `!`.
pub const ESCAPE: u8 = 0x21;

/// After the marker, `e`: the line ends the session.
pub const EXIT: u8 = 0x65;

/// After the marker, `n`: a line feed.
pub const NEWLINE: u8 = 0x6e;

/// The line feed that the newline directive stands for.
pub const LINE_FEED: u8 = 0x0a;

/// What a scan yields: the text with every directive resolved, or the index
/// of the marker of the terminate directive that ended it.
#[derive(Debug, PartialEq, Eq)]
pub enum EscapeScan<T> {
    Decoded(T),
    Exit(usize),
}

/// The model of an [`EscapeScan`]: a text, or a position in the line.
pub ghost enum Scanned<V> {
    Decoded(V),
    Exit(int),
}

impl<T: View> View for EscapeScan<T> {
    type V = Scanned<T::V>;

    open spec fn view(&self) -> Scanned<T::V> {
        match self {
            EscapeScan::Decoded(text) => Scanned::Decoded(text@),
            EscapeScan::Exit(i) => Scanned::Exit(*i as int),
        }
    }
}

/// What one line asks of the loop that reads it: to go on with a text, or to
/// stop with one.
#[derive(Debug, PartialEq, Eq)]
pub enum CycleOutcome<T> {
    Continue(T),
    Terminate(T),
}

impl<T: View> View for CycleOutcome<T> {
    type V = CycleOutcome<T::V>;

    open spec fn view(&self) -> CycleOutcome<T::V> {
        match self {
            CycleOutcome::Continue(text) => CycleOutcome::Continue(text@),
            CycleOutcome::Terminate(text) => CycleOutcome::Terminate(text@),
        }
    }
}

/// A directive starts at `i`: a marker with a byte after it.
pub open spec fn directive_at(bytes: Seq<u8>, i: int) -> bool {
    0 <= i && i + 1 < bytes.len() && bytes[i] == ESCAPE
}

/// The terminate directive starts at `i`.
pub open spec fn exit_at(bytes: Seq<u8>, i: int) -> bool {
    directive_at(bytes, i) && bytes[i + 1] == EXIT
}

/// Number of bytes that the token at `i` takes up.
pub open spec fn token_len(bytes: Seq<u8>, i: int) -> int {
    if directive_at(bytes, i) {
        2
    } else {
        1
    }
}

/// The bytes that the token at `i` stands for.
pub open spec fn token_text(bytes: Seq<u8>, i: int) -> Seq<u8> {
    if directive_at(bytes, i) {
        if bytes[i + 1] == ESCAPE {
            seq![ESCAPE]
        } else if bytes[i + 1] == NEWLINE {
            seq![LINE_FEED]
        } else {
            seq![]
        }
    } else {
        seq![bytes[i]]
    }
}

/// The scan of `bytes` from the token that starts at `i`.
pub open spec fn scan_from(bytes: Seq<u8>, i: int) -> Scanned<Seq<u8>>
    decreases bytes.len() - i,
{
    if i < 0 || i >= bytes.len() {
        Scanned::Decoded(seq![])
    } else if exit_at(bytes, i) {
        Scanned::Exit(i)
    } else {
        match scan_from(bytes, i + token_len(bytes, i)) {
            Scanned::Decoded(rest) => Scanned::Decoded(token_text(bytes, i) + rest),
            Scanned::Exit(j) => Scanned::Exit(j),
        }
    }
}

/// The scan of a whole line.
pub open spec fn scan(bytes: Seq<u8>) -> Scanned<Seq<u8>> {
    scan_from(bytes, 0)
}

/// What `String::from_utf8_lossy` makes of a sequence of bytes.
pub uninterp spec fn utf8_lossy(bytes: Seq<u8>) -> Seq<char>;

/// The text that bytes decode to: the characters they encode where they are
/// valid UTF-8, and what lenient decoding makes of them where they are not.
pub open spec fn lossy_text(bytes: Seq<u8>) -> Seq<char> {
    if valid_utf8(bytes) {
        decode_utf8(bytes)
    } else {
        utf8_lossy(bytes)
    }
}

/// A scan with its text decoded.
pub open spec fn decode_scan(s: Scanned<Seq<u8>>) -> Scanned<Seq<char>> {
    match s {
        Scanned::Decoded(out) => Scanned::Decoded(lossy_text(out)),
        Scanned::Exit(i) => Scanned::Exit(i),
    }
}

/// The outcome of a line: its decoded text to go on with, or, where the scan
/// reaches a terminate directive, the line up to that directive.
pub open spec fn escape_outcome(line: Seq<char>) -> CycleOutcome<Seq<char>> {
    let bytes = encode_utf8(line);
    match scan(bytes) {
        Scanned::Decoded(out) => CycleOutcome::Continue(lossy_text(out)),
        Scanned::Exit(i) => CycleOutcome::Terminate(decode_utf8(bytes.subrange(0, i))),
    }
}

/// The scan from `i` with `done` put in front of its text.
spec fn scan_after(done: Seq<u8>, bytes: Seq<u8>, i: int) -> Scanned<Seq<u8>> {
    match scan_from(bytes, i) {
        Scanned::Decoded(rest) => Scanned::Decoded(done + rest),
        Scanned::Exit(j) => Scanned::Exit(j),
    }
}

/// With nothing done yet, the scan is all there is.
proof fn lemma_scan_after_nothing(bytes: Seq<u8>, i: int)
    ensures
        scan_after(Seq::empty(), bytes, i) == scan_from(bytes, i),
{
    match scan_from(bytes, i) {
        Scanned::Decoded(rest) => {
            assert(Seq::<u8>::empty() + rest =~= rest);
        },
        Scanned::Exit(_) => {},
    }
}

/// Moving one token from the part still to scan to the part done changes
/// nothing.
proof fn lemma_scan_step(done: Seq<u8>, bytes: Seq<u8>, i: int)
    requires
        0 <= i < bytes.len(),
        !exit_at(bytes, i),
    ensures
        scan_after(done, bytes, i) == scan_after(
            done + token_text(bytes, i),
            bytes,
            i + token_len(bytes, i),
        ),
{
    match scan_from(bytes, i + token_len(bytes, i)) {
        Scanned::Decoded(rest) => {
            assert(done + (token_text(bytes, i) + rest) =~= (done + token_text(bytes, i)) + rest);
        },
        Scanned::Exit(_) => {},
    }
}

/// Resolves the directives in the bytes of a line.
pub fn scan_escapes(bytes: &[u8]) -> (r: EscapeScan<Vec<u8>>)
    ensures
        r@ == scan(bytes@),
{
    let n: usize = bytes.len();
    let mut out: Vec<u8> = Vec::new();
    let mut i: usize = 0;
    proof {
        lemma_scan_after_nothing(bytes@, 0);
    }
    while i < n
        invariant
            n == bytes@.len(),
            i <= n,
            scan(bytes@) == scan_after(out@, bytes@, i as int),
        decreases n - i,
    {
        let ghost done = out@;
        proof {
            if !exit_at(bytes@, i as int) {
                lemma_scan_step(done, bytes@, i as int);
            }
        }
        if bytes[i] == ESCAPE && i + 1 < n {
            let next: u8 = bytes[i + 1];
            if next == EXIT {
                return EscapeScan::Exit(i);
            }
            if next == ESCAPE {
                out.push(ESCAPE);
            } else if next == NEWLINE {
                out.push(LINE_FEED);
            }
            assert(out@ =~= done + token_text(bytes@, i as int));
            i = i + 2;
        } else {
            out.push(bytes[i]);
            assert(out@ =~= done + token_text(bytes@, i as int));
            i = i + 1;
        }
    }
    assert(out@ + Seq::<u8>::empty() =~= out@);
    EscapeScan::Decoded(out)
}

/// Calls `String::from_utf8_lossy`. Trusted: valid UTF-8 decodes to the
/// characters that it encodes, and the text made of any other bytes depends
/// on the bytes alone.
#[verifier::external_body]
fn decode_lossy(bytes: &[u8]) -> (text: String)
    ensures
        text@ == utf8_lossy(bytes@),
        valid_utf8(bytes@) ==> text@ == decode_utf8(bytes@),
{
    String::from_utf8_lossy(bytes).into_owned()
}

/// Resolves the directives of a line: the decoded text, or the byte index of
/// the marker of the terminate directive that the scan reached.
pub fn escape_bytes(orig: String) -> (r: EscapeScan<String>)
    ensures
        r@ == decode_scan(scan(encode_utf8(orig@))),
{
    match scan_escapes(orig.as_str().as_bytes()) {
        EscapeScan::Decoded(out) => EscapeScan::Decoded(decode_lossy(out.as_slice())),
        EscapeScan::Exit(i) => EscapeScan::Exit(i),
    }
}

/// Reads one line. Without a terminate directive the line's directives are
/// resolved and the text is handed on; with one, the line as it was typed, up
/// to the marker of that directive, is the last word.
pub fn escape_process(line: String) -> (r: CycleOutcome<String>)
    ensures
        r@ == escape_outcome(line@),
        r matches CycleOutcome::Terminate(head) ==> head@.is_prefix_of(line@),
{
    let ghost bytes = encode_utf8(line@);
    match escape_bytes(line.clone()) {
        EscapeScan::Decoded(text) => CycleOutcome::Continue(text),
        EscapeScan::Exit(i) => {
            proof {
                lemma_exit_index(bytes, 0);
                lemma_marker_on_boundary(line@, i as int);
                lemma_terminate_is_prefix(line@);
            }
            let (head, _) = line.as_str().split_at(i);
            proof {
                encode_utf8_decode_utf8(head@);
            }
            CycleOutcome::Terminate(head.to_owned())
        },
    }
}

/// A scan ends only at a terminate directive, at or after its start.
pub proof fn lemma_exit_index(bytes: Seq<u8>, i: int)
    requires
        0 <= i,
        scan_from(bytes, i) is Exit,
    ensures
        i <= scan_from(bytes, i)->Exit_0,
        exit_at(bytes, scan_from(bytes, i)->Exit_0),
    decreases bytes.len() - i,
{
    if i < bytes.len() && !exit_at(bytes, i) {
        lemma_exit_index(bytes, i + token_len(bytes, i));
    }
}

/// Bytes without a marker are their own scan.
pub proof fn lemma_scan_plain(bytes: Seq<u8>, i: int)
    requires
        0 <= i <= bytes.len(),
        forall|k: int| i <= k < bytes.len() ==> bytes[k] != ESCAPE,
    ensures
        scan_from(bytes, i) == Scanned::Decoded(bytes.subrange(i, bytes.len() as int)),
    decreases bytes.len() - i,
{
    let n = bytes.len() as int;
    if i < n {
        lemma_scan_plain(bytes, i + 1);
        assert(seq![bytes[i]] + bytes.subrange(i + 1, n) =~= bytes.subrange(i, n));
    } else {
        assert(bytes.subrange(i, n) =~= Seq::<u8>::empty());
    }
}

/// A marker among the bytes of a text is the encoding of a `!`, so a
/// character starts there.
pub proof fn lemma_marker_on_boundary(text: Seq<char>, i: int)
    requires
        0 <= i < encode_utf8(text).len(),
        encode_utf8(text)[i] == ESCAPE,
    ensures
        is_char_boundary(encode_utf8(text), i),
{
    encode_utf8_valid_utf8(text);
    is_char_boundary_iff_not_is_continuation_byte(encode_utf8(text), i);
}

/// Only the character `!` has the marker among the bytes of its encoding.
proof fn lemma_marker_in_scalar(c: char, k: int)
    requires
        0 <= k < encode_scalar(c as u32).len(),
        encode_scalar(c as u32)[k] == ESCAPE,
    ensures
        c == '!',
{
    let v = c as u32;
    char_is_scalar(c);
    assert(v <= 0x7f ==> (v & 0x7f) as u8 == v) by (bit_vector);
    assert(0xC0u8 | ((v >> 6) & 0x1F) as u8 >= 0x80) by (bit_vector);
    assert(0xE0u8 | ((v >> 12) & 0x0F) as u8 >= 0x80) by (bit_vector);
    assert(0xF0u8 | ((v >> 18) & 0x7) as u8 >= 0x80) by (bit_vector);
    assert(0x80u8 | (v & 0x3F) as u8 >= 0x80) by (bit_vector);
    assert(0x80u8 | ((v >> 6) & 0x3F) as u8 >= 0x80) by (bit_vector);
    assert(0x80u8 | ((v >> 12) & 0x3F) as u8 >= 0x80) by (bit_vector);
}

/// A text without `!` has no marker among its bytes.
pub proof fn lemma_no_marker_bytes(text: Seq<char>)
    requires
        forall|k: int| 0 <= k < text.len() ==> text[k] != '!',
    ensures
        forall|k: int| 0 <= k < encode_utf8(text).len() ==> encode_utf8(text)[k] != ESCAPE,
    decreases text.len(),
{
    if text.len() > 0 {
        let first = encode_scalar(text[0] as u32);
        let rest = encode_utf8(text.drop_first());
        lemma_no_marker_bytes(text.drop_first());
        assert forall|k: int| 0 <= k < encode_utf8(text).len() implies encode_utf8(text)[k]
            != ESCAPE by {
            if k < first.len() {
                if first[k] == ESCAPE {
                    lemma_marker_in_scalar(text[0], k);
                }
            } else {
                assert(encode_utf8(text)[k] == rest[k - first.len()]);
            }
        }
    }
}

/// A line without `!` is handed on as it is.
pub proof fn lemma_plain_line(line: Seq<char>)
    requires
        forall|k: int| 0 <= k < line.len() ==> line[k] != '!',
    ensures
        escape_outcome(line) == CycleOutcome::Continue(line),
{
    let bytes = encode_utf8(line);
    lemma_no_marker_bytes(line);
    lemma_scan_plain(bytes, 0);
    assert(bytes.subrange(0, bytes.len() as int) =~= bytes);
    encode_utf8_valid_utf8(line);
    encode_utf8_decode_utf8(line);
}

/// The text that ends a session is a prefix of the line that ended it.
pub proof fn lemma_terminate_is_prefix(line: Seq<char>)
    requires
        escape_outcome(line) is Terminate,
    ensures
        escape_outcome(line)->Terminate_0.is_prefix_of(line),
{
    let bytes = encode_utf8(line);
    let i = scan(bytes)->Exit_0;
    lemma_exit_index(bytes, 0);
    lemma_marker_on_boundary(line, i);
    encode_utf8_valid_utf8(line);
    encode_utf8_decode_utf8(line);
    decode_utf8_split(bytes, i);
}

} // verus!
