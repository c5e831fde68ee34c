//! The header scanner.
//!
//! A response starts with lines that end in CR LF; an empty line ends them.
//! The scanner takes the lines off the front of the receive buffer one by
//! one, notes the length that a `content-length: ` line declares, and stops
//! at the empty line. Bytes that do not yet make a whole line stay in the
//! buffer until more arrive.

use crate::buffer::ReceiveBuffer;
use crate::chunks::joined;
use crate::search::{memmem_find, occurs_at};
use vstd::prelude::*;

verus! {

/// CR LF stands at index `i` of `s`.
pub open spec fn crlf_at(s: Seq<u8>, i: int) -> bool {
    0 <= i && i + 1 < s.len() && s[i] == 13 && s[i + 1] == 10
}

/// The first CR LF of `s` stands at index `i`: the first line of `s` is its
/// first `i` bytes.
pub open spec fn is_line_end(s: Seq<u8>, i: int) -> bool {
    crlf_at(s, i) && forall|j: int| 0 <= j < i ==> !crlf_at(s, j)
}

/// `s` starts with a whole line.
pub open spec fn has_line(s: Seq<u8>) -> bool {
    exists|i: int| is_line_end(s, i)
}

/// The length of the first line of `s`, without its CR LF, where `s` has a
/// whole line.
pub open spec fn line_len(s: Seq<u8>) -> int {
    choose|i: int| is_line_end(s, i)
}

/// The bytes of `content-length: `, the start of the one header line that the
/// scanner reads. The name is matched as it stands, in lower case.
pub open spec fn length_prefix() -> Seq<u8> {
    seq![
        99u8, 111u8, 110u8, 116u8, 101u8, 110u8, 116u8, 45u8,
        108u8, 101u8, 110u8, 103u8, 116u8, 104u8, 58u8, 32u8,
    ]
}

/// `b` is an ASCII digit.
pub open spec fn is_digit(b: u8) -> bool {
    48 <= b <= 57
}

/// Every byte of `s` is an ASCII digit.
pub open spec fn all_digits(s: Seq<u8>) -> bool {
    forall|i: int| 0 <= i < s.len() ==> is_digit(#[trigger] s[i])
}

/// The number that the digits `s` write in base ten.
pub open spec fn decimal_value(s: Seq<u8>) -> nat
    decreases s.len(),
{
    if s.len() == 0 {
        0
    } else {
        decimal_value(s.drop_last()) * 10 + (s.last() - 48) as nat
    }
}

/// `s` without the one `+` that may stand in front of a number.
pub open spec fn without_sign(s: Seq<u8>) -> Seq<u8> {
    if s.len() > 0 && s[0] == 43 {
        s.skip(1)
    } else {
        s
    }
}

/// The number that `s` writes: an optional `+`, then at least one digit and
/// nothing but digits, in base ten, with a value that a `usize` holds.
/// Anything else writes no number.
pub open spec fn parse_decimal(s: Seq<u8>) -> Option<usize> {
    let digits = without_sign(s);
    if digits.len() > 0 && all_digits(digits) && decimal_value(digits) <= usize::MAX {
        Some(decimal_value(digits) as usize)
    } else {
        None
    }
}

/// `line` is a `content-length: ` line.
pub open spec fn is_length_line(line: Seq<u8>) -> bool {
    line.len() >= length_prefix().len() && line.take(length_prefix().len() as int)
        == length_prefix()
}

/// The declared length after `line` was read, where it was `known` before.
/// A `content-length: ` line overwrites what was known, with nothing where
/// its value writes no number; any other line changes nothing.
pub open spec fn note_line(known: Option<usize>, line: Seq<u8>) -> Option<usize> {
    if is_length_line(line) {
        parse_decimal(line.skip(length_prefix().len() as int))
    } else {
        known
    }
}

/// What the scanner has learnt of the headers of one response.
#[derive(Clone, Copy, Debug, PartialEq, Eq)]
pub struct HeaderIndex {
    /// The length that the last `content-length: ` line declared.
    pub content_length: Option<usize>,
    /// The empty line that ends the headers was seen.
    pub complete: bool,
}

/// The scanner's work on the bytes `pending` with `index` known so far: the
/// bytes that it leaves, and what is known then. It takes whole lines off
/// the front until the headers are complete or no whole line is left.
pub open spec fn scan(pending: Seq<u8>, index: HeaderIndex) -> (Seq<u8>, HeaderIndex)
    decreases pending.len(),
{
    if index.complete || !has_line(pending) {
        (pending, index)
    } else {
        let i = line_len(pending);
        if i == 0 {
            (pending.skip(2), HeaderIndex { content_length: index.content_length, complete: true })
        } else {
            scan(
                pending.skip(i + 2),
                HeaderIndex {
                    content_length: note_line(index.content_length, pending.take(i)),
                    complete: false,
                },
            )
        }
    }
}

/// A string has one first line end at most.
pub proof fn lemma_line_end_unique(s: Seq<u8>, i: int, j: int)
    requires
        is_line_end(s, i),
        is_line_end(s, j),
    ensures
        i == j,
{
    if i < j {
        assert(!crlf_at(s, i));
    }
    if j < i {
        assert(!crlf_at(s, j));
    }
}

/// Where the first line end of `s` is known, `line_len` is its index.
pub proof fn lemma_line_len(s: Seq<u8>, i: int)
    requires
        is_line_end(s, i),
    ensures
        has_line(s),
        line_len(s) == i,
{
    lemma_line_end_unique(s, i, line_len(s));
}

/// A string that holds CR LF anywhere starts with a whole line.
pub proof fn lemma_has_line(s: Seq<u8>, j: int)
    requires
        crlf_at(s, j),
    ensures
        has_line(s),
    decreases j,
{
    if forall|i: int| 0 <= i < j ==> !crlf_at(s, i) {
        assert(is_line_end(s, j));
    } else {
        let i = choose|i: int| 0 <= i < j && crlf_at(s, i);
        lemma_has_line(s, i);
    }
}

/// What a scan leaves is no longer than what it was given, and starts with
/// no whole line unless the headers are complete.
pub proof fn lemma_scan_leaves(pending: Seq<u8>, index: HeaderIndex)
    ensures
        scan(pending, index).0.len() <= pending.len(),
        !scan(pending, index).1.complete ==> !has_line(scan(pending, index).0),
        index.complete ==> scan(pending, index) == (pending, index),
    decreases pending.len(),
{
    if !index.complete && has_line(pending) {
        let i = line_len(pending);
        if i != 0 {
            lemma_scan_leaves(
                pending.skip(i + 2),
                HeaderIndex {
                    content_length: note_line(index.content_length, pending.take(i)),
                    complete: false,
                },
            );
        }
    }
}

/// When a read completes the headers, what is left behind the empty line
/// came with that read, and is shorter than it.
pub proof fn lemma_scan_leftover(pending: Seq<u8>, index: HeaderIndex, read: Seq<u8>)
    requires
        !index.complete,
        !has_line(pending),
        scan(pending + read, index).1.complete,
    ensures
        scan(pending + read, index).0.len() < read.len(),
{
    let s = pending + read;
    let i = line_len(s);
    assert(is_line_end(s, i));
    if i + 1 < pending.len() {
        assert(crlf_at(pending, i));
        lemma_has_line(pending, i);
    }
    if i != 0 {
        lemma_scan_leaves(
            s.skip(i + 2),
            HeaderIndex {
                content_length: note_line(index.content_length, s.take(i)),
                complete: false,
            },
        );
    }
}

/// The scanner's state between reads: the bytes that it holds back, and what
/// it knows.
pub type ScanState = (Seq<u8>, HeaderIndex);

/// The state before the first read.
pub open spec fn fresh() -> ScanState {
    (Seq::empty(), HeaderIndex { content_length: None, complete: false })
}

/// The state after one more read has delivered `data`.
pub open spec fn feed(state: ScanState, data: Seq<u8>) -> ScanState {
    scan(state.0 + data, state.1)
}

/// The state after the reads `reads`, one after the other.
pub open spec fn feed_all(state: ScanState, reads: Seq<Seq<u8>>) -> ScanState
    decreases reads.len(),
{
    if reads.len() == 0 {
        state
    } else {
        feed(feed_all(state, reads.drop_last()), reads.last())
    }
}

/// `line` can stand as a header line: it holds at least one byte and no
/// CR LF.
pub open spec fn is_header_line(line: Seq<u8>) -> bool {
    line.len() > 0 && forall|j: int| !crlf_at(line, j)
}

/// The bytes of a header block: each of `lines` with its CR LF, then the
/// empty line.
pub open spec fn header_block(lines: Seq<Seq<u8>>) -> Seq<u8>
    decreases lines.len(),
{
    if lines.len() == 0 {
        seq![13u8, 10u8]
    } else {
        lines.first() + seq![13u8, 10u8] + header_block(lines.drop_first())
    }
}

/// The declared length after `lines` were read in their order, where it was
/// `known` before.
pub open spec fn last_written(known: Option<usize>, lines: Seq<Seq<u8>>) -> Option<usize>
    decreases lines.len(),
{
    if lines.len() == 0 {
        known
    } else {
        last_written(note_line(known, lines.first()), lines.drop_first())
    }
}

/// Bytes that arrive later do not move the end of a line that is whole.
pub proof fn lemma_line_end_append(s: Seq<u8>, more: Seq<u8>, i: int)
    requires
        is_line_end(s, i),
    ensures
        is_line_end(s + more, i),
{
    assert forall|j: int| 0 <= j < i implies !crlf_at(s + more, j) by {
        assert(!crlf_at(s, j));
    }
}

/// Scanning, then scanning again when more bytes have arrived, leaves what
/// one scan of all the bytes leaves.
pub proof fn lemma_scan_split(pending: Seq<u8>, index: HeaderIndex, more: Seq<u8>)
    ensures
        feed(scan(pending, index), more) == scan(pending + more, index),
    decreases pending.len(),
{
    if index.complete || !has_line(pending) {
    } else {
        let i = line_len(pending);
        lemma_line_end_append(pending, more, i);
        lemma_line_len(pending + more, i);
        assert((pending + more).skip(i + 2) =~= pending.skip(i + 2) + more);
        assert((pending + more).take(i) =~= pending.take(i));
        if i != 0 {
            lemma_scan_split(
                pending.skip(i + 2),
                HeaderIndex {
                    content_length: note_line(index.content_length, pending.take(i)),
                    complete: false,
                },
                more,
            );
        }
    }
}

/// However the bytes of a response are split over the reads, the scanner
/// ends in the state in which one read of all the bytes leaves it.
pub proof fn lemma_feed_in_pieces(reads: Seq<Seq<u8>>)
    ensures
        feed_all(fresh(), reads) == feed(fresh(), joined(reads)),
    decreases reads.len(),
{
    let empty = Seq::<u8>::empty();
    if reads.len() == 0 {
        assert(empty + joined(reads) =~= empty);
        assert forall|i: int| !is_line_end(empty, i) by {
            assert(!crlf_at(empty, i));
        }
    } else {
        let before = reads.drop_last();
        lemma_feed_in_pieces(before);
        lemma_scan_split(empty + joined(before), fresh().1, reads.last());
        assert(empty + joined(before) + reads.last() =~= empty + joined(reads));
    }
}

/// A header block is scanned to its end: what follows it is left in the
/// buffer, and the declared length is the one that was written last.
pub proof fn lemma_scan_block(lines: Seq<Seq<u8>>, known: Option<usize>, rest: Seq<u8>)
    requires
        forall|k: int| 0 <= k < lines.len() ==> is_header_line(#[trigger] lines[k]),
    ensures
        scan(header_block(lines) + rest, HeaderIndex { content_length: known, complete: false })
            == (rest, HeaderIndex { content_length: last_written(known, lines), complete: true }),
    decreases lines.len(),
{
    let s = header_block(lines) + rest;
    if lines.len() == 0 {
        assert(crlf_at(s, 0));
        lemma_line_len(s, 0);
        assert(s.skip(2) =~= rest);
    } else {
        let line = lines.first();
        let tail = lines.drop_first();
        let i = line.len() as int;
        assert(is_header_line(line));
        assert(crlf_at(s, i));
        assert forall|j: int| 0 <= j < i implies !crlf_at(s, j) by {
            assert(!crlf_at(line, j));
        }
        lemma_line_len(s, i);
        assert(s.take(i) =~= line);
        assert(s.skip(i + 2) =~= header_block(tail) + rest);
        assert forall|k: int| 0 <= k < tail.len() implies is_header_line(#[trigger] tail[k]) by {
            assert(tail[k] == lines[k + 1]);
        }
        lemma_scan_block(tail, note_line(known, line), rest);
    }
}

/// The length that was written last is the one of the last
/// `content-length: ` line.
pub proof fn lemma_last_written(known: Option<usize>, lines: Seq<Seq<u8>>, k: int)
    requires
        0 <= k < lines.len(),
        is_length_line(lines[k]),
        forall|j: int| k < j < lines.len() ==> !is_length_line(#[trigger] lines[j]),
    ensures
        last_written(known, lines) == parse_decimal(
            lines[k].skip(length_prefix().len() as int),
        ),
    decreases lines.len(),
{
    let tail = lines.drop_first();
    if k == 0 {
        lemma_last_written_none(note_line(known, lines.first()), tail);
    } else {
        assert forall|j: int| k - 1 < j < tail.len() implies !is_length_line(
            #[trigger] tail[j],
        ) by {
            assert(tail[j] == lines[j + 1]);
        }
        lemma_last_written(note_line(known, lines.first()), tail, k - 1);
    }
}

/// Lines that are no `content-length: ` lines change nothing.
pub proof fn lemma_last_written_none(known: Option<usize>, lines: Seq<Seq<u8>>)
    requires
        forall|j: int| 0 <= j < lines.len() ==> !is_length_line(#[trigger] lines[j]),
    ensures
        last_written(known, lines) == known,
    decreases lines.len(),
{
    if lines.len() > 0 {
        let tail = lines.drop_first();
        assert forall|j: int| 0 <= j < tail.len() implies !is_length_line(#[trigger] tail[j]) by {
            assert(tail[j] == lines[j + 1]);
        }
        lemma_last_written_none(known, tail);
    }
}

/// The header round trip: a block of header lines, ended by the empty line
/// and followed by `rest`, arrives in the reads `reads`, split anywhere.
/// Then the scanner finds the headers complete, holds the length that the
/// block wrote last, and leaves `rest` in the buffer.
pub proof fn lemma_header_round_trip(lines: Seq<Seq<u8>>, rest: Seq<u8>, reads: Seq<Seq<u8>>)
    requires
        forall|k: int| 0 <= k < lines.len() ==> is_header_line(#[trigger] lines[k]),
        joined(reads) == header_block(lines) + rest,
    ensures
        feed_all(fresh(), reads) == (
            rest,
            HeaderIndex { content_length: last_written(None, lines), complete: true },
        ),
{
    lemma_feed_in_pieces(reads);
    lemma_scan_block(lines, None, rest);
    assert(Seq::<u8>::empty() + joined(reads) =~= joined(reads));
}

/// Where the end of the first line of `bytes` is, if it has a whole line.
pub fn find_line_end(bytes: &[u8]) -> (end: Option<usize>)
    ensures
        match end {
            Some(i) => is_line_end(bytes@, i as int) && i == line_len(bytes@),
            None => !has_line(bytes@),
        },
{
    let needle: [u8; 2] = [13, 10];
    let found = memmem_find(bytes, needle.as_slice());
    proof {
        let n = needle@;
        assert forall|j: int| occurs_at(bytes@, n, j) == crlf_at(bytes@, j) by {
            if crlf_at(bytes@, j) {
                assert(bytes@.subrange(j, j + 2) =~= n);
            }
            if occurs_at(bytes@, n, j) {
                assert(bytes@.subrange(j, j + 2)[0] == n[0]);
                assert(bytes@.subrange(j, j + 2)[1] == n[1]);
            }
        }
        match found {
            Some(i) => {
                lemma_line_len(bytes@, i as int);
            },
            None => {
                assert forall|i: int| !is_line_end(bytes@, i) by {
                    assert(!occurs_at(bytes@, n, i));
                }
            },
        }
    }
    found
}

/// The value of a prefix of a number's digits is no greater than the
/// number.
pub proof fn lemma_decimal_prefix(s: Seq<u8>, k: int)
    requires
        0 <= k <= s.len(),
    ensures
        decimal_value(s.take(k)) <= decimal_value(s),
    decreases s.len(),
{
    if k == s.len() {
        assert(s.take(k) =~= s);
    } else {
        lemma_decimal_prefix(s.drop_last(), k);
        assert(s.drop_last().take(k) =~= s.take(k));
    }
}

/// Reads the number that `bytes` writes.
pub fn parse_decimal_bytes(bytes: &[u8]) -> (value: Option<usize>)
    ensures
        value == parse_decimal(bytes@),
{
    let len: usize = bytes.len();
    let start: usize = if len > 0 && bytes[0] == 43 {
        1
    } else {
        0
    };
    let ghost digits = without_sign(bytes@);
    assert(digits =~= bytes@.skip(start as int));
    if start == len {
        return None;
    }
    let mut value: usize = 0;
    let mut i: usize = start;
    while i < len
        invariant
            start <= i <= len,
            len == bytes@.len(),
            digits == without_sign(bytes@),
            digits == bytes@.skip(start as int),
            all_digits(digits.take(i - start)),
            value == decimal_value(digits.take(i - start)),
        decreases len - i,
    {
        let b: u8 = bytes[i];
        let ghost next = digits.take(i - start + 1);
        assert(next.drop_last() =~= digits.take(i - start));
        assert(next.last() == b);
        if b < 48 || b > 57 {
            assert(!is_digit(digits[i - start]));
            return None;
        }
        proof {
            lemma_decimal_prefix(digits, i - start + 1);
            assert(decimal_value(next) == value * 10 + (b - 48));
        }
        let tens: usize = match value.checked_mul(10) {
            Some(tens) => tens,
            None => {
                return None;
            },
        };
        value = match tens.checked_add((b - 48) as usize) {
            Some(sum) => sum,
            None => {
                return None;
            },
        };
        i = i + 1;
    }
    assert(digits.take(len - start) =~= digits);
    Some(value)
}

/// The declared length after the header line `line` was read.
pub fn note_header_line(known: Option<usize>, line: &[u8]) -> (now: Option<usize>)
    ensures
        now == note_line(known, line@),
{
    let prefix: [u8; 16] = [
        99, 111, 110, 116, 101, 110, 116, 45,
        108, 101, 110, 103, 116, 104, 58, 32,
    ];
    assert(prefix@ =~= length_prefix());
    let len: usize = line.len();
    if len < 16 {
        return known;
    }
    let mut i: usize = 0;
    while i < 16
        invariant
            i <= 16 <= len,
            len == line@.len(),
            prefix@ == length_prefix(),
            forall|k: int| 0 <= k < i ==> line@[k] == length_prefix()[k],
        decreases 16 - i,
    {
        if line[i] != prefix[i] {
            assert(line@.take(16)[i as int] != length_prefix()[i as int]);
            return known;
        }
        i = i + 1;
    }
    assert(line@.take(16) =~= length_prefix());
    parse_decimal_bytes(vstd::slice::slice_subrange(line, 16, len))
}

impl HeaderIndex {
    /// Nothing is known yet.
    pub fn new() -> (index: HeaderIndex)
        ensures
            index == (HeaderIndex { content_length: None, complete: false }),
    {
        HeaderIndex { content_length: None, complete: false }
    }

    /// Takes the whole header lines off the front of `buf` and notes what
    /// they say, up to and with the empty line that ends the headers. What
    /// follows that line, and bytes that do not yet make a whole line, stay
    /// in `buf`.
    pub fn scan(&mut self, buf: &mut ReceiveBuffer)
        requires
            old(buf).wf(),
        ensures
            final(buf).wf(),
            (final(buf)@, *final(self)) == scan(old(buf)@, *old(self)),
            final(buf).spare() == old(buf).spare(),
    {
        while !self.complete
            invariant
                buf.wf(),
                buf.spare() == old(buf).spare(),
                scan(buf@, *self) == scan(old(buf)@, *old(self)),
            ensures
                self.complete || !has_line(buf@),
            decreases buf@.len(),
        {
            let held: usize = buf.len();
            let end = find_line_end(buf.as_slice());
            match end {
                None => {
                    break ;
                },
                Some(i) => {
                    assert(i + 2 <= held);
                    if i == 0 {
                        let _ = buf.consume_prefix(2);
                        self.complete = true;
                    } else {
                        let now = note_header_line(
                            self.content_length,
                            vstd::slice::slice_subrange(buf.as_slice(), 0, i),
                        );
                        self.content_length = now;
                        let _ = buf.consume_prefix(i + 2);
                    }
                },
            }
        }
    }
}

} // verus!
