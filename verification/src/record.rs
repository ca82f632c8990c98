//! The handshake record: a line-oriented byte text written once by the child
//! process and re-read by the parent until it is complete.
//!
//! A record is a sequence of lines separated by the newline byte. It is
//! *complete* exactly when its last line is the sentinel line `EOF`. Until
//! then any content read is a partial write and is ignored. Once complete,
//! the record resolves to the value of the first line of the form
//! `sock=<digits>`, parsed as a nonnegative integer; a complete record with
//! no `sock` line, or with an unparsable value, is malformed.

use vstd::prelude::*;

verus! {

/// The byte that separates lines: `\n`.
pub const LINE_SEP: u8 = 10;

/// The lines of a byte sequence, split at every newline byte. The split is
/// total: `n` newline bytes give `n + 1` lines, so an empty input gives one
/// empty line.
pub open spec fn raw_lines(s: Seq<u8>) -> Seq<Seq<u8>>
    decreases s.len(),
{
    if s.len() == 0 {
        seq![Seq::<u8>::empty()]
    } else if s.last() == LINE_SEP {
        raw_lines(s.drop_last()).push(Seq::<u8>::empty())
    } else {
        let prev = raw_lines(s.drop_last());
        prev.update(prev.len() - 1, prev.last().push(s.last()))
    }
}

/// Splitting is total, so every byte sequence has at least one line.
pub proof fn lemma_raw_lines_nonempty(s: Seq<u8>)
    ensures
        raw_lines(s).len() >= 1,
    decreases s.len(),
{
    if s.len() > 0 {
        lemma_raw_lines_nonempty(s.drop_last());
    }
}

/// The lines of a whole record. A trailing newline terminates the last line
/// rather than opening an empty one, and an empty record has no lines at all.
pub open spec fn record_lines(s: Seq<u8>) -> Seq<Seq<u8>> {
    if s.len() == 0 {
        Seq::<Seq<u8>>::empty()
    } else if s.last() == LINE_SEP {
        raw_lines(s.drop_last())
    } else {
        raw_lines(s)
    }
}

/// Whether a line is the sentinel line: exactly the three bytes `EOF`.
pub open spec fn is_sentinel(line: Seq<u8>) -> bool {
    &&& line.len() == 3
    &&& line[0] == 69  // 'E'
    &&& line[1] == 79  // 'O'
    &&& line[2] == 70  // 'F'
}

/// Whether the record is complete: it has at least one line and its last
/// line is the sentinel.
pub open spec fn record_complete(s: Seq<u8>) -> bool {
    let ls = record_lines(s);
    ls.len() > 0 && is_sentinel(ls.last())
}

/// Whether a line carries the port key: it starts with the five bytes
/// `sock=`. Since the key itself contains no `=`, this is exactly a
/// key/value split at the first `=` yielding the key `sock`.
pub open spec fn is_sock_line(line: Seq<u8>) -> bool {
    &&& line.len() >= 5
    &&& line[0] == 115  // 's'
    &&& line[1] == 111  // 'o'
    &&& line[2] == 99   // 'c'
    &&& line[3] == 107  // 'k'
    &&& line[4] == 61   // '='
}

/// The value carried by a `sock=` line: everything after the first `=`.
pub open spec fn sock_value_of(line: Seq<u8>) -> Option<Seq<u8>> {
    if is_sock_line(line) {
        Some(line.skip(5))
    } else {
        None
    }
}

/// The value of the first `sock=` line, scanning in order; `None` when no
/// line carries the key.
pub open spec fn first_sock(ls: Seq<Seq<u8>>) -> Option<Seq<u8>>
    decreases ls.len(),
{
    if ls.len() == 0 {
        None
    } else if is_sock_line(ls[0]) {
        sock_value_of(ls[0])
    } else {
        first_sock(ls.drop_first())
    }
}

/// Whether a byte is an ASCII decimal digit.
pub open spec fn is_digit(b: u8) -> bool {
    48 <= b && b <= 57
}

/// Whether every byte of the sequence is an ASCII decimal digit.
pub open spec fn all_digits(s: Seq<u8>) -> bool {
    forall|i: int| 0 <= i < s.len() ==> is_digit(s[i])
}

/// The numeric value of a sequence of decimal digit bytes, most significant
/// digit first.
pub open spec fn digits_val(s: Seq<u8>) -> nat
    decreases s.len(),
{
    if s.len() == 0 {
        0
    } else {
        10 * digits_val(s.drop_last()) + (s.last() - 48) as nat
    }
}

/// The port encoded by a value: defined exactly when the value is a nonempty
/// run of decimal digits whose numeric value fits in an `i32`. Anything else
/// (empty, a sign, a stray character, an overflowing number) is unparsable.
pub open spec fn parse_port_spec(s: Seq<u8>) -> Option<i32> {
    if s.len() > 0 && all_digits(s) && digits_val(s) <= i32::MAX as nat {
        Some(digits_val(s) as i32)
    } else {
        None
    }
}

/// The judgement a single read of the handshake file receives.
#[derive(Clone, Copy, Debug, PartialEq, Eq, Structural)]
pub enum ScanOutcome {
    /// The record is not yet complete: ignore the read and poll again.
    Incomplete,
    /// The record is complete and resolves to this port.
    Resolved(i32),
    /// The record is complete but no line carries the `sock` key.
    MissingKey,
    /// The record is complete but the first `sock` value is not a
    /// nonnegative integer that fits in an `i32`.
    BadValue,
}

/// The outcome of scanning a record: incomplete records are ignored; a
/// complete record resolves to its first `sock` value, or is malformed.
pub open spec fn scan_spec(s: Seq<u8>) -> ScanOutcome {
    if !record_complete(s) {
        ScanOutcome::Incomplete
    } else {
        match first_sock(record_lines(s)) {
            None => ScanOutcome::MissingKey,
            Some(v) => match parse_port_spec(v) {
                None => ScanOutcome::BadValue,
                Some(p) => ScanOutcome::Resolved(p),
            },
        }
    }
}

/// The scan for the port key is positional: if line `i` carries the key and
/// no earlier line does, line `i` is the one whose value counts.
pub proof fn lemma_first_sock_at(ls: Seq<Seq<u8>>, i: int)
    requires
        0 <= i < ls.len(),
        is_sock_line(ls[i]),
        forall|j: int| 0 <= j < i ==> !is_sock_line(ls[j]),
    ensures
        first_sock(ls) == sock_value_of(ls[i]),
    decreases i,
{
    if i > 0 {
        assert(!is_sock_line(ls[0]));
        assert forall|j: int| 0 <= j < i - 1 implies !is_sock_line(ls.drop_first()[j]) by {
            assert(ls.drop_first()[j] == ls[j + 1]);
        }
        lemma_first_sock_at(ls.drop_first(), i - 1);
        assert(ls.drop_first()[i - 1] == ls[i]);
    }
}

proof fn lemma_no_sock_line_none(ls: Seq<Seq<u8>>)
    requires
        forall|j: int| 0 <= j < ls.len() ==> !is_sock_line(ls[j]),
    ensures
        first_sock(ls) is None,
    decreases ls.len(),
{
    if ls.len() > 0 {
        assert forall|j: int| 0 <= j < ls.drop_first().len() implies !is_sock_line(
            ls.drop_first()[j],
        ) by {
            assert(ls.drop_first()[j] == ls[j + 1]);
        }
        lemma_no_sock_line_none(ls.drop_first());
    }
}

/// A complete record resolves to exactly the value of its first `sock`
/// line: wherever that line stands among the others, and whatever lines —
/// further `sock` lines included — come after it, the port returned is the
/// one it carries.
pub proof fn lemma_first_sock_resolves(s: Seq<u8>, i: int, p: i32)
    requires
        record_complete(s),
        0 <= i < record_lines(s).len(),
        is_sock_line(record_lines(s)[i]),
        forall|j: int| 0 <= j < i ==> !is_sock_line(record_lines(s)[j]),
        parse_port_spec(record_lines(s)[i].skip(5)) == Some(p),
    ensures
        scan_spec(s) == ScanOutcome::Resolved(p),
{
    lemma_first_sock_at(record_lines(s), i);
}

/// An incomplete record — one whose last line is not the sentinel — is
/// never resolved and never judged malformed: every read of it is ignored.
pub proof fn lemma_incomplete_is_ignored(s: Seq<u8>)
    requires
        !record_complete(s),
    ensures
        scan_spec(s) == ScanOutcome::Incomplete,
{
}

/// A record with a sentinel line that is not the last line — content was
/// appended after it — is still treated as incomplete.
pub proof fn lemma_sentinel_not_last_is_incomplete(s: Seq<u8>, i: int)
    requires
        0 <= i < record_lines(s).len() - 1,
        is_sentinel(record_lines(s)[i]),
        !is_sentinel(record_lines(s).last()),
    ensures
        scan_spec(s) == ScanOutcome::Incomplete,
{
}

/// A complete record with no `sock` line at all is a terminal protocol
/// violation by the child, not a record still being written.
pub proof fn lemma_missing_sock_is_fatal(s: Seq<u8>)
    requires
        record_complete(s),
        forall|j: int| 0 <= j < record_lines(s).len() ==> !is_sock_line(record_lines(s)[j]),
    ensures
        scan_spec(s) == ScanOutcome::MissingKey,
{
    lemma_no_sock_line_none(record_lines(s));
}

/// A resolved port is never negative: only a nonempty run of decimal
/// digits parses, so no sign and no failure placeholder can reach the
/// caller as a port.
pub proof fn lemma_resolved_port_nonnegative(s: Seq<u8>, p: i32)
    requires
        scan_spec(s) == ScanOutcome::Resolved(p),
    ensures
        p >= 0,
{
}

/// The value of a digit prefix never exceeds the value of the whole run.
pub proof fn lemma_digits_val_prefix_le(s: Seq<u8>, k: int)
    requires
        0 <= k <= s.len(),
    ensures
        digits_val(s.subrange(0, k)) <= digits_val(s),
    decreases s.len() - k,
{
    if k == s.len() {
        assert(s.subrange(0, k) =~= s);
    } else {
        lemma_digits_val_prefix_le(s, k + 1);
        assert(s.subrange(0, k + 1).drop_last() =~= s.subrange(0, k));
        assert(digits_val(s.subrange(0, k)) <= digits_val(s.subrange(0, k + 1)));
    }
}

/// Splits a record into its lines, as `record_lines` describes them.
fn split_lines(content: &[u8]) -> (r: Vec<Vec<u8>>)
    ensures
        r@.len() == record_lines(content@).len(),
        forall|j: int| 0 <= j < r@.len() ==> r@[j]@ == record_lines(content@)[j],
{
    let n = content.len();
    if n == 0 {
        let r: Vec<Vec<u8>> = Vec::new();
        return r;
    }
    let mut done: Vec<Vec<u8>> = Vec::new();
    let mut cur: Vec<u8> = Vec::new();
    let mut i: usize = 0;
    proof {
        assert(content@.subrange(0, 0) =~= Seq::<u8>::empty());
    }
    while i < n
        invariant
            n == content@.len(),
            0 < n,
            i <= n,
            raw_lines(content@.subrange(0, i as int)).len() == done@.len() + 1,
            forall|j: int|
                0 <= j < done@.len() ==> done@[j]@ == raw_lines(
                    content@.subrange(0, i as int),
                )[j],
            cur@ == raw_lines(content@.subrange(0, i as int)).last(),
        decreases n - i,
    {
        let ghost pre = content@.subrange(0, i as int);
        let ghost post = content@.subrange(0, i + 1 as int);
        proof {
            assert(post.drop_last() =~= pre);
            lemma_raw_lines_nonempty(pre);
        }
        let b = content[i];
        if b == LINE_SEP {
            done.push(cur);
            cur = Vec::new();
        } else {
            cur.push(b);
        }
        i = i + 1;
    }
    proof {
        assert(content@.subrange(0, n as int) =~= content@);
        lemma_raw_lines_nonempty(content@.drop_last());
    }
    if content[n - 1] == LINE_SEP {
        // The trailing newline terminated the last line: `cur` is the empty
        // line it would otherwise open, and `done` holds the record's lines.
        proof {
            assert(content@.last() == LINE_SEP);
            assert(raw_lines(content@) == raw_lines(content@.drop_last()).push(
                Seq::<u8>::empty(),
            ));
            assert(record_lines(content@) == raw_lines(content@.drop_last()));
            assert forall|j: int| 0 <= j < done@.len() implies done@[j]@ == record_lines(
                content@,
            )[j] by {
                assert(done@[j]@ == raw_lines(content@)[j]);
            }
        }
        done
    } else {
        proof {
            assert(content@.last() != LINE_SEP);
            assert(record_lines(content@) == raw_lines(content@));
        }
        let ghost old_done = done@;
        done.push(cur);
        proof {
            assert forall|j: int| 0 <= j < done@.len() implies done@[j]@ == record_lines(
                content@,
            )[j] by {
                if j < old_done.len() {
                    assert(done@[j] == old_done[j]);
                } else {
                    assert(done@[j]@ == raw_lines(content@).last());
                }
            }
        }
        done
    }
}

/// Whether a line is exactly the sentinel `EOF`.
fn is_sentinel_line(line: &Vec<u8>) -> (r: bool)
    ensures
        r == is_sentinel(line@),
{
    line.len() == 3 && line[0] == 69 && line[1] == 79 && line[2] == 70
}

/// The value of a `sock=` line, or `None` when the line carries no such key.
fn sock_value(line: &Vec<u8>) -> (r: Option<Vec<u8>>)
    ensures
        r is Some <==> sock_value_of(line@) is Some,
        r matches Some(v) ==> Some(v@) == sock_value_of(line@),
{
    if !(line.len() >= 5 && line[0] == 115 && line[1] == 111 && line[2] == 99 && line[3] == 107
        && line[4] == 61) {
        return None;
    }
    let mut v: Vec<u8> = Vec::new();
    let mut j: usize = 5;
    proof {
        assert(line@.subrange(5, 5) =~= Seq::<u8>::empty());
    }
    while j < line.len()
        invariant
            5 <= j <= line@.len(),
            is_sock_line(line@),
            v@ == line@.subrange(5, j as int),
        decreases line@.len() - j,
    {
        proof {
            assert(line@.subrange(5, j + 1 as int) =~= line@.subrange(5, j as int).push(
                line@[j as int],
            ));
        }
        v.push(line[j]);
        j = j + 1;
    }
    proof {
        assert(line@.subrange(5, line@.len() as int) =~= line@.skip(5));
    }
    Some(v)
}

/// Scans one full read of the handshake file and judges it, exactly as
/// `scan_spec` describes: an incomplete record is ignored, a complete one
/// resolves to its first `sock` value or is malformed.
pub fn scan_record(content: &[u8]) -> (r: ScanOutcome)
    ensures
        r == scan_spec(content@),
{
    let ls = split_lines(content);
    let n = ls.len();
    if n == 0 {
        return ScanOutcome::Incomplete;
    }
    if !is_sentinel_line(&ls[n - 1]) {
        return ScanOutcome::Incomplete;
    }
    let ghost lines = record_lines(content@);
    proof {
        assert(lines.skip(0) =~= lines);
        assert(lines.last() == lines[n - 1 as int]);
        assert(record_complete(content@));
    }
    let mut i: usize = 0;
    while i < n
        invariant
            n == ls@.len(),
            i <= n,
            lines == record_lines(content@),
            record_complete(content@),
            ls@.len() == lines.len(),
            forall|j: int| 0 <= j < ls@.len() ==> ls@[j]@ == lines[j],
            first_sock(lines.skip(i as int)) == first_sock(lines),
            forall|j: int| 0 <= j < i ==> !is_sock_line(lines[j]),
        decreases n - i,
    {
        proof {
            assert(lines.skip(i as int)[0] == lines[i as int]);
        }
        match sock_value(&ls[i]) {
            Some(v) => {
                proof {
                    assert(first_sock(lines) == sock_value_of(lines[i as int]));
                }
                match parse_port(v.as_slice()) {
                    Some(p) => {
                        return ScanOutcome::Resolved(p);
                    },
                    None => {
                        return ScanOutcome::BadValue;
                    },
                }
            },
            None => {
                proof {
                    assert(lines.skip(i as int).drop_first() =~= lines.skip(i + 1 as int));
                }
                i = i + 1;
            },
        }
    }
    proof {
        assert(lines.skip(n as int) =~= Seq::<Seq<u8>>::empty());
    }
    ScanOutcome::MissingKey
}

/// Parses a `sock` value as a nonnegative decimal port number.
pub fn parse_port(v: &[u8]) -> (r: Option<i32>)
    ensures
        r == parse_port_spec(v@),
{
    if v.len() == 0 {
        return None;
    }
    let mut acc: u64 = 0;
    let mut i: usize = 0;
    while i < v.len()
        invariant
            0 < v@.len(),
            i <= v@.len(),
            acc <= i32::MAX as u64,
            all_digits(v@.subrange(0, i as int)),
            acc == digits_val(v@.subrange(0, i as int)),
        decreases v@.len() - i,
    {
        let b = v[i];
        if b < 48 || 57 < b {
            assert(!is_digit(v@[i as int]));
            return None;
        }
        proof {
            assert(v@.subrange(0, i + 1 as int).drop_last() =~= v@.subrange(0, i as int));
        }
        acc = acc * 10 + ((b - 48) as u64);
        if acc > i32::MAX as u64 {
            proof {
                if parse_port_spec(v@) is Some {
                    lemma_digits_val_prefix_le(v@, i + 1 as int);
                }
            }
            return None;
        }
        i = i + 1;
    }
    proof {
        assert(v@.subrange(0, v@.len() as int) =~= v@);
    }
    Some(acc as i32)
}

} // verus!
