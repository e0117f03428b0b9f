//! The reverse line scan: the most recent lines of a byte stream, last first.
use vstd::prelude::*;
use vstd::utf8::{decode_utf8, valid_utf8};

verus! {

/// The line terminator.
pub const NEWLINE: u8 = 10;

/// Dropped from the end of a line when it stands just before the terminator.
pub const CARRIAGE_RETURN: u8 = 13;

/// The position just past the last newline among `s[0..end]`, or 0 where there is none.
pub open spec fn line_start(s: Seq<u8>, end: int) -> int
    decreases end,
{
    if end <= 0 {
        0
    } else if s[end - 1] == NEWLINE {
        end
    } else {
        line_start(s, end - 1)
    }
}

/// The lines of `s`, last first, each with its terminator still attached.
///
/// The final byte always belongs to the last line, whatever it is; the line reaches
/// back to just after the newline before it, or to the start of `s`.
pub open spec fn raw_lines_rev(s: Seq<u8>) -> Seq<Seq<u8>>
    decreases s.len(),
{
    if s.len() == 0 {
        seq![]
    } else {
        let start = line_start(s, s.len() - 1);
        let line = s.subrange(start, s.len() as int);
        if 0 <= start < s.len() {
            seq![line].add(raw_lines_rev(s.subrange(0, start)))
        } else {
            seq![line]
        }
    }
}

/// A line without its terminator: a final newline goes, and then a carriage return
/// that stood just before it.
pub open spec fn strip_terminator(l: Seq<u8>) -> Seq<u8> {
    if l.len() > 0 && l.last() == NEWLINE {
        let t = l.drop_last();
        if t.len() > 0 && t.last() == CARRIAGE_RETURN {
            t.drop_last()
        } else {
            t
        }
    } else {
        l
    }
}

/// How many lines a scan for at most `limit` lines of `s` yields.
pub open spec fn scan_count(s: Seq<u8>, limit: nat) -> nat {
    if limit < raw_lines_rev(s).len() {
        limit
    } else {
        raw_lines_rev(s).len()
    }
}

/// The scan for at most `limit` lines of `s` decodes every line that it yields.
pub open spec fn scan_decodes(s: Seq<u8>, limit: nat) -> bool {
    forall|i: int| 0 <= i < scan_count(s, limit) ==> valid_utf8(#[trigger] raw_lines_rev(s)[i])
}

/// The `i`-th most recent line of `s` as text.
pub open spec fn line_text(s: Seq<u8>, i: int) -> Seq<char> {
    decode_utf8(strip_terminator(raw_lines_rev(s)[i]))
}

/// `v` holds, in order, the text of the `scan_count(s, limit)` most recent lines of `s`.
pub open spec fn is_scan_of(v: Seq<String>, s: Seq<u8>, limit: nat) -> bool {
    &&& v.len() == scan_count(s, limit)
    &&& forall|i: int| 0 <= i < v.len() ==> (#[trigger] v[i])@ == line_text(s, i)
}

/// Why a scan failed.
#[derive(Debug, Clone, Copy, PartialEq, Eq, Structural)]
pub enum TailError {
    /// A line among those asked for is not valid UTF-8.
    InvalidText,
}

/// `std::io::Error`, carried opaque from the scanner to `lines_from_file`.
#[verifier::external_type_specification]
#[verifier::external_body]
pub struct ExIoError(std::io::Error);

/// Relies on `rev_buf_reader::RevBufReader::lines` over an in-memory cursor: it yields
/// every line of the stream from the last one back, each with a final `\n` (then `\r`)
/// removed. A line whose bytes, terminator included, are not UTF-8 comes as an error,
/// and the scan goes on with the line before it. Seeking and reading a cursor over a
/// slice never fail, so an error is always one of decoding.
#[verifier::external_body]
fn rev_lines(content: &[u8]) -> (r: Vec<Result<String, std::io::Error>>)
    ensures
        r@.len() == raw_lines_rev(content@).len(),
        forall|i: int|
            0 <= i < r@.len() ==> ((#[trigger] r@[i]) is Ok <==> valid_utf8(raw_lines_rev(content@)[i])),
        forall|i: int|
            0 <= i < r@.len() ==> (#[trigger] r@[i] matches Ok(t) ==> t@ == line_text(content@, i)),
{
    std::io::BufRead::lines(rev_buf_reader::RevBufReader::new(std::io::Cursor::new(content))).collect()
}

/// The `limit` most recent lines of `content`, last first, as text.
///
/// A shorter content yields fewer lines, and an empty one none. Where one of the lines
/// asked for is not valid UTF-8 the scan stops there and returns `InvalidText`; lines
/// beyond the limit are never looked at. Such a line is a fatal condition for the
/// watch loop: the caller ends the process on this error.
pub fn lines_from_file(content: &[u8], limit: usize) -> (r: Result<Vec<String>, TailError>)
    ensures
        r is Ok <==> scan_decodes(content@, limit as nat),
        r matches Ok(v) ==> is_scan_of(v@, content@, limit as nat),
        r matches Err(e) ==> e == TailError::InvalidText,
{
    let all = rev_lines(content);
    let n: usize = if limit < all.len() { limit } else { all.len() };
    let mut out: Vec<String> = Vec::new();
    let mut i: usize = 0;
    while i < n
        invariant
            n == scan_count(content@, limit as nat),
            n <= all@.len(),
            all@.len() == raw_lines_rev(content@).len(),
            forall|k: int|
                0 <= k < all@.len() ==> ((#[trigger] all@[k]) is Ok <==> valid_utf8(
                    raw_lines_rev(content@)[k],
                )),
            forall|k: int|
                0 <= k < all@.len() ==> (#[trigger] all@[k] matches Ok(t) ==> t@ == line_text(
                    content@,
                    k,
                )),
            i <= n,
            out@.len() == i,
            forall|k: int| 0 <= k < i ==> (#[trigger] out@[k])@ == line_text(content@, k),
            forall|k: int| 0 <= k < i ==> valid_utf8(#[trigger] raw_lines_rev(content@)[k]),
        decreases n - i,
    {
        match &all[i] {
            Ok(t) => {
                out.push(t.clone());
            },
            Err(_) => {
                assert(!valid_utf8(raw_lines_rev(content@)[i as int]));
                return Err(TailError::InvalidText);
            },
        }
        i = i + 1;
    }
    Ok(out)
}

/// The most recent line of `content`, as one change notification reports it: `None`
/// for empty content, and an error where that line is not valid UTF-8.
pub fn last_line(content: &[u8]) -> (r: Result<Option<String>, TailError>)
    ensures
        r is Err <==> content@.len() > 0 && !valid_utf8(raw_lines_rev(content@)[0]),
        r matches Ok(o) ==> (o is None <==> content@.len() == 0),
        r matches Ok(Some(l)) ==> l@ == line_text(content@, 0),
{
    proof {
        lemma_line_count(content@);
    }
    let mut lines = lines_from_file(content, 1)?;
    if lines.len() > 0 {
        Ok(Some(lines.remove(0)))
    } else {
        Ok(None)
    }
}

/// `line_start` lies between 0 and `end`, with no newline from there up to `end`,
/// and a newline just before it unless it is 0.
pub proof fn lemma_line_start(s: Seq<u8>, end: int)
    requires
        0 <= end <= s.len(),
    ensures
        0 <= line_start(s, end) <= end,
        forall|j: int| line_start(s, end) <= j < end ==> s[j] != NEWLINE,
        line_start(s, end) == 0 || s[line_start(s, end) - 1] == NEWLINE,
    decreases end,
{
    if end > 0 && s[end - 1] != NEWLINE {
        lemma_line_start(s, end - 1);
    }
}

/// Non-empty content has at least one line, and empty content none.
pub proof fn lemma_line_count(s: Seq<u8>)
    ensures
        raw_lines_rev(s).len() == 0 <==> s.len() == 0,
{
    if s.len() > 0 {
        lemma_line_start(s, s.len() - 1);
    }
}

/// Content that does not end in a newline: its most recent line is the run of bytes
/// after the last newline (all of it where there is none), reported as it stands,
/// and a scan for one line yields exactly that line.
pub proof fn lemma_unterminated_last_line(s: Seq<u8>)
    requires
        s.len() > 0,
        s.last() != NEWLINE,
    ensures
        scan_count(s, 1) == 1,
        strip_terminator(raw_lines_rev(s)[0]) == s.subrange(line_start(s, s.len() as int), s.len() as int),
        forall|j: int| line_start(s, s.len() as int) <= j < s.len() ==> s[j] != NEWLINE,
        line_start(s, s.len() as int) == 0 || s[line_start(s, s.len() as int) - 1] == NEWLINE,
{
    lemma_line_start(s, s.len() as int);
    lemma_line_start(s, s.len() - 1);
    lemma_line_count(s);
    let start = line_start(s, s.len() - 1);
    assert(line_start(s, s.len() as int) == start);
    let l = s.subrange(start, s.len() as int);
    assert(l.last() == s.last());
    assert(raw_lines_rev(s)[0] == l);
}

/// Empty content: a scan for any number of lines succeeds and yields none.
pub proof fn lemma_empty_content_scan(limit: nat)
    ensures
        scan_count(Seq::<u8>::empty(), limit) == 0,
        scan_decodes(Seq::<u8>::empty(), limit),
        forall|v: Seq<String>| is_scan_of(v, Seq::<u8>::empty(), limit) <==> v.len() == 0,
{
    assert(raw_lines_rev(Seq::<u8>::empty()) =~= Seq::<Seq<u8>>::empty());
}

/// `line_start` finds `k` where no newline stands in `s[k..end]` and `k` is the start
/// of `s` or follows a newline.
proof fn lemma_line_start_at(s: Seq<u8>, k: int, end: int)
    requires
        0 <= k <= end <= s.len(),
        k == 0 || s[k - 1] == NEWLINE,
        forall|j: int| k <= j < end ==> s[j] != NEWLINE,
    ensures
        line_start(s, end) == k,
    decreases end,
{
    if end > k {
        lemma_line_start_at(s, k, end - 1);
    }
}

/// A complete line: it ends in a newline and holds no other.
pub open spec fn is_complete_line(l: Seq<u8>) -> bool {
    &&& l.len() > 0
    &&& l.last() == NEWLINE
    &&& forall|j: int| 0 <= j < l.len() - 1 ==> l[j] != NEWLINE
}

/// Content that is empty or ends in a newline.
pub open spec fn ends_at_line_boundary(p: Seq<u8>) -> bool {
    p.len() == 0 || p.last() == NEWLINE
}

/// Appending a complete line to content that ends at a line boundary puts that line
/// in front of the lines, last first, and leaves the earlier lines as they were.
pub proof fn lemma_append_line(p: Seq<u8>, l: Seq<u8>)
    requires
        ends_at_line_boundary(p),
        is_complete_line(l),
    ensures
        raw_lines_rev(p + l) == seq![l] + raw_lines_rev(p),
        ends_at_line_boundary(p + l),
{
    let s = p + l;
    let k = p.len() as int;
    assert forall|j: int| k <= j < s.len() - 1 implies s[j] != NEWLINE by {
        assert(s[j] == l[j - k]);
    }
    lemma_line_start_at(s, k, s.len() - 1);
    assert(s.subrange(k, s.len() as int) =~= l);
    assert(s.subrange(0, k) =~= p);
    assert(raw_lines_rev(s) =~= seq![l] + raw_lines_rev(p));
}

/// Two complete lines appended before one read: the read sees the second as the most
/// recent line and the first just before it, never an older line.
pub proof fn lemma_coalesced_appends(p: Seq<u8>, l1: Seq<u8>, l2: Seq<u8>)
    requires
        ends_at_line_boundary(p),
        is_complete_line(l1),
        is_complete_line(l2),
    ensures
        raw_lines_rev(p + l1 + l2)[0] == l2,
        raw_lines_rev(p + l1 + l2)[1] == l1,
        line_text(p + l1 + l2, 0) == decode_utf8(strip_terminator(l2)),
{
    lemma_append_line(p, l1);
    lemma_append_line(p + l1, l2);
}

} // verus!
