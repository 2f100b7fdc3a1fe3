//! Line-by-line reading of a raw message and the header transform that
//! prepends a trace header and fills in missing `Date:` and `From:` lines.
use vstd::prelude::*;
use vstd::string::*;
use vstd::utf8::{encode_scalar, encode_utf8, is_ascii_chars, is_ascii_chars_encode_utf8};

verus! {

/// The newline byte.
pub open spec fn nl() -> u8 {
    10u8
}

/// Index just past the line that starts at `i`: past the first newline at or
/// after `i`, or the end of `s` when there is none.
pub open spec fn line_end(s: Seq<u8>, i: int) -> int
    decreases s.len() - i,
{
    if i < 0 || i >= s.len() {
        s.len() as int
    } else if s[i] == nl() {
        i + 1
    } else {
        line_end(s, i + 1)
    }
}

pub proof fn lemma_line_end_bounds(s: Seq<u8>, i: int)
    requires
        0 <= i < s.len(),
    ensures
        i < line_end(s, i) <= s.len(),
        forall|k: int| i <= k < line_end(s, i) - 1 ==> #[trigger] s[k] != nl(),
    decreases s.len() - i,
{
    if s[i] != nl() {
        if i + 1 < s.len() {
            lemma_line_end_bounds(s, i + 1);
        } else {
            assert(line_end(s, i + 1) == s.len());
        }
    }
}

/// The line that starts at `i`, its newline included.
pub open spec fn line_at(s: Seq<u8>, i: int) -> Seq<u8> {
    s.subrange(i, line_end(s, i))
}

/// A line made only of a line terminator: it ends the header block.
pub open spec fn is_blank(l: Seq<u8>) -> bool {
    l == seq![nl()] || l == seq![13u8, nl()]
}

pub open spec fn starts_with(l: Seq<u8>, p: Seq<u8>) -> bool {
    p.len() <= l.len() && l.subrange(0, p.len() as int) == p
}

/// `From: `, the originator-header prefix.
pub open spec fn from_prefix() -> Seq<u8> {
    seq![70u8, 114u8, 111u8, 109u8, 58u8, 32u8]
}

/// `Date: `, the date-header prefix.
pub open spec fn date_prefix() -> Seq<u8> {
    seq![68u8, 97u8, 116u8, 101u8, 58u8, 32u8]
}

#[via_fn]
proof fn header_lines_decreases(s: Seq<u8>, i: int) {
    if 0 <= i < s.len() {
        lemma_line_end_bounds(s, i);
    }
}

#[via_fn]
proof fn body_start_decreases(s: Seq<u8>, i: int) {
    if 0 <= i < s.len() {
        lemma_line_end_bounds(s, i);
    }
}

/// The header lines of `s` from position `i` on: every line up to the first
/// blank line or the end of input, the blank line excluded.
pub open spec fn header_lines_from(s: Seq<u8>, i: int) -> Seq<Seq<u8>>
    decreases s.len() - i via header_lines_decreases
{
    if i < 0 || i >= s.len() {
        seq![]
    } else if is_blank(line_at(s, i)) {
        seq![]
    } else {
        seq![line_at(s, i)] + header_lines_from(s, line_end(s, i))
    }
}

/// Where the body starts, scanning header lines from position `i`: just past
/// the first blank line, or the end of input.
pub open spec fn body_start_from(s: Seq<u8>, i: int) -> int
    decreases s.len() - i via body_start_decreases
{
    if i < 0 || i >= s.len() {
        s.len() as int
    } else if is_blank(line_at(s, i)) {
        line_end(s, i)
    } else {
        body_start_from(s, line_end(s, i))
    }
}

/// The header lines of a whole message.
pub open spec fn header_lines(s: Seq<u8>) -> Seq<Seq<u8>> {
    header_lines_from(s, 0)
}

/// The body of a whole message: what follows the first blank line.
pub open spec fn body_of(s: Seq<u8>) -> Seq<u8> {
    s.subrange(body_start_from(s, 0), s.len() as int)
}

/// The lines laid end to end.
pub open spec fn concat_lines(lines: Seq<Seq<u8>>) -> Seq<u8>
    decreases lines.len(),
{
    if lines.len() == 0 {
        seq![]
    } else {
        concat_lines(lines.drop_last()) + lines.last()
    }
}

/// Some line begins with `p`.
pub open spec fn has_line_with_prefix(lines: Seq<Seq<u8>>, p: Seq<u8>) -> bool {
    exists|k: int| 0 <= k < lines.len() && starts_with(#[trigger] lines[k], p)
}

/// Which of the two inspected headers a message's header block holds.
#[derive(Debug, PartialEq, Eq, Structural)]
pub struct HeaderStatus {
    pub has_from: bool,
    pub has_date: bool,
}

/// The status that the header lines of `s` from position `i` on give.
pub open spec fn header_status_at(s: Seq<u8>, i: int) -> HeaderStatus {
    HeaderStatus {
        has_from: has_line_with_prefix(header_lines_from(s, i), from_prefix()),
        has_date: has_line_with_prefix(header_lines_from(s, i), date_prefix()),
    }
}

/// The status that the header lines of a whole message give.
pub open spec fn header_status_of(s: Seq<u8>) -> HeaderStatus {
    header_status_at(s, 0)
}

/// A raw message being read line by line.
pub struct MessageInput {
    bytes: Vec<u8>,
    pos: usize,
}

impl MessageInput {
    /// All bytes of the message, read or not.
    pub closed spec fn bytes(&self) -> Seq<u8> {
        self.bytes@
    }

    /// How many bytes have been read.
    pub closed spec fn pos(&self) -> int {
        self.pos as int
    }

    pub open spec fn wf(&self) -> bool {
        0 <= self.pos() <= self.bytes().len()
    }

    /// What is left to read.
    pub open spec fn rest(&self) -> Seq<u8> {
        self.bytes().subrange(self.pos(), self.bytes().len() as int)
    }

    pub fn new(bytes: Vec<u8>) -> (r: MessageInput)
        ensures
            r.wf(),
            r.bytes() == bytes@,
            r.pos() == 0,
    {
        MessageInput { bytes, pos: 0 }
    }

    /// Appends the next line (up to and including a newline, or to the end of
    /// input) to `buf`, and returns its length: 0 only at the end of input.
    pub fn read_line(&mut self, buf: &mut Vec<u8>) -> (n: usize)
        requires
            old(self).wf(),
        ensures
            final(self).wf(),
            final(self).bytes() == old(self).bytes(),
            final(self).pos() == line_end(old(self).bytes(), old(self).pos()),
            n == final(self).pos() - old(self).pos(),
            final(buf)@ == old(buf)@ + line_at(old(self).bytes(), old(self).pos()),
    {
        let ghost s = self.bytes@;
        let start = self.pos;
        let len = self.bytes.len();
        let mut j: usize = start;
        while j < len
            invariant_except_break
                line_end(s, start as int) == line_end(s, j as int),
            invariant
                self.bytes@ == s,
                self.pos == start,
                len == s.len(),
                start <= j <= len,
                buf@ == old(buf)@ + s.subrange(start as int, j as int),
            ensures
                j == line_end(s, start as int),
            decreases len - j,
        {
            let b = self.bytes[j];
            buf.push(b);
            j = j + 1;
            proof {
                assert(s.subrange(start as int, j as int) =~= s.subrange(start as int, j - 1) + seq![b]);
            }
            if b == 10u8 {
                break;
            }
        }
        self.pos = j;
        j - start
    }
}

fn prefix_matches(buf: &Vec<u8>, p: &Vec<u8>) -> (r: bool)
    ensures
        r == starts_with(buf@, p@),
{
    if p.len() > buf.len() {
        return false;
    }
    let mut i: usize = 0;
    while i < p.len()
        invariant
            p@.len() <= buf@.len(),
            i <= p@.len(),
            buf@.subrange(0, i as int) == p@.subrange(0, i as int),
        decreases p@.len() - i,
    {
        if buf[i] != p[i] {
            assert(buf@.subrange(0, p@.len() as int)[i as int] != p@[i as int]);
            return false;
        }
        assert(buf@.subrange(0, i + 1) =~= buf@.subrange(0, i as int).push(buf@[i as int]));
        assert(p@.subrange(0, i + 1) =~= p@.subrange(0, i as int).push(p@[i as int]));
        i = i + 1;
    }
    assert(p@.subrange(0, p@.len() as int) =~= p@);
    true
}

fn is_blank_line(buf: &Vec<u8>) -> (r: bool)
    ensures
        r == is_blank(buf@),
{
    let r = (buf.len() == 1 && buf[0] == 10u8) || (buf.len() == 2 && buf[0] == 13u8 && buf[1]
        == 10u8);
    proof {
        if buf@.len() == 1 && buf@[0] == 10u8 {
            assert(buf@ =~= seq![nl()]);
        }
        if buf@.len() == 2 && buf@[0] == 13u8 && buf@[1] == 10u8 {
            assert(buf@ =~= seq![13u8, nl()]);
        }
    }
    r
}

fn append_bytes(out: &mut Vec<u8>, b: &[u8])
    ensures
        final(out)@ == old(out)@ + b@,
{
    let mut i: usize = 0;
    while i < b.len()
        invariant
            i <= b@.len(),
            out@ == old(out)@ + b@.subrange(0, i as int),
        decreases b@.len() - i,
    {
        out.push(b[i]);
        assert(b@.subrange(0, i + 1) =~= b@.subrange(0, i as int).push(b@[i as int]));
        i = i + 1;
    }
    assert(b@.subrange(0, b@.len() as int) =~= b@);
}

proof fn lemma_concat_push(lines: Seq<Seq<u8>>, l: Seq<u8>)
    ensures
        concat_lines(lines.push(l)) == concat_lines(lines) + l,
{
    assert(lines.push(l).drop_last() =~= lines);
}

proof fn lemma_has_prefix_push(lines: Seq<Seq<u8>>, l: Seq<u8>, p: Seq<u8>)
    ensures
        has_line_with_prefix(lines.push(l), p) == (has_line_with_prefix(lines, p) || starts_with(l, p)),
{
    let ls = lines.push(l);
    if has_line_with_prefix(lines, p) {
        let k = choose|k: int| 0 <= k < lines.len() && starts_with(#[trigger] lines[k], p);
        assert(ls[k] == lines[k]);
    }
    if starts_with(l, p) {
        assert(ls[lines.len() as int] == l);
    }
    if has_line_with_prefix(ls, p) {
        let k = choose|k: int| 0 <= k < ls.len() && starts_with(#[trigger] ls[k], p);
        if k < lines.len() {
            assert(ls[k] == lines[k]);
        }
    }
}

/// Copies the header lines of the message to `output`, all but the blank
/// line that ends them, and reports whether a `From: ` and a `Date: ` line
/// were among them. Afterwards `input` stands at the start of the body.
pub fn process_existing_headers(input: &mut MessageInput, output: &mut Vec<u8>) -> (r:
    HeaderStatus)
    requires
        old(input).wf(),
    ensures
        final(input).wf(),
        final(input).bytes() == old(input).bytes(),
        final(input).pos() == body_start_from(old(input).bytes(), old(input).pos()),
        final(output)@ == old(output)@ + concat_lines(
            header_lines_from(old(input).bytes(), old(input).pos()),
        ),
        r == header_status_at(old(input).bytes(), old(input).pos()),
{
    let ghost s = input.bytes();
    let ghost start_pos = input.pos();
    let from_p: Vec<u8> = vec![70u8, 114u8, 111u8, 109u8, 58u8, 32u8];
    let date_p: Vec<u8> = vec![68u8, 97u8, 116u8, 101u8, 58u8, 32u8];
    assert(from_p@ =~= from_prefix());
    assert(date_p@ =~= date_prefix());
    let mut status = HeaderStatus { has_from: false, has_date: false };
    let mut buffer: Vec<u8> = Vec::new();
    let ghost mut seen: Seq<Seq<u8>> = seq![];
    loop
        invariant_except_break
            buffer@.len() == 0,
            header_lines_from(s, start_pos) == seen + header_lines_from(s, input.pos()),
            body_start_from(s, start_pos) == body_start_from(s, input.pos()),
        invariant
            input.wf(),
            input.bytes() == s,
            from_p@ == from_prefix(),
            date_p@ == date_prefix(),
            output@ == old(output)@ + concat_lines(seen),
            status.has_from == has_line_with_prefix(seen, from_prefix()),
            status.has_date == has_line_with_prefix(seen, date_prefix()),
        ensures
            header_lines_from(s, start_pos) == seen,
            body_start_from(s, start_pos) == input.pos(),
        decreases s.len() - input.pos(),
    {
        let ghost at = input.pos();
        let bytes_read = input.read_line(&mut buffer);
        assert(buffer@ =~= line_at(s, at));
        proof {
            if at < s.len() {
                lemma_line_end_bounds(s, at);
            }
        }
        let blank = is_blank_line(&buffer);
        if bytes_read == 0 || blank {
            proof {
                assert(header_lines_from(s, at) =~= seq![]);
                assert(seen + seq![] =~= seen);
            }
            break;
        }
        if prefix_matches(&buffer, &from_p) {
            status.has_from = true;
        } else if prefix_matches(&buffer, &date_p) {
            status.has_date = true;
        }
        append_bytes(output, buffer.as_slice());
        proof {
            lemma_concat_push(seen, buffer@);
            lemma_has_prefix_push(seen, buffer@, from_prefix());
            lemma_has_prefix_push(seen, buffer@, date_prefix());
            assert(seen + header_lines_from(s, at) =~= seen.push(buffer@) + header_lines_from(s, input.pos()));
            seen = seen.push(buffer@);
        }
        buffer.clear();
    }
    status
}

/// Copies the rest of the message, line by line and unchanged, to `output`.
pub fn write_body(input: &mut MessageInput, output: &mut Vec<u8>)
    requires
        old(input).wf(),
    ensures
        final(input).wf(),
        final(input).bytes() == old(input).bytes(),
        final(input).pos() == old(input).bytes().len(),
        final(output)@ == old(output)@ + old(input).rest(),
{
    let ghost s = input.bytes();
    let ghost start = input.pos();
    let mut buffer: Vec<u8> = Vec::new();
    loop
        invariant
            input.wf(),
            input.bytes() == s,
            0 <= start <= input.pos(),
            buffer@.len() == 0,
            output@ == old(output)@ + s.subrange(start, input.pos()),
        ensures
            input.pos() == s.len(),
        decreases s.len() - input.pos(),
    {
        let ghost at = input.pos();
        let bytes_read = input.read_line(&mut buffer);
        proof {
            if at < s.len() {
                lemma_line_end_bounds(s, at);
            }
        }
        if bytes_read == 0 {
            break;
        }
        append_bytes(output, buffer.as_slice());
        assert(s.subrange(start, at) + s.subrange(at, input.pos()) =~= s.subrange(start, input.pos()));
        buffer.clear();
    }
}

/// Earliest accepted instant, in seconds since the epoch: the second day of
/// year 1.
pub const MIN_RECEIVED_SECS: i64 = -62_135_510_400;

/// Latest accepted instant, in seconds since the epoch: the day before the
/// last day of year 9999.
pub const MAX_RECEIVED_SECS: i64 = 253_402_214_399;

/// Largest accepted distance of a time zone from UTC, in seconds.
pub const MAX_OFFSET_SECS: i32 = 86_399;

/// The instant at which a message was received, with the local time zone's
/// offset from UTC. Any such value can be written in RFC 2822 form.
#[derive(Debug, Clone, Copy)]
pub struct ReceivedTime {
    secs: i64,
    offset_secs: i32,
}

impl ReceivedTime {
    /// Seconds since the Unix epoch.
    pub closed spec fn secs(&self) -> int {
        self.secs as int
    }

    /// Seconds east of UTC.
    pub closed spec fn offset_secs(&self) -> int {
        self.offset_secs as int
    }

    pub closed spec fn wf(&self) -> bool {
        MIN_RECEIVED_SECS <= self.secs <= MAX_RECEIVED_SECS && -MAX_OFFSET_SECS <= self.offset_secs
            <= MAX_OFFSET_SECS
    }

    /// The instant `secs` (since the epoch) seen from a zone `offset_secs`
    /// east of UTC; `None` when either is out of the accepted range.
    pub fn new(secs: i64, offset_secs: i32) -> (r: Option<ReceivedTime>)
        ensures
            r is Some <==> (MIN_RECEIVED_SECS <= secs <= MAX_RECEIVED_SECS && -MAX_OFFSET_SECS
                <= offset_secs <= MAX_OFFSET_SECS),
            r matches Some(t) ==> t.wf() && t.secs() == secs && t.offset_secs() == offset_secs,
    {
        if MIN_RECEIVED_SECS <= secs && secs <= MAX_RECEIVED_SECS && -MAX_OFFSET_SECS <= offset_secs
            && offset_secs <= MAX_OFFSET_SECS {
            Some(ReceivedTime { secs, offset_secs })
        } else {
            None
        }
    }

    /// The RFC 2822 form of this instant, as in `Tue, 1 Jul 2003 10:52:37 +0200`.
    pub fn to_rfc2822(&self) -> (r: String)
        requires
            self.wf(),
        ensures
            r@ == rfc2822_of(self.secs(), self.offset_secs()),
    {
        rfc2822_text(self.secs, self.offset_secs)
    }
}

/// The RFC 2822 rendering of the instant `secs` seen `offset_secs` east of UTC.
pub uninterp spec fn rfc2822_of(secs: int, offset_secs: int) -> Seq<char>;

/// Relies on chrono's `DateTime::from_timestamp`, `FixedOffset::east_opt`,
/// `DateTime::with_timezone` and `DateTime::to_rfc2822`: the text depends on
/// the instant and the offset alone. Within the accepted ranges the first two
/// return `Some`, and the local year lies in 1..=9999, so `to_rfc2822` does
/// not panic.
#[verifier::external_body]
fn rfc2822_text(secs: i64, offset_secs: i32) -> (r: String)
    requires
        MIN_RECEIVED_SECS <= secs <= MAX_RECEIVED_SECS,
        -MAX_OFFSET_SECS <= offset_secs <= MAX_OFFSET_SECS,
    ensures
        r@ == rfc2822_of(secs as int, offset_secs as int),
{
    let offset = chrono::FixedOffset::east_opt(offset_secs).unwrap();
    let utc = chrono::DateTime::from_timestamp(secs, 0).unwrap();
    utc.with_timezone(&offset).to_rfc2822()
}

/// The text of the trace header for one delivery, newline included.
pub open spec fn received_text(to: Seq<char>, from: Seq<char>, date: Seq<char>) -> Seq<char> {
    "Received: for "@ + to + " with local (rattomail) (envelope-from "@ + from + "); "@ + date
        + "\n"@
}

/// Makes the `Received:` trace header for a recipient, a sender and the time
/// of receipt.
pub fn make_received_header(to_addr: &str, from_addr: &str, time: &ReceivedTime) -> (r: String)
    requires
        time.wf(),
    ensures
        r@ == received_text(to_addr@, from_addr@, rfc2822_of(time.secs(), time.offset_secs())),
{
    let date = time.to_rfc2822();
    let mut r = String::from_str("Received: for ");
    r.append(to_addr);
    r.append(" with local (rattomail) (envelope-from ");
    r.append(from_addr);
    r.append("); ");
    r.append(date.as_str());
    r.append("\n");
    r
}

/// The synthesized `Date:` line.
pub open spec fn date_line(date: Seq<char>) -> Seq<u8> {
    date_prefix() + encode_utf8(date) + seq![nl()]
}

/// The synthesized `From:` line.
pub open spec fn from_line(from: Seq<char>) -> Seq<u8> {
    from_prefix() + encode_utf8(from) + seq![nl()]
}

/// `b` followed by a newline where it is not empty and does not already end
/// in one.
pub open spec fn terminated(b: Seq<u8>) -> Seq<u8> {
    if b.len() > 0 && b.last() != nl() {
        b.push(nl())
    } else {
        b
    }
}

/// The header block that is written for the message that starts at
/// position `i` of `s`: the trace header, the message's header lines (a
/// newline added where the last of them ends the input without one), a
/// `Date:` and a `From:` line where it had none, and one blank line.
pub open spec fn header_block_at(s: Seq<u8>, i: int, to: Seq<char>, from: Seq<char>, date: Seq<char>) -> Seq<u8> {
    encode_utf8(received_text(to, from, date)) + terminated(concat_lines(header_lines_from(s, i))) + (if header_status_at(
        s,
        i,
    ).has_date {
        seq![]
    } else {
        date_line(date)
    }) + (if header_status_at(s, i).has_from {
        seq![]
    } else {
        from_line(from)
    }) + seq![nl()]
}

/// The header block that is written for a whole message `s`.
pub open spec fn header_block(s: Seq<u8>, to: Seq<char>, from: Seq<char>, date: Seq<char>) -> Seq<u8> {
    header_block_at(s, 0, to, from, date)
}

/// The delivered form of the message that starts at position `i` of `s`:
/// its header block, then its body unchanged.
pub open spec fn delivered_at(s: Seq<u8>, i: int, to: Seq<char>, from: Seq<char>, date: Seq<char>) -> Seq<u8> {
    header_block_at(s, i, to, from, date) + s.subrange(body_start_from(s, i), s.len() as int)
}

/// The delivered form of a whole message `s`.
pub open spec fn delivered(s: Seq<u8>, to: Seq<char>, from: Seq<char>, date: Seq<char>) -> Seq<u8> {
    header_block(s, to, from, date) + body_of(s)
}

/// Copies the header lines as `process_existing_headers` does, then adds a
/// newline where the last of them ended the input without one.
fn copy_header_lines(input: &mut MessageInput, output: &mut Vec<u8>) -> (r: HeaderStatus)
    requires
        old(input).wf(),
    ensures
        final(input).wf(),
        final(input).bytes() == old(input).bytes(),
        final(input).pos() == body_start_from(old(input).bytes(), old(input).pos()),
        final(output)@ == old(output)@ + terminated(
            concat_lines(header_lines_from(old(input).bytes(), old(input).pos())),
        ),
        r == header_status_at(old(input).bytes(), old(input).pos()),
{
    let ghost s = input.bytes();
    let ghost start_pos = input.pos();
    let ghost o1 = output@;
    let o1_len = output.len();
    let res = process_existing_headers(input, output);
    let copied_len = output.len();
    let ghost c = concat_lines(header_lines_from(s, start_pos));
    assert(output@ == o1 + c);
    if copied_len > o1_len && output[copied_len - 1] != 10u8 {
        assert((o1 + c)[copied_len - 1] == c.last());
        output.push(10u8);
        assert(output@ =~= o1 + c.push(nl()));
    } else {
        proof {
            if c.len() > 0 {
                assert((o1 + c)[copied_len - 1] == c.last());
            }
        }
    }
    res
}

/// Writes the header block: a `Received:` header, the message's own header
/// lines, `Date:` and `From:` where they were missing, and the blank line
/// that ends the headers. Afterwards `input` stands at the start of the body.
pub fn write_headers(
    input: &mut MessageInput,
    output: &mut Vec<u8>,
    to_addr: &str,
    from_addr: &str,
    received_time: &ReceivedTime,
)
    requires
        old(input).wf(),
        received_time.wf(),
    ensures
        final(input).wf(),
        final(input).bytes() == old(input).bytes(),
        final(input).pos() == body_start_from(old(input).bytes(), old(input).pos()),
        final(output)@ == old(output)@ + header_block_at(
            old(input).bytes(),
            old(input).pos(),
            to_addr@,
            from_addr@,
            rfc2822_of(received_time.secs(), received_time.offset_secs()),
        ),
{
    let ghost s = input.bytes();
    let ghost start_pos = input.pos();
    let ghost o0 = output@;
    let received = make_received_header(to_addr, from_addr, received_time);
    append_bytes(output, received.as_str().as_bytes());
    let ghost o1 = output@;
    let res = copy_header_lines(input, output);
    let ghost o2 = output@;
    let date = received_time.to_rfc2822();
    if !res.has_date {
        let date_p: Vec<u8> = vec![68u8, 97u8, 116u8, 101u8, 58u8, 32u8];
        append_bytes(output, date_p.as_slice());
        append_bytes(output, date.as_str().as_bytes());
        output.push(10u8);
        assert(output@ =~= o2 + date_line(date@));
    }
    let ghost o3 = output@;
    if !res.has_from {
        let from_p: Vec<u8> = vec![70u8, 114u8, 111u8, 109u8, 58u8, 32u8];
        append_bytes(output, from_p.as_slice());
        append_bytes(output, from_addr.as_bytes());
        output.push(10u8);
        assert(output@ =~= o3 + from_line(from_addr@));
    }
    let ghost o4 = output@;
    output.push(10u8);
    proof {
        let blk = header_block_at(s, start_pos, to_addr@, from_addr@, date@);
        assert(o3 == o2 + (if res.has_date { seq![] } else { date_line(date@) }));
        assert(o4 == o3 + (if res.has_from { seq![] } else { from_line(from_addr@) }));
        assert(output@ =~= o0 + blk);
    }
}

/// Writes the delivered form of the message: the header block of
/// `write_headers`, then the body, unchanged.
pub fn write_message(
    input: &mut MessageInput,
    output: &mut Vec<u8>,
    to_addr: &str,
    from_addr: &str,
    received_time: &ReceivedTime,
)
    requires
        old(input).wf(),
        received_time.wf(),
    ensures
        final(input).wf(),
        final(input).bytes() == old(input).bytes(),
        final(input).pos() == old(input).bytes().len(),
        final(output)@ == old(output)@ + delivered_at(
            old(input).bytes(),
            old(input).pos(),
            to_addr@,
            from_addr@,
            rfc2822_of(received_time.secs(), received_time.offset_secs()),
        ),
{
    let ghost o0 = output@;
    let ghost start_pos = input.pos();
    write_headers(input, output, to_addr, from_addr, received_time);
    write_body(input, output);
    let ghost s = input.bytes();
    let ghost date = rfc2822_of(received_time.secs(), received_time.offset_secs());
    assert(output@ =~= o0 + delivered_at(s, start_pos, to_addr@, from_addr@, date));
}

/// The bytes of `Received: `, the trace-header prefix.
pub open spec fn trace_prefix() -> Seq<u8> {
    encode_utf8("Received: "@)
}

/// The header lines as they are written: unchanged, but for a newline added
/// to the last one where it ended the input without one.
pub open spec fn written_lines(hs: Seq<Seq<u8>>) -> Seq<Seq<u8>> {
    if hs.len() == 0 {
        hs
    } else {
        hs.update(hs.len() - 1, terminated(hs.last()))
    }
}

proof fn lemma_header_lines_nonempty(s: Seq<u8>, i: int)
    requires
        0 <= i <= s.len(),
    ensures
        forall|j: int|
            0 <= j < header_lines_from(s, i).len() ==> (#[trigger] header_lines_from(s, i)[j]).len() > 0,
    decreases s.len() - i,
{
    if i < s.len() {
        lemma_line_end_bounds(s, i);
        if !is_blank(line_at(s, i)) {
            let e = line_end(s, i);
            lemma_header_lines_nonempty(s, e);
            let hs = header_lines_from(s, i);
            let rest = header_lines_from(s, e);
            assert forall|j: int| 0 <= j < hs.len() implies (#[trigger] hs[j]).len() > 0 by {
                if j > 0 {
                    assert(hs[j] == rest[j - 1]);
                }
            }
        }
    }
}

proof fn lemma_concat_written(hs: Seq<Seq<u8>>)
    requires
        hs.len() > 0 ==> hs.last().len() > 0,
    ensures
        concat_lines(written_lines(hs)) == terminated(concat_lines(hs)),
{
    if hs.len() > 0 {
        let w = written_lines(hs);
        assert(w.drop_last() =~= hs.drop_last());
        assert(w.last() == terminated(hs.last()));
        let c = concat_lines(hs);
        assert(c.last() == hs.last().last());
        if hs.last().last() != nl() {
            assert(concat_lines(w) =~= c.push(nl()));
        }
    } else {
        assert(concat_lines(hs) == Seq::<u8>::empty());
    }
}

/// With a prefix that holds no newline, adding a newline to a line does not
/// change whether the line starts with it.
proof fn lemma_terminated_prefix(l: Seq<u8>, p: Seq<u8>)
    requires
        forall|k: int| 0 <= k < p.len() ==> p[k] != nl(),
    ensures
        starts_with(terminated(l), p) == starts_with(l, p),
{
    if l.len() > 0 && l.last() != nl() {
        let t = l.push(nl());
        if p.len() <= l.len() {
            assert(t.subrange(0, p.len() as int) =~= l.subrange(0, p.len() as int));
        } else if p.len() == t.len() {
            if starts_with(t, p) {
                assert(t.subrange(0, p.len() as int)[l.len() as int] == t[l.len() as int]);
            }
        }
    }
}

proof fn lemma_trace_prefix_bytes()
    ensures
        trace_prefix() == seq![82u8, 101u8, 99u8, 101u8, 105u8, 118u8, 101u8, 100u8, 58u8, 32u8],
{
    reveal_strlit("Received: ");
    let h = "Received: "@;
    assert(h =~= seq!['R', 'e', 'c', 'e', 'i', 'v', 'e', 'd', ':', ' ']);
    assert(is_ascii_chars(h));
    is_ascii_chars_encode_utf8(h);
    assert(trace_prefix() =~= seq![82u8, 101u8, 99u8, 101u8, 105u8, 118u8, 101u8, 100u8, 58u8, 32u8]);
}

/// The header lines that are written for message `s`, in order, before the
/// blank line that ends them.
pub open spec fn emitted_lines(s: Seq<u8>, to: Seq<char>, from: Seq<char>, date: Seq<char>) -> Seq<
    Seq<u8>,
> {
    seq![encode_utf8(received_text(to, from, date))] + written_lines(header_lines(s)) + (if header_status_of(
        s,
    ).has_date {
        seq![]
    } else {
        seq![date_line(date)]
    }) + (if header_status_of(s).has_from {
        seq![]
    } else {
        seq![from_line(from)]
    })
}

proof fn lemma_encode_concat(a: Seq<char>, b: Seq<char>)
    ensures
        encode_utf8(a + b) == encode_utf8(a) + encode_utf8(b),
    decreases a.len(),
{
    if a.len() == 0 {
        assert(a + b =~= b);
    } else {
        lemma_encode_concat(a.drop_first(), b);
        assert((a + b).drop_first() =~= a.drop_first() + b);
        assert((a + b)[0] == a[0]);
    }
}

proof fn lemma_concat_append(a: Seq<Seq<u8>>, b: Seq<Seq<u8>>)
    ensures
        concat_lines(a + b) == concat_lines(a) + concat_lines(b),
    decreases b.len(),
{
    if b.len() == 0 {
        assert(a + b =~= a);
        assert(concat_lines(a) + seq![] =~= concat_lines(a));
    } else {
        lemma_concat_append(a, b.drop_last());
        assert((a + b).drop_last() =~= a + b.drop_last());
        assert((a + b).last() == b.last());
    }
}

proof fn lemma_concat_single(l: Seq<u8>)
    ensures
        concat_lines(seq![l]) == l,
{
    assert(seq![l].drop_last() =~= Seq::<Seq<u8>>::empty());
    assert(concat_lines(Seq::<Seq<u8>>::empty()) == Seq::<u8>::empty());
    assert(Seq::<u8>::empty() + l =~= l);
}

/// The trace header starts with `Received: `, whose first byte is `R`.
proof fn lemma_received_starts(to: Seq<char>, from: Seq<char>, date: Seq<char>)
    ensures
        starts_with(encode_utf8(received_text(to, from, date)), trace_prefix()),
        trace_prefix().len() > 0,
        trace_prefix()[0] == 82u8,
        encode_utf8(received_text(to, from, date))[0] == 82u8,
{
    reveal_strlit("Received: ");
    reveal_strlit("Received: for ");
    let head = "Received: "@;
    let text = received_text(to, from, date);
    let rest = text.subrange(head.len() as int, text.len() as int);
    assert(text =~= head + rest);
    lemma_encode_concat(head, rest);
    assert(head[0] == 'R');
    assert(head.drop_first().len() == 9);
    assert((82u32 & 0x7Fu32) as u8 == 82u8) by (bit_vector);
    assert(encode_utf8(head) == encode_scalar(head[0] as u32) + encode_utf8(head.drop_first()));
    let full = encode_utf8(text);
    assert(full.subrange(0, encode_utf8(head).len() as int) =~= encode_utf8(head));
}

/// The header block is the emitted lines laid end to end, then one blank
/// line.
pub proof fn lemma_header_block_lines(s: Seq<u8>, to: Seq<char>, from: Seq<char>, date: Seq<char>)
    ensures
        header_block(s, to, from, date) == concat_lines(emitted_lines(s, to, from, date)) + seq![nl()],
{
    let r = encode_utf8(received_text(to, from, date));
    let hs = header_lines(s);
    let st = header_status_of(s);
    let d: Seq<Seq<u8>> = if st.has_date { seq![] } else { seq![date_line(date)] };
    let f: Seq<Seq<u8>> = if st.has_from { seq![] } else { seq![from_line(from)] };
    let ws = written_lines(hs);
    lemma_header_lines_nonempty(s, 0);
    lemma_concat_written(hs);
    lemma_concat_append(seq![r] + ws + d, f);
    lemma_concat_append(seq![r] + ws, d);
    lemma_concat_append(seq![r], ws);
    lemma_concat_single(r);
    if !st.has_date {
        lemma_concat_single(date_line(date));
    }
    if !st.has_from {
        lemma_concat_single(from_line(from));
    }
    assert(concat_lines(Seq::<Seq<u8>>::empty()) == Seq::<u8>::empty());
    assert(header_block(s, to, from, date) =~= concat_lines(emitted_lines(s, to, from, date)) + seq![nl()]);
}

/// Whatever the input holds, the first emitted header line is the fresh
/// trace header; where no header line of the input starts with `Received: `,
/// it is the only emitted line that does.
pub proof fn lemma_single_trace_header(s: Seq<u8>, to: Seq<char>, from: Seq<char>, date: Seq<char>)
    requires
        forall|j: int| 0 <= j < header_lines(s).len() ==> !starts_with(#[trigger] header_lines(s)[j], trace_prefix()),
    ensures
        emitted_lines(s, to, from, date)[0] == encode_utf8(received_text(to, from, date)),
        forall|i: int|
            0 <= i < emitted_lines(s, to, from, date).len() ==> (starts_with(
                #[trigger] emitted_lines(s, to, from, date)[i],
                trace_prefix(),
            ) <==> i == 0),
{
    lemma_received_starts(to, from, date);
    lemma_trace_prefix_bytes();
    let e = emitted_lines(s, to, from, date);
    let hs = header_lines(s);
    let ws = written_lines(hs);
    assert forall|i: int| 0 <= i < e.len() implies (starts_with(#[trigger] e[i], trace_prefix()) <==> i
        == 0) by {
        if i >= 1 && i < 1 + hs.len() {
            assert(e[i] == ws[i - 1]);
            if i - 1 == hs.len() - 1 {
                lemma_terminated_prefix(hs[i - 1], trace_prefix());
            } else {
                assert(ws[i - 1] == hs[i - 1]);
            }
        } else if i >= 1 + hs.len() {
            assert(e[i] == date_line(date) || e[i] == from_line(from));
            assert(date_line(date)[0] == 68u8);
            assert(from_line(from)[0] == 70u8);
            if starts_with(e[i], trace_prefix()) {
                assert(e[i].subrange(0, trace_prefix().len() as int)[0] == e[i][0]);
            }
        }
    }
}

/// Where exactly one header line of the input starts with `From: `, exactly
/// one emitted line does, and it is that input line, byte for byte (a
/// newline added only where it was the last line and ended the input
/// without one).
pub proof fn lemma_single_from_line(s: Seq<u8>, to: Seq<char>, from: Seq<char>, date: Seq<char>, k: int)
    requires
        0 <= k < header_lines(s).len(),
        starts_with(header_lines(s)[k], from_prefix()),
        forall|j: int| 0 <= j < header_lines(s).len() && j != k ==> !starts_with(#[trigger] header_lines(s)[j], from_prefix()),
    ensures
        emitted_lines(s, to, from, date)[k + 1] == header_lines(s)[k] || (k == header_lines(s).len() - 1
            && emitted_lines(s, to, from, date)[k + 1] == header_lines(s)[k].push(nl())),
        forall|i: int|
            0 <= i < emitted_lines(s, to, from, date).len() ==> (starts_with(
                #[trigger] emitted_lines(s, to, from, date)[i],
                from_prefix(),
            ) <==> i == k + 1),
{
    lemma_received_starts(to, from, date);
    let e = emitted_lines(s, to, from, date);
    let hs = header_lines(s);
    let ws = written_lines(hs);
    assert(header_status_of(s).has_from);
    assert(e[k + 1] == ws[k]);
    assert forall|i: int| 0 <= i < e.len() implies (starts_with(#[trigger] e[i], from_prefix()) <==> i
        == k + 1) by {
        if i == 0 {
            if starts_with(e[i], from_prefix()) {
                assert(e[i].subrange(0, 6)[0] == e[i][0]);
            }
        } else if i < 1 + hs.len() {
            assert(e[i] == ws[i - 1]);
            if i - 1 == hs.len() - 1 {
                lemma_terminated_prefix(hs[i - 1], from_prefix());
            } else {
                assert(ws[i - 1] == hs[i - 1]);
            }
        } else {
            assert(e[i] == date_line(date));
            assert(date_line(date)[0] == 68u8);
            if starts_with(e[i], from_prefix()) {
                assert(e[i].subrange(0, 6)[0] == e[i][0]);
            }
        }
    }
}

proof fn lemma_line_end_newline(s: Seq<u8>, i: int)
    requires
        0 <= i < s.len(),
        line_end(s, i) < s.len(),
    ensures
        s[line_end(s, i) - 1] == nl(),
    decreases s.len() - i,
{
    lemma_line_end_bounds(s, i);
    if s[i] != nl() {
        if i + 1 < s.len() {
            lemma_line_end_newline(s, i + 1);
        } else {
            assert(line_end(s, i + 1) == s.len());
        }
    }
}

proof fn lemma_inner_lines_end(s: Seq<u8>, i: int)
    requires
        0 <= i <= s.len(),
    ensures
        forall|j: int|
            0 <= j < header_lines_from(s, i).len() - 1 ==> (#[trigger] header_lines_from(s, i)[j]).last()
                == nl(),
    decreases s.len() - i,
{
    if i < s.len() {
        lemma_line_end_bounds(s, i);
        if !is_blank(line_at(s, i)) {
            let e = line_end(s, i);
            lemma_inner_lines_end(s, e);
            let hs = header_lines_from(s, i);
            let rest = header_lines_from(s, e);
            if rest.len() > 0 {
                lemma_line_end_newline(s, i);
                assert(hs[0] == line_at(s, i));
                assert(line_at(s, i).last() == s[e - 1]);
            }
            assert forall|j: int| 0 <= j < hs.len() - 1 implies (#[trigger] hs[j]).last() == nl() by {
                if j > 0 {
                    assert(hs[j] == rest[j - 1]);
                }
            }
        }
    }
}

proof fn lemma_received_ends(to: Seq<char>, from: Seq<char>, date: Seq<char>)
    ensures
        encode_utf8(received_text(to, from, date)).len() > 0,
        encode_utf8(received_text(to, from, date)).last() == nl(),
{
    reveal_strlit("\n");
    let text = received_text(to, from, date);
    let head = text.subrange(0, text.len() - 1);
    assert(text =~= head + "\n"@);
    lemma_encode_concat(head, "\n"@);
    let n = "\n"@;
    assert(n.len() == 1 && n[0] == '\n');
    assert(n.drop_first() =~= Seq::<char>::empty());
    assert(encode_utf8(n.drop_first()) == Seq::<u8>::empty());
    assert((10u32 & 0x7Fu32) as u8 == 10u8) by (bit_vector);
    assert(('\n' as u32) == 10u32);
    assert(encode_scalar(n[0] as u32) =~= seq![nl()]);
    assert(encode_utf8(n) == encode_scalar(n[0] as u32) + encode_utf8(n.drop_first()));
    assert(encode_utf8(n) =~= seq![nl()]);
}

/// Every emitted header line is a whole line: it is not empty and ends in a
/// newline, the last line of the input included.
pub proof fn lemma_lines_end_in_newline(s: Seq<u8>, to: Seq<char>, from: Seq<char>, date: Seq<char>)
    ensures
        forall|i: int|
            0 <= i < emitted_lines(s, to, from, date).len() ==> (#[trigger] emitted_lines(s, to, from, date)[i]).len()
                > 0 && emitted_lines(s, to, from, date)[i].last() == nl(),
{
    lemma_received_ends(to, from, date);
    lemma_header_lines_nonempty(s, 0);
    lemma_inner_lines_end(s, 0);
    let e = emitted_lines(s, to, from, date);
    let hs = header_lines(s);
    let ws = written_lines(hs);
    assert forall|i: int| 0 <= i < e.len() implies (#[trigger] e[i]).len() > 0 && e[i].last() == nl() by {
        if i >= 1 && i < 1 + hs.len() {
            assert(e[i] == ws[i - 1]);
            if i - 1 < hs.len() - 1 {
                assert(ws[i - 1] == hs[i - 1]);
            }
        } else if i >= 1 + hs.len() {
            assert(e[i] == date_line(date) || e[i] == from_line(from));
        }
    }
}

/// Where no header line of the input starts with `Date: `, exactly one
/// emitted line does: the synthesized one, which follows the input's lines.
pub proof fn lemma_single_synthesized_date(s: Seq<u8>, to: Seq<char>, from: Seq<char>, date: Seq<char>)
    requires
        forall|j: int| 0 <= j < header_lines(s).len() ==> !starts_with(#[trigger] header_lines(s)[j], date_prefix()),
    ensures
        emitted_lines(s, to, from, date)[header_lines(s).len() as int + 1] == date_line(date),
        forall|i: int|
            0 <= i < emitted_lines(s, to, from, date).len() ==> (starts_with(
                #[trigger] emitted_lines(s, to, from, date)[i],
                date_prefix(),
            ) <==> i == header_lines(s).len() + 1),
{
    lemma_received_starts(to, from, date);
    let e = emitted_lines(s, to, from, date);
    let hs = header_lines(s);
    let ws = written_lines(hs);
    assert(!header_status_of(s).has_date);
    let d = date_line(date);
    assert(d.subrange(0, 6) =~= date_prefix());
    assert forall|i: int| 0 <= i < e.len() implies (starts_with(#[trigger] e[i], date_prefix()) <==> i
        == hs.len() + 1) by {
        if i == 0 {
            if starts_with(e[i], date_prefix()) {
                assert(e[i].subrange(0, 6)[0] == e[i][0]);
            }
        } else if i < 1 + hs.len() {
            assert(e[i] == ws[i - 1]);
            if i - 1 == hs.len() - 1 {
                lemma_terminated_prefix(hs[i - 1], date_prefix());
            } else {
                assert(ws[i - 1] == hs[i - 1]);
            }
        } else if i > hs.len() + 1 {
            assert(e[i] == from_line(from));
            assert(from_line(from)[0] == 70u8);
            if starts_with(e[i], date_prefix()) {
                assert(e[i].subrange(0, 6)[0] == e[i][0]);
            }
        }
    }
}

proof fn lemma_body_start_bounds(s: Seq<u8>, i: int)
    requires
        0 <= i <= s.len(),
    ensures
        i + concat_lines(header_lines_from(s, i)).len() <= body_start_from(s, i) <= s.len(),
    decreases s.len() - i,
{
    if i < s.len() {
        lemma_line_end_bounds(s, i);
        if !is_blank(line_at(s, i)) {
            let l = line_at(s, i);
            let rest = header_lines_from(s, line_end(s, i));
            lemma_body_start_bounds(s, line_end(s, i));
            lemma_concat_append(seq![l], rest);
            lemma_concat_single(l);
        }
    }
}

/// Where the header lines make up the whole input (no blank line ends them
/// and no body follows), the delivered message is the header block alone:
/// it still ends in a blank line, and the body is empty.
pub proof fn lemma_headers_only(s: Seq<u8>, to: Seq<char>, from: Seq<char>, date: Seq<char>)
    requires
        concat_lines(header_lines(s)) == s,
    ensures
        body_of(s) == Seq::<u8>::empty(),
        delivered(s, to, from, date) == header_block(s, to, from, date),
        header_block(s, to, from, date).last() == nl(),
{
    lemma_body_start_bounds(s, 0);
    assert(body_of(s) =~= Seq::<u8>::empty());
    assert(delivered(s, to, from, date) =~= header_block(s, to, from, date));
}

} // verus!
