//! The framing codec: one frame is a block of CRLF-terminated header lines,
//! an empty line, and then exactly `Content-Length` bytes of UTF-8 payload.

use vstd::prelude::*;
use vstd::utf8::{decode_utf8, valid_utf8};

verus! {

/// Why a frame could not be read.
#[derive(Debug, Clone, Copy, PartialEq, Eq)]
pub enum FrameError {
    /// A header line did not end in CRLF, lacked the `": "` separator, or
    /// carried a `Content-Length` value that is not a decimal number
    /// representable on this machine.
    MalformedHeader,
    /// The empty line arrived before any `Content-Length` header.
    MissingContentLength,
    /// The payload bytes are not valid UTF-8.
    InvalidUtf8,
    /// The stream ended before the announced payload length was reached.
    UnexpectedEof,
}

/// The carriage-return byte.
pub open spec fn cr() -> u8 {
    13
}

/// The line-feed byte.
pub open spec fn lf() -> u8 {
    10
}

/// The bytes of `"Content-Length"`.
pub open spec fn cl_name() -> Seq<u8> {
    seq![67u8, 111u8, 110u8, 116u8, 101u8, 110u8, 116u8, 45u8, 76u8, 101u8, 110u8, 103u8, 116u8, 104u8]
}

/// The bytes of `": "`.
pub open spec fn sep() -> Seq<u8> {
    seq![58u8, 32u8]
}

/// The bytes of CRLF.
pub open spec fn crlf() -> Seq<u8> {
    seq![13u8, 10u8]
}

/// The decimal digits of `n`, most significant first.
pub open spec fn dec_digits(n: nat) -> Seq<u8>
    decreases n,
{
    if n < 10 {
        seq![(48 + n) as u8]
    } else {
        dec_digits(n / 10).push((48 + n % 10) as u8)
    }
}

/// The index of the first line feed in `s`, if any.
pub open spec fn find_nl(s: Seq<u8>) -> Option<int>
    decreases s.len(),
{
    if s.len() == 0 {
        None
    } else if s[0] == lf() {
        Some(0)
    } else {
        match find_nl(s.drop_first()) {
            Some(i) => Some(i + 1),
            None => None,
        }
    }
}

/// What one read of a line yields: everything up to and including the first
/// line feed, or all of `s` when it holds none.
pub open spec fn line_of(s: Seq<u8>) -> Seq<u8> {
    match find_nl(s) {
        Some(i) => s.take(i + 1),
        None => s,
    }
}

/// Where the first line feed is: `find_nl` finds exactly the first one.
pub proof fn lemma_find_nl(s: Seq<u8>)
    ensures
        match find_nl(s) {
            Some(i) => 0 <= i < s.len() && s[i] == lf() && forall|j: int|
                0 <= j < i ==> s[j] != lf(),
            None => forall|j: int| 0 <= j < s.len() ==> s[j] != lf(),
        },
    decreases s.len(),
{
    if s.len() > 0 && s[0] != lf() {
        let t = s.drop_first();
        lemma_find_nl(t);
        match find_nl(t) {
            Some(i) => {
                assert(find_nl(s) == Some(i + 1));
                assert(s[i + 1] == t[i]);
                assert forall|j: int| 0 <= j < i + 1 implies s[j] != lf() by {
                    if j > 0 {
                        assert(t[j - 1] == s[j]);
                        assert(t[j - 1] != lf());
                    }
                }
            },
            None => {
                assert forall|j: int| 0 <= j < s.len() implies s[j] != lf() by {
                    if j > 0 {
                        assert(t[j - 1] == s[j]);
                        assert(t[j - 1] != lf());
                    }
                }
            },
        }
    }
}

/// A line read from a non-empty stream is non-empty and no longer than the
/// stream.
pub proof fn lemma_line_of_len(s: Seq<u8>)
    requires
        s.len() > 0,
    ensures
        1 <= line_of(s).len() <= s.len(),
{
    lemma_find_nl(s);
}

/// The index of the first `": "` separator in `s`, if any.
pub open spec fn find_sep(s: Seq<u8>) -> Option<int>
    decreases s.len(),
{
    if s.len() < 2 {
        None
    } else if s[0] == 58 && s[1] == 32 {
        Some(0)
    } else {
        match find_sep(s.drop_first()) {
            Some(i) => Some(i + 1),
            None => None,
        }
    }
}

/// Where the first `": "` is: `find_sep` finds exactly the first one.
pub proof fn lemma_find_sep(s: Seq<u8>)
    ensures
        match find_sep(s) {
            Some(i) => 0 <= i < s.len() - 1 && s[i] == 58 && s[i + 1] == 32 && forall|j: int|
                0 <= j < i ==> !(#[trigger] s[j] == 58 && s[j + 1] == 32),
            None => forall|j: int|
                0 <= j < s.len() - 1 ==> !(#[trigger] s[j] == 58 && s[j + 1] == 32),
        },
    decreases s.len(),
{
    if s.len() >= 2 && !(s[0] == 58 && s[1] == 32) {
        let t = s.drop_first();
        lemma_find_sep(t);
        match find_sep(t) {
            Some(i) => {
                assert(find_sep(s) == Some(i + 1));
                assert(s[i + 1] == t[i]);
                assert(s[i + 2] == t[i + 1]);
                assert forall|j: int| 0 <= j < i + 1 implies !(#[trigger] s[j] == 58 && s[j + 1]
                    == 32) by {
                    if j > 0 {
                        assert(t[j - 1] == s[j]);
                        assert(t[j] == s[j + 1]);
                        assert(!(t[j - 1] == 58 && t[j] == 32));
                    }
                }
            },
            None => {
                assert forall|j: int| 0 <= j < s.len() - 1 implies !(#[trigger] s[j] == 58 && s[j
                    + 1] == 32) by {
                    if j > 0 {
                        assert(t[j - 1] == s[j]);
                        assert(t[j] == s[j + 1]);
                        assert(!(t[j - 1] == 58 && t[j] == 32));
                    }
                }
            },
        }
    }
}

/// Whether every byte of `s` is a decimal digit.
pub open spec fn all_digits(s: Seq<u8>) -> bool {
    forall|i: int| 0 <= i < s.len() ==> 48 <= #[trigger] s[i] <= 57
}

/// The number the digit string `s` denotes.
pub open spec fn dec_num(s: Seq<u8>) -> nat
    decreases s.len(),
{
    if s.len() == 0 {
        0
    } else {
        (dec_num(s.drop_last()) * 10 + (s.last() - 48)) as nat
    }
}

/// The number a header value denotes, if it is a non-empty digit string.
pub open spec fn dec_val(s: Seq<u8>) -> Option<nat> {
    if s.len() > 0 && all_digits(s) {
        Some(dec_num(s))
    } else {
        None
    }
}

/// How one header line parses.
pub enum LineShape {
    /// The empty line that ends the header block.
    Empty,
    /// A `Content-Length` header announcing `n` payload bytes.
    Length { n: nat },
    /// Any other well-formed header.
    Other,
    /// A line that breaks the header grammar.
    Bad,
}

/// The parse of one header line: it must end in CRLF; the empty line ends
/// the block; otherwise it must split at the first `": "` into a name and a
/// value, and a `Content-Length` value must be a decimal number that fits
/// the machine's word.
pub open spec fn parse_line(l: Seq<u8>) -> LineShape {
    if !(l.len() >= 2 && l[l.len() - 2] == cr() && l.last() == lf()) {
        LineShape::Bad
    } else {
        let body = l.take(l.len() - 2);
        if body.len() == 0 {
            LineShape::Empty
        } else {
            match find_sep(body) {
                None => LineShape::Bad,
                Some(i) => {
                    let name = body.take(i);
                    let value = body.skip(i + 2);
                    if name == cl_name() {
                        match dec_val(value) {
                            Some(n) => if n <= usize::MAX {
                                LineShape::Length { n }
                            } else {
                                LineShape::Bad
                            },
                            None => LineShape::Bad,
                        }
                    } else {
                        LineShape::Other
                    }
                },
            }
        }
    }
}

/// How a header block parses, given the length announced so far.
pub enum HdrOut {
    /// The stream ended at a line boundary: no message.
    NoMsg { used: int },
    /// A line broke the header grammar after `used` bytes.
    Bad { used: int },
    /// The block ended with no `Content-Length` header.
    NoLen { used: int },
    /// The block ended announcing `size` payload bytes, after `used` bytes.
    Found { size: nat, used: int },
}

/// The parse of a header block: lines are read until the empty line, the
/// last `Content-Length` header wins, and the stream may end cleanly at any
/// line boundary.
pub open spec fn parse_hdrs(s: Seq<u8>, size: Option<nat>) -> HdrOut
    decreases s.len(),
    via parse_hdrs_dec
{
    if s.len() == 0 {
        HdrOut::NoMsg { used: 0 }
    } else {
        let l = line_of(s);
        match parse_line(l) {
            LineShape::Bad => HdrOut::Bad { used: l.len() as int },
            LineShape::Empty => match size {
                Some(n) => HdrOut::Found { size: n, used: l.len() as int },
                None => HdrOut::NoLen { used: l.len() as int },
            },
            LineShape::Length { n } => hdr_add(
                parse_hdrs(s.skip(l.len() as int), Some(n)),
                l.len() as int,
            ),
            LineShape::Other => hdr_add(parse_hdrs(s.skip(l.len() as int), size), l.len() as int),
        }
    }
}

#[via_fn]
proof fn parse_hdrs_dec(s: Seq<u8>, size: Option<nat>) {
    if s.len() != 0 {
        lemma_line_of_len(s);
    }
}

/// The same header outcome, with `k` more bytes consumed before it.
pub open spec fn hdr_add(h: HdrOut, k: int) -> HdrOut {
    match h {
        HdrOut::NoMsg { used } => HdrOut::NoMsg { used: used + k },
        HdrOut::Bad { used } => HdrOut::Bad { used: used + k },
        HdrOut::NoLen { used } => HdrOut::NoLen { used: used + k },
        HdrOut::Found { size, used } => HdrOut::Found { size, used: used + k },
    }
}

/// The exact bytes of one frame carrying `payload`: the `Content-Length`
/// header line, the empty line, and the payload itself.
pub open spec fn frame_of(payload: Seq<u8>) -> Seq<u8> {
    cl_name() + sep() + dec_digits(payload.len()) + crlf() + crlf() + payload
}

/// How a whole frame parses.
pub enum FrameParse {
    /// The stream ended at a line boundary: no message, no error.
    NoMsg { used: int },
    /// The frame is broken; reading it fails with `err`.
    Fail { err: FrameError, used: int },
    /// A payload of the given characters, after `used` bytes in all.
    Msg { text: Seq<char>, used: int },
}

/// The parse of one frame from the front of `s`: a header block, then
/// exactly the announced number of payload bytes, which must be UTF-8.
pub open spec fn frame_parse(s: Seq<u8>) -> FrameParse {
    match parse_hdrs(s, None) {
        HdrOut::NoMsg { used } => FrameParse::NoMsg { used },
        HdrOut::Bad { used } => FrameParse::Fail { err: FrameError::MalformedHeader, used },
        HdrOut::NoLen { used } => FrameParse::Fail {
            err: FrameError::MissingContentLength,
            used,
        },
        HdrOut::Found { size, used } => if s.len() - used < size {
            FrameParse::Fail { err: FrameError::UnexpectedEof, used }
        } else {
            let b = s.subrange(used, used + size);
            if valid_utf8(b) {
                FrameParse::Msg { text: decode_utf8(b), used: used + size }
            } else {
                FrameParse::Fail { err: FrameError::InvalidUtf8, used: used + size }
            }
        },
    }
}

/// An in-memory byte stream read from front to back: the bytes, and how
/// many of them have been consumed.
pub struct ByteCursor {
    pub data: Vec<u8>,
    pub pos: usize,
}

impl ByteCursor {
    /// The consumed prefix never passes the end.
    pub open spec fn wf(self) -> bool {
        self.pos <= self.data@.len()
    }

    /// The bytes not yet consumed.
    pub open spec fn remaining(self) -> Seq<u8> {
        self.data@.skip(self.pos as int)
    }

    /// A cursor at the start of `data`.
    pub fn new(data: Vec<u8>) -> (r: ByteCursor)
        ensures
            r.wf(),
            r.remaining() == data@,
    {
        let r = ByteCursor { data, pos: 0 };
        proof {
            assert(r.remaining() =~= r.data@);
        }
        r
    }

    /// Whether the stream is exhausted.
    pub fn is_at_end(&self) -> (r: bool)
        requires
            self.wf(),
        ensures
            r == (self.remaining().len() == 0),
    {
        self.pos == self.data.len()
    }

    /// One line, up to and including the first line feed (or up to the end
    /// of the stream when no line feed is left); nothing at end of stream.
    #[verifier::loop_isolation(false)]
    pub fn read_line(&mut self) -> (r: Option<Vec<u8>>)
        requires
            old(self).wf(),
        ensures
            final(self).wf(),
            final(self).data@ == old(self).data@,
            match r {
                None => old(self).remaining().len() == 0 && final(self).pos == old(self).pos,
                Some(l) => old(self).remaining().len() > 0 && l@ == line_of(
                    old(self).remaining(),
                ) && final(self).pos == old(self).pos + l@.len(),
            },
    {
        let ghost rem = self.remaining();
        if self.pos == self.data.len() {
            return None;
        }
        proof {
            lemma_find_nl(rem);
        }
        let start = self.pos;
        let mut end: usize = self.data.len();
        let mut i: usize = start;
        while i < self.data.len()
            invariant
                start <= i <= self.data@.len(),
                end == self.data@.len(),
                forall|j: int| start <= j < i ==> self.data@[j] != lf(),
            decreases self.data@.len() - i,
        {
            if *vstd::slice::slice_index_get(self.data.as_slice(), i) == 10 {
                end = i + 1;
                break ;
            }
            i += 1;
        }
        proof {
            if end <= self.data@.len() && end > start && self.data@[end - 1] == lf() {
                assert(rem[end - 1 - start] == lf());
                assert(forall|j: int| 0 <= j < end - 1 - start ==> rem[j] != lf());
                assert(find_nl(rem) == Some(end - 1 - start as int));
            } else {
                assert(forall|j: int| 0 <= j < rem.len() ==> rem[j] != lf());
                assert(find_nl(rem) is None);
            }
        }
        let mut line: Vec<u8> = Vec::new();
        let mut j: usize = start;
        while j < end
            invariant
                start <= j <= end <= self.data@.len(),
                line@ == self.data@.subrange(start as int, j as int),
            decreases end - j,
        {
            let b = *vstd::slice::slice_index_get(self.data.as_slice(), j);
            line.push(b);
            proof {
                assert(line@ =~= self.data@.subrange(start as int, j + 1));
            }
            j += 1;
        }
        self.pos = end;
        proof {
            assert(line@ =~= line_of(rem));
        }
        Some(line)
    }

    /// Exactly `n` payload bytes; nothing, and no movement, when fewer are
    /// left.
    #[verifier::loop_isolation(false)]
    pub fn read_exact(&mut self, n: usize) -> (r: Option<Vec<u8>>)
        requires
            old(self).wf(),
        ensures
            final(self).wf(),
            final(self).data@ == old(self).data@,
            match r {
                Some(b) => old(self).remaining().len() >= n && b@ == old(self).remaining().take(
                    n as int,
                ) && final(self).pos == old(self).pos + n,
                None => old(self).remaining().len() < n && final(self).pos == old(self).pos,
            },
    {
        if self.data.len() - self.pos < n {
            return None;
        }
        let start = self.pos;
        let mut out: Vec<u8> = Vec::new();
        let mut j: usize = start;
        while j < start + n
            invariant
                start <= j <= start + n <= self.data@.len(),
                out@ == self.data@.subrange(start as int, j as int),
            decreases start + n - j,
        {
            let b = *vstd::slice::slice_index_get(self.data.as_slice(), j);
            out.push(b);
            proof {
                assert(out@ =~= self.data@.subrange(start as int, j + 1));
            }
            j += 1;
        }
        self.pos = start + n;
        proof {
            assert(out@ =~= old(self).remaining().take(n as int));
        }
        Some(out)
    }
}

/// The value of a digit string grows, or stays, as digits are appended.
proof fn lemma_dec_num_mono(s: Seq<u8>, i: int)
    requires
        0 <= i <= s.len(),
        all_digits(s),
    ensures
        dec_num(s) >= dec_num(s.take(i)),
    decreases s.len() - i,
{
    if i < s.len() {
        lemma_dec_num_mono(s, i + 1);
        assert(s.take(i + 1).drop_last() =~= s.take(i));
        assert(s.take(i + 1).last() == s[i]);
        assert(dec_num(s.take(i + 1)) == dec_num(s.take(i)) * 10 + (s[i] - 48));
        assert(dec_num(s.take(i)) * 10 >= dec_num(s.take(i))) by (nonlinear_arith);
    } else {
        assert(s.take(i) =~= s);
    }
}

/// The number a digit string denotes, when it fits the machine's word;
/// nothing when the string is empty, holds a non-digit, or overflows.
#[verifier::loop_isolation(false)]
fn parse_dec(s: &Vec<u8>) -> (r: Option<usize>)
    ensures
        match r {
            Some(n) => dec_val(s@) == Some(n as nat),
            None => match dec_val(s@) {
                Some(v) => v > usize::MAX,
                None => true,
            },
        },
{
    if s.len() == 0 {
        return None;
    }
    let mut acc: usize = 0;
    let mut i: usize = 0;
    while i < s.len()
        invariant
            0 <= i <= s@.len(),
            forall|j: int| 0 <= j < i ==> 48 <= #[trigger] s@[j] <= 57,
            acc as nat == dec_num(s@.take(i as int)),
        decreases s@.len() - i,
    {
        let c = s[i];
        if c < 48 || c > 57 {
            return None;
        }
        let d = (c - 48) as usize;
        proof {
            assert(s@.take(i + 1).drop_last() =~= s@.take(i as int));
            assert(s@.take(i + 1).last() == s@[i as int]);
        }
        if acc > (usize::MAX - d) / 10 {
            proof {
                assert(acc * 10 + d > usize::MAX) by (nonlinear_arith)
                    requires
                        acc > (usize::MAX - d) / 10,
                        d <= 9,
                ;
                if all_digits(s@) {
                    lemma_dec_num_mono(s@, i + 1);
                    assert(s@.take(s@.len() as int) =~= s@);
                }
            }
            return None;
        }
        proof {
            assert(acc * 10 + d <= usize::MAX) by (nonlinear_arith)
                requires
                    acc <= (usize::MAX - d) / 10,
                    d <= 9,
            ;
        }
        acc = acc * 10 + d;
        i += 1;
    }
    proof {
        assert(s@.take(s@.len() as int) =~= s@);
    }
    Some(acc)
}

/// How one header line parses, as a value.
pub enum LineKind {
    Empty,
    Length(usize),
    Other,
    Bad,
}

/// The parse of one header line.
#[verifier::loop_isolation(false)]
pub fn parse_header_line(line: &Vec<u8>) -> (r: LineKind)
    ensures
        match r {
            LineKind::Empty => parse_line(line@) is Empty,
            LineKind::Length(n) => parse_line(line@) == (LineShape::Length { n: n as nat }),
            LineKind::Other => parse_line(line@) is Other,
            LineKind::Bad => parse_line(line@) is Bad,
        },
{
    let len = line.len();
    if len < 2 || line[len - 2] != 13 || line[len - 1] != 10 {
        return LineKind::Bad;
    }
    if len == 2 {
        proof {
            assert(line@.take(len - 2) =~= Seq::<u8>::empty());
        }
        return LineKind::Empty;
    }
    let ghost body = line@.take(len - 2);
    proof {
        lemma_find_sep(body);
    }
    let body_len = len - 2;
    let mut sep_at: usize = 0;
    let mut found = false;
    let mut i: usize = 0;
    while !found && i + 1 < body_len
        invariant
            0 <= i <= body.len(),
            body.len() == body_len,
            found ==> sep_at + 1 < body_len && body[sep_at as int] == 58 && body[sep_at + 1] == 32
                && forall|j: int| 0 <= j < sep_at ==> !(#[trigger] body[j] == 58 && body[j + 1]
                == 32),
            !found ==> forall|j: int| 0 <= j < i ==> !(#[trigger] body[j] == 58 && body[j + 1]
                == 32),
        decreases body_len - i + (if found { 0int } else { 1int }),
    {
        if line[i] == 58 && line[i + 1] == 32 {
            sep_at = i;
            found = true;
        } else {
            i += 1;
        }
    }
    if !found {
        proof {
            match find_sep(body) {
                Some(ip) => {
                    assert(!(body[ip] == 58 && body[ip + 1] == 32));
                },
                None => {},
            }
            assert(find_sep(body) is None);
        }
        return LineKind::Bad;
    }
    proof {
        match find_sep(body) {
            Some(ip) => {
                if ip < sep_at as int {
                    assert(!(body[ip] == 58 && body[ip + 1] == 32));
                }
                if ip > sep_at as int {
                    assert(!(body[sep_at as int] == 58 && body[sep_at as int + 1] == 32));
                }
            },
            None => {
                assert(!(body[sep_at as int] == 58 && body[sep_at as int + 1] == 32));
            },
        }
        assert(find_sep(body) == Some(sep_at as int));
    }
    // the header name is `Content-Length` exactly when it is these 14 bytes
    let is_cl = sep_at == 14 && line[0] == 67 && line[1] == 111 && line[2] == 110 && line[3]
        == 116 && line[4] == 101 && line[5] == 110 && line[6] == 116 && line[7] == 45 && line[8]
        == 76 && line[9] == 101 && line[10] == 110 && line[11] == 103 && line[12] == 116
        && line[13] == 104;
    proof {
        if is_cl {
            assert(body.take(sep_at as int) =~= cl_name());
        } else {
            assert(!(body.take(sep_at as int) =~= cl_name()));
        }
    }
    if !is_cl {
        return LineKind::Other;
    }
    let mut value: Vec<u8> = Vec::new();
    let mut j: usize = sep_at + 2;
    while j < body_len
        invariant
            sep_at + 2 <= j <= body_len,
            value@ == body.subrange(sep_at + 2, j as int),
        decreases body_len - j,
    {
        let b = line[j];
        value.push(b);
        proof {
            assert(value@ =~= body.subrange(sep_at + 2, j + 1));
        }
        j += 1;
    }
    proof {
        assert(value@ =~= body.skip(sep_at + 2));
    }
    match parse_dec(&value) {
        Some(n) => LineKind::Length(n),
        None => LineKind::Bad,
    }
}

/// The announced length so far, as the header-block parse sees it.
pub open spec fn size_view(size: Option<usize>) -> Option<nat> {
    match size {
        Some(n) => Some(n as nat),
        None => None,
    }
}

/// Adding consumed-byte counts composes.
proof fn lemma_hdr_add(h: HdrOut, a: int, b: int)
    ensures
        hdr_add(hdr_add(h, a), b) == hdr_add(h, a + b),
{
}

/// The header block read off the stream: the announced payload length when
/// the block ends well; the grammar's error when it does not; nothing when
/// the stream ends cleanly at a line boundary.
#[verifier::loop_isolation(false)]
pub fn read_headers(inp: &mut ByteCursor) -> (r: Result<usize, Option<FrameError>>)
    requires
        old(inp).wf(),
    ensures
        final(inp).wf(),
        final(inp).data@ == old(inp).data@,
        final(inp).pos >= old(inp).pos,
        match r {
            Ok(n) => parse_hdrs(old(inp).remaining(), None) == (HdrOut::Found {
                size: n as nat,
                used: final(inp).pos - old(inp).pos,
            }),
            Err(Some(e)) => (e == FrameError::MalformedHeader && parse_hdrs(
                old(inp).remaining(),
                None,
            ) == (HdrOut::Bad { used: final(inp).pos - old(inp).pos })) || (e
                == FrameError::MissingContentLength && parse_hdrs(old(inp).remaining(), None)
                == (HdrOut::NoLen { used: final(inp).pos - old(inp).pos })),
            Err(None) => parse_hdrs(old(inp).remaining(), None) == (HdrOut::NoMsg {
                used: final(inp).pos - old(inp).pos,
            }),
        },
{
    let ghost s0 = old(inp).remaining();
    let ghost p0 = old(inp).pos as int;
    let mut size: Option<usize> = None;
    loop
        invariant
            inp.wf(),
            inp.data@ == old(inp).data@,
            inp.pos >= p0,
            parse_hdrs(s0, None) == hdr_add(
                parse_hdrs(inp.remaining(), size_view(size)),
                inp.pos - p0,
            ),
        decreases inp.remaining().len(),
    {
        let ghost rem = inp.remaining();
        let ghost sz = size_view(size);
        match inp.read_line() {
            None => {
                proof {
                    assert(parse_hdrs(rem, sz) == (HdrOut::NoMsg { used: 0 }));
                }
                return Err(None);
            },
            Some(line) => {
                proof {
                    assert(inp.remaining() =~= rem.skip(line@.len() as int));
                    assert(line_of(rem) == line@);
                }
                match parse_header_line(&line) {
                    LineKind::Bad => {
                        proof {
                            assert(parse_hdrs(rem, sz) == (HdrOut::Bad {
                                used: line@.len() as int,
                            }));
                        }
                        return Err(Some(FrameError::MalformedHeader));
                    },
                    LineKind::Empty => {
                        match size {
                            None => {
                                proof {
                                    assert(parse_hdrs(rem, sz) == (HdrOut::NoLen {
                                        used: line@.len() as int,
                                    }));
                                }
                                return Err(Some(FrameError::MissingContentLength));
                            },
                            Some(n) => {
                                proof {
                                    assert(parse_hdrs(rem, sz) == (HdrOut::Found {
                                        size: n as nat,
                                        used: line@.len() as int,
                                    }));
                                }
                                return Ok(n);
                            },
                        }
                    },
                    LineKind::Length(n2) => {
                        proof {
                            assert(parse_hdrs(rem, sz) == hdr_add(
                                parse_hdrs(rem.skip(line@.len() as int), Some(n2 as nat)),
                                line@.len() as int,
                            ));
                            lemma_hdr_add(
                                parse_hdrs(inp.remaining(), Some(n2 as nat)),
                                line@.len() as int,
                                inp.pos - p0 - line@.len() as int,
                            );
                        }
                        size = Some(n2);
                    },
                    LineKind::Other => {
                        proof {
                            assert(parse_hdrs(rem, sz) == hdr_add(
                                parse_hdrs(rem.skip(line@.len() as int), sz),
                                line@.len() as int,
                            ));
                            lemma_hdr_add(
                                parse_hdrs(inp.remaining(), sz),
                                line@.len() as int,
                                inp.pos - p0 - line@.len() as int,
                            );
                        }
                    },
                }
            },
        }
    }
}

/// One frame read off the stream: the header block, then exactly the
/// announced number of payload bytes, decoded as UTF-8 text. An exhausted
/// stream at a line boundary yields no message and no error; a broken frame
/// yields the error the grammar assigns it, and a successful read consumes
/// exactly the frame's bytes.
pub fn read_msg_text(inp: &mut ByteCursor) -> (r: Result<Option<String>, FrameError>)
    requires
        old(inp).wf(),
    ensures
        final(inp).wf(),
        final(inp).data@ == old(inp).data@,
        match frame_parse(old(inp).remaining()) {
            FrameParse::NoMsg { used } => r == Ok::<Option<String>, FrameError>(None)
                && final(inp).pos == old(inp).pos + used,
            FrameParse::Fail { err, used } => r == Err::<Option<String>, FrameError>(err)
                && final(inp).pos == old(inp).pos + used,
            FrameParse::Msg { text, used } => (match r {
                Ok(Some(s)) => s@ == text,
                _ => false,
            }) && final(inp).pos == old(inp).pos + used,
        },
{
    let ghost s0 = old(inp).remaining();
    let ghost p0 = old(inp).pos as int;
    let n: usize = match read_headers(inp) {
        Ok(n) => n,
        Err(Some(e)) => {
            return Err(e);
        },
        Err(None) => {
            return Ok(None);
        },
    };
    let ghost used = inp.pos - p0;
    proof {
        assert(parse_hdrs(s0, None) == (HdrOut::Found { size: n as nat, used }));
    }
    match inp.read_exact(n) {
        None => {
            proof {
                assert(s0.len() - used < n as nat);
            }
            Err(FrameError::UnexpectedEof)
        },
        Some(bytes) => {
            proof {
                assert(bytes@ =~= s0.subrange(used, used + n));
            }
            match crate::text::bytes_into_string(bytes) {
                Ok(s) => Ok(Some(s)),
                Err(_) => Err(FrameError::InvalidUtf8),
            }
        },
    }
}

/// The decimal digits of `n`, appended.
fn push_dec(out: &mut Vec<u8>, n: usize)
    ensures
        final(out)@ == old(out)@ + dec_digits(n as nat),
    decreases n,
{
    if n >= 10 {
        push_dec(out, n / 10);
    }
    out.push(48 + (n % 10) as u8);
    proof {
        if n < 10 {
            assert(out@ =~= old(out)@ + dec_digits(n as nat));
        } else {
            assert(out@ =~= old(out)@ + dec_digits(n as nat));
        }
    }
}

/// `find_nl` is pinned down by a witness for the first line feed.
pub proof fn lemma_find_nl_at(s: Seq<u8>, k: int)
    requires
        0 <= k < s.len(),
        s[k] == lf(),
        forall|j: int| 0 <= j < k ==> s[j] != lf(),
    ensures
        find_nl(s) == Some(k),
{
    lemma_find_nl(s);
    match find_nl(s) {
        Some(i) => {
            if i < k {
                assert(s[i] != lf());
            }
            if i > k {
                assert(s[k] != lf());
            }
        },
        None => {
            assert(s[k] != lf());
        },
    }
}

/// `find_sep` is pinned down by a witness for the first separator.
pub proof fn lemma_find_sep_at(s: Seq<u8>, k: int)
    requires
        0 <= k < s.len() - 1,
        s[k] == 58,
        s[k + 1] == 32,
        forall|j: int| 0 <= j < k ==> !(#[trigger] s[j] == 58 && s[j + 1] == 32),
    ensures
        find_sep(s) == Some(k),
{
    lemma_find_sep(s);
    match find_sep(s) {
        Some(i) => {
            if i < k {
                assert(!(s[i] == 58 && s[i + 1] == 32));
            }
            if i > k {
                assert(!(s[k] == 58 && s[k + 1] == 32));
            }
        },
        None => {
            assert(!(s[k] == 58 && s[k + 1] == 32));
        },
    }
}

/// The decimal digits of `n` are digits, denote `n`, and are non-empty.
pub proof fn lemma_dec_digits(n: nat)
    ensures
        all_digits(dec_digits(n)),
        dec_num(dec_digits(n)) == n,
        dec_digits(n).len() >= 1,
    decreases n,
{
    if n < 10 {
        assert(dec_digits(n) =~= seq![(48 + n) as u8]);
        assert(dec_digits(n).drop_last() =~= Seq::<u8>::empty());
        assert(dec_num(Seq::<u8>::empty()) == 0);
        assert(dec_digits(n).last() == (48 + n) as u8);
        assert(dec_num(dec_digits(n)) == n);
    } else {
        lemma_dec_digits(n / 10);
        let t = dec_digits(n / 10);
        let d = dec_digits(n);
        assert(d == t.push((48 + n % 10) as u8));
        assert(d.drop_last() =~= t);
        assert(d.last() == (48 + n % 10) as u8);
        assert(dec_num(d) == dec_num(t) * 10 + (n % 10));
        assert((n / 10) * 10 + n % 10 == n);
        assert forall|j: int| 0 <= j < d.len() implies 48 <= #[trigger] d[j] <= 57 by {
            if j < t.len() {
                assert(d[j] == t[j]);
                assert(48 <= t[j] <= 57);
            }
        }
    }
}

/// Round trip of the framing: a written frame carrying the UTF-8 payload
/// `b`, followed by anything, parses back to exactly the payload's text,
/// consuming exactly the frame.
#[verifier::rlimit(100)]
pub proof fn lemma_frame_round_trip(b: Seq<u8>, rest: Seq<u8>)
    requires
        b.len() <= usize::MAX,
        valid_utf8(b),
    ensures
        frame_parse(frame_of(b) + rest) == (FrameParse::Msg {
            text: decode_utf8(b),
            used: frame_of(b).len() as int,
        }),
{
    let s = frame_of(b) + rest;
    let d = dec_digits(b.len());
    lemma_dec_digits(b.len());
    let hl = cl_name() + sep() + d + crlf();
    assert(s =~= hl + (crlf() + b + rest));
    let hn = hl.len() as int;
    // the header line is the first line: no earlier byte is a line feed
    assert(s[hn - 1] == lf());
    assert forall|j: int| 0 <= j < hn - 1 implies s[j] != lf() by {
        if j < 14 {
            assert(s[j] == cl_name()[j]);
        } else if j < 16 {
            assert(s[j] == sep()[j - 14]);
        } else if j < 16 + d.len() {
            assert(s[j] == d[j - 16]);
            assert(48 <= d[j - 16] <= 57);
        } else {
            assert(s[j] == cr());
        }
    }
    lemma_find_nl_at(s, hn - 1);
    assert(line_of(s) =~= hl);
    // the line parses as a Content-Length header announcing b.len()
    assert(hl[hn - 2] == cr() && hl.last() == lf());
    let body = hl.take(hn - 2);
    assert(body =~= cl_name() + sep() + d);
    assert(body[14] == 58 && body[15] == 32);
    assert forall|j: int| 0 <= j < 14 implies !(#[trigger] body[j] == 58 && body[j + 1] == 32)
        by {
        assert(body[j] == cl_name()[j]);
    }
    lemma_find_sep_at(body, 14);
    assert(body.take(14) =~= cl_name());
    assert(body.skip(16) =~= d);
    assert(dec_val(d) == Some(b.len()));
    assert(parse_line(hl) == (LineShape::Length { n: b.len() }));
    // the next line is the empty line
    let s2 = s.skip(hn);
    assert(s2 =~= crlf() + b + rest);
    assert(s2[0] != lf() && s2[1] == lf());
    lemma_find_nl_at(s2, 1);
    assert(line_of(s2) =~= crlf());
    assert(parse_line(crlf()) is Empty);
    assert(parse_hdrs(s2, Some(b.len())) == (HdrOut::Found { size: b.len(), used: 2 }));
    assert(parse_hdrs(s, None) == (HdrOut::Found { size: b.len(), used: hn + 2 }));
    // exactly the payload follows
    assert(s.len() - (hn + 2) >= b.len());
    assert(s.subrange(hn + 2, hn + 2 + b.len()) =~= b);
    assert(frame_of(b).len() == hn + 2 + b.len());
}

/// An exhausted stream at a header boundary means no message, not an
/// error, and consumes nothing — so every further read finds the same
/// exhausted stream and again reports no message.
pub proof fn lemma_end_of_stream(s: Seq<u8>)
    requires
        s.len() == 0,
    ensures
        frame_parse(s) == (FrameParse::NoMsg { used: 0 }),
{
}

/// One frame written onto the stream: the `Content-Length` header counting
/// the text's UTF-8 bytes, the empty line, and exactly those bytes.
pub fn write_msg_text(out: &mut Vec<u8>, msg: &str)
    ensures
        final(out)@ == old(out)@ + frame_of(vstd::utf8::encode_utf8(msg@)),
{
    let mut bytes = msg.as_bytes_vec();
    let n = bytes.len();
    out.push(67);
    out.push(111);
    out.push(110);
    out.push(116);
    out.push(101);
    out.push(110);
    out.push(116);
    out.push(45);
    out.push(76);
    out.push(101);
    out.push(110);
    out.push(103);
    out.push(116);
    out.push(104);
    out.push(58);
    out.push(32);
    push_dec(out, n);
    out.push(13);
    out.push(10);
    out.push(13);
    out.push(10);
    out.append(&mut bytes);
    proof {
        assert(out@ =~= old(out)@ + frame_of(vstd::utf8::encode_utf8(msg@)));
    }
}

} // verus!
