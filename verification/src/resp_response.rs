//! The RESP (Redis Serialization Protocol) codec: frames, a serializer,
//! and a byte-oriented incremental parser.
//!
//! A frame is one of four shapes. On the wire, every frame begins with a
//! tag byte (`+`, `$` or `*`) and every header line ends in CRLF; bulk
//! payloads are length-prefixed raw bytes, so they may contain CR, LF or
//! NUL freely.

use vstd::prelude::*;
use vstd::slice::{slice_index_get, slice_subrange, slice_to_vec};
use crate::keyspace::push_bytes;

verus! {

pub const CR: u8 = 13;
pub const LF: u8 = 10;
pub const PLUS_BYTE: u8 = 43;
pub const DOLLAR_BYTE: u8 = 36;
pub const STAR_BYTE: u8 = 42;
pub const MINUS_BYTE: u8 = 45;
pub const DIGIT_ZERO: u8 = 48;
pub const DIGIT_ONE: u8 = 49;
pub const DIGIT_NINE: u8 = 57;

/// Mathematical model of a RESP frame.
pub enum Frame {
    /// A single-line string: `+` payload CRLF. Valid payloads hold no CR
    /// or LF.
    Simple(Seq<u8>),
    /// A length-prefixed byte string: `$` length CRLF payload CRLF.
    Bulk(Seq<u8>),
    /// The distinguished "no value" marker, `$-1` CRLF.
    Null,
    /// An ordered sequence of frames: `*` count CRLF elements.
    Array(Seq<Frame>),
}

/// A frame the serializer can produce faithfully: simple strings carry no
/// line terminators, and lengths fit the machine's sizes.
pub open spec fn frame_wf(f: Frame) -> bool
    decreases f,
{
    match f {
        Frame::Simple(s) => forall|i: int| 0 <= i < s.len() ==> s[i] != CR && s[i] != LF,
        Frame::Bulk(b) => b.len() <= usize::MAX,
        Frame::Null => true,
        Frame::Array(elems) => elems.len() <= usize::MAX
            && forall|i: int| 0 <= i < elems.len() ==> frame_wf(#[trigger] elems[i]),
    }
}

/// The decimal digits of `n`, most significant first.
pub open spec fn dec_digits(n: nat) -> Seq<u8>
    decreases n,
{
    if n < 10 {
        seq![(DIGIT_ZERO + n) as u8]
    } else {
        dec_digits(n / 10).push((DIGIT_ZERO + n % 10) as u8)
    }
}

pub open spec fn crlf() -> Seq<u8> {
    seq![CR, LF]
}

/// The wire bytes of a frame.
pub open spec fn spec_serialize(f: Frame) -> Seq<u8>
    decreases f,
{
    match f {
        Frame::Simple(s) => seq![PLUS_BYTE] + s + crlf(),
        Frame::Bulk(b) => seq![DOLLAR_BYTE] + dec_digits(b.len()) + crlf() + b + crlf(),
        Frame::Null => seq![DOLLAR_BYTE, MINUS_BYTE, DIGIT_ONE] + crlf(),
        Frame::Array(elems) => seq![STAR_BYTE] + dec_digits(elems.len()) + crlf()
            + spec_serialize_elems(elems),
    }
}

/// The concatenated wire bytes of a sequence of frames.
pub open spec fn spec_serialize_elems(elems: Seq<Frame>) -> Seq<u8>
    decreases elems,
{
    if elems.len() == 0 {
        Seq::empty()
    } else {
        spec_serialize(elems.first()) + spec_serialize_elems(elems.drop_first())
    }
}

/// A RESP value as held at run time.
#[derive(Debug)]
pub enum RespResponse {
    SimpleString(Vec<u8>),
    BulkString(Vec<u8>),
    RespArray(Vec<RespResponse>),
    NullBulkString,
}

/// The frame a run-time value stands for.
pub open spec fn frame_of(r: RespResponse) -> Frame
    decreases r,
{
    match r {
        RespResponse::SimpleString(s) => Frame::Simple(s@),
        RespResponse::BulkString(b) => Frame::Bulk(b@),
        RespResponse::NullBulkString => Frame::Null,
        RespResponse::RespArray(v) => Frame::Array(frames_of(v@)),
    }
}

/// The frames a sequence of run-time values stands for.
pub open spec fn frames_of(s: Seq<RespResponse>) -> Seq<Frame>
    decreases s,
{
    if s.len() == 0 {
        Seq::empty()
    } else {
        frames_of(s.drop_last()).push(frame_of(s.last()))
    }
}

pub proof fn lemma_frames_of_index(s: Seq<RespResponse>)
    ensures
        frames_of(s).len() == s.len(),
        forall|i: int| 0 <= i < s.len() ==> frames_of(s)[i] == frame_of(#[trigger] s[i]),
    decreases s.len(),
{
    if s.len() > 0 {
        lemma_frames_of_index(s.drop_last());
        assert forall|i: int| 0 <= i < s.len() implies
            frames_of(s)[i] == frame_of(#[trigger] s[i]) by {
            if i < s.len() - 1 {
                assert(s.drop_last()[i] == s[i]);
                assert(frames_of(s.drop_last())[i] == frame_of(s.drop_last()[i]));
            }
        }
    }
}

impl View for RespResponse {
    type V = Frame;

    open spec fn view(&self) -> Frame {
        frame_of(*self)
    }
}

impl Clone for RespResponse {
    /// A clone stands for the same frame.
    fn clone(&self) -> (r: Self)
        ensures
            r@ == self@,
        decreases *self,
    {
        match self {
            RespResponse::SimpleString(s) => {
                let mut c: Vec<u8> = Vec::new();
                push_bytes(&mut c, s.as_slice());
                proof {
                    assert(c@ =~= s@);
                }
                RespResponse::SimpleString(c)
            },
            RespResponse::BulkString(b) => {
                let mut c: Vec<u8> = Vec::new();
                push_bytes(&mut c, b.as_slice());
                proof {
                    assert(c@ =~= b@);
                }
                RespResponse::BulkString(c)
            },
            RespResponse::NullBulkString => RespResponse::NullBulkString,
            RespResponse::RespArray(arr) => {
                let n = arr.len();
                let mut c: Vec<RespResponse> = Vec::new();
                let mut i: usize = 0;
                while i < n
                    invariant
                        n == arr@.len(),
                        i <= n,
                        c@.len() == i,
                        forall|j: int| 0 <= j < i ==> c@[j]@ == arr@[j]@,
                    decreases n - i,
                {
                    let e = &arr[i];
                    proof {
                        assert(decreases_to!(*self => (*self)->RespArray_0));
                        assert(decreases_to!(*self => arr@[i as int]));
                    }
                    c.push(e.clone());
                    i += 1;
                }
                proof {
                    lemma_frames_of_index(arr@);
                    lemma_frames_of_index(c@);
                    assert forall|j: int| 0 <= j < n implies
                        frames_of(c@)[j] == frames_of(arr@)[j] by {
                        assert(frames_of(c@)[j] == frame_of(c@[j]));
                        assert(frames_of(arr@)[j] == frame_of(arr@[j]));
                        assert(c@[j]@ == arr@[j]@);
                    }
                    assert(frames_of(c@) =~= frames_of(arr@));
                }
                RespResponse::RespArray(c)
            },
        }
    }
}

/// Appends the decimal digits of `n` to `out`.
fn push_dec(out: &mut Vec<u8>, n: usize)
    ensures
        final(out)@ == old(out)@ + dec_digits(n as nat),
    decreases n,
{
    if n < 10 {
        out.push(DIGIT_ZERO + (n as u8));
    } else {
        push_dec(out, n / 10);
        out.push(DIGIT_ZERO + ((n % 10) as u8));
        proof {
            assert(out@ =~= old(out)@ + dec_digits(n as nat));
        }
    }
}

/// Splitting a sequence of frames after its first `i` elements splits its
/// serialization accordingly.
pub proof fn lemma_serialize_elems_take(elems: Seq<Frame>, i: int)
    requires
        0 <= i < elems.len(),
    ensures
        spec_serialize_elems(elems.take(i + 1))
            == spec_serialize_elems(elems.take(i)) + spec_serialize(elems[i]),
    decreases i,
{
    if i == 0 {
        assert(elems.take(1).first() == elems[0]);
        assert(elems.take(1).drop_first() =~= Seq::<Frame>::empty());
        assert(elems.take(0) =~= Seq::<Frame>::empty());
        assert(spec_serialize_elems(elems.take(1))
            =~= spec_serialize_elems(elems.take(0)) + spec_serialize(elems[0]));
    } else {
        let tail = elems.drop_first();
        lemma_serialize_elems_take(tail, i - 1);
        assert(elems.take(i + 1).first() == elems.first());
        assert(elems.take(i + 1).drop_first() =~= tail.take(i));
        assert(elems.take(i).first() == elems.first());
        assert(elems.take(i).drop_first() =~= tail.take(i - 1));
        assert(tail[i - 1] == elems[i]);
        assert(spec_serialize_elems(elems.take(i + 1))
            =~= spec_serialize_elems(elems.take(i)) + spec_serialize(elems[i]));
    }
}

impl RespResponse {
    /// Appends the wire bytes of this frame to `out`.
    fn write_frame(&self, out: &mut Vec<u8>)
        ensures
            final(out)@ == old(out)@ + spec_serialize(self@),
        decreases *self,
    {
        match self {
            RespResponse::SimpleString(s) => {
                out.push(PLUS_BYTE);
                push_bytes(out, s.as_slice());
                out.push(CR);
                out.push(LF);
                proof {
                    assert(out@ =~= old(out)@ + spec_serialize(self@));
                }
            },
            RespResponse::BulkString(b) => {
                out.push(DOLLAR_BYTE);
                push_dec(out, b.len());
                out.push(CR);
                out.push(LF);
                push_bytes(out, b.as_slice());
                out.push(CR);
                out.push(LF);
                proof {
                    assert(out@ =~= old(out)@ + spec_serialize(self@));
                }
            },
            RespResponse::NullBulkString => {
                out.push(DOLLAR_BYTE);
                out.push(MINUS_BYTE);
                out.push(DIGIT_ONE);
                out.push(CR);
                out.push(LF);
                proof {
                    assert(out@ =~= old(out)@ + spec_serialize(self@));
                }
            },
            RespResponse::RespArray(arr) => {
                let ghost frames = frames_of(arr@);
                proof {
                    lemma_frames_of_index(arr@);
                }
                out.push(STAR_BYTE);
                push_dec(out, arr.len());
                out.push(CR);
                out.push(LF);
                let ghost header_done = out@;
                let n = arr.len();
                let mut i: usize = 0;
                proof {
                    assert(frames.take(0) =~= Seq::<Frame>::empty());
                }
                while i < n
                    invariant
                        n == arr@.len(),
                        i <= n,
                        frames == frames_of(arr@),
                        frames.len() == n,
                        forall|j: int| 0 <= j < n ==> frames[j] == frame_of(#[trigger] arr@[j]),
                        out@ == header_done + spec_serialize_elems(frames.take(i as int)),
                    decreases n - i,
                {
                    let e = &arr[i];
                    proof {
                        assert(decreases_to!(*self => (*self)->RespArray_0));
                        assert(decreases_to!(*self => arr@[i as int]));
                    }
                    e.write_frame(out);
                    proof {
                        lemma_serialize_elems_take(frames, i as int);
                        assert(out@ =~= header_done
                            + spec_serialize_elems(frames.take(i + 1)));
                    }
                    i += 1;
                }
                proof {
                    assert(frames.take(n as int) =~= frames);
                    assert(out@ =~= old(out)@ + spec_serialize(self@));
                }
            },
        }
    }

    /// Serializes the frame to its wire bytes.
    pub fn serialize(&self) -> (r: Vec<u8>)
        ensures
            r@ == spec_serialize(self@),
    {
        let mut out: Vec<u8> = Vec::new();
        self.write_frame(&mut out);
        proof {
            assert(out@ =~= spec_serialize(self@));
        }
        out
    }
}

} // verus!

verus! {

/// Outcome of reading one frame from the front of a byte sequence:
/// the frame and the count of bytes it occupied, or a report that the
/// bytes so far are a strict prefix of some frame (`Incomplete`), or that
/// no continuation could make them one (`Malformed`).
pub enum ParseOutcome {
    Found(Frame, nat),
    Incomplete,
    Malformed,
}

/// Outcome of reading a run of consecutive frames.
pub enum ElemsOutcome {
    ElemsFound(Seq<Frame>, nat),
    ElemsIncomplete,
    ElemsMalformed,
}

/// Outcome of reading one CRLF-terminated header line.
pub enum LineOutcome {
    /// The bytes between `start` and the CR, and the index just past the LF.
    LineFound(Seq<u8>, int),
    LineIncomplete,
    LineMalformed,
}

/// The error half of the parser's result.
#[derive(Debug, Clone, Copy, PartialEq, Eq, Structural)]
pub enum ParseError {
    /// More bytes are needed; nothing was consumed.
    Incomplete,
    /// The input can never become a valid frame; the connection should close.
    Malformed,
}

pub open spec fn is_term(b: u8) -> bool {
    b == CR || b == LF
}

/// The index of the first CR or LF at or after `i`, if any.
pub open spec fn scan_terminator(s: Seq<u8>, i: int) -> Option<int>
    decreases s.len() - i,
{
    if i < 0 || i >= s.len() {
        None
    } else if is_term(s[i]) {
        Some(i)
    } else {
        scan_terminator(s, i + 1)
    }
}

/// Reads one header line starting at `start`: its content runs to the
/// first CR, which must be directly followed by LF. A lone LF, or a CR
/// followed by anything else, can never extend to a valid line.
pub open spec fn parse_crlf_line(s: Seq<u8>, start: int) -> LineOutcome {
    match scan_terminator(s, start) {
        None => LineOutcome::LineIncomplete,
        Some(j) => {
            if s[j] == LF {
                LineOutcome::LineMalformed
            } else if j + 1 >= s.len() {
                LineOutcome::LineIncomplete
            } else if s[j + 1] == LF {
                LineOutcome::LineFound(s.subrange(start, j), j + 2)
            } else {
                LineOutcome::LineMalformed
            }
        },
    }
}

pub open spec fn is_digit(b: u8) -> bool {
    DIGIT_ZERO <= b && b <= DIGIT_NINE
}

pub open spec fn all_digits(s: Seq<u8>) -> bool {
    forall|i: int| 0 <= i < s.len() ==> is_digit(#[trigger] s[i])
}

/// The number denoted by a string of decimal digits.
pub open spec fn dig_val(s: Seq<u8>) -> int
    decreases s.len(),
{
    if s.len() == 0 {
        0
    } else {
        10 * dig_val(s.drop_last()) + (s.last() - DIGIT_ZERO)
    }
}

/// Parses one frame from the front of `s`. `s[0]` selects the shape:
/// `+` a simple string, `$` a bulk string or the null marker, `*` an
/// array; any other first byte is malformed.
pub open spec fn spec_parse(s: Seq<u8>) -> ParseOutcome
    decreases s.len(), 1int,
{
    if s.len() == 0 {
        ParseOutcome::Incomplete
    } else if s[0] == PLUS_BYTE {
        spec_parse_simple(s)
    } else if s[0] == DOLLAR_BYTE {
        spec_parse_bulk(s)
    } else if s[0] == STAR_BYTE {
        spec_parse_array(s)
    } else {
        ParseOutcome::Malformed
    }
}

/// A simple string: payload runs to the CRLF; CR or LF inside the
/// payload can never parse.
pub open spec fn spec_parse_simple(s: Seq<u8>) -> ParseOutcome {
    match parse_crlf_line(s, 1) {
        LineOutcome::LineIncomplete => ParseOutcome::Incomplete,
        LineOutcome::LineMalformed => ParseOutcome::Malformed,
        LineOutcome::LineFound(content, next) => ParseOutcome::Found(
            Frame::Simple(content),
            next as nat,
        ),
    }
}

/// A bulk string: a decimal length line, then exactly that many payload
/// bytes, then CRLF. The length line `-1` denotes the null bulk string.
/// A length beyond `usize::MAX` can never be materialized and is treated
/// as malformed.
pub open spec fn spec_parse_bulk(s: Seq<u8>) -> ParseOutcome {
    match parse_crlf_line(s, 1) {
        LineOutcome::LineIncomplete => ParseOutcome::Incomplete,
        LineOutcome::LineMalformed => ParseOutcome::Malformed,
        LineOutcome::LineFound(content, body) => {
            if content.len() == 2 && content[0] == MINUS_BYTE && content[1] == DIGIT_ONE {
                ParseOutcome::Found(Frame::Null, body as nat)
            } else if content.len() >= 1 && all_digits(content) {
                let n = dig_val(content);
                if n > usize::MAX {
                    ParseOutcome::Malformed
                } else if s.len() < body + n + 2 {
                    ParseOutcome::Incomplete
                } else if s[body + n] == CR && s[body + n + 1] == LF {
                    ParseOutcome::Found(Frame::Bulk(s.subrange(body, body + n)), (body + n + 2) as nat)
                } else {
                    ParseOutcome::Malformed
                }
            } else {
                ParseOutcome::Malformed
            }
        },
    }
}

/// An array: a decimal count line, then that many frames in sequence.
pub open spec fn spec_parse_array(s: Seq<u8>) -> ParseOutcome
    decreases s.len(), 0int,
{
    match parse_crlf_line(s, 1) {
        LineOutcome::LineIncomplete => ParseOutcome::Incomplete,
        LineOutcome::LineMalformed => ParseOutcome::Malformed,
        LineOutcome::LineFound(content, body) => {
            if !(content.len() >= 1 && all_digits(content)) {
                ParseOutcome::Malformed
            } else if dig_val(content) > usize::MAX {
                ParseOutcome::Malformed
            } else if !(3 <= body <= s.len()) {
                // a found line always lies inside `s`; this arm only bounds
                // the recursion
                ParseOutcome::Malformed
            } else {
                match spec_parse_elems(s.skip(body), dig_val(content) as nat) {
                    ElemsOutcome::ElemsFound(frames, used) => ParseOutcome::Found(
                        Frame::Array(frames),
                        (body + used) as nat,
                    ),
                    ElemsOutcome::ElemsIncomplete => ParseOutcome::Incomplete,
                    ElemsOutcome::ElemsMalformed => ParseOutcome::Malformed,
                }
            }
        },
    }
}

/// Parses `n` consecutive frames from the front of `s`.
pub open spec fn spec_parse_elems(s: Seq<u8>, n: nat) -> ElemsOutcome
    decreases s.len(), n + 2,
{
    if n == 0 {
        ElemsOutcome::ElemsFound(Seq::empty(), 0)
    } else {
        match spec_parse(s) {
            ParseOutcome::Incomplete => ElemsOutcome::ElemsIncomplete,
            ParseOutcome::Malformed => ElemsOutcome::ElemsMalformed,
            ParseOutcome::Found(f, k) => {
                if !(1 <= k <= s.len()) {
                    // a found frame always occupies at least its tag byte;
                    // this arm only bounds the recursion
                    ElemsOutcome::ElemsMalformed
                } else {
                    match spec_parse_elems(s.skip(k as int), (n - 1) as nat) {
                        ElemsOutcome::ElemsFound(fs, used) => ElemsOutcome::ElemsFound(
                            seq![f] + fs,
                            k + used,
                        ),
                        ElemsOutcome::ElemsIncomplete => ElemsOutcome::ElemsIncomplete,
                        ElemsOutcome::ElemsMalformed => ElemsOutcome::ElemsMalformed,
                    }
                }
            },
        }
    }
}

/// How an executable parse result corresponds to a parse outcome.
pub open spec fn parse_result_matches(
    s: Seq<u8>,
    r: Result<(RespResponse, usize), ParseError>,
    outcome: ParseOutcome,
) -> bool {
    match r {
        Ok((f, k)) => outcome == ParseOutcome::Found(f@, k as nat) && 1 <= k <= s.len(),
        Err(ParseError::Incomplete) => outcome is Incomplete,
        Err(ParseError::Malformed) => outcome is Malformed,
    }
}

/// Finds the first CR or LF at or after `start`.
fn scan_term(data: &[u8], start: usize) -> (r: Option<usize>)
    requires
        start <= data@.len(),
    ensures
        match r {
            Some(j) => scan_terminator(data@, start as int) == Some(j as int)
                && start <= j < data@.len(),
            None => scan_terminator(data@, start as int) is None,
        },
{
    let n = data.len();
    let mut i = start;
    while i < n
        invariant
            start <= i <= n,
            scan_terminator(data@, start as int) == scan_terminator(data@, i as int),
        decreases n - i,
    {
        let b = *slice_index_get(data, i);
        if b == CR || b == LF {
            return Some(i);
        }
        i += 1;
    }
    None
}

/// Reads one CRLF-terminated header line beginning at `start`, returning
/// the index of its CR and the index just past its LF.
fn read_line(data: &[u8], start: usize) -> (r: Result<(usize, usize), ParseError>)
    requires
        start <= data@.len(),
    ensures
        match r {
            Ok((j, next)) => parse_crlf_line(data@, start as int) == LineOutcome::LineFound(
                data@.subrange(start as int, j as int),
                next as int,
            ) && start <= j && j + 2 == next && next <= data@.len(),
            Err(ParseError::Incomplete) => parse_crlf_line(data@, start as int) is LineIncomplete,
            Err(ParseError::Malformed) => parse_crlf_line(data@, start as int) is LineMalformed,
        },
{
    match scan_term(data, start) {
        None => Err(ParseError::Incomplete),
        Some(j) => {
            let n = data.len();
            if *slice_index_get(data, j) == LF {
                Err(ParseError::Malformed)
            } else if j + 1 >= n {
                Err(ParseError::Incomplete)
            } else if *slice_index_get(data, j + 1) == LF {
                Ok((j, j + 2))
            } else {
                Err(ParseError::Malformed)
            }
        },
    }
}

/// Reads the decimal number written between `start` and `end`. `None`
/// when the bytes are not one or more digits, or the value does not fit
/// in `usize`.
fn line_value(data: &[u8], start: usize, end: usize) -> (r: Option<usize>)
    requires
        start <= end <= data@.len(),
    ensures
        ({
            let content = data@.subrange(start as int, end as int);
            match r {
                Some(v) => content.len() >= 1 && all_digits(content) && dig_val(content) == v,
                None => !(content.len() >= 1 && all_digits(content)
                    && dig_val(content) <= usize::MAX),
            }
        }),
{
    let ghost content = data@.subrange(start as int, end as int);
    if start == end {
        return None;
    }
    let mut acc: u128 = 0;
    let mut over: bool = false;
    let mut i = start;
    while i < end
        invariant
            start <= i <= end,
            !over ==> acc == dig_val(data@.subrange(start as int, i as int))
                && acc <= usize::MAX,
            over ==> dig_val(data@.subrange(start as int, i as int)) > usize::MAX,
            forall|m: int| start <= m < i ==> is_digit(#[trigger] data@[m]),
        decreases end - i,
    {
        let b = *slice_index_get(data, i);
        if b < DIGIT_ZERO || b > DIGIT_NINE {
            proof {
                assert(content[i - start] == data@[i as int]);
                assert(!is_digit(content[i - start]));
            }
            return None;
        }
        proof {
            assert(data@.subrange(start as int, i + 1).drop_last()
                =~= data@.subrange(start as int, i as int));
            assert(data@.subrange(start as int, i + 1).last() == data@[i as int]);
        }
        let d = (b - DIGIT_ZERO) as u128;
        if over {
            proof {
                let prev = dig_val(data@.subrange(start as int, i as int));
                assert(dig_val(data@.subrange(start as int, i + 1)) == 10 * prev + (data@[i as int] - DIGIT_ZERO));
                assert(10 * prev >= prev);
            }
        } else {
            acc = acc * 10 + d;
            if acc > (usize::MAX as u128) {
                over = true;
            }
        }
        i += 1;
    }
    proof {
        assert(data@.subrange(start as int, end as int) == content);
        assert(content.len() >= 1);
        assert(all_digits(content));
    }
    if over {
        None
    } else {
        Some(acc as usize)
    }
}

/// Parses one frame from the front of `data`. On success the returned
/// count is the frame's full extent in bytes; `Incomplete` asks the
/// caller to supply more bytes and consumes nothing; `Malformed` means no
/// extension of `data` can parse.
pub fn parse_message(data: &[u8]) -> (r: Result<(RespResponse, usize), ParseError>)
    ensures
        parse_result_matches(data@, r, spec_parse(data@)),
    decreases data@.len(), 1int,
{
    if data.len() == 0 {
        return Err(ParseError::Incomplete);
    }
    let b = *slice_index_get(data, 0);
    if b == PLUS_BYTE {
        parse_simple_string(data)
    } else if b == DOLLAR_BYTE {
        parse_bulk_string(data)
    } else if b == STAR_BYTE {
        parse_array(data)
    } else {
        Err(ParseError::Malformed)
    }
}

/// Parses a simple string frame; `data[0]` is the `+` tag.
fn parse_simple_string(data: &[u8]) -> (r: Result<(RespResponse, usize), ParseError>)
    requires
        data@.len() >= 1,
    ensures
        parse_result_matches(data@, r, spec_parse_simple(data@)),
{
    match read_line(data, 1) {
        Err(e) => Err(e),
        Ok((j, next)) => {
            let content = slice_to_vec(slice_subrange(data, 1, j));
            Ok((RespResponse::SimpleString(content), next))
        },
    }
}

/// Parses a bulk string frame (or the null marker); `data[0]` is the `$`
/// tag, which this function does not itself examine.
pub fn parse_bulk_string(data: &[u8]) -> (r: Result<(RespResponse, usize), ParseError>)
    ensures
        parse_result_matches(data@, r, spec_parse_bulk(data@)),
{
    if data.len() < 1 {
        return Err(ParseError::Incomplete);
    }
    match read_line(data, 1) {
        Err(e) => Err(e),
        Ok((j, body)) => {
            let ghost content = data@.subrange(1, j as int);
            if j == 3 && *slice_index_get(data, 1) == MINUS_BYTE
                && *slice_index_get(data, 2) == DIGIT_ONE {
                proof {
                    assert(content.len() == 2 && content[0] == MINUS_BYTE
                        && content[1] == DIGIT_ONE);
                }
                return Ok((RespResponse::NullBulkString, body));
            }
            proof {
                if content.len() == 2 && content[0] == MINUS_BYTE && content[1] == DIGIT_ONE {
                    assert(j == 3 && data@[1] == MINUS_BYTE && data@[2] == DIGIT_ONE);
                }
            }
            match line_value(data, 1, j) {
                None => Err(ParseError::Malformed),
                Some(n) => {
                    let avail = data.len() - body;
                    if avail < 2 || avail - 2 < n {
                        return Err(ParseError::Incomplete);
                    }
                    if *slice_index_get(data, body + n) == CR
                        && *slice_index_get(data, body + n + 1) == LF {
                        let payload = slice_to_vec(slice_subrange(data, body, body + n));
                        Ok((RespResponse::BulkString(payload), body + n + 2))
                    } else {
                        Err(ParseError::Malformed)
                    }
                },
            }
        },
    }
}

/// Parses an array frame; `data[0]` is the `*` tag, which this function
/// does not itself examine.
pub fn parse_array(data: &[u8]) -> (r: Result<(RespResponse, usize), ParseError>)
    ensures
        parse_result_matches(data@, r, spec_parse_array(data@)),
    decreases data@.len(), 0int,
{
    if data.len() < 1 {
        return Err(ParseError::Incomplete);
    }
    match read_line(data, 1) {
        Err(e) => Err(e),
        Ok((j, body)) => {
            match line_value(data, 1, j) {
                None => Err(ParseError::Malformed),
                Some(n) => {
                    let rest = slice_subrange(data, body, data.len());
                    proof {
                        assert(rest@ =~= data@.skip(body as int));
                    }
                    match parse_elems(rest, n) {
                        Err(e) => Err(e),
                        Ok((frames, used)) => {
                            Ok((RespResponse::RespArray(frames), body + used))
                        },
                    }
                },
            }
        },
    }
}

/// Parses `n` consecutive frames from the front of `data`.
fn parse_elems(data: &[u8], n: usize) -> (r: Result<(Vec<RespResponse>, usize), ParseError>)
    ensures
        match r {
            Ok((fs, used)) => spec_parse_elems(data@, n as nat) == ElemsOutcome::ElemsFound(
                frames_of(fs@),
                used as nat,
            ) && used <= data@.len(),
            Err(ParseError::Incomplete) => spec_parse_elems(data@, n as nat) is ElemsIncomplete,
            Err(ParseError::Malformed) => spec_parse_elems(data@, n as nat) is ElemsMalformed,
        },
    decreases data@.len(), n + 2,
{
    if n == 0 {
        let out: Vec<RespResponse> = Vec::new();
        proof {
            assert(frames_of(out@) =~= Seq::<Frame>::empty());
        }
        return Ok((out, 0));
    }
    match parse_message(data) {
        Err(e) => Err(e),
        Ok((f, k)) => {
            let rest = slice_subrange(data, k, data.len());
            proof {
                assert(rest@ =~= data@.skip(k as int));
            }
            match parse_elems(rest, n - 1) {
                Err(e) => Err(e),
                Ok((fs, used)) => {
                    let mut out: Vec<RespResponse> = Vec::new();
                    out.push(f);
                    let mut fs = fs;
                    let ghost fs_view = fs@;
                    out.append(&mut fs);
                    proof {
                        lemma_frames_of_index(out@);
                        lemma_frames_of_index(fs_view);
                        assert(out@ =~= seq![out@[0]] + fs_view);
                        assert forall|j: int| 0 <= j < out@.len() implies
                            frames_of(out@)[j] == (seq![out@[0]@] + frames_of(fs_view))[j] by {
                            assert(frames_of(out@)[j] == frame_of(out@[j]));
                            if j >= 1 {
                                assert(out@[j] == fs_view[j - 1]);
                                assert(frames_of(fs_view)[j - 1] == frame_of(fs_view[j - 1]));
                            }
                        }
                        assert(frames_of(out@) =~= seq![out@[0]@] + frames_of(fs_view));
                    }
                    Ok((out, k + used))
                },
            }
        },
    }
}

} // verus!

verus! {

/// Why a top-level frame carries no command.
#[derive(Debug, Clone, Copy, PartialEq, Eq, Structural)]
pub enum CommandError {
    /// An array whose first element is not a bulk string.
    FirstNotBulk,
    /// Any other shape that names no command.
    NotCommand,
}

/// The command name and argument vector carried by a top-level frame:
/// only a non-empty array whose first element is a bulk string names a
/// command, the array itself (name included) being the argument vector.
/// Every other shape is a protocol error.
pub open spec fn spec_extract(f: Frame) -> Option<(Seq<u8>, Seq<Frame>)> {
    match f {
        Frame::Array(es) => if es.len() > 0 {
            match es[0] {
                Frame::Bulk(c) => Some((c, es)),
                _ => None,
            }
        } else {
            None
        },
        _ => None,
    }
}

impl RespResponse {
    /// Extracts the command name and argument vector, or says why the
    /// frame carries none.
    pub fn get_command_and_args(self) -> (r: Result<(Vec<u8>, Vec<RespResponse>), CommandError>)
        ensures
            match r {
                Ok((c, args)) => spec_extract(self@) == Some((c@, frames_of(args@))),
                Err(CommandError::FirstNotBulk) => self@ is Array
                    && self@->Array_0.len() > 0
                    && !(self@->Array_0[0] is Bulk)
                    && spec_extract(self@) is None,
                Err(CommandError::NotCommand) => spec_extract(self@) is None
                    && !(self@ is Array && self@->Array_0.len() > 0),
            },
    {
        match self {
            RespResponse::RespArray(arr) => {
                proof {
                    lemma_frames_of_index(arr@);
                }
                if arr.len() == 0 {
                    return Err(CommandError::NotCommand);
                }
                match &arr[0] {
                    RespResponse::BulkString(c) => {
                        let mut name: Vec<u8> = Vec::new();
                        push_bytes(&mut name, c.as_slice());
                        proof {
                            assert(name@ =~= c@);
                        }
                        Ok((name, arr))
                    },
                    _ => Err(CommandError::FirstNotBulk),
                }
            },
            _ => Err(CommandError::NotCommand),
        }
    }

    /// The payload of a string-bearing frame.
    pub fn get_value(&self) -> (r: Vec<u8>)
        requires
            self@ is Simple || self@ is Bulk,
        ensures
            self@ is Simple ==> r@ == self@->Simple_0,
            self@ is Bulk ==> r@ == self@->Bulk_0,
    {
        match self {
            RespResponse::SimpleString(s) => {
                let mut out: Vec<u8> = Vec::new();
                push_bytes(&mut out, s.as_slice());
                proof {
                    assert(out@ =~= s@);
                }
                out
            },
            RespResponse::BulkString(b) => {
                let mut out: Vec<u8> = Vec::new();
                push_bytes(&mut out, b.as_slice());
                proof {
                    assert(out@ =~= b@);
                }
                out
            },
            _ => {
                // unreachable by the precondition
                proof {
                    assert(false);
                }
                Vec::new()
            },
        }
    }
}

} // verus!
