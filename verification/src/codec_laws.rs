//! Laws relating the RESP serializer and parser.
//!
//! `lemma_round_trip`: parsing the serialization of any well-formed frame
//! yields that frame and consumes it entirely. `lemma_prefix_incomplete`:
//! every proper prefix of such a serialization parses as incomplete,
//! never as malformed. `lemma_bulk_transparent`: bulk payloads round-trip
//! byte for byte, whatever bytes they hold. `lemma_parsed_frame_wf`:
//! every frame the parser finds is well-formed, so the round-trip law
//! covers exactly the frames that come off the wire.

use vstd::prelude::*;
use crate::resp_response::{
    CR, LF, PLUS_BYTE, DOLLAR_BYTE, STAR_BYTE, MINUS_BYTE, DIGIT_ZERO, DIGIT_ONE,
    Frame, frame_wf, dec_digits, spec_serialize, spec_serialize_elems,
    ParseOutcome, ElemsOutcome, LineOutcome,
    is_term, scan_terminator, parse_crlf_line, is_digit, all_digits, dig_val,
    spec_parse, spec_parse_simple, spec_parse_bulk, spec_parse_array, spec_parse_elems,
};

verus! {

/// If `s[j]` is the first CR or LF at or after `i`, the scan finds it.
proof fn lemma_scan_finds(s: Seq<u8>, i: int, j: int)
    requires
        0 <= i <= j < s.len(),
        is_term(s[j]),
        forall|m: int| i <= m < j ==> !is_term(#[trigger] s[m]),
    ensures
        scan_terminator(s, i) == Some(j),
    decreases j - i,
{
    if i < j {
        lemma_scan_finds(s, i + 1, j);
    }
}

/// If no CR or LF occurs at or after `i`, the scan finds nothing.
proof fn lemma_scan_none(s: Seq<u8>, i: int)
    requires
        0 <= i,
        forall|m: int| i <= m < s.len() ==> !is_term(#[trigger] s[m]),
    ensures
        scan_terminator(s, i) is None,
    decreases s.len() - i,
{
    if i < s.len() {
        lemma_scan_none(s, i + 1);
    }
}

/// The decimal rendering of a number is one or more digits.
proof fn lemma_dec_digits_digits(n: nat)
    ensures
        dec_digits(n).len() >= 1,
        all_digits(dec_digits(n)),
    decreases n,
{
    if n >= 10 {
        lemma_dec_digits_digits(n / 10);
        let dd = dec_digits(n);
        let prev = dec_digits(n / 10);
        assert forall|i: int| 0 <= i < dd.len() implies is_digit(#[trigger] dd[i]) by {
            if i < prev.len() {
                assert(dd[i] == prev[i]);
            }
        }
    }
}

/// Reading back the decimal rendering of a number gives the number.
proof fn lemma_dig_val_dec_digits(n: nat)
    ensures
        dig_val(dec_digits(n)) == n,
    decreases n,
{
    if n < 10 {
        assert(dec_digits(n).drop_last() =~= Seq::<u8>::empty());
        assert(dec_digits(n).last() == (DIGIT_ZERO + n) as u8);
        assert((DIGIT_ZERO + n) as u8 == DIGIT_ZERO + n);
        assert(dig_val(Seq::<u8>::empty()) == 0);
    } else {
        lemma_dig_val_dec_digits(n / 10);
        assert(dec_digits(n).drop_last() =~= dec_digits(n / 10));
        assert(dec_digits(n).last() == (DIGIT_ZERO + n % 10) as u8);
        assert((DIGIT_ZERO + n % 10) as u8 == DIGIT_ZERO + n % 10);
        assert(dig_val(dec_digits(n)) == 10 * (n / 10) + n % 10);
        vstd::arithmetic::div_mod::lemma_fundamental_div_mod(n as int, 10);
        assert(n == 10 * (n / 10) + n % 10);
    }
}

/// Digits are neither line terminators nor a minus sign.
proof fn lemma_digits_not_term(s: Seq<u8>)
    requires
        all_digits(s),
    ensures
        forall|m: int| 0 <= m < s.len() ==> !is_term(#[trigger] s[m]),
        forall|m: int| 0 <= m < s.len() ==> #[trigger] s[m] != MINUS_BYTE,
{
    assert forall|m: int| 0 <= m < s.len() implies !is_term(#[trigger] s[m]) && s[m] != MINUS_BYTE by {
        assert(is_digit(s[m]));
    }
}

/// A line whose content sits at `start` in `s`, free of CR and LF and
/// closed by CRLF, is found exactly.
proof fn lemma_line_at(s: Seq<u8>, start: int, content: Seq<u8>)
    requires
        1 <= start,
        start + content.len() + 2 <= s.len(),
        forall|m: int| 0 <= m < content.len() ==> !is_term(#[trigger] content[m]),
        s.subrange(start, start + content.len()) == content,
        s[start + content.len()] == CR,
        s[start + content.len() + 1] == LF,
    ensures
        parse_crlf_line(s, start) == LineOutcome::LineFound(content, start + content.len() + 2),
{
    let j = start + content.len() as int;
    assert forall|m: int| start <= m < j implies !is_term(#[trigger] s[m]) by {
        assert(s[m] == content[m - start]);
    }
    lemma_scan_finds(s, start, j);
    assert(!is_term(CR) == false);
    assert(s[j] != LF);
}

/// Every serialized frame takes at least three bytes.
proof fn lemma_serialize_len(f: Frame)
    ensures
        spec_serialize(f).len() >= 3,
{
    match f {
        Frame::Simple(s) => {},
        Frame::Bulk(b) => {
            lemma_dec_digits_digits(b.len());
        },
        Frame::Null => {},
        Frame::Array(elems) => {
            lemma_dec_digits_digits(elems.len());
        },
    }
}

/// Parsing the serialization of a well-formed frame, followed by any
/// bytes at all, finds the frame and consumes exactly its serialization.
pub proof fn lemma_parse_serialize_prefix(f: Frame, rest: Seq<u8>)
    requires
        frame_wf(f),
    ensures
        spec_parse(spec_serialize(f) + rest) == ParseOutcome::Found(
            f,
            spec_serialize(f).len(),
        ),
    decreases f,
{
    let ser = spec_serialize(f);
    let s = ser + rest;
    match f {
        Frame::Simple(txt) => {
            assert(s[0] == PLUS_BYTE);
            assert(s.subrange(1, 1 + txt.len() as int) =~= txt);
            assert(s[1 + txt.len() as int] == CR);
            assert(s[1 + txt.len() as int + 1] == LF);
            lemma_line_at(s, 1, txt);
            assert(spec_parse_simple(s) == ParseOutcome::Found(Frame::Simple(txt), ser.len()));
        },
        Frame::Null => {
            assert(s[0] == DOLLAR_BYTE);
            let content = seq![MINUS_BYTE, DIGIT_ONE];
            assert(s.subrange(1, 3) =~= content);
            assert(s[3] == CR);
            assert(s[4] == LF);
            assert(forall|m: int| 0 <= m < 2 ==> !is_term(#[trigger] content[m]));
            lemma_line_at(s, 1, content);
            assert(spec_parse_bulk(s) == ParseOutcome::Found(Frame::Null, 5nat));
            assert(ser.len() == 5);
        },
        Frame::Bulk(b) => {
            assert(s[0] == DOLLAR_BYTE);
            let dd = dec_digits(b.len());
            lemma_dec_digits_digits(b.len());
            lemma_dig_val_dec_digits(b.len());
            lemma_digits_not_term(dd);
            let body = 1 + dd.len() as int + 2;
            assert(s.subrange(1, 1 + dd.len() as int) =~= dd);
            assert(s[1 + dd.len() as int] == CR);
            assert(s[1 + dd.len() as int + 1] == LF);
            lemma_line_at(s, 1, dd);
            assert(parse_crlf_line(s, 1) == LineOutcome::LineFound(dd, body));
            assert(dd[0] != MINUS_BYTE);
            assert(dig_val(dd) == b.len() <= usize::MAX);
            assert(s.len() >= body + b.len() + 2);
            assert(s[body + b.len() as int] == CR);
            assert(s[body + b.len() as int + 1] == LF);
            assert(s.subrange(body, body + b.len() as int) =~= b);
            assert(spec_parse_bulk(s) == ParseOutcome::Found(
                Frame::Bulk(b),
                (body + b.len() + 2) as nat,
            ));
            assert(ser.len() == body + b.len() + 2);
        },
        Frame::Array(elems) => {
            assert(s[0] == STAR_BYTE);
            let dd = dec_digits(elems.len());
            lemma_dec_digits_digits(elems.len());
            lemma_dig_val_dec_digits(elems.len());
            lemma_digits_not_term(dd);
            let body = 1 + dd.len() as int + 2;
            assert(s.subrange(1, 1 + dd.len() as int) =~= dd);
            assert(s[1 + dd.len() as int] == CR);
            assert(s[1 + dd.len() as int + 1] == LF);
            lemma_line_at(s, 1, dd);
            assert(dd[0] != MINUS_BYTE);
            assert(dig_val(dd) == elems.len() <= usize::MAX);
            assert(3 <= body <= s.len());
            assert(s.skip(body) =~= spec_serialize_elems(elems) + rest);
            lemma_parse_elems_serialize(elems, rest);
            assert(spec_parse_array(s) == ParseOutcome::Found(
                Frame::Array(elems),
                (body + spec_serialize_elems(elems).len()) as nat,
            ));
            assert(ser.len() == body + spec_serialize_elems(elems).len());
        },
    }
}

/// Parsing the concatenated serializations of well-formed frames,
/// followed by any bytes at all, finds exactly those frames.
pub proof fn lemma_parse_elems_serialize(elems: Seq<Frame>, rest: Seq<u8>)
    requires
        forall|i: int| 0 <= i < elems.len() ==> frame_wf(#[trigger] elems[i]),
    ensures
        spec_parse_elems(spec_serialize_elems(elems) + rest, elems.len()) == ElemsOutcome::ElemsFound(
            elems,
            spec_serialize_elems(elems).len(),
        ),
    decreases elems,
{
    let se = spec_serialize_elems(elems);
    let s = se + rest;
    if elems.len() == 0 {
        assert(spec_parse_elems(s, 0) == ElemsOutcome::ElemsFound(Seq::<Frame>::empty(), 0nat));
        assert(elems =~= Seq::<Frame>::empty());
    } else {
        let first = elems.first();
        let tail = elems.drop_first();
        let se_first = spec_serialize(first);
        let se_tail = spec_serialize_elems(tail);
        assert(frame_wf(first));
        assert(s =~= se_first + (se_tail + rest));
        lemma_parse_serialize_prefix(first, se_tail + rest);
        let k = se_first.len();
        lemma_serialize_len(first);
        assert(spec_parse(s) == ParseOutcome::Found(first, k));
        assert(1 <= k <= s.len());
        assert(s.skip(k as int) =~= se_tail + rest);
        assert(forall|i: int| 0 <= i < tail.len() ==> frame_wf(#[trigger] tail[i]));
        lemma_parse_elems_serialize(tail, rest);
        assert(spec_parse_elems(s.skip(k as int), (elems.len() - 1) as nat)
            == ElemsOutcome::ElemsFound(tail, se_tail.len()));
        assert(seq![first] + tail =~= elems);
        assert(spec_parse_elems(s, elems.len()) == ElemsOutcome::ElemsFound(
            elems,
            k + se_tail.len(),
        ));
        assert(se.len() == k + se_tail.len());
    }
}

/// Round-trip: for every frame the serializer can produce faithfully,
/// parsing its serialization yields that frame and the serialization's
/// whole length.
pub proof fn lemma_round_trip(f: Frame)
    requires
        frame_wf(f),
    ensures
        spec_parse(spec_serialize(f)) == ParseOutcome::Found(f, spec_serialize(f).len()),
{
    lemma_parse_serialize_prefix(f, Seq::empty());
    assert(spec_serialize(f) + Seq::<u8>::empty() =~= spec_serialize(f));
}

/// Byte-transparent bulk: any byte sequence at all — empty, or holding
/// CR, LF or NUL — survives a bulk-string round trip unchanged.
pub proof fn lemma_bulk_transparent(b: Seq<u8>)
    requires
        b.len() <= usize::MAX,
    ensures
        spec_parse(spec_serialize(Frame::Bulk(b))) == ParseOutcome::Found(
            Frame::Bulk(b),
            spec_serialize(Frame::Bulk(b)).len(),
        ),
{
    lemma_round_trip(Frame::Bulk(b));
}

} // verus!

verus! {

/// A proper prefix of the serialization of well-formed frames, handed to
/// the element parser, is reported incomplete.
proof fn lemma_elems_prefix_incomplete(elems: Seq<Frame>, q: Seq<u8>)
    requires
        forall|i: int| 0 <= i < elems.len() ==> frame_wf(#[trigger] elems[i]),
        q.len() < spec_serialize_elems(elems).len(),
        q == spec_serialize_elems(elems).take(q.len() as int),
    ensures
        spec_parse_elems(q, elems.len()) == ElemsOutcome::ElemsIncomplete,
    decreases elems,
{
    let se = spec_serialize_elems(elems);
    assert(elems.len() > 0);
    let first = elems.first();
    let tail = elems.drop_first();
    let sf = spec_serialize(first);
    let st = spec_serialize_elems(tail);
    assert(frame_wf(first));
    assert(se == sf + st);
    if q.len() < sf.len() {
        assert(q =~= sf.take(q.len() as int));
        lemma_prefix_incomplete(first, q);
        assert(spec_parse(q) == ParseOutcome::Incomplete);
    } else {
        let k = sf.len() as int;
        assert(q =~= sf + q.skip(k));
        lemma_parse_serialize_prefix(first, q.skip(k));
        lemma_serialize_len(first);
        assert(spec_parse(q) == ParseOutcome::Found(first, sf.len()));
        assert(1 <= k <= q.len());
        assert(q.skip(k) =~= st.take(q.len() - k));
        assert(q.len() - k < st.len());
        assert(forall|i: int| 0 <= i < tail.len() ==> frame_wf(#[trigger] tail[i]));
        lemma_elems_prefix_incomplete(tail, q.skip(k));
        assert(spec_parse_elems(q.skip(k), (elems.len() - 1) as nat)
            == ElemsOutcome::ElemsIncomplete);
    }
}

/// Prefix-incomplete: every proper prefix of the serialization of a
/// well-formed frame parses as incomplete — never as malformed, and
/// never as a found frame.
pub proof fn lemma_prefix_incomplete(f: Frame, p: Seq<u8>)
    requires
        frame_wf(f),
        p.len() < spec_serialize(f).len(),
        p == spec_serialize(f).take(p.len() as int),
    ensures
        spec_parse(p) == ParseOutcome::Incomplete,
    decreases f,
{
    let ser = spec_serialize(f);
    let c = p.len() as int;
    if c == 0 {
        return;
    }
    match f {
        Frame::Simple(txt) => {
            assert(p[0] == PLUS_BYTE);
            if c <= 1 + txt.len() {
                assert forall|m: int| 1 <= m < c implies !is_term(#[trigger] p[m]) by {
                    assert(p[m] == txt[m - 1]);
                }
                lemma_scan_none(p, 1);
            } else {
                let j = 1 + txt.len() as int;
                assert(c == j + 1);
                assert(p[j] == CR);
                assert forall|m: int| 1 <= m < j implies !is_term(#[trigger] p[m]) by {
                    assert(p[m] == txt[m - 1]);
                }
                lemma_scan_finds(p, 1, j);
            }
        },
        Frame::Null => {
            assert(ser =~= seq![DOLLAR_BYTE, MINUS_BYTE, DIGIT_ONE, CR, LF]);
            assert(p[0] == DOLLAR_BYTE);
            if c <= 3 {
                assert forall|m: int| 1 <= m < c implies !is_term(#[trigger] p[m]) by {
                    assert(p[m] == ser[m]);
                }
                lemma_scan_none(p, 1);
            } else {
                assert(c == 4);
                assert(p[3] == CR);
                assert forall|m: int| 1 <= m < 3 implies !is_term(#[trigger] p[m]) by {
                    assert(p[m] == ser[m]);
                }
                lemma_scan_finds(p, 1, 3);
            }
        },
        Frame::Bulk(b) => {
            assert(p[0] == DOLLAR_BYTE);
            let dd = dec_digits(b.len());
            lemma_dec_digits_digits(b.len());
            lemma_dig_val_dec_digits(b.len());
            lemma_digits_not_term(dd);
            let body = 1 + dd.len() as int + 2;
            if c <= 1 + dd.len() {
                assert forall|m: int| 1 <= m < c implies !is_term(#[trigger] p[m]) by {
                    assert(p[m] == dd[m - 1]);
                }
                lemma_scan_none(p, 1);
            } else if c == 2 + dd.len() {
                let j = 1 + dd.len() as int;
                assert(p[j] == CR);
                assert forall|m: int| 1 <= m < j implies !is_term(#[trigger] p[m]) by {
                    assert(p[m] == dd[m - 1]);
                }
                lemma_scan_finds(p, 1, j);
            } else {
                assert(c >= body);
                assert(p.subrange(1, 1 + dd.len() as int) =~= dd);
                assert(p[1 + dd.len() as int] == CR);
                assert(p[1 + dd.len() as int + 1] == LF);
                lemma_line_at(p, 1, dd);
                assert(parse_crlf_line(p, 1) == LineOutcome::LineFound(dd, body));
                assert(dd[0] != MINUS_BYTE);
                assert(dig_val(dd) == b.len() <= usize::MAX);
                assert(c < body + b.len() + 2);
                assert(spec_parse_bulk(p) == ParseOutcome::Incomplete);
            }
        },
        Frame::Array(elems) => {
            assert(p[0] == STAR_BYTE);
            let dd = dec_digits(elems.len());
            lemma_dec_digits_digits(elems.len());
            lemma_dig_val_dec_digits(elems.len());
            lemma_digits_not_term(dd);
            let body = 1 + dd.len() as int + 2;
            if c <= 1 + dd.len() {
                assert forall|m: int| 1 <= m < c implies !is_term(#[trigger] p[m]) by {
                    assert(p[m] == dd[m - 1]);
                }
                lemma_scan_none(p, 1);
            } else if c == 2 + dd.len() {
                let j = 1 + dd.len() as int;
                assert(p[j] == CR);
                assert forall|m: int| 1 <= m < j implies !is_term(#[trigger] p[m]) by {
                    assert(p[m] == dd[m - 1]);
                }
                lemma_scan_finds(p, 1, j);
            } else {
                assert(c >= body);
                assert(p.subrange(1, 1 + dd.len() as int) =~= dd);
                assert(p[1 + dd.len() as int] == CR);
                assert(p[1 + dd.len() as int + 1] == LF);
                lemma_line_at(p, 1, dd);
                assert(parse_crlf_line(p, 1) == LineOutcome::LineFound(dd, body));
                assert(dd[0] != MINUS_BYTE);
                assert(dig_val(dd) == elems.len() <= usize::MAX);
                assert(3 <= body <= p.len());
                let q = p.skip(body);
                assert(q =~= spec_serialize_elems(elems).take(q.len() as int));
                assert(q.len() < spec_serialize_elems(elems).len());
                lemma_elems_prefix_incomplete(elems, q);
                assert(spec_parse_array(p) == ParseOutcome::Incomplete);
            }
        },
    }
}

} // verus!

verus! {

/// What a successful scan says of the bytes it passed over: the found
/// index is the first CR or LF at or after `i`; a failed scan passed
/// over no CR or LF at all.
proof fn lemma_scan_bounds(s: Seq<u8>, i: int)
    requires
        0 <= i,
    ensures
        match scan_terminator(s, i) {
            Some(j) => i <= j < s.len() && is_term(s[j]) && (forall|m: int|
                i <= m < j ==> !is_term(#[trigger] s[m])),
            None => forall|m: int| i <= m < s.len() ==> !is_term(#[trigger] s[m]),
        },
    decreases s.len() - i,
{
    if i < s.len() && !is_term(s[i]) {
        lemma_scan_bounds(s, i + 1);
    }
}

/// A string of digits denotes a non-negative number.
proof fn lemma_dig_val_nonneg(s: Seq<u8>)
    requires
        all_digits(s),
    ensures
        dig_val(s) >= 0,
    decreases s.len(),
{
    if s.len() > 0 {
        assert(all_digits(s.drop_last())) by {
            assert(forall|m: int| 0 <= m < s.len() - 1 ==> s.drop_last()[m] == s[m]);
        }
        lemma_dig_val_nonneg(s.drop_last());
        assert(is_digit(s.last()));
    }
}

/// Every frame the parser finds is well-formed, so the round-trip law
/// applies directly to parser output.
pub proof fn lemma_parsed_frame_wf(s: Seq<u8>)
    ensures
        spec_parse(s) matches ParseOutcome::Found(f, n) ==> frame_wf(f),
    decreases s.len(), 1int,
{
    if s.len() == 0 {
        return;
    }
    lemma_scan_bounds(s, 1);
    if s[0] == PLUS_BYTE {
        match scan_terminator(s, 1) {
            Some(j) => {
                if s[j] != LF && j + 1 < s.len() && s[j + 1] == LF {
                    let content = s.subrange(1, j);
                    assert forall|m: int| 0 <= m < content.len() implies
                        content[m] != CR && content[m] != LF by {
                        assert(content[m] == s[1 + m]);
                        assert(!is_term(s[1 + m]));
                    }
                }
            },
            None => {},
        }
    } else if s[0] == DOLLAR_BYTE {
        match parse_crlf_line(s, 1) {
            LineOutcome::LineFound(content, body) => {
                if content.len() >= 1 && all_digits(content) {
                    lemma_dig_val_nonneg(content);
                }
            },
            _ => {},
        }
    } else if s[0] == STAR_BYTE {
        match parse_crlf_line(s, 1) {
            LineOutcome::LineFound(content, body) => {
                if content.len() >= 1 && all_digits(content) && dig_val(content) <= usize::MAX
                    && 3 <= body <= s.len() {
                    lemma_dig_val_nonneg(content);
                    lemma_parsed_elems_wf(s.skip(body), dig_val(content) as nat);
                }
            },
            _ => {},
        }
    }
}

/// Every run of frames the element parser finds has the asked-for count,
/// and each frame in it is well-formed.
pub proof fn lemma_parsed_elems_wf(s: Seq<u8>, n: nat)
    ensures
        spec_parse_elems(s, n) matches ElemsOutcome::ElemsFound(fs, used) ==> fs.len() == n
            && (forall|i: int| 0 <= i < fs.len() ==> frame_wf(#[trigger] fs[i])),
    decreases s.len(), n + 2,
{
    if n > 0 {
        match spec_parse(s) {
            ParseOutcome::Found(f, k) => {
                lemma_parsed_frame_wf(s);
                if 1 <= k <= s.len() {
                    lemma_parsed_elems_wf(s.skip(k as int), (n - 1) as nat);
                    match spec_parse_elems(s.skip(k as int), (n - 1) as nat) {
                        ElemsOutcome::ElemsFound(fs2, used2) => {
                            let fs = seq![f] + fs2;
                            assert forall|i: int| 0 <= i < fs.len() implies
                                frame_wf(#[trigger] fs[i]) by {
                                if i >= 1 {
                                    assert(fs[i] == fs2[i - 1]);
                                }
                            }
                        },
                        _ => {},
                    }
                }
            },
            _ => {},
        }
    }
}

} // verus!
