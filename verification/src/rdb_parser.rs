//! Decoder for the string subset of the RDB snapshot format.
//!
//! The file begins with a nine-byte header that is skipped, followed by
//! auxiliary records that are scanned past until the hash-table selector
//! opcode introduces the database section. Entries are then read in
//! order: an optional expiry opcode (seconds or milliseconds, little
//! endian) followed by a string-typed key/value pair. Decoding stops
//! cleanly at the end-of-file opcode, at an unrecognized record type, or
//! at an unsupported length encoding, keeping the pairs read so far; a
//! record cut off mid-way is an error.

use vstd::prelude::*;
use vstd::slice::{slice_index_get, slice_to_vec};
use crate::keyspace::Keyspace;
use crate::redis_item::{ItemModel, RedisItem};

verus! {

/// Value-type opcode for a plain string pair.
pub const VALUE_TYPE_STRING: u8 = 0;
/// Expiry opcode: eight little-endian bytes of milliseconds follow.
pub const EXPIRE_IN_MILLISECONDS: u8 = 252;
/// Expiry opcode: four little-endian bytes of seconds follow.
pub const EXPIRE_IN_SECONDS: u8 = 253;
/// Selector opcode that introduces the database section.
pub const HASH_TABLE_SELECTOR: u8 = 251;
/// End-of-file opcode.
pub const RDB_EOF: u8 = 255;

/// What decoding a length prefix yields.
pub enum LenOutcome {
    /// The length and the index just past its encoding.
    LenVal(int, int),
    /// An encoding this decoder does not understand.
    LenUnsupported,
    /// The buffer ends inside the encoding.
    LenTruncated,
}

/// What decoding a length-prefixed string yields.
pub enum StrOutcome {
    /// The bytes and the index just past them.
    StrVal(Seq<u8>, int),
    StrUnsupported,
    StrTruncated,
}

/// The little-endian 64-bit number at `i`.
pub open spec fn le64_at(s: Seq<u8>, i: int) -> int {
    s[i] + 256 * (s[i + 1] + 256 * (s[i + 2] + 256 * (s[i + 3] + 256 * (s[i + 4] + 256 * (s[i + 5]
        + 256 * (s[i + 6] + 256 * s[i + 7]))))))
}

/// The little-endian 32-bit number at `i`.
pub open spec fn le32_at(s: Seq<u8>, i: int) -> int {
    s[i] + 256 * (s[i + 1] + 256 * (s[i + 2] + 256 * s[i + 3]))
}

/// The big-endian 32-bit number at `i`.
pub open spec fn be32_at(s: Seq<u8>, i: int) -> int {
    s[i + 3] + 256 * (s[i + 2] + 256 * (s[i + 1] + 256 * s[i]))
}

/// Decodes a length prefix at `pos`: a byte below 64 is the length
/// itself; the two-byte form with high bits `01` carries fourteen bits;
/// the byte `0x80` is followed by a big-endian 32-bit length. Special
/// (integer or compressed) encodings are unsupported.
pub open spec fn spec_rdb_len(s: Seq<u8>, pos: int) -> LenOutcome {
    if pos < 0 || pos >= s.len() {
        LenOutcome::LenTruncated
    } else if s[pos] < 64 {
        LenOutcome::LenVal(s[pos] as int, pos + 1)
    } else if s[pos] < 128 {
        if pos + 1 < s.len() {
            LenOutcome::LenVal((s[pos] - 64) * 256 + s[pos + 1], pos + 2)
        } else {
            LenOutcome::LenTruncated
        }
    } else if s[pos] == 128 {
        if pos + 4 < s.len() {
            LenOutcome::LenVal(be32_at(s, pos + 1), pos + 5)
        } else {
            LenOutcome::LenTruncated
        }
    } else {
        LenOutcome::LenUnsupported
    }
}

/// Decodes a length-prefixed string at `pos`.
pub open spec fn spec_rdb_string(s: Seq<u8>, pos: int) -> StrOutcome {
    match spec_rdb_len(s, pos) {
        LenOutcome::LenVal(n, p) => if p + n <= s.len() {
            StrOutcome::StrVal(s.subrange(p, p + n), p + n)
        } else {
            StrOutcome::StrTruncated
        },
        LenOutcome::LenUnsupported => StrOutcome::StrUnsupported,
        LenOutcome::LenTruncated => StrOutcome::StrTruncated,
    }
}

/// Decodes the entries of the database section from `pos` on, with
/// `pending` the most recently seen expiry opcode not yet attached to a
/// pair. `None` is a malformed file: a record cut off mid-way. The pairs
/// come in file order; an entry with no preceding expiry opcode has none,
/// and a pending expiry is attached to the next pair only.
pub open spec fn spec_rdb_entries(s: Seq<u8>, pos: int, pending: Option<u64>) -> Option<
    Seq<(Seq<u8>, ItemModel)>,
>
    decreases s.len() - pos,
{
    if pos < 0 || pos >= s.len() {
        Some(Seq::empty())
    } else if s[pos] == RDB_EOF {
        Some(Seq::empty())
    } else if s[pos] == EXPIRE_IN_MILLISECONDS {
        if pos + 9 <= s.len() {
            spec_rdb_entries(s, pos + 9, Some(le64_at(s, pos + 1) as u64))
        } else {
            None
        }
    } else if s[pos] == EXPIRE_IN_SECONDS {
        if pos + 5 <= s.len() {
            spec_rdb_entries(s, pos + 5, Some((le32_at(s, pos + 1) * 1000) as u64))
        } else {
            None
        }
    } else if s[pos] == VALUE_TYPE_STRING {
        match spec_rdb_string(s, pos + 1) {
            StrOutcome::StrVal(k, p2) => match spec_rdb_string(s, p2) {
                StrOutcome::StrVal(v, p3) => if p3 <= pos || p3 > s.len() {
                    // a decoded string always ends past its length byte and
                    // inside the buffer; this arm only bounds the recursion
                    None
                } else {
                    match spec_rdb_entries(s, p3, None) {
                        Some(rest) => Some(
                            seq![(k, ItemModel { data: v, expires_at: pending })] + rest,
                        ),
                        None => None,
                    }
                },
                StrOutcome::StrUnsupported => Some(Seq::empty()),
                StrOutcome::StrTruncated => None,
            },
            StrOutcome::StrUnsupported => Some(Seq::empty()),
            StrOutcome::StrTruncated => None,
        }
    } else {
        Some(Seq::empty())
    }
}

/// The index of the first database-section selector at or after `i`.
pub open spec fn spec_find_selector(s: Seq<u8>, i: int) -> Option<int>
    decreases s.len() - i,
{
    if i < 0 || i >= s.len() {
        None
    } else if s[i] == HASH_TABLE_SELECTOR {
        Some(i)
    } else {
        spec_find_selector(s, i + 1)
    }
}

/// Where the database entries begin: past the nine-byte header, the
/// auxiliary section, the selector, and the two table-size integers that
/// follow it. When any of those is missing, cut off, or unsupported, the
/// whole buffer is skipped and the keyspace stays empty.
pub open spec fn spec_header_end(s: Seq<u8>) -> int {
    if s.len() < 9 {
        s.len() as int
    } else {
        match spec_find_selector(s, 9) {
            None => s.len() as int,
            Some(j) => match spec_rdb_len(s, j + 1) {
                LenOutcome::LenVal(n1, p1) => match spec_rdb_len(s, p1) {
                    LenOutcome::LenVal(n2, p2) => p2,
                    LenOutcome::LenUnsupported => s.len() as int,
                    LenOutcome::LenTruncated => s.len() as int,
                },
                LenOutcome::LenUnsupported => s.len() as int,
                LenOutcome::LenTruncated => s.len() as int,
            },
        }
    }
}

/// The pairs a whole snapshot file decodes to, or `None` when it is
/// malformed.
pub open spec fn spec_rdb_decode(s: Seq<u8>) -> Option<Seq<(Seq<u8>, ItemModel)>> {
    spec_rdb_entries(s, spec_header_end(s), None)
}

/// The keyspace described by a sequence of pairs: a later pair for the
/// same key overrides an earlier one.
pub open spec fn pairs_map(ps: Seq<(Seq<u8>, ItemModel)>) -> Map<Seq<u8>, ItemModel>
    decreases ps.len(),
{
    if ps.len() == 0 {
        Map::empty()
    } else {
        pairs_map(ps.drop_last()).insert(ps.last().0, ps.last().1)
    }
}

/// Why a snapshot could not be decoded.
#[derive(Debug, Clone, Copy, PartialEq, Eq, Structural)]
pub enum RdbError {
    /// A record was cut off by the end of the buffer.
    Truncated,
    /// A length encoding this decoder does not understand.
    UnsupportedLength,
}

} // verus!

verus! {

/// The little-endian 64-bit number starting at `pos`.
fn read_le64(contents: &[u8], pos: usize) -> (r: u64)
    requires
        pos + 8 <= contents@.len(),
    ensures
        r == le64_at(contents@, pos as int),
{
    let len = contents.len();
    let x0 = *slice_index_get(contents, pos) as u64;
    let x1 = *slice_index_get(contents, pos + 1) as u64;
    let x2 = *slice_index_get(contents, pos + 2) as u64;
    let x3 = *slice_index_get(contents, pos + 3) as u64;
    let x4 = *slice_index_get(contents, pos + 4) as u64;
    let x5 = *slice_index_get(contents, pos + 5) as u64;
    let x6 = *slice_index_get(contents, pos + 6) as u64;
    let x7 = *slice_index_get(contents, pos + 7) as u64;
    let t6 = x6 + 256 * x7;
    proof {
        assert(t6 <= 0xffff);
    }
    let t5 = x5 + 256 * t6;
    proof {
        assert(t5 <= 0xffffff);
    }
    let t4 = x4 + 256 * t5;
    proof {
        assert(t4 <= 0xffffffff);
    }
    let t3 = x3 + 256 * t4;
    proof {
        assert(t3 <= 0xffffffffff);
    }
    let t2 = x2 + 256 * t3;
    proof {
        assert(t2 <= 0xffffffffffff);
    }
    let t1 = x1 + 256 * t2;
    proof {
        assert(t1 <= 0xffffffffffffff);
    }
    x0 + 256 * t1
}

/// The little-endian 32-bit number starting at `pos`.
fn read_le32(contents: &[u8], pos: usize) -> (r: u64)
    requires
        pos + 4 <= contents@.len(),
    ensures
        r == le32_at(contents@, pos as int),
        r <= 0xffffffff,
{
    let len = contents.len();
    let x0 = *slice_index_get(contents, pos) as u64;
    let x1 = *slice_index_get(contents, pos + 1) as u64;
    let x2 = *slice_index_get(contents, pos + 2) as u64;
    let x3 = *slice_index_get(contents, pos + 3) as u64;
    let t2 = x2 + 256 * x3;
    proof {
        assert(t2 <= 0xffff);
    }
    let t1 = x1 + 256 * t2;
    proof {
        assert(t1 <= 0xffffff);
    }
    x0 + 256 * t1
}

/// Decodes a length prefix at `pos`.
pub fn decode_length(contents: &[u8], pos: usize) -> (r: Result<(usize, usize), RdbError>)
    ensures
        match r {
            Ok((n, p)) => spec_rdb_len(contents@, pos as int) == LenOutcome::LenVal(
                n as int,
                p as int,
            ) && pos < p <= contents@.len(),
            Err(RdbError::UnsupportedLength) => spec_rdb_len(contents@, pos as int)
                is LenUnsupported,
            Err(RdbError::Truncated) => spec_rdb_len(contents@, pos as int) is LenTruncated,
        },
{
    let len = contents.len();
    if pos >= len {
        return Err(RdbError::Truncated);
    }
    let b = *slice_index_get(contents, pos);
    if b < 64 {
        Ok(((b as usize), pos + 1))
    } else if b < 128 {
        if len - pos > 1 {
            let lo = *slice_index_get(contents, pos + 1);
            let n = ((b - 64) as usize) * 256 + (lo as usize);
            Ok((n, pos + 2))
        } else {
            Err(RdbError::Truncated)
        }
    } else if b == 128 {
        if len - pos > 4 {
            let x0 = *slice_index_get(contents, pos + 1) as usize;
            let x1 = *slice_index_get(contents, pos + 2) as usize;
            let x2 = *slice_index_get(contents, pos + 3) as usize;
            let x3 = *slice_index_get(contents, pos + 4) as usize;
            let t2 = x1 + 256 * x0;
            proof {
                assert(t2 <= 0xffff);
            }
            let t1 = x2 + 256 * t2;
            proof {
                assert(t1 <= 0xffffff);
            }
            let t0 = x3 + 256 * t1;
            proof {
                assert(t0 <= 0xffffffff);
                assert(t0 == be32_at(contents@, pos + 1));
            }
            Ok((t0, pos + 5))
        } else {
            Err(RdbError::Truncated)
        }
    } else {
        Err(RdbError::UnsupportedLength)
    }
}

/// Decodes a length-prefixed string at `pos`.
pub fn get_decoded_string(contents: &[u8], pos: usize) -> (r: Result<(Vec<u8>, usize), RdbError>)
    ensures
        match r {
            Ok((v, p)) => spec_rdb_string(contents@, pos as int) == StrOutcome::StrVal(
                v@,
                p as int,
            ) && pos < p <= contents@.len(),
            Err(RdbError::UnsupportedLength) => spec_rdb_string(contents@, pos as int)
                is StrUnsupported,
            Err(RdbError::Truncated) => spec_rdb_string(contents@, pos as int) is StrTruncated,
        },
{
    match decode_length(contents, pos) {
        Err(e) => Err(e),
        Ok((n, p)) => {
            if n <= contents.len() - p {
                let v = slice_to_vec(vstd::slice::slice_subrange(contents, p, p + n));
                Ok((v, p + n))
            } else {
                Err(RdbError::Truncated)
            }
        },
    }
}

/// Decodes an eight-byte little-endian millisecond expiry at `pos`.
pub fn get_decoded_expiry_time_ms(contents: &[u8], pos: usize) -> (r: Result<
    (u64, usize),
    RdbError,
>)
    ensures
        match r {
            Ok((ms, p)) => pos + 8 <= contents@.len() && ms == le64_at(contents@, pos as int)
                && p == pos + 8,
            Err(e) => e == RdbError::Truncated && pos + 8 > contents@.len(),
        },
{
    let len = contents.len();
    if len < 8 || pos > len - 8 {
        return Err(RdbError::Truncated);
    }
    let ms = read_le64(contents, pos);
    Ok((ms, pos + 8))
}

/// Decodes a four-byte little-endian second expiry at `pos`, returned in
/// milliseconds.
pub fn get_decoded_expiry_time_seconds(contents: &[u8], pos: usize) -> (r: Result<
    (u64, usize),
    RdbError,
>)
    ensures
        match r {
            Ok((ms, p)) => pos + 4 <= contents@.len() && ms == le32_at(contents@, pos as int)
                * 1000 && p == pos + 4,
            Err(e) => e == RdbError::Truncated && pos + 4 > contents@.len(),
        },
{
    let len = contents.len();
    if len < 4 || pos > len - 4 {
        return Err(RdbError::Truncated);
    }
    let secs = read_le32(contents, pos);
    Ok((secs * 1000, pos + 4))
}

/// Skips the header and auxiliary section: the position just past the
/// database selector and its two table-size integers, or the buffer's end
/// when there is no decodable database section.
pub fn skip_header_metadata(contents: &[u8]) -> (r: usize)
    ensures
        r == spec_header_end(contents@),
        r <= contents@.len(),
{
    let len = contents.len();
    if len < 9 {
        return len;
    }
    let mut i: usize = 9;
    while i < len
        invariant
            9 <= i <= len,
            len == contents@.len(),
            spec_find_selector(contents@, 9) == spec_find_selector(contents@, i as int),
        decreases len - i,
    {
        if *slice_index_get(contents, i) == HASH_TABLE_SELECTOR {
            match decode_length(contents, i + 1) {
                Err(_) => {
                    return len;
                },
                Ok((_, p1)) => {
                    match decode_length(contents, p1) {
                        Err(_) => {
                            return len;
                        },
                        Ok((_, p2)) => {
                            return p2;
                        },
                    }
                },
            }
        }
        i += 1;
    }
    len
}

/// Decodes the snapshot bytes into a keyspace. A malformed file (a record
/// cut off mid-way) is an error; everything the format rules stop at —
/// the end-of-file opcode, an unrecognized record type, an unsupported
/// length encoding — cleanly keeps the pairs read so far.
pub fn parse_rdb_file(contents: &[u8]) -> (r: Result<Keyspace, RdbError>)
    ensures
        match r {
            Ok(ks) => ks.wf() && (spec_rdb_decode(contents@) matches Some(ps) && ks@
                == pairs_map(ps)),
            Err(e) => spec_rdb_decode(contents@) is None,
        },
{
    let n = contents.len();
    let mut ks = Keyspace::new();
    let mut pending: Option<u64> = None;
    let mut pos = skip_header_metadata(contents);
    let ghost mut done: Seq<(Seq<u8>, ItemModel)> = Seq::empty();
    proof {
        assert(pairs_map(done) =~= Map::<Seq<u8>, ItemModel>::empty());
    }
    while pos < n
        invariant
            n == contents@.len(),
            pos <= n,
            ks.wf(),
            ks@ == pairs_map(done),
            match spec_rdb_entries(contents@, pos as int, pending) {
                Some(rest) => spec_rdb_decode(contents@) == Some(done + rest),
                None => spec_rdb_decode(contents@) is None,
            },
        decreases n - pos,
    {
        let b = *slice_index_get(contents, pos);
        if b == RDB_EOF {
            proof {
                assert(done + Seq::<(Seq<u8>, ItemModel)>::empty() =~= done);
            }
            return Ok(ks);
        } else if b == EXPIRE_IN_MILLISECONDS {
            match get_decoded_expiry_time_ms(contents, pos + 1) {
                Err(_) => {
                    return Err(RdbError::Truncated);
                },
                Ok((ms, p)) => {
                    pending = Some(ms);
                    pos = p;
                },
            }
        } else if b == EXPIRE_IN_SECONDS {
            match get_decoded_expiry_time_seconds(contents, pos + 1) {
                Err(_) => {
                    return Err(RdbError::Truncated);
                },
                Ok((ms, p)) => {
                    pending = Some(ms);
                    pos = p;
                },
            }
        } else if b == VALUE_TYPE_STRING {
            match get_decoded_string(contents, pos + 1) {
                Err(RdbError::Truncated) => {
                    return Err(RdbError::Truncated);
                },
                Err(RdbError::UnsupportedLength) => {
                    proof {
                        assert(done + Seq::<(Seq<u8>, ItemModel)>::empty() =~= done);
                    }
                    return Ok(ks);
                },
                Ok((key, p2)) => {
                    match get_decoded_string(contents, p2) {
                        Err(RdbError::Truncated) => {
                            return Err(RdbError::Truncated);
                        },
                        Err(RdbError::UnsupportedLength) => {
                            proof {
                                assert(done + Seq::<(Seq<u8>, ItemModel)>::empty() =~= done);
                            }
                            return Ok(ks);
                        },
                        Ok((value, p3)) => {
                            let item = match pending {
                                Some(t) => RedisItem::new_with_expiration(value, t),
                                None => RedisItem::new(value),
                            };
                            let ghost pair = (key@, item@);
                            let ghost done0 = done;
                            ks.insert(key, item);
                            proof {
                                done = done.push(pair);
                                assert(done.drop_last() =~= done0);
                                assert(ks@ == pairs_map(done));
                                match spec_rdb_entries(contents@, p3 as int, None) {
                                    Some(rest2) => {
                                        assert(done0 + (seq![pair] + rest2) =~= done + rest2);
                                    },
                                    None => {},
                                }
                            }
                            pending = None;
                            pos = p3;
                        },
                    }
                },
            }
        } else {
            proof {
                assert(done + Seq::<(Seq<u8>, ItemModel)>::empty() =~= done);
            }
            return Ok(ks);
        }
    }
    proof {
        assert(done + Seq::<(Seq<u8>, ItemModel)>::empty() =~= done);
    }
    Ok(ks)
}

/// Holds snapshot bytes and populates a keyspace from them.
#[derive(Debug)]
pub struct RdbParser {
    contents: Vec<u8>,
}

impl View for RdbParser {
    type V = Seq<u8>;

    closed spec fn view(&self) -> Seq<u8> {
        self.contents@
    }
}

impl RdbParser {
    /// Wraps the bytes of a snapshot file. An empty buffer decodes to an
    /// empty keyspace, so a missing file can be given as no bytes.
    pub fn new(contents: Vec<u8>) -> (r: Self)
        ensures
            r@ == contents@,
    {
        RdbParser { contents }
    }

    /// Decodes the snapshot into the initial keyspace.
    pub fn populate_database(self) -> (r: Result<Keyspace, RdbError>)
        ensures
            match r {
                Ok(ks) => ks.wf() && (spec_rdb_decode(self@) matches Some(ps) && ks@
                    == pairs_map(ps)),
                Err(e) => spec_rdb_decode(self@) is None,
            },
    {
        parse_rdb_file(self.contents.as_slice())
    }
}

} // verus!
