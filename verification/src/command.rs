//! The command set: PING, ECHO, SET/GET with optional PX expiry,
//! CONFIG GET, and KEYS, dispatched case-insensitively by name.
//!
//! Every handler is a pure function of its arguments, the keyspace, the
//! startup configuration, and the current time in milliseconds; the
//! caller supplies the clock reading.

use vstd::prelude::*;
use vstd::slice::slice_to_vec;
use crate::arg_handler::{ArgHandler, ConfigModel};
use crate::keyspace::{Keyspace, bytes_eq, lookup_model};
use crate::redis_item::{RedisItem, ItemModel};
use crate::resp_response::{
    RespResponse, Frame, frame_of, frames_of, lemma_frames_of_index, all_digits, dig_val,
    is_digit, DIGIT_ZERO, DIGIT_NINE,
};

verus! {

/// The bytes of `PING`.
pub open spec fn ping_bytes() -> Seq<u8> {
    seq![80u8, 73u8, 78u8, 71u8]
}

/// The bytes of `PONG`.
pub open spec fn pong_bytes() -> Seq<u8> {
    seq![80u8, 79u8, 78u8, 71u8]
}

/// The bytes of `ECHO`.
pub open spec fn echo_bytes() -> Seq<u8> {
    seq![69u8, 67u8, 72u8, 79u8]
}

/// The bytes of `SET`.
pub open spec fn set_bytes() -> Seq<u8> {
    seq![83u8, 69u8, 84u8]
}

/// The bytes of `GET`.
pub open spec fn get_bytes() -> Seq<u8> {
    seq![71u8, 69u8, 84u8]
}

/// The bytes of `CONFIG`.
pub open spec fn config_bytes() -> Seq<u8> {
    seq![67u8, 79u8, 78u8, 70u8, 73u8, 71u8]
}

/// The bytes of `KEYS`.
pub open spec fn keys_bytes() -> Seq<u8> {
    seq![75u8, 69u8, 89u8, 83u8]
}

/// The bytes of `PX`.
pub open spec fn px_bytes() -> Seq<u8> {
    seq![80u8, 88u8]
}

/// The bytes of `OK`.
pub open spec fn ok_bytes() -> Seq<u8> {
    seq![79u8, 75u8]
}

/// The bytes of `dir`.
pub open spec fn dir_bytes() -> Seq<u8> {
    seq![100u8, 105u8, 114u8]
}

/// The bytes of `dbfilename`.
pub open spec fn dbfilename_bytes() -> Seq<u8> {
    seq![100u8, 98u8, 102u8, 105u8, 108u8, 101u8, 110u8, 97u8, 109u8, 101u8]
}

/// The bytes of `*`.
pub open spec fn star_bytes() -> Seq<u8> {
    seq![42u8]
}

/// The bytes of `-ERR unknown command`.
pub open spec fn err_unknown_bytes() -> Seq<u8> {
    seq![45u8, 69u8, 82u8, 82u8, 32u8, 117u8, 110u8, 107u8, 110u8, 111u8, 119u8, 110u8, 32u8, 99u8, 111u8, 109u8, 109u8, 97u8, 110u8, 100u8]
}

/// The bytes of `-ERR wrong number of arguments`.
pub open spec fn err_args_bytes() -> Seq<u8> {
    seq![45u8, 69u8, 82u8, 82u8, 32u8, 119u8, 114u8, 111u8, 110u8, 103u8, 32u8, 110u8, 117u8, 109u8, 98u8, 101u8, 114u8, 32u8, 111u8, 102u8, 32u8, 97u8, 114u8, 103u8, 117u8, 109u8, 101u8, 110u8, 116u8, 115u8]
}

/// The bytes of `PING`.
pub fn ping_vec() -> (r: Vec<u8>)
    ensures
        r@ == ping_bytes(),
{
    let a: [u8; 4] = [80u8, 73u8, 78u8, 71u8];
    proof {
        assert(a@ =~= ping_bytes());
    }
    slice_to_vec(a.as_slice())
}

/// The bytes of `PONG`.
pub fn pong_vec() -> (r: Vec<u8>)
    ensures
        r@ == pong_bytes(),
{
    let a: [u8; 4] = [80u8, 79u8, 78u8, 71u8];
    proof {
        assert(a@ =~= pong_bytes());
    }
    slice_to_vec(a.as_slice())
}

/// The bytes of `ECHO`.
pub fn echo_vec() -> (r: Vec<u8>)
    ensures
        r@ == echo_bytes(),
{
    let a: [u8; 4] = [69u8, 67u8, 72u8, 79u8];
    proof {
        assert(a@ =~= echo_bytes());
    }
    slice_to_vec(a.as_slice())
}

/// The bytes of `SET`.
pub fn set_vec() -> (r: Vec<u8>)
    ensures
        r@ == set_bytes(),
{
    let a: [u8; 3] = [83u8, 69u8, 84u8];
    proof {
        assert(a@ =~= set_bytes());
    }
    slice_to_vec(a.as_slice())
}

/// The bytes of `GET`.
pub fn get_vec() -> (r: Vec<u8>)
    ensures
        r@ == get_bytes(),
{
    let a: [u8; 3] = [71u8, 69u8, 84u8];
    proof {
        assert(a@ =~= get_bytes());
    }
    slice_to_vec(a.as_slice())
}

/// The bytes of `CONFIG`.
pub fn config_vec() -> (r: Vec<u8>)
    ensures
        r@ == config_bytes(),
{
    let a: [u8; 6] = [67u8, 79u8, 78u8, 70u8, 73u8, 71u8];
    proof {
        assert(a@ =~= config_bytes());
    }
    slice_to_vec(a.as_slice())
}

/// The bytes of `KEYS`.
pub fn keys_vec() -> (r: Vec<u8>)
    ensures
        r@ == keys_bytes(),
{
    let a: [u8; 4] = [75u8, 69u8, 89u8, 83u8];
    proof {
        assert(a@ =~= keys_bytes());
    }
    slice_to_vec(a.as_slice())
}

/// The bytes of `PX`.
pub fn px_vec() -> (r: Vec<u8>)
    ensures
        r@ == px_bytes(),
{
    let a: [u8; 2] = [80u8, 88u8];
    proof {
        assert(a@ =~= px_bytes());
    }
    slice_to_vec(a.as_slice())
}

/// The bytes of `OK`.
pub fn ok_vec() -> (r: Vec<u8>)
    ensures
        r@ == ok_bytes(),
{
    let a: [u8; 2] = [79u8, 75u8];
    proof {
        assert(a@ =~= ok_bytes());
    }
    slice_to_vec(a.as_slice())
}

/// The bytes of `dir`.
pub fn dir_vec() -> (r: Vec<u8>)
    ensures
        r@ == dir_bytes(),
{
    let a: [u8; 3] = [100u8, 105u8, 114u8];
    proof {
        assert(a@ =~= dir_bytes());
    }
    slice_to_vec(a.as_slice())
}

/// The bytes of `dbfilename`.
pub fn dbfilename_vec() -> (r: Vec<u8>)
    ensures
        r@ == dbfilename_bytes(),
{
    let a: [u8; 10] = [100u8, 98u8, 102u8, 105u8, 108u8, 101u8, 110u8, 97u8, 109u8, 101u8];
    proof {
        assert(a@ =~= dbfilename_bytes());
    }
    slice_to_vec(a.as_slice())
}

/// The bytes of `*`.
pub fn star_vec() -> (r: Vec<u8>)
    ensures
        r@ == star_bytes(),
{
    let a: [u8; 1] = [42u8];
    proof {
        assert(a@ =~= star_bytes());
    }
    slice_to_vec(a.as_slice())
}

/// The bytes of `-ERR unknown command`.
pub fn err_unknown_vec() -> (r: Vec<u8>)
    ensures
        r@ == err_unknown_bytes(),
{
    let a: [u8; 20] = [45u8, 69u8, 82u8, 82u8, 32u8, 117u8, 110u8, 107u8, 110u8, 111u8, 119u8, 110u8, 32u8, 99u8, 111u8, 109u8, 109u8, 97u8, 110u8, 100u8];
    proof {
        assert(a@ =~= err_unknown_bytes());
    }
    slice_to_vec(a.as_slice())
}

/// The bytes of `-ERR wrong number of arguments`.
pub fn err_args_vec() -> (r: Vec<u8>)
    ensures
        r@ == err_args_bytes(),
{
    let a: [u8; 30] = [45u8, 69u8, 82u8, 82u8, 32u8, 119u8, 114u8, 111u8, 110u8, 103u8, 32u8, 110u8, 117u8, 109u8, 98u8, 101u8, 114u8, 32u8, 111u8, 102u8, 32u8, 97u8, 114u8, 103u8, 117u8, 109u8, 101u8, 110u8, 116u8, 115u8];
    proof {
        assert(a@ =~= err_args_bytes());
    }
    slice_to_vec(a.as_slice())
}

/// The bytes of `-ERR invalid request`.
pub open spec fn err_proto_bytes() -> Seq<u8> {
    seq![45u8, 69u8, 82u8, 82u8, 32u8, 105u8, 110u8, 118u8, 97u8, 108u8, 105u8, 100u8, 32u8, 114u8, 101u8, 113u8, 117u8, 101u8, 115u8, 116u8]
}

/// The bytes of `-ERR invalid request`.
pub fn err_proto_vec() -> (r: Vec<u8>)
    ensures
        r@ == err_proto_bytes(),
{
    let a: [u8; 20] = [45u8, 69u8, 82u8, 82u8, 32u8, 105u8, 110u8, 118u8, 97u8, 108u8, 105u8, 100u8, 32u8, 114u8, 101u8, 113u8, 117u8, 101u8, 115u8, 116u8];
    proof {
        assert(a@ =~= err_proto_bytes());
    }
    slice_to_vec(a.as_slice())
}

/// A byte with any ASCII lower-case letter raised to upper case.
pub open spec fn upper_byte(b: u8) -> u8 {
    if 97 <= b && b <= 122 {
        (b - 32) as u8
    } else {
        b
    }
}

/// ASCII upper-casing of a byte string.
pub open spec fn upper(s: Seq<u8>) -> Seq<u8> {
    s.map_values(|b: u8| upper_byte(b))
}

/// ASCII upper-casing, byte by byte.
pub fn to_upper(s: &Vec<u8>) -> (r: Vec<u8>)
    ensures
        r@ == upper(s@),
{
    let n = s.len();
    let mut out: Vec<u8> = Vec::new();
    let mut i: usize = 0;
    while i < n
        invariant
            n == s@.len(),
            i <= n,
            out@.len() == i,
            forall|j: int| 0 <= j < i ==> out@[j] == upper_byte(#[trigger] s@[j]),
        decreases n - i,
    {
        let b = s[i];
        if 97 <= b && b <= 122 {
            out.push(b - 32);
        } else {
            out.push(b);
        }
        i += 1;
    }
    proof {
        assert(out@ =~= upper(s@));
    }
    out
}

/// The string payload of argument `i`, when it exists and is a simple or
/// bulk string.
pub open spec fn spec_arg_value(args: Seq<Frame>, i: int) -> Option<Seq<u8>> {
    if 0 <= i < args.len() {
        match args[i] {
            Frame::Simple(s) => Some(s),
            Frame::Bulk(b) => Some(b),
            _ => None,
        }
    } else {
        None
    }
}

/// Fetches the string payload of argument `i`.
pub fn arg_value(args: &Vec<RespResponse>, i: usize) -> (r: Option<Vec<u8>>)
    ensures
        match r {
            Some(v) => spec_arg_value(frames_of(args@), i as int) == Some(v@),
            None => spec_arg_value(frames_of(args@), i as int) is None,
        },
{
    proof {
        lemma_frames_of_index(args@);
    }
    if i >= args.len() {
        return None;
    }
    match &args[i] {
        RespResponse::SimpleString(s) => Some(slice_to_vec(s.as_slice())),
        RespResponse::BulkString(b) => Some(slice_to_vec(b.as_slice())),
        _ => None,
    }
}

/// The number denoted by a byte string of decimal digits, when it is one
/// and fits in `u64`.
pub open spec fn spec_parse_u64(s: Seq<u8>) -> Option<u64> {
    if s.len() >= 1 && all_digits(s) && dig_val(s) <= u64::MAX {
        Some(dig_val(s) as u64)
    } else {
        None
    }
}

/// Reads a decimal `u64` from a byte string.
pub fn parse_u64_dec(s: &Vec<u8>) -> (r: Option<u64>)
    ensures
        r == spec_parse_u64(s@),
{
    let n = s.len();
    if n == 0 {
        return None;
    }
    let mut acc: u128 = 0;
    let mut over: bool = false;
    let mut i: usize = 0;
    while i < n
        invariant
            i <= n,
            !over ==> acc == dig_val(s@.subrange(0, i as int)) && acc <= u64::MAX,
            over ==> dig_val(s@.subrange(0, i as int)) > u64::MAX,
            forall|m: int| 0 <= m < i ==> is_digit(#[trigger] s@[m]),
        decreases n - i,
    {
        let b = s[i];
        if b < DIGIT_ZERO || b > DIGIT_NINE {
            proof {
                assert(!is_digit(s@[i as int]));
            }
            return None;
        }
        proof {
            assert(s@.subrange(0, i + 1).drop_last() =~= s@.subrange(0, i as int));
            assert(s@.subrange(0, i + 1).last() == s@[i as int]);
        }
        let d = (b - DIGIT_ZERO) as u128;
        if over {
            proof {
                let prev = dig_val(s@.subrange(0, i as int));
                assert(dig_val(s@.subrange(0, i + 1)) == 10 * prev + (s@[i as int] - DIGIT_ZERO));
                assert(10 * prev >= prev);
            }
        } else {
            acc = acc * 10 + d;
            if acc > (u64::MAX as u128) {
                over = true;
            }
        }
        i += 1;
    }
    proof {
        assert(s@.subrange(0, n as int) =~= s@);
        assert(all_digits(s@));
    }
    if over {
        None
    } else {
        Some(acc as u64)
    }
}

/// `now + delta` in milliseconds, capped at the largest representable
/// instant.
pub open spec fn spec_saturating_add(a: u64, b: u64) -> u64 {
    if a + b <= u64::MAX {
        (a + b) as u64
    } else {
        u64::MAX
    }
}

/// The absolute expiration a SET command asks for: present exactly when
/// argument 3 upper-cases to `PX` and argument 4 is a decimal
/// millisecond count, in which case it is `now_ms` plus that count.
pub open spec fn spec_expiry(args: Seq<Frame>, now_ms: u64) -> Option<u64> {
    match (spec_arg_value(args, 3), spec_arg_value(args, 4)) {
        (Some(px), Some(msb)) => if upper(px) == px_bytes() {
            match spec_parse_u64(msb) {
                Some(ms) => Some(spec_saturating_add(now_ms, ms)),
                None => None,
            }
        } else {
            None
        },
        _ => None,
    }
}

/// Reads the optional `PX <milliseconds>` clause of a SET command and
/// turns it into an absolute expiration instant.
pub fn parse_expiration(args: &Vec<RespResponse>, now_ms: u64) -> (r: Option<u64>)
    ensures
        r == spec_expiry(frames_of(args@), now_ms),
{
    let px = match arg_value(args, 3) {
        Some(px) => px,
        None => {
            return None;
        },
    };
    let msb = match arg_value(args, 4) {
        Some(msb) => msb,
        None => {
            return None;
        },
    };
    let upper_px = to_upper(&px);
    if !bytes_eq(upper_px.as_slice(), px_vec().as_slice()) {
        return None;
    }
    match parse_u64_dec(&msb) {
        None => None,
        Some(ms) => {
            if now_ms <= u64::MAX - ms {
                Some(now_ms + ms)
            } else {
                Some(u64::MAX)
            }
        },
    }
}

/// PING: the fixed `PONG` reply.
pub fn handle_ping_command() -> (r: RespResponse)
    ensures
        r@ == Frame::Simple(pong_bytes()),
{
    let v = pong_vec();
    RespResponse::SimpleString(v)
}

/// ECHO's reply: argument 1 unchanged, or an arity error without it.
pub open spec fn spec_echo(args: Seq<Frame>) -> Frame {
    if args.len() >= 2 {
        args[1]
    } else {
        Frame::Simple(err_args_bytes())
    }
}

/// ECHO: returns its argument as it came.
pub fn handle_echo_command(args: &Vec<RespResponse>) -> (r: RespResponse)
    ensures
        r@ == spec_echo(frames_of(args@)),
{
    proof {
        lemma_frames_of_index(args@);
    }
    if args.len() >= 2 {
        args[1].clone()
    } else {
        RespResponse::SimpleString(err_args_vec())
    }
}

/// The keyspace after a SET command: the key maps to the new value with
/// the expiry the command asked for (any earlier expiry is gone); with
/// fewer than the two needed arguments nothing changes.
pub open spec fn spec_set_map(
    args: Seq<Frame>,
    m: Map<Seq<u8>, ItemModel>,
    now_ms: u64,
) -> Map<Seq<u8>, ItemModel> {
    match (spec_arg_value(args, 1), spec_arg_value(args, 2)) {
        (Some(k), Some(v)) => m.insert(
            k,
            ItemModel { data: v, expires_at: spec_expiry(args, now_ms) },
        ),
        _ => m,
    }
}

/// SET's reply: `OK` on success, an arity error otherwise.
pub open spec fn spec_set_reply(args: Seq<Frame>) -> Frame {
    match (spec_arg_value(args, 1), spec_arg_value(args, 2)) {
        (Some(k), Some(v)) => Frame::Simple(ok_bytes()),
        _ => Frame::Simple(err_args_bytes()),
    }
}

/// SET: stores argument 2 under argument 1, with the optional `PX`
/// expiry; overwriting clears any previous expiry.
pub fn handle_set_command(args: &Vec<RespResponse>, db: &mut Keyspace, now_ms: u64) -> (r:
    RespResponse)
    requires
        old(db).wf(),
    ensures
        final(db).wf(),
        final(db)@ == spec_set_map(frames_of(args@), old(db)@, now_ms),
        r@ == spec_set_reply(frames_of(args@)),
{
    let key = match arg_value(args, 1) {
        Some(k) => k,
        None => {
            return RespResponse::SimpleString(err_args_vec());
        },
    };
    let value = match arg_value(args, 2) {
        Some(v) => v,
        None => {
            return RespResponse::SimpleString(err_args_vec());
        },
    };
    let expiration = parse_expiration(args, now_ms);
    let item = match expiration {
        Some(exp) => RedisItem::new_with_expiration(value, exp),
        None => RedisItem::new(value),
    };
    db.insert(key, item);
    RespResponse::SimpleString(ok_vec())
}

/// GET's reply: the stored bytes while the key is present and live at
/// `now_ms`, the null bulk string otherwise, an arity error without a
/// key argument.
pub open spec fn spec_get_reply(
    args: Seq<Frame>,
    m: Map<Seq<u8>, ItemModel>,
    now_ms: u64,
) -> Frame {
    match spec_arg_value(args, 1) {
        Some(k) => match lookup_model(m, k, now_ms) {
            Some(v) => Frame::Bulk(v),
            None => Frame::Null,
        },
        None => Frame::Simple(err_args_bytes()),
    }
}

/// GET: looks argument 1 up with lazy expiration.
pub fn handle_get_command(args: &Vec<RespResponse>, db: &Keyspace, now_ms: u64) -> (r:
    RespResponse)
    requires
        db.wf(),
    ensures
        r@ == spec_get_reply(frames_of(args@), db@, now_ms),
{
    let key = match arg_value(args, 1) {
        Some(k) => k,
        None => {
            return RespResponse::SimpleString(err_args_vec());
        },
    };
    match db.get(&key, now_ms) {
        Some(v) => RespResponse::BulkString(v),
        None => RespResponse::NullBulkString,
    }
}

/// CONFIG GET's reply for one key: a two-element array of the name and
/// the configured value, or the null bulk string when the key is unknown
/// or the option unset.
pub open spec fn spec_config_get_reply(key: Seq<u8>, cfg: ConfigModel) -> Frame {
    if key == dir_bytes() {
        match cfg.dir {
            Some(d) => Frame::Array(seq![Frame::Bulk(dir_bytes()), Frame::Bulk(d)]),
            None => Frame::Null,
        }
    } else if key == dbfilename_bytes() {
        match cfg.dbfilename {
            Some(f) => Frame::Array(seq![Frame::Bulk(dbfilename_bytes()), Frame::Bulk(f)]),
            None => Frame::Null,
        }
    } else {
        Frame::Null
    }
}

/// CONFIG's reply: subcommand `GET` (case-insensitively) reads one
/// configuration key; any other subcommand gets the null bulk string.
pub open spec fn spec_config_reply(args: Seq<Frame>, cfg: ConfigModel) -> Frame {
    match (spec_arg_value(args, 1), spec_arg_value(args, 2)) {
        (Some(sub), Some(key)) => if upper(sub) == get_bytes() {
            spec_config_get_reply(key, cfg)
        } else {
            Frame::Null
        },
        _ => Frame::Simple(err_args_bytes()),
    }
}

/// CONFIG GET for one key.
pub fn handle_config_get(get_key: Vec<u8>, args_cli: &ArgHandler) -> (r: RespResponse)
    ensures
        r@ == spec_config_get_reply(get_key@, args_cli@),
{
    if bytes_eq(get_key.as_slice(), dir_vec().as_slice()) {
        match &args_cli.dir {
            Some(d) => {
                let name = RespResponse::BulkString(dir_vec());
                let value = RespResponse::BulkString(slice_to_vec(d.as_slice()));
                let mut arr: Vec<RespResponse> = Vec::new();
                arr.push(name);
                arr.push(value);
                proof {
                    lemma_frames_of_index(arr@);
                    assert(frames_of(arr@)[0] == frame_of(arr@[0]));
                    assert(frames_of(arr@)[1] == frame_of(arr@[1]));
                    assert(frames_of(arr@) =~= seq![
                        Frame::Bulk(dir_bytes()),
                        Frame::Bulk(d@),
                    ]);
                }
                RespResponse::RespArray(arr)
            },
            None => RespResponse::NullBulkString,
        }
    } else if bytes_eq(get_key.as_slice(), dbfilename_vec().as_slice()) {
        match &args_cli.dbfilename {
            Some(f) => {
                let name = RespResponse::BulkString(dbfilename_vec());
                let value = RespResponse::BulkString(slice_to_vec(f.as_slice()));
                let mut arr: Vec<RespResponse> = Vec::new();
                arr.push(name);
                arr.push(value);
                proof {
                    lemma_frames_of_index(arr@);
                    assert(frames_of(arr@)[0] == frame_of(arr@[0]));
                    assert(frames_of(arr@)[1] == frame_of(arr@[1]));
                    assert(frames_of(arr@) =~= seq![
                        Frame::Bulk(dbfilename_bytes()),
                        Frame::Bulk(f@),
                    ]);
                }
                RespResponse::RespArray(arr)
            },
            None => RespResponse::NullBulkString,
        }
    } else {
        RespResponse::NullBulkString
    }
}

/// CONFIG: dispatches the `GET` subcommand.
pub fn handle_config(args: &Vec<RespResponse>, args_cli: &ArgHandler) -> (r: RespResponse)
    ensures
        r@ == spec_config_reply(frames_of(args@), args_cli@),
{
    let sub = match arg_value(args, 1) {
        Some(s) => s,
        None => {
            return RespResponse::SimpleString(err_args_vec());
        },
    };
    let key = match arg_value(args, 2) {
        Some(k) => k,
        None => {
            return RespResponse::SimpleString(err_args_vec());
        },
    };
    let upper_sub = to_upper(&sub);
    if bytes_eq(upper_sub.as_slice(), get_vec().as_slice()) {
        handle_config_get(key, args_cli)
    } else {
        RespResponse::NullBulkString
    }
}

/// KEYS' reply: for the pattern `*`, every current key as a bulk string,
/// in insertion order (expired entries are not filtered); for any other
/// pattern, the null bulk string.
pub open spec fn spec_keys_reply(args: Seq<Frame>, keys: Seq<Seq<u8>>) -> Frame {
    match spec_arg_value(args, 1) {
        Some(p) => if p == star_bytes() {
            Frame::Array(keys.map_values(|k: Seq<u8>| Frame::Bulk(k)))
        } else {
            Frame::Null
        },
        None => Frame::Simple(err_args_bytes()),
    }
}

/// KEYS: lists the keys matching the pattern (only `*` is supported).
pub fn handle_keys(args: &Vec<RespResponse>, db: &Keyspace) -> (r: RespResponse)
    ensures
        r@ == spec_keys_reply(frames_of(args@), db.key_seq()),
{
    let pattern = match arg_value(args, 1) {
        Some(p) => p,
        None => {
            return RespResponse::SimpleString(err_args_vec());
        },
    };
    if !bytes_eq(pattern.as_slice(), star_vec().as_slice()) {
        return RespResponse::NullBulkString;
    }
    let keys = db.keys();
    let n = keys.len();
    let mut arr: Vec<RespResponse> = Vec::new();
    let mut i: usize = 0;
    while i < n
        invariant
            n == keys@.len(),
            keys@.len() == db.key_seq().len(),
            forall|j: int| 0 <= j < n ==> keys@[j]@ == db.key_seq()[j],
            i <= n,
            arr@.len() == i,
            forall|j: int| 0 <= j < i ==> arr@[j]@ == Frame::Bulk(db.key_seq()[j]),
        decreases n - i,
    {
        let k = slice_to_vec(keys[i].as_slice());
        arr.push(RespResponse::BulkString(k));
        i += 1;
    }
    proof {
        lemma_frames_of_index(arr@);
        assert(frames_of(arr@) =~= db.key_seq().map_values(|k: Seq<u8>| Frame::Bulk(k)));
    }
    RespResponse::RespArray(arr)
}

/// A command with its argument vector, ready to execute.
pub enum Command {
    Ping,
    Echo(Vec<RespResponse>),
    SetValue(Vec<RespResponse>),
    Get(Vec<RespResponse>),
    ConfigGet(Vec<RespResponse>),
    Keys(Vec<RespResponse>),
    Unknown,
}

/// The reply a command produces against a given keyspace, configuration
/// and clock reading.
pub open spec fn spec_command_reply(
    c: Command,
    db: Keyspace,
    cfg: ConfigModel,
    now_ms: u64,
) -> Frame {
    match c {
        Command::Ping => Frame::Simple(pong_bytes()),
        Command::Echo(a) => spec_echo(frames_of(a@)),
        Command::SetValue(a) => spec_set_reply(frames_of(a@)),
        Command::Get(a) => spec_get_reply(frames_of(a@), db@, now_ms),
        Command::ConfigGet(a) => spec_config_reply(frames_of(a@), cfg),
        Command::Keys(a) => spec_keys_reply(frames_of(a@), db.key_seq()),
        Command::Unknown => Frame::Simple(err_unknown_bytes()),
    }
}

/// The keyspace a command leaves behind: only SET mutates it.
pub open spec fn spec_command_map(
    c: Command,
    m: Map<Seq<u8>, ItemModel>,
    now_ms: u64,
) -> Map<Seq<u8>, ItemModel> {
    match c {
        Command::SetValue(a) => spec_set_map(frames_of(a@), m, now_ms),
        _ => m,
    }
}

impl Command {
    /// Executes the command against the keyspace and configuration at the
    /// given millisecond clock reading.
    pub fn execute(&self, db: &mut Keyspace, args_cli: &ArgHandler, now_ms: u64) -> (r:
        RespResponse)
        requires
            old(db).wf(),
        ensures
            final(db).wf(),
            final(db)@ == spec_command_map(*self, old(db)@, now_ms),
            r@ == spec_command_reply(*self, *old(db), args_cli@, now_ms),
    {
        match self {
            Command::Ping => handle_ping_command(),
            Command::Echo(args) => handle_echo_command(args),
            Command::SetValue(args) => handle_set_command(args, db, now_ms),
            Command::Get(args) => handle_get_command(args, db, now_ms),
            Command::ConfigGet(args) => handle_config(args, args_cli),
            Command::Keys(args) => handle_keys(args, db),
            Command::Unknown => RespResponse::SimpleString(err_unknown_vec()),
        }
    }
}

/// The reply the dispatcher gives for a named command: the name is
/// upper-cased, matched against the table, and the matching handler's
/// reply returned; unknown names get the unknown-command error.
pub open spec fn spec_dispatch_reply(
    name: Seq<u8>,
    args: Seq<Frame>,
    db: Keyspace,
    cfg: ConfigModel,
    now_ms: u64,
) -> Frame {
    let u = upper(name);
    if u == ping_bytes() {
        Frame::Simple(pong_bytes())
    } else if u == echo_bytes() {
        spec_echo(args)
    } else if u == set_bytes() {
        spec_set_reply(args)
    } else if u == get_bytes() {
        spec_get_reply(args, db@, now_ms)
    } else if u == config_bytes() {
        spec_config_reply(args, cfg)
    } else if u == keys_bytes() {
        spec_keys_reply(args, db.key_seq())
    } else {
        Frame::Simple(err_unknown_bytes())
    }
}

/// The keyspace the dispatcher leaves behind: only SET mutates it.
pub open spec fn spec_dispatch_map(
    name: Seq<u8>,
    args: Seq<Frame>,
    m: Map<Seq<u8>, ItemModel>,
    now_ms: u64,
) -> Map<Seq<u8>, ItemModel> {
    if upper(name) == set_bytes() {
        spec_set_map(args, m, now_ms)
    } else {
        m
    }
}

/// Maps a command name, case-insensitively, to the command it names and
/// executes it.
pub fn handle_command(
    command: &Vec<u8>,
    args: Vec<RespResponse>,
    db: &mut Keyspace,
    args_cli: &ArgHandler,
    now_ms: u64,
) -> (r: RespResponse)
    requires
        old(db).wf(),
    ensures
        final(db).wf(),
        final(db)@ == spec_dispatch_map(command@, frames_of(args@), old(db)@, now_ms),
        r@ == spec_dispatch_reply(command@, frames_of(args@), *old(db), args_cli@, now_ms),
{
    let u = to_upper(command);
    let prepared: Command = if bytes_eq(u.as_slice(), ping_vec().as_slice()) {
        Command::Ping
    } else if bytes_eq(u.as_slice(), echo_vec().as_slice()) {
        Command::Echo(args)
    } else if bytes_eq(u.as_slice(), set_vec().as_slice()) {
        Command::SetValue(args)
    } else if bytes_eq(u.as_slice(), get_vec().as_slice()) {
        Command::Get(args)
    } else if bytes_eq(u.as_slice(), config_vec().as_slice()) {
        Command::ConfigGet(args)
    } else if bytes_eq(u.as_slice(), keys_vec().as_slice()) {
        Command::Keys(args)
    } else {
        Command::Unknown
    };
    prepared.execute(db, args_cli, now_ms)
}

} // verus!
