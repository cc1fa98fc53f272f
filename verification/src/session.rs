//! One step of a connection: given the bytes buffered so far, either a
//! serialized reply and the count of bytes consumed, or a request for
//! more bytes, or an order to close.
//!
//! The caller owns the socket and the buffer: it appends what it read,
//! calls `session_step`, writes the reply bytes, and drains the consumed
//! prefix. A malformed frame closes the connection; an incomplete one
//! consumes nothing.

use vstd::prelude::*;
use crate::arg_handler::{ArgHandler, ConfigModel};
use crate::keyspace::Keyspace;
use crate::redis_item::ItemModel;
use crate::resp_response::{
    RespResponse, Frame, ParseError, ParseOutcome, spec_parse, spec_serialize, spec_extract,
    parse_message,
};
use crate::command::{
    handle_command, spec_dispatch_reply, spec_dispatch_map, err_proto_bytes, err_proto_vec,
};

verus! {

/// What the connection loop should do next.
pub enum StepResult {
    /// Write these bytes, then drop this many bytes from the buffer's front.
    Reply(Vec<u8>, usize),
    /// The buffer holds no complete frame yet; read more bytes and retry.
    NeedMore,
    /// The buffer can never parse; close the connection.
    Close,
}

/// The reply to one parsed frame: the named command's reply, or a
/// protocol error when the frame carries no command.
pub open spec fn spec_session_reply(
    f: Frame,
    db: Keyspace,
    cfg: ConfigModel,
    now_ms: u64,
) -> Frame {
    match spec_extract(f) {
        Some((name, args)) => spec_dispatch_reply(name, args, db, cfg, now_ms),
        None => Frame::Simple(err_proto_bytes()),
    }
}

/// The keyspace after one parsed frame.
pub open spec fn spec_session_map(
    f: Frame,
    m: Map<Seq<u8>, ItemModel>,
    now_ms: u64,
) -> Map<Seq<u8>, ItemModel> {
    match spec_extract(f) {
        Some((name, args)) => spec_dispatch_map(name, args, m, now_ms),
        None => m,
    }
}

/// Parses at most one frame from the front of `buffer`, executes it, and
/// serializes the reply.
pub fn session_step(
    buffer: &Vec<u8>,
    db: &mut Keyspace,
    args_cli: &ArgHandler,
    now_ms: u64,
) -> (r: StepResult)
    requires
        old(db).wf(),
    ensures
        final(db).wf(),
        match spec_parse(buffer@) {
            ParseOutcome::Incomplete => r is NeedMore && final(db)@ == old(db)@,
            ParseOutcome::Malformed => r is Close && final(db)@ == old(db)@,
            ParseOutcome::Found(f, n) => {
                &&& r matches StepResult::Reply(bytes, consumed)
                &&& consumed == n
                &&& bytes@ == spec_serialize(spec_session_reply(f, *old(db), args_cli@, now_ms))
                &&& final(db)@ == spec_session_map(f, old(db)@, now_ms)
            },
        },
{
    match parse_message(buffer.as_slice()) {
        Err(ParseError::Incomplete) => StepResult::NeedMore,
        Err(ParseError::Malformed) => StepResult::Close,
        Ok((frame, consumed)) => {
            let reply = match frame.get_command_and_args() {
                Ok((name, args)) => handle_command(&name, args, db, args_cli, now_ms),
                Err(_) => RespResponse::SimpleString(err_proto_vec()),
            };
            StepResult::Reply(reply.serialize(), consumed)
        },
    }
}

} // verus!
