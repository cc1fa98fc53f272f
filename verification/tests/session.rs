use redis_lite::arg_handler::ArgHandler;
use redis_lite::keyspace::Keyspace;
use redis_lite::rdb_parser::RdbParser;
use redis_lite::session::{session_step, StepResult};

fn no_config() -> ArgHandler {
    ArgHandler { dir: None, dbfilename: None }
}

fn expect_reply(step: StepResult) -> (Vec<u8>, usize) {
    match step {
        StepResult::Reply(bytes, consumed) => (bytes, consumed),
        StepResult::NeedMore => panic!("expected a reply, got a request for more bytes"),
        StepResult::Close => panic!("expected a reply, got a close"),
    }
}

/// Feeds one wire command through a session step and returns the reply.
fn roundtrip(db: &mut Keyspace, cfg: &ArgHandler, now_ms: u64, wire: &[u8]) -> Vec<u8> {
    let buffer = wire.to_vec();
    let (bytes, consumed) = expect_reply(session_step(&buffer, db, cfg, now_ms));
    assert_eq!(consumed, wire.len());
    bytes
}

#[test]
fn wire_ping() {
    let mut db = Keyspace::new();
    let cfg = no_config();
    let out = roundtrip(&mut db, &cfg, 0, b"*1\r\n$4\r\nPING\r\n");
    assert_eq!(out, b"+PONG\r\n".to_vec());
}

#[test]
fn wire_echo() {
    let mut db = Keyspace::new();
    let cfg = no_config();
    let out = roundtrip(&mut db, &cfg, 0, b"*2\r\n$4\r\nECHO\r\n$5\r\nhello\r\n");
    assert_eq!(out, b"$5\r\nhello\r\n".to_vec());
}

#[test]
fn wire_set_then_get() {
    let mut db = Keyspace::new();
    let cfg = no_config();
    let out = roundtrip(&mut db, &cfg, 0, b"*3\r\n$3\r\nSET\r\n$3\r\nfoo\r\n$3\r\nbar\r\n");
    assert_eq!(out, b"+OK\r\n".to_vec());
    let out = roundtrip(&mut db, &cfg, 1, b"*2\r\n$3\r\nGET\r\n$3\r\nfoo\r\n");
    assert_eq!(out, b"$3\r\nbar\r\n".to_vec());
}

#[test]
fn wire_set_with_px_then_get_until_expiry() {
    let mut db = Keyspace::new();
    let cfg = no_config();
    let out = roundtrip(
        &mut db,
        &cfg,
        1_000,
        b"*5\r\n$3\r\nSET\r\n$1\r\nk\r\n$1\r\nv\r\n$2\r\nPX\r\n$2\r\n50\r\n",
    );
    assert_eq!(out, b"+OK\r\n".to_vec());
    let get = b"*2\r\n$3\r\nGET\r\n$1\r\nk\r\n";
    assert_eq!(roundtrip(&mut db, &cfg, 1_040, get), b"$1\r\nv\r\n".to_vec());
    assert_eq!(roundtrip(&mut db, &cfg, 1_200, get), b"$-1\r\n".to_vec());
}

#[test]
fn wire_get_from_preloaded_snapshot() {
    let mut bytes = b"REDIS0011".to_vec();
    bytes.extend_from_slice(&[0xFBu8, 0x01, 0x00, 0x00, 0x05]);
    bytes.extend_from_slice(b"mykey");
    bytes.push(0x05);
    bytes.extend_from_slice(b"myval");
    bytes.push(0xFF);
    let mut db = RdbParser::new(bytes).populate_database().unwrap();
    let cfg = no_config();
    let out = roundtrip(&mut db, &cfg, 0, b"*2\r\n$3\r\nGET\r\n$5\r\nmykey\r\n");
    assert_eq!(out, b"$5\r\nmyval\r\n".to_vec());
}

#[test]
fn wire_config_get_dir() {
    let mut db = Keyspace::new();
    let cfg = ArgHandler { dir: Some(b"/tmp".to_vec()), dbfilename: Some(b"dump.rdb".to_vec()) };
    let out = roundtrip(&mut db, &cfg, 0, b"*3\r\n$6\r\nCONFIG\r\n$3\r\nGET\r\n$3\r\ndir\r\n");
    assert_eq!(out, b"*2\r\n$3\r\ndir\r\n$4\r\n/tmp\r\n".to_vec());
}

#[test]
fn incomplete_buffer_asks_for_more() {
    let mut db = Keyspace::new();
    let cfg = no_config();
    let buffer = b"*1\r\n$4\r\nPI".to_vec();
    assert!(matches!(session_step(&buffer, &mut db, &cfg, 0), StepResult::NeedMore));
}

#[test]
fn malformed_buffer_closes_the_connection() {
    let mut db = Keyspace::new();
    let cfg = no_config();
    let buffer = b"HELLO\r\n".to_vec();
    assert!(matches!(session_step(&buffer, &mut db, &cfg, 0), StepResult::Close));
}

#[test]
fn frame_spanning_two_reads_parses_after_the_second() {
    let wire = b"*2\r\n$4\r\nECHO\r\n$5\r\nhello\r\n";
    let mut db = Keyspace::new();
    let cfg = no_config();
    let mut buffer: Vec<u8> = Vec::new();
    buffer.extend_from_slice(&wire[..9]);
    assert!(matches!(session_step(&buffer, &mut db, &cfg, 0), StepResult::NeedMore));
    buffer.extend_from_slice(&wire[9..]);
    let (bytes, consumed) = expect_reply(session_step(&buffer, &mut db, &cfg, 0));
    assert_eq!(consumed, wire.len());
    assert_eq!(bytes, b"$5\r\nhello\r\n".to_vec());
}

#[test]
fn two_pipelined_commands_are_served_in_order() {
    let mut db = Keyspace::new();
    let cfg = no_config();
    let mut buffer = b"*1\r\n$4\r\nPING\r\n*2\r\n$4\r\nECHO\r\n$2\r\nhi\r\n".to_vec();
    let (bytes, consumed) = expect_reply(session_step(&buffer, &mut db, &cfg, 0));
    assert_eq!(bytes, b"+PONG\r\n".to_vec());
    buffer.drain(..consumed);
    let (bytes, consumed) = expect_reply(session_step(&buffer, &mut db, &cfg, 0));
    assert_eq!(bytes, b"$2\r\nhi\r\n".to_vec());
    assert_eq!(consumed, buffer.len());
}

#[test]
fn frame_without_a_command_gets_a_protocol_error() {
    let mut db = Keyspace::new();
    let cfg = no_config();
    // a bulk string at the top level names no command
    let out = roundtrip(&mut db, &cfg, 0, b"$4\r\nPING\r\n");
    assert_eq!(out, b"+-ERR invalid request\r\n".to_vec());
}

#[test]
fn simple_string_frame_is_not_a_command() {
    let mut db = Keyspace::new();
    let cfg = no_config();
    // only an array of bulk strings carries a command
    let out = roundtrip(&mut db, &cfg, 0, b"+PING\r\n");
    assert_eq!(out, b"+-ERR invalid request\r\n".to_vec());
}
