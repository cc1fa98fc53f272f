use redis_lite::arg_handler::ArgHandler;
use redis_lite::command::{
    handle_command, handle_config, handle_echo_command, handle_get_command, handle_keys,
    handle_ping_command, handle_set_command, parse_expiration, parse_u64_dec, to_upper,
};
use redis_lite::keyspace::Keyspace;
use redis_lite::redis_item::RedisItem;
use redis_lite::resp_response::RespResponse;

fn bulk(s: &[u8]) -> RespResponse {
    RespResponse::BulkString(s.to_vec())
}

fn argv(words: &[&[u8]]) -> Vec<RespResponse> {
    words.iter().map(|w| bulk(w)).collect()
}

fn no_config() -> ArgHandler {
    ArgHandler { dir: None, dbfilename: None }
}

fn reply_bytes(r: &RespResponse) -> Vec<u8> {
    r.serialize()
}

#[test]
fn ping_replies_pong() {
    assert_eq!(reply_bytes(&handle_ping_command()), b"+PONG\r\n".to_vec());
}

#[test]
fn echo_returns_its_argument() {
    let args = argv(&[b"ECHO", b"hello"]);
    assert_eq!(reply_bytes(&handle_echo_command(&args)), b"$5\r\nhello\r\n".to_vec());
}

#[test]
fn echo_without_argument_is_an_error() {
    let args = argv(&[b"ECHO"]);
    let out = reply_bytes(&handle_echo_command(&args));
    assert_eq!(out, b"+-ERR wrong number of arguments\r\n".to_vec());
}

#[test]
fn set_then_get_returns_the_value() {
    let mut db = Keyspace::new();
    let set_args = argv(&[b"SET", b"foo", b"bar"]);
    let reply = handle_set_command(&set_args, &mut db, 0);
    assert_eq!(reply_bytes(&reply), b"+OK\r\n".to_vec());
    let get_args = argv(&[b"GET", b"foo"]);
    let reply = handle_get_command(&get_args, &db, 1_000_000);
    assert_eq!(reply_bytes(&reply), b"$3\r\nbar\r\n".to_vec());
}

#[test]
fn get_of_absent_key_is_null() {
    let db = Keyspace::new();
    let reply = handle_get_command(&argv(&[b"GET", b"nope"]), &db, 0);
    assert_eq!(reply_bytes(&reply), b"$-1\r\n".to_vec());
}

#[test]
fn set_with_px_expires_lazily() {
    let mut db = Keyspace::new();
    let set_args = argv(&[b"SET", b"k", b"v", b"PX", b"50"]);
    handle_set_command(&set_args, &mut db, 1_000);
    let get_args = argv(&[b"GET", b"k"]);
    // visible while now <= 1050
    assert_eq!(reply_bytes(&handle_get_command(&get_args, &db, 1_040)), b"$1\r\nv\r\n".to_vec());
    assert_eq!(reply_bytes(&handle_get_command(&get_args, &db, 1_050)), b"$1\r\nv\r\n".to_vec());
    // absent strictly after
    assert_eq!(reply_bytes(&handle_get_command(&get_args, &db, 1_051)), b"$-1\r\n".to_vec());
    assert_eq!(reply_bytes(&handle_get_command(&get_args, &db, 1_200)), b"$-1\r\n".to_vec());
}

#[test]
fn overwrite_clears_expiry() {
    let mut db = Keyspace::new();
    handle_set_command(&argv(&[b"SET", b"k", b"v1", b"PX", b"100"]), &mut db, 0);
    handle_set_command(&argv(&[b"SET", b"k", b"v2"]), &mut db, 10);
    let get_args = argv(&[b"GET", b"k"]);
    // far past the first expiry, the plain overwrite is still there
    assert_eq!(
        reply_bytes(&handle_get_command(&get_args, &db, 1_000_000)),
        b"$2\r\nv2\r\n".to_vec(),
    );
}

#[test]
fn px_keyword_is_case_insensitive() {
    let mut db = Keyspace::new();
    handle_set_command(&argv(&[b"SET", b"k", b"v", b"px", b"10"]), &mut db, 0);
    let get_args = argv(&[b"GET", b"k"]);
    assert_eq!(reply_bytes(&handle_get_command(&get_args, &db, 11)), b"$-1\r\n".to_vec());
}

#[test]
fn parse_expiration_reads_px_clause() {
    assert_eq!(parse_expiration(&argv(&[b"SET", b"k", b"v", b"PX", b"100"]), 7), Some(107));
    assert_eq!(parse_expiration(&argv(&[b"SET", b"k", b"v"]), 7), None);
    assert_eq!(parse_expiration(&argv(&[b"SET", b"k", b"v", b"PX"]), 7), None);
    assert_eq!(parse_expiration(&argv(&[b"SET", b"k", b"v", b"PX", b"ten"]), 7), None);
    assert_eq!(parse_expiration(&argv(&[b"SET", b"k", b"v", b"EX", b"100"]), 7), None);
}

#[test]
fn parse_expiration_saturates_at_the_latest_instant() {
    let args = argv(&[b"SET", b"k", b"v", b"PX", b"18446744073709551615"]);
    assert_eq!(parse_expiration(&args, 10), Some(u64::MAX));
}

#[test]
fn parse_u64_dec_reads_digits() {
    assert_eq!(parse_u64_dec(&b"0".to_vec()), Some(0));
    assert_eq!(parse_u64_dec(&b"1234".to_vec()), Some(1234));
    assert_eq!(parse_u64_dec(&b"18446744073709551615".to_vec()), Some(u64::MAX));
    assert_eq!(parse_u64_dec(&b"18446744073709551616".to_vec()), None);
    assert_eq!(parse_u64_dec(&b"".to_vec()), None);
    assert_eq!(parse_u64_dec(&b"12a".to_vec()), None);
}

#[test]
fn to_upper_raises_ascii_letters_only() {
    assert_eq!(to_upper(&b"config".to_vec()), b"CONFIG".to_vec());
    assert_eq!(to_upper(&b"CoNfIg-9\xff".to_vec()), b"CONFIG-9\xff".to_vec());
}

#[test]
fn config_get_dir_reports_the_configured_directory() {
    let cfg = ArgHandler { dir: Some(b"/tmp".to_vec()), dbfilename: Some(b"dump.rdb".to_vec()) };
    let args = argv(&[b"CONFIG", b"GET", b"dir"]);
    let reply = handle_config(&args, &cfg);
    assert_eq!(reply_bytes(&reply), b"*2\r\n$3\r\ndir\r\n$4\r\n/tmp\r\n".to_vec());
}

#[test]
fn config_get_dbfilename_reports_the_configured_name() {
    let cfg = ArgHandler { dir: Some(b"/tmp".to_vec()), dbfilename: Some(b"dump.rdb".to_vec()) };
    let args = argv(&[b"CONFIG", b"GET", b"dbfilename"]);
    let reply = handle_config(&args, &cfg);
    assert_eq!(reply_bytes(&reply), b"*2\r\n$10\r\ndbfilename\r\n$8\r\ndump.rdb\r\n".to_vec());
}

#[test]
fn config_get_of_unknown_or_unset_key_is_null() {
    let cfg = no_config();
    let unknown = handle_config(&argv(&[b"CONFIG", b"GET", b"maxmemory"]), &cfg);
    assert_eq!(reply_bytes(&unknown), b"$-1\r\n".to_vec());
    let unset = handle_config(&argv(&[b"CONFIG", b"GET", b"dir"]), &cfg);
    assert_eq!(reply_bytes(&unset), b"$-1\r\n".to_vec());
}

#[test]
fn config_subcommand_other_than_get_is_null() {
    let cfg = no_config();
    let reply = handle_config(&argv(&[b"CONFIG", b"SET", b"dir"]), &cfg);
    assert_eq!(reply_bytes(&reply), b"$-1\r\n".to_vec());
}

#[test]
fn keys_star_lists_all_keys() {
    let mut db = Keyspace::new();
    handle_set_command(&argv(&[b"SET", b"alpha", b"1"]), &mut db, 0);
    handle_set_command(&argv(&[b"SET", b"beta", b"2"]), &mut db, 0);
    let reply = handle_keys(&argv(&[b"KEYS", b"*"]), &db);
    assert_eq!(reply_bytes(&reply), b"*2\r\n$5\r\nalpha\r\n$4\r\nbeta\r\n".to_vec());
}

#[test]
fn keys_with_another_pattern_is_null() {
    let db = Keyspace::new();
    let reply = handle_keys(&argv(&[b"KEYS", b"a*"]), &db);
    assert_eq!(reply_bytes(&reply), b"$-1\r\n".to_vec());
}

#[test]
fn dispatch_is_case_insensitive() {
    let mut db = Keyspace::new();
    let cfg = no_config();
    let reply = handle_command(&b"ping".to_vec(), vec![], &mut db, &cfg, 0);
    assert_eq!(reply_bytes(&reply), b"+PONG\r\n".to_vec());
}

#[test]
fn dispatch_of_unknown_command_is_an_error() {
    let mut db = Keyspace::new();
    let cfg = no_config();
    let reply = handle_command(&b"FLUSHALL".to_vec(), vec![], &mut db, &cfg, 0);
    assert_eq!(reply_bytes(&reply), b"+-ERR unknown command\r\n".to_vec());
}

#[test]
fn keyspace_get_checks_expiry_bounds() {
    let mut db = Keyspace::new();
    db.insert(b"k".to_vec(), RedisItem::new_with_expiration(b"v".to_vec(), 100));
    assert_eq!(db.get(&b"k".to_vec(), 100), Some(b"v".to_vec()));
    assert_eq!(db.get(&b"k".to_vec(), 101), None);
}

#[test]
fn keyspace_keys_snapshot_includes_expired_entries() {
    let mut db = Keyspace::new();
    db.insert(b"gone".to_vec(), RedisItem::new_with_expiration(b"v".to_vec(), 1));
    let keys = db.keys();
    assert_eq!(keys, vec![b"gone".to_vec()]);
}

#[test]
fn redis_item_expiry_is_strict() {
    let fresh = RedisItem::new(b"v".to_vec());
    assert!(!fresh.is_expired(u64::MAX));
    assert_eq!(fresh.get_data(), &b"v".to_vec());
    let dated = RedisItem::new_with_expiration(b"v".to_vec(), 100);
    assert!(!dated.is_expired(99));
    assert!(!dated.is_expired(100));
    assert!(dated.is_expired(101));
}

#[test]
fn arg_handler_reports_completeness() {
    assert!(!no_config().can_be_parsed());
    assert!(!ArgHandler { dir: Some(b"/tmp".to_vec()), dbfilename: None }.can_be_parsed());
    let full = ArgHandler { dir: Some(b"/tmp".to_vec()), dbfilename: Some(b"d".to_vec()) };
    assert!(full.can_be_parsed());
}
