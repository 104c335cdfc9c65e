//! End-to-end request handling, configuration, and the handshake bytes.
use respkv::commands::Command;
use respkv::config::{Config, ConfigError};
use respkv::handler::CommandHandler;
use respkv::handshake::HandshakeStage;
use respkv::resp::Resp;
use respkv::store::Store;

const REPLID: &str = "8371b4fb1155b71f4a04d3e1bc3e18c4a990aeeb";

fn config_from(args: &[&str]) -> Config {
    let owned: Vec<Vec<u8>> = args.iter().map(|a| a.as_bytes().to_vec()).collect();
    Config::new(&owned).unwrap()
}

fn handler_with(args: &[&str]) -> CommandHandler {
    CommandHandler::new(Store::new(), config_from(args))
}

fn run(handler: &mut CommandHandler, request: &[u8]) -> Vec<u8> {
    let cmd = Resp::parse_command(request).unwrap();
    handler.handle_command(cmd).unwrap()
}

#[test]
fn ping_replies_pong() {
    let mut h = handler_with(&[]);
    assert_eq!(run(&mut h, b"*1\r\n$4\r\nPING\r\n"), b"+PONG\r\n".to_vec());
}

#[test]
fn set_then_get_round_trip() {
    let mut h = handler_with(&[]);
    assert_eq!(
        run(&mut h, b"*3\r\n$3\r\nSET\r\n$3\r\nfoo\r\n$3\r\nbar\r\n"),
        b"+OK\r\n".to_vec()
    );
    assert_eq!(
        run(&mut h, b"*2\r\n$3\r\nGET\r\n$3\r\nfoo\r\n"),
        b"$3\r\nbar\r\n".to_vec()
    );
}

#[test]
fn get_of_never_set_key_is_the_absent_reply() {
    let mut h = handler_with(&[]);
    assert_eq!(
        run(&mut h, b"*2\r\n$3\r\nGET\r\n$5\r\nnever\r\n"),
        b"$-1\r\n".to_vec()
    );
}

#[test]
fn set_with_generous_ttl_reads_back() {
    let mut h = handler_with(&[]);
    assert_eq!(
        run(
            &mut h,
            b"*5\r\n$3\r\nSET\r\n$1\r\nk\r\n$1\r\nv\r\n$2\r\nPX\r\n$6\r\n100000\r\n"
        ),
        b"+OK\r\n".to_vec()
    );
    assert_eq!(run(&mut h, b"*2\r\n$3\r\nGET\r\n$1\r\nk\r\n"), b"$1\r\nv\r\n".to_vec());
}

#[test]
fn untimed_set_over_timed_set_drops_the_ttl() {
    let mut h = handler_with(&[]);
    // At a fixed time, store with a tiny deadline, then overwrite
    // untimed: a much later read must still see the new value.
    let set_timed = Resp::parse_command(
        b"*5\r\n$3\r\nSET\r\n$1\r\nk\r\n$3\r\nold\r\n$2\r\nPX\r\n$1\r\n5\r\n",
    )
    .unwrap();
    h.handle_command_at(set_timed, 1_000);
    let set_plain = Resp::parse_command(b"*3\r\n$3\r\nSET\r\n$1\r\nk\r\n$3\r\nnew\r\n").unwrap();
    h.handle_command_at(set_plain, 2_000);
    let get = Resp::parse_command(b"*2\r\n$3\r\nGET\r\n$1\r\nk\r\n").unwrap();
    let reply = h.handle_command_at(get, u64::MAX);
    assert_eq!(reply, b"$3\r\nnew\r\n".to_vec());
}

#[test]
fn expired_key_reads_as_absent() {
    let mut h = handler_with(&[]);
    let set = Resp::parse_command(
        b"*5\r\n$3\r\nSET\r\n$1\r\nk\r\n$1\r\nv\r\n$2\r\nPX\r\n$2\r\n10\r\n",
    )
    .unwrap();
    h.handle_command_at(set, 1_000);
    let get = Resp::parse_command(b"*2\r\n$3\r\nGET\r\n$1\r\nk\r\n").unwrap();
    assert_eq!(h.handle_command_at(get, 1_011), b"$-1\r\n".to_vec());
}

#[test]
fn echo_replies_its_argument_as_bulk() {
    let mut h = handler_with(&[]);
    assert_eq!(
        run(&mut h, b"*2\r\n$4\r\nECHO\r\n$3\r\nhey\r\n"),
        b"$3\r\nhey\r\n".to_vec()
    );
}

#[test]
fn info_reports_master_without_a_primary() {
    let mut h = handler_with(&[]);
    let body = format!(
        "# Replication\nrole:master\nmaster_replid:{}\nmaster_repl_offset:0",
        REPLID
    );
    let expected = format!("${}\r\n{}\r\n", body.len(), body);
    assert_eq!(run(&mut h, b"*1\r\n$4\r\nINFO\r\n"), expected.into_bytes());
}

#[test]
fn info_reports_slave_with_a_primary() {
    let mut h = handler_with(&["--replicaof", "localhost", "6379"]);
    let body = format!(
        "# Replication\nrole:slave\nmaster_replid:{}\nmaster_repl_offset:0",
        REPLID
    );
    let expected = format!("${}\r\n{}\r\n", body.len(), body);
    // The section argument does not narrow the reply.
    assert_eq!(
        run(&mut h, b"*2\r\n$4\r\nINFO\r\n$11\r\nreplication\r\n"),
        expected.into_bytes()
    );
}

#[test]
fn replid_is_a_fixed_length_identifier() {
    let config = config_from(&[]);
    assert_eq!(config.master_replid.len(), 40);
    // Stable across handlers built at different times of the process.
    let again = config_from(&["--port", "7000"]);
    assert_eq!(config.master_replid, again.master_replid);
}

#[test]
fn replconf_always_replies_ok() {
    let mut h = handler_with(&[]);
    assert_eq!(
        run(
            &mut h,
            b"*3\r\n$8\r\nREPLCONF\r\n$14\r\nlistening-port\r\n$4\r\n6380\r\n"
        ),
        b"+OK\r\n".to_vec()
    );
    assert_eq!(
        run(&mut h, b"*3\r\n$8\r\nREPLCONF\r\n$4\r\ncapa\r\n$6\r\npsync2\r\n"),
        b"+OK\r\n".to_vec()
    );
}

#[test]
fn psync_replies_fullresync_then_a_framed_snapshot() {
    let mut h = handler_with(&[]);
    let reply = run(&mut h, b"*3\r\n$5\r\nPSYNC\r\n$1\r\n?\r\n$2\r\n-1\r\n");
    let head = format!("+FULLRESYNC {} 0\r\n", REPLID);
    assert!(reply.starts_with(head.as_bytes()));
    let rest = &reply[head.len()..];
    // The snapshot is bulk-framed but carries no trailing terminator.
    let payload = respkv::response::empty_rdb();
    let frame = format!("${}\r\n", payload.len());
    assert!(rest.starts_with(frame.as_bytes()));
    assert_eq!(&rest[frame.len()..], payload.as_slice());
}

#[test]
fn config_defaults_and_flags() {
    let c = config_from(&[]);
    assert_eq!(c.port, 6379);
    assert!(c.master.is_none());
    assert_eq!(c.master_repl_offset, 0);

    let c = config_from(&["--port", "6380"]);
    assert_eq!(c.port, 6380);

    let c = config_from(&["--replicaof", "localhost", "6379"]);
    assert_eq!(c.port, 6379);
    let master = c.master.unwrap();
    assert_eq!(master.host, b"localhost".to_vec());
    assert_eq!(master.port, 6379);
}

#[test]
fn config_rejects_bad_argument_lists() {
    let args: Vec<Vec<u8>> = vec![b"--wat".to_vec()];
    assert_eq!(Config::new(&args).unwrap_err(), ConfigError::UnknownArgument);
    let args: Vec<Vec<u8>> = vec![b"--port".to_vec()];
    assert_eq!(Config::new(&args).unwrap_err(), ConfigError::MissingValue);
    let args: Vec<Vec<u8>> = vec![b"--port".to_vec(), b"seven".to_vec()];
    assert_eq!(Config::new(&args).unwrap_err(), ConfigError::BadPort);
    let args: Vec<Vec<u8>> = vec![b"--replicaof".to_vec(), b"h".to_vec()];
    assert_eq!(Config::new(&args).unwrap_err(), ConfigError::MissingValue);
}

#[test]
fn handshake_stages_write_the_fixed_sequence() {
    let s0 = HandshakeStage::start();
    assert_eq!(s0.request(6380).unwrap(), b"*1\r\n$4\r\nPing\r\n".to_vec());
    let s1 = s0.advance();
    assert_eq!(
        s1.request(6380).unwrap(),
        b"*3\r\n$8\r\nReplconf\r\n$14\r\nlistening-port\r\n$4\r\n6380\r\n".to_vec()
    );
    let s2 = s1.advance();
    assert_eq!(
        s2.request(6380).unwrap(),
        b"*3\r\n$8\r\nReplconf\r\n$4\r\ncapa\r\n$6\r\npsync2\r\n".to_vec()
    );
    let s3 = s2.advance();
    assert_eq!(
        s3.request(6380).unwrap(),
        b"*3\r\n$5\r\nPsync\r\n$1\r\n?\r\n$2\r\n-1\r\n".to_vec()
    );
    let s4 = s3.advance();
    assert_eq!(s4, HandshakeStage::Done);
    assert!(s4.request(6380).is_none());
    assert_eq!(s4.advance(), HandshakeStage::Done);
}

#[test]
fn handshake_requests_are_commands_the_primary_accepts() {
    // Each handshake request parses back into the command it encodes.
    let mut h = handler_with(&[]);
    let ping = HandshakeStage::start().request(6380).unwrap();
    assert_eq!(run(&mut h, ping.as_slice()), b"+PONG\r\n".to_vec());
    let replconf = HandshakeStage::start().advance().request(6380).unwrap();
    assert_eq!(run(&mut h, replconf.as_slice()), b"+OK\r\n".to_vec());
}

#[test]
fn outbound_command_serialization_matches_the_wire() {
    // The library's own outbound encoding is wire-compatible with what
    // its parser accepts at the top of this file.
    let bytes = Command::Ping.serialize();
    let mut h = handler_with(&[]);
    assert_eq!(run(&mut h, bytes.as_slice()), b"+PONG\r\n".to_vec());
}
