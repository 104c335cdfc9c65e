//! Building typed commands from raw requests, and the outbound encoding.
use respkv::commands::{Command, CommandError, ReplConf, RequestError};
use respkv::resp::Resp;

fn parse(input: &[u8]) -> Result<Command, RequestError> {
    Resp::parse_command(input)
}

#[test]
fn command_names_are_case_insensitive() {
    match parse(b"*1\r\n$4\r\nPiNg\r\n").unwrap() {
        Command::Ping => {}
        _ => panic!("Expected PING"),
    }
}

#[test]
fn echo_carries_its_argument() {
    match parse(b"*2\r\n$4\r\nECHO\r\n$3\r\nhey\r\n").unwrap() {
        Command::Echo(arg) => assert_eq!(arg, b"hey".to_vec()),
        _ => panic!("Expected ECHO"),
    }
}

#[test]
fn echo_without_argument_is_rejected() {
    let err = parse(b"*1\r\n$4\r\nECHO\r\n").unwrap_err();
    assert_eq!(err, RequestError::Command(CommandError::NoArgument));
}

#[test]
fn set_with_px_takes_a_ttl() {
    match parse(b"*5\r\n$3\r\nSET\r\n$3\r\nfoo\r\n$3\r\nbar\r\n$2\r\nPX\r\n$3\r\n100\r\n").unwrap()
    {
        Command::SetValue { key, value, expiry } => {
            assert_eq!(key, b"foo".to_vec());
            assert_eq!(value, b"bar".to_vec());
            assert_eq!(expiry, Some(100));
        }
        _ => panic!("Expected SET"),
    }
}

#[test]
fn set_with_unparsable_ttl_stores_untimed() {
    match parse(b"*5\r\n$3\r\nSET\r\n$1\r\nk\r\n$1\r\nv\r\n$2\r\npx\r\n$3\r\nabc\r\n").unwrap() {
        Command::SetValue { expiry, .. } => assert_eq!(expiry, None),
        _ => panic!("Expected SET"),
    }
}

#[test]
fn set_ignores_unrelated_trailing_tokens() {
    match parse(b"*4\r\n$3\r\nSET\r\n$1\r\nk\r\n$1\r\nv\r\n$5\r\nextra\r\n").unwrap() {
        Command::SetValue { expiry, .. } => assert_eq!(expiry, None),
        _ => panic!("Expected SET"),
    }
}

#[test]
fn set_without_value_is_rejected() {
    let err = parse(b"*2\r\n$3\r\nSET\r\n$1\r\nk\r\n").unwrap_err();
    assert_eq!(err, RequestError::Command(CommandError::NoValue));
}

#[test]
fn get_without_key_is_rejected() {
    let err = parse(b"*1\r\n$3\r\nGET\r\n").unwrap_err();
    assert_eq!(err, RequestError::Command(CommandError::NoKey));
}

#[test]
fn unknown_command_is_rejected() {
    let err = parse(b"*1\r\n$5\r\nHELLO\r\n").unwrap_err();
    assert_eq!(err, RequestError::Command(CommandError::Unsupported));
}

#[test]
fn non_string_element_is_rejected() {
    let err = parse(b"*2\r\n$4\r\nECHO\r\n:5\r\n").unwrap_err();
    assert_eq!(err, RequestError::Command(CommandError::ExpectedString));
}

#[test]
fn top_level_must_be_an_array() {
    let err = parse(b"+PING\r\n").unwrap_err();
    assert_eq!(err, RequestError::Command(CommandError::ExpectedArray));
}

#[test]
fn replconf_listening_port_parses() {
    match parse(b"*3\r\n$8\r\nREPLCONF\r\n$14\r\nlistening-port\r\n$4\r\n6380\r\n").unwrap() {
        Command::ReplConf(ReplConf::ListeningPort(p)) => assert_eq!(p, 6380),
        _ => panic!("Expected REPLCONF listening-port"),
    }
}

#[test]
fn replconf_capa_accepts_repeated_pairs() {
    match parse(b"*5\r\n$8\r\nREPLCONF\r\n$4\r\ncapa\r\n$3\r\neof\r\n$4\r\ncapa\r\n$6\r\npsync2\r\n")
        .unwrap()
    {
        Command::ReplConf(ReplConf::Capa(capas)) => {
            assert_eq!(capas, vec![b"eof".to_vec(), b"psync2".to_vec()]);
        }
        _ => panic!("Expected REPLCONF capa"),
    }
}

#[test]
fn replconf_capa_broken_pair_is_rejected() {
    let err =
        parse(b"*4\r\n$8\r\nREPLCONF\r\n$4\r\ncapa\r\n$3\r\neof\r\n$4\r\noops\r\n").unwrap_err();
    assert_eq!(err, RequestError::Command(CommandError::ExpectedCapa));
    let err = parse(b"*4\r\n$8\r\nREPLCONF\r\n$4\r\ncapa\r\n$3\r\neof\r\n$4\r\ncapa\r\n")
        .unwrap_err();
    assert_eq!(err, RequestError::Command(CommandError::MissingCapability));
}

#[test]
fn replconf_unknown_subcommand_is_rejected() {
    let err = parse(b"*2\r\n$8\r\nREPLCONF\r\n$4\r\nxyzw\r\n").unwrap_err();
    assert_eq!(err, RequestError::Command(CommandError::UnknownSubcommand));
}

#[test]
fn psync_parses_the_sentinel_pair() {
    match parse(b"*3\r\n$5\r\nPSYNC\r\n$1\r\n?\r\n$2\r\n-1\r\n").unwrap() {
        Command::Psync { replica_id, offset } => {
            assert_eq!(replica_id, b"?".to_vec());
            assert_eq!(offset, -1);
        }
        _ => panic!("Expected PSYNC"),
    }
}

#[test]
fn psync_with_bad_offset_is_rejected() {
    let err = parse(b"*3\r\n$5\r\nPSYNC\r\n$1\r\n?\r\n$3\r\nnah\r\n").unwrap_err();
    assert_eq!(err, RequestError::Command(CommandError::BadOffset));
}

#[test]
fn outbound_requests_encode_exactly() {
    assert_eq!(Command::Ping.serialize(), b"*1\r\n$4\r\nPing\r\n".to_vec());
    assert_eq!(
        Command::ReplConf(ReplConf::ListeningPort(6380)).serialize(),
        b"*3\r\n$8\r\nReplconf\r\n$14\r\nlistening-port\r\n$4\r\n6380\r\n".to_vec()
    );
    assert_eq!(
        Command::ReplConf(ReplConf::Capa(vec![b"psync2".to_vec()])).serialize(),
        b"*3\r\n$8\r\nReplconf\r\n$4\r\ncapa\r\n$6\r\npsync2\r\n".to_vec()
    );
    assert_eq!(
        Command::Psync { replica_id: b"?".to_vec(), offset: -1 }.serialize(),
        b"*3\r\n$5\r\nPsync\r\n$1\r\n?\r\n$2\r\n-1\r\n".to_vec()
    );
}

#[test]
fn outbound_requests_parse_back_as_commands() {
    // The server matches names case-insensitively, so its own outbound
    // capitalization parses back.
    match parse(Command::Ping.serialize().as_slice()).unwrap() {
        Command::Ping => {}
        _ => panic!("Expected PING"),
    }
    match parse(
        Command::Psync { replica_id: b"?".to_vec(), offset: -1 }
            .serialize()
            .as_slice(),
    )
    .unwrap()
    {
        Command::Psync { replica_id, offset } => {
            assert_eq!(replica_id, b"?".to_vec());
            assert_eq!(offset, -1);
        }
        _ => panic!("Expected PSYNC"),
    }
}

#[test]
fn empty_request_array_is_rejected() {
    let err = parse(b"*0\r\n").unwrap_err();
    assert_eq!(err, RequestError::Command(CommandError::NoCommand));
}

#[test]
fn set_without_key_is_rejected() {
    let err = parse(b"*1\r\n$3\r\nSET\r\n").unwrap_err();
    assert_eq!(err, RequestError::Command(CommandError::NoKey));
}

#[test]
fn replconf_without_subcommand_is_rejected() {
    let err = parse(b"*1\r\n$8\r\nREPLCONF\r\n").unwrap_err();
    assert_eq!(err, RequestError::Command(CommandError::NoSubcommand));
}

#[test]
fn replconf_listening_port_needs_a_valid_port() {
    let err = parse(b"*2\r\n$8\r\nREPLCONF\r\n$14\r\nlistening-port\r\n").unwrap_err();
    assert_eq!(err, RequestError::Command(CommandError::NoListeningPort));
    let err = parse(b"*3\r\n$8\r\nREPLCONF\r\n$14\r\nlistening-port\r\n$4\r\nnope\r\n")
        .unwrap_err();
    assert_eq!(err, RequestError::Command(CommandError::BadListeningPort));
}

#[test]
fn psync_needs_both_arguments() {
    let err = parse(b"*1\r\n$5\r\nPSYNC\r\n").unwrap_err();
    assert_eq!(err, RequestError::Command(CommandError::NoReplicaId));
    let err = parse(b"*2\r\n$5\r\nPSYNC\r\n$1\r\n?\r\n").unwrap_err();
    assert_eq!(err, RequestError::Command(CommandError::NoOffset));
}
