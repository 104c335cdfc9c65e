//! Serialization round trips and the codec's error cases.
use respkv::resp::parse::{Parser, ProtocolError};
use respkv::resp::Resp;

fn round_trip(value: Resp) -> Resp {
    let bytes = value.serialize();
    let mut parser = Parser::new(bytes.as_slice());
    let back = parser.parse().unwrap();
    back
}

#[test]
fn round_trip_simple_string() {
    let back = round_trip(Resp::SimpleString(b"hello".to_vec()));
    assert_eq!(back.into_string().unwrap(), b"hello".to_vec());
}

#[test]
fn round_trip_bulk_string_with_terminator_inside() {
    // A bulk string is length-prefixed, so its payload may contain the
    // frame terminator.
    let payload = b"a\r\nb".to_vec();
    let back = round_trip(Resp::BulkString(payload.clone()));
    assert_eq!(back.into_string().unwrap(), payload);
}

#[test]
fn round_trip_integers() {
    for n in [0i64, 7, -42, i64::MAX, i64::MIN] {
        let back = round_trip(Resp::Int(n));
        if let Resp::Int(m) = back {
            assert_eq!(m, n);
        } else {
            panic!("Expected an integer!");
        }
    }
}

#[test]
fn round_trip_nested_array() {
    let value = Resp::Array(vec![
        Resp::BulkString(b"outer".to_vec()),
        Resp::Array(vec![Resp::Int(-1), Resp::SimpleString(b"OK".to_vec())]),
    ]);
    let back = round_trip(value);
    if let Resp::Array(elems) = back {
        assert_eq!(elems.len(), 2);
        if let Resp::Array(inner) = &elems[1] {
            assert_eq!(inner.len(), 2);
            if let Resp::Int(m) = inner[0] {
                assert_eq!(m, -1);
            } else {
                panic!("Expected an integer!");
            }
        } else {
            panic!("Expected an inner array!");
        }
    } else {
        panic!("Expected an array!");
    }
}

#[test]
fn serialize_exact_bytes() {
    assert_eq!(Resp::Int(-42).serialize(), b":-42\r\n".to_vec());
    assert_eq!(
        Resp::BulkString(b"bar".to_vec()).serialize(),
        b"$3\r\nbar\r\n".to_vec()
    );
    assert_eq!(
        Resp::SimpleString(b"PONG".to_vec()).serialize(),
        b"+PONG\r\n".to_vec()
    );
    assert_eq!(
        Resp::Array(vec![Resp::BulkString(b"a".to_vec())]).serialize(),
        b"*1\r\n$1\r\na\r\n".to_vec()
    );
}

#[test]
fn serialize_raw_payload_has_no_trailing_terminator() {
    let payload = bytes::Bytes::copy_from_slice(b"\x00\x01raw");
    let out = Resp::File(payload).serialize();
    assert_eq!(out, b"$5\r\n\x00\x01raw".to_vec());
}

#[test]
fn parse_rejects_unknown_tag() {
    let mut parser = Parser::new(b"!oops\r\n");
    assert_eq!(parser.parse().unwrap_err(), ProtocolError::UnknownTag);
}

#[test]
fn parse_rejects_unterminated_frame() {
    let mut parser = Parser::new(b"+never finished");
    assert_eq!(parser.parse().unwrap_err(), ProtocolError::Unterminated);
    let mut parser = Parser::new(b"");
    assert_eq!(parser.parse().unwrap_err(), ProtocolError::Unterminated);
}

#[test]
fn parse_rejects_bad_integer() {
    let mut parser = Parser::new(b":twelve\r\n");
    assert_eq!(parser.parse().unwrap_err(), ProtocolError::BadInteger);
    // The absent-value sentinel is never accepted on parse.
    let mut parser = Parser::new(b"$-1\r\n");
    assert_eq!(parser.parse().unwrap_err(), ProtocolError::BadInteger);
}

#[test]
fn parse_rejects_length_mismatch() {
    let mut parser = Parser::new(b"$10\r\nshort\r\n");
    assert_eq!(parser.parse().unwrap_err(), ProtocolError::LengthMismatch);
    let mut parser = Parser::new(b"$3\r\nbarX\r\n");
    assert_eq!(parser.parse().unwrap_err(), ProtocolError::LengthMismatch);
}

#[test]
fn array_parse_is_atomic() {
    // A failure at the second element fails the whole array and leaves
    // the cursor where the array began.
    let input = b"*2\r\n$1\r\na\r\n:bad\r\n";
    let mut parser = Parser::new(input);
    assert_eq!(parser.parse().unwrap_err(), ProtocolError::BadInteger);
    // The cursor was rolled back: a fresh parse attempt sees the array
    // tag again and fails the same way, not with a leftover element.
    assert_eq!(parser.parse().unwrap_err(), ProtocolError::BadInteger);
}

#[test]
fn into_string_fails_on_non_strings() {
    assert!(Resp::Int(5).into_string().is_none());
    assert!(Resp::Array(vec![]).into_string().is_none());
}

#[test]
fn parse_leaves_trailing_bytes() {
    let mut parser = Parser::new(b"+one\r\n+two\r\n");
    assert_eq!(parser.parse().unwrap().into_string().unwrap(), b"one".to_vec());
    assert_eq!(parser.parse().unwrap().into_string().unwrap(), b"two".to_vec());
}
