//! Parser tests over the wire format's basic frames.
use respkv::resp::parse::Parser;
use respkv::resp::Resp;

#[test]
fn resp_parse_simple_string() {
    let s = "lisp";
    let encoded = format!("+{s}\r\n");
    let mut parser = Parser::new(encoded.as_bytes());
    let decoded = parser.parse().unwrap().into_string().unwrap();
    assert_eq!(decoded, s.as_bytes().to_vec());
}

#[test]
fn resp_parse_empty_bulk_string() {
    let s = "";
    let encoded = format!("${}\r\n{}\r\n", s.len(), s);
    let mut parser = Parser::new(encoded.as_bytes());
    let decoded = parser.parse().unwrap().into_string().unwrap();
    assert_eq!(decoded, s.as_bytes().to_vec());
}

#[test]
fn resp_parse_bulk_string() {
    let s = "This is a bulk string!";
    let encoded = format!("${}\r\n{}\r\n", s.len(), s);
    let mut parser = Parser::new(encoded.as_bytes());
    let decoded = parser.parse().unwrap().into_string().unwrap();
    assert_eq!(decoded, s.as_bytes().to_vec());
}

#[test]
fn resp_parse_array() {
    let s = "*2\r\n$5\r\nhello\r\n$6\r\nworld!\r\n";
    let expected_out = vec![b"hello".to_vec(), b"world!".to_vec()];

    let mut parser = Parser::new(s.as_bytes());
    let decoded = parser.parse().unwrap();

    if let Resp::Array(vec) = decoded {
        let decoded: Vec<_> = vec.into_iter().map(|x| x.into_string().unwrap()).collect();
        assert_eq!(decoded, expected_out);
    } else {
        panic!("Expected an array!");
    }
}

#[test]
fn parse_parse_simple_string() {
    let s = "lisp";
    let encoded = format!("+{s}\r\n");
    let mut parser = Parser::new(encoded.as_bytes());
    let decoded = parser.parse().unwrap().into_string().unwrap();
    assert_eq!(decoded, s.as_bytes().to_vec());
}

#[test]
fn parse_parse_empty_bulk_string() {
    let s = "";
    let encoded = format!("${}\r\n{}\r\n", s.len(), s);
    let mut parser = Parser::new(encoded.as_bytes());
    let decoded = parser.parse().unwrap().into_string().unwrap();
    assert_eq!(decoded, s.as_bytes().to_vec());
}

#[test]
fn parse_parse_bulk_string() {
    let s = "This is a bulk string!";
    let encoded = format!("${}\r\n{}\r\n", s.len(), s);
    let mut parser = Parser::new(encoded.as_bytes());
    let decoded = parser.parse().unwrap().into_string().unwrap();
    assert_eq!(decoded, s.as_bytes().to_vec());
}

#[test]
fn parse_parse_array() {
    let s = "*2\r\n$5\r\nhello\r\n$6\r\nworld!\r\n";
    let expected_out = vec![b"hello".to_vec(), b"world!".to_vec()];

    let mut parser = Parser::new(s.as_bytes());
    let decoded = parser.parse().unwrap();

    if let Resp::Array(vec) = decoded {
        let decoded: Vec<_> = vec.into_iter().map(|x| x.into_string().unwrap()).collect();
        assert_eq!(decoded, expected_out);
    } else {
        panic!("Expected an array!");
    }
}
