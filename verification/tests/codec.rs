use miniredis::resp::{decode_value, encode_reply, DataType, DecodeErr, Reply, MAX_DEPTH};

#[test]
fn decode_simple_string() {
    let input = b"+OK\r\n".to_vec();
    let (v, c) = decode_value(&input, 0, MAX_DEPTH).unwrap();
    assert_eq!(v, DataType::SimpleString(b"OK".to_vec()));
    assert_eq!(c, 5);
}

#[test]
fn decode_simple_error() {
    let input = b"-ERR something\r\n".to_vec();
    let (v, c) = decode_value(&input, 0, MAX_DEPTH).unwrap();
    assert_eq!(v, DataType::SimpleError(b"ERR something".to_vec()));
    assert_eq!(c, input.len());
}

#[test]
fn decode_integer() {
    let input = b":123\r\n".to_vec();
    let (v, c) = decode_value(&input, 0, MAX_DEPTH).unwrap();
    assert_eq!(v, DataType::Integer(123));
    assert_eq!(c, 6);
}

#[test]
fn decode_integer_largest() {
    let input = b":18446744073709551615\r\n".to_vec();
    let (v, _) = decode_value(&input, 0, MAX_DEPTH).unwrap();
    assert_eq!(v, DataType::Integer(u64::MAX));
}

#[test]
fn decode_integer_overflow_is_protocol_error() {
    let input = b":18446744073709551616\r\n".to_vec();
    assert_eq!(decode_value(&input, 0, MAX_DEPTH).unwrap_err(), DecodeErr::Protocol);
}

#[test]
fn decode_integer_not_numeric_is_protocol_error() {
    let input = b":12a\r\n".to_vec();
    assert_eq!(decode_value(&input, 0, MAX_DEPTH).unwrap_err(), DecodeErr::Protocol);
    let input = b":+1\r\n".to_vec();
    assert_eq!(decode_value(&input, 0, MAX_DEPTH).unwrap_err(), DecodeErr::Protocol);
    let input = b":\r\n".to_vec();
    assert_eq!(decode_value(&input, 0, MAX_DEPTH).unwrap_err(), DecodeErr::Protocol);
}

#[test]
fn decode_bulk_string() {
    let input = b"$4\r\nPING\r\n".to_vec();
    let (v, c) = decode_value(&input, 0, MAX_DEPTH).unwrap();
    assert_eq!(v, DataType::BulkString(b"PING".to_vec()));
    assert_eq!(c, 10);
}

#[test]
fn decode_empty_bulk_string() {
    let input = b"$0\r\n\r\n".to_vec();
    let (v, c) = decode_value(&input, 0, MAX_DEPTH).unwrap();
    assert_eq!(v, DataType::BulkString(Vec::new()));
    assert_eq!(c, 6);
}

#[test]
fn decode_bulk_string_is_binary_safe() {
    // The payload itself contains a terminator pair.
    let input = b"$4\r\nab\r\n\r\n".to_vec();
    let (v, c) = decode_value(&input, 0, MAX_DEPTH).unwrap();
    assert_eq!(v, DataType::BulkString(b"ab\r\n".to_vec()));
    assert_eq!(c, 10);
}

#[test]
fn decode_bulk_length_with_leading_zeros() {
    let input = b"$03\r\nabc\r\n".to_vec();
    let (v, _) = decode_value(&input, 0, MAX_DEPTH).unwrap();
    assert_eq!(v, DataType::BulkString(b"abc".to_vec()));
}

#[test]
fn decode_negative_bulk_length_is_protocol_error() {
    let input = b"$-1\r\n".to_vec();
    assert_eq!(decode_value(&input, 0, MAX_DEPTH).unwrap_err(), DecodeErr::Protocol);
}

#[test]
fn decode_array_of_bulk_strings() {
    let input = b"*2\r\n$4\r\nECHO\r\n$3\r\nhey\r\n".to_vec();
    let (v, c) = decode_value(&input, 0, MAX_DEPTH).unwrap();
    assert_eq!(
        v,
        DataType::Array(vec![
            DataType::BulkString(b"ECHO".to_vec()),
            DataType::BulkString(b"hey".to_vec()),
        ])
    );
    assert_eq!(c, input.len());
}

#[test]
fn decode_empty_array() {
    let input = b"*0\r\n".to_vec();
    let (v, c) = decode_value(&input, 0, MAX_DEPTH).unwrap();
    assert_eq!(v, DataType::Array(Vec::new()));
    assert_eq!(c, 4);
}

#[test]
fn decode_nested_array() {
    let input = b"*2\r\n*2\r\n+a\r\n:7\r\n$1\r\nb\r\n".to_vec();
    let (v, c) = decode_value(&input, 0, MAX_DEPTH).unwrap();
    assert_eq!(
        v,
        DataType::Array(vec![
            DataType::Array(vec![
                DataType::SimpleString(b"a".to_vec()),
                DataType::Integer(7),
            ]),
            DataType::BulkString(b"b".to_vec()),
        ])
    );
    assert_eq!(c, input.len());
}

#[test]
fn decode_consumes_one_value_of_pipelined_input() {
    let input = b"+first\r\n+second\r\n".to_vec();
    let (v, c) = decode_value(&input, 0, MAX_DEPTH).unwrap();
    assert_eq!(v, DataType::SimpleString(b"first".to_vec()));
    assert_eq!(c, 8);
    let (v2, _) = decode_value(&input, c, MAX_DEPTH).unwrap();
    assert_eq!(v2, DataType::SimpleString(b"second".to_vec()));
}

#[test]
fn decode_unknown_prefix_is_protocol_error() {
    let input = b"?x\r\n".to_vec();
    assert_eq!(decode_value(&input, 0, MAX_DEPTH).unwrap_err(), DecodeErr::Protocol);
}

#[test]
fn decode_empty_line_is_protocol_error() {
    let input = b"\r\n".to_vec();
    assert_eq!(decode_value(&input, 0, MAX_DEPTH).unwrap_err(), DecodeErr::Protocol);
}

#[test]
fn decode_incomplete_inputs() {
    let cases: Vec<&[u8]> = vec![
        b"",
        b"+OK",
        b"$5\r\nab",
        b"$5\r\nabcde",
        b"*2\r\n$4\r\nECHO\r\n",
        b"*1\r\n",
    ];
    for case in cases {
        let input = case.to_vec();
        assert_eq!(
            decode_value(&input, 0, MAX_DEPTH).unwrap_err(),
            DecodeErr::Incomplete,
            "case {:?}",
            case
        );
    }
}

#[test]
fn encode_simple_string_reply() {
    let out = encode_reply(&Reply::Simple(b"PONG".to_vec()));
    assert_eq!(out, b"+PONG\r\n".to_vec());
}

#[test]
fn encode_error_reply() {
    let out = encode_reply(&Reply::SimpleError(b"unknown command".to_vec()));
    assert_eq!(out, b"-unknown command\r\n".to_vec());
}

#[test]
fn encode_bulk_reply() {
    let out = encode_reply(&Reply::Bulk(b"hey".to_vec()));
    assert_eq!(out, b"$3\r\nhey\r\n".to_vec());
}

#[test]
fn encode_empty_bulk_reply() {
    let out = encode_reply(&Reply::Bulk(Vec::new()));
    assert_eq!(out, b"$0\r\n\r\n".to_vec());
}

#[test]
fn encode_null_bulk_reply() {
    let out = encode_reply(&Reply::NullBulk);
    assert_eq!(out, b"$-1\r\n".to_vec());
}

#[test]
fn encode_config_pair_reply() {
    let out = encode_reply(&Reply::ConfigPair(b"dir".to_vec(), b"/tmp".to_vec()));
    assert_eq!(out, b"*2\r\n$3\r\ndir\r\n$4\r\n/tmp\r\n".to_vec());
}

#[test]
fn bulk_round_trip_preserves_payload() {
    let payloads: Vec<Vec<u8>> = vec![
        Vec::new(),
        b"hey".to_vec(),
        b"a\r\nb\r\n".to_vec(),
        vec![0u8; 100],
        (0u8..=255).collect(),
    ];
    for payload in payloads {
        let wire = encode_reply(&Reply::Bulk(payload.clone()));
        let (v, c) = decode_value(&wire, 0, MAX_DEPTH).unwrap();
        assert_eq!(v, DataType::BulkString(payload));
        assert_eq!(c, wire.len());
    }
}

#[test]
fn nesting_beyond_the_depth_guard_is_a_protocol_error() {
    // Arrays nested one level deeper than the guard allows.
    let mut input = Vec::new();
    for _ in 0..(MAX_DEPTH + 1) {
        input.extend_from_slice(b"*1\r\n");
    }
    input.extend_from_slice(b"+x\r\n");
    assert_eq!(decode_value(&input, 0, MAX_DEPTH).unwrap_err(), DecodeErr::Protocol);

    // At the guard itself the same shape still decodes.
    let mut input = Vec::new();
    for _ in 0..MAX_DEPTH {
        input.extend_from_slice(b"*1\r\n");
    }
    input.extend_from_slice(b"+x\r\n");
    let (_, c) = decode_value(&input, 0, MAX_DEPTH).unwrap();
    assert_eq!(c, input.len());
}
