use cbor_socket::codec::{
    decode_request, decode_response, encode_request, encode_response, scan_request,
    scan_response, Decoded,
};
use cbor_socket::message::{
    CborSocketExampleError, SocketMessage, SocketRequest, SocketResponse,
};
use serde_cbor::Value;
use std::collections::BTreeMap;

fn text(s: &str) -> Value {
    Value::Text(s.to_string())
}

fn map_of(entries: Vec<(&str, Value)>) -> Value {
    let mut m = BTreeMap::new();
    for (k, v) in entries {
        m.insert(text(k), v);
    }
    Value::Map(m)
}

fn io_failure(message: &str) -> CborSocketExampleError {
    CborSocketExampleError::IoError { message: message.to_string() }
}

fn all_responses() -> Vec<SocketResponse> {
    let mut out = Vec::new();
    for message in [SocketMessage::Ping, SocketMessage::Pong] {
        let errors = vec![
            None,
            Some(CborSocketExampleError::StuffBroke),
            Some(CborSocketExampleError::CborSerializationError),
            Some(io_failure("")),
            Some(io_failure("connection refused")),
            Some(io_failure("caf\u{e9} \u{4e16}\u{754c} \u{1f980}")),
            Some(io_failure(&"x".repeat(23))),
            Some(io_failure(&"x".repeat(24))),
            Some(io_failure(&"y".repeat(255))),
            Some(io_failure(&"y".repeat(256))),
            Some(io_failure(&"z".repeat(65535))),
            Some(io_failure(&"z".repeat(65536))),
        ];
        for error in errors {
            out.push(SocketResponse { message, error });
        }
    }
    out
}

#[test]
fn request_bytes_are_exact() {
    let ping = encode_request(&SocketRequest { message: SocketMessage::Ping });
    assert_eq!(
        ping,
        vec![0xa1, 0x67, b'm', b'e', b's', b's', b'a', b'g', b'e', 0x64, b'P', b'i', b'n', b'g']
    );
    let pong = encode_request(&SocketRequest { message: SocketMessage::Pong });
    assert_eq!(
        pong,
        vec![0xa1, 0x67, b'm', b'e', b's', b's', b'a', b'g', b'e', 0x64, b'P', b'o', b'n', b'g']
    );
}

#[test]
fn response_bytes_are_exact() {
    let bare = encode_response(&SocketResponse { message: SocketMessage::Pong, error: None });
    let mut expected = vec![0xa2, 0x67];
    expected.extend_from_slice(b"message");
    expected.push(0x64);
    expected.extend_from_slice(b"Pong");
    expected.push(0x65);
    expected.extend_from_slice(b"error");
    let prefix = expected.clone();
    expected.push(0xf6);
    assert_eq!(bare, expected);

    let broke = encode_response(&SocketResponse {
        message: SocketMessage::Pong,
        error: Some(CborSocketExampleError::StuffBroke),
    });
    let mut expected = prefix.clone();
    expected.push(0x6a);
    expected.extend_from_slice(b"StuffBroke");
    assert_eq!(broke, expected);

    let codec = encode_response(&SocketResponse {
        message: SocketMessage::Pong,
        error: Some(CborSocketExampleError::CborSerializationError),
    });
    let mut expected = prefix.clone();
    expected.push(0x76);
    expected.extend_from_slice(b"CborSerializationError");
    assert_eq!(codec, expected);

    let io = encode_response(&SocketResponse {
        message: SocketMessage::Pong,
        error: Some(io_failure("gone")),
    });
    let mut expected = prefix;
    expected.extend_from_slice(&[0xa1, 0x67]);
    expected.extend_from_slice(b"IoError");
    expected.extend_from_slice(&[0xa1, 0x67]);
    expected.extend_from_slice(b"message");
    expected.push(0x64);
    expected.extend_from_slice(b"gone");
    assert_eq!(io, expected);
}

#[test]
fn text_lengths_take_the_shortest_header() {
    let tail = |n: usize| -> Vec<u8> {
        let bytes = encode_response(&SocketResponse {
            message: SocketMessage::Ping,
            error: Some(io_failure(&"a".repeat(n))),
        });
        bytes[38..bytes.len() - n].to_vec()
    };
    assert_eq!(tail(0), vec![0x60]);
    assert_eq!(tail(23), vec![0x77]);
    assert_eq!(tail(24), vec![0x78, 24]);
    assert_eq!(tail(255), vec![0x78, 255]);
    assert_eq!(tail(256), vec![0x79, 1, 0]);
    assert_eq!(tail(65535), vec![0x79, 255, 255]);
    assert_eq!(tail(65536), vec![0x7a, 0, 1, 0, 0]);
    assert_eq!(tail(70000), vec![0x7a, 0, 1, 0x11, 0x70]);
}

#[test]
fn request_round_trip() {
    for message in [SocketMessage::Ping, SocketMessage::Pong] {
        let request = SocketRequest { message };
        let bytes = encode_request(&request);
        assert_eq!(decode_request(&bytes), Ok((request, bytes.len())));
        assert_eq!(scan_request(&bytes), Decoded::Complete(request, bytes.len()));
    }
}

#[test]
fn response_round_trip() {
    for response in all_responses() {
        let bytes = encode_response(&response);
        assert_eq!(decode_response(&bytes), Ok((response.clone(), bytes.len())));
        assert_eq!(scan_response(&bytes), Decoded::Complete(response, bytes.len()));
    }
}

#[test]
fn round_trip_ignores_what_follows() {
    let request = SocketRequest { message: SocketMessage::Ping };
    let mut bytes = encode_request(&request);
    let len = bytes.len();
    bytes.extend_from_slice(&[0xff, 0x00, 0x13]);
    assert_eq!(decode_request(&bytes), Ok((request, len)));

    let response = SocketResponse { message: SocketMessage::Pong, error: Some(io_failure("late")) };
    let mut bytes = encode_response(&response);
    let len = bytes.len();
    bytes.extend_from_slice(&[0x61, 0x61]);
    assert_eq!(decode_response(&bytes), Ok((response, len)));
}

#[test]
fn two_values_back_to_back_are_read_in_order() {
    let first = SocketRequest { message: SocketMessage::Ping };
    let second = SocketRequest { message: SocketMessage::Pong };
    let mut stream = encode_request(&first);
    stream.extend_from_slice(&encode_request(&second));
    let (a, used) = decode_request(&stream).unwrap();
    assert_eq!(a, first);
    let (b, used_b) = decode_request(&stream[used..]).unwrap();
    assert_eq!(b, second);
    assert_eq!(used + used_b, stream.len());

    let responses = all_responses();
    for pair in responses.windows(2) {
        let mut stream = encode_response(&pair[0]);
        stream.extend_from_slice(&encode_response(&pair[1]));
        let (a, used) = decode_response(&stream).unwrap();
        assert_eq!(a, pair[0]);
        let (b, used_b) = decode_response(&stream[used..]).unwrap();
        assert_eq!(b, pair[1]);
        assert_eq!(used + used_b, stream.len());
    }
}

#[test]
fn request_then_response_on_one_stream() {
    let request = SocketRequest { message: SocketMessage::Ping };
    let response = SocketResponse {
        message: SocketMessage::Pong,
        error: Some(CborSocketExampleError::StuffBroke),
    };
    let mut stream = encode_request(&request);
    stream.extend_from_slice(&encode_response(&response));
    let (a, used) = decode_request(&stream).unwrap();
    assert_eq!(a, request);
    assert_eq!(decode_response(&stream[used..]), Ok((response, stream.len() - used)));
}

#[test]
fn truncated_request_is_incomplete() {
    let bytes = encode_request(&SocketRequest { message: SocketMessage::Pong });
    for len in 0..bytes.len() {
        assert_eq!(scan_request(&bytes[..len]), Decoded::Incomplete);
        assert_eq!(
            decode_request(&bytes[..len]),
            Err(CborSocketExampleError::CborSerializationError)
        );
    }
}

#[test]
fn truncated_response_is_incomplete() {
    for response in all_responses() {
        let bytes = encode_response(&response);
        let cuts: Vec<usize> = if bytes.len() < 400 {
            (0..bytes.len()).collect()
        } else {
            vec![0, 20, 37, 38, 39, 40, 41, 300, bytes.len() - 1]
        };
        for len in cuts {
            assert_eq!(scan_response(&bytes[..len]), Decoded::Incomplete);
            assert_eq!(
                decode_response(&bytes[..len]),
                Err(CborSocketExampleError::CborSerializationError)
            );
        }
    }
}

#[test]
fn malformed_bytes_are_rejected() {
    assert_eq!(scan_request(&[0xff]), Decoded::Malformed);
    assert_eq!(scan_request(&[0xa2]), Decoded::Malformed);
    assert_eq!(scan_request(b"hello world, this is no request"), Decoded::Malformed);
    assert_eq!(
        decode_request(&[0xff, 0xff]),
        Err(CborSocketExampleError::CborSerializationError)
    );
    let mut unknown = encode_request(&SocketRequest { message: SocketMessage::Ping });
    let last = unknown.len() - 1;
    unknown[last] = b'x';
    assert_eq!(scan_request(&unknown), Decoded::Malformed);

    assert_eq!(scan_response(&[0xa1]), Decoded::Malformed);
    let good = encode_response(&SocketResponse { message: SocketMessage::Pong, error: None });
    let mut bad = good.clone();
    let last = bad.len() - 1;
    bad[last] = 0xf7;
    assert_eq!(scan_response(&bad), Decoded::Malformed);
    assert_eq!(decode_response(&bad), Err(CborSocketExampleError::CborSerializationError));
}

#[test]
fn text_that_is_not_utf8_is_rejected() {
    let mut bytes = encode_response(&SocketResponse {
        message: SocketMessage::Pong,
        error: Some(io_failure("ab")),
    });
    let last = bytes.len() - 1;
    bytes[last] = 0xff;
    assert_eq!(scan_response(&bytes), Decoded::Malformed);
    bytes[last - 1] = 0xc3;
    bytes[last] = 0xa9;
    assert_eq!(
        decode_response(&bytes),
        Ok((
            SocketResponse { message: SocketMessage::Pong, error: Some(io_failure("\u{e9}")) },
            bytes.len()
        ))
    );
}

#[test]
fn longer_header_than_needed_is_rejected() {
    let good = encode_response(&SocketResponse {
        message: SocketMessage::Pong,
        error: Some(io_failure("abc")),
    });
    let mut padded = good[..38].to_vec();
    padded.extend_from_slice(&[0x78, 3]);
    padded.extend_from_slice(b"abc");
    assert_eq!(scan_response(&padded), Decoded::Malformed);
    let mut wide = good[..38].to_vec();
    wide.extend_from_slice(&[0x79, 0, 200]);
    wide.extend_from_slice(&[b'a'; 200]);
    assert_eq!(scan_response(&wide), Decoded::Malformed);
    let mut huge = good[..38].to_vec();
    huge.extend_from_slice(&[0x7b, 0xff, 0xff, 0xff, 0xff, 0xff, 0xff, 0xff, 0xff]);
    assert_eq!(scan_response(&huge), Decoded::Incomplete);
}

#[test]
fn bytes_read_as_the_same_items_by_a_cbor_reader() {
    let ping = encode_request(&SocketRequest { message: SocketMessage::Ping });
    let value: Value = serde_cbor::from_slice(&ping).unwrap();
    assert_eq!(value, map_of(vec![("message", text("Ping"))]));

    let cases = vec![
        (None, Value::Null),
        (Some(CborSocketExampleError::StuffBroke), text("StuffBroke")),
        (
            Some(CborSocketExampleError::CborSerializationError),
            text("CborSerializationError"),
        ),
        (
            Some(io_failure("caf\u{e9}")),
            map_of(vec![("IoError", map_of(vec![("message", text("caf\u{e9}"))]))]),
        ),
        (
            Some(io_failure(&"q".repeat(300))),
            map_of(vec![("IoError", map_of(vec![("message", text(&"q".repeat(300)))]))]),
        ),
    ];
    for (error, expected) in cases {
        let bytes = encode_response(&SocketResponse { message: SocketMessage::Pong, error });
        let value: Value = serde_cbor::from_slice(&bytes).unwrap();
        assert_eq!(value, map_of(vec![("message", text("Pong")), ("error", expected)]));
    }
}

#[test]
fn bytes_of_a_cbor_writer_are_read() {
    for (name, message) in [("Ping", SocketMessage::Ping), ("Pong", SocketMessage::Pong)] {
        let bytes = serde_cbor::to_vec(&map_of(vec![("message", text(name))])).unwrap();
        assert_eq!(bytes, encode_request(&SocketRequest { message }));
        assert_eq!(decode_request(&bytes), Ok((SocketRequest { message }, bytes.len())));
    }
    for n in [0usize, 5, 23, 24, 255, 256, 70000] {
        let message = "m".repeat(n);
        let item = serde_cbor::to_vec(&text(&message)).unwrap();
        let ours = encode_response(&SocketResponse {
            message: SocketMessage::Ping,
            error: Some(io_failure(&message)),
        });
        assert_eq!(&ours[38..], &item[..]);
    }
}
