use platypus::protocol::binary::{
    parse_binary, serialize_binary_response, BinaryHeader, MAGIC_REQUEST, MAGIC_RESPONSE,
    OPCODE_DELETE, OPCODE_GET, OPCODE_GETK, OPCODE_NOOP, OPCODE_QUIT, OPCODE_SET, OPCODE_STAT,
    OPCODE_VERSION, STATUS_INVALID_ARGUMENTS, STATUS_ITEM_NOT_STORED, STATUS_KEY_EXISTS,
    STATUS_KEY_NOT_FOUND, STATUS_OUT_OF_MEMORY, STATUS_SUCCESS, STATUS_UNKNOWN_COMMAND,
};
use platypus::protocol::{
    parse_any, recv_command, Command, CommandContext, Item, MetaFlag, ParseError, ProtocolType,
    Received, Response,
};

fn request(opcode: u8, extras: &[u8], key: &[u8], value: &[u8], opaque: u32) -> Vec<u8> {
    let mut header = BinaryHeader::new_request(
        opcode,
        key.len() as u16,
        extras.len() as u8,
        (extras.len() + key.len() + value.len()) as u32,
    );
    header.opaque = opaque;
    let mut packet = Vec::new();
    header.write_to(&mut packet);
    packet.extend_from_slice(extras);
    packet.extend_from_slice(key);
    packet.extend_from_slice(value);
    packet
}

fn reason(data: &[u8]) -> String {
    match parse_binary(data) {
        Err(ParseError::Other(reason)) => reason,
        other => panic!("expected a malformed packet, got {:?}", other),
    }
}

#[test]
fn test_binary_header_serialization() {
    let header = BinaryHeader::new_request(OPCODE_GET, 5, 0, 5);
    let mut buffer = Vec::new();
    header.write_to(&mut buffer);

    assert_eq!(buffer.len(), 24);
    assert_eq!(buffer[0], MAGIC_REQUEST);
    assert_eq!(buffer[1], OPCODE_GET);
}

#[test]
fn test_parse_get_command() {
    let mut packet = Vec::new();
    let header = BinaryHeader::new_request(OPCODE_GET, 5, 0, 5);
    header.write_to(&mut packet);
    packet.extend_from_slice(b"Hello");

    let (cmd, _opaque, _consumed) = parse_binary(&packet).unwrap();
    match cmd {
        Command::Get(keys) => {
            assert_eq!(keys.len(), 1);
            assert_eq!(keys[0], "Hello");
        }
        _ => panic!("Expected Get command"),
    }
}

#[test]
fn test_parse_version_command() {
    let mut packet = Vec::new();
    let header = BinaryHeader::new_request(OPCODE_VERSION, 0, 0, 0);
    header.write_to(&mut packet);

    let (cmd, _opaque, _consumed) = parse_binary(&packet).unwrap();
    assert!(matches!(cmd, Command::Version));
}

#[test]
fn test_serialize_version_response() {
    let response = Response::Version("1.0.0".to_string());
    let data = serialize_binary_response(&response, 0).unwrap();

    assert!(data.len() >= 24);
    assert_eq!(data[0], MAGIC_RESPONSE);
    assert_eq!(data[1], OPCODE_VERSION);
}

#[test]
fn test_serialize_not_found_response() {
    let response = Response::NotFound;
    let data = serialize_binary_response(&response, 0).unwrap();

    assert_eq!(data.len(), 24);
    assert_eq!(data[0], MAGIC_RESPONSE);
    let status = u16::from_be_bytes([data[6], data[7]]);
    assert_eq!(status, STATUS_KEY_NOT_FOUND);
}

#[test]
fn test_parse_any_binary_protocol() {
    let mut packet = Vec::new();
    let header = BinaryHeader::new_request(0x00, 4, 0, 4);
    header.write_to(&mut packet);
    packet.extend_from_slice(b"test");

    let cmd = parse_any(&packet).unwrap();
    match cmd {
        Command::Get(keys) => {
            assert_eq!(keys.len(), 1);
            assert_eq!(keys[0], "test");
        }
        _ => panic!("Expected Get command"),
    }
}

#[test]
fn test_parse_any_version_binary() {
    let mut packet = Vec::new();
    let header = BinaryHeader::new_request(0x0b, 0, 0, 0);
    header.write_to(&mut packet);

    let cmd = parse_any(&packet).unwrap();
    assert!(matches!(cmd, Command::Version));
}

#[test]
fn header_bytes_are_big_endian() {
    let header = BinaryHeader {
        magic: 0x81,
        opcode: 0x10,
        key_length: 0x0102,
        extras_length: 4,
        data_type: 0,
        status_or_reserved: 0x0081,
        total_body_length: 0x0a0b0c0d,
        opaque: 0xdeadbeef,
        cas: 0x0102030405060708,
    };
    let mut bytes = Vec::new();
    header.write_to(&mut bytes);
    assert_eq!(
        bytes,
        vec![
            0x81, 0x10, 0x01, 0x02, 4, 0, 0x00, 0x81, 0x0a, 0x0b, 0x0c, 0x0d, 0xde, 0xad, 0xbe,
            0xef, 1, 2, 3, 4, 5, 6, 7, 8
        ]
    );
    bytes.push(0xff);
    let back = BinaryHeader::read_from(&bytes).unwrap();
    assert_eq!(back.magic, 0x81);
    assert_eq!(back.opcode, 0x10);
    assert_eq!(back.key_length, 0x0102);
    assert_eq!(back.extras_length, 4);
    assert_eq!(back.status_or_reserved, 0x0081);
    assert_eq!(back.total_body_length, 0x0a0b0c0d);
    assert_eq!(back.opaque, 0xdeadbeef);
    assert_eq!(back.cas, 0x0102030405060708);
    assert!(BinaryHeader::read_from(&bytes[..23]).is_err());
    let response = BinaryHeader::new_response(OPCODE_GET, 1, 2, 3, 4, 5);
    assert_eq!(response.magic, MAGIC_RESPONSE);
    assert_eq!(response.status_or_reserved, 3);
    assert_eq!(response.cas, 5);
    assert_eq!(response.opaque, 0);
}

#[test]
fn binary_get_framing() {
    let bytes = [
        0x80, 0x00, 0x00, 0x04, 0x00, 0x00, 0x00, 0x00, 0x00, 0x00, 0x00, 0x04, 0x00, 0x00, 0x00,
        0x00, 0x00, 0x00, 0x00, 0x00, 0x00, 0x00, 0x00, 0x00, 0x74, 0x65, 0x73, 0x74,
    ];
    assert_eq!(
        recv_command(&bytes, false),
        Received::Command(
            CommandContext {
                command: Command::Get(vec!["test".to_string()]),
                protocol: ProtocolType::Binary { opaque: 0 }
            },
            28
        )
    );
    let response = Response::Values(vec![Item {
        key: "test".to_string(),
        flags: 0,
        exptime: 0,
        data: b"v".to_vec(),
        cas: None,
    }]);
    let out = response.serialize(&ProtocolType::Binary { opaque: 0 });
    assert_eq!(out[0], 0x81);
}

#[test]
fn binary_commands_and_what_they_take() {
    assert_eq!(
        parse_binary(&request(OPCODE_GETK, b"", b"k", b"", 7)).unwrap(),
        (Command::Get(vec!["k".to_string()]), 7, 25)
    );
    assert_eq!(
        parse_binary(&request(OPCODE_QUIT, b"", b"", b"", 1)).unwrap(),
        (Command::Quit, 1, 24)
    );
    assert_eq!(
        parse_binary(&request(OPCODE_STAT, b"", b"", b"", 0)).unwrap(),
        (Command::Stats(None), 0, 24)
    );
    assert_eq!(
        parse_binary(&request(OPCODE_STAT, b"", b"slabs", b"", 0)).unwrap(),
        (Command::Stats(Some("slabs".to_string())), 0, 29)
    );
    assert_eq!(
        parse_binary(&request(OPCODE_DELETE, b"", b"key", b"", 0xffff_ffff)).unwrap(),
        (Command::Touch("key".to_string(), 0), 0xffff_ffff, 27)
    );
    let mut two = request(OPCODE_VERSION, b"", b"", b"", 3);
    two.extend_from_slice(&request(OPCODE_QUIT, b"", b"", b"", 4));
    assert_eq!(parse_binary(&two).unwrap(), (Command::Version, 3, 24));
}

#[test]
fn binary_errors_say_why() {
    assert_eq!(reason(&[0x80; 23]), "Binary packet too small");
    let mut response = request(OPCODE_GET, b"", b"k", b"", 0);
    response[0] = 0x81;
    assert_eq!(reason(&response), "Invalid magic byte for request");
    let mut short = request(OPCODE_GET, b"", b"key", b"", 0);
    short.pop();
    assert_eq!(reason(&short), "failed to fill whole buffer");
    let mut inconsistent = request(OPCODE_GET, b"", b"key", b"", 0);
    inconsistent[11] = 2;
    assert_eq!(reason(&inconsistent), "Invalid body length");
    assert_eq!(reason(&request(OPCODE_GET, b"", &[0xff, 0xfe], b"", 0)), "Invalid key encoding");
    assert_eq!(reason(&request(OPCODE_GET, b"x", b"k", b"", 0)), "Get command must not have extras");
    assert_eq!(reason(&request(OPCODE_GET, b"", b"", b"", 0)), "Get command must have key");
    assert_eq!(reason(&request(OPCODE_GET, b"", b"k", b"v", 0)), "Get command must not have value");
    assert_eq!(
        reason(&request(OPCODE_VERSION, b"", b"k", b"", 0)),
        "Version command must not have extras, key, or value"
    );
    assert_eq!(
        reason(&request(OPCODE_QUIT, b"", b"", b"v", 0)),
        "Quit command must not have extras, key, or value"
    );
    assert_eq!(reason(&request(OPCODE_STAT, b"x", b"", b"", 0)), "Stat command must not have extras");
    assert_eq!(reason(&request(OPCODE_STAT, b"", b"", b"v", 0)), "Stat command must not have value");
    assert_eq!(
        reason(&request(OPCODE_DELETE, b"x", b"k", b"", 0)),
        "Delete command must not have extras"
    );
    assert_eq!(reason(&request(OPCODE_DELETE, b"", b"", b"", 0)), "Delete command must have key");
    assert_eq!(
        reason(&request(OPCODE_DELETE, b"", b"k", b"v", 0)),
        "Delete command must not have value"
    );
    assert_eq!(reason(&request(OPCODE_SET, b"", b"k", b"v", 0)), "Unsupported binary command opcode: 1");
    assert_eq!(reason(&request(0xfe, b"", b"", b"", 0)), "Unsupported binary command opcode: 254");
}

fn status_packet(opcode: u8, status: u16, opaque: u32) -> Vec<u8> {
    let mut header = BinaryHeader::new_response(opcode, 0, 0, status, 0, 0);
    header.opaque = opaque;
    let mut out = Vec::new();
    header.write_to(&mut out);
    out
}

#[test]
fn binary_responses_repeat_the_opaque_number() {
    let opaque = 0x01020304;
    let cases = vec![
        (Response::End, OPCODE_GET, STATUS_SUCCESS),
        (Response::NotFound, OPCODE_GET, STATUS_KEY_NOT_FOUND),
        (Response::Error("x".to_string()), OPCODE_NOOP, STATUS_UNKNOWN_COMMAND),
        (Response::ClientError("x".to_string()), OPCODE_NOOP, STATUS_INVALID_ARGUMENTS),
        (Response::ServerError("x".to_string()), OPCODE_NOOP, STATUS_OUT_OF_MEMORY),
        (Response::Stored, OPCODE_SET, STATUS_SUCCESS),
        (Response::NotStored, OPCODE_SET, STATUS_ITEM_NOT_STORED),
        (Response::Exists, OPCODE_SET, STATUS_KEY_EXISTS),
        (Response::Deleted, OPCODE_DELETE, STATUS_SUCCESS),
        (Response::Touched, OPCODE_NOOP, STATUS_SUCCESS),
    ];
    for (response, opcode, status) in cases {
        assert_eq!(
            serialize_binary_response(&response, opaque).unwrap(),
            status_packet(opcode, status, opaque)
        );
    }
}

#[test]
fn binary_value_version_and_stats() {
    let item = Item {
        key: "k".to_string(),
        flags: 0x0a0b0c0d,
        exptime: 0,
        data: b"abc".to_vec(),
        cas: Some(9),
    };
    let mut expected = vec![
        0x81, 0x00, 0, 0, 4, 0, 0, 0, 0, 0, 0, 7, 0, 0, 0, 5, 0, 0, 0, 0, 0, 0, 0, 9,
    ];
    expected.extend_from_slice(&[0x0a, 0x0b, 0x0c, 0x0d]);
    expected.extend_from_slice(b"abc");
    assert_eq!(serialize_binary_response(&Response::Value(item.clone()), 5).unwrap(), expected);
    let mut twice = expected.clone();
    twice.extend_from_slice(&expected);
    assert_eq!(
        serialize_binary_response(&Response::Values(vec![item.clone(), item]), 5).unwrap(),
        twice
    );
    assert_eq!(serialize_binary_response(&Response::Values(vec![]), 5).unwrap(), Vec::<u8>::new());

    let mut version = vec![
        0x81, 0x0b, 0, 0, 0, 0, 0, 0, 0, 0, 0, 5, 0, 0, 0, 5, 0, 0, 0, 0, 0, 0, 0, 0,
    ];
    version.extend_from_slice(b"1.0.0");
    assert_eq!(
        serialize_binary_response(&Response::Version("1.0.0".to_string()), 5).unwrap(),
        version
    );

    let mut stats = vec![
        0x81, 0x10, 0, 2, 0, 0, 0, 0, 0, 0, 0, 3, 0, 0, 0, 5, 0, 0, 0, 0, 0, 0, 0, 0,
    ];
    stats.extend_from_slice(b"abc");
    stats.extend_from_slice(&status_packet(OPCODE_STAT, STATUS_SUCCESS, 5));
    assert_eq!(
        serialize_binary_response(&Response::Stats(vec![("ab".to_string(), "c".to_string())]), 5)
            .unwrap(),
        stats
    );
}

#[test]
fn meta_responses_have_no_binary_form() {
    let responses = vec![
        Response::MetaEnd,
        Response::MetaNoOp,
        Response::MetaHit(vec![MetaFlag::ReturnKey]),
    ];
    for response in responses {
        let e = serialize_binary_response(&response, 1).unwrap_err();
        assert_eq!(e.to_string(), "other: Meta commands not supported in binary protocol");
        assert_eq!(
            response.serialize(&ProtocolType::Binary { opaque: 1 }),
            status_packet(OPCODE_NOOP, STATUS_UNKNOWN_COMMAND, 1)
        );
    }
}

#[test]
fn text_and_meta_responses_on_the_wire() {
    let item = Item { key: "k".to_string(), flags: 3, exptime: 0, data: b"abc".to_vec(), cas: Some(7) };
    assert_eq!(Response::Value(item.clone()).format(), "VALUE k 3 3\r\nabc\r\n");
    assert_eq!(
        Response::Values(vec![item.clone(), Item { cas: None, ..item.clone() }]).format(),
        "VALUE k 3 3 7\r\nabc\r\nVALUE k 3 3\r\nabc\r\nEND\r\n"
    );
    assert_eq!(Response::Values(vec![]).format(), "END\r\n");
    assert_eq!(Response::End.format(), "END\r\n");
    assert_eq!(Response::Stored.format(), "STORED\r\n");
    assert_eq!(Response::NotStored.format(), "NOT_STORED\r\n");
    assert_eq!(Response::Exists.format(), "EXISTS\r\n");
    assert_eq!(Response::NotFound.format(), "NOT_FOUND\r\n");
    assert_eq!(Response::Deleted.format(), "DELETED\r\n");
    assert_eq!(Response::Touched.format(), "TOUCHED\r\n");
    assert_eq!(Response::Error("why".to_string()).format(), "ERROR\r\n");
    assert_eq!(Response::ClientError("why".to_string()).format(), "CLIENT_ERROR why\r\n");
    assert_eq!(Response::ServerError("why".to_string()).format(), "SERVER_ERROR why\r\n");
    assert_eq!(Response::Version("1.2.3".to_string()).format(), "VERSION 1.2.3\r\n");
    assert_eq!(
        Response::Stats(vec![("a".to_string(), "1".to_string()), ("b".to_string(), "2".to_string())])
            .format(),
        "STAT a 1\r\nSTAT b 2\r\nEND\r\n"
    );
    assert_eq!(
        Response::MetaValue(
            item.clone(),
            vec![MetaFlag::ReturnValue, MetaFlag::ReturnCas, MetaFlag::ReturnKey]
        )
        .format(),
        "VA 3 v c k\r\nabc\r\n"
    );
    assert_eq!(Response::MetaValue(item.clone(), vec![]).format(), "VA 3\r\nabc\r\n");
    assert_eq!(
        Response::MetaHit(vec![MetaFlag::Opaque("x".to_string()), MetaFlag::UpdateTtl(5)]).format(),
        "HD Ox T5\r\n"
    );
    assert_eq!(Response::MetaHit(vec![]).format(), "HD\r\n");
    assert_eq!(Response::MetaEnd.format(), "EN\r\n");
    assert_eq!(Response::MetaNoOp.format(), "MN\r\n");
    assert_eq!(
        Response::Values(vec![item.clone()]).serialize(&ProtocolType::Text),
        b"VALUE k 3 3 7\r\nabc\r\nEND\r\n".to_vec()
    );
    assert_eq!(Response::MetaEnd.serialize(&ProtocolType::Meta), b"EN\r\n".to_vec());
}

#[test]
fn values_that_are_no_text_go_out_as_they_are() {
    let item = Item { key: "k".to_string(), flags: 0, exptime: 0, data: vec![0xff, 0x00, 0x80], cas: None };
    let mut expected = b"VALUE k 0 3\r\n".to_vec();
    expected.extend_from_slice(&[0xff, 0x00, 0x80]);
    expected.extend_from_slice(b"\r\n");
    assert_eq!(Response::Value(item.clone()).serialize(&ProtocolType::Text), expected);
    assert_eq!(
        Response::Value(item).format(),
        "VALUE k 0 3\r\n\u{fffd}\u{0}\u{fffd}\r\n"
    );
}

#[test]
fn connection_buffer_is_taken_by_commands() {
    assert_eq!(
        recv_command(b"", false),
        Received::Failed(ParseError::NoCommand, ProtocolType::Text, 0)
    );
    assert_eq!(recv_command(b"get k", false), Received::Incomplete);
    assert_eq!(
        recv_command(b"get k", true),
        Received::Command(
            CommandContext { command: Command::Get(vec!["k".to_string()]), protocol: ProtocolType::Text },
            5
        )
    );
    assert_eq!(
        recv_command(b"get k\r\nget j\r\n", false),
        Received::Command(
            CommandContext { command: Command::Get(vec!["k".to_string()]), protocol: ProtocolType::Text },
            7
        )
    );
    assert_eq!(
        recv_command(b"\r\nget j\r\n", false),
        Received::Failed(ParseError::NoCommand, ProtocolType::Text, 2)
    );
    assert_eq!(
        recv_command(b"bogus\n", false),
        Received::Failed(
            ParseError::Other("unknown command: bogus".to_string()),
            ProtocolType::Text,
            6
        )
    );
    assert_eq!(
        recv_command(b" mg k Z\r\nmn\r\n", false),
        Received::Failed(
            ParseError::Other("unknown meta flag: Z".to_string()),
            ProtocolType::Meta,
            9
        )
    );
    assert_eq!(
        recv_command(&[b'g', 0xff, b'\n', b'x'], false),
        Received::Failed(
            ParseError::Other("stream did not contain valid UTF-8".to_string()),
            ProtocolType::Text,
            3
        )
    );
}

#[test]
fn packets_are_waited_for_and_then_taken_whole() {
    let small = ParseError::Other("Binary packet too small".to_string());
    assert_eq!(recv_command(&[0x80, 0, 0], false), Received::Incomplete);
    assert_eq!(
        recv_command(&[0x80, 0, 0], true),
        Received::Failed(small, ProtocolType::Binary { opaque: 0 }, 3)
    );
    assert_eq!(
        recv_command(&[0x81; 24], false),
        Received::Incomplete,
        "the header of 0x81 bytes announces a long body"
    );
    let mut answer = vec![0x81, 0, 0, 0, 0, 0, 0, 0, 0, 0, 0, 2, 0, 0, 0, 9];
    answer.extend_from_slice(&[0; 8]);
    answer.extend_from_slice(b"xyz");
    assert_eq!(
        recv_command(&answer, false),
        Received::Failed(
            ParseError::Other("Invalid magic byte for request".to_string()),
            ProtocolType::Binary { opaque: 9 },
            26
        )
    );
    // a get for the key "test", short of its last byte
    let mut get = vec![0x80, 0, 0, 4, 0, 0, 0, 0, 0, 0, 0, 4, 0, 0, 0, 7];
    get.extend_from_slice(&[0; 8]);
    get.extend_from_slice(b"tes");
    assert_eq!(recv_command(&get, false), Received::Incomplete);
    assert_eq!(
        recv_command(&get, true),
        Received::Failed(
            ParseError::Other("failed to fill whole buffer".to_string()),
            ProtocolType::Binary { opaque: 7 },
            27
        )
    );
    get.extend_from_slice(b"tmore");
    assert_eq!(
        recv_command(&get, false),
        Received::Command(
            CommandContext {
                command: Command::Get(vec!["test".to_string()]),
                protocol: ProtocolType::Binary { opaque: 7 }
            },
            28
        )
    );
    // an opcode that is not supported, with a body of two bytes
    let mut set = vec![0x80, 0x01, 0, 1, 0, 0, 0, 0, 0, 0, 0, 2, 0, 0, 0, 5];
    set.extend_from_slice(&[0; 8]);
    set.extend_from_slice(b"kvget k\r\n");
    assert_eq!(
        recv_command(&set, false),
        Received::Failed(
            ParseError::Other("Unsupported binary command opcode: 1".to_string()),
            ProtocolType::Binary { opaque: 5 },
            26
        )
    );
    // a body shorter than what the header says stands in it
    let mut bad = vec![0x80, 0, 0, 4, 0, 0, 0, 0, 0, 0, 0, 1, 0, 0, 0, 5];
    bad.extend_from_slice(&[0; 8]);
    bad.extend_from_slice(b"test");
    assert_eq!(
        recv_command(&bad, false),
        Received::Failed(
            ParseError::Other("Invalid body length".to_string()),
            ProtocolType::Binary { opaque: 5 },
            25
        )
    );
}
