use platypus::protocol::binary::parse_binary;
use platypus::protocol::{
    parse_any, parse_text, recv_command, Command, CommandContext, MetaFlag, ProtocolType, Received,
};

fn keys(list: &[&str]) -> Vec<String> {
    list.iter().map(|k| k.to_string()).collect()
}

fn line_commands() -> Vec<(Command, &'static str, ProtocolType)> {
    vec![
        (Command::Get(keys(&["a"])), "get a\r\n", ProtocolType::Text),
        (Command::Get(keys(&["a", "b/c", "d"])), "get a b/c d\r\n", ProtocolType::Text),
        (Command::Gets(keys(&["k1", "k2"])), "gets k1 k2\r\n", ProtocolType::Text),
        (Command::Gat(0, keys(&["k"])), "gat 0 k\r\n", ProtocolType::Text),
        (Command::Gat(3600, keys(&["k", "l"])), "gat 3600 k l\r\n", ProtocolType::Text),
        (Command::Gats(u32::MAX, keys(&["k"])), "gats 4294967295 k\r\n", ProtocolType::Text),
        (Command::Version, "version\r\n", ProtocolType::Text),
        (Command::Stats(None), "stats\r\n", ProtocolType::Text),
        (Command::Stats(Some("items".to_string())), "stats items\r\n", ProtocolType::Text),
        (Command::Stats(Some("slabs 1 2".to_string())), "stats slabs 1 2\r\n", ProtocolType::Text),
        (Command::Touch("k".to_string(), 60), "touch k 60\r\n", ProtocolType::Text),
        (Command::Quit, "quit\r\n", ProtocolType::Text),
        (Command::MetaNoOp, "mn\r\n", ProtocolType::Meta),
        (Command::MetaGet("k".to_string(), vec![]), "mg k\r\n", ProtocolType::Meta),
        (
            Command::MetaGet(
                "mykey".to_string(),
                vec![
                    MetaFlag::ReturnValue,
                    MetaFlag::ReturnCas,
                    MetaFlag::ReturnKey,
                    MetaFlag::Opaque("tok".to_string()),
                    MetaFlag::VivifyOnMiss(30),
                    MetaFlag::RecacheWin(0),
                    MetaFlag::UpdateTtl(u32::MAX),
                    MetaFlag::SetCas(u64::MAX),
                    MetaFlag::BaseEncoded,
                    MetaFlag::ReturnFlags,
                    MetaFlag::ReturnHit,
                    MetaFlag::ReturnLastAccess,
                    MetaFlag::NoReply,
                    MetaFlag::ReturnSize,
                    MetaFlag::ReturnTtl,
                    MetaFlag::NoLruBump,
                ],
            ),
            "mg mykey v c k Otok N30 R0 T4294967295 E18446744073709551615 b f h l q s t u\r\n",
            ProtocolType::Meta,
        ),
    ]
}

#[test]
fn lines_are_written_as_the_dialect_wants_them() {
    for (command, line, _) in line_commands() {
        assert_eq!(command.request_line(), line);
    }
    assert_eq!(Command::Get(vec![]).request_line(), "get\r\n");
}

#[test]
fn lines_are_read_back() {
    for (command, _, protocol) in line_commands() {
        let line = command.request_line();
        assert_eq!(parse_text(&line), Ok(CommandContext { command, protocol }));
    }
    for (command, _, protocol) in line_commands() {
        let line = command.request_line();
        assert_eq!(
            recv_command(line.as_bytes(), false),
            Received::Command(CommandContext { command, protocol }, line.len())
        );
    }
    for (command, _, _) in line_commands() {
        assert_eq!(parse_any(command.request_line().as_bytes()), Ok(command));
    }
}

#[test]
fn lines_that_say_something_else_are_not_read_back() {
    let spaced = Command::Get(keys(&["a b"]));
    assert_eq!(parse_text(&spaced.request_line()).unwrap().command, Command::Get(keys(&["a", "b"])));
    let none = Command::Get(vec![]);
    assert!(parse_text(&none.request_line()).is_err());
    let wide = Command::Stats(Some("a  b".to_string()));
    assert_eq!(
        parse_text(&wide.request_line()).unwrap().command,
        Command::Stats(Some("a b".to_string()))
    );
}

fn packet_commands() -> Vec<(Command, u8)> {
    vec![
        (Command::Get(keys(&["test"])), 0x00),
        (Command::Get(keys(&["cl\u{e9} \u{1f511}"])), 0x00),
        (Command::Version, 0x0b),
        (Command::Quit, 0x07),
        (Command::Stats(None), 0x10),
        (Command::Stats(Some("items".to_string())), 0x10),
        (Command::Touch("gone".to_string(), 0), 0x04),
    ]
}

#[test]
fn packets_are_written_as_the_dialect_wants_them() {
    let packet = Command::Get(keys(&["test"])).request_packet(0).unwrap();
    assert_eq!(
        packet,
        vec![
            0x80, 0x00, 0x00, 0x04, 0x00, 0x00, 0x00, 0x00, 0x00, 0x00, 0x00, 0x04, 0x00, 0x00,
            0x00, 0x00, 0x00, 0x00, 0x00, 0x00, 0x00, 0x00, 0x00, 0x00, 0x74, 0x65, 0x73, 0x74
        ]
    );
    for (command, opcode) in packet_commands() {
        let packet = command.request_packet(0xdeadbeef).unwrap();
        assert_eq!(packet[0], 0x80);
        assert_eq!(packet[1], opcode);
        assert_eq!(&packet[12..16], &[0xde, 0xad, 0xbe, 0xef]);
    }
}

#[test]
fn packets_are_read_back() {
    for opaque in [0, 1, 0xdeadbeef, u32::MAX] {
        for (command, _) in packet_commands() {
            let packet = command.request_packet(opaque).unwrap();
            assert_eq!(parse_binary(&packet), Ok((command, opaque, packet.len())));
        }
    }
    for (command, _) in packet_commands() {
        let packet = command.request_packet(7).unwrap();
        assert_eq!(
            recv_command(&packet, false),
            Received::Command(
                CommandContext { command, protocol: ProtocolType::Binary { opaque: 7 } },
                packet.len()
            )
        );
    }
}

#[test]
fn what_the_binary_dialect_cannot_say_has_no_packet() {
    assert_eq!(Command::Get(vec![]).request_packet(0), None);
    assert_eq!(Command::Get(keys(&["a", "b"])).request_packet(0), None);
    assert_eq!(Command::Gets(keys(&["a"])).request_packet(0), None);
    assert_eq!(Command::Gat(1, keys(&["a"])).request_packet(0), None);
    assert_eq!(Command::Gats(1, keys(&["a"])).request_packet(0), None);
    assert_eq!(Command::Touch("a".to_string(), 1).request_packet(0), None);
    assert_eq!(Command::MetaNoOp.request_packet(0), None);
    assert_eq!(Command::MetaGet("a".to_string(), vec![]).request_packet(0), None);
    assert_eq!(Command::Get(vec!["k".repeat(65536)]).request_packet(0), None);
    assert!(Command::Get(vec!["k".repeat(65535)]).request_packet(0).is_some());
    let empty = Command::Stats(Some(String::new())).request_packet(0).unwrap();
    assert_eq!(parse_binary(&empty), Ok((Command::Stats(None), 0, 24)));
}
