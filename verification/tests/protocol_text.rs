use platypus::protocol::meta;
use platypus::protocol::text::parse;
use platypus::protocol::{
    parse_any, parse_text, Command, CommandContext, MetaFlag, ParseError, ProtocolType,
};

#[test]
fn test_get_single_key() {
    let result = parse(&"get mykey".to_string()).unwrap();
    assert_eq!(result, Command::Get(vec!["mykey".to_string()]));
}

#[test]
fn test_get_multiple_keys() {
    let result = parse(&"get key1 key2 key3".to_string()).unwrap();
    assert_eq!(
        result,
        Command::Get(vec!["key1".to_string(), "key2".to_string(), "key3".to_string()])
    );
}

#[test]
fn test_gets_command() {
    let result = parse(&"gets mykey".to_string()).unwrap();
    assert_eq!(result, Command::Gets(vec!["mykey".to_string()]));
}

#[test]
fn test_gat_command() {
    let result = parse(&"gat 3600 mykey".to_string()).unwrap();
    assert_eq!(result, Command::Gat(3600, vec!["mykey".to_string()]));
}

#[test]
fn test_gats_command() {
    let result = parse(&"gats 3600 key1 key2".to_string()).unwrap();
    assert_eq!(result, Command::Gats(3600, vec!["key1".to_string(), "key2".to_string()]));
}

#[test]
fn test_version_command() {
    let result = parse(&"version".to_string()).unwrap();
    assert_eq!(result, Command::Version);
}

#[test]
fn test_stats_command() {
    let result = parse(&"stats".to_string()).unwrap();
    assert_eq!(result, Command::Stats(None));
}

#[test]
fn test_stats_with_args() {
    let result = parse(&"stats slabs".to_string()).unwrap();
    assert_eq!(result, Command::Stats(Some("slabs".to_string())));
}

#[test]
fn test_touch_command() {
    let result = parse(&"touch mykey 3600".to_string()).unwrap();
    assert_eq!(result, Command::Touch("mykey".to_string(), 3600));
}

#[test]
fn test_quit_command() {
    let result = parse(&"quit".to_string()).unwrap();
    assert_eq!(result, Command::Quit);
}

#[test]
fn test_invalid_command() {
    let result = parse(&"invalid".to_string());
    assert!(result.is_err());
}

#[test]
fn test_get_no_keys() {
    let result = parse(&"get".to_string());
    assert!(result.is_err());
}

#[test]
fn test_touch_invalid_exptime() {
    let result = parse(&"touch mykey invalid".to_string());
    assert!(result.is_err());
}

fn reason(line: &str) -> String {
    match parse(&line.to_string()) {
        Err(ParseError::Other(reason)) => reason,
        other => panic!("expected a malformed request, got {:?}", other),
    }
}

#[test]
fn text_errors_say_why() {
    assert_eq!(reason(""), "empty command");
    assert_eq!(reason("   \t "), "empty command");
    assert_eq!(reason("get"), "get requires at least one key");
    assert_eq!(reason("gets"), "gets requires at least one key");
    assert_eq!(reason("gat 10"), "gat requires exptime and at least one key");
    assert_eq!(reason("gat x k"), "invalid exptime in gat command");
    assert_eq!(reason("gats 10"), "gats requires exptime and at least one key");
    assert_eq!(reason("gats -1 k"), "invalid exptime in gats command");
    assert_eq!(reason("touch k"), "touch requires key and exptime");
    assert_eq!(reason("touch k 1 2"), "touch requires key and exptime");
    assert_eq!(reason("touch k 4294967296"), "invalid exptime in touch command");
    assert_eq!(reason("bogus a b"), "unknown command: bogus");
}

#[test]
fn text_numbers_and_white_space() {
    assert_eq!(
        parse(&"  gat   +7\tk1 \r\n".to_string()).unwrap(),
        Command::Gat(7, vec!["k1".to_string()])
    );
    assert_eq!(
        parse(&"touch k 4294967295".to_string()).unwrap(),
        Command::Touch("k".to_string(), u32::MAX)
    );
    assert_eq!(
        parse(&"touch k 007".to_string()).unwrap(),
        Command::Touch("k".to_string(), 7)
    );
    assert_eq!(
        parse(&"stats  a   b  ".to_string()).unwrap(),
        Command::Stats(Some("a b".to_string()))
    );
    assert!(parse(&"touch k +".to_string()).is_err());
}

#[test]
fn test_mg_basic() {
    let result = meta::parse(&"mg mykey".to_string()).unwrap();
    assert_eq!(result, Command::MetaGet("mykey".to_string(), vec![]));
}

#[test]
fn test_mg_with_simple_flags() {
    let result = meta::parse(&"mg mykey v".to_string()).unwrap();
    assert_eq!(result, Command::MetaGet("mykey".to_string(), vec![MetaFlag::ReturnValue]));
}

#[test]
fn test_mg_with_multiple_flags() {
    let result = meta::parse(&"mg mykey vck".to_string()).unwrap();
    assert_eq!(
        result,
        Command::MetaGet(
            "mykey".to_string(),
            vec![MetaFlag::ReturnValue, MetaFlag::ReturnCas, MetaFlag::ReturnKey]
        )
    );
}

#[test]
fn test_mg_with_opaque_flag() {
    let result = meta::parse(&"mg mykey v Otest123".to_string()).unwrap();
    assert_eq!(
        result,
        Command::MetaGet(
            "mykey".to_string(),
            vec![MetaFlag::ReturnValue, MetaFlag::Opaque("test123".to_string())]
        )
    );
}

#[test]
fn test_mg_with_ttl_flags() {
    let result = meta::parse(&"mg mykey N3600 R1800".to_string()).unwrap();
    assert_eq!(
        result,
        Command::MetaGet(
            "mykey".to_string(),
            vec![MetaFlag::VivifyOnMiss(3600), MetaFlag::RecacheWin(1800)]
        )
    );
}

#[test]
fn test_mn_command() {
    let result = meta::parse(&"mn".to_string()).unwrap();
    assert_eq!(result, Command::MetaNoOp);
}

#[test]
fn test_mg_no_key() {
    let result = meta::parse(&"mg".to_string());
    assert!(result.is_err());
}

#[test]
fn test_mn_with_args() {
    let result = meta::parse(&"mn extra".to_string());
    assert!(result.is_err());
}

#[test]
fn test_invalid_meta_command() {
    let result = meta::parse(&"mx mykey".to_string());
    assert!(result.is_err());
}

#[test]
fn test_invalid_flag() {
    let result = meta::parse(&"mg mykey x".to_string());
    assert!(result.is_err());
}

#[test]
fn test_invalid_ttl_flag() {
    let result = meta::parse(&"mg mykey Ninvalid".to_string());
    assert!(result.is_err());
}

fn meta_reason(line: &str) -> String {
    match meta::parse(&line.to_string()) {
        Err(ParseError::Other(reason)) => reason,
        other => panic!("expected a malformed request, got {:?}", other),
    }
}

#[test]
fn meta_errors_say_why() {
    assert_eq!(meta_reason(""), "empty command");
    assert_eq!(meta_reason("mg"), "mg requires key");
    assert_eq!(meta_reason("mn extra"), "mn takes no arguments");
    assert_eq!(meta_reason("mx k"), "unknown meta command: mx");
    assert_eq!(meta_reason("mg k O"), "O flag requires token");
    assert_eq!(meta_reason("mg k N"), "N flag requires numeric TTL");
    assert_eq!(meta_reason("mg k Rx"), "R flag requires numeric TTL");
    assert_eq!(meta_reason("mg k T4294967296"), "T flag requires numeric TTL");
    assert_eq!(meta_reason("mg k E-1"), "E flag requires numeric CAS");
    assert_eq!(meta_reason("mg k vzq"), "unknown meta flag: z");
    assert_eq!(meta_reason("mg k v x Ninvalid"), "unknown meta flag: x");
}

#[test]
fn meta_all_flags_in_order() {
    let result = meta::parse(&"mg k bcfhklqstuv Oab N1 R2 T3 E18446744073709551615".to_string());
    assert_eq!(
        result.unwrap(),
        Command::MetaGet(
            "k".to_string(),
            vec![
                MetaFlag::BaseEncoded,
                MetaFlag::ReturnCas,
                MetaFlag::ReturnFlags,
                MetaFlag::ReturnHit,
                MetaFlag::ReturnKey,
                MetaFlag::ReturnLastAccess,
                MetaFlag::NoReply,
                MetaFlag::ReturnSize,
                MetaFlag::ReturnTtl,
                MetaFlag::NoLruBump,
                MetaFlag::ReturnValue,
                MetaFlag::Opaque("ab".to_string()),
                MetaFlag::VivifyOnMiss(1),
                MetaFlag::RecacheWin(2),
                MetaFlag::UpdateTtl(3),
                MetaFlag::SetCas(u64::MAX),
            ]
        )
    );
}

#[test]
fn meta_flags_are_written_as_they_are_read() {
    let flags = vec![
        (MetaFlag::BaseEncoded, "b"),
        (MetaFlag::ReturnValue, "v"),
        (MetaFlag::Opaque("tok".to_string()), "Otok"),
        (MetaFlag::VivifyOnMiss(30), "N30"),
        (MetaFlag::RecacheWin(0), "R0"),
        (MetaFlag::UpdateTtl(4294967295), "T4294967295"),
        (MetaFlag::SetCas(12345), "E12345"),
    ];
    for (flag, text) in flags {
        assert_eq!(flag.format_response(), text);
        let parsed = meta::parse(&format!("mg k {}", text)).unwrap();
        assert_eq!(parsed, Command::MetaGet("k".to_string(), vec![flag]));
    }
}

#[test]
fn test_parse_any_text_protocol() {
    let data = b"get test\r\n";
    let cmd = parse_any(data).unwrap();
    match cmd {
        Command::Get(keys) => {
            assert_eq!(keys.len(), 1);
            assert_eq!(keys[0], "test");
        }
        _ => panic!("Expected Get command"),
    }
}

#[test]
fn test_parse_any_meta_protocol() {
    let data = b"mg test v\r\n";
    let cmd = parse_any(data).unwrap();
    match cmd {
        Command::MetaGet(key, flags) => {
            assert_eq!(key, "test");
            assert_eq!(flags.len(), 1);
            assert_eq!(flags[0], MetaFlag::ReturnValue);
        }
        _ => panic!("Expected MetaGet command"),
    }
}

#[test]
fn test_parse_any_version_text() {
    let data = b"version\r\n";
    let cmd = parse_any(data).unwrap();
    assert!(matches!(cmd, Command::Version));
}

#[test]
fn test_parse_any_invalid_utf8() {
    let data = &[0xff, 0xfe, 0xfd];
    let result = parse_any(data);
    assert!(result.is_err());
    assert!(result.unwrap_err().to_string().contains("Invalid UTF-8"));
}

#[test]
fn test_parse_any_empty_data() {
    let data = &[];
    let result = parse_any(data);
    assert!(result.is_err());
    assert!(result.unwrap_err().to_string().contains("empty data"));
}

#[test]
fn parse_any_of_white_space_is_no_command() {
    assert_eq!(parse_any(b" \r\n"), Err(ParseError::NoCommand));
    assert_eq!(ParseError::NoCommand.to_string(), "no command");
}

#[test]
fn parse_text_tells_the_dialects_apart() {
    assert_eq!(
        parse_text("mg k v\r\n"),
        Ok(CommandContext {
            command: Command::MetaGet("k".to_string(), vec![MetaFlag::ReturnValue]),
            protocol: ProtocolType::Meta
        })
    );
    assert_eq!(
        parse_text(" mn \r\n"),
        Ok(CommandContext { command: Command::MetaNoOp, protocol: ProtocolType::Meta })
    );
    assert_eq!(
        parse_text("get k\r\n"),
        Ok(CommandContext {
            command: Command::Get(vec!["k".to_string()]),
            protocol: ProtocolType::Text
        })
    );
    assert_eq!(parse_text("\r\n"), Err(ParseError::NoCommand));
    assert_eq!(parse_text(""), Err(ParseError::NoCommand));
    assert_eq!(
        parse_text("mn extra\r\n"),
        Err(ParseError::Other("unknown command: mn".to_string()))
    );
    assert_eq!(
        parse_text("mg\tk\r\n"),
        Err(ParseError::Other("unknown command: mg".to_string()))
    );
}
