use mini_ftp::addr::{parse_ipv4, parse_port, Ipv4Address};
use mini_ftp::{is_space, Command, MiniFtpError};

fn s(x: &str) -> String {
    String::from(x)
}

#[test]
fn round_trip_user() {
    let c = Command::User(s("alice"));
    let bytes = c.to_bytes();
    assert_eq!(bytes, b"user alice\0".to_vec());
    assert_eq!(Command::from_bytes(&bytes).unwrap(), c);
    assert_eq!(c.round_trip(), c);
}

#[test]
fn round_trip_password() {
    let c = Command::Password(s("sesame"));
    assert_eq!(c.to_bytes(), b"pass sesame\0".to_vec());
    assert_eq!(Command::from_bytes(&c.to_bytes()).unwrap(), c);
}

#[test]
fn round_trip_cd() {
    let c = Command::Cd(s("/srv/files"));
    assert_eq!(c.to_bytes(), b"cd /srv/files\0".to_vec());
    assert_eq!(Command::from_bytes(&c.to_bytes()).unwrap(), c);
}

#[test]
fn round_trip_dir() {
    let c = Command::Dir;
    assert_eq!(c.to_bytes(), b"dir\0".to_vec());
    assert_eq!(Command::from_bytes(&c.to_bytes()).unwrap(), c);
}

#[test]
fn round_trip_get_put() {
    let g = Command::Get(s("remote.txt"), s("local.txt"));
    assert_eq!(g.to_bytes(), b"get remote.txt local.txt\0".to_vec());
    assert_eq!(Command::from_bytes(&g.to_bytes()).unwrap(), g);
    let p = Command::Put(s("local.txt"), s("remote.txt"));
    assert_eq!(p.to_bytes(), b"put local.txt remote.txt\0".to_vec());
    assert_eq!(Command::from_bytes(&p.to_bytes()).unwrap(), p);
}

#[test]
fn round_trip_mget_mput() {
    let m = Command::Mget(vec![s("a"), s("b"), s("c")]);
    assert_eq!(m.to_bytes(), b"mget a, b, c\0".to_vec());
    assert_eq!(Command::from_bytes(&m.to_bytes()).unwrap(), m);
    let m1 = Command::Mget(vec![s("one")]);
    assert_eq!(m1.to_bytes(), b"mget one\0".to_vec());
    assert_eq!(Command::from_bytes(&m1.to_bytes()).unwrap(), m1);
    let p = Command::Mput(vec![s("x.bin"), s("y.bin")]);
    assert_eq!(p.to_bytes(), b"mput x.bin, y.bin\0".to_vec());
    assert_eq!(Command::from_bytes(&p.to_bytes()).unwrap(), p);
}

#[test]
fn user_arity_too_few() {
    assert!(matches!(
        Command::from_str("user"),
        Err(MiniFtpError::CommandParseError(_))
    ));
}

#[test]
fn user_arity_trailing() {
    match Command::from_str("user alice extra") {
        Err(MiniFtpError::CommandParseError(d)) => assert_eq!(d, "trailing characters"),
        other => panic!("expected a trailing-characters error, got {:?}", other),
    }
}

#[test]
fn unknown_keyword_fails() {
    match Command::from_str("frobnicate x") {
        Err(e) => {
            assert!(e.is_parse_error());
            assert!(!e.message().is_empty());
        }
        other => panic!("expected a parse error, got {:?}", other),
    }
}

#[test]
fn missing_terminator_is_invalid_message() {
    assert!(matches!(
        Command::from_bytes(b"user alice"),
        Err(MiniFtpError::InvalidMessage(_))
    ));
}

#[test]
fn empty_frame_is_invalid_message() {
    assert!(matches!(
        Command::from_bytes(b""),
        Err(MiniFtpError::InvalidMessage(_))
    ));
}

#[test]
fn lone_null_frame_is_parse_error() {
    assert!(matches!(
        Command::from_bytes(b"\0"),
        Err(MiniFtpError::CommandParseError(_))
    ));
}

#[test]
fn bad_utf8_is_utf8_error() {
    assert!(matches!(
        Command::from_bytes(&[0xff, 0xfe, 0x00]),
        Err(MiniFtpError::Utf8Error)
    ));
}

#[test]
fn bad_grammar_in_frame_is_parse_error() {
    assert!(matches!(
        Command::from_bytes(b"frobnicate x\0"),
        Err(MiniFtpError::CommandParseError(_))
    ));
}

#[test]
fn mget_comma_forms_agree() {
    let want = Command::Mget(vec![s("a"), s("b"), s("c")]);
    assert_eq!(Command::from_str("mget a,b,c").unwrap(), want);
    assert_eq!(Command::from_str("mget a, b, c").unwrap(), want);
}

#[test]
fn mget_needs_names() {
    assert!(matches!(
        Command::from_str("mget"),
        Err(MiniFtpError::CommandParseError(_))
    ));
    assert!(matches!(
        Command::from_str("mget ,"),
        Err(MiniFtpError::CommandParseError(_))
    ));
}

#[test]
fn open_parses_address_and_port() {
    let c = Command::from_str("open 127.0.0.1 25000").unwrap();
    assert_eq!(
        c,
        Command::Open(
            Ipv4Address {
                a: 127,
                b: 0,
                c: 0,
                d: 1
            },
            25000
        )
    );
}

#[test]
fn open_rejects_bad_octet() {
    assert!(matches!(
        Command::from_str("open 999.1.1.1 21"),
        Err(MiniFtpError::CommandParseError(_))
    ));
}

#[test]
fn open_takes_signed_and_padded_ports() {
    let want = Command::Open(
        Ipv4Address {
            a: 1,
            b: 2,
            c: 3,
            d: 4,
        },
        21,
    );
    assert_eq!(Command::from_str("open 1.2.3.4 +21").unwrap(), want);
    assert_eq!(Command::from_str("open 1.2.3.4 000021").unwrap(), want);
}

#[test]
fn open_rejects_bad_port() {
    assert!(matches!(
        Command::from_str("open 127.0.0.1 65536"),
        Err(MiniFtpError::CommandParseError(_))
    ));
    assert!(matches!(
        Command::from_str("open 127.0.0.1 2x"),
        Err(MiniFtpError::CommandParseError(_))
    ));
}

#[test]
fn open_arity() {
    assert!(matches!(
        Command::from_str("open 127.0.0.1"),
        Err(MiniFtpError::CommandParseError(_))
    ));
    match Command::from_str("open 127.0.0.1 21 extra") {
        Err(MiniFtpError::CommandParseError(d)) => assert_eq!(d, "trailing characters"),
        other => panic!("expected a trailing-characters error, got {:?}", other),
    }
}

#[test]
fn spaces_are_forgiving() {
    assert_eq!(
        Command::from_str("  user   alice  ").unwrap(),
        Command::User(s("alice"))
    );
    assert_eq!(Command::from_str(" dir ").unwrap(), Command::Dir);
}

#[test]
fn quit_and_lcd_parse() {
    assert_eq!(Command::from_str("quit").unwrap(), Command::Quit);
    assert_eq!(Command::from_str("lcd /tmp").unwrap(), Command::Lcd(s("/tmp")));
    assert!(matches!(
        Command::from_str("quit now"),
        Err(MiniFtpError::CommandParseError(_))
    ));
}

#[test]
fn empty_line_fails() {
    assert!(matches!(
        Command::from_str(""),
        Err(MiniFtpError::CommandParseError(_))
    ));
    assert!(matches!(
        Command::from_str("   "),
        Err(MiniFtpError::CommandParseError(_))
    ));
}

#[test]
fn ipv4_literals() {
    assert_eq!(
        parse_ipv4("0.0.0.0"),
        Some(Ipv4Address { a: 0, b: 0, c: 0, d: 0 })
    );
    assert_eq!(
        parse_ipv4("255.255.255.255"),
        Some(Ipv4Address {
            a: 255,
            b: 255,
            c: 255,
            d: 255
        })
    );
    assert_eq!(parse_ipv4("256.1.1.1"), None);
    assert_eq!(parse_ipv4("1.2.3"), None);
    assert_eq!(parse_ipv4("1.2.3.4.5"), None);
    assert_eq!(parse_ipv4("01.2.3.4"), None);
    assert_eq!(parse_ipv4("1..2.3"), None);
    assert_eq!(parse_ipv4(""), None);
}

#[test]
fn port_literals() {
    assert_eq!(parse_port("0"), Some(0));
    assert_eq!(parse_port("21"), Some(21));
    assert_eq!(parse_port("65535"), Some(65535));
    assert_eq!(parse_port("+21"), Some(21));
    assert_eq!(parse_port("000021"), Some(21));
    assert_eq!(parse_port("+000000065535"), Some(65535));
    assert_eq!(parse_port("65536"), None);
    assert_eq!(parse_port("123456"), None);
    assert_eq!(parse_port(""), None);
    assert_eq!(parse_port("+"), None);
    assert_eq!(parse_port("-1"), None);
    assert_eq!(parse_port("12a"), None);
    assert_eq!(parse_port("++1"), None);
}

#[test]
fn trimming_matches_parse() {
    assert_eq!(
        Command::from_str("\tuser alice\r\n").unwrap(),
        Command::User(s("alice"))
    );
    assert_eq!(Command::from_str(" user a \t ").unwrap(), Command::User(s("a")));
    assert_eq!(
        Command::from_str("  mget a, b  ").unwrap(),
        Command::from_str("mget a, b").unwrap()
    );
    assert_eq!(Command::from_str("user a\tb").unwrap(), Command::User(s("a\tb")));
    assert!(matches!(
        Command::from_str("\t \n"),
        Err(MiniFtpError::CommandParseError(_))
    ));
}

#[test]
fn frame_error_details() {
    match Command::from_bytes(b"") {
        Err(MiniFtpError::InvalidMessage(d)) => assert_eq!(d, "command cannot be empty"),
        other => panic!("expected an invalid-message error, got {:?}", other),
    }
    match Command::from_bytes(b"user alice") {
        Err(MiniFtpError::InvalidMessage(d)) => {
            assert_eq!(d, "command message must end in null")
        }
        other => panic!("expected an invalid-message error, got {:?}", other),
    }
}

#[test]
fn parse_error_details() {
    match Command::from_str("frobnicate x") {
        Err(MiniFtpError::CommandParseError(d)) => assert_eq!(d, "unknown command"),
        other => panic!("expected a parse error, got {:?}", other),
    }
    match Command::from_str("user") {
        Err(MiniFtpError::CommandParseError(d)) => assert_eq!(d, "missing argument"),
        other => panic!("expected a parse error, got {:?}", other),
    }
    match Command::from_str("") {
        Err(MiniFtpError::CommandParseError(d)) => assert_eq!(d, "empty command"),
        other => panic!("expected a parse error, got {:?}", other),
    }
    match Command::from_str("open 999.1.1.1 21") {
        Err(MiniFtpError::CommandParseError(d)) => assert_eq!(d, "invalid address"),
        other => panic!("expected a parse error, got {:?}", other),
    }
    match Command::from_str("open 127.0.0.1 65536") {
        Err(MiniFtpError::CommandParseError(d)) => assert_eq!(d, "invalid port"),
        other => panic!("expected a parse error, got {:?}", other),
    }
}

#[test]
fn error_messages() {
    let e = MiniFtpError::CommandParseError(s("unknown command"));
    assert_eq!(e.message(), "invalid command: unknown command");
    let e = MiniFtpError::InvalidMessage(s("command cannot be empty"));
    assert_eq!(e.message(), "invalid message: command cannot be empty");
    assert_eq!(MiniFtpError::Utf8Error.message(), "UTF-8 error");
}

#[test]
fn space_class() {
    assert!(is_space(' '));
    assert!(!is_space('\t'));
    assert!(!is_space('a'));
}
