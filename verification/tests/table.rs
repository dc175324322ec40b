use logformat::directive::{Directive, PIDType, PortType};
use logformat::parser::directive_parser;
use std::str::FromStr;

fn table() -> Vec<(char, Directive)> {
    vec![
        ('%', Directive::Literal(String::from("%"))),
        ('a', Directive::ClientIP),
        ('A', Directive::LocalIP),
        ('B', Directive::ResSizeExcludingHeaders),
        ('b', Directive::ResSize),
        ('D', Directive::ReqTime),
        ('f', Directive::Filename),
        ('h', Directive::Hostname),
        ('H', Directive::Protocol),
        ('k', Directive::KeepAlive),
        ('l', Directive::Logname),
        ('L', Directive::ErrID),
        ('m', Directive::Method),
        ('p', Directive::Port(PortType::Canonical)),
        ('P', Directive::PID(PIDType::PID)),
        ('q', Directive::Query),
        ('r', Directive::ReqFirstLine),
        ('R', Directive::ResHandler),
        ('s', Directive::Status),
        ('t', Directive::ReqRecvTime),
        ('T', Directive::ReqServeTime),
        ('u', Directive::User),
        ('U', Directive::Path),
        ('v', Directive::ServerName),
        ('V', Directive::CanonicalServerName),
        ('X', Directive::ResStatus),
        ('I', Directive::SizeReceived),
        ('O', Directive::SizeSent),
        ('S', Directive::Size),
    ]
}

#[test]
fn from_code_knows_the_whole_table() {
    for (code, expected) in table() {
        assert_eq!(Directive::from_code(code), Some(expected));
    }
}

#[test]
fn from_code_knows_nothing_else() {
    let known: Vec<char> = table().into_iter().map(|(code, _)| code).collect();
    for n in 0u32..0x300 {
        let code = char::from_u32(n).unwrap();
        if !known.contains(&code) {
            assert_eq!(Directive::from_code(code), None);
        }
    }
    assert_eq!(Directive::from_code('\u{1f600}'), None);
}

#[test]
fn from_str_reads_one_character_codes() {
    for (code, expected) in table() {
        assert_eq!(Directive::from_str(&code.to_string()), Ok(expected));
    }
}

#[test]
fn from_str_refuses_other_text() {
    assert_eq!(Directive::from_str(""), Err("invalid char"));
    assert_eq!(Directive::from_str("z"), Err("invalid char"));
    assert_eq!(Directive::from_str("{"), Err("invalid char"));
    assert_eq!(Directive::from_str(">"), Err("invalid char"));
    assert_eq!(Directive::from_str("ab"), Err("invalid char"));
    assert_eq!(Directive::from_str("aa"), Err("invalid char"));
    assert_eq!(Directive::from_str(">s"), Err("invalid char"));
    assert_eq!(Directive::from_str("\u{e9}"), Err("invalid char"));
    assert_eq!(Directive::from_str(" a"), Err("invalid char"));
}

#[test]
fn from_str_is_also_the_trait_method() {
    assert_eq!("h".parse::<Directive>(), Ok(Directive::Hostname));
    assert_eq!("hh".parse::<Directive>(), Err("invalid char"));
    assert_eq!(<Directive as FromStr>::from_str("%"), Ok(Directive::Literal(String::from("%"))));
}

#[test]
fn every_code_is_a_directive_after_percent() {
    for (code, expected) in table() {
        let format = format!("%{}", code);
        assert_eq!(directive_parser(format.as_bytes()), Ok((&b""[..], expected)));
    }
}

#[test]
fn directives_are_equal_by_kind_and_parameter() {
    assert_eq!(Directive::Cookie(String::from("a")), Directive::Cookie(String::from("a")));
    assert_ne!(Directive::Cookie(String::from("a")), Directive::Cookie(String::from("b")));
    assert_ne!(Directive::Cookie(String::from("a")), Directive::EnvVar(String::from("a")));
    assert_ne!(Directive::Status, Directive::FinalStatus);
    assert_eq!(Directive::Port(PortType::Local), Directive::Port(PortType::Local));
    assert_ne!(Directive::Port(PortType::Local), Directive::Port(PortType::Remote));
    assert_ne!(Directive::PID(PIDType::TID), Directive::PID(PIDType::HexTID));
    assert_ne!(Directive::Literal(String::from("%")), Directive::Literal(String::from(" ")));
    for (i, (_, a)) in table().into_iter().enumerate() {
        for (j, (_, b)) in table().into_iter().enumerate() {
            assert_eq!(a == b, i == j);
        }
    }
}
