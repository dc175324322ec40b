use logformat::directive::{Directive, PIDType, PortType};
use logformat::outcome::{Outcome, Reason};
use logformat::parser::logformat_parser;
use logformat::{parse, Directive as Token, CLF};
use logformat::{PIDType as RootPIDType, PortType as RootPortType};

#[test]
fn percent_percent_is_a_literal_percent() {
    assert_eq!(
        logformat_parser(b"%%"),
        (vec![Directive::Literal(String::from("%"))], Outcome::Complete)
    );
}

#[test]
fn percent_a_is_the_client_ip() {
    assert_eq!(logformat_parser(b"%a"), (vec![Directive::ClientIP], Outcome::Complete));
}

#[test]
fn c_in_braces_before_a_is_the_peer_ip() {
    assert_eq!(logformat_parser(b"%{c}a"), (vec![Directive::PeerIP], Outcome::Complete));
}

#[test]
fn name_before_capital_c_is_a_cookie() {
    assert_eq!(
        logformat_parser(b"%{FOO}C"),
        (vec![Directive::Cookie(String::from("FOO"))], Outcome::Complete)
    );
}

#[test]
fn port_takes_one_of_three_words() {
    assert_eq!(
        logformat_parser(b"%{canonical}p"),
        (vec![Directive::Port(PortType::Canonical)], Outcome::Complete)
    );
    assert_eq!(
        logformat_parser(b"%{local}p"),
        (vec![Directive::Port(PortType::Local)], Outcome::Complete)
    );
    assert_eq!(
        logformat_parser(b"%{remote}p"),
        (vec![Directive::Port(PortType::Remote)], Outcome::Complete)
    );
    assert_eq!(
        logformat_parser(b"%{quuz}p"),
        (vec![], Outcome::Malformed { offset: 0, reason: Reason::LiteralSetMismatch })
    );
}

#[test]
fn pid_takes_one_of_three_words() {
    assert_eq!(
        logformat_parser(b"%{pid}P"),
        (vec![Directive::PID(PIDType::PID)], Outcome::Complete)
    );
    assert_eq!(
        logformat_parser(b"%{tid}P"),
        (vec![Directive::PID(PIDType::TID)], Outcome::Complete)
    );
    assert_eq!(
        logformat_parser(b"%{hextid}P"),
        (vec![Directive::PID(PIDType::HexTID)], Outcome::Complete)
    );
    assert_eq!(
        logformat_parser(b"%{corge}P"),
        (vec![], Outcome::Malformed { offset: 0, reason: Reason::LiteralSetMismatch })
    );
}

#[test]
fn trailers_are_marked_by_three_characters() {
    assert_eq!(
        logformat_parser(b"%{waldo}^ti"),
        (vec![Directive::ReqTrailer(String::from("waldo"))], Outcome::Complete)
    );
    assert_eq!(
        logformat_parser(b"%{fred}^to"),
        (vec![Directive::ResTrailer(String::from("fred"))], Outcome::Complete)
    );
}

#[test]
fn crate_root_offers_the_parser_and_the_directive() {
    let (tokens, outcome) = logformat::logformat_parser(CLF.as_bytes());
    assert_eq!(outcome, Outcome::Complete);
    assert_eq!(tokens[0], Token::Hostname);
    assert_eq!(tokens[12], Token::ResSize);
    assert_eq!(
        logformat::directive_parser(b"%{tid}P"),
        Ok((&b""[..], Token::PID(RootPIDType::TID)))
    );
    assert_eq!(
        logformat::logformat_parser(b"%{remote}p%{"),
        (
            vec![Token::Port(RootPortType::Remote)],
            logformat::Outcome::Malformed {
                offset: 10,
                reason: logformat::Reason::UnterminatedParameter
            }
        )
    );
}

#[test]
fn no_more_tokens_than_bytes() {
    let inputs: Vec<&[u8]> = vec![b"", b"%a%a%a", b"a%ab%bc", b"%%%%%%", b"%{a}i%{b}o", b"abc%"];
    for input in inputs {
        assert!(logformat_parser(input).0.len() <= input.len());
    }
}

#[test]
fn reading_stops_at_a_percent_or_at_bytes_that_are_no_text() {
    let inputs: Vec<&[u8]> = vec![b"%a %z", b"ab%{x", b"%{}", b"%a\xff%b", b"\xc3%a", b"%a%{q}p"];
    for input in inputs {
        match logformat_parser(input).1 {
            Outcome::Malformed { offset, reason } => {
                assert!(offset < input.len());
                if input[offset] != b'%' {
                    assert_eq!(reason, Reason::InvalidUtf8);
                }
            }
            Outcome::Complete => panic!("these inputs are malformed"),
        }
    }
}

#[test]
fn parse_reads_text_as_logformat_parser_reads_its_bytes() {
    let formats = [
        "",
        "%%",
        "%a",
        "%{c}a",
        "%{FOO}C",
        "%{canonical}p",
        "%{local}p",
        "%{remote}p",
        "%{quuz}p",
        "%{pid}P",
        "%{tid}P",
        "%{hextid}P",
        "%{corge}P",
        "%{waldo}^ti",
        "%{fred}^to",
        CLF,
        "caf\u{e9} %{h\u{e9}}i \u{4e16}\u{754c}",
        "%{\u{1f600}",
        "%\u{e9}",
        "abc%",
    ];
    for format in formats {
        assert_eq!(parse(format), logformat_parser(format.as_bytes()));
    }
}

#[test]
fn parse_gives_the_tokens_of_the_named_formats() {
    assert_eq!(parse("%%"), (vec![Token::Literal(String::from("%"))], Outcome::Complete));
    assert_eq!(parse("%a"), (vec![Token::ClientIP], Outcome::Complete));
    assert_eq!(parse("%{c}a"), (vec![Token::PeerIP], Outcome::Complete));
    assert_eq!(parse("%{FOO}C"), (vec![Token::Cookie(String::from("FOO"))], Outcome::Complete));
    assert_eq!(parse("%{local}p"), (vec![Token::Port(PortType::Local)], Outcome::Complete));
    assert_eq!(parse("%{hextid}P"), (vec![Token::PID(PIDType::HexTID)], Outcome::Complete));
    assert_eq!(
        parse("%{quuz}p"),
        (vec![], Outcome::Malformed { offset: 0, reason: Reason::LiteralSetMismatch })
    );
    assert_eq!(
        parse("%{waldo}^ti"),
        (vec![Token::ReqTrailer(String::from("waldo"))], Outcome::Complete)
    );
    assert_eq!(
        parse(CLF),
        (
            vec![
                Token::Hostname,
                Token::Literal(String::from(" ")),
                Token::Logname,
                Token::Literal(String::from(" ")),
                Token::User,
                Token::Literal(String::from(" ")),
                Token::ReqRecvTime,
                Token::Literal(String::from(" \"")),
                Token::ReqFirstLine,
                Token::Literal(String::from("\" ")),
                Token::FinalStatus,
                Token::Literal(String::from(" ")),
                Token::ResSize,
            ],
            Outcome::Complete
        )
    );
}

#[test]
fn parse_counts_offsets_in_bytes() {
    assert_eq!(
        parse("caf\u{e9}%z"),
        (
            vec![Token::Literal(String::from("caf\u{e9}"))],
            Outcome::Malformed { offset: 5, reason: Reason::UnknownDirective }
        )
    );
}
