use logformat::directive::Directive;
use logformat::outcome::{Outcome, Reason};
use logformat::parser::{
    code_parser, custom_pid_parser, custom_port_parser, directive_body_parser, env_var_parser,
    final_status_parser, logformat_parser, note_parser, peer_ip_parser, req_cookie_parser,
    req_header_parser, req_trailer_parser, res_header_parser, res_trailer_parser, token_parser,
};
use logformat::CLF;

fn samples() -> Vec<&'static [u8]> {
    vec![
        b"",
        b"plain text",
        b"%a",
        b"%%",
        b"%h %l %u %t \"%r\" %>s %b",
        b"%{c}a%{FOO}C%{BAR}e%{BAZ}i%{QUX}n%{QUUX}o",
        b"%{canonical}p %{local}p %{remote}p %p",
        b"%{pid}P %{tid}P %{hextid}P %P",
        b"%{waldo}^ti%{fred}^to",
        b"[%t] %m %U%q %H -> %s (%D us)",
        "caf\u{e9} %{h\u{e9}}i \u{4e16}\u{754c}".as_bytes(),
        b"100%% sure",
        b"%a %z",
        b"%{quuz}p",
        b"abc%",
        b"%{open",
        b"%{}i",
        b"%a\xff",
    ]
}

fn spans(input: &[u8]) -> Vec<(&[u8], Directive)> {
    let mut found = Vec::new();
    let mut here = input;
    while !here.is_empty() {
        match token_parser(here) {
            Ok((rest, token)) => {
                found.push((&here[..here.len() - rest.len()], token));
                here = rest;
            }
            Err(_) => break,
        }
    }
    found
}

#[test]
fn text_without_percent_is_one_literal() {
    for text in ["a", " ", "plain text", "{}", ">s", "caf\u{e9}", "\u{1f600}\u{4e16}", "a\nb\tc"] {
        assert_eq!(
            logformat_parser(text.as_bytes()),
            (vec![Directive::Literal(String::from(text))], Outcome::Complete)
        );
    }
}

#[test]
fn empty_format_has_no_token() {
    assert_eq!(logformat_parser(b""), (vec![], Outcome::Complete));
}

#[test]
fn parsing_twice_gives_equal_tokens() {
    for input in samples() {
        assert_eq!(logformat_parser(input), logformat_parser(input));
    }
}

#[test]
fn sources_rebuild_the_input() {
    for input in samples() {
        let (tokens, outcome) = logformat_parser(input);
        let found = spans(input);
        let mut rebuilt: Vec<u8> = Vec::new();
        for (source, _) in &found {
            rebuilt.extend_from_slice(source);
        }
        let end = match outcome {
            Outcome::Complete => input.len(),
            Outcome::Malformed { offset, .. } => offset,
        };
        assert_eq!(rebuilt, &input[..end]);
        assert_eq!(found.len(), tokens.len());
        for ((source, token), expected) in found.into_iter().zip(tokens) {
            assert_eq!(token, expected);
            assert_eq!(token_parser(source), Ok((&b""[..], expected)));
        }
    }
}

#[test]
fn literal_source_is_the_text_of_its_token() {
    for input in samples() {
        for (source, token) in spans(input) {
            if source[0] != b'%' {
                assert_eq!(token, Directive::Literal(String::from_utf8(source.to_vec()).unwrap()));
            }
        }
    }
}

#[test]
fn every_step_advances() {
    for input in samples() {
        let mut here = input;
        let mut steps = 0;
        while let Ok((rest, _)) = token_parser(here) {
            assert!(rest.len() < here.len());
            assert_eq!(rest, &here[here.len() - rest.len()..]);
            here = rest;
            steps += 1;
        }
        assert!(steps <= input.len());
    }
}

#[test]
fn no_token_holds_an_empty_text() {
    for input in samples() {
        for token in logformat_parser(input).0 {
            match token {
                Directive::Literal(text)
                | Directive::Cookie(text)
                | Directive::EnvVar(text)
                | Directive::ReqHeader(text)
                | Directive::Note(text)
                | Directive::ResHeader(text)
                | Directive::ReqTrailer(text)
                | Directive::ResTrailer(text) => assert!(!text.is_empty()),
                _ => {}
            }
        }
    }
}

#[test]
fn literal_runs_hold_no_percent_and_never_touch() {
    for input in samples() {
        let found = spans(input);
        for (i, (source, token)) in found.iter().enumerate() {
            if source[0] != b'%' {
                assert!(!source.contains(&b'%'));
                match token {
                    Directive::Literal(text) => assert!(!text.contains('%')),
                    _ => panic!("a run of literal text is a literal"),
                }
                if i + 1 < found.len() {
                    assert_eq!(found[i + 1].0[0], b'%');
                }
            }
        }
    }
}

#[test]
fn text_is_never_refused_for_its_encoding() {
    let texts =
        ["caf\u{e9}", "%{\u{e9}}i", "\u{4e16}%a\u{754c}", "%{\u{1f600}", "%\u{e9}", "%{a}\u{e9}"];
    for text in texts {
        match logformat_parser(text.as_bytes()).1 {
            Outcome::Malformed { reason, .. } => assert_ne!(reason, Reason::InvalidUtf8),
            Outcome::Complete => {}
        }
    }
}

#[test]
fn order_of_forms_decides_nothing() {
    let bodies: Vec<&[u8]> = vec![
        b"a", b"{c}a", b"{c}C", b"{k}e", b"{k}i", b"{k}n", b"{k}o", b"{local}p", b"{x}p",
        b"{tid}P", b"{x}P", b">s", b"{k}^ti", b"{k}^to", b"{", b"{}", b"{\xff}C", b"z", b"",
        b"{k}x", b"p", b"P", b"%",
    ];
    for body in bodies {
        let whole = directive_body_parser(body);
        let each = vec![
            peer_ip_parser(body),
            req_cookie_parser(body),
            env_var_parser(body),
            req_header_parser(body),
            note_parser(body),
            res_header_parser(body),
            custom_port_parser(body),
            custom_pid_parser(body),
            final_status_parser(body),
            req_trailer_parser(body),
            res_trailer_parser(body),
            code_parser(body),
        ];
        for one in each {
            if one != Err(Reason::UnknownDirective) {
                assert_eq!(one, whole);
            }
        }
    }
}

#[test]
fn common_log_format_has_thirteen_tokens() {
    let (tokens, outcome) = logformat_parser(CLF.as_bytes());
    assert_eq!(tokens.len(), 13);
    assert_eq!(outcome, Outcome::Complete);
    assert_eq!(CLF, "%h %l %u %t \"%r\" %>s %b");
}

#[test]
fn a_run_of_literal_text_is_never_cut_in_two() {
    assert_eq!(
        logformat_parser(b"ab cd"),
        (vec![Directive::Literal(String::from("ab cd"))], Outcome::Complete)
    );
    assert_eq!(
        logformat_parser(b"ab%acd"),
        (
            vec![
                Directive::Literal(String::from("ab")),
                Directive::ClientIP,
                Directive::Literal(String::from("cd")),
            ],
            Outcome::Complete
        )
    );
    assert_eq!(
        token_parser(b"ab cd%a"),
        Ok((&b"%a"[..], Directive::Literal(String::from("ab cd"))))
    );
}

#[test]
fn no_directive_is_the_beginning_of_a_longer_one() {
    let forms: Vec<&[u8]> = vec![
        b"%a", b"%%", b"%p", b"%P", b"%s", b"%>s", b"%{c}a", b"%{k}C", b"%{k}e", b"%{k}i",
        b"%{k}n", b"%{k}o", b"%{local}p", b"%{hextid}P", b"%{k}^ti", b"%{k}^to",
    ];
    let tails: Vec<&[u8]> = vec![b"", b"a", b"s", b"i", b"^ti", b"}", b"{c}a", b"%", b">s", b" "];
    for form in &forms {
        let alone = logformat::parser::directive_parser(form);
        assert!(alone.is_ok());
        for tail in &tails {
            let mut whole = form.to_vec();
            whole.extend_from_slice(tail);
            match logformat::parser::directive_parser(&whole) {
                Ok((rest, found)) => {
                    assert_eq!(rest, *tail);
                    assert_eq!(Ok((&b""[..], found)), alone);
                }
                Err(_) => panic!("a directive stays a directive whatever follows"),
            }
        }
    }
}
