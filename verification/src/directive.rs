//! The directive model: the closed set of token kinds a format string can
//! name, the mathematical value of each, and the table of one-character codes.

use vstd::prelude::*;

verus! {

/// Which port a `%p` directive logs.
#[derive(Debug, PartialEq, Eq, Clone, Copy, Structural)]
pub enum PortType {
    Canonical,
    Local,
    Remote,
}

/// Which identifier a `%P` directive logs.
#[derive(Debug, PartialEq, Eq, Clone, Copy, Structural)]
pub enum PIDType {
    PID,
    TID,
    HexTID,
}

impl View for PortType {
    type V = PortType;

    open spec fn view(&self) -> PortType {
        *self
    }
}

impl View for PIDType {
    type V = PIDType;

    open spec fn view(&self) -> PIDType {
        *self
    }
}

/// One field of a log line.
#[derive(Debug)]
pub enum Directive {
    /// Literal text.
    Literal(String),
    /// Client IP address of the request.
    ClientIP,
    /// Underlying peer IP address of the connection.
    PeerIP,
    /// Local IP address.
    LocalIP,
    /// Size of the response in bytes, excluding HTTP headers.
    ResSizeExcludingHeaders,
    /// Size of the response in bytes, excluding HTTP headers, with `-` in
    /// place of 0 when no bytes are sent.
    ResSize,
    /// The contents of the named cookie in the request.
    Cookie(String),
    /// The time taken to serve the request, in microseconds.
    ReqTime,
    /// The contents of the named environment variable.
    EnvVar(String),
    /// Filename.
    Filename,
    /// Remote hostname.
    Hostname,
    /// The request protocol.
    Protocol,
    /// The contents of the named header line(s) in the request.
    ReqHeader(String),
    /// Number of keepalive requests handled on this connection.
    KeepAlive,
    /// Remote logname.
    Logname,
    /// The request log ID from the error log.
    ErrID,
    /// The request method.
    Method,
    /// The contents of the named note from another module.
    Note(String),
    /// The contents of the named header line(s) in the reply.
    ResHeader(String),
    /// The canonical port of the server serving the request, the server's
    /// actual port, or the client's actual port.
    Port(PortType),
    /// The process ID or thread ID of the child that serviced the request.
    PID(PIDType),
    /// The query string.
    Query,
    /// First line of the request.
    ReqFirstLine,
    /// The handler generating the response.
    ResHandler,
    /// Status of the request as it first came in, before any internal
    /// redirect.
    Status,
    /// Status of the request that was answered in the end, after internal
    /// redirects.
    FinalStatus,
    /// Time the request was received.
    ReqRecvTime,
    /// The time taken to serve the request, in seconds.
    ReqServeTime,
    /// Remote user, if the request was authenticated.
    User,
    /// The URL path requested, not including any query string.
    Path,
    /// The canonical server name of the server serving the request.
    ServerName,
    /// The server name according to the canonical-name setting.
    CanonicalServerName,
    /// Connection status when the response is completed.
    ResStatus,
    /// Bytes received, including request and headers.
    SizeReceived,
    /// Bytes sent, including headers.
    SizeSent,
    /// Bytes transferred (received and sent), including request and headers.
    Size,
    /// The contents of the named trailer line(s) in the request.
    ReqTrailer(String),
    /// The contents of the named trailer line(s) in the response.
    ResTrailer(String),
}

/// The mathematical value of a [`Directive`]: the same variants, with each
/// text parameter as its sequence of characters.
pub ghost enum Token {
    Literal(Seq<char>),
    ClientIP,
    PeerIP,
    LocalIP,
    ResSizeExcludingHeaders,
    ResSize,
    Cookie(Seq<char>),
    ReqTime,
    EnvVar(Seq<char>),
    Filename,
    Hostname,
    Protocol,
    ReqHeader(Seq<char>),
    KeepAlive,
    Logname,
    ErrID,
    Method,
    Note(Seq<char>),
    ResHeader(Seq<char>),
    Port(PortType),
    PID(PIDType),
    Query,
    ReqFirstLine,
    ResHandler,
    Status,
    FinalStatus,
    ReqRecvTime,
    ReqServeTime,
    User,
    Path,
    ServerName,
    CanonicalServerName,
    ResStatus,
    SizeReceived,
    SizeSent,
    Size,
    ReqTrailer(Seq<char>),
    ResTrailer(Seq<char>),
}

impl Token {
    /// The text that the token carries, where its kind carries any.
    pub open spec fn text(self) -> Option<Seq<char>> {
        match self {
            Token::Literal(t) => Some(t),
            Token::Cookie(t) => Some(t),
            Token::EnvVar(t) => Some(t),
            Token::ReqHeader(t) => Some(t),
            Token::Note(t) => Some(t),
            Token::ResHeader(t) => Some(t),
            Token::ReqTrailer(t) => Some(t),
            Token::ResTrailer(t) => Some(t),
            _ => None,
        }
    }
}

impl View for Directive {
    type V = Token;

    open spec fn view(&self) -> Token {
        match self {
            Directive::Literal(t) => Token::Literal(t@),
            Directive::ClientIP => Token::ClientIP,
            Directive::PeerIP => Token::PeerIP,
            Directive::LocalIP => Token::LocalIP,
            Directive::ResSizeExcludingHeaders => Token::ResSizeExcludingHeaders,
            Directive::ResSize => Token::ResSize,
            Directive::Cookie(t) => Token::Cookie(t@),
            Directive::ReqTime => Token::ReqTime,
            Directive::EnvVar(t) => Token::EnvVar(t@),
            Directive::Filename => Token::Filename,
            Directive::Hostname => Token::Hostname,
            Directive::Protocol => Token::Protocol,
            Directive::ReqHeader(t) => Token::ReqHeader(t@),
            Directive::KeepAlive => Token::KeepAlive,
            Directive::Logname => Token::Logname,
            Directive::ErrID => Token::ErrID,
            Directive::Method => Token::Method,
            Directive::Note(t) => Token::Note(t@),
            Directive::ResHeader(t) => Token::ResHeader(t@),
            Directive::Port(p) => Token::Port(*p),
            Directive::PID(p) => Token::PID(*p),
            Directive::Query => Token::Query,
            Directive::ReqFirstLine => Token::ReqFirstLine,
            Directive::ResHandler => Token::ResHandler,
            Directive::Status => Token::Status,
            Directive::FinalStatus => Token::FinalStatus,
            Directive::ReqRecvTime => Token::ReqRecvTime,
            Directive::ReqServeTime => Token::ReqServeTime,
            Directive::User => Token::User,
            Directive::Path => Token::Path,
            Directive::ServerName => Token::ServerName,
            Directive::CanonicalServerName => Token::CanonicalServerName,
            Directive::ResStatus => Token::ResStatus,
            Directive::SizeReceived => Token::SizeReceived,
            Directive::SizeSent => Token::SizeSent,
            Directive::Size => Token::Size,
            Directive::ReqTrailer(t) => Token::ReqTrailer(t@),
            Directive::ResTrailer(t) => Token::ResTrailer(t@),
        }
    }
}

impl DeepView for Directive {
    type V = Token;

    open spec fn deep_view(&self) -> Token {
        self@
    }
}

/// The table of one-character codes: the token that the character `c` stands
/// for after a `%`, if it is a code at all.
pub open spec fn code_token(c: char) -> Option<Token> {
    match c {
        '%' => Some(Token::Literal(seq!['%'])),
        'a' => Some(Token::ClientIP),
        'A' => Some(Token::LocalIP),
        'B' => Some(Token::ResSizeExcludingHeaders),
        'b' => Some(Token::ResSize),
        'D' => Some(Token::ReqTime),
        'f' => Some(Token::Filename),
        'h' => Some(Token::Hostname),
        'H' => Some(Token::Protocol),
        'k' => Some(Token::KeepAlive),
        'l' => Some(Token::Logname),
        'L' => Some(Token::ErrID),
        'm' => Some(Token::Method),
        'p' => Some(Token::Port(PortType::Canonical)),
        'P' => Some(Token::PID(PIDType::PID)),
        'q' => Some(Token::Query),
        'r' => Some(Token::ReqFirstLine),
        'R' => Some(Token::ResHandler),
        's' => Some(Token::Status),
        't' => Some(Token::ReqRecvTime),
        'T' => Some(Token::ReqServeTime),
        'u' => Some(Token::User),
        'U' => Some(Token::Path),
        'v' => Some(Token::ServerName),
        'V' => Some(Token::CanonicalServerName),
        'X' => Some(Token::ResStatus),
        'I' => Some(Token::SizeReceived),
        'O' => Some(Token::SizeSent),
        'S' => Some(Token::Size),
        _ => None,
    }
}

/// The token that a whole string stands for as a one-character code: the
/// string must be exactly one character long, and that character a code.
pub open spec fn code_token_of(s: Seq<char>) -> Option<Token> {
    if s.len() == 1 {
        code_token(s[0])
    } else {
        None
    }
}

impl Directive {
    /// Looks one character up in the table of one-character codes.
    pub fn from_code(c: char) -> (res: Option<Directive>)
        ensures
            res is Some <==> code_token(c) is Some,
            res matches Some(d) ==> code_token(c) == Some(d@),
    {
        let d = match c {
            '%' => {
                let text = "%".to_owned();
                proof {
                    reveal_strlit("%");
                    assert(text@ =~= seq!['%']);
                }
                Directive::Literal(text)
            },
            'a' => Directive::ClientIP,
            'A' => Directive::LocalIP,
            'B' => Directive::ResSizeExcludingHeaders,
            'b' => Directive::ResSize,
            'D' => Directive::ReqTime,
            'f' => Directive::Filename,
            'h' => Directive::Hostname,
            'H' => Directive::Protocol,
            'k' => Directive::KeepAlive,
            'l' => Directive::Logname,
            'L' => Directive::ErrID,
            'm' => Directive::Method,
            'p' => Directive::Port(PortType::Canonical),
            'P' => Directive::PID(PIDType::PID),
            'q' => Directive::Query,
            'r' => Directive::ReqFirstLine,
            'R' => Directive::ResHandler,
            's' => Directive::Status,
            't' => Directive::ReqRecvTime,
            'T' => Directive::ReqServeTime,
            'u' => Directive::User,
            'U' => Directive::Path,
            'v' => Directive::ServerName,
            'V' => Directive::CanonicalServerName,
            'X' => Directive::ResStatus,
            'I' => Directive::SizeReceived,
            'O' => Directive::SizeSent,
            'S' => Directive::Size,
            _ => {
                return None;
            },
        };
        Some(d)
    }

    /// Reads a directive from the text of a one-character code, such as
    /// `"h"`. Any other text is refused with the message `invalid char`.
    pub fn from_str(s: &str) -> (res: Result<Directive, &'static str>)
        ensures
            res is Ok <==> code_token_of(s@) is Some,
            res matches Ok(d) ==> code_token_of(s@) == Some(d@),
            res matches Err(e) ==> e@ == "invalid char"@,
    {
        if s.unicode_len() != 1 {
            return Err("invalid char");
        }
        match Directive::from_code(s.get_char(0)) {
            Some(d) => Ok(d),
            None => Err("invalid char"),
        }
    }
}

impl core::str::FromStr for Directive {
    type Err = &'static str;

    /// Reads a directive from the text of a one-character code, as the
    /// method of the same name on `Directive` does.
    fn from_str(s: &str) -> (res: Result<Directive, &'static str>)
        ensures
            res is Ok <==> code_token_of(s@) is Some,
            res matches Ok(d) ==> code_token_of(s@) == Some(d@),
            res matches Err(e) ==> e@ == "invalid char"@,
    {
        Directive::from_str(s)
    }
}

impl PartialEq for Directive {
    /// Two directives are equal when they are the same kind of token and
    /// carry the same parameter.
    fn eq(&self, other: &Directive) -> (res: bool) {
        match (self, other) {
            (Directive::Literal(a), Directive::Literal(b)) => *a == *b,
            (Directive::ClientIP, Directive::ClientIP) => true,
            (Directive::PeerIP, Directive::PeerIP) => true,
            (Directive::LocalIP, Directive::LocalIP) => true,
            (Directive::ResSizeExcludingHeaders, Directive::ResSizeExcludingHeaders) => true,
            (Directive::ResSize, Directive::ResSize) => true,
            (Directive::Cookie(a), Directive::Cookie(b)) => *a == *b,
            (Directive::ReqTime, Directive::ReqTime) => true,
            (Directive::EnvVar(a), Directive::EnvVar(b)) => *a == *b,
            (Directive::Filename, Directive::Filename) => true,
            (Directive::Hostname, Directive::Hostname) => true,
            (Directive::Protocol, Directive::Protocol) => true,
            (Directive::ReqHeader(a), Directive::ReqHeader(b)) => *a == *b,
            (Directive::KeepAlive, Directive::KeepAlive) => true,
            (Directive::Logname, Directive::Logname) => true,
            (Directive::ErrID, Directive::ErrID) => true,
            (Directive::Method, Directive::Method) => true,
            (Directive::Note(a), Directive::Note(b)) => *a == *b,
            (Directive::ResHeader(a), Directive::ResHeader(b)) => *a == *b,
            (Directive::Port(a), Directive::Port(b)) => *a == *b,
            (Directive::PID(a), Directive::PID(b)) => *a == *b,
            (Directive::Query, Directive::Query) => true,
            (Directive::ReqFirstLine, Directive::ReqFirstLine) => true,
            (Directive::ResHandler, Directive::ResHandler) => true,
            (Directive::Status, Directive::Status) => true,
            (Directive::FinalStatus, Directive::FinalStatus) => true,
            (Directive::ReqRecvTime, Directive::ReqRecvTime) => true,
            (Directive::ReqServeTime, Directive::ReqServeTime) => true,
            (Directive::User, Directive::User) => true,
            (Directive::Path, Directive::Path) => true,
            (Directive::ServerName, Directive::ServerName) => true,
            (Directive::CanonicalServerName, Directive::CanonicalServerName) => true,
            (Directive::ResStatus, Directive::ResStatus) => true,
            (Directive::SizeReceived, Directive::SizeReceived) => true,
            (Directive::SizeSent, Directive::SizeSent) => true,
            (Directive::Size, Directive::Size) => true,
            (Directive::ReqTrailer(a), Directive::ReqTrailer(b)) => *a == *b,
            (Directive::ResTrailer(a), Directive::ResTrailer(b)) => *a == *b,
            _ => false,
        }
    }
}

impl vstd::std_specs::cmp::PartialEqSpecImpl for Directive {
    open spec fn obeys_eq_spec() -> bool {
        true
    }

    open spec fn eq_spec(&self, other: &Directive) -> bool {
        self@ == other@
    }
}

} // verus!
