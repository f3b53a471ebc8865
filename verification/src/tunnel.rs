//! How a connection is made along a route: whom to connect to, the handshakes with upstream
//! proxies, and what is sent along.

use crate::foreign::{lossy_text, utf8_lossy};
use crate::http::{find_header, header_value, ParsedRequest, RequestView};
use crate::response::{is_prefix, is_suffix};
use crate::route::{
    connect_address, dial_address, host_and_port, split_authority, OutboundRoute, RouteView,
};
use crate::rules::header_views;
use crate::text::{
    chars_of, decimal, digits, lines, parse_number, parse_unsigned, same_ignoring_case,
    same_text_ignoring_case, split_lines, split_words, text_of, views, words,
};
use vstd::prelude::*;
use vstd::utf8::encode_utf8;

verus! {

// ---------------------------------------------------------------------------
// Whom to connect to
// ---------------------------------------------------------------------------
/// What follows once the connection stands.
#[derive(Debug, Clone, Copy, PartialEq, Eq, Structural)]
pub enum Handshake {
    /// Nothing: the other side is the target, or an HTTP proxy that takes the request itself.
    Immediate,
    /// A tunnel through an HTTP proxy is asked for.
    HttpConnect,
    /// A connection through a SOCKS5 proxy is asked for.
    Socks5,
}

/// A connection to make.
#[derive(Debug)]
pub struct Dial {
    /// Host and port to connect to.
    pub address: String,
    pub handshake: Handshake,
}

/// The connection for a tunnel to `authority`.
pub open spec fn tunnel_dial(route: RouteView, authority: Seq<char>) -> (Seq<char>, Handshake) {
    match route {
        RouteView::Direct => (dial_address(authority, TUNNEL_PORT), Handshake::Immediate),
        RouteView::Http(proxy) => (dial_address(proxy, 8080), Handshake::HttpConnect),
        RouteView::Socks5(proxy) => (dial_address(proxy, 1080), Handshake::Socks5),
    }
}

/// The connection for a plain request to `authority`.
pub open spec fn request_dial(route: RouteView, authority: Seq<char>) -> (Seq<char>, Handshake) {
    match route {
        RouteView::Direct => (dial_address(authority, REQUEST_PORT), Handshake::Immediate),
        RouteView::Http(proxy) => (dial_address(proxy, 8080), Handshake::Immediate),
        RouteView::Socks5(proxy) => (dial_address(proxy, 1080), Handshake::Socks5),
    }
}

/// The port of a tunnel to an authority that names none.
pub const TUNNEL_PORT: u16 = 443;

/// The port of a plain request to an authority that names none.
pub const REQUEST_PORT: u16 = 80;

/// The connection for a tunnel to `authority`.
pub fn dial_tunnel(route: &OutboundRoute, authority: &str) -> (r: Dial)
    ensures
        (r.address@, r.handshake) == tunnel_dial(route@, authority@),
{
    match route {
        OutboundRoute::Direct => Dial {
            address: connect_address(authority, TUNNEL_PORT),
            handshake: Handshake::Immediate,
        },
        OutboundRoute::Http(proxy) => Dial {
            address: connect_address(proxy.as_str(), 8080),
            handshake: Handshake::HttpConnect,
        },
        OutboundRoute::Socks5(proxy) => Dial {
            address: connect_address(proxy.as_str(), 1080),
            handshake: Handshake::Socks5,
        },
    }
}

/// The connection for a plain request to `authority`.
pub fn dial_request(route: &OutboundRoute, authority: &str) -> (r: Dial)
    ensures
        (r.address@, r.handshake) == request_dial(route@, authority@),
{
    match route {
        OutboundRoute::Direct => Dial {
            address: connect_address(authority, REQUEST_PORT),
            handshake: Handshake::Immediate,
        },
        OutboundRoute::Http(proxy) => Dial {
            address: connect_address(proxy.as_str(), 8080),
            handshake: Handshake::Immediate,
        },
        OutboundRoute::Socks5(proxy) => Dial {
            address: connect_address(proxy.as_str(), 1080),
            handshake: Handshake::Socks5,
        },
    }
}

/// Along a route through a proxy, nothing but the proxy is connected to: the address is the same
/// for every target.
pub proof fn law_proxy_hides_the_target(route: RouteView, a: Seq<char>, b: Seq<char>)
    requires
        route != RouteView::Direct,
    ensures
        tunnel_dial(route, a) == tunnel_dial(route, b),
        request_dial(route, a) == request_dial(route, b),
{
}

// ---------------------------------------------------------------------------
// Tunnels through HTTP proxies
// ---------------------------------------------------------------------------
/// The request for a tunnel to `authority`.
pub open spec fn connect_text(authority: Seq<char>) -> Seq<char> {
    "CONNECT "@ + authority + " HTTP/1.1\r\nHost: "@ + authority
        + "\r\nUser-Agent: NetSentinel/0.1\r\nProxy-Connection: Keep-Alive\r\nConnection: Keep-Alive\r\n\r\n"@
}

/// The request for a tunnel to `authority`.
pub fn connect_request(authority: &str) -> (r: String)
    ensures
        r@ == connect_text(authority@),
{
    let mut out = "CONNECT ".to_owned();
    out.append(authority);
    out.append(" HTTP/1.1\r\nHost: ");
    out.append(authority);
    out.append(
        "\r\nUser-Agent: NetSentinel/0.1\r\nProxy-Connection: Keep-Alive\r\nConnection: Keep-Alive\r\n\r\n",
    );
    out
}

/// Why an HTTP proxy gives no tunnel.
#[derive(Debug)]
pub enum TunnelError {
    /// The response has no status.
    InvalidStatus { line: String },
    /// The status is not that of success.
    Refused { line: String },
}

/// The text of an error of a tunnel.
pub open spec fn tunnel_error_text(error: TunnelError) -> Seq<char> {
    match error {
        TunnelError::InvalidStatus { line } => "上游 HTTP 代理返回无效状态："@ + line@,
        TunnelError::Refused { line } => "上游 HTTP 代理拒绝 CONNECT："@ + line@,
    }
}

impl TunnelError {
    /// The error in words.
    pub fn message(&self) -> (r: String)
        ensures
            r@ == tunnel_error_text(*self),
    {
        match self {
            TunnelError::InvalidStatus { line } => {
                let mut out = "上游 HTTP 代理返回无效状态：".to_owned();
                out.append(line.as_str());
                out
            },
            TunnelError::Refused { line } => {
                let mut out = "上游 HTTP 代理拒绝 CONNECT：".to_owned();
                out.append(line.as_str());
                out
            },
        }
    }
}

/// The first line of a text, nothing where it has none.
pub open spec fn first_line(text: Seq<char>) -> Seq<char> {
    if lines(text).len() > 0 {
        lines(text)[0]
    } else {
        Seq::empty()
    }
}

/// The status that a status line holds as its second word.
pub open spec fn line_status(line: Seq<char>) -> Option<nat> {
    if words(line).len() > 1 {
        parse_unsigned(words(line)[1], 65535)
    } else {
        None
    }
}

/// The first line of a text.
pub fn first_line_of(text: &str) -> (r: String)
    ensures
        r@ == first_line(text@),
{
    let all = split_lines(chars_of(text).as_slice());
    if all.len() > 0 {
        assert(views(all@)[0] == all@[0]@);
        text_of(all[0].as_slice())
    } else {
        String::new()
    }
}

/// Whether a response to the request for a tunnel says that the tunnel stands: its status is 200.
pub fn check_connect_reply(response: &str) -> (r: Result<(), TunnelError>)
    ensures
        match r {
            Ok(()) => line_status(first_line(response@)) == Some(200nat),
            Err(TunnelError::InvalidStatus { line }) => line@ == first_line(response@)
                && line_status(line@) is None,
            Err(TunnelError::Refused { line }) => line@ == first_line(response@) && line_status(
                line@,
            ) is Some && line_status(line@) != Some(200nat),
        },
{
    let line = first_line_of(response);
    let parts = split_words(chars_of(line.as_str()).as_slice());
    if parts.len() > 1 {
        assert(words(line@)[1] == parts@[1]@);
        if let Some(status) = parse_number(parts[1].as_slice(), 65535) {
            if status == 200 {
                return Ok(());
            }
            return Err(TunnelError::Refused { line });
        }
    }
    Err(TunnelError::InvalidStatus { line })
}

/// Whether a proxy has opened the tunnel: the status of its response is 200.
pub fn check_connect_response(response: &[u8]) -> (r: Result<(), TunnelError>)
    ensures
        match r {
            Ok(()) => line_status(first_line(utf8_lossy(response@))) == Some(200nat),
            Err(TunnelError::InvalidStatus { line }) => line@ == first_line(utf8_lossy(response@))
                && line_status(line@) is None,
            Err(TunnelError::Refused { line }) => line@ == first_line(utf8_lossy(response@))
                && line_status(line@) is Some && line_status(line@) != Some(200nat),
        },
{
    check_connect_reply(lossy_text(response).as_str())
}

/// What the client is told once its tunnel stands.
pub open spec fn established_text() -> Seq<char> {
    "HTTP/1.1 200 Connection Established\r\nProxy-Agent: NetSentinel/0.1\r\n\r\n"@
}

/// What the client is told once its tunnel stands.
pub fn tunnel_established() -> (r: String)
    ensures
        r@ == established_text(),
{
    "HTTP/1.1 200 Connection Established\r\nProxy-Agent: NetSentinel/0.1\r\n\r\n".to_owned()
}

/// Whether a tunnel that has ended carried anything back, given how many bytes went either way: one
/// that took bytes and gave none has failed.
pub fn tunnel_outcome(uploaded: u64, downloaded: u64) -> (r: Result<(), String>)
    ensures
        match r {
            Ok(()) => uploaded == 0 || downloaded > 0,
            Err(text) => uploaded > 0 && downloaded == 0 && text@ == "HTTPS 隧道已上传 "@
                + digits(uploaded as nat) + " 字节，但上游未返回任何数据"@,
        },
{
    if uploaded == 0 || downloaded > 0 {
        Ok(())
    } else {
        let mut out = "HTTPS 隧道已上传 ".to_owned();
        out.append(text_of(decimal(uploaded).as_slice()).as_str());
        out.append(" 字节，但上游未返回任何数据");
        Err(out)
    }
}

// ---------------------------------------------------------------------------
// SOCKS5
// ---------------------------------------------------------------------------
/// What is awaited from a SOCKS5 proxy.
#[derive(Debug, Clone, Copy, PartialEq, Eq, Structural)]
pub enum SocksState {
    /// The choice of a method of authentication.
    Method,
    /// The start of the reply to the request.
    Reply,
    /// The length of the name in the reply.
    NameLength,
    /// The rest of the reply.
    Rest,
    /// Nothing: the connection stands.
    Connected,
}

/// A step of the handshake with a SOCKS5 proxy: bytes to send, then how many bytes to receive.
#[derive(Debug)]
pub struct SocksStep {
    pub send: Vec<u8>,
    pub receive: usize,
    pub state: SocksState,
}

/// Why a SOCKS5 proxy gives no connection.
#[derive(Debug, Clone, Copy, PartialEq, Eq, Structural)]
pub enum SocksError {
    /// The proxy asks for authentication.
    NoMethod,
    /// The name of the target has more than 255 bytes.
    NameTooLong,
    /// The proxy could not connect.
    Refused { code: u8 },
    /// The reply holds an address of an unknown kind.
    UnknownAddress,
}

/// The text of an error of a SOCKS5 proxy.
pub open spec fn socks_error_text(error: SocksError) -> Seq<char> {
    match error {
        SocksError::NoMethod => "SOCKS5 上游不支持无认证连接"@,
        SocksError::NameTooLong => "SOCKS5 目标域名过长"@,
        SocksError::Refused { code } => "SOCKS5 上游连接失败，状态码 "@ + digits(code as nat),
        SocksError::UnknownAddress => "SOCKS5 上游返回未知地址类型"@,
    }
}

impl SocksError {
    /// The error in words.
    pub fn message(&self) -> (r: String)
        ensures
            r@ == socks_error_text(*self),
    {
        match self {
            SocksError::NoMethod => "SOCKS5 上游不支持无认证连接".to_owned(),
            SocksError::NameTooLong => "SOCKS5 目标域名过长".to_owned(),
            SocksError::Refused { code } => {
                let mut out = "SOCKS5 上游连接失败，状态码 ".to_owned();
                out.append(text_of(decimal(*code as u64).as_slice()).as_str());
                out
            },
            SocksError::UnknownAddress => "SOCKS5 上游返回未知地址类型".to_owned(),
        }
    }
}

/// `SocksStep` as a value.
#[verifier::ext_equal]
pub struct SocksStepView {
    pub send: Seq<u8>,
    pub receive: nat,
    pub state: SocksState,
}

impl View for SocksStep {
    type V = SocksStepView;

    open spec fn view(&self) -> SocksStepView {
        SocksStepView { send: self.send@, receive: self.receive as nat, state: self.state }
    }
}

/// The first step: no authentication is offered as the only method.
pub open spec fn socks_greeting() -> SocksStepView {
    SocksStepView { send: seq![5u8, 1u8, 0u8], receive: 2, state: SocksState::Method }
}

/// The request to connect to a name and a port.
pub open spec fn socks_request(name: Seq<u8>, port: nat) -> Seq<u8> {
    seq![5u8, 1u8, 0u8, 3u8, name.len() as u8] + name + seq![(port / 256) as u8, (port % 256) as u8]
}

/// The step that follows when what `state` awaits has been received.
pub open spec fn socks_follow(
    state: SocksState,
    authority: Seq<char>,
    default_port: u16,
    received: Seq<u8>,
) -> Result<SocksStepView, SocksError> {
    match state {
        SocksState::Method => {
            let (host, port) = host_and_port(authority, default_port);
            let name = encode_utf8(host);
            if received != seq![5u8, 0u8] {
                Err(SocksError::NoMethod)
            } else if name.len() > 255 {
                Err(SocksError::NameTooLong)
            } else {
                Ok(
                    SocksStepView {
                        send: socks_request(name, port),
                        receive: 4,
                        state: SocksState::Reply,
                    },
                )
            }
        },
        SocksState::Reply => if received[1] != 0 {
            Err(SocksError::Refused { code: received[1] })
        } else if received[3] == 1 {
            Ok(SocksStepView { send: Seq::empty(), receive: 6, state: SocksState::Rest })
        } else if received[3] == 4 {
            Ok(SocksStepView { send: Seq::empty(), receive: 18, state: SocksState::Rest })
        } else if received[3] == 3 {
            Ok(SocksStepView { send: Seq::empty(), receive: 1, state: SocksState::NameLength })
        } else {
            Err(SocksError::UnknownAddress)
        },
        SocksState::NameLength => Ok(
            SocksStepView {
                send: Seq::empty(),
                receive: (received[0] + 2) as nat,
                state: SocksState::Rest,
            },
        ),
        SocksState::Rest => Ok(
            SocksStepView { send: Seq::empty(), receive: 0, state: SocksState::Connected },
        ),
        SocksState::Connected => Ok(
            SocksStepView { send: Seq::empty(), receive: 0, state: SocksState::Connected },
        ),
    }
}

/// How many bytes at least a state awaits.
pub open spec fn awaited(state: SocksState) -> nat {
    match state {
        SocksState::Method => 2,
        SocksState::Reply => 4,
        SocksState::NameLength => 1,
        SocksState::Rest => 0,
        SocksState::Connected => 0,
    }
}

/// A step, or why the handshake ends.
pub open spec fn step_result(r: Result<SocksStep, SocksError>) -> Result<
    SocksStepView,
    SocksError,
> {
    match r {
        Ok(step) => Ok(step@),
        Err(error) => Err(error),
    }
}

/// The first step of the handshake with a SOCKS5 proxy.
pub fn socks_start() -> (r: SocksStep)
    ensures
        r@ == socks_greeting(),
{
    let mut send: Vec<u8> = Vec::new();
    send.push(5);
    send.push(1);
    send.push(0);
    assert(send@ =~= seq![5u8, 1u8, 0u8]);
    SocksStep { send, receive: 2, state: SocksState::Method }
}

/// The bytes of a text.
pub fn bytes_of(text: &str) -> (r: Vec<u8>)
    ensures
        r@ == encode_utf8(text@),
{
    vstd::slice::slice_to_vec(text.as_bytes())
}

/// The next step of the handshake with a SOCKS5 proxy, for a connection to `authority`.
pub fn socks_next(
    state: SocksState,
    authority: &str,
    default_port: u16,
    received: &[u8],
) -> (r: Result<SocksStep, SocksError>)
    requires
        received@.len() >= awaited(state),
    ensures
        step_result(r) == socks_follow(state, authority@, default_port, received@),
{
    match state {
        SocksState::Method => {
            let (host, port) = split_authority(authority, default_port);
            if !(received.len() == 2 && received[0] == 5 && received[1] == 0) {
                assert(received@ != seq![5u8, 0u8]) by {
                    if received@ == seq![5u8, 0u8] {
                        assert(received@.len() == 2 && received@[0] == 5 && received@[1] == 0);
                    }
                }
                return Err(SocksError::NoMethod);
            }
            assert(received@ =~= seq![5u8, 0u8]);
            let mut name = bytes_of(host.as_str());
            let ghost bytes = name@;
            if name.len() > 255 {
                return Err(SocksError::NameTooLong);
            }
            let length: u8 = name.len() as u8;
            let mut send: Vec<u8> = Vec::new();
            send.push(5);
            send.push(1);
            send.push(0);
            send.push(3);
            send.push(length);
            send.append(&mut name);
            send.push((port / 256) as u8);
            send.push((port % 256) as u8);
            assert(send@ =~= socks_request(bytes, port as nat));
            Ok(SocksStep { send, receive: 4, state: SocksState::Reply })
        },
        SocksState::Reply => {
            if received[1] != 0 {
                return Err(SocksError::Refused { code: received[1] });
            }
            let send: Vec<u8> = Vec::new();
            if received[3] == 1 {
                Ok(SocksStep { send, receive: 6, state: SocksState::Rest })
            } else if received[3] == 4 {
                Ok(SocksStep { send, receive: 18, state: SocksState::Rest })
            } else if received[3] == 3 {
                Ok(SocksStep { send, receive: 1, state: SocksState::NameLength })
            } else {
                Err(SocksError::UnknownAddress)
            }
        },
        SocksState::NameLength => {
            let receive: usize = received[0] as usize + 2;
            Ok(SocksStep { send: Vec::new(), receive, state: SocksState::Rest })
        },
        SocksState::Rest => Ok(
            SocksStep { send: Vec::new(), receive: 0, state: SocksState::Connected },
        ),
        SocksState::Connected => Ok(
            SocksStep { send: Vec::new(), receive: 0, state: SocksState::Connected },
        ),
    }
}

/// How many steps a state is away from the end of the handshake at most.
pub open spec fn steps_left(state: SocksState) -> nat {
    match state {
        SocksState::Method => 4,
        SocksState::Reply => 3,
        SocksState::NameLength => 2,
        SocksState::Rest => 1,
        SocksState::Connected => 0,
    }
}

/// Each step of the handshake brings its end closer and asks for as many bytes as the next step
/// looks at; once connected, nothing is sent or received any more.
pub proof fn law_socks_handshake_ends(
    state: SocksState,
    authority: Seq<char>,
    default_port: u16,
    received: Seq<u8>,
)
    ensures
        socks_follow(state, authority, default_port, received) matches Ok(step) ==> {
            &&& state != SocksState::Connected ==> steps_left(step.state) < steps_left(state)
            &&& step.receive >= awaited(step.state)
            &&& step.state == SocksState::Connected ==> step.receive == 0 && step.send.len() == 0
        },
{
}

/// The name in a request to a SOCKS5 proxy is the host of the authority, behind its length.
pub proof fn law_socks_request_holds_the_name(name: Seq<u8>, port: nat)
    requires
        name.len() <= 255,
        port <= 65535,
    ensures
        socks_request(name, port)[4] == name.len(),
        socks_request(name, port).subrange(5, 5 + name.len() as int) == name,
        socks_request(name, port).len() == 7 + name.len(),
        socks_request(name, port)[5 + name.len() as int] * 256 + socks_request(
            name,
            port,
        )[6 + name.len() as int] == port,
{
    let request = socks_request(name, port);
    assert(request.subrange(5, 5 + name.len() as int) =~= name);
    assert(port / 256 <= 255);
}

// ---------------------------------------------------------------------------
// Plain requests
// ---------------------------------------------------------------------------
/// Whether a header concerns one connection only and is not passed on.
pub open spec fn hop_header(name: Seq<char>) -> bool {
    same_ignoring_case(name, "Proxy-Connection"@) || same_ignoring_case(name, "Connection"@)
}

/// The lines of the headers that are passed on, in their order.
pub open spec fn passed_headers(headers: Seq<(Seq<char>, Seq<char>)>) -> Seq<char>
    decreases headers.len(),
{
    if headers.len() == 0 {
        Seq::empty()
    } else {
        let before = passed_headers(headers.drop_last());
        let (name, value) = headers.last();
        if hop_header(name) {
            before
        } else {
            before + (name + ": "@ + value + "\r\n"@)
        }
    }
}

/// The head of a request on its way out. An HTTP proxy is given the whole URL, the target itself
/// the path; either is asked to close the connection at the end.
pub open spec fn forwarded_head(request: RequestView, route: RouteView) -> Seq<char> {
    request.method + " "@ + (if route is Http {
        request.url
    } else {
        request.path
    }) + " "@ + request.version + "\r\n"@ + passed_headers(request.headers)
        + "Connection: close\r\n\r\n"@
}

fn passed_header_lines(headers: &[(String, String)]) -> (r: String)
    ensures
        r@ == passed_headers(header_views(headers@)),
{
    let ghost all = header_views(headers@);
    let mut out = String::new();
    let mut i: usize = 0;
    assert(all.take(0) =~= Seq::<(Seq<char>, Seq<char>)>::empty());
    while i < headers.len()
        invariant
            i <= headers.len(),
            all == header_views(headers@),
            out@ == passed_headers(all.take(i as int)),
        decreases headers.len() - i,
    {
        assert(all.take(i + 1).drop_last() =~= all.take(i as int));
        assert(all.take(i + 1).last() == (headers@[i as int].0@, headers@[i as int].1@));
        let name = headers[i].0.as_str();
        if !same_text_ignoring_case(name, "Proxy-Connection") && !same_text_ignoring_case(
            name,
            "Connection",
        ) {
            let mut line = name.to_owned();
            line.append(": ");
            line.append(headers[i].1.as_str());
            line.append("\r\n");
            out.append(line.as_str());
        }
        i += 1;
    }
    assert(all.take(i as int) =~= all);
    out
}

/// The head of a request on its way out.
pub fn forward_head(request: &ParsedRequest, route: &OutboundRoute) -> (r: String)
    ensures
        r@ == forwarded_head(request@, route@),
{
    let target = match route {
        OutboundRoute::Http(_) => request.url.as_str(),
        OutboundRoute::Direct => request.path.as_str(),
        OutboundRoute::Socks5(_) => request.path.as_str(),
    };
    let mut out = request.method.clone();
    out.append(" ");
    out.append(target);
    out.append(" ");
    out.append(request.version.as_str());
    out.append("\r\n");
    out.append(passed_header_lines(request.headers.as_slice()).as_str());
    out.append("Connection: close\r\n\r\n");
    out
}

/// The length of a body that the headers announce; none where they announce no number.
pub open spec fn announced_length(headers: Seq<(Seq<char>, Seq<char>)>) -> nat {
    match find_header(headers, "Content-Length"@) {
        Some(value) => match parse_unsigned(value, usize::MAX as nat) {
            Some(n) => n,
            None => 0,
        },
        None => 0,
    }
}

/// How many bytes of the body are still to come when `received` have come with the head.
pub fn remaining_body(headers: &[(String, String)], received: usize) -> (r: usize)
    ensures
        r as int == (if announced_length(header_views(headers@)) > received {
            announced_length(header_views(headers@)) - received
        } else {
            0
        }),
{
    let announced: usize = match header_value(headers, "Content-Length") {
        Some(value) => match parse_number(chars_of(value).as_slice(), usize::MAX as u64) {
            Some(n) => n as usize,
            None => 0,
        },
        None => 0,
    };
    if announced > received {
        announced - received
    } else {
        0
    }
}

/// Headers that concern one connection only make no difference to what is passed on.
pub proof fn law_hop_headers_are_dropped(
    headers: Seq<(Seq<char>, Seq<char>)>,
    name: Seq<char>,
    value: Seq<char>,
)
    requires
        hop_header(name),
    ensures
        passed_headers(headers.push((name, value))) == passed_headers(headers),
{
    assert(headers.push((name, value)).drop_last() =~= headers);
}

/// How a connection begins: along a route through a SOCKS5 proxy, and only there, with the SOCKS5
/// handshake; with an HTTP `CONNECT` for a tunnel through an HTTP proxy, and only for that; and in
/// every other case at once. It goes to the proxy of the route, and without one to the target.
pub proof fn law_handshake_is_that_of_the_route(
    route: &OutboundRoute,
    authority: &str,
    tunnel: Dial,
    request: Dial,
)
    requires
        call_ensures(dial_tunnel, (route, authority), tunnel),
        call_ensures(dial_request, (route, authority), request),
    ensures
        tunnel.handshake == Handshake::Socks5 <==> route is Socks5,
        request.handshake == Handshake::Socks5 <==> route is Socks5,
        tunnel.handshake == Handshake::HttpConnect <==> route is Http,
        request.handshake != Handshake::HttpConnect,
        tunnel.handshake == Handshake::Immediate <==> route is Direct,
        request.handshake == Handshake::Immediate <==> !(route is Socks5),
        match route {
            OutboundRoute::Direct => tunnel.address@ == dial_address(authority@, 443)
                && request.address@ == dial_address(authority@, 80),
            OutboundRoute::Http(proxy) => tunnel.address@ == dial_address(proxy@, 8080)
                && request.address@ == dial_address(proxy@, 8080),
            OutboundRoute::Socks5(proxy) => tunnel.address@ == dial_address(proxy@, 1080)
                && request.address@ == dial_address(proxy@, 1080),
        },
{
}

/// A tunnel through an HTTP proxy is asked for by name: the target stands in the request line and in
/// the `Host` header, and the head ends there.
pub proof fn law_connect_names_the_target(authority: Seq<char>)
    ensures
        is_prefix(
            "CONNECT "@ + authority + " HTTP/1.1\r\nHost: "@ + authority + "\r\n"@,
            connect_text(authority),
        ),
        is_suffix("\r\n\r\n"@, connect_text(authority)),
{
    reveal_strlit("CONNECT ");
    reveal_strlit(" HTTP/1.1\r\nHost: ");
    reveal_strlit(
        "\r\nUser-Agent: NetSentinel/0.1\r\nProxy-Connection: Keep-Alive\r\nConnection: Keep-Alive\r\n\r\n",
    );
    reveal_strlit("\r\n");
    reveal_strlit("\r\n\r\n");
    let text = connect_text(authority);
    let head = "CONNECT "@ + authority + " HTTP/1.1\r\nHost: "@ + authority + "\r\n"@;
    assert(text.subrange(0, head.len() as int) =~= head);
    assert(text.subrange(text.len() - 4, text.len() as int) =~= "\r\n\r\n"@);
}

/// A reply opens the tunnel exactly where the second word of its first line is the number 200.
pub proof fn law_only_200_opens_a_tunnel(response: &str, r: Result<(), TunnelError>)
    requires
        call_ensures(check_connect_reply, (response,), r),
    ensures
        r is Ok <==> lines(response@).len() > 0 && words(lines(response@)[0]).len() > 1
            && parse_unsigned(words(lines(response@)[0])[1], 65535) == Some(200nat),
        (r matches Err(TunnelError::InvalidStatus { .. })) <==> !(lines(response@).len() > 0 && words(
            lines(response@)[0],
        ).len() > 1 && parse_unsigned(words(lines(response@)[0])[1], 65535) is Some),
{
    let none = Seq::<char>::empty();
    assert(words(none).len() == 0) by {
        assert(crate::text::trim_start(none) =~= none);
    }
}

/// The SOCKS5 handshake as the proxy sees it: version 5 with the one method of no authentication; and
/// once that is accepted, a request to connect to the name and port of the target.
pub proof fn law_socks_asks_for_the_target(
    authority: Seq<char>,
    default_port: u16,
    received: Seq<u8>,
)
    ensures
        socks_greeting().send == seq![5u8, 1u8, 0u8],
        socks_greeting().receive == 2,
        socks_greeting().state == SocksState::Method,
        ({
            let (host, port) = host_and_port(authority, default_port);
            let name = encode_utf8(host);
            let r = socks_follow(SocksState::Method, authority, default_port, received);
            &&& r is Ok <==> received == seq![5u8, 0u8] && name.len() <= 255
            &&& r matches Err(error) ==> error == (if received != seq![5u8, 0u8] {
                SocksError::NoMethod
            } else {
                SocksError::NameTooLong
            })
            &&& r matches Ok(step) ==> {
                &&& step.state == SocksState::Reply
                &&& step.receive == 4
                &&& step.send.len() == 7 + name.len()
                &&& step.send.subrange(0, 4) == seq![5u8, 1u8, 0u8, 3u8]
                &&& step.send[4] == name.len()
                &&& step.send.subrange(5, 5 + name.len() as int) == name
                &&& port <= 65535 ==> step.send[5 + name.len() as int] * 256 + step.send[6
                    + name.len() as int] == port
            }
        }),
{
    let (host, port) = host_and_port(authority, default_port);
    let name = encode_utf8(host);
    if received == seq![5u8, 0u8] && name.len() <= 255 {
        if port <= 65535 {
            law_socks_request_holds_the_name(name, port);
        }
        let send = socks_request(name, port);
        assert(send.subrange(0, 4) =~= seq![5u8, 1u8, 0u8, 3u8]);
        assert(send.subrange(5, 5 + name.len() as int) =~= name);
    }
}

/// What is read after the request: a proxy that could not connect is refused with its code; the rest
/// of the reply is an address of 4 or 16 bytes or a name of the length that is told, and a port of 2
/// bytes; then the connection stands, and nothing is sent meanwhile.
pub proof fn law_socks_reads_the_whole_reply(
    authority: Seq<char>,
    default_port: u16,
    reply: Seq<u8>,
    length: Seq<u8>,
    rest: Seq<u8>,
)
    requires
        reply.len() == 4,
        length.len() == 1,
    ensures
        ({
            let r = socks_follow(SocksState::Reply, authority, default_port, reply);
            &&& reply[1] != 0 ==> r == Err::<SocksStepView, SocksError>(
                SocksError::Refused { code: reply[1] },
            )
            &&& reply[1] == 0 && reply[3] != 1 && reply[3] != 3 && reply[3] != 4 ==> r == Err::<
                SocksStepView,
                SocksError,
            >(SocksError::UnknownAddress)
            &&& r matches Ok(step) ==> reply[1] == 0 && step.send.len() == 0 && {
                &&& reply[3] == 1 ==> step.receive == 4 + 2 && step.state == SocksState::Rest
                &&& reply[3] == 4 ==> step.receive == 16 + 2 && step.state == SocksState::Rest
                &&& reply[3] == 3 ==> step.receive == 1 && step.state == SocksState::NameLength
            }
            &&& r is Ok <==> reply[1] == 0 && (reply[3] == 1 || reply[3] == 3 || reply[3] == 4)
        }),
        socks_follow(SocksState::NameLength, authority, default_port, length) matches Ok(step)
            && step.receive == length[0] + 2 && step.send.len() == 0 && step.state
            == SocksState::Rest,
        socks_follow(SocksState::Rest, authority, default_port, rest) matches Ok(step)
            && step.receive == 0 && step.send.len() == 0 && step.state == SocksState::Connected,
{
}

/// The headers of a request are passed on as they are, in their order, but for those that are meant
/// for this connection only.
pub proof fn law_headers_are_passed_on(
    headers: Seq<(Seq<char>, Seq<char>)>,
    name: Seq<char>,
    value: Seq<char>,
)
    ensures
        passed_headers(Seq::<(Seq<char>, Seq<char>)>::empty()).len() == 0,
        passed_headers(headers.push((name, value))) == if same_ignoring_case(
            name,
            "Connection"@,
        ) || same_ignoring_case(name, "Proxy-Connection"@) {
            passed_headers(headers)
        } else {
            passed_headers(headers) + name + ": "@ + value + "\r\n"@
        },
{
    assert(headers.push((name, value)).drop_last() =~= headers);
    assert(passed_headers(headers) + (name + ": "@ + value + "\r\n"@) =~= passed_headers(headers)
        + name + ": "@ + value + "\r\n"@);
}

/// Every header that is not meant for this connection only stands as a line of its own in what is
/// passed on.
pub proof fn law_no_header_is_lost(headers: Seq<(Seq<char>, Seq<char>)>, i: int) -> (at: int)
    requires
        0 <= i < headers.len(),
        !same_ignoring_case(headers[i].0, "Connection"@),
        !same_ignoring_case(headers[i].0, "Proxy-Connection"@),
    ensures
        ({
            let line = headers[i].0 + ": "@ + headers[i].1 + "\r\n"@;
            &&& 0 <= at <= passed_headers(headers).len() - line.len()
            &&& passed_headers(headers).subrange(at, at + line.len()) == line
        }),
    decreases headers.len(),
{
    let line = headers[i].0 + ": "@ + headers[i].1 + "\r\n"@;
    let before = passed_headers(headers.drop_last());
    if i == headers.len() - 1 {
        let at = before.len() as int;
        assert(passed_headers(headers).subrange(at, at + line.len()) =~= line);
        at
    } else {
        let at = law_no_header_is_lost(headers.drop_last(), i);
        assert(passed_headers(headers).subrange(at, at + line.len()) =~= before.subrange(
            at,
            at + line.len(),
        ));
        at
    }
}

/// The head that is passed on: the method, what is asked for and the version first; a proxy that
/// takes requests itself is asked for the URL, everyone else for the path; then the headers; and the
/// connection is to be closed.
pub proof fn law_forwarded_head_asks_for_the_same(request: RequestView, route: RouteView)
    ensures
        forwarded_head(request, route) == request.method + " "@ + (match route {
            RouteView::Http(_) => request.url,
            RouteView::Direct => request.path,
            RouteView::Socks5(_) => request.path,
        }) + " "@ + request.version + "\r\n"@ + passed_headers(request.headers)
            + "Connection: close\r\n\r\n"@,
        is_suffix("Connection: close\r\n\r\n"@, forwarded_head(request, route)),
{
    let text = forwarded_head(request, route);
    let end = "Connection: close\r\n\r\n"@;
    assert(text.subrange(text.len() - end.len(), text.len() as int) =~= end);
}

/// The length of a body is what the first `Content-Length` header says, in whatever case it is named,
/// and nothing where there is none or it is no number.
pub proof fn law_length_is_what_is_announced(
    headers: Seq<(Seq<char>, Seq<char>)>,
    i: int,
)
    requires
        0 <= i <= headers.len(),
        i < headers.len() ==> same_ignoring_case(headers[i].0, "Content-Length"@),
        forall|k: int|
            0 <= k < i ==> !same_ignoring_case((#[trigger] headers[k]).0, "Content-Length"@),
    ensures
        announced_length(headers) == if i < headers.len() {
            match parse_unsigned(headers[i].1, usize::MAX as nat) {
                Some(n) => n,
                None => 0,
            }
        } else {
            0
        },
{
    crate::http::law_first_header_of_a_name_is_found(headers, "Content-Length"@, i);
}

/// The handshake with a SOCKS5 proxy starts with the offer of one method, that without
/// authentication, and with waiting for as many bytes as the choice of it has.
pub proof fn law_socks_starts_without_authentication(r: SocksStep)
    requires
        call_ensures(socks_start, (), r),
    ensures
        r.send@ == seq![5u8, 1u8, 0u8],
        r.receive == 2,
        r.state == SocksState::Method,
        r.receive >= awaited(r.state),
{
}

/// A client whose tunnel stands is told of success by a whole head.
pub proof fn law_standing_tunnel_is_told(r: String)
    requires
        call_ensures(tunnel_established, (), r),
    ensures
        is_prefix("HTTP/1.1 200 "@, r@),
        is_suffix("\r\n\r\n"@, r@),
{
    reveal_strlit("HTTP/1.1 200 ");
    reveal_strlit("\r\n\r\n");
    reveal_strlit("HTTP/1.1 200 Connection Established\r\nProxy-Agent: NetSentinel/0.1\r\n\r\n");
    assert(r@.subrange(0, 13) =~= "HTTP/1.1 200 "@);
    assert(r@.subrange(r@.len() - 4, r@.len() as int) =~= "\r\n\r\n"@);
}

/// What is told of an upstream that gives no connection ends with what it answered.
pub proof fn law_refusals_are_told(
    refused: TunnelError,
    socks: SocksError,
    a: String,
    b: String,
)
    requires
        call_ensures(TunnelError::message, (&refused,), a),
        call_ensures(SocksError::message, (&socks,), b),
    ensures
        refused matches TunnelError::Refused { line } ==> is_suffix(line@, a@),
        refused matches TunnelError::InvalidStatus { line } ==> is_suffix(line@, a@),
        socks matches SocksError::Refused { code } ==> is_suffix(digits(code as nat), b@),
{
    crate::response::lemma_joined();
}

/// The upstream has opened a tunnel just where its status line says 200; otherwise that line is told.
pub proof fn law_tunnel_is_open_or_its_status_is_told(
    response: &[u8],
    r: Result<(), TunnelError>,
)
    requires
        call_ensures(check_connect_response, (response,), r),
    ensures
        r is Ok <==> line_status(first_line(utf8_lossy(response@))) == Some(200nat),
        r matches Err(TunnelError::InvalidStatus { line }) ==> line@ == first_line(
            utf8_lossy(response@),
        ),
        r matches Err(TunnelError::Refused { line }) ==> line@ == first_line(
            utf8_lossy(response@),
        ),
        (r matches Err(TunnelError::Refused { line: _ })) <==> line_status(
            first_line(utf8_lossy(response@)),
        ) is Some && line_status(first_line(utf8_lossy(response@))) != Some(200nat),
{
}

/// The body that is still to come and the part that has come make up what is announced, and what came
/// beyond that asks for no more.
pub proof fn law_body_is_completed(headers: &[(String, String)], received: usize, r: usize)
    requires
        call_ensures(remaining_body, (headers, received), r),
    ensures
        received <= announced_length(header_views(headers@)) ==> r + received == announced_length(
            header_views(headers@),
        ),
        received >= announced_length(header_views(headers@)) ==> r == 0,
{
}

/// A tunnel has failed just where something went up and nothing came down.
pub proof fn law_silent_upstream_is_a_failure(
    uploaded: u64,
    downloaded: u64,
    r: Result<(), String>,
)
    requires
        call_ensures(tunnel_outcome, (uploaded, downloaded), r),
    ensures
        r is Err <==> uploaded > 0 && downloaded == 0,
{
}

} // verus!
