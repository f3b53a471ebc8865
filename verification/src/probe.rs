//! The check that the proxy forwards: a marked request is sent through it to an endpoint of the
//! application, and both sides look for the mark.

use crate::foreign::{lossy_text, utf8_lossy};
use crate::http::{
    asked_url, find_header, internal_probe, line_header, line_headers, probe_header, probe_path,
    read_head, url_request, HeadView, HttpErrorView, RequestView,
};
use crate::response::{is_suffix, lemma_joined};
use crate::route::RouteView;
use crate::rules::is_connect;
use crate::text::{
    begins_with, chars_of, digits, is_solid, is_white, lemma_find_char, lemma_first_of_lines,
    lemma_first_of_pieces, lemma_first_of_words, lemma_solid, lines, one_line, pieces,
    same_ignoring_case, same_text, same_text_ignoring_case, split_at_first, split_lines,
    split_once, split_words, text_of, trim, trimmed, views, words,
};
use crate::tunnel::{first_line, first_line_of, forwarded_head, hop_header, passed_headers};
use vstd::prelude::*;
use vstd::utf8::{decode_utf8, valid_utf8};

verus! {

/// Where the check of the way out connects to.
pub open spec fn probe_target() -> Seq<char> {
    "github.com:443"@
}

/// Where the check of the way out connects to.
pub fn probe_authority() -> (r: &'static str)
    ensures
        r@ == probe_target(),
{
    "github.com:443"
}

/// The character of a hexadecimal digit.
pub open spec fn hex_char(d: nat) -> char {
    if d < 10 {
        (48 + d) as char
    } else {
        (87 + d) as char
    }
}

/// A number in hexadecimal digits, without leading zeros.
pub open spec fn hex(n: nat) -> Seq<char>
    decreases n,
{
    if n < 16 {
        seq![hex_char(n)]
    } else {
        hex(n / 16).push(hex_char(n % 16))
    }
}

fn hex_digits(n: u128) -> (r: Vec<char>)
    ensures
        r@ == hex(n as nat),
    decreases n,
{
    let d: u8 = (n % 16) as u8;
    let c: char = if d < 10 {
        (48 + d) as char
    } else {
        (87 + d) as char
    };
    if n < 16 {
        let mut out: Vec<char> = Vec::new();
        out.push(c);
        assert(out@ =~= hex(n as nat));
        out
    } else {
        let mut out = hex_digits(n / 16);
        out.push(c);
        out
    }
}

/// The mark of a check, made from the number of the process and the time.
pub open spec fn token(process: u32, nanoseconds: u128) -> Seq<char> {
    hex(process as nat) + "-"@ + hex(nanoseconds as nat)
}

/// The mark of a check.
pub fn probe_token(process: u32, nanoseconds: u128) -> (r: String)
    ensures
        r@ == token(process, nanoseconds),
{
    let mut out = text_of(hex_digits(process as u128).as_slice());
    out.append("-");
    out.append(text_of(hex_digits(nanoseconds).as_slice()).as_str());
    out
}

/// The request that is sent through the proxy to an endpoint.
pub open spec fn request_text(endpoint: Seq<char>, token: Seq<char>) -> Seq<char> {
    "GET http://"@ + endpoint + probe_path() + token + " HTTP/1.1\r\nHost: "@ + endpoint + "\r\n"@
        + probe_header() + ": "@ + token + "\r\nConnection: close\r\n\r\n"@
}

/// The request that is sent through the proxy to an endpoint.
pub fn probe_request(endpoint: &str, token: &str) -> (r: String)
    ensures
        r@ == request_text(endpoint@, token@),
{
    let mut out = "GET http://".to_owned();
    out.append(endpoint);
    out.append("/__net-sentinel-probe/");
    out.append(token);
    out.append(" HTTP/1.1\r\nHost: ");
    out.append(endpoint);
    out.append("\r\n");
    out.append("X-Net-Sentinel-Probe");
    out.append(": ");
    out.append(token);
    out.append("\r\nConnection: close\r\n\r\n");
    out
}

/// The response of the endpoint.
pub open spec fn answer_text(token: Seq<char>) -> Seq<char> {
    "HTTP/1.1 204 No Content\r\n"@ + probe_header() + ": "@ + token
        + "\r\nContent-Length: 0\r\nConnection: close\r\n\r\n"@
}

/// The response of the endpoint.
pub fn probe_answer(token: &str) -> (r: String)
    ensures
        r@ == answer_text(token@),
{
    let mut out = "HTTP/1.1 204 No Content\r\n".to_owned();
    out.append("X-Net-Sentinel-Probe");
    out.append(": ");
    out.append(token);
    out.append("\r\nContent-Length: 0\r\nConnection: close\r\n\r\n");
    out
}

/// Whether a line is the header that holds the mark.
pub open spec fn marks(line: Seq<char>, token: Seq<char>) -> bool {
    match split_at_first(line, ':') {
        Some((name, value)) => same_ignoring_case(name, probe_header()) && trim(value) == token,
        None => false,
    }
}

/// Whether a line of a message is the header that holds the mark.
pub open spec fn marked(text: Seq<char>, token: Seq<char>) -> bool {
    exists|i: int| 0 <= i < lines(text).len() && marks(#[trigger] lines(text)[i], token)
}

/// Whether a line of a message is the header that holds the mark.
fn is_marked(text: &str, token: &str) -> (r: bool)
    ensures
        r == marked(text@, token@),
{
    let all = split_lines(chars_of(text).as_slice());
    let ghost list = lines(text@);
    let mut i: usize = 0;
    while i < all.len()
        invariant
            i <= all@.len(),
            list == lines(text@),
            list == views(all@),
            forall|j: int| 0 <= j < i ==> !marks(#[trigger] list[j], token@),
        decreases all@.len() - i,
    {
        assert(list[i as int] == all@[i as int]@);
        if let Some((name, value)) = split_once(all[i].as_slice(), ':') {
            if same_text_ignoring_case(text_of(name).as_str(), "X-Net-Sentinel-Probe") && same_text(
                text_of(trimmed(value)).as_str(),
                token,
            ) {
                assert(marks(list[i as int], token@));
                return true;
            }
        }
        i += 1;
    }
    false
}

/// Why the check of the forwarding fails.
#[derive(Debug)]
pub enum ProbeError {
    /// The endpoint was asked for another path.
    WrongPath,
    /// The endpoint did not receive the mark.
    WrongMark,
    /// The proxy answered with another status.
    WrongStatus { line: String },
    /// The answer does not hold the mark.
    AnswerUnmarked,
}

/// The text of an error of the check of the forwarding.
pub open spec fn probe_error_text(error: ProbeError) -> Seq<char> {
    match error {
        ProbeError::WrongPath => "本机验证端点收到的路径不匹配"@,
        ProbeError::WrongMark => "本机验证端点收到的校验标记不匹配"@,
        ProbeError::WrongStatus { line } => "本机代理返回异常状态："@ + line@,
        ProbeError::AnswerUnmarked => "本机代理验证响应缺少正确的校验标记"@,
    }
}

impl ProbeError {
    /// The error in words.
    pub fn message(&self) -> (r: String)
        ensures
            r@ == probe_error_text(*self),
    {
        match self {
            ProbeError::WrongPath => "本机验证端点收到的路径不匹配".to_owned(),
            ProbeError::WrongMark => "本机验证端点收到的校验标记不匹配".to_owned(),
            ProbeError::WrongStatus { line } => {
                let mut out = "本机代理返回异常状态：".to_owned();
                out.append(line.as_str());
                out
            },
            ProbeError::AnswerUnmarked => "本机代理验证响应缺少正确的校验标记".to_owned(),
        }
    }
}

/// What the request that the endpoint receives begins with.
pub open spec fn expected_start(token: Seq<char>) -> Seq<char> {
    "GET "@ + probe_path() + token + " "@
}

/// Whether the check of a received request comes out as this: it holds the path and the mark, or
/// the first of them that it does not hold is told.
pub open spec fn request_checked(text: Seq<char>, token: Seq<char>, r: Result<(), ProbeError>) -> bool {
    match r {
        Ok(()) => expected_start(token).is_prefix_of(text) && marked(text, token),
        Err(ProbeError::WrongPath) => !expected_start(token).is_prefix_of(text),
        Err(ProbeError::WrongMark) => expected_start(token).is_prefix_of(text) && !marked(
            text,
            token,
        ),
        Err(_) => false,
    }
}

/// Whether a text is the request of the check.
pub fn check_request_text(text: &str, token: &str) -> (r: Result<(), ProbeError>)
    ensures
        request_checked(text@, token@, r),
{
    let mut start = "GET ".to_owned();
    start.append("/__net-sentinel-probe/");
    start.append(token);
    start.append(" ");
    if !begins_with(text, start.as_str()) {
        return Err(ProbeError::WrongPath);
    }
    if !is_marked(text, token) {
        return Err(ProbeError::WrongMark);
    }
    Ok(())
}

/// Whether the endpoint has received the request of the check.
pub fn check_probe_request(received: &[u8], token: &str) -> (r: Result<(), ProbeError>)
    ensures
        request_checked(utf8_lossy(received@), token@, r),
        valid_utf8(received@) ==> request_checked(decode_utf8(received@), token@, r),
{
    check_request_text(lossy_text(received).as_str(), token)
}

/// Whether a status line is the one that the endpoint sends.
pub open spec fn good_status(line: Seq<char>) -> bool {
    words(line).len() > 1 && words(line)[1] == "204"@
}

/// Whether the check of an answer comes out as this: it holds the status and the mark, or the first
/// of them that it does not hold is told.
pub open spec fn answer_checked(text: Seq<char>, token: Seq<char>, r: Result<(), ProbeError>) -> bool {
    match r {
        Ok(()) => good_status(first_line(text)) && marked(text, token),
        Err(ProbeError::WrongStatus { line }) => line@ == first_line(text) && !good_status(line@),
        Err(ProbeError::AnswerUnmarked) => good_status(first_line(text)) && !marked(text, token),
        Err(_) => false,
    }
}

/// Whether a text is the answer of the endpoint.
pub fn check_answer_text(text: &str, token: &str) -> (r: Result<(), ProbeError>)
    ensures
        answer_checked(text@, token@, r),
{
    let line = first_line_of(text);
    let parts = split_words(chars_of(line.as_str()).as_slice());
    let good = if parts.len() > 1 {
        assert(words(line@)[1] == parts@[1]@);
        same_text(text_of(parts[1].as_slice()).as_str(), "204")
    } else {
        false
    };
    if !good {
        return Err(ProbeError::WrongStatus { line });
    }
    if !is_marked(text, token) {
        return Err(ProbeError::AnswerUnmarked);
    }
    Ok(())
}

/// Whether the answer of the endpoint has come back.
pub fn check_probe_answer(received: &[u8], token: &str) -> (r: Result<(), ProbeError>)
    ensures
        answer_checked(utf8_lossy(received@), token@, r),
        valid_utf8(received@) ==> answer_checked(decode_utf8(received@), token@, r),
{
    check_answer_text(lossy_text(received).as_str(), token)
}

/// How a check went, given how it went for the client and for the endpoint. What the client says
/// comes first.
pub fn probe_outcome(client: Result<(), String>, endpoint: Result<(), String>) -> (r: Result<
    (),
    String,
>)
    ensures
        r == (if client is Err {
            client
        } else {
            endpoint
        }),
{
    match client {
        Err(error) => Err(error),
        Ok(()) => endpoint,
    }
}

/// How many times the check is tried.
pub const PROBE_ATTEMPTS: u32 = 3;

/// What to do after the check was tried.
#[derive(Debug)]
pub enum ProbeNext {
    Passed(String),
    /// Try again, after a pause.
    Retry,
    Failed(String),
}

/// What to do after the check was tried for the `attempt`-th time.
pub fn after_probe(attempt: u32, listen: &str, outcome: Result<(), String>) -> (r: ProbeNext)
    ensures
        match outcome {
            Ok(()) => r matches ProbeNext::Passed(text) && text@ == "本机代理 "@ + listen@
                + " 已完成转发检查"@,
            Err(detail) => if attempt < PROBE_ATTEMPTS {
                r is Retry
            } else {
                r matches ProbeNext::Failed(text) && text@
                    == "本机代理连续 3 次转发检查失败: "@ + detail@
            },
        },
{
    match outcome {
        Ok(()) => {
            let mut out = "本机代理 ".to_owned();
            out.append(listen);
            out.append(" 已完成转发检查");
            ProbeNext::Passed(out)
        },
        Err(detail) => {
            if attempt < PROBE_ATTEMPTS {
                ProbeNext::Retry
            } else {
                let mut out = "本机代理连续 3 次转发检查失败: ".to_owned();
                out.append(detail.as_str());
                ProbeNext::Failed(out)
            }
        },
    }
}

// ---------------------------------------------------------------------------
// A proxy that forwards passes the check
// ---------------------------------------------------------------------------
/// The line of a header.
spec fn header_line(name: Seq<char>, value: Seq<char>) -> Seq<char> {
    name + ": "@ + value
}

/// The headers of the request of the check.
pub open spec fn probe_headers(endpoint: Seq<char>, token: Seq<char>) -> Seq<
    (Seq<char>, Seq<char>),
> {
    seq![("Host"@, endpoint), (probe_header(), token), ("Connection"@, "close"@)]
}

/// The head of the request of the check.
pub open spec fn probe_head(endpoint: Seq<char>, token: Seq<char>) -> HeadView {
    HeadView {
        method: "GET"@,
        target: "http://"@ + endpoint + probe_path() + token,
        version: "HTTP/1.1"@,
        headers: probe_headers(endpoint, token),
    }
}

proof fn lemma_header_line(name: Seq<char>, value: Seq<char>)
    requires
        is_solid(name),
        is_solid(value),
        forall|i: int| 0 <= i < name.len() ==> #[trigger] name[i] != ':',
    ensures
        one_line(header_line(name, value)),
        split_at_first(header_line(name, value), ':') == Some((name, " "@ + value)),
        line_header(header_line(name, value)) == Some((name, value)),
{
    reveal_strlit(": ");
    reveal_strlit(" ");
    lemma_solid(name);
    lemma_solid(value);
    let line = header_line(name, value);
    let n = name.len() as int;
    assert(line[n] == ':');
    assert forall|j: int| 0 <= j < n implies line[j] != ':' by {
        assert(line[j] == name[j]);
    }
    lemma_find_char(line, ':', n);
    assert(line.take(n) =~= name);
    assert(line.skip(n + 1) =~= " "@ + value);
    assert forall|j: int| 0 <= j < line.len() implies #[trigger] line[j] != '\n' by {
        if j < n {
            assert(line[j] == name[j]);
        } else if j >= n + 2 {
            assert(line[j] == value[j - n - 2]);
        }
    }
}

proof fn lemma_names()
    ensures
        is_solid("Host"@),
        is_solid(probe_header()),
        is_solid("Connection"@),
        is_solid("close"@),
        is_solid("GET"@),
        is_solid("HTTP/1.1"@),
        "GET"@.len() == 3,
        "HTTP/1.1"@.len() == 8,
        forall|i: int| 0 <= i < "Host"@.len() ==> #[trigger] "Host"@[i] != ':',
        forall|i: int| 0 <= i < probe_header().len() ==> #[trigger] probe_header()[i] != ':',
        forall|i: int| 0 <= i < "Connection"@.len() ==> #[trigger] "Connection"@[i] != ':',
        !hop_header("Host"@),
        !hop_header(probe_header()),
        hop_header("Connection"@),
        !same_ignoring_case("Host"@, probe_header()),
        same_ignoring_case(probe_header(), probe_header()),
        !is_connect("GET"@),
{
    reveal_strlit("Host");
    reveal_strlit("X-Net-Sentinel-Probe");
    reveal_strlit("Connection");
    reveal_strlit("Proxy-Connection");
    reveal_strlit("close");
    reveal_strlit("GET");
    reveal_strlit("HTTP/1.1");
    reveal_strlit("CONNECT");
    assert("Host"@.len() == 4);
    assert(probe_header().len() == 20);
    assert("Connection"@.len() == 10);
    assert("Proxy-Connection"@.len() == 16);
    assert("CONNECT"@.len() == 7);
}

proof fn lemma_probe_path_solid(token: Seq<char>)
    requires
        is_solid(token),
    ensures
        is_solid(probe_path() + token),
        (probe_path() + token).len() > 0,
{
    reveal_strlit("/__net-sentinel-probe/");
    let path = probe_path() + token;
    assert forall|i: int| 0 <= i < path.len() implies !is_white(#[trigger] path[i]) by {
        if i < probe_path().len() {
            assert(path[i] == probe_path()[i]);
        } else {
            assert(path[i] == token[i - probe_path().len()]);
        }
    }
}

/// The line of the request of the check.
spec fn probe_request_line(endpoint: Seq<char>, token: Seq<char>) -> Seq<char> {
    "GET"@ + " "@ + (probe_head(endpoint, token).target + " "@ + "HTTP/1.1"@)
}

/// The request of the check, line by line.
spec fn request_by_lines(endpoint: Seq<char>, token: Seq<char>) -> Seq<char> {
    let none = Seq::<char>::empty();
    let e = "\r\n"@;
    probe_request_line(endpoint, token) + e + (header_line("Host"@, endpoint) + e + (header_line(
        probe_header(),
        token,
    ) + e + (header_line("Connection"@, "close"@) + e + (none + e + none))))
}

proof fn lemma_request_by_lines(endpoint: Seq<char>, token: Seq<char>)
    ensures
        request_text(endpoint, token) == request_by_lines(endpoint, token),
{
    reveal_strlit("GET http://");
    reveal_strlit(" HTTP/1.1\r\nHost: ");
    reveal_strlit("\r\nConnection: close\r\n\r\n");
    reveal_strlit("GET");
    reveal_strlit(" ");
    reveal_strlit("http://");
    reveal_strlit("HTTP/1.1");
    reveal_strlit("\r\n");
    reveal_strlit("Host");
    reveal_strlit("Connection");
    reveal_strlit("close");
    reveal_strlit(": ");
    let e = "\r\n"@;
    assert("GET http://"@ =~= "GET"@ + " "@ + "http://"@);
    assert(" HTTP/1.1\r\nHost: "@ =~= " "@ + "HTTP/1.1"@ + e + "Host"@ + ": "@);
    assert("\r\nConnection: close\r\n\r\n"@ =~= e + "Connection"@ + ": "@ + "close"@ + e + e);
    lemma_regroup(
        "GET"@ + " "@,
        "http://"@,
        endpoint,
        probe_path(),
        token,
        " "@ + "HTTP/1.1"@,
        e,
        "Host"@ + ": "@,
        probe_header(),
        ": "@,
        "Connection"@ + ": "@ + "close"@,
    );
}

/// Parts that are put together in another order of brackets make the same text.
proof fn lemma_regroup(
    a: Seq<char>,
    b: Seq<char>,
    x: Seq<char>,
    p: Seq<char>,
    t: Seq<char>,
    v: Seq<char>,
    e: Seq<char>,
    h: Seq<char>,
    m: Seq<char>,
    c: Seq<char>,
    k: Seq<char>,
)
    ensures
        (a + b) + x + p + t + (v + e + h) + x + e + m + c + t + (e + k + e + e) == (a + ((b + x + p
            + t) + v)) + e + ((h + x) + e + ((m + c + t) + e + (k + e + (Seq::<char>::empty() + e
            + Seq::<char>::empty())))),
{
    assert((a + b) + x + p + t + (v + e + h) + x + e + m + c + t + (e + k + e + e) =~= (a + ((b + x
        + p + t) + v)) + e + ((h + x) + e + ((m + c + t) + e + (k + e + (Seq::<char>::empty() + e
        + Seq::<char>::empty())))));
}

proof fn lemma_probe_target_solid(endpoint: Seq<char>, token: Seq<char>)
    requires
        is_solid(endpoint),
        is_solid(token),
    ensures
        is_solid(probe_head(endpoint, token).target),
        probe_head(endpoint, token).target.len() > 0,
        one_line(probe_request_line(endpoint, token)),
{
    lemma_names();
    lemma_probe_path_solid(token);
    reveal_strlit("http://");
    reveal_strlit(" ");
    let target = probe_head(endpoint, token).target;
    let path = probe_path() + token;
    assert(target =~= "http://"@ + endpoint + path);
    assert forall|i: int| 0 <= i < target.len() implies !is_white(#[trigger] target[i]) by {
        if i < 7 {
            assert(target[i] == "http://"@[i]);
        } else if i < 7 + endpoint.len() {
            assert(target[i] == endpoint[i - 7]);
        } else {
            assert(target[i] == path[i - 7 - endpoint.len()]);
        }
    }
    lemma_solid(target);
    lemma_solid("GET"@);
    lemma_solid("HTTP/1.1"@);
    let line = probe_request_line(endpoint, token);
    assert forall|i: int| 0 <= i < line.len() implies #[trigger] line[i] != '\n' by {
        let n = target.len() as int;
        if i < 3 {
            assert(line[i] == "GET"@[i]);
        } else if i == 3 {
            assert(line[i] == ' ');
        } else if i < 4 + n {
            assert(line[i] == target[i - 4]);
        } else if i == 4 + n {
            assert(line[i] == ' ');
        } else {
            assert(line[i] == "HTTP/1.1"@[i - 5 - n]);
        }
    }
}

/// Reading the request of the check gives the request of the check.
#[verifier::spinoff_prover]
#[verifier::rlimit(40)]
proof fn lemma_probe_request_read(endpoint: Seq<char>, token: Seq<char>)
    requires
        is_solid(endpoint),
        is_solid(token),
    ensures
        read_head(request_text(endpoint, token)) == Ok::<HeadView, HttpErrorView>(
            probe_head(endpoint, token),
        ),
{
    lemma_names();
    lemma_request_by_lines(endpoint, token);
    lemma_probe_target_solid(endpoint, token);
    let target = probe_head(endpoint, token).target;
    let l0 = probe_request_line(endpoint, token);
    let l1 = header_line("Host"@, endpoint);
    let l2 = header_line(probe_header(), token);
    let l3 = header_line("Connection"@, "close"@);
    let none = Seq::<char>::empty();
    let e = "\r\n"@;
    let r4 = none + e + none;
    let r3 = l3 + e + r4;
    let r2 = l2 + e + r3;
    let r1 = l1 + e + r2;
    lemma_header_line("Host"@, endpoint);
    lemma_header_line(probe_header(), token);
    lemma_header_line("Connection"@, "close"@);
    lemma_first_of_pieces(l0, r1);
    lemma_first_of_pieces(l1, r2);
    lemma_first_of_pieces(l2, r3);
    lemma_first_of_pieces(l3, r4);
    lemma_first_of_pieces(none, none);
    lemma_pieces_of_nothing();
    let all = pieces(request_text(endpoint, token), e);
    assert(all =~= seq![l0, l1, l2, l3, none, none]);
    lemma_first_of_words("GET"@, target + " "@ + "HTTP/1.1"@);
    lemma_first_of_words(target, "HTTP/1.1"@);
    lemma_first_of_words("HTTP/1.1"@, none);
    assert(words(l0) =~= seq!["GET"@, target, "HTTP/1.1"@]);
    let tail = all.drop_first();
    assert(tail =~= seq![l1, l2, l3, none, none]);
    lemma_headers_read(endpoint, token, tail);
}

proof fn lemma_pieces_of_nothing()
    ensures
        pieces(Seq::<char>::empty(), "\r\n"@) == seq![Seq::<char>::empty()],
        line_header(Seq::<char>::empty()) is None,
{
    reveal_strlit("\r\n");
    let none = Seq::<char>::empty();
    assert forall|j: int| !crate::text::occurs_at(none, "\r\n"@, j) by {}
    crate::text::lemma_find_seq_none(none, "\r\n"@);
}

proof fn lemma_headers_read(endpoint: Seq<char>, token: Seq<char>, tail: Seq<Seq<char>>)
    requires
        is_solid(endpoint),
        is_solid(token),
        tail == seq![
            header_line("Host"@, endpoint),
            header_line(probe_header(), token),
            header_line("Connection"@, "close"@),
            Seq::<char>::empty(),
            Seq::<char>::empty(),
        ],
    ensures
        line_headers(tail) == probe_headers(endpoint, token),
{
    lemma_names();
    lemma_header_line("Host"@, endpoint);
    lemma_header_line(probe_header(), token);
    lemma_header_line("Connection"@, "close"@);
    lemma_pieces_of_nothing();
    let t4 = tail.drop_last();
    let t3 = t4.drop_last();
    let t2 = t3.drop_last();
    let t1 = t2.drop_last();
    let t0 = t1.drop_last();
    assert(t0.len() == 0);
    assert(line_headers(t0) =~= Seq::<(Seq<char>, Seq<char>)>::empty());
    assert(line_headers(t1) =~= seq![("Host"@, endpoint)]);
    assert(line_headers(t2) =~= seq![("Host"@, endpoint), (probe_header(), token)]);
    assert(line_headers(t3) =~= probe_headers(endpoint, token));
    assert(line_headers(t4) =~= probe_headers(endpoint, token));
}

/// The request of the check as it is forwarded straight to the endpoint.
proof fn lemma_forwarded_probe_seen(request: RequestView, endpoint: Seq<char>, token: Seq<char>)
    requires
        is_solid(endpoint),
        is_solid(token),
        request.method == "GET"@,
        request.version == "HTTP/1.1"@,
        request.path == probe_path() + token,
        request.headers == probe_headers(endpoint, token),
    ensures
        expected_start(token).is_prefix_of(forwarded_head(request, RouteView::Direct)),
        marked(forwarded_head(request, RouteView::Direct), token),
{
    lemma_names();
    lemma_probe_path_solid(token);
    lemma_solid(token);
    reveal_strlit("\r\n");
    reveal_strlit(" ");
    let e = "\r\n"@;
    let path = probe_path() + token;
    let h = probe_headers(endpoint, token);
    let l0 = "GET"@ + " "@ + path + " "@ + "HTTP/1.1"@;
    let l1 = header_line("Host"@, endpoint);
    let l2 = header_line(probe_header(), token);
    let end = "Connection: close\r\n\r\n"@;
    assert(passed_headers(h) == l1 + e + (l2 + e)) by {
        let h2 = h.drop_last();
        let h1 = h2.drop_last();
        let h0 = h1.drop_last();
        assert(h0.len() == 0);
        assert(h1.last() == ("Host"@, endpoint));
        assert(h2.last() == (probe_header(), token));
        assert(passed_headers(h0) =~= Seq::<char>::empty());
        assert(passed_headers(h1) =~= l1 + e);
        assert(passed_headers(h2) =~= l1 + e + (l2 + e));
    }
    let text = forwarded_head(request, RouteView::Direct);
    let r2 = l2 + e + end;
    let r1 = l1 + e + r2;
    assert(text =~= l0 + e + r1);
    lemma_header_line("Host"@, endpoint);
    lemma_header_line(probe_header(), token);
    lemma_solid(path);
    lemma_solid("HTTP/1.1"@);
    lemma_solid("GET"@);
    assert(one_line(l0)) by {
        assert forall|i: int| 0 <= i < l0.len() implies #[trigger] l0[i] != '\n' by {
            let n = path.len() as int;
            if i < 3 {
                assert(l0[i] == "GET"@[i]);
            } else if i == 3 {
                assert(l0[i] == ' ');
            } else if i < 4 + n {
                assert(l0[i] == path[i - 4]);
            } else if i == 4 + n {
                assert(l0[i] == ' ');
            } else {
                assert(l0[i] == "HTTP/1.1"@[i - 5 - n]);
            }
        }
    }
    lemma_first_of_lines(l0, r1);
    lemma_first_of_lines(l1, r2);
    lemma_first_of_lines(l2, end);
    assert(lines(text)[2] == l2) by {
        assert(lines(text) =~= seq![l0] + (seq![l1] + (seq![l2] + lines(end))));
    }
    assert(marks(lines(text)[2], token));
    reveal_strlit("GET ");
    reveal_strlit("GET");
    assert("GET "@ =~= "GET"@ + " "@);
    assert(expected_start(token) =~= text.take(expected_start(token).len() as int)) by {
        assert(expected_start(token) =~= "GET"@ + " "@ + path + " "@);
    }
}

/// The answer of the endpoint.
proof fn lemma_answer_seen(token: Seq<char>)
    requires
        is_solid(token),
    ensures
        good_status(first_line(answer_text(token))),
        marked(answer_text(token), token),
{
    lemma_names();
    lemma_solid(token);
    reveal_strlit("\r\n");
    reveal_strlit(" ");
    reveal_strlit("HTTP/1.1");
    reveal_strlit("204");
    reveal_strlit("No Content");
    reveal_strlit("HTTP/1.1 204 No Content\r\n");
    reveal_strlit("\r\nContent-Length: 0\r\nConnection: close\r\n\r\n");
    let e = "\r\n"@;
    let l0 = "HTTP/1.1"@ + " "@ + ("204"@ + " "@ + "No Content"@);
    let l1 = header_line(probe_header(), token);
    let whole = "\r\nContent-Length: 0\r\nConnection: close\r\n\r\n"@;
    let end = whole.skip(2);
    assert(whole =~= e + end);
    let r1 = l1 + e + end;
    let text = answer_text(token);
    assert("HTTP/1.1 204 No Content\r\n"@ =~= l0 + e);
    assert(text =~= l0 + e + r1);
    assert(one_line(l0));
    lemma_header_line(probe_header(), token);
    lemma_first_of_lines(l0, r1);
    lemma_first_of_lines(l1, end);
    assert(lines(text) =~= seq![l0] + (seq![l1] + lines(end)));
    assert(lines(text)[0] == l0);
    assert(lines(text)[1] == l1);
    assert(marks(lines(text)[1], token));
    lemma_first_of_words("HTTP/1.1"@, "204"@ + " "@ + "No Content"@);
    lemma_first_of_words("204"@, "No Content"@);
    assert(words(l0) =~= seq!["HTTP/1.1"@] + (seq!["204"@] + words("No Content"@)));
    assert(words(l0)[1] == "204"@);
}

/// A proxy that forwards passes the check: the request of the check is read as a request of the
/// application to itself, which no rule stops, the endpoint accepts it as it is forwarded, and the
/// client accepts the endpoint's answer. `host` and `port` are those of the endpoint, a port of this
/// machine.
pub proof fn law_forwarding_passes_its_check(
    endpoint: Seq<char>,
    token: Seq<char>,
    host: Seq<char>,
    port: u16,
    url: Seq<char>,
)
    requires
        is_solid(endpoint),
        is_solid(token),
        endpoint == host + ":"@ + digits(port as nat),
        "127.0.0.1:"@.is_prefix_of(endpoint),
    ensures
        read_head(request_text(endpoint, token)) == Ok::<HeadView, HttpErrorView>(
            probe_head(endpoint, token),
        ),
        asked_url(probe_head(endpoint, token)) == Ok::<Seq<char>, HttpErrorView>(
            "http://"@ + endpoint + probe_path() + token,
        ),
        ({
            let request = url_request(
                probe_head(endpoint, token),
                Some(host),
                Some(port),
                probe_path() + token,
                None,
                url,
            );
            &&& internal_probe(request)
            &&& expected_start(token).is_prefix_of(forwarded_head(request, RouteView::Direct))
            &&& marked(forwarded_head(request, RouteView::Direct), token)
        }),
        good_status(first_line(answer_text(token))),
        marked(answer_text(token), token),
{
    lemma_names();
    lemma_probe_request_read(endpoint, token);
    lemma_answer_seen(token);
    let head = probe_head(endpoint, token);
    assert("http://"@.is_prefix_of(head.target)) by {
        assert(head.target.take("http://"@.len() as int) =~= "http://"@);
    }
    let request = url_request(head, Some(host), Some(port), probe_path() + token, None, url);
    let h = head.headers;
    assert(h.drop_first()[0] == (probe_header(), token));
    assert(find_header(h, probe_header()) == find_header(h.drop_first(), probe_header()));
    lemma_forwarded_probe_seen(request, endpoint, token);
}

/// The number that hexadecimal digits write.
pub open spec fn hex_value(s: Seq<char>) -> nat
    decreases s.len(),
{
    if s.len() == 0 {
        0
    } else {
        let c = s.last() as int;
        hex_value(s.drop_last()) * 16 + (if c <= 57 {
            (c - 48) as nat
        } else {
            (c - 87) as nat
        })
    }
}

/// A token holds both numbers that it was made from, so that different ones make different tokens.
pub proof fn law_token_holds_its_numbers(n: nat)
    ensures
        hex_value(hex(n)) == n,
        hex(n).len() > 0,
        forall|i: int|
            0 <= i < hex(n).len() ==> 48 <= #[trigger] hex(n)[i] as int <= 57 || 97 <= hex(
                n,
            )[i] as int <= 102,
    decreases n,
{
    let s = hex(n);
    if n < 16 {
        assert(s.drop_last() =~= Seq::<char>::empty());
        assert(hex_value(s.drop_last()) == 0);
    } else {
        law_token_holds_its_numbers(n / 16);
        assert(s.drop_last() =~= hex(n / 16));
        assert forall|i: int| 0 <= i < s.len() implies 48 <= #[trigger] s[i] as int <= 57 || 97
            <= s[i] as int <= 102 by {
            if i < s.len() - 1 {
                assert(s[i] == hex(n / 16)[i]);
            }
        }
    }
}

/// Tokens of different moments are different.
pub proof fn law_tokens_differ(process: u32, a: u128, b: u128)
    requires
        token(process, a) == token(process, b),
    ensures
        a == b,
{
    reveal_strlit("-");
    law_token_holds_its_numbers(a as nat);
    law_token_holds_its_numbers(b as nat);
    let head = hex(process as nat) + "-"@;
    assert(token(process, a).skip(head.len() as int) =~= hex(a as nat));
    assert(token(process, b).skip(head.len() as int) =~= hex(b as nat));
}

/// What the endpoint answers passes the check of the answer.
pub proof fn law_answer_passes_its_check(token: Seq<char>)
    requires
        is_solid(token),
    ensures
        good_status(first_line(answer_text(token))),
        marked(answer_text(token), token),
{
    reveal_strlit("HTTP/1.1 204 No Content\r\n");
    reveal_strlit("HTTP/1.1 204 No Content");
    reveal_strlit("HTTP/1.1");
    reveal_strlit("204");
    reveal_strlit("No Content");
    reveal_strlit("204 No Content");
    reveal_strlit(" ");
    reveal_strlit("\r\n");
    reveal_strlit("\r\nContent-Length: 0\r\nConnection: close\r\n\r\n");
    reveal_strlit("Content-Length: 0\r\nConnection: close\r\n\r\n");
    lemma_names();
    let l0 = "HTTP/1.1 204 No Content"@;
    let rest = "Content-Length: 0\r\nConnection: close\r\n\r\n"@;
    let l1 = header_line(probe_header(), token);
    lemma_header_line(probe_header(), token);
    let tail = l1 + "\r\n"@ + rest;
    let text = answer_text(token);
    assert(text =~= l0 + "\r\n"@ + tail);
    crate::text::lemma_first_of_lines(l0, tail);
    crate::text::lemma_first_of_lines(l1, rest);
    assert(lines(text)[0] == l0);
    assert(lines(text)[1] == l1);
    crate::text::lemma_solid(token);
    assert(marks(lines(text)[1], token));
    assert(l0 =~= "HTTP/1.1"@ + " "@ + "204 No Content"@);
    assert("204 No Content"@ =~= "204"@ + " "@ + "No Content"@);
    crate::text::lemma_first_of_words("HTTP/1.1"@, "204 No Content"@);
    crate::text::lemma_first_of_words("204"@, "No Content"@);
    assert(words(l0)[1] == "204"@);
}

/// The checks of the forwarding: the endpoint has to be asked for the path with the token and shown
/// the token, and the answer has to be the one without content, with the token.
pub proof fn law_checks_ask_for_the_token(
    text: &str,
    token: &str,
    request: Result<(), ProbeError>,
    answer: Result<(), ProbeError>,
)
    requires
        call_ensures(check_request_text, (text, token), request),
        call_ensures(check_answer_text, (text, token), answer),
    ensures
        request is Ok <==> ("GET "@ + "/__net-sentinel-probe/"@ + token@ + " "@).is_prefix_of(text@)
            && exists|i: int|
            0 <= i < lines(text@).len() && marks(#[trigger] lines(text@)[i], token@),
        answer is Ok <==> lines(text@).len() > 0 && words(lines(text@)[0]).len() > 1 && words(
            lines(text@)[0],
        )[1] == "204"@ && exists|i: int|
            0 <= i < lines(text@).len() && marks(#[trigger] lines(text@)[i], token@),
{
}

/// A line shows the token where it is the header of the probe, in whatever case, with the token as its
/// value.
pub proof fn law_mark_is_a_header_with_the_token(
    name: Seq<char>,
    value: Seq<char>,
    token: Seq<char>,
)
    requires
        !name.contains(':'),
    ensures
        marks(name + ":"@ + value, token) <==> same_ignoring_case(name, "X-Net-Sentinel-Probe"@)
            && trim(value) == token,
        marks(name, token) == false,
{
    reveal_strlit(":");
    assert(name + ":"@ + value =~= name + seq![':'] + value);
    crate::text::law_splitting_parts_a_text(name, value, ':');
}

/// The check is tried three times, and passed as soon as it goes well once.
pub proof fn law_check_is_tried_three_times(
    attempt: u32,
    listen: &str,
    outcome: Result<(), String>,
    r: ProbeNext,
    client: Result<(), String>,
    endpoint: Result<(), String>,
    both: Result<(), String>,
)
    requires
        call_ensures(after_probe, (attempt, listen, outcome), r),
        call_ensures(probe_outcome, (client, endpoint), both),
    ensures
        r is Passed <==> outcome is Ok,
        r is Retry <==> outcome is Err && attempt < 3,
        r is Failed <==> outcome is Err && attempt >= 3,
        both is Ok <==> client is Ok && endpoint is Ok,
        client is Err ==> both == client,
{
}

/// The check of the way out asks for a host and the port of encrypted connections.
pub proof fn law_check_connects_to_an_encrypted_port(r: &'static str)
    requires
        call_ensures(probe_authority, (), r),
    ensures
        r@ == "github.com:443"@,
        is_suffix(":443"@, r@),
{
    reveal_strlit("github.com:443");
    reveal_strlit(":443");
    assert(r@.subrange(r@.len() - 4, r@.len() as int) =~= ":443"@);
}

/// What is told of an unexpected status ends with the line of it.
pub proof fn law_unexpected_status_is_told(error: ProbeError, r: String)
    requires
        call_ensures(ProbeError::message, (&error,), r),
    ensures
        error matches ProbeError::WrongStatus { line } ==> is_suffix(line@, r@),
{
    lemma_joined();
}

} // verus!
