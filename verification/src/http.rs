//! HTTP/1.x request heads: where one ends, and what it says.

use crate::foreign::{
    lowercase, opt_view, parse_url, to_lowercase, url_error, url_host, url_path, url_port,
    url_query, url_text, UrlParts,
};
use crate::rules::{copy_headers, header_views, is_connect, FactsView, RequestFacts};
use crate::text::{
    begins_with, chars_of, decimal, digits, find_char, find_seq, is_solid, lemma_find_seq,
    lemma_find_seq_is, lemma_find_seq_none, occurs_at, one_line, pieces, position_of, same_ignoring_case, same_text,
    same_text_ignoring_case, split_at_first, split_on, split_once, split_words, text_of, trim,
    trimmed, views, words,
};
use vstd::prelude::*;
use vstd::slice::slice_subrange;

verus! {

// ---------------------------------------------------------------------------
// The end of a head
// ---------------------------------------------------------------------------
/// How many bytes are read in search of the end of a head.
pub const MAX_HEADER_BYTES: usize = 65536;

/// The empty line that ends a head, with the line end before it.
pub open spec fn head_mark() -> Seq<u8> {
    seq![13u8, 10u8, 13u8, 10u8]
}

/// The position behind the empty line that ends a head.
pub open spec fn head_end(bytes: Seq<u8>) -> Option<int> {
    match find_seq(bytes, head_mark()) {
        Some(i) => Some(i + 4),
        None => None,
    }
}

/// Finds the position behind the empty line that ends a head.
pub fn find_header_end(bytes: &[u8]) -> (r: Option<usize>)
    ensures
        match r {
            Some(end) => head_end(bytes@) == Some(end as int) && 4 <= end <= bytes@.len(),
            None => head_end(bytes@) is None,
        },
{
    let n: usize = bytes.len();
    let mut i: usize = 0;
    while i < n && n - i >= 4
        invariant
            i <= n,
            n == bytes.len(),
            forall|j: int| 0 <= j < i ==> !occurs_at(bytes@, head_mark(), j),
        decreases n - i,
    {
        let here = bytes[i] == 13 && bytes[i + 1] == 10 && bytes[i + 2] == 13 && bytes[i + 3] == 10;
        let ghost window = bytes@.subrange(i as int, i + 4);
        assert(window.len() == 4 && window[0] == bytes@[i as int] && window[1] == bytes@[i + 1]
            && window[2] == bytes@[i + 2] && window[3] == bytes@[i + 3]);
        if here {
            assert(window =~= head_mark());
            proof {
                lemma_find_seq(bytes@, head_mark(), i as int);
            }
            return Some(i + 4);
        }
        assert(window != head_mark()) by {
            if window == head_mark() {
                assert(head_mark()[0] == 13 && head_mark()[1] == 10 && head_mark()[2] == 13
                    && head_mark()[3] == 10);
            }
        }
        i += 1;
    }
    proof {
        lemma_find_seq_none(bytes@, head_mark());
    }
    None
}

/// What has been received so far in search of the end of a head.
#[derive(Debug)]
pub struct HeaderBuffer {
    pub bytes: Vec<u8>,
}

/// What to do after a piece has been received.
#[derive(Debug, Clone, Copy, PartialEq, Eq, Structural)]
pub enum ReadProgress {
    /// Receive the next piece.
    More,
    /// The search is over: the end has been found or the sender has finished.
    Complete,
    /// The head does not end within the limit.
    TooLarge,
}

/// What to do after the piece `chunk` has been received behind `bytes`. An empty piece is the end
/// of what the sender sends.
pub open spec fn progress(bytes: Seq<u8>, chunk: Seq<u8>) -> ReadProgress {
    if chunk.len() == 0 || head_end(bytes + chunk) is Some {
        ReadProgress::Complete
    } else if (bytes + chunk).len() >= MAX_HEADER_BYTES {
        ReadProgress::TooLarge
    } else {
        ReadProgress::More
    }
}

impl HeaderBuffer {
    /// Nothing received yet.
    pub fn new() -> (r: HeaderBuffer)
        ensures
            r.bytes@ == Seq::<u8>::empty(),
    {
        HeaderBuffer { bytes: Vec::new() }
    }

    /// Adds a piece that has been received and tells what to do next.
    pub fn feed(&mut self, chunk: &[u8]) -> (r: ReadProgress)
        ensures
            final(self).bytes@ == old(self).bytes@ + chunk@,
            r == progress(old(self).bytes@, chunk@),
    {
        if chunk.len() == 0 {
            assert(self.bytes@ =~= old(self).bytes@ + chunk@);
            return ReadProgress::Complete;
        }
        let n: usize = chunk.len();
        let mut i: usize = 0;
        while i < n
            invariant
                i <= n,
                n == chunk.len(),
                self.bytes@ == old(self).bytes@ + chunk@.take(i as int),
            decreases n - i,
        {
            self.bytes.push(chunk[i]);
            assert(self.bytes@ =~= old(self).bytes@ + chunk@.take(i + 1));
            i += 1;
        }
        assert(chunk@.take(i as int) =~= chunk@);
        if find_header_end(self.bytes.as_slice()).is_some() {
            ReadProgress::Complete
        } else if self.bytes.len() >= MAX_HEADER_BYTES {
            ReadProgress::TooLarge
        } else {
            ReadProgress::More
        }
    }
}

/// What follows a head does not move its end.
pub proof fn law_head_end_is_stable(bytes: Seq<u8>, more: Seq<u8>)
    requires
        head_end(bytes) is Some,
    ensures
        head_end(bytes + more) == head_end(bytes),
{
    lemma_find_seq_is(bytes, head_mark());
    let i = find_seq(bytes, head_mark())->0;
    let all = bytes + more;
    assert(all.subrange(i, i + 4) =~= bytes.subrange(i, i + 4));
    assert forall|j: int| 0 <= j < i implies !occurs_at(all, head_mark(), j) by {
        assert(!occurs_at(bytes, head_mark(), j));
        assert(all.subrange(j, j + 4) =~= bytes.subrange(j, j + 4));
    }
    lemma_find_seq(all, head_mark(), i);
}

/// While more is to be received, less than the limit has been received and the head has not ended.
pub proof fn law_receiving_is_bounded(bytes: Seq<u8>, chunk: Seq<u8>)
    requires
        progress(bytes, chunk) == ReadProgress::More,
    ensures
        (bytes + chunk).len() < MAX_HEADER_BYTES,
        head_end(bytes + chunk) is None,
{
}

// ---------------------------------------------------------------------------
// Errors
// ---------------------------------------------------------------------------
/// Why a request cannot be read.
#[derive(Debug)]
pub enum HttpError {
    HeaderTooLarge,
    HeaderIncomplete,
    HeaderNotText { detail: String },
    MissingMethod,
    MissingTarget,
    /// The absolute URL in the request line is none.
    InvalidUrl { detail: String },
    MissingHost,
    /// The `Host` header and the path make no URL.
    InvalidHostUrl { detail: String },
}

/// `HttpError` as a value.
#[verifier::ext_equal]
pub enum HttpErrorView {
    HeaderTooLarge,
    HeaderIncomplete,
    HeaderNotText { detail: Seq<char> },
    MissingMethod,
    MissingTarget,
    InvalidUrl { detail: Seq<char> },
    MissingHost,
    InvalidHostUrl { detail: Seq<char> },
}

impl View for HttpError {
    type V = HttpErrorView;

    open spec fn view(&self) -> HttpErrorView {
        match self {
            HttpError::HeaderTooLarge => HttpErrorView::HeaderTooLarge,
            HttpError::HeaderIncomplete => HttpErrorView::HeaderIncomplete,
            HttpError::HeaderNotText { detail } => HttpErrorView::HeaderNotText { detail: detail@ },
            HttpError::MissingMethod => HttpErrorView::MissingMethod,
            HttpError::MissingTarget => HttpErrorView::MissingTarget,
            HttpError::InvalidUrl { detail } => HttpErrorView::InvalidUrl { detail: detail@ },
            HttpError::MissingHost => HttpErrorView::MissingHost,
            HttpError::InvalidHostUrl { detail } => HttpErrorView::InvalidHostUrl {
                detail: detail@,
            },
        }
    }
}

/// The text of an error of a request.
pub open spec fn http_error_text(error: HttpErrorView) -> Seq<char> {
    match error {
        HttpErrorView::HeaderTooLarge => "HTTP 请求头超过 64 KiB"@,
        HttpErrorView::HeaderIncomplete => "HTTP 请求头不完整"@,
        HttpErrorView::HeaderNotText { detail } => "HTTP 请求头不是 UTF-8/ASCII: "@ + detail,
        HttpErrorView::MissingMethod => "缺少 HTTP 方法"@,
        HttpErrorView::MissingTarget => "缺少请求目标"@,
        HttpErrorView::InvalidUrl { detail } => "代理请求中的 URL 无效: "@ + detail,
        HttpErrorView::MissingHost => "缺少 Host 头"@,
        HttpErrorView::InvalidHostUrl { detail } => detail,
    }
}

impl HttpError {
    /// The error in words.
    pub fn message(&self) -> (r: String)
        ensures
            r@ == http_error_text(self@),
    {
        match self {
            HttpError::HeaderTooLarge => "HTTP 请求头超过 64 KiB".to_owned(),
            HttpError::HeaderIncomplete => "HTTP 请求头不完整".to_owned(),
            HttpError::HeaderNotText { detail } => {
                let mut out = "HTTP 请求头不是 UTF-8/ASCII: ".to_owned();
                out.append(detail.as_str());
                out
            },
            HttpError::MissingMethod => "缺少 HTTP 方法".to_owned(),
            HttpError::MissingTarget => "缺少请求目标".to_owned(),
            HttpError::InvalidUrl { detail } => {
                let mut out = "代理请求中的 URL 无效: ".to_owned();
                out.append(detail.as_str());
                out
            },
            HttpError::MissingHost => "缺少 Host 头".to_owned(),
            HttpError::InvalidHostUrl { detail } => detail.clone(),
        }
    }
}

// ---------------------------------------------------------------------------
// Headers
// ---------------------------------------------------------------------------
/// The value of the first header of a name, in any letter case.
pub open spec fn find_header(
    headers: Seq<(Seq<char>, Seq<char>)>,
    expected: Seq<char>,
) -> Option<Seq<char>>
    decreases headers.len(),
{
    if headers.len() == 0 {
        None
    } else if same_ignoring_case(headers[0].0, expected) {
        Some(headers[0].1)
    } else {
        find_header(headers.drop_first(), expected)
    }
}

/// The value of the first header of a name, in any letter case.
pub fn header_value<'a>(headers: &'a [(String, String)], expected: &str) -> (r: Option<&'a str>)
    ensures
        match r {
            Some(value) => find_header(header_views(headers@), expected@) == Some(value@),
            None => find_header(header_views(headers@), expected@) is None,
        },
{
    let ghost all = header_views(headers@);
    let mut i: usize = 0;
    assert(all.skip(0) =~= all);
    while i < headers.len()
        invariant
            i <= headers.len(),
            all == header_views(headers@),
            find_header(all, expected@) == find_header(all.skip(i as int), expected@),
        decreases headers.len() - i,
    {
        assert(all.skip(i as int).drop_first() =~= all.skip(i + 1));
        assert(all.skip(i as int)[0] == (headers@[i as int].0@, headers@[i as int].1@));
        if same_text_ignoring_case(headers[i].0.as_str(), expected) {
            return Some(headers[i].1.as_str());
        }
        i += 1;
    }
    None
}

/// The header that a line holds: a name and a value around a colon, without white space around
/// them.
pub open spec fn line_header(line: Seq<char>) -> Option<(Seq<char>, Seq<char>)> {
    match split_at_first(line, ':') {
        Some((name, value)) => Some((trim(name), trim(value))),
        None => None,
    }
}

/// The headers that lines hold, in their order; a line without a colon holds none.
pub open spec fn line_headers(lines: Seq<Seq<char>>) -> Seq<(Seq<char>, Seq<char>)>
    decreases lines.len(),
{
    if lines.len() == 0 {
        Seq::empty()
    } else {
        let before = line_headers(lines.drop_last());
        match line_header(lines.last()) {
            Some(header) => before.push(header),
            None => before,
        }
    }
}

fn headers_of(lines: &[Vec<char>]) -> (r: Vec<(String, String)>)
    ensures
        header_views(r@) == line_headers(views(lines@)),
{
    let ghost all = views(lines@);
    let mut out: Vec<(String, String)> = Vec::new();
    let mut i: usize = 0;
    assert(all.take(0) =~= Seq::<Seq<char>>::empty());
    assert(header_views(out@) =~= Seq::<(Seq<char>, Seq<char>)>::empty());
    while i < lines.len()
        invariant
            i <= lines.len(),
            all == views(lines@),
            header_views(out@) == line_headers(all.take(i as int)),
        decreases lines.len() - i,
    {
        assert(all.take(i + 1).drop_last() =~= all.take(i as int));
        assert(all.take(i + 1).last() == lines@[i as int]@);
        if let Some((name, value)) = split_once(lines[i].as_slice(), ':') {
            let ghost before = out@;
            let header = (text_of(trimmed(name)), text_of(trimmed(value)));
            out.push(header);
            assert(header_views(out@) =~= header_views(before).push((header.0@, header.1@)));
        }
        i += 1;
    }
    assert(all.take(i as int) =~= all);
    out
}

// ---------------------------------------------------------------------------
// Requests
// ---------------------------------------------------------------------------
/// The head of a request as it was sent.
#[derive(Debug)]
pub struct RequestHead {
    pub method: String,
    pub target: String,
    pub version: String,
    pub headers: Vec<(String, String)>,
}

/// `RequestHead` as a value.
#[verifier::ext_equal]
pub struct HeadView {
    pub method: Seq<char>,
    pub target: Seq<char>,
    pub version: Seq<char>,
    pub headers: Seq<(Seq<char>, Seq<char>)>,
}

impl View for RequestHead {
    type V = HeadView;

    open spec fn view(&self) -> HeadView {
        HeadView {
            method: self.method@,
            target: self.target@,
            version: self.version@,
            headers: header_views(self.headers@),
        }
    }
}

/// The head that a text writes: a line of method, target and version, then lines of headers. A
/// missing version is HTTP/1.1.
pub open spec fn read_head(header: Seq<char>) -> Result<HeadView, HttpErrorView> {
    let all = pieces(header, "\r\n"@);
    let parts = words(all[0]);
    if parts.len() == 0 {
        Err(HttpErrorView::MissingMethod)
    } else if parts.len() == 1 {
        Err(HttpErrorView::MissingTarget)
    } else {
        Ok(
            HeadView {
                method: parts[0],
                target: parts[1],
                version: if parts.len() > 2 {
                    parts[2]
                } else {
                    "HTTP/1.1"@
                },
                headers: line_headers(all.drop_first()),
            },
        )
    }
}

/// A head that was read, or why it was not.
pub open spec fn head_result(r: Result<RequestHead, HttpError>) -> Result<HeadView, HttpErrorView> {
    match r {
        Ok(head) => Ok(head@),
        Err(error) => Err(error@),
    }
}

/// Whether the target of a request is a whole URL.
pub open spec fn absolute(target: Seq<char>) -> bool {
    "http://"@.is_prefix_of(target) || "https://"@.is_prefix_of(target)
}

/// The text of the URL that a head asks for: its target, or its target on the host that its `Host`
/// header names.
pub open spec fn asked_url(head: HeadView) -> Result<Seq<char>, HttpErrorView> {
    if absolute(head.target) {
        Ok(head.target)
    } else {
        match find_header(head.headers, "Host"@) {
            Some(host) => Ok("http://"@ + host + head.target),
            None => Err(HttpErrorView::MissingHost),
        }
    }
}

impl RequestHead {
    /// Reads the head of a request.
    pub fn parse(header: &str) -> (r: Result<RequestHead, HttpError>)
        ensures
            head_result(r) == read_head(header@),
    {
        let text = chars_of(header);
        let separator = chars_of("\r\n");
        proof {
            reveal_strlit("\r\n");
        }
        let lines = split_on(text.as_slice(), separator.as_slice());
        let ghost all = pieces(header@, "\r\n"@);
        assert(views(lines@)[0] == lines@[0]@);
        let parts = split_words(lines[0].as_slice());
        let ghost found = words(all[0]);
        assert(found == views(parts@));
        assert(forall|i: int| 0 <= i < parts@.len() ==> found[i] == (#[trigger] parts@[i])@);
        if parts.len() == 0 {
            return Err(HttpError::MissingMethod);
        }
        if parts.len() == 1 {
            return Err(HttpError::MissingTarget);
        }
        let version = if parts.len() > 2 {
            text_of(parts[2].as_slice())
        } else {
            "HTTP/1.1".to_owned()
        };
        let n: usize = lines.len();
        let rest = slice_subrange(lines.as_slice(), 1, n);
        assert(views(rest@) =~= all.drop_first());
        Ok(
            RequestHead {
                method: text_of(parts[0].as_slice()),
                target: text_of(parts[1].as_slice()),
                version,
                headers: headers_of(rest),
            },
        )
    }

    /// The text of the URL that the head asks for.
    pub fn url(&self) -> (r: Result<String, HttpError>)
        ensures
            match r {
                Ok(text) => asked_url(self@) == Ok::<Seq<char>, HttpErrorView>(text@),
                Err(error) => asked_url(self@) == Err::<Seq<char>, HttpErrorView>(error@),
            },
    {
        let target = self.target.as_str();
        if begins_with(target, "http://") || begins_with(target, "https://") {
            return Ok(target.to_owned());
        }
        match header_value(self.headers.as_slice(), "Host") {
            Some(host) => {
                let mut out = "http://".to_owned();
                out.append(host);
                out.append(target);
                Ok(out)
            },
            None => Err(HttpError::MissingHost),
        }
    }
}

/// A request with its target resolved.
#[derive(Debug)]
pub struct ParsedRequest {
    pub method: String,
    pub version: String,
    /// Host and port, as far as the request names them.
    pub authority: String,
    pub url: String,
    pub path: String,
    pub headers: Vec<(String, String)>,
}

/// `ParsedRequest` as a value.
#[verifier::ext_equal]
pub struct RequestView {
    pub method: Seq<char>,
    pub version: Seq<char>,
    pub authority: Seq<char>,
    pub url: Seq<char>,
    pub path: Seq<char>,
    pub headers: Seq<(Seq<char>, Seq<char>)>,
}

impl View for ParsedRequest {
    type V = RequestView;

    open spec fn view(&self) -> RequestView {
        RequestView {
            method: self.method@,
            version: self.version@,
            authority: self.authority@,
            url: self.url@,
            path: self.path@,
            headers: header_views(self.headers@),
        }
    }
}

/// The request for a tunnel: its target is host and port, and the URL is made from it.
pub open spec fn tunnel_request(head: HeadView) -> RequestView {
    RequestView {
        method: head.method,
        version: head.version,
        authority: head.target,
        url: "https://"@ + head.target + "/"@,
        path: "/"@,
        headers: head.headers,
    }
}

/// The text of an optional text, nothing where there is none.
pub open spec fn or_empty(text: Option<Seq<char>>) -> Seq<char> {
    match text {
        Some(t) => t,
        None => Seq::empty(),
    }
}

/// The request for a URL with these parts.
pub open spec fn url_request(
    head: HeadView,
    host: Option<Seq<char>>,
    port: Option<u16>,
    path: Seq<char>,
    query: Option<Seq<char>>,
    text: Seq<char>,
) -> RequestView {
    RequestView {
        method: head.method,
        version: head.version,
        authority: match port {
            Some(p) => or_empty(host) + ":"@ + digits(p as nat),
            None => or_empty(host),
        },
        url: text,
        path: match query {
            Some(q) => path + "?"@ + q,
            None => path,
        },
        headers: head.headers,
    }
}

/// The request that a head writes.
pub open spec fn read_request(header: Seq<char>) -> Result<RequestView, HttpErrorView> {
    match read_head(header) {
        Err(error) => Err(error),
        Ok(head) => if is_connect(head.method) {
            Ok(tunnel_request(head))
        } else {
            match asked_url(head) {
                Err(error) => Err(error),
                Ok(url) => match url_error(url) {
                    Some(detail) => if absolute(head.target) {
                        Err(HttpErrorView::InvalidUrl { detail })
                    } else {
                        Err(HttpErrorView::InvalidHostUrl { detail })
                    },
                    None => Ok(
                        url_request(
                            head,
                            url_host(url),
                            url_port(url),
                            url_path(url),
                            url_query(url),
                            url_text(url),
                        ),
                    ),
                },
            }
        },
    }
}

/// A request that was read, or why it was not.
pub open spec fn request_result(r: Result<ParsedRequest, HttpError>) -> Result<
    RequestView,
    HttpErrorView,
> {
    match r {
        Ok(request) => Ok(request@),
        Err(error) => Err(error@),
    }
}

/// The text of an optional text, nothing where there is none.
fn text_or_empty(text: Option<String>) -> (r: String)
    ensures
        r@ == or_empty(opt_view(text)),
{
    match text {
        Some(t) => t,
        None => String::new(),
    }
}

/// The request for a URL with these parts.
pub fn resolve(head: RequestHead, parts: UrlParts) -> (r: ParsedRequest)
    ensures
        r@ == url_request(
            head@,
            opt_view(parts.host),
            parts.port,
            parts.path@,
            opt_view(parts.query),
            parts.text@,
        ),
{
    let mut authority = text_or_empty(parts.host);
    if let Some(port) = parts.port {
        authority.append(":");
        authority.append(text_of(decimal(port as u64).as_slice()).as_str());
    }
    let mut path = parts.path;
    if let Some(query) = parts.query {
        path.append("?");
        path.append(query.as_str());
    }
    ParsedRequest {
        method: head.method,
        version: head.version,
        authority,
        url: parts.text,
        path,
        headers: head.headers,
    }
}

/// The host of a URL, or another text where it has none.
pub open spec fn named_host(url: Seq<char>, otherwise: Seq<char>) -> Seq<char> {
    if url_error(url) is None && url_host(url) is Some {
        url_host(url)->0
    } else {
        otherwise
    }
}

/// The host that was found in a URL, or another text where none was.
pub fn host_or(parsed: Result<UrlParts, String>, otherwise: &str) -> (r: String)
    ensures
        r@ == match parsed {
            Ok(parts) => match parts.host {
                Some(host) => host@,
                None => otherwise@,
            },
            Err(_) => otherwise@,
        },
{
    if let Ok(parts) = parsed {
        if let Some(host) = parts.host {
            return host;
        }
    }
    otherwise.to_owned()
}

/// What rules can look at in a request.
pub open spec fn facts_of(request: RequestView) -> FactsView {
    FactsView {
        method: request.method,
        host: lowercase(request.authority.take(find_char(request.authority, ':'))),
        url: request.url,
        path: request.path,
        headers: request.headers,
    }
}

/// The name of the header that marks a request of the application to itself.
pub open spec fn probe_header() -> Seq<char> {
    "X-Net-Sentinel-Probe"@
}

/// What the path of a request of the application to itself begins with.
pub open spec fn probe_path() -> Seq<char> {
    "/__net-sentinel-probe/"@
}

/// Whether a request is one of the application to itself: it goes to a port of this machine and
/// holds the same token in its path and in the header that marks it.
pub open spec fn internal_probe(request: RequestView) -> bool {
    "127.0.0.1:"@.is_prefix_of(request.authority) && match find_header(
        request.headers,
        probe_header(),
    ) {
        Some(token) => request.path == probe_path() + token,
        None => false,
    }
}

impl ParsedRequest {
    /// Reads the head of a request and resolves its target.
    pub fn parse(header: &str) -> (r: Result<ParsedRequest, HttpError>)
        ensures
            request_result(r) == read_request(header@),
    {
        let head = match RequestHead::parse(header) {
            Ok(head) => head,
            Err(error) => {
                return Err(error);
            },
        };
        if same_text_ignoring_case(head.method.as_str(), "CONNECT") {
            let mut url = "https://".to_owned();
            url.append(head.target.as_str());
            url.append("/");
            return Ok(
                ParsedRequest {
                    method: head.method,
                    version: head.version,
                    authority: head.target,
                    url,
                    path: "/".to_owned(),
                    headers: head.headers,
                },
            );
        }
        let url = match head.url() {
            Ok(url) => url,
            Err(error) => {
                return Err(error);
            },
        };
        match parse_url(url.as_str()) {
            Ok(parts) => Ok(resolve(head, parts)),
            Err(detail) => {
                if begins_with(head.target.as_str(), "http://") || begins_with(
                    head.target.as_str(),
                    "https://",
                ) {
                    Err(HttpError::InvalidUrl { detail })
                } else {
                    Err(HttpError::InvalidHostUrl { detail })
                }
            },
        }
    }

    /// What rules can look at in the request.
    pub fn facts(&self) -> (r: RequestFacts)
        ensures
            r@ == facts_of(self@),
    {
        let authority = chars_of(self.authority.as_str());
        let i: usize = position_of(authority.as_slice(), ':');
        let host = text_of(slice_subrange(authority.as_slice(), 0, i));
        assert(host@ =~= self.authority@.take(i as int));
        RequestFacts {
            method: self.method.clone(),
            host: to_lowercase(host.as_str()),
            url: self.url.clone(),
            path: self.path.clone(),
            headers: copy_headers(self.headers.as_slice()),
        }
    }

    /// Whether the request is one of the application to itself.
    pub fn is_internal_probe(&self) -> (r: bool)
        ensures
            r == internal_probe(self@),
    {
        if !begins_with(self.authority.as_str(), "127.0.0.1:") {
            return false;
        }
        match header_value(self.headers.as_slice(), "X-Net-Sentinel-Probe") {
            Some(token) => {
                let mut expected = "/__net-sentinel-probe/".to_owned();
                expected.append(token);
                same_text(self.path.as_str(), expected.as_str())
            },
            None => false,
        }
    }
}

/// Of headers of one name, in whatever case, the value of the first is found; none is found only
/// where there is none.
pub proof fn law_first_header_of_a_name_is_found(
    headers: Seq<(Seq<char>, Seq<char>)>,
    name: Seq<char>,
    i: int,
)
    requires
        0 <= i <= headers.len(),
        forall|k: int| 0 <= k < i ==> !same_ignoring_case((#[trigger] headers[k]).0, name),
        i < headers.len() ==> same_ignoring_case(headers[i].0, name),
    ensures
        find_header(headers, name) == if i < headers.len() {
            Some(headers[i].1)
        } else {
            None
        },
    decreases headers.len(),
{
    if i > 0 {
        let rest = headers.drop_first();
        assert(!same_ignoring_case(headers[0].0, name));
        assert forall|k: int| 0 <= k < i - 1 implies !same_ignoring_case(
            (#[trigger] rest[k]).0,
            name,
        ) by {
            assert(rest[k] == headers[k + 1]);
        }
        law_first_header_of_a_name_is_found(rest, name, i - 1);
    }
}

/// The text of a request head.
pub open spec fn head_text(
    method: Seq<char>,
    target: Seq<char>,
    version: Seq<char>,
    headers: Seq<(Seq<char>, Seq<char>)>,
) -> Seq<char> {
    method + " "@ + target + " "@ + version + "\r\n"@ + header_text(headers)
}

/// The text of headers, each on a line of its own, and of the empty line behind them.
pub open spec fn header_text(headers: Seq<(Seq<char>, Seq<char>)>) -> Seq<char>
    decreases headers.len(),
{
    if headers.len() == 0 {
        "\r\n"@
    } else {
        headers[0].0 + ": "@ + headers[0].1 + "\r\n"@ + header_text(headers.drop_first())
    }
}

/// Whether a header can be told from its text: the name is without colon and white space, and the
/// value is one line without white space around it.
pub open spec fn clean_header(header: (Seq<char>, Seq<char>)) -> bool {
    &&& is_solid(header.0)
    &&& !header.0.contains(':')
    &&& one_line(header.1)
    &&& trim(" "@ + header.1) == header.1
}

proof fn lemma_clean_line(header: (Seq<char>, Seq<char>))
    requires
        clean_header(header),
    ensures
        one_line(header.0 + ": "@ + header.1),
        line_header(header.0 + ": "@ + header.1) == Some(header),
{
    reveal_strlit(": ");
    reveal_strlit(" ");
    let (name, value) = header;
    let line = name + ": "@ + value;
    crate::text::lemma_solid(name);
    assert(line =~= name + seq![':'] + (" "@ + value));
    crate::text::law_splitting_parts_a_text(name, " "@ + value, ':');
    assert forall|i: int| 0 <= i < line.len() implies #[trigger] line[i] != '\n' by {
        if i < name.len() {
            assert(line[i] == name[i]);
        } else if i >= name.len() + 2 {
            assert(line[i] == value[i - name.len() - 2]);
        }
    }
}

proof fn lemma_headers_are_read(headers: Seq<(Seq<char>, Seq<char>)>, before: Seq<Seq<char>>)
    requires
        forall|i: int| 0 <= i < headers.len() ==> clean_header(#[trigger] headers[i]),
    ensures
        line_headers(before + pieces(header_text(headers), "\r\n"@)) == line_headers(before)
            + headers,
    decreases headers.len(),
{
    reveal_strlit("\r\n");
    let e = "\r\n"@;
    let none = Seq::<char>::empty();
    if headers.len() == 0 {
        crate::text::lemma_first_of_pieces(none, none);
        assert(none + e + none =~= e);
        assert forall|j: int| !crate::text::occurs_at(none, e, j) by {}
        crate::text::lemma_find_seq_none(none, e);
        assert(pieces(e, e) =~= seq![none, none]);
        let all = before + seq![none, none];
        assert(all.drop_last() =~= before.push(none));
        assert(before.push(none).drop_last() =~= before);
        assert(crate::text::find_char(none, ':') == 0);
        assert(line_header(none) is None);
        assert(line_headers(all) == line_headers(before.push(none)));
        assert(line_headers(before.push(none)) == line_headers(before));
        assert(line_headers(before) + headers =~= line_headers(before));
        assert(before + pieces(header_text(headers), e) =~= all);
    } else {
        let line = headers[0].0 + ": "@ + headers[0].1;
        let rest = headers.drop_first();
        lemma_clean_line(headers[0]);
        crate::text::lemma_first_of_pieces(line, header_text(rest));
        assert forall|i: int| 0 <= i < rest.len() implies clean_header(#[trigger] rest[i]) by {
            assert(rest[i] == headers[i + 1]);
        }
        lemma_headers_are_read(rest, before.push(line));
        assert(before + (seq![line] + pieces(header_text(rest), e)) =~= before.push(line) + pieces(
            header_text(rest),
            e,
        ));
        assert(before.push(line).drop_last() =~= before);
        assert(line_headers(before.push(line)) == line_headers(before).push(headers[0]));
        assert(line_headers(before).push(headers[0]) + rest =~= line_headers(before) + headers);
        assert(header_text(headers) == line + e + header_text(rest));
    }
}

/// What is written as the head of a request is what is read from it: method, target and version, and
/// all headers in their order.
pub proof fn law_head_is_read_as_it_is_written(
    method: Seq<char>,
    target: Seq<char>,
    version: Seq<char>,
    headers: Seq<(Seq<char>, Seq<char>)>,
)
    requires
        method.len() > 0 && is_solid(method),
        target.len() > 0 && is_solid(target),
        version.len() > 0 && is_solid(version),
        forall|i: int| 0 <= i < headers.len() ==> clean_header(#[trigger] headers[i]),
    ensures
        read_head(head_text(method, target, version, headers)) == Ok::<HeadView, HttpErrorView>(
            HeadView { method, target, version, headers },
        ),
{
    let e = "\r\n"@;
    let line = method + " "@ + target + " "@ + version;
    lemma_request_line(method, target, version);
    crate::text::lemma_first_of_pieces(line, header_text(headers));
    let text = head_text(method, target, version, headers);
    let all = pieces(text, e);
    assert(all[0] == line);
    let tail = pieces(header_text(headers), e);
    assert(all.drop_first() =~= tail);
    let none = Seq::<Seq<char>>::empty();
    lemma_headers_are_read(headers, none);
    assert(none + tail =~= tail);
    assert(line_headers(none) + headers =~= headers);
    assert(read_head(text)->Ok_0 =~= HeadView { method, target, version, headers });
}

proof fn lemma_request_line(method: Seq<char>, target: Seq<char>, version: Seq<char>)
    requires
        method.len() > 0 && is_solid(method),
        target.len() > 0 && is_solid(target),
        version.len() > 0 && is_solid(version),
    ensures
        words(method + " "@ + target + " "@ + version) == seq![method, target, version],
        one_line(method + " "@ + target + " "@ + version),
{
    reveal_strlit(" ");
    let line = method + " "@ + target + " "@ + version;
    let behind = target + " "@ + version;
    crate::text::lemma_solid(method);
    crate::text::lemma_solid(target);
    crate::text::lemma_solid(version);
    assert(line =~= method + " "@ + behind);
    crate::text::lemma_first_of_words(method, behind);
    crate::text::lemma_first_of_words(target, version);
    crate::text::lemma_first_of_words(version, Seq::<char>::empty());
    assert(words(line) =~= seq![method, target, version]);
    assert forall|i: int| 0 <= i < line.len() implies #[trigger] line[i] != '\n' by {
        let a = method.len() as int;
        let b = a + 1 + target.len();
        if i < a {
            assert(line[i] == method[i]);
        } else if i > a && i < b {
            assert(line[i] == target[i - a - 1]);
        } else if i > b {
            assert(line[i] == version[i - b - 1]);
        }
    }
}

/// A request for a tunnel is for its target, of which nothing but the name is known.
pub proof fn law_tunnel_is_to_its_target(header: Seq<char>, head: HeadView)
    requires
        read_head(header) == Ok::<HeadView, HttpErrorView>(head),
        same_ignoring_case(head.method, "CONNECT"@),
    ensures
        read_request(header) matches Ok(request) && {
            &&& request.method == head.method
            &&& request.version == head.version
            &&& request.authority == head.target
            &&& request.url == "https://"@ + head.target + "/"@
            &&& request.path == "/"@
            &&& request.headers == head.headers
        },
{
}

/// Any other request is for the URL that it names, or, with a path only, for that of its `Host`
/// header; without either it cannot be read. Method, version and headers stay.
pub proof fn law_request_is_for_the_url_it_names(header: Seq<char>, head: HeadView, url: Seq<char>)
    requires
        read_head(header) == Ok::<HeadView, HttpErrorView>(head),
        !same_ignoring_case(head.method, "CONNECT"@),
        "http://"@.is_prefix_of(head.target) || "https://"@.is_prefix_of(head.target) ==> url
            == head.target,
        !("http://"@.is_prefix_of(head.target) || "https://"@.is_prefix_of(head.target))
            && find_header(head.headers, "Host"@) is Some ==> url == "http://"@ + find_header(
            head.headers,
            "Host"@,
        )->0 + head.target,
    ensures
        ({
            let named = "http://"@.is_prefix_of(head.target) || "https://"@.is_prefix_of(
                head.target,
            );
            let hosted = find_header(head.headers, "Host"@) is Some;
            let r = read_request(header);
            &&& !named && !hosted ==> r == Err::<RequestView, HttpErrorView>(
                HttpErrorView::MissingHost,
            )
            &&& (named || hosted) && url_error(url) is Some ==> r == Err::<
                RequestView,
                HttpErrorView,
            >(
                if named {
                    HttpErrorView::InvalidUrl { detail: url_error(url)->0 }
                } else {
                    HttpErrorView::InvalidHostUrl { detail: url_error(url)->0 }
                },
            )
            &&& (named || hosted) && url_error(url) is None ==> (r matches Ok(request) && {
                let host = if url_host(url) is Some {
                    url_host(url)->0
                } else {
                    Seq::empty()
                };
                &&& request.method == head.method
                &&& request.version == head.version
                &&& request.headers == head.headers
                &&& request.url == url_text(url)
                &&& url_query(url) is None ==> request.path == url_path(url)
                &&& url_query(url) is Some ==> request.path == url_path(url) + "?"@
                    + url_query(url)->0
                &&& url_port(url) is None ==> request.authority == host
                &&& url_port(url) is Some ==> request.authority == host + ":"@ + digits(
                    url_port(url)->0 as nat,
                )
            })
        }),
{
}

/// Rules see the method, URL, path and headers of a request as they are, and of its authority the
/// host, in lower case.
pub proof fn law_rules_see_the_request(request: RequestView, host: Seq<char>, rest: Seq<char>)
    requires
        !host.contains(':'),
        request.authority == host || request.authority == host + ":"@ + rest,
    ensures
        facts_of(request).host == lowercase(host),
        facts_of(request).method == request.method,
        facts_of(request).url == request.url,
        facts_of(request).path == request.path,
        facts_of(request).headers == request.headers,
{
    reveal_strlit(":");
    let a = request.authority;
    let n = host.len() as int;
    assert forall|j: int| 0 <= j < n implies a[j] != ':' by {
        assert(a[j] == host[j]);
        assert(host.contains(host[j]));
    }
    crate::text::lemma_find_char(a, ':', n);
    assert(a.take(n) =~= host);
}

/// A request of the application to itself is one to a port of this machine, with a token in a header
/// and the same token in the path.
pub proof fn law_own_request_shows_its_token(request: RequestView, i: int)
    requires
        0 <= i <= request.headers.len(),
        forall|k: int|
            0 <= k < i ==> !same_ignoring_case(
                (#[trigger] request.headers[k]).0,
                "X-Net-Sentinel-Probe"@,
            ),
        i < request.headers.len() ==> same_ignoring_case(
            request.headers[i].0,
            "X-Net-Sentinel-Probe"@,
        ),
    ensures
        internal_probe(request) <==> i < request.headers.len() && "127.0.0.1:"@.is_prefix_of(
            request.authority,
        ) && request.path == "/__net-sentinel-probe/"@ + request.headers[i].1,
{
    law_first_header_of_a_name_is_found(request.headers, "X-Net-Sentinel-Probe"@, i);
}

/// A head ends with the first empty line, and there is no end without one.
pub proof fn law_head_ends_with_the_first_empty_line(bytes: Seq<u8>, e: int)
    ensures
        head_end(bytes) == Some(e) ==> 4 <= e <= bytes.len() && bytes.subrange(e - 4, e) == seq![
            13u8,
            10u8,
            13u8,
            10u8,
        ],
        head_end(bytes) matches Some(end) ==> (4 <= e < end ==> bytes.subrange(e - 4, e) != seq![
            13u8,
            10u8,
            13u8,
            10u8,
        ]),
        head_end(bytes) is None && 4 <= e <= bytes.len() ==> bytes.subrange(e - 4, e) != seq![
            13u8,
            10u8,
            13u8,
            10u8,
        ],
{
    let mark = seq![13u8, 10u8, 13u8, 10u8];
    crate::text::lemma_find_seq_is(bytes, mark);
    if 4 <= e <= bytes.len() && bytes.subrange(e - 4, e) == mark {
        assert(crate::text::occurs_at(bytes, mark, e - 4));
    }
    if let Some(end) = head_end(bytes) {
        assert(crate::text::occurs_at(bytes, mark, end - 4));
    }
}

/// Receiving a head goes on until it is complete or has reached 64 KiB, and stops when the sender does.
pub proof fn law_receiving_ends_with_the_head(bytes: Seq<u8>, chunk: Seq<u8>)
    ensures
        progress(bytes, chunk) == ReadProgress::Complete <==> chunk.len() == 0 || head_end(
            bytes + chunk,
        ) is Some,
        progress(bytes, chunk) == ReadProgress::TooLarge <==> chunk.len() > 0 && head_end(
            bytes + chunk,
        ) is None && bytes.len() + chunk.len() >= 65536,
{
}

/// The host of a URL is named where the URL can be read and has one.
pub proof fn law_host_is_that_of_the_url(url: Seq<char>, otherwise: Seq<char>)
    ensures
        url_error(url) is None && url_host(url) is Some ==> named_host(url, otherwise)
            == url_host(url)->0,
        url_error(url) is Some || url_host(url) is None ==> named_host(url, otherwise)
            == otherwise,
{
}

/// What is told of a request that cannot be read ends with the detail, where there is one.
pub proof fn law_http_errors_keep_their_detail(error: HttpError, r: String)
    requires
        call_ensures(HttpError::message, (&error,), r),
    ensures
        error matches HttpError::HeaderNotText { detail } ==> crate::response::is_suffix(
            detail@,
            r@,
        ),
        error matches HttpError::InvalidUrl { detail } ==> crate::response::is_suffix(detail@, r@),
        error matches HttpError::InvalidHostUrl { detail } ==> r@ == detail@,
{
    crate::response::lemma_joined();
}

} // verus!
