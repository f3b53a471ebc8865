//! The responses that the proxy gives itself to a blocked request.

use crate::events::{summaries, ActionExecutionSummary, SummaryView};
use crate::foreign::parse_url;
use crate::http::{host_or, named_host};
use crate::text::{chars_of, decimal, digits, text_of};
use vstd::prelude::*;
use vstd::utf8::encode_utf8;

verus! {

/// How a character is written in a page.
pub open spec fn escaped_char(c: char) -> Seq<char> {
    if c == '&' {
        "&amp;"@
    } else if c == '<' {
        "&lt;"@
    } else if c == '>' {
        "&gt;"@
    } else if c == '"' {
        "&quot;"@
    } else if c == '\'' {
        "&#39;"@
    } else {
        seq![c]
    }
}

/// How a text is written in a page: each character on its own.
pub open spec fn escaped(text: Seq<char>) -> Seq<char>
    decreases text.len(),
{
    if text.len() == 0 {
        Seq::empty()
    } else {
        escaped(text.drop_last()) + escaped_char(text.last())
    }
}

/// Writes a text so that a page shows it as it is.
pub fn html_escape(value: &str) -> (r: String)
    ensures
        r@ == escaped(value@),
{
    let chars = chars_of(value);
    let mut out = String::new();
    let mut i: usize = 0;
    assert(chars@.take(0) =~= Seq::<char>::empty());
    while i < chars.len()
        invariant
            i <= chars@.len(),
            chars@ == value@,
            out@ == escaped(chars@.take(i as int)),
        decreases chars@.len() - i,
    {
        let c: char = chars[i];
        assert(chars@.take(i + 1).drop_last() =~= chars@.take(i as int));
        let ghost before = out@;
        if c == '&' {
            out.append("&amp;");
        } else if c == '<' {
            out.append("&lt;");
        } else if c == '>' {
            out.append("&gt;");
        } else if c == '"' {
            out.append("&quot;");
        } else if c == '\'' {
            out.append("&#39;");
        } else {
            out.push(c);
            assert(out@ =~= before + seq![c]);
        }
        i += 1;
    }
    assert(chars@.take(i as int) =~= chars@);
    out
}

/// Whether a text cannot leave the place in a page where it stands: it opens and closes no tag and
/// no quotation.
pub open spec fn harmless(text: Seq<char>) -> bool {
    !text.contains('<') && !text.contains('>') && !text.contains('"') && !text.contains('\'')
}

/// An escaped text opens and closes no tag and no quotation.
pub proof fn law_escaped_text_is_harmless(text: Seq<char>)
    ensures
        harmless(escaped(text)),
    decreases text.len(),
{
    if text.len() > 0 {
        law_escaped_text_is_harmless(text.drop_last());
        reveal_strlit("&amp;");
        reveal_strlit("&lt;");
        reveal_strlit("&gt;");
        reveal_strlit("&quot;");
        reveal_strlit("&#39;");
        let head = escaped(text.drop_last());
        let tail = escaped_char(text.last());
        assert(harmless(tail));
        assert forall|c: char| !head.contains(c) && !tail.contains(c) implies !(#[trigger] (head
            + tail).contains(c)) by {
            if (head + tail).contains(c) {
                let i = choose|i: int| 0 <= i < (head + tail).len() && (head + tail)[i] == c;
                if i < head.len() {
                    assert(head[i] == c);
                } else {
                    assert(tail[i - head.len()] == c);
                }
            }
        }
        assert(!(head + tail).contains('<'));
        assert(!(head + tail).contains('>'));
        assert(!(head + tail).contains('"'));
        assert(!(head + tail).contains('\''));
    }
}

/// A text without special characters is written as it is.
pub proof fn law_plain_text_is_not_escaped(text: Seq<char>)
    requires
        harmless(text),
        !text.contains('&'),
    ensures
        escaped(text) == text,
    decreases text.len(),
{
    if text.len() > 0 {
        let front = text.drop_last();
        assert(text.contains(text.last()));
        assert forall|c: char| !text.contains(c) implies !(#[trigger] front.contains(c)) by {
            if front.contains(c) {
                let i = choose|i: int| 0 <= i < front.len() && front[i] == c;
                assert(text[i] == c);
            }
        }
        law_plain_text_is_not_escaped(front);
        assert(text =~= front + seq![text.last()]);
    }
}

/// The response to a tunnel that is blocked.
pub open spec fn refused_tunnel() -> Seq<char> {
    "HTTP/1.1 403 Forbidden\r\nContent-Length: 0\r\nConnection: close\r\n\r\n"@
}

/// The response to a tunnel that is blocked.
pub fn connect_blocked_response() -> (r: String)
    ensures
        r@ == refused_tunnel(),
{
    "HTTP/1.1 403 Forbidden\r\nContent-Length: 0\r\nConnection: close\r\n\r\n".to_owned()
}

/// The lengths of a body in bytes, in decimal digits.
pub open spec fn content_length(body: Seq<char>) -> Seq<char> {
    digits(encode_utf8(body).len())
}

fn length_text(body: &str) -> (r: String)
    ensures
        r@ == content_length(body@),
{
    let n: usize = body.as_bytes().len();
    text_of(decimal(n as u64).as_slice())
}

/// A response with a page in place of what was asked for.
pub open spec fn page_response(body: Seq<char>) -> Seq<char> {
    "HTTP/1.1 200 OK\r\nContent-Type: text/html; charset=utf-8\r\nContent-Length: "@
        + content_length(body)
        + "\r\nCache-Control: no-store\r\nX-Content-Type-Options: nosniff\r\nConnection: close\r\n\r\n"@
        + body
}

/// A response with a page in place of what was asked for.
pub fn html_response(body: &str) -> (r: String)
    ensures
        r@ == page_response(body@),
{
    let mut out =
        "HTTP/1.1 200 OK\r\nContent-Type: text/html; charset=utf-8\r\nContent-Length: ".to_owned();
    out.append(length_text(body).as_str());
    out.append(
        "\r\nCache-Control: no-store\r\nX-Content-Type-Options: nosniff\r\nConnection: close\r\n\r\n",
    );
    out.append(body);
    out
}

/// The start of the page that tells of a block, up to the domain.
pub const BLOCK_PAGE_START: &'static str = "<!doctype html><html lang=\"zh-CN\"><head><meta charset=\"utf-8\"><meta name=\"viewport\" content=\"width=device-width\"><title>请求已拦截</title><style>body{font-family:system-ui;background:#f6f7f9;color:#20242a;display:grid;place-items:center;min-height:100vh;margin:0}.card{width:min(560px,calc(100vw - 48px));background:white;padding:42px;border-radius:16px;border:1px solid #d8dce2;box-shadow:0 14px 38px #1d26351a}h1{font-size:26px;margin:0 0 18px}dl{display:grid;grid-template-columns:88px 1fr;gap:10px;margin:24px 0}dt{color:#68717e}dd{margin:0;overflow-wrap:anywhere}.badges{display:flex;gap:8px;flex-wrap:wrap}.badges span{padding:4px 9px;border-radius:999px;background:#e9f3fa;color:#2e6d91;font-size:13px}button{border:1px solid #b8c0ca;background:#fff;border-radius:8px;padding:9px 15px;font:inherit;cursor:pointer}</style></head><body><main class=\"card\"><h1>请求已拦截</h1><p>Net Sentinel 已停止本次明文 HTTP 请求。</p><dl><dt>域名</dt><dd>";

/// Between the domain and the rule.
pub const BLOCK_PAGE_RULE: &'static str = "</dd><dt>命中规则</dt><dd>";

/// Between the rule and the outcomes.
pub const BLOCK_PAGE_RESULTS: &'static str = "</dd><dt>响应结果</dt><dd class=\"badges\">";

/// The end of the page that tells of a block.
pub const BLOCK_PAGE_END: &'static str = "</dd></dl><button onclick=\"history.back()\">返回上一页</button></main></body></html>";

/// The outcomes of the actions as the page shows them: their kinds.
pub open spec fn badges(results: Seq<SummaryView>) -> Seq<char>
    decreases results.len(),
{
    if results.len() == 0 {
        Seq::empty()
    } else {
        badges(results.drop_last()) + ("<span>"@ + escaped(results.last().kind) + "</span>"@)
    }
}

/// The page that tells of a block.
pub open spec fn block_page(
    domain: Seq<char>,
    rule_id: Seq<char>,
    results: Seq<SummaryView>,
) -> Seq<char> {
    BLOCK_PAGE_START@ + escaped(domain) + BLOCK_PAGE_RULE@ + escaped(rule_id) + BLOCK_PAGE_RESULTS@
        + badges(results) + BLOCK_PAGE_END@
}

/// The response with the page that tells of a block.
pub open spec fn block_response(
    domain: Seq<char>,
    rule_id: Seq<char>,
    results: Seq<SummaryView>,
) -> Seq<char> {
    "HTTP/1.1 403 Forbidden\r\nContent-Type: text/html; charset=utf-8\r\nContent-Length: "@
        + content_length(block_page(domain, rule_id, results)) + "\r\nConnection: close\r\n\r\n"@
        + block_page(domain, rule_id, results)
}

fn badges_of(results: &[ActionExecutionSummary]) -> (r: String)
    ensures
        r@ == badges(summaries(results@)),
{
    let ghost all = summaries(results@);
    let mut out = String::new();
    let mut i: usize = 0;
    assert(all.take(0) =~= Seq::<SummaryView>::empty());
    while i < results.len()
        invariant
            i <= results.len(),
            all == summaries(results@),
            out@ == badges(all.take(i as int)),
        decreases results.len() - i,
    {
        assert(all.take(i + 1).drop_last() =~= all.take(i as int));
        assert(all.take(i + 1).last() == results@[i as int]@);
        let mut badge = "<span>".to_owned();
        badge.append(html_escape(results[i].kind.as_str()).as_str());
        badge.append("</span>");
        out.append(badge.as_str());
        i += 1;
    }
    assert(all.take(i as int) =~= all);
    out
}

/// The response with the page that tells of a block.
pub fn blocked_response(
    domain: &str,
    rule_id: &str,
    action_results: &[ActionExecutionSummary],
) -> (r: String)
    ensures
        r@ == block_response(domain@, rule_id@, summaries(action_results@)),
{
    let mut body = BLOCK_PAGE_START.to_owned();
    body.append(html_escape(domain).as_str());
    body.append(BLOCK_PAGE_RULE);
    body.append(html_escape(rule_id).as_str());
    body.append(BLOCK_PAGE_RESULTS);
    body.append(badges_of(action_results).as_str());
    body.append(BLOCK_PAGE_END);
    let mut out =
        "HTTP/1.1 403 Forbidden\r\nContent-Type: text/html; charset=utf-8\r\nContent-Length: ".to_owned();
    out.append(length_text(body.as_str()).as_str());
    out.append("\r\nConnection: close\r\n\r\n");
    out.append(body.as_str());
    out
}

/// The domain that a page tells of: the host of the URL, where it has one.
pub open spec fn told_domain(url: Seq<char>) -> Seq<char> {
    named_host(url, "未知域名"@)
}

/// The domain that a page tells of.
pub fn domain_of(url: &str) -> (r: String)
    ensures
        r@ == told_domain(url@),
{
    host_or(parse_url(url), "未知域名")
}

/// Whether a text begins with another.
pub open spec fn is_prefix(start: Seq<char>, text: Seq<char>) -> bool {
    start.len() <= text.len() && text.subrange(0, start.len() as int) == start
}

/// Whether a text ends with another.
pub open spec fn is_suffix(end: Seq<char>, text: Seq<char>) -> bool {
    end.len() <= text.len() && text.subrange(text.len() - end.len(), text.len() as int) == end
}

/// The page of an action is sent as it is, behind a head that tells its length in bytes.
pub proof fn law_page_is_sent_as_it_is(body: Seq<char>)
    ensures
        is_suffix(body, page_response(body)),
        is_prefix("HTTP/1.1 200 OK\r\n"@, page_response(body)),
        is_prefix(
            "HTTP/1.1 200 OK\r\nContent-Type: text/html; charset=utf-8\r\nContent-Length: "@ + digits(
                encode_utf8(body).len(),
            ) + "\r\n"@,
            page_response(body),
        ),
{
    let start =
        "HTTP/1.1 200 OK\r\nContent-Type: text/html; charset=utf-8\r\nContent-Length: "@;
    let length = digits(encode_utf8(body).len());
    let rest =
        "\r\nCache-Control: no-store\r\nX-Content-Type-Options: nosniff\r\nConnection: close\r\n\r\n"@;
    let text = page_response(body);
    reveal_strlit("HTTP/1.1 200 OK\r\n");
    reveal_strlit("\r\n");
    reveal_strlit("HTTP/1.1 200 OK\r\nContent-Type: text/html; charset=utf-8\r\nContent-Length: ");
    reveal_strlit(
        "\r\nCache-Control: no-store\r\nX-Content-Type-Options: nosniff\r\nConnection: close\r\n\r\n",
    );
    assert(text == start + length + rest + body);
    assert(text.subrange(text.len() - body.len(), text.len() as int) =~= body);
    assert(text.subrange(0, 17) =~= "HTTP/1.1 200 OK\r\n"@);
    let head = start + length + "\r\n"@;
    assert(text.subrange(0, head.len() as int) =~= head);
}

/// A block page tells the domain, the rule and every outcome, all of them harmless, behind a head
/// that refuses the request and tells the length of the page in bytes.
pub proof fn law_block_page_tells_of_the_block(
    domain: Seq<char>,
    rule_id: Seq<char>,
    results: Seq<SummaryView>,
)
    ensures
        is_suffix(block_page(domain, rule_id, results), block_response(domain, rule_id, results)),
        is_prefix("HTTP/1.1 403 Forbidden\r\n"@, block_response(domain, rule_id, results)),
        is_prefix(
            "HTTP/1.1 403 Forbidden\r\nContent-Type: text/html; charset=utf-8\r\nContent-Length: "@
                + digits(encode_utf8(block_page(domain, rule_id, results)).len()) + "\r\n"@,
            block_response(domain, rule_id, results),
        ),
        exists|a: int|
            0 <= a && a + escaped(domain).len() <= block_page(domain, rule_id, results).len()
                && #[trigger] block_page(domain, rule_id, results).subrange(
                a,
                a + escaped(domain).len(),
            ) == escaped(domain),
        exists|a: int|
            0 <= a && a + escaped(rule_id).len() <= block_page(domain, rule_id, results).len()
                && #[trigger] block_page(domain, rule_id, results).subrange(
                a,
                a + escaped(rule_id).len(),
            ) == escaped(rule_id),
{
    let page = block_page(domain, rule_id, results);
    let start =
        "HTTP/1.1 403 Forbidden\r\nContent-Type: text/html; charset=utf-8\r\nContent-Length: "@;
    let length = digits(encode_utf8(page).len());
    let rest = "\r\nConnection: close\r\n\r\n"@;
    let text = block_response(domain, rule_id, results);
    reveal_strlit("HTTP/1.1 403 Forbidden\r\n");
    reveal_strlit("\r\n");
    reveal_strlit(
        "HTTP/1.1 403 Forbidden\r\nContent-Type: text/html; charset=utf-8\r\nContent-Length: ",
    );
    reveal_strlit("\r\nConnection: close\r\n\r\n");
    assert(text == start + length + rest + page);
    assert(text.subrange(text.len() - page.len(), text.len() as int) =~= page);
    assert(text.subrange(0, 24) =~= "HTTP/1.1 403 Forbidden\r\n"@);
    let head = start + length + "\r\n"@;
    assert(text.subrange(0, head.len() as int) =~= head);
    let a = BLOCK_PAGE_START@.len() as int;
    assert(page.subrange(a, a + escaped(domain).len()) =~= escaped(domain));
    let b = a + escaped(domain).len() + BLOCK_PAGE_RULE@.len();
    assert(page.subrange(b, b + escaped(rule_id).len()) =~= escaped(rule_id));
}

/// Every outcome has its badge on a block page, in the order of the outcomes.
pub proof fn law_every_outcome_has_its_badge(results: Seq<SummaryView>, result: SummaryView)
    ensures
        badges(Seq::<SummaryView>::empty()).len() == 0,
        badges(results.push(result)) == badges(results) + "<span>"@ + escaped(result.kind)
            + "</span>"@,
{
    assert(results.push(result).drop_last() =~= results);
    assert(badges(results.push(result)) =~= badges(results) + "<span>"@ + escaped(result.kind)
        + "</span>"@);
}

/// Escaping goes character by character: what HTML gives a meaning is replaced by its name, and
/// everything else stays.
pub proof fn law_escaping_goes_by_character(a: Seq<char>, b: Seq<char>, c: char)
    ensures
        escaped(a + b) == escaped(a) + escaped(b),
        escaped(seq!['&']) == "&amp;"@,
        escaped(seq!['<']) == "&lt;"@,
        escaped(seq!['>']) == "&gt;"@,
        escaped(seq!['"']) == "&quot;"@,
        escaped(seq!['\'']) == "&#39;"@,
        c != '&' && c != '<' && c != '>' && c != '"' && c != '\'' ==> escaped(seq![c]) == seq![c],
    decreases b.len(),
{
    if b.len() == 0 {
        assert(a + b =~= a);
        assert(escaped(a) + escaped(b) =~= escaped(a));
    } else {
        law_escaping_goes_by_character(a, b.drop_last(), c);
        assert((a + b).drop_last() =~= a + b.drop_last());
        assert(escaped(a) + (escaped(b.drop_last()) + escaped_char(b.last())) =~= (escaped(a)
            + escaped(b.drop_last())) + escaped_char(b.last()));
    }
    lemma_escaped_one('&');
    lemma_escaped_one('<');
    lemma_escaped_one('>');
    lemma_escaped_one('"');
    lemma_escaped_one('\'');
    lemma_escaped_one(c);
}

proof fn lemma_escaped_one(c: char)
    ensures
        escaped(seq![c]) == escaped_char(c),
{
    assert(seq![c].drop_last() =~= Seq::<char>::empty());
    assert(escaped(seq![c].drop_last()) + escaped_char(c) =~= escaped_char(c));
}

/// Two texts one behind the other begin with the first and end with the second.
pub proof fn lemma_joined()
    ensures
        forall|a: Seq<char>, b: Seq<char>| is_prefix(a, #[trigger] (a + b)),
        forall|a: Seq<char>, b: Seq<char>| is_suffix(b, #[trigger] (a + b)),
{
    assert forall|a: Seq<char>, b: Seq<char>| is_prefix(a, #[trigger] (a + b)) && is_suffix(
        b,
        a + b,
    ) by {
        assert((a + b).subrange(0, a.len() as int) =~= a);
        assert((a + b).subrange(a.len() as int, (a + b).len() as int) =~= b);
    }
}

} // verus!
