//! The way out: which upstream proxy a request goes through, if any.

use crate::config::{NetworkMode, ProxyConfig, ProxyConfigView};
use crate::response::{is_prefix, is_suffix};
use crate::text::{
    begins_with, chars_of, decimal, digits, is_digit, is_solid, law_number_round_trip,
    lemma_digits_value, lemma_rfind_char_before, lemma_solid, parse_number, parse_unsigned, pieces, rsplit_once,
    same_ignoring_case, same_text, same_text_ignoring_case, split_at_first, split_at_last,
    split_on, split_once, strip_leading, text_of, trim, trimmed, views, without_leading,
};
use vstd::prelude::*;

verus! {

/// The way out of the proxy.
#[derive(Debug)]
pub enum OutboundRoute {
    /// Straight to the target.
    Direct,
    /// Through an HTTP proxy at this address.
    Http(String),
    /// Through a SOCKS5 proxy at this address.
    Socks5(String),
}

/// `OutboundRoute` as a value.
#[verifier::ext_equal]
pub enum RouteView {
    Direct,
    Http(Seq<char>),
    Socks5(Seq<char>),
}

impl View for OutboundRoute {
    type V = RouteView;

    open spec fn view(&self) -> RouteView {
        match self {
            OutboundRoute::Direct => RouteView::Direct,
            OutboundRoute::Http(address) => RouteView::Http(address@),
            OutboundRoute::Socks5(address) => RouteView::Socks5(address@),
        }
    }
}

impl Clone for OutboundRoute {
    fn clone(&self) -> (r: Self)
        ensures
            r@ == self@,
    {
        match self {
            OutboundRoute::Direct => OutboundRoute::Direct,
            OutboundRoute::Http(address) => OutboundRoute::Http(address.clone()),
            OutboundRoute::Socks5(address) => OutboundRoute::Socks5(address.clone()),
        }
    }
}

/// Why there is no way out.
#[derive(Debug)]
pub enum RouteError {
    /// The upstream proxy is set to nothing.
    EmptyUpstream,
    /// The mode asks for an HTTP proxy and none is set.
    NoHttpUpstream,
    /// The mode asks for a SOCKS5 proxy and none is set.
    NoSocksUpstream,
    /// The way out leads back to this proxy.
    Loop { listen: String },
}

/// `RouteError` as a value.
#[verifier::ext_equal]
pub enum RouteErrorView {
    EmptyUpstream,
    NoHttpUpstream,
    NoSocksUpstream,
    Loop { listen: Seq<char> },
}

impl View for RouteError {
    type V = RouteErrorView;

    open spec fn view(&self) -> RouteErrorView {
        match self {
            RouteError::EmptyUpstream => RouteErrorView::EmptyUpstream,
            RouteError::NoHttpUpstream => RouteErrorView::NoHttpUpstream,
            RouteError::NoSocksUpstream => RouteErrorView::NoSocksUpstream,
            RouteError::Loop { listen } => RouteErrorView::Loop { listen: listen@ },
        }
    }
}

/// The text of an error of the way out.
pub open spec fn route_error_text(error: RouteErrorView) -> Seq<char> {
    match error {
        RouteErrorView::EmptyUpstream => "上游代理地址为空"@,
        RouteErrorView::NoHttpUpstream => "HTTP 上游代理尚未配置"@,
        RouteErrorView::NoSocksUpstream => "SOCKS5 上游代理尚未配置"@,
        RouteErrorView::Loop { listen } => "检测到代理回环："@ + listen,
    }
}

impl RouteError {
    /// The error in words.
    pub fn message(&self) -> (r: String)
        ensures
            r@ == route_error_text(self@),
    {
        match self {
            RouteError::EmptyUpstream => "上游代理地址为空".to_owned(),
            RouteError::NoHttpUpstream => "HTTP 上游代理尚未配置".to_owned(),
            RouteError::NoSocksUpstream => "SOCKS5 上游代理尚未配置".to_owned(),
            RouteError::Loop { listen } => {
                let mut out = "检测到代理回环：".to_owned();
                out.append(listen.as_str());
                out
            },
        }
    }
}

/// A route, or why there is none.
pub open spec fn route_result(r: Result<OutboundRoute, RouteError>) -> Result<
    RouteView,
    RouteErrorView,
> {
    match r {
        Ok(route) => Ok(route@),
        Err(error) => Err(error@),
    }
}

// ---------------------------------------------------------------------------
// The setting of the upstream proxy
// ---------------------------------------------------------------------------
/// The first entry that holds more than white space, without the white space around it.
pub open spec fn first_entry(entries: Seq<Seq<char>>) -> Option<Seq<char>>
    decreases entries.len(),
{
    if entries.len() == 0 {
        None
    } else if trim(entries[0]).len() > 0 {
        Some(trim(entries[0]))
    } else {
        first_entry(entries.drop_first())
    }
}

/// The kind that an entry names before an equals sign.
pub open spec fn entry_kind(entry: Seq<char>) -> Option<Seq<char>> {
    match split_at_first(entry, '=') {
        Some((kind, _)) => Some(trim(kind)),
        None => None,
    }
}

/// The address of an entry: what stands behind an equals sign, else all of it.
pub open spec fn entry_address(entry: Seq<char>) -> Seq<char> {
    match split_at_first(entry, '=') {
        Some((_, address)) => trim(address),
        None => entry,
    }
}

/// Whether an entry is one of a SOCKS5 proxy.
pub open spec fn socks_entry(entry: Seq<char>) -> bool {
    ||| entry_kind(entry) is Some && same_ignoring_case(entry_kind(entry)->0, "socks"@)
    ||| "socks5://"@.is_prefix_of(entry_address(entry))
    ||| "socks://"@.is_prefix_of(entry_address(entry))
}

/// The route that a setting of the upstream proxy stands for. Of entries between semicolons the
/// first that is not blank counts.
pub open spec fn upstream_route(value: Seq<char>, force_socks: bool) -> Result<
    RouteView,
    RouteErrorView,
> {
    match first_entry(pieces(value, ";"@)) {
        None => Err(RouteErrorView::EmptyUpstream),
        Some(entry) => if force_socks || socks_entry(entry) {
            Ok(
                RouteView::Socks5(
                    strip_leading(strip_leading(entry_address(entry), "socks5://"@), "socks://"@),
                ),
            )
        } else {
            Ok(RouteView::Http(strip_leading(entry_address(entry), "http://"@)))
        },
    }
}

/// The first entry that holds more than white space.
fn first_entry_of(entries: &[Vec<char>]) -> (r: Option<Vec<char>>)
    ensures
        match r {
            Some(entry) => first_entry(views(entries@)) == Some(entry@),
            None => first_entry(views(entries@)) is None,
        },
{
    let ghost all = views(entries@);
    let mut i: usize = 0;
    assert(all.skip(0) =~= all);
    while i < entries.len()
        invariant
            i <= entries.len(),
            all == views(entries@),
            first_entry(all) == first_entry(all.skip(i as int)),
        decreases entries.len() - i,
    {
        assert(all.skip(i as int).drop_first() =~= all.skip(i + 1));
        assert(all.skip(i as int)[0] == entries@[i as int]@);
        let entry = trimmed(entries[i].as_slice());
        if entry.len() > 0 {
            return Some(vstd::slice::slice_to_vec(entry));
        }
        i += 1;
    }
    None
}

/// The route that a setting of the upstream proxy stands for.
pub fn parse_upstream(value: &str, force_socks: bool) -> (r: Result<OutboundRoute, RouteError>)
    ensures
        route_result(r) == upstream_route(value@, force_socks),
{
    let text = chars_of(value);
    let separator = chars_of(";");
    proof {
        reveal_strlit(";");
    }
    let entries = split_on(text.as_slice(), separator.as_slice());
    let entry = match first_entry_of(entries.as_slice()) {
        Some(entry) => entry,
        None => {
            return Err(RouteError::EmptyUpstream);
        },
    };
    let mut named_socks = false;
    let mut address = text_of(entry.as_slice());
    if let Some((kind, rest)) = split_once(entry.as_slice(), '=') {
        named_socks = same_text_ignoring_case(text_of(trimmed(kind)).as_str(), "socks");
        address = text_of(trimmed(rest));
    }
    assert(address@ == entry_address(entry@));
    if force_socks || named_socks || begins_with(address.as_str(), "socks5://") || begins_with(
        address.as_str(),
        "socks://",
    ) {
        let whole = chars_of(address.as_str());
        let once = without_leading(whole.as_slice(), chars_of("socks5://").as_slice());
        let bare = text_of(without_leading(once, chars_of("socks://").as_slice()));
        Ok(OutboundRoute::Socks5(bare))
    } else {
        let whole = chars_of(address.as_str());
        let bare = text_of(without_leading(whole.as_slice(), chars_of("http://").as_slice()));
        Ok(OutboundRoute::Http(bare))
    }
}

// ---------------------------------------------------------------------------
// The route of a request
// ---------------------------------------------------------------------------
/// The upstream proxy that is set, where it is set to something.
pub open spec fn set_upstream(proxy: ProxyConfigView) -> Option<Seq<char>> {
    match proxy.upstream_proxy {
        Some(value) => if value.len() > 0 {
            Some(value)
        } else {
            None
        },
        None => None,
    }
}

/// The route that mode and upstream proxy stand for.
pub open spec fn configured_route(mode: NetworkMode, upstream: Option<Seq<char>>) -> Result<
    RouteView,
    RouteErrorView,
> {
    match mode {
        NetworkMode::Direct => Ok(RouteView::Direct),
        NetworkMode::Auto => match upstream {
            Some(value) => upstream_route(value, false),
            None => Ok(RouteView::Direct),
        },
        NetworkMode::Http => match upstream {
            Some(value) => upstream_route(value, false),
            None => Err(RouteErrorView::NoHttpUpstream),
        },
        NetworkMode::Socks5 => match upstream {
            Some(value) => upstream_route(value, true),
            None => Err(RouteErrorView::NoSocksUpstream),
        },
    }
}

/// Whether a route leads through the proxy at an address.
pub open spec fn leads_through(route: RouteView, address: Seq<char>) -> bool {
    match route {
        RouteView::Direct => false,
        RouteView::Http(proxy) => proxy == address,
        RouteView::Socks5(proxy) => proxy == address,
    }
}

/// The route of a request to `target`.
pub open spec fn request_route(proxy: ProxyConfigView, target: Seq<char>) -> Result<
    RouteView,
    RouteErrorView,
> {
    match configured_route(proxy.network_mode, set_upstream(proxy)) {
        Err(error) => Err(error),
        Ok(route) => if leads_through(route, proxy.listen) || target == proxy.listen {
            Err(RouteErrorView::Loop { listen: proxy.listen })
        } else {
            Ok(route)
        },
    }
}

/// Whether a route leads through the proxy at an address.
fn goes_through(route: &OutboundRoute, address: &str) -> (r: bool)
    ensures
        r == leads_through(route@, address@),
{
    match route {
        OutboundRoute::Direct => false,
        OutboundRoute::Http(proxy) => same_text(proxy.as_str(), address),
        OutboundRoute::Socks5(proxy) => same_text(proxy.as_str(), address),
    }
}

/// The text of an optional text.
pub open spec fn opt_str(text: Option<&str>) -> Option<Seq<char>> {
    match text {
        Some(t) => Some(t@),
        None => None,
    }
}

/// The route that mode and upstream proxy stand for.
pub fn route_for(mode: NetworkMode, upstream: Option<&str>) -> (r: Result<
    OutboundRoute,
    RouteError,
>)
    ensures
        route_result(r) == configured_route(mode, opt_str(upstream)),
{
    match mode {
        NetworkMode::Direct => Ok(OutboundRoute::Direct),
        NetworkMode::Auto => match upstream {
            Some(value) => parse_upstream(value, false),
            None => Ok(OutboundRoute::Direct),
        },
        NetworkMode::Http => match upstream {
            Some(value) => parse_upstream(value, false),
            None => Err(RouteError::NoHttpUpstream),
        },
        NetworkMode::Socks5 => match upstream {
            Some(value) => parse_upstream(value, true),
            None => Err(RouteError::NoSocksUpstream),
        },
    }
}

/// The route of a request to `target`.
pub fn outbound_route(proxy: &ProxyConfig, target: &str) -> (r: Result<OutboundRoute, RouteError>)
    ensures
        route_result(r) == request_route(proxy@, target@),
{
    proof {
        reveal_strlit("");
    }
    let upstream: Option<&str> = match &proxy.upstream_proxy {
        Some(value) => {
            assert(value@.len() == 0 ==> value@ =~= ""@);
            if same_text(value.as_str(), "") {
                None
            } else {
                Some(value.as_str())
            }
        },
        None => None,
    };
    assert(opt_str(upstream) == set_upstream(proxy@));
    match route_for(proxy.network_mode, upstream) {
        Err(error) => Err(error),
        Ok(route) => {
            if goes_through(&route, proxy.listen.as_str()) || same_text(
                target,
                proxy.listen.as_str(),
            ) {
                Err(RouteError::Loop { listen: proxy.listen.clone() })
            } else {
                Ok(route)
            }
        },
    }
}

/// No request is sent back to the proxy itself.
pub proof fn law_route_never_loops(proxy: ProxyConfigView, target: Seq<char>)
    requires
        request_route(proxy, target) is Ok,
    ensures
        !leads_through(request_route(proxy, target)->Ok_0, proxy.listen),
        target != proxy.listen,
{
}

/// An upstream proxy is never passed by: where the mode asks for one, or one is set in the automatic
/// mode, a request goes through it or not at all. Only without one does the automatic mode go
/// straight to the target.
pub proof fn law_upstream_is_never_bypassed(proxy: ProxyConfigView, target: Seq<char>)
    requires
        request_route(proxy, target) == Ok::<RouteView, RouteErrorView>(RouteView::Direct),
    ensures
        proxy.network_mode == NetworkMode::Direct || proxy.network_mode == NetworkMode::Auto
            && set_upstream(proxy) is None,
{
}

/// In the mode for SOCKS5 proxies every request goes through a SOCKS5 proxy.
pub proof fn law_socks_mode_uses_socks(proxy: ProxyConfigView, target: Seq<char>)
    requires
        proxy.network_mode == NetworkMode::Socks5,
        request_route(proxy, target) is Ok,
    ensures
        request_route(proxy, target)->Ok_0 is Socks5,
{
}

// ---------------------------------------------------------------------------
// The check of the upstream proxy
// ---------------------------------------------------------------------------
/// A check of the way out: the route to try and what to call it.
#[derive(Debug)]
pub struct UpstreamProbe {
    pub route: OutboundRoute,
    pub label: String,
}

/// The upstream proxy, where it is more than white space.
pub open spec fn not_blank(upstream: Option<Seq<char>>) -> Option<Seq<char>> {
    match upstream {
        Some(value) => if trim(value).len() > 0 {
            Some(value)
        } else {
            None
        },
        None => None,
    }
}

/// What a way out is called.
pub open spec fn route_label(mode: NetworkMode, upstream: Option<Seq<char>>) -> Seq<char> {
    match mode {
        NetworkMode::Direct => "直接系统路由"@,
        NetworkMode::Auto => match upstream {
            Some(value) => "自动上游 "@ + value,
            None => "自动路由（TUN / VPN / 系统网络）"@,
        },
        NetworkMode::Http => "HTTP 上游 "@ + upstream->0,
        NetworkMode::Socks5 => "SOCKS5 上游 "@ + upstream->0,
    }
}

/// The check of the way out: its route and its name, or why there is none.
pub open spec fn upstream_probe(
    mode: NetworkMode,
    upstream: Option<Seq<char>>,
    listen: Seq<char>,
) -> Result<(RouteView, Seq<char>), RouteErrorView> {
    match configured_route(mode, not_blank(upstream)) {
        Err(error) => Err(error),
        Ok(route) => if leads_through(route, listen) {
            Err(RouteErrorView::Loop { listen })
        } else {
            Ok((route, route_label(mode, not_blank(upstream))))
        },
    }
}

/// The check of the way out: which route to try, before anything is connected.
pub fn probe_upstream(mode: NetworkMode, upstream: Option<&str>, listen: &str) -> (r: Result<
    UpstreamProbe,
    RouteError,
>)
    ensures
        match r {
            Ok(probe) => upstream_probe(mode, opt_str(upstream), listen@) == Ok::<
                (RouteView, Seq<char>),
                RouteErrorView,
            >((probe.route@, probe.label@)),
            Err(error) => upstream_probe(mode, opt_str(upstream), listen@) == Err::<
                (RouteView, Seq<char>),
                RouteErrorView,
            >(error@),
        },
{
    let set: Option<&str> = match upstream {
        Some(value) => {
            if trimmed(chars_of(value).as_slice()).len() > 0 {
                Some(value)
            } else {
                None
            }
        },
        None => None,
    };
    assert(opt_str(set) == not_blank(opt_str(upstream)));
    let route = match route_for(mode, set) {
        Ok(route) => route,
        Err(error) => {
            return Err(error);
        },
    };
    if goes_through(&route, listen) {
        return Err(RouteError::Loop { listen: listen.to_owned() });
    }
    let label = match (mode, set) {
        (NetworkMode::Direct, _) => "直接系统路由".to_owned(),
        (NetworkMode::Auto, None) => "自动路由（TUN / VPN / 系统网络）".to_owned(),
        (NetworkMode::Auto, Some(value)) => {
            let mut out = "自动上游 ".to_owned();
            out.append(value);
            out
        },
        (NetworkMode::Http, Some(value)) => {
            let mut out = "HTTP 上游 ".to_owned();
            out.append(value);
            out
        },
        (NetworkMode::Socks5, Some(value)) => {
            let mut out = "SOCKS5 上游 ".to_owned();
            out.append(value);
            out
        },
        (_, None) => String::new(),
    };
    Ok(UpstreamProbe { route, label })
}

/// What the check says where the route could be used.
pub open spec fn probe_passed(label: Seq<char>) -> Seq<char> {
    label + " 已通过端到端 HTTP 检查"@
}

/// What the check says where it failed: which step, and why.
pub open spec fn probe_failed(route: RouteView, detail: Seq<char>) -> Seq<char> {
    match route {
        RouteView::Direct => "系统路由无法连接 GitHub HTTPS: "@ + detail,
        RouteView::Http(_) => "上游代理无法建立 GitHub HTTPS 隧道: "@ + detail,
        RouteView::Socks5(_) => "SOCKS5 上游无法连接 GitHub HTTPS: "@ + detail,
    }
}

/// What the check says, given how trying the route went.
pub fn probe_report(probe: UpstreamProbe, outcome: Result<(), String>) -> (r: Result<String, String>)
    ensures
        match (r, outcome) {
            (Ok(text), Ok(())) => text@ == probe_passed(probe.label@),
            (Err(text), Err(detail)) => text@ == probe_failed(probe.route@, detail@),
            _ => false,
        },
{
    match outcome {
        Ok(()) => {
            let mut out = probe.label;
            out.append(" 已通过端到端 HTTP 检查");
            Ok(out)
        },
        Err(detail) => {
            let mut out = match &probe.route {
                OutboundRoute::Direct => "系统路由无法连接 GitHub HTTPS: ".to_owned(),
                OutboundRoute::Http(_) => {
                    "上游代理无法建立 GitHub HTTPS 隧道: ".to_owned()
                },
                OutboundRoute::Socks5(_) => "SOCKS5 上游无法连接 GitHub HTTPS: ".to_owned(),
            };
            out.append(detail.as_str());
            Err(out)
        },
    }
}

/// The check of the way out tries the route that requests take: for settings without blanks around
/// nothing, it fails exactly where a request to another address fails, and for the same reason.
pub proof fn law_probe_tries_the_route_of_requests(proxy: ProxyConfigView, target: Seq<char>)
    requires
        set_upstream(proxy) == not_blank(proxy.upstream_proxy),
        target != proxy.listen,
    ensures
        match upstream_probe(proxy.network_mode, proxy.upstream_proxy, proxy.listen) {
            Ok((route, _)) => request_route(proxy, target) == Ok::<RouteView, RouteErrorView>(
                route,
            ),
            Err(error) => request_route(proxy, target) == Err::<RouteView, RouteErrorView>(error),
        },
{
}

// ---------------------------------------------------------------------------
// Addresses
// ---------------------------------------------------------------------------
/// The port that an authority names behind its last colon.
pub open spec fn named_port(authority: Seq<char>) -> Option<nat> {
    match split_at_last(authority, ':') {
        Some((_, port)) => parse_unsigned(port, 65535),
        None => None,
    }
}

/// Host and port of an authority; without a port, all of it is the host.
pub open spec fn host_and_port(authority: Seq<char>, default_port: u16) -> (Seq<char>, nat) {
    match (split_at_last(authority, ':'), named_port(authority)) {
        (Some((host, _)), Some(port)) => (host, port),
        _ => (authority, default_port as nat),
    }
}

/// The address to connect to: the authority, with a port if it names none.
pub open spec fn dial_address(authority: Seq<char>, default_port: u16) -> Seq<char> {
    match named_port(authority) {
        Some(_) => authority,
        None => authority + ":"@ + digits(default_port as nat),
    }
}

/// Host and port of an authority.
pub fn split_authority(authority: &str, default_port: u16) -> (r: (String, u16))
    ensures
        (r.0@, r.1 as nat) == host_and_port(authority@, default_port),
{
    let text = chars_of(authority);
    if let Some((host, port)) = rsplit_once(text.as_slice(), ':') {
        if let Some(number) = parse_number(port, 65535) {
            return (text_of(host), number as u16);
        }
    }
    (authority.to_owned(), default_port)
}

/// The address to connect to.
pub fn connect_address(authority: &str, default_port: u16) -> (r: String)
    ensures
        r@ == dial_address(authority@, default_port),
{
    let text = chars_of(authority);
    if let Some((_, port)) = rsplit_once(text.as_slice(), ':') {
        if parse_number(port, 65535).is_some() {
            return authority.to_owned();
        }
    }
    let mut out = authority.to_owned();
    out.append(":");
    out.append(text_of(decimal(default_port as u64).as_slice()).as_str());
    out
}

/// The address to connect to always names a port, and host and port are those of the authority.
pub proof fn law_dial_address_names_the_port(authority: Seq<char>, default_port: u16, other: u16)
    ensures
        named_port(dial_address(authority, default_port)) == Some(
            host_and_port(authority, default_port).1,
        ),
        host_and_port(dial_address(authority, default_port), other) == host_and_port(
            authority,
            default_port,
        ),
{
    if named_port(authority) is None {
        let port = digits(default_port as nat);
        reveal_strlit(":");
        lemma_digits_value(default_port as nat);
        law_number_round_trip(default_port as nat, 65535);
        assert forall|i: int| 0 <= i < port.len() implies #[trigger] port[i] != ':' by {
            assert(is_digit(port[i]));
        }
        let front = authority + ":"@;
        lemma_rfind_char_before(front, port, ':');
        assert(front.last() == ':');
        assert((front + port).take(authority.len() as int) =~= authority);
        assert((front + port).skip(authority.len() as int + 1) =~= port);
    }
}

/// Whether a text is the plain address of a proxy: no list, no kind, no scheme, no white space.
pub open spec fn plain_address(value: Seq<char>) -> bool {
    &&& value.len() > 0
    &&& is_solid(value)
    &&& !value.contains(';')
    &&& !value.contains('=')
    &&& !"socks5://"@.is_prefix_of(value)
    &&& !"socks://"@.is_prefix_of(value)
    &&& !"http://"@.is_prefix_of(value)
}

proof fn lemma_one_entry(value: Seq<char>)
    requires
        !value.contains(';'),
    ensures
        pieces(value, ";"@) == seq![value],
{
    reveal_strlit(";");
    assert forall|j: int| !crate::text::occurs_at(value, ";"@, j) by {
        if crate::text::occurs_at(value, ";"@, j) {
            assert(value.subrange(j, j + 1)[0] == ';');
            assert(value[j] == ';');
        }
    }
    crate::text::lemma_find_seq_none(value, ";"@);
}

proof fn lemma_single_route(value: Seq<char>)
    requires
        value.len() > 0,
        is_solid(value),
        !value.contains(';'),
    ensures
        first_entry(pieces(value, ";"@)) == Some(value),
{
    lemma_one_entry(value);
    lemma_solid(value);
    assert(seq![value][0] == value);
}

/// A plain address is that of an HTTP proxy, or, where SOCKS5 is asked for, of a SOCKS5 proxy.
pub proof fn law_plain_address_is_used_as_it_is(value: Seq<char>)
    requires
        plain_address(value),
    ensures
        upstream_route(value, false) == Ok::<RouteView, RouteErrorView>(RouteView::Http(value)),
        upstream_route(value, true) == Ok::<RouteView, RouteErrorView>(RouteView::Socks5(value)),
{
    lemma_single_route(value);
    crate::text::law_splitting_parts_a_text(value, value, '=');
    lemma_no_scheme(value);
}

proof fn lemma_no_scheme(value: Seq<char>)
    requires
        !"socks5://"@.is_prefix_of(value),
        !"socks://"@.is_prefix_of(value),
        !"http://"@.is_prefix_of(value),
    ensures
        strip_leading(value, "socks5://"@) == value,
        strip_leading(value, "socks://"@) == value,
        strip_leading(value, "http://"@) == value,
{
}

/// A scheme tells the kind of a proxy and is no part of its address.
pub proof fn law_scheme_tells_the_kind(value: Seq<char>, force_socks: bool)
    requires
        plain_address(value),
    ensures
        upstream_route("socks5://"@ + value, force_socks) == Ok::<RouteView, RouteErrorView>(
            RouteView::Socks5(value),
        ),
        upstream_route("socks://"@ + value, force_socks) == Ok::<RouteView, RouteErrorView>(
            RouteView::Socks5(value),
        ),
        upstream_route("http://"@ + value, false) == Ok::<RouteView, RouteErrorView>(
            RouteView::Http(value),
        ),
{
    reveal_strlit("socks5://");
    reveal_strlit("socks://");
    reveal_strlit("http://");
    lemma_no_scheme(value);
    lemma_schemed("socks5://"@, value);
    lemma_schemed("socks://"@, value);
    lemma_schemed("http://"@, value);
    crate::text::law_leading_part_is_taken_off(value, "socks5://"@);
    crate::text::law_leading_part_is_taken_off(value, "socks://"@);
    crate::text::law_leading_part_is_taken_off(value, "http://"@);
    let s = "socks://"@ + value;
    assert(s[5] == ':' && "socks5://"@[5] == '5');
    assert(strip_leading(s, "socks5://"@) == s);
    let h = "http://"@ + value;
    assert(h[0] == 'h' && "socks5://"@[0] == 's' && "socks://"@[0] == 's');
}

proof fn lemma_schemed(scheme: Seq<char>, value: Seq<char>)
    requires
        plain_address(value),
        scheme.len() > 0,
        is_solid(scheme),
        !scheme.contains(';'),
        !scheme.contains('='),
    ensures
        first_entry(pieces(scheme + value, ";"@)) == Some(scheme + value),
        entry_kind(scheme + value) is None,
        entry_address(scheme + value) == scheme + value,
        scheme.is_prefix_of(scheme + value),
{
    let s = scheme + value;
    assert forall|i: int| 0 <= i < s.len() implies !crate::text::is_white(#[trigger] s[i]) by {
        if i < scheme.len() {
            assert(s[i] == scheme[i]);
        } else {
            assert(s[i] == value[i - scheme.len()]);
        }
    }
    assert(!s.contains(';') && !s.contains('=')) by {
        assert forall|i: int| 0 <= i < s.len() implies s[i] != ';' && s[i] != '=' by {
            if i < scheme.len() {
                assert(scheme.contains(scheme[i]));
            } else {
                assert(value.contains(value[i - scheme.len()]));
            }
        }
    }
    lemma_single_route(s);
    crate::text::law_splitting_parts_a_text(s, s, '=');
    assert(s.subrange(0, scheme.len() as int) =~= scheme);
}

/// Of a list of proxies the first that is set is used.
pub proof fn law_first_proxy_of_a_list_is_used(
    value: Seq<char>,
    rest: Seq<char>,
    force_socks: bool,
)
    requires
        !value.contains(';'),
    ensures
        trim(value).len() > 0 ==> upstream_route(value + ";"@ + rest, force_socks)
            == upstream_route(value, force_socks),
        trim(value).len() == 0 ==> upstream_route(value + ";"@ + rest, force_socks)
            == upstream_route(rest, force_socks),
        trim(value).len() == 0 ==> upstream_route(value, force_socks) == Err::<
            RouteView,
            RouteErrorView,
        >(RouteErrorView::EmptyUpstream),
{
    reveal_strlit(";");
    let s = value + ";"@ + rest;
    let n = value.len() as int;
    assert(s.subrange(n, n + 1) =~= ";"@);
    assert forall|j: int| 0 <= j < n implies !crate::text::occurs_at(s, ";"@, j) by {
        if crate::text::occurs_at(s, ";"@, j) {
            assert(s.subrange(j, j + 1)[0] == ';');
            assert(value.contains(value[j]));
        }
    }
    crate::text::lemma_find_seq(s, ";"@, n);
    assert(s.take(n) =~= value);
    assert(s.skip(n + 1) =~= rest);
    lemma_one_entry(value);
    let all = pieces(s, ";"@);
    assert(all == seq![value] + pieces(rest, ";"@));
    assert(all[0] == value);
    assert(all.drop_first() =~= pieces(rest, ";"@));
    assert(seq![value][0] == value);
    assert(seq![value].drop_first() =~= Seq::<Seq<char>>::empty());
    assert(first_entry(Seq::<Seq<char>>::empty()) is None);
    assert(trim(value).len() == 0 ==> first_entry(seq![value]) == first_entry(
        seq![value].drop_first(),
    ));
}

/// An entry of a list may tell its kind: SOCKS where it says so, in whatever case, and HTTP otherwise.
pub proof fn law_kind_of_an_entry_is_used(kind: Seq<char>, value: Seq<char>)
    requires
        plain_address(value),
        is_solid(kind),
        !kind.contains(';'),
        !kind.contains('='),
    ensures
        upstream_route(kind + "="@ + value, false) == Ok::<RouteView, RouteErrorView>(
            if same_ignoring_case(kind, "socks"@) {
                RouteView::Socks5(value)
            } else {
                RouteView::Http(value)
            },
        ),
        upstream_route(kind + "="@ + value, true) == Ok::<RouteView, RouteErrorView>(
            RouteView::Socks5(value),
        ),
{
    reveal_strlit("=");
    let s = kind + "="@ + value;
    assert(s =~= kind + seq!['='] + value);
    assert forall|i: int| 0 <= i < s.len() implies !crate::text::is_white(#[trigger] s[i]) by {
        if i < kind.len() {
            assert(s[i] == kind[i]);
        } else if i > kind.len() {
            assert(s[i] == value[i - kind.len() - 1]);
        }
    }
    assert(!s.contains(';')) by {
        assert forall|i: int| 0 <= i < s.len() implies s[i] != ';' by {
            if i < kind.len() {
                assert(kind.contains(kind[i]));
            } else if i > kind.len() {
                assert(value.contains(value[i - kind.len() - 1]));
            }
        }
    }
    lemma_single_route(s);
    crate::text::law_splitting_parts_a_text(kind, value, '=');
    lemma_solid(kind);
    lemma_solid(value);
    lemma_no_scheme(value);
}

/// The route of a request by the mode: straight out in the direct mode, and in the automatic one
/// without an upstream; otherwise through the upstream that is set, as SOCKS5 in that mode; without
/// one that is needed, and where it would lead back here, not at all.
pub proof fn law_route_follows_the_mode(
    proxy: &ProxyConfig,
    target: &str,
    r: Result<OutboundRoute, RouteError>,
)
    requires
        call_ensures(outbound_route, (proxy, target), r),
    ensures
        ({
            let set = proxy.upstream_proxy is Some && proxy.upstream_proxy->0@.len() > 0;
            let straight = proxy.network_mode == NetworkMode::Direct || proxy.network_mode
                == NetworkMode::Auto && !set;
            let socks = proxy.network_mode == NetworkMode::Socks5;
            &&& straight && target@ != proxy.listen@ ==> (r matches Ok(OutboundRoute::Direct))
            &&& straight && target@ == proxy.listen@ ==> (r matches Err(
                RouteError::Loop { listen },
            ) && listen@ == proxy.listen@)
            &&& !set && proxy.network_mode == NetworkMode::Http ==> (r matches Err(
                RouteError::NoHttpUpstream,
            ))
            &&& !set && socks ==> (r matches Err(RouteError::NoSocksUpstream))
            &&& set && !straight ==> match upstream_route(proxy.upstream_proxy->0@, socks) {
                Err(error) => r matches Err(e) && e@ == error,
                Ok(way) => {
                    let back = target@ == proxy.listen@ || way == RouteView::Http(proxy.listen@)
                        || way == RouteView::Socks5(proxy.listen@);
                    &&& !back ==> (r matches Ok(route) && route@ == way)
                    &&& back ==> (r matches Err(RouteError::Loop { listen }) && listen@
                        == proxy.listen@)
                },
            }
        }),
{
    let result = route_result(r);
    match r {
        Ok(route) => {
            assert(result == Ok::<RouteView, RouteErrorView>(route@));
        },
        Err(error) => {
            assert(result == Err::<RouteView, RouteErrorView>(error@));
        },
    }
}

/// Host and port of an authority: a number behind the last colon is the port, and without one the
/// port is the usual one and all of it the host.
pub proof fn law_authority_is_host_and_port(host: Seq<char>, port: u16, default_port: u16)
    ensures
        host_and_port(host + ":"@ + digits(port as nat), default_port) == (host, port as nat),
        dial_address(host + ":"@ + digits(port as nat), default_port) == host + ":"@ + digits(
            port as nat,
        ),
        !host.contains(':') ==> host_and_port(host, default_port) == (host, default_port as nat),
        !host.contains(':') ==> dial_address(host, default_port) == host + ":"@ + digits(
            default_port as nat,
        ),
{
    reveal_strlit(":");
    let text = digits(port as nat);
    lemma_digits_value(port as nat);
    law_number_round_trip(port as nat, 65535);
    assert(!text.contains(':')) by {
        assert forall|i: int| 0 <= i < text.len() implies text[i] != ':' by {
            assert(is_digit(text[i]));
        }
    }
    assert(host + ":"@ + text =~= host + seq![':'] + text);
    crate::text::law_splitting_parts_a_text(host, text, ':');
}

/// A check of the upstream says by which way it was made, and passes on what went wrong.
pub proof fn law_probe_report_tells_the_way(
    probe: UpstreamProbe,
    outcome: Result<(), String>,
    r: Result<String, String>,
)
    requires
        call_ensures(probe_report, (probe, outcome), r),
    ensures
        r is Ok <==> outcome is Ok,
        r matches Ok(text) ==> is_prefix(probe.label@, text@),
        r matches Err(text) ==> is_suffix(outcome->Err_0@, text@),
{
    match r {
        Ok(text) => {
            let s = text@;
            let label = probe.label@;
            assert(s.subrange(0, label.len() as int) =~= label);
        },
        Err(text) => {
            let s = text@;
            let d = outcome->Err_0@;
            assert(s.subrange(s.len() - d.len(), s.len() as int) =~= d);
        },
    }
}

/// The check of the upstream tries the upstream that is set, blanks not counted, and never itself.
pub proof fn law_probe_follows_the_mode(
    mode: NetworkMode,
    upstream: Option<&str>,
    listen: &str,
    r: Result<UpstreamProbe, RouteError>,
)
    requires
        call_ensures(probe_upstream, (mode, upstream, listen), r),
    ensures
        ({
            let set = upstream is Some && trim(upstream->0@).len() > 0;
            let straight = mode == NetworkMode::Direct || mode == NetworkMode::Auto && !set;
            let socks = mode == NetworkMode::Socks5;
            &&& straight ==> (r matches Ok(probe) && probe.route@ == RouteView::Direct)
            &&& !set && mode == NetworkMode::Http ==> (r matches Err(RouteError::NoHttpUpstream))
            &&& !set && socks ==> (r matches Err(RouteError::NoSocksUpstream))
            &&& set && !straight ==> match upstream_route(upstream->0@, socks) {
                Err(error) => r matches Err(e) && e@ == error,
                Ok(way) => {
                    let back = way == RouteView::Http(listen@) || way == RouteView::Socks5(
                        listen@,
                    );
                    &&& !back ==> (r matches Ok(probe) && probe.route@ == way && is_suffix(
                        upstream->0@,
                        probe.label@,
                    ))
                    &&& back ==> (r matches Err(RouteError::Loop { listen: told }) && told@
                        == listen@)
                },
            }
        }),
{
    if let Ok(probe) = r {
        if upstream is Some {
            let s = probe.label@;
            let d = upstream->0@;
            let set = trim(d).len() > 0;
            if set && mode != NetworkMode::Direct {
                assert(s.subrange(s.len() - d.len(), s.len() as int) =~= d);
            }
        }
    }
}

/// What is told of a loop ends with the address that it leads to.
pub proof fn law_loop_is_told(error: RouteError, r: String)
    requires
        call_ensures(RouteError::message, (&error,), r),
    ensures
        error matches RouteError::Loop { listen } ==> is_suffix(listen@, r@),
{
    crate::response::lemma_joined();
}

/// A way that was tried is named by its kind and its address; what failed ends with why.
pub proof fn law_way_is_named(
    mode: NetworkMode,
    upstream: Option<Seq<char>>,
    label: Seq<char>,
    route: RouteView,
    detail: Seq<char>,
)
    ensures
        upstream is Some && mode != NetworkMode::Direct
            ==> is_suffix(upstream->0, route_label(mode, upstream)),
        is_prefix(label, probe_passed(label)),
        is_suffix(detail, probe_failed(route, detail)),
{
    crate::response::lemma_joined();
}

} // verus!
