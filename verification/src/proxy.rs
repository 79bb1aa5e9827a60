//! The reverse proxy: from an inbound request to the upstream request, and
//! from the upstream's answer to the reply.

use crate::config::{Proxy, TimeSpan};
use crate::headers::{
    ascii_lower, first_value, header_entries, header_first, header_remove, holds_name,
    is_visible_text, pair_views, parse_header_name, room_for, set_headers, set_outcomes,
    text_of_bytes, uri_ok, uri_parses, valid_header_name, visible_text, with_headers,
};
use crate::text::{
    chars_of, opt_str, opt_text, push_all, push_text, replace_all, replace_chars, split_chars,
    split_on, string_of, trim_blank_chars, trim_blanks, trim_end, trim_end_chars,
    lemma_split_nonempty,
};
use http::header::{HeaderMap, HeaderValue};
use vstd::prelude::*;

verus! {

/// Whether a header name, in lower case, is one of those that belong to a
/// single connection and must not cross a proxy.
pub open spec fn is_hop_by_hop(name: Seq<char>) -> bool {
    name == "connection"@ || name == "proxy-connection"@ || name == "keep-alive"@ || name
        == "transfer-encoding"@ || name == "upgrade"@ || name == "te"@ || name == "trailers"@
}

/// The names for which `is_hop_by_hop` holds.
pub open spec fn hop_by_hop_names() -> Set<Seq<char>> {
    Set::new(|name: Seq<char>| is_hop_by_hop(name))
}

/// The entries without the hop-by-hop headers.
pub open spec fn stripped(entries: Map<Seq<char>, Seq<Seq<u8>>>) -> Map<Seq<char>, Seq<Seq<u8>>> {
    entries.remove_keys(hop_by_hop_names())
}

proof fn lemma_hop_names_are_plain()
    ensures
        valid_header_name("connection"@) && ascii_lower("connection"@) == "connection"@,
        valid_header_name("proxy-connection"@) && ascii_lower("proxy-connection"@)
            == "proxy-connection"@,
        valid_header_name("keep-alive"@) && ascii_lower("keep-alive"@) == "keep-alive"@,
        valid_header_name("transfer-encoding"@) && ascii_lower("transfer-encoding"@)
            == "transfer-encoding"@,
        valid_header_name("upgrade"@) && ascii_lower("upgrade"@) == "upgrade"@,
        valid_header_name("te"@) && ascii_lower("te"@) == "te"@,
        valid_header_name("trailers"@) && ascii_lower("trailers"@) == "trailers"@,
{
    reveal_strlit("connection");
    reveal_strlit("proxy-connection");
    reveal_strlit("keep-alive");
    reveal_strlit("transfer-encoding");
    reveal_strlit("upgrade");
    reveal_strlit("te");
    reveal_strlit("trailers");
    assert(ascii_lower("connection"@) =~= "connection"@);
    assert(ascii_lower("proxy-connection"@) =~= "proxy-connection"@);
    assert(ascii_lower("keep-alive"@) =~= "keep-alive"@);
    assert(ascii_lower("transfer-encoding"@) =~= "transfer-encoding"@);
    assert(ascii_lower("upgrade"@) =~= "upgrade"@);
    assert(ascii_lower("te"@) =~= "te"@);
    assert(ascii_lower("trailers"@) =~= "trailers"@);
}

/// Removes the hop-by-hop headers from a header map and leaves every other
/// header as it was.
pub fn strip_hop_by_hop(headers: &mut HeaderMap<HeaderValue>)
    ensures
        header_entries(*final(headers)) == stripped(header_entries(*old(headers))),
        forall|name: Seq<char>|
            is_hop_by_hop(ascii_lower(name)) ==> !holds_name(
                header_entries(*final(headers)),
                name,
            ),
{
    proof {
        lemma_hop_names_are_plain();
    }
    header_remove(headers, "connection");
    header_remove(headers, "proxy-connection");
    header_remove(headers, "keep-alive");
    header_remove(headers, "transfer-encoding");
    header_remove(headers, "upgrade");
    header_remove(headers, "te");
    header_remove(headers, "trailers");
    assert(header_entries(*headers) =~= stripped(header_entries(*old(headers))));
}

/// The first of the addresses that a forwarding header lists, without the
/// blanks around it.
pub open spec fn first_address(value: Seq<char>) -> Seq<char> {
    trim_blanks(split_on(value, ',').first())
}

/// What is known of the client's address: the first address of the
/// `x-forwarded-for` header where the request has one, and nothing where that
/// header is not readable text; without the header, the peer's address.
pub open spec fn client_ip_of(
    entries: Map<Seq<char>, Seq<Seq<u8>>>,
    peer: Option<Seq<char>>,
) -> Option<Seq<char>> {
    match first_value(entries, "x-forwarded-for"@) {
        Some(bytes) => if is_visible_text(bytes) {
            Some(first_address(text_of_bytes(bytes)))
        } else {
            None
        },
        None => peer,
    }
}

/// The address put in place of `{client_ip}`: the client's address as far as
/// the request tells it, else `unknown`.
pub open spec fn template_ip(entries: Map<Seq<char>, Seq<Seq<u8>>>, peer: Option<Seq<char>>) -> Seq<
    char,
> {
    match client_ip_of(entries, peer) {
        Some(ip) => ip,
        None => "unknown"@,
    }
}

/// The first address listed in `value`.
pub fn first_listed(value: &str) -> (addr: String)
    ensures
        addr@ == first_address(value@),
{
    let chars = chars_of(value);
    let parts = split_chars(chars.as_slice(), ',');
    proof {
        lemma_split_nonempty(value@, ',');
    }
    let trimmed = trim_blank_chars(parts[0].as_slice());
    string_of(trimmed.as_slice())
}

/// The client's address as far as the request tells it: the first address of
/// its forwarding header, else the peer's address.
pub fn client_ip(headers: &HeaderMap<HeaderValue>, peer: Option<&str>) -> (ip: Option<String>)
    ensures
        opt_text(ip) == client_ip_of(header_entries(*headers), opt_str(peer)),
{
    match header_first(headers, "x-forwarded-for") {
        Some(bytes) => match visible_text(bytes.as_slice()) {
            Some(text) => Some(first_listed(text.as_str())),
            None => None,
        },
        None => match peer {
            Some(p) => Some(p.to_owned()),
            None => None,
        },
    }
}

/// The address to put in place of `{client_ip}` for a request.
pub fn template_client_ip(headers: &HeaderMap<HeaderValue>, peer: Option<&str>) -> (ip: String)
    ensures
        ip@ == template_ip(header_entries(*headers), opt_str(peer)),
{
    match client_ip(headers, peer) {
        Some(ip) => ip,
        None => "unknown".to_owned(),
    }
}

/// A value template with the client's address in place of each `{client_ip}`.
pub open spec fn with_client_ip(template: Seq<char>, ip: Seq<char>) -> Seq<char> {
    replace_all(template, "{client_ip}"@, ip)
}

/// Fills the client's address into a value template.
pub fn substitute_client_ip(template: &str, ip: &str) -> (value: String)
    ensures
        value@ == with_client_ip(template@, ip@),
{
    let t = chars_of(template);
    let pat = chars_of("{client_ip}");
    let to = chars_of(ip);
    let out = replace_chars(t.as_slice(), pat.as_slice(), to.as_slice());
    string_of(out.as_slice())
}

/// The headers of `list` with the client's address filled into each value.
pub open spec fn templated(list: Seq<(Seq<char>, Seq<char>)>, ip: Seq<char>) -> Seq<
    (Seq<char>, Seq<char>),
> {
    Seq::new(list.len(), |i: int| (list[i].0, with_client_ip(list[i].1, ip)))
}

/// The headers of `list` whose name is a valid header name, each under the
/// lower-case spelling of its name, in the order given.
pub open spec fn parsed_headers(list: Seq<(Seq<char>, Seq<char>)>) -> Seq<(Seq<char>, Seq<char>)>
    decreases list.len(),
{
    if list.len() == 0 {
        list
    } else {
        let head = parsed_headers(list.drop_last());
        if valid_header_name(list.last().0) {
            head.push((ascii_lower(list.last().0), list.last().1))
        } else {
            head
        }
    }
}

/// The timeout used where a route sets none.
pub open spec fn default_timeout() -> TimeSpan {
    TimeSpan { secs: 5, nanos: 0 }
}

/// The timeout in force for a configured timeout.
pub open spec fn effective_timeout(configured: TimeSpan) -> TimeSpan {
    if configured.is_zero() {
        default_timeout()
    } else {
        configured
    }
}

/// The URI of the upstream request: the target, a `/`, the part of the path
/// that the route matched, and the query where the request has one.
pub open spec fn upstream_text(target: Seq<char>, tail: Seq<char>, query: Option<Seq<char>>) -> Seq<
    char,
> {
    let path = target.push('/') + tail;
    match query {
        Some(q) => path.push('?') + q,
        None => path,
    }
}

/// What a proxy route needs for each request: where to forward to, how long to
/// wait, and which headers to set.
#[derive(Debug, Clone)]
pub struct ProxyState {
    /// The upstream's base URL, without a `/` at its end.
    pub target: String,
    /// How long to wait for the upstream; never zero.
    pub timeout: TimeSpan,
    /// The headers to set, each as a lower-case name and a value template.
    pub add_headers: Vec<(String, String)>,
}

impl ProxyState {
    /// The target has no `/` at its end, the timeout is not zero, and every
    /// header name is valid and in lower case.
    pub open spec fn wf(&self) -> bool {
        &&& self.target@.len() > 0 ==> self.target@.last() != '/'
        &&& !self.timeout.is_zero()
        &&& forall|i: int|
            0 <= i < self.add_headers@.len() ==> valid_header_name(
                #[trigger] self.add_headers@[i].0@,
            )
    }

    /// Builds the state of a proxy route from its configuration: the URL loses
    /// the `/` at its end, a timeout of zero becomes five seconds, and headers
    /// whose name is not a valid header name are left out.
    pub fn new(p: Proxy) -> (s: Self)
        ensures
            s.target@ == trim_end(p.url@, '/'),
            s.timeout == effective_timeout(p.timeout),
            pair_views(s.add_headers@) == parsed_headers(pair_views(p.add_headers@)),
            s.wf(),
    {
        let url = chars_of(p.url.as_str());
        let target = trim_end_chars(url.as_slice(), '/');
        proof {
            lemma_trim_end_stops(p.url@, '/');
        }
        let timeout = if p.timeout.is_zero() {
            TimeSpan::from_secs(5)
        } else {
            p.timeout
        };
        let mut add_headers: Vec<(String, String)> = Vec::new();
        let mut i: usize = 0;
        assert(pair_views(p.add_headers@).take(0) =~= Seq::<(Seq<char>, Seq<char>)>::empty());
        assert(pair_views(add_headers@) =~= Seq::<(Seq<char>, Seq<char>)>::empty());
        while i < p.add_headers.len()
            invariant
                i <= p.add_headers.len(),
                pair_views(add_headers@) == parsed_headers(
                    pair_views(p.add_headers@).take(i as int),
                ),
                forall|k: int|
                    0 <= k < add_headers@.len() ==> valid_header_name(
                        #[trigger] add_headers@[k].0@,
                    ),
            decreases p.add_headers.len() - i,
        {
            let ghost before = pair_views(add_headers@);
            proof {
                assert(pair_views(p.add_headers@).take(i + 1).drop_last() =~= pair_views(
                    p.add_headers@,
                ).take(i as int));
                assert(pair_views(p.add_headers@).take(i + 1).last() == (
                    p.add_headers@[i as int].0@,
                    p.add_headers@[i as int].1@,
                ));
            }
            match parse_header_name(p.add_headers[i].0.as_str()) {
                Some(name) => {
                    proof {
                        lemma_lower_name_is_valid(p.add_headers@[i as int].0@);
                    }
                    let value = p.add_headers[i].1.clone();
                    add_headers.push((name, value));
                    assert(pair_views(add_headers@) =~= before.push(
                        (ascii_lower(p.add_headers@[i as int].0@), p.add_headers@[i as int].1@),
                    ));
                },
                None => {},
            }
            i += 1;
        }
        assert(pair_views(p.add_headers@).take(p.add_headers.len() as int) =~= pair_views(
            p.add_headers@,
        ));
        ProxyState { target: string_of(target.as_slice()), timeout, add_headers }
    }
}

/// What is left after trimming does not end in the trimmed character.
pub proof fn lemma_trim_end_stops(s: Seq<char>, c: char)
    ensures
        trim_end(s, c).len() > 0 ==> trim_end(s, c).last() != c,
    decreases s.len(),
{
    if s.len() > 0 && s.last() == c {
        lemma_trim_end_stops(s.drop_last(), c);
    }
}

/// The lower-case spelling of a valid header name is a valid header name, and
/// is its own lower-case spelling.
pub proof fn lemma_lower_name_is_valid(name: Seq<char>)
    requires
        valid_header_name(name),
    ensures
        valid_header_name(ascii_lower(name)),
        ascii_lower(ascii_lower(name)) == ascii_lower(name),
{
    assert forall|i: int| 0 <= i < ascii_lower(name).len() implies crate::headers::is_token_char(
        #[trigger] ascii_lower(name)[i],
    ) by {
        assert(crate::headers::is_token_char(name[i]));
    }
    assert(ascii_lower(ascii_lower(name)) =~= ascii_lower(name));
}

/// The pattern under which a proxy route is mounted: the route's path without
/// the `*` at its end, and a wildcard that takes the rest of the request path.
pub open spec fn proxy_route_text(base: Seq<char>) -> Seq<char> {
    trim_end(base, '*') + "*tail"@
}

/// The pattern under which to mount a proxy route declared at `base`.
pub fn proxy_route_path(base: &str) -> (pattern: String)
    ensures
        pattern@ == proxy_route_text(base@),
{
    let chars = chars_of(base);
    let mut out = trim_end_chars(chars.as_slice(), '*');
    push_text(&mut out, "*tail");
    string_of(out.as_slice())
}

/// The URI to send the upstream request to.
pub fn upstream_uri(target: &str, tail: &str, query: Option<&str>) -> (uri: String)
    ensures
        uri@ == upstream_text(target@, tail@, opt_str(query)),
{
    let mut out = chars_of(target);
    out.push('/');
    push_text(&mut out, tail);
    match query {
        Some(q) => {
            out.push('?');
            push_text(&mut out, q);
        },
        None => {},
    }
    string_of(out.as_slice())
}

/// Why a request was not forwarded.
#[derive(Clone, Copy, Debug, PartialEq, Eq, Structural)]
pub enum ForwardError {
    /// The upstream URI does not parse.
    MalformedUri,
}

impl ForwardError {
    pub open spec fn spec_status(self) -> u16 {
        502
    }

    /// The status with which to answer the client.
    #[verifier::when_used_as_spec(spec_status)]
    pub fn status(self) -> (code: u16)
        ensures
            code == self.spec_status(),
    {
        502
    }
}

/// Where to send a request, how long to wait for the answer, and whether
/// every configured header with a valid value is on the request.
#[derive(Debug, Clone)]
pub struct ForwardPlan {
    pub uri: String,
    pub timeout: TimeSpan,
    pub complete: bool,
}

/// The headers of the upstream request: the request's own headers, then the
/// configured ones with the client's address filled in, and no hop-by-hop
/// header.
pub open spec fn upstream_headers(
    entries: Map<Seq<char>, Seq<Seq<u8>>>,
    add_headers: Seq<(Seq<char>, Seq<char>)>,
    peer: Option<Seq<char>>,
) -> Map<Seq<char>, Seq<Seq<u8>>> {
    stripped(with_headers(entries, templated(add_headers, template_ip(entries, peer))))
}

/// Whether `after` can be the headers of the upstream request: the request's
/// own headers, then the configured ones with the client's address filled in,
/// each set or, the map refusing it, left out, and no hop-by-hop header.
pub open spec fn upstream_outcomes(
    entries: Map<Seq<char>, Seq<Seq<u8>>>,
    add_headers: Seq<(Seq<char>, Seq<char>)>,
    peer: Option<Seq<char>>,
    after: Map<Seq<char>, Seq<Seq<u8>>>,
) -> bool {
    exists|mid: Map<Seq<char>, Seq<Seq<u8>>>|
        #[trigger] set_outcomes(entries, templated(add_headers, template_ip(entries, peer)), mid)
            && after == stripped(mid)
}

/// Whether `r` and `after` are what forwarding gives for the upstream URI
/// `upstream` that does or does not parse. A URI that does not parse is
/// refused and the headers stay as they were. Otherwise the plan holds the
/// URI and the timeout, and the headers are those of the upstream request;
/// they hold every configured header whenever the plan is complete, and the
/// plan is complete whenever the map had room for the configured headers.
pub open spec fn is_forward(
    upstream: Seq<char>,
    parses: bool,
    timeout: TimeSpan,
    add_headers: Seq<(Seq<char>, Seq<char>)>,
    entries: Map<Seq<char>, Seq<Seq<u8>>>,
    peer: Option<Seq<char>>,
    r: Result<ForwardPlan, ForwardError>,
    after: Map<Seq<char>, Seq<Seq<u8>>>,
) -> bool {
    if !parses {
        r == Err::<ForwardPlan, ForwardError>(ForwardError::MalformedUri) && after == entries
    } else {
        &&& r is Ok
        &&& r->Ok_0.uri@ == upstream
        &&& r->Ok_0.timeout == timeout
        &&& upstream_outcomes(entries, add_headers, peer, after)
        &&& r->Ok_0.complete ==> after == upstream_headers(entries, add_headers, peer)
        &&& room_for(entries, add_headers.len()) ==> r->Ok_0.complete
    }
}

fn templated_headers(add_headers: &Vec<(String, String)>, ip: &str) -> (list: Vec<(String, String)>)
    ensures
        pair_views(list@) == templated(pair_views(add_headers@), ip@),
{
    let mut list: Vec<(String, String)> = Vec::new();
    let mut i: usize = 0;
    while i < add_headers.len()
        invariant
            i <= add_headers.len(),
            list@.len() == i,
            forall|k: int|
                0 <= k < i ==> (#[trigger] list@[k]).0@ == add_headers@[k].0@ && list@[k].1@
                    == with_client_ip(add_headers@[k].1@, ip@),
        decreases add_headers.len() - i,
    {
        let value = substitute_client_ip(add_headers[i].1.as_str(), ip);
        list.push((add_headers[i].0.clone(), value));
        i += 1;
    }
    assert(pair_views(list@) =~= templated(pair_views(add_headers@), ip@));
    list
}

/// Turns an inbound request into the upstream request, given its upstream URI
/// and whether that URI parses. On success the headers are those of the
/// upstream request; on failure they are untouched.
pub fn forward_parsed(
    pstate: &ProxyState,
    upstream: String,
    parses: bool,
    headers: &mut HeaderMap<HeaderValue>,
    peer: Option<&str>,
) -> (r: Result<ForwardPlan, ForwardError>)
    ensures
        is_forward(
            upstream@,
            parses,
            pstate.timeout,
            pair_views(pstate.add_headers@),
            header_entries(*old(headers)),
            opt_str(peer),
            r,
            header_entries(*final(headers)),
        ),
        r is Ok ==> forall|name: Seq<char>|
            is_hop_by_hop(ascii_lower(name)) ==> !holds_name(
                header_entries(*final(headers)),
                name,
            ),
{
    if !parses {
        return Err(ForwardError::MalformedUri);
    }
    let ip = template_client_ip(headers, peer);
    let list = templated_headers(&pstate.add_headers, ip.as_str());
    let complete = set_headers(headers, &list);
    let ghost mid = header_entries(*headers);
    strip_hop_by_hop(headers);
    proof {
        assert(set_outcomes(
            header_entries(*old(headers)),
            templated(
                pair_views(pstate.add_headers@),
                template_ip(header_entries(*old(headers)), opt_str(peer)),
            ),
            mid,
        ));
    }
    Ok(ForwardPlan { uri: upstream, timeout: pstate.timeout, complete })
}

/// Turns an inbound request into the upstream request: builds the upstream
/// URI from the route's target, the matched part of the path and the query,
/// and refuses the request if that URI does not parse; then sets the
/// configured headers and removes the hop-by-hop ones.
pub fn proxy_forward(
    pstate: &ProxyState,
    tail: &str,
    query: Option<&str>,
    headers: &mut HeaderMap<HeaderValue>,
    peer: Option<&str>,
) -> (r: Result<ForwardPlan, ForwardError>)
    ensures
        is_forward(
            upstream_text(pstate.target@, tail@, opt_str(query)),
            uri_parses(upstream_text(pstate.target@, tail@, opt_str(query))),
            pstate.timeout,
            pair_views(pstate.add_headers@),
            header_entries(*old(headers)),
            opt_str(peer),
            r,
            header_entries(*final(headers)),
        ),
        r is Ok ==> forall|name: Seq<char>|
            is_hop_by_hop(ascii_lower(name)) ==> !holds_name(
                header_entries(*final(headers)),
                name,
            ),
{
    let upstream = upstream_uri(pstate.target.as_str(), tail, query);
    let parses = uri_ok(upstream.as_str());
    forward_parsed(pstate, upstream, parses, headers, peer)
}

/// How the one attempt to reach the upstream ended.
#[derive(Clone, Copy, Debug, PartialEq, Eq, Structural)]
pub enum UpstreamOutcome {
    /// The upstream answered with this status.
    Answered(u16),
    /// The upstream could not be reached, or the exchange broke.
    Failed,
    /// The upstream did not answer within the route's timeout.
    TimedOut,
}

/// The status of the reply to the client.
pub open spec fn reply_status(outcome: UpstreamOutcome) -> u16 {
    match outcome {
        UpstreamOutcome::Answered(status) => status,
        UpstreamOutcome::Failed => 502,
        UpstreamOutcome::TimedOut => 502,
    }
}

/// Settles the reply to the client once the attempt to reach the upstream has
/// ended. An answer keeps its status and its headers but for the hop-by-hop
/// ones; a failure or a timeout is answered with 502, and nothing is tried
/// again. `headers` are those of the upstream's answer, where there is one.
pub fn proxy_reply(outcome: UpstreamOutcome, headers: &mut HeaderMap<HeaderValue>) -> (status: u16)
    ensures
        status == reply_status(outcome),
        outcome is Answered ==> header_entries(*final(headers)) == stripped(
            header_entries(*old(headers)),
        ),
        outcome is Answered ==> forall|name: Seq<char>|
            is_hop_by_hop(ascii_lower(name)) ==> !holds_name(
                header_entries(*final(headers)),
                name,
            ),
        !(outcome is Answered) ==> header_entries(*final(headers)) == header_entries(
            *old(headers),
        ),
{
    match outcome {
        UpstreamOutcome::Answered(status) => {
            strip_hop_by_hop(headers);
            status
        },
        UpstreamOutcome::Failed => 502,
        UpstreamOutcome::TimedOut => 502,
    }
}

} // verus!
