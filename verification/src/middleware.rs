//! What is done to every request and answer: admission by rate, cache
//! control for assets, and the configured security headers.

use crate::config::Cache;
use crate::headers::{
    ascii_lower, first_value, header_entries, header_first, is_visible_text, pair_views,
    room_for, set_header, set_headers, set_outcomes, text_of_bytes, valid_header_name,
    valid_header_value, visible_text, with_headers,
};
use crate::proxy::{client_ip, client_ip_of};
use crate::text::{chars_of, decimal, opt_text, push_decimal, push_text, string_of};
use crate::utils::{extension_text, is_asset_extension, is_asset_path};
use http::header::{HeaderMap, HeaderValue};
use vstd::prelude::*;
use vstd::utf8::encode_utf8;

verus! {

/// The address by which a client is counted: an IPv4 address as its 32 bits,
/// or an IPv6 address as its 128 bits.
#[derive(Clone, Copy, Debug, PartialEq, Eq, Hash, Structural)]
pub enum IpKey {
    V4(u32),
    V6(u128),
}

/// The key that all clients share whose address is not known: `0.0.0.0`.
/// Clients that hide their address are thus counted together, not let
/// through.
pub open spec fn unknown_client() -> IpKey {
    IpKey::V4(0)
}

/// The key to count a request under: the forwarded address where the request
/// names one that parses, else the peer's address, else the shared key for
/// unknown clients.
pub open spec fn rate_limit_key_of(forwarded: Option<IpKey>, peer: Option<IpKey>) -> IpKey {
    match forwarded {
        Some(key) => key,
        None => match peer {
            Some(key) => key,
            None => unknown_client(),
        },
    }
}

/// The key to count a request under.
pub fn rate_limit_key(forwarded: Option<IpKey>, peer: Option<IpKey>) -> (key: IpKey)
    ensures
        key == rate_limit_key_of(forwarded, peer),
{
    match forwarded {
        Some(key) => key,
        None => match peer {
            Some(key) => key,
            None => IpKey::V4(0),
        },
    }
}

/// The text in which a request names the client's address: the first of the
/// addresses in its `x-forwarded-for` header, without the blanks around it.
/// There is none where the header is absent or is not readable text.
pub open spec fn forwarded_text(entries: Map<Seq<char>, Seq<Seq<u8>>>) -> Option<Seq<char>> {
    client_ip_of(entries, None)
}

/// The text in which a request names the client's address, if it does.
pub fn forwarded_candidate(headers: &HeaderMap<HeaderValue>) -> (text: Option<String>)
    ensures
        opt_text(text) == forwarded_text(header_entries(*headers)),
{
    client_ip(headers, None)
}

/// The answer to a request that is over its rate.
#[derive(Debug, Clone)]
pub struct Rejection {
    pub status: u16,
    pub body: String,
}

/// Decides on the admission of a request from what the rate limiter said of
/// its key: `None` where no limiter is in use, else whether the key is within
/// its rate. A request over its rate is answered with 429 at once; every
/// other request goes on.
pub fn rate_limit_mw(verdict: Option<bool>) -> (rejection: Option<Rejection>)
    ensures
        rejection is Some <==> verdict == Some(false),
        rejection is Some ==> rejection->0.status == 429 && rejection->0.body@ == "rate limit"@,
{
    match verdict {
        Some(false) => Some(Rejection { status: 429, body: "rate limit".to_owned() }),
        _ => None,
    }
}

/// The value of the `Cache-Control` header for assets kept `secs` seconds.
pub open spec fn cache_control_text(secs: u64) -> Seq<char> {
    "public, max-age="@ + decimal(secs as nat) + ", immutable"@
}

/// Whether the answer to a request for `path` is to carry `Cache-Control`.
pub open spec fn wants_cache_control(cache: Cache, path: Seq<char>) -> bool {
    cache.enabled && is_asset_extension(extension_text(path))
}

/// The digits of a number are digits.
pub proof fn lemma_decimal_is_digits(n: nat)
    ensures
        decimal(n).len() > 0,
        forall|i: int| 0 <= i < decimal(n).len() ==> '0' <= #[trigger] decimal(n)[i] <= '9',
    decreases n,
{
    if n >= 10 {
        lemma_decimal_is_digits(n / 10);
    }
}

/// The `Cache-Control` value is a valid header value whatever the age, and
/// `cache-control` is a valid header name in lower case.
pub proof fn lemma_cache_control_is_valid(secs: u64)
    ensures
        valid_header_value(cache_control_text(secs)),
        valid_header_name("cache-control"@),
        ascii_lower("cache-control"@) == "cache-control"@,
{
    reveal_strlit("public, max-age=");
    reveal_strlit(", immutable");
    reveal_strlit("cache-control");
    lemma_decimal_is_digits(secs as nat);
    let a = "public, max-age="@;
    let d = decimal(secs as nat);
    let b = ", immutable"@;
    let all = cache_control_text(secs);
    assert forall|i: int| 0 <= i < all.len() implies (#[trigger] all[i] == '\t' || (' ' <= all[i]
        && all[i] != '\x7f')) by {
        if i < a.len() {
            assert(all[i] == a[i]);
        } else if i < a.len() + d.len() {
            assert(all[i] == d[i - a.len()]);
        } else {
            assert(all[i] == b[i - a.len() - d.len()]);
        }
    }
    assert(ascii_lower("cache-control"@) =~= "cache-control"@);
}

/// The value of the `Cache-Control` header for assets kept `secs` seconds.
pub fn cache_control_value(secs: u64) -> (value: String)
    ensures
        value@ == cache_control_text(secs),
{
    let mut out = chars_of("public, max-age=");
    push_decimal(&mut out, secs);
    push_text(&mut out, ", immutable");
    string_of(out.as_slice())
}

/// What `Cache-Control` handling leaves of the headers of an answer. Where
/// the header is not wanted, nothing changes. Where it is wanted and set, it
/// holds the one value for the configured age, any earlier value gone; where
/// the map refused it, nothing changes. A map with room does not refuse.
pub open spec fn is_cache_controlled(
    cache: Cache,
    path: Seq<char>,
    before: Map<Seq<char>, Seq<Seq<u8>>>,
    after: Map<Seq<char>, Seq<Seq<u8>>>,
    done: bool,
) -> bool {
    if !wants_cache_control(cache, path) {
        done && after == before
    } else {
        &&& done ==> after == before.insert(
            "cache-control"@,
            seq![encode_utf8(cache_control_text(cache.max_age.secs))],
        )
        &&& !done ==> after == before
        &&& room_for(before, 1) ==> done
    }
}

/// Puts `Cache-Control` on the answer to a request for an asset, where asset
/// caching is on; an earlier value of the header is replaced. Every other
/// answer is left as it is. The result is `false`, and the headers are
/// untouched, only where the header is wanted and the map refused it.
pub fn cache_control_mw(cache: &Cache, path: &str, headers: &mut HeaderMap<HeaderValue>) -> (done:
    bool)
    ensures
        is_cache_controlled(
            *cache,
            path@,
            header_entries(*old(headers)),
            header_entries(*final(headers)),
            done,
        ),
{
    if !(cache.enabled && is_asset_path(path)) {
        return true;
    }
    let value = cache_control_value(cache.max_age.as_secs());
    proof {
        lemma_cache_control_is_valid(cache.max_age.secs);
    }
    set_header(headers, "cache-control", value.as_str())
}

/// With asset caching on and room in the map, the answer to a request for an
/// asset carries `Cache-Control` with the one value for the configured age,
/// and the answer to any other request is as it was.
pub proof fn lemma_cache_control_on_assets_only(
    cache: Cache,
    path: Seq<char>,
    before: Map<Seq<char>, Seq<Seq<u8>>>,
    after: Map<Seq<char>, Seq<Seq<u8>>>,
    done: bool,
)
    requires
        is_cache_controlled(cache, path, before, after, done),
        cache.enabled,
        room_for(before, 1),
    ensures
        done,
        is_asset_extension(extension_text(path)) ==> after.dom().contains("cache-control"@)
            && after["cache-control"@] == seq![
            encode_utf8(cache_control_text(cache.max_age.secs)),
        ],
        !is_asset_extension(extension_text(path)) ==> after == before,
{
}

/// Puts every configured header on an answer, in the order given; a header of
/// the same name that the answer already has is replaced, and a header whose
/// name or value is not valid is skipped. A header that the map refuses for
/// want of space is left out. The result says whether every valid header was
/// set, which is so whenever the map has room for the configured headers.
pub fn with_security_headers(
    configured: &Vec<(String, String)>,
    headers: &mut HeaderMap<HeaderValue>,
) -> (done: bool)
    ensures
        set_outcomes(
            header_entries(*old(headers)),
            pair_views(configured@),
            header_entries(*final(headers)),
        ),
        done ==> header_entries(*final(headers)) == with_headers(
            header_entries(*old(headers)),
            pair_views(configured@),
        ),
        room_for(header_entries(*old(headers)), configured@.len()) ==> done,
{
    set_headers(headers, configured)
}

/// A configured header with a valid name and a valid value is on the answer
/// afterwards, with exactly its value, unless a later configured header that
/// is valid too has the same name.
pub proof fn lemma_configured_header_is_set(
    entries: Map<Seq<char>, Seq<Seq<u8>>>,
    list: Seq<(Seq<char>, Seq<char>)>,
    i: int,
)
    requires
        0 <= i < list.len(),
        valid_header_name(list[i].0),
        valid_header_value(list[i].1),
        forall|j: int|
            i < j < list.len() && valid_header_name(#[trigger] list[j].0) && valid_header_value(
                list[j].1,
            ) ==> ascii_lower(list[j].0) != ascii_lower(list[i].0),
    ensures
        with_headers(entries, list).dom().contains(ascii_lower(list[i].0)),
        with_headers(entries, list)[ascii_lower(list[i].0)] == seq![encode_utf8(list[i].1)],
    decreases list.len(),
{
    if i < list.len() - 1 {
        let init = list.drop_last();
        assert(init[i] == list[i]);
        assert forall|j: int|
            i < j < init.len() && valid_header_name(#[trigger] init[j].0) && valid_header_value(
                init[j].1,
            ) implies ascii_lower(init[j].0) != ascii_lower(init[i].0) by {
            assert(init[j] == list[j]);
        }
        lemma_configured_header_is_set(entries, init, i);
        let last = list.len() - 1;
        assert(list.last() == list[last]);
    }
}

} // verus!
