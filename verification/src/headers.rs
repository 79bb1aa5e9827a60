//! Header maps: what they hold, and how headers are set on them.

use crate::text::string_of;
use http::header::{HeaderMap, HeaderName, HeaderValue};
use http::{Method, Uri};
use std::str::FromStr;
use vstd::prelude::*;
use vstd::utf8::encode_utf8;

verus! {

#[verifier::external_type_specification]
#[verifier::external_body]
#[verifier::reject_recursive_types(T)]
pub struct ExHeaderMap<T>(HeaderMap<T>);

#[verifier::external_type_specification]
#[verifier::external_body]
pub struct ExHeaderValue(HeaderValue);

/// What a header map holds: each name that is present, in its lower-case
/// spelling, with the bytes of each of its values, first value first.
pub uninterp spec fn header_entries(map: HeaderMap<HeaderValue>) -> Map<Seq<char>, Seq<Seq<u8>>>;

/// Whether the text of a request target parses as a URI.
pub uninterp spec fn uri_parses(text: Seq<char>) -> bool;

/// A header map takes a further name without fail while it holds fewer names
/// than this. The map never grows its table beyond 32768 slots, and in no
/// state does it ask for a larger table while it holds less than a fifth of
/// its slots.
pub const HEADER_ROOM: usize = 6554;

/// The characters of an HTTP token.
pub open spec fn is_token_char(c: char) -> bool {
    ('a' <= c && c <= 'z') || ('A' <= c && c <= 'Z') || ('0' <= c && c <= '9') || c == '!' || c
        == '#' || c == '$' || c == '%' || c == '&' || c == '\'' || c == '*' || c == '+' || c
        == '-' || c == '.' || c == '^' || c == '_' || c == '`' || c == '|' || c == '~'
}

/// A non-empty run of token characters.
pub open spec fn is_token(s: Seq<char>) -> bool {
    &&& s.len() > 0
    &&& forall|i: int| 0 <= i < s.len() ==> is_token_char(#[trigger] s[i])
}

/// A header name is a token of at most 65535 characters.
pub open spec fn valid_header_name(s: Seq<char>) -> bool {
    is_token(s) && s.len() <= 65535
}

/// A header value holds no control character but the tab.
pub open spec fn valid_header_value(s: Seq<char>) -> bool {
    forall|i: int| 0 <= i < s.len() ==> (#[trigger] s[i] == '\t' || (' ' <= s[i] && s[i] != '\x7f'))
}

/// A request method is a token, in the spelling given.
pub open spec fn valid_method(s: Seq<char>) -> bool {
    is_token(s)
}

/// `c`, or its lower-case form where `c` is an upper-case ASCII letter.
pub open spec fn lower_char(c: char) -> char {
    if 'A' <= c && c <= 'Z' {
        ((c as u8) + 32) as char
    } else {
        c
    }
}

/// `s` with its upper-case ASCII letters in lower case.
pub open spec fn ascii_lower(s: Seq<char>) -> Seq<char> {
    Seq::new(s.len(), |i: int| lower_char(s[i]))
}

/// A byte that is printable ASCII, a space or a tab.
pub open spec fn is_visible_byte(b: u8) -> bool {
    (32 <= b && b < 127) || b == 9
}

/// Whether bytes are all printable ASCII, spaces and tabs.
pub open spec fn is_visible_text(bytes: Seq<u8>) -> bool {
    forall|i: int| 0 <= i < bytes.len() ==> is_visible_byte(#[trigger] bytes[i])
}

/// The characters that ASCII bytes stand for.
pub open spec fn text_of_bytes(bytes: Seq<u8>) -> Seq<char> {
    Seq::new(bytes.len(), |i: int| bytes[i] as char)
}

/// Whether the entries hold `name`, in whatever case it is spelled.
pub open spec fn holds_name(entries: Map<Seq<char>, Seq<Seq<u8>>>, name: Seq<char>) -> bool {
    entries.dom().contains(ascii_lower(name))
}

/// The first value held under `name`, if `name` is a valid header name that
/// the entries hold.
pub open spec fn first_value(entries: Map<Seq<char>, Seq<Seq<u8>>>, name: Seq<char>) -> Option<
    Seq<u8>,
> {
    if valid_header_name(name) && holds_name(entries, name) {
        Some(entries[ascii_lower(name)].first())
    } else {
        None
    }
}

/// Whether the entries hold finitely many names, `n` of them.
pub open spec fn counts_names(entries: Map<Seq<char>, Seq<Seq<u8>>>, n: nat) -> bool {
    entries.dom().finite() && entries.dom().len() == n
}

/// The bytes of an optional byte vector.
pub open spec fn bytes_view(value: Option<Vec<u8>>) -> Option<Seq<u8>> {
    match value {
        Some(v) => Some(v@),
        None => None,
    }
}

/// The entries after removing `name`: a valid name leaves with all its values,
/// and a text that is no valid name removes nothing.
pub open spec fn without_header(entries: Map<Seq<char>, Seq<Seq<u8>>>, name: Seq<char>) -> Map<
    Seq<char>,
    Seq<Seq<u8>>,
> {
    if valid_header_name(name) {
        entries.remove(ascii_lower(name))
    } else {
        entries
    }
}

/// The entries after setting one header: where both the name and the value are
/// valid, the name holds that one value; where either is not, nothing changes.
pub open spec fn with_header(
    entries: Map<Seq<char>, Seq<Seq<u8>>>,
    name: Seq<char>,
    value: Seq<char>,
) -> Map<Seq<char>, Seq<Seq<u8>>> {
    if valid_header_name(name) && valid_header_value(value) {
        entries.insert(ascii_lower(name), seq![encode_utf8(value)])
    } else {
        entries
    }
}

/// The entries after setting each header of `list` in turn.
pub open spec fn with_headers(
    entries: Map<Seq<char>, Seq<Seq<u8>>>,
    list: Seq<(Seq<char>, Seq<char>)>,
) -> Map<Seq<char>, Seq<Seq<u8>>>
    decreases list.len(),
{
    if list.len() == 0 {
        entries
    } else {
        with_header(with_headers(entries, list.drop_last()), list.last().0, list.last().1)
    }
}

/// Whether the entries are sure to take `extra` further names: they hold
/// finitely many, and no more than `HEADER_ROOM` with the further ones.
pub open spec fn room_for(entries: Map<Seq<char>, Seq<Seq<u8>>>, extra: nat) -> bool {
    entries.dom().finite() && entries.dom().len() + extra <= HEADER_ROOM
}

/// The entries after going through the headers of `list` in turn and
/// setting those that `taken` marks.
pub open spec fn with_headers_taken(
    entries: Map<Seq<char>, Seq<Seq<u8>>>,
    list: Seq<(Seq<char>, Seq<char>)>,
    taken: Seq<bool>,
) -> Map<Seq<char>, Seq<Seq<u8>>>
    decreases list.len(),
{
    if list.len() == 0 || taken.len() != list.len() {
        entries
    } else {
        let mid = with_headers_taken(entries, list.drop_last(), taken.drop_last());
        if taken.last() {
            with_header(mid, list.last().0, list.last().1)
        } else {
            mid
        }
    }
}

/// Whether `after` is what setting the headers of `list` in turn can leave of
/// `entries`, where each header is either set or, the map refusing it, left
/// out.
pub open spec fn set_outcomes(
    entries: Map<Seq<char>, Seq<Seq<u8>>>,
    list: Seq<(Seq<char>, Seq<char>)>,
    after: Map<Seq<char>, Seq<Seq<u8>>>,
) -> bool {
    exists|taken: Seq<bool>|
        taken.len() == list.len() && after == #[trigger] with_headers_taken(entries, list, taken)
}

/// What a try to set one header leaves: the header set where the try went
/// through, and the entries as they were where the map refused it. A map
/// with room for a further name does not refuse.
pub open spec fn insert_outcome(
    before: Map<Seq<char>, Seq<Seq<u8>>>,
    name: Seq<char>,
    value: Seq<char>,
    after: Map<Seq<char>, Seq<Seq<u8>>>,
    done: bool,
) -> bool {
    &&& done ==> after == with_header(before, name, value)
    &&& !done ==> after == before
    &&& room_for(before, 1) ==> done
}

/// The names and values of a list of headers, as character sequences.
pub open spec fn pair_views(list: Seq<(String, String)>) -> Seq<(Seq<char>, Seq<char>)> {
    Seq::new(list.len(), |i: int| (list[i].0@, list[i].1@))
}

/// `HeaderMap::keys_len`: the number of names in the map.
#[verifier::external_body]
pub(crate) fn header_name_count(map: &HeaderMap<HeaderValue>) -> (n: usize)
    ensures
        counts_names(header_entries(*map), n as nat),
{
    map.keys_len()
}

/// `HeaderMap::get` with a text key: the bytes of the first value held under
/// the name, whatever the case it is spelled in; nothing where the name is
/// absent or is no valid header name.
#[verifier::external_body]
pub(crate) fn header_first(map: &HeaderMap<HeaderValue>, name: &str) -> (value: Option<Vec<u8>>)
    ensures
        bytes_view(value) == first_value(header_entries(*map), name@),
{
    map.get(name).map(|v| v.as_bytes().to_vec())
}

/// `HeaderMap::remove` with a text key: the name, whatever the case it is
/// spelled in, leaves the map with all its values. A text that is no valid
/// header name removes nothing.
#[verifier::external_body]
pub(crate) fn header_remove(map: &mut HeaderMap<HeaderValue>, name: &str)
    ensures
        header_entries(*final(map)) == without_header(header_entries(*old(map)), name@),
{
    map.remove(name);
}

/// `HeaderMap::try_insert`: where the map takes the header, the name, in
/// lower case, then holds exactly the one value given; where the map refuses
/// it for want of space, nothing changes. The map does not refuse while it
/// holds fewer than `HEADER_ROOM` names. The name and the value are handed
/// over through `HeaderName::from_str` and `HeaderValue::from_str`, which
/// take what is valid.
#[verifier::external_body]
pub(crate) fn header_insert(map: &mut HeaderMap<HeaderValue>, name: &str, value: &str) -> (done:
    bool)
    requires
        valid_header_name(name@),
        valid_header_value(value@),
    ensures
        insert_outcome(header_entries(*old(map)), name@, value@, header_entries(*final(map)), done),
{
    match (HeaderName::from_str(name), HeaderValue::from_str(value)) {
        (Ok(n), Ok(v)) => map.try_insert(n, v).is_ok(),
        _ => false,
    }
}

/// `HeaderName::from_str`: accepts exactly the valid header names, and
/// spells the accepted name in lower case.
#[verifier::external_body]
pub(crate) fn parse_header_name(name: &str) -> (parsed: Option<String>)
    ensures
        parsed is Some <==> valid_header_name(name@),
        parsed is Some ==> parsed->0@ == ascii_lower(name@),
{
    match HeaderName::from_str(name) {
        Ok(n) => Some(n.as_str().to_string()),
        Err(_) => None,
    }
}

/// `HeaderValue::from_str`: accepts exactly the valid header values.
#[verifier::external_body]
pub(crate) fn header_value_ok(value: &str) -> (ok: bool)
    ensures
        ok == valid_header_value(value@),
{
    HeaderValue::from_str(value).is_ok()
}

/// `Method::from_str`: accepts exactly the non-empty tokens.
#[verifier::external_body]
pub(crate) fn method_ok(method: &str) -> (ok: bool)
    ensures
        ok == valid_method(method@),
{
    Method::from_str(method).is_ok()
}

/// `Uri::from_str`: whether the text parses as a URI.
#[verifier::external_body]
pub(crate) fn uri_ok(text: &str) -> (ok: bool)
    ensures
        ok == uri_parses(text@),
{
    Uri::from_str(text).is_ok()
}

/// Sets one header if its name and its value are both valid. The result is
/// `false` only where the map refused a valid header, which it does not do
/// while it has room.
pub fn set_header(map: &mut HeaderMap<HeaderValue>, name: &str, value: &str) -> (done: bool)
    ensures
        insert_outcome(header_entries(*old(map)), name@, value@, header_entries(*final(map)), done),
        header_entries(*old(map)).dom().finite() ==> header_entries(*final(map)).dom().finite()
            && header_entries(*final(map)).dom().len() <= header_entries(*old(map)).dom().len()
            + 1,
{
    let name_ok = parse_header_name(name).is_some();
    if name_ok && header_value_ok(value) {
        header_insert(map, name, value)
    } else {
        true
    }
}

/// Whether `map` is sure to take `extra` further names.
pub fn has_room(map: &HeaderMap<HeaderValue>, extra: usize) -> (b: bool)
    ensures
        header_entries(*map).dom().finite(),
        b == room_for(header_entries(*map), extra as nat),
{
    let n = header_name_count(map);
    n <= HEADER_ROOM && extra <= HEADER_ROOM - n
}

/// Sets each header of `list` in turn, skipping those whose name or value is
/// not valid; a later header of the same name replaces an earlier one. A
/// header that the map refuses for want of space is left out, and the others
/// are still set. The result says whether every valid header was set, which
/// is so whenever the map has room for as many names as `list` is long.
pub fn set_headers(map: &mut HeaderMap<HeaderValue>, list: &Vec<(String, String)>) -> (done: bool)
    ensures
        set_outcomes(header_entries(*old(map)), pair_views(list@), header_entries(*final(map))),
        done ==> header_entries(*final(map)) == with_headers(
            header_entries(*old(map)),
            pair_views(list@),
        ),
        room_for(header_entries(*old(map)), list@.len()) ==> done,
{
    let mut done = true;
    let mut i: usize = 0;
    let ghost mut taken: Seq<bool> = Seq::empty();
    assert(pair_views(list@).take(0) =~= Seq::<(Seq<char>, Seq<char>)>::empty());
    while i < list.len()
        invariant
            i <= list.len(),
            taken.len() == i,
            header_entries(*map) == with_headers_taken(
                header_entries(*old(map)),
                pair_views(list@).take(i as int),
                taken,
            ),
            done ==> header_entries(*map) == with_headers(
                header_entries(*old(map)),
                pair_views(list@).take(i as int),
            ),
            room_for(header_entries(*old(map)), list@.len()) ==> done && header_entries(
                *map,
            ).dom().finite() && header_entries(*map).dom().len() <= header_entries(
                *old(map),
            ).dom().len() + i,
        decreases list.len() - i,
    {
        proof {
            assert(pair_views(list@).take(i + 1).drop_last() =~= pair_views(list@).take(i as int));
            assert(pair_views(list@).take(i + 1).last() == (list@[i as int].0@, list@[i as int].1@));
        }
        let set = set_header(map, list[i].0.as_str(), list[i].1.as_str());
        proof {
            let grown = taken.push(set);
            assert(grown.drop_last() =~= taken);
            taken = grown;
        }
        done = done && set;
        i += 1;
    }
    assert(pair_views(list@).take(list.len() as int) =~= pair_views(list@));
    done
}

/// The text of a header value, where it is printable ASCII with spaces and
/// tabs; nothing where it holds any other byte.
pub fn visible_text(bytes: &[u8]) -> (text: Option<String>)
    ensures
        text is Some <==> is_visible_text(bytes@),
        text is Some ==> text->0@ == text_of_bytes(bytes@),
{
    let mut chars: Vec<char> = Vec::new();
    let mut i: usize = 0;
    while i < bytes.len()
        invariant
            i <= bytes.len(),
            is_visible_text(bytes@.take(i as int)),
            chars@ == text_of_bytes(bytes@.take(i as int)),
        decreases bytes.len() - i,
    {
        let b = bytes[i];
        if !((32 <= b && b < 127) || b == 9) {
            return None;
        }
        chars.push(b as char);
        assert(chars@ =~= text_of_bytes(bytes@.take(i + 1)));
        i += 1;
    }
    assert(bytes@.take(bytes.len() as int) =~= bytes@);
    Some(string_of(chars.as_slice()))
}

} // verus!
