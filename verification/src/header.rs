//! HTTP headers: the header map of the `http` crate, as a map from lower-case names to the values
//! under each name.

use http::HeaderMap;
use vstd::prelude::*;
use vstd::utf8::*;

verus! {

/// The header map of the `http` crate.
#[verifier::external_type_specification]
#[verifier::external_body]
#[verifier::reject_recursive_types(T)]
pub struct ExHeaderMap<T>(http::HeaderMap<T>);

/// The header value of the `http` crate.
#[verifier::external_type_specification]
#[verifier::external_body]
pub struct ExHeaderValue(http::HeaderValue);

/// What a header map holds: under each name, in lower case, its values in order.
pub uninterp spec fn headers(h: HeaderMap) -> Map<Seq<char>, Seq<Seq<u8>>>;

/// `HeaderMap::insert` accepts a new value on every map with at most this many names. On larger
/// ones it can panic, depending on how the map has grown.
pub const MAX_NAMES: usize = 6553;

/// True for names without upper-case letters, as header maps hold them.
pub open spec fn lower_case(name: Seq<char>) -> bool {
    forall|i: int| 0 <= i < name.len() ==> !('A' as u32 <= #[trigger] name[i] as u32 <= 'Z' as u32)
}

/// True for the names that the library writes: lower-case letters and hyphens.
pub open spec fn plain_name(name: Seq<char>) -> bool {
    &&& 0 < name.len() < 64
    &&& forall|i: int|
        0 <= i < name.len() ==> (#[trigger] name[i] == '-' || 'a' as u32 <= name[i] as u32
            <= 'z' as u32)
}

/// True for the bytes that a header value may hold: all but the control characters, and tab.
pub open spec fn value_byte(b: u8) -> bool {
    b >= 32 && b != 127 || b == 9
}

/// True for the texts that a header value can carry.
pub open spec fn value_text(s: Seq<char>) -> bool {
    forall|i: int| 0 <= i < encode_utf8(s).len() ==> value_byte(#[trigger] encode_utf8(s)[i])
}

/// Printable ASCII is fit for a header value.
pub proof fn lemma_printable_fits(s: Seq<char>)
    requires
        forall|i: int| 0 <= i < s.len() ==> ' ' <= #[trigger] s[i] <= '~',
    ensures
        value_text(s),
{
    is_ascii_chars_encode_utf8(s);
    assert forall|i: int| 0 <= i < encode_utf8(s).len() implies value_byte(
        #[trigger] encode_utf8(s)[i],
    ) by {
        assert(' ' <= s[i] <= '~');
    }
}

/// True if `n` more names fit into the map.
pub open spec fn room_for(h: HeaderMap, n: nat) -> bool {
    headers(h).dom().finite() && headers(h).dom().len() + n <= MAX_NAMES + 1
}

/// True if the map holds `n` different names.
pub open spec fn name_count_is(h: HeaderMap, n: nat) -> bool {
    headers(h).dom().finite() && headers(h).dom().len() == n
}

/// `HeaderMap::keys_len`: how many different names the map holds.
#[verifier::external_body]
fn name_count(h: &HeaderMap) -> (r: usize)
    ensures
        name_count_is(*h, r as nat),
{
    h.keys_len()
}

/// True if `n` more names fit into the map.
pub fn has_room(h: &HeaderMap, n: usize) -> (r: bool)
    ensures
        r == room_for(*h, n as nat),
{
    let used: usize = name_count(h);
    used <= MAX_NAMES + 1 && n <= MAX_NAMES + 1 - used
}

/// `HeaderMap::get` on `HeaderName::from_lowercase`, which takes every name that a map can hold,
/// and `HeaderValue::as_bytes` on what it gives: the first value under a name.
#[verifier::external_body]
pub(crate) fn first_value(h: &HeaderMap, name: &str) -> (r: Option<Vec<u8>>)
    requires
        lower_case(name@),
    ensures
        r is Some <==> headers(*h).contains_key(name@),
        r matches Some(v) ==> headers(*h)[name@].len() > 0 && v@ == headers(*h)[name@][0],
{
    match http::HeaderName::from_lowercase(name.as_bytes()) {
        Ok(n) => h.get(n).map(|v| v.as_bytes().to_vec()),
        Err(_) => None,
    }
}

/// `HeaderMap::keys`: the names in the map, in no particular order.
#[verifier::external_body]
pub(crate) fn names(h: &HeaderMap) -> (r: Vec<String>)
    ensures
        forall|i: int|
            0 <= i < r@.len() ==> lower_case((#[trigger] r@[i])@) && headers(*h).contains_key(
                r@[i]@,
            ),
        forall|n: Seq<char>| #[trigger]
            headers(*h).contains_key(n) ==> exists|i: int| 0 <= i < r@.len() && r@[i]@ == n,
{
    h.keys().map(|n| n.as_str().to_string()).collect()
}

/// The contents of a map that holds nothing.
pub open spec fn no_headers() -> Map<Seq<char>, Seq<Seq<u8>>> {
    Map::empty()
}

/// `HeaderMap::new`: a map that holds nothing.
#[verifier::external_body]
pub(crate) fn empty() -> (r: HeaderMap)
    ensures
        headers(r) == no_headers(),
{
    HeaderMap::new()
}

/// `HeaderMap::clone`: a map with the same contents.
#[verifier::external_body]
pub(crate) fn copy(h: &HeaderMap) -> (r: HeaderMap)
    ensures
        headers(r) == headers(*h),
{
    h.clone()
}

/// `HeaderMap::remove` on `HeaderName::from_lowercase`, which takes every name that a map can hold:
/// every value under the name leaves the map.
#[verifier::external_body]
pub(crate) fn remove(h: &mut HeaderMap, name: &str)
    requires
        lower_case(name@),
    ensures
        headers(*final(h)) == headers(*old(h)).remove(name@),
{
    if let Ok(n) = http::HeaderName::from_lowercase(name.as_bytes()) {
        h.remove(n);
    }
}

/// `HeaderMap::insert` on `HeaderName::from_static` and `HeaderValue::from_str`: replaces all
/// values under the name by the one given, if its text is fit for a header value, and says
/// whether it is.
#[verifier::external_body]
pub(crate) fn insert(h: &mut HeaderMap, name: &'static str, value: &str) -> (r: bool)
    requires
        plain_name(name@),
        room_for(*old(h), 1),
    ensures
        r == value_text(value@),
        r ==> headers(*final(h)) == headers(*old(h)).insert(
            name@,
            seq![encode_utf8(value@)],
        ),
        !r ==> headers(*final(h)) == headers(*old(h)),
{
    match http::HeaderValue::from_str(value) {
        Ok(v) => {
            h.insert(http::HeaderName::from_static(name), v);
            true
        },
        Err(_) => false,
    }
}

/// True for the bytes that a header value may hold and still be read as text: printable ASCII,
/// and tab.
pub open spec fn visible(b: u8) -> bool {
    32 <= b < 127 || b == 9
}

/// The text of a header value, if all of it is printable.
pub open spec fn visible_text(bytes: Seq<u8>) -> Option<Seq<char>> {
    if forall|i: int| 0 <= i < bytes.len() ==> visible(#[trigger] bytes[i]) {
        Some(bytes.map_values(|b: u8| b as char))
    } else {
        None
    }
}

/// The text of the first value under a name, if there is one and all of it is printable.
pub open spec fn header_text(h: HeaderMap, name: Seq<char>) -> Option<Seq<char>> {
    if headers(h).contains_key(name) {
        visible_text(headers(h)[name][0])
    } else {
        None
    }
}

/// The text of a header value, if all of it is printable.
fn to_text(bytes: &Vec<u8>) -> (r: Option<String>)
    ensures
        match r {
            Some(s) => visible_text(bytes@) == Some(s@),
            None => visible_text(bytes@) is None,
        },
{
    let mut out = String::new();
    let mut i: usize = 0;
    while i < bytes.len()
        invariant
            i <= bytes@.len(),
            forall|j: int| 0 <= j < i ==> visible(#[trigger] bytes@[j]),
            out@ == bytes@.take(i as int).map_values(|b: u8| b as char),
        decreases bytes@.len() - i,
    {
        let b: u8 = bytes[i];
        if !(32 <= b && b < 127 || b == 9) {
            assert(!visible(bytes@[i as int]));
            return None;
        }
        out.push(b as char);
        assert(out@ =~= bytes@.take(i as int + 1).map_values(|b: u8| b as char));
        i += 1;
    }
    assert(bytes@.take(bytes@.len() as int) =~= bytes@);
    Some(out)
}

/// The text of the first value under a name, if there is one and all of it is printable.
pub fn text_of(h: &HeaderMap, name: &str) -> (r: Option<String>)
    requires
        lower_case(name@),
    ensures
        match r {
            Some(s) => header_text(*h, name@) == Some(s@),
            None => header_text(*h, name@) is None,
        },
{
    match first_value(h, name) {
        Some(v) => to_text(&v),
        None => None,
    }
}

/// A header that was written as printable text is read as that text, the first one if there are
/// several under the name. A header that is absent, or with any other byte, has no text.
pub proof fn law_header_texts_are_read(h: HeaderMap, name: Seq<char>, s: Seq<char>, i: int)
    ensures
        headers(h).contains_key(name) && headers(h)[name].len() > 0 && headers(h)[name][0]
            == encode_utf8(s) && (forall|j: int|
            0 <= j < s.len() ==> ' ' <= #[trigger] s[j] <= '~' || s[j] == '\t')
            ==> header_text(h, name) == Some(s),
        headers(h).contains_key(name) && 0 <= i < headers(h)[name][0].len() && (
        headers(h)[name][0][i] >= 127 || (headers(h)[name][0][i] < 32 && headers(h)[name][0][i]
            != 9)) ==> header_text(h, name) is None,
        !headers(h).contains_key(name) ==> header_text(h, name) is None,
{
    let bytes = headers(h)[name][0];
    if headers(h).contains_key(name) && bytes == encode_utf8(s) && (forall|j: int|
        0 <= j < s.len() ==> ' ' <= #[trigger] s[j] <= '~' || s[j] == '\t') {
        is_ascii_chars_encode_utf8(s);
        assert forall|j: int| 0 <= j < bytes.len() implies visible(#[trigger] bytes[j]) by {
            assert(' ' <= s[j] <= '~' || s[j] == '\t');
        }
        assert(bytes.map_values(|b: u8| b as char) =~= s);
    }
    if 0 <= i < bytes.len() && (bytes[i] >= 127 || (bytes[i] < 32 && bytes[i] != 9)) {
        assert(!visible(bytes[i]));
    }
}

/// A header value may hold any byte from the space on but the delete character, and tab.
pub proof fn law_value_bytes(b: u8)
    ensures
        value_byte(b) <==> b == 9 || 32 <= b <= 126 || 128 <= b,
{
}

} // verus!
