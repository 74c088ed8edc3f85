//! Query strings: percent-decoding and looking up a parameter.

use vstd::prelude::*;
use vstd::utf8::*;

use crate::text::{self, after, before, pieces, readable};

verus! {

/// The value of a hexadecimal digit.
pub open spec fn hex_value(b: u8) -> Option<u8> {
    if 48 <= b <= 57 {
        Some((b - 48) as u8)
    } else if 97 <= b <= 102 {
        Some((b - 97 + 10) as u8)
    } else if 65 <= b <= 70 {
        Some((b - 65 + 10) as u8)
    } else {
        None
    }
}

/// The value of a hexadecimal digit.
pub fn hex(b: u8) -> (r: Option<u8>)
    ensures
        r == hex_value(b),
        r matches Some(v) ==> v < 16,
{
    if 48 <= b && b <= 57 {
        Some(b - 48)
    } else if 97 <= b && b <= 102 {
        Some(b - 97 + 10)
    } else if 65 <= b && b <= 70 {
        Some(b - 65 + 10)
    } else {
        None
    }
}

/// True if the bytes begin with a percent sign and two hexadecimal digits.
pub open spec fn escaped(s: Seq<u8>) -> bool {
    s.len() >= 3 && s[0] == 37 && hex_value(s[1]) is Some && hex_value(s[2]) is Some
}

/// The bytes that a query component stands for: `+` is a space, a percent sign and two hexadecimal
/// digits are a byte, everything else is itself.
pub open spec fn percent_decoded(s: Seq<u8>) -> Seq<u8>
    decreases s.len(),
{
    if s.len() == 0 {
        Seq::empty()
    } else if escaped(s) {
        seq![(hex_value(s[1])->0 * 16 + hex_value(s[2])->0) as u8] + percent_decoded(s.skip(3))
    } else {
        seq![
            if s[0] == 43 {
                32u8
            } else {
                s[0]
            },
        ] + percent_decoded(s.skip(1))
    }
}

/// The bytes that a query component stands for.
pub fn percent_decode(s: &[u8]) -> (r: Vec<u8>)
    ensures
        r@ == percent_decoded(s@),
{
    let mut out: Vec<u8> = Vec::new();
    let mut i: usize = 0;
    assert(s@.skip(0) =~= s@);
    assert(out@ + percent_decoded(s@) =~= percent_decoded(s@));
    while i < s.len()
        invariant
            i <= s@.len(),
            percent_decoded(s@) == out@ + percent_decoded(s@.skip(i as int)),
        decreases s@.len() - i,
    {
        let ghost rest = s@.skip(i as int);
        let ghost done = out@;
        let b: u8 = s[i];
        if b == 37 && s.len() - i > 2 {
            if let (Some(h), Some(l)) = (hex(s[i + 1]), hex(s[i + 2])) {
                out.push(h * 16 + l);
                i += 3;
                proof {
                    assert(rest.skip(3) =~= s@.skip(i as int));
                    assert(escaped(rest));
                    assert(percent_decoded(s@) =~= out@ + percent_decoded(s@.skip(i as int)));
                }
                continue;
            }
        }
        out.push(
            if b == 43 {
                32
            } else {
                b
            },
        );
        i += 1;
        proof {
            assert(rest.skip(1) =~= s@.skip(i as int));
            assert(!escaped(rest));
            assert(percent_decoded(s@) =~= out@ + percent_decoded(s@.skip(i as int)));
        }
    }
    assert(out@ + percent_decoded(s@.skip(i as int)) =~= out@);
    out
}

/// The text that a query component stands for.
pub open spec fn url_decoded(s: Seq<char>) -> Seq<char> {
    readable(percent_decoded(encode_utf8(s)))
}

/// Percent-decodes a URL query component (`+` becomes a space).
pub fn url_decode(s: &str) -> (r: String)
    ensures
        r@ == url_decoded(s@),
{
    let bytes = percent_decode(s.as_bytes());
    text::from_utf8_lossy(bytes.as_slice())
}

/// The name and the value of a parameter, as they are written; the value is empty if there is no
/// `=`.
pub open spec fn halves(kv: Seq<char>) -> (Seq<char>, Seq<char>) {
    if kv.contains('=') {
        (before(kv, '='), after(kv, '='))
    } else {
        (kv, Seq::empty())
    }
}

/// The decoded name and value of a parameter.
pub open spec fn decoded_pair(kv: Seq<char>) -> (Seq<char>, Seq<char>) {
    (url_decoded(halves(kv).0), url_decoded(halves(kv).1))
}

/// The models of pairs of strings.
pub open spec fn pair_views(v: Seq<(String, String)>) -> Seq<(Seq<char>, Seq<char>)> {
    v.map_values(|p: (String, String)| (p.0@, p.1@))
}

/// The decoded parameters of a query string, in order.
pub open spec fn parameters(query: Seq<char>) -> Seq<(Seq<char>, Seq<char>)> {
    pieces(query, '&').map_values(|kv: Seq<char>| decoded_pair(kv))
}

/// The decoded parameters of a query string, in order.
pub fn query_pairs(query: &str) -> (r: Vec<(String, String)>)
    ensures
        pair_views(r@) == parameters(query@),
{
    let parts = text::split(query, '&');
    let mut out: Vec<(String, String)> = Vec::new();
    let mut i: usize = 0;
    while i < parts.len()
        invariant
            i <= parts@.len(),
            parts@.len() == pieces(query@, '&').len(),
            forall|j: int|
                0 <= j < parts@.len() ==> (#[trigger] parts@[j])@ == pieces(query@, '&')[j],
            pair_views(out@) == parameters(query@).take(i as int),
        decreases parts@.len() - i,
    {
        let kv: &str = parts[i];
        let (k, v) = match text::split_once(kv, '=') {
            Some(p) => p,
            None => (kv, ""),
        };
        proof {
            reveal_strlit("");
            assert(""@ =~= Seq::<char>::empty());
            assert(parts@[i as int]@ == pieces(query@, '&')[i as int]);
        }
        let ghost done = out@;
        out.push((url_decode(k), url_decode(v)));
        assert(pair_views(out@) =~= pair_views(done).push(decoded_pair(kv@)));
        assert(parameters(query@).take(i as int + 1) =~= parameters(query@).take(i as int).push(
            decoded_pair(kv@),
        ));
        i += 1;
    }
    assert(parameters(query@).take(parts@.len() as int) =~= parameters(query@));
    out
}

/// The value of the first pair with the given name.
pub open spec fn value_of(pairs: Seq<(Seq<char>, Seq<char>)>, name: Seq<char>) -> Option<Seq<char>>
    decreases pairs.len(),
{
    if pairs.len() == 0 {
        None
    } else if pairs[0].0 == name {
        Some(pairs[0].1)
    } else {
        value_of(pairs.skip(1), name)
    }
}

/// The value of the first pair with the given name.
pub fn find_param(pairs: &Vec<(String, String)>, name: &str) -> (r: Option<String>)
    ensures
        match r {
            Some(v) => value_of(pair_views(pairs@), name@) == Some(v@),
            None => value_of(pair_views(pairs@), name@) is None,
        },
{
    let ghost all = pair_views(pairs@);
    let mut i: usize = 0;
    assert(all.skip(0) =~= all);
    while i < pairs.len()
        invariant
            i <= pairs@.len(),
            all == pair_views(pairs@),
            value_of(all, name@) == value_of(all.skip(i as int), name@),
        decreases pairs@.len() - i,
    {
        assert(all.skip(i as int)[0] == (pairs@[i as int].0@, pairs@[i as int].1@));
        if text::same(pairs[i].0.as_str(), name) {
            return Some(pairs[i].1.clone());
        }
        assert(all.skip(i as int).skip(1) =~= all.skip(i as int + 1));
        i += 1;
    }
    None
}

/// The decoded value of a query parameter.
pub open spec fn param(path_and_query: Seq<char>, name: Seq<char>) -> Option<Seq<char>> {
    if path_and_query.contains('?') {
        value_of(parameters(after(path_and_query, '?')), name)
    } else {
        None
    }
}

/// Value of query parameter `name` in `path_and_query`, decoded.
pub fn query_param(path_and_query: &str, name: &str) -> (r: Option<String>)
    ensures
        match r {
            Some(v) => param(path_and_query@, name@) == Some(v@),
            None => param(path_and_query@, name@) is None,
        },
{
    match text::split_once(path_and_query, '?') {
        Some((_, query)) => find_param(&query_pairs(query), name),
        None => None,
    }
}

/// Text without `+` and `%` stands for itself.
pub proof fn law_plain_text_stands_for_itself(s: Seq<char>)
    requires
        !s.contains('+'),
        !s.contains('%'),
    ensures
        url_decoded(s) == s,
{
    let bytes = encode_utf8(s);
    lemma_plain_bytes(s);
    lemma_plain_bytes_stay(bytes);
    encode_utf8_valid_utf8(s);
    encode_utf8_decode_utf8(s);
}

proof fn lemma_plain_bytes_stay(bytes: Seq<u8>)
    requires
        forall|i: int| 0 <= i < bytes.len() ==> #[trigger] bytes[i] != 37 && bytes[i] != 43,
    ensures
        percent_decoded(bytes) == bytes,
    decreases bytes.len(),
{
    if bytes.len() > 0 {
        let rest = bytes.skip(1);
        assert forall|i: int| 0 <= i < rest.len() implies #[trigger] rest[i] != 37 && rest[i]
            != 43 by {
            assert(rest[i] == bytes[i + 1]);
        }
        lemma_plain_bytes_stay(rest);
        assert(percent_decoded(bytes) =~= bytes);
    }
}

proof fn lemma_plain_bytes(s: Seq<char>)
    requires
        !s.contains('+'),
        !s.contains('%'),
    ensures
        forall|i: int|
            0 <= i < encode_utf8(s).len() ==> #[trigger] encode_utf8(s)[i] != 37 && encode_utf8(
                s,
            )[i] != 43,
    decreases s.len(),
{
    if s.len() > 0 {
        let c = s[0];
        let rest = s.drop_first();
        assert(c != '+' && c != '%') by {
            assert(s.contains(s[0]));
        }
        assert(!rest.contains('+') && !rest.contains('%')) by {
            assert forall|i: int| 0 <= i < rest.len() implies rest[i] != '+' && rest[i] != '%' by {
                assert(rest[i] == s[i + 1]);
                assert(s.contains(s[i + 1]));
            }
        }
        lemma_plain_bytes(rest);
        let head = encode_scalar(c as u32);
        char_is_scalar(c);
        char_u32_cast(c, c as u32);
        assert(encode_utf8(s) =~= head + encode_utf8(rest));
        assert forall|i: int| 0 <= i < head.len() implies #[trigger] head[i] != 37 && head[i]
            != 43 by {
            lemma_scalar_bytes(c as u32);
        }
    }
}

/// The bytes of a scalar are those of ASCII only where it is ASCII.
proof fn lemma_scalar_bytes(v: u32)
    requires
        is_scalar(v),
        v != 37,
        v != 43,
    ensures
        forall|i: int|
            0 <= i < encode_scalar(v).len() ==> #[trigger] encode_scalar(v)[i] != 37
                && encode_scalar(v)[i] != 43,
{
    if has_width_1_encoding(v) {
        assert((v & 0x7f) as u8 == v as u8) by (bit_vector)
            requires
                v <= 0x7f,
        ;
    } else {
        assert(forall|b: u8| #[trigger] (0x80u8 | b) >= 0x80) by (bit_vector);
        assert(forall|b: u8| #[trigger] (0xc0u8 | b) >= 0x80) by (bit_vector);
        assert(forall|b: u8| #[trigger] (0xe0u8 | b) >= 0x80) by (bit_vector);
        assert(forall|b: u8| #[trigger] (0xf0u8 | b) >= 0x80) by (bit_vector);
    }
}

/// A percent sign and two hexadecimal digits stand for the byte with that value.
pub proof fn law_escapes_stand_for_bytes(h: u8, l: u8, rest: Seq<u8>)
    requires
        hex_value(h) is Some,
        hex_value(l) is Some,
    ensures
        percent_decoded(seq![37u8, h, l] + rest) == seq![
            (hex_value(h)->0 * 16 + hex_value(l)->0) as u8,
        ] + percent_decoded(rest),
{
    let s = seq![37u8, h, l] + rest;
    assert(escaped(s));
    assert(s.skip(3) =~= rest);
}

/// Hexadecimal digits are the decimal ones and the first six letters, in either case. Nothing else
/// is one.
pub proof fn law_hex_digits(b: u8, n: u8)
    ensures
        n < 10 ==> hex_value((48 + n) as u8) == Some(n),
        10 <= n < 16 ==> hex_value((97 + n - 10) as u8) == Some(n) && hex_value(
            (65 + n - 10) as u8,
        ) == Some(n),
        hex_value(b) is Some ==> 48 <= b <= 57 || 65 <= b <= 70 || 97 <= b <= 102,
{
}

/// What is not an escape stands for itself, except that a plus sign stands for a space. A percent
/// sign without two hexadecimal digits behind it is none.
pub proof fn law_other_bytes_stand_for_themselves(b: u8, rest: Seq<u8>)
    ensures
        b != 37 && b != 43 ==> percent_decoded(seq![b] + rest) == seq![b] + percent_decoded(rest),
        percent_decoded(seq![43u8] + rest) == seq![32u8] + percent_decoded(rest),
        rest.len() < 2 || hex_value(rest[0]) is None || hex_value(rest[1]) is None
            ==> percent_decoded(seq![37u8] + rest) == seq![37u8] + percent_decoded(rest),
        percent_decoded(Seq::empty()).len() == 0,
{
    let s = seq![b] + rest;
    assert(s.skip(1) =~= rest);
    let plus = seq![43u8] + rest;
    assert(plus.skip(1) =~= rest);
    let percent = seq![37u8] + rest;
    assert(percent.skip(1) =~= rest);
}

/// The value of a parameter is that of the first one with its name, and there is none only if no
/// parameter has the name.
pub proof fn law_the_first_parameter_counts(
    pairs: Seq<(Seq<char>, Seq<char>)>,
    name: Seq<char>,
    i: int,
)
    ensures
        0 <= i < pairs.len() && pairs[i].0 == name && (forall|j: int|
            0 <= j < i ==> (#[trigger] pairs[j]).0 != name) ==> value_of(pairs, name) == Some(
            pairs[i].1,
        ),
        (forall|j: int| 0 <= j < pairs.len() ==> (#[trigger] pairs[j]).0 != name) ==> value_of(
            pairs,
            name,
        ) is None,
    decreases pairs.len(),
{
    if pairs.len() > 0 {
        let rest = pairs.skip(1);
        law_the_first_parameter_counts(rest, name, i - 1);
        if forall|j: int| 0 <= j < i ==> (#[trigger] pairs[j]).0 != name {
            assert forall|j: int| 0 <= j < i - 1 && j < rest.len() implies (#[trigger] rest[j]).0
                != name by {
                assert(rest[j] == pairs[j + 1]);
            }
        }
        if forall|j: int| 0 <= j < pairs.len() ==> (#[trigger] pairs[j]).0 != name {
            assert(pairs[0].0 != name);
            assert forall|j: int| 0 <= j < rest.len() implies (#[trigger] rest[j]).0 != name by {
                assert(rest[j] == pairs[j + 1]);
            }
        }
        if 0 < i < pairs.len() {
            assert(rest[i - 1] == pairs[i]);
            if forall|j: int| 0 <= j < i ==> (#[trigger] pairs[j]).0 != name {
                assert(pairs[0].0 != name);
            }
        }
    }
}

/// The name of a parameter ends, and its value begins, at the first `=`. Both are decoded. Without
/// one the value is empty.
pub proof fn law_parameters_are_names_and_values(name: Seq<char>, value: Seq<char>)
    requires
        !name.contains('='),
    ensures
        decoded_pair(name.push('=') + value) == (url_decoded(name), url_decoded(value)),
        decoded_pair(name) == (url_decoded(name), url_decoded(Seq::empty())),
{
    let kv = name.push('=') + value;
    text::law_split_at_the_first(kv, '=');
    assert(kv[name.len() as int] == '=');
    let b = before(kv, '=');
    let v = after(kv, '=');
    let back = b.push('=') + v;
    assert(kv == back);
    if b.len() < name.len() {
        assert(back[b.len() as int] == '=');
        assert(kv[b.len() as int] == name[b.len() as int]);
    } else if b.len() > name.len() {
        assert(back[name.len() as int] == b[name.len() as int]);
        assert(b.contains('='));
    }
    assert(b =~= name) by {
        assert forall|i: int| 0 <= i < name.len() implies b[i] == name[i] by {
            assert(kv[i] == name[i] && back[i] == b[i]);
        }
    }
    assert(v =~= value) by {
        assert forall|i: int| 0 <= i < value.len() implies v[i] == value[i] by {
            assert(kv[name.len() + 1 + i] == value[i]);
            assert(back[name.len() + 1 + i] == v[i]);
        }
    }
}

/// A parameter that is written into a query is found in it: the first one of a request, and any
/// later one if none before it has its name.
pub proof fn law_written_parameters_are_found(
    path: Seq<char>,
    name: Seq<char>,
    value: Seq<char>,
    other: Seq<char>,
    what: Seq<char>,
)
    requires
        !path.contains('?'),
        forall|c: char| c == '&' || c == '=' || c == '+' || c == '%' ==> !(#[trigger] name.contains(
            c,
        )) && !value.contains(c) && !other.contains(c) && !what.contains(c),
        name != other,
    ensures
        ({
            let wanted = name.push('=') + value;
            let before = other.push('=') + what;
            &&& param(path.push('?') + wanted, name) == Some(value)
            &&& param(path.push('?') + (before.push('&') + wanted), name) == Some(value)
            &&& param(path.push('?') + before, name) is None
            &&& param(path, name) is None
        }),
{
    assert(!name.contains('&') && !name.contains('=') && !name.contains('+') && !name.contains(
        '%',
    ));
    let wanted = name.push('=') + value;
    let first = other.push('=') + what;
    law_parameters_are_names_and_values(name, value);
    law_parameters_are_names_and_values(other, what);
    law_plain_text_stands_for_itself(name);
    law_plain_text_stands_for_itself(value);
    law_plain_text_stands_for_itself(other);
    law_plain_text_stands_for_itself(what);
    lemma_no_ampersand(name, value);
    lemma_no_ampersand(other, what);
    text::lemma_one_piece(wanted, '&');
    text::lemma_one_piece(first, '&');
    text::lemma_two_pieces(first, '&', wanted);
    lemma_query_of(path, wanted);
    lemma_query_of(path, first);
    lemma_query_of(path, first.push('&') + wanted);
    assert(parameters(wanted) =~= seq![(name, value)]);
    assert(parameters(first) =~= seq![(other, what)]);
    let both = parameters(first.push('&') + wanted);
    assert(both =~= seq![(other, what), (name, value)]);
    assert(parameters(wanted)[0] == (name, value));
    assert(parameters(first)[0] == (other, what));
    law_the_first_parameter_counts(parameters(wanted), name, 0);
    law_the_first_parameter_counts(parameters(first), name, 0);
    law_the_first_parameter_counts(both, name, 1);
}

proof fn lemma_no_ampersand(name: Seq<char>, value: Seq<char>)
    requires
        !name.contains('&'),
        !value.contains('&'),
    ensures
        !(name.push('=') + value).contains('&'),
{
    let s = name.push('=') + value;
    assert forall|i: int| 0 <= i < s.len() implies s[i] != '&' by {
        if i < name.len() {
            assert(s[i] == name[i]);
            assert(name.contains(name[i]));
        } else if i > name.len() {
            assert(s[i] == value[i - name.len() - 1]);
            assert(value.contains(value[i - name.len() - 1]));
        }
    }
}

/// The query is what is behind the first question mark.
pub(crate) proof fn lemma_query_of(path: Seq<char>, query: Seq<char>)
    requires
        !path.contains('?'),
    ensures
        (path.push('?') + query).contains('?'),
        after(path.push('?') + query, '?') == query,
{
    let s = path.push('?') + query;
    assert(s[path.len() as int] == '?');
    text::lemma_find(s, '?');
    let f = text::find(s, '?') as int;
    if f < path.len() {
        assert(path[f] == s[f]);
        assert(path.contains(path[f]));
    }
    assert(f == path.len());
    assert(after(s, '?') =~= query);
}

} // verus!
