//! Text helpers: decimal rendering and parsing, trimming and splitting, over `Seq<char>` models.

use vstd::prelude::*;
use vstd::utf8::*;

verus! {

/// `String::push` appends one character at the end of the string.
pub assume_specification[ String::push ](s: &mut String, c: char)
    ensures
        final(s)@ == old(s)@.push(c),
;

/// The characters with the Unicode property `White_Space`.
pub open spec fn whitespace(c: char) -> bool {
    ||| 0x9 <= c as u32 <= 0xd
    ||| c == ' '
    ||| c as u32 == 0x85
    ||| c as u32 == 0xa0
    ||| c as u32 == 0x1680
    ||| 0x2000 <= c as u32 <= 0x200a
    ||| 0x2028 <= c as u32 <= 0x2029
    ||| c as u32 == 0x202f
    ||| c as u32 == 0x205f
    ||| c as u32 == 0x3000
}

/// True for the characters with the Unicode property `White_Space`.
pub fn is_whitespace(c: char) -> (r: bool)
    ensures
        r == whitespace(c),
{
    let n: u32 = c as u32;
    (0x9 <= n && n <= 0xd) || n == 0x20 || n == 0x85 || n == 0xa0 || n == 0x1680 || (0x2000 <= n
        && n <= 0x200a) || n == 0x2028 || n == 0x2029 || n == 0x202f || n == 0x205f || n == 0x3000
}

/// The decimal digit with value `d`.
pub open spec fn digit(d: nat) -> char {
    (('0' as u32) + d) as char
}

/// The decimal rendering of `n`, without leading zeros.
pub open spec fn dec(n: nat) -> Seq<char>
    decreases n,
{
    if n < 10 {
        seq![digit(n)]
    } else {
        dec(n / 10).push(digit(n % 10))
    }
}

/// A decimal rendering is made of digits.
pub proof fn lemma_dec_digits(n: nat)
    ensures
        dec(n).len() > 0,
        forall|i: int| 0 <= i < dec(n).len() ==> '0' <= #[trigger] dec(n)[i] <= '9',
    decreases n,
{
    if n >= 10 {
        lemma_dec_digits(n / 10);
    }
}

fn push_decimal(out: &mut String, n: u128)
    ensures
        final(out)@ == old(out)@ + dec(n as nat),
    decreases n,
{
    if n >= 10 {
        push_decimal(out, n / 10);
    }
    let d: u8 = (n % 10) as u8;
    let c: char = (48u8 + d) as char;
    assert(c == digit((n % 10) as nat));
    out.push(c);
}

/// The decimal rendering of `n`.
pub fn decimal(n: u128) -> (r: String)
    ensures
        r@ == dec(n as nat),
{
    let mut out = String::new();
    push_decimal(&mut out, n);
    assert(out@ =~= dec(n as nat));
    out
}

/// The characters of `s`.
pub fn chars_of(s: &str) -> (r: Vec<char>)
    ensures
        r@ == s@,
{
    let mut out: Vec<char> = Vec::new();
    for c in it: s.chars()
        invariant
            out@ == it.seq().take(it.index() as int),
            it.seq() == s@,
    {
        out.push(c);
        assert(out@ =~= it.seq().take(it.index() as int + 1));
    }
    assert(s@.take(s@.len() as int) =~= s@);
    out
}

/// The string without its leading whitespace.
pub open spec fn trimmed_start(s: Seq<char>) -> Seq<char>
    decreases s.len(),
{
    if s.len() > 0 && whitespace(s[0]) {
        trimmed_start(s.drop_first())
    } else {
        s
    }
}

/// The string without its trailing characters that satisfy `p`.
pub open spec fn trimmed_end_where(s: Seq<char>, p: spec_fn(char) -> bool) -> Seq<char>
    decreases s.len(),
{
    if s.len() > 0 && p(s.last()) {
        trimmed_end_where(s.drop_last(), p)
    } else {
        s
    }
}

/// The string without whitespace at either end.
pub open spec fn trimmed(s: Seq<char>) -> Seq<char> {
    trimmed_end_where(trimmed_start(s), |c: char| whitespace(c))
}

/// `s` without whitespace at either end.
pub fn trim(s: &str) -> (r: &str)
    ensures
        r@ == trimmed(s@),
{
    let chars = chars_of(s);
    let n: usize = chars.len();
    let mut from: usize = 0;
    assert(s@.skip(0) =~= s@);
    while from < n && is_whitespace(chars[from])
        invariant
            from <= n == s@.len(),
            chars@ == s@,
            trimmed_start(s@) == trimmed_start(s@.skip(from as int)),
        decreases n - from,
    {
        assert(s@.skip(from as int).drop_first() =~= s@.skip(from as int + 1));
        from += 1;
    }
    let ghost rest = s@.skip(from as int);
    let ghost p = |c: char| whitespace(c);
    let mut to: usize = n;
    assert(rest.take(n - from) =~= rest);
    while from < to && is_whitespace(chars[to - 1])
        invariant
            from <= to <= n == s@.len(),
            chars@ == s@,
            rest == s@.skip(from as int),
            p == (|c: char| whitespace(c)),
            trimmed_end_where(rest, p) == trimmed_end_where(rest.take(to - from), p),
        decreases to - from,
    {
        assert(rest.take(to - from).drop_last() =~= rest.take(to - from - 1));
        assert(rest.take(to - from).last() == chars@[to - 1]);
        to -= 1;
    }
    proof {
        let kept = rest.take(to - from);
        if kept.len() > 0 {
            assert(kept.last() == chars@[to - 1]);
        }
        assert(kept =~= s@.subrange(from as int, to as int));
    }
    s.substring_char(from, to)
}

/// `s` without the `c`s at its end.
pub fn trim_end_char(s: &str, c: char) -> (r: &str)
    ensures
        r@ == trimmed_end_where(s@, |x: char| x == c),
{
    let chars = chars_of(s);
    let ghost p = |x: char| x == c;
    let mut to: usize = chars.len();
    assert(s@.take(to as int) =~= s@);
    while 0 < to && chars[to - 1] == c
        invariant
            to <= s@.len(),
            chars@ == s@,
            p == (|x: char| x == c),
            trimmed_end_where(s@, p) == trimmed_end_where(s@.take(to as int), p),
        decreases to,
    {
        assert(s@.take(to as int).drop_last() =~= s@.take(to as int - 1));
        to -= 1;
    }
    assert(s@.take(to as int) =~= s@.subrange(0, to as int));
    s.substring_char(0, to)
}

/// The index of the first `c` in `s`, or the length of `s` if there is none.
pub open spec fn find(s: Seq<char>, c: char) -> nat
    decreases s.len(),
{
    if s.len() == 0 || s[0] == c {
        0
    } else {
        1 + find(s.drop_first(), c)
    }
}

/// `find` stays inside the string, stops at the character it looks for, and skips no other.
pub proof fn lemma_find(s: Seq<char>, c: char)
    ensures
        find(s, c) <= s.len(),
        find(s, c) < s.len() ==> s[find(s, c) as int] == c,
        forall|i: int| 0 <= i < find(s, c) ==> s[i] != c,
    decreases s.len(),
{
    if s.len() != 0 && s[0] != c {
        lemma_find(s.drop_first(), c);
        assert forall|i: int| 0 <= i < find(s, c) implies s[i] != c by {
            if i > 0 {
                assert(s[i] == s.drop_first()[i - 1]);
            }
        }
    }
}

/// The first position of `c` in `chars` at or after `from`, or the number of characters.
fn find_from(chars: &Vec<char>, from: usize, c: char) -> (r: usize)
    requires
        from <= chars@.len(),
    ensures
        r == from + find(chars@.skip(from as int), c),
        from <= r <= chars@.len(),
        r < chars@.len() ==> chars@[r as int] == c,
{
    let mut i: usize = from;
    while i < chars.len() && chars[i] != c
        invariant
            from <= i <= chars@.len(),
            from + find(chars@.skip(from as int), c) == i + find(chars@.skip(i as int), c),
        decreases chars@.len() - i,
    {
        assert(chars@.skip(i as int).drop_first() =~= chars@.skip(i as int + 1));
        i += 1;
    }
    i
}

/// The part of `s` before the first `c`, or all of `s`.
pub open spec fn before(s: Seq<char>, c: char) -> Seq<char> {
    s.take(find(s, c) as int)
}

/// The part of `s` after the first `c`; only meaningful if there is one.
pub open spec fn after(s: Seq<char>, c: char) -> Seq<char> {
    s.skip(find(s, c) as int + 1)
}

/// The two parts of `s` around its first `c`, if there is one.
pub fn split_once(s: &str, c: char) -> (r: Option<(&str, &str)>)
    ensures
        match r {
            Some(p) => s@.contains(c) && p.0@ == before(s@, c) && p.1@ == after(s@, c),
            None => !s@.contains(c),
        },
{
    let chars = chars_of(s);
    let i: usize = find_from(&chars, 0, c);
    proof {
        assert(s@.skip(0) =~= s@);
        lemma_find(s@, c);
    }
    if i < chars.len() {
        assert(s@.take(i as int) =~= s@.subrange(0, i as int));
        assert(s@.skip(i as int + 1) =~= s@.subrange(i as int + 1, s@.len() as int));
        Some((s.substring_char(0, i), s.substring_char(i + 1, chars.len())))
    } else {
        None
    }
}

/// The part of `s` before the first `c`, or all of `s`.
pub fn until_char(s: &str, c: char) -> (r: &str)
    ensures
        r@ == before(s@, c),
{
    let chars = chars_of(s);
    let i: usize = find_from(&chars, 0, c);
    assert(s@.skip(0) =~= s@);
    assert(s@.take(i as int) =~= s@.subrange(0, i as int));
    s.substring_char(0, i)
}

/// The pieces of `s` between the `c`s; one piece more than there are `c`s.
pub open spec fn pieces(s: Seq<char>, c: char) -> Seq<Seq<char>>
    decreases s.len(),
{
    if find(s, c) < s.len() {
        seq![before(s, c)] + pieces(after(s, c), c)
    } else {
        seq![s]
    }
}

/// The models of the strings in `v`.
pub open spec fn views(v: Seq<&str>) -> Seq<Seq<char>> {
    v.map_values(|s: &str| s@)
}

/// The pieces of `s` between the `c`s.
pub fn split(s: &str, c: char) -> (r: Vec<&str>)
    ensures
        views(r@) == pieces(s@, c),
        r@.len() == pieces(s@, c).len() >= 1,
        forall|i: int| 0 <= i < r@.len() ==> (#[trigger] r@[i])@ == pieces(s@, c)[i],
{
    let chars = chars_of(s);
    let n: usize = chars.len();
    let mut out: Vec<&str> = Vec::new();
    let mut from: usize = 0;
    assert(s@.skip(0) =~= s@);
    assert(views(out@) + pieces(s@, c) =~= pieces(s@, c));
    loop
        invariant_except_break
            from <= n == s@.len(),
            chars@ == s@,
            pieces(s@, c) == views(out@) + pieces(s@.skip(from as int), c),
        ensures
            pieces(s@, c) == views(out@),
            out@.len() >= 1,
        decreases n - from,
    {
        let i: usize = find_from(&chars, from, c);
        let piece = s.substring_char(from, i);
        let ghost old_out = out@;
        let ghost rest = s@.skip(from as int);
        out.push(piece);
        proof {
            lemma_find(rest, c);
            assert(views(out@) =~= views(old_out).push(piece@));
            assert(piece@ =~= before(rest, c));
        }
        if i < n {
            assert(rest.skip(i - from + 1) =~= s@.skip(i as int + 1));
            assert(pieces(s@, c) =~= views(out@) + pieces(s@.skip(i as int + 1), c));
            from = i + 1;
        } else {
            assert(before(rest, c) =~= rest);
            assert(pieces(s@, c) =~= views(out@));
            break;
        }
    }
    assert forall|i: int| 0 <= i < out@.len() implies (#[trigger] out@[i])@ == pieces(s@, c)[i] by {
        assert(views(out@)[i] == out@[i]@);
    }
    out
}

/// True if `s` begins with `prefix`.
pub fn starts_with(s: &str, prefix: &str) -> (r: bool)
    ensures
        r == prefix@.is_prefix_of(s@),
{
    let a = chars_of(s);
    let b = chars_of(prefix);
    if b.len() > a.len() {
        return false;
    }
    let mut i: usize = 0;
    while i < b.len()
        invariant
            i <= b@.len() <= a@.len(),
            a@ == s@,
            b@ == prefix@,
            forall|j: int| 0 <= j < i ==> a@[j] == b@[j],
        decreases b@.len() - i,
    {
        if a[i] != b[i] {
            assert(s@.subrange(0, b@.len() as int)[i as int] != prefix@[i as int]);
            return false;
        }
        i += 1;
    }
    assert(s@.subrange(0, b@.len() as int) =~= prefix@);
    true
}

/// True if the two strings hold the same characters.
pub fn same(a: &str, b: &str) -> (r: bool)
    ensures
        r == (a@ == b@),
{
    let x = chars_of(a);
    let y = chars_of(b);
    if x.len() != y.len() {
        return false;
    }
    let mut i: usize = 0;
    while i < x.len()
        invariant
            i <= x@.len() == y@.len(),
            x@ == a@,
            y@ == b@,
            forall|j: int| 0 <= j < i ==> x@[j] == y@[j],
        decreases x@.len() - i,
    {
        if x[i] != y[i] {
            return false;
        }
        i += 1;
    }
    assert(a@ =~= b@);
    true
}

/// True for `0` to `9`.
pub open spec fn is_digit(c: char) -> bool {
    '0' as u32 <= c as u32 <= '9' as u32
}

/// The value of a string of decimal digits.
pub open spec fn digits_value(s: Seq<char>) -> nat
    decreases s.len(),
{
    if s.len() == 0 {
        0
    } else {
        digits_value(s.drop_last()) * 10 + (s.last() as u32 - '0' as u32) as nat
    }
}

/// The digits of a number: what follows an optional plus sign.
pub open spec fn unsigned(s: Seq<char>) -> Seq<char> {
    if s.len() > 0 && s[0] == '+' {
        s.drop_first()
    } else {
        s
    }
}

/// The number that `s` denotes: one or more decimal digits after an optional plus sign.
pub open spec fn number(s: Seq<char>) -> Option<nat> {
    let d = unsigned(s);
    if d.len() > 0 && (forall|i: int| 0 <= i < d.len() ==> is_digit(#[trigger] d[i])) {
        Some(digits_value(d))
    } else {
        None
    }
}

/// The number that `s` denotes, if it is one and at most `max`.
pub open spec fn number_up_to(s: Seq<char>, max: nat) -> Option<u64> {
    match number(s) {
        Some(n) => if n <= max && n <= u64::MAX {
            Some(n as u64)
        } else {
            None
        },
        None => None,
    }
}

proof fn lemma_digits_value_prefix(s: Seq<char>, i: int)
    requires
        0 <= i <= s.len(),
    ensures
        digits_value(s.take(i)) <= digits_value(s),
    decreases s.len() - i,
{
    if i == s.len() {
        assert(s.take(i) =~= s);
    } else {
        lemma_digits_value_prefix(s, i + 1);
        assert(s.take(i + 1).drop_last() =~= s.take(i));
    }
}

/// The number that `s` denotes, if it is one and at most `max`.
pub fn parse_number(s: &str, max: u64) -> (r: Option<u64>)
    ensures
        r == number_up_to(s@, max as nat),
{
    let chars = chars_of(s);
    let n: usize = chars.len();
    let ghost d = unsigned(s@);
    let from: usize = if n > 0 && chars[0] == '+' {
        1
    } else {
        0
    };
    assert(d =~= s@.skip(from as int));
    if from == n {
        return None;
    }
    let mut value: u64 = 0;
    let mut i: usize = from;
    assert(d.take(0) =~= Seq::<char>::empty());
    while i < n
        invariant
            from <= i <= n == s@.len(),
            chars@ == s@,
            d == s@.skip(from as int),
            d == unsigned(s@),
            forall|j: int| 0 <= j < i - from ==> is_digit(#[trigger] d[j]),
            value == digits_value(d.take(i - from)),
            value <= max,
        decreases n - i,
    {
        let c: u32 = chars[i] as u32;
        assert(d[i - from] == chars@[i as int]);
        if c < 48 || c > 57 {
            assert(!is_digit(d[i - from]));
            return None;
        }
        let next: u128 = value as u128 * 10 + (c - 48) as u128;
        proof {
            assert(d.take(i - from + 1).drop_last() =~= d.take(i - from));
            assert(next == digits_value(d.take(i - from + 1)));
            lemma_digits_value_prefix(d, i - from + 1);
        }
        if next > max as u128 {
            return None;
        }
        value = next as u64;
        i += 1;
    }
    assert(d.take(n - from) =~= d);
    Some(value)
}

/// ASCII letters in lower case, every other character as it is.
pub open spec fn lower(c: char) -> char {
    if 'A' as u32 <= c as u32 <= 'Z' as u32 {
        (c as u32 + 32) as char
    } else {
        c
    }
}

/// `s` with its ASCII letters in lower case.
pub fn to_ascii_lowercase(s: &str) -> (r: String)
    ensures
        r@ == s@.map_values(|c: char| lower(c)),
{
    let chars = chars_of(s);
    let mut out = String::new();
    let mut i: usize = 0;
    while i < chars.len()
        invariant
            i <= chars@.len(),
            chars@ == s@,
            out@ == s@.take(i as int).map_values(|c: char| lower(c)),
        decreases chars@.len() - i,
    {
        let n: u32 = chars[i] as u32;
        let c: char = if 65 <= n && n <= 90 {
            (n as u8 + 32) as char
        } else {
            chars[i]
        };
        assert(c == lower(chars@[i as int]));
        out.push(c);
        assert(out@ =~= s@.take(i as int + 1).map_values(|c: char| lower(c)));
        i += 1;
    }
    assert(s@.take(s@.len() as int) =~= s@);
    out
}

/// What `String::from_utf8_lossy` makes of bytes that are not UTF-8.
pub uninterp spec fn lossy(bytes: Seq<u8>) -> Seq<char>;

/// The text that bytes stand for, as far as they are UTF-8.
pub open spec fn readable(bytes: Seq<u8>) -> Seq<char> {
    if valid_utf8(bytes) {
        decode_utf8(bytes)
    } else {
        lossy(bytes)
    }
}

/// Calls `String::from_utf8_lossy`: UTF-8 is taken as it is; other bytes give some text that
/// depends on them alone.
#[verifier::external_body]
pub(crate) fn from_utf8_lossy(bytes: &[u8]) -> (r: String)
    ensures
        r@ == if valid_utf8(bytes@) {
            decode_utf8(bytes@)
        } else {
            lossy(bytes@)
        },
{
    String::from_utf8_lossy(bytes).into_owned()
}

/// `s`, or its first `max` characters and three dots if it is longer.
pub open spec fn shortened(s: Seq<char>, max: nat) -> Seq<char> {
    if s.len() <= max {
        s
    } else {
        s.take(max as int) + "..."@
    }
}

/// Truncates to `max` characters for log lines.
pub fn short(s: &str, max: usize) -> (r: String)
    ensures
        r@ == shortened(s@, max as nat),
{
    let chars = chars_of(s);
    if chars.len() <= max {
        s.to_string()
    } else {
        let mut out = s.substring_char(0, max).to_string();
        assert(out@ =~= s@.take(max as int));
        out.append("...");
        out
    }
}

/// True for the control characters.
pub open spec fn control(c: char) -> bool {
    c as u32 <= 0x1f || 0x7f <= c as u32 <= 0x9f
}

/// `s` without its control characters.
pub fn without_controls(s: &str) -> (r: String)
    ensures
        r@ == s@.filter(|c: char| !control(c)),
{
    let chars = chars_of(s);
    let ghost p = |c: char| !control(c);
    let mut out = String::new();
    let mut i: usize = 0;
    assert(out@ =~= s@.take(0).filter(p)) by {
        reveal(Seq::filter);
    }
    while i < chars.len()
        invariant
            i <= chars@.len(),
            chars@ == s@,
            p == (|c: char| !control(c)),
            out@ == s@.take(i as int).filter(p),
        decreases chars@.len() - i,
    {
        let n: u32 = chars[i] as u32;
        proof {
            let next = s@.take(i as int + 1);
            reveal(Seq::filter);
            assert(next.drop_last() =~= s@.take(i as int));
            assert(next.last() == chars@[i as int]);
        }
        if !(n <= 0x1f || (0x7f <= n && n <= 0x9f)) {
            out.push(chars[i]);
        }
        i += 1;
    }
    assert(s@.take(s@.len() as int) =~= s@);
    out
}

/// The text that `{:?}` gives for a string.
pub uninterp spec fn quoted(s: Seq<char>) -> Seq<char>;

/// Formats a string with `{:?}`: in quotes, with escapes. The text depends on the string alone.
#[verifier::external_body]
pub(crate) fn quote(s: &str) -> (r: String)
    ensures
        r@ == quoted(s@),
{
    format!("{:?}", s)
}

/// Writing a number and reading it back gives the number.
pub proof fn law_numbers_read_back(n: nat)
    ensures
        number(dec(n)) == Some(n),
{
    lemma_dec_digits(n);
    lemma_dec_value(n);
    assert(dec(n)[0] != '+');
}

proof fn lemma_dec_value(n: nat)
    ensures
        digits_value(dec(n)) == n,
    decreases n,
{
    if n < 10 {
        assert(dec(n).drop_last() =~= Seq::<char>::empty());
        assert(digits_value(dec(n).drop_last()) == 0);
    } else {
        lemma_dec_value(n / 10);
        assert(dec(n).drop_last() =~= dec(n / 10));
    }
}

/// True if all of it is whitespace.
pub open spec fn blank(s: Seq<char>) -> bool {
    forall|i: int| 0 <= i < s.len() ==> whitespace(#[trigger] s[i])
}

proof fn lemma_trimmed_start_pad(pad: Seq<char>, s: Seq<char>)
    requires
        blank(pad),
    ensures
        trimmed_start(pad + s) == trimmed_start(s),
    decreases pad.len(),
{
    if pad.len() == 0 {
        assert(pad + s =~= s);
    } else {
        let rest = pad.drop_first();
        assert(whitespace(pad[0]));
        assert forall|i: int| 0 <= i < rest.len() implies whitespace(#[trigger] rest[i]) by {
            assert(rest[i] == pad[i + 1]);
        }
        lemma_trimmed_start_pad(rest, s);
        assert((pad + s).drop_first() =~= rest + s);
        assert((pad + s)[0] == pad[0]);
    }
}

proof fn lemma_trimmed_end_pad(s: Seq<char>, pad: Seq<char>)
    requires
        blank(pad),
    ensures
        trimmed_end_where(s + pad, |c: char| whitespace(c)) == trimmed_end_where(
            s,
            |c: char| whitespace(c),
        ),
    decreases pad.len(),
{
    if pad.len() == 0 {
        assert(s + pad =~= s);
    } else {
        let rest = pad.drop_last();
        assert(whitespace(pad[pad.len() - 1]));
        assert forall|i: int| 0 <= i < rest.len() implies whitespace(#[trigger] rest[i]) by {
            assert(rest[i] == pad[i]);
        }
        lemma_trimmed_end_pad(s, rest);
        assert((s + pad).drop_last() =~= s + rest);
        assert((s + pad).last() == pad.last());
    }
}

/// Trimming takes away whitespace around a text, and nothing of a text that neither begins nor ends
/// with it.
pub proof fn lemma_trimmed(before: Seq<char>, s: Seq<char>, after: Seq<char>)
    requires
        blank(before),
        blank(after),
        s.len() > 0,
        !whitespace(s[0]),
        !whitespace(s.last()),
    ensures
        trimmed(before + s + after) == s,
{
    assert(before + s + after =~= before + (s + after));
    lemma_trimmed_start_pad(before, s + after);
    assert((s + after)[0] == s[0]);
    lemma_trimmed_end_pad(s, after);
}

/// A text between whose parts there is one `c`, and none in them, is split into its parts.
pub proof fn lemma_two_pieces(a: Seq<char>, c: char, b: Seq<char>)
    requires
        !a.contains(c),
        !b.contains(c),
    ensures
        before(a.push(c) + b, c) == a,
        pieces(a.push(c) + b, c) == seq![a, b],
{
    let s = a.push(c) + b;
    lemma_find(s, c);
    let f = find(s, c) as int;
    assert(s[a.len() as int] == c);
    if f < a.len() {
        assert(a[f] == s[f]);
        assert(a.contains(a[f]));
    }
    assert(f == a.len());
    assert(before(s, c) =~= a);
    assert(after(s, c) =~= b);
    lemma_one_piece(b, c);
    assert(pieces(s, c) =~= seq![a, b]);
}

/// A text without any `c` is one piece.
pub proof fn lemma_one_piece(s: Seq<char>, c: char)
    requires
        !s.contains(c),
    ensures
        before(s, c) == s,
        pieces(s, c) == seq![s],
{
    lemma_find(s, c);
    if find(s, c) < s.len() {
        assert(s.contains(s[find(s, c) as int]));
    }
    assert(before(s, c) =~= s);
}

/// Which characters count as whitespace: the ASCII ones (tab to carriage return, and the space) and
/// those beyond.
pub proof fn law_whitespace(c: char)
    ensures
        ({
            let n = c as u32;
            whitespace(c) <==> n == 9 || n == 10 || n == 11 || n == 12 || n == 13 || n == 32 || n
                == 133 || n == 160 || n == 5760 || 8192 <= n <= 8202 || n == 8232 || n == 8233 || n
                == 8239 || n == 8287 || n == 12288
        }),
{
}

/// A control character is one of the first 32, the delete character or one of the 32 after it.
pub proof fn law_controls(c: char)
    ensures
        control(c) <==> (c as u32) < 32 || 127 <= c as u32 && (c as u32) < 160,
{
}

/// In lower case, the 26 capital letters of ASCII are their counterparts, and all else is itself.
pub proof fn law_lower_case(c: char)
    ensures
        65 <= c as u32 <= 90 ==> lower(c) as u32 == c as u32 + 32,
        (c as u32) < 65 || c as u32 > 90 ==> lower(c) == c,
{
    if 65 <= c as u32 <= 90 {
        let n = (c as u32 + 32) as u32;
        assert(97 <= n <= 122);
        assert((n as char) as u32 == n);
    }
}

/// A number below ten is written as its digit, and a larger one as its tenth, rounded down, and its
/// last digit.
pub proof fn law_numbers_are_written_in_decimal(n: nat, d: nat)
    requires
        d < 10,
    ensures
        dec(d).len() == 1,
        dec(d)[0] as u32 == 48 + d,
        n > 0 ==> dec(10 * n + d) == dec(n) + dec(d),
{
    let c = (48 + d) as u32;
    assert(48 <= c <= 57);
    assert((c as char) as u32 == c);
    if n > 0 {
        assert((10 * n + d) / 10 == n);
        assert((10 * n + d) % 10 == d);
        assert(dec(10 * n + d) =~= dec(n) + dec(d));
    }
}

/// A number is read digit by digit, a plus sign before it changes nothing, and anything else is no
/// number.
pub proof fn law_numbers_are_read_in_decimal(s: Seq<char>, c: char)
    ensures
        number(Seq::empty()) is None,
        number(seq!['+']) is None,
        48 <= c as u32 <= 57 ==> number(seq![c]) == Some((c as u32 - 48) as nat),
        48 <= c as u32 <= 57 ==> (number(s) matches Some(n) ==> number(s.push(c)) == Some(
            (10 * n + (c as u32 - 48)) as nat,
        )),
        s.len() > 0 && 48 <= s[0] as u32 <= 57 ==> number(seq!['+'] + s) == number(s),
        s.len() > 0 && s[0] == '+' ==> number(seq!['+'] + s) is None,
        !(48 <= c as u32 <= 57) && s.len() > 0 ==> number(s.push(c)) is None,
        !(48 <= c as u32 <= 57) ==> number(seq![c]) is None,
        (exists|i: int| 1 <= i < s.len() && !(48 <= (#[trigger] s[i]) as u32 <= 57)) ==> number(
            s,
        ) is None,
{
    let one = seq![c];
    assert(one.drop_last() =~= Seq::<char>::empty());
    assert(digits_value(Seq::<char>::empty()) == 0);
    assert(seq!['+'].drop_first() =~= Seq::<char>::empty());
    let grown = s.push(c);
    if s.len() > 0 {
        let d = unsigned(s);
        assert(unsigned(grown) =~= d.push(c));
        assert(d.push(c).drop_last() =~= d);
        assert(d.push(c).last() == c);
        if number(s) is Some && 48 <= c as u32 <= 57 {
            assert forall|i: int| 0 <= i < d.push(c).len() implies is_digit(
                #[trigger] d.push(c)[i],
            ) by {
                if i < d.len() {
                    assert(d.push(c)[i] == d[i]);
                }
            }
        }
        if !(48 <= c as u32 <= 57) {
            assert(!is_digit(d.push(c)[d.len() as int]));
        }
    }
    let signed = seq!['+'] + s;
    assert(signed.drop_first() =~= s);
    assert(signed[0] == '+');
    if s.len() > 0 && s[0] == '+' {
        assert(unsigned(signed) == s);
        assert(!is_digit(s[0]));
    }
    if !(48 <= c as u32 <= 57) && c != '+' {
        assert(unsigned(one) == one);
        assert(!is_digit(one[0]));
    }
    if exists|i: int| 1 <= i < s.len() && !(48 <= (#[trigger] s[i]) as u32 <= 57) {
        let i = choose|i: int| 1 <= i < s.len() && !(48 <= (#[trigger] s[i]) as u32 <= 57);
        let d = unsigned(s);
        if s[0] == '+' {
            assert(d[i - 1] == s[i]);
            assert(!is_digit(d[i - 1]));
        } else {
            assert(!is_digit(d[i]));
        }
    }
}

/// A number is taken exactly if it is not too large.
pub proof fn law_large_numbers_are_refused(s: Seq<char>, max: u64)
    ensures
        number(s) is None ==> number_up_to(s, max as nat) is None,
        number(s) matches Some(n) ==> {
            &&& n <= max ==> (number_up_to(s, max as nat) matches Some(v) && v == n)
            &&& n > max ==> number_up_to(s, max as nat) is None
        },
{
}

/// Trimming takes away whitespace at the two ends, all of it, and nothing else.
pub proof fn law_trimming_takes_whitespace(s: Seq<char>)
    ensures
        exists|a: Seq<char>, b: Seq<char>|
            blank(a) && blank(b) && s == #[trigger] (a + trimmed(s) + b),
        trimmed(s).len() > 0 ==> !whitespace(trimmed(s)[0]) && !whitespace(trimmed(s).last()),
{
    let p = |c: char| whitespace(c);
    let t = trimmed_start(s);
    lemma_trimmed_start(s);
    law_trimming_takes_the_end(t, p);
    let r = trimmed(s);
    let a = s.take(s.len() - t.len());
    let b = t.skip(r.len() as int);
    assert forall|i: int| 0 <= i < b.len() implies whitespace(#[trigger] b[i]) by {
        assert(b[i] == t[r.len() + i]);
        assert(p(t[r.len() + i]));
    }
    if r.len() > 0 {
        assert(r[0] == t[0]);
    }
    assert(s =~= a + r + b);
}

proof fn lemma_trimmed_start(s: Seq<char>)
    ensures
        trimmed_start(s).len() <= s.len(),
        trimmed_start(s) == s.skip(s.len() - trimmed_start(s).len()),
        blank(s.take(s.len() - trimmed_start(s).len())),
        trimmed_start(s).len() > 0 ==> !whitespace(trimmed_start(s)[0]),
    decreases s.len(),
{
    let t = trimmed_start(s);
    if s.len() > 0 && whitespace(s[0]) {
        let rest = s.drop_first();
        lemma_trimmed_start(rest);
        assert(t =~= s.skip(s.len() - t.len()));
        let pad = s.take(s.len() - t.len());
        let inner = rest.take(rest.len() - t.len());
        assert forall|i: int| 0 <= i < pad.len() implies whitespace(#[trigger] pad[i]) by {
            if i > 0 {
                assert(pad[i] == inner[i - 1]);
            }
        }
    } else {
        assert(s.skip(0) =~= s);
    }
}

/// Trimming the end takes away the characters there that are meant, all of them, and nothing else.
pub proof fn law_trimming_takes_the_end(s: Seq<char>, p: spec_fn(char) -> bool)
    ensures
        ({
            let t = trimmed_end_where(s, p);
            &&& t.len() <= s.len()
            &&& t == s.take(t.len() as int)
            &&& forall|i: int| t.len() <= i < s.len() ==> p(#[trigger] s[i])
            &&& t.len() > 0 ==> !p(t.last())
        }),
    decreases s.len(),
{
    if s.len() > 0 && p(s.last()) {
        let rest = s.drop_last();
        law_trimming_takes_the_end(rest, p);
        let t = trimmed_end_where(s, p);
        assert(t =~= s.take(t.len() as int));
        assert forall|i: int| t.len() <= i < s.len() implies p(#[trigger] s[i]) by {
            if i < rest.len() {
                assert(rest[i] == s[i]);
            }
        }
    } else {
        assert(s.take(s.len() as int) =~= s);
    }
}

/// A text falls apart at the first `c` into what is before it, which holds none, and what is after
/// it. Without any `c`, all of it is before.
pub proof fn law_split_at_the_first(s: Seq<char>, c: char)
    ensures
        !before(s, c).contains(c),
        s.contains(c) ==> s == before(s, c).push(c) + after(s, c),
        !s.contains(c) ==> before(s, c) == s,
{
    lemma_find(s, c);
    let f = find(s, c) as int;
    if s.contains(c) {
        let i = choose|i: int| 0 <= i < s.len() && s[i] == c;
        assert(f <= i);
        assert(s =~= before(s, c).push(c) + after(s, c));
    } else {
        lemma_one_piece(s, c);
    }
    assert forall|i: int| 0 <= i < before(s, c).len() implies before(s, c)[i] != c by {
        assert(before(s, c)[i] == s[i]);
    }
}

/// The text that pieces are of: the pieces with a `c` between any two of them.
pub open spec fn joined(list: Seq<Seq<char>>, c: char) -> Seq<char>
    decreases list.len(),
{
    if list.len() == 0 {
        Seq::empty()
    } else if list.len() == 1 {
        list[0]
    } else {
        list[0].push(c) + joined(list.drop_first(), c)
    }
}

/// The pieces of a text make up the text, and none of them holds what it is split at.
pub proof fn law_pieces_make_up_the_text(s: Seq<char>, c: char)
    ensures
        pieces(s, c).len() >= 1,
        joined(pieces(s, c), c) == s,
        forall|i: int| 0 <= i < pieces(s, c).len() ==> !(#[trigger] pieces(s, c)[i]).contains(c),
    decreases s.len(),
{
    law_split_at_the_first(s, c);
    lemma_find(s, c);
    if find(s, c) < s.len() {
        assert(s.contains(s[find(s, c) as int]));
        let rest = after(s, c);
        law_pieces_make_up_the_text(rest, c);
        let all = pieces(s, c);
        assert(all.drop_first() =~= pieces(rest, c));
        assert(all[0] == before(s, c));
        assert forall|i: int| 0 <= i < all.len() implies !(#[trigger] all[i]).contains(c) by {
            if i > 0 {
                assert(all[i] == pieces(rest, c)[i - 1]);
            }
        }
    } else {
        if s.contains(c) {
            let i = choose|i: int| 0 <= i < s.len() && s[i] == c;
            assert(s[i] != c);
        }
    }
}

/// A text that is short enough stays as it is. Of a longer one, the beginning is kept, as long as is
/// allowed, and three dots follow.
pub proof fn law_long_texts_are_cut(s: Seq<char>, t: Seq<char>)
    requires
        t.len() > 0,
    ensures
        shortened(s, s.len()) == s,
        shortened(s + t, s.len()) == s + "..."@,
        shortened(s, s.len() + t.len()) == s,
{
    assert((s + t).take(s.len() as int) =~= s);
}

/// Text that is written as UTF-8 is read as it is.
pub proof fn law_utf8_is_readable(s: Seq<char>)
    ensures
        readable(encode_utf8(s)) == s,
{
    encode_utf8_valid_utf8(s);
    encode_utf8_decode_utf8(s);
}

} // verus!
