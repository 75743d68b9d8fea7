//! String operations over `Seq<char>` models.

use vstd::prelude::*;
use vstd::string::StringSliceAdditionalSpecFns;
use vstd::utf8::encode_utf8_decode_utf8;

verus! {

/// Whether `c` is whitespace: one of the 25 code points that have the Unicode
/// `White_Space` property.
pub open spec fn is_whitespace(c: char) -> bool {
    let u = c as u32;
    ||| 0x09 <= u <= 0x0D
    ||| u == 0x20
    ||| u == 0x85
    ||| u == 0xA0
    ||| u == 0x1680
    ||| 0x2000 <= u <= 0x200A
    ||| u == 0x2028
    ||| u == 0x2029
    ||| u == 0x202F
    ||| u == 0x205F
    ||| u == 0x3000
}

/// The lowercase form that `str::to_lowercase` gives to `s`.
pub uninterp spec fn lowercase(s: Seq<char>) -> Seq<char>;

/// `s` without its leading whitespace.
pub open spec fn trim_start(s: Seq<char>) -> Seq<char>
    decreases s.len(),
{
    if s.len() > 0 && is_whitespace(s.first()) {
        trim_start(s.drop_first())
    } else {
        s
    }
}

/// `s` without its trailing whitespace.
pub open spec fn trim_end(s: Seq<char>) -> Seq<char>
    decreases s.len(),
{
    if s.len() > 0 && is_whitespace(s.last()) {
        trim_end(s.drop_last())
    } else {
        s
    }
}

/// `s` without leading and trailing whitespace.
pub open spec fn trimmed(s: Seq<char>) -> Seq<char> {
    trim_end(trim_start(s))
}

/// Whether `needle` occurs in `hay` as a contiguous run.
pub open spec fn is_substring(hay: Seq<char>, needle: Seq<char>) -> bool {
    exists|i: int|
        0 <= i <= hay.len() - needle.len() && #[trigger] hay.subrange(i, i + needle.len())
            == needle
}

/// Whether `s` ends with `suffix`.
pub open spec fn ends_with(s: Seq<char>, suffix: Seq<char>) -> bool {
    suffix.len() <= s.len() && s.subrange(s.len() - suffix.len(), s.len() as int) == suffix
}

/// `s` without `suffix` at its end, where it ends with it.
pub open spec fn without_suffix(s: Seq<char>, suffix: Seq<char>) -> Option<Seq<char>> {
    if ends_with(s, suffix) {
        Some(s.take(s.len() - suffix.len()))
    } else {
        None
    }
}

/// Whether `c` is one of the ASCII digits `0` to `9`.
pub open spec fn is_digit(c: char) -> bool {
    '0' <= c <= '9'
}

/// Whether every character of `s` is an ASCII digit.
pub open spec fn all_digits(s: Seq<char>) -> bool {
    forall|i: int| 0 <= i < s.len() ==> is_digit(#[trigger] s[i])
}

/// The number that the ASCII digit `c` stands for.
pub open spec fn digit_value(c: char) -> nat {
    (c as u32 - '0' as u32) as nat
}

/// The number that the decimal digit string `s` writes; 0 for the empty one.
pub open spec fn digits_value(s: Seq<char>) -> nat
    decreases s.len(),
{
    if s.len() == 0 {
        0
    } else {
        digits_value(s.drop_last()) * 10 + digit_value(s.last())
    }
}

/// Whether `name` ends in a hyphen followed by exactly eight ASCII digits.
pub open spec fn has_date_suffix(name: Seq<char>) -> bool {
    &&& name.len() >= 9
    &&& name[name.len() - 9] == '-'
    &&& all_digits(name.skip(name.len() - 8))
}

/// `name` without its trailing `-YYYYMMDD`, where it has one.
pub open spec fn without_date_suffix(name: Seq<char>) -> Option<Seq<char>> {
    if has_date_suffix(name) {
        Some(name.take(name.len() - 9))
    } else {
        None
    }
}

/// The value of an unsigned decimal integer as `u64::from_str` reads it: an
/// optional `+`, then at least one digit, the value within `u64`.
pub open spec fn unsigned_value(s: Seq<char>) -> Option<u64> {
    let digits = if s.len() > 0 && s[0] == '+' {
        s.skip(1)
    } else {
        s
    };
    if digits.len() > 0 && all_digits(digits) && digits_value(digits) <= u64::MAX {
        Some(digits_value(digits) as u64)
    } else {
        None
    }
}

/// Whether `c` is whitespace.
pub fn char_is_whitespace(c: char) -> (white: bool)
    ensures
        white == is_whitespace(c),
{
    let u: u32 = c as u32;
    (0x09 <= u && u <= 0x0D) || u == 0x20 || u == 0x85 || u == 0xA0 || u == 0x1680 || (0x2000 <= u
        && u <= 0x200A) || u == 0x2028 || u == 0x2029 || u == 0x202F || u == 0x205F || u == 0x3000
}

/// `str::to_lowercase`: the lowercase form of the string. Nothing is claimed
/// beyond the name of the result.
#[verifier::external_body]
pub(crate) fn to_lowercase(s: &str) -> (lower: String)
    ensures
        lower@ == lowercase(s@),
{
    s.to_lowercase()
}

/// The characters of `s`, one by one.
pub fn chars_of_str(s: &str) -> (chars: Vec<char>)
    ensures
        chars@ == s@,
{
    let n = s.unicode_len();
    let mut chars: Vec<char> = Vec::new();
    let mut i: usize = 0;
    while i < n
        invariant
            i <= n == s@.len(),
            chars@ == s@.take(i as int),
        decreases n - i,
    {
        chars.push(s.get_char(i));
        assert(chars@ =~= s@.take(i + 1));
        i += 1;
    }
    assert(s@.take(n as int) =~= s@);
    chars
}

/// Whether `needle` stands in `hay` at the index `at`.
fn stands_at(hay: &Vec<char>, needle: &Vec<char>, at: usize) -> (found: bool)
    requires
        at + needle@.len() <= hay@.len(),
    ensures
        found == (hay@.subrange(at as int, at + needle@.len()) == needle@),
{
    let m = needle.len();
    let mut k: usize = 0;
    while k < m
        invariant
            k <= m == needle@.len(),
            at + m <= hay.len(),
            forall|j: int| 0 <= j < k ==> hay@[at + j] == needle@[j],
        decreases m - k,
    {
        if hay[at + k] != needle[k] {
            assert(hay@.subrange(at as int, at + m)[k as int] != needle@[k as int]);
            return false;
        }
        k += 1;
    }
    assert(hay@.subrange(at as int, at + m) =~= needle@);
    true
}

/// Whether the characters `needle` occur in `hay` as a contiguous run.
pub fn contains_chars(hay: &Vec<char>, needle: &Vec<char>) -> (found: bool)
    ensures
        found == is_substring(hay@, needle@),
{
    let n = hay.len();
    let m = needle.len();
    if m > n {
        return false;
    }
    let last = n - m;
    let mut at: usize = 0;
    while at < last
        invariant
            m <= n,
            n == hay@.len(),
            m == needle@.len(),
            last == n - m,
            at <= last,
            forall|i: int| 0 <= i < at ==> #[trigger] hay@.subrange(i, i + m) != needle@,
        decreases last - at,
    {
        if stands_at(hay, needle, at) {
            return true;
        }
        at += 1;
    }
    stands_at(hay, needle, last)
}

/// Whether two strings hold the same characters, told by their bytes.
pub fn str_eq(a: &str, b: &str) -> (same: bool)
    ensures
        same == (a@ == b@),
{
    let x = a.as_bytes();
    let y = b.as_bytes();
    proof {
        // Equal encodings decode to equal strings.
        encode_utf8_decode_utf8(a@);
        encode_utf8_decode_utf8(b@);
    }
    if x.len() != y.len() {
        return false;
    }
    let mut i: usize = 0;
    while i < x.len()
        invariant
            i <= x.len() == y.len(),
            x@ == a.spec_bytes(),
            y@ == b.spec_bytes(),
            forall|j: int| 0 <= j < i ==> x@[j] == y@[j],
        decreases x.len() - i,
    {
        if x[i] != y[i] {
            return false;
        }
        i += 1;
    }
    assert(x@ =~= y@);
    true
}

/// `s` without leading and trailing whitespace.
pub fn trim(s: &str) -> (t: &str)
    ensures
        t@ == trimmed(s@),
{
    let n = s.unicode_len();
    let mut a: usize = 0;
    assert(s@.skip(0) =~= s@);
    while a < n && char_is_whitespace(s.get_char(a))
        invariant
            a <= n == s@.len(),
            trim_start(s@) == trim_start(s@.skip(a as int)),
        decreases n - a,
    {
        assert(s@.skip(a as int).drop_first() =~= s@.skip(a + 1));
        a += 1;
    }
    let ghost rest = s@.skip(a as int);
    assert(trim_start(s@) == rest) by {
        if a < n {
            assert(rest.first() == s@[a as int]);
        }
    }
    let mut b: usize = n;
    assert(rest =~= s@.subrange(a as int, b as int));
    while b > a && char_is_whitespace(s.get_char(b - 1))
        invariant
            a <= b <= n == s@.len(),
            trim_end(rest) == trim_end(s@.subrange(a as int, b as int)),
        decreases b,
    {
        assert(s@.subrange(a as int, b as int).drop_last() =~= s@.subrange(a as int, b - 1));
        b -= 1;
    }
    s.substring_char(a, b)
}

/// Whether `s` ends with `suffix`, and if so, what stands before it.
pub fn strip_suffix<'a>(s: &'a str, suffix: &str) -> (base: Option<&'a str>)
    ensures
        base is Some == ends_with(s@, suffix@),
        base is Some ==> Some(base->0@) == without_suffix(s@, suffix@),
{
    let n = s.unicode_len();
    let k = suffix.unicode_len();
    if k > n {
        return None;
    }
    if str_eq(s.substring_char(n - k, n), suffix) {
        Some(s.substring_char(0, n - k))
    } else {
        None
    }
}

/// Whether every character of `s` is an ASCII digit.
pub fn is_all_digits(s: &str) -> (all: bool)
    ensures
        all == all_digits(s@),
{
    let n = s.unicode_len();
    let mut i: usize = 0;
    while i < n
        invariant
            i <= n == s@.len(),
            all_digits(s@.take(i as int)),
        decreases n - i,
    {
        let c = s.get_char(i);
        if !(c >= '0' && c <= '9') {
            return false;
        }
        assert forall|j: int| 0 <= j < i + 1 implies is_digit(#[trigger] s@.take(i + 1)[j]) by {
            if j < i {
                assert(s@.take(i as int)[j] == s@[j]);
            }
        }
        i += 1;
    }
    assert(s@.take(n as int) =~= s@);
    true
}

/// `name` without a trailing `-YYYYMMDD` version date, where it has one.
pub fn strip_date_suffix(name: &str) -> (base: Option<&str>)
    ensures
        base is Some == has_date_suffix(name@),
        base is Some ==> Some(base->0@) == without_date_suffix(name@),
{
    let n = name.unicode_len();
    if n < 9 {
        return None;
    }
    if name.get_char(n - 9) != '-' {
        return None;
    }
    let date = name.substring_char(n - 8, n);
    assert(date@ =~= name@.skip(n - 8));
    if is_all_digits(date) {
        Some(name.substring_char(0, n - 9))
    } else {
        None
    }
}

/// Appending a digit to a digit string multiplies its value by ten and adds
/// the digit.
pub proof fn lemma_digits_value_push(s: Seq<char>, c: char)
    ensures
        digits_value(s.push(c)) == digits_value(s) * 10 + digit_value(c),
{
    assert(s.push(c).drop_last() =~= s);
}

/// The value of the decimal digit string `s`; `None` when `s` is empty, holds
/// another character, or writes a number beyond `limit`.
pub fn parse_digits(s: &str, limit: u64) -> (value: Option<u64>)
    ensures
        value is Some == (s@.len() > 0 && all_digits(s@) && digits_value(s@) <= limit),
        value is Some ==> value->0 == digits_value(s@),
{
    let n = s.unicode_len();
    if n == 0 {
        return None;
    }
    let mut acc: u64 = 0;
    let mut i: usize = 0;
    while i < n
        invariant
            i <= n == s@.len(),
            all_digits(s@.take(i as int)),
            acc == digits_value(s@.take(i as int)),
            acc <= limit,
        decreases n - i,
    {
        let c = s.get_char(i);
        if !(c >= '0' && c <= '9') {
            return None;
        }
        let d: u64 = (c as u32 - '0' as u32) as u64;
        proof {
            assert(s@.take(i + 1) =~= s@.take(i as int).push(c));
            lemma_digits_value_push(s@.take(i as int), c);
            assert forall|j: int| 0 <= j < i + 1 implies is_digit(#[trigger] s@.take(i + 1)[j]) by {
                if j < i {
                    assert(s@.take(i as int)[j] == s@[j]);
                }
            }
        }
        if limit < d || acc > (limit - d) / 10 {
            proof {
                lemma_digits_value_grows(s@, i + 1);
            }
            return None;
        }
        acc = acc * 10 + d;
        i += 1;
    }
    assert(s@.take(n as int) =~= s@);
    Some(acc)
}

/// A digit string writes a number at least as large as each of its prefixes.
pub proof fn lemma_digits_value_grows(s: Seq<char>, k: int)
    requires
        0 <= k <= s.len(),
    ensures
        digits_value(s.take(k)) <= digits_value(s),
    decreases s.len() - k,
{
    if k < s.len() {
        lemma_digits_value_grows(s, k + 1);
        assert(s.take(k + 1).drop_last() =~= s.take(k));
    } else {
        assert(s.take(k) =~= s);
    }
}

/// The value of an unsigned decimal integer with an optional leading `+`.
pub fn parse_unsigned(s: &str) -> (value: Option<u64>)
    ensures
        value == unsigned_value(s@),
{
    let n = s.unicode_len();
    if n > 0 && s.get_char(0) == '+' {
        let digits = s.substring_char(1, n);
        assert(digits@ =~= s@.skip(1));
        parse_digits(digits, u64::MAX)
    } else {
        parse_digits(s, u64::MAX)
    }
}

} // verus!
