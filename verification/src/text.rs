//! Character-level text helpers shared by the catalog parsers: Unicode
//! whitespace trimming, ASCII lower-casing, decimal parsing and decimal
//! formatting.

use vstd::prelude::*;

verus! {

/// `String::push` appends one character.
pub assume_specification[ String::push ](s: &mut String, ch: char)
    ensures
        final(s)@ == old(s)@.push(ch),
;

/// The characters of a string slice, in order.
pub fn chars_of(s: &str) -> (v: Vec<char>)
    ensures
        v@ == s@,
{
    let n = s.unicode_len();
    let mut v: Vec<char> = Vec::new();
    let mut i: usize = 0;
    while i < n
        invariant
            n == s@.len(),
            i <= n,
            v@ == s@.take(i as int),
        decreases n - i,
    {
        let c = s.get_char(i);
        v.push(c);
        assert(s@.take(i + 1) =~= s@.take(i as int).push(c));
        i = i + 1;
    }
    assert(s@.take(n as int) =~= s@);
    v
}

/// A string holding exactly the given characters.
pub fn string_of(v: &[char]) -> (s: String)
    ensures
        s@ == v@,
{
    let mut s = String::new();
    let mut i: usize = 0;
    while i < v.len()
        invariant
            i <= v@.len(),
            s@ == v@.take(i as int),
        decreases v@.len() - i,
    {
        s.push(v[i]);
        assert(v@.take(i + 1) =~= v@.take(i as int).push(v@[i as int]));
        i = i + 1;
    }
    assert(v@.take(v@.len() as int) =~= v@);
    s
}

/// Appends the characters of `t` to `s`.
pub fn push_str_chars(s: &mut String, t: &str)
    ensures
        final(s)@ == old(s)@ + t@,
{
    let v = chars_of(t);
    let ghost start = s@;
    let mut i: usize = 0;
    while i < v.len()
        invariant
            i <= v@.len(),
            v@ == t@,
            s@ == start + v@.take(i as int),
        decreases v@.len() - i,
    {
        s.push(v[i]);
        assert(v@.take(i + 1) =~= v@.take(i as int).push(v@[i as int]));
        assert(start + v@.take(i + 1) =~= (start + v@.take(i as int)).push(v@[i as int]));
        i = i + 1;
    }
    assert(v@.take(v@.len() as int) =~= v@);
}

} // verus!

verus! {

/// Unicode `White_Space` characters, the set that `str::trim` and
/// `str::split_whitespace` treat as whitespace.
pub open spec fn is_white_space(c: char) -> bool {
    let u = c as u32;
    ||| 0x09 <= u <= 0x0D
    ||| u == 0x20
    ||| u == 0x85
    ||| u == 0xA0
    ||| u == 0x1680
    ||| 0x2000 <= u <= 0x200A
    ||| u == 0x2028
    ||| u == 0x2029
    ||| u == 0x202F
    ||| u == 0x205F
    ||| u == 0x3000
}

/// `s` without its leading whitespace.
pub open spec fn trim_start(s: Seq<char>) -> Seq<char>
    decreases s.len(),
{
    if s.len() > 0 && is_white_space(s[0]) {
        trim_start(s.drop_first())
    } else {
        s
    }
}

/// `s` without its trailing whitespace.
pub open spec fn trim_end(s: Seq<char>) -> Seq<char>
    decreases s.len(),
{
    if s.len() > 0 && is_white_space(s.last()) {
        trim_end(s.drop_last())
    } else {
        s
    }
}

/// `s` without leading and trailing whitespace (what `str::trim` returns).
pub open spec fn trim(s: Seq<char>) -> Seq<char> {
    trim_end(trim_start(s))
}

/// Exec test for [`is_white_space`].
pub fn white_space(c: char) -> (r: bool)
    ensures
        r == is_white_space(c),
{
    let u = c as u32;
    (0x09 <= u && u <= 0x0D) || u == 0x20 || u == 0x85 || u == 0xA0 || u == 0x1680 || (0x2000 <= u
        && u <= 0x200A) || u == 0x2028 || u == 0x2029 || u == 0x202F || u == 0x205F || u == 0x3000
}

/// Bounds `(a, b)` such that `v[a..b]` is `v[lo..hi]` trimmed of
/// whitespace on both ends.
pub fn trim_bounds(v: &[char], lo: usize, hi: usize) -> (r: (usize, usize))
    requires
        lo <= hi <= v@.len(),
    ensures
        lo <= r.0 <= r.1 <= hi,
        v@.subrange(r.0 as int, r.1 as int) == trim(v@.subrange(lo as int, hi as int)),
{
    let mut a = lo;
    while a < hi && white_space(v[a])
        invariant
            lo <= a <= hi <= v@.len(),
            trim_start(v@.subrange(lo as int, hi as int)) == trim_start(v@.subrange(a as int, hi as int)),
        decreases hi - a,
    {
        assert(v@.subrange(a as int, hi as int).drop_first() =~= v@.subrange(a + 1, hi as int));
        a = a + 1;
    }
    let mut b = hi;
    while b > a && white_space(v[b - 1])
        invariant
            lo <= a <= b <= hi <= v@.len(),
            trim_end(v@.subrange(a as int, hi as int)) == trim_end(v@.subrange(a as int, b as int)),
        decreases b - a,
    {
        assert(v@.subrange(a as int, b as int).drop_last() =~= v@.subrange(a as int, b - 1));
        b = b - 1;
    }
    (a, b)
}

/// `trim_start(s)` is a suffix of `s` that is empty or starts with a
/// non-whitespace character, and it is `s` itself when `s` does not start
/// with whitespace.
pub(crate) proof fn lemma_trim_start_shape(s: Seq<char>)
    ensures
        trim_start(s).len() <= s.len(),
        trim_start(s) == s.subrange(s.len() - trim_start(s).len(), s.len() as int),
        trim_start(s).len() > 0 ==> !is_white_space(trim_start(s)[0]),
        (s.len() == 0 || !is_white_space(s[0])) ==> trim_start(s) == s,
        (s.len() > 0 && is_white_space(s[0])) ==> trim_start(s) == trim_start(s.drop_first()),
    decreases s.len(),
{
    if s.len() > 0 && is_white_space(s[0]) {
        lemma_trim_start_shape(s.drop_first());
        let t = trim_start(s.drop_first());
        assert(s.drop_first().subrange(s.len() - 1 - t.len(), s.len() - 1) =~= s.subrange(
            s.len() - t.len(),
            s.len() as int,
        ));
    } else {
        assert(s.subrange(0, s.len() as int) =~= s);
    }
}

/// `trim_end(s)` is a prefix of `s` that is empty or ends with a
/// non-whitespace character, and it is `s` itself when `s` does not end
/// with whitespace.
pub(crate) proof fn lemma_trim_end_shape(s: Seq<char>)
    ensures
        trim_end(s).len() <= s.len(),
        trim_end(s) == s.subrange(0, trim_end(s).len() as int),
        trim_end(s).len() > 0 ==> !is_white_space(trim_end(s).last()),
        (s.len() == 0 || !is_white_space(s.last())) ==> trim_end(s) == s,
    decreases s.len(),
{
    if s.len() > 0 && is_white_space(s.last()) {
        lemma_trim_end_shape(s.drop_last());
        let t = trim_end(s.drop_last());
        assert(s.drop_last().subrange(0, t.len() as int) =~= s.subrange(0, t.len() as int));
    } else {
        assert(s.subrange(0, s.len() as int) =~= s);
    }
}

/// A trimmed text is empty or has non-whitespace characters at both ends,
/// and it is as long as the text it came from at most.
pub(crate) proof fn lemma_trim_ends(s: Seq<char>)
    ensures
        trim(s).len() <= s.len(),
        trim(s).len() > 0 ==> !is_white_space(trim(s)[0]) && !is_white_space(trim(s).last()),
{
    lemma_trim_start_shape(s);
    let a = trim_start(s);
    lemma_trim_end_shape(a);
    if trim(s).len() > 0 {
        assert(trim(s)[0] == a[0]);
    }
}

/// A text with non-whitespace characters at both ends is its own trim.
pub(crate) proof fn lemma_trim_fixed(s: Seq<char>)
    requires
        s.len() == 0 || (!is_white_space(s[0]) && !is_white_space(s.last())),
    ensures
        trim(s) == s,
{
    lemma_trim_start_shape(s);
    lemma_trim_end_shape(s);
}

/// The ASCII lower-case form of a character (other characters unchanged).
pub open spec fn ascii_lower(c: char) -> char {
    if 'A' <= c <= 'Z' {
        ((c as u32) + 32) as char
    } else {
        c
    }
}

/// The ASCII lower-case form of a character sequence
/// (what `str::to_ascii_lowercase` returns).
pub open spec fn ascii_lowercase(s: Seq<char>) -> Seq<char> {
    s.map_values(|c: char| ascii_lower(c))
}

/// Exec form of [`ascii_lower`].
pub fn lower_char(c: char) -> (r: char)
    ensures
        r == ascii_lower(c),
{
    if 'A' <= c && c <= 'Z' {
        let b = (c as u8) + 32;
        b as char
    } else {
        c
    }
}

/// The ASCII lower-case form of `v[lo..hi]` as a new `String`.
pub fn lowercase_string(v: &[char], lo: usize, hi: usize) -> (s: String)
    requires
        lo <= hi <= v@.len(),
    ensures
        s@ == ascii_lowercase(v@.subrange(lo as int, hi as int)),
{
    let mut s = String::new();
    let mut i = lo;
    while i < hi
        invariant
            lo <= i <= hi <= v@.len(),
            s@ == ascii_lowercase(v@.subrange(lo as int, i as int)),
        decreases hi - i,
    {
        let c = lower_char(v[i]);
        s.push(c);
        assert(ascii_lowercase(v@.subrange(lo as int, i + 1)) =~= ascii_lowercase(
            v@.subrange(lo as int, i as int),
        ).push(c));
        i = i + 1;
    }
    s
}

/// The characters `v[lo..hi]` as a new `String`.
pub fn substring(v: &[char], lo: usize, hi: usize) -> (s: String)
    requires
        lo <= hi <= v@.len(),
    ensures
        s@ == v@.subrange(lo as int, hi as int),
{
    let mut s = String::new();
    let mut i = lo;
    while i < hi
        invariant
            lo <= i <= hi <= v@.len(),
            s@ == v@.subrange(lo as int, i as int),
        decreases hi - i,
    {
        s.push(v[i]);
        assert(v@.subrange(lo as int, i + 1) =~= v@.subrange(lo as int, i as int).push(v@[i as int]));
        i = i + 1;
    }
    s
}

} // verus!

verus! {

/// An ASCII decimal digit.
pub open spec fn is_digit(c: char) -> bool {
    '0' <= c <= '9'
}

/// The numeric value of an ASCII digit.
pub open spec fn digit_value(c: char) -> nat {
    ((c as u32) - ('0' as u32)) as nat
}

/// The ASCII digit for a value below ten.
pub open spec fn digit_char(d: nat) -> char {
    (('0' as u32) + d) as char
}

/// Every character of `s` is an ASCII digit.
pub open spec fn all_digits(s: Seq<char>) -> bool {
    forall|i: int| 0 <= i < s.len() ==> is_digit(#[trigger] s[i])
}

/// The value of a string of decimal digits, most significant first.
pub open spec fn digits_value(s: Seq<char>) -> nat
    decreases s.len(),
{
    if s.len() == 0 {
        0
    } else {
        digits_value(s.drop_last()) * 10 + digit_value(s.last())
    }
}

/// What `str::parse::<u64>` returns: an optional leading `+` followed by at
/// least one ASCII digit, with a value that fits in 64 bits.
pub open spec fn parse_u64_spec(s: Seq<char>) -> Option<u64> {
    let d = if s.len() > 1 && s[0] == '+' {
        s.drop_first()
    } else {
        s
    };
    if d.len() > 0 && all_digits(d) && digits_value(d) <= u64::MAX {
        Some(digits_value(d) as u64)
    } else {
        None
    }
}

/// The decimal representation of `n`, without leading zeros.
pub open spec fn decimal(n: nat) -> Seq<char>
    decreases n,
{
    if n < 10 {
        seq![digit_char(n)]
    } else {
        decimal(n / 10).push(digit_char(n % 10))
    }
}

proof fn lemma_digits_value_prefix(s: Seq<char>, k: int)
    requires
        0 <= k <= s.len(),
    ensures
        digits_value(s.take(k)) <= digits_value(s),
    decreases s.len(),
{
    if k < s.len() {
        assert(s.drop_last().take(k) =~= s.take(k));
        lemma_digits_value_prefix(s.drop_last(), k);
    } else {
        assert(s.take(k) =~= s);
    }
}

/// Parse `v[lo..hi]` as `str::parse::<u64>` does.
pub fn parse_u64(v: &[char], lo: usize, hi: usize) -> (r: Option<u64>)
    requires
        lo <= hi <= v@.len(),
    ensures
        r == parse_u64_spec(v@.subrange(lo as int, hi as int)),
{
    let ghost s = v@.subrange(lo as int, hi as int);
    let mut start = lo;
    if hi - lo > 1 && v[lo] == '+' {
        start = lo + 1;
        assert(v@.subrange(start as int, hi as int) =~= s.drop_first());
    } else {
        assert(v@.subrange(start as int, hi as int) =~= s);
    }
    let ghost d = v@.subrange(start as int, hi as int);
    if start == hi {
        return None;
    }
    let mut i = start;
    while i < hi
        invariant
            lo <= start <= i <= hi <= v@.len(),
            s == v@.subrange(lo as int, hi as int),
            d == v@.subrange(start as int, hi as int),
            d == (if s.len() > 1 && s[0] == '+' {
                s.drop_first()
            } else {
                s
            }),
            forall|j: int| start <= j < i ==> is_digit(#[trigger] v@[j]),
        decreases hi - i,
    {
        if !('0' <= v[i] && v[i] <= '9') {
            assert(!is_digit(d[i - start]));
            return None;
        }
        i = i + 1;
    }
    assert(all_digits(d)) by {
        assert forall|j: int| 0 <= j < d.len() implies is_digit(#[trigger] d[j]) by {
            assert(d[j] == v@[start + j]);
        }
    }
    let mut value: u64 = 0;
    let mut i = start;
    while i < hi
        invariant
            lo <= start <= i <= hi <= v@.len(),
            s == v@.subrange(lo as int, hi as int),
            d == v@.subrange(start as int, hi as int),
            d == (if s.len() > 1 && s[0] == '+' {
                s.drop_first()
            } else {
                s
            }),
            d.len() > 0,
            all_digits(d),
            value == digits_value(d.take(i - start)),
        decreases hi - i,
    {
        assert(d[i - start] == v@[i as int]);
        assert(is_digit(d[i - start]));
        let digit = (v[i] as u32 - '0' as u32) as u64;
        let ghost pre = d.take(i - start);
        let ghost next = d.take(i - start + 1);
        assert(next.drop_last() =~= pre);
        assert(next.last() == v@[i as int]);
        if value > (u64::MAX - digit) / 10 {
            proof {
                assert(digits_value(next) == value * 10 + digit);
                assert(value * 10 + digit > u64::MAX) by (nonlinear_arith)
                    requires
                        value > (u64::MAX - digit) / 10,
                        digit <= 9,
                ;
                lemma_digits_value_prefix(d, i - start + 1);
            }
            return None;
        }
        assert(value * 10 + digit <= u64::MAX) by (nonlinear_arith)
            requires
                value <= (u64::MAX - digit) / 10,
                digit <= 9,
        ;
        value = value * 10 + digit;
        i = i + 1;
    }
    assert(d.take(hi - start) =~= d);
    Some(value)
}

/// Appends the decimal representation of `n` to `s`.
pub fn push_decimal(s: &mut String, n: u64)
    ensures
        final(s)@ == old(s)@ + decimal(n as nat),
    decreases n,
{
    if n >= 10 {
        push_decimal(s, n / 10);
    }
    let d = (n % 10) as u8;
    let c = (48u8 + d) as char;
    assert(c == digit_char((n % 10) as nat));
    s.push(c);
    assert(decimal(n as nat) == if n < 10 {
        seq![digit_char(n as nat)]
    } else {
        decimal((n / 10) as nat).push(digit_char((n % 10) as nat))
    });
    assert(old(s)@ + decimal(n as nat) =~= final(s)@);
}

/// The decimal representation of `n` as a new `String`.
pub fn decimal_string(n: u64) -> (s: String)
    ensures
        s@ == decimal(n as nat),
{
    let mut s = String::new();
    push_decimal(&mut s, n);
    assert(Seq::<char>::empty() + decimal(n as nat) =~= decimal(n as nat));
    s
}

pub(crate) proof fn lemma_decimal_digits(n: nat)
    ensures
        all_digits(decimal(n)),
        decimal(n).len() > 0,
        digits_value(decimal(n)) == n,
        decimal(n)[0] != '+',
    decreases n,
{
    assert(digit_value(digit_char(n % 10)) == n % 10);
    if n >= 10 {
        lemma_decimal_digits(n / 10);
        let d = decimal(n / 10).push(digit_char(n % 10));
        assert(d.drop_last() =~= decimal(n / 10));
        assert(d[0] == decimal(n / 10)[0]);
        assert(d == decimal(n));
        assert(digits_value(d) == digits_value(d.drop_last()) * 10 + digit_value(d.last()));
    } else {
        assert(decimal(n).drop_last() =~= Seq::<char>::empty());
        assert(digits_value(decimal(n)) == digits_value(decimal(n).drop_last()) * 10 + digit_value(
            decimal(n).last(),
        ));
    }
}

/// Formatting a number in decimal and parsing it back gives the number.
pub proof fn law_decimal_round_trip(n: u64)
    ensures
        parse_u64_spec(decimal(n as nat)) == Some(n),
{
    lemma_decimal_digits(n as nat);
}

} // verus!

verus! {

/// Whether `v[lo..hi]` holds exactly the characters of `lit`.
pub fn slice_equals(v: &[char], lo: usize, hi: usize, lit: &str) -> (r: bool)
    requires
        lo <= hi <= v@.len(),
    ensures
        r == (v@.subrange(lo as int, hi as int) == lit@),
{
    let n = lit.unicode_len();
    if hi - lo != n {
        return false;
    }
    let mut i: usize = 0;
    while i < n
        invariant
            n == lit@.len(),
            hi - lo == n,
            lo <= hi <= v@.len(),
            i <= n,
            forall|j: int| 0 <= j < i ==> v@[lo + j] == lit@[j],
        decreases n - i,
    {
        if v[lo + i] != lit.get_char(i) {
            assert(v@.subrange(lo as int, hi as int)[i as int] != lit@[i as int]);
            return false;
        }
        i = i + 1;
    }
    assert(v@.subrange(lo as int, hi as int) =~= lit@);
    true
}

/// The longest whitespace-free suffix of `s`.
pub open spec fn trailing_token(s: Seq<char>) -> Seq<char>
    decreases s.len(),
{
    if s.len() > 0 && !is_white_space(s.last()) {
        trailing_token(s.drop_last()).push(s.last())
    } else {
        Seq::empty()
    }
}

/// Start of the longest whitespace-free suffix of `v[lo..hi]`.
pub fn trailing_token_start(v: &[char], lo: usize, hi: usize) -> (r: usize)
    requires
        lo <= hi <= v@.len(),
    ensures
        lo <= r <= hi,
        v@.subrange(r as int, hi as int) == trailing_token(v@.subrange(lo as int, hi as int)),
{
    let mut a = hi;
    while a > lo && !white_space(v[a - 1])
        invariant
            lo <= a <= hi <= v@.len(),
            trailing_token(v@.subrange(lo as int, hi as int)) == trailing_token(
                v@.subrange(lo as int, a as int),
            ) + v@.subrange(a as int, hi as int),
        decreases a - lo,
    {
        let ghost pre = v@.subrange(lo as int, a as int);
        assert(pre.drop_last() =~= v@.subrange(lo as int, a - 1));
        assert(v@.subrange(a - 1, hi as int) =~= seq![pre.last()] + v@.subrange(a as int, hi as int));
        assert(trailing_token(pre) == trailing_token(pre.drop_last()).push(pre.last()));
        assert(trailing_token(v@.subrange(lo as int, a - 1)).push(pre.last()) + v@.subrange(
            a as int,
            hi as int,
        ) =~= trailing_token(v@.subrange(lo as int, a - 1)) + v@.subrange(a - 1, hi as int));
        a = a - 1;
    }
    assert(trailing_token(v@.subrange(lo as int, a as int)) =~= Seq::<char>::empty());
    assert(Seq::<char>::empty() + v@.subrange(a as int, hi as int) =~= v@.subrange(a as int, hi as int));
    a
}

} // verus!
