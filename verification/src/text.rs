//! Character-level text helpers shared by the protocol and report code.
use vstd::prelude::*;
use vstd::string::*;
use vstd::utf8::*;

verus! {

broadcast use vstd::string::group_string_axioms;

/// Appends one character to a `String` (`String::push`).
#[verifier::external_body]
pub fn push_char(s: &mut String, c: char)
    ensures
        final(s)@ == old(s)@.push(c),
{
    s.push(c);
}

/// The characters of a string slice, in order.
pub fn chars_of(s: &str) -> (v: Vec<char>)
    ensures
        v@ == s@,
{
    let mut v: Vec<char> = Vec::new();
    for c in it: s.chars()
        invariant
            v@ == it.seq().take(it.index() as int),
            it.seq() == s@,
    {
        v.push(c);
    }
    v
}

/// A string holding the given characters.
pub fn string_of(chars: &[char]) -> (s: String)
    ensures
        s@ == chars@,
{
    let mut s = String::new();
    let mut i: usize = 0;
    while i < chars.len()
        invariant
            i <= chars.len(),
            s@ == chars@.take(i as int),
        decreases chars.len() - i,
    {
        push_char(&mut s, chars[i]);
        assert(chars@.take(i + 1) =~= chars@.take(i as int).push(chars@[i as int]));
        i += 1;
    }
    assert(chars@.take(chars.len() as int) =~= chars@);
    s
}

/// Appends the characters of `tail` to `s`.
pub fn push_all(s: &mut String, tail: &str)
    ensures
        final(s)@ == old(s)@ + tail@,
{
    let chars = chars_of(tail);
    let mut i: usize = 0;
    while i < chars.len()
        invariant
            i <= chars.len(),
            chars@ == tail@,
            s@ == old(s)@ + chars@.take(i as int),
        decreases chars.len() - i,
    {
        push_char(s, chars[i]);
        assert(chars@.take(i + 1) =~= chars@.take(i as int).push(chars@[i as int]));
        i += 1;
    }
    assert(chars@.take(chars.len() as int) =~= chars@);
}

/// An owned copy of a string slice.
pub fn owned(s: &str) -> (r: String)
    ensures
        r@ == s@,
{
    s.to_owned()
}

/// The number of bytes of the UTF-8 encoding of `s` (`str::len`).
pub fn byte_len(s: &str) -> (n: usize)
    ensures
        n == utf8_len(s@),
{
    s.as_bytes().len()
}

/// The number of bytes of the UTF-8 encoding of `c`.
pub open spec fn utf8_width(c: char) -> nat {
    encode_scalar(c as u32).len()
}

/// The number of bytes of the UTF-8 encoding of `s` (what `str::len` returns).
pub open spec fn utf8_len(s: Seq<char>) -> nat {
    encode_utf8(s).len()
}

/// UTF-8 encoding distributes over concatenation.
pub proof fn lemma_encode_concat(a: Seq<char>, b: Seq<char>)
    ensures
        encode_utf8(a + b) == encode_utf8(a) + encode_utf8(b),
    decreases a.len(),
{
    if a.len() == 0 {
        assert(a + b =~= b);
        assert(encode_utf8(a) =~= Seq::<u8>::empty());
        assert(encode_utf8(a) + encode_utf8(b) =~= encode_utf8(b));
    } else {
        assert((a + b).drop_first() =~= a.drop_first() + b);
        lemma_encode_concat(a.drop_first(), b);
        assert(encode_utf8(a + b) =~= encode_scalar(a[0] as u32) + encode_utf8(a.drop_first() + b));
        assert(encode_utf8(a) + encode_utf8(b) =~= encode_scalar(a[0] as u32) + (encode_utf8(a.drop_first()) + encode_utf8(b)));
    }
}

/// Byte length of a string extended by one character.
pub proof fn lemma_utf8_len_push(s: Seq<char>, c: char)
    ensures
        utf8_len(s.push(c)) == utf8_len(s) + utf8_width(c),
{
    lemma_encode_concat(s, seq![c]);
    assert(s.push(c) =~= s + seq![c]);
    assert(seq![c].drop_first() =~= Seq::<char>::empty());
    assert(encode_utf8(seq![c]) =~= encode_scalar(c as u32) + encode_utf8(Seq::<char>::empty()));
}

/// Byte length of a concatenation.
pub proof fn lemma_utf8_len_concat(a: Seq<char>, b: Seq<char>)
    ensures
        utf8_len(a + b) == utf8_len(a) + utf8_len(b),
{
    lemma_encode_concat(a, b);
}

/// Byte length of a prefix is at most that of the whole.
pub proof fn lemma_utf8_len_take(s: Seq<char>, n: int)
    requires
        0 <= n <= s.len(),
    ensures
        utf8_len(s.take(n)) <= utf8_len(s),
        utf8_len(s) == utf8_len(s.take(n)) + utf8_len(s.skip(n)),
{
    assert(s =~= s.take(n) + s.skip(n));
    lemma_utf8_len_concat(s.take(n), s.skip(n));
}

/// Each character takes between one and four bytes.
pub proof fn lemma_width_bounds(c: char)
    ensures
        1 <= utf8_width(c) <= 4,
{
}

/// The byte width of a character, computed from its scalar value.
pub fn width_of(c: char) -> (w: usize)
    ensures
        w == utf8_width(c),
        1 <= w <= 4,
{
    let v = c as u32;
    proof {
        broadcast use vstd::utf8::char_is_scalar;
        assert(is_scalar(c as u32));
    }
    if v <= 0x7F {
        1
    } else if v <= 0x7FF {
        2
    } else if v <= 0xFFFF {
        3
    } else {
        4
    }
}

/// The longest prefix of `s`, counted in characters, whose UTF-8 encoding
/// fits in `limit` bytes. Cutting a string there is what
/// `str::floor_char_boundary(limit)` followed by slicing does.
pub open spec fn fit_prefix(s: Seq<char>, limit: int) -> nat
    decreases s.len(),
{
    if s.len() == 0 || utf8_width(s[0]) > limit {
        0
    } else {
        1 + fit_prefix(s.drop_first(), limit - utf8_width(s[0]))
    }
}

/// `fit_prefix` never exceeds the length and its prefix fits in the limit.
pub proof fn lemma_fit_prefix(s: Seq<char>, limit: int)
    requires
        limit >= 0,
    ensures
        fit_prefix(s, limit) <= s.len(),
        utf8_len(s.take(fit_prefix(s, limit) as int)) <= limit,
        fit_prefix(s, limit) < s.len() ==> utf8_len(s.take(fit_prefix(s, limit) + 1int)) > limit,
        utf8_len(s) <= limit ==> fit_prefix(s, limit) == s.len(),
    decreases s.len(),
{
    let n = fit_prefix(s, limit);
    if s.len() == 0 {
        assert(s.take(0) =~= Seq::<char>::empty());
    } else {
        let t = s.drop_first();
        let w = utf8_width(s[0]);
        assert(s =~= seq![s[0]] + t);
        lemma_utf8_len_concat(seq![s[0]], t);
        lemma_utf8_len_push(Seq::<char>::empty(), s[0]);
        assert(seq![s[0]] =~= Seq::<char>::empty().push(s[0]));
        assert(utf8_len(Seq::<char>::empty()) == 0) by {
            assert(encode_utf8(Seq::<char>::empty()) =~= Seq::<u8>::empty());
        }
        if w > limit {
            assert(s.take(0) =~= Seq::<char>::empty());
            assert(s.take(1) =~= seq![s[0]]);
        } else {
            lemma_fit_prefix(t, limit - w);
            let m = fit_prefix(t, limit - w);
            assert(s.take(n as int) =~= seq![s[0]] + t.take(m as int));
            lemma_utf8_len_concat(seq![s[0]], t.take(m as int));
            if n < s.len() {
                assert(s.take(n + 1int) =~= seq![s[0]] + t.take(m + 1int));
                lemma_utf8_len_concat(seq![s[0]], t.take(m + 1int));
            }
        }
    }
}

/// The number of leading characters of `s` whose encoding fits in `limit`
/// bytes (see [`fit_prefix`]).
pub fn prefix_within(s: &[char], limit: usize) -> (n: usize)
    ensures
        n == fit_prefix(s@, limit as int),
{
    let mut i: usize = 0;
    let mut left: usize = limit;
    assert(s@.skip(0) =~= s@);
    while i < s.len()
        invariant
            i <= s.len(),
            left <= limit,
            fit_prefix(s@, limit as int) == i + fit_prefix(s@.skip(i as int), left as int),
        decreases s.len() - i,
    {
        assert(s@.skip(i as int).drop_first() =~= s@.skip(i + 1));
        assert(s@.skip(i as int)[0] == s@[i as int]);
        let w = width_of(s[i]);
        if w > left {
            return i;
        }
        left = left - w;
        i += 1;
    }
    i
}

/// The decimal digits of a natural number.
pub open spec fn decimal(n: nat) -> Seq<char>
    decreases n,
{
    if n < 10 {
        seq![digit_char(n)]
    } else {
        decimal(n / 10).push(digit_char(n % 10))
    }
}

/// The digit character for a value below ten.
pub open spec fn digit_char(d: nat) -> char {
    if d == 0 { '0' } else if d == 1 { '1' } else if d == 2 { '2' } else if d == 3 { '3' }
    else if d == 4 { '4' } else if d == 5 { '5' } else if d == 6 { '6' } else if d == 7 { '7' }
    else if d == 8 { '8' } else { '9' }
}

/// How a signed integer is printed: an optional minus sign and its digits.
pub open spec fn signed_decimal(n: int) -> Seq<char> {
    if n < 0 {
        seq!['-'] + decimal((-n) as nat)
    } else {
        decimal(n as nat)
    }
}

fn digit(d: u64) -> (c: char)
    requires
        d < 10,
    ensures
        c == digit_char(d as nat),
{
    if d == 0 { '0' } else if d == 1 { '1' } else if d == 2 { '2' } else if d == 3 { '3' }
    else if d == 4 { '4' } else if d == 5 { '5' } else if d == 6 { '6' } else if d == 7 { '7' }
    else if d == 8 { '8' } else { '9' }
}

/// Appends the decimal digits of `n` to `out` (as `n.to_string()` prints them).
pub fn push_decimal(out: &mut String, n: u64)
    ensures
        final(out)@ == old(out)@ + decimal(n as nat),
    decreases n,
{
    if n < 10 {
        push_char(out, digit(n));
        assert(decimal(n as nat) =~= seq![digit_char(n as nat)]);
        assert(old(out)@.push(digit_char(n as nat)) =~= old(out)@ + seq![digit_char(n as nat)]);
    } else {
        push_decimal(out, n / 10);
        push_char(out, digit(n % 10));
        assert(decimal(n as nat) == decimal((n / 10) as nat).push(digit_char((n % 10) as nat)));
        assert(old(out)@ + decimal(n as nat) =~= old(out)@ + decimal((n / 10) as nat) + seq![digit_char((n % 10) as nat)]);
    }
}

/// The decimal text of an unsigned integer (`u64::to_string`).
pub fn u64_text(n: u64) -> (s: String)
    ensures
        s@ == decimal(n as nat),
{
    let mut s = String::new();
    push_decimal(&mut s, n);
    assert(Seq::<char>::empty() + decimal(n as nat) =~= decimal(n as nat));
    s
}

/// The decimal text of a signed integer (`i64::to_string`).
pub fn i64_text(n: i64) -> (s: String)
    ensures
        s@ == signed_decimal(n as int),
{
    let mut s = String::new();
    if n < 0 {
        push_char(&mut s, '-');
        let m: u64 = if n == i64::MIN { 9223372036854775808u64 } else { (-n) as u64 };
        push_decimal(&mut s, m);
        assert(s@ =~= seq!['-'] + decimal((-n) as nat));
    } else {
        push_decimal(&mut s, n as u64);
        assert(s@ =~= decimal(n as nat));
    }
    s
}

/// `char::is_whitespace`: the Unicode `White_Space` property.
pub open spec fn is_space(c: char) -> bool {
    ||| ('\u{9}' <= c <= '\u{d}')
    ||| c == ' '
    ||| c == '\u{85}'
    ||| c == '\u{a0}'
    ||| c == '\u{1680}'
    ||| ('\u{2000}' <= c <= '\u{200a}')
    ||| c == '\u{2028}'
    ||| c == '\u{2029}'
    ||| c == '\u{202f}'
    ||| c == '\u{205f}'
    ||| c == '\u{3000}'
}

/// `char::is_whitespace`.
pub fn space(c: char) -> (r: bool)
    ensures
        r == is_space(c),
{
    ('\u{9}' <= c && c <= '\u{d}') || c == ' ' || c == '\u{85}' || c == '\u{a0}' || c == '\u{1680}'
        || ('\u{2000}' <= c && c <= '\u{200a}') || c == '\u{2028}' || c == '\u{2029}'
        || c == '\u{202f}' || c == '\u{205f}' || c == '\u{3000}'
}

/// `s.trim().is_empty()`: every character is white space.
pub open spec fn is_blank(s: Seq<char>) -> bool {
    forall|i: int| 0 <= i < s.len() ==> is_space(#[trigger] s[i])
}

/// Whether every character of `s` is white space.
pub fn blank(s: &str) -> (r: bool)
    ensures
        r == is_blank(s@),
{
    let v = chars_of(s);
    let mut i: usize = 0;
    while i < v.len()
        invariant
            v@ == s@,
            i <= v.len(),
            forall|j: int| 0 <= j < i ==> is_space(#[trigger] v@[j]),
        decreases v.len() - i,
    {
        if !space(v[i]) {
            return false;
        }
        i += 1;
    }
    true
}

/// Whether `s` contains the character `c`.
pub fn has_char(s: &str, c: char) -> (r: bool)
    ensures
        r == s@.contains(c),
{
    let v = chars_of(s);
    let mut i: usize = 0;
    while i < v.len()
        invariant
            v@ == s@,
            i <= v.len(),
            forall|j: int| 0 <= j < i ==> v@[j] != c,
        decreases v.len() - i,
    {
        if v[i] == c {
            assert(s@[i as int] == c);
            return true;
        }
        i += 1;
    }
    false
}


/// Whether `pat` occurs in `s` at position `i`.
pub open spec fn occurs_at(s: Seq<char>, pat: Seq<char>, i: int) -> bool {
    0 <= i && i + pat.len() <= s.len() && s.subrange(i, i + pat.len()) == pat
}

/// The first position at which `pat` occurs in `s` (`str::find`).
#[verifier::opaque]
pub open spec fn spec_find(s: Seq<char>, pat: Seq<char>) -> Option<int> {
    if exists|i: int| occurs_at(s, pat, i) {
        Some(choose|i: int| occurs_at(s, pat, i) && forall|j: int| 0 <= j < i ==> !occurs_at(s, pat, j))
    } else {
        None
    }
}

/// `str::contains` for a string pattern.
pub open spec fn spec_contains(s: Seq<char>, pat: Seq<char>) -> bool {
    exists|i: int| occurs_at(s, pat, i)
}

/// `str::starts_with`.
pub open spec fn spec_starts_with(s: Seq<char>, prefix: Seq<char>) -> bool {
    prefix.len() <= s.len() && s.take(prefix.len() as int) == prefix
}

/// Whether `pat` occurs in `s` at position `i`.
pub fn occurs_at_exec(s: &[char], pat: &[char], i: usize) -> (r: bool)
    requires
        i <= s.len(),
    ensures
        r == occurs_at(s@, pat@, i as int),
{
    if pat.len() > s.len() - i {
        return false;
    }
    let mut k: usize = 0;
    while k < pat.len()
        invariant
            i + pat.len() <= s.len(),
            k <= pat.len(),
            forall|j: int| 0 <= j < k ==> s@[i + j] == pat@[j],
        decreases pat.len() - k,
    {
        if s[i + k] != pat[k] {
            assert(s@.subrange(i as int, i + pat.len())[k as int] != pat@[k as int]);
            return false;
        }
        k += 1;
    }
    assert(s@.subrange(i as int, i + pat.len()) =~= pat@);
    true
}

/// The first position at which `pat` occurs in `s`.
pub fn find_chars(s: &[char], pat: &[char]) -> (r: Option<usize>)
    ensures
        match r {
            Some(i) => spec_find(s@, pat@) == Some(i as int) && occurs_at(s@, pat@, i as int),
            None => spec_find(s@, pat@) is None && !spec_contains(s@, pat@),
        },
{
    reveal(spec_find);
    let mut i: usize = 0;
    loop
        invariant
            i <= s.len(),
            forall|j: int| 0 <= j < i ==> !occurs_at(s@, pat@, j),
        ensures
            forall|j: int| 0 <= j <= s.len() ==> !occurs_at(s@, pat@, j),
        decreases s.len() - i,
    {
        if occurs_at_exec(s, pat, i) {
            proof {
                reveal(spec_find);
                let w = choose|w: int| occurs_at(s@, pat@, w) && forall|j: int| 0 <= j < w ==> !occurs_at(s@, pat@, j);
                assert(occurs_at(s@, pat@, i as int) && forall|j: int| 0 <= j < i ==> !occurs_at(s@, pat@, j));
                if w < i {
                } else if w > i {
                    assert(!occurs_at(s@, pat@, i as int));
                }
                assert(w == i);
            }
            return Some(i);
        }
        if i == s.len() {
            break;
        }
        i += 1;
    }
    proof {
        assert forall|j: int| !occurs_at(s@, pat@, j) by {
            if 0 <= j <= s.len() {
            } else if j > s.len() {
                assert(j + pat@.len() > s@.len());
            }
        }
    }
    None
}

/// Whether `pat` occurs in `s`.
pub fn contains_str(s: &str, pat: &str) -> (r: bool)
    ensures
        r == spec_contains(s@, pat@),
{
    let a = chars_of(s);
    let b = chars_of(pat);
    find_chars(a.as_slice(), b.as_slice()).is_some()
}

/// Whether `s` starts with `prefix`.
pub fn starts_with(s: &str, prefix: &str) -> (r: bool)
    ensures
        r == spec_starts_with(s@, prefix@),
{
    let a = chars_of(s);
    let b = chars_of(prefix);
    if b.len() > a.len() {
        return false;
    }
    let r = occurs_at_exec(a.as_slice(), b.as_slice(), 0);
    proof {
        assert(a@.subrange(0, b@.len() as int) =~= a@.take(b@.len() as int));
    }
    r
}

/// ASCII lower-casing of one character (`char::to_ascii_lowercase`).
pub open spec fn ascii_lower(c: char) -> char {
    if 'A' <= c <= 'Z' { ((c as u32) + 32) as char } else { c }
}

/// `str::to_ascii_lowercase`.
pub open spec fn spec_lowercase(s: Seq<char>) -> Seq<char> {
    Seq::new(s.len(), |i: int| ascii_lower(s[i]))
}

/// The ASCII lower-case form of a text.
pub fn lowercase(s: &[char]) -> (r: Vec<char>)
    ensures
        r@ == spec_lowercase(s@),
{
    let mut out: Vec<char> = Vec::new();
    let mut i: usize = 0;
    while i < s.len()
        invariant
            i <= s.len(),
            out@.len() == i,
            forall|j: int| 0 <= j < i ==> out@[j] == ascii_lower(s@[j]),
        decreases s.len() - i,
    {
        let c = s[i];
        let l = if 'A' <= c && c <= 'Z' { ((c as u32) + 32) as u8 as char } else { c };
        proof {
            if 'A' <= c && c <= 'Z' {
                assert(((c as u32) + 32) as u8 as char == ((c as u32) + 32) as char);
            }
        }
        out.push(l);
        i += 1;
    }
    assert(out@ =~= spec_lowercase(s@));
    out
}

/// The value of a run of decimal digits.
pub open spec fn digits_value(s: Seq<char>) -> nat
    decreases s.len(),
{
    if s.len() == 0 {
        0
    } else {
        digits_value(s.drop_last()) * 10 + digit_of(s.last())
    }
}

/// The value of one decimal digit character.
pub open spec fn digit_of(c: char) -> nat {
    ((c as u32) - ('0' as u32)) as nat
}

/// Whether `s` is a non-empty run of ASCII digits.
pub open spec fn all_digits(s: Seq<char>) -> bool {
    s.len() > 0 && forall|i: int| 0 <= i < s.len() ==> '0' <= #[trigger] s[i] <= '9'
}

/// What `str::parse` makes of `s` for an unsigned integer type whose
/// largest value is `max`: an optional `+` followed by decimal digits, whose
/// value fits.
pub open spec fn spec_parse_unsigned(s: Seq<char>, max: nat) -> Option<nat> {
    let digits = if s.len() > 0 && s[0] == '+' { s.drop_first() } else { s };
    if all_digits(digits) && digits_value(digits) <= max {
        Some(digits_value(digits))
    } else {
        None
    }
}

/// Parses an unsigned decimal integer no larger than `max`.
pub fn parse_unsigned(s: &[char], max: u128) -> (r: Option<u128>)
    ensures
        match r {
            Some(v) => spec_parse_unsigned(s@, max as nat) == Some(v as nat),
            None => spec_parse_unsigned(s@, max as nat) is None,
        },
{
    let start: usize = if s.len() > 0 && s[0] == '+' { 1 } else { 0 };
    let ghost digits = if s@.len() > 0 && s@[0] == '+' { s@.drop_first() } else { s@ };
    assert(digits =~= s@.skip(start as int));
    if start >= s.len() {
        return None;
    }
    let mut value: u128 = 0;
    let mut i = start;
    while i < s.len()
        invariant
            start <= i <= s.len(),
            start < s.len(),
            digits =~= s@.skip(start as int),
            digits == (if s@.len() > 0 && s@[0] == '+' { s@.drop_first() } else { s@ }),
            value as nat == digits_value(s@.subrange(start as int, i as int)),
            value <= max,
            forall|j: int| start <= j < i ==> '0' <= #[trigger] s@[j] <= '9',
        decreases s.len() - i,
    {
        let c = s[i];
        if !('0' <= c && c <= '9') {
            assert(!all_digits(digits)) by {
                assert(digits[i - start] == c);
            }
            return None;
        }
        let d = (c as u32 - '0' as u32) as u128;
        assert(s@.subrange(start as int, i + 1).drop_last() =~= s@.subrange(start as int, i as int));
        assert(s@.subrange(start as int, i + 1).last() == c);
        assert(digit_of(c) == d);
        if d > max || value > (max - d) / 10 {
            proof {
                lemma_too_large(s@, digits, start as int, i as int, value as nat, d as nat, max as nat);
            }
            return None;
        }
        proof {
            assert(value * 10 + d <= max) by (nonlinear_arith)
                requires
                    value <= (max - d) / 10,
                    d <= max;
        }
        value = value * 10 + d;
        i += 1;
    }
    assert(s@.subrange(start as int, s.len() as int) =~= digits);
    Some(value)
}

/// A digit run whose prefix already exceeds `max` does not parse.
proof fn lemma_too_large(s: Seq<char>, digits: Seq<char>, start: int, i: int, value: nat, d: nat, max: nat)
    requires
        0 <= start <= i < s.len(),
        digits == s.skip(start),
        digits_value(s.subrange(start, i + 1)) == value * 10 + d,
        d > max || value > (max - d) / 10,
    ensures
        !(all_digits(digits) && digits_value(digits) <= max),
{
    if d > max {
        assert(value * 10 + d > max) by (nonlinear_arith)
            requires d > max;
    } else {
        assert(value * 10 + d > max) by (nonlinear_arith)
            requires
                value > (max - d) / 10,
                d <= max;
    }
    if all_digits(digits) {
        assert(s.subrange(start, i + 1) =~= digits.take(i - start + 1));
        lemma_digits_monotone(digits, i - start + 1);
    }
}

/// The value of a digit prefix never exceeds the value of the whole run.
pub proof fn lemma_digits_monotone(s: Seq<char>, n: int)
    requires
        0 <= n <= s.len(),
        forall|i: int| 0 <= i < s.len() ==> '0' <= #[trigger] s[i] <= '9',
    ensures
        digits_value(s.take(n)) <= digits_value(s),
    decreases s.len() - n,
{
    if n < s.len() {
        lemma_digits_monotone(s, n + 1);
        assert(s.take(n + 1).drop_last() =~= s.take(n));
        assert(s.take(n + 1).last() == s[n]);
        let x = digits_value(s.take(n));
        assert(digits_value(s.take(n + 1)) == x * 10 + digit_of(s[n]));
        assert(x <= x * 10 + digit_of(s[n])) by (nonlinear_arith)
            requires x >= 0;
    } else {
        assert(s.take(n) =~= s);
    }
}


/// The position of the first `sep` in `s` (its length when there is none).
pub open spec fn sep_index<T>(s: Seq<T>, sep: T) -> nat
    decreases s.len(),
{
    if s.len() == 0 {
        0
    } else if s[0] == sep {
        0
    } else {
        1 + sep_index(s.drop_first(), sep)
    }
}

/// `sep_index` is within the text, and no separator precedes it.
pub proof fn lemma_sep_index<T>(s: Seq<T>, sep: T)
    ensures
        sep_index(s, sep) <= s.len(),
        sep_index(s, sep) < s.len() ==> s[sep_index(s, sep) as int] == sep,
        forall|j: int| 0 <= j < sep_index(s, sep) ==> s[j] != sep,
    decreases s.len(),
{
    if s.len() > 0 && s[0] != sep {
        lemma_sep_index(s.drop_first(), sep);
        assert forall|j: int| 0 <= j < sep_index(s, sep) implies s[j] != sep by {
            if j > 0 {
                assert(s[j] == s.drop_first()[j - 1]);
            }
        }
    }
}

/// The pieces of `s` between occurrences of `sep` (`str::split` with a
/// character): one more piece than there are separators.
pub open spec fn spec_split<T>(s: Seq<T>, sep: T) -> Seq<Seq<T>>
    decreases s.len(),
{
    let k = sep_index(s, sep);
    proof {
        lemma_sep_index(s, sep);
    }
    if k >= s.len() {
        seq![s]
    } else {
        seq![s.take(k as int)] + spec_split(s.skip(k + 1int), sep)
    }
}

/// The views of some character vectors.
pub open spec fn char_views(v: Seq<Vec<char>>) -> Seq<Seq<char>> {
    v.map_values(|x: Vec<char>| x@)
}

/// The first separator at or after `start`, or the end of the text.
pub fn next_sep(s: &[char], sep: char, start: usize) -> (end: usize)
    requires
        start <= s.len(),
    ensures
        start <= end <= s.len(),
        end < s.len() ==> s@[end as int] == sep,
        forall|j: int| start <= j < end ==> s@[j] != sep,
{
    let mut end = start;
    while end < s.len() && s[end] != sep
        invariant
            start <= end <= s.len(),
            forall|j: int| start <= j < end ==> s@[j] != sep,
        decreases s.len() - end,
    {
        end += 1;
    }
    end
}

/// The characters of `s` from `start` up to `end`.
pub fn slice_chars(s: &[char], start: usize, end: usize) -> (r: Vec<char>)
    requires
        start <= end <= s.len(),
    ensures
        r@ == s@.subrange(start as int, end as int),
{
    let mut out: Vec<char> = Vec::new();
    let mut i = start;
    while i < end
        invariant
            start <= i <= end,
            end <= s.len(),
            out@ == s@.subrange(start as int, i as int),
        decreases end - i,
    {
        out.push(s[i]);
        assert(s@.subrange(start as int, i + 1) =~= s@.subrange(start as int, i as int).push(s@[i as int]));
        i += 1;
    }
    out
}

/// One step of splitting: the piece that starts at `start` ends at `end`.
pub proof fn lemma_split_step<T>(s: Seq<T>, sep: T, start: int, end: int)
    requires
        0 <= start <= end <= s.len(),
        forall|j: int| start <= j < end ==> s[j] != sep,
        end < s.len() ==> s[end] == sep,
    ensures
        end < s.len() ==> spec_split(s.skip(start), sep) == seq![s.subrange(start, end)] + spec_split(s.skip(end + 1), sep),
        end == s.len() ==> spec_split(s.skip(start), sep) == seq![s.subrange(start, end)],
{
    let rest = s.skip(start);
    let k = end - start;
    lemma_sep_index(rest, sep);
    let n = sep_index(rest, sep) as int;
    if n < k {
        assert(rest[n] == s[start + n]);
    }
    if n > k && k < rest.len() {
        assert(rest[k] == sep);
    }
    assert(n == k);
    if end < s.len() {
        assert(rest.take(k) =~= s.subrange(start, end));
        assert(rest.skip(k + 1) =~= s.skip(end + 1));
    } else {
        assert(rest =~= s.subrange(start, end));
    }
}

/// The pieces of `s` between occurrences of `sep`.
pub fn split_on(s: &[char], sep: char) -> (r: Vec<Vec<char>>)
    ensures
        char_views(r@) == spec_split(s@, sep),
{
    let mut out: Vec<Vec<char>> = Vec::new();
    let mut start: usize = 0;
    assert(s@.skip(0) =~= s@);
    assert(char_views(out@) + spec_split(s@.skip(0), sep) =~= spec_split(s@, sep));
    loop
        invariant
            start <= s.len(),
            char_views(out@) + spec_split(s@.skip(start as int), sep) == spec_split(s@, sep),
        decreases s.len() - start,
    {
        let end = next_sep(s, sep, start);
        let piece = slice_chars(s, start, end);
        proof {
            lemma_split_step(s@, sep, start as int, end as int);
        }
        let ghost before = char_views(out@);
        out.push(piece);
        assert(char_views(out@) =~= before.push(piece@));
        if end == s.len() {
            assert(char_views(out@) =~= spec_split(s@, sep));
            return out;
        }
        assert(char_views(out@) + spec_split(s@.skip(end + 1), sep) =~= before + (seq![piece@] + spec_split(s@.skip(end + 1), sep)));
        start = end + 1;
    }
}


/// `str::ends_with`.
pub open spec fn spec_ends_with(s: Seq<char>, suffix: Seq<char>) -> bool {
    suffix.len() <= s.len() && s.skip(s.len() - suffix.len()) == suffix
}

/// Whether `s` ends with `suffix`.
pub fn ends_with_chars(s: &[char], suffix: &[char]) -> (r: bool)
    ensures
        r == spec_ends_with(s@, suffix@),
{
    if suffix.len() > s.len() {
        return false;
    }
    let start = s.len() - suffix.len();
    let r = occurs_at_exec(s, suffix, start);
    proof {
        assert(s@.subrange(start as int, start + suffix@.len()) =~= s@.skip(start as int));
    }
    r
}

/// Whether two character sequences are equal.
pub fn chars_eq(a: &[char], b: &[char]) -> (r: bool)
    ensures
        r == (a@ == b@),
{
    if a.len() != b.len() {
        return false;
    }
    let mut i: usize = 0;
    while i < a.len()
        invariant
            a.len() == b.len(),
            i <= a.len(),
            forall|j: int| 0 <= j < i ==> a@[j] == b@[j],
        decreases a.len() - i,
    {
        if a[i] != b[i] {
            return false;
        }
        i += 1;
    }
    assert(a@ =~= b@);
    true
}


/// A split always has at least one piece.
pub proof fn lemma_split_nonempty<T>(s: Seq<T>, sep: T)
    ensures
        spec_split(s, sep).len() >= 1,
    decreases s.len(),
{
    lemma_sep_index(s, sep);
}


/// Whether `s` starts with `prefix`.
pub fn chars_starts_with(s: &[char], prefix: &[char]) -> (r: bool)
    ensures
        r == spec_starts_with(s@, prefix@),
{
    if prefix.len() > s.len() {
        return false;
    }
    let r = occurs_at_exec(s, prefix, 0);
    proof {
        assert(s@.subrange(0, prefix@.len() as int) =~= s@.take(prefix@.len() as int));
    }
    r
}


/// Why a text is not an unsigned integer (`std::num::IntErrorKind`).
#[derive(Debug, Clone, Copy, PartialEq, Eq)]
pub enum IntError {
    Empty,
    InvalidDigit,
    PosOverflow,
}

impl IntError {
    /// The message `ParseIntError` prints for this kind.
    pub fn message(&self) -> (r: &'static str)
        ensures
            r@ == spec_int_error_message(*self),
    {
        match self {
            IntError::Empty => "cannot parse integer from empty string",
            IntError::InvalidDigit => "invalid digit found in string",
            IntError::PosOverflow => "number too large to fit in target type",
        }
    }
}

/// The message `ParseIntError` prints for a kind.
pub open spec fn spec_int_error_message(e: IntError) -> Seq<char> {
    match e {
        IntError::Empty => "cannot parse integer from empty string"@,
        IntError::InvalidDigit => "invalid digit found in string"@,
        IntError::PosOverflow => "number too large to fit in target type"@,
    }
}

/// Reads digits left to right onto `acc`, failing at the first non-digit or
/// at the first step past `max`.
pub open spec fn scan_digits(d: Seq<char>, acc: nat, max: nat) -> Result<nat, IntError>
    decreases d.len(),
{
    if d.len() == 0 {
        Ok(acc)
    } else if !('0' <= d[0] <= '9') {
        Err(IntError::InvalidDigit)
    } else if acc * 10 + digit_of(d[0]) > max {
        Err(IntError::PosOverflow)
    } else {
        scan_digits(d.drop_first(), acc * 10 + digit_of(d[0]), max)
    }
}

/// What `str::parse` gives for an unsigned type whose largest value is `max`.
pub open spec fn spec_parse_int(s: Seq<char>, max: nat) -> Result<nat, IntError> {
    if s.len() == 0 {
        Err(IntError::Empty)
    } else if s.len() == 1 && s[0] == '+' {
        Err(IntError::InvalidDigit)
    } else if s[0] == '+' {
        scan_digits(s.drop_first(), 0, max)
    } else {
        scan_digits(s, 0, max)
    }
}

/// Parses an unsigned decimal integer no larger than `max`, telling why it
/// fails as `str::parse` does.
pub fn parse_int(s: &[char], max: u128) -> (r: Result<u128, IntError>)
    ensures
        r is Ok ==> r.unwrap() <= max,
        match r {
            Ok(v) => spec_parse_int(s@, max as nat) == Ok::<nat, IntError>(v as nat),
            Err(e) => spec_parse_int(s@, max as nat) == Err::<nat, IntError>(e),
        },
{
    if s.len() == 0 {
        return Err(IntError::Empty);
    }
    if s.len() == 1 && s[0] == '+' {
        return Err(IntError::InvalidDigit);
    }
    let start: usize = if s[0] == '+' { 1 } else { 0 };
    let ghost digits = if s@[0] == '+' { s@.drop_first() } else { s@ };
    assert(digits =~= s@.skip(start as int));
    let mut acc: u128 = 0;
    let mut i = start;
    while i < s.len()
        invariant
            start <= i <= s.len(),
            digits == s@.skip(start as int),
            acc <= max,
            spec_parse_int(s@, max as nat) == scan_digits(digits, 0, max as nat),
            scan_digits(digits, 0, max as nat) == scan_digits(s@.skip(i as int), acc as nat, max as nat),
        decreases s.len() - i,
    {
        let c = s[i];
        assert(s@.skip(i as int)[0] == c);
        assert(s@.skip(i as int).drop_first() =~= s@.skip(i + 1));
        if !('0' <= c && c <= '9') {
            return Err(IntError::InvalidDigit);
        }
        let d = (c as u32 - '0' as u32) as u128;
        assert(digit_of(c) == d);
        if d > max || acc > (max - d) / 10 {
            proof {
                if d <= max {
                    assert(acc * 10 + d > max) by (nonlinear_arith)
                        requires acc > (max - d) / 10, d <= max;
                }
            }
            return Err(IntError::PosOverflow);
        }
        proof {
            assert(acc * 10 + d <= max) by (nonlinear_arith)
                requires acc <= (max - d) / 10, d <= max;
        }
        acc = acc * 10 + d;
        i += 1;
    }
    assert(s@.skip(i as int) =~= Seq::<char>::empty());
    Ok(acc)
}


/// The text made by writing `f(c)` for each character `c` of `s`.
pub open spec fn escape_with(s: Seq<char>, f: spec_fn(char) -> Seq<char>) -> Seq<char>
    decreases s.len(),
{
    if s.len() == 0 {
        Seq::empty()
    } else {
        escape_with(s.drop_last(), f) + f(s.last())
    }
}

/// One more character of an escaped prefix.
pub proof fn lemma_escape_step(s: Seq<char>, f: spec_fn(char) -> Seq<char>, i: int)
    requires
        0 <= i < s.len(),
    ensures
        escape_with(s.take(i + 1), f) == escape_with(s.take(i), f) + f(s[i]),
{
    assert(s.take(i + 1).drop_last() =~= s.take(i));
}

/// The number of leading characters of `s` whose whitespace-ness is `space`.
pub open spec fn run_len(s: Seq<char>, space: bool) -> nat
    decreases s.len(),
{
    if s.len() > 0 && is_space(s[0]) == space {
        1 + run_len(s.drop_first(), space)
    } else {
        0
    }
}

pub proof fn lemma_run_len(s: Seq<char>, space: bool, i: int)
    requires
        0 <= i <= s.len(),
        forall|j: int| 0 <= j < i ==> is_space(#[trigger] s[j]) == space,
        i == s.len() || is_space(s[i]) != space,
    ensures
        run_len(s, space) == i,
    decreases i,
{
    if i > 0 {
        assert forall|j: int| 0 <= j < i - 1 implies is_space(#[trigger] s.drop_first()[j]) == space by {
            assert(s.drop_first()[j] == s[j + 1]);
        }
        if i - 1 < s.len() - 1 {
            assert(s.drop_first()[i - 1] == s[i]);
        }
        lemma_run_len(s.drop_first(), space, i - 1);
    }
}


/// The whitespace-separated words of `s` (`str::split_whitespace`).
pub open spec fn words(s: Seq<char>) -> Seq<Seq<char>>
    decreases s.len(),
{
    let t = s.skip(run_len(s, true) as int);
    if t.len() == 0 || run_len(s, true) > s.len() {
        Seq::empty()
    } else {
        let n = run_len(t, false);
        if n == 0 || n > t.len() {
            Seq::empty()
        } else {
            seq![t.take(n as int)] + words(t.skip(n as int))
        }
    }
}

/// The whitespace-separated words of a text.
pub fn split_words(s: &[char]) -> (r: Vec<Vec<char>>)
    ensures
        char_views(r@) == words(s@),
{
    let mut out: Vec<Vec<char>> = Vec::new();
    let mut i: usize = 0;
    assert(s@.skip(0) =~= s@);
    assert(char_views(out@) + words(s@.skip(0)) =~= words(s@));
    loop
        invariant
            i <= s.len(),
            char_views(out@) + words(s@.skip(i as int)) == words(s@),
        decreases s.len() - i,
    {
        let ghost rest = s@.skip(i as int);
        let mut j = i;
        while j < s.len() && space(s[j])
            invariant
                i <= j <= s.len(),
                forall|k: int| i <= k < j ==> is_space(#[trigger] s@[k]),
            decreases s.len() - j,
        {
            j += 1;
        }
        proof {
            assert forall|k: int| 0 <= k < j - i implies is_space(#[trigger] rest[k]) == true by {
                assert(rest[k] == s@[i + k]);
            }
            if j < s.len() {
                assert(rest[j - i] == s@[j as int]);
            }
            lemma_run_len(rest, true, j - i);
            assert(rest.skip(j - i) =~= s@.skip(j as int));
        }
        if j == s.len() {
            assert(s@.skip(j as int).len() == 0);
            assert(words(rest) =~= Seq::<Seq<char>>::empty());
            assert(char_views(out@) =~= words(s@));
            return out;
        }
        let ghost t = s@.skip(j as int);
        let mut k = j;
        while k < s.len() && !space(s[k])
            invariant
                j <= k <= s.len(),
                forall|m: int| j <= m < k ==> !is_space(#[trigger] s@[m]),
            decreases s.len() - k,
        {
            k += 1;
        }
        proof {
            assert forall|m: int| 0 <= m < k - j implies is_space(#[trigger] t[m]) == false by {
                assert(t[m] == s@[j + m]);
            }
            if k < s.len() {
                assert(t[k - j] == s@[k as int]);
            }
            lemma_run_len(t, false, k - j);
            assert(t.take(k - j) =~= s@.subrange(j as int, k as int));
            assert(t.skip(k - j) =~= s@.skip(k as int));
            assert(t[0] == s@[j as int]);
        }
        let word = slice_chars(s, j, k);
        let ghost before = char_views(out@);
        out.push(word);
        assert(char_views(out@) =~= before.push(word@));
        assert(words(rest) == seq![word@] + words(s@.skip(k as int)));
        assert(char_views(out@) + words(s@.skip(k as int)) =~= before + words(rest));
        i = k;
    }
}


/// The bytes of `s` from `start` up to `end`.
pub fn slice_bytes(s: &[u8], start: usize, end: usize) -> (r: Vec<u8>)
    requires
        start <= end <= s.len(),
    ensures
        r@ == s@.subrange(start as int, end as int),
{
    let mut out: Vec<u8> = Vec::new();
    let mut i = start;
    while i < end
        invariant
            start <= i <= end,
            end <= s.len(),
            out@ == s@.subrange(start as int, i as int),
        decreases end - i,
    {
        out.push(s[i]);
        assert(s@.subrange(start as int, i + 1) =~= s@.subrange(start as int, i as int).push(s@[i as int]));
        i += 1;
    }
    out
}


/// The first separator byte at or after `start`, or the end.
pub fn next_byte(s: &[u8], sep: u8, start: usize) -> (end: usize)
    requires
        start <= s.len(),
    ensures
        start <= end <= s.len(),
        end < s.len() ==> s@[end as int] == sep,
        forall|j: int| start <= j < end ==> s@[j] != sep,
{
    let mut end = start;
    while end < s.len() && s[end] != sep
        invariant
            start <= end <= s.len(),
            forall|j: int| start <= j < end ==> s@[j] != sep,
        decreases s.len() - end,
    {
        end += 1;
    }
    end
}

/// The views of some byte vectors.
pub open spec fn byte_views(v: Seq<Vec<u8>>) -> Seq<Seq<u8>> {
    v.map_values(|x: Vec<u8>| x@)
}

/// The pieces of `s` between occurrences of the byte `sep` (`slice::split`).
pub fn split_bytes(s: &[u8], sep: u8) -> (r: Vec<Vec<u8>>)
    ensures
        byte_views(r@) == spec_split(s@, sep),
{
    let mut out: Vec<Vec<u8>> = Vec::new();
    let mut start: usize = 0;
    assert(s@.skip(0) =~= s@);
    assert(byte_views(out@) + spec_split(s@.skip(0), sep) =~= spec_split(s@, sep));
    loop
        invariant
            start <= s.len(),
            byte_views(out@) + spec_split(s@.skip(start as int), sep) == spec_split(s@, sep),
        decreases s.len() - start,
    {
        let end = next_byte(s, sep, start);
        let piece = slice_bytes(s, start, end);
        proof {
            lemma_split_step(s@, sep, start as int, end as int);
        }
        let ghost before = byte_views(out@);
        out.push(piece);
        assert(byte_views(out@) =~= before.push(piece@));
        if end == s.len() {
            assert(byte_views(out@) =~= spec_split(s@, sep));
            return out;
        }
        assert(byte_views(out@) + spec_split(s@.skip(end + 1), sep) =~= before + (seq![piece@] + spec_split(s@.skip(end + 1), sep)));
        start = end + 1;
    }
}

/// The last position at which `pat` occurs in `s`.
#[verifier::opaque]
pub open spec fn spec_rfind(s: Seq<char>, pat: Seq<char>) -> Option<int> {
    if exists|i: int| occurs_at(s, pat, i) {
        Some(choose|i: int| occurs_at(s, pat, i) && forall|j: int| i < j ==> !occurs_at(s, pat, j))
    } else {
        None
    }
}

/// The last position at which `pat` occurs in `s`.
pub fn rfind_chars(s: &[char], pat: &[char]) -> (r: Option<usize>)
    ensures
        match r {
            Some(k) => spec_rfind(s@, pat@) == Some(k as int) && occurs_at(s@, pat@, k as int),
            None => spec_rfind(s@, pat@) is None,
        },
{
    reveal(spec_rfind);
    if pat.len() > s.len() {
        assert forall|i: int| !occurs_at(s@, pat@, i) by {}
        return None;
    }
    let mut i = s.len() - pat.len();
    loop
        invariant
            i <= s.len() - pat.len(),
            pat.len() <= s.len(),
            forall|j: int| i < j ==> !occurs_at(s@, pat@, j),
        ensures
            forall|j: int| 0 <= j ==> !occurs_at(s@, pat@, j),
        decreases i,
    {
        let hit = occurs_at_exec(s, pat, i);
        if hit {
            proof {
                reveal(spec_rfind);
                let w = choose|w: int| occurs_at(s@, pat@, w) && forall|j: int| w < j ==> !occurs_at(s@, pat@, j);
                assert(occurs_at(s@, pat@, i as int) && forall|j: int| i < j ==> !occurs_at(s@, pat@, j));
                if w < i {
                } else if w > i {
                    assert(!occurs_at(s@, pat@, w));
                }
            }
            return Some(i);
        }
        if i == 0 {
            break;
        }
        i -= 1;
    }
    assert forall|j: int| !occurs_at(s@, pat@, j) by {
        if j < 0 {
        }
    }
    None
}


/// What `str::parse::<i64>` makes of a text.
pub open spec fn spec_parse_i64(s: Seq<char>) -> Option<i64> {
    if s.len() > 0 && s[0] == '-' {
        match spec_parse_int(s.drop_first(), 0x8000_0000_0000_0000) {
            Ok(v) => if s.len() > 1 && s[1] != '+' { Some((-v) as i64) } else { None },
            Err(_) => None,
        }
    } else {
        match spec_parse_int(s, 0x7fff_ffff_ffff_ffff) {
            Ok(v) => Some(v as i64),
            Err(_) => None,
        }
    }
}

/// Parses a signed 64-bit decimal integer.
pub fn parse_i64(s: &[char]) -> (r: Option<i64>)
    ensures
        r == spec_parse_i64(s@),
{
    if s.len() > 0 && s[0] == '-' {
        let rest = slice_chars(s, 1, s.len());
        assert(rest@ =~= s@.drop_first());
        match parse_int(rest.as_slice(), 0x8000_0000_0000_0000) {
            Ok(v) => if s.len() > 1 && s[1] != '+' {
                Some((0 - (v as i128)) as i64)
            } else {
                None
            },
            Err(_) => None,
        }
    } else {
        match parse_int(s, 0x7fff_ffff_ffff_ffff) {
            Ok(v) => Some(v as i64),
            Err(_) => None,
        }
    }
}


/// The number of whitespace characters at the end of `s`.
pub open spec fn trailing_spaces(s: Seq<char>) -> nat
    decreases s.len(),
{
    if s.len() > 0 && is_space(s.last()) {
        1 + trailing_spaces(s.drop_last())
    } else {
        0
    }
}

/// `str::trim`.
pub open spec fn spec_trim(s: Seq<char>) -> Seq<char> {
    let t = s.skip(run_len(s, true) as int);
    t.take(t.len() - trailing_spaces(t))
}

proof fn lemma_trailing(s: Seq<char>, k: int)
    requires
        0 <= k <= s.len(),
        forall|j: int| s.len() - k <= j < s.len() ==> is_space(#[trigger] s[j]),
        k < s.len() ==> !is_space(s[s.len() - k - 1]),
    ensures
        trailing_spaces(s) == k,
    decreases k,
{
    if k > 0 {
        assert forall|j: int| s.drop_last().len() - (k - 1) <= j < s.drop_last().len() implies is_space(#[trigger] s.drop_last()[j]) by {
            assert(s.drop_last()[j] == s[j]);
        }
        if k - 1 < s.drop_last().len() {
            assert(s.drop_last()[s.drop_last().len() - (k - 1) - 1] == s[s.len() - k - 1]);
        }
        lemma_trailing(s.drop_last(), k - 1);
    }
}

/// Removes whitespace at both ends.
pub fn trim_chars(s: &[char]) -> (r: Vec<char>)
    ensures
        r@ == spec_trim(s@),
{
    let mut a: usize = 0;
    while a < s.len() && space(s[a])
        invariant
            a <= s.len(),
            forall|j: int| 0 <= j < a ==> is_space(#[trigger] s@[j]),
        decreases s.len() - a,
    {
        a += 1;
    }
    proof {
        lemma_run_len(s@, true, a as int);
    }
    let mut b = s.len();
    while b > a && space(s[b - 1])
        invariant
            a <= b <= s.len(),
            forall|j: int| b <= j < s.len() ==> is_space(#[trigger] s@[j]),
        decreases b,
    {
        b -= 1;
    }
    let ghost t = s@.skip(a as int);
    proof {
        let k = s.len() - b;
        assert forall|j: int| t.len() - k <= j < t.len() implies is_space(#[trigger] t[j]) by {
            assert(t[j] == s@[a + j]);
        }
        if k < t.len() {
            assert(t[t.len() - k - 1] == s@[b - 1]);
        }
        lemma_trailing(t, k as int);
        assert(t.take(t.len() - k) =~= s@.subrange(a as int, b as int));
    }
    slice_chars(s, a, b)
}


/// `s` from position `i` on, with the occurrences of `pat` found scanning
/// left to right replaced by `rep` (what `str::replace` does for a pattern
/// that is not empty; an empty pattern leaves `s` as it is here).
pub open spec fn replaced_from(s: Seq<char>, pat: Seq<char>, rep: Seq<char>, i: int) -> Seq<char>
    decreases s.len() - i,
{
    if i < 0 || i >= s.len() {
        Seq::empty()
    } else if pat.len() == 0 {
        s.skip(i)
    } else if occurs_at(s, pat, i) {
        rep + replaced_from(s, pat, rep, i + pat.len())
    } else {
        seq![s[i]] + replaced_from(s, pat, rep, i + 1)
    }
}

/// `str::replace` for a pattern that is not empty.
pub open spec fn spec_replace(s: Seq<char>, pat: Seq<char>, rep: Seq<char>) -> Seq<char> {
    replaced_from(s, pat, rep, 0)
}

/// Replaces every occurrence of `pat`, scanning left to right.
pub fn replace_all(s: &str, pat: &str, rep: &str) -> (r: String)
    requires
        pat@.len() > 0,
    ensures
        r@ == spec_replace(s@, pat@, rep@),
{
    let cs = chars_of(s);
    let ps = chars_of(pat);
    let mut out = String::new();
    let mut i: usize = 0;
    assert(out@ =~= Seq::<char>::empty());
    while i < cs.len()
        invariant
            i <= cs@.len(),
            cs@ == s@,
            ps@ == pat@,
            ps@.len() > 0,
            out@ + replaced_from(cs@, ps@, rep@, i as int) == spec_replace(s@, pat@, rep@),
        decreases cs.len() - i,
    {
        let ghost before = out@;
        if occurs_at_exec(cs.as_slice(), ps.as_slice(), i) {
            push_all(&mut out, rep);
            assert(before + replaced_from(cs@, ps@, rep@, i as int) == out@ + replaced_from(cs@, ps@, rep@, i + ps@.len())) by {
                assert(before + (rep@ + replaced_from(cs@, ps@, rep@, i + ps@.len())) =~= (before + rep@) + replaced_from(cs@, ps@, rep@, i + ps@.len()));
            }
            i = i + ps.len();
        } else {
            push_char(&mut out, cs[i]);
            assert(before + replaced_from(cs@, ps@, rep@, i as int) == out@ + replaced_from(cs@, ps@, rep@, i + 1)) by {
                assert(before + (seq![cs@[i as int]] + replaced_from(cs@, ps@, rep@, i + 1)) =~= before.push(cs@[i as int]) + replaced_from(cs@, ps@, rep@, i + 1));
            }
            i = i + 1;
        }
    }
    assert(out@ + replaced_from(cs@, ps@, rep@, i as int) =~= out@);
    out
}

} // verus!
