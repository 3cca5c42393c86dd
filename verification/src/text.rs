//! Character-level text helpers: decimal rendering and parsing, Unicode
//! whitespace trimming, substring search and lexicographic ordering.

use vstd::prelude::*;

verus! {

/// Appends one character to a string (`String::push`).
///
/// Trusted: std documents that `push` appends the given char to the end of
/// the string.
#[verifier::external_body]
pub(crate) fn push_char(s: &mut String, c: char)
    ensures
        final(s)@ == old(s)@.push(c),
{
    s.push(c);
}

/// The result of `str::to_lowercase` on a text.
pub uninterp spec fn lowercase_of(text: Seq<char>) -> Seq<char>;

/// Lower-cases a text (`str::to_lowercase`).
///
/// Trusted: the result is Unicode's full lowercase mapping of the input, a
/// function of the input alone; it is named, not written out.
#[verifier::external_body]
pub(crate) fn to_lowercase(text: &str) -> (lowered: String)
    ensures
        lowered@ == lowercase_of(text@),
{
    text.to_lowercase()
}

/// The characters of a string, one by one.
pub fn chars_of(text: &str) -> (chars: Vec<char>)
    ensures
        chars@ == text@,
{
    let n = text.unicode_len();
    let mut chars: Vec<char> = Vec::new();
    let mut i: usize = 0;
    while i < n
        invariant
            n == text@.len(),
            i <= n,
            chars@ == text@.take(i as int),
        decreases n - i,
    {
        let c = text.get_char(i);
        chars.push(c);
        i = i + 1;
        assert(chars@ =~= text@.take(i as int));
    }
    assert(text@.take(n as int) =~= text@);
    chars
}

/// A string holding exactly the given characters.
pub fn string_of(chars: &Vec<char>) -> (text: String)
    ensures
        text@ == chars@,
{
    let mut text = String::new();
    let mut i: usize = 0;
    while i < chars.len()
        invariant
            i <= chars.len(),
            text@ == chars@.take(i as int),
        decreases chars.len() - i,
    {
        push_char(&mut text, chars[i]);
        i = i + 1;
        assert(text@ =~= chars@.take(i as int));
    }
    assert(chars@.take(chars.len() as int) =~= chars@);
    text
}

/// The concatenation of two texts.
pub fn join_text(first: &str, second: &str) -> (joined: String)
    ensures
        joined@ == first@ + second@,
{
    let mut joined = String::from_str(first);
    joined.append(second);
    joined
}

// ---------------------------------------------------------------------------
// Decimal numbers
// ---------------------------------------------------------------------------

/// The ASCII digit for a value below ten.
pub open spec fn digit_char(d: nat) -> char {
    ((48 + d) as u32) as char
}

/// Whether a character is an ASCII decimal digit.
pub open spec fn is_digit(c: char) -> bool {
    '0' <= c && c <= '9'
}

/// The value of an ASCII digit.
pub open spec fn digit_value(c: char) -> nat {
    ((c as u32) - 48) as nat
}

/// The shortest decimal rendering of a natural number, as `u64::to_string`
/// renders it.
pub open spec fn decimal(n: nat) -> Seq<char>
    decreases n,
{
    if n < 10 {
        seq![digit_char(n)]
    } else {
        decimal(n / 10).push(digit_char(n % 10))
    }
}

/// The decimal rendering of an integer with a leading `-` when negative, as
/// `i64::to_string` renders it.
pub open spec fn signed_decimal(i: int) -> Seq<char> {
    if i < 0 {
        seq!['-'] + decimal((-i) as nat)
    } else {
        decimal(i as nat)
    }
}

/// Whether every character of a text is an ASCII digit.
pub open spec fn all_digits(s: Seq<char>) -> bool {
    forall|i: int| 0 <= i < s.len() ==> is_digit(#[trigger] s[i])
}

/// The value of a run of ASCII digits, most significant first.
pub open spec fn digits_value(s: Seq<char>) -> nat
    decreases s.len(),
{
    if s.len() == 0 {
        0
    } else {
        digits_value(s.drop_last()) * 10 + digit_value(s.last())
    }
}

fn digit_of(d: u64) -> (c: char)
    requires
        d < 10,
    ensures
        c == digit_char(d as nat),
        is_digit(c),
        digit_value(c) == d,
{
    let b: u8 = 48u8 + (d as u8);
    b as char
}

fn append_decimal(out: &mut String, n: u64)
    ensures
        final(out)@ == old(out)@ + decimal(n as nat),
    decreases n,
{
    if n >= 10 {
        append_decimal(out, n / 10);
    }
    push_char(out, digit_of(n % 10));
    assert(final(out)@ =~= old(out)@ + decimal(n as nat));
}

/// Renders an unsigned number in decimal (`u64::to_string`).
pub fn decimal_text(n: u64) -> (text: String)
    ensures
        text@ == decimal(n as nat),
{
    let mut text = String::new();
    append_decimal(&mut text, n);
    assert(text@ =~= decimal(n as nat));
    text
}

/// Renders a signed number in decimal (`i64::to_string`).
pub fn signed_decimal_text(i: i64) -> (text: String)
    ensures
        text@ == signed_decimal(i as int),
{
    let mut text = String::new();
    if i < 0 {
        push_char(&mut text, '-');
        let magnitude: u64 = if i == i64::MIN {
            9223372036854775808u64
        } else {
            (-i) as u64
        };
        append_decimal(&mut text, magnitude);
    } else {
        append_decimal(&mut text, i as u64);
    }
    assert(text@ =~= signed_decimal(i as int));
    text
}

proof fn lemma_decimal_all_digits(n: nat)
    ensures
        all_digits(decimal(n)),
        decimal(n).len() > 0,
        digits_value(decimal(n)) == n,
    decreases n,
{
    let c = digit_char(n % 10);
    assert(c as u32 == 48 + n % 10);
    assert(digit_value(c) == n % 10);
    if n >= 10 {
        lemma_decimal_all_digits(n / 10);
        let d = decimal(n);
        assert(d.drop_last() =~= decimal(n / 10));
        assert(d.last() == c);
        assert(digits_value(d) == digits_value(decimal(n / 10)) * 10 + digit_value(c));
        assert(n == (n / 10) * 10 + n % 10);
        assert forall|i: int| 0 <= i < d.len() implies is_digit(#[trigger] d[i]) by {
            if i < d.len() - 1 {
                assert(d[i] == decimal(n / 10)[i]);
            }
        }
    } else {
        assert(decimal(n).drop_last() =~= Seq::<char>::empty());
        assert(digits_value(Seq::<char>::empty()) == 0);
    }
}

/// How `str::parse::<i64>` reads a text: an optional `+` or `-`, then one or
/// more ASCII digits and nothing else, with a value that fits in an `i64`.
pub open spec fn parsed_i64(s: Seq<char>) -> Option<i64> {
    let negative = s.len() > 0 && s[0] == '-';
    let digits = if s.len() > 0 && (s[0] == '-' || s[0] == '+') {
        s.skip(1)
    } else {
        s
    };
    let value: int = if negative {
        -(digits_value(digits) as int)
    } else {
        digits_value(digits) as int
    };
    if digits.len() > 0 && all_digits(digits) && i64::MIN <= value <= i64::MAX {
        Some(value as i64)
    } else {
        None
    }
}

proof fn lemma_digits_value_prefix(s: Seq<char>, i: int)
    requires
        0 <= i <= s.len(),
    ensures
        digits_value(s.take(i)) <= digits_value(s),
    decreases s.len() - i,
{
    if i < s.len() {
        lemma_digits_value_prefix(s, i + 1);
        assert(s.take(i + 1).drop_last() =~= s.take(i));
    } else {
        assert(s.take(i) =~= s);
    }
}

/// Reads a decimal integer as `str::parse::<i64>` does.
pub fn parse_i64(text: &str) -> (parsed: Option<i64>)
    ensures
        parsed == parsed_i64(text@),
{
    let s = chars_of(text);
    let n = s.len();
    let negative = n > 0 && s[0] == '-';
    let start: usize = if n > 0 && (s[0] == '-' || s[0] == '+') {
        1
    } else {
        0
    };
    let ghost digits = if n > 0 && (s@[0] == '-' || s@[0] == '+') {
        s@.skip(1)
    } else {
        s@
    };
    assert(digits =~= s@.skip(start as int));
    if start == n {
        return None;
    }
    // The largest magnitude the sign allows.
    let bound: u64 = if negative {
        9223372036854775808u64
    } else {
        9223372036854775807u64
    };
    let mut value: u64 = 0;
    let mut i: usize = start;
    while i < n
        invariant
            start <= i <= n,
            n == s@.len(),
            digits =~= s@.skip(start as int),
            all_digits(digits.take(i - start)),
            value as nat == digits_value(digits.take(i - start)),
            value <= bound,
            9223372036854775807u64 <= bound <= 9223372036854775808u64,
            s@ == text@,
            negative == (text@.len() > 0 && text@[0] == '-'),
            bound == (if negative { 9223372036854775808u64 } else { 9223372036854775807u64 }),
            digits == (if text@.len() > 0 && (text@[0] == '-' || text@[0] == '+') {
                text@.skip(1)
            } else {
                text@
            }),
        decreases n - i,
    {
        let c = s[i];
        if c < '0' || c > '9' {
            assert(digits[i - start] == c);
            assert(!is_digit(digits[i - start]));
            assert(!all_digits(digits));
            assert(parsed_i64(text@) == None::<i64>);
            return None;
        }
        let d: u64 = (c as u32 - 48) as u64;
        assert(digits.take(i - start + 1).drop_last() =~= digits.take(i - start));
        assert(digits.take(i - start + 1).last() == c);
        if value > (bound - d) / 10 {
            proof {
                assert(value * 10 + d > bound) by (nonlinear_arith)
                    requires
                        value > (bound - d) / 10,
                        d <= 9,
                        d <= bound,
                ;
                lemma_digits_value_prefix(digits, i - start + 1);
            }
            return None;
        }
        assert(value * 10 + d <= bound) by (nonlinear_arith)
            requires
                value <= (bound - d) / 10,
                d <= bound,
        ;
        value = value * 10 + d;
        i = i + 1;
        assert(all_digits(digits.take(i - start)));
    }
    assert(digits.take(n - start) =~= digits);
    if negative {
        if value == 9223372036854775808u64 {
            Some(i64::MIN)
        } else {
            Some(-(value as i64))
        }
    } else {
        Some(value as i64)
    }
}

/// Reading back the decimal rendering of a natural number below 2^63 gives
/// the number again.
pub proof fn decimal_round_trip(n: nat)
    requires
        n <= i64::MAX,
    ensures
        parsed_i64(decimal(n)) == Some(n as i64),
{
    lemma_decimal_all_digits(n);
    let s = decimal(n);
    if s[0] == '-' || s[0] == '+' {
        assert(is_digit(s[0]));
    }
}

// ---------------------------------------------------------------------------
// Whitespace and substrings
// ---------------------------------------------------------------------------

/// Unicode `White_Space`, the property that `char::is_whitespace` tests.
pub open spec fn is_white_space(c: char) -> bool {
    ||| ('\u{9}' <= c && c <= '\u{d}')
    ||| c == ' '
    ||| c == '\u{85}'
    ||| c == '\u{a0}'
    ||| c == '\u{1680}'
    ||| ('\u{2000}' <= c && c <= '\u{200a}')
    ||| c == '\u{2028}'
    ||| c == '\u{2029}'
    ||| c == '\u{202f}'
    ||| c == '\u{205f}'
    ||| c == '\u{3000}'
}

fn white_space(c: char) -> (b: bool)
    ensures
        b == is_white_space(c),
{
    ('\u{9}' <= c && c <= '\u{d}') || c == ' ' || c == '\u{85}' || c == '\u{a0}' || c
        == '\u{1680}' || ('\u{2000}' <= c && c <= '\u{200a}') || c == '\u{2028}' || c
        == '\u{2029}' || c == '\u{202f}' || c == '\u{205f}' || c == '\u{3000}'
}

/// Whether a text holds nothing but whitespace.
pub open spec fn is_blank(s: Seq<char>) -> bool {
    forall|i: int| 0 <= i < s.len() ==> is_white_space(#[trigger] s[i])
}

/// A text without its leading and trailing whitespace, as `str::trim`
/// returns it: the stretch from the first to the last character that is not
/// whitespace.
pub open spec fn trimmed(s: Seq<char>) -> Seq<char> {
    if is_blank(s) {
        Seq::empty()
    } else {
        let first = choose|i: int| starts_text(s, i);
        let last = choose|i: int| ends_text(s, i);
        s.subrange(first, last + 1)
    }
}

/// `i` is the position of the first character of `s` that is not whitespace.
pub open spec fn starts_text(s: Seq<char>, i: int) -> bool {
    &&& 0 <= i < s.len()
    &&& !is_white_space(s[i])
    &&& forall|j: int| 0 <= j < i ==> is_white_space(#[trigger] s[j])
}

/// `i` is the position of the last character of `s` that is not whitespace.
pub open spec fn ends_text(s: Seq<char>, i: int) -> bool {
    &&& 0 <= i < s.len()
    &&& !is_white_space(s[i])
    &&& forall|j: int| i < j < s.len() ==> is_white_space(#[trigger] s[j])
}

/// Removes leading and trailing whitespace (`str::trim`).
pub fn trim(text: &str) -> (result: String)
    ensures
        result@ == trimmed(text@),
{
    let s = chars_of(text);
    let n = s.len();
    let mut first: usize = 0;
    while first < n && white_space(s[first])
        invariant
            first <= n,
            n == s@.len(),
            forall|j: int| 0 <= j < first ==> is_white_space(#[trigger] s@[j]),
        decreases n - first,
    {
        first = first + 1;
    }
    if first == n {
        assert(is_blank(s@));
        return String::new();
    }
    let mut last: usize = n - 1;
    while white_space(s[last])
        invariant
            first <= last < n,
            n == s@.len(),
            !is_white_space(s@[first as int]),
            forall|j: int| last < j < n ==> is_white_space(#[trigger] s@[j]),
        decreases last,
    {
        last = last - 1;
    }
    assert(starts_text(s@, first as int));
    assert(ends_text(s@, last as int));
    let ghost f = choose|i: int| starts_text(s@, i);
    let ghost l = choose|i: int| ends_text(s@, i);
    assert(!is_blank(s@));
    assert(f == first) by {
        if f < first {
            assert(is_white_space(s@[f]));
        }
        if f > first {
            assert(is_white_space(s@[first as int]));
        }
    }
    assert(l == last) by {
        if l < last {
            assert(is_white_space(s@[last as int]));
        }
        if l > last {
            assert(is_white_space(s@[l]));
        }
    }
    let mut out: Vec<char> = Vec::new();
    let mut i: usize = first;
    while i <= last
        invariant
            first <= i <= last + 1,
            last < n,
            n == s@.len(),
            out@ == s@.subrange(first as int, i as int),
        decreases last + 1 - i,
    {
        out.push(s[i]);
        i = i + 1;
        assert(out@ =~= s@.subrange(first as int, i as int));
    }
    string_of(&out)
}

proof fn lemma_first_non_space(s: Seq<char>)
    requires
        !is_blank(s),
    ensures
        exists|i: int| starts_text(s, i),
    decreases s.len(),
{
    if is_white_space(s[0]) {
        let rest = s.drop_first();
        assert(!is_blank(rest)) by {
            let k = choose|k: int| 0 <= k < s.len() && !is_white_space(#[trigger] s[k]);
            assert(k != 0);
            assert(rest[k - 1] == s[k]);
        }
        lemma_first_non_space(rest);
        let i = choose|i: int| starts_text(rest, i);
        assert(s[i + 1] == rest[i]);
        assert forall|j: int| 0 <= j < i + 1 implies is_white_space(#[trigger] s[j]) by {
            if j > 0 {
                assert(s[j] == rest[j - 1]);
            }
        }
        assert(starts_text(s, i + 1));
    } else {
        assert(starts_text(s, 0));
    }
}

proof fn lemma_last_non_space(s: Seq<char>)
    requires
        !is_blank(s),
    ensures
        exists|i: int| ends_text(s, i),
    decreases s.len(),
{
    if is_white_space(s.last()) {
        let rest = s.drop_last();
        assert(!is_blank(rest)) by {
            let k = choose|k: int| 0 <= k < s.len() && !is_white_space(#[trigger] s[k]);
            assert(k != s.len() - 1);
            assert(rest[k] == s[k]);
        }
        lemma_last_non_space(rest);
        let i = choose|i: int| ends_text(rest, i);
        assert(s[i] == rest[i]);
        assert forall|j: int| i < j < s.len() implies is_white_space(#[trigger] s[j]) by {
            if j < s.len() - 1 {
                assert(s[j] == rest[j]);
            }
        }
        assert(ends_text(s, i));
    } else {
        assert(ends_text(s, s.len() - 1));
    }
}

/// A text trims to nothing exactly when it holds only whitespace.
pub proof fn trimmed_empty_iff_blank(s: Seq<char>)
    ensures
        (trimmed(s).len() == 0) == is_blank(s),
{
    if !is_blank(s) {
        lemma_first_non_space(s);
        lemma_last_non_space(s);
        let first = choose|i: int| starts_text(s, i);
        let last = choose|i: int| ends_text(s, i);
        assert(first <= last) by {
            if last < first {
                assert(is_white_space(s[first]));
            }
        }
        assert(trimmed(s) == s.subrange(first, last + 1));
    }
}

/// Whether `needle` occurs in `haystack` as a contiguous run.
pub open spec fn has_substring(haystack: Seq<char>, needle: Seq<char>) -> bool {
    exists|i: int|
        0 <= i && i + needle.len() <= haystack.len() && #[trigger] haystack.subrange(
            i,
            i + needle.len(),
        ) == needle
}

/// Whether `needle` occurs in `haystack` (`str::contains` with a `&str`
/// pattern).
pub fn contains_text(haystack: &str, needle: &str) -> (found: bool)
    ensures
        found == has_substring(haystack@, needle@),
{
    let h = chars_of(haystack);
    let p = chars_of(needle);
    if p.len() > h.len() {
        return false;
    }
    let mut i: usize = 0;
    while i <= h.len() - p.len()
        invariant
            h@ == haystack@,
            p@ == needle@,
            p.len() <= h.len(),
            i <= h.len() - p.len() + 1,
            forall|k: int|
                0 <= k < i ==> #[trigger] h@.subrange(k, k + p@.len()) != p@,
        decreases h.len() - i,
    {
        let mut j: usize = 0;
        while j < p.len() && h[i + j] == p[j]
            invariant
                i + p.len() <= h.len(),
                j <= p.len(),
                forall|m: int| 0 <= m < j ==> h@[i + m] == #[trigger] p@[m],
            decreases p.len() - j,
        {
            j = j + 1;
        }
        if j == p.len() {
            assert(h@.subrange(i as int, i + p@.len()) =~= p@);
            return true;
        }
        assert(h@.subrange(i as int, i + p@.len())[j as int] != p@[j as int]);
        i = i + 1;
    }
    assert forall|k: int|
        0 <= k && k + needle@.len() <= haystack@.len() implies #[trigger] haystack@.subrange(
        k,
        k + needle@.len(),
    ) != needle@ by {}
    false
}

// ---------------------------------------------------------------------------
// Lexicographic order
// ---------------------------------------------------------------------------

/// Whether `a` sorts strictly before `b` character by character, a proper
/// prefix first. On Rust strings this is the order that `str::cmp` gives,
/// since UTF-8 keeps the order of code points.
pub open spec fn text_less(a: Seq<char>, b: Seq<char>) -> bool
    decreases a.len(),
{
    if a.len() == 0 {
        b.len() > 0
    } else if b.len() == 0 {
        false
    } else if a[0] != b[0] {
        a[0] < b[0]
    } else {
        text_less(a.drop_first(), b.drop_first())
    }
}

/// Of two distinct texts exactly one sorts first; a text never sorts
/// before itself.
pub proof fn text_less_trichotomy(a: Seq<char>, b: Seq<char>)
    ensures
        !text_less(a, a),
        a != b ==> (text_less(a, b) || text_less(b, a)),
        !(text_less(a, b) && text_less(b, a)),
    decreases a.len(),
{
    if a.len() > 0 {
        text_less_trichotomy(a.drop_first(), a.drop_first());
    }
    if a.len() > 0 && b.len() > 0 {
        text_less_trichotomy(a.drop_first(), b.drop_first());
        if a[0] == b[0] && a != b {
            assert(a.drop_first() != b.drop_first()) by {
                if a.drop_first() == b.drop_first() {
                    assert(a =~= seq![a[0]] + a.drop_first());
                    assert(b =~= seq![b[0]] + b.drop_first());
                }
            }
        }
    } else if a.len() == 0 && b.len() == 0 {
        assert(a =~= b);
    }
}

/// Sorting first is transitive.
pub proof fn text_less_transitive(a: Seq<char>, b: Seq<char>, c: Seq<char>)
    requires
        text_less(a, b),
        text_less(b, c),
    ensures
        text_less(a, c),
    decreases a.len(),
{
    if a.len() > 0 && b.len() > 0 && c.len() > 0 {
        if a[0] == b[0] && b[0] == c[0] {
            text_less_transitive(a.drop_first(), b.drop_first(), c.drop_first());
        }
    }
}

/// Three-way comparison of texts: -1, 0 or 1.
pub fn compare_text(a: &Vec<char>, b: &Vec<char>) -> (order: i8)
    ensures
        order == -1 <==> text_less(a@, b@),
        order == 0 <==> a@ == b@,
        order == 1 <==> text_less(b@, a@),
        -1 <= order <= 1,
{
    proof {
        text_less_trichotomy(a@, b@);
    }
    let mut i: usize = 0;
    while i < a.len() && i < b.len() && a[i] == b[i]
        invariant
            i <= a.len(),
            i <= b.len(),
            a@.take(i as int) == b@.take(i as int),
        decreases a.len() - i,
    {
        proof {
            assert(a@.take(i + 1) =~= a@.take(i as int).push(a@[i as int]));
            assert(b@.take(i + 1) =~= b@.take(i as int).push(b@[i as int]));
        }
        i = i + 1;
    }
    proof {
        lemma_text_less_common_prefix(a@, b@, i as int);
    }
    if i == a.len() && i == b.len() {
        assert(a@ =~= a@.take(i as int));
        assert(b@ =~= b@.take(i as int));
        0
    } else if i == a.len() {
        -1
    } else if i == b.len() {
        1
    } else if a[i] < b[i] {
        -1
    } else {
        1
    }
}

proof fn lemma_text_less_common_prefix(a: Seq<char>, b: Seq<char>, i: int)
    requires
        0 <= i <= a.len(),
        i <= b.len(),
        a.take(i) == b.take(i),
    ensures
        text_less(a, b) == text_less(a.skip(i), b.skip(i)),
    decreases i,
{
    if i > 0 {
        assert(a[0] == a.take(i)[0]);
        assert(b[0] == b.take(i)[0]);
        assert(a.drop_first().take(i - 1) =~= a.take(i).drop_first());
        assert(b.drop_first().take(i - 1) =~= b.take(i).drop_first());
        lemma_text_less_common_prefix(a.drop_first(), b.drop_first(), i - 1);
        assert(a.drop_first().skip(i - 1) =~= a.skip(i));
        assert(b.drop_first().skip(i - 1) =~= b.skip(i));
    } else {
        assert(a.skip(0) =~= a);
        assert(b.skip(0) =~= b);
    }
}

} // verus!
