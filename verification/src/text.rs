//! Character-sequence helpers shared by the SQL builders and the message
//! formatters: decimal rendering, Unicode white space, trimming.

use vstd::prelude::*;

verus! {

/// The ASCII digit for a value in `0..10`.
pub open spec fn digit_char(d: int) -> char {
    if d == 0 {
        '0'
    } else if d == 1 {
        '1'
    } else if d == 2 {
        '2'
    } else if d == 3 {
        '3'
    } else if d == 4 {
        '4'
    } else if d == 5 {
        '5'
    } else if d == 6 {
        '6'
    } else if d == 7 {
        '7'
    } else if d == 8 {
        '8'
    } else {
        '9'
    }
}

/// The decimal representation of a natural number, most significant digit
/// first and without leading zeros.
pub open spec fn decimal_nat(n: nat) -> Seq<char>
    decreases n,
{
    if n < 10 {
        seq![digit_char(n as int)]
    } else {
        decimal_nat(n / 10) + seq![digit_char((n % 10) as int)]
    }
}

/// The decimal representation of an integer, with a leading minus sign when
/// it is negative: what `Display` prints for Rust's integer types.
pub open spec fn decimal(n: int) -> Seq<char> {
    if n < 0 {
        seq!['-'] + decimal_nat((-n) as nat)
    } else {
        decimal_nat(n as nat)
    }
}

/// Appends one character to a string (`String::push`).
#[verifier::external_body]
pub(crate) fn push_char(s: &mut String, c: char)
    ensures
        final(s)@ == old(s)@.push(c),
{
    s.push(c);
}

fn digit(d: u128) -> (c: char)
    requires
        d < 10,
    ensures
        c == digit_char(d as int),
{
    if d == 0 {
        '0'
    } else if d == 1 {
        '1'
    } else if d == 2 {
        '2'
    } else if d == 3 {
        '3'
    } else if d == 4 {
        '4'
    } else if d == 5 {
        '5'
    } else if d == 6 {
        '6'
    } else if d == 7 {
        '7'
    } else if d == 8 {
        '8'
    } else {
        '9'
    }
}

/// Appends the decimal digits of `n`.
pub fn write_decimal(n: u128, out: &mut String)
    ensures
        final(out)@ == old(out)@ + decimal_nat(n as nat),
    decreases n,
{
    if n >= 10 {
        write_decimal(n / 10, out);
    }
    push_char(out, digit(n % 10));
    assert(final(out)@ =~= old(out)@ + decimal_nat(n as nat));
}

/// Appends `n` as `Display` renders a signed integer.
pub fn write_signed(n: i128, out: &mut String)
    ensures
        final(out)@ == old(out)@ + decimal(n as int),
{
    if n < 0 {
        push_char(out, '-');
        let magnitude: u128 = (-(n + 1)) as u128 + 1;
        write_decimal(magnitude, out);
        assert(final(out)@ =~= old(out)@ + decimal(n as int));
    } else {
        write_decimal(n as u128, out);
    }
}

/// `n` rendered in decimal, as `n.to_string()` does.
pub fn signed_decimal(n: i64) -> (s: String)
    ensures
        s@ == decimal(n as int),
{
    let mut s = String::new();
    write_signed(n as i128, &mut s);
    assert(s@ =~= decimal(n as int));
    s
}

/// The characters of `s`, in order.
pub fn chars_of(s: &str) -> (v: Vec<char>)
    ensures
        v@ == s@,
{
    let mut v: Vec<char> = Vec::new();
    for c in it: s.chars()
        invariant
            v@ == it.seq().take(it.index() as int),
    {
        v.push(c);
    }
    v
}

/// Appends every character of `t`, as `String::push_str` does.
pub fn append(out: &mut String, t: &str)
    ensures
        final(out)@ == old(out)@ + t@,
{
    let chars = chars_of(t);
    let ghost start = out@;
    let mut k: usize = 0;
    while k < chars.len()
        invariant
            k <= chars@.len(),
            chars@ == t@,
            out@ == start + t@.take(k as int),
        decreases chars.len() - k,
    {
        push_char(out, chars[k]);
        k = k + 1;
        assert(out@ =~= start + t@.take(k as int));
    }
    assert(t@.take(k as int) =~= t@);
}

/// Unicode `White_Space`: what `char::is_whitespace`, `str::trim` and
/// `str::split_whitespace` treat as white space.
pub open spec fn is_white(c: char) -> bool {
    let u = c as int;
    ||| 9 <= u <= 13
    ||| u == 32
    ||| u == 0x85
    ||| u == 0xA0
    ||| u == 0x1680
    ||| 0x2000 <= u <= 0x200A
    ||| u == 0x2028
    ||| u == 0x2029
    ||| u == 0x202F
    ||| u == 0x205F
    ||| u == 0x3000
}

/// Whether `c` is Unicode white space.
pub fn is_white_space(c: char) -> (r: bool)
    ensures
        r == is_white(c),
{
    let u = c as u32;
    (9 <= u && u <= 13) || u == 32 || u == 0x85 || u == 0xA0 || u == 0x1680 || (0x2000 <= u && u
        <= 0x200A) || u == 0x2028 || u == 0x2029 || u == 0x202F || u == 0x205F || u == 0x3000
}

/// `s` without its leading white space.
pub open spec fn trim_start(s: Seq<char>) -> Seq<char>
    decreases s.len(),
{
    if s.len() > 0 && is_white(s[0]) {
        trim_start(s.drop_first())
    } else {
        s
    }
}

/// `s` without its trailing white space.
pub open spec fn trim_end(s: Seq<char>) -> Seq<char>
    decreases s.len(),
{
    if s.len() > 0 && is_white(s.last()) {
        trim_end(s.drop_last())
    } else {
        s
    }
}

/// `s` without leading or trailing white space, as `str::trim` returns it.
pub open spec fn trim(s: Seq<char>) -> Seq<char> {
    trim_end(trim_start(s))
}

proof fn lemma_trim_start_skip(s: Seq<char>, i: int)
    requires
        0 <= i < s.len(),
        is_white(s[i]),
    ensures
        trim_start(s.subrange(i, s.len() as int)) == trim_start(s.subrange(i + 1, s.len() as int)),
{
    assert(s.subrange(i, s.len() as int).drop_first() =~= s.subrange(i + 1, s.len() as int));
}

/// Trimming leaves a sequence that neither starts nor ends with white space.
pub proof fn lemma_trim_bounds(s: Seq<char>)
    ensures
        trim(s).len() > 0 ==> !is_white(trim(s)[0]) && !is_white(trim(s).last()),
        trim(s).len() == 0 ==> forall|i: int| 0 <= i < s.len() ==> is_white(#[trigger] s[i]),
    decreases s.len(),
{
    lemma_trim_start_shape(s);
    lemma_trim_end_shape(trim_start(s));
}

/// Text made of white space alone trims to nothing.
pub proof fn lemma_white_trims_to_nothing(s: Seq<char>)
    requires
        forall|i: int| 0 <= i < s.len() ==> is_white(#[trigger] s[i]),
    ensures
        trim(s).len() == 0,
{
    lemma_trim_start_white(s);
}

proof fn lemma_trim_start_white(s: Seq<char>)
    requires
        forall|i: int| 0 <= i < s.len() ==> is_white(#[trigger] s[i]),
    ensures
        trim_start(s).len() == 0,
    decreases s.len(),
{
    if s.len() > 0 {
        assert(is_white(s[0]));
        assert forall|i: int| 0 <= i < s.drop_first().len() implies is_white(#[trigger] s.drop_first()[i]) by {
            assert(s.drop_first()[i] == s[i + 1]);
        }
        lemma_trim_start_white(s.drop_first());
    }
}

proof fn lemma_trim_start_shape(s: Seq<char>)
    ensures
        trim_start(s).len() > 0 ==> !is_white(trim_start(s)[0]),
        trim_start(s).len() <= s.len(),
        trim_start(s) == s.subrange(s.len() - trim_start(s).len(), s.len() as int),
        forall|i: int| 0 <= i < s.len() - trim_start(s).len() ==> is_white(#[trigger] s[i]),
    decreases s.len(),
{
    if s.len() > 0 && is_white(s[0]) {
        lemma_trim_start_shape(s.drop_first());
        assert forall|i: int| 0 <= i < s.len() - trim_start(s).len() implies is_white(#[trigger] s[i]) by {
            if i > 0 {
                assert(s[i] == s.drop_first()[i - 1]);
            }
        }
        assert(s.drop_first().subrange(s.drop_first().len() - trim_start(s).len(), s.drop_first().len() as int)
            =~= s.subrange(s.len() - trim_start(s).len(), s.len() as int));
    } else {
        assert(s =~= s.subrange(0, s.len() as int));
    }
}

proof fn lemma_trim_end_shape(s: Seq<char>)
    ensures
        trim_end(s).len() > 0 ==> !is_white(trim_end(s).last()),
        trim_end(s).len() <= s.len(),
        trim_end(s) == s.subrange(0, trim_end(s).len() as int),
        trim_end(s).len() > 0 ==> (forall|i: int| trim_end(s).len() <= i < s.len() ==> is_white(#[trigger] s[i])),
        trim_end(s).len() == 0 ==> (forall|i: int| 0 <= i < s.len() ==> is_white(#[trigger] s[i])),
    decreases s.len(),
{
    if s.len() > 0 && is_white(s.last()) {
        lemma_trim_end_shape(s.drop_last());
        assert forall|i: int| trim_end(s).len() <= i < s.len() implies is_white(#[trigger] s[i]) by {
            if i < s.len() - 1 {
                assert(s[i] == s.drop_last()[i]);
            }
        }
        assert(s.drop_last().subrange(0, trim_end(s).len() as int) =~= s.subrange(0, trim_end(s).len() as int));
    } else {
        assert(s =~= s.subrange(0, s.len() as int));
    }
}

/// The bounds of the trimmed part of `v`: `v[start..end]` is `trim(v)`.
pub fn trim_bounds(v: &Vec<char>) -> (r: (usize, usize))
    ensures
        r.0 <= r.1 <= v@.len(),
        v@.subrange(r.0 as int, r.1 as int) == trim(v@),
{
    let n = v.len();
    let mut start: usize = 0;
    assert(v@.subrange(0, n as int) =~= v@);
    while start < n && is_white_space(v[start])
        invariant
            start <= n == v@.len(),
            trim_start(v@) == trim_start(v@.subrange(start as int, n as int)),
        decreases n - start,
    {
        proof {
            lemma_trim_start_skip(v@, start as int);
        }
        start = start + 1;
    }
    let ghost rest = v@.subrange(start as int, n as int);
    assert(trim_start(rest) == rest) by {
        if rest.len() > 0 {
            assert(rest[0] == v@[start as int]);
        }
    }
    let mut end: usize = n;
    while end > start && is_white_space(v[end - 1])
        invariant
            start <= end <= n == v@.len(),
            trim_end(rest) == trim_end(v@.subrange(start as int, end as int)),
        decreases end - start,
    {
        proof {
            let cur = v@.subrange(start as int, end as int);
            assert(cur.drop_last() =~= v@.subrange(start as int, end - 1));
            assert(cur.last() == v@[end - 1]);
        }
        end = end - 1;
    }
    proof {
        let cur = v@.subrange(start as int, end as int);
        if cur.len() > 0 {
            assert(cur.last() == v@[end - 1]);
        }
        assert(trim_end(cur) == cur);
    }
    (start, end)
}

/// `s` cut at every `sep`, as `str::split` yields the pieces: always at
/// least one piece, empty pieces kept.
pub open spec fn split_on(s: Seq<char>, sep: char) -> Seq<Seq<char>>
    decreases s.len(),
{
    if s.len() == 0 {
        seq![seq![]]
    } else {
        let parts = split_on(s.drop_last(), sep);
        if s.last() == sep {
            parts.push(seq![])
        } else {
            parts.update(parts.len() - 1, parts.last().push(s.last()))
        }
    }
}

pub proof fn lemma_split_on_nonempty(s: Seq<char>, sep: char)
    ensures
        split_on(s, sep).len() >= 1,
    decreases s.len(),
{
    if s.len() > 0 {
        lemma_split_on_nonempty(s.drop_last(), sep);
    }
}

/// An ASCII decimal digit.
pub open spec fn is_digit(c: char) -> bool {
    '0' <= c && c <= '9'
}

/// The value of a string of decimal digits.
pub open spec fn digits_value(d: Seq<char>) -> int
    decreases d.len(),
{
    if d.len() == 0 {
        0
    } else {
        digits_value(d.drop_last()) * 10 + (d.last() as int - '0' as int)
    }
}

/// The digits `u32::from_str` reads: an optional leading `+` dropped.
pub open spec fn unsigned_digits(s: Seq<char>) -> Seq<char> {
    if s.len() > 0 && s[0] == '+' {
        s.drop_first()
    } else {
        s
    }
}

/// What `s.parse::<u32>().ok()` gives: `Some` exactly when `s` is an optional
/// `+` followed by at least one ASCII digit and the value fits in a `u32`.
pub open spec fn parse_u32(s: Seq<char>) -> Option<u32> {
    let d = unsigned_digits(s);
    if d.len() > 0 && (forall|i: int| 0 <= i < d.len() ==> is_digit(#[trigger] d[i]))
        && digits_value(d) <= u32::MAX {
        Some(digits_value(d) as u32)
    } else {
        None
    }
}

/// A string of digits is worth no less than any of its leading parts, and
/// never less than zero.
pub proof fn lemma_digits_value_grows(d: Seq<char>, k: int)
    requires
        0 <= k <= d.len(),
        forall|i: int| 0 <= i < d.len() ==> is_digit(#[trigger] d[i]),
    ensures
        0 <= digits_value(d.take(k)) <= digits_value(d),
    decreases d.len(),
{
    if d.len() > 0 {
        if k == d.len() {
            assert(d.take(k) =~= d);
            lemma_digits_value_grows(d.drop_last(), k - 1);
            assert(d.drop_last().take(k - 1) =~= d.drop_last());
        } else {
            lemma_digits_value_grows(d.drop_last(), k);
            assert(d.drop_last().take(k) =~= d.take(k));
            lemma_digits_value_grows(d.drop_last(), d.len() - 1);
            assert(d.drop_last().take(d.len() - 1) =~= d.drop_last());
            assert(is_digit(d.last()));
        }
    }
}

/// `s` without leading or trailing white space, as `str::trim` leaves it.
pub fn trimmed(s: &str) -> (t: Vec<char>)
    ensures
        t@ == trim(s@),
{
    let v = chars_of(s);
    let (start, end) = trim_bounds(&v);
    let mut t: Vec<char> = Vec::new();
    let mut k = start;
    while k < end
        invariant
            start <= k <= end <= v@.len(),
            t@ == v@.subrange(start as int, k as int),
        decreases end - k,
    {
        t.push(v[k]);
        assert(v@.subrange(start as int, k + 1) =~= v@.subrange(start as int, k as int).push(v@[k as int]));
        k = k + 1;
    }
    t
}

/// A string holding the characters of `chars`.
pub fn string_of(chars: &Vec<char>) -> (s: String)
    ensures
        s@ == chars@,
{
    let mut s = String::new();
    let mut k: usize = 0;
    while k < chars.len()
        invariant
            k <= chars@.len(),
            s@ == chars@.take(k as int),
        decreases chars.len() - k,
    {
        push_char(&mut s, chars[k]);
        k = k + 1;
        assert(s@ =~= chars@.take(k as int));
    }
    assert(chars@.take(k as int) =~= chars@);
    s
}

/// Parses a decimal `u32` as `str::parse` does.
pub fn parse_u32_chars(s: &Vec<char>) -> (r: Option<u32>)
    ensures
        r == parse_u32(s@),
{
    let n = s.len();
    let first: usize = if n > 0 && s[0] == '+' { 1 } else { 0 };
    let ghost d = unsigned_digits(s@);
    assert(d =~= s@.subrange(first as int, n as int));
    if first == n {
        return None;
    }
    let mut acc: u64 = 0;
    let mut i = first;
    while i < n
        invariant
            first <= i <= n == s@.len(),
            d == s@.subrange(first as int, n as int),
            d == unsigned_digits(s@),
            d.len() > 0,
            forall|j: int| 0 <= j < i - first ==> is_digit(#[trigger] d[j]),
            acc as int == digits_value(d.take(i - first)),
            acc <= u32::MAX,
        decreases n - i,
    {
        let c = s[i];
        assert(d[i - first] == c);
        if !('0' <= c && c <= '9') {
            assert(!is_digit(c));
            assert(!is_digit(d[i - first]));
            assert(!(forall|j: int| 0 <= j < d.len() ==> is_digit(#[trigger] d[j])));
            return None;
        }
        let digit = (c as u32 - '0' as u32) as u64;
        assert(digit as int == c as int - '0' as int);
        assert(d.take(i + 1 - first).drop_last() =~= d.take(i - first));
        assert(d.take(i + 1 - first).last() == c);
        let next = acc * 10 + digit;
        assert(next as int == digits_value(d.take(i + 1 - first)));
        if next > u32::MAX as u64 {
            proof {
                if forall|j: int| 0 <= j < d.len() ==> is_digit(#[trigger] d[j]) {
                    lemma_digits_value_grows(d, i + 1 - first);
                }
            }
            return None;
        }
        acc = next;
        i = i + 1;
    }
    assert(d.take(n - first) =~= d);
    Some(acc as u32)
}

/// Whether `s` begins with `prefix` (`str::starts_with`).
pub fn has_prefix(s: &str, prefix: &str) -> (r: bool)
    ensures
        r == prefix@.is_prefix_of(s@),
{
    let sv = chars_of(s);
    let pv = chars_of(prefix);
    if pv.len() > sv.len() {
        return false;
    }
    let mut i: usize = 0;
    while i < pv.len()
        invariant
            i <= pv@.len() <= sv@.len(),
            sv@ == s@,
            pv@ == prefix@,
            forall|j: int| 0 <= j < i ==> pv@[j] == sv@[j],
        decreases pv@.len() - i,
    {
        if pv[i] != sv[i] {
            return false;
        }
        i = i + 1;
    }
    true
}

/// Whether `s` and `t` hold the same characters (`==` on `str`).
pub fn same_text(s: &str, t: &str) -> (r: bool)
    ensures
        r == (s@ == t@),
{
    let prefix = has_prefix(s, t);
    let r = prefix && s.unicode_len() == t.unicode_len();
    if r {
        assert(s@ =~= t@);
    }
    r
}

/// `needle` occurs somewhere in `haystack`; the empty text occurs
/// everywhere.
pub open spec fn has_text(haystack: Seq<char>, needle: Seq<char>) -> bool {
    exists|i: int|
        0 <= i && i + needle.len() <= haystack.len() && #[trigger] haystack.subrange(i, i + needle.len())
            == needle
}

/// A text occurs in any text built around it.
pub proof fn lemma_has_text_between(before: Seq<char>, piece: Seq<char>, after: Seq<char>)
    ensures
        has_text(before + piece + after, piece),
{
    let whole = before + piece + after;
    let i = before.len() as int;
    assert(whole.subrange(i, i + piece.len()) =~= piece);
}

/// What occurs in a part occurs in the whole.
pub proof fn lemma_has_text_within(haystack: Seq<char>, part: Seq<char>, needle: Seq<char>)
    requires
        has_text(haystack, part),
        has_text(part, needle),
    ensures
        has_text(haystack, needle),
{
    let i = choose|i: int|
        0 <= i && i + part.len() <= haystack.len() && #[trigger] haystack.subrange(i, i + part.len()) == part;
    let j = choose|j: int|
        0 <= j && j + needle.len() <= part.len() && #[trigger] part.subrange(j, j + needle.len()) == needle;
    assert(haystack.subrange(i + j, i + j + needle.len()) =~= part.subrange(j, j + needle.len()));
}

/// `needle` found at position `i` of `haystack`.
pub proof fn lemma_has_text_at(haystack: Seq<char>, needle: Seq<char>, i: int)
    requires
        0 <= i,
        i + needle.len() <= haystack.len(),
        haystack.subrange(i, i + needle.len()) == needle,
    ensures
        has_text(haystack, needle),
{
}

/// The trimmed text is a piece of the text.
pub proof fn lemma_trim_is_within(s: Seq<char>)
    ensures
        has_text(s, trim(s)),
{
    let t = trim_start(s);
    lemma_trim_start_shape(s);
    lemma_trim_end_shape(t);
    let start = s.len() - t.len();
    assert(trim(s) =~= s.subrange(start, start + trim(s).len()));
    lemma_has_text_at(s, trim(s), start);
}

} // verus!
