//! Character-level helpers on strings.
use vstd::prelude::*;
use vstd::string::*;

verus! {

/// `needle` occurs as a contiguous run of characters in `hay`.
pub open spec fn seq_contains(hay: Seq<char>, needle: Seq<char>) -> bool {
    exists|i: int| 0 <= i && i + needle.len() <= hay.len()
        && #[trigger] hay.subrange(i, i + needle.len()) == needle
}

/// Equality of two strings, character by character.
pub fn text_eq(a: &str, b: &str) -> (r: bool)
    ensures
        r == (a@ == b@),
{
    let n = a.unicode_len();
    let m = b.unicode_len();
    if n != m {
        return false;
    }
    let mut i: usize = 0;
    while i < n
        invariant
            n == a@.len(),
            m == b@.len(),
            n == m,
            i <= n,
            a@.subrange(0, i as int) == b@.subrange(0, i as int),
        decreases n - i,
    {
        if a.get_char(i) != b.get_char(i) {
            assert(a@[i as int] != b@[i as int]);
            return false;
        }
        assert(a@.subrange(0, i + 1) == a@.subrange(0, i as int).push(a@[i as int]));
        assert(b@.subrange(0, i + 1) == b@.subrange(0, i as int).push(b@[i as int]));
        i = i + 1;
    }
    assert(a@ == a@.subrange(0, n as int));
    assert(b@ == b@.subrange(0, n as int));
    true
}

/// Whether `needle` occurs in `hay` starting at character `start`.
fn occurs_at(hay: &str, needle: &str, start: usize, hay_len: usize, needle_len: usize) -> (r: bool)
    requires
        hay_len == hay@.len(),
        needle_len == needle@.len(),
        start + needle_len <= hay_len,
    ensures
        r == (hay@.subrange(start as int, start + needle_len) == needle@),
{
    let mut j: usize = 0;
    while j < needle_len
        invariant
            hay_len == hay@.len(),
            needle_len == needle@.len(),
            start + needle_len <= hay_len,
            j <= needle_len,
            forall|k: int| 0 <= k < j ==> hay@[start + k] == needle@[k],
        decreases needle_len - j,
    {
        if hay.get_char(start + j) != needle.get_char(j) {
            assert(hay@.subrange(start as int, start + needle_len)[j as int] != needle@[j as int]);
            return false;
        }
        j = j + 1;
    }
    assert(hay@.subrange(start as int, start + needle_len) =~= needle@);
    true
}

/// Substring search: whether `needle` occurs anywhere in `hay`.
pub fn contains(hay: &str, needle: &str) -> (r: bool)
    ensures
        r == seq_contains(hay@, needle@),
{
    let n = hay.unicode_len();
    let m = needle.unicode_len();
    if m > n {
        return false;
    }
    let mut i: usize = 0;
    while i <= n - m
        invariant
            n == hay@.len(),
            m == needle@.len(),
            m <= n,
            i <= n - m + 1,
            forall|k: int| 0 <= k < i ==> #[trigger] hay@.subrange(k, k + m) != needle@,
        decreases n - m + 1 - i,
    {
        if occurs_at(hay, needle, i, n, m) {
            return true;
        }
        if i == n - m {
            return false;
        }
        i = i + 1;
    }
    false
}

/// The digit character for `d < 10`.
pub open spec fn digit_char(d: nat) -> char {
    if d == 0 { '0' } else if d == 1 { '1' } else if d == 2 { '2' } else if d == 3 { '3' }
    else if d == 4 { '4' } else if d == 5 { '5' } else if d == 6 { '6' } else if d == 7 { '7' }
    else if d == 8 { '8' } else { '9' }
}

/// Decimal digits of a number, without leading zeros.
pub open spec fn decimal(n: nat) -> Seq<char>
    decreases n,
{
    if n < 10 { seq![digit_char(n)] } else { decimal(n / 10).push(digit_char(n % 10)) }
}

/// `s` left-padded with zeros to at least `width` characters.
pub open spec fn zero_padded(s: Seq<char>, width: nat) -> Seq<char> {
    if s.len() >= width { s } else { Seq::new((width - s.len()) as nat, |i: int| '0') + s }
}

/// The text `m:ss.mmm` of a clock reading.
pub open spec fn clock_text(minutes: nat, seconds: nat, millis: nat) -> Seq<char> {
    decimal(minutes) + seq![':'] + zero_padded(decimal(seconds), 2) + seq!['.'] + zero_padded(decimal(millis), 3)
}

/// Relies on `u64`'s `ToString` (its `Display`): the decimal digits of the
/// number, without sign or leading zeros.
#[verifier::external_body]
pub(crate) fn decimal_string(n: u64) -> (r: String)
    ensures
        r@ == decimal(n as nat),
{
    n.to_string()
}

/// The decimal digits of `n`, zero-padded to at least `width` characters.
pub fn padded_decimal(n: u64, width: usize) -> (r: String)
    ensures
        r@ == zero_padded(decimal(n as nat), width as nat),
{
    let digits = decimal_string(n);
    let len = digits.as_str().unicode_len();
    if len >= width {
        return digits;
    }
    let mut out = String::new();
    let mut k: usize = 0;
    while k < width - len
        invariant
            k <= width - len,
            len < width,
            out@ == Seq::new(k as nat, |i: int| '0'),
        decreases width - len - k,
    {
        out.append("0");
        proof {
            reveal_strlit("0");
        }
        assert(out@ =~= Seq::new((k + 1) as nat, |i: int| '0'));
        k = k + 1;
    }
    out.append(digits.as_str());
    assert(out@ =~= zero_padded(decimal(n as nat), width as nat));
    out
}

/// A clock reading as `m:ss.mmm`.
pub fn clock_string(minutes: u64, seconds: u64, millis: u64) -> (r: String)
    ensures
        r@ == clock_text(minutes as nat, seconds as nat, millis as nat),
{
    let mut out = decimal_string(minutes);
    out.append(":");
    out.append(padded_decimal(seconds, 2).as_str());
    out.append(".");
    out.append(padded_decimal(millis, 3).as_str());
    proof {
        reveal_strlit(":");
        reveal_strlit(".");
    }
    assert(out@ =~= clock_text(minutes as nat, seconds as nat, millis as nat));
    out
}

/// A duration in nanoseconds as `m:ss.mmm`: whole minutes, then seconds
/// and milliseconds of the minute.
pub fn format_duration_ns(ns: u64) -> (r: String)
    ensures
        r@ == clock_text((ns / 60_000_000_000) as nat, ((ns / 1_000_000_000) % 60) as nat, ((ns / 1_000_000) % 1000) as nat),
{
    clock_string(ns / 60_000_000_000, (ns / 1_000_000_000) % 60, (ns / 1_000_000) % 1000)
}

/// A lap time in milliseconds as `m:ss.mmm`, or as `s.mmm` under a minute.
pub open spec fn lap_time_text(ms: nat) -> Seq<char> {
    if ms / 60_000 > 0 {
        clock_text(ms / 60_000, (ms / 1000) % 60, ms % 1000)
    } else {
        decimal((ms / 1000) % 60) + seq!['.'] + zero_padded(decimal(ms % 1000), 3)
    }
}

/// Formats a lap time given in milliseconds.
pub fn format_duration_as_lap_time(millis: u64) -> (r: String)
    ensures
        r@ == lap_time_text(millis as nat),
{
    let minutes = millis / 60_000;
    let seconds = (millis / 1000) % 60;
    let ms = millis % 1000;
    if minutes > 0 {
        clock_string(minutes, seconds, ms)
    } else {
        let mut out = decimal_string(seconds);
        out.append(".");
        out.append(padded_decimal(ms, 3).as_str());
        proof {
            reveal_strlit(".");
        }
        assert(out@ =~= lap_time_text(millis as nat));
        out
    }
}

/// `s` with every occurrence of `pat`, scanned left to right without
/// overlap, replaced by `with`.
pub open spec fn replaced(s: Seq<char>, pat: Seq<char>, with: Seq<char>) -> Seq<char>
    decreases s.len(),
{
    if s.len() == 0 || pat.len() == 0 {
        s
    } else if pat.len() <= s.len() && s.subrange(0, pat.len() as int) == pat {
        with + replaced(s.subrange(pat.len() as int, s.len() as int), pat, with)
    } else {
        seq![s[0]] + replaced(s.subrange(1, s.len() as int), pat, with)
    }
}

/// Replaces every occurrence of a non-empty pattern, as `str::replace` does.
pub fn replace_all(s: &str, pat: &str, with: &str) -> (r: String)
    requires
        pat@.len() > 0,
    ensures
        r@ == replaced(s@, pat@, with@),
{
    let n = s.unicode_len();
    let m = pat.unicode_len();
    let mut out = String::new();
    let mut i: usize = 0;
    assert(s@.subrange(0, n as int) == s@);
    assert(out@ + replaced(s@, pat@, with@) =~= replaced(s@, pat@, with@));
    while i < n
        invariant
            n == s@.len(),
            m == pat@.len(),
            m > 0,
            i <= n,
            out@ + replaced(s@.subrange(i as int, n as int), pat@, with@) == replaced(s@, pat@, with@),
        decreases n - i,
    {
        let ghost rest = s@.subrange(i as int, n as int);
        if m <= n - i && occurs_at(s, pat, i, n, m) {
            assert(rest.subrange(0, m as int) == s@.subrange(i as int, i + m));
            assert(rest.subrange(m as int, rest.len() as int) == s@.subrange(i + m, n as int));
            out.append(with);
            i = i + m;
        } else {
            assert(!(m <= rest.len() && rest.subrange(0, m as int) == pat@)) by {
                if m <= rest.len() {
                    assert(rest.subrange(0, m as int) == s@.subrange(i as int, i + m));
                }
            }
            assert(rest.subrange(1, rest.len() as int) == s@.subrange(i + 1, n as int));
            let piece = s.substring_char(i, i + 1);
            assert(piece@ =~= seq![rest[0]]);
            out.append(piece);
            i = i + 1;
        }
        proof {
            assert(out@ + replaced(s@.subrange(i as int, n as int), pat@, with@) =~= replaced(s@, pat@, with@));
        }
    }
    assert(s@.subrange(n as int, n as int) =~= Seq::<char>::empty());
    assert(out@ + Seq::<char>::empty() =~= out@);
    out
}

/// The pieces of `s` between occurrences of `sep`, as `str::split` with a
/// character gives them (always at least one piece).
pub open spec fn split_on(s: Seq<char>, sep: char) -> Seq<Seq<char>>
    decreases s.len(),
{
    if s.len() == 0 {
        seq![Seq::empty()]
    } else {
        let init = split_on(s.drop_last(), sep);
        if s.last() == sep {
            init.push(Seq::empty())
        } else {
            init.update(init.len() - 1, init.last().push(s.last()))
        }
    }
}

/// Splitting always gives at least one piece.
pub proof fn lemma_split_nonempty(s: Seq<char>, sep: char)
    ensures
        split_on(s, sep).len() >= 1,
    decreases s.len(),
{
    if s.len() > 0 {
        lemma_split_nonempty(s.drop_last(), sep);
    }
}

/// Splits a string at every occurrence of a separator character.
pub fn split_at_char(s: &str, sep: char) -> (r: Vec<String>)
    ensures
        r@.len() == split_on(s@, sep).len(),
        forall|k: int| 0 <= k < r@.len() ==> (#[trigger] r@[k])@ == split_on(s@, sep)[k],
{
    let n = s.unicode_len();
    let mut parts: Vec<String> = Vec::new();
    let mut current = String::new();
    let mut i: usize = 0;
    while i < n
        invariant
            n == s@.len(),
            i <= n,
            parts@.len() + 1 == split_on(s@.subrange(0, i as int), sep).len(),
            forall|k: int| 0 <= k < parts@.len() ==> (#[trigger] parts@[k])@ == split_on(s@.subrange(0, i as int), sep)[k],
            current@ == split_on(s@.subrange(0, i as int), sep).last(),
        decreases n - i,
    {
        let ghost pre = s@.subrange(0, i as int);
        let ghost next = s@.subrange(0, i + 1);
        assert(next.drop_last() == pre);
        assert(next.last() == s@[i as int]);
        proof {
            lemma_split_nonempty(pre, sep);
        }
        let c = s.get_char(i);
        if c == sep {
            let done = current;
            parts.push(done);
            current = String::new();
        } else {
            let piece = s.substring_char(i, i + 1);
            assert(piece@ =~= seq![c]);
            current.append(piece);
            assert(current@ =~= split_on(pre, sep).last().push(c));
        }
        i = i + 1;
    }
    assert(s@.subrange(0, n as int) == s@);
    proof {
        lemma_split_nonempty(s@, sep);
    }
    let ghost sp = split_on(s@, sep);
    let ghost before = parts@;
    parts.push(current);
    assert forall|k: int| 0 <= k < parts@.len() implies (#[trigger] parts@[k])@ == sp[k] by {
        if k < before.len() {
            assert(parts@[k] == before[k]);
        }
    }
    parts
}

/// The lower-case form of a string, as `str::to_lowercase` gives it.
pub uninterp spec fn lowercase_of(s: Seq<char>) -> Seq<char>;

/// Relies on `str::to_lowercase`: its result depends on the characters alone.
#[verifier::external_body]
pub(crate) fn lowercase(s: &str) -> (r: String)
    ensures
        r@ == lowercase_of(s@),
{
    s.to_lowercase()
}

/// What `str::trim` leaves of a string.
pub uninterp spec fn trimmed_of(s: Seq<char>) -> Seq<char>;

/// Relies on `str::trim`: the result depends on the characters alone.
#[verifier::external_body]
pub(crate) fn trim(s: &str) -> (r: &str)
    ensures
        r@ == trimmed_of(s@),
{
    s.trim()
}

/// A decimal digit.
pub open spec fn is_digit(c: char) -> bool {
    '0' <= c <= '9'
}

/// Only decimal digits.
pub open spec fn all_digits(d: Seq<char>) -> bool {
    forall|i: int| 0 <= i < d.len() ==> is_digit(#[trigger] d[i])
}

/// The number written by a string of decimal digits.
pub open spec fn digits_value(d: Seq<char>) -> int
    decreases d.len(),
{
    if d.len() == 0 { 0 } else { digits_value(d.drop_last()) * 10 + (d.last() as int - '0' as int) }
}

/// The digits after an optional leading `+`.
pub open spec fn unsigned_digits(s: Seq<char>) -> Seq<char> {
    if s.len() > 0 && s[0] == '+' { s.subrange(1, s.len() as int) } else { s }
}

/// What parsing an unsigned integer of at most `max` gives, as the standard
/// integer parsers do: an optional `+`, then one or more decimal digits
/// whose value does not exceed `max`.
pub open spec fn parsed_unsigned(s: Seq<char>, max: int) -> Option<int> {
    let d = unsigned_digits(s);
    if d.len() > 0 && all_digits(d) && digits_value(d) <= max {
        Some(digits_value(d))
    } else {
        None
    }
}

proof fn lemma_digits_value_nonneg(d: Seq<char>)
    requires
        forall|i: int| 0 <= i < d.len() ==> is_digit(#[trigger] d[i]),
    ensures
        digits_value(d) >= 0,
    decreases d.len(),
{
    if d.len() > 0 {
        let t = d.drop_last();
        assert forall|i: int| 0 <= i < t.len() implies is_digit(#[trigger] t[i]) by {
            assert(t[i] == d[i]);
        }
        lemma_digits_value_nonneg(t);
        assert(is_digit(d[d.len() - 1]));
    }
}

proof fn lemma_digits_prefix_grows(d: Seq<char>, k: int)
    requires
        0 <= k <= d.len(),
        forall|i: int| 0 <= i < d.len() ==> is_digit(#[trigger] d[i]),
    ensures
        digits_value(d.subrange(0, k)) <= digits_value(d),
    decreases d.len() - k,
{
    if k == d.len() {
        assert(d.subrange(0, k) == d);
    } else {
        lemma_digits_prefix_grows(d, k + 1);
        let a = d.subrange(0, k);
        let b = d.subrange(0, k + 1);
        assert(b.drop_last() == a);
        assert(is_digit(d[k]));
        assert forall|i: int| 0 <= i < a.len() implies is_digit(#[trigger] a[i]) by {
            assert(a[i] == d[i]);
        }
        lemma_digits_value_nonneg(a);
        assert(digits_value(a) <= digits_value(a) * 10) by (nonlinear_arith)
            requires digits_value(a) >= 0;
    }
}

/// Parses an unsigned decimal integer of at most `max`.
pub fn parse_unsigned(s: &str, max: u64) -> (r: Option<u64>)
    ensures
        r matches Some(v) ==> parsed_unsigned(s@, max as int) == Some(v as int),
        r is None ==> parsed_unsigned(s@, max as int) is None,
{
    let n = s.unicode_len();
    let start: usize = if n > 0 && s.get_char(0) == '+' { 1 } else { 0 };
    let ghost d = unsigned_digits(s@);
    assert(d == s@.subrange(start as int, n as int));
    if start == n {
        return None;
    }
    let mut value: u64 = 0;
    let mut i: usize = start;
    while i < n
        invariant
            n == s@.len(),
            start <= i <= n,
            d == unsigned_digits(s@),
            d == s@.subrange(start as int, n as int),
            forall|k: int| 0 <= k < i - start ==> is_digit(#[trigger] d[k]),
            value as int == digits_value(d.subrange(0, i - start)),
            value <= max,
        decreases n - i,
    {
        let c = s.get_char(i);
        assert(c == d[i - start]);
        if c < '0' || c > '9' {
            assert(!is_digit(d[i - start]));
            assert(!all_digits(d));
            assert(parsed_unsigned(s@, max as int) is None);
            return None;
        }
        let digit = (c as u32 - '0' as u32) as u64;
        assert(d.subrange(0, i + 1 - start).drop_last() == d.subrange(0, i - start));
        assert(d.subrange(0, i + 1 - start).last() == c);
        if digit > max || value > (max - digit) / 10 {
            proof {
                let pre = d.subrange(0, i + 1 - start);
                assert(digits_value(pre) == value * 10 + digit);
                if digit <= max {
                    assert(value * 10 + digit > max) by (nonlinear_arith)
                        requires value > (max - digit) / 10, digit <= max;
                }
                if all_digits(d) {
                    lemma_digits_prefix_grows(d, i + 1 - start);
                    assert(digits_value(d) > max);
                }
                assert(parsed_unsigned(s@, max as int) is None);
            }
            return None;
        }
        assert(value * 10 + digit <= max) by (nonlinear_arith)
            requires value <= (max - digit) / 10, digit <= 9, max >= digit;
        value = value * 10 + digit;
        i = i + 1;
    }
    assert(d.subrange(0, n - start) == d);
    Some(value)
}

/// Largest `u64`.
pub const U64_MAX: u64 = 0xffff_ffff_ffff_ffff;

/// Milliseconds written as `seconds.millis`, each part a plain unsigned number.
pub open spec fn seconds_millis(p: Seq<char>) -> Option<int> {
    let sp = split_on(p, '.');
    if sp.len() != 2 {
        None
    } else {
        match (parsed_unsigned(sp[0], U64_MAX as int), parsed_unsigned(sp[1], U64_MAX as int)) {
            (Some(sec), Some(ms)) => Some(sec * 1000 + ms),
            _ => None,
        }
    }
}

/// The milliseconds of a lap time written `m:s.ms` or `s.ms`, when they
/// fit in a `u64`.
pub open spec fn lap_time_millis(s: Seq<char>) -> Option<int> {
    let parts = split_on(s, ':');
    if parts.len() == 2 {
        match (parsed_unsigned(parts[0], U64_MAX as int), seconds_millis(parts[1])) {
            (Some(m), Some(x)) => if m * 60_000 + x <= U64_MAX { Some(m * 60_000 + x) } else { None },
            _ => None,
        }
    } else if parts.len() == 1 {
        match seconds_millis(parts[0]) {
            Some(x) => if x <= U64_MAX { Some(x) } else { None },
            None => None,
        }
    } else {
        None
    }
}

fn parse_seconds_millis(p: &str) -> (r: Option<u128>)
    ensures
        r matches Some(v) ==> seconds_millis(p@) == Some(v as int),
        r is None ==> seconds_millis(p@) is None,
{
    let sp = split_at_char(p, '.');
    if sp.len() != 2 {
        return None;
    }
    let sec = parse_unsigned(sp[0].as_str(), U64_MAX);
    let ms = parse_unsigned(sp[1].as_str(), U64_MAX);
    match (sec, ms) {
        (Some(a), Some(b)) => Some(a as u128 * 1000 + b as u128),
        _ => None,
    }
}

/// Parses a lap time such as `1:30.123` or `30.123` into milliseconds.
pub fn parse_lap_time(time_str: &str) -> (r: Option<u64>)
    ensures
        r matches Some(v) ==> lap_time_millis(time_str@) == Some(v as int),
        r is None ==> lap_time_millis(time_str@) is None,
{
    let parts = split_at_char(time_str, ':');
    if parts.len() == 2 {
        let minutes = parse_unsigned(parts[0].as_str(), U64_MAX);
        let rest = parse_seconds_millis(parts[1].as_str());
        match (minutes, rest) {
            (Some(m), Some(x)) => {
                assert(x <= U64_MAX as u128 * 1000 + U64_MAX as u128);
                let total = m as u128 * 60_000 + x;
                if total <= U64_MAX as u128 { Some(total as u64) } else { None }
            },
            _ => None,
        }
    } else if parts.len() == 1 {
        match parse_seconds_millis(parts[0].as_str()) {
            Some(x) => if x <= U64_MAX as u128 { Some(x as u64) } else { None },
            None => None,
        }
    } else {
        None
    }
}

/// `s` begins with `p`.
pub open spec fn seq_starts_with(s: Seq<char>, p: Seq<char>) -> bool {
    p.len() <= s.len() && s.subrange(0, p.len() as int) == p
}

/// `s` ends with `p`.
pub open spec fn seq_ends_with(s: Seq<char>, p: Seq<char>) -> bool {
    p.len() <= s.len() && s.subrange(s.len() - p.len(), s.len() as int) == p
}

/// Whether a string begins with a given text.
pub fn starts_with(s: &str, p: &str) -> (r: bool)
    ensures
        r == seq_starts_with(s@, p@),
{
    let n = s.unicode_len();
    let m = p.unicode_len();
    if m > n {
        return false;
    }
    occurs_at(s, p, 0, n, m)
}

/// Whether a string ends with a given text.
pub fn ends_with(s: &str, p: &str) -> (r: bool)
    ensures
        r == seq_ends_with(s@, p@),
{
    let n = s.unicode_len();
    let m = p.unicode_len();
    if m > n {
        return false;
    }
    occurs_at(s, p, n - m, n, m)
}

} // verus!
