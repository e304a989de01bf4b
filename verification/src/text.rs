//! Character-level text utilities shared by the tool-output parsers:
//! line splitting, whitespace tokenizing, substring search, trimming and
//! decimal parsing/printing. Everything is modeled over `Seq<char>`
//! views, with one spec function per operation.

use vstd::prelude::*;

verus! {

/// ASCII whitespace, the separators the diagnostic tools emit.
pub open spec fn is_ws_char(c: char) -> bool {
    c == ' ' || c == '\t' || c == '\r' || c == '\n' || c == '\u{b}' || c == '\u{c}'
}

/// Whitespace test matching [`is_ws_char`].
pub fn ws_char(c: char) -> (r: bool)
    ensures
        r == is_ws_char(c),
{
    c == ' ' || c == '\t' || c == '\r' || c == '\n' || c == '\u{b}' || c == '\u{c}'
}

/// Index of the first line feed at or after `i`, or the length of `s`
/// when no further line feed exists.
pub open spec fn line_break(s: Seq<char>, i: int) -> int
    decreases s.len() - i,
{
    if i < 0 || i >= s.len() {
        s.len() as int
    } else if s[i] == '\n' {
        i
    } else {
        line_break(s, i + 1)
    }
}

pub proof fn lemma_line_break_bounds(s: Seq<char>, i: int)
    requires
        0 <= i <= s.len(),
    ensures
        i <= line_break(s, i) <= s.len(),
    decreases s.len() - i,
{
    if i < s.len() && s[i] != '\n' {
        lemma_line_break_bounds(s, i + 1);
    }
}

/// The line starting at position `i`: the text up to the next line feed,
/// with a carriage return stripped from its end when a line feed
/// follows. A final line without a terminator keeps a trailing carriage
/// return, as the standard line iterator does.
pub open spec fn line_at(s: Seq<char>, i: int) -> Seq<char> {
    let j = line_break(s, i);
    let raw = s.subrange(i, j);
    if j < s.len() && raw.len() > 0 && raw.last() == '\r' {
        raw.drop_last()
    } else {
        raw
    }
}

/// Extracts the line starting at `start` and reports the position of the
/// line break that ends it.
pub fn next_line(s: &str, start: usize) -> (r: (String, usize))
    requires
        start < s@.len(),
    ensures
        r.1 == line_break(s@, start as int),
        start <= r.1 <= s@.len(),
        r.0@ == line_at(s@, start as int),
{
    let n = s.unicode_len();
    let mut j = start;
    loop
        invariant
            start <= j <= n,
            n == s@.len(),
            start < s@.len(),
            line_break(s@, start as int) == line_break(s@, j as int),
        ensures
            start <= j <= n,
            j == n || s@[j as int] == '\n',
            line_break(s@, start as int) == line_break(s@, j as int),
        decreases n - j,
    {
        if j == n {
            break ;
        }
        if s.get_char(j) == '\n' {
            break ;
        }
        j = j + 1;
    }
    proof {
        lemma_line_break_bounds(s@, start as int);
    }
    let end: usize = if j < n && j > start && s.get_char(j - 1) == '\r' {
        j - 1
    } else {
        j
    };
    let line = s.substring_char(start, end).to_owned();
    proof {
        assert(line@ =~= line_at(s@, start as int));
    }
    (line, j)
}

/// `needle` occurs in `hay` as a contiguous subsequence.
pub open spec fn spec_contains(hay: Seq<char>, needle: Seq<char>) -> bool {
    exists|k: int|
        0 <= k && k + needle.len() <= hay.len() && #[trigger] hay.subrange(k, k + needle.len())
            == needle
}

/// Substring search, as the standard `contains` on string slices.
pub fn contains_sub(hay: &str, needle: &str) -> (found: bool)
    ensures
        found == spec_contains(hay@, needle@),
{
    let n = hay.unicode_len();
    let m = needle.unicode_len();
    if m > n {
        return false;
    }
    if m == 0 {
        proof {
            assert(hay@.subrange(0, 0 + needle@.len() as int) =~= needle@);
        }
        return true;
    }
    let mut k: usize = 0;
    while k <= n - m
        invariant
            1 <= m <= n,
            n == hay@.len(),
            m == needle@.len(),
            k <= n - m + 1,
            forall|k2: int|
                0 <= k2 < k ==> #[trigger] hay@.subrange(k2, k2 + needle@.len()) != needle@,
        decreases n - m - k + 1,
    {
        let mut j: usize = 0;
        let mut matches = true;
        while j < m
            invariant
                matches ==> forall|j2: int| 0 <= j2 < j ==> hay@[k + j2] == needle@[j2],
                !matches ==> hay@.subrange(k as int, k + needle@.len()) != needle@,
                j <= m,
                k + m <= n,
                n == hay@.len(),
                m == needle@.len(),
            decreases m - j,
        {
            if hay.get_char(k + j) != needle.get_char(j) {
                proof {
                    assert(hay@.subrange(k as int, k + needle@.len())[j as int] != needle@[j as int]);
                }
                matches = false;
                j = m;
            } else {
                j = j + 1;
            }
        }
        if matches {
            proof {
                assert(hay@.subrange(k as int, k + needle@.len()) =~= needle@);
            }
            return true;
        }
        k = k + 1;
    }
    false
}

/// Index of the first occurrence of `needle` in `hay` at or after `i`,
/// or nothing when there is none.
pub open spec fn spec_find_from(hay: Seq<char>, needle: Seq<char>, i: int) -> Option<int>
    decreases hay.len() - i + 1,
{
    if i < 0 || i + needle.len() > hay.len() {
        None
    } else if hay.subrange(i, i + needle.len()) == needle {
        Some(i)
    } else {
        spec_find_from(hay, needle, i + 1)
    }
}

/// Substring search returning the first match position at or after
/// `from`, as the standard `find` restricted to a suffix.
pub fn find_sub_from(hay: &str, needle: &str, from: usize) -> (r: Option<usize>)
    ensures
        match r {
            Some(k) => Some(k as int) == spec_find_from(hay@, needle@, from as int),
            None => spec_find_from(hay@, needle@, from as int) is None,
        },
{
    let n = hay.unicode_len();
    let m = needle.unicode_len();
    if from > n || m > n - from {
        return None;
    }
    if m == 0 {
        proof {
            assert(hay@.subrange(from as int, from + needle@.len()) =~= needle@);
        }
        return Some(from);
    }
    let mut k: usize = from;
    while k <= n - m
        invariant
            from <= k <= n - m + 1,
            1 <= m <= n,
            n == hay@.len(),
            m == needle@.len(),
            spec_find_from(hay@, needle@, from as int) == spec_find_from(hay@, needle@, k as int),
        decreases n - m - k + 1,
    {
        let mut j: usize = 0;
        let mut matches = true;
        while j < m
            invariant
                matches ==> forall|j2: int| 0 <= j2 < j ==> hay@[k + j2] == needle@[j2],
                !matches ==> hay@.subrange(k as int, k + needle@.len()) != needle@,
                j <= m,
                k + m <= n,
                n == hay@.len(),
                m == needle@.len(),
            decreases m - j,
        {
            if hay.get_char(k + j) != needle.get_char(j) {
                proof {
                    assert(hay@.subrange(k as int, k + needle@.len())[j as int] != needle@[j as int]);
                }
                matches = false;
                j = m;
            } else {
                j = j + 1;
            }
        }
        if matches {
            proof {
                assert(hay@.subrange(k as int, k + needle@.len()) =~= needle@);
            }
            return Some(k);
        }
        k = k + 1;
    }
    None
}

/// A decimal digit.
pub open spec fn is_dec_digit(c: char) -> bool {
    '0' as int <= c as int && c as int <= '9' as int
}

/// Numeric value of one decimal digit.
pub open spec fn dec_digit_val(c: char) -> int {
    c as int - '0' as int
}

/// Every character of `s` is a decimal digit.
pub open spec fn all_dec_digits(s: Seq<char>) -> bool {
    forall|i: int| 0 <= i < s.len() ==> is_dec_digit(#[trigger] s[i])
}

/// The base-10 value of a digit string.
pub open spec fn dec_digits_val(s: Seq<char>) -> int
    decreases s.len(),
{
    if s.len() == 0 {
        0
    } else {
        dec_digits_val(s.drop_last()) * 10 + dec_digit_val(s.last())
    }
}

pub proof fn lemma_all_dec_digits_prefix(s: Seq<char>, i: int)
    requires
        all_dec_digits(s),
        0 <= i <= s.len(),
    ensures
        all_dec_digits(s.subrange(0, i)),
{
    assert forall|k: int| 0 <= k < s.subrange(0, i).len() implies is_dec_digit(
        #[trigger] s.subrange(0, i)[k],
    ) by {
        assert(s.subrange(0, i)[k] == s[k]);
    }
}

pub proof fn lemma_dec_digits_val_nonneg(s: Seq<char>)
    requires
        all_dec_digits(s),
    ensures
        dec_digits_val(s) >= 0,
    decreases s.len(),
{
    if s.len() > 0 {
        lemma_all_dec_digits_prefix(s, s.len() - 1);
        assert(s.drop_last() =~= s.subrange(0, s.len() - 1));
        lemma_dec_digits_val_nonneg(s.drop_last());
    }
}

/// Extending a digit string to the right never lowers its value.
pub proof fn lemma_dec_digits_val_prefix_le(s: Seq<char>, i: int)
    requires
        all_dec_digits(s),
        0 <= i <= s.len(),
    ensures
        dec_digits_val(s.subrange(0, i)) <= dec_digits_val(s),
    decreases s.len() - i,
{
    if i < s.len() {
        lemma_all_dec_digits_prefix(s, i + 1);
        lemma_dec_digits_val_prefix_le(s, i + 1);
        let t = s.subrange(0, i + 1);
        assert(t.drop_last() =~= s.subrange(0, i));
        lemma_dec_digits_val_nonneg(t.drop_last());
        assert(dec_digits_val(t) == dec_digits_val(t.drop_last()) * 10 + dec_digit_val(t.last()));
        assert(dec_digits_val(t.drop_last()) * 10 >= dec_digits_val(t.drop_last()));
    } else {
        assert(s.subrange(0, i) =~= s);
    }
}

/// The digit part of a decimal integer literal: an optional leading
/// plus sign followed by the digits.
pub open spec fn digit_part(s: Seq<char>) -> Seq<char> {
    if s.len() > 0 && s[0] == '+' {
        s.drop_first()
    } else {
        s
    }
}

/// Unsigned decimal parsing as the standard library performs it for
/// unsigned integer types with an upper bound `max`: an optional plus
/// sign, then one or more digits whose value must not exceed the bound.
/// Anything else is rejected.
pub open spec fn spec_parse_uint(s: Seq<char>, max: int) -> Option<int> {
    let d = digit_part(s);
    if d.len() > 0 && all_dec_digits(d) && dec_digits_val(d) <= max {
        Some(dec_digits_val(d))
    } else {
        None
    }
}

/// Bounded decimal parsing; rejects on any non-digit, an empty digit
/// string, or a value above `max`.
pub fn parse_uint_bounded(s: &str, max: u64) -> (r: Option<u64>)
    requires
        max <= 0xffff_ffff,
    ensures
        match r {
            Some(v) => spec_parse_uint(s@, max as int) == Some(v as int),
            None => spec_parse_uint(s@, max as int) is None,
        },
{
    let ghost d = digit_part(s@);
    let n = s.unicode_len();
    let start: usize = if n > 0 && s.get_char(0) == '+' {
        1
    } else {
        0
    };
    proof {
        assert(d =~= s@.subrange(start as int, n as int));
    }
    if start == n {
        return None;
    }
    let mut acc: u64 = 0;
    let mut i = start;
    while i < n
        invariant
            start <= i <= n,
            n == s@.len(),
            d == s@.subrange(start as int, n as int),
            d == digit_part(s@),
            all_dec_digits(s@.subrange(start as int, i as int)),
            acc == dec_digits_val(s@.subrange(start as int, i as int)),
            acc <= max,
            max <= 0xffff_ffff,
        decreases n - i,
    {
        let c = s.get_char(i);
        let u = c as u32;
        if !(u >= 48 && u <= 57) {
            proof {
                assert(d[i - start] == s@[i as int]);
            }
            return None;
        }
        let dv: u64 = (u - 48) as u64;
        let next: u64 = acc * 10 + dv;
        proof {
            let pre = s@.subrange(start as int, i + 1);
            assert(pre.drop_last() =~= s@.subrange(start as int, i as int));
            assert(pre.last() == s@[i as int]);
            assert(dec_digits_val(pre) == next);
            assert(all_dec_digits(pre)) by {
                assert(forall|k: int|
                    0 <= k < pre.len() ==> #[trigger] pre[k] == s@.subrange(
                        start as int,
                        i + 1,
                    )[k]);
            }
        }
        if next > max {
            proof {
                if all_dec_digits(d) {
                    assert(s@.subrange(start as int, i + 1) =~= d.subrange(0, i + 1 - start));
                    lemma_dec_digits_val_prefix_le(d, i + 1 - start);
                }
            }
            return None;
        }
        acc = next;
        i = i + 1;
    }
    proof {
        assert(s@.subrange(start as int, i as int) =~= d);
    }
    Some(acc)
}


/// Why decimal parsing of a 32-bit value fails, in the standard
/// library's words: an empty digit string, a digit run that already
/// exceeds the bound (reported before any later non-digit is reached),
/// or a non-digit character.
pub open spec fn parse_u32_failure_detail(s: Seq<char>) -> Seq<char> {
    let d = digit_part(s);
    if d.len() == 0 {
        "cannot parse integer from empty string"@
    } else if exists|j: int|
        0 <= j <= d.len() && all_dec_digits(#[trigger] d.subrange(0, j)) && dec_digits_val(
            d.subrange(0, j),
        ) > u32::MAX as int {
        "number too large to fit in target type"@
    } else if !all_dec_digits(d) {
        "invalid digit found in string"@
    } else {
        "number too large to fit in target type"@
    }
}

/// Describes why `s` does not parse as a 32-bit value, as
/// [`parse_u32_failure_detail`].
pub fn describe_u32_parse_failure(s: &str) -> (r: &'static str)
    ensures
        r@ == parse_u32_failure_detail(s@),
{
    let ghost d = digit_part(s@);
    let n = s.unicode_len();
    let start: usize = if n > 0 && s.get_char(0) == '+' {
        1
    } else {
        0
    };
    proof {
        assert(d =~= s@.subrange(start as int, n as int));
    }
    if start == n {
        return "cannot parse integer from empty string";
    }
    let mut acc: u64 = 0;
    let mut i = start;
    while i < n
        invariant
            start <= i <= n,
            n == s@.len(),
            d == s@.subrange(start as int, n as int),
            d == digit_part(s@),
            d.len() > 0,
            all_dec_digits(s@.subrange(start as int, i as int)),
            acc == dec_digits_val(s@.subrange(start as int, i as int)),
            acc <= u32::MAX as u64,
        decreases n - i,
    {
        let c = s.get_char(i);
        let u = c as u32;
        if !(u >= 48 && u <= 57) {
            proof {
                let done = i - start;
                assert(d[done] == s@[i as int]);
                assert(d.subrange(0, done) =~= s@.subrange(start as int, i as int));
                assert forall|j: int|
                    0 <= j <= d.len() && all_dec_digits(#[trigger] d.subrange(0, j)) implies
                    dec_digits_val(d.subrange(0, j)) <= u32::MAX as int by {
                    if j > done {
                        assert(d.subrange(0, j)[done] == d[done]);
                        assert(!is_dec_digit(d.subrange(0, j)[done]));
                    } else {
                        assert(d.subrange(0, j) =~= d.subrange(0, done).subrange(0, j));
                        lemma_dec_digits_val_prefix_le(d.subrange(0, done), j);
                    }
                }
            }
            return "invalid digit found in string";
        }
        let dv: u64 = (u - 48) as u64;
        let next: u64 = acc * 10 + dv;
        proof {
            let pre = s@.subrange(start as int, i + 1);
            assert(pre.drop_last() =~= s@.subrange(start as int, i as int));
            assert(pre.last() == s@[i as int]);
            assert(dec_digits_val(pre) == next);
            assert(all_dec_digits(pre)) by {
                assert(forall|k: int|
                    0 <= k < pre.len() ==> #[trigger] pre[k] == s@.subrange(
                        start as int,
                        i + 1,
                    )[k]);
            }
        }
        if next > 4294967295 {
            proof {
                let j = i + 1 - start;
                assert(d.subrange(0, j) =~= s@.subrange(start as int, i + 1));
                assert(0 <= j <= d.len() && all_dec_digits(d.subrange(0, j)) && dec_digits_val(
                    d.subrange(0, j),
                ) > u32::MAX as int);
            }
            return "number too large to fit in target type";
        }
        acc = next;
        i = i + 1;
    }
    proof {
        assert(d =~= s@.subrange(start as int, i as int));
    }
    "number too large to fit in target type"
}

/// Decimal parsing of a 16-bit port number.
pub open spec fn spec_parse_u16(s: Seq<char>) -> Option<u16> {
    match spec_parse_uint(s, u16::MAX as int) {
        Some(v) => Some(v as u16),
        None => None,
    }
}

/// Parses a port number as the standard parser for `u16` does.
pub fn parse_u16(s: &str) -> (r: Option<u16>)
    ensures
        r == spec_parse_u16(s@),
{
    match parse_uint_bounded(s, 65535) {
        Some(v) => Some(v as u16),
        None => None,
    }
}

/// Decimal parsing of a 32-bit process identifier.
pub open spec fn spec_parse_u32(s: Seq<char>) -> Option<u32> {
    match spec_parse_uint(s, u32::MAX as int) {
        Some(v) => Some(v as u32),
        None => None,
    }
}

/// Parses a process identifier as the standard parser for `u32` does.
pub fn parse_u32(s: &str) -> (r: Option<u32>)
    ensures
        r == spec_parse_u32(s@),
{
    match parse_uint_bounded(s, 0xffff_ffff) {
        Some(v) => Some(v as u32),
        None => None,
    }
}

/// One past the position of the last colon at an index below `i`, or 0
/// when there is none.
pub open spec fn last_colon_end(s: Seq<char>, i: int) -> int
    decreases i,
{
    if i <= 0 {
        0
    } else if s[i - 1] == ':' {
        i
    } else {
        last_colon_end(s, i - 1)
    }
}

pub proof fn lemma_last_colon_end_bounds(s: Seq<char>, i: int)
    requires
        0 <= i,
    ensures
        0 <= last_colon_end(s, i) <= i,
    decreases i,
{
    if i > 0 && s[i - 1] != ':' {
        lemma_last_colon_end_bounds(s, i - 1);
    }
}

/// The text after the final colon of `s`; all of `s` when it has no
/// colon, empty when it ends with one. This is the final element that
/// splitting on a colon yields.
pub open spec fn after_last_colon(s: Seq<char>) -> Seq<char> {
    s.subrange(last_colon_end(s, s.len() as int), s.len() as int)
}

/// The text after the final colon, as taking the last element of a
/// colon split does.
pub fn after_last_colon_str(s: &str) -> (r: String)
    ensures
        r@ == after_last_colon(s@),
{
    let n = s.unicode_len();
    let mut i = n;
    loop
        invariant
            0 <= i <= n,
            n == s@.len(),
            last_colon_end(s@, n as int) == last_colon_end(s@, i as int),
        ensures
            0 <= i <= n,
            last_colon_end(s@, n as int) == i,
        decreases i,
    {
        if i == 0 {
            break ;
        }
        if s.get_char(i - 1) == ':' {
            break ;
        }
        i = i - 1;
    }
    let r = s.substring_char(i, n).to_owned();
    proof {
        assert(r@ =~= after_last_colon(s@));
    }
    r
}

/// Index of the first non-whitespace character at or after `i`.
pub open spec fn skip_ws_from(s: Seq<char>, i: int) -> int
    decreases s.len() - i,
{
    if i < 0 || i >= s.len() {
        s.len() as int
    } else if is_ws_char(s[i]) {
        skip_ws_from(s, i + 1)
    } else {
        i
    }
}

pub proof fn lemma_skip_ws_from_bounds(s: Seq<char>, i: int)
    requires
        0 <= i <= s.len(),
    ensures
        i <= skip_ws_from(s, i) <= s.len(),
    decreases s.len() - i,
{
    if i < s.len() && is_ws_char(s[i]) {
        lemma_skip_ws_from_bounds(s, i + 1);
    }
}

/// One past the last non-whitespace character at an index below `i`.
pub open spec fn ws_trim_end(s: Seq<char>, i: int) -> int
    decreases i,
{
    if i <= 0 {
        0
    } else if is_ws_char(s[i - 1]) {
        ws_trim_end(s, i - 1)
    } else {
        i
    }
}

/// `s` without leading and trailing whitespace, as the standard trim.
pub open spec fn trim_ws_spec(s: Seq<char>) -> Seq<char> {
    let a = skip_ws_from(s, 0);
    let b = ws_trim_end(s, s.len() as int);
    if a <= b {
        s.subrange(a, b)
    } else {
        Seq::empty()
    }
}

/// Removes leading and trailing whitespace.
pub fn trim_ws(s: &str) -> (r: String)
    ensures
        r@ == trim_ws_spec(s@),
{
    let n = s.unicode_len();
    let mut a: usize = 0;
    loop
        invariant
            0 <= a <= n,
            n == s@.len(),
            skip_ws_from(s@, 0) == skip_ws_from(s@, a as int),
        ensures
            0 <= a <= n,
            skip_ws_from(s@, 0) == a,
        decreases n - a,
    {
        if a == n {
            break ;
        }
        if !ws_char(s.get_char(a)) {
            break ;
        }
        a = a + 1;
    }
    let mut b: usize = n;
    loop
        invariant
            0 <= b <= n,
            n == s@.len(),
            ws_trim_end(s@, n as int) == ws_trim_end(s@, b as int),
        ensures
            0 <= b <= n,
            ws_trim_end(s@, n as int) == b,
        decreases b,
    {
        if b == 0 {
            break ;
        }
        if !ws_char(s.get_char(b - 1)) {
            break ;
        }
        b = b - 1;
    }
    if a <= b {
        let r = s.substring_char(a, b).to_owned();
        proof {
            assert(r@ =~= trim_ws_spec(s@));
        }
        r
    } else {
        let r = String::new();
        proof {
            assert(r@ =~= trim_ws_spec(s@));
        }
        r
    }
}

/// Index of the first character at or after `i` that is not a double
/// quote.
pub open spec fn skip_quotes_from(s: Seq<char>, i: int) -> int
    decreases s.len() - i,
{
    if i < 0 || i >= s.len() {
        s.len() as int
    } else if s[i] == '"' {
        skip_quotes_from(s, i + 1)
    } else {
        i
    }
}

/// One past the last non-quote character at an index below `i`.
pub open spec fn quote_trim_end(s: Seq<char>, i: int) -> int
    decreases i,
{
    if i <= 0 {
        0
    } else if s[i - 1] == '"' {
        quote_trim_end(s, i - 1)
    } else {
        i
    }
}

/// `s` without leading and trailing double quotes, as the standard
/// trim of a matching character.
pub open spec fn trim_quotes_spec(s: Seq<char>) -> Seq<char> {
    let a = skip_quotes_from(s, 0);
    let b = quote_trim_end(s, s.len() as int);
    if a <= b {
        s.subrange(a, b)
    } else {
        Seq::empty()
    }
}

/// Removes leading and trailing double quotes.
pub fn trim_quotes(s: &str) -> (r: String)
    ensures
        r@ == trim_quotes_spec(s@),
{
    let n = s.unicode_len();
    let mut a: usize = 0;
    loop
        invariant
            0 <= a <= n,
            n == s@.len(),
            skip_quotes_from(s@, 0) == skip_quotes_from(s@, a as int),
        ensures
            0 <= a <= n,
            skip_quotes_from(s@, 0) == a,
        decreases n - a,
    {
        if a == n {
            break ;
        }
        if !(s.get_char(a) == '"') {
            break ;
        }
        a = a + 1;
    }
    let mut b: usize = n;
    loop
        invariant
            0 <= b <= n,
            n == s@.len(),
            quote_trim_end(s@, n as int) == quote_trim_end(s@, b as int),
        ensures
            0 <= b <= n,
            quote_trim_end(s@, n as int) == b,
        decreases b,
    {
        if b == 0 {
            break ;
        }
        if !(s.get_char(b - 1) == '"') {
            break ;
        }
        b = b - 1;
    }
    if a <= b {
        let r = s.substring_char(a, b).to_owned();
        proof {
            assert(r@ =~= trim_quotes_spec(s@));
        }
        r
    } else {
        let r = String::new();
        proof {
            assert(r@ =~= trim_quotes_spec(s@));
        }
        r
    }
}

/// End of the whitespace-free token that starts at `i`.
pub open spec fn token_end(s: Seq<char>, i: int) -> int
    decreases s.len() - i,
{
    if i < 0 || i >= s.len() {
        s.len() as int
    } else if is_ws_char(s[i]) {
        i
    } else {
        token_end(s, i + 1)
    }
}

pub proof fn lemma_token_end_bounds(s: Seq<char>, i: int)
    requires
        0 <= i <= s.len(),
    ensures
        i <= token_end(s, i) <= s.len(),
    decreases s.len() - i,
{
    if i < s.len() && !is_ws_char(s[i]) {
        lemma_token_end_bounds(s, i + 1);
    }
}

/// The maximal whitespace-free tokens of `s` from position `i` on, in
/// order: what splitting on runs of whitespace yields.
pub open spec fn spec_split_ws_from(s: Seq<char>, i: int) -> Seq<Seq<char>>
    decreases s.len() - i,
    via spec_split_ws_from_dec
{
    if i < 0 || i >= s.len() {
        Seq::empty()
    } else if is_ws_char(s[i]) {
        spec_split_ws_from(s, i + 1)
    } else {
        seq![s.subrange(i, token_end(s, i))] + spec_split_ws_from(s, token_end(s, i))
    }
}

#[via_fn]
proof fn spec_split_ws_from_dec(s: Seq<char>, i: int) {
    if 0 <= i < s.len() && !is_ws_char(s[i]) {
        lemma_token_end_bounds(s, i + 1);
    }
}

/// Splits on runs of whitespace, as the standard whitespace split.
pub fn split_ws(s: &str) -> (toks: Vec<String>)
    ensures
        toks.deep_view() == spec_split_ws_from(s@, 0),
{
    let n = s.unicode_len();
    let mut toks: Vec<String> = Vec::new();
    let mut i: usize = 0;
    while i < n
        invariant
            0 <= i <= n,
            n == s@.len(),
            spec_split_ws_from(s@, 0) == toks.deep_view() + spec_split_ws_from(s@, i as int),
        decreases n - i,
    {
        let c = s.get_char(i);
        if ws_char(c) {
            i = i + 1;
        } else {
            let mut j = i;
            loop
                invariant
                    i <= j <= n,
                    n == s@.len(),
                    token_end(s@, i as int) == token_end(s@, j as int),
                ensures
                    i <= j <= n,
                    token_end(s@, i as int) == j,
                decreases n - j,
            {
                if j == n {
                    break ;
                }
                if ws_char(s.get_char(j)) {
                    break ;
                }
                j = j + 1;
            }
            let tok = s.substring_char(i, j).to_owned();
            let ghost prev_deep = toks.deep_view();
            toks.push(tok);
            proof {
                assert(toks.deep_view() =~= prev_deep.push(tok@));
                assert(prev_deep.push(tok@) + spec_split_ws_from(s@, j as int) =~= prev_deep + (
                seq![s@.subrange(i as int, j as int)] + spec_split_ws_from(s@, j as int)));
            }
            i = j;
        }
    }
    proof {
        assert(toks.deep_view() + spec_split_ws_from(s@, i as int) =~= toks.deep_view());
    }
    toks
}

/// The decimal digit character for a value below ten.
pub open spec fn dec_char_of(d: int) -> char {
    if d == 0 {
        '0'
    } else if d == 1 {
        '1'
    } else if d == 2 {
        '2'
    } else if d == 3 {
        '3'
    } else if d == 4 {
        '4'
    } else if d == 5 {
        '5'
    } else if d == 6 {
        '6'
    } else if d == 7 {
        '7'
    } else if d == 8 {
        '8'
    } else {
        '9'
    }
}

/// The decimal rendering of a non-negative integer, without sign or
/// padding.
pub open spec fn dec_str_of(n: int) -> Seq<char>
    decreases n,
{
    if n < 10 {
        seq![dec_char_of(n)]
    } else {
        dec_str_of(n / 10).push(dec_char_of(n % 10))
    }
}

fn digit_str(d: u64) -> (r: &'static str)
    requires
        d < 10,
    ensures
        r@ == seq![dec_char_of(d as int)],
{
    let r = if d == 0 {
        proof {
            reveal_strlit("0");
        }
        "0"
    } else if d == 1 {
        proof {
            reveal_strlit("1");
        }
        "1"
    } else if d == 2 {
        proof {
            reveal_strlit("2");
        }
        "2"
    } else if d == 3 {
        proof {
            reveal_strlit("3");
        }
        "3"
    } else if d == 4 {
        proof {
            reveal_strlit("4");
        }
        "4"
    } else if d == 5 {
        proof {
            reveal_strlit("5");
        }
        "5"
    } else if d == 6 {
        proof {
            reveal_strlit("6");
        }
        "6"
    } else if d == 7 {
        proof {
            reveal_strlit("7");
        }
        "7"
    } else if d == 8 {
        proof {
            reveal_strlit("8");
        }
        "8"
    } else {
        proof {
            reveal_strlit("9");
        }
        "9"
    };
    proof {
        assert(r@ =~= seq![dec_char_of(d as int)]);
    }
    r
}

/// Renders an unsigned integer in decimal, as the standard formatter
/// does.
pub fn u64_dec_string(n: u64) -> (r: String)
    ensures
        r@ == dec_str_of(n as int),
    decreases n,
{
    if n < 10 {
        digit_str(n).to_owned()
    } else {
        let q = u64_dec_string(n / 10);
        let r = q.concat(digit_str(n % 10));
        proof {
            assert(r@ =~= dec_str_of(n as int));
        }
        r
    }
}


} // verus!
