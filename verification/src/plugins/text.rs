//! Scanning primitives for option strings: splitting at a delimiter,
//! substring search, and unsigned numbers in a given radix.
//!
//! Every function is specified over the sequence of characters of its input.

use vstd::prelude::*;
use vstd::string::*;

verus! {

/// Position of the first `c` in `s`, or `s.len()` when `s` holds none.
pub open spec fn find_char(s: Seq<char>, c: char) -> int
    decreases s.len(),
{
    if s.len() == 0 {
        0
    } else if s[0] == c {
        0
    } else {
        1 + find_char(s.drop_first(), c)
    }
}

/// `find_char` lies within `0..=s.len()`, no earlier position holds `c`, and
/// the position itself holds `c` unless it is the end.
pub proof fn lemma_find_char(s: Seq<char>, c: char)
    ensures
        0 <= find_char(s, c) <= s.len(),
        forall|j: int| 0 <= j < find_char(s, c) ==> s[j] != c,
        find_char(s, c) < s.len() ==> s[find_char(s, c)] == c,
    decreases s.len(),
{
    if s.len() > 0 && s[0] != c {
        let t = s.drop_first();
        lemma_find_char(t, c);
        assert forall|j: int| 0 <= j < find_char(s, c) implies s[j] != c by {
            if j > 0 {
                assert(s[j] == t[j - 1]);
            }
        }
    }
}

/// A position that no `c` precedes, and that holds `c` or is the end, is
/// the one `find_char` gives.
pub proof fn lemma_find_char_is(s: Seq<char>, c: char, i: int)
    requires
        0 <= i <= s.len(),
        forall|j: int| 0 <= j < i ==> s[j] != c,
        i < s.len() ==> s[i] == c,
    ensures
        find_char(s, c) == i,
{
    lemma_find_char(s, c);
    let f = find_char(s, c);
    if f < i {
        assert(s[f] == c);
    } else if i < f {
        assert(s[i] == c);
    }
}

/// The part of `s` before the first `c`; all of `s` when it holds none.
pub open spec fn before_char(s: Seq<char>, c: char) -> Seq<char> {
    s.subrange(0, find_char(s, c))
}

/// The part of `s` after the first `c`, if `s` holds one.
pub open spec fn after_char(s: Seq<char>, c: char) -> Option<Seq<char>> {
    if 0 <= find_char(s, c) < s.len() {
        Some(s.subrange(find_char(s, c) + 1, s.len() as int))
    } else {
        None
    }
}

/// Splits `s` at its first `c`: what stands before it, and what stands
/// after it if there is one.
pub fn split_once_char<'a>(s: &'a str, c: char) -> (r: (&'a str, Option<&'a str>))
    ensures
        r.0@ == before_char(s@, c),
        r.1.is_some() == after_char(s@, c).is_some(),
        r.1 matches Some(t) ==> Some(t@) == after_char(s@, c),
{
    let len = s.unicode_len();
    let mut i: usize = 0;
    while i < len && s.get_char(i) != c
        invariant
            len == s@.len(),
            i <= len,
            forall|j: int| 0 <= j < i ==> s@[j] != c,
        decreases len - i,
    {
        i += 1;
    }
    proof {
        lemma_find_char_is(s@, c, i as int);
    }
    let head = s.substring_char(0, i);
    if i < len {
        (head, Some(s.substring_char(i + 1, len)))
    } else {
        (head, None)
    }
}

/// Whether `needle` stands in `s` at position `k`.
pub open spec fn occurs_at(s: Seq<char>, needle: Seq<char>, k: int) -> bool {
    &&& 0 <= k
    &&& k + needle.len() <= s.len()
    &&& s.subrange(k, k + needle.len()) == needle
}

/// Whether `needle` is a contiguous part of `s`.
pub open spec fn contains_seq(s: Seq<char>, needle: Seq<char>) -> bool {
    exists|k: int| occurs_at(s, needle, k)
}

/// Whether `s` ends with `suffix`.
pub open spec fn ends_with_seq(s: Seq<char>, suffix: Seq<char>) -> bool {
    occurs_at(s, suffix, s.len() - suffix.len())
}

/// Whether `needle` stands in `s` at character position `k`.
pub fn matches_at(s: &str, needle: &str, k: usize) -> (b: bool)
    ensures
        b == occurs_at(s@, needle@, k as int),
{
    let len = s.unicode_len();
    let n = needle.unicode_len();
    if k > len || n > len - k {
        return false;
    }
    let mut j: usize = 0;
    while j < n
        invariant
            len == s@.len(),
            n == needle@.len(),
            k + n <= len,
            j <= n,
            forall|t: int| 0 <= t < j ==> s@[k + t] == needle@[t],
        decreases n - j,
    {
        if s.get_char(k + j) != needle.get_char(j) {
            proof {
                let sub = s@.subrange(k as int, k + n);
                assert(sub[j as int] == s@[k + j]);
            }
            return false;
        }
        j += 1;
    }
    assert(s@.subrange(k as int, k + n) =~= needle@);
    true
}

/// Whether `needle` is a contiguous part of `s`.
pub fn contains_str(s: &str, needle: &str) -> (b: bool)
    ensures
        b == contains_seq(s@, needle@),
{
    let len = s.unicode_len();
    let n = needle.unicode_len();
    if n > len {
        return false;
    }
    if n == 0 {
        assert(s@.subrange(0, 0) =~= needle@);
        assert(occurs_at(s@, needle@, 0));
        return true;
    }
    let last = len - n;
    let mut k: usize = 0;
    while k <= last
        invariant
            len == s@.len(),
            n == needle@.len(),
            last == len - n,
            last < len,
            k <= last + 1,
            forall|t: int| 0 <= t < k ==> !occurs_at(s@, needle@, t),
        decreases last + 1 - k,
    {
        if matches_at(s, needle, k) {
            return true;
        }
        k += 1;
    }
    false
}

/// Whether `a` and `b` hold the same characters.
pub fn equals_str(a: &str, b: &str) -> (r: bool)
    ensures
        r == (a@ == b@),
{
    if a.unicode_len() != b.unicode_len() {
        return false;
    }
    let r = matches_at(a, b, 0);
    assert(a@.subrange(0, a@.len() as int) =~= a@);
    r
}

/// `c` with an upper-case letter of the basic Latin alphabet turned into its
/// lower-case form, any other character unchanged.
pub open spec fn ascii_lower(c: char) -> char {
    if 'A' <= c <= 'Z' {
        ((c as u8) + 32) as char
    } else {
        c
    }
}

/// Whether `a` and `b` are equal up to the case of basic Latin letters.
pub open spec fn eq_ignore_case(a: Seq<char>, b: Seq<char>) -> bool {
    &&& a.len() == b.len()
    &&& forall|i: int| 0 <= i < a.len() ==> ascii_lower(#[trigger] a[i]) == ascii_lower(b[i])
}

/// `c` in lower case: see `ascii_lower`.
pub fn to_ascii_lower(c: char) -> (r: char)
    ensures
        r == ascii_lower(c),
{
    if 'A' <= c && c <= 'Z' {
        ((c as u8) + 32) as char
    } else {
        c
    }
}

/// Whether `a` and `b` are equal up to the case of basic Latin letters.
pub fn eq_ignore_case_str(a: &str, b: &str) -> (r: bool)
    ensures
        r == eq_ignore_case(a@, b@),
{
    let len = a.unicode_len();
    if len != b.unicode_len() {
        return false;
    }
    let mut i: usize = 0;
    while i < len
        invariant
            len == a@.len(),
            len == b@.len(),
            i <= len,
            forall|j: int| 0 <= j < i ==> ascii_lower(#[trigger] a@[j]) == ascii_lower(b@[j]),
        decreases len - i,
    {
        if to_ascii_lower(a.get_char(i)) != to_ascii_lower(b.get_char(i)) {
            return false;
        }
        i += 1;
    }
    true
}

/// Whether `s` ends with `suffix`.
pub fn ends_with_str(s: &str, suffix: &str) -> (b: bool)
    ensures
        b == ends_with_seq(s@, suffix@),
{
    let len = s.unicode_len();
    let n = suffix.unicode_len();
    if n > len {
        return false;
    }
    matches_at(s, suffix, len - n)
}

/// The first piece of `s`, cut at each `delim`, that holds `needle`.
pub open spec fn find_segment(s: Seq<char>, delim: char, needle: Seq<char>) -> Option<Seq<char>>
    decreases s.len(),
{
    if contains_seq(before_char(s, delim), needle) {
        Some(before_char(s, delim))
    } else if 0 <= find_char(s, delim) < s.len() {
        find_segment(s.subrange(find_char(s, delim) + 1, s.len() as int), delim, needle)
    } else {
        None
    }
}

/// The first piece of `s`, cut at each `delim`, that holds `needle`.
pub fn find_segment_str<'a>(s: &'a str, delim: char, needle: &str) -> (r: Option<&'a str>)
    ensures
        r.is_some() == find_segment(s@, delim, needle@).is_some(),
        r matches Some(seg) ==> Some(seg@) == find_segment(s@, delim, needle@),
{
    let mut cur: &'a str = s;
    loop
        invariant
            find_segment(cur@, delim, needle@) == find_segment(s@, delim, needle@),
        decreases cur@.len(),
    {
        let (head, rest) = split_once_char(cur, delim);
        if contains_str(head, needle) {
            return Some(head);
        }
        match rest {
            Some(t) => {
                cur = t;
            },
            None => {
                return None;
            },
        }
    }
}

/// The piece of `s` between its first and its second `delim`, or up to the
/// end where there is no second one; nothing where `s` holds no `delim`.
pub open spec fn second_field(s: Seq<char>, delim: char) -> Option<Seq<char>> {
    match after_char(s, delim) {
        Some(rest) => Some(before_char(rest, delim)),
        None => None,
    }
}

/// The piece of `s` between its first and its second `delim`.
pub fn second_field_str<'a>(s: &'a str, delim: char) -> (r: Option<&'a str>)
    ensures
        r.is_some() == second_field(s@, delim).is_some(),
        r matches Some(f) ==> Some(f@) == second_field(s@, delim),
{
    let (_, rest) = split_once_char(s, delim);
    match rest {
        Some(t) => {
            let (field, _) = split_once_char(t, delim);
            Some(field)
        },
        None => None,
    }
}

/// The value of `c` as a digit in base `radix`: `0`-`9`, then letters of
/// either case from ten on.
pub open spec fn digit_value(c: char, radix: int) -> Option<int> {
    let d = if '0' <= c <= '9' {
        c as int - '0' as int
    } else if 'a' <= c <= 'z' {
        c as int - 'a' as int + 10
    } else if 'A' <= c <= 'Z' {
        c as int - 'A' as int + 10
    } else {
        radix
    };
    if d < radix {
        Some(d)
    } else {
        None
    }
}

/// Whether every character of `s` is a digit in base `radix`.
pub open spec fn all_digits(s: Seq<char>, radix: int) -> bool {
    forall|i: int| 0 <= i < s.len() ==> (#[trigger] digit_value(s[i], radix)).is_some()
}

/// The number that the digits `s` spell in base `radix`, most significant
/// digit first.
pub open spec fn digits_value(s: Seq<char>, radix: int) -> int
    decreases s.len(),
{
    if s.len() == 0 {
        0
    } else {
        digits_value(s.drop_last(), radix) * radix + match digit_value(s.last(), radix) {
            Some(d) => d,
            None => 0,
        }
    }
}

/// `s` without a leading plus sign.
pub open spec fn unsigned_body(s: Seq<char>) -> Seq<char> {
    if s.len() > 0 && s[0] == '+' {
        s.drop_first()
    } else {
        s
    }
}

/// The number that `s` spells in base `radix`: an optional plus sign, then
/// one digit or more, the whole no greater than `max`. Anything else spells
/// no number.
pub open spec fn parse_unsigned(s: Seq<char>, radix: int, max: int) -> Option<int> {
    let body = unsigned_body(s);
    if body.len() > 0 && all_digits(body, radix) && digits_value(body, radix) <= max {
        Some(digits_value(body, radix))
    } else {
        None
    }
}

/// A prefix of a digit string spells no more than the whole string.
pub proof fn lemma_digits_value_prefix(s: Seq<char>, k: int, radix: int)
    requires
        0 <= k <= s.len(),
        radix >= 1,
    ensures
        0 <= digits_value(s.subrange(0, k), radix) <= digits_value(s, radix),
    decreases s.len(),
{
    if s.len() == 0 {
        assert(s.subrange(0, k) =~= s);
    } else if k == s.len() {
        assert(s.subrange(0, k) =~= s);
        lemma_digits_value_prefix(s.drop_last(), k - 1, radix);
        let v = digits_value(s.drop_last(), radix);
        assert(v * radix >= 0) by (nonlinear_arith)
            requires
                v >= 0,
                radix >= 1,
        ;
    } else {
        let t = s.drop_last();
        assert(t.subrange(0, k) =~= s.subrange(0, k));
        lemma_digits_value_prefix(t, k, radix);
        let v = digits_value(t, radix);
        assert(v * radix >= v) by (nonlinear_arith)
            requires
                v >= 0,
                radix >= 1,
        ;
    }
}

/// The value of `c` as a digit in base `radix`.
pub fn digit_of(c: char, radix: u32) -> (d: Option<u32>)
    requires
        radix <= 36,
    ensures
        d.is_some() == digit_value(c, radix as int).is_some(),
        d matches Some(v) ==> digit_value(c, radix as int) == Some(v as int) && v < radix,
{
    let v: u32 = if '0' <= c && c <= '9' {
        (c as u32) - ('0' as u32)
    } else if 'a' <= c && c <= 'z' {
        (c as u32) - ('a' as u32) + 10
    } else if 'A' <= c && c <= 'Z' {
        (c as u32) - ('A' as u32) + 10
    } else {
        radix
    };
    if v < radix {
        Some(v)
    } else {
        None
    }
}

/// Reads `s` as an unsigned 64-bit number in base `radix`.
pub fn parse_u64_radix(s: &str, radix: u32) -> (r: Option<u64>)
    requires
        2 <= radix <= 36,
    ensures
        r.is_some() == parse_unsigned(s@, radix as int, u64::MAX as int).is_some(),
        r matches Some(v) ==> parse_unsigned(s@, radix as int, u64::MAX as int) == Some(v as int),
{
    let len = s.unicode_len();
    let start: usize = if len > 0 && s.get_char(0) == '+' {
        1
    } else {
        0
    };
    let ghost body = unsigned_body(s@);
    assert(body =~= s@.subrange(start as int, len as int));
    if start == len {
        return None;
    }
    let mut acc: u64 = 0;
    let mut i: usize = start;
    while i < len
        invariant
            len == s@.len(),
            start <= i <= len,
            2 <= radix <= 36,
            body == s@.subrange(start as int, len as int),
            body == unsigned_body(s@),
            all_digits(body.subrange(0, i - start), radix as int),
            acc == digits_value(body.subrange(0, i - start), radix as int),
        decreases len - i,
    {
        let ghost prefix = body.subrange(0, i - start);
        let ghost next = body.subrange(0, i - start + 1);
        proof {
            assert(next.drop_last() =~= prefix);
            assert(next.last() == s@[i as int]);
            lemma_digits_value_prefix(body, i - start + 1, radix as int);
        }
        let d = match digit_of(s.get_char(i), radix) {
            Some(d) => d,
            None => {
                assert(digit_value(body[i - start], radix as int).is_none());
                return None;
            },
        };
        assert(digits_value(next, radix as int) == acc * radix + d);
        let shifted = match acc.checked_mul(radix as u64) {
            Some(v) => v,
            None => {
                assert(digits_value(body, radix as int) > u64::MAX);
                return None;
            },
        };
        acc = match shifted.checked_add(d as u64) {
            Some(v) => v,
            None => {
                assert(digits_value(body, radix as int) > u64::MAX);
                return None;
            },
        };
        proof {
            assert forall|j: int| 0 <= j < next.len() implies (#[trigger] digit_value(
                next[j],
                radix as int,
            )).is_some() by {
                if j < prefix.len() {
                    assert(next[j] == prefix[j]);
                }
            }
        }
        i += 1;
    }
    assert(body.subrange(0, len - start) =~= body);
    Some(acc)
}

/// Reads `s` as a `usize` in base `radix`.
pub fn parse_usize_radix(s: &str, radix: u32) -> (r: Option<usize>)
    requires
        2 <= radix <= 36,
    ensures
        r.is_some() == parse_unsigned(s@, radix as int, usize::MAX as int).is_some(),
        r matches Some(v) ==> parse_unsigned(s@, radix as int, usize::MAX as int) == Some(v as int),
{
    match parse_u64_radix(s, radix) {
        Some(v) => {
            if v <= usize::MAX as u64 {
                Some(v as usize)
            } else {
                None
            }
        },
        None => None,
    }
}

/// The lower-case digit of base 16 for a value below sixteen.
pub open spec fn hex_char(nibble: int) -> char {
    if nibble < 10 {
        ('0' as u8 + nibble) as u8 as char
    } else {
        ('a' as u8 + nibble - 10) as u8 as char
    }
}

/// The lower-case digit of base 16 for `nibble`, as a string.
fn hex_digit(nibble: u64) -> (digit: &'static str)
    requires
        nibble < 16,
    ensures
        digit@ == seq![hex_char(nibble as int)],
        digit_value(hex_char(nibble as int), 16) == Some(nibble as int),
{
    proof {
        reveal_strlit("0");
        reveal_strlit("1");
        reveal_strlit("2");
        reveal_strlit("3");
        reveal_strlit("4");
        reveal_strlit("5");
        reveal_strlit("6");
        reveal_strlit("7");
        reveal_strlit("8");
        reveal_strlit("9");
        reveal_strlit("a");
        reveal_strlit("b");
        reveal_strlit("c");
        reveal_strlit("d");
        reveal_strlit("e");
        reveal_strlit("f");
    }
    let digit = if nibble == 0 {
        "0"
    } else if nibble == 1 {
        "1"
    } else if nibble == 2 {
        "2"
    } else if nibble == 3 {
        "3"
    } else if nibble == 4 {
        "4"
    } else if nibble == 5 {
        "5"
    } else if nibble == 6 {
        "6"
    } else if nibble == 7 {
        "7"
    } else if nibble == 8 {
        "8"
    } else if nibble == 9 {
        "9"
    } else if nibble == 10 {
        "a"
    } else if nibble == 11 {
        "b"
    } else if nibble == 12 {
        "c"
    } else if nibble == 13 {
        "d"
    } else if nibble == 14 {
        "e"
    } else {
        "f"
    };
    assert(digit@ =~= seq![hex_char(nibble as int)]);
    digit
}

/// Whether `s` is a number in base 16 written with lower-case digits and
/// without a sign or needless leading zeros.
pub open spec fn is_plain_hex(s: Seq<char>) -> bool {
    &&& s.len() >= 1
    &&& s.len() > 1 ==> s[0] != '0'
    &&& forall|i: int|
        0 <= i < s.len() ==> exists|n: int| 0 <= n < 16 && #[trigger] s[i] == hex_char(n)
}

/// Writes `v` in base 16, with lower-case digits and without leading
/// zeros. Reading the result back gives `v`.
pub fn format_hex(v: u64) -> (s: String)
    ensures
        is_plain_hex(s@),
        parse_unsigned(s@, 16, u64::MAX as int) == Some(v as int),
{
    let mut s = String::new();
    let mut acc: u64 = 0;
    let mut i: u64 = 0;
    while i < 16
        invariant
            i <= 16,
            i == 0 ==> acc == 0,
            i > 0 ==> acc == v >> ((64 - 4 * i) as u64),
            digits_value(s@, 16) == acc,
            all_digits(s@, 16),
            s@.len() <= i,
            acc == 0 ==> s@.len() == 0,
            s@.len() > 0 ==> s@[0] != '0',
            forall|j: int|
                0 <= j < s@.len() ==> exists|n: int| 0 <= n < 16 && #[trigger] s@[j] == hex_char(n),
        decreases 16 - i,
    {
        let shift: u64 = 60 - 4 * i;
        let nibble: u64 = (v >> shift) & 0xf;
        let next: u64 = v >> shift;
        proof {
            if i == 0 {
                assert(v >> 60u64 == (v >> 60u64) & 0xf) by (bit_vector);
            } else {
                let hi = v >> ((shift + 4) as u64);
                assert(v >> shift == (v >> ((shift + 4) as u64)) * 16 + ((v >> shift) & 0xf))
                    by (bit_vector)
                    requires
                        shift <= 56,
                ;
            }
            assert(nibble < 16) by (bit_vector)
                requires
                    nibble == (v >> shift) & 0xf,
            ;
        }
        if nibble != 0 || acc != 0 {
            let ghost before = s@;
            let digit = hex_digit(nibble);
            s.append(digit);
            proof {
                let after = s@;
                assert(after =~= before.push(hex_char(nibble as int)));
                assert(after.drop_last() =~= before);
                assert(after.last() == hex_char(nibble as int));
                assert forall|j: int| 0 <= j < after.len() implies (#[trigger] digit_value(
                    after[j],
                    16,
                )).is_some() by {
                    if j < before.len() {
                        assert(after[j] == before[j]);
                    }
                }
                assert forall|j: int| 0 <= j < after.len() implies exists|n: int|
                    0 <= n < 16 && #[trigger] after[j] == hex_char(n) by {
                    if j < before.len() {
                        assert(after[j] == before[j]);
                    } else {
                        assert(after[j] == hex_char(nibble as int));
                    }
                }
                if before.len() > 0 {
                    assert(after[0] == before[0]);
                }
            }
        }
        acc = next;
        i += 1;
    }
    assert(acc == v) by {
        assert(v >> 0u64 == v) by (bit_vector);
    }
    if s.unicode_len() == 0 {
        let digit = hex_digit(0);
        s.append(digit);
        proof {
            assert(s@ =~= seq![hex_char(0)]);
            assert(s@.drop_last() =~= Seq::<char>::empty());
            assert(s@.last() == hex_char(0));
            assert(digits_value(s@.drop_last(), 16) == 0);
            assert(digits_value(s@, 16) == 0);
            assert(all_digits(s@, 16));
            assert forall|j: int| 0 <= j < s@.len() implies exists|n: int|
                0 <= n < 16 && #[trigger] s@[j] == hex_char(n) by {
                assert(s@[j] == hex_char(0));
            }
        }
    }
    proof {
        let n = choose|n: int| 0 <= n < 16 && s@[0] == hex_char(n);
        assert(s@[0] != '+');
        assert(unsigned_body(s@) == s@);
        assert(digits_value(s@, 16) == v);
    }
    s
}

} // verus!
