//! Verified text utilities shared by the parsers and formatters:
//! character classes, decimal rendering and parsing, substring search,
//! whitespace tokenisation, line splitting and trimming.

use vstd::prelude::*;

verus! {

// ---------------------------------------------------------------------------
// Character classes
// ---------------------------------------------------------------------------

/// The characters `str::split_whitespace` and `str::trim` treat as
/// whitespace (the Unicode `White_Space` property).
pub open spec fn spec_is_space(c: char) -> bool {
    (0x09 <= c as u32 && c as u32 <= 0x0d) || c as u32 == 0x20 || c as u32 == 0x85
        || c as u32 == 0xa0 || c as u32 == 0x1680 || (0x2000 <= c as u32 && c as u32 <= 0x200a)
        || c as u32 == 0x2028 || c as u32 == 0x2029 || c as u32 == 0x202f || c as u32 == 0x205f
        || c as u32 == 0x3000
}

pub fn is_space(c: char) -> (r: bool)
    ensures
        r == spec_is_space(c),
{
    let u = c as u32;
    (0x09 <= u && u <= 0x0d) || u == 0x20 || u == 0x85 || u == 0xa0 || u == 0x1680
        || (0x2000 <= u && u <= 0x200a) || u == 0x2028 || u == 0x2029 || u == 0x202f || u == 0x205f
        || u == 0x3000
}

pub open spec fn spec_is_digit(c: char) -> bool {
    0x30 <= c as u32 && c as u32 <= 0x39
}

pub open spec fn spec_digit_val(c: char) -> nat {
    (c as u32 - 0x30) as nat
}

pub fn is_digit(c: char) -> (r: bool)
    ensures
        r == spec_is_digit(c),
{
    let u = c as u32;
    0x30 <= u && u <= 0x39
}

/// Whether a string is empty or consists of whitespace only
/// (what `s.trim().is_empty()` reports).
pub open spec fn spec_is_blank(s: Seq<char>) -> bool {
    forall|i: int| 0 <= i < s.len() ==> spec_is_space(s[i])
}

pub fn is_blank(s: &str) -> (r: bool)
    ensures
        r == spec_is_blank(s@),
{
    let n = s.unicode_len();
    let mut i: usize = 0;
    while i < n
        invariant
            n == s@.len(),
            0 <= i <= n,
            forall|k: int| 0 <= k < i ==> spec_is_space(s@[k]),
        decreases n - i,
    {
        if !is_space(s.get_char(i)) {
            return false;
        }
        i = i + 1;
    }
    true
}

// ---------------------------------------------------------------------------
// Decimal rendering
// ---------------------------------------------------------------------------

pub open spec fn spec_digit_char(d: nat) -> char {
    if d == 0 {
        '0'
    } else if d == 1 {
        '1'
    } else if d == 2 {
        '2'
    } else if d == 3 {
        '3'
    } else if d == 4 {
        '4'
    } else if d == 5 {
        '5'
    } else if d == 6 {
        '6'
    } else if d == 7 {
        '7'
    } else if d == 8 {
        '8'
    } else {
        '9'
    }
}

/// The usual decimal rendering of `n`, without sign or leading zeros.
pub open spec fn spec_dec_str(n: nat) -> Seq<char>
    decreases n,
{
    if n < 10 {
        seq![spec_digit_char(n)]
    } else {
        spec_dec_str(n / 10).push(spec_digit_char(n % 10))
    }
}

pub(crate) fn digit_str(d: u64) -> (r: &'static str)
    requires
        d < 10,
    ensures
        r@ =~= seq![spec_digit_char(d as nat)],
{
    proof {
        reveal_strlit("0");
        reveal_strlit("1");
        reveal_strlit("2");
        reveal_strlit("3");
        reveal_strlit("4");
        reveal_strlit("5");
        reveal_strlit("6");
        reveal_strlit("7");
        reveal_strlit("8");
        reveal_strlit("9");
    }
    match d {
        0 => "0",
        1 => "1",
        2 => "2",
        3 => "3",
        4 => "4",
        5 => "5",
        6 => "6",
        7 => "7",
        8 => "8",
        _ => "9",
    }
}

/// Render `n` in decimal, as `n.to_string()` would.
pub fn u64_to_string(n: u64) -> (r: String)
    ensures
        r@ == spec_dec_str(n as nat),
    decreases n,
{
    if n < 10 {
        let s = digit_str(n);
        String::from_str(s)
    } else {
        let prefix = u64_to_string(n / 10);
        let s = digit_str(n % 10);
        let r = prefix.concat(s);
        proof {
            assert(r@ =~= spec_dec_str((n / 10) as nat).push(spec_digit_char((n % 10) as nat)));
        }
        r
    }
}

// ---------------------------------------------------------------------------
// Decimal parsing (the grammar of `u32::from_str` / `u16::from_str`)
// ---------------------------------------------------------------------------

pub open spec fn spec_all_digits(s: Seq<char>) -> bool {
    forall|i: int| 0 <= i < s.len() ==> spec_is_digit(s[i])
}

/// The value of a digit string, most significant digit first.
pub open spec fn spec_digits_val(s: Seq<char>) -> nat
    decreases s.len(),
{
    if s.len() == 0 {
        0
    } else {
        spec_digits_val(s.drop_last()) * 10 + spec_digit_val(s.last())
    }
}

/// The digit part of a number literal: everything after an optional
/// leading `+` sign.
pub open spec fn spec_number_body(s: Seq<char>) -> Seq<char> {
    if s.len() >= 1 && s[0] == '+' {
        s.drop_first()
    } else {
        s
    }
}

/// What `s.parse::<u32>()` returns: an optional `+` sign, then one or
/// more digits, and a value that fits.
pub open spec fn spec_parse_u32(s: Seq<char>) -> Option<u32> {
    let body = spec_number_body(s);
    if body.len() == 0 || !spec_all_digits(body) {
        None
    } else if spec_digits_val(body) > u32::MAX {
        None
    } else {
        Some(spec_digits_val(body) as u32)
    }
}

/// What `s.parse::<u16>()` returns.
pub open spec fn spec_parse_u16(s: Seq<char>) -> Option<u16> {
    let body = spec_number_body(s);
    if body.len() == 0 || !spec_all_digits(body) {
        None
    } else if spec_digits_val(body) > u16::MAX {
        None
    } else {
        Some(spec_digits_val(body) as u16)
    }
}

proof fn lemma_digits_val_take_step(s: Seq<char>, i: int)
    requires
        0 <= i < s.len(),
    ensures
        spec_digits_val(s.take(i + 1)) == spec_digits_val(s.take(i)) * 10 + spec_digit_val(s[i]),
{
    assert(s.take(i + 1).drop_last() =~= s.take(i));
    assert(s.take(i + 1).last() == s[i]);
}

proof fn lemma_digits_val_mono(s: Seq<char>, k: int)
    requires
        0 <= k <= s.len(),
    ensures
        spec_digits_val(s) >= spec_digits_val(s.take(k)),
    decreases s.len(),
{
    if k == s.len() {
        assert(s.take(k) =~= s);
    } else {
        assert(s.drop_last().take(k) =~= s.take(k));
        lemma_digits_val_mono(s.drop_last(), k);
        assert(spec_digits_val(s) >= spec_digits_val(s.drop_last()));
    }
}

/// Parse a `u32` as `str::parse::<u32>` does.
pub fn parse_u32(s: &str) -> (r: Option<u32>)
    ensures
        r == spec_parse_u32(s@),
{
    let n = s.unicode_len();
    let start: usize = if n > 0 && s.get_char(0) == '+' {
        1
    } else {
        0
    };
    let ghost body = spec_number_body(s@);
    proof {
        assert(body =~= s@.subrange(start as int, n as int));
    }
    if start >= n {
        return None;
    }
    let mut acc: u32 = 0;
    let mut i: usize = start;
    while i < n
        invariant
            n == s@.len(),
            start <= i <= n,
            body == spec_number_body(s@),
            body =~= s@.subrange(start as int, n as int),
            forall|k: int| 0 <= k < i - start ==> spec_is_digit(body[k]),
            acc == spec_digits_val(body.take(i - start)),
        decreases n - i,
    {
        let c = s.get_char(i);
        proof {
            assert(body[i - start] == s@[i as int]);
        }
        if !is_digit(c) {
            proof {
                assert(!spec_is_digit(body[i - start]));
                assert(!spec_all_digits(body));
            }
            return None;
        }
        let d = (c as u32) - 0x30;
        let wide: u64 = (acc as u64) * 10 + (d as u64);
        proof {
            lemma_digits_val_take_step(body, i - start);
        }
        if wide > u32::MAX as u64 {
            proof {
                assert(spec_digits_val(body.take(i - start + 1)) == wide);
                lemma_digits_val_mono(body, i - start + 1);
                assert(spec_digits_val(body) > u32::MAX);
            }
            return None;
        }
        acc = wide as u32;
        i = i + 1;
    }
    proof {
        assert(body.take(n - start) =~= body);
    }
    Some(acc)
}

/// Parse a `u16` as `str::parse::<u16>` does.
pub fn parse_u16(s: &str) -> (r: Option<u16>)
    ensures
        r == spec_parse_u16(s@),
{
    match parse_u32(s) {
        Some(v) => {
            if v <= u16::MAX as u32 {
                Some(v as u16)
            } else {
                proof {
                    lemma_digits_val_mono(spec_number_body(s@), spec_number_body(s@).len() as int);
                }
                None
            }
        },
        None => None,
    }
}

// ---------------------------------------------------------------------------
// Substring search and string equality
// ---------------------------------------------------------------------------

/// Whether `needle` occurs in `hay` (what `str::contains` reports for
/// string patterns).
pub open spec fn spec_contains_seq(hay: Seq<char>, needle: Seq<char>) -> bool {
    exists|i: int|
        0 <= i && i + needle.len() <= hay.len() && #[trigger] hay.subrange(i, i + needle.len())
            == needle
}

/// Whether `needle` occurs at position `i` of `hay`.
fn matches_at(hay: &str, needle: &str, i: usize) -> (r: bool)
    requires
        i + needle@.len() <= hay@.len(),
        hay@.len() <= usize::MAX,
    ensures
        r == (hay@.subrange(i as int, i + needle@.len()) == needle@),
{
    let m = needle.unicode_len();
    let mut j: usize = 0;
    while j < m
        invariant
            m == needle@.len(),
            i + m <= hay@.len(),
            hay@.len() <= usize::MAX,
            0 <= j <= m,
            forall|k: int| 0 <= k < j ==> hay@[i + k] == needle@[k],
        decreases m - j,
    {
        if hay.get_char(i + j) != needle.get_char(j) {
            proof {
                assert(hay@.subrange(i as int, i + needle@.len())[j as int] == hay@[i + j]);
            }
            return false;
        }
        j = j + 1;
    }
    proof {
        assert(hay@.subrange(i as int, i + needle@.len()) =~= needle@);
    }
    true
}

pub fn str_contains(hay: &str, needle: &str) -> (r: bool)
    ensures
        r == spec_contains_seq(hay@, needle@),
{
    let n = hay.unicode_len();
    let m = needle.unicode_len();
    if m > n {
        return false;
    }
    if m == 0 {
        proof {
            assert(hay@.subrange(0, 0 + needle@.len() as int) =~= needle@);
            assert(spec_contains_seq(hay@, needle@));
        }
        return true;
    }
    let limit = n - m;
    let mut i: usize = 0;
    while i <= limit
        invariant
            n == hay@.len(),
            m == needle@.len(),
            1 <= m <= n,
            limit == n - m,
            0 <= i <= limit + 1,
            forall|k: int|
                0 <= k < i ==> #[trigger] hay@.subrange(k, k + needle@.len()) != needle@,
        decreases limit + 1 - i,
    {
        if matches_at(hay, needle, i) {
            proof {
                assert(hay@.subrange(i as int, i as int + needle@.len()) == needle@);
                assert(spec_contains_seq(hay@, needle@));
            }
            return true;
        }
        i = i + 1;
    }
    false
}

pub fn str_eq(a: &str, b: &str) -> (r: bool)
    ensures
        r == (a@ == b@),
{
    let n = a.unicode_len();
    if n != b.unicode_len() {
        return false;
    }
    let mut i: usize = 0;
    while i < n
        invariant
            n == a@.len(),
            n == b@.len(),
            0 <= i <= n,
            forall|k: int| 0 <= k < i ==> a@[k] == b@[k],
        decreases n - i,
    {
        if a.get_char(i) != b.get_char(i) {
            return false;
        }
        i = i + 1;
    }
    proof {
        assert(a@ =~= b@);
    }
    true
}

// ---------------------------------------------------------------------------
// Searching for characters and substrings
// ---------------------------------------------------------------------------

/// Index of the first occurrence of `c` in `s`, or `-1`.
pub open spec fn spec_find_char(s: Seq<char>, c: char) -> int
    decreases s.len(),
{
    if s.len() == 0 {
        -1
    } else if s[0] == c {
        0
    } else if spec_find_char(s.drop_first(), c) == -1 {
        -1
    } else {
        1 + spec_find_char(s.drop_first(), c)
    }
}

proof fn lemma_find_char_at(s: Seq<char>, c: char, i: int)
    requires
        0 <= i < s.len(),
        s[i] == c,
        forall|k: int| 0 <= k < i ==> s[k] != c,
    ensures
        spec_find_char(s, c) == i,
    decreases i,
{
    if i == 0 {
    } else {
        let t = s.drop_first();
        assert(forall|k: int| 0 <= k < i - 1 ==> t[k] == s[k + 1] && t[k] != c);
        assert(t[i - 1] == s[i as int]);
        lemma_find_char_at(t, c, i - 1);
    }
}

proof fn lemma_find_char_none(s: Seq<char>, c: char)
    requires
        forall|k: int| 0 <= k < s.len() ==> s[k] != c,
    ensures
        spec_find_char(s, c) == -1,
    decreases s.len(),
{
    if s.len() > 0 {
        let t = s.drop_first();
        assert(forall|k: int| 0 <= k < t.len() ==> t[k] == s[k + 1] && t[k] != c);
        lemma_find_char_none(t, c);
    }
}

/// Index of the first occurrence of `c`, as `str::find` with a char
/// pattern reports it.
pub fn find_char(s: &str, c: char) -> (r: Option<usize>)
    ensures
        match r {
            Some(i) => spec_find_char(s@, c) == i && i < s@.len() && s@[i as int] == c,
            None => spec_find_char(s@, c) == -1 && forall|k: int| 0 <= k < s@.len() ==> s@[k] != c,
        },
{
    let n = s.unicode_len();
    let mut i: usize = 0;
    while i < n
        invariant
            n == s@.len(),
            0 <= i <= n,
            forall|k: int| 0 <= k < i ==> s@[k] != c,
        decreases n - i,
    {
        if s.get_char(i) == c {
            proof {
                lemma_find_char_at(s@, c, i as int);
            }
            return Some(i);
        }
        i = i + 1;
    }
    proof {
        lemma_find_char_none(s@, c);
    }
    None
}

/// Index of the last occurrence of `c` in `s`, or `-1`.
pub open spec fn spec_rfind_char(s: Seq<char>, c: char) -> int
    decreases s.len(),
{
    if s.len() == 0 {
        -1
    } else if s.last() == c {
        s.len() - 1
    } else {
        spec_rfind_char(s.drop_last(), c)
    }
}

proof fn lemma_rfind_char_at(s: Seq<char>, c: char, i: int)
    requires
        0 <= i < s.len(),
        s[i] == c,
        forall|k: int| i < k < s.len() ==> s[k] != c,
    ensures
        spec_rfind_char(s, c) == i,
    decreases s.len(),
{
    if i == s.len() - 1 {
    } else {
        let t = s.drop_last();
        assert(forall|k: int| i < k < t.len() ==> t[k] == s[k] && t[k] != c);
        assert(t[i] == s[i]);
        lemma_rfind_char_at(t, c, i);
    }
}

proof fn lemma_rfind_char_none(s: Seq<char>, c: char)
    requires
        forall|k: int| 0 <= k < s.len() ==> s[k] != c,
    ensures
        spec_rfind_char(s, c) == -1,
    decreases s.len(),
{
    if s.len() > 0 {
        let t = s.drop_last();
        assert(forall|k: int| 0 <= k < t.len() ==> t[k] == s[k] && t[k] != c);
        lemma_rfind_char_none(t, c);
    }
}

/// Index of the last occurrence of `c`, as `str::rfind` with a char
/// pattern reports it.
pub fn rfind_char(s: &str, c: char) -> (r: Option<usize>)
    ensures
        match r {
            Some(i) => spec_rfind_char(s@, c) == i && i < s@.len() && s@[i as int] == c,
            None => spec_rfind_char(s@, c) == -1 && forall|k: int| 0 <= k < s@.len() ==> s@[k] != c,
        },
{
    let n = s.unicode_len();
    let mut i: usize = n;
    while i > 0
        invariant
            n == s@.len(),
            0 <= i <= n,
            forall|k: int| i <= k < n ==> s@[k] != c,
        decreases i,
    {
        if s.get_char(i - 1) == c {
            proof {
                lemma_rfind_char_at(s@, c, i - 1);
            }
            return Some(i - 1);
        }
        i = i - 1;
    }
    proof {
        lemma_rfind_char_none(s@, c);
    }
    None
}

/// Index of the first occurrence of `needle` in `hay`, or `-1`.
pub open spec fn spec_find_sub(hay: Seq<char>, needle: Seq<char>) -> int
    decreases hay.len(),
{
    if needle.len() > hay.len() {
        -1
    } else if hay.subrange(0, needle.len() as int) == needle {
        0
    } else if hay.len() == needle.len() {
        -1
    } else if spec_find_sub(hay.drop_first(), needle) == -1 {
        -1
    } else {
        1 + spec_find_sub(hay.drop_first(), needle)
    }
}

proof fn lemma_find_sub_shift(hay: Seq<char>, needle: Seq<char>, k: int)
    requires
        0 <= k,
        k + 1 + needle.len() <= hay.len(),
    ensures
        hay.drop_first().subrange(k, k + needle.len() as int) == hay.subrange(
            k + 1,
            k + 1 + needle.len() as int,
        ),
{
    assert(hay.drop_first().subrange(k, k + needle.len() as int) =~= hay.subrange(
        k + 1,
        k + 1 + needle.len() as int,
    ));
}

proof fn lemma_find_sub_at(hay: Seq<char>, needle: Seq<char>, i: int)
    requires
        0 <= i,
        i + needle.len() <= hay.len(),
        hay.subrange(i, i + needle.len() as int) == needle,
        forall|k: int|
            0 <= k < i ==> #[trigger] hay.subrange(k, k + needle.len() as int) != needle,
    ensures
        spec_find_sub(hay, needle) == i,
    decreases i,
{
    if i == 0 {
    } else {
        assert(hay.subrange(0, 0 + needle.len() as int) != needle);
        assert(hay.subrange(0, needle.len() as int) =~= hay.subrange(0, 0 + needle.len() as int));
        let t = hay.drop_first();
        assert forall|k: int|
            0 <= k < i - 1 implies #[trigger] t.subrange(k, k + needle.len() as int)
            != needle by {
            lemma_find_sub_shift(hay, needle, k);
            assert(hay.subrange(k + 1, k + 1 + needle.len() as int) != needle);
        }
        lemma_find_sub_shift(hay, needle, i - 1);
        lemma_find_sub_at(t, needle, i - 1);
    }
}

proof fn lemma_find_sub_none(hay: Seq<char>, needle: Seq<char>)
    requires
        forall|k: int|
            0 <= k && k + needle.len() <= hay.len() ==> #[trigger] hay.subrange(
                k,
                k + needle.len() as int,
            ) != needle,
    ensures
        spec_find_sub(hay, needle) == -1,
    decreases hay.len(),
{
    if needle.len() <= hay.len() {
        assert(hay.subrange(0, 0 + needle.len() as int) != needle);
        assert(hay.subrange(0, needle.len() as int) =~= hay.subrange(0, 0 + needle.len() as int));
        if hay.len() > needle.len() {
            let t = hay.drop_first();
            assert forall|k: int|
                0 <= k && k + needle.len() <= t.len() implies #[trigger] t.subrange(
                k,
                k + needle.len() as int,
            ) != needle by {
                lemma_find_sub_shift(hay, needle, k);
                assert(hay.subrange(k + 1, k + 1 + needle.len() as int) != needle);
            }
            lemma_find_sub_none(t, needle);
        }
    }
}

/// Index of the first occurrence of `needle`, as `str::find` with a
/// string pattern reports it.
pub fn find_sub(hay: &str, needle: &str) -> (r: Option<usize>)
    ensures
        match r {
            Some(i) => spec_find_sub(hay@, needle@) == i && i + needle@.len() <= hay@.len()
                && hay@.subrange(i as int, i + needle@.len() as int) == needle@,
            None => spec_find_sub(hay@, needle@) == -1 && !spec_contains_seq(hay@, needle@),
        },
{
    let n = hay.unicode_len();
    let m = needle.unicode_len();
    if m > n {
        proof {
            lemma_find_sub_none(hay@, needle@);
        }
        return None;
    }
    if m == 0 {
        proof {
            assert(hay@.subrange(0, needle@.len() as int) =~= needle@);
        }
        return Some(0);
    }
    let limit = n - m;
    let mut i: usize = 0;
    while i <= limit
        invariant
            n == hay@.len(),
            m == needle@.len(),
            1 <= m <= n,
            limit == n - m,
            0 <= i <= limit + 1,
            forall|k: int|
                0 <= k < i ==> #[trigger] hay@.subrange(k, k + needle@.len() as int) != needle@,
        decreases limit + 1 - i,
    {
        if matches_at(hay, needle, i) {
            proof {
                lemma_find_sub_at(hay@, needle@, i as int);
            }
            return Some(i);
        }
        i = i + 1;
    }
    proof {
        lemma_find_sub_none(hay@, needle@);
    }
    None
}

/// Start of the last occurrence of `needle` in `hay`, or `-1`.
pub open spec fn spec_rfind_sub(hay: Seq<char>, needle: Seq<char>) -> int
    decreases hay.len(),
{
    if needle.len() > hay.len() {
        -1
    } else if hay.subrange(
        (hay.len() - needle.len()) as int,
        hay.len() as int,
    ) == needle {
        hay.len() - needle.len()
    } else if hay.len() == needle.len() {
        -1
    } else {
        spec_rfind_sub(hay.drop_last(), needle)
    }
}

proof fn lemma_rfind_sub_at(hay: Seq<char>, needle: Seq<char>, i: int)
    requires
        0 <= i,
        i + needle.len() <= hay.len(),
        hay.subrange(i, i + needle.len() as int) == needle,
        forall|k: int|
            i < k && k + needle.len() <= hay.len() ==> #[trigger] hay.subrange(
                k,
                k + needle.len() as int,
            ) != needle,
    ensures
        spec_rfind_sub(hay, needle) == i,
    decreases hay.len(),
{
    if i == hay.len() - needle.len() {
        assert(hay.subrange((hay.len() - needle.len()) as int, hay.len() as int) == needle);
    } else {
        let e = hay.len() - needle.len();
        assert(hay.subrange(e, e + needle.len() as int) != needle);
        assert(hay.subrange(e, hay.len() as int) =~= hay.subrange(e, e + needle.len() as int));
        let t = hay.drop_last();
        assert forall|k: int|
            i < k && k + needle.len() <= t.len() implies #[trigger] t.subrange(
            k,
            k + needle.len() as int,
        ) != needle by {
            assert(t.subrange(k, k + needle.len() as int) =~= hay.subrange(
                k,
                k + needle.len() as int,
            ));
        }
        assert(t.subrange(i, i + needle.len() as int) =~= hay.subrange(
            i,
            i + needle.len() as int,
        ));
        lemma_rfind_sub_at(t, needle, i);
    }
}

proof fn lemma_rfind_sub_none(hay: Seq<char>, needle: Seq<char>)
    requires
        forall|k: int|
            0 <= k && k + needle.len() <= hay.len() ==> #[trigger] hay.subrange(
                k,
                k + needle.len() as int,
            ) != needle,
    ensures
        spec_rfind_sub(hay, needle) == -1,
    decreases hay.len(),
{
    if needle.len() <= hay.len() {
        let e = hay.len() - needle.len();
        assert(hay.subrange(e, e + needle.len() as int) != needle);
        assert(hay.subrange(e, hay.len() as int) =~= hay.subrange(e, e + needle.len() as int));
        if hay.len() > needle.len() {
            let t = hay.drop_last();
            assert forall|k: int|
                0 <= k && k + needle.len() <= t.len() implies #[trigger] t.subrange(
                k,
                k + needle.len() as int,
            ) != needle by {
                assert(t.subrange(k, k + needle.len() as int) =~= hay.subrange(
                    k,
                    k + needle.len() as int,
                ));
            }
            lemma_rfind_sub_none(t, needle);
        }
    }
}

/// Start of the last occurrence of `needle`, as `str::rfind` with a
/// string pattern reports it.
pub fn rfind_sub(hay: &str, needle: &str) -> (r: Option<usize>)
    ensures
        match r {
            Some(i) => spec_rfind_sub(hay@, needle@) == i && i + needle@.len() <= hay@.len()
                && hay@.subrange(i as int, i + needle@.len() as int) == needle@,
            None => spec_rfind_sub(hay@, needle@) == -1 && !spec_contains_seq(hay@, needle@),
        },
{
    let n = hay.unicode_len();
    let m = needle.unicode_len();
    if m > n {
        proof {
            lemma_rfind_sub_none(hay@, needle@);
        }
        return None;
    }
    let mut i: usize = n - m;
    loop
        invariant
            n == hay@.len(),
            m == needle@.len(),
            m <= n,
            0 <= i <= n - m,
            forall|k: int|
                i < k && k + needle@.len() <= hay@.len() ==> #[trigger] hay@.subrange(
                    k,
                    k + needle@.len() as int,
                ) != needle@,
        decreases i + 1,
    {
        if matches_at(hay, needle, i) {
            proof {
                lemma_rfind_sub_at(hay@, needle@, i as int);
            }
            return Some(i);
        }
        if i == 0 {
            proof {
                lemma_rfind_sub_none(hay@, needle@);
            }
            return None;
        }
        i = i - 1;
    }
}

/// Length of the maximal ASCII-digit prefix.
pub open spec fn spec_digit_run_len(s: Seq<char>) -> nat
    decreases s.len(),
{
    if s.len() == 0 || !spec_is_digit(s[0]) {
        0
    } else {
        1 + spec_digit_run_len(s.drop_first())
    }
}

proof fn lemma_digit_run_len_range(s: Seq<char>, j: int)
    requires
        0 <= j <= s.len(),
        forall|k: int| 0 <= k < j ==> spec_is_digit(s[k]),
        j == s.len() || !spec_is_digit(s[j]),
    ensures
        spec_digit_run_len(s) == j,
    decreases j,
{
    if j == 0 {
    } else {
        let t = s.drop_first();
        assert(forall|k: int| 0 <= k < j - 1 ==> t[k] == s[k + 1] && spec_is_digit(t[k]));
        if j - 1 < t.len() {
            assert(t[j - 1] == s[j as int]);
        }
        lemma_digit_run_len_range(t, j - 1);
    }
}

/// Index of the first non-digit character, or the length: what
/// `s.find(|c| !c.is_ascii_digit())` reports, with `None` mapped to the
/// length.
pub fn digit_run_len(s: &str) -> (r: usize)
    ensures
        r == spec_digit_run_len(s@),
        r <= s@.len(),
{
    let n = s.unicode_len();
    let mut j: usize = 0;
    while j < n
        invariant
            n == s@.len(),
            0 <= j <= n,
            forall|k: int| 0 <= k < j ==> spec_is_digit(s@[k]),
        decreases n - j,
    {
        if !is_digit(s.get_char(j)) {
            proof {
                lemma_digit_run_len_range(s@, j as int);
            }
            return j;
        }
        j = j + 1;
    }
    proof {
        lemma_digit_run_len_range(s@, n as int);
    }
    n
}

/// The segment after the last colon: what `s.rsplit(':').next()` yields.
pub open spec fn spec_after_last_colon(s: Seq<char>) -> Seq<char> {
    s.subrange(spec_rfind_char(s, ':') + 1, s.len() as int)
}

pub fn after_last_colon(s: &str) -> (r: String)
    ensures
        r@ == spec_after_last_colon(s@),
{
    let n = s.unicode_len();
    let r = match rfind_char(s, ':') {
        Some(i) => s.substring_char(i + 1, n),
        None => s.substring_char(0, n),
    };
    proof {
        assert(r@ =~= spec_after_last_colon(s@));
    }
    r.to_owned()
}

// ---------------------------------------------------------------------------
// Whitespace tokenisation
// ---------------------------------------------------------------------------

/// Length of the maximal whitespace-free prefix.
pub open spec fn spec_token_len(s: Seq<char>) -> nat
    decreases s.len(),
{
    if s.len() == 0 || spec_is_space(s[0]) {
        0
    } else {
        1 + spec_token_len(s.drop_first())
    }
}

pub proof fn lemma_token_len_bounds(s: Seq<char>)
    ensures
        spec_token_len(s) <= s.len(),
        s.len() > 0 && !spec_is_space(s[0]) ==> spec_token_len(s) >= 1,
    decreases s.len(),
{
    if s.len() > 0 && !spec_is_space(s[0]) {
        lemma_token_len_bounds(s.drop_first());
    }
}

/// The tokens of `s`, as `str::split_whitespace` yields them.
pub open spec fn spec_split_ws(s: Seq<char>) -> Seq<Seq<char>>
    decreases s.len(),
    via spec_split_ws_decreases
{
    if s.len() == 0 {
        Seq::empty()
    } else if spec_is_space(s[0]) {
        spec_split_ws(s.drop_first())
    } else {
        seq![s.take(spec_token_len(s) as int)] + spec_split_ws(s.skip(spec_token_len(s) as int))
    }
}

#[via_fn]
proof fn spec_split_ws_decreases(s: Seq<char>) {
    lemma_token_len_bounds(s);
}

proof fn lemma_split_ws_space_step(s: Seq<char>, i: int)
    requires
        0 <= i < s.len(),
        spec_is_space(s[i]),
    ensures
        spec_split_ws(s.skip(i)) == spec_split_ws(s.skip(i + 1)),
{
    assert(s.skip(i).len() > 0);
    assert(s.skip(i)[0] == s[i]);
    assert(s.skip(i).drop_first() =~= s.skip(i + 1));
}

proof fn lemma_token_len_range(s: Seq<char>, i: int, j: int)
    requires
        0 <= i <= j <= s.len(),
        forall|k: int| i <= k < j ==> !spec_is_space(s[k]),
        j == s.len() || spec_is_space(s[j]),
    ensures
        spec_token_len(s.skip(i)) == j - i,
    decreases j - i,
{
    if i == j {
        if j < s.len() {
            assert(s.skip(i)[0] == s[i]);
        }
    } else {
        assert(s.skip(i)[0] == s[i]);
        assert(!spec_is_space(s.skip(i)[0]));
        assert(s.skip(i).drop_first() =~= s.skip(i + 1));
        lemma_token_len_range(s, i + 1, j);
    }
}

proof fn lemma_split_ws_token_step(s: Seq<char>, i: int, j: int)
    requires
        0 <= i < j <= s.len(),
        forall|k: int| i <= k < j ==> !spec_is_space(s[k]),
        j == s.len() || spec_is_space(s[j]),
    ensures
        spec_split_ws(s.skip(i)) == seq![s.subrange(i, j)] + spec_split_ws(s.skip(j)),
{
    lemma_token_len_range(s, i, j);
    assert(s.skip(i).len() > 0);
    assert(s.skip(i)[0] == s[i]);
    assert(!spec_is_space(s.skip(i)[0]));
    assert(s.skip(i).take(j - i) =~= s.subrange(i, j));
    assert(s.skip(i).skip(j - i) =~= s.skip(j));
}

/// First whitespace position at or after `from`, or the length.
fn scan_nonspace(s: &str, from: usize) -> (j: usize)
    requires
        from <= s@.len(),
    ensures
        from <= j <= s@.len(),
        forall|k: int| from <= k < j ==> !spec_is_space(s@[k]),
        j < s@.len() ==> spec_is_space(s@[j as int]),
{
    let n = s.unicode_len();
    let mut j: usize = from;
    while j < n
        invariant
            n == s@.len(),
            from <= j <= n,
            forall|k: int| from <= k < j ==> !spec_is_space(s@[k]),
        decreases n - j,
    {
        if is_space(s.get_char(j)) {
            return j;
        }
        j = j + 1;
    }
    j
}

/// Split into whitespace-separated tokens, as `str::split_whitespace`.
pub fn split_whitespace_of(s: &str) -> (r: Vec<String>)
    ensures
        r.deep_view() == spec_split_ws(s@),
{
    let n = s.unicode_len();
    let mut r: Vec<String> = Vec::new();
    let mut i: usize = 0;
    proof {
        assert(s@.skip(0) =~= s@);
    }
    while i < n
        invariant
            n == s@.len(),
            0 <= i <= n,
            spec_split_ws(s@) == r.deep_view() + spec_split_ws(s@.skip(i as int)),
        decreases n - i,
    {
        if is_space(s.get_char(i)) {
            proof {
                lemma_split_ws_space_step(s@, i as int);
            }
            i = i + 1;
        } else {
            let j = scan_nonspace(s, i);
            let tok = s.substring_char(i, j).to_owned();
            proof {
                lemma_split_ws_token_step(s@, i as int, j as int);
            }
            let ghost old_r = r.deep_view();
            r.push(tok);
            proof {
                assert(r.deep_view() =~= old_r + seq![tok@]);
                assert(r.deep_view() + spec_split_ws(s@.skip(j as int)) =~= old_r + (seq![
                    s@.subrange(i as int, j as int),
                ] + spec_split_ws(s@.skip(j as int))));
            }
            i = j;
        }
    }
    proof {
        assert(s@.skip(n as int) =~= Seq::<char>::empty());
        assert(r.deep_view() + Seq::<Seq<char>>::empty() =~= r.deep_view());
    }
    r
}

// ---------------------------------------------------------------------------
// Line splitting
// ---------------------------------------------------------------------------

/// Index of the first newline, or the length if there is none.
pub open spec fn spec_nl_pos(s: Seq<char>) -> nat
    decreases s.len(),
{
    if s.len() == 0 {
        0
    } else if s[0] == '\n' {
        0
    } else {
        1 + spec_nl_pos(s.drop_first())
    }
}

pub proof fn lemma_nl_pos_bounds(s: Seq<char>)
    ensures
        spec_nl_pos(s) <= s.len(),
        forall|k: int| 0 <= k < spec_nl_pos(s) ==> s[k] != '\n',
        spec_nl_pos(s) < s.len() ==> s[spec_nl_pos(s) as int] == '\n',
    decreases s.len(),
{
    if s.len() > 0 && s[0] != '\n' {
        lemma_nl_pos_bounds(s.drop_first());
        assert forall|k: int| 0 <= k < spec_nl_pos(s) implies s[k] != '\n' by {
            if k > 0 {
                assert(s[k] == s.drop_first()[k - 1]);
            }
        }
    }
}

/// A line with a trailing carriage return removed.
pub open spec fn spec_chomp_cr(s: Seq<char>) -> Seq<char> {
    if s.len() > 0 && s.last() == '\r' {
        s.drop_last()
    } else {
        s
    }
}

/// The lines of `s`, as `str::lines` yields them.
pub open spec fn spec_lines(s: Seq<char>) -> Seq<Seq<char>>
    decreases s.len(),
    via spec_lines_decreases
{
    if s.len() == 0 {
        Seq::empty()
    } else if spec_nl_pos(s) == s.len() {
        seq![s]
    } else {
        seq![spec_chomp_cr(s.take(spec_nl_pos(s) as int))] + spec_lines(
            s.skip(spec_nl_pos(s) as int + 1),
        )
    }
}

#[via_fn]
proof fn spec_lines_decreases(s: Seq<char>) {
    lemma_nl_pos_bounds(s);
}

proof fn lemma_nl_pos_range(s: Seq<char>, i: int, j: int)
    requires
        0 <= i <= j <= s.len(),
        forall|k: int| i <= k < j ==> s[k] != '\n',
        j == s.len() || s[j] == '\n',
    ensures
        spec_nl_pos(s.skip(i)) == j - i,
    decreases j - i,
{
    if i == j {
        if j < s.len() {
            assert(s.skip(i)[0] == s[i]);
        }
    } else {
        assert(s.skip(i)[0] == s[i]);
        assert(s.skip(i).drop_first() =~= s.skip(i + 1));
        lemma_nl_pos_range(s, i + 1, j);
    }
}

/// First newline position at or after `from`, or the length.
fn scan_to_newline(s: &str, from: usize) -> (j: usize)
    requires
        from <= s@.len(),
    ensures
        from <= j <= s@.len(),
        forall|k: int| from <= k < j ==> s@[k] != '\n',
        j < s@.len() ==> s@[j as int] == '\n',
{
    let n = s.unicode_len();
    let mut j: usize = from;
    while j < n
        invariant
            n == s@.len(),
            from <= j <= n,
            forall|k: int| from <= k < j ==> s@[k] != '\n',
        decreases n - j,
    {
        if s.get_char(j) == '\n' {
            return j;
        }
        j = j + 1;
    }
    j
}

/// Split into lines, as `str::lines`.
pub fn lines_of(s: &str) -> (r: Vec<String>)
    ensures
        r.deep_view() == spec_lines(s@),
{
    let n = s.unicode_len();
    let mut r: Vec<String> = Vec::new();
    let mut i: usize = 0;
    proof {
        assert(s@.skip(0) =~= s@);
    }
    while i < n
        invariant
            n == s@.len(),
            0 <= i <= n,
            spec_lines(s@) == r.deep_view() + spec_lines(s@.skip(i as int)),
        decreases n - i,
    {
        let j = scan_to_newline(s, i);
        let ghost rest = s@.skip(i as int);
        proof {
            lemma_nl_pos_range(s@, i as int, j as int);
            assert(rest.len() > 0);
        }
        if j >= n {
            // final line without a newline
            let line = s.substring_char(i, n).to_owned();
            proof {
                assert(spec_nl_pos(rest) == rest.len());
                assert(spec_lines(rest) =~= seq![rest]);
                assert(line@ =~= rest);
            }
            let ghost old_r = r.deep_view();
            r.push(line);
            proof {
                assert(r.deep_view() =~= old_r + seq![line@]);
                assert(r.deep_view() + spec_lines(s@.skip(n as int)) =~= r.deep_view() + Seq::<
                    Seq<char>,
                >::empty());
                assert(r.deep_view() + Seq::<Seq<char>>::empty() =~= r.deep_view());
            }
            i = n;
        } else {
            let end: usize = if j > i && s.get_char(j - 1) == '\r' {
                j - 1
            } else {
                j
            };
            let line = s.substring_char(i, end).to_owned();
            proof {
                assert(spec_nl_pos(rest) == j - i);
                assert(rest.take(j - i) =~= s@.subrange(i as int, j as int));
                assert(rest.skip(j - i + 1) =~= s@.skip(j + 1));
                assert(spec_lines(rest) == seq![spec_chomp_cr(s@.subrange(i as int, j as int))]
                    + spec_lines(s@.skip(j + 1)));
                if j > i && s@[j - 1] == '\r' {
                    assert(s@.subrange(i as int, j as int).last() == s@[j - 1]);
                    assert(spec_chomp_cr(s@.subrange(i as int, j as int)) =~= s@.subrange(
                        i as int,
                        end as int,
                    ));
                } else {
                    if s@.subrange(i as int, j as int).len() > 0 {
                        assert(s@.subrange(i as int, j as int).last() == s@[j - 1]);
                    }
                    assert(spec_chomp_cr(s@.subrange(i as int, j as int)) =~= s@.subrange(
                        i as int,
                        end as int,
                    ));
                }
                assert(line@ =~= spec_chomp_cr(s@.subrange(i as int, j as int)));
            }
            let ghost old_r = r.deep_view();
            r.push(line);
            proof {
                assert(r.deep_view() =~= old_r + seq![line@]);
                assert(r.deep_view() + spec_lines(s@.skip(j + 1)) =~= old_r + (seq![line@]
                    + spec_lines(s@.skip(j + 1))));
            }
            i = j + 1;
        }
    }
    proof {
        assert(s@.skip(n as int) =~= Seq::<char>::empty());
        assert(r.deep_view() + Seq::<Seq<char>>::empty() =~= r.deep_view());
    }
    r
}

// ---------------------------------------------------------------------------
// Trimming
// ---------------------------------------------------------------------------

/// Length of the maximal whitespace prefix.
pub open spec fn spec_ws_prefix_len(s: Seq<char>) -> nat
    decreases s.len(),
{
    if s.len() == 0 || !spec_is_space(s[0]) {
        0
    } else {
        1 + spec_ws_prefix_len(s.drop_first())
    }
}

/// What `str::trim` returns.
pub open spec fn spec_trim(s: Seq<char>) -> Seq<char> {
    let t = s.skip(spec_ws_prefix_len(s) as int);
    t.take((t.len() - spec_ws_suffix_start(t)) as int)
}

/// Number of whitespace characters at the end.
pub open spec fn spec_ws_suffix_start(s: Seq<char>) -> nat
    decreases s.len(),
{
    if s.len() == 0 || !spec_is_space(s.last()) {
        0
    } else {
        1 + spec_ws_suffix_start(s.drop_last())
    }
}

proof fn lemma_ws_prefix_len_range(s: Seq<char>, j: int)
    requires
        0 <= j <= s.len(),
        forall|k: int| 0 <= k < j ==> spec_is_space(s[k]),
        j == s.len() || !spec_is_space(s[j]),
    ensures
        spec_ws_prefix_len(s) == j,
    decreases j,
{
    if j == 0 {
    } else {
        assert(spec_is_space(s[0]));
        let t = s.drop_first();
        assert(forall|k: int| 0 <= k < j - 1 ==> t[k] == s[k + 1] && spec_is_space(t[k]));
        if j - 1 < t.len() {
            assert(t[j - 1] == s[j as int]);
        }
        lemma_ws_prefix_len_range(t, j - 1);
    }
}

proof fn lemma_ws_suffix_start_range(s: Seq<char>, j: int)
    requires
        0 <= j <= s.len(),
        forall|k: int| j <= k < s.len() ==> spec_is_space(s[k]),
        j == 0 || !spec_is_space(s[j - 1]),
    ensures
        spec_ws_suffix_start(s) == s.len() - j,
    decreases s.len() - j,
{
    if j == s.len() {
    } else {
        assert(spec_is_space(s.last()));
        let t = s.drop_last();
        assert(forall|k: int| j <= k < t.len() ==> t[k] == s[k] && spec_is_space(t[k]));
        if j > 0 {
            assert(t[j - 1] == s[j - 1]);
        }
        lemma_ws_suffix_start_range(t, j);
    }
}

/// Trim leading and trailing whitespace, as `str::trim`.
pub fn trim_of(s: &str) -> (r: String)
    ensures
        r@ == spec_trim(s@),
{
    let n = s.unicode_len();
    let a = scan_space(s, 0);
    let b = scan_space_back(s, a);
    let r = s.substring_char(a, b).to_owned();
    proof {
        lemma_ws_prefix_len_range(s@, a as int);
        let t = s@.skip(a as int);
        assert(forall|k: int| b - a <= k < t.len() ==> t[k] == s@[k + a] && spec_is_space(t[k]));
        if a == b {
            lemma_ws_suffix_start_range(t, 0);
            assert(spec_trim(s@) =~= t.take(0));
            assert(r@ =~= spec_trim(s@));
        } else {
            assert(!spec_is_space(s@[b - 1]));
            assert(t[b - a - 1] == s@[b - 1]);
            lemma_ws_suffix_start_range(t, b - a);
            assert(spec_trim(s@) =~= t.take(b - a));
            assert(t.take(b - a) =~= s@.subrange(a as int, b as int));
            assert(r@ =~= spec_trim(s@));
        }
    }
    r
}

/// First non-whitespace position at or after `from`, or the length.
fn scan_space(s: &str, from: usize) -> (j: usize)
    requires
        from <= s@.len(),
    ensures
        from <= j <= s@.len(),
        forall|k: int| from <= k < j ==> spec_is_space(s@[k]),
        j < s@.len() ==> !spec_is_space(s@[j as int]),
{
    let n = s.unicode_len();
    let mut j: usize = from;
    while j < n
        invariant
            n == s@.len(),
            from <= j <= n,
            forall|k: int| from <= k < j ==> spec_is_space(s@[k]),
        decreases n - j,
    {
        if !is_space(s.get_char(j)) {
            return j;
        }
        j = j + 1;
    }
    j
}

/// End of the last non-whitespace run at or after `lo`: every character
/// from the result to the end is whitespace, and the character just
/// before the result (if past `lo`) is not.
fn scan_space_back(s: &str, lo: usize) -> (b: usize)
    requires
        lo <= s@.len(),
    ensures
        lo <= b <= s@.len(),
        forall|k: int| b <= k < s@.len() ==> spec_is_space(s@[k]),
        b > lo ==> !spec_is_space(s@[b - 1]),
{
    let n = s.unicode_len();
    let mut b: usize = n;
    while b > lo
        invariant
            n == s@.len(),
            lo <= b <= n,
            forall|k: int| b <= k < n ==> spec_is_space(s@[k]),
        decreases b,
    {
        if !is_space(s.get_char(b - 1)) {
            return b;
        }
        b = b - 1;
    }
    b
}

} // verus!
