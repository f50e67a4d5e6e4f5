//! Character-level helpers over `&str`, each specified on the string's
//! view as a sequence of `char`s.

use vstd::prelude::*;
use vstd::string::*;

verus! {

/// The Unicode `White_Space` property, which `char::is_whitespace` tests.
pub open spec fn is_white_space(c: char) -> bool {
    let v = c as u32;
    ||| 0x09 <= v <= 0x0d
    ||| v == 0x20
    ||| v == 0x85
    ||| v == 0xa0
    ||| v == 0x1680
    ||| 0x2000 <= v <= 0x200a
    ||| v == 0x2028
    ||| v == 0x2029
    ||| v == 0x202f
    ||| v == 0x205f
    ||| v == 0x3000
}

pub fn char_is_white_space(c: char) -> (b: bool)
    ensures
        b == is_white_space(c),
{
    let v = c as u32;
    (0x09 <= v && v <= 0x0d) || v == 0x20 || v == 0x85 || v == 0xa0 || v == 0x1680 || (0x2000
        <= v && v <= 0x200a) || v == 0x2028 || v == 0x2029 || v == 0x202f || v == 0x205f || v
        == 0x3000
}

/// Index of the first character at or after `i` that is not white space.
pub open spec fn skip_white_from(s: Seq<char>, i: int) -> int
    decreases s.len() - i,
{
    if 0 <= i < s.len() && is_white_space(s[i]) {
        skip_white_from(s, i + 1)
    } else {
        i
    }
}

/// End of `s[lo..j]` once trailing white space is dropped.
pub open spec fn drop_white_until(s: Seq<char>, lo: int, j: int) -> int
    decreases j - lo,
{
    if lo < j && is_white_space(s[j - 1]) {
        drop_white_until(s, lo, j - 1)
    } else {
        j
    }
}

/// What `str::trim` leaves of `s`: leading and trailing white space removed.
pub open spec fn trimmed(s: Seq<char>) -> Seq<char> {
    let a = skip_white_from(s, 0);
    s.subrange(a, drop_white_until(s, a, s.len() as int))
}

pub proof fn lemma_skip_white_bounds(s: Seq<char>, i: int)
    requires
        0 <= i <= s.len(),
    ensures
        i <= skip_white_from(s, i) <= s.len(),
        forall|k: int| i <= k < skip_white_from(s, i) ==> is_white_space(#[trigger] s[k]),
        skip_white_from(s, i) < s.len() ==> !is_white_space(s[skip_white_from(s, i)]),
    decreases s.len() - i,
{
    if i < s.len() && is_white_space(s[i]) {
        lemma_skip_white_bounds(s, i + 1);
    }
}

pub proof fn lemma_drop_white_bounds(s: Seq<char>, lo: int, j: int)
    requires
        0 <= lo <= j <= s.len(),
    ensures
        lo <= drop_white_until(s, lo, j) <= j,
        forall|k: int| drop_white_until(s, lo, j) <= k < j ==> is_white_space(#[trigger] s[k]),
        lo < drop_white_until(s, lo, j) ==> !is_white_space(s[drop_white_until(s, lo, j) - 1]),
    decreases j - lo,
{
    if lo < j && is_white_space(s[j - 1]) {
        lemma_drop_white_bounds(s, lo, j - 1);
    }
}

/// `str::trim`.
pub fn trim(s: &str) -> (r: &str)
    ensures
        r@ == trimmed(s@),
{
    let n = s.unicode_len();
    let mut a: usize = 0;
    while a < n && char_is_white_space(s.get_char(a))
        invariant
            n == s@.len(),
            a <= n,
            skip_white_from(s@, 0) == skip_white_from(s@, a as int),
        decreases n - a,
    {
        a = a + 1;
    }
    let mut b: usize = n;
    while b > a && char_is_white_space(s.get_char(b - 1))
        invariant
            n == s@.len(),
            a <= b <= n,
            skip_white_from(s@, 0) == a,
            drop_white_until(s@, a as int, n as int) == drop_white_until(s@, a as int, b as int),
        decreases b - a,
    {
        b = b - 1;
    }
    s.substring_char(a, b)
}

/// A string that neither starts nor ends with white space is its own trim.
pub proof fn lemma_trimmed_unchanged(s: Seq<char>)
    requires
        s.len() > 0 ==> !is_white_space(s[0]) && !is_white_space(s.last()),
    ensures
        trimmed(s) == s,
{
    assert(skip_white_from(s, 0) == 0);
    assert(drop_white_until(s, 0, s.len() as int) == s.len());
    assert(trimmed(s) =~= s);
}

/// Leading white space is counted in `s` alone where what follows `s`
/// starts with something else.
pub proof fn lemma_skip_white_prefix(s: Seq<char>, rest: Seq<char>, i: int)
    requires
        0 <= i <= s.len(),
        rest.len() > 0,
        !is_white_space(rest[0]),
    ensures
        skip_white_from(s + rest, i) == skip_white_from(s, i),
    decreases s.len() - i,
{
    let w = s + rest;
    if i < s.len() {
        assert(w[i] == s[i]);
        lemma_skip_white_prefix(s, rest, i + 1);
    } else {
        assert(w[i] == rest[0]);
    }
}

/// Trailing white space is counted in `rest` alone where what precedes it
/// ends with something else.
pub proof fn lemma_drop_white_suffix(p: Seq<char>, rest: Seq<char>, j: int)
    requires
        p.len() > 0,
        !is_white_space(p.last()),
        0 <= j <= rest.len(),
    ensures
        drop_white_until(p + rest, 0, p.len() + j) == p.len() + drop_white_until(rest, 0, j),
    decreases j,
{
    let w = p + rest;
    if j > 0 {
        assert(w[p.len() + j - 1] == rest[j - 1]);
        lemma_drop_white_suffix(p, rest, j - 1);
    } else {
        assert(w[p.len() - 1] == p.last());
    }
}

/// Trimming removes white space from both ends and nothing else: the
/// result is a contiguous piece of `s` that neither starts nor ends with
/// white space, and everything outside it is white space.
pub proof fn lemma_trimmed_is_inner_piece(s: Seq<char>)
    ensures
        exists|a: int, b: int|
            0 <= a <= b <= s.len() && trimmed(s) == s.subrange(a, b) && (forall|k: int|
                0 <= k < a ==> is_white_space(#[trigger] s[k])) && (forall|k: int|
                b <= k < s.len() ==> is_white_space(#[trigger] s[k])) && (a < b ==> !is_white_space(
                s[a],
            ) && !is_white_space(s[b - 1])),
{
    let a = skip_white_from(s, 0);
    lemma_skip_white_bounds(s, 0);
    lemma_drop_white_bounds(s, a, s.len() as int);
    let b = drop_white_until(s, a, s.len() as int);
    assert(0 <= a <= b <= s.len() && trimmed(s) == s.subrange(a, b));
}

/// Trimming twice leaves what trimming once leaves.
pub proof fn lemma_trimmed_idempotent(s: Seq<char>)
    ensures
        trimmed(trimmed(s)) == trimmed(s),
{
    let a = skip_white_from(s, 0);
    lemma_skip_white_bounds(s, 0);
    lemma_drop_white_bounds(s, a, s.len() as int);
    let t = trimmed(s);
    if t.len() > 0 {
        assert(t[0] == s[a]);
        assert(t[t.len() - 1] == s[drop_white_until(s, a, s.len() as int) - 1]);
    }
    assert(skip_white_from(t, 0) == 0);
    assert(drop_white_until(t, 0, t.len() as int) == t.len());
    assert(trimmed(t) =~= t);
}

/// `str::starts_with` for a string pattern.
pub fn starts_with(s: &str, p: &str) -> (b: bool)
    ensures
        b == p@.is_prefix_of(s@),
{
    let n = s.unicode_len();
    let m = p.unicode_len();
    if m > n {
        return false;
    }
    let mut i: usize = 0;
    while i < m
        invariant
            n == s@.len(),
            m == p@.len(),
            m <= n,
            i <= m,
            forall|k: int| 0 <= k < i ==> s@[k] == p@[k],
        decreases m - i,
    {
        if s.get_char(i) != p.get_char(i) {
            assert(s@.subrange(0, m as int)[i as int] != p@[i as int]);
            return false;
        }
        i = i + 1;
    }
    assert(p@ =~= s@.subrange(0, m as int));
    true
}

/// `==` on string slices.
pub fn str_equal(a: &str, b: &str) -> (r: bool)
    ensures
        r == (a@ == b@),
{
    let n = a.unicode_len();
    if n != b.unicode_len() {
        return false;
    }
    let r = starts_with(a, b);
    proof {
        if r {
            assert(a@ =~= b@);
        }
    }
    r
}

/// `str::ends_with` for a string pattern.
pub fn ends_with(s: &str, p: &str) -> (b: bool)
    ensures
        b == p@.is_suffix_of(s@),
{
    let n = s.unicode_len();
    let m = p.unicode_len();
    if m > n {
        return false;
    }
    let off = n - m;
    let mut i: usize = 0;
    while i < m
        invariant
            n == s@.len(),
            m == p@.len(),
            off == n - m,
            i <= m,
            forall|k: int| 0 <= k < i ==> s@[off + k] == p@[k],
        decreases m - i,
    {
        if s.get_char(off + i) != p.get_char(i) {
            assert(s@.subrange(off as int, n as int)[i as int] != p@[i as int]);
            return false;
        }
        i = i + 1;
    }
    assert(p@ =~= s@.subrange(off as int, n as int));
    true
}

/// `str::strip_prefix` for a string pattern.
pub fn strip_prefix<'a>(s: &'a str, p: &str) -> (r: Option<&'a str>)
    ensures
        r is Some <==> p@.is_prefix_of(s@),
        r matches Some(t) ==> t@ == s@.skip(p@.len() as int),
{
    if starts_with(s, p) {
        let n = s.unicode_len();
        let m = p.unicode_len();
        Some(s.substring_char(m, n))
    } else {
        None
    }
}


/// Index of the first `c` in `s` at or after `i`, or -1 if there is none.
pub open spec fn index_of_from(s: Seq<char>, c: char, i: int) -> int
    decreases s.len() - i,
{
    if i < 0 || i >= s.len() {
        -1
    } else if s[i] == c {
        i
    } else {
        index_of_from(s, c, i + 1)
    }
}

/// Index of the first `c` in `s`, or -1 if there is none.
pub open spec fn first_index_of(s: Seq<char>, c: char) -> int {
    index_of_from(s, c, 0)
}

/// Index of the last `c` in `s[..j]`, or -1 if there is none.
pub open spec fn index_of_before(s: Seq<char>, c: char, j: int) -> int
    decreases j,
{
    if j <= 0 || j > s.len() {
        -1
    } else if s[j - 1] == c {
        j - 1
    } else {
        index_of_before(s, c, j - 1)
    }
}

/// Index of the last `c` in `s`, or -1 if there is none.
pub open spec fn last_index_of(s: Seq<char>, c: char) -> int {
    index_of_before(s, c, s.len() as int)
}

pub proof fn lemma_index_of_from(s: Seq<char>, c: char, i: int)
    requires
        0 <= i,
    ensures
        index_of_from(s, c, i) == -1 || (i <= index_of_from(s, c, i) < s.len() && s[index_of_from(s, c, i)] == c),
        forall|k: int| i <= k < s.len() && (index_of_from(s, c, i) == -1 || k < index_of_from(s, c, i)) ==> #[trigger] s[k] != c,
    decreases s.len() - i,
{
    if i < s.len() && s[i] != c {
        lemma_index_of_from(s, c, i + 1);
    }
}

pub proof fn lemma_index_of_before(s: Seq<char>, c: char, j: int)
    requires
        j <= s.len(),
    ensures
        index_of_before(s, c, j) == -1 || (0 <= index_of_before(s, c, j) < j && s[index_of_before(s, c, j)] == c),
        forall|k: int| index_of_before(s, c, j) < k < j && 0 <= k ==> #[trigger] s[k] != c,
    decreases j,
{
    if 0 < j && s[j - 1] != c {
        lemma_index_of_before(s, c, j - 1);
    }
}

/// The last `c` before `j` is the last one before `lo` where `s[lo..j]`
/// holds none.
pub proof fn lemma_index_of_before_skip(s: Seq<char>, c: char, lo: int, j: int)
    requires
        0 <= lo <= j <= s.len(),
        forall|k: int| lo <= k < j ==> s[k] != c,
    ensures
        index_of_before(s, c, j) == index_of_before(s, c, lo),
    decreases j - lo,
{
    if lo < j {
        lemma_index_of_before_skip(s, c, lo, j - 1);
    }
}

/// Position of the first `c` in `s`.
pub fn find_char(s: &str, c: char) -> (r: Option<usize>)
    ensures
        match r {
            Some(i) => i == first_index_of(s@, c),
            None => first_index_of(s@, c) == -1,
        },
{
    let n = s.unicode_len();
    let mut i: usize = 0;
    while i < n
        invariant
            n == s@.len(),
            i <= n,
            first_index_of(s@, c) == index_of_from(s@, c, i as int),
        decreases n - i,
    {
        if s.get_char(i) == c {
            return Some(i);
        }
        i = i + 1;
    }
    None
}

/// Position of the last `c` in `s`.
pub fn rfind_char(s: &str, c: char) -> (r: Option<usize>)
    ensures
        match r {
            Some(i) => i == last_index_of(s@, c),
            None => last_index_of(s@, c) == -1,
        },
{
    let n = s.unicode_len();
    let mut j: usize = n;
    while j > 0
        invariant
            n == s@.len(),
            j <= n,
            last_index_of(s@, c) == index_of_before(s@, c, j as int),
        decreases j,
    {
        if s.get_char(j - 1) == c {
            return Some(j - 1);
        }
        j = j - 1;
    }
    None
}

/// Whether `c` is an ASCII decimal digit.
pub open spec fn is_digit(c: char) -> bool {
    '0' <= c <= '9'
}

pub open spec fn digit_value(c: char) -> int {
    (c as u32) - ('0' as u32)
}

/// The number that the decimal digits `s[lo..hi]` denote.
pub open spec fn decimal_value(s: Seq<char>, lo: int, hi: int) -> int
    decreases hi - lo,
{
    if hi <= lo {
        0
    } else {
        decimal_value(s, lo, hi - 1) * 10 + digit_value(s[hi - 1])
    }
}

pub proof fn lemma_decimal_value_grows(s: Seq<char>, lo: int, mid: int, hi: int)
    requires
        0 <= lo <= mid <= hi <= s.len(),
        forall|k: int| lo <= k < hi ==> is_digit(#[trigger] s[k]),
    ensures
        0 <= decimal_value(s, lo, mid) <= decimal_value(s, lo, hi),
    decreases hi - lo,
{
    if mid < hi {
        lemma_decimal_value_grows(s, lo, mid, hi - 1);
    } else if lo < hi {
        lemma_decimal_value_grows(s, lo, lo, hi - 1);
    }
}

/// Where the digits of an unsigned number start: after one leading `+`.
pub open spec fn unsigned_digits_start(s: Seq<char>) -> int {
    if s.len() > 0 && s[0] == '+' {
        1
    } else {
        0
    }
}

/// What `str::parse::<u16>` gives: an optional `+`, then at least one
/// decimal digit and nothing else, denoting at most `u16::MAX`.
pub open spec fn parsed_u16(s: Seq<char>) -> Option<u16> {
    let lo = unsigned_digits_start(s);
    if lo < s.len() && (forall|k: int| lo <= k < s.len() ==> is_digit(#[trigger] s[k]))
        && decimal_value(s, lo, s.len() as int) <= u16::MAX {
        Some(decimal_value(s, lo, s.len() as int) as u16)
    } else {
        None
    }
}

/// `str::parse::<u16>`, with `None` for every error.
pub fn parse_u16(s: &str) -> (r: Option<u16>)
    ensures
        r == parsed_u16(s@),
{
    let n = s.unicode_len();
    let lo: usize = if n > 0 && s.get_char(0) == '+' {
        1
    } else {
        0
    };
    if lo >= n {
        return None;
    }
    let mut acc: u32 = 0;
    let mut i: usize = lo;
    while i < n
        invariant
            n == s@.len(),
            lo == unsigned_digits_start(s@),
            lo <= i <= n,
            lo < n,
            forall|k: int| lo <= k < i ==> is_digit(#[trigger] s@[k]),
            acc == decimal_value(s@, lo as int, i as int),
            acc <= u16::MAX,
        decreases n - i,
    {
        let c = s.get_char(i);
        if !('0' <= c && c <= '9') {
            return None;
        }
        let d = (c as u32) - ('0' as u32);
        acc = acc * 10 + d;
        if acc > 65535 {
            proof {
                if forall|k: int| lo <= k < n ==> is_digit(#[trigger] s@[k]) {
                    lemma_decimal_value_grows(s@, lo as int, i + 1, n as int);
                }
            }
            return None;
        }
        i = i + 1;
    }
    Some(acc as u16)
}


/// The characters of `s`, in order.
pub fn chars_of(s: &str) -> (r: Vec<char>)
    ensures
        r@ == s@,
{
    let mut r: Vec<char> = Vec::new();
    for c in it: s.chars()
        invariant
            it.seq() == s@,
            r@ == it.seq().take(it.index() as int),
    {
        r.push(c);
    }
    r
}

/// The character of the decimal digit `d`.
pub open spec fn digit_char(d: int) -> char {
    if d == 0 {
        '0'
    } else if d == 1 {
        '1'
    } else if d == 2 {
        '2'
    } else if d == 3 {
        '3'
    } else if d == 4 {
        '4'
    } else if d == 5 {
        '5'
    } else if d == 6 {
        '6'
    } else if d == 7 {
        '7'
    } else if d == 8 {
        '8'
    } else {
        '9'
    }
}

/// The decimal digits of `n`, without leading zeros.
pub open spec fn decimal_digits(n: nat) -> Seq<char>
    decreases n,
{
    if n < 10 {
        seq![digit_char(n as int)]
    } else {
        decimal_digits(n / 10).push(digit_char((n % 10) as int))
    }
}

/// `n` written in decimal, with a leading `-` where it is negative.
pub open spec fn decimal_text(n: int) -> Seq<char> {
    if n < 0 {
        seq!['-'] + decimal_digits((-n) as nat)
    } else {
        decimal_digits(n as nat)
    }
}

fn digit_str(d: u64) -> (r: &'static str)
    requires
        d < 10,
    ensures
        r@ == seq![digit_char(d as int)],
{
    proof {
        reveal_strlit("0");
        reveal_strlit("1");
        reveal_strlit("2");
        reveal_strlit("3");
        reveal_strlit("4");
        reveal_strlit("5");
        reveal_strlit("6");
        reveal_strlit("7");
        reveal_strlit("8");
        reveal_strlit("9");
    }
    if d == 0 {
        "0"
    } else if d == 1 {
        "1"
    } else if d == 2 {
        "2"
    } else if d == 3 {
        "3"
    } else if d == 4 {
        "4"
    } else if d == 5 {
        "5"
    } else if d == 6 {
        "6"
    } else if d == 7 {
        "7"
    } else if d == 8 {
        "8"
    } else {
        "9"
    }
}

fn append_decimal(r: &mut String, m: u64)
    ensures
        final(r)@ == old(r)@ + decimal_digits(m as nat),
    decreases m,
{
    if m >= 10 {
        append_decimal(r, m / 10);
    }
    r.append(digit_str(m % 10));
    proof {
        if m >= 10 {
            assert(old(r)@ + decimal_digits(m as nat) =~= old(r)@ + decimal_digits((m / 10) as nat)
                + seq![digit_char((m % 10) as int)]);
        } else {
            assert(m % 10 == m);
        }
    }
}

/// `n` written in decimal, as `{}` formats an `i32`.
pub fn i32_text(n: i32) -> (r: String)
    ensures
        r@ == decimal_text(n as int),
{
    let mut r = String::new();
    if n < 0 {
        proof {
            reveal_strlit("-");
        }
        r.append("-");
        let m: u64 = (0i64 - (n as i64)) as u64;
        append_decimal(&mut r, m);
    } else {
        append_decimal(&mut r, n as u64);
    }
    r
}


proof fn lemma_digit_char(d: int)
    requires
        0 <= d <= 9,
    ensures
        digit_value(digit_char(d)) == d,
        is_digit(digit_char(d)),
{
}

proof fn lemma_decimal_value_push(s: Seq<char>, c: char, lo: int, k: int)
    requires
        0 <= lo,
        k <= s.len(),
    ensures
        decimal_value(s.push(c), lo, k) == decimal_value(s, lo, k),
    decreases k - lo,
{
    if lo < k {
        lemma_decimal_value_push(s, c, lo, k - 1);
    }
}

/// The digits of `n` are decimal digits, at least one, and denote `n`.
pub proof fn lemma_decimal_digits_value(n: nat)
    ensures
        decimal_digits(n).len() >= 1,
        forall|k: int| 0 <= k < decimal_digits(n).len() ==> is_digit(#[trigger] decimal_digits(n)[k]),
        decimal_value(decimal_digits(n), 0, decimal_digits(n).len() as int) == n,
    decreases n,
{
    if n >= 10 {
        let prefix = decimal_digits(n / 10);
        let d = digit_char((n % 10) as int);
        lemma_decimal_digits_value(n / 10);
        lemma_digit_char((n % 10) as int);
        lemma_decimal_value_push(prefix, d, 0, prefix.len() as int);
        let s = prefix.push(d);
        assert(decimal_value(s, 0, s.len() as int) == decimal_value(s, 0, prefix.len() as int) * 10
            + digit_value(d));
        assert(forall|k: int| 0 <= k < prefix.len() ==> s[k] == prefix[k]);
        assert(n == (n / 10) * 10 + n % 10);
    } else {
        lemma_digit_char(n as int);
        let s = decimal_digits(n);
        assert(decimal_value(s, 0, 0) == 0);
        assert(decimal_value(s, 0, 1) == digit_value(s[0]));
    }
}

/// Parsing the decimal digits of a `u16` gives it back.
pub proof fn lemma_parse_u16_of_decimal(p: u16)
    ensures
        parsed_u16(decimal_digits(p as nat)) == Some(p),
{
    lemma_decimal_digits_value(p as nat);
    let d = decimal_digits(p as nat);
    assert(is_digit(d[0]));
    assert(unsigned_digits_start(d) == 0);
}

} // verus!
