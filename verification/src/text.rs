//! Character classes, searching, trimming and fixed-width decimal rendering:
//! the string groundwork that the parsers and formatters build on.
use vstd::prelude::*;

verus! {

/// The characters that count as whitespace when a key or value is trimmed
/// (the Unicode `White_Space` class).
pub open spec fn is_space(c: char) -> bool {
    let u = c as u32;
    u == 0x09 || u == 0x0A || u == 0x0B || u == 0x0C || u == 0x0D || u == 0x20 || u == 0x85
        || u == 0xA0 || u == 0x1680 || (0x2000 <= u && u <= 0x200A) || u == 0x2028 || u == 0x2029
        || u == 0x202F || u == 0x205F || u == 0x3000
}

/// True of the characters `'0'` through `'9'`.
pub open spec fn is_digit_char(c: char) -> bool {
    '0' <= c && c <= '9'
}

/// Numeric value of a decimal digit character.
pub open spec fn digit_val(c: char) -> int
    recommends
        is_digit_char(c),
{
    c as int - '0' as int
}

/// True of ASCII letters and digits.
pub open spec fn is_alnum_char(c: char) -> bool {
    ('a' <= c && c <= 'z') || ('A' <= c && c <= 'Z') || is_digit_char(c)
}

/// Index of the first occurrence of `c` in `s`, or `s.len()` if `c` does not occur.
pub open spec fn idx_of(s: Seq<char>, c: char) -> int
    decreases s.len(),
{
    if s.len() == 0 {
        0
    } else if s[0] == c {
        0
    } else {
        1 + idx_of(s.drop_first(), c)
    }
}

pub proof fn lemma_idx_of(s: Seq<char>, c: char)
    ensures
        0 <= idx_of(s, c) <= s.len(),
        forall|j: int| 0 <= j < idx_of(s, c) ==> s[j] != c,
        idx_of(s, c) < s.len() ==> s[idx_of(s, c)] == c,
    decreases s.len(),
{
    if s.len() != 0 && s[0] != c {
        lemma_idx_of(s.drop_first(), c);
        assert(forall|j: int| 1 <= j < idx_of(s, c) ==> s[j] == s.drop_first()[j - 1]);
    }
}

pub proof fn lemma_idx_of_is(s: Seq<char>, c: char, k: int)
    requires
        0 <= k <= s.len(),
        forall|j: int| 0 <= j < k ==> s[j] != c,
        k < s.len() ==> s[k] == c,
    ensures
        idx_of(s, c) == k,
    decreases s.len(),
{
    if s.len() != 0 && s[0] != c {
        assert(forall|j: int| 0 <= j < k - 1 ==> s.drop_first()[j] == s[j + 1] && s[j + 1] != c);
        lemma_idx_of_is(s.drop_first(), c, k - 1);
    }
}

/// Index of the last occurrence of `c` in `s`, or `-1` if `c` does not occur.
pub open spec fn last_idx_of(s: Seq<char>, c: char) -> int
    decreases s.len(),
{
    if s.len() == 0 {
        -1
    } else if s.last() == c {
        s.len() - 1
    } else {
        last_idx_of(s.drop_last(), c)
    }
}

pub proof fn lemma_last_idx_of_is(s: Seq<char>, c: char, k: int)
    requires
        -1 <= k < s.len(),
        forall|j: int| k < j < s.len() ==> s[j] != c,
        k >= 0 ==> s[k] == c,
    ensures
        last_idx_of(s, c) == k,
    decreases s.len(),
{
    if s.len() != 0 && s.last() != c {
        lemma_last_idx_of_is(s.drop_last(), c, k);
    }
}

/// Index of the first character of `s` that is not whitespace, or `s.len()`
/// if all of `s` is whitespace.
pub open spec fn nonspace_start(s: Seq<char>) -> int
    decreases s.len(),
{
    if s.len() == 0 {
        0
    } else if !is_space(s[0]) {
        0
    } else {
        1 + nonspace_start(s.drop_first())
    }
}

pub proof fn lemma_nonspace_start(s: Seq<char>)
    ensures
        0 <= nonspace_start(s) <= s.len(),
        forall|j: int| 0 <= j < nonspace_start(s) ==> is_space(s[j]),
        nonspace_start(s) < s.len() ==> !is_space(s[nonspace_start(s)]),
    decreases s.len(),
{
    if s.len() != 0 && is_space(s[0]) {
        lemma_nonspace_start(s.drop_first());
        assert(forall|j: int| 1 <= j < nonspace_start(s) ==> s[j] == s.drop_first()[j - 1]);
    }
}

pub proof fn lemma_nonspace_start_is(s: Seq<char>, k: int)
    requires
        0 <= k <= s.len(),
        forall|j: int| 0 <= j < k ==> is_space(s[j]),
        k < s.len() ==> !is_space(s[k]),
    ensures
        nonspace_start(s) == k,
    decreases s.len(),
{
    if s.len() != 0 && is_space(s[0]) {
        assert(forall|j: int| 0 <= j < k - 1 ==> s.drop_first()[j] == s[j + 1] && is_space(
            s[j + 1],
        ));
        lemma_nonspace_start_is(s.drop_first(), k - 1);
    }
}

/// One past the index of the last character of `s` that is not whitespace,
/// or `0` if all of `s` is whitespace.
pub open spec fn nonspace_end(s: Seq<char>) -> int
    decreases s.len(),
{
    if s.len() == 0 {
        0
    } else if !is_space(s.last()) {
        s.len() as int
    } else {
        nonspace_end(s.drop_last())
    }
}

pub proof fn lemma_nonspace_end(s: Seq<char>)
    ensures
        0 <= nonspace_end(s) <= s.len(),
        forall|j: int| nonspace_end(s) <= j < s.len() ==> is_space(s[j]),
        nonspace_end(s) > 0 ==> !is_space(s[nonspace_end(s) - 1]),
    decreases s.len(),
{
    if s.len() != 0 && is_space(s.last()) {
        lemma_nonspace_end(s.drop_last());
        assert(forall|j: int| 0 <= j < s.len() - 1 ==> s[j] == s.drop_last()[j]);
    }
}

pub proof fn lemma_nonspace_end_is(s: Seq<char>, k: int)
    requires
        0 <= k <= s.len(),
        forall|j: int| k <= j < s.len() ==> is_space(s[j]),
        k > 0 ==> !is_space(s[k - 1]),
    ensures
        nonspace_end(s) == k,
    decreases s.len(),
{
    if s.len() != 0 && is_space(s.last()) {
        lemma_nonspace_end_is(s.drop_last(), k);
    }
}

/// `s` with leading and trailing whitespace removed.
pub open spec fn trim_spec(s: Seq<char>) -> Seq<char> {
    if nonspace_end(s) <= nonspace_start(s) {
        Seq::empty()
    } else {
        s.subrange(nonspace_start(s), nonspace_end(s))
    }
}

/// Prefixing a whitespace character does not change the trimmed value.
pub proof fn lemma_trim_space_prefix(c: char, s: Seq<char>)
    requires
        is_space(c),
    ensures
        trim_spec(seq![c] + s) == trim_spec(s),
{
    let w = seq![c] + s;
    lemma_nonspace_start(s);
    lemma_nonspace_end(s);
    lemma_nonspace_start_is(w, 1 + nonspace_start(s));
    if nonspace_end(s) == 0 {
        lemma_nonspace_end_is(w, 0);
        assert(trim_spec(w) =~= trim_spec(s));
    } else {
        lemma_nonspace_end_is(w, 1 + nonspace_end(s));
        assert(trim_spec(w) =~= trim_spec(s));
    }
}

/// Exec mirror of `is_space`.
pub fn is_space_char(c: char) -> (r: bool)
    ensures
        r == is_space(c),
{
    let u: u32 = c as u32;
    u == 0x09 || u == 0x0A || u == 0x0B || u == 0x0C || u == 0x0D || u == 0x20 || u == 0x85
        || u == 0xA0 || u == 0x1680 || (0x2000 <= u && u <= 0x200A) || u == 0x2028 || u == 0x2029
        || u == 0x202F || u == 0x205F || u == 0x3000
}

/// Exec mirror of `is_digit_char`.
pub fn digit_char_test(c: char) -> (r: bool)
    ensures
        r == is_digit_char(c),
{
    let u: u32 = c as u32;
    48 <= u && u <= 57
}

/// Exec mirror of `is_alnum_char`.
pub fn alnum_char_test(c: char) -> (r: bool)
    ensures
        r == is_alnum_char(c),
{
    let u: u32 = c as u32;
    (97 <= u && u <= 122) || (65 <= u && u <= 90) || (48 <= u && u <= 57)
}

/// Character-wise string equality.
pub fn str_eq(a: &str, b: &str) -> (r: bool)
    ensures
        r == (a@ == b@),
{
    let n = a.unicode_len();
    if n != b.unicode_len() {
        return false;
    }
    let mut i: usize = 0;
    while i < n
        invariant
            n == a@.len(),
            n == b@.len(),
            i <= n,
            forall|j: int| 0 <= j < i ==> a@[j] == b@[j],
        decreases n - i,
    {
        if a.get_char(i) != b.get_char(i) {
            return false;
        }
        i += 1;
    }
    proof {
        assert(a@ =~= b@);
    }
    true
}

/// `s` with leading and trailing whitespace removed.
pub fn trim_str<'a>(s: &'a str) -> (r: &'a str)
    ensures
        r@ == trim_spec(s@),
{
    let n = s.unicode_len();
    let mut start: usize = 0;
    while start < n && is_space_char(s.get_char(start))
        invariant
            n == s@.len(),
            start <= n,
            forall|j: int| 0 <= j < start ==> is_space(s@[j]),
        decreases n - start,
    {
        start += 1;
    }
    let mut end: usize = n;
    while end > 0 && is_space_char(s.get_char(end - 1))
        invariant
            n == s@.len(),
            end <= n,
            forall|j: int| end <= j < n ==> is_space(s@[j]),
        decreases end,
    {
        end -= 1;
    }
    proof {
        lemma_nonspace_start_is(s@, start as int);
        lemma_nonspace_end_is(s@, end as int);
    }
    if end <= start {
        let r = s.substring_char(0, 0);
        proof {
            assert(r@ =~= trim_spec(s@));
        }
        r
    } else {
        let r = s.substring_char(start, end);
        r
    }
}

/// The decimal digit character for `d`.
pub open spec fn digit_char(d: int) -> char {
    if d == 0 {
        '0'
    } else if d == 1 {
        '1'
    } else if d == 2 {
        '2'
    } else if d == 3 {
        '3'
    } else if d == 4 {
        '4'
    } else if d == 5 {
        '5'
    } else if d == 6 {
        '6'
    } else if d == 7 {
        '7'
    } else if d == 8 {
        '8'
    } else {
        '9'
    }
}

/// `n` rendered as exactly two decimal digits, zero-padded.
pub open spec fn two_digits_spec(n: int) -> Seq<char> {
    seq![digit_char(n / 10), digit_char(n % 10)]
}

/// `n` rendered as exactly four decimal digits, zero-padded.
pub open spec fn four_digits_spec(n: int) -> Seq<char> {
    two_digits_spec(n / 100) + two_digits_spec(n % 100)
}

/// The one-character string for a single decimal digit.
pub fn digit_str(d: u32) -> (r: &'static str)
    requires
        d < 10,
    ensures
        r@ == seq![digit_char(d as int)],
{
    let r: &'static str = if d == 0 {
        "0"
    } else if d == 1 {
        "1"
    } else if d == 2 {
        "2"
    } else if d == 3 {
        "3"
    } else if d == 4 {
        "4"
    } else if d == 5 {
        "5"
    } else if d == 6 {
        "6"
    } else if d == 7 {
        "7"
    } else if d == 8 {
        "8"
    } else {
        "9"
    };
    proof {
        reveal_strlit("0");
        reveal_strlit("1");
        reveal_strlit("2");
        reveal_strlit("3");
        reveal_strlit("4");
        reveal_strlit("5");
        reveal_strlit("6");
        reveal_strlit("7");
        reveal_strlit("8");
        reveal_strlit("9");
        assert(r@ =~= seq![digit_char(d as int)]);
    }
    r
}

/// Two-digit zero-padded rendering.
pub fn two_digits(n: u32) -> (r: String)
    requires
        n < 100,
    ensures
        r@ == two_digits_spec(n as int),
{
    let r = String::from_str(digit_str(n / 10)).concat(digit_str(n % 10));
    proof {
        assert(r@ =~= two_digits_spec(n as int));
    }
    r
}

/// Four-digit zero-padded rendering.
pub fn four_digits(n: u32) -> (r: String)
    requires
        n < 10000,
    ensures
        r@ == four_digits_spec(n as int),
{
    let r = two_digits(n / 100).concat(two_digits(n % 100).as_str());
    proof {
        assert(r@ =~= four_digits_spec(n as int));
    }
    r
}

} // verus!
