//! Character-level text utilities shared by the parsing and formatting code.
//!
//! Executable code works on `Vec<char>`; specifications speak of `Seq<char>`,
//! the view that `str` and `String` share, so every contract lines up with
//! the string views used elsewhere in the crate.

use vstd::prelude::*;

verus! {

/// Whitespace as trimmed by this crate: blank, tab, carriage return, newline.
pub open spec fn is_space_char(c: char) -> bool {
    c == ' ' || c == '\t' || c == '\r' || c == '\n'
}

pub fn is_space(c: char) -> (b: bool)
    ensures
        b == is_space_char(c),
{
    c == ' ' || c == '\t' || c == '\r' || c == '\n'
}

/// Relies on `str::chars` collecting into `Vec<char>`: the characters of the
/// string, in order, which is exactly the view `s@`.
#[verifier::external_body]
pub fn str_to_chars(s: &str) -> (r: Vec<char>)
    ensures
        r@ == s@,
{
    s.chars().collect()
}

/// Relies on `String::from_iter` over `char`s: the resulting string holds the
/// given characters in order, so its view equals the input sequence.
#[verifier::external_body]
pub fn chars_to_string(v: &Vec<char>) -> (r: String)
    ensures
        r@ == v@,
{
    v.iter().collect()
}

/// Copy of `v[from..to]` as a fresh vector.
pub fn sub_chars(v: &Vec<char>, from: usize, to: usize) -> (r: Vec<char>)
    requires
        from <= to <= v@.len(),
    ensures
        r@ == v@.subrange(from as int, to as int),
{
    let mut r: Vec<char> = Vec::new();
    let mut i: usize = from;
    while i < to
        invariant
            from <= i <= to <= v@.len(),
            r@ == v@.subrange(from as int, i as int),
        decreases to - i,
    {
        r.push(v[i]);
        proof {
            assert(r@ =~= v@.subrange(from as int, i + 1 as int));
        }
        i = i + 1;
    }
    r
}

/// Number of leading whitespace characters.
pub open spec fn spec_leading_ws(s: Seq<char>) -> int
    decreases s.len(),
{
    if s.len() == 0 {
        0
    } else if is_space_char(s[0]) {
        1 + spec_leading_ws(s.drop_first())
    } else {
        0
    }
}

/// Number of trailing whitespace characters.
pub open spec fn spec_trailing_ws(s: Seq<char>) -> int
    decreases s.len(),
{
    if s.len() == 0 {
        0
    } else if is_space_char(s.last()) {
        1 + spec_trailing_ws(s.drop_last())
    } else {
        0
    }
}

pub proof fn lemma_leading_ws_bounds(s: Seq<char>)
    ensures
        0 <= spec_leading_ws(s) <= s.len(),
        forall|k: int| 0 <= k < spec_leading_ws(s) ==> is_space_char(s[k]),
        spec_leading_ws(s) < s.len() ==> !is_space_char(s[spec_leading_ws(s)]),
    decreases s.len(),
{
    if s.len() > 0 && is_space_char(s[0]) {
        lemma_leading_ws_bounds(s.drop_first());
        assert forall|k: int| 0 <= k < spec_leading_ws(s) implies is_space_char(s[k]) by {
            if k > 0 {
                assert(s.drop_first()[k - 1] == s[k]);
            }
        }
        if spec_leading_ws(s) < s.len() {
            assert(s.drop_first()[spec_leading_ws(s) - 1] == s[spec_leading_ws(s)]);
        }
    }
}

pub proof fn lemma_trailing_ws_bounds(s: Seq<char>)
    ensures
        0 <= spec_trailing_ws(s) <= s.len(),
        forall|k: int| s.len() - spec_trailing_ws(s) <= k < s.len() ==> is_space_char(s[k]),
        spec_trailing_ws(s) < s.len() ==> !is_space_char(s[s.len() - spec_trailing_ws(s) - 1]),
    decreases s.len(),
{
    if s.len() > 0 && is_space_char(s.last()) {
        lemma_trailing_ws_bounds(s.drop_last());
        assert forall|k: int| s.len() - spec_trailing_ws(s) <= k < s.len() implies is_space_char(
            s[k],
        ) by {
            if k < s.len() - 1 {
                assert(s.drop_last()[k] == s[k]);
            }
        }
        if spec_trailing_ws(s) < s.len() {
            assert(s.drop_last()[s.len() - spec_trailing_ws(s) - 1] == s[s.len() - spec_trailing_ws(
                s,
            ) - 1]);
        }
    }
}

/// The string with leading and trailing whitespace removed.
pub open spec fn spec_trim(s: Seq<char>) -> Seq<char> {
    if spec_leading_ws(s) == s.len() {
        Seq::<char>::empty()
    } else {
        s.subrange(spec_leading_ws(s), s.len() - spec_trailing_ws(s))
    }
}

proof fn lemma_leading_ws_step(s: Seq<char>, i: int)
    requires
        0 <= i < s.len(),
        forall|k: int| 0 <= k < i ==> is_space_char(s[k]),
        is_space_char(s[i]),
    ensures
        spec_leading_ws(s) > i,
    decreases i,
{
    lemma_leading_ws_bounds(s);
    if spec_leading_ws(s) <= i {
        assert(!is_space_char(s[spec_leading_ws(s)]));
    }
}

proof fn lemma_trailing_ws_step(s: Seq<char>, j: int)
    requires
        0 <= j < s.len(),
        forall|k: int| j < k < s.len() ==> is_space_char(s[k]),
        is_space_char(s[j]),
    ensures
        spec_trailing_ws(s) > s.len() - 1 - j,
{
    lemma_trailing_ws_bounds(s);
    if spec_trailing_ws(s) <= s.len() - 1 - j {
        assert(!is_space_char(s[s.len() - spec_trailing_ws(s) - 1]));
    }
}

/// Trim whitespace from both ends.
pub fn trim_chars(v: &Vec<char>) -> (r: Vec<char>)
    ensures
        r@ == spec_trim(v@),
{
    let n = v.len();
    let mut a: usize = 0;
    while a < n && is_space(v[a])
        invariant
            0 <= a <= n == v@.len(),
            forall|k: int| 0 <= k < a ==> is_space_char(v@[k]),
        decreases n - a,
    {
        a = a + 1;
    }
    proof {
        lemma_leading_ws_bounds(v@);
        if a < n {
            assert(spec_leading_ws(v@) <= a);
            if a > 0 {
                lemma_leading_ws_step(v@, a - 1);
            }
            assert(spec_leading_ws(v@) == a);
        } else {
            if a > 0 {
                lemma_leading_ws_step(v@, a - 1);
            }
            assert(spec_leading_ws(v@) == n);
        }
    }
    if a == n {
        let r: Vec<char> = Vec::new();
        proof {
            assert(r@ =~= spec_trim(v@));
        }
        return r;
    }
    let mut b: usize = n;
    while b > a && is_space(v[b - 1])
        invariant
            a < n == v@.len(),
            a <= b <= n,
            forall|k: int| b <= k < n ==> is_space_char(v@[k]),
            !is_space_char(v@[a as int]),
        decreases b,
    {
        b = b - 1;
    }
    proof {
        lemma_trailing_ws_bounds(v@);
        if b < n {
            lemma_trailing_ws_step(v@, b as int);
        }
        if b > a {
            assert(spec_trailing_ws(v@) <= n - b);
            assert(spec_trailing_ws(v@) == n - b);
        } else {
            // b == a and v@[a] is not whitespace, so everything after a is trailing ws
            assert(spec_trailing_ws(v@) == n - b);
        }
    }
    sub_chars(v, a, b)
}

/// Trimming is idempotent.
pub proof fn lemma_trim_idempotent(s: Seq<char>)
    ensures
        spec_trim(spec_trim(s)) == spec_trim(s),
{
    lemma_leading_ws_bounds(s);
    lemma_trailing_ws_bounds(s);
    let t = spec_trim(s);
    if spec_leading_ws(s) == s.len() {
        assert(t =~= Seq::<char>::empty());
        assert(spec_trim(t) =~= t);
    } else {
        let a = spec_leading_ws(s);
        let b = s.len() - spec_trailing_ws(s);
        assert(b > a) by {
            if b <= a {
                assert(is_space_char(s[a]));
            }
        }
        assert(t[0] == s[a]);
        assert(t.last() == s[b - 1]);
        assert(!is_space_char(s[b - 1]));
        assert(spec_leading_ws(t) == 0);
        assert(spec_trailing_ws(t) == 0);
        assert(spec_trim(t) =~= t);
    }
}

/// True when `s` starts with `p`.
pub open spec fn spec_starts_with(s: Seq<char>, p: Seq<char>) -> bool {
    p.len() <= s.len() && s.subrange(0, p.len() as int) == p
}

pub fn starts_with_chars(v: &Vec<char>, p: &Vec<char>) -> (b: bool)
    ensures
        b == spec_starts_with(v@, p@),
{
    if p.len() > v.len() {
        proof {
            assert(!spec_starts_with(v@, p@));
        }
        return false;
    }
    let mut i: usize = 0;
    while i < p.len()
        invariant
            0 <= i <= p@.len() <= v@.len(),
            forall|k: int| 0 <= k < i ==> v@[k] == p@[k],
        decreases p@.len() - i,
    {
        if v[i] != p[i] {
            proof {
                assert(v@.subrange(0, p@.len() as int)[i as int] != p@[i as int]);
            }
            return false;
        }
        i = i + 1;
    }
    proof {
        assert(v@.subrange(0, p@.len() as int) =~= p@);
    }
    true
}

/// Append all of `src` onto `dst`.
pub fn push_all(dst: &mut Vec<char>, src: &Vec<char>)
    ensures
        final(dst)@ == old(dst)@ + src@,
{
    let mut i: usize = 0;
    while i < src.len()
        invariant
            0 <= i <= src@.len(),
            dst@ == old(dst)@ + src@.subrange(0, i as int),
        decreases src@.len() - i,
    {
        dst.push(src[i]);
        proof {
            assert(old(dst)@ + src@.subrange(0, i + 1 as int) =~= (old(dst)@ + src@.subrange(
                0,
                i as int,
            )).push(src@[i as int]));
        }
        i = i + 1;
    }
    proof {
        assert(src@.subrange(0, src@.len() as int) =~= src@);
    }
}

/// Index of the first occurrence of `c` in `s`, or `s.len()` if absent.
pub open spec fn spec_find_char(s: Seq<char>, c: char) -> int
    decreases s.len(),
{
    if s.len() == 0 {
        0
    } else if s[0] == c {
        0
    } else {
        1 + spec_find_char(s.drop_first(), c)
    }
}

pub proof fn lemma_find_char_bounds(s: Seq<char>, c: char)
    ensures
        0 <= spec_find_char(s, c) <= s.len(),
        forall|k: int| 0 <= k < spec_find_char(s, c) ==> s[k] != c,
        spec_find_char(s, c) < s.len() ==> s[spec_find_char(s, c)] == c,
    decreases s.len(),
{
    if s.len() > 0 && s[0] != c {
        lemma_find_char_bounds(s.drop_first(), c);
        assert forall|k: int| 0 <= k < spec_find_char(s, c) implies s[k] != c by {
            if k > 0 {
                assert(s.drop_first()[k - 1] == s[k]);
            }
        }
        if spec_find_char(s, c) < s.len() {
            assert(s.drop_first()[spec_find_char(s, c) - 1] == s[spec_find_char(s, c)]);
        }
    }
}

/// Any index that looks like the first occurrence is the first occurrence.
pub proof fn lemma_find_char_unique(s: Seq<char>, c: char, i: int)
    requires
        0 <= i <= s.len(),
        forall|k: int| 0 <= k < i ==> s[k] != c,
        i < s.len() ==> s[i] == c,
    ensures
        i == spec_find_char(s, c),
{
    lemma_find_char_bounds(s, c);
}

/// First occurrence of `c` at or after `from`, or `v.len()` if absent.
pub fn find_char_from(v: &Vec<char>, from: usize, c: char) -> (r: usize)
    requires
        from <= v@.len(),
    ensures
        from <= r <= v@.len(),
        forall|k: int| from <= k < r ==> v@[k] != c,
        r < v@.len() ==> v@[r as int] == c,
{
    let mut i: usize = from;
    while i < v.len()
        invariant
            from <= i <= v@.len(),
            forall|k: int| from <= k < i ==> v@[k] != c,
        decreases v@.len() - i,
    {
        if v[i] == c {
            return i;
        }
        i = i + 1;
    }
    i
}

/// Index of the first whitespace character in `s`, or `s.len()` if absent.
pub open spec fn spec_find_ws(s: Seq<char>) -> int
    decreases s.len(),
{
    if s.len() == 0 {
        0
    } else if is_space_char(s[0]) {
        0
    } else {
        1 + spec_find_ws(s.drop_first())
    }
}

pub proof fn lemma_find_ws_bounds(s: Seq<char>)
    ensures
        0 <= spec_find_ws(s) <= s.len(),
        forall|k: int| 0 <= k < spec_find_ws(s) ==> !is_space_char(s[k]),
        spec_find_ws(s) < s.len() ==> is_space_char(s[spec_find_ws(s)]),
    decreases s.len(),
{
    if s.len() > 0 && !is_space_char(s[0]) {
        lemma_find_ws_bounds(s.drop_first());
        assert forall|k: int| 0 <= k < spec_find_ws(s) implies !is_space_char(s[k]) by {
            if k > 0 {
                assert(s.drop_first()[k - 1] == s[k]);
            }
        }
        if spec_find_ws(s) < s.len() {
            assert(s.drop_first()[spec_find_ws(s) - 1] == s[spec_find_ws(s)]);
        }
    }
}

/// Any index that looks like the first whitespace is the first whitespace.
pub proof fn lemma_find_ws_unique(s: Seq<char>, i: int)
    requires
        0 <= i <= s.len(),
        forall|k: int| 0 <= k < i ==> !is_space_char(s[k]),
        i < s.len() ==> is_space_char(s[i]),
    ensures
        i == spec_find_ws(s),
{
    lemma_find_ws_bounds(s);
}

/// First whitespace character at or after `from`, or `v.len()` if absent.
pub fn find_ws_from(v: &Vec<char>, from: usize) -> (r: usize)
    requires
        from <= v@.len(),
    ensures
        from <= r <= v@.len(),
        forall|k: int| from <= k < r ==> !is_space_char(v@[k]),
        r < v@.len() ==> is_space_char(v@[r as int]),
{
    let mut i: usize = from;
    while i < v.len()
        invariant
            from <= i <= v@.len(),
            forall|k: int| from <= k < i ==> !is_space_char(v@[k]),
        decreases v@.len() - i,
    {
        if is_space(v[i]) {
            return i;
        }
        i = i + 1;
    }
    i
}

/// Character-for-character equality.
pub fn chars_eq(a: &Vec<char>, b: &Vec<char>) -> (r: bool)
    ensures
        r == (a@ == b@),
{
    if a.len() != b.len() {
        proof {
            assert(a@ != b@);
        }
        return false;
    }
    let mut i: usize = 0;
    while i < a.len()
        invariant
            0 <= i <= a@.len() == b@.len(),
            forall|k: int| 0 <= k < i ==> a@[k] == b@[k],
        decreases a@.len() - i,
    {
        if a[i] != b[i] {
            return false;
        }
        i = i + 1;
    }
    proof {
        assert(a@ =~= b@);
    }
    true
}

/// The decimal digits of `n`, most significant first.
pub open spec fn spec_u64_digits(n: u64) -> Seq<char>
    decreases n,
{
    if n < 10 {
        seq![spec_digit_char(n as int)]
    } else {
        spec_u64_digits(n / 10).push(spec_digit_char((n % 10) as int))
    }
}

pub open spec fn spec_digit_char(d: int) -> char {
    if d == 0 {
        '0'
    } else if d == 1 {
        '1'
    } else if d == 2 {
        '2'
    } else if d == 3 {
        '3'
    } else if d == 4 {
        '4'
    } else if d == 5 {
        '5'
    } else if d == 6 {
        '6'
    } else if d == 7 {
        '7'
    } else if d == 8 {
        '8'
    } else {
        '9'
    }
}

fn digit_char(d: u64) -> (c: char)
    requires
        d < 10,
    ensures
        c == spec_digit_char(d as int),
{
    if d == 0 {
        '0'
    } else if d == 1 {
        '1'
    } else if d == 2 {
        '2'
    } else if d == 3 {
        '3'
    } else if d == 4 {
        '4'
    } else if d == 5 {
        '5'
    } else if d == 6 {
        '6'
    } else if d == 7 {
        '7'
    } else if d == 8 {
        '8'
    } else {
        '9'
    }
}

/// Decimal rendering of `n`.
pub fn u64_to_chars(n: u64) -> (r: Vec<char>)
    ensures
        r@ == spec_u64_digits(n),
    decreases n,
{
    if n < 10 {
        let mut r: Vec<char> = Vec::new();
        r.push(digit_char(n));
        proof {
            assert(r@ =~= spec_u64_digits(n));
        }
        r
    } else {
        let mut r = u64_to_chars(n / 10);
        r.push(digit_char(n % 10));
        r
    }
}

/// The decimal rendering of a number reads back as that number, and is
/// made of digits only.
pub proof fn lemma_digits_of_u64(n: u64)
    ensures
        spec_all_digits(spec_u64_digits(n)),
        spec_digits_val(spec_u64_digits(n)) == n,
        spec_u64_digits(n).len() >= 1,
    decreases n,
{
    if n < 10 {
        let d = spec_u64_digits(n);
        assert(d == seq![spec_digit_char(n as int)]);
        assert(d.drop_last() =~= Seq::<char>::empty());
        assert(spec_digits_val(d) == spec_digits_val(d.drop_last()) * 10 + spec_digit_val(d.last()));
        assert(spec_digits_val(Seq::<char>::empty()) == 0);
        assert(d.last() == spec_digit_char(n as int));
        assert(spec_digit_val(spec_digit_char(n as int)) == n);
    } else {
        lemma_digits_of_u64(n / 10);
        let d = spec_u64_digits(n);
        assert(d.drop_last() =~= spec_u64_digits(n / 10));
        assert(d.last() == spec_digit_char((n % 10) as int));
        assert(d.len() > 0);
        assert(spec_digits_val(d) == spec_digits_val(d.drop_last()) * 10 + spec_digit_val(d.last()));
        assert(spec_digit_val(d.last()) == n % 10);
        assert(spec_digits_val(d.drop_last()) == n / 10);
        assert(n == (n / 10) * 10 + n % 10) by (nonlinear_arith);
        assert forall|k: int| 0 <= k < d.len() implies spec_is_digit(d[k]) by {
            if k < d.len() - 1 {
                assert(spec_u64_digits(n / 10)[k] == d[k]);
            }
        }
    }
}

/// A positive number's rendering never starts with a zero.
pub proof fn lemma_digits_no_leading_zero(n: u64)
    requires
        n >= 1,
    ensures
        spec_digit_val(spec_u64_digits(n)[0]) >= 1,
    decreases n,
{
    lemma_digits_of_u64(n);
    if n >= 10 {
        lemma_digits_no_leading_zero(n / 10);
        lemma_digits_of_u64(n / 10);
        assert(spec_u64_digits(n)[0] == spec_u64_digits(n / 10)[0]);
    }
}

/// An all-digit string without a leading zero is the canonical rendering
/// of its value.
pub proof fn lemma_canonical_digits(s: Seq<char>, n: u64)
    requires
        spec_all_digits(s),
        spec_digits_val(s) == n,
        s.len() == 1 || spec_digit_val(s[0]) >= 1,
    ensures
        s == spec_u64_digits(n),
    decreases s.len(),
{
    lemma_digits_of_u64(n);
    if s.len() == 1 {
        assert(spec_digits_val(s) == spec_digit_val(s[0])) by {
            assert(s.drop_last() =~= Seq::<char>::empty());
            assert(spec_digits_val(Seq::<char>::empty()) == 0);
            assert(s.last() == s[0]);
        }
        assert(n < 10);
        assert(s =~= spec_u64_digits(n)) by {
            assert(spec_digit_char(spec_digit_val(s[0])) == s[0]);
        }
    } else {
        let head = s.drop_last();
        assert(spec_all_digits(head)) by {
            assert(forall|k: int| 0 <= k < head.len() ==> head[k] == s[k]);
        }
        lemma_digits_val_nonneg_pub(head);
        assert(spec_digit_val(head[0]) >= 1);
        lemma_head_value_positive(head);
        let hv = spec_digits_val(head);
        assert(n == hv * 10 + spec_digit_val(s.last()));
        assert(hv >= 1);
        assert(n >= 10 && n / 10 == hv && n % 10 == spec_digit_val(s.last()))
            by (nonlinear_arith)
            requires
                n == hv * 10 + spec_digit_val(s.last()),
                hv >= 1,
                0 <= spec_digit_val(s.last()) < 10,
        ;
        lemma_canonical_digits(head, (n / 10) as u64);
        assert(s =~= spec_u64_digits(n)) by {
            assert(spec_digit_char((n % 10) as int) == s.last()) by {
                assert(spec_digit_char(spec_digit_val(s.last())) == s.last());
            }
        }
    }
}

/// An all-digit string with a non-zero first digit has a positive value.
proof fn lemma_head_value_positive(s: Seq<char>)
    requires
        spec_all_digits(s),
        spec_digit_val(s[0]) >= 1,
    ensures
        spec_digits_val(s) >= 1,
    decreases s.len(),
{
    if s.len() == 1 {
        assert(s.drop_last() =~= Seq::<char>::empty());
        assert(spec_digits_val(Seq::<char>::empty()) == 0);
        assert(s.last() == s[0]);
        assert(spec_digits_val(s) == spec_digit_val(s[0]));
    } else {
        let head = s.drop_last();
        assert(spec_all_digits(head)) by {
            assert(forall|k: int| 0 <= k < head.len() ==> head[k] == s[k]);
        }
        lemma_head_value_positive(head);
        assert(spec_digits_val(s) == spec_digits_val(head) * 10 + spec_digit_val(s.last()));
        assert(spec_digits_val(head) * 10 >= 10) by (nonlinear_arith)
            requires
                spec_digits_val(head) >= 1,
        ;
    }
}

/// Digit-string values are never negative.
pub proof fn lemma_digits_val_nonneg_pub(s: Seq<char>)
    ensures
        spec_digits_val(s) >= 0,
    decreases s.len(),
{
    if s.len() > 0 {
        lemma_digits_val_nonneg_pub(s.drop_last());
    }
}

/// The numeric value of a digit character, or 10 for non-digits.
pub open spec fn spec_digit_val(c: char) -> int {
    if c == '0' {
        0
    } else if c == '1' {
        1
    } else if c == '2' {
        2
    } else if c == '3' {
        3
    } else if c == '4' {
        4
    } else if c == '5' {
        5
    } else if c == '6' {
        6
    } else if c == '7' {
        7
    } else if c == '8' {
        8
    } else if c == '9' {
        9
    } else {
        10
    }
}

pub open spec fn spec_is_digit(c: char) -> bool {
    spec_digit_val(c) < 10
}

pub fn digit_val(c: char) -> (d: u32)
    ensures
        d == spec_digit_val(c),
{
    if c == '0' {
        0
    } else if c == '1' {
        1
    } else if c == '2' {
        2
    } else if c == '3' {
        3
    } else if c == '4' {
        4
    } else if c == '5' {
        5
    } else if c == '6' {
        6
    } else if c == '7' {
        7
    } else if c == '8' {
        8
    } else if c == '9' {
        9
    } else {
        10
    }
}

/// The value of a digit string, reading left to right.
pub open spec fn spec_digits_val(s: Seq<char>) -> int
    decreases s.len(),
{
    if s.len() == 0 {
        0
    } else {
        spec_digits_val(s.drop_last()) * 10 + spec_digit_val(s.last())
    }
}

pub open spec fn spec_all_digits(s: Seq<char>) -> bool {
    s.len() > 0 && forall|k: int| 0 <= k < s.len() ==> spec_is_digit(s[k])
}

/// Parse a non-empty all-digit string as a `u64`; `None` on empty input, a
/// non-digit, or overflow.
pub fn parse_u64_chars(v: &Vec<char>) -> (r: Option<u64>)
    ensures
        match r {
            Some(n) => spec_all_digits(v@) && n == spec_digits_val(v@),
            None => !spec_all_digits(v@) || spec_digits_val(v@) > u64::MAX,
        },
{
    if v.len() == 0 {
        return None;
    }
    let mut acc: u64 = 0;
    let mut i: usize = 0;
    while i < v.len()
        invariant
            0 <= i <= v@.len(),
            forall|k: int| 0 <= k < i ==> spec_is_digit(v@[k]),
            acc == spec_digits_val(v@.subrange(0, i as int)),
        decreases v@.len() - i,
    {
        let d = digit_val(v[i]);
        if d >= 10 {
            proof {
                assert(!spec_all_digits(v@));
            }
            return None;
        }
        proof {
            assert(v@.subrange(0, i + 1 as int).drop_last() =~= v@.subrange(0, i as int));
            lemma_digits_val_grows(v@, i as int);
        }
        if acc > (u64::MAX - d as u64) / 10 {
            return None;
        }
        acc = acc * 10 + d as u64;
        i = i + 1;
    }
    proof {
        assert(v@.subrange(0, v@.len() as int) =~= v@);
    }
    Some(acc)
}

/// If a prefix of the digit string already exceeds what extending by one digit
/// keeps under `u64::MAX`, the whole string's value exceeds `u64::MAX` too.
proof fn lemma_digits_val_grows(s: Seq<char>, i: int)
    requires
        0 <= i < s.len(),
        forall|k: int| 0 <= k <= i ==> spec_is_digit(s[k]),
    ensures
        spec_digits_val(s.subrange(0, i)) * 10 + spec_digit_val(s[i]) > u64::MAX ==> spec_digits_val(
            s,
        ) > u64::MAX,
        spec_digits_val(s.subrange(0, i)) >= 0,
    decreases s.len(),
{
    lemma_digits_val_nonneg(s.subrange(0, i));
    if i == s.len() - 1 {
        assert(s.subrange(0, i) =~= s.drop_last());
    } else {
        lemma_digits_val_mono_extend(s, i);
        assert(s.subrange(0, i + 1).drop_last() =~= s.subrange(0, i));
        assert(s.subrange(0, i + 1).last() == s[i]);
    }
}

proof fn lemma_digits_val_nonneg(s: Seq<char>)
    ensures
        spec_digits_val(s) >= 0,
    decreases s.len(),
{
    if s.len() > 0 {
        lemma_digits_val_nonneg(s.drop_last());
    }
}

/// Extending a digit prefix by further digits never shrinks its value below
/// ten times the prefix value.
proof fn lemma_digits_val_mono_extend(s: Seq<char>, i: int)
    requires
        0 <= i < s.len() - 1,
        forall|k: int| 0 <= k <= i ==> spec_is_digit(s[k]),
    ensures
        spec_digits_val(s) >= spec_digits_val(s.subrange(0, i + 1)),
    decreases s.len(),
{
    lemma_digits_val_nonneg(s.subrange(0, i + 1));
    if i + 1 == s.len() - 1 {
        assert(s.drop_last() =~= s.subrange(0, i + 1));
        lemma_digits_val_nonneg(s.drop_last());
    } else {
        lemma_digits_val_mono_extend(s.drop_last(), i);
        assert(s.drop_last().subrange(0, i + 1) =~= s.subrange(0, i + 1));
        lemma_digits_val_nonneg(s.drop_last());
    }
}

} // verus!
