//! Character-level text utilities with exact specifications: trimming,
//! substring search, decimal formatting and integer parsing.

use vstd::prelude::*;

verus! {

/// `String::push` appends one character at the end of the string
/// (std documentation: "Appends the given char to the end of this String").
/// The contract states exactly that and nothing more.
pub assume_specification[ String::push ](s: &mut String, ch: char)
    ensures
        final(s)@ == old(s)@.push(ch),
;

// ─── Conversions ─────────────────────────────────────────────────────────────

/// The characters of `s`, in order.
pub fn chars_of(s: &str) -> (v: Vec<char>)
    ensures
        v@ == s@,
{
    let mut v: Vec<char> = Vec::new();
    for c in it: s.chars()
        invariant
            v@ == it.seq().take(it.index() as int),
    {
        v.push(c);
    }
    v
}

/// A new string holding `v[from..to]`.
pub fn string_of_range(v: &Vec<char>, from: usize, to: usize) -> (s: String)
    requires
        from <= to <= v.len(),
    ensures
        s@ == v@.subrange(from as int, to as int),
{
    let mut s = String::new();
    let mut i = from;
    while i < to
        invariant
            from <= i <= to <= v.len(),
            s@ == v@.subrange(from as int, i as int),
        decreases to - i,
    {
        s.push(v[i]);
        i = i + 1;
    }
    s
}

/// Appends the characters of `v` to `s`.
pub fn push_chars(s: &mut String, v: &Vec<char>)
    ensures
        final(s)@ == old(s)@ + v@,
{
    let mut i: usize = 0;
    while i < v.len()
        invariant
            i <= v.len(),
            s@ == old(s)@ + v@.take(i as int),
        decreases v.len() - i,
    {
        s.push(v[i]);
        i = i + 1;
    }
}

/// Appends the characters of `t` to `s`.
pub fn push_str(s: &mut String, t: &str)
    ensures
        final(s)@ == old(s)@ + t@,
{
    let v = chars_of(t);
    push_chars(s, &v);
}

/// Whether two strings hold the same characters.
pub fn str_eq(a: &str, b: &str) -> (r: bool)
    ensures
        r == (a@ == b@),
{
    let va = chars_of(a);
    let vb = chars_of(b);
    if va.len() != vb.len() {
        return false;
    }
    let mut i: usize = 0;
    while i < va.len()
        invariant
            va.len() == vb.len(),
            i <= va.len(),
            va@ == a@,
            vb@ == b@,
            forall|j: int| 0 <= j < i ==> va@[j] == vb@[j],
        decreases va.len() - i,
    {
        if va[i] != vb[i] {
            return false;
        }
        i = i + 1;
    }
    assert(a@ =~= b@);
    true
}

// ─── Whitespace and trimming ─────────────────────────────────────────────────

/// The characters with the Unicode `White_Space` property, which is what
/// `char::is_whitespace` tests.
pub open spec fn is_white_space(c: char) -> bool {
    let u = c as u32;
    (0x09 <= u <= 0x0d) || u == 0x20 || u == 0x85 || u == 0xa0 || u == 0x1680 || (0x2000 <= u
        <= 0x200a) || u == 0x2028 || u == 0x2029 || u == 0x202f || u == 0x205f || u == 0x3000
}

pub fn is_white_space_char(c: char) -> (r: bool)
    ensures
        r == is_white_space(c),
{
    let u = c as u32;
    (0x09 <= u && u <= 0x0d) || u == 0x20 || u == 0x85 || u == 0xa0 || u == 0x1680 || (0x2000 <= u
        && u <= 0x200a) || u == 0x2028 || u == 0x2029 || u == 0x202f || u == 0x205f || u == 0x3000
}

/// Number of whitespace characters at the start of `s`.
pub open spec fn leading_ws(s: Seq<char>) -> nat
    decreases s.len(),
{
    if s.len() > 0 && is_white_space(s[0]) {
        1 + leading_ws(s.skip(1))
    } else {
        0
    }
}

/// Number of whitespace characters at the end of `s`.
pub open spec fn trailing_ws(s: Seq<char>) -> nat
    decreases s.len(),
{
    if s.len() > 0 && is_white_space(s.last()) {
        1 + trailing_ws(s.drop_last())
    } else {
        0
    }
}

/// `s` without leading whitespace (`str::trim_start`).
pub open spec fn trim_start(s: Seq<char>) -> Seq<char> {
    s.skip(leading_ws(s) as int)
}

/// `s` without trailing whitespace (`str::trim_end`).
pub open spec fn trim_end(s: Seq<char>) -> Seq<char> {
    s.take(s.len() - trailing_ws(s))
}

/// `s` without leading and trailing whitespace (`str::trim`).
pub open spec fn trim(s: Seq<char>) -> Seq<char> {
    trim_end(trim_start(s))
}

pub proof fn lemma_leading_ws_bound(s: Seq<char>)
    ensures
        leading_ws(s) <= s.len(),
    decreases s.len(),
{
    if s.len() > 0 && is_white_space(s[0]) {
        lemma_leading_ws_bound(s.skip(1));
    }
}

pub proof fn lemma_trailing_ws_bound(s: Seq<char>)
    ensures
        trailing_ws(s) <= s.len(),
    decreases s.len(),
{
    if s.len() > 0 && is_white_space(s.last()) {
        lemma_trailing_ws_bound(s.drop_last());
    }
}

/// The bounds `(a, b)` such that `v[a..b]` is `trim(v[from..to])`.
pub fn trim_range(v: &Vec<char>, from: usize, to: usize) -> (r: (usize, usize))
    requires
        from <= to <= v.len(),
    ensures
        from <= r.0 <= r.1 <= to,
        v@.subrange(r.0 as int, r.1 as int) == trim(v@.subrange(from as int, to as int)),
{
    let ghost s = v@.subrange(from as int, to as int);
    let mut a = from;
    assert(s.skip(0) =~= s);
    while a < to && is_white_space_char(v[a])
        invariant
            from <= a <= to <= v.len(),
            s == v@.subrange(from as int, to as int),
            leading_ws(s) == (a - from) + leading_ws(s.skip(a - from)),
        decreases to - a,
    {
        assert(s.skip(a - from).skip(1) =~= s.skip(a + 1 - from));
        a = a + 1;
    }
    assert(leading_ws(s.skip(a - from)) == 0);
    let ghost t = trim_start(s);
    assert(t =~= v@.subrange(a as int, to as int));
    let mut b = to;
    assert(t.take(t.len() as int) =~= t);
    while b > a && is_white_space_char(v[b - 1])
        invariant
            a <= b <= to <= v.len(),
            t == v@.subrange(a as int, to as int),
            trailing_ws(t) == (to - b) + trailing_ws(t.take(b - a)),
        decreases b - a,
    {
        assert(t.take(b - a).drop_last() =~= t.take(b - 1 - a));
        b = b - 1;
    }
    assert(trailing_ws(t.take(b - a)) == 0);
    assert(v@.subrange(a as int, b as int) =~= t.take(t.len() - trailing_ws(t)));
    (a, b)
}

/// `trim(s)` as a new string.
pub fn trim_str(s: &str) -> (r: String)
    ensures
        r@ == trim(s@),
{
    let v = chars_of(s);
    let (a, b) = trim_range(&v, 0, v.len());
    assert(v@.subrange(0, v@.len() as int) =~= v@);
    string_of_range(&v, a, b)
}

// ─── Prefixes and substring search ───────────────────────────────────────────

/// `p` is a prefix of `s`.
pub open spec fn has_prefix(s: Seq<char>, p: Seq<char>) -> bool {
    p.len() <= s.len() && s.take(p.len() as int) == p
}

/// `n` occurs in `h` at position `k`.
pub open spec fn occurs_at(h: Seq<char>, n: Seq<char>, k: int) -> bool {
    0 <= k && k + n.len() <= h.len() && h.subrange(k, k + n.len()) == n
}

/// The first position at or after `from` where `n` occurs in `h`.
pub open spec fn find_from(h: Seq<char>, n: Seq<char>, from: int) -> Option<int>
    decreases h.len() + 1 - from,
{
    if from < 0 || from + n.len() > h.len() {
        None
    } else if occurs_at(h, n, from) {
        Some(from)
    } else {
        find_from(h, n, from + 1)
    }
}

/// The first position at or after `from` holding the character `c`.
pub open spec fn find_char_from(h: Seq<char>, c: char, from: int) -> Option<int>
    decreases h.len() - from,
{
    if from < 0 || from >= h.len() {
        None
    } else if h[from] == c {
        Some(from)
    } else {
        find_char_from(h, c, from + 1)
    }
}

/// `n` occurs somewhere in `h` (`str::contains`).
pub open spec fn contains(h: Seq<char>, n: Seq<char>) -> bool {
    find_from(h, n, 0) is Some
}

/// Whether `v[from..to]` starts with the characters of `p`.
pub fn range_has_prefix(v: &Vec<char>, from: usize, to: usize, p: &Vec<char>) -> (r: bool)
    requires
        from <= to <= v.len(),
    ensures
        r == has_prefix(v@.subrange(from as int, to as int), p@),
{
    if p.len() > to - from {
        return false;
    }
    let mut i: usize = 0;
    while i < p.len()
        invariant
            p.len() <= to - from,
            from <= to <= v.len(),
            i <= p.len(),
            forall|j: int| 0 <= j < i ==> v@[from + j] == p@[j],
        decreases p.len() - i,
    {
        if v[from + i] != p[i] {
            assert(v@.subrange(from as int, to as int).take(p.len() as int)[i as int] != p@[i as int]);
            return false;
        }
        i = i + 1;
    }
    assert(v@.subrange(from as int, to as int).take(p.len() as int) =~= p@);
    true
}

/// Whether `n` occurs in `h` at position `k`.
pub fn occurs_at_exec(h: &Vec<char>, n: &Vec<char>, k: usize) -> (r: bool)
    requires
        k <= h.len(),
    ensures
        r == occurs_at(h@, n@, k as int),
{
    if n.len() > h.len() - k {
        return false;
    }
    let mut i: usize = 0;
    while i < n.len()
        invariant
            k + n.len() <= h.len(),
            i <= n.len(),
            forall|j: int| 0 <= j < i ==> h@[k + j] == n@[j],
        decreases n.len() - i,
    {
        if h[k + i] != n[i] {
            assert(h@.subrange(k as int, k + n.len())[i as int] != n@[i as int]);
            return false;
        }
        i = i + 1;
    }
    assert(h@.subrange(k as int, k + n.len()) =~= n@);
    true
}

/// The first position at or after `from` where `n` occurs in `h`.
pub fn find_from_exec(h: &Vec<char>, n: &Vec<char>, from: usize) -> (r: Option<usize>)
    requires
        from <= h.len(),
    ensures
        r matches Some(k) ==> find_from(h@, n@, from as int) == Some(k as int),
        r is None ==> find_from(h@, n@, from as int) is None,
{
    let mut k = from;
    while k < h.len()
        invariant
            from <= k <= h.len(),
            find_from(h@, n@, from as int) == find_from(h@, n@, k as int),
        decreases h.len() - k,
    {
        if n.len() > h.len() - k {
            return None;
        }
        if occurs_at_exec(h, n, k) {
            return Some(k);
        }
        k = k + 1;
    }
    if n.len() == 0 {
        assert(occurs_at(h@, n@, k as int)) by {
            assert(h@.subrange(k as int, k as int) =~= n@);
        }
        return Some(k);
    }
    None
}

/// The first position at or after `from` holding `c`.
pub fn find_char_exec(h: &Vec<char>, c: char, from: usize) -> (r: Option<usize>)
    requires
        from <= h.len(),
    ensures
        r matches Some(k) ==> find_char_from(h@, c, from as int) == Some(k as int),
        r is None ==> find_char_from(h@, c, from as int) is None,
{
    let mut k = from;
    while k < h.len()
        invariant
            from <= k <= h.len(),
            find_char_from(h@, c, from as int) == find_char_from(h@, c, k as int),
        decreases h.len() - k,
    {
        if h[k] == c {
            return Some(k);
        }
        k = k + 1;
    }
    None
}

// ─── Decimal digits ──────────────────────────────────────────────────────────

/// The ASCII digit for `d < 10`.
pub open spec fn digit_char(d: nat) -> char {
    ((d + 48) as u32) as char
}

/// Decimal representation of `n`, without leading zeros (`"0"` for zero).
pub open spec fn dec(n: nat) -> Seq<char>
    decreases n,
{
    if n < 10 {
        seq![digit_char(n)]
    } else {
        dec(n / 10).push(digit_char(n % 10))
    }
}

/// `s` left-padded with `'0'` up to `width` characters (`{:0width$}`).
pub open spec fn zero_pad(s: Seq<char>, width: nat) -> Seq<char> {
    if s.len() < width {
        Seq::new((width - s.len()) as nat, |i: int| '0') + s
    } else {
        s
    }
}

pub fn digit_to_char(d: u64) -> (c: char)
    requires
        d < 10,
    ensures
        c == digit_char(d as nat),
{
    let b: u8 = 48u8 + (d as u8);
    b as char
}

/// Appends the decimal representation of `n`.
pub fn push_decimal(s: &mut String, n: u64)
    ensures
        final(s)@ == old(s)@ + dec(n as nat),
    decreases n,
{
    if n >= 10 {
        push_decimal(s, n / 10);
    }
    let c = digit_to_char(n % 10);
    s.push(c);
}

/// Decimal representation of `n` as a new string.
pub fn decimal_string(n: u64) -> (s: String)
    ensures
        s@ == dec(n as nat),
{
    let mut s = String::new();
    push_decimal(&mut s, n);
    assert(s@ =~= dec(n as nat));
    s
}

pub proof fn lemma_dec_len(n: nat)
    ensures
        1 <= dec(n).len(),
        n < 10 ==> dec(n).len() == 1,
        10 <= n < 100 ==> dec(n).len() == 2,
        100 <= n < 1000 ==> dec(n).len() == 3,
        1000 <= n < 10000 ==> dec(n).len() == 4,
    decreases n,
{
    if n >= 10 {
        lemma_dec_len(n / 10);
    }
}

/// Appends `n` in decimal, zero-padded to `width` characters.
pub fn push_padded(s: &mut String, n: u64, width: usize)
    ensures
        final(s)@ == old(s)@ + zero_pad(dec(n as nat), width as nat),
{
    let d = decimal_string(n);
    let dv = chars_of(d.as_str());
    let ghost old_s = s@;
    if dv.len() < width {
        let pad = width - dv.len();
        let mut i: usize = 0;
        while i < pad
            invariant
                i <= pad,
                s@ == old_s + Seq::new(i as nat, |j: int| '0'),
            decreases pad - i,
        {
            s.push('0');
            assert(Seq::new((i + 1) as nat, |j: int| '0') =~= Seq::new(i as nat, |j: int| '0').push(
                '0',
            ));
            i = i + 1;
        }
    }
    let ghost mid = s@;
    push_chars(s, &dv);
    assert(s@ =~= old_s + zero_pad(dec(n as nat), width as nat));
}

// ─── Integer parsing (`str::parse` for decimal integers) ─────────────────────

pub open spec fn is_digit(c: char) -> bool {
    '0' <= c <= '9'
}

pub open spec fn digit_value(c: char) -> int {
    (c as u32) - 48
}

/// All characters of `s` are ASCII digits.
pub open spec fn all_digits(s: Seq<char>) -> bool {
    forall|i: int| 0 <= i < s.len() ==> is_digit(#[trigger] s[i])
}

/// The number written by the digits `s` (most significant first).
pub open spec fn digits_value(s: Seq<char>) -> nat
    decreases s.len(),
{
    if s.len() == 0 {
        0
    } else {
        (digits_value(s.drop_last()) * 10 + digit_value(s.last())) as nat
    }
}

/// What `str::parse::<T>()` gives for a decimal integer type `T` whose values
/// are `min..=max`, ignoring nothing: an optional `+` (or `-` when `signed`),
/// then at least one ASCII digit and nothing else; `None` for any other input
/// or for a value out of range.
pub open spec fn parse_integer(s: Seq<char>, signed: bool, min: int, max: int) -> Option<int> {
    if s.len() == 0 {
        None
    } else if (s[0] == '+' || s[0] == '-') && s.len() == 1 {
        None
    } else {
        let negative = signed && s[0] == '-';
        let body = if s[0] == '+' || negative {
            s.skip(1)
        } else {
            s
        };
        if !all_digits(body) {
            None
        } else {
            let v: int = if negative {
                -(digits_value(body) as int)
            } else {
                digits_value(body) as int
            };
            if min <= v <= max {
                Some(v)
            } else {
                None
            }
        }
    }
}

/// `str::parse::<i64>()`.
pub open spec fn parse_i64(s: Seq<char>) -> Option<int> {
    parse_integer(s, true, i64::MIN as int, i64::MAX as int)
}

/// `str::parse::<u64>()`.
pub open spec fn parse_u64(s: Seq<char>) -> Option<int> {
    parse_integer(s, false, 0, u64::MAX as int)
}

/// Value of the digits `v[from..to]`, or `None` when a character is not a
/// digit or the value exceeds `u64::MAX`.
fn digits_u64(v: &Vec<char>, from: usize, to: usize) -> (r: Option<u64>)
    requires
        from <= to <= v.len(),
    ensures
        r matches Some(x) ==> all_digits(v@.subrange(from as int, to as int)) && x
            == digits_value(v@.subrange(from as int, to as int)),
        r is None ==> !all_digits(v@.subrange(from as int, to as int)) || digits_value(
            v@.subrange(from as int, to as int),
        ) > u64::MAX,
{
    let ghost s = v@.subrange(from as int, to as int);
    let mut acc: u64 = 0;
    let mut overflow = false;
    let mut i = from;
    while i < to
        invariant
            from <= i <= to <= v.len(),
            s == v@.subrange(from as int, to as int),
            all_digits(s.take(i - from)),
            overflow ==> digits_value(s.take(i - from)) > u64::MAX,
            !overflow ==> acc == digits_value(s.take(i - from)),
        decreases to - i,
    {
        let c = v[i];
        if !('0' <= c && c <= '9') {
            assert(s[i - from] == c);
            return None;
        }
        let d = (c as u32 - 48) as u64;
        assert(s.take(i + 1 - from).drop_last() =~= s.take(i - from));
        assert(s.take(i + 1 - from).last() == c);
        if !overflow {
            if acc > (u64::MAX - d) / 10 {
                overflow = true;
                assert(digits_value(s.take(i + 1 - from)) > u64::MAX) by (nonlinear_arith)
                    requires
                        acc > (u64::MAX - d) / 10,
                        digits_value(s.take(i + 1 - from)) == acc * 10 + d,
                ;
            } else {
                assert(acc * 10 + d <= u64::MAX) by (nonlinear_arith)
                    requires
                        acc <= (u64::MAX - d) / 10,
                        d < 10,
                ;
                acc = acc * 10 + d;
            }
        } else {
            assert(digits_value(s.take(i + 1 - from)) >= digits_value(s.take(i - from)) * 10) by (
            nonlinear_arith)
                requires
                    digits_value(s.take(i + 1 - from)) == digits_value(s.take(i - from)) * 10
                        + digit_value(c),
                    0 <= digit_value(c),
            ;
        }
        assert(all_digits(s.take(i + 1 - from)));
        i = i + 1;
    }
    assert(s.take(to - from) =~= s);
    if overflow {
        None
    } else {
        Some(acc)
    }
}

/// `v[from..to].parse::<u64>()`.
pub fn parse_u64_range(v: &Vec<char>, from: usize, to: usize) -> (r: Option<u64>)
    requires
        from <= to <= v.len(),
    ensures
        r matches Some(x) ==> parse_u64(v@.subrange(from as int, to as int)) == Some(x as int),
        r is None ==> parse_u64(v@.subrange(from as int, to as int)) is None,
{
    let ghost s = v@.subrange(from as int, to as int);
    if from == to {
        return None;
    }
    assert(s[0] == v@[from as int]);
    if (v[from] == '+' || v[from] == '-') && to - from == 1 {
        return None;
    }
    let start = if v[from] == '+' {
        from + 1
    } else {
        from
    };
    assert(s.skip(start - from) =~= v@.subrange(start as int, to as int));
    digits_u64(v, start, to)
}

/// `v[from..to].parse::<i64>()`, for ranges of at most 18 characters.
pub fn parse_i64_short(v: &Vec<char>, from: usize, to: usize) -> (r: Option<i64>)
    requires
        from <= to <= v.len(),
        to - from <= 18,
    ensures
        r matches Some(x) ==> parse_i64(v@.subrange(from as int, to as int)) == Some(x as int),
        r is None ==> parse_i64(v@.subrange(from as int, to as int)) is None,
{
    let ghost s = v@.subrange(from as int, to as int);
    if from == to {
        return None;
    }
    assert(s[0] == v@[from as int]);
    if (v[from] == '+' || v[from] == '-') && to - from == 1 {
        return None;
    }
    let negative = v[from] == '-';
    let start = if v[from] == '+' || negative {
        from + 1
    } else {
        from
    };
    assert(s.skip(start - from) =~= v@.subrange(start as int, to as int));
    match digits_u64(v, start, to) {
        None => None,
        Some(x) => {
            proof {
                lemma_digits_value_bound(v@.subrange(start as int, to as int));
            }
            if negative {
                Some(-(x as i64))
            } else {
                Some(x as i64)
            }
        },
    }
}

pub open spec fn pow10(n: nat) -> nat
    decreases n,
{
    if n == 0 {
        1
    } else {
        10 * pow10((n - 1) as nat)
    }
}

/// A string of `n` digits denotes a number below `10^n`.
pub proof fn lemma_digits_value_bound(s: Seq<char>)
    requires
        all_digits(s),
    ensures
        digits_value(s) < pow10(s.len()),
        s.len() <= 18 ==> digits_value(s) < 1_000_000_000_000_000_000,
    decreases s.len(),
{
    if s.len() > 0 {
        assert(all_digits(s.drop_last()));
        lemma_digits_value_bound(s.drop_last());
        assert(is_digit(s[s.len() - 1]));
    }
    if s.len() <= 18 {
        lemma_pow10_mono(s.len(), 18);
        reveal_with_fuel(pow10, 19);
        assert(pow10(18) == 1_000_000_000_000_000_000);
    }
}

pub proof fn lemma_pow10_mono(a: nat, b: nat)
    requires
        a <= b,
    ensures
        pow10(a) <= pow10(b),
    decreases b,
{
    if a < b {
        lemma_pow10_mono(a, (b - 1) as nat);
    }
}

} // verus!

verus! {

// ─── Integer parsing on UTF-8 bytes ──────────────────────────────────────────

pub open spec fn is_digit_byte(b: u8) -> bool {
    48 <= b <= 57
}

pub open spec fn all_digit_bytes(s: Seq<u8>) -> bool {
    forall|i: int| 0 <= i < s.len() ==> is_digit_byte(#[trigger] s[i])
}

/// The number written by the ASCII digits `s`.
pub open spec fn digit_bytes_value(s: Seq<u8>) -> nat
    decreases s.len(),
{
    if s.len() == 0 {
        0
    } else {
        (digit_bytes_value(s.drop_last()) * 10 + (s.last() - 48)) as nat
    }
}

/// `str::parse::<i64>()` on the string whose UTF-8 bytes are `s`: an optional
/// `+` or `-`, then at least one ASCII digit and nothing else, the value
/// within `i64`.
pub open spec fn parse_i64_bytes(s: Seq<u8>) -> Option<int> {
    if s.len() == 0 {
        None
    } else if (s[0] == 43 || s[0] == 45) && s.len() == 1 {
        None
    } else {
        let negative = s[0] == 45;
        let body = if s[0] == 43 || negative {
            s.skip(1)
        } else {
            s
        };
        if !all_digit_bytes(body) {
            None
        } else {
            let v: int = if negative {
                -(digit_bytes_value(body) as int)
            } else {
                digit_bytes_value(body) as int
            };
            if i64::MIN <= v <= i64::MAX {
                Some(v)
            } else {
                None
            }
        }
    }
}

pub proof fn lemma_digit_bytes_value_bound(s: Seq<u8>)
    requires
        all_digit_bytes(s),
    ensures
        digit_bytes_value(s) < pow10(s.len()),
    decreases s.len(),
{
    if s.len() > 0 {
        assert(all_digit_bytes(s.drop_last()));
        lemma_digit_bytes_value_bound(s.drop_last());
        assert(is_digit_byte(s[s.len() - 1]));
    }
}

/// `parse_i64_bytes(b[from..to])` for ranges of at most four bytes.
pub fn parse_i64_bytes_short(b: &[u8], from: usize, to: usize) -> (r: Option<i64>)
    requires
        from <= to <= b@.len(),
        to - from <= 4,
    ensures
        r matches Some(x) ==> parse_i64_bytes(b@.subrange(from as int, to as int)) == Some(
            x as int,
        ),
        r is None ==> parse_i64_bytes(b@.subrange(from as int, to as int)) is None,
        r matches Some(x) ==> -9999 <= x <= 9999,
{
    let ghost s = b@.subrange(from as int, to as int);
    if from == to {
        return None;
    }
    assert(s[0] == b@[from as int]);
    if (b[from] == 43 || b[from] == 45) && to - from == 1 {
        return None;
    }
    let negative = b[from] == 45;
    let start = if b[from] == 43 || negative {
        from + 1
    } else {
        from
    };
    let ghost body = b@.subrange(start as int, to as int);
    assert(s.skip(start - from) =~= body);
    let mut acc: i64 = 0;
    let mut i = start;
    while i < to
        invariant
            from <= start <= i <= to <= b@.len(),
            to - from <= 4,
            body == b@.subrange(start as int, to as int),
            s == b@.subrange(from as int, to as int),
            s.skip(start - from) == body,
            s[0] == b@[from as int],
            negative == (b@[from as int] == 45),
            start == (if b@[from as int] == 43 || negative { from + 1 } else { from as int }),
            all_digit_bytes(body.take(i - start)),
            acc == digit_bytes_value(body.take(i - start)),
            acc < pow10((i - start) as nat),
        decreases to - i,
    {
        let c = b[i];
        if !(48 <= c && c <= 57) {
            assert(body[i - start] == c);
            assert(!is_digit_byte(body[i - start]));
            assert(!all_digit_bytes(body));
            return None;
        }
        assert(body.take(i + 1 - start).drop_last() =~= body.take(i - start));
        assert(body.take(i + 1 - start).last() == c);
        proof {
            lemma_pow10_mono((i - start) as nat, 3);
            reveal_with_fuel(pow10, 5);
        }
        acc = acc * 10 + (c - 48) as i64;
        assert(all_digit_bytes(body.take(i + 1 - start)));
        i = i + 1;
    }
    assert(body.take(to - start) =~= body);
    proof {
        lemma_pow10_mono((to - start) as nat, 4);
        reveal_with_fuel(pow10, 5);
    }
    if negative {
        Some(-acc)
    } else {
        Some(acc)
    }
}

} // verus!

verus! {

// ─── Lines ───────────────────────────────────────────────────────────────────

pub proof fn lemma_find_char_at(h: Seq<char>, c: char, from: int, k: int)
    requires
        0 <= from <= k < h.len(),
        h[k] == c,
        forall|j: int| from <= j < k ==> h[j] != c,
    ensures
        find_char_from(h, c, from) == Some(k),
    decreases k - from,
{
    if from < k {
        lemma_find_char_at(h, c, from + 1, k);
    }
}

pub proof fn lemma_find_char_none(h: Seq<char>, c: char, from: int)
    requires
        0 <= from,
        forall|j: int| from <= j < h.len() ==> h[j] != c,
    ensures
        find_char_from(h, c, from) is None,
    decreases h.len() - from,
{
    if from < h.len() {
        lemma_find_char_none(h, c, from + 1);
    }
}

pub proof fn lemma_find_char_from_range(h: Seq<char>, c: char, from: int)
    ensures
        find_char_from(h, c, from) matches Some(k) ==> from <= k < h.len() && h[k] == c,
    decreases h.len() - from,
{
    if !(from < 0 || from >= h.len()) && h[from] != c {
        lemma_find_char_from_range(h, c, from + 1);
    }
}

/// A line without the `'\r'` that ended it.
pub open spec fn strip_cr(l: Seq<char>) -> Seq<char> {
    if l.len() > 0 && l.last() == '\r' {
        l.drop_last()
    } else {
        l
    }
}

/// The lines of `s` as `str::lines` yields them: split at `'\n'`, a `'\r'`
/// right before a `'\n'` dropped, no empty line after a final `'\n'`.
pub open spec fn lines_of(s: Seq<char>) -> Seq<Seq<char>>
    decreases s.len(),
{
    if s.len() == 0 {
        seq![]
    } else {
        match find_char_from(s, '\n', 0) {
            None => seq![s],
            Some(k) => {
                proof {
                    lemma_find_char_from_range(s, '\n', 0);
                }
                seq![strip_cr(s.take(k))] + lines_of(s.skip(k + 1))
            },
        }
    }
}

/// `ranges` picks out `lines` from `v`.
pub open spec fn ranges_hold(v: Seq<char>, ranges: Seq<(usize, usize)>, lines: Seq<Seq<char>>) -> bool {
    &&& ranges.len() == lines.len()
    &&& forall|i: int|
        0 <= i < ranges.len() ==> {
            &&& (#[trigger] ranges[i]).0 <= ranges[i].1 <= v.len()
            &&& v.subrange(ranges[i].0 as int, ranges[i].1 as int) == lines[i]
        }
}

/// The start and end of each line of `v` (see `lines_of`).
pub fn line_ranges(v: &Vec<char>) -> (r: Vec<(usize, usize)>)
    ensures
        ranges_hold(v@, r@, lines_of(v@)),
{
    let n = v.len();
    let mut r: Vec<(usize, usize)> = Vec::new();
    let mut start: usize = 0;
    let mut i: usize = 0;
    let ghost mut done: Seq<Seq<char>> = seq![];
    assert(v@.skip(0) =~= v@);
    while i < n
        invariant
            n == v.len(),
            start <= i <= n,
            lines_of(v@) == done + lines_of(v@.skip(start as int)),
            ranges_hold(v@, r@, done),
            forall|j: int| start <= j < i ==> v@[j] != '\n',
        decreases n - i,
    {
        if v[i] == '\n' {
            let ghost t = v@.skip(start as int);
            proof {
                assert forall|j: int| 0 <= j < i - start implies t[j] != '\n' by {
                    assert(t[j] == v@[start + j]);
                }
                lemma_find_char_at(t, '\n', 0, i - start);
            }
            let end = if i > start && v[i - 1] == '\r' {
                i - 1
            } else {
                i
            };
            assert(v@.subrange(start as int, end as int) =~= strip_cr(t.take(i - start)));
            assert(t.skip(i - start + 1) =~= v@.skip(i + 1));
            r.push((start, end));
            proof {
                done = done.push(strip_cr(t.take(i - start)));
                assert(lines_of(v@) =~= done + lines_of(v@.skip(i + 1)));
            }
            start = i + 1;
        }
        i = i + 1;
    }
    let ghost t = v@.skip(start as int);
    if start < n {
        proof {
            assert forall|j: int| 0 <= j < t.len() implies t[j] != '\n' by {
                assert(t[j] == v@[start + j]);
            }
            lemma_find_char_none(t, '\n', 0);
        }
        assert(v@.subrange(start as int, n as int) =~= t);
        r.push((start, n));
        proof {
            done = done.push(t);
        }
    } else {
        assert(t.len() == 0);
    }
    assert(lines_of(v@) =~= done);
    r
}

} // verus!
