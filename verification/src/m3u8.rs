//! M3U playlists and XMLTV programme guides: attribute extraction, playlist
//! parsing, guide timestamps and the base64 encoding of guide texts.

use vstd::prelude::*;

use vstd::utf8::encode_utf8;

use vstd::utf8::is_char_boundary;

use crate::cache::{EPG_TTL, M3U8_TTL, ProfileCache, VodCategory, copy_items, fresh_at, is_fresh_at, same_guides};
use crate::epg::EpgListing;
use crate::keyed::{Entry, entries_view, find_entry, lemma_position_of, value_of};
use crate::group::{Group, find_group, group_items, grouped, groups_view, key_position, lemma_key_position, push_grouped};
use crate::live::LiveStream;
use crate::text::{
    chars_of, find_char_exec, find_char_from, find_from, find_from_exec, has_prefix, line_ranges,
    lines_of, occurs_at, parse_i64_bytes, parse_i64_bytes_short, range_has_prefix, ranges_hold,
    string_of_range, trim, trim_range, dec, decimal_string,
};

verus! {

// ─── `#EXTINF` attributes ────────────────────────────────────────────────────

/// The value of attribute `key` in an `#EXTINF` line: the text between the
/// first `key="` and the next `"`; `None` when either is missing.
pub open spec fn spec_attr_value(line: Seq<char>, key: Seq<char>) -> Option<Seq<char>> {
    let needle = key + seq!['=', '"'];
    match find_from(line, needle, 0) {
        None => None,
        Some(k) => {
            let start = k + needle.len();
            match find_char_from(line, '"', start) {
                None => None,
                Some(e) => Some(line.subrange(start, e)),
            }
        },
    }
}

pub proof fn lemma_find_from_occurs(h: Seq<char>, n: Seq<char>, from: int)
    ensures
        find_from(h, n, from) matches Some(k) ==> from <= k && occurs_at(h, n, k),
    decreases h.len() + 1 - from,
{
    if !(from < 0 || from + n.len() > h.len()) && !occurs_at(h, n, from) {
        lemma_find_from_occurs(h, n, from + 1);
    }
}

pub proof fn lemma_find_char_from_bounds(h: Seq<char>, c: char, from: int)
    ensures
        find_char_from(h, c, from) matches Some(k) ==> from <= k < h.len() && h[k] == c,
    decreases h.len() - from,
{
    if !(from < 0 || from >= h.len()) && h[from] != c {
        lemma_find_char_from_bounds(h, c, from + 1);
    }
}

/// `s` stands in `line` at position `j`.
pub open spec fn stands_at(line: Seq<char>, s: Seq<char>, j: int) -> bool {
    line.subrange(j, j + s.len()) == s
}

/// `key="`, which opens an attribute value.
pub open spec fn attr_opening(key: Seq<char>) -> Seq<char> {
    key + seq!['=', '"']
}

/// `key="v"`.
pub open spec fn attr_text(key: Seq<char>, v: Seq<char>) -> Seq<char> {
    key + seq!['=', '"'] + v + seq!['"']
}

proof fn lemma_find_from_first(h: Seq<char>, n: Seq<char>, from: int, j: int)
    requires
        0 <= from <= j,
        h.subrange(j, j + n.len()) == n,
        j + n.len() <= h.len(),
    ensures
        find_from(h, n, from) matches Some(k) && k <= j,
    decreases j - from,
{
    if from < j && !occurs_at(h, n, from) {
        lemma_find_from_first(h, n, from + 1, j);
    }
}

proof fn lemma_find_from_none_before(h: Seq<char>, n: Seq<char>, from: int)
    requires
        0 <= from,
    ensures
        find_from(h, n, from) matches Some(k) ==> forall|j: int|
            from <= j < k ==> !stands_at(h, n, j),
    decreases h.len() + 1 - from,
{
    if !(from < 0 || from + n.len() > h.len()) && !occurs_at(h, n, from) {
        lemma_find_from_none_before(h, n, from + 1);
    }
}

proof fn lemma_find_char_first(h: Seq<char>, c: char, from: int)
    requires
        0 <= from,
    ensures
        find_char_from(h, c, from) matches Some(e) ==> forall|j: int| from <= j < e ==> h[j] != c,
        find_char_from(h, c, from) is None ==> forall|j: int| from <= j < h.len() ==> h[j] != c,
    decreases h.len() - from,
{
    if !(from < 0 || from >= h.len()) && h[from] != c {
        lemma_find_char_first(h, c, from + 1);
    }
}

/// What an attribute value is: when the line holds `key="`, the value is
/// everything from there to the next `"`, spaces and all. A value `v` comes
/// from the first place `k` where `key="` stands, it is followed by a
/// closing `"`, and it holds no `"`; and whenever `key="` occurs with a `"`
/// somewhere after its first occurrence, there is a value.
pub proof fn lemma_attr_value_quoted(line: Seq<char>, key: Seq<char>, v: Seq<char>)
    ensures
        spec_attr_value(line, key) == Some(v) ==> exists|k: int|
            0 <= k && k + key.len() + 3 + v.len() <= line.len() && #[trigger] stands_at(
                line,
                attr_text(key, v),
                k,
            ) && (forall|j: int| 0 <= j < k ==> !stands_at(line, attr_opening(key), j)) && (
            forall|i: int| 0 <= i < v.len() ==> v[i] != '"'),
        forall|k: int, e: int|
            0 <= k && k + key.len() + 2 <= e < line.len() && #[trigger] stands_at(
                line,
                attr_opening(key),
                k,
            ) && #[trigger] line[e] == '"' && (forall|j: int|
                0 <= j < k ==> !stands_at(line, attr_opening(key), j))
                ==> spec_attr_value(line, key) is Some,
{
    let needle = attr_opening(key);
    assert(needle.len() == key.len() + 2);
    lemma_find_from_occurs(line, needle, 0);
    lemma_find_from_none_before(line, needle, 0);
    match find_from(line, needle, 0) {
        None => {
            assert(spec_attr_value(line, key) is None);
            assert forall|k: int, e: int|
                0 <= k && k + key.len() + 2 <= e < line.len() && #[trigger] stands_at(
                    line,
                    attr_opening(key),
                    k,
                ) && #[trigger] line[e] == '"' && (forall|j: int|
                    0 <= j < k ==> !stands_at(line, attr_opening(key), j))
                    implies spec_attr_value(line, key) is Some by {
                lemma_find_from_first(line, needle, 0, k);
            }
        },
        Some(k) => {
            let start = k + needle.len();
            lemma_find_char_from_bounds(line, '"', start);
            lemma_find_char_first(line, '"', start);
            match find_char_from(line, '"', start) {
                None => {
                    assert(spec_attr_value(line, key) is None);
                    assert forall|k2: int, e: int|
                        0 <= k2 && k2 + key.len() + 2 <= e < line.len() && #[trigger] stands_at(
                            line,
                            attr_opening(key),
                            k2,
                        ) && #[trigger] line[e] == '"' && (forall|j: int|
                            0 <= j < k2 ==> !stands_at(line, attr_opening(key), j)) implies spec_attr_value(line, key) is Some by {
                        assert(line.subrange(k, k + needle.len()) == needle);
                        assert(stands_at(line, needle, k));
                        if k2 > k {
                            assert(!stands_at(line, needle, k));
                        } else if k2 < k {
                            assert(!stands_at(line, needle, k2));
                        } else {
                            assert(line[e] != '"');
                        }
                    }
                },
                Some(e) => {
                    let v = line.subrange(start, e);
                    assert(line.subrange(k, k + needle.len()) == needle);
                    let w = attr_text(key, v);
                    assert(w.len() == key.len() + 3 + v.len());
                    assert forall|i: int| 0 <= i < w.len() implies line.subrange(k, k + w.len())[i]
                        == w[i] by {
                        if i < needle.len() {
                            assert(line.subrange(k, k + needle.len())[i] == needle[i]);
                            assert(w[i] == needle[i]);
                        } else if i < needle.len() + v.len() {
                            assert(w[i] == v[i - needle.len()]);
                        } else {
                            assert(w[i] == '"');
                        }
                    }
                    assert(line.subrange(k, k + w.len()) =~= w);
                    assert(stands_at(line, attr_text(key, v), k));
                    assert forall|i: int| 0 <= i < v.len() implies v[i] != '"' by {
                        assert(v[i] == line[start + i]);
                    }
                    assert(spec_attr_value(line, key) == Some(v));
                    assert(forall|j: int| 0 <= j < k ==> !stands_at(line, attr_opening(key), j));
                    assert(0 <= k && k + key.len() + 3 + v.len() <= line.len());
                    assert(exists|k3: int|
                        0 <= k3 && k3 + key.len() + 3 + v.len() <= line.len() && #[trigger] stands_at(
                            line,
                            attr_text(key, v),
                            k3,
                        ) && (forall|j: int| 0 <= j < k3 ==> !stands_at(line, attr_opening(key), j))
                            && (forall|i: int| 0 <= i < v.len() ==> v[i] != '"'));
                },
            }
        },
    }
}

/// `attr_value(line, key)`: see `spec_attr_value`.
pub fn attr_value<'a>(line: &'a str, key: &str) -> (r: Option<&'a str>)
    ensures
        r is None <==> spec_attr_value(line@, key@) is None,
        r matches Some(v) ==> spec_attr_value(line@, key@) == Some(v@),
{
    let lv = chars_of(line);
    let mut needle = chars_of(key);
    needle.push('=');
    needle.push('"');
    assert(needle@ =~= key@ + seq!['=', '"']);
    match find_from_exec(&lv, &needle, 0) {
        None => None,
        Some(k) => {
            proof {
                lemma_find_from_occurs(lv@, needle@, 0);
            }
            let start = k + needle.len();
            match find_char_exec(&lv, '"', start) {
                None => None,
                Some(e) => {
                    proof {
                        lemma_find_char_from_bounds(lv@, '"', start as int);
                    }
                    Some(line.substring_char(start, e))
                },
            }
        },
    }
}

// ─── Base64 ──────────────────────────────────────────────────────────────────

/// Character of the standard base64 alphabet (RFC 4648) for `i < 64`.
pub open spec fn b64_symbol(i: int) -> char {
    if i < 26 {
        (65 + i) as char
    } else if i < 52 {
        (97 + i - 26) as char
    } else if i < 62 {
        (48 + i - 52) as char
    } else if i == 62 {
        '+'
    } else {
        '/'
    }
}

/// Standard base64 with `=` padding: each group of three bytes becomes four
/// symbols of six bits each; a final group of one or two bytes is padded.
pub open spec fn b64(bytes: Seq<u8>) -> Seq<char>
    decreases bytes.len(),
{
    if bytes.len() == 0 {
        seq![]
    } else {
        let b0 = bytes[0] as int;
        let b1 = if bytes.len() > 1 {
            bytes[1] as int
        } else {
            0
        };
        let b2 = if bytes.len() > 2 {
            bytes[2] as int
        } else {
            0
        };
        let c0 = b64_symbol(b0 / 4);
        let c1 = b64_symbol((b0 % 4) * 16 + b1 / 16);
        let c2 = if bytes.len() > 1 {
            b64_symbol((b1 % 16) * 4 + b2 / 64)
        } else {
            '='
        };
        let c3 = if bytes.len() > 2 {
            b64_symbol(b2 % 64)
        } else {
            '='
        };
        let rest = if bytes.len() > 3 {
            b64(bytes.skip(3))
        } else {
            seq![]
        };
        seq![c0, c1, c2, c3] + rest
    }
}

pub proof fn lemma_b64_len(bytes: Seq<u8>)
    ensures
        b64(bytes).len() == 4 * ((bytes.len() + 2) / 3),
    decreases bytes.len(),
{
    if bytes.len() > 3 {
        lemma_b64_len(bytes.skip(3));
    }
}

fn b64_symbol_exec(i: u32) -> (c: char)
    requires
        i < 64,
    ensures
        c == b64_symbol(i as int),
{
    if i < 26 {
        ((65 + i) as u8) as char
    } else if i < 52 {
        ((97 + i - 26) as u8) as char
    } else if i < 62 {
        ((48 + i - 52) as u8) as char
    } else if i == 62 {
        '+'
    } else {
        '/'
    }
}

/// The UTF-8 bytes of `s` in base64 (RFC 4648, with padding).
pub fn b64_encode(s: &str) -> (r: String)
    ensures
        r@ == b64(encode_utf8(s@)),
        r@.len() == 4 * ((encode_utf8(s@).len() + 2) / 3),
{
    let bytes = s.as_bytes();
    let n = bytes.len();
    let mut out = String::new();
    let mut i: usize = 0;
    assert(bytes@.skip(0) =~= bytes@);
    while i < n
        invariant
            n == bytes@.len(),
            i <= n,
            bytes@ == encode_utf8(s@),
            out@ + b64(bytes@.skip(i as int)) == b64(bytes@),
        decreases n - i,
    {
        let ghost rest = bytes@.skip(i as int);
        let b0 = bytes[i] as u32;
        let b1: u32 = if n - i > 1 {
            bytes[i + 1] as u32
        } else {
            0
        };
        let b2: u32 = if n - i > 2 {
            bytes[i + 2] as u32
        } else {
            0
        };
        assert(b0 < 256 && b1 < 256 && b2 < 256);
        let i0 = (b0 >> 2) & 0x3f;
        let i1 = ((b0 << 4) | (b1 >> 4)) & 0x3f;
        let i2 = ((b1 << 2) | (b2 >> 6)) & 0x3f;
        let i3 = b2 & 0x3f;
        assert(i0 == b0 / 4 && i1 == (b0 % 4) * 16 + b1 / 16 && i2 == (b1 % 16) * 4 + b2 / 64 && i3
            == b2 % 64) by (bit_vector)
            requires
                b0 < 256 && b1 < 256 && b2 < 256,
                i0 == (b0 >> 2) & 0x3f,
                i1 == ((b0 << 4) | (b1 >> 4)) & 0x3f,
                i2 == ((b1 << 2) | (b2 >> 6)) & 0x3f,
                i3 == b2 & 0x3f,
        ;
        let ghost before = out@;
        out.push(b64_symbol_exec(i0));
        out.push(b64_symbol_exec(i1));
        if n - i > 1 {
            out.push(b64_symbol_exec(i2));
        } else {
            out.push('=');
        }
        if n - i > 2 {
            out.push(b64_symbol_exec(i3));
        } else {
            out.push('=');
        }
        assert(rest[0] == bytes@[i as int]);
        assert(n - i > 1 ==> rest[1] == bytes@[i + 1]);
        assert(n - i > 2 ==> rest[2] == bytes@[i + 2]);
        if n - i > 3 {
            assert(rest.skip(3) =~= bytes@.skip(i + 3));
            assert(out@ =~= before + b64(rest).take(4));
            i = i + 3;
        } else {
            assert(bytes@.skip(n as int) =~= Seq::<u8>::empty());
            assert(out@ =~= before + b64(rest));
            i = n;
        }
    }
    assert(bytes@.skip(n as int) =~= Seq::<u8>::empty());
    assert(out@ =~= b64(bytes@));
    proof {
        lemma_b64_len(bytes@);
    }
    out
}


// ─── Calendar dates ──────────────────────────────────────────────────────────

/// Integer division rounding toward zero, as Rust's `/` on signed integers.
pub open spec fn tdiv(a: int, b: int) -> int {
    if a >= 0 {
        a / b
    } else {
        -((-a) / b)
    }
}

/// Seconds from the Unix epoch to midnight of `year-month-day`, by way of the
/// Julian Day Number, with Rust's rounding toward zero in every division.
/// For valid Gregorian dates this is the day count times 86400; other inputs
/// (month 0, day 99, ...) are extrapolated by the same formula.
pub open spec fn spec_date_to_unix(year: int, month: int, day: int) -> int {
    let a = tdiv(14 - month, 12);
    let y = year + 4800 - a;
    let m = month + 12 * a - 3;
    let jdn = day + tdiv(153 * m + 2, 5) + 365 * y + tdiv(y, 4) - tdiv(y, 100) + tdiv(y, 400) - 32045;
    (jdn - 2_440_588) * 86400
}

pub open spec fn fits_i64(x: int) -> bool {
    i64::MIN <= x <= i64::MAX
}

/// Every intermediate value of `date_to_unix` fits in `i64`.
pub open spec fn date_to_unix_fits(year: int, month: int, day: int) -> bool {
    let t1 = 14 - month;
    let a = tdiv(t1, 12);
    let t2 = year + 4800;
    let y = t2 - a;
    let t3 = 12 * a;
    let t4 = month + t3;
    let m = t4 - 3;
    let t5 = 153 * m;
    let t6 = t5 + 2;
    let s1 = day + tdiv(t6, 5);
    let t7 = 365 * y;
    let s2 = s1 + t7;
    let s3 = s2 + tdiv(y, 4);
    let s4 = s3 - tdiv(y, 100);
    let s5 = s4 + tdiv(y, 400);
    let jdn = s5 - 32045;
    let t8 = jdn - 2_440_588;
    &&& fits_i64(t1) &&& fits_i64(t2) &&& fits_i64(y) &&& fits_i64(t3) &&& fits_i64(t4)
    &&& fits_i64(m) &&& fits_i64(t5) &&& fits_i64(t6) &&& fits_i64(s1) &&& fits_i64(t7)
    &&& fits_i64(s2) &&& fits_i64(s3) &&& fits_i64(s4) &&& fits_i64(s5) &&& fits_i64(jdn)
    &&& fits_i64(t8) &&& fits_i64(t8 * 86400)
}

pub proof fn lemma_tdiv_bounds(a: int, b: int)
    requires
        b > 0,
    ensures
        a >= 0 ==> 0 <= tdiv(a, b) <= a,
        a < 0 ==> a <= tdiv(a, b) <= 0,
{
    if a >= 0 {
        assert(a / b <= a) by (nonlinear_arith)
            requires
                a >= 0,
                b > 0,
        ;
        assert(a / b >= 0) by (nonlinear_arith)
            requires
                a >= 0,
                b > 0,
        ;
    } else {
        assert((-a) / b <= -a) by (nonlinear_arith)
            requires
                a < 0,
                b > 0,
        ;
        assert((-a) / b >= 0) by (nonlinear_arith)
            requires
                a < 0,
                b > 0,
        ;
    }
}

/// Dates whose fields come from at most four characters never overflow.
pub proof fn lemma_small_dates_fit(year: int, month: int, day: int)
    requires
        -9999 <= year <= 9999,
        -9999 <= month <= 9999,
        -9999 <= day <= 9999,
    ensures
        date_to_unix_fits(year, month, day),
        -10_000_000_000_000 <= spec_date_to_unix(year, month, day) <= 10_000_000_000_000,
{
    let t1 = 14 - month;
    lemma_tdiv_bounds(t1, 12);
    let a = tdiv(t1, 12);
    let y = year + 4800 - a;
    let m = month + 12 * a - 3;
    lemma_tdiv_bounds(153 * m + 2, 5);
    lemma_tdiv_bounds(y, 4);
    lemma_tdiv_bounds(y, 100);
    lemma_tdiv_bounds(y, 400);
}

/// Seconds from the Unix epoch to midnight of `year-month-day`.
pub fn date_to_unix(year: i64, month: i64, day: i64) -> (r: i64)
    requires
        date_to_unix_fits(year as int, month as int, day as int),
    ensures
        r == spec_date_to_unix(year as int, month as int, day as int),
{
    let a = (14 - month) / 12;
    let y = year + 4800 - a;
    let m = month + 12 * a - 3;
    let jdn = day + (153 * m + 2) / 5 + 365 * y + y / 4 - y / 100 + y / 400 - 32045;
    (jdn - 2_440_588) * 86400
}

// ─── XMLTV timestamps ────────────────────────────────────────────────────────

/// `s.split_once(' ')`, or `(s, "+0000")` when `s` holds no space.
pub open spec fn split_date_zone(s: Seq<char>) -> (Seq<char>, Seq<char>) {
    match find_char_from(s, ' ', 0) {
        Some(k) => (s.take(k), s.skip(k + 1)),
        None => (s, "+0000"@),
    }
}

/// `s.trim_start_matches(['+', '-'])`.
pub open spec fn strip_signs(s: Seq<char>) -> Seq<char>
    decreases s.len(),
{
    if s.len() > 0 && (s[0] == '+' || s[0] == '-') {
        strip_signs(s.skip(1))
    } else {
        s
    }
}

/// The integer in bytes `b[from..to]`, 0 when they do not parse.
pub open spec fn field_or_zero(b: Seq<u8>, from: int, to: int) -> int {
    match parse_i64_bytes(b.subrange(from, to)) {
        Some(v) => v,
        None => 0,
    }
}

/// UTF-8 bytes of the date part of a trimmed XMLTV timestamp.
pub open spec fn xmltv_date_bytes(s: Seq<char>) -> Seq<u8> {
    encode_utf8(split_date_zone(trim(s)).0)
}

/// The zone part of a trimmed XMLTV timestamp.
pub open spec fn xmltv_zone(s: Seq<char>) -> Seq<char> {
    split_date_zone(trim(s)).1
}

/// UTF-8 bytes of the zone digits (the zone without its leading signs).
pub open spec fn xmltv_zone_bytes(s: Seq<char>) -> Seq<u8> {
    encode_utf8(strip_signs(xmltv_zone(s)))
}

/// The byte slices that `parse_xmltv_time` takes all fall on character
/// boundaries (slicing a `str` elsewhere panics).
pub open spec fn xmltv_sliceable(s: Seq<char>) -> bool {
    let db = xmltv_date_bytes(s);
    let tb = xmltv_zone_bytes(s);
    db.len() < 14 || (is_char_boundary(db, 4) && is_char_boundary(db, 6) && is_char_boundary(db, 8)
        && is_char_boundary(db, 10) && is_char_boundary(db, 12) && is_char_boundary(db, 14) && (
    tb.len() < 4 || (is_char_boundary(tb, 2) && is_char_boundary(tb, 4))))
}

/// Unix time of an XMLTV timestamp `YYYYMMDDHHMMSS [+-]HHMM` (zone optional,
/// `+0000` when absent). A date part shorter than 14 bytes gives 0; a field
/// that does not parse counts as 0; a zone with fewer than four digits counts
/// as UTC.
pub open spec fn spec_xmltv_time(s: Seq<char>) -> int {
    let db = xmltv_date_bytes(s);
    let tz = xmltv_zone(s);
    let tb = xmltv_zone_bytes(s);
    if db.len() < 14 {
        0
    } else {
        let y = field_or_zero(db, 0, 4);
        let mo = field_or_zero(db, 4, 6);
        let d = field_or_zero(db, 6, 8);
        let h = field_or_zero(db, 8, 10);
        let mi = field_or_zero(db, 10, 12);
        let sc = field_or_zero(db, 12, 14);
        let sign: int = if tz.len() > 0 && tz[0] == '-' {
            -1
        } else {
            1
        };
        let offset = if tb.len() >= 4 {
            sign * (field_or_zero(tb, 0, 2) * 3600 + field_or_zero(tb, 2, 4) * 60)
        } else {
            0
        };
        spec_date_to_unix(y, mo, d) + h * 3600 + mi * 60 + sc - offset
    }
}

fn field_exec(b: &[u8], from: usize, to: usize) -> (r: i64)
    requires
        from <= to <= b@.len(),
        to - from <= 4,
    ensures
        r == field_or_zero(b@, from as int, to as int),
        -9999 <= r <= 9999,
{
    match parse_i64_bytes_short(b, from, to) {
        Some(v) => v,
        None => 0,
    }
}

fn subvec(v: &Vec<char>, from: usize, to: usize) -> (r: Vec<char>)
    requires
        from <= to <= v.len(),
    ensures
        r@ == v@.subrange(from as int, to as int),
{
    let mut r: Vec<char> = Vec::new();
    let mut i = from;
    while i < to
        invariant
            from <= i <= to <= v.len(),
            r@ == v@.subrange(from as int, i as int),
        decreases to - i,
    {
        r.push(v[i]);
        i = i + 1;
    }
    r
}

/// The Unix time of an XMLTV timestamp, or `None` exactly when one of the
/// byte ranges of its fields would cut a character in two.
pub fn xmltv_time_checked(s: &str) -> (r: Option<i64>)
    ensures
        r is Some <==> xmltv_sliceable(s@),
        r matches Some(t) ==> t == spec_xmltv_time(s@),
{
    let v = chars_of(s);
    let (a, b) = trim_range(&v, 0, v.len());
    assert(v@.subrange(0, v@.len() as int) =~= v@);
    let t = subvec(&v, a, b);
    let (date, zone) = match find_char_exec(&t, ' ', 0) {
        Some(k) => {
            proof {
                lemma_find_char_from_bounds(t@, ' ', 0);
            }
            (string_of_range(&t, 0, k), string_of_range(&t, k + 1, t.len()))
        },
        None => (string_of_range(&t, 0, t.len()), String::from_str("+0000")),
    };
    assert(t@.subrange(0, t@.len() as int) =~= t@);
    assert(date@ == split_date_zone(trim(s@)).0);
    assert(forall|k: int| 0 <= k <= t@.len() ==> t@.subrange(k, t@.len() as int) =~= t@.skip(k));
    assert(zone@ == xmltv_zone(s@));
    let ds = date.as_str();
    let db = ds.as_bytes();
    if db.len() < 14 {
        return Some(0);
    }
    if !(ds.is_char_boundary(4) && ds.is_char_boundary(6) && ds.is_char_boundary(8)
        && ds.is_char_boundary(10) && ds.is_char_boundary(12) && ds.is_char_boundary(14)) {
        return None;
    }
    let y = field_exec(db, 0, 4);
    let mo = field_exec(db, 4, 6);
    let d = field_exec(db, 6, 8);
    let h = field_exec(db, 8, 10);
    let mi = field_exec(db, 10, 12);
    let sc = field_exec(db, 12, 14);
    let zv = chars_of(zone.as_str());
    let negative = zv.len() > 0 && zv[0] == '-';
    let mut k: usize = 0;
    assert(zv@.skip(0) =~= zv@);
    while k < zv.len() && (zv[k] == '+' || zv[k] == '-')
        invariant
            k <= zv.len(),
            strip_signs(zv@) == strip_signs(zv@.skip(k as int)),
        decreases zv.len() - k,
    {
        assert(zv@.skip(k as int).skip(1) =~= zv@.skip(k + 1));
        k = k + 1;
    }
    assert(zv@.subrange(k as int, zv@.len() as int) =~= zv@.skip(k as int));
    let digits = string_of_range(&zv, k, zv.len());
    let dgs = digits.as_str();
    let tb = dgs.as_bytes();
    let offset: i64 = if tb.len() >= 4 {
        if !(dgs.is_char_boundary(2) && dgs.is_char_boundary(4)) {
            return None;
        }
        let th = field_exec(tb, 0, 2);
        let tm = field_exec(tb, 2, 4);
        let sign: i64 = if negative {
            -1
        } else {
            1
        };
        sign * (th * 3600 + tm * 60)
    } else {
        0
    };
    proof {
        lemma_small_dates_fit(y as int, mo as int, d as int);
    }
    let base = date_to_unix(y, mo, d);
    Some(base + h * 3600 + mi * 60 + sc - offset)
}

/// Unix time of an XMLTV timestamp; see `spec_xmltv_time`.
pub fn parse_xmltv_time(s: &str) -> (r: i64)
    requires
        xmltv_sliceable(s@),
    ensures
        r == spec_xmltv_time(s@),
{
    match xmltv_time_checked(s) {
        Some(t) => t,
        None => 0,
    }
}


// ─── Playlists ───────────────────────────────────────────────────────────────

/// A line that opens a playlist entry.
pub open spec fn is_extinf(l: Seq<char>) -> bool {
    has_prefix(l, "#EXTINF:"@)
}

/// A line that can hold an entry's URL: not blank and, once trimmed, not
/// starting with `#`.
pub open spec fn is_url_line(l: Seq<char>) -> bool {
    trim(l).len() > 0 && trim(l)[0] != '#'
}

/// The first line at or after `from` that can hold a URL.
pub open spec fn next_url_line(ls: Seq<Seq<char>>, from: int) -> Option<int>
    decreases ls.len() - from,
{
    if from < 0 || from >= ls.len() {
        None
    } else if is_url_line(ls[from]) {
        Some(from)
    } else {
        next_url_line(ls, from + 1)
    }
}

pub proof fn lemma_next_url_line(ls: Seq<Seq<char>>, from: int)
    ensures
        next_url_line(ls, from) matches Some(j) ==> from <= j < ls.len() && is_url_line(ls[j]),
    decreases ls.len() - from,
{
    if !(from < 0 || from >= ls.len()) && !is_url_line(ls[from]) {
        lemma_next_url_line(ls, from + 1);
    }
}

/// The entries of a playlist from line `from` on, as (`#EXTINF` line, URL)
/// pairs: each `#EXTINF` line takes the next line that can hold a URL
/// (skipping everything else in between, other `#EXTINF` lines included);
/// an `#EXTINF` line with no such line after it ends the playlist.
pub open spec fn playlist_entries(ls: Seq<Seq<char>>, from: int) -> Seq<(Seq<char>, Seq<char>)>
    decreases ls.len() - from,
{
    if from < 0 || from >= ls.len() {
        seq![]
    } else if !is_extinf(ls[from]) {
        playlist_entries(ls, from + 1)
    } else {
        match next_url_line(ls, from + 1) {
            None => seq![],
            Some(j) => {
                proof {
                    lemma_next_url_line(ls, from + 1);
                }
                seq![(ls[from], trim(ls[j]))] + playlist_entries(ls, j + 1)
            },
        }
    }
}

/// Position of the last `c` in `l`.
pub open spec fn last_index_of(l: Seq<char>, c: char) -> Option<int>
    decreases l.len(),
{
    if l.len() == 0 {
        None
    } else if l.last() == c {
        Some(l.len() - 1)
    } else {
        last_index_of(l.drop_last(), c)
    }
}

pub proof fn lemma_last_index_of(l: Seq<char>, c: char)
    ensures
        last_index_of(l, c) matches Some(k) ==> 0 <= k < l.len() && l[k] == c && forall|j: int|
            k < j < l.len() ==> l[j] != c,
        last_index_of(l, c) is None ==> forall|j: int| 0 <= j < l.len() ==> l[j] != c,
    decreases l.len(),
{
    if l.len() > 0 && l.last() != c {
        let d = l.drop_last();
        lemma_last_index_of(d, c);
        assert forall|j: int| 0 <= j < d.len() implies d[j] == l[j] by {}
    }
}

/// `opt.unwrap_or(default)`.
pub open spec fn or_default(opt: Option<Seq<char>>, default: Seq<char>) -> Seq<char> {
    match opt {
        Some(v) => v,
        None => default,
    }
}

/// Channel name of an `#EXTINF` line: the trimmed text after its last comma
/// (the whole line when it has none).
pub open spec fn entry_name(line: Seq<char>) -> Seq<char> {
    match last_index_of(line, ',') {
        Some(k) => trim(line.skip(k + 1)),
        None => trim(line),
    }
}

/// Group of an entry: its `group-title`, `Uncategorized` without one.
pub open spec fn entry_group(line: Seq<char>) -> Seq<char> {
    or_default(spec_attr_value(line, "group-title"@), "Uncategorized"@)
}

/// Guide id of an entry: its `tvg-id`, empty without one.
pub open spec fn entry_tvg_id(line: Seq<char>) -> Seq<char> {
    or_default(spec_attr_value(line, "tvg-id"@), seq![])
}

/// Logo of an entry: its `tvg-logo`, empty without one.
pub open spec fn entry_logo(line: Seq<char>) -> Seq<char> {
    or_default(spec_attr_value(line, "tvg-logo"@), seq![])
}

/// One channel of a playlist, with the group it is listed under and the URL
/// it plays from.
pub struct PlaylistEntry {
    pub group: String,
    pub stream: LiveStream,
    pub url: String,
}

/// The channel `e` is entry number `id` (from 1), made of `line` and `url`.
pub open spec fn entry_is(e: PlaylistEntry, line: Seq<char>, url: Seq<char>, id: int) -> bool {
    &&& e.group@ == entry_group(line)
    &&& e.url@ == url
    &&& e.stream.stream_id == id
    &&& e.stream.num == e.stream.stream_id as u32
    &&& e.stream.name@ == entry_name(line)
    &&& e.stream.stream_icon@ == entry_logo(line)
    &&& e.stream.epg_channel_id@ == entry_tvg_id(line)
}

/// A channel's guide id, for channels that have one.
pub struct TvgId {
    pub stream_id: u64,
    pub tvg_id: String,
}

/// The entries' channels keyed by group.
pub open spec fn group_pairs(es: Seq<PlaylistEntry>) -> Seq<(Seq<char>, LiveStream)> {
    es.map_values(|e: PlaylistEntry| (e.group@, e.stream))
}

/// (stream id, guide id) of the entries with a non-empty guide id, in order.
pub open spec fn tvg_pairs(es: Seq<PlaylistEntry>) -> Seq<(u64, Seq<char>)>
    decreases es.len(),
{
    if es.len() == 0 {
        seq![]
    } else {
        let p = tvg_pairs(es.drop_last());
        if es.last().stream.epg_channel_id@.len() > 0 {
            p.push((es.last().stream.stream_id, es.last().stream.epg_channel_id@))
        } else {
            p
        }
    }
}

pub open spec fn tvg_view(ts: Seq<TvgId>) -> Seq<(u64, Seq<char>)> {
    ts.map_values(|t: TvgId| (t.stream_id, t.tvg_id@))
}

/// A parsed M3U playlist.
pub struct Playlist {
    /// The channels in playlist order, numbered from 1.
    pub entries: Vec<PlaylistEntry>,
    /// One category per group, in order of first appearance.
    pub categories: Vec<VodCategory>,
    /// The channels of each group, groups in the order of `categories`.
    pub groups: Vec<Group<LiveStream>>,
    /// Guide ids of the channels that have one.
    pub tvg_ids: Vec<TvgId>,
}

/// `p` is the playlist read from `text`.
pub open spec fn playlist_is(p: Playlist, text: Seq<char>) -> bool {
    let es = playlist_entries(lines_of(text), 0);
    &&& p.entries@.len() == es.len()
    &&& forall|i: int|
        0 <= i < es.len() ==> entry_is(#[trigger] p.entries@[i], es[i].0, es[i].1, i + 1)
    &&& groups_view(p.groups@) == grouped(group_pairs(p.entries@))
    &&& p.categories@.len() == p.groups@.len()
    &&& forall|k: int|
        0 <= k < p.groups@.len() ==> (#[trigger] p.categories@[k]).category_id@ == p.groups@[k].key@
            && p.categories@[k].category_name@ == p.groups@[k].key@
    &&& tvg_view(p.tvg_ids@) == tvg_pairs(p.entries@)
}

fn last_comma(v: &Vec<char>, from: usize, to: usize) -> (r: Option<usize>)
    requires
        from <= to <= v.len(),
    ensures
        r matches Some(k) ==> from <= k < to && last_index_of(v@.subrange(from as int, to as int), ',')
            == Some(k - from),
        r is None ==> last_index_of(v@.subrange(from as int, to as int), ',') is None,
{
    let mut k = to;
    while k > from
        invariant
            from <= k <= to <= v.len(),
            last_index_of(v@.subrange(from as int, to as int), ',') == last_index_of(
                v@.subrange(from as int, k as int),
                ',',
            ),
        decreases k - from,
    {
        if v[k - 1] == ',' {
            return Some(k - 1);
        }
        assert(v@.subrange(from as int, k as int).drop_last() =~= v@.subrange(from as int, k - 1));
        k = k - 1;
    }
    None
}

fn url_line_at(v: &Vec<char>, from: usize, to: usize) -> (r: bool)
    requires
        from <= to <= v.len(),
    ensures
        r == is_url_line(v@.subrange(from as int, to as int)),
{
    let (a, b) = trim_range(v, from, to);
    if a < b {
        assert(v@.subrange(a as int, b as int)[0] == v@[a as int]);
    }
    a < b && v[a] != '#'
}

fn attr_or(line: &str, key: &str, default: &str) -> (r: String)
    ensures
        r@ == or_default(spec_attr_value(line@, key@), default@),
{
    match attr_value(line, key) {
        Some(x) => String::from_str(x),
        None => String::from_str(default),
    }
}

/// Builds entry number `id` from the `#EXTINF` line `v[a..b]` and its URL.
fn make_entry(v: &Vec<char>, a: usize, b: usize, url: String, id: u64) -> (e: PlaylistEntry)
    requires
        a <= b <= v.len(),
    ensures
        entry_is(e, v@.subrange(a as int, b as int), url@, id as int),
{
    let ghost l = v@.subrange(a as int, b as int);
    let line = string_of_range(v, a, b);
    let group = attr_or(line.as_str(), "group-title", "Uncategorized");
    let tvg_id = attr_or(line.as_str(), "tvg-id", "");
    let logo = attr_or(line.as_str(), "tvg-logo", "");
    proof {
        reveal_strlit("");
        assert(""@ =~= Seq::<char>::empty());
    }
    let name_start = match last_comma(v, a, b) {
        Some(k) => {
            proof {
                lemma_last_index_of(l, ',');
            }
            assert(l.skip(k + 1 - a) =~= v@.subrange(k + 1, b as int));
            k + 1
        },
        None => a,
    };
    let (na, nb) = trim_range(v, name_start, b);
    let name = string_of_range(v, na, nb);
    PlaylistEntry {
        group,
        stream: LiveStream {
            num: id as u32,
            name,
            stream_id: id,
            stream_icon: logo,
            epg_channel_id: tvg_id,
        },
        url,
    }
}

/// Reads an M3U playlist: see `playlist_is` and `playlist_entries`.
pub fn parse_playlist(text: &str) -> (p: Playlist)
    ensures
        playlist_is(p, text@),
{
    let v = chars_of(text);
    let ls = line_ranges(&v);
    let ghost lines = lines_of(v@);
    let extinf = chars_of("#EXTINF:");
    let mut entries: Vec<PlaylistEntry> = Vec::new();
    let mut groups: Vec<Group<LiveStream>> = Vec::new();
    let mut categories: Vec<VodCategory> = Vec::new();
    let mut tvg_ids: Vec<TvgId> = Vec::new();
    let ghost mut done: Seq<(Seq<char>, Seq<char>)> = seq![];
    let mut i: usize = 0;
    while i < ls.len()
        invariant
            lines == lines_of(v@),
            ranges_hold(v@, ls@, lines),
            extinf@ == "#EXTINF:"@,
            i <= ls.len(),
            entries@.len() <= i,
            playlist_entries(lines, 0) == done + playlist_entries(lines, i as int),
            entries@.len() == done.len(),
            forall|k: int|
                0 <= k < done.len() ==> entry_is(#[trigger] entries@[k], done[k].0, done[k].1, k + 1),
            groups_view(groups@) == grouped(group_pairs(entries@)),
            categories@.len() == groups@.len(),
            forall|k: int|
                0 <= k < groups@.len() ==> (#[trigger] categories@[k]).category_id@ == groups@[k].key@
                    && categories@[k].category_name@ == groups@[k].key@,
            tvg_view(tvg_ids@) == tvg_pairs(entries@),
        decreases ls.len() - i,
    {
        let (a, b) = ls[i];
        assert(v@.subrange(a as int, b as int) == lines[i as int]);
        if !range_has_prefix(&v, a, b, &extinf) {
            i = i + 1;
        } else {
            let mut j = i + 1;
            while j < ls.len() && !url_line_at(&v, ls[j].0, ls[j].1)
                invariant
                    ranges_hold(v@, ls@, lines),
                    i + 1 <= j <= ls.len(),
                    next_url_line(lines, i + 1) == next_url_line(lines, j as int),
                decreases ls.len() - j,
            {
                assert(v@.subrange(ls@[j as int].0 as int, ls@[j as int].1 as int) == lines[j as int]);
                j = j + 1;
            }
            if j >= ls.len() {
                i = ls.len();
            } else {
                let (ua, ub) = ls[j];
                assert(v@.subrange(ua as int, ub as int) == lines[j as int]);
                let (ta, tb) = trim_range(&v, ua, ub);
                let url = string_of_range(&v, ta, tb);
                let id = (entries.len() + 1) as u64;
                let e = make_entry(&v, a, b, url, id);
                let ghost old_entries = entries@;
                let key = e.group.clone();
                let ghost old_groups = groups@;
                proof {
                    lemma_key_position(groups_view(groups@), key@, 0);
                }
                let ghost gk = key@;
                push_grouped(&mut groups, key, e.stream.copy());
                proof {
                    let gv_old = groups_view(old_groups);
                    assert(groups_view(groups@).len() == groups@.len());
                    assert(gv_old.len() == old_groups.len());
                    match key_position(gv_old, gk, 0) {
                        Some(p) => {
                            assert(groups_view(groups@) == gv_old.update(p, (gk, gv_old[p].1.push(e.stream))));
                        },
                        None => {
                            assert(groups_view(groups@) == gv_old.push((gk, seq![e.stream])));
                        },
                    }
                }
                assert(groups@.len() == old_groups.len() || groups@.len() == old_groups.len() + 1);
                assert(forall|k: int|
                    0 <= k < groups@.len() ==> #[trigger] groups@[k].key@ == groups_view(groups@)[k].0);
                assert(forall|k: int|
                    0 <= k < old_groups.len() ==> #[trigger] old_groups[k].key@ == groups_view(old_groups)[k].0);
                assert(forall|k: int|
                    0 <= k < old_groups.len() ==> groups_view(groups@)[k].0 == groups_view(
                        old_groups,
                    )[k].0);
                assert(groups@.len() == old_groups.len() + 1 ==> groups_view(groups@)[old_groups.len() as int].0 == e.group@);
                if groups.len() > categories.len() {
                    categories.push(
                        VodCategory { category_id: e.group.clone(), category_name: e.group.clone() },
                    );
                }
                if !e.stream.epg_channel_id.as_str().is_empty() {
                    tvg_ids.push(
                        TvgId { stream_id: e.stream.stream_id, tvg_id: e.stream.epg_channel_id.clone() },
                    );
                }
                entries.push(e);
                proof {
                    done = done.push((lines[i as int], trim(lines[j as int])));
                    assert(entries@.drop_last() =~= old_entries);
                    assert(group_pairs(entries@).drop_last() =~= group_pairs(old_entries));
                }
                i = j + 1;
            }
        }
    }
    Playlist { entries, categories, groups, tvg_ids }
}


// ─── Playlists in the cache ──────────────────────────────────────────────────

/// The URL table of a playlist: decimal stream id to URL.
pub open spec fn url_table(es: Seq<PlaylistEntry>) -> Seq<(Seq<char>, Seq<char>)> {
    es.map_values(|e: PlaylistEntry| (dec(e.stream.stream_id as nat), e.url@))
}

/// The guide-id table of a playlist: decimal stream id to guide id.
pub open spec fn tvg_table(ts: Seq<TvgId>) -> Seq<(Seq<char>, Seq<char>)> {
    ts.map_values(|t: TvgId| (dec(t.stream_id as nat), t.tvg_id@))
}

pub open spec fn string_entries(es: Seq<Entry<String>>) -> Seq<(Seq<char>, Seq<char>)> {
    entries_view(es).map_values(|p: (Seq<char>, String)| (p.0, p.1@))
}

impl ProfileCache {
    /// The cached playlist is fresh at `now` and has categories.
    pub fn playlist_fresh(&self, now: i64) -> (r: bool)
        ensures
            r == (fresh_at(self.m3u8_at as int, M3U8_TTL as int, now as int)
                && self.live_categories@.len() > 0),
    {
        is_fresh_at(self.m3u8_at, M3U8_TTL, now) && self.live_categories.len() > 0
    }

    /// The programme guide of the playlist is fresh at `now`.
    pub fn playlist_guide_fresh(&self, now: i64) -> (r: bool)
        ensures
            r == fresh_at(self.m3u8_epg_at as int, EPG_TTL as int, now as int),
    {
        is_fresh_at(self.m3u8_epg_at, EPG_TTL, now)
    }

    /// Replaces the live part of the cache with a parsed playlist, stamped
    /// `now`.
    pub fn store_playlist(&mut self, p: Playlist, now: i64)
        ensures
            final(self).live_categories@ == p.categories@,
            final(self).live_streams@ == p.groups@,
            string_entries(final(self).m3u8_stream_urls@) == url_table(p.entries@),
            string_entries(final(self).m3u8_tvg_ids@) == tvg_table(p.tvg_ids@),
            final(self).m3u8_at == now,
            final(self).categories_at == now,
            final(self).vod_categories@ == old(self).vod_categories@,
            final(self).series_categories@ == old(self).series_categories@,
            final(self).vod_streams@ == old(self).vod_streams@,
            final(self).series_items@ == old(self).series_items@,
            final(self).streams_at@ == old(self).streams_at@,
            same_guides(*final(self), *old(self)),
    {
        let mut urls: Vec<Entry<String>> = Vec::new();
        let mut i: usize = 0;
        while i < p.entries.len()
            invariant
                i <= p.entries.len(),
                string_entries(urls@) == url_table(p.entries@.take(i as int)),
            decreases p.entries.len() - i,
        {
            let key = decimal_string(p.entries[i].stream.stream_id);
            let ghost before = urls@;
            let value = p.entries[i].url.clone();
            urls.push(Entry { key, value });
            assert(string_entries(urls@).drop_last() =~= string_entries(before));
            assert(string_entries(urls@).last() == (dec(p.entries@[i as int].stream.stream_id as nat), p.entries@[i as int].url@));
            assert(p.entries@.take(i + 1) =~= p.entries@.take(i as int).push(p.entries@[i as int]));
            assert(url_table(p.entries@.take(i + 1)) =~= url_table(p.entries@.take(i as int)).push(
                (dec(p.entries@[i as int].stream.stream_id as nat), p.entries@[i as int].url@),
            ));
            assert(string_entries(urls@) =~= url_table(p.entries@.take(i + 1)));
            i = i + 1;
        }
        assert(p.entries@.take(p.entries.len() as int) =~= p.entries@);
        let mut tvg: Vec<Entry<String>> = Vec::new();
        let mut j: usize = 0;
        while j < p.tvg_ids.len()
            invariant
                j <= p.tvg_ids.len(),
                string_entries(tvg@) == tvg_table(p.tvg_ids@.take(j as int)),
            decreases p.tvg_ids.len() - j,
        {
            let key = decimal_string(p.tvg_ids[j].stream_id);
            let ghost before = tvg@;
            let value = p.tvg_ids[j].tvg_id.clone();
            tvg.push(Entry { key, value });
            assert(string_entries(tvg@).drop_last() =~= string_entries(before));
            assert(string_entries(tvg@).last() == (dec(p.tvg_ids@[j as int].stream_id as nat), p.tvg_ids@[j as int].tvg_id@));
            assert(p.tvg_ids@.take(j + 1) =~= p.tvg_ids@.take(j as int).push(p.tvg_ids@[j as int]));
            assert(tvg_table(p.tvg_ids@.take(j + 1)) =~= tvg_table(p.tvg_ids@.take(j as int)).push(
                (dec(p.tvg_ids@[j as int].stream_id as nat), p.tvg_ids@[j as int].tvg_id@),
            ));
            assert(string_entries(tvg@) =~= tvg_table(p.tvg_ids@.take(j + 1)));
            j = j + 1;
        }
        assert(p.tvg_ids@.take(p.tvg_ids.len() as int) =~= p.tvg_ids@);
        self.live_categories = p.categories;
        self.live_streams = p.groups;
        self.m3u8_stream_urls = urls;
        self.m3u8_tvg_ids = tvg;
        self.m3u8_at = now;
        self.categories_at = now;
    }

    /// The URL the playlist gives for a stream.
    pub fn stream_url(&self, stream_id: u64) -> (r: Option<String>)
        ensures
            r is None <==> value_of(string_entries(self.m3u8_stream_urls@), dec(stream_id as nat)) is None,
            r matches Some(u) ==> value_of(string_entries(self.m3u8_stream_urls@), dec(stream_id as nat))
                == Some(u@),
    {
        let key = decimal_string(stream_id);
        proof {
            lemma_position_of(entries_view(self.m3u8_stream_urls@), key@, 0);
            lemma_string_entries_position(self.m3u8_stream_urls@, key@, 0);
        }
        match find_entry(&self.m3u8_stream_urls, key.as_str()) {
            Some(i) => Some(self.m3u8_stream_urls[i].value.clone()),
            None => None,
        }
    }

    /// The guide id the playlist gives for a stream.
    pub fn channel_tvg_id(&self, stream_id: u64) -> (r: Option<String>)
        ensures
            r is None <==> value_of(string_entries(self.m3u8_tvg_ids@), dec(stream_id as nat)) is None,
            r matches Some(u) ==> value_of(string_entries(self.m3u8_tvg_ids@), dec(stream_id as nat))
                == Some(u@),
    {
        let key = decimal_string(stream_id);
        proof {
            lemma_position_of(entries_view(self.m3u8_tvg_ids@), key@, 0);
            lemma_string_entries_position(self.m3u8_tvg_ids@, key@, 0);
        }
        match find_entry(&self.m3u8_tvg_ids, key.as_str()) {
            Some(i) => Some(self.m3u8_tvg_ids[i].value.clone()),
            None => None,
        }
    }
}

impl ProfileCache {
    /// The listings of a playlist channel: those the playlist's guide holds
    /// under the channel's guide id; none when the channel has no guide id
    /// or the guide has nothing under it.
    pub fn channel_guide(&self, stream_id: u64) -> (r: Vec<EpgListing>)
        ensures
            r@ == (match value_of(string_entries(self.m3u8_tvg_ids@), dec(stream_id as nat)) {
                Some(t) => match group_items(groups_view(self.m3u8_epg@), t) {
                    Some(v) => v,
                    None => Seq::empty(),
                },
                None => Seq::empty(),
            }),
    {
        match self.channel_tvg_id(stream_id) {
            None => Vec::new(),
            Some(t) => match find_group(&self.m3u8_epg, t.as_str()) {
                Some(i) => {
                    proof {
                        lemma_key_position(groups_view(self.m3u8_epg@), t@, 0);
                    }
                    copy_items(&self.m3u8_epg[i].items)
                },
                None => Vec::new(),
            },
        }
    }
}

pub proof fn lemma_string_entries_position(es: Seq<Entry<String>>, k: Seq<char>, from: int)
    ensures
        crate::keyed::position_of(string_entries(es), k, from) == crate::keyed::position_of(
            entries_view(es),
            k,
            from,
        ),
    decreases es.len() - from,
{
    if !(from < 0 || from >= es.len()) && es[from].key@ != k {
        lemma_string_entries_position(es, k, from + 1);
    }
}

/// What priming an M3U8 profile fetches: the playlist unless it is cached
/// and fresh, and the guide when the profile has a guide URL and no fresh
/// cached guide.
pub struct M3u8Prime {
    pub fetch_playlist: bool,
    pub fetch_guide: bool,
}

/// Decides what priming an M3U8 profile must fetch at `now`.
pub fn plan_m3u8_prime(pc: Option<&ProfileCache>, epg_url: &str, now: i64) -> (r: M3u8Prime)
    ensures
        r.fetch_playlist == !(pc matches Some(c) && fresh_at(c.m3u8_at as int, M3U8_TTL as int, now as int)
            && c.live_categories@.len() > 0),
        r.fetch_guide == (epg_url@.len() > 0 && !(pc matches Some(c) && fresh_at(
            c.m3u8_epg_at as int,
            EPG_TTL as int,
            now as int,
        ))),
{
    let playlist_fresh = match pc {
        Some(c) => c.playlist_fresh(now),
        None => false,
    };
    let guide_fresh = match pc {
        Some(c) => c.playlist_guide_fresh(now),
        None => false,
    };
    M3u8Prime { fetch_playlist: !playlist_fresh, fetch_guide: !epg_url.is_empty() && !guide_fresh }
}

} // verus!
