//! Character-level helpers shared by the text parsers: whitespace, trimming,
//! splitting into lines, words and fields, ASCII case folding and number parsing.

use vstd::prelude::*;

verus! {

broadcast use vstd::string::group_string_axioms;

/// The characters of `s`, in order.
pub fn chars_of(s: &str) -> (v: Vec<char>)
    ensures
        v@ == s@,
{
    let mut v: Vec<char> = Vec::new();
    for c in it: s.chars()
        invariant
            it.seq() == s@,
            v@ == it.seq().take(it.index() as int),
    {
        v.push(c);
    }
    v
}

/// A `String` holding exactly the characters `v`.
///
/// Calls `FromIterator<char> for String` (std), which appends the characters in order.
#[verifier::external_body]
pub fn string_from_chars(v: &[char]) -> (s: String)
    ensures
        s@ == v@,
{
    v.iter().collect()
}

/// Unicode `White_Space`, the set that `char::is_whitespace` tests.
pub open spec fn is_ws(c: char) -> bool {
    let u = c as u32;
    ||| (0x09 <= u && u <= 0x0d)
    ||| u == 0x20
    ||| u == 0x85
    ||| u == 0xa0
    ||| u == 0x1680
    ||| (0x2000 <= u && u <= 0x200a)
    ||| u == 0x2028
    ||| u == 0x2029
    ||| u == 0x202f
    ||| u == 0x205f
    ||| u == 0x3000
}

pub fn is_whitespace(c: char) -> (r: bool)
    ensures
        r == is_ws(c),
{
    let u = c as u32;
    (0x09 <= u && u <= 0x0d) || u == 0x20 || u == 0x85 || u == 0xa0 || u == 0x1680 || (0x2000
        <= u && u <= 0x200a) || u == 0x2028 || u == 0x2029 || u == 0x202f || u == 0x205f || u
        == 0x3000
}

pub open spec fn is_digit(c: char) -> bool {
    '0' <= c && c <= '9'
}

pub open spec fn is_hex_digit(c: char) -> bool {
    ('0' <= c && c <= '9') || ('a' <= c && c <= 'f') || ('A' <= c && c <= 'F')
}

pub open spec fn is_alpha(c: char) -> bool {
    ('a' <= c && c <= 'z') || ('A' <= c && c <= 'Z')
}

pub open spec fn is_alnum(c: char) -> bool {
    is_alpha(c) || is_digit(c)
}

/// Value of a hexadecimal digit.
pub open spec fn hex_val(c: char) -> int {
    if '0' <= c && c <= '9' {
        c as int - '0' as int
    } else if 'a' <= c && c <= 'f' {
        c as int - 'a' as int + 10
    } else {
        c as int - 'A' as int + 10
    }
}

/// ASCII lower-case of one character; other characters are unchanged.
pub open spec fn lower(c: char) -> char {
    if 'A' <= c && c <= 'Z' {
        ((c as u32) + 32) as char
    } else {
        c
    }
}

/// ASCII upper-case of one character; other characters are unchanged.
pub open spec fn upper(c: char) -> char {
    if 'a' <= c && c <= 'z' {
        ((c as u32) - 32) as char
    } else {
        c
    }
}

pub open spec fn lower_seq(s: Seq<char>) -> Seq<char> {
    s.map_values(|c: char| lower(c))
}

pub open spec fn upper_seq(s: Seq<char>) -> Seq<char> {
    s.map_values(|c: char| upper(c))
}

pub fn to_lower(c: char) -> (r: char)
    ensures
        r == lower(c),
{
    if 'A' <= c && c <= 'Z' {
        let u = (c as u32) + 32;
        assert(0x61 <= u <= 0x7a);
        char_from_ascii(u)
    } else {
        c
    }
}

pub fn to_upper(c: char) -> (r: char)
    ensures
        r == upper(c),
{
    if 'a' <= c && c <= 'z' {
        let u = (c as u32) - 32;
        char_from_ascii(u)
    } else {
        c
    }
}

/// The ASCII character with code `u`.
fn char_from_ascii(u: u32) -> (c: char)
    requires
        u < 0x80,
    ensures
        c as u32 == u,
        c == u as char,
{
    let b = u as u8;
    b as char
}

/// Number of leading whitespace characters.
pub open spec fn lead_ws(s: Seq<char>) -> nat
    decreases s.len(),
{
    if s.len() > 0 && is_ws(s[0]) {
        1 + lead_ws(s.drop_first())
    } else {
        0
    }
}

/// Number of trailing whitespace characters.
pub open spec fn trail_ws(s: Seq<char>) -> nat
    decreases s.len(),
{
    if s.len() > 0 && is_ws(s.last()) {
        1 + trail_ws(s.drop_last())
    } else {
        0
    }
}

/// `s` without leading and trailing whitespace (what `str::trim` returns).
pub open spec fn trim(s: Seq<char>) -> Seq<char> {
    let t = s.skip(lead_ws(s) as int);
    t.take(t.len() - trail_ws(t))
}

proof fn lemma_lead_ws_bound(s: Seq<char>)
    ensures
        lead_ws(s) <= s.len(),
    decreases s.len(),
{
    if s.len() > 0 && is_ws(s[0]) {
        lemma_lead_ws_bound(s.drop_first());
    }
}

proof fn lemma_trail_ws_bound(s: Seq<char>)
    ensures
        trail_ws(s) <= s.len(),
    decreases s.len(),
{
    if s.len() > 0 && is_ws(s.last()) {
        lemma_trail_ws_bound(s.drop_last());
    }
}

/// Bounds `[a, b)` of `trim(v)` inside `v`.
pub fn trim_bounds(v: &[char]) -> (r: (usize, usize))
    ensures
        r.0 <= r.1 <= v@.len(),
        v@.subrange(r.0 as int, r.1 as int) == trim(v@),
{
    let n = v.len();
    let mut a: usize = 0;
    assert(v@.skip(0) =~= v@);
    while a < n && is_whitespace(v[a])
        invariant
            a <= n == v@.len(),
            lead_ws(v@) == a + lead_ws(v@.skip(a as int)),
        decreases n - a,
    {
        assert(v@.skip(a as int).drop_first() =~= v@.skip(a + 1));
        a = a + 1;
    }
    assert(lead_ws(v@.skip(a as int)) == 0);
    let ghost t = v@.skip(a as int);
    assert(t.take(t.len() as int) =~= t);
    let mut b: usize = n;
    while b > a && is_whitespace(v[b - 1])
        invariant
            a <= b <= n == v@.len(),
            t == v@.skip(a as int),
            trail_ws(t) == (n - b) + trail_ws(t.take(b - a)),
        decreases b - a,
    {
        assert(t.take(b - a).drop_last() =~= t.take(b - 1 - a));
        b = b - 1;
    }
    assert(trail_ws(t.take(b - a)) == 0);
    assert(t.take(t.len() - trail_ws(t)) =~= v@.subrange(a as int, b as int));
    (a, b)
}

/// `trim(v)` as a vector.
pub fn trimmed(v: &[char]) -> (r: Vec<char>)
    ensures
        r@ == trim(v@),
{
    let (a, b) = trim_bounds(v);
    slice_range(v, a, b)
}

/// The characters `v[a..b]`.
pub fn slice_range(v: &[char], a: usize, b: usize) -> (r: Vec<char>)
    requires
        a <= b <= v@.len(),
    ensures
        r@ == v@.subrange(a as int, b as int),
{
    let mut r: Vec<char> = Vec::new();
    let mut i = a;
    while i < b
        invariant
            a <= i <= b <= v@.len(),
            r@ == v@.subrange(a as int, i as int),
        decreases b - i,
    {
        r.push(v[i]);
        i = i + 1;
    }
    r
}

/// Split state: finished pieces and the piece being built.
pub open spec fn split_state(s: Seq<char>, d: char) -> (Seq<Seq<char>>, Seq<char>)
    decreases s.len(),
{
    if s.len() == 0 {
        (seq![], seq![])
    } else {
        let (p, cur) = split_state(s.drop_last(), d);
        if s.last() == d {
            (p.push(cur), seq![])
        } else {
            (p, cur.push(s.last()))
        }
    }
}

/// The pieces of `s` between occurrences of `d` (what `str::split(d)` yields).
pub open spec fn split(s: Seq<char>, d: char) -> Seq<Seq<char>> {
    let (p, cur) = split_state(s, d);
    p.push(cur)
}

pub fn split_chars(v: &[char], d: char) -> (r: Vec<Vec<char>>)
    ensures
        r@.len() == split(v@, d).len(),
        forall|i: int| 0 <= i < r@.len() ==> #[trigger] r@[i]@ == split(v@, d)[i],
{
    let mut pieces: Vec<Vec<char>> = Vec::new();
    let mut cur: Vec<char> = Vec::new();
    let mut i: usize = 0;
    while i < v.len()
        invariant
            i <= v@.len(),
            pieces@.len() == split_state(v@.take(i as int), d).0.len(),
            forall|k: int|
                0 <= k < pieces@.len() ==> #[trigger] pieces@[k]@ == split_state(
                    v@.take(i as int),
                    d,
                ).0[k],
            cur@ == split_state(v@.take(i as int), d).1,
        decreases v.len() - i,
    {
        assert(v@.take(i + 1).drop_last() =~= v@.take(i as int));
        if v[i] == d {
            let done = cur;
            pieces.push(done);
            cur = Vec::new();
        } else {
            cur.push(v[i]);
        }
        i = i + 1;
    }
    assert(v@.take(v@.len() as int) =~= v@);
    pieces.push(cur);
    pieces
}

/// Word state: finished words and the word being built.
pub open spec fn words_state(s: Seq<char>) -> (Seq<Seq<char>>, Seq<char>)
    decreases s.len(),
{
    if s.len() == 0 {
        (seq![], seq![])
    } else {
        let (p, cur) = words_state(s.drop_last());
        if is_ws(s.last()) {
            if cur.len() > 0 {
                (p.push(cur), seq![])
            } else {
                (p, cur)
            }
        } else {
            (p, cur.push(s.last()))
        }
    }
}

/// The whitespace-separated words of `s` (what `str::split_whitespace` yields).
pub open spec fn words(s: Seq<char>) -> Seq<Seq<char>> {
    let (p, cur) = words_state(s);
    if cur.len() > 0 {
        p.push(cur)
    } else {
        p
    }
}

pub fn split_words(v: &[char]) -> (r: Vec<Vec<char>>)
    ensures
        r@.len() == words(v@).len(),
        forall|i: int| 0 <= i < r@.len() ==> #[trigger] r@[i]@ == words(v@)[i],
{
    let mut out: Vec<Vec<char>> = Vec::new();
    let mut cur: Vec<char> = Vec::new();
    let mut i: usize = 0;
    while i < v.len()
        invariant
            i <= v@.len(),
            out@.len() == words_state(v@.take(i as int)).0.len(),
            forall|k: int|
                0 <= k < out@.len() ==> #[trigger] out@[k]@ == words_state(v@.take(i as int)).0[k],
            cur@ == words_state(v@.take(i as int)).1,
        decreases v.len() - i,
    {
        assert(v@.take(i + 1).drop_last() =~= v@.take(i as int));
        if is_whitespace(v[i]) {
            if cur.len() > 0 {
                let done = cur;
                out.push(done);
                cur = Vec::new();
            }
        } else {
            cur.push(v[i]);
        }
        i = i + 1;
    }
    assert(v@.take(v@.len() as int) =~= v@);
    if cur.len() > 0 {
        out.push(cur);
    }
    out
}

/// `s` without one trailing `'\r'`.
pub open spec fn strip_cr(s: Seq<char>) -> Seq<char> {
    if s.len() > 0 && s.last() == '\r' {
        s.drop_last()
    } else {
        s
    }
}

/// Line state: finished lines and the line being built.
pub open spec fn lines_state(s: Seq<char>) -> (Seq<Seq<char>>, Seq<char>)
    decreases s.len(),
{
    if s.len() == 0 {
        (seq![], seq![])
    } else {
        let (p, cur) = lines_state(s.drop_last());
        if s.last() == '\n' {
            (p.push(strip_cr(cur)), seq![])
        } else {
            (p, cur.push(s.last()))
        }
    }
}

/// The lines of `s` (what `str::lines` yields): split at `'\n'`, one `'\r'`
/// before it removed, and no empty last line after a final `'\n'`.
pub open spec fn lines(s: Seq<char>) -> Seq<Seq<char>> {
    let (p, cur) = lines_state(s);
    if cur.len() > 0 {
        p.push(cur)
    } else {
        p
    }
}

pub fn split_lines(v: &[char]) -> (r: Vec<Vec<char>>)
    ensures
        r@.len() == lines(v@).len(),
        forall|i: int| 0 <= i < r@.len() ==> #[trigger] r@[i]@ == lines(v@)[i],
{
    let mut out: Vec<Vec<char>> = Vec::new();
    let mut cur: Vec<char> = Vec::new();
    let mut i: usize = 0;
    while i < v.len()
        invariant
            i <= v@.len(),
            out@.len() == lines_state(v@.take(i as int)).0.len(),
            forall|k: int|
                0 <= k < out@.len() ==> #[trigger] out@[k]@ == lines_state(v@.take(i as int)).0[k],
            cur@ == lines_state(v@.take(i as int)).1,
        decreases v.len() - i,
    {
        assert(v@.take(i + 1).drop_last() =~= v@.take(i as int));
        if v[i] == '\n' {
            let mut done = cur;
            let n = done.len();
            if n > 0 && done[n - 1] == '\r' {
                done.pop();
                assert(done@ =~= strip_cr(lines_state(v@.take(i as int)).1));
            }
            out.push(done);
            cur = Vec::new();
        } else {
            cur.push(v[i]);
        }
        i = i + 1;
    }
    assert(v@.take(v@.len() as int) =~= v@);
    if cur.len() > 0 {
        out.push(cur);
    }
    out
}

/// Whether `a` and `b` are equal after ASCII lower-casing `a`.
pub fn eq_lower(a: &[char], b: &str) -> (r: bool)
    ensures
        r == (lower_seq(a@) == b@),
{
    let bv = chars_of(b);
    if a.len() != bv.len() {
        proof {
            if lower_seq(a@) == b@ {
                assert(lower_seq(a@).len() == a@.len());
            }
        }
        return false;
    }
    let mut i: usize = 0;
    while i < a.len()
        invariant
            i <= a@.len() == bv@.len(),
            bv@ == b@,
            forall|k: int| 0 <= k < i ==> lower(a@[k]) == bv@[k],
        decreases a.len() - i,
    {
        if to_lower(a[i]) != bv[i] {
            proof {
                if lower_seq(a@) == b@ {
                    assert(lower_seq(a@)[i as int] == lower(a@[i as int]));
                }
            }
            return false;
        }
        i = i + 1;
    }
    assert(lower_seq(a@) =~= b@);
    true
}

/// Whether `a` equals `b` exactly.
pub fn eq_str(a: &[char], b: &str) -> (r: bool)
    ensures
        r == (a@ == b@),
{
    let bv = chars_of(b);
    if a.len() != bv.len() {
        return false;
    }
    let mut i: usize = 0;
    while i < a.len()
        invariant
            i <= a@.len() == bv@.len(),
            bv@ == b@,
            forall|k: int| 0 <= k < i ==> a@[k] == bv@[k],
        decreases a.len() - i,
    {
        if a[i] != bv[i] {
            return false;
        }
        i = i + 1;
    }
    assert(a@ =~= b@);
    true
}

/// Whether `p` is a prefix of `a`.
pub fn starts_with(a: &[char], p: &str) -> (r: bool)
    ensures
        r == (p@.len() <= a@.len() && a@.take(p@.len() as int) == p@),
{
    let pv = chars_of(p);
    if pv.len() > a.len() {
        return false;
    }
    let mut i: usize = 0;
    while i < pv.len()
        invariant
            i <= pv@.len() <= a@.len(),
            pv@ == p@,
            forall|k: int| 0 <= k < i ==> a@[k] == pv@[k],
        decreases pv.len() - i,
    {
        if a[i] != pv[i] {
            assert(a@.take(p@.len() as int)[i as int] != p@[i as int]);
            return false;
        }
        i = i + 1;
    }
    assert(a@.take(p@.len() as int) =~= p@);
    true
}

/// Value of a sequence of decimal digits.
pub open spec fn dec_value(s: Seq<char>) -> int
    decreases s.len(),
{
    if s.len() == 0 {
        0
    } else {
        dec_value(s.drop_last()) * 10 + (s.last() as int - '0' as int)
    }
}

/// Value of a sequence of hexadecimal digits.
pub open spec fn hex_value(s: Seq<char>) -> int
    decreases s.len(),
{
    if s.len() == 0 {
        0
    } else {
        hex_value(s.drop_last()) * 16 + hex_val(s.last())
    }
}

/// The digits of an unsigned number: `s` without one leading `'+'`.
pub open spec fn unsigned_digits(s: Seq<char>) -> Seq<char> {
    if s.len() > 0 && s[0] == '+' {
        s.drop_first()
    } else {
        s
    }
}

/// What `str::parse` of an unsigned integer type with maximum `max` returns
/// on `s`: an optional `'+'`, then one or more decimal digits, whose value
/// must not exceed `max`.
pub open spec fn parse_unsigned(s: Seq<char>, max: int) -> Option<int> {
    let d = unsigned_digits(s);
    if d.len() > 0 && (forall|i: int| 0 <= i < d.len() ==> is_digit(#[trigger] d[i]))
        && dec_value(d) <= max {
        Some(dec_value(d))
    } else {
        None
    }
}

/// What `from_str_radix(s, 16)` of an unsigned integer type with maximum
/// `max` returns: an optional `'+'`, then one or more hexadecimal digits,
/// whose value must not exceed `max`.
pub open spec fn parse_hex(s: Seq<char>, max: int) -> Option<int> {
    let d = unsigned_digits(s);
    if d.len() > 0 && (forall|i: int| 0 <= i < d.len() ==> is_hex_digit(#[trigger] d[i]))
        && hex_value(d) <= max {
        Some(hex_value(d))
    } else {
        None
    }
}

proof fn lemma_dec_value_nonneg(s: Seq<char>)
    requires
        forall|i: int| 0 <= i < s.len() ==> is_digit(#[trigger] s[i]),
    ensures
        dec_value(s) >= 0,
    decreases s.len(),
{
    if s.len() > 0 {
        lemma_dec_value_nonneg(s.drop_last());
    }
}

proof fn lemma_dec_value_mono(s: Seq<char>, k: int)
    requires
        forall|i: int| 0 <= i < s.len() ==> is_digit(#[trigger] s[i]),
        0 <= k <= s.len(),
    ensures
        dec_value(s.take(k)) <= dec_value(s),
    decreases s.len(),
{
    if k < s.len() {
        assert(s.drop_last().take(k) =~= s.take(k));
        lemma_dec_value_mono(s.drop_last(), k);
        lemma_dec_value_nonneg(s.drop_last());
    } else {
        assert(s.take(k) =~= s);
    }
}

proof fn lemma_hex_value_nonneg(s: Seq<char>)
    requires
        forall|i: int| 0 <= i < s.len() ==> is_hex_digit(#[trigger] s[i]),
    ensures
        hex_value(s) >= 0,
    decreases s.len(),
{
    if s.len() > 0 {
        lemma_hex_value_nonneg(s.drop_last());
    }
}

proof fn lemma_hex_value_mono(s: Seq<char>, k: int)
    requires
        forall|i: int| 0 <= i < s.len() ==> is_hex_digit(#[trigger] s[i]),
        0 <= k <= s.len(),
    ensures
        hex_value(s.take(k)) <= hex_value(s),
    decreases s.len(),
{
    if k < s.len() {
        assert(s.drop_last().take(k) =~= s.take(k));
        lemma_hex_value_mono(s.drop_last(), k);
        lemma_hex_value_nonneg(s.drop_last());
    } else {
        assert(s.take(k) =~= s);
    }
}

/// Parses `v` as an unsigned decimal number no greater than `max`.
pub fn parse_dec_max(v: &[char], max: u64) -> (r: Option<u64>)
    ensures
        match parse_unsigned(v@, max as int) {
            Some(x) => r == Some(x as u64) && 0 <= x <= max,
            None => r is None,
        },
{
    let start: usize = if v.len() > 0 && v[0] == '+' { 1 } else { 0 };
    let ghost d = unsigned_digits(v@);
    assert(d =~= v@.skip(start as int));
    if start >= v.len() {
        return None;
    }
    let mut acc: u64 = 0;
    let mut i = start;
    while i < v.len()
        invariant
            start <= i <= v@.len(),
            d == v@.skip(start as int),
            d == unsigned_digits(v@),
            forall|k: int| 0 <= k < i - start ==> is_digit(#[trigger] d[k]),
            acc as int == dec_value(d.take(i - start)),
            acc <= max,
        decreases v.len() - i,
    {
        let c = v[i];
        if !('0' <= c && c <= '9') {
            assert(!is_digit(d[i - start]));
            assert(!(forall|k: int| 0 <= k < d.len() ==> is_digit(#[trigger] d[k])));
            assert(parse_unsigned(v@, max as int) is None);
            return None;
        }
        let digit = (c as u32 - '0' as u32) as u64;
        assert(d.take(i + 1 - start).drop_last() =~= d.take(i - start));
        if digit > max || acc > (max - digit) / 10 {
            proof {
                assert(dec_value(d.take(i + 1 - start)) == acc * 10 + digit);
                assert(acc * 10 + digit > max) by (nonlinear_arith)
                    requires digit > max || acc > (max - digit) / 10, acc >= 0;
                if forall|k: int| 0 <= k < d.len() ==> is_digit(#[trigger] d[k]) {
                    lemma_dec_value_mono(d, i + 1 - start);
                }
            }
            return None;
        }
        assert(acc * 10 + digit <= max) by (nonlinear_arith)
            requires acc <= (max - digit) / 10, digit <= max;
        acc = acc * 10 + digit;
        i = i + 1;
    }
    assert(d.take(d.len() as int) =~= d);
    proof { lemma_dec_value_nonneg(d); }
    Some(acc)
}

/// Parses `v` as an unsigned hexadecimal number no greater than `max`.
pub fn parse_hex_max(v: &[char], max: u64) -> (r: Option<u64>)
    ensures
        match parse_hex(v@, max as int) {
            Some(x) => r == Some(x as u64) && 0 <= x <= max,
            None => r is None,
        },
{
    let start: usize = if v.len() > 0 && v[0] == '+' { 1 } else { 0 };
    let ghost d = unsigned_digits(v@);
    assert(d =~= v@.skip(start as int));
    if start >= v.len() {
        return None;
    }
    let mut acc: u64 = 0;
    let mut i = start;
    while i < v.len()
        invariant
            start <= i <= v@.len(),
            d == v@.skip(start as int),
            d == unsigned_digits(v@),
            forall|k: int| 0 <= k < i - start ==> is_hex_digit(#[trigger] d[k]),
            acc as int == hex_value(d.take(i - start)),
            acc <= max,
        decreases v.len() - i,
    {
        let c = v[i];
        let digit: u64;
        if '0' <= c && c <= '9' {
            digit = (c as u32 - '0' as u32) as u64;
        } else if 'a' <= c && c <= 'f' {
            digit = (c as u32 - 'a' as u32 + 10) as u64;
        } else if 'A' <= c && c <= 'F' {
            digit = (c as u32 - 'A' as u32 + 10) as u64;
        } else {
            assert(!is_hex_digit(d[i - start]));
            assert(!(forall|k: int| 0 <= k < d.len() ==> is_hex_digit(#[trigger] d[k])));
            return None;
        }
        assert(digit as int == hex_val(c) && digit < 16);
        assert(d.take(i + 1 - start).drop_last() =~= d.take(i - start));
        if digit > max || acc > (max - digit) / 16 {
            proof {
                assert(hex_value(d.take(i + 1 - start)) == acc * 16 + digit);
                assert(acc * 16 + digit > max) by (nonlinear_arith)
                    requires digit > max || acc > (max - digit) / 16, acc >= 0;
                if forall|k: int| 0 <= k < d.len() ==> is_hex_digit(#[trigger] d[k]) {
                    lemma_hex_value_mono(d, i + 1 - start);
                }
            }
            return None;
        }
        assert(acc * 16 + digit <= max) by (nonlinear_arith)
            requires acc <= (max - digit) / 16, digit <= max;
        acc = acc * 16 + digit;
        i = i + 1;
    }
    assert(d.take(d.len() as int) =~= d);
    proof { lemma_hex_value_nonneg(d); }
    Some(acc)
}


/// `s` with every occurrence of `c` removed.
pub open spec fn remove_char(s: Seq<char>, c: char) -> Seq<char>
    decreases s.len(),
{
    if s.len() == 0 {
        s
    } else if s.last() == c {
        remove_char(s.drop_last(), c)
    } else {
        remove_char(s.drop_last(), c).push(s.last())
    }
}

pub fn without_char(v: &[char], c: char) -> (r: Vec<char>)
    ensures
        r@ == remove_char(v@, c),
{
    let mut r: Vec<char> = Vec::new();
    let mut i: usize = 0;
    while i < v.len()
        invariant
            i <= v@.len(),
            r@ == remove_char(v@.take(i as int), c),
        decreases v.len() - i,
    {
        assert(v@.take(i + 1).drop_last() =~= v@.take(i as int));
        if v[i] != c {
            r.push(v[i]);
        }
        i = i + 1;
    }
    assert(v@.take(v@.len() as int) =~= v@);
    r
}

pub fn contains_char(v: &[char], c: char) -> (r: bool)
    ensures
        r == v@.contains(c),
{
    let mut i: usize = 0;
    while i < v.len()
        invariant
            i <= v@.len(),
            forall|k: int| 0 <= k < i ==> v@[k] != c,
        decreases v.len() - i,
    {
        if v[i] == c {
            return true;
        }
        i = i + 1;
    }
    false
}


/// Whether `p` occurs in `s` as a run of consecutive characters.
pub open spec fn has_infix(s: Seq<char>, p: Seq<char>) -> bool {
    exists|i: int| 0 <= i && i + p.len() <= s.len() && #[trigger] s.subrange(i, i + p.len()) == p
}

/// Whether `s[at..at + p.len()]` is `p`.
fn matches_at(s: &[char], at: usize, p: &[char]) -> (r: bool)
    requires
        at + p@.len() <= s@.len(),
    ensures
        r == (s@.subrange(at as int, at + p@.len()) == p@),
{
    let sl = s.len();
    let mut k: usize = 0;
    while k < p.len()
        invariant
            k <= p@.len(),
            sl == s@.len(),
            at + p@.len() <= s@.len(),
            forall|j: int| 0 <= j < k ==> s@[at + j] == p@[j],
        decreases p.len() - k,
    {
        if s[at + k] != p[k] {
            assert(s@.subrange(at as int, at + p@.len())[k as int] != p@[k as int]);
            return false;
        }
        k = k + 1;
    }
    assert(s@.subrange(at as int, at + p@.len()) =~= p@);
    true
}

/// Whether `p` occurs in `s`.
pub fn contains_str(s: &[char], p: &str) -> (r: bool)
    ensures
        r == has_infix(s@, p@),
{
    let pv = chars_of(p);
    if pv.len() > s.len() {
        return false;
    }
    if pv.len() == 0 {
        assert(s@.subrange(0int, 0int + p@.len()) =~= p@);
        return true;
    }
    let sl = s.len();
    let last = s.len() - pv.len();
    let mut i: usize = 0;
    while i <= last
        invariant
            last + pv@.len() == s@.len(),
            sl == s@.len(),
            pv@.len() > 0,
            pv@ == p@,
            i <= last + 1,
            forall|j: int| 0 <= j < i ==> #[trigger] s@.subrange(j, j + p@.len()) != p@,
        decreases last + 1 - i,
    {
        if matches_at(s, i, pv.as_slice()) {
            return true;
        }
        i = i + 1;
    }
    false
}

/// Upper-case hexadecimal digit for `n < 16`.
pub open spec fn hex_digit_upper(n: int) -> char {
    if n < 10 {
        (48 + n) as char
    } else {
        (55 + n) as char
    }
}

/// Two upper-case hexadecimal digits of a byte (`{:02X}`).
pub open spec fn hex2_upper(b: u8) -> Seq<char> {
    seq![hex_digit_upper(b as int / 16), hex_digit_upper(b as int % 16)]
}

/// The bytes as upper-case hex pairs separated by `sep`.
pub open spec fn hex_joined(bytes: Seq<u8>, sep: char) -> Seq<char>
    decreases bytes.len(),
{
    if bytes.len() == 0 {
        seq![]
    } else if bytes.len() == 1 {
        hex2_upper(bytes[0])
    } else {
        hex_joined(bytes.drop_last(), sep) + seq![sep] + hex2_upper(bytes.last())
    }
}

pub fn hex_upper(n: u8) -> (c: char)
    requires
        n < 16,
    ensures
        c == hex_digit_upper(n as int),
{
    if n < 10 {
        char_from_ascii(48 + n as u32)
    } else {
        char_from_ascii(55 + n as u32)
    }
}

/// Appends the two upper-case hex digits of `b`.
pub fn push_hex2_upper(out: &mut Vec<char>, b: u8)
    ensures
        final(out)@ == old(out)@ + hex2_upper(b),
{
    let hi = hex_upper(b / 16);
    let lo = hex_upper(b % 16);
    out.push(hi);
    out.push(lo);
    assert(final(out)@ =~= old(out)@ + hex2_upper(b));
}

/// The bytes as upper-case hex pairs separated by `sep`.
pub fn hex_join(bytes: &[u8], sep: char) -> (r: Vec<char>)
    ensures
        r@ == hex_joined(bytes@, sep),
{
    let mut out: Vec<char> = Vec::new();
    let mut i: usize = 0;
    while i < bytes.len()
        invariant
            i <= bytes@.len(),
            out@ == hex_joined(bytes@.take(i as int), sep),
        decreases bytes.len() - i,
    {
        let ghost before = out@;
        if i > 0 {
            out.push(sep);
        }
        push_hex2_upper(&mut out, bytes[i]);
        proof {
            let t = bytes@.take(i + 1);
            assert(t.drop_last() =~= bytes@.take(i as int));
            assert(t.last() == bytes@[i as int]);
            if i == 0 {
                assert(t =~= seq![bytes@[0]]);
                assert(out@ =~= hex2_upper(bytes@[0]));
            } else {
                assert(out@ =~= before + seq![sep] + hex2_upper(bytes@[i as int]));
            }
        }
        i = i + 1;
    }
    assert(bytes@.take(bytes@.len() as int) =~= bytes@);
    out
}

/// Decimal digits of `n`, without leading zeros (`{}` of an unsigned integer).
pub open spec fn dec_chars(n: nat) -> Seq<char>
    decreases n,
{
    if n < 10 {
        seq![(48 + n) as char]
    } else {
        dec_chars(n / 10) + seq![(48 + n % 10) as char]
    }
}

/// The decimal text of `n` is one or more digits whose value is `n`.
pub proof fn lemma_dec_chars_digits(n: nat)
    ensures
        dec_chars(n).len() > 0,
        forall|i: int| 0 <= i < dec_chars(n).len() ==> is_digit(#[trigger] dec_chars(n)[i]),
        dec_value(dec_chars(n)) == n,
    decreases n,
{
    if n < 10 {
        let c = (48 + n) as char;
        assert(c as int == 48 + n);
        let d = dec_chars(n);
        assert(d.drop_last() =~= Seq::<char>::empty());
        assert(d.last() == c);
        assert(dec_value(d) == dec_value(d.drop_last()) * 10 + (d.last() as int - '0' as int));
        assert(dec_value(Seq::<char>::empty()) == 0);
    } else {
        lemma_dec_chars_digits(n / 10);
        let c = (48 + n % 10) as char;
        assert(c as int == 48 + n % 10);
        let d = dec_chars(n);
        assert(d.drop_last() =~= dec_chars(n / 10));
        assert(d.last() == c);
        assert((n / 10) * 10 + n % 10 == n) by (nonlinear_arith);
        assert(dec_value(d) == dec_value(d.drop_last()) * 10 + (d.last() as int - '0' as int));
        assert forall|i: int| 0 <= i < d.len() implies is_digit(#[trigger] d[i]) by {
            if i < d.len() - 1 {
                assert(d[i] == dec_chars(n / 10)[i]);
            }
        }
    }
}

/// Splitting text that ends in a piece without the delimiter: the pieces
/// before it, with the text they were building extended by that piece.
pub proof fn lemma_split_state_append(x: Seq<char>, b: Seq<char>, d: char)
    requires
        !b.contains(d),
    ensures
        split_state(x + b, d) == (split_state(x, d).0, split_state(x, d).1 + b),
    decreases b.len(),
{
    if b.len() == 0 {
        assert(x + b =~= x);
        assert(split_state(x, d).1 + b =~= split_state(x, d).1);
    } else {
        let b0 = b.drop_last();
        assert(!b0.contains(d)) by {
            if b0.contains(d) {
                let k = choose|k: int| 0 <= k < b0.len() && b0[k] == d;
                assert(b[k] == d);
            }
        }
        lemma_split_state_append(x, b0, d);
        assert((x + b).drop_last() =~= x + b0);
        assert((x + b).last() == b.last());
        assert(b.last() != d) by {
            assert(b[b.len() - 1] == b.last());
        }
        assert(split_state(x, d).1 + b0.push(b.last()) =~= split_state(x, d).1 + b);
        assert(b0.push(b.last()) =~= b);
    }
}

/// The pieces of `x`, then `d`, then a piece without `d`.
pub proof fn lemma_split_join(x: Seq<char>, b: Seq<char>, d: char)
    requires
        !b.contains(d),
    ensures
        split(x + seq![d] + b, d) == split(x, d).push(b),
{
    let xd = x + seq![d];
    assert(xd.drop_last() =~= x);
    assert(xd.last() == d);
    assert(split_state(xd, d) == (split(x, d), Seq::<char>::empty()));
    lemma_split_state_append(xd, b, d);
    assert(Seq::<char>::empty() + b =~= b);
}

/// Text without the delimiter is one piece.
pub proof fn lemma_split_single(b: Seq<char>, d: char)
    requires
        !b.contains(d),
    ensures
        split(b, d) == seq![b],
{
    lemma_split_state_append(Seq::<char>::empty(), b, d);
    assert(Seq::<char>::empty() + b =~= b);
    assert(split_state(Seq::<char>::empty(), d) == (Seq::<Seq<char>>::empty(), Seq::<char>::empty()));
    assert(Seq::<char>::empty() + b =~= b);
}

/// Appends the characters `v`.
pub fn push_chars(out: &mut Vec<char>, v: &[char])
    ensures
        final(out)@ == old(out)@ + v@,
{
    let ghost start = out@;
    let mut i: usize = 0;
    while i < v.len()
        invariant
            i <= v@.len(),
            out@ == start + v@.take(i as int),
        decreases v.len() - i,
    {
        out.push(v[i]);
        assert(v@.take(i + 1) =~= v@.take(i as int).push(v@[i as int]));
        i = i + 1;
    }
    assert(v@.take(v@.len() as int) =~= v@);
}

/// Appends the decimal digits of `n`.
pub fn push_decimal(out: &mut Vec<char>, n: u64)
    ensures
        final(out)@ == old(out)@ + dec_chars(n as nat),
    decreases n,
{
    if n >= 10 {
        push_decimal(out, n / 10);
    }
    let c = char_from_ascii(48 + (n % 10) as u32);
    out.push(c);
    assert(final(out)@ =~= old(out)@ + dec_chars(n as nat));
}

/// Appends the characters of `s`.
pub fn push_str(out: &mut Vec<char>, s: &str)
    ensures
        final(out)@ == old(out)@ + s@,
{
    let v = chars_of(s);
    let ghost start = out@;
    let mut i: usize = 0;
    while i < v.len()
        invariant
            i <= v@.len(),
            v@ == s@,
            out@ == start + v@.take(i as int),
        decreases v.len() - i,
    {
        out.push(v[i]);
        assert(v@.take(i + 1) =~= v@.take(i as int).push(v@[i as int]));
        i = i + 1;
    }
    assert(v@.take(v@.len() as int) =~= v@);
}


/// What `str::parse` of a signed integer type with range `[min, max]`
/// returns on `s`: `'-'` then decimal digits, or what `parse_unsigned`
/// accepts.
pub open spec fn parse_signed(s: Seq<char>, min: int, max: int) -> Option<int> {
    if s.len() > 0 && s[0] == '-' {
        let d = s.drop_first();
        if d.len() > 0 && (forall|i: int| 0 <= i < d.len() ==> is_digit(#[trigger] d[i])) && -dec_value(d) >= min {
            Some(-dec_value(d))
        } else {
            None
        }
    } else {
        parse_unsigned(s, max)
    }
}

/// Parses `v` as an `i32` (`str::parse::<i32>`).
pub fn parse_i32(v: &[char]) -> (r: Option<i32>)
    ensures
        match parse_signed(v@, i32::MIN as int, i32::MAX as int) {
            Some(x) => r == Some(x as i32) && i32::MIN <= x <= i32::MAX,
            None => r is None,
        },
{
    if v.len() > 0 && v[0] == '-' {
        let d = slice_range(v, 1, v.len());
        assert(d@ =~= v@.drop_first());
        if d.len() > 0 && d[0] == '+' {
            assert(!is_digit(d@[0]));
            return None;
        }
        assert(unsigned_digits(d@) == d@);
        match parse_dec_max(d.as_slice(), 0x8000_0000) {
            Some(x) => {
                let y: i64 = -(x as i64);
                Some(y as i32)
            },
            None => None,
        }
    } else {
        match parse_dec_max(v, 0x7fff_ffff) {
            Some(x) => Some(x as i32),
            None => None,
        }
    }
}

/// Decimal text of a signed integer (`{}`): a `'-'` before the digits of
/// a negative number.
pub open spec fn int_chars(n: int) -> Seq<char> {
    if n < 0 {
        seq!['-'] + dec_chars((-n) as nat)
    } else {
        dec_chars(n as nat)
    }
}

/// Appends the decimal text of `n`.
pub fn push_int(out: &mut Vec<char>, n: i64)
    ensures
        final(out)@ == old(out)@ + int_chars(n as int),
{
    if n < 0 {
        out.push('-');
        let m: u64 = if n == i64::MIN { 0x8000_0000_0000_0000u64 } else { (-n) as u64 };
        let ghost mid = out@;
        push_decimal(out, m);
        assert(final(out)@ =~= old(out)@ + int_chars(n as int));
    } else {
        push_decimal(out, n as u64);
    }
}


/// What `str::to_uppercase` returns on `s` (Unicode upper-case mapping).
pub uninterp spec fn str_to_uppercase(s: Seq<char>) -> Seq<char>;

/// Whether every character is ASCII.
pub open spec fn all_ascii(s: Seq<char>) -> bool {
    forall|i: int| 0 <= i < s.len() ==> (#[trigger] s[i] as u32) < 0x80
}

/// The Unicode upper-case of `s`.
///
/// Calls `str::to_uppercase` (std), a function of the text alone; on ASCII
/// text it maps `a`-`z` to `A`-`Z` and keeps every other character, as
/// its documentation states.
#[verifier::external_body]
pub fn to_uppercase_string(s: &str) -> (r: String)
    ensures
        r@ == str_to_uppercase(s@),
        all_ascii(s@) ==> r@ == upper_seq(s@),
{
    s.to_uppercase()
}


/// The Unicode upper-case of a character sequence.
pub fn upper_text(v: &[char]) -> (r: Vec<char>)
    ensures
        r@ == str_to_uppercase(v@),
{
    let s = string_from_chars(v);
    let u = to_uppercase_string(s.as_str());
    chars_of(u.as_str())
}

/// What `str::to_lowercase` returns on `s` (Unicode lower-case mapping).
pub uninterp spec fn str_to_lowercase(s: Seq<char>) -> Seq<char>;

/// The Unicode lower-case of `s`.
///
/// Calls `str::to_lowercase` (std), a function of the text alone; on ASCII
/// text it maps `A`-`Z` to `a`-`z` and keeps every other character, as
/// its documentation states.
#[verifier::external_body]
pub fn to_lowercase_string(s: &str) -> (r: String)
    ensures
        r@ == str_to_lowercase(s@),
        all_ascii(s@) ==> r@ == lower_seq(s@),
{
    s.to_lowercase()
}

/// Whether `p` occurs in `s` at position `i`.
pub open spec fn occurs_at(s: Seq<char>, p: Seq<char>, i: int) -> bool {
    0 <= i && i + p.len() <= s.len() && s.subrange(i, i + p.len()) == p
}

/// The first position at which `p` occurs in `s`, if any.
pub open spec fn find_sub(s: Seq<char>, p: Seq<char>) -> Option<int> {
    if exists|i: int| occurs_at(s, p, i) {
        Some(choose|i: int| occurs_at(s, p, i) && forall|j: int| 0 <= j < i ==> !occurs_at(s, p, j))
    } else {
        None
    }
}

/// The first position at which `p` occurs in `v`, if any.
pub fn find_chars(v: &[char], p: &[char]) -> (r: Option<usize>)
    ensures
        match r {
            Some(i) => occurs_at(v@, p@, i as int) && forall|j: int| 0 <= j < i ==> !occurs_at(v@, p@, j),
            None => forall|j: int| !occurs_at(v@, p@, j),
        },
        r matches Some(i) ==> find_sub(v@, p@) == Some(i as int),
        r is None ==> find_sub(v@, p@) is None,
{
    let n = v.len();
    let m = p.len();
    if m > n {
        return None;
    }
    let mut i: usize = 0;
    while i <= n - m
        invariant
            m <= n,
            n == v@.len(),
            m == p@.len(),
            i <= n - m + 1,
            forall|j: int| 0 <= j < i ==> !occurs_at(v@, p@, j),
        decreases n - m + 1 - i,
    {
        let mut k: usize = 0;
        let mut same = true;
        while k < m
            invariant
                m <= n,
                n == v@.len(),
                m == p@.len(),
                i + m <= n,
                k <= m,
                same == (forall|t: int| 0 <= t < k ==> v@[i + t] == p@[t]),
            decreases m - k,
        {
            if v[i + k] != p[k] {
                same = false;
            }
            k = k + 1;
        }
        if same {
            assert(v@.subrange(i as int, i + m) =~= p@);
            proof {
                assert(occurs_at(v@, p@, i as int));
                let c = choose|c: int| occurs_at(v@, p@, c) && forall|j: int| 0 <= j < c ==> !occurs_at(v@, p@, j);
                if c < i {
                } else if c > i {
                    assert(!occurs_at(v@, p@, i as int));
                }
            }
            return Some(i);
        }
        assert(!occurs_at(v@, p@, i as int)) by {
            if occurs_at(v@, p@, i as int) {
                let t = choose|t: int| 0 <= t < m && v@[i + t] != p@[t];
                assert(v@.subrange(i as int, i + m)[t] == v@[i + t]);
            }
        }
        i = i + 1;
    }
    assert forall|j: int| !occurs_at(v@, p@, j) by {
        if occurs_at(v@, p@, j) {
            assert(j < i);
        }
    }
    None
}


/// Why an integer could not be parsed (as `core::num::IntErrorKind`).
#[derive(Debug, Clone, Copy, PartialEq, Eq, Structural)]
pub enum IntErrorKind {
    Empty,
    InvalidDigit,
    PosOverflow,
}

/// The value of a digit in radix 10 or 16.
pub open spec fn digit_val(c: char, radix: int) -> Option<int> {
    if radix == 16 {
        if is_hex_digit(c) { Some(hex_val(c)) } else { None }
    } else {
        if is_digit(c) { Some(c as int - '0' as int) } else { None }
    }
}

/// Reading digits left to right: the first invalid digit, or the first
/// point where the value exceeds `max`, is the error.
pub open spec fn scan_digits(d: Seq<char>, radix: int, max: int) -> Result<int, IntErrorKind>
    decreases d.len(),
{
    if d.len() == 0 {
        Ok(0)
    } else {
        match scan_digits(d.drop_last(), radix, max) {
            Err(e) => Err(e),
            Ok(acc) => match digit_val(d.last(), radix) {
                None => Err(IntErrorKind::InvalidDigit),
                Some(x) => if acc * radix + x > max {
                    Err(IntErrorKind::PosOverflow)
                } else {
                    Ok(acc * radix + x)
                },
            },
        }
    }
}

/// What `from_str_radix` of an unsigned integer type with maximum `max`
/// returns on `s`.
pub open spec fn uint_parse(s: Seq<char>, radix: int, max: int) -> Result<int, IntErrorKind> {
    if s.len() == 0 {
        Err(IntErrorKind::Empty)
    } else if s.len() == 1 && (s[0] == '+' || s[0] == '-') {
        Err(IntErrorKind::InvalidDigit)
    } else if s[0] == '+' {
        scan_digits(s.drop_first(), radix, max)
    } else {
        scan_digits(s, radix, max)
    }
}

/// Decimal digits read left to right succeed exactly when every one is a
/// digit and the value fits, and then give the value.
pub(crate) proof fn lemma_scan_dec(d: Seq<char>, max: int)
    requires
        max >= 0,
    ensures
        scan_digits(d, 10, max) is Ok <==> ((forall|i: int| 0 <= i < d.len() ==> is_digit(#[trigger] d[i]))
            && dec_value(d) <= max),
        scan_digits(d, 10, max) is Ok ==> scan_digits(d, 10, max) == Ok::<int, IntErrorKind>(dec_value(d)),
    decreases d.len(),
{
    if d.len() > 0 {
        let e = d.drop_last();
        let c = d.last();
        lemma_scan_dec(e, max);
        assert(dec_value(d) == dec_value(e) * 10 + (c as int - '0' as int));
        let all_d = forall|i: int| 0 <= i < d.len() ==> is_digit(#[trigger] d[i]);
        let all_e = forall|i: int| 0 <= i < e.len() ==> is_digit(#[trigger] e[i]);
        assert(c == d[d.len() - 1]);
        if all_d {
            assert forall|i: int| 0 <= i < e.len() implies is_digit(#[trigger] e[i]) by {
                assert(e[i] == d[i]);
            }
            lemma_dec_value_nonneg(e);
        }
        if all_e && is_digit(c) {
            assert forall|i: int| 0 <= i < d.len() implies is_digit(#[trigger] d[i]) by {
                if i < e.len() {
                    assert(e[i] == d[i]);
                }
            }
            lemma_dec_value_nonneg(e);
        }
        if !all_e {
            let k = choose|k: int| 0 <= k < e.len() && !is_digit(#[trigger] e[k]);
            assert(d[k] == e[k]);
            assert(!all_d);
        }
    }
}

/// Hex digits read left to right succeed exactly when every one is a hex
/// digit and the value fits, and then give the value.
proof fn lemma_scan_hex(d: Seq<char>, max: int)
    requires
        max >= 0,
    ensures
        scan_digits(d, 16, max) is Ok <==> ((forall|i: int| 0 <= i < d.len() ==> is_hex_digit(#[trigger] d[i]))
            && hex_value(d) <= max),
        scan_digits(d, 16, max) is Ok ==> scan_digits(d, 16, max) == Ok::<int, IntErrorKind>(hex_value(d)),
    decreases d.len(),
{
    if d.len() > 0 {
        let e = d.drop_last();
        let c = d.last();
        lemma_scan_hex(e, max);
        assert(hex_value(d) == hex_value(e) * 16 + hex_val(c));
        let all_d = forall|i: int| 0 <= i < d.len() ==> is_hex_digit(#[trigger] d[i]);
        let all_e = forall|i: int| 0 <= i < e.len() ==> is_hex_digit(#[trigger] e[i]);
        assert(c == d[d.len() - 1]);
        if all_d {
            assert forall|i: int| 0 <= i < e.len() implies is_hex_digit(#[trigger] e[i]) by {
                assert(e[i] == d[i]);
            }
            lemma_hex_value_nonneg(e);
        }
        if all_e && is_hex_digit(c) {
            assert forall|i: int| 0 <= i < d.len() implies is_hex_digit(#[trigger] d[i]) by {
                if i < e.len() {
                    assert(e[i] == d[i]);
                }
            }
            lemma_hex_value_nonneg(e);
        }
        if !all_e {
            let k = choose|k: int| 0 <= k < e.len() && !is_hex_digit(#[trigger] e[k]);
            assert(d[k] == e[k]);
            assert(!all_d);
        }
    }
}

/// `str::parse` of an unsigned number and `from_str_radix(.., 10)` agree:
/// the one gives a value exactly when the other does, the same value.
pub proof fn lemma_parse_unsigned_agrees(s: Seq<char>, max: int)
    requires
        max >= 0,
    ensures
        parse_unsigned(s, max) == (match uint_parse(s, 10, max) {
            Ok(v) => Some(v),
            Err(_) => None::<int>,
        }),
{
    if s.len() > 0 && s[0] == '+' {
        lemma_scan_dec(s.drop_first(), max);
    } else {
        lemma_scan_dec(s, max);
        if s.len() == 1 && s[0] == '-' {
            assert(!is_digit(s[0]));
        }
    }
}

/// `from_str_radix(.., 16)` as the hex reader states it and as it reads
/// digits agree: the one gives a value exactly when the other does.
pub proof fn lemma_parse_hex_agrees(s: Seq<char>, max: int)
    requires
        max >= 0,
    ensures
        parse_hex(s, max) == (match uint_parse(s, 16, max) {
            Ok(v) => Some(v),
            Err(_) => None::<int>,
        }),
{
    if s.len() > 0 && s[0] == '+' {
        lemma_scan_hex(s.drop_first(), max);
    } else {
        lemma_scan_hex(s, max);
        if s.len() == 1 && s[0] == '-' {
            assert(!is_hex_digit(s[0]));
        }
    }
}

/// Why `text` is no unsigned decimal number up to `max`, as
/// `from_str_radix(.., 10)` reports it.
pub fn dec_error_kind(v: &[char], max: u64) -> (r: IntErrorKind)
    requires
        parse_unsigned(v@, max as int) is None,
    ensures
        uint_parse(v@, 10, max as int) == Err::<int, IntErrorKind>(r),
{
    proof {
        lemma_parse_unsigned_agrees(v@, max as int);
    }
    match parse_uint_radix(v, 10, max) {
        Ok(_) => {
            assert(false);
            IntErrorKind::InvalidDigit
        },
        Err(k) => k,
    }
}

/// The message of an integer parse error.
pub open spec fn int_error_text(k: IntErrorKind) -> Seq<char> {
    match k {
        IntErrorKind::Empty => "cannot parse integer from empty string"@,
        IntErrorKind::InvalidDigit => "invalid digit found in string"@,
        IntErrorKind::PosOverflow => "number too large to fit in target type"@,
    }
}

pub fn int_error_message(k: IntErrorKind) -> (r: &'static str)
    ensures
        r@ == int_error_text(k),
{
    match k {
        IntErrorKind::Empty => "cannot parse integer from empty string",
        IntErrorKind::InvalidDigit => "invalid digit found in string",
        IntErrorKind::PosOverflow => "number too large to fit in target type",
    }
}

pub(crate) proof fn lemma_scan_bound(d: Seq<char>, radix: int, max: int)
    requires
        max >= 0,
        radix == 10 || radix == 16,
    ensures
        scan_digits(d, radix, max) matches Ok(v) ==> 0 <= v <= max,
    decreases d.len(),
{
    if d.len() > 0 {
        lemma_scan_bound(d.drop_last(), radix, max);
    }
}

/// Parse an unsigned integer in radix 10 or 16 no greater than `max`,
/// reporting why it fails as `from_str_radix` does.
pub fn parse_uint_radix(v: &[char], radix: u32, max: u64) -> (r: Result<u64, IntErrorKind>)
    requires
        radix == 10 || radix == 16,
    ensures
        match uint_parse(v@, radix as int, max as int) {
            Ok(x) => r == Ok::<u64, IntErrorKind>(x as u64) && 0 <= x <= max,
            Err(e) => r == Err::<u64, IntErrorKind>(e),
        },
{
    if v.len() == 0 {
        return Err(IntErrorKind::Empty);
    }
    if v.len() == 1 && (v[0] == '+' || v[0] == '-') {
        return Err(IntErrorKind::InvalidDigit);
    }
    let start: usize = if v[0] == '+' { 1 } else { 0 };
    let ghost d = if v@[0] == '+' { v@.drop_first() } else { v@ };
    assert(d =~= v@.skip(start as int));
    assert(uint_parse(v@, radix as int, max as int) == scan_digits(d, radix as int, max as int));
    let mut acc: u64 = 0;
    let mut i = start;
    while i < v.len()
        invariant
            start <= i <= v@.len(),
            d == v@.skip(start as int),
            uint_parse(v@, radix as int, max as int) == scan_digits(d, radix as int, max as int),
            radix == 10 || radix == 16,
            scan_digits(d.take(i - start), radix as int, max as int) == Ok::<int, IntErrorKind>(acc as int),
            acc <= max,
        decreases v.len() - i,
    {
        let c = v[i];
        assert(d.take(i + 1 - start).drop_last() =~= d.take(i - start));
        assert(d.take(i + 1 - start).last() == c);
        let digit: u64;
        if '0' <= c && c <= '9' {
            digit = (c as u32 - '0' as u32) as u64;
        } else if radix == 16 && 'a' <= c && c <= 'f' {
            digit = (c as u32 - 'a' as u32 + 10) as u64;
        } else if radix == 16 && 'A' <= c && c <= 'F' {
            digit = (c as u32 - 'A' as u32 + 10) as u64;
        } else {
            proof {
                assert(digit_val(c, radix as int) is None);
                assert(scan_digits(d.take(i + 1 - start), radix as int, max as int) == Err::<int, IntErrorKind>(IntErrorKind::InvalidDigit));
                lemma_scan_prefix_err(d, i + 1 - start, radix as int, max as int);
            }
            return Err(IntErrorKind::InvalidDigit);
        }
        assert(digit_val(c, radix as int) == Some(digit as int));
        let r64 = radix as u64;
        if digit > max {
            proof {
                assert(acc * r64 + digit > max) by (nonlinear_arith)
                    requires digit > max, acc >= 0, r64 > 0;
                assert(scan_digits(d.take(i + 1 - start), radix as int, max as int) == Err::<int, IntErrorKind>(IntErrorKind::PosOverflow));
                lemma_scan_prefix_err(d, i + 1 - start, radix as int, max as int);
            }
            return Err(IntErrorKind::PosOverflow);
        }
        let q = (max - digit) / r64;
        if acc > q {
            proof {
                assert(acc * r64 + digit > max) by (nonlinear_arith)
                    requires acc > q, q == (max - digit) as int / r64 as int, digit <= max, r64 > 0;
                lemma_scan_prefix_err(d, i + 1 - start, radix as int, max as int);
            }
            return Err(IntErrorKind::PosOverflow);
        }
        assert(acc * r64 + digit <= max) by (nonlinear_arith)
            requires acc <= q, q == (max - digit) as int / r64 as int, digit <= max, r64 > 0;
        acc = acc * r64 + digit;
        i = i + 1;
    }
    assert(d.take(d.len() as int) =~= d);
    Ok(acc)
}

/// An error on a prefix is the error of the whole.
proof fn lemma_scan_prefix_err(d: Seq<char>, k: int, radix: int, max: int)
    requires
        0 <= k <= d.len(),
        scan_digits(d.take(k), radix, max) is Err,
    ensures
        scan_digits(d, radix, max) == scan_digits(d.take(k), radix, max),
    decreases d.len(),
{
    if k < d.len() {
        assert(d.drop_last().take(k) =~= d.take(k));
        lemma_scan_prefix_err(d.drop_last(), k, radix, max);
    } else {
        assert(d.take(k) =~= d);
    }
}


/// What `String::from_utf8_lossy` decodes from `b` (invalid sequences
/// replaced by U+FFFD).
pub uninterp spec fn utf8_lossy_text(b: Seq<u8>) -> Seq<char>;

/// Whether every byte is ASCII.
pub open spec fn ascii_bytes(b: Seq<u8>) -> bool {
    forall|i: int| 0 <= i < b.len() ==> #[trigger] b[i] < 0x80
}

/// Decodes `b` as UTF-8, replacing invalid sequences.
///
/// Calls `String::from_utf8_lossy` (std), a function of the bytes alone;
/// ASCII bytes are valid UTF-8 and decode to the characters with the same
/// codes.
#[verifier::external_body]
pub fn utf8_lossy(b: &[u8]) -> (r: String)
    ensures
        r@ == utf8_lossy_text(b@),
        ascii_bytes(b@) ==> r@ == Seq::new(b@.len(), |i: int| b@[i] as char),
{
    String::from_utf8_lossy(b).into_owned()
}

/// `s` without its trailing NUL characters.
pub open spec fn trim_end_nul(s: Seq<char>) -> Seq<char>
    decreases s.len(),
{
    if s.len() > 0 && s.last() == '\0' {
        trim_end_nul(s.drop_last())
    } else {
        s
    }
}

/// Decodes `b` as UTF-8 (lossily) and drops trailing NUL characters.
pub fn nul_padded_text(b: &[u8]) -> (r: String)
    ensures
        r@ == trim_end_nul(utf8_lossy_text(b@)),
{
    let s = utf8_lossy(b);
    let v = chars_of(s.as_str());
    let mut n = v.len();
    assert(v@.take(n as int) =~= v@);
    while n > 0 && v[n - 1] == '\0'
        invariant
            n <= v@.len(),
            v@ == utf8_lossy_text(b@),
            trim_end_nul(v@.take(n as int)) == trim_end_nul(v@),
        decreases n,
    {
        assert(v@.take(n as int).drop_last() =~= v@.take(n - 1));
        n = n - 1;
    }
    let t = slice_range(v.as_slice(), 0, n);
    assert(t@ =~= v@.take(n as int));
    string_from_chars(t.as_slice())
}


/// The last position at which `p` occurs in `s`, if any.
pub open spec fn rfind_sub(s: Seq<char>, p: Seq<char>) -> Option<int> {
    if exists|i: int| occurs_at(s, p, i) {
        Some(choose|i: int| occurs_at(s, p, i) && forall|j: int| i < j ==> !occurs_at(s, p, j))
    } else {
        None
    }
}

/// The last position at which `p` occurs in `v`, if any.
pub fn rfind_chars(v: &[char], p: &[char]) -> (r: Option<usize>)
    ensures
        r matches Some(i) ==> occurs_at(v@, p@, i as int) && forall|j: int| i < j ==> !occurs_at(v@, p@, j),
        r matches Some(i) ==> rfind_sub(v@, p@) == Some(i as int),
        r is None ==> rfind_sub(v@, p@) is None,
{
    let n = v.len();
    let m = p.len();
    if m > n {
        assert forall|j: int| !occurs_at(v@, p@, j) by {}
        return None;
    }
    let mut c: usize = n - m;
    loop
        invariant
            m <= n,
            n == v@.len(),
            m == p@.len(),
            c <= n - m,
            forall|j: int| c < j ==> !occurs_at(v@, p@, j),
        decreases c,
    {
        let mut k: usize = 0;
        let mut same = true;
        while k < m
            invariant
                m <= n,
                n == v@.len(),
                m == p@.len(),
                c + m <= n,
                k <= m,
                same == (forall|t: int| 0 <= t < k ==> v@[c + t] == p@[t]),
            decreases m - k,
        {
            if v[c + k] != p[k] {
                same = false;
            }
            k = k + 1;
        }
        if same {
            assert(v@.subrange(c as int, c + m) =~= p@);
            proof {
                assert(occurs_at(v@, p@, c as int));
                let w = choose|w: int| occurs_at(v@, p@, w) && forall|j: int| w < j ==> !occurs_at(v@, p@, j);
                if w < c {
                    assert(!occurs_at(v@, p@, c as int));
                }
            }
            return Some(c);
        }
        assert(!occurs_at(v@, p@, c as int)) by {
            if occurs_at(v@, p@, c as int) {
                let t = choose|t: int| 0 <= t < m && v@[c + t] != p@[t];
                assert(v@.subrange(c as int, c + m)[t] == v@[c + t]);
            }
        }
        if c == 0 {
            assert forall|j: int| !occurs_at(v@, p@, j) by {}
            return None;
        }
        c = c - 1;
    }
}

/// `s` without its trailing characters `c`.
pub open spec fn trim_end_char(s: Seq<char>, c: char) -> Seq<char>
    decreases s.len(),
{
    if s.len() > 0 && s.last() == c {
        trim_end_char(s.drop_last(), c)
    } else {
        s
    }
}

/// `s` without its leading characters `c`.
pub open spec fn trim_start_char(s: Seq<char>, c: char) -> Seq<char>
    decreases s.len(),
{
    if s.len() > 0 && s[0] == c {
        trim_start_char(s.drop_first(), c)
    } else {
        s
    }
}

/// The leading decimal digits of `s`.
pub open spec fn take_digits(s: Seq<char>) -> Seq<char>
    decreases s.len(),
{
    if s.len() > 0 && is_digit(s[0]) {
        seq![s[0]] + take_digits(s.drop_first())
    } else {
        seq![]
    }
}

pub fn trim_end_chars(v: &[char], c: char) -> (r: Vec<char>)
    ensures
        r@ == trim_end_char(v@, c),
{
    let mut n = v.len();
    assert(v@.take(n as int) =~= v@);
    while n > 0 && v[n - 1] == c
        invariant
            n <= v@.len(),
            trim_end_char(v@.take(n as int), c) == trim_end_char(v@, c),
        decreases n,
    {
        assert(v@.take(n as int).drop_last() =~= v@.take(n - 1));
        n = n - 1;
    }
    let r = slice_range(v, 0, n);
    assert(r@ =~= v@.take(n as int));
    r
}

pub fn trim_start_chars(v: &[char], c: char) -> (r: Vec<char>)
    ensures
        r@ == trim_start_char(v@, c),
{
    let mut a: usize = 0;
    assert(v@.skip(0) =~= v@);
    while a < v.len() && v[a] == c
        invariant
            a <= v@.len(),
            trim_start_char(v@.skip(a as int), c) == trim_start_char(v@, c),
        decreases v.len() - a,
    {
        assert(v@.skip(a as int).drop_first() =~= v@.skip(a + 1));
        a = a + 1;
    }
    let r = slice_range(v, a, v.len());
    assert(r@ =~= v@.skip(a as int));
    r
}

pub fn leading_digits(v: &[char]) -> (r: Vec<char>)
    ensures
        r@ == take_digits(v@),
{
    let mut e: usize = 0;
    while e < v.len() && '0' <= v[e] && v[e] <= '9'
        invariant
            e <= v@.len(),
            forall|k: int| 0 <= k < e ==> is_digit(#[trigger] v@[k]),
        decreases v.len() - e,
    {
        e = e + 1;
    }
    let r = slice_range(v, 0, e);
    proof {
        lemma_take_digits(v@, e as int);
    }
    r
}

proof fn lemma_take_digits(s: Seq<char>, e: int)
    requires
        0 <= e <= s.len(),
        forall|k: int| 0 <= k < e ==> is_digit(#[trigger] s[k]),
        e == s.len() || !is_digit(s[e]),
    ensures
        take_digits(s) == s.subrange(0, e),
    decreases e,
{
    if e == 0 {
        assert(s.subrange(0, 0) =~= Seq::<char>::empty());
    } else {
        let t = s.drop_first();
        assert forall|k: int| 0 <= k < e - 1 implies is_digit(#[trigger] t[k]) by {
            assert(t[k] == s[k + 1]);
        }
        if e < s.len() {
            assert(t[e - 1] == s[e]);
        }
        lemma_take_digits(t, e - 1);
        assert(seq![s[0]] + t.subrange(0, e - 1) =~= s.subrange(0, e));
    }
}

} // verus!
