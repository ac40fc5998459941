//! Byte strings read from memory: searching, windows, little-endian integers,
//! hexadecimal runs, and UTF-8.
use vstd::prelude::*;
use vstd::slice::slice_subrange;

use crate::text;
use crate::text::char_of_digit;

verus! {

/// `std::str::from_utf8`: a byte slice is text exactly if it is valid UTF-8, and
/// the text is then what the bytes encode.
#[verifier::external_body]
pub(crate) fn utf8_text(bytes: &[u8]) -> (r: Option<String>)
    ensures
        match r {
            Some(s) => vstd::utf8::valid_utf8(bytes@) && s@ == vstd::utf8::decode_utf8(bytes@),
            None => !vstd::utf8::valid_utf8(bytes@),
        },
{
    match std::str::from_utf8(bytes) {
        Ok(s) => Some(s.to_string()),
        Err(_) => None,
    }
}

/// What `String::from_utf8_lossy` makes of a byte string.
pub uninterp spec fn utf8_lossy(bytes: Seq<u8>) -> Seq<char>;

/// The text of a byte string. It rests on `String::from_utf8_lossy` only where the
/// bytes are not valid UTF-8.
pub open spec fn shown(bytes: Seq<u8>) -> Seq<char> {
    if vstd::utf8::valid_utf8(bytes) {
        vstd::utf8::decode_utf8(bytes)
    } else {
        utf8_lossy(bytes)
    }
}

/// `String::from_utf8_lossy`: a function of the bytes, which leaves valid UTF-8
/// as it is. How it marks what is invalid is left to it.
#[verifier::external_body]
pub(crate) fn lossy_text(bytes: &[u8]) -> (r: String)
    ensures
        r@ == utf8_lossy(bytes@),
        vstd::utf8::valid_utf8(bytes@) ==> r@ == vstd::utf8::decode_utf8(bytes@),
{
    String::from_utf8_lossy(bytes).to_string()
}

/// The first occurrence of a non-empty needle from `start` on.
pub open spec fn sub_at(h: Seq<u8>, n: Seq<u8>, start: int) -> Option<int> {
    if n.len() == 0 {
        None
    } else {
        text::first_at(h, n, start)
    }
}

/// Looks for `needle` in `haystack` from `start` on.
pub fn find_sub(haystack: &[u8], needle: &[u8], start: usize) -> (r: Option<usize>)
    ensures
        match r {
            Some(i) => sub_at(haystack@, needle@, start as int) == Some(i as int) && start <= i && i
                + needle@.len() <= haystack@.len() && needle@.len() > 0,
            None => sub_at(haystack@, needle@, start as int) is None,
        },
{
    let n: usize = needle.len();
    if n == 0 || haystack.len() < n {
        return None;
    }
    let last: usize = haystack.len() - n;
    let mut i: usize = start;
    while i <= last
        invariant
            n == needle.len(),
            0 < n <= haystack.len(),
            last == haystack.len() - n,
            start <= i,
            text::first_at(haystack@, needle@, start as int) == text::first_at(
                haystack@,
                needle@,
                i as int,
            ),
        ensures
            text::first_at(haystack@, needle@, start as int) is None,
        decreases last + 1 - i,
    {
        let mut k: usize = 0;
        while k < n && haystack[i + k] == needle[k]
            invariant
                k <= n,
                n == needle.len(),
                i + n <= haystack.len(),
                forall|m: int| 0 <= m < k ==> haystack@[i + m] == needle@[m],
            decreases n - k,
        {
            k += 1;
        }
        if k == n {
            assert(haystack@.subrange(i as int, i + n) == needle@);
            return Some(i);
        }
        assert(haystack@.subrange(i as int, i + n)[k as int] != needle@[k as int]);
        i += 1;
    }
    None
}

/// Looks for `pat` in a window.
pub fn find_in_window(window: &[u8], pat: &[u8]) -> (r: Option<usize>)
    ensures
        match r {
            Some(i) => sub_at(window@, pat@, 0) == Some(i as int) && i + pat@.len() <= window@.len()
                && pat@.len() > 0,
            None => sub_at(window@, pat@, 0) is None,
        },
{
    find_sub(window, pat, 0)
}

/// The last occurrence of a non-empty needle that begins before `end`.
pub open spec fn last_sub_at(h: Seq<u8>, n: Seq<u8>, end: int) -> Option<int>
    decreases end,
{
    if n.len() == 0 || end <= 0 {
        None
    } else if text::occurs_at(h, n, end - 1) {
        Some(end - 1)
    } else {
        last_sub_at(h, n, end - 1)
    }
}

/// Whether `needle` stands at a position of `haystack`.
pub fn stands_at(haystack: &[u8], needle: &[u8], at: usize) -> (r: bool)
    ensures
        r == text::occurs_at(haystack@, needle@, at as int),
{
    if at > haystack.len() || haystack.len() - at < needle.len() {
        return false;
    }
    let n: usize = needle.len();
    let mut k: usize = 0;
    while k < n
        invariant
            k <= n,
            n == needle.len(),
            at + n <= haystack.len(),
            forall|m: int| 0 <= m < k ==> haystack@[at + m] == needle@[m],
        decreases n - k,
    {
        if haystack[at + k] != needle[k] {
            assert(haystack@.subrange(at as int, at + n)[k as int] != needle@[k as int]);
            return false;
        }
        k += 1;
    }
    assert(haystack@.subrange(at as int, at + n) == needle@);
    true
}

/// Looks for the last place of `needle` in `haystack`.
pub fn find_last_sub(haystack: &[u8], needle: &[u8]) -> (r: Option<usize>)
    ensures
        match r {
            Some(i) => last_sub_at(haystack@, needle@, haystack@.len() as int) == Some(i as int) && i
                + needle@.len() <= haystack@.len() && needle@.len() > 0,
            None => last_sub_at(haystack@, needle@, haystack@.len() as int) is None,
        },
{
    if needle.len() == 0 {
        return None;
    }
    let mut end: usize = haystack.len();
    while end > 0
        invariant
            end <= haystack.len(),
            needle.len() > 0,
            last_sub_at(haystack@, needle@, haystack@.len() as int) == last_sub_at(
                haystack@,
                needle@,
                end as int,
            ),
        decreases end,
    {
        if stands_at(haystack, needle, end - 1) {
            return Some(end - 1);
        }
        end -= 1;
    }
    None
}

/// Where a window that reaches `back` bytes before `rel` begins.
pub open spec fn window_start(rel: int, back: int) -> int {
    if rel < back {
        0
    } else {
        rel - back
    }
}

/// Where a window that reaches `fwd` bytes past `rel` ends.
pub open spec fn window_end(len: int, rel: int, fwd: int) -> int {
    if len < rel + fwd {
        len
    } else {
        rel + fwd
    }
}

/// The bytes from `back` before `rel` to `fwd` past it, as far as there are any.
pub open spec fn window_of(data: Seq<u8>, rel: int, back: int, fwd: int) -> Seq<u8> {
    data.subrange(window_start(rel, back), window_end(data.len() as int, rel, fwd))
}

pub fn window(data: &[u8], rel: usize, back: usize, fwd: usize) -> (r: &[u8])
    requires
        window_start(rel as int, back as int) <= data@.len(),
    ensures
        r@ == window_of(data@, rel as int, back as int, fwd as int),
{
    let start: usize = if rel < back {
        0
    } else {
        rel - back
    };
    let end: usize = if data.len() < rel || data.len() - rel < fwd {
        data.len()
    } else {
        rel + fwd
    };
    slice_subrange(data, start, end)
}

/// The value of bytes in little-endian order.
pub open spec fn le_value(b: Seq<u8>) -> int
    decreases b.len(),
{
    if b.len() == 0 {
        0
    } else {
        b[0] as int + 256 * le_value(b.drop_first())
    }
}

/// The `n` bytes of `v` in little-endian order, modulo `256^n`.
pub open spec fn le_bytes(v: int, n: nat) -> Seq<u8>
    decreases n,
{
    if n == 0 {
        seq![]
    } else {
        seq![(v % 256) as u8] + le_bytes(v / 256, (n - 1) as nat)
    }
}

/// Reading back what was laid out in little-endian order gives the value.
pub proof fn lemma_le_round_trip(v: int, n: nat)
    requires
        0 <= v,
    ensures
        le_bytes(v, n).len() == n,
        le_value(le_bytes(v, n)) == v % vstd::arithmetic::power::pow(256, n),
    decreases n,
{
    vstd::arithmetic::power::lemma_pow0(256);
    if n > 0 {
        let rest = le_bytes(v / 256, (n - 1) as nat);
        lemma_le_round_trip(v / 256, (n - 1) as nat);
        assert(le_bytes(v, n).drop_first() == rest);
        let p = vstd::arithmetic::power::pow(256, (n - 1) as nat);
        vstd::arithmetic::power::lemma_pow_positive(256, (n - 1) as nat);
        assert(vstd::arithmetic::power::pow(256, n) == 256 * p) by {
            reveal(vstd::arithmetic::power::pow);
        }
        vstd::arithmetic::div_mod::lemma_mod_breakdown(v, 256, p);
    }
}

/// The four bytes of a 32-bit value, least significant first.
pub fn u32_bytes(v: u32) -> (r: Vec<u8>)
    ensures
        r@ == le_bytes(v as int, 4),
{
    let mut out: Vec<u8> = Vec::new();
    out.push((v % 256) as u8);
    out.push((v / 256 % 256) as u8);
    out.push((v / 65536 % 256) as u8);
    out.push((v / 16777216) as u8);
    proof {
        reveal_with_fuel(le_bytes, 5);
        let a = v as int;
        assert(a / 256 / 256 == a / 65536);
        assert(a / 256 / 256 / 256 == a / 16777216);
        assert(out@ == le_bytes(v as int, 4));
    }
    out
}

/// The eight bytes of a 64-bit value, least significant first.
pub fn u64_bytes(v: u64) -> (r: Vec<u8>)
    ensures
        r@ == le_bytes(v as int, 8),
{
    let mut out: Vec<u8> = Vec::new();
    let mut rest: u64 = v;
    let mut i: usize = 0;
    while i < 8
        invariant
            i <= 8,
            out@ + le_bytes(rest as int, (8 - i) as nat) == le_bytes(v as int, 8),
        decreases 8 - i,
    {
        let ghost before = out@;
        let ghost all = le_bytes(rest as int, (8 - i) as nat);
        out.push((rest % 256) as u8);
        rest = rest / 256;
        i += 1;
        assert(out@ + le_bytes(rest as int, (8 - i) as nat) == before + all);
    }
    assert(out@ + le_bytes(rest as int, 0) == out@);
    out
}

/// The value of four bytes, least significant first.
pub fn u32_at(b: &[u8], at: usize) -> (r: u32)
    requires
        at + 4 <= b@.len(),
    ensures
        r == le_value(b@.subrange(at as int, at + 4)),
{
    proof {
        reveal_with_fuel(le_value, 5);
        let s = b@.subrange(at as int, at + 4);
        assert(s.drop_first() == b@.subrange(at + 1, at + 4));
        assert(s.drop_first().drop_first() == b@.subrange(at + 2, at + 4));
        assert(s.drop_first().drop_first().drop_first() == b@.subrange(at + 3, at + 4));
    }
    b[at] as u32 + 256 * (b[at + 1] as u32 + 256 * (b[at + 2] as u32 + 256 * (b[at + 3] as u32)))
}

/// The value of eight bytes, least significant first.
pub fn u64_at(b: &[u8], at: usize) -> (r: u64)
    requires
        at + 8 <= b@.len(),
    ensures
        r == le_value(b@.subrange(at as int, at + 8)),
{
    assert(at + 8 <= b.len());
    let low: u64 = u32_at(b, at) as u64;
    let high: u64 = u32_at(b, at + 4) as u64;
    proof {
        let s = b@.subrange(at as int, at + 8);
        lemma_le_value_split(s, 4);
        assert(s.take(4) == b@.subrange(at as int, at + 4));
        assert(s.skip(4) == b@.subrange(at + 4, at + 8));
        reveal(vstd::arithmetic::power::pow);
        assert(vstd::arithmetic::power::pow(256, 4) == 4294967296) by {
            reveal_with_fuel(vstd::arithmetic::power::pow, 5);
        }
    }
    low + 4294967296 * high
}

proof fn lemma_le_value_split(s: Seq<u8>, n: nat)
    requires
        n <= s.len(),
    ensures
        le_value(s) == le_value(s.take(n as int)) + vstd::arithmetic::power::pow(256, n) * le_value(
            s.skip(n as int),
        ),
    decreases n,
{
    let p = vstd::arithmetic::power::pow(256, n);
    reveal(vstd::arithmetic::power::pow);
    if n == 0 {
        assert(s.skip(0) == s);
        assert(p == 1);
    } else {
        let t = s.drop_first();
        let q = vstd::arithmetic::power::pow(256, (n - 1) as nat);
        lemma_le_value_split(t, (n - 1) as nat);
        assert(s.take(n as int).drop_first() == t.take(n - 1));
        assert(s.skip(n as int) == t.skip(n - 1));
        assert(p == 256 * q);
        let r = le_value(t.skip(n - 1));
        assert(256 * (q * r) == (256 * q) * r) by (nonlinear_arith);
    }
}

pub open spec fn is_hex(b: u8) -> bool {
    ||| 0x30 <= b <= 0x39
    ||| 0x41 <= b <= 0x46
    ||| 0x61 <= b <= 0x66
}

pub fn hex_byte(b: u8) -> (r: bool)
    ensures
        r == is_hex(b),
{
    (0x30 <= b && b <= 0x39) || (0x41 <= b && b <= 0x46) || (0x61 <= b && b <= 0x66)
}

/// The characters whose codes are the given bytes.
pub open spec fn byte_chars(s: Seq<u8>) -> Seq<char> {
    s.map_values(|b: u8| b as char)
}

pub fn chars_of_bytes(b: &[u8]) -> (r: String)
    ensures
        r@ == byte_chars(b@),
{
    let mut out = String::new();
    let mut i: usize = 0;
    while i < b.len()
        invariant
            i <= b.len(),
            out@ == byte_chars(b@.take(i as int)),
        decreases b.len() - i,
    {
        out.push(b[i] as char);
        i += 1;
        assert(out@ == byte_chars(b@.take(i as int)));
    }
    assert(b@.take(b@.len() as int) == b@);
    out
}

/// The bytes of a text of ASCII characters.
pub open spec fn ascii(s: Seq<char>) -> Seq<u8> {
    s.map_values(|c: char| c as u8)
}

pub fn ascii_of(s: &str) -> (r: Vec<u8>)
    ensures
        r@ == ascii(s@),
{
    let v = text::chars_of(s);
    let mut out: Vec<u8> = Vec::new();
    let mut i: usize = 0;
    while i < v.len()
        invariant
            i <= v.len(),
            out@ == ascii(v@.take(i as int)),
        decreases v.len() - i,
    {
        out.push(v[i] as u8);
        i += 1;
        assert(out@ == ascii(v@.take(i as int)));
    }
    assert(v@.take(v@.len() as int) == v@);
    out
}

/// The number of hexadecimal digits with which `s` begins.
pub open spec fn hex_run(s: Seq<u8>) -> int {
    text::prefix_len(s, |b: u8| is_hex(b))
}

pub fn hex_run_len(s: &[u8]) -> (r: usize)
    ensures
        r == hex_run(s@),
        r <= s@.len(),
{
    let ghost p = |b: u8| is_hex(b);
    let mut i: usize = 0;
    while i < s.len() && hex_byte(s[i])
        invariant
            i <= s.len(),
            p == (|b: u8| is_hex(b)),
            forall|k: int| 0 <= k < i ==> p(#[trigger] s@[k]),
        decreases s.len() - i,
    {
        i += 1;
    }
    proof {
        text::lemma_prefix_len_is(s@, p, i as int);
    }
    i
}

/// Two hexadecimal digits for each byte.
pub open spec fn hex_pairs(s: Seq<u8>, upper: bool) -> Seq<char>
    decreases s.len(),
{
    if s.len() == 0 {
        seq![]
    } else {
        hex_pairs(s.drop_last(), upper) + seq![
            text::digit_char(s.last() as int / 16, upper),
            text::digit_char(s.last() as int % 16, upper),
        ]
    }
}

pub fn hex_pairs_of(b: &[u8], upper: bool) -> (r: String)
    ensures
        r@ == hex_pairs(b@, upper),
{
    let mut out = String::new();
    let mut i: usize = 0;
    while i < b.len()
        invariant
            i <= b.len(),
            out@ == hex_pairs(b@.take(i as int), upper),
        decreases b.len() - i,
    {
        let ghost before = out@;
        out.push(char_of_digit(b[i] as u64 / 16, upper));
        out.push(char_of_digit(b[i] as u64 % 16, upper));
        i += 1;
        assert(b@.take(i as int).drop_last() == b@.take(i - 1));
        assert(out@ == before + seq![
            text::digit_char(b@[i - 1] as int / 16, upper),
            text::digit_char(b@[i - 1] as int % 16, upper),
        ]);
    }
    assert(b@.take(b@.len() as int) == b@);
    out
}

/// Whether two byte strings are equal.
pub fn same_bytes(a: &[u8], b: &[u8]) -> (r: bool)
    ensures
        r == (a@ == b@),
{
    if a.len() != b.len() {
        return false;
    }
    let mut i: usize = 0;
    while i < a.len()
        invariant
            i <= a.len(),
            a@.len() == b@.len(),
            forall|k: int| 0 <= k < i ==> a@[k] == b@[k],
        decreases a.len() - i,
    {
        if a[i] != b[i] {
            return false;
        }
        i += 1;
    }
    assert(a@ == b@);
    true
}

pub open spec fn opt_seq<A>(o: Option<A>) -> Seq<A> {
    match o {
        Some(a) => seq![a],
        None => seq![],
    }
}

/// What `f` makes of the occurrences of `n` in `h` from `start` on, in order.
pub open spec fn found<A>(
    h: Seq<u8>,
    n: Seq<u8>,
    f: spec_fn(int) -> Option<A>,
    start: int,
) -> Seq<A>
    decreases h.len() + 1 - start,
{
    if n.len() == 0 || start + n.len() > h.len() {
        seq![]
    } else if text::occurs_at(h, n, start) {
        opt_seq(f(start)) + found(h, n, f, start + 1)
    } else {
        found(h, n, f, start + 1)
    }
}

/// What is found from `start` on begins with the first occurrence.
pub proof fn lemma_found_next<A>(h: Seq<u8>, n: Seq<u8>, f: spec_fn(int) -> Option<A>, start: int)
    ensures
        match sub_at(h, n, start) {
            Some(i) => found(h, n, f, start) == opt_seq(f(i)) + found(h, n, f, i + 1),
            None => found(h, n, f, start) == Seq::<A>::empty(),
        },
    decreases h.len() + 1 - start,
{
    if n.len() != 0 && start + n.len() <= h.len() && !text::occurs_at(h, n, start) {
        lemma_found_next(h, n, f, start + 1);
    }
}

/// A copy of some bytes.
pub fn copy_of(b: &[u8]) -> (r: Vec<u8>)
    ensures
        r@ == b@,
{
    let mut out: Vec<u8> = Vec::new();
    let mut i: usize = 0;
    while i < b.len()
        invariant
            i <= b.len(),
            out@ == b@.take(i as int),
        decreases b.len() - i,
    {
        out.push(b[i]);
        assert(out@ == b@.take(i + 1));
        i += 1;
    }
    assert(b@.take(i as int) == b@);
    out
}

/// The least byte comes first: each byte weighs 256 times the one before it.
pub proof fn lemma_le_weights(a: u8, rest: Seq<u8>, v: int, n: nat)
    requires
        0 <= v,
        n > 0,
    ensures
        le_value(seq![a] + rest) == a + 256 * le_value(rest),
        le_value(seq![a]) == a,
        le_value(Seq::<u8>::empty()) == 0,
        le_bytes(v, n).len() == n,
        le_bytes(v, n)[0] == v % 256,
        le_bytes(v, n).drop_first() == le_bytes(v / 256, (n - 1) as nat),
{
    lemma_le_round_trip(v, n);
    assert((seq![a] + rest).drop_first() =~= rest);
    assert(seq![a].drop_first() =~= Seq::<u8>::empty());
    assert(le_value(seq![a].drop_first()) == 0);
    assert(le_bytes(v, n).drop_first() =~= le_bytes(v / 256, (n - 1) as nat));
}

/// A number of 32 bits is what its four bytes give, and one of 64 bits what its eight.
pub proof fn lemma_words_read_back(a: u32, b: u64)
    ensures
        le_value(le_bytes(a as int, 4)) == a,
        le_value(le_bytes(b as int, 8)) == b,
        le_bytes(a as int, 4).len() == 4,
        le_bytes(b as int, 8).len() == 8,
{
    lemma_le_round_trip(a as int, 4);
    lemma_le_round_trip(b as int, 8);
    reveal_with_fuel(vstd::arithmetic::power::pow, 9);
    assert(vstd::arithmetic::power::pow(256, 4) == 0x1_0000_0000);
    assert(vstd::arithmetic::power::pow(256, 8) == 0x1_0000_0000_0000_0000);
}

/// A pair of digits writes each byte, the high half first, in the case asked for.
pub proof fn lemma_hex_pairs_write(s: Seq<u8>, upper: bool, i: int)
    requires
        0 <= i < s.len(),
    ensures
        hex_pairs(s, upper).len() == 2 * s.len(),
        text::digit_value(hex_pairs(s, upper)[2 * i]) * 16 + text::digit_value(
            hex_pairs(s, upper)[2 * i + 1],
        ) == s[i],
        upper ==> !('a' <= hex_pairs(s, upper)[2 * i] <= 'f') && !('a' <= hex_pairs(s, upper)[2 * i
            + 1] <= 'f'),
        !upper ==> !('A' <= hex_pairs(s, upper)[2 * i] <= 'F') && !('A' <= hex_pairs(s, upper)[2 * i
            + 1] <= 'F'),
    decreases s.len(),
{
    let t = s.drop_last();
    if t.len() > 0 {
        if i < t.len() {
            lemma_hex_pairs_write(t, upper, i);
        } else {
            lemma_hex_pairs_write(t, upper, 0);
        }
    } else {
        assert(hex_pairs(t, upper).len() == 0);
    }
    let h = s.last() as int / 16;
    let l = s.last() as int % 16;
    assert(text::digit_value(text::digit_char(h, upper)) == h);
    assert(text::digit_value(text::digit_char(l, upper)) == l);
    let all = hex_pairs(s, upper);
    let rest = hex_pairs(t, upper);
    assert(all == rest + seq![text::digit_char(h, upper), text::digit_char(l, upper)]);
    if i < t.len() {
        assert(all[2 * i] == rest[2 * i] && all[2 * i + 1] == rest[2 * i + 1]);
    } else {
        assert(all[2 * i] == text::digit_char(h, upper));
        assert(all[2 * i + 1] == text::digit_char(l, upper));
    }
}

/// A byte is a hexadecimal digit where its character stands for a value.
pub proof fn lemma_hex_digits(b: u8)
    ensures
        is_hex(b) <==> text::digit_value(b as char) >= 0,
{
}

/// The last place of a text is found: it stands there, and nowhere further on.
pub proof fn lemma_last_place(h: Seq<u8>, n: Seq<u8>, end: int)
    requires
        n.len() > 0,
    ensures
        match last_sub_at(h, n, end) {
            Some(i) => 0 <= i < end && i + n.len() <= h.len() && h.subrange(i, i + n.len()) == n
                && forall|k: int|
                i < k < end && k + n.len() <= h.len() ==> #[trigger] h.subrange(k, k + n.len())
                    != n,
            None => forall|k: int|
                0 <= k < end && k + n.len() <= h.len() ==> #[trigger] h.subrange(k, k + n.len())
                    != n,
        },
    decreases end,
{
    if end > 0 && !text::occurs_at(h, n, end - 1) {
        lemma_last_place(h, n, end - 1);
        assert(end - 1 + n.len() <= h.len() ==> h.subrange(end - 1, end - 1 + n.len()) != n);
    }
}

/// Nothing is passed over: each place from `start` on at which the text stands, and from
/// which something can be read, gives what is read there.
pub proof fn lemma_found_complete<A>(
    h: Seq<u8>,
    n: Seq<u8>,
    f: spec_fn(int) -> Option<A>,
    start: int,
    i: int,
    a: A,
)
    requires
        n.len() > 0,
        0 <= start <= i,
        i + n.len() <= h.len(),
        h.subrange(i, i + n.len()) == n,
        f(i) == Some(a),
    ensures
        found(h, n, f, start).contains(a),
    decreases i - start,
{
    let all = found(h, n, f, start);
    if start == i {
        assert(text::occurs_at(h, n, start));
        assert(opt_seq(f(start))[0] == a);
        assert(all[0] == a);
    } else {
        lemma_found_complete(h, n, f, start + 1, i, a);
        let rest = found(h, n, f, start + 1);
        let k = rest.index_of(a);
        if text::occurs_at(h, n, start) {
            let first = opt_seq(f(start));
            assert(all == first + rest);
            assert(all[first.len() + k] == a);
        }
    }
}

/// Nothing is made up: what is found was read at a place at which the text stands.
pub proof fn lemma_found_sound<A>(
    h: Seq<u8>,
    n: Seq<u8>,
    f: spec_fn(int) -> Option<A>,
    start: int,
    a: A,
)
    requires
        0 <= start,
        found(h, n, f, start).contains(a),
    ensures
        exists|i: int|
            start <= i <= h.len() - n.len() && #[trigger] h.subrange(i, i + n.len()) == n && f(i)
                == Some(a),
    decreases h.len() + 1 - start,
{
    let all = found(h, n, f, start);
    let j = all.index_of(a);
    assert(all[j] == a);
    let rest = found(h, n, f, start + 1);
    if text::occurs_at(h, n, start) && f(start) == Some(a) {
        assert(h.subrange(start, start + n.len()) == n);
    } else {
        if text::occurs_at(h, n, start) {
            let first = opt_seq(f(start));
            assert(all == first + rest);
            if j < first.len() {
                assert(first[j] == a);
            } else {
                assert(rest[j - first.len()] == a);
            }
        }
        lemma_found_sound(h, n, f, start + 1, a);
    }
}

/// A window reaches back and on from a place, and stops at the ends of the data.
pub proof fn lemma_window(data: Seq<u8>, rel: int, back: int, fwd: int)
    requires
        0 <= rel <= data.len(),
        0 <= back,
        0 <= fwd,
    ensures
        forall|i: int|
            0 <= i < data.len() && rel - back <= i < rel + fwd ==> window_start(rel, back) <= i
                < window_end(data.len() as int, rel, fwd) && window_of(data, rel, back, fwd)[i
                - window_start(rel, back)] == #[trigger] data[i],
        forall|k: int|
            0 <= k < window_of(data, rel, back, fwd).len() ==> rel - back <= window_start(rel, back)
                + k < rel + fwd && #[trigger] window_of(data, rel, back, fwd)[k]
                == data[window_start(rel, back) + k],
{
}

proof fn lemma_ascii_char(c: char)
    requires
        c < '\u{80}',
    ensures
        (c as u8) as char == c,
{
}

/// An ASCII text has one byte for each character, and the bytes give it back.
pub proof fn lemma_ascii_reads_back(s: Seq<char>)
    requires
        forall|i: int| 0 <= i < s.len() ==> #[trigger] s[i] < '\u{80}',
    ensures
        byte_chars(ascii(s)) == s,
        ascii(s).len() == s.len(),
{
    assert forall|i: int| 0 <= i < s.len() implies byte_chars(ascii(s))[i] == s[i] by {
        lemma_ascii_char(s[i]);
    }
    assert(byte_chars(ascii(s)) =~= s);
}

/// What may be there is a list of one where it is, and an empty one where it is not.
pub proof fn lemma_opt_seq<A>(a: A)
    ensures
        opt_seq(Some(a)) == seq![a],
        opt_seq::<A>(None).len() == 0,
{
}

} // verus!
