//! Text as sequences of characters: trimming, splitting, searching, and the
//! decimal and hexadecimal forms of integers.
use vstd::prelude::*;
use vstd::slice::slice_subrange;

verus! {

/// `String::push` appends the given character to the end of the string.
pub assume_specification[ String::push ](s: &mut String, c: char)
    ensures
        final(s)@ == old(s)@.push(c),
;

/// The length of the longest prefix of `s` whose elements all satisfy `p`.
pub open spec fn prefix_len<A>(s: Seq<A>, p: spec_fn(A) -> bool) -> int
    decreases s.len(),
{
    if s.len() == 0 || !p(s[0]) {
        0
    } else {
        1 + prefix_len(s.drop_first(), p)
    }
}

/// What `prefix_len` measures: `p` holds up to it and fails right behind it.
pub proof fn lemma_prefix_len<A>(s: Seq<A>, p: spec_fn(A) -> bool)
    ensures
        0 <= prefix_len(s, p) <= s.len(),
        forall|i: int| 0 <= i < prefix_len(s, p) ==> p(#[trigger] s[i]),
        prefix_len(s, p) < s.len() ==> !p(s[prefix_len(s, p)]),
    decreases s.len(),
{
    if s.len() != 0 && p(s[0]) {
        let t = s.drop_first();
        lemma_prefix_len(t, p);
        assert forall|i: int| 0 <= i < prefix_len(s, p) implies p(#[trigger] s[i]) by {
            if i > 0 {
                assert(s[i] == t[i - 1]);
            }
        }
    }
}

/// A length with those two properties is `prefix_len`.
pub proof fn lemma_prefix_len_is<A>(s: Seq<A>, p: spec_fn(A) -> bool, n: int)
    requires
        0 <= n <= s.len(),
        forall|i: int| 0 <= i < n ==> p(#[trigger] s[i]),
        n < s.len() ==> !p(s[n]),
    ensures
        prefix_len(s, p) == n,
{
    lemma_prefix_len(s, p);
    let m = prefix_len(s, p);
    if m < n {
        assert(p(s[m]));
    } else if n < m {
        assert(p(s[n]));
    }
}

/// The characters of a string.
pub fn chars_of(s: &str) -> (r: Vec<char>)
    ensures
        r@ == s@,
{
    let mut out: Vec<char> = Vec::new();
    for c in it: s.chars()
        invariant
            it.seq() == s@,
            out@ == it.seq().take(it.index() as int),
    {
        out.push(c);
    }
    assert(s@.take(s@.len() as int) == s@);
    out
}

/// The string made of some characters.
pub fn string_of(v: &[char]) -> (r: String)
    ensures
        r@ == v@,
{
    let mut out = String::new();
    let mut i: usize = 0;
    while i < v.len()
        invariant
            i <= v.len(),
            out@ == v@.take(i as int),
        decreases v.len() - i,
    {
        out.push(v[i]);
        i += 1;
        assert(v@.take(i as int) == v@.take(i - 1).push(v@[i - 1]));
    }
    assert(v@.take(v@.len() as int) == v@);
    out
}

/// Whether some characters are exactly those of a string.
pub fn same_text(v: &[char], s: &str) -> (r: bool)
    ensures
        r == (v@ == s@),
{
    let w = chars_of(s);
    if v.len() != w.len() {
        return false;
    }
    let mut i: usize = 0;
    while i < v.len()
        invariant
            i <= v.len(),
            w@ == s@,
            v@.len() == w@.len(),
            forall|k: int| 0 <= k < i ==> v@[k] == w@[k],
        decreases v.len() - i,
    {
        if v[i] != w[i] {
            return false;
        }
        i += 1;
    }
    assert(v@ == w@);
    true
}

/// The characters with Unicode's White_Space property.
pub open spec fn is_space(c: char) -> bool {
    let n = c as u32;
    ||| 0x09 <= n <= 0x0D
    ||| n == 0x20
    ||| n == 0x85
    ||| n == 0xA0
    ||| n == 0x1680
    ||| 0x2000 <= n <= 0x200A
    ||| n == 0x2028
    ||| n == 0x2029
    ||| n == 0x202F
    ||| n == 0x205F
    ||| n == 0x3000
}

pub fn space_char(c: char) -> (r: bool)
    ensures
        r == is_space(c),
{
    let n: u32 = c as u32;
    (0x09 <= n && n <= 0x0D) || n == 0x20 || n == 0x85 || n == 0xA0 || n == 0x1680 || (0x2000 <= n
        && n <= 0x200A) || n == 0x2028 || n == 0x2029 || n == 0x202F || n == 0x205F || n == 0x3000
}

pub open spec fn trim_start(s: Seq<char>) -> Seq<char> {
    s.skip(prefix_len(s, |c: char| is_space(c)))
}

pub open spec fn trim_end(s: Seq<char>) -> Seq<char>
    decreases s.len(),
{
    if s.len() != 0 && is_space(s.last()) {
        trim_end(s.drop_last())
    } else {
        s
    }
}

/// A text without the white space at its two ends.
pub open spec fn trim(s: Seq<char>) -> Seq<char> {
    trim_end(trim_start(s))
}

/// White space at the end makes no difference to `trim`.
pub proof fn lemma_trim_drop_last(s: Seq<char>)
    requires
        s.len() != 0,
        is_space(s.last()),
    ensures
        trim(s.drop_last()) == trim(s),
{
    let p = |c: char| is_space(c);
    let t = s.drop_last();
    let n = prefix_len(s, p);
    lemma_prefix_len(s, p);
    if n == s.len() {
        assert forall|i: int| 0 <= i < t.len() implies p(#[trigger] t[i]) by {
            assert(p(s[i]));
        }
        lemma_prefix_len_is(t, p, t.len() as int);
        assert(s.skip(n) == t.skip(t.len() as int));
    } else {
        assert(!p(s[n]) && p(s[s.len() - 1]));
        assert forall|i: int| 0 <= i < n implies p(#[trigger] t[i]) by {
            assert(p(s[i]));
        }
        lemma_prefix_len_is(t, p, n);
        assert(s.skip(n).drop_last() == t.skip(n));
        assert(s.skip(n).last() == s.last());
    }
}

pub fn trimmed(v: &[char]) -> (r: &[char])
    ensures
        r@ == trim(v@),
{
    let ghost p = |c: char| is_space(c);
    let mut a: usize = 0;
    while a < v.len() && space_char(v[a])
        invariant
            a <= v.len(),
            p == (|c: char| is_space(c)),
            forall|i: int| 0 <= i < a ==> p(#[trigger] v@[i]),
        decreases v.len() - a,
    {
        a += 1;
    }
    proof {
        lemma_prefix_len_is(v@, p, a as int);
    }
    let mut b: usize = v.len();
    assert(v@.subrange(a as int, b as int) == v@.skip(a as int));
    while b > a && space_char(v[b - 1])
        invariant
            a <= b <= v.len(),
            trim_end(v@.subrange(a as int, b as int)) == trim(v@),
        decreases b,
    {
        let ghost t = v@.subrange(a as int, b as int);
        assert(t.drop_last() == v@.subrange(a as int, b - 1));
        b -= 1;
    }
    slice_subrange(v, a, b)
}

/// The words of a text: its maximal runs of characters that are not white
/// space, in order.
pub open spec fn words(s: Seq<char>) -> Seq<Seq<char>>
    decreases s.len(),
{
    if s.len() == 0 {
        seq![]
    } else if is_space(s[0]) {
        words(s.drop_first())
    } else {
        let n = prefix_len(s, |c: char| !is_space(c));
        proof {
            lemma_prefix_len(s, |c: char| !is_space(c));
        }
        seq![s.take(n)] + words(s.skip(n))
    }
}

/// The contents of a list of strings.
pub open spec fn views(v: Seq<String>) -> Seq<Seq<char>> {
    v.map_values(|s: String| s@)
}

pub fn split_words(v: &[char]) -> (r: Vec<String>)
    ensures
        views(r@) == words(v@),
{
    let ghost q = |c: char| !is_space(c);
    let mut out: Vec<String> = Vec::new();
    let mut i: usize = 0;
    assert(v@.skip(0) == v@);
    while i < v.len()
        invariant
            i <= v.len(),
            q == (|c: char| !is_space(c)),
            views(out@) + words(v@.skip(i as int)) == words(v@),
        decreases v.len() - i,
    {
        let ghost t = v@.skip(i as int);
        if space_char(v[i]) {
            assert(t.drop_first() == v@.skip(i + 1));
            i += 1;
        } else {
            let start: usize = i;
            while i < v.len() && !space_char(v[i])
                invariant
                    start <= i <= v.len(),
                    start < v.len(),
                    q == (|c: char| !is_space(c)),
                    t == v@.skip(start as int),
                    forall|k: int| 0 <= k < i - start ==> q(#[trigger] t[k]),
                    !is_space(v@[start as int]),
                ensures
                    start < i <= v.len(),
                    forall|k: int| 0 <= k < i - start ==> q(#[trigger] t[k]),
                    i < v.len() ==> is_space(v@[i as int]),
                decreases v.len() - i,
            {
                assert(t[i - start] == v@[i as int]);
                i += 1;
            }
            let ghost before = out@;
            proof {
                if i < v.len() {
                    assert(t[i - start] == v@[i as int]);
                }
                lemma_prefix_len_is(t, q, i - start);
                assert(t.take(i - start) == v@.subrange(start as int, i as int));
                assert(t.skip(i - start) == v@.skip(i as int));
            }
            out.push(string_of(slice_subrange(v, start, i)));
            assert(views(out@) == views(before).push(t.take(i - start)));
            assert(views(out@) + words(v@.skip(i as int)) == views(before) + (seq![t.take(i - start)]
                + words(v@.skip(i as int))));
        }
    }
    assert(v@.skip(v@.len() as int) == Seq::<char>::empty());
    assert(views(out@) + words(Seq::<char>::empty()) == views(out@));
    out
}

/// A line without the carriage return that may end it.
pub open spec fn strip_cr(s: Seq<char>) -> Seq<char> {
    if s.len() != 0 && s.last() == '\r' {
        s.drop_last()
    } else {
        s
    }
}

/// The lines of a text. A line ends at a line feed, with or without a carriage
/// return before it; the last one may lack its line feed.
pub open spec fn lines(s: Seq<char>) -> Seq<Seq<char>>
    decreases s.len(),
{
    let n = prefix_len(s, |c: char| c != '\n');
    if s.len() == 0 {
        seq![]
    } else if n < 0 || n >= s.len() {
        seq![s]
    } else {
        seq![strip_cr(s.take(n))] + lines(s.skip(n + 1))
    }
}

pub fn split_lines(v: &[char]) -> (r: Vec<String>)
    ensures
        views(r@) == lines(v@),
{
    let ghost q = |c: char| c != '\n';
    let mut out: Vec<String> = Vec::new();
    let mut i: usize = 0;
    assert(v@.skip(0) == v@);
    while i < v.len()
        invariant
            i <= v.len(),
            q == (|c: char| c != '\n'),
            views(out@) + lines(v@.skip(i as int)) == lines(v@),
        decreases v.len() - i,
    {
        let ghost t = v@.skip(i as int);
        let ghost before = out@;
        let start: usize = i;
        while i < v.len() && v[i] != '\n'
            invariant
                start <= i <= v.len(),
                start < v.len(),
                q == (|c: char| c != '\n'),
                t == v@.skip(start as int),
                forall|k: int| 0 <= k < i - start ==> q(#[trigger] t[k]),
            ensures
                start <= i <= v.len(),
                forall|k: int| 0 <= k < i - start ==> q(#[trigger] t[k]),
                i < v.len() ==> v@[i as int] == '\n',
            decreases v.len() - i,
        {
            assert(t[i - start] == v@[i as int]);
            i += 1;
        }
        proof {
            if i < v.len() {
                assert(t[i - start] == v@[i as int]);
            }
            lemma_prefix_len_is(t, q, i - start);
            assert(t.take(i - start) == v@.subrange(start as int, i as int));
        }
        if i == v.len() {
            assert(v@.subrange(start as int, i as int) == t);
            out.push(string_of(slice_subrange(v, start, i)));
            assert(views(out@) == views(before).push(t));
            assert(views(out@) == views(before) + seq![t]);
            assert(v@.skip(i as int) == Seq::<char>::empty());
            assert(views(out@) + lines(v@.skip(i as int)) == views(out@));
        } else {
            let end: usize = if i > start && v[i - 1] == '\r' {
                i - 1
            } else {
                i
            };
            assert(v@.subrange(start as int, end as int) == strip_cr(t.take(i - start)));
            out.push(string_of(slice_subrange(v, start, end)));
            assert(views(out@) == views(before).push(strip_cr(t.take(i - start))));
            assert(t.skip(i - start + 1) == v@.skip(i + 1));
            i += 1;
            assert(views(out@) + lines(v@.skip(i as int)) == views(before) + (seq![
                strip_cr(t.take(i - 1 - start)),
            ] + lines(v@.skip(i as int))));
        }
    }
    assert(v@.skip(v@.len() as int) == Seq::<char>::empty());
    assert(views(out@) + lines(Seq::<char>::empty()) == views(out@));
    out
}

/// The lower-case form of an ASCII capital; any other character as it is.
pub open spec fn ascii_lower(c: char) -> char {
    if 'A' <= c <= 'Z' {
        (c as u32 + 32) as char
    } else {
        c
    }
}

pub open spec fn ascii_lower_all(s: Seq<char>) -> Seq<char> {
    s.map_values(|c: char| ascii_lower(c))
}

pub fn lower_char(c: char) -> (r: char)
    ensures
        r == ascii_lower(c),
{
    if 'A' <= c && c <= 'Z' {
        let b: u8 = c as u8;
        (b + 32) as char
    } else {
        c
    }
}

pub fn lowered(v: &[char]) -> (r: Vec<char>)
    ensures
        r@ == ascii_lower_all(v@),
{
    let mut out: Vec<char> = Vec::new();
    let mut i: usize = 0;
    while i < v.len()
        invariant
            i <= v.len(),
            out@ == ascii_lower_all(v@.take(i as int)),
        decreases v.len() - i,
    {
        out.push(lower_char(v[i]));
        i += 1;
        assert(out@ == ascii_lower_all(v@.take(i as int)));
    }
    assert(v@.take(v@.len() as int) == v@);
    out
}

/// Whether `n` stands in `h` at position `i`.
pub open spec fn occurs_at<A>(h: Seq<A>, n: Seq<A>, i: int) -> bool {
    0 <= i && i + n.len() <= h.len() && h.subrange(i, i + n.len()) == n
}

/// The first position from `start` on at which `n` stands in `h`.
pub open spec fn first_at<A>(h: Seq<A>, n: Seq<A>, start: int) -> Option<int>
    decreases h.len() + 1 - start,
{
    if start + n.len() > h.len() {
        None
    } else if occurs_at(h, n, start) {
        Some(start)
    } else {
        first_at(h, n, start + 1)
    }
}

pub proof fn lemma_first_at<A>(h: Seq<A>, n: Seq<A>, start: int)
    requires
        0 <= start,
    ensures
        match first_at(h, n, start) {
            Some(i) => start <= i && occurs_at(h, n, i) && forall|k: int|
                start <= k < i ==> !occurs_at(h, n, k),
            None => forall|k: int| start <= k ==> !occurs_at(h, n, k),
        },
    decreases h.len() + 1 - start,
{
    if start + n.len() <= h.len() && !occurs_at(h, n, start) {
        lemma_first_at(h, n, start + 1);
    }
}

/// Whether `n` stands anywhere in `h`.
pub open spec fn contains<A>(h: Seq<A>, n: Seq<A>) -> bool {
    exists|i: int| occurs_at(h, n, i)
}

pub fn find_text(h: &[char], n: &[char]) -> (r: Option<usize>)
    ensures
        match r {
            Some(i) => first_at(h@, n@, 0) == Some(i as int) && i + n@.len() <= h@.len(),
            None => first_at(h@, n@, 0) is None,
        },
{
    let mut i: usize = 0;
    while i <= h.len() && n.len() <= h.len() - i
        invariant
            i <= h.len() + 1,
            first_at(h@, n@, 0) == first_at(h@, n@, i as int),
        decreases h.len() + 1 - i,
    {
        let mut k: usize = 0;
        while k < n.len() && h[i + k] == n[k]
            invariant
                k <= n.len(),
                i + n.len() <= h.len(),
                forall|m: int| 0 <= m < k ==> h@[i + m] == n@[m],
            decreases n.len() - k,
        {
            k += 1;
        }
        if k == n.len() {
            assert(h@.subrange(i as int, i + n@.len()) == n@);
            return Some(i);
        }
        assert(h@.subrange(i as int, i + n@.len())[k as int] != n@[k as int]);
        if i == h.len() {
            return None;
        }
        i += 1;
    }
    None
}

pub fn has_text(h: &[char], n: &str) -> (r: bool)
    ensures
        r == contains(h@, n@),
{
    let w = chars_of(n);
    proof {
        lemma_first_at(h@, n@, 0);
    }
    let r = find_text(h, w.as_slice());
    proof {
        if contains(h@, n@) {
            let i = choose|i: int| occurs_at(h@, n@, i);
            assert(occurs_at(h@, n@, i));
        }
    }
    r.is_some()
}

/// The character of a digit in a base up to sixteen.
pub open spec fn digit_char(d: int, upper: bool) -> char {
    if d < 10 {
        (48 + d) as char
    } else if upper {
        (55 + d) as char
    } else {
        (87 + d) as char
    }
}

pub fn char_of_digit(d: u64, upper: bool) -> (r: char)
    requires
        d < 16,
    ensures
        r == digit_char(d as int, upper),
{
    let b: u8 = d as u8;
    if d < 10 {
        (48 + b) as char
    } else if upper {
        (55 + b) as char
    } else {
        (87 + b) as char
    }
}

/// The numeral of `n` in a base, without leading zeros.
pub open spec fn numeral(n: int, base: int, upper: bool) -> Seq<char>
    decreases n,
{
    if base < 2 || n < base {
        seq![digit_char(n, upper)]
    } else {
        proof {
            assert(0 <= n / base < n) by (nonlinear_arith)
                requires
                    n >= base >= 2,
            ;
        }
        numeral(n / base, base, upper).push(digit_char(n % base, upper))
    }
}

/// `s` with zeros before it up to a width.
pub open spec fn zero_padded(s: Seq<char>, width: int) -> Seq<char> {
    if s.len() >= width {
        s
    } else {
        Seq::new((width - s.len()) as nat, |i: int| '0') + s
    }
}

pub open spec fn dec(n: int) -> Seq<char> {
    numeral(n, 10, false)
}

pub open spec fn hex_upper(n: int) -> Seq<char> {
    numeral(n, 16, true)
}

pub fn numeral_of(n: u64, base: u64, upper: bool) -> (r: String)
    requires
        2 <= base <= 16,
    ensures
        r@ == numeral(n as int, base as int, upper),
    decreases n,
{
    if n < base {
        let mut s = String::new();
        s.push(char_of_digit(n, upper));
        s
    } else {
        assert(n / base < n) by (nonlinear_arith)
            requires
                n >= base >= 2,
        ;
        let mut s = numeral_of(n / base, base, upper);
        s.push(char_of_digit(n % base, upper));
        s
    }
}

pub fn dec_of(n: u64) -> (r: String)
    ensures
        r@ == dec(n as int),
{
    numeral_of(n, 10, false)
}

pub fn hex_of(n: u64) -> (r: String)
    ensures
        r@ == hex_upper(n as int),
{
    numeral_of(n, 16, true)
}

/// The numeral of `n`, padded with zeros to a width.
pub fn padded_of(n: u64, base: u64, upper: bool, width: usize) -> (r: String)
    requires
        2 <= base <= 16,
    ensures
        r@ == zero_padded(numeral(n as int, base as int, upper), width as int),
{
    let s = numeral_of(n, base, upper);
    let len: usize = s.as_str().unicode_len();
    if len >= width {
        return s;
    }
    let mut out = String::new();
    let mut i: usize = len;
    while i < width
        invariant
            len <= i <= width,
            out@ == Seq::new((i - len) as nat, |k: int| '0'),
        decreases width - i,
    {
        out.push('0');
        i += 1;
        assert(out@ == Seq::new((i - len) as nat, |k: int| '0'));
    }
    out.append(s.as_str());
    out
}

pub open spec fn is_digit(c: char) -> bool {
    '0' <= c <= '9'
}

/// The value of a string of decimal digits.
pub open spec fn decimal_value(s: Seq<char>) -> int
    decreases s.len(),
{
    if s.len() == 0 {
        0
    } else {
        decimal_value(s.drop_last()) * 10 + (s.last() as int - 48)
    }
}

/// A text without the plus sign before a number.
pub open spec fn without_plus(s: Seq<char>) -> Seq<char> {
    if s.len() > 1 && s[0] == '+' {
        s.drop_first()
    } else {
        s
    }
}

pub open spec fn all_digits(s: Seq<char>) -> bool {
    forall|i: int| 0 <= i < s.len() ==> is_digit(#[trigger] s[i])
}

/// The unsigned number that a text denotes: digits, with an optional plus sign
/// before them, whose value is at most `max`.
pub open spec fn parse_unsigned(s: Seq<char>, max: int) -> Option<int> {
    let body = without_plus(s);
    if body.len() != 0 && all_digits(body) && decimal_value(body) <= max {
        Some(decimal_value(body))
    } else {
        None
    }
}

proof fn lemma_decimal_value_prefix(s: Seq<char>, n: int)
    requires
        0 <= n <= s.len(),
        all_digits(s),
    ensures
        0 <= decimal_value(s.take(n)) <= decimal_value(s),
    decreases s.len(),
{
    if n == s.len() {
        assert(s.take(n) == s);
        if n > 0 {
            let t = s.drop_last();
            lemma_decimal_value_prefix(t, t.len() as int);
            assert(t.take(t.len() as int) == t);
            assert(is_digit(s[s.len() - 1]));
        }
    } else {
        let t = s.drop_last();
        lemma_decimal_value_prefix(t, n);
        assert(t.take(n) == s.take(n));
        assert(is_digit(s[s.len() - 1]));
    }
}

pub fn number_of(v: &[char], max: u64) -> (r: Option<u64>)
    ensures
        match r {
            Some(n) => parse_unsigned(v@, max as int) == Some(n as int),
            None => parse_unsigned(v@, max as int) is None,
        },
{
    let start: usize = if v.len() > 1 && v[0] == '+' {
        1
    } else {
        0
    };
    let ghost body = without_plus(v@);
    assert(body == v@.skip(start as int));
    if start == v.len() {
        return None;
    }
    let mut n: u64 = 0;
    let mut i: usize = start;
    while i < v.len()
        invariant
            start <= i <= v.len(),
            body == v@.skip(start as int),
            body == without_plus(v@),
            n == decimal_value(body.take(i - start)),
            n <= max,
            forall|k: int| 0 <= k < i - start ==> is_digit(#[trigger] body[k]),
        decreases v.len() - i,
    {
        let c = v[i];
        assert(body[i - start] == c);
        if !('0' <= c && c <= '9') {
            assert(!is_digit(body[i - start]));
            return None;
        }
        let d: u64 = c as u64 - 48;
        assert(body.take(i - start + 1).drop_last() == body.take(i - start));
        assert(decimal_value(body.take(i - start + 1)) == n * 10 + d);
        let next: u128 = n as u128 * 10 + d as u128;
        if next > max as u128 {
            proof {
                if all_digits(body) {
                    lemma_decimal_value_prefix(body, i - start + 1);
                }
            }
            return None;
        }
        n = next as u64;
        i += 1;
    }
    assert(body.take(body.len() as int) == body);
    Some(n)
}

/// A string with the given content.
pub fn text_of(s: &str) -> (r: String)
    ensures
        r@ == s@,
{
    let mut out = String::new();
    out.append(s);
    assert(out@ == s@);
    out
}

/// Two texts, one behind the other.
pub fn cat2(a: &str, b: &str) -> (r: String)
    ensures
        r@ == a@ + b@,
{
    let mut out = text_of(a);
    out.append(b);
    out
}

/// Three texts, one behind the other.
pub fn cat3(a: &str, b: &str, c: &str) -> (r: String)
    ensures
        r@ == a@ + b@ + c@,
{
    let mut out = text_of(a);
    out.append(b);
    out.append(c);
    out
}

pub open spec fn of_bool(b: bool) -> Seq<char> {
    if b {
        "true"@
    } else {
        "false"@
    }
}

pub fn bool_text(b: bool) -> (r: String)
    ensures
        r@ == of_bool(b),
{
    if b {
        text_of("true")
    } else {
        text_of("false")
    }
}

/// Whether a list holds a string.
pub fn has_string(v: &Vec<String>, s: &String) -> (r: bool)
    ensures
        r == views(v@).contains(s@),
{
    let mut i: usize = 0;
    while i < v.len()
        invariant
            i <= v.len(),
            forall|k: int| 0 <= k < i ==> v@[k]@ != s@,
        decreases v.len() - i,
    {
        if v[i] == *s {
            assert(views(v@)[i as int] == s@);
            return true;
        }
        i += 1;
    }
    proof {
        if views(v@).contains(s@) {
            let k = views(v@).index_of(s@);
            assert(v@[k]@ == s@);
        }
    }
    false
}

proof fn lemma_trim_end_keeps_first(s: Seq<char>)
    ensures
        s.len() > 0 && !is_space(s[0]) ==> trim_end(s).len() > 0 && trim_end(s)[0] == s[0],
        trim_end(s).len() > 0 ==> !is_space(trim_end(s).last()),
    decreases s.len(),
{
    if s.len() > 0 && is_space(s.last()) {
        lemma_trim_end_keeps_first(s.drop_last());
    }
}

/// Trimming a text that is trimmed changes nothing.
pub proof fn lemma_trim_idempotent(s: Seq<char>)
    ensures
        trim(trim(s)) == trim(s),
{
    let a = trim_start(s);
    let p = |c: char| is_space(c);
    lemma_prefix_len(s, p);
    lemma_trim_end_keeps_first(a);
    let t = trim_end(a);
    if a.len() > 0 {
        assert(a[0] == s[prefix_len(s, p)]);
        assert(!is_space(t[0]));
        lemma_prefix_len(t, p);
        assert(prefix_len(t, p) == 0);
        assert(t.skip(0) == t);
    }
}

/// A text that stands between two others is found there.
pub proof fn lemma_occurs_between<A>(before: Seq<A>, n: Seq<A>, behind: Seq<A>)
    ensures
        occurs_at(before + n + behind, n, before.len() as int),
        contains(before + n + behind, n),
{
    let h = before + n + behind;
    assert(h.subrange(before.len() as int, (before.len() + n.len()) as int) =~= n);
    assert(occurs_at(h, n, before.len() as int));
}

/// A text that is found parts the other into what stands before it and behind it.
pub proof fn lemma_occurs_parts<A>(h: Seq<A>, n: Seq<A>, i: int)
    requires
        occurs_at(h, n, i),
    ensures
        0 <= i <= h.len() - n.len(),
        h == h.take(i) + n + h.skip(i + n.len()),
{
    assert(h =~= h.take(i) + h.subrange(i, i + n.len()) + h.skip(i + n.len()));
}

/// The first place at which a text stands is found, whatever stands behind it.
pub proof fn lemma_first_place<A>(before: Seq<A>, n: Seq<A>, behind: Seq<A>)
    requires
        forall|k: int|
            0 <= k < before.len() ==> #[trigger] (before + n + behind).subrange(k, k + n.len())
                != n,
    ensures
        first_at(before + n + behind, n, 0) == Some(before.len() as int),
{
    let h = before + n + behind;
    lemma_occurs_between(before, n, behind);
    lemma_first_at(h, n, 0);
    let i = first_at(h, n, 0)->0;
    assert(first_at(h, n, 0) is Some);
    if i < before.len() {
        assert(h.subrange(i, i + n.len()) != n);
    }
}

/// Of the ASCII characters exactly six are white space: tab, line feed, vertical tab,
/// form feed, carriage return and space.
pub proof fn lemma_ascii_spaces(c: char)
    requires
        c < '\u{80}',
    ensures
        is_space(c) <==> c == '\t' || c == '\n' || c == '\u{B}' || c == '\u{C}' || c == '\r' || c
            == ' ',
{
}

/// Trimming takes the white space at both ends away and nothing else.
pub proof fn lemma_trim_between(before: Seq<char>, s: Seq<char>, behind: Seq<char>)
    requires
        forall|i: int| 0 <= i < before.len() ==> is_space(#[trigger] before[i]),
        forall|i: int| 0 <= i < behind.len() ==> is_space(#[trigger] behind[i]),
        s.len() > 0 ==> !is_space(s[0]) && !is_space(s.last()),
    ensures
        trim(before + s + behind) == s,
    decreases behind.len(),
{
    let t = before + s + behind;
    if behind.len() > 0 {
        assert(t.last() == behind.last());
        assert(t.drop_last() =~= before + s + behind.drop_last());
        assert(is_space(behind[behind.len() - 1]));
        lemma_trim_drop_last(t);
        lemma_trim_between(before, s, behind.drop_last());
    } else {
        let p = |c: char| is_space(c);
        assert(t =~= before + s);
        assert forall|i: int| 0 <= i < before.len() implies p(#[trigger] t[i]) by {
            assert(t[i] == before[i]);
        }
        if s.len() > 0 {
            assert(t[before.len() as int] == s[0]);
        }
        lemma_prefix_len_is(t, p, before.len() as int);
        assert(t.skip(before.len() as int) =~= s);
    }
}

/// Words are what white space parts: a word in front of white space is the first word,
/// and the words behind it follow; a text without white space is one word; and white
/// space alone gives none.
pub proof fn lemma_words_parted(w: Seq<char>, c: char, rest: Seq<char>)
    requires
        forall|i: int| 0 <= i < w.len() ==> !is_space(#[trigger] w[i]),
        is_space(c),
    ensures
        w.len() > 0 ==> words(w + seq![c] + rest) == seq![w] + words(rest),
        w.len() > 0 ==> words(w) == seq![w],
        words(seq![c] + rest) == words(rest),
        words(Seq::<char>::empty()).len() == 0,
{
    let q = |x: char| !is_space(x);
    let t = seq![c] + rest;
    assert(t.drop_first() =~= rest);
    assert(words(t) == words(rest));
    if w.len() > 0 {
        let s = w + seq![c] + rest;
        assert forall|i: int| 0 <= i < w.len() implies q(#[trigger] s[i]) by {
            assert(s[i] == w[i]);
        }
        assert(s[w.len() as int] == c);
        lemma_prefix_len_is(s, q, w.len() as int);
        assert(s.take(w.len() as int) =~= w);
        assert(s.skip(w.len() as int) =~= t);
        assert(s[0] == w[0]);
        assert(prefix_len(s, |c: char| !is_space(c)) == w.len()) by {
            assert(q =~= (|c: char| !is_space(c)));
        }
        assert forall|i: int| 0 <= i < w.len() implies q(#[trigger] w[i]) by {}
        lemma_prefix_len_is(w, q, w.len() as int);
        assert(w.take(w.len() as int) =~= w);
        assert(w.skip(w.len() as int) =~= Seq::<char>::empty());
        assert(words(w.skip(w.len() as int)) =~= Seq::<Seq<char>>::empty());
        assert(words(w) =~= seq![w]);
    }
}

/// Lines are what line feeds part, a carriage return before the line feed goes with it,
/// and text behind the last line feed is a line of its own.
pub proof fn lemma_lines_parted(l: Seq<char>, rest: Seq<char>)
    requires
        forall|i: int| 0 <= i < l.len() ==> #[trigger] l[i] != '\n',
    ensures
        l.len() == 0 || l.last() != '\r' ==> lines(l + seq!['\n'] + rest) == seq![l] + lines(rest),
        lines(l + seq!['\r', '\n'] + rest) == seq![l] + lines(rest),
        l.len() > 0 ==> lines(l) == seq![l],
        lines(Seq::<char>::empty()).len() == 0,
{
    let q = |x: char| x != '\n';
    let s = l + seq!['\n'] + rest;
    let n = l.len() as int;
    assert forall|i: int| 0 <= i < n implies q(#[trigger] s[i]) by {
        assert(s[i] == l[i]);
    }
    assert(s[n] == '\n');
    lemma_prefix_len_is(s, q, n);
    assert(s.take(n) =~= l);
    assert(s.skip(n + 1) =~= rest);
    let u = l + seq!['\r', '\n'] + rest;
    assert forall|i: int| 0 <= i < n + 1 implies q(#[trigger] u[i]) by {
        if i < n {
            assert(u[i] == l[i]);
        } else {
            assert(u[n] == '\r');
        }
    }
    assert(u[n + 1] == '\n');
    lemma_prefix_len_is(u, q, n + 1);
    assert(u.take(n + 1) =~= l + seq!['\r']);
    assert(strip_cr(u.take(n + 1)) =~= l);
    assert(u.skip(n + 2) =~= rest);
    assert forall|i: int| 0 <= i < n implies q(#[trigger] l[i]) by {}
    lemma_prefix_len_is(l, q, n);
}

/// Each capital letter of the alphabet becomes the small one, and every other character
/// stays.
pub proof fn lemma_ascii_lower(i: int, c: char)
    requires
        0 <= i < 26,
        !("ABCDEFGHIJKLMNOPQRSTUVWXYZ"@.contains(c)),
    ensures
        ascii_lower("ABCDEFGHIJKLMNOPQRSTUVWXYZ"@[i]) == "abcdefghijklmnopqrstuvwxyz"@[i],
        ascii_lower(c) == c,
{
    reveal_strlit("ABCDEFGHIJKLMNOPQRSTUVWXYZ");
    reveal_strlit("abcdefghijklmnopqrstuvwxyz");
    let caps = "ABCDEFGHIJKLMNOPQRSTUVWXYZ"@;
    if 'A' <= c <= 'Z' {
        let k = c as int - 65;
        assert(0 <= k < 26);
        assert(caps[k] as int == 65 + k);
        assert(caps[k] == c);
        assert(caps.contains(c));
    }
}

/// What a digit stands for, up to fifteen.
pub open spec fn digit_value(c: char) -> int {
    if '0' <= c <= '9' {
        c as int - '0' as int
    } else if 'A' <= c <= 'F' {
        c as int - 'A' as int + 10
    } else if 'a' <= c <= 'f' {
        c as int - 'a' as int + 10
    } else {
        -1
    }
}

/// The number that some digits write in a base.
pub open spec fn value_in(s: Seq<char>, base: int) -> int
    decreases s.len(),
{
    if s.len() == 0 {
        0
    } else {
        value_in(s.drop_last(), base) * base + digit_value(s.last())
    }
}

/// A numeral writes its number: read in its base it gives the number back, each of its
/// digits is less than the base and of the case asked for, and no zero goes before.
pub proof fn lemma_numeral_reads_back(n: int, base: int, upper: bool)
    requires
        0 <= n,
        2 <= base <= 16,
    ensures
        value_in(numeral(n, base, upper), base) == n,
        numeral(n, base, upper).len() >= 1,
        numeral(n, base, upper)[0] == '0' <==> n == 0,
        n == 0 ==> numeral(n, base, upper).len() == 1,
        forall|i: int|
            0 <= i < numeral(n, base, upper).len() ==> 0 <= digit_value(
                #[trigger] numeral(n, base, upper)[i],
            ) < base && !(if upper {
                'a' <= numeral(n, base, upper)[i] <= 'f'
            } else {
                'A' <= numeral(n, base, upper)[i] <= 'F'
            }),
    decreases n,
{
    let s = numeral(n, base, upper);
    if n < base {
        assert(s == seq![digit_char(n, upper)]);
        assert(s.drop_last().len() == 0);
        assert(s.last() == digit_char(n, upper));
        assert(value_in(s.drop_last(), base) == 0);
    } else {
        let q = n / base;
        let r = n % base;
        assert(0 <= q < n && q >= 1 && n == q * base + r && 0 <= r < base) by (nonlinear_arith)
            requires
                n >= base >= 2,
                q == n / base,
                r == n % base,
        ;
        lemma_numeral_reads_back(q, base, upper);
        let t = numeral(q, base, upper);
        assert(s == t.push(digit_char(r, upper)));
        assert(s.drop_last() =~= t);
        assert(s[0] == t[0]);
    }
}

proof fn lemma_digits_agree(s: Seq<char>)
    requires
        all_digits(s),
    ensures
        decimal_value(s) == value_in(s, 10),
    decreases s.len(),
{
    if s.len() > 0 {
        assert(is_digit(s[s.len() - 1]));
        assert forall|i: int| 0 <= i < s.drop_last().len() implies is_digit(
            #[trigger] s.drop_last()[i],
        ) by {
            assert(is_digit(s[i]));
        }
        lemma_digits_agree(s.drop_last());
    }
}

/// Zeros in front fill a text up to a width, and what it writes stays the same.
pub proof fn lemma_zero_padded(s: Seq<char>, width: int, base: int)
    ensures
        s.len() >= width ==> zero_padded(s, width) == s,
        s.len() < width ==> zero_padded(s, width).len() == width,
        zero_padded(s, width).skip(zero_padded(s, width).len() - s.len()) == s,
        forall|i: int|
            0 <= i < zero_padded(s, width).len() - s.len() ==> #[trigger] zero_padded(s, width)[i]
                == '0',
        value_in(zero_padded(s, width), base) == value_in(s, base),
    decreases width - s.len(),
{
    let z = zero_padded(s, width);
    assert(z.skip(z.len() - s.len()) =~= s);
    if s.len() < width {
        let t = seq!['0'] + s;
        lemma_zero_padded(t, width, base);
        assert(z =~= zero_padded(t, width));
        lemma_zero_in_front(s, base);
    }
}

proof fn lemma_zero_in_front(s: Seq<char>, base: int)
    ensures
        value_in(seq!['0'] + s, base) == value_in(s, base),
    decreases s.len(),
{
    let t = seq!['0'] + s;
    if s.len() == 0 {
        assert(t.drop_last().len() == 0);
        assert(t.last() == '0');
        let v = value_in(t.drop_last(), base);
        assert(v * base == 0) by (nonlinear_arith)
            requires
                v == 0,
        ;
    } else {
        assert(t.drop_last() =~= seq!['0'] + s.drop_last());
        assert(t.last() == s.last());
        lemma_zero_in_front(s.drop_last(), base);
    }
}

/// A number that was written in decimal is read back, with zeros in front of it or
/// without, where it is not over the maximum; over it, nothing is read.
pub proof fn lemma_decimal_reads_back(n: int, width: int, max: int)
    requires
        0 <= n,
    ensures
        n <= max ==> parse_unsigned(zero_padded(dec(n), width), max) == Some(n),
        n > max ==> parse_unsigned(zero_padded(dec(n), width), max) is None,
        n <= max ==> parse_unsigned(dec(n), max) == Some(n),
{
    let d = dec(n);
    let s = zero_padded(d, width);
    lemma_numeral_reads_back(n, 10, false);
    lemma_zero_padded(d, width, 10);
    assert forall|i: int| 0 <= i < d.len() implies is_digit(#[trigger] d[i]) by {
        assert(0 <= digit_value(numeral(n, 10, false)[i]) < 10);
    }
    assert forall|i: int| 0 <= i < s.len() implies is_digit(#[trigger] s[i]) by {
        let k = s.len() - d.len();
        if i >= k {
            assert(s.skip(k)[i - k] == d[i - k]);
        }
    }
    lemma_digits_agree(s);
    lemma_digits_agree(d);
    assert(is_digit(s[0]));
    assert(is_digit(d[0]));
}

/// A text with anything in it but digits, and at most a plus sign in front of them, is
/// no number; nor is a text without a digit.
pub proof fn lemma_no_number(s: Seq<char>, i: int, max: int)
    requires
        s.len() == 0 || s == seq!['+'] || 0 <= i < s.len() && !('0' <= s[i] <= '9') && !(i == 0
            && s[0] == '+'),
    ensures
        parse_unsigned(s, max) is None,
{
    let body = without_plus(s);
    if s == seq!['+'] {
        assert(!is_digit(s[0]));
        assert(body == s);
    } else if s.len() > 0 {
        if s.len() > 1 && s[0] == '+' {
            assert(body[i - 1] == s[i]);
            assert(!is_digit(body[i - 1]));
        } else {
            assert(!is_digit(body[i]));
        }
    }
}

/// A label and its value stand apart from what follows them.
pub proof fn lemma_regroup(p: Seq<char>, label: Seq<char>, value: Seq<char>, rest: Seq<char>)
    ensures
        (p + label + value) + rest == p + (label + (value + rest)),
{
    assert((p + label + value) + rest =~= p + (label + (value + rest)));
}

/// A line tells a value under its label, up to the next space.
pub proof fn lemma_told(
    s: Seq<char>,
    before: Seq<char>,
    label: Seq<char>,
    value: Seq<char>,
    behind: Seq<char>,
)
    requires
        s == before + (label + (value + behind)),
        behind.len() > 0,
        behind[0] == ' ',
    ensures
        contains(s, label + value + " "@),
{
    reveal_strlit(" ");
    assert(s =~= before + (label + value + " "@) + behind.drop_first());
    lemma_occurs_between(before, label + value + " "@, behind.drop_first());
}

/// White space beyond ASCII: nineteen characters, from the next line and the no-break space
/// over the spaces of typography to the ideographic space.
pub proof fn lemma_other_spaces(c: char)
    requires
        c >= '\u{80}',
    ensures
        is_space(c) <==> seq![
            '\u{85}',
            '\u{A0}',
            '\u{1680}',
            '\u{2000}',
            '\u{2001}',
            '\u{2002}',
            '\u{2003}',
            '\u{2004}',
            '\u{2005}',
            '\u{2006}',
            '\u{2007}',
            '\u{2008}',
            '\u{2009}',
            '\u{200A}',
            '\u{2028}',
            '\u{2029}',
            '\u{202F}',
            '\u{205F}',
            '\u{3000}',
        ].contains(c),
{
    let all = seq![
        '\u{85}',
        '\u{A0}',
        '\u{1680}',
        '\u{2000}',
        '\u{2001}',
        '\u{2002}',
        '\u{2003}',
        '\u{2004}',
        '\u{2005}',
        '\u{2006}',
        '\u{2007}',
        '\u{2008}',
        '\u{2009}',
        '\u{200A}',
        '\u{2028}',
        '\u{2029}',
        '\u{202F}',
        '\u{205F}',
        '\u{3000}',
    ];
    let n = c as u32;
    if is_space(c) {
        let k: int = if n == 0x85 {
            0
        } else if n == 0xA0 {
            1
        } else if n == 0x1680 {
            2
        } else if 0x2000 <= n <= 0x200A {
            n - 0x2000 + 3
        } else if n == 0x2028 {
            14
        } else if n == 0x2029 {
            15
        } else if n == 0x202F {
            16
        } else if n == 0x205F {
            17
        } else {
            18
        };
        assert(all[k] == c);
    }
}

/// The two truth values are told by their names.
pub proof fn lemma_of_bool(b: bool)
    ensures
        of_bool(b) == "true"@ <==> b,
        of_bool(b) == "false"@ <==> !b,
{
    reveal_strlit("true");
    reveal_strlit("false");
    assert("true"@.len() != "false"@.len());
}

/// The same where the label and its value were put together first.
pub proof fn lemma_regroup_label(p: Seq<char>, label: Seq<char>, value: Seq<char>, rest: Seq<char>)
    ensures
        (p + (label + value)) + rest == p + (label + (value + rest)),
{
    assert((p + (label + value)) + rest =~= p + (label + (value + rest)));
}

/// A list of strings is read one by one, in order.
pub proof fn lemma_views(v: Seq<String>, i: int)
    requires
        0 <= i < v.len(),
    ensures
        views(v).len() == v.len(),
        views(v)[i] == v[i]@,
{
}

} // verus!
