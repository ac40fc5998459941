//! JSON objects found in raw memory: where one begins and ends, and the fields
//! of its text.
use vstd::prelude::*;
use vstd::slice::slice_subrange;

use crate::bytes::utf8_text;
use crate::text;

verus! {

pub const OPEN: u8 = 0x7B;

pub const CLOSE: u8 = 0x7D;

/// How many more opening than closing braces stand before position `i`.
pub open spec fn brace_depth(s: Seq<u8>, i: int) -> int
    decreases i,
{
    if i <= 0 {
        0
    } else if s[i - 1] == OPEN {
        brace_depth(s, i - 1) + 1
    } else if s[i - 1] == CLOSE {
        brace_depth(s, i - 1) - 1
    } else {
        brace_depth(s, i - 1)
    }
}

/// Whether the brace at `i` closes everything that was opened before it.
pub open spec fn closes_at(s: Seq<u8>, i: int) -> bool {
    0 <= i < s.len() && s[i] == CLOSE && brace_depth(s, i + 1) == 0
}

/// Just past the first brace, from `i` on, that closes everything.
pub open spec fn end_from(s: Seq<u8>, i: int) -> Option<int>
    decreases s.len() - i,
{
    if i >= s.len() {
        None
    } else if closes_at(s, i) {
        Some(i + 1)
    } else {
        end_from(s, i + 1)
    }
}

/// The text of the object with which `s` begins: up to the brace that closes it,
/// if there is one and the bytes up to it are UTF-8.
pub open spec fn object_text(s: Seq<u8>) -> Option<Seq<char>> {
    match end_from(s, 0) {
        Some(e) => if vstd::utf8::valid_utf8(s.take(e)) {
            Some(vstd::utf8::decode_utf8(s.take(e)))
        } else {
            None
        },
        None => None,
    }
}

/// An optional string by its content.
pub open spec fn opt_text(o: Option<String>) -> Option<Seq<char>> {
    match o {
        Some(s) => Some(s@),
        None => None,
    }
}

pub fn object_end(s: &[u8]) -> (r: Option<usize>)
    ensures
        match r {
            Some(e) => end_from(s@, 0) == Some(e as int) && e <= s@.len(),
            None => end_from(s@, 0) is None,
        },
{
    let mut depth: i128 = 0;
    let mut i: usize = 0;
    while i < s.len()
        invariant
            i <= s.len(),
            depth == brace_depth(s@, i as int),
            -(i as int) <= depth <= i,
            end_from(s@, 0) == end_from(s@, i as int),
        decreases s.len() - i,
    {
        let b = s[i];
        if b == OPEN {
            depth = depth + 1;
        } else if b == CLOSE {
            depth = depth - 1;
            if depth == 0 {
                return Some(i + 1);
            }
        }
        i += 1;
    }
    None
}

pub fn object_at(s: &[u8]) -> (r: Option<String>)
    ensures
        opt_text(r) == object_text(s@),
{
    match object_end(s) {
        Some(e) => {
            assert(s@.take(e as int) == s@.subrange(0, e as int));
            utf8_text(slice_subrange(s, 0, e))
        },
        None => None,
    }
}

/// The last opening brace of `s`.
pub open spec fn last_open(s: Seq<u8>) -> Option<int>
    decreases s.len(),
{
    if s.len() == 0 {
        None
    } else if s.last() == OPEN {
        Some(s.len() - 1)
    } else {
        last_open(s.drop_last())
    }
}

pub fn last_open_brace(s: &[u8]) -> (r: Option<usize>)
    ensures
        match r {
            Some(i) => last_open(s@) == Some(i as int) && i < s@.len() && s@[i as int] == OPEN,
            None => last_open(s@) is None,
        },
{
    let mut n: usize = s.len();
    assert(s@.take(n as int) == s@);
    while n > 0
        invariant
            n <= s.len(),
            last_open(s@) == last_open(s@.take(n as int)),
        decreases n,
    {
        if s[n - 1] == OPEN {
            return Some(n - 1);
        }
        assert(s@.take(n as int).drop_last() == s@.take(n - 1));
        n -= 1;
    }
    None
}

/// What precedes the value of a string field: its quoted key, a colon, a quote.
pub open spec fn str_field_mark(key: Seq<char>) -> Seq<char> {
    seq!['"'] + key + seq!['"', ':', '"']
}

/// What precedes the value of a numeric field: its quoted key and a colon.
pub open spec fn num_field_mark(key: Seq<char>) -> Seq<char> {
    seq!['"'] + key + seq!['"', ':']
}

/// The text up to the closing quote, each backslash replaced by the character
/// that it escapes. A backslash that ends the text stands for a space.
pub open spec fn unquoted(s: Seq<char>) -> Seq<char>
    decreases s.len(),
{
    if s.len() == 0 || s[0] == '"' {
        seq![]
    } else if s[0] == '\\' {
        if s.len() == 1 {
            seq![' ']
        } else {
            seq![s[1]] + unquoted(s.skip(2))
        }
    } else {
        seq![s[0]] + unquoted(s.skip(1))
    }
}

/// The value of the first string field with the given key.
pub open spec fn str_field(t: Seq<char>, key: Seq<char>) -> Option<Seq<char>> {
    let mark = str_field_mark(key);
    match text::first_at(t, mark, 0) {
        Some(i) => Some(unquoted(t.skip(i + mark.len()))),
        None => None,
    }
}

/// The value of the first field with the given key, where digits follow that
/// fit in 32 bits.
pub open spec fn num_field(t: Seq<char>, key: Seq<char>) -> Option<int> {
    let mark = num_field_mark(key);
    match text::first_at(t, mark, 0) {
        Some(i) => {
            let rest = t.skip(i + mark.len());
            text::parse_unsigned(
                rest.take(text::prefix_len(rest, |c: char| text::is_digit(c))),
                u32::MAX as int,
            )
        },
        None => None,
    }
}

fn field_mark(key: &str, string: bool) -> (r: Vec<char>)
    ensures
        r@ == (if string {
            str_field_mark(key@)
        } else {
            num_field_mark(key@)
        }),
{
    let mut out: Vec<char> = Vec::new();
    out.push('"');
    let mut k = text::chars_of(key);
    out.append(&mut k);
    out.push('"');
    out.push(':');
    if string {
        out.push('"');
        assert(out@ == str_field_mark(key@));
    } else {
        assert(out@ == num_field_mark(key@));
    }
    out
}

/// The value of a string field of a JSON text.
pub fn json_str_field(t: &str, key: &str) -> (r: Option<String>)
    ensures
        opt_text(r) == str_field(t@, key@),
{
    let v = text::chars_of(t);
    let mark = field_mark(key, true);
    let at: usize = match text::find_text(v.as_slice(), mark.as_slice()) {
        Some(i) => i,
        None => {
            return None;
        },
    };
    assert(at + mark.len() <= v.len());
    let start: usize = at + mark.len();
    let ghost rest = t@.skip(start as int);
    let mut out = String::new();
    let mut i: usize = start;
    assert(v@.skip(i as int) == rest);
    while i < v.len() && v[i] != '"'
        invariant_except_break
            v@.skip(i as int).len() == v.len() - i,
            out@ + unquoted(v@.skip(i as int)) == unquoted(rest),
        invariant
            start <= i <= v.len(),
        ensures
            out@ == unquoted(rest),
        decreases v.len() - i,
    {
        let ghost s = v@.skip(i as int);
        let ghost before = out@;
        if v[i] == '\\' {
            if i + 1 == v.len() {
                out.push(' ');
                assert(out@ == before + unquoted(s));
                break;
            }
            out.push(v[i + 1]);
            assert(s.skip(2) == v@.skip(i + 2));
            assert(out@ + unquoted(s.skip(2)) == before + (seq![s[1]] + unquoted(s.skip(2))));
            i += 2;
        } else {
            out.push(v[i]);
            assert(s.skip(1) == v@.skip(i + 1));
            assert(out@ + unquoted(s.skip(1)) == before + (seq![s[0]] + unquoted(s.skip(1))));
            i += 1;
        }
    }
    Some(out)
}

/// The value of a numeric field of a JSON text.
pub fn json_num_field(t: &str, key: &str) -> (r: Option<u32>)
    ensures
        match r {
            Some(n) => num_field(t@, key@) == Some(n as int),
            None => num_field(t@, key@) is None,
        },
{
    let v = text::chars_of(t);
    let mark = field_mark(key, false);
    let at: usize = match text::find_text(v.as_slice(), mark.as_slice()) {
        Some(i) => i,
        None => {
            return None;
        },
    };
    assert(at + mark.len() <= v.len());
    let start: usize = at + mark.len();
    let ghost rest = t@.skip(start as int);
    let ghost p = |c: char| text::is_digit(c);
    let mut i: usize = start;
    while i < v.len() && '0' <= v[i] && v[i] <= '9'
        invariant
            start <= i <= v.len(),
            v@ == t@,
            rest == t@.skip(start as int),
            p == (|c: char| text::is_digit(c)),
            forall|k: int| 0 <= k < i - start ==> p(#[trigger] rest[k]),
        decreases v.len() - i,
    {
        assert(rest[i - start] == v@[i as int]);
        i += 1;
    }
    proof {
        if i < v.len() {
            assert(rest[i - start] == v@[i as int]);
        }
        text::lemma_prefix_len_is(rest, p, i - start);
        assert(rest.take(i - start) == v@.subrange(start as int, i as int));
    }
    match text::number_of(slice_subrange(v.as_slice(), start, i), u32::MAX as u64) {
        Some(n) => Some(n as u32),
        None => None,
    }
}

/// A text as it stands between the quotes of a JSON string: a backslash goes before
/// each quote and each backslash.
pub open spec fn quoted(s: Seq<char>) -> Seq<char>
    decreases s.len(),
{
    if s.len() == 0 {
        seq![]
    } else if s[0] == '"' || s[0] == '\\' {
        seq!['\\', s[0]] + quoted(s.drop_first())
    } else {
        seq![s[0]] + quoted(s.drop_first())
    }
}

/// What was written between quotes is read back, whatever stands behind it.
pub proof fn lemma_quoted_is_read(s: Seq<char>, behind: Seq<char>)
    ensures
        unquoted(quoted(s) + seq!['"'] + behind) == s,
    decreases s.len(),
{
    let t = quoted(s) + seq!['"'] + behind;
    if s.len() == 0 {
        assert(t[0] == '"');
        assert(s =~= seq![]);
    } else {
        let rest = s.drop_first();
        lemma_quoted_is_read(rest, behind);
        let u = quoted(rest) + seq!['"'] + behind;
        assert(s =~= seq![s[0]] + rest);
        if s[0] == '"' || s[0] == '\\' {
            assert(t =~= seq!['\\', s[0]] + u);
            assert(t.skip(2) =~= u);
        } else {
            assert(t =~= seq![s[0]] + u);
            assert(t.skip(1) =~= u);
        }
    }
}

/// The value of a field is what was written between its quotes, where the text holds
/// the field for the first time.
pub proof fn lemma_str_field_is_read(
    t: Seq<char>,
    before: Seq<char>,
    key: Seq<char>,
    value: Seq<char>,
    behind: Seq<char>,
)
    requires
        t == before + (seq!['"'] + key + seq!['"', ':', '"']) + (quoted(value) + seq!['"'] + behind),
        forall|k: int|
            0 <= k < before.len() ==> #[trigger] t.subrange(k, k + key.len() + 4) != seq!['"'] + key
                + seq!['"', ':', '"'],
    ensures
        str_field(t, key) == Some(value),
{
    let mark = seq!['"'] + key + seq!['"', ':', '"'];
    let rest = quoted(value) + seq!['"'] + behind;
    assert forall|k: int| 0 <= k < before.len() implies #[trigger] t.subrange(k, k + mark.len())
        != mark by {
        assert(mark.len() == key.len() + 4);
        assert(t.subrange(k, k + key.len() + 4) != mark);
    }
    text::lemma_first_place(before, mark, rest);
    assert(t.skip((before.len() + mark.len()) as int) =~= rest);
    lemma_quoted_is_read(value, behind);
}

/// A text that nowhere holds a field has no value for it.
pub proof fn lemma_missing_field(t: Seq<char>, key: Seq<char>)
    ensures
        (forall|k: int|
            0 <= k <= t.len() - key.len() - 4 ==> #[trigger] t.subrange(k, k + key.len() + 4)
                != seq!['"'] + key + seq!['"', ':', '"']) <==> str_field(t, key) is None,
        (forall|k: int|
            0 <= k <= t.len() - key.len() - 3 ==> #[trigger] t.subrange(k, k + key.len() + 3)
                != seq!['"'] + key + seq!['"', ':']) ==> num_field(t, key) is None,
{
    let a = seq!['"'] + key + seq!['"', ':', '"'];
    let b = seq!['"'] + key + seq!['"', ':'];
    text::lemma_first_at(t, a, 0);
    text::lemma_first_at(t, b, 0);
    assert(a.len() == key.len() + 4);
    assert(b.len() == key.len() + 3);
    if text::first_at(t, b, 0) is Some {
        let i = text::first_at(t, b, 0)->0;
        assert(t.subrange(i, i + key.len() + 3) == b);
    }
    if text::first_at(t, a, 0) is Some {
        let i = text::first_at(t, a, 0)->0;
        assert(t.subrange(i, i + key.len() + 4) == a);
    } else {
        assert forall|k: int| 0 <= k <= t.len() - key.len() - 4 implies #[trigger] t.subrange(
            k,
            k + key.len() + 4,
        ) != a by {
            assert(!text::occurs_at(t, a, k));
        }
    }
}

/// A text that has a value for a field mentions the name of the field.
pub proof fn lemma_field_is_mentioned(t: Seq<char>, key: Seq<char>)
    requires
        str_field(t, key) is Some,
    ensures
        text::contains(t, key),
{
    let mark = seq!['"'] + key + seq!['"', ':', '"'];
    text::lemma_first_at(t, mark, 0);
    let i = text::first_at(t, mark, 0)->0;
    text::lemma_occurs_parts(t, mark, i);
    let before = t.take(i) + seq!['"'];
    let behind = seq!['"', ':', '"'] + t.skip((i + mark.len()) as int);
    assert(t =~= before + key + behind);
    text::lemma_occurs_between(before, key, behind);
}

/// A number behind its field is read back, up to the first character that is no digit;
/// where no digit stands there, or the number is over 32 bits, nothing is read.
pub proof fn lemma_num_field_is_read(
    t: Seq<char>,
    before: Seq<char>,
    key: Seq<char>,
    n: int,
    behind: Seq<char>,
)
    requires
        0 <= n,
        t == before + (seq!['"'] + key + seq!['"', ':']) + (text::dec(n) + behind),
        forall|k: int|
            0 <= k < before.len() ==> #[trigger] t.subrange(k, k + key.len() + 3) != seq!['"'] + key
                + seq!['"', ':'],
        behind.len() > 0 ==> !('0' <= behind[0] <= '9'),
    ensures
        n <= u32::MAX ==> num_field(t, key) == Some(n),
        n > u32::MAX ==> num_field(t, key) is None,
{
    let mark = seq!['"'] + key + seq!['"', ':'];
    let d = text::dec(n);
    let rest = d + behind;
    let n3 = (key.len() + 3) as int;
    assert forall|k: int| 0 <= k < before.len() implies #[trigger] t.subrange(k, k + n3) != mark by {
        assert(t.subrange(k, k + key.len() + 3) != mark);
    }
    lemma_field_found(t, before, mark, rest, n3);
    text::lemma_numeral_reads_back(n, 10, false);
    let p = |c: char| text::is_digit(c);
    assert forall|i: int| 0 <= i < d.len() implies p(#[trigger] rest[i]) by {
        assert(0 <= text::digit_value(text::numeral(n, 10, false)[i]) < 10);
    }
    if behind.len() > 0 {
        assert(rest[d.len() as int] == behind[0]);
    }
    text::lemma_prefix_len_is(rest, p, d.len() as int);
    assert(rest.take(d.len() as int) =~= d);
    text::lemma_decimal_reads_back(n, 0, u32::MAX as int);
    text::lemma_zero_padded(d, 0, 10);
}

proof fn lemma_field_found(
    t: Seq<char>,
    before: Seq<char>,
    mark: Seq<char>,
    rest: Seq<char>,
    n: int,
)
    requires
        t == before + mark + rest,
        n == mark.len(),
        forall|k: int| 0 <= k < before.len() ==> #[trigger] t.subrange(k, k + n) != mark,
    ensures
        text::first_at(t, mark, 0) == Some(before.len() as int),
        t.skip((before.len() + mark.len()) as int) == rest,
{
    assert forall|k: int| 0 <= k < before.len() implies #[trigger] t.subrange(k, k + mark.len())
        != mark by {
        assert(t.subrange(k, k + n) != mark);
    }
    text::lemma_first_place(before, mark, rest);
    assert(t.skip((before.len() + mark.len()) as int) =~= rest);
}

/// A field whose value does not begin with a digit holds no number.
pub proof fn lemma_no_num_field(t: Seq<char>, before: Seq<char>, key: Seq<char>, rest: Seq<char>)
    requires
        t == before + (seq!['"'] + key + seq!['"', ':']) + rest,
        forall|k: int|
            0 <= k < before.len() ==> #[trigger] t.subrange(k, k + key.len() + 3) != seq!['"'] + key
                + seq!['"', ':'],
        rest.len() > 0 ==> !('0' <= rest[0] <= '9'),
    ensures
        num_field(t, key) is None,
{
    let mark = seq!['"'] + key + seq!['"', ':'];
    let n3 = (key.len() + 3) as int;
    assert forall|k: int| 0 <= k < before.len() implies #[trigger] t.subrange(k, k + n3) != mark by {
        assert(t.subrange(k, k + key.len() + 3) != mark);
    }
    lemma_field_found(t, before, mark, rest, n3);
    let p = |c: char| text::is_digit(c);
    text::lemma_prefix_len_is(rest, p, 0);
    text::lemma_no_number(rest.take(0), 0, u32::MAX as int);
}

/// How deep the braces are nested: how many were opened less how many were closed.
pub proof fn lemma_depth_counts(s: Seq<u8>, i: int)
    requires
        0 <= i <= s.len(),
    ensures
        brace_depth(s, i) == s.take(i).to_multiset().count(0x7B) - s.take(i).to_multiset().count(
            0x7D,
        ),
    decreases i,
{
    s.take(i).to_multiset_ensures();
    if i > 0 {
        lemma_depth_counts(s, i - 1);
        s.take(i - 1).to_multiset_ensures();
        assert(s.take(i) =~= s.take(i - 1).push(s[i - 1]));
    } else {
        assert(s.take(0).to_multiset().count(0x7B) == 0);
        assert(s.take(0).to_multiset().count(0x7D) == 0);
    }
}

/// An object is the shortest text from the start on that ends in a closing brace and
/// closes as many braces as it opens; its bytes are read as UTF-8, and where they are not
/// UTF-8 there is no object.
pub proof fn lemma_object_is_balanced(s: Seq<u8>, e: int)
    requires
        0 < e <= s.len(),
        s[e - 1] == 0x7D,
        s.take(e).to_multiset().count(0x7B) == s.take(e).to_multiset().count(0x7D),
        forall|i: int|
            0 < i < e && s[i - 1] == 0x7D ==> (#[trigger] s.take(i)).to_multiset().count(0x7B)
                != s.take(i).to_multiset().count(0x7D),
    ensures
        vstd::utf8::valid_utf8(s.take(e)) ==> object_text(s) == Some(
            vstd::utf8::decode_utf8(s.take(e)),
        ),
        !vstd::utf8::valid_utf8(s.take(e)) ==> object_text(s) is None,
{
    lemma_object_ends(s, e, 0);
}

proof fn lemma_object_ends(s: Seq<u8>, e: int, from: int)
    requires
        0 <= from < e <= s.len(),
        s[e - 1] == 0x7D,
        s.take(e).to_multiset().count(0x7B) == s.take(e).to_multiset().count(0x7D),
        forall|i: int|
            0 < i < e && s[i - 1] == 0x7D ==> (#[trigger] s.take(i)).to_multiset().count(0x7B)
                != s.take(i).to_multiset().count(0x7D),
    ensures
        end_from(s, from) == Some(e),
    decreases e - from,
{
    lemma_depth_counts(s, from + 1);
    if from + 1 < e {
        if closes_at(s, from) {
            assert(s.take(from + 1).to_multiset().count(0x7B) != s.take(
                from + 1,
            ).to_multiset().count(0x7D));
        }
        lemma_object_ends(s, e, from + 1);
    }
}

/// Where no text from the start on ends in a closing brace and closes as many braces as
/// it opens, there is no object.
pub proof fn lemma_no_object(s: Seq<u8>, from: int)
    requires
        0 <= from,
        forall|i: int|
            from < i <= s.len() && s[i - 1] == 0x7D ==> (#[trigger] s.take(i)).to_multiset().count(
                0x7B,
            ) != s.take(i).to_multiset().count(0x7D),
    ensures
        end_from(s, from) is None,
        from == 0 ==> object_text(s) is None,
    decreases s.len() - from,
{
    if from < s.len() {
        lemma_depth_counts(s, from + 1);
        if closes_at(s, from) {
            assert(s.take(from + 1).to_multiset().count(0x7B) != s.take(
                from + 1,
            ).to_multiset().count(0x7D));
        }
        lemma_no_object(s, from + 1);
    }
}

/// The last opening brace is found: none stands behind it.
pub proof fn lemma_last_open(before: Seq<u8>, behind: Seq<u8>)
    requires
        forall|i: int| 0 <= i < behind.len() ==> #[trigger] behind[i] != 0x7B,
    ensures
        last_open(before + seq![0x7Bu8] + behind) == Some(before.len() as int),
        last_open(behind) is None,
    decreases behind.len(),
{
    let s = before + seq![0x7Bu8] + behind;
    if behind.len() > 0 {
        assert(behind[behind.len() - 1] != 0x7B);
        assert(s.last() == behind.last());
        assert(s.drop_last() =~= before + seq![0x7Bu8] + behind.drop_last());
        lemma_last_open(before, behind.drop_last());
    } else {
        assert(s.last() == 0x7B);
    }
}

/// Reading a string character by character: a backslash is dropped and the character
/// behind it taken as it is, whichever it is; a backslash at the very end is a space; a
/// quote, and the end of the text, end the string.
pub proof fn lemma_unquoted_step(c: char, rest: Seq<char>)
    ensures
        c != '"' && c != '\\' ==> unquoted(seq![c] + rest) == seq![c] + unquoted(rest),
        unquoted(seq!['\\', c] + rest) == seq![c] + unquoted(rest),
        unquoted(seq!['\\']) == seq![' '],
        unquoted(seq!['"'] + rest).len() == 0,
        unquoted(Seq::<char>::empty()).len() == 0,
{
    assert((seq![c] + rest).skip(1) =~= rest);
    assert((seq!['\\', c] + rest).skip(2) =~= rest);
    assert((seq!['"'] + rest)[0] == '"');
}

/// An optional text is read as it stands.
pub proof fn lemma_opt_text(s: String)
    ensures
        opt_text(Some(s)) == Some(s@),
        opt_text(None) is None,
{
}

} // verus!
