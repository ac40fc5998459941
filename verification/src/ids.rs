//! Identifiers in raw memory: lobby ids and the sixteen-digit ids of accounts.
use vstd::prelude::*;
use vstd::slice::slice_subrange;

use crate::bytes;
use crate::json;
use crate::text;

verus! {

/// The bytes of a lobby id.
pub open spec fn is_lobby_byte(b: u8) -> bool {
    bytes::is_hex(b) || b == 0x2D || b == 0x2E
}

pub open spec fn lobby_mark() -> Seq<u8> {
    bytes::ascii("~lobby~LobbyChange~"@)
}

/// The bytes of the id behind a lobby mark, of which at most 41 are taken.
pub open spec fn lobby_run(rest: Seq<u8>) -> Seq<u8> {
    let n = text::prefix_len(rest, |b: u8| is_lobby_byte(b));
    rest.take(
        if n > 41 {
            41
        } else {
            n
        },
    )
}

/// The lobby id behind the first lobby mark: one that holds a hyphen and is
/// longer than twenty characters.
pub open spec fn lobby_id_in(ctx: Seq<u8>) -> Option<Seq<char>> {
    match bytes::sub_at(ctx, lobby_mark(), 0) {
        None => None,
        Some(i) => {
            let run = lobby_run(ctx.skip(i + lobby_mark().len()));
            if run.contains(0x2D) && run.len() > 20 {
                Some(bytes::byte_chars(run))
            } else {
                None
            }
        },
    }
}

/// Extracts the lobby id of a change message.
pub fn extract_lobby_id(ctx: &[u8]) -> (r: Option<String>)
    ensures
        json::opt_text(r) == lobby_id_in(ctx@),
{
    let mark = bytes::ascii_of("~lobby~LobbyChange~");
    let at: usize = match bytes::find_sub(ctx, mark.as_slice(), 0) {
        Some(i) => i,
        None => {
            return None;
        },
    };
    assert(at + mark.len() <= ctx.len());
    let rest = slice_subrange(ctx, at + mark.len(), ctx.len());
    assert(rest@ == ctx@.skip(at + mark.len()));
    let ghost p = |b: u8| is_lobby_byte(b);
    let mut n: usize = 0;
    let mut hyphen = false;
    while n < rest.len() && n <= 40 && (bytes::hex_byte(rest[n]) || rest[n] == 0x2D || rest[n]
        == 0x2E)
        invariant
            n <= rest.len(),
            n <= 41,
            p == (|b: u8| is_lobby_byte(b)),
            forall|k: int| 0 <= k < n ==> p(#[trigger] rest@[k]),
            hyphen == rest@.take(n as int).contains(0x2D),
        decreases rest.len() - n,
    {
        let ghost before = rest@.take(n as int);
        if rest[n] == 0x2D {
            hyphen = true;
        }
        n += 1;
        proof {
            let after = rest@.take(n as int);
            assert(after == before.push(rest@[n - 1]));
            assert(after[n - 1] == rest@[n - 1]);
            if before.contains(0x2D) {
                let k = before.index_of(0x2D);
                assert(after[k] == 0x2D);
            }
            if after.contains(0x2D) && rest@[n - 1] != 0x2D {
                let k = after.index_of(0x2D);
                assert(before[k] == 0x2D);
            }
        }
    }
    proof {
        text::lemma_prefix_len(rest@, p);
        let full = text::prefix_len(rest@, p);
        if full < n {
            assert(p(rest@[full]));
        }
        if n < 41 && n < rest.len() {
            if n < full {
                assert(p(rest@[n as int]));
            }
        }
        assert(rest@.take(n as int) == lobby_run(rest@));
        assert(rest@.take(n as int) == rest@.subrange(0, n as int));
    }
    if hyphen && n > 20 {
        Some(bytes::chars_of_bytes(slice_subrange(rest, 0, n)))
    } else {
        None
    }
}

pub open spec fn hex_block(w: Seq<u8>, i: int) -> bool {
    forall|k: int| i <= k < i + 16 ==> bytes::is_hex(#[trigger] w[k])
}

/// Whether exactly sixteen hexadecimal digits stand at `i`, none before and none
/// behind them.
pub open spec fn isolated_id(w: Seq<u8>, i: int) -> bool {
    &&& 0 <= i && i + 16 <= w.len()
    &&& hex_block(w, i)
    &&& i == 0 || !bytes::is_hex(w[i - 1])
    &&& i + 16 == w.len() || !bytes::is_hex(w[i + 16])
}

pub open spec fn upper_digit(b: u8) -> char {
    if 0x61 <= b <= 0x66 {
        (b - 32) as char
    } else {
        b as char
    }
}

/// The id at `i`, in capitals.
pub open spec fn id_text(w: Seq<u8>, i: int) -> Seq<char> {
    w.subrange(i, i + 16).map_values(|b: u8| upper_digit(b))
}

fn is_isolated_id(w: &[u8], i: usize) -> (r: bool)
    requires
        i + 16 <= w@.len(),
    ensures
        r == isolated_id(w@, i as int),
{
    assert(i + 16 <= w.len());
    let mut k: usize = i;
    while k < i + 16
        invariant
            i <= k <= i + 16,
            i + 16 <= w.len(),
            forall|m: int| i <= m < k ==> bytes::is_hex(#[trigger] w@[m]),
        decreases i + 16 - k,
    {
        if !bytes::hex_byte(w[k]) {
            assert(!bytes::is_hex(w@[k as int]));
            return false;
        }
        k += 1;
    }
    (i == 0 || !bytes::hex_byte(w[i - 1])) && (i + 16 == w.len() || !bytes::hex_byte(w[i + 16]))
}

fn read_id(w: &[u8], i: usize) -> (r: String)
    requires
        i + 16 <= w@.len(),
    ensures
        r@ == id_text(w@, i as int),
{
    assert(i + 16 <= w.len());
    let mut out = String::new();
    let mut k: usize = 0;
    while k < 16
        invariant
            k <= 16,
            i + 16 <= w.len(),
            out@ == w@.subrange(i as int, i + k).map_values(|b: u8| upper_digit(b)),
        decreases 16 - k,
    {
        let b = w[i + k];
        if 0x61 <= b && b <= 0x66 {
            out.push((b - 32) as char);
        } else {
            out.push(b as char);
        }
        k += 1;
        assert(out@ == w@.subrange(i as int, i + k).map_values(|b: u8| upper_digit(b)));
    }
    out
}

/// Extracts all account ids of a context, each once.
pub fn extract_hex_ids(ctx: &[u8]) -> (r: Vec<String>)
    ensures
        text::views(r@).no_duplicates(),
        forall|s: Seq<char>| #[trigger]
            text::views(r@).contains(s) <==> exists|i: int| #[trigger]
                isolated_id(ctx@, i) && s == id_text(ctx@, i),
{
    let mut out: Vec<String> = Vec::new();
    let mut i: usize = 0;
    while i < ctx.len() && ctx.len() - i >= 16
        invariant
            i <= ctx.len(),
            text::views(out@).no_duplicates(),
            forall|s: Seq<char>| #[trigger]
                text::views(out@).contains(s) <==> exists|k: int| #[trigger]
                    isolated_id(ctx@, k) && k < i && s == id_text(ctx@, k),
        decreases ctx.len() - i,
    {
        let ghost before = text::views(out@);
        if is_isolated_id(ctx, i) {
            let s = read_id(ctx, i);
            if !text::has_string(&out, &s) {
                out.push(s);
                assert(text::views(out@) == before.push(s@));
                assert forall|t: Seq<char>| #[trigger]
                    text::views(out@).contains(t) <==> before.contains(t) || t == s@ by {
                    if before.contains(t) {
                        assert(text::views(out@)[before.index_of(t)] == t);
                    }
                    if t == s@ {
                        assert(text::views(out@)[before.len() as int] == t);
                    }
                }
            }
            assert(isolated_id(ctx@, i as int) && s@ == id_text(ctx@, i as int));
        }
        assert forall|t: Seq<char>| #[trigger]
            text::views(out@).contains(t) <==> exists|k: int| #[trigger]
                isolated_id(ctx@, k) && k < i + 1 && t == id_text(ctx@, k) by {
            if before.contains(t) {
                let k = choose|k: int| #[trigger]
                    isolated_id(ctx@, k) && k < i && t == id_text(ctx@, k);
                assert(isolated_id(ctx@, k));
            }
            if exists|k: int| #[trigger]
                isolated_id(ctx@, k) && k < i + 1 && t == id_text(ctx@, k) {
                let k = choose|k: int| #[trigger]
                    isolated_id(ctx@, k) && k < i + 1 && t == id_text(ctx@, k);
                if k < i {
                    assert(before.contains(t));
                }
            }
        }
        i += 1;
    }
    assert forall|s: Seq<char>| #[trigger]
        text::views(out@).contains(s) implies exists|k: int| #[trigger]
        isolated_id(ctx@, k) && s == id_text(ctx@, k) by {
        let k = choose|k: int| #[trigger] isolated_id(ctx@, k) && k < i && s == id_text(ctx@, k);
        assert(isolated_id(ctx@, k));
    }
    out
}

/// The last position below `n` at which an id stands.
pub open spec fn last_id(w: Seq<u8>, n: int) -> Option<int>
    decreases n,
{
    if n <= 0 {
        None
    } else if isolated_id(w, n - 1) {
        Some(n - 1)
    } else {
        last_id(w, n - 1)
    }
}

/// The last id of a window, or nothing.
pub open spec fn nearest_id(w: Seq<u8>) -> Seq<char> {
    match last_id(w, w.len() as int) {
        Some(i) => id_text(w, i),
        None => seq![],
    }
}

fn nearest(w: &[u8]) -> (r: String)
    ensures
        r@ == nearest_id(w@),
{
    let mut n: usize = w.len();
    while n > 0
        invariant
            n <= w.len(),
            last_id(w@, w@.len() as int) == last_id(w@, n as int),
        decreases n,
    {
        if w.len() - (n - 1) >= 16 && is_isolated_id(w, n - 1) {
            return read_id(w, n - 1);
        }
        n -= 1;
    }
    String::new()
}

/// The account id nearest before a hit in a block, at most `back` bytes away.
pub fn find_hex_in_chunk(data: &[u8], rel: usize, back: usize) -> (r: String)
    requires
        rel <= data@.len(),
    ensures
        r@ == nearest_id(data@.subrange(bytes::window_start(rel as int, back as int), rel as int)),
{
    let start: usize = if rel < back {
        0
    } else {
        rel - back
    };
    nearest(slice_subrange(data, start, rel))
}

/// The account id nearest before an address, given the memory read before it.
pub fn find_game_id_near(data: Option<Vec<u8>>) -> (r: String)
    ensures
        r@ == match data {
            Some(d) => nearest_id(d@),
            None => seq![],
        },
{
    match data {
        Some(d) => nearest(d.as_slice()),
        None => String::new(),
    }
}

/// The id of a lobby is what stands behind the mark, up to the first byte that is neither
/// a hexadecimal digit nor a hyphen nor a dot, and 41 bytes at most; with less than 21
/// bytes, or without a hyphen, it is none.
pub proof fn lemma_lobby_id_is_read(ctx: Seq<u8>, before: Seq<u8>, id: Seq<u8>, behind: Seq<u8>)
    requires
        ctx == before + bytes::ascii("~lobby~LobbyChange~"@) + (id + behind),
        forall|k: int|
            0 <= k < before.len() ==> #[trigger] ctx.subrange(k, k + 19) != bytes::ascii(
                "~lobby~LobbyChange~"@,
            ),
        forall|i: int|
            0 <= i < id.len() ==> {
                let c = (#[trigger] id[i]) as char;
                text::digit_value(c) >= 0 || c == '-' || c == '.'
            },
        behind.len() > 0 ==> {
            let c = behind[0] as char;
            text::digit_value(c) < 0 && c != '-' && c != '.'
        },
    ensures
        20 < id.len() <= 41 && id.contains(0x2D) ==> lobby_id_in(ctx) == Some(
            bytes::byte_chars(id),
        ),
        id.len() > 41 && id.take(41).contains(0x2D) ==> lobby_id_in(ctx) == Some(
            bytes::byte_chars(id.take(41)),
        ),
        id.len() <= 20 || !id.contains(0x2D) ==> lobby_id_in(ctx) is None,
{
    reveal_strlit("~lobby~LobbyChange~");
    let mark = bytes::ascii("~lobby~LobbyChange~"@);
    assert(mark.len() == 19);
    let rest = id + behind;
    assert forall|k: int| 0 <= k < before.len() implies #[trigger] ctx.subrange(k, k + mark.len())
        != mark by {
        assert(ctx.subrange(k, k + 19) != mark);
    }
    text::lemma_first_place(before, mark, rest);
    assert(ctx.skip((before.len() + mark.len()) as int) =~= rest);
    let p = |b: u8| is_lobby_byte(b);
    assert forall|i: int| 0 <= i < id.len() implies p(#[trigger] rest[i]) by {
        assert(rest[i] == id[i]);
        bytes::lemma_hex_digits(id[i]);
        lemma_lobby_byte(id[i]);
    }
    if behind.len() > 0 {
        assert(rest[id.len() as int] == behind[0]);
        lemma_lobby_byte(behind[0]);
    }
    text::lemma_prefix_len_is(rest, p, id.len() as int);
    let run = lobby_run(rest);
    if id.len() <= 41 {
        assert(run =~= id);
    } else {
        assert(run =~= id.take(41));
        if !id.contains(0x2D) && run.contains(0x2D) {
            let k = run.index_of(0x2D);
            assert(id[k] == 0x2D);
        }
    }
}

proof fn lemma_lobby_byte(b: u8)
    ensures
        is_lobby_byte(b) <==> text::digit_value(b as char) >= 0 || b as char == '-' || b as char
            == '.',
{
}

/// An id is sixteen hexadecimal digits with none before and none behind: it is found where
/// it was written, in capitals, whatever case it was written in.
pub proof fn lemma_id_is_found(before: Seq<u8>, id: Seq<u8>, behind: Seq<u8>, k: int)
    requires
        id.len() == 16,
        forall|i: int| 0 <= i < 16 ==> text::digit_value((#[trigger] id[i]) as char) >= 0,
        before.len() > 0 ==> text::digit_value(before.last() as char) < 0,
        behind.len() > 0 ==> text::digit_value(behind[0] as char) < 0,
        0 <= k < 16,
    ensures
        isolated_id(before + id + behind, before.len() as int),
        id_text(before + id + behind, before.len() as int).len() == 16,
        text::digit_value(id_text(before + id + behind, before.len() as int)[k])
            == text::digit_value(id[k] as char),
        !('a' <= id_text(before + id + behind, before.len() as int)[k] <= 'f'),
{
    let w = before + id + behind;
    let n = before.len() as int;
    assert forall|i: int| n <= i < n + 16 implies bytes::is_hex(#[trigger] w[i]) by {
        assert(w[i] == id[i - n]);
        bytes::lemma_hex_digits(w[i]);
    }
    if n > 0 {
        assert(w[n - 1] == before.last());
        bytes::lemma_hex_digits(w[n - 1]);
    }
    if behind.len() > 0 {
        assert(w[n + 16] == behind[0]);
        bytes::lemma_hex_digits(w[n + 16]);
    }
    assert(w.subrange(n, n + 16)[k] == id[k]);
    lemma_capital(id[k]);
}

proof fn lemma_capital(b: u8)
    requires
        text::digit_value(b as char) >= 0,
    ensures
        text::digit_value(upper_digit(b)) == text::digit_value(b as char),
        !('a' <= upper_digit(b) <= 'f'),
{
}

/// The nearest id is the last one: none stands further on.
pub proof fn lemma_nearest_is_last(w: Seq<u8>, i: int)
    requires
        isolated_id(w, i),
        forall|j: int| i < j ==> !isolated_id(w, j),
    ensures
        nearest_id(w) == id_text(w, i),
{
    lemma_last_is(w, i, w.len() as int);
}

proof fn lemma_last_is(w: Seq<u8>, i: int, n: int)
    requires
        isolated_id(w, i),
        i < n,
        forall|j: int| i < j ==> !isolated_id(w, j),
    ensures
        last_id(w, n) == Some(i),
    decreases n,
{
    if n - 1 != i {
        lemma_last_is(w, i, n - 1);
    }
}

/// Without an id there is no nearest one.
pub proof fn lemma_no_nearest(w: Seq<u8>)
    requires
        forall|j: int| !isolated_id(w, j),
    ensures
        nearest_id(w).len() == 0,
{
    lemma_none_before(w, w.len() as int);
}

proof fn lemma_none_before(w: Seq<u8>, n: int)
    requires
        forall|j: int| !isolated_id(w, j),
    ensures
        last_id(w, n) is None,
    decreases n,
{
    if n > 0 {
        lemma_none_before(w, n - 1);
    }
}

/// What is taken for an id is one: sixteen hexadecimal digits in a row, of which neither the
/// byte before nor the byte behind is one more.
pub proof fn lemma_id_stands_alone(w: Seq<u8>, i: int, k: int)
    requires
        isolated_id(w, i),
        0 <= k < 16,
    ensures
        0 <= i <= w.len() - 16,
        text::digit_value(w[i + k] as char) >= 0,
        i > 0 ==> text::digit_value(w[i - 1] as char) < 0,
        i + 16 < w.len() ==> text::digit_value(w[i + 16] as char) < 0,
{
    assert(bytes::is_hex(w[i + k]));
    bytes::lemma_hex_digits(w[i + k]);
    if i > 0 {
        bytes::lemma_hex_digits(w[i - 1]);
    }
    if i + 16 < w.len() {
        bytes::lemma_hex_digits(w[i + 16]);
    }
}

} // verus!
