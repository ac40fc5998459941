//! Rooms and their members, found as JSON in the heap of the game.
//!
//! The heap is handed over block by block. The rooms of the search result are
//! the values of `string_key5` fields; the members of the current room are the
//! entries of a `Members` array.
use vstd::prelude::*;
use vstd::slice::slice_subrange;

use crate::bytes;
use crate::json;
use crate::text;

verus! {

/// A room as a search result describes it.
#[derive(Clone, Debug)]
pub struct RoomInfo {
    pub leader_name: String,
    pub platform: u32,
    pub account_id: String,
    pub password: String,
    pub locked: bool,
}

/// The content of a [`RoomInfo`].
pub ghost struct Room {
    pub leader_name: Seq<char>,
    pub platform: int,
    pub account_id: Seq<char>,
    pub password: Seq<char>,
    pub locked: bool,
}

impl View for RoomInfo {
    type V = Room;

    open spec fn view(&self) -> Room {
        Room {
            leader_name: self.leader_name@,
            platform: self.platform as int,
            account_id: self.account_id@,
            password: self.password@,
            locked: self.locked,
        }
    }
}

/// An optional room by its content.
pub open spec fn opt_room(o: Option<RoomInfo>) -> Option<Room> {
    match o {
        Some(r) => Some(r@),
        None => None,
    }
}

/// The password that marks a room without one.
pub open spec fn no_password() -> Seq<char> {
    "5555555555"@
}

pub open spec fn or_empty(o: Option<Seq<char>>) -> Seq<char> {
    match o {
        Some(s) => s,
        None => seq![],
    }
}

/// The room that a JSON text describes. It must mention a leader name and a
/// lobby password; what else is missing is empty or zero.
pub open spec fn room_of_text(t: Seq<char>) -> Option<Room> {
    if !text::contains(t, "leader_name"@) || !text::contains(t, "lobby_password"@) {
        None
    } else {
        match json::str_field(t, "leader_name"@) {
            None => None,
            Some(name) => {
                let password = or_empty(json::str_field(t, "lobby_password"@));
                Some(
                    Room {
                        leader_name: name,
                        platform: match json::num_field(t, "leader_platform"@) {
                            Some(n) => n,
                            None => 0,
                        },
                        account_id: or_empty(json::str_field(t, "leader_platform_account_id"@)),
                        password: if password == no_password() {
                            seq![]
                        } else {
                            password
                        },
                        locked: password.len() != 0 && password != no_password(),
                    },
                )
            },
        }
    }
}

pub(crate) fn or_default(o: Option<String>) -> (r: String)
    ensures
        r@ == or_empty(json::opt_text(o)),
{
    match o {
        Some(s) => s,
        None => String::new(),
    }
}

/// Reads the room out of a JSON text.
pub fn room_from_text(t: &str) -> (r: Option<RoomInfo>)
    ensures
        opt_room(r) == room_of_text(t@),
{
    let v = text::chars_of(t);
    if !text::has_text(v.as_slice(), "leader_name") || !text::has_text(
        v.as_slice(),
        "lobby_password",
    ) {
        return None;
    }
    let leader_name = match json::json_str_field(t, "leader_name") {
        Some(s) => s,
        None => {
            return None;
        },
    };
    let platform: u32 = match json::json_num_field(t, "leader_platform") {
        Some(n) => n,
        None => 0,
    };
    let account_id = or_default(json::json_str_field(t, "leader_platform_account_id"));
    let password = or_default(json::json_str_field(t, "lobby_password"));
    let p = text::chars_of(password.as_str());
    let open = text::same_text(p.as_slice(), "5555555555");
    let locked = p.len() != 0 && !open;
    Some(
        RoomInfo {
            leader_name,
            platform,
            account_id,
            password: if open {
                String::new()
            } else {
                password
            },
            locked,
        },
    )
}

/// The byte that an escaped byte stands for.
pub open spec fn escape(b: u8) -> u8 {
    if b == 0x6E {
        0x0A
    } else if b == 0x72 {
        0x0D
    } else if b == 0x74 {
        0x09
    } else {
        b
    }
}

/// The content of a quoted string, up to its closing quote and to `limit` bytes.
pub open spec fn quoted_value(s: Seq<u8>, limit: int) -> Seq<u8>
    decreases s.len(),
{
    if s.len() == 0 || limit <= 0 || s[0] == 0x22 {
        seq![]
    } else if s[0] == 0x5C {
        if s.len() == 1 {
            seq![]
        } else {
            seq![escape(s[1])] + quoted_value(s.skip(2), limit - 1)
        }
    } else {
        seq![s[0]] + quoted_value(s.skip(1), limit - 1)
    }
}

pub const SK5_LIMIT: usize = 0x600;

/// Where the value of a field begins, in what follows its key: past the first
/// quote behind the first colon.
pub open spec fn value_start(s: Seq<u8>) -> Option<int> {
    let colon = text::prefix_len(s, |b: u8| b != 0x3A);
    let quote = text::prefix_len(s.skip(colon), |b: u8| b != 0x22);
    if colon + quote < s.len() {
        Some(colon + quote + 1)
    } else {
        None
    }
}

/// The room in the value of the `string_key5` field whose key stands at `rel`.
pub open spec fn sk5_room(data: Seq<u8>, rel: int) -> Option<Room> {
    let after = data.skip(rel + "string_key5"@.len());
    match value_start(after) {
        None => None,
        Some(i) => {
            let val = quoted_value(after.skip(i), SK5_LIMIT as int);
            if vstd::utf8::valid_utf8(val) {
                room_of_text(vstd::utf8::decode_utf8(val))
            } else {
                None
            }
        },
    }
}

fn seek(s: &[u8], from: usize, b: u8) -> (r: usize)
    requires
        from <= s@.len(),
    ensures
        from <= r <= s@.len(),
        r - from == text::prefix_len(s@.skip(from as int), |x: u8| x != b),
{
    let ghost t = s@.skip(from as int);
    let ghost p = |x: u8| x != b;
    let mut i: usize = from;
    while i < s.len() && s[i] != b
        invariant
            from <= i <= s.len(),
            t == s@.skip(from as int),
            p == (|x: u8| x != b),
            forall|k: int| 0 <= k < i - from ==> p(#[trigger] t[k]),
        decreases s.len() - i,
    {
        assert(t[i - from] == s@[i as int]);
        i += 1;
    }
    proof {
        if i < s.len() {
            assert(t[i - from] == s@[i as int]);
        }
        text::lemma_prefix_len_is(t, p, i - from);
    }
    i
}

fn unescape(s: &[u8], from: usize, limit: usize) -> (r: Vec<u8>)
    requires
        from <= s@.len(),
    ensures
        r@ == quoted_value(s@.skip(from as int), limit as int),
{
    let ghost all = quoted_value(s@.skip(from as int), limit as int);
    let mut out: Vec<u8> = Vec::new();
    let mut i: usize = from;
    while i < s.len() && out.len() < limit && s[i] != 0x22
        invariant_except_break
            out@ + quoted_value(s@.skip(i as int), limit - out@.len()) == all,
        invariant
            from <= i <= s.len(),
            out.len() <= limit,
        ensures
            out@ == all,
        decreases s.len() - i,
    {
        let ghost t = s@.skip(i as int);
        let ghost before = out@;
        if s[i] == 0x5C {
            if i + 1 == s.len() {
                assert(out@ + quoted_value(t, limit - out@.len()) == out@);
                break;
            }
            let b = s[i + 1];
            if b == 0x6E {
                out.push(0x0A);
            } else if b == 0x72 {
                out.push(0x0D);
            } else if b == 0x74 {
                out.push(0x09);
            } else {
                out.push(b);
            }
            assert(t[1] == b);
            assert(t.skip(2) == s@.skip(i + 2));
            assert(out@ + quoted_value(t.skip(2), limit - out@.len()) == before + (seq![escape(b)]
                + quoted_value(t.skip(2), limit - out@.len())));
            i += 2;
        } else {
            out.push(s[i]);
            assert(t.skip(1) == s@.skip(i + 1));
            assert(out@ + quoted_value(t.skip(1), limit - out@.len()) == before + (seq![t[0]]
                + quoted_value(t.skip(1), limit - out@.len())));
            i += 1;
        }
    }
    out
}

/// Parses the room in the value of the `string_key5` field at `rel`.
pub fn parse_sk5_room_in_chunk(data: &[u8], rel: usize) -> (r: Option<RoomInfo>)
    requires
        rel + "string_key5"@.len() <= data@.len(),
    ensures
        opt_room(r) == sk5_room(data@, rel as int),
{
    let key: usize = "string_key5".unicode_len();
    assert(rel + key <= data.len());
    let after = slice_subrange(data, rel + key, data.len());
    assert(after@ == data@.skip(rel + key));
    assert(after@.skip(0) == after@);
    let colon: usize = seek(after, 0, 0x3A);
    let i: usize = seek(after, colon, 0x22);
    if i >= after.len() {
        return None;
    }
    let val = unescape(after, i + 1, SK5_LIMIT);
    match bytes::utf8_text(val.as_slice()) {
        Some(t) => room_from_text(t.as_str()),
        None => None,
    }
}

/// The object that begins at the last opening brace before `rel`, at most `back`
/// bytes before it, and ends at most `fwd` bytes past `rel`.
pub open spec fn object_before(data: Seq<u8>, rel: int, back: int, fwd: int) -> Option<Seq<char>> {
    let start = bytes::window_start(rel, back);
    match json::last_open(bytes::window_of(data, rel, back, 0)) {
        Some(js) => json::object_text(
            data.subrange(start + js, bytes::window_end(data.len() as int, rel, fwd)),
        ),
        None => None,
    }
}

/// The JSON text around a hit in a block: from the last opening brace at most
/// `max_back` bytes before the hit to the brace that closes it.
pub fn parse_json_in_chunk(data: &[u8], rel: usize, max_back: usize) -> (r: Option<String>)
    requires
        bytes::window_start(rel as int, max_back as int) <= data@.len(),
    ensures
        json::opt_text(r) == object_before(data@, rel as int, max_back as int, 0x600),
{
    let start: usize = if rel < max_back {
        0
    } else {
        rel - max_back
    };
    match json::last_open_brace(bytes::window(data, rel, max_back, 0)) {
        Some(js) => {
            let end: usize = if data.len() < rel || data.len() - rel < 0x600 {
                data.len()
            } else {
                rel + 0x600
            };
            json::object_at(slice_subrange(data, start + js, end))
        },
        None => None,
    }
}

/// The object that begins at the last opening brace of a window before `rel`, at most
/// `back` bytes before it.
pub open spec fn object_in_window(w: Seq<u8>, rel: int, back: int) -> Option<Seq<char>> {
    match json::last_open(bytes::window_of(w, rel, back, 0)) {
        Some(js) => json::object_text(w.skip(bytes::window_start(rel, back) + js)),
        None => None,
    }
}

/// The JSON text in a window around an offset: from the last opening brace at most
/// `max_back` bytes before it to the brace that closes it.
pub fn parse_json_in_chunk_from(window: &[u8], rel: usize, max_back: usize) -> (r: Option<String>)
    requires
        bytes::window_start(rel as int, max_back as int) <= window@.len(),
    ensures
        json::opt_text(r) == object_in_window(window@, rel as int, max_back as int),
{
    let start: usize = if rel < max_back {
        0
    } else {
        rel - max_back
    };
    match json::last_open_brace(bytes::window(window, rel, max_back, 0)) {
        Some(js) => {
            let content = slice_subrange(window, start + js, window.len());
            assert(content@ == window@.skip(start + js));
            json::object_at(content)
        },
        None => None,
    }
}

/// The room whose JSON text surrounds `rel`.
pub open spec fn room_before(data: Seq<u8>, rel: int) -> Option<Room> {
    match object_before(data, rel, 0x300, 0x600) {
        Some(t) => room_of_text(t),
        None => None,
    }
}

/// Parses the room whose JSON text surrounds a hit in a block.
pub fn parse_room_json_in_chunk(data: &[u8], rel: usize) -> (r: Option<RoomInfo>)
    requires
        bytes::window_start(rel as int, 0x300) <= data@.len(),
    ensures
        opt_room(r) == room_before(data@, rel as int),
{
    match parse_json_in_chunk(data, rel, 0x300) {
        Some(t) => room_from_text(t.as_str()),
        None => None,
    }
}

/// Where the object around a hit begins, given the `max_back` bytes of memory
/// before the hit. Nothing is found where those bytes hold no opening brace, or
/// where the hit lies so low that there are not as many.
pub fn json_start(hit_pos: usize, max_back: usize, back: &[u8]) -> (r: Option<usize>)
    ensures
        match r {
            Some(a) => hit_pos >= max_back && json::last_open(back@) == Some(
                a - (hit_pos - max_back),
            ),
            None => hit_pos < max_back || match json::last_open(back@) {
                Some(js) => hit_pos - max_back + js > usize::MAX,
                None => true,
            },
        },
{
    match json::last_open_brace(back) {
        Some(js) => match hit_pos.checked_sub(max_back) {
            Some(base) => base.checked_add(js),
            None => None,
        },
        None => None,
    }
}

/// The room described by the object with which some memory begins.
pub open spec fn room_of_content(content: Seq<u8>) -> Option<Room> {
    match json::object_text(content) {
        Some(t) => room_of_text(t),
        None => None,
    }
}

/// Parses the room in memory read from where its object begins.
pub fn parse_room_json(content: &[u8]) -> (r: Option<RoomInfo>)
    ensures
        opt_room(r) == room_of_content(content@),
{
    match json::object_at(content) {
        Some(t) => room_from_text(t.as_str()),
        None => None,
    }
}

/// The text of the object with which some memory begins, where it speaks of a
/// member's platform.
pub open spec fn member_text(content: Seq<u8>) -> Option<Seq<char>> {
    match json::object_text(content) {
        Some(t) => if text::contains(t, "member_platform"@) {
            Some(t)
        } else {
            None
        },
        None => None,
    }
}

/// Parses a member's JSON text in memory read from where its object begins.
pub fn parse_json_at(content: &[u8]) -> (r: Option<String>)
    ensures
        json::opt_text(r) == member_text(content@),
{
    match json::object_at(content) {
        Some(t) => {
            let v = text::chars_of(t.as_str());
            if text::has_text(v.as_slice(), "member_platform") {
                Some(t)
            } else {
                None
            }
        },
        None => None,
    }
}

/// The leader that the JSON text around `rel` names: account and name.
pub open spec fn leader_at(data: Seq<u8>, rel: int) -> Option<(Seq<char>, Seq<char>)> {
    let w = bytes::window_of(data, rel, 0x80, 0x200);
    match object_in_window(w, rel - bytes::window_start(rel, 0x80), 0x80) {
        None => None,
        Some(t) => match json::str_field(t, "leader_name"@) {
            None => None,
            Some(name) => {
                let acc = or_empty(json::str_field(t, "leader_platform_account_id"@));
                if acc.len() == 0 {
                    None
                } else {
                    Some((acc, name))
                }
            },
        },
    }
}

/// An optional pair of strings by its content.
pub open spec fn opt_pair(o: Option<(String, String)>) -> Option<(Seq<char>, Seq<char>)> {
    match o {
        Some(p) => Some((p.0@, p.1@)),
        None => None,
    }
}

/// Parses the JSON text around a leader's name: account and name.
pub fn parse_leader_in_chunk(data: &[u8], rel: usize) -> (r: Option<(String, String)>)
    requires
        bytes::window_start(rel as int, 0x80) <= data@.len(),
    ensures
        opt_pair(r) == leader_at(data@, rel as int),
{
    let w = bytes::window(data, rel, 0x80, 0x200);
    let start: usize = if rel < 0x80 {
        0
    } else {
        rel - 0x80
    };
    match parse_json_in_chunk_from(w, rel - start, 0x80) {
        None => None,
        Some(t) => match json::json_str_field(t.as_str(), "leader_name") {
            None => None,
            Some(name) => {
                let acc = or_default(json::json_str_field(t.as_str(), "leader_platform_account_id"));
                if acc.as_str().is_empty() {
                    None
                } else {
                    Some((acc, name))
                }
            },
        },
    }
}

/// The sixteen hexadecimal digits of the last `Id` field of a window.
pub open spec fn id_in(w: Seq<u8>) -> Option<Seq<char>> {
    let mark = bytes::ascii("\"Id\":\""@);
    match bytes::last_sub_at(w, mark, w.len() as int) {
        None => None,
        Some(m) => {
            let rest = w.skip(m + mark.len());
            if bytes::hex_run(rest) == 16 {
                Some(bytes::byte_chars(rest.take(16)))
            } else {
                None
            }
        },
    }
}

fn find_id(w: &[u8]) -> (r: Option<String>)
    ensures
        json::opt_text(r) == id_in(w@),
{
    let mark = bytes::ascii_of("\"Id\":\"");
    match bytes::find_last_sub(w, mark.as_slice()) {
        None => None,
        Some(m) => {
            assert(m + mark.len() <= w.len());
            let rest = slice_subrange(w, m + mark.len(), w.len());
            assert(rest@ == w@.skip(m + mark.len()));
            let n: usize = bytes::hex_run_len(rest);
            if n != 16 {
                return None;
            }
            assert(rest@.take(16) == rest@.subrange(0, 16));
            Some(bytes::chars_of_bytes(slice_subrange(rest, 0, 16)))
        },
    }
}

/// The member whose `MemberData` object stands at `rel`: its id, which is the last one
/// before it, and the text of the object behind the key.
pub open spec fn member_data_at(data: Seq<u8>, rel: int) -> Option<(Seq<char>, Seq<char>)> {
    let mark = bytes::ascii("\"MemberData\":{"@);
    match id_in(bytes::window_of(data, rel, 0x200, 0)) {
        None => None,
        Some(gid) => if text::occurs_at(data, mark, rel - 1) {
            match json::object_text(
                data.subrange(
                    rel - 2 + mark.len(),
                    bytes::window_end(data.len() as int, rel, 0x300),
                ),
            ) {
                Some(t) => Some((gid, t)),
                None => None,
            }
        } else {
            None
        },
    }
}

/// Parses the entry of a `Members` array around a hit in a block: the member's
/// id and the text of its `MemberData` object.
pub fn parse_member_data_in_chunk(data: &[u8], rel: usize) -> (r: Option<(String, String)>)
    requires
        bytes::window_start(rel as int, 0x200) <= data@.len(),
    ensures
        opt_pair(r) == member_data_at(data@, rel as int),
{
    let gid = match find_id(bytes::window(data, rel, 0x200, 0)) {
        Some(g) => g,
        None => {
            return None;
        },
    };
    let mark = bytes::ascii_of("\"MemberData\":{");
    if rel == 0 || !bytes::stands_at(data, mark.as_slice(), rel - 1) {
        return None;
    }
    proof {
        reveal_strlit("\"MemberData\":{");
    }
    assert(mark.len() == 14);
    let end: usize = if data.len() - rel < 0x300 {
        data.len()
    } else {
        rel + 0x300
    };
    match json::object_at(slice_subrange(data, rel + 12, end)) {
        Some(t) => Some((gid, t)),
        None => None,
    }
}

/// Whether `char::is_alphanumeric` holds of a character.
pub uninterp spec fn alphanumeric(c: char) -> bool;

/// `char::is_alphanumeric`: a function of the character alone.
#[verifier::external_body]
fn is_alphanumeric(c: char) -> (r: bool)
    ensures
        r == alphanumeric(c),
{
    c.is_alphanumeric()
}

/// The length of a UTF-8 sequence, by its first byte.
pub open spec fn seq_len(b: u8) -> int {
    if b >= 0xF0 {
        4
    } else if b >= 0xE0 {
        3
    } else if b >= 0xC0 {
        2
    } else {
        1
    }
}

pub fn utf8_len(b: u8) -> (r: usize)
    ensures
        r == seq_len(b),
{
    if b >= 0xF0 {
        4
    } else if b >= 0xE0 {
        3
    } else if b >= 0xC0 {
        2
    } else {
        1
    }
}

/// The text of the multi-byte sequence at `i`, where there is a valid one.
pub open spec fn multibyte_at(s: Seq<u8>, i: int) -> Option<Seq<char>> {
    if 0 <= i < s.len() && seq_len(s[i]) >= 2 && i + seq_len(s[i]) <= s.len()
        && vstd::utf8::valid_utf8(s.subrange(i, i + seq_len(s[i]))) {
        Some(vstd::utf8::decode_utf8(s.subrange(i, i + seq_len(s[i]))))
    } else {
        None
    }
}

fn read_multibyte(s: &[u8], i: usize) -> (r: Option<String>)
    requires
        i < s@.len(),
    ensures
        json::opt_text(r) == multibyte_at(s@, i as int),
{
    let n: usize = utf8_len(s[i]);
    if n < 2 || s.len() - i < n {
        return None;
    }
    bytes::utf8_text(slice_subrange(s, i, i + n))
}

pub open spec fn is_ascii_punctuation(c: char) -> bool {
    ||| '!' <= c <= '/'
    ||| ':' <= c <= '@'
    ||| '[' <= c <= '`'
    ||| '{' <= c <= '~'
}

/// The characters of a name: letters, digits and the heart, and where `first`
/// holds ASCII punctuation too.
pub open spec fn name_char(c: char, first: bool) -> bool {
    alphanumeric(c) || c == '\u{2764}' || (first && is_ascii_punctuation(c))
}

pub open spec fn name_chars(t: Seq<char>, first: bool) -> bool {
    forall|i: int| 0 <= i < t.len() ==> name_char(#[trigger] t[i], first)
}

/// Whether a character may stand in a name, given whether it is a letter or a digit.
pub fn allows_name_char(c: char, alnum: bool, first: bool) -> (r: bool)
    ensures
        r == (alnum || c == '\u{2764}' || (first && is_ascii_punctuation(c))),
{
    let punct = ('!' <= c && c <= '/') || (':' <= c && c <= '@') || ('[' <= c && c <= '`') || ('{'
        <= c && c <= '~');
    alnum || c == '\u{2764}' || (first && punct)
}

fn all_name_chars(t: &str, first: bool) -> (r: bool)
    ensures
        r == name_chars(t@, first),
{
    let v = text::chars_of(t);
    let mut i: usize = 0;
    while i < v.len()
        invariant
            i <= v.len(),
            v@ == t@,
            forall|k: int| 0 <= k < i ==> name_char(#[trigger] v@[k], first),
        decreases v.len() - i,
    {
        let c = v[i];
        if !allows_name_char(c, is_alphanumeric(c), first) {
            assert(!name_char(v@[i as int], first));
            return false;
        }
        i += 1;
    }
    true
}

/// The text of the unbroken run of multi-byte name characters from `i` on.
pub open spec fn name_run(s: Seq<u8>, i: int) -> Seq<char>
    decreases s.len() - i,
{
    match multibyte_at(s, i) {
        Some(t) => if name_chars(t, false) {
            t + name_run(s, i + seq_len(s[i]))
        } else {
            seq![]
        },
        None => seq![],
    }
}

/// The name that begins at `i`: a sequence of three bytes or more and the run
/// behind it. One sequence is one character, and a name has at least two.
pub open spec fn name_at(s: Seq<u8>, i: int) -> Option<Seq<char>> {
    if 0 <= i && s[i] >= 0xE0 && i + 2 < s.len() {
        match multibyte_at(s, i) {
            Some(t) => {
                let full = t + name_run(s, i + seq_len(s[i]));
                if name_chars(t, true) && full.len() >= 2 {
                    Some(full)
                } else {
                    None
                }
            },
            None => None,
        }
    } else {
        None
    }
}

/// The first name from `i` on.
pub open spec fn first_name(s: Seq<u8>, i: int) -> Option<Seq<char>>
    decreases s.len() - i,
{
    if i >= s.len() {
        None
    } else if name_at(s, i) is Some {
        name_at(s, i)
    } else {
        first_name(s, i + 1)
    }
}

fn read_name(s: &[u8], i: usize) -> (r: Option<String>)
    requires
        i < s@.len(),
    ensures
        json::opt_text(r) == name_at(s@, i as int),
{
    if s[i] < 0xE0 || s.len() - i <= 2 {
        return None;
    }
    let mut full = match read_multibyte(s, i) {
        Some(t) => t,
        None => {
            return None;
        },
    };
    let ghost head = full@;
    let named = all_name_chars(full.as_str(), true);
    let mut j: usize = i + utf8_len(s[i]);
    let ghost whole = head + name_run(s@, j as int);
    while j < s.len()
        invariant_except_break
            full@ + name_run(s@, j as int) == whole,
        invariant
            j <= s.len(),
        ensures
            full@ == whole,
        decreases s.len() - j,
    {
        match read_multibyte(s, j) {
            Some(t) => {
                if !all_name_chars(t.as_str(), false) {
                    assert(full@ + name_run(s@, j as int) == full@);
                    break;
                }
                let ghost before = full@;
                full.append(t.as_str());
                let n: usize = utf8_len(s[j]);
                assert(before + (t@ + name_run(s@, j + n)) == full@ + name_run(s@, j + n));
                j += n;
            },
            None => {
                assert(full@ + name_run(s@, j as int) == full@);
                break;
            },
        }
    }
    if named && full.as_str().unicode_len() >= 2 {
        Some(full)
    } else {
        None
    }
}

/// The last id before `rel` and the first name behind it.
pub open spec fn game_name_at(data: Seq<u8>, rel: int) -> Option<(Seq<char>, Seq<char>)> {
    match id_in(data.subrange(bytes::window_start(rel, 0x100), rel)) {
        None => None,
        Some(gid) => match first_name(bytes::window_of(data, rel, 0, 0x100), 0) {
            Some(name) => Some((gid, name)),
            None => None,
        },
    }
}

/// Finds the name of the account object at `rel`: the last id before it, and the
/// first name in the bytes behind it.
pub fn parse_game_name_near(data: &[u8], rel: usize) -> (r: Option<(String, String)>)
    requires
        rel <= data@.len(),
    ensures
        opt_pair(r) == game_name_at(data@, rel as int),
{
    let start: usize = if rel < 0x100 {
        0
    } else {
        rel - 0x100
    };
    let gid = match find_id(slice_subrange(data, start, rel)) {
        Some(g) => g,
        None => {
            return None;
        },
    };
    let after = bytes::window(data, rel, 0, 0x100);
    let mut i: usize = 0;
    while i < after.len()
        invariant
            i <= after.len(),
            first_name(after@, 0) == first_name(after@, i as int),
            after@ == bytes::window_of(data@, rel as int, 0, 0x100),
            Some(gid@) == id_in(data@.subrange(bytes::window_start(rel as int, 0x100), rel as int)),
        decreases after.len() - i,
    {
        match read_name(after, i) {
            Some(name) => {
                return Some((gid, name));
            },
            None => {},
        }
        i += 1;
    }
    None
}

/// A room is locked exactly where a password is shown for it; the password that marks
/// a room without one is never shown.
pub proof fn lemma_locked_has_password(t: Seq<char>)
    requires
        room_of_text(t) is Some,
    ensures
        ({
            let r = room_of_text(t)->0;
            &&& r.locked <==> r.password.len() != 0
            &&& r.password != no_password()
        }),
{
    reveal_strlit("5555555555");
}

/// What a room's text says of the room is what the room is: who leads it, on which
/// platform and under which account; and a password that is neither empty nor the one
/// that stands for none is kept as it is, and locks the room.
pub proof fn lemma_room_as_described(t: Seq<char>, name: Seq<char>, p: Seq<char>)
    requires
        json::str_field(t, "leader_name"@) == Some(name),
        json::str_field(t, "lobby_password"@) == Some(p),
    ensures
        room_of_text(t) is Some,
        room_of_text(t)->0.leader_name == name,
        p != "5555555555"@ && p.len() != 0 ==> room_of_text(t)->0.locked && room_of_text(
            t,
        )->0.password == p,
        p == "5555555555"@ || p.len() == 0 ==> !room_of_text(t)->0.locked && room_of_text(
            t,
        )->0.password.len() == 0,
        forall|n: int|
            json::num_field(t, "leader_platform"@) == Some(n) ==> room_of_text(t)->0.platform == n,
        json::num_field(t, "leader_platform"@) is None ==> room_of_text(t)->0.platform == 0,
        forall|a: Seq<char>|
            json::str_field(t, "leader_platform_account_id"@) == Some(a) ==> room_of_text(
                t,
            )->0.account_id == a,
        json::str_field(t, "leader_platform_account_id"@) is None ==> room_of_text(
            t,
        )->0.account_id.len() == 0,
{
    json::lemma_field_is_mentioned(t, "leader_name"@);
    json::lemma_field_is_mentioned(t, "lobby_password"@);
}

/// A text that names no leader, or that nowhere speaks of a password, describes no
/// room; one that names a leader and speaks of a password without a value describes
/// an open room.
pub proof fn lemma_no_room_described(t: Seq<char>)
    ensures
        json::str_field(t, "leader_name"@) is None ==> room_of_text(t) is None,
        (forall|i: int|
            0 <= i <= t.len() - 14 ==> #[trigger] t.subrange(i, i + 14) != "lobby_password"@)
            ==> room_of_text(t) is None,
        json::str_field(t, "lobby_password"@) is None && room_of_text(t) is Some ==> !room_of_text(
            t,
        )->0.locked && room_of_text(t)->0.password.len() == 0,
{
    reveal_strlit("lobby_password");
    if text::contains(t, "lobby_password"@) {
        let i = choose|i: int| text::occurs_at(t, "lobby_password"@, i);
        assert(t.subrange(i, i + 14) == "lobby_password"@);
    }
}

/// A text as it stands in the value of a `string_key5` field: a backslash goes before
/// each quote and each backslash, and line feed, carriage return and tab are letters
/// behind one.
pub open spec fn escaped(s: Seq<u8>) -> Seq<u8>
    decreases s.len(),
{
    if s.len() == 0 {
        seq![]
    } else {
        (if s[0] == 0x22 || s[0] == 0x5C {
            seq![0x5Cu8, s[0]]
        } else if s[0] == 0x0A {
            seq![0x5Cu8, 0x6E]
        } else if s[0] == 0x0D {
            seq![0x5Cu8, 0x72]
        } else if s[0] == 0x09 {
            seq![0x5Cu8, 0x74]
        } else {
            seq![s[0]]
        }) + escaped(s.drop_first())
    }
}

/// What was escaped is read back, as far as the limit reaches, whatever stands behind the
/// closing quote.
pub proof fn lemma_escaped_is_read(s: Seq<u8>, behind: Seq<u8>, limit: int)
    requires
        0 <= limit,
    ensures
        quoted_value(escaped(s) + seq![0x22u8] + behind, limit) == (if s.len() <= limit {
            s
        } else {
            s.take(limit)
        }),
    decreases s.len(),
{
    let t = escaped(s) + seq![0x22u8] + behind;
    if s.len() == 0 {
        assert(t[0] == 0x22);
        assert(s =~= seq![]);
    } else if limit == 0 {
        assert(s.take(0) =~= seq![]);
    } else {
        let rest = s.drop_first();
        lemma_escaped_is_read(rest, behind, limit - 1);
        let u = escaped(rest) + seq![0x22u8] + behind;
        assert(s =~= seq![s[0]] + rest);
        if limit < s.len() {
            assert(s.take(limit) =~= seq![s[0]] + rest.take(limit - 1));
        }
        if s[0] == 0x22 || s[0] == 0x5C || s[0] == 0x0A || s[0] == 0x0D || s[0] == 0x09 {
            assert(t.len() >= 2 && t[0] == 0x5C);
            assert(t.skip(2) =~= u);
        } else {
            assert(t[0] == s[0]);
            assert(t.skip(1) =~= u);
        }
    }
}

/// The room that was written into a `string_key5` field is read back: the field's value
/// stands behind the first colon and the next quote, and may have 1536 bytes.
pub proof fn lemma_sk5_room_is_read(
    data: Seq<u8>,
    before: Seq<u8>,
    a: Seq<u8>,
    b: Seq<u8>,
    t: Seq<char>,
    behind: Seq<u8>,
)
    requires
        data == before + (bytes::ascii("string_key5"@) + (a + seq![0x3Au8] + (b + seq![0x22u8] + (
        escaped(vstd::utf8::encode_utf8(t)) + seq![0x22u8] + behind)))),
        forall|i: int| 0 <= i < a.len() ==> #[trigger] a[i] != 0x3A,
        forall|i: int| 0 <= i < b.len() ==> #[trigger] b[i] != 0x22,
        vstd::utf8::encode_utf8(t).len() <= 1536,
    ensures
        sk5_room(data, before.len() as int) == room_of_text(t),
{
    let key = bytes::ascii("string_key5"@);
    let value = vstd::utf8::encode_utf8(t);
    let val = escaped(value) + seq![0x22u8] + behind;
    let bq = b + seq![0x22u8] + val;
    let after = a + seq![0x3Au8] + bq;
    assert(data.skip((before.len() + "string_key5"@.len()) as int) =~= after);
    let p = |x: u8| x != 0x3A;
    assert forall|i: int| 0 <= i < a.len() implies p(#[trigger] after[i]) by {
        assert(after[i] == a[i]);
    }
    assert(after[a.len() as int] == 0x3A);
    text::lemma_prefix_len_is(after, p, a.len() as int);
    let q = |x: u8| x != 0x22;
    let tail = after.skip(a.len() as int);
    assert(tail =~= seq![0x3Au8] + bq);
    let n = b.len() + 1;
    assert forall|i: int| 0 <= i < n implies q(#[trigger] tail[i]) by {
        if i > 0 {
            assert(tail[i] == b[i - 1]);
        }
    }
    assert(tail[n as int] == 0x22);
    text::lemma_prefix_len_is(tail, q, n as int);
    assert(value_start(after) == Some((a.len() + n + 1) as int));
    assert(after.skip((a.len() + n + 1) as int) =~= val);
    lemma_escaped_is_read(value, behind, 1536);
    vstd::utf8::encode_utf8_valid_utf8(t);
    vstd::utf8::encode_utf8_decode_utf8(t);
}

/// The object around a hit begins at the nearest opening brace before it, and is looked
/// for up to so many bytes past it; without a brace near enough there is none.
pub proof fn lemma_object_around(data: Seq<u8>, rel: int, back: int, fwd: int, o: int)
    requires
        0 <= back,
        0 <= fwd,
        0 <= o < rel <= data.len(),
        rel - back <= o,
        data[o] == 0x7B,
        forall|i: int| o < i < rel ==> #[trigger] data[i] != 0x7B,
    ensures
        object_before(data, rel, back, fwd) == json::object_text(
            data.subrange(
                o,
                if rel + fwd <= data.len() {
                    rel + fwd
                } else {
                    data.len() as int
                },
            ),
        ),
        object_in_window(data, rel, back) == json::object_text(data.skip(o)),
{
    let start = bytes::window_start(rel, back);
    let w = bytes::window_of(data, rel, back, 0);
    let head = w.take(o - start);
    let tail = w.skip(o - start + 1);
    assert(w =~= data.subrange(start, rel));
    assert(w =~= head + seq![0x7Bu8] + tail);
    assert forall|i: int| 0 <= i < tail.len() implies #[trigger] tail[i] != 0x7B by {
        assert(tail[i] == data[o + 1 + i]);
    }
    json::lemma_last_open(head, tail);
}

/// Where no opening brace stands in the bytes before a hit, there is no object.
pub proof fn lemma_no_object_around(data: Seq<u8>, rel: int, back: int, fwd: int)
    requires
        0 <= back,
        0 <= rel <= data.len(),
        forall|i: int| rel - back <= i < rel && 0 <= i ==> #[trigger] data[i] != 0x7B,
    ensures
        object_before(data, rel, back, fwd) is None,
        object_in_window(data, rel, back) is None,
{
    let w = bytes::window_of(data, rel, back, 0);
    assert forall|i: int| 0 <= i < w.len() implies #[trigger] w[i] != 0x7B by {
        assert(w[i] == data[bytes::window_start(rel, back) + i]);
    }
    json::lemma_last_open(seq![], w);
}

/// A room is read from the object around a hit, which begins at most 768 bytes before it
/// and ends at most 1536 bytes past it.
pub proof fn lemma_room_around(data: Seq<u8>, rel: int, o: int, e: int, t: Seq<char>)
    requires
        0 <= o < rel <= data.len(),
        rel - 768 <= o,
        data[o] == 0x7B,
        forall|i: int| o < i < rel ==> #[trigger] data[i] != 0x7B,
        e == (if rel + 1536 <= data.len() {
            rel + 1536
        } else {
            data.len() as int
        }),
        json::object_text(data.subrange(o, e)) == Some(t),
    ensures
        room_before(data, rel) == room_of_text(t),
        room_of_content(data.subrange(o, e)) == room_of_text(t),
{
    lemma_object_around(data, rel, 768, 1536, o);
}

/// A leader is read from the object around a hit, which begins at most 128 bytes before
/// it and ends at most 512 bytes past it: the name under the account. Without a name, or
/// without an account, nobody is.
pub proof fn lemma_leader_around(data: Seq<u8>, rel: int, o: int, e: int, t: Seq<char>)
    requires
        0 <= o < rel <= data.len(),
        rel - 128 <= o,
        data[o] == 0x7B,
        forall|i: int| o < i < rel ==> #[trigger] data[i] != 0x7B,
        e == (if rel + 512 <= data.len() {
            rel + 512
        } else {
            data.len() as int
        }),
        json::object_text(data.subrange(o, e)) == Some(t),
    ensures
        ({
            let name = json::str_field(t, "leader_name"@);
            let account = json::str_field(t, "leader_platform_account_id"@);
            name is Some && account is Some && account->0.len() > 0 ==> leader_at(data, rel) == Some(
                (account->0, name->0),
            )
        }),
        json::str_field(t, "leader_name"@) is None ==> leader_at(data, rel) is None,
        json::str_field(t, "leader_platform_account_id"@) is None || json::str_field(
            t,
            "leader_platform_account_id"@,
        )->0.len() == 0 ==> leader_at(data, rel) is None,
{
    let start = bytes::window_start(rel, 128);
    let w = bytes::window_of(data, rel, 128, 512);
    let at = rel - start;
    let b = o - start;
    assert(w =~= data.subrange(start, e));
    assert(w[b] == 0x7B);
    assert forall|i: int| b < i < at implies #[trigger] w[i] != 0x7B by {
        assert(w[i] == data[start + i]);
    }
    lemma_object_around(w, at, 128, 0, b);
    assert(w.skip(b) =~= data.subrange(o, e));
}

/// The id of a window is that of its last `Id` field, where exactly sixteen hexadecimal
/// digits stand there.
pub proof fn lemma_id_is_read(w: Seq<u8>, before: Seq<u8>, id: Seq<u8>, behind: Seq<u8>)
    requires
        w == before + (bytes::ascii("\"Id\":\""@) + (id + behind)),
        forall|k: int| before.len() < k <= w.len() - 6 ==> #[trigger] w.subrange(k, k + 6)
            != bytes::ascii("\"Id\":\""@),
        forall|i: int| 0 <= i < id.len() ==> bytes::is_hex(#[trigger] id[i]),
        behind.len() > 0 ==> !bytes::is_hex(behind[0]),
    ensures
        id.len() == 16 ==> id_in(w) == Some(bytes::byte_chars(id)),
        id.len() != 16 ==> id_in(w) is None,
{
    let mark = bytes::ascii("\"Id\":\""@);
    reveal_strlit("\"Id\":\"");
    assert(mark.len() == 6);
    bytes::lemma_last_place(w, mark, w.len() as int);
    let at = before.len() as int;
    assert(w.subrange(at, at + 6) =~= mark);
    match bytes::last_sub_at(w, mark, w.len() as int) {
        None => {
            assert(w.subrange(at, at + mark.len()) != mark);
        },
        Some(i) => {
            if i < at {
                assert(w.subrange(at, at + mark.len()) != mark);
            } else if i > at {
                assert(w.subrange(i, i + 6) != mark);
            }
            assert(i == at);
        },
    }
    let rest = id + behind;
    assert(w.skip(at + 6) =~= rest);
    let p = |b: u8| bytes::is_hex(b);
    assert forall|i: int| 0 <= i < id.len() implies p(#[trigger] rest[i]) by {
        assert(rest[i] == id[i]);
    }
    if behind.len() > 0 {
        assert(rest[id.len() as int] == behind[0]);
    }
    text::lemma_prefix_len_is(rest, p, id.len() as int);
    if id.len() == 16 {
        assert(rest.take(16) =~= id);
    }
}

/// A member is read where `MemberData` is a key whose value is an object: with the last
/// id of the 512 bytes before it, and the object, which ends at most 768 bytes past the
/// hit. Anything else is no member.
pub proof fn lemma_member_is_read(data: Seq<u8>, rel: int, e: int, gid: Seq<char>, t: Seq<char>)
    requires
        0 <= rel <= data.len(),
        e == (if rel + 768 <= data.len() {
            rel + 768
        } else {
            data.len() as int
        }),
    ensures
        ({
            let from = if rel < 512 {
                0
            } else {
                rel - 512
            };
            let key = 0 < rel && rel + 13 <= data.len() && data.subrange(rel - 1, rel + 13)
                == bytes::ascii("\"MemberData\":{"@);
            let id = id_in(data.subrange(from, rel));
            let object = json::object_text(data.subrange(rel + 12, e));
            &&& key && id == Some(gid) && object == Some(t) ==> member_data_at(data, rel) == Some(
                (gid, t),
            )
            &&& !key || id is None || object is None ==> member_data_at(data, rel) is None
        }),
{
    reveal_strlit("\"MemberData\":{");
    assert(bytes::ascii("\"MemberData\":{"@).len() == 14);
}

proof fn lemma_sequence(c: char)
    requires
        c as u32 >= 0x80,
    ensures
        ({
            let e = vstd::utf8::encode_utf8(seq![c]);
            &&& e == vstd::utf8::encode_scalar(c as u32)
            &&& 2 <= e.len() <= 4
            &&& seq_len(e[0]) == e.len()
            &&& c as u32 >= 0x800 ==> e[0] >= 0xE0 && e.len() >= 3
            &&& vstd::utf8::valid_utf8(e)
            &&& vstd::utf8::decode_utf8(e) == seq![c]
        }),
{
    let e = vstd::utf8::encode_utf8(seq![c]);
    let x = c as u32;
    assert(seq![c].drop_first() =~= Seq::<char>::empty());
    assert(vstd::utf8::encode_utf8(seq![c].drop_first()) =~= Seq::<u8>::empty());
    assert(e =~= vstd::utf8::encode_scalar(x));
    vstd::utf8::encode_utf8_valid_utf8(seq![c]);
    vstd::utf8::encode_utf8_decode_utf8(seq![c]);
    vstd::utf8::char_is_scalar(c);
    assert(0xC0 <= (0xC0u8 | ((x >> 6) & 0x1F) as u8) < 0xE0) by (bit_vector);
    assert(0xE0 <= (0xE0u8 | ((x >> 12) & 0x0F) as u8) < 0xF0) by (bit_vector);
    assert(0xF0 <= (0xF0u8 | ((x >> 18) & 0x7) as u8)) by (bit_vector);
}

proof fn lemma_multibyte_is_read(before: Seq<u8>, c: char, behind: Seq<u8>)
    requires
        c as u32 >= 0x80,
    ensures
        multibyte_at(
            before + vstd::utf8::encode_utf8(seq![c]) + behind,
            before.len() as int,
        ) == Some(seq![c]),
{
    lemma_sequence(c);
    let e = vstd::utf8::encode_utf8(seq![c]);
    let s = before + e + behind;
    let i = before.len() as int;
    assert(s[i] == e[0]);
    assert(s.subrange(i, i + e.len()) =~= e);
}

proof fn lemma_encoded_parts(n: Seq<char>)
    requires
        n.len() > 0,
    ensures
        vstd::utf8::encode_utf8(n) == vstd::utf8::encode_utf8(seq![n[0]])
            + vstd::utf8::encode_utf8(n.drop_first()),
{
    assert(seq![n[0]].drop_first() =~= Seq::<char>::empty());
    assert(vstd::utf8::encode_utf8(seq![n[0]].drop_first()) =~= Seq::<u8>::empty());
    assert(vstd::utf8::encode_utf8(seq![n[0]]) =~= vstd::utf8::encode_scalar(n[0] as u32));
}

proof fn lemma_run_is_read(before: Seq<u8>, n: Seq<char>, behind: Seq<u8>)
    requires
        forall|i: int|
            0 <= i < n.len() ==> (#[trigger] n[i]) as u32 >= 0x80 && (alphanumeric(n[i]) || n[i]
                == '\u{2764}'),
        behind.len() > 0 ==> behind[0] < 0x80,
    ensures
        name_run(before + vstd::utf8::encode_utf8(n) + behind, before.len() as int) == n,
    decreases n.len(),
{
    let s = before + vstd::utf8::encode_utf8(n) + behind;
    let i = before.len() as int;
    if n.len() == 0 {
        assert(vstd::utf8::encode_utf8(n).len() == 0);
        if behind.len() > 0 {
            assert(s[i] == behind[0]);
        }
        assert(n =~= Seq::<char>::empty());
    } else {
        let c = n[0];
        let rest = n.drop_first();
        let e = vstd::utf8::encode_utf8(seq![c]);
        let r = vstd::utf8::encode_utf8(rest);
        lemma_encoded_parts(n);
        lemma_sequence(c);
        lemma_multibyte_is_read(before, c, r + behind);
        assert(s =~= before + e + (r + behind));
        assert forall|k: int| 0 <= k < rest.len() implies (#[trigger] rest[k]) as u32 >= 0x80 && (
        alphanumeric(rest[k]) || rest[k] == '\u{2764}') by {
            assert(rest[k] == n[k + 1]);
        }
        lemma_run_is_read(before + e, rest, behind);
        assert(s =~= (before + e) + r + behind);
        assert(s[i] == e[0]);
        assert(name_chars(seq![c], false));
        assert(name_run(s, i) == seq![c] + name_run(s, i + e.len()));
        assert(n =~= seq![c] + rest);
    }
}

/// A name is found as it was written: two characters or more, letters, digits or hearts,
/// none of them ASCII and the first of three bytes at least, before which no byte begins
/// such a character, and behind which an ASCII character stands or nothing.
pub proof fn lemma_name_is_read(before: Seq<u8>, n: Seq<char>, behind: Seq<u8>)
    requires
        n.len() >= 2,
        n[0] as u32 >= 0x800,
        forall|i: int|
            0 <= i < n.len() ==> (#[trigger] n[i]) as u32 >= 0x80 && (alphanumeric(n[i]) || n[i]
                == '\u{2764}'),
        forall|i: int| 0 <= i < before.len() ==> #[trigger] before[i] < 0xE0,
        behind.len() > 0 ==> behind[0] < 0x80,
    ensures
        first_name(before + vstd::utf8::encode_utf8(n) + behind, 0) == Some(n),
{
    let s = before + vstd::utf8::encode_utf8(n) + behind;
    let i = before.len() as int;
    let c = n[0];
    let rest = n.drop_first();
    let e = vstd::utf8::encode_utf8(seq![c]);
    let r = vstd::utf8::encode_utf8(rest);
    lemma_encoded_parts(n);
    lemma_sequence(c);
    lemma_multibyte_is_read(before, c, r + behind);
    assert(s =~= before + e + (r + behind));
    assert forall|k: int| 0 <= k < rest.len() implies (#[trigger] rest[k]) as u32 >= 0x80 && (
    alphanumeric(rest[k]) || rest[k] == '\u{2764}') by {
        assert(rest[k] == n[k + 1]);
    }
    lemma_run_is_read(before + e, rest, behind);
    assert(s =~= (before + e) + r + behind);
    assert(s[i] == e[0]);
    assert(name_chars(seq![c], true));
    assert(n =~= seq![c] + rest);
    assert(name_at(s, i) == Some(n));
    lemma_name_reached(s, 0, i);
}

proof fn lemma_name_reached(s: Seq<u8>, from: int, i: int)
    requires
        0 <= from <= i < s.len(),
        name_at(s, i) is Some,
        forall|k: int| from <= k < i ==> #[trigger] s[k] < 0xE0,
    ensures
        first_name(s, from) == name_at(s, i),
    decreases i - from,
{
    if from < i {
        assert(s[from] < 0xE0);
        lemma_name_reached(s, from + 1, i);
    }
}

/// A name has at least two characters.
pub proof fn lemma_names_are_words(s: Seq<u8>, from: int)
    requires
        0 <= from,
        first_name(s, from) is Some,
    ensures
        first_name(s, from)->0.len() >= 2,
    decreases s.len() - from,
{
    if name_at(s, from) is None {
        lemma_names_are_words(s, from + 1);
    }
}

/// An account's name goes with the last id of the 256 bytes before the hit, and is the
/// first in the 256 bytes from the hit on; without either nothing is found.
pub proof fn lemma_game_name_is_read(data: Seq<u8>, rel: int, gid: Seq<char>, name: Seq<char>)
    requires
        0 <= rel <= data.len(),
    ensures
        ({
            let from = if rel < 256 {
                0
            } else {
                rel - 256
            };
            let to = if rel + 256 <= data.len() {
                rel + 256
            } else {
                data.len() as int
            };
            let id = id_in(data.subrange(from, rel));
            let named = first_name(data.subrange(rel, to), 0);
            &&& id == Some(gid) && named == Some(name) ==> game_name_at(data, rel) == Some(
                (gid, name),
            )
            &&& id is None || named is None ==> game_name_at(data, rel) is None
        }),
{
}

/// Reading an escaped value byte by byte: behind a backslash `n`, `r` and `t` stand for line
/// feed, carriage return and tab, and any other byte for itself; a backslash at the very end
/// is dropped.
pub proof fn lemma_escape_step(b: u8, rest: Seq<u8>, limit: int)
    requires
        0 < limit,
    ensures
        quoted_value(seq![0x5Cu8, b] + rest, limit) == seq![
            if b as char == 'n' {
                0x0Au8
            } else if b as char == 'r' {
                0x0Du8
            } else if b as char == 't' {
                0x09u8
            } else {
                b
            },
        ] + quoted_value(rest, limit - 1),
        b != 0x22 && b != 0x5C ==> quoted_value(seq![b] + rest, limit) == seq![b] + quoted_value(
            rest,
            limit - 1,
        ),
        quoted_value(seq![0x5Cu8], limit).len() == 0,
        quoted_value(seq![0x22u8] + rest, limit).len() == 0,
        quoted_value(rest, 0).len() == 0,
{
    assert((seq![0x5Cu8, b] + rest).skip(2) =~= rest);
    assert((seq![b] + rest).skip(1) =~= rest);
    assert((seq![0x22u8] + rest)[0] == 0x22);
}

/// A text is a member's where it speaks of the member's platform.
pub proof fn lemma_member_text(content: Seq<u8>, t: Seq<char>)
    requires
        json::object_text(content) == Some(t),
    ensures
        member_text(content) is Some <==> exists|i: int|
            0 <= i <= t.len() - 15 && #[trigger] t.subrange(i, i + 15) == "member_platform"@,
        member_text(content) is Some ==> member_text(content)->0 == t,
{
    reveal_strlit("member_platform");
    let key = "member_platform"@;
    if text::contains(t, key) {
        let i = choose|i: int| text::occurs_at(t, key, i);
        assert(t.subrange(i, i + 15) == key);
    }
    if exists|i: int| 0 <= i <= t.len() - 15 && #[trigger] t.subrange(i, i + 15) == key {
        let i = choose|i: int| 0 <= i <= t.len() - 15 && #[trigger] t.subrange(i, i + 15) == key;
        assert(text::occurs_at(t, key, i));
    }
}

/// The first character of a name may also be one of the 32 of ASCII punctuation: whatever
/// can be printed but for letters, digits and the space.
pub proof fn lemma_name_chars(c: char)
    ensures
        is_ascii_punctuation(c) <==> '!' <= c <= '~' && !('0' <= c <= '9') && !('A' <= c <= 'Z')
            && !('a' <= c <= 'z'),
        name_char(c, false) <==> alphanumeric(c) || c == '\u{2764}',
        name_char(c, true) <==> name_char(c, false) || is_ascii_punctuation(c),
{
}

/// A room is what its fields say.
pub proof fn lemma_room_fields(r: RoomInfo)
    ensures
        r@.leader_name == r.leader_name@,
        r@.platform == r.platform,
        r@.account_id == r.account_id@,
        r@.password == r.password@,
        r@.locked == r.locked,
        opt_room(Some(r)) == Some(r@),
        opt_room(None) is None,
{
}

/// A pair of strings is read as it stands.
pub proof fn lemma_pair_fields(a: String, b: String)
    ensures
        opt_pair(Some((a, b))) == Some((a@, b@)),
        opt_pair(None) is None,
{
}

} // verus!
