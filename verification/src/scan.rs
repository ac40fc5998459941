//! The search for lobbies.
//!
//! A search is begun, and its result comes as one of the changes of state that the
//! multiplayer library hands out. While a search runs, all changes go to it.
use vstd::prelude::*;
use vstd::slice::slice_subrange;

use crate::bytes;
use crate::log::Log;
use crate::snapshot;
use crate::snapshot::{Need, Snapshot};
use crate::text;

verus! {

/// The longest string that is read.
pub const CSTR_MAX: usize = 512;

/// The size of a search result.
pub const RESULT_SIZE: usize = 0x50;

/// The bytes of a string: up to the first zero, and not more than the longest that is
/// read.
pub open spec fn cstr_bytes(s: Seq<u8>) -> Seq<u8> {
    let n = text::prefix_len(s, |b: u8| b != 0);
    s.take(
        if n > CSTR_MAX {
            CSTR_MAX as int
        } else {
            n
        },
    )
}

/// The string at an address; empty where the address is null or lies in the lowest
/// pages.
pub open spec fn cstr_at(k: snapshot::Known, p: usize) -> Result<Seq<char>, Need> {
    if p < 0x10000 {
        Ok(seq![])
    } else {
        match snapshot::text_at(k, p) {
            Err(n) => Err(n),
            Ok(s) => Ok(bytes::shown(cstr_bytes(s))),
        }
    }
}

pub open spec fn view_str(r: Result<String, Need>) -> Result<Seq<char>, Need> {
    match r {
        Ok(s) => Ok(s@),
        Err(n) => Err(n),
    }
}

/// The string in bytes that were read for it.
pub fn cstr_prefix(s: &[u8]) -> (r: &[u8])
    ensures
        r@ == cstr_bytes(s@),
{
    let ghost p = |b: u8| b != 0;
    let mut n: usize = 0;
    while n < s.len() && n < CSTR_MAX && s[n] != 0
        invariant
            n <= s.len(),
            n <= CSTR_MAX,
            p == (|b: u8| b != 0),
            forall|k: int| 0 <= k < n ==> p(#[trigger] s@[k]),
        decreases s.len() - n,
    {
        n += 1;
    }
    proof {
        text::lemma_prefix_len(s@, p);
        let full = text::prefix_len(s@, p);
        if full < n {
            assert(p(s@[full]));
        }
        if n < CSTR_MAX && n < s.len() && n < full {
            assert(p(s@[n as int]));
        }
        assert(s@.subrange(0, n as int) == cstr_bytes(s@));
    }
    slice_subrange(s, 0, n)
}

/// Reads the string at an address.
pub fn read_cstr(p: usize, snap: &Snapshot) -> (r: Result<String, Need>)
    ensures
        view_str(r) == cstr_at(snap@, p),
{
    if p < 0x10000 {
        let s = String::new();
        assert(s@ == Seq::<char>::empty());
        return Ok(s);
    }
    match snap.text(p) {
        Ok(s) => Ok(bytes::lossy_text(cstr_prefix(s.as_slice()))),
        Err(n) => Err(n),
    }
}

/// A lobby that was found.
#[derive(Clone, Debug)]
pub struct RoomInfo {
    pub lobby_id: String,
    pub conn: String,
    pub owner_id: String,
    pub max_members: u32,
    pub cur_members: u32,
}

/// The content of a [`RoomInfo`].
pub ghost struct Lobby {
    pub lobby_id: Seq<char>,
    pub conn: Seq<char>,
    pub owner_id: Seq<char>,
    pub max_members: int,
    pub cur_members: int,
}

impl View for RoomInfo {
    type V = Lobby;

    open spec fn view(&self) -> Lobby {
        Lobby {
            lobby_id: self.lobby_id@,
            conn: self.conn@,
            owner_id: self.owner_id@,
            max_members: self.max_members as int,
            cur_members: self.cur_members as int,
        }
    }
}

pub open spec fn lobby_views(v: Seq<RoomInfo>) -> Seq<Lobby> {
    v.map_values(|r: RoomInfo| r@)
}

/// What a change of state means for a search.
#[derive(Clone, Debug)]
pub enum ScanStatus {
    Completed { result: u32, count: u32 },
    /// The result as a whole is of no use.
    Rejected { reason: String },
    /// It is not the end of a search.
    NotOurs,
}

/// The content of a [`ScanStatus`].
pub ghost enum Status {
    Completed { result: int, count: int },
    Rejected { reason: Seq<char> },
    NotOurs,
}

impl View for ScanStatus {
    type V = Status;

    open spec fn view(&self) -> Status {
        match self {
            ScanStatus::Completed { result, count } => Status::Completed {
                result: *result as int,
                count: *count as int,
            },
            ScanStatus::Rejected { reason } => Status::Rejected { reason: reason@ },
            ScanStatus::NotOurs => Status::NotOurs,
        }
    }
}

/// The address `off` bytes behind another, around the end of memory.
pub open spec fn offset(p: usize, off: int) -> usize {
    if p + off > usize::MAX {
        (p + off - usize::MAX - 1) as usize
    } else {
        (p + off) as usize
    }
}

fn offset_by(p: usize, off: usize) -> (r: usize)
    ensures
        r == offset(p, off as int),
{
    p.wrapping_add(off)
}

/// The value of `n` bytes at offset `off` of a block.
pub open spec fn field(b: Seq<u8>, off: int, n: int) -> int {
    bytes::le_value(b.subrange(off, off + n))
}

/// The owner's id: the string to which its key points, if there is a key. A pointer
/// into the lowest pages is not followed.
pub open spec fn owner_at(k: snapshot::Known, owner: usize) -> Result<Seq<char>, Need> {
    if owner < 0x10000 {
        cstr_at(k, 0)
    } else {
        match snapshot::bytes_at(k, owner, 8) {
            Err(n) => Err(n),
            Ok(b) => cstr_at(k, (bytes::le_value(b) as u64) as usize),
        }
    }
}

/// The search result at an address.
pub open spec fn result_at(k: snapshot::Known, p: usize) -> Result<Lobby, Need> {
    match snapshot::bytes_at(k, p, 0x20) {
        Err(n) => Err(n),
        Ok(b) => match cstr_at(k, (field(b, 0, 8) as u64) as usize) {
            Err(n) => Err(n),
            Ok(lobby_id) => match cstr_at(k, (field(b, 8, 8) as u64) as usize) {
                Err(n) => Err(n),
                Ok(conn) => match owner_at(k, (field(b, 0x10, 8) as u64) as usize) {
                    Err(n) => Err(n),
                    Ok(owner_id) => Ok(
                        Lobby {
                            lobby_id,
                            conn,
                            owner_id,
                            max_members: field(b, 0x18, 4),
                            cur_members: field(b, 0x1C, 4),
                        },
                    ),
                },
            },
        },
    }
}

/// The search results from result `j` up to result `n` of an array.
pub open spec fn results_from(k: snapshot::Known, arr: usize, j: int, n: int) -> Result<
    Seq<Lobby>,
    Need,
>
    decreases n - j,
{
    if j >= n {
        Ok(seq![])
    } else {
        match result_at(k, offset(arr, j * RESULT_SIZE)) {
            Err(need) => Err(need),
            Ok(l) => match results_from(k, arr, j + 1, n) {
                Err(need) => Err(need),
                Ok(rest) => Ok(seq![l] + rest),
            },
        }
    }
}

fn owner_of(owner: usize, snap: &Snapshot) -> (r: Result<String, Need>)
    ensures
        view_str(r) == owner_at(snap@, owner),
{
    if owner < 0x10000 {
        return read_cstr(0, snap);
    }
    match snap.read(owner, 8) {
        Ok(b) => {
            assert(b@.subrange(0, 8) == b@);
            read_cstr(bytes::u64_at(b.as_slice(), 0) as usize, snap)
        },
        Err(n) => Err(n),
    }
}

fn parse_result(p: usize, snap: &Snapshot) -> (r: Result<RoomInfo, Need>)
    ensures
        match r {
            Ok(x) => result_at(snap@, p) == Ok::<Lobby, Need>(x@),
            Err(n) => result_at(snap@, p) == Err::<Lobby, Need>(n),
        },
{
    let b = match snap.read(p, 0x20) {
        Ok(b) => b,
        Err(n) => {
            return Err(n);
        },
    };
    let lobby_id = match read_cstr(bytes::u64_at(b.as_slice(), 0) as usize, snap) {
        Ok(s) => s,
        Err(n) => {
            return Err(n);
        },
    };
    let conn = match read_cstr(bytes::u64_at(b.as_slice(), 8) as usize, snap) {
        Ok(s) => s,
        Err(n) => {
            return Err(n);
        },
    };
    let owner_id = match owner_of(bytes::u64_at(b.as_slice(), 0x10) as usize, snap) {
        Ok(s) => s,
        Err(n) => {
            return Err(n);
        },
    };
    let max_members: u32 = bytes::u32_at(b.as_slice(), 0x18);
    let cur_members: u32 = bytes::u32_at(b.as_slice(), 0x1C);
    Ok(RoomInfo { lobby_id, conn, owner_id, max_members, cur_members })
}

/// What a change of state means for a search, and the lobbies that it found. At most a
/// hundred are read. A result with more than a thousand, or without a list, is of no
/// use.
pub open spec fn completion(k: snapshot::Known, ch: usize) -> Result<
    (Status, Seq<Lobby>),
    Need,
> {
    if ch == 0 {
        Ok((Status::NotOurs, seq![]))
    } else {
        match snapshot::bytes_at(k, ch, 4) {
            Err(n) => Err(n),
            Ok(ty) => if bytes::le_value(ty) != 12 {
                Ok((Status::NotOurs, seq![]))
            } else {
                match snapshot::bytes_at(k, ch, 0x30) {
                    Err(n) => Err(n),
                    Ok(b) => {
                        let n = field(b, 0x20, 4);
                        let arr = field(b, 0x28, 8);
                        if n > 1000 {
                            Ok(
                                (
                                    Status::Rejected {
                                        reason: "count="@ + text::dec(n)
                                            + " exceeds 1000 (state anomaly, see B27/B28)"@,
                                    },
                                    seq![],
                                ),
                            )
                        } else if arr == 0 {
                            Ok(
                                (
                                    Status::Rejected {
                                        reason: "searchResults==0 (null results, see B27/B28)"@,
                                    },
                                    seq![],
                                ),
                            )
                        } else {
                            match results_from(
                                k,
                                (arr as u64) as usize,
                                0,
                                if n < 100 {
                                    n
                                } else {
                                    100
                                },
                            ) {
                                Err(need) => Err(need),
                                Ok(v) => Ok(
                                    (
                                        Status::Completed { result: field(b, 4, 4), count: n },
                                        v,
                                    ),
                                ),
                            }
                        }
                    },
                }
            },
        }
    }
}

/// Reads what a change of state means for a search. The lobbies that it found replace
/// what is in `out`; otherwise `out` stays as it is.
pub fn parse_findlobbies_completed(ch: usize, out: &mut Vec<RoomInfo>, snap: &Snapshot) -> (r:
    Result<ScanStatus, Need>)
    ensures
        match completion(snap@, ch) {
            Err(n) => r == Err::<ScanStatus, Need>(n) && final(out)@ == old(out)@,
            Ok((s, v)) => (r matches Ok(st) && st@ == s) && (if s is Completed {
                lobby_views(final(out)@) == v
            } else {
                final(out)@ == old(out)@
            }),
        },
{
    if ch == 0 {
        return Ok(ScanStatus::NotOurs);
    }
    match snap.read(ch, 4) {
        Ok(ty) => {
            assert(ty@.subrange(0, 4) == ty@);
            if bytes::u32_at(ty.as_slice(), 0) != 12 {
                return Ok(ScanStatus::NotOurs);
            }
        },
        Err(n) => {
            return Err(n);
        },
    }
    let b = match snap.read(ch, 0x30) {
        Ok(b) => b,
        Err(n) => {
            return Err(n);
        },
    };
    let result: u32 = bytes::u32_at(b.as_slice(), 4);
    let n: u32 = bytes::u32_at(b.as_slice(), 0x20);
    let arr: u64 = bytes::u64_at(b.as_slice(), 0x28);
    if n > 1000 {
        let reason = text::cat3(
            "count=",
            text::dec_of(n as u64).as_str(),
            " exceeds 1000 (state anomaly, see B27/B28)",
        );
        return Ok(ScanStatus::Rejected { reason });
    }
    if arr == 0 {
        return Ok(
            ScanStatus::Rejected {
                reason: text::text_of("searchResults==0 (null results, see B27/B28)"),
            },
        );
    }
    let shown: usize = if n < 100 {
        n as usize
    } else {
        100
    };
    let base: usize = arr as usize;
    let mut rooms: Vec<RoomInfo> = Vec::new();
    let mut j: usize = 0;
    let ghost want = results_from(snap@, base, 0, shown as int);
    proof {
        match want {
            Ok(v) => {
                assert(lobby_views(rooms@) + v == v);
            },
            Err(_) => {},
        }
    }
    while j < shown
        invariant
            j <= shown <= 100,
            ch != 0,
            snapshot::bytes_at(snap@, ch, 4) is Ok,
            bytes::le_value(snapshot::bytes_at(snap@, ch, 4)->Ok_0) == 12,
            snapshot::bytes_at(snap@, ch, 0x30) == Ok::<Seq<u8>, Need>(b@),
            field(b@, 0x20, 4) == n,
            field(b@, 0x28, 8) == arr,
            n <= 1000,
            arr != 0,
            base == arr as usize,
            shown == (if n < 100 {
                n as int
            } else {
                100
            }),
            want == results_from(snap@, base, 0, shown as int),
            match results_from(snap@, base, j as int, shown as int) {
                Ok(rest) => want == Ok::<Seq<Lobby>, Need>(lobby_views(rooms@) + rest),
                Err(need) => want == Err::<Seq<Lobby>, Need>(need),
            },
        decreases shown - j,
    {
        let ghost before = lobby_views(rooms@);
        match parse_result(offset_by(base, j * RESULT_SIZE), snap) {
            Ok(x) => {
                let ghost xv = x@;
                rooms.push(x);
                proof {
                    assert(lobby_views(rooms@) == before.push(xv));
                    match results_from(snap@, base, j + 1, shown as int) {
                        Ok(rest) => {
                            assert(before + (seq![xv] + rest) == before.push(xv) + rest);
                        },
                        Err(_) => {},
                    }
                }
            },
            Err(need) => {
                return Err(need);
            },
        }
        j += 1;
    }
    assert(lobby_views(rooms@) + Seq::<Lobby>::empty() == lobby_views(rooms@));
    *out = rooms;
    Ok(ScanStatus::Completed { result, count: n })
}

/// The configuration of a search, as the multiplayer library wants it: a filter, a list
/// of keys with one key, and the size of a page.
pub open spec fn config_bytes(filter_ptr: u64, keys_ptr: u64) -> Seq<u8> {
    bytes::le_bytes(filter_ptr as int, 8) + bytes::le_bytes(keys_ptr as int, 8) + bytes::le_bytes(
        1,
        4,
    ) + bytes::le_bytes(0, 4) + bytes::le_bytes(0, 8) + bytes::le_bytes(0, 8) + bytes::le_bytes(
        50,
        4,
    ) + bytes::le_bytes(0, 4)
}

/// Builds the configuration of a search, from where its filter and its list of keys
/// are.
pub fn search_config(filter_ptr: u64, keys_ptr: u64) -> (r: Vec<u8>)
    ensures
        r@ == config_bytes(filter_ptr, keys_ptr),
{
    let mut v = bytes::u64_bytes(filter_ptr);
    v.append(&mut bytes::u64_bytes(keys_ptr));
    v.append(&mut bytes::u32_bytes(1));
    v.append(&mut bytes::u32_bytes(0));
    v.append(&mut bytes::u64_bytes(0));
    v.append(&mut bytes::u64_bytes(0));
    v.append(&mut bytes::u32_bytes(50));
    v.append(&mut bytes::u32_bytes(0));
    v
}

/// The configuration has its fields where the multiplayer library looks for them.
pub proof fn lemma_config_layout(filter_ptr: u64, keys_ptr: u64)
    ensures
        ({
            let c = config_bytes(filter_ptr, keys_ptr);
            &&& c.len() == 0x30
            &&& field(c, 0, 8) == filter_ptr
            &&& field(c, 8, 8) == keys_ptr
            &&& field(c, 0x10, 4) == 1
            &&& field(c, 0x18, 8) == 0
            &&& field(c, 0x20, 4) == 0
            &&& field(c, 0x28, 4) == 50
        }),
{
    let c = config_bytes(filter_ptr, keys_ptr);
    vstd::arithmetic::power::lemma_pow_positive(256, 4);
    assert(vstd::arithmetic::power::pow(256, 4) == 0x1_0000_0000) by {
        reveal_with_fuel(vstd::arithmetic::power::pow, 5);
    }
    assert(vstd::arithmetic::power::pow(256, 8) == 0x1_0000_0000_0000_0000) by {
        reveal_with_fuel(vstd::arithmetic::power::pow, 9);
    }
    bytes::lemma_le_round_trip(filter_ptr as int, 8);
    bytes::lemma_le_round_trip(keys_ptr as int, 8);
    bytes::lemma_le_round_trip(1, 4);
    bytes::lemma_le_round_trip(0, 4);
    bytes::lemma_le_round_trip(0, 8);
    bytes::lemma_le_round_trip(50, 4);
    assert(c.subrange(0, 8) == bytes::le_bytes(filter_ptr as int, 8));
    assert(c.subrange(8, 16) == bytes::le_bytes(keys_ptr as int, 8));
    assert(c.subrange(0x10, 0x14) == bytes::le_bytes(1, 4));
    assert(c.subrange(0x18, 0x20) == bytes::le_bytes(0, 8));
    let z = bytes::le_bytes(0, 8);
    assert(c.subrange(0x20, 0x24) == z.subrange(0, 4));
    assert(z.subrange(0, 4) == bytes::le_bytes(0, 4)) by {
        reveal_with_fuel(bytes::le_bytes, 9);
    }
    assert(c.subrange(0x28, 0x2C) == bytes::le_bytes(50, 4));
}

/// The filter of a search.
pub fn search_filter() -> (r: &'static str)
    ensures
        r@ == "lobby/maxMembers gt 0"@,
{
    "lobby/maxMembers gt 0"
}

/// The key of a search.
pub fn search_key() -> (r: &'static str)
    ensures
        r@ == "lobby/maxMembers"@,
{
    "lobby/maxMembers"
}

/// How often changes of state are asked for.
pub const ROUNDS: u32 = 200;

/// Whether a search runs, in which round it is, and whether it found its result.
#[derive(Clone, Copy, PartialEq, Eq, Debug, Structural)]
pub struct Scan {
    pub in_progress: bool,
    pub round: u32,
    pub done: bool,
}

impl Scan {
    pub fn new() -> (r: Scan)
        ensures
            r == (Scan { in_progress: false, round: 0, done: false }),
    {
        Scan { in_progress: false, round: 0, done: false }
    }
}

/// What is reported to `do_scan`.
#[derive(Clone, Copy, PartialEq, Eq, Debug, Structural)]
pub enum ScanEvent {
    /// A search is wanted: the handle, and whether the function is known.
    Begin(u64, bool),
    /// What the search returned.
    Found(i32),
    /// What asking for changes returned, how many there are, and where.
    Polled(i32, u32, usize),
    /// The changes were handed back.
    Finished,
}

/// What `do_scan` wants.
#[derive(Clone, Copy, PartialEq, Eq, Debug, Structural)]
pub enum ScanStep {
    FindLobbies(u64),
    /// Wait, in milliseconds, then ask for changes.
    Poll(u64),
    /// Hand the changes back: how many, and where.
    Finish(u32, usize),
    Done,
}

pub open spec fn room_line(j: int, l: Lobby) -> Seq<char> {
    "[scan]   room["@ + text::dec(j) + "] lobbyId="@ + l.lobby_id + " owner="@ + l.owner_id
        + " members="@ + text::dec(l.cur_members) + "/"@ + text::dec(l.max_members) + " conn="@
        + l.conn
}

pub open spec fn room_lines(v: Seq<Lobby>) -> Seq<Seq<char>> {
    Seq::new(v.len(), |j: int| room_line(j, v[j]))
}

/// What is said of a change.
pub open spec fn status_lines(s: Status, v: Seq<Lobby>) -> Seq<Seq<char>> {
    match s {
        Status::Completed { result, count } => seq![
            "[scan] FindLobbiesCompleted result="@ + text::dec(result) + " count="@ + text::dec(
                count,
            ),
        ] + room_lines(v),
        Status::Rejected { reason } => seq!["[scan] FindLobbiesCompleted rejected: "@ + reason],
        Status::NotOurs => seq![],
    }
}

/// What is said of the changes from change `i` on, and whether one of them ends the
/// search.
pub open spec fn changes_from(k: snapshot::Known, changes: usize, i: int, n: int) -> Result<
    (Seq<Seq<char>>, bool),
    Need,
>
    decreases n - i,
{
    if i >= n {
        Ok((seq![], false))
    } else {
        match snapshot::bytes_at(k, offset(changes, i * 8), 8) {
            Err(need) => Err(need),
            Ok(p) => match completion(k, (bytes::le_value(p) as u64) as usize) {
                Err(need) => Err(need),
                Ok((s, v)) => match changes_from(k, changes, i + 1, n) {
                    Err(need) => Err(need),
                    Ok((lines, done)) => Ok((status_lines(s, v) + lines, !(s is NotOurs) || done)),
                },
            },
        }
    }
}

fn say_rooms(rooms: &Vec<RoomInfo>, log: &mut Log)
    ensures
        final(log)@ == old(log)@ + room_lines(lobby_views(rooms@)),
{
    let ghost v = lobby_views(rooms@);
    let mut j: usize = 0;
    assert(log@ == old(log)@ + room_lines(v).take(0));
    while j < rooms.len()
        invariant
            j <= rooms.len(),
            v == lobby_views(rooms@),
            log@ == old(log)@ + room_lines(v).take(j as int),
        decreases rooms.len() - j,
    {
        let r = &rooms[j];
        assert(v[j as int] == r@);
        let mut s = text::cat3("[scan]   room[", text::dec_of(j as u64).as_str(), "] lobbyId=");
        s.append(r.lobby_id.as_str());
        s.append(" owner=");
        s.append(r.owner_id.as_str());
        s.append(" members=");
        s.append(text::dec_of(r.cur_members as u64).as_str());
        s.append("/");
        s.append(text::dec_of(r.max_members as u64).as_str());
        s.append(" conn=");
        s.append(r.conn.as_str());
        log.say(s);
        assert(room_lines(v).take(j + 1) == room_lines(v).take(j as int).push(
            room_line(j as int, v[j as int]),
        ));
        assert(log@ == old(log)@ + room_lines(v).take(j + 1));
        j += 1;
    }
    assert(room_lines(v).take(j as int) == room_lines(v));
}

/// Looks through the changes. On a need nothing is said.
fn process_changes(count: u32, changes: usize, snap: &Snapshot) -> (r: Result<(Log, bool), Need>)
    ensures
        match r {
            Ok((l, done)) => changes_from(snap@, changes, 0, count as int) == Ok::<
                (Seq<Seq<char>>, bool),
                Need,
            >((l@, done)),
            Err(n) => changes_from(snap@, changes, 0, count as int) == Err::<
                (Seq<Seq<char>>, bool),
                Need,
            >(n),
        },
{
    let mut log = Log::new();
    let mut done = false;
    let mut i: u32 = 0;
    let ghost want = changes_from(snap@, changes, 0, count as int);
    proof {
        match want {
            Ok((lines, d)) => {
                assert(log@ + lines == lines);
            },
            Err(_) => {},
        }
    }
    while i < count
        invariant
            i <= count,
            want == changes_from(snap@, changes, 0, count as int),
            match changes_from(snap@, changes, i as int, count as int) {
                Ok((lines, d)) => want == Ok::<(Seq<Seq<char>>, bool), Need>(
                    (log@ + lines, done || d),
                ),
                Err(need) => want == Err::<(Seq<Seq<char>>, bool), Need>(need),
            },
        decreases count - i,
    {
        let ghost before = log@;
        let p: u64 = match snap.read(change_slot(changes, i), 8) {
            Ok(b) => {
                assert(b@.subrange(0, 8) == b@);
                bytes::u64_at(b.as_slice(), 0)
            },
            Err(n) => {
                return Err(n);
            },
        };
        let mut rooms: Vec<RoomInfo> = Vec::new();
        let ghost c = completion(snap@, p as usize);
        match parse_findlobbies_completed(p as usize, &mut rooms, snap) {
            Ok(ScanStatus::Completed { result, count: n }) => {
                let mut s = text::cat3(
                    "[scan] FindLobbiesCompleted result=",
                    text::dec_of(result as u64).as_str(),
                    " count=",
                );
                s.append(text::dec_of(n as u64).as_str());
                log.say(s);
                say_rooms(&rooms, &mut log);
                done = true;
                assert(log@ == before + status_lines(c->Ok_0.0, c->Ok_0.1));
            },
            Ok(ScanStatus::Rejected { reason }) => {
                log.say(
                    text::cat2("[scan] FindLobbiesCompleted rejected: ", reason.as_str()),
                );
                done = true;
                assert(log@ == before + status_lines(c->Ok_0.0, c->Ok_0.1));
            },
            Ok(ScanStatus::NotOurs) => {
                assert(log@ == before + status_lines(c->Ok_0.0, c->Ok_0.1));
            },
            Err(n) => {
                return Err(n);
            },
        }
        proof {
            match changes_from(snap@, changes, i + 1, count as int) {
                Ok((lines, d)) => {
                    assert(before + (status_lines(c->Ok_0.0, c->Ok_0.1) + lines) == log@ + lines);
                },
                Err(_) => {},
            }
        }
        i += 1;
    }
    assert(log@ + Seq::<Seq<char>>::empty() == log@);
    Ok((log, done))
}

fn change_slot(changes: usize, i: u32) -> (r: usize)
    ensures
        r == offset(changes, i * 8),
{
    let off: u64 = i as u64 * 8;
    let a: u128 = changes as u128 + off as u128;
    if a > usize::MAX as u128 {
        (a - usize::MAX as u128 - 1) as usize
    } else {
        a as usize
    }
}

/// The state, what is said, and what is wanted, after a round without a result.
pub open spec fn next_round(s: Scan) -> (Scan, Seq<Seq<char>>, ScanStep) {
    if s.round + 1 < ROUNDS {
        (Scan { round: (s.round + 1) as u32, ..s }, seq![], ScanStep::Poll(50))
    } else {
        (
            Scan { in_progress: false, ..s },
            seq!["[scan] timeout waiting FindLobbiesCompleted"@],
            ScanStep::Done,
        )
    }
}

/// What is said whenever a search is wanted.
pub open spec fn warning() -> Seq<char> {
    "[scan] CONSUMPTION WARNING: this scan consumes ALL pending lobby state changes (single-consumer queue)"@
}

/// The state, what is said, and what is wanted, after an event. Only one search runs at
/// a time. Changes that were handed out are handed back before anything else.
pub open spec fn scan_turn(s: Scan, e: ScanEvent, k: snapshot::Known) -> Result<
    (Scan, Seq<Seq<char>>, ScanStep),
    Need,
> {
    match e {
        ScanEvent::Begin(handle, known) => if handle == 0 {
            Ok((s, seq![warning(), "[scan] handle not ready"@], ScanStep::Done))
        } else if !known {
            Ok((s, seq![warning(), "[scan] FindLobbies not resolved"@], ScanStep::Done))
        } else if s.in_progress {
            Ok((s, seq![warning(), "[scan] already in progress"@], ScanStep::Done))
        } else {
            Ok(
                (
                    Scan { in_progress: true, round: 0, done: false },
                    seq![warning()],
                    ScanStep::FindLobbies(handle),
                ),
            )
        },
        ScanEvent::Found(ret) => {
            let line = "[scan] FindLobbies ret=0x"@ + text::hex_upper((ret as u32) as int)
                + " (0=成功, 负=错误)"@;
            if ret < 0 {
                Ok((Scan { in_progress: false, ..s }, seq![line], ScanStep::Done))
            } else {
                Ok((s, seq![line], ScanStep::Poll(50)))
            }
        },
        ScanEvent::Polled(ret, count, changes) => if ret < 0 || count == 0 {
            Ok(next_round(s))
        } else {
            match changes_from(k, changes, 0, count as int) {
                Err(n) => Err(n),
                Ok((lines, done)) => Ok(
                    (Scan { done, ..s }, lines, ScanStep::Finish(count, changes)),
                ),
            }
        },
        ScanEvent::Finished => if s.done {
            Ok((Scan { in_progress: false, ..s }, seq![], ScanStep::Done))
        } else {
            Ok(next_round(s))
        },
    }
}

fn go_on(s: &mut Scan, log: &mut Log) -> (r: ScanStep)
    requires
        old(s).round < ROUNDS,
    ensures
        *final(s) == next_round(*old(s)).0,
        final(log)@ == old(log)@ + next_round(*old(s)).1,
        r == next_round(*old(s)).2,
{
    assert(log@ + Seq::<Seq<char>>::empty() == log@);
    if s.round + 1 < ROUNDS {
        s.round = s.round + 1;
        ScanStep::Poll(50)
    } else {
        s.in_progress = false;
        log.say(text::text_of("[scan] timeout waiting FindLobbiesCompleted"));
        assert(log@ == old(log)@ + seq!["[scan] timeout waiting FindLobbiesCompleted"@]);
        ScanStep::Done
    }
}

/// Searches for lobbies. On a need the state stays as it is and nothing is said.
pub fn do_scan(s: &mut Scan, event: ScanEvent, snap: &Snapshot, log: &mut Log) -> (r: Result<
    ScanStep,
    Need,
>)
    requires
        old(s).round < ROUNDS,
    ensures
        final(s).round < ROUNDS,
        match scan_turn(*old(s), event, snap@) {
            Err(n) => r == Err::<ScanStep, Need>(n) && *final(s) == *old(s) && final(log)@
                == old(log)@,
            Ok((t, lines, step)) => r == Ok::<ScanStep, Need>(step) && *final(s) == t && final(
                log)@ == old(log)@ + lines,
        },
{
    match event {
        ScanEvent::Begin(handle, known) => {
            log.say(
                text::text_of(
                    "[scan] CONSUMPTION WARNING: this scan consumes ALL pending lobby state changes (single-consumer queue)",
                ),
            );
            if handle == 0 {
                log.say(text::text_of("[scan] handle not ready"));
                assert(log@ == old(log)@ + seq![warning(), "[scan] handle not ready"@]);
                return Ok(ScanStep::Done);
            }
            if !known {
                log.say(text::text_of("[scan] FindLobbies not resolved"));
                assert(log@ == old(log)@ + seq![warning(), "[scan] FindLobbies not resolved"@]);
                return Ok(ScanStep::Done);
            }
            if s.in_progress {
                log.say(text::text_of("[scan] already in progress"));
                assert(log@ == old(log)@ + seq![warning(), "[scan] already in progress"@]);
                return Ok(ScanStep::Done);
            }
            *s = Scan { in_progress: true, round: 0, done: false };
            assert(log@ == old(log)@ + seq![warning()]);
            Ok(ScanStep::FindLobbies(handle))
        },
        ScanEvent::Found(ret) => {
            log.say(
                text::cat3(
                    "[scan] FindLobbies ret=0x",
                    text::hex_of(ret as u32 as u64).as_str(),
                    " (0=成功, 负=错误)",
                ),
            );
            assert(log@ == old(log)@ + seq![
                "[scan] FindLobbies ret=0x"@ + text::hex_upper((ret as u32) as int)
                    + " (0=成功, 负=错误)"@,
            ]);
            if ret < 0 {
                s.in_progress = false;
                return Ok(ScanStep::Done);
            }
            Ok(ScanStep::Poll(50))
        },
        ScanEvent::Polled(ret, count, changes) => {
            if ret < 0 || count == 0 {
                return Ok(go_on(s, log));
            }
            match process_changes(count, changes, snap) {
                Ok((more, done)) => {
                    let mut lines = more;
                    log.extend(&mut lines);
                    s.done = done;
                    Ok(ScanStep::Finish(count, changes))
                },
                Err(n) => Err(n),
            }
        },
        ScanEvent::Finished => {
            assert(log@ + Seq::<Seq<char>>::empty() == log@);
            if s.done {
                s.in_progress = false;
                return Ok(ScanStep::Done);
            }
            Ok(go_on(s, log))
        },
    }
}

/// A search that was begun ends: each round brings it nearer to its end, and when it is
/// over another can begin.
pub proof fn lemma_scan_ends(s: Scan, e: ScanEvent, k: snapshot::Known)
    requires
        s.in_progress,
        s.round < ROUNDS,
        !(e is Begin),
        scan_turn(s, e, k) is Ok,
    ensures
        ({
            let (t, lines, step) = scan_turn(s, e, k)->Ok_0;
            &&& step is Done <==> !t.in_progress
            &&& step is Poll && !(e is Found) ==> t.round == s.round + 1
            &&& t.round < ROUNDS
        }),
{
}

/// A search that is wanted while another runs is refused, and the other is not
/// disturbed.
pub proof fn lemma_one_scan_at_a_time(s: Scan, handle: u64, known: bool, k: snapshot::Known)
    requires
        s.in_progress,
    ensures
        scan_turn(s, ScanEvent::Begin(handle, known), k) matches Ok(t) && t.0 == s && t.2
            == ScanStep::Done,
{
}

/// A string ends before its first zero, and is cut at 512 bytes.
pub proof fn lemma_cstr_ends(s: Seq<u8>, behind: Seq<u8>)
    requires
        forall|i: int| 0 <= i < s.len() ==> #[trigger] s[i] != 0,
    ensures
        s.len() <= 512 ==> cstr_bytes(s + seq![0u8] + behind) == s && cstr_bytes(s) == s,
        s.len() > 512 ==> cstr_bytes(s + behind) == s.take(512),
{
    let p = |b: u8| b != 0;
    let t = s + seq![0u8] + behind;
    assert forall|i: int| 0 <= i < s.len() implies p(#[trigger] t[i]) by {
        assert(t[i] == s[i]);
    }
    assert(t[s.len() as int] == 0);
    text::lemma_prefix_len_is(t, p, s.len() as int);
    assert forall|i: int| 0 <= i < s.len() implies p(#[trigger] s[i]) by {}
    text::lemma_prefix_len_is(s, p, s.len() as int);
    if s.len() <= 512 {
        assert(t.take(s.len() as int) =~= s);
        assert(s.take(s.len() as int) =~= s);
    } else {
        let u = s + behind;
        text::lemma_prefix_len(u, p);
        let n = text::prefix_len(u, p);
        if n < s.len() {
            assert(u[n] == s[n]);
            assert(p(u[n]));
        }
        assert(u.take(512) =~= s.take(512));
    }
}

/// A text that was stored with a closing zero is read back; a pointer that is too low gives
/// an empty one.
pub proof fn lemma_cstr_is_read(k: snapshot::Known, p: usize, t: Seq<char>, behind: Seq<u8>)
    requires
        forall|i: int|
            0 <= i < vstd::utf8::encode_utf8(t).len() ==> #[trigger] vstd::utf8::encode_utf8(t)[i]
                != 0,
        vstd::utf8::encode_utf8(t).len() <= 512,
    ensures
        p >= 0x10000 && snapshot::text_at(k, p) == Ok::<Seq<u8>, Need>(
            vstd::utf8::encode_utf8(t) + seq![0u8] + behind,
        ) ==> cstr_at(k, p) == Ok::<Seq<char>, Need>(t),
        p >= 0x10000 && snapshot::text_at(k, p) == Ok::<Seq<u8>, Need>(vstd::utf8::encode_utf8(t))
            ==> cstr_at(k, p) == Ok::<Seq<char>, Need>(t),
        p < 0x10000 ==> cstr_at(k, p) == Ok::<Seq<char>, Need>(Seq::empty()),
{
    let e = vstd::utf8::encode_utf8(t);
    lemma_cstr_ends(e, behind);
    vstd::utf8::encode_utf8_valid_utf8(t);
    vstd::utf8::encode_utf8_decode_utf8(t);
}

/// A result is read as it is laid out: the pointers to the lobby's id, to its connection
/// string and to its owner's key, which begins with the pointer to the owner's id, and then
/// the two numbers of members, the most there may be and those there are.
pub proof fn lemma_result_is_read(
    k: snapshot::Known,
    p: usize,
    id: u64,
    conn: u64,
    owner: u64,
    max: u32,
    cur: u32,
)
    requires
        snapshot::bytes_at(k, p, 0x20) == Ok::<Seq<u8>, Need>(
            bytes::le_bytes(id as int, 8) + bytes::le_bytes(conn as int, 8) + bytes::le_bytes(
                owner as int,
                8,
            ) + bytes::le_bytes(max as int, 4) + bytes::le_bytes(cur as int, 4),
        ),
        cstr_at(k, id as usize) is Ok,
        cstr_at(k, conn as usize) is Ok,
        owner_at(k, owner as usize) is Ok,
    ensures
        result_at(k, p) is Ok,
        result_at(k, p)->Ok_0.lobby_id == cstr_at(k, id as usize)->Ok_0,
        result_at(k, p)->Ok_0.conn == cstr_at(k, conn as usize)->Ok_0,
        result_at(k, p)->Ok_0.owner_id == owner_at(k, owner as usize)->Ok_0,
        result_at(k, p)->Ok_0.max_members == max,
        result_at(k, p)->Ok_0.cur_members == cur,
{
    let b = snapshot::bytes_at(k, p, 0x20)->Ok_0;
    bytes::lemma_words_read_back(max, id);
    bytes::lemma_words_read_back(cur, conn);
    bytes::lemma_words_read_back(cur, owner);
    assert(b.subrange(0, 8) =~= bytes::le_bytes(id as int, 8));
    assert(b.subrange(8, 16) =~= bytes::le_bytes(conn as int, 8));
    assert(b.subrange(16, 24) =~= bytes::le_bytes(owner as int, 8));
    assert(b.subrange(24, 28) =~= bytes::le_bytes(max as int, 4));
    assert(b.subrange(28, 32) =~= bytes::le_bytes(cur as int, 4));
}

/// The owner's id is where the first pointer of the key leads; a key that lies too low has
/// none.
pub proof fn lemma_owner_is_read(k: snapshot::Known, owner: usize, id: u64)
    ensures
        owner >= 0x10000 && snapshot::bytes_at(k, owner, 8) == Ok::<Seq<u8>, Need>(
            bytes::le_bytes(id as int, 8),
        ) ==> owner_at(k, owner) == cstr_at(k, id as usize),
        owner < 0x10000 ==> owner_at(k, owner) == Ok::<Seq<char>, Need>(Seq::empty()),
{
    bytes::lemma_words_read_back(0, id);
}

/// The results stand one behind the other, 80 bytes each, and every one is read, in order.
pub proof fn lemma_results_are_read(
    k: snapshot::Known,
    arr: usize,
    from: int,
    n: int,
    v: Seq<Lobby>,
)
    requires
        0 <= from <= n,
        n == v.len(),
        arr + 80 * n <= usize::MAX,
        forall|j: int|
            from <= j < n ==> result_at(k, (arr + 80 * j) as usize) == Ok::<Lobby, Need>(
                #[trigger] v[j],
            ),
    ensures
        results_from(k, arr, from, n) == Ok::<Seq<Lobby>, Need>(v.skip(from)),
    decreases n - from,
{
    if from < n {
        assert(v[from] == v[from]);
        lemma_results_are_read(k, arr, from + 1, n, v);
        assert(v.skip(from) =~= seq![v[from]] + v.skip(from + 1));
    } else {
        assert(v.skip(from) =~= Seq::<Lobby>::empty());
    }
}

/// The end of a search is a change of type 12: it gives the result's code and how many rooms
/// were found, and the first hundred of them at most. More than a thousand rooms, or none to
/// be read, are refused; and any other change is not the end of a search.
pub proof fn lemma_completion_is_read(
    k: snapshot::Known,
    ch: usize,
    b: Seq<u8>,
    kind: u32,
    result: u32,
    n: u32,
    arr: u64,
    v: Seq<Lobby>,
)
    requires
        ch != 0,
        b.len() == 0x30,
        snapshot::bytes_at(k, ch, 4) == Ok::<Seq<u8>, Need>(bytes::le_bytes(kind as int, 4)),
        snapshot::bytes_at(k, ch, 0x30) == Ok::<Seq<u8>, Need>(b),
        b.subrange(4, 8) == bytes::le_bytes(result as int, 4),
        b.subrange(0x20, 0x24) == bytes::le_bytes(n as int, 4),
        b.subrange(0x28, 0x30) == bytes::le_bytes(arr as int, 8),
    ensures
        kind != 12 ==> completion(k, ch) == Ok::<(Status, Seq<Lobby>), Need>(
            (Status::NotOurs, Seq::empty()),
        ),
        kind == 12 && (n > 1000 || arr == 0) ==> completion(k, ch) is Ok && completion(
            k,
            ch,
        )->Ok_0.0 is Rejected && completion(k, ch)->Ok_0.1.len() == 0,
        kind == 12 && n <= 1000 && arr != 0 && v.len() == (if n < 100 {
            n
        } else {
            100
        }) && arr + 80 * v.len() <= usize::MAX && (forall|j: int|
            0 <= j < v.len() ==> result_at(k, (arr + 80 * j) as usize) == Ok::<Lobby, Need>(
                #[trigger] v[j],
            )) ==> completion(k, ch) == Ok::<(Status, Seq<Lobby>), Need>(
            (Status::Completed { result: result as int, count: n as int }, v),
        ),
        completion(k, 0) == Ok::<(Status, Seq<Lobby>), Need>((Status::NotOurs, Seq::empty())),
{
    bytes::lemma_words_read_back(kind, arr);
    bytes::lemma_words_read_back(result, arr);
    bytes::lemma_words_read_back(n, arr);
    if kind == 12 && n <= 1000 && arr != 0 && v.len() == (if n < 100 {
        n
    } else {
        100
    }) && arr + 80 * v.len() <= usize::MAX && (forall|j: int|
        0 <= j < v.len() ==> result_at(k, (arr + 80 * j) as usize) == Ok::<Lobby, Need>(
            #[trigger] v[j],
        )) {
        lemma_results_are_read(k, arr as usize, 0, v.len() as int, v);
        assert(v.skip(0) =~= v);
    }
}

/// Every change of a list is looked at: a search is at its end exactly where some change is
/// the end of one. The list holds pointers of eight bytes, one behind the other.
pub proof fn lemma_changes_are_processed(k: snapshot::Known, changes: usize, from: int, n: int)
    requires
        0 <= from <= n,
        changes + 8 * n <= usize::MAX,
        changes_from(k, changes, from, n) is Ok,
    ensures
        changes_from(k, changes, from, n)->Ok_0.1 <==> exists|i: int|
            from <= i < n && {
                let p = #[trigger] snapshot::bytes_at(k, (changes + 8 * i) as usize, 8);
                p is Ok && completion(k, (bytes::le_value(p->Ok_0) as u64) as usize) is Ok && !(
                completion(k, (bytes::le_value(p->Ok_0) as u64) as usize)->Ok_0.0 is NotOurs)
            },
    decreases n - from,
{
    if from < n {
        lemma_changes_are_processed(k, changes, from + 1, n);
        let p = snapshot::bytes_at(k, (changes + 8 * from) as usize, 8);
        assert(offset(changes, from * 8) == (changes + 8 * from) as usize);
    }
}

/// What the end of a search tells: the code and the count, then one line for each room with
/// its place in the list, its id, its owner and its members.
pub proof fn lemma_rooms_are_told(result: int, count: int, v: Seq<Lobby>, j: int)
    requires
        0 <= j < v.len(),
    ensures
        ({
            let l = status_lines(Status::Completed { result, count }, v);
            &&& l.len() == v.len() + 1
            &&& text::contains(l[0], " count="@ + text::numeral(count, 10, false))
            &&& text::contains(l[j + 1], "room["@ + text::numeral(j, 10, false) + "]"@)
            &&& text::contains(l[j + 1], " lobbyId="@ + v[j].lobby_id + " owner="@ + v[j].owner_id)
            &&& text::contains(
                l[j + 1],
                " members="@ + text::numeral(v[j].cur_members, 10, false) + "/"@ + text::numeral(
                    v[j].max_members,
                    10,
                    false,
                ),
            )
            &&& text::contains(l[j + 1], " conn="@ + v[j].conn)
        }),
        status_lines(Status::NotOurs, v).len() == 0,
{
    let l = status_lines(Status::Completed { result, count }, v);
    let none = Seq::<char>::empty();
    let c = text::numeral(count, 10, false);
    let a0 = "[scan] FindLobbiesCompleted result="@ + text::dec(result);
    let f0 = " count="@ + c;
    assert(l[0] =~= a0 + f0 + none);
    text::lemma_occurs_between(a0, f0, none);
    let x = v[j];
    let s = room_line(j, x);
    assert(l[j + 1] == s);
    lemma_room_is_told(j, x);
}

proof fn lemma_room_is_told(j: int, x: Lobby)
    ensures
        ({
            let s = room_line(j, x);
            &&& text::contains(s, "room["@ + text::numeral(j, 10, false) + "]"@)
            &&& text::contains(s, " lobbyId="@ + x.lobby_id + " owner="@ + x.owner_id)
            &&& text::contains(
                s,
                " members="@ + text::numeral(x.cur_members, 10, false) + "/"@ + text::numeral(
                    x.max_members,
                    10,
                    false,
                ),
            )
            &&& text::contains(s, " conn="@ + x.conn)
        }),
{
    reveal_strlit("[scan]   room[");
    reveal_strlit("[scan]   ");
    reveal_strlit("room[");
    reveal_strlit("] lobbyId=");
    reveal_strlit(" lobbyId=");
    reveal_strlit("]");
    let s = room_line(j, x);
    let none = Seq::<char>::empty();
    let d = text::numeral(j, 10, false);
    let cur = text::numeral(x.cur_members, 10, false);
    let max = text::numeral(x.max_members, 10, false);
    let a1 = "[scan]   "@;
    let f1 = "room["@ + d + "]"@;
    let f2 = " lobbyId="@ + x.lobby_id + " owner="@ + x.owner_id;
    let f3 = " members="@ + cur + "/"@ + max;
    let f4 = " conn="@ + x.conn;
    assert(s =~= a1 + f1 + f2 + f3 + f4);
    assert(s =~= a1 + f1 + (f2 + f3 + f4));
    text::lemma_occurs_between(a1, f1, f2 + f3 + f4);
    assert(s =~= (a1 + f1) + f2 + (f3 + f4));
    text::lemma_occurs_between(a1 + f1, f2, f3 + f4);
    assert(s =~= (a1 + f1 + f2) + f3 + f4);
    text::lemma_occurs_between(a1 + f1 + f2, f3, f4);
    assert(s =~= (a1 + f1 + f2 + f3) + f4 + none);
    text::lemma_occurs_between(a1 + f1 + f2 + f3, f4, none);
}

/// How a search goes: it begins with a handle, a known function and no other search under
/// way; it is over where it could not be begun; changes are asked for every 50 milliseconds,
/// 200 times at most; those that came are handed back whatever they were; and it is over
/// once one of them was its end.
pub proof fn lemma_search_goes(
    s: Scan,
    k: snapshot::Known,
    handle: u64,
    known: bool,
    ret: i32,
    count: u32,
    changes: usize,
)
    requires
        s.round < 200,
    ensures
        ({
            let t = scan_turn(s, ScanEvent::Begin(handle, known), k)->Ok_0;
            let begins = handle != 0 && known && !s.in_progress;
            &&& scan_turn(s, ScanEvent::Begin(handle, known), k) is Ok
            &&& begins ==> t.2 == ScanStep::FindLobbies(handle) && t.0 == (Scan {
                in_progress: true,
                round: 0,
                done: false,
            })
            &&& !begins ==> t.2 is Done && t.0 == s
        }),
        ({
            let t = scan_turn(s, ScanEvent::Found(ret), k)->Ok_0;
            &&& scan_turn(s, ScanEvent::Found(ret), k) is Ok
            &&& ret < 0 ==> t.2 is Done && !t.0.in_progress
            &&& ret >= 0 ==> t.2 == ScanStep::Poll(50) && t.0 == s
        }),
        ({
            let r = scan_turn(s, ScanEvent::Polled(ret, count, changes), k);
            &&& ret < 0 || count == 0 ==> r is Ok && (if s.round < 199 {
                r->Ok_0.2 == ScanStep::Poll(50) && r->Ok_0.0.round == s.round + 1
                    && r->Ok_0.0.in_progress == s.in_progress
            } else {
                r->Ok_0.2 is Done && !r->Ok_0.0.in_progress
            })
            &&& ret >= 0 && count > 0 && r is Ok ==> r->Ok_0.2 == ScanStep::Finish(count, changes)
                && r->Ok_0.0.round == s.round && r->Ok_0.0.in_progress == s.in_progress
                && changes_from(k, changes, 0, count as int) is Ok && r->Ok_0.0.done
                == changes_from(k, changes, 0, count as int)->Ok_0.1
        }),
        ({
            let r = scan_turn(s, ScanEvent::Finished, k);
            &&& r is Ok
            &&& s.done ==> r->Ok_0.2 is Done && !r->Ok_0.0.in_progress
            &&& !s.done && s.round < 199 ==> r->Ok_0.2 == ScanStep::Poll(50) && r->Ok_0.0.round
                == s.round + 1 && r->Ok_0.0.in_progress == s.in_progress
            &&& !s.done && s.round == 199 ==> r->Ok_0.2 is Done && !r->Ok_0.0.in_progress
        }),
{
}

/// Addresses go round at the end of memory, and otherwise are the sum.
pub proof fn lemma_offset(p: usize, off: int)
    requires
        0 <= off <= usize::MAX,
    ensures
        p + off <= usize::MAX ==> offset(p, off) == p + off,
        p + off > usize::MAX ==> offset(p, off) == p + off - (usize::MAX + 1),
{
}

/// What a search says: how it was begun, why its end was refused, and that the wait for it
/// is over.
pub proof fn lemma_search_is_told(
    s: Scan,
    k: snapshot::Known,
    handle: u64,
    known: bool,
    ret: i32,
    reason: Seq<char>,
    v: Seq<Lobby>,
)
    requires
        s.round == 199,
        !s.done,
    ensures
        status_lines(Status::Rejected { reason }, v) == seq![
            "[scan] FindLobbiesCompleted rejected: "@ + reason,
        ],
        scan_turn(s, ScanEvent::Finished, k)->Ok_0.1 == seq![
            "[scan] timeout waiting FindLobbiesCompleted"@,
        ],
        scan_turn(s, ScanEvent::Found(ret), k)->Ok_0.1 == seq![
            "[scan] FindLobbies ret=0x"@ + text::numeral((ret as u32) as int, 16, true)
                + " (0=成功, 负=错误)"@,
        ],
        ({
            let l = scan_turn(s, ScanEvent::Begin(handle, known), k)->Ok_0.1;
            &&& l.len() >= 1
            &&& l[0]
                == "[scan] CONSUMPTION WARNING: this scan consumes ALL pending lobby state changes (single-consumer queue)"@
            &&& handle == 0 ==> l.len() == 2 && l[1] == "[scan] handle not ready"@
            &&& handle != 0 && !known ==> l.len() == 2 && l[1] == "[scan] FindLobbies not resolved"@
            &&& handle != 0 && known && s.in_progress ==> l.len() == 2 && l[1]
                == "[scan] already in progress"@
            &&& handle != 0 && known && !s.in_progress ==> l.len() == 1
        }),
{
}

/// A refused result is told with its reason: how many rooms it claims, or that it has none
/// to be read.
pub proof fn lemma_refusal_is_told(
    k: snapshot::Known,
    ch: usize,
    b: Seq<u8>,
    n: u32,
    arr: u64,
)
    requires
        ch != 0,
        b.len() == 0x30,
        snapshot::bytes_at(k, ch, 4) == Ok::<Seq<u8>, Need>(bytes::le_bytes(12, 4)),
        snapshot::bytes_at(k, ch, 0x30) == Ok::<Seq<u8>, Need>(b),
        b.subrange(0x20, 0x24) == bytes::le_bytes(n as int, 4),
        b.subrange(0x28, 0x30) == bytes::le_bytes(arr as int, 8),
        n > 1000 || arr == 0,
    ensures
        n > 1000 ==> completion(k, ch)->Ok_0.0 == (Status::Rejected {
            reason: "count="@ + text::numeral(n as int, 10, false)
                + " exceeds 1000 (state anomaly, see B27/B28)"@,
        }),
        n <= 1000 ==> completion(k, ch)->Ok_0.0 == (Status::Rejected {
            reason: "searchResults==0 (null results, see B27/B28)"@,
        }),
{
    bytes::lemma_words_read_back(12, arr);
    bytes::lemma_words_read_back(n, arr);
}

/// The changes are told in the order in which they stand: what the first says comes before
/// what the rest say.
pub proof fn lemma_changes_in_order(k: snapshot::Known, changes: usize, i: int, n: int, p: u64)
    requires
        0 <= i < n,
        changes + 8 * n <= usize::MAX,
        changes_from(k, changes, i, n) is Ok,
        snapshot::bytes_at(k, (changes + 8 * i) as usize, 8) == Ok::<Seq<u8>, Need>(
            bytes::le_bytes(p as int, 8),
        ),
    ensures
        completion(k, p as usize) is Ok,
        changes_from(k, changes, i + 1, n) is Ok,
        changes_from(k, changes, i, n)->Ok_0.0 == status_lines(
            completion(k, p as usize)->Ok_0.0,
            completion(k, p as usize)->Ok_0.1,
        ) + changes_from(k, changes, i + 1, n)->Ok_0.0,
{
    assert(offset(changes, i * 8) == (changes + 8 * i) as usize);
    bytes::lemma_words_read_back(0, p);
}

/// A room of a search is what its fields say, a list of them is read one by one, in order,
/// and so is the outcome of a search.
pub proof fn lemma_lobby_fields(v: Seq<RoomInfo>, i: int, result: u32, count: u32, reason: String)
    requires
        0 <= i < v.len(),
    ensures
        lobby_views(v).len() == v.len(),
        lobby_views(v)[i].lobby_id == v[i].lobby_id@,
        lobby_views(v)[i].conn == v[i].conn@,
        lobby_views(v)[i].owner_id == v[i].owner_id@,
        lobby_views(v)[i].max_members == v[i].max_members,
        lobby_views(v)[i].cur_members == v[i].cur_members,
        (ScanStatus::Completed { result, count })@ == (Status::Completed {
            result: result as int,
            count: count as int,
        }),
        (ScanStatus::Rejected { reason })@ == (Status::Rejected { reason: reason@ }),
        ScanStatus::NotOurs@ == Status::NotOurs,
{
}

/// A string that was read is read as it stands.
pub proof fn lemma_view_str(s: String, n: Need)
    ensures
        view_str(Ok(s)) == Ok::<Seq<char>, Need>(s@),
        view_str(Err(n)) == Err::<Seq<char>, Need>(n),
{
}

} // verus!
