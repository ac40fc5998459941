//! The list of rooms.
//!
//! A first pass over the heap takes the rooms of the search result. Only where it
//! finds none does a second pass take every object that names a leader, which may
//! be left over from an earlier search.
use vstd::prelude::*;

use crate::bytes;
use crate::net;
use crate::net::RoomInfo;
use crate::text;

verus! {

pub open spec fn room_views(v: Seq<RoomInfo>) -> Seq<net::Room> {
    v.map_values(|r: RoomInfo| r@)
}

/// Whether two entries are of one room: the platform and account of the leader.
pub open spec fn same_room(a: net::Room, b: net::Room) -> bool {
    a.platform == b.platform && a.account_id == b.account_id
}

pub open spec fn has_room(rooms: Seq<net::Room>, r: net::Room) -> bool {
    exists|i: int| 0 <= i < rooms.len() && same_room(#[trigger] rooms[i], r)
}

/// `rooms` with `r` at the end, unless it is there.
pub open spec fn add_room(rooms: Seq<net::Room>, r: net::Room) -> Seq<net::Room> {
    if has_room(rooms, r) {
        rooms
    } else {
        rooms.push(r)
    }
}

pub open spec fn add_rooms(rooms: Seq<net::Room>, more: Seq<net::Room>) -> Seq<net::Room>
    decreases more.len(),
{
    if more.len() == 0 {
        rooms
    } else {
        add_rooms(add_room(rooms, more[0]), more.drop_first())
    }
}

pub open spec fn distinct_rooms(rooms: Seq<net::Room>) -> bool {
    forall|i: int, j: int|
        0 <= i < j < rooms.len() ==> !same_room(#[trigger] rooms[i], #[trigger] rooms[j])
}

/// No room is listed twice.
pub proof fn lemma_rooms_distinct(rooms: Seq<net::Room>, more: Seq<net::Room>)
    requires
        distinct_rooms(rooms),
    ensures
        distinct_rooms(add_rooms(rooms, more)),
    decreases more.len(),
{
    if more.len() != 0 {
        lemma_rooms_distinct(add_room(rooms, more[0]), more.drop_first());
    }
}

fn list_room(rooms: &mut Vec<RoomInfo>, r: RoomInfo)
    ensures
        room_views(final(rooms)@) == add_room(room_views(old(rooms)@), r@),
{
    let ghost before = room_views(rooms@);
    let ghost rv = r@;
    let mut i: usize = 0;
    while i < rooms.len()
        invariant
            i <= rooms.len(),
            rv == r@,
            before == room_views(rooms@),
            forall|j: int| 0 <= j < i ==> !same_room(#[trigger] before[j], rv),
        decreases rooms.len() - i,
    {
        assert(before[i as int] == rooms@[i as int]@);
        if rooms[i].platform == r.platform && rooms[i].account_id == r.account_id {
            assert(same_room(before[i as int], rv));
            return;
        }
        i += 1;
    }
    rooms.push(r);
    assert(room_views(rooms@) == before.push(rv));
}

/// The rooms of the search result in a block, from `start` on.
pub open spec fn sk5_rooms(data: Seq<u8>, start: int) -> Seq<net::Room> {
    bytes::found(data, bytes::ascii("string_key5"@), |rel: int| net::sk5_room(data, rel), start)
}

/// Whether the object around a hit lies within the block with certainty.
pub open spec fn inside(len: int, rel: int) -> bool {
    rel >= 0x300 && rel + 0x800 <= len
}

/// The hits in a block whose object may reach beyond it, from `start` on.
pub open spec fn edges_in(data: Seq<u8>, start: int) -> Seq<int> {
    bytes::found(
        data,
        bytes::ascii("leader_name"@),
        |rel: int|
            if inside(data.len() as int, rel) {
                None
            } else {
                Some(rel)
            },
        start,
    )
}

fn is_inside(data: &[u8], rel: usize) -> (r: bool)
    requires
        rel <= data@.len(),
    ensures
        r == inside(data@.len() as int, rel as int),
{
    rel >= 0x300 && data.len() - rel >= 0x800
}

/// The hits in a block whose object must be read from the game on its own.
pub fn edge_hits(data: &[u8]) -> (r: Vec<usize>)
    ensures
        r@.map_values(|i: usize| i as int) == edges_in(data@, 0),
{
    let mark = bytes::ascii_of("leader_name");
    let ghost f = |rel: int|
        if inside(data@.len() as int, rel) {
            None
        } else {
            Some(rel)
        };
    let ghost g = |i: usize| i as int;
    let mut out: Vec<usize> = Vec::new();
    let mut idx: usize = 0;
    loop
        invariant
            mark@ == bytes::ascii("leader_name"@),
            f == (|rel: int|
                if inside(data@.len() as int, rel) {
                    None
                } else {
                    Some(rel)
                }),
            g == (|i: usize| i as int),
            out@.map_values(g) + edges_in(data@, idx as int) == edges_in(data@, 0),
        ensures
            out@.map_values(g) == edges_in(data@, 0),
        decreases data@.len() - idx,
    {
        proof {
            bytes::lemma_found_next(data@, mark@, f, idx as int);
        }
        match bytes::find_sub(data, mark.as_slice(), idx) {
            Some(rel) => {
                let ghost before = out@.map_values(g);
                if !is_inside(data, rel) {
                    out.push(rel);
                    assert(out@.map_values(g) == before.push(rel as int));
                    assert(f(rel as int) == Some(rel as int));
                }
                assert(out@.map_values(g) == before + bytes::opt_seq(f(rel as int)));
                assert(rel < data.len());
                idx = rel + 1;
            },
            None => {
                assert(out@.map_values(g) + Seq::<int>::empty() == out@.map_values(g));
                break;
            },
        }
    }
    out
}

/// Memory that was read for the hits at the edges of a block, by content.
pub open spec fn content_views(v: Seq<Option<Vec<u8>>>) -> Seq<Option<Seq<u8>>> {
    v.map_values(
        |o: Option<Vec<u8>>|
            match o {
                Some(c) => Some(c@),
                None => None,
            },
    )
}

/// The room at a hit on the edge of a block, from what was read for it.
pub open spec fn edge_room(content: Option<Seq<u8>>) -> Option<net::Room> {
    match content {
        Some(c) => net::room_of_content(c),
        None => None,
    }
}

pub open spec fn first_content(edges: Seq<Option<Seq<u8>>>) -> Option<Seq<u8>> {
    if edges.len() == 0 {
        None
    } else {
        edges[0]
    }
}

pub open spec fn other_contents(edges: Seq<Option<Seq<u8>>>) -> Seq<Option<Seq<u8>>> {
    if edges.len() == 0 {
        edges
    } else {
        edges.drop_first()
    }
}

/// The rooms of the objects in a block that name a leader, from `start` on. What
/// was read for the hits at its edges comes in `edges`, in order.
pub open spec fn led_rooms(
    data: Seq<u8>,
    edges: Seq<Option<Seq<u8>>>,
    start: int,
) -> Seq<net::Room>
    decreases data.len() + 1 - start,
{
    let mark = bytes::ascii("leader_name"@);
    if mark.len() == 0 || start + mark.len() > data.len() {
        seq![]
    } else if !text::occurs_at(data, mark, start) {
        led_rooms(data, edges, start + 1)
    } else if inside(data.len() as int, start) {
        bytes::opt_seq(net::room_before(data, start)) + led_rooms(data, edges, start + 1)
    } else {
        bytes::opt_seq(edge_room(first_content(edges))) + led_rooms(
            data,
            other_contents(edges),
            start + 1,
        )
    }
}

proof fn lemma_led_rooms_next(data: Seq<u8>, edges: Seq<Option<Seq<u8>>>, start: int)
    ensures
        match bytes::sub_at(data, bytes::ascii("leader_name"@), start) {
            Some(i) => led_rooms(data, edges, start) == (if inside(data.len() as int, i) {
                bytes::opt_seq(net::room_before(data, i)) + led_rooms(data, edges, i + 1)
            } else {
                bytes::opt_seq(edge_room(first_content(edges))) + led_rooms(
                    data,
                    other_contents(edges),
                    i + 1,
                )
            }),
            None => led_rooms(data, edges, start) == Seq::<net::Room>::empty(),
        },
    decreases data.len() + 1 - start,
{
    let mark = bytes::ascii("leader_name"@);
    if mark.len() != 0 && start + mark.len() <= data.len() && !text::occurs_at(data, mark, start) {
        lemma_led_rooms_next(data, edges, start + 1);
    }
}

/// Whether one text comes before another, by the codes of their characters.
pub open spec fn text_less(a: Seq<char>, b: Seq<char>) -> bool
    decreases a.len(),
{
    if b.len() == 0 {
        false
    } else if a.len() == 0 {
        true
    } else if a[0] != b[0] {
        (a[0] as int) < (b[0] as int)
    } else {
        text_less(a.drop_first(), b.drop_first())
    }
}

proof fn lemma_text_less_asymmetric(a: Seq<char>, b: Seq<char>)
    ensures
        !(text_less(a, b) && text_less(b, a)),
    decreases a.len(),
{
    if a.len() != 0 && b.len() != 0 {
        lemma_text_less_asymmetric(a.drop_first(), b.drop_first());
    }
}

proof fn lemma_text_less_between(r: Seq<char>, x: Seq<char>, y: Seq<char>)
    requires
        text_less(r, x),
        !text_less(r, y),
    ensures
        text_less(y, x),
    decreases r.len(),
{
    if r.len() != 0 && y.len() != 0 && r[0] == x[0] && r[0] == y[0] {
        lemma_text_less_between(r.drop_first(), x.drop_first(), y.drop_first());
    }
}

proof fn lemma_text_less_irreflexive(a: Seq<char>)
    ensures
        !text_less(a, a),
    decreases a.len(),
{
    if a.len() != 0 {
        lemma_text_less_irreflexive(a.drop_first());
    }
}

/// Whether one text comes before another.
pub fn text_before(a: &str, b: &str) -> (r: bool)
    ensures
        r == text_less(a@, b@),
{
    let v = text::chars_of(a);
    let w = text::chars_of(b);
    let mut i: usize = 0;
    assert(v@.skip(0) == v@ && w@.skip(0) == w@);
    while i < v.len() && i < w.len() && v[i] == w[i]
        invariant
            i <= v.len(),
            i <= w.len(),
            text_less(v@, w@) == text_less(v@.skip(i as int), w@.skip(i as int)),
        decreases v.len() - i,
    {
        assert(v@.skip(i as int).drop_first() == v@.skip(i + 1));
        assert(w@.skip(i as int).drop_first() == w@.skip(i + 1));
        i += 1;
    }
    if i >= w.len() {
        false
    } else if i >= v.len() {
        true
    } else {
        v[i] < w[i]
    }
}

/// The rooms whose leader has the given name, in order.
pub open spec fn led_by(rooms: Seq<net::Room>, name: Seq<char>) -> Seq<net::Room> {
    rooms.filter(|r: net::Room| r.leader_name == name)
}

pub open spec fn sorted(rooms: Seq<net::Room>) -> bool {
    forall|i: int, j: int|
        0 <= i < j < rooms.len() ==> !text_less(
            (#[trigger] rooms[j]).leader_name,
            (#[trigger] rooms[i]).leader_name,
        )
}

/// Whether `b` is `a` sorted by the leaders' names, rooms with equal names kept in
/// order.
pub open spec fn stably_sorted(a: Seq<net::Room>, b: Seq<net::Room>) -> bool {
    &&& sorted(b)
    &&& forall|name: Seq<char>| #[trigger] led_by(b, name) == led_by(a, name)
}

proof fn lemma_led_by_insert(a: Seq<net::Room>, b: Seq<net::Room>, r: net::Room, p: int)
    requires
        0 <= p <= b.len(),
        stably_sorted(a, b),
        forall|j: int| p <= j < b.len() ==> text_less(r.leader_name, (#[trigger] b[j]).leader_name),
        p > 0 ==> !text_less(r.leader_name, b[p - 1].leader_name),
    ensures
        stably_sorted(a.push(r), b.insert(p, r)),
{
    let c = b.insert(p, r);
    let x = b.take(p);
    let y = b.skip(p);
    assert(b == x + y);
    assert(c == x + seq![r] + y);
    assert forall|name: Seq<char>| #[trigger] led_by(c, name) == led_by(a.push(r), name) by {
        let f = |q: net::Room| q.leader_name == name;
        Seq::filter_distributes_over_add(x, y, f);
        Seq::filter_distributes_over_add(x + seq![r], y, f);
        Seq::filter_distributes_over_add(x, seq![r], f);
        a.lemma_filter_push(r, f);
        assert(led_by(b, name) == led_by(a, name));
        let none = Seq::<net::Room>::empty();
        assert(seq![r] == none.push(r));
        none.lemma_filter_push(r, f);
        reveal(Seq::filter);
        assert(none.filter(f) == none);
        if name == r.leader_name {
            assert forall|j: int| 0 <= j < y.len() implies !f(#[trigger] y[j]) by {
                assert(y[j] == b[p + j]);
                lemma_text_less_irreflexive(name);
            }
            lemma_filter_none(y, f);
            assert(x.filter(f) + y.filter(f) == x.filter(f));
            assert(c.filter(f) == x.filter(f).push(r));
        } else {
            assert(x.filter(f) + none + y.filter(f) == x.filter(f) + y.filter(f));
        }
    }
    assert forall|i: int, j: int| 0 <= i < j < c.len() implies !text_less(
        (#[trigger] c[j]).leader_name,
        (#[trigger] c[i]).leader_name,
    ) by {
        if j == p {
            assert(c[i] == b[i]);
            if text_less(r.leader_name, b[i].leader_name) {
                lemma_text_less_between(r.leader_name, b[i].leader_name, b[p - 1].leader_name);
                assert(i == p - 1);
            }
        } else if i == p {
            assert(c[j] == b[j - 1]);
            lemma_text_less_asymmetric(r.leader_name, b[j - 1].leader_name);
        } else {
            let bi = if i < p { i } else { i - 1 };
            let bj = if j < p { j } else { j - 1 };
            assert(c[i] == b[bi] && c[j] == b[bj]);
        }
    }
}

proof fn lemma_filter_none<A>(s: Seq<A>, f: spec_fn(A) -> bool)
    requires
        forall|i: int| 0 <= i < s.len() ==> !f(#[trigger] s[i]),
    ensures
        s.filter(f) == Seq::<A>::empty(),
    decreases s.len(),
{
    reveal(Seq::filter);
    if s.len() != 0 {
        assert forall|i: int| 0 <= i < s.drop_last().len() implies !f(
            #[trigger] s.drop_last()[i],
        ) by {
            assert(s[i] == s.drop_last()[i]);
        }
        lemma_filter_none(s.drop_last(), f);
    }
}

fn sort_rooms(rooms: Vec<RoomInfo>) -> (r: Vec<RoomInfo>)
    ensures
        stably_sorted(room_views(rooms@), room_views(r@)),
{
    let ghost a = room_views(rooms@);
    let mut rest = rooms;
    let mut left: Vec<RoomInfo> = Vec::new();
    while rest.len() > 0
        invariant
            room_views(rest@) + room_views(left@).reverse() == a,
        decreases rest.len(),
    {
        let ghost r0 = room_views(rest@);
        let ghost l0 = room_views(left@);
        match rest.pop() {
            Some(x) => {
                let ghost xv = x@;
                left.push(x);
                assert(r0 == room_views(rest@).push(xv));
                assert(room_views(left@) == l0.push(xv));
                assert(l0.push(xv).reverse() == seq![xv] + l0.reverse());
                assert(room_views(rest@) + room_views(left@).reverse() == r0 + l0.reverse());
            },
            None => {},
        }
    }
    assert(room_views(left@).reverse() == a);
    let mut out: Vec<RoomInfo> = Vec::new();
    let mut k: Ghost<int> = Ghost(0);
    proof {
        assert(room_views(out@) == a.take(0));
        assert(stably_sorted(a.take(0), room_views(out@)));
    }
    while left.len() > 0
        invariant
            0 <= k@ <= a.len(),
            k@ + left.len() == a.len(),
            room_views(left@).reverse() == a.skip(k@),
            stably_sorted(a.take(k@), room_views(out@)),
        decreases left.len(),
    {
        let ghost l0 = room_views(left@);
        match left.pop() {
            Some(x) => {
                let ghost b = room_views(out@);
                let ghost xv = x@;
                proof {
                    assert(l0 == room_views(left@).push(xv));
                    assert(l0.reverse()[0] == xv);
                    assert(a.skip(k@)[0] == a[k@]);
                    assert(room_views(left@).reverse() == l0.reverse().drop_first());
                    assert(a.skip(k@).drop_first() == a.skip(k@ + 1));
                    assert(a.take(k@ + 1) == a.take(k@).push(xv));
                }
                let mut p: usize = out.len();
                while p > 0 && text_before(x.leader_name.as_str(), out[p - 1].leader_name.as_str())
                    invariant
                        p <= out.len(),
                        xv == x@,
                        b == room_views(out@),
                        forall|j: int|
                            p <= j < b.len() ==> text_less(
                                xv.leader_name,
                                (#[trigger] b[j]).leader_name,
                            ),
                    decreases p,
                {
                    assert(b[p - 1] == out@[p - 1]@);
                    p -= 1;
                }
                proof {
                    if p > 0 {
                        assert(b[p - 1] == out@[p - 1]@);
                    }
                    lemma_led_by_insert(a.take(k@), b, xv, p as int);
                }
                out.insert(p, x);
                assert(room_views(out@) == b.insert(p as int, xv));
                proof {
                    k@ = k@ + 1;
                }
            },
            None => {},
        }
    }
    assert(a.take(k@) == a);
    out
}

/// The state of a scan for rooms: what it has found, and whether it is in its
/// second pass.
pub struct RoomScan {
    rooms: Vec<RoomInfo>,
    fallback: bool,
}

/// The content of a [`RoomScan`].
pub ghost struct Listed {
    pub rooms: Seq<net::Room>,
    pub fallback: bool,
}

impl View for RoomScan {
    type V = Listed;

    closed spec fn view(&self) -> Listed {
        Listed { rooms: room_views(self.rooms@), fallback: self.fallback }
    }
}

/// The list once a block was scanned too.
pub open spec fn list_block(s: Listed, data: Seq<u8>, edges: Seq<Option<Seq<u8>>>) -> Listed {
    let more = if s.fallback {
        led_rooms(data, edges, 0)
    } else {
        sk5_rooms(data, 0)
    };
    Listed { rooms: add_rooms(s.rooms, more), ..s }
}

impl RoomScan {
    pub fn new() -> (r: RoomScan)
        ensures
            r@ == (Listed { rooms: seq![], fallback: false }),
    {
        let r = RoomScan { rooms: Vec::new(), fallback: false };
        assert(r@.rooms == Seq::<net::Room>::empty());
        r
    }

    /// Whether the scan wants what lies around the hits at the edges of a block.
    pub fn wants_edges(&self) -> (r: bool)
        ensures
            r == self@.fallback,
    {
        self.fallback
    }

    fn scan_results(&mut self, data: &[u8])
        ensures
            final(self)@ == (Listed {
                rooms: add_rooms(old(self)@.rooms, sk5_rooms(data@, 0)),
                ..old(self)@
            }),
    {
        let mark = bytes::ascii_of("string_key5");
        let ghost f = |rel: int| net::sk5_room(data@, rel);
        let ghost before = self@;
        let mut idx: usize = 0;
        loop
            invariant
                mark@ == bytes::ascii("string_key5"@),
                f == (|rel: int| net::sk5_room(data@, rel)),
                self@.fallback == before.fallback,
                add_rooms(self@.rooms, sk5_rooms(data@, idx as int)) == add_rooms(
                    before.rooms,
                    sk5_rooms(data@, 0),
                ),
            ensures
                self@ == (Listed { rooms: add_rooms(before.rooms, sk5_rooms(data@, 0)), ..before }),
            decreases data@.len() - idx,
        {
            proof {
                bytes::lemma_found_next(data@, mark@, f, idx as int);
            }
            match bytes::find_sub(data, mark.as_slice(), idx) {
                Some(rel) => {
                    let ghost now = sk5_rooms(data@, idx as int);
                    let ghost rest = sk5_rooms(data@, rel + 1);
                    match net::parse_sk5_room_in_chunk(data, rel) {
                        Some(info) => {
                            assert(now[0] == info@);
                            assert(now.drop_first() == rest);
                            list_room(&mut self.rooms, info);
                        },
                        None => {
                            assert(now == rest);
                        },
                    }
                    assert(rel < data.len());
                    idx = rel + 1;
                },
                None => {
                    break;
                },
            }
        }
    }

    fn scan_leaders(&mut self, data: &[u8], edges: &Vec<Option<Vec<u8>>>)
        ensures
            final(self)@ == (Listed {
                rooms: add_rooms(old(self)@.rooms, led_rooms(data@, content_views(edges@), 0)),
                ..old(self)@
            }),
    {
        let mark = bytes::ascii_of("leader_name");
        let ghost all = content_views(edges@);
        let ghost before = self@;
        let mut idx: usize = 0;
        let mut k: usize = 0;
        assert(all.skip(0) == all);
        loop
            invariant
                mark@ == bytes::ascii("leader_name"@),
                all == content_views(edges@),
                k <= edges.len(),
                self@.fallback == before.fallback,
                add_rooms(self@.rooms, led_rooms(data@, all.skip(k as int), idx as int))
                    == add_rooms(before.rooms, led_rooms(data@, all, 0)),
            ensures
                self@ == (Listed {
                    rooms: add_rooms(before.rooms, led_rooms(data@, all, 0)),
                    ..before
                }),
            decreases data@.len() - idx,
        {
            let ghost edges_left = all.skip(k as int);
            proof {
                lemma_led_rooms_next(data@, edges_left, idx as int);
            }
            match bytes::find_sub(data, mark.as_slice(), idx) {
                Some(rel) => {
                    let ghost now = led_rooms(data@, edges_left, idx as int);
                    let info = if is_inside(data, rel) {
                        net::parse_room_json_in_chunk(data, rel)
                    } else if k < edges.len() {
                        assert(edges_left.drop_first() == all.skip(k + 1));
                        assert(edges_left[0] == all[k as int]);
                        k += 1;
                        match &edges[k - 1] {
                            Some(c) => net::parse_room_json(c.as_slice()),
                            None => None,
                        }
                    } else {
                        None
                    };
                    let ghost rest = led_rooms(data@, all.skip(k as int), rel + 1);
                    assert(now == bytes::opt_seq(net::opt_room(info)) + rest);
                    match info {
                        Some(x) => {
                            assert(now[0] == x@);
                            assert(now.drop_first() == rest);
                            list_room(&mut self.rooms, x);
                        },
                        None => {
                            assert(now == rest);
                        },
                    }
                    assert(rel < data.len());
                    idx = rel + 1;
                },
                None => {
                    break;
                },
            }
        }
    }

    /// Lists the rooms that one block of the heap holds. `edges` is what was read
    /// for the hits that [`edge_hits`] names.
    pub fn scan_block(&mut self, data: &[u8], edges: &Vec<Option<Vec<u8>>>)
        ensures
            final(self)@ == list_block(old(self)@, data@, content_views(edges@)),
    {
        if self.fallback {
            self.scan_leaders(data, edges);
        } else {
            self.scan_results(data);
        }
    }
}

/// What a scan for rooms learns of the game.
pub enum RoomInput {
    /// The game is not running.
    NotRunning,
    /// The process could not be opened, and why.
    OpenFailed(String),
    /// One block of the heap, and what was read for the hits at its edges.
    Block(Vec<u8>, Vec<Option<Vec<u8>>>),
    /// The heap holds no further block.
    End,
}

/// Where a scan for rooms stands.
pub enum RoomStep {
    /// It wants the next block.
    More(RoomScan),
    /// It wants the blocks once more, from the first on.
    Again(RoomScan),
    Done(Result<Vec<RoomInfo>, String>),
}

/// Whether `step` is what the scan in state `s` makes of an input.
pub open spec fn room_step(s: Listed, input: RoomInput, step: RoomStep) -> bool {
    match input {
        RoomInput::NotRunning => step matches RoomStep::Done(r) && r matches Err(e) && e@
            == "游戏未运行"@,
        RoomInput::OpenFailed(why) => step matches RoomStep::Done(r) && r matches Err(e) && e@
            == why@,
        RoomInput::Block(data, edges) => step matches RoomStep::More(n) && n@ == list_block(
            s,
            data@,
            content_views(edges@),
        ),
        RoomInput::End => if s.rooms.len() == 0 && !s.fallback {
            step matches RoomStep::Again(n) && n@ == (Listed { fallback: true, ..s })
        } else {
            step matches RoomStep::Done(r) && r matches Ok(v) && stably_sorted(
                s.rooms,
                room_views(v@),
            )
        },
    }
}

/// Scans for rooms, one input at a time.
pub fn scan_rooms(scan: RoomScan, input: RoomInput) -> (step: RoomStep)
    ensures
        room_step(scan@, input, step),
{
    match input {
        RoomInput::NotRunning => RoomStep::Done(Err(text::text_of("游戏未运行"))),
        RoomInput::OpenFailed(why) => RoomStep::Done(Err(why)),
        RoomInput::Block(data, edges) => {
            let mut s = scan;
            s.scan_block(data.as_slice(), &edges);
            RoomStep::More(s)
        },
        RoomInput::End => if scan.rooms.len() == 0 && !scan.fallback {
            RoomStep::Again(RoomScan { rooms: scan.rooms, fallback: true })
        } else {
            RoomStep::Done(Ok(sort_rooms(scan.rooms)))
        },
    }
}

/// The scan falls back on left-over rooms only where the search result held none.
pub proof fn lemma_fallback_only_when_empty(s: Listed, input: RoomInput, step: RoomStep)
    requires
        room_step(s, input, step),
        !s.fallback,
    ensures
        match step {
            RoomStep::More(n) => !n@.fallback,
            RoomStep::Again(n) => s.rooms.len() == 0 && n@.rooms.len() == 0,
            RoomStep::Done(_) => true,
        },
{
}

/// Every room that was found is listed, under the platform and account of its leader;
/// and where none was listed or found before with that platform and account, it is listed
/// just as it was found.
pub proof fn lemma_rooms_complete(rooms: Seq<net::Room>, more: Seq<net::Room>, i: int)
    requires
        0 <= i < more.len(),
    ensures
        exists|k: int|
            0 <= k < add_rooms(rooms, more).len() && (#[trigger] add_rooms(rooms, more)[k]).platform
                == more[i].platform && add_rooms(rooms, more)[k].account_id == more[i].account_id,
        (forall|k: int|
            0 <= k < rooms.len() ==> (#[trigger] rooms[k]).platform != more[i].platform
                || rooms[k].account_id != more[i].account_id) && (forall|k: int|
            0 <= k < i ==> (#[trigger] more[k]).platform != more[i].platform || more[k].account_id
                != more[i].account_id) ==> add_rooms(rooms, more).contains(more[i]),
    decreases more.len(),
{
    let first = add_room(rooms, more[0]);
    let rest = more.drop_first();
    let all = add_rooms(rooms, more);
    if i == 0 {
        lemma_rooms_stay(first, rest);
        let at = if has_room(rooms, more[0]) {
            choose|k: int| 0 <= k < rooms.len() && same_room(#[trigger] rooms[k], more[0])
        } else {
            rooms.len() as int
        };
        assert(first[at].platform == more[0].platform);
        assert(all[at] == first[at]);
        if !has_room(rooms, more[0]) {
            assert(all[at] == more[0]);
        }
    } else {
        lemma_rooms_complete(first, rest, i - 1);
        let k = choose|k: int|
            0 <= k < add_rooms(first, rest).len() && (#[trigger] add_rooms(first, rest)[k]).platform
                == rest[i - 1].platform && add_rooms(first, rest)[k].account_id == rest[i
                - 1].account_id;
        assert(all[k].platform == more[i].platform);
        if (forall|k: int|
            0 <= k < rooms.len() ==> (#[trigger] rooms[k]).platform != more[i].platform
                || rooms[k].account_id != more[i].account_id) && (forall|k: int|
            0 <= k < i ==> (#[trigger] more[k]).platform != more[i].platform || more[k].account_id
                != more[i].account_id) {
            assert forall|k: int| 0 <= k < first.len() implies (#[trigger] first[k]).platform
                != rest[i - 1].platform || first[k].account_id != rest[i - 1].account_id by {
                if k < rooms.len() {
                    assert(first[k] == rooms[k]);
                } else {
                    assert(first[k] == more[0]);
                }
            }
            assert forall|k: int| 0 <= k < i - 1 implies (#[trigger] rest[k]).platform != rest[i
                - 1].platform || rest[k].account_id != rest[i - 1].account_id by {
                assert(rest[k] == more[k + 1]);
            }
        }
    }
}

/// What is listed stays where it is, and what comes behind it was found.
pub proof fn lemma_rooms_stay(rooms: Seq<net::Room>, more: Seq<net::Room>)
    ensures
        rooms.len() <= add_rooms(rooms, more).len() <= rooms.len() + more.len(),
        add_rooms(rooms, more).take(rooms.len() as int) == rooms,
        forall|k: int|
            0 <= k < rooms.len() ==> #[trigger] add_rooms(rooms, more)[k] == rooms[k],
        forall|k: int|
            rooms.len() <= k < add_rooms(rooms, more).len() ==> more.contains(
                #[trigger] add_rooms(rooms, more)[k],
            ),
    decreases more.len(),
{
    let all = add_rooms(rooms, more);
    if more.len() > 0 {
        let first = add_room(rooms, more[0]);
        let rest = more.drop_first();
        lemma_rooms_stay(first, rest);
        assert forall|k: int| rooms.len() <= k < all.len() implies more.contains(
            #[trigger] all[k],
        ) by {
            if k < first.len() {
                assert(all[k] == first[k]);
                assert(more[0] == all[k]);
            } else {
                assert(rest.contains(all[k]));
                let j = rest.index_of(all[k]);
                assert(more[j + 1] == all[k]);
            }
        }
    }
    assert(all.take(rooms.len() as int) =~= rooms);
}

/// Every `string_key5` field of a block is looked at: where it describes a room, a room
/// with that platform and account is listed once the block was scanned for the search
/// result.
pub proof fn lemma_results_are_listed(
    s: Listed,
    data: Seq<u8>,
    edges: Seq<Option<Seq<u8>>>,
    rel: int,
    r: net::Room,
)
    requires
        !s.fallback,
        0 <= rel,
        rel + 11 <= data.len(),
        data.subrange(rel, rel + 11) == bytes::ascii("string_key5"@),
        net::sk5_room(data, rel) == Some(r),
    ensures
        exists|k: int|
            0 <= k < list_block(s, data, edges).rooms.len() && (#[trigger] list_block(
                s,
                data,
                edges,
            ).rooms[k]).platform == r.platform && list_block(s, data, edges).rooms[k].account_id
                == r.account_id,
{
    reveal_strlit("string_key5");
    let f = |rel: int| net::sk5_room(data, rel);
    let mark = bytes::ascii("string_key5"@);
    bytes::lemma_found_complete(data, mark, f, 0, rel, r);
    let more = sk5_rooms(data, 0);
    let i = more.index_of(r);
    assert(more[i] == r);
    lemma_rooms_complete(s.rooms, more, i);
    let k = choose|k: int|
        0 <= k < add_rooms(s.rooms, more).len() && (#[trigger] add_rooms(s.rooms, more)[k]).platform
            == more[i].platform && add_rooms(s.rooms, more)[k].account_id == more[i].account_id;
    assert(list_block(s, data, edges).rooms[k].platform == r.platform);
}

/// Every `leader_name` of a block is looked at in the second pass: where it stands at
/// least 768 bytes behind the start of the block and 2048 bytes before its end, and the
/// object around it describes a room, that room is found.
pub proof fn lemma_leaders_are_found(
    data: Seq<u8>,
    edges: Seq<Option<Seq<u8>>>,
    start: int,
    rel: int,
    r: net::Room,
)
    requires
        0 <= start <= rel,
        768 <= rel,
        rel + 2048 <= data.len(),
        data.subrange(rel, rel + 11) == bytes::ascii("leader_name"@),
        net::room_before(data, rel) == Some(r),
    ensures
        led_rooms(data, edges, start).contains(r),
    decreases rel - start,
{
    reveal_strlit("leader_name");
    let mark = bytes::ascii("leader_name"@);
    assert(mark.len() == 11);
    let all = led_rooms(data, edges, start);
    if start == rel {
        assert(text::occurs_at(data, mark, start));
        assert(all[0] == r);
    } else if !text::occurs_at(data, mark, start) {
        lemma_leaders_are_found(data, edges, start + 1, rel, r);
    } else {
        let own = if inside(data.len() as int, start) {
            bytes::opt_seq(net::room_before(data, start))
        } else {
            bytes::opt_seq(edge_room(first_content(edges)))
        };
        let left = if inside(data.len() as int, start) {
            edges
        } else {
            other_contents(edges)
        };
        lemma_leaders_are_found(data, left, start + 1, rel, r);
        let rest = led_rooms(data, left, start + 1);
        let j = rest.index_of(r);
        assert(all == own + rest);
        assert(all[own.len() + j] == r);
    }
}

/// A hit nearer to an end of the block is an edge, and what was read for the edges goes
/// with them in order: the room that the reading of an edge describes is found.
pub proof fn lemma_edges_are_found(
    data: Seq<u8>,
    edges: Seq<Option<Seq<u8>>>,
    start: int,
    k: int,
    content: Seq<u8>,
    r: net::Room,
)
    requires
        0 <= start,
        0 <= k < edges_in(data, start).len(),
        k < edges.len(),
        edges[k] == Some(content),
        net::room_of_content(content) == Some(r),
    ensures
        led_rooms(data, edges, start).contains(r),
    decreases data.len() + 1 - start,
{
    let mark = bytes::ascii("leader_name"@);
    reveal_strlit("leader_name");
    assert(mark.len() == 11);
    let all = led_rooms(data, edges, start);
    if text::occurs_at(data, mark, start) {
        let own = if inside(data.len() as int, start) {
            bytes::opt_seq(net::room_before(data, start))
        } else {
            bytes::opt_seq(edge_room(first_content(edges)))
        };
        if inside(data.len() as int, start) {
            assert(edges_in(data, start) =~= edges_in(data, start + 1));
            lemma_edges_are_found(data, edges, start + 1, k, content, r);
            let rest = led_rooms(data, edges, start + 1);
            let j = rest.index_of(r);
            assert(all == own + rest);
            assert(all[own.len() + j] == r);
        } else {
            assert(edges_in(data, start) =~= seq![start] + edges_in(data, start + 1));
            if k == 0 {
                assert(all[0] == r);
            } else {
                let left = edges.drop_first();
                assert(left[k - 1] == edges[k]);
                lemma_edges_are_found(data, left, start + 1, k - 1, content, r);
                let rest = led_rooms(data, left, start + 1);
                let j = rest.index_of(r);
                assert(all == own + rest);
                assert(all[own.len() + j] == r);
            }
        }
    } else {
        lemma_edges_are_found(data, edges, start + 1, k, content, r);
    }
}

/// The edges are the hits nearer than 768 bytes to the start of the block or nearer than
/// 2048 bytes to its end.
pub proof fn lemma_edges(data: Seq<u8>, rel: int)
    ensures
        edges_in(data, 0).contains(rel) <==> 0 <= rel <= data.len() - 11 && data.subrange(
            rel,
            rel + 11,
        ) == bytes::ascii("leader_name"@) && (rel < 768 || rel + 2048 > data.len()),
{
    reveal_strlit("leader_name");
    let mark = bytes::ascii("leader_name"@);
    assert(mark.len() == 11);
    let f = |rel: int|
        if inside(data.len() as int, rel) {
            None
        } else {
            Some(rel)
        };
    if edges_in(data, 0).contains(rel) {
        bytes::lemma_found_sound(data, mark, f, 0, rel);
    }
    if 0 <= rel <= data.len() - 11 && data.subrange(rel, rel + 11) == mark && (rel < 768 || rel
        + 2048 > data.len()) {
        bytes::lemma_found_complete(data, mark, f, 0, rel, rel);
    }
}

/// One text comes before another where it goes on with a lesser character behind what
/// they share, or ends there while the other goes on.
pub proof fn lemma_text_less(a: Seq<char>, b: Seq<char>, k: int)
    requires
        0 <= k <= a.len(),
        k <= b.len(),
        a.take(k) == b.take(k),
        k < a.len() && k < b.len() ==> a[k] != b[k],
    ensures
        k < a.len() && k < b.len() ==> text_less(a, b) == (a[k] < b[k]),
        k == a.len() ==> text_less(a, b) == (k < b.len()),
        k == b.len() ==> !text_less(a, b),
    decreases k,
{
    if k > 0 {
        let x = a.drop_first();
        let y = b.drop_first();
        assert(a.take(k)[0] == a[0] && b.take(k)[0] == b[0]);
        assert(x.take(k - 1) =~= a.take(k).drop_first());
        assert(y.take(k - 1) =~= b.take(k).drop_first());
        lemma_text_less(x, y, k - 1);
    }
}

proof fn lemma_filter_count(s: Seq<net::Room>, f: spec_fn(net::Room) -> bool, x: net::Room)
    requires
        f(x),
    ensures
        s.filter(f).to_multiset().count(x) == s.to_multiset().count(x),
    decreases s.len(),
{
    reveal(Seq::filter);
    s.filter(f).to_multiset_ensures();
    s.to_multiset_ensures();
    if s.len() > 0 {
        let t = s.drop_last();
        lemma_filter_count(t, f, x);
        t.to_multiset_ensures();
        t.filter(f).to_multiset_ensures();
        assert(s =~= t.push(s.last()));
        t.lemma_filter_push(s.last(), f);
    } else {
        assert(s.filter(f) =~= s);
    }
}

/// Sorting neither loses nor adds a room: the sorted list holds the same rooms as often.
/// Its names ascend, and rooms under one name stay in the order in which they were found.
pub proof fn lemma_sorted_holds_the_same(a: Seq<net::Room>, b: Seq<net::Room>, name: Seq<char>)
    requires
        stably_sorted(a, b),
    ensures
        a.to_multiset() == b.to_multiset(),
        a.len() == b.len(),
        forall|i: int, j: int|
            0 <= i < j < b.len() ==> (#[trigger] b[i]).leader_name == (#[trigger] b[j]).leader_name
                || text_less(b[i].leader_name, b[j].leader_name),
        b.filter(|r: net::Room| r.leader_name == name) == a.filter(
            |r: net::Room| r.leader_name == name,
        ),
{
    assert forall|x: net::Room| a.to_multiset().count(x) == b.to_multiset().count(x) by {
        let f = |r: net::Room| r.leader_name == x.leader_name;
        lemma_filter_count(a, f, x);
        lemma_filter_count(b, f, x);
        assert(led_by(b, x.leader_name) == led_by(a, x.leader_name));
    }
    assert(a.to_multiset() =~= b.to_multiset());
    a.to_multiset_ensures();
    b.to_multiset_ensures();
    assert forall|i: int, j: int| 0 <= i < j < b.len() implies (#[trigger] b[i]).leader_name == (
    #[trigger] b[j]).leader_name || text_less(b[i].leader_name, b[j].leader_name) by {
        lemma_text_less_total(b[i].leader_name, b[j].leader_name);
    }
    assert(led_by(b, name) == led_by(a, name));
}

proof fn lemma_text_less_total(a: Seq<char>, b: Seq<char>)
    ensures
        a == b || text_less(a, b) || text_less(b, a),
    decreases a.len(),
{
    if a.len() > 0 && b.len() > 0 && a[0] == b[0] {
        lemma_text_less_total(a.drop_first(), b.drop_first());
        assert(a =~= seq![a[0]] + a.drop_first());
        assert(b =~= seq![b[0]] + b.drop_first());
    } else if a.len() == 0 && b.len() == 0 {
        assert(a =~= b);
    }
}

/// How a scan goes: without a game it ends with an error, each block is scanned and the
/// next one wanted, and at the end of the heap the rooms are given, all that were listed
/// and no other; only where the first pass listed none is there a second one, and a
/// second pass that lists none ends with an empty list.
pub proof fn lemma_scan_goes_on(s: Listed, input: RoomInput, step: RoomStep)
    requires
        room_step(s, input, step),
    ensures
        input is NotRunning ==> step is Done && step->Done_0 is Err && step->Done_0->Err_0@
            == "游戏未运行"@,
        forall|why: String|
            input == RoomInput::OpenFailed(why) ==> step is Done && step->Done_0 is Err
                && step->Done_0->Err_0@ == #[trigger] why@,
        input is Block ==> step is More && step->More_0@.fallback == s.fallback,
        input is End && (s.rooms.len() > 0 || s.fallback) ==> step is Done && step->Done_0 is Ok
            && room_views(step->Done_0->Ok_0@).to_multiset() == s.rooms.to_multiset(),
        input is End && s.rooms.len() == 0 && !s.fallback ==> step is Again
            && step->Again_0@.fallback && step->Again_0@.rooms.len() == 0,
{
    if input is End && (s.rooms.len() > 0 || s.fallback) {
        lemma_sorted_holds_the_same(s.rooms, room_views(step->Done_0->Ok_0@), seq![]);
    }
}

/// In the second pass the rooms of every object that names a leader are listed.
pub proof fn lemma_leaders_are_listed(
    s: Listed,
    data: Seq<u8>,
    edges: Seq<Option<Seq<u8>>>,
    r: net::Room,
)
    requires
        s.fallback,
        led_rooms(data, edges, 0).contains(r),
    ensures
        exists|k: int|
            0 <= k < list_block(s, data, edges).rooms.len() && (#[trigger] list_block(
                s,
                data,
                edges,
            ).rooms[k]).platform == r.platform && list_block(s, data, edges).rooms[k].account_id
                == r.account_id,
{
    let more = led_rooms(data, edges, 0);
    let i = more.index_of(r);
    assert(more[i] == r);
    lemma_rooms_complete(s.rooms, more, i);
    let k = choose|k: int|
        0 <= k < add_rooms(s.rooms, more).len() && (#[trigger] add_rooms(s.rooms, more)[k]).platform
            == more[i].platform && add_rooms(s.rooms, more)[k].account_id == more[i].account_id;
    assert(list_block(s, data, edges).rooms[k].platform == r.platform);
}

/// A list of rooms is read one by one, in order.
pub proof fn lemma_rooms_in_list(v: Seq<RoomInfo>, i: int)
    requires
        0 <= i < v.len(),
    ensures
        room_views(v).len() == v.len(),
        room_views(v)[i] == v[i]@,
{
}

/// What was read for the edges is taken one by one, in order.
pub proof fn lemma_contents_in_list(v: Seq<Option<Vec<u8>>>, i: int)
    requires
        0 <= i < v.len(),
    ensures
        content_views(v).len() == v.len(),
        v[i] is None ==> content_views(v)[i] is None,
        v[i] is Some ==> content_views(v)[i] == Some(v[i]->0@),
{
}

} // verus!
