//! The members of the current room: the entries of its `Members` array, each
//! with the name that the game shows for it.
use vstd::prelude::*;

use crate::bytes;
use crate::json;
use crate::net;
use crate::text;

verus! {

/// A member of the room. `name` is the name on the platform, `game_name` the one
/// in the game.
#[derive(Clone, Debug)]
pub struct MemberInfo {
    pub name: String,
    pub game_name: String,
    pub platform: String,
    pub account_id: String,
    pub game_id: String,
}

/// The content of a [`MemberInfo`].
pub ghost struct Member {
    pub name: Seq<char>,
    pub game_name: Seq<char>,
    pub platform: Seq<char>,
    pub account_id: Seq<char>,
    pub game_id: Seq<char>,
}

impl View for MemberInfo {
    type V = Member;

    open spec fn view(&self) -> Member {
        Member {
            name: self.name@,
            game_name: self.game_name@,
            platform: self.platform@,
            account_id: self.account_id@,
            game_id: self.game_id@,
        }
    }
}

pub open spec fn member_views(v: Seq<MemberInfo>) -> Seq<Member> {
    v.map_values(|m: MemberInfo| m@)
}

/// Names by account, the first one found for each account.
pub struct NameMap {
    entries: Vec<(String, String)>,
}

pub open spec fn pair_views(v: Seq<(String, String)>) -> Seq<(Seq<char>, Seq<char>)> {
    v.map_values(|p: (String, String)| (p.0@, p.1@))
}

/// The map of some pairs.
pub open spec fn map_of(v: Seq<(Seq<char>, Seq<char>)>) -> Map<Seq<char>, Seq<char>>
    decreases v.len(),
{
    if v.len() == 0 {
        Map::empty()
    } else {
        map_of(v.drop_last()).insert(v.last().0, v.last().1)
    }
}

/// `m` with a value for `k`, where it had none.
pub open spec fn or_insert(m: Map<Seq<char>, Seq<char>>, k: Seq<char>, v: Seq<char>) -> Map<
    Seq<char>,
    Seq<char>,
> {
    if m.contains_key(k) {
        m
    } else {
        m.insert(k, v)
    }
}

/// `or_insert` for each pair in turn.
pub open spec fn or_insert_all(
    m: Map<Seq<char>, Seq<char>>,
    pairs: Seq<(Seq<char>, Seq<char>)>,
) -> Map<Seq<char>, Seq<char>>
    decreases pairs.len(),
{
    if pairs.len() == 0 {
        m
    } else {
        or_insert_all(or_insert(m, pairs[0].0, pairs[0].1), pairs.drop_first())
    }
}

impl View for NameMap {
    type V = Map<Seq<char>, Seq<char>>;

    closed spec fn view(&self) -> Map<Seq<char>, Seq<char>> {
        map_of(pair_views(self.entries@))
    }
}

impl NameMap {
    pub fn new() -> (r: NameMap)
        ensures
            r@ == Map::<Seq<char>, Seq<char>>::empty(),
    {
        NameMap { entries: Vec::new() }
    }

    /// The name recorded for an account.
    pub fn get(&self, key: &String) -> (r: Option<String>)
        ensures
            match r {
                Some(s) => self@.contains_key(key@) && s@ == self@[key@],
                None => !self@.contains_key(key@),
            },
    {
        let ghost v = pair_views(self.entries@);
        let mut i: usize = self.entries.len();
        assert(v.take(i as int) == v);
        while i > 0
            invariant
                i <= self.entries.len(),
                v == pair_views(self.entries@),
                self@.contains_key(key@) == map_of(v.take(i as int)).contains_key(key@),
                self@[key@] == map_of(v.take(i as int))[key@],
            decreases i,
        {
            proof {
                assert(v.take(i as int).drop_last() == v.take(i - 1));
                assert(v.take(i as int).last() == v[i - 1]);
            }
            i -= 1;
            let e = &self.entries[i];
            if e.0 == *key {
                return Some(e.1.clone());
            }
        }
        None
    }

    /// Records a name for an account that has none yet.
    pub fn record(&mut self, key: String, name: String)
        ensures
            final(self)@ == or_insert(old(self)@, key@, name@),
    {
        let ghost v = pair_views(self.entries@);
        let ghost k = key@;
        let ghost n = name@;
        if self.get(&key).is_some() {
            return;
        }
        self.entries.push((key, name));
        proof {
            let w = pair_views(self.entries@);
            assert(w == v.push((k, n)));
            assert(w.drop_last() == v);
        }
    }
}

/// What a `MemberData` object says of a member.
pub struct MemberEntry {
    pub name: String,
    pub platform: String,
    pub account_id: String,
    pub game_id: String,
}

/// The content of a [`MemberEntry`].
pub ghost struct Entry {
    pub name: Seq<char>,
    pub platform: Seq<char>,
    pub account_id: Seq<char>,
    pub game_id: Seq<char>,
}

impl View for MemberEntry {
    type V = Entry;

    open spec fn view(&self) -> Entry {
        Entry {
            name: self.name@,
            platform: self.platform@,
            account_id: self.account_id@,
            game_id: self.game_id@,
        }
    }
}

pub open spec fn entry_views(v: Seq<MemberEntry>) -> Seq<Entry> {
    v.map_values(|e: MemberEntry| e@)
}

/// What the scan has gathered from the blocks so far.
pub ghost struct Gathered {
    pub entries: Seq<Entry>,
    pub leaders: Map<Seq<char>, Seq<char>>,
    pub games: Map<Seq<char>, Seq<char>>,
}

/// The state of a scan for members.
pub struct MemberScan {
    entries: Vec<MemberEntry>,
    leaders: NameMap,
    games: NameMap,
}

impl View for MemberScan {
    type V = Gathered;

    closed spec fn view(&self) -> Gathered {
        Gathered {
            entries: entry_views(self.entries@),
            leaders: self.leaders@,
            games: self.games@,
        }
    }
}

/// The entry of the `MemberData` object at `rel`.
pub open spec fn entry_at(data: Seq<u8>, rel: int) -> Option<Entry> {
    match net::member_data_at(data, rel) {
        Some(p) => Some(
            Entry {
                name: net::or_empty(json::str_field(p.1, "member_platform_user_name"@)),
                platform: net::or_empty(json::str_field(p.1, "member_platform"@)),
                account_id: net::or_empty(json::str_field(p.1, "member_platform_account_id"@)),
                game_id: p.0,
            },
        ),
        None => None,
    }
}

/// The entries found in a block from `start` on.
pub open spec fn entries_in(data: Seq<u8>, start: int) -> Seq<Entry> {
    bytes::found(data, bytes::ascii("MemberData"@), |rel: int| entry_at(data, rel), start)
}

/// The leaders found in a block from `start` on: account and name.
pub open spec fn leaders_in(data: Seq<u8>, start: int) -> Seq<(Seq<char>, Seq<char>)> {
    bytes::found(data, bytes::ascii("leader_name"@), |rel: int| net::leader_at(data, rel), start)
}

/// The names of account objects found in a block from `start` on: id and name.
pub open spec fn games_in(data: Seq<u8>, start: int) -> Seq<(Seq<char>, Seq<char>)> {
    bytes::found(
        data,
        bytes::ascii("title_player_account"@),
        |rel: int| net::game_name_at(data, rel),
        start,
    )
}

/// What has been gathered once a block was scanned too.
pub open spec fn gather(g: Gathered, data: Seq<u8>) -> Gathered {
    Gathered {
        entries: g.entries + entries_in(data, 0),
        leaders: or_insert_all(g.leaders, leaders_in(data, 0)),
        games: or_insert_all(g.games, games_in(data, 0)),
    }
}

/// What the scan of some blocks, in order, gathers.
pub open spec fn gather_all(blocks: Seq<Seq<u8>>) -> Gathered
    decreases blocks.len(),
{
    if blocks.len() == 0 {
        Gathered { entries: seq![], leaders: Map::empty(), games: Map::empty() }
    } else {
        gather(gather_all(blocks.drop_last()), blocks.last())
    }
}

/// The key by which two entries are of one member.
pub open spec fn member_key(e: Entry) -> Seq<char> {
    e.platform + seq!['|'] + e.account_id
}

/// Whether entry `k` is the first of its member.
pub open spec fn first_of_member(v: Seq<Entry>, k: int) -> bool {
    forall|j: int| 0 <= j < k ==> member_key(#[trigger] v[j]) != member_key(v[k])
}

/// The name that the game shows: the one under the account, where the member
/// leads a room, else the one found near the id.
pub open spec fn shown_name(g: Gathered, e: Entry) -> Seq<char> {
    if g.leaders.contains_key(e.account_id) {
        g.leaders[e.account_id]
    } else if g.games.contains_key(e.game_id) {
        g.games[e.game_id]
    } else {
        seq![]
    }
}

pub open spec fn member_of(g: Gathered, e: Entry) -> Member {
    Member {
        name: e.name,
        game_name: shown_name(g, e),
        platform: e.platform,
        account_id: e.account_id,
        game_id: e.game_id,
    }
}

/// The members among the first `n` entries: the first entry of each, unless it
/// has neither an account nor an id.
pub open spec fn members_of(g: Gathered, n: int) -> Seq<Member>
    decreases n,
{
    if n <= 0 {
        seq![]
    } else {
        let e = g.entries[n - 1];
        let rest = members_of(g, n - 1);
        if first_of_member(g.entries, n - 1) && (e.account_id.len() != 0 || e.game_id.len() != 0) {
            rest.push(member_of(g, e))
        } else {
            rest
        }
    }
}

fn member_key_of(e: &MemberEntry) -> (r: String)
    ensures
        r@ == member_key(e@),
{
    let mut s = e.platform.clone();
    s.push('|');
    s.append(e.account_id.as_str());
    assert(s@ == member_key(e@));
    s
}

impl MemberScan {
    pub fn new() -> (r: MemberScan)
        ensures
            r@ == gather_all(seq![]),
    {
        let r = MemberScan { entries: Vec::new(), leaders: NameMap::new(), games: NameMap::new() };
        assert(r@.entries == Seq::<Entry>::empty());
        r
    }

    fn scan_entries(&mut self, data: &[u8])
        ensures
            final(self)@ == (Gathered { entries: old(self)@.entries + entries_in(data@, 0), ..old(
                self,
            )@ }),
    {
        let mark = bytes::ascii_of("MemberData");
        let ghost f = |rel: int| entry_at(data@, rel);
        let ghost before = self@;
        let mut idx: usize = 0;
        loop
            invariant
                mark@ == bytes::ascii("MemberData"@),
                f == (|rel: int| entry_at(data@, rel)),
                idx <= data@.len(),
                self@.leaders == before.leaders,
                self@.games == before.games,
                self@.entries + entries_in(data@, idx as int) == before.entries + entries_in(
                    data@,
                    0,
                ),
            ensures
                self@ == (Gathered { entries: before.entries + entries_in(data@, 0), ..before }),
            decreases data@.len() - idx,
        {
            proof {
                bytes::lemma_found_next(data@, mark@, f, idx as int);
            }
            match bytes::find_sub(data, mark.as_slice(), idx) {
                Some(rel) => {
                    let ghost sofar = self@.entries;
                    match net::parse_member_data_in_chunk(data, rel) {
                        Some(p) => {
                            let j = p.1.as_str();
                            let e = MemberEntry {
                                name: net::or_default(
                                    json::json_str_field(j, "member_platform_user_name"),
                                ),
                                platform: net::or_default(
                                    json::json_str_field(j, "member_platform"),
                                ),
                                account_id: net::or_default(
                                    json::json_str_field(j, "member_platform_account_id"),
                                ),
                                game_id: p.0,
                            };
                            let ghost ev = e@;
                            self.entries.push(e);
                            assert(self@.entries == sofar.push(ev));
                            assert(f(rel as int) == Some(ev));
                        },
                        None => {},
                    }
                    assert(self@.entries == sofar + bytes::opt_seq(f(rel as int)));
                    assert(rel < data.len());
                    idx = rel + 1;
                },
                None => {
                    assert(self@.entries + Seq::<Entry>::empty() == self@.entries);
                    break;
                },
            }
        }
    }

    fn scan_leaders(&mut self, data: &[u8])
        ensures
            final(self)@ == (Gathered {
                leaders: or_insert_all(old(self)@.leaders, leaders_in(data@, 0)),
                ..old(self)@
            }),
    {
        let mark = bytes::ascii_of("leader_name");
        let ghost f = |rel: int| net::leader_at(data@, rel);
        let ghost before = self@;
        let mut idx: usize = 0;
        loop
            invariant
                mark@ == bytes::ascii("leader_name"@),
                f == (|rel: int| net::leader_at(data@, rel)),
                idx <= data@.len(),
                self@.entries == before.entries,
                self@.games == before.games,
                or_insert_all(self@.leaders, leaders_in(data@, idx as int)) == or_insert_all(
                    before.leaders,
                    leaders_in(data@, 0),
                ),
            ensures
                self@ == (Gathered {
                    leaders: or_insert_all(before.leaders, leaders_in(data@, 0)),
                    ..before
                }),
            decreases data@.len() - idx,
        {
            proof {
                bytes::lemma_found_next(data@, mark@, f, idx as int);
            }
            match bytes::find_sub(data, mark.as_slice(), idx) {
                Some(rel) => {
                    let ghost now = leaders_in(data@, idx as int);
                    let ghost rest = leaders_in(data@, rel + 1);
                    match net::parse_leader_in_chunk(data, rel) {
                        Some(p) => {
                            assert(now[0] == (p.0@, p.1@));
                            assert(now.drop_first() == rest);
                            self.leaders.record(p.0, p.1);
                        },
                        None => {
                            assert(now == rest);
                        },
                    }
                    assert(rel < data.len());
                    idx = rel + 1;
                },
                None => {
                    break;
                },
            }
        }
    }

    fn scan_games(&mut self, data: &[u8])
        ensures
            final(self)@ == (Gathered {
                games: or_insert_all(old(self)@.games, games_in(data@, 0)),
                ..old(self)@
            }),
    {
        let mark = bytes::ascii_of("title_player_account");
        let ghost f = |rel: int| net::game_name_at(data@, rel);
        let ghost before = self@;
        let mut idx: usize = 0;
        loop
            invariant
                mark@ == bytes::ascii("title_player_account"@),
                f == (|rel: int| net::game_name_at(data@, rel)),
                idx <= data@.len(),
                self@.entries == before.entries,
                self@.leaders == before.leaders,
                or_insert_all(self@.games, games_in(data@, idx as int)) == or_insert_all(
                    before.games,
                    games_in(data@, 0),
                ),
            ensures
                self@ == (Gathered {
                    games: or_insert_all(before.games, games_in(data@, 0)),
                    ..before
                }),
            decreases data@.len() - idx,
        {
            proof {
                bytes::lemma_found_next(data@, mark@, f, idx as int);
            }
            match bytes::find_sub(data, mark.as_slice(), idx) {
                Some(rel) => {
                    let ghost now = games_in(data@, idx as int);
                    let ghost rest = games_in(data@, rel + 1);
                    match net::parse_game_name_near(data, rel) {
                        Some(p) => {
                            assert(now[0] == (p.0@, p.1@));
                            assert(now.drop_first() == rest);
                            self.games.record(p.0, p.1);
                        },
                        None => {
                            assert(now == rest);
                        },
                    }
                    assert(rel < data.len());
                    idx = rel + 1;
                },
                None => {
                    break;
                },
            }
        }
    }

    /// Gathers what one block of the heap holds.
    pub fn scan_block(&mut self, data: &[u8])
        ensures
            final(self)@ == gather(old(self)@, data@),
    {
        self.scan_entries(data);
        self.scan_leaders(data);
        self.scan_games(data);
    }

    fn shown_name_of(&self, e: &MemberEntry) -> (r: String)
        ensures
            r@ == shown_name(self@, e@),
    {
        match self.leaders.get(&e.account_id) {
            Some(n) => n,
            None => match self.games.get(&e.game_id) {
                Some(n) => n,
                None => String::new(),
            },
        }
    }

    /// The members, from what was gathered.
    pub fn members(&self) -> (r: Vec<MemberInfo>)
        ensures
            member_views(r@) == members_of(self@, self@.entries.len() as int),
    {
        let ghost g = self@;
        let mut out: Vec<MemberInfo> = Vec::new();
        let mut seen: Vec<String> = Vec::new();
        let mut k: usize = 0;
        while k < self.entries.len()
            invariant
                k <= self.entries.len(),
                g == self@,
                g.entries == entry_views(self.entries@),
                seen.len() == k,
                forall|j: int| 0 <= j < k ==> (#[trigger] seen@[j])@ == member_key(g.entries[j]),
                member_views(out@) == members_of(g, k as int),
            decreases self.entries.len() - k,
        {
            let e = &self.entries[k];
            assert(g.entries[k as int] == e@);
            let key = member_key_of(e);
            let old_member = text::has_string(&seen, &key);
            proof {
                let vs = text::views(seen@);
                if old_member {
                    let j = vs.index_of(key@);
                    assert(seen@[j]@ == member_key(g.entries[j]));
                    assert(!first_of_member(g.entries, k as int));
                } else {
                    assert forall|j: int| 0 <= j < k implies member_key(#[trigger] g.entries[j])
                        != member_key(g.entries[k as int]) by {
                        assert(vs[j] == seen@[j]@);
                    }
                }
            }
            if !old_member && !(e.account_id.as_str().is_empty() && e.game_id.as_str().is_empty()) {
                let ghost sofar = member_views(out@);
                let m = MemberInfo {
                    name: e.name.clone(),
                    game_name: self.shown_name_of(e),
                    platform: e.platform.clone(),
                    account_id: e.account_id.clone(),
                    game_id: e.game_id.clone(),
                };
                let ghost mv = m@;
                out.push(m);
                assert(member_views(out@) == sofar.push(mv));
            }
            seen.push(key);
            k += 1;
        }
        out
    }
}

/// What a scan for members learns of the game.
pub enum MemberInput {
    /// The game is not running.
    NotRunning,
    /// The process could not be opened, and why.
    OpenFailed(String),
    /// One block of the heap.
    Block(Vec<u8>),
    /// The heap holds no further block.
    End,
}

/// Where a scan for members stands.
pub enum MemberStep {
    /// It wants the next block.
    More(MemberScan),
    Done(Result<Vec<MemberInfo>, String>),
}

/// Whether `step` is what the scan in state `g` makes of an input.
pub open spec fn member_step(g: Gathered, input: MemberInput, step: MemberStep) -> bool {
    match input {
        MemberInput::NotRunning => step matches MemberStep::Done(r) && r matches Err(e) && e@
            == "游戏未运行"@,
        MemberInput::OpenFailed(why) => step matches MemberStep::Done(r) && r matches Err(e) && e@
            == why@,
        MemberInput::Block(data) => step matches MemberStep::More(s) && s@ == gather(g, data@),
        MemberInput::End => step matches MemberStep::Done(r) && r matches Ok(v) && member_views(v@)
            == members_of(g, g.entries.len() as int),
    }
}

/// Scans for the members of the current room, one input at a time.
pub fn scan_members(scan: MemberScan, input: MemberInput) -> (step: MemberStep)
    ensures
        member_step(scan@, input, step),
{
    match input {
        MemberInput::NotRunning => MemberStep::Done(Err(text::text_of("游戏未运行"))),
        MemberInput::OpenFailed(why) => MemberStep::Done(Err(why)),
        MemberInput::Block(data) => {
            let mut s = scan;
            s.scan_block(data.as_slice());
            MemberStep::More(s)
        },
        MemberInput::End => MemberStep::Done(Ok(scan.members())),
    }
}

/// The key of a listed member.
pub open spec fn listed_key(m: Member) -> Seq<char> {
    m.platform + seq!['|'] + m.account_id
}

/// No member is listed twice, and none that has neither an account nor an id.
pub proof fn lemma_members_distinct(g: Gathered, n: int)
    requires
        0 <= n <= g.entries.len(),
    ensures
        ({
            let v = members_of(g, n);
            &&& forall|i: int, j: int|
                0 <= i < j < v.len() ==> listed_key(#[trigger] v[i]) != listed_key(#[trigger] v[j])
            &&& forall|i: int|
                0 <= i < v.len() ==> (#[trigger] v[i]).account_id.len() != 0 || v[i].game_id.len()
                    != 0
        }),
    decreases n,
{
    lemma_members_known(g, n);
    if n > 0 {
        lemma_members_distinct(g, n - 1);
        lemma_members_known(g, n - 1);
        let e = g.entries[n - 1];
        let rest = members_of(g, n - 1);
        let v = members_of(g, n);
        if v.len() > rest.len() {
            assert forall|i: int| 0 <= i < rest.len() implies listed_key(#[trigger] rest[i])
                != listed_key(v.last()) by {
                let k = choose|k: int|
                    0 <= k < n - 1 && member_key(#[trigger] g.entries[k]) == listed_key(rest[i]);
                assert(member_key(g.entries[k]) != member_key(e));
            }
            assert forall|i: int, j: int| 0 <= i < j < v.len() implies listed_key(#[trigger] v[i])
                != listed_key(#[trigger] v[j]) by {
                assert(v[i] == rest[i]);
                if j < rest.len() {
                    assert(v[j] == rest[j]);
                }
            }
            assert forall|i: int| 0 <= i < v.len() implies (#[trigger] v[i]).account_id.len() != 0
                || v[i].game_id.len() != 0 by {
                if i < rest.len() {
                    assert(v[i] == rest[i]);
                }
            }
        }
    }
}

proof fn lemma_members_known(g: Gathered, n: int)
    requires
        0 <= n <= g.entries.len(),
    ensures
        forall|i: int|
            0 <= i < members_of(g, n).len() ==> exists|k: int|
                0 <= k < n && member_key(#[trigger] g.entries[k]) == listed_key(
                    #[trigger] members_of(g, n)[i],
                ),
    decreases n,
{
    if n > 0 {
        lemma_members_known(g, n - 1);
        let rest = members_of(g, n - 1);
        let v = members_of(g, n);
        assert forall|i: int| 0 <= i < v.len() implies exists|k: int|
            0 <= k < n && member_key(#[trigger] g.entries[k]) == listed_key(#[trigger] v[i]) by {
            if i < rest.len() {
                assert(v[i] == rest[i]);
                let k = choose|k: int|
                    0 <= k < n - 1 && member_key(#[trigger] g.entries[k]) == listed_key(rest[i]);
                assert(member_key(g.entries[k]) == listed_key(v[i]));
            } else {
                assert(member_key(g.entries[n - 1]) == listed_key(v[i]));
            }
        }
    }
}

/// Nobody is left out: an entry with an account or an id, before which no entry has
/// the same platform and account with a bar between them, is listed with its own name,
/// platform, account and id.
pub proof fn lemma_members_complete(g: Gathered, n: int, k: int)
    requires
        0 <= k < n <= g.entries.len(),
        g.entries[k].account_id.len() != 0 || g.entries[k].game_id.len() != 0,
        forall|j: int|
            0 <= j < k ==> (#[trigger] g.entries[j]).platform + seq!['|'] + g.entries[j].account_id
                != g.entries[k].platform + seq!['|'] + g.entries[k].account_id,
    ensures
        exists|i: int|
            0 <= i < members_of(g, n).len() && {
                let m = #[trigger] members_of(g, n)[i];
                &&& m.name == g.entries[k].name
                &&& m.platform == g.entries[k].platform
                &&& m.account_id == g.entries[k].account_id
                &&& m.game_id == g.entries[k].game_id
                &&& m.game_name == shown_name(g, g.entries[k])
            },
    decreases n,
{
    let e = g.entries[k];
    let v = members_of(g, n);
    let rest = members_of(g, n - 1);
    if k == n - 1 {
        assert(first_of_member(g.entries, k));
        assert(v[rest.len() as int] == member_of(g, e));
    } else {
        lemma_members_complete(g, n - 1, k);
        let i = choose|i: int|
            0 <= i < rest.len() && {
                let m = #[trigger] rest[i];
                &&& m.name == e.name
                &&& m.platform == e.platform
                &&& m.account_id == e.account_id
                &&& m.game_id == e.game_id
                &&& m.game_name == shown_name(g, e)
            };
        assert(v[i] == rest[i]);
    }
}

/// Where no platform has a bar in its name, an entry with an account or an id is
/// listed unless an earlier one has the same platform and the same account.
pub proof fn lemma_member_on_each_platform(g: Gathered, n: int, k: int)
    requires
        0 <= k < n <= g.entries.len(),
        g.entries[k].account_id.len() != 0 || g.entries[k].game_id.len() != 0,
        forall|j: int| 0 <= j <= k ==> !(#[trigger] g.entries[j]).platform.contains('|'),
        forall|j: int|
            0 <= j < k ==> (#[trigger] g.entries[j]).platform != g.entries[k].platform
                || g.entries[j].account_id != g.entries[k].account_id,
    ensures
        exists|i: int|
            0 <= i < members_of(g, n).len() && {
                let m = #[trigger] members_of(g, n)[i];
                &&& m.name == g.entries[k].name
                &&& m.platform == g.entries[k].platform
                &&& m.account_id == g.entries[k].account_id
                &&& m.game_id == g.entries[k].game_id
                &&& m.game_name == shown_name(g, g.entries[k])
            },
{
    assert forall|j: int| 0 <= j < k implies (#[trigger] g.entries[j]).platform + seq!['|']
        + g.entries[j].account_id != g.entries[k].platform + seq!['|'] + g.entries[k].account_id by {
        let a = g.entries[j];
        let b = g.entries[k];
        let x = a.platform + seq!['|'] + a.account_id;
        let y = b.platform + seq!['|'] + b.account_id;
        if x == y {
            let p = a.platform.len() as int;
            let q = b.platform.len() as int;
            assert(x[p] == '|' && y[q] == '|');
            if p < q {
                assert(b.platform[p] == y[p]);
                assert(b.platform.contains('|'));
            }
            if q < p {
                assert(a.platform[q] == x[q]);
                assert(a.platform.contains('|'));
            }
            assert(a.platform =~= x.take(p));
            assert(b.platform =~= y.take(q));
            assert(a.account_id =~= x.skip(p + 1));
            assert(b.account_id =~= y.skip(q + 1));
        }
    }
    lemma_members_complete(g, n, k);
}

/// Nobody is made up: who is listed stands in some entry with that name, platform,
/// account and id.
pub proof fn lemma_members_were_found(g: Gathered, n: int, i: int)
    requires
        0 <= n <= g.entries.len(),
        0 <= i < members_of(g, n).len(),
    ensures
        ({
            let m = members_of(g, n)[i];
            exists|k: int|
                0 <= k < n && (#[trigger] g.entries[k]).name == m.name && g.entries[k].platform
                    == m.platform && g.entries[k].account_id == m.account_id && g.entries[k].game_id
                    == m.game_id
        }),
    decreases n,
{
    let rest = members_of(g, n - 1);
    if i < rest.len() {
        lemma_members_were_found(g, n - 1, i);
        assert(members_of(g, n)[i] == rest[i]);
    } else {
        assert(g.entries[n - 1].name == members_of(g, n)[i].name);
    }
}

/// Members are listed in the order in which they were found: one more entry leaves
/// those listed before it where they are.
pub proof fn lemma_members_in_order(g: Gathered, a: int, b: int)
    requires
        0 <= a <= b <= g.entries.len(),
    ensures
        members_of(g, a).len() <= members_of(g, b).len(),
        members_of(g, b).take(members_of(g, a).len() as int) == members_of(g, a),
    decreases b - a,
{
    if a < b {
        lemma_members_in_order(g, a, b - 1);
        assert(members_of(g, b).take(members_of(g, a).len() as int) =~= members_of(g, b - 1).take(
            members_of(g, a).len() as int,
        ));
    } else {
        assert(members_of(g, b).take(members_of(g, a).len() as int) =~= members_of(g, a));
    }
}

/// A member is shown under the name of the room that its account leads; or else under
/// the name found with its id; or under none.
pub proof fn lemma_shown_name(g: Gathered, e: Entry, leader: Seq<char>, game: Seq<char>)
    ensures
        g.leaders.dom().contains(e.account_id) && g.leaders[e.account_id] == leader ==> shown_name(
            g,
            e,
        ) == leader,
        !g.leaders.dom().contains(e.account_id) && g.games.dom().contains(e.game_id)
            && g.games[e.game_id] == game ==> shown_name(g, e) == game,
        !g.leaders.dom().contains(e.account_id) && !g.games.dom().contains(e.game_id) ==> shown_name(
            g,
            e,
        ).len() == 0,
{
}

/// The first name found for a key stays: a key is known where it was known before or
/// was found, and its name is the one from before, or else the first that was found.
pub proof fn lemma_first_name_stays(
    m: Map<Seq<char>, Seq<char>>,
    pairs: Seq<(Seq<char>, Seq<char>)>,
    i: int,
)
    requires
        0 <= i < pairs.len(),
        forall|j: int| 0 <= j < i ==> (#[trigger] pairs[j]).0 != pairs[i].0,
    ensures
        or_insert_all(m, pairs).dom().contains(pairs[i].0),
        !m.dom().contains(pairs[i].0) ==> or_insert_all(m, pairs)[pairs[i].0] == pairs[i].1,
    decreases pairs.len(),
{
    let m1 = or_insert(m, pairs[0].0, pairs[0].1);
    let rest = pairs.drop_first();
    if i == 0 {
        lemma_known_names_stay(m1, rest, pairs[0].0);
    } else {
        assert forall|j: int| 0 <= j < i - 1 implies (#[trigger] rest[j]).0 != rest[i - 1].0 by {
            assert(rest[j] == pairs[j + 1]);
        }
        assert(pairs[0].0 != pairs[i].0);
        lemma_first_name_stays(m1, rest, i - 1);
    }
}

/// A name that is known stays as it is, and a key that is neither known nor found is
/// not known afterwards.
pub proof fn lemma_known_names_stay(
    m: Map<Seq<char>, Seq<char>>,
    pairs: Seq<(Seq<char>, Seq<char>)>,
    key: Seq<char>,
)
    ensures
        m.dom().contains(key) ==> or_insert_all(m, pairs).dom().contains(key) && or_insert_all(
            m,
            pairs,
        )[key] == m[key],
        !m.dom().contains(key) && (forall|j: int|
            0 <= j < pairs.len() ==> (#[trigger] pairs[j]).0 != key) ==> !or_insert_all(
            m,
            pairs,
        ).dom().contains(key),
    decreases pairs.len(),
{
    if pairs.len() > 0 {
        let rest = pairs.drop_first();
        assert forall|j: int| 0 <= j < rest.len() implies #[trigger] rest[j] == pairs[j + 1] by {}
        assert(pairs[0].0 == pairs[0].0);
        lemma_known_names_stay(or_insert(m, pairs[0].0, pairs[0].1), rest, key);
    }
}

/// Blocks are gathered in turn: what one block holds comes behind what was gathered
/// before, and a name that was found under `key` stays.
pub proof fn lemma_gathered_in_turn(blocks: Seq<Seq<u8>>, data: Seq<u8>, key: Seq<char>)
    ensures
        gather_all(blocks.push(data)).entries == gather_all(blocks).entries + entries_in(data, 0),
        gather_all(blocks).leaders.dom().contains(key) ==> gather_all(
            blocks.push(data),
        ).leaders.dom().contains(key) && gather_all(blocks.push(data)).leaders[key] == gather_all(
            blocks,
        ).leaders[key],
        gather_all(blocks).games.dom().contains(key) ==> gather_all(
            blocks.push(data),
        ).games.dom().contains(key) && gather_all(blocks.push(data)).games[key] == gather_all(
            blocks,
        ).games[key],
{
    assert(blocks.push(data).drop_last() =~= blocks);
    let g = gather_all(blocks);
    lemma_known_names_stay(g.leaders, leaders_in(data, 0), key);
    lemma_known_names_stay(g.games, games_in(data, 0), key);
}

/// Every `MemberData` of a block is looked at, and so is every leader's name and every
/// account object: what can be read there is gathered, unless a name was known before.
pub proof fn lemma_block_is_gathered(data: Seq<u8>, rel: int)
    requires
        0 <= rel,
    ensures
        rel + 10 <= data.len() && data.subrange(rel, rel + 10) == bytes::ascii("MemberData"@)
            && net::member_data_at(data, rel) is Some ==> ({
            let found = net::member_data_at(data, rel)->0;
            exists|k: int|
                0 <= k < entries_in(data, 0).len() && (#[trigger] entries_in(data, 0)[k]).game_id
                    == found.0 && field_or_empty(
                    entries_in(data, 0)[k].name,
                    found.1,
                    "member_platform_user_name"@,
                ) && field_or_empty(entries_in(data, 0)[k].platform, found.1, "member_platform"@)
                    && field_or_empty(
                    entries_in(data, 0)[k].account_id,
                    found.1,
                    "member_platform_account_id"@,
                )
        }),
        rel + 11 <= data.len() && data.subrange(rel, rel + 11) == bytes::ascii("leader_name"@)
            && net::leader_at(data, rel) is Some ==> leaders_in(data, 0).contains(
            net::leader_at(data, rel)->0,
        ),
        rel + 20 <= data.len() && data.subrange(rel, rel + 20) == bytes::ascii(
            "title_player_account"@,
        ) && net::game_name_at(data, rel) is Some ==> games_in(data, 0).contains(
            net::game_name_at(data, rel)->0,
        ),
{
    reveal_strlit("MemberData");
    reveal_strlit("leader_name");
    reveal_strlit("title_player_account");
    if rel + 10 <= data.len() && data.subrange(rel, rel + 10) == bytes::ascii("MemberData"@)
        && net::member_data_at(data, rel) is Some {
        let e = entry_at(data, rel)->0;
        let f = |rel: int| entry_at(data, rel);
        bytes::lemma_found_complete(data, bytes::ascii("MemberData"@), f, 0, rel, e);
        let k = entries_in(data, 0).index_of(e);
        assert(entries_in(data, 0)[k] == e);
    }
    if rel + 11 <= data.len() && data.subrange(rel, rel + 11) == bytes::ascii("leader_name"@)
        && net::leader_at(data, rel) is Some {
        let f = |rel: int| net::leader_at(data, rel);
        bytes::lemma_found_complete(
            data,
            bytes::ascii("leader_name"@),
            f,
            0,
            rel,
            net::leader_at(data, rel)->0,
        );
    }
    if rel + 20 <= data.len() && data.subrange(rel, rel + 20) == bytes::ascii(
        "title_player_account"@,
    ) && net::game_name_at(data, rel) is Some {
        let f = |rel: int| net::game_name_at(data, rel);
        bytes::lemma_found_complete(
            data,
            bytes::ascii("title_player_account"@),
            f,
            0,
            rel,
            net::game_name_at(data, rel)->0,
        );
    }
}

/// Whether `v` is the value of a field of a text, or empty where the text has none.
pub open spec fn field_or_empty(v: Seq<char>, t: Seq<char>, key: Seq<char>) -> bool {
    (json::str_field(t, key) is Some ==> v == json::str_field(t, key)->0) && (json::str_field(
        t,
        key,
    ) is None ==> v.len() == 0)
}

/// How a scan goes: without a game it ends with an error, each block is gathered and the
/// next one wanted, and at the end of the heap the members are given.
pub proof fn lemma_scan_goes_on(g: Gathered, input: MemberInput, step: MemberStep)
    requires
        member_step(g, input, step),
    ensures
        input is NotRunning ==> step is Done && step->Done_0 is Err && step->Done_0->Err_0@
            == "游戏未运行"@,
        forall|why: String|
            input == MemberInput::OpenFailed(why) ==> step is Done && step->Done_0 is Err
                && step->Done_0->Err_0@ == #[trigger] why@,
        forall|data: Vec<u8>|
            input == MemberInput::Block(data) ==> step is More && step->More_0@.entries == g.entries
                + entries_in(#[trigger] data@, 0),
        input is End ==> step is Done && step->Done_0 is Ok && member_views(step->Done_0->Ok_0@)
            == members_of(g, g.entries.len() as int),
{
}

/// A member is what its fields say, and a list of members is read one by one, in order.
pub proof fn lemma_member_fields(v: Seq<MemberInfo>, e: MemberEntry, i: int)
    requires
        0 <= i < v.len(),
    ensures
        member_views(v).len() == v.len(),
        member_views(v)[i].name == v[i].name@,
        member_views(v)[i].game_name == v[i].game_name@,
        member_views(v)[i].platform == v[i].platform@,
        member_views(v)[i].account_id == v[i].account_id@,
        member_views(v)[i].game_id == v[i].game_id@,
        e@.name == e.name@,
        e@.platform == e.platform@,
        e@.account_id == e.account_id@,
        e@.game_id == e.game_id@,
{
}

} // verus!
