//! The party in the memory of the game.
//!
//! Each operation is a function of what was asked of the game so far, and what it
//! answered: it says what to ask next, or that it is done.
use vstd::prelude::*;

use crate::chars;
use crate::text;

verus! {

/// Where the pointer to the party stands in the module of the game.
pub const PARTY_PTR_RVA: u64 = 0x701C420;

/// The size of a slot of the party.
pub const PARTY_SLOT_SIZE: u64 = 0x10;

pub const PARTY_MAX_SLOTS: u64 = 5;

/// The id of Lyria.
pub const LYRIA: u32 = 0x3529CC90;

/// The id of Katalina, who takes the place of Lyria where nobody else is on record.
pub const KATALINA: u32 = 0x18E2F9F9;

/// A slot of the party.
#[derive(Clone, Debug)]
pub struct SlotInfo {
    pub index: u32,
    pub id: u32,
    pub name: String,
}

/// The state of the game: whether it runs, its module, and its party.
#[derive(Clone, Debug)]
pub struct GameStatus {
    pub running: bool,
    pub base: Option<u64>,
    pub party_ptr: Option<u64>,
    pub slots: Vec<SlotInfo>,
}

/// What a slot was set to.
#[derive(Clone, Debug)]
pub struct SlotUpdate {
    pub slot: u32,
    pub id: u32,
    pub name: String,
}

/// Something to ask of the game.
#[derive(Clone, Copy, PartialEq, Eq, Debug, Structural)]
pub enum Ask {
    /// Find its process.
    Find,
    /// Open the process with this number.
    Open(u64),
    /// Where its module is loaded.
    Base,
    /// Read eight bytes.
    ReadU64(u64),
    /// Read four bytes.
    ReadU32(u64),
    /// Write four bytes.
    WriteU32(u64, u32),
}

/// What the game answered.
#[derive(Clone, Debug)]
pub enum Answer {
    /// The value; for an open or a write, that it succeeded.
    Got(u64),
    /// There is none; it failed, and no reason is given.
    Missing,
    /// It failed, and why.
    Failed(String),
}

/// Whether an operation is done.
#[derive(Clone, Debug)]
pub enum Outcome<T> {
    Ask(Ask),
    Done(T),
}

/// Whether the addresses in the game stay within 64 bits: that of the pointer to the
/// party, and that of the given slot.
pub open spec fn small(answers: Seq<Answer>, slot: int) -> bool {
    &&& answers.len() > 2 ==> (answers[2] matches Answer::Got(base) ==> base + PARTY_PTR_RVA
        <= u64::MAX)
    &&& answers.len() > 3 ==> (answers[3] matches Answer::Got(party) ==> slot_addr(
        party as int,
        slot,
    ) <= u64::MAX)
}

/// The value of an answer, or zero.
pub open spec fn value_of(a: Answer) -> u64 {
    match a {
        Answer::Got(v) => v,
        _ => 0,
    }
}

fn answer_value(a: &Answer) -> (r: u64)
    ensures
        r == value_of(*a),
{
    match a {
        Answer::Got(v) => *v,
        _ => 0,
    }
}

fn is_got(a: &Answer) -> (r: bool)
    ensures
        r == (a is Got),
{
    match a {
        Answer::Got(_) => true,
        _ => false,
    }
}

/// Why something failed; empty where no reason was given.
pub open spec fn reason_of(a: Answer) -> Seq<char> {
    match a {
        Answer::Failed(why) => why@,
        _ => seq![],
    }
}

fn answer_reason(a: &Answer) -> (r: String)
    ensures
        r@ == reason_of(*a),
{
    match a {
        Answer::Failed(why) => why.clone(),
        _ => String::new(),
    }
}

/// How far contact with the game has come.
pub ghost enum Contact {
    Ask(Ask),
    Refused(Seq<char>),
    /// The pointer to the party.
    Party(u64),
}

/// What comes of the first four answers: process, access, module and party.
pub open spec fn contact(answers: Seq<Answer>) -> Contact {
    if answers.len() == 0 {
        Contact::Ask(Ask::Find)
    } else if !(answers[0] is Got) {
        Contact::Refused("游戏未运行"@)
    } else if answers.len() == 1 {
        Contact::Ask(Ask::Open(answers[0]->Got_0))
    } else if !(answers[1] is Got) {
        Contact::Refused(reason_of(answers[1]))
    } else if answers.len() == 2 {
        Contact::Ask(Ask::Base)
    } else if !(answers[2] is Got) {
        Contact::Refused("找不到模块"@)
    } else if answers.len() == 3 {
        Contact::Ask(Ask::ReadU64((answers[2]->Got_0 + PARTY_PTR_RVA) as u64))
    } else if !(answers[3] is Got) {
        Contact::Refused("队伍指针无效"@)
    } else {
        Contact::Party(answers[3]->Got_0)
    }
}

enum Touch {
    Ask(Ask),
    Refused(String),
    Party(u64),
}

impl View for Touch {
    type V = Contact;

    closed spec fn view(&self) -> Contact {
        match self {
            Touch::Ask(a) => Contact::Ask(*a),
            Touch::Refused(s) => Contact::Refused(s@),
            Touch::Party(p) => Contact::Party(*p),
        }
    }
}

fn touch(answers: &Vec<Answer>) -> (r: Touch)
    requires
        small(answers@, 0),
    ensures
        r@ == contact(answers@),
{
    if answers.len() == 0 {
        return Touch::Ask(Ask::Find);
    }
    if !is_got(&answers[0]) {
        return Touch::Refused(text::text_of("游戏未运行"));
    }
    if answers.len() == 1 {
        return Touch::Ask(Ask::Open(answer_value(&answers[0])));
    }
    if !is_got(&answers[1]) {
        return Touch::Refused(answer_reason(&answers[1]));
    }
    if answers.len() == 2 {
        return Touch::Ask(Ask::Base);
    }
    if !is_got(&answers[2]) {
        return Touch::Refused(text::text_of("找不到模块"));
    }
    if answers.len() == 3 {
        return Touch::Ask(Ask::ReadU64(answer_value(&answers[2]) + PARTY_PTR_RVA));
    }
    if !is_got(&answers[3]) {
        return Touch::Refused(text::text_of("队伍指针无效"));
    }
    Touch::Party(answer_value(&answers[3]))
}

/// Where a slot of the party stands.
pub open spec fn slot_addr(party: int, slot: int) -> int {
    party + slot * PARTY_SLOT_SIZE
}

pub open spec fn slot_view(s: SlotInfo, index: int, id: u32) -> bool {
    s.index == index && s.id == id && s.name@ == chars::name_of(id)
}

/// Whether a status is that of a game that is not there.
pub open spec fn is_absent(s: GameStatus) -> bool {
    !s.running && s.base is None && s.party_ptr is None && s.slots@.len() == 0
}

/// What `game_status` makes of the answers: process and access must be had; a
/// module or pointer that is missing leaves the rest empty or zero.
pub open spec fn status_outcome(answers: Seq<Answer>, o: Outcome<GameStatus>) -> bool {
    if answers.len() == 0 {
        o == Outcome::<GameStatus>::Ask(Ask::Find)
    } else if !(answers[0] is Got) {
        o matches Outcome::Done(s) && is_absent(s)
    } else if answers.len() == 1 {
        o == Outcome::<GameStatus>::Ask(Ask::Open(answers[0]->Got_0))
    } else if !(answers[1] is Got) {
        o matches Outcome::Done(s) && is_absent(s)
    } else if answers.len() == 2 {
        o == Outcome::<GameStatus>::Ask(Ask::Base)
    } else if !(answers[2] is Got) {
        o matches Outcome::Done(s) && s.running && s.base is None && s.party_ptr is None
            && s.slots@.len() == 0
    } else if answers.len() == 3 {
        o == Outcome::<GameStatus>::Ask(
            Ask::ReadU64((answers[2]->Got_0 + PARTY_PTR_RVA) as u64),
        )
    } else if answers.len() < 9 {
        o == Outcome::<GameStatus>::Ask(
            Ask::ReadU32(slot_addr(value_of(answers[3]) as int, answers.len() - 4) as u64),
        )
    } else {
        o matches Outcome::Done(s) && s.running && s.base == Some(answers[2]->Got_0) && s.party_ptr
            == Some(value_of(answers[3])) && s.slots@.len() == PARTY_MAX_SLOTS && forall|i: int|
            0 <= i < PARTY_MAX_SLOTS ==> slot_view(
                #[trigger] s.slots@[i],
                i,
                value_of(answers[4 + i]) as u32,
            )
    }
}

fn absent() -> (s: GameStatus)
    ensures
        is_absent(s),
{
    GameStatus { running: false, base: None, party_ptr: None, slots: Vec::new() }
}

/// The state of the game.
pub fn game_status(answers: &Vec<Answer>) -> (o: Outcome<GameStatus>)
    requires
        small(answers@, 4),
    ensures
        status_outcome(answers@, o),
{
    if answers.len() == 0 {
        return Outcome::Ask(Ask::Find);
    }
    if !is_got(&answers[0]) {
        return Outcome::Done(absent());
    }
    if answers.len() == 1 {
        return Outcome::Ask(Ask::Open(answer_value(&answers[0])));
    }
    if !is_got(&answers[1]) {
        return Outcome::Done(absent());
    }
    if answers.len() == 2 {
        return Outcome::Ask(Ask::Base);
    }
    if !is_got(&answers[2]) {
        return Outcome::Done(
            GameStatus { running: true, base: None, party_ptr: None, slots: Vec::new() },
        );
    }
    let base: u64 = answer_value(&answers[2]);
    if answers.len() == 3 {
        return Outcome::Ask(Ask::ReadU64(base + PARTY_PTR_RVA));
    }
    let party: u64 = answer_value(&answers[3]);
    if answers.len() < 9 {
        let i: u64 = (answers.len() - 4) as u64;
        return Outcome::Ask(Ask::ReadU32(party + i * PARTY_SLOT_SIZE));
    }
    let mut slots: Vec<SlotInfo> = Vec::new();
    let mut i: usize = 0;
    while i < 5
        invariant
            i <= 5,
            answers.len() >= 9,
            slots.len() == i,
            forall|k: int|
                0 <= k < i ==> slot_view(#[trigger] slots@[k], k, value_of(answers@[4 + k]) as u32),
        decreases 5 - i,
    {
        let id: u32 = answer_value(&answers[4 + i]) as u32;
        slots.push(SlotInfo { index: i as u32, id, name: text::text_of(chars::char_name(id)) });
        i += 1;
    }
    Outcome::Done(GameStatus { running: true, base: Some(base), party_ptr: Some(party), slots })
}

/// What `set_slot` makes of the answers.
pub open spec fn slot_outcome(
    slot: u32,
    id: u32,
    answers: Seq<Answer>,
    o: Outcome<Result<SlotUpdate, String>>,
) -> bool {
    if slot >= PARTY_MAX_SLOTS {
        o matches Outcome::Done(r) && r matches Err(e) && e@ == "槽位超出范围: "@ + text::dec(
            slot as int,
        )
    } else {
        match contact(answers) {
            Contact::Ask(a) => o == Outcome::<Result<SlotUpdate, String>>::Ask(a),
            Contact::Refused(why) => o matches Outcome::Done(r) && r matches Err(e) && e@ == why,
            Contact::Party(p) => if answers.len() == 4 {
                o == Outcome::<Result<SlotUpdate, String>>::Ask(
                    Ask::WriteU32(slot_addr(p as int, slot as int) as u64, id),
                )
            } else if answers[4] is Got {
                o matches Outcome::Done(r) && r matches Ok(u) && u.slot == slot && u.id == id
                    && u.name@ == chars::name_of(id)
            } else {
                o matches Outcome::Done(r) && r matches Err(e) && e@ == "写入失败"@
            },
        }
    }
}

/// Sets a slot of the party.
pub fn set_slot(slot: u32, id: u32, answers: &Vec<Answer>) -> (o: Outcome<
    Result<SlotUpdate, String>,
>)
    requires
        slot < PARTY_MAX_SLOTS ==> small(answers@, slot as int),
    ensures
        slot_outcome(slot, id, answers@, o),
{
    if slot as u64 >= PARTY_MAX_SLOTS {
        return Outcome::Done(
            Err(text::cat2("槽位超出范围: ", text::dec_of(slot as u64).as_str())),
        );
    }
    match touch(answers) {
        Touch::Ask(a) => Outcome::Ask(a),
        Touch::Refused(why) => Outcome::Done(Err(why)),
        Touch::Party(p) => {
            if answers.len() == 4 {
                Outcome::Ask(Ask::WriteU32(p + slot as u64 * PARTY_SLOT_SIZE, id))
            } else if is_got(&answers[4]) {
                Outcome::Done(
                    Ok(SlotUpdate { slot, id, name: text::text_of(chars::char_name(id)) }),
                )
            } else {
                Outcome::Done(Err(text::text_of("写入失败")))
            }
        },
    }
}

/// The hidden slot, in which the character that Lyria replaced is kept.
pub open spec fn hidden_slot(party: int) -> int {
    slot_addr(party, 4)
}

/// Eight hexadecimal digits.
pub open spec fn id_digits(id: u32) -> Seq<char> {
    text::zero_padded(text::hex_upper(id as int), 8)
}

fn digits_of(id: u32) -> (r: String)
    ensures
        r@ == id_digits(id),
{
    text::padded_of(id as u64, 16, true, 8)
}

/// What is reported once Lyria has joined.
pub open spec fn joined_text(cur: u32) -> Seq<char> {
    "已切换: "@ + id_digits(cur) + " -> 露莉亚("@ + id_digits(LYRIA) + ")\n现在可以进战斗, 但不要开菜单!"@
}

/// What is reported once the character is back.
pub open spec fn restored_text(cur: u32, saved: u32) -> Seq<char> {
    "已恢复: "@ + id_digits(cur) + " -> "@ + id_digits(saved) + "\n现在可以安全开菜单了"@
}

/// The character to put into the first slot when Lyria is switched off: the one that
/// was kept; where none was, Katalina in the place of Lyria, and nobody in the place of
/// another.
pub open spec fn put_back(saved: u32, cur: u32) -> Option<u32> {
    if saved != 0 && saved != LYRIA {
        Some(saved)
    } else if cur == LYRIA {
        Some(KATALINA)
    } else {
        None
    }
}

/// What `lyria_switch` makes of the answers, once the party is found.
pub open spec fn lyria_outcome(
    mode: Seq<char>,
    party: u64,
    rest: Seq<Answer>,
    o: Outcome<Result<String, String>>,
) -> bool {
    if mode == "on"@ {
        let cur = value_of(rest[0]) as u32;
        if rest.len() == 0 {
            o == Outcome::<Result<String, String>>::Ask(Ask::ReadU32(party))
        } else if cur == LYRIA {
            o matches Outcome::Done(r) && r matches Ok(s) && s@ == "已经在用露莉亚了"@
        } else if rest.len() == 1 {
            o == Outcome::<Result<String, String>>::Ask(
                Ask::WriteU32(hidden_slot(party as int) as u64, cur),
            )
        } else if rest.len() == 2 {
            o == Outcome::<Result<String, String>>::Ask(Ask::WriteU32(party, LYRIA))
        } else {
            o matches Outcome::Done(r) && r matches Ok(s) && s@ == joined_text(cur)
        }
    } else if mode == "off"@ {
        let saved = value_of(rest[0]) as u32;
        let cur = value_of(rest[1]) as u32;
        if rest.len() == 0 {
            o == Outcome::<Result<String, String>>::Ask(
                Ask::ReadU32(hidden_slot(party as int) as u64),
            )
        } else if rest.len() == 1 {
            o == Outcome::<Result<String, String>>::Ask(Ask::ReadU32(party))
        } else {
            match put_back(saved, cur) {
                None => o matches Outcome::Done(r) && r matches Err(s) && s@
                    == "没有保存的原角色记录 (隐藏槽为空)"@,
                Some(id) => if rest.len() == 2 {
                    o == Outcome::<Result<String, String>>::Ask(Ask::WriteU32(party, id))
                } else {
                    o matches Outcome::Done(r) && r matches Ok(s) && s@ == restored_text(cur, id)
                },
            }
        }
    } else {
        o matches Outcome::Done(r) && r matches Err(s) && s@ == "无效模式"@
    }
}

pub open spec fn switch_outcome(
    mode: Seq<char>,
    answers: Seq<Answer>,
    o: Outcome<Result<String, String>>,
) -> bool {
    match contact(answers) {
        Contact::Ask(a) => o == Outcome::<Result<String, String>>::Ask(a),
        Contact::Refused(why) => o matches Outcome::Done(r) && r matches Err(e) && e@ == why,
        Contact::Party(p) => lyria_outcome(mode, p, answers.skip(4), o),
    }
}

/// Puts Lyria into the first slot (`on`), or the character that was there before
/// back (`off`). Where none is on record, Katalina takes the place of Lyria; another
/// character stays, and that is an error.
pub fn lyria_switch(mode: &str, answers: &Vec<Answer>) -> (o: Outcome<Result<String, String>>)
    requires
        small(answers@, 4),
    ensures
        switch_outcome(mode@, answers@, o),
{
    let party: u64 = match touch(answers) {
        Touch::Ask(a) => {
            return Outcome::Ask(a);
        },
        Touch::Refused(why) => {
            return Outcome::Done(Err(why));
        },
        Touch::Party(p) => p,
    };
    let ghost rest = answers@.skip(4);
    let n: usize = answers.len() - 4;
    let hidden: u64 = party + 4 * PARTY_SLOT_SIZE;
    let m = text::chars_of(mode);
    if text::same_text(m.as_slice(), "on") {
        if n == 0 {
            return Outcome::Ask(Ask::ReadU32(party));
        }
        assert(rest[0] == answers@[4]);
        let cur: u32 = answer_value(&answers[4]) as u32;
        if cur == LYRIA {
            Outcome::Done(Ok(text::text_of("已经在用露莉亚了")))
        } else if n == 1 {
            Outcome::Ask(Ask::WriteU32(hidden, cur))
        } else if n == 2 {
            Outcome::Ask(Ask::WriteU32(party, LYRIA))
        } else {
            let mut s = text::cat3("已切换: ", digits_of(cur).as_str(), " -> 露莉亚(");
            s.append(digits_of(LYRIA).as_str());
            s.append(")\n现在可以进战斗, 但不要开菜单!");
            Outcome::Done(Ok(s))
        }
    } else if text::same_text(m.as_slice(), "off") {
        if n == 0 {
            return Outcome::Ask(Ask::ReadU32(hidden));
        }
        if n == 1 {
            return Outcome::Ask(Ask::ReadU32(party));
        }
        assert(rest[0] == answers@[4] && rest[1] == answers@[5]);
        let saved: u32 = answer_value(&answers[4]) as u32;
        let cur: u32 = answer_value(&answers[5]) as u32;
        let id: u32 = if saved != 0 && saved != LYRIA {
            saved
        } else if cur == LYRIA {
            KATALINA
        } else {
            return Outcome::Done(Err(text::text_of("没有保存的原角色记录 (隐藏槽为空)")));
        };
        if n == 2 {
            Outcome::Ask(Ask::WriteU32(party, id))
        } else {
            let mut s = text::cat3("已恢复: ", digits_of(cur).as_str(), " -> ");
            s.append(digits_of(id).as_str());
            s.append("\n现在可以安全开菜单了");
            Outcome::Done(Ok(s))
        }
    } else {
        Outcome::Done(Err(text::text_of("无效模式")))
    }
}

/// Answers of a game in whose memory `mem` holds the ids, up to a question.
pub open spec fn answers_from(
    mode: Seq<char>,
    party: u64,
    mem: Map<u64, u32>,
    rest: Seq<Answer>,
    n: int,
) -> bool {
    &&& rest.len() == n
    &&& mode == "on"@ ==> n >= 1 && rest[0] == Answer::Got(mem[party] as u64)
    &&& mode == "off"@ ==> n >= 2 && rest[0] == Answer::Got(
        mem[hidden_slot(party as int) as u64] as u64,
    ) && rest[1] == Answer::Got(mem[party] as u64)
}

/// The memory after a write.
pub open spec fn written(mem: Map<u64, u32>, a: Ask) -> Map<u64, u32> {
    match a {
        Ask::WriteU32(addr, v) => mem.insert(addr, v),
        _ => mem,
    }
}

/// Switching on and then off puts the character back that was in the first slot,
/// where there was one other than Lyria. `on1` and `on2` are the answers before
/// the two writes of switching on, `off` those before the write of switching off.
pub proof fn lemma_switch_off_undoes_on(
    party: u64,
    mem: Map<u64, u32>,
    on1: Seq<Answer>,
    on2: Seq<Answer>,
    off: Seq<Answer>,
    w1: Ask,
    w2: Ask,
    w3: Ask,
)
    requires
        hidden_slot(party as int) <= u64::MAX,
        mem[party] != 0,
        mem[party] != LYRIA,
        answers_from("on"@, party, mem, on1, 1),
        answers_from("on"@, party, mem, on2, 2),
        answers_from("off"@, party, written(written(mem, w1), w2), off, 2),
        lyria_outcome("on"@, party, on1, Outcome::Ask(w1)),
        lyria_outcome("on"@, party, on2, Outcome::Ask(w2)),
        lyria_outcome("off"@, party, off, Outcome::Ask(w3)),
    ensures
        written(mem, w1)[hidden_slot(party as int) as u64] == mem[party],
        written(written(mem, w1), w2)[party] == LYRIA,
        written(written(written(mem, w1), w2), w3)[party] == mem[party],
{
    reveal_strlit("on");
    reveal_strlit("off");
    assert("on"@.len() != "off"@.len());
    assert(hidden_slot(party as int) as u64 != party);
    let id = mem[party];
    assert((id as u64) as u32 == id);
    let m2 = written(written(mem, w1), w2);
    let saved = m2[hidden_slot(party as int) as u64];
    assert(saved == id);
}

/// Whether no character other than Lyria is kept.
pub open spec fn unrecorded(party: u64, mem: Map<u64, u32>) -> bool {
    let saved = mem[hidden_slot(party as int) as u64];
    saved == 0 || saved == LYRIA
}

/// Switching off never leaves Lyria in the first slot: where nobody is on record,
/// Katalina takes her place. Another character is lost only to one that was kept: with
/// nobody on record nothing is written, and that is an error. `off` are the answers
/// before anything is written.
pub proof fn lemma_switch_off_removes_lyria(
    party: u64,
    mem: Map<u64, u32>,
    off: Seq<Answer>,
    o: Outcome<Result<String, String>>,
)
    requires
        answers_from("off"@, party, mem, off, 2),
        lyria_outcome("off"@, party, off, o),
    ensures
        match o {
            Outcome::Ask(w) => {
                &&& written(mem, w)[party] != LYRIA
                &&& unrecorded(party, mem) ==> mem[party] == LYRIA && written(mem, w)[party]
                    == KATALINA
            },
            Outcome::Done(r) => r is Err && mem[party] != LYRIA && unrecorded(party, mem),
        },
{
    reveal_strlit("on");
    reveal_strlit("off");
    assert("on"@.len() != "off"@.len());
    let saved = mem[hidden_slot(party as int) as u64];
    let cur = mem[party];
    assert((saved as u64) as u32 == saved);
    assert((cur as u64) as u32 == cur);
}

/// A game that runs and lets itself be opened, read and written.
pub ghost struct Game {
    pub pid: u64,
    /// Where its module is loaded.
    pub base: u64,
    /// What the pointer to the party holds.
    pub party: u64,
    /// The ids in its memory.
    pub mem: Map<u64, u32>,
}

/// Whether the pointer to the party, and the party, lie within 64 bits.
pub open spec fn is_game(g: Game) -> bool {
    g.base + 0x701C420 <= u64::MAX && g.party + 0x50 <= u64::MAX
}

/// What the game answers: to each read, what its memory holds at that address.
pub open spec fn reply(g: Game, a: Ask) -> Answer {
    match a {
        Ask::Find => Answer::Got(g.pid),
        Ask::Open(pid) => if pid == g.pid {
            Answer::Got(0)
        } else {
            Answer::Missing
        },
        Ask::Base => Answer::Got(g.base),
        Ask::ReadU64(x) => if x == g.base + 0x701C420 {
            Answer::Got(g.party)
        } else {
            Answer::Missing
        },
        Ask::ReadU32(x) => Answer::Got(g.mem[x] as u64),
        Ask::WriteU32(_, _) => Answer::Got(0),
    }
}

/// The game once some questions were put to it in order.
pub open spec fn after(g: Game, asks: Seq<Ask>) -> Game
    decreases asks.len(),
{
    if asks.len() == 0 {
        g
    } else {
        let h = after(g, asks.drop_last());
        match asks.last() {
            Ask::WriteU32(x, v) => Game { mem: h.mem.insert(x, v), ..h },
            _ => h,
        }
    }
}

/// Whether `answers` are what the game answers to `asks`, each of them what an
/// operation asks next.
pub open spec fn talk(
    g: Game,
    asks_next: spec_fn(Seq<Answer>, Ask) -> bool,
    asks: Seq<Ask>,
    answers: Seq<Answer>,
) -> bool {
    &&& asks.len() == answers.len()
    &&& forall|i: int|
        0 <= i < asks.len() ==> asks_next(answers.take(i), #[trigger] asks[i]) && answers[i]
            == reply(after(g, asks.take(i)), asks[i])
}

/// What `game_status` asks.
pub open spec fn status_asks() -> spec_fn(Seq<Answer>, Ask) -> bool {
    |answers: Seq<Answer>, a: Ask| status_outcome(answers, Outcome::Ask(a))
}

/// What `set_slot` asks.
pub open spec fn slot_asks(slot: u32, id: u32) -> spec_fn(Seq<Answer>, Ask) -> bool {
    |answers: Seq<Answer>, a: Ask| slot_outcome(slot, id, answers, Outcome::Ask(a))
}

/// What `lyria_switch` asks.
pub open spec fn switch_asks(mode: Seq<char>) -> spec_fn(Seq<Answer>, Ask) -> bool {
    |answers: Seq<Answer>, a: Ask| switch_outcome(mode, answers, Outcome::Ask(a))
}

proof fn lemma_talk_at(
    g: Game,
    asks_next: spec_fn(Seq<Answer>, Ask) -> bool,
    asks: Seq<Ask>,
    answers: Seq<Answer>,
    i: int,
)
    requires
        talk(g, asks_next, asks, answers),
        0 <= i < asks.len(),
    ensures
        asks_next(answers.take(i), asks[i]),
        answers[i] == reply(after(g, asks.take(i)), asks[i]),
        after(g, asks.take(i + 1)) == (match asks[i] {
            Ask::WriteU32(x, v) => Game {
                mem: after(g, asks.take(i)).mem.insert(x, v),
                ..after(g, asks.take(i))
            },
            _ => after(g, asks.take(i)),
        }),
        answers.take(i).len() == i,
        forall|j: int| 0 <= j < i ==> #[trigger] answers.take(i)[j] == answers[j],
        asks.take(asks.len() as int) == asks,
        answers.take(answers.len() as int) == answers,
        after(g, asks.take(0)) == g,
{
    assert(asks.take(i + 1).drop_last() =~= asks.take(i));
    assert(asks.take(i + 1).last() == asks[i]);
    assert(asks.take(asks.len() as int) =~= asks);
    assert(answers.take(answers.len() as int) =~= answers);
}

/// The status shows the memory: put to a game, `game_status` ends with nine answers,
/// writes nothing, and lists in each of the five slots the id that the memory holds
/// sixteen bytes on from the slot before, the first at the pointer to the party.
pub proof fn lemma_status_shows_memory(
    g: Game,
    asks: Seq<Ask>,
    answers: Seq<Answer>,
    s: GameStatus,
)
    requires
        is_game(g),
        talk(g, status_asks(), asks, answers),
        status_outcome(answers, Outcome::Done(s)),
    ensures
        answers.len() == 9,
        after(g, asks) == g,
        s.running,
        s.base == Some(g.base),
        s.party_ptr == Some(g.party),
        s.slots@.len() == 5,
        forall|i: int|
            0 <= i < 5 ==> (#[trigger] s.slots@[i]).index == i && s.slots@[i].id == g.mem[(g.party
                + 0x10 * i) as u64] && s.slots@[i].name@ == chars::name_of(s.slots@[i].id),
{
    let n = asks.len() as int;
    lemma_status_contact(g, asks, answers);
    assert(answers.take(n) =~= answers);
    assert(asks.take(n) =~= asks);
    assert(n >= 4);
    if n > 9 {
        lemma_talk_at(g, status_asks(), asks, answers, 9);
        assert(false);
    }
    lemma_status_reads(g, asks, answers, n);
    assert(n == 9);
    assert forall|i: int| 0 <= i < 5 implies (#[trigger] s.slots@[i]).index == i && s.slots@[i].id
        == g.mem[(g.party + 0x10 * i) as u64] && s.slots@[i].name@ == chars::name_of(
        s.slots@[i].id,
    ) by {
        let id = g.mem[(g.party + 0x10 * i) as u64];
        assert(answers[4 + i] == Answer::Got(id as u64));
        assert((id as u64) as u32 == id);
    }
}

proof fn lemma_status_contact(g: Game, asks: Seq<Ask>, answers: Seq<Answer>)
    requires
        is_game(g),
        talk(g, status_asks(), asks, answers),
    ensures
        asks.len() > 0 ==> answers[0] == Answer::Got(g.pid),
        asks.len() > 1 ==> answers[1] == Answer::Got(0),
        asks.len() > 2 ==> answers[2] == Answer::Got(g.base),
        asks.len() > 3 ==> answers[3] == Answer::Got(g.party) && after(g, asks.take(4)) == g,
{
    let n = asks.len() as int;
    if n > 0 {
        lemma_talk_at(g, status_asks(), asks, answers, 0);
    }
    if n > 1 {
        lemma_talk_at(g, status_asks(), asks, answers, 1);
    }
    if n > 2 {
        lemma_talk_at(g, status_asks(), asks, answers, 2);
    }
    if n > 3 {
        lemma_talk_at(g, status_asks(), asks, answers, 3);
        assert(asks[3] == Ask::ReadU64((g.base + 0x701C420) as u64));
    }
}

proof fn lemma_status_reads(g: Game, asks: Seq<Ask>, answers: Seq<Answer>, i: int)
    requires
        is_game(g),
        talk(g, status_asks(), asks, answers),
        4 <= i <= asks.len(),
        i <= 9,
    ensures
        after(g, asks.take(i)) == g,
        forall|j: int|
            4 <= j < i ==> #[trigger] answers[j] == Answer::Got(
                g.mem[(g.party + 0x10 * (j - 4)) as u64] as u64,
            ),
    decreases i,
{
    lemma_status_contact(g, asks, answers);
    if i > 4 {
        lemma_status_reads(g, asks, answers, i - 1);
        lemma_talk_at(g, status_asks(), asks, answers, i - 1);
        assert(answers.take(i - 1)[3] == answers[3]);
        assert(answers.take(i - 1)[2] == answers[2]);
        assert(answers.take(i - 1)[1] == answers[1]);
        assert(answers.take(i - 1)[0] == answers[0]);
        assert(asks[i - 1] == Ask::ReadU32((g.party + 0x10 * (i - 5)) as u64));
    }
}

/// Setting a slot writes the id at the address of the slot, and nowhere else.
pub proof fn lemma_set_slot_writes(
    g: Game,
    slot: u32,
    id: u32,
    asks: Seq<Ask>,
    answers: Seq<Answer>,
    r: Result<SlotUpdate, String>,
)
    requires
        is_game(g),
        talk(g, slot_asks(slot, id), asks, answers),
        slot_outcome(slot, id, answers, Outcome::Done(r)),
    ensures
        slot < 5 ==> after(g, asks) == (Game {
            mem: g.mem.insert((g.party + 0x10 * slot) as u64, id),
            ..g
        }) && r is Ok && r->Ok_0.slot == slot && r->Ok_0.id == id && r->Ok_0.name@
            == chars::name_of(id),
        slot >= 5 ==> asks.len() == 0 && r is Err,
{
    let n = asks.len() as int;
    let f = slot_asks(slot, id);
    if n > 0 {
        lemma_talk_at(g, f, asks, answers, 0);
    }
    if slot < 5 {
        if n > 1 {
            lemma_talk_at(g, f, asks, answers, 1);
        }
        if n > 2 {
            lemma_talk_at(g, f, asks, answers, 2);
        }
        if n > 3 {
            lemma_talk_at(g, f, asks, answers, 3);
            assert(asks[3] == Ask::ReadU64((g.base + 0x701C420) as u64));
        }
        if n > 4 {
            lemma_talk_at(g, f, asks, answers, 4);
            assert(asks[4] == Ask::WriteU32((g.party + 0x10 * slot) as u64, id));
        }
        if n > 5 {
            lemma_talk_at(g, f, asks, answers, 5);
            assert(false);
        }
    }
}

/// What was set is shown: once `set_slot` has set a slot, `game_status` lists the new
/// id in that slot, and in every other slot what it would have listed before.
pub proof fn lemma_status_after_set_slot(
    g: Game,
    slot: u32,
    id: u32,
    set_asks: Seq<Ask>,
    set_answers: Seq<Answer>,
    r: Result<SlotUpdate, String>,
    asks: Seq<Ask>,
    answers: Seq<Answer>,
    s: GameStatus,
)
    requires
        is_game(g),
        slot < 5,
        talk(g, slot_asks(slot, id), set_asks, set_answers),
        slot_outcome(slot, id, set_answers, Outcome::Done(r)),
        talk(after(g, set_asks), status_asks(), asks, answers),
        status_outcome(answers, Outcome::Done(s)),
    ensures
        s.slots@.len() == 5,
        s.slots@[slot as int].id == id,
        forall|i: int|
            0 <= i < 5 && i != slot ==> (#[trigger] s.slots@[i]).id == g.mem[(g.party + 0x10
                * i) as u64],
{
    lemma_set_slot_writes(g, slot, id, set_asks, set_answers, r);
    lemma_status_shows_memory(after(g, set_asks), asks, answers, s);
    assert forall|i: int| 0 <= i < 5 && i != slot implies (#[trigger] s.slots@[i]).id == g.mem[(
    g.party + 0x10 * i) as u64] by {
        assert((g.party + 0x10 * i) as u64 != (g.party + 0x10 * slot) as u64);
    }
}

/// Switching Lyria on keeps who is in the first slot in the fifth and puts Lyria into
/// the first; where she is there already nothing is written. Nothing else changes.
pub proof fn lemma_switch_on_writes(
    g: Game,
    asks: Seq<Ask>,
    answers: Seq<Answer>,
    r: Result<String, String>,
)
    requires
        is_game(g),
        talk(g, switch_asks("on"@), asks, answers),
        switch_outcome("on"@, answers, Outcome::Done(r)),
    ensures
        r is Ok,
        g.mem[g.party] == 0x3529CC90 ==> after(g, asks) == g && r->Ok_0@ == "已经在用露莉亚了"@,
        g.mem[g.party] != 0x3529CC90 ==> after(g, asks) == (Game {
            mem: g.mem.insert((g.party + 0x40) as u64, g.mem[g.party]).insert(g.party, 0x3529CC90),
            ..g
        }) && r->Ok_0@ == "已切换: "@ + id_digits(g.mem[g.party]) + " -> 露莉亚("@ + id_digits(
            0x3529CC90,
        ) + ")\n现在可以进战斗, 但不要开菜单!"@,
{
    let n = asks.len() as int;
    let f = switch_asks("on"@);
    reveal_strlit("on");
    reveal_strlit("off");
    lemma_switch_contact(g, "on"@, asks, answers);
    if n > 4 {
        lemma_talk_at(g, f, asks, answers, 4);
        assert(asks[4] == Ask::ReadU32(g.party));
    }
    let id = g.mem[g.party];
    assert((id as u64) as u32 == id);
    if n > 5 {
        lemma_talk_at(g, f, asks, answers, 5);
        assert(answers.take(5).skip(4)[0] == answers[4]);
    }
    if n > 6 {
        lemma_talk_at(g, f, asks, answers, 6);
        assert(answers.take(6).skip(4)[0] == answers[4]);
    }
    if n > 7 {
        lemma_talk_at(g, f, asks, answers, 7);
        assert(answers.take(7).skip(4)[0] == answers[4]);
        assert(false);
    }
    if n > 4 {
        assert(answers.skip(4)[0] == answers[4]);
    }
}

/// Switching Lyria off puts whom the fifth slot keeps into the first; where it keeps
/// nobody, or Lyria, Katalina takes the place of Lyria, and anybody else stays, which is
/// an error. Nothing else changes.
pub proof fn lemma_switch_off_writes(
    g: Game,
    asks: Seq<Ask>,
    answers: Seq<Answer>,
    r: Result<String, String>,
)
    requires
        is_game(g),
        talk(g, switch_asks("off"@), asks, answers),
        switch_outcome("off"@, answers, Outcome::Done(r)),
    ensures
        ({
            let kept = g.mem[(g.party + 0x40) as u64];
            let none = kept == 0 || kept == 0x3529CC90;
            &&& !none ==> r is Ok && after(g, asks) == (Game {
                mem: g.mem.insert(g.party, kept),
                ..g
            }) && r->Ok_0@ == "已恢复: "@ + id_digits(g.mem[g.party]) + " -> "@ + id_digits(kept)
                + "\n现在可以安全开菜单了"@
            &&& none && g.mem[g.party] == 0x3529CC90 ==> r is Ok && after(g, asks) == (Game {
                mem: g.mem.insert(g.party, 0x18E2F9F9),
                ..g
            })
            &&& none && g.mem[g.party] != 0x3529CC90 ==> r is Err && after(g, asks) == g
                && r->Err_0@ == "没有保存的原角色记录 (隐藏槽为空)"@
        }),
{
    let n = asks.len() as int;
    let f = switch_asks("off"@);
    reveal_strlit("on");
    reveal_strlit("off");
    assert("on"@.len() != "off"@.len());
    lemma_switch_contact(g, "off"@, asks, answers);
    let kept = g.mem[(g.party + 0x40) as u64];
    let cur = g.mem[g.party];
    assert((kept as u64) as u32 == kept);
    assert((cur as u64) as u32 == cur);
    if n > 4 {
        lemma_talk_at(g, f, asks, answers, 4);
        assert(asks[4] == Ask::ReadU32((g.party + 0x40) as u64));
        assert(answers.skip(4)[0] == answers[4]);
    }
    if n > 5 {
        lemma_talk_at(g, f, asks, answers, 5);
        assert(asks[5] == Ask::ReadU32(g.party));
        assert(answers.skip(4)[1] == answers[5]);
    }
    if n > 6 {
        lemma_talk_at(g, f, asks, answers, 6);
        assert(answers.take(6).skip(4)[0] == answers[4]);
        assert(answers.take(6).skip(4)[1] == answers[5]);
    }
    if n > 7 {
        lemma_talk_at(g, f, asks, answers, 7);
        assert(answers.take(7).skip(4)[0] == answers[4]);
        assert(answers.take(7).skip(4)[1] == answers[5]);
        assert(false);
    }
}

proof fn lemma_switch_contact(g: Game, mode: Seq<char>, asks: Seq<Ask>, answers: Seq<Answer>)
    requires
        is_game(g),
        talk(g, switch_asks(mode), asks, answers),
    ensures
        asks.len() > 0 ==> answers[0] == Answer::Got(g.pid),
        asks.len() > 1 ==> answers[1] == Answer::Got(0),
        asks.len() > 2 ==> answers[2] == Answer::Got(g.base),
        asks.len() > 3 ==> answers[3] == Answer::Got(g.party) && after(g, asks.take(4)) == g,
        asks.take(asks.len() as int) == asks,
{
    let n = asks.len() as int;
    let f = switch_asks(mode);
    assert(asks.take(n) =~= asks);
    if n > 0 {
        lemma_talk_at(g, f, asks, answers, 0);
    }
    if n > 1 {
        lemma_talk_at(g, f, asks, answers, 1);
    }
    if n > 2 {
        lemma_talk_at(g, f, asks, answers, 2);
    }
    if n > 3 {
        lemma_talk_at(g, f, asks, answers, 3);
        assert(asks[3] == Ask::ReadU64((g.base + 0x701C420) as u64));
    }
}

/// A game that is not there, or cannot be opened, has the status of none, and no slot of
/// it is set and no switch thrown: each is refused after the answer that says so, and
/// nothing was written.
pub proof fn lemma_refused_without_game(
    answers: Seq<Answer>,
    s: Outcome<GameStatus>,
    u: Outcome<Result<SlotUpdate, String>>,
    slot: u32,
    id: u32,
    l: Outcome<Result<String, String>>,
    mode: Seq<char>,
)
    requires
        answers.len() == 1 && !(answers[0] is Got) || answers.len() == 2 && answers[0] is Got && !(
        answers[1] is Got),
        status_outcome(answers, s),
        slot_outcome(slot, id, answers, u),
        switch_outcome(mode, answers, l),
    ensures
        s is Done && !s->Done_0.running && s->Done_0.base is None && s->Done_0.party_ptr is None
            && s->Done_0.slots@.len() == 0,
        u is Done && u->Done_0 is Err,
        l is Done && l->Done_0 is Err,
        answers.len() == 2 && slot < 5 ==> (forall|why: String|
            answers[1] == Answer::Failed(why) ==> u->Done_0->Err_0@ == #[trigger] why@
                && l->Done_0->Err_0@ == why@),
{
}

/// An id is written with eight hexadecimal digits, in capitals.
pub proof fn lemma_id_digits(id: u32)
    ensures
        id_digits(id).len() == 8,
        text::value_in(id_digits(id), 16) == id,
{
    let s = text::hex_upper(id as int);
    text::lemma_numeral_reads_back(id as int, 16, true);
    text::lemma_zero_padded(s, 8, 16);
    reveal_with_fuel(vstd::arithmetic::power::pow, 9);
    assert(vstd::arithmetic::power::pow(16, 8) == 0x1_0000_0000);
    lemma_hex_len(id as int, 8);
}

proof fn lemma_hex_len(n: int, k: nat)
    requires
        0 <= n,
        0 < k,
        n < vstd::arithmetic::power::pow(16, k),
    ensures
        text::hex_upper(n).len() <= k,
    decreases k,
{
    reveal(vstd::arithmetic::power::pow);
    if n >= 16 {
        if k > 1 {
            let q = n / 16;
            assert(n < 16 * vstd::arithmetic::power::pow(16, (k - 1) as nat));
            assert(q < vstd::arithmetic::power::pow(16, (k - 1) as nat));
            lemma_hex_len(q, (k - 1) as nat);
        } else {
            assert(vstd::arithmetic::power::pow(16, 1) == 16 * vstd::arithmetic::power::pow(16, 0));
            assert(vstd::arithmetic::power::pow(16, 0) == 1);
        }
    }
}

/// What is refused is told why: that the game does not run, why it could not be opened, that
/// its module was not found, that the pointer to the party could not be read, that the id
/// could not be written, or which slot there is none of.
pub proof fn lemma_refused_why(
    answers: Seq<Answer>,
    slot: u32,
    id: u32,
    u: Outcome<Result<SlotUpdate, String>>,
    mode: Seq<char>,
    l: Outcome<Result<String, String>>,
)
    requires
        slot_outcome(slot, id, answers, u),
        switch_outcome(mode, answers, l),
        forall|i: int| 0 <= i < answers.len() - 1 ==> (#[trigger] answers[i]) is Got,
        answers.len() > 0 && !(answers.last() is Got),
    ensures
        slot < 5 && answers.len() <= 5 ==> u is Done && u->Done_0 is Err && (answers.len() == 1
            ==> u->Done_0->Err_0@ == "游戏未运行"@) && (answers.len() == 3 ==> u->Done_0->Err_0@
            == "找不到模块"@) && (answers.len() == 4 ==> u->Done_0->Err_0@ == "队伍指针无效"@) && (
        answers.len() == 5 ==> u->Done_0->Err_0@ == "写入失败"@),
        answers.len() <= 4 ==> l is Done && l->Done_0 is Err && (answers.len() == 1
            ==> l->Done_0->Err_0@ == "游戏未运行"@) && (answers.len() == 3 ==> l->Done_0->Err_0@
            == "找不到模块"@) && (answers.len() == 4 ==> l->Done_0->Err_0@ == "队伍指针无效"@),
        slot >= 5 ==> u is Done && u->Done_0 is Err && u->Done_0->Err_0@ == "槽位超出范围: "@
            + text::numeral(slot as int, 10, false),
{
    if answers.len() > 1 {
        assert(answers[0] is Got);
    }
    if answers.len() > 2 {
        assert(answers[1] is Got);
    }
    if answers.len() > 3 {
        assert(answers[2] is Got);
    }
    if answers.len() > 4 {
        assert(answers[3] is Got);
    }
}

/// A game whose module is not found runs, with no base, no party and no slots; one whose
/// pointer to the party cannot be read has a pointer of zero.
pub proof fn lemma_status_in_part(answers: Seq<Answer>, o: Outcome<GameStatus>)
    requires
        status_outcome(answers, o),
        answers.len() >= 3,
        answers[0] is Got,
        answers[1] is Got,
    ensures
        !(answers[2] is Got) ==> o is Done && o->Done_0.running && o->Done_0.base is None
            && o->Done_0.party_ptr is None && o->Done_0.slots@.len() == 0,
        answers[2] is Got && answers.len() == 9 && !(answers[3] is Got) ==> o is Done
            && o->Done_0.running && o->Done_0.base == Some(answers[2]->Got_0)
            && o->Done_0.party_ptr == Some(0u64) && o->Done_0.slots@.len() == 5,
{
}

/// A mode that is neither on nor off is refused once the party was found, and nothing is
/// asked or written for it.
pub proof fn lemma_other_mode(
    mode: Seq<char>,
    party: u64,
    rest: Seq<Answer>,
    o: Outcome<Result<String, String>>,
)
    requires
        mode != "on"@,
        mode != "off"@,
        lyria_outcome(mode, party, rest, o),
    ensures
        o is Done,
        o->Done_0 is Err,
        o->Done_0->Err_0@ == "无效模式"@,
{
}

/// Each operation comes to its end: put to a game, `game_status` is done with nine answers
/// and `set_slot` with five, and neither before that.
pub proof fn lemma_operations_end(
    g: Game,
    asks: Seq<Ask>,
    answers: Seq<Answer>,
    s: Outcome<GameStatus>,
    slot: u32,
    id: u32,
    u: Outcome<Result<SlotUpdate, String>>,
)
    requires
        is_game(g),
        slot < 5,
    ensures
        talk(g, status_asks(), asks, answers) && status_outcome(answers, s) && asks.len() <= 9 ==> (
        s is Done <==> asks.len() == 9),
        talk(g, slot_asks(slot, id), asks, answers) && slot_outcome(slot, id, answers, u)
            && asks.len() <= 5 ==> (u is Done <==> asks.len() == 5),
{
    let n = asks.len() as int;
    if talk(g, status_asks(), asks, answers) {
        lemma_status_contact(g, asks, answers);
    }
    let f = slot_asks(slot, id);
    if talk(g, f, asks, answers) {
        if n > 0 {
            lemma_talk_at(g, f, asks, answers, 0);
        }
        if n > 1 {
            lemma_talk_at(g, f, asks, answers, 1);
        }
        if n > 2 {
            lemma_talk_at(g, f, asks, answers, 2);
        }
        if n > 3 {
            lemma_talk_at(g, f, asks, answers, 3);
            assert(asks[3] == Ask::ReadU64((g.base + 0x701C420) as u64));
        }
    }
}

/// Switching comes to its end: with seven answers; or with five where Lyria was to be
/// switched on and is there already, and with six where she was to be switched off, is not
/// there, and nobody is kept.
pub proof fn lemma_switch_ends(
    g: Game,
    asks: Seq<Ask>,
    answers: Seq<Answer>,
    o: Outcome<Result<String, String>>,
)
    requires
        is_game(g),
        asks.len() <= 7,
    ensures
        ({
            let there = g.mem[g.party] == 0x3529CC90;
            let kept = g.mem[(g.party + 0x40) as u64];
            let none = kept == 0 || kept == 0x3529CC90;
            &&& talk(g, switch_asks("on"@), asks, answers) && switch_outcome("on"@, answers, o) ==> (
            o is Done <==> asks.len() == 7 || asks.len() == 5 && there)
            &&& talk(g, switch_asks("off"@), asks, answers) && switch_outcome("off"@, answers, o)
                ==> (o is Done <==> asks.len() == 7 || asks.len() == 6 && none && !there)
        }),
{
    let n = asks.len() as int;
    reveal_strlit("on");
    reveal_strlit("off");
    assert("on"@.len() != "off"@.len());
    let kept = g.mem[(g.party + 0x40) as u64];
    let cur = g.mem[g.party];
    assert((kept as u64) as u32 == kept);
    assert((cur as u64) as u32 == cur);
    if answers.len() > 4 {
        assert(answers.skip(4)[0] == answers[4]);
    }
    if answers.len() > 5 {
        assert(answers.skip(4)[1] == answers[5]);
    }
    if talk(g, switch_asks("on"@), asks, answers) {
        let f = switch_asks("on"@);
        lemma_switch_contact(g, "on"@, asks, answers);
        if n > 4 {
            lemma_talk_at(g, f, asks, answers, 4);
            assert(asks[4] == Ask::ReadU32(g.party));
        }
        if n > 5 {
            lemma_talk_at(g, f, asks, answers, 5);
            assert(answers.take(5).skip(4)[0] == answers[4]);
        }
    }
    if talk(g, switch_asks("off"@), asks, answers) {
        let f = switch_asks("off"@);
        lemma_switch_contact(g, "off"@, asks, answers);
        if n > 4 {
            lemma_talk_at(g, f, asks, answers, 4);
            assert(asks[4] == Ask::ReadU32((g.party + 0x40) as u64));
        }
        if n > 5 {
            lemma_talk_at(g, f, asks, answers, 5);
            assert(asks[5] == Ask::ReadU32(g.party));
        }
        if n > 6 {
            lemma_talk_at(g, f, asks, answers, 6);
            assert(answers.take(6).skip(4)[0] == answers[4]);
            assert(answers.take(6).skip(4)[1] == answers[5]);
        }
    }
}

} // verus!
