//! The characters of the game.
use vstd::prelude::*;

verus! {

/// A character: its id, its name and a note on it.
#[derive(Clone, Copy, Debug)]
pub struct CharInfo {
    pub id: u32,
    pub name: &'static str,
    pub note: &'static str,
}

/// The content of a [`CharInfo`].
pub ghost struct Character {
    pub id: u32,
    pub name: Seq<char>,
    pub note: Seq<char>,
}

impl View for CharInfo {
    type V = Character;

    open spec fn view(&self) -> Character {
        Character { id: self.id, name: self.name@, note: self.note@ }
    }
}

pub open spec fn character(id: u32, name: Seq<char>, note: Seq<char>) -> Character {
    Character { id, name, note }
}

pub open spec fn char_views(v: Seq<CharInfo>) -> Seq<Character> {
    v.map_values(|c: CharInfo| c@)
}

/// All characters, in the order in which they are listed.
pub open spec fn char_table() -> Seq<Character> {
    seq![
        character(0x2A26B1B2, "Gran"@, "主角"@),
        character(0xA4ACBA76, "Djeeta"@, "主角"@),
        character(0x18E2F9F9, "Katalina"@, "卡塔莉娜"@),
        character(0x079DF0CC, "Rackham"@, "拉卡姆"@),
        character(0x4D0A60C3, "Io"@, "伊欧"@),
        character(0xDD7A151E, "Eugen"@, "欧根"@),
        character(0xC8616284, "Rosetta"@, "罗塞塔"@),
        character(0xC3FFD418, "Ferry"@, "菲莉"@),
        character(0x22E437E5, "Lancelot"@, "兰斯洛特"@),
        character(0x2EBE91D5, "Vane"@, "巴恩"@),
        character(0xBDEF7181, "Percival"@, "珀西瓦尔"@),
        character(0x627BCB0D, "Siegfried"@, "齐格飞"@),
        character(0xFD3BE362, "Charlotta"@, "夏洛特"@),
        character(0xFC6CDF7B, "Yodarha"@, "尤达哈拉"@),
        character(0xE7053919, "Narmaya"@, "娜露梅亚"@),
        character(0x978E4B18, "Ghandagoza"@, "冈达葛萨"@),
        character(0x0D21B430, "Zeta"@, "塞达"@),
        character(0xF0EB77EF, "Vaseraga"@, "巴萨拉卡"@),
        character(0xAA66178A, "Cagliostro"@, "卡莉奥丝特罗"@),
        character(0xA3A3CB2F, "Id"@, "伊德"@),
        character(0x718E1A14, "Sandalphon"@, "圣德芬"@),
        character(0xBAD16E3B, "Tweyen"@, "索恩"@),
        character(0x296471BE, "Seofon"@, "希耶提"@),
        character(0x74DD4C79, "Fediel"@, "菲迪埃尔"@),
        character(0x1BB37EF0, "Gallanza"@, "伽兰查"@),
        character(0x25D46F4B, "Maglielle"@, "玛奇拉菲拉"@),
        character(0x9A8AF295, "Beatrix"@, "贝阿朵丽丝"@),
        character(0x9B15CFB1, "Eustace"@, "尤斯提斯"@),
        character(0x646C3168, "Fraux"@, "芙劳"@),
        character(0x28A87C8A, "罗兰"@, "★全功能可用"@),
        character(0x3529CC90, "露莉亚"@, "★战斗可用,菜单闪退"@),
        character(0xF92C7821, "龙人伊德"@, "非战斗角色"@),
        character(0x887AE0B0, "(空)"@, "空槽位"@),
    ]
}

fn info(id: u32, name: &'static str, note: &'static str) -> (r: CharInfo)
    ensures
        r@ == character(id, name@, note@),
{
    CharInfo { id, name, note }
}

/// Lists all characters.
pub fn all_chars() -> (r: Vec<CharInfo>)
    ensures
        char_views(r@) == char_table(),
{
    let v = vec![
        info(0x2A26B1B2, "Gran", "主角"),
        info(0xA4ACBA76, "Djeeta", "主角"),
        info(0x18E2F9F9, "Katalina", "卡塔莉娜"),
        info(0x079DF0CC, "Rackham", "拉卡姆"),
        info(0x4D0A60C3, "Io", "伊欧"),
        info(0xDD7A151E, "Eugen", "欧根"),
        info(0xC8616284, "Rosetta", "罗塞塔"),
        info(0xC3FFD418, "Ferry", "菲莉"),
        info(0x22E437E5, "Lancelot", "兰斯洛特"),
        info(0x2EBE91D5, "Vane", "巴恩"),
        info(0xBDEF7181, "Percival", "珀西瓦尔"),
        info(0x627BCB0D, "Siegfried", "齐格飞"),
        info(0xFD3BE362, "Charlotta", "夏洛特"),
        info(0xFC6CDF7B, "Yodarha", "尤达哈拉"),
        info(0xE7053919, "Narmaya", "娜露梅亚"),
        info(0x978E4B18, "Ghandagoza", "冈达葛萨"),
        info(0x0D21B430, "Zeta", "塞达"),
        info(0xF0EB77EF, "Vaseraga", "巴萨拉卡"),
        info(0xAA66178A, "Cagliostro", "卡莉奥丝特罗"),
        info(0xA3A3CB2F, "Id", "伊德"),
        info(0x718E1A14, "Sandalphon", "圣德芬"),
        info(0xBAD16E3B, "Tweyen", "索恩"),
        info(0x296471BE, "Seofon", "希耶提"),
        info(0x74DD4C79, "Fediel", "菲迪埃尔"),
        info(0x1BB37EF0, "Gallanza", "伽兰查"),
        info(0x25D46F4B, "Maglielle", "玛奇拉菲拉"),
        info(0x9A8AF295, "Beatrix", "贝阿朵丽丝"),
        info(0x9B15CFB1, "Eustace", "尤斯提斯"),
        info(0x646C3168, "Fraux", "芙劳"),
        info(0x28A87C8A, "罗兰", "★全功能可用"),
        info(0x3529CC90, "露莉亚", "★战斗可用,菜单闪退"),
        info(0xF92C7821, "龙人伊德", "非战斗角色"),
        info(0x887AE0B0, "(空)", "空槽位"),
    ];
    assert(char_views(v@) == char_table());
    v
}

/// The name of the first of some characters with an id, if there is one.
pub open spec fn name_in(table: Seq<Character>, id: u32) -> Option<Seq<char>>
    decreases table.len(),
{
    if table.len() == 0 {
        None
    } else if table[0].id == id {
        Some(table[0].name)
    } else {
        name_in(table.drop_first(), id)
    }
}

/// The name of the character with an id.
pub open spec fn name_of(id: u32) -> Seq<char> {
    match name_in(char_table(), id) {
        Some(n) => n,
        None => "未知"@,
    }
}

/// The name of the character with an id; `未知` for an id that no character has.
pub fn char_name(id: u32) -> (r: &'static str)
    ensures
        r@ == name_of(id),
{
    let chars = all_chars();
    let ghost t = char_table();
    let mut i: usize = 0;
    assert(t.skip(0) == t);
    while i < chars.len()
        invariant
            i <= chars.len(),
            t == char_views(chars@),
            t == char_table(),
            name_in(t, id) == name_in(t.skip(i as int), id),
        decreases chars.len() - i,
    {
        assert(t[i as int] == chars@[i as int]@);
        assert(t.skip(i as int)[0] == t[i as int]);
        assert(t.skip(i as int).drop_first() == t.skip(i + 1));
        if chars[i].id == id {
            return chars[i].name;
        }
        i += 1;
    }
    "未知"
}

/// No two characters have the same id.
pub proof fn lemma_ids_distinct(i: int, j: int)
    requires
        0 <= i < j < char_table().len(),
    ensures
        char_table()[i].id != char_table()[j].id,
{
}

/// Each character of the table is shown under its own name, and an id that stands nowhere
/// in the table as unknown.
pub proof fn lemma_shown_by_name(i: int, id: u32)
    requires
        0 <= i < char_table().len(),
    ensures
        name_of(char_table()[i].id) == char_table()[i].name,
        (forall|k: int| 0 <= k < char_table().len() ==> (#[trigger] char_table()[k]).id != id)
            ==> name_of(id) == "未知"@,
{
    let t = char_table();
    assert forall|j: int| 0 <= j < i implies (#[trigger] t[j]).id != t[i].id by {
        lemma_ids_distinct(j, i);
    }
    lemma_name_in(t, t[i].id, i);
    if forall|k: int| 0 <= k < t.len() ==> (#[trigger] t[k]).id != id {
        lemma_not_in(t, id);
    }
}

proof fn lemma_name_in(t: Seq<Character>, id: u32, i: int)
    requires
        0 <= i < t.len(),
        t[i].id == id,
        forall|j: int| 0 <= j < i ==> (#[trigger] t[j]).id != id,
    ensures
        name_in(t, id) == Some(t[i].name),
    decreases i,
{
    if i > 0 {
        assert(t[0].id != id);
        let u = t.drop_first();
        assert forall|j: int| 0 <= j < i - 1 implies (#[trigger] u[j]).id != id by {
            assert(u[j] == t[j + 1]);
        }
        lemma_name_in(u, id, i - 1);
    }
}

proof fn lemma_not_in(t: Seq<Character>, id: u32)
    requires
        forall|k: int| 0 <= k < t.len() ==> (#[trigger] t[k]).id != id,
    ensures
        name_in(t, id) is None,
    decreases t.len(),
{
    if t.len() > 0 {
        assert(t[0].id != id);
        let u = t.drop_first();
        assert forall|k: int| 0 <= k < u.len() implies (#[trigger] u[k]).id != id by {
            assert(u[k] == t[k + 1]);
        }
        lemma_not_in(u, id);
    }
}

/// The characters that can be put into a slot: each is listed with its note, and known by its
/// id under its own name.
pub proof fn lemma_known_by_id()
    ensures
        char_table().len() == 33,
        name_of(0x2A26B1B2) == "Gran"@,
        name_of(0xA4ACBA76) == "Djeeta"@,
        name_of(0x18E2F9F9) == "Katalina"@,
        name_of(0x079DF0CC) == "Rackham"@,
        name_of(0x4D0A60C3) == "Io"@,
        name_of(0xDD7A151E) == "Eugen"@,
        name_of(0xC8616284) == "Rosetta"@,
        name_of(0xC3FFD418) == "Ferry"@,
        name_of(0x22E437E5) == "Lancelot"@,
        name_of(0x2EBE91D5) == "Vane"@,
        name_of(0xBDEF7181) == "Percival"@,
        name_of(0x627BCB0D) == "Siegfried"@,
        name_of(0xFD3BE362) == "Charlotta"@,
        name_of(0xFC6CDF7B) == "Yodarha"@,
        name_of(0xE7053919) == "Narmaya"@,
        name_of(0x978E4B18) == "Ghandagoza"@,
        name_of(0x0D21B430) == "Zeta"@,
        name_of(0xF0EB77EF) == "Vaseraga"@,
        name_of(0xAA66178A) == "Cagliostro"@,
        name_of(0xA3A3CB2F) == "Id"@,
        name_of(0x718E1A14) == "Sandalphon"@,
        name_of(0xBAD16E3B) == "Tweyen"@,
        name_of(0x296471BE) == "Seofon"@,
        name_of(0x74DD4C79) == "Fediel"@,
        name_of(0x1BB37EF0) == "Gallanza"@,
        name_of(0x25D46F4B) == "Maglielle"@,
        name_of(0x9A8AF295) == "Beatrix"@,
        name_of(0x9B15CFB1) == "Eustace"@,
        name_of(0x646C3168) == "Fraux"@,
        name_of(0x28A87C8A) == "罗兰"@,
        name_of(0x3529CC90) == "露莉亚"@,
        name_of(0xF92C7821) == "龙人伊德"@,
        name_of(0x887AE0B0) == "(空)"@,
        char_table().contains(Character { id: 0x2A26B1B2, name: "Gran"@, note: "主角"@ }),
        char_table().contains(Character { id: 0xA4ACBA76, name: "Djeeta"@, note: "主角"@ }),
        char_table().contains(Character { id: 0x18E2F9F9, name: "Katalina"@, note: "卡塔莉娜"@ }),
        char_table().contains(Character { id: 0x079DF0CC, name: "Rackham"@, note: "拉卡姆"@ }),
        char_table().contains(Character { id: 0x4D0A60C3, name: "Io"@, note: "伊欧"@ }),
        char_table().contains(Character { id: 0xDD7A151E, name: "Eugen"@, note: "欧根"@ }),
        char_table().contains(Character { id: 0xC8616284, name: "Rosetta"@, note: "罗塞塔"@ }),
        char_table().contains(Character { id: 0xC3FFD418, name: "Ferry"@, note: "菲莉"@ }),
        char_table().contains(Character { id: 0x22E437E5, name: "Lancelot"@, note: "兰斯洛特"@ }),
        char_table().contains(Character { id: 0x2EBE91D5, name: "Vane"@, note: "巴恩"@ }),
        char_table().contains(Character { id: 0xBDEF7181, name: "Percival"@, note: "珀西瓦尔"@ }),
        char_table().contains(Character { id: 0x627BCB0D, name: "Siegfried"@, note: "齐格飞"@ }),
        char_table().contains(Character { id: 0xFD3BE362, name: "Charlotta"@, note: "夏洛特"@ }),
        char_table().contains(Character { id: 0xFC6CDF7B, name: "Yodarha"@, note: "尤达哈拉"@ }),
        char_table().contains(Character { id: 0xE7053919, name: "Narmaya"@, note: "娜露梅亚"@ }),
        char_table().contains(Character { id: 0x978E4B18, name: "Ghandagoza"@, note: "冈达葛萨"@ }),
        char_table().contains(Character { id: 0x0D21B430, name: "Zeta"@, note: "塞达"@ }),
        char_table().contains(Character { id: 0xF0EB77EF, name: "Vaseraga"@, note: "巴萨拉卡"@ }),
        char_table().contains(Character { id: 0xAA66178A, name: "Cagliostro"@, note: "卡莉奥丝特罗"@ }),
        char_table().contains(Character { id: 0xA3A3CB2F, name: "Id"@, note: "伊德"@ }),
        char_table().contains(Character { id: 0x718E1A14, name: "Sandalphon"@, note: "圣德芬"@ }),
        char_table().contains(Character { id: 0xBAD16E3B, name: "Tweyen"@, note: "索恩"@ }),
        char_table().contains(Character { id: 0x296471BE, name: "Seofon"@, note: "希耶提"@ }),
        char_table().contains(Character { id: 0x74DD4C79, name: "Fediel"@, note: "菲迪埃尔"@ }),
        char_table().contains(Character { id: 0x1BB37EF0, name: "Gallanza"@, note: "伽兰查"@ }),
        char_table().contains(Character { id: 0x25D46F4B, name: "Maglielle"@, note: "玛奇拉菲拉"@ }),
        char_table().contains(Character { id: 0x9A8AF295, name: "Beatrix"@, note: "贝阿朵丽丝"@ }),
        char_table().contains(Character { id: 0x9B15CFB1, name: "Eustace"@, note: "尤斯提斯"@ }),
        char_table().contains(Character { id: 0x646C3168, name: "Fraux"@, note: "芙劳"@ }),
        char_table().contains(Character { id: 0x28A87C8A, name: "罗兰"@, note: "★全功能可用"@ }),
        char_table().contains(Character { id: 0x3529CC90, name: "露莉亚"@, note: "★战斗可用,菜单闪退"@ }),
        char_table().contains(Character { id: 0xF92C7821, name: "龙人伊德"@, note: "非战斗角色"@ }),
        char_table().contains(Character { id: 0x887AE0B0, name: "(空)"@, note: "空槽位"@ }),
{
    let t = char_table();
    assert(t[0] == (Character { id: 0x2A26B1B2, name: "Gran"@, note: "主角"@ }));
    lemma_shown_by_name(0, 0);
    assert(t[1] == (Character { id: 0xA4ACBA76, name: "Djeeta"@, note: "主角"@ }));
    lemma_shown_by_name(1, 0);
    assert(t[2] == (Character { id: 0x18E2F9F9, name: "Katalina"@, note: "卡塔莉娜"@ }));
    lemma_shown_by_name(2, 0);
    assert(t[3] == (Character { id: 0x079DF0CC, name: "Rackham"@, note: "拉卡姆"@ }));
    lemma_shown_by_name(3, 0);
    assert(t[4] == (Character { id: 0x4D0A60C3, name: "Io"@, note: "伊欧"@ }));
    lemma_shown_by_name(4, 0);
    assert(t[5] == (Character { id: 0xDD7A151E, name: "Eugen"@, note: "欧根"@ }));
    lemma_shown_by_name(5, 0);
    assert(t[6] == (Character { id: 0xC8616284, name: "Rosetta"@, note: "罗塞塔"@ }));
    lemma_shown_by_name(6, 0);
    assert(t[7] == (Character { id: 0xC3FFD418, name: "Ferry"@, note: "菲莉"@ }));
    lemma_shown_by_name(7, 0);
    assert(t[8] == (Character { id: 0x22E437E5, name: "Lancelot"@, note: "兰斯洛特"@ }));
    lemma_shown_by_name(8, 0);
    assert(t[9] == (Character { id: 0x2EBE91D5, name: "Vane"@, note: "巴恩"@ }));
    lemma_shown_by_name(9, 0);
    assert(t[10] == (Character { id: 0xBDEF7181, name: "Percival"@, note: "珀西瓦尔"@ }));
    lemma_shown_by_name(10, 0);
    assert(t[11] == (Character { id: 0x627BCB0D, name: "Siegfried"@, note: "齐格飞"@ }));
    lemma_shown_by_name(11, 0);
    assert(t[12] == (Character { id: 0xFD3BE362, name: "Charlotta"@, note: "夏洛特"@ }));
    lemma_shown_by_name(12, 0);
    assert(t[13] == (Character { id: 0xFC6CDF7B, name: "Yodarha"@, note: "尤达哈拉"@ }));
    lemma_shown_by_name(13, 0);
    assert(t[14] == (Character { id: 0xE7053919, name: "Narmaya"@, note: "娜露梅亚"@ }));
    lemma_shown_by_name(14, 0);
    assert(t[15] == (Character { id: 0x978E4B18, name: "Ghandagoza"@, note: "冈达葛萨"@ }));
    lemma_shown_by_name(15, 0);
    assert(t[16] == (Character { id: 0x0D21B430, name: "Zeta"@, note: "塞达"@ }));
    lemma_shown_by_name(16, 0);
    assert(t[17] == (Character { id: 0xF0EB77EF, name: "Vaseraga"@, note: "巴萨拉卡"@ }));
    lemma_shown_by_name(17, 0);
    assert(t[18] == (Character { id: 0xAA66178A, name: "Cagliostro"@, note: "卡莉奥丝特罗"@ }));
    lemma_shown_by_name(18, 0);
    assert(t[19] == (Character { id: 0xA3A3CB2F, name: "Id"@, note: "伊德"@ }));
    lemma_shown_by_name(19, 0);
    assert(t[20] == (Character { id: 0x718E1A14, name: "Sandalphon"@, note: "圣德芬"@ }));
    lemma_shown_by_name(20, 0);
    assert(t[21] == (Character { id: 0xBAD16E3B, name: "Tweyen"@, note: "索恩"@ }));
    lemma_shown_by_name(21, 0);
    assert(t[22] == (Character { id: 0x296471BE, name: "Seofon"@, note: "希耶提"@ }));
    lemma_shown_by_name(22, 0);
    assert(t[23] == (Character { id: 0x74DD4C79, name: "Fediel"@, note: "菲迪埃尔"@ }));
    lemma_shown_by_name(23, 0);
    assert(t[24] == (Character { id: 0x1BB37EF0, name: "Gallanza"@, note: "伽兰查"@ }));
    lemma_shown_by_name(24, 0);
    assert(t[25] == (Character { id: 0x25D46F4B, name: "Maglielle"@, note: "玛奇拉菲拉"@ }));
    lemma_shown_by_name(25, 0);
    assert(t[26] == (Character { id: 0x9A8AF295, name: "Beatrix"@, note: "贝阿朵丽丝"@ }));
    lemma_shown_by_name(26, 0);
    assert(t[27] == (Character { id: 0x9B15CFB1, name: "Eustace"@, note: "尤斯提斯"@ }));
    lemma_shown_by_name(27, 0);
    assert(t[28] == (Character { id: 0x646C3168, name: "Fraux"@, note: "芙劳"@ }));
    lemma_shown_by_name(28, 0);
    assert(t[29] == (Character { id: 0x28A87C8A, name: "罗兰"@, note: "★全功能可用"@ }));
    lemma_shown_by_name(29, 0);
    assert(t[30] == (Character { id: 0x3529CC90, name: "露莉亚"@, note: "★战斗可用,菜单闪退"@ }));
    lemma_shown_by_name(30, 0);
    assert(t[31] == (Character { id: 0xF92C7821, name: "龙人伊德"@, note: "非战斗角色"@ }));
    lemma_shown_by_name(31, 0);
    assert(t[32] == (Character { id: 0x887AE0B0, name: "(空)"@, note: "空槽位"@ }));
    lemma_shown_by_name(32, 0);
}

} // verus!
