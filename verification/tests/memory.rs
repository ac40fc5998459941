use gbfr_sdk::bytes::{find_sub, u32_at, u32_bytes, u64_at, u64_bytes};
use gbfr_sdk::chars::{all_chars, char_name};
use gbfr_sdk::game::{game_status, lyria_switch, set_slot, Answer, Ask, Outcome, KATALINA, LYRIA};
use gbfr_sdk::memory;
use gbfr_sdk::memory::{
    count_written, find_by_name, heap_chunks, heap_regions, is_blank, read_u32, read_u64,
    same_name, Entry, MemInfo, RegionWalk, CHUNK,
};
use gbfr_sdk::snapshot::{mem_committed, mem_readable, Need, Snapshot};
use windows_sys::Win32::System::Memory as win;

#[test]
fn constants_are_those_of_the_system() {
    assert_eq!(memory::MEM_COMMIT, win::MEM_COMMIT);
    assert_eq!(memory::MEM_PRIVATE, win::MEM_PRIVATE);
    assert_eq!(memory::PAGE_READONLY, win::PAGE_READONLY);
    assert_eq!(memory::PAGE_READWRITE, win::PAGE_READWRITE);
    assert_eq!(memory::PAGE_WRITECOPY, win::PAGE_WRITECOPY);
    assert_eq!(memory::PAGE_EXECUTE_READ, win::PAGE_EXECUTE_READ);
    assert_eq!(memory::PAGE_EXECUTE_READWRITE, win::PAGE_EXECUTE_READWRITE);
    assert_eq!(memory::PAGE_EXECUTE_WRITECOPY, win::PAGE_EXECUTE_WRITECOPY);
    assert_eq!(memory::PAGE_GUARD, win::PAGE_GUARD);
}

fn entry(name: &str, value: u64) -> Entry {
    let mut units: Vec<u16> = name.encode_utf16().collect();
    units.resize(260, 0);
    Entry { name: units, value }
}

#[test]
fn processes_are_found_by_name() {
    let entries = vec![
        entry("explorer.exe", 3),
        entry("Granblue_Fantasy_Relink.EXE", 7),
        entry("granblue_fantasy_relink.exe", 9),
        entry("ÄÖ.exe", 11),
    ];
    assert_eq!(find_by_name(&entries, "granblue_fantasy_relink.exe"), Some(7));
    assert_eq!(find_by_name(&entries, "äö.EXE"), Some(11));
    assert_eq!(find_by_name(&entries, "granblue"), None);
    assert!(same_name("A\0\0", "a"));
    assert!(!same_name("A\0b", "a"));
}

fn info(base: usize, size: usize, state: u32, protect: u32, kind: u32) -> MemInfo {
    MemInfo { base, size, state, protect, kind }
}

#[test]
fn regions_are_walked_upwards() {
    let mut w = RegionWalk::new();
    assert!(w.step(info(0, 0x10000, 0x10000, 1, 0)));
    assert!(w.step(info(0x10000, 0x2000, 0x1000, 0x04, 0x20000)));
    assert!(w.step(info(0x12000, 0x1000, 0x1000, 0x02, 0x20000)));
    assert!(w.step(info(0x13000, 0x1000, 0x1000, 0x220, 0x1000000)));
    assert!(w.step(info(0x14000, 0x1000, 0x1000, 0x104, 0x20000)));
    assert!(w.step(info(0x15000, 0x1000, 0x1000, 0x01, 0x20000)));
    assert!(w.step(info(0x16000, 0x1000, 0x2000, 0x04, 0x20000)));
    assert_eq!(w.addr, 0x17000);
    assert!(!w.step(info(0x16000, 0x1000, 0x2000, 0x04, 0x20000)));
    assert_eq!(w.addr, 0x17000);
    assert_eq!(w.regions.len(), 3);
    assert_eq!((w.regions[0].base, w.regions[0].size), (0x10000, 0x2000));
    assert_eq!((w.regions[1].base, w.regions[1].protect), (0x12000, 0x02));
    assert_eq!((w.regions[2].protect, w.regions[2].kind), (0x20, 0x1000000));
    assert_eq!(heap_regions(&w.regions), [(0x10000, 0x2000), (0x12000, 0x1000)]);
}

#[test]
fn heap_is_read_in_parts() {
    let parts = heap_chunks(&vec![(0x1000, CHUNK + 5), (0x9000_0000, 16), (0x1, 0)]);
    assert_eq!(parts, [(0x1000, CHUNK), (0x1000 + CHUNK as u64, 5), (0x9000_0000, 16)]);
    assert!(is_blank(&[0; 32]));
    assert!(is_blank(&[]));
    assert!(!is_blank(&[0, 0, 1]));
}

#[test]
fn values_are_little_endian() {
    assert_eq!(read_u32(Some(vec![1, 2, 3, 4])), Some(0x0403_0201));
    assert_eq!(read_u32(None), None);
    assert_eq!(read_u64(Some(vec![1, 2, 3, 4, 5, 6, 7, 8])), Some(0x0807_0605_0403_0201));
    assert_eq!(read_u64(None), None);
    assert_eq!(u32_bytes(0xDEAD_BEEF), 0xDEAD_BEEFu32.to_le_bytes());
    assert_eq!(u64_bytes(0x0123_4567_89AB_CDEF), 0x0123_4567_89AB_CDEFu64.to_le_bytes());
    assert_eq!(u32_at(&u32_bytes(77_777), 0), 77_777);
    assert_eq!(u64_at(&u64_bytes(u64::MAX - 3), 0), u64::MAX - 3);
    assert_eq!(count_written(&vec![true, false, true]), 2);
    assert_eq!(count_written(&vec![]), 0);
}

#[test]
fn first_occurrence_is_found() {
    assert_eq!(find_sub(b"abcabc", b"bc", 0), Some(1));
    assert_eq!(find_sub(b"abcabc", b"bc", 2), Some(4));
    assert_eq!(find_sub(b"abcabc", b"bc", 5), None);
    assert_eq!(find_sub(b"ab", b"abc", 0), None);
}

#[test]
fn a_snapshot_says_what_it_needs() {
    let mut s = Snapshot::new();
    assert_eq!(mem_readable(0x10000, 4, &s), Err(Need::Query(0x10000)));
    assert_eq!(mem_readable(0x10000, 0, &s), Ok(true));
    s.add_reply(0x10000, Some(info(0x10000, 0x1000, 0x1000, 0x02, 0x20000)));
    assert_eq!(mem_readable(0x10000, 4, &s), Ok(true));
    s.add_reply(0x20000, Some(info(0x20000, 0x1000, 0x1000, 0x104, 0x20000)));
    assert_eq!(mem_readable(0x20000, 4, &s), Ok(false));
    assert_eq!(s.read(0x10000, 4), Err(Need::Bytes(0x10000, 4)));
    s.add_bytes(0xFFFE, vec![1, 2, 3, 4, 5, 6]);
    assert_eq!(s.read(0x10000, 4), Ok(vec![3, 4, 5, 6]));
    assert_eq!(s.read(0x10001, 4), Err(Need::Bytes(0x10001, 4)));
    assert!(mem_committed(Some(info(0, 1, 0x1000, 1, 0))));
    assert!(!mem_committed(Some(info(0, 1, 0x2000, 4, 0))));
    assert!(!mem_committed(None));
}

#[test]
fn characters_have_names() {
    assert_eq!(all_chars().len(), 33);
    assert_eq!(char_name(0x2A26B1B2), "Gran");
    assert_eq!(char_name(0x3529CC90), "露莉亚");
    assert_eq!(char_name(0x887AE0B0), "(空)");
    assert_eq!(char_name(1), "未知");
    let djeeta = &all_chars()[1];
    assert_eq!((djeeta.id, djeeta.name, djeeta.note), (0xA4ACBA76, "Djeeta", "主角"));
}

/// A game: the pointer to its party, and the ids in its memory.
struct Game {
    party: Option<u64>,
    ids: std::collections::HashMap<u64, u32>,
    write_works: bool,
}

impl Game {
    fn new(first: u32) -> Game {
        let mut ids = std::collections::HashMap::new();
        ids.insert(0x5000_0000, first);
        Game { party: Some(0x5000_0000), ids, write_works: true }
    }

    fn answer(&mut self, ask: Ask) -> Answer {
        match ask {
            Ask::Find => Answer::Got(42),
            Ask::Open(pid) => {
                assert_eq!(pid, 42);
                Answer::Got(0)
            }
            Ask::Base => Answer::Got(0x1_4000_0000),
            Ask::ReadU64(a) => {
                assert_eq!(a, 0x1_4701_C420);
                match self.party {
                    Some(p) => Answer::Got(p),
                    None => Answer::Missing,
                }
            }
            Ask::ReadU32(a) => match self.ids.get(&a) {
                Some(v) => Answer::Got(*v as u64),
                None => Answer::Missing,
            },
            Ask::WriteU32(a, v) => {
                if self.write_works {
                    self.ids.insert(a, v);
                    Answer::Got(0)
                } else {
                    Answer::Missing
                }
            }
        }
    }

    fn drive<T>(&mut self, f: &dyn Fn(&Vec<Answer>) -> Outcome<T>) -> T {
        let mut answers = Vec::new();
        loop {
            match f(&answers) {
                Outcome::Done(t) => return t,
                Outcome::Ask(a) => {
                    let answer = self.answer(a);
                    answers.push(answer);
                }
            }
        }
    }
}

#[test]
fn status_lists_the_party() {
    let mut g = Game::new(0x2A26B1B2);
    g.ids.insert(0x5000_0030, 0xA4ACBA76);
    let s = g.drive(&|a| game_status(a));
    assert!(s.running);
    assert_eq!((s.base, s.party_ptr), (Some(0x1_4000_0000), Some(0x5000_0000)));
    assert_eq!(s.slots.len(), 5);
    assert_eq!((s.slots[0].index, s.slots[0].name.as_str()), (0, "Gran"));
    assert_eq!((s.slots[1].id, s.slots[1].name.as_str()), (0, "未知"));
    assert_eq!((s.slots[3].index, s.slots[3].name.as_str()), (3, "Djeeta"));
}

#[test]
fn status_of_a_game_that_is_not_there() {
    let absent = |answers: Vec<Answer>| match game_status(&answers) {
        Outcome::Done(s) => s,
        Outcome::Ask(_) => panic!("expected an end"),
    };
    assert!(!absent(vec![Answer::Missing]).running);
    assert!(!absent(vec![Answer::Got(1), Answer::Missing]).running);
    assert!(!absent(vec![Answer::Got(1), Answer::Failed("denied".to_string())]).running);
    let s = absent(vec![Answer::Got(1), Answer::Got(0), Answer::Missing]);
    assert!(s.running && s.base.is_none() && s.slots.is_empty());
    let mut g = Game::new(5);
    g.party = None;
    let s = g.drive(&|a| game_status(a));
    assert_eq!(s.party_ptr, Some(0));
    assert_eq!(s.slots.len(), 5);
}

#[test]
fn slots_are_set() {
    let mut g = Game::new(1);
    let u = g.drive(&|a| set_slot(2, 0x2A26B1B2, a)).unwrap();
    assert_eq!((u.slot, u.id, u.name.as_str()), (2, 0x2A26B1B2, "Gran"));
    assert_eq!(g.ids[&0x5000_0020], 0x2A26B1B2);
    g.write_works = false;
    assert_eq!(g.drive(&|a| set_slot(2, 1, a)).unwrap_err(), "写入失败");
    assert_eq!(g.drive(&|a| set_slot(5, 1, a)).unwrap_err(), "槽位超出范围: 5");
}

#[test]
fn contact_can_fail() {
    let err = |answers: Vec<Answer>| match set_slot(0, 1, &answers) {
        Outcome::Done(Err(e)) => e,
        _ => panic!("expected an error"),
    };
    assert_eq!(err(vec![Answer::Missing]), "游戏未运行");
    assert_eq!(err(vec![Answer::Got(1), Answer::Failed("denied".to_string())]), "denied");
    assert_eq!(err(vec![Answer::Got(1), Answer::Missing]), "");
    assert_eq!(err(vec![Answer::Got(1), Answer::Got(0), Answer::Missing]), "找不到模块");
    assert_eq!(
        err(vec![Answer::Got(1), Answer::Got(0), Answer::Got(0x1000), Answer::Missing]),
        "队伍指针无效"
    );
}

#[test]
fn lyria_comes_and_goes() {
    let mut g = Game::new(0x2A26B1B2);
    assert_eq!(
        g.drive(&|a| lyria_switch("off", a)).unwrap_err(),
        "没有保存的原角色记录 (隐藏槽为空)"
    );
    assert_eq!(g.ids[&0x5000_0000], 0x2A26B1B2);
    assert_eq!(
        g.drive(&|a| lyria_switch("on", a)).unwrap(),
        "已切换: 2A26B1B2 -> 露莉亚(3529CC90)\n现在可以进战斗, 但不要开菜单!"
    );
    assert_eq!(g.ids[&0x5000_0000], LYRIA);
    assert_eq!(g.ids[&0x5000_0040], 0x2A26B1B2);
    assert_eq!(g.drive(&|a| lyria_switch("on", a)).unwrap(), "已经在用露莉亚了");
    assert_eq!(
        g.drive(&|a| lyria_switch("off", a)).unwrap(),
        "已恢复: 3529CC90 -> 2A26B1B2\n现在可以安全开菜单了"
    );
    assert_eq!(g.ids[&0x5000_0000], 0x2A26B1B2);
    assert_eq!(g.drive(&|a| lyria_switch("maybe", a)).unwrap_err(), "无效模式");
}

#[test]
fn katalina_replaces_lyria_where_nobody_is_on_record() {
    for kept in [0, LYRIA] {
        let mut g = Game::new(LYRIA);
        g.ids.insert(0x5000_0040, kept);
        assert_eq!(
            g.drive(&|a| lyria_switch("off", a)).unwrap(),
            "已恢复: 3529CC90 -> 18E2F9F9\n现在可以安全开菜单了"
        );
        assert_eq!(g.ids[&0x5000_0000], KATALINA);
        assert_eq!(KATALINA, 0x18E2F9F9);
        g.ids.insert(0x5000_0000, 0x2A26B1B2);
        assert!(g.drive(&|a| lyria_switch("off", a)).is_err());
        assert_eq!(g.ids[&0x5000_0000], 0x2A26B1B2);
    }
}

#[test]
fn addresses_are_bounded_one_by_one() {
    let answers = vec![
        Answer::Got(u64::MAX),
        Answer::Got(u64::MAX),
        Answer::Got(0x1_4000_0000),
        Answer::Got(u64::MAX - 0x40),
    ];
    match set_slot(4, 7, &answers) {
        Outcome::Ask(Ask::WriteU32(a, 7)) => assert_eq!(a, u64::MAX),
        _ => panic!("expected a write"),
    }
}
