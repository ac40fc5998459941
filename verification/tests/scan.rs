use gbfr_sdk::log::Log;
use gbfr_sdk::scan::{
    cstr_prefix, do_scan, parse_findlobbies_completed, read_cstr, search_config, search_filter,
    search_key, Scan, ScanEvent, ScanStatus, ScanStep, ROUNDS,
};
use gbfr_sdk::snapshot::{Need, Snapshot};

fn completion_buf(result: u32, count: u32, arr: u64) -> Vec<u8> {
    let mut b = vec![0u8; 0x30];
    b[0..4].copy_from_slice(&12u32.to_le_bytes());
    b[4..8].copy_from_slice(&result.to_le_bytes());
    b[0x20..0x24].copy_from_slice(&count.to_le_bytes());
    b[0x28..0x30].copy_from_slice(&arr.to_le_bytes());
    b
}

const CH: usize = 0x10_0000;
const ARR: usize = 0x20_0000;

fn room(lobby: u64, conn: u64, owner: u64, max: u32, cur: u32) -> Vec<u8> {
    let mut r = vec![0u8; 0x50];
    r[0..8].copy_from_slice(&lobby.to_le_bytes());
    r[8..16].copy_from_slice(&conn.to_le_bytes());
    r[16..24].copy_from_slice(&owner.to_le_bytes());
    r[0x18..0x1C].copy_from_slice(&max.to_le_bytes());
    r[0x1C..0x20].copy_from_slice(&cur.to_le_bytes());
    r
}

fn one_room() -> Snapshot {
    let mut snap = Snapshot::new();
    snap.add_bytes(CH, completion_buf(0, 1, ARR as u64));
    snap.add_bytes(ARR, room(0x30_0000, 0x31_0000, 0x32_0000, 4, 2));
    snap.add_text(0x30_0000, b"lobby-abc\0".to_vec());
    snap.add_text(0x31_0000, b"conn-xyz\0".to_vec());
    snap.add_bytes(0x32_0000, 0x33_0000u64.to_le_bytes().to_vec());
    snap.add_text(0x33_0000, b"owner-42\0".to_vec());
    snap
}

#[test]
fn valid_completion_yields_one_room() {
    let mut out = Vec::new();
    match parse_findlobbies_completed(CH, &mut out, &one_room()) {
        Ok(ScanStatus::Completed { result, count }) => {
            assert_eq!(result, 0);
            assert_eq!(count, 1);
        }
        _ => panic!("expected Completed"),
    }
    assert_eq!(out.len(), 1);
    assert_eq!(out[0].lobby_id, "lobby-abc");
    assert_eq!(out[0].conn, "conn-xyz");
    assert_eq!(out[0].owner_id, "owner-42");
    assert_eq!(out[0].max_members, 4);
    assert_eq!(out[0].cur_members, 2);
}

#[test]
fn null_results_rejected() {
    let mut snap = Snapshot::new();
    snap.add_bytes(CH, completion_buf(0, 3, 0));
    let mut out = Vec::new();
    match parse_findlobbies_completed(CH, &mut out, &snap) {
        Ok(ScanStatus::Rejected { reason }) => assert!(reason.contains("searchResults")),
        _ => panic!("expected Rejected"),
    }
    assert!(out.is_empty());
}

#[test]
fn oversized_count_rejected() {
    let mut snap = Snapshot::new();
    snap.add_bytes(CH, completion_buf(0, 1001, 0x1000));
    let mut out = Vec::new();
    match parse_findlobbies_completed(CH, &mut out, &snap) {
        Ok(ScanStatus::Rejected { reason }) => assert!(reason.contains("1000")),
        _ => panic!("expected Rejected"),
    }
    assert!(out.is_empty());
}

#[test]
fn null_change_or_other_type_is_not_ours() {
    let mut out = Vec::new();
    assert!(matches!(
        parse_findlobbies_completed(0, &mut out, &Snapshot::new()),
        Ok(ScanStatus::NotOurs)
    ));
    let mut b = vec![0u8; 0x30];
    b[0..4].copy_from_slice(&5u32.to_le_bytes());
    let mut snap = Snapshot::new();
    snap.add_bytes(CH, b);
    assert!(matches!(
        parse_findlobbies_completed(CH, &mut out, &snap),
        Ok(ScanStatus::NotOurs)
    ));
}

#[test]
fn read_cstr_guards_bad_pointers() {
    assert_eq!(read_cstr(0, &Snapshot::new()), Ok(String::new()));
    assert_eq!(read_cstr(0x1000, &Snapshot::new()), Ok(String::new()));
}

#[test]
fn strings_end_at_a_zero_or_at_the_limit() {
    let mut snap = Snapshot::new();
    assert_eq!(read_cstr(0x5_0000, &snap), Err(Need::Text(0x5_0000)));
    snap.add_text(0x5_0000, b"ab\0cd".to_vec());
    assert_eq!(read_cstr(0x5_0000, &snap), Ok("ab".to_string()));
    snap.add_text(0x6_0000, vec![0x41; 600]);
    assert_eq!(read_cstr(0x6_0000, &snap).unwrap().len(), 512);
    snap.add_text(0x7_0000, b"a\xFFb\0".to_vec());
    assert_eq!(read_cstr(0x7_0000, &snap), Ok("a\u{FFFD}b".to_string()));
    snap.add_text(0x8_0000, "羅順蘭\0".as_bytes().to_vec());
    assert_eq!(read_cstr(0x8_0000, &snap), Ok("羅順蘭".to_string()));
    assert_eq!(cstr_prefix(b""), b"");
}

#[test]
fn what_is_missing_is_asked_for_in_turn() {
    let mut out = Vec::new();
    let mut snap = Snapshot::new();
    let need = |s: &Snapshot, o: &mut Vec<gbfr_sdk::scan::RoomInfo>| {
        parse_findlobbies_completed(CH, o, s).err()
    };
    assert_eq!(need(&snap, &mut out), Some(Need::Bytes(CH, 4)));
    snap.add_bytes(CH, 12u32.to_le_bytes().to_vec());
    assert_eq!(need(&snap, &mut out), Some(Need::Bytes(CH, 0x30)));
    snap.add_bytes(CH, completion_buf(0, 2, ARR as u64));
    assert_eq!(need(&snap, &mut out), Some(Need::Bytes(ARR, 0x20)));
    snap.add_bytes(ARR, room(0, 0, 0x32_0000, 4, 2));
    assert_eq!(need(&snap, &mut out), Some(Need::Bytes(0x32_0000, 8)));
    snap.add_bytes(0x32_0000, vec![0; 8]);
    assert_eq!(need(&snap, &mut out), Some(Need::Bytes(ARR + 0x50, 0x20)));
    snap.add_bytes(ARR + 0x50, room(0, 0, 0, 1, 1));
    assert_eq!(need(&snap, &mut out), None);
    assert_eq!(out.len(), 2);
    assert_eq!(out[0].owner_id, "");
}

#[test]
fn low_pointers_are_not_followed() {
    let mut snap = Snapshot::new();
    snap.add_bytes(CH, completion_buf(0, 1, ARR as u64));
    snap.add_bytes(ARR, room(0xFFFF, 1, 0xFFFF, 4, 2));
    let mut out = Vec::new();
    assert!(parse_findlobbies_completed(CH, &mut out, &snap).is_ok());
    assert_eq!((out[0].lobby_id.as_str(), out[0].owner_id.as_str()), ("", ""));
}

#[test]
fn at_most_a_hundred_rooms_are_read() {
    let mut snap = Snapshot::new();
    snap.add_bytes(CH, completion_buf(7, 1000, ARR as u64));
    snap.add_bytes(ARR, vec![0; 0x50 * 100]);
    let mut out = Vec::new();
    assert!(matches!(
        parse_findlobbies_completed(CH, &mut out, &snap),
        Ok(ScanStatus::Completed { result: 7, count: 1000 })
    ));
    assert_eq!(out.len(), 100);
}

#[test]
fn configuration_has_its_fields_in_place() {
    let c = search_config(0x1122_3344_5566_7788, 0x99AA);
    assert_eq!(c.len(), 0x30);
    assert_eq!(&c[0..8], &[0x88, 0x77, 0x66, 0x55, 0x44, 0x33, 0x22, 0x11]);
    assert_eq!(&c[8..16], &[0xAA, 0x99, 0, 0, 0, 0, 0, 0]);
    assert_eq!(c[0x10], 1);
    assert_eq!(c[0x28], 50);
    assert_eq!(c.iter().filter(|b| **b != 0).count(), 12);
    assert_eq!(search_filter(), "lobby/maxMembers gt 0");
    assert_eq!(search_key(), "lobby/maxMembers");
}

#[test]
fn a_search_that_finds_a_room() {
    let mut s = Scan::new();
    let mut log = Log::new();
    let mut snap = one_room();
    snap.add_bytes(0x40_0000, (CH as u64).to_le_bytes().to_vec());
    let r = do_scan(&mut s, ScanEvent::Begin(5, true), &snap, &mut log);
    assert_eq!(r, Ok(ScanStep::FindLobbies(5)));
    assert!(s.in_progress);
    let r = do_scan(&mut s, ScanEvent::Begin(5, true), &snap, &mut log);
    assert_eq!(r, Ok(ScanStep::Done));
    assert!(s.in_progress);
    let r = do_scan(&mut s, ScanEvent::Found(0), &snap, &mut log);
    assert_eq!(r, Ok(ScanStep::Poll(50)));
    let r = do_scan(&mut s, ScanEvent::Polled(-1, 0, 0), &snap, &mut log);
    assert_eq!(r, Ok(ScanStep::Poll(50)));
    let r = do_scan(&mut s, ScanEvent::Polled(0, 0, 0), &snap, &mut log);
    assert_eq!(r, Ok(ScanStep::Poll(50)));
    assert_eq!(s.round, 2);
    let r = do_scan(&mut s, ScanEvent::Polled(0, 1, 0x41_0000), &snap, &mut log);
    assert_eq!(r, Err(Need::Bytes(0x41_0000, 8)));
    let r = do_scan(&mut s, ScanEvent::Polled(0, 1, 0x40_0000), &snap, &mut log);
    assert_eq!(r, Ok(ScanStep::Finish(1, 0x40_0000)));
    let r = do_scan(&mut s, ScanEvent::Finished, &snap, &mut log);
    assert_eq!(r, Ok(ScanStep::Done));
    assert!(!s.in_progress);
    let warning = "[scan] CONSUMPTION WARNING: this scan consumes ALL pending lobby state changes (single-consumer queue)";
    assert_eq!(
        log.lines,
        [
            warning,
            warning,
            "[scan] already in progress",
            "[scan] FindLobbies ret=0x0 (0=成功, 负=错误)",
            "[scan] FindLobbiesCompleted result=0 count=1",
            "[scan]   room[0] lobbyId=lobby-abc owner=owner-42 members=2/4 conn=conn-xyz",
        ]
    );
}

#[test]
fn a_search_that_cannot_begin() {
    let mut s = Scan::new();
    let mut log = Log::new();
    let snap = Snapshot::new();
    assert_eq!(do_scan(&mut s, ScanEvent::Begin(0, true), &snap, &mut log), Ok(ScanStep::Done));
    assert_eq!(do_scan(&mut s, ScanEvent::Begin(5, false), &snap, &mut log), Ok(ScanStep::Done));
    assert_eq!(log.lines[1], "[scan] handle not ready");
    assert_eq!(log.lines[3], "[scan] FindLobbies not resolved");
    do_scan(&mut s, ScanEvent::Begin(5, true), &snap, &mut log).unwrap();
    assert_eq!(
        do_scan(&mut s, ScanEvent::Found(-1993710588), &snap, &mut log),
        Ok(ScanStep::Done)
    );
    assert!(!s.in_progress);
    assert_eq!(log.lines[5], "[scan] FindLobbies ret=0x892A6404 (0=成功, 负=错误)");
}

#[test]
fn a_search_times_out() {
    let mut s = Scan::new();
    let mut log = Log::new();
    let snap = Snapshot::new();
    do_scan(&mut s, ScanEvent::Begin(5, true), &snap, &mut log).unwrap();
    let mut step = do_scan(&mut s, ScanEvent::Found(0), &snap, &mut log).unwrap();
    let mut polls = 0;
    while step == ScanStep::Poll(50) {
        polls += 1;
        step = do_scan(&mut s, ScanEvent::Polled(0, 0, 0), &snap, &mut log).unwrap();
    }
    assert_eq!(polls, ROUNDS);
    assert_eq!(step, ScanStep::Done);
    assert!(!s.in_progress);
    assert_eq!(log.lines[2], "[scan] timeout waiting FindLobbiesCompleted");
}

#[test]
fn a_rejected_result_ends_the_search() {
    let mut s = Scan::new();
    let mut log = Log::new();
    let mut snap = Snapshot::new();
    snap.add_bytes(CH, completion_buf(0, 1001, 1));
    let mut list = 0u64.to_le_bytes().to_vec();
    list.extend_from_slice(&(CH as u64).to_le_bytes());
    snap.add_bytes(0x40_0000, list);
    do_scan(&mut s, ScanEvent::Begin(5, true), &snap, &mut log).unwrap();
    do_scan(&mut s, ScanEvent::Found(0), &snap, &mut log).unwrap();
    do_scan(&mut s, ScanEvent::Polled(0, 2, 0x40_0000), &snap, &mut log).unwrap();
    assert_eq!(do_scan(&mut s, ScanEvent::Finished, &snap, &mut log), Ok(ScanStep::Done));
    assert_eq!(
        log.lines[2],
        "[scan] FindLobbiesCompleted rejected: count=1001 exceeds 1000 (state anomaly, see B27/B28)"
    );
}

#[test]
fn other_changes_are_handed_back_and_the_search_goes_on() {
    let mut s = Scan::new();
    let mut log = Log::new();
    let mut snap = Snapshot::new();
    snap.add_bytes(0x40_0000, vec![0; 8]);
    do_scan(&mut s, ScanEvent::Begin(5, true), &snap, &mut log).unwrap();
    do_scan(&mut s, ScanEvent::Found(0), &snap, &mut log).unwrap();
    let r = do_scan(&mut s, ScanEvent::Polled(0, 1, 0x40_0000), &snap, &mut log);
    assert_eq!(r, Ok(ScanStep::Finish(1, 0x40_0000)));
    assert_eq!(do_scan(&mut s, ScanEvent::Finished, &snap, &mut log), Ok(ScanStep::Poll(50)));
    assert_eq!(s.round, 1);
}
