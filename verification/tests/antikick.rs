use gbfr_sdk::antikick::{
    ak_check, ak_slot_held, classify_kick_path, install, install_allowed, may_suppress,
    next_enabled, set_enabled, set_experimental, unhook, Antikick, KickPath,
};
use gbfr_sdk::detour::{install_capture, Hook, Next, Op, Reply, Start};
use gbfr_sdk::guard::{
    back_addr, diag_peek, guard_install_allowed, guard_installed, guard_restored,
    native_guard_on, native_guard_uninstall, native_leave_call_sig, override_result, peek_hex,
    sig_match, signature, take_report, verify_sigs, Guard, AK2_BACK_RVA, AK2_CALL_RVA,
    AK2_MEMCMP_RVA, AK2_SIG_COUNT, NATIVE_LEAVE_CALL_RVA,
};
use gbfr_sdk::log::Log;
use gbfr_sdk::memory::{MemInfo, MEM_COMMIT, PAGE_READWRITE};
use gbfr_sdk::snapshot::{ptr_safe, range_readable, Need, Snapshot};
use windows_sys::Win32::System::Memory::{MEM_RESERVE, PAGE_NOACCESS};

fn hook(target: usize, near: usize) -> Hook {
    let (_, mut next) = install_capture(target, 6);
    let mut patch: Vec<u8> = Vec::new();
    let replies = vec![
        Reply::Addr(near),
        Reply::Bytes(vec![0x40, 0x55, 0x56, 0x57, 0x41, 0x54]),
        Reply::Protect(Some(0x20)),
        Reply::Protect(Some(0x40)),
    ];
    for reply in replies {
        next = match next {
            Next::More(i) => {
                let (ops, n) = i.step(reply);
                for op in ops {
                    match op {
                        Op::Write(a, b) => {
                            if a == target {
                                patch = b;
                            }
                        }
                        _ => {}
                    }
                }
                n
            }
            Next::Done(_) => panic!("too early"),
        };
    }
    match next {
        Next::More(i) => match i.step(Reply::Bytes(patch)).1 {
            Next::Done(Some(h)) => h,
            _ => panic!("not installed"),
        },
        Next::Done(_) => panic!("too early"),
    }
}

fn region(base: usize, size: usize) -> MemInfo {
    MemInfo { base, size, state: MEM_COMMIT, protect: PAGE_READWRITE, kind: 0x20000 }
}

#[test]
fn unhook_null_slot_is_noop() {
    assert!(!ak_slot_held(&None));
    assert!(ak_slot_held(&Some(hook(0x1000_0000, 0x2000_0000))));
    let mut ak = Antikick::new();
    let mut log = Log::new();
    unhook(&mut ak, true, &mut log);
    unhook(&mut ak, true, &mut log);
    assert_eq!(log.lines, ["[ak] already unhooked", "[ak] already unhooked"]);
    assert!(ak.hook.is_none());
}

#[test]
fn unhook_clears_only_what_was_restored() {
    let mut ak = Antikick::new();
    let mut log = Log::new();
    set_experimental(&mut ak, true, &mut log);
    ak.hook = Some(hook(0x1000_0000, 0x2000_0000));
    ak.near = 0x2000_0000;
    ak.tramp = 0x2000_0030;
    install(&mut ak, 0x1800_0000, &mut log);
    assert_eq!(ak.enabled, 1);
    unhook(&mut ak, false, &mut log);
    assert!(ak.hook.is_some());
    assert_eq!(ak.enabled, 1);
    unhook(&mut ak, true, &mut log);
    assert!(ak.hook.is_none());
    assert_eq!((ak.near, ak.tramp, ak.enabled), (0, 0, 0));
    let n = log.lines.len();
    assert_eq!(log.lines[n - 2], "[ak] hook restore FAILED — slot retained");
    assert_eq!(log.lines[n - 1], "[ak] hook restored");
}

#[test]
fn install_refused_when_flag_off() {
    assert!(!install_allowed(false, true));
    assert!(!install_allowed(false, false));
    assert!(!install_allowed(true, false));
    assert!(install_allowed(true, true));
}

#[test]
fn install_never_starts_a_new_hook() {
    let mut ak = Antikick::new();
    let mut log = Log::new();
    install(&mut ak, 0x1800_0000, &mut log);
    assert!(log.lines[0].starts_with("[ak] REFUSED: antikick is EXPERIMENTAL and DISABLED"));
    set_experimental(&mut ak, true, &mut log);
    install(&mut ak, 0x1800_0000, &mut log);
    assert_eq!(
        log.lines[2],
        "[ak] REFUSED: legacy SDK MemberRemoved factory is quarantined"
    );
    assert_eq!(ak.enabled, 0);
}

#[test]
fn set_experimental_off_forces_disabled() {
    assert_eq!(next_enabled(false, 0), 0);
    assert_eq!(next_enabled(false, 1), 0);
    assert_eq!(next_enabled(true, 0), 0);
    assert_eq!(next_enabled(true, 1), 1);
}

#[test]
fn off_always_wins() {
    let mut ak = Antikick::new();
    let mut log = Log::new();
    set_enabled(&mut ak, true, &mut log);
    assert_eq!(ak.enabled, 0);
    set_experimental(&mut ak, true, &mut log);
    set_enabled(&mut ak, true, &mut log);
    assert_eq!(ak.enabled, 1);
    set_experimental(&mut ak, false, &mut log);
    assert_eq!(ak.enabled, 0);
    assert_eq!(log.lines[0], "[ak] disabled");
    assert_eq!(log.lines[2], "[ak] enabled");
    assert_eq!(log.lines[3], "[ak] disabled");
    assert_eq!(log.lines[4], "[ak] EXPERIMENTAL MODE OFF — hook stays installed but disabled");
}

#[test]
fn my_id_guard() {
    assert!(!ptr_safe(0, true));
    assert!(!ptr_safe(0, false));
    assert!(!ptr_safe(0x8000, true));
    assert!(!ptr_safe(0x10000, false));
    assert!(ptr_safe(0x10000, true));
    assert!(ptr_safe(0x7FFF_FFFF_FFFF, true));
}

#[test]
fn readable_range_rejects_reserved_and_accepts_committed() {
    let reserved = MemInfo {
        base: 0x20_0000,
        size: 0x1000,
        state: MEM_RESERVE,
        protect: PAGE_NOACCESS,
        kind: 0x20000,
    };
    assert!(!range_readable(Some(reserved), 0x20_0000, 1));
    let committed = region(0x30_0000, 0x1000);
    assert!(range_readable(Some(committed), 0x30_0000, 8));
    assert!(!range_readable(Some(committed), 0x30_0000 + 0xFFC, 8));
    assert!(!range_readable(None, 0x30_0000, 8));
    assert!(range_readable(None, 0x30_0000, 0));
    let top = MemInfo { base: usize::MAX - 0xFFF, size: 0x1000, ..committed };
    assert!(!range_readable(Some(top), usize::MAX - 4, 8));
}

#[test]
fn classify_exhaustive_table() {
    assert_eq!(classify_kick_path(false, false, false), KickPath::Inconclusive);
    assert_eq!(classify_kick_path(true, false, false), KickPath::NativeInstructionObserved);
    assert_eq!(classify_kick_path(false, true, false), KickPath::LocalLeaveObserved);
    assert_eq!(classify_kick_path(true, true, false), KickPath::NativeInstructionObserved);
    assert_eq!(classify_kick_path(false, false, true), KickPath::OfficialMemberRemovedObserved);
    assert_eq!(classify_kick_path(true, false, true), KickPath::Inconclusive);
    assert_eq!(classify_kick_path(false, true, true), KickPath::OfficialMemberRemovedObserved);
    assert_eq!(classify_kick_path(true, true, true), KickPath::Inconclusive);
}

#[test]
fn may_suppress_only_native() {
    assert!(may_suppress(KickPath::NativeInstructionObserved));
    assert!(!may_suppress(KickPath::NothingObserved));
    assert!(!may_suppress(KickPath::LocalLeaveObserved));
    assert!(!may_suppress(KickPath::OfficialMemberRemovedObserved));
    assert!(!may_suppress(KickPath::Inconclusive));
}

#[test]
fn official_signal_never_suppressible() {
    for n in [false, true] {
        for l in [false, true] {
            assert!(!may_suppress(classify_kick_path(n, l, true)));
        }
    }
}

#[test]
fn absence_of_leave_alone_is_not_success() {
    assert!(!may_suppress(classify_kick_path(false, false, false)));
    assert!(!may_suppress(classify_kick_path(false, true, true)));
    assert!(!may_suppress(classify_kick_path(true, false, true)));
    assert!(!may_suppress(classify_kick_path(true, true, true)));
}

#[test]
fn sig_match_accepts_exact_bytes() {
    for i in 0..AK2_SIG_COUNT {
        let (_, sig) = signature(i);
        assert!(sig_match(&sig, &sig));
    }
    assert_eq!(signature(0).1, [0xE8, 0xA1, 0xFD, 0xE5, 0x00]);
    assert_eq!(signature(1).1, [0x85, 0xC0]);
    assert_eq!(signature(2).1, [0x0F, 0x85, 0xD2, 0x01, 0x00, 0x00]);
    assert_eq!(signature(3).1, [0x4C, 0x39, 0xE3]);
    assert_eq!(signature(4).1, b"id_container");
}

#[test]
fn sig_match_rejects_length_mismatch() {
    let target = signature(0).1;
    assert!(!sig_match(&target, &target[..4]));
    let longer = [0xE8, 0x48, 0x6A, 0xFF, 0xFF, 0x00];
    assert!(!sig_match(&target, &longer));
    assert!(!sig_match(&[], &[1]));
    assert!(!sig_match(&[1], &[]));
}

#[test]
fn sig_match_rejects_each_byte_flip() {
    for k in 0..AK2_SIG_COUNT {
        let (rva, sig) = signature(k);
        for i in 0..sig.len() {
            let mut bad = sig.to_vec();
            bad[i] ^= 0xFF;
            assert!(!sig_match(&sig, &bad), "rva 0x{:X} byte {} must matter", rva, i);
        }
    }
}

#[test]
fn sig_match_empty_arrays() {
    assert!(sig_match(&[], &[]));
}

#[test]
fn sig_table_consistent() {
    let mut rvas: Vec<u64> = Vec::new();
    for i in 0..AK2_SIG_COUNT {
        let (rva, sig) = signature(i);
        assert!(sig.len() >= 2, "rva 0x{:X} sig too short (len={})", rva, sig.len());
        assert!(!rvas.contains(&rva), "duplicate rva 0x{:X}", rva);
        rvas.push(rva);
    }
    assert_eq!(AK2_SIG_COUNT, 5);
}

#[test]
fn guard_install_allowed_table() {
    for &gb in &[0u64, 0x140_0000_00] {
        for &sigs in &[false, true] {
            for &installed in &[false, true] {
                assert_eq!(
                    guard_install_allowed(gb, sigs, installed),
                    gb != 0 && sigs && !installed,
                    "gb={} sigs={} installed={}",
                    gb,
                    sigs,
                    installed
                );
            }
        }
    }
}

#[test]
fn double_install_guard() {
    assert!(!guard_install_allowed(0x140_0000_00, true, true));
    assert!(!guard_install_allowed(0x140_0000_00, false, true));
}

#[test]
fn override_result_table() {
    assert_eq!(override_result(false, 0), 0);
    assert_eq!(override_result(false, 1), 1);
    assert_eq!(override_result(true, 1), 1);
    assert_eq!(override_result(true, 0), 1);
}

#[test]
fn back_addr_adds_hook_len() {
    assert_eq!(back_addr(0x1234_5678), 0x1234_567D);
    assert_eq!(back_addr(AK2_CALL_RVA), AK2_BACK_RVA);
    assert_eq!(AK2_BACK_RVA, 0x3B4B5BF);
}

#[test]
fn leave_call_is_recorded() {
    assert_eq!(NATIVE_LEAVE_CALL_RVA, 0x3B3B4FA);
    assert_eq!(
        native_leave_call_sig(),
        [0x45, 0x31, 0xC0, 0xE8, 0xE1, 0x21, 0xE7, 0x00, 0x85, 0xC0]
    );
}

fn game_memory(base: u64) -> Snapshot {
    let mut snap = Snapshot::new();
    for i in 0..AK2_SIG_COUNT {
        let (rva, sig) = signature(i);
        snap.add_bytes((base + rva) as usize, sig);
    }
    snap
}

#[test]
fn verify_sigs_names_the_first_mismatch() {
    let base = 0x1_4000_0000u64;
    assert_eq!(verify_sigs(0, &Snapshot::new()), Ok(Some(0)));
    assert_eq!(
        verify_sigs(base, &Snapshot::new()),
        Err(Need::Bytes((base + AK2_CALL_RVA) as usize, 5))
    );
    assert_eq!(verify_sigs(base, &game_memory(base)), Ok(None));
    let mut snap = Snapshot::new();
    snap.add_bytes((base + signature(0).0) as usize, signature(0).1);
    snap.add_bytes((base + signature(1).0) as usize, vec![0x85, 0xC1]);
    assert_eq!(verify_sigs(base, &snap), Ok(Some(0x3B4B5BF)));
}

#[test]
fn native_guard_life() {
    let base = 0x1_4000_0000u64;
    let range = Some((base, 0x1000_0000usize));
    let snap = game_memory(base);
    let mut g = Guard::new();
    let mut log = Log::new();

    assert!(matches!(
        native_guard_on(&mut g, 0, range, 7, &snap, &mut log),
        Ok(Start::Done(false))
    ));
    assert_eq!(log.lines[0], "[ak2] REFUSED: granblue_fantasy_relink.exe not loaded");

    assert!(matches!(
        native_guard_on(&mut g, base, None, 7, &snap, &mut log),
        Ok(Start::Done(false))
    ));
    assert_eq!(
        log.lines[1],
        "[detour] PREFLIGHT FAIL target=0x143B4B5BA module=granblue_fantasy_relink.exe module not loaded"
    );

    assert!(matches!(
        native_guard_on(&mut g, base, range, 7, &snap, &mut log),
        Ok(Start::Install(_, Next::More(_)))
    ));
    assert_eq!(g.real, base + AK2_MEMCMP_RVA);
    assert_eq!(g.back, 0x1_43B4_B5BF);
    assert_eq!(g.enabled, 0);

    guard_installed(&mut g, base, None, &mut log);
    assert_eq!(g.enabled, 0);
    assert_eq!(log.lines[2], "[ak2] install FAILED (near alloc)");

    let h = hook((base + AK2_CALL_RVA) as usize, 0x1_5000_0000);
    guard_installed(&mut g, base, Some(h), &mut log);
    assert_eq!((g.near, g.enabled), (0x1_5000_0000, 1));
    assert_eq!(
        log.lines[3],
        "[ak2] native guard installed at 0x143B4B5BA enabled=1 real=0x1449AB360 back=0x143B4B5BF"
    );

    assert!(matches!(
        native_guard_on(&mut g, base, range, 7, &snap, &mut log),
        Ok(Start::Done(true))
    ));
    assert_eq!(log.lines[4], "[ak2] already installed (enabled=1)");

    g.calls = 12;
    g.matches = 3;
    assert!(native_guard_uninstall(&mut g, &mut log));
    assert_eq!(g.enabled, 0);
    guard_restored(&mut g, false, &mut log);
    assert!(g.hook.is_some());
    guard_restored(&mut g, true, &mut log);
    assert!(g.hook.is_none());
    assert_eq!((g.near, g.real, g.back, g.reports), (0, 0, 0, false));
    assert_eq!(log.lines[5], "[ak2] native guard restore FAILED — slot retained");
    assert_eq!(log.lines[6], "[ak2] counters calls=12 matches=3");
    assert_eq!(log.lines[7], "[ak2] native guard removed");
    assert!(!native_guard_uninstall(&mut g, &mut log));
    assert_eq!(log.lines[8], "[ak2] already removed");
}

#[test]
fn native_guard_refuses_another_game() {
    let base = 0x1_4000_0000u64;
    let mut snap = Snapshot::new();
    snap.add_bytes((base + AK2_CALL_RVA) as usize, vec![0xE8, 0, 0, 0, 0]);
    let mut g = Guard::new();
    let mut log = Log::new();
    let r = native_guard_on(&mut g, base, Some((base, 0x1000_0000)), 7, &snap, &mut log);
    assert!(matches!(r, Ok(Start::Done(false))));
    assert_eq!(log.lines, ["[ak2] REFUSED: signature mismatch at game_base+0x3B4B5BA"]);
    assert_eq!(g.enabled, 0);
}

#[test]
fn keymatch_is_reported_in_hex() {
    let mut snap = Snapshot::new();
    assert_eq!(peek_hex(0x50000, &snap), Err(Need::Query(0x50000)));
    snap.add_reply(0x50000, Some(region(0x50000, 0x1000)));
    assert_eq!(peek_hex(0x50000, &snap), Err(Need::Bytes(0x50000, 12)));
    snap.add_bytes(0x50000, b"id_container".to_vec());
    assert_eq!(peek_hex(0x50000, &snap), Ok(Some("69645F636F6E7461696E6572".to_string())));
    snap.add_reply(0x60000, Some(region(0x60000, 0x1000)));
    snap.add_bytes(0x60000, b"ab\0\x01\x02\x03\x04\x05\x06\x07\x08\x09".to_vec());
    assert_eq!(
        diag_peek(0x50000, 0x60000, &snap),
        Ok(Some("[ak2] keymatch key1=69645F636F6E7461696E6572 key2=6162".to_string()))
    );
    snap.add_reply(0x70000, Some(region(0x70000, 0x1000)));
    snap.add_bytes(0x70000, b"a\x01cdefghijkl".to_vec());
    assert_eq!(peek_hex(0x70000, &snap), Ok(None));
    assert_eq!(diag_peek(0x50000, 0x70000, &snap), Ok(None));
}

#[test]
fn only_eight_keymatches_are_reported() {
    let mut used = 0;
    for _ in 0..8 {
        assert!(take_report(&mut used));
    }
    assert!(!take_report(&mut used));
    assert_eq!(used, 9);
}

fn ids(a: &[u8], b: &[u8]) -> Snapshot {
    let mut snap = Snapshot::new();
    snap.add_reply(0x10_0000, Some(region(0x10_0000, 0x1000)));
    snap.add_bytes(0x10_0000, 0x20_0000u64.to_le_bytes().to_vec());
    for i in 0..80 {
        snap.add_reply(0x20_0000 + i, Some(region(0x20_0000, 0x1000)));
        snap.add_reply(0x30_0000 + i, Some(region(0x30_0000, 0x1000)));
    }
    snap.add_bytes(0x20_0000, a.to_vec());
    snap.add_bytes(0x30_0000, b.to_vec());
    snap
}

#[test]
fn own_id_is_recognised() {
    let mut log = Log::new();
    let same = ids(b"0123456789abcdef\0", b"0123456789abcdef\0");
    assert_eq!(ak_check(0x10_0000, 0x30_0000, &same, &mut log), Ok(1));
    let other = ids(b"0123456789abcdef\0", b"0123456789abcdee\0");
    assert_eq!(ak_check(0x10_0000, 0x30_0000, &other, &mut log), Ok(0));
    let prefix = ids(b"0123\0", b"01234\0");
    assert_eq!(ak_check(0x10_0000, 0x30_0000, &prefix, &mut log), Ok(0));
    assert!(log.lines.is_empty());
}

#[test]
fn long_and_missing_ids_are_not_recognised() {
    let mut log = Log::new();
    let long = ids(&[0x41; 80], &[0x41; 80]);
    assert_eq!(ak_check(0x10_0000, 0x30_0000, &long, &mut log), Ok(0));
    assert_eq!(ak_check(0, 0x30_0000, &long, &mut log), Ok(0));
    assert_eq!(ak_check(0x10_0000, 0, &long, &mut log), Ok(0));
    assert!(log.lines.is_empty());
    assert_eq!(
        ak_check(0x10_0000, 0x99_0000, &long, &mut log),
        Err(Need::Query(0x99_0000))
    );
    assert!(log.lines.is_empty());
    let mut freed = ids(b"a\0", b"a\0");
    freed.add_reply(0x99_0000, None);
    assert_eq!(ak_check(0x10_0000, 0x99_0000, &freed, &mut log), Ok(0));
    assert_eq!(log.lines, ["[ak] MY_ID invalid, pass-through"]);
}
