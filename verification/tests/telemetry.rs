use gbfr_sdk::detour::{install_capture, Hook, Next, Op, Reply, Start};
use gbfr_sdk::log::Log;
use gbfr_sdk::memory::{MemInfo, MEM_COMMIT, PAGE_READWRITE};
use gbfr_sdk::snapshot::{Need, Snapshot};
use gbfr_sdk::telemetry::{
    budget_allowed, budget_take, classify_type, count_in_range, entry_type_guarded, finish_poll,
    finish_probe, finish_report, install, install_leave_only, installed, leave_only_installed,
    rolled_back, tel_install_allowed, tel_installed_line, tel_leave, tel_leave_install_allowed,
    try_install_finish, try_install_leave, unhook, TelContext, TelKind, Telemetry, UnhookEvent,
    UnhookStep, TEL_BUDGET_CAP, TEL_FINISH_PROBE_CAP,
};
use windows_sys::Win32::System::Memory::{MEM_RESERVE, PAGE_NOACCESS};

fn hook(target: usize, near: usize) -> Hook {
    let (_, mut next) = install_capture(target, 6);
    let mut patch: Vec<u8> = Vec::new();
    let replies = vec![
        Reply::Addr(near),
        Reply::Bytes(vec![0x40, 0x55, 0x56, 0x57, 0x41, 0x54]),
        Reply::Protect(Some(0x20)),
        Reply::Protect(Some(0x40)),
    ];
    for reply in replies {
        next = match next {
            Next::More(i) => {
                let (ops, n) = i.step(reply);
                for op in ops {
                    match op {
                        Op::Write(a, b) => {
                            if a == target {
                                patch = b;
                            }
                        }
                        _ => {}
                    }
                }
                n
            }
            Next::Done(_) => panic!("too early"),
        };
    }
    match next {
        Next::More(i) => match i.step(Reply::Bytes(patch)).1 {
            Next::Done(Some(h)) => h,
            _ => panic!("not installed"),
        },
        Next::Done(_) => panic!("too early"),
    }
}

fn region(base: usize) -> Option<MemInfo> {
    Some(MemInfo { base, size: 0x1000, state: MEM_COMMIT, protect: PAGE_READWRITE, kind: 0x20000 })
}

#[test]
fn classify_known_and_unknown_types() {
    assert_eq!(classify_type(4), TelKind::MemberRemoved);
    assert_eq!(classify_type(7), TelKind::Updated);
    assert_eq!(classify_type(9), TelKind::Disconnecting);
    assert_eq!(classify_type(10), TelKind::Disconnected);
    for t in [0u32, 1, 2, 3, 5, 6, 8, 11, 0xFFFF_FFFF] {
        assert_eq!(classify_type(t), TelKind::Ignore);
    }
    assert_eq!(TelKind::MemberRemoved.name(), "MemberRemoved");
    assert_eq!(TelKind::Disconnected.name(), "Disconnected");
}

#[test]
fn entry_type_rejects_null_low_uncommitted_and_accepts_valid() {
    let mut snap = Snapshot::new();
    snap.add_reply(0, None);
    snap.add_reply(0x8000, region(0x8000));
    assert_eq!(entry_type_guarded(0, 0, &snap), Ok(None));
    assert_eq!(entry_type_guarded(0x8000, 0, &snap), Ok(None));
    snap.add_reply(0x20_0000, region(0x20_0000));
    snap.add_bytes(0x20_0000, vec![0; 8]);
    assert_eq!(entry_type_guarded(0x20_0000, 0, &snap), Ok(None));
    snap.add_reply(
        0x30_0000,
        Some(MemInfo {
            base: 0x30_0000,
            size: 0x1000,
            state: MEM_RESERVE,
            protect: PAGE_NOACCESS,
            kind: 0x20000,
        }),
    );
    snap.add_reply(0x21_0000, region(0x21_0000));
    snap.add_bytes(0x21_0000, 0x30_0000u64.to_le_bytes().to_vec());
    assert_eq!(entry_type_guarded(0x21_0000, 0, &snap), Ok(None));
    snap.add_reply(0x22_0000, region(0x22_0000));
    snap.add_bytes(0x22_0000, 0x40_0000u64.to_le_bytes().to_vec());
    assert_eq!(entry_type_guarded(0x22_0000, 0, &snap), Err(Need::Query(0x40_0000)));
    snap.add_reply(0x40_0000, region(0x40_0000));
    snap.add_bytes(0x40_0000, 4u32.to_le_bytes().to_vec());
    assert_eq!(entry_type_guarded(0x22_0000, 0, &snap), Ok(Some(4)));
    assert_eq!(entry_type_guarded(u64::MAX, 1, &snap), Ok(None));
}

#[test]
fn count_range_bounds() {
    assert!(!count_in_range(0));
    assert!(count_in_range(1));
    assert!(count_in_range(1024));
    assert!(!count_in_range(1025));
}

#[test]
fn budget_cap_boundary() {
    assert!(budget_allowed(0, 64));
    assert!(budget_allowed(63, 64));
    assert!(!budget_allowed(64, 64));
    assert!(!budget_allowed(64, 0));
}

#[test]
fn install_gate_combinations() {
    assert!(!tel_install_allowed(0, true, true, false));
    assert!(!tel_install_allowed(0x100, false, true, false));
    assert!(!tel_install_allowed(0x100, true, false, false));
    assert!(!tel_install_allowed(0x100, true, true, true));
    assert!(tel_install_allowed(0x100, true, true, false));
}

#[test]
fn leave_only_install_gate_combinations() {
    assert!(!tel_leave_install_allowed(0, true, false));
    assert!(!tel_leave_install_allowed(0x100, false, false));
    assert!(!tel_leave_install_allowed(0x100, true, true));
    assert!(tel_leave_install_allowed(0x100, true, false));
}

#[test]
fn leave_handler_logs_and_consumes_budget() {
    let mut used = 0;
    let mut log = Log::new();
    tel_leave(&mut used, 0, &mut log);
    assert_eq!(used, 1);
    tel_leave(&mut used, 0x1234, &mut log);
    assert_eq!(used, 2);
    used = TEL_BUDGET_CAP;
    tel_leave(&mut used, 0x5678, &mut log);
    assert_eq!(used, TEL_BUDGET_CAP);
    assert_eq!(
        log.lines,
        ["[tel] PFLobbyLeave handle=0x0", "[tel] PFLobbyLeave handle=0x1234"]
    );
}

#[test]
fn budget_runs_out() {
    let mut used = 0;
    for _ in 0..64 {
        assert!(budget_take(&mut used));
    }
    assert!(!budget_take(&mut used));
    assert_eq!(used, 64);
}

#[test]
fn first_calls_are_probed() {
    let (mut used, mut probes) = (0, 0);
    let mut log = Log::new();
    for _ in 0..20 {
        finish_probe(&mut used, &mut probes, 3, 0xAB0, &mut log);
    }
    assert_eq!(log.lines.len() as u64, TEL_FINISH_PROBE_CAP);
    assert_eq!(log.lines[0], "[tel] finish_probe count=3 changes=0xAB0");
    assert_eq!((used, probes), (16, 20));
}

#[test]
fn spent_budget_is_silent() {
    let (mut used, mut probes) = (TEL_BUDGET_CAP, 0);
    let mut log = Log::new();
    finish_probe(&mut used, &mut probes, 3, 0xAB0, &mut log);
    finish_report(&mut used, 3, &vec![TelKind::Updated], &vec![], &mut log);
    tel_leave(&mut used, 1, &mut log);
    assert!(log.lines.is_empty());
    assert_eq!((used, probes), (TEL_BUDGET_CAP, 1));
    used = TEL_BUDGET_CAP - 1;
    finish_probe(&mut used, &mut probes, 3, 0xAB0, &mut log);
    finish_probe(&mut used, &mut probes, 3, 0xAB0, &mut log);
    assert_eq!((used, probes, log.lines.len()), (TEL_BUDGET_CAP, 3, 1));
}

fn changes(types: &[u32]) -> Snapshot {
    let mut snap = Snapshot::new();
    let mut list = Vec::new();
    for (i, t) in types.iter().enumerate() {
        let p = 0x40_0000 + i * 0x1000;
        list.extend_from_slice(&(p as u64).to_le_bytes());
        snap.add_reply(0x20_0000 + i * 8, region(0x20_0000));
        snap.add_reply(p, region(p));
        snap.add_reply(p + 8, region(p));
        let mut change = vec![0u8; 16];
        change[..4].copy_from_slice(&t.to_le_bytes());
        change[8..].copy_from_slice(&(0xAA00 + i as u64).to_le_bytes());
        snap.add_bytes(p, change);
    }
    snap.add_bytes(0x20_0000, list);
    snap
}

#[test]
fn changes_of_interest_are_seen() {
    let snap = changes(&[1, 7, 4, 7, 10, 4]);
    let (kinds, lobbies) = finish_poll(6, 0x20_0000, &snap).unwrap();
    assert_eq!(kinds, [TelKind::Updated, TelKind::MemberRemoved, TelKind::Disconnected]);
    assert_eq!(lobbies, [0xAA02, 0xAA05]);
    assert_eq!(finish_poll(0, 0x20_0000, &snap), Ok((vec![], vec![])));
    assert_eq!(finish_poll(1025, 0x20_0000, &snap), Ok((vec![], vec![])));
    assert_eq!(finish_poll(1, 0x99_0000, &snap), Err(Need::Query(0x99_0000)));
}

#[test]
fn reports_stop_at_the_bound() {
    let kinds = vec![TelKind::Updated, TelKind::MemberRemoved];
    let lobbies = vec![0xA, 0xB, 0xC];
    let mut used = 0;
    let mut log = Log::new();
    finish_report(&mut used, 5, &kinds, &lobbies, &mut log);
    assert_eq!(used, 4);
    assert_eq!(
        log.lines,
        [
            "[tel] statechanges n=5 types=[Updated,MemberRemoved]",
            "[tel] memberremoved lobby=0xA",
            "[tel] memberremoved lobby=0xB",
            "[tel] memberremoved lobby=0xC",
        ]
    );
    used = 62;
    finish_report(&mut used, 5, &kinds, &lobbies, &mut log);
    assert_eq!(used, 64);
    assert_eq!(log.lines.len(), 6);
    finish_report(&mut used, 5, &kinds, &lobbies, &mut log);
    assert_eq!((used, log.lines.len()), (64, 6));
    used = 0;
    finish_report(&mut used, 5, &vec![], &lobbies, &mut log);
    assert_eq!((used, log.lines.len()), (0, 6));
}

#[test]
fn places_are_checked_before_installing() {
    let range = Some((0x1800_0000u64, 0x10000usize));
    let mut snap = Snapshot::new();
    let mut log = Log::new();
    let r = try_install_finish(0, range, 1, &snap, &mut log);
    assert!(matches!(r, Ok(Start::Done(false))));
    let r = try_install_leave(0x1800_2000, None, 1, &snap, &mut log);
    assert!(matches!(r, Ok(Start::Done(false))));
    let r = try_install_leave(0x1800_2000, range, 1, &snap, &mut log);
    assert!(matches!(r, Err(Need::Bytes(0x1800_2000, 7))));
    snap.add_bytes(0x1800_2000, vec![0x40, 0x53, 0x55, 0x56, 0x57, 0x41, 0x54]);
    snap.add_bytes(0x1800_1000, vec![0x40, 0x55, 0x56, 0x57, 0x41, 0x54]);
    let r = try_install_leave(0x1800_2000, range, 1, &snap, &mut log);
    assert!(matches!(r, Ok(Start::Install(_, Next::More(_)))));
    let r = try_install_finish(0x1800_1000, range, 1, &snap, &mut log);
    assert!(matches!(r, Ok(Start::Install(_, Next::More(_)))));
    let r = try_install_finish(0x1800_2000, range, 1, &snap, &mut log);
    assert!(matches!(r, Ok(Start::Done(false))));
    assert_eq!(
        log.lines,
        [
            "[tel] FinishProcessing addr unavailable",
            "[detour] PREFLIGHT FAIL target=0x18002000 module=PlayFabMultiplayerWin.dll module not loaded",
            "[tel] FinishProcessing signature mismatch want=405556574154 got=405355565741",
        ]
    );
    assert_eq!(
        tel_installed_line("Leave"),
        "[tel] Leave installed (module=PlayFabMultiplayerWin.dll)"
    );
}

fn context() -> TelContext {
    TelContext { no_telemetry: false, handle: 1, finish: 2, leave: 3 }
}

#[test]
fn both_hooks_or_none() {
    let mut t = Telemetry::new();
    let mut log = Log::new();
    assert!(!install(&mut t, TelContext { no_telemetry: true, ..context() }, &mut log));
    assert!(!install(&mut t, TelContext { handle: 0, ..context() }, &mut log));
    assert!(!t.finish_fn);
    assert!(install(&mut t, context(), &mut log));
    assert!(t.finish_fn && t.leave_fn);
    t.finish_tramp = 9;
    let left = installed(&mut t, Some(hook(0x1000_0000, 0x2000_0000)), None, &mut log);
    let (f, l) = left.expect("to be taken back");
    assert_eq!(t.finish_near, 0x2000_0000);
    rolled_back(&mut t, f, l, true, &mut log);
    assert_eq!((t.finish_near, t.finish_tramp), (0, 0));
    assert!(t.finish.is_none());
    assert!(install(&mut t, context(), &mut log));
    let (f, l) = (hook(0x1000_0000, 0x2000_0000), hook(0x1001_0000, 0x2001_0000));
    assert!(installed(&mut t, Some(f), Some(l), &mut log).is_none());
    assert_eq!((t.finish_near, t.leave_near), (0x2000_0000, 0x2001_0000));
    assert!(!install(&mut t, context(), &mut log));
    assert_eq!(
        log.lines,
        [
            "[tel] SKIPPED (diag no_telemetry)",
            "[tel] install FAILED (FinishProcessing/Leave) — all hooks rolled back",
            "[tel] hooks installed (FinishProcessing/Leave)",
        ]
    );
}

#[test]
fn failed_rollback_retains_the_hook() {
    let mut t = Telemetry::new();
    let mut log = Log::new();
    let left = installed(&mut t, None, Some(hook(0x1000_0000, 0x2000_0000)), &mut log);
    let (f, l) = left.expect("to be taken back");
    rolled_back(&mut t, f, l, false, &mut log);
    assert!(t.finish.is_none() && t.leave.is_some());
    assert_eq!(t.leave_near, 0x2000_0000);
    assert_eq!(
        log.lines,
        ["[tel] install rollback FAILED — refusing to discard hook ownership"]
    );
}

#[test]
fn leave_can_be_watched_alone() {
    let mut t = Telemetry::new();
    let mut log = Log::new();
    assert!(!install_leave_only(&mut t, TelContext { no_telemetry: true, ..context() }, &mut log));
    assert!(install_leave_only(&mut t, TelContext { finish: 0, ..context() }, &mut log));
    assert!(t.leave_fn && !t.finish_fn);
    t.leave_tramp = 4;
    assert!(!leave_only_installed(&mut t, None, &mut log));
    assert_eq!(t.leave_tramp, 0);
    assert!(leave_only_installed(&mut t, Some(hook(0x1000_0000, 0x2000_0000)), &mut log));
    assert!(!install_leave_only(&mut t, context(), &mut log));
    assert_eq!(
        log.lines,
        [
            "[tel] leave-only SKIPPED (diag no_telemetry)",
            "[tel] leave-only install FAILED (rolled back)",
            "[tel] leave-only hook installed (PFLobbyLeave)",
        ]
    );
}

#[test]
fn hooks_are_taken_back_in_turn() {
    let mut t = Telemetry::new();
    let mut log = Log::new();
    assert_eq!(unhook(&mut t, UnhookEvent::Begin, &mut log), UnhookStep::Done);
    let (f, l) = (hook(0x1000_0000, 0x2000_0000), hook(0x1001_0000, 0x2001_0000));
    installed(&mut t, Some(f), Some(l), &mut log);
    assert_eq!(unhook(&mut t, UnhookEvent::Begin, &mut log), UnhookStep::RestoreFinish);
    assert_eq!(unhook(&mut t, UnhookEvent::FinishRestored(false), &mut log), UnhookStep::Done);
    assert!(t.finish.is_some() && t.leave.is_some());
    assert_eq!(
        unhook(&mut t, UnhookEvent::FinishRestored(true), &mut log),
        UnhookStep::RestoreLeave
    );
    assert_eq!(unhook(&mut t, UnhookEvent::LeaveRestored(false), &mut log), UnhookStep::Done);
    assert!(t.finish.is_none() && t.leave.is_some());
    assert_eq!(unhook(&mut t, UnhookEvent::Begin, &mut log), UnhookStep::RestoreLeave);
    assert_eq!(unhook(&mut t, UnhookEvent::LeaveRestored(true), &mut log), UnhookStep::Done);
    assert_eq!((t.finish_near, t.leave_near), (0, 0));
    assert_eq!(unhook(&mut t, UnhookEvent::Begin, &mut log), UnhookStep::Done);
    assert_eq!(
        log.lines,
        [
            "[tel] already unhooked",
            "[tel] hooks installed (FinishProcessing/Leave)",
            "[tel] FinishProcessing restore FAILED — slot retained",
            "[tel] Leave restore FAILED — slot retained",
            "[tel] hooks restored",
            "[tel] already unhooked",
        ]
    );
}
