use gbfr_sdk::detour::{install_capture, Hook, Next, Op, Reply, Start};
use gbfr_sdk::kick::{
    build_entity, clear_hook, decide_all_or_nothing, do_kick, install_lobby_hooks, kick_gate,
    pending_allowed, pick_first_nonzero, poll_decision, poll_join_out,
    set_kickcfg_experimental, set_pending_kick, site, site_installed_line, slot_held,
    slot_valid, try_install, unhook, Found, Kick, KickContext, KickEvent, KickGateResult,
    KickStep, LobbyEvent, LobbyStep, Site, SITES, SITES_NO_JOIN,
};
use gbfr_sdk::log::Log;
use gbfr_sdk::sdk::{init, Sdk, EXPORTS};
use gbfr_sdk::snapshot::{Need, Snapshot};

fn hook(target: usize, near: usize) -> Hook {
    let (_, mut next) = install_capture(target, 6);
    let mut patch: Vec<u8> = Vec::new();
    let replies = vec![
        Reply::Addr(near),
        Reply::Bytes(vec![0x40, 0x55, 0x56, 0x57, 0x41, 0x54]),
        Reply::Protect(Some(0x20)),
        Reply::Protect(Some(0x40)),
    ];
    for reply in replies {
        next = match next {
            Next::More(i) => {
                let (ops, n) = i.step(reply);
                for op in ops {
                    match op {
                        Op::Write(a, b) => {
                            if a == target {
                                patch = b;
                            }
                        }
                        _ => {}
                    }
                }
                n
            }
            Next::Done(_) => panic!("too early"),
        };
    }
    match next {
        Next::More(i) => match i.step(Reply::Bytes(patch)).1 {
            Next::Done(Some(h)) => h,
            _ => panic!("not installed"),
        },
        Next::Done(_) => panic!("too early"),
    }
}

fn hooks(n: usize) -> Vec<Option<Hook>> {
    (0..n).map(|i| Some(hook(0x1000_0000 + i * 0x100, 0x2000_0000 + i * 0x1000))).collect()
}

#[test]
fn all_or_nothing_all_true() {
    assert!(decide_all_or_nothing(&[true, true, true, true]));
    assert!(decide_all_or_nothing(&[true; 9]));
    assert!(decide_all_or_nothing(&[true; 11]));
    assert!(decide_all_or_nothing(&[]));
}

#[test]
fn all_or_nothing_any_false() {
    assert!(!decide_all_or_nothing(&[false]));
    assert!(!decide_all_or_nothing(&[true, false, true]));
    assert!(!decide_all_or_nothing(&[true, true, false, true]));
    for i in 0..9 {
        let mut v = [true; 9];
        v[i] = false;
        assert!(!decide_all_or_nothing(&v), "index {} must fail", i);
    }
    for i in 0..11 {
        let mut v = [true; 11];
        v[i] = false;
        assert!(!decide_all_or_nothing(&v), "index {} must fail", i);
    }
}

#[test]
fn slot_valid_rejects_low_values() {
    assert!(!slot_valid(0));
    assert!(!slot_valid(0xFFFF));
    assert!(slot_valid(0x10000));
    assert!(slot_valid(0x7FFF_FFFF_FFFF_FFFF));
}

#[test]
fn poll_decision_all_combos() {
    assert_eq!(poll_decision(0, 0), None);
    assert_eq!(poll_decision(0, 0x10000), None);
    assert_eq!(poll_decision(0x1234, 0), None);
    assert_eq!(poll_decision(0x1234, 0x8000), None);
    assert_eq!(poll_decision(0x1234, 0xFFFF), None);
    assert_eq!(poll_decision(0x1234, 0x10000), Some(0x10000));
    assert_eq!(
        poll_decision(0x1234, 0xABCD_EF00_1234_5678),
        Some(0xABCD_EF00_1234_5678)
    );
}

#[test]
fn pick_first_nonzero_priority_order() {
    assert_eq!(pick_first_nonzero(&[]), 0);
    assert_eq!(pick_first_nonzero(&[(false, 0x100)]), 0);
    assert_eq!(pick_first_nonzero(&[(true, 0), (true, 0xABC)]), 0xABC);
    assert_eq!(pick_first_nonzero(&[(true, 0x111), (true, 0x222)]), 0x111);
    assert_eq!(pick_first_nonzero(&[(false, 0x222), (true, 0x333)]), 0x333);
    assert_eq!(pick_first_nonzero(&[(true, 0), (true, 0)]), 0);
}

const GOOD_ID: &str = "0123456789abcdef";

#[test]
fn gate_all_branches() {
    assert_eq!(kick_gate(GOOD_ID, true, 0x1234, true), KickGateResult::Pass);
    assert_eq!(kick_gate("short", true, 0x1234, true), KickGateResult::BadId);
    assert_eq!(kick_gate("0123456789abcdefg", true, 0x1234, true), KickGateResult::BadId);
    assert_eq!(kick_gate(GOOD_ID, false, 0x1234, true), KickGateResult::ForceUnavailable);
    assert_eq!(kick_gate(GOOD_ID, true, 0, true), KickGateResult::NoHandle);
    assert_eq!(kick_gate(GOOD_ID, true, 0x1234, false), KickGateResult::HandleInvalid);
    assert_eq!(kick_gate("bad", false, 0, false), KickGateResult::BadId);
    assert_eq!(kick_gate(GOOD_ID, false, 0, false), KickGateResult::ForceUnavailable);
    assert_eq!(kick_gate(GOOD_ID, true, 0, false), KickGateResult::NoHandle);
}

#[test]
fn id_length_is_counted_in_bytes() {
    assert_eq!(kick_gate("羅順蘭1234567", true, 1, true), KickGateResult::Pass);
    assert_eq!(kick_gate("羅順蘭羅順蘭羅順蘭羅順蘭羅順蘭羅", true, 1, true), KickGateResult::BadId);
}

#[test]
fn pending_allowed_flag_gate() {
    assert!(!pending_allowed(false, 0x1234));
    assert!(!pending_allowed(true, 0));
    assert!(pending_allowed(true, 0x1234));
}

#[test]
fn build_entity_valid_16hex() {
    let e = build_entity(GOOD_ID).expect("valid");
    assert_eq!(e.id, b"0123456789abcdef\0");
    assert_eq!(e.kind, b"title_player_account\0");
}

#[test]
fn build_entity_rejects_invalid() {
    assert!(build_entity("short").is_none());
    assert!(build_entity("0123456789abcdefg").is_none());
    assert!(build_entity("0123456789ab\0cde").is_none());
}

#[test]
fn slot_held_null_is_noop_decision() {
    assert!(!slot_held(&None));
    assert!(slot_held(&Some(hook(0x1000_0000, 0x2000_0000))));
}

#[test]
fn clear_hook_null_slot_is_noop() {
    let mut h: Option<Hook> = None;
    assert!(!clear_hook(&mut h, true));
    assert!(h.is_none());
}

#[test]
fn clear_hook_keeps_what_was_not_restored() {
    let mut h = Some(hook(0x1000_0000, 0x2000_0000));
    assert!(clear_hook(&mut h, false));
    assert!(h.is_some());
    assert!(clear_hook(&mut h, true));
    assert!(h.is_none());
    assert!(!clear_hook(&mut h, true));
}

#[test]
fn sites_are_in_order() {
    let mut sdk = Sdk::new();
    let mut log = Log::new();
    let found: Vec<usize> = (1..=EXPORTS).collect();
    init(&mut sdk, 0x1800_0000, &found, 0x1_4000_0000, &mut log);
    let names: Vec<&str> = (0..SITES).map(|i| site(&sdk.fns, i).name).collect();
    assert_eq!(
        names,
        [
            "PostUpdate",
            "GetLobbyId",
            "GetMembers",
            "GetOwner",
            "GetMemberProperty",
            "GetLobbyProperty",
            "GetConnectionString",
            "GetMemberConnectionStatus",
            "KICKCFG",
            "JoinLobby",
            "CreateAndJoinLobby",
        ]
    );
    let targets: Vec<usize> = (0..SITES).map(|i| site(&sdk.fns, i).target).collect();
    assert_eq!(targets, [7, 5, 6, 8, 9, 10, 11, 12, 0x1_43B4_CD8D, 13, 14]);
    let lens: Vec<usize> = (0..SITES).map(|i| site(&sdk.fns, i).len).collect();
    assert_eq!(lens, [7, 6, 7, 6, 7, 7, 6, 7, 8, 7, 7]);
    let far: Vec<bool> = (0..SITES).map(|i| site(&sdk.fns, i).far).collect();
    assert_eq!(far, [false, false, false, false, false, false, false, false, true, true, true]);
    assert_eq!(site(&sdk.fns, 8).module, "granblue_fantasy_relink.exe");
    assert_eq!(site(&sdk.fns, 8).expected, [0x48, 0x89, 0x7D, 0xB8, 0xC5, 0xF8, 0x57, 0xC0]);
    assert_eq!(
        site_installed_line(&site(&sdk.fns, 0)),
        "[kick] PostUpdate installed (module=PlayFabMultiplayerWin.dll)"
    );
}

fn a_site(target: usize, len: usize, far: bool) -> Site {
    Site {
        target,
        len,
        expected: vec![0x40, 0x55, 0x56, 0x57, 0x41, 0x56],
        name: "GetOwner",
        module: "PlayFabMultiplayerWin.dll",
        far,
    }
}

#[test]
fn try_install_checks_in_order() {
    let range = Some((0x1800_0000u64, 0x10000usize));
    let mut snap = Snapshot::new();
    let mut log = Log::new();
    let r = try_install(&a_site(0, 6, false), range, 0, &snap, &mut log);
    assert!(matches!(r, Ok(Start::Done(false))));
    let r = try_install(&a_site(0x1900_0000, 5, false), range, 0, &snap, &mut log);
    assert!(matches!(r, Ok(Start::Done(false))));
    let r = try_install(&a_site(0x1800_1000, 5, false), range, 0, &snap, &mut log);
    assert!(matches!(r, Ok(Start::Done(false))));
    let r = try_install(&a_site(0x1800_1000, 6, false), range, 0, &snap, &mut log);
    assert!(matches!(r, Err(Need::Bytes(0x1800_1000, 6))));
    snap.add_bytes(0x1800_1000, vec![0x40, 0x55, 0x56, 0x57, 0x41, 0x56]);
    let r = try_install(&a_site(0x1800_1000, 6, false), range, 0, &snap, &mut log);
    assert!(matches!(r, Ok(Start::Install(_, Next::More(_)))));
    let r = try_install(&a_site(0x1800_1000, 6, true), range, 9, &snap, &mut log);
    assert!(matches!(r, Ok(Start::Install(_, Next::More(_)))));
    let mut other = Snapshot::new();
    other.add_bytes(0x1800_1000, vec![0; 6]);
    let r = try_install(&a_site(0x1800_1000, 6, true), range, 9, &other, &mut log);
    assert!(matches!(r, Ok(Start::Done(false))));
    assert_eq!(
        log.lines,
        [
            "[kick] GetOwner addr unavailable",
            "[detour] PREFLIGHT FAIL target=0x19000000 module=PlayFabMultiplayerWin.dll range=0x18000000-0x18010000",
            "[kick] GetOwner invalid hook length len=5 signature=6",
            "[kick] GetOwner signature mismatch want=405556574156 got=000000000000",
        ]
    );
}

#[test]
fn lobby_hooks_are_installed_together() {
    let mut k = Kick::new();
    let mut log = Log::new();
    assert_eq!(
        install_lobby_hooks(&mut k, false, LobbyEvent::Begin, &mut log),
        LobbyStep::TryInstall(SITES)
    );
    assert_eq!(
        install_lobby_hooks(&mut k, false, LobbyEvent::Installed(hooks(SITES)), &mut log),
        LobbyStep::Done(true)
    );
    assert!(log.lines[0].starts_with("[kick] hooks installed (11: PostUpdate/GetLobbyId/"));
    for i in 0..SITES {
        assert!(slot_held(k.hook(i)));
        assert_eq!(k.near_of(i), 0x2000_0000 + i * 0x1000);
    }
    assert_eq!(k.saved_addr(2), Some(0x2000_2020));
}

#[test]
fn joins_can_be_left_out() {
    let mut k = Kick::new();
    let mut log = Log::new();
    assert_eq!(
        install_lobby_hooks(&mut k, true, LobbyEvent::Begin, &mut log),
        LobbyStep::TryInstall(SITES_NO_JOIN)
    );
    let r = install_lobby_hooks(
        &mut k,
        true,
        LobbyEvent::Installed(hooks(SITES_NO_JOIN)),
        &mut log,
    );
    assert_eq!(r, LobbyStep::Done(true));
    assert_eq!(log.lines[0], "[kick] JOIN/CREATEJOIN skipped (diag no_join)");
    assert!(log.lines[1].starts_with("[kick] hooks installed (9: "));
    assert!(!slot_held(k.hook(9)));
}

#[test]
fn partial_install_is_rolled_back() {
    let mut k = Kick::new();
    let mut log = Log::new();
    let mut v = hooks(SITES);
    v[3] = None;
    k.lobby_join = 0x55_0000;
    k.stubs.join_tramp = 5;
    k.stubs.kick_pending = 1;
    let r = install_lobby_hooks(&mut k, false, LobbyEvent::Installed(v), &mut log);
    assert_eq!(r, LobbyStep::RestoreAll);
    let r = install_lobby_hooks(&mut k, false, LobbyEvent::Restored(vec![true; SITES]), &mut log);
    assert_eq!(r, LobbyStep::Done(false));
    assert_eq!(log.lines, ["[kick] PARTIAL INSTALL ROLLED BACK"]);
    for i in 0..SITES {
        assert!(!slot_held(k.hook(i)));
        assert_eq!(k.near_of(i), 0);
        assert_eq!(k.saved_addr(i), None);
    }
    assert_eq!(k.lobby_join, 0);
    assert_eq!(k.stubs.join_tramp, 0);
    assert_eq!(k.stubs.kick_pending, 1);
}

#[test]
fn failed_rollback_keeps_hooks() {
    let mut k = Kick::new();
    let mut log = Log::new();
    let mut v = hooks(SITES);
    v[3] = None;
    install_lobby_hooks(&mut k, false, LobbyEvent::Installed(v), &mut log);
    let mut restored = vec![true; SITES];
    restored[5] = false;
    let r = install_lobby_hooks(&mut k, false, LobbyEvent::Restored(restored), &mut log);
    assert_eq!(r, LobbyStep::Done(false));
    assert_eq!(
        log.lines,
        ["[kick] PARTIAL INSTALL rollback FAILED — hook ownership retained"]
    );
    assert!(slot_held(k.hook(5)));
    assert!(!slot_held(k.hook(4)));
    assert_eq!(k.near_of(4), 0x2000_4000);
}

#[test]
fn unhook_is_idempotent() {
    let mut k = Kick::new();
    let mut log = Log::new();
    install_lobby_hooks(&mut k, false, LobbyEvent::Installed(hooks(SITES)), &mut log);
    k.stubs.kick_pending = 1;
    k.stubs.join_out = 7;
    unhook(&mut k, &vec![true; SITES], &mut log);
    unhook(&mut k, &vec![true; SITES], &mut log);
    assert_eq!(log.lines[1..], ["[kick] hooks restored", "[kick] already unhooked"]);
    assert_eq!(k.stubs.kick_pending, 0);
    assert_eq!(k.stubs.join_out, 0);
    assert!(!slot_held(k.hook(0)));
}

#[test]
fn handle_comes_from_the_first_source() {
    let mut k = Kick::new();
    let mut log = Log::new();
    let mut saved = vec![0u64; SITES];
    assert_eq!(k.lobby_handle(&saved), 0);
    k.lobby_join = 0x99_0000;
    assert_eq!(k.lobby_handle(&saved), 0x99_0000);
    saved[2] = 0x22_0000;
    assert_eq!(k.lobby_handle(&saved), 0x99_0000);
    install_lobby_hooks(&mut k, false, LobbyEvent::Installed(hooks(SITES)), &mut log);
    assert_eq!(k.lobby_handle(&saved), 0x22_0000);
    saved[2] = 0;
    saved[0] = 0x10_0000;
    saved[1] = 0x11_0000;
    assert_eq!(k.lobby_handle(&saved), 0x10_0000);
    saved[0] = 0;
    assert_eq!(k.lobby_handle(&saved), 0x11_0000);
    saved[1] = 0;
    saved[8] = 0x88_0000;
    assert_eq!(k.lobby_handle(&saved), 0x99_0000);
}

#[test]
fn sources_are_counted() {
    let mut k = Kick::new();
    let mut log = Log::new();
    let counts: Vec<u64> = (0..SITES as u64).map(|i| i * 10).collect();
    k.lobby_join = 0x20000;
    assert_eq!(
        k.lobby_sources(&counts),
        "members=0 post=0 getid=0 owner=0 getmp=0 getlp=0 conn=0 memconn=0 join=0 createjoin=0"
    );
    install_lobby_hooks(&mut k, false, LobbyEvent::Installed(hooks(SITES)), &mut log);
    assert_eq!(
        k.lobby_sources(&counts),
        "members=20 post=0 getid=10 owner=30 getmp=40 getlp=50 conn=60 memconn=70 join=90 createjoin=100"
    );
}

#[test]
fn joining_yields_the_handle_once() {
    let mut k = Kick::new();
    let mut log = Log::new();
    k.stubs.join_out = 0x7000;
    let empty = Found { committed: true, value: 0 };
    poll_join_out(&mut k, empty, empty, &mut log);
    assert_eq!(k.stubs.join_out, 0x7000);
    assert!(log.lines.is_empty());
    poll_join_out(&mut k, Found { committed: true, value: 0xAB_0000 }, empty, &mut log);
    assert_eq!((k.stubs.join_out, k.lobby_join), (0, 0xAB_0000));
    poll_join_out(&mut k, Found { committed: true, value: 0xCD_0000 }, empty, &mut log);
    assert_eq!(k.lobby_join, 0xAB_0000);
    k.stubs.createjoin_out = 0x8000;
    poll_join_out(&mut k, empty, Found { committed: false, value: 0 }, &mut log);
    assert_eq!(k.stubs.createjoin_out, 0);
    k.stubs.createjoin_out = 0x8000;
    poll_join_out(&mut k, empty, Found { committed: true, value: 0xFFFF }, &mut log);
    assert_eq!((k.stubs.createjoin_out, k.lobby_join), (0, 0xAB_0000));
    assert_eq!(
        log.lines,
        [
            "[kick] auto-captured lobby via JoinLobby=0xAB0000",
            "[kick] CreateAndJoinLobby slot 0x8000 not committed — cleared",
            "[kick] CreateAndJoinLobby slot value 0xFFFF invalid — cleared",
        ]
    );
}

#[test]
fn pending_needs_the_switch() {
    let mut k = Kick::new();
    set_pending_kick(&mut k, GOOD_ID, 0x1234);
    assert_eq!(k.stubs.kick_pending, 0);
    set_kickcfg_experimental(&mut k, true);
    set_pending_kick(&mut k, GOOD_ID, 0);
    assert_eq!(k.stubs.kick_pending, 0);
    set_pending_kick(&mut k, "0123456789012345678901234567890", 1);
    assert_eq!(k.stubs.kick_pending, 0);
    set_pending_kick(&mut k, GOOD_ID, 1);
    assert_eq!(k.stubs.kick_pending, 1);
    assert_eq!(k.kick_id, b"0123456789abcdef\0");
    set_kickcfg_experimental(&mut k, false);
    assert_eq!(k.stubs.kick_pending, 0);
}

fn context(handle: u64) -> KickContext {
    KickContext { handle, getid_known: true, force_known: true }
}

#[test]
fn kick_goes_through_check_and_removal() {
    let mut k = Kick::new();
    let mut log = Log::new();
    let c = context(0xAB_0000);
    let id = "  0123456789abcdef ";
    match do_kick(&mut k, id, c, KickEvent::Begin, &mut log) {
        KickStep::SelfCheck(h) => assert_eq!(h, 0xAB_0000),
        _ => panic!("expected a check"),
    }
    match do_kick(&mut k, id, c, KickEvent::Checked(0), &mut log) {
        KickStep::ForceRemove(h, e) => {
            assert_eq!(h, 0xAB_0000);
            assert_eq!(e.id, b"0123456789abcdef\0");
        }
        _ => panic!("expected a removal"),
    }
    let r = do_kick(&mut k, id, c, KickEvent::Forced(0, 0xAB_0000), &mut log);
    assert!(matches!(r, KickStep::Done));
    assert_eq!(k.stubs.kick_pending, 0);
    assert_eq!(
        log.lines,
        [
            "[kick] lobby handle validated (GetLobbyId ok)",
            "[kick] ForceRemoveMember ret=0x0 handle=0xAB0000 target=0123456789abcdef (0=accepted, async result via lobby state change)",
            "[kick] KICKCFG-rdi-swap is EXPERIMENTAL and DISABLED by default (use kickcfg_exp on to enable)",
            "[kick] single-variable: do NOT also enable kickcfg_exp or antikick for this experiment",
        ]
    );
    set_kickcfg_experimental(&mut k, true);
    do_kick(&mut k, id, c, KickEvent::Forced(-1, 0xAB_0000), &mut log);
    assert_eq!(k.stubs.kick_pending, 1);
    assert!(log.lines[4].starts_with("[kick] ForceRemoveMember ret=0xFFFFFFFF "));
    assert_eq!(
        log.lines[5],
        "[kick] KICKCFG-rdi-swap pending set: 0123456789abcdef (EXPERIMENTAL) — next UI kick will be redirected"
    );
}

#[test]
fn kick_refusals_are_said() {
    let mut k = Kick::new();
    let mut log = Log::new();
    let done = |r: KickStep| assert!(matches!(r, KickStep::Done));
    done(do_kick(&mut k, "bad", context(0), KickEvent::Begin, &mut log));
    let c = KickContext { force_known: false, ..context(0) };
    done(do_kick(&mut k, GOOD_ID, c, KickEvent::Begin, &mut log));
    done(do_kick(&mut k, GOOD_ID, context(0), KickEvent::Begin, &mut log));
    let c = KickContext { getid_known: false, ..context(5) };
    done(do_kick(&mut k, GOOD_ID, c, KickEvent::Begin, &mut log));
    done(do_kick(&mut k, GOOD_ID, context(5), KickEvent::Checked(-2147467259), &mut log));
    done(do_kick(&mut k, "0123456789ab\0cde", context(5), KickEvent::Checked(0), &mut log));
    assert_eq!(
        log.lines,
        [
            "[kick] invalid id: bad",
            "[kick] ForceRemoveMember not resolved",
            "[kick] lobby handle not captured (open member list / enter room first)",
            "[kick] GetLobbyId not resolved — handle UNVERIFIED, refusing",
            "[kick] lobby handle INVALID (GetLobbyId ret=0x80004005)",
            "[kick] lobby handle validated (GetLobbyId ok)",
            "[kick] invalid id: 0123456789ab\0cde",
        ]
    );
}
