use gbfr_sdk::detour::{install_capture, Hook, Next, Op, Reply, Start};
use gbfr_sdk::log::Log;
use gbfr_sdk::sdk::{
    check_handle, export_names, grab_installed, grab_needs_restore, grab_restored_line, init,
    install_grab_handle, unhook_grab, Sdk, EXPORTS,
};
use gbfr_sdk::snapshot::{Need, Snapshot};

fn hook(target: usize, near: usize) -> Hook {
    let (_, mut next) = install_capture(target, 6);
    let mut patch: Vec<u8> = Vec::new();
    let replies = vec![
        Reply::Addr(near),
        Reply::Bytes(vec![0x40, 0x55, 0x56, 0x57, 0x41, 0x54]),
        Reply::Protect(Some(0x20)),
        Reply::Protect(Some(0x40)),
    ];
    for reply in replies {
        next = match next {
            Next::More(i) => {
                let (ops, n) = i.step(reply);
                for op in ops {
                    match op {
                        Op::Write(a, b) => {
                            if a == target {
                                patch = b;
                            }
                        }
                        _ => {}
                    }
                }
                n
            }
            Next::Done(_) => panic!("too early"),
        };
    }
    match next {
        Next::More(i) => match i.step(Reply::Bytes(patch)).1 {
            Next::Done(Some(h)) => h,
            _ => panic!("not installed"),
        },
        Next::Done(_) => panic!("too early"),
    }
}

#[test]
fn functions_are_taken_in_order() {
    let names = export_names();
    assert_eq!(names.len(), EXPORTS);
    assert_eq!(names[0], "PFMultiplayerFindLobbies");
    assert_eq!(names[6], "PFLobbyPostUpdate");
    assert_eq!(names[14], "PFLobbyLeave");
    let mut sdk = Sdk::new();
    let mut log = Log::new();
    let found: Vec<usize> = (0xA0..0xA0 + EXPORTS).collect();
    init(&mut sdk, 0, &found, 0, &mut log);
    assert_eq!(sdk.base, 0);
    assert_eq!(sdk.fns.leave, 0);
    init(&mut sdk, 0x1800_0000, &found, 0, &mut log);
    assert_eq!(sdk.base, 0x1800_0000);
    assert_eq!(sdk.fns.find_lobbies, 0xA0);
    assert_eq!(sdk.fns.force_remove, 0xA3);
    assert_eq!(sdk.fns.leave, 0xAE);
    assert_eq!(sdk.fns.kick_config, 0);
    init(&mut sdk, 0x1800_0000, &found, 0x1_4000_0000, &mut log);
    assert_eq!(sdk.fns.kick_config, 0x1_43B4_CD8D);
    assert_eq!(
        log.lines[..5],
        [
            "[sdk] PlayFabMultiplayerWin.dll not loaded",
            "[sdk] base=0x18000000",
            "[sdk] game exe not loaded (KICKCFG unavailable)",
            "[sdk] find=0xA0 start=0xA1 finish=0xA2 force=0xA3 getid=0xA4 members=0xA5 post=0xA6 owner=0xA7 getmp=0xA8 getlp=0xA9 conn=0xAA memconn=0xAB join=0xAC createjoin=0xAD leave=0xAE",
            "[sdk] base=0x18000000",
        ]
    );
    assert_eq!(log.lines[5], "[sdk] game=0x140000000 KICKCFG=0x143B4CD8D");
}

#[test]
fn the_handle_is_grabbed_once() {
    let range = Some((0x1800_0000u64, 0x10000usize));
    let mut sdk = Sdk::new();
    let mut log = Log::new();
    let mut snap = Snapshot::new();
    let r = install_grab_handle(&sdk, range, &snap, &mut log);
    assert!(matches!(r, Ok(Start::Done(false))));
    sdk.fns.start_processing = 0x1800_1000;
    let r = install_grab_handle(&sdk, None, &snap, &mut log);
    assert!(matches!(r, Ok(Start::Done(false))));
    let r = install_grab_handle(&sdk, range, &snap, &mut log);
    assert!(matches!(r, Err(Need::Bytes(0x1800_1000, 6))));
    snap.add_bytes(0x1800_1000, vec![0x40, 0x55, 0x56, 0x57, 0x41, 0x54]);
    let r = install_grab_handle(&sdk, range, &snap, &mut log);
    assert!(matches!(r, Ok(Start::Install(_, Next::More(_)))));
    assert!(!grab_installed(&mut sdk, None, &mut log));
    assert!(grab_installed(&mut sdk, Some(hook(0x1800_1000, 0x1900_0000)), &mut log));
    let r = install_grab_handle(&sdk, range, &snap, &mut log);
    assert!(matches!(r, Ok(Start::Done(true))));

    let mut block = vec![0u8; 0x100];
    assert!(!check_handle(&mut sdk, &block, &mut log));
    assert!(grab_needs_restore(&sdk));
    block[0x18] = 3;
    block[0x20..0x28].copy_from_slice(&0xABCD_0000u64.to_le_bytes());
    assert!(check_handle(&mut sdk, &block, &mut log));
    assert_eq!(sdk.handle, 0xABCD_0000);
    assert!(!check_handle(&mut sdk, &block, &mut log));
    assert!(!grab_needs_restore(&sdk));
    let r = install_grab_handle(&sdk, range, &snap, &mut log);
    assert!(matches!(r, Ok(Start::Done(true))));
    unhook_grab(&mut sdk, &mut log);
    unhook_grab(&mut sdk, &mut log);
    assert!(sdk.grab.is_none());
    assert_eq!(
        log.lines,
        [
            "[sdk] StartProcessing not resolved, grab hook skipped",
            "[detour] PREFLIGHT FAIL target=0x18001000 module=PlayFabMultiplayerWin.dll module not loaded",
            "[sdk] grab hook install FAILED (near alloc)",
            "[sdk] grab hook install FAILED (near alloc)",
            "[sdk] grab hook installed on StartProcessing (module=PlayFabMultiplayerWin.dll)",
            "[sdk] grabbed PFMultiplayerHandle=0xABCD0000 (invocations=3)",
            "[sdk] grab hook freed",
            "[sdk] grab hook already unhooked",
        ]
    );
    assert_eq!(grab_restored_line(true), "[sdk] grab hook restored");
    assert_eq!(grab_restored_line(false), "[sdk] grab hook restore FAILED — slot retained");
}
