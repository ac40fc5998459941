use gbfr_sdk::detour::{
    hex16, install_capture, install_capture_checked, install_far, module_range,
    near_alloc_count, near_allocs, near_hint, preflight, validate_target, AllocRegistry, Hook,
    Next, Op, Reply, RestoreNext, RestorePhase, ALLOC_SIZE, CAP_CODE_LEN, CAP_COUNT_OFF,
    CAP_SAVED_OFF, CAP_SLOT_OFF, CAP_TRAMP_OFF, FAR_SLOT_OFF, FAR_TRAMP_OFF, MAX_LEN,
};
use gbfr_sdk::log::Log;
use gbfr_sdk::snapshot::{Need, Snapshot};

const PROLOGUE: [u8; 6] = [0x40, 0x55, 0x56, 0x57, 0x41, 0x54];

/// A process: its memory, and the slot of the trampoline.
struct Machine {
    mem: std::collections::HashMap<usize, u8>,
    slot: u64,
    registry: AllocRegistry,
    said: Vec<String>,
    published_before_patch: bool,
    target: usize,
    refuse_allocs: usize,
    protect_fails: Vec<bool>,
    corrupt_check: bool,
    reads: usize,
}

impl Machine {
    fn new(target: usize) -> Machine {
        let mut mem = std::collections::HashMap::new();
        for (i, b) in PROLOGUE.iter().enumerate() {
            mem.insert(target + i, *b);
        }
        Machine {
            mem,
            slot: 0,
            registry: AllocRegistry::new(),
            said: Vec::new(),
            published_before_patch: false,
            target,
            refuse_allocs: 0,
            protect_fails: Vec::new(),
            corrupt_check: false,
            reads: 0,
        }
    }

    fn bytes(&self, addr: usize, len: usize) -> Vec<u8> {
        (0..len).map(|i| *self.mem.get(&(addr + i)).unwrap_or(&0)).collect()
    }

    fn perform(&mut self, ops: Vec<Op>) -> Option<Reply> {
        let mut reply = None;
        for op in ops {
            reply = match op {
                Op::Alloc(hint) => {
                    if self.refuse_allocs > 0 {
                        self.refuse_allocs -= 1;
                        Some(Reply::Addr(0))
                    } else {
                        Some(Reply::Addr(hint))
                    }
                }
                Op::Record(p) => {
                    self.registry.record_alloc(p);
                    None
                }
                Op::Read(a, n) => {
                    let mut b = self.bytes(a, n);
                    self.reads += 1;
                    if self.corrupt_check && self.reads > 1 {
                        b[0] ^= 0xFF;
                    }
                    Some(Reply::Bytes(b))
                }
                Op::Write(a, b) => {
                    if a == self.target && b[0] == 0xE9 {
                        self.published_before_patch = self.slot != 0;
                    }
                    for (i, x) in b.iter().enumerate() {
                        self.mem.insert(a + i, *x);
                    }
                    None
                }
                Op::Flush(_, _) => None,
                Op::Protect(_, _, _) => {
                    let fails = !self.protect_fails.is_empty() && self.protect_fails.remove(0);
                    Some(Reply::Protect(if fails { None } else { Some(0x20) }))
                }
                Op::Publish(v) => {
                    self.slot = v;
                    None
                }
                Op::Say(s) => {
                    self.said.push(s);
                    None
                }
            };
        }
        reply
    }

    fn run(&mut self, start: (Vec<Op>, Next)) -> Option<Hook> {
        let (mut ops, mut next) = start;
        loop {
            let reply = self.perform(ops);
            match next {
                Next::Done(h) => return h,
                Next::More(i) => {
                    let (o, n) = i.step(reply.expect("a reply"));
                    ops = o;
                    next = n;
                }
            }
        }
    }

    fn restore(&mut self, h: &Hook) -> bool {
        let (mut ops, mut phase): (Vec<Op>, RestorePhase) = h.restore();
        loop {
            let reply = self.perform(ops);
            let (o, next) = h.restore_step(phase, reply.expect("a reply"));
            match next {
                RestoreNext::More(p) => {
                    ops = o;
                    phase = p;
                }
                RestoreNext::Done(ok) => {
                    self.perform(o);
                    return ok;
                }
            }
        }
    }
}

fn jump_target(at: usize, b: &[u8]) -> usize {
    assert_eq!(b[0], 0xE9);
    let rel = i32::from_le_bytes([b[1], b[2], b[3], b[4]]);
    (at as i64 + 5 + rel as i64) as usize
}

#[test]
fn validate_target_boundaries() {
    let base: u64 = 0x140_0000_0000;
    let size: usize = 0x1000;
    assert!(validate_target(base as usize, base, size));
    assert!(validate_target((base + size as u64 - 1) as usize, base, size));
    assert!(!validate_target((base - 1) as usize, base, size));
    assert!(!validate_target((base + size as u64) as usize, base, size));
}

#[test]
fn hex16_formats_lowercase() {
    assert_eq!(hex16(&[0x40, 0x53, 0x55, 0x56, 0x57, 0x41, 0x54]), "40535556574154");
    assert_eq!(hex16(&[0xE9, 0x00, 0x00, 0x00, 0x00, 0x90]), "e90000000090");
    assert_eq!(hex16(b""), "");
}

#[test]
fn capture_layout_no_overlap() {
    assert!(CAP_TRAMP_OFF > CAP_SLOT_OFF);
    assert!(CAP_SLOT_OFF > CAP_SAVED_OFF);
    assert!(CAP_SAVED_OFF > CAP_COUNT_OFF);
    assert!(CAP_COUNT_OFF >= 0x14);
    assert!(CAP_COUNT_OFF >= CAP_CODE_LEN);
    assert!(FAR_TRAMP_OFF >= FAR_SLOT_OFF + 8);
    assert!(CAP_TRAMP_OFF + MAX_LEN + 5 <= ALLOC_SIZE);
}

fn image(base: usize, magic: u16, size: u32) -> Snapshot {
    let mut header = vec![0u8; 0x200];
    header[0x3C..0x40].copy_from_slice(&0x80u32.to_le_bytes());
    header[0x80..0x84].copy_from_slice(b"PE\0\0");
    header[0x98..0x9A].copy_from_slice(&magic.to_le_bytes());
    header[0xD0..0xD4].copy_from_slice(&size.to_le_bytes());
    let mut snap = Snapshot::new();
    snap.add_bytes(base, header);
    snap
}

#[test]
fn module_range_of_test_exe() {
    let (base, size) = module_range(Some(0x1_4000_0000), &image(0x1_4000_0000, 0x20B, 0x2000))
        .expect("known")
        .expect("test exe should be loadable");
    assert!(base > 0x10000);
    assert!(size > 0x1000, "SizeOfImage too small: 0x{:X}", size);
    assert_eq!((base, size), (0x1_4000_0000, 0x2000));
}

#[test]
fn module_range_rejects_other_headers() {
    assert_eq!(module_range(None, &Snapshot::new()), Ok(None));
    assert_eq!(
        module_range(Some(0x40_0000), &Snapshot::new()),
        Err(Need::Bytes(0x40_003C, 4))
    );
    assert_eq!(module_range(Some(0x40_0000), &image(0x40_0000, 0x10B, 7)), Ok(Some((0x40_0000, 7))));
    assert_eq!(module_range(Some(0x40_0000), &image(0x40_0000, 0x107, 7)), Ok(None));
    assert_eq!(module_range(Some(0x40_0000), &image(0x40_0000, 0x20B, 0)), Ok(None));
    let mut zeros = Snapshot::new();
    zeros.add_bytes(0x40_0000, vec![0; 0x200]);
    assert_eq!(module_range(Some(0x40_0000), &zeros), Ok(None));
    let mut other = vec![0u8; 0x200];
    other[0x3C] = 0x80;
    let mut snap = Snapshot::new();
    snap.add_bytes(0x40_0000, other);
    assert_eq!(module_range(Some(0x40_0000), &snap), Ok(None));
    let mut far = vec![0u8; 0x200];
    far[0x3D] = 0x10;
    far[0x3C] = 1;
    let mut snap = Snapshot::new();
    snap.add_bytes(0x40_0000, far);
    assert_eq!(module_range(Some(0x40_0000), &snap), Ok(None));
}

#[test]
fn near_alloc_registry_tracks_and_cleans() {
    let mut m = Machine::new(0x1_4000_1000);
    let h = m.run(install_capture(0x1_4000_1000, 6)).expect("installed");
    let p = h.near_addr();
    assert_ne!(p, 0, "near_alloc should succeed near test exe");
    assert!(near_allocs(&m.registry).contains(&p), "registry must track the alloc");
    assert!(near_alloc_count(&m.registry) >= 1);
}

#[test]
fn near_alloc_registry_append_only_two() {
    let mut r = AllocRegistry::new();
    let (a, b) = (0x1000_0000, 0x2000_0000);
    r.record_alloc(a);
    r.record_alloc(b);
    let all = near_allocs(&r);
    assert!(all.contains(&a) && all.contains(&b));
    assert_eq!(all, [a, b]);
    assert_eq!(near_alloc_count(&r), 2);
}

#[test]
fn hints_go_up_then_down() {
    let target = 0x1_4000_1234;
    assert_eq!(near_hint(target, 0), Some(0x1_4010_1000));
    assert_eq!(near_hint(target, 1022), Some(0x1_4000_1000 + 1023 * 0x10_0000));
    assert_eq!(near_hint(target, 1023), Some(0x1_3FF0_1000));
    assert_eq!(near_hint(target, 2045), Some(0x1_4000_1000 - 1023 * 0x10_0000));
    assert_eq!(near_hint(target, 2046), None);
    assert_eq!(near_hint(0x10_0000, 1023), None);
    assert_eq!(near_hint(0x20_0000, 1023), Some(0x10_0000));
}

#[test]
fn preflight_says_why() {
    let mut log = Log::new();
    assert!(preflight(0x1800, "a.dll", Some((0x1000, 0x1000)), &mut log));
    assert!(log.lines.is_empty());
    assert!(!preflight(0x2000, "a.dll", Some((0x1000, 0x1000)), &mut log));
    assert!(!preflight(0x2000, "b.dll", None, &mut log));
    assert_eq!(
        log.lines,
        [
            "[detour] PREFLIGHT FAIL target=0x2000 module=a.dll range=0x1000-0x2000",
            "[detour] PREFLIGHT FAIL target=0x2000 module=b.dll module not loaded",
        ]
    );
}

#[test]
fn capture_hook_works_and_is_undone() {
    let target = 0x1_4000_1000;
    let mut m = Machine::new(target);
    let h = m.run(install_capture(target, 6)).expect("installed");
    let near = h.near_addr();
    assert_eq!(near, 0x1_4010_1000);
    let patch = m.bytes(target, 6);
    assert_eq!(patch, [0xE9, 0xFB, 0xFF, 0x0F, 0x00, 0x90]);
    assert_eq!(jump_target(target, &patch), near);
    let block = m.bytes(near, ALLOC_SIZE);
    assert_eq!(&block[..7], &[0x48, 0xFF, 0x05, 0x11, 0, 0, 0]);
    assert_eq!(&block[7..14], &[0x48, 0x89, 0x0D, 0x12, 0, 0, 0]);
    assert_eq!(&block[14..20], &[0xFF, 0x25, 0x14, 0, 0, 0]);
    let slot = u64::from_le_bytes(block[0x28..0x30].try_into().unwrap());
    assert_eq!(slot as usize, near + CAP_TRAMP_OFF);
    assert_eq!(&block[0x30..0x36], &PROLOGUE);
    assert_eq!(jump_target(near + 0x36, &block[0x36..0x3B]), target + 6);
    assert_eq!(
        m.said,
        ["[detour] installed target=0x140001000 len=6 near=0x140101000 orig=405556574154 patch=e9fbff0f0090 tramp=0x140101030"]
    );

    let mut called = block.clone();
    called[0x18..0x20].copy_from_slice(&9u64.to_le_bytes());
    called[0x20..0x28].copy_from_slice(&0xABCD_EF00_1234u64.to_le_bytes());
    assert_eq!(h.counts(&called), 9);
    assert_eq!(h.saved(&called), 0xABCD_EF00_1234);

    assert!(m.restore(&h));
    assert_eq!(m.bytes(target, 6), PROLOGUE);
    assert_eq!(m.said[1], "[detour] RESTORE VERIFY OK target=0x140001000");
    assert_eq!(m.said[2], "[detour] restored target=0x140001000");
}

#[test]
fn far_hook_publishes_before_it_patches() {
    let target = 0x1_4000_1000;
    let mut m = Machine::new(target);
    let h = m.run(install_far(target, 6, 0x7FF0_1122_3344, true)).expect("installed");
    let near = h.near_addr();
    assert!(m.published_before_patch);
    assert_eq!(m.slot as usize, near + FAR_TRAMP_OFF);
    let block = m.bytes(near, ALLOC_SIZE);
    assert_eq!(&block[..6], &[0xFF, 0x25, 2, 0, 0, 0]);
    assert_eq!(&block[8..16], &0x7FF0_1122_3344u64.to_le_bytes());
    assert_eq!(jump_target(near + 0x16, &block[0x16..0x1B]), target + 6);
    assert_eq!(h.counts(&[5u8; 0x100]), 0);
}

#[test]
fn far_hook_without_slot_publishes_nothing() {
    let target = 0x1_4000_1000;
    let mut m = Machine::new(target);
    m.slot = 77;
    assert!(m.run(install_far(target, 6, 1, false)).is_some());
    assert_eq!(m.slot, 77);
}

#[test]
fn length_out_of_range_is_refused() {
    for len in [0, 4, 17] {
        let (ops, next) = install_capture(0x1_4000_1000, len);
        assert!(ops.is_empty());
        assert!(matches!(next, Next::Done(None)));
    }
}

#[test]
fn no_block_means_no_hook() {
    let target = 0x1_4000_1000;
    let mut m = Machine::new(target);
    m.refuse_allocs = 5000;
    assert!(m.run(install_capture(target, 6)).is_none());
    assert_eq!(m.refuse_allocs, 5000 - 2046);
    assert_eq!(m.bytes(target, 6), PROLOGUE);
    assert_eq!(near_alloc_count(&m.registry), 0);
    assert!(m.said.is_empty());
}

#[test]
fn second_hint_is_taken() {
    let target = 0x1_4000_1000;
    let mut m = Machine::new(target);
    m.refuse_allocs = 1;
    let h = m.run(install_capture(target, 6)).expect("installed");
    assert_eq!(h.near_addr(), 0x1_4020_1000);
}

#[test]
fn protected_target_is_left_alone() {
    let target = 0x1_4000_1000;
    let mut m = Machine::new(target);
    m.protect_fails = vec![true];
    assert!(m.run(install_far(target, 6, 1, true)).is_none());
    assert_eq!(m.bytes(target, 6), PROLOGUE);
    assert_eq!(m.slot, 0);
    assert_eq!(m.said, ["[detour] VirtualProtect RWX FAILED target=0x140001000"]);
}

#[test]
fn failed_check_is_rolled_back() {
    let target = 0x1_4000_1000;
    let mut m = Machine::new(target);
    m.corrupt_check = true;
    assert!(m.run(install_far(target, 6, 1, true)).is_none());
    assert_eq!(m.bytes(target, 6), PROLOGUE);
    assert_eq!(m.slot, 0);
    assert_eq!(
        m.said,
        ["[detour] PATCH VERIFY FAILED target=0x140001000 want=e9fbff0f0090 got=16fbff0f0090"]
    );
}

#[test]
fn failed_rollback_is_said() {
    let target = 0x1_4000_1000;
    let mut m = Machine::new(target);
    m.corrupt_check = true;
    m.protect_fails = vec![false, true, true];
    assert!(m.run(install_far(target, 6, 1, true)).is_none());
    assert_ne!(m.bytes(target, 6), PROLOGUE);
    assert_eq!(m.said[0], "[detour] VirtualProtect RESTORE FAILED target=0x140001000");
    assert_eq!(m.said[2], "[detour] ROLLBACK VirtualProtect FAILED target=0x140001000");
    let mut m = Machine::new(target);
    m.corrupt_check = true;
    m.protect_fails = vec![false, false, false, true];
    assert!(m.run(install_far(target, 6, 1, true)).is_none());
    assert_eq!(m.bytes(target, 6), PROLOGUE);
    assert_eq!(m.said[1], "[detour] ROLLBACK PROTECT RESTORE FAILED target=0x140001000");
}

#[test]
fn restore_failures_are_said() {
    let target = 0x1_4000_1000;
    let mut m = Machine::new(target);
    let h = m.run(install_capture(target, 6)).expect("installed");
    m.said.clear();
    m.protect_fails = vec![true];
    assert!(!m.restore(&h));
    assert_ne!(m.bytes(target, 6), PROLOGUE);
    assert_eq!(m.said, ["[detour] restore VirtualProtect FAILED target=0x140001000"]);
    m.said.clear();
    m.protect_fails = vec![false, true];
    m.corrupt_check = true;
    assert!(!m.restore(&h));
    assert_eq!(
        m.said,
        [
            "[detour] restore protection FAILED target=0x140001000",
            "[detour] RESTORE VERIFY FAIL target=0x140001000 want=405556574154 got=bf5556574154",
        ]
    );
}

#[test]
fn checked_capture_reads_the_target() {
    let target = 0x1_4000_1000usize;
    let range = Some((0x1_4000_0000u64, 0x10000usize));
    let mut log = Log::new();
    let mut snap = Snapshot::new();
    let r = install_capture_checked(0, &PROLOGUE, "F", "m.dll", range, &snap, &mut log);
    assert!(matches!(r, Ok(None)));
    let r = install_capture_checked(target, &PROLOGUE, "F", "m.dll", None, &snap, &mut log);
    assert!(matches!(r, Ok(None)));
    assert_eq!(log.lines.len(), 1);
    let r = install_capture_checked(target, &PROLOGUE, "F", "m.dll", range, &snap, &mut log);
    assert!(matches!(r, Err(Need::Bytes(0x1_4000_1000, 6))));
    assert_eq!(log.lines.len(), 1);
    snap.add_bytes(target, PROLOGUE.to_vec());
    let r = install_capture_checked(target, &PROLOGUE, "F", "m.dll", range, &snap, &mut log);
    match r {
        Ok(Some(start)) => assert!(Machine::new(target).run(start).is_some()),
        _ => panic!("expected a start"),
    }
    let mut other = Snapshot::new();
    other.add_bytes(target, vec![0x40, 0x55, 0x56, 0x57, 0x41, 0x55]);
    let r = install_capture_checked(target, &PROLOGUE, "F", "m.dll", range, &other, &mut log);
    assert!(matches!(r, Ok(None)));
    assert_eq!(
        log.lines[1],
        "[detour] F signature mismatch want=405556574154 got=405556574155"
    );
}
