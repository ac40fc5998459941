//! The guard on the game's own decision to leave.
//!
//! The game compares the name of a lobby property that changed with the name of the
//! one by which players are removed. The guard hooks the call that compares them and,
//! while it is enabled, lets the comparison fail.
use vstd::prelude::*;

use crate::bytes;
use crate::detour;
use crate::detour::{Hook, Start};
use crate::log::Log;
use crate::snapshot;
use crate::snapshot::{Need, Snapshot};
use crate::text;

verus! {

/// The call that compares, from the base of the game.
pub const AK2_CALL_RVA: u64 = 0x3B4B5BA;

/// The function that is called.
pub const AK2_MEMCMP_RVA: u64 = 0x49AB360;

/// The test of its result, behind the call.
pub const AK2_TEST_RVA: u64 = 0x3B4B5BF;

/// The jump that is taken where the names differ.
pub const AK2_JNE_RVA: u64 = 0x3B4B5C1;

/// The comparison of the lengths, where they agree.
pub const AK2_LEN_RVA: u64 = 0x3B4B5C7;

/// The name that is looked for.
pub const AK2_STR_RVA: u64 = 0x61D4690;

/// Where the hooked call returns to.
pub const AK2_BACK_RVA: u64 = 0x3B4B5BF;

/// The call that asks to leave the lobby. It is never suppressed as a whole, because
/// a player may want to leave.
pub const NATIVE_LEAVE_CALL_RVA: u64 = 0x3B3B4FA;

/// How many places are compared before the guard is installed.
pub const AK2_SIG_COUNT: usize = 5;

/// Behind an instruction of five bytes.
pub open spec fn behind(target: int) -> int {
    target + 5
}

/// The address behind a hooked call, which has five bytes.
pub fn back_addr(target: u64) -> (r: u64)
    requires
        target + 5 <= u64::MAX,
    ensures
        r == behind(target as int),
{
    target + 5
}

/// The places that are compared, from the base of the game.
pub open spec fn sig_rva(i: int) -> u64 {
    if i == 0 {
        AK2_CALL_RVA
    } else if i == 1 {
        AK2_TEST_RVA
    } else if i == 2 {
        AK2_JNE_RVA
    } else if i == 3 {
        AK2_LEN_RVA
    } else {
        AK2_STR_RVA
    }
}

/// What must stand there.
pub open spec fn sig_bytes(i: int) -> Seq<u8> {
    if i == 0 {
        seq![0xE8u8, 0xA1, 0xFD, 0xE5, 0x00]
    } else if i == 1 {
        seq![0x85u8, 0xC0]
    } else if i == 2 {
        seq![0x0Fu8, 0x85, 0xD2, 0x01, 0x00, 0x00]
    } else if i == 3 {
        seq![0x4Cu8, 0x39, 0xE3]
    } else {
        bytes::ascii("id_container"@)
    }
}

/// A place that is compared, and what must stand there.
pub fn signature(i: usize) -> (r: (u64, Vec<u8>))
    requires
        i < AK2_SIG_COUNT,
    ensures
        r.0 == sig_rva(i as int),
        r.1@ == sig_bytes(i as int),
{
    if i == 0 {
        let v: Vec<u8> = vec![0xE8, 0xA1, 0xFD, 0xE5, 0x00];
        assert(v@ == sig_bytes(0));
        (AK2_CALL_RVA, v)
    } else if i == 1 {
        let v: Vec<u8> = vec![0x85, 0xC0];
        assert(v@ == sig_bytes(1));
        (AK2_TEST_RVA, v)
    } else if i == 2 {
        let v: Vec<u8> = vec![0x0F, 0x85, 0xD2, 0x01, 0x00, 0x00];
        assert(v@ == sig_bytes(2));
        (AK2_JNE_RVA, v)
    } else if i == 3 {
        let v: Vec<u8> = vec![0x4C, 0x39, 0xE3];
        assert(v@ == sig_bytes(3));
        (AK2_LEN_RVA, v)
    } else {
        (AK2_STR_RVA, bytes::ascii_of("id_container"))
    }
}

/// The instructions of the call that asks to leave the lobby.
pub fn native_leave_call_sig() -> (r: Vec<u8>)
    ensures
        r@ == seq![0x45u8, 0x31, 0xC0, 0xE8, 0xE1, 0x21, 0xE7, 0x00, 0x85, 0xC0],
{
    let v: Vec<u8> = vec![0x45, 0x31, 0xC0, 0xE8, 0xE1, 0x21, 0xE7, 0x00, 0x85, 0xC0];
    assert(v@ == seq![0x45u8, 0x31, 0xC0, 0xE8, 0xE1, 0x21, 0xE7, 0x00, 0x85, 0xC0]);
    v
}

/// The places differ from one another, and at each at least two bytes are compared.
pub proof fn lemma_signatures(i: int, j: int)
    requires
        0 <= i < j < AK2_SIG_COUNT,
    ensures
        sig_rva(i) != sig_rva(j),
        sig_bytes(i).len() >= 2,
        sig_bytes(j).len() >= 2,
        behind(AK2_CALL_RVA as int) == AK2_BACK_RVA,
{
    reveal_strlit("id_container");
}

/// Whether what stands at a place is what must stand there.
pub fn sig_match(expected: &[u8], actual: &[u8]) -> (r: bool)
    ensures
        r == (expected@ == actual@),
{
    bytes::same_bytes(expected, actual)
}

/// One byte that differs is enough to refuse.
pub proof fn lemma_sig_byte_matters(expected: Seq<u8>, i: int, b: u8)
    requires
        0 <= i < expected.len(),
        b != expected[i],
    ensures
        expected != expected.update(i, b),
{
    assert(expected.update(i, b)[i] == b);
}

/// The first place, from place `i` on, at which something else stands.
pub open spec fn mismatch_from(k: snapshot::Known, base: u64, i: int) -> Result<Option<u64>, Need>
    decreases AK2_SIG_COUNT - i,
{
    if i >= AK2_SIG_COUNT {
        Ok(None)
    } else {
        match snapshot::bytes_at(
            k,
            (base + sig_rva(i)) as usize,
            sig_bytes(i).len() as usize,
        ) {
            Err(n) => Err(n),
            Ok(b) => if b == sig_bytes(i) {
                mismatch_from(k, base, i + 1)
            } else {
                Ok(Some(sig_rva(i)))
            },
        }
    }
}

/// The first place at which something else stands; nothing stands in a game that is
/// not loaded.
pub open spec fn mismatch(k: snapshot::Known, base: u64) -> Result<Option<u64>, Need> {
    if base == 0 {
        Ok(Some(0))
    } else {
        mismatch_from(k, base, 0)
    }
}

/// Compares the places in the game; gives the first at which something else stands.
pub fn verify_sigs(game_base: u64, snap: &Snapshot) -> (r: Result<Option<u64>, Need>)
    requires
        game_base + AK2_STR_RVA <= u64::MAX,
    ensures
        r == mismatch(snap@, game_base),
{
    if game_base == 0 {
        return Ok(Some(0));
    }
    let mut i: usize = 0;
    while i < AK2_SIG_COUNT
        invariant
            i <= AK2_SIG_COUNT,
            game_base != 0,
            game_base + AK2_STR_RVA <= u64::MAX,
            mismatch_from(snap@, game_base, 0) == mismatch_from(snap@, game_base, i as int),
        decreases AK2_SIG_COUNT - i,
    {
        let (rva, expected) = signature(i);
        match snap.read((game_base + rva) as usize, expected.len()) {
            Ok(actual) => if !sig_match(expected.as_slice(), actual.as_slice()) {
                return Ok(Some(rva));
            },
            Err(n) => {
                return Err(n);
            },
        }
        i += 1;
    }
    Ok(None)
}

/// The guard is installed only where every place holds what it must.
pub proof fn lemma_no_mismatch(k: snapshot::Known, base: u64, i: int, j: int)
    requires
        0 <= i <= j < AK2_SIG_COUNT,
        mismatch_from(k, base, i) == Ok::<Option<u64>, Need>(None),
    ensures
        snapshot::bytes_at(k, (base + sig_rva(j)) as usize, sig_bytes(j).len() as usize) == Ok::<
            Seq<u8>,
            Need,
        >(sig_bytes(j)),
    decreases AK2_SIG_COUNT - i,
{
    if i < j {
        lemma_no_mismatch(k, base, i + 1, j);
    }
}

/// Whether the guard may be installed: into a game that is loaded and holds what it
/// must, and only once.
pub open spec fn may_install(base: u64, sigs_ok: bool, installed: bool) -> bool {
    base != 0 && sigs_ok && !installed
}

pub fn guard_install_allowed(game_base: u64, sigs_ok: bool, installed: bool) -> (r: bool)
    ensures
        r == may_install(game_base, sigs_ok, installed),
{
    game_base != 0 && sigs_ok && !installed
}

/// The result of the comparison that the game gets to see: where the guard is enabled
/// and the names agree, that they differ.
pub open spec fn seen_result(enabled: bool, result: u8) -> u8 {
    if enabled && result == 0 {
        1
    } else {
        result
    }
}

pub fn override_result(enabled: bool, memcmp_eax: u8) -> (r: u8)
    ensures
        r == seen_result(enabled, memcmp_eax),
{
    if enabled && memcmp_eax == 0 {
        1
    } else {
        memcmp_eax
    }
}

/// An enabled guard hides that the names agree, and nothing else; a disabled one
/// hides nothing.
pub proof fn lemma_override(enabled: bool, result: u8)
    ensures
        enabled ==> seen_result(enabled, result) != 0,
        result != 0 ==> seen_result(enabled, result) == result,
        !enabled ==> seen_result(enabled, result) == result,
{
}

/// Whether a byte is printable.
pub open spec fn is_printable(b: u8) -> bool {
    0x20 <= b <= 0x7E
}

/// The bytes of a name, up to a zero, unless one of them is not printable.
pub open spec fn printable_prefix(s: Seq<u8>) -> Option<Seq<u8>>
    decreases s.len(),
{
    if s.len() == 0 || s[0] == 0 {
        Some(seq![])
    } else if !is_printable(s[0]) {
        None
    } else {
        match printable_prefix(s.drop_first()) {
            Some(r) => Some(seq![s[0]] + r),
            None => None,
        }
    }
}

/// The first twelve bytes of a name, as hexadecimal digits.
pub open spec fn peeked(k: snapshot::Known, p: u64) -> Result<Option<Seq<char>>, Need> {
    match snapshot::readable(k, p as usize, 1) {
        Err(n) => Err(n),
        Ok(r) => if !snapshot::safe(p, r) {
            Ok(None)
        } else {
            match snapshot::bytes_at(k, p as usize, 12) {
                Err(n) => Err(n),
                Ok(b) => match printable_prefix(b) {
                    Some(s) => Ok(Some(bytes::hex_pairs(s, true))),
                    None => Ok(None),
                },
            }
        },
    }
}

pub open spec fn view_text(r: Result<Option<String>, Need>) -> Result<Option<Seq<char>>, Need> {
    match r {
        Ok(Some(s)) => Ok(Some(s@)),
        Ok(None) => Ok(None),
        Err(n) => Err(n),
    }
}

/// Reads a name for the log.
pub fn peek_hex(p: u64, snap: &Snapshot) -> (r: Result<Option<String>, Need>)
    ensures
        view_text(r) == peeked(snap@, p),
{
    match snapshot::mem_readable(p as usize, 1, snap) {
        Ok(ok) => if !snapshot::ptr_safe(p, ok) {
            return Ok(None);
        },
        Err(n) => {
            return Err(n);
        },
    }
    let buf = match snap.read(p as usize, 12) {
        Ok(b) => b,
        Err(n) => {
            return Err(n);
        },
    };
    let mut name: Vec<u8> = Vec::new();
    let mut i: usize = 0;
    let ghost want = printable_prefix(buf@);
    assert(buf@.skip(0) == buf@);
    while i < buf.len()
        invariant_except_break
            i <= buf.len(),
            want == printable_prefix(buf@),
            match printable_prefix(buf@.skip(i as int)) {
                Some(r) => want == Some(name@ + r),
                None => want is None,
            },
        invariant
            view_text(Ok(None)) == peeked(snap@, p) || want is Some,
            want is Some ==> peeked(snap@, p) == Ok::<Option<Seq<char>>, Need>(
                Some(bytes::hex_pairs(want->0, true)),
            ),
        ensures
            want == Some(name@),
        decreases buf.len() - i,
    {
        let b: u8 = buf[i];
        assert(buf@.skip(i as int)[0] == b);
        assert(buf@.skip(i as int).drop_first() == buf@.skip(i + 1));
        if b == 0 {
            assert(name@ + Seq::<u8>::empty() == name@);
            break;
        }
        if !(0x20 <= b && b <= 0x7E) {
            return Ok(None);
        }
        let ghost before = name@;
        name.push(b);
        proof {
            match printable_prefix(buf@.skip(i + 1)) {
                Some(r) => {
                    assert(before + (seq![b] + r) == name@ + r);
                },
                None => {},
            }
        }
        i += 1;
        proof {
            if i == buf.len() {
                assert(buf@.skip(i as int).len() == 0);
                assert(name@ + Seq::<u8>::empty() == name@);
            }
        }
    }
    Ok(Some(bytes::hex_pairs_of(name.as_slice(), true)))
}

/// How many comparisons are reported.
pub const DIAG_CAP: u64 = 8;

/// Takes one of the reports that are left.
pub fn take_report(used: &mut u64) -> (r: bool)
    ensures
        r == (*old(used) < DIAG_CAP),
        *final(used) == (if *old(used) == u64::MAX {
            0
        } else {
            (*old(used) + 1) as u64
        }),
{
    let ok = *used < DIAG_CAP;
    *used = used.wrapping_add(1);
    ok
}

/// The report of a comparison that was hidden, where both names can be read.
pub open spec fn keymatch(k: snapshot::Known, key1: u64, key2: u64) -> Result<
    Option<Seq<char>>,
    Need,
> {
    match peeked(k, key1) {
        Err(n) => Err(n),
        Ok(a) => match peeked(k, key2) {
            Err(n) => Err(n),
            Ok(b) => match (a, b) {
                (Some(x), Some(y)) => Ok(Some("[ak2] keymatch key1="@ + x + " key2="@ + y)),
                _ => Ok(None),
            },
        },
    }
}

/// Words the report of a comparison that was hidden.
pub fn diag_peek(key1: u64, key2: u64, snap: &Snapshot) -> (r: Result<Option<String>, Need>)
    ensures
        view_text(r) == keymatch(snap@, key1, key2),
{
    let a = match peek_hex(key1, snap) {
        Ok(a) => a,
        Err(n) => {
            return Err(n);
        },
    };
    let b = match peek_hex(key2, snap) {
        Ok(b) => b,
        Err(n) => {
            return Err(n);
        },
    };
    match (a, b) {
        (Some(x), Some(y)) => {
            let mut s = text::cat3("[ak2] keymatch key1=", x.as_str(), " key2=");
            s.append(y.as_str());
            Ok(Some(s))
        },
        _ => Ok(None),
    }
}

/// The state of the guard.
pub struct Guard {
    pub near: usize,
    pub hook: Option<Hook>,
    /// The function that compares.
    pub real: u64,
    /// Where the hooked call returns to.
    pub back: u64,
    /// Not zero while comparisons are hidden.
    pub enabled: u64,
    /// Whether hidden comparisons are reported.
    pub reports: bool,
    pub calls: u64,
    pub matches: u64,
}

/// A guard is enabled only while it is installed.
pub open spec fn is_guard(g: Guard) -> bool {
    &&& g.hook is Some <==> g.near != 0
    &&& g.hook is None ==> g.enabled == 0
}

impl Guard {
    pub fn new() -> (r: Guard)
        ensures
            is_guard(r),
            r.hook is None,
            r.enabled == 0,
            r.real == 0,
            r.back == 0,
            !r.reports,
            r.calls == 0,
            r.matches == 0,
    {
        Guard {
            near: 0,
            hook: None,
            real: 0,
            back: 0,
            enabled: 0,
            reports: false,
            calls: 0,
            matches: 0,
        }
    }
}

/// What comes of the wish to enable the guard, before anything is installed.
pub ghost enum Wish {
    Wants(Need),
    /// Nothing more is to be done; what is said, and whether the guard is enabled.
    Over(Seq<Seq<char>>, bool),
    Install,
}

/// What comes of the wish to enable the guard. A guard that is there is enabled.
pub open spec fn wish(
    g: Guard,
    base: u64,
    range: Option<(u64, usize)>,
    k: snapshot::Known,
) -> Wish {
    let target = (base + AK2_CALL_RVA) as usize;
    if base == 0 {
        Wish::Over(seq!["[ak2] REFUSED: granblue_fantasy_relink.exe not loaded"@], false)
    } else if g.near != 0 {
        Wish::Over(seq!["[ak2] already installed (enabled=1)"@], true)
    } else if !detour::is_within(target, range) {
        Wish::Over(
            seq![detour::preflight_line(target, "granblue_fantasy_relink.exe"@, range)],
            false,
        )
    } else {
        match mismatch(k, base) {
            Err(n) => Wish::Wants(n),
            Ok(Some(rva)) => Wish::Over(
                seq![
                    "[ak2] REFUSED: signature mismatch at game_base+0x"@ + text::hex_upper(
                        rva as int,
                    ),
                ],
                false,
            ),
            Ok(None) => Wish::Install,
        }
    }
}

/// Enables the guard, or begins to install it. What the hook will use is in place
/// before the game is patched, and the guard is disabled until that is done. `stub`
/// is where the hook jumps to.
pub fn native_guard_on(
    g: &mut Guard,
    base: u64,
    range: Option<(u64, usize)>,
    stub: u64,
    snap: &Snapshot,
    log: &mut Log,
) -> (r: Result<Start, Need>)
    requires
        is_guard(*old(g)),
        detour::range_fits(range),
        base + AK2_STR_RVA <= u64::MAX,
        (base + AK2_CALL_RVA) as usize + 0x3FF0_0000 <= usize::MAX,
    ensures
        is_guard(*final(g)),
        match wish(*old(g), base, range, snap@) {
            Wish::Wants(n) => r == Err::<Start, Need>(n) && *final(g) == *old(g) && final(log)@
                == old(log)@,
            Wish::Over(lines, on) => (r matches Ok(Start::Done(b)) && b == on) && *final(g) == (if on {
                Guard { enabled: 1, ..*old(g) }
            } else {
                *old(g)
            }) && final(log)@ == old(log)@ + lines,
            Wish::Install => (r matches Ok(Start::Install(ops, next)) && (
                detour::deeds(ops@),
                next@,
            ) == detour::install_start((base + AK2_CALL_RVA) as usize, 5, false, stub, false))
                && *final(g) == (Guard {
                real: (base + AK2_MEMCMP_RVA) as u64,
                back: (base + AK2_BACK_RVA) as u64,
                enabled: 0,
                reports: true,
                ..*old(g)
            }) && final(log)@ == old(log)@,
        },
{
    let ghost w = wish(*g, base, range, snap@);
    if base == 0 {
        log.say(text::text_of("[ak2] REFUSED: granblue_fantasy_relink.exe not loaded"));
        assert(log@ == old(log)@ + w->Over_0);
        return Ok(Start::Done(false));
    }
    let installed = g.near != 0;
    if installed {
        g.enabled = 1;
        log.say(text::text_of("[ak2] already installed (enabled=1)"));
        assert(log@ == old(log)@ + w->Over_0);
        return Ok(Start::Done(true));
    }
    let target: usize = (base + AK2_CALL_RVA) as usize;
    if !detour::preflight(target, "granblue_fantasy_relink.exe", range, log) {
        return Ok(Start::Done(false));
    }
    assert(log@ == old(log)@);
    let mismatch = match verify_sigs(base, snap) {
        Ok(m) => m,
        Err(n) => {
            return Err(n);
        },
    };
    if !guard_install_allowed(base, mismatch.is_none(), installed) {
        match mismatch {
            Some(rva) => {
                log.say(
                    text::cat2(
                        "[ak2] REFUSED: signature mismatch at game_base+0x",
                        text::hex_of(rva).as_str(),
                    ),
                );
                assert(log@ == old(log)@ + w->Over_0);
            },
            None => {},
        }
        return Ok(Start::Done(false));
    }
    g.real = base + AK2_MEMCMP_RVA;
    g.back = base + AK2_BACK_RVA;
    g.enabled = 0;
    g.reports = true;
    let (ops, next) = detour::install_far(target, 5, stub, false);
    Ok(Start::Install(ops, next))
}

/// The line that reports the guard.
pub open spec fn guard_line(base: u64) -> Seq<char> {
    "[ak2] native guard installed at 0x"@ + text::hex_upper(
        (base + AK2_CALL_RVA) as usize as int,
    ) + " enabled=1 real=0x"@ + text::hex_upper(base + AK2_MEMCMP_RVA) + " back=0x"@
        + text::hex_upper(base + AK2_BACK_RVA)
}

/// Takes the outcome of the installation: the guard is enabled once its hook is there.
pub fn guard_installed(g: &mut Guard, base: u64, hook: Option<Hook>, log: &mut Log)
    requires
        is_guard(*old(g)),
        old(g).hook is None,
        base + AK2_STR_RVA <= u64::MAX,
    ensures
        is_guard(*final(g)),
        match hook {
            Some(h) => final(g).hook == hook && final(g).near == h@.near && final(g).enabled == 1
                && final(g).calls == 0 && final(g).matches == 0 && final(log)@ == old(log)@.push(
                guard_line(base),
            ),
            None => final(g).hook is None && final(g).near == old(g).near && final(g).enabled == 0
                && final(g).calls == old(g).calls && final(g).matches == old(g).matches && final(
                log)@ == old(log)@.push("[ak2] install FAILED (near alloc)"@),
        },
        final(g).real == old(g).real,
        final(g).back == old(g).back,
        final(g).reports == old(g).reports,
        *final(g) == held(*old(g), hook),
{
    match hook {
        Some(h) => {
            g.near = h.near_addr();
            g.hook = Some(h);
            g.enabled = 1;
            g.calls = 0;
            g.matches = 0;
            let mut s = text::cat3(
                "[ak2] native guard installed at 0x",
                text::hex_of((base + AK2_CALL_RVA) as usize as u64).as_str(),
                " enabled=1 real=0x",
            );
            s.append(text::hex_of(base + AK2_MEMCMP_RVA).as_str());
            s.append(" back=0x");
            s.append(text::hex_of(base + AK2_BACK_RVA).as_str());
            log.say(s);
        },
        None => {
            g.enabled = 0;
            log.say(text::text_of("[ak2] install FAILED (near alloc)"));
        },
    }
}

/// Disables the guard, and tells whether there is a hook to take back.
pub fn native_guard_uninstall(g: &mut Guard, log: &mut Log) -> (r: bool)
    requires
        is_guard(*old(g)),
    ensures
        is_guard(*final(g)),
        r == (old(g).hook is Some),
        *final(g) == (Guard { enabled: 0, ..*old(g) }),
        *final(g) == disabled(*old(g)),
        final(log)@ == (if r {
            old(log)@
        } else {
            old(log)@.push("[ak2] already removed"@)
        }),
{
    if g.hook.is_none() {
        log.say(text::text_of("[ak2] already removed"));
        return false;
    }
    g.enabled = 0;
    true
}

pub open spec fn counters_line(calls: u64, matches: u64) -> Seq<char> {
    "[ak2] counters calls="@ + text::dec(calls as int) + " matches="@ + text::dec(matches as int)
}

/// Takes the outcome of taking the hook back.
pub fn guard_restored(g: &mut Guard, restored: bool, log: &mut Log)
    requires
        is_guard(*old(g)),
    ensures
        is_guard(*final(g)),
        restored ==> *final(g) == (Guard {
            near: 0,
            hook: None,
            real: 0,
            back: 0,
            enabled: 0,
            reports: false,
            ..*old(g)
        }) && final(log)@ == old(log)@ + seq![
            counters_line(old(g).calls, old(g).matches),
            "[ak2] native guard removed"@,
        ],
        *final(g) == removed(*old(g), restored),
        !restored ==> *final(g) == *old(g) && final(log)@ == old(log)@.push(
            "[ak2] native guard restore FAILED — slot retained"@,
        ),
{
    if !restored {
        log.say(text::text_of("[ak2] native guard restore FAILED — slot retained"));
        return;
    }
    g.hook = None;
    g.near = 0;
    let mut s = text::cat3(
        "[ak2] counters calls=",
        text::dec_of(g.calls).as_str(),
        " matches=",
    );
    s.append(text::dec_of(g.matches).as_str());
    log.say(s);
    g.real = 0;
    g.back = 0;
    g.reports = false;
    g.enabled = 0;
    log.say(text::text_of("[ak2] native guard removed"));
    assert(log@ == old(log)@ + seq![
        counters_line(old(g).calls, old(g).matches),
        "[ak2] native guard removed"@,
    ]);
}

/// A guard that is there is not installed a second time.
pub proof fn lemma_no_double_install(
    g: Guard,
    base: u64,
    range: Option<(u64, usize)>,
    k: snapshot::Known,
)
    requires
        is_guard(g),
        g.hook is Some,
    ensures
        !(wish(g, base, range, k) is Install),
{
}

/// The guard is installed only into a game that holds what it must at every place.
pub proof fn lemma_guard_fails_closed(
    g: Guard,
    base: u64,
    range: Option<(u64, usize)>,
    k: snapshot::Known,
    i: int,
)
    requires
        wish(g, base, range, k) is Install,
        0 <= i < AK2_SIG_COUNT,
    ensures
        base != 0,
        snapshot::bytes_at(k, (base + sig_rva(i)) as usize, sig_bytes(i).len() as usize) == Ok::<
            Seq<u8>,
            Need,
        >(sig_bytes(i)),
{
    lemma_no_mismatch(k, base, 0, i);
}

/// The signatures fit together: the first is a call that leads to the function that
/// compares, the next three stand one behind the other after it, and the last is the text
/// that is compared.
pub proof fn lemma_signatures_fit()
    ensures
        detour::jump_target(AK2_CALL_RVA as int, sig_bytes(0)) == AK2_MEMCMP_RVA,
        sig_bytes(0)[0] == 0xE8,
        sig_rva(0) == AK2_CALL_RVA,
        sig_rva(1) == sig_rva(0) + sig_bytes(0).len(),
        sig_rva(2) == sig_rva(1) + sig_bytes(1).len(),
        sig_rva(3) == sig_rva(2) + sig_bytes(2).len(),
        AK2_BACK_RVA == sig_rva(1),
        sig_rva(4) == 0x61D4690,
        sig_rva(0) == 0x3B4B5BA,
        sig_bytes(1) == seq![0x85u8, 0xC0],
        sig_bytes(2).take(2) == seq![0x0Fu8, 0x85],
        sig_bytes(2).skip(2) == bytes::le_bytes(0x1D2, 4),
        sig_bytes(3) == seq![0x4Cu8, 0x39, 0xE3],
        bytes::byte_chars(sig_bytes(4)) == "id_container"@,
{
    let b = sig_bytes(0).subrange(1, 5);
    assert(b =~= seq![0xA1u8, 0xFD, 0xE5, 0x00]);
    reveal_with_fuel(bytes::le_value, 5);
    assert(b.drop_first() =~= seq![0xFDu8, 0xE5, 0x00]);
    assert(b.drop_first().drop_first() =~= seq![0xE5u8, 0x00]);
    assert(b.drop_first().drop_first().drop_first() =~= seq![0x00u8]);
    reveal_with_fuel(bytes::le_bytes, 5);
    assert(sig_bytes(2).take(2) =~= seq![0x0Fu8, 0x85]);
    assert(sig_bytes(2).skip(2) =~= bytes::le_bytes(0x1D2, 4));
    reveal_strlit("id_container");
    bytes::lemma_ascii_reads_back("id_container"@);
}

/// The signatures are found where every one of the five is there, byte for byte, and the
/// game is loaded; where one is not, the place of the first that is not is told.
pub proof fn lemma_mismatch(k: snapshot::Known, base: u64, i: int)
    requires
        base != 0,
        0 <= i <= 5,
        forall|j: int|
            0 <= j < i ==> snapshot::bytes_at(
                k,
                (base + #[trigger] sig_rva(j)) as usize,
                sig_bytes(j).len() as usize,
            ) == Ok::<Seq<u8>, Need>(sig_bytes(j)),
    ensures
        i == 5 ==> mismatch(k, base) == Ok::<Option<u64>, Need>(None),
        i < 5 && snapshot::bytes_at(
            k,
            (base + sig_rva(i)) as usize,
            sig_bytes(i).len() as usize,
        ) is Err ==> mismatch(k, base) is Err,
        i < 5 && snapshot::bytes_at(
            k,
            (base + sig_rva(i)) as usize,
            sig_bytes(i).len() as usize,
        ) is Ok && snapshot::bytes_at(
            k,
            (base + sig_rva(i)) as usize,
            sig_bytes(i).len() as usize,
        )->Ok_0 != sig_bytes(i) ==> mismatch(k, base) == Ok::<Option<u64>, Need>(Some(sig_rva(i))),
        mismatch(k, 0) == Ok::<Option<u64>, Need>(Some(0)),
{
    reveal_with_fuel(mismatch_from, 6);
    assert(0 < i ==> sig_rva(0) == sig_rva(0));
    assert(forall|j: int|
        0 <= j < i ==> snapshot::bytes_at(
            k,
            (base + sig_rva(j)) as usize,
            sig_bytes(j).len() as usize,
        ) == Ok::<Seq<u8>, Need>(#[trigger] sig_bytes(j)));
}

/// What the comparison is seen to give: while the guard is enabled never that the texts are
/// equal, and otherwise just what it gave.
pub proof fn lemma_comparison_is_hidden(enabled: bool, result: u8)
    ensures
        seen_result(enabled, result) == (if enabled && result == 0 {
            1u8
        } else {
            result
        }),
{
}

/// The guard is installed only over a game that is loaded, in which the place lies and every
/// signature is there, and only where it is not installed yet; where it is, it is enabled.
pub proof fn lemma_guard_wishes(
    g: Guard,
    base: u64,
    range: Option<(u64, usize)>,
    k: snapshot::Known,
)
    ensures
        ({
            let w = wish(g, base, range, k);
            let target = (base + 0x3B4B5BA) as usize;
            let inside = range matches Some(r) && r.0 <= target && target < r.0 + r.1;
            &&& w is Install <==> base != 0 && g.near == 0 && inside && mismatch(k, base) == Ok::<
                Option<u64>,
                Need,
            >(None)
            &&& w is Wants <==> base != 0 && g.near == 0 && inside && mismatch(k, base) is Err
            &&& w is Over && w->Over_1 <==> base != 0 && g.near != 0
            &&& w is Over ==> w->Over_0.len() == 1
        }),
        forall|sigs_ok: bool, installed: bool| #[trigger]
            may_install(base, sigs_ok, installed) == !(base == 0 || !sigs_ok || installed),
{
}

/// A text is looked at up to its first zero, and only where every byte before that can be
/// printed, from space to tilde.
pub proof fn lemma_printable(s: Seq<u8>, behind: Seq<u8>)
    requires
        forall|i: int| 0 <= i < s.len() ==> ' ' <= (#[trigger] s[i]) as char <= '~',
    ensures
        printable_prefix(s) == Some(s),
        printable_prefix(s + seq![0u8] + behind) == Some(s),
        behind.len() > 0 && behind[0] != 0 && !(' ' <= behind[0] as char <= '~')
            ==> printable_prefix(s + behind) is None,
    decreases s.len(),
{
    let a = s + seq![0u8] + behind;
    let b = s + behind;
    if s.len() == 0 {
        assert(a[0] == 0);
        assert(b =~= behind);
        assert(s =~= Seq::<u8>::empty());
    } else {
        let t = s.drop_first();
        assert forall|i: int| 0 <= i < t.len() implies ' ' <= (#[trigger] t[i]) as char <= '~' by {
            assert(t[i] == s[i + 1]);
        }
        lemma_printable(t, behind);
        assert(' ' <= s[0] as char <= '~');
        assert(a.drop_first() =~= t + seq![0u8] + behind);
        assert(b.drop_first() =~= t + behind);
        assert(s =~= seq![s[0]] + t);
    }
}

/// A match is told with both texts, each as hexadecimal digits, and only where both can be
/// looked at: they are not too low, may be read, and can be printed.
pub proof fn lemma_match_is_told(
    k: snapshot::Known,
    key1: u64,
    key2: u64,
    x: Seq<char>,
    y: Seq<char>,
)
    requires
        peeked(k, key1) is Ok,
        peeked(k, key2) is Ok,
    ensures
        peeked(k, key1)->Ok_0 == Some(x) && peeked(k, key2)->Ok_0 == Some(y) ==> keymatch(
            k,
            key1,
            key2,
        ) == Ok::<Option<Seq<char>>, Need>(Some("[ak2] keymatch key1="@ + x + " key2="@ + y)),
        peeked(k, key1)->Ok_0 is None || peeked(k, key2)->Ok_0 is None ==> keymatch(k, key1, key2)
            == Ok::<Option<Seq<char>>, Need>(None),
{
}

/// A text is looked at where it lies: the first twelve bytes, from an address that is not
/// too low and may be read.
pub proof fn lemma_peeked(k: snapshot::Known, p: u64, s: Seq<u8>)
    requires
        p <= usize::MAX,
        snapshot::readable(k, p as usize, 1) is Ok,
    ensures
        !snapshot::readable(k, p as usize, 1)->Ok_0 || p < 0x10000 ==> peeked(k, p) == Ok::<
            Option<Seq<char>>,
            Need,
        >(None),
        snapshot::readable(k, p as usize, 1)->Ok_0 && p >= 0x10000 && snapshot::bytes_at(
            k,
            p as usize,
            12,
        ) is Ok && printable_prefix(snapshot::bytes_at(k, p as usize, 12)->Ok_0) == Some(s)
            ==> peeked(k, p) == Ok::<Option<Seq<char>>, Need>(Some(bytes::hex_pairs(s, true))),
        snapshot::readable(k, p as usize, 1)->Ok_0 && p >= 0x10000 && snapshot::bytes_at(
            k,
            p as usize,
            12,
        ) is Ok && printable_prefix(snapshot::bytes_at(k, p as usize, 12)->Ok_0) is None ==> peeked(
            k,
            p,
        ) == Ok::<Option<Seq<char>>, Need>(None),
{
}

/// What is told of the guard: where it is, the function that compares and where it returns
/// to; how often it was called and how many comparisons matched; and which signature was not
/// found. Eight matches are reported.
pub proof fn lemma_guard_is_told(
    g: Guard,
    base: u64,
    range: Option<(u64, usize)>,
    k: snapshot::Known,
    calls: u64,
    matches: u64,
    rva: u64,
)
    requires
        base + 0x61D4690 <= usize::MAX,
    ensures
        guard_line(base) == "[ak2] native guard installed at 0x"@ + text::numeral(
            base + 0x3B4B5BA,
            16,
            true,
        ) + " enabled=1 real=0x"@ + text::numeral(base + 0x49AB360, 16, true) + " back=0x"@
            + text::numeral(base + 0x3B4B5BF, 16, true),
        counters_line(calls, matches) == "[ak2] counters calls="@ + text::numeral(
            calls as int,
            10,
            false,
        ) + " matches="@ + text::numeral(matches as int, 10, false),
        base != 0 && g.near == 0 && detour::is_within((base + 0x3B4B5BA) as usize, range)
            && mismatch(k, base) == Ok::<Option<u64>, Need>(Some(rva)) ==> wish(g, base, range, k)
            == Wish::Over(
            seq![
                "[ak2] REFUSED: signature mismatch at game_base+0x"@ + text::numeral(
                    rva as int,
                    16,
                    true,
                ),
            ],
            false,
        ),
        base == 0 ==> wish(g, base, range, k) == Wish::Over(
            seq!["[ak2] REFUSED: granblue_fantasy_relink.exe not loaded"@],
            false,
        ),
        base != 0 && g.near != 0 ==> wish(g, base, range, k) == Wish::Over(
            seq!["[ak2] already installed (enabled=1)"@],
            true,
        ),
        DIAG_CAP == 8,
{
}

/// The guard once its hook was installed, or was not.
pub open spec fn held(g: Guard, hook: Option<Hook>) -> Guard {
    match hook {
        Some(h) => Guard { hook, near: h@.near, enabled: 1, calls: 0, matches: 0, ..g },
        None => Guard { enabled: 0, ..g },
    }
}

/// The guard once it was told to stop.
pub open spec fn disabled(g: Guard) -> Guard {
    Guard { enabled: 0, ..g }
}

/// The guard once its hook was taken back, or was not.
pub open spec fn removed(g: Guard, restored: bool) -> Guard {
    if restored {
        Guard { near: 0, hook: None, real: 0, back: 0, enabled: 0, reports: false, ..g }
    } else {
        g
    }
}

/// The guard is enabled exactly where its hook was installed, and counts from zero; told to
/// stop it hides nothing any more, whether its hook can be taken back or not; and once that
/// is taken back nothing of it is kept but what it counted.
pub proof fn lemma_guard_follows_hook(g: Guard, hook: Option<Hook>, restored: bool)
    requires
        g.hook is None,
        is_guard(g),
    ensures
        hook is Some ==> held(g, hook).enabled == 1 && held(g, hook).hook == hook && held(
            g,
            hook,
        ).near == hook->0@.near && held(g, hook).calls == 0 && held(g, hook).matches == 0,
        hook is None ==> held(g, hook) == g,
        disabled(held(g, hook)).enabled == 0,
        disabled(held(g, hook)).hook == held(g, hook).hook,
        disabled(held(g, hook)).near == held(g, hook).near,
        removed(disabled(held(g, hook)), restored).enabled == 0,
        restored ==> removed(held(g, hook), restored).hook is None && removed(
            held(g, hook),
            restored,
        ).near == 0 && removed(held(g, hook), restored).real == 0 && removed(
            held(g, hook),
            restored,
        ).back == 0 && removed(held(g, hook), restored).calls == held(g, hook).calls,
        !restored ==> removed(held(g, hook), restored) == held(g, hook),
{
}

/// What was looked at is read as it stands.
pub proof fn lemma_view_text(s: String, n: Need)
    ensures
        view_text(Ok(Some(s))) == Ok::<Option<Seq<char>>, Need>(Some(s@)),
        view_text(Ok(None)) == Ok::<Option<Seq<char>>, Need>(None),
        view_text(Err(n)) == Err::<Option<Seq<char>>, Need>(n),
{
}

} // verus!
