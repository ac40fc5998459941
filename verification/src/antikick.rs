//! Staying in the lobby.
//!
//! A player is removed in one of two ways. Where the game decides it, on a property
//! of the lobby, the decision can be suppressed; a removal by the service cannot be
//! prevented. What suppresses is off by default and refuses to be installed in a
//! game whose code differs from the one it was made for.
use vstd::prelude::*;

use crate::bytes;
use crate::detour::Hook;
use crate::log::Log;
use crate::snapshot;
use crate::snapshot::{Need, Snapshot};
use crate::text;

verus! {

/// How a player was removed, as far as it was seen.
#[derive(Clone, Copy, PartialEq, Eq, Debug, Structural)]
pub enum KickPath {
    NothingObserved,
    NativeInstructionObserved,
    LocalLeaveObserved,
    OfficialMemberRemovedObserved,
    Inconclusive,
}

/// How a player was removed. A removal by the service takes precedence; together
/// with a decision of the game it is inconclusive.
pub open spec fn kick_path(native: bool, leave: bool, official: bool) -> KickPath {
    if official && native {
        KickPath::Inconclusive
    } else if official {
        KickPath::OfficialMemberRemovedObserved
    } else if native {
        KickPath::NativeInstructionObserved
    } else if leave {
        KickPath::LocalLeaveObserved
    } else {
        KickPath::Inconclusive
    }
}

/// Tells how a player was removed, from what was seen: a decision of the game, that
/// it left the lobby, a removal by the service.
pub fn classify_kick_path(native_instr: bool, local_leave: bool, official_member_removed: bool)
    -> (r: KickPath)
    ensures
        r == kick_path(native_instr, local_leave, official_member_removed),
{
    if official_member_removed {
        if native_instr {
            KickPath::Inconclusive
        } else {
            KickPath::OfficialMemberRemovedObserved
        }
    } else if native_instr {
        KickPath::NativeInstructionObserved
    } else if local_leave {
        KickPath::LocalLeaveObserved
    } else {
        KickPath::Inconclusive
    }
}

/// Whether a removal may be suppressed: only a decision of the game may.
pub open spec fn suppressible(path: KickPath) -> bool {
    path == KickPath::NativeInstructionObserved
}

pub fn may_suppress(path: KickPath) -> (r: bool)
    ensures
        r == suppressible(path),
{
    path == KickPath::NativeInstructionObserved
}

/// A removal by the service is never suppressed, whatever else was seen.
pub proof fn lemma_official_never_suppressible(native: bool, leave: bool)
    ensures
        !suppressible(kick_path(native, leave, true)),
{
}

/// Only a decision of the game is suppressed; that the player did not leave is not
/// by itself a reason.
pub proof fn lemma_suppression_needs_native(native: bool, leave: bool, official: bool)
    ensures
        suppressible(kick_path(native, leave, official)) <==> native && !official,
{
}

/// The state of the hook in the multiplayer library.
pub struct Antikick {
    /// Whether it may be installed at all.
    pub experimental: bool,
    /// Not zero while it suppresses.
    pub enabled: u64,
    pub near: usize,
    pub tramp: u64,
    pub hook: Option<Hook>,
}

/// It suppresses only while it may be installed.
pub open spec fn is_antikick(a: Antikick) -> bool {
    !a.experimental ==> a.enabled == 0
}

impl Antikick {
    pub fn new() -> (r: Antikick)
        ensures
            is_antikick(r),
            !r.experimental,
            r.enabled == 0,
            r.near == 0,
            r.tramp == 0,
            r.hook is None,
    {
        Antikick { experimental: false, enabled: 0, near: 0, tramp: 0, hook: None }
    }
}

/// The switch that results from one that is asked for: off, unless it may be
/// installed.
pub fn next_enabled(experimental: bool, current: u64) -> (r: u64)
    ensures
        r == (if experimental {
            current
        } else {
            0
        }),
{
    if experimental {
        current
    } else {
        0
    }
}

pub open spec fn switch_value(experimental: bool, on: bool) -> u64 {
    if experimental && on {
        1
    } else {
        0
    }
}

pub open spec fn enabled_line(v: u64) -> Seq<char> {
    if v != 0 {
        "[ak] enabled"@
    } else {
        "[ak] disabled"@
    }
}

/// Switches suppression on or off. Off always wins.
pub fn set_enabled(ak: &mut Antikick, on: bool, log: &mut Log)
    ensures
        *final(ak) == (Antikick {
            enabled: switch_value(old(ak).experimental, on),
            ..*old(ak)
        }),
        *final(ak) == switched(*old(ak), on),
        is_antikick(*final(ak)),
        final(log)@ == old(log)@.push(enabled_line(switch_value(old(ak).experimental, on))),
{
    let asked: u64 = if on {
        1
    } else {
        0
    };
    let val: u64 = next_enabled(ak.experimental, asked);
    ak.enabled = val;
    if val != 0 {
        log.say(text::text_of("[ak] enabled"));
    } else {
        log.say(text::text_of("[ak] disabled"));
    }
}

/// Allows the hook to be installed, or forbids it; forbidden, it no longer
/// suppresses, though it stays where it is.
pub fn set_experimental(ak: &mut Antikick, on: bool, log: &mut Log)
    ensures
        *final(ak) == (Antikick {
            experimental: on,
            enabled: if on {
                old(ak).enabled
            } else {
                0
            },
            ..*old(ak)
        }),
        *final(ak) == allowed_to(*old(ak), on),
        is_antikick(*final(ak)),
        final(log)@ == old(log)@ + (if on {
            seq![
                "[ak] EXPERIMENTAL MODE ON — known crash risk (B29), server-side removal is final, this only suppresses local change generation"@,
            ]
        } else {
            seq![
                "[ak] disabled"@,
                "[ak] EXPERIMENTAL MODE OFF — hook stays installed but disabled"@,
            ]
        }),
{
    ak.experimental = on;
    if on {
        log.say(
            text::text_of(
                "[ak] EXPERIMENTAL MODE ON — known crash risk (B29), server-side removal is final, this only suppresses local change generation",
            ),
        );
        assert(log@ == old(log)@ + seq![
            "[ak] EXPERIMENTAL MODE ON — known crash risk (B29), server-side removal is final, this only suppresses local change generation"@,
        ]);
    } else {
        set_enabled(ak, false, log);
        log.say(
            text::text_of("[ak] EXPERIMENTAL MODE OFF — hook stays installed but disabled"),
        );
        assert(log@ == old(log)@ + seq![
            "[ak] disabled"@,
            "[ak] EXPERIMENTAL MODE OFF — hook stays installed but disabled"@,
        ]);
    }
}

/// Whether the slot holds a hook.
pub fn ak_slot_held(h: &Option<Hook>) -> (r: bool)
    ensures
        r == (h is Some),
{
    h.is_some()
}

/// What `unhook` says.
pub open spec fn unhook_line(held: bool, restored: bool) -> Seq<char> {
    if !held {
        "[ak] already unhooked"@
    } else if !restored {
        "[ak] hook restore FAILED — slot retained"@
    } else {
        "[ak] hook restored"@
    }
}

/// Clears the hook, if there was one and it was taken back.
pub fn unhook(ak: &mut Antikick, restored: bool, log: &mut Log)
    requires
        is_antikick(*old(ak)),
    ensures
        is_antikick(*final(ak)),
        *final(ak) == (if old(ak).hook is Some && restored {
            Antikick {
                experimental: old(ak).experimental,
                enabled: 0,
                near: 0,
                tramp: 0,
                hook: None,
            }
        } else {
            *old(ak)
        }),
        *final(ak) == unhooked(*old(ak), restored),
        final(log)@ == old(log)@.push(unhook_line(old(ak).hook is Some, restored)),
{
    if !ak_slot_held(&ak.hook) {
        log.say(text::text_of("[ak] already unhooked"));
        return;
    }
    if !restored {
        log.say(text::text_of("[ak] hook restore FAILED — slot retained"));
        return;
    }
    ak.hook = None;
    ak.near = 0;
    ak.tramp = 0;
    ak.enabled = 0;
    log.say(text::text_of("[ak] hook restored"));
}

/// Whether the hook may be installed.
pub fn install_allowed(flag: bool, sdk_loaded: bool) -> (r: bool)
    ensures
        r == (flag && sdk_loaded),
{
    flag && sdk_loaded
}

/// What `install` says.
pub open spec fn install_lines(allowed: bool, installed: bool) -> Seq<Seq<char>> {
    if !allowed {
        seq![
            "[ak] REFUSED: antikick is EXPERIMENTAL and DISABLED by default (crashed in B29 test; server-side removal is final) — use antikick_exp on to enable"@,
        ]
    } else if installed {
        seq![]
    } else {
        seq!["[ak] REFUSED: legacy SDK MemberRemoved factory is quarantined"@]
    }
}

/// Asks for the hook to be installed. One that is there is switched on; a new one is
/// always refused.
pub fn install(ak: &mut Antikick, sdk_base: u64, log: &mut Log)
    requires
        is_antikick(*old(ak)),
    ensures
        is_antikick(*final(ak)),
        ({
            let allowed = old(ak).experimental && sdk_base != 0;
            &&& *final(ak) == (Antikick {
                enabled: if allowed && old(ak).near != 0 {
                    1
                } else {
                    old(ak).enabled
                },
                ..*old(ak)
            })
            &&& final(log)@ == old(log)@ + install_lines(allowed, old(ak).near != 0)
        }),
        *final(ak) == installed(*old(ak), sdk_base),
{
    if !install_allowed(ak.experimental, sdk_base != 0) {
        log.say(
            text::text_of(
                "[ak] REFUSED: antikick is EXPERIMENTAL and DISABLED by default (crashed in B29 test; server-side removal is final) — use antikick_exp on to enable",
            ),
        );
        assert(log@ == old(log)@ + install_lines(false, old(ak).near != 0));
        return;
    }
    if ak.near != 0 {
        ak.enabled = 1;
        assert(log@ == old(log)@ + install_lines(true, true));
        return;
    }
    log.say(text::text_of("[ak] REFUSED: legacy SDK MemberRemoved factory is quarantined"));
    assert(log@ == old(log)@ + install_lines(true, false));
}

/// Whether two strings that end in a zero are equal from position `i` on. Neither
/// may be longer than 64 bytes, and both must be readable.
pub open spec fn same_from(k: snapshot::Known, a: usize, b: usize, i: int) -> Result<i32, Need>
    decreases 65 - i,
{
    if i > 64 || a + i > usize::MAX || b + i > usize::MAX {
        Ok(0)
    } else {
        match snapshot::readable(k, (a + i) as usize, 1) {
            Err(n) => Err(n),
            Ok(false) => Ok(0),
            Ok(true) => match snapshot::readable(k, (b + i) as usize, 1) {
                Err(n) => Err(n),
                Ok(false) => Ok(0),
                Ok(true) => match snapshot::bytes_at(k, (a + i) as usize, 1) {
                    Err(n) => Err(n),
                    Ok(x) => match snapshot::bytes_at(k, (b + i) as usize, 1) {
                        Err(n) => Err(n),
                        Ok(y) => if x[0] != y[0] {
                            Ok(0)
                        } else if x[0] == 0 {
                            Ok(1)
                        } else {
                            same_from(k, a, b, i + 1)
                        },
                    },
                },
            },
        }
    }
}

/// How far it is known that the player's own id can be read.
pub open spec fn my_id_safe(k: snapshot::Known, my: u64) -> Result<bool, Need> {
    match snapshot::readable(k, my as usize, 1) {
        Err(n) => Err(n),
        Ok(r) => Ok(snapshot::safe(my, r)),
    }
}

/// Whether the member at `entity` is the player, whose id is at `my`: one if so. What
/// cannot be read is not the player.
pub open spec fn is_me(k: snapshot::Known, entity: usize, my: u64) -> Result<i32, Need> {
    if my == 0 || entity == 0 {
        Ok(0)
    } else {
        match my_id_safe(k, my) {
            Err(n) => Err(n),
            Ok(false) => Ok(0),
            Ok(true) => match snapshot::readable(k, entity, 8) {
                Err(n) => Err(n),
                Ok(r) => if !snapshot::safe(entity as u64, r) {
                    Ok(0)
                } else {
                    match snapshot::bytes_at(k, entity, 8) {
                        Err(n) => Err(n),
                        Ok(b) => {
                            let id = bytes::le_value(b) as u64;
                            match snapshot::readable(k, id as usize, 1) {
                                Err(n) => Err(n),
                                Ok(r2) => if !snapshot::safe(id, r2) {
                                    Ok(0)
                                } else {
                                    same_from(k, id as usize, my as usize, 0)
                                },
                            }
                        },
                    }
                },
            },
        }
    }
}

/// What `ak_check` says.
pub open spec fn is_me_lines(k: snapshot::Known, entity: usize, my: u64) -> Seq<Seq<char>> {
    if my != 0 && entity != 0 && my_id_safe(k, my) == Ok::<bool, Need>(false) {
        seq!["[ak] MY_ID invalid, pass-through"@]
    } else {
        seq![]
    }
}

fn same_ids(snap: &Snapshot, a: usize, b: usize) -> (r: Result<i32, Need>)
    ensures
        r == same_from(snap@, a, b, 0),
{
    let mut i: usize = 0;
    while i <= 64
        invariant
            i <= 65,
            same_from(snap@, a, b, 0) == same_from(snap@, a, b, i as int),
        decreases 65 - i,
    {
        let x: usize = match a.checked_add(i) {
            Some(x) => x,
            None => {
                return Ok(0);
            },
        };
        let y: usize = match b.checked_add(i) {
            Some(y) => y,
            None => {
                return Ok(0);
            },
        };
        match snapshot::mem_readable(x, 1, snap) {
            Ok(ok) => if !ok {
                return Ok(0);
            },
            Err(n) => {
                return Err(n);
            },
        }
        match snapshot::mem_readable(y, 1, snap) {
            Ok(ok) => if !ok {
                return Ok(0);
            },
            Err(n) => {
                return Err(n);
            },
        }
        let p = match snap.read(x, 1) {
            Ok(v) => v,
            Err(n) => {
                return Err(n);
            },
        };
        let q = match snap.read(y, 1) {
            Ok(v) => v,
            Err(n) => {
                return Err(n);
            },
        };
        if p[0] != q[0] {
            return Ok(0);
        }
        if p[0] == 0 {
            return Ok(1);
        }
        i += 1;
    }
    Ok(0)
}

/// Tells whether the member at `entity` is the player, whose id is at `my`.
pub fn ak_check(entity: usize, my: u64, snap: &Snapshot, log: &mut Log) -> (r: Result<i32, Need>)
    ensures
        r == is_me(snap@, entity, my),
        final(log)@ == old(log)@ + is_me_lines(snap@, entity, my),
{
    assert(log@ + Seq::<Seq<char>>::empty() == log@);
    if my == 0 || entity == 0 {
        return Ok(0);
    }
    match snapshot::mem_readable(my as usize, 1, snap) {
        Ok(ok) => if !snapshot::ptr_safe(my, ok) {
            log.say(text::text_of("[ak] MY_ID invalid, pass-through"));
            assert(log@ == old(log)@ + is_me_lines(snap@, entity, my));
            return Ok(0);
        },
        Err(n) => {
            return Err(n);
        },
    }
    match snapshot::mem_readable(entity, 8, snap) {
        Ok(ok) => if !snapshot::ptr_safe(entity as u64, ok) {
            return Ok(0);
        },
        Err(n) => {
            return Err(n);
        },
    }
    let id: u64 = match snap.read(entity, 8) {
        Ok(b) => {
            assert(b@.subrange(0, 8) == b@);
            bytes::u64_at(b.as_slice(), 0)
        },
        Err(n) => {
            return Err(n);
        },
    };
    match snapshot::mem_readable(id as usize, 1, snap) {
        Ok(ok) => if !snapshot::ptr_safe(id, ok) {
            return Ok(0);
        },
        Err(n) => {
            return Err(n);
        },
    }
    same_ids(snap, id as usize, my as usize)
}

/// A member is taken for the player only where the two ids are equal, byte for byte,
/// up to the zero that ends both, at most 64 bytes on.
pub proof fn lemma_same_ids(k: snapshot::Known, a: usize, b: usize, i: int)
    requires
        0 <= i,
        same_from(k, a, b, i) == Ok::<i32, Need>(1),
    ensures
        exists|n: int|
            i <= n <= 64 && a + n <= usize::MAX && b + n <= usize::MAX && #[trigger] ends_equal(
                k,
                a,
                b,
                i,
                n,
            ),
    decreases 65 - i,
{
    let x = snapshot::bytes_at(k, (a + i) as usize, 1)->Ok_0;
    if x[0] == 0 {
        assert(ends_equal(k, a, b, i, i));
    } else {
        lemma_same_ids(k, a, b, i + 1);
        let n = choose|n: int|
            i + 1 <= n <= 64 && a + n <= usize::MAX && b + n <= usize::MAX
                && #[trigger] ends_equal(k, a, b, i + 1, n);
        assert(ends_equal(k, a, b, i, n));
    }
}

/// Whether two strings agree from position `i` up to a zero at position `n`.
pub open spec fn ends_equal(k: snapshot::Known, a: usize, b: usize, i: int, n: int) -> bool {
    &&& forall|j: int|
        i <= j <= n ==> {
            &&& (#[trigger] snapshot::bytes_at(k, (a + j) as usize, 1)) is Ok
            &&& snapshot::bytes_at(k, (b + j) as usize, 1) is Ok
            &&& snapshot::bytes_at(k, (a + j) as usize, 1)->Ok_0[0] == snapshot::bytes_at(
                k,
                (b + j) as usize,
                1,
            )->Ok_0[0]
            &&& (snapshot::bytes_at(k, (a + j) as usize, 1)->Ok_0[0] == 0 <==> j == n)
        }
}

/// What was observed decides the path, and an official removal outweighs all else: with a
/// native instruction beside it nothing is concluded, and without one it is official. Without
/// an official removal, a native instruction outweighs a local leave; with none of the three
/// nothing is concluded.
pub proof fn lemma_paths(native: bool, leave: bool, official: bool)
    ensures
        kick_path(native, leave, official) is OfficialMemberRemovedObserved <==> official
            && !native,
        kick_path(native, leave, official) is NativeInstructionObserved <==> native && !official,
        kick_path(native, leave, official) is LocalLeaveObserved <==> leave && !native && !official,
        kick_path(native, leave, official) is Inconclusive <==> official && native || !official
            && !native && !leave,
        !(kick_path(native, leave, official) is NothingObserved),
{
}

/// The switch is on where it was switched on in experimental mode, and off in any other case;
/// the log says which.
pub proof fn lemma_switch(experimental: bool, on: bool)
    ensures
        switch_value(experimental, on) == 0 || switch_value(experimental, on) == 1,
        switch_value(experimental, on) == 1 <==> experimental && on,
        enabled_line(switch_value(experimental, on)) == "[ak] enabled"@ <==> experimental && on,
{
    reveal_strlit("[ak] enabled");
    reveal_strlit("[ak] disabled");
    assert("[ak] enabled"@.len() != "[ak] disabled"@.len());
}

/// Whether the bytes at two addresses are known and may be read.
pub open spec fn both_known(k: snapshot::Known, a: usize, b: usize) -> bool {
    &&& snapshot::readable(k, a, 1) == Ok::<bool, Need>(true)
    &&& snapshot::readable(k, b, 1) == Ok::<bool, Need>(true)
    &&& snapshot::bytes_at(k, a, 1) is Ok
    &&& snapshot::bytes_at(k, b, 1) is Ok
}

/// Two ids are the same where their bytes agree up to a zero that both end with, within 65
/// bytes; where a byte differs before that, they are not.
pub proof fn lemma_ids_told_apart(k: snapshot::Known, a: usize, b: usize, i: int, n: int)
    requires
        0 <= i <= n <= 64,
        a + n <= usize::MAX,
        b + n <= usize::MAX,
        forall|j: int|
            i <= j <= n ==> #[trigger] both_known(k, (a + j) as usize, (b + j) as usize),
        forall|j: int|
            i <= j < n ==> (#[trigger] snapshot::bytes_at(k, (a + j) as usize, 1))->Ok_0[0] != 0
                && snapshot::bytes_at(k, (a + j) as usize, 1)->Ok_0[0] == snapshot::bytes_at(
                k,
                (b + j) as usize,
                1,
            )->Ok_0[0],
    ensures
        ({
            let x = snapshot::bytes_at(k, (a + n) as usize, 1)->Ok_0[0];
            let y = snapshot::bytes_at(k, (b + n) as usize, 1)->Ok_0[0];
            &&& x == 0 && y == 0 ==> same_from(k, a, b, i) == Ok::<i32, Need>(1)
            &&& x != y ==> same_from(k, a, b, i) == Ok::<i32, Need>(0)
        }),
    decreases n - i,
{
    assert(both_known(k, (a + i) as usize, (b + i) as usize));
    if i < n {
        assert(snapshot::bytes_at(k, (a + i) as usize, 1)->Ok_0[0] != 0);
        lemma_ids_told_apart(k, a, b, i + 1, n);
    }
}

/// A member is the player where the id that its key points to is the player's own; without
/// an own id, or without a member, nobody is.
pub proof fn lemma_is_me(k: snapshot::Known, entity: usize, my: u64, id: u64)
    requires
        my <= usize::MAX,
        id <= usize::MAX,
    ensures
        my == 0 || entity == 0 ==> is_me(k, entity, my) == Ok::<i32, Need>(0),
        my >= 0x10000 && entity >= 0x10000 && id >= 0x10000 && snapshot::readable(
            k,
            my as usize,
            1,
        ) == Ok::<bool, Need>(true) && snapshot::readable(k, entity, 8) == Ok::<bool, Need>(true)
            && snapshot::bytes_at(k, entity, 8) == Ok::<Seq<u8>, Need>(
            bytes::le_bytes(id as int, 8),
        ) && snapshot::readable(k, id as usize, 1) == Ok::<bool, Need>(true) ==> is_me(k, entity, my)
            == same_from(k, id as usize, my as usize, 0),
        my != 0 && my < 0x10000 && snapshot::readable(k, my as usize, 1) is Ok ==> is_me(
            k,
            entity,
            my,
        ) == Ok::<i32, Need>(0),
{
    bytes::lemma_words_read_back(0, id);
}

/// What is told of the hook: that there was none, that it could not be taken back, or that it
/// was; and why it is not installed, where it is not.
pub proof fn lemma_hook_is_told(restored: bool, installed: bool)
    ensures
        unhook_line(false, restored) == "[ak] already unhooked"@,
        unhook_line(true, false) == "[ak] hook restore FAILED — slot retained"@,
        unhook_line(true, true) == "[ak] hook restored"@,
        install_lines(false, installed).len() == 1,
        install_lines(true, true).len() == 0,
        install_lines(true, false) == seq![
            "[ak] REFUSED: legacy SDK MemberRemoved factory is quarantined"@,
        ],
{
}

/// An own id that cannot be read is told, where a member was to be compared with it; nothing
/// else is.
pub proof fn lemma_unreadable_id_is_told(k: snapshot::Known, entity: usize, my: u64)
    requires
        my <= usize::MAX,
        snapshot::readable(k, my as usize, 1) is Ok,
    ensures
        ({
            let told = my != 0 && entity != 0 && (my < 0x10000 || !snapshot::readable(
                k,
                my as usize,
                1,
            )->Ok_0);
            &&& told ==> is_me_lines(k, entity, my) == seq!["[ak] MY_ID invalid, pass-through"@]
            &&& !told ==> is_me_lines(k, entity, my).len() == 0
        }),
{
}

/// The state once it was switched on or off.
pub open spec fn switched(a: Antikick, on: bool) -> Antikick {
    Antikick { enabled: switch_value(a.experimental, on), ..a }
}

/// The state once experimental mode was switched on or off.
pub open spec fn allowed_to(a: Antikick, on: bool) -> Antikick {
    Antikick {
        experimental: on,
        enabled: if on {
            a.enabled
        } else {
            0
        },
        ..a
    }
}

/// The state once it was unhooked.
pub open spec fn unhooked(a: Antikick, restored: bool) -> Antikick {
    if a.hook is Some && restored {
        Antikick { enabled: 0, near: 0, tramp: 0, hook: None, ..a }
    } else {
        a
    }
}

/// The state once it was asked to be installed.
pub open spec fn installed(a: Antikick, sdk_base: u64) -> Antikick {
    if a.experimental && sdk_base != 0 && a.near != 0 {
        Antikick { enabled: 1, ..a }
    } else {
        a
    }
}

/// It suppresses only in experimental mode, and only where it was switched on in it:
/// switching on without that mode does nothing, leaving the mode switches it off, and
/// entering the mode does not switch it on. The hook is touched by none of these.
pub proof fn lemma_never_on_outside_experiment(a: Antikick, on: bool, sdk_base: u64)
    ensures
        switched(a, true).enabled != 0 <==> a.experimental,
        switched(a, false).enabled == 0,
        allowed_to(a, false).enabled == 0,
        switched(allowed_to(a, false), true).enabled == 0,
        switched(allowed_to(a, true), true).enabled == 1,
        allowed_to(a, true).enabled == a.enabled,
        allowed_to(a, on).experimental == on,
        switched(a, on).experimental == a.experimental,
        !a.experimental || sdk_base == 0 || a.near == 0 ==> installed(a, sdk_base) == a,
        a.experimental && sdk_base != 0 && a.near != 0 ==> installed(a, sdk_base).enabled == 1,
        switched(a, on).hook == a.hook && switched(a, on).near == a.near && switched(a, on).tramp
            == a.tramp,
        allowed_to(a, on).hook == a.hook && allowed_to(a, on).near == a.near && allowed_to(
            a,
            on,
        ).tramp == a.tramp,
        installed(a, sdk_base).hook == a.hook && installed(a, sdk_base).near == a.near,
{
}

/// Unhooking forgets the hook once it was taken back, and switches it off; one that could not
/// be taken back stays as it is. Doing it again changes nothing.
pub proof fn lemma_unhook_forgets(a: Antikick, restored: bool, again: bool)
    ensures
        a.hook is Some && restored ==> unhooked(a, restored).hook is None && unhooked(
            a,
            restored,
        ).enabled == 0 && unhooked(a, restored).near == 0 && unhooked(a, restored).tramp == 0,
        a.hook is None || !restored ==> unhooked(a, restored) == a,
        unhooked(a, restored).experimental == a.experimental,
        restored ==> unhooked(unhooked(a, restored), again) == unhooked(a, restored),
{
}

} // verus!
