//! A passive record of what happens to the lobby.
//!
//! Two far hooks watch: one sees the changes of state that the game has processed,
//! the other sees the game leave the lobby. Both only read and report; how much they
//! report is bounded.
use vstd::prelude::*;

use crate::bytes;
use crate::detour;
use crate::detour::{Hook, Start};
use crate::log::Log;
use crate::sdk;
use crate::snapshot;
use crate::snapshot::{Need, Snapshot};
use crate::text;

verus! {

/// How many lines are reported.
pub const TEL_BUDGET_CAP: u64 = 64;

/// The most changes of state that are looked at together.
pub const TEL_CHANGE_COUNT_MAX: u32 = 1024;

/// How many calls are reported whatever they bring.
pub const TEL_FINISH_PROBE_CAP: u64 = 16;

/// The changes of state that are of interest.
#[derive(Clone, Copy, PartialEq, Eq, Debug, Structural)]
pub enum TelKind {
    Ignore,
    MemberRemoved,
    Updated,
    Disconnecting,
    Disconnected,
}

pub open spec fn kind_name(k: TelKind) -> Seq<char> {
    match k {
        TelKind::Ignore => "Ignore"@,
        TelKind::MemberRemoved => "MemberRemoved"@,
        TelKind::Updated => "Updated"@,
        TelKind::Disconnecting => "Disconnecting"@,
        TelKind::Disconnected => "Disconnected"@,
    }
}

impl TelKind {
    pub fn name(&self) -> (r: &'static str)
        ensures
            r@ == kind_name(*self),
    {
        match self {
            TelKind::Ignore => "Ignore",
            TelKind::MemberRemoved => "MemberRemoved",
            TelKind::Updated => "Updated",
            TelKind::Disconnecting => "Disconnecting",
            TelKind::Disconnected => "Disconnected",
        }
    }
}

/// The kind of a change, by its number.
pub open spec fn kind_of(t: u32) -> TelKind {
    if t == 4 {
        TelKind::MemberRemoved
    } else if t == 7 {
        TelKind::Updated
    } else if t == 9 {
        TelKind::Disconnecting
    } else if t == 10 {
        TelKind::Disconnected
    } else {
        TelKind::Ignore
    }
}

pub fn classify_type(t: u32) -> (r: TelKind)
    ensures
        r == kind_of(t),
{
    match t {
        4 => TelKind::MemberRemoved,
        7 => TelKind::Updated,
        9 => TelKind::Disconnecting,
        10 => TelKind::Disconnected,
        _ => TelKind::Ignore,
    }
}

/// The value of `len` bytes at an address that can be followed.
pub open spec fn followed(k: snapshot::Known, p: u64, len: usize) -> Result<Option<int>, Need> {
    match snapshot::readable(k, p as usize, len) {
        Err(n) => Err(n),
        Ok(r) => if !snapshot::safe(p, r) {
            Ok(None)
        } else {
            match snapshot::bytes_at(k, p as usize, len) {
                Err(n) => Err(n),
                Ok(b) => Ok(Some(bytes::le_value(b))),
            }
        },
    }
}

/// The number of the kind of change `i`, in a list of pointers at `changes`. Nothing
/// is read that cannot be.
pub open spec fn type_at(k: snapshot::Known, changes: u64, i: usize) -> Result<Option<u32>, Need> {
    if i * 8 > u64::MAX || changes + i * 8 > u64::MAX {
        Ok(None)
    } else {
        match followed(k, (changes + i * 8) as u64, 8) {
            Err(n) => Err(n),
            Ok(None) => Ok(None),
            Ok(Some(p)) => match followed(k, p as u64, 4) {
                Err(n) => Err(n),
                Ok(None) => Ok(None),
                Ok(Some(t)) => Ok(Some(t as u32)),
            },
        }
    }
}

fn follow8(p: u64, snap: &Snapshot) -> (r: Result<Option<u64>, Need>)
    ensures
        match r {
            Ok(Some(v)) => followed(snap@, p, 8) == Ok::<Option<int>, Need>(Some(v as int)),
            Ok(None) => followed(snap@, p, 8) == Ok::<Option<int>, Need>(None),
            Err(n) => followed(snap@, p, 8) == Err::<Option<int>, Need>(n),
        },
{
    match snapshot::mem_readable(p as usize, 8, snap) {
        Ok(ok) => if !snapshot::ptr_safe(p, ok) {
            return Ok(None);
        },
        Err(n) => {
            return Err(n);
        },
    }
    match snap.read(p as usize, 8) {
        Ok(b) => {
            assert(b@.subrange(0, 8) == b@);
            Ok(Some(bytes::u64_at(b.as_slice(), 0)))
        },
        Err(n) => Err(n),
    }
}

fn follow4(p: u64, snap: &Snapshot) -> (r: Result<Option<u32>, Need>)
    ensures
        match r {
            Ok(Some(v)) => followed(snap@, p, 4) == Ok::<Option<int>, Need>(Some(v as int)),
            Ok(None) => followed(snap@, p, 4) == Ok::<Option<int>, Need>(None),
            Err(n) => followed(snap@, p, 4) == Err::<Option<int>, Need>(n),
        },
{
    match snapshot::mem_readable(p as usize, 4, snap) {
        Ok(ok) => if !snapshot::ptr_safe(p, ok) {
            return Ok(None);
        },
        Err(n) => {
            return Err(n);
        },
    }
    match snap.read(p as usize, 4) {
        Ok(b) => {
            assert(b@.subrange(0, 4) == b@);
            Ok(Some(bytes::u32_at(b.as_slice(), 0)))
        },
        Err(n) => Err(n),
    }
}

/// Looks at the kind of change `i`.
pub fn entry_type_guarded(changes: u64, i: usize, snap: &Snapshot) -> (r: Result<
    Option<u32>,
    Need,
>)
    ensures
        r == type_at(snap@, changes, i),
{
    let off: u64 = match (i as u64).checked_mul(8) {
        Some(o) => o,
        None => {
            return Ok(None);
        },
    };
    let slot: u64 = match changes.checked_add(off) {
        Some(s) => s,
        None => {
            return Ok(None);
        },
    };
    match follow8(slot, snap) {
        Ok(Some(p)) => follow4(p, snap),
        Ok(None) => Ok(None),
        Err(n) => Err(n),
    }
}

/// Whether so many changes are looked at.
pub open spec fn in_range(n: u32) -> bool {
    0 < n <= TEL_CHANGE_COUNT_MAX
}

pub fn count_in_range(n: u32) -> (r: bool)
    ensures
        r == in_range(n),
{
    0 < n && n <= TEL_CHANGE_COUNT_MAX
}

/// Whether a line may still be reported.
pub fn budget_allowed(used: u64, cap: u64) -> (r: bool)
    ensures
        r == (used < cap),
{
    used < cap
}

/// Takes one of the lines that are left.
pub fn budget_take(used: &mut u64) -> (r: bool)
    ensures
        r == (*old(used) < TEL_BUDGET_CAP),
        *final(used) == (if r {
            (*old(used) + 1) as u64
        } else {
            *old(used)
        }),
{
    if !budget_allowed(*used, TEL_BUDGET_CAP) {
        return false;
    }
    *used = *used + 1;
    true
}

/// Whether both hooks may be installed.
pub open spec fn both_allowed(handle: u64, finish: bool, leave: bool, installed: bool) -> bool {
    handle != 0 && finish && leave && !installed
}

pub fn tel_install_allowed(
    handle: u64,
    finish_resolved: bool,
    leave_resolved: bool,
    installed: bool,
) -> (r: bool)
    ensures
        r == both_allowed(handle, finish_resolved, leave_resolved, installed),
{
    handle != 0 && finish_resolved && leave_resolved && !installed
}

/// Whether the hook on leaving may be installed alone.
pub open spec fn leave_allowed(handle: u64, leave: bool, installed: bool) -> bool {
    handle != 0 && leave && !installed
}

pub fn tel_leave_install_allowed(handle: u64, leave_resolved: bool, installed: bool) -> (r: bool)
    ensures
        r == leave_allowed(handle, leave_resolved, installed),
{
    handle != 0 && leave_resolved && !installed
}

/// What was seen among some changes: the kinds of interest, each once and in order,
/// and the lobbies from which a member was removed.
pub ghost struct Seen {
    pub kinds: Seq<TelKind>,
    pub lobbies: Seq<u64>,
}

/// `kinds` with `k` at the end, unless it is there.
pub open spec fn with_kind(kinds: Seq<TelKind>, k: TelKind) -> Seq<TelKind> {
    if kinds.contains(k) {
        kinds
    } else {
        kinds.push(k)
    }
}

/// The lobby of the removal that is change `i`.
pub open spec fn lobby_at(k: snapshot::Known, changes: u64, i: usize) -> Result<
    Option<u64>,
    Need,
> {
    match snapshot::bytes_at(k, ((changes + i * 8) as u64) as usize, 8) {
        Err(n) => Err(n),
        Ok(b) => {
            let p = bytes::le_value(b);
            if p + 8 > u64::MAX {
                Ok(None)
            } else {
                match followed(k, (p + 8) as u64, 8) {
                    Err(n) => Err(n),
                    Ok(None) => Ok(None),
                    Ok(Some(l)) => Ok(Some(l as u64)),
                }
            }
        },
    }
}

/// What is seen from change `i` on.
pub open spec fn seen_from(
    k: snapshot::Known,
    changes: u64,
    i: usize,
    n: usize,
    s: Seen,
) -> Result<Seen, Need>
    decreases n - i,
{
    if i >= n {
        Ok(s)
    } else {
        match type_at(k, changes, i) {
            Err(need) => Err(need),
            Ok(None) => seen_from(k, changes, (i + 1) as usize, n, s),
            Ok(Some(t)) => {
                let kinds = with_kind(s.kinds, kind_of(t));
                if kind_of(t) == TelKind::Ignore {
                    seen_from(k, changes, (i + 1) as usize, n, s)
                } else if kind_of(t) == TelKind::MemberRemoved {
                    match lobby_at(k, changes, i) {
                        Err(need) => Err(need),
                        Ok(l) => seen_from(
                            k,
                            changes,
                            (i + 1) as usize,
                            n,
                            Seen { kinds, lobbies: s.lobbies + bytes::opt_seq(l) },
                        ),
                    }
                } else {
                    seen_from(k, changes, (i + 1) as usize, n, Seen { kinds, ..s })
                }
            },
        }
    }
}

/// What is seen among `count` changes at `changes`: nothing where there are none or
/// too many, or where the list cannot be read.
pub open spec fn seen_among(k: snapshot::Known, count: u64, changes: u64) -> Result<Seen, Need> {
    let none = Seen { kinds: seq![], lobbies: seq![] };
    if !in_range(count as u32) {
        Ok(none)
    } else {
        match snapshot::readable(k, changes as usize, 8) {
            Err(n) => Err(n),
            Ok(r) => if !snapshot::safe(changes, r) {
                Ok(none)
            } else {
                seen_from(k, changes, 0, count as usize, none)
            },
        }
    }
}

fn has_kind(v: &Vec<TelKind>, k: TelKind) -> (r: bool)
    ensures
        r == v@.contains(k),
{
    let mut i: usize = 0;
    while i < v.len()
        invariant
            i <= v.len(),
            forall|j: int| 0 <= j < i ==> v@[j] != k,
        decreases v.len() - i,
    {
        if v[i] == k {
            assert(v@.contains(v@[i as int]));
            return true;
        }
        i += 1;
    }
    false
}

fn lobby_of(changes: u64, i: usize, snap: &Snapshot) -> (r: Result<Option<u64>, Need>)
    requires
        changes + i * 8 <= u64::MAX,
    ensures
        r == lobby_at(snap@, changes, i),
{
    let slot: u64 = changes + i as u64 * 8;
    let p: u64 = match snap.read(slot as usize, 8) {
        Ok(b) => {
            assert(b@.subrange(0, 8) == b@);
            bytes::u64_at(b.as_slice(), 0)
        },
        Err(n) => {
            return Err(n);
        },
    };
    match p.checked_add(8) {
        Some(a) => follow8(a, snap),
        None => Ok(None),
    }
}

/// Looks through the changes that the game has processed. Nothing is changed.
pub fn finish_poll(count: u64, changes: u64, snap: &Snapshot) -> (r: Result<
    (Vec<TelKind>, Vec<u64>),
    Need,
>)
    ensures
        match r {
            Ok(s) => seen_among(snap@, count, changes) == Ok::<Seen, Need>(
                Seen { kinds: s.0@, lobbies: s.1@ },
            ),
            Err(n) => seen_among(snap@, count, changes) == Err::<Seen, Need>(n),
        },
{
    let mut kinds: Vec<TelKind> = Vec::new();
    let mut lobbies: Vec<u64> = Vec::new();
    if !count_in_range(count as u32) {
        return Ok((kinds, lobbies));
    }
    match snapshot::mem_readable(changes as usize, 8, snap) {
        Ok(ok) => if !snapshot::ptr_safe(changes, ok) {
            return Ok((kinds, lobbies));
        },
        Err(n) => {
            return Err(n);
        },
    }
    let n: usize = count as usize;
    let ghost want = seen_among(snap@, count, changes);
    let mut i: usize = 0;
    while i < n
        invariant
            i <= n,
            want == seen_among(snap@, count, changes),
            want == seen_from(
                snap@,
                changes,
                i,
                n,
                Seen { kinds: kinds@, lobbies: lobbies@ },
            ),
        decreases n - i,
    {
        let ghost s = Seen { kinds: kinds@, lobbies: lobbies@ };
        let t: u32 = match entry_type_guarded(changes, i, snap) {
            Ok(Some(t)) => t,
            Ok(None) => {
                i += 1;
                continue;
            },
            Err(need) => {
                return Err(need);
            },
        };
        let k = classify_type(t);
        if k == TelKind::Ignore {
            i += 1;
            continue;
        }
        if k == TelKind::MemberRemoved {
            match lobby_of(changes, i, snap) {
                Ok(Some(l)) => {
                    lobbies.push(l);
                    assert(lobbies@ == s.lobbies + bytes::opt_seq(Some(l)));
                },
                Ok(None) => {
                    assert(lobbies@ == s.lobbies + bytes::opt_seq(None::<u64>));
                },
                Err(need) => {
                    return Err(need);
                },
            }
        }
        if !has_kind(&kinds, k) {
            kinds.push(k);
        }
        i += 1;
    }
    Ok((kinds, lobbies))
}

/// The line about a call, whatever it brings.
pub open spec fn probe_line(count: u64, changes: u64) -> Seq<char> {
    "[tel] finish_probe count="@ + text::dec(count as int) + " changes=0x"@ + text::hex_upper(
        changes as int,
    )
}

/// Whether a call is one of the first, and can still be reported.
pub open spec fn is_probed(used: u64, probes: u64) -> bool {
    probes < TEL_FINISH_PROBE_CAP && used < TEL_BUDGET_CAP
}

/// Reports one of the first calls, whatever it brings, if it can still be. `used` is
/// how many lines were reported, `probes` how many calls there were.
pub fn finish_probe(used: &mut u64, probes: &mut u64, count: u64, changes: u64, log: &mut Log)
    ensures
        *final(probes) == (if *old(probes) == u64::MAX {
            0
        } else {
            (*old(probes) + 1) as u64
        }),
        *final(used) == (if is_probed(*old(used), *old(probes)) {
            (*old(used) + 1) as u64
        } else {
            *old(used)
        }),
        final(log)@ == (if is_probed(*old(used), *old(probes)) {
            old(log)@.push(probe_line(count, changes))
        } else {
            old(log)@
        }),
{
    let probe: u64 = *probes;
    *probes = probes.wrapping_add(1);
    if probe < TEL_FINISH_PROBE_CAP && budget_take(used) {
        let mut s = text::cat3(
            "[tel] finish_probe count=",
            text::dec_of(count).as_str(),
            " changes=0x",
        );
        s.append(text::hex_of(changes).as_str());
        log.say(s);
    }
}

/// The names of some kinds, with commas between them.
pub open spec fn joined(kinds: Seq<TelKind>) -> Seq<char>
    decreases kinds.len(),
{
    if kinds.len() == 0 {
        seq![]
    } else if kinds.len() == 1 {
        kind_name(kinds[0])
    } else {
        joined(kinds.drop_last()) + ","@ + kind_name(kinds.last())
    }
}

fn join_names(kinds: &Vec<TelKind>) -> (r: String)
    ensures
        r@ == joined(kinds@),
{
    let mut s = String::new();
    assert(s@ == joined(kinds@.take(0)));
    let mut i: usize = 0;
    while i < kinds.len()
        invariant
            i <= kinds.len(),
            s@ == joined(kinds@.take(i as int)),
        decreases kinds.len() - i,
    {
        let ghost now = kinds@.take(i + 1);
        assert(now.drop_last() == kinds@.take(i as int));
        assert(now.last() == kinds@[i as int]);
        let ghost before = s@;
        if i > 0 {
            s.append(",");
        } else {
            assert(before == Seq::<char>::empty());
        }
        s.append(kinds[i].name());
        assert(s@ == joined(now));
        i += 1;
    }
    assert(kinds@.take(i as int) == kinds@);
    s
}

pub open spec fn batch_line(count: u64, kinds: Seq<TelKind>) -> Seq<char> {
    "[tel] statechanges n="@ + text::dec(count as int) + " types=["@ + joined(kinds) + "]"@
}

pub open spec fn removed_line(lobby: u64) -> Seq<char> {
    "[tel] memberremoved lobby=0x"@ + text::hex_upper(lobby as int)
}

/// How many of some lines can still be reported.
pub open spec fn affordable(used: int, n: int) -> int {
    if used + n <= TEL_BUDGET_CAP {
        n
    } else if used < TEL_BUDGET_CAP {
        TEL_BUDGET_CAP - used
    } else {
        0
    }
}

/// The lines about what was seen, as far as they can still be reported.
pub open spec fn report_lines(used: u64, count: u64, s: Seen) -> Seq<Seq<char>> {
    if s.kinds.len() == 0 || used >= TEL_BUDGET_CAP {
        seq![]
    } else {
        seq![batch_line(count, s.kinds)] + s.lobbies.take(
            affordable(used + 1, s.lobbies.len() as int),
        ).map_values(|l: u64| removed_line(l))
    }
}

/// Reports what was seen, as far as it can still be.
pub fn finish_report(
    used: &mut u64,
    count: u64,
    kinds: &Vec<TelKind>,
    lobbies: &Vec<u64>,
    log: &mut Log,
)
    ensures
        final(log)@ == old(log)@ + report_lines(
            *old(used),
            count,
            Seen { kinds: kinds@, lobbies: lobbies@ },
        ),
        *final(used) == *old(used) + report_lines(
            *old(used),
            count,
            Seen { kinds: kinds@, lobbies: lobbies@ },
        ).len(),
{
    assert(log@ + Seq::<Seq<char>>::empty() == log@);
    if kinds.len() == 0 {
        return;
    }
    if !budget_take(used) {
        return;
    }
    let ghost u0 = *old(used);
    let ghost l0 = log@;
    let ghost f = |l: u64| removed_line(l);
    let ghost first = seq![batch_line(count, kinds@)];
    let ghost m = affordable(u0 + 1, lobbies@.len() as int);
    let mut s = text::cat3(
        "[tel] statechanges n=",
        text::dec_of(count).as_str(),
        " types=[",
    );
    s.append(join_names(kinds).as_str());
    s.append("]");
    log.say(s);
    let mut i: usize = 0;
    assert(log@ == l0 + (first + lobbies@.take(0).map_values(f)));
    while i < lobbies.len()
        invariant_except_break
            i <= lobbies.len(),
            i <= m,
            *used == u0 + 1 + i,
            log@ == l0 + (first + lobbies@.take(i as int).map_values(f)),
        invariant
            f == (|l: u64| removed_line(l)),
            u0 < TEL_BUDGET_CAP,
            m == affordable(u0 + 1, lobbies@.len() as int),
        ensures
            *used == u0 + 1 + m,
            log@ == l0 + (first + lobbies@.take(m).map_values(f)),
        decreases lobbies.len() - i,
    {
        if budget_take(used) {
            let ghost before = lobbies@.take(i as int).map_values(f);
            log.say(
                text::cat2(
                    "[tel] memberremoved lobby=0x",
                    text::hex_of(lobbies[i]).as_str(),
                ),
            );
            assert(lobbies@.take(i + 1).map_values(f) == before.push(
                removed_line(lobbies@[i as int]),
            ));
            assert(log@ == l0 + (first + lobbies@.take(i + 1).map_values(f)));
        } else {
            assert(i == m);
            break;
        }
        i += 1;
    }
    assert(first + lobbies@.take(m).map_values(f) == report_lines(
        u0,
        count,
        Seen { kinds: kinds@, lobbies: lobbies@ },
    ));
}

/// The lines reported never exceed their bound, and none is reported once it is
/// reached.
pub proof fn lemma_budget_bounds_report(used: u64, probes: u64, count: u64, s: Seen)
    requires
        used <= TEL_BUDGET_CAP,
    ensures
        used + report_lines(used, count, s).len() <= TEL_BUDGET_CAP,
        is_probed(used, probes) ==> used + 1 <= TEL_BUDGET_CAP,
        used == TEL_BUDGET_CAP ==> report_lines(used, count, s).len() == 0 && !is_probed(
            used,
            probes,
        ),
{
}

pub open spec fn leave_line(handle: u64) -> Seq<char> {
    "[tel] PFLobbyLeave handle=0x"@ + text::hex_upper(handle as int)
}

/// Reports that the game leaves a lobby, if it can still be.
pub fn tel_leave(used: &mut u64, handle: u64, log: &mut Log)
    ensures
        *final(used) == (if *old(used) < TEL_BUDGET_CAP {
            (*old(used) + 1) as u64
        } else {
            *old(used)
        }),
        final(log)@ == (if *old(used) < TEL_BUDGET_CAP {
            old(log)@.push(leave_line(handle))
        } else {
            old(log)@
        }),
{
    if budget_take(used) {
        log.say(text::cat2("[tel] PFLobbyLeave handle=0x", text::hex_of(handle).as_str()));
    }
}

/// The instructions with which the function that leaves a lobby begins.
pub open spec fn leave_prologue() -> Seq<u8> {
    seq![0x40u8, 0x53, 0x55, 0x56, 0x57, 0x41, 0x54]
}

fn leave_prologue_bytes() -> (r: Vec<u8>)
    ensures
        r@ == leave_prologue(),
{
    let v: Vec<u8> = vec![0x40, 0x53, 0x55, 0x56, 0x57, 0x41, 0x54];
    assert(v@ == leave_prologue());
    v
}

/// How the checks of a place come out.
pub open spec fn tel_cleared(
    target: usize,
    expected: Seq<u8>,
    name: Seq<char>,
    range: Option<(u64, usize)>,
    k: snapshot::Known,
) -> detour::Cleared {
    if target == 0 {
        detour::Cleared::Refused(seq!["[tel] "@ + name + " addr unavailable"@])
    } else {
        detour::cleared(
            "[tel] "@,
            target,
            expected,
            name,
            "PlayFabMultiplayerWin.dll"@,
            range,
            k,
        )
    }
}

/// Whether `r` is how an installation after those checks begins.
pub open spec fn tel_started(
    target: usize,
    expected: Seq<u8>,
    name: Seq<char>,
    range: Option<(u64, usize)>,
    stub: u64,
    k: snapshot::Known,
    r: Result<Start, Need>,
) -> bool {
    match tel_cleared(target, expected, name, range, k) {
        detour::Cleared::Wants(n) => r == Err::<Start, Need>(n),
        detour::Cleared::Refused(_) => r matches Ok(Start::Done(b)) && !b,
        detour::Cleared::Clear => r matches Ok(Start::Install(ops, next)) && (
            detour::deeds(ops@),
            next@,
        ) == detour::install_start(target, expected.len() as usize, false, stub, true),
    }
}

/// What those checks say.
pub open spec fn tel_check_lines(
    target: usize,
    expected: Seq<u8>,
    name: Seq<char>,
    range: Option<(u64, usize)>,
    k: snapshot::Known,
) -> Seq<Seq<char>> {
    match tel_cleared(target, expected, name, range, k) {
        detour::Cleared::Refused(lines) => lines,
        _ => seq![],
    }
}

fn tel_try_install(
    target: usize,
    expected: &Vec<u8>,
    name: &str,
    range: Option<(u64, usize)>,
    stub: u64,
    snap: &Snapshot,
    log: &mut Log,
) -> (r: Result<Start, Need>)
    requires
        detour::range_fits(range),
        target + 0x3FF0_0000 <= usize::MAX,
    ensures
        tel_started(target, expected@, name@, range, stub, snap@, r),
        final(log)@ == old(log)@ + tel_check_lines(target, expected@, name@, range, snap@),
{
    assert(log@ + Seq::<Seq<char>>::empty() == log@);
    if target == 0 {
        log.say(text::cat3("[tel] ", name, " addr unavailable"));
        assert(log@ == old(log)@ + tel_check_lines(target, expected@, name@, range, snap@));
        return Ok(Start::Done(false));
    }
    match detour::clear(
        "[tel] ",
        target,
        expected.as_slice(),
        name,
        "PlayFabMultiplayerWin.dll",
        range,
        snap,
        log,
    ) {
        Ok(ok) => if !ok {
            return Ok(Start::Done(false));
        },
        Err(n) => {
            return Err(n);
        },
    }
    let (ops, next) = detour::install_far(target, expected.len(), stub, true);
    Ok(Start::Install(ops, next))
}

/// Begins to install the hook on the function that ends the processing of changes.
pub fn try_install_finish(
    target: usize,
    range: Option<(u64, usize)>,
    stub: u64,
    snap: &Snapshot,
    log: &mut Log,
) -> (r: Result<Start, Need>)
    requires
        detour::range_fits(range),
        target + 0x3FF0_0000 <= usize::MAX,
    ensures
        tel_started(target, sdk::grab_prologue(), "FinishProcessing"@, range, stub, snap@, r),
        final(log)@ == old(log)@ + tel_check_lines(
            target,
            sdk::grab_prologue(),
            "FinishProcessing"@,
            range,
            snap@,
        ),
{
    tel_try_install(target, &sdk::prologue_rbp_r12(), "FinishProcessing", range, stub, snap, log)
}

/// Begins to install the hook on the function that leaves a lobby.
pub fn try_install_leave(
    target: usize,
    range: Option<(u64, usize)>,
    stub: u64,
    snap: &Snapshot,
    log: &mut Log,
) -> (r: Result<Start, Need>)
    requires
        detour::range_fits(range),
        target + 0x3FF0_0000 <= usize::MAX,
    ensures
        tel_started(target, leave_prologue(), "Leave"@, range, stub, snap@, r),
        final(log)@ == old(log)@ + tel_check_lines(target, leave_prologue(), "Leave"@, range, snap@),
{
    tel_try_install(target, &leave_prologue_bytes(), "Leave", range, stub, snap, log)
}

/// What is said once one of the hooks was installed.
pub fn tel_installed_line(name: &str) -> (r: String)
    ensures
        r@ == "[tel] "@ + name@ + " installed (module=PlayFabMultiplayerWin.dll)"@,
{
    text::cat3("[tel] ", name, " installed (module=PlayFabMultiplayerWin.dll)")
}

/// The state of the two hooks.
pub struct Telemetry {
    pub finish: Option<Hook>,
    pub leave: Option<Hook>,
    pub finish_near: usize,
    pub leave_near: usize,
    /// Whether the far code knows what to call.
    pub finish_fn: bool,
    pub leave_fn: bool,
    pub finish_tramp: u64,
    pub leave_tramp: u64,
}

impl Telemetry {
    pub fn new() -> (r: Telemetry)
        ensures
            r == (Telemetry {
                finish: None,
                leave: None,
                finish_near: 0,
                leave_near: 0,
                finish_fn: false,
                leave_fn: false,
                finish_tramp: 0,
                leave_tramp: 0,
            }),
    {
        Telemetry {
            finish: None,
            leave: None,
            finish_near: 0,
            leave_near: 0,
            finish_fn: false,
            leave_fn: false,
            finish_tramp: 0,
            leave_tramp: 0,
        }
    }
}

/// What is known when the hooks are to be installed.
#[derive(Clone, Copy, PartialEq, Eq, Debug, Structural)]
pub struct TelContext {
    pub no_telemetry: bool,
    pub handle: u64,
    pub finish: usize,
    pub leave: usize,
}

/// Decides whether both hooks are to be installed, and tells the far code what to call
/// before they are.
pub fn install(t: &mut Telemetry, c: TelContext, log: &mut Log) -> (r: bool)
    ensures
        r == (!c.no_telemetry && both_allowed(
            c.handle,
            c.finish != 0,
            c.leave != 0,
            old(t).finish is Some || old(t).leave is Some,
        )),
        *final(t) == (if r {
            Telemetry { finish_fn: true, leave_fn: true, ..*old(t) }
        } else {
            *old(t)
        }),
        r == begins(*old(t), c),
        final(log)@ == (if c.no_telemetry {
            old(log)@.push("[tel] SKIPPED (diag no_telemetry)"@)
        } else {
            old(log)@
        }),
{
    if c.no_telemetry {
        log.say(text::text_of("[tel] SKIPPED (diag no_telemetry)"));
        return false;
    }
    if !tel_install_allowed(
        c.handle,
        c.finish != 0,
        c.leave != 0,
        t.finish.is_some() || t.leave.is_some(),
    ) {
        return false;
    }
    t.finish_fn = true;
    t.leave_fn = true;
    true
}

/// The block of a hook that was installed, or the one before.
pub open spec fn near_or(h: Option<Hook>, near: usize) -> usize {
    match h {
        Some(x) => x@.near,
        None => near,
    }
}

fn near_of(h: &Option<Hook>, near: usize) -> (r: usize)
    ensures
        r == near_or(*h, near),
{
    match h {
        Some(x) => x.near_addr(),
        None => near,
    }
}

/// Takes the outcome of the two installations. They are kept together; where one is
/// missing, the other is handed back to be taken back.
pub fn installed(t: &mut Telemetry, finish: Option<Hook>, leave: Option<Hook>, log: &mut Log) -> (r:
    Option<(Option<Hook>, Option<Hook>)>)
    ensures
        finish is Some && leave is Some ==> r is None && *final(t) == (Telemetry {
            finish,
            leave,
            finish_near: near_or(finish, old(t).finish_near),
            leave_near: near_or(leave, old(t).leave_near),
            ..*old(t)
        }) && final(log)@ == old(log)@.push("[tel] hooks installed (FinishProcessing/Leave)"@),
        !(finish is Some && leave is Some) ==> r == Some((finish, leave)) && *final(t) == (
        Telemetry {
            finish_near: near_or(finish, old(t).finish_near),
            leave_near: near_or(leave, old(t).leave_near),
            ..*old(t)
        }) && final(log)@ == old(log)@,
        *final(t) == taken(*old(t), finish, leave),
{
    t.finish_near = near_of(&finish, t.finish_near);
    t.leave_near = near_of(&leave, t.leave_near);
    match (finish, leave) {
        (Some(f), Some(l)) => {
            t.finish = Some(f);
            t.leave = Some(l);
            log.say(text::text_of("[tel] hooks installed (FinishProcessing/Leave)"));
            None
        },
        (f, l) => Some((f, l)),
    }
}

/// Takes the outcome of taking back what was installed; `ok` is whether all of it was.
/// Where it was not, the hooks are kept.
pub fn rolled_back(
    t: &mut Telemetry,
    finish: Option<Hook>,
    leave: Option<Hook>,
    ok: bool,
    log: &mut Log,
)
    ensures
        ok ==> *final(t) == (Telemetry {
            finish_near: 0,
            leave_near: 0,
            finish_tramp: 0,
            leave_tramp: 0,
            ..*old(t)
        }) && final(log)@ == old(log)@.push(
            "[tel] install FAILED (FinishProcessing/Leave) — all hooks rolled back"@,
        ),
        !ok ==> *final(t) == (Telemetry {
            finish: if finish is Some {
                finish
            } else {
                old(t).finish
            },
            leave: if leave is Some {
                leave
            } else {
                old(t).leave
            },
            ..*old(t)
        }) && final(log)@ == old(log)@.push(
            "[tel] install rollback FAILED — refusing to discard hook ownership"@,
        ),
        *final(t) == rolled(*old(t), finish, leave, ok),
{
    if !ok {
        log.say(
            text::text_of("[tel] install rollback FAILED — refusing to discard hook ownership"),
        );
        if finish.is_some() {
            t.finish = finish;
        }
        if leave.is_some() {
            t.leave = leave;
        }
        return;
    }
    t.finish_near = 0;
    t.leave_near = 0;
    t.finish_tramp = 0;
    t.leave_tramp = 0;
    log.say(
        text::text_of("[tel] install FAILED (FinishProcessing/Leave) — all hooks rolled back"),
    );
}

/// Decides whether the hook on leaving is to be installed alone, and tells the far code
/// what to call before it is.
pub fn install_leave_only(t: &mut Telemetry, c: TelContext, log: &mut Log) -> (r: bool)
    ensures
        r == (!c.no_telemetry && leave_allowed(c.handle, c.leave != 0, old(t).leave is Some)),
        *final(t) == (if r {
            Telemetry { leave_fn: true, ..*old(t) }
        } else {
            *old(t)
        }),
        r == begins_leave_only(*old(t), c),
        final(log)@ == (if c.no_telemetry {
            old(log)@.push("[tel] leave-only SKIPPED (diag no_telemetry)"@)
        } else {
            old(log)@
        }),
{
    if c.no_telemetry {
        log.say(text::text_of("[tel] leave-only SKIPPED (diag no_telemetry)"));
        return false;
    }
    if !tel_leave_install_allowed(c.handle, c.leave != 0, t.leave.is_some()) {
        return false;
    }
    t.leave_fn = true;
    true
}

/// Takes the outcome of that installation.
pub fn leave_only_installed(t: &mut Telemetry, leave: Option<Hook>, log: &mut Log) -> (r: bool)
    ensures
        r == (leave is Some),
        r ==> *final(t) == (Telemetry {
            leave,
            leave_near: near_or(leave, old(t).leave_near),
            ..*old(t)
        }) && final(log)@ == old(log)@.push("[tel] leave-only hook installed (PFLobbyLeave)"@),
        !r ==> *final(t) == (Telemetry { leave_tramp: 0, ..*old(t) }) && final(log)@
            == old(log)@.push("[tel] leave-only install FAILED (rolled back)"@),
        *final(t) == leave_taken(*old(t), leave),
{
    match leave {
        Some(h) => {
            t.leave_near = h.near_addr();
            t.leave = Some(h);
            log.say(text::text_of("[tel] leave-only hook installed (PFLobbyLeave)"));
            true
        },
        None => {
            t.leave_tramp = 0;
            log.say(text::text_of("[tel] leave-only install FAILED (rolled back)"));
            false
        },
    }
}

/// What is reported to `unhook`.
#[derive(Clone, Copy, PartialEq, Eq, Debug, Structural)]
pub enum UnhookEvent {
    Begin,
    FinishRestored(bool),
    LeaveRestored(bool),
}

/// What `unhook` wants.
#[derive(Clone, Copy, PartialEq, Eq, Debug, Structural)]
pub enum UnhookStep {
    RestoreFinish,
    RestoreLeave,
    Done,
}

/// The state with both hooks gone.
pub open spec fn gone(t: Telemetry) -> Telemetry {
    Telemetry {
        finish: None,
        leave: None,
        finish_near: 0,
        leave_near: 0,
        finish_tramp: 0,
        leave_tramp: 0,
        ..t
    }
}

/// The state, what is said, and what is wanted, after an event. A hook that could not
/// be taken back stays, and nothing more is done.
pub open spec fn unhook_turn(t: Telemetry, e: UnhookEvent) -> (
    Telemetry,
    Seq<Seq<char>>,
    UnhookStep,
) {
    match e {
        UnhookEvent::Begin => if t.finish is Some {
            (t, seq![], UnhookStep::RestoreFinish)
        } else if t.leave is Some {
            (t, seq![], UnhookStep::RestoreLeave)
        } else {
            (t, seq!["[tel] already unhooked"@], UnhookStep::Done)
        },
        UnhookEvent::FinishRestored(ok) => if !ok {
            (
                t,
                seq!["[tel] FinishProcessing restore FAILED — slot retained"@],
                UnhookStep::Done,
            )
        } else if t.leave is Some {
            (Telemetry { finish: None, ..t }, seq![], UnhookStep::RestoreLeave)
        } else {
            (gone(t), seq!["[tel] hooks restored"@], UnhookStep::Done)
        },
        UnhookEvent::LeaveRestored(ok) => if !ok {
            (t, seq!["[tel] Leave restore FAILED — slot retained"@], UnhookStep::Done)
        } else {
            (gone(t), seq!["[tel] hooks restored"@], UnhookStep::Done)
        },
    }
}

fn forget(t: &mut Telemetry, log: &mut Log)
    requires
        old(t).finish is None,
        old(t).leave is None,
    ensures
        *final(t) == gone(*old(t)),
        final(log)@ == old(log)@.push("[tel] hooks restored"@),
{
    t.finish_near = 0;
    t.leave_near = 0;
    t.finish_tramp = 0;
    t.leave_tramp = 0;
    log.say(text::text_of("[tel] hooks restored"));
}

/// Takes both hooks back, one after the other.
pub fn unhook(t: &mut Telemetry, event: UnhookEvent, log: &mut Log) -> (r: UnhookStep)
    requires
        event is LeaveRestored ==> old(t).finish is None,
    ensures
        ({
            let u = unhook_turn(*old(t), event);
            *final(t) == u.0 && final(log)@ == old(log)@ + u.1 && r == u.2
        }),
{
    assert(log@ + Seq::<Seq<char>>::empty() == log@);
    match event {
        UnhookEvent::Begin => {
            if t.finish.is_none() && t.leave.is_none() {
                log.say(text::text_of("[tel] already unhooked"));
                assert(log@ == old(log)@ + seq!["[tel] already unhooked"@]);
                return UnhookStep::Done;
            }
            if t.finish.is_some() {
                UnhookStep::RestoreFinish
            } else {
                UnhookStep::RestoreLeave
            }
        },
        UnhookEvent::FinishRestored(ok) => {
            if !ok {
                log.say(text::text_of("[tel] FinishProcessing restore FAILED — slot retained"));
                assert(log@ == old(log)@ + seq![
                    "[tel] FinishProcessing restore FAILED — slot retained"@,
                ]);
                return UnhookStep::Done;
            }
            t.finish = None;
            if t.leave.is_some() {
                return UnhookStep::RestoreLeave;
            }
            forget(t, log);
            assert(log@ == old(log)@ + seq!["[tel] hooks restored"@]);
            UnhookStep::Done
        },
        UnhookEvent::LeaveRestored(ok) => {
            if !ok {
                log.say(text::text_of("[tel] Leave restore FAILED — slot retained"));
                assert(log@ == old(log)@ + seq!["[tel] Leave restore FAILED — slot retained"@]);
                return UnhookStep::Done;
            }
            t.leave = None;
            forget(t, log);
            assert(log@ == old(log)@ + seq!["[tel] hooks restored"@]);
            UnhookStep::Done
        },
    }
}

/// Once both hooks are gone, unhooking again changes nothing.
pub proof fn lemma_unhook_again(t: Telemetry)
    ensures
        unhook_turn(gone(t), UnhookEvent::Begin).0 == gone(t),
        unhook_turn(gone(t), UnhookEvent::Begin).2 == UnhookStep::Done,
{
}

/// Four kinds of change are told apart, each by its number, and any other is ignored; each
/// kind has a name of its own.
pub proof fn lemma_kinds(t: u32, a: TelKind, b: TelKind)
    ensures
        kind_of(t) is MemberRemoved <==> t == 4,
        kind_of(t) is Updated <==> t == 7,
        kind_of(t) is Disconnecting <==> t == 9,
        kind_of(t) is Disconnected <==> t == 10,
        kind_of(t) is Ignore <==> t != 4 && t != 7 && t != 9 && t != 10,
        kind_name(a) == kind_name(b) ==> a == b,
        kind_name(TelKind::MemberRemoved) == "MemberRemoved"@,
        kind_name(TelKind::Updated) == "Updated"@,
        kind_name(TelKind::Disconnecting) == "Disconnecting"@,
        kind_name(TelKind::Disconnected) == "Disconnected"@,
{
    reveal_strlit("Ignore");
    reveal_strlit("MemberRemoved");
    reveal_strlit("Updated");
    reveal_strlit("Disconnecting");
    reveal_strlit("Disconnected");
    assert("MemberRemoved"@[0] == 'M');
    assert("Disconnecting"@[0] == 'D');
    assert("MemberRemoved"@ != "Disconnecting"@);
    assert("Ignore"@.len() == 6 && "MemberRemoved"@.len() == 13 && "Updated"@.len() == 7
        && "Disconnecting"@.len() == 13 && "Disconnected"@.len() == 12);
}

/// A pointer is followed where it is not too low and what it points to may be read.
pub proof fn lemma_followed(k: snapshot::Known, p: u64, len: usize)
    requires
        p <= usize::MAX,
    ensures
        ({
            let r = snapshot::readable(k, p as usize, len);
            let b = snapshot::bytes_at(k, p as usize, len);
            &&& r == Ok::<bool, Need>(true) && p >= 0x10000 && b is Ok ==> followed(k, p, len)
                == Ok::<Option<int>, Need>(Some(bytes::le_value(b->Ok_0)))
            &&& r is Ok && (r->Ok_0 == false || p < 0x10000) ==> followed(k, p, len) == Ok::<
                Option<int>,
                Need,
            >(None)
            &&& r is Err ==> followed(k, p, len) is Err
        }),
{
}

/// The type of a change stands where the entry of the list points to, and its lobby eight
/// bytes on: the entries are pointers of eight bytes, one behind the other.
pub proof fn lemma_entry_is_followed(
    k: snapshot::Known,
    changes: u64,
    i: usize,
    p: int,
    t: int,
    l: int,
)
    requires
        changes + i * 8 <= u64::MAX,
        0 <= p <= u64::MAX - 8,
        0 <= t <= u32::MAX,
        0 <= l <= u64::MAX,
        followed(k, (changes + i * 8) as u64, 8) == Ok::<Option<int>, Need>(Some(p)),
    ensures
        followed(k, p as u64, 4) == Ok::<Option<int>, Need>(Some(t)) ==> type_at(k, changes, i)
            == Ok::<Option<u32>, Need>(Some(t as u32)),
        followed(k, p as u64, 4) == Ok::<Option<int>, Need>(None) ==> type_at(k, changes, i) == Ok::<
            Option<u32>,
            Need,
        >(None),
        followed(k, (p + 8) as u64, 8) == Ok::<Option<int>, Need>(Some(l)) ==> lobby_at(
            k,
            changes,
            i,
        ) == Ok::<Option<u64>, Need>(Some(l as u64)),
        followed(k, (p + 8) as u64, 8) == Ok::<Option<int>, Need>(None) ==> lobby_at(k, changes, i)
            == Ok::<Option<u64>, Need>(None),
{
}

proof fn lemma_seen_from(
    k: snapshot::Known,
    changes: u64,
    i: usize,
    n: usize,
    s: Seen,
    kind: TelKind,
    lobby: u64,
)
    requires
        i <= n,
        n < usize::MAX,
        s.kinds.no_duplicates(),
        !s.kinds.contains(TelKind::Ignore),
        seen_from(k, changes, i, n, s) is Ok,
    ensures
        ({
            let r = seen_from(k, changes, i, n, s)->Ok_0;
            &&& r.kinds.no_duplicates()
            &&& !r.kinds.contains(TelKind::Ignore)
            &&& kind != TelKind::Ignore ==> (r.kinds.contains(kind) <==> s.kinds.contains(kind)
                || exists|j: usize|
                i <= j < n && (#[trigger] type_at(k, changes, j)) is Ok && type_at(
                    k,
                    changes,
                    j,
                )->Ok_0 is Some && kind_of(type_at(k, changes, j)->Ok_0->0) == kind)
            &&& r.lobbies.contains(lobby) <==> s.lobbies.contains(lobby) || exists|j: usize|
                i <= j < n && (#[trigger] type_at(k, changes, j)) == Ok::<Option<u32>, Need>(
                    Some(4u32),
                ) && lobby_at(k, changes, j) == Ok::<Option<u64>, Need>(Some(lobby))
        }),
    decreases n - i,
{
    if i < n {
        let ty = type_at(k, changes, i);
        let next = (i + 1) as usize;
        if ty->Ok_0 is None || kind_of(ty->Ok_0->0) == TelKind::Ignore {
            lemma_seen_from(k, changes, next, n, s, kind, lobby);
        } else {
            let t = ty->Ok_0->0;
            let kinds = with_kind(s.kinds, kind_of(t));
            assert forall|x: TelKind| kinds.contains(x) <==> s.kinds.contains(x) || x == kind_of(
                t,
            ) by {
                if s.kinds.contains(x) {
                    let a = s.kinds.index_of(x);
                    assert(kinds[a] == x);
                }
                if x == kind_of(t) && !s.kinds.contains(x) {
                    assert(kinds[s.kinds.len() as int] == x);
                }
            }
            assert(kinds.no_duplicates());
            if t == 4 {
                let l = lobby_at(k, changes, i)->Ok_0;
                let lobbies = s.lobbies + bytes::opt_seq(l);
                assert(lobbies.contains(lobby) <==> s.lobbies.contains(lobby) || l == Some(lobby)) by {
                    if s.lobbies.contains(lobby) {
                        let a = s.lobbies.index_of(lobby);
                        assert(lobbies[a] == lobby);
                    }
                    if l == Some(lobby) {
                        assert(lobbies[s.lobbies.len() as int] == lobby);
                    }
                }
                lemma_seen_from(k, changes, next, n, Seen { kinds, lobbies }, kind, lobby);
            } else {
                lemma_seen_from(k, changes, next, n, Seen { kinds, ..s }, kind, lobby);
            }
        }
    }
}

/// Every change of the list is looked at: a kind is told exactly where some change is of
/// it, once and never the kind that is ignored, and a lobby exactly where some change of
/// type 4 names it. A list of none, or of more than 1024, is not looked at.
pub proof fn lemma_changes_are_seen(
    k: snapshot::Known,
    count: u64,
    changes: u64,
    kind: TelKind,
    lobby: u64,
)
    requires
        count <= u32::MAX,
        count < usize::MAX,
        seen_among(k, count, changes) is Ok,
    ensures
        ({
            let r = seen_among(k, count, changes)->Ok_0;
            let list = 0 < count <= 1024 && changes >= 0x10000 && snapshot::readable(
                k,
                changes as usize,
                8,
            ) == Ok::<bool, Need>(true);
            &&& !list ==> r.kinds.len() == 0 && r.lobbies.len() == 0
            &&& r.kinds.no_duplicates()
            &&& !r.kinds.contains(TelKind::Ignore)
            &&& list && kind != TelKind::Ignore ==> (r.kinds.contains(kind) <==> exists|j: usize|
                0 <= j < count && (#[trigger] type_at(k, changes, j)) is Ok && type_at(
                    k,
                    changes,
                    j,
                )->Ok_0 is Some && kind_of(type_at(k, changes, j)->Ok_0->0) == kind)
            &&& list ==> (r.lobbies.contains(lobby) <==> exists|j: usize|
                0 <= j < count && (#[trigger] type_at(k, changes, j)) == Ok::<Option<u32>, Need>(
                    Some(4u32),
                ) && lobby_at(k, changes, j) == Ok::<Option<u64>, Need>(Some(lobby)))
        }),
{
    let none = Seen { kinds: seq![], lobbies: seq![] };
    assert(count as u32 == count);
    if in_range(count as u32) && snapshot::safe(
        changes,
        snapshot::readable(k, changes as usize, 8)->Ok_0,
    ) {
        lemma_seen_from(k, changes, 0, count as usize, none, kind, lobby);
    }
}

/// A report is one line on the whole list and one on each lobby in order, as far as the
/// budget of 64 lines reaches; where no kind was seen there is nothing to report.
pub proof fn lemma_report(used: u64, count: u64, s: Seen, i: int)
    ensures
        ({
            let r = report_lines(used, count, s);
            let left = 64 - used;
            &&& s.kinds.len() == 0 || left <= 0 ==> r.len() == 0
            &&& s.kinds.len() > 0 && left > 0 ==> r.len() == (if 1 + s.lobbies.len() <= left {
                1 + s.lobbies.len() as int
            } else {
                left
            }) && r[0] == batch_line(count, s.kinds)
            &&& 0 < i < r.len() ==> r[i] == "[tel] memberremoved lobby=0x"@ + text::numeral(
                s.lobbies[i - 1] as int,
                16,
                true,
            )
        }),
{
}

/// The line on a list tells how many changes it has and names the kinds in order.
pub proof fn lemma_batch_line(count: u64, kinds: Seq<TelKind>, k: TelKind)
    ensures
        text::contains(
            batch_line(count, kinds),
            " n="@ + text::numeral(count as int, 10, false) + " "@,
        ),
        joined(seq![k]) == kind_name(k),
        kinds.len() > 0 ==> joined(kinds.push(k)) == joined(kinds) + ","@ + kind_name(k),
{
    reveal_strlit("[tel] statechanges n=");
    reveal_strlit("[tel] statechanges");
    reveal_strlit(" n=");
    reveal_strlit(" ");
    reveal_strlit(" types=[");
    let d = text::numeral(count as int, 10, false);
    let a = "[tel] statechanges"@;
    let f = " n="@ + d + " "@;
    let b = " types=["@.drop_first() + joined(kinds) + "]"@;
    assert(batch_line(count, kinds) =~= a + f + b);
    text::lemma_occurs_between(a, f, b);
    assert(kinds.push(k).drop_last() =~= kinds);
}

/// When the hooks may be installed: with a handle, the functions found, and none there yet.
pub proof fn lemma_install_allowed(handle: u64, finish: bool, leave: bool, installed: bool)
    ensures
        both_allowed(handle, finish, leave, installed) <==> !(handle == 0 || !finish || !leave
            || installed),
        leave_allowed(handle, leave, installed) <==> !(handle == 0 || !leave || installed),
        both_allowed(handle, finish, leave, installed) ==> leave_allowed(handle, leave, installed),
{
}

/// A probe is told while fewer than 16 were made and fewer than 64 lines were told.
pub proof fn lemma_probed(used: u64, probes: u64)
    ensures
        is_probed(used, probes) <==> probes < 16 && used < 64,
{
}

/// How unhooking goes: the hook on finishing is taken back first, then that on leaving; one
/// that could not be taken back stays in its slot and ends it. Once both are back, all that
/// was kept of them is forgotten.
pub proof fn lemma_unhook_goes(t: Telemetry, ok: bool)
    ensures
        ({
            let b = unhook_turn(t, UnhookEvent::Begin);
            &&& b.0 == t
            &&& b.2 is RestoreFinish <==> t.finish is Some
            &&& b.2 is RestoreLeave <==> t.finish is None && t.leave is Some
            &&& b.2 is Done <==> t.finish is None && t.leave is None
        }),
        ({
            let f = unhook_turn(t, UnhookEvent::FinishRestored(ok));
            &&& !ok ==> f.0 == t && f.2 is Done
            &&& ok ==> f.0.finish is None
            &&& ok && t.leave is Some ==> f.2 is RestoreLeave && f.0.leave == t.leave
            &&& ok && t.leave is None ==> f.2 is Done && f.0.leave is None && f.0.finish_near == 0
                && f.0.leave_near == 0 && f.0.finish_tramp == 0 && f.0.leave_tramp == 0
        }),
        ({
            let l = unhook_turn(t, UnhookEvent::LeaveRestored(ok));
            &&& l.2 is Done
            &&& !ok ==> l.0 == t
            &&& ok ==> l.0.finish is None && l.0.leave is None && l.0.finish_near == 0
                && l.0.leave_near == 0 && l.0.finish_tramp == 0 && l.0.leave_tramp == 0
                && l.0.finish_fn == t.finish_fn && l.0.leave_fn == t.leave_fn
        }),
{
}

/// What is told of a probe and of a leave: the number of changes, where they are, and the
/// handle.
pub proof fn lemma_probe_is_told(count: u64, changes: u64, handle: u64)
    ensures
        probe_line(count, changes) == "[tel] finish_probe count="@ + text::numeral(
            count as int,
            10,
            false,
        ) + " changes=0x"@ + text::numeral(changes as int, 16, true),
        leave_line(handle) == "[tel] PFLobbyLeave handle=0x"@ + text::numeral(
            handle as int,
            16,
            true,
        ),
{
}

/// A function is hooked for telemetry only where it was found, lies in the library and begins
/// with the bytes that are expected: then through far code that finds its trampoline in a
/// slot. Bytes that are not known are asked for, and anything else fails with one line.
pub proof fn lemma_telemetry_is_checked(
    target: usize,
    expected: Seq<u8>,
    name: Seq<char>,
    base: u64,
    size: usize,
    stub: u64,
    k: snapshot::Known,
    r: Result<Start, Need>,
)
    requires
        5 <= expected.len() <= 16,
        tel_started(target, expected, name, Some((base, size)), stub, k, r),
    ensures
        ({
            let inside = target != 0 && base <= target < base + size;
            let b = snapshot::bytes_at(k, target, expected.len() as usize);
            &&& inside && b == Ok::<Seq<u8>, Need>(expected) ==> r is Ok && r->Ok_0 is Install
                && r->Ok_0->Install_1@ is More && r->Ok_0->Install_1@->More_0.target == target
                && r->Ok_0->Install_1@->More_0.len == expected.len()
                && !r->Ok_0->Install_1@->More_0.capture && r->Ok_0->Install_1@->More_0.stub == stub
                && r->Ok_0->Install_1@->More_0.has_slot
            &&& inside && b is Err ==> r is Err
            &&& !inside || b is Ok && b->Ok_0 != expected ==> r is Ok && r->Ok_0 == Start::Done(
                false,
            ) && tel_check_lines(target, expected, name, Some((base, size)), k).len() == 1
        }),
        leave_prologue() == seq![0x40u8, 0x53, 0x55, 0x56, 0x57, 0x41, 0x54],
{
}

/// The block of a hook is kept with it; without a hook the block stays what it was.
pub proof fn lemma_near_is_kept(h: Hook, near: usize)
    ensures
        near_or(Some(h), near) == h@.near,
        near_or(None, near) == near,
{
}

/// What was seen comes in the order of the changes: what a later change adds comes behind
/// what was there, and a list can be looked at in two parts.
pub proof fn lemma_seen_in_order(
    k: snapshot::Known,
    changes: u64,
    i: usize,
    j: usize,
    n: usize,
    s: Seen,
)
    requires
        i <= j <= n,
        n < usize::MAX,
        seen_from(k, changes, i, n, s) is Ok,
    ensures
        ({
            let r = seen_from(k, changes, i, n, s)->Ok_0;
            &&& s.kinds.len() <= r.kinds.len() && r.kinds.take(s.kinds.len() as int) == s.kinds
            &&& s.lobbies.len() <= r.lobbies.len() && r.lobbies.take(s.lobbies.len() as int)
                == s.lobbies
        }),
        seen_from(k, changes, i, j, s) is Ok,
        seen_from(k, changes, j, n, seen_from(k, changes, i, j, s)->Ok_0) == seen_from(
            k,
            changes,
            i,
            n,
            s,
        ),
    decreases n - i,
{
    let next = (i + 1) as usize;
    if i < n {
        let ty = type_at(k, changes, i)->Ok_0;
        let m = if ty is None || kind_of(ty->0) == TelKind::Ignore {
            s
        } else if kind_of(ty->0) == TelKind::MemberRemoved {
            Seen {
                kinds: with_kind(s.kinds, kind_of(ty->0)),
                lobbies: s.lobbies + bytes::opt_seq(lobby_at(k, changes, i)->Ok_0),
            }
        } else {
            Seen { kinds: with_kind(s.kinds, kind_of(ty->0)), ..s }
        };
        lemma_seen_in_order(
            k,
            changes,
            next,
            if j < next {
                next
            } else {
                j
            },
            n,
            m,
        );
        let r = seen_from(k, changes, i, n, s)->Ok_0;
        assert(r == seen_from(k, changes, next, n, m)->Ok_0);
        assert(m.kinds.take(s.kinds.len() as int) =~= s.kinds);
        assert(m.lobbies.take(s.lobbies.len() as int) =~= s.lobbies);
        assert(r.kinds.take(s.kinds.len() as int) =~= r.kinds.take(m.kinds.len() as int).take(
            s.kinds.len() as int,
        ));
        assert(r.lobbies.take(s.lobbies.len() as int) =~= r.lobbies.take(
            m.lobbies.len() as int,
        ).take(s.lobbies.len() as int));
    } else {
        assert(s.kinds.take(s.kinds.len() as int) =~= s.kinds);
        assert(s.lobbies.take(s.lobbies.len() as int) =~= s.lobbies);
    }
}

/// Whether both hooks are to be installed.
pub open spec fn begins(t: Telemetry, c: TelContext) -> bool {
    !c.no_telemetry && both_allowed(
        c.handle,
        c.finish != 0,
        c.leave != 0,
        t.finish is Some || t.leave is Some,
    )
}

/// Whether the hook on leaving alone is to be installed.
pub open spec fn begins_leave_only(t: Telemetry, c: TelContext) -> bool {
    !c.no_telemetry && leave_allowed(c.handle, c.leave != 0, t.leave is Some)
}

/// What is kept of the two hooks once they were tried: both, or neither but for the blocks.
pub open spec fn taken(t: Telemetry, finish: Option<Hook>, leave: Option<Hook>) -> Telemetry {
    let n = Telemetry {
        finish_near: near_or(finish, t.finish_near),
        leave_near: near_or(leave, t.leave_near),
        ..t
    };
    if finish is Some && leave is Some {
        Telemetry { finish, leave, ..n }
    } else {
        n
    }
}

/// What is kept once a hook that came alone was taken back, or was not.
pub open spec fn rolled(
    t: Telemetry,
    finish: Option<Hook>,
    leave: Option<Hook>,
    ok: bool,
) -> Telemetry {
    if ok {
        Telemetry { finish_near: 0, leave_near: 0, finish_tramp: 0, leave_tramp: 0, ..t }
    } else {
        Telemetry {
            finish: if finish is Some {
                finish
            } else {
                t.finish
            },
            leave: if leave is Some {
                leave
            } else {
                t.leave
            },
            ..t
        }
    }
}

/// What is kept of the hook on leaving once it was tried alone.
pub open spec fn leave_taken(t: Telemetry, leave: Option<Hook>) -> Telemetry {
    match leave {
        Some(h) => Telemetry { leave, leave_near: h@.near, ..t },
        None => Telemetry { leave_tramp: 0, ..t },
    }
}

/// Nothing is hooked where telemetry is switched off, without a handle, without the
/// functions, or over a hook that is there.
pub proof fn lemma_telemetry_begins(t: Telemetry, c: TelContext)
    ensures
        begins(t, c) <==> !(c.no_telemetry || c.handle == 0 || c.finish == 0 || c.leave == 0
            || t.finish is Some || t.leave is Some),
        begins_leave_only(t, c) <==> !(c.no_telemetry || c.handle == 0 || c.leave == 0 || t.leave
            is Some),
{
}

/// Two hooks are kept together or not at all: where one failed, neither is held until the
/// other was taken back, which leaves nothing behind; and one that could not be taken back is
/// held after all, so that it is not lost.
pub proof fn lemma_hooks_kept_together(
    t: Telemetry,
    finish: Option<Hook>,
    leave: Option<Hook>,
    ok: bool,
)
    requires
        t.finish is None,
        t.leave is None,
    ensures
        finish is Some && leave is Some ==> taken(t, finish, leave).finish == finish && taken(
            t,
            finish,
            leave,
        ).leave == leave && taken(t, finish, leave).finish_near == finish->0@.near && taken(
            t,
            finish,
            leave,
        ).leave_near == leave->0@.near,
        finish is None || leave is None ==> taken(t, finish, leave).finish is None && taken(
            t,
            finish,
            leave,
        ).leave is None,
        ok ==> rolled(t, finish, leave, ok).finish is None && rolled(t, finish, leave, ok).leave
            is None && rolled(t, finish, leave, ok).finish_near == 0 && rolled(
            t,
            finish,
            leave,
            ok,
        ).leave_near == 0 && rolled(t, finish, leave, ok).finish_tramp == 0 && rolled(
            t,
            finish,
            leave,
            ok,
        ).leave_tramp == 0,
        !ok ==> rolled(t, finish, leave, ok).finish == finish && rolled(
            t,
            finish,
            leave,
            ok,
        ).leave == leave,
        leave is Some ==> leave_taken(t, leave).leave == leave && leave_taken(t, leave).leave_near
            == leave->0@.near,
        leave is None ==> leave_taken(t, leave).leave is None && leave_taken(t, leave).leave_tramp
            == 0,
        leave_taken(t, leave).finish is None,
{
}

} // verus!
