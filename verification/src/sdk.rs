//! The functions of the multiplayer library, and the handle that the game has of it.
//!
//! The handle is the first argument of a function that the game calls in every
//! frame. A capturing hook on it is taken back as soon as it has seen a call.
use vstd::prelude::*;

use crate::detour;
use crate::detour::{Hook, Start};
use crate::log::Log;
use crate::snapshot;
use crate::snapshot::{Need, Snapshot};
use crate::text;

verus! {

/// Where the game builds what it sends to remove a member, from its base.
pub const KICK_CONFIG_RVA: u64 = 0x3B4CD8D;

/// How many functions are looked up.
pub const EXPORTS: usize = 15;

/// Where the functions are; zero where one was not found.
#[derive(Clone, Copy, PartialEq, Eq, Debug, Structural)]
pub struct SdkFns {
    pub find_lobbies: usize,
    pub start_processing: usize,
    pub finish_processing: usize,
    pub force_remove: usize,
    pub get_lobby_id: usize,
    pub get_members: usize,
    pub post_update: usize,
    pub get_owner: usize,
    pub get_member_property: usize,
    pub get_lobby_property: usize,
    pub get_conn_string: usize,
    pub get_member_conn_status: usize,
    pub join_lobby: usize,
    pub create_join: usize,
    pub leave: usize,
    /// In the game itself.
    pub kick_config: usize,
}

pub open spec fn no_fns() -> SdkFns {
    SdkFns {
        find_lobbies: 0,
        start_processing: 0,
        finish_processing: 0,
        force_remove: 0,
        get_lobby_id: 0,
        get_members: 0,
        post_update: 0,
        get_owner: 0,
        get_member_property: 0,
        get_lobby_property: 0,
        get_conn_string: 0,
        get_member_conn_status: 0,
        join_lobby: 0,
        create_join: 0,
        leave: 0,
        kick_config: 0,
    }
}

/// The names under which the functions are looked up, in order.
pub open spec fn exports() -> Seq<Seq<char>> {
    seq![
        "PFMultiplayerFindLobbies"@,
        "PFMultiplayerStartProcessingLobbyStateChanges"@,
        "PFMultiplayerFinishProcessingLobbyStateChanges"@,
        "PFLobbyForceRemoveMember"@,
        "PFLobbyGetLobbyId"@,
        "PFLobbyGetMembers"@,
        "PFLobbyPostUpdate"@,
        "PFLobbyGetOwner"@,
        "PFLobbyGetMemberProperty"@,
        "PFLobbyGetLobbyProperty"@,
        "PFLobbyGetConnectionString"@,
        "PFLobbyGetMemberConnectionStatus"@,
        "PFMultiplayerJoinLobby"@,
        "PFMultiplayerCreateAndJoinLobby"@,
        "PFLobbyLeave"@,
    ]
}

/// The names under which the functions are looked up.
pub fn export_names() -> (r: Vec<&'static str>)
    ensures
        r@.map_values(|s: &'static str| s@) == exports(),
        r.len() == EXPORTS,
{
    let v = vec![
        "PFMultiplayerFindLobbies",
        "PFMultiplayerStartProcessingLobbyStateChanges",
        "PFMultiplayerFinishProcessingLobbyStateChanges",
        "PFLobbyForceRemoveMember",
        "PFLobbyGetLobbyId",
        "PFLobbyGetMembers",
        "PFLobbyPostUpdate",
        "PFLobbyGetOwner",
        "PFLobbyGetMemberProperty",
        "PFLobbyGetLobbyProperty",
        "PFLobbyGetConnectionString",
        "PFLobbyGetMemberConnectionStatus",
        "PFMultiplayerJoinLobby",
        "PFMultiplayerCreateAndJoinLobby",
        "PFLobbyLeave",
    ];
    assert(v@.map_values(|s: &'static str| s@) == exports());
    v
}

/// The functions, from where each name was found.
pub open spec fn fns_of(a: Seq<usize>, kick_config: usize) -> SdkFns {
    SdkFns {
        find_lobbies: a[0],
        start_processing: a[1],
        finish_processing: a[2],
        force_remove: a[3],
        get_lobby_id: a[4],
        get_members: a[5],
        post_update: a[6],
        get_owner: a[7],
        get_member_property: a[8],
        get_lobby_property: a[9],
        get_conn_string: a[10],
        get_member_conn_status: a[11],
        join_lobby: a[12],
        create_join: a[13],
        leave: a[14],
        kick_config,
    }
}

/// What is known of the multiplayer library.
pub struct Sdk {
    pub base: u64,
    pub handle: u64,
    pub fns: SdkFns,
    pub grab: Option<Hook>,
}

pub open spec fn hooked(h: Option<Hook>) -> Option<detour::Hooked> {
    match h {
        Some(x) => Some(x@),
        None => None,
    }
}

impl Sdk {
    pub fn new() -> (r: Sdk)
        ensures
            r.base == 0,
            r.handle == 0,
            r.fns == no_fns(),
            r.grab is None,
    {
        Sdk {
            base: 0,
            handle: 0,
            fns: SdkFns {
                find_lobbies: 0,
                start_processing: 0,
                finish_processing: 0,
                force_remove: 0,
                get_lobby_id: 0,
                get_members: 0,
                post_update: 0,
                get_owner: 0,
                get_member_property: 0,
                get_lobby_property: 0,
                get_conn_string: 0,
                get_member_conn_status: 0,
                join_lobby: 0,
                create_join: 0,
                leave: 0,
                kick_config: 0,
            },
            grab: None,
        }
    }
}

/// A label and an address.
pub open spec fn labelled(label: Seq<char>, addr: usize) -> Seq<char> {
    label + text::hex_upper(addr as int)
}

/// The line that lists where the functions were found.
pub open spec fn fns_line(f: SdkFns) -> Seq<char> {
    "[sdk] "@ + labelled("find=0x"@, f.find_lobbies) + labelled(" start=0x"@, f.start_processing)
        + labelled(" finish=0x"@, f.finish_processing) + labelled(" force=0x"@, f.force_remove)
        + labelled(" getid=0x"@, f.get_lobby_id) + labelled(" members=0x"@, f.get_members)
        + labelled(" post=0x"@, f.post_update) + labelled(" owner=0x"@, f.get_owner) + labelled(
        " getmp=0x"@,
        f.get_member_property,
    ) + labelled(" getlp=0x"@, f.get_lobby_property) + labelled(" conn=0x"@, f.get_conn_string)
        + labelled(" memconn=0x"@, f.get_member_conn_status) + labelled(" join=0x"@, f.join_lobby)
        + labelled(" createjoin=0x"@, f.create_join) + labelled(" leave=0x"@, f.leave)
}

fn label(s: &str, addr: usize) -> (r: String)
    ensures
        r@ == labelled(s@, addr),
{
    text::cat2(s, text::hex_of(addr as u64).as_str())
}

fn fns_text(f: &SdkFns) -> (r: String)
    ensures
        r@ == fns_line(*f),
{
    let mut s = text::text_of("[sdk] ");
    s.append(label("find=0x", f.find_lobbies).as_str());
    s.append(label(" start=0x", f.start_processing).as_str());
    s.append(label(" finish=0x", f.finish_processing).as_str());
    s.append(label(" force=0x", f.force_remove).as_str());
    s.append(label(" getid=0x", f.get_lobby_id).as_str());
    s.append(label(" members=0x", f.get_members).as_str());
    s.append(label(" post=0x", f.post_update).as_str());
    s.append(label(" owner=0x", f.get_owner).as_str());
    s.append(label(" getmp=0x", f.get_member_property).as_str());
    s.append(label(" getlp=0x", f.get_lobby_property).as_str());
    s.append(label(" conn=0x", f.get_conn_string).as_str());
    s.append(label(" memconn=0x", f.get_member_conn_status).as_str());
    s.append(label(" join=0x", f.join_lobby).as_str());
    s.append(label(" createjoin=0x", f.create_join).as_str());
    s.append(label(" leave=0x", f.leave).as_str());
    s
}

/// Where the game builds what it sends, once its base is known.
pub open spec fn kick_config_at(game: u64, before: usize) -> usize {
    if game != 0 {
        (game + KICK_CONFIG_RVA) as usize
    } else {
        before
    }
}

/// What `init` says of the game.
pub open spec fn game_line(game: u64) -> Seq<char> {
    if game != 0 {
        "[sdk] game=0x"@ + text::hex_upper(game as int) + " KICKCFG=0x"@ + text::hex_upper(
            (game + KICK_CONFIG_RVA) as usize as int,
        )
    } else {
        "[sdk] game exe not loaded (KICKCFG unavailable)"@
    }
}

/// Takes the base of the library, where its functions were found, and the base of
/// the game. Nothing happens where the library is not loaded.
pub fn init(sdk: &mut Sdk, base: u64, found: &Vec<usize>, game: u64, log: &mut Log)
    requires
        found.len() == EXPORTS,
        game + KICK_CONFIG_RVA <= u64::MAX,
    ensures
        final(sdk).handle == old(sdk).handle,
        final(sdk).grab == old(sdk).grab,
        base == 0 ==> final(sdk).base == old(sdk).base && final(sdk).fns == old(sdk).fns
            && final(log)@ == old(log)@.push("[sdk] PlayFabMultiplayerWin.dll not loaded"@),
        base != 0 ==> final(sdk).base == base && final(sdk).fns == fns_of(
            found@,
            kick_config_at(game, old(sdk).fns.kick_config),
        ) && final(log)@ == old(log)@ + seq![
            "[sdk] base=0x"@ + text::hex_upper(base as int),
            game_line(game),
            fns_line(final(sdk).fns),
        ],
{
    if base == 0 {
        log.say(text::text_of("[sdk] PlayFabMultiplayerWin.dll not loaded"));
        return;
    }
    sdk.base = base;
    log.say(text::cat2("[sdk] base=0x", text::hex_of(base).as_str()));
    let kick_config: usize = if game != 0 {
        let k: usize = (game + KICK_CONFIG_RVA) as usize;
        let mut s = text::cat3("[sdk] game=0x", text::hex_of(game).as_str(), " KICKCFG=0x");
        s.append(text::hex_of(k as u64).as_str());
        log.say(s);
        k
    } else {
        log.say(text::text_of("[sdk] game exe not loaded (KICKCFG unavailable)"));
        sdk.fns.kick_config
    };
    sdk.fns = SdkFns {
        find_lobbies: found[0],
        start_processing: found[1],
        finish_processing: found[2],
        force_remove: found[3],
        get_lobby_id: found[4],
        get_members: found[5],
        post_update: found[6],
        get_owner: found[7],
        get_member_property: found[8],
        get_lobby_property: found[9],
        get_conn_string: found[10],
        get_member_conn_status: found[11],
        join_lobby: found[12],
        create_join: found[13],
        leave: found[14],
        kick_config,
    };
    log.say(fns_text(&sdk.fns));
    assert(log@ == old(log)@ + seq![
        "[sdk] base=0x"@ + text::hex_upper(base as int),
        game_line(game),
        fns_line(sdk.fns),
    ]);
}

/// The instructions with which the function begins that is hooked for the handle.
pub open spec fn grab_prologue() -> Seq<u8> {
    seq![0x40u8, 0x55, 0x56, 0x57, 0x41, 0x54]
}

pub(crate) fn prologue_rbp_r12() -> (r: Vec<u8>)
    ensures
        r@ == grab_prologue(),
{
    let v: Vec<u8> = vec![0x40, 0x55, 0x56, 0x57, 0x41, 0x54];
    assert(v@ == grab_prologue());
    v
}

/// The checks before the hook is installed.
pub open spec fn grab_cleared(
    sdk: Sdk,
    range: Option<(u64, usize)>,
    k: snapshot::Known,
) -> detour::Cleared {
    detour::cleared(
        "[detour] "@,
        sdk.fns.start_processing,
        grab_prologue(),
        "StartProcessing"@,
        "PlayFabMultiplayerWin.dll"@,
        range,
        k,
    )
}

/// What `install_grab_handle` makes of the state: nothing is to be done where the
/// handle is known or the hook is there.
pub open spec fn grab_outcome(
    sdk: Sdk,
    range: Option<(u64, usize)>,
    k: snapshot::Known,
    r: Result<Start, Need>,
) -> bool {
    if sdk.handle != 0 || sdk.grab is Some {
        r matches Ok(Start::Done(b)) && b
    } else if sdk.fns.start_processing == 0 {
        r matches Ok(Start::Done(b)) && !b
    } else {
        match grab_cleared(sdk, range, k) {
            detour::Cleared::Wants(n) => r == Err::<Start, Need>(n),
            detour::Cleared::Refused(_) => r matches Ok(Start::Done(b)) && !b,
            detour::Cleared::Clear => r matches Ok(Start::Install(ops, next)) && (
                detour::deeds(ops@),
                next@,
            ) == detour::install_start(sdk.fns.start_processing, 6, true, 0, false),
        }
    }
}

/// What `install_grab_handle` says.
pub open spec fn grab_said(
    sdk: Sdk,
    range: Option<(u64, usize)>,
    k: snapshot::Known,
) -> Seq<Seq<char>> {
    if sdk.handle != 0 || sdk.grab is Some {
        seq![]
    } else if sdk.fns.start_processing == 0 {
        seq!["[sdk] StartProcessing not resolved, grab hook skipped"@]
    } else {
        match grab_cleared(sdk, range, k) {
            detour::Cleared::Refused(lines) => lines + seq![
                "[sdk] grab hook install FAILED (near alloc)"@,
            ],
            _ => seq![],
        }
    }
}

/// Begins to install the hook that grabs the handle.
pub fn install_grab_handle(
    sdk: &Sdk,
    range: Option<(u64, usize)>,
    snap: &Snapshot,
    log: &mut Log,
) -> (r: Result<Start, Need>)
    requires
        detour::range_fits(range),
        sdk.fns.start_processing + 0x3FF0_0000 <= usize::MAX,
    ensures
        grab_outcome(*sdk, range, snap@, r),
        final(log)@ == old(log)@ + grab_said(*sdk, range, snap@),
{
    assert(log@ + Seq::<Seq<char>>::empty() == log@);
    if sdk.handle != 0 || sdk.grab.is_some() {
        return Ok(Start::Done(true));
    }
    let sp: usize = sdk.fns.start_processing;
    if sp == 0 {
        log.say(text::text_of("[sdk] StartProcessing not resolved, grab hook skipped"));
        assert(log@ == old(log)@ + grab_said(*sdk, range, snap@));
        return Ok(Start::Done(false));
    }
    let expected = prologue_rbp_r12();
    match detour::install_capture_checked(
        sp,
        expected.as_slice(),
        "StartProcessing",
        "PlayFabMultiplayerWin.dll",
        range,
        snap,
        log,
    ) {
        Ok(Some((ops, next))) => Ok(Start::Install(ops, next)),
        Ok(None) => {
            log.say(text::text_of("[sdk] grab hook install FAILED (near alloc)"));
            assert(log@ == old(log)@ + grab_said(*sdk, range, snap@));
            Ok(Start::Done(false))
        },
        Err(n) => Err(n),
    }
}

/// Takes the outcome of the installation.
pub fn grab_installed(sdk: &mut Sdk, hook: Option<Hook>, log: &mut Log) -> (r: bool)
    ensures
        r == (hook is Some),
        final(sdk).base == old(sdk).base,
        final(sdk).handle == old(sdk).handle,
        final(sdk).fns == old(sdk).fns,
        final(sdk).grab == (if hook is Some {
            hook
        } else {
            old(sdk).grab
        }),
        final(log)@ == old(log)@.push(
            if hook is Some {
                "[sdk] grab hook installed on StartProcessing (module=PlayFabMultiplayerWin.dll)"@
            } else {
                "[sdk] grab hook install FAILED (near alloc)"@
            },
        ),
{
    match hook {
        Some(h) => {
            sdk.grab = Some(h);
            log.say(
                text::text_of(
                    "[sdk] grab hook installed on StartProcessing (module=PlayFabMultiplayerWin.dll)",
                ),
            );
            true
        },
        None => {
            log.say(text::text_of("[sdk] grab hook install FAILED (near alloc)"));
            false
        },
    }
}

/// The line that reports the handle.
pub open spec fn grabbed_line(handle: u64, calls: u64) -> Seq<char> {
    "[sdk] grabbed PFMultiplayerHandle=0x"@ + text::hex_upper(handle as int) + " (invocations="@
        + text::dec(calls as int) + ")"@
}

/// The first argument that the block of a hook holds.
pub open spec fn saved_in(block: Seq<u8>) -> int {
    crate::bytes::le_value(block.subrange(detour::CAP_SAVED_OFF as int, detour::CAP_SAVED_OFF + 8))
}

/// The calls that the block of a hook counted.
pub open spec fn calls_in(h: detour::Hooked, block: Seq<u8>) -> int {
    if h.is_capture {
        crate::bytes::le_value(
            block.subrange(detour::CAP_COUNT_OFF as int, detour::CAP_COUNT_OFF + 8),
        )
    } else {
        0
    }
}

/// Looks, in the block of the hook, whether the handle was seen; the hook is to be
/// taken back if so.
pub fn check_handle(sdk: &mut Sdk, block: &[u8], log: &mut Log) -> (r: bool)
    requires
        block@.len() >= detour::CAP_SLOT_OFF,
    ensures
        r == (old(sdk).handle == 0 && old(sdk).grab is Some && saved_in(block@) != 0),
        final(sdk).base == old(sdk).base,
        final(sdk).fns == old(sdk).fns,
        final(sdk).grab == old(sdk).grab,
        !r ==> final(sdk).handle == old(sdk).handle && final(log)@ == old(log)@,
        final(sdk).handle == handle_after(*old(sdk), saved_in(block@)),
        r ==> final(sdk).handle == saved_in(block@) && final(log)@ == old(log)@.push(
            grabbed_line(
                saved_in(block@) as u64,
                calls_in(old(sdk).grab->0@, block@) as u64,
            ),
        ),
{
    if sdk.handle != 0 {
        return false;
    }
    match &sdk.grab {
        None => {
            return false;
        },
        Some(h) => {
            let v: u64 = h.saved(block);
            if v == 0 {
                return false;
            }
            let calls: u64 = h.counts(block);
            let mut s = text::cat3(
                "[sdk] grabbed PFMultiplayerHandle=0x",
                text::hex_of(v).as_str(),
                " (invocations=",
            );
            s.append(text::dec_of(calls).as_str());
            s.append(")");
            log.say(s);
            sdk.handle = v;
            true
        },
    }
}

/// What is said once the hook was taken back, or could not be.
pub fn grab_restored_line(restored: bool) -> (r: String)
    ensures
        r@ == (if restored {
            "[sdk] grab hook restored"@
        } else {
            "[sdk] grab hook restore FAILED — slot retained"@
        }),
{
    if restored {
        text::text_of("[sdk] grab hook restored")
    } else {
        text::text_of("[sdk] grab hook restore FAILED — slot retained")
    }
}

/// Whether the hook is to be taken back before it is freed: not where it was when
/// the handle was seen.
pub fn grab_needs_restore(sdk: &Sdk) -> (r: bool)
    ensures
        r == (sdk.grab is Some && sdk.handle == 0),
{
    sdk.grab.is_some() && sdk.handle == 0
}

/// Frees the hook. A second call finds none.
pub fn unhook_grab(sdk: &mut Sdk, log: &mut Log)
    ensures
        final(sdk).base == old(sdk).base,
        final(sdk).handle == old(sdk).handle,
        final(sdk).fns == old(sdk).fns,
        final(sdk).grab is None,
        final(log)@ == old(log)@.push(
            if old(sdk).grab is Some {
                "[sdk] grab hook freed"@
            } else {
                "[sdk] grab hook already unhooked"@
            },
        ),
{
    if sdk.grab.is_none() {
        log.say(text::text_of("[sdk] grab hook already unhooked"));
        return;
    }
    sdk.grab = None;
    log.say(text::text_of("[sdk] grab hook freed"));
}

proof fn lemma_exports_differ(i: int, j: int)
    requires
        0 <= i < j < 15,
    ensures
        exports()[i] != exports()[j],
{
    reveal_strlit("PFMultiplayerFindLobbies");
    reveal_strlit("PFMultiplayerStartProcessingLobbyStateChanges");
    reveal_strlit("PFMultiplayerFinishProcessingLobbyStateChanges");
    reveal_strlit("PFLobbyForceRemoveMember");
    reveal_strlit("PFLobbyGetLobbyId");
    reveal_strlit("PFLobbyGetMembers");
    reveal_strlit("PFLobbyPostUpdate");
    reveal_strlit("PFLobbyGetOwner");
    reveal_strlit("PFLobbyGetMemberProperty");
    reveal_strlit("PFLobbyGetLobbyProperty");
    reveal_strlit("PFLobbyGetConnectionString");
    reveal_strlit("PFLobbyGetMemberConnectionStatus");
    reveal_strlit("PFMultiplayerJoinLobby");
    reveal_strlit("PFMultiplayerCreateAndJoinLobby");
    reveal_strlit("PFLobbyLeave");
    let a = exports()[i];
    let b = exports()[j];
    if a == b {
        assert(a.len() == b.len());
        assert(a[2] == b[2]);
        assert(a[7] == b[7]);
        assert(a[10] == b[10]);
    }
}

/// Each function is kept where it was found: for any of the exported names, the address
/// kept for that function is the one that was found under the name.
pub proof fn lemma_found_by_name(a: Seq<usize>, kick_config: usize, i: int)
    requires
        a.len() == 15,
        0 <= i < 15,
    ensures
        ({
            let f = fns_of(a, kick_config);
            let name = exports()[i];
            &&& name == "PFMultiplayerFindLobbies"@ ==> f.find_lobbies == a[i]
            &&& name == "PFMultiplayerStartProcessingLobbyStateChanges"@ ==> f.start_processing
                == a[i]
            &&& name == "PFMultiplayerFinishProcessingLobbyStateChanges"@ ==> f.finish_processing
                == a[i]
            &&& name == "PFLobbyForceRemoveMember"@ ==> f.force_remove == a[i]
            &&& name == "PFLobbyGetLobbyId"@ ==> f.get_lobby_id == a[i]
            &&& name == "PFLobbyGetMembers"@ ==> f.get_members == a[i]
            &&& name == "PFLobbyPostUpdate"@ ==> f.post_update == a[i]
            &&& name == "PFLobbyGetOwner"@ ==> f.get_owner == a[i]
            &&& name == "PFLobbyGetMemberProperty"@ ==> f.get_member_property == a[i]
            &&& name == "PFLobbyGetLobbyProperty"@ ==> f.get_lobby_property == a[i]
            &&& name == "PFLobbyGetConnectionString"@ ==> f.get_conn_string == a[i]
            &&& name == "PFLobbyGetMemberConnectionStatus"@ ==> f.get_member_conn_status == a[i]
            &&& name == "PFMultiplayerJoinLobby"@ ==> f.join_lobby == a[i]
            &&& name == "PFMultiplayerCreateAndJoinLobby"@ ==> f.create_join == a[i]
            &&& name == "PFLobbyLeave"@ ==> f.leave == a[i]
            &&& f.kick_config == kick_config
        }),
{
    assert forall|k: int| 0 <= k < 15 && k != i implies #[trigger] exports()[k] != exports()[i] by {
        if k < i {
            lemma_exports_differ(k, i);
        } else {
            lemma_exports_differ(i, k);
        }
    }
    let e = exports();
    assert(e[0] == "PFMultiplayerFindLobbies"@ && e[1]
        == "PFMultiplayerStartProcessingLobbyStateChanges"@ && e[2]
        == "PFMultiplayerFinishProcessingLobbyStateChanges"@ && e[3] == "PFLobbyForceRemoveMember"@
        && e[4] == "PFLobbyGetLobbyId"@ && e[5] == "PFLobbyGetMembers"@ && e[6]
        == "PFLobbyPostUpdate"@ && e[7] == "PFLobbyGetOwner"@ && e[8] == "PFLobbyGetMemberProperty"@
        && e[9] == "PFLobbyGetLobbyProperty"@ && e[10] == "PFLobbyGetConnectionString"@ && e[11]
        == "PFLobbyGetMemberConnectionStatus"@ && e[12] == "PFMultiplayerJoinLobby"@ && e[13]
        == "PFMultiplayerCreateAndJoinLobby"@ && e[14] == "PFLobbyLeave"@);
}

/// The place in the game is kept at its distance from where the game is loaded, and stays
/// what it was where the game is not loaded.
pub proof fn lemma_kick_config(game: u64, before: usize)
    requires
        game + 0x3B4CD8D <= usize::MAX,
    ensures
        game != 0 ==> kick_config_at(game, before) - game == 0x3B4CD8D,
        game == 0 ==> kick_config_at(game, before) == before,
{
}

/// The hook that grabs the handle is installed where it is wanted and safe: no handle is
/// known and no hook is there, the function was found, lies in the module and begins with
/// the bytes that are expected. With a handle or a hook nothing is left to do, and in any
/// other case it fails.
pub proof fn lemma_grab_installs(
    sdk: Sdk,
    base: u64,
    size: usize,
    k: snapshot::Known,
    r: Result<Start, Need>,
)
    requires
        grab_outcome(sdk, Some((base, size)), k, r),
        base + size <= u64::MAX,
    ensures
        ({
            let target = sdk.fns.start_processing;
            let wanted = sdk.handle == 0 && sdk.grab is None;
            let inside = target != 0 && base <= target < base + size;
            let bytes = snapshot::bytes_at(k, target, 6);
            let expected = seq![0x40u8, 0x55, 0x56, 0x57, 0x41, 0x54];
            &&& !wanted ==> r is Ok && r->Ok_0 == Start::Done(true)
            &&& wanted && !inside ==> r is Ok && r->Ok_0 == Start::Done(false)
            &&& wanted && inside && bytes is Ok && bytes->Ok_0 == expected ==> r is Ok
                && r->Ok_0 is Install
            &&& wanted && inside && bytes is Ok && bytes->Ok_0 != expected ==> r is Ok && r->Ok_0
                == Start::Done(false)
            &&& wanted && inside && bytes is Err ==> r is Err
        }),
{
}

/// What a block keeps of the calls through it: the eight bytes from 0x20 on are the value
/// that was caught, and the eight from 0x18 on how often it was called.
pub proof fn lemma_block_is_read(h: detour::Hooked, block: Seq<u8>, saved: u64, calls: u64)
    requires
        block.len() >= 0x28,
        block.subrange(0x18, 0x20) == crate::bytes::le_bytes(calls as int, 8),
        block.subrange(0x20, 0x28) == crate::bytes::le_bytes(saved as int, 8),
    ensures
        saved_in(block) == saved,
        h.is_capture ==> calls_in(h, block) == calls,
        !h.is_capture ==> calls_in(h, block) == 0,
{
    crate::bytes::lemma_words_read_back(0, saved);
    crate::bytes::lemma_words_read_back(0, calls);
}

/// The line on the functions tells the address of each under a name of its own, in
/// hexadecimal.
pub proof fn lemma_functions_are_told(f: SdkFns)
    ensures
        ({
            let s = fns_line(f);
            let h = |a: usize| text::numeral(a as int, 16, true);
            &&& text::contains(s, "find=0x"@ + h(f.find_lobbies) + " "@)
            &&& text::contains(s, " start=0x"@ + h(f.start_processing) + " "@)
            &&& text::contains(s, " finish=0x"@ + h(f.finish_processing) + " "@)
            &&& text::contains(s, " force=0x"@ + h(f.force_remove) + " "@)
            &&& text::contains(s, " getid=0x"@ + h(f.get_lobby_id) + " "@)
            &&& text::contains(s, " members=0x"@ + h(f.get_members) + " "@)
            &&& text::contains(s, " post=0x"@ + h(f.post_update) + " "@)
            &&& text::contains(s, " owner=0x"@ + h(f.get_owner) + " "@)
            &&& text::contains(s, " getmp=0x"@ + h(f.get_member_property) + " "@)
            &&& text::contains(s, " getlp=0x"@ + h(f.get_lobby_property) + " "@)
            &&& text::contains(s, " conn=0x"@ + h(f.get_conn_string) + " "@)
            &&& text::contains(s, " memconn=0x"@ + h(f.get_member_conn_status) + " "@)
            &&& text::contains(s, " join=0x"@ + h(f.join_lobby) + " "@)
            &&& text::contains(s, " createjoin=0x"@ + h(f.create_join) + " "@)
            &&& text::contains(s, " leave=0x"@ + h(f.leave))
        }),
{
    let s = fns_line(f);
    let h = |a: usize| text::hex_upper(a as int);
    reveal_strlit(" start=0x");
    reveal_strlit(" finish=0x");
    reveal_strlit(" force=0x");
    reveal_strlit(" getid=0x");
    reveal_strlit(" members=0x");
    reveal_strlit(" post=0x");
    reveal_strlit(" owner=0x");
    reveal_strlit(" getmp=0x");
    reveal_strlit(" getlp=0x");
    reveal_strlit(" conn=0x");
    reveal_strlit(" memconn=0x");
    reveal_strlit(" join=0x");
    reveal_strlit(" createjoin=0x");
    reveal_strlit(" leave=0x");
    let p0 = "[sdk] "@;
    let p1 = p0 + ("find=0x"@ + h(f.find_lobbies));
    let p2 = p1 + (" start=0x"@ + h(f.start_processing));
    let p3 = p2 + (" finish=0x"@ + h(f.finish_processing));
    let p4 = p3 + (" force=0x"@ + h(f.force_remove));
    let p5 = p4 + (" getid=0x"@ + h(f.get_lobby_id));
    let p6 = p5 + (" members=0x"@ + h(f.get_members));
    let p7 = p6 + (" post=0x"@ + h(f.post_update));
    let p8 = p7 + (" owner=0x"@ + h(f.get_owner));
    let p9 = p8 + (" getmp=0x"@ + h(f.get_member_property));
    let p10 = p9 + (" getlp=0x"@ + h(f.get_lobby_property));
    let p11 = p10 + (" conn=0x"@ + h(f.get_conn_string));
    let p12 = p11 + (" memconn=0x"@ + h(f.get_member_conn_status));
    let p13 = p12 + (" join=0x"@ + h(f.join_lobby));
    let p14 = p13 + (" createjoin=0x"@ + h(f.create_join));
    let p15 = p14 + (" leave=0x"@ + h(f.leave));
    let t15 = Seq::<char>::empty();
    let t14 = " leave=0x"@ + (h(f.leave) + t15);
    let t13 = " createjoin=0x"@ + (h(f.create_join) + t14);
    let t12 = " join=0x"@ + (h(f.join_lobby) + t13);
    let t11 = " memconn=0x"@ + (h(f.get_member_conn_status) + t12);
    let t10 = " conn=0x"@ + (h(f.get_conn_string) + t11);
    let t9 = " getlp=0x"@ + (h(f.get_lobby_property) + t10);
    let t8 = " getmp=0x"@ + (h(f.get_member_property) + t9);
    let t7 = " owner=0x"@ + (h(f.get_owner) + t8);
    let t6 = " post=0x"@ + (h(f.post_update) + t7);
    let t5 = " members=0x"@ + (h(f.get_members) + t6);
    let t4 = " getid=0x"@ + (h(f.get_lobby_id) + t5);
    let t3 = " force=0x"@ + (h(f.force_remove) + t4);
    let t2 = " finish=0x"@ + (h(f.finish_processing) + t3);
    let t1 = " start=0x"@ + (h(f.start_processing) + t2);
    let t0 = "find=0x"@ + (h(f.find_lobbies) + t1);
    assert(s == p15);
    assert(s =~= s + t15);
    text::lemma_regroup_label(p14, " leave=0x"@, h(f.leave), t15);
    text::lemma_regroup_label(p13, " createjoin=0x"@, h(f.create_join), t14);
    text::lemma_regroup_label(p12, " join=0x"@, h(f.join_lobby), t13);
    text::lemma_regroup_label(p11, " memconn=0x"@, h(f.get_member_conn_status), t12);
    text::lemma_regroup_label(p10, " conn=0x"@, h(f.get_conn_string), t11);
    text::lemma_regroup_label(p9, " getlp=0x"@, h(f.get_lobby_property), t10);
    text::lemma_regroup_label(p8, " getmp=0x"@, h(f.get_member_property), t9);
    text::lemma_regroup_label(p7, " owner=0x"@, h(f.get_owner), t8);
    text::lemma_regroup_label(p6, " post=0x"@, h(f.post_update), t7);
    text::lemma_regroup_label(p5, " members=0x"@, h(f.get_members), t6);
    text::lemma_regroup_label(p4, " getid=0x"@, h(f.get_lobby_id), t5);
    text::lemma_regroup_label(p3, " force=0x"@, h(f.force_remove), t4);
    text::lemma_regroup_label(p2, " finish=0x"@, h(f.finish_processing), t3);
    text::lemma_regroup_label(p1, " start=0x"@, h(f.start_processing), t2);
    text::lemma_regroup_label(p0, "find=0x"@, h(f.find_lobbies), t1);
    text::lemma_told(s, p0, "find=0x"@, h(f.find_lobbies), t1);
    text::lemma_told(s, p1, " start=0x"@, h(f.start_processing), t2);
    text::lemma_told(s, p2, " finish=0x"@, h(f.finish_processing), t3);
    text::lemma_told(s, p3, " force=0x"@, h(f.force_remove), t4);
    text::lemma_told(s, p4, " getid=0x"@, h(f.get_lobby_id), t5);
    text::lemma_told(s, p5, " members=0x"@, h(f.get_members), t6);
    text::lemma_told(s, p6, " post=0x"@, h(f.post_update), t7);
    text::lemma_told(s, p7, " owner=0x"@, h(f.get_owner), t8);
    text::lemma_told(s, p8, " getmp=0x"@, h(f.get_member_property), t9);
    text::lemma_told(s, p9, " getlp=0x"@, h(f.get_lobby_property), t10);
    text::lemma_told(s, p10, " conn=0x"@, h(f.get_conn_string), t11);
    text::lemma_told(s, p11, " memconn=0x"@, h(f.get_member_conn_status), t12);
    text::lemma_told(s, p12, " join=0x"@, h(f.join_lobby), t13);
    text::lemma_told(s, p13, " createjoin=0x"@, h(f.create_join), t14);
    assert(s =~= p14 + (" leave=0x"@ + h(f.leave)) + t15);
    text::lemma_occurs_between(p14, " leave=0x"@ + h(f.leave), t15);
}

/// What is said of the game and of the handle: where the game is loaded and the place in it,
/// or that it is not; the handle that was grabbed and after how many calls.
pub proof fn lemma_grab_is_told(game: u64, handle: u64, calls: u64)
    requires
        game + 0x3B4CD8D <= usize::MAX,
    ensures
        game != 0 ==> game_line(game) == "[sdk] game=0x"@ + text::numeral(game as int, 16, true)
            + " KICKCFG=0x"@ + text::numeral(game + 0x3B4CD8D, 16, true),
        game == 0 ==> game_line(game) == "[sdk] game exe not loaded (KICKCFG unavailable)"@,
        grabbed_line(handle, calls) == "[sdk] grabbed PFMultiplayerHandle=0x"@ + text::numeral(
            handle as int,
            16,
            true,
        ) + " (invocations="@ + text::numeral(calls as int, 10, false) + ")"@,
{
}

/// The hook that grabs the handle keeps the first argument, replaces the six bytes of the
/// prologue, and needs no far function; what keeps it from being installed is told.
pub proof fn lemma_grab_captures(
    sdk: Sdk,
    range: Option<(u64, usize)>,
    k: snapshot::Known,
    ops: Vec<detour::Op>,
    next: detour::Next,
)
    ensures
        grab_outcome(sdk, range, k, Ok(Start::Install(ops, next))) ==> next@ is More
            && next@->More_0.target == sdk.fns.start_processing && next@->More_0.len == 6
            && next@->More_0.capture && grab_said(sdk, range, k).len() == 0,
        grab_outcome(sdk, range, k, Ok(Start::Done(true))) ==> grab_said(sdk, range, k).len() == 0,
        grab_outcome(sdk, range, k, Ok(Start::Done(false))) ==> grab_said(sdk, range, k).len() > 0
            && (sdk.fns.start_processing == 0 ==> grab_said(sdk, range, k)
            == seq!["[sdk] StartProcessing not resolved, grab hook skipped"@]) && (
        sdk.fns.start_processing != 0 ==> grab_said(sdk, range, k).last()
            == "[sdk] grab hook install FAILED (near alloc)"@),
{
}

/// Every function that is used is asked for under its exported name.
pub proof fn lemma_asked_by_name()
    ensures
        exports().len() == 15,
        exports().contains("PFMultiplayerFindLobbies"@),
        exports().contains("PFMultiplayerStartProcessingLobbyStateChanges"@),
        exports().contains("PFMultiplayerFinishProcessingLobbyStateChanges"@),
        exports().contains("PFLobbyForceRemoveMember"@),
        exports().contains("PFLobbyGetLobbyId"@),
        exports().contains("PFLobbyGetMembers"@),
        exports().contains("PFLobbyPostUpdate"@),
        exports().contains("PFLobbyGetOwner"@),
        exports().contains("PFLobbyGetMemberProperty"@),
        exports().contains("PFLobbyGetLobbyProperty"@),
        exports().contains("PFLobbyGetConnectionString"@),
        exports().contains("PFLobbyGetMemberConnectionStatus"@),
        exports().contains("PFMultiplayerJoinLobby"@),
        exports().contains("PFMultiplayerCreateAndJoinLobby"@),
        exports().contains("PFLobbyLeave"@),
{
    let e = exports();
    assert(e[0] == "PFMultiplayerFindLobbies"@);
    assert(e[1] == "PFMultiplayerStartProcessingLobbyStateChanges"@);
    assert(e[2] == "PFMultiplayerFinishProcessingLobbyStateChanges"@);
    assert(e[3] == "PFLobbyForceRemoveMember"@);
    assert(e[4] == "PFLobbyGetLobbyId"@);
    assert(e[5] == "PFLobbyGetMembers"@);
    assert(e[6] == "PFLobbyPostUpdate"@);
    assert(e[7] == "PFLobbyGetOwner"@);
    assert(e[8] == "PFLobbyGetMemberProperty"@);
    assert(e[9] == "PFLobbyGetLobbyProperty"@);
    assert(e[10] == "PFLobbyGetConnectionString"@);
    assert(e[11] == "PFLobbyGetMemberConnectionStatus"@);
    assert(e[12] == "PFMultiplayerJoinLobby"@);
    assert(e[13] == "PFMultiplayerCreateAndJoinLobby"@);
    assert(e[14] == "PFLobbyLeave"@);
}

/// The handle once the block of the hook was looked at.
pub open spec fn handle_after(sdk: Sdk, saved: int) -> u64 {
    if sdk.handle == 0 && sdk.grab is Some {
        saved as u64
    } else {
        sdk.handle
    }
}

/// A handle is taken from the hook, once: a handle that is known stays, and without a hook
/// none is taken.
pub proof fn lemma_handle_is_taken_once(sdk: Sdk, saved: u64, later: Sdk, again: u64)
    requires
        later.handle == handle_after(sdk, saved as int),
    ensures
        sdk.handle == 0 && sdk.grab is Some ==> handle_after(sdk, saved as int) == saved,
        sdk.handle != 0 || sdk.grab is None ==> handle_after(sdk, saved as int) == sdk.handle,
        later.handle != 0 ==> handle_after(later, again as int) == later.handle,
{
}

} // verus!
