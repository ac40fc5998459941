//! Removing a member, and the hooks from which the handle of the lobby is had.
//!
//! The game passes the handle to functions of the multiplayer library; eight
//! capturing hooks keep it. Three far hooks jump to code that finds what it needs
//! in slots.
use vstd::prelude::*;

use crate::detour;
use crate::detour::{Hook, Start};
use crate::log::Log;
use crate::sdk;
use crate::sdk::SdkFns;
use crate::snapshot;
use crate::snapshot::{Need, Snapshot};
use crate::text;

verus! {

/// How many hooks there are.
pub const SITES: usize = 11;

/// How many there are without those on joining a lobby.
pub const SITES_NO_JOIN: usize = 9;

pub open spec fn site_count(no_join: bool) -> usize {
    if no_join {
        SITES_NO_JOIN
    } else {
        SITES
    }
}

/// The names of the hooked functions.
pub open spec fn site_name(i: int) -> Seq<char> {
    if i == 0 {
        "PostUpdate"@
    } else if i == 1 {
        "GetLobbyId"@
    } else if i == 2 {
        "GetMembers"@
    } else if i == 3 {
        "GetOwner"@
    } else if i == 4 {
        "GetMemberProperty"@
    } else if i == 5 {
        "GetLobbyProperty"@
    } else if i == 6 {
        "GetConnectionString"@
    } else if i == 7 {
        "GetMemberConnectionStatus"@
    } else if i == 8 {
        "KICKCFG"@
    } else if i == 9 {
        "JoinLobby"@
    } else {
        "CreateAndJoinLobby"@
    }
}

/// Where the hooked functions are.
pub open spec fn site_target(f: SdkFns, i: int) -> usize {
    if i == 0 {
        f.post_update
    } else if i == 1 {
        f.get_lobby_id
    } else if i == 2 {
        f.get_members
    } else if i == 3 {
        f.get_owner
    } else if i == 4 {
        f.get_member_property
    } else if i == 5 {
        f.get_lobby_property
    } else if i == 6 {
        f.get_conn_string
    } else if i == 7 {
        f.get_member_conn_status
    } else if i == 8 {
        f.kick_config
    } else if i == 9 {
        f.join_lobby
    } else {
        f.create_join
    }
}

/// The instructions with which they begin.
pub open spec fn site_prologue(i: int) -> Seq<u8> {
    if i == 1 || i == 3 || i == 6 {
        seq![0x40u8, 0x55, 0x56, 0x57, 0x41, 0x56]
    } else if i == 8 {
        seq![0x48u8, 0x89, 0x7D, 0xB8, 0xC5, 0xF8, 0x57, 0xC0]
    } else {
        seq![0x40u8, 0x53, 0x55, 0x56, 0x57, 0x41, 0x54]
    }
}

/// The modules in which they lie.
pub open spec fn site_module(i: int) -> Seq<char> {
    if i == 8 {
        "granblue_fantasy_relink.exe"@
    } else {
        "PlayFabMultiplayerWin.dll"@
    }
}

/// Whether the hook jumps to code elsewhere.
pub open spec fn site_far(i: int) -> bool {
    i >= 8
}

/// A place to be hooked.
pub struct Site {
    pub target: usize,
    pub len: usize,
    pub expected: Vec<u8>,
    pub name: &'static str,
    pub module: &'static str,
    pub far: bool,
}

/// The place of a hook.
pub fn site(f: &SdkFns, i: usize) -> (r: Site)
    requires
        i < SITES,
    ensures
        r.target == site_target(*f, i as int),
        r.expected@ == site_prologue(i as int),
        r.len == r.expected@.len(),
        r.name@ == site_name(i as int),
        r.module@ == site_module(i as int),
        r.far == site_far(i as int),
{
    let expected: Vec<u8> = if i == 1 || i == 3 || i == 6 {
        vec![0x40, 0x55, 0x56, 0x57, 0x41, 0x56]
    } else if i == 8 {
        vec![0x48, 0x89, 0x7D, 0xB8, 0xC5, 0xF8, 0x57, 0xC0]
    } else {
        vec![0x40, 0x53, 0x55, 0x56, 0x57, 0x41, 0x54]
    };
    assert(expected@ == site_prologue(i as int));
    let (target, name) = if i == 0 {
        (f.post_update, "PostUpdate")
    } else if i == 1 {
        (f.get_lobby_id, "GetLobbyId")
    } else if i == 2 {
        (f.get_members, "GetMembers")
    } else if i == 3 {
        (f.get_owner, "GetOwner")
    } else if i == 4 {
        (f.get_member_property, "GetMemberProperty")
    } else if i == 5 {
        (f.get_lobby_property, "GetLobbyProperty")
    } else if i == 6 {
        (f.get_conn_string, "GetConnectionString")
    } else if i == 7 {
        (f.get_member_conn_status, "GetMemberConnectionStatus")
    } else if i == 8 {
        (f.kick_config, "KICKCFG")
    } else if i == 9 {
        (f.join_lobby, "JoinLobby")
    } else {
        (f.create_join, "CreateAndJoinLobby")
    };
    let module = if i == 8 {
        "granblue_fantasy_relink.exe"
    } else {
        "PlayFabMultiplayerWin.dll"
    };
    let len: usize = expected.len();
    Site { target, len, expected, name, module, far: i >= 8 }
}

/// How the checks of a place come out: it must be known, lie in its module, have as
/// many bytes as are replaced, and hold the instructions that are expected.
pub open spec fn site_cleared(
    target: usize,
    len: usize,
    expected: Seq<u8>,
    name: Seq<char>,
    module: Seq<char>,
    range: Option<(u64, usize)>,
    k: snapshot::Known,
) -> detour::Cleared {
    if target == 0 {
        detour::Cleared::Refused(seq!["[kick] "@ + name + " addr unavailable"@])
    } else if !detour::is_within(target, range) {
        detour::Cleared::Refused(seq![detour::preflight_line(target, module, range)])
    } else if len != expected.len() {
        detour::Cleared::Refused(
            seq![
                "[kick] "@ + name + " invalid hook length len="@ + text::dec(len as int)
                    + " signature="@ + text::dec(expected.len() as int),
            ],
        )
    } else {
        detour::cleared("[kick] "@, target, expected, name, module, range, k)
    }
}

/// Begins to install one hook, after its place was checked. `stub` is where a far
/// hook jumps to.
pub fn try_install(
    s: &Site,
    range: Option<(u64, usize)>,
    stub: u64,
    snap: &Snapshot,
    log: &mut Log,
) -> (r: Result<Start, Need>)
    requires
        detour::range_fits(range),
        s.target + 0x3FF0_0000 <= usize::MAX,
    ensures
        match site_cleared(s.target, s.len, s.expected@, s.name@, s.module@, range, snap@) {
            detour::Cleared::Wants(n) => r == Err::<Start, Need>(n) && final(log)@ == old(log)@,
            detour::Cleared::Refused(lines) => (r matches Ok(Start::Done(b)) && !b) && final(log)@
                == old(log)@ + lines,
            detour::Cleared::Clear => (r matches Ok(Start::Install(ops, next)) && (
                detour::deeds(ops@),
                next@,
            ) == (if s.far {
                detour::install_start(s.target, s.len, false, stub, true)
            } else {
                detour::install_start(s.target, s.len, true, 0, false)
            })) && final(log)@ == old(log)@,
        },
{
    let ghost want = site_cleared(
        s.target,
        s.len,
        s.expected@,
        s.name@,
        s.module@,
        range,
        snap@,
    );
    if s.target == 0 {
        log.say(text::cat3("[kick] ", s.name, " addr unavailable"));
        assert(log@ == old(log)@ + want->Refused_0);
        return Ok(Start::Done(false));
    }
    if !detour::preflight(s.target, s.module, range, log) {
        return Ok(Start::Done(false));
    }
    assert(log@ == old(log)@);
    if s.len != s.expected.len() {
        let mut line = text::cat3("[kick] ", s.name, " invalid hook length len=");
        line.append(text::dec_of(s.len as u64).as_str());
        line.append(" signature=");
        line.append(text::dec_of(s.expected.len() as u64).as_str());
        log.say(line);
        assert(log@ == old(log)@ + want->Refused_0);
        return Ok(Start::Done(false));
    }
    match detour::clear(
        "[kick] ",
        s.target,
        s.expected.as_slice(),
        s.name,
        s.module,
        range,
        snap,
        log,
    ) {
        Ok(ok) => if !ok {
            return Ok(Start::Done(false));
        },
        Err(n) => {
            return Err(n);
        },
    }
    if s.far {
        let (ops, next) = detour::install_far(s.target, s.len, stub, true);
        Ok(Start::Install(ops, next))
    } else {
        let (ops, next) = detour::install_capture(s.target, s.len);
        Ok(Start::Install(ops, next))
    }
}

/// What is said once a hook was installed.
pub fn site_installed_line(s: &Site) -> (r: String)
    ensures
        r@ == "[kick] "@ + s.name@ + " installed (module="@ + s.module@ + ")"@,
{
    let mut line = text::cat3("[kick] ", s.name, " installed (module=");
    line.append(s.module);
    line.append(")");
    line
}

/// Whether all of them hold.
pub open spec fn all_true(v: Seq<bool>) -> bool {
    forall|i: int| 0 <= i < v.len() ==> v[i]
}

/// Hooks are installed all or not at all.
pub fn decide_all_or_nothing(results: &[bool]) -> (r: bool)
    ensures
        r == all_true(results@),
{
    let mut i: usize = 0;
    while i < results.len()
        invariant
            i <= results.len(),
            forall|k: int| 0 <= k < i ==> results@[k],
        decreases results.len() - i,
    {
        if !results[i] {
            return false;
        }
        i += 1;
    }
    true
}

/// Whether a slot holds a hook.
pub fn slot_held(h: &Option<Hook>) -> (r: bool)
    ensures
        r == (h is Some),
{
    h.is_some()
}

/// Empties a slot whose hook was taken back, and tells whether it held one. An empty
/// slot stays as it is, and so does one whose hook could not be taken back.
pub fn clear_hook(h: &mut Option<Hook>, restored: bool) -> (r: bool)
    ensures
        r == (*old(h) is Some),
        *final(h) == (if restored {
            None
        } else {
            *old(h)
        }),
{
    if !slot_held(h) {
        return false;
    }
    if restored {
        *h = None;
    }
    true
}

/// The slots that the far code reads and writes.
#[derive(Clone, Copy, PartialEq, Eq, Debug, Structural)]
pub struct Stubs {
    /// Not zero while a member is to be removed in place of another.
    pub kick_pending: u64,
    pub kick_tramp: u64,
    pub join_tramp: u64,
    pub createjoin_tramp: u64,
    /// Where the game will write the handle of the lobby that it joins.
    pub join_out: u64,
    pub createjoin_out: u64,
}

/// The state of the hooks on the lobby.
pub struct Kick {
    hooks: Vec<Option<Hook>>,
    near: Vec<usize>,
    pub stubs: Stubs,
    /// The handle that was written on joining.
    pub lobby_join: u64,
    /// Whether a removal in the game may be redirected.
    pub experimental: bool,
    /// The id of the member to remove, as a string that ends in a zero.
    pub kick_id: Vec<u8>,
}

/// The content of a [`Kick`].
pub ghost struct Kicking {
    pub hooks: Seq<Option<detour::Hooked>>,
    pub near: Seq<usize>,
    pub stubs: Stubs,
    pub lobby_join: u64,
    pub experimental: bool,
    pub kick_id: Seq<u8>,
}

pub open spec fn hook_views(v: Seq<Option<Hook>>) -> Seq<Option<detour::Hooked>> {
    v.map_values(|h: Option<Hook>| sdk::hooked(h))
}

impl View for Kick {
    type V = Kicking;

    closed spec fn view(&self) -> Kicking {
        Kicking {
            hooks: hook_views(self.hooks@),
            near: self.near@,
            stubs: self.stubs,
            lobby_join: self.lobby_join,
            experimental: self.experimental,
            kick_id: self.kick_id@,
        }
    }
}

/// Whether there is a slot for each hook.
pub open spec fn is_kick(k: Kicking) -> bool {
    k.hooks.len() == SITES && k.near.len() == SITES
}

pub open spec fn zeros() -> Seq<usize> {
    Seq::new(SITES as nat, |i: int| 0usize)
}

pub open spec fn no_hooks() -> Seq<Option<detour::Hooked>> {
    Seq::new(SITES as nat, |i: int| None)
}

fn zero_near() -> (r: Vec<usize>)
    ensures
        r@ == zeros(),
{
    let v: Vec<usize> = vec![0, 0, 0, 0, 0, 0, 0, 0, 0, 0, 0];
    assert(v@ == zeros());
    v
}

impl Kick {
    pub fn new() -> (r: Kick)
        ensures
            is_kick(r@),
            r@.hooks == no_hooks(),
            r@.near == zeros(),
            r@.stubs == (Stubs {
                kick_pending: 0,
                kick_tramp: 0,
                join_tramp: 0,
                createjoin_tramp: 0,
                join_out: 0,
                createjoin_out: 0,
            }),
            r@.lobby_join == 0,
            !r@.experimental,
            r@.kick_id == Seq::<u8>::empty(),
    {
        let mut hooks: Vec<Option<Hook>> = Vec::new();
        let mut i: usize = 0;
        while i < SITES
            invariant
                i <= SITES,
                hooks.len() == i,
                forall|k: int| 0 <= k < i ==> hooks@[k] is None,
            decreases SITES - i,
        {
            hooks.push(None);
            i += 1;
        }
        assert(hook_views(hooks@) == no_hooks());
        Kick {
            hooks,
            near: zero_near(),
            stubs: Stubs {
                kick_pending: 0,
                kick_tramp: 0,
                join_tramp: 0,
                createjoin_tramp: 0,
                join_out: 0,
                createjoin_out: 0,
            },
            lobby_join: 0,
            experimental: false,
            kick_id: Vec::new(),
        }
    }

    /// The hook in a slot.
    pub fn hook(&self, i: usize) -> (r: &Option<Hook>)
        requires
            is_kick(self@),
            i < SITES,
        ensures
            sdk::hooked(*r) == self@.hooks[i as int],
    {
        &self.hooks[i]
    }

    /// Where the block of a hook is; zero where there is none.
    pub fn near_of(&self, i: usize) -> (r: usize)
        requires
            is_kick(self@),
            i < SITES,
        ensures
            r == self@.near[i as int],
    {
        self.near[i]
    }
}

/// The hooks and blocks after installed hooks were recorded.
pub open spec fn recorded(k: Kicking, v: Seq<Option<detour::Hooked>>) -> Kicking {
    Kicking {
        hooks: Seq::new(
            SITES as nat,
            |i: int|
                if i < v.len() && v[i] is Some {
                    v[i]
                } else {
                    k.hooks[i]
                },
        ),
        near: Seq::new(
            SITES as nat,
            |i: int|
                if i < v.len() && v[i] is Some {
                    v[i]->0.near
                } else {
                    k.near[i]
                },
        ),
        ..k
    }
}

pub open spec fn all_some(v: Seq<Option<detour::Hooked>>) -> bool {
    forall|i: int| 0 <= i < v.len() ==> (#[trigger] v[i]) is Some
}

/// The hooks after those that were taken back were cleared.
pub open spec fn cleared_hooks(
    hooks: Seq<Option<detour::Hooked>>,
    restored: Seq<bool>,
) -> Seq<Option<detour::Hooked>> {
    Seq::new(
        SITES as nat,
        |i: int|
            if restored[i] {
                None
            } else {
                hooks[i]
            },
    )
}

/// Whether some slot holds a hook.
pub open spec fn any_held(hooks: Seq<Option<detour::Hooked>>) -> bool {
    exists|i: int| 0 <= i < SITES && (#[trigger] hooks[i]) is Some
}

/// The state without blocks, trampolines or handles.
pub open spec fn forgotten(k: Kicking) -> Kicking {
    Kicking {
        near: zeros(),
        lobby_join: 0,
        stubs: Stubs {
            kick_pending: k.stubs.kick_pending,
            kick_tramp: 0,
            join_tramp: 0,
            createjoin_tramp: 0,
            join_out: 0,
            createjoin_out: 0,
        },
        ..k
    }
}

impl Kick {
    fn record(&mut self, v: Vec<Option<Hook>>) -> (r: Vec<bool>)
        requires
            is_kick(old(self)@),
            v@.len() <= SITES,
        ensures
            final(self)@ == recorded(old(self)@, hook_views(v@)),
            r@.len() == v@.len(),
            forall|i: int| 0 <= i < v@.len() ==> #[trigger] r@[i] == (v@[i] is Some),
    {
        let ghost all = hook_views(v@);
        let ghost before = self@;
        let ghost vs = v@;
        let mut rest = v;
        let mut results: Vec<bool> = Vec::new();
        let mut i: usize = 0;
        while i < rest.len()
            invariant
                i <= rest.len(),
                rest.len() == all.len(),
                all.len() <= SITES,
                all == hook_views(vs),
                forall|j: int| i <= j < all.len() ==> rest@[j] == vs[j],
                is_kick(self@),
                is_kick(before),
                results.len() == i,
                forall|j: int| 0 <= j < i ==> #[trigger] results@[j] == (vs[j] is Some),
                self@.stubs == before.stubs,
                self@.lobby_join == before.lobby_join,
                self@.experimental == before.experimental,
                self@.kick_id == before.kick_id,
                forall|j: int|
                    0 <= j < SITES ==> #[trigger] self@.hooks[j] == recorded(
                        before,
                        all.take(i as int),
                    ).hooks[j],
                forall|j: int|
                    0 <= j < SITES ==> #[trigger] self@.near[j] == recorded(
                        before,
                        all.take(i as int),
                    ).near[j],
            decreases rest.len() - i,
        {
            let ghost now = self@;
            let mut h: Option<Hook> = None;
            rest.set_and_swap(i, &mut h);
            assert(h == vs[i as int]);
            assert(all[i as int] == sdk::hooked(h));
            results.push(h.is_some());
            match h {
                Some(x) => {
                    let near: usize = x.near_addr();
                    self.near.set(i, near);
                    self.hooks.set(i, Some(x));
                    assert(self@.hooks == now.hooks.update(i as int, all[i as int]));
                },
                None => {},
            }
            i += 1;
            proof {
                let a = all.take(i as int);
                let b = all.take(i - 1);
                assert(forall|j: int| 0 <= j < i - 1 ==> a[j] == b[j]);
                assert(a[i - 1] == all[i - 1]);
                assert forall|j: int| 0 <= j < SITES implies #[trigger] self@.hooks[j] == recorded(
                    before,
                    a,
                ).hooks[j] by {
                    assert(now.hooks[j] == recorded(before, b).hooks[j]);
                    if j < i - 1 {
                        assert(a[j] == b[j]);
                    }
                }
                assert forall|j: int| 0 <= j < SITES implies #[trigger] self@.near[j] == recorded(
                    before,
                    a,
                ).near[j] by {
                    assert(now.near[j] == recorded(before, b).near[j]);
                    if j < i - 1 {
                        assert(a[j] == b[j]);
                    }
                }
            }
        }
        assert(all.take(i as int) == all);
        assert(self@.hooks == recorded(before, all).hooks);
        assert(self@.near == recorded(before, all).near);
        results
    }

    fn clear_all(&mut self, restored: &Vec<bool>) -> (r: bool)
        requires
            is_kick(old(self)@),
            restored.len() == SITES,
        ensures
            final(self)@ == (Kicking {
                hooks: cleared_hooks(old(self)@.hooks, restored@),
                ..old(self)@
            }),
            r == any_held(old(self)@.hooks),
    {
        let ghost before = self@;
        let mut any = false;
        let mut i: usize = 0;
        while i < SITES
            invariant
                i <= SITES,
                restored.len() == SITES,
                is_kick(self@),
                is_kick(before),
                self@ == (Kicking { hooks: self@.hooks, ..before }),
                forall|j: int|
                    0 <= j < SITES ==> #[trigger] self@.hooks[j] == (if j < i && restored@[j] {
                        None
                    } else {
                        before.hooks[j]
                    }),
                any == exists|j: int| 0 <= j < i && (#[trigger] before.hooks[j]) is Some,
            decreases SITES - i,
        {
            let ghost now = self@;
            let mut h: Option<Hook> = None;
            self.hooks.set_and_swap(i, &mut h);
            assert(sdk::hooked(h) == now.hooks[i as int]);
            assert(now.hooks[i as int] == before.hooks[i as int]);
            let held = clear_hook(&mut h, restored[i]);
            let ghost hv = sdk::hooked(h);
            self.hooks.set(i, h);
            if held {
                any = true;
            }
            i += 1;
            proof {
                assert(self@.hooks == now.hooks.update(i - 1, hv));
                if any {
                    if !held {
                        let j = choose|j: int|
                            0 <= j < i - 1 && (#[trigger] before.hooks[j]) is Some;
                        assert(before.hooks[j] is Some);
                    } else {
                        assert(before.hooks[i - 1] is Some);
                    }
                }
                assert forall|j: int| 0 <= j < SITES implies #[trigger] self@.hooks[j] == (if j < i
                    && restored@[j] {
                    None
                } else {
                    before.hooks[j]
                }) by {
                    assert(now.hooks[j] == (if j < i - 1 && restored@[j] {
                        None
                    } else {
                        before.hooks[j]
                    }));
                }
            }
        }
        assert(self@.hooks == cleared_hooks(before.hooks, restored@));
        any
    }

    fn none_held(&self) -> (r: bool)
        requires
            is_kick(self@),
        ensures
            r == (self@.hooks == no_hooks()),
    {
        let mut i: usize = 0;
        while i < SITES
            invariant
                i <= SITES,
                is_kick(self@),
                forall|j: int| 0 <= j < i ==> (#[trigger] self@.hooks[j]) is None,
            decreases SITES - i,
        {
            assert(self@.hooks[i as int] == sdk::hooked(self.hooks@[i as int]));
            if slot_held(&self.hooks[i]) {
                assert(no_hooks()[i as int] is None);
                return false;
            }
            i += 1;
        }
        assert(self@.hooks == no_hooks());
        true
    }

    fn forget(&mut self)
        requires
            is_kick(old(self)@),
        ensures
            final(self)@ == forgotten(old(self)@),
    {
        self.near = zero_near();
        self.lobby_join = 0;
        self.stubs = Stubs {
            kick_pending: self.stubs.kick_pending,
            kick_tramp: 0,
            join_tramp: 0,
            createjoin_tramp: 0,
            join_out: 0,
            createjoin_out: 0,
        };
    }
}

/// What is reported to `install_lobby_hooks`.
pub enum LobbyEvent {
    Begin,
    /// The outcome for each place, in order.
    Installed(Vec<Option<Hook>>),
    /// For each slot, whether its hook was taken back.
    Restored(Vec<bool>),
}

/// What `install_lobby_hooks` wants.
#[derive(Clone, Copy, PartialEq, Eq, Debug, Structural)]
pub enum LobbyStep {
    /// Try to install the first places, as many as the number says.
    TryInstall(usize),
    /// Take back every hook that is there.
    RestoreAll,
    Done(bool),
}

pub open spec fn lobby_fits(no_join: bool, e: LobbyEvent) -> bool {
    match e {
        LobbyEvent::Begin => true,
        LobbyEvent::Installed(v) => v@.len() == site_count(no_join),
        LobbyEvent::Restored(v) => v@.len() == SITES,
    }
}

pub open spec fn skipped_lines(no_join: bool) -> Seq<Seq<char>> {
    if no_join {
        seq!["[kick] JOIN/CREATEJOIN skipped (diag no_join)"@]
    } else {
        seq![]
    }
}

pub open spec fn all_installed_line(n: int) -> Seq<char> {
    "[kick] hooks installed ("@ + text::dec(n)
        + ": PostUpdate/GetLobbyId/GetMembers/GetOwner/GetMemberProperty/GetLobbyProperty/GetConnectionString/GetMemberConnectionStatus/KICKCFG-rdi-swap/JoinLobby/CreateAndJoinLobby)"@
}

/// The state, what is said, and what is wanted, after an event. All hooks are
/// installed, or those that were are taken back; the state is forgotten only where
/// each of them was.
pub open spec fn lobby_turn(k: Kicking, no_join: bool, e: LobbyEvent) -> (
    Kicking,
    Seq<Seq<char>>,
    LobbyStep,
) {
    match e {
        LobbyEvent::Begin => (k, seq![], LobbyStep::TryInstall(site_count(no_join))),
        LobbyEvent::Installed(v) => {
            let n = recorded(k, hook_views(v@));
            if all_some(hook_views(v@)) {
                (
                    n,
                    skipped_lines(no_join) + seq![all_installed_line(v@.len() as int)],
                    LobbyStep::Done(true),
                )
            } else {
                (n, skipped_lines(no_join), LobbyStep::RestoreAll)
            }
        },
        LobbyEvent::Restored(v) => {
            let n = Kicking { hooks: cleared_hooks(k.hooks, v@), ..k };
            if n.hooks == no_hooks() {
                (
                    forgotten(n),
                    seq!["[kick] PARTIAL INSTALL ROLLED BACK"@],
                    LobbyStep::Done(false),
                )
            } else {
                (
                    n,
                    seq!["[kick] PARTIAL INSTALL rollback FAILED — hook ownership retained"@],
                    LobbyStep::Done(false),
                )
            }
        },
    }
}

/// Installs the hooks on the lobby, all or none.
pub fn install_lobby_hooks(kick: &mut Kick, no_join: bool, event: LobbyEvent, log: &mut Log) -> (r:
    LobbyStep)
    requires
        is_kick(old(kick)@),
        lobby_fits(no_join, event),
    ensures
        is_kick(final(kick)@),
        ({
            let t = lobby_turn(old(kick)@, no_join, event);
            final(kick)@ == t.0 && final(log)@ == old(log)@ + t.1 && r == t.2
        }),
{
    match event {
        LobbyEvent::Begin => {
            assert(log@ + Seq::<Seq<char>>::empty() == log@);
            LobbyStep::TryInstall(
                if no_join {
                    SITES_NO_JOIN
                } else {
                    SITES
                },
            )
        },
        LobbyEvent::Installed(v) => {
            let ghost vs = v@;
            let ghost hv = hook_views(v@);
            let n: usize = v.len();
            let results = kick.record(v);
            if no_join {
                log.say(text::text_of("[kick] JOIN/CREATEJOIN skipped (diag no_join)"));
            }
            assert(log@ == old(log)@ + skipped_lines(no_join));
            let all = decide_all_or_nothing(results.as_slice());
            proof {
                assert(all == all_some(hv)) by {
                    if all {
                        assert forall|i: int| 0 <= i < hv.len() implies (
                        #[trigger] hv[i]) is Some by {
                            assert(results@[i]);
                        }
                    } else {
                        let i = choose|i: int| 0 <= i < results@.len() && !results@[i];
                        assert(results@[i] == (vs[i] is Some));
                        assert(hv[i] is None);
                    }
                }
            }
            if !all {
                return LobbyStep::RestoreAll;
            }
            let line = text::cat3(
                "[kick] hooks installed (",
                text::dec_of(n as u64).as_str(),
                ": PostUpdate/GetLobbyId/GetMembers/GetOwner/GetMemberProperty/GetLobbyProperty/GetConnectionString/GetMemberConnectionStatus/KICKCFG-rdi-swap/JoinLobby/CreateAndJoinLobby)",
            );
            log.say(line);
            assert(log@ == old(log)@ + (skipped_lines(no_join) + seq![
                all_installed_line(n as int),
            ]));
            LobbyStep::Done(true)
        },
        LobbyEvent::Restored(v) => {
            let _any = kick.clear_all(&v);
            if kick.none_held() {
                kick.forget();
                log.say(text::text_of("[kick] PARTIAL INSTALL ROLLED BACK"));
                assert(log@ == old(log)@ + seq!["[kick] PARTIAL INSTALL ROLLED BACK"@]);
            } else {
                log.say(
                    text::text_of(
                        "[kick] PARTIAL INSTALL rollback FAILED — hook ownership retained",
                    ),
                );
                assert(log@ == old(log)@ + seq![
                    "[kick] PARTIAL INSTALL rollback FAILED — hook ownership retained"@,
                ]);
            }
            LobbyStep::Done(false)
        },
    }
}

/// Success means that each place is hooked; a failure after which every hook was
/// taken back leaves none.
pub proof fn lemma_all_or_nothing(k: Kicking, no_join: bool, e: LobbyEvent)
    requires
        is_kick(k),
        lobby_fits(no_join, e),
    ensures
        ({
            let t = lobby_turn(k, no_join, e);
            &&& t.2 == LobbyStep::Done(true) ==> forall|i: int|
                0 <= i < site_count(no_join) ==> (#[trigger] t.0.hooks[i]) is Some
            &&& (e matches LobbyEvent::Restored(v) && all_true(v@)) ==> t.2 == LobbyStep::Done(
                false,
            ) && t.0.hooks == no_hooks() && t.0.near == zeros()
        }),
{
    match e {
        LobbyEvent::Installed(v) => {
            let hv = hook_views(v@);
            if all_some(hv) {
                assert forall|i: int| 0 <= i < site_count(no_join) implies (
                #[trigger] lobby_turn(k, no_join, e).0.hooks[i]) is Some by {
                    assert(hv[i] is Some);
                }
            }
        },
        LobbyEvent::Restored(v) => {
            if all_true(v@) {
                assert(cleared_hooks(k.hooks, v@) == no_hooks());
            }
        },
        _ => {},
    }
}

/// The state after `unhook`.
pub open spec fn unhooked(k: Kicking, restored: Seq<bool>) -> Kicking {
    let n = forgotten(Kicking { hooks: cleared_hooks(k.hooks, restored), ..k });
    Kicking { stubs: Stubs { kick_pending: 0, ..n.stubs }, ..n }
}

pub open spec fn unhook_line(any: bool) -> Seq<char> {
    if any {
        "[kick] hooks restored"@
    } else {
        "[kick] already unhooked"@
    }
}

/// Clears the hooks that were taken back, and forgets blocks, trampolines and
/// handles.
pub fn unhook(kick: &mut Kick, restored: &Vec<bool>, log: &mut Log)
    requires
        is_kick(old(kick)@),
        restored.len() == SITES,
    ensures
        is_kick(final(kick)@),
        final(kick)@ == unhooked(old(kick)@, restored@),
        final(log)@ == old(log)@.push(unhook_line(any_held(old(kick)@.hooks))),
{
    let any = kick.clear_all(restored);
    kick.forget();
    kick.stubs.kick_pending = 0;
    if any {
        log.say(text::text_of("[kick] hooks restored"));
    } else {
        log.say(text::text_of("[kick] already unhooked"));
    }
}

/// Once every hook was taken back, unhooking again changes nothing, and says so.
pub proof fn lemma_unhook_again(k: Kicking, restored: Seq<bool>, again: Seq<bool>)
    requires
        is_kick(k),
        restored.len() == SITES,
        again.len() == SITES,
        all_true(restored),
    ensures
        unhooked(unhooked(k, restored), again) == unhooked(k, restored),
        !any_held(unhooked(k, restored).hooks),
{
    let n = unhooked(k, restored);
    assert(n.hooks == no_hooks());
    assert(unhooked(n, again).hooks == n.hooks);
}

/// The first value, from `i` on, that has a source and is not zero; or zero.
pub open spec fn first_nonzero(v: Seq<(bool, u64)>, i: int) -> u64
    decreases v.len() - i,
{
    if i >= v.len() {
        0
    } else if v[i].0 && v[i].1 != 0 {
        v[i].1
    } else {
        first_nonzero(v, i + 1)
    }
}

/// Picks the first value that has a source and is not zero; or zero.
pub fn pick_first_nonzero(sources: &[(bool, u64)]) -> (r: u64)
    ensures
        r == first_nonzero(sources@, 0),
{
    let mut i: usize = 0;
    while i < sources.len()
        invariant
            i <= sources.len(),
            first_nonzero(sources@, 0) == first_nonzero(sources@, i as int),
        decreases sources.len() - i,
    {
        if sources[i].0 && sources[i].1 != 0 {
            return sources[i].1;
        }
        i += 1;
    }
    0
}

/// A value is picked where there is one, and no source before it has one.
pub proof fn lemma_first_nonzero(v: Seq<(bool, u64)>, i: int)
    requires
        0 <= i <= v.len(),
    ensures
        first_nonzero(v, i) == 0 <==> forall|j: int|
            i <= j < v.len() ==> !((#[trigger] v[j]).0 && v[j].1 != 0),
        first_nonzero(v, i) != 0 ==> exists|j: int|
            i <= j < v.len() && (#[trigger] v[j]).0 && v[j].1 == first_nonzero(v, i) && forall|
                l: int,
            |
                i <= l < j ==> !((#[trigger] v[l]).0 && v[l].1 != 0),
    decreases v.len() - i,
{
    if i < v.len() && !(v[i].0 && v[i].1 != 0) {
        lemma_first_nonzero(v, i + 1);
        if first_nonzero(v, i) != 0 {
            let j = choose|j: int|
                i + 1 <= j < v.len() && (#[trigger] v[j]).0 && v[j].1 == first_nonzero(v, i + 1)
                    && forall|l: int| i + 1 <= l < j ==> !((#[trigger] v[l]).0 && v[l].1 != 0);
            assert(v[j].0);
        }
    } else if i < v.len() {
        assert(v[i].0);
    }
}

/// The order in which the hooks are asked for the handle.
pub open spec fn handle_order(n: int) -> int {
    if n == 0 {
        2
    } else if n == 1 {
        0
    } else if n == 2 {
        1
    } else {
        n
    }
}

/// The sources of the handle, by priority. `saved` is what the blocks of the hooks
/// keep.
pub open spec fn handle_sources(k: Kicking, saved: Seq<u64>) -> Seq<(bool, u64)> {
    Seq::new(
        9,
        |n: int|
            if n < 8 {
                if k.near[handle_order(n)] == 0 {
                    (false, 0u64)
                } else {
                    (true, saved[handle_order(n)])
                }
            } else {
                (true, k.lobby_join)
            },
    )
}

/// The handle of the lobby, from the first source that has one.
pub open spec fn handle_of(k: Kicking, saved: Seq<u64>) -> u64 {
    first_nonzero(handle_sources(k, saved), 0)
}

/// A hook that caught a handle is enough: where the block of any of the eight
/// capturing hooks keeps a value that is not zero, there is a handle, and where no
/// other block keeps one, that value is the handle.
pub proof fn lemma_handle_from_any_hook(k: Kicking, saved: Seq<u64>, i: int)
    requires
        is_kick(k),
        saved.len() == SITES,
        0 <= i < 8,
        k.near[i] != 0,
        saved[i] != 0,
    ensures
        handle_of(k, saved) != 0,
        (forall|j: int|
            0 <= j < 8 && j != i ==> (#[trigger] k.near[j]) == 0 || saved[j] == 0) ==> handle_of(
            k,
            saved,
        ) == saved[i],
{
    lemma_handle_by_priority(k, saved);
}

/// The handle is what the block of `GetMembers` keeps; or else that of `PostUpdate`,
/// then of `GetLobbyId`, then of the accessors in their order; and where no block
/// keeps one, the handle that joining a lobby returned, zero if there is none.
pub proof fn lemma_handle_by_priority(k: Kicking, saved: Seq<u64>)
    requires
        is_kick(k),
        saved.len() == SITES,
    ensures
        k.near[2] != 0 && saved[2] != 0 ==> handle_of(k, saved) == saved[2],
        (k.near[2] == 0 || saved[2] == 0) && k.near[0] != 0 && saved[0] != 0 ==> handle_of(k, saved)
            == saved[0],
        (k.near[2] == 0 || saved[2] == 0) && (k.near[0] == 0 || saved[0] == 0) && k.near[1] != 0
            && saved[1] != 0 ==> handle_of(k, saved) == saved[1],
        forall|i: int|
            3 <= i < 8 && (#[trigger] k.near[i]) != 0 && saved[i] != 0 && (forall|j: int|
                0 <= j < i ==> (#[trigger] k.near[j]) == 0 || saved[j] == 0) ==> handle_of(k, saved)
                == saved[i],
        (forall|i: int| 0 <= i < 8 ==> (#[trigger] k.near[i]) == 0 || saved[i] == 0) ==> handle_of(
            k,
            saved,
        ) == k.lobby_join,
{
    reveal_with_fuel(first_nonzero, 10);
    let v = handle_sources(k, saved);
    assert(k.near[0] == 0 || k.near[0] != 0);
    assert(k.near[1] == 0 || k.near[1] != 0);
    assert(k.near[2] == 0 || k.near[2] != 0);
    assert(k.near[3] == 0 || k.near[3] != 0);
    assert(k.near[4] == 0 || k.near[4] != 0);
    assert(k.near[5] == 0 || k.near[5] != 0);
    assert(k.near[6] == 0 || k.near[6] != 0);
    assert(k.near[7] == 0 || k.near[7] != 0);
}

impl Kick {
    /// Where the block of a hook keeps the first argument, if there is a block.
    pub fn saved_addr(&self, i: usize) -> (r: Option<usize>)
        requires
            is_kick(self@),
            i < SITES,
            self@.near[i as int] + detour::CAP_SAVED_OFF <= usize::MAX,
        ensures
            match r {
                Some(a) => self@.near[i as int] != 0 && a == self@.near[i as int]
                    + detour::CAP_SAVED_OFF,
                None => self@.near[i as int] == 0,
            },
    {
        if self.near[i] == 0 {
            None
        } else {
            Some(self.near[i] + detour::CAP_SAVED_OFF)
        }
    }

    fn source(&self, i: usize, saved: &Vec<u64>) -> (r: (bool, u64))
        requires
            is_kick(self@),
            saved.len() == SITES,
            i < SITES,
        ensures
            r == (if self@.near[i as int] == 0 {
                (false, 0u64)
            } else {
                (true, saved@[i as int])
            }),
    {
        if self.near[i] == 0 {
            (false, 0)
        } else {
            (true, saved[i])
        }
    }

    /// The handle of the lobby. `saved` is what the blocks of the hooks keep.
    pub fn lobby_handle(&self, saved: &Vec<u64>) -> (r: u64)
        requires
            is_kick(self@),
            saved.len() == SITES,
        ensures
            r == handle_of(self@, saved@),
    {
        let v = vec![
            self.source(2, saved),
            self.source(0, saved),
            self.source(1, saved),
            self.source(3, saved),
            self.source(4, saved),
            self.source(5, saved),
            self.source(6, saved),
            self.source(7, saved),
            (true, self.lobby_join),
        ];
        assert(v@ == handle_sources(self@, saved@));
        pick_first_nonzero(v.as_slice())
    }

    fn count(&self, i: usize, counts: &Vec<u64>) -> (r: String)
        requires
            is_kick(self@),
            counts.len() == SITES,
            i < SITES,
        ensures
            r@ == text::dec(calls_of(self@, counts@, i as int)),
    {
        assert(self@.hooks[i as int] == sdk::hooked(self.hooks@[i as int]));
        if slot_held(&self.hooks[i]) {
            text::dec_of(counts[i])
        } else {
            text::dec_of(0)
        }
    }

    /// How often each source was called. `counts` is what the blocks of the hooks
    /// count, and zero for a hook whose block counts nothing.
    pub fn lobby_sources(&self, counts: &Vec<u64>) -> (r: String)
        requires
            is_kick(self@),
            counts.len() == SITES,
        ensures
            r@ == sources_line(self@, counts@),
    {
        let mut s = text::cat2("members=", self.count(2, counts).as_str());
        s.append(" post=");
        s.append(self.count(0, counts).as_str());
        s.append(" getid=");
        s.append(self.count(1, counts).as_str());
        s.append(" owner=");
        s.append(self.count(3, counts).as_str());
        s.append(" getmp=");
        s.append(self.count(4, counts).as_str());
        s.append(" getlp=");
        s.append(self.count(5, counts).as_str());
        s.append(" conn=");
        s.append(self.count(6, counts).as_str());
        s.append(" memconn=");
        s.append(self.count(7, counts).as_str());
        s.append(" join=");
        s.append(self.count(9, counts).as_str());
        s.append(" createjoin=");
        s.append(self.count(10, counts).as_str());
        s
    }
}

/// How often a hooked function was called; zero where there is no hook.
pub open spec fn calls_of(k: Kicking, counts: Seq<u64>, i: int) -> int {
    if k.hooks[i] is Some {
        counts[i] as int
    } else {
        0
    }
}

pub open spec fn sources_line(k: Kicking, c: Seq<u64>) -> Seq<char> {
    "members="@ + text::dec(calls_of(k, c, 2)) + " post="@ + text::dec(calls_of(k, c, 0))
        + " getid="@ + text::dec(calls_of(k, c, 1)) + " owner="@ + text::dec(calls_of(k, c, 3))
        + " getmp="@ + text::dec(calls_of(k, c, 4)) + " getlp="@ + text::dec(calls_of(k, c, 5))
        + " conn="@ + text::dec(calls_of(k, c, 6)) + " memconn="@ + text::dec(calls_of(k, c, 7))
        + " join="@ + text::dec(calls_of(k, c, 9)) + " createjoin="@ + text::dec(
        calls_of(k, c, 10),
    )
}

/// Whether a value can be a handle: handles are pointers, and none points into the
/// lowest pages.
pub open spec fn is_handle(v: u64) -> bool {
    v >= 0x10000
}

pub fn slot_valid(v: u64) -> (r: bool)
    ensures
        r == is_handle(v),
{
    v >= 0x10000
}

/// The handle in a slot, once it is there.
pub fn poll_decision(slot_addr: u64, slot_value: u64) -> (r: Option<u64>)
    ensures
        r == (if slot_addr != 0 && is_handle(slot_value) {
            Some(slot_value)
        } else {
            None
        }),
{
    if slot_addr != 0 && slot_valid(slot_value) {
        Some(slot_value)
    } else {
        None
    }
}

/// What was found at the address of a slot: whether it is backed by storage, and
/// the value there if it is.
#[derive(Clone, Copy, PartialEq, Eq, Debug, Structural)]
pub struct Found {
    pub committed: bool,
    pub value: u64,
}

/// The slot and the handle after a look at a slot. While its value is zero the game
/// has not joined yet, and the slot is kept.
pub open spec fn polled(addr: u64, join: u64, f: Found) -> (u64, u64) {
    if addr == 0 {
        (addr, join)
    } else if !f.committed {
        (0, join)
    } else if is_handle(f.value) {
        (0, f.value)
    } else if f.value != 0 {
        (0, join)
    } else {
        (addr, join)
    }
}

/// What is said on a look at a slot.
pub open spec fn polled_lines(name: Seq<char>, addr: u64, f: Found) -> Seq<Seq<char>> {
    if addr == 0 {
        seq![]
    } else if !f.committed {
        seq![
            "[kick] "@ + name + " slot 0x"@ + text::hex_upper(addr as int)
                + " not committed — cleared"@,
        ]
    } else if is_handle(f.value) {
        seq!["[kick] auto-captured lobby via "@ + name + "=0x"@ + text::hex_upper(f.value as int)]
    } else if f.value != 0 {
        seq![
            "[kick] "@ + name + " slot value 0x"@ + text::hex_upper(f.value as int)
                + " invalid — cleared"@,
        ]
    } else {
        seq![]
    }
}

/// Looks at a slot in which the game writes the handle of the lobby that it joins.
pub fn poll_one(addr: u64, join: u64, found: Found, name: &str, log: &mut Log) -> (r: (u64, u64))
    ensures
        r == polled(addr, join, found),
        final(log)@ == old(log)@ + polled_lines(name@, addr, found),
{
    assert(log@ + Seq::<Seq<char>>::empty() == log@);
    if addr == 0 {
        return (addr, join);
    }
    if !found.committed {
        let mut s = text::cat3("[kick] ", name, " slot 0x");
        s.append(text::hex_of(addr).as_str());
        s.append(" not committed — cleared");
        log.say(s);
        assert(log@ == old(log)@ + polled_lines(name@, addr, found));
        return (0, join);
    }
    match poll_decision(addr, found.value) {
        Some(v) => {
            let mut s = text::cat3("[kick] auto-captured lobby via ", name, "=0x");
            s.append(text::hex_of(v).as_str());
            log.say(s);
            assert(log@ == old(log)@ + polled_lines(name@, addr, found));
            (0, v)
        },
        None => if found.value != 0 {
            let mut s = text::cat3("[kick] ", name, " slot value 0x");
            s.append(text::hex_of(found.value).as_str());
            s.append(" invalid — cleared");
            log.say(s);
            assert(log@ == old(log)@ + polled_lines(name@, addr, found));
            (0, join)
        } else {
            (addr, join)
        },
    }
}

/// The state after a look at both slots.
pub open spec fn both_polled(k: Kicking, join: Found, createjoin: Found) -> Kicking {
    let a = polled(k.stubs.join_out, k.lobby_join, join);
    let b = polled(k.stubs.createjoin_out, a.1, createjoin);
    Kicking {
        lobby_join: b.1,
        stubs: Stubs { join_out: a.0, createjoin_out: b.0, ..k.stubs },
        ..k
    }
}

/// Looks at both slots.
pub fn poll_join_out(kick: &mut Kick, join: Found, createjoin: Found, log: &mut Log)
    ensures
        final(kick)@ == both_polled(old(kick)@, join, createjoin),
        final(log)@ == old(log)@ + polled_lines("JoinLobby"@, old(kick)@.stubs.join_out, join)
            + polled_lines("CreateAndJoinLobby"@, old(kick)@.stubs.createjoin_out, createjoin),
{
    let a = poll_one(kick.stubs.join_out, kick.lobby_join, join, "JoinLobby", log);
    kick.stubs.join_out = a.0;
    kick.lobby_join = a.1;
    let b = poll_one(
        kick.stubs.createjoin_out,
        kick.lobby_join,
        createjoin,
        "CreateAndJoinLobby",
        log,
    );
    kick.stubs.createjoin_out = b.0;
    kick.lobby_join = b.1;
}

/// A slot is used up by what it yields: a look at it again yields nothing.
pub proof fn lemma_poll_is_one_shot(addr: u64, join: u64, f: Found, later: Found)
    requires
        polled(addr, join, f).1 != join,
    ensures
        polled(addr, join, f).0 == 0,
        polled(polled(addr, join, f).0, polled(addr, join, f).1, later) == polled(addr, join, f),
{
}

/// Whether a member may be removed.
#[derive(Clone, Copy, PartialEq, Eq, Debug, Structural)]
pub enum KickGateResult {
    Pass,
    BadId,
    ForceUnavailable,
    NoHandle,
    HandleInvalid,
}

/// Whether a member may be removed. The first condition that fails counts.
pub open spec fn gate(
    id: Seq<char>,
    force_available: bool,
    handle: u64,
    handle_valid: bool,
) -> KickGateResult {
    if vstd::utf8::encode_utf8(id).len() != 16 {
        KickGateResult::BadId
    } else if !force_available {
        KickGateResult::ForceUnavailable
    } else if handle == 0 {
        KickGateResult::NoHandle
    } else if !handle_valid {
        KickGateResult::HandleInvalid
    } else {
        KickGateResult::Pass
    }
}

/// Decides whether a member may be removed: its id has sixteen bytes, the function
/// is known, and so is a handle that was checked.
pub fn kick_gate(id: &str, force_available: bool, handle: u64, handle_valid: bool) -> (r:
    KickGateResult)
    ensures
        r == gate(id@, force_available, handle, handle_valid),
{
    if id.as_bytes().len() != 16 {
        return KickGateResult::BadId;
    }
    if !force_available {
        return KickGateResult::ForceUnavailable;
    }
    if handle == 0 {
        return KickGateResult::NoHandle;
    }
    if !handle_valid {
        return KickGateResult::HandleInvalid;
    }
    KickGateResult::Pass
}

/// A member may be removed only where all four conditions hold.
pub proof fn lemma_gate_opens(id: Seq<char>, force_available: bool, handle: u64, handle_valid: bool)
    ensures
        gate(id, force_available, handle, handle_valid) == KickGateResult::Pass
            <==> vstd::utf8::encode_utf8(id).len() == 16 && force_available && handle != 0
            && handle_valid,
{
}

/// Whether a removal in the game may be redirected.
pub fn pending_allowed(flag: bool, handle: u64) -> (r: bool)
    ensures
        r == (flag && handle != 0),
{
    flag && handle != 0
}

/// The state once a redirection was asked for.
pub open spec fn pending_set(k: Kicking, id: Seq<char>, handle: u64) -> Kicking {
    let b = vstd::utf8::encode_utf8(id);
    if k.experimental && handle != 0 && b.len() <= 30 {
        Kicking { kick_id: b.push(0), stubs: Stubs { kick_pending: 1, ..k.stubs }, ..k }
    } else {
        k
    }
}

/// Asks that the next removal in the game be redirected. Nothing happens unless
/// that is switched on and there is a handle.
pub fn set_pending_kick(kick: &mut Kick, id: &str, handle: u64)
    ensures
        final(kick)@ == pending_set(old(kick)@, id@, handle),
{
    if !pending_allowed(kick.experimental, handle) {
        return;
    }
    let b = id.as_bytes();
    if b.len() > 30 {
        return;
    }
    let mut v = crate::bytes::copy_of(b);
    v.push(0);
    kick.kick_id = v;
    kick.stubs.kick_pending = 1;
}

/// The state once redirection was switched on or off.
pub open spec fn experimental_set(k: Kicking, on: bool) -> Kicking {
    Kicking {
        experimental: on,
        stubs: if on {
            k.stubs
        } else {
            Stubs { kick_pending: 0, ..k.stubs }
        },
        ..k
    }
}

/// Switches redirection on or off. Switched off, one that was asked for is dropped.
pub fn set_kickcfg_experimental(kick: &mut Kick, on: bool)
    ensures
        final(kick)@ == experimental_set(old(kick)@, on),
{
    kick.experimental = on;
    if !on {
        kick.stubs.kick_pending = 0;
    }
}

/// Switched off, nothing is redirected, whatever is asked for then.
pub proof fn lemma_off_never_pending(k: Kicking, id: Seq<char>, handle: u64)
    ensures
        pending_set(experimental_set(k, false), id, handle).stubs.kick_pending == 0,
{
}

/// What is said of a handle that was checked; `ret` is what the check returned.
pub open spec fn self_check_line(ret: i32) -> Seq<char> {
    if ret != 0 {
        "[kick] lobby handle INVALID (GetLobbyId ret=0x"@ + text::hex_upper((ret as u32) as int)
            + ")"@
    } else {
        "[kick] lobby handle validated (GetLobbyId ok)"@
    }
}

/// Takes the outcome of the check of a handle, for which a function of the library
/// is called with it.
pub fn getid_self_check(ret: i32, log: &mut Log) -> (r: bool)
    ensures
        r == (ret == 0),
        final(log)@ == old(log)@.push(self_check_line(ret)),
{
    if ret != 0 {
        log.say(
            text::cat3(
                "[kick] lobby handle INVALID (GetLobbyId ret=0x",
                text::hex_of(ret as u32 as u64).as_str(),
                ")",
            ),
        );
        return false;
    }
    log.say(text::text_of("[kick] lobby handle validated (GetLobbyId ok)"));
    true
}

/// The key of a member: its id and its type, as strings that end in a zero.
pub struct EntityKey {
    pub id: Vec<u8>,
    pub kind: Vec<u8>,
}

/// The bytes of a string that ends in a zero.
pub open spec fn c_string(s: Seq<char>) -> Seq<u8> {
    vstd::utf8::encode_utf8(s).push(0)
}

/// Whether an id can be that of a member: sixteen bytes, none of them zero.
pub open spec fn is_member_id(id: Seq<char>) -> bool {
    vstd::utf8::encode_utf8(id).len() == 16 && !vstd::utf8::encode_utf8(id).contains(0)
}

/// Builds the key of a member.
pub fn build_entity(id: &str) -> (r: Option<EntityKey>)
    ensures
        match r {
            Some(e) => is_member_id(id@) && e.id@ == c_string(id@) && e.kind@ == c_string(
                "title_player_account"@,
            ),
            None => !is_member_id(id@),
        },
{
    let b = id.as_bytes();
    if b.len() != 16 {
        return None;
    }
    let mut i: usize = 0;
    while i < b.len()
        invariant
            i <= b.len(),
            b@ == vstd::utf8::encode_utf8(id@),
            forall|k: int| 0 <= k < i ==> b@[k] != 0,
        decreases b.len() - i,
    {
        if b[i] == 0 {
            assert(b@.contains(b@[i as int]));
            return None;
        }
        i += 1;
    }
    let mut v = crate::bytes::copy_of(b);
    v.push(0);
    let mut kind = crate::bytes::copy_of("title_player_account".as_bytes());
    kind.push(0);
    Some(EntityKey { id: v, kind })
}

/// What is known when a member is to be removed.
#[derive(Clone, Copy, PartialEq, Eq, Debug, Structural)]
pub struct KickContext {
    pub handle: u64,
    /// Whether the function is known with which a handle is checked.
    pub getid_known: bool,
    /// Whether the function is known that removes a member.
    pub force_known: bool,
}

/// What is reported to `do_kick`.
#[derive(Clone, Copy, PartialEq, Eq, Debug, Structural)]
pub enum KickEvent {
    Begin,
    /// What the check of the handle returned.
    Checked(i32),
    /// What the removal returned, and the handle of the lobby after it.
    Forced(i32, u64),
}

/// What `do_kick` wants.
pub enum KickStep {
    /// Check the handle.
    SelfCheck(u64),
    /// Remove the member with this key from the lobby.
    ForceRemove(u64, EntityKey),
    Done,
}

/// What is said when a member may not be removed.
pub open spec fn gate_lines(g: KickGateResult, id: Seq<char>) -> Seq<Seq<char>> {
    match g {
        KickGateResult::BadId => seq!["[kick] invalid id: "@ + id],
        KickGateResult::ForceUnavailable => seq!["[kick] ForceRemoveMember not resolved"@],
        KickGateResult::NoHandle => seq![
            "[kick] lobby handle not captured (open member list / enter room first)"@,
        ],
        _ => seq![],
    }
}

/// What is wanted, and said, once it is known whether the handle is valid.
pub open spec fn gated(id: Seq<char>, c: KickContext, valid: bool, s: KickStep) -> bool {
    if gate(id, c.force_known, c.handle, valid) == KickGateResult::Pass && is_member_id(id) {
        s matches KickStep::ForceRemove(h, e) && h == c.handle && e.id@ == c_string(id)
            && e.kind@ == c_string("title_player_account"@)
    } else {
        s is Done
    }
}

pub open spec fn gated_lines(id: Seq<char>, c: KickContext, valid: bool) -> Seq<Seq<char>> {
    let g = gate(id, c.force_known, c.handle, valid);
    if g == KickGateResult::Pass && !is_member_id(id) {
        seq!["[kick] invalid id: "@ + id]
    } else {
        gate_lines(g, id)
    }
}

pub open spec fn forced_line(ret: i32, handle: u64, id: Seq<char>) -> Seq<char> {
    "[kick] ForceRemoveMember ret=0x"@ + text::hex_upper((ret as u32) as int) + " handle=0x"@
        + text::hex_upper(handle as int) + " target="@ + id
        + " (0=accepted, async result via lobby state change)"@
}

pub open spec fn pending_line(experimental: bool, id: Seq<char>) -> Seq<char> {
    if experimental {
        "[kick] KICKCFG-rdi-swap pending set: "@ + id
            + " (EXPERIMENTAL) — next UI kick will be redirected"@
    } else {
        "[kick] KICKCFG-rdi-swap is EXPERIMENTAL and DISABLED by default (use kickcfg_exp on to enable)"@
    }
}

/// What `do_kick` makes of an event.
pub open spec fn kick_step(id: Seq<char>, c: KickContext, e: KickEvent, s: KickStep) -> bool {
    match e {
        KickEvent::Begin => if c.handle != 0 && c.getid_known {
            s matches KickStep::SelfCheck(h) && h == c.handle
        } else {
            gated(id, c, false, s)
        },
        KickEvent::Checked(ret) => gated(id, c, ret == 0, s),
        KickEvent::Forced(_, _) => s is Done,
    }
}

/// What `do_kick` says on an event.
pub open spec fn kick_lines(
    id: Seq<char>,
    c: KickContext,
    e: KickEvent,
    experimental: bool,
) -> Seq<Seq<char>> {
    match e {
        KickEvent::Begin => if c.handle != 0 && c.getid_known {
            seq![]
        } else if c.handle != 0 {
            seq!["[kick] GetLobbyId not resolved — handle UNVERIFIED, refusing"@] + gated_lines(
                id,
                c,
                false,
            )
        } else {
            gated_lines(id, c, false)
        },
        KickEvent::Checked(ret) => seq![self_check_line(ret)] + gated_lines(id, c, ret == 0),
        KickEvent::Forced(ret, _) => seq![
            forced_line(ret, c.handle, id),
            pending_line(experimental, id),
            "[kick] single-variable: do NOT also enable kickcfg_exp or antikick for this experiment"@,
        ],
    }
}

/// The state after an event.
pub open spec fn kick_state(k: Kicking, id: Seq<char>, e: KickEvent) -> Kicking {
    match e {
        KickEvent::Forced(_, now) => pending_set(k, id, now),
        _ => k,
    }
}

fn pass_gate(id: &String, c: KickContext, valid: bool, log: &mut Log) -> (r: KickStep)
    ensures
        gated(id@, c, valid, r),
        final(log)@ == old(log)@ + gated_lines(id@, c, valid),
{
    let g = kick_gate(id.as_str(), c.force_known, c.handle, valid);
    assert(log@ + Seq::<Seq<char>>::empty() == log@);
    match g {
        KickGateResult::Pass => {},
        KickGateResult::BadId => {
            log.say(text::cat2("[kick] invalid id: ", id.as_str()));
            assert(log@ == old(log)@ + gated_lines(id@, c, valid));
            return KickStep::Done;
        },
        KickGateResult::ForceUnavailable => {
            log.say(text::text_of("[kick] ForceRemoveMember not resolved"));
            assert(log@ == old(log)@ + gated_lines(id@, c, valid));
            return KickStep::Done;
        },
        KickGateResult::NoHandle => {
            log.say(
                text::text_of(
                    "[kick] lobby handle not captured (open member list / enter room first)",
                ),
            );
            assert(log@ == old(log)@ + gated_lines(id@, c, valid));
            return KickStep::Done;
        },
        KickGateResult::HandleInvalid => {
            return KickStep::Done;
        },
    }
    match build_entity(id.as_str()) {
        Some(e) => KickStep::ForceRemove(c.handle, e),
        None => {
            log.say(text::cat2("[kick] invalid id: ", id.as_str()));
            assert(log@ == old(log)@ + gated_lines(id@, c, valid));
            KickStep::Done
        },
    }
}

/// Removes a member, if it may be removed: the handle is checked, and what the removal
/// returned is reported. Only then, and only if that is switched on, is the next
/// removal in the game redirected too.
pub fn do_kick(kick: &mut Kick, target_id: &str, c: KickContext, event: KickEvent, log: &mut Log)
    -> (r: KickStep)
    ensures
        kick_step(text::trim(target_id@), c, event, r),
        final(kick)@ == kick_state(old(kick)@, text::trim(target_id@), event),
        final(log)@ == old(log)@ + kick_lines(
            text::trim(target_id@),
            c,
            event,
            old(kick)@.experimental,
        ),
{
    let raw = text::chars_of(target_id);
    let id = text::string_of(text::trimmed(raw.as_slice()));
    match event {
        KickEvent::Begin => {
            assert(log@ + Seq::<Seq<char>>::empty() == log@);
            if c.handle != 0 {
                if c.getid_known {
                    return KickStep::SelfCheck(c.handle);
                }
                log.say(
                    text::text_of("[kick] GetLobbyId not resolved — handle UNVERIFIED, refusing"),
                );
                assert(log@ == old(log)@ + seq![
                    "[kick] GetLobbyId not resolved — handle UNVERIFIED, refusing"@,
                ]);
            }
            let s = pass_gate(&id, c, false, log);
            assert(log@ == old(log)@ + kick_lines(id@, c, event, old(kick)@.experimental));
            s
        },
        KickEvent::Checked(ret) => {
            let valid = getid_self_check(ret, log);
            assert(log@ == old(log)@ + seq![self_check_line(ret)]);
            let s = pass_gate(&id, c, valid, log);
            assert(log@ == old(log)@ + kick_lines(id@, c, event, old(kick)@.experimental));
            s
        },
        KickEvent::Forced(ret, now) => {
            let mut line = text::cat3(
                "[kick] ForceRemoveMember ret=0x",
                text::hex_of(ret as u32 as u64).as_str(),
                " handle=0x",
            );
            line.append(text::hex_of(c.handle).as_str());
            line.append(" target=");
            line.append(id.as_str());
            line.append(" (0=accepted, async result via lobby state change)");
            log.say(line);
            if kick.experimental {
                set_pending_kick(kick, id.as_str(), now);
                log.say(
                    text::cat3(
                        "[kick] KICKCFG-rdi-swap pending set: ",
                        id.as_str(),
                        " (EXPERIMENTAL) — next UI kick will be redirected",
                    ),
                );
            } else {
                log.say(
                    text::text_of(
                        "[kick] KICKCFG-rdi-swap is EXPERIMENTAL and DISABLED by default (use kickcfg_exp on to enable)",
                    ),
                );
            }
            log.say(
                text::text_of(
                    "[kick] single-variable: do NOT also enable kickcfg_exp or antikick for this experiment",
                ),
            );
            assert(log@ == old(log)@ + kick_lines(id@, c, event, old(kick)@.experimental));
            KickStep::Done
        },
    }
}

/// A member is removed only from a lobby whose handle was checked, and only under an
/// id that can be a member's.
pub proof fn lemma_removal_is_gated(id: Seq<char>, c: KickContext, e: KickEvent, s: KickStep)
    requires
        kick_step(id, c, e, s),
        s is ForceRemove,
    ensures
        e == KickEvent::Checked(0),
        c.handle != 0,
        c.force_known,
        is_member_id(id),
{
}

/// A hooked function stands where the function of its name was found: the place in the
/// game for the one that redirects removals, and for every other the address found under
/// the name with the prefix of the library.
pub proof fn lemma_sites_by_name(a: Seq<usize>, kick_config: usize, i: int)
    requires
        a.len() == 15,
        0 <= i < 11,
    ensures
        i == 8 ==> site_target(sdk::fns_of(a, kick_config), i) == kick_config && site_name(i)
            == "KICKCFG"@ && site_module(i) == "granblue_fantasy_relink.exe"@,
        i != 8 ==> site_module(i) == "PlayFabMultiplayerWin.dll"@ && exists|j: int|
            0 <= j < 15 && site_target(sdk::fns_of(a, kick_config), i) == a[j] && (
            #[trigger] sdk::exports()[j] == "PFLobby"@ + site_name(i) || sdk::exports()[j]
                == "PFMultiplayer"@ + site_name(i)),
{
    let e = sdk::exports();
    reveal_strlit("PFLobby");
    reveal_strlit("PFMultiplayer");
    if i == 0 {
        reveal_strlit("PFLobbyPostUpdate");
        reveal_strlit("PostUpdate");
        assert(e[6] =~= "PFLobby"@ + site_name(i));
    } else if i == 1 {
        reveal_strlit("PFLobbyGetLobbyId");
        reveal_strlit("GetLobbyId");
        assert(e[4] =~= "PFLobby"@ + site_name(i));
    } else if i == 2 {
        reveal_strlit("PFLobbyGetMembers");
        reveal_strlit("GetMembers");
        assert(e[5] =~= "PFLobby"@ + site_name(i));
    } else if i == 3 {
        reveal_strlit("PFLobbyGetOwner");
        reveal_strlit("GetOwner");
        assert(e[7] =~= "PFLobby"@ + site_name(i));
    } else if i == 4 {
        reveal_strlit("PFLobbyGetMemberProperty");
        reveal_strlit("GetMemberProperty");
        assert(e[8] =~= "PFLobby"@ + site_name(i));
    } else if i == 5 {
        reveal_strlit("PFLobbyGetLobbyProperty");
        reveal_strlit("GetLobbyProperty");
        assert(e[9] =~= "PFLobby"@ + site_name(i));
    } else if i == 6 {
        reveal_strlit("PFLobbyGetConnectionString");
        reveal_strlit("GetConnectionString");
        assert(e[10] =~= "PFLobby"@ + site_name(i));
    } else if i == 7 {
        reveal_strlit("PFLobbyGetMemberConnectionStatus");
        reveal_strlit("GetMemberConnectionStatus");
        assert(e[11] =~= "PFLobby"@ + site_name(i));
    } else if i == 9 {
        reveal_strlit("PFMultiplayerJoinLobby");
        reveal_strlit("JoinLobby");
        assert(e[12] =~= "PFMultiplayer"@ + site_name(i));
    } else if i == 10 {
        reveal_strlit("PFMultiplayerCreateAndJoinLobby");
        reveal_strlit("CreateAndJoinLobby");
        assert(e[13] =~= "PFMultiplayer"@ + site_name(i));
    }
}

/// A place is hooked only where it is safe: its function was found, lies in the module, and
/// begins with the bytes that the hook replaces, as many as it replaces. Anything else is
/// refused, but for bytes that are not known yet, which are asked for.
pub proof fn lemma_site_is_checked(
    target: usize,
    len: usize,
    expected: Seq<u8>,
    name: Seq<char>,
    module: Seq<char>,
    range: Option<(u64, usize)>,
    k: snapshot::Known,
)
    requires
        expected.len() <= usize::MAX,
    ensures
        ({
            let r = site_cleared(target, len, expected, name, module, range, k);
            let inside = target != 0 && (range matches Some(r) && r.0 <= target && target < r.0
                + r.1);
            let bytes = snapshot::bytes_at(k, target, expected.len() as usize);
            &&& r is Clear <==> inside && len == expected.len() && bytes == Ok::<Seq<u8>, Need>(
                expected,
            )
            &&& r is Wants <==> inside && len == expected.len() && bytes is Err
            &&& r is Refused ==> r->Refused_0.len() == 1
        }),
{
}

/// How installing goes: all the places are tried, without those for joining where that was
/// asked for. Where every one was hooked, each hook and its block are kept in its slot and
/// all else stays; where one was not, all are to be taken back.
pub proof fn lemma_hooks_are_kept(k: Kicking, no_join: bool, e: LobbyEvent, i: int)
    requires
        is_kick(k),
        lobby_fits(no_join, e),
        0 <= i < 11,
    ensures
        ({
            let t = lobby_turn(k, no_join, e);
            &&& e is Begin ==> t.0 == k && t.2 == LobbyStep::TryInstall(
                if no_join {
                    9
                } else {
                    11
                },
            )
            &&& forall|v: Vec<Option<Hook>>|
                e == LobbyEvent::Installed(v) ==> {
                    let all = forall|j: int| 0 <= j < v@.len() ==> (#[trigger] v@[j]) is Some;
                    &&& #[trigger] v@.len() == (if no_join {
                        9
                    } else {
                        11int
                    })
                    &&& all <==> t.2 == LobbyStep::Done(true)
                    &&& !all <==> t.2 is RestoreAll
                    &&& i < v@.len() && v@[i] is Some ==> t.0.hooks[i] == Some(v@[i]->0@)
                        && t.0.near[i] == v@[i]->0@.near
                    &&& i >= v@.len() || v@[i] is None ==> t.0.hooks[i] == k.hooks[i]
                        && t.0.near[i] == k.near[i]
                    &&& t.0.stubs == k.stubs && t.0.lobby_join == k.lobby_join
                }
            &&& t.0.experimental == k.experimental && t.0.kick_id == k.kick_id
        }),
{
    if let LobbyEvent::Installed(v) = e {
        let hv = hook_views(v@);
        assert(hv.len() == v@.len());
        assert(forall|j: int|
            0 <= j < v@.len() ==> (#[trigger] v@[j] is Some <==> hv[j] is Some));
        assert(forall|j: int|
            0 <= j < v@.len() ==> (#[trigger] hv[j] is Some <==> v@[j] is Some));
        assert(all_some(hv) <==> forall|j: int| 0 <= j < v@.len() ==> (#[trigger] v@[j]) is Some);
    }
}

/// Rolling back: a hook that was taken back is no longer held, and one that was not stays
/// in its slot. Only once none is held are the blocks and the handle forgotten.
pub proof fn lemma_rollback_keeps_what_is_hooked(k: Kicking, no_join: bool, v: Vec<bool>, i: int)
    requires
        is_kick(k),
        v@.len() == 11,
        0 <= i < 11,
    ensures
        ({
            let t = lobby_turn(k, no_join, LobbyEvent::Restored(v));
            let none = forall|j: int| 0 <= j < 11 ==> v@[j] || (#[trigger] k.hooks[j]) is None;
            &&& t.2 == LobbyStep::Done(false)
            &&& v@[i] ==> t.0.hooks[i] is None
            &&& !v@[i] ==> t.0.hooks[i] == k.hooks[i]
            &&& none ==> t.0.near[i] == 0 && t.0.lobby_join == 0 && t.0.stubs.join_out == 0
                && t.0.stubs.createjoin_out == 0 && t.0.stubs.kick_tramp == 0
                && t.0.stubs.join_tramp == 0 && t.0.stubs.createjoin_tramp == 0
            &&& !none ==> t.0.near == k.near && t.0.lobby_join == k.lobby_join && t.0.stubs
                == k.stubs
        }),
{
    let c = cleared_hooks(k.hooks, v@);
    if forall|j: int| 0 <= j < 11 ==> v@[j] || (#[trigger] k.hooks[j]) is None {
        assert(c =~= no_hooks());
    } else {
        let j = choose|j: int| 0 <= j < 11 && !v@[j] && (#[trigger] k.hooks[j]) is Some;
        assert(c[j] is Some);
        assert(no_hooks()[j] is None);
    }
}

/// Unhooking: a hook that was taken back is no longer held, and one that was not stays in
/// its slot. Every block, every slot of the stubs and the handle are forgotten, so that no
/// handle is left to be had from them; whether removals may be redirected stays as it was.
pub proof fn lemma_unhook_forgets(k: Kicking, restored: Seq<bool>, saved: Seq<u64>, i: int)
    requires
        is_kick(k),
        restored.len() == 11,
        saved.len() == 11,
        0 <= i < 11,
    ensures
        ({
            let n = unhooked(k, restored);
            &&& restored[i] ==> n.hooks[i] is None
            &&& !restored[i] ==> n.hooks[i] == k.hooks[i]
            &&& n.near[i] == 0
            &&& n.stubs == (Stubs {
                kick_pending: 0,
                kick_tramp: 0,
                join_tramp: 0,
                createjoin_tramp: 0,
                join_out: 0,
                createjoin_out: 0,
            })
            &&& n.lobby_join == 0
            &&& handle_of(n, saved) == 0
            &&& n.experimental == k.experimental
            &&& n.kick_id == k.kick_id
            &&& any_held(k.hooks) <==> exists|j: int| 0 <= j < 11 && (#[trigger] k.hooks[j]) is Some
        }),
{
    lemma_handle_by_priority(unhooked(k, restored), saved);
}

/// A slot that the game was to write to is polled until something is there: a handle is
/// taken, zero is waited on, and memory that is gone, or a value too low for a handle, ends
/// the wait without one.
pub proof fn lemma_poll(addr: u64, join: u64, f: Found)
    ensures
        addr == 0 ==> polled(addr, join, f) == (0u64, join),
        addr != 0 && f.committed && f.value >= 0x10000 ==> polled(addr, join, f) == (0u64, f.value),
        addr != 0 && f.committed && f.value == 0 ==> polled(addr, join, f) == (addr, join),
        addr != 0 && f.committed && 0 < f.value < 0x10000 ==> polled(addr, join, f) == (0u64, join),
        addr != 0 && !f.committed ==> polled(addr, join, f) == (0u64, join),
        polled_lines(seq![], addr, f).len() == (if addr == 0 || f.committed && f.value == 0 {
            0int
        } else {
            1
        }),
{
}

/// Both slots are polled, each for itself, and of two handles that of the lobby that was
/// created is taken; nothing else changes.
pub proof fn lemma_poll_both(k: Kicking, join: Found, createjoin: Found)
    ensures
        ({
            let n = both_polled(k, join, createjoin);
            let joined = k.stubs.join_out != 0 && join.committed && join.value >= 0x10000;
            let created = k.stubs.createjoin_out != 0 && createjoin.committed && createjoin.value
                >= 0x10000;
            &&& created ==> n.lobby_join == createjoin.value
            &&& joined && !created ==> n.lobby_join == join.value
            &&& !joined && !created ==> n.lobby_join == k.lobby_join
            &&& n.stubs.join_out == (if join.committed && join.value == 0 {
                k.stubs.join_out
            } else {
                0
            })
            &&& n.stubs.createjoin_out == (if createjoin.committed && createjoin.value == 0 {
                k.stubs.createjoin_out
            } else {
                0
            })
            &&& n.hooks == k.hooks && n.near == k.near && n.experimental == k.experimental
                && n.kick_id == k.kick_id
            &&& n.stubs.kick_pending == k.stubs.kick_pending && n.stubs.kick_tramp
                == k.stubs.kick_tramp && n.stubs.join_tramp == k.stubs.join_tramp
                && n.stubs.createjoin_tramp == k.stubs.createjoin_tramp
        }),
{
    lemma_poll(k.stubs.join_out, k.lobby_join, join);
    lemma_poll(
        k.stubs.createjoin_out,
        polled(k.stubs.join_out, k.lobby_join, join).1,
        createjoin,
    );
}

/// Why a removal is refused: an id that has not 16 bytes is told first, then that the
/// function is not known, then that there is no handle, then that the handle is not valid.
pub proof fn lemma_refused_why(
    id: Seq<char>,
    force_available: bool,
    handle: u64,
    handle_valid: bool,
)
    ensures
        ({
            let g = gate(id, force_available, handle, handle_valid);
            let sized = vstd::utf8::encode_utf8(id).len() == 16;
            &&& g is BadId <==> !sized
            &&& g is ForceUnavailable <==> sized && !force_available
            &&& g is NoHandle <==> sized && force_available && handle == 0
            &&& g is HandleInvalid <==> sized && force_available && handle != 0 && !handle_valid
        }),
{
}

/// A removal is redirected where that is switched on, there is a handle, and the id fits
/// with its closing zero into 31 bytes: the id is kept, and the redirection is pending. In
/// any other case nothing changes; switching it off ends one that is pending, and switching
/// it on starts none.
pub proof fn lemma_pending(k: Kicking, id: Seq<char>, handle: u64, on: bool)
    ensures
        ({
            let n = pending_set(k, id, handle);
            let b = vstd::utf8::encode_utf8(id);
            let sets = k.experimental && handle != 0 && b.len() <= 30;
            &&& sets ==> n.stubs.kick_pending == 1 && n.kick_id.len() == b.len() + 1
                && n.kick_id.take(b.len() as int) == b && n.kick_id.last() == 0
            &&& !sets ==> n == k
            &&& n.hooks == k.hooks && n.near == k.near && n.lobby_join == k.lobby_join
                && n.experimental == k.experimental
            &&& n.stubs.kick_tramp == k.stubs.kick_tramp && n.stubs.join_tramp
                == k.stubs.join_tramp && n.stubs.createjoin_tramp == k.stubs.createjoin_tramp
                && n.stubs.join_out == k.stubs.join_out && n.stubs.createjoin_out
                == k.stubs.createjoin_out
        }),
        ({
            let n = experimental_set(k, on);
            &&& n.experimental == on
            &&& n.stubs.kick_pending == (if on {
                k.stubs.kick_pending
            } else {
                0
            })
            &&& n.hooks == k.hooks && n.near == k.near && n.lobby_join == k.lobby_join && n.kick_id
                == k.kick_id
            &&& n.stubs.kick_tramp == k.stubs.kick_tramp && n.stubs.join_tramp
                == k.stubs.join_tramp && n.stubs.createjoin_tramp == k.stubs.createjoin_tramp
                && n.stubs.join_out == k.stubs.join_out && n.stubs.createjoin_out
                == k.stubs.createjoin_out
        }),
{
    let b = vstd::utf8::encode_utf8(id);
    assert(b.push(0).take(b.len() as int) =~= b);
}

/// How a removal goes: a handle is checked before it is used, and only one that was found
/// good is. Then a member with an id of 16 bytes, none of them zero, is removed by that id
/// and the kind of account, each with a closing zero; and when that was done, nothing is
/// left to do.
pub proof fn lemma_removal_goes(id: Seq<char>, c: KickContext, s: KickStep, ret: i32, now: u64)
    ensures
        kick_step(id, c, KickEvent::Begin, s) && c.handle != 0 && c.getid_known ==> s
            == KickStep::SelfCheck(c.handle),
        kick_step(id, c, KickEvent::Begin, s) && (c.handle == 0 || !c.getid_known) ==> s is Done,
        ({
            let b = vstd::utf8::encode_utf8(id);
            let fit = b.len() == 16 && (forall|i: int| 0 <= i < 16 ==> #[trigger] b[i] != 0);
            let kind = vstd::utf8::encode_utf8("title_player_account"@);
            &&& kick_step(id, c, KickEvent::Checked(ret), s) && ret == 0 && c.handle != 0
                && c.force_known && fit ==> s is ForceRemove && s->ForceRemove_0 == c.handle
                && s->ForceRemove_1.id@.len() == 17 && s->ForceRemove_1.id@.take(16) == b
                && s->ForceRemove_1.id@[16] == 0 && s->ForceRemove_1.kind@ == kind + seq![0u8]
            &&& kick_step(id, c, KickEvent::Checked(ret), s) && (ret != 0 || c.handle == 0
                || !c.force_known || !fit) ==> s is Done
        }),
        kick_step(id, c, KickEvent::Forced(ret, now), s) ==> s is Done,
{
    let b = vstd::utf8::encode_utf8(id);
    let kind = vstd::utf8::encode_utf8("title_player_account"@);
    assert(b.push(0).len() == b.len() + 1);
    if b.len() == 16 {
        assert(b.push(0).take(16) =~= b);
    }
    assert(kind.push(0) =~= kind + seq![0u8]);
    if b.contains(0) {
        let i = b.index_of(0);
        assert(b[i] == 0);
    }
    if exists|i: int| 0 <= i < b.len() && b[i] == 0 {
        let i = choose|i: int| 0 <= i < b.len() && b[i] == 0;
        assert(b.contains(b[i]));
    }
}

/// A removal leaves the state as it is, but for the redirection that is set once it was
/// done, with the handle of that time.
pub proof fn lemma_removal_keeps_state(k: Kicking, id: Seq<char>, ret: i32, now: u64)
    ensures
        kick_state(k, id, KickEvent::Begin) == k,
        kick_state(k, id, KickEvent::Checked(ret)) == k,
        !k.experimental || now == 0 ==> kick_state(k, id, KickEvent::Forced(ret, now)) == k,
        k.experimental && now != 0 && vstd::utf8::encode_utf8(id).len() <= 30 ==> kick_state(
            k,
            id,
            KickEvent::Forced(ret, now),
        ).stubs.kick_pending == 1,
{
}

/// The line on the sources tells how often each hooked function was called, under the name
/// of its own, and zero for one that is not hooked.
pub proof fn lemma_sources_are_told(k: Kicking, c: Seq<u64>)
    requires
        is_kick(k),
        c.len() == 11,
    ensures
        ({
            let s = sources_line(k, c);
            let n = |i: int|
                text::numeral(
                    if k.hooks[i] is Some {
                        c[i] as int
                    } else {
                        0
                    },
                    10,
                    false,
                );
            &&& text::contains(s, "members="@ + n(2) + " "@)
            &&& text::contains(s, " post="@ + n(0) + " "@)
            &&& text::contains(s, " getid="@ + n(1) + " "@)
            &&& text::contains(s, " owner="@ + n(3) + " "@)
            &&& text::contains(s, " getmp="@ + n(4) + " "@)
            &&& text::contains(s, " getlp="@ + n(5) + " "@)
            &&& text::contains(s, " conn="@ + n(6) + " "@)
            &&& text::contains(s, " memconn="@ + n(7) + " "@)
            &&& text::contains(s, " join="@ + n(9) + " "@)
            &&& text::contains(s, " createjoin="@ + n(10))
        }),
{
    let s = sources_line(k, c);
    let n = |i: int| text::dec(calls_of(k, c, i));
    reveal_strlit(" post=");
    reveal_strlit(" getid=");
    reveal_strlit(" owner=");
    reveal_strlit(" getmp=");
    reveal_strlit(" getlp=");
    reveal_strlit(" conn=");
    reveal_strlit(" memconn=");
    reveal_strlit(" join=");
    reveal_strlit(" createjoin=");
    let p0 = Seq::<char>::empty();
    let p1 = "members="@ + n(2);
    let p2 = p1 + " post="@ + n(0);
    let p3 = p2 + " getid="@ + n(1);
    let p4 = p3 + " owner="@ + n(3);
    let p5 = p4 + " getmp="@ + n(4);
    let p6 = p5 + " getlp="@ + n(5);
    let p7 = p6 + " conn="@ + n(6);
    let p8 = p7 + " memconn="@ + n(7);
    let p9 = p8 + " join="@ + n(9);
    let p10 = p9 + " createjoin="@ + n(10);
    assert(s == p10);
    let t10 = Seq::<char>::empty();
    let t9 = " createjoin="@ + (n(10) + t10);
    let t8 = " join="@ + (n(9) + t9);
    let t7 = " memconn="@ + (n(7) + t8);
    let t6 = " conn="@ + (n(6) + t7);
    let t5 = " getlp="@ + (n(5) + t6);
    let t4 = " getmp="@ + (n(4) + t5);
    let t3 = " owner="@ + (n(3) + t4);
    let t2 = " getid="@ + (n(1) + t3);
    let t1 = " post="@ + (n(0) + t2);
    let t0 = "members="@ + (n(2) + t1);
    assert(s =~= p10 + t10);
    text::lemma_regroup(p9, " createjoin="@, n(10), t10);
    text::lemma_regroup(p8, " join="@, n(9), t9);
    text::lemma_regroup(p7, " memconn="@, n(7), t8);
    text::lemma_regroup(p6, " conn="@, n(6), t7);
    text::lemma_regroup(p5, " getlp="@, n(5), t6);
    text::lemma_regroup(p4, " getmp="@, n(4), t5);
    text::lemma_regroup(p3, " owner="@, n(3), t4);
    text::lemma_regroup(p2, " getid="@, n(1), t3);
    text::lemma_regroup(p1, " post="@, n(0), t2);
    text::lemma_regroup(p0, "members="@, n(2), t1);
    assert(p0 + "members="@ + n(2) =~= p1);
    text::lemma_told(s, p0, "members="@, n(2), t1);
    text::lemma_told(s, p1, " post="@, n(0), t2);
    text::lemma_told(s, p2, " getid="@, n(1), t3);
    text::lemma_told(s, p3, " owner="@, n(3), t4);
    text::lemma_told(s, p4, " getmp="@, n(4), t5);
    text::lemma_told(s, p5, " getlp="@, n(5), t6);
    text::lemma_told(s, p6, " conn="@, n(6), t7);
    text::lemma_told(s, p7, " memconn="@, n(7), t8);
    text::lemma_told(s, p8, " join="@, n(9), t9);
    assert(s =~= p9 + (" createjoin="@ + n(10)) + t10);
    text::lemma_occurs_between(p9, " createjoin="@ + n(10), t10);
}

/// The bytes with which each hooked function begins: three kinds of prologue, and the place
/// in the game. The three last places go through far code, and the others capture.
pub proof fn lemma_prologues(i: int)
    requires
        0 <= i < 11,
    ensures
        i == 1 || i == 3 || i == 6 ==> site_prologue(i) == seq![0x40u8, 0x55, 0x56, 0x57, 0x41, 0x56],
        i == 0 || i == 2 || i == 4 || i == 5 || i == 7 || i == 9 || i == 10 ==> site_prologue(i)
            == seq![0x40u8, 0x53, 0x55, 0x56, 0x57, 0x41, 0x54],
        i == 8 ==> site_prologue(i) == seq![0x48u8, 0x89, 0x7D, 0xB8, 0xC5, 0xF8, 0x57, 0xC0],
        site_far(i) <==> i == 8 || i == 9 || i == 10,
        5 <= site_prologue(i).len() <= 16,
{
}

/// What a removal says: why it is refused, what the check of the handle gave, and what was
/// done to whom.
pub proof fn lemma_removal_is_told(
    id: Seq<char>,
    c: KickContext,
    ret: i32,
    now: u64,
    experimental: bool,
)
    ensures
        gate_lines(KickGateResult::BadId, id) == seq!["[kick] invalid id: "@ + id],
        gate_lines(KickGateResult::ForceUnavailable, id) == seq![
            "[kick] ForceRemoveMember not resolved"@,
        ],
        gate_lines(KickGateResult::NoHandle, id) == seq![
            "[kick] lobby handle not captured (open member list / enter room first)"@,
        ],
        gate_lines(KickGateResult::HandleInvalid, id).len() == 0,
        gate_lines(KickGateResult::Pass, id).len() == 0,
        ret == 0 ==> self_check_line(ret) == "[kick] lobby handle validated (GetLobbyId ok)"@,
        ret != 0 ==> self_check_line(ret) == "[kick] lobby handle INVALID (GetLobbyId ret=0x"@
            + text::numeral((ret as u32) as int, 16, true) + ")"@,
        ({
            let l = kick_lines(id, c, KickEvent::Forced(ret, now), experimental);
            &&& l.len() == 3
            &&& text::contains(l[0], " ret=0x"@ + text::numeral((ret as u32) as int, 16, true) + " "@)
            &&& text::contains(l[0], " handle=0x"@ + text::numeral(c.handle as int, 16, true) + " "@)
            &&& text::contains(l[0], " target="@ + id + " "@)
            &&& experimental ==> l[1] == "[kick] KICKCFG-rdi-swap pending set: "@ + id
                + " (EXPERIMENTAL) — next UI kick will be redirected"@
            &&& !experimental ==> l[1]
                == "[kick] KICKCFG-rdi-swap is EXPERIMENTAL and DISABLED by default (use kickcfg_exp on to enable)"@
        }),
        ({
            let l = kick_lines(id, c, KickEvent::Begin, experimental);
            &&& c.handle != 0 && c.getid_known ==> l.len() == 0
            &&& c.handle != 0 && !c.getid_known ==> l.len() > 0 && l[0]
                == "[kick] GetLobbyId not resolved — handle UNVERIFIED, refusing"@
        }),
        kick_lines(id, c, KickEvent::Checked(ret), experimental).len() > 0 && kick_lines(
            id,
            c,
            KickEvent::Checked(ret),
            experimental,
        )[0] == self_check_line(ret),
{
    let l = kick_lines(id, c, KickEvent::Forced(ret, now), experimental);
    let s = forced_line(ret, c.handle, id);
    assert(l[0] == s);
    reveal_strlit("[kick] ForceRemoveMember ret=0x");
    reveal_strlit("[kick] ForceRemoveMember");
    reveal_strlit(" ret=0x");
    reveal_strlit(" handle=0x");
    reveal_strlit(" target=");
    reveal_strlit(" (0=accepted, async result via lobby state change)");
    let a = text::numeral((ret as u32) as int, 16, true);
    let b = text::numeral(c.handle as int, 16, true);
    let p0 = "[kick] ForceRemoveMember"@;
    assert("[kick] ForceRemoveMember ret=0x"@ =~= p0 + " ret=0x"@);
    let end = " (0=accepted, async result via lobby state change)"@;
    let p1 = p0 + " ret=0x"@ + a;
    let p2 = p1 + " handle=0x"@ + b;
    let p3 = p2 + " target="@ + id;
    assert(s == p3 + end);
    text::lemma_regroup(p2, " target="@, id, end);
    text::lemma_regroup(p1, " handle=0x"@, b, " target="@ + (id + end));
    text::lemma_regroup(p0, " ret=0x"@, a, " handle=0x"@ + (b + (" target="@ + (id + end))));
    text::lemma_told(s, p0, " ret=0x"@, a, " handle=0x"@ + (b + (" target="@ + (id + end))));
    text::lemma_told(s, p1, " handle=0x"@, b, " target="@ + (id + end));
    text::lemma_told(s, p2, " target="@, id, end);
}

/// What polling and installing say: the handle that was captured and from where, or why the
/// wait was ended; that the hooks on joining were left out, where they were; and how many
/// hooks were installed.
pub proof fn lemma_hooks_are_told(name: Seq<char>, addr: u64, f: Found, no_join: bool, n: int)
    requires
        addr != 0,
    ensures
        f.committed && f.value >= 0x10000 ==> polled_lines(name, addr, f) == seq![
            "[kick] auto-captured lobby via "@ + name + "=0x"@ + text::numeral(
                f.value as int,
                16,
                true,
            ),
        ],
        f.committed && 0 < f.value < 0x10000 ==> polled_lines(name, addr, f) == seq![
            "[kick] "@ + name + " slot value 0x"@ + text::numeral(f.value as int, 16, true)
                + " invalid — cleared"@,
        ],
        !f.committed ==> polled_lines(name, addr, f) == seq![
            "[kick] "@ + name + " slot 0x"@ + text::numeral(addr as int, 16, true)
                + " not committed — cleared"@,
        ],
        no_join ==> skipped_lines(no_join) == seq!["[kick] JOIN/CREATEJOIN skipped (diag no_join)"@],
        !no_join ==> skipped_lines(no_join).len() == 0,
        text::contains(all_installed_line(n), " ("@ + text::numeral(n, 10, false) + ":"@),
        unhook_line(true) == "[kick] hooks restored"@,
        unhook_line(false) == "[kick] already unhooked"@,
{
    let d = text::numeral(n, 10, false);
    let rest = ": PostUpdate/GetLobbyId/GetMembers/GetOwner/GetMemberProperty/GetLobbyProperty/GetConnectionString/GetMemberConnectionStatus/KICKCFG-rdi-swap/JoinLobby/CreateAndJoinLobby)"@;
    reveal_strlit("[kick] hooks installed (");
    reveal_strlit("[kick] hooks installed");
    reveal_strlit(" (");
    reveal_strlit(":");
    reveal_strlit(
        ": PostUpdate/GetLobbyId/GetMembers/GetOwner/GetMemberProperty/GetLobbyProperty/GetConnectionString/GetMemberConnectionStatus/KICKCFG-rdi-swap/JoinLobby/CreateAndJoinLobby)",
    );
    let a = "[kick] hooks installed"@;
    let m = " ("@ + d + ":"@;
    assert(all_installed_line(n) =~= a + m + rest.drop_first());
    text::lemma_occurs_between(a, m, rest.drop_first());
}

/// What installing says in the end: that all hooks are there, that all were taken back, or
/// that some could not be; and of a function that was not found, that it was not.
pub proof fn lemma_install_is_told(
    k: Kicking,
    no_join: bool,
    e: LobbyEvent,
    name: Seq<char>,
    module: Seq<char>,
    expected: Seq<u8>,
    range: Option<(u64, usize)>,
    known: snapshot::Known,
)
    requires
        is_kick(k),
        lobby_fits(no_join, e),
    ensures
        ({
            let t = lobby_turn(k, no_join, e);
            let held = exists|j: int| 0 <= j < 11 && (#[trigger] t.0.hooks[j]) is Some;
            &&& e is Begin ==> t.1.len() == 0
            &&& e is Restored && !held ==> t.1 == seq!["[kick] PARTIAL INSTALL ROLLED BACK"@]
            &&& e is Restored && held ==> t.1 == seq![
                "[kick] PARTIAL INSTALL rollback FAILED — hook ownership retained"@,
            ]
            &&& t.2 == LobbyStep::Done(true) ==> t.1.len() > 0 && t.1.last() == all_installed_line(
                if no_join {
                    9
                } else {
                    11
                },
            )
        }),
        site_cleared(0, expected.len() as usize, expected, name, module, range, known)
            == detour::Cleared::Refused(seq!["[kick] "@ + name + " addr unavailable"@]),
{
    let t = lobby_turn(k, no_join, e);
    if let LobbyEvent::Restored(v) = e {
        let c = cleared_hooks(k.hooks, v@);
        if c == no_hooks() {
            assert forall|j: int| 0 <= j < 11 implies (#[trigger] t.0.hooks[j]) is None by {
                assert(no_hooks()[j] is None);
            }
        } else {
            if forall|j: int| 0 <= j < 11 ==> (#[trigger] c[j]) is None {
                assert(c =~= no_hooks());
            }
            let j = choose|j: int| 0 <= j < 11 && (#[trigger] c[j]) is Some;
            assert(t.0.hooks[j] is Some);
        }
    }
}

/// The hooks are taken one by one, in order, each as it is.
pub proof fn lemma_hooks_in_list(v: Seq<Option<Hook>>, i: int)
    requires
        0 <= i < v.len(),
    ensures
        hook_views(v).len() == v.len(),
        v[i] is None ==> hook_views(v)[i] is None,
        v[i] is Some ==> hook_views(v)[i] == Some(v[i]->0@),
        sdk::hooked(v[i]) == hook_views(v)[i],
{
}

/// An id that has 16 bytes but a zero among them is refused as an invalid one is, and what
/// else is refused says why.
pub proof fn lemma_refusals_are_told(id: Seq<char>, c: KickContext, valid: bool)
    ensures
        ({
            let b = vstd::utf8::encode_utf8(id);
            let l = gated_lines(id, c, valid);
            &&& b.len() != 16 ==> l == seq!["[kick] invalid id: "@ + id]
            &&& b.len() == 16 && c.force_known && c.handle != 0 && valid && b.contains(0) ==> l
                == seq!["[kick] invalid id: "@ + id]
            &&& b.len() == 16 && c.force_known && c.handle != 0 && valid && !b.contains(0)
                ==> l.len() == 0
            &&& b.len() == 16 && !c.force_known ==> l == seq![
                "[kick] ForceRemoveMember not resolved"@,
            ]
            &&& b.len() == 16 && c.force_known && c.handle == 0 ==> l == seq![
                "[kick] lobby handle not captured (open member list / enter room first)"@,
            ]
            &&& b.len() == 16 && c.force_known && c.handle != 0 && !valid ==> l.len() == 0
        }),
{
}

} // verus!
