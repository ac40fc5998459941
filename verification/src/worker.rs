//! The thread that carries out commands, and what happens when the library is
//! loaded.
use vstd::prelude::*;

use crate::command;
use crate::command::Seen;
use crate::diag;
use crate::dispatch;
use crate::text;

verus! {

/// The line that reports the state.
pub open spec fn state_line(
    m: Seq<char>,
    sdk: int,
    handle: int,
    lobby: int,
    myid: int,
    antikick: bool,
) -> Seq<char> {
    dispatch::said(
        m,
        "STATE sdk=0x"@ + text::hex_upper(sdk) + " handle=0x"@ + text::hex_upper(handle)
            + " lobby=0x"@ + text::hex_upper(lobby) + " myid=0x"@ + text::hex_upper(myid)
            + " antikick="@ + text::of_bool(antikick),
    )
}

/// The two lines that report the state: addresses and switches, then how often
/// each source of the lobby handle was called.
pub fn state_lines(
    runid: Option<u64>,
    sdk: u64,
    handle: u64,
    lobby: u64,
    myid: u64,
    antikick: bool,
    sources: &str,
) -> (r: (String, String))
    ensures
        r.0@ == state_line(
            command::mark(runid),
            sdk as int,
            handle as int,
            lobby as int,
            myid as int,
            antikick,
        ),
        r.1@ == dispatch::said(command::mark(runid), "LOBBY_SOURCES: "@ + sources@),
{
    let m = command::marker(runid);
    let mut s = text::cat2("STATE sdk=0x", text::hex_of(sdk).as_str());
    s.append(" handle=0x");
    s.append(text::hex_of(handle).as_str());
    s.append(" lobby=0x");
    s.append(text::hex_of(lobby).as_str());
    s.append(" myid=0x");
    s.append(text::hex_of(myid).as_str());
    s.append(" antikick=");
    s.append(text::bool_text(antikick).as_str());
    let a = dispatch::line_of(m.as_str(), s.as_str());
    let b = dispatch::line_of(m.as_str(), text::cat2("LOBBY_SOURCES: ", sources).as_str());
    (a, b)
}

/// The line that reports allocations near hooked code which stay behind, if there
/// are any.
pub fn outstanding_line(runid: Option<u64>, n: usize) -> (r: Option<String>)
    ensures
        match r {
            Some(s) => n > 0 && s@ == dispatch::said(
                command::mark(runid),
                "unload: near allocs outstanding: "@ + text::dec(n as int)
                    + " (not freed — see detour.rs ponytail note)"@,
            ),
            None => n == 0,
        },
{
    if n == 0 {
        return None;
    }
    let m = command::marker(runid);
    let s = text::cat3(
        "unload: near allocs outstanding: ",
        text::dec_of(n as u64).as_str(),
        " (not freed — see detour.rs ponytail note)",
    );
    Some(dispatch::line_of(m.as_str(), s.as_str()))
}

/// The lines, without surrounding white space, that are not blank.
pub open spec fn history(lines: Seq<Seq<char>>) -> Set<Seq<char>> {
    Set::new(
        |l: Seq<char>|
            l.len() != 0 && exists|i: int|
                0 <= i < lines.len() && text::trim(#[trigger] lines[i]) == l,
    )
}

spec fn history_before(lines: Seq<Seq<char>>, k: int) -> Set<Seq<char>> {
    history(lines.take(k))
}

proof fn lemma_history_step(lines: Seq<Seq<char>>, k: int)
    requires
        0 <= k < lines.len(),
    ensures
        history_before(lines, k + 1) == command::seen_with(lines[k], history_before(lines, k)),
{
    let a = lines.take(k);
    let b = lines.take(k + 1);
    let t = text::trim(lines[k]);
    let want = command::seen_with(lines[k], history(a));
    assert forall|l: Seq<char>| history(b).contains(l) == want.contains(l) by {
        if history(b).contains(l) {
            let i = choose|i: int| 0 <= i < b.len() && text::trim(#[trigger] b[i]) == l;
            if i < k {
                assert(a[i] == b[i]);
            }
        }
        if history(a).contains(l) {
            let i = choose|i: int| 0 <= i < a.len() && text::trim(#[trigger] a[i]) == l;
            assert(b[i] == a[i]);
        }
        if l == t && l.len() != 0 {
            assert(b[k] == lines[k]);
        }
    }
    assert(history(b) == want);
}

/// What stood in the command file before: a library that was just loaded does not
/// carry it out.
pub fn baseline(existing: &str) -> (r: Seen)
    ensures
        r@ == history(text::lines(existing@)),
{
    let v = text::chars_of(existing);
    let lines = text::split_lines(v.as_slice());
    let ghost ls = text::views(lines@);
    let mut seen = Seen::new();
    assert(history_before(ls, 0) == Set::<Seq<char>>::empty());
    let mut i: usize = 0;
    while i < lines.len()
        invariant
            i <= lines.len(),
            ls == text::views(lines@),
            seen@ == history_before(ls, i as int),
        decreases lines.len() - i,
    {
        assert(ls[i as int] == lines@[i as int]@);
        proof {
            lemma_history_step(ls, i as int);
        }
        let _new = command::line_is_new(lines[i].as_str(), &mut seen);
        i += 1;
    }
    assert(ls.take(i as int) == ls);
    seen
}

/// The line that reports the baseline.
pub fn baseline_line(seen: &Seen) -> (r: String)
    ensures
        r@ == "[dll] command history baselined ("@ + text::dec(seen@.len() as int) + " lines)"@,
{
    let n: usize = seen.len();
    text::cat3(
        "[dll] command history baselined (",
        text::dec_of(n as u64).as_str(),
        " lines)",
    )
}

/// A command to be carried out.
pub struct Command {
    pub line: String,
    pub runid: Option<u64>,
    pub parts: Vec<String>,
}

/// The content of a [`Command`].
pub ghost struct Due {
    pub line: Seq<char>,
    pub parsed: command::Parsed,
}

impl View for Command {
    type V = Due;

    open spec fn view(&self) -> Due {
        Due {
            line: self.line@,
            parsed: command::Parsed { runid: self.runid, words: text::views(self.parts@) },
        }
    }
}

pub open spec fn due_views(v: Seq<Command>) -> Seq<Due> {
    v.map_values(|c: Command| c@)
}

/// Whether a line holds a command that was not carried out yet.
pub open spec fn is_due(line: Seq<char>, seen: Set<Seq<char>>) -> bool {
    command::parsed(text::trim(line)) is Some && command::is_new(text::trim(line), seen)
}

pub open spec fn due_of(line: Seq<char>) -> Due {
    Due { line: text::trim(line), parsed: command::parsed(text::trim(line))->0 }
}

/// The commands to carry out, and what has been seen then. Nothing is carried out
/// after a command to unload.
pub open spec fn due(lines: Seq<Seq<char>>, seen: Set<Seq<char>>) -> (Seq<Due>, Set<Seq<char>>)
    decreases lines.len(),
{
    if lines.len() == 0 {
        (seq![], seen)
    } else if !is_due(lines[0], seen) {
        due(lines.drop_first(), seen_after(lines[0], seen))
    } else if dispatch::is_unload(due_of(lines[0]).parsed.words) {
        (seq![due_of(lines[0])], seen_after(lines[0], seen))
    } else {
        let rest = due(lines.drop_first(), seen_after(lines[0], seen));
        (seq![due_of(lines[0])] + rest.0, rest.1)
    }
}

/// What has been seen once a line of the file was considered. One that does not
/// parse is not remembered.
pub open spec fn seen_after(line: Seq<char>, seen: Set<Seq<char>>) -> Set<Seq<char>> {
    if command::parsed(text::trim(line)) is Some {
        command::seen_with(text::trim(line), seen)
    } else {
        seen
    }
}

/// Takes the commands to carry out from the content of the command file.
pub fn due_commands(content: &str, seen: &mut Seen) -> (r: Vec<Command>)
    ensures
        due_views(r@) == due(text::lines(content@), old(seen)@).0,
        final(seen)@ == due(text::lines(content@), old(seen)@).1,
{
    let v = text::chars_of(content);
    let lines = text::split_lines(v.as_slice());
    let ghost ls = text::views(lines@);
    let ghost want = due(ls, seen@);
    let mut out: Vec<Command> = Vec::new();
    let mut i: usize = 0;
    assert(ls.skip(0) == ls);
    while i < lines.len()
        invariant
            i <= lines.len(),
            ls == text::views(lines@),
            want == due(text::lines(content@), old(seen)@),
            due_views(out@) + due(ls.skip(i as int), seen@).0 == want.0,
            due(ls.skip(i as int), seen@).1 == want.1,
        decreases lines.len() - i,
    {
        let ghost rest = ls.skip(i as int);
        let ghost before = due_views(out@);
        assert(rest[0] == ls[i as int] && ls[i as int] == lines@[i as int]@);
        assert(rest.drop_first() == ls.skip(i + 1));
        let raw = text::chars_of(lines[i].as_str());
        let line = text::string_of(text::trimmed(raw.as_slice()));
        i += 1;
        match command::parse_cmd_line(line.as_str()) {
            Some((runid, parts)) => {
                let fresh = command::line_is_new(line.as_str(), seen);
                if fresh {
                    let stop = dispatch::asks_unload(&parts);
                    let c = Command { line, runid, parts };
                    let ghost cv = c@;
                    assert(cv == due_of(rest[0]));
                    out.push(c);
                    assert(due_views(out@) == before.push(cv));
                    if stop {
                        assert(due_views(out@) == before + seq![cv]);
                        return out;
                    }
                    assert(due_views(out@) + due(rest.drop_first(), seen@).0 == before + (seq![cv]
                        + due(rest.drop_first(), seen@).0));
                }
            },
            None => {},
        }
    }
    assert(ls.skip(i as int).len() == 0);
    assert(due_views(out@) + Seq::<Due>::empty() == due_views(out@));
    out
}

/// No command that was seen before is carried out, and none is carried out twice.
pub proof fn lemma_due_is_fresh(lines: Seq<Seq<char>>, seen: Set<Seq<char>>)
    ensures
        forall|i: int|
            0 <= i < due(lines, seen).0.len() ==> !seen.contains(
                (#[trigger] due(lines, seen).0[i]).line,
            ),
        forall|i: int, j: int|
            0 <= i < j < due(lines, seen).0.len() ==> (#[trigger] due(lines, seen).0[i]).line != (
            #[trigger] due(lines, seen).0[j]).line,
    decreases lines.len(),
{
    if lines.len() > 0 {
        let later = seen_after(lines[0], seen);
        lemma_due_is_fresh(lines.drop_first(), later);
        let rest = due(lines.drop_first(), later).0;
        let all = due(lines, seen).0;
        text::lemma_trim_idempotent(lines[0]);
        if is_due(lines[0], seen) && !dispatch::is_unload(due_of(lines[0]).parsed.words) {
            assert(all == seq![due_of(lines[0])] + rest);
            assert forall|i: int| 0 <= i < all.len() implies !seen.contains(
                (#[trigger] all[i]).line,
            ) by {
                if i > 0 {
                    assert(all[i] == rest[i - 1]);
                }
            }
            assert forall|i: int, j: int| 0 <= i < j < all.len() implies (
            #[trigger] all[i]).line != (#[trigger] all[j]).line by {
                assert(all[j] == rest[j - 1]);
                if i > 0 {
                    assert(all[i] == rest[i - 1]);
                } else {
                    assert(later.contains(all[0].line));
                }
            }
        }
    }
}

/// What the thread does in a round, before it reads the command file.
pub enum Chore {
    InstallGrabHandle,
    DrainTelemetry,
    PollJoinOut,
    InstallTelemetry,
    InstallLeaveOnly,
    /// Wait, in milliseconds.
    Sleep(u64),
}

/// The chores of a round. Without a selector nothing is ever installed.
pub open spec fn round_chores(first: bool, hooks: bool, grab: bool, leave: bool) -> Seq<Chore> {
    (if first && grab {
        seq![Chore::InstallGrabHandle]
    } else {
        seq![]
    }) + seq![Chore::DrainTelemetry, Chore::PollJoinOut] + (if hooks {
        seq![Chore::InstallTelemetry]
    } else if leave {
        seq![Chore::InstallLeaveOnly]
    } else {
        seq![]
    }) + seq![Chore::Sleep(200)]
}

/// Lists the chores of a round.
pub fn round(first: bool, hooks: bool, grab: bool, leave: bool) -> (r: Vec<Chore>)
    ensures
        r@ == round_chores(first, hooks, grab, leave),
{
    let mut v: Vec<Chore> = Vec::new();
    if first && grab {
        v.push(Chore::InstallGrabHandle);
    }
    v.push(Chore::DrainTelemetry);
    v.push(Chore::PollJoinOut);
    if hooks {
        v.push(Chore::InstallTelemetry);
    } else if leave {
        v.push(Chore::InstallLeaveOnly);
    }
    v.push(Chore::Sleep(200));
    assert(v@ == round_chores(first, hooks, grab, leave));
    v
}

/// What is done when the library is loaded.
pub enum Step {
    Say(String),
    InitSdk,
    InstallGrabHandle,
    InstallLobbyHooks(bool),
    StartThread,
}

/// The content of a [`Step`].
pub ghost enum Move {
    Say(Seq<char>),
    InitSdk,
    InstallGrabHandle,
    InstallLobbyHooks(bool),
    StartThread,
}

impl View for Step {
    type V = Move;

    open spec fn view(&self) -> Move {
        match self {
            Step::Say(s) => Move::Say(s@),
            Step::InitSdk => Move::InitSdk,
            Step::InstallGrabHandle => Move::InstallGrabHandle,
            Step::InstallLobbyHooks(b) => Move::InstallLobbyHooks(*b),
            Step::StartThread => Move::StartThread,
        }
    }
}

pub open spec fn moves(v: Seq<Step>) -> Seq<Move> {
    v.map_values(|s: Step| s@)
}

/// The line that reports the switches.
pub open spec fn diag_line(f: (bool, bool, bool, bool, bool)) -> Seq<char> {
    "[dll] diag: hooks="@ + text::of_bool(f.0) + " grab="@ + text::of_bool(f.1) + " leave="@
        + text::of_bool(f.2) + " no_telemetry="@ + text::of_bool(f.3) + " no_join="@
        + text::of_bool(f.4)
}

/// The switches of a file that may be missing.
pub open spec fn flags_of(diag_file: Option<Seq<char>>) -> (bool, bool, bool, bool, bool) {
    match diag_file {
        Some(c) => diag::diag_flags(c),
        None => (false, false, false, false, false),
    }
}

/// What follows the report of the switches.
pub open spec fn after_diag(f: (bool, bool, bool, bool, bool)) -> Seq<Move> {
    if f.0 {
        seq![Move::InstallGrabHandle, Move::InstallLobbyHooks(f.4)]
    } else if f.1 || f.2 {
        seq![Move::Say("[dll] deferred install to first cmd update (grab/leave selector)"@)]
    } else {
        seq![Move::Say("[dll] S0 load-only: zero game/PlayFab hooks installed"@)]
    }
}

/// What is done for a reason of the loader: all of it when the library is attached
/// to a process, nothing else.
pub open spec fn loading(reason: u32, f: (bool, bool, bool, bool, bool)) -> Seq<Move> {
    if reason != 1 {
        seq![]
    } else {
        seq![Move::Say("[dll] attached"@), Move::InitSdk, Move::Say(diag_line(f))] + after_diag(f)
            + seq![Move::StartThread]
    }
}

fn push(v: &mut Vec<Step>, s: Step)
    ensures
        moves(final(v)@) == moves(old(v)@).push(s@),
{
    let ghost before = moves(v@);
    let ghost m = s@;
    v.push(s);
    assert(moves(v@) == before.push(m));
}

/// Lists what is done when the loader calls, and reads the switches.
pub fn dll_main(reason: u32, diag_file: Option<String>) -> (r: (
    (bool, bool, bool, bool, bool),
    Vec<Step>,
))
    ensures
        r.0 == flags_of(crate::json::opt_text(diag_file)),
        moves(r.1@) == loading(reason, r.0),
{
    let f = match &diag_file {
        Some(s) => diag::parse_diag_flags(s.as_str()),
        None => (false, false, false, false, false),
    };
    let mut v: Vec<Step> = Vec::new();
    assert(moves(v@) == Seq::<Move>::empty());
    if reason == 1 {
        push(&mut v, Step::Say(text::text_of("[dll] attached")));
        push(&mut v, Step::InitSdk);
        let mut s = text::cat2("[dll] diag: hooks=", text::bool_text(f.0).as_str());
        s.append(" grab=");
        s.append(text::bool_text(f.1).as_str());
        s.append(" leave=");
        s.append(text::bool_text(f.2).as_str());
        s.append(" no_telemetry=");
        s.append(text::bool_text(f.3).as_str());
        s.append(" no_join=");
        s.append(text::bool_text(f.4).as_str());
        push(&mut v, Step::Say(s));
        if f.0 {
            push(&mut v, Step::InstallGrabHandle);
            push(&mut v, Step::InstallLobbyHooks(f.4));
        } else if f.1 || f.2 {
            push(
                &mut v,
                Step::Say(
                    text::text_of(
                        "[dll] deferred install to first cmd update (grab/leave selector)",
                    ),
                ),
            );
        } else {
            push(
                &mut v,
                Step::Say(
                    text::text_of("[dll] S0 load-only: zero game/PlayFab hooks installed"),
                ),
            );
        }
        push(&mut v, Step::StartThread);
    }
    assert(moves(v@) == loading(reason, f));
    (f, v)
}

/// Without a selector, nothing is installed when the library is loaded, nor in any
/// round of the thread.
pub proof fn lemma_load_only_installs_nothing(
    reason: u32,
    no_telemetry: bool,
    no_join: bool,
    first: bool,
)
    ensures
        ({
            let p = loading(reason, (false, false, false, no_telemetry, no_join));
            forall|i: int|
                0 <= i < p.len() ==> !(#[trigger] p[i] is InstallGrabHandle) && !(
                p[i] is InstallLobbyHooks)
        }),
        ({
            let c = round_chores(first, false, false, false);
            forall|i: int|
                0 <= i < c.len() ==> !(#[trigger] c[i] is InstallGrabHandle) && !(
                c[i] is InstallTelemetry) && !(c[i] is InstallLeaveOnly)
        }),
{
}

/// A library that was just loaded carries out no line that stood in the command
/// file before.
pub proof fn lemma_history_not_replayed(
    existing: Seq<Seq<char>>,
    lines: Seq<Seq<char>>,
    i: int,
    k: int,
)
    requires
        0 <= i < due(lines, history(existing)).0.len(),
        0 <= k < existing.len(),
    ensures
        due(lines, history(existing)).0[i].line != text::trim(existing[k]),
{
    let seen = history(existing);
    lemma_due_is_fresh(lines, seen);
    lemma_due_not_blank(lines, seen);
    let d = due(lines, seen).0[i];
    assert(!seen.contains(d.line) && d.line.len() != 0);
    if d.line == text::trim(existing[k]) {
        assert(seen.contains(d.line));
    }
}

proof fn lemma_due_not_blank(lines: Seq<Seq<char>>, seen: Set<Seq<char>>)
    ensures
        forall|i: int|
            0 <= i < due(lines, seen).0.len() ==> (#[trigger] due(lines, seen).0[i]).line.len()
                != 0,
    decreases lines.len(),
{
    if lines.len() > 0 {
        let later = seen_after(lines[0], seen);
        lemma_due_not_blank(lines.drop_first(), later);
        text::lemma_trim_idempotent(lines[0]);
        let rest = due(lines.drop_first(), later).0;
        let all = due(lines, seen).0;
        if is_due(lines[0], seen) && !dispatch::is_unload(due_of(lines[0]).parsed.words) {
            assert forall|i: int| 0 <= i < all.len() implies (#[trigger] all[i]).line.len()
                != 0 by {
                if i > 0 {
                    assert(all[i] == rest[i - 1]);
                }
            }
        }
    }
}

/// Whether reading these lines ends in a command to unload.
pub open spec fn unloads(lines: Seq<Seq<char>>, seen: Set<Seq<char>>) -> bool {
    let d = due(lines, seen).0;
    d.len() > 0 && dispatch::is_unload(d.last().parsed.words)
}

/// Reading the same lines again carries out nothing.
pub proof fn lemma_read_again(lines: Seq<Seq<char>>, seen: Set<Seq<char>>, later: Set<Seq<char>>)
    requires
        !unloads(lines, seen),
        due(lines, seen).1.subset_of(later),
    ensures
        due(lines, later).0.len() == 0,
        due(lines, later).1 == later,
        seen.subset_of(due(lines, seen).1),
    decreases lines.len(),
{
    if lines.len() > 0 {
        let s = seen_after(lines[0], seen);
        let rest = due(lines.drop_first(), s);
        text::lemma_trim_idempotent(lines[0]);
        let all = due(lines, seen);
        if is_due(lines[0], seen) {
            assert(!dispatch::is_unload(due_of(lines[0]).parsed.words)) by {
                if dispatch::is_unload(due_of(lines[0]).parsed.words) {
                    assert(all.0.last() == due_of(lines[0]));
                }
            }
            assert(all.0 == seq![due_of(lines[0])] + rest.0);
            if rest.0.len() > 0 {
                assert(all.0.last() == rest.0.last());
            }
        }
        lemma_read_again(lines.drop_first(), s, later);
        assert(seen_after(lines[0], later) == later) by {
            if command::parsed(text::trim(lines[0])) is Some && text::trim(lines[0]).len() != 0 {
                assert(s.contains(text::trim(lines[0])));
                assert(later.contains(text::trim(lines[0])));
                assert(later.insert(text::trim(lines[0])) == later);
            }
        }
        assert(!is_due(lines[0], later));
    }
}

proof fn lemma_due_kept(lines: Seq<Seq<char>>, seen: Set<Seq<char>>)
    ensures
        seen.subset_of(due(lines, seen).1),
        forall|i: int|
            0 <= i < due(lines, seen).0.len() ==> due(lines, seen).1.contains(
                (#[trigger] due(lines, seen).0[i]).line,
            ),
    decreases lines.len(),
{
    if lines.len() > 0 {
        let later = seen_after(lines[0], seen);
        lemma_due_kept(lines.drop_first(), later);
        text::lemma_trim_idempotent(lines[0]);
        let rest = due(lines.drop_first(), later);
        let all = due(lines, seen);
        assert(seen.subset_of(later));
        if is_due(lines[0], seen) {
            assert(later.contains(due_of(lines[0]).line));
            assert forall|i: int| 0 <= i < all.0.len() implies all.1.contains(
                (#[trigger] all.0[i]).line,
            ) by {
                if i > 0 {
                    assert(all.0[i] == rest.0[i - 1]);
                }
            }
        }
    }
}

/// Once the history was taken in, no line of it is carried out, whatever else has been
/// seen since and whatever the command file holds.
pub proof fn lemma_history_never_replayed(
    existing: Seq<Seq<char>>,
    seen: Set<Seq<char>>,
    lines: Seq<Seq<char>>,
    i: int,
    k: int,
)
    requires
        history(existing).subset_of(seen),
        0 <= i < due(lines, seen).0.len(),
        0 <= k < existing.len(),
    ensures
        due(lines, seen).0[i].line != text::trim(existing[k]),
{
    lemma_due_is_fresh(lines, seen);
    lemma_due_not_blank(lines, seen);
    let d = due(lines, seen).0[i];
    if d.line == text::trim(existing[k]) {
        assert(history(existing).contains(d.line));
    }
}

/// What has been seen after some reads of the command file, each given by its lines.
pub open spec fn seen_through(reads: Seq<Seq<Seq<char>>>, seen: Set<Seq<char>>) -> Set<Seq<char>>
    decreases reads.len(),
{
    if reads.len() == 0 {
        seen
    } else {
        due(reads.last(), seen_through(reads.drop_last(), seen)).1
    }
}

/// The commands that the read with number `n` brings.
pub open spec fn due_at(reads: Seq<Seq<Seq<char>>>, seen: Set<Seq<char>>, n: int) -> Seq<Due> {
    due(reads[n], seen_through(reads.take(n), seen)).0
}

proof fn lemma_seen_grows(reads: Seq<Seq<Seq<char>>>, seen: Set<Seq<char>>, m: int, n: int)
    requires
        0 <= m <= n <= reads.len(),
    ensures
        seen_through(reads.take(m), seen).subset_of(seen_through(reads.take(n), seen)),
    decreases n - m,
{
    if m < n {
        lemma_seen_grows(reads, seen, m, n - 1);
        let r = reads.take(n);
        assert(r.drop_last() == reads.take(n - 1));
        lemma_due_kept(r.last(), seen_through(reads.take(n - 1), seen));
    }
}

/// Over all reads of the command file, in whatever state it is found, a thread that
/// began with the history of the file never carries out a line of that history.
pub proof fn lemma_thread_never_replays(
    existing: Seq<Seq<char>>,
    reads: Seq<Seq<Seq<char>>>,
    n: int,
    i: int,
    k: int,
)
    requires
        0 <= n < reads.len(),
        0 <= i < due_at(reads, history(existing), n).len(),
        0 <= k < existing.len(),
    ensures
        due_at(reads, history(existing), n)[i].line != text::trim(existing[k]),
{
    let seen = history(existing);
    lemma_seen_grows(reads, seen, 0, n);
    assert(reads.take(0).len() == 0);
    lemma_history_never_replayed(existing, seen_through(reads.take(n), seen), reads[n], i, k);
}

/// Over all reads of the command file, no line is carried out twice.
pub proof fn lemma_thread_carries_out_once(
    reads: Seq<Seq<Seq<char>>>,
    seen: Set<Seq<char>>,
    m: int,
    i: int,
    n: int,
    j: int,
)
    requires
        0 <= m <= n < reads.len(),
        m == n ==> i < j,
        0 <= i < due_at(reads, seen, m).len(),
        0 <= j < due_at(reads, seen, n).len(),
    ensures
        due_at(reads, seen, m)[i].line != due_at(reads, seen, n)[j].line,
{
    lemma_due_is_fresh(reads[n], seen_through(reads.take(n), seen));
    if m < n {
        let r = reads.take(m + 1);
        assert(r.drop_last() == reads.take(m));
        assert(r.last() == reads[m]);
        lemma_due_kept(reads[m], seen_through(reads.take(m), seen));
        assert(seen_through(r, seen).contains(due_at(reads, seen, m)[i].line));
        lemma_seen_grows(reads, seen, m + 1, n);
    }
}

/// A command that was not seen yet is carried out, unless a command to unload comes
/// before it.
pub proof fn lemma_new_line_is_due(lines: Seq<Seq<char>>, seen: Set<Seq<char>>, k: int)
    requires
        0 <= k < lines.len(),
        is_due(lines[k], seen),
        !unloads(lines, seen),
    ensures
        exists|i: int|
            0 <= i < due(lines, seen).0.len() && (#[trigger] due(lines, seen).0[i]).line
                == text::trim(lines[k]),
    decreases lines.len(),
{
    let later = seen_after(lines[0], seen);
    let tail = lines.drop_first();
    let rest = due(tail, later).0;
    let all = due(lines, seen).0;
    text::lemma_trim_idempotent(lines[0]);
    text::lemma_trim_idempotent(lines[k]);
    if is_due(lines[0], seen) {
        if dispatch::is_unload(due_of(lines[0]).parsed.words) {
            assert(all.last() == due_of(lines[0]));
        }
        assert(all == seq![due_of(lines[0])] + rest);
        assert(rest.len() > 0 ==> all.last() == rest.last());
    } else {
        assert(all == rest);
    }
    if is_due(lines[0], seen) && text::trim(lines[0]) == text::trim(lines[k]) {
        assert(all[0].line == text::trim(lines[k]));
    } else {
        assert(k > 0);
        assert(tail[k - 1] == lines[k]);
        assert(text::trim(lines[0]) != text::trim(lines[k]));
        lemma_new_line_is_due(tail, later, k - 1);
        let i = choose|i: int| 0 <= i < rest.len() && (#[trigger] rest[i]).line == text::trim(
            lines[k],
        );
        if is_due(lines[0], seen) {
            assert(all[i + 1] == rest[i]);
        } else {
            assert(all[i] == rest[i]);
        }
    }
}

/// The first place at which a line stands, white space around it aside.
pub open spec fn first_place(lines: Seq<Seq<char>>, line: Seq<char>) -> int
    decreases lines.len(),
{
    if lines.len() == 0 || text::trim(lines[0]) == line {
        0
    } else {
        1 + first_place(lines.drop_first(), line)
    }
}

proof fn lemma_due_parsed(lines: Seq<Seq<char>>, seen: Set<Seq<char>>)
    ensures
        forall|i: int|
            0 <= i < due(lines, seen).0.len() ==> command::parsed(
                (#[trigger] due(lines, seen).0[i]).line,
            ) is Some,
    decreases lines.len(),
{
    if lines.len() > 0 {
        let later = seen_after(lines[0], seen);
        lemma_due_parsed(lines.drop_first(), later);
        let rest = due(lines.drop_first(), later).0;
        let all = due(lines, seen).0;
        if is_due(lines[0], seen) && !dispatch::is_unload(due_of(lines[0]).parsed.words) {
            assert forall|i: int| 0 <= i < all.len() implies command::parsed(
                (#[trigger] all[i]).line,
            ) is Some by {
                if i > 0 {
                    assert(all[i] == rest[i - 1]);
                }
            }
        }
    }
}

/// Commands are carried out in the order in which their lines first stand in the file.
pub proof fn lemma_due_in_file_order(lines: Seq<Seq<char>>, seen: Set<Seq<char>>)
    ensures
        forall|i: int, j: int|
            0 <= i < j < due(lines, seen).0.len() ==> first_place(
                lines,
                (#[trigger] due(lines, seen).0[i]).line,
            ) < first_place(lines, (#[trigger] due(lines, seen).0[j]).line),
        forall|i: int|
            0 <= i < due(lines, seen).0.len() ==> 0 <= first_place(
                lines,
                (#[trigger] due(lines, seen).0[i]).line,
            ) < lines.len(),
    decreases lines.len(),
{
    if lines.len() > 0 {
        let later = seen_after(lines[0], seen);
        let tail = lines.drop_first();
        let rest = due(tail, later).0;
        let all = due(lines, seen).0;
        let head = text::trim(lines[0]);
        lemma_due_in_file_order(tail, later);
        lemma_due_is_fresh(tail, later);
        lemma_due_not_blank(tail, later);
        lemma_due_parsed(tail, later);
        text::lemma_trim_idempotent(lines[0]);
        assert forall|i: int| 0 <= i < rest.len() implies first_place(
            lines,
            (#[trigger] rest[i]).line,
        ) == 1 + first_place(tail, rest[i].line) by {
            assert(rest[i].line != head);
        }
        if is_due(lines[0], seen) && !dispatch::is_unload(due_of(lines[0]).parsed.words) {
            assert(all == seq![due_of(lines[0])] + rest);
            assert(first_place(lines, all[0].line) == 0);
            assert forall|i: int| 0 < i < all.len() implies #[trigger] all[i] == rest[i - 1] by {}
        }
    }
}

/// Nothing is carried out after a command to unload: only the last command can be one.
pub proof fn lemma_nothing_after_unload(lines: Seq<Seq<char>>, seen: Set<Seq<char>>)
    ensures
        forall|i: int|
            0 <= i < due(lines, seen).0.len() - 1 ==> !dispatch::is_unload(
                (#[trigger] due(lines, seen).0[i]).parsed.words,
            ),
    decreases lines.len(),
{
    if lines.len() > 0 {
        let later = seen_after(lines[0], seen);
        lemma_nothing_after_unload(lines.drop_first(), later);
        let rest = due(lines.drop_first(), later).0;
        let all = due(lines, seen).0;
        if is_due(lines[0], seen) && !dispatch::is_unload(due_of(lines[0]).parsed.words) {
            assert forall|i: int| 0 <= i < all.len() - 1 implies !dispatch::is_unload(
                (#[trigger] all[i]).parsed.words,
            ) by {
                if i > 0 {
                    assert(all[i] == rest[i - 1]);
                }
            }
        }
    }
}

/// What is due stands in the file: each command is the line without the white space
/// round it, with the number and the words of that line.
pub proof fn lemma_due_stands_in_file(lines: Seq<Seq<char>>, seen: Set<Seq<char>>, i: int)
    requires
        0 <= i < due(lines, seen).0.len(),
    ensures
        exists|k: int|
            0 <= k < lines.len() && text::trim(#[trigger] lines[k]) == due(lines, seen).0[i].line
                && command::parsed(text::trim(lines[k])) == Some(due(lines, seen).0[i].parsed),
    decreases lines.len(),
{
    let later = seen_after(lines[0], seen);
    let rest = lines.drop_first();
    let all = due(lines, seen).0;
    if is_due(lines[0], seen) && i == 0 {
        assert(all[0] == due_of(lines[0]));
    } else {
        let j = if is_due(lines[0], seen) {
            i - 1
        } else {
            i
        };
        assert(all[i] == due(rest, later).0[j]);
        lemma_due_stands_in_file(rest, later, j);
        let k = choose|k: int|
            0 <= k < rest.len() && text::trim(#[trigger] rest[k]) == due(rest, later).0[j].line
                && command::parsed(text::trim(rest[k])) == Some(due(rest, later).0[j].parsed);
        assert(lines[k + 1] == rest[k]);
    }
}

/// Every new line is carried out: where no line of the file asks to unload, each one that
/// says something, and was not seen, is due.
pub proof fn lemma_no_new_line_is_skipped(lines: Seq<Seq<char>>, seen: Set<Seq<char>>, k: int)
    requires
        0 <= k < lines.len(),
        command::parsed(text::trim(lines[k])) is Some,
        text::trim(lines[k]).len() > 0,
        !seen.contains(text::trim(lines[k])),
        forall|j: int|
            0 <= j < lines.len() ==> {
                let p = command::parsed(text::trim(#[trigger] lines[j]));
                p is Some && p->0.words.len() > 0 ==> p->0.words[0] != "unload"@
            },
    ensures
        exists|i: int|
            0 <= i < due(lines, seen).0.len() && (#[trigger] due(lines, seen).0[i]).line
                == text::trim(lines[k]) && Some(due(lines, seen).0[i].parsed) == command::parsed(
                text::trim(lines[k]),
            ),
{
    text::lemma_trim_idempotent(lines[k]);
    let d = due(lines, seen).0;
    if unloads(lines, seen) {
        lemma_due_stands_in_file(lines, seen, d.len() - 1);
        let j = choose|j: int|
            0 <= j < lines.len() && text::trim(#[trigger] lines[j]) == d[d.len() - 1].line
                && command::parsed(text::trim(lines[j])) == Some(d[d.len() - 1].parsed);
        assert(lines[j] == lines[j]);
        assert(false);
    }
    lemma_new_line_is_due(lines, seen, k);
    let i = choose|i: int|
        0 <= i < due(lines, seen).0.len() && (#[trigger] due(lines, seen).0[i]).line == text::trim(
            lines[k],
        );
    lemma_due_stands_in_file(lines, seen, i);
    assert(d[i].line == text::trim(lines[k]));
}

/// What was carried out is remembered, and so is all that was remembered before.
pub proof fn lemma_carried_out_is_seen(
    lines: Seq<Seq<char>>,
    seen: Set<Seq<char>>,
    i: int,
    l: Seq<char>,
)
    requires
        0 <= i < due(lines, seen).0.len(),
    ensures
        due(lines, seen).1.contains(due(lines, seen).0[i].line),
        seen.contains(l) ==> due(lines, seen).1.contains(l),
{
    lemma_due_kept(lines, seen);
    assert(due(lines, seen).1.contains(due(lines, seen).0[i].line));
}

/// The history is every line of the file that is not blank, without the white space round
/// it, and nothing else.
pub proof fn lemma_history_is_the_file(lines: Seq<Seq<char>>, k: int, l: Seq<char>)
    requires
        0 <= k < lines.len(),
    ensures
        text::trim(lines[k]).len() > 0 ==> history(lines).contains(text::trim(lines[k])),
        history(lines).contains(l) ==> l.len() > 0 && exists|i: int|
            0 <= i < lines.len() && text::trim(#[trigger] lines[i]) == l,
{
    assert(text::trim(lines[k]) == text::trim(lines[k]));
}

/// Each round drains the telemetry and polls for a joined lobby, once each and in that
/// order, and ends with a wait of 200 milliseconds. The handle is grabbed in the first
/// round where that was asked for; telemetry is installed where hooks were, and only the
/// hook on leaving where that alone was.
pub proof fn lemma_round(first: bool, hooks: bool, grab: bool, leave: bool)
    ensures
        ({
            let c = round_chores(first, hooks, grab, leave);
            &&& c.contains(Chore::InstallGrabHandle) <==> first && grab
            &&& c.contains(Chore::InstallTelemetry) <==> hooks
            &&& c.contains(Chore::InstallLeaveOnly) <==> leave && !hooks
            &&& c.last() == Chore::Sleep(200)
            &&& forall|ms: u64| #[trigger] c.contains(Chore::Sleep(ms)) ==> ms == 200
            &&& c.contains(Chore::DrainTelemetry)
            &&& c.contains(Chore::PollJoinOut)
            &&& c.index_of(Chore::DrainTelemetry) < c.index_of(Chore::PollJoinOut)
            &&& first && grab ==> c[0] == Chore::InstallGrabHandle
            &&& c.no_duplicates()
        }),
{
    let c = round_chores(first, hooks, grab, leave);
    let n: int = if first && grab {
        1
    } else {
        0
    };
    if first && grab {
        assert(c[0] == Chore::InstallGrabHandle);
    }
    assert(c[n] == Chore::DrainTelemetry);
    assert(c[n + 1] == Chore::PollJoinOut);
    if hooks {
        assert(c[n + 2] == Chore::InstallTelemetry);
        assert(c.len() == n + 4);
    } else if leave {
        assert(c[n + 2] == Chore::InstallLeaveOnly);
        assert(c.len() == n + 4);
    } else {
        assert(c.len() == n + 3);
    }
    assert(c[c.len() - 1] == Chore::Sleep(200));
}

/// Only being attached to a process sets something going: the functions are looked up
/// first, the thread is started last, and in between the handle is grabbed and the lobby
/// hooked exactly where `hooks` was asked for, with the hooks on joining unless `no_join`
/// was.
pub proof fn lemma_loading(reason: u32, f: (bool, bool, bool, bool, bool), b: bool)
    ensures
        reason != 1 ==> loading(reason, f).len() == 0,
        ({
            let p = loading(1, f);
            &&& p.last() == Move::StartThread
            &&& p.contains(Move::InitSdk)
            &&& p.contains(Move::InstallGrabHandle) <==> f.0
            &&& p.contains(Move::InstallLobbyHooks(b)) <==> f.0 && b == f.4
            &&& f.0 ==> p.index_of(Move::InitSdk) < p.index_of(Move::InstallGrabHandle)
                < p.index_of(Move::InstallLobbyHooks(f.4))
            &&& p.contains(Move::Say("[dll] S0 load-only: zero game/PlayFab hooks installed"@))
                <==> !f.0 && !f.1 && !f.2
        }),
{
    let p = loading(1, f);
    reveal_strlit("[dll] S0 load-only: zero game/PlayFab hooks installed");
    reveal_strlit("[dll] deferred install to first cmd update (grab/leave selector)");
    reveal_strlit("[dll] attached");
    reveal_strlit("[dll] diag: hooks=");
    let z = "[dll] S0 load-only: zero game/PlayFab hooks installed"@;
    let d = "[dll] deferred install to first cmd update (grab/leave selector)"@;
    assert(z[6] == 'S' && d[6] == 'd');
    assert(diag_line(f)[6] == 'd');
    assert("[dll] attached"@[6] == 'a');
    assert(p[0] == Move::Say("[dll] attached"@));
    assert(p[1] == Move::InitSdk);
    assert(p[2] == Move::Say(diag_line(f)));
    assert(p[p.len() - 1] == Move::StartThread);
    if f.0 {
        assert(p[3] == Move::InstallGrabHandle);
        assert(p[4] == Move::InstallLobbyHooks(f.4));
        assert(p.len() == 6);
    } else {
        assert(p.len() == 5);
        if f.1 || f.2 {
            assert(p[3] == Move::Say(d));
        } else {
            assert(p[3] == Move::Say(z));
        }
    }
}

/// The line on the state tells each value under its own name, in hexadecimal.
pub proof fn lemma_state_line_tells(
    m: Seq<char>,
    sdk: int,
    handle: int,
    lobby: int,
    myid: int,
    antikick: bool,
)
    ensures
        ({
            let s = state_line(m, sdk, handle, lobby, myid, antikick);
            &&& text::contains(s, " sdk=0x"@ + text::numeral(sdk, 16, true) + " "@)
            &&& text::contains(s, " handle=0x"@ + text::numeral(handle, 16, true) + " "@)
            &&& text::contains(s, " lobby=0x"@ + text::numeral(lobby, 16, true) + " "@)
            &&& text::contains(s, " myid=0x"@ + text::numeral(myid, 16, true) + " "@)
            &&& s.skip(s.len() - 14) == "antikick=false"@ <==> !antikick
            &&& s.skip(s.len() - 13) == "antikick=true"@ <==> antikick
        }),
{
    let s = state_line(m, sdk, handle, lobby, myid, antikick);
    let a = text::numeral(sdk, 16, true);
    let b = text::numeral(handle, 16, true);
    let c = text::numeral(lobby, 16, true);
    let d = text::numeral(myid, 16, true);
    let e = text::of_bool(antikick);
    let head = "["@ + m + "] "@;
    let p0 = head + "STATE"@;
    let t5 = Seq::<char>::empty();
    let t4 = " antikick="@ + (e + t5);
    let t3 = " myid=0x"@ + (d + t4);
    let t2 = " lobby=0x"@ + (c + t3);
    let t1 = " handle=0x"@ + (b + t2);
    let t0 = " sdk=0x"@ + (a + t1);
    let q1 = "STATE sdk=0x"@ + a;
    let q2 = q1 + " handle=0x"@ + b;
    let q3 = q2 + " lobby=0x"@ + c;
    let q4 = q3 + " myid=0x"@ + d;
    let q5 = q4 + " antikick="@ + e;
    assert(s == head + q5);
    assert(q5 =~= q5 + t5);
    text::lemma_regroup(q4, " antikick="@, e, t5);
    text::lemma_regroup(q3, " myid=0x"@, d, t4);
    text::lemma_regroup(q2, " lobby=0x"@, c, t3);
    text::lemma_regroup(q1, " handle=0x"@, b, t2);
    lemma_state_head(head, a, t1);
    assert(s == p0 + t0);
    let p1 = p0 + " sdk=0x"@ + a;
    let p2 = p1 + " handle=0x"@ + b;
    let p3 = p2 + " lobby=0x"@ + c;
    let p4 = p3 + " myid=0x"@ + d;
    text::lemma_regroup(p0, " sdk=0x"@, a, t1);
    text::lemma_regroup(p1, " handle=0x"@, b, t2);
    text::lemma_regroup(p2, " lobby=0x"@, c, t3);
    text::lemma_regroup(p3, " myid=0x"@, d, t4);
    reveal_strlit(" handle=0x");
    reveal_strlit(" lobby=0x");
    reveal_strlit(" myid=0x");
    reveal_strlit(" antikick=");
    text::lemma_told(s, p0, " sdk=0x"@, a, t1);
    text::lemma_told(s, p1, " handle=0x"@, b, t2);
    text::lemma_told(s, p2, " lobby=0x"@, c, t3);
    text::lemma_told(s, p3, " myid=0x"@, d, t4);
    lemma_state_tail(s, p4, antikick);
}

proof fn lemma_state_head(head: Seq<char>, a: Seq<char>, rest: Seq<char>)
    ensures
        head + ("STATE sdk=0x"@ + a + rest) == (head + "STATE"@) + (" sdk=0x"@ + (a + rest)),
{
    reveal_strlit("STATE sdk=0x");
    reveal_strlit("STATE");
    reveal_strlit(" sdk=0x");
    assert("STATE sdk=0x"@ =~= "STATE"@ + " sdk=0x"@);
    assert(head + ("STATE sdk=0x"@ + a + rest) =~= (head + "STATE"@) + (" sdk=0x"@ + (a + rest)));
}

proof fn lemma_state_tail(s: Seq<char>, before: Seq<char>, antikick: bool)
    requires
        s == before + (" antikick="@ + (text::of_bool(antikick) + Seq::<char>::empty())),
    ensures
        s.skip(s.len() - 14) == "antikick=false"@ <==> !antikick,
        s.skip(s.len() - 13) == "antikick=true"@ <==> antikick,
{
    reveal_strlit(" antikick=");
    reveal_strlit("antikick=false");
    reveal_strlit("antikick=true");
    reveal_strlit("true");
    reveal_strlit("false");
    if antikick {
        assert(s.skip(s.len() - 13) =~= "antikick=true"@);
        assert(s.skip(s.len() - 14)[0] == ' ');
        assert("antikick=false"@[0] == 'a');
    } else {
        assert(s.skip(s.len() - 14) =~= "antikick=false"@);
        assert(s.skip(s.len() - 13)[0] == 'n');
        assert("antikick=true"@[0] == 'a');
    }
}

/// The line on the switches tells each under its own name; without a file none is set.
pub proof fn lemma_switches_are_told(f: (bool, bool, bool, bool, bool))
    ensures
        ({
            let s = diag_line(f);
            let of = |b: bool|
                if b {
                    "true"@
                } else {
                    "false"@
                };
            &&& text::contains(s, " hooks="@ + of(f.0) + " "@)
            &&& text::contains(s, " grab="@ + of(f.1) + " "@)
            &&& text::contains(s, " leave="@ + of(f.2) + " "@)
            &&& text::contains(s, " no_telemetry="@ + of(f.3) + " "@)
            &&& text::contains(s, " no_join="@ + of(f.4))
        }),
        flags_of(None) == (false, false, false, false, false),
{
    let s = diag_line(f);
    let a = text::of_bool(f.0);
    let b = text::of_bool(f.1);
    let c = text::of_bool(f.2);
    let d = text::of_bool(f.3);
    let e = text::of_bool(f.4);
    reveal_strlit("[dll] diag: hooks=");
    reveal_strlit("[dll] diag:");
    reveal_strlit(" hooks=");
    reveal_strlit(" grab=");
    reveal_strlit(" leave=");
    reveal_strlit(" no_telemetry=");
    reveal_strlit(" no_join=");
    let p0 = "[dll] diag:"@;
    assert("[dll] diag: hooks="@ =~= p0 + " hooks="@);
    let p1 = p0 + " hooks="@ + a;
    let p2 = p1 + " grab="@ + b;
    let p3 = p2 + " leave="@ + c;
    let p4 = p3 + " no_telemetry="@ + d;
    let none = Seq::<char>::empty();
    let t4 = " no_join="@ + (e + none);
    let t3 = " no_telemetry="@ + (d + t4);
    let t2 = " leave="@ + (c + t3);
    let t1 = " grab="@ + (b + t2);
    assert(s == p4 + " no_join="@ + e);
    assert(s =~= s + none);
    text::lemma_regroup(p4, " no_join="@, e, none);
    text::lemma_regroup(p3, " no_telemetry="@, d, t4);
    text::lemma_regroup(p2, " leave="@, c, t3);
    text::lemma_regroup(p1, " grab="@, b, t2);
    text::lemma_regroup(p0, " hooks="@, a, t1);
    text::lemma_told(s, p0, " hooks="@, a, t1);
    text::lemma_told(s, p1, " grab="@, b, t2);
    text::lemma_told(s, p2, " leave="@, c, t3);
    text::lemma_told(s, p3, " no_telemetry="@, d, t4);
    assert(s =~= p4 + (" no_join="@ + e) + none);
    text::lemma_occurs_between(p4, " no_join="@ + e, none);
}

/// A step is what it says: each stands for the move of its own name, with the same content;
/// and a command for its line, its number and its words.
pub proof fn lemma_steps_are_moves(b: bool, s: String, v: Seq<Step>, c: Seq<Command>, i: int)
    ensures
        Step::Say(s)@ == Move::Say(s@),
        Step::InitSdk@ == Move::InitSdk,
        Step::InstallGrabHandle@ == Move::InstallGrabHandle,
        Step::InstallLobbyHooks(b)@ == Move::InstallLobbyHooks(b),
        Step::StartThread@ == Move::StartThread,
        moves(v).len() == v.len(),
        0 <= i < v.len() ==> moves(v)[i] == v[i]@,
        due_views(c).len() == c.len(),
        0 <= i < c.len() ==> due_views(c)[i].line == c[i].line@ && due_views(c)[i].parsed.runid
            == c[i].runid && due_views(c)[i].parsed.words == text::views(c[i].parts@),
{
}

} // verus!
