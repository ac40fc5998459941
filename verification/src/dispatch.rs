//! What each command sets going.
//!
//! A command becomes a list of acts, which the caller performs in order. What some
//! acts report depends on the state at that time; the functions that word those
//! reports stand in [`crate::worker`].
use vstd::prelude::*;

use crate::command;
use crate::text;

verus! {

/// Something to be done.
pub enum Act {
    /// Write a line to the log.
    Say(String),
    Scan,
    Kick(String),
    SetKickcfgExperimental(bool),
    SetAntikickExperimental(bool),
    NativeGuardOn,
    NativeGuardUninstall,
    /// Keep this as the player's own id.
    SetMyId(String),
    SetAntikick(bool),
    InstallAntikick,
    EnableAntikick(bool),
    CheckHandle,
    /// Say what [`crate::worker::state_lines`] gives.
    ReportState,
    UnhookKick,
    UnhookAntikick,
    UnhookGrab,
    UnhookTelemetry,
    /// Say what [`crate::worker::outstanding_line`] gives.
    ReportOutstanding,
    /// Free the library and end the thread.
    FreeLibrary,
}

/// The content of an [`Act`].
pub ghost enum Deed {
    Say(Seq<char>),
    Scan,
    Kick(Seq<char>),
    SetKickcfgExperimental(bool),
    SetAntikickExperimental(bool),
    NativeGuardOn,
    NativeGuardUninstall,
    SetMyId(Seq<char>),
    SetAntikick(bool),
    InstallAntikick,
    EnableAntikick(bool),
    CheckHandle,
    ReportState,
    UnhookKick,
    UnhookAntikick,
    UnhookGrab,
    UnhookTelemetry,
    ReportOutstanding,
    FreeLibrary,
}

impl View for Act {
    type V = Deed;

    open spec fn view(&self) -> Deed {
        match self {
            Act::Say(s) => Deed::Say(s@),
            Act::Scan => Deed::Scan,
            Act::Kick(s) => Deed::Kick(s@),
            Act::SetKickcfgExperimental(b) => Deed::SetKickcfgExperimental(*b),
            Act::SetAntikickExperimental(b) => Deed::SetAntikickExperimental(*b),
            Act::NativeGuardOn => Deed::NativeGuardOn,
            Act::NativeGuardUninstall => Deed::NativeGuardUninstall,
            Act::SetMyId(s) => Deed::SetMyId(s@),
            Act::SetAntikick(b) => Deed::SetAntikick(*b),
            Act::InstallAntikick => Deed::InstallAntikick,
            Act::EnableAntikick(b) => Deed::EnableAntikick(*b),
            Act::CheckHandle => Deed::CheckHandle,
            Act::ReportState => Deed::ReportState,
            Act::UnhookKick => Deed::UnhookKick,
            Act::UnhookAntikick => Deed::UnhookAntikick,
            Act::UnhookGrab => Deed::UnhookGrab,
            Act::UnhookTelemetry => Deed::UnhookTelemetry,
            Act::ReportOutstanding => Deed::ReportOutstanding,
            Act::FreeLibrary => Deed::FreeLibrary,
        }
    }
}

pub open spec fn deeds(v: Seq<Act>) -> Seq<Deed> {
    v.map_values(|a: Act| a@)
}

/// A line of the log that bears the mark of a run.
pub open spec fn said(m: Seq<char>, s: Seq<char>) -> Seq<char> {
    "["@ + m + "] "@ + s
}

pub open spec fn saying(m: Seq<char>, s: Seq<char>) -> Deed {
    Deed::Say(said(m, s))
}

pub(crate) fn line_of(m: &str, s: &str) -> (r: String)
    ensures
        r@ == said(m@, s@),
{
    let mut line = text::cat3("[", m, "] ");
    line.append(s);
    line
}

fn act(acts: &mut Vec<Act>, a: Act)
    ensures
        deeds(final(acts)@) == deeds(old(acts)@).push(a@),
{
    let ghost before = deeds(acts@);
    let ghost d = a@;
    acts.push(a);
    assert(deeds(acts@) == before.push(d));
}

fn say(acts: &mut Vec<Act>, m: &str, s: &str)
    ensures
        deeds(final(acts)@) == deeds(old(acts)@).push(saying(m@, s@)),
{
    act(acts, Act::Say(line_of(m, s)));
}

pub open spec fn is_on_off(s: Seq<char>) -> bool {
    s == "on"@ || s == "off"@
}

/// What a C string can hold of a text: all of it, or nothing where it holds a
/// null character.
pub open spec fn c_text(s: Seq<char>) -> Seq<char> {
    if s.contains('\0') {
        seq![]
    } else {
        s
    }
}

fn c_text_of(s: &str) -> (r: String)
    ensures
        r@ == c_text(s@),
{
    let v = text::chars_of(s);
    let mut i: usize = 0;
    while i < v.len()
        invariant
            i <= v.len(),
            v@ == s@,
            forall|k: int| 0 <= k < i ==> v@[k] != '\0',
        decreases v.len() - i,
    {
        if v[i] == '\0' {
            assert(s@.contains(v@[i as int]));
            return String::new();
        }
        i += 1;
    }
    text::text_of(s)
}

/// What one command sets going between the line that repeats it and the line
/// that gives its result, and that result.
pub open spec fn response(m: Seq<char>, w: Seq<Seq<char>>) -> (Seq<Deed>, Seq<char>) {
    if w.len() == 0 {
        (seq![saying(m, "no command"@)], "usage"@)
    } else if w[0] == "scan"@ {
        (seq![Deed::Scan], "done"@)
    } else if w[0] == "kick"@ {
        if w.len() >= 2 {
            (seq![Deed::Kick(w[1])], "done"@)
        } else {
            (seq![saying(m, "kick <id>"@)], "usage"@)
        }
    } else if w[0] == "kickcfg_exp"@ {
        if w.len() >= 2 && is_on_off(w[1]) {
            (
                seq![
                    Deed::SetKickcfgExperimental(w[1] == "on"@),
                    saying(m, "kickcfg_exp "@ + w[1]),
                ],
                "done"@,
            )
        } else {
            (seq![saying(m, "kickcfg_exp on|off"@)], "usage"@)
        }
    } else if w[0] == "antikick_exp"@ {
        if w.len() >= 2 && is_on_off(w[1]) {
            (
                seq![
                    Deed::SetAntikickExperimental(w[1] == "on"@),
                    saying(m, "antikick_exp "@ + w[1]),
                ],
                "done"@,
            )
        } else {
            (seq![saying(m, "antikick_exp on|off"@)], "usage"@)
        }
    } else if w[0] == "native_antikick_exp"@ {
        if w.len() >= 2 && is_on_off(w[1]) {
            (
                seq![
                    if w[1] == "on"@ {
                        Deed::NativeGuardOn
                    } else {
                        Deed::NativeGuardUninstall
                    },
                    saying(m, "native_antikick_exp "@ + w[1]),
                ],
                "done"@,
            )
        } else {
            (seq![saying(m, "native_antikick_exp on|off"@)], "usage"@)
        }
    } else if w[0] == "setid"@ {
        if w.len() >= 2 {
            (seq![Deed::SetMyId(c_text(w[1])), saying(m, "MY_ID set: "@ + w[1])], "done"@)
        } else {
            (seq![saying(m, "setid <hex>"@)], "usage"@)
        }
    } else if w[0] == "antikick_on"@ {
        (
            seq![
                Deed::SetAntikick(true),
                Deed::InstallAntikick,
                Deed::EnableAntikick(true),
                saying(m, "antikick ON"@),
            ],
            "done"@,
        )
    } else if w[0] == "antikick_off"@ {
        (
            seq![Deed::SetAntikick(false), Deed::EnableAntikick(false), saying(m, "antikick OFF"@)],
            "done"@,
        )
    } else if w[0] == "state"@ {
        (seq![Deed::CheckHandle, Deed::ReportState], "done"@)
    } else {
        (seq![saying(m, "unknown cmd"@)], "unknown"@)
    }
}

/// Unloading: every hook is taken back, then the library is freed.
pub open spec fn unloading(m: Seq<char>) -> Seq<Deed> {
    seq![
        saying(m, "unloading..."@),
        saying(m, "unload: kicking hooks..."@),
        Deed::UnhookKick,
        saying(m, "unload: antikick hooks..."@),
        Deed::UnhookAntikick,
        saying(m, "unload: grab hook..."@),
        Deed::UnhookGrab,
        saying(m, "unload: telemetry hooks..."@),
        Deed::UnhookTelemetry,
        saying(m, "unload: native guard..."@),
        Deed::NativeGuardUninstall,
        saying(m, "unload: hooks restored (all)"@),
        Deed::ReportOutstanding,
        saying(m, "unload: cmd thread exiting"@),
        saying(m, "RESULT: done"@),
        Deed::FreeLibrary,
    ]
}

/// Whether a command asks to unload, so that nothing is carried out after it.
pub open spec fn is_unload(w: Seq<Seq<char>>) -> bool {
    w.len() > 0 && w[0] == "unload"@
}

/// All that a command line sets going.
pub open spec fn plan(line: Seq<char>, runid: Option<u64>, w: Seq<Seq<char>>) -> Seq<Deed> {
    let m = command::mark(runid);
    let first = seq![saying(m, "CMD: "@ + line)];
    if is_unload(w) {
        first + unloading(m)
    } else {
        let r = response(m, w);
        first + r.0 + seq![saying(m, "RESULT: "@ + r.1)]
    }
}

/// Whether word `i` of a command is `s`.
fn word_is(parts: &Vec<String>, i: usize, s: &str) -> (r: bool)
    ensures
        r == (i < parts.len() && text::views(parts@)[i as int] == s@),
{
    if i >= parts.len() {
        return false;
    }
    assert(text::views(parts@)[i as int] == parts@[i as int]@);
    let v = text::chars_of(parts[i].as_str());
    text::same_text(v.as_slice(), s)
}

pub(crate) fn asks_unload(parts: &Vec<String>) -> (r: bool)
    ensures
        r == is_unload(text::views(parts@)),
{
    word_is(parts, 0, "unload")
}

fn respond(m: &str, parts: &Vec<String>) -> (r: (Vec<Act>, String))
    requires
        !is_unload(text::views(parts@)),
    ensures
        deeds(r.0@) == response(m@, text::views(parts@)).0,
        r.1@ == response(m@, text::views(parts@)).1,
{
    let ghost w = text::views(parts@);
    let mut acts: Vec<Act> = Vec::new();
    assert(deeds(acts@) == Seq::<Deed>::empty());
    let on_off = word_is(parts, 1, "on") || word_is(parts, 1, "off");
    let on = word_is(parts, 1, "on");
    let result = if parts.len() == 0 {
        say(&mut acts, m, "no command");
        "usage"
    } else if word_is(parts, 0, "scan") {
        act(&mut acts, Act::Scan);
        "done"
    } else if word_is(parts, 0, "kick") {
        if parts.len() >= 2 {
            assert(w[1] == parts@[1]@);
            act(&mut acts, Act::Kick(text::text_of(parts[1].as_str())));
            "done"
        } else {
            say(&mut acts, m, "kick <id>");
            "usage"
        }
    } else if word_is(parts, 0, "kickcfg_exp") {
        if on_off {
            assert(w[1] == parts@[1]@);
            act(&mut acts, Act::SetKickcfgExperimental(on));
            say(&mut acts, m, text::cat2("kickcfg_exp ", parts[1].as_str()).as_str());
            "done"
        } else {
            say(&mut acts, m, "kickcfg_exp on|off");
            "usage"
        }
    } else if word_is(parts, 0, "antikick_exp") {
        if on_off {
            assert(w[1] == parts@[1]@);
            act(&mut acts, Act::SetAntikickExperimental(on));
            say(&mut acts, m, text::cat2("antikick_exp ", parts[1].as_str()).as_str());
            "done"
        } else {
            say(&mut acts, m, "antikick_exp on|off");
            "usage"
        }
    } else if word_is(parts, 0, "native_antikick_exp") {
        if on_off {
            assert(w[1] == parts@[1]@);
            if on {
                act(&mut acts, Act::NativeGuardOn);
            } else {
                act(&mut acts, Act::NativeGuardUninstall);
            }
            say(&mut acts, m, text::cat2("native_antikick_exp ", parts[1].as_str()).as_str());
            "done"
        } else {
            say(&mut acts, m, "native_antikick_exp on|off");
            "usage"
        }
    } else if word_is(parts, 0, "setid") {
        if parts.len() >= 2 {
            assert(w[1] == parts@[1]@);
            act(&mut acts, Act::SetMyId(c_text_of(parts[1].as_str())));
            say(&mut acts, m, text::cat2("MY_ID set: ", parts[1].as_str()).as_str());
            "done"
        } else {
            say(&mut acts, m, "setid <hex>");
            "usage"
        }
    } else if word_is(parts, 0, "antikick_on") {
        act(&mut acts, Act::SetAntikick(true));
        act(&mut acts, Act::InstallAntikick);
        act(&mut acts, Act::EnableAntikick(true));
        say(&mut acts, m, "antikick ON");
        "done"
    } else if word_is(parts, 0, "antikick_off") {
        act(&mut acts, Act::SetAntikick(false));
        act(&mut acts, Act::EnableAntikick(false));
        say(&mut acts, m, "antikick OFF");
        "done"
    } else if word_is(parts, 0, "state") {
        act(&mut acts, Act::CheckHandle);
        act(&mut acts, Act::ReportState);
        "done"
    } else {
        say(&mut acts, m, "unknown cmd");
        "unknown"
    };
    assert(deeds(acts@) == response(m@, w).0);
    (acts, text::text_of(result))
}

fn unload(m: &str) -> (r: Vec<Act>)
    ensures
        deeds(r@) == unloading(m@),
{
    let mut acts: Vec<Act> = Vec::new();
    assert(deeds(acts@) == Seq::<Deed>::empty());
    say(&mut acts, m, "unloading...");
    say(&mut acts, m, "unload: kicking hooks...");
    act(&mut acts, Act::UnhookKick);
    say(&mut acts, m, "unload: antikick hooks...");
    act(&mut acts, Act::UnhookAntikick);
    say(&mut acts, m, "unload: grab hook...");
    act(&mut acts, Act::UnhookGrab);
    say(&mut acts, m, "unload: telemetry hooks...");
    act(&mut acts, Act::UnhookTelemetry);
    say(&mut acts, m, "unload: native guard...");
    act(&mut acts, Act::NativeGuardUninstall);
    say(&mut acts, m, "unload: hooks restored (all)");
    act(&mut acts, Act::ReportOutstanding);
    say(&mut acts, m, "unload: cmd thread exiting");
    say(&mut acts, m, "RESULT: done");
    act(&mut acts, Act::FreeLibrary);
    assert(deeds(acts@) == unloading(m@));
    acts
}

/// Turns a command into what is to be done, in order, and tells whether it was
/// the command to unload.
pub fn dispatch(line: &str, runid: Option<u64>, parts: &Vec<String>) -> (r: (Vec<Act>, bool))
    ensures
        deeds(r.0@) == plan(line@, runid, text::views(parts@)),
        r.1 == is_unload(text::views(parts@)),
{
    let m = command::marker(runid);
    let mut acts: Vec<Act> = Vec::new();
    assert(deeds(acts@) == Seq::<Deed>::empty());
    say(&mut acts, m.as_str(), text::cat2("CMD: ", line).as_str());
    let ghost first = deeds(acts@);
    assert(first == seq![saying(m@, "CMD: "@ + line@)]);
    if asks_unload(parts) {
        let mut rest = unload(m.as_str());
        let ghost a = acts@;
        let ghost b = rest@;
        acts.append(&mut rest);
        assert(deeds(a + b) == deeds(a) + deeds(b));
        (acts, true)
    } else {
        let (mut rest, result) = respond(m.as_str(), parts);
        let ghost a = acts@;
        let ghost b = rest@;
        acts.append(&mut rest);
        assert(deeds(a + b) == deeds(a) + deeds(b));
        let ghost before = deeds(acts@);
        say(&mut acts, m.as_str(), text::cat2("RESULT: ", result.as_str()).as_str());
        assert(deeds(acts@) == before + seq![saying(m@, "RESULT: "@ + result@)]);
        (acts, false)
    }
}

/// Only the command to unload frees the library.
pub proof fn lemma_only_unload_frees(line: Seq<char>, runid: Option<u64>, w: Seq<Seq<char>>)
    ensures
        plan(line, runid, w).contains(Deed::FreeLibrary) == is_unload(w),
{
    let p = plan(line, runid, w);
    let m = command::mark(runid);
    if is_unload(w) {
        let u = unloading(m);
        assert(u[u.len() - 1] == Deed::FreeLibrary);
        assert(p[u.len() as int] == Deed::FreeLibrary);
    } else {
        let r = response(m, w).0;
        assert(p.len() == r.len() + 2);
        assert(forall|i: int| 0 <= i < r.len() ==> p[i + 1] == #[trigger] r[i]);
        assert forall|i: int| 0 <= i < p.len() implies #[trigger] p[i] != Deed::FreeLibrary by {
            if 0 < i && i <= r.len() {
                assert(p[i] == r[i - 1]);
            }
        }
    }
}

/// Unloading takes every kind of hook back before the library is freed.
pub proof fn lemma_unhooked_before_freed(line: Seq<char>, runid: Option<u64>, w: Seq<Seq<char>>)
    requires
        is_unload(w),
    ensures
        ({
            let p = plan(line, runid, w);
            let before = p.drop_last();
            &&& p.last() == Deed::FreeLibrary
            &&& before.contains(Deed::UnhookKick)
            &&& before.contains(Deed::UnhookAntikick)
            &&& before.contains(Deed::UnhookGrab)
            &&& before.contains(Deed::UnhookTelemetry)
            &&& before.contains(Deed::NativeGuardUninstall)
        }),
{
    let before = plan(line, runid, w).drop_last();
    assert(before[3] == Deed::UnhookKick);
    assert(before[5] == Deed::UnhookAntikick);
    assert(before[7] == Deed::UnhookGrab);
    assert(before[9] == Deed::UnhookTelemetry);
    assert(before[11] == Deed::NativeGuardUninstall);
}

/// The words that commands are told apart by.
pub open spec fn command_words() -> Seq<Seq<char>> {
    seq![
        "scan"@,
        "kick"@,
        "kickcfg_exp"@,
        "antikick_exp"@,
        "native_antikick_exp"@,
        "setid"@,
        "antikick_on"@,
        "antikick_off"@,
        "state"@,
        "unload"@,
        "on"@,
        "off"@,
    ]
}

/// The words that commands are told apart by are all different.
proof fn lemma_command_words()
    ensures
        command_words().no_duplicates(),
{
    reveal_strlit("scan");
    reveal_strlit("kick");
    reveal_strlit("kickcfg_exp");
    reveal_strlit("antikick_exp");
    reveal_strlit("native_antikick_exp");
    reveal_strlit("setid");
    reveal_strlit("antikick_on");
    reveal_strlit("antikick_off");
    reveal_strlit("state");
    reveal_strlit("unload");
    reveal_strlit("on");
    reveal_strlit("off");
    assert("scan"@[0] != "kick"@[0]);
    assert("kickcfg_exp"@[0] != "antikick_on"@[0]);
    assert("antikick_exp"@[9] == 'e');
    assert("antikick_off"@[9] == 'o');
    assert("setid"@[1] != "state"@[1]);
    let all = command_words();
    assert forall|i: int, j: int| 0 <= i < j < all.len() implies all[i] != all[j] by {
        if all[i] == all[j] {
            assert(all[i].len() == all[j].len());
            assert(all[i][0] == all[j][0]);
            assert(all[i][1] == all[j][1]);
            if all[i].len() == 12 {
                assert(all[i][9] == all[j][9]);
            }
        }
    }
}

/// What stands in a plan between its first and its last line.
proof fn lemma_plan_middle(line: Seq<char>, runid: Option<u64>, w: Seq<Seq<char>>, d: Deed)
    requires
        !(d is Say),
    ensures
        !is_unload(w) ==> plan(line, runid, w).contains(d) == response(
            command::mark(runid),
            w,
        ).0.contains(d),
        is_unload(w) ==> plan(line, runid, w).contains(d) == unloading(
            command::mark(runid),
        ).contains(d),
{
    let m = command::mark(runid);
    let p = plan(line, runid, w);
    if is_unload(w) {
        let u = unloading(m);
        assert(forall|i: int| 0 <= i < u.len() ==> p[i + 1] == #[trigger] u[i]);
        if u.contains(d) {
            let i = u.index_of(d);
            assert(p[i + 1] == d);
        }
        if p.contains(d) {
            let i = p.index_of(d);
            assert(p[0] is Say);
            assert(u[i - 1] == d);
        }
    } else {
        let u = response(m, w).0;
        assert(forall|i: int| 0 <= i < u.len() ==> p[i + 1] == #[trigger] u[i]);
        if u.contains(d) {
            let i = u.index_of(d);
            assert(p[i + 1] == d);
        }
        if p.contains(d) {
            let i = p.index_of(d);
            assert(p[0] is Say);
            assert(p.last() is Say);
            assert(u[i - 1] == d);
        }
    }
}

/// Each switch is set as its command says: for `on` the plan sets it on and does not
/// set it off, and for `off` it sets it off and does not set it on.
pub proof fn lemma_switch_as_told(
    line: Seq<char>,
    runid: Option<u64>,
    w: Seq<Seq<char>>,
    on: bool,
)
    requires
        w.len() >= 2,
        w[1] == (if on {
            "on"@
        } else {
            "off"@
        }),
    ensures
        w[0] == "kickcfg_exp"@ ==> plan(line, runid, w).contains(Deed::SetKickcfgExperimental(on))
            && !plan(line, runid, w).contains(Deed::SetKickcfgExperimental(!on)),
        w[0] == "antikick_exp"@ ==> plan(line, runid, w).contains(Deed::SetAntikickExperimental(on))
            && !plan(line, runid, w).contains(Deed::SetAntikickExperimental(!on)),
        w[0] == "native_antikick_exp"@ && on ==> plan(line, runid, w).contains(Deed::NativeGuardOn)
            && !plan(line, runid, w).contains(Deed::NativeGuardUninstall),
        w[0] == "native_antikick_exp"@ && !on ==> plan(line, runid, w).contains(
            Deed::NativeGuardUninstall,
        ) && !plan(line, runid, w).contains(Deed::NativeGuardOn),
{
    lemma_done_when_asked(line, runid, w);
    lemma_command_words();
    let words = command_words();
    assert(words[10] != words[11]);
    assert(words[4] != words[9]);
    assert(!is_unload(w) || w[0] != "native_antikick_exp"@);
}

/// When each act is carried out: exactly where the words of the command ask for it.
#[verifier::spinoff_prover]
#[verifier::rlimit(60)]
pub proof fn lemma_done_when_asked(line: Seq<char>, runid: Option<u64>, w: Seq<Seq<char>>)
    ensures
        plan(line, runid, w).contains(Deed::Scan) <==> w.len() > 0 && w[0] == "scan"@,
        forall|id: Seq<char>| #[trigger]
            plan(line, runid, w).contains(Deed::Kick(id)) <==> w.len() >= 2 && w[0] == "kick"@
                && w[1] == id,
        forall|on: bool| #[trigger]
            plan(line, runid, w).contains(Deed::SetKickcfgExperimental(on)) <==> w.len() >= 2
                && w[0] == "kickcfg_exp"@ && w[1] == (if on {
                "on"@
            } else {
                "off"@
            }),
        forall|on: bool| #[trigger]
            plan(line, runid, w).contains(Deed::SetAntikickExperimental(on)) <==> w.len() >= 2
                && w[0] == "antikick_exp"@ && w[1] == (if on {
                "on"@
            } else {
                "off"@
            }),
        plan(line, runid, w).contains(Deed::NativeGuardOn) <==> w.len() >= 2 && w[0]
            == "native_antikick_exp"@ && w[1] == "on"@,
        plan(line, runid, w).contains(Deed::NativeGuardUninstall) <==> w.len() > 0 && w[0]
            == "unload"@ || w.len() >= 2 && w[0] == "native_antikick_exp"@ && w[1] == "off"@,
        forall|id: Seq<char>| #[trigger]
            plan(line, runid, w).contains(Deed::SetMyId(id)) <==> w.len() >= 2 && w[0] == "setid"@
                && id == (if exists|i: int| 0 <= i < w[1].len() && w[1][i] == '\0' {
                Seq::<char>::empty()
            } else {
                w[1]
            }),
        forall|on: bool| #[trigger]
            plan(line, runid, w).contains(Deed::SetAntikick(on)) <==> w.len() > 0 && w[0] == (if on {
                "antikick_on"@
            } else {
                "antikick_off"@
            }),
        plan(line, runid, w).contains(Deed::InstallAntikick) <==> w.len() > 0 && w[0]
            == "antikick_on"@,
        forall|on: bool| #[trigger]
            plan(line, runid, w).contains(Deed::EnableAntikick(on)) <==> w.len() > 0 && w[0] == (if on {
                "antikick_on"@
            } else {
                "antikick_off"@
            }),
        plan(line, runid, w).contains(Deed::CheckHandle) <==> w.len() > 0 && w[0] == "state"@,
        plan(line, runid, w).contains(Deed::ReportState) <==> w.len() > 0 && w[0] == "state"@,
        plan(line, runid, w).contains(Deed::UnhookKick) <==> w.len() > 0 && w[0] == "unload"@,
        plan(line, runid, w).contains(Deed::UnhookAntikick) <==> w.len() > 0 && w[0] == "unload"@,
        plan(line, runid, w).contains(Deed::UnhookGrab) <==> w.len() > 0 && w[0] == "unload"@,
        plan(line, runid, w).contains(Deed::UnhookTelemetry) <==> w.len() > 0 && w[0] == "unload"@,
        plan(line, runid, w).contains(Deed::ReportOutstanding) <==> w.len() > 0 && w[0]
            == "unload"@,
        plan(line, runid, w).contains(Deed::FreeLibrary) <==> w.len() > 0 && w[0] == "unload"@,
{
    let m = command::mark(runid);
    let p = plan(line, runid, w);
    assert forall|d: Deed| !(d is Say) implies #[trigger] p.contains(d) == acts_asked(w, d) by {
        lemma_plan_middle(line, runid, w, d);
        lemma_acts_asked(m, w, d);
    }
    if w.len() >= 2 {
        assert(w[1].contains('\0') <==> exists|i: int| 0 <= i < w[1].len() && w[1][i] == '\0');
    }
}

/// Whether the words of a command ask for an act that is no line of the log.
spec fn acts_asked(w: Seq<Seq<char>>, d: Deed) -> bool {
    match d {
        Deed::Say(_) => false,
        Deed::Scan => w.len() > 0 && w[0] == "scan"@,
        Deed::Kick(id) => w.len() >= 2 && w[0] == "kick"@ && w[1] == id,
        Deed::SetKickcfgExperimental(on) => w.len() >= 2 && w[0] == "kickcfg_exp"@ && w[1] == (if on {
            "on"@
        } else {
            "off"@
        }),
        Deed::SetAntikickExperimental(on) => w.len() >= 2 && w[0] == "antikick_exp"@ && w[1] == (if on {
            "on"@
        } else {
            "off"@
        }),
        Deed::NativeGuardOn => w.len() >= 2 && w[0] == "native_antikick_exp"@ && w[1] == "on"@,
        Deed::NativeGuardUninstall => w.len() > 0 && w[0] == "unload"@ || w.len() >= 2 && w[0]
            == "native_antikick_exp"@ && w[1] == "off"@,
        Deed::SetMyId(id) => w.len() >= 2 && w[0] == "setid"@ && id == (if w[1].contains('\0') {
            Seq::<char>::empty()
        } else {
            w[1]
        }),
        Deed::SetAntikick(on) => w.len() > 0 && w[0] == (if on {
            "antikick_on"@
        } else {
            "antikick_off"@
        }),
        Deed::InstallAntikick => w.len() > 0 && w[0] == "antikick_on"@,
        Deed::EnableAntikick(on) => w.len() > 0 && w[0] == (if on {
            "antikick_on"@
        } else {
            "antikick_off"@
        }),
        Deed::CheckHandle | Deed::ReportState => w.len() > 0 && w[0] == "state"@,
        _ => w.len() > 0 && w[0] == "unload"@,
    }
}

proof fn lemma_acts_asked(m: Seq<char>, w: Seq<Seq<char>>, d: Deed)
    requires
        !(d is Say),
    ensures
        !is_unload(w) ==> response(m, w).0.contains(d) == acts_asked(w, d),
        is_unload(w) ==> unloading(m).contains(d) == acts_asked(w, d),
{
    lemma_command_words();
    let words = command_words();
    assert(forall|i: int, j: int| 0 <= i < j < 12 ==> #[trigger] words[i] != #[trigger] words[j]);
    assert(words[0] == "scan"@ && words[1] == "kick"@ && words[2] == "kickcfg_exp"@ && words[3]
        == "antikick_exp"@ && words[4] == "native_antikick_exp"@ && words[5] == "setid"@ && words[6]
        == "antikick_on"@ && words[7] == "antikick_off"@ && words[8] == "state"@ && words[9]
        == "unload"@ && words[10] == "on"@ && words[11] == "off"@);
    if is_unload(w) {
        let u = unloading(m);
        assert(u[2] == Deed::UnhookKick && u[4] == Deed::UnhookAntikick && u[6] == Deed::UnhookGrab
            && u[8] == Deed::UnhookTelemetry && u[10] == Deed::NativeGuardUninstall && u[12]
            == Deed::ReportOutstanding && u[15] == Deed::FreeLibrary);
    } else {
        let u = response(m, w).0;
        if acts_asked(w, d) {
            if d == Deed::EnableAntikick(true) {
                assert(u[2] == d);
            } else if d is InstallAntikick || d is EnableAntikick || d is ReportState {
                assert(u[1] == d);
            } else {
                assert(u[0] == d);
            }
        }
        if u.contains(d) {
            let i = u.index_of(d);
            assert(u[i] == d);
        }
    }
}

/// A line is answered in full: its plan begins with the line itself and ends with its
/// result, and both bear the mark of the run. The result is `done` where the command
/// is known and has what it needs, `usage` where a known command lacks that or no
/// command stands there, and `unknown` for any other word.
pub proof fn lemma_answered(line: Seq<char>, runid: Option<u64>, w: Seq<Seq<char>>)
    requires
        !(w.len() > 0 && w[0] == "unload"@),
    ensures
        ({
            let p = plan(line, runid, w);
            let before = "["@ + command::mark(runid) + "] "@;
            let switch = w.len() > 0 && (w[0] == "kickcfg_exp"@ || w[0] == "antikick_exp"@ || w[0]
                == "native_antikick_exp"@);
            let named = w.len() > 0 && (w[0] == "kick"@ || w[0] == "setid"@);
            let bare = w.len() > 0 && (w[0] == "scan"@ || w[0] == "antikick_on"@ || w[0]
                == "antikick_off"@ || w[0] == "state"@);
            let told = w.len() >= 2 && (w[1] == "on"@ || w[1] == "off"@);
            &&& p.len() >= 3
            &&& p[0] == Deed::Say(before + ("CMD: "@ + line))
            &&& bare || named && w.len() >= 2 || switch && told ==> p.last() == Deed::Say(
                before + ("RESULT: "@ + "done"@),
            )
            &&& w.len() == 0 || named && w.len() < 2 || switch && !told ==> p.last() == Deed::Say(
                before + ("RESULT: "@ + "usage"@),
            )
            &&& w.len() > 0 && !bare && !named && !switch ==> p.last() == Deed::Say(
                before + ("RESULT: "@ + "unknown"@),
            )
        }),
{
    lemma_words_apart();
}

/// A switch that was set is named in the log with what it was set to, and an id that
/// was set is; a switch that was not set is named in what it should have been told.
pub proof fn lemma_setting_is_logged(line: Seq<char>, runid: Option<u64>, w: Seq<Seq<char>>)
    requires
        w.len() > 0,
    ensures
        ({
            let p = plan(line, runid, w);
            let before = "["@ + command::mark(runid) + "] "@;
            let switch = w[0] == "kickcfg_exp"@ || w[0] == "antikick_exp"@ || w[0]
                == "native_antikick_exp"@;
            let told = w.len() >= 2 && (w[1] == "on"@ || w[1] == "off"@);
            &&& switch && told ==> p.len() == 4 && p[2] == Deed::Say(before + (w[0] + " "@ + w[1]))
            &&& switch && !told ==> p.len() == 3 && p[1] == Deed::Say(
                before + (w[0] + " "@ + "on|off"@),
            )
            &&& w[0] == "setid"@ && w.len() >= 2 ==> p.len() == 4 && p[2] == Deed::Say(
                before + ("MY_ID set: "@ + w[1]),
            )
            &&& w[0] == "antikick_on"@ ==> p.len() == 6 && p[4] == Deed::Say(
                before + "antikick ON"@,
            )
            &&& w[0] == "antikick_off"@ ==> p.len() == 5 && p[3] == Deed::Say(
                before + "antikick OFF"@,
            )
        }),
{
    lemma_words_apart();
    lemma_switch_words();
}

/// What is switched on is recorded and installed before it is enabled, and what is
/// switched off is recorded first; the handle is looked up before the state is told.
pub proof fn lemma_acts_in_order(line: Seq<char>, runid: Option<u64>, w: Seq<Seq<char>>)
    requires
        w.len() > 0,
    ensures
        ({
            let p = plan(line, runid, w);
            &&& w[0] == "antikick_on"@ ==> p.index_of(Deed::SetAntikick(true)) < p.index_of(
                Deed::InstallAntikick,
            ) < p.index_of(Deed::EnableAntikick(true))
            &&& w[0] == "antikick_off"@ ==> p.index_of(Deed::SetAntikick(false)) < p.index_of(
                Deed::EnableAntikick(false),
            )
            &&& w[0] == "state"@ ==> p.index_of(Deed::CheckHandle) < p.index_of(Deed::ReportState)
            &&& w[0] == "unload"@ ==> p.index_of(Deed::UnhookKick) < p.index_of(
                Deed::UnhookAntikick,
            ) < p.index_of(Deed::UnhookGrab) < p.index_of(Deed::UnhookTelemetry) < p.index_of(
                Deed::NativeGuardUninstall,
            ) < p.index_of(Deed::ReportOutstanding) < p.index_of(Deed::FreeLibrary) == p.len() - 1
        }),
{
    lemma_words_apart();
    let p = plan(line, runid, w);
    if w[0] == "antikick_on"@ {
        assert(p[1] == Deed::SetAntikick(true) && p[2] == Deed::InstallAntikick && p[3]
            == Deed::EnableAntikick(true));
    } else if w[0] == "antikick_off"@ {
        assert(p[1] == Deed::SetAntikick(false) && p[2] == Deed::EnableAntikick(false));
    } else if w[0] == "state"@ {
        assert(p[1] == Deed::CheckHandle && p[2] == Deed::ReportState);
    } else if w[0] == "unload"@ {
        assert(p[3] == Deed::UnhookKick && p[5] == Deed::UnhookAntikick && p[7] == Deed::UnhookGrab
            && p[9] == Deed::UnhookTelemetry && p[11] == Deed::NativeGuardUninstall && p[13]
            == Deed::ReportOutstanding && p[16] == Deed::FreeLibrary);
    }
}

proof fn lemma_words_apart()
    ensures
        forall|i: int, j: int|
            0 <= i < j < 12 ==> #[trigger] command_words()[i] != #[trigger] command_words()[j],
        command_words()[0] == "scan"@,
        command_words()[1] == "kick"@,
        command_words()[2] == "kickcfg_exp"@,
        command_words()[3] == "antikick_exp"@,
        command_words()[4] == "native_antikick_exp"@,
        command_words()[5] == "setid"@,
        command_words()[6] == "antikick_on"@,
        command_words()[7] == "antikick_off"@,
        command_words()[8] == "state"@,
        command_words()[9] == "unload"@,
        command_words()[10] == "on"@,
        command_words()[11] == "off"@,
{
    lemma_command_words();
}

proof fn lemma_switch_words()
    ensures
        "kickcfg_exp "@ == "kickcfg_exp"@ + " "@,
        "antikick_exp "@ == "antikick_exp"@ + " "@,
        "native_antikick_exp "@ == "native_antikick_exp"@ + " "@,
        "kickcfg_exp on|off"@ == "kickcfg_exp"@ + " "@ + "on|off"@,
        "antikick_exp on|off"@ == "antikick_exp"@ + " "@ + "on|off"@,
        "native_antikick_exp on|off"@ == "native_antikick_exp"@ + " "@ + "on|off"@,
{
    reveal_strlit("kickcfg_exp ");
    reveal_strlit("kickcfg_exp");
    reveal_strlit("antikick_exp ");
    reveal_strlit("antikick_exp");
    reveal_strlit("native_antikick_exp ");
    reveal_strlit("native_antikick_exp");
    reveal_strlit("kickcfg_exp on|off");
    reveal_strlit("antikick_exp on|off");
    reveal_strlit("native_antikick_exp on|off");
    reveal_strlit(" ");
    reveal_strlit("on|off");
    assert("kickcfg_exp "@ =~= "kickcfg_exp"@ + " "@);
    assert("antikick_exp "@ =~= "antikick_exp"@ + " "@);
    assert("native_antikick_exp "@ =~= "native_antikick_exp"@ + " "@);
    assert("kickcfg_exp on|off"@ =~= "kickcfg_exp"@ + " "@ + "on|off"@);
    assert("antikick_exp on|off"@ =~= "antikick_exp"@ + " "@ + "on|off"@);
    assert("native_antikick_exp on|off"@ =~= "native_antikick_exp"@ + " "@ + "on|off"@);
}

/// A line that sets nothing going is told why: that there is no command, which argument one
/// lacks, or that it is not known.
pub proof fn lemma_told_why(line: Seq<char>, runid: Option<u64>, w: Seq<Seq<char>>)
    ensures
        ({
            let p = plan(line, runid, w);
            let before = "["@ + command::mark(runid) + "] "@;
            let known = command_words().take(10);
            &&& w.len() == 0 ==> p.len() == 3 && p[1] == Deed::Say(before + "no command"@)
            &&& w.len() == 1 && w[0] == "kick"@ ==> p.len() == 3 && p[1] == Deed::Say(
                before + (w[0] + " <"@ + "id"@ + ">"@),
            )
            &&& w.len() == 1 && w[0] == "setid"@ ==> p.len() == 3 && p[1] == Deed::Say(
                before + (w[0] + " <"@ + "hex"@ + ">"@),
            )
            &&& w.len() > 0 && !known.contains(w[0]) ==> p.len() == 3 && p[1] == Deed::Say(
                before + "unknown cmd"@,
            )
        }),
{
    lemma_words_apart();
    let known = command_words().take(10);
    reveal_strlit("kick <id>");
    reveal_strlit("setid <hex>");
    reveal_strlit("kick");
    reveal_strlit("setid");
    reveal_strlit(" <");
    reveal_strlit("id");
    reveal_strlit("hex");
    reveal_strlit(">");
    assert("kick <id>"@ =~= "kick"@ + " <"@ + "id"@ + ">"@);
    assert("setid <hex>"@ =~= "setid"@ + " <"@ + "hex"@ + ">"@);
    if w.len() > 0 && !known.contains(w[0]) {
        assert(known[0] != w[0] && known[1] != w[0] && known[2] != w[0] && known[3] != w[0]
            && known[4] != w[0] && known[5] != w[0] && known[6] != w[0] && known[7] != w[0]
            && known[8] != w[0] && known[9] != w[0]);
    }
}

/// Unloading says what it does before it does it, and that it is over before the library is
/// freed.
pub proof fn lemma_unloading_is_told(line: Seq<char>, runid: Option<u64>, w: Seq<Seq<char>>)
    requires
        w.len() > 0,
        w[0] == "unload"@,
    ensures
        ({
            let p = plan(line, runid, w);
            let before = "["@ + command::mark(runid) + "] "@;
            &&& p.len() == 17
            &&& p[0] == Deed::Say(before + ("CMD: "@ + line))
            &&& p[1] == Deed::Say(before + "unloading..."@)
            &&& p[p.index_of(Deed::UnhookKick) - 1] == Deed::Say(
                before + "unload: kicking hooks..."@,
            )
            &&& p[p.index_of(Deed::UnhookAntikick) - 1] == Deed::Say(
                before + "unload: antikick hooks..."@,
            )
            &&& p[p.index_of(Deed::UnhookGrab) - 1] == Deed::Say(before + "unload: grab hook..."@)
            &&& p[p.index_of(Deed::UnhookTelemetry) - 1] == Deed::Say(
                before + "unload: telemetry hooks..."@,
            )
            &&& p[p.index_of(Deed::NativeGuardUninstall) - 1] == Deed::Say(
                before + "unload: native guard..."@,
            )
            &&& p[p.index_of(Deed::ReportOutstanding) - 1] == Deed::Say(
                before + "unload: hooks restored (all)"@,
            )
            &&& p[p.index_of(Deed::ReportOutstanding) + 1] == Deed::Say(
                before + "unload: cmd thread exiting"@,
            )
            &&& p[p.index_of(Deed::FreeLibrary) - 1] == Deed::Say(before + "RESULT: done"@)
        }),
{
    let p = plan(line, runid, w);
    assert(p[3] == Deed::UnhookKick && p[5] == Deed::UnhookAntikick && p[7] == Deed::UnhookGrab
        && p[9] == Deed::UnhookTelemetry && p[11] == Deed::NativeGuardUninstall && p[13]
        == Deed::ReportOutstanding && p[16] == Deed::FreeLibrary);
}

/// An act is what it says: each stands for the deed of its own name, with the same content.
pub proof fn lemma_acts_are_deeds(b: bool, s: String, v: Seq<Act>, i: int)
    requires
        0 <= i < v.len(),
    ensures
        Act::Say(s)@ == Deed::Say(s@),
        Act::Scan@ == Deed::Scan,
        Act::Kick(s)@ == Deed::Kick(s@),
        Act::SetKickcfgExperimental(b)@ == Deed::SetKickcfgExperimental(b),
        Act::SetAntikickExperimental(b)@ == Deed::SetAntikickExperimental(b),
        Act::NativeGuardOn@ == Deed::NativeGuardOn,
        Act::NativeGuardUninstall@ == Deed::NativeGuardUninstall,
        Act::SetMyId(s)@ == Deed::SetMyId(s@),
        Act::SetAntikick(b)@ == Deed::SetAntikick(b),
        Act::InstallAntikick@ == Deed::InstallAntikick,
        Act::EnableAntikick(b)@ == Deed::EnableAntikick(b),
        Act::CheckHandle@ == Deed::CheckHandle,
        Act::ReportState@ == Deed::ReportState,
        Act::UnhookKick@ == Deed::UnhookKick,
        Act::UnhookAntikick@ == Deed::UnhookAntikick,
        Act::UnhookGrab@ == Deed::UnhookGrab,
        Act::UnhookTelemetry@ == Deed::UnhookTelemetry,
        Act::ReportOutstanding@ == Deed::ReportOutstanding,
        Act::FreeLibrary@ == Deed::FreeLibrary,
        deeds(v).len() == v.len(),
        deeds(v)[i] == v[i]@,
{
}

} // verus!
