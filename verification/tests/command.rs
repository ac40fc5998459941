use gbfr_sdk::command::{line_is_new, marker, parse_cmd_line, Seen};
use gbfr_sdk::diag::parse_diag_flags;
use gbfr_sdk::dispatch::{dispatch, Act};
use gbfr_sdk::log::stamped;
use gbfr_sdk::time::{civil_from_days, ts_from_secs};
use gbfr_sdk::worker::{
    baseline, baseline_line, dll_main, due_commands, outstanding_line, round, state_lines, Chore,
    Step,
};

#[test]
fn parse_with_and_without_runid() {
    let (id, toks) = parse_cmd_line("#001 state").unwrap();
    assert_eq!(id, Some(1));
    assert_eq!(toks, ["state"]);
    let (id, toks) = parse_cmd_line("kick 3").unwrap();
    assert_eq!(id, None);
    assert_eq!(toks, ["kick", "3"]);
    let (id, toks) = parse_cmd_line("  #7 scan  ").unwrap();
    assert_eq!(id, Some(7));
    assert_eq!(toks, ["scan"]);
}

#[test]
fn empty_and_malformed_lines_are_ignored() {
    assert_eq!(parse_cmd_line(""), None);
    assert_eq!(parse_cmd_line("   "), None);
    assert_eq!(parse_cmd_line("\t"), None);
    assert_eq!(parse_cmd_line("#abc state"), None);
}

#[test]
fn run_numbers_have_limits() {
    assert_eq!(parse_cmd_line("#18446744073709551615 x").unwrap().0, Some(u64::MAX));
    assert_eq!(parse_cmd_line("#18446744073709551616 x"), None);
    assert_eq!(parse_cmd_line("#+5 x").unwrap().0, Some(5));
    assert_eq!(parse_cmd_line("# state"), None);
    assert_eq!(parse_cmd_line("##1 state"), None);
    assert_eq!(parse_cmd_line("#3"), Some((Some(3), vec![])));
}

#[test]
fn different_runids_both_execute() {
    let mut seen = Seen::new();
    assert!(line_is_new("#001 state", &mut seen));
    assert!(line_is_new("#002 state", &mut seen));
    assert_eq!(parse_cmd_line("#001 state").unwrap().1, ["state"]);
    assert_eq!(parse_cmd_line("#002 state").unwrap().1, ["state"]);
}

#[test]
fn exact_same_line_never_executes_twice() {
    let mut seen = Seen::new();
    assert!(line_is_new("#001 state", &mut seen));
    assert!(!line_is_new("#001 state", &mut seen));
    assert!(!line_is_new("#001 state", &mut seen));
}

#[test]
fn no_runid_warns_and_executes_once() {
    assert_eq!(marker(None), "no-runid");
    assert_eq!(marker(Some(1)), "#001");
    let mut seen = Seen::new();
    assert!(line_is_new("state", &mut seen));
    assert!(!line_is_new("state", &mut seen));
}

#[test]
fn empty_input_does_nothing() {
    assert_eq!(parse_cmd_line(""), None);
    let mut seen = Seen::new();
    assert!(!line_is_new("", &mut seen));
    assert!(!line_is_new("   ", &mut seen));
    assert!(seen.is_empty());
}

#[test]
fn ts_formats_utc() {
    assert_eq!(ts_from_secs(0), "1970-01-01T00:00:00Z");
    assert_eq!(ts_from_secs(1_786_406_400), "2026-08-11T00:00:00Z");
    assert_eq!(marker(Some(123_456)), "#123456");
}

#[test]
fn dates_before_and_after_leap_days() {
    assert_eq!(civil_from_days(0), (1970, 1, 1));
    assert_eq!(civil_from_days(-1), (1969, 12, 31));
    assert_eq!(civil_from_days(11_016), (2000, 2, 29));
    assert_eq!(civil_from_days(11_017), (2000, 3, 1));
    assert_eq!(civil_from_days(47_540), (2100, 2, 28));
    assert_eq!(civil_from_days(47_541), (2100, 3, 1));
    assert_eq!(civil_from_days(-719_468), (0, 3, 1));
    assert_eq!(civil_from_days(-719_469), (0, 2, 29));
    assert_eq!(ts_from_secs(951_827_696), "2000-02-29T12:34:56Z");
    assert_eq!(stamped(0, "x"), "[1970-01-01T00:00:00Z] x");
}

#[test]
fn diag_empty_and_missing_defaults_s0_load_only() {
    assert_eq!(parse_diag_flags(""), (false, false, false, false, false));
    assert_eq!(
        parse_diag_flags("   \n\t\n"),
        (false, false, false, false, false)
    );
}

#[test]
fn diag_flags_parse_with_trim_and_case_insensitive() {
    assert_eq!(
        parse_diag_flags("no_telemetry\nno_join"),
        (false, false, false, true, true)
    );
    assert_eq!(
        parse_diag_flags("  NO_TELEMETRY  \n"),
        (false, false, false, true, false)
    );
    assert_eq!(
        parse_diag_flags("no_join"),
        (false, false, false, false, true)
    );
}

#[test]
fn diag_hooks_is_explicit_optin() {
    assert_eq!(
        parse_diag_flags("hooks"),
        (true, false, false, false, false)
    );
    assert_eq!(
        parse_diag_flags("  HOOKS  \n"),
        (true, false, false, false, false)
    );
    assert_eq!(
        parse_diag_flags("hooks\nno_telemetry\nno_join"),
        (true, false, false, true, true)
    );
}

#[test]
fn diag_grab_is_explicit_selector() {
    assert_eq!(parse_diag_flags("grab"), (false, true, false, false, false));
    assert_eq!(
        parse_diag_flags("  GRAB  \n"),
        (false, true, false, false, false)
    );
    assert_eq!(
        parse_diag_flags("grab\nno_telemetry"),
        (false, true, false, true, false)
    );
    assert_eq!(
        parse_diag_flags("hooks\ngrab"),
        (false, false, false, false, false)
    );
}

#[test]
fn diag_leave_is_explicit_selector() {
    assert_eq!(
        parse_diag_flags("leave"),
        (false, false, true, false, false)
    );
    assert_eq!(
        parse_diag_flags("  LEAVE  \n"),
        (false, false, true, false, false)
    );
    assert_eq!(
        parse_diag_flags("leave\nno_telemetry"),
        (false, false, true, true, false)
    );
    assert_eq!(
        parse_diag_flags("hooks\nleave"),
        (false, false, false, false, false)
    );
}

#[test]
fn diag_unknown_lines_fail_closed() {
    assert_eq!(
        parse_diag_flags("bogus\nno_kick\nNO_TELEMETRY_extra"),
        (false, false, false, false, false)
    );
    assert_eq!(
        parse_diag_flags("leave\n# comment"),
        (false, false, false, false, false)
    );
    assert_eq!(
        parse_diag_flags("no_telemetry\nno_join"),
        (false, false, false, true, true)
    );
}

fn said(acts: &[Act]) -> Vec<String> {
    let mut out = Vec::new();
    for a in acts {
        if let Act::Say(s) = a {
            out.push(s.clone());
        }
    }
    out
}

fn run(line: &str) -> (Vec<Act>, bool) {
    let (runid, parts) = parse_cmd_line(line).unwrap();
    dispatch(line, runid, &parts)
}

#[test]
fn dispatch_repeats_the_command_and_gives_a_result() {
    let (acts, unload) = run("#001 scan");
    assert!(!unload);
    assert_eq!(said(&acts), ["[#001] CMD: #001 scan", "[#001] RESULT: done"]);
    assert!(matches!(acts[1], Act::Scan));
    let (acts, _) = run("nonsense");
    assert_eq!(
        said(&acts),
        ["[no-runid] CMD: nonsense", "[no-runid] unknown cmd", "[no-runid] RESULT: unknown"]
    );
    let (acts, _) = run("#9");
    assert_eq!(said(&acts), ["[#009] CMD: #9", "[#009] no command", "[#009] RESULT: usage"]);
}

#[test]
fn dispatch_takes_arguments() {
    let (acts, _) = run("#2 kick ABC");
    assert!(matches!(&acts[1], Act::Kick(id) if id == "ABC"));
    let (acts, _) = run("kick");
    assert_eq!(said(&acts)[1..], ["[no-runid] kick <id>", "[no-runid] RESULT: usage"]);
    let (acts, _) = run("#3 kickcfg_exp on");
    assert!(matches!(acts[1], Act::SetKickcfgExperimental(true)));
    assert_eq!(said(&acts)[1], "[#003] kickcfg_exp on");
    let (acts, _) = run("kickcfg_exp maybe");
    assert_eq!(said(&acts)[1], "[no-runid] kickcfg_exp on|off");
    let (acts, _) = run("antikick_exp off");
    assert!(matches!(acts[1], Act::SetAntikickExperimental(false)));
    let (acts, _) = run("antikick_exp");
    assert_eq!(said(&acts)[1], "[no-runid] antikick_exp on|off");
    let (acts, _) = run("native_antikick_exp on");
    assert!(matches!(acts[1], Act::NativeGuardOn));
    let (acts, _) = run("native_antikick_exp off");
    assert!(matches!(acts[1], Act::NativeGuardUninstall));
    let (acts, _) = run("native_antikick_exp");
    assert_eq!(said(&acts)[1], "[no-runid] native_antikick_exp on|off");
    let (acts, _) = run("setid 0123");
    assert!(matches!(&acts[1], Act::SetMyId(id) if id == "0123"));
    assert_eq!(said(&acts)[1], "[no-runid] MY_ID set: 0123");
    let (acts, _) = run("setid 01\u{0}23");
    assert!(matches!(&acts[1], Act::SetMyId(id) if id.is_empty()));
    let (acts, _) = run("setid");
    assert_eq!(said(&acts)[1], "[no-runid] setid <hex>");
}

#[test]
fn dispatch_switches_and_reports() {
    let (acts, _) = run("antikick_on");
    assert!(matches!(acts[1], Act::SetAntikick(true)));
    assert!(matches!(acts[2], Act::InstallAntikick));
    assert!(matches!(acts[3], Act::EnableAntikick(true)));
    assert_eq!(said(&acts)[1], "[no-runid] antikick ON");
    let (acts, _) = run("antikick_off");
    assert!(matches!(acts[1], Act::SetAntikick(false)));
    assert!(matches!(acts[2], Act::EnableAntikick(false)));
    assert_eq!(said(&acts)[1], "[no-runid] antikick OFF");
    let (acts, _) = run("state");
    assert!(matches!(acts[1], Act::CheckHandle));
    assert!(matches!(acts[2], Act::ReportState));
}

#[test]
fn unload_takes_everything_back_first() {
    let (acts, unload) = run("#12 unload");
    assert!(unload);
    assert_eq!(acts.len(), 17);
    assert!(matches!(acts[3], Act::UnhookKick));
    assert!(matches!(acts[5], Act::UnhookAntikick));
    assert!(matches!(acts[7], Act::UnhookGrab));
    assert!(matches!(acts[9], Act::UnhookTelemetry));
    assert!(matches!(acts[11], Act::NativeGuardUninstall));
    assert!(matches!(acts[13], Act::ReportOutstanding));
    assert!(matches!(acts[16], Act::FreeLibrary));
    assert_eq!(
        said(&acts),
        [
            "[#012] CMD: #12 unload",
            "[#012] unloading...",
            "[#012] unload: kicking hooks...",
            "[#012] unload: antikick hooks...",
            "[#012] unload: grab hook...",
            "[#012] unload: telemetry hooks...",
            "[#012] unload: native guard...",
            "[#012] unload: hooks restored (all)",
            "[#012] unload: cmd thread exiting",
            "[#012] RESULT: done",
        ]
    );
}

#[test]
fn reports_are_worded() {
    let (a, b) = state_lines(Some(7), 0x1800_0000, 0xAB, 0, 0x10, true, "members=1");
    assert_eq!(
        a,
        "[#007] STATE sdk=0x18000000 handle=0xAB lobby=0x0 myid=0x10 antikick=true"
    );
    assert_eq!(b, "[#007] LOBBY_SOURCES: members=1");
    assert_eq!(outstanding_line(None, 0), None);
    assert_eq!(
        outstanding_line(None, 3).unwrap(),
        "[no-runid] unload: near allocs outstanding: 3 (not freed — see detour.rs ponytail note)"
    );
}

#[test]
fn history_is_not_replayed() {
    let mut seen = baseline("#1 unload\r\n\n  state  \nstate\n");
    assert_eq!(seen.len(), 2);
    assert_eq!(baseline_line(&seen), "[dll] command history baselined (2 lines)");
    let due = due_commands("#1 unload\n\nstate\n#2 state\n", &mut seen);
    assert_eq!(due.len(), 1);
    assert_eq!(due[0].line, "#2 state");
    assert_eq!(due[0].runid, Some(2));
    assert_eq!(due[0].parts, ["state"]);
    assert!(due_commands("#1 unload\n\nstate\n#2 state\n", &mut seen).is_empty());
}

#[test]
fn nothing_is_done_after_unload() {
    let mut seen = Seen::new();
    let due = due_commands("scan\n#x bad\n#5 unload\nscan 2\n", &mut seen);
    assert_eq!(due.len(), 2);
    assert_eq!(due[0].line, "scan");
    assert_eq!(due[1].line, "#5 unload");
    assert_eq!(seen.len(), 2);
}

#[test]
fn rounds_install_what_was_selected() {
    let kinds = |v: Vec<Chore>| -> Vec<&'static str> {
        v.iter()
            .map(|c| match c {
                Chore::InstallGrabHandle => "grab",
                Chore::DrainTelemetry => "drain",
                Chore::PollJoinOut => "poll",
                Chore::InstallTelemetry => "telemetry",
                Chore::InstallLeaveOnly => "leave",
                Chore::Sleep(200) => "sleep",
                Chore::Sleep(_) => "other",
            })
            .collect()
    };
    assert_eq!(kinds(round(true, false, false, false)), ["drain", "poll", "sleep"]);
    assert_eq!(kinds(round(true, false, true, false)), ["grab", "drain", "poll", "sleep"]);
    assert_eq!(kinds(round(false, false, true, false)), ["drain", "poll", "sleep"]);
    assert_eq!(kinds(round(true, true, false, false)), ["drain", "poll", "telemetry", "sleep"]);
    assert_eq!(kinds(round(false, false, false, true)), ["drain", "poll", "leave", "sleep"]);
}

fn steps(reason: u32, diag: Option<&str>) -> Vec<String> {
    dll_main(reason, diag.map(|s| s.to_string()))
        .1
        .iter()
        .map(|s| match s {
            Step::Say(t) => t.clone(),
            Step::InitSdk => "init".to_string(),
            Step::InstallGrabHandle => "grab".to_string(),
            Step::InstallLobbyHooks(b) => format!("lobby {}", b),
            Step::StartThread => "thread".to_string(),
        })
        .collect()
}

#[test]
fn loading_installs_what_was_selected() {
    assert!(steps(0, Some("hooks")).is_empty());
    assert_eq!(
        steps(1, None),
        [
            "[dll] attached",
            "init",
            "[dll] diag: hooks=false grab=false leave=false no_telemetry=false no_join=false",
            "[dll] S0 load-only: zero game/PlayFab hooks installed",
            "thread",
        ]
    );
    assert_eq!(
        steps(1, Some("hooks\nno_join"))[2..],
        [
            "[dll] diag: hooks=true grab=false leave=false no_telemetry=false no_join=true",
            "grab",
            "lobby true",
            "thread",
        ]
    );
    assert_eq!(
        steps(1, Some("leave"))[3],
        "[dll] deferred install to first cmd update (grab/leave selector)"
    );
    assert_eq!(dll_main(1, Some("grab".to_string())).0, (false, true, false, false, false));
}

#[test]
fn diag_lines_may_repeat_and_come_in_any_order() {
    for c in ["", "hooks", "no_join\ngrab", "leave\r", "no_telemetry\n", "bogus\nhooks"] {
        let f = parse_diag_flags(c);
        for d in ["", "  ", "\t\r"] {
            assert_eq!(parse_diag_flags(&format!("{}\n{}", c, d)), f);
        }
        for d in c.lines() {
            let again = format!("{}\n  {} ", c, d.to_ascii_uppercase());
            assert_eq!(parse_diag_flags(&again), f);
        }
        let unknown = parse_diag_flags(&format!("{}\nbogus", c));
        assert_eq!(unknown, (false, false, false, f.3, f.4));
        let mut lines: Vec<&str> = c.lines().collect();
        lines.reverse();
        assert_eq!(parse_diag_flags(&lines.join("\n")), f);
    }
}

#[test]
fn history_is_never_replayed_in_later_reads() {
    let mut seen = baseline("#001 unload\n state \n");
    let reads = [
        "#001 unload\n#002 scan",
        "#003 state\n#001 unload\nstate\n#002 scan",
        "",
        "state\n#001 unload\n#003 state\n#004 scan\n#003 state",
    ];
    let mut lines = Vec::new();
    for r in reads {
        for c in due_commands(r, &mut seen) {
            lines.push(c.line);
        }
    }
    assert_eq!(lines, ["#002 scan", "#003 state", "#004 scan"]);
}
