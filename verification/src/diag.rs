//! The switches that choose, when the library is loaded, what it may install.
use vstd::prelude::*;

use crate::text;

verus! {

/// The switch that a line names: the line without surrounding white space, in
/// lower case.
pub open spec fn switch_of(line: Seq<char>) -> Seq<char> {
    text::ascii_lower_all(text::trim(line))
}

/// Whether some line names a switch.
pub open spec fn names(lines: Seq<Seq<char>>, switch: Seq<char>) -> bool {
    exists|i: int| 0 <= i < lines.len() && switch_of(#[trigger] lines[i]) == switch
}

/// Whether a switch is not one of those that are known.
pub open spec fn unknown_switch(s: Seq<char>) -> bool {
    s.len() != 0 && s != "hooks"@ && s != "grab"@ && s != "leave"@ && s != "no_telemetry"@ && s
        != "no_join"@
}

/// Whether a line is neither blank nor one of the known switches.
pub open spec fn is_unknown(line: Seq<char>) -> bool {
    unknown_switch(switch_of(line))
}

pub open spec fn any_unknown(lines: Seq<Seq<char>>) -> bool {
    exists|i: int| 0 <= i < lines.len() && is_unknown(#[trigger] lines[i])
}

/// Whether more than one of three holds.
pub open spec fn several(a: bool, b: bool, c: bool) -> bool {
    a && b || a && c || b && c
}

/// Whether the selectors are void: a line is unknown, or selectors conflict.
pub open spec fn void(lines: Seq<Seq<char>>) -> bool {
    any_unknown(lines) || several(
        names(lines, "hooks"@),
        names(lines, "grab"@),
        names(lines, "leave"@),
    )
}

/// The switches that a file sets: the selectors `hooks`, `grab` and `leave`, then
/// `no_telemetry` and `no_join`.
pub open spec fn diag_flags(content: Seq<char>) -> (bool, bool, bool, bool, bool) {
    let lines = text::lines(content);
    let ok = !void(lines);
    (
        ok && names(lines, "hooks"@),
        ok && names(lines, "grab"@),
        ok && names(lines, "leave"@),
        names(lines, "no_telemetry"@),
        names(lines, "no_join"@),
    )
}

/// Whether some of the first `k` lines names a switch.
spec fn named_before(lines: Seq<Seq<char>>, switch: Seq<char>, k: int) -> bool {
    exists|i: int| 0 <= i < k && switch_of(#[trigger] lines[i]) == switch
}

spec fn unknown_before(lines: Seq<Seq<char>>, k: int) -> bool {
    exists|i: int| 0 <= i < k && is_unknown(#[trigger] lines[i])
}

proof fn lemma_literals_distinct()
    ensures
        "hooks"@.len() == 5,
        "grab"@.len() == 4,
        "leave"@.len() == 5,
        "no_telemetry"@.len() == 12,
        "no_join"@.len() == 7,
        "hooks"@ != "leave"@,
{
    reveal_strlit("hooks");
    reveal_strlit("grab");
    reveal_strlit("leave");
    reveal_strlit("no_telemetry");
    reveal_strlit("no_join");
    assert("hooks"@[0] != "leave"@[0]);
}

/// Reads the switches, one to a line. A missing or empty file sets none; a line
/// that is not known, or more than one selector, voids the selectors.
pub fn parse_diag_flags(content: &str) -> (r: (bool, bool, bool, bool, bool))
    ensures
        r == diag_flags(content@),
{
    proof {
        lemma_literals_distinct();
    }
    let v = text::chars_of(content);
    let lines = text::split_lines(v.as_slice());
    let ghost ls = text::views(lines@);
    let mut hooks = false;
    let mut grab = false;
    let mut leave = false;
    let mut no_telemetry = false;
    let mut no_join = false;
    let mut invalid = false;
    let mut i: usize = 0;
    while i < lines.len()
        invariant
            i <= lines.len(),
            ls == text::views(lines@),
            hooks == named_before(ls, "hooks"@, i as int),
            grab == named_before(ls, "grab"@, i as int),
            leave == named_before(ls, "leave"@, i as int),
            no_telemetry == named_before(ls, "no_telemetry"@, i as int),
            no_join == named_before(ls, "no_join"@, i as int),
            invalid == unknown_before(ls, i as int),
            "hooks"@.len() == 5,
            "grab"@.len() == 4,
            "leave"@.len() == 5,
            "no_telemetry"@.len() == 12,
            "no_join"@.len() == 7,
            "hooks"@ != "leave"@,
        decreases lines.len() - i,
    {
        let line = text::chars_of(lines[i].as_str());
        let flag = text::lowered(text::trimmed(line.as_slice()));
        let f = flag.as_slice();
        assert(ls[i as int] == lines@[i as int]@);
        assert(f@ == switch_of(ls[i as int]));
        if f.len() == 0 {
        } else if text::same_text(f, "hooks") {
            hooks = true;
        } else if text::same_text(f, "grab") {
            grab = true;
        } else if text::same_text(f, "leave") {
            leave = true;
        } else if text::same_text(f, "no_telemetry") {
            no_telemetry = true;
        } else if text::same_text(f, "no_join") {
            no_join = true;
        } else {
            invalid = true;
        }
        i += 1;
    }
    assert(ls.len() == lines.len());
    if invalid || (hooks && grab || hooks && leave || grab && leave) {
        hooks = false;
        grab = false;
        leave = false;
    }
    (hooks, grab, leave, no_telemetry, no_join)
}

/// At most one selector is ever set.
pub proof fn lemma_one_selector(content: Seq<char>)
    ensures
        ({
            let f = diag_flags(content);
            !several(f.0, f.1, f.2)
        }),
{
}

/// A line that is not known leaves every selector unset, whatever stands in the
/// other lines.
pub proof fn lemma_unknown_fails_closed(content: Seq<char>, i: int)
    requires
        0 <= i < text::lines(content).len(),
        is_unknown(text::lines(content)[i]),
    ensures
        ({
            let f = diag_flags(content);
            !f.0 && !f.1 && !f.2
        }),
{
    assert(any_unknown(text::lines(content)));
}

/// A modifier does not set a selector: without a line for it none is set.
pub proof fn lemma_selector_is_opt_in(content: Seq<char>)
    ensures
        ({
            let f = diag_flags(content);
            let lines = text::lines(content);
            &&& f.0 ==> names(lines, "hooks"@)
            &&& f.1 ==> names(lines, "grab"@)
            &&& f.2 ==> names(lines, "leave"@)
        }),
{
}

/// Whether two lists of lines name the same switches. Blank lines name none.
pub open spec fn same_switches(a: Seq<Seq<char>>, b: Seq<Seq<char>>) -> bool {
    forall|s: Seq<char>| s.len() != 0 ==> #[trigger] names(a, s) == names(b, s)
}

/// The flags depend on nothing but which switches are named: neither the order of the
/// lines matters, nor how often a switch is named, nor are blank lines of any
/// account.
pub proof fn lemma_flags_by_switches(a: Seq<char>, b: Seq<char>)
    requires
        same_switches(text::lines(a), text::lines(b)),
    ensures
        diag_flags(a) == diag_flags(b),
{
    lemma_literals_distinct();
    lemma_unknown_follows(text::lines(a), text::lines(b));
    lemma_unknown_follows(text::lines(b), text::lines(a));
    assert(names(text::lines(a), "hooks"@) == names(text::lines(b), "hooks"@));
    assert(names(text::lines(a), "grab"@) == names(text::lines(b), "grab"@));
    assert(names(text::lines(a), "leave"@) == names(text::lines(b), "leave"@));
    assert(names(text::lines(a), "no_telemetry"@) == names(text::lines(b), "no_telemetry"@));
    assert(names(text::lines(a), "no_join"@) == names(text::lines(b), "no_join"@));
}

proof fn lemma_unknown_follows(a: Seq<Seq<char>>, b: Seq<Seq<char>>)
    requires
        same_switches(a, b) || same_switches(b, a),
    ensures
        any_unknown(a) ==> any_unknown(b),
{
    if any_unknown(a) {
        let i = choose|i: int| 0 <= i < a.len() && is_unknown(#[trigger] a[i]);
        let s = switch_of(a[i]);
        assert(names(a, s));
        assert(names(b, s));
        let j = choose|j: int| 0 <= j < b.len() && switch_of(#[trigger] b[j]) == s;
        assert(is_unknown(b[j]));
    }
}

/// The order of the lines does not matter.
pub proof fn lemma_order_is_free(a: Seq<char>, b: Seq<char>)
    requires
        text::lines(a).to_multiset() == text::lines(b).to_multiset(),
    ensures
        diag_flags(a) == diag_flags(b),
{
    let (la, lb) = (text::lines(a), text::lines(b));
    la.to_multiset_ensures();
    lb.to_multiset_ensures();
    assert forall|s: Seq<char>| s.len() != 0 implies #[trigger] names(la, s) == names(lb, s) by {
        if names(la, s) {
            let i = choose|i: int| 0 <= i < la.len() && switch_of(#[trigger] la[i]) == s;
            assert(la.contains(la[i]));
            assert(lb.to_multiset().count(la[i]) > 0);
            let j = choose|j: int| 0 <= j < lb.len() && lb[j] == la[i];
            assert(switch_of(lb[j]) == s);
        }
        if names(lb, s) {
            let i = choose|i: int| 0 <= i < lb.len() && switch_of(#[trigger] lb[i]) == s;
            assert(lb.contains(lb[i]));
            assert(la.to_multiset().count(lb[i]) > 0);
            let j = choose|j: int| 0 <= j < la.len() && la[j] == lb[i];
            assert(switch_of(la[j]) == s);
        }
    }
    lemma_flags_by_switches(a, b);
}

/// A text with one more line behind it.
pub open spec fn with_line(content: Seq<char>, line: Seq<char>) -> Seq<char> {
    content + seq!['\n'] + line
}

proof fn lemma_names_first(x: Seq<char>, rest: Seq<Seq<char>>, s: Seq<char>)
    ensures
        names(seq![x] + rest, s) == (switch_of(x) == s || names(rest, s)),
{
    let all = seq![x] + rest;
    if names(all, s) {
        let i = choose|i: int| 0 <= i < all.len() && switch_of(#[trigger] all[i]) == s;
        if i > 0 {
            assert(all[i] == rest[i - 1]);
        }
    }
    if switch_of(x) == s {
        assert(all[0] == x);
    }
    if names(rest, s) {
        let i = choose|i: int| 0 <= i < rest.len() && switch_of(#[trigger] rest[i]) == s;
        assert(all[i + 1] == rest[i]);
    }
}

/// One more line names its own switch, and the others name what they did.
pub proof fn lemma_line_added(content: Seq<char>, line: Seq<char>, s: Seq<char>)
    requires
        !line.contains('\n'),
        s.len() != 0,
    ensures
        names(text::lines(with_line(content, line)), s) == (names(text::lines(content), s)
            || switch_of(line) == s),
    decreases content.len(),
{
    let q = |c: char| c != '\n';
    let all = with_line(content, line);
    let n = text::prefix_len(content, q);
    text::lemma_prefix_len(content, q);
    assert forall|i: int| 0 <= i < n implies q(#[trigger] all[i]) by {
        assert(q(content[i]));
    }
    assert(n < content.len() ==> all[n] == content[n]);
    text::lemma_prefix_len_is(all, q, n);
    assert(all.take(n) == content.take(n));
    let first = text::strip_cr(content.take(n));
    lemma_names_first(first, text::lines(all.skip(n + 1)), s);
    if n < content.len() {
        let rest = content.skip(n + 1);
        assert(all.skip(n + 1) == with_line(rest, line));
        lemma_names_first(first, text::lines(rest), s);
        lemma_line_added(rest, line, s);
    } else {
        assert(content.take(n) == content);
        assert(all.skip(n + 1) == line);
        if content.len() != 0 && content.last() == '\r' {
            text::lemma_trim_drop_last(content);
        }
        assert(switch_of(first) == switch_of(content));
        lemma_one_line(content, s);
        lemma_one_line(line, s);
    }
}

proof fn lemma_one_line(line: Seq<char>, s: Seq<char>)
    requires
        !line.contains('\n'),
        s.len() != 0,
    ensures
        names(text::lines(line), s) == (switch_of(line) == s),
{
    let q = |c: char| c != '\n';
    assert forall|i: int| 0 <= i < line.len() implies q(#[trigger] line[i]) by {
        assert(line.contains(line[i]));
    }
    text::lemma_prefix_len_is(line, q, line.len() as int);
    if line.len() == 0 {
        text::lemma_prefix_len(line, |c: char| text::is_space(c));
        assert(switch_of(line).len() == 0);
    } else {
        assert(text::lines(line)[0] == line);
    }
}

/// A blank line, or one more line for a switch that is named already, in whatever
/// case and with whatever white space around it, changes nothing.
pub proof fn lemma_blank_or_repeated_line(content: Seq<char>, line: Seq<char>)
    requires
        !line.contains('\n'),
        switch_of(line).len() == 0 || names(text::lines(content), switch_of(line)),
    ensures
        diag_flags(with_line(content, line)) == diag_flags(content),
{
    let more = with_line(content, line);
    assert forall|s: Seq<char>| s.len() != 0 implies #[trigger] names(text::lines(more), s)
        == names(text::lines(content), s) by {
        lemma_line_added(content, line, s);
    }
    lemma_flags_by_switches(more, content);
}

/// A line that is not known clears the selectors and keeps the modifiers.
pub proof fn lemma_unknown_line_added(content: Seq<char>, line: Seq<char>)
    requires
        !line.contains('\n'),
        is_unknown(line),
    ensures
        diag_flags(with_line(content, line)) == (
            false,
            false,
            false,
            diag_flags(content).3,
            diag_flags(content).4,
        ),
{
    lemma_literals_distinct();
    let more = text::lines(with_line(content, line));
    let s = switch_of(line);
    lemma_line_added(content, line, s);
    let i = choose|i: int| 0 <= i < more.len() && switch_of(#[trigger] more[i]) == s;
    assert(is_unknown(more[i]));
    lemma_line_added(content, line, "no_telemetry"@);
    lemma_line_added(content, line, "no_join"@);
}

/// A selector is set where some line names it and every line is blank, names it too, or
/// names a modifier; the modifiers are set exactly where some line names them, whatever
/// else stands in the file. Case and white space round a line make no difference.
pub proof fn lemma_switches_set(content: Seq<char>, i: int)
    requires
        0 <= i < text::lines(content).len(),
    ensures
        ({
            let lines = text::lines(content);
            let f = diag_flags(content);
            let said = text::ascii_lower_all(text::trim(lines[i]));
            let only = |s: Seq<char>|
                forall|j: int|
                    0 <= j < lines.len() ==> {
                        let t = text::ascii_lower_all(text::trim(#[trigger] lines[j]));
                        t.len() == 0 || t == s || t == "no_telemetry"@ || t == "no_join"@
                    };
            &&& said == "hooks"@ && only("hooks"@) ==> f.0 && !f.1 && !f.2
            &&& said == "grab"@ && only("grab"@) ==> f.1 && !f.0 && !f.2
            &&& said == "leave"@ && only("leave"@) ==> f.2 && !f.0 && !f.1
            &&& said == "no_telemetry"@ ==> f.3
            &&& said == "no_join"@ ==> f.4
            &&& f.3 ==> exists|j: int|
                0 <= j < lines.len() && text::ascii_lower_all(text::trim(#[trigger] lines[j]))
                    == "no_telemetry"@
            &&& f.4 ==> exists|j: int|
                0 <= j < lines.len() && text::ascii_lower_all(text::trim(#[trigger] lines[j]))
                    == "no_join"@
        }),
{
    lemma_literals_distinct();
    let lines = text::lines(content);
    assert(switch_of(lines[i]) == text::ascii_lower_all(text::trim(lines[i])));
    if names(lines, "no_telemetry"@) {
        let j = choose|j: int|
            0 <= j < lines.len() && switch_of(#[trigger] lines[j]) == "no_telemetry"@;
        assert(text::ascii_lower_all(text::trim(lines[j])) == "no_telemetry"@);
    }
    if names(lines, "no_join"@) {
        let j = choose|j: int| 0 <= j < lines.len() && switch_of(#[trigger] lines[j]) == "no_join"@;
        assert(text::ascii_lower_all(text::trim(lines[j])) == "no_join"@);
    }
}

/// Any other word voids the selectors, and so do two of them in one file.
pub proof fn lemma_selectors_void(content: Seq<char>, i: int, j: int)
    requires
        0 <= i < text::lines(content).len(),
        0 <= j < text::lines(content).len(),
    ensures
        ({
            let a = text::ascii_lower_all(text::trim(text::lines(content)[i]));
            let b = text::ascii_lower_all(text::trim(text::lines(content)[j]));
            let f = diag_flags(content);
            let selector = |s: Seq<char>| s == "hooks"@ || s == "grab"@ || s == "leave"@;
            &&& a.len() > 0 && !selector(a) && a != "no_telemetry"@ && a != "no_join"@ ==> !f.0
                && !f.1 && !f.2
            &&& selector(a) && selector(b) && a != b ==> !f.0 && !f.1 && !f.2
        }),
{
    lemma_literals_distinct();
    let lines = text::lines(content);
    assert(switch_of(lines[i]) == text::ascii_lower_all(text::trim(lines[i])));
    assert(switch_of(lines[j]) == text::ascii_lower_all(text::trim(lines[j])));
    if is_unknown(lines[i]) {
        assert(any_unknown(lines));
    }
}

} // verus!
