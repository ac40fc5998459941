//! The commands of the command file.
//!
//! The file is an append-only history. A line is carried out once; a number in
//! front of it, such as `#001`, tells two runs of the same command apart.
use vstd::prelude::*;

use crate::text;

verus! {

/// The mark of a run in the log.
pub open spec fn mark(runid: Option<u64>) -> Seq<char> {
    match runid {
        Some(id) => "#"@ + text::zero_padded(text::dec(id as int), 3),
        None => "no-runid"@,
    }
}

pub fn marker(runid: Option<u64>) -> (r: String)
    ensures
        r@ == mark(runid),
{
    match runid {
        Some(id) => text::cat2("#", text::padded_of(id, 10, false, 3).as_str()),
        None => text::text_of("no-runid"),
    }
}

/// A command line taken apart: the number of its run, and its words.
pub ghost struct Parsed {
    pub runid: Option<u64>,
    pub words: Seq<Seq<char>>,
}

/// What a line says: nothing where it is blank, or where it begins with a `#`
/// that no number follows.
pub open spec fn parsed(line: Seq<char>) -> Option<Parsed> {
    let w = text::words(line);
    if w.len() == 0 {
        None
    } else if w[0].len() > 0 && w[0][0] == '#' {
        match text::parse_unsigned(w[0].drop_first(), u64::MAX as int) {
            Some(n) => Some(Parsed { runid: Some(n as u64), words: w.drop_first() }),
            None => None,
        }
    } else {
        Some(Parsed { runid: None, words: w })
    }
}

pub open spec fn opt_parsed(o: Option<(Option<u64>, Vec<String>)>) -> Option<Parsed> {
    match o {
        Some(p) => Some(Parsed { runid: p.0, words: text::views(p.1@) }),
        None => None,
    }
}

/// Parses one line: `#<runid> <command> [arguments]` or `<command> [arguments]`.
pub fn parse_cmd_line(line: &str) -> (r: Option<(Option<u64>, Vec<String>)>)
    ensures
        opt_parsed(r) == parsed(line@),
{
    let v = text::chars_of(line);
    let mut parts = text::split_words(v.as_slice());
    let ghost w = text::words(line@);
    if parts.len() == 0 {
        return None;
    }
    let first = text::chars_of(parts[0].as_str());
    assert(first@ == w[0]);
    if first.len() > 0 && first[0] == '#' {
        let rest = vstd::slice::slice_subrange(first.as_slice(), 1, first.len());
        assert(rest@ == w[0].drop_first());
        match text::number_of(rest, u64::MAX) {
            Some(n) => {
                parts.remove(0);
                assert(text::views(parts@) == w.drop_first());
                Some((Some(n), parts))
            },
            None => None,
        }
    } else {
        Some((None, parts))
    }
}

/// The lines that were carried out, or that were there before.
pub struct Seen {
    lines: Vec<String>,
}

impl View for Seen {
    type V = Set<Seq<char>>;

    closed spec fn view(&self) -> Set<Seq<char>> {
        text::views(self.lines@).to_set()
    }
}

impl Seen {
    #[verifier::type_invariant]
    spec fn distinct(self) -> bool {
        text::views(self.lines@).no_duplicates()
    }

    pub fn new() -> (r: Seen)
        ensures
            r@ == Set::<Seq<char>>::empty(),
    {
        let lines: Vec<String> = Vec::new();
        assert(text::views(lines@) == Seq::<Seq<char>>::empty());
        let r = Seen { lines };
        assert(r@ == Set::<Seq<char>>::empty());
        r
    }

    /// How many lines there are.
    pub fn len(&self) -> (r: usize)
        ensures
            r == self@.len(),
            self@.finite(),
    {
        proof {
            use_type_invariant(self);
            text::views(self.lines@).unique_seq_to_set();
            vstd::seq_lib::seq_to_set_is_finite(text::views(self.lines@));
        }
        self.lines.len()
    }

    pub fn is_empty(&self) -> (r: bool)
        ensures
            r == (self@ == Set::<Seq<char>>::empty()),
    {
        proof {
            let v = text::views(self.lines@);
            if v.len() > 0 {
                assert(self@.contains(v[0]));
            } else {
                assert(self@ == Set::<Seq<char>>::empty());
            }
        }
        self.lines.len() == 0
    }

    /// Adds a line, and tells whether it was not there yet.
    pub fn insert(&mut self, line: String) -> (r: bool)
        ensures
            r == !old(self)@.contains(line@),
            final(self)@ == old(self)@.insert(line@),
    {
        proof {
            use_type_invariant(&*self);
        }
        let ghost before = text::views(self.lines@);
        let ghost l = line@;
        if text::has_string(&self.lines, &line) {
            assert(self@.insert(l) == self@);
            return false;
        }
        let mut lines: Vec<String> = Vec::new();
        std::mem::swap(&mut lines, &mut self.lines);
        lines.push(line);
        assert(text::views(lines@) == before.push(l));
        self.lines = lines;
        proof {
            let after = before.push(l);
            assert forall|x: Seq<char>| after.to_set().contains(x) == before.to_set().insert(
                l,
            ).contains(x) by {
                if x == l {
                    assert(after[before.len() as int] == l);
                }
                if before.contains(x) {
                    let i = before.index_of(x);
                    assert(after[i] == x);
                }
            }
            assert(after.to_set() == before.to_set().insert(l));
        }
        true
    }
}

/// Whether a line is to be carried out: it is not blank, and was not seen.
pub open spec fn is_new(line: Seq<char>, seen: Set<Seq<char>>) -> bool {
    text::trim(line).len() != 0 && !seen.contains(text::trim(line))
}

/// What has been seen once a line was considered.
pub open spec fn seen_with(line: Seq<char>, seen: Set<Seq<char>>) -> Set<Seq<char>> {
    if text::trim(line).len() != 0 {
        seen.insert(text::trim(line))
    } else {
        seen
    }
}

/// Decides whether a line is to be carried out, and remembers it.
pub fn line_is_new(line: &str, seen: &mut Seen) -> (r: bool)
    ensures
        r == is_new(line@, old(seen)@),
        final(seen)@ == seen_with(line@, old(seen)@),
{
    let v = text::chars_of(line);
    let t = text::trimmed(v.as_slice());
    if t.len() == 0 {
        return false;
    }
    seen.insert(text::string_of(t))
}

/// A line is carried out once: considered again, it is not new.
pub proof fn lemma_line_once(line: Seq<char>, seen: Set<Seq<char>>)
    ensures
        !is_new(line, seen_with(line, seen)),
{
}

/// Considering a line leaves every other line as new as it was; two runs of a
/// command differ in their numbers, so both are carried out.
pub proof fn lemma_other_lines_stay_new(a: Seq<char>, b: Seq<char>, seen: Set<Seq<char>>)
    requires
        text::trim(a) != text::trim(b),
    ensures
        is_new(b, seen_with(a, seen)) == is_new(b, seen),
{
}

/// A run has a mark of its own: two different numbers give two different marks, and no
/// number gives a mark that no number has. A mark is a `#` and at least three digits
/// that write the number.
pub proof fn lemma_marks_differ(a: Option<u64>, b: Option<u64>)
    ensures
        a != b ==> mark(a) != mark(b),
        forall|n: u64|
            a == Some(n) ==> mark(a).len() >= 4 && mark(a)[0] == '#' && #[trigger] text::value_in(
                mark(a).drop_first(),
                10,
            ) == n,
        a is None ==> mark(a) == "no-runid"@,
{
    reveal_strlit("#");
    reveal_strlit("no-runid");
    assert("no-runid"@[0] == 'n');
    if a is Some {
        lemma_mark_reads(a->0);
    }
    if b is Some {
        lemma_mark_reads(b->0);
    }
}

proof fn lemma_mark_reads(n: u64)
    ensures
        mark(Some(n)).len() >= 4,
        mark(Some(n))[0] == '#',
        text::value_in(mark(Some(n)).drop_first(), 10) == n,
{
    reveal_strlit("#");
    let d = text::dec(n as int);
    let z = text::zero_padded(d, 3);
    text::lemma_numeral_reads_back(n as int, 10, false);
    text::lemma_zero_padded(d, 3, 10);
    assert(mark(Some(n)).drop_first() =~= z);
}

/// A command is found behind its number: a line of `#`, a number written in decimal
/// with zeros in front or without, and words behind white space is the run of that
/// number with those words.
pub proof fn lemma_numbered_line(n: u64, width: int, c: char, rest: Seq<char>)
    requires
        text::is_space(c),
    ensures
        parsed(seq!['#'] + text::zero_padded(text::dec(n as int), width) + seq![c] + rest) == Some(
            Parsed { runid: Some(n), words: text::words(rest) },
        ),
{
    let d = text::dec(n as int);
    let z = text::zero_padded(d, width);
    let w = seq!['#'] + z;
    text::lemma_numeral_reads_back(n as int, 10, false);
    text::lemma_zero_padded(d, width, 10);
    assert forall|i: int| 0 <= i < w.len() implies !text::is_space(#[trigger] w[i]) by {
        if i > 0 {
            let k = z.len() - d.len();
            assert(w[i] == z[i - 1]);
            if i - 1 >= k {
                assert(z.skip(k)[i - 1 - k] == d[i - 1 - k]);
                assert(0 <= text::digit_value(text::numeral(n as int, 10, false)[i - 1 - k]) < 10);
            }
        }
    }
    text::lemma_words_parted(w, c, rest);
    let all = text::words(w + seq![c] + rest);
    assert(all[0] == w);
    assert(all.drop_first() =~= text::words(rest));
    assert(w.drop_first() =~= z);
    text::lemma_decimal_reads_back(n as int, width, u64::MAX as int);
}

/// A line without a number is a command with its words; a blank line is none, and so is
/// one whose first word is a `#` without a number behind it.
pub proof fn lemma_plain_line(w: Seq<char>, c: char, rest: Seq<char>)
    requires
        text::is_space(c),
        w.len() > 0,
        forall|i: int| 0 <= i < w.len() ==> !text::is_space(#[trigger] w[i]),
    ensures
        w[0] != '#' ==> parsed(w + seq![c] + rest) == Some(
            Parsed { runid: None, words: seq![w] + text::words(rest) },
        ),
        w[0] != '#' ==> parsed(w) == Some(Parsed { runid: None, words: seq![w] }),
        w[0] == '#' && w.len() == 1 ==> parsed(w + seq![c] + rest) is None,
        forall|i: int|
            w[0] == '#' && 1 < i < w.len() && !('0' <= #[trigger] w[i] <= '9') ==> parsed(
                w + seq![c] + rest,
            ) is None,
        text::words(rest).len() == 0 ==> parsed(seq![c] + rest) is None,
{
    text::lemma_words_parted(w, c, rest);
    let all = text::words(w + seq![c] + rest);
    assert(all[0] == w);
    if w[0] == '#' {
        let t = w.drop_first();
        if w.len() == 1 {
            text::lemma_no_number(t, 0, u64::MAX as int);
        }
        assert forall|i: int|
            w[0] == '#' && 1 < i < w.len() && !('0' <= #[trigger] w[i] <= '9') implies parsed(
            w + seq![c] + rest,
        ) is None by {
            assert(t[i - 1] == w[i]);
            text::lemma_no_number(t, i - 1, u64::MAX as int);
        }
    }
}

/// A line counts without the white space round it: padded with blanks it is the line
/// that it was, and a line of blanks is never carried out.
pub proof fn lemma_padding_is_no_difference(
    before: Seq<char>,
    line: Seq<char>,
    behind: Seq<char>,
    seen: Set<Seq<char>>,
)
    requires
        forall|i: int| 0 <= i < before.len() ==> text::is_space(#[trigger] before[i]),
        forall|i: int| 0 <= i < behind.len() ==> text::is_space(#[trigger] behind[i]),
        line.len() > 0 ==> !text::is_space(line[0]) && !text::is_space(line.last()),
    ensures
        is_new(before + line + behind, seen) <==> line.len() > 0 && !seen.contains(line),
        line.len() > 0 ==> seen_with(before + line + behind, seen) == seen.insert(line),
        line.len() == 0 ==> seen_with(before + line + behind, seen) == seen,
{
    text::lemma_trim_between(before, line, behind);
}

/// A parsed line is its number and its words.
pub proof fn lemma_opt_parsed(runid: Option<u64>, words: Vec<String>)
    ensures
        opt_parsed(Some((runid, words))) == Some(Parsed { runid, words: text::views(words@) }),
        opt_parsed(None) is None,
{
}

} // verus!
