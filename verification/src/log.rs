//! What is said to the log.
use vstd::prelude::*;

use crate::text;
use crate::time;

verus! {

/// The lines said so far, oldest first.
pub struct Log {
    pub lines: Vec<String>,
}

impl View for Log {
    type V = Seq<Seq<char>>;

    open spec fn view(&self) -> Seq<Seq<char>> {
        text::views(self.lines@)
    }
}

impl Log {
    pub fn new() -> (r: Log)
        ensures
            r@ == Seq::<Seq<char>>::empty(),
    {
        let r = Log { lines: Vec::new() };
        assert(r@ == Seq::<Seq<char>>::empty());
        r
    }

    /// Adds a line.
    pub fn say(&mut self, line: String)
        ensures
            final(self)@ == old(self)@.push(line@),
    {
        let ghost before = self@;
        let ghost l = line@;
        self.lines.push(line);
        assert(self@ == before.push(l));
    }

    /// Adds the lines of another log.
    pub fn extend(&mut self, more: &mut Log)
        ensures
            final(self)@ == old(self)@ + old(more)@,
            final(more)@ == Seq::<Seq<char>>::empty(),
    {
        let ghost a = self.lines@;
        let ghost b = more.lines@;
        self.lines.append(&mut more.lines);
        assert(text::views(a + b) == text::views(a) + text::views(b));
        assert(more@ == Seq::<Seq<char>>::empty());
    }
}

/// A line of the log file: the time stamp in brackets, then what is said.
pub fn stamped(secs: u64, msg: &str) -> (r: String)
    ensures
        r@ == "["@ + time::stamp(secs as int) + "] "@ + msg@,
{
    let s = time::ts_from_secs(secs);
    let mut line = text::cat3("[", s.as_str(), "] ");
    line.append(msg);
    line
}

} // verus!
