use vstd::prelude::*;

verus! {

/// Lines waiting to be written out, in order.
pub struct Writer {
    lines: Vec<String>,
}

impl Writer {
    /// The lines held, as character sequences.
    pub closed spec fn view(&self) -> Seq<Seq<char>> {
        self.lines@.map_values(|s: String| s@)
    }

    /// A writer that holds no line.
    pub fn new() -> (r: Writer)
        ensures
            r.view() == Seq::<Seq<char>>::empty(),
    {
        Writer { lines: Vec::new() }
    }

    /// Queues one line; it is written out followed by a line break.
    pub fn add_line(&mut self, line: String)
        ensures
            final(self).view() == old(self).view().push(line@),
    {
        self.lines.push(line);
        assert(self.view() =~= old(self).view().push(line@));
    }

    /// Hands out the queued lines, in order, and leaves the writer empty.
    pub fn print(&mut self) -> (r: Vec<String>)
        ensures
            r@.map_values(|s: String| s@) == old(self).view(),
            final(self).view() == Seq::<Seq<char>>::empty(),
    {
        let mut out: Vec<String> = Vec::new();
        std::mem::swap(&mut out, &mut self.lines);
        assert(self.view() =~= Seq::<Seq<char>>::empty());
        out
    }
}

} // verus!
