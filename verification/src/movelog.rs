use vstd::prelude::*;

verus! {

/// One completed move: the path the file had before the move, and the
/// full path it was moved to.
#[derive(Debug)]
pub struct MoveLogEntry {
    pub src: String,
    pub dest: String,
}

impl View for MoveLogEntry {
    type V = (Seq<char>, Seq<char>);

    open spec fn view(&self) -> (Seq<char>, Seq<char>) {
        (self.src@, self.dest@)
    }
}

impl MoveLogEntry {
    /// A copy of the entry with the same paths.
    pub fn duplicate(&self) -> (r: MoveLogEntry)
        ensures
            r@ == self@,
    {
        MoveLogEntry { src: self.src.clone(), dest: self.dest.clone() }
    }
}

/// The views of a sequence of move log entries.
pub open spec fn entry_views(s: Seq<MoveLogEntry>) -> Seq<(Seq<char>, Seq<char>)> {
    s.map_values(|e: MoveLogEntry| e@)
}

/// The move log: an append-only record of completed moves with stack
/// semantics. Only the most recent entry may be undone, and undoing
/// removes it permanently; no entry is ever inspected or changed except
/// the top of the stack.
pub struct MoveLog {
    entries: Vec<MoveLogEntry>,
}

impl View for MoveLog {
    type V = Seq<(Seq<char>, Seq<char>)>;

    closed spec fn view(&self) -> Seq<(Seq<char>, Seq<char>)> {
        entry_views(self.entries@)
    }
}

impl MoveLog {
    /// An empty log.
    pub fn new() -> (r: MoveLog)
        ensures
            r@ == Seq::<(Seq<char>, Seq<char>)>::empty(),
    {
        let r = MoveLog { entries: Vec::new() };
        proof {
            assert(r@ =~= Seq::<(Seq<char>, Seq<char>)>::empty());
        }
        r
    }

    /// The number of recorded moves.
    pub fn len(&self) -> (r: usize)
        ensures
            r == self@.len(),
    {
        self.entries.len()
    }

    /// Appends a completed move; never fails.
    pub fn record(&mut self, entry: MoveLogEntry)
        ensures
            final(self)@ == old(self)@.push(entry@),
    {
        let ghost e0 = self.entries@;
        proof {
            assert(entry_views(e0.push(entry)) =~= entry_views(e0).push(entry@));
        }
        self.entries.push(entry);
    }

    /// The most recent entry, or nothing when the log is empty. The log
    /// itself is left unchanged.
    pub fn last(&self) -> (r: Option<MoveLogEntry>)
        ensures
            match r {
                Some(e) => self@.len() > 0 && e@ == self@.last(),
                None => self@.len() == 0,
            },
    {
        if self.entries.len() == 0 {
            None
        } else {
            Some(self.entries[self.entries.len() - 1].duplicate())
        }
    }

    /// Removes and returns the most recent entry, or nothing when the log
    /// is empty.
    pub fn pop_last(&mut self) -> (r: Option<MoveLogEntry>)
        ensures
            match r {
                Some(e) => old(self)@.len() > 0 && e@ == old(self)@.last() && final(self)@ == old(
                    self,
                )@.drop_last(),
                None => old(self)@.len() == 0 && final(self)@ == old(self)@,
            },
    {
        let ghost e0 = self.entries@;
        let r = self.entries.pop();
        proof {
            if e0.len() > 0 {
                assert(entry_views(e0.drop_last()) =~= entry_views(e0).drop_last());
            }
        }
        r
    }
}

} // verus!
