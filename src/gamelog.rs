use vstd::prelude::*;

verus! {

/// An ordered, append-only list of human-readable messages.
pub struct GameLog {
    pub entries: Vec<String>,
}

impl GameLog {
    /// An empty log.
    pub fn new() -> (r: Self)
        ensures
            r.entries@ == Seq::<String>::empty(),
    {
        GameLog { entries: Vec::new() }
    }

    /// Appends `entry` after every message already logged.
    pub fn add(&mut self, entry: String)
        ensures
            final(self).entries@ == old(self).entries@.push(entry),
    {
        self.entries.push(entry);
    }

    /// A copy of every message, oldest first.
    pub fn get_messages(&self) -> (r: Vec<String>)
        ensures
            r@ == self.entries@,
    {
        let mut out: Vec<String> = Vec::new();
        let mut i: usize = 0;
        while i < self.entries.len()
            invariant
                i <= self.entries@.len(),
                out@ == self.entries@.subrange(0, i as int),
            decreases self.entries@.len() - i,
        {
            out.push(self.entries[i].clone());
            proof {
                assert(out@ =~= self.entries@.subrange(0, i + 1));
            }
            i = i + 1;
        }
        proof {
            assert(out@ =~= self.entries@);
        }
        out
    }
}

} // verus!
