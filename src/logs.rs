use vstd::prelude::*;

verus! {

/// Relies on serde_json::Value being an ordinary owned value; it is carried
/// through untouched.
#[verifier::external_type_specification]
#[verifier::external_body]
pub struct ExJsonValue(serde_json::Value);

/// Most entries the diagnostic log keeps.
pub const MAX_LOG_ENTRIES: usize = 1000;

/// One diagnostic log record.
#[derive(Debug)]
pub struct LogEntry {
    pub id: String,
    pub timestamp: u64,
    pub level: String,
    pub category: String,
    pub message: String,
    pub data: Option<serde_json::Value>,
}

/// The stored log, oldest first.
#[derive(Debug)]
pub struct LogStorage {
    pub logs: Vec<LogEntry>,
}

/// The last `n` elements of `s` (all of them when there are fewer).
pub open spec fn keep_last<T>(s: Seq<T>, n: nat) -> Seq<T> {
    if s.len() > n {
        s.subrange(s.len() - n, s.len() as int)
    } else {
        s
    }
}

impl LogStorage {
    pub fn new() -> (r: LogStorage)
        ensures
            r.logs@.len() == 0,
    {
        LogStorage { logs: Vec::new() }
    }

    /// Appends `entry`, then drops the oldest entries beyond the bound: the
    /// most recent entries are kept, in their order.
    pub fn append(&mut self, entry: LogEntry)
        ensures
            final(self).logs@ == keep_last(old(self).logs@.push(entry), MAX_LOG_ENTRIES as nat),
    {
        let ghost all = self.logs@.push(entry);
        self.logs.push(entry);
        assert(self.logs@ =~= all.subrange(0, all.len() as int));
        while self.logs.len() > MAX_LOG_ENTRIES
            invariant
                all.len() >= self.logs@.len(),
                all.len() > MAX_LOG_ENTRIES ==> self.logs@.len() >= MAX_LOG_ENTRIES,
                all.len() <= MAX_LOG_ENTRIES ==> self.logs@ == all,
                self.logs@ == all.subrange(all.len() - self.logs@.len(), all.len() as int),
            decreases self.logs@.len(),
        {
            self.logs.remove(0);
            assert(self.logs@ =~= all.subrange(all.len() - self.logs@.len(), all.len() as int));
        }
        assert(self.logs@.len() == all.len() ==> self.logs@ =~= all);
    }
}

} // verus!
