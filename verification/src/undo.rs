use vstd::prelude::*;
use crate::text::str_eq;

verus! {

/// How many ingests can be undone at most; older ones are forgotten.
pub const MAX_UNDO_ENTRIES: usize = 5;

/// How long, in seconds, an ingest can still be undone.
pub const UNDO_TTL_SECS: i64 = 10;

/// What is needed to reverse one ingest.
pub struct UndoEntry {
    pub event_id: String,
    pub src_path: String,
    pub dst_path: String,
    pub is_copy: bool,
    /// When the ingest happened, in nanoseconds since the Unix epoch (UTC).
    pub created_at: i64,
}

/// The most recent ingests, oldest first.
pub struct UndoStack {
    entries: Vec<UndoEntry>,
}

/// The stack after recording `e`: the oldest entry goes when the stack is full.
pub open spec fn push_spec(s: Seq<UndoEntry>, e: UndoEntry) -> Seq<UndoEntry> {
    if s.len() >= MAX_UNDO_ENTRIES {
        s.subrange(1, s.len() as int).push(e)
    } else {
        s.push(e)
    }
}

/// The position of the first entry for `id`, or -1.
pub open spec fn find_event(s: Seq<UndoEntry>, id: Seq<char>, k: int) -> int
    decreases s.len() - k,
{
    if k < 0 || k >= s.len() {
        -1
    } else if s[k].event_id@ == id {
        k
    } else {
        find_event(s, id, k + 1)
    }
}

/// Whole seconds from `from` to `to` (nanosecond timestamps), truncated toward zero.
pub open spec fn elapsed_secs(from: i64, to: i64) -> int {
    let d = to - from;
    if d >= 0 {
        d / 1_000_000_000
    } else {
        -((-d) / 1_000_000_000)
    }
}

/// The outcome of undoing `id` at time `now`: the stack after, and the entry taken out.
pub open spec fn undo_spec(s: Seq<UndoEntry>, id: Seq<char>, now: i64) -> (Seq<UndoEntry>, Option<UndoEntry>) {
    let p = find_event(s, id, 0);
    if p < 0 {
        (s, None)
    } else if elapsed_secs(s[p].created_at, now) > UNDO_TTL_SECS {
        (s, None)
    } else {
        (s.remove(p), Some(s[p]))
    }
}

/// The stack without the entries for `id`.
pub open spec fn invalidate_spec(s: Seq<UndoEntry>, id: Seq<char>) -> Seq<UndoEntry> {
    s.filter(|e: UndoEntry| e.event_id@ != id)
}

impl View for UndoStack {
    type V = Seq<UndoEntry>;

    closed spec fn view(&self) -> Seq<UndoEntry> {
        self.entries@
    }
}

impl UndoStack {
    #[verifier::type_invariant]
    spec fn bounded(&self) -> bool {
        self.entries@.len() <= MAX_UNDO_ENTRIES
    }

    /// An empty stack.
    pub fn new() -> (r: UndoStack)
        ensures
            r@ == Seq::<UndoEntry>::empty(),
    {
        UndoStack { entries: Vec::new() }
    }

    /// The entries, oldest first.
    pub fn entries(&self) -> (r: &Vec<UndoEntry>)
        ensures
            r@ == self@,
            r@.len() <= MAX_UNDO_ENTRIES,
    {
        proof {
            use_type_invariant(self);
        }
        &self.entries
    }

    /// Records an ingest, forgetting the oldest one when the stack is full.
    pub fn push(&mut self, entry: UndoEntry)
        ensures
            final(self)@ == push_spec(old(self)@, entry),
            final(self)@.len() <= MAX_UNDO_ENTRIES,
    {
        proof {
            use_type_invariant(&*self);
        }
        let mut entries = Vec::new();
        std::mem::swap(&mut entries, &mut self.entries);
        if entries.len() >= MAX_UNDO_ENTRIES {
            entries.remove(0);
        }
        entries.push(entry);
        self.entries = entries;
    }

    /// Takes out the first entry for `event_id` if it is at most `UNDO_TTL_SECS`
    /// whole seconds old at time `now`; otherwise leaves the stack as it is.
    pub fn try_undo_at(&mut self, event_id: &str, now: i64) -> (r: Option<UndoEntry>)
        ensures
            (final(self)@, r) == undo_spec(old(self)@, event_id@, now),
    {
        proof {
            use_type_invariant(&*self);
        }
        let mut k: usize = 0;
        while k < self.entries.len()
            invariant
                k <= self.entries@.len(),
                self.entries@ == old(self).entries@,
                self.entries@.len() <= MAX_UNDO_ENTRIES,
                find_event(self.entries@, event_id@, 0) == find_event(self.entries@, event_id@, k as int),
            decreases self.entries@.len() - k,
        {
            if str_eq(self.entries[k].event_id.as_str(), event_id) {
                let created = self.entries[k].created_at;
                let d: i128 = now as i128 - created as i128;
                let secs: i128 = if d >= 0 {
                    d / 1_000_000_000
                } else {
                    -((-d) / 1_000_000_000)
                };
                if secs > UNDO_TTL_SECS as i128 {
                    return None;
                }
                let mut entries = Vec::new();
                std::mem::swap(&mut entries, &mut self.entries);
                let e = entries.remove(k);
                self.entries = entries;
                return Some(e);
            }
            k += 1;
        }
        None
    }

    /// Takes out the first entry for `event_id`, judged at the current time.
    pub fn try_undo(&mut self, event_id: &str) -> (r: Option<UndoEntry>)
        ensures
            r is None ==> final(self)@ == old(self)@,
            r matches Some(e) ==> exists|now: i64| (final(self)@, r) == undo_spec(old(self)@, event_id@, now),
    {
        match crate::clock::utc_now_nanos() {
            Some(now) => self.try_undo_at(event_id, now),
            None => None,
        }
    }

    /// Forgets every entry for `event_id` (for example once a workflow has started on it).
    pub fn invalidate(&mut self, event_id: &str)
        ensures
            final(self)@ == invalidate_spec(old(self)@, event_id@),
    {
        proof {
            use_type_invariant(&*self);
        }
        let mut kept: Vec<UndoEntry> = Vec::new();
        let mut entries = Vec::new();
        std::mem::swap(&mut entries, &mut self.entries);
        let ghost orig = entries@;
        let ghost pred = |e: UndoEntry| e.event_id@ != event_id@;
        let n = entries.len();
        let mut k: usize = 0;
        while k < n
            invariant
                k <= n,
                n == orig.len(),
                entries@ == orig.subrange(k as int, n as int),
                kept@ == orig.subrange(0, k as int).filter(pred),
                kept@.len() <= k,
                k <= MAX_UNDO_ENTRIES,
                n <= MAX_UNDO_ENTRIES,
                pred == (|e: UndoEntry| e.event_id@ != event_id@),
            decreases n - k,
        {
            let e = entries.remove(0);
            proof {
                assert(orig.subrange(0, k as int + 1).drop_last() =~= orig.subrange(0, k as int));
                assert(entries@ =~= orig.subrange(k as int + 1, n as int));
                assert(e == orig[k as int]);
                assert(orig.subrange(0, k as int + 1).last() == e);
                assert(orig.subrange(0, k as int + 1) =~= orig.subrange(0, k as int).push(e));
                orig.subrange(0, k as int).lemma_filter_push(e, pred);
                orig.subrange(0, k as int).lemma_filter_len_push(pred, e);
            }
            if !str_eq(e.event_id.as_str(), event_id) {
                kept.push(e);
            }
            k += 1;
        }
        proof {
            assert(orig.subrange(0, n as int) =~= orig);
        }
        self.entries = kept;
    }
}

} // verus!
