//! When a change in a watched working tree is worth a notice: changes
//! inside the repository's own `.git` directory are ignored, and notices
//! are at least a quiet interval apart.

use vstd::prelude::*;

verus! {

/// The least time between two change notices, in milliseconds.
pub const QUIET_MS: u64 = 300;

/// The time of the last notice, if any.
pub struct ChangeDebouncer {
    pub last_emit_ms: Option<u64>,
}

/// Whether a change seen at `now_ms` gets a notice.
pub open spec fn emits(last: Option<u64>, now_ms: u64, in_git_dir: bool) -> bool {
    !in_git_dir && match last {
        None => true,
        Some(t) => now_ms >= t && now_ms - t >= QUIET_MS,
    }
}

impl ChangeDebouncer {
    pub fn new() -> (r: ChangeDebouncer)
        ensures
            r.last_emit_ms is None,
    {
        ChangeDebouncer { last_emit_ms: None }
    }

    /// A change was seen at `now_ms` (on a clock that does not run
    /// backwards); returns whether to publish a notice, and remembers the
    /// time when it does.
    pub fn on_change(&mut self, now_ms: u64, in_git_dir: bool) -> (r: bool)
        ensures
            r == emits(old(self).last_emit_ms, now_ms, in_git_dir),
            final(self).last_emit_ms == if r {
                Some(now_ms)
            } else {
                old(self).last_emit_ms
            },
    {
        let due = !in_git_dir && match self.last_emit_ms {
            None => true,
            Some(t) => now_ms >= t && now_ms - t >= QUIET_MS,
        };
        if due {
            self.last_emit_ms = Some(now_ms);
        }
        due
    }
}

/// Two notices are never closer together than the quiet interval.
pub proof fn lemma_notices_spaced(last: u64, now_ms: u64, in_git_dir: bool)
    ensures
        emits(Some(last), now_ms, in_git_dir) ==> now_ms - last >= QUIET_MS,
{
}

} // verus!
