//! The table of scan sessions and their cancellation flags.

use vstd::prelude::*;

verus! {

/// One started scan: the session key it belongs to, its token, and whether
/// it has been asked to stop.
pub struct CancelEntry {
    pub key: String,
    pub token: u64,
    pub cancelled: bool,
}

/// Scans in progress, keyed by session. Tokens are unique and below
/// `next_token`.
pub struct CancelRegistry {
    entries: Vec<CancelEntry>,
    next_token: u64,
}

pub open spec fn has_token(s: Seq<CancelEntry>, t: u64) -> bool {
    exists|i: int| 0 <= i < s.len() && (#[trigger] s[i]).token == t
}

/// The entry `e` after a cancellation request for `key`.
pub open spec fn after_cancel(e: CancelEntry, key: Seq<char>) -> CancelEntry {
    CancelEntry { cancelled: e.cancelled || e.key@ == key, ..e }
}

impl View for CancelRegistry {
    type V = Seq<CancelEntry>;

    closed spec fn view(&self) -> Seq<CancelEntry> {
        self.entries@
    }
}

impl CancelRegistry {
    pub closed spec fn wf(&self) -> bool {
        &&& forall|i: int| 0 <= i < self.entries@.len() ==> (#[trigger] self.entries@[i]).token < self.next_token
        &&& forall|i: int, j: int|
            0 <= i < j < self.entries@.len() ==> self.entries@[i].token != self.entries@[j].token
    }

    /// Every token has been issued.
    pub closed spec fn tokens_used_up(&self) -> bool {
        self.next_token == u64::MAX
    }

    /// An empty registry.
    pub fn new() -> (r: CancelRegistry)
        ensures
            r.wf(),
            r@.len() == 0,
            !r.tokens_used_up(),
    {
        CancelRegistry { entries: Vec::new(), next_token: 0 }
    }

    fn mark_cancelled(&mut self, key: &String)
        requires
            old(self).wf(),
        ensures
            final(self).wf(),
            final(self).next_token == old(self).next_token,
            final(self)@.len() == old(self)@.len(),
            forall|i: int| 0 <= i < old(self)@.len() ==> #[trigger] final(self)@[i] == after_cancel(old(self)@[i], key@),
    {
        let ghost s = self.entries@;
        let mut i: usize = 0;
        while i < self.entries.len()
            invariant
                self.next_token == old(self).next_token,
                self.entries@.len() == s.len(),
                i <= s.len(),
                forall|k: int| 0 <= k < i ==> #[trigger] self.entries@[k] == after_cancel(s[k], key@),
                forall|k: int| i <= k < s.len() ==> #[trigger] self.entries@[k] == s[k],
                forall|k: int| 0 <= k < s.len() ==> (#[trigger] s[k]).token < self.next_token,
                forall|a: int, b: int| 0 <= a < b < s.len() ==> s[a].token != s[b].token,
            decreases s.len() - i,
        {
            if self.entries[i].key == *key {
                self.entries[i].cancelled = true;
            }
            i += 1;
        }
        assert forall|a: int, b: int| 0 <= a < b < self.entries@.len() implies self.entries@[a].token != self.entries@[b].token by {
            assert(self.entries@[a] == after_cancel(s[a], key@));
            assert(self.entries@[b] == after_cancel(s[b], key@));
        }
        assert forall|a: int| 0 <= a < self.entries@.len() implies (#[trigger] self.entries@[a]).token < self.next_token by {
            assert(self.entries@[a] == after_cancel(s[a], key@));
        }
    }

    /// Starts a scan for `key`: every scan already started for the key is
    /// asked to stop, and a fresh, uncancelled token is issued. `None`, with
    /// nothing changed, only once every token has been used.
    pub fn begin(&mut self, key: &String) -> (r: Option<u64>)
        requires
            old(self).wf(),
        ensures
            final(self).wf(),
            r is None <==> old(self).tokens_used_up(),
            r is None ==> final(self)@ == old(self)@,
            r is Some ==> {
                let t = r->Some_0;
                &&& !has_token(old(self)@, t)
                &&& final(self)@.len() == old(self)@.len() + 1
                &&& forall|i: int| 0 <= i < old(self)@.len() ==> #[trigger] final(self)@[i] == after_cancel(old(self)@[i], key@)
                &&& final(self)@.last().key@ == key@
                &&& final(self)@.last().token == t
                &&& !final(self)@.last().cancelled
                &&& (final(self).tokens_used_up() <==> t + 1 == u64::MAX)
            },
    {
        if self.next_token == u64::MAX {
            return None;
        }
        self.mark_cancelled(key);
        let t = self.next_token;
        self.entries.push(CancelEntry { key: key.clone(), token: t, cancelled: false });
        self.next_token = t + 1;
        assert forall|a: int, b: int| 0 <= a < b < self.entries@.len() implies self.entries@[a].token != self.entries@[b].token by {
            if b == self.entries@.len() - 1 {
                assert(self.entries@[a].token < t);
            }
        }
        assert forall|a: int| 0 <= a < self.entries@.len() implies (#[trigger] self.entries@[a]).token < self.next_token by {}
        Some(t)
    }

    /// Asks every scan started for `key` to stop; nothing happens when there is none.
    pub fn cancel(&mut self, key: &String)
        requires
            old(self).wf(),
        ensures
            final(self).wf(),
            final(self).tokens_used_up() == old(self).tokens_used_up(),
            final(self)@.len() == old(self)@.len(),
            forall|i: int| 0 <= i < old(self)@.len() ==> #[trigger] final(self)@[i] == after_cancel(old(self)@[i], key@),
    {
        self.mark_cancelled(key);
    }

    /// Whether the scan holding `token` should stop: it was asked to, or it
    /// is no longer registered.
    pub fn is_cancelled(&self, token: u64) -> (r: bool)
        requires
            self.wf(),
        ensures
            r == !(exists|i: int| 0 <= i < self@.len() && (#[trigger] self@[i]).token == token && !self@[i].cancelled),
    {
        let mut i: usize = 0;
        while i < self.entries.len()
            invariant
                self.wf(),
                i <= self.entries@.len(),
                forall|k: int| 0 <= k < i ==> (#[trigger] self.entries@[k]).token != token,
            decreases self.entries@.len() - i,
        {
            if self.entries[i].token == token {
                proof {
                    if !self.entries@[i as int].cancelled {
                        assert(self@[i as int].token == token && !self@[i as int].cancelled);
                    } else {
                        assert forall|k: int| 0 <= k < self@.len() && (#[trigger] self@[k]).token == token implies self@[k].cancelled by {
                            if k != i {
                                assert(self.entries@[k].token != self.entries@[i as int].token);
                            }
                        }
                    }
                }
                return self.entries[i].cancelled;
            }
            i += 1;
        }
        true
    }

    /// Removes the scan holding `token`, when its loop has ended.
    pub fn retire(&mut self, token: u64)
        requires
            old(self).wf(),
        ensures
            final(self).wf(),
            final(self).tokens_used_up() == old(self).tokens_used_up(),
            !has_token(final(self)@, token),
            !has_token(old(self)@, token) ==> final(self)@ == old(self)@,
            has_token(old(self)@, token) ==> exists|i: int|
                0 <= i < old(self)@.len() && (#[trigger] old(self)@[i]).token == token && final(self)@
                    == old(self)@.remove(i),
    {
        let ghost s = self.entries@;
        let mut i: usize = 0;
        while i < self.entries.len()
            invariant
                self.entries@ == s,
                s == old(self).entries@,
                self.next_token == old(self).next_token,
                old(self).wf(),
                i <= s.len(),
                forall|k: int| 0 <= k < i ==> (#[trigger] s[k]).token != token,
            decreases s.len() - i,
        {
            if self.entries[i].token == token {
                self.entries.remove(i);
                proof {
                    let f = self.entries@;
                    assert(f == s.remove(i as int));
                    assert forall|a: int| 0 <= a < f.len() implies (#[trigger] f[a]).token < self.next_token by {
                        if a < i {
                            assert(f[a] == s[a]);
                        } else {
                            assert(f[a] == s[a + 1]);
                        }
                    }
                    assert forall|a: int, b: int| 0 <= a < b < f.len() implies f[a].token != f[b].token by {
                        let a2 = if a < i { a } else { a + 1 };
                        let b2 = if b < i { b } else { b + 1 };
                        assert(f[a] == s[a2]);
                        assert(f[b] == s[b2]);
                    }
                    assert forall|a: int| 0 <= a < f.len() implies (#[trigger] f[a]).token != token by {
                        let a2 = if a < i { a } else { a + 1 };
                        assert(f[a] == s[a2]);
                    }
                }
                return;
            }
            i += 1;
        }
    }
}

/// A scan started again for a key after that key was cancelled runs on a
/// fresh token that is not cancelled, while every earlier scan of the key
/// stays cancelled.
pub proof fn lemma_restart_after_cancel(
    before: Seq<CancelEntry>,
    cancelled: Seq<CancelEntry>,
    after: Seq<CancelEntry>,
    key: Seq<char>,
    t: u64,
)
    requires
        cancelled.len() == before.len(),
        forall|i: int| 0 <= i < before.len() ==> #[trigger] cancelled[i] == after_cancel(before[i], key),
        !has_token(cancelled, t),
        after.len() == cancelled.len() + 1,
        forall|i: int| 0 <= i < cancelled.len() ==> #[trigger] after[i] == after_cancel(cancelled[i], key),
        after.last().key@ == key,
        after.last().token == t,
        !after.last().cancelled,
    ensures
        !has_token(before, t),
        forall|i: int| 0 <= i < before.len() && (#[trigger] before[i]).key@ == key ==> after[i].cancelled,
        forall|i: int| 0 <= i < after.len() && (#[trigger] after[i]).token == t ==> !after[i].cancelled,
{
    assert forall|i: int| 0 <= i < before.len() implies (#[trigger] before[i]).token != t by {
        assert(cancelled[i].token == before[i].token);
    }
    assert forall|i: int| 0 <= i < after.len() && (#[trigger] after[i]).token == t implies !after[i].cancelled by {
        if i < cancelled.len() {
            assert(after[i].token == cancelled[i].token);
        }
    }
}

} // verus!
