//! Per-call conversation continuity: each call id maps to the generator's
//! continuation token and the time it was last used. Every access first
//! evicts entries idle longer than the timeout, so an evicted session
//! starts fresh with no token.

use vstd::prelude::*;
use crate::vad::elapsed;

verus! {

/// One session: the continuation token and its last use.
pub struct SessionEntry {
    pub conversation_id: Option<String>,
    pub last_used: u64,
}

/// Ghost image of one session.
pub struct SessionModel {
    pub conversation_id: Option<Seq<char>>,
    pub last_used: u64,
}

impl SessionEntry {
    pub open spec fn model(self) -> SessionModel {
        SessionModel {
            conversation_id: match self.conversation_id {
                Some(c) => Some(c@),
                None => None,
            },
            last_used: self.last_used,
        }
    }
}

/// An entry is live at `now` if it has been used within the timeout.
pub open spec fn live(e: SessionModel, now: u64, ttl_ms: u64) -> bool {
    elapsed(now, e.last_used) < ttl_ms
}

/// First entry for a key in an association sequence.
pub open spec fn assoc_lookup(s: Seq<(String, SessionEntry)>, k: Seq<char>)
    -> Option<SessionModel>
    decreases s.len(),
{
    if s.len() == 0 {
        None::<SessionModel>
    } else if s[0].0@ == k {
        Some(s[0].1.model())
    } else {
        assoc_lookup(s.skip(1), k)
    }
}

/// The entries that survive eviction at `now`.
pub open spec fn evicted(s: Seq<(String, SessionEntry)>, now: u64, ttl_ms: u64)
    -> Seq<(String, SessionEntry)>
    decreases s.len(),
{
    if s.len() == 0 {
        s
    } else if live(s[0].1.model(), now, ttl_ms) {
        s.subrange(0, 1) + evicted(s.skip(1), now, ttl_ms)
    } else {
        evicted(s.skip(1), now, ttl_ms)
    }
}

/// Conversation sessions keyed by call id, with idle-timeout eviction.
pub struct SessionStore {
    entries: Vec<(String, SessionEntry)>,
    ttl_ms: u64,
}

impl SessionStore {
    /// The store as a lookup function from call id to session.
    pub closed spec fn lookup(self, k: Seq<char>) -> Option<SessionModel> {
        assoc_lookup(self.entries@, k)
    }

    /// The configured idle timeout.
    pub closed spec fn ttl(self) -> u64 {
        self.ttl_ms
    }

    /// Keys are unique.
    pub closed spec fn wf(self) -> bool {
        forall|i: int, j: int| 0 <= i < j < self.entries@.len()
            ==> (#[trigger] self.entries@[i]).0@ != (#[trigger] self.entries@[j]).0@
    }

    /// An empty store with the given idle timeout.
    pub fn new(ttl_ms: u64) -> (r: SessionStore)
        ensures
            r.wf(),
            r.ttl() == ttl_ms,
            forall|k: Seq<char>| r.lookup(k) is None,
    {
        SessionStore { entries: Vec::new(), ttl_ms }
    }

    /// Drop every entry idle past the timeout.
    fn evict(&mut self, now_ms: u64)
        requires
            old(self).wf(),
        ensures
            final(self).wf(),
            final(self).ttl() == old(self).ttl(),
            forall|k: Seq<char>| final(self).lookup(k) == (
                match old(self).lookup(k) {
                    Some(e) => if live(e, now_ms, old(self).ttl()) {
                        Some(e)
                    } else {
                        None::<SessionModel>
                    },
                    None => None::<SessionModel>,
                }),
    {
        let ghost pre = self.entries@;
        let ttl = self.ttl_ms;
        let mut kept: Vec<(String, SessionEntry)> = Vec::new();
        let mut i = self.entries.len();
        proof {
            assert(pre.skip(pre.len() as int) =~= Seq::<(String, SessionEntry)>::empty());
        }
        while i > 0
            invariant
                i <= pre.len(),
                self.entries@ == pre.subrange(0, i as int),
                self.ttl_ms == ttl,
                ttl == old(self).ttl(),
                kept@ == evicted(pre.skip(i as int), now_ms, ttl),
            decreases i,
        {
            i -= 1;
            let popped = self.entries.pop();
            if let Some(pair) = popped {
                proof {
                    assert(pre.subrange(0, i + 1).last() == pre[i as int]);
                    assert(pre.subrange(0, i + 1).drop_last() =~= pre.subrange(0, i as int));
                    assert(pre.skip(i as int)[0] == pre[i as int]);
                    assert(pre.skip(i as int).skip(1) =~= pre.skip(i + 1));
                }
                let lv = if now_ms >= pair.1.last_used {
                    now_ms - pair.1.last_used < ttl
                } else {
                    0 < ttl
                };
                if lv {
                    kept.insert(0, pair);
                    proof {
                        assert(kept@ =~= pre.skip(i as int).subrange(0, 1)
                            + evicted(pre.skip(i + 1), now_ms, ttl));
                    }
                }
            }
        }
        proof {
            assert(pre.skip(0) =~= pre);
        }
        self.entries = kept;
        proof {
            lemma_evicted_wf(pre, now_ms, ttl);
            assert forall|k: Seq<char>| #[trigger] final(self).lookup(k) == (
                match assoc_lookup(pre, k) {
                    Some(e) => if live(e, now_ms, old(self).ttl()) {
                        Some(e)
                    } else {
                        None::<SessionModel>
                    },
                    None => None::<SessionModel>,
                }) by {
                lemma_evicted_lookup(pre, now_ms, old(self).ttl(), k);
            }
        }
    }

    /// Begin a turn: evict idle sessions, create or refresh this call's
    /// entry, and hand back the continuation token of a live session.
    pub fn begin_turn(&mut self, call_sid: &str, now_ms: u64) -> (r: Option<String>)
        requires
            old(self).wf(),
        ensures
            final(self).wf(),
            final(self).ttl() == old(self).ttl(),
            ({
                let prior = match old(self).lookup(call_sid@) {
                    Some(e) => if live(e, now_ms, old(self).ttl()) {
                        e.conversation_id
                    } else {
                        None::<Seq<char>>
                    },
                    None => None::<Seq<char>>,
                };
                &&& match (r, prior) {
                    (Some(a), Some(b)) => a@ == b,
                    (None, None) => true,
                    _ => false,
                }
                &&& final(self).lookup(call_sid@) == Some(SessionModel {
                    conversation_id: prior,
                    last_used: now_ms,
                })
            }),
            forall|k: Seq<char>| k != call_sid@ ==> final(self).lookup(k) == (
                match old(self).lookup(k) {
                    Some(e) => if live(e, now_ms, old(self).ttl()) {
                        Some(e)
                    } else {
                        None::<SessionModel>
                    },
                    None => None::<SessionModel>,
                }),
    {
        self.evict(now_ms);
        let ghost mid = *self;
        let found = self.find(call_sid);
        match found {
            Some(i) => {
                let ghost pre = self.entries@;
                let r = match &self.entries[i].1.conversation_id {
                    Some(c) => Some(c.clone()),
                    None => None,
                };
                let e = &mut self.entries[i];
                e.1.last_used = now_ms;
                proof {
                    lemma_assoc_update(pre, self.entries@, i as int);
                    assert forall|k: Seq<char>| k != call_sid@
                        implies assoc_lookup(self.entries@, k) == (
                        match old(self).lookup(k) {
                            Some(e2) => if live(e2, now_ms, old(self).ttl()) {
                                Some(e2)
                            } else {
                                None::<SessionModel>
                            },
                            None => None::<SessionModel>,
                        }) by {
                        assert(mid.lookup(k) == assoc_lookup(pre, k));
                    }
                }
                r
            }
            None => {
                let ghost pre = self.entries@;
                self.entries.insert(0, (call_sid.to_owned(), SessionEntry {
                    conversation_id: None,
                    last_used: now_ms,
                }));
                proof {
                    lemma_assoc_none_absent(pre, call_sid@);
                    assert(self.entries@.skip(1) =~= pre);
                    assert forall|a: int, b: int| 0 <= a < b < self.entries@.len()
                        implies (#[trigger] self.entries@[a]).0@
                            != (#[trigger] self.entries@[b]).0@ by {
                        if a > 0 {
                            assert(self.entries@[a] == pre[a - 1]);
                        }
                        assert(self.entries@[b] == pre[b - 1]);
                    }
                    assert forall|k: Seq<char>| k != call_sid@
                        implies assoc_lookup(self.entries@, k) == (
                        match old(self).lookup(k) {
                            Some(e2) => if live(e2, now_ms, old(self).ttl()) {
                                Some(e2)
                            } else {
                                None::<SessionModel>
                            },
                            None => None::<SessionModel>,
                        }) by {
                        assert(mid.lookup(k) == assoc_lookup(pre, k));
                        assert(self.entries@.skip(1) =~= pre);
                    }
                }
                None
            }
        }
    }

    /// Record the generator's continuation token for a call after a
    /// successful turn; unknown calls are a no-op.
    pub fn store_conversation(&mut self, call_sid: &str, conversation_id: String, now_ms: u64)
        requires
            old(self).wf(),
        ensures
            final(self).wf(),
            final(self).ttl() == old(self).ttl(),
            old(self).lookup(call_sid@) is Some
                ==> final(self).lookup(call_sid@) == Some(SessionModel {
                    conversation_id: Some(conversation_id@),
                    last_used: now_ms,
                }),
            old(self).lookup(call_sid@) is None
                ==> final(self).lookup(call_sid@) is None,
            forall|k: Seq<char>| k != call_sid@
                ==> final(self).lookup(k) == old(self).lookup(k),
    {
        let found = self.find(call_sid);
        if let Some(i) = found {
            let ghost pre = self.entries@;
            let e = &mut self.entries[i];
            e.1.conversation_id = Some(conversation_id);
            e.1.last_used = now_ms;
            proof {
                lemma_assoc_update(pre, self.entries@, i as int);
            }
        }
    }

    /// Remove a call's session when the call ends.
    pub fn end_session(&mut self, call_sid: &str)
        requires
            old(self).wf(),
        ensures
            final(self).wf(),
            final(self).ttl() == old(self).ttl(),
            final(self).lookup(call_sid@) is None,
            forall|k: Seq<char>| k != call_sid@
                ==> final(self).lookup(k) == old(self).lookup(k),
    {
        let found = self.find(call_sid);
        if let Some(i) = found {
            let ghost pre = self.entries@;
            self.entries.remove(i);
            proof {
                lemma_assoc_remove(pre, self.entries@, i as int, call_sid@);
            }
        }
    }

    /// Index of the entry for a key, if present.
    fn find(&self, call_sid: &str) -> (r: Option<usize>)
        requires
            self.wf(),
        ensures
            match r {
                Some(i) => i < self.entries@.len() && self.entries@[i as int].0@ == call_sid@
                    && self.lookup(call_sid@) == Some(self.entries@[i as int].1.model()),
                None => self.lookup(call_sid@) is None,
            },
    {
        proof {
            assert(self.entries@.skip(0) =~= self.entries@);
        }
        let mut i: usize = 0;
        while i < self.entries.len()
            invariant
                i <= self.entries@.len(),
                self.wf(),
                assoc_lookup(self.entries@, call_sid@)
                    == assoc_lookup(self.entries@.skip(i as int), call_sid@),
                forall|j: int| 0 <= j < i ==> (#[trigger] self.entries@[j]).0@ != call_sid@,
            decreases self.entries@.len() - i,
        {
            let hit = crate::text::str_eq(self.entries[i].0.as_str(), call_sid);
            proof {
                let rest = self.entries@.skip(i as int);
                assert(rest[0] == self.entries@[i as int]);
                assert(rest.skip(1) =~= self.entries@.skip(i + 1));
            }
            if hit {
                return Some(i);
            }
            i += 1;
        }
        None
    }
}

proof fn lemma_evicted_wf(s: Seq<(String, SessionEntry)>, now: u64, ttl: u64)
    requires
        forall|a: int, b: int| 0 <= a < b < s.len()
            ==> (#[trigger] s[a]).0@ != (#[trigger] s[b]).0@,
    ensures
        forall|a: int, b: int| 0 <= a < b < evicted(s, now, ttl).len()
            ==> (#[trigger] evicted(s, now, ttl)[a]).0@ != (#[trigger] evicted(s, now, ttl)[b]).0@,
        forall|j: int| 0 <= j < evicted(s, now, ttl).len()
            ==> exists|i: int| 0 <= i < s.len() && s[i] == #[trigger] evicted(s, now, ttl)[j],
    decreases s.len(),
{
    if s.len() > 0 {
        assert forall|a: int, b: int| 0 <= a < b < s.skip(1).len()
            implies (#[trigger] s.skip(1)[a]).0@ != (#[trigger] s.skip(1)[b]).0@ by {
            assert(s.skip(1)[a] == s[a + 1]);
            assert(s.skip(1)[b] == s[b + 1]);
        }
        lemma_evicted_wf(s.skip(1), now, ttl);
        let ev = evicted(s, now, ttl);
        let evr = evicted(s.skip(1), now, ttl);
        assert forall|j: int| 0 <= j < ev.len()
            implies exists|i: int| 0 <= i < s.len() && s[i] == #[trigger] ev[j] by {
            if live(s[0].1.model(), now, ttl) {
                if j == 0 {
                    assert(ev[0] == s[0]);
                } else {
                    assert(ev[j] == evr[j - 1]);
                    let i0 = choose|i0: int| 0 <= i0 < s.skip(1).len()
                        && s.skip(1)[i0] == evr[j - 1];
                    assert(s[i0 + 1] == ev[j]);
                }
            } else {
                assert(ev[j] == evr[j]);
                let i0 = choose|i0: int| 0 <= i0 < s.skip(1).len() && s.skip(1)[i0] == evr[j];
                assert(s[i0 + 1] == ev[j]);
            }
        }
        assert forall|a: int, b: int| 0 <= a < b < ev.len()
            implies (#[trigger] ev[a]).0@ != (#[trigger] ev[b]).0@ by {
            if live(s[0].1.model(), now, ttl) && a == 0 {
                assert(ev[b] == evr[b - 1]);
                let i0 = choose|i0: int| 0 <= i0 < s.skip(1).len() && s.skip(1)[i0] == evr[b - 1];
                assert(s[i0 + 1] == ev[b]);
                assert(s[0].0@ != s[i0 + 1].0@);
                assert(ev[0] == s[0]);
            } else if live(s[0].1.model(), now, ttl) {
                assert(ev[a] == evr[a - 1] && ev[b] == evr[b - 1]);
            } else {
                assert(ev[a] == evr[a] && ev[b] == evr[b]);
            }
        }
    }
}

proof fn lemma_evicted_lookup(s: Seq<(String, SessionEntry)>, now: u64, ttl: u64, k: Seq<char>)
    requires
        forall|a: int, b: int| 0 <= a < b < s.len()
            ==> (#[trigger] s[a]).0@ != (#[trigger] s[b]).0@,
    ensures
        assoc_lookup(evicted(s, now, ttl), k) == (match assoc_lookup(s, k) {
            Some(e) => if live(e, now, ttl) { Some(e) } else { None::<SessionModel> },
            None => None::<SessionModel>,
        }),
    decreases s.len(),
{
    if s.len() > 0 {
        assert forall|a: int, b: int| 0 <= a < b < s.skip(1).len()
            implies (#[trigger] s.skip(1)[a]).0@ != (#[trigger] s.skip(1)[b]).0@ by {
            assert(s.skip(1)[a] == s[a + 1]);
            assert(s.skip(1)[b] == s[b + 1]);
        }
        lemma_evicted_lookup(s.skip(1), now, ttl, k);
        let ev = evicted(s, now, ttl);
        if live(s[0].1.model(), now, ttl) {
            assert(ev == s.subrange(0, 1) + evicted(s.skip(1), now, ttl));
            assert(ev[0] == s[0]);
            if s[0].0@ == k {
                assert(assoc_lookup(ev, k) == Some(ev[0].1.model()));
            } else {
                assert(ev.skip(1) =~= evicted(s.skip(1), now, ttl));
            }
        } else {
            if s[0].0@ == k {
                // the head entry for k is evicted, and keys are unique,
                // so no later entry carries k
                assert forall|j: int| 0 <= j < s.skip(1).len()
                    implies (#[trigger] s.skip(1)[j]).0@ != k by {
                    assert(s.skip(1)[j] == s[j + 1]);
                }
                lemma_assoc_absent_session(s.skip(1), k);
                lemma_evicted_absent(s.skip(1), now, ttl, k);
            }
        }
    }
}

proof fn lemma_evicted_absent(s: Seq<(String, SessionEntry)>, now: u64, ttl: u64, k: Seq<char>)
    requires
        forall|j: int| 0 <= j < s.len() ==> (#[trigger] s[j]).0@ != k,
    ensures
        assoc_lookup(evicted(s, now, ttl), k) is None,
    decreases s.len(),
{
    if s.len() > 0 {
        assert forall|j: int| 0 <= j < s.skip(1).len()
            implies (#[trigger] s.skip(1)[j]).0@ != k by {
            assert(s.skip(1)[j] == s[j + 1]);
        }
        lemma_evicted_absent(s.skip(1), now, ttl, k);
        if live(s[0].1.model(), now, ttl) {
            let ev = evicted(s, now, ttl);
            assert(ev[0] == s[0]);
            assert(ev.skip(1) =~= evicted(s.skip(1), now, ttl));
        }
    }
}

proof fn lemma_assoc_absent_session(s: Seq<(String, SessionEntry)>, k: Seq<char>)
    requires
        forall|j: int| 0 <= j < s.len() ==> (#[trigger] s[j]).0@ != k,
    ensures
        assoc_lookup(s, k) is None,
    decreases s.len(),
{
    if s.len() > 0 {
        assert forall|j: int| 0 <= j < s.skip(1).len()
            implies (#[trigger] s.skip(1)[j]).0@ != k by {
            assert(s.skip(1)[j] == s[j + 1]);
        }
        lemma_assoc_absent_session(s.skip(1), k);
    }
}

proof fn lemma_assoc_none_absent(s: Seq<(String, SessionEntry)>, k: Seq<char>)
    requires
        assoc_lookup(s, k) is None,
    ensures
        forall|j: int| 0 <= j < s.len() ==> (#[trigger] s[j]).0@ != k,
    decreases s.len(),
{
    if s.len() > 0 {
        lemma_assoc_none_absent(s.skip(1), k);
        assert forall|j: int| 0 <= j < s.len()
            implies (#[trigger] s[j]).0@ != k by {
            if j > 0 {
                assert(s.skip(1)[j - 1] == s[j]);
            }
        }
    }
}

proof fn lemma_assoc_update(pre: Seq<(String, SessionEntry)>, post: Seq<(String, SessionEntry)>,
    i: int)
    requires
        0 <= i < pre.len(),
        post.len() == pre.len(),
        post[i].0@ == pre[i].0@,
        forall|j: int| 0 <= j < pre.len() && j != i ==> post[j] == pre[j],
        forall|a: int, b: int| 0 <= a < b < pre.len()
            ==> (#[trigger] pre[a]).0@ != (#[trigger] pre[b]).0@,
    ensures
        forall|k: Seq<char>| k != pre[i].0@
            ==> assoc_lookup(post, k) == assoc_lookup(pre, k),
        assoc_lookup(post, post[i].0@) == Some(post[i].1.model()),
        forall|a: int, b: int| 0 <= a < b < post.len()
            ==> (#[trigger] post[a]).0@ != (#[trigger] post[b]).0@,
    decreases pre.len(),
{
    assert forall|k: Seq<char>| k != pre[i].0@
        implies assoc_lookup(post, k) == assoc_lookup(pre, k) by {
        lemma_assoc_update_one(pre, post, i, k);
    }
    assert forall|a: int, b: int| 0 <= a < b < post.len()
        implies (#[trigger] post[a]).0@ != (#[trigger] post[b]).0@ by {
        assert(post[a].0@ == pre[a].0@);
        assert(post[b].0@ == pre[b].0@);
    }
    lemma_assoc_found(post, post[i].0@, i);
}

proof fn lemma_assoc_update_one(pre: Seq<(String, SessionEntry)>,
    post: Seq<(String, SessionEntry)>, i: int, k: Seq<char>)
    requires
        0 <= i < pre.len(),
        post.len() == pre.len(),
        post[i].0@ == pre[i].0@,
        forall|j: int| 0 <= j < pre.len() && j != i ==> post[j] == pre[j],
        k != pre[i].0@,
    ensures
        assoc_lookup(post, k) == assoc_lookup(pre, k),
    decreases pre.len(),
{
    if pre.len() > 0 {
        if i == 0 {
            assert(post.skip(1) =~= pre.skip(1));
        } else if pre[0].0@ != k {
            lemma_assoc_update_one(pre.skip(1), post.skip(1), i - 1, k);
        }
    }
}

proof fn lemma_assoc_found(s: Seq<(String, SessionEntry)>, k: Seq<char>, i: int)
    requires
        0 <= i < s.len(),
        s[i].0@ == k,
        forall|a: int, b: int| 0 <= a < b < s.len()
            ==> (#[trigger] s[a]).0@ != (#[trigger] s[b]).0@,
    ensures
        assoc_lookup(s, k) == Some(s[i].1.model()),
    decreases s.len(),
{
    if i > 0 {
        lemma_assoc_found(s.skip(1), k, i - 1);
    }
}

proof fn lemma_assoc_remove(pre: Seq<(String, SessionEntry)>, post: Seq<(String, SessionEntry)>,
    i: int, k: Seq<char>)
    requires
        0 <= i < pre.len(),
        pre[i].0@ == k,
        post =~= pre.subrange(0, i) + pre.skip(i + 1),
        forall|a: int, b: int| 0 <= a < b < pre.len()
            ==> (#[trigger] pre[a]).0@ != (#[trigger] pre[b]).0@,
    ensures
        assoc_lookup(post, k) is None,
        forall|q: Seq<char>| q != k ==> assoc_lookup(post, q) == assoc_lookup(pre, q),
        forall|a: int, b: int| 0 <= a < b < post.len()
            ==> (#[trigger] post[a]).0@ != (#[trigger] post[b]).0@,
    decreases pre.len(),
{
    assert forall|q: Seq<char>| q != k
        implies assoc_lookup(post, q) == assoc_lookup(pre, q) by {
        lemma_assoc_remove_one(pre, post, i, k, q);
    }
    assert forall|j: int| 0 <= j < post.len()
        implies (#[trigger] post[j]).0@ != k by {
        if j < i {
            assert(post[j] == pre[j]);
        } else {
            assert(post[j] == pre[j + 1]);
        }
    }
    lemma_assoc_absent_session(post, k);
    assert forall|a: int, b: int| 0 <= a < b < post.len()
        implies (#[trigger] post[a]).0@ != (#[trigger] post[b]).0@ by {
        if a < i {
            assert(post[a] == pre[a]);
        } else {
            assert(post[a] == pre[a + 1]);
        }
        if b < i {
            assert(post[b] == pre[b]);
        } else {
            assert(post[b] == pre[b + 1]);
        }
    }
}

proof fn lemma_assoc_remove_one(pre: Seq<(String, SessionEntry)>,
    post: Seq<(String, SessionEntry)>, i: int, k: Seq<char>, q: Seq<char>)
    requires
        0 <= i < pre.len(),
        pre[i].0@ == k,
        post =~= pre.subrange(0, i) + pre.skip(i + 1),
        q != k,
    ensures
        assoc_lookup(post, q) == assoc_lookup(pre, q),
    decreases pre.len(),
{
    if i == 0 {
        assert(post =~= pre.skip(1));
    } else {
        assert(post[0] == pre[0]);
        if pre[0].0@ != q {
            assert(post.skip(1) =~= pre.skip(1).subrange(0, i - 1) + pre.skip(1).skip(i));
            assert(pre.skip(1)[i - 1].0@ == k);
            lemma_assoc_remove_one(pre.skip(1), post.skip(1), i - 1, k, q);
        }
    }
}

} // verus!
