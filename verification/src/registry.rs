//! Transport-tagged directory of live calls. The inject endpoint looks a
//! call up here and pushes synthesized audio into its playback channel
//! without touching the session loop.

use vstd::prelude::*;
use crate::frames;

verus! {

/// Audio transport of a registered call.
#[derive(Debug, Clone, Copy, PartialEq, Eq, Structural)]
pub enum Transport {
    /// Telephony media stream: audio wrapped in the JSON event envelope.
    Twilio,
    /// Voice-chat sidecar: plain audio frames without the envelope.
    Discord,
}

/// Handle to one active call's routing state.
pub struct CallEntry {
    pub stream_sid: String,
    pub transport: Transport,
    pub speaking: bool,
}

/// Ghost image of one registry entry.
pub struct EntryModel {
    pub stream_sid: Seq<char>,
    pub transport: Transport,
    pub speaking: bool,
}

impl CallEntry {
    pub open spec fn model(self) -> EntryModel {
        EntryModel {
            stream_sid: self.stream_sid@,
            transport: self.transport,
            speaking: self.speaking,
        }
    }
}

/// Registry of active calls keyed by call identifier.
pub struct CallRegistry {
    entries: Vec<(String, CallEntry)>,
}

/// First entry for a key in an association sequence.
pub open spec fn assoc_lookup(s: Seq<(String, CallEntry)>, k: Seq<char>) -> Option<EntryModel>
    decreases s.len(),
{
    if s.len() == 0 {
        None::<EntryModel>
    } else if s[0].0@ == k {
        Some(s[0].1.model())
    } else {
        assoc_lookup(s.skip(1), k)
    }
}

impl CallRegistry {
    /// The registry as a lookup function from call id to entry.
    pub closed spec fn lookup(self, k: Seq<char>) -> Option<EntryModel> {
        assoc_lookup(self.entries@, k)
    }

    /// Keys are unique, so the lookup determines every entry.
    pub closed spec fn wf(self) -> bool {
        forall|i: int, j: int| 0 <= i < j < self.entries@.len()
            ==> (#[trigger] self.entries@[i]).0@ != (#[trigger] self.entries@[j]).0@
    }

    /// An empty registry.
    pub fn new() -> (r: CallRegistry)
        ensures
            r.wf(),
            forall|k: Seq<char>| r.lookup(k) is None,
    {
        CallRegistry { entries: Vec::new() }
    }

    /// Index of the entry for a key, if registered.
    fn find(&self, call_sid: &str) -> (r: Option<usize>)
        requires
            self.wf(),
        ensures
            match r {
                Some(i) => i < self.entries@.len() && self.entries@[i as int].0@ == call_sid@
                    && self.lookup(call_sid@) == Some(self.entries@[i as int].1.model()),
                None => self.lookup(call_sid@) is None,
            },
    {
        proof {
            assert(self.entries@.skip(0) =~= self.entries@);
        }
        let mut i: usize = 0;
        while i < self.entries.len()
            invariant
                i <= self.entries@.len(),
                self.wf(),
                assoc_lookup(self.entries@, call_sid@)
                    == assoc_lookup(self.entries@.skip(i as int), call_sid@),
                forall|j: int| 0 <= j < i ==> (#[trigger] self.entries@[j]).0@ != call_sid@,
            decreases self.entries@.len() - i,
        {
            let hit = {
                let pair = &self.entries[i];
                crate::text::str_eq(pair.0.as_str(), call_sid)
            };
            proof {
                let rest = self.entries@.skip(i as int);
                assert(rest[0] == self.entries@[i as int]);
                assert(rest.skip(1) =~= self.entries@.skip(i + 1));
            }
            if hit {
                return Some(i);
            }
            i += 1;
        }
        None
    }

    /// Register an active call; a second registration for the same call id
    /// replaces the old entry, as a map insert does.
    pub fn register(&mut self, call_sid: String, stream_sid: String, transport: Transport)
        requires
            old(self).wf(),
        ensures
            final(self).wf(),
            final(self).lookup(call_sid@) == Some(EntryModel {
                stream_sid: stream_sid@,
                transport,
                speaking: false,
            }),
            forall|k: Seq<char>| k != call_sid@
                ==> final(self).lookup(k) == old(self).lookup(k),
    {
        let entry = CallEntry { stream_sid, transport, speaking: false };
        let found = self.find(call_sid.as_str());
        match found {
            Some(i) => {
                let ghost pre = self.entries@;
                self.entries[i] = (call_sid, entry);
                proof {
                    lemma_assoc_update(pre, self.entries@, i as int);
                }
            }
            None => {
                let ghost pre = self.entries@;
                proof {
                    lemma_assoc_none_absent(pre, call_sid@);
                }
                self.entries.insert(0, (call_sid, entry));
                proof {
                    assert(self.entries@.skip(1) =~= pre);
                    assert forall|a: int, b: int| 0 <= a < b < self.entries@.len()
                        implies (#[trigger] self.entries@[a]).0@
                            != (#[trigger] self.entries@[b]).0@ by {
                        if a > 0 {
                            assert(self.entries@[a] == pre[a - 1]);
                            assert(self.entries@[b] == pre[b - 1]);
                        } else {
                            assert(self.entries@[b] == pre[b - 1]);
                        }
                    }
                }
            }
        }
    }

    /// Remove a call when it ends; unknown ids are a no-op.
    pub fn deregister(&mut self, call_sid: &str)
        requires
            old(self).wf(),
        ensures
            final(self).wf(),
            final(self).lookup(call_sid@) is None,
            forall|k: Seq<char>| k != call_sid@
                ==> final(self).lookup(k) == old(self).lookup(k),
    {
        let found = self.find(call_sid);
        if let Some(i) = found {
            let ghost pre = self.entries@;
            self.entries.remove(i);
            proof {
                lemma_assoc_remove(pre, self.entries@, i as int, call_sid@);
            }
        }
    }

    /// Look up an active call.
    pub fn get(&self, call_sid: &str) -> (r: Option<CallEntry>)
        requires
            self.wf(),
        ensures
            match r {
                Some(e) => self.lookup(call_sid@) == Some(e.model()),
                None => self.lookup(call_sid@) is None,
            },
    {
        let found = self.find(call_sid);
        match found {
            Some(i) => {
                let pair = &self.entries[i];
                Some(CallEntry {
                    stream_sid: pair.1.stream_sid.clone(),
                    transport: pair.1.transport,
                    speaking: pair.1.speaking,
                })
            }
            None => None,
        }
    }

    /// Set the barge-in suppression flag on a live call; reports whether
    /// the call was found.
    pub fn set_speaking(&mut self, call_sid: &str, value: bool) -> (r: bool)
        requires
            old(self).wf(),
        ensures
            final(self).wf(),
            r == (old(self).lookup(call_sid@) is Some),
            old(self).lookup(call_sid@) matches Some(e)
                ==> final(self).lookup(call_sid@)
                    == Some(EntryModel { speaking: value, ..e }),
            old(self).lookup(call_sid@) is None ==> *final(self) == *old(self),
            forall|k: Seq<char>| k != call_sid@
                ==> final(self).lookup(k) == old(self).lookup(k),
    {
        let found = self.find(call_sid);
        match found {
            Some(i) => {
                let ghost pre = self.entries@;
                let e = &mut self.entries[i];
                e.1.speaking = value;
                proof {
                    lemma_assoc_update(pre, self.entries@, i as int);
                }
                true
            }
            None => false,
        }
    }

    /// The frame run that injects audio into a live call: media frames of
    /// 160 bytes each and a final mark, in the entry's transport envelope.
    pub fn send_audio(entry: &CallEntry, mulaw_bytes: &[u8]) -> (r: Vec<Vec<u8>>)
        ensures
            entry.transport == Transport::Twilio ==> r.deep_view()
                == frames::telephony_frames_spec(
                    vstd::utf8::encode_utf8(entry.stream_sid@),
                    mulaw_bytes@,
                    vstd::utf8::encode_utf8("inject_end"@)),
            entry.transport == Transport::Discord ==> r.deep_view()
                == frames::sidecar_frames_spec(mulaw_bytes@),
    {
        frames::audio_frame_run(
            matches!(entry.transport, Transport::Twilio),
            entry.stream_sid.as_str(),
            mulaw_bytes,
            "inject_end",
        )
    }
}

proof fn lemma_assoc_update(pre: Seq<(String, CallEntry)>, post: Seq<(String, CallEntry)>, i: int)
    requires
        0 <= i < pre.len(),
        post.len() == pre.len(),
        post[i].0@ == pre[i].0@,
        forall|j: int| 0 <= j < pre.len() && j != i ==> post[j] == pre[j],
        forall|a: int, b: int| 0 <= a < b < pre.len()
            ==> (#[trigger] pre[a]).0@ != (#[trigger] pre[b]).0@,
    ensures
        forall|k: Seq<char>| k != pre[i].0@
            ==> assoc_lookup(post, k) == assoc_lookup(pre, k),
        assoc_lookup(post, post[i].0@) == Some(post[i].1.model()),
        forall|a: int, b: int| 0 <= a < b < post.len()
            ==> (#[trigger] post[a]).0@ != (#[trigger] post[b]).0@,
    decreases pre.len(),
{
    assert forall|k: Seq<char>| k != pre[i].0@
        implies assoc_lookup(post, k) == assoc_lookup(pre, k) by {
        lemma_assoc_update_one(pre, post, i, k);
    }
    assert forall|a: int, b: int| 0 <= a < b < post.len()
        implies (#[trigger] post[a]).0@ != (#[trigger] post[b]).0@ by {
        assert(post[a].0@ == pre[a].0@);
        assert(post[b].0@ == pre[b].0@);
    }
    lemma_assoc_found(post, post[i].0@, i);
}

proof fn lemma_assoc_update_one(pre: Seq<(String, CallEntry)>, post: Seq<(String, CallEntry)>,
    i: int, k: Seq<char>)
    requires
        0 <= i < pre.len(),
        post.len() == pre.len(),
        post[i].0@ == pre[i].0@,
        forall|j: int| 0 <= j < pre.len() && j != i ==> post[j] == pre[j],
        k != pre[i].0@,
    ensures
        assoc_lookup(post, k) == assoc_lookup(pre, k),
    decreases pre.len(),
{
    if pre.len() > 0 {
        if i == 0 {
            assert(post.skip(1) =~= pre.skip(1));
        } else if pre[0].0@ != k {
            lemma_assoc_update_one(pre.skip(1), post.skip(1), i - 1, k);
        }
    }
}

proof fn lemma_assoc_found(s: Seq<(String, CallEntry)>, k: Seq<char>, i: int)
    requires
        0 <= i < s.len(),
        s[i].0@ == k,
        forall|a: int, b: int| 0 <= a < b < s.len()
            ==> (#[trigger] s[a]).0@ != (#[trigger] s[b]).0@,
    ensures
        assoc_lookup(s, k) == Some(s[i].1.model()),
    decreases s.len(),
{
    if i > 0 {
        lemma_assoc_found(s.skip(1), k, i - 1);
    }
}

proof fn lemma_assoc_remove(pre: Seq<(String, CallEntry)>, post: Seq<(String, CallEntry)>,
    i: int, k: Seq<char>)
    requires
        0 <= i < pre.len(),
        pre[i].0@ == k,
        post =~= pre.subrange(0, i) + pre.skip(i + 1),
        forall|a: int, b: int| 0 <= a < b < pre.len()
            ==> (#[trigger] pre[a]).0@ != (#[trigger] pre[b]).0@,
    ensures
        assoc_lookup(post, k) is None,
        forall|q: Seq<char>| q != k ==> assoc_lookup(post, q) == assoc_lookup(pre, q),
        forall|a: int, b: int| 0 <= a < b < post.len()
            ==> (#[trigger] post[a]).0@ != (#[trigger] post[b]).0@,
    decreases pre.len(),
{
    assert forall|q: Seq<char>| q != k
        implies assoc_lookup(post, q) == assoc_lookup(pre, q) by {
        lemma_assoc_remove_one(pre, post, i, k, q);
    }
    lemma_assoc_absent(post, k);
}

proof fn lemma_assoc_remove_one(pre: Seq<(String, CallEntry)>, post: Seq<(String, CallEntry)>,
    i: int, k: Seq<char>, q: Seq<char>)
    requires
        0 <= i < pre.len(),
        pre[i].0@ == k,
        post =~= pre.subrange(0, i) + pre.skip(i + 1),
        q != k,
    ensures
        assoc_lookup(post, q) == assoc_lookup(pre, q),
    decreases pre.len(),
{
    if i == 0 {
        assert(post =~= pre.skip(1));
    } else {
        assert(post[0] == pre[0]);
        if pre[0].0@ != q {
            assert(post.skip(1) =~= pre.skip(1).subrange(0, i - 1) + pre.skip(1).skip(i));
            assert(pre.skip(1)[i - 1].0@ == k);
            lemma_assoc_remove_one(pre.skip(1), post.skip(1), i - 1, k, q);
        }
    }
}

proof fn lemma_assoc_none_absent(s: Seq<(String, CallEntry)>, k: Seq<char>)
    requires
        assoc_lookup(s, k) is None,
    ensures
        forall|j: int| 0 <= j < s.len() ==> (#[trigger] s[j]).0@ != k,
    decreases s.len(),
{
    if s.len() > 0 {
        lemma_assoc_none_absent(s.skip(1), k);
        assert forall|j: int| 0 <= j < s.len()
            implies (#[trigger] s[j]).0@ != k by {
            if j > 0 {
                assert(s.skip(1)[j - 1] == s[j]);
            }
        }
    }
}

proof fn lemma_assoc_absent(s: Seq<(String, CallEntry)>, k: Seq<char>)
    requires
        forall|j: int| 0 <= j < s.len() ==> (#[trigger] s[j]).0@ != k,
    ensures
        assoc_lookup(s, k) is None,
    decreases s.len(),
{
    if s.len() > 0 {
        assert(s.skip(1)[0] == s[1] || s.len() == 1);
        assert forall|j: int| 0 <= j < s.skip(1).len()
            implies (#[trigger] s.skip(1)[j]).0@ != k by {
            assert(s.skip(1)[j] == s[j + 1]);
        }
        lemma_assoc_absent(s.skip(1), k);
    }
}

} // verus!
