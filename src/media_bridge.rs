//! The fan-out from one producing sink to the consuming sources of many
//! links, with a sticky cache of the last caps seen.
use crate::text::{clone_texts, distinct, insert_text, remove_text, texts, without_text};
use vstd::prelude::*;

verus! {

/// What to do with one sample: the caps to set on every consumer first, if
/// they changed, and the consumers that each get a copy of the buffer.
#[derive(Debug, Clone)]
pub struct SampleDelivery {
    pub caps_update: Option<String>,
    pub targets: Vec<String>,
}

/// Forwards samples from one producer to many consumers, each named by the
/// link it serves.
#[derive(Debug)]
pub struct StreamBridge {
    pub consumers: Vec<String>,
    pub attached_sink: Option<String>,
    pub last_caps: Option<String>,
}

impl StreamBridge {
    pub open spec fn wf(&self) -> bool {
        distinct(texts(self.consumers@))
    }

    pub fn new() -> (r: Self)
        ensures
            r.wf(),
            r.consumers@.len() == 0,
            r.attached_sink is None,
            r.last_caps is None,
    {
        StreamBridge { consumers: Vec::new(), attached_sink: None, last_caps: None }
    }

    /// Records a consumer and hands back the cached caps, which the new
    /// consumer must be given at once.
    pub fn add_consumer(&mut self, consumer_id: &String) -> (r: Option<String>)
        requires
            old(self).wf(),
        ensures
            final(self).wf(),
            texts(final(self).consumers@) == if texts(old(self).consumers@).contains(consumer_id@) {
                texts(old(self).consumers@)
            } else {
                texts(old(self).consumers@).push(consumer_id@)
            },
            final(self).attached_sink == old(self).attached_sink,
            final(self).last_caps == old(self).last_caps,
            r == old(self).last_caps,
    {
        insert_text(&mut self.consumers, consumer_id);
        self.last_caps.clone()
    }

    pub fn remove_consumer(&mut self, consumer_id: &String)
        requires
            old(self).wf(),
        ensures
            final(self).wf(),
            texts(final(self).consumers@) == without_text(texts(old(self).consumers@), consumer_id@),
            final(self).attached_sink == old(self).attached_sink,
            final(self).last_caps == old(self).last_caps,
    {
        remove_text(&mut self.consumers, consumer_id);
    }

    /// Drops every consumer, the cached caps and the producer; hands back the
    /// producer that was attached, whose callbacks must be removed.
    pub fn clear(&mut self) -> (r: Option<String>)
        ensures
            final(self).wf(),
            final(self).consumers@.len() == 0,
            final(self).attached_sink is None,
            final(self).last_caps is None,
            r == old(self).attached_sink,
    {
        self.consumers = Vec::new();
        self.last_caps = None;
        let r = self.attached_sink.clone();
        self.attached_sink = None;
        r
    }

    pub fn has_consumers(&self) -> (r: bool)
        ensures
            r == (self.consumers@.len() > 0),
    {
        self.consumers.len() > 0
    }

    /// Makes `sink` the sole producer. Returns whether it replaced another
    /// (or none), in which case the caps cache is cleared and the caller
    /// moves the sample callbacks to the new sink.
    pub fn attach_sink(&mut self, sink: &String) -> (r: bool)
        requires
            old(self).wf(),
        ensures
            final(self).wf(),
            final(self).consumers == old(self).consumers,
            r == !(old(self).attached_sink matches Some(s) && s@ == sink@),
            !r ==> *final(self) == *old(self),
            r ==> final(self).attached_sink == Some(*sink) && final(self).last_caps is None,
    {
        let same = match &self.attached_sink {
            Some(s) => *s == *sink,
            None => false,
        };
        if same {
            return false;
        }
        self.last_caps = None;
        self.attached_sink = Some(sink.clone());
        true
    }

    /// Decides what one sample from the producer becomes. With no consumer
    /// the sample is dropped. Otherwise every consumer gets one copy of the
    /// buffer, preceded by a caps update exactly when the sample's caps
    /// differ from the cached ones, which they then replace.
    pub fn on_sample(&mut self, caps: Option<String>) -> (r: SampleDelivery)
        requires
            old(self).wf(),
        ensures
            final(self).wf(),
            final(self).consumers == old(self).consumers,
            final(self).attached_sink == old(self).attached_sink,
            old(self).consumers@.len() == 0 ==> r.targets@.len() == 0 && r.caps_update is None
                && final(self).last_caps == old(self).last_caps,
            old(self).consumers@.len() > 0 ==> {
                &&& r.targets@ == old(self).consumers@
                &&& match caps {
                    Some(c) => if old(self).last_caps matches Some(l) && l@ == c@ {
                        r.caps_update is None && final(self).last_caps == old(self).last_caps
                    } else {
                        r.caps_update == Some(c) && final(self).last_caps == Some(c)
                    },
                    None => r.caps_update is None && final(self).last_caps == old(self).last_caps,
                }
            },
    {
        if self.consumers.len() == 0 {
            return SampleDelivery { caps_update: None, targets: Vec::new() };
        }
        let caps_update = match caps {
            Some(c) => {
                let same = match &self.last_caps {
                    Some(l) => *l == c,
                    None => false,
                };
                if same {
                    None
                } else {
                    self.last_caps = Some(c.clone());
                    Some(c)
                }
            },
            None => None,
        };
        SampleDelivery { caps_update, targets: clone_texts(&self.consumers) }
    }

    /// Evicts the consumers whose push failed.
    pub fn evict(&mut self, failed: &Vec<String>)
        requires
            old(self).wf(),
        ensures
            final(self).wf(),
            forall|i: int| 0 <= i < final(self).consumers.len() ==> !texts(failed@).contains(#[trigger] final(self).consumers@[i]@),
            forall|i: int| 0 <= i < final(self).consumers.len() ==> texts(old(self).consumers@).contains(#[trigger] final(self).consumers@[i]@),
            forall|i: int| 0 <= i < old(self).consumers.len() && !texts(failed@).contains(#[trigger] old(self).consumers@[i]@)
                ==> texts(final(self).consumers@).contains(old(self).consumers@[i]@),
            final(self).attached_sink == old(self).attached_sink,
            final(self).last_caps == old(self).last_caps,
    {
        proof {
            assert forall|a: int| 0 <= a < old(self).consumers.len() implies texts(self.consumers@).contains(#[trigger] old(self).consumers@[a]@) by {
                assert(texts(self.consumers@)[a] == old(self).consumers@[a]@);
            }
            assert forall|a: int| 0 <= a < self.consumers.len() implies texts(old(self).consumers@).contains(#[trigger] self.consumers@[a]@) by {
                assert(texts(old(self).consumers@)[a] == self.consumers@[a]@);
            }
        }
        let mut i: usize = 0;
        while i < failed.len()
            invariant
                i <= failed.len(),
                self.wf(),
                self.attached_sink == old(self).attached_sink,
                self.last_caps == old(self).last_caps,
                forall|a: int| 0 <= a < self.consumers.len() ==> texts(old(self).consumers@).contains(#[trigger] self.consumers@[a]@),
                forall|a: int| 0 <= a < self.consumers.len() ==> !texts(failed@.take(i as int)).contains(#[trigger] self.consumers@[a]@),
                forall|a: int| 0 <= a < old(self).consumers.len() && !texts(failed@.take(i as int)).contains(#[trigger] old(self).consumers@[a]@)
                    ==> texts(self.consumers@).contains(old(self).consumers@[a]@),
            decreases failed.len() - i,
        {
            let ghost before = self.consumers@;
            self.remove_consumer(&failed[i]);
            proof {
                let f0 = texts(failed@.take(i as int));
                let f1 = texts(failed@.take(i as int + 1));
                assert(f1 =~= f0.push(failed@[i as int]@));
                reveal(Seq::filter);
                assert forall|a: int| 0 <= a < self.consumers.len() implies !f1.contains(#[trigger] self.consumers@[a]@) by {
                    let x = self.consumers@[a]@;
                    assert(texts(self.consumers@)[a] == x);
                    assert(without_text(texts(before), failed@[i as int]@).contains(x));
                    lemma_filter_contains(texts(before), failed@[i as int]@, x);
                    let b = choose|b: int| 0 <= b < before.len() && texts(before)[b] == x;
                    assert(before[b]@ == x);
                    if f1.contains(x) {
                        let c = choose|c: int| 0 <= c < f1.len() && f1[c] == x;
                        if c < f0.len() {
                            assert(f0.contains(x));
                            assert(!f0.contains(before[b]@));
                        }
                    }
                }
                assert forall|a: int| 0 <= a < self.consumers.len() implies texts(old(self).consumers@).contains(#[trigger] self.consumers@[a]@) by {
                    let x = self.consumers@[a]@;
                    assert(texts(self.consumers@)[a] == x);
                    lemma_filter_contains(texts(before), failed@[i as int]@, x);
                    let b = choose|b: int| 0 <= b < before.len() && texts(before)[b] == x;
                    assert(before[b]@ == x);
                }
                assert forall|a: int| 0 <= a < old(self).consumers.len() && !f1.contains(#[trigger] old(self).consumers@[a]@)
                    implies texts(self.consumers@).contains(old(self).consumers@[a]@) by {
                    let x = old(self).consumers@[a]@;
                    assert forall|c: int| 0 <= c < f0.len() implies f0[c] != x by {
                        assert(f1[c] == f0[c]);
                    }
                    assert(!f0.contains(x));
                    assert(f1[f0.len() as int] == failed@[i as int]@);
                    assert(x != failed@[i as int]@);
                    lemma_filter_keeps(texts(before), failed@[i as int]@, x);
                }
            }
            i = i + 1;
        }
        assert(failed@.take(failed.len() as int) =~= failed@);
    }
}

pub proof fn lemma_filter_contains(s: Seq<Seq<char>>, id: Seq<char>, x: Seq<char>)
    requires
        without_text(s, id).contains(x),
    ensures
        s.contains(x),
        x != id,
    decreases s.len(),
{
    reveal(Seq::filter);
    if s.len() > 0 {
        let t = s.drop_last();
        if s.last() != id {
            assert(without_text(s, id) == without_text(t, id).push(s.last()));
            if x != s.last() {
                let c = choose|c: int| 0 <= c < without_text(s, id).len() && without_text(s, id)[c] == x;
                assert(c < without_text(t, id).len());
                assert(without_text(t, id)[c] == x);
                lemma_filter_contains(t, id, x);
                let d = choose|d: int| 0 <= d < t.len() && t[d] == x;
                assert(s[d] == x);
            } else {
                assert(s[s.len() - 1] == x);
            }
        } else {
            assert(without_text(s, id) == without_text(t, id));
            lemma_filter_contains(t, id, x);
            let d = choose|d: int| 0 <= d < t.len() && t[d] == x;
            assert(s[d] == x);
        }
    }
}

pub proof fn lemma_filter_keeps(s: Seq<Seq<char>>, id: Seq<char>, x: Seq<char>)
    requires
        s.contains(x),
        x != id,
    ensures
        without_text(s, id).contains(x),
    decreases s.len(),
{
    reveal(Seq::filter);
    if s.len() > 0 {
        let t = s.drop_last();
        if s.last() == x {
            assert(without_text(s, id) == without_text(t, id).push(x));
            assert(without_text(s, id)[without_text(t, id).len() as int] == x);
        } else {
            let c = choose|c: int| 0 <= c < s.len() && s[c] == x;
            assert(t[c] == x);
            lemma_filter_keeps(t, id, x);
            let d = choose|d: int| 0 <= d < without_text(t, id).len() && without_text(t, id)[d] == x;
            if s.last() != id {
                assert(without_text(s, id) == without_text(t, id).push(s.last()));
                assert(without_text(s, id)[d] == x);
            } else {
                assert(without_text(s, id) == without_text(t, id));
            }
        }
    }
}

} // verus!
