//! The pressed-key tracker.
//!
//! The foreground drains the event bridge once per frame and maintains the
//! set of currently held (channel, note) pairs: a note-on inserts its pair, a
//! note-off removes it, every other event is ignored, and the whole set is
//! cleared whenever the connection machine is observed not to be connected,
//! so stale pressed visuals never survive a disconnect.

use vstd::prelude::*;

use crate::events::LiveEvent;

verus! {

/// The set after one live event: note-on inserts its (channel, key) pair,
/// note-off removes it, anything else leaves the set unchanged.
pub open spec fn spec_apply(pressed: Set<(u8, u8)>, event: LiveEvent) -> Set<(u8, u8)> {
    match event {
        LiveEvent::NoteOn { channel, key, .. } => pressed.insert((channel, key)),
        LiveEvent::NoteOff { channel, key, .. } => pressed.remove((channel, key)),
        LiveEvent::Other => pressed,
    }
}

/// The set of currently pressed (channel, note) pairs.
#[derive(Debug)]
pub struct PressedKeys {
    keys: Vec<(u8, u8)>,
}

impl View for PressedKeys {
    type V = Set<(u8, u8)>;

    closed spec fn view(&self) -> Set<(u8, u8)> {
        Set::new(|p: (u8, u8)| self.keys@.contains(p))
    }
}

impl PressedKeys {
    /// Each pair is held at most once. Established by `new` and preserved
    /// by every method.
    pub closed spec fn wf(self) -> bool {
        forall|i: int, j: int|
            0 <= i < j < self.keys@.len() ==> self.keys@[i] != self.keys@[j]
    }

    /// An empty set: nothing is pressed.
    pub fn new() -> (s: Self)
        ensures
            s@ == Set::<(u8, u8)>::empty(),
            s.wf(),
    {
        let s = PressedKeys { keys: Vec::new() };
        proof {
            assert(s@ =~= Set::<(u8, u8)>::empty());
        }
        s
    }

    /// Whether the pair (`channel`, `note`) is currently pressed.
    pub fn contains(&self, channel: u8, note: u8) -> (r: bool)
        ensures
            r == self@.contains((channel, note)),
    {
        let n = self.keys.len();
        let mut i: usize = 0;
        while i < n
            invariant
                i <= n,
                n == self.keys@.len(),
                forall|j: int| 0 <= j < i ==> self.keys@[j] != (channel, note),
            decreases n - i,
        {
            let k = self.keys[i];
            if k.0 == channel && k.1 == note {
                proof {
                    assert(self.keys@[i as int] == (channel, note));
                }
                return true;
            }
            i = i + 1;
        }
        proof {
            assert(!self.keys@.contains((channel, note)));
        }
        false
    }

    /// Press the pair (`channel`, `note`).
    pub fn note_on(&mut self, channel: u8, note: u8)
        requires
            old(self).wf(),
        ensures
            final(self)@ == old(self)@.insert((channel, note)),
            final(self).wf(),
    {
        let p = (channel, note);
        if !self.contains(channel, note) {
            self.keys.push(p);
            proof {
                assert forall|q: (u8, u8)|
                    self.keys@.contains(q) <==> (old(self).keys@.contains(q) || q == p) by {
                    if self.keys@.contains(q) {
                        let k = choose|k: int|
                            0 <= k < self.keys@.len() && self.keys@[k] == q;
                        if k < old(self).keys@.len() {
                            assert(old(self).keys@[k] == q);
                        }
                    }
                    if old(self).keys@.contains(q) {
                        let k = choose|k: int|
                            0 <= k < old(self).keys@.len() && old(self).keys@[k] == q;
                        assert(self.keys@[k] == q);
                    }
                    if q == p {
                        assert(self.keys@[self.keys@.len() - 1] == q);
                    }
                }
                assert(self@ =~= old(self)@.insert(p));
            }
        } else {
            proof {
                assert(self@ =~= old(self)@.insert(p));
            }
        }
    }

    /// Release the pair (`channel`, `note`).
    pub fn note_off(&mut self, channel: u8, note: u8)
        requires
            old(self).wf(),
        ensures
            final(self)@ == old(self)@.remove((channel, note)),
            final(self).wf(),
    {
        let p = (channel, note);
        let n = self.keys.len();
        let mut i: usize = 0;
        while i < n
            invariant
                i <= n,
                n == self.keys@.len(),
                *self == *old(self),
                old(self).wf(),
                forall|j: int| 0 <= j < i ==> self.keys@[j] != p,
                p == (channel, note),
            decreases n - i,
        {
            let k = self.keys[i];
            if k.0 == channel && k.1 == note {
                proof {
                    assert(self.keys@[i as int] == p);
                }
                self.keys.remove(i);
                proof {
                    let olds = old(self).keys@;
                    let news = self.keys@;
                    olds.remove_ensures(i as int);
                    assert forall|a: int, b: int|
                        0 <= a < b < news.len() implies news[a] != news[b] by {
                        if b < i {
                            assert(news[a] == olds[a] && news[b] == olds[b]);
                        } else if a < i {
                            assert(news[a] == olds[a] && news[b] == olds[b + 1]);
                        } else {
                            assert(news[a] == olds[a + 1] && news[b] == olds[b + 1]);
                        }
                    }
                    assert forall|q: (u8, u8)|
                        news.contains(q) <==> (olds.contains(q) && q != p) by {
                        if news.contains(q) {
                            let k2 = choose|k2: int| 0 <= k2 < news.len() && news[k2] == q;
                            if k2 < i {
                                assert(olds[k2] == q);
                                assert(olds[k2] != olds[i as int]);
                            } else {
                                assert(olds[k2 + 1] == q);
                                assert(olds[k2 + 1] != olds[i as int]);
                            }
                        }
                        if olds.contains(q) && q != p {
                            let k2 = choose|k2: int| 0 <= k2 < olds.len() && olds[k2] == q;
                            if k2 < i {
                                assert(news[k2] == q);
                            } else {
                                assert(k2 != i);
                                assert(news[k2 - 1] == q);
                            }
                        }
                    }
                    assert(self@ =~= old(self)@.remove(p));
                }
                return ;
            }
            i = i + 1;
        }
        proof {
            assert(!old(self).keys@.contains(p));
            assert(self@ =~= old(self)@.remove(p));
        }
    }

    /// Release everything: called whenever the machine is not connected.
    pub fn clear(&mut self)
        ensures
            final(self)@ == Set::<(u8, u8)>::empty(),
            final(self).wf(),
    {
        self.keys.clear();
        proof {
            assert(self@ =~= Set::<(u8, u8)>::empty());
        }
    }

    /// Apply one drained live event to the pressed set.
    pub fn apply(&mut self, event: LiveEvent)
        requires
            old(self).wf(),
        ensures
            final(self)@ == spec_apply(old(self)@, event),
            final(self).wf(),
    {
        match event {
            LiveEvent::NoteOn { channel, key, .. } => self.note_on(channel, key),
            LiveEvent::NoteOff { channel, key, .. } => self.note_off(channel, key),
            LiveEvent::Other => {},
        }
    }

    /// The currently pressed pairs, one occurrence each, in no stated order.
    pub fn pairs(&self) -> (r: &Vec<(u8, u8)>)
        ensures
            forall|q: (u8, u8)| r@.contains(q) <==> self@.contains(q),
    {
        &self.keys
    }
}

} // verus!
