//! Keys the application reacts to, and the set of keys held down.
use vstd::prelude::*;

verus! {

/// A key of the keyboard. Keys that carry no meaning here are told apart by
/// their code.
#[derive(Clone, Copy, Debug, PartialEq, Eq, Structural)]
pub enum Key {
    Space,
    LControl,
    RControl,
    LShift,
    RShift,
    W,
    A,
    S,
    D,
    E,
    R,
    Up,
    Down,
    Other(u32),
}

/// The keys held down, each once, in the order they were pressed.
pub struct HeldKeys {
    keys: Vec<Key>,
}

impl View for HeldKeys {
    type V = Seq<Key>;

    closed spec fn view(&self) -> Seq<Key> {
        self.keys@
    }
}

impl HeldKeys {
    pub open spec fn wf(&self) -> bool {
        self@.no_duplicates()
    }

    /// No key held.
    pub fn new() -> (h: Self)
        ensures
            h.wf(),
            h@ == Seq::<Key>::empty(),
    {
        HeldKeys { keys: Vec::new() }
    }

    /// The held keys, in the order they were pressed.
    pub fn as_slice(&self) -> (r: &[Key])
        ensures
            r@ == self@,
    {
        self.keys.as_slice()
    }

    /// Whether `key` is held.
    pub fn contains(&self, key: Key) -> (r: bool)
        ensures
            r == self@.contains(key),
    {
        let mut idx: usize = 0;
        while idx < self.keys.len()
            invariant
                idx <= self@.len(),
                forall|m: int| 0 <= m < idx ==> self@[m] != key,
            decreases self@.len() - idx,
        {
            if self.keys[idx] == key {
                return true;
            }
            idx = idx + 1;
        }
        false
    }

    /// Records that `key` went down; a key already held stays where it is.
    pub fn press(&mut self, key: Key)
        requires
            old(self).wf(),
        ensures
            final(self).wf(),
            final(self)@ == if old(self)@.contains(key) {
                old(self)@
            } else {
                old(self)@.push(key)
            },
    {
        if !self.contains(key) {
            self.keys.push(key);
        }
    }

    /// Records that `key` went up; the other keys keep their order.
    pub fn release(&mut self, key: Key)
        requires
            old(self).wf(),
        ensures
            final(self).wf(),
            final(self)@ == old(self)@.filter(|k: Key| k != key),
    {
        let mut kept: Vec<Key> = Vec::new();
        let mut idx: usize = 0;
        let ghost before = self@;
        while idx < self.keys.len()
            invariant
                before == self@,
                before.no_duplicates(),
                idx <= before.len(),
                kept@ == before.subrange(0, idx as int).filter(|k: Key| k != key),
                kept@.no_duplicates(),
                forall|m: int|
                    0 <= m < kept@.len() ==> exists|j: int| 0 <= j < idx && before[j] == #[trigger] kept@[m],
            decreases before.len() - idx,
        {
            let k = self.keys[idx];
            proof {
                reveal(Seq::filter);
                assert(before.subrange(0, idx + 1).drop_last() == before.subrange(0, idx as int));
            }
            if k != key {
                proof {
                    assert forall|m: int| 0 <= m < kept@.len() implies kept@[m] != k by {
                        let j = choose|j: int| 0 <= j < idx && before[j] == #[trigger] kept@[m];
                        assert(before[j] != before[idx as int]);
                    }
                }
                kept.push(k);
                proof {
                    assert forall|m: int| 0 <= m < kept@.len() implies exists|j: int|
                        0 <= j < idx + 1 && before[j] == #[trigger] kept@[m] by {
                        if m == kept@.len() - 1 {
                            assert(before[idx as int] == kept@[m]);
                        } else {
                            let j = choose|j: int| 0 <= j < idx && before[j] == #[trigger] kept@.drop_last()[m];
                            assert(before[j] == kept@[m]);
                        }
                    }
                }
            }
            idx = idx + 1;
        }
        proof {
            assert(before.subrange(0, idx as int) == before);
        }
        self.keys = kept;
    }
}

} // verus!
