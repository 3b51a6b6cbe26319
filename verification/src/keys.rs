//! Which keys are held down, each key named by a string.
use vstd::prelude::*;

verus! {

/// Whether no key name occurs twice among `entries`.
pub open spec fn names_distinct(entries: Seq<(String, bool)>) -> bool {
    forall|i: int, j: int|
        0 <= i < j < entries.len() ==> #[trigger] entries[i].0@ != #[trigger] entries[j].0@
}

/// The view a [`HeldKeys`] made by [`HeldKeys::new`] has after the presses
/// (`true`) and releases (`false`) of `history`, in order.
pub open spec fn replay(history: Seq<(Seq<char>, bool)>) -> Map<Seq<char>, bool>
    decreases history.len(),
{
    if history.len() == 0 {
        Map::empty()
    } else {
        replay(history.drop_last()).insert(history.last().0, history.last().1)
    }
}

/// The state of the last press or release of `key` in `history`; `None`
/// when there is none.
pub open spec fn last_recorded(history: Seq<(Seq<char>, bool)>, key: Seq<char>) -> Option<bool>
    decreases history.len(),
{
    if history.len() == 0 {
        None
    } else if history.last().0 == key {
        Some(history.last().1)
    } else {
        last_recorded(history.drop_last(), key)
    }
}

/// The last state recorded for each key: held (`true`) or released (`false`).
pub struct HeldKeys {
    pub held_keys: Vec<(String, bool)>,
}

impl View for HeldKeys {
    type V = Map<Seq<char>, bool>;

    open spec fn view(&self) -> Map<Seq<char>, bool> {
        Map::new(
            |name: Seq<char>| exists|i: int| 0 <= i < self.held_keys@.len() && #[trigger] self.held_keys@[i].0@ == name,
            |name: Seq<char>| self.held_keys@[choose|i: int| 0 <= i < self.held_keys@.len() && #[trigger] self.held_keys@[i].0@ == name].1,
        )
    }
}

impl HeldKeys {
    /// Each key is recorded once.
    pub open spec fn wf(&self) -> bool {
        names_distinct(self.held_keys@)
    }

    /// No key recorded.
    pub fn new() -> (res: Self)
        ensures
            res.wf(),
            res@ == Map::<Seq<char>, bool>::empty(),
    {
        let res = Self { held_keys: Vec::new() };
        proof {
            assert(res@ =~= Map::<Seq<char>, bool>::empty());
        }
        res
    }

    /// The position of `key` among the recorded keys, if it is there.
    fn position(&self, key: &str) -> (res: Option<usize>)
        requires
            self.wf(),
        ensures
            match res {
                Some(i) => i < self.held_keys@.len() && self.held_keys@[i as int].0@ == key@,
                None => !self@.contains_key(key@),
            },
    {
        let wanted = key.to_owned();
        let mut i: usize = 0;
        while i < self.held_keys.len()
            invariant
                0 <= i <= self.held_keys@.len(),
                wanted@ == key@,
                forall|j: int| 0 <= j < i ==> #[trigger] self.held_keys@[j].0@ != key@,
            decreases self.held_keys@.len() - i,
        {
            if self.held_keys[i].0 == wanted {
                return Some(i);
            }
            i = i + 1;
        }
        None
    }

    /// Whether `key` was last recorded as held; a key never recorded is not.
    pub fn is_pressed(&self, key: &str) -> (res: bool)
        requires
            self.wf(),
        ensures
            res == (self@.get(key@) == Some(true)),
    {
        match self.position(key) {
            Some(i) => {
                proof {
                    self.lemma_entry_is_view(i as int);
                }
                self.held_keys[i].1
            },
            None => false,
        }
    }

    /// The recorded state of the key at position `i` is its state in the view.
    proof fn lemma_entry_is_view(&self, i: int)
        requires
            self.wf(),
            0 <= i < self.held_keys@.len(),
        ensures
            self@.contains_key(self.held_keys@[i].0@),
            self@[self.held_keys@[i].0@] == self.held_keys@[i].1,
    {
        let name = self.held_keys@[i].0@;
        assert(self@.contains_key(name));
        let j = choose|j: int| 0 <= j < self.held_keys@.len() && #[trigger] self.held_keys@[j].0@ == name;
        if j != i {
            if j < i {
                assert(self.held_keys@[j].0@ != self.held_keys@[i].0@);
            } else {
                assert(self.held_keys@[i].0@ != self.held_keys@[j].0@);
            }
        }
    }

    /// Records the state of `key`, replacing what was recorded for it.
    fn record(&mut self, key: &str, held: bool)
        requires
            old(self).wf(),
        ensures
            final(self).wf(),
            final(self)@ == old(self)@.insert(key@, held),
    {
        match self.position(key) {
            Some(i) => {
                let ghost before = self.held_keys@;
                let name = self.held_keys[i].0.clone();
                self.held_keys.set(i, (name, held));
                proof {
                    let after = self.held_keys@;
                    assert(after[i as int].0@ == key@);
                    assert forall|a: int, b: int| 0 <= a < b < after.len() implies #[trigger] after[a].0@
                        != #[trigger] after[b].0@ by {
                        assert(before[a].0@ != before[b].0@);
                    }
                    assert forall|n: Seq<char>| #[trigger] self@.contains_key(n) == old(self)@.insert(key@, held).contains_key(n) by {
                        if n != key@ {
                            if self@.contains_key(n) {
                                let j = choose|j: int| 0 <= j < after.len() && #[trigger] after[j].0@ == n;
                                assert(before[j].0@ == n);
                            }
                            if old(self)@.contains_key(n) {
                                let j = choose|j: int| 0 <= j < before.len() && #[trigger] before[j].0@ == n;
                                assert(after[j].0@ == n);
                            }
                        }
                    }
                    assert forall|n: Seq<char>| #[trigger] self@.contains_key(n) implies self@[n] == old(self)@.insert(key@, held)[n] by {
                        let j = choose|j: int| 0 <= j < after.len() && #[trigger] after[j].0@ == n;
                        self.lemma_entry_is_view(j);
                        if n != key@ {
                            assert(j != i);
                            old(self).lemma_entry_is_view(j);
                        }
                    }
                    assert(self@ =~= old(self)@.insert(key@, held));
                }
            },
            None => {
                let ghost before = self.held_keys@;
                self.held_keys.push((key.to_owned(), held));
                proof {
                    let after = self.held_keys@;
                    let last = before.len() as int;
                    assert(after[last].0@ == key@);
                    assert forall|a: int, b: int| 0 <= a < b < after.len() implies #[trigger] after[a].0@
                        != #[trigger] after[b].0@ by {
                        if b == last {
                            assert(old(self)@.contains_key(before[a].0@) ==> before[a].0@ != key@);
                            assert(before[a].0@ == after[a].0@);
                            if before[a].0@ == key@ {
                                assert(old(self)@.contains_key(key@));
                            }
                        } else {
                            assert(before[a].0@ != before[b].0@);
                        }
                    }
                    assert forall|n: Seq<char>| #[trigger] self@.contains_key(n) == old(self)@.insert(key@, held).contains_key(n) by {
                        if n != key@ {
                            if self@.contains_key(n) {
                                let j = choose|j: int| 0 <= j < after.len() && #[trigger] after[j].0@ == n;
                                assert(j != last);
                                assert(before[j].0@ == n);
                            }
                            if old(self)@.contains_key(n) {
                                let j = choose|j: int| 0 <= j < before.len() && #[trigger] before[j].0@ == n;
                                assert(after[j].0@ == n);
                            }
                        }
                    }
                    assert forall|n: Seq<char>| #[trigger] self@.contains_key(n) implies self@[n] == old(self)@.insert(key@, held)[n] by {
                        let j = choose|j: int| 0 <= j < after.len() && #[trigger] after[j].0@ == n;
                        self.lemma_entry_is_view(j);
                        if n != key@ {
                            assert(j != last);
                            old(self).lemma_entry_is_view(j);
                        }
                    }
                    assert(self@ =~= old(self)@.insert(key@, held));
                }
            },
        }
    }

    /// Records `key` as held.
    pub fn press_key(&mut self, key: &str)
        requires
            old(self).wf(),
        ensures
            final(self).wf(),
            final(self)@ == old(self)@.insert(key@, true),
    {
        self.record(key, true);
    }

    /// Records `key` as released.
    pub fn release_key(&mut self, key: &str)
        requires
            old(self).wf(),
        ensures
            final(self).wf(),
            final(self)@ == old(self)@.insert(key@, false),
    {
        self.record(key, false);
    }
}

} // verus!
