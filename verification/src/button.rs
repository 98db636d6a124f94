//! Per-key / per-button state and the mapping that stores it.
//!
//! A `ButtonState` is the tri-flag record (level flag `down`, edge flags
//! `pressed` and `released`) kept for every key or mouse button that an event
//! has referenced. `ButtonMap` stores those records as an association list
//! with unique keys; a key that was never referenced reads as the all-false
//! default, so lazy creation is invisible to readers.

use vstd::prelude::*;

verus! {

/// Tri-flag record for one key or mouse button.
#[derive(Clone, Copy, PartialEq, Eq, Structural, Debug)]
pub struct ButtonState {
    pub down: bool,
    pub pressed: bool,
    pub released: bool,
}

/// The two transitions an input event can report for a key or button.
#[derive(Clone, Copy, PartialEq, Eq, Structural, Debug)]
pub enum Transition {
    Pressed,
    Released,
}

/// The state read for a key or button that was never referenced.
pub open spec fn default_state() -> ButtonState {
    ButtonState { down: false, pressed: false, released: false }
}

/// The state a key or button is left in by one transition: a press sets the
/// level flag and the pressed edge, a release clears the level flag and sets
/// the released edge; the opposite edge flag is reset either way.
pub open spec fn transition_state(t: Transition) -> ButtonState {
    match t {
        Transition::Pressed => ButtonState { down: true, pressed: true, released: false },
        Transition::Released => ButtonState { down: false, pressed: false, released: true },
    }
}

/// The same state with its cycle-local edge flags cleared.
pub open spec fn cleared(b: ButtonState) -> ButtonState {
    ButtonState { down: b.down, pressed: false, released: false }
}

/// First-match lookup in an association list; an absent key reads as the
/// default state.
pub open spec fn lookup(s: Seq<(u32, ButtonState)>, k: u32) -> ButtonState
    decreases s.len(),
{
    if s.len() == 0 {
        default_state()
    } else if s[0].0 == k {
        s[0].1
    } else {
        lookup(s.drop_first(), k)
    }
}

pub proof fn lemma_lookup_found(s: Seq<(u32, ButtonState)>, k: u32, i: int)
    requires
        0 <= i < s.len(),
        s[i].0 == k,
        forall|m: int| 0 <= m < i ==> (#[trigger] s[m]).0 != k,
    ensures
        lookup(s, k) == s[i].1,
    decreases i,
{
    if i > 0 {
        lemma_lookup_found(s.drop_first(), k, i - 1);
    }
}

pub proof fn lemma_lookup_absent(s: Seq<(u32, ButtonState)>, k: u32)
    requires
        forall|m: int| 0 <= m < s.len() ==> (#[trigger] s[m]).0 != k,
    ensures
        lookup(s, k) == default_state(),
    decreases s.len(),
{
    if s.len() > 0 {
        lemma_lookup_absent(s.drop_first(), k);
    }
}

pub proof fn lemma_lookup_update(s: Seq<(u32, ButtonState)>, k: u32, i: int, v: ButtonState)
    requires
        0 <= i < s.len(),
        s[i].0 == k,
        forall|m: int| 0 <= m < i ==> (#[trigger] s[m]).0 != k,
    ensures
        lookup(s.update(i, (k, v)), k) == v,
    decreases i,
{
    let s2 = s.update(i, (k, v));
    if i == 0 {
        assert(s2[0].0 == k);
    } else {
        assert(s2[0].0 != k);
        assert(s2.drop_first() =~= s.drop_first().update(i - 1, (k, v)));
        lemma_lookup_update(s.drop_first(), k, i - 1, v);
    }
}

pub proof fn lemma_lookup_update_other(
    s: Seq<(u32, ButtonState)>,
    k: u32,
    i: int,
    v: ButtonState,
    j: u32,
)
    requires
        0 <= i < s.len(),
        s[i].0 == k,
        j != k,
    ensures
        lookup(s.update(i, (k, v)), j) == lookup(s, j),
    decreases s.len(),
{
    let s2 = s.update(i, (k, v));
    if i == 0 {
        assert(s2.drop_first() =~= s.drop_first());
    } else {
        assert(s2[0] == s[0]);
        if s[0].0 != j {
            assert(s2.drop_first() =~= s.drop_first().update(i - 1, (k, v)));
            lemma_lookup_update_other(s.drop_first(), k, i - 1, v, j);
        }
    }
}

pub proof fn lemma_lookup_push(s: Seq<(u32, ButtonState)>, k: u32, v: ButtonState, j: u32)
    requires
        forall|m: int| 0 <= m < s.len() ==> (#[trigger] s[m]).0 != k,
    ensures
        lookup(s.push((k, v)), j) == (if j == k {
            v
        } else {
            lookup(s, j)
        }),
    decreases s.len(),
{
    let s2 = s.push((k, v));
    if s.len() == 0 {
        assert(s2[0] == (k, v));
        assert(s2.drop_first() =~= Seq::<(u32, ButtonState)>::empty());
        assert(lookup(Seq::<(u32, ButtonState)>::empty(), j) == default_state());
        assert(lookup(s, j) == default_state());
    } else {
        assert(s2[0] == s[0]);
        if s[0].0 != j {
            assert(s2.drop_first() =~= s.drop_first().push((k, v)));
            lemma_lookup_push(s.drop_first(), k, v, j);
        }
    }
}

pub proof fn lemma_lookup_pointwise_cleared(
    s: Seq<(u32, ButtonState)>,
    s2: Seq<(u32, ButtonState)>,
    j: u32,
)
    requires
        s2.len() == s.len(),
        forall|m: int|
            0 <= m < s.len() ==> (#[trigger] s2[m]).0 == s[m].0 && s2[m].1 == cleared(s[m].1),
    ensures
        lookup(s2, j) == cleared(lookup(s, j)),
    decreases s.len(),
{
    if s.len() > 0 && s[0].0 != j {
        lemma_lookup_pointwise_cleared(s.drop_first(), s2.drop_first(), j);
    }
}

/// Lazily filled mapping from a key or button identifier to its state.
///
/// Entries are stored as an association list whose keys are unique; a key
/// without an entry reads as `default_state()`.
pub struct ButtonMap {
    pub entries: Vec<(u32, ButtonState)>,
}

impl ButtonMap {
    /// Well-formed: no key occurs twice.
    pub open spec fn wf(self) -> bool {
        forall|i: int, j: int|
            0 <= i < j < self.entries@.len() ==> (#[trigger] self.entries@[i]).0 != (
            #[trigger] self.entries@[j]).0
    }

    /// The state currently recorded for `k` (the default when absent).
    pub open spec fn state_of(self, k: u32) -> ButtonState {
        lookup(self.entries@, k)
    }

    pub fn new() -> (r: Self)
        ensures
            r.wf(),
            forall|k: u32| #[trigger] r.state_of(k) == default_state(),
    {
        let r = ButtonMap { entries: Vec::new() };
        proof {
            assert(r.entries@.len() == 0);
        }
        r
    }

    /// Read the state of `k` without creating an entry.
    pub fn get(&self, k: u32) -> (r: ButtonState)
        ensures
            r == self.state_of(k),
    {
        let n = self.entries.len();
        let mut i: usize = 0;
        while i < n
            invariant
                i <= n,
                n == self.entries@.len(),
                forall|m: int| 0 <= m < i ==> (#[trigger] self.entries@[m]).0 != k,
            decreases n - i,
        {
            let (key, st) = self.entries[i];
            if key == k {
                proof {
                    lemma_lookup_found(self.entries@, k, i as int);
                }
                return st;
            }
            i = i + 1;
        }
        proof {
            lemma_lookup_absent(self.entries@, k);
        }
        ButtonState { down: false, pressed: false, released: false }
    }

    /// Fold one transition for `k` into the map, creating the entry if it is
    /// absent. Returns the level flag the key held just before the event: for
    /// a press this is the key-repeat signal.
    pub fn apply_transition(&mut self, k: u32, t: Transition) -> (was_down: bool)
        requires
            old(self).wf(),
        ensures
            final(self).wf(),
            final(self).state_of(k) == transition_state(t),
            forall|j: u32| j != k ==> #[trigger] final(self).state_of(j) == old(self).state_of(j),
            was_down == old(self).state_of(k).down,
    {
        let new_state = match t {
            Transition::Pressed => ButtonState { down: true, pressed: true, released: false },
            Transition::Released => ButtonState { down: false, pressed: false, released: true },
        };
        let n = self.entries.len();
        let mut i: usize = 0;
        while i < n
            invariant
                i <= n,
                n == self.entries@.len(),
                forall|m: int| 0 <= m < i ==> (#[trigger] self.entries@[m]).0 != k,
                self == old(self),
                old(self).wf(),
                new_state == transition_state(t),
            decreases n - i,
        {
            let (key, st) = self.entries[i];
            if key == k {
                self.entries.set(i, (k, new_state));
                proof {
                    lemma_lookup_found(old(self).entries@, k, i as int);
                    lemma_lookup_update(old(self).entries@, k, i as int, new_state);
                    assert forall|j: u32| j != k implies #[trigger] self.state_of(j) == old(
                        self,
                    ).state_of(j) by {
                        lemma_lookup_update_other(old(self).entries@, k, i as int, new_state, j);
                    }
                    assert(self.entries@ =~= old(self).entries@.update(i as int, (k, new_state)));
                    assert(old(self).entries@[i as int].0 == k);
                    assert forall|a: int, b: int|
                        0 <= a < b < self.entries@.len() implies (#[trigger] self.entries@[a]).0
                        != (#[trigger] self.entries@[b]).0 by {
                        let s0 = old(self).entries@;
                        assert(0 <= a < b < s0.len());
                        assert((s0[a]).0 != (s0[b]).0);
                        assert(self.entries@[a].0 == s0[a].0);
                        assert(self.entries@[b].0 == s0[b].0);
                    }
                }
                return st.down;
            }
            i = i + 1;
        }
        proof {
            lemma_lookup_absent(self.entries@, k);
        }
        self.entries.push((k, new_state));
        proof {
            assert forall|j: u32| #[trigger] self.state_of(j) == (if j == k {
                new_state
            } else {
                old(self).state_of(j)
            }) by {
                lemma_lookup_push(old(self).entries@, k, new_state, j);
            }
            assert forall|a: int, b: int|
                0 <= a < b < self.entries@.len() implies (#[trigger] self.entries@[a]).0 != (
            #[trigger] self.entries@[b]).0 by {
                if b < self.entries@.len() - 1 {
                    assert(old(self).entries@[a].0 != old(self).entries@[b].0);
                } else {
                    assert(old(self).entries@[a].0 != k);
                }
            }
        }
        false
    }

    /// Clear the cycle-local edge flags of every entry; level flags persist.
    pub fn clear_edges(&mut self)
        requires
            old(self).wf(),
        ensures
            final(self).wf(),
            forall|j: u32| #[trigger] final(self).state_of(j) == cleared(old(self).state_of(j)),
    {
        let n = self.entries.len();
        let mut i: usize = 0;
        while i < n
            invariant
                i <= n,
                n == self.entries@.len(),
                self.entries@.len() == old(self).entries@.len(),
                forall|m: int|
                    0 <= m < i ==> (#[trigger] self.entries@[m]).0 == old(self).entries@[m].0
                        && self.entries@[m].1 == cleared(old(self).entries@[m].1),
                forall|m: int| i <= m < n ==> #[trigger] self.entries@[m] == old(self).entries@[m],
            decreases n - i,
        {
            let (key, st) = self.entries[i];
            self.entries.set(i, (key, ButtonState { down: st.down, pressed: false, released: false }));
            i = i + 1;
        }
        proof {
            assert forall|j: u32| #[trigger] self.state_of(j) == cleared(old(self).state_of(j)) by {
                lemma_lookup_pointwise_cleared(old(self).entries@, self.entries@, j);
            }
            assert forall|a: int, b: int|
                0 <= a < b < self.entries@.len() implies (#[trigger] self.entries@[a]).0 != (
            #[trigger] self.entries@[b]).0 by {
                assert(old(self).entries@[a].0 != old(self).entries@[b].0);
            }
        }
    }
}

} // verus!
