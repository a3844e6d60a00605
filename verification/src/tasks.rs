//! The traversal engine: which reference to resolve next, which manifest to
//! start a unit of work for, and when the whole traversal is over.
//!
//! The engine performs no work itself. Its caller resolves references and
//! runs the units, and reports back what happened; the engine decides. A
//! traversal goes like this:
//!
//! 1. [`Recurse::run`] seeds the queue with the root reference.
//! 2. [`Recurse::dispatch`] says what to do next: resolve a reference, wait
//!    for a unit that is still running, or stop.
//! 3. [`Recurse::resolved`] takes the outcome of a resolution and claims the
//!    identity; it answers with the identity exactly when a unit has to be
//!    started for it.
//! 4. A running unit hands in the references it found with
//!    [`Recurse::discovered`] and ends with [`Recurse::finished`].
//! 5. After [`Action::Done`], [`Recurse::result`] is the result of the run.
//!
//! What each step does is said over [`Traversal`], and what holds of every
//! traversal is proved in [`crate::traversal`].

use std::collections::VecDeque;
use vstd::prelude::*;
use crate::claimed::ClaimedSet;
use crate::traversal::{
    Traversal, Unit, ended, lemma_running_bounded, lemma_running_push, lemma_running_update,
};
pub use crate::traversal::{Action, UnitState};

verus! {

/// The outcome of a resolution with the identity replaced by its text.
pub open spec fn outcome_view<E>(outcome: Result<String, E>) -> Result<Seq<char>, E> {
    match outcome {
        Ok(id) => Ok(id@),
        Err(e) => Err(e),
    }
}

/// A traversal over manifests: references of type `T` wait to be resolved
/// to identities, and each identity gets one unit of work, which ends in
/// success or with a failure of type `E`.
pub struct Recurse<T, E> {
    queue: VecDeque<T>,
    claimed: ClaimedSet,
    states: Vec<UnitState>,
    running: usize,
    resolving: bool,
    failure: Option<E>,
    halted: bool,
}

impl<T, E> View for Recurse<T, E> {
    type V = Traversal<T, E>;

    closed spec fn view(&self) -> Traversal<T, E> {
        Traversal {
            queue: self.queue@,
            units: Seq::new(
                self.claimed@.len(),
                |i: int| Unit { id: self.claimed@[i], state: self.states@[i] },
            ),
            resolving: self.resolving,
            failure: self.failure,
            halted: self.halted,
        }
    }
}

impl<T, E> Recurse<T, E> {
    /// The invariant of the engine: it holds a valid traversal, and keeps
    /// count of the running units.
    pub closed spec fn wf(&self) -> bool {
        &&& self@.valid()
        &&& self.claimed.wf()
        &&& self.states@.len() == self.claimed@.len()
        &&& self.running == self@.running()
    }

    /// A well-formed engine holds a valid traversal.
    pub proof fn lemma_valid(&self)
        requires
            self.wf(),
        ensures
            self@.valid(),
    {
    }

    /// A traversal in which nothing has happened yet.
    pub fn new() -> (engine: Self)
        ensures
            engine@ == Traversal::<T, E>::fresh(),
            engine.wf(),
    {
        let engine = Recurse {
            queue: VecDeque::new(),
            claimed: ClaimedSet::new(),
            states: Vec::new(),
            running: 0,
            resolving: false,
            failure: None,
            halted: false,
        };
        assert(engine@.units =~= Seq::<Unit>::empty());
        engine
    }

    /// Puts the root reference `v` on the queue.
    pub fn run(&mut self, v: T)
        requires
            old(self).wf(),
        ensures
            final(self)@ == old(self)@.seeded(v),
            final(self).wf(),
    {
        self.queue.push_back(v);
    }

    /// Says what to do next. A reference is handed out only while no
    /// resolution is under way and no unit has failed; it leaves the queue
    /// and its outcome is then awaited.
    pub fn dispatch(&mut self) -> (action: Action<T>)
        requires
            old(self).wf(),
        ensures
            action == old(self)@.action(),
            final(self)@ == old(self)@.dispatched(),
            final(self).wf(),
    {
        if !self.resolving && !self.halted {
            match self.queue.pop_front() {
                Some(v) => {
                    self.resolving = true;
                    assert(self.queue@ =~= old(self).queue@.skip(1));
                    return Action::Resolve(v);
                },
                None => {},
            }
        }
        if !self.resolving && self.running == 0 {
            Action::Done
        } else {
            Action::Wait
        }
    }

    /// Takes the outcome of the resolution under way. A failure is put on
    /// record if it is the first. An identity is claimed; the answer is
    /// `Some` of it exactly when it was claimed for the first time and no
    /// unit has failed, and the caller then starts a unit for it, which
    /// runs from now on.
    pub fn resolved(&mut self, outcome: Result<String, E>) -> (start: Option<String>)
        requires
            old(self).wf(),
        ensures
            final(self)@ == old(self)@.resolved(outcome_view(outcome)),
            start is Some == old(self)@.starts(outcome_view(outcome)),
            start matches Some(id) ==> outcome_view(outcome) == Ok::<Seq<char>, E>(id@),
            final(self).wf(),
    {
        if !self.resolving {
            return None;
        }
        self.resolving = false;
        match outcome {
            Err(e) => {
                if self.failure.is_none() {
                    self.failure = Some(e);
                }
                None
            },
            Ok(id) => {
                assert(old(self)@.claimed() =~= old(self).claimed@);
                if !self.halted && self.claimed.claim(id.as_str()) {
                    let ghost unit = Unit { id: id@, state: UnitState::Running };
                    proof {
                        self.claimed.lemma_len_bounded();
                        lemma_running_push(old(self)@.units, unit);
                        lemma_running_bounded(old(self)@.units);
                    }
                    self.states.push(UnitState::Running);
                    self.running = self.running + 1;
                    assert(self@.units =~= old(self)@.units.push(unit));
                    assert(self@.claimed() =~= self.claimed@);
                    Some(id)
                } else {
                    assert(self@.units =~= old(self)@.units);
                    None
                }
            },
        }
    }

    /// Puts the references that the unit of `unit` found on the queue, in
    /// their order. Only a running unit is listened to.
    pub fn discovered(&mut self, unit: &str, found: Vec<T>)
        requires
            old(self).wf(),
        ensures
            final(self)@ == old(self)@.discovered(unit@, found@),
            final(self).wf(),
    {
        if !self.is_running(unit) {
            return;
        }
        let mut found = found;
        let ghost all = found@;
        let mut rest: VecDeque<T> = VecDeque::new();
        while found.len() > 0
            invariant
                found@ + rest@ == all,
            decreases found.len(),
        {
            let last = found.pop();
            match last {
                Some(v) => {
                    rest.push_front(v);
                },
                None => {},
            }
            assert(found@ + rest@ =~= all);
        }
        assert(rest@ =~= all);
        self.queue.append(&mut rest);
    }

    /// Takes the end of the unit of `unit`, which then has succeeded or
    /// failed for good. A failure is put on record if it is the first, and
    /// from then on no further unit is started. Only a running unit can
    /// end.
    pub fn finished(&mut self, unit: &str, outcome: Result<(), E>)
        requires
            old(self).wf(),
        ensures
            final(self)@ == old(self)@.finished(unit@, outcome),
            final(self).wf(),
    {
        let at: Option<usize> = self.slot(unit);
        match at {
            None => {},
            Some(i) => {
                let ghost before = self@.units;
                let done: UnitState = match outcome {
                    Ok(_) => UnitState::Succeeded,
                    Err(e) => {
                        if self.failure.is_none() {
                            self.failure = Some(e);
                        }
                        self.halted = true;
                        UnitState::Failed
                    },
                };
                proof {
                    lemma_running_update(before, i as int, Unit { id: unit@, state: done });
                }
                self.states.set(i, done);
                self.running = self.running - 1;
                assert(self@.units =~= before.update(i as int, Unit { id: unit@, state: done }));
                assert(self@.units =~= ended(before, unit@, done)) by {
                    assert forall|j: int| 0 <= j < before.len() && j != i implies before[j].id
                        != unit@ by {
                        assert(self.claimed@[j] != self.claimed@[i as int]);
                    }
                }
                assert(self@.claimed() =~= self.claimed@);
            },
        }
    }

    /// Where the manifest `id` stands.
    pub fn state(&self, id: &str) -> (state: UnitState)
        requires
            self.wf(),
        ensures
            state == self@.state_of(id@),
    {
        match self.claimed.position(id) {
            None => {
                proof {
                    self.lemma_unclaimed(id@);
                }
                UnitState::Unseen
            },
            Some(i) => {
                proof {
                    self.lemma_claimed_at(i as int);
                }
                self.states[i]
            },
        }
    }

    /// The result of the run: the first failure reported, or success if
    /// there was none.
    pub fn result(self) -> (res: Result<(), E>)
        ensures
            res == self@.outcome(),
    {
        match self.failure {
            Some(e) => Err(e),
            None => Ok(()),
        }
    }

    /// Whether the unit of `id` is running.
    fn is_running(&self, id: &str) -> (yes: bool)
        requires
            self.wf(),
        ensures
            yes == self@.runs(id@),
    {
        self.slot(id).is_some()
    }

    /// The place of the unit of `id` among the units, if it is running.
    fn slot(&self, id: &str) -> (at: Option<usize>)
        requires
            self.wf(),
        ensures
            at is Some == self@.runs(id@),
            at matches Some(i) ==> i < self@.units.len() && self@.units[i as int] == (Unit {
                id: id@,
                state: UnitState::Running,
            }),
    {
        match self.claimed.position(id) {
            None => {
                proof {
                    self.lemma_unclaimed(id@);
                }
                None
            },
            Some(i) => {
                proof {
                    self.lemma_claimed_at(i as int);
                }
                match self.states[i] {
                    UnitState::Running => Some(i),
                    _ => None,
                }
            },
        }
    }

    /// An identity that has not been claimed has no unit.
    proof fn lemma_unclaimed(&self, id: Seq<char>)
        requires
            self.wf(),
            !self.claimed@.contains(id),
        ensures
            forall|state: UnitState| !self@.units.contains(Unit { id, state }),
            self@.state_of(id) is Unseen,
            !self@.runs(id),
    {
        assert forall|state: UnitState| !self@.units.contains(Unit { id, state }) by {
            if self@.units.contains(Unit { id, state }) {
                let j = choose|j: int|
                    0 <= j < self@.units.len() && self@.units[j] == (Unit { id, state });
                assert(self.claimed@[j] == id);
            }
        }
    }

    /// The unit at a place is the only unit of its identity.
    proof fn lemma_claimed_at(&self, i: int)
        requires
            self.wf(),
            0 <= i < self.claimed@.len(),
        ensures
            self@.units[i] == (Unit { id: self.claimed@[i], state: self.states@[i] }),
            self@.state_of(self.claimed@[i]) == self.states@[i],
            self@.runs(self.claimed@[i]) == (self.states@[i] is Running),
    {
        let id = self.claimed@[i];
        assert(self@.claimed() =~= self.claimed@);
        assert(!(self@.units[i].state is Unseen));
        assert forall|state: UnitState| self@.units.contains(Unit { id, state }) implies state
            == self.states@[i] by {
            let j = choose|j: int|
                0 <= j < self@.units.len() && self@.units[j] == (Unit { id, state });
            assert(self.claimed@[j] == self.claimed@[i]);
        }
        assert(self@.units.contains(self@.units[i]));
    }
}

} // verus!
