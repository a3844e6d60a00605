//! A traversal as contracts see it: the queue of references, the units of
//! the manifests claimed so far, and what each event does to them.
//!
//! Every manifest goes from unseen to running to succeeded or failed, and
//! never back. Whoever claims an identity starts its unit, so a claimed
//! manifest counts as running from the claim on.
//!
//! A reference that cannot be resolved is recorded as a failure and the
//! traversal goes on. Once a unit has failed no further unit is started;
//! the units still running are waited for. Either way the run ends with the
//! first failure that was reported.
//!
//! The second half of this module states what holds of every traversal.

use vstd::prelude::*;

verus! {

/// What the caller has to do next.
#[derive(Debug)]
pub enum Action<T> {
    /// Resolve this reference and report the outcome with
    /// [`crate::tasks::Recurse::resolved`].
    Resolve(T),
    /// Nothing can be dispatched now: report the next event of a running
    /// unit, or the outcome of the resolution under way.
    Wait,
    /// The traversal is over.
    Done,
}

/// Where a manifest stands in a traversal.
#[derive(Clone, Copy, Debug, PartialEq, Eq)]
pub enum UnitState {
    /// No reference has been resolved to it.
    Unseen,
    /// It has been claimed, and its unit has not ended.
    Running,
    /// Its unit has ended in success.
    Succeeded,
    /// Its unit has ended with a failure.
    Failed,
}

/// The unit of work of one manifest, as contracts see it.
pub struct Unit {
    /// The identity of the manifest.
    pub id: Seq<char>,
    /// Where the unit stands; never [`UnitState::Unseen`] in a valid
    /// traversal.
    pub state: UnitState,
}

/// The number of running units among `units`.
pub open spec fn running_among(units: Seq<Unit>) -> nat
    decreases units.len(),
{
    if units.len() == 0 {
        0
    } else {
        running_among(units.drop_last()) + if units.last().state is Running {
            1nat
        } else {
            0nat
        }
    }
}

/// `units` after the running unit of `id` has ended in `state`.
pub open spec fn ended(units: Seq<Unit>, id: Seq<char>, state: UnitState) -> Seq<Unit> {
    units.map_values(
        |u: Unit|
            if u.id == id && u.state is Running {
                Unit { id, state }
            } else {
                u
            },
    )
}

/// The state of a traversal as contracts see it.
pub struct Traversal<T, E> {
    /// References waiting to be resolved, oldest first.
    pub queue: Seq<T>,
    /// The units started so far, in the order of their claims.
    pub units: Seq<Unit>,
    /// Whether a reference has been handed out and its outcome is awaited.
    pub resolving: bool,
    /// The first failure reported, if any.
    pub failure: Option<E>,
    /// Whether a unit has failed, so that no further unit is started.
    pub halted: bool,
}

/// Something that happens to a traversal.
pub enum Event<T, E> {
    /// A reference is put on the queue from outside.
    Seed(T),
    /// The caller asks what to do next.
    Dispatch,
    /// A resolution ended, with the identity or with a failure.
    Resolved(Result<Seq<char>, E>),
    /// The unit of this identity found these references.
    Discovered(Seq<char>, Seq<T>),
    /// The unit of this identity ended.
    Finished(Seq<char>, Result<(), E>),
}

impl<T, E> Traversal<T, E> {
    /// A traversal in which nothing has happened yet.
    pub open spec fn fresh() -> Self {
        Traversal {
            queue: Seq::empty(),
            units: Seq::empty(),
            resolving: false,
            failure: None,
            halted: false,
        }
    }

    /// The identities claimed so far, in the order of their claims.
    pub open spec fn claimed(self) -> Seq<Seq<char>> {
        self.units.map_values(|u: Unit| u.id)
    }

    /// The number of units that were started and have not ended.
    pub open spec fn running(self) -> nat {
        running_among(self.units)
    }

    /// Whether the unit of `id` is running.
    pub open spec fn runs(self, id: Seq<char>) -> bool {
        self.units.contains(Unit { id, state: UnitState::Running })
    }

    /// Where the manifest `id` stands.
    pub open spec fn state_of(self, id: Seq<char>) -> UnitState {
        if self.units.contains(Unit { id, state: UnitState::Running }) {
            UnitState::Running
        } else if self.units.contains(Unit { id, state: UnitState::Succeeded }) {
            UnitState::Succeeded
        } else if self.units.contains(Unit { id, state: UnitState::Failed }) {
            UnitState::Failed
        } else {
            UnitState::Unseen
        }
    }

    /// No identity is claimed twice, every unit has been started, and a
    /// traversal halts only with a failure on record.
    pub open spec fn valid(self) -> bool {
        &&& self.claimed().no_duplicates()
        &&& forall|i: int| 0 <= i < self.units.len() ==> !(#[trigger] self.units[i].state is Unseen)
        &&& self.halted ==> self.failure is Some
    }

    /// Whether the next reference of the queue can be handed out.
    pub open spec fn can_resolve(self) -> bool {
        !self.resolving && !self.halted && self.queue.len() > 0
    }

    /// Nothing is under way: no resolution, no unit, and nothing left that
    /// may still be dispatched.
    pub open spec fn idle(self) -> bool {
        !self.resolving && self.running() == 0 && (self.halted || self.queue.len() == 0)
    }

    /// What [`crate::tasks::Recurse::dispatch`] answers in this state.
    pub open spec fn action(self) -> Action<T> {
        if self.can_resolve() {
            Action::Resolve(self.queue[0])
        } else if self.idle() {
            Action::Done
        } else {
            Action::Wait
        }
    }

    /// The failure on record once `e` has been reported: the first one stays.
    pub open spec fn first_failure(self, e: E) -> Option<E> {
        if self.failure is Some {
            self.failure
        } else {
            Some(e)
        }
    }

    /// Whether the outcome of a resolution makes the engine start a unit:
    /// the outcome was awaited, the traversal has not halted, and the
    /// identity is claimed for the first time.
    pub open spec fn starts(self, outcome: Result<Seq<char>, E>) -> bool {
        &&& self.resolving
        &&& !self.halted
        &&& outcome matches Ok(id)
        &&& !self.claimed().contains(id)
    }

    /// The state after a reference was put on the queue.
    pub open spec fn seeded(self, v: T) -> Self {
        Traversal { queue: self.queue.push(v), ..self }
    }

    /// The state after the caller asked what to do next.
    pub open spec fn dispatched(self) -> Self {
        if self.can_resolve() {
            Traversal { queue: self.queue.skip(1), resolving: true, ..self }
        } else {
            self
        }
    }

    /// The state after the outcome of a resolution was reported. An outcome
    /// that nobody waited for changes nothing.
    pub open spec fn resolved(self, outcome: Result<Seq<char>, E>) -> Self {
        if !self.resolving {
            self
        } else {
            match outcome {
                Err(e) => Traversal {
                    resolving: false,
                    failure: self.first_failure(e),
                    ..self
                },
                Ok(id) => if self.starts(outcome) {
                    Traversal {
                        resolving: false,
                        units: self.units.push(Unit { id, state: UnitState::Running }),
                        ..self
                    }
                } else {
                    Traversal { resolving: false, ..self }
                },
            }
        }
    }

    /// The state after the unit of `id` handed in the references it found.
    /// Only a running unit is listened to.
    pub open spec fn discovered(self, id: Seq<char>, found: Seq<T>) -> Self {
        if self.runs(id) {
            Traversal { queue: self.queue + found, ..self }
        } else {
            self
        }
    }

    /// The state after the unit of `id` ended. Only a running unit can
    /// end: any other report changes nothing.
    pub open spec fn finished(self, id: Seq<char>, outcome: Result<(), E>) -> Self {
        if !self.runs(id) {
            self
        } else {
            match outcome {
                Ok(_) => Traversal { units: ended(self.units, id, UnitState::Succeeded), ..self },
                Err(e) => Traversal {
                    units: ended(self.units, id, UnitState::Failed),
                    failure: self.first_failure(e),
                    halted: true,
                    ..self
                },
            }
        }
    }

    /// The result of the run: the first failure, or success if there was
    /// none.
    pub open spec fn outcome(self) -> Result<(), E> {
        match self.failure {
            Some(e) => Err(e),
            None => Ok(()),
        }
    }

    /// The state after `event`.
    pub open spec fn step(self, event: Event<T, E>) -> Self {
        match event {
            Event::Seed(v) => self.seeded(v),
            Event::Dispatch => self.dispatched(),
            Event::Resolved(outcome) => self.resolved(outcome),
            Event::Discovered(id, found) => self.discovered(id, found),
            Event::Finished(id, outcome) => self.finished(id, outcome),
        }
    }
}

/// One more unit is one more running unit exactly if it runs.
pub proof fn lemma_running_push(units: Seq<Unit>, unit: Unit)
    ensures
        running_among(units.push(unit)) == running_among(units) + if unit.state is Running {
            1nat
        } else {
            0nat
        },
{
    assert(units.push(unit).drop_last() =~= units);
}

/// Replacing one unit changes the number of running units by what the old
/// and the new unit count for. No more units run than there are.
pub proof fn lemma_running_update(units: Seq<Unit>, i: int, unit: Unit)
    requires
        0 <= i < units.len(),
    ensures
        running_among(units) <= units.len(),
        units[i].state is Running ==> running_among(units) >= 1,
        running_among(units.update(i, unit)) + (if units[i].state is Running {
            1nat
        } else {
            0nat
        }) == running_among(units) + (if unit.state is Running {
            1nat
        } else {
            0nat
        }),
    decreases units.len(),
{
    let rest = units.drop_last();
    if i == units.len() - 1 {
        assert(units.update(i, unit).drop_last() =~= rest);
        lemma_running_bounded(rest);
    } else {
        lemma_running_update(rest, i, unit);
        assert(units.update(i, unit).drop_last() =~= rest.update(i, unit));
    }
}

/// No more units run than there are, and where none runs, none is in the
/// running state.
pub proof fn lemma_running_bounded(units: Seq<Unit>)
    ensures
        running_among(units) <= units.len(),
        running_among(units) == 0 <==> forall|i: int|
            0 <= i < units.len() ==> !(#[trigger] units[i].state is Running),
    decreases units.len(),
{
    if units.len() > 0 {
        let rest = units.drop_last();
        lemma_running_bounded(rest);
        if running_among(units) == 0 {
            assert forall|i: int| 0 <= i < units.len() implies !(#[trigger] units[i].state
                is Running) by {
                if i < rest.len() {
                    assert(rest[i] == units[i]);
                }
            }
        } else if !(units.last().state is Running) {
            let i = choose|i: int| 0 <= i < rest.len() && #[trigger] rest[i].state is Running;
            assert(units[i].state is Running);
        }
    }
}

/// When the running unit of `id` ends, that unit alone changes: the
/// identities stay as they are, one unit less runs, and every other unit
/// stays where it stood.
pub proof fn lemma_ended(units: Seq<Unit>, id: Seq<char>, state: UnitState)
    requires
        units.map_values(|u: Unit| u.id).no_duplicates(),
        units.contains(Unit { id, state: UnitState::Running }),
        !(state is Running),
    ensures
        ended(units, id, state).map_values(|u: Unit| u.id) == units.map_values(|u: Unit| u.id),
        running_among(ended(units, id, state)) + 1 == running_among(units),
        ended(units, id, state).contains(Unit { id, state }),
        forall|u: Unit| u.id != id ==> (ended(units, id, state).contains(u) <==> units.contains(u)),
        forall|u: Unit| #[trigger]
            ended(units, id, state).contains(u) && u.id == id ==> u.state == state,
{
    let ids = units.map_values(|u: Unit| u.id);
    let after = ended(units, id, state);
    let i = choose|i: int|
        0 <= i < units.len() && units[i] == (Unit { id, state: UnitState::Running });
    assert forall|j: int| 0 <= j < units.len() && j != i implies units[j].id != id by {
        assert(ids[j] != ids[i]);
    }
    assert(after =~= units.update(i, Unit { id, state }));
    lemma_running_update(units, i, Unit { id, state });
    assert(after.map_values(|u: Unit| u.id) =~= ids);
    assert(after[i] == Unit { id, state });
    assert forall|u: Unit| u.id != id implies (after.contains(u) <==> units.contains(u)) by {
        if after.contains(u) {
            let j = choose|j: int| 0 <= j < after.len() && after[j] == u;
            assert(units[j] == u);
        }
        if units.contains(u) {
            let j = choose|j: int| 0 <= j < units.len() && units[j] == u;
            assert(after[j] == u);
        }
    }
    assert forall|u: Unit| #[trigger] after.contains(u) && u.id == id implies u.state
        == state by {
        let j = choose|j: int| 0 <= j < after.len() && after[j] == u;
        assert(units[j].id == id);
    }
}

/// Whatever happens, a valid traversal stays valid.
pub proof fn lemma_step_keeps_valid<T, E>(s: Traversal<T, E>, event: Event<T, E>)
    requires
        s.valid(),
    ensures
        s.step(event).valid(),
{
    let t = s.step(event);
    match event {
        Event::Resolved(Ok(id)) => {
            if s.starts(Ok(id)) {
                assert(t.claimed() =~= s.claimed().push(id));
                assert forall|i: int, j: int|
                    0 <= i < t.claimed().len() && 0 <= j < t.claimed().len() && i
                        != j implies t.claimed()[i] != t.claimed()[j] by {
                    if i == s.claimed().len() {
                        assert(s.claimed()[j] == t.claimed()[j]);
                    } else if j == s.claimed().len() {
                        assert(s.claimed()[i] == t.claimed()[i]);
                    } else {
                        assert(s.claimed()[i] == t.claimed()[i]);
                        assert(s.claimed()[j] == t.claimed()[j]);
                    }
                }
                assert forall|i: int| 0 <= i < t.units.len() implies !(#[trigger] t.units[i].state
                    is Unseen) by {
                    if i < s.units.len() {
                        assert(t.units[i] == s.units[i]);
                    }
                }
            }
        },
        Event::Finished(id, outcome) => {
            if s.runs(id) {
                let state = if outcome is Ok {
                    UnitState::Succeeded
                } else {
                    UnitState::Failed
                };
                lemma_ended(s.units, id, state);
                assert forall|i: int| 0 <= i < t.units.len() implies !(#[trigger] t.units[i].state
                    is Unseen) by {
                    assert(!(s.units[i].state is Unseen));
                }
            }
        },
        _ => {},
    }
}

/// Every manifest gets at most one unit, and a claim is never released.
/// The only event that changes the claims is the outcome of a resolution
/// that starts a unit: it appends an identity that no claim held before, and
/// one more unit is running. Any other event, a second resolution to the
/// same identity among them, leaves the claims as they are and starts
/// nothing.
pub proof fn lemma_claimed_once<T, E>(s: Traversal<T, E>, event: Event<T, E>)
    requires
        s.valid(),
    ensures
        match event {
            Event::Resolved(outcome) if s.starts(outcome) => {
                &&& outcome matches Ok(id)
                &&& !s.claimed().contains(id)
                &&& s.step(event).claimed() == s.claimed().push(id)
                &&& s.step(event).running() == s.running() + 1
                &&& s.step(event).runs(id)
            },
            _ => {
                &&& s.step(event).claimed() == s.claimed()
                &&& s.step(event).running() <= s.running()
            },
        },
{
    let t = s.step(event);
    match event {
        Event::Resolved(Ok(id)) => {
            if s.starts(Ok(id)) {
                let unit = Unit { id, state: UnitState::Running };
                lemma_running_push(s.units, unit);
                assert(t.claimed() =~= s.claimed().push(id));
                assert(t.units[s.units.len() as int] == unit);
            }
        },
        Event::Finished(id, outcome) => {
            if s.runs(id) {
                let state = if outcome is Ok {
                    UnitState::Succeeded
                } else {
                    UnitState::Failed
                };
                lemma_ended(s.units, id, state);
            }
        },
        _ => {},
    }
}

/// A diamond or a cycle changes nothing: once an identity is claimed, no
/// later resolution to it starts a unit, whatever happened in between.
pub proof fn lemma_claimed_stays<T, E>(s: Traversal<T, E>, event: Event<T, E>, id: Seq<char>)
    requires
        s.valid(),
        s.claimed().contains(id),
    ensures
        s.step(event).claimed().contains(id),
        !s.step(event).starts(Ok(id)),
{
    let t = s.step(event);
    let i = choose|i: int| 0 <= i < s.claimed().len() && s.claimed()[i] == id;
    lemma_claimed_once(s, event);
    assert(t.claimed()[i] == id);
}

/// A manifest never goes back: from unseen it can only start to run, a
/// running unit can only end, and a unit that succeeded or failed stays so.
/// It starts to run only by the resolution that claims it, and ends only by
/// its own report.
pub proof fn lemma_state_moves_forward<T, E>(s: Traversal<T, E>, event: Event<T, E>, id: Seq<char>)
    requires
        s.valid(),
    ensures
        match s.state_of(id) {
            UnitState::Unseen => s.step(event).state_of(id) == if event matches Event::Resolved(
                Ok(claimed),
            ) && claimed == id && s.starts(Ok(id)) {
                UnitState::Running
            } else {
                UnitState::Unseen
            },
            UnitState::Running => s.step(event).state_of(id) == match event {
                Event::Finished(unit, Ok(_)) if unit == id => UnitState::Succeeded,
                Event::Finished(unit, Err(_)) if unit == id => UnitState::Failed,
                _ => UnitState::Running,
            },
            UnitState::Succeeded => s.step(event).state_of(id) is Succeeded,
            UnitState::Failed => s.step(event).state_of(id) is Failed,
        },
{
    let t = s.step(event);
    lemma_state_claimed(s, id);
    match event {
        Event::Resolved(Ok(claimed)) => {
            if s.starts(Ok(claimed)) {
                let unit = Unit { id: claimed, state: UnitState::Running };
                assert(t.units[s.units.len() as int] == unit);
                assert forall|u: Unit| t.units.contains(u) <==> (s.units.contains(u) || u
                    == unit) by {
                    if t.units.contains(u) {
                        let j = choose|j: int| 0 <= j < t.units.len() && t.units[j] == u;
                        if j < s.units.len() {
                            assert(s.units[j] == u);
                        }
                    }
                    if s.units.contains(u) {
                        let j = choose|j: int| 0 <= j < s.units.len() && s.units[j] == u;
                        assert(t.units[j] == u);
                    }
                }
                if claimed == id {
                    assert(s.state_of(id) is Unseen);
                }
            }
        },
        Event::Finished(unit, outcome) => {
            if s.runs(unit) {
                let state = if outcome is Ok {
                    UnitState::Succeeded
                } else {
                    UnitState::Failed
                };
                lemma_ended(s.units, unit, state);
                if unit == id {
                    assert(!t.units.contains(Unit { id, state: UnitState::Running }));
                    if state is Failed {
                        assert(!t.units.contains(Unit { id, state: UnitState::Succeeded }));
                    }
                }
            }
        },
        _ => {},
    }
}

/// A manifest is unseen exactly as long as its identity is not claimed, and
/// it stands in one state only.
pub proof fn lemma_state_claimed<T, E>(s: Traversal<T, E>, id: Seq<char>)
    requires
        s.valid(),
    ensures
        s.state_of(id) is Unseen <==> !s.claimed().contains(id),
        forall|state: UnitState| #[trigger]
            s.units.contains(Unit { id, state }) <==> (s.state_of(id) == state && !(state
                is Unseen)),
{
    if s.claimed().contains(id) {
        let i = choose|i: int| 0 <= i < s.claimed().len() && s.claimed()[i] == id;
        assert(s.units[i] == Unit { id, state: s.units[i].state });
        assert(!(s.units[i].state is Unseen));
        assert(s.units.contains(Unit { id, state: s.units[i].state }));
    } else {
        assert forall|state: UnitState| !s.units.contains(Unit { id, state }) by {
            if s.units.contains(Unit { id, state }) {
                let j = choose|j: int|
                    0 <= j < s.units.len() && s.units[j] == (Unit { id, state });
                assert(s.claimed()[j] == id);
            }
        }
    }
    assert forall|state: UnitState| #[trigger]
        s.units.contains(Unit { id, state }) implies s.state_of(id) == state && !(state
        is Unseen) by {
        let j = choose|j: int| 0 <= j < s.units.len() && s.units[j] == (Unit { id, state });
        assert(s.claimed()[j] == id);
        assert(!(s.units[j].state is Unseen));
        assert forall|other: UnitState| s.units.contains(Unit { id, state: other }) implies other
            == state by {
            let k = choose|k: int|
                0 <= k < s.units.len() && s.units[k] == (Unit { id, state: other });
            assert(s.claimed()[k] == s.claimed()[j]);
        }
    }
}

/// The number of units ever started is bounded by the number of manifests
/// there are: a traversal over finitely many manifests starts finitely many
/// units, whatever cycles the references form.
pub proof fn lemma_units_bounded<T, E>(s: Traversal<T, E>, manifests: Set<Seq<char>>)
    requires
        s.valid(),
        manifests.finite(),
        forall|i: int| 0 <= i < s.units.len() ==> manifests.contains(#[trigger] s.units[i].id),
    ensures
        s.units.len() <= manifests.len(),
{
    let claimed = s.claimed();
    claimed.unique_seq_to_set();
    assert(claimed.to_set().subset_of(manifests)) by {
        assert forall|id: Seq<char>| claimed.to_set().contains(id) implies manifests.contains(
            id,
        ) by {
            let i = choose|i: int| 0 <= i < claimed.len() && claimed[i] == id;
            assert(manifests.contains(s.units[i].id));
        }
    }
    vstd::set_lib::lemma_len_subset(claimed.to_set(), manifests);
}

/// The first failure reported is the one that stays on record.
pub proof fn lemma_first_failure_stays<T, E>(s: Traversal<T, E>, event: Event<T, E>)
    requires
        s.failure is Some,
    ensures
        s.step(event).failure == s.failure,
        s.step(event).outcome() == s.outcome(),
{
}

/// A failure is put on record and touches nothing else of the work of
/// others. A resolution that fails leaves every unit and the queue as they
/// are, and the traversal goes on. A unit that fails releases no claim,
/// drops no queued reference and leaves every other unit where it stands:
/// what runs goes on running.
pub proof fn lemma_failure_isolated<T, E>(
    s: Traversal<T, E>,
    failed: Seq<char>,
    e: E,
    other: Seq<char>,
)
    requires
        s.valid(),
        other != failed,
    ensures
        s.resolved(Err(e)).units == s.units,
        s.resolved(Err(e)).queue == s.queue,
        s.resolved(Err(e)).halted == s.halted,
        s.resolving ==> s.resolved(Err(e)).outcome() is Err,
        s.finished(failed, Err(e)).claimed() == s.claimed(),
        s.finished(failed, Err(e)).queue == s.queue,
        s.finished(failed, Err(e)).state_of(other) == s.state_of(other),
        s.runs(failed) ==> s.finished(failed, Err(e)).running() == s.running() - 1,
        s.runs(failed) ==> s.finished(failed, Err(e)).outcome() is Err,
{
    lemma_state_moves_forward(s, Event::Finished(failed, Err(e)), other);
    if s.runs(failed) {
        lemma_ended(s.units, failed, UnitState::Failed);
    }
}

/// The traversal is over exactly when nothing is under way: no resolution
/// and no unit, and either the queue is empty or a unit has failed. Until
/// then every unit that runs is waited for, and asking again changes
/// nothing once it is over. A run that ends in success has emptied the
/// queue.
pub proof fn lemma_done_when_idle<T, E>(s: Traversal<T, E>, id: Seq<char>)
    requires
        s.valid(),
    ensures
        s.action() is Done <==> s.idle(),
        s.action() is Done ==> !s.runs(id) && !s.resolving && s.dispatched() == s,
        s.action() is Done && s.outcome() is Ok ==> s.queue.len() == 0,
        s.action() is Resolve ==> s.dispatched().resolving && s.queue == seq![
            s.action()->Resolve_0,
        ] + s.dispatched().queue,
{
    lemma_running_bounded(s.units);
    if s.action() is Resolve {
        assert(s.queue =~= seq![s.queue[0]] + s.queue.skip(1));
    }
    if s.runs(id) {
        let i = choose|i: int|
            0 <= i < s.units.len() && s.units[i] == (Unit { id, state: UnitState::Running });
        assert(s.units[i].state is Running);
    }
}

/// The run succeeds exactly when no failure was ever reported to a
/// traversal that awaited it.
pub proof fn lemma_success_without_failure<T, E>(s: Traversal<T, E>, event: Event<T, E>)
    requires
        s.failure is None,
    ensures
        s.step(event).outcome() is Err <==> {
            ||| (event matches Event::Resolved(Err(_)) && s.resolving)
            ||| (event matches Event::Finished(id, Err(_)) && s.runs(id))
        },
{
}

} // verus!
