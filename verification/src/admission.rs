//! Admission control: which requests are served, and for how long.
//!
//! A request arrives pending. It is admitted if a slot is free and shed if none
//! is; a request that is shed is never run. An admitted request is started, and
//! runs until it completes, fails, or its time is up. The control counts the requests
//! that hold a slot, those admitted or running, and never lets that count pass its
//! ceiling.
//!
//! Nothing here waits or keeps time. The program around the library does, and tells
//! the control what happened.

use vstd::prelude::*;
use crate::failure::Failure;

verus! {

/// How many requests may hold a slot at once.
pub const CONCURRENCY_CEILING: usize = 200;

/// How long a request may run, in seconds.
pub const TIME_BUDGET_SECS: u64 = 3600;

/// Where a request stands.
#[derive(Debug, Clone, Copy, PartialEq, Eq, Structural)]
pub enum Phase {
    Pending,
    Admitted,
    Running,
    Completed,
    TimedOut,
    Shed,
    Failed,
}

/// What happened to a request.
#[derive(Debug, Clone, Copy, PartialEq, Eq, Structural)]
pub enum Event {
    /// It came in.
    Arrive,
    /// Its work was started.
    Start,
    /// Its work came to an end and gave a result.
    Finish,
    /// Its work came to an end and gave a failure.
    Fail,
    /// Its time was up.
    Deadline,
}

/// How full the service is: its ceiling and the number of slots held.
pub struct Occupancy {
    pub ceiling: nat,
    pub in_flight: nat,
}

/// The request holds a slot.
pub open spec fn holds_slot(phase: Phase) -> bool {
    phase == Phase::Admitted || phase == Phase::Running
}

/// The request has come to its end.
pub open spec fn is_settled(phase: Phase) -> bool {
    phase == Phase::Completed || phase == Phase::TimedOut || phase == Phase::Shed || phase
        == Phase::Failed
}

/// A slot is free.
pub open spec fn has_room(slots: Occupancy) -> bool {
    slots.in_flight < slots.ceiling
}

/// Where a request stands after an event. An event that does not apply to the phase
/// leaves it as it is.
pub open spec fn next_phase(phase: Phase, event: Event, room: bool) -> Phase {
    match (phase, event) {
        (Phase::Pending, Event::Arrive) => if room {
            Phase::Admitted
        } else {
            Phase::Shed
        },
        (Phase::Admitted, Event::Start) => Phase::Running,
        (Phase::Running, Event::Finish) => Phase::Completed,
        (Phase::Running, Event::Fail) => Phase::Failed,
        (Phase::Running, Event::Deadline) => Phase::TimedOut,
        _ => phase,
    }
}

/// The occupancy after a request went from `phase` to `next`: one slot more if it took
/// one, one less if it gave one back and any was held.
pub open spec fn occupancy_after(slots: Occupancy, phase: Phase, next: Phase) -> Occupancy {
    if !holds_slot(phase) && holds_slot(next) {
        Occupancy { ceiling: slots.ceiling, in_flight: slots.in_flight + 1 }
    } else if holds_slot(phase) && !holds_slot(next) && slots.in_flight > 0 {
        Occupancy { ceiling: slots.ceiling, in_flight: (slots.in_flight - 1) as nat }
    } else {
        slots
    }
}

/// What the caller of a settled request is told, where it is the admission control
/// that fails the request: that the service is overloaded, or that the request timed
/// out.
pub open spec fn refusal_of(phase: Phase) -> Option<Failure> {
    match phase {
        Phase::Shed => Some(Failure::Overloaded),
        Phase::TimedOut => Some(Failure::TimedOut),
        _ => None,
    }
}

/// The admission control of a service.
#[derive(Debug)]
pub struct AdmissionControl {
    ceiling: usize,
    in_flight: usize,
}

impl View for AdmissionControl {
    type V = Occupancy;

    closed spec fn view(&self) -> Occupancy {
        Occupancy { ceiling: self.ceiling as nat, in_flight: self.in_flight as nat }
    }
}

impl AdmissionControl {
    #[verifier::type_invariant]
    spec fn within_ceiling(self) -> bool {
        self.in_flight <= self.ceiling
    }

    /// An admission control with the given ceiling and no slot held.
    pub fn new(ceiling: usize) -> (control: AdmissionControl)
        ensures
            control@ == (Occupancy { ceiling: ceiling as nat, in_flight: 0 }),
    {
        AdmissionControl { ceiling, in_flight: 0 }
    }

    /// The ceiling.
    pub fn ceiling(&self) -> (ceiling: usize)
        ensures
            ceiling == self@.ceiling,
    {
        self.ceiling
    }

    /// The number of slots held, which is never above the ceiling.
    pub fn in_flight(&self) -> (held: usize)
        ensures
            held == self@.in_flight,
            held <= self@.ceiling,
    {
        proof {
            use_type_invariant(self);
        }
        self.in_flight
    }

    /// Takes a request one step on: says where it stands after the event, and counts
    /// the slot that it took or gave back.
    pub fn step(&mut self, phase: Phase, event: Event) -> (next: Phase)
        ensures
            next == next_phase(phase, event, has_room(old(self)@)),
            final(self)@ == occupancy_after(old(self)@, phase, next),
            final(self)@.in_flight <= final(self)@.ceiling,
    {
        proof {
            use_type_invariant(&*self);
        }
        let room = self.in_flight < self.ceiling;
        let next = match (phase, event) {
            (Phase::Pending, Event::Arrive) => if room {
                Phase::Admitted
            } else {
                Phase::Shed
            },
            (Phase::Admitted, Event::Start) => Phase::Running,
            (Phase::Running, Event::Finish) => Phase::Completed,
            (Phase::Running, Event::Fail) => Phase::Failed,
            (Phase::Running, Event::Deadline) => Phase::TimedOut,
            _ => phase,
        };
        let held = slot_held(phase);
        let holds = slot_held(next);
        if !held && holds {
            self.in_flight = self.in_flight + 1;
        } else if held && !holds && self.in_flight > 0 {
            self.in_flight = self.in_flight - 1;
        }
        next
    }
}

/// Whether a request in this phase holds a slot.
pub fn slot_held(phase: Phase) -> (held: bool)
    ensures
        held == holds_slot(phase),
{
    match phase {
        Phase::Admitted => true,
        Phase::Running => true,
        _ => false,
    }
}

/// The failure that the admission control answers a request with: overload for one
/// that was shed, a timeout for one whose time was up, none for any other.
pub fn refusal(phase: Phase) -> (failure: Option<Failure>)
    ensures
        failure == refusal_of(phase),
{
    match phase {
        Phase::Shed => Some(Failure::Overloaded),
        Phase::TimedOut => Some(Failure::TimedOut),
        _ => None,
    }
}

/// The number of requests, among those given, that hold a slot.
pub open spec fn slots_held(phases: Seq<Phase>) -> nat
    decreases phases.len(),
{
    if phases.len() == 0 {
        0
    } else {
        slots_held(phases.drop_last()) + if holds_slot(phases.last()) {
            1nat
        } else {
            0nat
        }
    }
}

proof fn lemma_slots_after_update(phases: Seq<Phase>, r: int, next: Phase)
    requires
        0 <= r < phases.len(),
    ensures
        slots_held(phases.update(r, next)) + (if holds_slot(phases[r]) {
            1nat
        } else {
            0nat
        }) == slots_held(phases) + (if holds_slot(next) {
            1nat
        } else {
            0nat
        }),
    decreases phases.len(),
{
    let changed = phases.update(r, next);
    if r == phases.len() - 1 {
        assert(changed.drop_last() =~= phases.drop_last());
    } else {
        assert(changed.drop_last() =~= phases.drop_last().update(r, next));
        lemma_slots_after_update(phases.drop_last(), r, next);
    }
}

/// The count is kept. If the slots held are those of the requests that are admitted or
/// running, they still are after any event for any of the requests, and they are never
/// more than the ceiling.
pub proof fn law_count_is_kept(slots: Occupancy, phases: Seq<Phase>, r: int, event: Event)
    requires
        slots.in_flight == slots_held(phases),
        slots.in_flight <= slots.ceiling,
        0 <= r < phases.len(),
    ensures
        ({
            let next = next_phase(phases[r], event, has_room(slots));
            let after = occupancy_after(slots, phases[r], next);
            &&& after.in_flight == slots_held(phases.update(r, next))
            &&& after.in_flight <= after.ceiling
            &&& after.ceiling == slots.ceiling
        }),
{
    let next = next_phase(phases[r], event, has_room(slots));
    lemma_slots_after_update(phases, r, next);
}

/// A request that arrives when every slot is held is shed: it takes no slot, it will
/// not run whatever happens next, and its caller is told that the service is
/// overloaded.
pub proof fn law_shed_when_full(slots: Occupancy, event: Event)
    requires
        slots.in_flight >= slots.ceiling,
    ensures
        ({
            let next = next_phase(Phase::Pending, Event::Arrive, has_room(slots));
            &&& next == Phase::Shed
            &&& occupancy_after(slots, Phase::Pending, next) == slots
            &&& refusal_of(next) == Some(Failure::Overloaded)
            &&& forall|room: bool| next_phase(next, event, room) == Phase::Shed
        }),
{
}

/// A request that arrives when a slot is free is admitted and takes the slot.
pub proof fn law_admitted_when_free(slots: Occupancy)
    requires
        slots.in_flight < slots.ceiling,
    ensures
        ({
            let next = next_phase(Phase::Pending, Event::Arrive, has_room(slots));
            &&& next == Phase::Admitted
            &&& occupancy_after(slots, Phase::Pending, next).in_flight == slots.in_flight + 1
        }),
{
}

/// The occupancy after `n` requests arrived one after the other and none left.
pub open spec fn after_arrivals(slots: Occupancy, n: nat) -> Occupancy
    decreases n,
{
    if n == 0 {
        slots
    } else {
        let before = after_arrivals(slots, (n - 1) as nat);
        occupancy_after(
            before,
            Phase::Pending,
            next_phase(Phase::Pending, Event::Arrive, has_room(before)),
        )
    }
}

/// Of requests that arrive one after the other while none leaves, as many are admitted
/// as there are free slots, and every one after those is shed: after `n` arrivals the
/// next one is admitted if a slot is still free, and shed if none is.
pub proof fn law_excess_is_shed(slots: Occupancy, n: nat)
    requires
        slots.in_flight <= slots.ceiling,
    ensures
        after_arrivals(slots, n).ceiling == slots.ceiling,
        after_arrivals(slots, n).in_flight == if slots.in_flight + n <= slots.ceiling {
            slots.in_flight + n
        } else {
            slots.ceiling
        },
        slots.in_flight + n < slots.ceiling ==> next_phase(
            Phase::Pending,
            Event::Arrive,
            has_room(after_arrivals(slots, n)),
        ) == Phase::Admitted,
        slots.in_flight + n >= slots.ceiling ==> next_phase(
            Phase::Pending,
            Event::Arrive,
            has_room(after_arrivals(slots, n)),
        ) == Phase::Shed,
    decreases n,
{
    if n > 0 {
        law_excess_is_shed(slots, (n - 1) as nat);
    }
}

/// A running request whose time is up is timed out: it gives its slot back, and its
/// caller is told that the request timed out.
pub proof fn law_deadline_times_out(slots: Occupancy)
    requires
        slots.in_flight > 0,
    ensures
        ({
            let next = next_phase(Phase::Running, Event::Deadline, has_room(slots));
            &&& next == Phase::TimedOut
            &&& occupancy_after(slots, Phase::Running, next).in_flight == slots.in_flight - 1
            &&& refusal_of(next) == Some(Failure::TimedOut)
        }),
{
}

/// A settled request stays where it is, whatever happens.
pub proof fn law_settled_stays(phase: Phase, event: Event, room: bool)
    requires
        is_settled(phase),
    ensures
        next_phase(phase, event, room) == phase,
{
}

} // verus!
