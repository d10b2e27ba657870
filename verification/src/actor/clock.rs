//! Clocks: wall-clock time for live trading, settable time with timers for backtests.

use crate::actor::handler::Handler;
use crate::actor::handler::Turns;
use crate::name_map;
use crate::name_map::NameMap;
use crate::order;
use crate::order::stable_order;
use crate::text;
use vstd::prelude::*;

verus! {

/// A timer that fired.
#[derive(Debug, PartialEq, Eq)]
pub struct TimeEvent {
    /// Number of the timer; 0 for named timers.
    pub id: u64,
    /// Name of the timer.
    pub name: String,
    /// Payload of the timer.
    pub payload: Vec<u8>,
    /// Deadline at which the timer fired.
    pub timestamp_ns: u64,
}

/// What a time event says.
pub struct EventView {
    pub id: u64,
    pub name: Seq<char>,
    pub payload: Seq<u8>,
    pub timestamp_ns: u64,
}

impl View for TimeEvent {
    type V = EventView;

    open spec fn view(&self) -> EventView {
        EventView {
            id: self.id,
            name: self.name@,
            payload: self.payload@,
            timestamp_ns: self.timestamp_ns,
        }
    }
}

impl Clone for TimeEvent {
    fn clone(&self) -> (r: Self)
        ensures
            r@ == self@,
    {
        let payload = self.payload.clone();
        assert(payload@ =~= self.payload@);
        TimeEvent { id: self.id, name: self.name.clone(), payload, timestamp_ns: self.timestamp_ns }
    }
}

/// The event of a named timer.
pub open spec fn named_event(name: Seq<char>, timestamp_ns: u64) -> EventView {
    EventView { id: 0, name, payload: seq![], timestamp_ns }
}

/// When a timer fires.
pub struct Schedule {
    pub deadline_ns: u64,
    pub interval_ns: u64,
    pub stop_ns: Option<u64>,
    /// The timer has a handler of its own.
    pub own_handler: bool,
}

/// The sum, or the largest number where it is too large.
pub open spec fn saturated_sum(a: u64, b: u64) -> u64 {
    if a + b > u64::MAX {
        u64::MAX
    } else {
        (a + b) as u64
    }
}

impl Schedule {
    /// A timer that fires once.
    pub open spec fn once(deadline_ns: u64, own_handler: bool) -> Schedule {
        Schedule { deadline_ns, interval_ns: 0, stop_ns: None, own_handler }
    }

    /// A timer that fires every `interval_ns`, the first time at `start_ns` or one interval after
    /// it.
    pub open spec fn repeating(
        interval_ns: u64,
        start_ns: u64,
        stop_ns: Option<u64>,
        fire_immediately: bool,
    ) -> Schedule {
        Schedule {
            deadline_ns: if fire_immediately {
                start_ns
            } else {
                saturated_sum(start_ns, interval_ns)
            },
            interval_ns,
            stop_ns,
            own_handler: true,
        }
    }

    /// The timer behind a firing: a repeating timer moves on by its interval, unless that is
    /// behind its stop time; any other timer is done.
    pub open spec fn next(self) -> Option<Schedule> {
        if self.interval_ns == 0 {
            None
        } else {
            let deadline = saturated_sum(self.deadline_ns, self.interval_ns);
            match self.stop_ns {
                Some(stop) => if deadline > stop {
                    None
                } else {
                    Some(Schedule { deadline_ns: deadline, ..self })
                },
                None => Some(Schedule { deadline_ns: deadline, ..self }),
            }
        }
    }

    /// The deadline is not behind the stop time.
    pub open spec fn in_time(self) -> bool {
        self.stop_ns matches Some(stop) ==> self.deadline_ns <= stop
    }

    /// The timer is due at a time. A deadline behind the stop time is never due.
    pub open spec fn due(self, to_ns: u64) -> bool {
        self.deadline_ns <= to_ns && self.in_time()
    }

    /// The timer is due again when it has fired at its deadline.
    pub open spec fn due_again(self, to_ns: u64) -> bool {
        self.next() matches Some(n) && self.deadline_ns < n.deadline_ns <= to_ns
    }

    /// The times at which the timer fires until a time: its deadline, and then every interval.
    pub open spec fn firings(self, to_ns: u64) -> Seq<u64>
        decreases to_ns - self.deadline_ns,
    {
        if !self.due(to_ns) {
            seq![]
        } else if self.due_again(to_ns) {
            seq![self.deadline_ns] + self.next()->0.firings(to_ns)
        } else {
            seq![self.deadline_ns]
        }
    }

    /// The timer behind its firings until a time. One whose deadline was behind its stop time is
    /// done, too.
    pub open spec fn left(self, to_ns: u64) -> Option<Schedule>
        decreases to_ns - self.deadline_ns,
    {
        if self.deadline_ns > to_ns {
            Some(self)
        } else if !self.in_time() {
            None
        } else if self.due_again(to_ns) {
            self.next()->0.left(to_ns)
        } else {
            self.next()
        }
    }
}

/// Timers by name.
pub type Timers = Map<Seq<char>, Schedule>;

/// The timers behind an advance to `to_ns`: each one that is due has fired.
pub open spec fn advanced(timers: Timers, to_ns: u64) -> Timers {
    Map::new(
        |k: Seq<char>| timers.dom().contains(k) && timers[k].left(to_ns) is Some,
        |k: Seq<char>| timers[k].left(to_ns)->0,
    )
}

/// The events of a timer that fires at times.
pub open spec fn events_at(name: Seq<char>, times: Seq<u64>) -> Seq<EventView> {
    Seq::new(times.len(), |i: int| named_event(name, times[i]))
}

/// The events of the first `n` timers of a listing that are due, in the order of their names, and
/// those of a timer in the order of their times.
pub open spec fn due_events(
    listing: Seq<(Seq<char>, Schedule)>,
    to_ns: u64,
    n: int,
) -> Seq<EventView>
    decreases n,
{
    if n <= 0 {
        seq![]
    } else {
        due_events(listing, to_ns, n - 1) + events_at(
            listing[n - 1].0,
            listing[n - 1].1.firings(to_ns),
        )
    }
}

/// The handlers of a clock by their numbers: the timers' own, and the default one.
pub struct Targets {
    pub own: Map<Seq<char>, int>,
    pub default: Option<int>,
}

impl Targets {
    /// The handler that is called when a timer fires: its own, or else the default one.
    pub open spec fn of(self, name: Seq<char>) -> Option<int> {
        if self.own.dom().contains(name) {
            Some(self.own[name])
        } else {
            self.default
        }
    }

    /// A timer has a handler of its own.
    pub open spec fn with(self, name: Seq<char>, slot: int) -> Targets {
        Targets { own: self.own.insert(name, slot), ..self }
    }

    /// A timer has no handler of its own.
    pub open spec fn without(self, name: Seq<char>) -> Targets {
        Targets { own: self.own.remove(name), ..self }
    }
}

/// Events with the number of the handler that is called with each; none for a timer without a
/// handler.
pub open spec fn calls_with(target: Option<int>, events: Seq<EventView>) -> Seq<(int, EventView)> {
    match target {
        Some(slot) => Seq::new(events.len(), |i: int| (slot, events[i])),
        None => seq![],
    }
}

/// The calls of handlers for the first `n` timers of a listing that are due, in their order.
pub open spec fn due_calls(
    listing: Seq<(Seq<char>, Schedule)>,
    targets: Targets,
    to_ns: u64,
    n: int,
) -> Seq<(int, EventView)>
    decreases n,
{
    if n <= 0 {
        seq![]
    } else {
        due_calls(listing, targets, to_ns, n - 1) + calls_with(
            targets.of(listing[n - 1].0),
            events_at(listing[n - 1].0, listing[n - 1].1.firings(to_ns)),
        )
    }
}

/// What the log of a handler gains by calls: its own of them, each with its turn. `start` calls had
/// been made before.
pub open spec fn heard(calls: Seq<(int, EventView)>, slot: int, start: nat) -> Seq<(nat, EventView)>
    decreases calls.len(),
{
    if calls.len() == 0 {
        seq![]
    } else {
        let front = heard(calls.drop_last(), slot, start);
        if calls.last().0 == slot {
            front.push(((start + calls.len() - 1) as nat, calls.last().1))
        } else {
            front
        }
    }
}

/// What a handler was called with, as views.
pub open spec fn log_views(calls: Seq<(nat, TimeEvent)>) -> Seq<(nat, EventView)> {
    Seq::new(calls.len(), |i: int| (calls[i].0, calls[i].1@))
}

/// The handlers have been called, each with its own of the calls and no others.
pub open spec fn all_heard<H: Handler<TimeEvent>>(
    before: Seq<H>,
    after: Seq<H>,
    calls: Seq<(int, EventView)>,
    start: nat,
) -> bool {
    &&& after.len() == before.len()
    &&& forall|i: int|
        0 <= i < before.len() ==> log_views((#[trigger] after[i]).log().calls) == log_views(
            before[i].log().calls,
        ) + heard(calls, i, start)
}

/// The times of events.
pub open spec fn event_times(events: Seq<EventView>) -> Seq<u64> {
    Seq::new(events.len(), |i: int| events[i].timestamp_ns)
}

/// The views of time events.
pub open spec fn event_views(events: Seq<TimeEvent>) -> Seq<EventView> {
    Seq::new(events.len(), |i: int| events[i]@)
}

/// `result` is `events` in stable ascending order of their times.
pub open spec fn in_time_order(events: Seq<EventView>, result: Seq<EventView>) -> bool {
    exists|p: Seq<usize>| #[trigger]
        order::is_stable_order(event_times(events), p) && result == order::pick(events, p)
}

/// The names of a listing.
pub open spec fn listed_names(listing: Seq<(Seq<char>, Schedule)>) -> Seq<Seq<char>> {
    Seq::new(listing.len(), |i: int| listing[i].0)
}

/// A source of time with named timers.
pub trait Clock: Sized {
    /// What is called when a timer fires.
    type Handler: Handler<TimeEvent>;

    /// The clock can be used.
    spec fn ok(&self) -> bool;

    /// The times that the clock may show.
    spec fn times(&self) -> Set<u64>;

    /// The clock keeps the timers that are set.
    spec fn keeps_timers(&self) -> bool;

    /// The pending timers in ascending order of their names.
    spec fn listing(&self) -> Seq<(Seq<char>, Schedule)>;

    /// The times to which the clock can be advanced.
    spec fn reach(&self) -> Set<u64>;

    /// The handlers that were set so far.
    spec fn handlers(&self) -> Seq<Self::Handler>;

    /// Which handler is called for which timer.
    spec fn targets(&self) -> Targets;

    /// The number of calls of handlers that the clock has made.
    spec fn calls(&self) -> nat;

    /// What a usable clock gives: the names of the pending timers ascend, so that each is listed
    /// once, and every timer's own handler is there.
    proof fn listing_ascends(&self)
        requires
            self.ok(),
        ensures
            name_map::ascending(self.listing()),
            forall|k: Seq<char>| #[trigger]
                self.targets().own.dom().contains(k) ==> 0 <= self.targets().own[k]
                    < self.handlers().len(),
            self.targets().default matches Some(d) ==> 0 <= d < self.handlers().len(),
    ;

    /// The current time in nanoseconds.
    fn timestamp_ns(&self) -> (r: u64)
        requires
            self.ok(),
        ensures
            self.times().contains(r),
    ;

    /// The current time in milliseconds.
    fn timestamp_ms(&self) -> (r: u64)
        requires
            self.ok(),
        ensures
            exists|ns: u64| #[trigger] self.times().contains(ns) && r == ns / 1_000_000,
    ;

    /// The names of the pending timers, in ascending order.
    fn timer_names(&self) -> (r: Vec<String>)
        requires
            self.ok(),
        ensures
            text::texts(r@) == listed_names(self.listing()),
    ;

    /// The number of pending timers.
    fn timer_count(&self) -> (r: usize)
        requires
            self.ok(),
        ensures
            r == self.listing().len(),
    ;

    /// Sets a timer that fires once, with its own handler. A timer of the same name is replaced.
    fn set_timer(&mut self, name: &str, deadline_ns: u64, handler: Self::Handler)
        requires
            old(self).ok(),
        ensures
            final(self).ok(),
            name_map::map_of(final(self).listing()) == with_timer(
                old(self).keeps_timers(),
                name_map::map_of(old(self).listing()),
                name@,
                Schedule::once(deadline_ns, true),
            ),
            final(self).handlers() == with_handler(
                old(self).keeps_timers(),
                old(self).handlers(),
                handler,
            ),
            final(self).calls() == old(self).calls(),
            final(self).targets() == (if old(self).keeps_timers() {
                old(self).targets().with(name@, old(self).handlers().len() as int)
            } else {
                old(self).targets()
            }),
            final(self).keeps_timers() == old(self).keeps_timers(),
            final(self).times() == old(self).times(),
            final(self).reach() == old(self).reach(),
    ;

    /// Sets a timer that fires once, for the default handler.
    fn set_timer_anonymous(&mut self, name: &str, deadline_ns: u64)
        requires
            old(self).ok(),
        ensures
            final(self).ok(),
            name_map::map_of(final(self).listing()) == with_timer(
                old(self).keeps_timers(),
                name_map::map_of(old(self).listing()),
                name@,
                Schedule::once(deadline_ns, false),
            ),
            final(self).handlers() == old(self).handlers(),
            final(self).calls() == old(self).calls(),
            final(self).targets() == (if old(self).keeps_timers() {
                old(self).targets().without(name@)
            } else {
                old(self).targets()
            }),
            final(self).keeps_timers() == old(self).keeps_timers(),
            final(self).times() == old(self).times(),
            final(self).reach() == old(self).reach(),
    ;

    /// Sets a timer that fires every `interval_ns`: first at `start_ns + interval_ns`, or at
    /// `start_ns` if `fire_immediately`, and not after `stop_ns`.
    fn set_timer_repeating(
        &mut self,
        name: &str,
        interval_ns: u64,
        start_ns: u64,
        stop_ns: Option<u64>,
        handler: Self::Handler,
        fire_immediately: bool,
    )
        requires
            old(self).ok(),
        ensures
            final(self).ok(),
            name_map::map_of(final(self).listing()) == with_timer(
                old(self).keeps_timers(),
                name_map::map_of(old(self).listing()),
                name@,
                Schedule::repeating(interval_ns, start_ns, stop_ns, fire_immediately),
            ),
            final(self).handlers() == with_handler(
                old(self).keeps_timers(),
                old(self).handlers(),
                handler,
            ),
            final(self).calls() == old(self).calls(),
            final(self).targets() == (if old(self).keeps_timers() {
                old(self).targets().with(name@, old(self).handlers().len() as int)
            } else {
                old(self).targets()
            }),
            final(self).keeps_timers() == old(self).keeps_timers(),
            final(self).times() == old(self).times(),
            final(self).reach() == old(self).reach(),
    ;

    /// Drops a timer.
    fn cancel_timer(&mut self, name: &str)
        requires
            old(self).ok(),
        ensures
            final(self).ok(),
            name_map::map_of(final(self).listing()) == name_map::map_of(old(self).listing()).remove(name@),
            final(self).handlers() == old(self).handlers(),
            final(self).calls() == old(self).calls(),
            final(self).targets() == old(self).targets().without(name@),
            final(self).keeps_timers() == old(self).keeps_timers(),
            final(self).times() == old(self).times(),
            final(self).reach() == old(self).reach(),
    ;

    /// Drops all timers.
    fn cancel_timers(&mut self)
        requires
            old(self).ok(),
        ensures
            final(self).ok(),
            name_map::map_of(final(self).listing()) == Map::<Seq<char>, Schedule>::empty(),
            final(self).handlers() == old(self).handlers(),
            final(self).calls() == old(self).calls(),
            final(self).targets() == (Targets { own: Map::empty(), ..old(self).targets() }),
            final(self).keeps_timers() == old(self).keeps_timers(),
            final(self).times() == old(self).times(),
            final(self).reach() == old(self).reach(),
    ;

    /// The next deadline of a timer; 0 where there is none of the name.
    fn next_time_ns(&self, name: &str) -> (r: u64)
        requires
            self.ok(),
        ensures
            r == (if name_map::map_of(self.listing()).dom().contains(name@) {
                name_map::map_of(self.listing())[name@].deadline_ns
            } else {
                0
            }),
    ;

    /// Sets the handler of timers without one of their own.
    fn register_default_handler(&mut self, handler: Self::Handler)
        requires
            old(self).ok(),
        ensures
            final(self).ok(),
            name_map::map_of(final(self).listing()) == name_map::map_of(old(self).listing()),
            final(self).handlers() == with_handler(
                old(self).keeps_timers(),
                old(self).handlers(),
                handler,
            ),
            final(self).calls() == old(self).calls(),
            final(self).targets() == (if old(self).keeps_timers() {
                Targets { default: Some(old(self).handlers().len() as int), ..old(self).targets() }
            } else {
                old(self).targets()
            }),
            final(self).keeps_timers() == old(self).keeps_timers(),
            final(self).times() == old(self).times(),
            final(self).reach() == old(self).reach(),
    ;

    /// Advances to a time and gives the events of all timers that are due, in time order and by
    /// name at equal times: a repeating timer fires once for every interval that has passed. For
    /// each event the timer's own handler, or else the default handler, is called once, and no
    /// handler is called otherwise; the calls are made timer by timer, in the order of the names.
    fn advance_time(&mut self, to_ns: u64) -> (r: Vec<TimeEvent>)
        requires
            old(self).ok(),
            old(self).reach().contains(to_ns),
        ensures
            final(self).ok(),
            final(self).keeps_timers() == old(self).keeps_timers(),
            old(self).keeps_timers() ==> final(self).times() == set![to_ns],
            name_map::map_of(final(self).listing()) == advanced(
                name_map::map_of(old(self).listing()),
                to_ns,
            ),
            in_time_order(
                due_events(old(self).listing(), to_ns, old(self).listing().len() as int),
                event_views(r@),
            ),
            all_heard(
                old(self).handlers(),
                final(self).handlers(),
                due_calls(
                    old(self).listing(),
                    old(self).targets(),
                    to_ns,
                    old(self).listing().len() as int,
                ),
                old(self).calls(),
            ),
            final(self).calls() == old(self).calls() + due_calls(
                old(self).listing(),
                old(self).targets(),
                to_ns,
                old(self).listing().len() as int,
            ).len(),
            final(self).targets() == (Targets {
                own: old(self).targets().own.restrict(
                    name_map::map_of(final(self).listing()).dom(),
                ),
                ..old(self).targets()
            }),
    ;
}

/// The handlers of a clock on which one was set.
pub open spec fn with_handler<H>(keeps: bool, handlers: Seq<H>, handler: H) -> Seq<H> {
    if keeps {
        handlers.push(handler)
    } else {
        handlers
    }
}

/// The timers of a clock on which a timer was set.
pub open spec fn with_timer(keeps: bool, timers: Timers, name: Seq<char>, s: Schedule) -> Timers {
    if keeps {
        timers.insert(name, s)
    } else {
        timers
    }
}

// ---------------------------------------------------------------------------
// TestClock
// ---------------------------------------------------------------------------

/// A pending timer of a `TestClock`.
#[derive(Debug, Clone, Copy, PartialEq, Eq)]
struct TimerData {
    deadline_ns: u64,
    interval_ns: u64,
    stop_ns: Option<u64>,
    /// Position of the timer's own handler.
    callback: Option<usize>,
}

impl TimerData {
    spec fn schedule(self) -> Schedule {
        Schedule {
            deadline_ns: self.deadline_ns,
            interval_ns: self.interval_ns,
            stop_ns: self.stop_ns,
            own_handler: self.callback is Some,
        }
    }

    spec fn handled_in(self, n: nat) -> bool {
        match self.callback {
            Some(c) => c < n,
            None => true,
        }
    }

    fn rescheduled(&self) -> (r: Option<TimerData>)
        ensures
            match r {
                Some(t) => self.schedule().next() == Some(t.schedule()) && t.callback
                    == self.callback,
                None => self.schedule().next() is None,
            },
    {
        if self.interval_ns == 0 {
            return None;
        }
        let deadline: u64 = self.deadline_ns.saturating_add(self.interval_ns);
        let over = match self.stop_ns {
            Some(stop) => deadline > stop,
            None => false,
        };
        if over {
            None
        } else {
            Some(
                TimerData {
                    deadline_ns: deadline,
                    interval_ns: self.interval_ns,
                    stop_ns: self.stop_ns,
                    callback: self.callback,
                },
            )
        }
    }
}

/// Clock for backtests: the time is set, and timers are kept by name.
pub struct TestClock<H> {
    current_ns: u64,
    timers: NameMap<TimerData>,
    handlers: Vec<H>,
    default_handler: Option<usize>,
    turns: Turns,
}

/// A listing of timers as schedules.
spec fn schedules(s: Seq<(Seq<char>, TimerData)>) -> Seq<(Seq<char>, Schedule)> {
    Seq::new(s.len(), |i: int| (s[i].0, s[i].1.schedule()))
}

/// Schedules of equal listings are the schedules of the maps.
proof fn lemma_schedules_map(s: Seq<(Seq<char>, TimerData)>)
    requires
        name_map::ascending(s),
    ensures
        name_map::ascending(schedules(s)),
        forall|k: Seq<char>| #[trigger]
            name_map::map_of(schedules(s)).dom().contains(k) <==> name_map::map_of(
                s,
            ).dom().contains(k),
        forall|k: Seq<char>| #[trigger]
            name_map::map_of(s).dom().contains(k) ==> name_map::map_of(schedules(s))[k]
                == name_map::map_of(s)[k].schedule(),
{
    let t = schedules(s);
    assert forall|i: int, j: int| 0 <= i < j < t.len() implies text::comes_before(
        (#[trigger] t[i]).0,
        (#[trigger] t[j]).0,
    ) by {
        assert(text::comes_before(s[i].0, s[j].0));
    }
    name_map::map_of_lists(s);
    name_map::map_of_lists(t);
    assert forall|k: Seq<char>| #[trigger]
        name_map::map_of(t).dom().contains(k) <==> name_map::map_of(s).dom().contains(k) by {
        if name_map::has_name(t, k) {
            let i = choose|i: int| 0 <= i < t.len() && (#[trigger] t[i]).0 == k;
            assert(s[i].0 == k);
        }
        if name_map::has_name(s, k) {
            let i = choose|i: int| 0 <= i < s.len() && (#[trigger] s[i]).0 == k;
            assert(t[i].0 == k);
        }
    }
    assert forall|k: Seq<char>| #[trigger]
        name_map::map_of(s).dom().contains(k) implies name_map::map_of(t)[k] == name_map::map_of(
        s,
    )[k].schedule() by {
        let i = choose|i: int| 0 <= i < s.len() && (#[trigger] s[i]).0 == k;
        assert(t[i].0 == k);
        assert(name_map::map_of(s)[s[i].0] == s[i].1);
        assert(name_map::map_of(t)[t[i].0] == t[i].1);
    }
}

impl<H: Handler<TimeEvent>> TestClock<H> {
    /// The current time.
    pub closed spec fn now(&self) -> u64 {
        self.current_ns
    }

    /// The names of the timers ascend, and every handler that a timer names is there.
    pub closed spec fn wf(&self) -> bool {
        &&& self.timers.wf()
        &&& forall|k: Seq<char>| #[trigger]
            self.timers@.dom().contains(k) ==> self.timers@[k].handled_in(self.handlers@.len())
        &&& self.default_handler matches Some(d) ==> d < self.handlers@.len()
    }

    /// The pending timers in ascending order of their names.
    pub closed spec fn timers(&self) -> Seq<(Seq<char>, Schedule)> {
        schedules(self.timers.listing())
    }

    /// The handlers that were set so far.
    pub closed spec fn all_handlers(&self) -> Seq<H> {
        self.handlers@
    }

    /// Which handler is called for which timer.
    pub closed spec fn all_targets(&self) -> Targets {
        Targets {
            own: own_slots(self.timers@),
            default: match self.default_handler {
                Some(d) => Some(d as int),
                None => None,
            },
        }
    }

    /// The number of calls of handlers that the clock has made.
    pub closed spec fn all_calls(&self) -> nat {
        self.turns.count()
    }

    /// A clock at time 0 without timers.
    pub fn new() -> (r: Self)
        ensures
            r.wf(),
            r.now() == 0,
            r.timers() == Seq::<(Seq<char>, Schedule)>::empty(),
            r.all_handlers() == Seq::<H>::empty(),
            r.all_targets() == (Targets { own: Map::empty(), default: None }),
            r.all_calls() == 0,
    {
        let r = TestClock {
            current_ns: 0,
            timers: NameMap::new(),
            handlers: Vec::new(),
            default_handler: None,
            turns: Turns::new(),
        };
        assert(r.timers() =~= Seq::<(Seq<char>, Schedule)>::empty());
        assert(own_slots(r.timers@) =~= Map::<Seq<char>, int>::empty());
        r
    }

    /// Sets the time; it never goes back.
    pub fn set_time(&mut self, ns: u64)
        requires
            old(self).wf(),
            ns >= old(self).now(),
        ensures
            final(self).wf(),
            final(self).now() == ns,
            final(self).timers() == old(self).timers(),
            final(self).all_handlers() == old(self).all_handlers(),
            final(self).all_targets() == old(self).all_targets(),
            final(self).all_calls() == old(self).all_calls(),
    {
        self.current_ns = ns;
    }

    /// The current time.
    pub fn now_ns(&self) -> (r: u64)
        ensures
            r == self.now(),
    {
        self.current_ns
    }

    /// The handler that is called for a timer.
    spec fn target(&self, timer: TimerData) -> Option<int> {
        match timer.callback {
            Some(c) => Some(c as int),
            None => match self.default_handler {
                Some(d) => Some(d as int),
                None => None,
            },
        }
    }

    /// Calls the handler of a timer with an event.
    fn fire(&mut self, e: &TimeEvent, timer: TimerData)
        requires
            old(self).wf(),
            timer.handled_in(old(self).handlers@.len()),
        ensures
            final(self).wf(),
            final(self).current_ns == old(self).current_ns,
            final(self).timers == old(self).timers,
            final(self).default_handler == old(self).default_handler,
            all_heard(
                old(self).handlers@,
                final(self).handlers@,
                calls_with(old(self).target(timer), seq![e@]),
                old(self).turns.count(),
            ),
            final(self).turns.count() == old(self).turns.count() + calls_with(
                old(self).target(timer),
                seq![e@],
            ).len(),
    {
        let slot: Option<usize> = match timer.callback {
            Some(c) => Some(c),
            None => self.default_handler,
        };
        let ghost before = self.handlers@;
        let ghost start = self.turns.count();
        match slot {
            Some(c) => {
                self.handlers[c].handle(e, &mut self.turns);
                proof {
                    let one = calls_with(Some(c as int), seq![e@]);
                    assert(one.drop_last() =~= Seq::<(int, EventView)>::empty());
                    reveal_with_fuel(heard, 2);
                    assert forall|i: int| 0 <= i < before.len() implies log_views(
                        (#[trigger] self.handlers@[i]).log().calls,
                    ) == log_views(before[i].log().calls) + heard(one, i, start) by {
                        assert(log_views(self.handlers@[i].log().calls) =~= log_views(
                            before[i].log().calls,
                        ) + heard(one, i, start));
                    }
                }
            },
            None => {
                assert forall|i: int| 0 <= i < before.len() implies log_views(
                    (#[trigger] self.handlers@[i]).log().calls,
                ) == log_views(before[i].log().calls) + heard(seq![], i, start) by {
                    assert(log_views(before[i].log().calls) =~= log_views(before[i].log().calls)
                        + heard(seq![], i, start));
                }
            },
        }
    }

    /// Fires a timer at its deadline and then every interval until a time, and gives what is left
    /// of it.
    fn fire_until(
        &mut self,
        name: &str,
        timer: TimerData,
        to_ns: u64,
        fired: &mut Vec<TimeEvent>,
        times: &mut Vec<u64>,
    ) -> (r: Option<TimerData>)
        requires
            old(self).wf(),
            timer.handled_in(old(self).handlers@.len()),
            timer.schedule().due(to_ns),
            old(times)@ == event_times(event_views(old(fired)@)),
        ensures
            final(self).wf(),
            final(self).current_ns == old(self).current_ns,
            final(self).timers == old(self).timers,
            final(self).default_handler == old(self).default_handler,
            event_views(final(fired)@) == event_views(old(fired)@) + events_at(
                name@,
                timer.schedule().firings(to_ns),
            ),
            final(times)@ == event_times(event_views(final(fired)@)),
            all_heard(
                old(self).handlers@,
                final(self).handlers@,
                calls_with(
                    old(self).target(timer),
                    events_at(name@, timer.schedule().firings(to_ns)),
                ),
                old(self).turns.count(),
            ),
            final(self).turns.count() == old(self).turns.count() + calls_with(
                old(self).target(timer),
                events_at(name@, timer.schedule().firings(to_ns)),
            ).len(),
            match r {
                Some(t) => timer.schedule().left(to_ns) == Some(t.schedule()) && t.callback
                    == timer.callback,
                None => timer.schedule().left(to_ns) is None,
            },
    {
        let ghost all = timer.schedule().firings(to_ns);
        let ghost target = self.target(timer);
        let ghost start = self.turns.count();
        let mut done: Ghost<Seq<u64>> = Ghost(Seq::empty());
        let mut current: TimerData = timer;
        let mut left: Option<TimerData> = None;
        let mut going = true;
        proof {
            assert(events_at(name@, done@) =~= Seq::<EventView>::empty());
            assert(event_views(fired@) =~= event_views(fired@) + events_at(name@, done@));
            assert(calls_with(target, events_at(name@, done@)) =~= Seq::<(int, EventView)>::empty());
            assert(done@ + current.schedule().firings(to_ns) =~= all);
            lemma_none_heard(self.handlers@, start);
        }
        while going
            invariant
                self.wf(),
                timer.handled_in(self.handlers@.len()),
                self.current_ns == old(self).current_ns,
                self.timers == old(self).timers,
                self.default_handler == old(self).default_handler,
                current.callback == timer.callback,
                target == self.target(timer),
                start == old(self).turns.count(),
                all == timer.schedule().firings(to_ns),
                event_views(fired@) == event_views(old(fired)@) + events_at(name@, done@),
                times@ == event_times(event_views(fired@)),
                all_heard(
                    old(self).handlers@,
                    self.handlers@,
                    calls_with(target, events_at(name@, done@)),
                    start,
                ),
                self.turns.count() == start + calls_with(target, events_at(name@, done@)).len(),
                going ==> current.schedule().due(to_ns) && done@ + current.schedule().firings(to_ns)
                    == all && current.schedule().left(to_ns) == timer.schedule().left(to_ns),
                current.deadline_ns <= to_ns,
                !going ==> done@ == all && match left {
                    Some(t) => timer.schedule().left(to_ns) == Some(t.schedule()) && t.callback
                        == timer.callback,
                    None => timer.schedule().left(to_ns) is None,
                },
            decreases (to_ns - current.deadline_ns) + (if going {
                1int
            } else {
                0int
            }),
        {
            let event = TimeEvent {
                id: 0,
                name: name.to_owned(),
                payload: Vec::new(),
                timestamp_ns: current.deadline_ns,
            };
            assert(event@ == named_event(name@, current.deadline_ns)) by {
                assert(event.payload@ =~= Seq::<u8>::empty());
            }
            let ghost done0 = done@;
            let ghost fired0 = event_views(fired@);
            let ghost handlers0 = self.handlers@;
            let ghost calls0 = calls_with(target, events_at(name@, done0));
            self.fire(&event, current);
            proof {
                assert(old(self).target(timer) == target);
                let one = calls_with(target, seq![event@]);
                lemma_heard_more(
                    old(self).handlers@,
                    handlers0,
                    self.handlers@,
                    calls0,
                    one,
                    start,
                );
                done@ = done0.push(current.deadline_ns);
                assert(events_at(name@, done@) =~= events_at(name@, done0).push(event@));
                assert(calls_with(target, events_at(name@, done@)) =~= calls0 + one);
            }
            fired.push(event);
            times.push(current.deadline_ns);
            assert(event_views(fired@) =~= fired0.push(event@));
            assert(event_views(fired@) =~= event_views(old(fired)@) + events_at(name@, done@));
            assert(times@ =~= event_times(event_views(fired@)));
            let next = current.rescheduled();
            let again = match next {
                Some(n) => current.deadline_ns < n.deadline_ns && n.deadline_ns <= to_ns,
                None => false,
            };
            assert(again == current.schedule().due_again(to_ns));
            match next {
                Some(n) => {
                    if again {
                        proof {
                            assert(n.schedule().due(to_ns));
                            assert(done0 + (seq![current.deadline_ns] + n.schedule().firings(to_ns))
                                =~= done@ + n.schedule().firings(to_ns));
                        }
                        current = n;
                    } else {
                        assert(done0 + seq![current.deadline_ns] =~= done@);
                        left = Some(n);
                        going = false;
                    }
                },
                None => {
                    assert(done0 + seq![current.deadline_ns] =~= done@);
                    left = None;
                    going = false;
                },
            }
        }
        left
    }

    fn put(&mut self, name: &str, data: TimerData)
        requires
            old(self).wf(),
            data.handled_in(old(self).handlers@.len()),
        ensures
            final(self).wf(),
            final(self).now() == old(self).now(),
            name_map::map_of(final(self).timers()) == name_map::map_of(old(self).timers()).insert(
                name@,
                data.schedule(),
            ),
            final(self).handlers@ == old(self).handlers@,
            final(self).turns == old(self).turns,
            final(self).default_handler == old(self).default_handler,
            final(self).timers@ == old(self).timers@.insert(name@, data),
            final(self).all_targets() == (match data.callback {
                Some(c) => old(self).all_targets().with(name@, c as int),
                None => old(self).all_targets().without(name@),
            }),
    {
        self.timers.insert(name, data);
        proof {
            lemma_schedules_map(old(self).timers.listing());
            lemma_schedules_map(self.timers.listing());
            assert(name_map::map_of(self.timers()) =~= name_map::map_of(old(self).timers()).insert(
                name@,
                data.schedule(),
            ));
            assert(self.all_targets().own =~= (match data.callback {
                Some(c) => old(self).all_targets().with(name@, c as int),
                None => old(self).all_targets().without(name@),
            }).own);
        }
    }

    fn add_handler(&mut self, handler: H) -> (r: usize)
        requires
            old(self).wf(),
        ensures
            final(self).wf(),
            final(self).now() == old(self).now(),
            final(self).timers() == old(self).timers(),
            final(self).handlers@ == old(self).handlers@.push(handler),
            final(self).turns == old(self).turns,
            final(self).timers@ == old(self).timers@,
            final(self).all_targets() == old(self).all_targets(),
            final(self).default_handler == old(self).default_handler,
            r == old(self).handlers@.len(),
    {
        let n: usize = self.handlers.len();
        self.handlers.push(handler);
        n
    }
}

/// The timers' own handlers.
spec fn own_slots(m: Map<Seq<char>, TimerData>) -> Map<Seq<char>, int> {
    Map::new(
        |k: Seq<char>| m.dom().contains(k) && m[k].callback is Some,
        |k: Seq<char>| m[k].callback->0 as int,
    )
}

/// Handlers that were not called.
proof fn lemma_none_heard<H: Handler<TimeEvent>>(handlers: Seq<H>, start: nat)
    ensures
        all_heard(handlers, handlers, seq![], start),
{
    assert forall|i: int| 0 <= i < handlers.len() implies log_views(
        (#[trigger] handlers[i]).log().calls,
    ) == log_views(handlers[i].log().calls) + heard(seq![], i, start) by {
        assert(log_views(handlers[i].log().calls) + heard(seq![], i, start) =~= log_views(
            handlers[i].log().calls,
        ));
    }
}

/// Calls behind other calls.
proof fn lemma_heard_more<H: Handler<TimeEvent>>(
    before: Seq<H>,
    between: Seq<H>,
    after: Seq<H>,
    first: Seq<(int, EventView)>,
    second: Seq<(int, EventView)>,
    start: nat,
)
    requires
        all_heard(before, between, first, start),
        all_heard(between, after, second, start + first.len()),
    ensures
        all_heard(before, after, first + second, start),
{
    assert forall|i: int| 0 <= i < before.len() implies log_views(
        (#[trigger] after[i]).log().calls,
    ) == log_views(before[i].log().calls) + heard(first + second, i, start) by {
        lemma_heard_parts(first, second, i, start);
        assert(log_views(between[i].log().calls) == log_views(before[i].log().calls) + heard(
            first,
            i,
            start,
        ));
        assert(log_views(before[i].log().calls) + heard(first, i, start) + heard(
            second,
            i,
            start + first.len(),
        ) =~= log_views(before[i].log().calls) + (heard(first, i, start) + heard(
            second,
            i,
            start + first.len(),
        )));
    }
}

proof fn lemma_heard_parts(
    first: Seq<(int, EventView)>,
    second: Seq<(int, EventView)>,
    slot: int,
    start: nat,
)
    ensures
        heard(first + second, slot, start) == heard(first, slot, start) + heard(
            second,
            slot,
            start + first.len(),
        ),
    decreases second.len(),
{
    if second.len() == 0 {
        assert(first + second =~= first);
        assert(heard(first, slot, start) + heard(second, slot, start + first.len()) =~= heard(
            first,
            slot,
            start,
        ));
    } else {
        lemma_heard_parts(first, second.drop_last(), slot, start);
        assert((first + second).drop_last() =~= first + second.drop_last());
        assert((first + second).last() == second.last());
        assert(heard(first + second, slot, start) =~= heard(first, slot, start) + heard(
            second,
            slot,
            start + first.len(),
        ));
    }
}

impl<H: Handler<TimeEvent>> Clock for TestClock<H> {
    type Handler = H;

    open spec fn ok(&self) -> bool {
        self.wf()
    }

    open spec fn times(&self) -> Set<u64> {
        set![self.now()]
    }

    open spec fn keeps_timers(&self) -> bool {
        true
    }

    open spec fn listing(&self) -> Seq<(Seq<char>, Schedule)> {
        self.timers()
    }

    open spec fn reach(&self) -> Set<u64> {
        Set::new(|to_ns: u64| to_ns >= self.now())
    }

    open spec fn handlers(&self) -> Seq<H> {
        self.all_handlers()
    }

    open spec fn targets(&self) -> Targets {
        self.all_targets()
    }

    open spec fn calls(&self) -> nat {
        self.all_calls()
    }

    proof fn listing_ascends(&self) {
        lemma_schedules_map(self.timers.listing());
    }

    fn timestamp_ns(&self) -> (r: u64) {
        self.current_ns
    }

    fn timestamp_ms(&self) -> (r: u64) {
        assert(self.times().contains(self.current_ns));
        self.current_ns / 1_000_000
    }

    fn timer_names(&self) -> (r: Vec<String>) {
        let names = self.timers.names();
        assert(text::texts(names@) =~= listed_names(self.listing()));
        names
    }

    fn timer_count(&self) -> (r: usize) {
        self.timers.len()
    }

    fn set_timer(&mut self, name: &str, deadline_ns: u64, handler: H) {
        let c: usize = self.add_handler(handler);
        self.put(
            name,
            TimerData { deadline_ns, interval_ns: 0, stop_ns: None, callback: Some(c) },
        );
    }

    fn set_timer_anonymous(&mut self, name: &str, deadline_ns: u64) {
        self.put(name, TimerData { deadline_ns, interval_ns: 0, stop_ns: None, callback: None });
    }

    fn set_timer_repeating(
        &mut self,
        name: &str,
        interval_ns: u64,
        start_ns: u64,
        stop_ns: Option<u64>,
        handler: H,
        fire_immediately: bool,
    ) {
        let deadline_ns: u64 = if fire_immediately {
            start_ns
        } else {
            start_ns.saturating_add(interval_ns)
        };
        let c: usize = self.add_handler(handler);
        self.put(name, TimerData { deadline_ns, interval_ns, stop_ns, callback: Some(c) });
    }

    fn cancel_timer(&mut self, name: &str) {
        self.timers.remove(name);
        proof {
            lemma_schedules_map(old(self).timers.listing());
            lemma_schedules_map(self.timers.listing());
            assert(name_map::map_of(self.listing()) =~= name_map::map_of(
                old(self).listing(),
            ).remove(name@));
            assert(self.targets().own =~= old(self).targets().without(name@).own);
        }
    }

    fn cancel_timers(&mut self) {
        self.timers.clear();
        proof {
            lemma_schedules_map(self.timers.listing());
            assert(name_map::map_of(self.listing()) =~= Map::<Seq<char>, Schedule>::empty());
            assert(self.targets().own =~= Map::<Seq<char>, int>::empty());
        }
    }

    fn next_time_ns(&self, name: &str) -> (r: u64) {
        proof {
            lemma_schedules_map(self.timers.listing());
        }
        match self.timers.get(name) {
            Some(t) => t.deadline_ns,
            None => 0,
        }
    }

    fn register_default_handler(&mut self, handler: H) {
        let d: usize = self.add_handler(handler);
        self.default_handler = Some(d);
    }

    fn advance_time(&mut self, to_ns: u64) -> (r: Vec<TimeEvent>) {
        let ghost listing = self.timers();
        let ghost before = self.timers.listing();
        let ghost targets = self.all_targets();
        let ghost start = self.turns.count();
        self.current_ns = to_ns;
        let mut fired: Vec<TimeEvent> = Vec::new();
        let mut times: Vec<u64> = Vec::new();
        let mut kept: NameMap<TimerData> = NameMap::new();
        let mut i: usize = 0;
        proof {
            lemma_schedules_map(before);
            name_map::map_of_lists(before);
            lemma_names_differ(before);
            lemma_none_heard(self.handlers@, start);
            assert(event_views(fired@) =~= Seq::<EventView>::empty());
            assert(times@ =~= event_times(event_views(fired@)));
        }
        while i < self.timers.len()
            invariant
                self.wf(),
                self.current_ns == to_ns,
                listing == self.timers(),
                before == self.timers.listing(),
                targets == old(self).all_targets(),
                start == old(self).turns.count(),
                i <= before.len(),
                kept.wf(),
                forall|j: int|
                    0 <= j < before.len() ==> self.timers@.dom().contains((#[trigger] before[j]).0)
                        && self.timers@[before[j].0] == before[j].1,
                forall|a: int, b: int|
                    0 <= a < before.len() && 0 <= b < before.len() && (#[trigger] before[a]).0 == (
                    #[trigger] before[b]).0 ==> a == b,
                event_views(fired@) == due_events(listing, to_ns, i as int),
                times@ == event_times(event_views(fired@)),
                all_heard(
                    old(self).handlers@,
                    self.handlers@,
                    due_calls(listing, targets, to_ns, i as int),
                    start,
                ),
                self.turns.count() == start + due_calls(listing, targets, to_ns, i as int).len(),
                self.default_handler == old(self).default_handler,
                self.timers == old(self).timers,
                forall|k: Seq<char>| #[trigger]
                    kept@.dom().contains(k) <==> exists|j: int|
                        0 <= j < i && (#[trigger] before[j]).0 == k
                            && before[j].1.schedule().left(to_ns) is Some,
                forall|k: Seq<char>| #[trigger]
                    kept@.dom().contains(k) ==> {
                        &&& self.timers@.dom().contains(k)
                        &&& kept@[k].callback == self.timers@[k].callback
                        &&& Some(kept@[k].schedule()) == self.timers@[k].schedule().left(to_ns)
                    },
            decreases before.len() - i,
        {
            let timer: TimerData = *self.timers.value_at(i);
            let name: String = self.timers.name_at(i).to_owned();
            assert(before[i as int].0 == name@ && before[i as int].1 == timer);
            assert(listing[i as int] == (name@, timer.schedule()));
            assert(self.timers@[name@] == timer);
            let ghost kept0 = kept@;
            let ghost events0 = due_events(listing, to_ns, i as int);
            let ghost calls0 = due_calls(listing, targets, to_ns, i as int);
            let ghost handlers0 = self.handlers@;
            let ghost target = self.target(timer);
            let ghost more = calls_with(
                target,
                events_at(name@, timer.schedule().firings(to_ns)),
            );
            assert(targets.of(name@) == target);
            let in_time = match timer.stop_ns {
                Some(stop) => timer.deadline_ns <= stop,
                None => true,
            };
            let left: Option<TimerData> = if timer.deadline_ns > to_ns {
                Some(timer)
            } else if !in_time {
                None
            } else {
                self.fire_until(name.as_str(), timer, to_ns, &mut fired, &mut times)
            };
            proof {
                if !timer.schedule().due(to_ns) {
                    assert(events_at(name@, timer.schedule().firings(to_ns)) =~= Seq::<
                        EventView,
                    >::empty());
                    assert(events0 + Seq::<EventView>::empty() =~= events0);
                    assert(more =~= Seq::<(int, EventView)>::empty());
                    lemma_none_heard(self.handlers@, start + calls0.len());
                }
                lemma_heard_more(
                    old(self).handlers@,
                    handlers0,
                    self.handlers@,
                    calls0,
                    more,
                    start,
                );
            }
            match left {
                Some(t) => {
                    kept.insert(name.as_str(), t);
                },
                None => {},
            }
            proof {
                assert forall|k: Seq<char>| #[trigger]
                    kept@.dom().contains(k) <==> exists|j: int|
                        0 <= j < i + 1 && (#[trigger] before[j]).0 == k
                            && before[j].1.schedule().left(to_ns) is Some by {
                    if kept@.dom().contains(k) {
                        if kept0.dom().contains(k) {
                            let j = choose|j: int|
                                0 <= j < i && (#[trigger] before[j]).0 == k
                                    && before[j].1.schedule().left(to_ns) is Some;
                            assert(before[j].0 == k);
                        } else {
                            assert(before[i as int].0 == k);
                        }
                    }
                    if exists|j: int|
                        0 <= j < i + 1 && (#[trigger] before[j]).0 == k
                            && before[j].1.schedule().left(to_ns) is Some {
                        let j = choose|j: int|
                            0 <= j < i + 1 && (#[trigger] before[j]).0 == k
                                && before[j].1.schedule().left(to_ns) is Some;
                        if j < i {
                            assert(kept0.dom().contains(k));
                        }
                    }
                }
            }
            i = i + 1;
        }
        let sorted = in_order(&fired, &times);
        let ghost old_timers = self.timers@;
        self.timers = kept;
        proof {
            lemma_schedules_map(self.timers.listing());
            let a = name_map::map_of(self.listing());
            let b = advanced(name_map::map_of(old(self).listing()), to_ns);
            lemma_schedules_map(before);
            assert forall|k: Seq<char>| a.dom().contains(k) <==> b.dom().contains(k) by {
                if b.dom().contains(k) {
                    let m = choose|m: int| 0 <= m < before.len() && (#[trigger] before[m]).0 == k;
                    assert(old_timers[before[m].0] == before[m].1);
                    assert(self.timers@.dom().contains(k));
                }
                if a.dom().contains(k) {
                    assert(self.timers@.dom().contains(k));
                    let m = choose|m: int|
                        0 <= m < before.len() && (#[trigger] before[m]).0 == k
                            && before[m].1.schedule().left(to_ns) is Some;
                    assert(old_timers[before[m].0] == before[m].1);
                }
            }
            assert forall|k: Seq<char>| #[trigger] a.dom().contains(k) implies a[k] == b[k] by {
                assert(self.timers@.dom().contains(k));
                assert(old_timers.dom().contains(k));
                assert(a[k] == self.timers@[k].schedule());
                assert(name_map::map_of(before)[k] == old_timers[k]);
                assert(name_map::map_of(schedules(before))[k] == old_timers[k].schedule());
            }
            assert(a.dom() =~= b.dom());
            assert(a =~= b);
            assert(self.targets().own =~= targets.own.restrict(a.dom()));
        }
        sorted
    }
}

/// Events in stable order of their times.
fn in_order(fired: &Vec<TimeEvent>, times: &Vec<u64>) -> (r: Vec<TimeEvent>)
    requires
        times@ == event_times(event_views(fired@)),
    ensures
        in_time_order(event_views(fired@), event_views(r@)),
{
    let p = stable_order(times);
    let mut sorted: Vec<TimeEvent> = Vec::new();
    let mut j: usize = 0;
    let ghost all = event_views(fired@);
    assert(event_views(sorted@) =~= order::pick(all, p@).take(0));
    while j < p.len()
        invariant
            j <= p@.len(),
            all == event_views(fired@),
            times@ == event_times(all),
            order::is_stable_order(times@, p@),
            event_views(sorted@) == order::pick(all, p@).take(j as int),
        decreases p@.len() - j,
    {
        assert(p@[j as int] < times@.len());
        let ghost sorted0 = event_views(sorted@);
        let e = fired[p[j]].clone();
        sorted.push(e);
        assert(event_views(sorted@) =~= sorted0.push(all[p@[j as int] as int]));
        j = j + 1;
        assert(event_views(sorted@) =~= order::pick(all, p@).take(j as int));
    }
    assert(order::pick(all, p@).take(p@.len() as int) =~= order::pick(all, p@));
    assert(order::is_stable_order(event_times(all), p@));
    sorted
}

// ---------------------------------------------------------------------------
// SystemClock
// ---------------------------------------------------------------------------

/// `std::time::SystemTime::now`, as nanoseconds since the UNIX epoch in 64 bits; nothing for a
/// time before the epoch. Nothing is promised of the time.
#[verifier::external_body]
fn wall_clock_ns() -> (r: Option<u64>) {
    match std::time::SystemTime::now().duration_since(std::time::UNIX_EPOCH) {
        Ok(d) => Some(d.as_nanos() as u64),
        Err(_) => None,
    }
}

/// Clock for live trading: it shows the wall-clock time, and leaves timers to the event loop.
#[derive(Debug)]
pub struct SystemClock<H> {
    start_ns: u64,
    default_handler: Option<H>,
}

impl<H> SystemClock<H> {
    /// The time at which the clock was made.
    pub closed spec fn start(&self) -> u64 {
        self.start_ns
    }

    /// The handler of timers without one of their own.
    pub closed spec fn default(&self) -> Option<H> {
        self.default_handler
    }

    /// A clock that was made at a time.
    pub fn started_at(start_ns: u64) -> (r: Self)
        ensures
            r.start() == start_ns,
            r.default() is None,
    {
        SystemClock { start_ns, default_handler: None }
    }

    /// A clock that is made now.
    pub fn new() -> (r: Self)
        ensures
            r.default() is None,
    {
        Self::started_at(Self::shown(wall_clock_ns()))
    }

    /// The time that a reading of the wall clock shows: 0 for one before the epoch.
    pub fn shown(reading: Option<u64>) -> (r: u64)
        ensures
            r == (match reading {
                Some(ns) => ns,
                None => 0,
            }),
    {
        match reading {
            Some(ns) => ns,
            None => 0,
        }
    }

    /// The clock with a handler for timers without one of their own.
    pub fn with_default_handler(self, handler: H) -> (r: Self)
        ensures
            r.start() == self.start(),
            r.default() == Some(handler),
    {
        SystemClock { start_ns: self.start_ns, default_handler: Some(handler) }
    }
}

impl<H: Handler<TimeEvent>> Clock for SystemClock<H> {
    type Handler = H;

    open spec fn ok(&self) -> bool {
        true
    }

    open spec fn times(&self) -> Set<u64> {
        Set::new(|ns: u64| true)
    }

    open spec fn keeps_timers(&self) -> bool {
        false
    }

    open spec fn listing(&self) -> Seq<(Seq<char>, Schedule)> {
        seq![]
    }

    open spec fn reach(&self) -> Set<u64> {
        Set::new(|ns: u64| true)
    }

    open spec fn handlers(&self) -> Seq<H> {
        seq![]
    }

    open spec fn targets(&self) -> Targets {
        Targets { own: Map::empty(), default: None }
    }

    open spec fn calls(&self) -> nat {
        0
    }

    proof fn listing_ascends(&self) {
    }

    fn timestamp_ns(&self) -> (r: u64) {
        Self::shown(wall_clock_ns())
    }

    fn timestamp_ms(&self) -> (r: u64) {
        let ns: u64 = Self::shown(wall_clock_ns());
        assert(self.times().contains(ns));
        ns / 1_000_000
    }

    fn timer_names(&self) -> (r: Vec<String>) {
        let names: Vec<String> = Vec::new();
        assert(text::texts(names@) =~= listed_names(self.listing()));
        names
    }

    fn timer_count(&self) -> (r: usize) {
        0
    }

    fn set_timer(&mut self, name: &str, deadline_ns: u64, handler: H) {
    }

    fn set_timer_anonymous(&mut self, name: &str, deadline_ns: u64) {
    }

    fn set_timer_repeating(
        &mut self,
        name: &str,
        interval_ns: u64,
        start_ns: u64,
        stop_ns: Option<u64>,
        handler: H,
        fire_immediately: bool,
    ) {
    }

    fn cancel_timer(&mut self, name: &str) {
        assert(name_map::map_of(self.listing()) =~= name_map::map_of(self.listing()).remove(name@));
        assert(self.targets().own =~= self.targets().own.remove(name@));
    }

    fn cancel_timers(&mut self) {
        assert(name_map::map_of(self.listing()) =~= Map::<Seq<char>, Schedule>::empty());
    }

    fn next_time_ns(&self, name: &str) -> (r: u64) {
        0
    }

    fn register_default_handler(&mut self, handler: H)
        ensures
            final(self).start() == old(self).start(),
            final(self).default() == Some(handler),
    {
        self.default_handler = Some(handler);
    }

    fn advance_time(&mut self, to_ns: u64) -> (r: Vec<TimeEvent>) {
        let events: Vec<TimeEvent> = Vec::new();
        proof {
            let none = Map::<Seq<char>, Schedule>::empty();
            assert(name_map::map_of(self.listing()) =~= none);
            assert(advanced(none, to_ns) =~= none);
            let all = due_events(self.listing(), to_ns, 0);
            assert(order::is_stable_order(event_times(all), Seq::<usize>::empty()));
            assert(event_views(events@) =~= order::pick(all, Seq::<usize>::empty()));
            assert(self.targets().own =~= self.targets().own.restrict(
                name_map::map_of(self.listing()).dom(),
            ));
        }
        events
    }
}

// ---------------------------------------------------------------------------
// Laws
// ---------------------------------------------------------------------------

/// Advancing leaves a timer whose deadline is not reached as it is. A timer that is due, but not a
/// second time, fires once at its deadline; then one that fires once is gone, and a repeating one
/// has moved on by its interval, or is gone where that is behind its stop time.
pub proof fn advancing_fires_a_due_timer_once(timers: Timers, to_ns: u64, k: Seq<char>)
    requires
        timers.dom().contains(k),
    ensures
        timers[k].deadline_ns > to_ns ==> timers[k].firings(to_ns).len() == 0 && advanced(
            timers,
            to_ns,
        ).dom().contains(k) && advanced(timers, to_ns)[k] == timers[k],
        timers[k].due(to_ns) && timers[k].interval_ns == 0 ==> timers[k].firings(to_ns) == seq![
            timers[k].deadline_ns,
        ] && !advanced(timers, to_ns).dom().contains(k),
        timers[k].due(to_ns) && timers[k].interval_ns > 0 && to_ns < timers[k].deadline_ns
            + timers[k].interval_ns <= u64::MAX ==> {
            &&& timers[k].firings(to_ns) == seq![timers[k].deadline_ns]
            &&& if timers[k].stop_ns matches Some(stop) && timers[k].deadline_ns
                + timers[k].interval_ns > stop {
                !advanced(timers, to_ns).dom().contains(k)
            } else {
                &&& advanced(timers, to_ns).dom().contains(k)
                &&& advanced(timers, to_ns)[k] == Schedule {
                    deadline_ns: (timers[k].deadline_ns + timers[k].interval_ns) as u64,
                    ..timers[k]
                }
            }
        },
{
}

/// A timer whose deadline is behind its stop time never fires.
pub proof fn no_firing_behind_the_stop(s: Schedule, to_ns: u64)
    ensures
        s.stop_ns matches Some(stop) ==> forall|i: int|
            0 <= i < s.firings(to_ns).len() ==> #[trigger] s.firings(to_ns)[i] <= stop,
    decreases to_ns - s.deadline_ns,
{
    if s.due(to_ns) && s.due_again(to_ns) {
        no_firing_behind_the_stop(s.next()->0, to_ns);
        let rest = s.next()->0.firings(to_ns);
        if let Some(stop) = s.stop_ns {
            assert forall|i: int| 0 <= i < s.firings(to_ns).len() implies #[trigger] s.firings(
                to_ns,
            )[i] <= stop by {
                if i > 0 {
                    assert(s.firings(to_ns)[i] == rest[i - 1]);
                }
            }
        }
    }
}

/// A timer fires first at its deadline and then every interval, until the time that is advanced to.
pub proof fn firings_are_an_interval_apart(s: Schedule, to_ns: u64)
    ensures
        s.firings(to_ns).len() > 0 ==> s.firings(to_ns)[0] == s.deadline_ns,
        forall|i: int|
            0 <= i < s.firings(to_ns).len() ==> s.deadline_ns <= #[trigger] s.firings(to_ns)[i]
                <= to_ns,
        forall|i: int|
            0 < i < s.firings(to_ns).len() ==> #[trigger] s.firings(to_ns)[i] == saturated_sum(
                s.firings(to_ns)[i - 1],
                s.interval_ns,
            ),
        forall|i: int, j: int|
            0 <= i < j < s.firings(to_ns).len() ==> #[trigger] s.firings(to_ns)[i]
                < #[trigger] s.firings(to_ns)[j],
    decreases to_ns - s.deadline_ns,
{
    if s.due(to_ns) && s.due_again(to_ns) {
        let n = s.next()->0;
        firings_are_an_interval_apart(n, to_ns);
        let rest = n.firings(to_ns);
        let all = s.firings(to_ns);
        assert(rest.len() > 0) by {
            assert(n.due(to_ns));
        }
        assert forall|i: int| 0 <= i < all.len() implies s.deadline_ns <= #[trigger] all[i]
            <= to_ns by {
            if i > 0 {
                assert(all[i] == rest[i - 1]);
            }
        }
        assert forall|i: int| 0 < i < all.len() implies #[trigger] all[i] == saturated_sum(
            all[i - 1],
            s.interval_ns,
        ) by {
            assert(all[i] == rest[i - 1]);
            if i > 1 {
                assert(all[i - 1] == rest[i - 2]);
            }
        }
        assert forall|i: int, j: int| 0 <= i < j < all.len() implies #[trigger] all[i]
            < #[trigger] all[j] by {
            assert(all[j] == rest[j - 1]);
            if i > 0 {
                assert(all[i] == rest[i - 1]);
            }
        }
    }
}

/// No timer comes up that was not set.
pub proof fn advancing_adds_no_timer(timers: Timers, to_ns: u64)
    ensures
        advanced(timers, to_ns).dom().subset_of(timers.dom()),
{
}

/// The events of an advance come in ascending order of their times, and in ascending order of their
/// names at equal times, none of them after the time that was advanced to.
pub proof fn events_come_by_time_and_name(
    listing: Seq<(Seq<char>, Schedule)>,
    to_ns: u64,
    n: int,
    result: Seq<EventView>,
)
    requires
        name_map::ascending(listing),
        0 <= n <= listing.len(),
        in_time_order(due_events(listing, to_ns, n), result),
    ensures
        forall|i: int, j: int|
            0 <= i < j < result.len() ==> {
                ||| (#[trigger] result[i]).timestamp_ns < (#[trigger] result[j]).timestamp_ns
                ||| result[i].timestamp_ns == result[j].timestamp_ns && text::comes_before(
                    result[i].name,
                    result[j].name,
                )
            },
        forall|i: int| 0 <= i < result.len() ==> (#[trigger] result[i]).timestamp_ns <= to_ns,
{
    let all = due_events(listing, to_ns, n);
    let p = choose|p: Seq<usize>| #[trigger]
        order::is_stable_order(event_times(all), p) && result == order::pick(all, p);
    order::picked_keys_ascend(event_times(all), p);
    lemma_due_in_order(listing, to_ns, n);
    let times = event_times(all);
    let keys = order::pick(times, p);
    assert forall|i: int, j: int| 0 <= i < j < result.len() implies {
        ||| (#[trigger] result[i]).timestamp_ns < (#[trigger] result[j]).timestamp_ns
        ||| result[i].timestamp_ns == result[j].timestamp_ns && text::comes_before(
            result[i].name,
            result[j].name,
        )
    } by {
        assert(keys[i] == result[i].timestamp_ns);
        assert(keys[j] == result[j].timestamp_ns);
        assert(keys[i] <= keys[j]);
        if keys[i] == keys[j] {
            assert(p[i] < p[j]);
            assert(all[p[i] as int] == result[i]);
            assert(all[p[j] as int] == result[j]);
        }
    }
}

/// Of two events of the due timers, the first has the smaller name, or the same name and an earlier
/// time.
proof fn lemma_due_in_order(listing: Seq<(Seq<char>, Schedule)>, to_ns: u64, n: int)
    requires
        name_map::ascending(listing),
        0 <= n <= listing.len(),
    ensures
        forall|i: int|
            0 <= i < due_events(listing, to_ns, n).len() ==> (#[trigger] due_events(
                listing,
                to_ns,
                n,
            )[i]).timestamp_ns <= to_ns && exists|m: int|
                0 <= m < n && (#[trigger] listing[m]).0 == due_events(listing, to_ns, n)[i].name,
        forall|i: int, j: int|
            0 <= i < j < due_events(listing, to_ns, n).len() ==> {
                let a = #[trigger] due_events(listing, to_ns, n)[i];
                let b = #[trigger] due_events(listing, to_ns, n)[j];
                text::comes_before(a.name, b.name) || a.name == b.name && a.timestamp_ns
                    < b.timestamp_ns
            },
    decreases n,
{
    if n > 0 {
        lemma_due_in_order(listing, to_ns, n - 1);
        let front = due_events(listing, to_ns, n - 1);
        let all = due_events(listing, to_ns, n);
        let times = listing[n - 1].1.firings(to_ns);
        firings_are_an_interval_apart(listing[n - 1].1, to_ns);
        assert forall|i: int| 0 <= i < all.len() implies (#[trigger] all[i]).timestamp_ns <= to_ns
            && exists|m: int| 0 <= m < n && (#[trigger] listing[m]).0 == all[i].name by {
            if i < front.len() {
                assert(all[i] == front[i]);
                let m = choose|m: int| 0 <= m < n - 1 && (#[trigger] listing[m]).0 == front[i].name;
                assert(listing[m].0 == all[i].name);
            } else {
                assert(all[i] == named_event(listing[n - 1].0, times[i - front.len()]));
                assert(listing[n - 1].0 == all[i].name);
            }
        }
        assert forall|i: int, j: int| 0 <= i < j < all.len() implies {
            let a = #[trigger] all[i];
            let b = #[trigger] all[j];
            text::comes_before(a.name, b.name) || a.name == b.name && a.timestamp_ns
                < b.timestamp_ns
        } by {
            if j < front.len() {
                assert(all[i] == front[i] && all[j] == front[j]);
            } else {
                assert(all[j] == named_event(listing[n - 1].0, times[j - front.len()]));
                if i < front.len() {
                    assert(all[i] == front[i]);
                    let m = choose|m: int|
                        0 <= m < n - 1 && (#[trigger] listing[m]).0 == front[i].name;
                    assert(text::comes_before(listing[m].0, listing[n - 1].0));
                } else {
                    assert(all[i] == named_event(listing[n - 1].0, times[i - front.len()]));
                    assert(times[i - front.len()] < times[j - front.len()]);
                }
            }
        }
    }
}

/// The names of a listing differ.
proof fn lemma_names_differ(s: Seq<(Seq<char>, TimerData)>)
    requires
        name_map::ascending(s),
    ensures
        forall|i: int, j: int|
            0 <= i < s.len() && 0 <= j < s.len() && (#[trigger] s[i]).0 == (#[trigger] s[j]).0
                ==> i == j,
{
    broadcast use text::before_irreflexive;

    assert forall|i: int, j: int|
        0 <= i < s.len() && 0 <= j < s.len() && (#[trigger] s[i]).0 == (
        #[trigger] s[j]).0 implies i == j by {
        if i < j {
            assert(text::comes_before(s[i].0, s[j].0));
        } else if j < i {
            assert(text::comes_before(s[j].0, s[i].0));
        }
    }
}

/// A timer fires when its deadline has come and is not behind its stop time, and not otherwise; the
/// first time that it fires is its deadline.
pub proof fn timer_fires_when_its_time_has_come(s: Schedule, to_ns: u64)
    ensures
        s.firings(to_ns).len() > 0 <==> s.deadline_ns <= to_ns && (s.stop_ns is None
            || s.deadline_ns <= s.stop_ns->0),
        s.firings(to_ns).len() > 0 ==> s.firings(to_ns)[0] == s.deadline_ns,
        s.interval_ns == 0 ==> s.firings(to_ns).len() <= 1,
{
    firings_are_an_interval_apart(s, to_ns);
}

/// A repeating timer fires at its deadline and every interval behind it, up to the time that is
/// advanced to and to its stop time: no such time is left out.
pub proof fn every_interval_is_fired(s: Schedule, to_ns: u64, k: int)
    requires
        s.interval_ns > 0,
        0 <= k,
        s.deadline_ns + k * s.interval_ns <= to_ns,
        s.stop_ns matches Some(stop) ==> s.deadline_ns + k * s.interval_ns <= stop,
    ensures
        k < s.firings(to_ns).len(),
        s.firings(to_ns)[k] == s.deadline_ns + k * s.interval_ns,
    decreases k,
{
    let i = s.interval_ns as int;
    assert(k * i >= 0) by (nonlinear_arith)
        requires
            k >= 0,
            i > 0,
    ;
    if k > 0 {
        assert(k * i == i + (k - 1) * i) by (nonlinear_arith);
        assert((k - 1) * i >= 0) by (nonlinear_arith)
            requires
                k > 0,
                i > 0,
        ;
        let n = s.next()->0;
        assert(s.next() is Some && n.deadline_ns == s.deadline_ns + i);
        every_interval_is_fired(n, to_ns, k - 1);
    } else {
        assert(0 * i == 0);
    }
}

/// A timer fires at no other times than these.
pub proof fn only_intervals_are_fired(s: Schedule, to_ns: u64, k: int)
    requires
        to_ns < u64::MAX,
        0 <= k < s.firings(to_ns).len(),
    ensures
        s.firings(to_ns)[k] == s.deadline_ns + k * s.interval_ns,
    decreases k,
{
    let i = s.interval_ns as int;
    if k > 0 {
        let n = s.next()->0;
        only_intervals_are_fired(n, to_ns, k - 1);
        assert(k * i == i + (k - 1) * i) by (nonlinear_arith);
    } else {
        assert(0 * i == 0);
    }
}

/// A clock that is advanced in two steps fires what it fires in one, and leaves the same timers.
pub proof fn two_steps_are_as_one(s: Schedule, first: u64, second: u64)
    requires
        first <= second < u64::MAX,
    ensures
        s.firings(second) == s.firings(first) + match s.left(first) {
            Some(n) => n.firings(second),
            None => seq![],
        },
        s.left(second) == match s.left(first) {
            Some(n) => n.left(second),
            None => None,
        },
    decreases first - s.deadline_ns,
{
    if s.deadline_ns > first {
        assert(s.firings(second) =~= seq![] + s.firings(second));
    } else if !s.in_time() {
        assert(s.firings(second) =~= s.firings(first) + seq![]);
    } else if s.due_again(first) {
        let n = s.next()->0;
        two_steps_are_as_one(n, first, second);
        let rest = match n.left(first) {
            Some(m) => m.firings(second),
            None => seq![],
        };
        assert(s.due_again(second));
        assert(seq![s.deadline_ns] + (n.firings(first) + rest) =~= seq![s.deadline_ns] + n.firings(
            first,
        ) + rest);
    } else {
        match s.next() {
            Some(n) => {
                assert(n.deadline_ns > first);
                if n.deadline_ns <= second {
                    assert(s.due_again(second));
                } else {
                    assert(s.firings(second) =~= seq![s.deadline_ns] + n.firings(second));
                }
            },
            None => {
                assert(s.firings(second) =~= seq![s.deadline_ns] + seq![]);
            },
        }
    }
}

/// A timer that is set to fire once has the deadline that was asked for and no interval; one that
/// repeats fires at its start or one interval behind it, and keeps its interval and its stop time.
pub proof fn timers_are_set_as_asked(
    start_ns: u64,
    interval_ns: u64,
    stop_ns: Option<u64>,
    own: bool,
)
    requires
        start_ns + interval_ns <= u64::MAX,
    ensures
        Schedule::once(start_ns, own).deadline_ns == start_ns,
        Schedule::once(start_ns, own).interval_ns == 0,
        Schedule::once(start_ns, own).stop_ns is None,
        Schedule::repeating(interval_ns, start_ns, stop_ns, true).deadline_ns == start_ns,
        Schedule::repeating(interval_ns, start_ns, stop_ns, false).deadline_ns == start_ns
            + interval_ns,
        Schedule::repeating(interval_ns, start_ns, stop_ns, own).interval_ns == interval_ns,
        Schedule::repeating(interval_ns, start_ns, stop_ns, own).stop_ns == stop_ns,
{
}

/// Every firing of every timer gives an event with the timer's name and the time.
pub proof fn every_firing_gives_an_event(
    listing: Seq<(Seq<char>, Schedule)>,
    to_ns: u64,
    n: int,
    i: int,
    k: int,
)
    requires
        0 <= i < n <= listing.len(),
        0 <= k < listing[i].1.firings(to_ns).len(),
    ensures
        exists|j: int|
            {
                &&& 0 <= j < due_events(listing, to_ns, n).len()
                &&& (#[trigger] due_events(listing, to_ns, n)[j]).name == listing[i].0
                &&& due_events(listing, to_ns, n)[j].timestamp_ns == listing[i].1.firings(to_ns)[k]
            },
    decreases n,
{
    let front = due_events(listing, to_ns, n - 1);
    let all = due_events(listing, to_ns, n);
    if i == n - 1 {
        let j = front.len() + k;
        assert(all[j].name == listing[i].0);
        assert(all[j].timestamp_ns == listing[i].1.firings(to_ns)[k]);
    } else {
        every_firing_gives_an_event(listing, to_ns, n - 1, i, k);
        let j = choose|j: int|
            {
                &&& 0 <= j < front.len()
                &&& (#[trigger] front[j]).name == listing[i].0
                &&& front[j].timestamp_ns == listing[i].1.firings(to_ns)[k]
            };
        assert(all[j] == front[j]);
    }
}

/// A timer's own handler is called before the default one is; setting or dropping it changes nothing
/// for other timers.
pub proof fn own_handler_goes_first(t: Targets, name: Seq<char>, other: Seq<char>, slot: int)
    ensures
        t.with(name, slot).of(name) == Some(slot),
        t.without(name).of(name) == t.default,
        other != name ==> t.with(name, slot).of(other) == t.of(other) && t.without(name).of(other)
            == t.of(other),
        t.with(name, slot).default == t.default && t.without(name).default == t.default,
{
}

/// A handler hears the calls that are for it, each with its turn, in their order, and no others.
pub proof fn handler_hears_its_own_calls(
    calls: Seq<(int, EventView)>,
    slot: int,
    other: int,
    e: EventView,
    start: nat,
)
    requires
        other != slot,
    ensures
        heard(calls.push((slot, e)), slot, start) == heard(calls, slot, start).push(
            (start + calls.len(), e),
        ),
        heard(calls.push((other, e)), slot, start) == heard(calls, slot, start),
        heard(seq![], slot, start).len() == 0,
{
    assert(calls.push((slot, e)).drop_last() =~= calls);
    assert(calls.push((other, e)).drop_last() =~= calls);
}

/// Each event of a timer is a call of its handler, in turn; a timer without a handler makes none.
pub proof fn events_become_calls(slot: int, events: Seq<EventView>, k: int)
    requires
        0 <= k < events.len(),
    ensures
        calls_with(Some(slot), events).len() == events.len(),
        calls_with(Some(slot), events)[k] == (slot, events[k]),
        calls_with(None, events).len() == 0,
{
}

/// The calls for timers come in the order of their listing.
pub proof fn calls_come_in_the_order_of_timers(
    listing: Seq<(Seq<char>, Schedule)>,
    targets: Targets,
    to_ns: u64,
    n: int,
    k: int,
)
    requires
        0 < n <= listing.len(),
        targets.of(listing[n - 1].0) is Some,
        0 <= k < listing[n - 1].1.firings(to_ns).len(),
    ensures
        ({
            let front = due_calls(listing, targets, to_ns, n - 1);
            let all = due_calls(listing, targets, to_ns, n);
            let call = all[front.len() + k];
            &&& all.take(front.len() as int) == front
            &&& call.0 == targets.of(listing[n - 1].0)->0
            &&& call.1.name == listing[n - 1].0
            &&& call.1.timestamp_ns == listing[n - 1].1.firings(to_ns)[k]
        }),
{
    let front = due_calls(listing, targets, to_ns, n - 1);
    let all = due_calls(listing, targets, to_ns, n);
    assert(all.take(front.len() as int) =~= front);
}

/// A clock that keeps timers keeps one that is set under its name, over an earlier one; a clock that
/// keeps none forgets it.
pub proof fn timer_is_kept_under_its_name(
    timers: Timers,
    name: Seq<char>,
    other: Seq<char>,
    s: Schedule,
)
    requires
        other != name,
    ensures
        with_timer(true, timers, name, s).dom().contains(name),
        with_timer(true, timers, name, s)[name] == s,
        with_timer(true, timers, name, s).dom().contains(other) == timers.dom().contains(other),
        with_timer(false, timers, name, s) == timers,
{
}

} // verus!
