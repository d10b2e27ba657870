//! Components with a life cycle, and actors.

use crate::actor::message::FundingRateUpdate;
use crate::actor::message::IndexPriceUpdate;
use crate::actor::message::InstrumentClose;
use crate::actor::message::InstrumentStatus;
use crate::actor::message::MarkPriceUpdate;
use crate::buffer::bar_builder::Bar;
use crate::buffer::tick_buffer::TradeFlowStats;
use crate::backtest::signal::Signal;
use crate::cache::Instrument;
use crate::data::MarketData;
use crate::data::OrderBookSnapshot;
use crate::data::QuoteTick;
use crate::actor::clock::Clock;
use crate::actor::clock::TimeEvent;
use crate::actor::clock;
use crate::actor::fsm;
use crate::actor::fsm::component_transitions;
use crate::actor::fsm::ComponentState;
use crate::actor::fsm::ComponentTrigger;
use crate::actor::fsm::FiniteStateMachine;
use crate::actor::message::ComponentStateChanged;
use crate::actor::message::StateChange;
use crate::actor::message::SystemMessage;
use crate::actor::handler::Handler;
use crate::actor::msgbus;
use crate::actor::msgbus::MessageBus;
use crate::actor::msgbus::Subscription;
use crate::name_map;
use crate::decimals;
use crate::text;
use crate::text::decimal_text;
use crate::trading::Order;
use crate::trading::Position;
use vstd::prelude::*;

verus! {

/// Severity of a line of the log.
#[derive(Debug, Clone, Copy, PartialEq, Eq, Structural)]
pub enum LogLevel {
    Info,
    Debug,
    Warn,
    Error,
}

impl LogLevel {
    /// The level in a line, five characters wide.
    pub open spec fn label(self) -> Seq<char> {
        match self {
            LogLevel::Info => "INFO "@,
            LogLevel::Debug => "DEBUG"@,
            LogLevel::Warn => "WARN "@,
            LogLevel::Error => "ERROR"@,
        }
    }

    /// The level in a line.
    pub fn as_str(&self) -> (r: &'static str)
        ensures
            r@ == self.label(),
    {
        match self {
            LogLevel::Info => "INFO ",
            LogLevel::Debug => "DEBUG",
            LogLevel::Warn => "WARN ",
            LogLevel::Error => "ERROR",
        }
    }
}

/// Nine digits of a number of nanoseconds within a second.
pub open spec fn nine_digits(n: nat) -> Seq<char> {
    let d = text::decimal(n);
    if d.len() < 9 {
        Seq::new((9 - d.len()) as nat, |i: int| '0') + d
    } else {
        d
    }
}

/// Seconds and nanoseconds as `seconds.nanoseconds`.
pub fn timestamp_text(secs: u64, nanos: u32) -> (r: String)
    ensures
        r@ == text::decimal(secs as nat) + seq!['.'] + nine_digits(nanos as nat),
{
    let mut r = decimal_text(secs);
    let d = decimal_text(nanos as u64);
    r.push('.');
    let n: usize = text::chars_of(d.as_str()).len();
    let mut k: usize = n;
    let ghost head = r@;
    assert(head + Seq::new(0, |i: int| '0') =~= head);
    while k < 9
        invariant
            n <= k,
            k <= 9 || k == n,
            r@ == head + Seq::new((k - n) as nat, |i: int| '0'),
        decreases 9 - k,
    {
        r.push('0');
        k = k + 1;
        assert(r@ =~= head + Seq::new((k - n) as nat, |i: int| '0'));
    }
    r.append(d.as_str());
    assert(r@ =~= text::decimal(secs as nat) + seq!['.'] + nine_digits(nanos as nat));
    r
}

/// The log of a component.
#[derive(Debug)]
pub struct Logger {
    name: String,
}

impl Logger {
    /// The name in front of the lines.
    pub closed spec fn name(&self) -> Seq<char> {
        self.name@
    }

    /// A line of the log.
    pub open spec fn line_text(
        name: Seq<char>,
        stamp: Seq<char>,
        level: LogLevel,
        msg: Seq<char>,
    ) -> Seq<char> {
        seq!['['] + stamp + "] "@ + level.label() + " "@ + name + ": "@ + msg
    }

    /// A log with a name.
    pub fn new(name: &str) -> (r: Self)
        ensures
            r.name() == name@,
    {
        Logger { name: name.to_owned() }
    }

    /// A line of the log.
    pub fn line(&self, stamp: &str, level: LogLevel, msg: &str) -> (r: String)
        ensures
            r@ == Self::line_text(self.name(), stamp@, level, msg@),
    {
        let mut s = String::new();
        s.push('[');
        s.append(stamp);
        s.append("] ");
        s.append(level.as_str());
        s.append(" ");
        s.append(self.name.as_str());
        s.append(": ");
        s.append(msg);
        assert(s@ =~= Self::line_text(self.name(), stamp@, level, msg@));
        s
    }
}

/// The topic on which a component tells of its changes of state.
pub open spec fn state_topic(name: Seq<char>, id: u64) -> Seq<char> {
    "events.system."@ + name + seq!['.'] + text::decimal(id as nat)
}

/// The receivers of a topic have been given changes of state, one after the other, and nothing else
/// has happened on the bus.
pub open spec fn announced<X, H: Handler<SystemMessage<X>>>(
    before: &MessageBus<SystemMessage<X>, H>,
    after: &MessageBus<SystemMessage<X>, H>,
    topic: Seq<char>,
    changes: Seq<StateChange>,
) -> bool {
    exists|msgs: Seq<SystemMessage<X>>| #[trigger]
        tell_of(msgs, changes) && msgbus::published(before, after, topic, msgs)
}

/// Messages tell of changes of state, in their order.
pub open spec fn tell_of<X>(msgs: Seq<SystemMessage<X>>, changes: Seq<StateChange>) -> bool {
    &&& msgs.len() == changes.len()
    &&& forall|i: int| 0 <= i < msgs.len() ==> holds_change(#[trigger] msgs[i], changes[i])
}

/// A message tells of a change of state.
pub open spec fn holds_change<X>(m: SystemMessage<X>, change: StateChange) -> bool {
    match m {
        SystemMessage::StateChanged(c) => c@ == change,
        _ => false,
    }
}

/// A component: an identity, a clock, a log and a life cycle. What it tells other components goes
/// over a message bus: the one whose number it has, which is handed to it for each call.
#[derive(Debug)]
pub struct Component<C> {
    pub id: u64,
    pub name: &'static str,
    pub core: ComponentCore<C>,
}

/// The clock, the number of the bus, the log and the life cycle of a component.
#[derive(Debug)]
pub struct ComponentCore<C> {
    clock: C,
    bus: u64,
    logger: Logger,
    fsm: FiniteStateMachine<ComponentState, ComponentTrigger>,
}

impl<C: Clock> Component<C> {
    /// The number of the component.
    pub open spec fn ident(&self) -> u64 {
        self.id
    }

    /// The name of the component.
    pub open spec fn label(&self) -> Seq<char> {
        self.name@
    }

    /// The state of the component.
    pub closed spec fn current(&self) -> ComponentState {
        self.core.fsm.state()
    }

    /// The clock of the component.
    pub closed spec fn time(&self) -> C {
        self.core.clock
    }

    /// The number of the bus over which the component talks.
    pub closed spec fn bus(&self) -> u64 {
        self.core.bus
    }

    /// The log of the component.
    pub closed spec fn log(&self) -> Logger {
        self.core.logger
    }

    /// The clock can be used, and the life cycle is that of a component.
    pub closed spec fn wf(&self) -> bool {
        self.core.clock.ok() && self.core.fsm.transitions() == fsm::component_table()
    }

    /// The same component but for its state.
    pub open spec fn same_but_state(&self, other: &Self) -> bool {
        self.ident() == other.ident() && self.label() == other.label() && self.time() == other.time()
            && self.log() == other.log() && self.bus() == other.bus()
    }

    /// What the component says of a state.
    pub open spec fn change_to(&self, state: ComponentState) -> StateChange {
        StateChange { component_id: self.ident(), component_name: self.label(), state }
    }

    /// The component has told of states, one after the other, and nothing else has happened on the
    /// bus.
    pub open spec fn told<X, H: Handler<SystemMessage<X>>>(
        &self,
        before: &MessageBus<SystemMessage<X>, H>,
        after: &MessageBus<SystemMessage<X>, H>,
        states: Seq<ComponentState>,
    ) -> bool {
        announced(
            before,
            after,
            state_topic(self.label(), self.ident()),
            Seq::new(states.len(), |i: int| self.change_to(states[i])),
        )
    }

    /// A component that is not initialized. It talks over the bus with the number 0.
    pub fn new(id: u64, name: &'static str, clock: C, logger: Logger) -> (r: Self)
        requires
            clock.ok(),
        ensures
            r.wf(),
            r.ident() == id,
            r.label() == name@,
            r.time() == clock,
            r.log() == logger,
            r.bus() == 0,
            r.current() == ComponentState::PreInitialized,
    {
        Component {
            id,
            name,
            core: ComponentCore {
                clock,
                bus: 0,
                logger,
                fsm: FiniteStateMachine::new(
                    ComponentState::PreInitialized,
                    component_transitions(),
                ),
            },
        }
    }

    /// Sets the bus over which the component talks.
    pub fn set_msgbus<M, H: Handler<M>>(&mut self, bus: &MessageBus<M, H>)
        requires
            old(self).wf(),
        ensures
            final(self).wf(),
            final(self).bus() == bus.number(),
            final(self).ident() == old(self).ident(),
            final(self).label() == old(self).label(),
            final(self).time() == old(self).time(),
            final(self).log() == old(self).log(),
            final(self).current() == old(self).current(),
    {
        self.core.bus = bus.own_number();
    }

    /// The state of the component.
    pub fn state(&self) -> (r: ComponentState)
        ensures
            r == self.current(),
    {
        self.core.fsm.current()
    }

    /// The log of the component.
    pub fn logger(&self) -> (r: &Logger)
        ensures
            *r == self.log(),
    {
        &self.core.logger
    }

    fn publish_state_changed<X, H: Handler<SystemMessage<X>>>(
        &self,
        bus: &mut MessageBus<SystemMessage<X>, H>,
    )
        requires
            self.wf(),
            old(bus).wf(),
            old(bus).number() == self.bus(),
        ensures
            final(bus).wf(),
            exists|m: SystemMessage<X>| #[trigger]
                holds_change(m, self.change_to(self.current())) && msgbus::published(
                    old(bus),
                    final(bus),
                    state_topic(self.label(), self.ident()),
                    seq![m],
                ),
    {
        let mut topic = "events.system.".to_owned();
        topic.append(self.name);
        topic.push('.');
        topic.append(decimal_text(self.id).as_str());
        assert(topic@ =~= state_topic(self.name@, self.id));
        let event = ComponentStateChanged {
            component_id: self.id,
            component_name: self.name.to_owned(),
            state: self.core.fsm.current(),
        };
        let msg: SystemMessage<X> = SystemMessage::StateChanged(event);
        bus.publish(topic.as_str(), &msg);
        assert(holds_change(msg, self.change_to(self.current())));
    }

    /// Takes a transition, and tells of the new state.
    fn step<X, H: Handler<SystemMessage<X>>>(
        &mut self,
        trigger: ComponentTrigger,
        bus: &mut MessageBus<SystemMessage<X>, H>,
    )
        requires
            old(self).wf(),
            old(bus).wf(),
            old(bus).number() == old(self).bus(),
            fsm::component_next(old(self).current(), trigger) is Some,
        ensures
            final(self).wf(),
            final(self).same_but_state(old(self)),
            Some(final(self).current()) == fsm::component_next(old(self).current(), trigger),
            final(bus).wf(),
            exists|m: SystemMessage<X>| #[trigger]
                holds_change(m, final(self).change_to(final(self).current()))
                    && msgbus::published(
                    old(bus),
                    final(bus),
                    state_topic(final(self).label(), final(self).ident()),
                    seq![m],
                ),
    {
        proof {
            fsm::component_table_gives_next(self.current(), trigger);
        }
        self.core.fsm.trigger(trigger);
        self.publish_state_changed(bus);
    }

    /// Takes two transitions, and tells of both new states.
    fn step_twice<X, H: Handler<SystemMessage<X>>>(
        &mut self,
        first: ComponentTrigger,
        second: ComponentTrigger,
        bus: &mut MessageBus<SystemMessage<X>, H>,
    )
        requires
            old(self).wf(),
            old(bus).wf(),
            old(bus).number() == old(self).bus(),
            fsm::component_next(old(self).current(), first) is Some,
            fsm::component_next(
                fsm::component_next(old(self).current(), first)->0,
                second,
            ) is Some,
        ensures
            final(self).wf(),
            final(self).same_but_state(old(self)),
            final(self).current() == fsm::component_next(
                fsm::component_next(old(self).current(), first)->0,
                second,
            )->0,
            final(bus).wf(),
            final(self).told(
                old(bus),
                final(bus),
                seq![
                    fsm::component_next(old(self).current(), first)->0,
                    final(self).current(),
                ],
            ),
    {
        let ghost before = *bus;
        let ghost topic = state_topic(self.label(), self.ident());
        self.step(first, bus);
        let ghost between = *bus;
        let ghost mid = self.current();
        let ghost one = choose|m: SystemMessage<X>| #[trigger]
            holds_change(m, self.change_to(mid)) && msgbus::published(
                &before,
                &between,
                topic,
                seq![m],
            );
        self.step(second, bus);
        proof {
            let end = self.current();
            let two = choose|m: SystemMessage<X>| #[trigger]
                holds_change(m, self.change_to(end)) && msgbus::published(
                    &between,
                    bus,
                    topic,
                    seq![m],
                );
            msgbus::publishing_twice(&before, &between, bus, topic, one, two);
            let states = seq![mid, end];
            let changes = Seq::new(states.len(), |i: int| self.change_to(states[i]));
            assert(tell_of(seq![one, two], changes));
        }
    }

    /// Goes from `PreInitialized` to `Initialized`, and tells of it; nothing happens in any other
    /// state.
    pub fn initialize<X, H: Handler<SystemMessage<X>>>(
        &mut self,
        bus: &mut MessageBus<SystemMessage<X>, H>,
    )
        requires
            old(self).wf(),
            old(bus).wf(),
            old(bus).number() == old(self).bus(),
        ensures
            final(self).wf(),
            final(self).same_but_state(old(self)),
            final(bus).wf(),
            if old(self).current() == ComponentState::PreInitialized {
                &&& final(self).current() == ComponentState::Initialized
                &&& final(self).told(
                    old(bus),
                    final(bus),
                    seq![ComponentState::Initialized],
                )
            } else {
                final(self).current() == old(self).current() && *final(bus) == *old(bus)
            },
    {
        if self.core.fsm.current() == ComponentState::PreInitialized {
            let ghost before = *bus;
            self.step(ComponentTrigger::Initialize, bus);
            proof {
                let m = choose|m: SystemMessage<X>| #[trigger]
                    holds_change(m, self.change_to(self.current())) && msgbus::published(
                        &before,
                        bus,
                        state_topic(self.label(), self.ident()),
                        seq![m],
                    );
                let states = seq![ComponentState::Initialized];
                let changes = Seq::new(states.len(), |i: int| self.change_to(states[i]));
                assert(tell_of(seq![m], changes));
            }
        }
    }

    /// Goes from `Initialized` over `Starting` to `Running`, and tells of both; nothing happens in
    /// any other state.
    pub fn start<X, H: Handler<SystemMessage<X>>>(&mut self, bus: &mut MessageBus<SystemMessage<X>, H>)
        requires
            old(self).wf(),
            old(bus).wf(),
            old(bus).number() == old(self).bus(),
        ensures
            final(self).wf(),
            final(self).same_but_state(old(self)),
            final(bus).wf(),
            if old(self).current() == ComponentState::Initialized {
                &&& final(self).current() == ComponentState::Running
                &&& final(self).told(
                    old(bus),
                    final(bus),
                    seq![ComponentState::Starting, ComponentState::Running],
                )
            } else {
                final(self).current() == old(self).current() && *final(bus) == *old(bus)
            },
    {
        if self.core.fsm.current() != ComponentState::Initialized {
            return;
        }
        self.step_twice(ComponentTrigger::Start, ComponentTrigger::StartCompleted, bus);
    }

    /// Goes from `Running` over `Stopping` to `Stopped`, and tells of both; nothing happens in any
    /// other state.
    pub fn stop<X, H: Handler<SystemMessage<X>>>(&mut self, bus: &mut MessageBus<SystemMessage<X>, H>)
        requires
            old(self).wf(),
            old(bus).wf(),
            old(bus).number() == old(self).bus(),
        ensures
            final(self).wf(),
            final(self).same_but_state(old(self)),
            final(bus).wf(),
            if old(self).current() == ComponentState::Running {
                &&& final(self).current() == ComponentState::Stopped
                &&& final(self).told(
                    old(bus),
                    final(bus),
                    seq![ComponentState::Stopping, ComponentState::Stopped],
                )
            } else {
                final(self).current() == old(self).current() && *final(bus) == *old(bus)
            },
    {
        if self.core.fsm.current() != ComponentState::Running {
            return;
        }
        self.step_twice(ComponentTrigger::Stop, ComponentTrigger::StopCompleted, bus);
    }

    /// Goes from `Ready` over `Resetting` back to `Ready`, and tells of both; nothing happens in
    /// any other state.
    pub fn reset<X, H: Handler<SystemMessage<X>>>(&mut self, bus: &mut MessageBus<SystemMessage<X>, H>)
        requires
            old(self).wf(),
            old(bus).wf(),
            old(bus).number() == old(self).bus(),
        ensures
            final(self).wf(),
            final(self).same_but_state(old(self)),
            final(bus).wf(),
            final(self).current() == old(self).current(),
            if old(self).current() == ComponentState::Ready {
                final(self).told(
                    old(bus),
                    final(bus),
                    seq![ComponentState::Resetting, ComponentState::Ready],
                )
            } else {
                *final(bus) == *old(bus)
            },
    {
        if self.core.fsm.current() != ComponentState::Ready {
            return;
        }
        self.step_twice(ComponentTrigger::Reset, ComponentTrigger::ResetCompleted, bus);
    }

    /// Goes from `Ready` over `Disposing` to `Disposed`, and tells of both; nothing happens in any
    /// other state.
    pub fn dispose<X, H: Handler<SystemMessage<X>>>(&mut self, bus: &mut MessageBus<SystemMessage<X>, H>)
        requires
            old(self).wf(),
            old(bus).wf(),
            old(bus).number() == old(self).bus(),
        ensures
            final(self).wf(),
            final(self).same_but_state(old(self)),
            final(bus).wf(),
            if old(self).current() == ComponentState::Ready {
                &&& final(self).current() == ComponentState::Disposed
                &&& final(self).told(
                    old(bus),
                    final(bus),
                    seq![ComponentState::Disposing, ComponentState::Disposed],
                )
            } else {
                final(self).current() == old(self).current() && *final(bus) == *old(bus)
            },
    {
        if self.core.fsm.current() != ComponentState::Ready {
            return;
        }
        self.step_twice(ComponentTrigger::Dispose, ComponentTrigger::DisposeCompleted, bus);
    }

    /// Goes from `Running` over `Faulting` to `Faulted`, and tells of both; nothing happens in any
    /// other state.
    pub fn fault<X, H: Handler<SystemMessage<X>>>(&mut self, bus: &mut MessageBus<SystemMessage<X>, H>)
        requires
            old(self).wf(),
            old(bus).wf(),
            old(bus).number() == old(self).bus(),
        ensures
            final(self).wf(),
            final(self).same_but_state(old(self)),
            final(bus).wf(),
            if old(self).current() == ComponentState::Running {
                &&& final(self).current() == ComponentState::Faulted
                &&& final(self).told(
                    old(bus),
                    final(bus),
                    seq![ComponentState::Faulting, ComponentState::Faulted],
                )
            } else {
                final(self).current() == old(self).current() && *final(bus) == *old(bus)
            },
    {
        if self.core.fsm.current() != ComponentState::Running {
            return;
        }
        self.step_twice(ComponentTrigger::Fault, ComponentTrigger::FaultCompleted, bus);
    }

    /// Goes from `Running` over `Degrading` to `Degraded`, and tells of both; nothing happens in
    /// any other state.
    pub fn degrade<X, H: Handler<SystemMessage<X>>>(&mut self, bus: &mut MessageBus<SystemMessage<X>, H>)
        requires
            old(self).wf(),
            old(bus).wf(),
            old(bus).number() == old(self).bus(),
        ensures
            final(self).wf(),
            final(self).same_but_state(old(self)),
            final(bus).wf(),
            if old(self).current() == ComponentState::Running {
                &&& final(self).current() == ComponentState::Degraded
                &&& final(self).told(
                    old(bus),
                    final(bus),
                    seq![ComponentState::Degrading, ComponentState::Degraded],
                )
            } else {
                final(self).current() == old(self).current() && *final(bus) == *old(bus)
            },
    {
        if self.core.fsm.current() != ComponentState::Running {
            return;
        }
        self.step_twice(ComponentTrigger::Degrade, ComponentTrigger::DegradeCompleted, bus);
    }

    /// Goes from `Stopped` or `Degraded` over `Resuming` to `Ready`, and tells of both; nothing
    /// happens in any other state.
    pub fn resume<X, H: Handler<SystemMessage<X>>>(&mut self, bus: &mut MessageBus<SystemMessage<X>, H>)
        requires
            old(self).wf(),
            old(bus).wf(),
            old(bus).number() == old(self).bus(),
        ensures
            final(self).wf(),
            final(self).same_but_state(old(self)),
            final(bus).wf(),
            if old(self).current() == ComponentState::Stopped || old(self).current()
                == ComponentState::Degraded {
                &&& final(self).current() == ComponentState::Ready
                &&& final(self).told(
                    old(bus),
                    final(bus),
                    seq![ComponentState::Resuming, ComponentState::Ready],
                )
            } else {
                final(self).current() == old(self).current() && *final(bus) == *old(bus)
            },
    {
        let state = self.core.fsm.current();
        if state != ComponentState::Stopped && state != ComponentState::Degraded {
            return;
        }
        self.step_twice(ComponentTrigger::Resume, ComponentTrigger::ResumeCompleted, bus);
    }

    /// The time that the clock shows.
    pub fn timestamp_ns(&self) -> (r: u64)
        requires
            self.wf(),
        ensures
            self.time().times().contains(r),
    {
        self.core.clock.timestamp_ns()
    }

    /// Advances the clock, and gives the events of the timers that are due.
    pub fn advance_clock(&mut self, to_ns: u64) -> (r: Vec<TimeEvent>)
        requires
            old(self).wf(),
            old(self).time().reach().contains(to_ns),
        ensures
            final(self).wf(),
            final(self).ident() == old(self).ident(),
            final(self).label() == old(self).label(),
            final(self).log() == old(self).log(),
            final(self).bus() == old(self).bus(),
            final(self).current() == old(self).current(),
            old(self).time().keeps_timers() ==> final(self).time().times() == set![to_ns],
            name_map::map_of(final(self).time().listing()) == clock::advanced(
                name_map::map_of(old(self).time().listing()),
                to_ns,
            ),
            name_map::ascending(old(self).time().listing()),
            clock::in_time_order(
                clock::due_events(
                    old(self).time().listing(),
                    to_ns,
                    old(self).time().listing().len() as int,
                ),
                clock::event_views(r@),
            ),
            clock::all_heard(
                old(self).time().handlers(),
                final(self).time().handlers(),
                clock::due_calls(
                    old(self).time().listing(),
                    old(self).time().targets(),
                    to_ns,
                    old(self).time().listing().len() as int,
                ),
                old(self).time().calls(),
            ),
    {
        proof {
            self.core.clock.listing_ascends();
        }
        self.core.clock.advance_time(to_ns)
    }

    /// Subscribes the component to the topics of a pattern.
    pub fn subscribe<M, H: Handler<M>>(
        &self,
        bus: &mut MessageBus<M, H>,
        topic: &str,
        handler: H,
        priority: i32,
    )
        requires
            old(bus).wf(),
            old(bus).number() == self.bus(),
        ensures
            final(bus).wf(),
            final(bus).endpoints() == old(bus).endpoints(),
            final(bus).calls() == old(bus).calls(),
            final(bus).number() == old(bus).number(),
            final(bus).subscriptions() == msgbus::subscribed(
                old(bus).subscriptions(),
                (Subscription { topic: topic@, priority, component_id: self.ident(), handler }),
            ),
    {
        bus.subscribe(topic, self.id, handler, priority);
    }

    /// Publishes a message.
    pub fn publish<M, H: Handler<M>>(&self, bus: &mut MessageBus<M, H>, topic: &str, msg: &M)
        requires
            old(bus).wf(),
            old(bus).number() == self.bus(),
        ensures
            final(bus).wf(),
            msgbus::published(old(bus), final(bus), topic@, seq![*msg]),
    {
        bus.publish(topic, msg);
    }

    /// Registers an endpoint.
    pub fn register_endpoint<M, H: Handler<M>>(
        &self,
        bus: &mut MessageBus<M, H>,
        endpoint: &str,
        handler: H,
    )
        requires
            old(bus).wf(),
            old(bus).number() == self.bus(),
        ensures
            final(bus).wf(),
            final(bus).subscriptions() == old(bus).subscriptions(),
            final(bus).calls() == old(bus).calls(),
            final(bus).number() == old(bus).number(),
            final(bus).endpoints() == old(bus).endpoints().insert(endpoint@, handler),
    {
        bus.register(endpoint, handler);
    }

    /// Sends a message to an endpoint.
    pub fn send<M, H: Handler<M>>(&self, bus: &mut MessageBus<M, H>, endpoint: &str, msg: &M)
        requires
            old(bus).wf(),
            old(bus).number() == self.bus(),
        ensures
            final(bus).wf(),
            msgbus::sent(old(bus), final(bus), endpoint@, *msg),
    {
        bus.send(endpoint, msg);
    }

    /// Drops the component's subscriptions to a topic.
    pub fn unsubscribe<M, H: Handler<M>>(&self, bus: &mut MessageBus<M, H>, topic: &str)
        requires
            old(bus).wf(),
            old(bus).number() == self.bus(),
        ensures
            final(bus).wf(),
            final(bus).endpoints() == old(bus).endpoints(),
            final(bus).calls() == old(bus).calls(),
            final(bus).number() == old(bus).number(),
            final(bus).subscriptions() == msgbus::unsubscribed(
                old(bus).subscriptions(),
                topic@,
                self.ident(),
            ),
    {
        bus.unsubscribe(topic, self.id);
    }
}

/// The identity of a trader.
#[derive(Debug)]
pub struct TraderId {
    value: String,
}

impl View for TraderId {
    type V = Seq<char>;

    closed spec fn view(&self) -> Seq<char> {
        self.value@
    }
}

impl TraderId {
    /// The identity of a name.
    pub fn new(value: &str) -> (r: Self)
        ensures
            r@ == value@,
    {
        TraderId { value: value.to_owned() }
    }

    /// The name.
    pub fn as_str(&self) -> (r: &str)
        ensures
            r@ == self@,
    {
        self.value.as_str()
    }
}

/// A component of a trader, with hooks for what happens to it.
pub trait Actor: Sized {
    /// The clock of the component.
    type Time: Clock;

    /// What is told of an order.
    type OrderEvent;

    /// What is told of a position.
    type PositionEvent;

    /// A signal.
    type SignalData;

    /// Data and events of any other kind.
    type Other;

    /// The component of the actor.
    spec fn part(&self) -> Component<Self::Time>;

    /// The trader of the actor.
    spec fn trader(&self) -> TraderId;

    /// The component of the actor.
    fn component(&self) -> (r: &Component<Self::Time>)
        ensures
            *r == self.part(),
    ;

    /// The name of the actor's trader.
    fn trader_id(&self) -> (r: &str)
        ensures
            r@ == self.trader()@,
    ;

    /// The actor's trader.
    fn trader_id_obj(&self) -> (r: &TraderId)
        ensures
            *r == self.trader(),
    ;

    /// A message has come. Gives the line for the log: by default that the message is not known.
    fn process_message<X>(&mut self, msg: &SystemMessage<X>, stamp: &str) -> (r: String)
        default_ensures
            *final(self) == *old(self),
            r@ == Logger::line_text(
                old(self).part().log().name(),
                stamp@,
                LogLevel::Debug,
                "Actor received unknown message type"@,
            ),
    {
        self.component().logger().line(
            stamp,
            LogLevel::Debug,
            "Actor received unknown message type",
        )
    }

    /// The actor is starting.
    fn on_start(&mut self)
        default_ensures
            *final(self) == *old(self),
    {
    }

    /// The actor has stopped.
    fn on_stop(&mut self)
        default_ensures
            *final(self) == *old(self),
    {
    }

    /// The state of the actor has changed.
    fn on_state_change(&mut self, state: ComponentState)
        default_ensures
            *final(self) == *old(self),
    {
    }

    /// The state of the actor is saved.
    fn on_save(&mut self) -> (r: Vec<(String, Vec<u8>)>)
        default_ensures
            *final(self) == *old(self),
            r@.len() == 0,
    {
        Vec::new()
    }

    /// The state of the actor is restored.
    fn on_load(&mut self, state: &Vec<(String, Vec<u8>)>)
        default_ensures
            *final(self) == *old(self),
    {
    }

    /// The actor is resumed.
    fn on_resume(&mut self)
        default_ensures
            *final(self) == *old(self),
    {
    }

    /// The actor is reset.
    fn on_reset(&mut self)
        default_ensures
            *final(self) == *old(self),
    {
    }

    /// The actor is disposed of.
    fn on_dispose(&mut self)
        default_ensures
            *final(self) == *old(self),
    {
    }

    /// The actor degrades.
    fn on_degrade(&mut self)
        default_ensures
            *final(self) == *old(self),
    {
    }

    /// The actor faults.
    fn on_fault(&mut self)
        default_ensures
            *final(self) == *old(self),
    {
    }

    /// A trade has come.
    fn on_trade_tick(&mut self, tick: &TradeFlowStats)
        default_ensures
            *final(self) == *old(self),
    {
    }

    /// Best prices have come.
    fn on_quote_tick(&mut self, tick: &QuoteTick)
        default_ensures
            *final(self) == *old(self),
    {
    }

    /// A bar has come.
    fn on_bar(&mut self, bar: &Bar)
        default_ensures
            *final(self) == *old(self),
    {
    }

    /// An order book has come.
    fn on_order_book(&mut self, book: &OrderBookSnapshot)
        default_ensures
            *final(self) == *old(self),
    {
    }

    /// The definition of an instrument has come.
    fn on_instrument(&mut self, instrument: &Instrument)
        default_ensures
            *final(self) == *old(self),
    {
    }

    /// The status of an instrument has changed.
    fn on_instrument_status(&mut self, status: &InstrumentStatus)
        default_ensures
            *final(self) == *old(self),
    {
    }

    /// An instrument has closed.
    fn on_instrument_close(&mut self, close: &InstrumentClose)
        default_ensures
            *final(self) == *old(self),
    {
    }

    /// A funding rate has come.
    fn on_funding_rate(&mut self, rate: &FundingRateUpdate)
        default_ensures
            *final(self) == *old(self),
    {
    }

    /// A mark price has come.
    fn on_mark_price(&mut self, mark: &MarkPriceUpdate)
        default_ensures
            *final(self) == *old(self),
    {
    }

    /// An index price has come.
    fn on_index_price(&mut self, index: &IndexPriceUpdate)
        default_ensures
            *final(self) == *old(self),
    {
    }

    /// Other data has come.
    fn on_data(&mut self, data: &Self::Other)
        default_ensures
            *final(self) == *old(self),
    {
    }

    /// An order was submitted to the venue.
    fn on_order_submitted(&mut self, event: &Self::OrderEvent)
        default_ensures
            *final(self) == *old(self),
    {
    }

    /// An order was accepted by the venue.
    fn on_order_accepted(&mut self, event: &Self::OrderEvent)
        default_ensures
            *final(self) == *old(self),
    {
    }

    /// An order was filled.
    fn on_order_filled(&mut self, event: &Self::OrderEvent)
        default_ensures
            *final(self) == *old(self),
    {
    }

    /// An order was filled in part.
    fn on_order_partially_filled(&mut self, event: &Self::OrderEvent)
        default_ensures
            *final(self) == *old(self),
    {
    }

    /// An order was cancelled.
    fn on_order_cancelled(&mut self, event: &Self::OrderEvent)
        default_ensures
            *final(self) == *old(self),
    {
    }

    /// An order was rejected by the venue.
    fn on_order_rejected(&mut self, event: &Self::OrderEvent)
        default_ensures
            *final(self) == *old(self),
    {
    }

    /// A position was opened.
    fn on_position_opened(&mut self, event: &Self::PositionEvent)
        default_ensures
            *final(self) == *old(self),
    {
    }

    /// The size or the entry price of a position has changed.
    fn on_position_changed(&mut self, event: &Self::PositionEvent)
        default_ensures
            *final(self) == *old(self),
    {
    }

    /// A position was closed.
    fn on_position_closed(&mut self, event: &Self::PositionEvent)
        default_ensures
            *final(self) == *old(self),
    {
    }

    /// An event of any kind has come.
    fn on_event(&mut self, event: &Self::Other)
        default_ensures
            *final(self) == *old(self),
    {
    }

    /// A signal has come.
    fn on_signal(&mut self, signal: &Self::SignalData)
        default_ensures
            *final(self) == *old(self),
    {
    }
}

/// An actor without behaviour of its own.
#[derive(Debug)]
pub struct GenericActor<C> {
    component: Component<C>,
    trader_id: TraderId,
}

impl<C: Clock> GenericActor<C> {
    /// The component of the actor.
    pub closed spec fn own_part(&self) -> Component<C> {
        self.component
    }

    /// The trader of the actor.
    pub closed spec fn own_trader(&self) -> TraderId {
        self.trader_id
    }

    /// An actor of a trader.
    pub fn new(trader_id: TraderId, id: u64, name: &'static str, clock: C) -> (r: Self)
        requires
            clock.ok(),
        ensures
            r.own_trader() == trader_id,
            r.own_part().wf(),
            r.own_part().ident() == id,
            r.own_part().label() == name@,
            r.own_part().time() == clock,
            r.own_part().log().name() == name@,
            r.own_part().bus() == 0,
            r.own_part().current() == ComponentState::PreInitialized,
    {
        let logger = Logger::new(name);
        GenericActor { component: Component::new(id, name, clock, logger), trader_id }
    }

    /// The component of the actor.
    pub fn component(&self) -> (r: &Component<C>)
        ensures
            *r == self.own_part(),
    {
        &self.component
    }

    /// The component of the actor.
    pub fn component_mut(&mut self) -> (r: &mut Component<C>)
        ensures
            *r == old(self).own_part(),
            final(self).own_part() == *final(r),
            final(self).own_trader() == old(self).own_trader(),
    {
        &mut self.component
    }

    /// The name of the actor's trader.
    pub fn trader_id(&self) -> (r: &str)
        ensures
            r@ == self.own_trader()@,
    {
        self.trader_id.as_str()
    }

    /// The actor's trader.
    pub fn trader_id_obj(&self) -> (r: &TraderId)
        ensures
            *r == self.own_trader(),
    {
        &self.trader_id
    }
}

impl<C: Clock> Actor for GenericActor<C> {
    type Time = C;

    type OrderEvent = Order;

    type PositionEvent = Position;

    type SignalData = Signal;

    type Other = MarketData;

    open spec fn part(&self) -> Component<C> {
        self.own_part()
    }

    open spec fn trader(&self) -> TraderId {
        self.own_trader()
    }

    fn component(&self) -> (r: &Component<C>) {
        &self.component
    }

    fn trader_id(&self) -> (r: &str) {
        self.trader_id.as_str()
    }

    fn trader_id_obj(&self) -> (r: &TraderId) {
        &self.trader_id
    }
}

/// Nanoseconds within a second are written with nine digits, which stand for their number.
pub proof fn nanoseconds_have_nine_digits(n: nat)
    requires
        n < 1_000_000_000,
    ensures
        nine_digits(n).len() == 9,
        text::all_digits(nine_digits(n)),
        text::digits_value(nine_digits(n)) == n,
{
    reveal_with_fuel(decimals::scaled, 10);
    text::decimal_is_as_long_as_its_number(n, 9);
    let d = text::decimal(n);
    let zeros = Seq::new((9 - d.len()) as nat, |i: int| '0');
    assert(zeros + d =~= nine_digits(n));
    text::zeros_in_front_change_nothing(d, (9 - d.len()) as nat);
}

} // verus!
