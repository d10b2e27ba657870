use nexus::actor::clock::{Clock, SystemClock, TestClock, TimeEvent};
use nexus::actor::component::{
    timestamp_text, Actor, Component, GenericActor, LogLevel, Logger, TraderId,
};
use nexus::actor::fsm::{
    component_transitions, ComponentState, ComponentTrigger, FiniteStateMachine,
};
use nexus::actor::handler::Callback;
use nexus::actor::message::{
    downcast, AsAny, ComponentStateChanged, FundingRateUpdate, IndexPriceUpdate, InstrumentClose,
    InstrumentStatus, MarkPriceUpdate, ShutdownSystem, SystemMessage, TradingState,
    TradingStateChanged,
};
use nexus::actor::msgbus::{is_matching, MessageBus};
use nexus::backtest::signal::Signal;
use nexus::instrument::InstrumentId;
use std::cell::RefCell;
use std::rc::Rc;

type Timer = Callback<TimeEvent, Box<dyn Fn(&TimeEvent)>>;
type Msg = SystemMessage<u32>;
type Handler = Callback<Msg, Box<dyn Fn(&Msg)>>;
type Bus = MessageBus<Msg, Handler>;

fn timer(f: impl Fn(&TimeEvent) + 'static) -> Timer {
    Callback::new(Box::new(f))
}

fn on(f: impl Fn(&Msg) + 'static) -> Handler {
    Callback::new(Box::new(f))
}

fn clock() -> TestClock<Timer> {
    TestClock::new()
}

fn shutdown(reason: &str) -> Msg {
    ShutdownSystem { reason: reason.to_string() }.as_any()
}

fn changed(id: u64, name: &str, state: ComponentState) -> Msg {
    ComponentStateChanged { component_id: id, component_name: name.to_string(), state }.as_any()
}

// --- Clock ---

#[test]
fn test_test_clock_set_time() {
    let mut clock = clock();
    assert_eq!(clock.timestamp_ns(), 0);
    clock.set_time(1_000_000_000);
    assert_eq!(clock.timestamp_ns(), 1_000_000_000);
}

#[test]
fn test_test_clock_timestamp_ms() {
    let mut clock = clock();
    clock.set_time(1_500_000_000);
    assert_eq!(clock.timestamp_ms(), 1500);
}

#[test]
fn test_test_clock_timer_fires() {
    let mut clock = clock();
    clock.set_time(1000);
    clock.set_timer_anonymous("my_timer", 1500);

    let events = clock.advance_time(1499);
    assert!(events.is_empty());

    let events = clock.advance_time(1500);
    assert_eq!(events.len(), 1);
    assert_eq!(events[0].name, "my_timer");
    assert_eq!(events[0].timestamp_ns, 1500);
}

#[test]
fn test_test_clock_timer_with_callback() {
    let mut clock = clock();
    clock.set_time(1000);
    let fired = Rc::new(RefCell::new(Vec::new()));
    let fired_clone = Rc::clone(&fired);
    clock.set_timer(
        "cb_timer",
        2000,
        timer(move |e: &TimeEvent| fired_clone.borrow_mut().push(e.name.clone())),
    );
    let events = clock.advance_time(2000);
    assert_eq!(events.len(), 1);
    assert_eq!(*fired.borrow(), vec!["cb_timer"]);
}

#[test]
fn test_test_clock_timer_cancel() {
    let mut clock = clock();
    clock.set_time(100);
    clock.set_timer_anonymous("timer_1", 500);
    clock.set_timer_anonymous("timer_2", 600);
    clock.cancel_timer("timer_1");
    assert_eq!(clock.timer_names(), vec!["timer_2"]);
    let events = clock.advance_time(1000);
    assert_eq!(events.len(), 1);
    assert_eq!(events[0].name, "timer_2");
}

#[test]
fn test_test_clock_cancel_timers() {
    let mut clock = clock();
    clock.set_time(100);
    clock.set_timer_anonymous("a", 500);
    clock.set_timer_anonymous("b", 600);
    clock.cancel_timers();
    assert!(clock.timer_names().is_empty());
    assert!(clock.advance_time(1000).is_empty());
}

#[test]
fn test_test_clock_next_time_ns() {
    let mut clock = clock();
    clock.set_time(100);
    clock.set_timer_anonymous("t1", 500);
    clock.set_timer_anonymous("t2", 300);
    assert_eq!(clock.next_time_ns("t1"), 500);
    assert_eq!(clock.next_time_ns("t2"), 300);
    assert_eq!(clock.next_time_ns("nonexistent"), 0);
}

#[test]
fn test_test_clock_deterministic_ordering() {
    let mut clock = clock();
    clock.set_time(100);
    clock.set_timer_anonymous("z", 500);
    clock.set_timer_anonymous("a", 500);
    clock.set_timer_anonymous("m", 500);
    let events = clock.advance_time(500);
    assert_eq!(events.len(), 3);
    assert_eq!(events[0].name, "a");
    assert_eq!(events[1].name, "m");
    assert_eq!(events[2].name, "z");
}

fn counting() -> (Rc<RefCell<u32>>, Timer) {
    let count = Rc::new(RefCell::new(0u32));
    let count_clone = Rc::clone(&count);
    (count, timer(move |_: &TimeEvent| *count_clone.borrow_mut() += 1))
}

#[test]
fn test_test_clock_repeating_timer() {
    let mut clock = clock();
    clock.set_time(1000);
    let (count, handler) = counting();
    clock.set_timer_repeating("repeater", 1000, 1000, None, handler, false);
    clock.advance_time(2000);
    assert_eq!(*count.borrow(), 1);
    clock.advance_time(3000);
    assert_eq!(*count.borrow(), 2);
    clock.advance_time(4000);
    assert_eq!(*count.borrow(), 3);
    clock.cancel_timer("repeater");
    clock.advance_time(5000);
    assert_eq!(*count.borrow(), 3);
}

#[test]
fn test_test_clock_repeating_with_stop() {
    let mut clock = clock();
    clock.set_time(1000);
    let (count, handler) = counting();
    clock.set_timer_repeating("bounded", 1000, 1000, Some(3500), handler, false);
    clock.advance_time(2000);
    clock.advance_time(3000);
    clock.advance_time(4000);
    assert_eq!(*count.borrow(), 2);
    assert!(clock.timer_names().is_empty());
}

#[test]
fn test_test_clock_fire_immediately() {
    let mut clock = clock();
    clock.set_time(1000);
    let (count, handler) = counting();
    clock.set_timer_repeating("immediate", 1000, 1000, None, handler, true);
    clock.advance_time(1000);
    assert_eq!(*count.borrow(), 1);
    clock.advance_time(2000);
    assert_eq!(*count.borrow(), 2);
}

#[test]
fn test_test_clock_default_handler() {
    let mut clock = clock();
    clock.set_time(1000);
    let received = Rc::new(RefCell::new(Vec::new()));
    let received_clone = Rc::clone(&received);
    clock.register_default_handler(timer(move |e: &TimeEvent| {
        received_clone.borrow_mut().push(e.name.clone())
    }));
    clock.set_timer_anonymous("default_test", 2000);
    clock.advance_time(2000);
    assert_eq!(*received.borrow(), vec!["default_test"]);
}

#[test]
fn test_test_clock_timer_names() {
    let mut clock = clock();
    clock.set_time(100);
    assert!(clock.timer_names().is_empty());
    clock.set_timer_anonymous("zebra", 500);
    clock.set_timer_anonymous("apple", 300);
    assert_eq!(clock.timer_names(), vec!["apple", "zebra"]);
}

#[test]
fn test_test_clock_timer_count() {
    let mut clock = clock();
    clock.set_time(100);
    assert_eq!(clock.timer_count(), 0);
    clock.set_timer_anonymous("a", 500);
    clock.set_timer_anonymous("b", 600);
    assert_eq!(clock.timer_count(), 2);
    clock.cancel_timer("a");
    assert_eq!(clock.timer_count(), 1);
}

#[test]
fn test_system_clock_timestamp() {
    let clock = SystemClock::<Timer>::new();
    let ts = clock.timestamp_ns();
    assert!(ts > 0);
    assert_eq!(ts / 1_000_000, clock.timestamp_ms());
}

#[test]
fn test_system_clock_no_timers() {
    let mut clock = SystemClock::<Timer>::new();
    assert!(clock.timer_names().is_empty());
    assert_eq!(clock.timer_count(), 0);
    clock.set_timer_anonymous("any", 1_000_000);
    assert!(clock.timer_names().is_empty());
    assert_eq!(clock.advance_time(1_000_000).len(), 0);
}

#[test]
fn system_clock_shows_the_time_of_the_machine() {
    let clock = SystemClock::<Timer>::started_at(7_000_000);
    assert!(clock.timestamp_ns() > 1_577_836_800_000_000_000);
    assert_eq!(SystemClock::<Timer>::shown(Some(5)), 5);
    assert_eq!(SystemClock::<Timer>::shown(None), 0);
    // A moment after 2020, read from the machine.
    assert!(SystemClock::<Timer>::new().timestamp_ns() > 1_577_836_800_000_000_000);
}

#[test]
fn test_time_event_with_name_and_payload() {
    let event = TimeEvent {
        id: 42,
        name: "my_timer".to_string(),
        payload: vec![1, 2, 3],
        timestamp_ns: 1_000_000,
    };
    assert_eq!(event.id, 42);
    assert_eq!(event.name, "my_timer");
    assert_eq!(event.payload, vec![1, 2, 3]);
    assert_eq!(event.timestamp_ns, 1_000_000);
}

#[test]
fn events_are_sorted_by_time_before_name() {
    let mut clock = clock();
    clock.set_timer_anonymous("a", 900);
    clock.set_timer_anonymous("b", 300);
    clock.set_timer_anonymous("c", 2000);
    let events = clock.advance_time(1000);
    let names: Vec<&str> = events.iter().map(|e| e.name.as_str()).collect();
    assert_eq!(names, vec!["b", "a"]);
    assert_eq!(clock.timer_names(), vec!["c"]);
    assert_eq!(clock.now_ns(), 1000);
}

#[test]
fn a_deadline_behind_the_stop_never_fires() {
    let mut clock = clock();
    clock.set_time(1000);
    let (count, handler) = counting();
    clock.set_timer_repeating("t", 1000, 1000, Some(1500), handler, false);
    assert!(clock.advance_time(2000).is_empty());
    assert_eq!(*count.borrow(), 0);
    assert!(clock.timer_names().is_empty());
}

#[test]
fn a_jump_over_several_intervals_fires_for_each() {
    let mut clock = clock();
    clock.set_time(1000);
    let (count, handler) = counting();
    clock.set_timer_repeating("r", 1000, 1000, Some(9000), handler, false);
    clock.set_timer_anonymous("q", 3000);
    let events = clock.advance_time(4500);
    let seen: Vec<(&str, u64)> =
        events.iter().map(|e| (e.name.as_str(), e.timestamp_ns)).collect();
    assert_eq!(seen, vec![("r", 2000), ("q", 3000), ("r", 3000), ("r", 4000)]);
    assert_eq!(*count.borrow(), 3);
    assert_eq!(clock.next_time_ns("r"), 5000);
}

// --- State machine ---

fn machine(s: ComponentState) -> FiniteStateMachine<ComponentState, ComponentTrigger> {
    FiniteStateMachine::new(s, component_transitions())
}

#[test]
fn test_fsm_initial_state() {
    assert_eq!(machine(ComponentState::PreInitialized).current(), ComponentState::PreInitialized);
}

#[test]
fn test_fsm_initialize() {
    let mut fsm = machine(ComponentState::PreInitialized);
    assert!(fsm.trigger(ComponentTrigger::Initialize));
    assert_eq!(fsm.current(), ComponentState::Initialized);
}

#[test]
fn test_fsm_start_sequence() {
    let mut fsm = machine(ComponentState::Initialized);
    assert!(fsm.trigger(ComponentTrigger::Start));
    assert_eq!(fsm.current(), ComponentState::Starting);
    assert!(fsm.trigger(ComponentTrigger::StartCompleted));
    assert_eq!(fsm.current(), ComponentState::Running);
}

#[test]
fn test_fsm_stop_sequence() {
    let mut fsm = machine(ComponentState::Running);
    assert!(fsm.trigger(ComponentTrigger::Stop));
    assert_eq!(fsm.current(), ComponentState::Stopping);
    assert!(fsm.trigger(ComponentTrigger::StopCompleted));
    assert_eq!(fsm.current(), ComponentState::Stopped);
}

#[test]
fn test_fsm_invalid_trigger_no_change() {
    let mut fsm = machine(ComponentState::PreInitialized);
    assert!(!fsm.trigger(ComponentTrigger::Stop));
    assert_eq!(fsm.current(), ComponentState::PreInitialized);
}

#[test]
fn test_fsm_dispose_sequence() {
    let mut fsm = machine(ComponentState::Ready);
    assert!(fsm.trigger(ComponentTrigger::Dispose));
    assert_eq!(fsm.current(), ComponentState::Disposing);
    assert!(fsm.trigger(ComponentTrigger::DisposeCompleted));
    assert_eq!(fsm.current(), ComponentState::Disposed);
}

#[test]
fn test_fsm_fault_sequence() {
    let mut fsm = machine(ComponentState::Running);
    assert!(fsm.trigger(ComponentTrigger::Fault));
    assert_eq!(fsm.current(), ComponentState::Faulting);
    assert!(fsm.trigger(ComponentTrigger::FaultCompleted));
    assert_eq!(fsm.current(), ComponentState::Faulted);
}

#[test]
fn test_fsm_degrade_resume() {
    let mut fsm = machine(ComponentState::Running);
    assert!(fsm.trigger(ComponentTrigger::Degrade));
    assert_eq!(fsm.current(), ComponentState::Degrading);
    assert!(fsm.trigger(ComponentTrigger::DegradeCompleted));
    assert_eq!(fsm.current(), ComponentState::Degraded);
    assert!(fsm.trigger(ComponentTrigger::Resume));
    assert_eq!(fsm.current(), ComponentState::Resuming);
    assert!(fsm.trigger(ComponentTrigger::ResumeCompleted));
    assert_eq!(fsm.current(), ComponentState::Ready);
}

#[test]
fn disposed_takes_no_trigger() {
    let mut fsm = machine(ComponentState::Disposed);
    assert!(!fsm.trigger(ComponentTrigger::Initialize));
    assert!(!fsm.trigger(ComponentTrigger::Start));
    assert!(!fsm.trigger(ComponentTrigger::Resume));
    assert_eq!(fsm.current(), ComponentState::Disposed);
}

// --- Message bus ---

#[test]
fn test_msgbus_publish_subscribe() {
    let mut bus = Bus::new();
    let received = Rc::new(RefCell::new(Vec::new()));
    let received_clone = Rc::clone(&received);
    bus.subscribe(
        "test.topic",
        1,
        on(move |msg: &Msg| {
            if let Some(s) = downcast::<ShutdownSystem, u32>(msg) {
                received_clone.borrow_mut().push(s.reason.clone());
            }
        }),
        0,
    );
    bus.publish("test.topic", &shutdown("hello"));
    assert_eq!(received.borrow().as_slice(), &["hello".to_string()]);
}

#[test]
fn test_msgbus_wildcard_star() {
    let mut bus = Bus::new();
    let received = Rc::new(RefCell::new(Vec::new()));
    let received_clone = Rc::clone(&received);
    bus.subscribe(
        "events.system.*",
        1,
        on(move |msg: &Msg| {
            if let Some(c) = downcast::<ComponentStateChanged, u32>(msg) {
                received_clone.borrow_mut().push(c.state);
            }
        }),
        0,
    );
    bus.publish(
        "events.system.mycomponent",
        &changed(0, "mycomponent", ComponentState::Running),
    );
    assert_eq!(received.borrow().len(), 1);
    assert_eq!(received.borrow()[0], ComponentState::Running);
}

fn counter() -> (Rc<RefCell<u32>>, Handler) {
    let count = Rc::new(RefCell::new(0u32));
    let count_clone = Rc::clone(&count);
    (count, on(move |_: &Msg| *count_clone.borrow_mut() += 1))
}

#[test]
fn test_msgbus_wildcard_question_mark() {
    let mut bus = Bus::new();
    let (received, handler) = counter();
    bus.subscribe("events.?.stopped", 1, handler, 0);
    bus.publish("events.a.stopped", &shutdown(""));
    bus.publish("events.b.stopped", &shutdown(""));
    bus.publish("events.ab.stopped", &shutdown(""));
    assert_eq!(*received.borrow(), 2);
}

#[test]
fn test_msgbus_priority_ordering() {
    let mut bus = Bus::new();
    let order = Rc::new(RefCell::new(Vec::new()));
    let first = Rc::clone(&order);
    let second = Rc::clone(&order);
    bus.subscribe("prio", 1, on(move |_: &Msg| first.borrow_mut().push(1)), 10);
    bus.subscribe("prio", 2, on(move |_: &Msg| second.borrow_mut().push(2)), 0);
    bus.publish("prio", &shutdown(""));
    assert_eq!(*order.borrow(), vec![1, 2]);
}

#[test]
fn priority_counts_across_patterns() {
    let mut bus = Bus::new();
    let order = Rc::new(RefCell::new(Vec::new()));
    let first = Rc::clone(&order);
    let second = Rc::clone(&order);
    bus.subscribe("prio", 1, on(move |_: &Msg| first.borrow_mut().push(1)), 0);
    bus.subscribe("pr*", 2, on(move |_: &Msg| second.borrow_mut().push(2)), 5);
    bus.publish("prio", &shutdown(""));
    assert_eq!(*order.borrow(), vec![2, 1]);
}

#[test]
fn test_msgbus_endpoint_send() {
    let mut bus = Bus::new();
    let received = Rc::new(RefCell::new(String::new()));
    let received_clone = Rc::clone(&received);
    bus.register(
        "actor.123",
        on(move |msg: &Msg| {
            if let Some(s) = downcast::<ShutdownSystem, u32>(msg) {
                *received_clone.borrow_mut() = s.reason.clone();
            }
        }),
    );
    bus.send("actor.123", &shutdown("direct"));
    assert_eq!(&*received.borrow(), "direct");
}

#[test]
fn test_msgbus_unsubscribe() {
    let mut bus = Bus::new();
    let (count, handler) = counter();
    bus.subscribe("topic", 5, handler, 0);
    bus.publish("topic", &shutdown(""));
    assert_eq!(*count.borrow(), 1);
    bus.unsubscribe("topic", 5);
    bus.publish("topic", &shutdown(""));
    assert_eq!(*count.borrow(), 1);
}

#[test]
fn unsubscribing_all_takes_every_topic() {
    let mut bus = Bus::new();
    let (a, on_a) = counter();
    let (b, on_b) = counter();
    let (c, on_c) = counter();
    bus.subscribe("x", 1, on_a, 0);
    bus.subscribe("y", 1, on_b, 0);
    bus.subscribe("x", 2, on_c, 0);
    bus.unsubscribe_all(1);
    bus.publish("x", &shutdown(""));
    bus.publish("y", &shutdown(""));
    assert_eq!((*a.borrow(), *b.borrow(), *c.borrow()), (0, 0, 1));
}

#[test]
fn only_the_endpoint_is_sent_to() {
    let mut bus = Bus::new();
    let (first, on_first) = counter();
    let (second, on_second) = counter();
    let (other, on_other) = counter();
    bus.register("a", on_first);
    bus.register("a", on_second);
    bus.subscribe("a", 1, on_other, 0);
    bus.send("a", &shutdown(""));
    bus.send("b", &shutdown(""));
    assert_eq!((*first.borrow(), *second.borrow(), *other.borrow()), (0, 1, 0));
    bus.publish("a", &shutdown(""));
    assert_eq!((*second.borrow(), *other.borrow()), (1, 1));
}

#[test]
fn test_is_matching_glob() {
    assert!(is_matching("events.*", "events.system"));
    assert!(is_matching("events.system.*", "events.system.component"));
    assert!(is_matching("events.?.*", "events.a.component"));
    assert!(!is_matching("events.?.*", "events.ab.component"));
    assert!(is_matching("*", "anything"));
    assert!(is_matching("?", "a"));
    assert!(!is_matching("?", "ab"));
    assert!(is_matching("a?b", "aab"));
    assert!(!is_matching("a?b", "ab"));
    assert!(!is_matching("a?b", "aabb"));
}

#[test]
fn star_wants_a_character() {
    assert!(!is_matching("events.*", "events."));
    assert!(!is_matching("*", ""));
    assert!(is_matching("a*b", "axxb"));
    assert!(!is_matching("a*b", "ab"));
    assert!(is_matching("plain.topic", "plain.topic"));
}

#[test]
fn downcast_tells_messages_apart() {
    let m: Msg = TradingStateChanged { component_id: 3, state: TradingState::Halted }.as_any();
    assert!(downcast::<ShutdownSystem, u32>(&m).is_none());
    assert!(downcast::<TradingStateChanged, u32>(&m).is_some());
    let own: Msg = SystemMessage::Custom(7);
    assert!(matches!(own, SystemMessage::Custom(7)));
}

// --- Component ---

#[test]
fn test_component_lifecycle() {
    let mut bus = Bus::new();
    let mut comp = Component::new(1, "TestComponent", clock(), Logger::new("test_component"));
    assert_eq!(comp.state(), ComponentState::PreInitialized);
    comp.initialize(&mut bus);
    assert_eq!(comp.state(), ComponentState::Initialized);
    comp.start(&mut bus);
    assert_eq!(comp.state(), ComponentState::Running);
    comp.stop(&mut bus);
    assert_eq!(comp.state(), ComponentState::Stopped);
}

#[test]
fn test_component_subscribe_and_receive() {
    let mut bus = Bus::new();
    let comp = Component::new(10, "Subscriber", clock(), Logger::new("subscriber"));
    let received = Rc::new(RefCell::new(false));
    let received_clone = Rc::clone(&received);
    comp.subscribe(
        &mut bus,
        "test.events",
        on(move |msg: &Msg| {
            if downcast::<ComponentStateChanged, u32>(msg).is_some() {
                *received_clone.borrow_mut() = true;
            }
        }),
        0,
    );
    bus.publish("test.events", &changed(99, "publisher", ComponentState::Running));
    assert!(*received.borrow());
}

#[test]
fn test_actor_message_passing() {
    let mut bus = Bus::new();
    let actor_a = GenericActor::new(TraderId::new("trader1"), 1, "ActorA", clock());
    let received_state = Rc::new(RefCell::new(None::<ComponentState>));
    let received_state_clone = Rc::clone(&received_state);
    actor_a.component().subscribe(
        &mut bus,
        "events.system.ActorB.*",
        on(move |msg: &Msg| {
            if let Some(c) = downcast::<ComponentStateChanged, u32>(msg) {
                *received_state_clone.borrow_mut() = Some(c.state);
            }
        }),
        0,
    );

    let mut actor_b = GenericActor::new(TraderId::new("trader2"), 2, "ActorB", clock());
    actor_b.component_mut().initialize(&mut bus);
    actor_b.component_mut().start(&mut bus);

    let topic = format!("events.system.ActorB.{}", actor_b.component().id);
    bus.publish(&topic, &changed(actor_b.component().id, "ActorB", ComponentState::Running));
    assert_eq!(
        *received_state.borrow(),
        Some(ComponentState::Running),
        "Actor A should have received Actor B's Running state"
    );
}

#[test]
fn test_component_state_changed_event_published() {
    let mut bus = Bus::new();
    let mut comp = Component::new(42, "StateTester", clock(), Logger::new("state_tester"));
    let received_events = Rc::new(RefCell::new(Vec::new()));
    let received_events_clone = Rc::clone(&received_events);
    bus.subscribe(
        "events.system.StateTester.42",
        99,
        on(move |msg: &Msg| {
            if let Some(c) = downcast::<ComponentStateChanged, u32>(msg) {
                received_events_clone.borrow_mut().push(c.state);
            }
        }),
        0,
    );
    comp.initialize(&mut bus);
    comp.start(&mut bus);
    comp.stop(&mut bus);
    let states: Vec<ComponentState> = received_events.borrow().clone();
    assert!(states.contains(&ComponentState::Initialized));
    assert!(states.contains(&ComponentState::Starting));
    assert!(states.contains(&ComponentState::Running));
    assert!(states.contains(&ComponentState::Stopping));
    assert!(states.contains(&ComponentState::Stopped));
}

#[test]
fn a_component_talks_over_the_bus_it_was_given() {
    let mut bus = Bus::numbered(3);
    assert_eq!(bus.own_number(), 3);
    let mut comp = Component::new(1, "Moved", clock(), Logger::new("moved"));
    comp.set_msgbus(&bus);
    let (count, handler) = counter();
    comp.subscribe(&mut bus, "events.system.Moved.1", handler, 0);
    comp.initialize(&mut bus);
    assert_eq!(comp.state(), ComponentState::Initialized);
    assert_eq!(*count.borrow(), 1);
    comp.unsubscribe(&mut bus, "events.system.Moved.1");
    comp.start(&mut bus);
    assert_eq!(*count.borrow(), 1);
}

#[test]
fn a_step_is_announced_in_order_and_once() {
    let mut bus = Bus::new();
    let mut comp = Component::new(7, "Steps", clock(), Logger::new("steps"));
    let states = Rc::new(RefCell::new(Vec::new()));
    let states_clone = Rc::clone(&states);
    bus.subscribe(
        "events.system.Steps.7",
        1,
        on(move |msg: &Msg| {
            if let Some(c) = downcast::<ComponentStateChanged, u32>(msg) {
                states_clone.borrow_mut().push((c.component_id, c.state));
            }
        }),
        0,
    );
    comp.start(&mut bus);
    assert!(states.borrow().is_empty());
    comp.initialize(&mut bus);
    comp.initialize(&mut bus);
    comp.start(&mut bus);
    assert_eq!(
        *states.borrow(),
        vec![
            (7, ComponentState::Initialized),
            (7, ComponentState::Starting),
            (7, ComponentState::Running),
        ]
    );
}

#[test]
fn test_actor_all_handlers_compile() {
    let mut actor = GenericActor::new(TraderId::new("TESTER-001"), 1, "test-actor", clock());
    let _ = actor.on_save();
    actor.on_load(&Vec::new());
    actor.on_resume();
    actor.on_reset();
    actor.on_dispose();
    actor.on_degrade();
    actor.on_fault();

    let id = || InstrumentId::new("BTCUSDT", "BINANCE");
    actor.on_instrument_status(&InstrumentStatus {
        instrument_id: id(),
        status: "OPEN".to_string(),
        ts_event: 0,
    });
    actor.on_instrument_close(&InstrumentClose {
        instrument_id: id(),
        close_price: 100_000_000_000,
        ts_event: 0,
    });
    actor.on_funding_rate(&FundingRateUpdate { instrument_id: id(), rate: 100_000, ts_event: 0 });
    actor.on_mark_price(&MarkPriceUpdate {
        instrument_id: id(),
        mark_price: 100_000_000_000,
        ts_event: 0,
    });
    actor.on_index_price(&IndexPriceUpdate {
        instrument_id: id(),
        index_price: 99_000_000_000,
        ts_event: 0,
    });
    actor.on_signal(&Signal::Buy);
    let line = actor.process_message(&shutdown("late"), "1.000000002");
    assert_eq!(line, "[1.000000002] DEBUG test-actor: Actor received unknown message type");
    assert_eq!(actor.component().state(), ComponentState::PreInitialized);
    assert_eq!(actor.trader_id_obj().as_str(), "TESTER-001");
}

#[test]
fn log_lines_carry_time_level_and_name() {
    let logger = Logger::new("engine");
    let stamp = timestamp_text(12, 34);
    let line = logger.line(&stamp, LogLevel::Warn, "late");
    assert_eq!(stamp, "12.000000034");
    assert_eq!(line, format!("[12.000000034] {} engine: late", LogLevel::Warn.as_str()));
}
