//! Finite state machines, and the life cycle of a component.
use vstd::prelude::*;

verus! {

/// A state or a trigger of a state machine.
pub trait Symbol: Copy {
    /// Both are the same.
    fn same(&self, other: &Self) -> (r: bool)
        ensures
            r == (*self == *other),
    ;
}

/// The first row of a table, from the row `i` on, that leaves `state` on `trigger`; the length of
/// the table where there is none.
pub open spec fn row_from<S, E>(table: Seq<(S, E, S)>, state: S, trigger: E, i: int) -> int
    decreases table.len() - i,
{
    if i >= table.len() {
        table.len() as int
    } else if table[i].0 == state && table[i].1 == trigger {
        i
    } else {
        row_from(table, state, trigger, i + 1)
    }
}

/// The state that a table gives for a state and a trigger: that of the first row for the two.
pub open spec fn successor<S, E>(table: Seq<(S, E, S)>, state: S, trigger: E) -> Option<S> {
    let i = row_from(table, state, trigger, 0);
    if i < table.len() {
        Some(table[i].2)
    } else {
        None
    }
}

/// There is a row for a state and a trigger exactly where the table gives a successor, and the
/// successor is that of one of these rows.
pub proof fn successor_is_in_the_table<S, E>(table: Seq<(S, E, S)>, state: S, trigger: E)
    ensures
        successor(table, state, trigger) is Some <==> exists|i: int|
            0 <= i < table.len() && (#[trigger] table[i]).0 == state && table[i].1 == trigger,
        successor(table, state, trigger) is Some ==> table.contains(
            (state, trigger, successor(table, state, trigger)->0),
        ),
{
    lemma_row(table, state, trigger, 0);
    let i = row_from(table, state, trigger, 0);
    if i < table.len() {
        assert(table[i] == (state, trigger, table[i].2));
    }
}

proof fn lemma_row<S, E>(table: Seq<(S, E, S)>, state: S, trigger: E, i: int)
    requires
        0 <= i,
    ensures
        ({
            let r = row_from(table, state, trigger, i);
            &&& (r < table.len() ==> i <= r && table[r].0 == state && table[r].1 == trigger)
            &&& forall|j: int|
                i <= j < r && j < table.len() ==> !((#[trigger] table[j]).0 == state && table[j].1
                    == trigger)
        }),
    decreases table.len() - i,
{
    if i < table.len() && !(table[i].0 == state && table[i].1 == trigger) {
        lemma_row(table, state, trigger, i + 1);
    }
}

/// A state machine with a fixed table of transitions.
#[derive(Debug)]
pub struct FiniteStateMachine<S, E> {
    current: S,
    table: Vec<(S, E, S)>,
}

impl<S: Symbol, E: Symbol> FiniteStateMachine<S, E> {
    /// The current state.
    pub closed spec fn state(&self) -> S {
        self.current
    }

    /// The transitions: from a state, on a trigger, to a state.
    pub closed spec fn transitions(&self) -> Seq<(S, E, S)> {
        self.table@
    }

    /// A machine in a state, with its transitions.
    pub fn new(initial: S, table: Vec<(S, E, S)>) -> (r: Self)
        ensures
            r.state() == initial,
            r.transitions() == table@,
    {
        FiniteStateMachine { current: initial, table }
    }

    /// The current state.
    pub fn current(&self) -> (r: S)
        ensures
            r == self.state(),
    {
        self.current
    }

    /// Takes the transition of a trigger, if the table has one.
    pub fn trigger(&mut self, trigger: E) -> (r: bool)
        ensures
            final(self).transitions() == old(self).transitions(),
            match successor(old(self).transitions(), old(self).state(), trigger) {
                Some(s) => r && final(self).state() == s,
                None => !r && final(self).state() == old(self).state(),
            },
    {
        let mut i: usize = 0;
        while i < self.table.len()
            invariant
                self == old(self),
                i <= self.table@.len(),
                row_from(self.table@, self.current, trigger, 0) == row_from(
                    self.table@,
                    self.current,
                    trigger,
                    i as int,
                ),
            decreases self.table@.len() - i,
        {
            if self.table[i].0.same(&self.current) && self.table[i].1.same(&trigger) {
                self.current = self.table[i].2;
                return true;
            }
            i = i + 1;
        }
        false
    }
}

/// The states of a component.
#[derive(Debug, Clone, Copy, PartialEq, Eq, PartialOrd, Ord, Structural)]
pub enum ComponentState {
    PreInitialized,
    Initialized,
    Ready,
    Starting,
    Running,
    Stopping,
    Stopped,
    Resetting,
    Disposing,
    Disposed,
    Faulting,
    Faulted,
    Degrading,
    Degraded,
    Resuming,
}

impl Symbol for ComponentState {
    fn same(&self, other: &Self) -> (r: bool) {
        *self == *other
    }
}

impl ComponentState {
    /// The name of the state.
    pub open spec fn name(self) -> Seq<char> {
        match self {
            ComponentState::PreInitialized => "PRE_INITIALIZED"@,
            ComponentState::Initialized => "INITIALIZED"@,
            ComponentState::Ready => "READY"@,
            ComponentState::Starting => "STARTING"@,
            ComponentState::Running => "RUNNING"@,
            ComponentState::Stopping => "STOPPING"@,
            ComponentState::Stopped => "STOPPED"@,
            ComponentState::Resetting => "RESETTING"@,
            ComponentState::Disposing => "DISPOSING"@,
            ComponentState::Disposed => "DISPOSED"@,
            ComponentState::Faulting => "FAULTING"@,
            ComponentState::Faulted => "FAULTED"@,
            ComponentState::Degrading => "DEGRADING"@,
            ComponentState::Degraded => "DEGRADED"@,
            ComponentState::Resuming => "RESUMING"@,
        }
    }

    /// The name of the state.
    pub fn as_str(&self) -> (r: &'static str)
        ensures
            r@ == self.name(),
    {
        match self {
            ComponentState::PreInitialized => "PRE_INITIALIZED",
            ComponentState::Initialized => "INITIALIZED",
            ComponentState::Ready => "READY",
            ComponentState::Starting => "STARTING",
            ComponentState::Running => "RUNNING",
            ComponentState::Stopping => "STOPPING",
            ComponentState::Stopped => "STOPPED",
            ComponentState::Resetting => "RESETTING",
            ComponentState::Disposing => "DISPOSING",
            ComponentState::Disposed => "DISPOSED",
            ComponentState::Faulting => "FAULTING",
            ComponentState::Faulted => "FAULTED",
            ComponentState::Degrading => "DEGRADING",
            ComponentState::Degraded => "DEGRADED",
            ComponentState::Resuming => "RESUMING",
        }
    }
}

/// What moves a component from state to state.
#[derive(Debug, Clone, Copy, PartialEq, Eq, Structural)]
pub enum ComponentTrigger {
    Initialize,
    Start,
    Stop,
    Reset,
    Dispose,
    Fault,
    Degrade,
    Resume,
    StartCompleted,
    StopCompleted,
    ResetCompleted,
    DisposeCompleted,
    FaultCompleted,
    DegradeCompleted,
    ResumeCompleted,
}

impl Symbol for ComponentTrigger {
    fn same(&self, other: &Self) -> (r: bool) {
        *self == *other
    }
}

/// The transitions of a component. States that are passed through are left by the trigger that
/// completes them.
pub open spec fn component_table() -> Seq<(ComponentState, ComponentTrigger, ComponentState)> {
    seq![
        (ComponentState::PreInitialized, ComponentTrigger::Initialize, ComponentState::Initialized),
        (ComponentState::Initialized, ComponentTrigger::Start, ComponentState::Starting),
        (ComponentState::Starting, ComponentTrigger::StartCompleted, ComponentState::Running),
        (ComponentState::Running, ComponentTrigger::Stop, ComponentState::Stopping),
        (ComponentState::Stopping, ComponentTrigger::StopCompleted, ComponentState::Stopped),
        (ComponentState::Ready, ComponentTrigger::Reset, ComponentState::Resetting),
        (ComponentState::Resetting, ComponentTrigger::ResetCompleted, ComponentState::Ready),
        (ComponentState::Stopped, ComponentTrigger::Resume, ComponentState::Resuming),
        (ComponentState::Resuming, ComponentTrigger::ResumeCompleted, ComponentState::Ready),
        (ComponentState::Ready, ComponentTrigger::Dispose, ComponentState::Disposing),
        (ComponentState::Disposing, ComponentTrigger::DisposeCompleted, ComponentState::Disposed),
        (ComponentState::Running, ComponentTrigger::Fault, ComponentState::Faulting),
        (ComponentState::Faulting, ComponentTrigger::FaultCompleted, ComponentState::Faulted),
        (ComponentState::Running, ComponentTrigger::Degrade, ComponentState::Degrading),
        (ComponentState::Degrading, ComponentTrigger::DegradeCompleted, ComponentState::Degraded),
        (ComponentState::Degraded, ComponentTrigger::Resume, ComponentState::Resuming),
    ]
}

/// The transitions of a component.
pub fn component_transitions() -> (r: Vec<(ComponentState, ComponentTrigger, ComponentState)>)
    ensures
        r@ == component_table(),
{
    vec![
        (ComponentState::PreInitialized, ComponentTrigger::Initialize, ComponentState::Initialized),
        (ComponentState::Initialized, ComponentTrigger::Start, ComponentState::Starting),
        (ComponentState::Starting, ComponentTrigger::StartCompleted, ComponentState::Running),
        (ComponentState::Running, ComponentTrigger::Stop, ComponentState::Stopping),
        (ComponentState::Stopping, ComponentTrigger::StopCompleted, ComponentState::Stopped),
        (ComponentState::Ready, ComponentTrigger::Reset, ComponentState::Resetting),
        (ComponentState::Resetting, ComponentTrigger::ResetCompleted, ComponentState::Ready),
        (ComponentState::Stopped, ComponentTrigger::Resume, ComponentState::Resuming),
        (ComponentState::Resuming, ComponentTrigger::ResumeCompleted, ComponentState::Ready),
        (ComponentState::Ready, ComponentTrigger::Dispose, ComponentState::Disposing),
        (ComponentState::Disposing, ComponentTrigger::DisposeCompleted, ComponentState::Disposed),
        (ComponentState::Running, ComponentTrigger::Fault, ComponentState::Faulting),
        (ComponentState::Faulting, ComponentTrigger::FaultCompleted, ComponentState::Faulted),
        (ComponentState::Running, ComponentTrigger::Degrade, ComponentState::Degrading),
        (ComponentState::Degrading, ComponentTrigger::DegradeCompleted, ComponentState::Degraded),
        (ComponentState::Degraded, ComponentTrigger::Resume, ComponentState::Resuming),
    ]
}

/// The state behind a state and a trigger, for a component.
pub open spec fn component_next(s: ComponentState, t: ComponentTrigger) -> Option<ComponentState> {
    match (s, t) {
        (ComponentState::PreInitialized, ComponentTrigger::Initialize) => Some(
            ComponentState::Initialized,
        ),
        (ComponentState::Initialized, ComponentTrigger::Start) => Some(ComponentState::Starting),
        (ComponentState::Starting, ComponentTrigger::StartCompleted) => Some(
            ComponentState::Running,
        ),
        (ComponentState::Running, ComponentTrigger::Stop) => Some(ComponentState::Stopping),
        (ComponentState::Stopping, ComponentTrigger::StopCompleted) => Some(
            ComponentState::Stopped,
        ),
        (ComponentState::Ready, ComponentTrigger::Reset) => Some(ComponentState::Resetting),
        (ComponentState::Resetting, ComponentTrigger::ResetCompleted) => Some(
            ComponentState::Ready,
        ),
        (ComponentState::Stopped, ComponentTrigger::Resume) => Some(ComponentState::Resuming),
        (ComponentState::Resuming, ComponentTrigger::ResumeCompleted) => Some(
            ComponentState::Ready,
        ),
        (ComponentState::Ready, ComponentTrigger::Dispose) => Some(ComponentState::Disposing),
        (ComponentState::Disposing, ComponentTrigger::DisposeCompleted) => Some(
            ComponentState::Disposed,
        ),
        (ComponentState::Running, ComponentTrigger::Fault) => Some(ComponentState::Faulting),
        (ComponentState::Faulting, ComponentTrigger::FaultCompleted) => Some(
            ComponentState::Faulted,
        ),
        (ComponentState::Running, ComponentTrigger::Degrade) => Some(ComponentState::Degrading),
        (ComponentState::Degrading, ComponentTrigger::DegradeCompleted) => Some(
            ComponentState::Degraded,
        ),
        (ComponentState::Degraded, ComponentTrigger::Resume) => Some(ComponentState::Resuming),
        _ => None,
    }
}

/// The table of a component gives `component_next`.
pub proof fn component_table_gives_next(s: ComponentState, t: ComponentTrigger)
    ensures
        successor(component_table(), s, t) == component_next(s, t),
{
    reveal_with_fuel(row_from, 17);
}

/// Nothing leaves a disposed or a faulted component.
pub proof fn ended_stays_ended(s: ComponentState, t: ComponentTrigger)
    requires
        s is Disposed || s is Faulted,
    ensures
        successor(component_table(), s, t) is None,
{
    component_table_gives_next(s, t);
}

/// A component is taken through its life: it is initialized and started, and runs; it is stopped,
/// resumed and ready; it is reset and is ready again; it is disposed of. A running one may fail, or
/// be degraded and resumed.
pub proof fn component_goes_through_its_life()
    ensures
        ({
            let next = |s: ComponentState, t: ComponentTrigger| component_next(s, t)->0;
            let running = next(
                next(
                    next(ComponentState::PreInitialized, ComponentTrigger::Initialize),
                    ComponentTrigger::Start,
                ),
                ComponentTrigger::StartCompleted,
            );
            let stopped = next(
                next(running, ComponentTrigger::Stop),
                ComponentTrigger::StopCompleted,
            );
            let ready = next(
                next(stopped, ComponentTrigger::Resume),
                ComponentTrigger::ResumeCompleted,
            );
            let degraded = next(
                next(running, ComponentTrigger::Degrade),
                ComponentTrigger::DegradeCompleted,
            );
            &&& running is Running
            &&& stopped is Stopped
            &&& ready is Ready
            &&& next(next(ready, ComponentTrigger::Reset), ComponentTrigger::ResetCompleted)
                is Ready
            &&& next(next(ready, ComponentTrigger::Dispose), ComponentTrigger::DisposeCompleted)
                is Disposed
            &&& next(next(running, ComponentTrigger::Fault), ComponentTrigger::FaultCompleted)
                is Faulted
            &&& degraded is Degraded
            &&& next(next(degraded, ComponentTrigger::Resume), ComponentTrigger::ResumeCompleted)
                is Ready
        }),
{
}

/// Each trigger is taken in the states that it is for, and in no other: a completion only in the
/// state that is passed through.
pub proof fn triggers_are_taken_where_they_belong(s: ComponentState, t: ComponentTrigger)
    ensures
        component_next(s, t) is Some <==> match t {
            ComponentTrigger::Initialize => s is PreInitialized,
            ComponentTrigger::Start => s is Initialized,
            ComponentTrigger::StartCompleted => s is Starting,
            ComponentTrigger::Stop => s is Running,
            ComponentTrigger::StopCompleted => s is Stopping,
            ComponentTrigger::Reset => s is Ready,
            ComponentTrigger::ResetCompleted => s is Resetting,
            ComponentTrigger::Resume => s is Stopped || s is Degraded,
            ComponentTrigger::ResumeCompleted => s is Resuming,
            ComponentTrigger::Dispose => s is Ready,
            ComponentTrigger::DisposeCompleted => s is Disposing,
            ComponentTrigger::Fault => s is Running,
            ComponentTrigger::FaultCompleted => s is Faulting,
            ComponentTrigger::Degrade => s is Running,
            ComponentTrigger::DegradeCompleted => s is Degrading,
        },
{
}

/// A trigger leads to the state that it is named after, from wherever it is taken.
pub proof fn trigger_says_where_it_leads(s: ComponentState, t: ComponentTrigger)
    ensures
        component_next(s, t) matches Some(n) ==> match t {
            ComponentTrigger::Initialize => n is Initialized,
            ComponentTrigger::Start => n is Starting,
            ComponentTrigger::StartCompleted => n is Running,
            ComponentTrigger::Stop => n is Stopping,
            ComponentTrigger::StopCompleted => n is Stopped,
            ComponentTrigger::Reset => n is Resetting,
            ComponentTrigger::ResetCompleted => n is Ready,
            ComponentTrigger::Resume => n is Resuming,
            ComponentTrigger::ResumeCompleted => n is Ready,
            ComponentTrigger::Dispose => n is Disposing,
            ComponentTrigger::DisposeCompleted => n is Disposed,
            ComponentTrigger::Fault => n is Faulting,
            ComponentTrigger::FaultCompleted => n is Faulted,
            ComponentTrigger::Degrade => n is Degrading,
            ComponentTrigger::DegradeCompleted => n is Degraded,
        },
{
}

} // verus!
