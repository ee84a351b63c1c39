//! Lifecycle state machine for system components.
use vstd::prelude::*;

verus! {

/// The state of a component within the system.
#[derive(Clone, Copy, Debug, PartialEq, Eq, Hash, Structural)]
pub enum ComponentState {
    PreInitialized,
    Ready,
    Starting,
    Running,
    Stopping,
    Stopped,
    Resuming,
    Resetting,
    Disposing,
    Disposed,
    Degrading,
    Degraded,
    Faulting,
    Faulted,
}

/// A trigger condition for a component state transition.
#[derive(Clone, Copy, Debug, PartialEq, Eq, Hash, Structural)]
pub enum ComponentTrigger {
    Initialize,
    Start,
    StartCompleted,
    Stop,
    StopCompleted,
    Resume,
    ResumeCompleted,
    Reset,
    ResetCompleted,
    Dispose,
    DisposeCompleted,
    Degrade,
    DegradeCompleted,
    Fault,
    FaultCompleted,
}

impl ComponentState {
    /// The transition table: the state that `trigger` leads to from `self`,
    /// or `None` where the trigger is not allowed in this state.
    pub open spec fn successor(self, trigger: ComponentTrigger) -> Option<ComponentState> {
        match (self, trigger) {
            (ComponentState::PreInitialized, ComponentTrigger::Initialize) => Some(ComponentState::Ready),
            (ComponentState::Ready, ComponentTrigger::Reset) => Some(ComponentState::Resetting),
            (ComponentState::Ready, ComponentTrigger::Start) => Some(ComponentState::Starting),
            (ComponentState::Ready, ComponentTrigger::Dispose) => Some(ComponentState::Disposing),
            (ComponentState::Resetting, ComponentTrigger::ResetCompleted) => Some(ComponentState::Ready),
            (ComponentState::Starting, ComponentTrigger::StartCompleted) => Some(ComponentState::Running),
            (ComponentState::Starting, ComponentTrigger::Stop) => Some(ComponentState::Stopping),
            (ComponentState::Starting, ComponentTrigger::Fault) => Some(ComponentState::Faulting),
            (ComponentState::Running, ComponentTrigger::Stop) => Some(ComponentState::Stopping),
            (ComponentState::Running, ComponentTrigger::Degrade) => Some(ComponentState::Degrading),
            (ComponentState::Running, ComponentTrigger::Fault) => Some(ComponentState::Faulting),
            (ComponentState::Resuming, ComponentTrigger::Stop) => Some(ComponentState::Stopping),
            (ComponentState::Resuming, ComponentTrigger::ResumeCompleted) => Some(ComponentState::Running),
            (ComponentState::Resuming, ComponentTrigger::Fault) => Some(ComponentState::Faulting),
            (ComponentState::Stopping, ComponentTrigger::StopCompleted) => Some(ComponentState::Stopped),
            (ComponentState::Stopping, ComponentTrigger::Fault) => Some(ComponentState::Faulting),
            (ComponentState::Stopped, ComponentTrigger::Reset) => Some(ComponentState::Resetting),
            (ComponentState::Stopped, ComponentTrigger::Resume) => Some(ComponentState::Resuming),
            (ComponentState::Stopped, ComponentTrigger::Dispose) => Some(ComponentState::Disposing),
            (ComponentState::Stopped, ComponentTrigger::Fault) => Some(ComponentState::Faulting),
            (ComponentState::Degrading, ComponentTrigger::DegradeCompleted) => Some(ComponentState::Degraded),
            (ComponentState::Degraded, ComponentTrigger::Resume) => Some(ComponentState::Resuming),
            (ComponentState::Degraded, ComponentTrigger::Stop) => Some(ComponentState::Stopping),
            (ComponentState::Degraded, ComponentTrigger::Fault) => Some(ComponentState::Faulting),
            (ComponentState::Disposing, ComponentTrigger::DisposeCompleted) => Some(ComponentState::Disposed),
            (ComponentState::Faulting, ComponentTrigger::FaultCompleted) => Some(ComponentState::Faulted),
            _ => None,
        }
    }

    /// Whether `trigger` is allowed in this state.
    pub open spec fn accepts(self, trigger: ComponentTrigger) -> bool {
        self.successor(trigger) is Some
    }

    /// Looks up the transition table: `Some(next)` where `trigger` is allowed
    /// in this state, `None` where it is not.
    pub fn next_state(&self, trigger: ComponentTrigger) -> (r: Option<ComponentState>)
        ensures
            r == self.successor(trigger),
    {
        match (*self, trigger) {
            (ComponentState::PreInitialized, ComponentTrigger::Initialize) => Some(ComponentState::Ready),
            (ComponentState::Ready, ComponentTrigger::Reset) => Some(ComponentState::Resetting),
            (ComponentState::Ready, ComponentTrigger::Start) => Some(ComponentState::Starting),
            (ComponentState::Ready, ComponentTrigger::Dispose) => Some(ComponentState::Disposing),
            (ComponentState::Resetting, ComponentTrigger::ResetCompleted) => Some(ComponentState::Ready),
            (ComponentState::Starting, ComponentTrigger::StartCompleted) => Some(ComponentState::Running),
            (ComponentState::Starting, ComponentTrigger::Stop) => Some(ComponentState::Stopping),
            (ComponentState::Starting, ComponentTrigger::Fault) => Some(ComponentState::Faulting),
            (ComponentState::Running, ComponentTrigger::Stop) => Some(ComponentState::Stopping),
            (ComponentState::Running, ComponentTrigger::Degrade) => Some(ComponentState::Degrading),
            (ComponentState::Running, ComponentTrigger::Fault) => Some(ComponentState::Faulting),
            (ComponentState::Resuming, ComponentTrigger::Stop) => Some(ComponentState::Stopping),
            (ComponentState::Resuming, ComponentTrigger::ResumeCompleted) => Some(ComponentState::Running),
            (ComponentState::Resuming, ComponentTrigger::Fault) => Some(ComponentState::Faulting),
            (ComponentState::Stopping, ComponentTrigger::StopCompleted) => Some(ComponentState::Stopped),
            (ComponentState::Stopping, ComponentTrigger::Fault) => Some(ComponentState::Faulting),
            (ComponentState::Stopped, ComponentTrigger::Reset) => Some(ComponentState::Resetting),
            (ComponentState::Stopped, ComponentTrigger::Resume) => Some(ComponentState::Resuming),
            (ComponentState::Stopped, ComponentTrigger::Dispose) => Some(ComponentState::Disposing),
            (ComponentState::Stopped, ComponentTrigger::Fault) => Some(ComponentState::Faulting),
            (ComponentState::Degrading, ComponentTrigger::DegradeCompleted) => Some(ComponentState::Degraded),
            (ComponentState::Degraded, ComponentTrigger::Resume) => Some(ComponentState::Resuming),
            (ComponentState::Degraded, ComponentTrigger::Stop) => Some(ComponentState::Stopping),
            (ComponentState::Degraded, ComponentTrigger::Fault) => Some(ComponentState::Faulting),
            (ComponentState::Disposing, ComponentTrigger::DisposeCompleted) => Some(ComponentState::Disposed),
            (ComponentState::Faulting, ComponentTrigger::FaultCompleted) => Some(ComponentState::Faulted),
            _ => None,
        }
    }

    /// Transitions the state machine with the given `trigger` and returns the new state.
    /// The trigger must be allowed in the current state.
    pub fn transition(&mut self, trigger: ComponentTrigger) -> (r: ComponentState)
        requires
            old(self).accepts(trigger),
        ensures
            *final(self) == old(self).successor(trigger).unwrap(),
            r == *final(self),
    {
        let new_state = match self.next_state(trigger) {
            Some(s) => s,
            None => {
                proof {
                    assert(false);
                }
                *self
            },
        };
        *self = new_state;
        new_state
    }
}


impl Default for ComponentState {
    fn default() -> (r: ComponentState)
        ensures
            r == ComponentState::PreInitialized,
    {
        ComponentState::PreInitialized
    }
}

impl ComponentState {
    /// The state's name as it is displayed.
    pub open spec fn display_name(self) -> Seq<char> {
        match self {
            ComponentState::PreInitialized => "PreInitialized"@,
            ComponentState::Ready => "Ready"@,
            ComponentState::Starting => "Starting"@,
            ComponentState::Running => "Running"@,
            ComponentState::Stopping => "Stopping"@,
            ComponentState::Stopped => "Stopped"@,
            ComponentState::Resuming => "Resuming"@,
            ComponentState::Resetting => "Resetting"@,
            ComponentState::Disposing => "Disposing"@,
            ComponentState::Disposed => "Disposed"@,
            ComponentState::Degrading => "Degrading"@,
            ComponentState::Degraded => "Degraded"@,
            ComponentState::Faulting => "Faulting"@,
            ComponentState::Faulted => "Faulted"@,
        }
    }

    /// The state's display name.
    pub fn name(&self) -> (r: &'static str)
        ensures
            r@ == self.display_name(),
    {
        match self {
            ComponentState::PreInitialized => "PreInitialized",
            ComponentState::Ready => "Ready",
            ComponentState::Starting => "Starting",
            ComponentState::Running => "Running",
            ComponentState::Stopping => "Stopping",
            ComponentState::Stopped => "Stopped",
            ComponentState::Resuming => "Resuming",
            ComponentState::Resetting => "Resetting",
            ComponentState::Disposing => "Disposing",
            ComponentState::Disposed => "Disposed",
            ComponentState::Degrading => "Degrading",
            ComponentState::Degraded => "Degraded",
            ComponentState::Faulting => "Faulting",
            ComponentState::Faulted => "Faulted",
        }
    }
}

impl ComponentTrigger {
    /// The trigger's name as it is displayed.
    pub open spec fn display_name(self) -> Seq<char> {
        match self {
            ComponentTrigger::Initialize => "Initialize"@,
            ComponentTrigger::Start => "Start"@,
            ComponentTrigger::StartCompleted => "StartCompleted"@,
            ComponentTrigger::Stop => "Stop"@,
            ComponentTrigger::StopCompleted => "StopCompleted"@,
            ComponentTrigger::Resume => "Resume"@,
            ComponentTrigger::ResumeCompleted => "ResumeCompleted"@,
            ComponentTrigger::Reset => "Reset"@,
            ComponentTrigger::ResetCompleted => "ResetCompleted"@,
            ComponentTrigger::Dispose => "Dispose"@,
            ComponentTrigger::DisposeCompleted => "DisposeCompleted"@,
            ComponentTrigger::Degrade => "Degrade"@,
            ComponentTrigger::DegradeCompleted => "DegradeCompleted"@,
            ComponentTrigger::Fault => "Fault"@,
            ComponentTrigger::FaultCompleted => "FaultCompleted"@,
        }
    }

    /// The trigger's display name.
    pub fn name(&self) -> (r: &'static str)
        ensures
            r@ == self.display_name(),
    {
        match self {
            ComponentTrigger::Initialize => "Initialize",
            ComponentTrigger::Start => "Start",
            ComponentTrigger::StartCompleted => "StartCompleted",
            ComponentTrigger::Stop => "Stop",
            ComponentTrigger::StopCompleted => "StopCompleted",
            ComponentTrigger::Resume => "Resume",
            ComponentTrigger::ResumeCompleted => "ResumeCompleted",
            ComponentTrigger::Reset => "Reset",
            ComponentTrigger::ResetCompleted => "ResetCompleted",
            ComponentTrigger::Dispose => "Dispose",
            ComponentTrigger::DisposeCompleted => "DisposeCompleted",
            ComponentTrigger::Degrade => "Degrade",
            ComponentTrigger::DegradeCompleted => "DegradeCompleted",
            ComponentTrigger::Fault => "Fault",
            ComponentTrigger::FaultCompleted => "FaultCompleted",
        }
    }
}

/// The state reached from `s` by `first` followed by `second`.
pub open spec fn after_two(s: ComponentState, first: ComponentTrigger, second: ComponentTrigger) -> ComponentState {
    s.successor(first).unwrap().successor(second).unwrap()
}

/// Whether `first` is allowed in `s` and `second` is allowed in the state it leads to.
pub open spec fn accepts_two(s: ComponentState, first: ComponentTrigger, second: ComponentTrigger) -> bool {
    s.accepts(first) && s.successor(first).unwrap().accepts(second)
}

/// Components have state and lifecycle management capabilities.
///
/// Each lifecycle operation fires its trigger, runs the matching hook, and then
/// fires the trigger that completes it.
pub trait Component {
    /// The lifecycle state that `state` reports.
    spec fn lifecycle(&self) -> ComponentState;

    fn state(&self) -> (s: ComponentState)
        ensures
            s == self.lifecycle(),
    ;

    fn transition_state(&mut self, trigger: ComponentTrigger)
        requires
            old(self).lifecycle().accepts(trigger),
        ensures
            final(self).lifecycle() == old(self).lifecycle().successor(trigger).unwrap(),
    ;

    fn start(&mut self)
        requires
            accepts_two(old(self).lifecycle(), ComponentTrigger::Start, ComponentTrigger::StartCompleted),
        ensures
            final(self).lifecycle() == after_two(old(self).lifecycle(), ComponentTrigger::Start, ComponentTrigger::StartCompleted),
    {
        self.transition_state(ComponentTrigger::Start);
        self.on_start();
        self.transition_state(ComponentTrigger::StartCompleted);
    }

    fn stop(&mut self)
        requires
            accepts_two(old(self).lifecycle(), ComponentTrigger::Stop, ComponentTrigger::StopCompleted),
        ensures
            final(self).lifecycle() == after_two(old(self).lifecycle(), ComponentTrigger::Stop, ComponentTrigger::StopCompleted),
    {
        self.transition_state(ComponentTrigger::Stop);
        self.on_stop();
        self.transition_state(ComponentTrigger::StopCompleted);
    }

    fn resume(&mut self)
        requires
            accepts_two(old(self).lifecycle(), ComponentTrigger::Resume, ComponentTrigger::ResumeCompleted),
        ensures
            final(self).lifecycle() == after_two(old(self).lifecycle(), ComponentTrigger::Resume, ComponentTrigger::ResumeCompleted),
    {
        self.transition_state(ComponentTrigger::Resume);
        self.on_resume();
        self.transition_state(ComponentTrigger::ResumeCompleted);
    }

    fn reset(&mut self)
        requires
            accepts_two(old(self).lifecycle(), ComponentTrigger::Reset, ComponentTrigger::ResetCompleted),
        ensures
            final(self).lifecycle() == after_two(old(self).lifecycle(), ComponentTrigger::Reset, ComponentTrigger::ResetCompleted),
    {
        self.transition_state(ComponentTrigger::Reset);
        self.on_reset();
        self.transition_state(ComponentTrigger::ResetCompleted);
    }

    fn degrade(&mut self)
        requires
            accepts_two(old(self).lifecycle(), ComponentTrigger::Degrade, ComponentTrigger::DegradeCompleted),
        ensures
            final(self).lifecycle() == after_two(old(self).lifecycle(), ComponentTrigger::Degrade, ComponentTrigger::DegradeCompleted),
    {
        self.transition_state(ComponentTrigger::Degrade);
        self.on_degrade();
        self.transition_state(ComponentTrigger::DegradeCompleted);
    }

    fn fault(&mut self)
        requires
            accepts_two(old(self).lifecycle(), ComponentTrigger::Fault, ComponentTrigger::FaultCompleted),
        ensures
            final(self).lifecycle() == after_two(old(self).lifecycle(), ComponentTrigger::Fault, ComponentTrigger::FaultCompleted),
    {
        self.transition_state(ComponentTrigger::Fault);
        self.on_fault();
        self.transition_state(ComponentTrigger::FaultCompleted);
    }

    fn dispose(&mut self)
        requires
            accepts_two(old(self).lifecycle(), ComponentTrigger::Dispose, ComponentTrigger::DisposeCompleted),
        ensures
            final(self).lifecycle() == after_two(old(self).lifecycle(), ComponentTrigger::Dispose, ComponentTrigger::DisposeCompleted),
    {
        self.transition_state(ComponentTrigger::Dispose);
        self.on_dispose();
        self.transition_state(ComponentTrigger::DisposeCompleted);
    }

    fn on_start(&mut self)
        ensures
            final(self).lifecycle() == old(self).lifecycle(),
    {
    }

    fn on_stop(&mut self)
        ensures
            final(self).lifecycle() == old(self).lifecycle(),
    {
    }

    fn on_resume(&mut self)
        ensures
            final(self).lifecycle() == old(self).lifecycle(),
    {
    }

    fn on_reset(&mut self)
        ensures
            final(self).lifecycle() == old(self).lifecycle(),
    {
    }

    fn on_degrade(&mut self)
        ensures
            final(self).lifecycle() == old(self).lifecycle(),
    {
    }

    fn on_fault(&mut self)
        ensures
            final(self).lifecycle() == old(self).lifecycle(),
    {
    }

    fn on_dispose(&mut self)
        ensures
            final(self).lifecycle() == old(self).lifecycle(),
    {
    }
}


/// Each lifecycle operation is allowed in exactly these states and always ends in
/// the same state: `start` takes a ready component to running; `stop` takes a
/// starting, running, resuming or degraded one to stopped; `resume` takes a
/// stopped or degraded one to running; `reset` takes a ready or stopped one back
/// to ready; `degrade` takes a running one to degraded; `fault` takes any active
/// or stopped one to faulted; `dispose` takes a ready or stopped one to disposed.
pub proof fn lifecycle_operations(s: ComponentState)
    ensures
        accepts_two(s, ComponentTrigger::Start, ComponentTrigger::StartCompleted) <==> s == ComponentState::Ready,
        accepts_two(s, ComponentTrigger::Start, ComponentTrigger::StartCompleted)
            ==> after_two(s, ComponentTrigger::Start, ComponentTrigger::StartCompleted) == ComponentState::Running,
        accepts_two(s, ComponentTrigger::Stop, ComponentTrigger::StopCompleted) <==> (s == ComponentState::Starting
            || s == ComponentState::Running || s == ComponentState::Resuming || s == ComponentState::Degraded),
        accepts_two(s, ComponentTrigger::Stop, ComponentTrigger::StopCompleted)
            ==> after_two(s, ComponentTrigger::Stop, ComponentTrigger::StopCompleted) == ComponentState::Stopped,
        accepts_two(s, ComponentTrigger::Resume, ComponentTrigger::ResumeCompleted) <==> (s == ComponentState::Stopped
            || s == ComponentState::Degraded),
        accepts_two(s, ComponentTrigger::Resume, ComponentTrigger::ResumeCompleted)
            ==> after_two(s, ComponentTrigger::Resume, ComponentTrigger::ResumeCompleted) == ComponentState::Running,
        accepts_two(s, ComponentTrigger::Reset, ComponentTrigger::ResetCompleted) <==> (s == ComponentState::Ready
            || s == ComponentState::Stopped),
        accepts_two(s, ComponentTrigger::Reset, ComponentTrigger::ResetCompleted)
            ==> after_two(s, ComponentTrigger::Reset, ComponentTrigger::ResetCompleted) == ComponentState::Ready,
        accepts_two(s, ComponentTrigger::Degrade, ComponentTrigger::DegradeCompleted) <==> s == ComponentState::Running,
        accepts_two(s, ComponentTrigger::Degrade, ComponentTrigger::DegradeCompleted)
            ==> after_two(s, ComponentTrigger::Degrade, ComponentTrigger::DegradeCompleted) == ComponentState::Degraded,
        accepts_two(s, ComponentTrigger::Fault, ComponentTrigger::FaultCompleted) <==> (s == ComponentState::Starting
            || s == ComponentState::Running || s == ComponentState::Resuming || s == ComponentState::Stopping
            || s == ComponentState::Stopped || s == ComponentState::Degraded),
        accepts_two(s, ComponentTrigger::Fault, ComponentTrigger::FaultCompleted)
            ==> after_two(s, ComponentTrigger::Fault, ComponentTrigger::FaultCompleted) == ComponentState::Faulted,
        accepts_two(s, ComponentTrigger::Dispose, ComponentTrigger::DisposeCompleted) <==> (s == ComponentState::Ready
            || s == ComponentState::Stopped),
        accepts_two(s, ComponentTrigger::Dispose, ComponentTrigger::DisposeCompleted)
            ==> after_two(s, ComponentTrigger::Dispose, ComponentTrigger::DisposeCompleted) == ComponentState::Disposed,
{
}

/// Disposed and faulted components are final: no trigger is allowed in them.
pub proof fn final_states_accept_nothing(t: ComponentTrigger)
    ensures
        !ComponentState::Disposed.accepts(t),
        !ComponentState::Faulted.accepts(t),
{
}

/// Initialization happens once: `Initialize` is allowed only before
/// initialization, and no transition leads back to the uninitialized state.
pub proof fn initialization_happens_once(s: ComponentState, t: ComponentTrigger)
    ensures
        s.accepts(ComponentTrigger::Initialize) <==> s == ComponentState::PreInitialized,
        s.accepts(t) ==> s.successor(t).unwrap() != ComponentState::PreInitialized,
{
}

/// Every completing trigger is allowed only in the in-progress state that its
/// operation started, and it always ends that operation in the same state.
pub proof fn completions_finish_their_operation(s: ComponentState)
    ensures
        s.accepts(ComponentTrigger::StartCompleted) <==> s == ComponentState::Starting,
        s.accepts(ComponentTrigger::StopCompleted) <==> s == ComponentState::Stopping,
        s.accepts(ComponentTrigger::ResumeCompleted) <==> s == ComponentState::Resuming,
        s.accepts(ComponentTrigger::ResetCompleted) <==> s == ComponentState::Resetting,
        s.accepts(ComponentTrigger::DegradeCompleted) <==> s == ComponentState::Degrading,
        s.accepts(ComponentTrigger::FaultCompleted) <==> s == ComponentState::Faulting,
        s.accepts(ComponentTrigger::DisposeCompleted) <==> s == ComponentState::Disposing,
{
}

} // verus!
