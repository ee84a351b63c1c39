use discretionary_engine::component::{Component, ComponentState, ComponentTrigger};
use discretionary_engine::routing::RoutingHub;
use ComponentState as CS;
use ComponentTrigger as CT;

#[test]
fn initialize_makes_ready() {
    let mut s = ComponentState::default();
    assert_eq!(s, ComponentState::PreInitialized);
    let r = s.transition(ComponentTrigger::Initialize);
    assert_eq!(r, ComponentState::Ready);
    assert_eq!(s, ComponentState::Ready);
}

#[test]
fn next_state_refuses_invalid_triggers() {
    assert_eq!(ComponentState::Ready.next_state(ComponentTrigger::StopCompleted), None);
    assert_eq!(ComponentState::Disposed.next_state(ComponentTrigger::Reset), None);
    assert_eq!(ComponentState::Faulted.next_state(ComponentTrigger::Initialize), None);
    assert_eq!(ComponentState::Running.next_state(ComponentTrigger::Initialize), None);
    assert_eq!(ComponentState::Running.next_state(ComponentTrigger::Degrade), Some(ComponentState::Degrading));
    assert_eq!(ComponentState::Degraded.next_state(ComponentTrigger::Resume), Some(ComponentState::Resuming));
}

#[test]
fn whole_transition_table() {
    let allowed = [
        (CS::PreInitialized, CT::Initialize, CS::Ready),
        (CS::Ready, CT::Reset, CS::Resetting),
        (CS::Ready, CT::Start, CS::Starting),
        (CS::Ready, CT::Dispose, CS::Disposing),
        (CS::Resetting, CT::ResetCompleted, CS::Ready),
        (CS::Starting, CT::StartCompleted, CS::Running),
        (CS::Starting, CT::Stop, CS::Stopping),
        (CS::Starting, CT::Fault, CS::Faulting),
        (CS::Running, CT::Stop, CS::Stopping),
        (CS::Running, CT::Degrade, CS::Degrading),
        (CS::Running, CT::Fault, CS::Faulting),
        (CS::Resuming, CT::Stop, CS::Stopping),
        (CS::Resuming, CT::ResumeCompleted, CS::Running),
        (CS::Resuming, CT::Fault, CS::Faulting),
        (CS::Stopping, CT::StopCompleted, CS::Stopped),
        (CS::Stopping, CT::Fault, CS::Faulting),
        (CS::Stopped, CT::Reset, CS::Resetting),
        (CS::Stopped, CT::Resume, CS::Resuming),
        (CS::Stopped, CT::Dispose, CS::Disposing),
        (CS::Stopped, CT::Fault, CS::Faulting),
        (CS::Degrading, CT::DegradeCompleted, CS::Degraded),
        (CS::Degraded, CT::Resume, CS::Resuming),
        (CS::Degraded, CT::Stop, CS::Stopping),
        (CS::Degraded, CT::Fault, CS::Faulting),
        (CS::Disposing, CT::DisposeCompleted, CS::Disposed),
        (CS::Faulting, CT::FaultCompleted, CS::Faulted),
    ];
    for (from, trigger, to) in allowed {
        let mut s = from;
        assert_eq!(s.transition(trigger), to);
        assert_eq!(s, to);
    }
    let states = [
        CS::PreInitialized, CS::Ready, CS::Starting, CS::Running, CS::Stopping, CS::Stopped, CS::Resuming,
        CS::Resetting, CS::Disposing, CS::Disposed, CS::Degrading, CS::Degraded, CS::Faulting, CS::Faulted,
    ];
    let triggers = [
        CT::Initialize, CT::Start, CT::StartCompleted, CT::Stop, CT::StopCompleted, CT::Resume, CT::ResumeCompleted,
        CT::Reset, CT::ResetCompleted, CT::Dispose, CT::DisposeCompleted, CT::Degrade, CT::DegradeCompleted,
        CT::Fault, CT::FaultCompleted,
    ];
    let mut n_allowed = 0;
    for s in states {
        for t in triggers {
            if s.next_state(t).is_some() {
                n_allowed += 1;
            }
        }
    }
    assert_eq!(n_allowed, allowed.len());
}

#[test]
fn names_are_displayed() {
    assert_eq!(ComponentState::PreInitialized.name(), "PreInitialized");
    assert_eq!(ComponentState::Faulted.name(), "Faulted");
    assert_eq!(ComponentTrigger::DegradeCompleted.name(), "DegradeCompleted");
    assert_eq!(ComponentTrigger::Start.name(), "Start");
}

#[test]
fn lifecycle_operations_on_a_component() {
    let mut hub: RoutingHub<(), ()> = RoutingHub::default();
    assert_eq!(hub.state(), ComponentState::Ready);
    hub.start();
    assert_eq!(hub.state(), ComponentState::Running);
    hub.degrade();
    assert_eq!(hub.state(), ComponentState::Degraded);
    hub.resume();
    assert_eq!(hub.state(), ComponentState::Running);
    hub.stop();
    assert_eq!(hub.state(), ComponentState::Stopped);
    hub.reset();
    assert_eq!(hub.state(), ComponentState::Ready);
    hub.dispose();
    assert_eq!(hub.state(), ComponentState::Disposed);
}

#[test]
fn fault_from_stopped() {
    let mut hub: RoutingHub<(), ()> = RoutingHub::default();
    hub.start();
    hub.stop();
    hub.fault();
    assert_eq!(hub.state(), ComponentState::Faulted);
}

#[test]
fn final_states_accept_nothing_concretely() {
    let triggers = [
        ComponentTrigger::Initialize,
        ComponentTrigger::Start,
        ComponentTrigger::Stop,
        ComponentTrigger::Reset,
        ComponentTrigger::Fault,
        ComponentTrigger::Dispose,
    ];
    for t in triggers {
        assert_eq!(ComponentState::Disposed.next_state(t), None);
        assert_eq!(ComponentState::Faulted.next_state(t), None);
    }
}
