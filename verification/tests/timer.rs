use colony::timer::{Timer, TimerManager, TimerMsgs, TimerInput, TimerAction, TimerEvents};
use std::time::Duration;

#[test]
fn timer_test() {
    let (timer, controller) = Timer::new();
    let _ = (timer, controller);
}

#[test]
fn timer_hands_out_its_ends_once() {
    let (mut timer, controller) = Timer::new();
    let ends = timer.take_ends();
    assert!(ends.is_some());
    assert!(timer.take_ends().is_none());
    let ends = ends.unwrap();
    controller.requests().send(TimerMsgs::Exit).unwrap();
    assert!(matches!(ends.requests.recv().unwrap(), TimerMsgs::Exit));
    ends.events.send(TimerEvents::Emit).unwrap();
    assert!(matches!(timer.events().recv().unwrap(), TimerEvents::Emit));
}

fn run(m: &mut TimerManager, inputs: &[TimerInput]) -> Vec<TimerAction> {
    inputs.iter().map(|i| m.handle(*i)).collect()
}

fn emits(actions: &[TimerAction]) -> usize {
    actions.iter().filter(|a| matches!(a, TimerAction::Emit)).count()
}

#[test]
fn timer_emit_finite_emits_count_times() {
    let d = Duration::from_millis(5);
    let mut m = TimerManager::new();
    assert!(matches!(m.action(), TimerAction::Receive));
    let mut inputs = vec![TimerInput::Message(TimerMsgs::EmitFinite(d, 3))];
    for _ in 0..3 {
        inputs.push(TimerInput::Slept);
        inputs.push(TimerInput::Emitted);
        inputs.push(TimerInput::Polled(false));
    }
    let acts = run(&mut m, &inputs);
    assert_eq!(emits(&acts), 3);
    assert!(matches!(acts.last().unwrap(), TimerAction::Receive));
    assert!(matches!(acts[0], TimerAction::Sleep(x) if x == d));
}

#[test]
fn timer_emit_once_does_not_poll() {
    let d = Duration::from_millis(1);
    let mut m = TimerManager::new();
    let acts = run(&mut m, &[TimerInput::Message(TimerMsgs::EmitOnce(d)), TimerInput::Slept, TimerInput::Emitted]);
    assert!(matches!(acts[0], TimerAction::Sleep(_)));
    assert!(matches!(acts[1], TimerAction::Emit));
    assert!(matches!(acts[2], TimerAction::Receive));
}

#[test]
fn timer_emit_finite_zero_emits_nothing() {
    let mut m = TimerManager::new();
    let a = m.handle(TimerInput::Message(TimerMsgs::EmitFinite(Duration::from_millis(1), 0)));
    assert!(matches!(a, TimerAction::Receive));
}

#[test]
fn timer_stop_request_ends_a_forever_run() {
    let d = Duration::from_millis(2);
    let mut m = TimerManager::new();
    let mut inputs = vec![TimerInput::Message(TimerMsgs::EmitForever(d))];
    for _ in 0..4 {
        inputs.extend([TimerInput::Slept, TimerInput::Emitted, TimerInput::Polled(false)]);
    }
    let acts = run(&mut m, &inputs);
    assert_eq!(emits(&acts), 4);
    assert!(matches!(acts.last().unwrap(), TimerAction::Sleep(_)));
    let acts = run(&mut m, &[TimerInput::Slept, TimerInput::Emitted, TimerInput::Polled(true)]);
    assert!(matches!(acts[2], TimerAction::Receive));
}

#[test]
fn timer_exit_and_closed_channel_stop() {
    let mut m = TimerManager::new();
    assert!(matches!(m.handle(TimerInput::Message(TimerMsgs::Exit)), TimerAction::Exit));
    assert!(matches!(m.action(), TimerAction::Exit));
    let mut m2 = TimerManager::new();
    assert!(matches!(m2.handle(TimerInput::Closed), TimerAction::Exit));
}

#[test]
fn timer_ignores_inputs_that_do_not_fit() {
    let mut m = TimerManager::new();
    assert!(matches!(m.handle(TimerInput::Slept), TimerAction::Receive));
    assert!(matches!(m.handle(TimerInput::Emitted), TimerAction::Receive));
}
