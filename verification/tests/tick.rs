use std::sync::mpsc::channel;

use colony::structs::ChanError;
use colony::tick::{Error, Tick, TickManager, TickThreadEvent, TickThreadMsg};
use colony::timecontrols::{tick_length_of, TimeControls, TimeSpeed};
use colony::environment_thread::LocalEntityData;
use colony::inspector::{Inspector, InspectorFocus};
use colony::structs::Position;
use colony::frame::UIRect;

#[test]
fn tick_handle_sends_requests() {
    let (tx, rx) = channel();
    let mut tick = Tick::new(tx);
    let _client = tick.register().unwrap();
    assert!(matches!(rx.recv().unwrap(), TickThreadMsg::Register(_)));
    tick.set_speed(250).unwrap();
    assert!(matches!(rx.recv().unwrap(), TickThreadMsg::SetSpeed(250)));
    let mut t2 = tick.clone();
    let _constraint = t2.init_constraint().unwrap();
    assert!(matches!(rx.recv().unwrap(), TickThreadMsg::Constrain(_)));
}

#[test]
fn tick_handle_reports_a_gone_thread() {
    let (tx, rx) = channel();
    drop(rx);
    let mut tick = Tick::new(tx);
    assert!(matches!(tick.register(), Err(Error::SendError("TickThreadMsg::Register"))));
    assert!(matches!(tick.set_speed(1), Err(Error::SendError("TickThreadMsg::SetSpeed"))));
    assert!(matches!(tick.init_constraint(), Err(Error::SendError("TickThreadMsg::Constrain"))));
    assert!(matches!(tick.get_tick_length(), Err(Error::SendError("TickThreadMsg::GetTickLength"))));
}

#[test]
fn tick_manager_registers_and_emits() {
    let mut m = TickManager::new();
    assert_eq!(m.tick_avg(), 500);
    let (c1, r1) = channel();
    let (c2, r2) = channel();
    assert!(!m.handle_msg(Some(TickThreadMsg::Register(c1))));
    assert!(!m.handle_msg(Some(TickThreadMsg::Register(c2))));
    let (ltx, lrx) = channel();
    assert!(!m.handle_msg(Some(TickThreadMsg::GetTickLength(ltx))));
    assert_eq!(lrx.recv().unwrap(), 500);
    m.emit(TickThreadEvent::Tick);
    assert_eq!(r1.recv().unwrap(), TickThreadEvent::Tick);
    assert_eq!(r2.recv().unwrap(), TickThreadEvent::Tick);
    assert!(!m.handle_msg(Some(TickThreadMsg::SetSpeed(10))));
    assert!(m.handle_msg(Some(TickThreadMsg::Exit)));
    assert!(m.handle_msg(None));
}

#[test]
fn tick_manager_waits_on_its_constraint() {
    let mut m = TickManager::new();
    let (ctx, crx) = channel();
    assert!(!m.handle_msg(Some(TickThreadMsg::Constrain(crx))));
    ctx.send(()).unwrap();
    m.emit(TickThreadEvent::Tick);
    // a constraint whose sender is gone is dropped, and ticks go on
    drop(ctx);
    m.emit(TickThreadEvent::Tick);
    m.emit(TickThreadEvent::Tick);
}

#[test]
fn tick_errors_from_channel_errors() {
    assert!(matches!(Error::from(ChanError::SendError("x")), Error::SendError("x")));
    assert!(matches!(Error::from(ChanError::RecvError("y")), Error::RecvError("y")));
}

#[test]
fn time_controls_speeds() {
    assert_eq!(tick_length_of(TimeSpeed::Paused), 0);
    assert_eq!(tick_length_of(TimeSpeed::Slow), 2500);
    assert_eq!(tick_length_of(TimeSpeed::Medium), 1000);
    assert_eq!(tick_length_of(TimeSpeed::Fast), 250);
    assert_eq!(tick_length_of(TimeSpeed::Unlimited), 1);
    let (tx, rx) = channel();
    let mut c = TimeControls::new(Tick::new(tx));
    assert_eq!(c.current_speed(), TimeSpeed::Medium);
    c.set_speed(TimeSpeed::Fast);
    assert_eq!(c.current_speed(), TimeSpeed::Fast);
    assert!(matches!(rx.recv().unwrap(), TickThreadMsg::SetSpeed(250)));
    drop(rx);
    c.set_speed(TimeSpeed::Paused);
    assert_eq!(c.current_speed(), TimeSpeed::Paused);
}

#[test]
fn inspector_closes() {
    let mut i = Inspector::new();
    assert_eq!(i.focus, InspectorFocus::Nothing);
    let e = LocalEntityData { id: 1, pos: Position { x: 0, y: 0 }, last_pos: Position { x: 0, y: 0 } };
    i.focus = InspectorFocus::Entity(e);
    i.shown(true);
    assert_eq!(i.focus, InspectorFocus::Entity(e));
    i.shown(false);
    assert_eq!(i.focus, InspectorFocus::Nothing);
}

#[test]
fn inspector_window_sits_bottom_right() {
    let mut i = Inspector::new();
    assert_eq!(i.window_area((640, 480)), None);
    i.focus = InspectorFocus::Entity(LocalEntityData { id: 3, pos: Position { x: 1, y: 2 }, last_pos: Position { x: 1, y: 2 } });
    assert_eq!(i.window_area((640, 480)), Some(UIRect { x: 250, y: 295, w: 380, h: 175 }));
    assert_eq!(i.window_area((100, 100)), Some(UIRect { x: -290, y: -85, w: 380, h: 175 }));
}

#[test]
fn tick_settle_constraint_drops_unsignalled() {
    let mut m = TickManager::new();
    let (ctx, crx) = channel::<()>();
    assert!(!m.handle_msg(Some(TickThreadMsg::Constrain(crx))));
    m.settle_constraint(true);
    ctx.send(()).unwrap();
    // the constraint is still there: this tick waits for the signal sent above
    m.emit(TickThreadEvent::Tick);
    m.settle_constraint(false);
    // no constraint any more: the tick does not wait, though the sender lives on
    m.emit(TickThreadEvent::Tick);
    drop(ctx);
}

#[test]
fn tick_set_speed_sends_one_request() {
    let (tx, rx) = channel();
    let mut t = Tick::new(tx);
    assert!(t.set_speed(250).is_ok());
    assert!(matches!(rx.try_recv(), Ok(TickThreadMsg::SetSpeed(250))));
    assert!(rx.try_recv().is_err());
}

#[test]
fn tick_register_pairs_the_channel() {
    let (tx, rx) = channel();
    let mut t = Tick::new(tx);
    let ticks = t.register().unwrap();
    match rx.try_recv() {
        Ok(TickThreadMsg::Register(client)) => {
            client.send(TickThreadEvent::Tick).unwrap();
            assert_eq!(ticks.recv().unwrap(), TickThreadEvent::Tick);
        }
        _ => panic!("a Register request must be sent"),
    }
    assert!(rx.try_recv().is_err());
}

#[test]
fn time_controls_fast_sends_250() {
    let (tx, rx) = channel();
    let mut tc = TimeControls::new(Tick::new(tx));
    tc.set_speed(TimeSpeed::Fast);
    assert!(matches!(rx.try_recv(), Ok(TickThreadMsg::SetSpeed(250))));
    assert!(rx.try_recv().is_err());
    assert_eq!(tc.current_speed(), TimeSpeed::Fast);
}

#[test]
fn tick_manager_answers_length_requests() {
    let mut m = TickManager::new();
    let (ltx, lrx) = channel();
    assert!(!m.handle_msg(Some(TickThreadMsg::GetTickLength(ltx))));
    assert_eq!(lrx.recv().unwrap(), 500);
    assert!(lrx.try_recv().is_err());
}
