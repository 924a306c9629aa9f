use palette_hub::control::{Action, Dispatcher};
use palette_hub::observer::{App, Msg, Update};
use palette_hub::{
    Color, ControlMessage, Endpoint, Palette, PaletteControlMessage, PaletteStateChange,
    StateChange, Subscriber, SubscriberConfig, SubscriberControlMessage, SubscriberId,
    SubscriberStateChange,
};

fn rgb(red: f32, green: f32, blue: f32) -> Color {
    Color { red: red.to_bits(), green: green.to_bits(), blue: blue.to_bits() }
}

fn cfg(port: u16) -> SubscriberConfig {
    SubscriberConfig::Osc(Endpoint::V4 { ip: 0x7f00_0001, port })
}

fn added(id: u64, port: u16) -> Msg {
    Msg::HandleStateChange(StateChange::Subscriber(SubscriberStateChange::Added(Subscriber {
        id: SubscriberId(id),
        cfg: cfg(port),
    })))
}

fn removed(id: u64) -> Msg {
    Msg::HandleStateChange(StateChange::Subscriber(SubscriberStateChange::Removed(SubscriberId(id))))
}

/// Hands the observer every state change among the actions.
fn deliver(app: &mut App, actions: Vec<Action>) {
    for action in actions {
        if let Action::Broadcast(change) = action {
            let update = app.update(Msg::HandleStateChange(change));
            assert_eq!(update, Update { render: true, send: None });
        }
    }
}

fn shows(app: &App, dispatcher: &Dispatcher) {
    assert_eq!(app.palette().as_slice(), dispatcher.palette().colors());
    let subs = dispatcher.subscribers().subscribers();
    assert_eq!(app.subscriber_count(), subs.len());
    for sub in subs {
        assert_eq!(app.subscriber(sub.id), Some(sub.cfg));
    }
}

#[test]
fn an_observer_starts_empty_and_asks_for_the_state() {
    let (app, first) = App::create();
    assert_eq!(first, ControlMessage::Refresh);
    assert!(app.palette().is_empty());
    assert_eq!(app.subscriber_count(), 0);
    assert_eq!(app.subscriber(SubscriberId(0)), None);
}

#[test]
fn a_state_change_is_taken_in_and_asks_for_a_redraw() {
    let (mut app, _) = App::create();
    let colors = vec![rgb(0.1, 0.2, 0.3), rgb(0.4, 0.5, 0.6)];
    let update = app.update(Msg::HandleStateChange(StateChange::Palette(
        PaletteStateChange::Replaced(colors.clone()),
    )));
    assert_eq!(update, Update { render: true, send: None });
    assert_eq!(app.palette(), &colors);

    assert_eq!(app.update(added(3, 30)), Update { render: true, send: None });
    assert_eq!(app.update(added(5, 50)), Update { render: true, send: None });
    assert_eq!(app.subscriber(SubscriberId(3)), Some(cfg(30)));
    assert_eq!(app.subscriber(SubscriberId(5)), Some(cfg(50)));
    assert_eq!(app.subscriber(SubscriberId(4)), None);
    assert_eq!(app.subscriber_count(), 2);

    assert_eq!(app.update(added(3, 31)), Update { render: true, send: None });
    assert_eq!(app.subscriber(SubscriberId(3)), Some(cfg(31)));
    assert_eq!(app.subscriber_count(), 2);

    assert_eq!(app.update(removed(3)), Update { render: true, send: None });
    assert_eq!(app.update(removed(9)), Update { render: true, send: None });
    assert_eq!(app.subscriber(SubscriberId(3)), None);
    assert_eq!(app.subscriber_count(), 1);
    assert_eq!(app.palette(), &colors);
}

#[test]
fn a_control_message_is_handed_back_for_sending_and_changes_nothing() {
    let (mut app, _) = App::create();
    app.update(added(1, 10));
    let out = ControlMessage::Subscriber(SubscriberControlMessage::Remove(SubscriberId(1)));
    let update = app.update(Msg::Send(out.clone()));
    assert_eq!(update, Update { render: false, send: Some(out) });
    assert_eq!(app.subscriber(SubscriberId(1)), Some(cfg(10)));
}

#[test]
fn a_refresh_brings_a_late_observer_up_to_date() {
    let mut dispatcher = Dispatcher::new(Palette::new());
    for msg in [
        ControlMessage::Subscriber(SubscriberControlMessage::Add(cfg(1))),
        ControlMessage::Subscriber(SubscriberControlMessage::Add(cfg(2))),
        ControlMessage::Palette(PaletteControlMessage::Replace(vec![rgb(1.0, 0.5, 0.0)])),
        ControlMessage::Subscriber(SubscriberControlMessage::Remove(SubscriberId(0))),
    ] {
        assert!(dispatcher.accepts(&msg));
        dispatcher.control(msg);
    }
    let (mut app, refresh) = App::create();
    assert!(dispatcher.accepts(&refresh));
    let actions = dispatcher.control(refresh);
    deliver(&mut app, actions);
    shows(&app, &dispatcher);
    assert_eq!(app.subscriber(SubscriberId(0)), None);
    assert_eq!(app.subscriber(SubscriberId(1)), Some(cfg(2)));
}

#[test]
fn an_observer_that_receives_every_change_stays_in_step() {
    let mut dispatcher = Dispatcher::new(Palette::new());
    let (mut app, _) = App::create();
    let queue = vec![
        ControlMessage::Palette(PaletteControlMessage::Replace(vec![rgb(0.0, 0.0, 1.0)])),
        ControlMessage::Subscriber(SubscriberControlMessage::Add(cfg(1))),
        ControlMessage::Refresh,
        ControlMessage::Subscriber(SubscriberControlMessage::Add(cfg(2))),
        ControlMessage::Subscriber(SubscriberControlMessage::Remove(SubscriberId(0))),
        ControlMessage::Subscriber(SubscriberControlMessage::Remove(SubscriberId(0))),
        ControlMessage::Palette(PaletteControlMessage::Replace(vec![])),
        ControlMessage::Subscriber(SubscriberControlMessage::Add(cfg(3))),
        ControlMessage::Refresh,
    ];
    for msg in queue {
        assert!(dispatcher.accepts(&msg));
        let actions = dispatcher.control(msg);
        deliver(&mut app, actions);
        shows(&app, &dispatcher);
    }
    assert_eq!(app.subscriber_count(), 2);
}
