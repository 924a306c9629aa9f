use palette_hub::control::{Action, Dispatcher};
use palette_hub::osc::{Push, PALETTE_ADDRESS};
use palette_hub::{
    Color, ControlMessage, Endpoint, Palette, PaletteControlMessage, PaletteStateChange,
    StateChange, Subscriber, SubscriberConfig, SubscriberControlMessage, SubscriberId,
    SubscriberStateChange,
};

fn rgb(red: f32, green: f32, blue: f32) -> Color {
    Color { red: red.to_bits(), green: green.to_bits(), blue: blue.to_bits() }
}

fn endpoint(port: u16) -> Endpoint {
    Endpoint::V4 { ip: 0x7f00_0001, port }
}

fn set(colors: &[Color]) -> ControlMessage {
    ControlMessage::Palette(PaletteControlMessage::Replace(colors.to_vec()))
}

fn add(port: u16) -> ControlMessage {
    ControlMessage::Subscriber(SubscriberControlMessage::Add(SubscriberConfig::Osc(endpoint(port))))
}

fn remove(id: SubscriberId) -> ControlMessage {
    ControlMessage::Subscriber(SubscriberControlMessage::Remove(id))
}

fn id(n: u64) -> SubscriberId {
    SubscriberId(n)
}

fn was_set(colors: &[Color]) -> Action {
    Action::Broadcast(StateChange::Palette(PaletteStateChange::Replaced(colors.to_vec())))
}

fn was_added(n: u64, port: u16) -> Action {
    Action::Broadcast(StateChange::Subscriber(SubscriberStateChange::Added(Subscriber {
        id: id(n),
        cfg: SubscriberConfig::Osc(endpoint(port)),
    })))
}

fn was_removed(n: u64) -> Action {
    Action::Broadcast(StateChange::Subscriber(SubscriberStateChange::Removed(id(n))))
}

fn push_of(action: &Action) -> &Push {
    match action {
        Action::Push(push) => push,
        other => panic!("expected a push, got {:?}", other),
    }
}

fn floats(push: &Push) -> Vec<f32> {
    push.message.args.iter().map(|bits| f32::from_bits(*bits)).collect()
}

fn apply(dispatcher: &mut Dispatcher, msg: ControlMessage) -> Vec<Action> {
    assert!(dispatcher.accepts(&msg));
    dispatcher.control(msg)
}

#[test]
fn set_with_no_subscribers_broadcasts_and_sends_nothing() {
    let mut dispatcher = Dispatcher::new(Palette::new());
    let colors = [rgb(1.0, 0.0, 0.0)];
    let actions = apply(&mut dispatcher, set(&colors));
    assert_eq!(actions.len(), 2);
    assert!(push_of(&actions[0]).destinations.is_empty());
    assert_eq!(actions[1], was_set(&colors));
    assert_eq!(dispatcher.palette().colors(), &colors[..]);
}

#[test]
fn a_new_subscriber_is_announced_and_gets_the_empty_palette_at_once() {
    let mut dispatcher = Dispatcher::new(Palette::new());
    let actions = apply(&mut dispatcher, add(11000));
    assert_eq!(actions.len(), 2);
    let push = push_of(&actions[0]);
    assert_eq!(push.message.addr, "/palette");
    assert_eq!(push.message.addr, PALETTE_ADDRESS);
    assert!(push.message.args.is_empty());
    assert_eq!(push.destinations, vec![endpoint(11000)]);
    assert_eq!(actions[1], was_added(0, 11000));
}

#[test]
fn a_set_reaches_the_subscriber_as_one_message_of_nine_numbers() {
    let mut dispatcher = Dispatcher::new(Palette::new());
    apply(&mut dispatcher, add(11000));
    let colors = [rgb(1.0, 1.0, 0.0), rgb(1.0, 0.0, 1.0), rgb(0.0, 1.0, 1.0)];
    let actions = apply(&mut dispatcher, set(&colors));
    let pushes = actions.iter().filter(|action| matches!(action, Action::Push(_))).count();
    assert_eq!(pushes, 1);
    let push = push_of(&actions[0]);
    assert_eq!(push.message.addr, "/palette");
    assert_eq!(floats(push), vec![1.0, 1.0, 0.0, 1.0, 0.0, 1.0, 0.0, 1.0, 1.0]);
    assert_eq!(push.destinations, vec![endpoint(11000)]);
    assert_eq!(actions[1], was_set(&colors));
}

#[test]
fn a_removed_subscriber_gets_nothing_more() {
    let mut dispatcher = Dispatcher::new(Palette::new());
    apply(&mut dispatcher, add(11000));
    let actions = apply(&mut dispatcher, remove(id(0)));
    assert_eq!(actions, vec![was_removed(0)]);
    let actions = apply(&mut dispatcher, set(&[rgb(0.5, 0.5, 0.5)]));
    assert!(push_of(&actions[0]).destinations.is_empty());
    assert!(dispatcher.subscribers().subscribers().is_empty());
}

#[test]
fn the_palette_is_what_was_last_set_bit_for_bit() {
    let mut dispatcher = Dispatcher::new(Palette::new());
    let odd = [
        rgb(0.3, 0.3, 0.3),
        rgb(0.3, 0.3, 0.3),
        rgb(-4.0, 17.5, f32::INFINITY),
        Color { red: f32::NAN.to_bits(), green: 0x7fc0_1234, blue: (-0.0f32).to_bits() },
    ];
    apply(&mut dispatcher, set(&[rgb(0.0, 0.0, 0.0)]));
    apply(&mut dispatcher, set(&odd));
    assert_eq!(dispatcher.palette().colors(), &odd[..]);
    let actions = apply(&mut dispatcher, ControlMessage::Refresh);
    assert_eq!(actions, vec![was_set(&odd)]);
}

#[test]
fn identifiers_grow_and_are_not_given_out_again() {
    let mut dispatcher = Dispatcher::new(Palette::new());
    assert_eq!(apply(&mut dispatcher, add(1))[1], was_added(0, 1));
    assert_eq!(apply(&mut dispatcher, add(2))[1], was_added(1, 2));
    apply(&mut dispatcher, remove(id(1)));
    apply(&mut dispatcher, remove(id(0)));
    assert_eq!(apply(&mut dispatcher, add(3))[1], was_added(2, 3));
    apply(&mut dispatcher, remove(id(2)));
    apply(&mut dispatcher, set(&[]));
    assert_eq!(apply(&mut dispatcher, add(4))[1], was_added(3, 4));
    assert_eq!(dispatcher.subscribers().next_id(), id(4));
}

#[test]
fn removing_an_unknown_identifier_changes_nothing_and_is_reported() {
    let mut dispatcher = Dispatcher::new(Palette::new());
    apply(&mut dispatcher, add(1));
    apply(&mut dispatcher, add(2));
    let before = dispatcher.subscribers().subscribers().clone();
    let actions = apply(&mut dispatcher, remove(id(7)));
    assert_eq!(actions, vec![was_removed(7)]);
    assert_eq!(dispatcher.subscribers().subscribers(), &before);
    assert_eq!(dispatcher.subscribers().next_id(), id(2));
}

#[test]
fn removing_takes_out_the_one_subscriber_and_keeps_the_order() {
    let mut dispatcher = Dispatcher::new(Palette::new());
    apply(&mut dispatcher, add(1));
    apply(&mut dispatcher, add(2));
    apply(&mut dispatcher, add(3));
    apply(&mut dispatcher, remove(id(1)));
    let actions = apply(&mut dispatcher, set(&[rgb(1.0, 1.0, 1.0)]));
    assert_eq!(push_of(&actions[0]).destinations, vec![endpoint(1), endpoint(3)]);
}

#[test]
fn a_new_subscriber_gets_the_palette_in_effect_and_nobody_else_does() {
    let mut dispatcher = Dispatcher::new(Palette::new());
    apply(&mut dispatcher, add(1));
    apply(&mut dispatcher, set(&[rgb(0.25, 0.5, 0.75)]));
    let actions = apply(&mut dispatcher, add(2));
    let push = push_of(&actions[0]);
    assert_eq!(floats(push), vec![0.25, 0.5, 0.75]);
    assert_eq!(push.destinations, vec![endpoint(2)]);
    assert_eq!(actions[1], was_added(1, 2));
}

#[test]
fn a_refresh_replays_the_palette_and_then_each_subscriber() {
    let colors = [rgb(0.1, 0.2, 0.3)];
    let mut dispatcher = Dispatcher::new(Palette::new());
    apply(&mut dispatcher, add(1));
    apply(&mut dispatcher, add(2));
    apply(&mut dispatcher, add(3));
    apply(&mut dispatcher, remove(id(1)));
    apply(&mut dispatcher, set(&colors));
    let actions = apply(&mut dispatcher, ControlMessage::Refresh);
    assert_eq!(actions, vec![was_set(&colors), was_added(0, 1), was_added(2, 3)]);
    assert_eq!(dispatcher.subscribers().subscribers().len(), 2);
    assert_eq!(dispatcher.palette().colors(), &colors[..]);
}

#[test]
fn what_an_earlier_message_causes_comes_first() {
    let first = [rgb(1.0, 0.0, 0.0)];
    let second = [rgb(0.0, 1.0, 0.0)];
    let mut dispatcher = Dispatcher::new(Palette::new());
    let mut all = Vec::new();
    for msg in [add(1), set(&first), set(&second), remove(id(0)), ControlMessage::Refresh] {
        all.extend(apply(&mut dispatcher, msg));
    }
    let broadcasts: Vec<Action> =
        all.into_iter().filter(|action| matches!(action, Action::Broadcast(_))).collect();
    assert_eq!(
        broadcasts,
        vec![was_added(0, 1), was_set(&first), was_set(&second), was_removed(0), was_set(&second)]
    );
}

#[test]
fn the_dispatcher_starts_with_the_palette_it_is_given() {
    let mut palette = Palette::new();
    let colors = vec![rgb(0.9, 0.8, 0.7)];
    let change = palette.control(PaletteControlMessage::Replace(colors.clone()));
    assert_eq!(change, PaletteStateChange::Replaced(colors.clone()));
    assert_eq!(palette.current_state(), PaletteStateChange::Replaced(colors.clone()));
    let mut dispatcher = Dispatcher::new(palette);
    let actions = apply(&mut dispatcher, add(9));
    assert_eq!(floats(push_of(&actions[0])), vec![0.9, 0.8, 0.7]);
}

#[test]
fn an_adding_is_turned_down_only_when_identifiers_are_used_up() {
    let dispatcher = Dispatcher::new(Palette::new());
    assert!(dispatcher.accepts(&add(1)));
    assert!(dispatcher.accepts(&remove(id(u64::MAX))));
    assert!(dispatcher.accepts(&ControlMessage::Refresh));
    assert!(dispatcher.accepts(&set(&[])));
}

#[test]
fn advancing_an_identifier_adds_one() {
    let mut id = SubscriberId::zero();
    assert_eq!(id, SubscriberId(0));
    id.advance();
    assert_eq!(id, SubscriberId(1));
    id.advance();
    assert_eq!(id, SubscriberId(2));
}
