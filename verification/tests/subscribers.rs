use palette_hub::osc::{prepare_osc_palette, OscSender};
use palette_hub::subscriber::Subscribers;
use palette_hub::{
    Color, Endpoint, Subscriber, SubscriberConfig, SubscriberControlMessage, SubscriberId,
    SubscriberStateChange,
};
use std::sync::Arc;

fn rgb(red: f32, green: f32, blue: f32) -> Color {
    Color { red: red.to_bits(), green: green.to_bits(), blue: blue.to_bits() }
}

fn v6(port: u16) -> Endpoint {
    Endpoint::V6 { ip: 1, port, flowinfo: 0, scope_id: 0 }
}

fn v4(port: u16) -> Endpoint {
    Endpoint::V4 { ip: 0x0a00_0001, port }
}

#[test]
fn a_new_registry_is_empty_and_starts_at_zero() {
    let subs = Subscribers::new();
    assert!(subs.subscribers().is_empty());
    assert_eq!(subs.next_id(), SubscriberId(0));
    assert!(subs.current_state().is_empty());
}

#[test]
fn adding_reports_the_subscriber_with_its_identifier() {
    let mut subs = Subscribers::new();
    let change = subs.control(SubscriberControlMessage::Add(SubscriberConfig::Osc(v4(1))));
    assert_eq!(
        change,
        SubscriberStateChange::Added(Subscriber {
            id: SubscriberId(0),
            cfg: SubscriberConfig::Osc(v4(1))
        })
    );
    let change = subs.control(SubscriberControlMessage::Add(SubscriberConfig::Osc(v6(2))));
    assert_eq!(
        change,
        SubscriberStateChange::Added(Subscriber {
            id: SubscriberId(1),
            cfg: SubscriberConfig::Osc(v6(2))
        })
    );
    assert_eq!(subs.subscribers().len(), 2);
    assert_eq!(subs.current_state().len(), 2);
    assert_eq!(subs.current_state()[1], change);
}

#[test]
fn a_push_to_all_names_every_endpoint_in_order() {
    let mut subs = Subscribers::new();
    subs.control(SubscriberControlMessage::Add(SubscriberConfig::Osc(v4(1))));
    subs.control(SubscriberControlMessage::Add(SubscriberConfig::Osc(v6(2))));
    subs.control(SubscriberControlMessage::Add(SubscriberConfig::Osc(v4(3))));
    let push = subs.send_palette(&vec![rgb(0.0, 0.5, 1.0), rgb(1.0, 0.5, 0.0)]);
    assert_eq!(push.destinations, vec![v4(1), v6(2), v4(3)]);
    assert_eq!(push.message.addr, "/palette");
    assert_eq!(
        push.message.args,
        vec![
            0.0f32.to_bits(),
            0.5f32.to_bits(),
            1.0f32.to_bits(),
            1.0f32.to_bits(),
            0.5f32.to_bits(),
            0.0f32.to_bits()
        ]
    );
}

#[test]
fn a_push_to_one_names_that_endpoint_alone() {
    let mut subs = Subscribers::new();
    subs.control(SubscriberControlMessage::Add(SubscriberConfig::Osc(v4(1))));
    subs.control(SubscriberControlMessage::Add(SubscriberConfig::Osc(v6(2))));
    let push = subs.send_palette_to(SubscriberId(1), &vec![rgb(0.0, 0.5, 1.0)]).unwrap();
    assert_eq!(push.destinations, vec![v6(2)]);
    assert_eq!(push.message.args.len(), 3);
}

#[test]
fn a_push_to_an_unknown_identifier_is_nothing() {
    let mut subs = Subscribers::new();
    assert_eq!(subs.send_palette_to(SubscriberId(0), &vec![]), None);
    subs.control(SubscriberControlMessage::Add(SubscriberConfig::Osc(v4(1))));
    assert_eq!(subs.send_palette_to(SubscriberId(1), &vec![rgb(1.0, 1.0, 1.0)]), None);
    subs.control(SubscriberControlMessage::Remove(SubscriberId(0)));
    assert_eq!(subs.send_palette_to(SubscriberId(0), &vec![rgb(1.0, 1.0, 1.0)]), None);
}

#[test]
fn removing_reports_the_identifier_whether_known_or_not() {
    let mut subs = Subscribers::new();
    subs.control(SubscriberControlMessage::Add(SubscriberConfig::Osc(v4(1))));
    assert_eq!(
        subs.control(SubscriberControlMessage::Remove(SubscriberId(5))),
        SubscriberStateChange::Removed(SubscriberId(5))
    );
    assert_eq!(subs.subscribers().len(), 1);
    assert_eq!(
        subs.control(SubscriberControlMessage::Remove(SubscriberId(0))),
        SubscriberStateChange::Removed(SubscriberId(0))
    );
    assert!(subs.subscribers().is_empty());
    assert_eq!(subs.next_id(), SubscriberId(1));
}

#[test]
fn the_message_of_an_empty_palette_has_no_arguments() {
    let message = prepare_osc_palette(&vec![]);
    assert_eq!(message.addr, "/palette");
    assert!(message.args.is_empty());
}

#[test]
fn the_message_lists_red_green_blue_of_each_color_in_turn() {
    let colors = vec![rgb(0.1, 0.2, 0.3), rgb(0.4, 0.5, 0.6), rgb(0.7, 0.8, 0.9)];
    let message = prepare_osc_palette(&colors);
    let numbers: Vec<f32> = message.args.iter().map(|bits| f32::from_bits(*bits)).collect();
    assert_eq!(numbers, vec![0.1, 0.2, 0.3, 0.4, 0.5, 0.6, 0.7, 0.8, 0.9]);
}

#[test]
fn the_message_encodes_to_the_packet_a_subscriber_expects() {
    let message = prepare_osc_palette(&vec![rgb(1.0, 0.5, 0.0)]);
    let args = message.args.iter().map(|bits| rosc::OscType::Float(f32::from_bits(*bits))).collect();
    let packet = rosc::OscPacket::Message(rosc::OscMessage { addr: message.addr, args });
    let bytes = rosc::encoder::encode(&packet).unwrap();
    let mut expected: Vec<u8> = Vec::new();
    expected.extend_from_slice(b"/palette\0\0\0\0,fff\0\0\0\0");
    expected.extend_from_slice(&[0x3f, 0x80, 0, 0, 0x3f, 0, 0, 0, 0, 0, 0, 0]);
    assert_eq!(bytes, expected);
    let (_, decoded) = rosc::decoder::decode_udp(&bytes).unwrap();
    assert_eq!(decoded, packet);
}

#[test]
fn packets_leave_the_sender_in_the_order_they_came() {
    let mut sender = OscSender::new();
    assert_eq!(sender.len(), 0);
    assert!(sender.next().is_none());
    let first = Arc::new(vec![1u8, 2, 3]);
    let second = Arc::new(vec![4u8]);
    sender.send(v4(1), first.clone());
    sender.send(v6(2), first.clone());
    sender.send(v4(1), second.clone());
    assert_eq!(sender.len(), 3);
    assert_eq!(sender.next(), Some((v4(1), first.clone())));
    sender.send(v4(9), second.clone());
    assert_eq!(sender.next(), Some((v6(2), first)));
    assert_eq!(sender.next(), Some((v4(1), second.clone())));
    assert_eq!(sender.next(), Some((v4(9), second)));
    assert_eq!(sender.next(), None);
    assert_eq!(sender.len(), 0);
}

#[test]
fn a_push_is_queued_for_every_destination_with_the_same_bytes() {
    let mut sender = OscSender::new();
    let earlier = Arc::new(vec![9u8]);
    sender.send(v4(7), earlier.clone());
    let packet = Arc::new(vec![1u8, 2, 3, 4]);
    sender.send_to_all(&vec![v4(1), v6(2), v4(3)], Some(packet.clone()));
    assert_eq!(sender.len(), 4);
    assert_eq!(sender.next(), Some((v4(7), earlier)));
    assert_eq!(sender.next(), Some((v4(1), packet.clone())));
    assert_eq!(sender.next(), Some((v6(2), packet.clone())));
    let last = sender.next().unwrap();
    assert_eq!(last.0, v4(3));
    assert!(Arc::ptr_eq(&last.1, &packet));
    assert_eq!(sender.next(), None);
}

#[test]
fn a_push_that_could_not_be_encoded_is_not_queued_at_all() {
    let mut sender = OscSender::new();
    sender.send_to_all(&vec![v4(1), v6(2)], None);
    assert_eq!(sender.len(), 0);
    sender.send_to_all(&vec![], Some(Arc::new(vec![1u8])));
    assert_eq!(sender.len(), 0);
    assert_eq!(sender.next(), None);
}
