//! The core of a hub that keeps one palette of colors in step between editors,
//! observers and subscribers.
//!
//! One dispatcher owns the palette and the subscriber registry. It takes control
//! messages one at a time and answers each with the actions that follow from it:
//! state changes to broadcast to every connected observer, and pushes of the
//! palette to subscribers. Sockets, threads and text encodings are the caller's
//! business; everything here works on plain values and is proved against the
//! contracts it states.

pub mod client;
pub mod color;
pub mod control;
pub mod history;
pub mod message;
pub mod observer;
pub mod osc;
pub mod palette;
pub mod subscriber;

pub use client::Clients;
pub use color::Color;
pub use control::{Action, Dispatcher};
pub use message::{
    ControlMessage, Endpoint, PaletteControlMessage, PaletteStateChange, StateChange, Subscriber,
    SubscriberConfig, SubscriberControlMessage, SubscriberId, SubscriberStateChange,
};
pub use osc::OscSender;
pub use palette::Palette;
pub use subscriber::Subscribers;
