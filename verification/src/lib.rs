pub mod message;
pub mod decimal;
pub mod echo;
pub mod unique_id;
pub mod broadcast;
pub mod g_counter;

pub use message::{Body, Event, Init, Message, Node};
