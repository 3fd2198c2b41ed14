//! Server-sent events: framing JSON events onto a text stream.

pub mod json_frame;
pub mod server_sent_events;

pub use json_frame::{FrameError, JsonFrame, JsonFrameBuilder};
pub use server_sent_events::{
    after_event, frame_event, Delivery, ServerSentEventsOptions, SseSendError, StreamEvent, StreamStep,
};
