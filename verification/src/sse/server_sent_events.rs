//! A server-sent-event stream: its options, and what the stream does with
//! each event. The stream itself (timers, channels, the socket) is driven by
//! the server.

use vstd::prelude::*;

use crate::sse::json_frame::{frame_of, json_of, no_line_break, FrameError, JsonFrame};

verus! {

/// How a server-sent-event stream is set up.
pub struct ServerSentEventsOptions {
    /// How many bytes may wait in the stream's buffer.
    pub max_buffer_size: usize,
    /// How long the stream waits between heartbeat frames.
    pub heartbeat_duration: std::time::Duration,
}

/// A value that could not be sent, handed back to the caller.
pub struct SseSendError<T>(pub T);

/// What reaches the stream.
pub enum StreamEvent {
    /// The heartbeat timer fired.
    HeartBeat,
    /// A value to send, as JSON.
    Frame(serde_json::Value),
}

/// Whether the stream goes on after an event.
#[derive(Clone, Copy, Debug, PartialEq, Eq, Structural)]
pub enum StreamStep {
    Continue,
    Stop,
}

/// What the sender of a value is told.
#[derive(Clone, Copy, Debug, PartialEq, Eq, Structural)]
pub enum Delivery {
    /// The frame was written.
    Delivered,
    /// No frame could be made of the value.
    CannotFrame,
    /// The frame could not be written to the stream.
    CannotWrite,
}

/// The frame an event is written as: a heartbeat is the frame with the
/// event `heartbeat` and no data; a value is the frame with the event
/// `event` and the value's JSON text as data.
pub fn frame_event(event: StreamEvent) -> (r: Result<Vec<u8>, FrameError>)
    ensures
        event is HeartBeat ==> (r matches Ok(b) && b@ == frame_of(Some("heartbeat"@), None)),
        event matches StreamEvent::Frame(v) ==> (r matches Ok(b) && b@ == frame_of(Some("event"@), Some(json_of(v)))
            && no_line_break(json_of(v))),
{
    proof {
        reveal_strlit("heartbeat");
        reveal_strlit("event");
    }
    match event {
        StreamEvent::HeartBeat => JsonFrame::builder().event("heartbeat").as_frame(),
        StreamEvent::Frame(value) => JsonFrame::builder().event("event").data(value).as_frame(),
    }
}

/// What follows an event, given whether it could be framed and whether the
/// frame was written: a heartbeat that fails stops the stream; a value that
/// fails is reported to its sender and the stream goes on.
pub fn after_event(heartbeat: bool, framed: bool, written: bool) -> (r: (StreamStep, Option<Delivery>))
    ensures
        heartbeat ==> r == (if framed && written { (StreamStep::Continue, None::<Delivery>) } else { (StreamStep::Stop, None::<Delivery>) }),
        !heartbeat ==> r == (StreamStep::Continue, Some(if !framed {
            Delivery::CannotFrame
        } else if !written {
            Delivery::CannotWrite
        } else {
            Delivery::Delivered
        })),
{
    if heartbeat {
        if framed && written {
            (StreamStep::Continue, None)
        } else {
            (StreamStep::Stop, None)
        }
    } else if !framed {
        (StreamStep::Continue, Some(Delivery::CannotFrame))
    } else if !written {
        (StreamStep::Continue, Some(Delivery::CannotWrite))
    } else {
        (StreamStep::Continue, Some(Delivery::Delivered))
    }
}

} // verus!
