//! One server-sent-event frame: an optional `event:` line, an optional
//! `data:` line holding JSON, and a blank line that ends the frame.

use vstd::prelude::*;
use vstd::utf8::encode_utf8;

use crate::text::{append_bytes, chars_of};

verus! {

/// A JSON value (`serde_json::Value`).
#[verifier::external_type_specification]
#[verifier::external_body]
pub struct ExJsonValue(serde_json::Value);

/// The JSON text of the data of a frame, if it has data.
pub open spec fn data_text(data: Option<serde_json::Value>) -> Option<Seq<u8>> {
    match data {
        Some(v) => Some(json_of(v)),
        None => None,
    }
}

/// Whether `bytes` holds neither a line feed nor a carriage return.
pub open spec fn no_line_break(bytes: Seq<u8>) -> bool {
    forall|i: int| 0 <= i < bytes.len() ==> #[trigger] bytes[i] != 10 && bytes[i] != 13
}

/// The compact JSON text `serde_json` writes for a value.
pub uninterp spec fn json_of(value: serde_json::Value) -> Seq<u8>;

/// `serde_json::to_writer` of a value into a fresh buffer: the value's
/// compact JSON text, in which every control character of a string is
/// escaped, so the text holds no raw line break. Writing a `Value` into a
/// `Vec` does not fail (a `Value` holds only finite numbers and string
/// keys, and the buffer always takes the bytes), so the result is `Some`.
#[verifier::external_body]
fn json_text(value: &serde_json::Value) -> (r: Option<Vec<u8>>)
    ensures
        r is Some,
        r matches Some(b) ==> b@ == json_of(*value) && no_line_break(b@),
{
    let mut out = Vec::new();
    match serde_json::to_writer(&mut out, value) {
        Ok(()) => Some(out),
        Err(_) => None,
    }
}

/// Why a frame could not be made.
#[derive(Clone, Copy, Debug, PartialEq, Eq, Structural)]
pub enum FrameError {
    /// Neither an event nor data was given.
    Empty,
    /// The event name holds a line feed or a carriage return.
    LineBreakInEvent,
    /// The data could not be serialized.
    Serialize,
}

/// The bytes of a frame with the given event name and JSON text.
pub open spec fn frame_of(event: Option<Seq<char>>, data: Option<Seq<u8>>) -> Seq<u8> {
    let event_line = match event {
        Some(e) => "event: "@.map_values(|c: char| c as u8) + encode_utf8(e) + seq![10u8],
        None => Seq::empty(),
    };
    let data_line = match data {
        Some(d) => "data: "@.map_values(|c: char| c as u8) + d + seq![10u8],
        None => Seq::empty(),
    };
    event_line + data_line + seq![10u8]
}

/// Lays out a frame: `event: <event>\n` if there is an event, then
/// `data: <data>\n` if there is data, then the blank line.
pub fn frame_bytes(event: Option<&str>, data: Option<&[u8]>) -> (r: Vec<u8>)
    ensures
        r@ == frame_of(
            match event { Some(e) => Some(e@), None => None },
            match data { Some(d) => Some(d@), None => None },
        ),
{
    let mut frame: Vec<u8> = Vec::new();
    let ghost event_line: Seq<u8> = Seq::empty();
    if let Some(e) = event {
        // "event: "
        let prefix: [u8; 7] = [101, 118, 101, 110, 116, 58, 32];
        append_bytes(&mut frame, &prefix);
        append_bytes(&mut frame, e.as_bytes());
        frame.push(10);
        proof {
            reveal_strlit("event: ");
            assert(prefix@ =~= "event: "@.map_values(|c: char| c as u8));
        }
    }
    let ghost after_event = frame@;
    if let Some(d) = data {
        // "data: "
        let prefix: [u8; 6] = [100, 97, 116, 97, 58, 32];
        append_bytes(&mut frame, &prefix);
        append_bytes(&mut frame, d);
        frame.push(10);
        proof {
            reveal_strlit("data: ");
            assert(prefix@ =~= "data: "@.map_values(|c: char| c as u8));
        }
    }
    frame.push(10);
    proof {
        let ev = match event { Some(e) => Some(e@), None => None };
        let da = match data { Some(d) => Some(d@), None => None };
        assert(frame@ =~= frame_of(ev, da));
    }
    frame
}

/// A frame ready to be written out.
pub struct JsonFrame {
    event: Option<String>,
    data: Option<serde_json::Value>,
}

/// Collects the parts of a frame.
pub struct JsonFrameBuilder {
    event: Option<String>,
    data: Option<serde_json::Value>,
}

/// Whether an event name can stand on one line.
pub open spec fn one_line(e: Seq<char>) -> bool {
    forall|i: int| 0 <= i < e.len() ==> #[trigger] (e[i] as u32) != 10 && (e[i] as u32) != 13
}

/// Whether `cs` holds a line feed or a carriage return.
fn has_line_break(cs: &[char]) -> (r: bool)
    ensures
        r == !one_line(cs@),
{
    let mut i: usize = 0;
    while i < cs.len()
        invariant
            i <= cs@.len(),
            forall|j: int| 0 <= j < i ==> #[trigger] (cs@[j] as u32) != 10 && (cs@[j] as u32) != 13,
        decreases cs@.len() - i,
    {
        let u = cs[i] as u32;
        if u == 10 || u == 13 {
            return true;
        }
        i += 1;
    }
    false
}

impl JsonFrame {
    pub closed spec fn event_name(&self) -> Option<Seq<char>> {
        match self.event {
            Some(e) => Some(e@),
            None => None,
        }
    }

    /// The value the frame carries as data, if any.
    pub closed spec fn data_value(&self) -> Option<serde_json::Value> {
        self.data
    }

    pub open spec fn has_data(&self) -> bool {
        self.data_value() is Some
    }

    /// A builder with neither event nor data.
    pub fn builder() -> (b: JsonFrameBuilder)
        ensures
            b.event_name() is None,
            b.data_value() is None,
    {
        JsonFrameBuilder { event: None, data: None }
    }

    /// The frame's bytes: the event line if there is an event, the data
    /// line carrying the data's JSON text (which holds no line break) if
    /// there is data, and the blank line.
    pub fn to_vec(&self) -> (r: Result<Vec<u8>, FrameError>)
        ensures
            r matches Ok(b) && b@ == frame_of(self.event_name(), data_text(self.data_value())),
            self.data_value() matches Some(v) ==> no_line_break(json_of(v)),
    {
        let text = match &self.data {
            None => None,
            Some(v) => match json_text(v) {
                Some(t) => Some(t),
                None => return Err(FrameError::Serialize),
            },
        };
        let event = match &self.event {
            Some(e) => Some(e.as_str()),
            None => None,
        };
        let data = match &text {
            Some(t) => Some(t.as_slice()),
            None => None,
        };
        let b = frame_bytes(event, data);
        Ok(b)
    }
}

impl JsonFrameBuilder {
    pub closed spec fn event_name(&self) -> Option<Seq<char>> {
        match self.event {
            Some(e) => Some(e@),
            None => None,
        }
    }

    /// The value given as data, if any.
    pub closed spec fn data_value(&self) -> Option<serde_json::Value> {
        self.data
    }

    pub open spec fn has_data(&self) -> bool {
        self.data_value() is Some
    }

    /// Neither an event nor data has been given.
    pub open spec fn is_empty(&self) -> bool {
        self.event_name() is None && !self.has_data()
    }

    /// The event name given would break the line.
    pub open spec fn breaks_line(&self) -> bool {
        match self.event_name() {
            Some(e) => !one_line(e),
            None => false,
        }
    }

    /// Sets the event name.
    pub fn event(self, event: &str) -> (r: JsonFrameBuilder)
        ensures
            r.event_name() == Some(event@),
            r.data_value() == self.data_value(),
    {
        JsonFrameBuilder { event: Some(String::from_str(event)), data: self.data }
    }

    /// Sets the data.
    pub fn data(self, data: serde_json::Value) -> (r: JsonFrameBuilder)
        ensures
            r.event_name() == self.event_name(),
            r.data_value() == Some(data),
    {
        JsonFrameBuilder { event: self.event, data: Some(data) }
    }

    /// The frame, unless it would be empty or its event name would break
    /// the line.
    pub fn build(self) -> (r: Result<JsonFrame, FrameError>)
        ensures
            self.is_empty() ==> r == Err::<JsonFrame, FrameError>(FrameError::Empty),
            !self.is_empty() && self.breaks_line() ==> r == Err::<JsonFrame, FrameError>(FrameError::LineBreakInEvent),
            !self.is_empty() && !self.breaks_line() ==> (r matches Ok(f) && f.event_name() == self.event_name() && f.data_value() == self.data_value()),
    {
        if self.event.is_none() && self.data.is_none() {
            return Err(FrameError::Empty);
        }
        if let Some(e) = &self.event {
            let cs = chars_of(e.as_str());
            if has_line_break(&cs) {
                return Err(FrameError::LineBreakInEvent);
            }
        }
        Ok(JsonFrame { event: self.event, data: self.data })
    }

    /// The bytes of the frame: [`JsonFrameBuilder::build`], then [`JsonFrame::to_vec`].
    pub fn as_frame(self) -> (r: Result<Vec<u8>, FrameError>)
        ensures
            self.is_empty() ==> r == Err::<Vec<u8>, FrameError>(FrameError::Empty),
            !self.is_empty() && self.breaks_line() ==> r == Err::<Vec<u8>, FrameError>(FrameError::LineBreakInEvent),
            !self.is_empty() && !self.breaks_line() ==> (r matches Ok(b)
                && b@ == frame_of(self.event_name(), data_text(self.data_value()))),
            r is Ok ==> (self.data_value() matches Some(v) ==> no_line_break(json_of(v))),
    {
        let frame = self.build()?;
        frame.to_vec()
    }
}

/// The number of line feeds in `s`.
pub open spec fn line_feeds(s: Seq<u8>) -> nat
    decreases s.len(),
{
    if s.len() == 0 {
        0
    } else {
        line_feeds(s.drop_last()) + if s.last() == 10 { 1nat } else { 0nat }
    }
}

proof fn lemma_line_feeds_add(a: Seq<u8>, b: Seq<u8>)
    ensures
        line_feeds(a + b) == line_feeds(a) + line_feeds(b),
    decreases b.len(),
{
    if b.len() > 0 {
        assert((a + b).drop_last() =~= a + b.drop_last());
        lemma_line_feeds_add(a, b.drop_last());
    } else {
        assert(a + b =~= a);
    }
}

proof fn lemma_no_line_feeds(s: Seq<u8>)
    requires
        forall|i: int| 0 <= i < s.len() ==> #[trigger] s[i] != 10,
    ensures
        line_feeds(s) == 0,
    decreases s.len(),
{
    if s.len() > 0 {
        lemma_no_line_feeds(s.drop_last());
    }
}

/// A character other than a line feed or carriage return encodes to UTF-8
/// bytes none of which is a line feed or carriage return.
proof fn lemma_encode_one_line(chars: Seq<char>)
    requires
        one_line(chars),
    ensures
        no_line_break(encode_utf8(chars)),
    decreases chars.len(),
{
    if chars.len() > 0 {
        let c = chars[0] as u32;
        assert(c != 10 && c != 13);
        assert(one_line(chars.drop_first())) by {
            assert forall|i: int| 0 <= i < chars.drop_first().len() implies #[trigger] (chars.drop_first()[i] as u32) != 10
                && (chars.drop_first()[i] as u32) != 13 by {
                assert(chars.drop_first()[i] == chars[i + 1]);
            }
        }
        lemma_encode_one_line(chars.drop_first());
        let head = vstd::utf8::encode_scalar(c);
        assert(c <= 0x7f && c != 10 && c != 13 ==> (c & 0x7f) as u8 != 10 && (c & 0x7f) as u8 != 13) by (bit_vector);
        let t = (c & 0x3f) as u8;
        let u = ((c >> 6) & 0x3f) as u8;
        let v = ((c >> 12) & 0x3f) as u8;
        let l2 = ((c >> 6) & 0x1f) as u8;
        let l3 = ((c >> 12) & 0x0f) as u8;
        let l4 = ((c >> 18) & 0x7) as u8;
        assert((0x80u8 | t) >= 0x80 && (0x80u8 | u) >= 0x80 && (0x80u8 | v) >= 0x80) by (bit_vector);
        assert((0xC0u8 | l2) >= 0x80 && (0xE0u8 | l3) >= 0x80 && (0xF0u8 | l4) >= 0x80) by (bit_vector);
        assert(no_line_break(head));
        assert(encode_utf8(chars) == head + encode_utf8(chars.drop_first()));
        assert(no_line_break(head + encode_utf8(chars.drop_first())));
    }
}

/// A frame made of a one-line event name and line-break-free data holds
/// exactly one line feed per line it has, plus the one of the blank line
/// that ends it; so an event or its data can never open a line of its own,
/// and a frame with any content ends with two line feeds.
pub proof fn law_frame_lines(event: Option<Seq<char>>, data: Option<Seq<u8>>)
    requires
        event matches Some(e) ==> one_line(e),
        data matches Some(d) ==> no_line_break(d),
    ensures
        line_feeds(frame_of(event, data)) == 1 + (if event is Some { 1nat } else { 0nat }) + (if data is Some { 1nat } else { 0nat }),
        frame_of(event, data).last() == 10,
        (event is Some || data is Some) ==> frame_of(event, data)[frame_of(event, data).len() - 2] == 10,
{
    reveal_strlit("event: ");
    reveal_strlit("data: ");
    let event_prefix = "event: "@.map_values(|c: char| c as u8);
    let data_prefix = "data: "@.map_values(|c: char| c as u8);
    lemma_no_line_feeds(event_prefix);
    lemma_no_line_feeds(data_prefix);
    let event_line = match event {
        Some(e) => event_prefix + encode_utf8(e) + seq![10u8],
        None => Seq::<u8>::empty(),
    };
    let data_line = match data {
        Some(d) => data_prefix + d + seq![10u8],
        None => Seq::<u8>::empty(),
    };
    assert(line_feeds(seq![10u8]) == 1) by {
        assert(seq![10u8].drop_last() =~= Seq::<u8>::empty());
        assert(seq![10u8].last() == 10);
        reveal_with_fuel(line_feeds, 2);
    }
    assert(line_feeds(Seq::<u8>::empty()) == 0);
    if let Some(e) = event {
        lemma_encode_one_line(e);
        lemma_no_line_feeds(encode_utf8(e));
        lemma_line_feeds_add(event_prefix, encode_utf8(e));
        lemma_line_feeds_add(event_prefix + encode_utf8(e), seq![10u8]);
    }
    if let Some(d) = data {
        lemma_no_line_feeds(d);
        lemma_line_feeds_add(data_prefix, d);
        lemma_line_feeds_add(data_prefix + d, seq![10u8]);
    }
    lemma_line_feeds_add(event_line, data_line);
    lemma_line_feeds_add(event_line + data_line, seq![10u8]);
    assert(frame_of(event, data) == event_line + data_line + seq![10u8]);
}

} // verus!
