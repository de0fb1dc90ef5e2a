//! The events of the relay protocol and how a record becomes one.

use vstd::prelude::*;
use crate::json::Json;
use crate::text::str_equal;

verus! {

/// The side of a channel that a connection takes.
#[derive(Debug, Clone)]
pub enum ConnectionType {
    Master,
    Slave,
}

impl ConnectionType {
    /// The word that stands for the role on the wire.
    pub open spec fn wire_name(self) -> Seq<char> {
        match self {
            ConnectionType::Master => "master"@,
            ConnectionType::Slave => "slave"@,
        }
    }

    /// The role as the relay spells it: `master` or `slave`.
    pub fn to_string(&self) -> (name: String)
        ensures
            name@ == self.wire_name(),
    {
        match self {
            ConnectionType::Master => "master".to_owned(),
            ConnectionType::Slave => "slave".to_owned(),
        }
    }
}

/// One event of a session, as the reader hands it out.
#[derive(Debug, Clone)]
pub enum EventType {
    /// The relay's message of the day.
    Motd(String),
    /// The connection joined its channel; carries the membership id.
    ChannelJoined(i32),
    /// The connection left its channel.
    ChannelLeft,
    /// A message on the channel, with its sender.
    ChannelMessage(String, i32),
    /// Another client joined, with its id and name.
    ClientJoined(i32, String),
    /// Another client left.
    ClientLeft(i32),
    /// A tone: frequency in hertz, length in milliseconds, left and right
    /// volume.
    Beep(i32, i32, i32, i32),
    /// A record that is no well-formed event; carries its text.
    Invalid(String),
}

/// An event with its texts as sequences of characters.
pub enum EventView {
    Motd(Seq<char>),
    ChannelJoined(i32),
    ChannelLeft,
    ChannelMessage(Seq<char>, i32),
    ClientJoined(i32, Seq<char>),
    ClientLeft(i32),
    Beep(i32, i32, i32, i32),
    Invalid(Seq<char>),
}

impl View for EventType {
    type V = EventView;

    open spec fn view(&self) -> EventView {
        match self {
            EventType::Motd(text) => EventView::Motd(text@),
            EventType::ChannelJoined(id) => EventView::ChannelJoined(*id),
            EventType::ChannelLeft => EventView::ChannelLeft,
            EventType::ChannelMessage(text, sender) => EventView::ChannelMessage(text@, *sender),
            EventType::ClientJoined(id, name) => EventView::ClientJoined(*id, name@),
            EventType::ClientLeft(id) => EventView::ClientLeft(*id),
            EventType::Beep(hz, length, left, right) => EventView::Beep(
                *hz,
                *length,
                *left,
                *right,
            ),
            EventType::Invalid(text) => EventView::Invalid(text@),
        }
    }
}

/// The views of a list of events.
pub open spec fn event_views(events: Seq<EventType>) -> Seq<EventView> {
    Seq::new(events.len(), |i: int| events[i]@)
}

impl EventType {
    /// A copy of the event.
    pub fn duplicate(&self) -> (copy: EventType)
        ensures
            copy@ == self@,
    {
        match self {
            EventType::Motd(text) => EventType::Motd(text.clone()),
            EventType::ChannelJoined(id) => EventType::ChannelJoined(*id),
            EventType::ChannelLeft => EventType::ChannelLeft,
            EventType::ChannelMessage(text, sender) => EventType::ChannelMessage(
                text.clone(),
                *sender,
            ),
            EventType::ClientJoined(id, name) => EventType::ClientJoined(*id, name.clone()),
            EventType::ClientLeft(id) => EventType::ClientLeft(*id),
            EventType::Beep(hz, length, left, right) => EventType::Beep(
                *hz,
                *length,
                *left,
                *right,
            ),
            EventType::Invalid(text) => EventType::Invalid(text.clone()),
        }
    }
}

/// Something that is told of each event of a session, once and in order.
pub trait EventObserver {
    /// The events that the observer was told of, the oldest first.
    spec fn seen(&self) -> Seq<EventView>;

    /// Tells the observer of one event.
    fn notify(&mut self, event: &EventType)
        ensures
            final(self).seen() == old(self).seen().push(event@),
    ;
}

/// An observer that keeps every event it is told of.
pub struct EventLog {
    events: Vec<EventType>,
}

impl EventLog {
    /// A log that has seen nothing.
    pub fn new() -> (log: EventLog)
        ensures
            log.seen() == Seq::<EventView>::empty(),
    {
        let log = EventLog { events: Vec::new() };
        assert(log.seen() =~= Seq::<EventView>::empty());
        log
    }

    /// The events that the log holds, the oldest first.
    pub fn events(&self) -> (held: &Vec<EventType>)
        ensures
            event_views(held@) == self.seen(),
    {
        &self.events
    }
}

impl EventObserver for EventLog {
    closed spec fn seen(&self) -> Seq<EventView> {
        event_views(self.events@)
    }

    fn notify(&mut self, event: &EventType) {
        let ghost before = self.seen();
        self.events.push(event.duplicate());
        assert(self.seen() =~= before.push(event@));
    }
}

/// An observer made of a function: each event that it is told of is handed
/// to the function.
pub struct EventCallback<F: Fn(EventType)> {
    call: F,
    told: Ghost<Seq<EventView>>,
}

impl<F: Fn(EventType)> EventCallback<F> {
    #[verifier::type_invariant]
    spec fn takes_every_event(self) -> bool {
        forall|event: EventType| call_requires(self.call, (event,))
    }

    /// An observer that hands each event to `call`, which must take every
    /// event.
    pub fn new(call: F) -> (observer: EventCallback<F>)
        requires
            forall|event: EventType| call_requires(call, (event,)),
        ensures
            observer.seen() == Seq::<EventView>::empty(),
    {
        EventCallback { call, told: Ghost(Seq::empty()) }
    }
}

impl<F: Fn(EventType)> EventObserver for EventCallback<F> {
    closed spec fn seen(&self) -> Seq<EventView> {
        self.told@
    }

    fn notify(&mut self, event: &EventType) {
        proof {
            use_type_invariant(&*self);
        }
        (self.call)(event.duplicate());
        self.told = Ghost(self.told@.push(event@));
    }
}

/// The text of the member `key` of a parsed record, where the record is an
/// object and the member a string.
pub open spec fn field_text(parsed: Option<Json>, key: Seq<char>) -> Option<Seq<char>> {
    match parsed {
        Some(record) => match record.member(key) {
            Some(value) => value.text(),
            None => None,
        },
        None => None,
    }
}

/// The member `key` of a parsed record as an integer, where the record is an
/// object and the member an integer within `i64`.
pub open spec fn field_integer(parsed: Option<Json>, key: Seq<char>) -> Option<i64> {
    match parsed {
        Some(record) => match record.member(key) {
            Some(value) => value.integer(),
            None => None,
        },
        None => None,
    }
}

/// The event that a record stands for.
///
/// `raw` is the record's text and `parsed` what the JSON parser made of it,
/// `None` where it is no JSON. The member `type` picks the event; a record
/// without it, with an unknown one, or without a member that its event needs
/// is `Invalid` and carries the text. Integers are cut to 32 bits.
pub open spec fn event_of(raw: Seq<char>, parsed: Option<Json>) -> EventView {
    let kind = field_text(parsed, "type"@);
    if kind == Some("motd"@) {
        match field_text(parsed, "motd"@) {
            Some(text) => EventView::Motd(text),
            None => EventView::Invalid(raw),
        }
    } else if kind == Some("channel_joined"@) {
        match field_integer(parsed, "origin"@) {
            Some(origin) => EventView::ChannelJoined(origin as i32),
            None => EventView::Invalid(raw),
        }
    } else if kind == Some("channel_left"@) {
        EventView::ChannelLeft
    } else if kind == Some("tone"@) {
        match (
            field_integer(parsed, "hz"@),
            field_integer(parsed, "length"@),
            field_integer(parsed, "left"@),
            field_integer(parsed, "right"@),
        ) {
            (Some(hz), Some(length), Some(left), Some(right)) => EventView::Beep(
                hz as i32,
                length as i32,
                left as i32,
                right as i32,
            ),
            _ => EventView::Invalid(raw),
        }
    } else {
        EventView::Invalid(raw)
    }
}

/// The membership id after an event: the id of a `ChannelJoined`, zero after
/// a `ChannelLeft`, unchanged by anything else.
pub open spec fn uid_after(uid: i32, event: EventView) -> i32 {
    match event {
        EventView::ChannelJoined(id) => id,
        EventView::ChannelLeft => 0,
        _ => uid,
    }
}

fn text_member<'a>(parsed: &'a Option<Json>, key: &str) -> (found: Option<&'a str>)
    ensures
        match found {
            Some(text) => field_text(*parsed, key@) == Some(text@),
            None => field_text(*parsed, key@) is None,
        },
{
    match parsed {
        Some(record) => match record.get(key) {
            Some(value) => value.as_str(),
            None => None,
        },
        None => None,
    }
}

fn integer_member(parsed: &Option<Json>, key: &str) -> (found: Option<i64>)
    ensures
        found == field_integer(*parsed, key@),
{
    match parsed {
        Some(record) => match record.get(key) {
            Some(value) => value.as_i64(),
            None => None,
        },
        None => None,
    }
}

fn low_bits(value: i64) -> (cut: i32)
    ensures
        cut == value as i32,
{
    #[verifier::truncate]
    (value as i32)
}

/// Decodes one record.
///
/// `raw` is the record's text and `parsed` what the JSON parser made of that
/// text. The result is the event that `event_of` gives for the two.
pub fn decode_event(raw: String, parsed: &Option<Json>) -> (event: EventType)
    ensures
        event@ == event_of(raw@, *parsed),
{
    let kind = match text_member(parsed, "type") {
        Some(kind) => kind,
        None => {
            return EventType::Invalid(raw);
        },
    };
    if str_equal(kind, "motd") {
        match text_member(parsed, "motd") {
            Some(text) => EventType::Motd(text.to_owned()),
            None => EventType::Invalid(raw),
        }
    } else if str_equal(kind, "channel_joined") {
        match integer_member(parsed, "origin") {
            Some(origin) => EventType::ChannelJoined(low_bits(origin)),
            None => EventType::Invalid(raw),
        }
    } else if str_equal(kind, "channel_left") {
        EventType::ChannelLeft
    } else if str_equal(kind, "tone") {
        let hz = integer_member(parsed, "hz");
        let length = integer_member(parsed, "length");
        let left = integer_member(parsed, "left");
        let right = integer_member(parsed, "right");
        match (hz, length, left, right) {
            (Some(hz), Some(length), Some(left), Some(right)) => EventType::Beep(
                low_bits(hz),
                low_bits(length),
                low_bits(left),
                low_bits(right),
            ),
            _ => EventType::Invalid(raw),
        }
    } else {
        EventType::Invalid(raw)
    }
}

} // verus!
