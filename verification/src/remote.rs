//! One session with a relay: who it is with, what has arrived, where it
//! stands.
//!
//! The session does no reading or writing of its own. The caller performs the
//! handshake and hands over the certificates that the server presented; it
//! reads from the channel and hands over each chunk as it came; it writes the
//! lines that the session gives it.

use vstd::prelude::*;
use std::collections::VecDeque;
use vstd::utf8::{decode_utf8, valid_utf8};
use crate::error::NVDARemoteError;
use crate::event::{
    decode_event, event_of, event_views, uid_after, ConnectionType, EventObserver, EventType,
    EventView,
};
use crate::fingerprint::{trust_verdict, verdict_of, FingerprintCache, Verdict};
use crate::framing::{lemma_framing_split, records, remainder, LineBuffer};
use crate::json::{
    json_parse, json_quote, lemma_quote_has_no_line_feed, no_line_feed, one_line, parse_json,
    quote_json, text_of_value, value_text,
};
use crate::text::{text_of_bytes_lossy, text_of_utf8, utf8_lossy, views_of};

verus! {

/// Where a session stands.
///
/// A session begins as `Trusted`, once the handshake has passed the trust
/// check. Connecting, the handshake and a rejection lie before that, with the
/// caller. `Closed` is final.
#[derive(Debug, Clone, Copy, PartialEq, Eq, Structural)]
pub enum SessionState {
    /// The server is trusted; nothing was asked of it yet.
    Trusted,
    /// The request to join the channel is on its way.
    Joining,
    /// The relay confirmed the membership.
    Joined,
    /// The membership ended; the session can join again.
    Left,
    /// The stream ended or the channel failed.
    Closed,
}

/// A session as its contracts see it.
pub struct SessionView {
    pub host: Seq<char>,
    pub port: u16,
    pub channel: Seq<char>,
    pub connection_type: Seq<char>,
    pub certificate: Seq<u8>,
    pub uid: i32,
    pub state: SessionState,
    pub pending: Seq<u8>,
}

/// The state after an event: a `ChannelJoined` leads to `Joined`, a
/// `ChannelLeft` to `Left`, nothing leads out of `Closed`, and no other event
/// changes the state.
pub open spec fn state_after(state: SessionState, event: EventView) -> SessionState {
    match state {
        SessionState::Closed => SessionState::Closed,
        _ => match event {
            EventView::ChannelJoined(_) => SessionState::Joined,
            EventView::ChannelLeft => SessionState::Left,
            _ => state,
        },
    }
}

/// The membership id after a run of events.
pub open spec fn uid_through(uid: i32, events: Seq<EventView>) -> i32
    decreases events.len(),
{
    if events.len() == 0 {
        uid
    } else {
        uid_after(uid_through(uid, events.drop_last()), events.last())
    }
}

/// The state after a run of events.
pub open spec fn state_through(state: SessionState, events: Seq<EventView>) -> SessionState
    decreases events.len(),
{
    if events.len() == 0 {
        state
    } else {
        state_after(state_through(state, events.drop_last()), events.last())
    }
}

/// The event that the bytes of one record stand for.
///
/// Bytes that are UTF-8 are decoded, and the text is read as JSON. Bytes that
/// are not give an `Invalid` event with the text in which every ill-formed
/// run is replaced.
pub open spec fn record_event(record: Seq<u8>) -> EventView {
    if valid_utf8(record) {
        event_of(decode_utf8(record), json_parse(decode_utf8(record)))
    } else {
        EventView::Invalid(utf8_lossy(record))
    }
}

/// The events of a list of records, one for each, in order.
pub open spec fn events_of(lines: Seq<Seq<u8>>) -> Seq<EventView> {
    Seq::new(lines.len(), |i: int| record_event(lines[i]))
}

/// What one read does to a session, and the events it yields.
///
/// A closed session takes nothing in. An empty chunk is the end of the
/// stream: the session closes, what waited is dropped, no event comes. Any
/// other chunk is added to what waited; every record that is complete by now
/// yields its event, in order, and moves membership id and state along.
pub open spec fn update_model(before: SessionView, chunk: Seq<u8>) -> (SessionView, Seq<EventView>) {
    if before.state is Closed {
        (before, Seq::empty())
    } else if chunk.len() == 0 {
        (SessionView { state: SessionState::Closed, pending: Seq::empty(), ..before }, Seq::empty())
    } else {
        let stream = before.pending + chunk;
        let arrived = events_of(records(stream));
        (
            SessionView {
                uid: uid_through(before.uid, arrived),
                state: state_through(before.state, arrived),
                pending: remainder(stream),
                ..before
            },
            arrived,
        )
    }
}

/// What a run of reads does to a session, and the events they yield in all.
pub open spec fn update_all(before: SessionView, chunks: Seq<Seq<u8>>) -> (
    SessionView,
    Seq<EventView>,
)
    decreases chunks.len(),
{
    if chunks.len() == 0 {
        (before, Seq::empty())
    } else {
        let (mid, earlier) = update_all(before, chunks.drop_last());
        let (after, last) = update_model(mid, chunks.last());
        (after, earlier + last)
    }
}

/// The bytes of a run of chunks, one after the other.
pub open spec fn concat(chunks: Seq<Seq<u8>>) -> Seq<u8>
    decreases chunks.len(),
{
    if chunks.len() == 0 {
        Seq::empty()
    } else {
        concat(chunks.drop_last()) + chunks.last()
    }
}

/// Whether an event tells of the membership: a `ChannelJoined` or a
/// `ChannelLeft`.
pub open spec fn tells_membership(event: EventView) -> bool {
    event is ChannelJoined || event is ChannelLeft
}

/// The membership id follows the events of a run one after the other.
pub proof fn lemma_uid_through_concat(uid: i32, first: Seq<EventView>, second: Seq<EventView>)
    ensures
        uid_through(uid, first + second) == uid_through(uid_through(uid, first), second),
    decreases second.len(),
{
    if second.len() == 0 {
        assert(first + second =~= first);
    } else {
        lemma_uid_through_concat(uid, first, second.drop_last());
        assert((first + second).drop_last() =~= first + second.drop_last());
    }
}

/// The state follows the events of a run one after the other.
pub proof fn lemma_state_through_concat(
    state: SessionState,
    first: Seq<EventView>,
    second: Seq<EventView>,
)
    ensures
        state_through(state, first + second) == state_through(
            state_through(state, first),
            second,
        ),
    decreases second.len(),
{
    if second.len() == 0 {
        assert(first + second =~= first);
    } else {
        lemma_state_through_concat(state, first, second.drop_last());
        assert((first + second).drop_last() =~= first + second.drop_last());
    }
}

/// No event closes a session: only the end of the stream and the caller do.
pub proof fn lemma_events_never_close(state: SessionState, events: Seq<EventView>)
    ensures
        state_through(state, events) is Closed <==> state is Closed,
    decreases events.len(),
{
    if events.len() > 0 {
        lemma_events_never_close(state, events.drop_last());
    }
}

/// The membership id reflects the last event that tells of the membership:
/// it is the id of that `ChannelJoined`, or zero after that `ChannelLeft`.
/// Where no event of a run tells of it, the id is what it was.
pub proof fn lemma_uid_reflects_last_membership_event(uid: i32, events: Seq<EventView>, last: int)
    requires
        -1 <= last < events.len(),
        last >= 0 ==> tells_membership(events[last]),
        forall|j: int| last < j < events.len() ==> !tells_membership(#[trigger] events[j]),
    ensures
        uid_through(uid, events) == if last < 0 {
            uid
        } else {
            match events[last] {
                EventView::ChannelJoined(id) => id,
                _ => 0,
            }
        },
    decreases events.len(),
{
    if events.len() > 0 && last < events.len() - 1 {
        assert(!tells_membership(events[events.len() - 1]));
        lemma_uid_reflects_last_membership_event(uid, events.drop_last(), last);
    }
}

/// Where the stream is cut into two reads makes no difference: both reads
/// together yield the events, and leave the session, that one read of all the
/// bytes would.
pub proof fn lemma_update_split(before: SessionView, first: Seq<u8>, second: Seq<u8>)
    requires
        !(before.state is Closed),
        first.len() > 0,
        second.len() > 0,
    ensures
        update_model(before, first + second) == ({
            let (mid, earlier) = update_model(before, first);
            let (after, later) = update_model(mid, second);
            (after, earlier + later)
        }),
{
    let (mid, earlier) = update_model(before, first);
    let (after, later) = update_model(mid, second);
    let stream = before.pending + first;
    lemma_framing_split(stream, second);
    lemma_events_never_close(before.state, earlier);
    assert(before.pending + (first + second) =~= stream + second);
    assert(events_of(records(stream + second)) =~= earlier + later);
    lemma_uid_through_concat(before.uid, earlier, later);
    lemma_state_through_concat(before.state, earlier, later);
}

/// A run of chunks, none of them empty, holds a byte.
pub proof fn lemma_concat_len(chunks: Seq<Seq<u8>>)
    requires
        chunks.len() > 0,
        forall|i: int| 0 <= i < chunks.len() ==> (#[trigger] chunks[i]).len() > 0,
    ensures
        concat(chunks).len() > 0,
{
    assert(chunks.last().len() > 0);
}

/// How the stream is cut into reads makes no difference: any run of reads,
/// none of them empty, yields the events, and leaves the session, that one
/// read of all their bytes would.
pub proof fn lemma_chunking_is_immaterial(before: SessionView, chunks: Seq<Seq<u8>>)
    requires
        !(before.state is Closed),
        chunks.len() > 0,
        forall|i: int| 0 <= i < chunks.len() ==> (#[trigger] chunks[i]).len() > 0,
    ensures
        update_all(before, chunks) == update_model(before, concat(chunks)),
    decreases chunks.len(),
{
    let head = chunks.drop_last();
    if head.len() == 0 {
        assert(concat(head) =~= Seq::<u8>::empty());
        assert(concat(chunks) =~= chunks.last());
        assert(update_all(before, head) == (before, Seq::<EventView>::empty()));
        let (after, last) = update_model(before, chunks.last());
        assert(Seq::<EventView>::empty() + last =~= last);
        assert(update_all(before, chunks) == (after, Seq::<EventView>::empty() + last));
    } else {
        assert forall|i: int| 0 <= i < head.len() implies (#[trigger] head[i]).len() > 0 by {
            assert(head[i] == chunks[i]);
        }
        lemma_chunking_is_immaterial(before, head);
        lemma_concat_len(head);
        lemma_update_split(before, concat(head), chunks.last());
        assert(concat(chunks) == concat(head) + chunks.last());
        let (mid, earlier) = update_model(before, concat(head));
        let (after, last) = update_model(mid, chunks.last());
        assert(update_all(before, chunks) == (after, earlier + last));
    }
}

/// The same bytes give the same events, however they were delivered: two
/// runs of reads, none of them empty, that carry the same bytes yield the
/// same events in the same order and leave the session in the same state.
pub proof fn lemma_same_bytes_same_events(
    before: SessionView,
    one: Seq<Seq<u8>>,
    other: Seq<Seq<u8>>,
)
    requires
        !(before.state is Closed),
        one.len() > 0,
        other.len() > 0,
        forall|i: int| 0 <= i < one.len() ==> (#[trigger] one[i]).len() > 0,
        forall|i: int| 0 <= i < other.len() ==> (#[trigger] other[i]).len() > 0,
        concat(one) == concat(other),
    ensures
        update_all(before, one) == update_all(before, other),
{
    lemma_chunking_is_immaterial(before, one);
    lemma_chunking_is_immaterial(before, other);
}

/// The end of the stream is final: the read that finds it yields no event
/// and closes the session, and no read after it yields an event or changes
/// the session.
pub proof fn lemma_end_of_stream_is_final(before: SessionView, later: Seq<u8>)
    ensures
        ({
            let (ended, none) = update_model(before, Seq::empty());
            &&& ended.state is Closed
            &&& none.len() == 0
            &&& update_model(ended, later) == (ended, Seq::<EventView>::empty())
        }),
{
}

/// The line that announces the protocol version.
pub open spec fn protocol_version_line() -> Seq<char> {
    "{\"type\":\"protocol_version\",\"version\":2}\n"@
}

/// The line that asks to join a channel, for a channel key and a role that
/// are JSON string literals already.
pub open spec fn join_line(quoted_channel: Seq<char>, quoted_role: Seq<char>) -> Seq<char> {
    "{\"type\":\"join\",\"channel\":"@ + quoted_channel + ",\"connection_type\":"@ + quoted_role
        + "}\n"@
}

/// The protocol version line is one line.
pub proof fn lemma_protocol_version_line_is_one_line()
    ensures
        one_line(protocol_version_line()),
{
    reveal_strlit("{\"type\":\"protocol_version\",\"version\":2}\n");
}

/// The join line is one line, whatever channel key and role it names, as
/// long as these hold no line feed themselves.
pub proof fn lemma_join_line_is_one_line(quoted_channel: Seq<char>, quoted_role: Seq<char>)
    requires
        no_line_feed(quoted_channel),
        no_line_feed(quoted_role),
    ensures
        one_line(join_line(quoted_channel, quoted_role)),
{
    reveal_strlit("{\"type\":\"join\",\"channel\":");
    reveal_strlit(",\"connection_type\":");
    reveal_strlit("}\n");
    let head = "{\"type\":\"join\",\"channel\":"@;
    let middle = ",\"connection_type\":"@;
    let body = head + quoted_channel + middle + quoted_role + seq!['}'];
    assert(no_line_feed(head));
    assert(no_line_feed(middle));
    assert(no_line_feed(body));
    assert("}\n"@ =~= seq!['}', '\n']);
    assert(join_line(quoted_channel, quoted_role) =~= body.push('\n'));
    assert(body.push('\n').drop_last() =~= body);
}

/// What the caller of a session does next.
#[derive(Debug)]
pub enum NextStep {
    /// Hand this event out; it is the oldest that was decoded and not handed
    /// out yet.
    Deliver(EventType),
    /// Nothing waits and the session is open: read from the channel and give
    /// what came to `update`.
    Read,
    /// Nothing waits and the session is closed: there is no further event.
    Finished,
}

/// A session with a relay host.
pub struct NVDARemote {
    pub host: String,
    pub port: u16,
    pub channel: String,
    pub connection_type: String,
    certificate: Vec<u8>,
    reader: LineBuffer,
    uid: i32,
    state: SessionState,
}

impl View for NVDARemote {
    type V = SessionView;

    closed spec fn view(&self) -> SessionView {
        SessionView {
            host: self.host@,
            port: self.port,
            channel: self.channel@,
            connection_type: self.connection_type@,
            certificate: self.certificate@,
            uid: self.uid,
            state: self.state,
            pending: self.reader@,
        }
    }
}

impl NVDARemote {
    /// Opens a session with `host` after the handshake.
    ///
    /// `presented` is the certificate chain that the server sent, the leaf
    /// first; `cache` holds the pins. The session comes to be only where the
    /// trust check accepts the leaf; otherwise the failure is the one that
    /// the check names. A new session is `Trusted`, has no membership and
    /// nothing waiting, and remembers the accepted certificate.
    pub fn new(
        host: &str,
        key: &str,
        connection_type: ConnectionType,
        port: u16,
        cache: &FingerprintCache,
        presented: &Vec<Vec<u8>>,
    ) -> (outcome: Result<NVDARemote, NVDARemoteError>)
        ensures
            match outcome {
                Ok(remote) => {
                    &&& trust_verdict(cache@, host@, views_of(presented@)) == Verdict::Accepted(
                        remote@.certificate,
                    )
                    &&& remote@ == SessionView {
                        host: host@,
                        port: port,
                        channel: key@,
                        connection_type: connection_type.wire_name(),
                        certificate: presented@[0]@,
                        uid: 0,
                        state: SessionState::Trusted,
                        pending: Seq::empty(),
                    }
                },
                Err(e) => verdict_of(Err(e)) == Some(
                    trust_verdict(cache@, host@, views_of(presented@)),
                ),
            },
    {
        match cache.verify_peer(host, presented) {
            Ok(certificate) => Ok(
                NVDARemote {
                    host: host.to_owned(),
                    port,
                    channel: key.to_owned(),
                    connection_type: connection_type.to_string(),
                    certificate,
                    reader: LineBuffer::new(),
                    uid: 0,
                    state: SessionState::Trusted,
                },
            ),
            Err(e) => Err(e),
        }
    }

    /// The host, as the caller wrote it.
    pub fn host(&self) -> (host: &str)
        ensures
            host@ == self@.host,
    {
        self.host.as_str()
    }

    /// The port.
    pub fn port(&self) -> (port: u16)
        ensures
            port == self@.port,
    {
        self.port
    }

    /// The channel key.
    pub fn channel(&self) -> (key: &str)
        ensures
            key@ == self@.channel,
    {
        self.channel.as_str()
    }

    /// The role, as it is spelled on the wire.
    pub fn connection_type(&self) -> (role: &str)
        ensures
            role@ == self@.connection_type,
    {
        self.connection_type.as_str()
    }

    /// What to do next, given the events that were decoded and not handed
    /// out yet, the oldest first.
    ///
    /// Events that wait are handed out first, one a call, also after the
    /// session has closed. Once none waits, an open session asks for a read
    /// and a closed one is finished.
    pub fn next_step(&self, ready: &mut VecDeque<EventType>) -> (step: NextStep)
        ensures
            match step {
                NextStep::Deliver(event) => old(ready)@.len() > 0 && event == old(ready)@[0]
                    && final(ready)@ == old(ready)@.skip(1),
                NextStep::Read => old(ready)@.len() == 0 && !(self@.state is Closed)
                    && final(ready)@ == old(ready)@,
                NextStep::Finished => old(ready)@.len() == 0 && self@.state is Closed
                    && final(ready)@ == old(ready)@,
            },
    {
        match ready.pop_front() {
            Some(event) => NextStep::Deliver(event),
            None => if self.is_closed() {
                NextStep::Finished
            } else {
                NextStep::Read
            },
        }
    }

    /// The membership id: zero while the session is in no channel.
    pub fn uid(&self) -> (id: i32)
        ensures
            id == self@.uid,
    {
        self.uid
    }

    /// Where the session stands.
    pub fn state(&self) -> (state: SessionState)
        ensures
            state == self@.state,
    {
        self.state
    }

    /// Whether the session is over.
    pub fn is_closed(&self) -> (closed: bool)
        ensures
            closed == (self@.state is Closed),
    {
        match self.state {
            SessionState::Closed => true,
            _ => false,
        }
    }

    /// The certificate that the trust check accepted.
    pub fn certificate(&self) -> (bytes: &Vec<u8>)
        ensures
            bytes@ == self@.certificate,
    {
        &self.certificate
    }

    /// Ends the session: after a failed read or write, or when the caller
    /// gives the channel up. What waited in the reader is dropped.
    pub fn close(&mut self)
        ensures
            final(self)@ == (SessionView {
                state: SessionState::Closed,
                pending: Seq::empty(),
                ..old(self)@
            }),
    {
        self.state = SessionState::Closed;
        self.reader.clear();
    }

    /// Lays out the line that asks to join, for a channel key and a role that
    /// are JSON string literals already.
    pub fn join_request(quoted_channel: &str, quoted_role: &str) -> (line: String)
        ensures
            line@ == join_line(quoted_channel@, quoted_role@),
    {
        let mut line = "{\"type\":\"join\",\"channel\":".to_owned();
        line.append(quoted_channel);
        line.append(",\"connection_type\":");
        line.append(quoted_role);
        line.append("}\n");
        line
    }

    /// The lines to write in order to join the channel: the announcement of
    /// the protocol version, then the request with channel key and role.
    ///
    /// The session is `Joining` from then on. A closed session has nothing to
    /// write and stays closed. Joining never fails: key and role are written
    /// as JSON string literals, whatever they hold, and each line is one line.
    pub fn join(&mut self) -> (outcome: Result<Vec<String>, NVDARemoteError>)
        ensures
            match outcome {
                Ok(lines) => if old(self)@.state is Closed {
                    lines@.len() == 0 && final(self)@ == old(self)@
                } else {
                    &&& lines@.len() == 2
                    &&& lines@[0]@ == protocol_version_line()
                    &&& lines@[1]@ == join_line(
                        json_quote(old(self)@.channel),
                        json_quote(old(self)@.connection_type),
                    )
                    &&& one_line(lines@[0]@)
                    &&& one_line(lines@[1]@)
                    &&& final(self)@ == (SessionView { state: SessionState::Joining, ..old(self)@ })
                },
                Err(_) => false,
            },
    {
        let mut lines: Vec<String> = Vec::new();
        if self.is_closed() {
            return Ok(lines);
        }
        let channel = match quote_json(self.channel.as_str()) {
            Ok(channel) => channel,
            Err(e) => {
                return Err(NVDARemoteError::JsonError(e));
            },
        };
        let role = match quote_json(self.connection_type.as_str()) {
            Ok(role) => role,
            Err(e) => {
                return Err(NVDARemoteError::JsonError(e));
            },
        };
        proof {
            lemma_protocol_version_line_is_one_line();
            lemma_quote_has_no_line_feed(self@.channel);
            lemma_quote_has_no_line_feed(self@.connection_type);
            lemma_join_line_is_one_line(channel@, role@);
        }
        lines.push("{\"type\":\"protocol_version\",\"version\":2}\n".to_owned());
        lines.push(NVDARemote::join_request(channel.as_str(), role.as_str()));
        self.state = SessionState::Joining;
        Ok(lines)
    }

    /// The line to write for a message: its compact JSON text and a newline,
    /// which is the only one in the line. A closed session writes nothing.
    pub fn send(&self, message: &serde_json::Value) -> (line: Option<String>)
        ensures
            match line {
                Some(text) => !(self@.state is Closed) && text@ == value_text(*message).push('\n')
                    && one_line(text@),
                None => self@.state is Closed,
            },
    {
        if self.is_closed() {
            return None;
        }
        let mut text = text_of_value(message);
        let ghost body = text@;
        text.append("\n");
        proof {
            reveal_strlit("\n");
            assert(text@ =~= body.push('\n'));
            assert(text@.drop_last() =~= body);
        }
        Some(text)
    }

    /// Decodes the text of one record and moves the session along with it.
    pub fn parse(&mut self, data: String) -> (event: EventType)
        ensures
            event@ == event_of(data@, json_parse(data@)),
            final(self)@ == (SessionView {
                uid: uid_after(old(self)@.uid, event@),
                state: state_after(old(self)@.state, event@),
                ..old(self)@
            }),
    {
        let parsed = parse_json(data.as_str());
        let event = decode_event(data, &parsed);
        self.note(&event);
        event
    }

    fn note(&mut self, event: &EventType)
        ensures
            final(self)@ == (SessionView {
                uid: uid_after(old(self)@.uid, event@),
                state: state_after(old(self)@.state, event@),
                ..old(self)@
            }),
    {
        let closed = self.is_closed();
        match event {
            EventType::ChannelJoined(id) => {
                self.uid = *id;
                if !closed {
                    self.state = SessionState::Joined;
                }
            },
            EventType::ChannelLeft => {
                self.uid = 0;
                if !closed {
                    self.state = SessionState::Left;
                }
            },
            _ => {},
        }
    }

    /// Takes in what one read of the channel returned and hands out the
    /// events that are complete by now, in the order in which their records
    /// ended.
    ///
    /// An empty chunk is the end of the stream. What the call does and yields
    /// is what `update_model` says.
    pub fn update(&mut self, chunk: &[u8]) -> (events: Vec<EventType>)
        ensures
            (final(self)@, event_views(events@)) == update_model(old(self)@, chunk@),
    {
        let mut events: Vec<EventType> = Vec::new();
        if self.is_closed() {
            assert(event_views(events@) =~= Seq::<EventView>::empty());
            return events;
        }
        if chunk.len() == 0 {
            self.close();
            assert(event_views(events@) =~= Seq::<EventView>::empty());
            return events;
        }
        let ghost before = self@;
        let ghost stream = before.pending + chunk@;
        let lines = self.reader.feed(chunk);
        let mut i: usize = 0;
        proof {
            assert(views_of(lines@).take(0) =~= Seq::<Seq<u8>>::empty());
            assert(event_views(events@) =~= events_of(views_of(lines@).take(0)));
        }
        while i < lines.len()
            invariant
                i <= lines@.len(),
                views_of(lines@) == records(stream),
                event_views(events@) == events_of(views_of(lines@).take(i as int)),
                self@ == (SessionView {
                    uid: uid_through(before.uid, event_views(events@)),
                    state: state_through(before.state, event_views(events@)),
                    pending: remainder(stream),
                    ..before
                }),
            decreases lines.len() - i,
        {
            let ghost sofar = event_views(events@);
            let event = match text_of_utf8(lines[i].as_slice()) {
                Some(text) => self.parse(text),
                None => EventType::Invalid(text_of_bytes_lossy(lines[i].as_slice())),
            };
            assert(event@ == record_event(lines@[i as int]@));
            events.push(event);
            proof {
                let now = event_views(events@);
                let seen = views_of(lines@).take(i + 1);
                assert(now.drop_last() =~= sofar);
                assert(now.last() == event@);
                assert(seen.drop_last() =~= views_of(lines@).take(i as int));
                assert(seen.last() == lines@[i as int]@);
                assert(events_of(seen) =~= events_of(seen.drop_last()).push(
                    record_event(seen.last()),
                ));
                assert(now =~= sofar.push(event@));
            }
            i += 1;
        }
        proof {
            assert(views_of(lines@).take(i as int) =~= views_of(lines@));
        }
        events
    }

    /// Does what `update` does, and tells `observer` of each event that it
    /// hands out: once, and in the order of the events.
    pub fn update_with<O: EventObserver>(&mut self, chunk: &[u8], observer: &mut O) -> (events: Vec<
        EventType,
    >)
        ensures
            (final(self)@, event_views(events@)) == update_model(old(self)@, chunk@),
            final(observer).seen() == old(observer).seen() + event_views(events@),
    {
        let events = self.update(chunk);
        let ghost told = observer.seen();
        let mut i: usize = 0;
        assert(told + event_views(events@).take(0) =~= told);
        while i < events.len()
            invariant
                i <= events@.len(),
                observer.seen() == told + event_views(events@).take(i as int),
            decreases events.len() - i,
        {
            observer.notify(&events[i]);
            proof {
                let views = event_views(events@);
                assert(views.take(i + 1) =~= views.take(i as int).push(events@[i as int]@));
                assert(told + views.take(i + 1) =~= (told + views.take(i as int)).push(
                    events@[i as int]@,
                ));
            }
            i += 1;
        }
        proof {
            assert(event_views(events@).take(i as int) =~= event_views(events@));
        }
        events
    }
}

} // verus!
