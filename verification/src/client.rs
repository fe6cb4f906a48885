//! One connection's side of the bus: what to do with what was read from the
//! socket, with an answer that came back, and with what became of a write.
//! The program around the library waits, reads and writes; every decision
//! in between is made here.

use crate::dispatcher::{lemma_reply_goes_to_author, Message, MessageView, World};
use vstd::prelude::*;
use vstd::utf8::encode_utf8;

verus! {

/// How many bytes one read from the socket asks for.
pub const READ_BUFFER: usize = 1024;

/// How many milliseconds a connection rests between two looks at its
/// socket, and how long it waits for an answer before it looks again.
pub const POLL_MILLIS: u64 = 10;

/// The request that tells the dispatcher that a connection is gone.
pub open spec fn farewell() -> Seq<char> {
    "disconnect"@
}

/// What happened on a connection.
#[derive(Debug)]
pub enum Event {
    /// The bytes of one read. None at all: the peer has closed.
    Read(Vec<u8>),
    /// The socket had nothing to read yet.
    ReadBlocked,
    /// Reading failed for good.
    ReadFailed,
    /// An envelope arrived on the connection's own channel.
    Reply(Message),
    /// No envelope arrived in time.
    NoReply,
    /// The socket took this many bytes.
    Written(usize),
    /// The socket could not take anything yet.
    WriteBlocked,
    /// Writing failed for good.
    WriteFailed,
}

/// An event as mathematics.
pub enum EventView {
    Read(Seq<u8>),
    ReadBlocked,
    ReadFailed,
    Reply(MessageView),
    NoReply,
    Written(nat),
    WriteBlocked,
    WriteFailed,
}

impl View for Event {
    type V = EventView;

    open spec fn view(&self) -> EventView {
        match self {
            Event::Read(data) => EventView::Read(data@),
            Event::ReadBlocked => EventView::ReadBlocked,
            Event::ReadFailed => EventView::ReadFailed,
            Event::Reply(message) => EventView::Reply(message@),
            Event::NoReply => EventView::NoReply,
            Event::Written(count) => EventView::Written(*count as nat),
            Event::WriteBlocked => EventView::WriteBlocked,
            Event::WriteFailed => EventView::WriteFailed,
        }
    }
}

/// What the connection is to do next.
#[derive(Debug)]
pub enum Action {
    /// Put this request on the bus.
    Submit(Message),
    /// Write these bytes to the socket.
    Write(Vec<u8>),
    /// Nothing: go on waiting.
    Idle,
    /// Put this last request on the bus and stop.
    Close(Message),
}

/// An action as mathematics.
pub enum ActionView {
    Submit(MessageView),
    Write(Seq<u8>),
    Idle,
    Close(MessageView),
}

impl View for Action {
    type V = ActionView;

    open spec fn view(&self) -> ActionView {
        match self {
            Action::Submit(message) => ActionView::Submit(message@),
            Action::Write(data) => ActionView::Write(data@),
            Action::Idle => ActionView::Idle,
            Action::Close(message) => ActionView::Close(message@),
        }
    }
}

/// One connection between a socket and the bus.
#[derive(Debug, Clone, Copy, PartialEq, Eq, Structural)]
pub struct Session {
    /// The connection's own identifier.
    pub uuid: u128,
    /// The identifier of the server, to which every request goes.
    pub server_uuid: u128,
    /// Whether the connection has said farewell.
    pub closed: bool,
}

impl Session {
    /// The request that carries `data` from this connection to the server.
    pub open spec fn request(self, data: Seq<u8>) -> MessageView {
        MessageView { author: self.uuid, target: self.server_uuid, data }
    }

    /// What the connection does on an event. What was read goes to the
    /// server as it is. An answer is written to the socket if it is
    /// addressed to this connection, and dropped if it is not. A read of no
    /// bytes and a failure that is more than a wait end the connection: it
    /// says farewell to the server, once, and does nothing after that.
    pub open spec fn action_on(self, event: EventView) -> ActionView {
        if self.closed {
            ActionView::Idle
        } else {
            match event {
                EventView::Read(data) => if data.len() == 0 {
                    ActionView::Close(self.request(encode_utf8(farewell())))
                } else {
                    ActionView::Submit(self.request(data))
                },
                EventView::ReadFailed => ActionView::Close(self.request(encode_utf8(farewell()))),
                EventView::WriteFailed => ActionView::Close(
                    self.request(encode_utf8(farewell())),
                ),
                EventView::Reply(message) => if message.target == self.uuid {
                    ActionView::Write(message.data)
                } else {
                    ActionView::Idle
                },
                _ => ActionView::Idle,
            }
        }
    }

    /// The connection after an event: closed once it has said farewell.
    pub open spec fn after(self, event: EventView) -> Session {
        Session { closed: self.closed || self.action_on(event) is Close, ..self }
    }

    /// A connection that has just been accepted.
    pub fn new(uuid: u128, server_uuid: u128) -> (session: Session)
        ensures
            session == (Session { uuid, server_uuid, closed: false }),
    {
        Session { uuid, server_uuid, closed: false }
    }

    /// The last request of a connection.
    fn goodbye(&self) -> (message: Message)
        ensures
            message@ == self.request(encode_utf8(farewell())),
    {
        Message { author: self.uuid, target: self.server_uuid, data: "disconnect".as_bytes_vec() }
    }

    /// Decides what to do on an event.
    pub fn step(&mut self, event: Event) -> (action: Action)
        ensures
            action@ == old(self).action_on(event@),
            *final(self) == old(self).after(event@),
    {
        if self.closed {
            return Action::Idle;
        }
        match event {
            Event::Read(data) => {
                if data.len() == 0 {
                    self.closed = true;
                    Action::Close(self.goodbye())
                } else {
                    Action::Submit(
                        Message { author: self.uuid, target: self.server_uuid, data },
                    )
                }
            },
            Event::ReadFailed => {
                self.closed = true;
                Action::Close(self.goodbye())
            },
            Event::WriteFailed => {
                self.closed = true;
                Action::Close(self.goodbye())
            },
            Event::Reply(message) => {
                if message.target == self.uuid {
                    Action::Write(message.data)
                } else {
                    Action::Idle
                }
            },
            _ => Action::Idle,
        }
    }
}

/// A connection writes to its socket only what is addressed to it.
pub proof fn lemma_writes_own_replies(session: Session, reply: MessageView)
    ensures
        session.action_on(EventView::Reply(reply)) is Write ==> reply.target == session.uuid
            && session.action_on(EventView::Reply(reply)) == ActionView::Write(reply.data),
        reply.target != session.uuid ==> session.action_on(EventView::Reply(reply))
            == ActionView::Idle,
{
}

/// An answer of the dispatcher reaches the socket of the connection that
/// asked, and of no other: a connection that writes it is the author of the
/// request.
pub proof fn lemma_answer_reaches_its_author(
    world: World,
    request: MessageView,
    landing: Option<(int, int)>,
    session: Session,
)
    requires
        world.handle(request, landing).reply is Some,
    ensures
        ({
            let reply = world.handle(request, landing).reply->0;
            &&& session.action_on(EventView::Reply(reply)) is Write ==> session.uuid
                == request.author
            &&& session.uuid != request.author ==> session.action_on(EventView::Reply(reply))
                == ActionView::Idle
            &&& session.uuid == request.author && !session.closed ==> session.action_on(
                EventView::Reply(reply),
            ) == ActionView::Write(reply.data)
        }),
{
    lemma_reply_goes_to_author(world, request, landing);
}

/// Every request that a connection puts on the bus names the connection as
/// its author and the server as its target.
pub proof fn lemma_requests_are_addressed(session: Session, event: EventView)
    ensures
        session.action_on(event) matches ActionView::Submit(message) ==> message.author
            == session.uuid && message.target == session.server_uuid,
        session.action_on(event) matches ActionView::Close(message) ==> message.author
            == session.uuid && message.target == session.server_uuid,
{
}

/// A connection that has said farewell stays silent.
pub proof fn lemma_closed_stays_closed(session: Session, first: EventView, second: EventView)
    requires
        session.action_on(first) is Close,
    ensures
        session.after(first).closed,
        session.after(first).action_on(second) == ActionView::Idle,
        session.after(first).after(second) == session.after(first),
{
}

} // verus!
