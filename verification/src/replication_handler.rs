use vstd::prelude::*;
use crate::errors::IoErrorKind;
use crate::messages::ReplicationRequest;

verus! {

/// Where the outbound stream of a replication connection stands.
#[derive(Debug, PartialEq, Eq, Structural, Clone, Copy)]
pub enum OutboundState {
    /// A stream was requested and is not open yet.
    OpenStream,
    /// The stream is open and free.
    Idle,
    /// The stream is writing a batch of messages.
    Sending,
}

/// What the connection must do next on its outbound side.
#[derive(Debug)]
pub enum HandlerOutboundAction {
    /// Ask for an outbound stream.
    RequestStream,
    /// Write these messages, in order, on the stream.
    SendBatch(Vec<ReplicationRequest>),
    /// Nothing for now.
    Wait,
}

/// What a connection reports to the replication behaviour.
#[derive(Debug)]
pub enum HandlerEventToBehaviour {
    /// A message read from the peer.
    IncomingMessage { message: ReplicationRequest },
    /// Writing to the peer failed.
    OutgoingMessageError { error: IoErrorKind },
}

/// What the replication behaviour hands to a connection.
#[derive(Debug)]
pub enum BehaviourEventToHandler {
    /// A message to write to the peer.
    OutgoingMessage { message: ReplicationRequest },
}

/// Events of the connection that the handler acts on.
#[derive(Debug)]
pub enum HandlerConnectionEvent {
    /// The peer opened a stream to us.
    FullyNegotiatedInbound,
    /// The stream we asked for is open.
    FullyNegotiatedOutbound,
    /// Opening a stream failed; `is_outbound` when it was ours.
    DialUpgradeError { is_outbound: bool },
}

/// Per-connection state of the replication protocol: the outbound stream's
/// state, the messages waiting to be written, and whether a stream from the
/// peer is being read.
pub struct ReplicationHandler {
    reading: bool,
    outbound: Option<OutboundState>,
    outgoing_messages: Vec<ReplicationRequest>,
}

impl ReplicationHandler {
    pub closed spec fn reading_view(&self) -> bool {
        self.reading
    }

    pub closed spec fn outbound_view(&self) -> Option<OutboundState> {
        self.outbound
    }

    /// The messages waiting to be written, oldest first.
    pub closed spec fn pending_view(&self) -> Seq<ReplicationRequest> {
        self.outgoing_messages@
    }

    /// No stream, nothing pending.
    pub fn new() -> (h: Self)
        ensures
            !h.reading_view(),
            h.outbound_view() is None,
            h.pending_view() == Seq::<ReplicationRequest>::empty(),
    {
        ReplicationHandler { reading: false, outbound: None, outgoing_messages: Vec::new() }
    }

    /// The behaviour hands over a message to send to the peer.
    pub fn on_behaviour_event(&mut self, event: BehaviourEventToHandler)
        ensures
            match event {
                BehaviourEventToHandler::OutgoingMessage { message } => final(self).pending_view()
                    == old(self).pending_view().push(message),
            },
            final(self).outbound_view() == old(self).outbound_view(),
            final(self).reading_view() == old(self).reading_view(),
    {
        match event {
            BehaviourEventToHandler::OutgoingMessage { message } => {
                self.outgoing_messages.push(message);
            },
        }
    }

    /// Steps the outbound side: with no stream one is requested; a free
    /// stream with messages waiting takes all of them, oldest first, and
    /// becomes busy; otherwise nothing happens.
    pub fn poll_pending_outgoing_messages(&mut self) -> (r: HandlerOutboundAction)
        ensures
            match old(self).outbound_view() {
                None => r is RequestStream && final(self).outbound_view() == Some(OutboundState::OpenStream)
                    && final(self).pending_view() == old(self).pending_view(),
                Some(OutboundState::Idle) => if old(self).pending_view().len() > 0 {
                    &&& r matches HandlerOutboundAction::SendBatch(batch) && batch@ == old(self).pending_view()
                    &&& final(self).outbound_view() == Some(OutboundState::Sending)
                    &&& final(self).pending_view() == Seq::<ReplicationRequest>::empty()
                } else {
                    r is Wait && final(self).outbound_view() == old(self).outbound_view()
                        && final(self).pending_view() == old(self).pending_view()
                },
                Some(_) => r is Wait && final(self).outbound_view() == old(self).outbound_view()
                    && final(self).pending_view() == old(self).pending_view(),
            },
            final(self).reading_view() == old(self).reading_view(),
    {
        match self.outbound {
            None => {
                self.outbound = Some(OutboundState::OpenStream);
                HandlerOutboundAction::RequestStream
            },
            Some(OutboundState::Idle) => {
                if self.outgoing_messages.len() > 0 {
                    let mut batch: Vec<ReplicationRequest> = Vec::new();
                    std::mem::swap(&mut batch, &mut self.outgoing_messages);
                    self.outbound = Some(OutboundState::Sending);
                    HandlerOutboundAction::SendBatch(batch)
                } else {
                    HandlerOutboundAction::Wait
                }
            },
            Some(_) => HandlerOutboundAction::Wait,
        }
    }

    /// A batch finished writing: the stream is free again; when writing
    /// failed the stream is dropped, and the next step asks for a new one.
    pub fn on_send_finished(&mut self, succeeded: bool)
        ensures
            final(self).outbound_view() == if succeeded {
                Some(OutboundState::Idle)
            } else {
                None::<OutboundState>
            },
            final(self).pending_view() == old(self).pending_view(),
            final(self).reading_view() == old(self).reading_view(),
    {
        self.outbound = if succeeded {
            Some(OutboundState::Idle)
        } else {
            None
        };
    }

    /// A message was read from the peer's stream, or reading failed: a
    /// message is reported to the behaviour and the stream is read again; a
    /// failure drops the stream and is not reported.
    pub fn on_message_read(&mut self, read: Result<ReplicationRequest, IoErrorKind>) -> (r: Option<
        HandlerEventToBehaviour,
    >)
        ensures
            match read {
                Ok(message) => r == Some(HandlerEventToBehaviour::IncomingMessage { message })
                    && final(self).reading_view(),
                Err(_) => r is None && !final(self).reading_view(),
            },
            final(self).outbound_view() == old(self).outbound_view(),
            final(self).pending_view() == old(self).pending_view(),
    {
        match read {
            Ok(message) => {
                self.reading = true;
                Some(HandlerEventToBehaviour::IncomingMessage { message })
            },
            Err(_) => {
                self.reading = false;
                None
            },
        }
    }

    /// Acts on a connection event: a stream from the peer starts being
    /// read, our stream becomes free, and a failure to open our stream
    /// clears it so that another is asked for.
    pub fn on_connection_event(&mut self, event: HandlerConnectionEvent)
        ensures
            match event {
                HandlerConnectionEvent::FullyNegotiatedInbound => final(self).reading_view()
                    && final(self).outbound_view() == old(self).outbound_view(),
                HandlerConnectionEvent::FullyNegotiatedOutbound => final(self).outbound_view() == Some(
                    OutboundState::Idle,
                ) && final(self).reading_view() == old(self).reading_view(),
                HandlerConnectionEvent::DialUpgradeError { is_outbound } => final(self).outbound_view() == (
                if is_outbound {
                    None::<OutboundState>
                } else {
                    old(self).outbound_view()
                }) && final(self).reading_view() == old(self).reading_view(),
            },
            final(self).pending_view() == old(self).pending_view(),
    {
        match event {
            HandlerConnectionEvent::FullyNegotiatedInbound => {
                self.reading = true;
            },
            HandlerConnectionEvent::FullyNegotiatedOutbound => {
                self.outbound = Some(OutboundState::Idle);
            },
            HandlerConnectionEvent::DialUpgradeError { is_outbound } => {
                if is_outbound {
                    self.outbound = None;
                }
            },
        }
    }
}

} // verus!
