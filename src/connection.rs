//! Lifecycle of the one connection to the tutoring service. The transport
//! itself is driven from outside; this is the state it is in.

use vstd::prelude::*;

verus! {

/// State of the connection.
pub enum ConnectionState {
    Disconnected,
    Connecting,
    Connected,
    Errored(String),
}

/// State of the connection, as a value.
pub enum ConnectionView {
    Disconnected,
    Connecting,
    Connected,
    Errored(Seq<char>),
}

impl View for ConnectionState {
    type V = ConnectionView;

    open spec fn view(&self) -> ConnectionView {
        match self {
            ConnectionState::Disconnected => ConnectionView::Disconnected,
            ConnectionState::Connecting => ConnectionView::Connecting,
            ConnectionState::Connected => ConnectionView::Connected,
            ConnectionState::Errored(reason) => ConnectionView::Errored(reason@),
        }
    }
}

/// Text shown for a connection state.
pub open spec fn spec_status_text(s: ConnectionView) -> Seq<char> {
    match s {
        ConnectionView::Disconnected => "Disconnected"@,
        ConnectionView::Connecting => "Connecting..."@,
        ConnectionView::Connected => "Connected"@,
        ConnectionView::Errored(reason) => "Error: "@ + reason,
    }
}

/// Class of the status indicator for a connection state.
pub open spec fn spec_indicator_class(s: ConnectionView) -> Seq<char> {
    match s {
        ConnectionView::Connected => "status-indicator connected"@,
        ConnectionView::Errored(_) => "status-indicator error"@,
        _ => "status-indicator disconnected"@,
    }
}

impl ConnectionState {
    pub fn is_connected(&self) -> (r: bool)
        ensures
            r == (self@ is Connected),
    {
        match self {
            ConnectionState::Connected => true,
            _ => false,
        }
    }

    /// Class of the status indicator for this state.
    pub fn indicator_class(&self) -> (r: &'static str)
        ensures
            r@ == spec_indicator_class(self@),
    {
        match self {
            ConnectionState::Connected => "status-indicator connected",
            ConnectionState::Errored(_) => "status-indicator error",
            _ => "status-indicator disconnected",
        }
    }

    /// Text shown for this state.
    pub fn status_text(&self) -> (r: String)
        ensures
            r@ == spec_status_text(self@),
    {
        match self {
            ConnectionState::Disconnected => String::from_str("Disconnected"),
            ConnectionState::Connecting => String::from_str("Connecting..."),
            ConnectionState::Connected => String::from_str("Connected"),
            ConnectionState::Errored(reason) => {
                let mut r = String::from_str("Error: ");
                r.append(reason.as_str());
                r
            },
        }
    }
}

/// A message that came in over the connection: a text frame, or an error
/// report for anything else.
pub enum WebSocketMessage {
    Text(String),
    Error(String),
}

/// What is reported for a frame that does not hold text.
pub open spec fn non_text_reason() -> Seq<char> {
    "Received non-text message"@
}

/// Turns an incoming frame into a message: `Some` holds the text of a text
/// frame, `None` stands for any other frame.
pub fn classify_frame(frame: Option<String>) -> (r: WebSocketMessage)
    ensures
        frame matches Some(t) ==> (r matches WebSocketMessage::Text(u) && u@ == t@),
        frame is None ==> (r matches WebSocketMessage::Error(u) && u@ == non_text_reason()),
{
    match frame {
        Some(t) => WebSocketMessage::Text(t),
        None => WebSocketMessage::Error(String::from_str("Received non-text message")),
    }
}

/// Why a send was refused.
#[derive(Clone, Copy, PartialEq, Eq, Debug, Structural)]
pub enum SendError {
    NotConnected,
}

/// The connection as a value: where it goes, its state, and whether a
/// transport is held.
pub struct ServiceView {
    pub url: Seq<char>,
    pub state: ConnectionView,
    pub attached: bool,
}

/// The connection to the tutoring service.
pub struct WebSocketService {
    url: String,
    state: ConnectionState,
    attached: bool,
}

impl View for WebSocketService {
    type V = ServiceView;

    closed spec fn view(&self) -> ServiceView {
        ServiceView { url: self.url@, state: self.state@, attached: self.attached }
    }
}

impl WebSocketService {
    /// A service for `url`, not connected and holding no transport.
    pub fn new(url: &str) -> (r: WebSocketService)
        ensures
            r@ == (ServiceView { url: url@, state: ConnectionView::Disconnected, attached: false }),
    {
        WebSocketService {
            url: String::from_str(url),
            state: ConnectionState::Disconnected,
            attached: false,
        }
    }

    pub fn url(&self) -> (r: &str)
        ensures
            r@ == self@.url,
    {
        self.url.as_str()
    }

    pub fn state(&self) -> (r: &ConnectionState)
        ensures
            r@ == self@.state,
    {
        &self.state
    }

    /// A transport is being built: the state is `Connecting`. Returns
    /// whether a transport from an earlier connect is still held and has to
    /// be released first.
    pub fn connect(&mut self) -> (r: bool)
        ensures
            r == old(self)@.attached,
            final(self)@ == (ServiceView {
                url: old(self)@.url,
                state: ConnectionView::Connecting,
                attached: true,
            }),
    {
        let r = self.attached;
        self.state = ConnectionState::Connecting;
        self.attached = true;
        r
    }

    /// The transport could not be built: the state is `Errored` with the
    /// reason, and no transport is held.
    pub fn construction_failed(&mut self, reason: &str)
        ensures
            final(self)@ == (ServiceView {
                url: old(self)@.url,
                state: ConnectionView::Errored(reason@),
                attached: false,
            }),
    {
        self.state = ConnectionState::Errored(String::from_str(reason));
        self.attached = false;
    }

    /// The transport opened. This takes effect only while connecting: after
    /// a close or an error only `connect` leaves that state.
    pub fn opened(&mut self)
        ensures
            old(self)@.state is Connecting ==> final(self)@ == (ServiceView {
                url: old(self)@.url,
                state: ConnectionView::Connected,
                attached: old(self)@.attached,
            }),
            !(old(self)@.state is Connecting) ==> final(self)@ == old(self)@,
    {
        if let ConnectionState::Connecting = self.state {
            self.state = ConnectionState::Connected;
        }
    }

    /// The transport closed; nothing reconnects it.
    pub fn closed(&mut self)
        ensures
            final(self)@ == (ServiceView {
                url: old(self)@.url,
                state: ConnectionView::Disconnected,
                attached: old(self)@.attached,
            }),
    {
        self.state = ConnectionState::Disconnected;
    }

    /// The transport failed; nothing reconnects it.
    pub fn errored(&mut self, reason: &str)
        ensures
            final(self)@ == (ServiceView {
                url: old(self)@.url,
                state: ConnectionView::Errored(reason@),
                attached: old(self)@.attached,
            }),
    {
        self.state = ConnectionState::Errored(String::from_str(reason));
    }

    /// Whether `text` may be sent now: only in the `Connected` state.
    pub fn send_text(&self, text: &str) -> (r: Result<(), SendError>)
        ensures
            self@.state is Connected ==> r == Ok::<(), SendError>(()),
            !(self@.state is Connected) ==> r == Err::<(), SendError>(SendError::NotConnected),
    {
        if self.state.is_connected() {
            Ok(())
        } else {
            Err(SendError::NotConnected)
        }
    }

    /// Tears the connection down. Returns whether a transport was held and
    /// has to be released; without one this changes nothing.
    pub fn close(&mut self) -> (r: bool)
        ensures
            r == old(self)@.attached,
            r ==> final(self)@ == (ServiceView {
                url: old(self)@.url,
                state: ConnectionView::Disconnected,
                attached: false,
            }),
            !r ==> final(self)@ == old(self)@,
    {
        if self.attached {
            self.attached = false;
            self.state = ConnectionState::Disconnected;
            true
        } else {
            false
        }
    }
}

} // verus!
