//! The handshake by which a client joins a server: the client says hello,
//! the server answers with a challenge, the client sends the challenge
//! back, and the server accepts or rejects. The client repeats what it sent
//! until the answer comes or its tries are used up. Times are in
//! milliseconds.

use crate::ack_manager::elapsed_between;
use crate::wire::{take_u32, take_u8, u32_bytes, write_u32, PacketReader};
use vstd::prelude::*;

verus! {

/// The most times that a client sends one step of the handshake.
pub const MAX_HANDSHAKE_TRIES: u32 = 10;

/// The tag bytes of the handshake messages.
pub const CLIENT_HELLO: u8 = 0;

pub const CLIENT_CHALLENGE: u8 = 1;

pub const SERVER_CHALLENGE: u8 = 0;

pub const SERVER_ACCEPT: u8 = 1;

pub const SERVER_REJECT: u8 = 2;

/// Where a client stands in the handshake.
#[derive(Clone, Copy, PartialEq, Eq, Debug, Structural)]
pub enum ClientPhase {
    /// The client says hello and waits for the challenge.
    AwaitingChallenge,
    /// The client has the challenge, sends it back and waits for the
    /// verdict.
    AwaitingVerdict { nonce: u32 },
    /// The server accepted.
    Connected,
    /// The server rejected, or the tries were used up.
    Disconnected,
}

/// What a server says in the handshake.
#[derive(Clone, Copy, PartialEq, Eq, Debug, Structural)]
pub enum ServerMessage {
    Challenge { nonce: u32 },
    Accept,
    Reject,
}

/// What a client says in the handshake.
#[derive(Clone, Copy, PartialEq, Eq, Debug, Structural)]
pub enum ClientMessage {
    Hello,
    Challenge { nonce: u32 },
}

/// The bytes of a server's message.
pub open spec fn encode_server_message(m: ServerMessage) -> Seq<u8> {
    match m {
        ServerMessage::Challenge { nonce } => seq![SERVER_CHALLENGE] + u32_bytes(nonce),
        ServerMessage::Accept => seq![SERVER_ACCEPT],
        ServerMessage::Reject => seq![SERVER_REJECT],
    }
}

/// The server's message that the bytes hold, if they hold one.
pub open spec fn take_server_message(bytes: Seq<u8>) -> Option<ServerMessage> {
    match take_u8(bytes, 0) {
        Some((tag, p)) => if tag == SERVER_CHALLENGE {
            match take_u32(bytes, p) {
                Some((nonce, _)) => Some(ServerMessage::Challenge { nonce }),
                None => None,
            }
        } else if tag == SERVER_ACCEPT {
            Some(ServerMessage::Accept)
        } else if tag == SERVER_REJECT {
            Some(ServerMessage::Reject)
        } else {
            None
        },
        None => None,
    }
}

/// The bytes of a client's message.
pub open spec fn encode_client_message(m: ClientMessage) -> Seq<u8> {
    match m {
        ClientMessage::Hello => seq![CLIENT_HELLO],
        ClientMessage::Challenge { nonce } => seq![CLIENT_CHALLENGE] + u32_bytes(nonce),
    }
}

/// The client's message that the bytes hold, if they hold one.
pub open spec fn take_client_message(bytes: Seq<u8>) -> Option<ClientMessage> {
    match take_u8(bytes, 0) {
        Some((tag, p)) => if tag == CLIENT_HELLO {
            Some(ClientMessage::Hello)
        } else if tag == CLIENT_CHALLENGE {
            match take_u32(bytes, p) {
                Some((nonce, _)) => Some(ClientMessage::Challenge { nonce }),
                None => None,
            }
        } else {
            None
        },
        None => None,
    }
}

/// Writes a server's message.
pub fn write_server_message(m: ServerMessage) -> (out: Vec<u8>)
    ensures
        out@ == encode_server_message(m),
{
    let mut out: Vec<u8> = Vec::new();
    match m {
        ServerMessage::Challenge { nonce } => {
            out.push(SERVER_CHALLENGE);
            write_u32(&mut out, nonce);
        },
        ServerMessage::Accept => {
            out.push(SERVER_ACCEPT);
        },
        ServerMessage::Reject => {
            out.push(SERVER_REJECT);
        },
    }
    assert(out@ =~= encode_server_message(m));
    out
}

/// Reads a server's message.
pub fn read_server_message(bytes: &[u8]) -> (r: Option<ServerMessage>)
    ensures
        r == take_server_message(bytes@),
{
    let mut reader = PacketReader::new(bytes);
    let tag = match reader.read_u8() {
        Some(t) => t,
        None => {
            return None;
        },
    };
    if tag == SERVER_CHALLENGE {
        match reader.read_u32() {
            Some(nonce) => Some(ServerMessage::Challenge { nonce }),
            None => None,
        }
    } else if tag == SERVER_ACCEPT {
        Some(ServerMessage::Accept)
    } else if tag == SERVER_REJECT {
        Some(ServerMessage::Reject)
    } else {
        None
    }
}

/// Writes a client's message.
pub fn write_client_message(m: ClientMessage) -> (out: Vec<u8>)
    ensures
        out@ == encode_client_message(m),
{
    let mut out: Vec<u8> = Vec::new();
    match m {
        ClientMessage::Hello => {
            out.push(CLIENT_HELLO);
        },
        ClientMessage::Challenge { nonce } => {
            out.push(CLIENT_CHALLENGE);
            write_u32(&mut out, nonce);
        },
    }
    assert(out@ =~= encode_client_message(m));
    out
}

/// Reads a client's message.
pub fn read_client_message(bytes: &[u8]) -> (r: Option<ClientMessage>)
    ensures
        r == take_client_message(bytes@),
{
    let mut reader = PacketReader::new(bytes);
    let tag = match reader.read_u8() {
        Some(t) => t,
        None => {
            return None;
        },
    };
    if tag == CLIENT_HELLO {
        Some(ClientMessage::Hello)
    } else if tag == CLIENT_CHALLENGE {
        match reader.read_u32() {
            Some(nonce) => Some(ClientMessage::Challenge { nonce }),
            None => None,
        }
    } else {
        None
    }
}

/// The client's side of the handshake.
#[derive(Clone, Copy, PartialEq, Eq, Debug, Structural)]
pub struct ClientHandshake {
    pub phase: ClientPhase,
    /// The interval after which a step is sent again.
    pub interval: u64,
    /// When the current step was last sent.
    pub last_sent_at: u64,
    /// How often the current step was sent.
    pub tries: u32,
}

/// What the client is to send in its phase, if anything.
pub open spec fn message_of(phase: ClientPhase) -> Option<ClientMessage> {
    match phase {
        ClientPhase::AwaitingChallenge => Some(ClientMessage::Hello),
        ClientPhase::AwaitingVerdict { nonce } => Some(ClientMessage::Challenge { nonce }),
        _ => None,
    }
}

/// Whether the current step is due at `now`: it was never sent, or the
/// interval has passed since it was sent.
pub open spec fn step_due(h: ClientHandshake, now: u64) -> bool {
    message_of(h.phase) is Some && (h.tries == 0 || elapsed_between(h.last_sent_at, now)
        >= h.interval)
}

/// The handshake after the clock has reached `now`, with what is to be
/// sent: a step that is due is sent again, unless it was sent as often as
/// allowed; then the client gives up.
pub open spec fn handshake_ticked(h: ClientHandshake, now: u64) -> (ClientHandshake, Option<
    ClientMessage,
>) {
    if !step_due(h, now) {
        (h, None)
    } else if h.tries >= MAX_HANDSHAKE_TRIES {
        (ClientHandshake { phase: ClientPhase::Disconnected, ..h }, None)
    } else {
        (
            ClientHandshake { last_sent_at: now, tries: (h.tries + 1) as u32, ..h },
            message_of(h.phase),
        )
    }
}

/// The handshake after a message from the server: a challenge moves a
/// client that waits for it on to sending it back, a verdict settles a
/// client that waits for it; a message that does not fit the phase changes
/// nothing.
pub open spec fn handshake_heard(h: ClientHandshake, m: ServerMessage) -> ClientHandshake {
    match (h.phase, m) {
        (ClientPhase::AwaitingChallenge, ServerMessage::Challenge { nonce }) => ClientHandshake {
            phase: ClientPhase::AwaitingVerdict { nonce },
            tries: 0,
            ..h
        },
        (ClientPhase::AwaitingVerdict { .. }, ServerMessage::Accept) => ClientHandshake {
            phase: ClientPhase::Connected,
            ..h
        },
        (ClientPhase::AwaitingVerdict { .. }, ServerMessage::Reject) => ClientHandshake {
            phase: ClientPhase::Disconnected,
            ..h
        },
        (ClientPhase::AwaitingChallenge, ServerMessage::Reject) => ClientHandshake {
            phase: ClientPhase::Disconnected,
            ..h
        },
        _ => h,
    }
}

impl ClientHandshake {
    /// A handshake that has not begun.
    pub fn new(interval: u64, now: u64) -> (h: Self)
        ensures
            h == (ClientHandshake {
                phase: ClientPhase::AwaitingChallenge,
                interval,
                last_sent_at: now,
                tries: 0,
            }),
    {
        ClientHandshake { phase: ClientPhase::AwaitingChallenge, interval, last_sent_at: now, tries: 0 }
    }

    /// Whether the server has accepted.
    pub fn is_connected(&self) -> (b: bool)
        ensures
            b == (self.phase == ClientPhase::Connected),
    {
        match self.phase {
            ClientPhase::Connected => true,
            _ => false,
        }
    }

    /// Whether the handshake has failed.
    pub fn is_disconnected(&self) -> (b: bool)
        ensures
            b == (self.phase == ClientPhase::Disconnected),
    {
        match self.phase {
            ClientPhase::Disconnected => true,
            _ => false,
        }
    }

    /// What is to be sent at `now`, if anything.
    pub fn tick(&mut self, now: u64) -> (r: Option<ClientMessage>)
        ensures
            (*final(self), r) == handshake_ticked(*old(self), now),
    {
        let message = match self.phase {
            ClientPhase::AwaitingChallenge => ClientMessage::Hello,
            ClientPhase::AwaitingVerdict { nonce } => ClientMessage::Challenge { nonce },
            _ => {
                return None;
            },
        };
        let elapsed = if now >= self.last_sent_at {
            now - self.last_sent_at
        } else {
            0
        };
        if self.tries != 0 && elapsed < self.interval {
            return None;
        }
        if self.tries >= MAX_HANDSHAKE_TRIES {
            self.phase = ClientPhase::Disconnected;
            return None;
        }
        self.last_sent_at = now;
        self.tries = self.tries + 1;
        Some(message)
    }

    /// Takes a message from the server.
    pub fn receive(&mut self, m: ServerMessage)
        ensures
            *final(self) == handshake_heard(*old(self), m),
    {
        match (self.phase, m) {
            (ClientPhase::AwaitingChallenge, ServerMessage::Challenge { nonce }) => {
                self.phase = ClientPhase::AwaitingVerdict { nonce };
                self.tries = 0;
            },
            (ClientPhase::AwaitingVerdict { .. }, ServerMessage::Accept) => {
                self.phase = ClientPhase::Connected;
            },
            (ClientPhase::AwaitingVerdict { .. }, ServerMessage::Reject) => {
                self.phase = ClientPhase::Disconnected;
            },
            (ClientPhase::AwaitingChallenge, ServerMessage::Reject) => {
                self.phase = ClientPhase::Disconnected;
            },
            _ => {},
        }
    }
}

/// What a server answers to a client's message: a hello gets the challenge
/// that the server holds for the client; a challenge that is the one the
/// server holds gets the verdict, any other a rejection.
pub open spec fn server_answer(m: ClientMessage, nonce: u32, accept: bool) -> ServerMessage {
    match m {
        ClientMessage::Hello => ServerMessage::Challenge { nonce },
        ClientMessage::Challenge { nonce: reply } => if reply == nonce && accept {
            ServerMessage::Accept
        } else {
            ServerMessage::Reject
        },
    }
}

/// Answers a client's message. `nonce` is the challenge that the server
/// holds for the client, `accept` its verdict on the client.
pub fn answer(m: ClientMessage, nonce: u32, accept: bool) -> (r: ServerMessage)
    ensures
        r == server_answer(m, nonce, accept),
{
    match m {
        ClientMessage::Hello => ServerMessage::Challenge { nonce },
        ClientMessage::Challenge { nonce: reply } => {
            if reply == nonce && accept {
                ServerMessage::Accept
            } else {
                ServerMessage::Reject
            }
        },
    }
}

/// A client that hears the server's answers to what it sends is connected
/// after two exchanges if the server accepts, and disconnected if not.
pub proof fn lemma_handshake_completes(h: ClientHandshake, nonce: u32, accept: bool, now: u64)
    requires
        h.phase == ClientPhase::AwaitingChallenge,
        h.tries == 0,
    ensures
        ({
            let (h1, hello) = handshake_ticked(h, now);
            let h2 = handshake_heard(h1, server_answer(hello.unwrap(), nonce, accept));
            let (h3, reply) = handshake_ticked(h2, now);
            let h4 = handshake_heard(h3, server_answer(reply.unwrap(), nonce, accept));
            &&& hello == Some(ClientMessage::Hello)
            &&& reply == Some(ClientMessage::Challenge { nonce })
            &&& h4.phase == if accept {
                ClientPhase::Connected
            } else {
                ClientPhase::Disconnected
            }
        }),
{
}

} // verus!
