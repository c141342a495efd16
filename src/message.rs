//! Incoming chat messages as the rule engine sees them.
use vstd::prelude::*;

verus! {

/// Where a message was sent, with the client id for direct messages and pokes.
#[derive(Clone, Copy, Debug, PartialEq, Eq, Structural)]
pub enum Target {
    Server,
    Channel,
    Client(u16),
    Poke(u16),
}

/// The chat mode a rule can be restricted to; a poke is written as `None`.
#[derive(Clone, Copy, Debug, PartialEq, Eq, Structural)]
pub enum ChatMode {
    Server,
    Channel,
    Client,
}

/// One incoming text message or poke.
#[derive(Clone, Debug)]
pub struct Message {
    pub target: Target,
    /// Client id of the sender.
    pub invoker_id: u16,
    /// Display name of the sender.
    pub invoker_name: String,
    /// Persistent identity of the sender, where the server sent one.
    pub invoker_uid: Option<Vec<u8>>,
    pub message: String,
}

/// The label of a message target, as handed to external programs.
pub open spec fn target_name(t: Target) -> Seq<char> {
    match t {
        Target::Server => "server"@,
        Target::Channel => "channel"@,
        Target::Client(_) => "client"@,
        Target::Poke(_) => "poke"@,
    }
}

/// The label of a chat mode filter (`None` is a poke).
pub open spec fn mode_name(m: Option<ChatMode>) -> Seq<char> {
    match m {
        Some(ChatMode::Server) => "server"@,
        Some(ChatMode::Channel) => "channel"@,
        Some(ChatMode::Client) => "client"@,
        None => "poke"@,
    }
}

/// Whether a message sent to `t` passes the chat mode filter `m`.
pub open spec fn mode_holds(m: Option<ChatMode>, t: Target) -> bool {
    match m {
        Some(ChatMode::Server) => t is Server,
        Some(ChatMode::Channel) => t is Channel,
        Some(ChatMode::Client) => t is Client,
        None => t is Poke,
    }
}

} // verus!
