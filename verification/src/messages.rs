use vstd::prelude::*;

verus! {

/// One outbound text frame, ready to be written to a connection.
pub struct WsMessage(pub String);

/// A new connection announces itself to the lobby.
pub struct Connect {
    pub lobby_id: u128,
    pub self_id: u128,
}

/// A connection has closed; sent to the lobby exactly once per session.
pub struct Disconnect {
    pub id: u128,
    pub room_id: u128,
    pub name: String,
}

/// How a finished vote is resolved.
#[derive(Clone, Copy, Debug, PartialEq, Eq, Structural)]
pub enum VoteMode {
    MajorityDecision,
    ConsensusDecision,
}

/// The kind of a client event, as the lobby receives it.
#[derive(Clone, Copy, Debug, PartialEq, Eq, Structural)]
pub enum Type {
    Join,
    Message,
    Vote,
    SetVoteMode(VoteMode),
    AddRestaurant,
}

/// A client event forwarded by a session to the lobby.
pub struct ClientActorMessage {
    pub kind: Type,
    pub id: u128,
    pub msg: String,
    pub room_id: u128,
    pub name: String,
}

/// An inbound protocol frame, decoded from one text message.
pub enum IncomingMessage {
    Join { name: String },
    Message { message: String },
    SetVoteMode { vote_mode: VoteMode },
    AddRestarant { restaurant_name: String, remark: String },
    Vote { is_agree: bool },
}

/// Payload of an outbound plain-text notification; put on the wire by
/// `codec::encode_message_frame`.
pub struct MessagePayload {
    pub kind: String,
    pub message: String,
}

/// Payload of an outbound join notification; `length` is the room size
/// after the join. Put on the wire by `codec::encode_join_frame`.
pub struct JoinPayload {
    pub kind: String,
    pub message: String,
    pub length: usize,
}

/// Where a room stands in the voting state machine.
#[derive(Clone, Copy, Debug, PartialEq, Eq, Structural)]
pub enum GamePhase {
    Waiting,
    Selection,
    Voting,
    Ending,
}

/// One frame addressed to one session, produced by a lobby event handler.
pub struct Delivery {
    pub to: u128,
    pub msg: WsMessage,
}

} // verus!
