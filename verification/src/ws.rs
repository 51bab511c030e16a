use vstd::prelude::*;
use vstd::string::StrSliceExecFns;
use vstd::string::StringExecFns;

use crate::codec::{encode_option_json, parse_frame, spec_option_json, spec_parse_frame, FrameSpec};
use crate::extern_calls::fresh_session_id;
use crate::messages::{ClientActorMessage, Type};

verus! {

/// How often a liveness probe goes out, in seconds.
pub const HEARTBEAT_INTERVAL_SECS: u64 = 3;

/// How long a silent peer is tolerated before the connection is closed,
/// in seconds.
pub const CLIENT_TIMEOUT_SECS: u64 = 10;

/// The liveness policy: the connection is terminated exactly when the
/// silence since the last liveness response exceeds the timeout.
pub fn heartbeat_expired(elapsed_secs: u64) -> (r: bool)
    ensures
        r == (elapsed_secs > CLIENT_TIMEOUT_SECS),
{
    elapsed_secs > CLIENT_TIMEOUT_SECS
}

/// Whether a string holds nothing but blanks, so an option name made of
/// them is dropped.
pub open spec fn spec_is_blank(s: Seq<char>) -> bool {
    forall|i: int|
        0 <= i < s.len() ==> (s[i] == ' ' || s[i] == '\t' || s[i] == '\n' || s[i] == '\r')
}

fn is_blank(s: &str) -> (b: bool)
    ensures
        b == spec_is_blank(s@),
{
    let n = s.unicode_len();
    let mut i: usize = 0;
    while i < n
        invariant
            i <= n,
            n == s@.len(),
            forall|j: int|
                0 <= j < i ==> (s@[j] == ' ' || s@[j] == '\t' || s@[j] == '\n' || s@[j] == '\r'),
        decreases n - i,
    {
        let c = s.get_char(i);
        if c != ' ' && c != '\t' && c != '\n' && c != '\r' {
            return false;
        }
        i += 1;
    }
    true
}

/// One connection's identity within a room: the per-session state a
/// session handler owns. Everything else lives with the lobby.
pub struct WsConn {
    room: u128,
    id: u128,
    name: String,
}

impl WsConn {
    pub closed spec fn spec_room(&self) -> u128 {
        self.room
    }

    pub closed spec fn spec_id(&self) -> u128 {
        self.id
    }

    pub closed spec fn spec_name(&self) -> Seq<char> {
        self.name@
    }

    /// A fresh session for the given room, under a newly drawn
    /// identifier, with no display name yet.
    pub fn new(room: u128) -> (c: WsConn)
        ensures
            c.spec_room() == room,
            c.spec_name() == Seq::<char>::empty(),
    {
        WsConn { room, id: fresh_session_id(), name: String::new() }
    }

    pub fn room(&self) -> (r: u128)
        ensures
            r == self.spec_room(),
    {
        self.room
    }

    pub fn id(&self) -> (r: u128)
        ensures
            r == self.spec_id(),
    {
        self.id
    }

    pub fn name(&self) -> (r: &String)
        ensures
            r@ == self.spec_name(),
    {
        &self.name
    }

    /// Decodes one inbound text frame and builds the event the lobby
    /// receives. A malformed frame yields nothing and changes nothing;
    /// a join binds the display name; an option suggestion whose name
    /// is all blanks is dropped; a vote is forwarded as the canonical
    /// `true`/`false` payload.
    pub fn on_text(&mut self, text: &str) -> (r: Option<ClientActorMessage>)
        ensures
            final(self).spec_room() == old(self).spec_room(),
            final(self).spec_id() == old(self).spec_id(),
            spec_parse_frame(text@) is None ==> r is None && final(self).spec_name() == old(
                self,
            ).spec_name(),
            spec_parse_frame(text@) matches Some(f) ==> match f {
                FrameSpec::Join { name } => {
                    &&& final(self).spec_name() == name
                    &&& r is Some
                    &&& r->0.kind == Type::Join
                    &&& r->0.id == old(self).spec_id()
                    &&& r->0.room_id == old(self).spec_room()
                    &&& r->0.msg@ == name
                    &&& r->0.name@ == name
                },
                FrameSpec::Message { message } => {
                    &&& final(self).spec_name() == old(self).spec_name()
                    &&& r is Some
                    &&& r->0.kind == Type::Message
                    &&& r->0.id == old(self).spec_id()
                    &&& r->0.room_id == old(self).spec_room()
                    &&& r->0.msg@ == message
                    &&& r->0.name@ == old(self).spec_name()
                },
                FrameSpec::SetVoteMode { vote_mode } => {
                    &&& final(self).spec_name() == old(self).spec_name()
                    &&& r is Some
                    &&& r->0.kind == Type::SetVoteMode(vote_mode)
                    &&& r->0.id == old(self).spec_id()
                    &&& r->0.room_id == old(self).spec_room()
                    &&& r->0.name@ == old(self).spec_name()
                },
                FrameSpec::AddRestarant { restaurant_name, remark } => {
                    &&& final(self).spec_name() == old(self).spec_name()
                    &&& spec_is_blank(restaurant_name) ==> r is None
                    &&& !spec_is_blank(restaurant_name) ==> ({
                        &&& r is Some
                        &&& r->0.kind == Type::AddRestaurant
                        &&& r->0.id == old(self).spec_id()
                        &&& r->0.room_id == old(self).spec_room()
                        &&& r->0.msg@ == spec_option_json(restaurant_name, remark)
                        &&& r->0.name@ == old(self).spec_name()
                    })
                },
                FrameSpec::Vote { is_agree } => {
                    &&& final(self).spec_name() == old(self).spec_name()
                    &&& r is Some
                    &&& r->0.kind == Type::Vote
                    &&& r->0.id == old(self).spec_id()
                    &&& r->0.room_id == old(self).spec_room()
                    &&& r->0.msg@ == (if is_agree {
                        "true"@
                    } else {
                        "false"@
                    })
                    &&& r->0.name@ == old(self).spec_name()
                },
            },
    {
        let parsed = parse_frame(text);
        match parsed {
            None => None,
            Some(m) => match m {
                crate::messages::IncomingMessage::Join { name } => {
                    self.name = name;
                    Some(
                        ClientActorMessage {
                            kind: Type::Join,
                            id: self.id,
                            msg: self.name.clone(),
                            room_id: self.room,
                            name: self.name.clone(),
                        },
                    )
                },
                crate::messages::IncomingMessage::Message { message } => {
                    Some(
                        ClientActorMessage {
                            kind: Type::Message,
                            id: self.id,
                            msg: message,
                            room_id: self.room,
                            name: self.name.clone(),
                        },
                    )
                },
                crate::messages::IncomingMessage::SetVoteMode { vote_mode } => {
                    Some(
                        ClientActorMessage {
                            kind: Type::SetVoteMode(vote_mode),
                            id: self.id,
                            msg: String::new(),
                            room_id: self.room,
                            name: self.name.clone(),
                        },
                    )
                },
                crate::messages::IncomingMessage::AddRestarant { restaurant_name, remark } => {
                    if is_blank(restaurant_name.as_str()) {
                        return None;
                    }
                    let payload = encode_option_json(
                        restaurant_name.as_str(),
                        remark.as_str(),
                    );
                    Some(
                        ClientActorMessage {
                            kind: Type::AddRestaurant,
                            id: self.id,
                            msg: payload,
                            room_id: self.room,
                            name: self.name.clone(),
                        },
                    )
                },
                crate::messages::IncomingMessage::Vote { is_agree } => {
                    let flag = if is_agree {
                        String::from_str("true")
                    } else {
                        String::from_str("false")
                    };
                    Some(
                        ClientActorMessage {
                            kind: Type::Vote,
                            id: self.id,
                            msg: flag,
                            room_id: self.room,
                            name: self.name.clone(),
                        },
                    )
                },
            },
        }
    }
}

} // verus!
