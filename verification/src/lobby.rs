use vstd::prelude::*;
use vstd::string::StringExecFns;

use crate::codec::{
    encode_add_restaurant_frame, encode_join_frame, encode_message_frame, encode_vote_count_frame,
    encode_vote_result_frame, parse_option_json, replay_text, spec_add_restaurant_frame,
    spec_join_frame, spec_message_frame, spec_parse_option_json, spec_replay_text,
    spec_vote_count_frame, spec_vote_result_frame, str_eq_lit,
};
use crate::codes::CodeRegistry;
use crate::messages::{
    ClientActorMessage, Connect, Delivery, Disconnect, GamePhase, Type, VoteMode, WsMessage,
};
use crate::util::{
    alist_has, alist_idx, alist_unique, alist_val, contains_id, lemma_alist_push,
    lemma_alist_remove, lemma_alist_update, lemma_filter_no_duplicates, lemma_push_no_duplicates,
    remove_id,
};
use crate::vote::{spec_tally_after, VoteData};

verus! {

/// How many history entries a room keeps.
pub const SAVE_MESSAGE_MAX_LEN: usize = 50;

/// One history entry appended to a bounded buffer: when the buffer is
/// full the oldest entry is evicted first.
pub open spec fn spec_history_push(h: Seq<(String, String)>, e: (String, String)) -> Seq<
    (String, String),
> {
    if h.len() >= SAVE_MESSAGE_MAX_LEN {
        h.drop_first().push(e)
    } else {
        h.push(e)
    }
}

/// Whether a finished vote passes under the given mode.
pub open spec fn spec_vote_passes(mode: VoteMode, agree: int, disagree: int) -> bool {
    match mode {
        VoteMode::MajorityDecision => agree >= disagree,
        VoteMode::ConsensusDecision => disagree == 0,
    }
}

/// The phase a room enters once a finished vote is resolved.
pub open spec fn spec_resolved_phase(mode: VoteMode, agree: int, disagree: int) -> GamePhase {
    if spec_vote_passes(mode, agree, disagree) {
        GamePhase::Ending
    } else {
        GamePhase::Selection
    }
}

/// The interpretation a vote frame's payload gets: anything but the two
/// canonical spellings is rejected.
pub open spec fn spec_vote_flag(msg: Seq<char>) -> Option<bool> {
    if msg == "true"@ {
        Some(true)
    } else if msg == "false"@ {
        Some(false)
    } else {
        None
    }
}

/// The announcement for a join, before framing.
pub open spec fn spec_join_text(name: Seq<char>) -> Seq<char> {
    name + " join the room."@
}

/// The announcement for one chat line, before framing.
pub open spec fn spec_chat_text(name: Seq<char>, message: Seq<char>) -> Seq<char> {
    name + " say: "@ + message
}

/// The announcement for a departure, before framing.
pub open spec fn spec_goodbye_text(name: Seq<char>) -> Seq<char> {
    name + " disconnected."@
}

/// The display names of the given voters, in voter order, skipping
/// voters with no recorded name.
pub open spec fn spec_reject_names(names: Seq<(u128, String)>, voters: Seq<u128>) -> Seq<
    Seq<char>,
>
    decreases voters.len(),
{
    if voters.len() == 0 {
        Seq::empty()
    } else {
        let rest = spec_reject_names(names, voters.drop_last());
        if alist_has(names, voters.last()) {
            rest.push(alist_val(names, voters.last())@)
        } else {
            rest
        }
    }
}

/// All the state one room owns.
pub struct RoomData {
    users: Vec<u128>,
    user_name_list: Vec<(u128, String)>,
    data: Vec<(String, String)>,
    max_size: usize,
    vote_mode: Option<VoteMode>,
    game_phase: GamePhase,
    current_restaurant_vote: VoteData,
}

impl RoomData {
    /// Membership has no duplicates, names are keyed uniquely, history
    /// respects its bound, and every recorded voter is a member.
    pub closed spec fn wf(&self) -> bool {
        &&& self.users@.no_duplicates()
        &&& alist_unique(self.user_name_list@)
        &&& self.max_size == SAVE_MESSAGE_MAX_LEN
        &&& self.data@.len() <= SAVE_MESSAGE_MAX_LEN
        &&& self.current_restaurant_vote.wf()
        &&& forall|id: u128|
            self.current_restaurant_vote.agree_voters().contains(id) ==> self.users@.contains(id)
        &&& forall|id: u128|
            self.current_restaurant_vote.disagree_voters().contains(id)
                ==> self.users@.contains(id)
    }

    pub closed spec fn members(&self) -> Seq<u128> {
        self.users@
    }

    pub closed spec fn names(&self) -> Seq<(u128, String)> {
        self.user_name_list@
    }

    pub closed spec fn history(&self) -> Seq<(String, String)> {
        self.data@
    }

    pub closed spec fn mode(&self) -> Option<VoteMode> {
        self.vote_mode
    }

    pub closed spec fn phase(&self) -> GamePhase {
        self.game_phase
    }

    pub closed spec fn tally(&self) -> VoteData {
        self.current_restaurant_vote
    }

    /// A fresh room: empty, in the waiting phase, with no vote mode.
    pub fn new() -> (r: RoomData)
        ensures
            r.wf(),
            r.members() == Seq::<u128>::empty(),
            r.names() == Seq::<(u128, String)>::empty(),
            r.history() == Seq::<(String, String)>::empty(),
            r.mode() is None,
            r.phase() == GamePhase::Waiting,
            r.tally().agree_voters() == Seq::<u128>::empty(),
            r.tally().disagree_voters() == Seq::<u128>::empty(),
    {
        RoomData {
            users: Vec::new(),
            user_name_list: Vec::new(),
            data: Vec::with_capacity(SAVE_MESSAGE_MAX_LEN),
            max_size: SAVE_MESSAGE_MAX_LEN,
            vote_mode: None,
            game_phase: GamePhase::Waiting,
            current_restaurant_vote: VoteData::new(),
        }
    }

    /// Appends one `(author, payload)` pair to the bounded history,
    /// evicting the oldest entry when the buffer is full.
    pub fn insert_data(&mut self, new_data: (String, String))
        requires
            old(self).wf(),
        ensures
            final(self).wf(),
            final(self).history() == spec_history_push(old(self).history(), new_data),
            final(self).members() == old(self).members(),
            final(self).names() == old(self).names(),
            final(self).mode() == old(self).mode(),
            final(self).phase() == old(self).phase(),
            final(self).tally() == old(self).tally(),
    {
        if self.data.len() >= self.max_size {
            self.data.remove(0);
            proof {
                assert(self.data@ =~= old(self).data@.drop_first());
            }
        }
        self.data.push(new_data);
    }
}

/// The bounded history never outgrows its capacity, and filling the
/// buffer past it evicts exactly the oldest entry.
pub proof fn lemma_history_bounded(h: Seq<(String, String)>, e: (String, String))
    requires
        h.len() <= SAVE_MESSAGE_MAX_LEN,
    ensures
        spec_history_push(h, e).len() <= SAVE_MESSAGE_MAX_LEN,
        h.len() < SAVE_MESSAGE_MAX_LEN ==> spec_history_push(h, e) == h.push(e),
        h.len() == SAVE_MESSAGE_MAX_LEN ==> spec_history_push(h, e) == h.drop_first().push(e)
            && spec_history_push(h, e).len() == SAVE_MESSAGE_MAX_LEN && spec_history_push(h, e)[0]
            == h[1],
{
    if h.len() == SAVE_MESSAGE_MAX_LEN {
        assert(spec_history_push(h, e).len() == SAVE_MESSAGE_MAX_LEN);
        assert(spec_history_push(h, e)[0] == h.drop_first()[0]);
    }
}

} // verus!

verus! {

/// Removes every name entry recorded for `id`, keeping the rest in
/// order.
fn remove_name(v: &mut Vec<(u128, String)>, id: u128)
    ensures
        final(v)@ == old(v)@.filter(|e: (u128, String)| e.0 != id),
{
    let ghost orig = v@;
    let mut out: Vec<(u128, String)> = Vec::new();
    let mut i: usize = 0;
    while i < v.len()
        invariant
            i <= v@.len(),
            v@ == orig,
            out@ == orig.take(i as int).filter(|e: (u128, String)| e.0 != id),
        decreases v@.len() - i,
    {
        proof {
            reveal(Seq::filter);
            assert(orig.take(i as int + 1).drop_last() =~= orig.take(i as int));
            assert(orig.take(i as int + 1).last() == orig[i as int]);
        }
        if v[i].0 != id {
            let key = v[i].0;
            let name = v[i].1.clone();
            out.push((key, name));
            proof {
                assert((key, name) == orig[i as int]);
            }
        }
        i += 1;
    }
    proof {
        assert(orig.take(orig.len() as int) =~= orig);
    }
    *v = out;
}

/// One copy of the given frame for every listed member, in member
/// order.
fn broadcast_all(users: &Vec<u128>, text: &String) -> (out: Vec<Delivery>)
    ensures
        out@.len() == users@.len(),
        forall|k: int|
            0 <= k < users@.len() ==> (#[trigger] out@[k]).to == users@[k] && out@[k].msg.0@
                == text@,
{
    let mut out: Vec<Delivery> = Vec::new();
    let mut i: usize = 0;
    while i < users.len()
        invariant
            i <= users@.len(),
            out@.len() == i,
            forall|k: int|
                0 <= k < i ==> (#[trigger] out@[k]).to == users@[k] && out@[k].msg.0@ == text@,
        decreases users@.len() - i,
    {
        out.push(Delivery { to: users[i], msg: WsMessage(text.clone()) });
        i += 1;
    }
    out
}

/// Appends one copy of the given frame for every listed member, after
/// whatever the list already holds.
fn broadcast_append(out: &mut Vec<Delivery>, users: &Vec<u128>, text: &String)
    ensures
        final(out)@.len() == old(out)@.len() + users@.len(),
        forall|k: int| 0 <= k < old(out)@.len() ==> (#[trigger] final(out)@[k]) == old(out)@[k],
        forall|j: int|
            old(out)@.len() <= j < final(out)@.len() ==> (#[trigger] final(out)@[j]).to
                == users@[j - old(out)@.len()] && final(out)@[j].msg.0@ == text@,
{
    let mut i: usize = 0;
    while i < users.len()
        invariant
            i <= users@.len(),
            out@.len() == old(out)@.len() + i,
            forall|k: int| 0 <= k < old(out)@.len() ==> (#[trigger] out@[k]) == old(out)@[k],
            forall|j: int|
                old(out)@.len() <= j < out@.len() ==> (#[trigger] out@[j]).to == users@[j - old(
                    out,
                )@.len()] && out@[j].msg.0@ == text@,
        decreases users@.len() - i,
    {
        out.push(Delivery { to: users[i], msg: WsMessage(text.clone()) });
        i += 1;
    }
}

/// The history replayed to one newly joined member, entry by entry.
fn replay_deliveries(h: &Vec<(String, String)>, to: u128) -> (out: Vec<Delivery>)
    ensures
        out@.len() == h@.len(),
        forall|k: int|
            0 <= k < h@.len() ==> (#[trigger] out@[k]).to == to && out@[k].msg.0@
                == spec_message_frame(spec_replay_text(h@[k].0@, h@[k].1@)),
{
    let mut out: Vec<Delivery> = Vec::new();
    let mut i: usize = 0;
    while i < h.len()
        invariant
            i <= h@.len(),
            out@.len() == i,
            forall|k: int|
                0 <= k < i ==> (#[trigger] out@[k]).to == to && out@[k].msg.0@
                    == spec_message_frame(spec_replay_text(h@[k].0@, h@[k].1@)),
        decreases h@.len() - i,
    {
        let line = replay_text(h[i].0.as_str(), h[i].1.as_str());
        let frame = encode_message_frame(line.as_str());
        out.push(Delivery { to, msg: WsMessage(frame) });
        i += 1;
    }
    out
}

/// The single authority over all room state: the session registry and
/// the room table. Every event handler mutates state and returns the
/// frames to deliver, in delivery order.
pub struct Lobby {
    sessions: Vec<u128>,
    rooms: Vec<(u128, RoomData)>,
}

impl Lobby {
    /// Sessions are registered once, room identifiers are unique, every
    /// room is well-formed, and no registered room is empty.
    pub closed spec fn wf(&self) -> bool {
        &&& self.sessions@.no_duplicates()
        &&& alist_unique(self.rooms@)
        &&& forall|i: int|
            0 <= i < self.rooms@.len() ==> (#[trigger] self.rooms@[i]).1.wf()
                && self.rooms@[i].1.members().len() > 0
    }

    pub closed spec fn spec_sessions(&self) -> Seq<u128> {
        self.sessions@
    }

    pub closed spec fn spec_has_room(&self, rid: u128) -> bool {
        alist_has(self.rooms@, rid)
    }

    pub closed spec fn spec_room(&self, rid: u128) -> RoomData {
        alist_val(self.rooms@, rid)
    }

    pub closed spec fn spec_room_count(&self) -> int {
        self.rooms@.len() as int
    }

    pub fn new() -> (l: Lobby)
        ensures
            l.wf(),
            l.spec_sessions() == Seq::<u128>::empty(),
            l.spec_room_count() == 0,
            forall|r: u128| !l.spec_has_room(r),
    {
        Lobby { sessions: Vec::new(), rooms: Vec::new() }
    }

    /// A registered room is well-formed and never empty.
    pub proof fn lemma_wf_room(&self, rid: u128)
        requires
            self.wf(),
            self.spec_has_room(rid),
        ensures
            self.spec_room(rid).wf(),
            self.spec_room(rid).members().len() > 0,
    {
        let i = alist_idx(self.rooms@, rid);
        assert(0 <= i < self.rooms@.len() && self.rooms@[i].0 == rid);
        assert(self.rooms@[i].1.wf());
    }

    fn find_room(&self, rid: u128) -> (r: Option<usize>)
        requires
            alist_unique(self.rooms@),
        ensures
            match r {
                Some(i) => i < self.rooms@.len() && self.rooms@[i as int].0 == rid && i as int
                    == alist_idx(self.rooms@, rid) && alist_has(self.rooms@, rid),
                None => !alist_has(self.rooms@, rid),
            },
    {
        let mut i: usize = 0;
        while i < self.rooms.len()
            invariant
                i <= self.rooms@.len(),
                alist_unique(self.rooms@),
                forall|j: int| 0 <= j < i ==> self.rooms@[j].0 != rid,
            decreases self.rooms@.len() - i,
        {
            if self.rooms[i].0 == rid {
                proof {
                    assert(self.rooms@[i as int].0 == rid);
                    assert(alist_idx(self.rooms@, rid) == i as int);
                }
                return Some(i);
            }
            i += 1;
        }
        None
    }

    /// A new connection: the session is registered, the room is created
    /// on first use, the session joins its member set, and the room's
    /// whole history is replayed to the new member alone.
    pub fn handle_connect(&mut self, msg: Connect) -> (out: Vec<Delivery>)
        requires
            old(self).wf(),
        ensures
            final(self).wf(),
            final(self).spec_sessions() == (if old(self).spec_sessions().contains(msg.self_id) {
                old(self).spec_sessions()
            } else {
                old(self).spec_sessions().push(msg.self_id)
            }),
            final(self).spec_has_room(msg.lobby_id),
            forall|r: u128|
                r != msg.lobby_id ==> final(self).spec_has_room(r) == old(self).spec_has_room(r),
            forall|r: u128|
                r != msg.lobby_id && old(self).spec_has_room(r) ==> final(self).spec_room(r)
                    == old(self).spec_room(r),
            old(self).spec_has_room(msg.lobby_id) ==> ({
                let oldroom = old(self).spec_room(msg.lobby_id);
                let newroom = final(self).spec_room(msg.lobby_id);
                &&& newroom.members() == (if oldroom.members().contains(msg.self_id) {
                    oldroom.members()
                } else {
                    oldroom.members().push(msg.self_id)
                })
                &&& newroom.names() == oldroom.names()
                &&& newroom.history() == oldroom.history()
                &&& newroom.mode() == oldroom.mode()
                &&& newroom.phase() == oldroom.phase()
                &&& newroom.tally() == oldroom.tally()
                &&& out@.len() == oldroom.history().len()
                &&& forall|k: int|
                    0 <= k < out@.len() ==> out@[k].to == msg.self_id && out@[k].msg.0@
                        == spec_message_frame(
                        spec_replay_text(
                            oldroom.history()[k].0@,
                            oldroom.history()[k].1@,
                        ),
                    )
            }),
            !old(self).spec_has_room(msg.lobby_id) ==> ({
                let newroom = final(self).spec_room(msg.lobby_id);
                &&& newroom.members() == seq![msg.self_id]
                &&& newroom.names() == Seq::<(u128, String)>::empty()
                &&& newroom.history() == Seq::<(String, String)>::empty()
                &&& newroom.mode() is None
                &&& newroom.phase() == GamePhase::Waiting
                &&& newroom.tally().agree_voters() == Seq::<u128>::empty()
                &&& newroom.tally().disagree_voters() == Seq::<u128>::empty()
                &&& out@.len() == 0
            }),
    {
        if !contains_id(&self.sessions, msg.self_id) {
            proof {
                lemma_push_no_duplicates(self.sessions@, msg.self_id);
            }
            self.sessions.push(msg.self_id);
        }
        let ghost rooms0 = self.rooms@;
        let idx: usize;
        let existing = self.find_room(msg.lobby_id);
        match existing {
            Some(j) => {
                idx = j;
            },
            None => {
                let r = RoomData::new();
                proof {
                    lemma_alist_push(self.rooms@, msg.lobby_id, r);
                }
                self.rooms.push((msg.lobby_id, r));
                idx = self.rooms.len() - 1;
            },
        }
        let ghost rooms1 = self.rooms@;
        let mut entry = self.rooms.remove(idx);
        let out = replay_deliveries(&entry.1.data, msg.self_id);
        if !contains_id(&entry.1.users, msg.self_id) {
            proof {
                lemma_push_no_duplicates(entry.1.users@, msg.self_id);
            }
            entry.1.users.push(msg.self_id);
        }
        self.rooms.insert(idx, entry);
        proof {
            assert(entry.0 == msg.lobby_id);
            assert(entry == (msg.lobby_id, entry.1));
            if existing is Some {
                assert(rooms1 == rooms0);
                assert(self.rooms@ =~= rooms0.update(idx as int, (msg.lobby_id, entry.1)));
                lemma_alist_update(rooms0, msg.lobby_id, entry.1);
                assert forall|j: int|
                    0 <= j < self.rooms@.len() implies (#[trigger] self.rooms@[j]).1.wf()
                    && self.rooms@[j].1.members().len() > 0 by {
                    if j != idx as int {
                        assert(self.rooms@[j] == rooms0[j]);
                        assert(rooms0[j].1.wf() && rooms0[j].1.members().len() > 0);
                    }
                }
            } else {
                assert(rooms1.remove(idx as int) =~= rooms0);
                assert(self.rooms@ =~= rooms0.push((msg.lobby_id, entry.1)));
                lemma_alist_push(rooms0, msg.lobby_id, entry.1);
                assert forall|j: int|
                    0 <= j < self.rooms@.len() implies (#[trigger] self.rooms@[j]).1.wf()
                    && self.rooms@[j].1.members().len() > 0 by {
                    if j != idx as int {
                        assert(self.rooms@[j] == rooms0[j]);
                        assert(rooms0[j].1.wf() && rooms0[j].1.members().len() > 0);
                    }
                }
            }
        }
        out
    }
}

} // verus!

verus! {

impl Lobby {
    /// A session has closed: it leaves the registry and its room, every
    /// remaining member is told, and a room left empty is deleted with
    /// its code mapping released. An unknown session changes nothing.
    pub fn handle_disconnect(&mut self, msg: Disconnect, codes: &mut CodeRegistry) -> (out: Vec<
        Delivery,
    >)
        requires
            old(self).wf(),
            old(codes).wf(),
        ensures
            final(self).wf(),
            final(codes).wf(),
            !old(self).spec_sessions().contains(msg.id) ==> ({
                &&& final(self).spec_sessions() == old(self).spec_sessions()
                &&& forall|r: u128| final(self).spec_has_room(r) == old(self).spec_has_room(r)
                &&& forall|r: u128|
                    old(self).spec_has_room(r) ==> final(self).spec_room(r) == old(
                        self,
                    ).spec_room(r)
                &&& final(codes).spec_entries() == old(codes).spec_entries()
                &&& out@.len() == 0
            }),
            old(self).spec_sessions().contains(msg.id) ==> ({
                &&& final(self).spec_sessions() == old(self).spec_sessions().filter(
                    |y: u128| y != msg.id,
                )
                &&& forall|r: u128|
                    r != msg.room_id ==> final(self).spec_has_room(r) == old(self).spec_has_room(
                        r,
                    )
                &&& forall|r: u128|
                    r != msg.room_id && old(self).spec_has_room(r) ==> final(self).spec_room(r)
                        == old(self).spec_room(r)
            }),
            old(self).spec_sessions().contains(msg.id) && !old(self).spec_has_room(msg.room_id)
                ==> ({
                &&& !final(self).spec_has_room(msg.room_id)
                &&& final(codes).spec_entries() == old(codes).spec_entries()
                &&& out@.len() == 0
            }),
            old(self).spec_sessions().contains(msg.id) && old(self).spec_has_room(msg.room_id)
                ==> ({
                let remaining = old(self).spec_room(msg.room_id).members().filter(
                    |y: u128| y != msg.id,
                );
                &&& out@.len() == remaining.len()
                &&& forall|k: int|
                    0 <= k < out@.len() ==> out@[k].to == remaining[k] && out@[k].msg.0@
                        == spec_message_frame(spec_goodbye_text(msg.name@))
                &&& remaining.len() == 0 ==> !final(self).spec_has_room(msg.room_id)
                    && final(codes).spec_entries() == old(codes).spec_entries().filter(
                    |e: (u32, u128)| e.1 != msg.room_id,
                )
                &&& remaining.len() > 0 ==> ({
                    let oldroom = old(self).spec_room(msg.room_id);
                    let newroom = final(self).spec_room(msg.room_id);
                    &&& final(self).spec_has_room(msg.room_id)
                    &&& newroom.members() == remaining
                    &&& newroom.names() == oldroom.names().filter(
                        |e: (u128, String)| e.0 != msg.id,
                    )
                    &&& newroom.history() == oldroom.history()
                    &&& newroom.mode() == oldroom.mode()
                    &&& newroom.phase() == oldroom.phase()
                    &&& newroom.tally().agree_voters() == oldroom.tally().agree_voters().filter(
                        |y: u128| y != msg.id,
                    )
                    &&& newroom.tally().disagree_voters()
                        == oldroom.tally().disagree_voters().filter(|y: u128| y != msg.id)
                    &&& final(codes).spec_entries() == old(codes).spec_entries()
                })
            }),
    {
        if !contains_id(&self.sessions, msg.id) {
            return Vec::new();
        }
        proof {
            lemma_filter_no_duplicates(self.sessions@, |y: u128| y != msg.id);
        }
        remove_id(&mut self.sessions, msg.id);
        let ghost rooms0 = self.rooms@;
        let found = self.find_room(msg.room_id);
        match found {
            None => Vec::new(),
            Some(idx) => {
                let mut entry = self.rooms.remove(idx);
                proof {
                    assert(rooms0[idx as int].1.wf() && rooms0[idx as int].1.members().len() > 0);
                    lemma_filter_no_duplicates(entry.1.users@, |y: u128| y != msg.id);
                }
                remove_id(&mut entry.1.users, msg.id);
                proof {
                    crate::util::lemma_filter_alist_unique(
                        entry.1.user_name_list@,
                        |e: (u128, String)| e.0 != msg.id,
                    );
                }
                remove_name(&mut entry.1.user_name_list, msg.id);
                entry.1.current_restaurant_vote.forget_voter(msg.id);
                let mut text = msg.name.clone();
                text.append(" disconnected.");
                let frame = encode_message_frame(text.as_str());
                let out = broadcast_all(&entry.1.users, &frame);
                proof {
                    let oldroom = rooms0[idx as int].1;
                    assert forall|id2: u128|
                        entry.1.current_restaurant_vote.agree_voters().contains(id2)
                        implies entry.1.users@.contains(id2) by {
                        oldroom.current_restaurant_vote.agree_voters().lemma_filter_contains_rev(
                            |y: u128| y != msg.id,
                            id2,
                        );
                        let fi = choose|fi: int|
                            0 <= fi < entry.1.current_restaurant_vote.agree_voters().len()
                                && entry.1.current_restaurant_vote.agree_voters()[fi] == id2;
                        oldroom.current_restaurant_vote.agree_voters().lemma_filter_pred(
                            |y: u128| y != msg.id,
                            fi,
                        );
                        assert(id2 != msg.id);
                        assert(oldroom.users@.contains(id2));
                        let ui = choose|ui: int|
                            0 <= ui < oldroom.users@.len() && oldroom.users@[ui] == id2;
                        oldroom.users@.lemma_filter_contains(|y: u128| y != msg.id, ui);
                    }
                    assert forall|id2: u128|
                        entry.1.current_restaurant_vote.disagree_voters().contains(id2)
                        implies entry.1.users@.contains(id2) by {
                        oldroom.current_restaurant_vote.disagree_voters().lemma_filter_contains_rev(
                            |y: u128| y != msg.id,
                            id2,
                        );
                        let fi = choose|fi: int|
                            0 <= fi < entry.1.current_restaurant_vote.disagree_voters().len()
                                && entry.1.current_restaurant_vote.disagree_voters()[fi] == id2;
                        oldroom.current_restaurant_vote.disagree_voters().lemma_filter_pred(
                            |y: u128| y != msg.id,
                            fi,
                        );
                        assert(id2 != msg.id);
                        assert(oldroom.users@.contains(id2));
                        let ui = choose|ui: int|
                            0 <= ui < oldroom.users@.len() && oldroom.users@[ui] == id2;
                        oldroom.users@.lemma_filter_contains(|y: u128| y != msg.id, ui);
                    }
                    oldroom.users@.lemma_filter_len(|y: u128| y != msg.id);
                    assert(entry.1.wf());
                }
                if entry.1.users.len() == 0 {
                    proof {
                        lemma_alist_remove(rooms0, msg.room_id);
                        assert(self.rooms@ == rooms0.remove(idx as int));
                        assert forall|j: int|
                            0 <= j < self.rooms@.len() implies (#[trigger] self.rooms@[j]).1.wf()
                            && self.rooms@[j].1.members().len() > 0 by {
                            if j < idx as int {
                                assert(self.rooms@[j] == rooms0[j]);
                                assert(rooms0[j].1.wf() && rooms0[j].1.members().len() > 0);
                            } else {
                                assert(self.rooms@[j] == rooms0[j + 1]);
                                assert(rooms0[j + 1].1.wf() && rooms0[j + 1].1.members().len()
                                    > 0);
                            }
                        }
                    }
                    codes.remove_by_room(msg.room_id);
                    out
                } else {
                    self.rooms.insert(idx, entry);
                    proof {
                        assert(entry == (msg.room_id, entry.1));
                        assert(self.rooms@ =~= rooms0.update(idx as int, (msg.room_id, entry.1)));
                        lemma_alist_update(rooms0, msg.room_id, entry.1);
                        assert forall|j: int|
                            0 <= j < self.rooms@.len() implies (#[trigger] self.rooms@[j]).1.wf()
                            && self.rooms@[j].1.members().len() > 0 by {
                            if j != idx as int {
                                assert(self.rooms@[j] == rooms0[j]);
                                assert(rooms0[j].1.wf() && rooms0[j].1.members().len() > 0);
                            }
                        }
                    }
                    out
                }
            },
        }
    }
}

} // verus!

verus! {

/// A display-name table after one join: the session's name is bound,
/// overwriting any earlier binding, and nobody else's changes.
pub open spec fn spec_set_name(names: Seq<(u128, String)>, id: u128, name: String) -> Seq<
    (u128, String),
> {
    if alist_has(names, id) {
        names.update(alist_idx(names, id), (id, name))
    } else {
        names.push((id, name))
    }
}

/// In a well-formed room the tally never outgrows the member set: the
/// two voter lists are duplicate-free, disjoint, and drawn from the
/// members.
pub proof fn lemma_tally_le_members(r: &RoomData)
    requires
        r.wf(),
    ensures
        r.tally().spec_total() <= r.members().len(),
{
    broadcast use vstd::seq_lib::seq_to_set_is_finite;

    let a = r.current_restaurant_vote.agree_voters();
    let d = r.current_restaurant_vote.disagree_voters();
    let u = r.users@;
    r.current_restaurant_vote.lemma_wf();
    a.unique_seq_to_set();
    d.unique_seq_to_set();
    u.unique_seq_to_set();
    assert(a.to_set().disjoint(d.to_set())) by {
        assert forall|x: u128| a.to_set().contains(x) implies !d.to_set().contains(x) by {
            assert(a.contains(x));
        }
    }
    vstd::set_lib::lemma_set_disjoint_lens(a.to_set(), d.to_set());
    assert((a.to_set() + d.to_set()).subset_of(u.to_set())) by {
        assert forall|x: u128| (a.to_set() + d.to_set()).contains(x) implies u.to_set().contains(
            x,
        ) by {
            assert(a.contains(x) || d.contains(x));
            assert(u.contains(x));
        }
    }
    vstd::set_lib::lemma_len_subset(a.to_set() + d.to_set(), u.to_set());
}

fn find_name_idx(v: &Vec<(u128, String)>, id: u128) -> (r: Option<usize>)
    requires
        alist_unique(v@),
    ensures
        match r {
            Some(j) => j < v@.len() && v@[j as int].0 == id && j as int == alist_idx(v@, id)
                && alist_has(v@, id),
            None => !alist_has(v@, id),
        },
{
    let mut i: usize = 0;
    while i < v.len()
        invariant
            i <= v@.len(),
            alist_unique(v@),
            forall|j: int| 0 <= j < i ==> v@[j].0 != id,
        decreases v@.len() - i,
    {
        if v[i].0 == id {
            proof {
                assert(v@[i as int].0 == id);
                assert(alist_idx(v@, id) == i as int);
            }
            return Some(i);
        }
        i += 1;
    }
    None
}

/// The display names of the given voters, in voter order; a voter with
/// no recorded name is skipped.
fn reject_names(names: &Vec<(u128, String)>, voters: &Vec<u128>) -> (out: Vec<String>)
    requires
        alist_unique(names@),
    ensures
        out@.map_values(|s: String| s@) == spec_reject_names(names@, voters@),
{
    let mut out: Vec<String> = Vec::new();
    let mut i: usize = 0;
    while i < voters.len()
        invariant
            i <= voters@.len(),
            alist_unique(names@),
            out@.map_values(|s: String| s@) == spec_reject_names(names@, voters@.take(i as int)),
        decreases voters@.len() - i,
    {
        proof {
            reveal(Seq::filter);
            assert(voters@.take(i as int + 1).drop_last() =~= voters@.take(i as int));
            assert(voters@.take(i as int + 1).last() == voters@[i as int]);
        }
        let v = voters[i];
        let found = find_name_idx(names, v);
        match found {
            Some(j) => {
                let name = names[j].1.clone();
                out.push(name);
                proof {
                    assert(alist_val(names@, v) == names@[j as int].1);
                    assert(out@.map_values(|s: String| s@) =~= spec_reject_names(
                        names@,
                        voters@.take(i as int + 1),
                    ));
                }
            },
            None => {
                proof {
                    assert(out@.map_values(|s: String| s@) =~= spec_reject_names(
                        names@,
                        voters@.take(i as int + 1),
                    ));
                }
            },
        }
        i += 1;
    }
    proof {
        assert(voters@.take(voters@.len() as int) =~= voters@);
    }
    out
}
impl RoomData {
    /// A join event: binds the display name and announces the join,
    /// with the room size, to every member.
    fn apply_join(&mut self, id: u128, name: String) -> (out: Vec<Delivery>)
        requires
            old(self).wf(),
        ensures
            final(self).wf(),
            final(self).members() == old(self).members(),
            final(self).names() == spec_set_name(old(self).names(), id, name),
            final(self).history() == old(self).history(),
            final(self).mode() == old(self).mode(),
            final(self).phase() == old(self).phase(),
            final(self).tally() == old(self).tally(),
            out@.len() == old(self).members().len(),
            forall|k: int|
                0 <= k < out@.len() ==> out@[k].to == old(self).members()[k] && out@[k].msg.0@
                    == spec_join_frame(spec_join_text(name@), old(self).members().len() as int),
    {
        let ghost names0 = self.user_name_list@;
        let found_n = find_name_idx(&self.user_name_list, id);
        match found_n {
            Some(j) => {
                self.user_name_list.remove(j);
                self.user_name_list.insert(j, (id, name.clone()));
                proof {
                    lemma_alist_update(names0, id, name);
                    assert(self.user_name_list@ =~= spec_set_name(names0, id, name));
                }
            },
            None => {
                self.user_name_list.push((id, name.clone()));
                proof {
                    lemma_alist_push(names0, id, name);
                    assert(self.user_name_list@ =~= spec_set_name(names0, id, name));
                }
            },
        }
        let mut text = name.clone();
        text.append(" join the room.");
        proof {
            assert(text@ == spec_join_text(name@));
        }
        let nlen = self.users.len();
        let frame = encode_join_frame(text.as_str(), nlen);
        proof {
            assert(frame@ == spec_join_frame(
                spec_join_text(name@),
                old(self).members().len() as int,
            ));
        }
        broadcast_all(&self.users, &frame)
    }

    /// A chat event: the line is announced to every member and recorded
    /// in the history.
    fn apply_chat(&mut self, name: String, text_msg: String) -> (out: Vec<Delivery>)
        requires
            old(self).wf(),
        ensures
            final(self).wf(),
            final(self).members() == old(self).members(),
            final(self).names() == old(self).names(),
            final(self).history() == spec_history_push(old(self).history(), (name, text_msg)),
            final(self).mode() == old(self).mode(),
            final(self).phase() == old(self).phase(),
            final(self).tally() == old(self).tally(),
            out@.len() == old(self).members().len(),
            forall|k: int|
                0 <= k < out@.len() ==> out@[k].to == old(self).members()[k] && out@[k].msg.0@
                    == spec_message_frame(spec_chat_text(name@, text_msg@)),
    {
        let mut text = name.clone();
        text.append(" say: ");
        text.append(text_msg.as_str());
        proof {
            assert(text@ == spec_chat_text(name@, text_msg@));
        }
        let frame = encode_message_frame(text.as_str());
        proof {
            assert(frame@ == spec_message_frame(spec_chat_text(name@, text_msg@)));
        }
        let out = broadcast_all(&self.users, &frame);
        self.insert_data((name, text_msg));
        out
    }

    /// A mode event: the vote mode is set the first time and never
    /// overwritten.
    fn apply_set_mode(&mut self, vm: VoteMode)
        requires
            old(self).wf(),
        ensures
            final(self).wf(),
            final(self).members() == old(self).members(),
            final(self).names() == old(self).names(),
            final(self).history() == old(self).history(),
            final(self).mode() == (if old(self).mode() is None {
                Some(vm)
            } else {
                old(self).mode()
            }),
            final(self).phase() == old(self).phase(),
            final(self).tally() == old(self).tally(),
    {
        match self.vote_mode {
            None => {
                self.vote_mode = Some(vm);
            },
            Some(_) => {},
        }
    }

    /// A vote event in the voting phase: the ballot of a member who has
    /// not voted this round is recorded, the running count goes to every
    /// member, and when everyone has voted the configured mode resolves
    /// the round and moves the phase on. In any other phase the event is
    /// ignored.
    fn apply_vote(&mut self, id: u128, payload: &String) -> (out: Vec<Delivery>)
        requires
            old(self).wf(),
        ensures
            final(self).wf(),
            final(self).members() == old(self).members(),
            old(self).phase() != GamePhase::Voting ==> *final(self) == *old(self) && out@.len()
                == 0,
            old(self).phase() == GamePhase::Voting ==> ({
                let flag = spec_vote_flag(payload@);
                let eligible = old(self).members().contains(id) && flag is Some;
                let t = if eligible {
                    spec_tally_after(
                        old(self).tally().agree_voters(),
                        old(self).tally().disagree_voters(),
                        id,
                        flag->0,
                    )
                } else {
                    (old(self).tally().agree_voters(), old(self).tally().disagree_voters())
                };
                let na = t.0.len() as int;
                let nd = t.1.len() as int;
                let n = old(self).members().len() as int;
                &&& final(self).tally().agree_voters() == t.0
                &&& final(self).tally().disagree_voters() == t.1
                &&& final(self).names() == old(self).names()
                &&& final(self).history() == old(self).history()
                &&& final(self).mode() == old(self).mode()
                &&& out@.len() >= n
                &&& forall|k: int|
                    0 <= k < n ==> (#[trigger] out@[k]).to == old(self).members()[k]
                        && out@[k].msg.0@ == spec_vote_count_frame(na, nd)
                &&& (na + nd != n || old(self).mode() is None) ==> out@.len() == n
                    && final(self).phase() == GamePhase::Voting
                &&& na + nd == n ==> (old(self).mode() matches Some(m) ==> ({
                    let pass = spec_vote_passes(m, na, nd);
                    &&& out@.len() == 2 * n
                    &&& forall|j: int|
                        n <= j < 2 * n ==> (#[trigger] out@[j]).to == old(self).members()[j - n]
                            && out@[j].msg.0@ == spec_vote_result_frame(
                            if pass {
                                "pass"@
                            } else {
                                "failed"@
                            },
                            spec_reject_names(old(self).names(), t.1),
                        )
                    &&& final(self).phase() == spec_resolved_phase(m, na, nd)
                }))
            }),
    {
        match self.game_phase {
            GamePhase::Voting => {
                let is_member = contains_id(&self.users, id);
                let flag_t = str_eq_lit(payload.as_str(), "true");
                let flag_f = str_eq_lit(payload.as_str(), "false");
                let ghost olda = self.current_restaurant_vote.agree_voters();
                let ghost oldd = self.current_restaurant_vote.disagree_voters();
                let ghost flag = spec_vote_flag(payload@);
                let ghost eligible = old(self).members().contains(id) && flag is Some;
                let ghost t = if eligible {
                    spec_tally_after(olda, oldd, id, flag->0)
                } else {
                    (olda, oldd)
                };
                proof {
                    assert(eligible == (is_member && (flag_t || flag_f)));
                    if eligible {
                        assert(flag->0 == flag_t);
                    }
                }
                if is_member && (flag_t || flag_f) {
                    self.current_restaurant_vote.vote(id, flag_t);
                    proof {
                        assert forall|id2: u128|
                            self.current_restaurant_vote.agree_voters().contains(id2)
                            implies self.users@.contains(id2) by {
                            let na2 = self.current_restaurant_vote.agree_voters();
                            let ki = choose|ki: int| 0 <= ki < na2.len() && na2[ki] == id2;
                            if ki < olda.len() {
                                assert(olda.contains(id2));
                            } else {
                                assert(id2 == id);
                            }
                        }
                        assert forall|id2: u128|
                            self.current_restaurant_vote.disagree_voters().contains(id2)
                            implies self.users@.contains(id2) by {
                            let nd2 = self.current_restaurant_vote.disagree_voters();
                            let ki = choose|ki: int| 0 <= ki < nd2.len() && nd2[ki] == id2;
                            if ki < oldd.len() {
                                assert(oldd.contains(id2));
                            } else {
                                assert(id2 == id);
                            }
                        }
                        assert(self.wf());
                    }
                }
                proof {
                    self.current_restaurant_vote.lemma_wf();
                    assert((self.current_restaurant_vote.agree_voters(),
                        self.current_restaurant_vote.disagree_voters()) == t);
                }
                let counts = self.current_restaurant_vote.counts();
                proof {
                    assert(counts.0 == t.0.len() && counts.1 == t.1.len());
                }
                let frame = encode_vote_count_frame(counts.0, counts.1);
                proof {
                    assert(frame@ == spec_vote_count_frame(t.0.len() as int, t.1.len() as int));
                }
                let mut out = broadcast_all(&self.users, &frame);
                let nusers = self.users.len();
                proof {
                    lemma_tally_le_members(self);
                }
                let total = self.current_restaurant_vote.total_votes();
                if total == nusers {
                    match self.vote_mode {
                        None => {},
                        Some(m) => {
                            let passes = match m {
                                VoteMode::MajorityDecision => counts.0 >= counts.1,
                                VoteMode::ConsensusDecision => counts.1 == 0,
                            };
                            let rejlist = reject_names(
                                &self.user_name_list,
                                self.current_restaurant_vote.disagree_ids(),
                            );
                            proof {
                                let m2 = old(self).mode()->0;
                                assert(passes == spec_vote_passes(
                                    m2,
                                    t.0.len() as int,
                                    t.1.len() as int,
                                ));
                            }
                            let frame2 = if passes {
                                encode_vote_result_frame("pass", &rejlist)
                            } else {
                                encode_vote_result_frame("failed", &rejlist)
                            };
                            proof {
                                assert(rejlist@.map_values(|s2: String| s2@)
                                    == spec_reject_names(old(self).names(), t.1));
                                assert(frame2@ == spec_vote_result_frame(
                                    if passes {
                                        "pass"@
                                    } else {
                                        "failed"@
                                    },
                                    spec_reject_names(old(self).names(), t.1),
                                ));
                            }
                            broadcast_append(&mut out, &self.users, &frame2);
                            self.game_phase = if passes {
                                GamePhase::Ending
                            } else {
                                GamePhase::Selection
                            };
                        },
                    }
                }
                out
            },
            _ => Vec::new(),
        }
    }

    /// An option suggestion holding a well-formed payload, while the
    /// room waits or selects: a fresh voting round opens, the option is
    /// announced to every member and recorded in the history. In the
    /// voting or ending phase, or with a malformed payload, the event is
    /// ignored.
    fn apply_add_restaurant(&mut self, name: String, payload: String) -> (out: Vec<Delivery>)
        requires
            old(self).wf(),
        ensures
            final(self).wf(),
            final(self).members() == old(self).members(),
            spec_parse_option_json(payload@) is None ==> *final(self) == *old(self)
                && out@.len() == 0,
            spec_parse_option_json(payload@) matches Some(pq) ==> ({
                &&& (old(self).phase() == GamePhase::Voting || old(self).phase()
                    == GamePhase::Ending) ==> *final(self) == *old(self) && out@.len() == 0
                &&& (old(self).phase() == GamePhase::Waiting || old(self).phase()
                    == GamePhase::Selection) ==> ({
                    &&& final(self).phase() == GamePhase::Voting
                    &&& final(self).history() == spec_history_push(
                        old(self).history(),
                        (name, payload),
                    )
                    &&& final(self).names() == old(self).names()
                    &&& final(self).mode() == old(self).mode()
                    &&& final(self).tally().agree_voters().len() == 0
                    &&& final(self).tally().disagree_voters().len() == 0
                    &&& out@.len() == old(self).members().len()
                    &&& forall|k: int|
                        0 <= k < out@.len() ==> out@[k].to == old(self).members()[k]
                            && out@[k].msg.0@ == spec_add_restaurant_frame(pq.0, pq.1)
                })
            }),
    {
        let parsed = parse_option_json(payload.as_str());
        match parsed {
            None => Vec::new(),
            Some(p) => {
                match self.game_phase {
                    GamePhase::Waiting | GamePhase::Selection => {
                        self.game_phase = GamePhase::Voting;
                        self.current_restaurant_vote = VoteData::new();
                        let frame = encode_add_restaurant_frame(p.0.as_str(), p.1.as_str());
                        proof {
                            let pq = spec_parse_option_json(payload@)->0;
                            assert(pq == (p.0@, p.1@));
                            assert(frame@ == spec_add_restaurant_frame(pq.0, pq.1));
                        }
                        let out = broadcast_all(&self.users, &frame);
                        self.insert_data((name, payload));
                        out
                    },
                    _ => Vec::new(),
                }
            },
        }
    }
}

impl Lobby {
    /// One client event, applied to its room. An event for an unknown
    /// room is dropped. Joins bind the display name and announce the
    /// room size; chat is broadcast and recorded; votes are tallied
    /// once per session and round, the running count is broadcast, and
    /// a full tally is resolved by the room's mode; the vote mode is
    /// set once; an option suggestion in the waiting or selection phase
    /// opens a voting round, is broadcast, and is recorded.
    pub fn handle(&mut self, msg: ClientActorMessage) -> (out: Vec<Delivery>)
        requires
            old(self).wf(),
        ensures
            final(self).wf(),
            final(self).spec_sessions() == old(self).spec_sessions(),
            forall|r: u128|
                r != msg.room_id ==> final(self).spec_has_room(r) == old(self).spec_has_room(r),
            forall|r: u128|
                r != msg.room_id && old(self).spec_has_room(r) ==> final(self).spec_room(r)
                    == old(self).spec_room(r),
            final(self).spec_has_room(msg.room_id) == old(self).spec_has_room(msg.room_id),
            !old(self).spec_has_room(msg.room_id) ==> out@.len() == 0 && (forall|r: u128|
                old(self).spec_has_room(r) ==> final(self).spec_room(r) == old(self).spec_room(
                    r,
                )),
            old(self).spec_has_room(msg.room_id) ==> final(self).spec_room(
                msg.room_id,
            ).members() == old(self).spec_room(msg.room_id).members(),
            old(self).spec_has_room(msg.room_id) && msg.kind == Type::Join ==> ({
                let oldroom = old(self).spec_room(msg.room_id);
                let newroom = final(self).spec_room(msg.room_id);
                &&& newroom.names() == spec_set_name(oldroom.names(), msg.id, msg.name)
                &&& newroom.history() == oldroom.history()
                &&& newroom.mode() == oldroom.mode()
                &&& newroom.phase() == oldroom.phase()
                &&& newroom.tally() == oldroom.tally()
                &&& out@.len() == oldroom.members().len()
                &&& forall|k: int|
                    0 <= k < out@.len() ==> out@[k].to == oldroom.members()[k] && out@[k].msg.0@
                        == spec_join_frame(
                        spec_join_text(msg.name@),
                        oldroom.members().len() as int,
                    )
            }),
            old(self).spec_has_room(msg.room_id) && msg.kind == Type::Message ==> ({
                let oldroom = old(self).spec_room(msg.room_id);
                let newroom = final(self).spec_room(msg.room_id);
                &&& newroom.history() == spec_history_push(oldroom.history(), (msg.name, msg.msg))
                &&& newroom.names() == oldroom.names()
                &&& newroom.mode() == oldroom.mode()
                &&& newroom.phase() == oldroom.phase()
                &&& newroom.tally() == oldroom.tally()
                &&& out@.len() == oldroom.members().len()
                &&& forall|k: int|
                    0 <= k < out@.len() ==> out@[k].to == oldroom.members()[k] && out@[k].msg.0@
                        == spec_message_frame(spec_chat_text(msg.name@, msg.msg@))
            }),
            old(self).spec_has_room(msg.room_id) ==> (msg.kind matches Type::SetVoteMode(vm)
                ==> ({
                let oldroom = old(self).spec_room(msg.room_id);
                let newroom = final(self).spec_room(msg.room_id);
                &&& newroom.mode() == (if oldroom.mode() is None {
                    Some(vm)
                } else {
                    oldroom.mode()
                })
                &&& newroom.names() == oldroom.names()
                &&& newroom.history() == oldroom.history()
                &&& newroom.phase() == oldroom.phase()
                &&& newroom.tally() == oldroom.tally()
                &&& out@.len() == 0
            })),
            old(self).spec_has_room(msg.room_id) && msg.kind == Type::Vote && old(self).spec_room(
                msg.room_id,
            ).phase() != GamePhase::Voting ==> final(self).spec_room(msg.room_id) == old(
                self,
            ).spec_room(msg.room_id) && out@.len() == 0,
            old(self).spec_has_room(msg.room_id) && msg.kind == Type::Vote && old(self).spec_room(
                msg.room_id,
            ).phase() == GamePhase::Voting ==> ({
                let oldroom = old(self).spec_room(msg.room_id);
                let newroom = final(self).spec_room(msg.room_id);
                let flag = spec_vote_flag(msg.msg@);
                let eligible = oldroom.members().contains(msg.id) && flag is Some;
                let t = if eligible {
                    spec_tally_after(
                        oldroom.tally().agree_voters(),
                        oldroom.tally().disagree_voters(),
                        msg.id,
                        flag->0,
                    )
                } else {
                    (oldroom.tally().agree_voters(), oldroom.tally().disagree_voters())
                };
                let na = t.0.len() as int;
                let nd = t.1.len() as int;
                let n = oldroom.members().len() as int;
                &&& newroom.tally().agree_voters() == t.0
                &&& newroom.tally().disagree_voters() == t.1
                &&& newroom.names() == oldroom.names()
                &&& newroom.history() == oldroom.history()
                &&& newroom.mode() == oldroom.mode()
                &&& out@.len() >= n
                &&& forall|k: int|
                    0 <= k < n ==> (#[trigger] out@[k]).to == oldroom.members()[k]
                        && out@[k].msg.0@ == spec_vote_count_frame(na, nd)
                &&& (na + nd != n || oldroom.mode() is None) ==> out@.len() == n
                    && newroom.phase() == GamePhase::Voting
                &&& na + nd == n ==> (oldroom.mode() matches Some(m) ==> ({
                    let pass = spec_vote_passes(m, na, nd);
                    &&& out@.len() == 2 * n
                    &&& forall|j: int|
                        n <= j < 2 * n ==> (#[trigger] out@[j]).to == oldroom.members()[j - n]
                            && out@[j].msg.0@ == spec_vote_result_frame(
                            if pass {
                                "pass"@
                            } else {
                                "failed"@
                            },
                            spec_reject_names(oldroom.names(), t.1),
                        )
                    &&& newroom.phase() == spec_resolved_phase(m, na, nd)
                }))
            }),
            old(self).spec_has_room(msg.room_id) && msg.kind == Type::AddRestaurant
                && spec_parse_option_json(msg.msg@) is None ==> final(self).spec_room(msg.room_id)
                == old(self).spec_room(msg.room_id) && out@.len() == 0,
            old(self).spec_has_room(msg.room_id) && msg.kind == Type::AddRestaurant ==> ((
            spec_parse_option_json(msg.msg@)) matches Some(pq) ==> ({
                let oldroom = old(self).spec_room(msg.room_id);
                let newroom = final(self).spec_room(msg.room_id);
                &&& (oldroom.phase() == GamePhase::Voting || oldroom.phase() == GamePhase::Ending)
                    ==> newroom == oldroom && out@.len() == 0
                &&& (oldroom.phase() == GamePhase::Waiting || oldroom.phase()
                    == GamePhase::Selection) ==> ({
                    &&& newroom.phase() == GamePhase::Voting
                    &&& newroom.history() == spec_history_push(
                        oldroom.history(),
                        (msg.name, msg.msg),
                    )
                    &&& newroom.names() == oldroom.names()
                    &&& newroom.mode() == oldroom.mode()
                    &&& newroom.tally().agree_voters().len() == 0
                    &&& newroom.tally().disagree_voters().len() == 0
                    &&& out@.len() == oldroom.members().len()
                    &&& forall|k: int|
                        0 <= k < out@.len() ==> out@[k].to == oldroom.members()[k]
                            && out@[k].msg.0@ == spec_add_restaurant_frame(pq.0, pq.1)
                })
            })),
    {
        let ghost rooms0 = self.rooms@;
        let found = self.find_room(msg.room_id);
        let idx: usize = match found {
            Some(i) => i,
            None => {
                return Vec::new();
            },
        };
        let mut entry = self.rooms.remove(idx);
        proof {
            assert(rooms0[idx as int].1.wf() && rooms0[idx as int].1.members().len() > 0);
            assert(old(self).spec_room(msg.room_id) == rooms0[idx as int].1);
            assert(entry.1 == old(self).spec_room(msg.room_id));
        }
        let out: Vec<Delivery> = match msg.kind {
            Type::Join => entry.1.apply_join(msg.id, msg.name),
            Type::Message => entry.1.apply_chat(msg.name, msg.msg),
            Type::SetVoteMode(vm) => {
                entry.1.apply_set_mode(vm);
                Vec::new()
            },
            Type::Vote => entry.1.apply_vote(msg.id, &msg.msg),
            Type::AddRestaurant => entry.1.apply_add_restaurant(msg.name, msg.msg),
        };
        self.rooms.insert(idx, entry);
        proof {
            assert(entry == (msg.room_id, entry.1));
            assert(self.rooms@ =~= rooms0.update(idx as int, (msg.room_id, entry.1)));
            lemma_alist_update(rooms0, msg.room_id, entry.1);
            assert forall|j: int|
                0 <= j < self.rooms@.len() implies (#[trigger] self.rooms@[j]).1.wf()
                && self.rooms@[j].1.members().len() > 0 by {
                if j != idx as int {
                    assert(self.rooms@[j] == rooms0[j]);
                    assert(rooms0[j].1.wf() && rooms0[j].1.members().len() > 0);
                }
            }
            let oldroom = old(self).spec_room(msg.room_id);
            if msg.kind == Type::Join {
                assert(out@.len() == oldroom.members().len());
                assert forall|k: int|
                    0 <= k < out@.len() implies (#[trigger] out@[k]).to == oldroom.members()[k]
                    && out@[k].msg.0@ == spec_join_frame(
                    spec_join_text(msg.name@),
                    oldroom.members().len() as int,
                ) by {
                    assert(out@[k].to == oldroom.members()[k]);
                    assert(out@[k].msg.0@ == spec_join_frame(
                        spec_join_text(msg.name@),
                        rooms0[idx as int].1.members().len() as int,
                    ));
                    assert(oldroom.members().len() == rooms0[idx as int].1.members().len());
                }
            }
            if msg.kind == Type::Message {
                assert forall|k: int|
                    0 <= k < out@.len() implies (#[trigger] out@[k]).to == oldroom.members()[k]
                    && out@[k].msg.0@ == spec_message_frame(spec_chat_text(msg.name@, msg.msg@)) by {
                    assert(out@[k].to == oldroom.members()[k]);
                    assert(out@[k].msg.0@ == spec_message_frame(
                        spec_chat_text(msg.name@, msg.msg@),
                    ));
                }
            }
            if msg.kind == Type::AddRestaurant {
                let parsed = spec_parse_option_json(msg.msg@);
                if parsed is Some && (oldroom.phase() == GamePhase::Waiting || oldroom.phase()
                    == GamePhase::Selection) {
                    let pq = parsed->0;
                    assert forall|k: int|
                        0 <= k < out@.len() implies (#[trigger] out@[k]).to
                        == oldroom.members()[k] && out@[k].msg.0@ == spec_add_restaurant_frame(
                        pq.0,
                        pq.1,
                    ) by {
                        assert(out@[k].to == rooms0[idx as int].1.members()[k]);
                        assert(out@[k].msg.0@ == spec_add_restaurant_frame(pq.0, pq.1));
                    }
                }
            }
        }
        out
    }
}

} // verus!

verus! {

/// One membership event, as the lobby applies it.
pub ghost enum MemberEvent {
    Joined { id: u128 },
    Left { id: u128 },
}

/// A member list evolved by the lobby's own membership rules: exactly
/// the step `handle_connect` takes on a join and `handle_disconnect`
/// takes on a leave.
pub open spec fn spec_members_after(init: Seq<u128>, tr: Seq<MemberEvent>) -> Seq<u128>
    decreases tr.len(),
{
    if tr.len() == 0 {
        init
    } else {
        let prev = spec_members_after(init, tr.drop_last());
        match tr.last() {
            MemberEvent::Joined { id } => if prev.contains(id) {
                prev
            } else {
                prev.push(id)
            },
            MemberEvent::Left { id } => prev.filter(|y: u128| y != id),
        }
    }
}

/// Whether the trace holds a join of `id` with no later leave of `id`.
pub open spec fn spec_joined_not_left(tr: Seq<MemberEvent>, id: u128) -> bool
    decreases tr.len(),
{
    if tr.len() == 0 {
        false
    } else {
        match tr.last() {
            MemberEvent::Joined { id: id2 } => id2 == id || spec_joined_not_left(
                tr.drop_last(),
                id,
            ),
            MemberEvent::Left { id: id2 } => id2 != id && spec_joined_not_left(
                tr.drop_last(),
                id,
            ),
        }
    }
}

/// For every sequence of joins and leaves, a room's member set holds
/// exactly the sessions that joined and have not since left.
/// `handle_connect` and `handle_disconnect` promise in their `ensures`
/// that each join and leave performs exactly one step of
/// `spec_members_after`, and `handle_disconnect` deletes a room whose
/// member set empties, so no registered room strays from this law.
pub proof fn lemma_membership_is_joins_minus_leaves(tr: Seq<MemberEvent>)
    ensures
        forall|id: u128| #[trigger] spec_members_after(Seq::empty(), tr).contains(id)
            <==> spec_joined_not_left(tr, id),
    decreases tr.len(),
{
    reveal(Seq::filter);
    if tr.len() > 0 {
        lemma_membership_is_joins_minus_leaves(tr.drop_last());
        let prev = spec_members_after(Seq::empty(), tr.drop_last());
        let cur = spec_members_after(Seq::empty(), tr);
        assert forall|id: u128| #[trigger] cur.contains(id) <==> spec_joined_not_left(tr, id) by {
            match tr.last() {
                MemberEvent::Joined { id: x } => {
                    if prev.contains(x) {
                        assert(cur == prev);
                        if id == x {
                            assert(cur.contains(x));
                        }
                    } else {
                        assert(cur == prev.push(x));
                        if cur.contains(id) {
                            let j = choose|j: int| 0 <= j < cur.len() && cur[j] == id;
                            if j < prev.len() {
                                assert(prev.contains(id));
                            } else {
                                assert(id == x);
                            }
                        }
                        if id == x {
                            assert(cur[prev.len() as int] == x);
                            assert(cur.contains(x));
                        }
                        if id != x && prev.contains(id) {
                            let j = choose|j: int| 0 <= j < prev.len() && prev[j] == id;
                            assert(cur[j] == id);
                            assert(cur.contains(id));
                        }
                    }
                },
                MemberEvent::Left { id: x } => {
                    assert(cur == prev.filter(|y: u128| y != x));
                    if cur.contains(id) {
                        let j = choose|j: int| 0 <= j < cur.len() && cur[j] == id;
                        prev.lemma_filter_pred(|y: u128| y != x, j);
                        assert(id != x);
                        prev.lemma_filter_contains_rev(|y: u128| y != x, id);
                        assert(prev.contains(id));
                    }
                    if id != x && prev.contains(id) {
                        let j = choose|j: int| 0 <= j < prev.len() && prev[j] == id;
                        prev.lemma_filter_contains(|y: u128| y != x, j);
                        assert(cur.contains(id));
                    }
                },
            }
        }
    }
}

/// With majority decision, a full tally resolves to pass exactly when
/// at least as many sessions agreed as disagreed (an equal split
/// passes), and the room ends; otherwise it resolves to failed and the
/// room returns to selection.
pub proof fn lemma_majority_resolution(agree: int, disagree: int, n: int)
    requires
        agree + disagree == n,
    ensures
        spec_vote_passes(VoteMode::MajorityDecision, agree, disagree) <==> agree >= disagree,
        spec_resolved_phase(VoteMode::MajorityDecision, agree, disagree) == (if agree >= disagree {
            GamePhase::Ending
        } else {
            GamePhase::Selection
        }),
{
}

/// With consensus decision, a full tally resolves to pass exactly when
/// nobody disagreed, and the room ends; otherwise it resolves to failed
/// and the room returns to selection.
pub proof fn lemma_consensus_resolution(agree: int, disagree: int, n: int)
    requires
        agree + disagree == n,
    ensures
        spec_vote_passes(VoteMode::ConsensusDecision, agree, disagree) <==> disagree == 0,
        spec_resolved_phase(VoteMode::ConsensusDecision, agree, disagree) == (if disagree == 0 {
            GamePhase::Ending
        } else {
            GamePhase::Selection
        }),
{
}

} // verus!

verus! {

impl Lobby {
    /// Whether a room is registered.
    pub fn has_room(&self, room_id: u128) -> (r: bool)
        requires
            self.wf(),
        ensures
            r == self.spec_has_room(room_id),
    {
        self.find_room(room_id).is_some()
    }

    /// How many sessions a room holds; zero for an unknown room.
    pub fn room_len(&self, room_id: u128) -> (r: usize)
        requires
            self.wf(),
        ensures
            self.spec_has_room(room_id) ==> r == self.spec_room(room_id).members().len(),
            !self.spec_has_room(room_id) ==> r == 0,
    {
        match self.find_room(room_id) {
            Some(i) => self.rooms[i].1.users.len(),
            None => 0,
        }
    }

    /// Where a room stands in the voting state machine, if it exists.
    pub fn room_phase(&self, room_id: u128) -> (r: Option<GamePhase>)
        requires
            self.wf(),
        ensures
            self.spec_has_room(room_id) ==> r == Some(self.spec_room(room_id).phase()),
            !self.spec_has_room(room_id) ==> r is None,
    {
        match self.find_room(room_id) {
            Some(i) => Some(self.rooms[i].1.game_phase),
            None => None,
        }
    }

    /// How many history entries a room holds; zero for an unknown room.
    pub fn room_history_len(&self, room_id: u128) -> (r: usize)
        requires
            self.wf(),
        ensures
            self.spec_has_room(room_id) ==> r == self.spec_room(room_id).history().len(),
            !self.spec_has_room(room_id) ==> r == 0,
    {
        match self.find_room(room_id) {
            Some(i) => self.rooms[i].1.data.len(),
            None => 0,
        }
    }
}

} // verus!
