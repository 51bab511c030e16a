use vote_lobby::codec::encode_option_json;
use vote_lobby::codes::CodeRegistry;
use vote_lobby::lobby::Lobby;
use vote_lobby::messages::{
    ClientActorMessage, Connect, Disconnect, GamePhase, Type, VoteMode,
};

const ROOM: u128 = 900;

fn connect(lobby: &mut Lobby, id: u128) {
    lobby.handle_connect(Connect { lobby_id: ROOM, self_id: id });
}

fn event(kind: Type, id: u128, msg: &str, name: &str) -> ClientActorMessage {
    ClientActorMessage {
        kind,
        id,
        msg: String::from(msg),
        room_id: ROOM,
        name: String::from(name),
    }
}

fn three_member_room() -> Lobby {
    let mut lobby = Lobby::new();
    connect(&mut lobby, 1);
    connect(&mut lobby, 2);
    connect(&mut lobby, 3);
    lobby.handle(event(Type::Join, 1, "Ann", "Ann"));
    lobby.handle(event(Type::Join, 2, "Bea", "Bea"));
    lobby.handle(event(Type::Join, 3, "Cal", "Cal"));
    lobby
}

#[test]
fn membership_tracks_joins_and_leaves() {
    let mut lobby = Lobby::new();
    let mut codes = CodeRegistry::new();
    assert!(!lobby.has_room(ROOM));
    connect(&mut lobby, 1);
    connect(&mut lobby, 2);
    assert_eq!(lobby.room_len(ROOM), 2);
    connect(&mut lobby, 2);
    assert_eq!(lobby.room_len(ROOM), 2);
    let out = lobby.handle_disconnect(
        Disconnect { id: 2, room_id: ROOM, name: String::from("Bea") },
        &mut codes,
    );
    assert_eq!(lobby.room_len(ROOM), 1);
    assert_eq!(out.len(), 1);
    assert_eq!(out[0].to, 1);
    assert_eq!(
        out[0].msg.0,
        "{\"type\":\"message\",\"message\":\"Bea disconnected.\"}"
    );
}

#[test]
fn unknown_session_disconnect_is_ignored() {
    let mut lobby = Lobby::new();
    let mut codes = CodeRegistry::new();
    connect(&mut lobby, 1);
    let out = lobby.handle_disconnect(
        Disconnect { id: 42, room_id: ROOM, name: String::from("Ghost") },
        &mut codes,
    );
    assert!(out.is_empty());
    assert_eq!(lobby.room_len(ROOM), 1);
}

#[test]
fn unknown_room_event_is_dropped() {
    let mut lobby = Lobby::new();
    let out = lobby.handle(event(Type::Message, 1, "hi", "Ann"));
    assert!(out.is_empty());
}

#[test]
fn join_announces_room_size() {
    let mut lobby = Lobby::new();
    connect(&mut lobby, 1);
    connect(&mut lobby, 2);
    let out = lobby.handle(event(Type::Join, 1, "Ann", "Ann"));
    assert_eq!(out.len(), 2);
    for d in &out {
        assert_eq!(
            d.msg.0,
            "{\"type\":\"join\",\"message\":\"Ann join the room.\",\"length\":2}"
        );
    }
    assert_eq!(out[0].to, 1);
    assert_eq!(out[1].to, 2);
}

#[test]
fn chat_is_broadcast_and_recorded() {
    let mut lobby = three_member_room();
    let out = lobby.handle(event(Type::Message, 1, "lunch?", "Ann"));
    assert_eq!(out.len(), 3);
    for d in &out {
        assert_eq!(
            d.msg.0,
            "{\"type\":\"message\",\"message\":\"Ann say: lunch?\"}"
        );
    }
    assert_eq!(lobby.room_history_len(ROOM), 1);
}

#[test]
fn scenario_add_restaurant_opens_voting() {
    let mut lobby = three_member_room();
    assert_eq!(lobby.room_phase(ROOM), Some(GamePhase::Waiting));
    let payload = encode_option_json("Sushi", "spicy");
    let out = lobby.handle(event(Type::AddRestaurant, 1, payload.as_str(), "Ann"));
    assert_eq!(lobby.room_phase(ROOM), Some(GamePhase::Voting));
    assert_eq!(out.len(), 3);
    for d in &out {
        assert_eq!(
            d.msg.0,
            "{\"type\":\"add restaurant\",\"restaurant_name\":\"Sushi\",\"remark\":\"spicy\"}"
        );
    }
    assert_eq!(lobby.room_history_len(ROOM), 1);
}

#[test]
fn add_restaurant_ignored_while_voting_or_ending() {
    let mut lobby = three_member_room();
    let payload = encode_option_json("Sushi", "spicy");
    lobby.handle(event(Type::AddRestaurant, 1, payload.as_str(), "Ann"));
    assert_eq!(lobby.room_phase(ROOM), Some(GamePhase::Voting));
    let again = encode_option_json("Ramen", "hot");
    let out = lobby.handle(event(Type::AddRestaurant, 2, again.as_str(), "Bea"));
    assert!(out.is_empty());
    assert_eq!(lobby.room_phase(ROOM), Some(GamePhase::Voting));
    assert_eq!(lobby.room_history_len(ROOM), 1);
}

#[test]
fn malformed_option_payload_is_dropped() {
    let mut lobby = three_member_room();
    let out = lobby.handle(event(Type::AddRestaurant, 1, "not json", "Ann"));
    assert!(out.is_empty());
    assert_eq!(lobby.room_phase(ROOM), Some(GamePhase::Waiting));
}

#[test]
fn vote_outside_voting_phase_is_ignored() {
    let mut lobby = three_member_room();
    let out = lobby.handle(event(Type::Vote, 1, "true", "Ann"));
    assert!(out.is_empty());
}

#[test]
fn repeated_vote_changes_tally_at_most_once() {
    let mut lobby = three_member_room();
    let payload = encode_option_json("Sushi", "spicy");
    lobby.handle(event(Type::AddRestaurant, 1, payload.as_str(), "Ann"));
    let first = lobby.handle(event(Type::Vote, 1, "true", "Ann"));
    assert_eq!(
        first[0].msg.0,
        "{\"type\":\"current vote count\",\"agree\":1,\"disagree\":0}"
    );
    let second = lobby.handle(event(Type::Vote, 1, "false", "Ann"));
    assert_eq!(second.len(), 3);
    assert_eq!(
        second[0].msg.0,
        "{\"type\":\"current vote count\",\"agree\":1,\"disagree\":0}"
    );
}

#[test]
fn scenario_majority_vote_passes() {
    let mut lobby = three_member_room();
    lobby.handle(event(
        Type::SetVoteMode(VoteMode::MajorityDecision),
        1,
        "",
        "Ann",
    ));
    let payload = encode_option_json("Sushi", "spicy");
    lobby.handle(event(Type::AddRestaurant, 1, payload.as_str(), "Ann"));
    lobby.handle(event(Type::Vote, 1, "true", "Ann"));
    lobby.handle(event(Type::Vote, 2, "false", "Bea"));
    let out = lobby.handle(event(Type::Vote, 3, "true", "Cal"));
    assert_eq!(out.len(), 6);
    assert_eq!(
        out[0].msg.0,
        "{\"type\":\"current vote count\",\"agree\":2,\"disagree\":1}"
    );
    assert_eq!(
        out[3].msg.0,
        "{\"type\":\"vote result\",\"result\":\"pass\",\"reject_list\":[\"Bea\"]}"
    );
    assert_eq!(lobby.room_phase(ROOM), Some(GamePhase::Ending));
}

#[test]
fn scenario_consensus_vote_fails() {
    let mut lobby = three_member_room();
    lobby.handle(event(
        Type::SetVoteMode(VoteMode::ConsensusDecision),
        1,
        "",
        "Ann",
    ));
    let payload = encode_option_json("Sushi", "spicy");
    lobby.handle(event(Type::AddRestaurant, 1, payload.as_str(), "Ann"));
    lobby.handle(event(Type::Vote, 1, "true", "Ann"));
    lobby.handle(event(Type::Vote, 2, "false", "Bea"));
    let out = lobby.handle(event(Type::Vote, 3, "true", "Cal"));
    assert_eq!(out.len(), 6);
    assert_eq!(
        out[3].msg.0,
        "{\"type\":\"vote result\",\"result\":\"failed\",\"reject_list\":[\"Bea\"]}"
    );
    assert_eq!(lobby.room_phase(ROOM), Some(GamePhase::Selection));
}

#[test]
fn equal_split_passes_under_majority() {
    let mut lobby = Lobby::new();
    connect(&mut lobby, 1);
    connect(&mut lobby, 2);
    lobby.handle(event(Type::Join, 1, "Ann", "Ann"));
    lobby.handle(event(Type::Join, 2, "Bea", "Bea"));
    lobby.handle(event(
        Type::SetVoteMode(VoteMode::MajorityDecision),
        1,
        "",
        "Ann",
    ));
    let payload = encode_option_json("Sushi", "spicy");
    lobby.handle(event(Type::AddRestaurant, 1, payload.as_str(), "Ann"));
    lobby.handle(event(Type::Vote, 1, "true", "Ann"));
    let out = lobby.handle(event(Type::Vote, 2, "false", "Bea"));
    assert_eq!(
        out[2].msg.0,
        "{\"type\":\"vote result\",\"result\":\"pass\",\"reject_list\":[\"Bea\"]}"
    );
    assert_eq!(lobby.room_phase(ROOM), Some(GamePhase::Ending));
}

#[test]
fn vote_mode_is_write_once() {
    let mut lobby = three_member_room();
    lobby.handle(event(
        Type::SetVoteMode(VoteMode::ConsensusDecision),
        1,
        "",
        "Ann",
    ));
    lobby.handle(event(
        Type::SetVoteMode(VoteMode::MajorityDecision),
        2,
        "",
        "Bea",
    ));
    let payload = encode_option_json("Sushi", "spicy");
    lobby.handle(event(Type::AddRestaurant, 1, payload.as_str(), "Ann"));
    lobby.handle(event(Type::Vote, 1, "true", "Ann"));
    lobby.handle(event(Type::Vote, 2, "false", "Bea"));
    let out = lobby.handle(event(Type::Vote, 3, "true", "Cal"));
    assert_eq!(
        out[3].msg.0,
        "{\"type\":\"vote result\",\"result\":\"failed\",\"reject_list\":[\"Bea\"]}"
    );
}

#[test]
fn history_keeps_at_most_fifty_entries() {
    let mut lobby = Lobby::new();
    connect(&mut lobby, 1);
    lobby.handle(event(Type::Join, 1, "Ann", "Ann"));
    for i in 0..51 {
        let text = format!("m{}", i);
        lobby.handle(event(Type::Message, 1, text.as_str(), "Ann"));
    }
    assert_eq!(lobby.room_history_len(ROOM), 50);
    let replay = lobby.handle_connect(Connect { lobby_id: ROOM, self_id: 2 });
    assert_eq!(replay.len(), 50);
    assert_eq!(replay[0].to, 2);
    assert_eq!(
        replay[0].msg.0,
        "{\"type\":\"message\",\"message\":\"Ann say: m1\"}"
    );
    assert_eq!(
        replay[49].msg.0,
        "{\"type\":\"message\",\"message\":\"Ann say: m50\"}"
    );
}

#[test]
fn history_replay_formats_options_as_suggestions() {
    let mut lobby = Lobby::new();
    connect(&mut lobby, 1);
    lobby.handle(event(Type::Join, 1, "Ann", "Ann"));
    let payload = encode_option_json("Sushi", "spicy");
    lobby.handle(event(Type::AddRestaurant, 1, payload.as_str(), "Ann"));
    let replay = lobby.handle_connect(Connect { lobby_id: ROOM, self_id: 2 });
    assert_eq!(replay.len(), 1);
    assert_eq!(
        replay[0].msg.0,
        "{\"type\":\"message\",\"message\":\"Ann suggest[restaurant: Sushi, remark: spicy]\"}"
    );
}

#[test]
fn scenario_last_disconnect_removes_room_and_code() {
    let mut lobby = Lobby::new();
    let mut codes = CodeRegistry::new();
    assert!(codes.insert_if_absent(54321, ROOM));
    connect(&mut lobby, 1);
    lobby.handle(event(Type::Join, 1, "Ann", "Ann"));
    let out = lobby.handle_disconnect(
        Disconnect { id: 1, room_id: ROOM, name: String::from("Ann") },
        &mut codes,
    );
    assert!(out.is_empty());
    assert!(!lobby.has_room(ROOM));
    assert_eq!(codes.lookup(54321), None);
}

#[test]
fn consensus_unanimous_vote_passes_with_empty_reject_list() {
    let mut lobby = Lobby::new();
    connect(&mut lobby, 1);
    connect(&mut lobby, 2);
    lobby.handle(event(Type::Join, 1, "Ann", "Ann"));
    lobby.handle(event(Type::Join, 2, "Bea", "Bea"));
    lobby.handle(event(
        Type::SetVoteMode(VoteMode::ConsensusDecision),
        1,
        "",
        "Ann",
    ));
    let payload = encode_option_json("Sushi", "spicy");
    lobby.handle(event(Type::AddRestaurant, 1, payload.as_str(), "Ann"));
    lobby.handle(event(Type::Vote, 1, "true", "Ann"));
    let out = lobby.handle(event(Type::Vote, 2, "true", "Bea"));
    assert_eq!(
        out[2].msg.0,
        "{\"type\":\"vote result\",\"result\":\"pass\",\"reject_list\":[]}"
    );
    assert_eq!(lobby.room_phase(ROOM), Some(GamePhase::Ending));
}

#[test]
fn failed_vote_opens_a_fresh_round() {
    let mut lobby = three_member_room();
    lobby.handle(event(
        Type::SetVoteMode(VoteMode::ConsensusDecision),
        1,
        "",
        "Ann",
    ));
    let payload = encode_option_json("Sushi", "spicy");
    lobby.handle(event(Type::AddRestaurant, 1, payload.as_str(), "Ann"));
    lobby.handle(event(Type::Vote, 1, "true", "Ann"));
    lobby.handle(event(Type::Vote, 2, "false", "Bea"));
    lobby.handle(event(Type::Vote, 3, "true", "Cal"));
    assert_eq!(lobby.room_phase(ROOM), Some(GamePhase::Selection));
    let next = encode_option_json("Ramen", "hot");
    lobby.handle(event(Type::AddRestaurant, 2, next.as_str(), "Bea"));
    assert_eq!(lobby.room_phase(ROOM), Some(GamePhase::Voting));
    let out = lobby.handle(event(Type::Vote, 1, "true", "Ann"));
    assert_eq!(
        out[0].msg.0,
        "{\"type\":\"current vote count\",\"agree\":1,\"disagree\":0}"
    );
}

#[test]
fn disconnect_mid_round_forgets_the_ballot() {
    let mut lobby = Lobby::new();
    let mut codes = CodeRegistry::new();
    connect(&mut lobby, 1);
    connect(&mut lobby, 2);
    lobby.handle(event(Type::Join, 1, "Ann", "Ann"));
    lobby.handle(event(Type::Join, 2, "Bea", "Bea"));
    lobby.handle(event(
        Type::SetVoteMode(VoteMode::MajorityDecision),
        1,
        "",
        "Ann",
    ));
    let payload = encode_option_json("Sushi", "spicy");
    lobby.handle(event(Type::AddRestaurant, 1, payload.as_str(), "Ann"));
    lobby.handle(event(Type::Vote, 1, "true", "Ann"));
    lobby.handle_disconnect(
        Disconnect { id: 1, room_id: ROOM, name: String::from("Ann") },
        &mut codes,
    );
    let out = lobby.handle(event(Type::Vote, 2, "false", "Bea"));
    assert_eq!(
        out[0].msg.0,
        "{\"type\":\"current vote count\",\"agree\":0,\"disagree\":1}"
    );
    assert_eq!(
        out[1].msg.0,
        "{\"type\":\"vote result\",\"result\":\"failed\",\"reject_list\":[\"Bea\"]}"
    );
    assert_eq!(lobby.room_phase(ROOM), Some(GamePhase::Selection));
}

#[test]
fn nonmember_vote_is_not_recorded() {
    let mut lobby = three_member_room();
    let payload = encode_option_json("Sushi", "spicy");
    lobby.handle(event(Type::AddRestaurant, 1, payload.as_str(), "Ann"));
    let out = lobby.handle(event(Type::Vote, 99, "true", "Ghost"));
    assert_eq!(out.len(), 3);
    assert_eq!(
        out[0].msg.0,
        "{\"type\":\"current vote count\",\"agree\":0,\"disagree\":0}"
    );
}
