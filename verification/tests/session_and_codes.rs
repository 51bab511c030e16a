use vote_lobby::codes::CodeRegistry;
use vote_lobby::extern_calls::fresh_session_id;
use vote_lobby::messages::{Type, VoteMode};
use vote_lobby::vote::VoteData;
use vote_lobby::ws::{heartbeat_expired, WsConn, CLIENT_TIMEOUT_SECS, HEARTBEAT_INTERVAL_SECS};

#[test]
fn session_join_binds_name_and_forwards() {
    let mut conn = WsConn::new(7);
    let cam = conn
        .on_text("{\"type\":\"join\",\"name\":\"Ann\"}")
        .expect("join frame must decode");
    assert!(matches!(cam.kind, Type::Join));
    assert_eq!(cam.room_id, 7);
    assert_eq!(cam.id, conn.id());
    assert_eq!(cam.name, "Ann");
    assert_eq!(cam.msg, "Ann");
    assert_eq!(conn.name().as_str(), "Ann");
}

#[test]
fn session_chat_carries_cached_name() {
    let mut conn = WsConn::new(7);
    conn.on_text("{\"type\":\"join\",\"name\":\"Ann\"}");
    let cam = conn
        .on_text("{\"type\":\"message\",\"message\":\"hi\"}")
        .expect("message frame must decode");
    assert!(matches!(cam.kind, Type::Message));
    assert_eq!(cam.msg, "hi");
    assert_eq!(cam.name, "Ann");
}

#[test]
fn session_vote_uses_canonical_payload() {
    let mut conn = WsConn::new(7);
    let yes = conn
        .on_text("{\"type\":\"vote\",\"is_agree\":true}")
        .expect("vote frame must decode");
    assert!(matches!(yes.kind, Type::Vote));
    assert_eq!(yes.msg, "true");
    let no = conn
        .on_text("{\"type\":\"vote\",\"is_agree\":false}")
        .expect("vote frame must decode");
    assert_eq!(no.msg, "false");
}

#[test]
fn session_set_mode_forwards_mode() {
    let mut conn = WsConn::new(7);
    let cam = conn
        .on_text("{\"type\":\"set vote mode\",\"vote_mode\":\"majority decision\"}")
        .expect("mode frame must decode");
    assert!(matches!(cam.kind, Type::SetVoteMode(VoteMode::MajorityDecision)));
}

#[test]
fn session_blank_option_name_is_dropped() {
    let mut conn = WsConn::new(7);
    let r = conn.on_text(
        "{\"type\":\"add restaurant\",\"restaurant_name\":\"  \",\"remark\":\"x\"}",
    );
    assert!(r.is_none());
}

#[test]
fn session_option_payload_is_canonical() {
    let mut conn = WsConn::new(7);
    let cam = conn
        .on_text("{\"type\":\"add restaurant\",\"restaurant_name\":\"Sushi\",\"remark\":\"spicy\"}")
        .expect("option frame must decode");
    assert!(matches!(cam.kind, Type::AddRestaurant));
    assert_eq!(cam.msg, "{\"restaurant_name\":\"Sushi\",\"remark\":\"spicy\"}");
}

#[test]
fn session_malformed_frame_is_dropped() {
    let mut conn = WsConn::new(7);
    conn.on_text("{\"type\":\"join\",\"name\":\"Ann\"}");
    assert!(conn.on_text("not a frame").is_none());
    assert_eq!(conn.name().as_str(), "Ann");
}

#[test]
fn liveness_policy_thresholds() {
    assert_eq!(HEARTBEAT_INTERVAL_SECS, 3);
    assert_eq!(CLIENT_TIMEOUT_SECS, 10);
    assert!(!heartbeat_expired(0));
    assert!(!heartbeat_expired(10));
    assert!(heartbeat_expired(11));
}

#[test]
fn session_ids_carry_version_four() {
    let a = fresh_session_id();
    let b = fresh_session_id();
    assert_ne!(a, b);
    assert_eq!((a >> 76) & 0xF, 4);
    assert_eq!((b >> 76) & 0xF, 4);
}

#[test]
fn codes_insert_lookup_and_idempotent_removal() {
    let mut codes = CodeRegistry::new();
    assert!(codes.insert_if_absent(12345, 900));
    assert!(!codes.insert_if_absent(12345, 901));
    assert_eq!(codes.lookup(12345), Some(900));
    assert_eq!(codes.lookup(11111), None);
    codes.remove_by_room(900);
    assert_eq!(codes.lookup(12345), None);
    codes.remove_by_room(900);
    assert_eq!(codes.lookup(12345), None);
}

#[test]
fn issued_code_is_five_digits_and_bound() {
    let mut codes = CodeRegistry::new();
    let mut rng = rand::thread_rng();
    let (code, room_id) = codes
        .issue_code(&mut rng, 16)
        .expect("an empty registry must accept a code");
    assert!((10000..99999).contains(&code));
    assert_eq!(codes.lookup(code), Some(room_id));
}

#[test]
fn issued_room_id_matches_digest_of_digits() {
    let mut codes = CodeRegistry::new();
    let mut rng = rand::thread_rng();
    let (code, room_id) = codes.issue_code(&mut rng, 16).expect("must issue");
    let expected = uuid::Uuid::new_v5(
        &uuid::Uuid::NAMESPACE_DNS,
        code.to_string().as_bytes(),
    )
    .as_u128();
    assert_eq!(room_id, expected);
}

#[test]
fn tally_rejects_repeat_and_mixed_votes() {
    let mut tally = VoteData::new();
    assert!(tally.vote(1, true));
    assert!(!tally.vote(1, true));
    assert!(!tally.vote(1, false));
    assert!(tally.vote(2, false));
    assert_eq!(tally.total_votes(), 2);
    let (agree, disagree) = tally.counts();
    assert_eq!(agree, 1);
    assert_eq!(disagree, 1);
    assert_eq!(tally.disagree_ids().len(), 1);
    assert_eq!(tally.disagree_ids()[0], 2);
}

#[test]
fn tally_forgets_departed_voter() {
    let mut tally = VoteData::new();
    tally.vote(1, true);
    tally.vote(2, false);
    tally.forget_voter(2);
    assert_eq!(tally.total_votes(), 1);
    let (agree, disagree) = tally.counts();
    assert_eq!(agree, 1);
    assert_eq!(disagree, 0);
}
