use vote_lobby::codec::{
    decimal_string, encode_add_restaurant_frame, encode_join_frame, encode_message_frame,
    encode_option_json, encode_vote_count_frame, encode_vote_result_frame, parse_frame,
    parse_option_json,
};
use vote_lobby::messages::{IncomingMessage, VoteMode};

#[test]
fn message_frame_exact() {
    assert_eq!(
        encode_message_frame("Ann say: hi"),
        "{\"type\":\"message\",\"message\":\"Ann say: hi\"}"
    );
}

#[test]
fn join_frame_exact() {
    assert_eq!(
        encode_join_frame("Ann join the room.", 3),
        "{\"type\":\"join\",\"message\":\"Ann join the room.\",\"length\":3}"
    );
}

#[test]
fn add_restaurant_frame_exact() {
    assert_eq!(
        encode_add_restaurant_frame("Sushi", "spicy"),
        "{\"type\":\"add restaurant\",\"restaurant_name\":\"Sushi\",\"remark\":\"spicy\"}"
    );
}

#[test]
fn vote_count_frame_exact() {
    assert_eq!(
        encode_vote_count_frame(1, 0),
        "{\"type\":\"current vote count\",\"agree\":1,\"disagree\":0}"
    );
}

#[test]
fn vote_result_frame_exact() {
    let reject = vec![String::from("Bea"), String::from("Cal")];
    assert_eq!(
        encode_vote_result_frame("failed", &reject),
        "{\"type\":\"vote result\",\"result\":\"failed\",\"reject_list\":[\"Bea\",\"Cal\"]}"
    );
    let nobody: Vec<String> = Vec::new();
    assert_eq!(
        encode_vote_result_frame("pass", &nobody),
        "{\"type\":\"vote result\",\"result\":\"pass\",\"reject_list\":[]}"
    );
}

#[test]
fn option_payload_round_trip() {
    let encoded = encode_option_json("Na\"me\\", "a\nb\tc");
    let parsed = parse_option_json(encoded.as_str());
    let (name, remark) = parsed.expect("canonical payload must parse");
    assert_eq!(name, "Na\"me\\");
    assert_eq!(remark, "a\nb\tc");
}

#[test]
fn option_payload_exact() {
    assert_eq!(
        encode_option_json("Sushi", "spicy"),
        "{\"restaurant_name\":\"Sushi\",\"remark\":\"spicy\"}"
    );
}

#[test]
fn option_payload_rejects_malformed() {
    assert!(parse_option_json("").is_none());
    assert!(parse_option_json("{\"restaurant_name\":\"Sushi\"}").is_none());
    assert!(parse_option_json("{\"restaurant_name\":\"Sushi\",\"remark\":\"x\"} ").is_none());
    assert!(parse_option_json("{\"restaurant_name\":\"Sushi\",\"remark\":\"x").is_none());
}

#[test]
fn parse_join_frame() {
    let m = parse_frame("{\"type\":\"join\",\"name\":\"Ann\"}");
    match m {
        Some(IncomingMessage::Join { name }) => assert_eq!(name, "Ann"),
        _ => panic!("expected a join frame"),
    }
}

#[test]
fn parse_message_frame() {
    let m = parse_frame("{\"type\":\"message\",\"message\":\"hi there\"}");
    match m {
        Some(IncomingMessage::Message { message }) => assert_eq!(message, "hi there"),
        _ => panic!("expected a message frame"),
    }
}

#[test]
fn parse_set_vote_mode_frames() {
    let m = parse_frame("{\"type\":\"set vote mode\",\"vote_mode\":\"majority decision\"}");
    assert!(matches!(
        m,
        Some(IncomingMessage::SetVoteMode { vote_mode: VoteMode::MajorityDecision })
    ));
    let c = parse_frame("{\"type\":\"set vote mode\",\"vote_mode\":\"consensus decision\"}");
    assert!(matches!(
        c,
        Some(IncomingMessage::SetVoteMode { vote_mode: VoteMode::ConsensusDecision })
    ));
}

#[test]
fn parse_vote_frames() {
    assert!(matches!(
        parse_frame("{\"type\":\"vote\",\"is_agree\":true}"),
        Some(IncomingMessage::Vote { is_agree: true })
    ));
    assert!(matches!(
        parse_frame("{\"type\":\"vote\",\"is_agree\":false}"),
        Some(IncomingMessage::Vote { is_agree: false })
    ));
}

#[test]
fn parse_add_restaurant_frame() {
    let m = parse_frame(
        "{\"type\":\"add restaurant\",\"restaurant_name\":\"Sushi\",\"remark\":\"spicy\"}",
    );
    match m {
        Some(IncomingMessage::AddRestarant { restaurant_name, remark }) => {
            assert_eq!(restaurant_name, "Sushi");
            assert_eq!(remark, "spicy");
        }
        _ => panic!("expected an option frame"),
    }
}

#[test]
fn parse_frame_with_escapes() {
    let m = parse_frame("{\"type\":\"message\",\"message\":\"line\\none \\\"two\\\"\"}");
    match m {
        Some(IncomingMessage::Message { message }) => assert_eq!(message, "line\none \"two\""),
        _ => panic!("expected a message frame"),
    }
}

#[test]
fn parse_rejects_malformed_frames() {
    assert!(parse_frame("").is_none());
    assert!(parse_frame("hello").is_none());
    assert!(parse_frame("{\"type\":\"unknown\",\"x\":\"y\"}").is_none());
    assert!(parse_frame("{\"type\":\"join\",\"name\":\"Ann\"").is_none());
    assert!(parse_frame("{\"type\":\"join\",\"name\":\"Ann\"}}").is_none());
    assert!(parse_frame("{\"type\":\"vote\",\"is_agree\":maybe}").is_none());
}

#[test]
fn decimal_rendering() {
    assert_eq!(decimal_string(0), "0");
    assert_eq!(decimal_string(7), "7");
    assert_eq!(decimal_string(12345), "12345");
    assert_eq!(decimal_string(100), "100");
}
