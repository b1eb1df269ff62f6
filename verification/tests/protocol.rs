use soundboard::files::{is_allowed_file, normalize_audio_file};
use soundboard::json::{parse_sound_message, sound_message_json};
use soundboard::registry::AudioState;
use soundboard::session::{handle_frame, InboundFrame, SessionReply};

#[test]
fn allowed_files_by_extension() {
    assert!(is_allowed_file("air_horn.wav"));
    assert!(is_allowed_file("klaxon.mp3"));
    assert!(is_allowed_file("chime.ogg"));
    assert!(is_allowed_file("SHOUT.WAV"));
    assert!(is_allowed_file("mixed.Mp3"));
    assert!(is_allowed_file("dir/nested.ogg"));
    assert!(is_allowed_file("many.dots.wav"));
    assert!(!is_allowed_file("notes.txt"));
    assert!(!is_allowed_file("noextension"));
    assert!(!is_allowed_file(".wav"));
    assert!(!is_allowed_file("trailing."));
    assert!(!is_allowed_file(""));
    assert!(!is_allowed_file("dir.wav/plain"));
}

#[test]
fn normalization_always_succeeds() {
    assert!(normalize_audio_file("uploads/air_horn.wav").is_ok());
}

#[test]
fn message_json_round_trip() {
    let s = sound_message_json("play-sound", "air_horn.wav");
    assert_eq!(s, "{\"action\":\"play-sound\",\"filename\":\"air_horn.wav\"}");
    let parsed = parse_sound_message(&s).unwrap();
    assert_eq!(parsed.0, "play-sound");
    assert_eq!(parsed.1, "air_horn.wav");
}

#[test]
fn message_json_escapes_round_trip() {
    let s = sound_message_json("play-sound", "we\"ird\\name.wav");
    let parsed = parse_sound_message(&s).unwrap();
    assert_eq!(parsed.0, "play-sound");
    assert_eq!(parsed.1, "we\"ird\\name.wav");
}

#[test]
fn malformed_messages_are_rejected() {
    assert!(parse_sound_message("").is_none());
    assert!(parse_sound_message("{}").is_none());
    assert!(parse_sound_message("{\"action\":\"play-sound\"}").is_none());
    assert!(parse_sound_message("{\"action\":\"a\",\"filename\":\"b\"").is_none());
    assert!(parse_sound_message("{\"action\":\"a\",\"filename\":\"b\"}x").is_none());
    assert!(parse_sound_message("{\"action\":\"a\",\"filename\":\"b\\x\"}").is_none());
}

fn reply_text(reply: SessionReply) -> String {
    match reply {
        SessionReply::Text(m) => m,
        _ => panic!("expected a text reply"),
    }
}

#[test]
fn text_frame_toggles_and_reports() {
    let mut state = AudioState::new();
    let request = "{\"action\":\"play-sound\",\"filename\":\"air_horn.wav\"}";

    let reply = handle_frame(&mut state, InboundFrame::Text(request.to_string()));
    assert_eq!(
        reply_text(reply),
        "{\"action\":\"sound-played\",\"filename\":\"air_horn.wav\"}"
    );

    let reply = handle_frame(&mut state, InboundFrame::Text(request.to_string()));
    assert_eq!(
        reply_text(reply),
        "{\"action\":\"sound-stopped\",\"filename\":\"air_horn.wav\"}"
    );
}

#[test]
fn unknown_action_yields_error() {
    let mut state = AudioState::new();
    let request = "{\"action\":\"other\",\"filename\":\"air_horn.wav\"}";
    let reply = handle_frame(&mut state, InboundFrame::Text(request.to_string()));
    assert_eq!(
        reply_text(reply),
        "{\"action\": \"error\", \"message\": \"Unsupported action\"}"
    );
    // the refused request did not flip the believed state
    assert!(state.toggle_sound("air_horn.wav").unwrap());
}

#[test]
fn toggle_after_shutdown_yields_error_event() {
    let mut state = AudioState::new();
    state.close_queue();
    let request = "{\"action\":\"play-sound\",\"filename\":\"air_horn.wav\"}";
    let reply = handle_frame(&mut state, InboundFrame::Text(request.to_string()));
    assert_eq!(
        reply_text(reply),
        "{\"action\": \"error\", \"message\": \"Playback has shut down\"}"
    );
    // the failed toggle recorded nothing: a fresh queue would see Play first
    assert!(state.toggle_sound("air_horn.wav").is_err());
}

#[test]
fn malformed_text_frame_yields_error() {
    let mut state = AudioState::new();
    let reply = handle_frame(&mut state, InboundFrame::Text("not json".to_string()));
    assert_eq!(
        reply_text(reply),
        "{\"action\": \"error\", \"message\": \"Invalid message format\"}"
    );
}

#[test]
fn unsupported_frames_yield_errors() {
    let mut state = AudioState::new();
    let reply = handle_frame(&mut state, InboundFrame::Binary(vec![1, 2, 3]));
    assert_eq!(
        reply_text(reply),
        "{\"action\": \"error\", \"message\": \"Binary messages not supported\"}"
    );
    let reply = handle_frame(&mut state, InboundFrame::Continuation);
    assert_eq!(
        reply_text(reply),
        "{\"action\": \"error\", \"message\": \"Continuation messages not supported\"}"
    );
}

#[test]
fn ping_is_answered_and_close_closes() {
    let mut state = AudioState::new();
    match handle_frame(&mut state, InboundFrame::Ping(vec![7])) {
        SessionReply::Pong(m) => assert_eq!(m, vec![7]),
        _ => panic!("expected a pong"),
    }
    match handle_frame(&mut state, InboundFrame::Close) {
        SessionReply::CloseSession => {},
        _ => panic!("expected the session to close"),
    }
    match handle_frame(&mut state, InboundFrame::Pong(vec![])) {
        SessionReply::Nothing => {},
        _ => panic!("expected no reply"),
    }
    match handle_frame(&mut state, InboundFrame::Nop) {
        SessionReply::Nothing => {},
        _ => panic!("expected no reply"),
    }
}

#[test]
fn whitespace_and_field_order_are_accepted() {
    let spaced = "{ \"action\": \"play-sound\", \"filename\": \"air_horn.wav\" }";
    let parsed = parse_sound_message(spaced).unwrap();
    assert_eq!(parsed.0, "play-sound");
    assert_eq!(parsed.1, "air_horn.wav");

    let reversed = "{\"filename\":\"air_horn.wav\",\"action\":\"play-sound\"}";
    let parsed = parse_sound_message(reversed).unwrap();
    assert_eq!(parsed.0, "play-sound");
    assert_eq!(parsed.1, "air_horn.wav");

    let newlines = "{\n  \"action\": \"play-sound\",\n  \"filename\": \"x.wav\"\n}\n";
    let parsed = parse_sound_message(newlines).unwrap();
    assert_eq!(parsed.0, "play-sound");
    assert_eq!(parsed.1, "x.wav");
}

#[test]
fn standard_escapes_are_decoded() {
    let s = "{\"action\":\"play-sound\",\"filename\":\"a\\tb\\nc\\/d\\u0041e\"}";
    let parsed = parse_sound_message(s).unwrap();
    assert_eq!(parsed.1, "a\tb\nc/dAe");

    // a surrogate code is no scalar value
    assert!(parse_sound_message("{\"action\":\"a\",\"filename\":\"\\uD800\"}").is_none());
    // hex digits must be hex
    assert!(parse_sound_message("{\"action\":\"a\",\"filename\":\"\\u00zz\"}").is_none());
}

#[test]
fn control_characters_are_escaped_on_output() {
    let s = sound_message_json("sound-played", "a\nb\u{1}c");
    assert_eq!(s, "{\"action\":\"sound-played\",\"filename\":\"a\\nb\\u0001c\"}");
    let parsed = parse_sound_message(&s).unwrap();
    assert_eq!(parsed.1, "a\nb\u{1}c");
}

#[test]
fn spaced_text_frame_toggles() {
    let mut state = AudioState::new();
    let request = "{ \"action\": \"play-sound\", \"filename\": \"air_horn.wav\" }";
    let reply = handle_frame(&mut state, InboundFrame::Text(request.to_string()));
    assert_eq!(
        reply_text(reply),
        "{\"action\":\"sound-played\",\"filename\":\"air_horn.wav\"}"
    );
}

#[test]
fn unknown_members_are_ignored() {
    let s = "{\"action\":\"play-sound\",\"volume\":\"high\",\"filename\":\"x.wav\"}";
    let parsed = parse_sound_message(s).unwrap();
    assert_eq!(parsed.0, "play-sound");
    assert_eq!(parsed.1, "x.wav");

    let s = "{ \"note\": \"\", \"filename\": \"x.wav\", \"action\": \"play-sound\", \"z\": \"1\" }";
    let parsed = parse_sound_message(s).unwrap();
    assert_eq!(parsed.0, "play-sound");
    assert_eq!(parsed.1, "x.wav");
}

#[test]
fn repeated_or_missing_known_members_are_rejected() {
    assert!(parse_sound_message("{\"action\":\"a\",\"action\":\"b\",\"filename\":\"c\"}").is_none());
    assert!(parse_sound_message("{\"note\":\"a\",\"filename\":\"c\"}").is_none());
    // the two known members must carry strings
    assert!(parse_sound_message("{\"action\":3,\"filename\":\"b\"}").is_none());
    assert!(parse_sound_message("{\"action\":\"a\",\"filename\":null}").is_none());
}

#[test]
fn unknown_members_may_carry_scalars() {
    let s = "{\"action\":\"a\",\"count\":3,\"filename\":\"b\"}";
    let parsed = parse_sound_message(s).unwrap();
    assert_eq!(parsed.0, "a");
    assert_eq!(parsed.1, "b");

    let s = "{ \"loop\": true, \"action\": \"a\", \"gain\": -1.5e2, \"pan\": null, \"filename\": \"b\" }";
    let parsed = parse_sound_message(s).unwrap();
    assert_eq!(parsed.0, "a");
    assert_eq!(parsed.1, "b");

    // a nested value is not accepted
    assert!(parse_sound_message("{\"action\":\"a\",\"extra\":{},\"filename\":\"b\"}").is_none());
}

#[test]
fn surrogate_pairs_are_decoded() {
    let s = "{\"action\":\"a\",\"filename\":\"x\\uD83D\\uDE00y.wav\"}";
    let parsed = parse_sound_message(s).unwrap();
    assert_eq!(parsed.1, "x\u{1F600}y.wav");

    // a high half must be followed by a low half
    assert!(parse_sound_message("{\"action\":\"a\",\"filename\":\"\\uD83Dx\"}").is_none());
    // a lone low half names nothing
    assert!(parse_sound_message("{\"action\":\"a\",\"filename\":\"\\uDE00\"}").is_none());
}
