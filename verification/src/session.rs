//! The per-connection protocol handler: one inbound frame in, one
//! reply out, with at most one toggle of the shared registry.
//!
//! A well-formed toggle request flips the clip's believed state,
//! enqueues the matching command and reports the new state to the
//! originating client. Malformed payloads, unsupported actions and
//! unsupported frame kinds yield an error reply and leave registry and
//! queue untouched; so does a toggle request arriving after playback
//! has shut down, whose queue-closed failure is reported rather than
//! passed off as success.

use vstd::prelude::*;

use crate::json::{parse_sound_message, sound_message_json, spec_message, spec_parse};
use crate::registry::{clip_path, toggle_rel, AudioState};
use crate::stringops::str_eq;

verus! {

/// One frame of a client's duplex channel, stripped of transport detail.
pub enum InboundFrame {
    Text(String),
    Binary(Vec<u8>),
    Ping(Vec<u8>),
    Pong(Vec<u8>),
    Close,
    Continuation,
    Nop,
}

/// What the session sends back, or does, in response to one frame.
pub enum SessionReply {
    Text(String),
    Pong(Vec<u8>),
    CloseSession,
    Nothing,
}

/// The reply owed to a text frame that did not parse.
pub open spec fn invalid_message_reply() -> Seq<char> {
    "{\"action\": \"error\", \"message\": \"Invalid message format\"}"@
}

/// The reply owed to a well-formed message whose action is unsupported.
pub open spec fn unsupported_action_reply() -> Seq<char> {
    "{\"action\": \"error\", \"message\": \"Unsupported action\"}"@
}

/// The reply owed to a toggle request after playback has shut down.
pub open spec fn queue_closed_reply() -> Seq<char> {
    "{\"action\": \"error\", \"message\": \"Playback has shut down\"}"@
}

/// The reply owed to a binary frame.
pub open spec fn binary_unsupported_reply() -> Seq<char> {
    "{\"action\": \"error\", \"message\": \"Binary messages not supported\"}"@
}

/// The reply owed to a continuation frame.
pub open spec fn continuation_unsupported_reply() -> Seq<char> {
    "{\"action\": \"error\", \"message\": \"Continuation messages not supported\"}"@
}

/// Handle one inbound frame against the shared state.
///
/// Only a text frame that parses as the toggle request touches the
/// registry or the command queue; every other frame leaves them as
/// they were. A well-formed message with an unsupported action, and a
/// toggle request arriving after playback has shut down, draw the
/// protocol's error event.
pub fn handle_frame(state: &mut AudioState, frame: InboundFrame) -> (reply: SessionReply)
    requires
        old(state).wf(),
    ensures
        final(state).wf(),
        match frame {
            InboundFrame::Text(t) => match spec_parse(t@) {
                Some(msg) => {
                    if msg.0 == "play-sound"@ {
                        if !old(state).queue_closed() {
                            let started = !old(state).believed_playing(clip_path(msg.1));
                            &&& toggle_rel(*old(state), *final(state), clip_path(msg.1))
                            &&& (reply matches SessionReply::Text(m) && m@ == spec_message(
                                if started {
                                    "sound-played"@
                                } else {
                                    "sound-stopped"@
                                },
                                msg.1,
                            ))
                        } else {
                            &&& crate::registry::state_unchanged(*old(state), *final(state))
                            &&& (reply matches SessionReply::Text(m) && m@ == queue_closed_reply())
                        }
                    } else {
                        &&& *final(state) == *old(state)
                        &&& (reply matches SessionReply::Text(m) && m@
                            == unsupported_action_reply())
                    }
                },
                None => {
                    &&& *final(state) == *old(state)
                    &&& (reply matches SessionReply::Text(m) && m@ == invalid_message_reply())
                },
            },
            InboundFrame::Binary(_) => *final(state) == *old(state) && (reply
                matches SessionReply::Text(m) && m@ == binary_unsupported_reply()),
            InboundFrame::Ping(m) => *final(state) == *old(state) && reply == SessionReply::Pong(m),
            InboundFrame::Pong(_) => *final(state) == *old(state) && reply is Nothing,
            InboundFrame::Close => *final(state) == *old(state) && reply is CloseSession,
            InboundFrame::Continuation => *final(state) == *old(state) && (reply
                matches SessionReply::Text(m) && m@ == continuation_unsupported_reply()),
            InboundFrame::Nop => *final(state) == *old(state) && reply is Nothing,
        },
{
    match frame {
        InboundFrame::Text(t) => {
            match parse_sound_message(t.as_str()) {
                Some(msg) => {
                    if str_eq(msg.0.as_str(), "play-sound") {
                        match state.toggle_sound(msg.1.as_str()) {
                            Ok(started) => {
                                let reply_action = if started {
                                    "sound-played"
                                } else {
                                    "sound-stopped"
                                };
                                SessionReply::Text(
                                    sound_message_json(reply_action, msg.1.as_str()),
                                )
                            },
                            Err(_) => SessionReply::Text(
                                "{\"action\": \"error\", \"message\": \"Playback has shut down\"}".to_owned(),
                            ),
                        }
                    } else {
                        SessionReply::Text(
                            "{\"action\": \"error\", \"message\": \"Unsupported action\"}".to_owned(),
                        )
                    }
                },
                None => SessionReply::Text(
                    "{\"action\": \"error\", \"message\": \"Invalid message format\"}".to_owned(),
                ),
            }
        },
        InboundFrame::Binary(_) => SessionReply::Text(
            "{\"action\": \"error\", \"message\": \"Binary messages not supported\"}".to_owned(),
        ),
        InboundFrame::Ping(m) => SessionReply::Pong(m),
        InboundFrame::Pong(_) => SessionReply::Nothing,
        InboundFrame::Close => SessionReply::CloseSession,
        InboundFrame::Continuation => SessionReply::Text(
            "{\"action\": \"error\", \"message\": \"Continuation messages not supported\"}".to_owned(),
        ),
        InboundFrame::Nop => SessionReply::Nothing,
    }
}

} // verus!
