//! The announcements that nodes send to each other, and their form on the
//! wire.
//!
//! A message travels as JSON text: `FailedToChangeState` as the string of
//! that name, `StateChangingTo` as an object with the single key
//! `StateChangingTo` and the phase name as its value. The JSON text itself is
//! written and read by `serde_json`.

use vstd::prelude::*;
use crate::phase::Phase;

verus! {

/// What a node tells its peers.
#[derive(Debug, PartialEq, Eq)]
pub enum Message {
    /// The sender has arrived at the boundary in front of the named phase.
    StateChangingTo(String),
    /// The sender could not move on.
    FailedToChangeState,
}

/// A message as plain mathematical values.
pub enum MessageView {
    /// An announcement, with the name it carries.
    StateChangingTo(Seq<char>),
    /// The report of a failure.
    FailedToChangeState,
}

impl View for Message {
    type V = MessageView;

    open spec fn view(&self) -> MessageView {
        match self {
            Message::StateChangingTo(name) => MessageView::StateChangingTo(name@),
            Message::FailedToChangeState => MessageView::FailedToChangeState,
        }
    }
}

impl Clone for Message {
    fn clone(&self) -> (copy: Message)
        ensures
            copy@ == self@,
    {
        match self {
            Message::StateChangingTo(name) => Message::StateChangingTo(name.clone()),
            Message::FailedToChangeState => Message::FailedToChangeState,
        }
    }
}

impl MessageView {
    /// The phase whose boundary the message announces, if it announces one
    /// and names a phase.
    pub open spec fn announced(self) -> Option<Phase> {
        match self {
            MessageView::StateChangingTo(name) => Phase::from_name_spec(name),
            MessageView::FailedToChangeState => None,
        }
    }
}

/// Why bytes could not be read as a message, or a message not be written.
#[derive(Clone, Copy, Debug, PartialEq, Eq, Structural)]
pub enum CodecError {
    /// The bytes are not JSON text of one of the two shapes.
    Malformed,
    /// The JSON text is well formed but is neither of the two messages.
    UnknownVariant,
    /// The JSON writer refused the message.
    Unwritable,
}

/// The error type of `serde_json`. Nothing is known of what is inside; the
/// library only tells that there was an error.
#[verifier::external_type_specification]
#[verifier::external_body]
pub struct ExJsonError(serde_json::Error);

/// The JSON text that `serde_json::to_vec` writes for a string, or `None`
/// where it reports an error.
pub uninterp spec fn json_of_text(text: Seq<char>) -> Option<Seq<u8>>;

/// The JSON text that `serde_json::to_vec` writes for a map with the single
/// entry `key: value`, or `None` where it reports an error.
pub uninterp spec fn json_of_entry(key: Seq<char>, value: Seq<char>) -> Option<Seq<u8>>;

/// The string that `serde_json::from_slice` reads from bytes that are the
/// JSON text of a string, or `None` where it reports an error.
pub uninterp spec fn text_of_json(bytes: Seq<u8>) -> Option<Seq<char>>;

/// The entries, in the order of their keys, of the map from strings to
/// strings that `serde_json::from_slice` reads from bytes that are the JSON
/// text of such a map, or `None` where it reports an error.
pub uninterp spec fn entries_of_json(bytes: Seq<u8>) -> Option<Seq<(Seq<char>, Seq<char>)>>;

/// The contents of a list of pairs of strings.
pub open spec fn entry_views(entries: Seq<(String, String)>) -> Seq<(Seq<char>, Seq<char>)> {
    entries.map_values(|e: (String, String)| (e.0@, e.1@))
}

/// Calls `serde_json::to_vec` on a string. Nothing is proved of the JSON
/// text: the contract only gives the outcome its name.
#[verifier::external_body]
fn write_json_text(text: &str) -> (outcome: Result<Vec<u8>, serde_json::Error>)
    ensures
        match outcome {
            Ok(bytes) => json_of_text(text@) == Some(bytes@),
            Err(_) => json_of_text(text@) is None,
        },
{
    serde_json::to_vec(text)
}

/// Calls `serde_json::to_vec` on a map from strings to strings that holds
/// the one entry `key: value`. Nothing is proved of the JSON text: the
/// contract only gives the outcome its name.
#[verifier::external_body]
fn write_json_entry(key: &str, value: &str) -> (outcome: Result<Vec<u8>, serde_json::Error>)
    ensures
        match outcome {
            Ok(bytes) => json_of_entry(key@, value@) == Some(bytes@),
            Err(_) => json_of_entry(key@, value@) is None,
        },
{
    let mut entries: std::collections::BTreeMap<&str, &str> = std::collections::BTreeMap::new();
    entries.insert(key, value);
    serde_json::to_vec(&entries)
}

/// Calls `serde_json::from_slice` to read a string. Nothing is proved of
/// how JSON is read: the contract only gives the outcome its name.
#[verifier::external_body]
fn read_json_text(bytes: &[u8]) -> (outcome: Result<String, serde_json::Error>)
    ensures
        match outcome {
            Ok(text) => text_of_json(bytes@) == Some(text@),
            Err(_) => text_of_json(bytes@) is None,
        },
{
    serde_json::from_slice::<String>(bytes)
}

/// Calls `serde_json::from_slice` to read a map from strings to strings,
/// and hands its entries out in the order of their keys. Nothing is proved of
/// how JSON is read: the contract only gives the outcome its name.
#[verifier::external_body]
fn read_json_entries(bytes: &[u8]) -> (outcome: Result<Vec<(String, String)>, serde_json::Error>)
    ensures
        match outcome {
            Ok(entries) => entries_of_json(bytes@) == Some(entry_views(entries@)),
            Err(_) => entries_of_json(bytes@) is None,
        },
{
    let map = serde_json::from_slice::<std::collections::BTreeMap<String, String>>(bytes)?;
    Ok(map.into_iter().collect())
}

/// The bytes of a message on the wire, given what the JSON writer makes of
/// its parts.
pub open spec fn wire_bytes(message: MessageView) -> Option<Seq<u8>> {
    match message {
        MessageView::StateChangingTo(name) => json_of_entry("StateChangingTo"@, name),
        MessageView::FailedToChangeState => json_of_text("FailedToChangeState"@),
    }
}

/// The message that was read, given what the JSON reader found: a string
/// must be `FailedToChangeState`; a map must hold exactly one entry, with the
/// key `StateChangingTo`.
pub open spec fn message_from_json(
    text: Option<Seq<char>>,
    entries: Option<Seq<(Seq<char>, Seq<char>)>>,
) -> Result<MessageView, CodecError> {
    match text {
        Some(t) => if t == "FailedToChangeState"@ {
            Ok(MessageView::FailedToChangeState)
        } else {
            Err(CodecError::UnknownVariant)
        },
        None => match entries {
            Some(es) => if es.len() == 1 && es[0].0 == "StateChangingTo"@ {
                Ok(MessageView::StateChangingTo(es[0].1))
            } else {
                Err(CodecError::UnknownVariant)
            },
            None => Err(CodecError::Malformed),
        },
    }
}

impl Message {
    /// The announcement that the sender has arrived at the boundary in front
    /// of `phase`.
    pub fn announcing(phase: Phase) -> (message: Message)
        ensures
            message@ == MessageView::StateChangingTo(phase.name_spec()),
            message@.announced() == Some(phase),
    {
        proof {
            crate::phase::lemma_name_round_trip(phase, phase.name_spec());
        }
        Message::StateChangingTo(phase.name().to_owned())
    }

    /// The phase whose boundary the message announces. `None` for
    /// `FailedToChangeState` and for a name that is no phase's.
    pub fn announced_phase(&self) -> (phase: Option<Phase>)
        ensures
            phase == self@.announced(),
    {
        match self {
            Message::StateChangingTo(name) => Phase::from_name(name.as_str()),
            Message::FailedToChangeState => None,
        }
    }

    /// Writes the message as JSON text.
    pub fn encode(&self) -> (outcome: Result<Vec<u8>, CodecError>)
        ensures
            match outcome {
                Ok(bytes) => wire_bytes(self@) == Some(bytes@),
                Err(e) => wire_bytes(self@) is None && e == CodecError::Unwritable,
            },
    {
        let written = match self {
            Message::StateChangingTo(name) => write_json_entry("StateChangingTo", name.as_str()),
            Message::FailedToChangeState => write_json_text("FailedToChangeState"),
        };
        match written {
            Ok(bytes) => Ok(bytes),
            Err(_) => Err(CodecError::Unwritable),
        }
    }

    /// Decides which message the JSON reader has found. `text` is what it
    /// read as a string, `entries` what it read as a map, each `None` where
    /// the bytes were no such thing.
    pub fn from_parsed(text: Option<String>, entries: Option<Vec<(String, String)>>) -> (outcome:
        Result<Message, CodecError>)
        ensures
            match outcome {
                Ok(message) => message_from_json(text_view(text), entries_view(entries)) == Ok::<
                    MessageView,
                    CodecError,
                >(message@),
                Err(e) => message_from_json(text_view(text), entries_view(entries)) == Err::<
                    MessageView,
                    CodecError,
                >(e),
            },
    {
        match text {
            Some(t) => {
                if t == "FailedToChangeState".to_owned() {
                    Ok(Message::FailedToChangeState)
                } else {
                    Err(CodecError::UnknownVariant)
                }
            },
            None => match entries {
                Some(es) => {
                    if es.len() == 1 && es[0].0 == "StateChangingTo".to_owned() {
                        Ok(Message::StateChangingTo(es[0].1.clone()))
                    } else {
                        Err(CodecError::UnknownVariant)
                    }
                },
                None => Err(CodecError::Malformed),
            },
        }
    }

    /// Reads a message from its JSON text.
    pub fn decode(bytes: &[u8]) -> (outcome: Result<Message, CodecError>)
        ensures
            match outcome {
                Ok(message) => message_from_json(text_of_json(bytes@), entries_of_json(bytes@))
                    == Ok::<MessageView, CodecError>(message@),
                Err(e) => message_from_json(text_of_json(bytes@), entries_of_json(bytes@)) == Err::<
                    MessageView,
                    CodecError,
                >(e),
            },
    {
        match read_json_text(bytes) {
            Ok(text) => Message::from_parsed(Some(text), None),
            Err(_) => match read_json_entries(bytes) {
                Ok(entries) => Message::from_parsed(None, Some(entries)),
                Err(_) => Message::from_parsed(None, None),
            },
        }
    }
}

/// What was read as a string, as plain values.
pub open spec fn text_view(text: Option<String>) -> Option<Seq<char>> {
    match text {
        Some(t) => Some(t@),
        None => None,
    }
}

/// What was read as a map, as plain values.
pub open spec fn entries_view(entries: Option<Vec<(String, String)>>) -> Option<
    Seq<(Seq<char>, Seq<char>)>,
> {
    match entries {
        Some(es) => Some(entry_views(es@)),
        None => None,
    }
}

/// The writer and the reader of messages agree with each other. Suppose
/// that `serde_json` reads the wire form of a message back as what was
/// written: the string as that string, the one-entry map as that entry and
/// not as a string. Then the message that is read is the message that was
/// written. What is supposed here of `serde_json` is not proved.
pub proof fn lemma_round_trip_where_json_round_trips(message: MessageView, bytes: Seq<u8>)
    requires
        wire_bytes(message) == Some(bytes),
        match message {
            MessageView::StateChangingTo(name) => text_of_json(bytes) is None && entries_of_json(
                bytes,
            ) == Some(seq![("StateChangingTo"@, name)]),
            MessageView::FailedToChangeState => text_of_json(bytes) == Some(
                "FailedToChangeState"@,
            ),
        },
    ensures
        message_from_json(text_of_json(bytes), entries_of_json(bytes)) == Ok::<
            MessageView,
            CodecError,
        >(message),
{
}

} // verus!
