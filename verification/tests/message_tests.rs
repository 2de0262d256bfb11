use phase_sync::frame::{decode_frame, encode_frame};
use phase_sync::message::{CodecError, Message};
use phase_sync::phase::Phase;

#[test]
fn state_changing_to_compressing_round_trips() {
    let message = Message::StateChangingTo(String::from("Compressing"));
    let bytes = message.encode().unwrap();
    assert_eq!(Message::decode(&bytes), Ok(message));
}

#[test]
fn every_message_round_trips() {
    let mut messages = vec![
        Message::FailedToChangeState,
        Message::StateChangingTo(String::new()),
        Message::StateChangingTo(String::from("quote \" backslash \\ newline \n tab \t")),
        Message::StateChangingTo(String::from("gr\u{fc}\u{df}e \u{1F980}")),
        Message::StateChangingTo(String::from("FailedToChangeState")),
    ];
    for p in [Phase::Init, Phase::Downloading, Phase::Compressing, Phase::Pushing, Phase::Completed] {
        messages.push(Message::announcing(p));
    }
    for m in messages {
        let bytes = m.encode().unwrap();
        assert_eq!(Message::decode(&bytes), Ok(m.clone()));
    }
}

#[test]
fn the_wire_form_is_json() {
    assert_eq!(
        Message::StateChangingTo(String::from("Compressing")).encode().unwrap(),
        br#"{"StateChangingTo":"Compressing"}"#.to_vec()
    );
    assert_eq!(
        Message::FailedToChangeState.encode().unwrap(),
        br#""FailedToChangeState""#.to_vec()
    );
    assert_eq!(
        Message::StateChangingTo(String::from("a\"b")).encode().unwrap(),
        br#"{"StateChangingTo":"a\"b"}"#.to_vec()
    );
}

#[test]
fn json_is_read_with_its_usual_freedoms() {
    assert_eq!(
        Message::decode(b" { \"StateChangingTo\" :\n \"Pushing\" } "),
        Ok(Message::StateChangingTo(String::from("Pushing")))
    );
    assert_eq!(
        Message::decode(br#""FailedToChangeState""#),
        Ok(Message::FailedToChangeState)
    );
}

#[test]
fn bytes_that_are_no_json_are_malformed() {
    assert_eq!(Message::decode(b""), Err(CodecError::Malformed));
    assert_eq!(Message::decode(b"StateChangingTo"), Err(CodecError::Malformed));
    assert_eq!(Message::decode(b"{\"StateChangingTo\":"), Err(CodecError::Malformed));
    assert_eq!(Message::decode(&[0xff, 0xfe]), Err(CodecError::Malformed));
}

#[test]
fn json_of_another_shape_is_malformed() {
    assert_eq!(Message::decode(b"17"), Err(CodecError::Malformed));
    assert_eq!(Message::decode(b"null"), Err(CodecError::Malformed));
    assert_eq!(Message::decode(b"[\"StateChangingTo\"]"), Err(CodecError::Malformed));
    assert_eq!(Message::decode(b"{\"StateChangingTo\":5}"), Err(CodecError::Malformed));
    assert_eq!(
        Message::decode(b"\"FailedToChangeState\" \"FailedToChangeState\""),
        Err(CodecError::Malformed)
    );
}

#[test]
fn json_that_names_no_message_is_an_unknown_variant() {
    assert_eq!(Message::decode(b"\"Hello\""), Err(CodecError::UnknownVariant));
    assert_eq!(Message::decode(b"\"StateChangingTo\""), Err(CodecError::UnknownVariant));
    assert_eq!(Message::decode(b"{}"), Err(CodecError::UnknownVariant));
    assert_eq!(Message::decode(b"{\"Other\":\"x\"}"), Err(CodecError::UnknownVariant));
    assert_eq!(
        Message::decode(b"{\"StateChangingTo\":\"a\",\"Other\":\"b\"}"),
        Err(CodecError::UnknownVariant)
    );
}

#[test]
fn from_parsed_decides_by_what_was_read() {
    assert_eq!(
        Message::from_parsed(Some(String::from("FailedToChangeState")), None),
        Ok(Message::FailedToChangeState)
    );
    assert_eq!(
        Message::from_parsed(Some(String::from("failedtochangestate")), None),
        Err(CodecError::UnknownVariant)
    );
    assert_eq!(
        Message::from_parsed(
            None,
            Some(vec![(String::from("StateChangingTo"), String::from("Init"))])
        ),
        Ok(Message::StateChangingTo(String::from("Init")))
    );
    assert_eq!(Message::from_parsed(None, Some(vec![])), Err(CodecError::UnknownVariant));
    assert_eq!(
        Message::from_parsed(
            None,
            Some(vec![
                (String::from("StateChangingTo"), String::from("Init")),
                (String::from("StateChangingTo"), String::from("Init")),
            ])
        ),
        Err(CodecError::UnknownVariant)
    );
    assert_eq!(Message::from_parsed(None, None), Err(CodecError::Malformed));
    // what was read as a string decides before what was read as a map
    assert_eq!(
        Message::from_parsed(
            Some(String::from("FailedToChangeState")),
            Some(vec![(String::from("StateChangingTo"), String::from("Init"))])
        ),
        Ok(Message::FailedToChangeState)
    );
}

#[test]
fn announcing_names_the_phase() {
    assert_eq!(
        Message::announcing(Phase::Compressing),
        Message::StateChangingTo(String::from("Compressing"))
    );
    assert_eq!(Message::announcing(Phase::Pushing).announced_phase(), Some(Phase::Pushing));
    assert_eq!(Message::FailedToChangeState.announced_phase(), None);
    assert_eq!(Message::StateChangingTo(String::from("PushRemote")).announced_phase(), None);
}

#[test]
fn a_message_travels_in_a_frame() {
    let message = Message::announcing(Phase::Downloading);
    let frame = encode_frame(&message.encode().unwrap()).unwrap();
    assert_eq!(&frame[..4], &[0, 0, 0, 33]);
    assert_eq!(frame.len(), 37);
    let (payload, used) = decode_frame(&frame).unwrap();
    assert_eq!(used, frame.len());
    assert_eq!(Message::decode(&payload), Ok(message));
}
