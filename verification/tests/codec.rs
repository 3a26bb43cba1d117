use tiktaktoe::callback_data::CallbackData;
use tiktaktoe::game::GameError;

fn tok(s: &str) -> Vec<u8> {
    s.as_bytes().to_vec()
}

#[test]
fn encode_join() {
    assert_eq!(CallbackData::Join.encode(), tok("join"));
}

#[test]
fn encode_restart() {
    assert_eq!(CallbackData::Restart.encode(), tok("restart"));
}

#[test]
fn encode_unknown() {
    assert_eq!(CallbackData::Unknown.encode(), tok("unknown"));
}

#[test]
fn encode_place() {
    assert_eq!(CallbackData::Place { x: 2, y: 1 }.encode(), tok("place:2:1"));
    assert_eq!(CallbackData::Place { x: 0, y: 0 }.encode(), tok("place:0:0"));
    assert_eq!(CallbackData::Place { x: 123, y: 40 }.encode(), tok("place:123:40"));
}

#[test]
fn decode_known_tokens() {
    assert_eq!(CallbackData::decode(&tok("join")), Ok(CallbackData::Join));
    assert_eq!(CallbackData::decode(&tok("restart")), Ok(CallbackData::Restart));
    assert_eq!(CallbackData::decode(&tok("place:2:1")), Ok(CallbackData::Place { x: 2, y: 1 }));
    assert_eq!(CallbackData::decode(&tok("unknown")), Ok(CallbackData::Unknown));
}

#[test]
fn decode_unrecognized_is_unknown() {
    assert_eq!(CallbackData::decode(&tok("foo")), Ok(CallbackData::Unknown));
    assert_eq!(CallbackData::decode(&tok("")), Ok(CallbackData::Unknown));
    assert_eq!(CallbackData::decode(&tok("JOIN")), Ok(CallbackData::Unknown));
    assert_eq!(CallbackData::decode(&tok("plac")), Ok(CallbackData::Unknown));
}

#[test]
fn decode_malformed_place_fails() {
    assert_eq!(CallbackData::decode(&tok("place")), Err(GameError::UnknownCommand));
    assert_eq!(CallbackData::decode(&tok("place:")), Err(GameError::UnknownCommand));
    assert_eq!(CallbackData::decode(&tok("place:1")), Err(GameError::UnknownCommand));
    assert_eq!(CallbackData::decode(&tok("place:1:")), Err(GameError::UnknownCommand));
    assert_eq!(CallbackData::decode(&tok("place:a:1")), Err(GameError::UnknownCommand));
    assert_eq!(CallbackData::decode(&tok("place:1:b")), Err(GameError::UnknownCommand));
    assert_eq!(CallbackData::decode(&tok("place::2")), Err(GameError::UnknownCommand));
}

#[test]
fn decode_place_ignores_extra_fields() {
    assert_eq!(
        CallbackData::decode(&tok("place:1:2:9")),
        Ok(CallbackData::Place { x: 1, y: 2 })
    );
}

#[test]
fn decode_place_leading_zeros() {
    assert_eq!(
        CallbackData::decode(&tok("place:007:0002")),
        Ok(CallbackData::Place { x: 7, y: 2 })
    );
}

#[test]
fn decode_place_overflow_fails() {
    // One past the largest machine word.
    assert_eq!(
        CallbackData::decode(&tok("place:18446744073709551616:0")),
        Err(GameError::UnknownCommand)
    );
    assert_eq!(
        CallbackData::decode(&tok("place:0:99999999999999999999999999")),
        Err(GameError::UnknownCommand)
    );
}

#[test]
fn decode_place_boundary_value() {
    assert_eq!(
        CallbackData::decode(&tok("place:18446744073709551615:0")),
        Ok(CallbackData::Place { x: usize::MAX, y: 0 })
    );
}

#[test]
fn round_trip_every_command() {
    let commands = vec![
        CallbackData::Join,
        CallbackData::Restart,
        CallbackData::Unknown,
        CallbackData::Place { x: 0, y: 0 },
        CallbackData::Place { x: 2, y: 1 },
        CallbackData::Place { x: 10, y: 99 },
        CallbackData::Place { x: usize::MAX, y: usize::MAX },
    ];
    for c in commands {
        assert_eq!(CallbackData::decode(&c.encode()), Ok(c));
    }
}
