use queuebot::codec::{decode_state, encode_state};
use queuebot::types::{Chat, ChatId, Queue, QueueId, QueueKind, State};

fn queue(players: &[&str], capacity: usize, timeout: u16, add_cmd: &str, kind: QueueKind) -> Queue {
    Queue {
        players: players.iter().map(|p| String::from(*p)).collect(),
        capacity,
        timeout,
        add_cmd: String::from(add_cmd),
        kind,
    }
}

#[test]
fn round_trip_two_chats_with_instant_and_timed_queues() {
    let chat_a = Chat {
        queues: vec![
            (
                QueueId::Instant,
                queue(&["alice", "bob"], 4, 630, "/add", QueueKind::Instant),
            ),
            (
                QueueId::Timed { minute_of_day: 870 },
                queue(&["carol"], 4, 870, "/1430", QueueKind::Timed),
            ),
        ],
    };
    let chat_b = Chat {
        queues: vec![
            (
                QueueId::Instant,
                queue(&["dave", "erin", "frank"], 5, 95, "/add", QueueKind::Instant),
            ),
            (
                QueueId::Timed { minute_of_day: 1200 },
                queue(&["grace", "heidi"], 5, 1200, "/2000", QueueKind::Timed),
            ),
        ],
    };
    let state = State {
        chats: vec![(ChatId::new(-1001), chat_a), (ChatId::new(42), chat_b)],
    };
    let bytes = encode_state(&state);
    let decoded = decode_state(&bytes).expect("a record written by encode parses");
    assert_eq!(decoded, state);
    assert!(decoded.is_well_formed());
}

#[test]
fn round_trip_empty_state() {
    let state = State::empty();
    let bytes = encode_state(&state);
    let decoded = decode_state(&bytes).expect("the empty record parses");
    assert_eq!(decoded, state);
}

#[test]
fn round_trip_keeps_player_order() {
    let chat = Chat {
        queues: vec![(
            QueueId::Instant,
            queue(&["z", "m", "a"], 9, 10, "/add", QueueKind::Instant),
        )],
    };
    let state = State { chats: vec![(ChatId::new(7), chat)] };
    let decoded = decode_state(&encode_state(&state)).unwrap();
    assert_eq!(
        decoded.chats[0].1.queues[0].1.players,
        vec![String::from("z"), String::from("m"), String::from("a")]
    );
}

#[test]
fn garbage_does_not_parse() {
    assert!(decode_state(&vec![]).is_none());
    assert!(decode_state(&vec![1, 2, 3]).is_none());
    // A record with a trailing byte is rejected outright.
    let mut bytes = encode_state(&State::empty());
    bytes.push(0);
    assert!(decode_state(&bytes).is_none());
}

#[test]
fn truncated_record_does_not_parse() {
    let chat = Chat {
        queues: vec![(
            QueueId::Instant,
            queue(&["alice"], 4, 630, "/add", QueueKind::Instant),
        )],
    };
    let state = State { chats: vec![(ChatId::new(1), chat)] };
    let bytes = encode_state(&state);
    for cut in 0..bytes.len() {
        let prefix: Vec<u8> = bytes[..cut].to_vec();
        assert!(decode_state(&prefix).is_none());
    }
}

#[test]
fn non_ascii_names_survive() {
    let chat = Chat {
        queues: vec![(
            QueueId::Instant,
            queue(&["π-player", "Ωmega", "日本語"], 4, 60, "/add", QueueKind::Instant),
        )],
    };
    let state = State { chats: vec![(ChatId::new(5), chat)] };
    let decoded = decode_state(&encode_state(&state)).unwrap();
    assert_eq!(decoded, state);
}
