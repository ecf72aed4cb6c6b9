use queuebot::store::{AddRemovePlayerOp, AddRemovePlayerResult};
use queuebot::types::{ChatId, Queue, QueueId, QueueKind, State};

fn players(q: &Queue) -> Vec<String> {
    q.players.clone()
}

fn add(
    state: State,
    chat: i64,
    qid: QueueId,
    capacity: usize,
    user: &str,
) -> (State, AddRemovePlayerResult, AddRemovePlayerOp) {
    state.add_remove_player(
        &ChatId::new(chat),
        &qid,
        String::from("/add"),
        600,
        capacity,
        String::from(user),
    )
}

fn queue_of(state: &State, chat: i64, qid: QueueId) -> Option<Queue> {
    for (cid, c) in &state.chats {
        if cid.id == chat {
            for (q, queue) in &c.queues {
                if *q == qid {
                    return Some(queue.clone());
                }
            }
        }
    }
    None
}

#[test]
fn toggle_add_remove_add() {
    let s = State::empty();
    let (s, _, op1) = add(s, 1, QueueId::Instant, 4, "alice");
    assert!(matches!(op1, AddRemovePlayerOp::PlayerAdded(u) if u == "alice"));
    let q = queue_of(&s, 1, QueueId::Instant).unwrap();
    assert_eq!(players(&q), vec![String::from("alice")]);

    let (s, _, op2) = add(s, 1, QueueId::Instant, 4, "alice");
    assert!(matches!(op2, AddRemovePlayerOp::PlayerRemoved(u) if u == "alice"));
    let q = queue_of(&s, 1, QueueId::Instant).unwrap();
    assert!(players(&q).is_empty());

    let (s, _, op3) = add(s, 1, QueueId::Instant, 4, "alice");
    assert!(matches!(op3, AddRemovePlayerOp::PlayerAdded(u) if u == "alice"));
    let q = queue_of(&s, 1, QueueId::Instant).unwrap();
    assert_eq!(players(&q), vec![String::from("alice")]);
}

#[test]
fn toggle_keeps_other_players_and_order() {
    let s = State::empty();
    let (s, _, _) = add(s, 1, QueueId::Instant, 4, "a");
    let (s, _, _) = add(s, 1, QueueId::Instant, 4, "b");
    let (s, _, _) = add(s, 1, QueueId::Instant, 4, "c");
    // b leaves and comes back: a and c keep their places.
    let (s, _, _) = add(s, 1, QueueId::Instant, 4, "b");
    let q = queue_of(&s, 1, QueueId::Instant).unwrap();
    assert_eq!(players(&q), vec![String::from("a"), String::from("c")]);
    let (s, _, _) = add(s, 1, QueueId::Instant, 4, "b");
    let q = queue_of(&s, 1, QueueId::Instant).unwrap();
    assert_eq!(
        players(&q),
        vec![String::from("a"), String::from("c"), String::from("b")]
    );
}

#[test]
fn classification_full_empty_queued() {
    let s = State::empty();
    let (s, r1, _) = add(s, 9, QueueId::Instant, 2, "a");
    assert!(matches!(r1, AddRemovePlayerResult::PlayerQueued(_)));
    let (s, r2, _) = add(s, 9, QueueId::Instant, 2, "b");
    match &r2 {
        AddRemovePlayerResult::QueueFull(q) => {
            assert!(q.is_full());
            assert_eq!(players(q), vec![String::from("a"), String::from("b")]);
        }
        _ => panic!("expected a full queue"),
    }
    let (s, r3, _) = add(s, 9, QueueId::Instant, 2, "b");
    assert!(matches!(r3, AddRemovePlayerResult::PlayerQueued(_)));
    let (_, r4, _) = add(s, 9, QueueId::Instant, 2, "a");
    assert!(matches!(r4, AddRemovePlayerResult::QueueEmpty(_)));
}

#[test]
fn full_queue_rejects_add_without_state_change() {
    // Four players fill the queue; the result of the fourth add reports it.
    let s = State::empty();
    let (s, _, _) = add(s, 7, QueueId::Instant, 4, "a");
    let (s, _, _) = add(s, 7, QueueId::Instant, 4, "b");
    let (s, _, _) = add(s, 7, QueueId::Instant, 4, "c");
    let (s, r4, _) = add(s, 7, QueueId::Instant, 4, "d");
    match &r4 {
        AddRemovePlayerResult::QueueFull(q) => {
            assert_eq!(
                players(q),
                vec![
                    String::from("a"),
                    String::from("b"),
                    String::from("c"),
                    String::from("d")
                ]
            );
        }
        _ => panic!("expected a full queue"),
    }
    // The full queue persists until its timeout: a fifth player's add is
    // rejected, the queue keeps its four members, and the result still
    // classifies the queue as full.
    let (s, r5, _) = add(s, 7, QueueId::Instant, 4, "e");
    assert!(matches!(r5, AddRemovePlayerResult::QueueFull(_)));
    let q = queue_of(&s, 7, QueueId::Instant).unwrap();
    assert_eq!(
        players(&q),
        vec![
            String::from("a"),
            String::from("b"),
            String::from("c"),
            String::from("d")
        ]
    );
    assert!(s.is_well_formed());
}

#[test]
fn first_writer_wins_for_timeout_and_add_cmd() {
    let s = State::empty();
    let (s, _, _) = s.add_remove_player(
        &ChatId::new(3),
        &QueueId::Instant,
        String::from("/add"),
        100,
        4,
        String::from("a"),
    );
    // A later call with a different timeout and token does not overwrite.
    let (s, _, _) = s.add_remove_player(
        &ChatId::new(3),
        &QueueId::Instant,
        String::from("/other"),
        200,
        4,
        String::from("b"),
    );
    let q = queue_of(&s, 3, QueueId::Instant).unwrap();
    assert_eq!(q.timeout, 100);
    assert_eq!(q.add_cmd, "/add");
    assert_eq!(q.kind, QueueKind::Instant);
}

#[test]
fn rm_chat_queue_is_idempotent() {
    let s = State::empty();
    let (s, _, _) = add(s, 5, QueueId::Timed { minute_of_day: 870 }, 4, "a");
    let (s, removed) = s.rm_chat_queue(&ChatId::new(5), &QueueId::Timed { minute_of_day: 870 });
    let removed = removed.expect("first removal returns the queue");
    assert_eq!(players(&removed), vec![String::from("a")]);
    let before = s.clone();
    let (s, removed_again) =
        s.rm_chat_queue(&ChatId::new(5), &QueueId::Timed { minute_of_day: 870 });
    assert!(removed_again.is_none());
    assert_eq!(s, before);
}

#[test]
fn remove_all_touches_only_queues_with_the_player() {
    let s = State::empty();
    let (s, _, _) = add(s, 2, QueueId::Instant, 4, "x");
    let (s, _, _) = add(s, 2, QueueId::Timed { minute_of_day: 600 }, 4, "x");
    let (s, _, _) = add(s, 2, QueueId::Timed { minute_of_day: 600 }, 4, "y");
    let (s, _, _) = add(s, 2, QueueId::Timed { minute_of_day: 700 }, 4, "z");
    let (s, affected) = s.rm_player(&ChatId::new(2), &String::from("x"));
    assert_eq!(affected.len(), 2);
    assert_eq!(affected[0].0, QueueId::Instant);
    assert!(affected[0].1.players.is_empty());
    assert_eq!(affected[1].0, QueueId::Timed { minute_of_day: 600 });
    assert_eq!(affected[1].1.players, vec![String::from("y")]);
    // The third queue is untouched.
    let q = queue_of(&s, 2, QueueId::Timed { minute_of_day: 700 }).unwrap();
    assert_eq!(players(&q), vec![String::from("z")]);
    assert!(s.is_well_formed());
}

#[test]
fn capacity_invariant_holds_at_every_snapshot() {
    let mut s = State::empty();
    let names = ["a", "b", "c", "d", "e", "f"];
    for n in names {
        let (next, _, _) = add(s, 11, QueueId::Instant, 3, n);
        s = next;
        assert!(s.is_well_formed());
        if let Some(q) = queue_of(&s, 11, QueueId::Instant) {
            assert!(q.players.len() <= q.capacity);
        }
    }
}
