use queuebot::scheduler::tick;
use queuebot::types::{ChatId, QueueId, State};

fn add(state: State, chat: i64, qid: QueueId, timeout: u16, user: &str) -> State {
    let (s, _, _) = state.add_remove_player(
        &ChatId::new(chat),
        &qid,
        String::from("/add"),
        timeout,
        4,
        String::from(user),
    );
    s
}

#[test]
fn timeout_fires_exactly_once() {
    // A queue scheduled for 14:30 (minute 870 of the day).
    let s = State::empty();
    let s = add(s, 1, QueueId::Timed { minute_of_day: 870 }, 870, "alice");

    // The minute before: nothing fires.
    let (s, events) = tick(s, 869);
    assert!(events.is_empty());

    // The matching minute: exactly one removal and one event.
    let (s, events) = tick(s, 870);
    assert_eq!(events.len(), 1);
    assert_eq!(events[0].chat_id, ChatId::new(1));
    assert_eq!(events[0].queue_id, QueueId::Timed { minute_of_day: 870 });
    assert_eq!(events[0].queue.players, vec![String::from("alice")]);
    assert!(!events[0].queue.is_full());

    // The same minute again, with the queue already removed: zero events.
    let (s, events) = tick(s, 870);
    assert!(events.is_empty());
    assert!(s.is_well_formed());
}

#[test]
fn full_queue_event_reports_fullness() {
    let s = State::empty();
    let s = add(s, 2, QueueId::Instant, 100, "a");
    let s = add(s, 2, QueueId::Instant, 100, "b");
    let s = add(s, 2, QueueId::Instant, 100, "c");
    let s = add(s, 2, QueueId::Instant, 100, "d");
    let (_, events) = tick(s, 100);
    assert_eq!(events.len(), 1);
    assert!(events[0].queue.is_full());
    assert_eq!(events[0].queue.players.len(), 4);
}

#[test]
fn tick_only_removes_matching_minute() {
    let s = State::empty();
    let s = add(s, 3, QueueId::Timed { minute_of_day: 10 }, 10, "a");
    let s = add(s, 3, QueueId::Timed { minute_of_day: 20 }, 20, "b");
    let (s, events) = tick(s, 10);
    assert_eq!(events.len(), 1);
    assert_eq!(events[0].queue_id, QueueId::Timed { minute_of_day: 10 });
    // The other queue stays.
    assert_eq!(s.chats[0].1.queues.len(), 1);
    assert_eq!(s.chats[0].1.queues[0].0, QueueId::Timed { minute_of_day: 20 });
}

#[test]
fn capacity_never_removes_a_queue() {
    let s = State::empty();
    let s = add(s, 4, QueueId::Instant, 500, "a");
    let s = add(s, 4, QueueId::Instant, 500, "b");
    let s = add(s, 4, QueueId::Instant, 500, "c");
    let s = add(s, 4, QueueId::Instant, 500, "d");
    // Full, but its minute has not come: the scheduler leaves it alone.
    let (s, events) = tick(s, 499);
    assert!(events.is_empty());
    assert_eq!(s.chats[0].1.queues.len(), 1);
}
