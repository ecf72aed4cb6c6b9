use queuebot::handler::{format_add_cmd, Command, Notification};
use queuebot::store::AddRemovePlayerOp;
use queuebot::types::{ChatId, QueueId, State};

fn sender(name: &str) -> Option<String> {
    Some(String::from(name))
}

#[test]
fn add_cmd_tokens() {
    assert_eq!(format_add_cmd(None), "/add");
    assert_eq!(format_add_cmd(Some(870)), "/1430");
    assert_eq!(format_add_cmd(Some(0)), "/0000");
    assert_eq!(format_add_cmd(Some(1439)), "/2359");
    assert_eq!(format_add_cmd(Some(65)), "/0105");
}

#[test]
fn command_without_sender_is_a_no_op() {
    let s = State::empty();
    let (s, notes) = s.handle_command(
        &ChatId::new(1),
        Command::AddRemove { time: None, for_user: None },
        None,
        600,
        4,
    );
    assert!(notes.is_empty());
    assert!(s.chats.is_empty());
}

#[test]
fn help_sends_help() {
    let s = State::empty();
    let (_, notes) = s.handle_command(&ChatId::new(1), Command::Help, sender("ann"), 600, 4);
    assert_eq!(notes.len(), 1);
    assert!(matches!(notes[0], Notification::Help));
}

#[test]
fn instant_add_creates_queue_with_rolling_timeout() {
    let s = State::empty();
    let (s, notes) = s.handle_command(
        &ChatId::new(1),
        Command::AddRemove { time: None, for_user: None },
        sender("ann"),
        600,
        4,
    );
    assert_eq!(notes.len(), 1);
    match &notes[0] {
        Notification::QueueStatus { queue_id, queue, op } => {
            assert_eq!(*queue_id, QueueId::Instant);
            assert_eq!(queue.players, vec![String::from("ann")]);
            assert_eq!(queue.timeout, 630);
            assert_eq!(queue.add_cmd, "/add");
            assert!(matches!(op, AddRemovePlayerOp::PlayerAdded(u) if u == "ann"));
        }
        _ => panic!("expected a status notification"),
    }
    assert_eq!(s.chats.len(), 1);
}

#[test]
fn rolling_timeout_wraps_past_midnight() {
    let s = State::empty();
    let (_, notes) = s.handle_command(
        &ChatId::new(1),
        Command::AddRemove { time: None, for_user: None },
        sender("ann"),
        1430,
        4,
    );
    match &notes[0] {
        Notification::QueueStatus { queue, .. } => assert_eq!(queue.timeout, 20),
        _ => panic!("expected a status notification"),
    }
}

#[test]
fn fourth_add_reports_match_ready_on_instant_queue() {
    let mut s = State::empty();
    for name in ["a", "b", "c"] {
        let (next, _) = s.handle_command(
            &ChatId::new(1),
            Command::AddRemove { time: None, for_user: None },
            sender(name),
            600,
            4,
        );
        s = next;
    }
    let (_, notes) = s.handle_command(
        &ChatId::new(1),
        Command::AddRemove { time: None, for_user: None },
        sender("d"),
        600,
        4,
    );
    match &notes[0] {
        Notification::MatchReady { queue_id, queue } => {
            assert_eq!(*queue_id, QueueId::Instant);
            assert_eq!(
                queue.players,
                vec![
                    String::from("a"),
                    String::from("b"),
                    String::from("c"),
                    String::from("d")
                ]
            );
        }
        _ => panic!("expected a match-ready notification"),
    }
}

#[test]
fn timed_add_uses_the_named_minute() {
    let s = State::empty();
    let (s, notes) = s.handle_command(
        &ChatId::new(1),
        Command::AddRemove { time: Some(870), for_user: sender("guest") },
        sender("ann"),
        600,
        4,
    );
    match &notes[0] {
        Notification::QueueStatus { queue_id, queue, op } => {
            assert_eq!(*queue_id, QueueId::Timed { minute_of_day: 870 });
            assert_eq!(queue.timeout, 870);
            assert_eq!(queue.add_cmd, "/1430");
            // for_user overrides the sender.
            assert!(matches!(op, AddRemovePlayerOp::PlayerAdded(u) if u == "guest"));
        }
        _ => panic!("expected a status notification"),
    }
    assert!(s.is_well_formed());
}

#[test]
fn remove_all_reports_each_affected_queue() {
    let mut s = State::empty();
    for (time, who) in [(None, "x"), (Some(600u16), "x"), (Some(700u16), "y")] {
        let (next, _) = s.handle_command(
            &ChatId::new(1),
            Command::AddRemove { time, for_user: None },
            sender(who),
            100,
            4,
        );
        s = next;
    }
    let (s, notes) = s.handle_command(&ChatId::new(1), Command::RemoveAll, sender("x"), 100, 4);
    assert_eq!(notes.len(), 2);
    for n in &notes {
        match n {
            Notification::QueueStatus { op, .. } => {
                assert!(matches!(op, AddRemovePlayerOp::PlayerRemoved(u) if u == "x"));
            }
            _ => panic!("expected status notifications"),
        }
    }
    assert!(s.is_well_formed());
}

#[test]
fn list_splits_today_and_tomorrow() {
    let mut s = State::empty();
    for (time, who) in [(Some(700u16), "a"), (Some(300u16), "b")] {
        let (next, _) = s.handle_command(
            &ChatId::new(1),
            Command::AddRemove { time, for_user: None },
            sender(who),
            100,
            4,
        );
        s = next;
    }
    // At minute 500, the 700 queue is still ahead today; 300 rolls over.
    let (_, notes) = s.handle_command(&ChatId::new(1), Command::List, sender("a"), 500, 4);
    assert_eq!(notes.len(), 1);
    match &notes[0] {
        Notification::QueueList { today, tomorrow } => {
            assert_eq!(today.len(), 1);
            assert_eq!(today[0].0, QueueId::Timed { minute_of_day: 700 });
            assert_eq!(tomorrow.len(), 1);
            assert_eq!(tomorrow[0].0, QueueId::Timed { minute_of_day: 300 });
        }
        _ => panic!("expected a queue list"),
    }
}

#[test]
fn list_of_empty_chat_reports_no_queues() {
    let s = State::empty();
    let (_, notes) = s.handle_command(&ChatId::new(1), Command::List, sender("a"), 500, 4);
    assert_eq!(notes.len(), 1);
    assert!(matches!(notes[0], Notification::NoQueues));
}

#[test]
fn clock_reads_a_minute_of_the_day() {
    let m = queuebot::clock::now_minute_of_day();
    assert!(m < 1440);
}
