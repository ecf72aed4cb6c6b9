//! The command dispatcher: the decision core behind every inbound command.
//! It consumes a snapshot and a parsed command and returns the successor
//! snapshot together with the notifications to send; transport, text
//! rendering and delivery stay with the caller.

use vstd::prelude::*;

verus! {

use crate::MINUTES_PER_DAY;
use crate::store::{
    AddRemovePlayerOp, AddRemovePlayerOpV, AddRemovePlayerResult, clone_queue, clone_string,
    spec_add_remove_player, spec_rm_player,
};
use crate::types::{ChatId, Queue, QueueId, QueueV, State, queue_pairs_view, state_wf};
use crate::assoc::{assoc_has, lemma_assoc_idx_is};

/// How long an instant queue lives from its creation, in minutes.
pub const INSTANT_QUEUE_TIMEOUT_MINUTES: u16 = 30;

/// The closed set of parsed commands the core reacts to. A scheduled time
/// and a player name arrive as plain values; parsing raw text is the
/// transport's job.
pub enum Command {
    Help,
    AddRemove { time: Option<u16>, for_user: Option<String> },
    RemoveAll,
    List,
}

/// What the caller should tell the chat; rendering the text is its job.
pub enum Notification {
    Help,
    MatchReady { queue_id: QueueId, queue: Queue },
    QueueStatus { queue_id: QueueId, queue: Queue, op: AddRemovePlayerOp },
    QueueList { today: Vec<(QueueId, Queue)>, tomorrow: Vec<(QueueId, Queue)> },
    NoQueues,
}

/// The queue id an add-or-remove command addresses.
pub open spec fn queue_id_of(time: Option<u16>) -> QueueId {
    match time {
        Some(m) => QueueId::Timed { minute_of_day: m },
        None => QueueId::Instant,
    }
}

/// The timeout the queue is seeded with: the scheduled minute itself, or a
/// rolling offset from now, wrapping past midnight.
pub open spec fn timeout_of(time: Option<u16>, now: u16) -> u16 {
    match time {
        Some(m) => m,
        None => ((now + INSTANT_QUEUE_TIMEOUT_MINUTES) % (MINUTES_PER_DAY as int)) as u16,
    }
}

pub open spec fn digit_char(d: int) -> char {
    if d == 0 {
        '0'
    } else if d == 1 {
        '1'
    } else if d == 2 {
        '2'
    } else if d == 3 {
        '3'
    } else if d == 4 {
        '4'
    } else if d == 5 {
        '5'
    } else if d == 6 {
        '6'
    } else if d == 7 {
        '7'
    } else if d == 8 {
        '8'
    } else {
        '9'
    }
}

/// The command token that re-triggers the queue: the literal instant add
/// command, or the four-digit time the command named.
pub open spec fn add_cmd_of(time: Option<u16>) -> Seq<char> {
    match time {
        None => seq!['/', 'a', 'd', 'd'],
        Some(m) => seq![
            '/',
            digit_char(m as int / 60 / 10),
            digit_char(m as int / 60 % 10),
            digit_char(m as int % 60 / 10),
            digit_char(m as int % 60 % 10),
        ],
    }
}

fn digit_char_exec(d: u16) -> (c: char)
    requires
        d < 10,
    ensures
        c == digit_char(d as int),
{
    match d {
        0 => '0',
        1 => '1',
        2 => '2',
        3 => '3',
        4 => '4',
        5 => '5',
        6 => '6',
        7 => '7',
        8 => '8',
        _ => '9',
    }
}

/// Relies on String::push: it appends the character to the end.
#[verifier::external_body]
fn push_char(s: &mut String, c: char)
    ensures
        final(s)@ == old(s)@.push(c),
{
    s.push(c);
}

/// Build the command token for an add-or-remove command.
pub fn format_add_cmd(time: Option<u16>) -> (r: String)
    requires
        time matches Some(m) ==> m < MINUTES_PER_DAY,
    ensures
        r@ == add_cmd_of(time),
{
    let mut s = String::new();
    push_char(&mut s, '/');
    match time {
        None => {
            push_char(&mut s, 'a');
            push_char(&mut s, 'd');
            push_char(&mut s, 'd');
            proof {
                assert(s@ =~= add_cmd_of(time));
            }
        },
        Some(m) => {
            let h = m / 60;
            let mi = m % 60;
            push_char(&mut s, digit_char_exec(h / 10));
            push_char(&mut s, digit_char_exec(h % 10));
            push_char(&mut s, digit_char_exec(mi / 10));
            push_char(&mut s, digit_char_exec(mi % 10));
            proof {
                assert(s@ =~= add_cmd_of(time));
            }
        },
    }
    s
}

/// A status notification reporting `op` on the queue `entry`.
pub open spec fn is_queue_status(n: Notification, entry: (QueueId, QueueV), op: AddRemovePlayerOpV) -> bool {
    match n {
        Notification::QueueStatus { queue_id, queue, op: o } => queue_id == entry.0 && queue@
            == entry.1 && o@ == op,
        _ => false,
    }
}

/// A match-ready notification for the instant queue `qv`.
pub open spec fn is_match_ready(n: Notification, qv: QueueV) -> bool {
    match n {
        Notification::MatchReady { queue_id, queue } => queue_id == QueueId::Instant && queue@
            == qv,
        _ => false,
    }
}

/// The queue snapshot a toggle result carries.
pub open spec fn result_queue(r: crate::store::AddRemovePlayerResultV) -> QueueV {
    match r {
        crate::store::AddRemovePlayerResultV::QueueFull(q) => q,
        crate::store::AddRemovePlayerResultV::QueueEmpty(q) => q,
        crate::store::AddRemovePlayerResultV::PlayerQueued(q) => q,
    }
}

/// Holds of the chat entries still ahead of the clock today.
pub open spec fn still_today(now: u16) -> spec_fn((QueueId, QueueV)) -> bool {
    |p: (QueueId, QueueV)| p.1.timeout > now
}

/// Holds of the chat entries whose next firing is tomorrow.
pub open spec fn rolls_over(now: u16) -> spec_fn((QueueId, QueueV)) -> bool {
    |p: (QueueId, QueueV)| !(p.1.timeout > now)
}

impl State {
    /// React to one parsed command from `sender` in chat `chat_id` at
    /// minute `now`: the successor snapshot plus the notifications owed.
    /// A command without a resolvable sender is a no-op.
    pub fn handle_command(
        self,
        chat_id: &ChatId,
        cmd: Command,
        sender: Option<String>,
        now: u16,
        capacity: usize,
    ) -> (r: (State, Vec<Notification>))
        requires
            state_wf(self@),
            now < MINUTES_PER_DAY,
            1 <= capacity,
            cmd matches Command::AddRemove { time: Some(m), .. } ==> m < MINUTES_PER_DAY,
        ensures
            state_wf(r.0@),
            sender is None ==> r.0@ == self@ && r.1@.len() == 0,
            sender is Some && cmd is Help ==> r.0@ == self@ && r.1@ =~= seq![Notification::Help],
            (sender is Some && cmd is AddRemove) ==> ({
                let time = cmd->AddRemove_time;
                let for_user = cmd->AddRemove_for_user;
                let user = if for_user is Some {
                    for_user.unwrap()@
                } else {
                    sender.unwrap()@
                };
                let t = spec_add_remove_player(
                    self@,
                    *chat_id,
                    queue_id_of(time),
                    add_cmd_of(time),
                    timeout_of(time, now),
                    capacity as nat,
                    user,
                );
                &&& r.0@ == t.0
                &&& r.1@.len() == 1
                &&& (if t.1 is QueueFull && time is None {
                    is_match_ready(r.1@[0], result_queue(t.1))
                } else {
                    is_queue_status(r.1@[0], (queue_id_of(time), result_queue(t.1)), t.2)
                })
            }),
            (sender is Some && cmd is RemoveAll) ==> ({
                let t = spec_rm_player(self@, *chat_id, sender.unwrap()@);
                &&& r.0@ == t.0
                &&& r.1@.len() == t.1.len()
                &&& forall|j: int|
                    0 <= j < t.1.len() ==> is_queue_status(
                        #[trigger] r.1@[j],
                        t.1[j],
                        AddRemovePlayerOpV::PlayerRemoved(sender.unwrap()@),
                    )
            }),
            (sender is Some && cmd is List) ==> ({
                let c = crate::store::chat_or_empty(self@, *chat_id);
                &&& r.0@ == self@
                &&& (c.len() == 0 ==> r.1@ =~= seq![Notification::NoQueues])
                &&& (c.len() > 0 ==> r.1@.len() == 1 && (r.1@[0] matches Notification::QueueList {
                    today,
                    tomorrow,
                } && queue_pairs_view(today@) == c.filter(still_today(now)) && queue_pairs_view(
                    tomorrow@,
                ) == c.filter(rolls_over(now))))
            }),
    {
        let username: String = match sender {
            None => {
                return (self, Vec::new());
            },
            Some(u) => u,
        };
        match cmd {
            Command::Help => {
                let mut out: Vec<Notification> = Vec::new();
                out.push(Notification::Help);
                (self, out)
            },
            Command::AddRemove { time, for_user } => {
                let user = match for_user {
                    Some(u) => u,
                    None => username,
                };
                let queue_id = match time {
                    Some(m) => QueueId::Timed { minute_of_day: m },
                    None => QueueId::Instant,
                };
                let timeout = match time {
                    Some(m) => m,
                    None => (now + INSTANT_QUEUE_TIMEOUT_MINUTES) % MINUTES_PER_DAY,
                };
                let add_cmd = format_add_cmd(time);
                let (state, result, op) = self.add_remove_player(
                    chat_id,
                    &queue_id,
                    add_cmd,
                    timeout,
                    capacity,
                    user,
                );
                let mut out: Vec<Notification> = Vec::new();
                let is_instant = match time {
                    Some(_) => false,
                    None => true,
                };
                match result {
                    AddRemovePlayerResult::QueueFull(q) => {
                        if is_instant {
                            out.push(Notification::MatchReady { queue_id, queue: q });
                        } else {
                            out.push(Notification::QueueStatus { queue_id, queue: q, op });
                        }
                    },
                    AddRemovePlayerResult::QueueEmpty(q) => {
                        out.push(Notification::QueueStatus { queue_id, queue: q, op });
                    },
                    AddRemovePlayerResult::PlayerQueued(q) => {
                        out.push(Notification::QueueStatus { queue_id, queue: q, op });
                    },
                }
                (state, out)
            },
            Command::RemoveAll => {
                let ghost user = username@;
                let uname = clone_string(&username);
                let (state, mut affected) = self.rm_player(chat_id, &uname);
                let ghost aff = queue_pairs_view(affected@);
                let mut out: Vec<Notification> = Vec::new();
                proof {
                    assert(aff.subrange(0, 0) =~= Seq::<(QueueId, QueueV)>::empty());
                }
                let ghost total = aff.len();
                while affected.len() > 0
                    invariant
                        user == username@,
                        total == aff.len(),
                        affected@.len() <= total,
                        queue_pairs_view(affected@) =~= aff.subrange(
                            total - affected@.len(),
                            total as int,
                        ),
                        out@.len() == total - affected@.len(),
                        forall|j: int|
                            0 <= j < out@.len() ==> is_queue_status(
                                #[trigger] out@[j],
                                aff[j],
                                AddRemovePlayerOpV::PlayerRemoved(user),
                            ),
                    decreases affected@.len(),
                {
                    let ghost i = total - affected@.len();
                    let ghost aff_before = affected@;
                    let e = affected.remove(0);
                    proof {
                        assert(queue_pairs_view(aff_before)[0] == aff[i]) by {
                            assert(aff.subrange(i, total as int)[0] == aff[i]);
                        }
                        assert((e.0, e.1@) == aff[i]);
                        assert(queue_pairs_view(affected@) =~= aff.subrange(i + 1, total as int))
                            by {
                            assert(affected@ =~= aff_before.remove(0));
                            assert forall|j: int|
                                0 <= j < affected@.len() implies queue_pairs_view(affected@)[j]
                                == aff.subrange(i + 1, total as int)[j] by {
                                assert(queue_pairs_view(aff_before)[j + 1] == aff.subrange(
                                    i,
                                    total as int,
                                )[j + 1]);
                            }
                        }
                    }
                    out.push(
                        Notification::QueueStatus {
                            queue_id: e.0,
                            queue: e.1,
                            op: AddRemovePlayerOp::PlayerRemoved(clone_string(&username)),
                        },
                    );
                }
                (state, out)
            },
            Command::List => {
                let ghost s0 = self@;
                let cidx = match crate::store::find_chat_idx(&self.chats, chat_id) {
                    None => {
                        let mut out: Vec<Notification> = Vec::new();
                        out.push(Notification::NoQueues);
                        proof {
                            assert(!assoc_has(s0, *chat_id));
                        }
                        return (self, out);
                    },
                    Some(i) => i,
                };
                proof {
                    lemma_assoc_idx_is(s0, *chat_id, cidx as int);
                }
                let ghost c = s0[cidx as int].1;
                let qs = &self.chats[cidx].1.queues;
                proof {
                    assert(queue_pairs_view(qs@) == c);
                    assert(c.subrange(0, 0) =~= Seq::<(QueueId, QueueV)>::empty());
                }
                if qs.len() == 0 {
                    let mut out: Vec<Notification> = Vec::new();
                    out.push(Notification::NoQueues);
                    return (self, out);
                }
                let mut today: Vec<(QueueId, Queue)> = Vec::new();
                let mut tomorrow: Vec<(QueueId, Queue)> = Vec::new();
                let mut i: usize = 0;
                proof {
                    reveal(Seq::filter);
                }
                while i < qs.len()
                    invariant
                        queue_pairs_view(qs@) == c,
                        i <= qs@.len(),
                        c.len() == qs@.len(),
                        queue_pairs_view(today@) =~= c.subrange(0, i as int).filter(
                            still_today(now),
                        ),
                        queue_pairs_view(tomorrow@) =~= c.subrange(0, i as int).filter(
                            rolls_over(now),
                        ),
                    decreases qs@.len() - i,
                {
                    let entry = (qs[i].0, clone_queue(&qs[i].1));
                    proof {
                        assert((entry.0, entry.1@) == c[i as int]);
                        assert(c.subrange(0, i + 1) =~= c.subrange(0, i as int).push(c[i as int]));
                        assert(c.subrange(0, i + 1).drop_last() =~= c.subrange(0, i as int));
                        reveal(Seq::filter);
                    }
                    let ghost today_before = today@;
                    let ghost tomorrow_before = tomorrow@;
                    if entry.1.timeout > now {
                        today.push(entry);
                        proof {
                            assert(queue_pairs_view(today@) =~= queue_pairs_view(
                                today_before,
                            ).push(c[i as int]));
                        }
                    } else {
                        tomorrow.push(entry);
                        proof {
                            assert(queue_pairs_view(tomorrow@) =~= queue_pairs_view(
                                tomorrow_before,
                            ).push(c[i as int]));
                        }
                    }
                    proof {
                        assert(queue_pairs_view(today@) =~= c.subrange(0, i + 1).filter(
                            still_today(now),
                        ));
                        assert(queue_pairs_view(tomorrow@) =~= c.subrange(0, i + 1).filter(
                            rolls_over(now),
                        ));
                    }
                    i = i + 1;
                }
                proof {
                    assert(c.subrange(0, c.len() as int) =~= c);
                }
                let mut out: Vec<Notification> = Vec::new();
                out.push(Notification::QueueList { today, tomorrow });
                (self, out)
            },
        }
    }
}

} // verus!
