//! The timeout scan that the polling loop runs every second: one tick reads
//! a snapshot, removes every queue whose timeout matches the current minute
//! of the day, and reports one event per removed queue. Removal is what
//! makes a second tick within the same minute fire nothing.

use vstd::prelude::*;

verus! {

use crate::MINUTES_PER_DAY;
use crate::types::{
    Chat, ChatId, ChatV, Queue, QueueId, QueueV, State, StateV, chat_pairs_view, chat_wf,
    queue_id_wf, queue_pairs_view, queue_wf, state_wf,
};
use crate::assoc::lemma_filter_all;

/// One fired timeout: the queue as it was removed. Whether the players are
/// told "time to play" or "timed out" depends on its fullness at removal.
pub struct TimeoutEvent {
    pub chat_id: ChatId,
    pub queue_id: QueueId,
    pub queue: Queue,
}

/// Mathematical value of a [`TimeoutEvent`].
pub struct TimeoutEventV {
    pub chat_id: ChatId,
    pub queue_id: QueueId,
    pub queue: QueueV,
}

impl View for TimeoutEvent {
    type V = TimeoutEventV;

    open spec fn view(&self) -> TimeoutEventV {
        TimeoutEventV { chat_id: self.chat_id, queue_id: self.queue_id, queue: self.queue@ }
    }
}

pub open spec fn events_view(v: Seq<TimeoutEvent>) -> Seq<TimeoutEventV> {
    v.map_values(|e: TimeoutEvent| e@)
}

/// Holds of the chat entries whose queue expires at minute `now`.
pub open spec fn is_expired(now: u16) -> spec_fn((QueueId, QueueV)) -> bool {
    |p: (QueueId, QueueV)| p.1.timeout == now
}

/// Holds of the chat entries whose queue survives minute `now`.
pub open spec fn is_live(now: u16) -> spec_fn((QueueId, QueueV)) -> bool {
    |p: (QueueId, QueueV)| p.1.timeout != now
}

/// The queues a chat keeps after the tick at minute `now`.
pub open spec fn tick_chat_keep(c: ChatV, now: u16) -> ChatV {
    c.filter(is_live(now))
}

/// The queues of a chat that fire at minute `now`, in chat order.
pub open spec fn tick_chat_fired(c: ChatV, now: u16) -> Seq<(QueueId, QueueV)> {
    c.filter(is_expired(now))
}

pub open spec fn chat_events(cid: ChatId, c: ChatV, now: u16) -> Seq<TimeoutEventV> {
    tick_chat_fired(c, now).map_values(
        |p: (QueueId, QueueV)| TimeoutEventV { chat_id: cid, queue_id: p.0, queue: p.1 },
    )
}

/// The state after the tick: every chat keeps only its live queues.
pub open spec fn tick_state(s: StateV, now: u16) -> StateV {
    s.map_values(|p: (ChatId, ChatV)| (p.0, tick_chat_keep(p.1, now)))
}

/// All events of the tick, chat by chat in state order.
pub open spec fn tick_events(s: StateV, now: u16) -> Seq<TimeoutEventV>
    decreases s.len(),
{
    if s.len() == 0 {
        Seq::empty()
    } else {
        tick_events(s.drop_last(), now) + chat_events(s.last().0, s.last().1, now)
    }
}

/// One scan over the whole snapshot: every queue whose timeout equals
/// `now` leaves its chat, and exactly one event per removed queue comes
/// back, in state order.
pub fn tick(state: State, now: u16) -> (r: (State, Vec<TimeoutEvent>))
    requires
        state_wf(state@),
        now < MINUTES_PER_DAY,
    ensures
        r.0@ == tick_state(state@, now),
        events_view(r.1@) == tick_events(state@, now),
        state_wf(r.0@),
{
    let ghost s0 = state@;
    let ghost nn = s0.len();
    proof {
        lemma_tick_wf(s0, now);
    }
    let mut chats = state.chats;
    let mut new_chats: Vec<(ChatId, Chat)> = Vec::new();
    let mut events: Vec<TimeoutEvent> = Vec::new();
    proof {
        assert(s0.subrange(0, nn as int) =~= s0);
        assert(crate::types::State { chats }@ == s0);
        assert(chat_pairs_view(chats@) =~= s0);
        assert(tick_state(s0.subrange(0, 0), now) =~= Seq::<(ChatId, ChatV)>::empty());
        assert(events_view(events@) =~= tick_events(s0.subrange(0, 0), now)) by {
            assert(s0.subrange(0, 0) =~= Seq::<(ChatId, StateV)>::empty().map_values(
                |p: (ChatId, StateV)| (p.0, Seq::<(QueueId, QueueV)>::empty()),
            ).subrange(0, 0));
        }
    }
    while chats.len() > 0
        invariant
            state_wf(s0),
            now < MINUTES_PER_DAY,
            nn == s0.len(),
            chats@.len() <= nn,
            chat_pairs_view(chats@) =~= s0.subrange(
                nn - chats@.len(),
                nn as int,
            ),
            chat_pairs_view(new_chats@) =~= tick_state(
                s0.subrange(0, nn - chats@.len()),
                now,
            ),
            events_view(events@) =~= tick_events(s0.subrange(0, nn - chats@.len()), now),
        decreases chats@.len(),
    {
        let ghost i = nn - chats@.len();
        let ghost chats_before = chats@;
        let centry = chats.remove(0);
        let cid = centry.0;
        proof {
            assert(chat_pairs_view(chats_before)[0] == s0[i]) by {
                assert(s0.subrange(i, nn as int)[0] == s0[i]);
            }
            assert((centry.0, centry.1@) == s0[i]);
            assert(chat_pairs_view(chats@) =~= s0.subrange(
                i + 1,
                nn as int,
            )) by {
                assert(chats@ =~= chats_before.remove(0));
                assert forall|j: int| 0 <= j < chats@.len() implies chat_pairs_view(chats@)[j]
                    == s0.subrange(i + 1, nn as int)[j] by {
                    assert(chat_pairs_view(chats_before)[j + 1]
                        == s0.subrange(i, nn as int)[j + 1]);
                }
            }
        }
        let ghost c0 = s0[i].1;
        let mut qs = centry.1.queues;
        proof {
            assert(queue_pairs_view(qs@) == c0);
            assert(c0.subrange(0, c0.len() as int) =~= c0);
            assert(tick_chat_keep(c0.subrange(0, 0), now) =~= Seq::<(QueueId, QueueV)>::empty());
            assert(chat_events(cid, c0.subrange(0, 0), now) =~= Seq::<TimeoutEventV>::empty());
        }
        let ghost m = c0.len();
        let mut kept: Vec<(QueueId, Queue)> = Vec::new();
        let ghost events_at_chat_start = events_view(events@);
        while qs.len() > 0
            invariant
                m == c0.len(),
                qs@.len() <= m,
                now < MINUTES_PER_DAY,
                queue_pairs_view(qs@) =~= c0.subrange(m - qs@.len(), m as int),
                queue_pairs_view(kept@) =~= tick_chat_keep(c0.subrange(0, m - qs@.len()), now),
                events_view(events@) =~= events_at_chat_start + chat_events(
                    cid,
                    c0.subrange(0, m - qs@.len()),
                    now,
                ),
            decreases qs@.len(),
        {
            let ghost j = m - qs@.len();
            let ghost qs_before = qs@;
            let e = qs.remove(0);
            proof {
                assert(queue_pairs_view(qs_before)[0] == c0[j]) by {
                    assert(c0.subrange(j, m as int)[0] == c0[j]);
                }
                assert((e.0, e.1@) == c0[j]);
                assert(queue_pairs_view(qs@) =~= c0.subrange(j + 1, m as int)) by {
                    assert(qs@ =~= qs_before.remove(0));
                    assert forall|k: int| 0 <= k < qs@.len() implies queue_pairs_view(qs@)[k]
                        == c0.subrange(j + 1, m as int)[k] by {
                        assert(queue_pairs_view(qs_before)[k + 1] == c0.subrange(j, m as int)[k
                            + 1]);
                    }
                }
            }
            let ghost events_before = events@;
            let ghost kept_before = kept@;
            if e.1.timeout == now {
                events.push(TimeoutEvent { chat_id: cid, queue_id: e.0, queue: e.1 });
                proof {
                    assert(events_view(events@) =~= events_view(events_before).push(
                        TimeoutEventV { chat_id: cid, queue_id: e.0, queue: e.1@ },
                    ));
                }
            } else {
                kept.push(e);
                proof {
                    assert(queue_pairs_view(kept@) =~= queue_pairs_view(kept_before).push(
                        (e.0, e.1@),
                    ));
                }
            }
            proof {
                assert(c0.subrange(0, j + 1) =~= c0.subrange(0, j).push(c0[j]));
                lemma_tick_chat_step(c0.subrange(0, j), c0[j], cid, now);
                assert(queue_pairs_view(kept@) =~= tick_chat_keep(c0.subrange(0, j + 1), now));
                assert(events_view(events@) =~= events_at_chat_start + chat_events(
                    cid,
                    c0.subrange(0, j + 1),
                    now,
                ));
            }
        }
        new_chats.push((cid, Chat { queues: kept }));
        proof {
            assert(s0.subrange(0, i + 1) =~= s0.subrange(0, i).push(s0[i]));
            lemma_tick_state_step(s0.subrange(0, i), s0[i], now);
            assert(chat_pairs_view(new_chats@) =~= tick_state(
                s0.subrange(0, i + 1),
                now,
            ));
            assert(events_view(events@) =~= tick_events(s0.subrange(0, i + 1), now));
        }
    }
    let out = State { chats: new_chats };
    proof {
        assert(out@ =~= tick_state(s0, now));
    }
    (out, events)
}

/// Extending a chat by one queue extends what the tick keeps and fires.
proof fn lemma_tick_chat_step(pre: ChatV, e: (QueueId, QueueV), cid: ChatId, now: u16)
    ensures
        tick_chat_keep(pre.push(e), now) == if e.1.timeout != now {
            tick_chat_keep(pre, now).push(e)
        } else {
            tick_chat_keep(pre, now)
        },
        chat_events(cid, pre.push(e), now) == if e.1.timeout == now {
            chat_events(cid, pre, now).push(
                TimeoutEventV { chat_id: cid, queue_id: e.0, queue: e.1 },
            )
        } else {
            chat_events(cid, pre, now)
        },
{
    reveal(Seq::filter);
    let ext = pre.push(e);
    assert(ext.drop_last() =~= pre);
    assert(ext.last() == e);
    if e.1.timeout == now {
        assert(ext.filter(is_expired(now)) == pre.filter(is_expired(now)).push(e));
        assert(ext.filter(is_live(now)) == pre.filter(is_live(now)));
        assert(chat_events(cid, ext, now) =~= chat_events(cid, pre, now).push(
            TimeoutEventV { chat_id: cid, queue_id: e.0, queue: e.1 },
        ));
    } else {
        assert(ext.filter(is_expired(now)) == pre.filter(is_expired(now)));
        assert(ext.filter(is_live(now)) == pre.filter(is_live(now)).push(e));
        assert(chat_events(cid, ext, now) =~= chat_events(cid, pre, now));
    }
}

/// Extending the snapshot by one chat extends the tick's outputs.
proof fn lemma_tick_state_step(pre: StateV, e: (ChatId, ChatV), now: u16)
    ensures
        tick_state(pre.push(e), now) == tick_state(pre, now).push(
            (e.0, tick_chat_keep(e.1, now)),
        ),
        tick_events(pre.push(e), now) == tick_events(pre, now) + chat_events(e.0, e.1, now),
{
    let ext = pre.push(e);
    assert(ext.drop_last() =~= pre);
    assert(ext.last() == e);
    assert(tick_state(ext, now) =~= tick_state(pre, now).push((e.0, tick_chat_keep(e.1, now))));
}

/// The tick keeps the state well formed.
pub proof fn lemma_tick_wf(s: StateV, now: u16)
    requires
        state_wf(s),
    ensures
        state_wf(tick_state(s, now)),
{
    let t = tick_state(s, now);
    assert(t.len() == s.len());
    assert forall|i: int, j: int| 0 <= i < j < t.len() implies t[i].0 != t[j].0 by {
        assert(t[i].0 == s[i].0);
        assert(t[j].0 == s[j].0);
    }
    assert forall|i: int| 0 <= i < t.len() implies chat_wf(#[trigger] t[i].1) by {
        assert(t[i].1 == tick_chat_keep(s[i].1, now));
        lemma_tick_chat_wf(s[i].1, now);
    }
}

proof fn lemma_tick_chat_wf(c: ChatV, now: u16)
    requires
        chat_wf(c),
    ensures
        chat_wf(tick_chat_keep(c, now)),
        forall|i: int|
            0 <= i < tick_chat_keep(c, now).len() ==> (#[trigger] tick_chat_keep(c, now)[i]).1.timeout
                != now,
{
    broadcast use vstd::seq_lib::group_filter_ensures;

    let k = tick_chat_keep(c, now);
    crate::assoc::lemma_filter_keys_unique(c, is_live(now));
    assert forall|i: int| 0 <= i < k.len() implies queue_id_wf(#[trigger] k[i].0) by {
        lemma_kept_entry(c, now, i);
    }
    assert forall|i: int| 0 <= i < k.len() implies queue_wf(#[trigger] k[i].1) by {
        lemma_kept_entry(c, now, i);
    }
    assert forall|i: int| 0 <= i < k.len() implies (#[trigger] k[i]).1.timeout != now by {
        lemma_kept_entry(c, now, i);
    }
}

/// Each entry the tick keeps comes from the chat, is well formed there,
/// and is live.
proof fn lemma_kept_entry(c: ChatV, now: u16, i: int)
    requires
        chat_wf(c),
        0 <= i < tick_chat_keep(c, now).len(),
    ensures
        queue_id_wf(tick_chat_keep(c, now)[i].0),
        queue_wf(tick_chat_keep(c, now)[i].1),
        tick_chat_keep(c, now)[i].1.timeout != now,
{
    broadcast use vstd::seq_lib::group_filter_ensures;

    let k = tick_chat_keep(c, now);
    assert(k.contains(k[i])) by {
        assert(k[i] == k[i]);
    }
    c.lemma_filter_contains_rev(is_live(now), k[i]);
    let n = choose|n: int| 0 <= n < c.len() && c[n] == k[i];
    assert(queue_id_wf(c[n].0) && queue_wf(c[n].1));
    assert(is_live(now)(k[i]));
}

/// Firing guarantee, second half: a tick right after a tick at the same
/// minute finds nothing left to fire and changes nothing, so idempotent
/// removal — not the scan itself — is what keeps notifications single.
pub proof fn lemma_tick_twice_fires_nothing(s: StateV, now: u16)
    requires
        state_wf(s),
    ensures
        tick_events(tick_state(s, now), now) == Seq::<TimeoutEventV>::empty(),
        tick_state(tick_state(s, now), now) == tick_state(s, now),
{
    let s1 = tick_state(s, now);
    assert forall|i: int| 0 <= i < s1.len() implies (#[trigger] s1[i]).1 == tick_chat_keep(
        s1[i].1,
        now,
    ) && chat_events(s1[i].0, s1[i].1, now) == Seq::<TimeoutEventV>::empty() by {
        let c = s[i].1;
        let k = tick_chat_keep(c, now);
        assert(s1[i].1 == k);
        assert forall|j: int| 0 <= j < k.len() implies is_live(now)(#[trigger] k[j]) by {
            broadcast use vstd::seq_lib::group_filter_ensures;

        }
        lemma_filter_all(k, is_live(now));
        assert(k.filter(is_expired(now)) =~= Seq::<(QueueId, QueueV)>::empty()) by {
            lemma_filter_none(k, is_expired(now));
        }
        assert(chat_events(s1[i].0, k, now) =~= Seq::<TimeoutEventV>::empty());
    }
    assert(tick_state(s1, now) =~= s1);
    lemma_tick_events_empty(s1, now);
}

/// A snapshot in which no chat fires an event yields no events.
proof fn lemma_tick_events_empty(s: StateV, now: u16)
    requires
        forall|i: int|
            0 <= i < s.len() ==> chat_events((#[trigger] s[i]).0, s[i].1, now) == Seq::<
                TimeoutEventV,
            >::empty(),
    ensures
        tick_events(s, now) == Seq::<TimeoutEventV>::empty(),
    decreases s.len(),
{
    if s.len() > 0 {
        let pre = s.drop_last();
        assert(forall|i: int| 0 <= i < pre.len() ==> (#[trigger] pre[i]) == s[i]);
        lemma_tick_events_empty(pre, now);
        assert(tick_events(s, now) =~= Seq::<TimeoutEventV>::empty());
    } else {
        assert(tick_events(s, now) =~= Seq::<TimeoutEventV>::empty());
    }
}

/// A filter by a predicate nothing satisfies leaves nothing.
proof fn lemma_filter_none<A>(s: Seq<A>, pred: spec_fn(A) -> bool)
    requires
        forall|i: int| 0 <= i < s.len() ==> !pred(#[trigger] s[i]),
    ensures
        s.filter(pred) == Seq::<A>::empty(),
    decreases s.len(),
{
    reveal(Seq::filter);
    if s.len() == 0 {
        assert(s.filter(pred) =~= Seq::<A>::empty());
    } else {
        lemma_filter_none(s.drop_last(), pred);
        assert(s.filter(pred) =~= Seq::<A>::empty());
    }
}

} // verus!
