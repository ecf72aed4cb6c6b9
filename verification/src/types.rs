//! Data model: chats, queues, players, and the well-formedness conditions
//! that every transition of the store preserves.

use vstd::prelude::*;

verus! {

use crate::MINUTES_PER_DAY;

/// Identifier of a conversation; the key of the chat map.
#[derive(Clone, Copy, PartialEq, Eq, Structural, Debug)]
pub struct ChatId {
    pub id: i64,
}

impl ChatId {
    pub fn new(id: i64) -> (r: ChatId)
        ensures
            r.id == id,
    {
        ChatId { id }
    }
}

/// Identifier of a queue within a chat: the single instant queue, or a
/// scheduled queue named by its time of day (a minute of the day).
#[derive(Clone, Copy, PartialEq, Eq, Structural, Debug)]
pub enum QueueId {
    Instant,
    Timed { minute_of_day: u16 },
}

/// Whether a queue got its timeout from a rolling offset at creation
/// (instant) or from the triggering command (timed).
#[derive(Clone, Copy, PartialEq, Eq, Structural, Debug)]
pub enum QueueKind {
    Instant,
    Timed,
}

pub open spec fn queue_id_wf(qid: QueueId) -> bool {
    match qid {
        QueueId::Instant => true,
        QueueId::Timed { minute_of_day } => minute_of_day < MINUTES_PER_DAY,
    }
}

/// The kind a queue is seeded with when it is created by an operation
/// naming `qid`.
pub open spec fn kind_of(qid: QueueId) -> QueueKind {
    match qid {
        QueueId::Instant => QueueKind::Instant,
        QueueId::Timed { .. } => QueueKind::Timed,
    }
}

/// One queue: its players in arrival order, a fixed capacity, the minute of
/// the day at which it expires, and the command token that re-triggers it.
#[derive(Clone, Debug, PartialEq)]
pub struct Queue {
    pub players: Vec<String>,
    pub capacity: usize,
    pub timeout: u16,
    pub add_cmd: String,
    pub kind: QueueKind,
}

/// Mathematical value of a [`Queue`].
pub struct QueueV {
    pub players: Seq<Seq<char>>,
    pub capacity: nat,
    pub timeout: u16,
    pub add_cmd: Seq<char>,
    pub kind: QueueKind,
}

impl View for Queue {
    type V = QueueV;

    open spec fn view(&self) -> QueueV {
        QueueV {
            players: self.players.deep_view(),
            capacity: self.capacity as nat,
            timeout: self.timeout,
            add_cmd: self.add_cmd@,
            kind: self.kind,
        }
    }
}

/// A chat: the queues currently alive in it, keyed by queue id.
#[derive(Clone, Debug, PartialEq)]
pub struct Chat {
    pub queues: Vec<(QueueId, Queue)>,
}

pub type ChatV = Seq<(QueueId, QueueV)>;

/// The view of a sequence of queue entries, entry by entry.
pub open spec fn queue_pairs_view(v: Seq<(QueueId, Queue)>) -> Seq<(QueueId, QueueV)> {
    v.map_values(|p: (QueueId, Queue)| (p.0, p.1@))
}

impl View for Chat {
    type V = ChatV;

    open spec fn view(&self) -> ChatV {
        queue_pairs_view(self.queues@)
    }
}

/// The root of truth: every chat with at least one membership change so far.
#[derive(Clone, Debug, PartialEq)]
pub struct State {
    pub chats: Vec<(ChatId, Chat)>,
}

pub type StateV = Seq<(ChatId, ChatV)>;

/// The view of a sequence of chat entries, entry by entry.
pub open spec fn chat_pairs_view(v: Seq<(ChatId, Chat)>) -> Seq<(ChatId, ChatV)> {
    v.map_values(|p: (ChatId, Chat)| (p.0, p.1@))
}

impl View for State {
    type V = StateV;

    open spec fn view(&self) -> StateV {
        chat_pairs_view(self.chats@)
    }
}

impl State {
    /// The empty state a fresh deployment starts from.
    pub fn empty() -> (r: State)
        ensures
            r@ == Seq::<(ChatId, ChatV)>::empty(),
    {
        let r = State { chats: Vec::new() };
        proof {
            assert(r@ =~= Seq::<(ChatId, ChatV)>::empty());
        }
        r
    }
}

pub open spec fn players_unique(ps: Seq<Seq<char>>) -> bool {
    forall|i: int, j: int| 0 <= i < j < ps.len() ==> ps[i] != ps[j]
}

pub open spec fn queue_wf(q: QueueV) -> bool {
    &&& 0 < q.capacity
    &&& q.players.len() <= q.capacity
    &&& players_unique(q.players)
    &&& q.timeout < MINUTES_PER_DAY
}

pub open spec fn chat_wf(c: ChatV) -> bool {
    &&& crate::assoc::keys_unique(c)
    &&& forall|i: int| 0 <= i < c.len() ==> queue_id_wf(#[trigger] c[i].0)
    &&& forall|i: int| 0 <= i < c.len() ==> queue_wf(#[trigger] c[i].1)
}

pub open spec fn state_wf(s: StateV) -> bool {
    &&& crate::assoc::keys_unique(s)
    &&& forall|i: int| 0 <= i < s.len() ==> chat_wf(#[trigger] s[i].1)
}

fn players_unique_exec(ps: &Vec<String>) -> (r: bool)
    ensures
        r == players_unique(ps.deep_view()),
{
    let ghost v = ps.deep_view();
    let mut i: usize = 0;
    while i < ps.len()
        invariant
            i <= ps@.len(),
            v == ps.deep_view(),
            forall|a: int, b: int| 0 <= a < b < v.len() && a < i ==> v[a] != v[b],
        decreases ps@.len() - i,
    {
        let mut j: usize = i + 1;
        while j < ps.len()
            invariant
                i < j,
                j <= ps@.len(),
                i < ps@.len(),
                v == ps.deep_view(),
                forall|b: int| i < b < j ==> v[i as int] != v[b],
            decreases ps@.len() - j,
        {
            if ps[i] == ps[j] {
                proof {
                    assert(v[i as int] == v[j as int]);
                }
                return false;
            }
            j = j + 1;
        }
        i = i + 1;
    }
    true
}

impl Queue {
    fn check_wf(&self) -> (r: bool)
        ensures
            r == queue_wf(self@),
    {
        if self.capacity == 0 {
            return false;
        }
        if self.players.len() > self.capacity {
            return false;
        }
        if self.timeout >= MINUTES_PER_DAY {
            return false;
        }
        players_unique_exec(&self.players)
    }
}

impl QueueId {
    fn check_wf(&self) -> (r: bool)
        ensures
            r == queue_id_wf(*self),
    {
        match self {
            QueueId::Instant => true,
            QueueId::Timed { minute_of_day } => *minute_of_day < MINUTES_PER_DAY,
        }
    }
}

impl Chat {
    fn check_wf(&self) -> (r: bool)
        ensures
            r == chat_wf(self@),
    {
        let ghost v = self@;
        let mut i: usize = 0;
        while i < self.queues.len()
            invariant
                i <= self.queues@.len(),
                v == self@,
                v.len() == self.queues@.len(),
                forall|a: int, b: int| 0 <= a < b < v.len() && a < i ==> v[a].0 != v[b].0,
                forall|a: int| 0 <= a < i ==> queue_id_wf((#[trigger] v[a]).0),
                forall|a: int| 0 <= a < i ==> queue_wf((#[trigger] v[a]).1),
            decreases self.queues@.len() - i,
        {
            proof {
                assert(v[i as int] == (self.queues@[i as int].0, self.queues@[i as int].1@));
            }
            if !self.queues[i].0.check_wf() {
                proof {
                    assert(!queue_id_wf(v[i as int].0));
                    assert(!chat_wf(v));
                }
                return false;
            }
            if !self.queues[i].1.check_wf() {
                proof {
                    assert(!queue_wf(v[i as int].1));
                    assert(!chat_wf(v));
                }
                return false;
            }
            let mut j: usize = i + 1;
            while j < self.queues.len()
                invariant
                    i < j,
                    j <= self.queues@.len(),
                    i < self.queues@.len(),
                    v == self@,
                    v.len() == self.queues@.len(),
                    forall|b: int| i < b < j ==> v[i as int].0 != v[b].0,
                decreases self.queues@.len() - j,
            {
                if self.queues[i].0 == self.queues[j].0 {
                    proof {
                        assert(v[i as int].0 == v[j as int].0);
                    }
                    return false;
                }
                proof {
                    assert(v[j as int].0 == self.queues@[j as int].0);
                }
                j = j + 1;
            }
            i = i + 1;
        }
        true
    }
}

impl State {
    /// Whether the snapshot satisfies every invariant of the store: chat
    /// and queue ids unique, players distinct, sizes within capacity, and
    /// times within the day. A snapshot read back from storage is used
    /// only after this check.
    pub fn is_well_formed(&self) -> (r: bool)
        ensures
            r == state_wf(self@),
    {
        let ghost v = self@;
        let mut i: usize = 0;
        while i < self.chats.len()
            invariant
                i <= self.chats@.len(),
                v == self@,
                v.len() == self.chats@.len(),
                forall|a: int, b: int| 0 <= a < b < v.len() && a < i ==> v[a].0 != v[b].0,
                forall|a: int| 0 <= a < i ==> chat_wf((#[trigger] v[a]).1),
            decreases self.chats@.len() - i,
        {
            proof {
                assert(v[i as int] == (self.chats@[i as int].0, self.chats@[i as int].1@));
            }
            if !self.chats[i].1.check_wf() {
                proof {
                    assert(!chat_wf(v[i as int].1));
                    assert(!state_wf(v));
                }
                return false;
            }
            let mut j: usize = i + 1;
            while j < self.chats.len()
                invariant
                    i < j,
                    j <= self.chats@.len(),
                    i < self.chats@.len(),
                    v == self@,
                    v.len() == self.chats@.len(),
                    forall|b: int| i < b < j ==> v[i as int].0 != v[b].0,
                decreases self.chats@.len() - j,
            {
                if self.chats[i].0 == self.chats[j].0 {
                    proof {
                        assert(v[i as int].0 == v[j as int].0);
                    }
                    return false;
                }
                proof {
                    assert(v[j as int].0 == self.chats@[j as int].0);
                }
                j = j + 1;
            }
            i = i + 1;
        }
        true
    }
}

} // verus!
