//! The queue state store: pure transition functions over a [`State`]
//! snapshot. Each executable transition consumes a snapshot and returns the
//! successor state together with what a caller needs for messaging; its
//! meaning is fixed by a specification-level transition on the views.

use vstd::prelude::*;

verus! {

use crate::MINUTES_PER_DAY;
use crate::assoc::{
    assoc_get, assoc_has, assoc_idx, assoc_remove, assoc_set, keys_unique, lemma_assoc_idx_is,
    lemma_assoc_remove, lemma_assoc_remove_at, lemma_assoc_set_get, lemma_filter_all,
    lemma_filter_keys_unique,
};
use crate::types::{
    Chat, ChatId, ChatV, Queue, QueueId, QueueKind, QueueV, State, StateV, chat_wf, kind_of,
    players_unique, queue_id_wf, queue_pairs_view, queue_wf, state_wf,
};

/// What a toggle did to the named player.
#[derive(Clone, Debug, PartialEq)]
pub enum AddRemovePlayerOp {
    PlayerAdded(String),
    PlayerRemoved(String),
}

/// Mathematical value of an [`AddRemovePlayerOp`].
pub enum AddRemovePlayerOpV {
    PlayerAdded(Seq<char>),
    PlayerRemoved(Seq<char>),
}

impl View for AddRemovePlayerOp {
    type V = AddRemovePlayerOpV;

    open spec fn view(&self) -> AddRemovePlayerOpV {
        match self {
            AddRemovePlayerOp::PlayerAdded(u) => AddRemovePlayerOpV::PlayerAdded(u@),
            AddRemovePlayerOp::PlayerRemoved(u) => AddRemovePlayerOpV::PlayerRemoved(u@),
        }
    }
}

/// How full a toggle left the queue, measured on the queue immediately
/// after the operation; each variant carries that snapshot.
#[derive(Clone, Debug, PartialEq)]
pub enum AddRemovePlayerResult {
    QueueFull(Queue),
    QueueEmpty(Queue),
    PlayerQueued(Queue),
}

/// Mathematical value of an [`AddRemovePlayerResult`].
pub enum AddRemovePlayerResultV {
    QueueFull(QueueV),
    QueueEmpty(QueueV),
    PlayerQueued(QueueV),
}

impl View for AddRemovePlayerResult {
    type V = AddRemovePlayerResultV;

    open spec fn view(&self) -> AddRemovePlayerResultV {
        match self {
            AddRemovePlayerResult::QueueFull(q) => AddRemovePlayerResultV::QueueFull(q@),
            AddRemovePlayerResult::QueueEmpty(q) => AddRemovePlayerResultV::QueueEmpty(q@),
            AddRemovePlayerResult::PlayerQueued(q) => AddRemovePlayerResultV::PlayerQueued(q@),
        }
    }
}

/// `QueueFull` exactly when the queue sits at capacity, `QueueEmpty`
/// exactly when nobody is queued, `PlayerQueued` otherwise.
pub open spec fn classify(q: QueueV) -> AddRemovePlayerResultV {
    if q.players.len() == q.capacity {
        AddRemovePlayerResultV::QueueFull(q)
    } else if q.players.len() == 0 {
        AddRemovePlayerResultV::QueueEmpty(q)
    } else {
        AddRemovePlayerResultV::PlayerQueued(q)
    }
}

/// The queue an operation seeds when it names a queue id not yet present.
pub open spec fn fresh_queue(qid: QueueId, add_cmd: Seq<char>, timeout: u16, capacity: nat) -> QueueV {
    QueueV {
        players: Seq::empty(),
        capacity,
        timeout,
        add_cmd,
        kind: kind_of(qid),
    }
}

/// Holds of the players that are not `user`.
pub open spec fn is_not_user(user: Seq<char>) -> spec_fn(Seq<char>) -> bool {
    |p: Seq<char>| p != user
}

pub open spec fn without_player(ps: Seq<Seq<char>>, user: Seq<char>) -> Seq<Seq<char>> {
    ps.filter(is_not_user(user))
}

/// Toggle semantics on one queue: a member is removed; a non-member is
/// appended while the queue is below capacity, and rejected (no change) at
/// capacity.
pub open spec fn queue_after_toggle(q: QueueV, user: Seq<char>) -> (QueueV, AddRemovePlayerOpV) {
    if q.players.contains(user) {
        (
            QueueV { players: without_player(q.players, user), ..q },
            AddRemovePlayerOpV::PlayerRemoved(user),
        )
    } else if q.players.len() < q.capacity {
        (QueueV { players: q.players.push(user), ..q }, AddRemovePlayerOpV::PlayerAdded(user))
    } else {
        (q, AddRemovePlayerOpV::PlayerAdded(user))
    }
}

pub open spec fn chat_or_empty(s: StateV, cid: ChatId) -> ChatV {
    match assoc_get(s, cid) {
        Some(c) => c,
        None => Seq::empty(),
    }
}

pub open spec fn queue_or_fresh(
    c: ChatV,
    qid: QueueId,
    add_cmd: Seq<char>,
    timeout: u16,
    capacity: nat,
) -> QueueV {
    match assoc_get(c, qid) {
        Some(q) => q,
        None => fresh_queue(qid, add_cmd, timeout, capacity),
    }
}

/// The full toggle transition. The chat and the queue are created when
/// absent, seeded with the supplied command token, timeout and capacity; an
/// existing queue keeps its own (first writer wins).
pub open spec fn spec_add_remove_player(
    s: StateV,
    cid: ChatId,
    qid: QueueId,
    add_cmd: Seq<char>,
    timeout: u16,
    capacity: nat,
    user: Seq<char>,
) -> (StateV, AddRemovePlayerResultV, AddRemovePlayerOpV) {
    let c0 = chat_or_empty(s, cid);
    let q0 = queue_or_fresh(c0, qid, add_cmd, timeout, capacity);
    let (q1, op) = queue_after_toggle(q0, user);
    let c1 = assoc_set(c0, qid, q1);
    (assoc_set(s, cid, c1), classify(q1), op)
}

/// Removing a queue: the queue leaves its chat and is handed back; naming
/// an absent chat or queue changes nothing and reports absence.
pub open spec fn spec_rm_chat_queue(s: StateV, cid: ChatId, qid: QueueId) -> (
    StateV,
    Option<QueueV>,
) {
    match assoc_get(s, cid) {
        None => (s, None),
        Some(c) => match assoc_get(c, qid) {
            None => (s, None),
            Some(q) => (assoc_set(s, cid, assoc_remove(c, qid)), Some(q)),
        },
    }
}

pub open spec fn queue_without_player(q: QueueV, user: Seq<char>) -> QueueV {
    QueueV { players: without_player(q.players, user), ..q }
}

pub open spec fn chat_without_player(c: ChatV, user: Seq<char>) -> ChatV {
    c.map_values(|p: (QueueId, QueueV)| (p.0, queue_without_player(p.1, user)))
}

/// Holds of the chat entries whose queue contains `user`.
pub open spec fn has_user(user: Seq<char>) -> spec_fn((QueueId, QueueV)) -> bool {
    |p: (QueueId, QueueV)| p.1.players.contains(user)
}

/// The queues of `c` that contain `user`, each as it stands after the
/// removal, in chat order.
pub open spec fn affected_queues(c: ChatV, user: Seq<char>) -> Seq<(QueueId, QueueV)> {
    c.filter(has_user(user)).map_values(
        |p: (QueueId, QueueV)| (p.0, queue_without_player(p.1, user)),
    )
}

/// Removing a player from every queue of a chat that contains them.
pub open spec fn spec_rm_player(s: StateV, cid: ChatId, user: Seq<char>) -> (
    StateV,
    Seq<(QueueId, QueueV)>,
) {
    match assoc_get(s, cid) {
        None => (s, Seq::empty()),
        Some(c) => (
            assoc_set(s, cid, chat_without_player(c, user)),
            affected_queues(c, user),
        ),
    }
}

/// Dropping a member keeps the remaining players distinct and in order.
pub proof fn lemma_without_player_wf(ps: Seq<Seq<char>>, user: Seq<char>)
    requires
        players_unique(ps),
    ensures
        players_unique(without_player(ps, user)),
        without_player(ps, user).len() <= ps.len(),
        !without_player(ps, user).contains(user),
        !ps.contains(user) ==> without_player(ps, user) == ps,
{
    broadcast use vstd::seq_lib::group_filter_ensures;

    let pred = is_not_user(user);
    let t = ps.filter(pred);
    assert forall|i: int, j: int| 0 <= i < j < t.len() implies t[i] != t[j] by {
        lemma_unique_filter_distinct(ps, pred, i, j);
    }
    assert(!t.contains(user)) by {
        if t.contains(user) {
            let i = choose|i: int| 0 <= i < t.len() && t[i] == user;
            assert(pred(t[i]));
        }
    }
    if !ps.contains(user) {
        assert forall|i: int| 0 <= i < ps.len() implies pred(#[trigger] ps[i]) by {
            if ps[i] == user {
                assert(ps.contains(user));
            }
        }
        lemma_filter_all(ps, pred);
    }
}

/// In a duplicate-free sequence, two positions of the filtered sequence
/// hold different elements.
pub proof fn lemma_unique_filter_distinct<A>(s: Seq<A>, pred: spec_fn(A) -> bool, i: int, j: int)
    requires
        forall|m: int, n: int| 0 <= m < n < s.len() ==> s[m] != s[n],
        0 <= i < j < s.filter(pred).len(),
    ensures
        s.filter(pred)[i] != s.filter(pred)[j],
    decreases s.len(),
{
    reveal(Seq::filter);
    broadcast use vstd::seq_lib::group_filter_ensures;

    if s.len() > 0 {
        let rest = s.drop_last();
        let f = s.filter(pred);
        let fr = rest.filter(pred);
        if pred(s.last()) {
            assert(f == fr.push(s.last()));
            if j < f.len() - 1 {
                lemma_unique_filter_distinct(rest, pred, i, j);
            } else {
                assert(fr.contains(f[i])) by {
                    assert(fr[i] == f[i]);
                }
                rest.lemma_filter_contains_rev(pred, f[i]);
                let n = choose|n: int| 0 <= n < rest.len() && rest[n] == f[i];
                assert(s[n] != s[s.len() - 1]);
            }
        } else {
            assert(f == fr);
            lemma_unique_filter_distinct(rest, pred, i, j);
        }
    }
}

/// The toggled queue is well formed whenever the queue it starts from is.
pub proof fn lemma_queue_after_toggle_wf(q: QueueV, user: Seq<char>)
    requires
        queue_wf(q),
    ensures
        queue_wf(queue_after_toggle(q, user).0),
        queue_after_toggle(q, user).0.capacity == q.capacity,
        queue_after_toggle(q, user).0.timeout == q.timeout,
        queue_after_toggle(q, user).0.add_cmd == q.add_cmd,
        queue_after_toggle(q, user).0.kind == q.kind,
{
    if q.players.contains(user) {
        lemma_without_player_wf(q.players, user);
    } else if q.players.len() < q.capacity {
        let ps = q.players.push(user);
        assert forall|i: int, j: int| 0 <= i < j < ps.len() implies ps[i] != ps[j] by {
            if j == ps.len() - 1 {
                assert(!q.players.contains(user));
                assert(ps[i] == q.players[i]);
            }
        }
    }
}

/// Writing a well-formed chat into a well-formed state keeps it well
/// formed.
pub proof fn lemma_state_set_wf(s: StateV, cid: ChatId, c: ChatV)
    requires
        state_wf(s),
        chat_wf(c),
    ensures
        state_wf(assoc_set(s, cid, c)),
{
    lemma_assoc_set_get(s, cid, c);
    let t = assoc_set(s, cid, c);
    assert forall|i: int| 0 <= i < t.len() implies chat_wf(#[trigger] t[i].1) by {
        if assoc_has(s, cid) {
            assert(t == s.update(assoc_idx(s, cid), (cid, c)));
        } else {
            assert(t == s.push((cid, c)));
        }
    }
}

/// Writing a well-formed queue under a well-formed id into a well-formed
/// chat keeps it well formed.
pub proof fn lemma_chat_set_wf(c: ChatV, qid: QueueId, q: QueueV)
    requires
        chat_wf(c),
        queue_id_wf(qid),
        queue_wf(q),
    ensures
        chat_wf(assoc_set(c, qid, q)),
{
    lemma_assoc_set_get(c, qid, q);
    let t = assoc_set(c, qid, q);
    assert forall|i: int| 0 <= i < t.len() implies queue_id_wf(#[trigger] t[i].0) && queue_wf(
        #[trigger] t[i].1,
    ) by {
        if assoc_has(c, qid) {
            assert(t == c.update(assoc_idx(c, qid), (qid, q)));
        } else {
            assert(t == c.push((qid, q)));
        }
    }
}

/// A chat read out of a well-formed state is well formed.
pub proof fn lemma_chat_of_wf(s: StateV, cid: ChatId)
    requires
        state_wf(s),
    ensures
        chat_wf(chat_or_empty(s, cid)),
        assoc_get(s, cid) matches Some(c) ==> chat_wf(c),
{
    if assoc_has(s, cid) {
        let i = assoc_idx(s, cid);
        assert(chat_wf(s[i].1));
    }
}

/// A queue read out of a well-formed chat is well formed.
pub proof fn lemma_queue_of_wf(c: ChatV, qid: QueueId)
    requires
        chat_wf(c),
    ensures
        assoc_get(c, qid) matches Some(q) ==> queue_wf(q),
{
    if assoc_has(c, qid) {
        let i = assoc_idx(c, qid);
        assert(queue_wf(c[i].1));
    }
}

/// Capacity invariant, preserved: the toggle transition keeps the state
/// well formed, so every queue in every reachable snapshot holds at most
/// `capacity` distinct players.
pub proof fn lemma_add_remove_player_wf(
    s: StateV,
    cid: ChatId,
    qid: QueueId,
    add_cmd: Seq<char>,
    timeout: u16,
    capacity: nat,
    user: Seq<char>,
)
    requires
        state_wf(s),
        queue_id_wf(qid),
        timeout < MINUTES_PER_DAY,
        1 <= capacity,
    ensures
        state_wf(spec_add_remove_player(s, cid, qid, add_cmd, timeout, capacity, user).0),
{
    let c0 = chat_or_empty(s, cid);
    let q0 = queue_or_fresh(c0, qid, add_cmd, timeout, capacity);
    lemma_chat_of_wf(s, cid);
    lemma_queue_of_wf(c0, qid);
    assert(queue_wf(q0));
    lemma_queue_after_toggle_wf(q0, user);
    let q1 = queue_after_toggle(q0, user).0;
    lemma_chat_set_wf(c0, qid, q1);
    lemma_state_set_wf(s, cid, assoc_set(c0, qid, q1));
}

/// Capacity invariant, preserved: removing a queue keeps the state well
/// formed.
pub proof fn lemma_rm_chat_queue_wf(s: StateV, cid: ChatId, qid: QueueId)
    requires
        state_wf(s),
    ensures
        state_wf(spec_rm_chat_queue(s, cid, qid).0),
{
    if assoc_has(s, cid) {
        let c = assoc_get(s, cid).unwrap();
        if assoc_has(c, qid) {
            lemma_chat_of_wf(s, cid);
            lemma_assoc_remove(c, qid);
            let c1 = assoc_remove(c, qid);
            assert forall|i: int| 0 <= i < c1.len() implies queue_id_wf(#[trigger] c1[i].0) by {
                lemma_rm_entry_from_chat(c, qid, i);
            }
            assert forall|i: int| 0 <= i < c1.len() implies queue_wf(#[trigger] c1[i].1) by {
                lemma_rm_entry_from_chat(c, qid, i);
            }
            lemma_state_set_wf(s, cid, c1);
        }
    }
}

/// Every entry left after removing a queue was an entry of the chat, and a
/// well-formed one when the chat was.
proof fn lemma_rm_entry_from_chat(c: ChatV, qid: QueueId, i: int)
    requires
        chat_wf(c),
        0 <= i < assoc_remove(c, qid).len(),
    ensures
        queue_id_wf(assoc_remove(c, qid)[i].0),
        queue_wf(assoc_remove(c, qid)[i].1),
{
    let c1 = assoc_remove(c, qid);
    let e = c1[i];
    assert(c1.contains(e)) by {
        assert(c1[i] == e);
    }
    crate::assoc::lemma_assoc_remove_contains(c, qid, e);
    let n = choose|n: int| 0 <= n < c.len() && c[n] == e;
    assert(queue_id_wf(c[n].0) && queue_wf(c[n].1));
}

/// Removing the unique occurrence of `user`, found at `i`, drops exactly
/// the entry at `i`.
pub proof fn lemma_without_player_at(ps: Seq<Seq<char>>, user: Seq<char>, i: int)
    requires
        players_unique(ps),
        0 <= i < ps.len(),
        ps[i] == user,
    ensures
        without_player(ps, user) == ps.remove(i),
{
    let pred = is_not_user(user);
    assert forall|j: int| 0 <= j < ps.len() && j != i implies pred(#[trigger] ps[j]) by {
        if j < i {
            assert(ps[j] != ps[i]);
        } else {
            assert(ps[i] != ps[j]);
        }
    }
    crate::assoc::lemma_filter_remove_one(ps, pred, i);
}

/// Capacity invariant, preserved: removing a player everywhere keeps the
/// state well formed.
pub proof fn lemma_rm_player_wf(s: StateV, cid: ChatId, user: Seq<char>)
    requires
        state_wf(s),
    ensures
        state_wf(spec_rm_player(s, cid, user).0),
{
    if assoc_has(s, cid) {
        let c = assoc_get(s, cid).unwrap();
        lemma_chat_of_wf(s, cid);
        let c1 = chat_without_player(c, user);
        assert(c1.len() == c.len());
        assert forall|i: int, j: int| 0 <= i < j < c1.len() implies c1[i].0 != c1[j].0 by {
            assert(c1[i].0 == c[i].0);
            assert(c1[j].0 == c[j].0);
        }
        assert forall|i: int| 0 <= i < c1.len() implies queue_id_wf(#[trigger] c1[i].0) by {
            assert(c1[i] == (c[i].0, queue_without_player(c[i].1, user)));
        }
        assert forall|i: int| 0 <= i < c1.len() implies queue_wf(#[trigger] c1[i].1) by {
            assert(c1[i] == (c[i].0, queue_without_player(c[i].1, user)));
            lemma_without_player_wf(c[i].1.players, user);
        }
        lemma_state_set_wf(s, cid, c1);
    }
}

pub(crate) fn find_chat_idx(chats: &Vec<(ChatId, Chat)>, cid: &ChatId) -> (r: Option<usize>)
    ensures
        match r {
            Some(i) => i < chats@.len() && chats@[i as int].0 == *cid,
            None => forall|j: int| 0 <= j < chats@.len() ==> (#[trigger] chats@[j]).0 != *cid,
        },
{
    let mut i: usize = 0;
    while i < chats.len()
        invariant
            i <= chats@.len(),
            forall|j: int| 0 <= j < i ==> (#[trigger] chats@[j]).0 != *cid,
        decreases chats@.len() - i,
    {
        if chats[i].0 == *cid {
            return Some(i);
        }
        i = i + 1;
    }
    None
}

fn find_queue_idx(queues: &Vec<(QueueId, Queue)>, qid: &QueueId) -> (r: Option<usize>)
    ensures
        match r {
            Some(i) => i < queues@.len() && queues@[i as int].0 == *qid,
            None => forall|j: int| 0 <= j < queues@.len() ==> (#[trigger] queues@[j]).0 != *qid,
        },
{
    let mut i: usize = 0;
    while i < queues.len()
        invariant
            i <= queues@.len(),
            forall|j: int| 0 <= j < i ==> (#[trigger] queues@[j]).0 != *qid,
        decreases queues@.len() - i,
    {
        if queues[i].0 == *qid {
            return Some(i);
        }
        i = i + 1;
    }
    None
}

fn find_player_idx(players: &Vec<String>, user: &String) -> (r: Option<usize>)
    ensures
        match r {
            Some(i) => i < players@.len() && players@[i as int]@ == user@,
            None => forall|j: int| 0 <= j < players@.len() ==> (#[trigger] players@[j])@ != user@,
        },
{
    let mut i: usize = 0;
    while i < players.len()
        invariant
            i <= players@.len(),
            forall|j: int| 0 <= j < i ==> (#[trigger] players@[j])@ != user@,
        decreases players@.len() - i,
    {
        if players[i] == *user {
            return Some(i);
        }
        i = i + 1;
    }
    None
}

pub(crate) fn clone_string(s: &String) -> (r: String)
    ensures
        r@ == s@,
{
    s.clone()
}

fn clone_players(ps: &Vec<String>) -> (r: Vec<String>)
    ensures
        r.deep_view() == ps.deep_view(),
{
    let mut r: Vec<String> = Vec::new();
    let mut i: usize = 0;
    while i < ps.len()
        invariant
            i <= ps@.len(),
            r@.len() == i,
            forall|j: int| 0 <= j < i ==> r.deep_view()[j] == ps.deep_view()[j],
        decreases ps@.len() - i,
    {
        r.push(clone_string(&ps[i]));
        i = i + 1;
    }
    assert(r.deep_view() =~= ps.deep_view());
    r
}

pub(crate) fn clone_queue(q: &Queue) -> (r: Queue)
    ensures
        r@ == q@,
{
    Queue {
        players: clone_players(&q.players),
        capacity: q.capacity,
        timeout: q.timeout,
        add_cmd: clone_string(&q.add_cmd),
        kind: q.kind,
    }
}

impl QueueId {
    /// The kind a queue created under this id gets.
    pub fn kind(&self) -> (k: QueueKind)
        ensures
            k == kind_of(*self),
    {
        match self {
            QueueId::Instant => QueueKind::Instant,
            QueueId::Timed { .. } => QueueKind::Timed,
        }
    }

    pub fn is_instant_queue(&self) -> (r: bool)
        ensures
            r == (*self == QueueId::Instant),
    {
        match self {
            QueueId::Instant => true,
            QueueId::Timed { .. } => false,
        }
    }
}

impl Queue {
    /// A queue is full when it holds exactly as many players as its
    /// capacity admits.
    pub fn is_full(&self) -> (r: bool)
        ensures
            r == (self@.players.len() == self@.capacity),
    {
        self.players.len() == self.capacity
    }
}

impl State {
    /// Toggle `username`'s membership in queue `queue_id` of chat
    /// `chat_id`, creating the chat and the queue as needed; reports the
    /// fullness of the queue as the operation left it, and what happened
    /// to the player.
    pub fn add_remove_player(
        self,
        chat_id: &ChatId,
        queue_id: &QueueId,
        add_cmd: String,
        timeout: u16,
        capacity: usize,
        username: String,
    ) -> (r: (State, AddRemovePlayerResult, AddRemovePlayerOp))
        requires
            state_wf(self@),
            queue_id_wf(*queue_id),
            timeout < MINUTES_PER_DAY,
            1 <= capacity,
        ensures
            r.0@ == spec_add_remove_player(
                self@,
                *chat_id,
                *queue_id,
                add_cmd@,
                timeout,
                capacity as nat,
                username@,
            ).0,
            r.1@ == spec_add_remove_player(
                self@,
                *chat_id,
                *queue_id,
                add_cmd@,
                timeout,
                capacity as nat,
                username@,
            ).1,
            r.2@ == spec_add_remove_player(
                self@,
                *chat_id,
                *queue_id,
                add_cmd@,
                timeout,
                capacity as nat,
                username@,
            ).2,
            state_wf(r.0@),
    {
        let ghost s0 = self@;
        let ghost cid = *chat_id;
        let ghost qid = *queue_id;
        let ghost c0 = chat_or_empty(s0, cid);
        let ghost q0 = queue_or_fresh(c0, qid, add_cmd@, timeout, capacity as nat);
        proof {
            lemma_add_remove_player_wf(s0, cid, qid, add_cmd@, timeout, capacity as nat, username@);
        }
        let mut st = self;

        // Locate the chat, creating it when absent.
        let cidx: usize;
        match find_chat_idx(&st.chats, chat_id) {
            Some(i) => {
                cidx = i;
                proof {
                    lemma_assoc_idx_is(s0, cid, cidx as int);
                }
            },
            None => {
                st.chats.push((*chat_id, Chat { queues: Vec::new() }));
                cidx = st.chats.len() - 1;
                proof {
                    assert(!assoc_has(s0, cid));
                    assert(st@ =~~= s0.push((cid, Seq::<(QueueId, QueueV)>::empty())));
                    lemma_assoc_idx_is(st@, cid, cidx as int);
                    assert(c0 =~= Seq::<(QueueId, QueueV)>::empty());
                }
            },
        }
        let ghost s1 = st@;
        proof {
            assert(assoc_idx(s1, cid) == cidx as int);
            assert(s1[cidx as int].1 == c0);
        }

        let mut centry = st.chats.remove(cidx);
        let ghost chats_rest = st@;
        proof {
            assert(chats_rest =~= s1.remove(cidx as int));
            assert(centry.1@ == c0);
        }

        // Locate the queue, creating it when absent.
        let qidx: usize;
        match find_queue_idx(&centry.1.queues, queue_id) {
            Some(j) => {
                qidx = j;
                proof {
                    lemma_assoc_idx_is(c0, qid, qidx as int);
                    assert(c0[qidx as int].1 == q0);
                }
            },
            None => {
                let fresh = Queue {
                    players: Vec::new(),
                    capacity,
                    timeout,
                    add_cmd,
                    kind: queue_id.kind(),
                };
                proof {
                    assert(fresh.players.deep_view() =~= Seq::<Seq<char>>::empty());
                    assert(fresh@ == fresh_queue(qid, fresh.add_cmd@, timeout, capacity as nat));
                }
                centry.1.queues.push((*queue_id, fresh));
                qidx = centry.1.queues.len() - 1;
                proof {
                    assert(!assoc_has(c0, qid));
                    assert(centry.1@ =~= c0.push((qid, q0)));
                    lemma_assoc_idx_is(centry.1@, qid, qidx as int);
                }
            },
        }
        let ghost c1pre = centry.1@;
        proof {
            assert(c1pre[qidx as int] == (qid, q0));
        }

        let mut qentry = centry.1.queues.remove(qidx);
        proof {
            assert(qentry.1@ == q0);
            assert(queue_wf(q0)) by {
                lemma_chat_of_wf(s0, cid);
                lemma_queue_of_wf(c0, qid);
            }
        }

        // Toggle the player.
        let op: AddRemovePlayerOp;
        match find_player_idx(&qentry.1.players, &username) {
            Some(p) => {
                proof {
                    assert(q0.players.contains(username@)) by {
                        assert(q0.players[p as int] == qentry.1.players@[p as int]@);
                    }
                    lemma_without_player_at(q0.players, username@, p as int);
                }
                qentry.1.players.remove(p);
                proof {
                    assert(qentry.1.players.deep_view() =~= q0.players.remove(p as int));
                }
                op = AddRemovePlayerOp::PlayerRemoved(username);
            },
            None => {
                proof {
                    assert(!q0.players.contains(username@)) by {
                        if q0.players.contains(username@) {
                            let w = choose|w: int|
                                0 <= w < q0.players.len() && q0.players[w] == username@;
                            assert(qentry.1.players@[w]@ == qentry.1.players.deep_view()[w]);
                        }
                    }
                }
                if qentry.1.players.len() < qentry.1.capacity {
                    qentry.1.players.push(clone_string(&username));
                    proof {
                        assert(qentry.1.players.deep_view() =~= q0.players.push(username@));
                    }
                }
                op = AddRemovePlayerOp::PlayerAdded(username);
            },
        }
        let ghost q1 = queue_after_toggle(q0, username@).0;
        proof {
            assert(qentry.1@ == q1);
        }

        // Classify on the queue as the operation left it.
        let qsnap = clone_queue(&qentry.1);
        let result = if qentry.1.players.len() == qentry.1.capacity {
            AddRemovePlayerResult::QueueFull(qsnap)
        } else if qentry.1.players.len() == 0 {
            AddRemovePlayerResult::QueueEmpty(qsnap)
        } else {
            AddRemovePlayerResult::PlayerQueued(qsnap)
        };

        // Reassemble the snapshot.
        centry.1.queues.insert(qidx, qentry);
        proof {
            assert(centry.1@ =~= c1pre.update(qidx as int, (qid, q1)));
            assert(assoc_set(c0, qid, q1) =~= c1pre.update(qidx as int, (qid, q1)));
        }
        st.chats.insert(cidx, centry);
        proof {
            let c1 = assoc_set(c0, qid, q1);
            assert(st@ =~= s1.update(cidx as int, (cid, c1)));
            assert(assoc_set(s0, cid, c1) =~= s1.update(cidx as int, (cid, c1)));
        }
        (st, result, op)
    }

    /// Remove and return the queue `queue_id` of chat `chat_id`; removing
    /// an absent queue is not an error and changes nothing, so the call is
    /// idempotent.
    pub fn rm_chat_queue(self, chat_id: &ChatId, queue_id: &QueueId) -> (r: (State, Option<Queue>))
        requires
            state_wf(self@),
        ensures
            r.0@ == spec_rm_chat_queue(self@, *chat_id, *queue_id).0,
            r.1 matches Some(q) ==> spec_rm_chat_queue(self@, *chat_id, *queue_id).1 == Some(q@),
            r.1 is None ==> spec_rm_chat_queue(self@, *chat_id, *queue_id).1 is None,
            state_wf(r.0@),
    {
        let ghost s0 = self@;
        let ghost cid = *chat_id;
        let ghost qid = *queue_id;
        proof {
            lemma_rm_chat_queue_wf(s0, cid, qid);
        }
        let mut st = self;
        let cidx = match find_chat_idx(&st.chats, chat_id) {
            Some(i) => i,
            None => {
                proof {
                    assert(!assoc_has(s0, cid));
                }
                return (st, None);
            },
        };
        proof {
            lemma_assoc_idx_is(s0, cid, cidx as int);
        }
        let ghost c0 = s0[cidx as int].1;
        let mut centry = st.chats.remove(cidx);
        proof {
            assert(centry.1@ == c0);
        }
        let qidx = match find_queue_idx(&centry.1.queues, queue_id) {
            Some(j) => j,
            None => {
                proof {
                    assert(!assoc_has(c0, qid));
                }
                st.chats.insert(cidx, centry);
                proof {
                    assert(st@ =~= s0);
                }
                return (st, None);
            },
        };
        proof {
            lemma_assoc_idx_is(c0, qid, qidx as int);
            lemma_assoc_remove_at(c0, qid, qidx as int);
        }
        let qentry = centry.1.queues.remove(qidx);
        proof {
            assert(centry.1@ =~= c0.remove(qidx as int));
            assert(qentry.1@ == c0[qidx as int].1);
        }
        st.chats.insert(cidx, centry);
        proof {
            assert(st@ =~= s0.update(cidx as int, (cid, assoc_remove(c0, qid))));
            assert(st@ == assoc_set(s0, cid, assoc_remove(c0, qid)));
        }
        (st, Some(qentry.1))
    }

    /// Remove `username` from every queue of chat `chat_id` that contains
    /// it; the affected queues come back in chat order, each as it stands
    /// after the removal.
    pub fn rm_player(self, chat_id: &ChatId, username: &String) -> (r: (
        State,
        Vec<(QueueId, Queue)>,
    ))
        requires
            state_wf(self@),
        ensures
            r.0@ == spec_rm_player(self@, *chat_id, username@).0,
            queue_pairs_view(r.1@) == spec_rm_player(self@, *chat_id, username@).1,
            state_wf(r.0@),
    {
        let ghost s0 = self@;
        let ghost cid = *chat_id;
        let ghost user = username@;
        proof {
            lemma_rm_player_wf(s0, cid, user);
        }
        let mut st = self;
        let cidx = match find_chat_idx(&st.chats, chat_id) {
            Some(i) => i,
            None => {
                proof {
                    assert(!assoc_has(s0, cid));
                    assert(queue_pairs_view(Seq::<(QueueId, Queue)>::empty()) =~= Seq::<(
                        QueueId,
                        QueueV,
                    )>::empty());
                }
                return (st, Vec::new());
            },
        };
        proof {
            lemma_assoc_idx_is(s0, cid, cidx as int);
            lemma_chat_of_wf(s0, cid);
        }
        let ghost c0 = s0[cidx as int].1;
        let centry = st.chats.remove(cidx);
        let mut qs = centry.1.queues;
        proof {
            assert(queue_pairs_view(qs@) == c0);
        }
        let ghost n = c0.len();
        let mut new_qs: Vec<(QueueId, Queue)> = Vec::new();
        let mut affected: Vec<(QueueId, Queue)> = Vec::new();
        proof {
            assert(c0.subrange(0, n as int) =~= c0);
            assert(queue_pairs_view(new_qs@) =~= chat_without_player(c0.subrange(0, 0), user))
                by {
                lemma_chat_without_player_empty(user);
                assert(c0.subrange(0, 0) =~= Seq::<(QueueId, QueueV)>::empty());
            }
            assert(queue_pairs_view(affected@) =~= affected_queues(c0.subrange(0, 0), user)) by {
                lemma_affected_queues_empty(user);
                assert(c0.subrange(0, 0) =~= Seq::<(QueueId, QueueV)>::empty());
            }
        }
        while qs.len() > 0
            invariant
                user == username@,
                chat_wf(c0),
                n == c0.len(),
                qs@.len() <= n,
                queue_pairs_view(qs@) =~= c0.subrange(n - qs@.len(), n as int),
                queue_pairs_view(new_qs@) =~= chat_without_player(
                    c0.subrange(0, n - qs@.len()),
                    user,
                ),
                queue_pairs_view(affected@) =~= affected_queues(c0.subrange(0, n - qs@.len()), user),
            decreases qs@.len(),
        {
            let ghost i = n - qs@.len();
            let ghost qs_before = qs@;
            let mut e = qs.remove(0);
            proof {
                assert(queue_pairs_view(qs_before)[0] == c0[i]) by {
                    assert(c0.subrange(i, n as int)[0] == c0[i]);
                }
                assert((e.0, e.1@) == c0[i]);
                assert(queue_pairs_view(qs@) =~= c0.subrange(i + 1, n as int)) by {
                    assert(qs@ =~= qs_before.remove(0));
                    assert forall|j: int| 0 <= j < qs@.len() implies queue_pairs_view(qs@)[j]
                        == c0.subrange(i + 1, n as int)[j] by {
                        assert(queue_pairs_view(qs_before)[j + 1] == c0.subrange(i, n as int)[j
                            + 1]);
                    }
                }
            }
            let ghost q_i = c0[i].1;
            proof {
                assert(e.1@ == q_i);
                assert(e.1.players.deep_view() == q_i.players);
                assert(queue_wf(q_i));
            }
            match find_player_idx(&e.1.players, username) {
                Some(p) => {
                    proof {
                        assert(q_i.players.contains(user)) by {
                            assert(q_i.players[p as int] == e.1.players@[p as int]@);
                        }
                        lemma_without_player_at(q_i.players, user, p as int);
                    }
                    e.1.players.remove(p);
                    proof {
                        assert(e.1.players.deep_view() =~= q_i.players.remove(p as int));
                        assert(e.1@ == queue_without_player(q_i, user));
                    }
                    affected.push((e.0, clone_queue(&e.1)));
                },
                None => {
                    proof {
                        assert(!q_i.players.contains(user)) by {
                            if q_i.players.contains(user) {
                                let w = choose|w: int|
                                    0 <= w < q_i.players.len() && q_i.players[w] == user;
                                assert(e.1.players@[w]@ == e.1.players.deep_view()[w]);
                            }
                        }
                        lemma_without_player_wf(q_i.players, user);
                        assert(e.1@ == queue_without_player(q_i, user));
                    }
                },
            }
            new_qs.push(e);
            proof {
                assert(c0.subrange(0, i + 1) =~= c0.subrange(0, i).push(c0[i]));
                lemma_step_views(c0.subrange(0, i), c0[i], user);
                assert(queue_pairs_view(new_qs@) =~= chat_without_player(
                    c0.subrange(0, i + 1),
                    user,
                ));
                assert(queue_pairs_view(affected@) =~= affected_queues(
                    c0.subrange(0, i + 1),
                    user,
                ));
            }
        }
        proof {
            assert(c0.subrange(0, n as int) =~= c0);
        }
        st.chats.insert(cidx, (centry.0, Chat { queues: new_qs }));
        proof {
            assert(centry.0 == cid);
            assert(st@ =~= s0.update(cidx as int, (cid, chat_without_player(c0, user))));
            assert(st@ == assoc_set(s0, cid, chat_without_player(c0, user)));
        }
        (st, affected)
    }
}

proof fn lemma_chat_without_player_empty(user: Seq<char>)
    ensures
        chat_without_player(Seq::<(QueueId, QueueV)>::empty(), user) == Seq::<(
            QueueId,
            QueueV,
        )>::empty(),
{
    assert(chat_without_player(Seq::<(QueueId, QueueV)>::empty(), user) =~= Seq::<(
        QueueId,
        QueueV,
    )>::empty());
}

proof fn lemma_affected_queues_empty(user: Seq<char>)
    ensures
        affected_queues(Seq::<(QueueId, QueueV)>::empty(), user) == Seq::<(QueueId, QueueV)>::empty(),
{
    reveal(Seq::filter);
    assert(affected_queues(Seq::<(QueueId, QueueV)>::empty(), user) =~= Seq::<(
        QueueId,
        QueueV,
    )>::empty());
}

/// Extending the processed prefix by one entry extends both outputs of the
/// per-chat removal accordingly.
proof fn lemma_step_views(pre: ChatV, e: (QueueId, QueueV), user: Seq<char>)
    ensures
        chat_without_player(pre.push(e), user) == chat_without_player(pre, user).push(
            (e.0, queue_without_player(e.1, user)),
        ),
        affected_queues(pre.push(e), user) == if e.1.players.contains(user) {
            affected_queues(pre, user).push((e.0, queue_without_player(e.1, user)))
        } else {
            affected_queues(pre, user)
        },
{
    reveal(Seq::filter);
    let ext = pre.push(e);
    assert(ext.drop_last() =~= pre);
    assert(ext.last() == e);
    assert(chat_without_player(ext, user) =~= chat_without_player(pre, user).push(
        (e.0, queue_without_player(e.1, user)),
    ));
    let pred = has_user(user);
    if pred(e) {
        assert(ext.filter(pred) == pre.filter(pred).push(e));
        assert(affected_queues(ext, user) =~= affected_queues(pre, user).push(
            (e.0, queue_without_player(e.1, user)),
        ));
    } else {
        assert(ext.filter(pred) == pre.filter(pred));
        assert(affected_queues(ext, user) =~= affected_queues(pre, user));
    }
}

} // verus!
