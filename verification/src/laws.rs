//! Laws the store obeys across calls, stated over the specification-level
//! transitions that the executable methods are proved to implement.

use vstd::prelude::*;

verus! {

use crate::MINUTES_PER_DAY;
use crate::assoc::{assoc_get, lemma_assoc_remove, lemma_assoc_set_get};
use crate::store::{
    AddRemovePlayerOpV, AddRemovePlayerResultV, chat_or_empty, lemma_add_remove_player_wf,
    lemma_chat_of_wf, lemma_queue_after_toggle_wf, lemma_queue_of_wf, lemma_without_player_at,
    lemma_without_player_wf, queue_after_toggle, queue_or_fresh, spec_add_remove_player,
    spec_rm_chat_queue,
};
use crate::types::{ChatId, QueueId, StateV, queue_id_wf, queue_wf, state_wf};

/// Toggle correctness: for a user not in the queue and a queue below
/// capacity, the first call appends the user, an immediate second call
/// removes them and restores the other players' membership and order, and
/// a third call appends them again.
pub proof fn lemma_toggle_round_trip(
    s: StateV,
    cid: ChatId,
    qid: QueueId,
    add_cmd: Seq<char>,
    timeout: u16,
    capacity: nat,
    user: Seq<char>,
)
    requires
        state_wf(s),
        queue_id_wf(qid),
        timeout < MINUTES_PER_DAY,
        1 <= capacity,
        !queue_or_fresh(chat_or_empty(s, cid), qid, add_cmd, timeout, capacity).players.contains(
            user,
        ),
        queue_or_fresh(chat_or_empty(s, cid), qid, add_cmd, timeout, capacity).players.len()
            < queue_or_fresh(chat_or_empty(s, cid), qid, add_cmd, timeout, capacity).capacity,
    ensures
        ({
            let q0 = queue_or_fresh(chat_or_empty(s, cid), qid, add_cmd, timeout, capacity);
            let r1 = spec_add_remove_player(s, cid, qid, add_cmd, timeout, capacity, user);
            let r2 = spec_add_remove_player(r1.0, cid, qid, add_cmd, timeout, capacity, user);
            let r3 = spec_add_remove_player(r2.0, cid, qid, add_cmd, timeout, capacity, user);
            let q1 = queue_or_fresh(chat_or_empty(r1.0, cid), qid, add_cmd, timeout, capacity);
            let q2 = queue_or_fresh(chat_or_empty(r2.0, cid), qid, add_cmd, timeout, capacity);
            let q3 = queue_or_fresh(chat_or_empty(r3.0, cid), qid, add_cmd, timeout, capacity);
            &&& r1.2 == AddRemovePlayerOpV::PlayerAdded(user)
            &&& q1.players == q0.players.push(user)
            &&& r2.2 == AddRemovePlayerOpV::PlayerRemoved(user)
            &&& q2.players == q0.players
            &&& r3.2 == AddRemovePlayerOpV::PlayerAdded(user)
            &&& q3.players == q0.players.push(user)
        }),
{
    let c0 = chat_or_empty(s, cid);
    let q0 = queue_or_fresh(c0, qid, add_cmd, timeout, capacity);
    lemma_chat_of_wf(s, cid);
    lemma_queue_of_wf(c0, qid);
    assert(queue_wf(q0));
    lemma_queue_after_toggle_wf(q0, user);
    let q1 = queue_after_toggle(q0, user).0;
    assert(q1.players == q0.players.push(user));

    let r1 = spec_add_remove_player(s, cid, qid, add_cmd, timeout, capacity, user);
    lemma_add_remove_player_wf(s, cid, qid, add_cmd, timeout, capacity, user);
    let c1 = crate::assoc::assoc_set(c0, qid, q1);
    lemma_assoc_set_get(c0, qid, q1);
    lemma_assoc_set_get(s, cid, c1);
    assert(chat_or_empty(r1.0, cid) == c1);
    assert(queue_or_fresh(c1, qid, add_cmd, timeout, capacity) == q1);

    // Second call: the user sits at the end of q1; removal restores q0.
    assert(q1.players.contains(user)) by {
        assert(q1.players[q0.players.len() as int] == user);
    }
    lemma_without_player_at(q1.players, user, q0.players.len() as int);
    assert(q1.players.remove(q0.players.len() as int) =~= q0.players);
    let q2 = queue_after_toggle(q1, user).0;
    assert(q2.players == q0.players);

    let r2 = spec_add_remove_player(r1.0, cid, qid, add_cmd, timeout, capacity, user);
    lemma_add_remove_player_wf(r1.0, cid, qid, add_cmd, timeout, capacity, user);
    let c2 = crate::assoc::assoc_set(c1, qid, q2);
    lemma_chat_of_wf(r1.0, cid);
    lemma_assoc_set_get(c1, qid, q2);
    lemma_assoc_set_get(r1.0, cid, c2);
    assert(chat_or_empty(r2.0, cid) == c2);
    assert(queue_or_fresh(c2, qid, add_cmd, timeout, capacity) == q2);

    // Third call: the user is out again and the queue is below capacity.
    let q3 = queue_after_toggle(q2, user).0;
    assert(q3.players == q0.players.push(user));
    let r3 = spec_add_remove_player(r2.0, cid, qid, add_cmd, timeout, capacity, user);
    let c3 = crate::assoc::assoc_set(c2, qid, q3);
    lemma_chat_of_wf(r2.0, cid);
    lemma_assoc_set_get(c2, qid, q3);
    lemma_assoc_set_get(r2.0, cid, c3);
    assert(chat_or_empty(r3.0, cid) == c3);
    assert(queue_or_fresh(c3, qid, add_cmd, timeout, capacity) == q3);
}

/// Full/empty classification: the result names the queue exactly as the
/// operation left it in the new state, and it is `QueueFull` iff that
/// snapshot sits at capacity, `QueueEmpty` iff it is empty, and
/// `PlayerQueued` otherwise.
pub proof fn lemma_result_classification(
    s: StateV,
    cid: ChatId,
    qid: QueueId,
    add_cmd: Seq<char>,
    timeout: u16,
    capacity: nat,
    user: Seq<char>,
)
    requires
        state_wf(s),
        queue_id_wf(qid),
        timeout < MINUTES_PER_DAY,
        1 <= capacity,
    ensures
        ({
            let r = spec_add_remove_player(s, cid, qid, add_cmd, timeout, capacity, user);
            let q1 = queue_after_toggle(
                queue_or_fresh(chat_or_empty(s, cid), qid, add_cmd, timeout, capacity),
                user,
            ).0;
            &&& assoc_get(chat_or_empty(r.0, cid), qid) == Some(q1)
            &&& (r.1 matches AddRemovePlayerResultV::QueueFull(q) ==> q == q1 && q.players.len()
                == q.capacity)
            &&& (r.1 matches AddRemovePlayerResultV::QueueEmpty(q) ==> q == q1 && q.players.len()
                == 0)
            &&& (r.1 matches AddRemovePlayerResultV::PlayerQueued(q) ==> q == q1 && 0
                < q.players.len() < q.capacity)
            &&& (r.1 is QueueFull <==> q1.players.len() == q1.capacity)
            &&& (r.1 is QueueEmpty <==> q1.players.len() == 0 && q1.players.len() != q1.capacity)
        }),
{
    let c0 = chat_or_empty(s, cid);
    let q0 = queue_or_fresh(c0, qid, add_cmd, timeout, capacity);
    let q1 = queue_after_toggle(q0, user).0;
    let c1 = crate::assoc::assoc_set(c0, qid, q1);
    lemma_chat_of_wf(s, cid);
    lemma_assoc_set_get(c0, qid, q1);
    lemma_assoc_set_get(s, cid, c1);
}

/// Idempotent removal: removing the same queue twice hands the queue back
/// the first time, reports absence the second time, and the second call
/// changes nothing.
pub proof fn lemma_rm_chat_queue_idempotent(s: StateV, cid: ChatId, qid: QueueId)
    requires
        state_wf(s),
    ensures
        ({
            let r1 = spec_rm_chat_queue(s, cid, qid);
            let r2 = spec_rm_chat_queue(r1.0, cid, qid);
            &&& r2.1 is None
            &&& r2.0 == r1.0
            &&& (r1.1 is Some <==> (assoc_get(s, cid) matches Some(c) && assoc_get(c, qid)
                is Some))
        }),
{
    let r1 = spec_rm_chat_queue(s, cid, qid);
    if crate::assoc::assoc_has(s, cid) {
        let c = assoc_get(s, cid).unwrap();
        if crate::assoc::assoc_has(c, qid) {
            let c1 = crate::assoc::assoc_remove(c, qid);
            lemma_chat_of_wf(s, cid);
            lemma_assoc_remove(c, qid);
            lemma_assoc_set_get(s, cid, c1);
            assert(assoc_get(r1.0, cid) == Some(c1));
            assert(assoc_get(c1, qid) is None);
        }
    }
}

} // verus!
