//! The persisted record: a binary codec for a whole [`State`] snapshot.
//! Integers are little endian, strings are length-prefixed UTF-8, and
//! sequences are count-prefixed. Decoding inverts encoding exactly, so a
//! snapshot survives a save/load cycle element for element.

use vstd::prelude::*;

verus! {

use crate::types::{
    Chat, ChatId, ChatV, Queue, QueueId, QueueKind, QueueV, State, StateV, chat_pairs_view,
    queue_pairs_view, state_wf,
};
use vstd::utf8::{decode_utf8, encode_utf8, valid_utf8};

pub open spec fn enc_u16(v: u16) -> Seq<u8> {
    seq![(v & 0xff) as u8, ((v >> 8) & 0xff) as u8]
}

pub open spec fn dec_u16_val(b: Seq<u8>) -> u16
    recommends
        b.len() == 2,
{
    (b[0] as u16) | ((b[1] as u16) << 8)
}

pub proof fn lemma_u16_round(v: u16)
    ensures
        dec_u16_val(enc_u16(v)) == v,
{
    assert((((v & 0xff) as u8) as u16) | (((((v >> 8) & 0xff) as u8) as u16) << 8) == v)
        by (bit_vector);
}

pub open spec fn enc_u64(v: u64) -> Seq<u8> {
    seq![
        (v & 0xff) as u8,
        ((v >> 8) & 0xff) as u8,
        ((v >> 16) & 0xff) as u8,
        ((v >> 24) & 0xff) as u8,
        ((v >> 32) & 0xff) as u8,
        ((v >> 40) & 0xff) as u8,
        ((v >> 48) & 0xff) as u8,
        ((v >> 56) & 0xff) as u8,
    ]
}

pub open spec fn dec_u64_val(b: Seq<u8>) -> u64
    recommends
        b.len() == 8,
{
    (b[0] as u64) | ((b[1] as u64) << 8) | ((b[2] as u64) << 16) | ((b[3] as u64) << 24) | ((
    b[4] as u64) << 32) | ((b[5] as u64) << 40) | ((b[6] as u64) << 48) | ((b[7] as u64) << 56)
}

pub proof fn lemma_u64_round(v: u64)
    ensures
        dec_u64_val(enc_u64(v)) == v,
{
    assert((((v & 0xff) as u8) as u64) | (((((v >> 8) & 0xff) as u8) as u64) << 8) | (((((v >> 16)
        & 0xff) as u8) as u64) << 16) | (((((v >> 24) & 0xff) as u8) as u64) << 24) | (((((v >> 32)
        & 0xff) as u8) as u64) << 32) | (((((v >> 40) & 0xff) as u8) as u64) << 40) | (((((v >> 48)
        & 0xff) as u8) as u64) << 48) | (((((v >> 56) & 0xff) as u8) as u64) << 56) == v)
        by (bit_vector);
}

pub proof fn lemma_i64_cast_round(v: i64)
    ensures
        ((v as u64) as i64) == v,
{
    assert(((v as u64) as i64) == v) by (bit_vector);
}

/// Decoders walk a byte sequence from a position; each returns the decoded
/// value and the position after it, or nothing when the bytes do not parse.
pub open spec fn dec_u16(b: Seq<u8>, pos: int) -> Option<(u16, int)> {
    if 0 <= pos && pos + 2 <= b.len() {
        Some((dec_u16_val(b.subrange(pos, pos + 2)), pos + 2))
    } else {
        None
    }
}

pub open spec fn dec_u64(b: Seq<u8>, pos: int) -> Option<(u64, int)> {
    if 0 <= pos && pos + 8 <= b.len() {
        Some((dec_u64_val(b.subrange(pos, pos + 8)), pos + 8))
    } else {
        None
    }
}

pub open spec fn dec_byte(b: Seq<u8>, pos: int) -> Option<(u8, int)> {
    if 0 <= pos && pos + 1 <= b.len() {
        Some((b[pos], pos + 1))
    } else {
        None
    }
}

/// Encodable at all: the length prefix must hold the UTF-8 length.
pub open spec fn string_fits(s: Seq<char>) -> bool {
    encode_utf8(s).len() <= u64::MAX
}

pub open spec fn enc_string(s: Seq<char>) -> Seq<u8> {
    enc_u64(encode_utf8(s).len() as u64) + encode_utf8(s)
}

pub open spec fn dec_string(b: Seq<u8>, pos: int) -> Option<(Seq<char>, int)> {
    match dec_u64(b, pos) {
        None => None,
        Some((n, p)) => {
            if n <= b.len() - p {
                let bs = b.subrange(p, p + n as int);
                if valid_utf8(bs) {
                    Some((decode_utf8(bs), p + n as int))
                } else {
                    None
                }
            } else {
                None
            }
        },
    }
}

pub proof fn lemma_dec_u16(b: Seq<u8>, pos: int, v: u16)
    requires
        0 <= pos,
        pos + 2 <= b.len(),
        b.subrange(pos, pos + 2) == enc_u16(v),
    ensures
        dec_u16(b, pos) == Some((v, pos + 2)),
{
    lemma_u16_round(v);
}

pub proof fn lemma_dec_u64(b: Seq<u8>, pos: int, v: u64)
    requires
        0 <= pos,
        pos + 8 <= b.len(),
        b.subrange(pos, pos + 8) == enc_u64(v),
    ensures
        dec_u64(b, pos) == Some((v, pos + 8)),
{
    lemma_u64_round(v);
}

pub proof fn lemma_dec_byte(b: Seq<u8>, pos: int, v: u8)
    requires
        0 <= pos,
        pos + 1 <= b.len(),
        b.subrange(pos, pos + 1) == seq![v],
    ensures
        dec_byte(b, pos) == Some((v, pos + 1)),
{
    assert(b[pos] == b.subrange(pos, pos + 1)[0]);
}

/// A string whose encoding sits at `pos` parses back to itself: the length
/// is the UTF-8 length, and decoding the encoded characters restores them.
pub proof fn lemma_dec_string(b: Seq<u8>, pos: int, s: Seq<char>)
    requires
        string_fits(s),
        0 <= pos,
        pos + enc_string(s).len() <= b.len(),
        b.subrange(pos, pos + enc_string(s).len()) == enc_string(s),
    ensures
        dec_string(b, pos) == Some((s, pos + enc_string(s).len())),
{
    broadcast use vstd::utf8::encode_utf8_valid_utf8, vstd::utf8::encode_utf8_decode_utf8;

    let u = encode_utf8(s);
    let n = u.len() as u64;
    let e = enc_string(s);
    assert(e == enc_u64(n) + u);
    assert(b.subrange(pos, pos + 8) == enc_u64(n)) by {
        assert(b.subrange(pos, pos + 8) =~= e.subrange(0, 8)) by {
            assert(forall|k: int|
                0 <= k < e.len() ==> #[trigger] e[k] == b.subrange(pos, pos + e.len() as int)[k]);
        }
        assert(e.subrange(0, 8) =~= enc_u64(n));
    }
    lemma_dec_u64(b, pos, n);
    let p = pos + 8;
    assert(n <= b.len() - p);
    assert forall|k: int| 0 <= k < n implies b.subrange(p, p + n as int)[k] == u[k] by {
        assert(b.subrange(pos, pos + e.len() as int)[8 + k] == e[8 + k]);
        assert(e[8 + k] == u[k]);
    }
    assert(b.subrange(p, p + n as int) =~= u);
    assert(valid_utf8(u));
    assert(decode_utf8(u) == s);
}

/// A segment of bytes known to equal `e` has `e`'s sub-segments.
pub proof fn lemma_sub_segment(b: Seq<u8>, pos: int, e: Seq<u8>, off: int, l: int)
    requires
        0 <= pos,
        pos + e.len() <= b.len(),
        b.subrange(pos, pos + e.len()) == e,
        0 <= off,
        0 <= l,
        off + l <= e.len(),
    ensures
        b.subrange(pos + off, pos + off + l) == e.subrange(off, off + l),
{
    assert forall|k: int| 0 <= k < l implies b.subrange(pos + off, pos + off + l)[k] == #[trigger] (
    e.subrange(off, off + l)[k]) by {
        assert(b.subrange(pos, pos + e.len() as int)[off + k] == e[off + k]);
    }
    assert(b.subrange(pos + off, pos + off + l) =~= e.subrange(off, off + l));
}

pub open spec fn enc_queue_id(qid: QueueId) -> Seq<u8> {
    match qid {
        QueueId::Instant => seq![0u8],
        QueueId::Timed { minute_of_day } => seq![1u8] + enc_u16(minute_of_day),
    }
}

pub open spec fn dec_queue_id(b: Seq<u8>, pos: int) -> Option<(QueueId, int)> {
    match dec_byte(b, pos) {
        None => None,
        Some((tag, p)) => {
            if tag == 0 {
                Some((QueueId::Instant, p))
            } else if tag == 1 {
                match dec_u16(b, p) {
                    None => None,
                    Some((m, p2)) => Some((QueueId::Timed { minute_of_day: m }, p2)),
                }
            } else {
                None
            }
        },
    }
}

pub open spec fn enc_kind(k: QueueKind) -> Seq<u8> {
    match k {
        QueueKind::Instant => seq![0u8],
        QueueKind::Timed => seq![1u8],
    }
}

pub open spec fn dec_kind(b: Seq<u8>, pos: int) -> Option<(QueueKind, int)> {
    match dec_byte(b, pos) {
        None => None,
        Some((tag, p)) => {
            if tag == 0 {
                Some((QueueKind::Instant, p))
            } else if tag == 1 {
                Some((QueueKind::Timed, p))
            } else {
                None
            }
        },
    }
}

pub open spec fn enc_players(ps: Seq<Seq<char>>) -> Seq<u8>
    decreases ps.len(),
{
    if ps.len() == 0 {
        Seq::empty()
    } else {
        enc_string(ps[0]) + enc_players(ps.drop_first())
    }
}

pub open spec fn dec_players(b: Seq<u8>, pos: int, k: int) -> Option<(Seq<Seq<char>>, int)>
    decreases k,
{
    if k <= 0 {
        Some((Seq::empty(), pos))
    } else {
        match dec_string(b, pos) {
            None => None,
            Some((s, p)) => match dec_players(b, p, k - 1) {
                None => None,
                Some((rest, p2)) => Some((seq![s] + rest, p2)),
            },
        }
    }
}

pub open spec fn players_fit(ps: Seq<Seq<char>>) -> bool {
    &&& ps.len() <= u64::MAX
    &&& forall|i: int| 0 <= i < ps.len() ==> string_fits(#[trigger] ps[i])
}

pub open spec fn queue_fits(q: QueueV) -> bool {
    &&& players_fit(q.players)
    &&& q.capacity <= usize::MAX
    &&& string_fits(q.add_cmd)
}

pub open spec fn enc_queue(q: QueueV) -> Seq<u8> {
    enc_u64(q.players.len() as u64) + enc_players(q.players) + enc_u64(q.capacity as u64) + enc_u16(
        q.timeout,
    ) + enc_string(q.add_cmd) + enc_kind(q.kind)
}

pub open spec fn dec_queue(b: Seq<u8>, pos: int) -> Option<(QueueV, int)> {
    match dec_u64(b, pos) {
        None => None,
        Some((n, p0)) => match dec_players(b, p0, n as int) {
            None => None,
            Some((ps, p1)) => match dec_u64(b, p1) {
                None => None,
                Some((cap, p2)) => {
                    if cap <= usize::MAX as u64 {
                        match dec_u16(b, p2) {
                            None => None,
                            Some((timeout, p3)) => match dec_string(b, p3) {
                                None => None,
                                Some((add_cmd, p4)) => match dec_kind(b, p4) {
                                    None => None,
                                    Some((kind, p5)) => Some(
                                        (
                                            QueueV {
                                                players: ps,
                                                capacity: cap as nat,
                                                timeout,
                                                add_cmd,
                                                kind,
                                            },
                                            p5,
                                        ),
                                    ),
                                },
                            },
                        }
                    } else {
                        None
                    }
                },
            },
        },
    }
}

pub open spec fn chat_fits(c: ChatV) -> bool {
    &&& c.len() <= u64::MAX
    &&& forall|i: int| 0 <= i < c.len() ==> queue_fits((#[trigger] c[i]).1)
}

pub open spec fn enc_centries(c: ChatV) -> Seq<u8>
    decreases c.len(),
{
    if c.len() == 0 {
        Seq::empty()
    } else {
        enc_queue_id(c[0].0) + enc_queue(c[0].1) + enc_centries(c.drop_first())
    }
}

pub open spec fn dec_centries(b: Seq<u8>, pos: int, k: int) -> Option<(ChatV, int)>
    decreases k,
{
    if k <= 0 {
        Some((Seq::empty(), pos))
    } else {
        match dec_queue_id(b, pos) {
            None => None,
            Some((qid, p)) => match dec_queue(b, p) {
                None => None,
                Some((q, p1)) => match dec_centries(b, p1, k - 1) {
                    None => None,
                    Some((rest, p2)) => Some((seq![(qid, q)] + rest, p2)),
                },
            },
        }
    }
}

pub open spec fn enc_chat(c: ChatV) -> Seq<u8> {
    enc_u64(c.len() as u64) + enc_centries(c)
}

pub open spec fn dec_chat(b: Seq<u8>, pos: int) -> Option<(ChatV, int)> {
    match dec_u64(b, pos) {
        None => None,
        Some((n, p)) => dec_centries(b, p, n as int),
    }
}

pub open spec fn state_fits(s: StateV) -> bool {
    &&& s.len() <= u64::MAX
    &&& forall|i: int| 0 <= i < s.len() ==> chat_fits((#[trigger] s[i]).1)
}

pub open spec fn enc_sentries(s: StateV) -> Seq<u8>
    decreases s.len(),
{
    if s.len() == 0 {
        Seq::empty()
    } else {
        enc_u64(s[0].0.id as u64) + enc_chat(s[0].1) + enc_sentries(s.drop_first())
    }
}

pub open spec fn dec_sentries(b: Seq<u8>, pos: int, k: int) -> Option<(StateV, int)>
    decreases k,
{
    if k <= 0 {
        Some((Seq::empty(), pos))
    } else {
        match dec_u64(b, pos) {
            None => None,
            Some((id, p)) => match dec_chat(b, p) {
                None => None,
                Some((c, p1)) => match dec_sentries(b, p1, k - 1) {
                    None => None,
                    Some((rest, p2)) => Some(
                        (seq![(ChatId { id: id as i64 }, c)] + rest, p2),
                    ),
                },
            },
        }
    }
}

/// The persisted record of a whole snapshot.
pub open spec fn enc_state(s: StateV) -> Seq<u8> {
    enc_u64(s.len() as u64) + enc_sentries(s)
}

/// Parsing the persisted record: the whole input must be consumed.
pub open spec fn dec_state(b: Seq<u8>) -> Option<StateV> {
    match dec_u64(b, 0) {
        None => None,
        Some((n, p)) => match dec_sentries(b, p, n as int) {
            None => None,
            Some((s, p1)) => if p1 == b.len() {
                Some(s)
            } else {
                None
            },
        },
    }
}

pub proof fn lemma_dec_queue_id(b: Seq<u8>, pos: int, qid: QueueId)
    requires
        0 <= pos,
        pos + enc_queue_id(qid).len() <= b.len(),
        b.subrange(pos, pos + enc_queue_id(qid).len()) == enc_queue_id(qid),
    ensures
        dec_queue_id(b, pos) == Some((qid, pos + enc_queue_id(qid).len())),
{
    let e = enc_queue_id(qid);
    match qid {
        QueueId::Instant => {
            lemma_dec_byte(b, pos, 0u8);
        },
        QueueId::Timed { minute_of_day } => {
            lemma_sub_segment(b, pos, e, 0, 1);
            assert(e.subrange(0, 1) =~= seq![1u8]);
            lemma_dec_byte(b, pos, 1u8);
            lemma_sub_segment(b, pos, e, 1, 2);
            assert(e.subrange(1, 3) =~= enc_u16(minute_of_day));
            lemma_dec_u16(b, pos + 1, minute_of_day);
        },
    }
}

pub proof fn lemma_dec_kind(b: Seq<u8>, pos: int, k: QueueKind)
    requires
        0 <= pos,
        pos + 1 <= b.len(),
        b.subrange(pos, pos + 1) == enc_kind(k),
    ensures
        dec_kind(b, pos) == Some((k, pos + 1)),
{
    match k {
        QueueKind::Instant => {
            lemma_dec_byte(b, pos, 0u8);
        },
        QueueKind::Timed => {
            lemma_dec_byte(b, pos, 1u8);
        },
    }
}

pub proof fn lemma_dec_players(b: Seq<u8>, pos: int, ps: Seq<Seq<char>>)
    requires
        players_fit(ps),
        0 <= pos,
        pos + enc_players(ps).len() <= b.len(),
        b.subrange(pos, pos + enc_players(ps).len()) == enc_players(ps),
    ensures
        dec_players(b, pos, ps.len() as int) == Some((ps, pos + enc_players(ps).len())),
    decreases ps.len(),
{
    let e = enc_players(ps);
    if ps.len() == 0 {
        assert(ps =~= Seq::<Seq<char>>::empty());
    } else {
        let e0 = enc_string(ps[0]);
        let rest = ps.drop_first();
        let er = enc_players(rest);
        assert(e == e0 + er);
        lemma_sub_segment(b, pos, e, 0, e0.len() as int);
        assert(e.subrange(0, e0.len() as int) =~= e0);
        lemma_dec_string(b, pos, ps[0]);
        lemma_sub_segment(b, pos, e, e0.len() as int, er.len() as int);
        assert(e.subrange(e0.len() as int, e.len() as int) =~= er);
        assert(players_fit(rest)) by {
            assert(forall|i: int| 0 <= i < rest.len() ==> rest[i] == ps[i + 1]);
        }
        lemma_dec_players(b, pos + e0.len(), rest);
        assert(seq![ps[0]] + rest =~= ps);
    }
}

pub proof fn lemma_dec_queue(b: Seq<u8>, pos: int, q: QueueV)
    requires
        queue_fits(q),
        0 <= pos,
        pos + enc_queue(q).len() <= b.len(),
        b.subrange(pos, pos + enc_queue(q).len()) == enc_queue(q),
    ensures
        dec_queue(b, pos) == Some((q, pos + enc_queue(q).len())),
{
    let e = enc_queue(q);
    let e1 = enc_u64(q.players.len() as u64);
    let e2 = enc_players(q.players);
    let e3 = enc_u64(q.capacity as u64);
    let e4 = enc_u16(q.timeout);
    let e5 = enc_string(q.add_cmd);
    let e6 = enc_kind(q.kind);
    assert(e == e1 + e2 + e3 + e4 + e5 + e6);
    let o1 = e1.len() as int;
    let o2 = o1 + e2.len();
    let o3 = o2 + e3.len();
    let o4 = o3 + e4.len();
    let o5 = o4 + e5.len();
    let o6 = o5 + e6.len();
    lemma_sub_segment(b, pos, e, 0, o1);
    assert(e.subrange(0, o1) =~= e1);
    lemma_dec_u64(b, pos, q.players.len() as u64);
    lemma_sub_segment(b, pos, e, o1, e2.len() as int);
    assert(e.subrange(o1, o2) =~= e2);
    lemma_dec_players(b, pos + o1, q.players);
    lemma_sub_segment(b, pos, e, o2, e3.len() as int);
    assert(e.subrange(o2, o3) =~= e3);
    lemma_dec_u64(b, pos + o2, q.capacity as u64);
    lemma_sub_segment(b, pos, e, o3, e4.len() as int);
    assert(e.subrange(o3, o4) =~= e4);
    lemma_dec_u16(b, pos + o3, q.timeout);
    lemma_sub_segment(b, pos, e, o4, e5.len() as int);
    assert(e.subrange(o4, o5) =~= e5);
    lemma_dec_string(b, pos + o4, q.add_cmd);
    lemma_sub_segment(b, pos, e, o5, e6.len() as int);
    assert(e.subrange(o5, o6) =~= e6);
    lemma_dec_kind(b, pos + o5, q.kind);
}

pub proof fn lemma_dec_centries(b: Seq<u8>, pos: int, c: ChatV)
    requires
        chat_fits(c),
        0 <= pos,
        pos + enc_centries(c).len() <= b.len(),
        b.subrange(pos, pos + enc_centries(c).len()) == enc_centries(c),
    ensures
        dec_centries(b, pos, c.len() as int) == Some((c, pos + enc_centries(c).len())),
    decreases c.len(),
{
    let e = enc_centries(c);
    if c.len() == 0 {
        assert(c =~= Seq::<(QueueId, QueueV)>::empty());
    } else {
        let e0 = enc_queue_id(c[0].0);
        let e1 = enc_queue(c[0].1);
        let rest = c.drop_first();
        let er = enc_centries(rest);
        assert(e == e0 + e1 + er);
        lemma_sub_segment(b, pos, e, 0, e0.len() as int);
        assert(e.subrange(0, e0.len() as int) =~= e0);
        lemma_dec_queue_id(b, pos, c[0].0);
        lemma_sub_segment(b, pos, e, e0.len() as int, e1.len() as int);
        assert(e.subrange(e0.len() as int, (e0.len() + e1.len()) as int) =~= e1);
        assert(queue_fits(c[0].1));
        lemma_dec_queue(b, pos + e0.len(), c[0].1);
        lemma_sub_segment(b, pos, e, (e0.len() + e1.len()) as int, er.len() as int);
        assert(e.subrange((e0.len() + e1.len()) as int, e.len() as int) =~= er);
        assert(chat_fits(rest)) by {
            assert(forall|i: int| 0 <= i < rest.len() ==> rest[i] == c[i + 1]);
        }
        lemma_dec_centries(b, pos + e0.len() + e1.len(), rest);
        assert(seq![(c[0].0, c[0].1)] + rest =~= c);
    }
}

#[verifier::rlimit(60)]
pub proof fn lemma_dec_sentries(b: Seq<u8>, pos: int, s: StateV)
    requires
        state_fits(s),
        0 <= pos,
        pos + enc_sentries(s).len() <= b.len(),
        b.subrange(pos, pos + enc_sentries(s).len()) == enc_sentries(s),
    ensures
        dec_sentries(b, pos, s.len() as int) == Some((s, pos + enc_sentries(s).len())),
    decreases s.len(),
{
    let e = enc_sentries(s);
    if s.len() == 0 {
        assert(s =~= Seq::<(ChatId, ChatV)>::empty());
    } else {
        let e0 = enc_u64(s[0].0.id as u64);
        let e1 = enc_u64(s[0].1.len() as u64);
        let e2 = enc_centries(s[0].1);
        let rest = s.drop_first();
        let er = enc_sentries(rest);
        assert(e == e0 + (e1 + e2) + er);
        lemma_sub_segment(b, pos, e, 0, e0.len() as int);
        assert(e.subrange(0, e0.len() as int) =~= e0);
        lemma_dec_u64(b, pos, s[0].0.id as u64);
        lemma_i64_cast_round(s[0].0.id);
        assert(chat_fits(s[0].1));
        lemma_sub_segment(b, pos, e, e0.len() as int, e1.len() as int);
        assert(e.subrange(e0.len() as int, (e0.len() + e1.len()) as int) =~= e1);
        lemma_dec_u64(b, pos + e0.len(), s[0].1.len() as u64);
        lemma_sub_segment(b, pos, e, (e0.len() + e1.len()) as int, e2.len() as int);
        assert(e.subrange((e0.len() + e1.len()) as int, (e0.len() + e1.len() + e2.len()) as int) =~= e2);
        lemma_dec_centries(b, pos + e0.len() + e1.len(), s[0].1);
        lemma_sub_segment(b, pos, e, (e0.len() + e1.len() + e2.len()) as int, er.len() as int);
        assert(e.subrange((e0.len() + e1.len() + e2.len()) as int, e.len() as int) =~= er);
        assert(state_fits(rest)) by {
            assert(forall|i: int| 0 <= i < rest.len() ==> rest[i] == s[i + 1]);
        }
        lemma_dec_sentries(b, pos + e0.len() + e1.len() + e2.len(), rest);
        assert(seq![(ChatId { id: s[0].0.id }, s[0].1)] + rest =~= s) by {
            assert(ChatId { id: s[0].0.id } == s[0].0);
        }
    }
}

/// Round-trip persistence: parsing the record written for a snapshot gives
/// the snapshot back, chats, queues, player order, timeouts and command
/// tokens alike.
pub proof fn lemma_state_round_trip(s: StateV)
    requires
        state_fits(s),
    ensures
        dec_state(enc_state(s)) == Some(s),
{
    let b = enc_state(s);
    let e0 = enc_u64(s.len() as u64);
    let er = enc_sentries(s);
    assert(b == e0 + er);
    assert(b.subrange(0, b.len() as int) =~= b);
    lemma_sub_segment(b, 0, b, 0, 8);
    assert(b.subrange(0, 8) =~= e0);
    lemma_dec_u64(b, 0, s.len() as u64);
    lemma_sub_segment(b, 0, b, 8, er.len() as int);
    assert(b.subrange(8, b.len() as int) =~= er);
    lemma_dec_sentries(b, 8, s);
}

/// Relies on String::from_utf8: it succeeds exactly on valid UTF-8 and
/// returns the string whose UTF-8 encoding is the input.
#[verifier::external_body]
fn string_from_utf8(bytes: Vec<u8>) -> (r: Option<String>)
    ensures
        r matches Some(s) ==> encode_utf8(s@) == bytes@,
        r is Some <==> valid_utf8(bytes@),
{
    String::from_utf8(bytes).ok()
}

fn put_byte(out: &mut Vec<u8>, v: u8)
    ensures
        final(out)@ == old(out)@ + seq![v],
{
    out.push(v);
    proof {
        assert(out@ =~= old(out)@ + seq![v]);
    }
}

fn put_u16(out: &mut Vec<u8>, v: u16)
    ensures
        final(out)@ == old(out)@ + enc_u16(v),
{
    out.push((v & 0xff) as u8);
    out.push(((v >> 8) & 0xff) as u8);
    proof {
        assert(out@ =~= old(out)@ + enc_u16(v));
    }
}

fn put_u64(out: &mut Vec<u8>, v: u64)
    ensures
        final(out)@ == old(out)@ + enc_u64(v),
{
    out.push((v & 0xff) as u8);
    out.push(((v >> 8) & 0xff) as u8);
    out.push(((v >> 16) & 0xff) as u8);
    out.push(((v >> 24) & 0xff) as u8);
    out.push(((v >> 32) & 0xff) as u8);
    out.push(((v >> 40) & 0xff) as u8);
    out.push(((v >> 48) & 0xff) as u8);
    out.push(((v >> 56) & 0xff) as u8);
    proof {
        assert(out@ =~= old(out)@ + enc_u64(v));
    }
}

fn put_string(out: &mut Vec<u8>, s: &String)
    ensures
        final(out)@ == old(out)@ + enc_string(s@),
        string_fits(s@),
{
    let bs = s.as_str().as_bytes();
    proof {
        assert(bs@ == encode_utf8(s@));
    }
    put_u64(out, bs.len() as u64);
    let ghost mid = out@;
    let mut i: usize = 0;
    while i < bs.len()
        invariant
            i <= bs@.len(),
            out@ == mid + bs@.subrange(0, i as int),
        decreases bs@.len() - i,
    {
        out.push(bs[i]);
        proof {
            assert(bs@.subrange(0, i + 1) =~= bs@.subrange(0, i as int).push(bs@[i as int]));
            assert(out@ =~= mid + bs@.subrange(0, i + 1));
        }
        i = i + 1;
    }
    proof {
        assert(bs@.subrange(0, bs@.len() as int) =~= bs@);
        assert(out@ =~= old(out)@ + enc_string(s@));
    }
}

fn put_queue_id(out: &mut Vec<u8>, qid: &QueueId)
    ensures
        final(out)@ == old(out)@ + enc_queue_id(*qid),
{
    match qid {
        QueueId::Instant => {
            put_byte(out, 0);
        },
        QueueId::Timed { minute_of_day } => {
            put_byte(out, 1);
            put_u16(out, *minute_of_day);
            proof {
                assert(out@ =~= old(out)@ + enc_queue_id(*qid));
            }
        },
    }
}

fn put_players(out: &mut Vec<u8>, ps: &Vec<String>, i: usize)
    requires
        i <= ps@.len(),
    ensures
        final(out)@ == old(out)@ + enc_players(ps.deep_view().skip(i as int)),
        players_fit(ps.deep_view().skip(i as int)),
    decreases ps@.len() - i,
{
    let ghost tail = ps.deep_view().skip(i as int);
    if i < ps.len() {
        proof {
            assert(tail[0] == ps.deep_view()[i as int]);
            assert(tail.drop_first() =~= ps.deep_view().skip(i + 1));
        }
        put_string(out, &ps[i]);
        put_players(out, ps, i + 1);
        proof {
            assert(out@ =~= old(out)@ + enc_players(tail));
            let rest = ps.deep_view().skip(i + 1);
            assert forall|j: int| 0 <= j < tail.len() implies string_fits(#[trigger] tail[j]) by {
                if j == 0 {
                } else {
                    assert(tail[j] == rest[j - 1]);
                }
            }
        }
    } else {
        proof {
            assert(tail =~= Seq::<Seq<char>>::empty());
            assert(out@ =~= old(out)@);
        }
    }
}

fn put_queue(out: &mut Vec<u8>, q: &Queue)
    ensures
        final(out)@ == old(out)@ + enc_queue(q@),
        queue_fits(q@),
{
    put_u64(out, q.players.len() as u64);
    put_players(out, &q.players, 0);
    proof {
        assert(q.players.deep_view().skip(0) =~= q@.players);
    }
    put_u64(out, q.capacity as u64);
    put_u16(out, q.timeout);
    put_string(out, &q.add_cmd);
    match q.kind {
        QueueKind::Instant => put_byte(out, 0),
        QueueKind::Timed => put_byte(out, 1),
    }
    proof {
        assert(out@ =~= old(out)@ + enc_queue(q@));
    }
}

fn put_centries(out: &mut Vec<u8>, qs: &Vec<(QueueId, Queue)>, i: usize)
    requires
        i <= qs@.len(),
    ensures
        final(out)@ == old(out)@ + enc_centries(queue_pairs_view(qs@).skip(i as int)),
        chat_fits(queue_pairs_view(qs@).skip(i as int)),
    decreases qs@.len() - i,
{
    let ghost tail = queue_pairs_view(qs@).skip(i as int);
    if i < qs.len() {
        proof {
            assert(tail[0] == queue_pairs_view(qs@)[i as int]);
            assert(tail.drop_first() =~= queue_pairs_view(qs@).skip(i + 1));
        }
        put_queue_id(out, &qs[i].0);
        put_queue(out, &qs[i].1);
        put_centries(out, qs, i + 1);
        proof {
            assert(out@ =~= old(out)@ + enc_centries(tail));
            let rest = queue_pairs_view(qs@).skip(i + 1);
            assert forall|j: int| 0 <= j < tail.len() implies queue_fits(
                (#[trigger] tail[j]).1,
            ) by {
                if j == 0 {
                } else {
                    assert(tail[j] == rest[j - 1]);
                }
            }
        }
    } else {
        proof {
            assert(tail =~= Seq::<(QueueId, QueueV)>::empty());
            assert(out@ =~= old(out)@);
        }
    }
}

fn put_sentries(out: &mut Vec<u8>, cs: &Vec<(ChatId, Chat)>, i: usize)
    requires
        i <= cs@.len(),
    ensures
        final(out)@ == old(out)@ + enc_sentries(chat_pairs_view(cs@).skip(i as int)),
        state_fits(chat_pairs_view(cs@).skip(i as int)),
    decreases cs@.len() - i,
{
    let ghost tail = chat_pairs_view(cs@).skip(i as int);
    if i < cs.len() {
        proof {
            assert(tail[0] == chat_pairs_view(cs@)[i as int]);
            assert(tail.drop_first() =~= chat_pairs_view(cs@).skip(i + 1));
        }
        put_u64(out, cs[i].0.id as u64);
        put_u64(out, cs[i].1.queues.len() as u64);
        put_centries(out, &cs[i].1.queues, 0);
        proof {
            assert(queue_pairs_view(cs@[i as int].1.queues@).skip(0) =~= cs@[i as int].1@);
            assert(tail[0].1 == cs@[i as int].1@);
        }
        put_sentries(out, cs, i + 1);
        proof {
            assert(out@ =~= old(out)@ + enc_sentries(tail));
            let rest = chat_pairs_view(cs@).skip(i + 1);
            assert forall|j: int| 0 <= j < tail.len() implies chat_fits(
                (#[trigger] tail[j]).1,
            ) by {
                if j == 0 {
                } else {
                    assert(tail[j] == rest[j - 1]);
                }
            }
        }
    } else {
        proof {
            assert(tail =~= Seq::<(ChatId, ChatV)>::empty());
            assert(out@ =~= old(out)@);
        }
    }
}

fn get_byte(bytes: &Vec<u8>, pos: usize) -> (r: Option<(u8, usize)>)
    ensures
        match r {
            Some((v, p)) => dec_byte(bytes@, pos as int) == Some((v, p as int)) && p
                <= bytes@.len(),
            None => dec_byte(bytes@, pos as int) is None,
        },
{
    if pos < bytes.len() {
        Some((bytes[pos], pos + 1))
    } else {
        None
    }
}

fn get_u16(bytes: &Vec<u8>, pos: usize) -> (r: Option<(u16, usize)>)
    ensures
        match r {
            Some((v, p)) => dec_u16(bytes@, pos as int) == Some((v, p as int)) && p
                <= bytes@.len(),
            None => dec_u16(bytes@, pos as int) is None,
        },
{
    if bytes.len() >= 2 && pos <= bytes.len() - 2 {
        let v = (bytes[pos] as u16) | ((bytes[pos + 1] as u16) << 8);
        proof {
            let sub = bytes@.subrange(pos as int, pos + 2);
            assert(sub[0] == bytes@[pos as int] && sub[1] == bytes@[pos + 1]);
        }
        Some((v, pos + 2))
    } else {
        None
    }
}

fn get_u64(bytes: &Vec<u8>, pos: usize) -> (r: Option<(u64, usize)>)
    ensures
        match r {
            Some((v, p)) => dec_u64(bytes@, pos as int) == Some((v, p as int)) && p
                <= bytes@.len(),
            None => dec_u64(bytes@, pos as int) is None,
        },
{
    if bytes.len() >= 8 && pos <= bytes.len() - 8 {
        let v = (bytes[pos] as u64) | ((bytes[pos + 1] as u64) << 8) | ((bytes[pos + 2] as u64)
            << 16) | ((bytes[pos + 3] as u64) << 24) | ((bytes[pos + 4] as u64) << 32) | ((bytes[pos
            + 5] as u64) << 40) | ((bytes[pos + 6] as u64) << 48) | ((bytes[pos + 7] as u64) << 56);
        proof {
            let sub = bytes@.subrange(pos as int, pos + 8);
            assert(sub[0] == bytes@[pos as int] && sub[1] == bytes@[pos + 1] && sub[2] == bytes@[pos
                + 2] && sub[3] == bytes@[pos + 3] && sub[4] == bytes@[pos + 4] && sub[5]
                == bytes@[pos + 5] && sub[6] == bytes@[pos + 6] && sub[7] == bytes@[pos + 7]);
        }
        Some((v, pos + 8))
    } else {
        None
    }
}

fn get_string(bytes: &Vec<u8>, pos: usize) -> (r: Option<(String, usize)>)
    ensures
        match r {
            Some((s, p)) => dec_string(bytes@, pos as int) == Some((s@, p as int)) && p
                <= bytes@.len(),
            None => dec_string(bytes@, pos as int) is None,
        },
{
    broadcast use vstd::utf8::encode_utf8_decode_utf8;

    match get_u64(bytes, pos) {
        None => None,
        Some((n, p)) => {
            if n <= (bytes.len() - p) as u64 {
                let len = n as usize;
                proof {
                    assert(n <= bytes@.len() - p);
                    assert(len as int == n as int);
                    assert(p + len <= bytes@.len());
                }
                let mut sub: Vec<u8> = Vec::new();
                let mut i: usize = 0;
                while i < len
                    invariant
                        i <= len,
                        p + len <= bytes@.len(),
                        p + len <= usize::MAX,
                        sub@ == bytes@.subrange(p as int, p + i as int),
                    decreases len - i,
                {
                    sub.push(bytes[p + i]);
                    proof {
                        assert(sub@ =~= bytes@.subrange(p as int, p + i + 1));
                    }
                    i = i + 1;
                }
                match string_from_utf8(sub) {
                    Some(s) => {
                        proof {
                            assert(decode_utf8(bytes@.subrange(p as int, p + n as int)) == s@);
                        }
                        Some((s, p + len))
                    },
                    None => None,
                }
            } else {
                None
            }
        },
    }
}

fn get_queue_id(bytes: &Vec<u8>, pos: usize) -> (r: Option<(QueueId, usize)>)
    ensures
        match r {
            Some((qid, p)) => dec_queue_id(bytes@, pos as int) == Some((qid, p as int)) && p
                <= bytes@.len(),
            None => dec_queue_id(bytes@, pos as int) is None,
        },
{
    match get_byte(bytes, pos) {
        None => None,
        Some((tag, p)) => {
            if tag == 0 {
                Some((QueueId::Instant, p))
            } else if tag == 1 {
                match get_u16(bytes, p) {
                    None => None,
                    Some((m, p2)) => Some((QueueId::Timed { minute_of_day: m }, p2)),
                }
            } else {
                None
            }
        },
    }
}

fn get_players(bytes: &Vec<u8>, pos: usize, k: u64) -> (r: Option<(Vec<String>, usize)>)
    requires
        pos <= bytes@.len(),
    ensures
        match r {
            Some((v, p)) => dec_players(bytes@, pos as int, k as int) == Some(
                (v.deep_view(), p as int),
            ) && p <= bytes@.len(),
            None => dec_players(bytes@, pos as int, k as int) is None,
        },
    decreases k,
{
    if k == 0 {
        let v: Vec<String> = Vec::new();
        proof {
            assert(v.deep_view() =~= Seq::<Seq<char>>::empty());
        }
        Some((v, pos))
    } else {
        match get_string(bytes, pos) {
            None => None,
            Some((s, p)) => match get_players(bytes, p, k - 1) {
                None => None,
                Some((mut rest, p2)) => {
                    let ghost rv = rest.deep_view();
                    rest.insert(0, s);
                    proof {
                        assert(rest.deep_view() =~= seq![s@] + rv);
                    }
                    Some((rest, p2))
                },
            },
        }
    }
}

fn get_queue(bytes: &Vec<u8>, pos: usize) -> (r: Option<(Queue, usize)>)
    ensures
        match r {
            Some((q, p)) => dec_queue(bytes@, pos as int) == Some((q@, p as int)) && p
                <= bytes@.len(),
            None => dec_queue(bytes@, pos as int) is None,
        },
{
    let (n, p0) = match get_u64(bytes, pos) {
        None => {
            return None;
        },
        Some(x) => x,
    };
    let (players, p1) = match get_players(bytes, p0, n) {
        None => {
            return None;
        },
        Some(x) => x,
    };
    let (cap, p2) = match get_u64(bytes, p1) {
        None => {
            return None;
        },
        Some(x) => x,
    };
    if !(cap <= usize::MAX as u64) {
        return None;
    }
    let (timeout, p3) = match get_u16(bytes, p2) {
        None => {
            return None;
        },
        Some(x) => x,
    };
    let (add_cmd, p4) = match get_string(bytes, p3) {
        None => {
            return None;
        },
        Some(x) => x,
    };
    let (tag, p5) = match get_byte(bytes, p4) {
        None => {
            return None;
        },
        Some(x) => x,
    };
    let kind = if tag == 0 {
        QueueKind::Instant
    } else if tag == 1 {
        QueueKind::Timed
    } else {
        return None;
    };
    let q = Queue { players, capacity: cap as usize, timeout, add_cmd, kind };
    Some((q, p5))
}

fn get_centries(bytes: &Vec<u8>, pos: usize, k: u64) -> (r: Option<(Vec<(QueueId, Queue)>, usize)>)
    requires
        pos <= bytes@.len(),
    ensures
        match r {
            Some((v, p)) => dec_centries(bytes@, pos as int, k as int) == Some(
                (queue_pairs_view(v@), p as int),
            ) && p <= bytes@.len(),
            None => dec_centries(bytes@, pos as int, k as int) is None,
        },
    decreases k,
{
    if k == 0 {
        let v: Vec<(QueueId, Queue)> = Vec::new();
        proof {
            assert(queue_pairs_view(v@) =~= Seq::<(QueueId, QueueV)>::empty());
        }
        Some((v, pos))
    } else {
        match get_queue_id(bytes, pos) {
            None => None,
            Some((qid, p)) => match get_queue(bytes, p) {
                None => None,
                Some((q, p1)) => match get_centries(bytes, p1, k - 1) {
                    None => None,
                    Some((mut rest, p2)) => {
                        let ghost rv = queue_pairs_view(rest@);
                        let ghost qv = q@;
                        rest.insert(0, (qid, q));
                        proof {
                            assert(queue_pairs_view(rest@) =~= seq![(qid, qv)] + rv);
                        }
                        Some((rest, p2))
                    },
                },
            },
        }
    }
}

fn get_sentries(bytes: &Vec<u8>, pos: usize, k: u64) -> (r: Option<(Vec<(ChatId, Chat)>, usize)>)
    requires
        pos <= bytes@.len(),
    ensures
        match r {
            Some((v, p)) => dec_sentries(bytes@, pos as int, k as int) == Some(
                (chat_pairs_view(v@), p as int),
            ) && p <= bytes@.len(),
            None => dec_sentries(bytes@, pos as int, k as int) is None,
        },
    decreases k,
{
    if k == 0 {
        let v: Vec<(ChatId, Chat)> = Vec::new();
        proof {
            assert(chat_pairs_view(v@) =~= Seq::<(ChatId, ChatV)>::empty());
        }
        Some((v, pos))
    } else {
        match get_u64(bytes, pos) {
            None => None,
            Some((id, p)) => match get_u64(bytes, p) {
                None => None,
                Some((n, p0)) => match get_centries(bytes, p0, n) {
                    None => None,
                    Some((queues, p1)) => match get_sentries(bytes, p1, k - 1) {
                        None => None,
                        Some((mut rest, p2)) => {
                            let ghost rv = chat_pairs_view(rest@);
                            let chat = Chat { queues };
                            let ghost cv = chat@;
                            rest.insert(0, (ChatId { id: id as i64 }, chat));
                            proof {
                                assert(chat_pairs_view(rest@) =~= seq![
                                    (ChatId { id: id as i64 }, cv),
                                ] + rv);
                            }
                            Some((rest, p2))
                        },
                    },
                },
            },
        }
    }
}

/// Parse a persisted record back into a snapshot. Nothing is accepted but
/// a complete, exactly-consumed record.
pub fn decode_state(bytes: &Vec<u8>) -> (r: Option<State>)
    ensures
        r matches Some(t) ==> dec_state(bytes@) == Some(t@),
        r is None ==> dec_state(bytes@) is None,
{
    match get_u64(bytes, 0) {
        None => None,
        Some((n, p)) => match get_sentries(bytes, p, n) {
            None => None,
            Some((chats, p1)) => {
                if p1 == bytes.len() {
                    Some(State { chats })
                } else {
                    None
                }
            },
        },
    }
}

/// Write the persisted record for a snapshot.
pub fn encode_state(s: &State) -> (r: Vec<u8>)
    ensures
        r@ == enc_state(s@),
        state_fits(s@),
{
    let mut out: Vec<u8> = Vec::new();
    put_u64(&mut out, s.chats.len() as u64);
    put_sentries(&mut out, &s.chats, 0);
    proof {
        assert(chat_pairs_view(s.chats@).skip(0) =~= s@);
        assert(out@ =~= enc_state(s@));
    }
    out
}

} // verus!
