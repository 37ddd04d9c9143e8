//! The room registry as a mathematical state machine: the rooms, the index
//! from each client to its room, what each operation does to them, and the
//! laws that follow.

use crate::types::{JoinError, PlayerView, RoomType, RoomView};
use vstd::prelude::*;

verus! {

/// The character that is put behind a room id that is already taken.
pub open spec fn pad_char() -> char {
    '-'
}

/// `candidate` followed by `k` padding characters.
pub open spec fn padded(candidate: Seq<char>, k: nat) -> Seq<char> {
    candidate + Seq::new(k, |i: int| pad_char())
}

/// The state of a room registry.
pub struct RegistryView {
    /// The rooms, by room id.
    pub rooms: Map<Seq<char>, RoomView>,
    /// The room of each client that is in one, by client id.
    pub index: Map<Seq<char>, Seq<char>>,
}

impl RegistryView {
    /// The registry without rooms.
    pub open spec fn empty() -> RegistryView {
        RegistryView { rooms: Map::empty(), index: Map::empty() }
    }

    /// The registry's invariant: every room is well formed and stands under
    /// its own id, and a client is a member of a room exactly when the index
    /// sends it to that room.
    pub open spec fn wf(self) -> bool {
        &&& self.rooms.dom().finite()
        &&& forall|rid: Seq<char>| #[trigger]
            self.rooms.contains_key(rid) ==> self.rooms[rid].wf() && self.rooms[rid].id == rid
        &&& forall|cid: Seq<char>| #[trigger]
            self.index.contains_key(cid) ==> self.rooms.contains_key(self.index[cid])
                && self.rooms[self.index[cid]].has_player(cid)
        &&& forall|rid: Seq<char>, cid: Seq<char>|
            self.rooms.contains_key(rid) && #[trigger] self.rooms[rid].has_player(cid)
                ==> self.index.contains_key(cid) && self.index[cid] == rid
    }

    /// No room is without members.
    pub open spec fn settled(self) -> bool {
        forall|rid: Seq<char>| #[trigger]
            self.rooms.contains_key(rid) ==> self.rooms[rid].players.len() > 0
    }

    /// The room that the client is in, if any.
    pub open spec fn room_of(self, cid: Seq<char>) -> Option<Seq<char>> {
        if self.index.contains_key(cid) {
            Some(self.index[cid])
        } else {
            None
        }
    }

    /// The room under the id, if any.
    pub open spec fn room(self, rid: Seq<char>) -> Option<RoomView> {
        if self.rooms.contains_key(rid) {
            Some(self.rooms[rid])
        } else {
            None
        }
    }

    /// Whether `id` is the first of `candidate`, `candidate-`, `candidate--`,
    /// ... that no room has.
    pub open spec fn first_free(self, candidate: Seq<char>, id: Seq<char>) -> bool {
        exists|k: nat|
            {
                &&& id == #[trigger] padded(candidate, k)
                &&& !self.rooms.contains_key(id)
                &&& forall|j: nat|
                    j < k ==> self.rooms.contains_key(#[trigger] padded(candidate, j))
            }
    }

    /// In a registry with finitely many rooms every candidate has a first
    /// free id.
    pub proof fn lemma_first_free_exists(self, candidate: Seq<char>)
        requires
            self.rooms.dom().finite(),
        ensures
            exists|id: Seq<char>| self.first_free(candidate, id),
    {
        let k = self.least_free(candidate, 0);
        self.lemma_least_free(candidate, 0);
        assert(self.first_free(candidate, padded(candidate, k)));
    }

    /// The least `k` from `from` on for which `candidate` padded `k` times
    /// is no room's id.
    pub closed spec fn least_free(self, candidate: Seq<char>, from: nat) -> nat
        decreases self.rooms.dom().len() + 1 - from,
    {
        if from <= self.rooms.dom().len() && self.rooms.contains_key(padded(candidate, from)) {
            self.least_free(candidate, from + 1)
        } else {
            from
        }
    }

    proof fn lemma_least_free(self, candidate: Seq<char>, from: nat)
        requires
            self.rooms.dom().finite(),
            forall|j: nat| j < from ==> self.rooms.contains_key(#[trigger] padded(candidate, j)),
        ensures
            !self.rooms.contains_key(padded(candidate, self.least_free(candidate, from))),
            forall|j: nat|
                j < self.least_free(candidate, from) ==> self.rooms.contains_key(
                    #[trigger] padded(candidate, j),
                ),
        decreases self.rooms.dom().len() + 1 - from,
    {
        assert forall|j: nat| j < from implies self.rooms.dom().contains(
            #[trigger] padded(candidate, j),
        ) by {
            assert(self.rooms.contains_key(padded(candidate, j)));
        }
        lemma_padded_count(self.rooms.dom(), candidate, from);
        if self.rooms.contains_key(padded(candidate, from)) {
            assert forall|j: nat| j < from + 1 implies self.rooms.dom().contains(
                #[trigger] padded(candidate, j),
            ) by {
                if j < from {
                    assert(self.rooms.contains_key(padded(candidate, j)));
                }
            }
            lemma_padded_count(self.rooms.dom(), candidate, from + 1);
            self.lemma_least_free(candidate, from + 1);
        }
    }

    /// The registry with a new, empty room under `rid`.
    pub open spec fn create(self, rid: Seq<char>, room_type: RoomType, capacity: usize)
        -> RegistryView {
        RegistryView {
            rooms: self.rooms.insert(rid, RoomView::empty(rid, room_type, capacity)),
            index: self.index,
        }
    }

    /// The registry with a room under `rid`: the one it has, else a new one.
    pub open spec fn open(self, rid: Seq<char>, room_type: RoomType, capacity: usize)
        -> RegistryView {
        if self.rooms.contains_key(rid) {
            self
        } else {
            self.create(rid, room_type, capacity)
        }
    }

    /// The registry without the room under `rid`, if that room has no
    /// members; a room with members stays.
    pub open spec fn discard(self, rid: Seq<char>) -> RegistryView {
        if self.rooms.contains_key(rid) && self.rooms[rid].players.len() == 0 {
            RegistryView { rooms: self.rooms.remove(rid), index: self.index }
        } else {
            self
        }
    }

    /// What a join answers: a client that is in a room already is refused
    /// first, then a room that does not exist, then a room that is full.
    pub open spec fn join_result(self, rid: Seq<char>, p: PlayerView) -> Result<(), JoinError> {
        if self.index.contains_key(p.id) {
            Err(JoinError::AlreadyInRoom)
        } else if !self.rooms.contains_key(rid) {
            Err(JoinError::RoomNotFound)
        } else if self.rooms[rid].is_full() {
            Err(JoinError::RoomFull)
        } else {
            Ok(())
        }
    }

    /// The registry after a join: changed only when the join succeeds.
    pub open spec fn after_join(self, rid: Seq<char>, p: PlayerView) -> RegistryView {
        if self.join_result(rid, p) is Ok {
            RegistryView {
                rooms: self.rooms.insert(rid, self.rooms[rid].with_player(p)),
                index: self.index.insert(p.id, rid),
            }
        } else {
            self
        }
    }

    /// What a leave answers: the room that the client was in.
    pub open spec fn leave_result(self, cid: Seq<char>) -> Option<Seq<char>> {
        self.room_of(cid)
    }

    /// The registry after a leave: the client is in no room, and its room is
    /// gone if it was the last member.
    pub open spec fn after_leave(self, cid: Seq<char>) -> RegistryView {
        if !self.index.contains_key(cid) {
            self
        } else {
            let rid = self.index[cid];
            let index = self.index.remove(cid);
            if !self.rooms.contains_key(rid) {
                RegistryView { rooms: self.rooms, index }
            } else {
                let room = self.rooms[rid].without_player(cid);
                if room.players.len() == 0 {
                    RegistryView { rooms: self.rooms.remove(rid), index }
                } else {
                    RegistryView { rooms: self.rooms.insert(rid, room), index }
                }
            }
        }
    }

    /// A new room under an id that no room has keeps the registry's
    /// invariant, and discarding it again undoes it.
    pub proof fn lemma_create_keeps_wf(
        s: RegistryView,
        rid: Seq<char>,
        room_type: RoomType,
        capacity: usize,
    )
        requires
            s.wf(),
            !s.rooms.contains_key(rid),
        ensures
            s.create(rid, room_type, capacity).wf(),
            s.create(rid, room_type, capacity).discard(rid) == s,
    {
        let created = s.create(rid, room_type, capacity);
        assert(created.rooms[rid].players.len() == 0);
        assert forall|r: Seq<char>, cid: Seq<char>|
            created.rooms.contains_key(r) && #[trigger] created.rooms[r].has_player(
                cid,
            ) implies created.index.contains_key(cid) && created.index[cid] == r by {
            if r != rid {
                assert(s.rooms[r].has_player(cid));
            }
        }
        assert forall|cid: Seq<char>| #[trigger]
            created.index.contains_key(cid) implies created.rooms.contains_key(created.index[cid])
            && created.rooms[created.index[cid]].has_player(cid) by {
            assert(s.rooms.contains_key(s.index[cid]));
        }
        assert(created.discard(rid).rooms =~= s.rooms);
    }

    /// Discarding a room keeps the registry's invariant.
    pub proof fn lemma_discard_keeps_wf(s: RegistryView, rid: Seq<char>)
        requires
            s.wf(),
        ensures
            s.discard(rid).wf(),
            s.settled() ==> s.discard(rid) == s,
    {
        let kept = s.discard(rid);
        if kept != s {
            assert forall|cid: Seq<char>| #[trigger]
                kept.index.contains_key(cid) implies kept.rooms.contains_key(kept.index[cid])
                && kept.rooms[kept.index[cid]].has_player(cid) by {
                assert(s.rooms[s.index[cid]].has_player(cid));
            }
        }
    }

    /// A join keeps the registry's invariant.
    pub proof fn lemma_join_keeps_wf(s: RegistryView, rid: Seq<char>, p: PlayerView)
        requires
            s.wf(),
        ensures
            s.after_join(rid, p).wf(),
            s.join_result(rid, p) is Ok ==> !s.rooms[rid].has_player(p.id)
                && s.after_join(rid, p).rooms[rid].players == s.rooms[rid].players.push(p),
    {
        if s.join_result(rid, p) is Ok {
            let after = s.after_join(rid, p);
            let room = s.rooms[rid];
            assert(s.rooms.contains_key(rid));
            room.lemma_with_player(p);
            assert(!room.has_player(p.id));
            assert forall|r: Seq<char>| #[trigger]
                after.rooms.contains_key(r) implies after.rooms[r].wf() && after.rooms[r].id
                == r by {
                if r != rid {
                    assert(s.rooms.contains_key(r));
                }
            }
            assert forall|cid: Seq<char>| #[trigger]
                after.index.contains_key(cid) implies after.rooms.contains_key(after.index[cid])
                && after.rooms[after.index[cid]].has_player(cid) by {
                if cid != p.id {
                    assert(s.index.contains_key(cid));
                    assert(s.rooms[s.index[cid]].has_player(cid));
                }
            }
            assert forall|r: Seq<char>, cid: Seq<char>|
                after.rooms.contains_key(r) && #[trigger] after.rooms[r].has_player(
                    cid,
                ) implies after.index.contains_key(cid) && after.index[cid] == r by {
                if r == rid {
                    if cid != p.id {
                        assert(room.has_player(cid));
                    }
                } else {
                    assert(s.rooms[r].has_player(cid));
                }
            }
        }
    }

    /// A leave keeps the registry's invariant, and a registry without empty
    /// rooms stays without them.
    pub proof fn lemma_leave_keeps_wf(s: RegistryView, cid: Seq<char>)
        requires
            s.wf(),
        ensures
            s.after_leave(cid).wf(),
            s.settled() ==> s.after_leave(cid).settled(),
            !s.after_leave(cid).index.contains_key(cid),
    {
        if s.index.contains_key(cid) {
            let after = s.after_leave(cid);
            let rid = s.index[cid];
            let room = s.rooms[rid];
            assert(s.rooms.contains_key(rid));
            room.lemma_without_player(cid);
            let left = room.without_player(cid);
            assert forall|r: Seq<char>| #[trigger]
                after.rooms.contains_key(r) implies after.rooms[r].wf() && after.rooms[r].id
                == r by {
                if r != rid {
                    assert(s.rooms.contains_key(r));
                }
            }
            assert forall|c: Seq<char>| #[trigger]
                after.index.contains_key(c) implies after.rooms.contains_key(after.index[c])
                && after.rooms[after.index[c]].has_player(c) by {
                assert(s.index.contains_key(c));
                assert(s.rooms[s.index[c]].has_player(c));
                if s.index[c] == rid {
                    assert(left.has_player(c));
                    assert(left.players.len() > 0);
                }
            }
            assert forall|r: Seq<char>, c: Seq<char>|
                after.rooms.contains_key(r) && #[trigger] after.rooms[r].has_player(
                    c,
                ) implies after.index.contains_key(c) && after.index[c] == r by {
                if r == rid {
                    assert(room.has_player(c));
                } else {
                    assert(s.rooms[r].has_player(c));
                }
            }
            if s.settled() {
                assert forall|r: Seq<char>| #[trigger]
                    after.rooms.contains_key(r) implies after.rooms[r].players.len() > 0 by {
                    if r != rid {
                        assert(s.rooms.contains_key(r));
                    }
                }
            }
        }
    }

    /// The clients that a broadcast into the room reaches: its members in
    /// order, leaving out `exclude`; nobody if there is no such room.
    pub open spec fn recipients(self, rid: Seq<char>, exclude: Option<Seq<char>>) -> Seq<
        Seq<char>,
    > {
        if self.rooms.contains_key(rid) {
            self.rooms[rid].recipients(exclude)
        } else {
            Seq::empty()
        }
    }

    /// The registry after the players have tried to join the room, one after
    /// the other.
    pub open spec fn after_joins(self, rid: Seq<char>, ps: Seq<PlayerView>) -> RegistryView
        decreases ps.len(),
    {
        if ps.len() == 0 {
            self
        } else {
            self.after_joins(rid, ps.drop_last()).after_join(rid, ps.last())
        }
    }

    /// The registry after the clients have left their rooms, one after the
    /// other.
    pub open spec fn after_leaves(self, cs: Seq<Seq<char>>) -> RegistryView
        decreases cs.len(),
    {
        if cs.len() == 0 {
            self
        } else {
            self.after_leaves(cs.drop_last()).after_leave(cs.last())
        }
    }

    /// What the `i`-th of the players is answered when they try to join the
    /// room one after the other.
    pub open spec fn nth_join_result(self, rid: Seq<char>, ps: Seq<PlayerView>, i: int) -> Result<
        (),
        JoinError,
    > {
        self.after_joins(rid, ps.take(i)).join_result(rid, ps[i])
    }
}

/// Two paddings of one candidate are equal only if they are equally long.
pub proof fn lemma_padded_injective(candidate: Seq<char>, j: nat, k: nat)
    ensures
        padded(candidate, j) == padded(candidate, k) ==> j == k,
        padded(candidate, 0) =~= candidate,
        padded(candidate, k).push(pad_char()) =~= padded(candidate, k + 1),
{
    assert(padded(candidate, j).len() == candidate.len() + j);
    assert(padded(candidate, k).len() == candidate.len() + k);
}

/// A set that holds the first `k` paddings of a candidate has at least `k`
/// elements.
pub proof fn lemma_padded_count(taken: Set<Seq<char>>, candidate: Seq<char>, k: nat)
    requires
        taken.finite(),
        forall|j: nat| j < k ==> taken.contains(#[trigger] padded(candidate, j)),
    ensures
        taken.len() >= k,
    decreases k,
{
    if k > 0 {
        let last = padded(candidate, (k - 1) as nat);
        let rest = taken.remove(last);
        assert forall|j: nat| j < (k - 1) as nat implies rest.contains(
            #[trigger] padded(candidate, j),
        ) by {
            lemma_padded_injective(candidate, j, (k - 1) as nat);
        }
        lemma_padded_count(rest, candidate, (k - 1) as nat);
    }
}

/// At most one id is the first free one.
pub proof fn lemma_first_free_unique(
    s: RegistryView,
    candidate: Seq<char>,
    a: Seq<char>,
    b: Seq<char>,
)
    requires
        s.first_free(candidate, a),
        s.first_free(candidate, b),
    ensures
        a == b,
{
    let ka = choose|k: nat|
        {
            &&& a == #[trigger] padded(candidate, k)
            &&& !s.rooms.contains_key(a)
            &&& forall|j: nat| j < k ==> s.rooms.contains_key(#[trigger] padded(candidate, j))
        };
    let kb = choose|k: nat|
        {
            &&& b == #[trigger] padded(candidate, k)
            &&& !s.rooms.contains_key(b)
            &&& forall|j: nat| j < k ==> s.rooms.contains_key(#[trigger] padded(candidate, j))
        };
    if ka < kb {
        assert(s.rooms.contains_key(padded(candidate, ka)));
    } else if kb < ka {
        assert(s.rooms.contains_key(padded(candidate, kb)));
    }
}

/// No two of the players have the same id.
pub open spec fn distinct_ids(ps: Seq<PlayerView>) -> bool {
    forall|i: int, j: int|
        0 <= i < ps.len() && 0 <= j < ps.len() && i != j ==> (#[trigger] ps[i]).id != (
        #[trigger] ps[j]).id
}

/// The smaller of two numbers.
pub open spec fn least(a: int, b: int) -> int {
    if a <= b {
        a
    } else {
        b
    }
}

/// Where a run of joins leaves the registry: the room has taken as many of
/// the players as fit, in order, and exactly those are indexed in addition.
proof fn lemma_after_joins(s: RegistryView, rid: Seq<char>, ps: Seq<PlayerView>)
    requires
        s.wf(),
        s.rooms.contains_key(rid),
        distinct_ids(ps),
        forall|i: int| 0 <= i < ps.len() ==> !s.index.contains_key((#[trigger] ps[i]).id),
    ensures
        s.after_joins(rid, ps).wf(),
        s.after_joins(rid, ps).rooms.contains_key(rid),
        s.after_joins(rid, ps).rooms[rid].max_players == s.rooms[rid].max_players,
        s.after_joins(rid, ps).rooms[rid].players == s.rooms[rid].players + ps.take(
            least(ps.len() as int, s.rooms[rid].max_players - s.rooms[rid].players.len()),
        ),
        forall|cid: Seq<char>|
            s.after_joins(rid, ps).index.contains_key(cid) ==> s.index.contains_key(cid) || exists|
                i: int,
            |
                0 <= i < ps.len() && (#[trigger] ps[i]).id == cid,
        forall|r: Seq<char>|
            r != rid ==> s.after_joins(rid, ps).rooms.contains_key(r) == s.rooms.contains_key(r)
                && s.after_joins(rid, ps).rooms[r] == s.rooms[r],
    decreases ps.len(),
{
    let free = s.rooms[rid].max_players - s.rooms[rid].players.len();
    if ps.len() == 0 {
        assert(s.rooms[rid].players + ps.take(0) =~= s.rooms[rid].players);
    } else {
        let init = ps.drop_last();
        let q = ps.last();
        let n = init.len() as int;
        assert forall|i: int| 0 <= i < init.len() implies !s.index.contains_key(
            (#[trigger] init[i]).id,
        ) by {
            assert(init[i] == ps[i]);
        }
        assert(distinct_ids(init)) by {
            assert forall|i: int, j: int|
                0 <= i < init.len() && 0 <= j < init.len() && i != j implies (
            #[trigger] init[i]).id != (#[trigger] init[j]).id by {
                assert(init[i] == ps[i] && init[j] == ps[j]);
            }
        }
        lemma_after_joins(s, rid, init);
        let t = s.after_joins(rid, init);
        assert(!t.index.contains_key(q.id)) by {
            if t.index.contains_key(q.id) {
                assert(!s.index.contains_key(ps[n].id));
                let i = choose|i: int| 0 <= i < init.len() && (#[trigger] init[i]).id == q.id;
                assert(init[i] == ps[i]);
                assert(ps[i].id != ps[n].id);
            }
        }
        RegistryView::lemma_join_keeps_wf(t, rid, q);
        let u = t.after_join(rid, q);
        assert(u == s.after_joins(rid, ps));
        if n < free {
            assert(init.take(least(n, free)) =~= init);
            assert(ps.take(least(n + 1, free)) =~= init.push(q));
            assert(u.rooms[rid].players =~= s.rooms[rid].players + ps.take(least(n + 1, free)));
        } else {
            assert(init.take(least(n, free)) =~= ps.take(least(n + 1, free)));
        }
        assert forall|cid: Seq<char>| u.index.contains_key(cid) implies s.index.contains_key(cid)
            || exists|i: int| 0 <= i < ps.len() && (#[trigger] ps[i]).id == cid by {
            if cid == q.id {
                assert(ps[n].id == cid);
            } else if !s.index.contains_key(cid) {
                assert(t.index.contains_key(cid));
                let i = choose|i: int| 0 <= i < init.len() && (#[trigger] init[i]).id == cid;
                assert(ps[i].id == cid);
            }
        }
    }
}

/// The members of a room never outnumber its capacity, whatever comes to
/// pass: a well-formed registry stays well formed under every operation.
pub proof fn capacity_is_never_exceeded(
    s: RegistryView,
    rid: Seq<char>,
    p: PlayerView,
    cid: Seq<char>,
)
    requires
        s.wf(),
    ensures
        s.rooms.contains_key(rid) ==> s.rooms[rid].players.len() <= s.rooms[rid].max_players,
        s.after_join(rid, p).wf(),
        s.after_leave(cid).wf(),
{
    RegistryView::lemma_join_keeps_wf(s, rid, p);
    RegistryView::lemma_leave_keeps_wf(s, cid);
}

/// When clients that are in no room, no two of them the same, try one after
/// the other to join a room, then as many succeed as the room has places
/// left, and every one after them is refused because the room is full.
pub proof fn joins_succeed_up_to_capacity(s: RegistryView, rid: Seq<char>, ps: Seq<PlayerView>)
    requires
        s.wf(),
        s.rooms.contains_key(rid),
        distinct_ids(ps),
        forall|i: int| 0 <= i < ps.len() ==> !s.index.contains_key((#[trigger] ps[i]).id),
    ensures
        forall|i: int|
            0 <= i < ps.len() ==> #[trigger] s.nth_join_result(rid, ps, i) == if i
                < s.rooms[rid].max_players - s.rooms[rid].players.len() {
                Ok::<(), JoinError>(())
            } else {
                Err::<(), JoinError>(JoinError::RoomFull)
            },
        s.after_joins(rid, ps).wf(),
        s.after_joins(rid, ps).rooms.contains_key(rid),
        s.after_joins(rid, ps).rooms[rid].players.len() == s.rooms[rid].players.len() + least(
            ps.len() as int,
            s.rooms[rid].max_players - s.rooms[rid].players.len(),
        ),
{
    let free = s.rooms[rid].max_players - s.rooms[rid].players.len();
    lemma_after_joins(s, rid, ps);
    assert forall|i: int| 0 <= i < ps.len() implies #[trigger] s.nth_join_result(rid, ps, i)
        == if i < free {
        Ok::<(), JoinError>(())
    } else {
        Err::<(), JoinError>(JoinError::RoomFull)
    } by {
        let head = ps.take(i);
        assert forall|k: int| 0 <= k < head.len() implies !s.index.contains_key(
            (#[trigger] head[k]).id,
        ) by {
            assert(head[k] == ps[k]);
        }
        assert(distinct_ids(head)) by {
            assert forall|a: int, b: int|
                0 <= a < head.len() && 0 <= b < head.len() && a != b implies (
            #[trigger] head[a]).id != (#[trigger] head[b]).id by {
                assert(head[a] == ps[a] && head[b] == ps[b]);
            }
        }
        lemma_after_joins(s, rid, head);
        let t = s.after_joins(rid, head);
        if t.index.contains_key(ps[i].id) {
            let k = choose|k: int| 0 <= k < head.len() && (#[trigger] head[k]).id == ps[i].id;
            assert(head[k] == ps[k]);
            assert(ps[k].id != ps[i].id);
        }
    }
}

/// A client is a member of at most one room.
pub proof fn client_is_in_one_room_only(
    s: RegistryView,
    first: Seq<char>,
    second: Seq<char>,
    cid: Seq<char>,
)
    requires
        s.wf(),
        s.rooms.contains_key(first) && s.rooms[first].has_player(cid),
        s.rooms.contains_key(second) && s.rooms[second].has_player(cid),
    ensures
        first == second,
{
}

/// Of two joins by one client, whatever the rooms, the second is refused
/// once the first has succeeded: the client is in a room already.
pub proof fn second_join_is_refused(
    s: RegistryView,
    first: Seq<char>,
    second: Seq<char>,
    p: PlayerView,
    q: PlayerView,
)
    requires
        s.wf(),
        q.id == p.id,
        s.join_result(first, p) is Ok,
    ensures
        s.after_join(first, p).join_result(second, q) == Err::<(), JoinError>(
            JoinError::AlreadyInRoom,
        ),
        s.after_join(first, p).after_join(second, q) == s.after_join(first, p),
        s.after_join(first, p).room_of(p.id) == Some(first),
{
}

/// When one client asks to join two rooms, each of which would take it, the
/// join that comes first succeeds and the other is refused, whichever comes
/// first: exactly one of the two succeeds.
pub proof fn of_two_joins_one_succeeds(
    s: RegistryView,
    first: Seq<char>,
    second: Seq<char>,
    p: PlayerView,
)
    requires
        s.wf(),
        s.join_result(first, p) is Ok,
        s.join_result(second, p) is Ok,
    ensures
        s.after_join(first, p).join_result(second, p) == Err::<(), JoinError>(
            JoinError::AlreadyInRoom,
        ),
        s.after_join(second, p).join_result(first, p) == Err::<(), JoinError>(
            JoinError::AlreadyInRoom,
        ),
        s.after_join(first, p).after_join(second, p).room_of(p.id) == Some(first),
        s.after_join(second, p).after_join(first, p).room_of(p.id) == Some(second),
        first != second ==> !s.after_join(first, p).after_join(second, p).rooms[second].has_player(
            p.id,
        ),
{
    RegistryView::lemma_join_keeps_wf(s, first, p);
    let t = s.after_join(first, p);
    if first != second && t.rooms[second].has_player(p.id) {
        assert(t.rooms.contains_key(second));
    }
}

/// When the only member of a room leaves, the room is gone: whoever tries
/// to join it next is told that there is no such room.
pub proof fn last_leave_removes_room(s: RegistryView, cid: Seq<char>, p: PlayerView)
    requires
        s.wf(),
        s.index.contains_key(cid),
        s.rooms[s.index[cid]].players.len() == 1,
        p.id == cid || !s.index.contains_key(p.id),
    ensures
        s.leave_result(cid) == Some(s.index[cid]),
        !s.after_leave(cid).rooms.contains_key(s.index[cid]),
        s.after_leave(cid).join_result(s.index[cid], p) == Err::<(), JoinError>(
            JoinError::RoomNotFound,
        ),
{
    let rid = s.index[cid];
    assert(s.rooms.contains_key(rid));
    s.rooms[rid].lemma_without_player(cid);
}

/// The room after a run of leaves by members of it, none of them twice: it
/// has lost exactly those, or is gone if they were all it had.
proof fn lemma_after_leaves(s: RegistryView, rid: Seq<char>, cs: Seq<Seq<char>>)
    requires
        s.wf(),
        s.rooms.contains_key(rid),
        cs.no_duplicates(),
        forall|i: int| 0 <= i < cs.len() ==> s.rooms[rid].has_player(#[trigger] cs[i]),
    ensures
        s.after_leaves(cs).wf(),
        cs.len() <= s.rooms[rid].players.len(),
        cs.len() > 0 ==> (s.after_leaves(cs).rooms.contains_key(rid) <==> cs.len()
            < s.rooms[rid].players.len()),
        s.after_leaves(cs).rooms.contains_key(rid) ==> {
            &&& s.after_leaves(cs).rooms[rid].players.len() + cs.len()
                == s.rooms[rid].players.len()
            &&& forall|c: Seq<char>|
                s.rooms[rid].has_player(c) && !cs.contains(c) ==> s.after_leaves(
                    cs,
                ).rooms[rid].has_player(c)
        },
        forall|c: Seq<char>| #[trigger]
            s.after_leaves(cs).index.contains_key(c) ==> s.index.contains_key(c) && !cs.contains(c),
    decreases cs.len(),
{
    if cs.len() == 0 {
    } else {
        let init = cs.drop_last();
        let c = cs.last();
        let n = init.len() as int;
        assert(init.no_duplicates());
        assert forall|i: int| 0 <= i < init.len() implies s.rooms[rid].has_player(
            #[trigger] init[i],
        ) by {
            assert(init[i] == cs[i]);
        }
        lemma_after_leaves(s, rid, init);
        let t = s.after_leaves(init);
        assert(s.rooms[rid].has_player(cs[n]));
        assert(!init.contains(c)) by {
            if init.contains(c) {
                let i = choose|i: int| 0 <= i < init.len() && init[i] == c;
                assert(cs[i] == cs[n]);
            }
        }
        assert(s.rooms[rid].players.len() > 0) by {
            let i = choose|i: int|
                0 <= i < s.rooms[rid].players.len() && (#[trigger] s.rooms[rid].players[i]).id
                    == c;
        }
        // The room still stands, since it still holds `c`.
        if !t.rooms.contains_key(rid) {
            assert(n > 0);
            assert(n == s.rooms[rid].players.len());
            lemma_members_listed(s.rooms[rid], init, c);
        }
        assert(t.rooms.contains_key(rid));
        assert(t.rooms[rid].has_player(c));
        assert(t.index.contains_key(c) && t.index[c] == rid);
        RegistryView::lemma_leave_keeps_wf(t, c);
        t.rooms[rid].lemma_without_player(c);
        let u = t.after_leave(c);
        assert(u == s.after_leaves(cs));
        if u.rooms.contains_key(rid) {
            assert forall|d: Seq<char>|
                s.rooms[rid].has_player(d) && !cs.contains(d) implies u.rooms[rid].has_player(
                d,
            ) by {
                assert(d != c) by {
                    if d == c {
                        assert(cs[n] == d);
                    }
                }
                assert(!init.contains(d)) by {
                    if init.contains(d) {
                        let i = choose|i: int| 0 <= i < init.len() && init[i] == d;
                        assert(cs[i] == d);
                    }
                }
            }
        }
        assert forall|d: Seq<char>| u.index.contains_key(d) implies s.index.contains_key(d)
            && !cs.contains(d) by {
            assert(t.index.contains_key(d));
            assert(d != c);
            if cs.contains(d) {
                let i = choose|i: int| 0 <= i < cs.len() && cs[i] == d;
                assert(i < n);
                assert(init[i] == d);
                assert(init.contains(d));
            }
        }
    }
}

/// A room whose members are listed without repetition in `cs` has no
/// member besides those.
proof fn lemma_members_listed(room: RoomView, cs: Seq<Seq<char>>, c: Seq<char>)
    requires
        room.distinct(),
        cs.no_duplicates(),
        cs.len() == room.players.len(),
        forall|i: int| 0 <= i < cs.len() ==> room.has_player(#[trigger] cs[i]),
        room.has_player(c),
    ensures
        cs.contains(c),
    decreases cs.len(),
{
    if cs.len() > 0 {
        let last = cs.last();
        if last == c {
            assert(cs[cs.len() - 1] == c);
        } else {
            let init = cs.drop_last();
            room.lemma_without_player(last);
            let rest = room.without_player(last);
            assert forall|i: int| 0 <= i < init.len() implies rest.has_player(
                #[trigger] init[i],
            ) by {
                assert(init[i] == cs[i]);
                assert(room.has_player(cs[i]));
                assert(cs[i] != cs[cs.len() - 1]);
            }
            assert(room.has_player(cs[cs.len() - 1]));
            lemma_members_listed(rest, init, c);
            let i = choose|i: int| 0 <= i < init.len() && init[i] == c;
            assert(cs[i] == c);
        }
    } else {
        let i = choose|i: int| 0 <= i < room.players.len() && (#[trigger] room.players[i]).id == c;
    }
}

/// When all the members of a room have left, in any order, the room is
/// gone: whoever tries to join it next is told that there is no such room.
pub proof fn room_is_gone_when_all_have_left(
    s: RegistryView,
    rid: Seq<char>,
    cs: Seq<Seq<char>>,
    p: PlayerView,
)
    requires
        s.wf(),
        s.rooms.contains_key(rid),
        cs.no_duplicates(),
        cs.len() == s.rooms[rid].players.len(),
        forall|i: int| 0 <= i < cs.len() ==> s.rooms[rid].has_player(#[trigger] cs[i]),
        !s.index.contains_key(p.id) || cs.contains(p.id),
    ensures
        s.after_leaves(cs).wf(),
        cs.len() > 0 ==> !s.after_leaves(cs).rooms.contains_key(rid),
        cs.len() > 0 ==> s.after_leaves(cs).join_result(rid, p) == Err::<(), JoinError>(
            JoinError::RoomNotFound,
        ),
{
    lemma_after_leaves(s, rid, cs);
}

/// Leaving is idempotent: a client that is in no room is told so, and
/// nothing changes; and after any leave the client is in no room, so that a
/// second leave is such a one.
pub proof fn leave_is_idempotent(s: RegistryView, cid: Seq<char>)
    requires
        s.wf(),
    ensures
        !s.index.contains_key(cid) ==> s.leave_result(cid) is None && s.after_leave(cid) == s,
        s.after_leave(cid).leave_result(cid) is None,
        s.after_leave(cid).after_leave(cid) == s.after_leave(cid),
{
    RegistryView::lemma_leave_keeps_wf(s, cid);
}

/// What a broadcast reaches, for a member list without repetition: every
/// member but the excluded one, each exactly once, and nobody else.
pub proof fn broadcast_reaches_each_member_once(room: RoomView, exclude: Option<Seq<char>>)
    requires
        room.distinct(),
    ensures
        room.recipients(exclude).no_duplicates(),
        forall|cid: Seq<char>| #[trigger]
            room.recipients(exclude).contains(cid) <==> room.has_player(cid) && Some(cid)
                != exclude,
    decreases room.players.len(),
{
    let keep = |p: PlayerView| Some(p.id) != exclude;
    let name = |p: PlayerView| p.id;
    let out = room.recipients(exclude);
    if room.players.len() == 0 {
        assert(room.players =~= Seq::empty());
        assert(room.players.filter(keep) =~= Seq::empty()) by {
            room.players.lemma_filter_len(keep);
        }
        assert(out =~= Seq::empty());
        assert forall|cid: Seq<char>| #[trigger] out.contains(cid) <==> room.has_player(cid)
            && Some(cid) != exclude by {
            if out.contains(cid) {
                let i = choose|i: int| 0 <= i < out.len() && out[i] == cid;
            }
        }
    } else {
        let init = RoomView { players: room.players.drop_last(), ..room };
        let last = room.players.last();
        let n = init.players.len() as int;
        assert(init.distinct()) by {
            assert forall|i: int, j: int|
                0 <= i < init.players.len() && 0 <= j < init.players.len() && i
                    != j implies (#[trigger] init.players[i]).id != (
            #[trigger] init.players[j]).id by {
                assert(init.players[i] == room.players[i]);
                assert(init.players[j] == room.players[j]);
            }
        }
        broadcast_reaches_each_member_once(init, exclude);
        let sub = init.recipients(exclude);
        assert(room.players =~= init.players.push(last));
        init.players.lemma_filter_push(last, keep);
        assert(!init.has_player(last.id)) by {
            if init.has_player(last.id) {
                let i = choose|i: int|
                    0 <= i < init.players.len() && (#[trigger] init.players[i]).id == last.id;
                assert(init.players[i] == room.players[i]);
                assert(room.players[i].id != room.players[n].id);
            }
        }
        if keep(last) {
            assert(out =~= sub.push(last.id)) by {
                assert(room.players.filter(keep) == init.players.filter(keep).push(last));
                assert(init.players.filter(keep).push(last).map_values(name)
                    =~= init.players.filter(keep).map_values(name).push(last.id));
            }
            assert(!sub.contains(last.id));
            assert(out.no_duplicates()) by {
                assert forall|i: int, j: int|
                    0 <= i < out.len() && 0 <= j < out.len() && i != j implies out[i]
                    != out[j] by {
                    if i < sub.len() && j < sub.len() {
                        assert(sub[i] != sub[j]);
                    } else if i < sub.len() {
                        assert(sub.contains(sub[i]));
                    } else {
                        assert(sub.contains(sub[j]));
                    }
                }
            }
        } else {
            assert(out =~= sub);
        }
        assert forall|cid: Seq<char>| #[trigger] out.contains(cid) <==> room.has_player(cid)
            && Some(cid) != exclude by {
            if out.contains(cid) {
                let i = choose|i: int| 0 <= i < out.len() && out[i] == cid;
                if i < sub.len() {
                    assert(sub.contains(sub[i]));
                    assert(init.has_player(cid));
                    let k = choose|k: int|
                        0 <= k < init.players.len() && (#[trigger] init.players[k]).id == cid;
                    assert(room.players[k].id == cid);
                } else {
                    assert(room.players[n].id == cid);
                }
            }
            if room.has_player(cid) && Some(cid) != exclude {
                let k = choose|k: int|
                    0 <= k < room.players.len() && (#[trigger] room.players[k]).id == cid;
                if k < n {
                    assert(init.players[k].id == cid);
                    assert(sub.contains(cid));
                    let i = choose|i: int| 0 <= i < sub.len() && sub[i] == cid;
                    assert(out[i] == cid);
                } else {
                    assert(out[out.len() - 1] == cid);
                }
            }
        }
    }
}


/// A broadcast into a room reaches exactly the clients that are in that
/// room, but for the excluded one, and each of them once.
pub proof fn broadcast_reaches_the_rooms_clients(
    s: RegistryView,
    rid: Seq<char>,
    exclude: Option<Seq<char>>,
)
    requires
        s.wf(),
    ensures
        s.recipients(rid, exclude).no_duplicates(),
        forall|cid: Seq<char>| #[trigger]
            s.recipients(rid, exclude).contains(cid) <==> s.rooms.contains_key(rid) && s.room_of(
                cid,
            ) == Some(rid) && Some(cid) != exclude,
{
    if s.rooms.contains_key(rid) {
        broadcast_reaches_each_member_once(s.rooms[rid], exclude);
        assert forall|cid: Seq<char>| #[trigger]
            s.recipients(rid, exclude).contains(cid) <==> s.rooms.contains_key(rid) && s.room_of(
                cid,
            ) == Some(rid) && Some(cid) != exclude by {
            if s.room_of(cid) == Some(rid) {
                assert(s.index.contains_key(cid));
                assert(s.rooms[s.index[cid]].has_player(cid));
            }
            if s.rooms[rid].has_player(cid) {
                assert(s.index[cid] == rid);
            }
        }
    } else {
        let none = s.recipients(rid, exclude);
        assert forall|cid: Seq<char>| !(#[trigger] none.contains(cid)) by {
            if none.contains(cid) {
                let i = choose|i: int| 0 <= i < none.len() && none[i] == cid;
            }
        }
    }
}

} // verus!
