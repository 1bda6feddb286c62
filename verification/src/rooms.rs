//! Registry of chat rooms.
//!
//! A room is created lazily by the first join and deleted when its last
//! occupant leaves, so a room exists exactly while it has at least one
//! subscriber.  Each room carries a broadcast topic: a bounded, lossy,
//! multi-subscriber fan-out channel that delivers each published message
//! to every current subscriber.
use vstd::prelude::*;

use tokio::sync::broadcast::Receiver;
use tokio::sync::broadcast::Sender;

verus! {

/// Declares tokio::sync::broadcast::Sender, the publishing half of a
/// room's topic, as an opaque outside type.
#[verifier::external_type_specification]
#[verifier::external_body]
#[verifier::reject_recursive_types(T)]
pub struct ExSender<T>(Sender<T>);

/// Declares tokio::sync::broadcast::Receiver, one subscriber's handle
/// on a room's topic, as an opaque outside type.
#[verifier::external_type_specification]
#[verifier::external_body]
#[verifier::reject_recursive_types(T)]
pub struct ExReceiver<T>(Receiver<T>);

/// How many undelivered messages a room's topic buffers for a slow
/// subscriber before it starts dropping the oldest ones.
pub const TOPIC_CAPACITY: usize = 32;

/// Relies on tokio::sync::broadcast::channel: creates a fresh topic with
/// the given buffer capacity; it panics only when the capacity is zero or
/// does not fit the buffer index space.
#[verifier::external_body]
fn topic_new(capacity: usize) -> (tx: Sender<String>)
    requires
        1 <= capacity <= 1024,
{
    let (tx, _rx) = tokio::sync::broadcast::channel(capacity);
    tx
}

/// Relies on tokio::sync::broadcast::Sender::subscribe: returns a new
/// receiver on the sender's topic that sees every message published
/// after this call.
#[verifier::external_body]
fn topic_subscribe(tx: &Sender<String>) -> (rx: Receiver<String>) {
    tx.subscribe()
}

/// Relies on tokio::sync::broadcast::Sender::send: publishes the message
/// to all current receivers and reports whether there was at least one;
/// it never blocks and never panics.
#[verifier::external_body]
fn topic_send(tx: &Sender<String>, msg: String) -> (ok: bool) {
    match tx.send(msg) {
        Ok(_) => true,
        Err(_) => false,
    }
}

/// One live room: its name, its occupant count, and its topic.
struct RoomEntry {
    name: String,
    count: usize,
    topic: Sender<String>,
}

/// Occupancy after one session joins room `k`: an absent room is created
/// with one occupant, an existing one gains an occupant.
pub open spec fn join_step(m: Map<Seq<char>, nat>, k: Seq<char>) -> Map<Seq<char>, nat> {
    if m.contains_key(k) {
        m.insert(k, m[k] + 1)
    } else {
        m.insert(k, 1)
    }
}

/// Occupancy after one session leaves room `k`: the last occupant's
/// departure deletes the room, any other departure lowers the count,
/// and leaving an absent room changes nothing.
pub open spec fn leave_step(m: Map<Seq<char>, nat>, k: Seq<char>) -> Map<Seq<char>, nat> {
    if m.contains_key(k) {
        if m[k] <= 1 {
            m.remove(k)
        } else {
            m.insert(k, (m[k] - 1) as nat)
        }
    } else {
        m
    }
}

spec fn has_room(s: Seq<RoomEntry>, k: Seq<char>) -> bool {
    exists|i: int| 0 <= i < s.len() && s[i].name@ == k
}

spec fn room_at(s: Seq<RoomEntry>, k: Seq<char>) -> int {
    choose|i: int| 0 <= i < s.len() && s[i].name@ == k
}

/// The occupancy map of the entry list: room name to occupant count.
spec fn occupancy(s: Seq<RoomEntry>) -> Map<Seq<char>, nat> {
    Map::new(|k: Seq<char>| has_room(s, k), |k: Seq<char>| s[room_at(s, k)].count as nat)
}

spec fn entries_wf(s: Seq<RoomEntry>) -> bool {
    &&& forall|i: int, j: int| 0 <= i < j < s.len() ==> s[i].name@ != s[j].name@
    &&& forall|i: int| 0 <= i < s.len() ==> #[trigger] s[i].count >= 1
}

/// The rooms that currently exist, each with at least one occupant.
pub struct Rooms {
    rooms: Vec<RoomEntry>,
}

impl View for Rooms {
    type V = Map<Seq<char>, nat>;

    closed spec fn view(&self) -> Map<Seq<char>, nat> {
        occupancy(self.rooms@)
    }
}

impl Rooms {
    /// Every room is named once and has at least one occupant.
    pub closed spec fn wf(&self) -> bool {
        entries_wf(self.rooms@)
    }

    /// An empty registry: no room exists yet.
    pub fn new() -> (r: Rooms)
        ensures
            r.wf(),
            r@ == Map::<Seq<char>, nat>::empty(),
    {
        let r = Rooms { rooms: Vec::new() };
        proof {
            assert(r@ =~= Map::<Seq<char>, nat>::empty());
        }
        r
    }

    /// Adds one occupant to the named room, creating the room with a
    /// fresh topic if it does not exist yet, and returns a subscription
    /// to the room's topic.
    pub fn join(&mut self, room: &str) -> (rx: Receiver<String>)
        requires
            old(self).wf(),
            old(self)@.contains_key(room@) ==> old(self)@[room@] < usize::MAX,
        ensures
            final(self).wf(),
            final(self)@ == join_step(old(self)@, room@),
    {
        let wanted = room.to_owned();
        let n = self.rooms.len();
        let mut i: usize = 0;
        while i < n
            invariant
                *self == *old(self),
                old(self).wf(),
                old(self)@.contains_key(room@) ==> old(self)@[room@] < usize::MAX,
                wanted@ == room@,
                n == self.rooms@.len(),
                0 <= i <= n,
                forall|k: int| 0 <= k < i ==> self.rooms@[k].name@ != room@,
            decreases n - i,
        {
            if self.rooms[i].name == wanted {
                proof {
                    assert(self.rooms@[i as int].name@ == room@);
                    assert(has_room(self.rooms@, room@));
                    lemma_room_at_unique(self.rooms@, room@, i as int);
                    assert(self@[room@] == self.rooms@[i as int].count as nat);
                }
                let ghost before = self.rooms@;
                let c = self.rooms[i].count;
                self.rooms[i].count = c + 1;
                let rx = topic_subscribe(&self.rooms[i].topic);
                proof {
                    lemma_occupancy_update_count(before, i as int, self.rooms@);
                }
                return rx;
            }
            i += 1;
        }
        proof {
            assert(!has_room(self.rooms@, room@));
            assert(!self@.contains_key(room@));
        }
        let topic = topic_new(TOPIC_CAPACITY);
        let rx = topic_subscribe(&topic);
        let ghost before = self.rooms@;
        self.rooms.push(RoomEntry { name: wanted, count: 1, topic });
        proof {
            lemma_occupancy_push(before, self.rooms@);
        }
        rx
    }

    /// Removes one occupant from the named room, deleting the room when
    /// its last occupant leaves.  Leaving an absent room is a no-op.
    pub fn leave(&mut self, room: &str)
        requires
            old(self).wf(),
        ensures
            final(self).wf(),
            final(self)@ == leave_step(old(self)@, room@),
    {
        let wanted = room.to_owned();
        let n = self.rooms.len();
        let mut i: usize = 0;
        while i < n
            invariant
                *self == *old(self),
                old(self).wf(),
                wanted@ == room@,
                n == self.rooms@.len(),
                0 <= i <= n,
                forall|k: int| 0 <= k < i ==> self.rooms@[k].name@ != room@,
            decreases n - i,
        {
            if self.rooms[i].name == wanted {
                proof {
                    assert(self.rooms@[i as int].name@ == room@);
                    assert(has_room(self.rooms@, room@));
                    lemma_room_at_unique(self.rooms@, room@, i as int);
                }
                let ghost before = self.rooms@;
                let c = self.rooms[i].count;
                if c <= 1 {
                    self.rooms.remove(i);
                    proof {
                        lemma_occupancy_remove(before, i as int);
                    }
                } else {
                    self.rooms[i].count = c - 1;
                    proof {
                        lemma_occupancy_update_count(before, i as int, self.rooms@);
                    }
                }
                return;
            }
            i += 1;
        }
        proof {
            assert(!has_room(self.rooms@, room@));
            assert(!self@.contains_key(room@));
        }
    }

    /// Moves one occupant from `prev_room` to `next_room`: leaves the
    /// first, joins the second, and returns the new subscription.
    pub fn change(&mut self, prev_room: &str, next_room: &str) -> (rx: Receiver<String>)
        requires
            old(self).wf(),
            old(self)@.contains_key(next_room@) ==> old(self)@[next_room@] < usize::MAX,
        ensures
            final(self).wf(),
            final(self)@ == join_step(leave_step(old(self)@, prev_room@), next_room@),
    {
        self.leave(prev_room);
        self.join(next_room)
    }

    /// Publishes `msg` to every current subscriber of the named room's
    /// topic and reports whether the topic accepted it.  Publishing to an
    /// absent room is a legal no-op and always succeeds.
    pub fn broadcast(&self, room: &str, msg: String) -> (ok: bool)
        requires
            self.wf(),
        ensures
            !self@.contains_key(room@) ==> ok,
    {
        let wanted = room.to_owned();
        let n = self.rooms.len();
        let mut i: usize = 0;
        while i < n
            invariant
                wanted@ == room@,
                n == self.rooms@.len(),
                0 <= i <= n,
                forall|k: int| 0 <= k < i ==> self.rooms@[k].name@ != room@,
            decreases n - i,
        {
            if self.rooms[i].name == wanted {
                return topic_send(&self.rooms[i].topic, msg);
            }
            i += 1;
        }
        proof {
            assert(!has_room(self.rooms@, room@));
            assert(!self@.contains_key(room@));
        }
        true
    }
}

/// The index that `room_at` picks for `k` is the only one naming `k`.
proof fn lemma_room_at_unique(s: Seq<RoomEntry>, k: Seq<char>, i: int)
    requires
        entries_wf(s),
        0 <= i < s.len(),
        s[i].name@ == k,
    ensures
        room_at(s, k) == i,
{
    let j = room_at(s, k);
    assert(has_room(s, k));
    assert(0 <= j < s.len() && s[j].name@ == k);
}

/// Changing only the count of entry `i` moves the occupancy map to the
/// updated count at that entry's name.
proof fn lemma_occupancy_update_count(before: Seq<RoomEntry>, i: int, after: Seq<RoomEntry>)
    requires
        entries_wf(before),
        0 <= i < before.len(),
        after.len() == before.len(),
        after[i].name@ == before[i].name@,
        forall|k: int| 0 <= k < before.len() && k != i ==> after[k] == before[k],
        after[i].count >= 1,
    ensures
        entries_wf(after),
        occupancy(after) == occupancy(before).insert(before[i].name@, after[i].count as nat),
{
    assert forall|p: int, q: int| 0 <= p < q < after.len()
        implies after[p].name@ != after[q].name@ by {
        assert(before[p].name@ != before[q].name@);
    }
    let m0 = occupancy(before);
    let m1 = occupancy(after);
    let key = before[i].name@;
    assert forall|k: Seq<char>| m1.contains_key(k) == m0.insert(key, after[i].count as nat).contains_key(k) by {
        if has_room(after, k) {
            let w = choose|w: int| 0 <= w < after.len() && after[w].name@ == k;
            assert(before[w].name@ == k);
            assert(has_room(before, k));
        }
        if has_room(before, k) {
            let w = choose|w: int| 0 <= w < before.len() && before[w].name@ == k;
            assert(after[w].name@ == k);
            assert(has_room(after, k));
        }
    }
    assert forall|k: Seq<char>| m1.contains_key(k)
        implies m1[k] == m0.insert(key, after[i].count as nat)[k] by {
        let w = room_at(after, k);
        assert(0 <= w < after.len() && after[w].name@ == k);
        if k == key {
            lemma_room_at_unique(after, k, i);
        } else {
            assert(before[w].name@ == k);
            lemma_room_at_unique(before, k, w);
        }
    }
    assert(m1 =~= m0.insert(key, after[i].count as nat));
}

/// Appending a fresh one-occupant entry adds exactly its room.
proof fn lemma_occupancy_push(before: Seq<RoomEntry>, after: Seq<RoomEntry>)
    requires
        entries_wf(before),
        after.len() == before.len() + 1,
        forall|k: int| 0 <= k < before.len() ==> after[k] == before[k],
        !has_room(before, after[before.len() as int].name@),
        after[before.len() as int].count == 1,
    ensures
        entries_wf(after),
        occupancy(after) == occupancy(before).insert(after[before.len() as int].name@, 1),
{
    let key = after[before.len() as int].name@;
    assert forall|p: int, q: int| 0 <= p < q < after.len()
        implies after[p].name@ != after[q].name@ by {
        if q < before.len() {
            assert(before[p].name@ != before[q].name@);
        } else {
            assert(after[p] == before[p]);
            if after[p].name@ == key {
                assert(has_room(before, key));
            }
        }
    }
    let m0 = occupancy(before);
    let m1 = occupancy(after);
    assert forall|k: Seq<char>| m1.contains_key(k) == m0.insert(key, 1nat).contains_key(k) by {
        if has_room(after, k) && k != key {
            let w = choose|w: int| 0 <= w < after.len() && after[w].name@ == k;
            assert(w != before.len());
            assert(before[w].name@ == k);
            assert(has_room(before, k));
        }
        if has_room(before, k) {
            let w = choose|w: int| 0 <= w < before.len() && before[w].name@ == k;
            assert(after[w].name@ == k);
            assert(has_room(after, k));
        }
        assert(has_room(after, key));
    }
    assert forall|k: Seq<char>| m1.contains_key(k) implies m1[k] == m0.insert(key, 1nat)[k] by {
        let w = room_at(after, k);
        assert(0 <= w < after.len() && after[w].name@ == k);
        if k == key {
            lemma_room_at_unique(after, k, before.len() as int);
        } else {
            assert(w < before.len());
            assert(before[w].name@ == k);
            lemma_room_at_unique(before, k, w);
        }
    }
    assert(m1 =~= m0.insert(key, 1nat));
}

/// Removing entry `i` removes exactly its room from the occupancy map.
proof fn lemma_occupancy_remove(before: Seq<RoomEntry>, i: int)
    requires
        entries_wf(before),
        0 <= i < before.len(),
    ensures
        entries_wf(before.remove(i)),
        occupancy(before.remove(i)) == occupancy(before).remove(before[i].name@),
{
    let after = before.remove(i);
    let key = before[i].name@;
    assert forall|p: int, q: int| 0 <= p < q < after.len()
        implies after[p].name@ != after[q].name@ by {
        let p0: int = if p < i { p } else { p + 1 };
        let q0: int = if q < i { q } else { q + 1 };
        assert(after[p] == before[p0]);
        assert(after[q] == before[q0]);
        assert(before[p0].name@ != before[q0].name@);
    }
    assert forall|w: int| 0 <= w < after.len() implies #[trigger] after[w].count >= 1 by {
        let w0: int = if w < i { w } else { w + 1 };
        assert(after[w] == before[w0]);
    }
    let m0 = occupancy(before);
    let m1 = occupancy(after);
    assert forall|k: Seq<char>| m1.contains_key(k) == m0.remove(key).contains_key(k) by {
        if has_room(after, k) {
            let w = choose|w: int| 0 <= w < after.len() && after[w].name@ == k;
            let w0: int = if w < i { w } else { w + 1 };
            assert(before[w0].name@ == k);
            assert(has_room(before, k));
            if k == key {
                assert(before[i].name@ == before[w0].name@ && i != w0);
            }
        }
        if has_room(before, k) && k != key {
            let w = choose|w: int| 0 <= w < before.len() && before[w].name@ == k;
            assert(w != i);
            if w < i {
                assert(after[w].name@ == k);
            } else {
                assert(after[w - 1].name@ == k);
            }
            assert(has_room(after, k));
        }
    }
    assert forall|k: Seq<char>| m1.contains_key(k) implies m1[k] == m0.remove(key)[k] by {
        let w = room_at(after, k);
        assert(0 <= w < after.len() && after[w].name@ == k);
        let w0: int = if w < i { w } else { w + 1 };
        assert(before[w0].name@ == k);
        lemma_room_at_unique(before, k, w0);
        assert(after[w].count == before[w0].count);
    }
    assert(m1 =~= m0.remove(key));
}

impl Rooms {
    /// Whether every room can still take one more occupant without its
    /// counter overflowing.
    pub fn has_capacity(&self) -> (r: bool)
        requires
            self.wf(),
        ensures
            r == counts_in_bounds(self@),
    {
        let n = self.rooms.len();
        let mut i: usize = 0;
        while i < n
            invariant
                self.wf(),
                n == self.rooms@.len(),
                0 <= i <= n,
                forall|k: int| 0 <= k < i ==> (#[trigger] self.rooms@[k].count) < usize::MAX,
            decreases n - i,
        {
            if self.rooms[i].count == usize::MAX {
                proof {
                    assert(self.rooms@[i as int].name@ == self.rooms@[i as int].name@);
                    assert(has_room(self.rooms@, self.rooms@[i as int].name@));
                    lemma_room_at_unique(self.rooms@, self.rooms@[i as int].name@, i as int);
                    assert(self@.contains_key(self.rooms@[i as int].name@)
                        && self@[self.rooms@[i as int].name@] == usize::MAX as nat);
                }
                return false;
            }
            i += 1;
        }
        proof {
            assert forall|k: Seq<char>| #[trigger] self@.contains_key(k)
                implies self@[k] < usize::MAX by {
                let e = room_at(self.rooms@, k);
                assert(0 <= e < self.rooms@.len() && self.rooms@[e].name@ == k);
            }
        }
        true
    }
}

/// Room existence: a room appears in a listing exactly when it exists
/// in the registry, and an existing room always has at least one
/// occupant.
pub proof fn lemma_listed_iff_occupied(
    l: Seq<(String, usize)>,
    m: Map<Seq<char>, nat>,
    k: Seq<char>,
)
    requires
        is_listing_of(l, m),
    ensures
        (exists|w: int| 0 <= w < l.len() && l[w].0@ == k) <==> m.contains_key(k),
        m.contains_key(k) ==> m[k] >= 1,
{
    if exists|w: int| 0 <= w < l.len() && l[w].0@ == k {
        let w = choose|w: int| 0 <= w < l.len() && l[w].0@ == k;
        assert(m.contains_key(l[w].0@));
    }
    if m.contains_key(k) {
        let w = choose|w: int| 0 <= w < l.len() && l[w].0@ == k;
        assert(m[l[w].0@] == l[w].1 as nat && l[w].1 >= 1);
    }
}

/// Room cleanup: when the last occupant of a room leaves, the room is
/// gone; a subsequent join recreates it fresh with exactly one occupant.
pub proof fn lemma_room_cleanup(m: Map<Seq<char>, nat>, k: Seq<char>)
    requires
        m.contains_key(k),
        m[k] == 1,
    ensures
        !leave_step(m, k).contains_key(k),
        join_step(leave_step(m, k), k).contains_key(k),
        join_step(leave_step(m, k), k)[k] == 1,
{
}


/// Strict codepoint-lexicographic order on character sequences.
pub open spec fn lex_lt(a: Seq<char>, b: Seq<char>) -> bool
    decreases a.len(),
{
    if b.len() == 0 {
        false
    } else if a.len() == 0 {
        true
    } else if a[0] != b[0] {
        a[0] < b[0]
    } else {
        lex_lt(a.drop_first(), b.drop_first())
    }
}

/// The listing order: more occupants first, ties broken by room name
/// ascending.
pub open spec fn listing_lt(a: (String, usize), b: (String, usize)) -> bool {
    a.1 > b.1 || (a.1 == b.1 && lex_lt(a.0@, b.0@))
}

/// No later entry of the listing should come before an earlier one.
pub open spec fn listing_sorted(l: Seq<(String, usize)>) -> bool {
    forall|i: int, j: int| 0 <= i < j < l.len() ==> !listing_lt(l[j], l[i])
}

proof fn lemma_lex_lt_trans(a: Seq<char>, b: Seq<char>, c: Seq<char>)
    requires
        lex_lt(a, b),
        lex_lt(b, c),
    ensures
        lex_lt(a, c),
    decreases a.len(),
{
    if b.len() == 0 {
    } else if a.len() == 0 {
    } else if c.len() == 0 {
    } else if a[0] != b[0] {
        if b[0] != c[0] {
        } else {
        }
    } else if b[0] != c[0] {
    } else {
        lemma_lex_lt_trans(a.drop_first(), b.drop_first(), c.drop_first());
    }
}

proof fn lemma_lex_lt_irrefl(a: Seq<char>)
    ensures
        !lex_lt(a, a),
    decreases a.len(),
{
    if a.len() > 0 {
        lemma_lex_lt_irrefl(a.drop_first());
    }
}

proof fn lemma_listing_lt_irrefl(a: (String, usize))
    ensures
        !listing_lt(a, a),
{
    lemma_lex_lt_irrefl(a.0@);
}

proof fn lemma_listing_lt_trans(a: (String, usize), b: (String, usize), c: (String, usize))
    requires
        listing_lt(a, b),
        listing_lt(b, c),
    ensures
        listing_lt(a, c),
{
    if a.1 == b.1 && b.1 == c.1 {
        lemma_lex_lt_trans(a.0@, b.0@, c.0@);
    }
}

fn str_lt(a: &str, b: &str) -> (r: bool)
    ensures
        r == lex_lt(a@, b@),
    decreases a@.len(),
{
    let bn = b.unicode_len();
    if bn == 0 {
        return false;
    }
    let an = a.unicode_len();
    if an == 0 {
        return true;
    }
    let ca = a.get_char(0);
    let cb = b.get_char(0);
    if ca != cb {
        ca < cb
    } else {
        let ta = a.substring_char(1, an);
        let tb = b.substring_char(1, bn);
        proof {
            assert(ta@ =~= a@.drop_first());
            assert(tb@ =~= b@.drop_first());
        }
        str_lt(ta, tb)
    }
}

fn listing_before(a: &(String, usize), b: &(String, usize)) -> (r: bool)
    ensures
        r == listing_lt(*a, *b),
{
    if a.1 > b.1 {
        true
    } else if a.1 == b.1 {
        str_lt(a.0.as_str(), b.0.as_str())
    } else {
        false
    }
}

/// The index before which `p` belongs in the ordered listing `out`.
fn find_slot(out: &Vec<(String, usize)>, p: &(String, usize)) -> (at: usize)
    ensures
        0 <= at <= out@.len(),
        forall|k: int| 0 <= k < at ==> !listing_lt(*p, out@[k]),
        at < out@.len() ==> listing_lt(*p, out@[at as int]),
{
    let m = out.len();
    let mut j: usize = 0;
    while j < m
        invariant
            m == out@.len(),
            0 <= j <= m,
            forall|k: int| 0 <= k < j ==> !listing_lt(*p, out@[k]),
        decreases m - j,
    {
        if listing_before(p, &out[j]) {
            return j;
        }
        j += 1;
    }
    m
}

/// Inserts `p` at its place in a listing ordered by `listing_lt`.
fn insert_sorted(out: &mut Vec<(String, usize)>, p: (String, usize)) -> (at: usize)
    requires
        listing_sorted(old(out)@),
    ensures
        0 <= at <= old(out)@.len(),
        final(out)@ == old(out)@.insert(at as int, p),
        listing_sorted(final(out)@),
{
    let at = find_slot(out, &p);
    let ghost before = out@;
    let ghost jj = at as int;
    let ghost m = out@.len() as int;
    out.insert(at, p);
    proof {
        assert forall|x: int, y: int| 0 <= x < y < out@.len()
            implies !listing_lt(out@[y], out@[x]) by {
            if y < jj {
                assert(out@[x] == before[x] && out@[y] == before[y]);
            } else if x > jj {
                assert(out@[x] == before[x - 1] && out@[y] == before[y - 1]);
            } else if x < jj && y == jj {
                assert(out@[x] == before[x] && out@[y] == p);
            } else if x < jj && y > jj {
                assert(out@[x] == before[x] && out@[y] == before[y - 1]);
            } else if x == jj && y > jj {
                assert(out@[x] == p && out@[y] == before[y - 1]);
                assert(jj < m);
                assert(listing_lt(p, before[jj]));
                if listing_lt(before[y - 1], p) {
                    lemma_listing_lt_trans(before[y - 1], p, before[jj]);
                    if y - 1 == jj {
                        lemma_listing_lt_irrefl(before[jj]);
                    } else {
                        assert(!listing_lt(before[y - 1], before[jj]));
                    }
                }
            }
        }
    }
    at
}

/// Every listing entry reports a room of `rooms` with index below `i`.
spec fn listing_from(l: Seq<(String, usize)>, rooms: Seq<RoomEntry>, i: int) -> bool {
    forall|w: int| 0 <= w < l.len()
        ==> exists|k: int|
            0 <= k < i && (#[trigger] l[w]).0@ == rooms[k].name@ && l[w].1 == rooms[k].count
}

/// Every room of `rooms` with index below `i` appears in the listing.
spec fn listing_covers(l: Seq<(String, usize)>, rooms: Seq<RoomEntry>, i: int) -> bool {
    forall|k: int| 0 <= k < i
        ==> exists|w: int| 0 <= w < l.len() && l[w].0@ == (#[trigger] rooms[k]).name@
}

spec fn listing_distinct(l: Seq<(String, usize)>) -> bool {
    forall|w: int, x: int| 0 <= w < x < l.len() ==> l[w].0@ != l[x].0@
}

/// `l` is the one listing of occupancy `m`: ordered, without repetition,
/// and naming exactly the rooms of `m` with their counts.
pub open spec fn is_listing_of(l: Seq<(String, usize)>, m: Map<Seq<char>, nat>) -> bool {
    &&& listing_sorted(l)
    &&& forall|w: int| 0 <= w < l.len()
        ==> (#[trigger] l[w]).1 >= 1 && m.contains_key(l[w].0@) && m[l[w].0@] == l[w].1 as nat
    &&& forall|k: Seq<char>| #[trigger] m.contains_key(k)
        ==> exists|w: int| 0 <= w < l.len() && l[w].0@ == k
    &&& forall|w: int, x: int| 0 <= w < x < l.len() ==> l[w].0@ != l[x].0@
}

/// Every room's occupant count still fits the counter.
pub open spec fn counts_in_bounds(m: Map<Seq<char>, nat>) -> bool {
    forall|k: Seq<char>| #[trigger] m.contains_key(k) ==> m[k] < usize::MAX
}

/// Inserting the entry for room `i` keeps every listing entry a report
/// of one of the first `i + 1` rooms.
proof fn lemma_from_step(
    before: Seq<(String, usize)>,
    rooms: Seq<RoomEntry>,
    i: int,
    jj: int,
    p: (String, usize),
)
    requires
        0 <= i < rooms.len(),
        0 <= jj <= before.len(),
        p.0@ == rooms[i].name@,
        p.1 == rooms[i].count,
        listing_from(before, rooms, i),
    ensures
        listing_from(before.insert(jj, p), rooms, i + 1),
{
    let after = before.insert(jj, p);
    assert forall|w: int| 0 <= w < after.len()
        implies exists|k: int|
            0 <= k < i + 1 && (#[trigger] after[w]).0@ == rooms[k].name@
                && after[w].1 == rooms[k].count by {
        if w < jj {
            assert(after[w] == before[w]);
            let k0 = choose|k: int|
                0 <= k < i && before[w].0@ == rooms[k].name@ && before[w].1 == rooms[k].count;
            assert(0 <= k0 < i + 1 && after[w].0@ == rooms[k0].name@
                && after[w].1 == rooms[k0].count);
        } else if w == jj {
            assert(after[w] == p);
            assert(0 <= i < i + 1 && after[w].0@ == rooms[i].name@
                && after[w].1 == rooms[i].count);
        } else {
            assert(after[w] == before[w - 1]);
            let k0 = choose|k: int|
                0 <= k < i && before[w - 1].0@ == rooms[k].name@
                    && before[w - 1].1 == rooms[k].count;
            assert(0 <= k0 < i + 1 && after[w].0@ == rooms[k0].name@
                && after[w].1 == rooms[k0].count);
        }
    }
}

/// Inserting the entry for room `i` keeps each of the first `i + 1`
/// rooms present in the listing.
proof fn lemma_covers_step(
    before: Seq<(String, usize)>,
    rooms: Seq<RoomEntry>,
    i: int,
    jj: int,
    p: (String, usize),
)
    requires
        0 <= i < rooms.len(),
        0 <= jj <= before.len(),
        p.0@ == rooms[i].name@,
        listing_covers(before, rooms, i),
    ensures
        listing_covers(before.insert(jj, p), rooms, i + 1),
{
    let after = before.insert(jj, p);
    assert(after[jj] == p);
    assert forall|k: int| 0 <= k < i + 1
        implies exists|w: int| 0 <= w < after.len() && after[w].0@ == (#[trigger] rooms[k]).name@ by {
        if k < i {
            let w0 = choose|w: int| 0 <= w < before.len() && before[w].0@ == rooms[k].name@;
            if w0 < jj {
                assert(after[w0] == before[w0]);
                assert(after[w0].0@ == rooms[k].name@);
            } else {
                assert(after[w0 + 1] == before[w0]);
                assert(after[w0 + 1].0@ == rooms[k].name@);
            }
        } else {
            assert(after[jj].0@ == rooms[k].name@);
        }
    }
}

/// Inserting the entry for room `i`, absent so far, keeps the listed
/// room names distinct.
proof fn lemma_distinct_step(
    before: Seq<(String, usize)>,
    rooms: Seq<RoomEntry>,
    i: int,
    jj: int,
    p: (String, usize),
)
    requires
        entries_wf(rooms),
        0 <= i < rooms.len(),
        0 <= jj <= before.len(),
        p.0@ == rooms[i].name@,
        listing_from(before, rooms, i),
        listing_distinct(before),
    ensures
        listing_distinct(before.insert(jj, p)),
{
    let after = before.insert(jj, p);
    assert(after[jj] == p);
    assert forall|w: int, x: int| 0 <= w < x < after.len()
        implies after[w].0@ != after[x].0@ by {
        if w == jj || x == jj {
            let o: int = if w == jj { x } else { w };
            let o0: int = if o < jj { o } else { o - 1 };
            assert(after[o] == before[o0]);
            let k0 = choose|k: int|
                0 <= k < i && before[o0].0@ == rooms[k].name@ && before[o0].1 == rooms[k].count;
            assert(rooms[k0].name@ != rooms[i].name@);
        } else {
            let w0: int = if w < jj { w } else { w - 1 };
            let x0: int = if x < jj { x } else { x - 1 };
            assert(after[w] == before[w0] && after[x] == before[x0]);
            assert(w0 < x0);
        }
    }
}

/// A listing drawn faithfully from all entries reports the occupancy map
/// exactly.
proof fn lemma_listing_exact(l: Seq<(String, usize)>, rooms: Seq<RoomEntry>)
    requires
        entries_wf(rooms),
        listing_from(l, rooms, rooms.len() as int),
        listing_covers(l, rooms, rooms.len() as int),
    ensures
        forall|w: int| 0 <= w < l.len()
            ==> (#[trigger] l[w]).1 >= 1 && occupancy(rooms).contains_key(l[w].0@)
                && occupancy(rooms)[l[w].0@] == l[w].1 as nat,
        forall|k: Seq<char>| #[trigger] occupancy(rooms).contains_key(k)
            ==> exists|w: int| 0 <= w < l.len() && l[w].0@ == k,
{
    assert forall|w: int| 0 <= w < l.len()
        implies (#[trigger] l[w]).1 >= 1 && occupancy(rooms).contains_key(l[w].0@)
            && occupancy(rooms)[l[w].0@] == l[w].1 as nat by {
        let k0 = choose|k: int|
            0 <= k < rooms.len() && l[w].0@ == rooms[k].name@ && l[w].1 == rooms[k].count;
        assert(has_room(rooms, l[w].0@));
        lemma_room_at_unique(rooms, l[w].0@, k0);
        assert(rooms[k0].count >= 1);
    }
    assert forall|k: Seq<char>| #[trigger] occupancy(rooms).contains_key(k)
        implies exists|w: int| 0 <= w < l.len() && l[w].0@ == k by {
        let e = room_at(rooms, k);
        assert(0 <= e < rooms.len() && rooms[e].name@ == k);
        assert(exists|w: int| 0 <= w < l.len() && l[w].0@ == (#[trigger] rooms[e]).name@);
    }
}

impl Rooms {
    /// A snapshot of every existing room with its occupant count, most
    /// occupied first and ties broken by room name ascending.  A room is
    /// listed exactly when it currently has at least one occupant.
    pub fn lists(&self) -> (r: Vec<(String, usize)>)
        requires
            self.wf(),
        ensures
            is_listing_of(r@, self@),
    {
        let n = self.rooms.len();
        let mut out: Vec<(String, usize)> = Vec::new();
        let mut i: usize = 0;
        while i < n
            invariant
                self.wf(),
                n == self.rooms@.len(),
                0 <= i <= n,
                listing_sorted(out@),
                listing_from(out@, self.rooms@, i as int),
                listing_covers(out@, self.rooms@, i as int),
                listing_distinct(out@),
            decreases n - i,
        {
            let p = (self.rooms[i].name.clone(), self.rooms[i].count);
            let ghost before = out@;
            let at = insert_sorted(&mut out, p);
            proof {
                assert(out@ == before.insert(at as int, p));
                lemma_from_step(before, self.rooms@, i as int, at as int, p);
                lemma_covers_step(before, self.rooms@, i as int, at as int, p);
                lemma_distinct_step(before, self.rooms@, i as int, at as int, p);
            }
            i += 1;
        }
        proof {
            lemma_listing_exact(out@, self.rooms@);
        }
        out
    }
}

} // verus!
