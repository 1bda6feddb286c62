//! Registry of the display names currently held by live sessions.
//!
//! The registry guarantees that no two live sessions hold the same name:
//! a name can be claimed only while no other session holds it, and only
//! the holder releases it.
use vstd::prelude::*;

use crate::shared::is_coined_name;
use crate::shared::random_name;

verus! {

/// No two strings in `s` read the same.
pub closed spec fn distinct_names(s: Seq<String>) -> bool {
    forall|i: int, j: int| 0 <= i < j < s.len() ==> s[i]@ != s[j]@
}

/// The set of views of the strings in `s`.
pub closed spec fn name_set(s: Seq<String>) -> Set<Seq<char>> {
    Set::new(|n: Seq<char>| exists|i: int| 0 <= i < s.len() && s[i]@ == n)
}

/// The display names currently taken, each held by exactly one session.
pub struct Names {
    taken: Vec<String>,
}

impl View for Names {
    type V = Set<Seq<char>>;

    closed spec fn view(&self) -> Set<Seq<char>> {
        name_set(self.taken@)
    }
}

impl Names {
    /// No name is stored twice, so releasing a name really frees it.
    pub closed spec fn wf(&self) -> bool {
        distinct_names(self.taken@)
    }

    /// An empty registry: no name is taken.
    pub fn new() -> (r: Names)
        ensures
            r.wf(),
            r@ == Set::<Seq<char>>::empty(),
    {
        let r = Names { taken: Vec::new() };
        proof {
            assert(r@ =~= Set::<Seq<char>>::empty());
        }
        r
    }

    /// Atomically claims `name`: inserts it if it is absent and reports
    /// whether it was newly inserted.  A failed claim changes nothing.
    pub fn insert(&mut self, name: String) -> (r: bool)
        requires
            old(self).wf(),
        ensures
            final(self).wf(),
            r == !old(self)@.contains(name@),
            final(self)@ == old(self)@.insert(name@),
            !r ==> *final(self) == *old(self),
    {
        let n = self.taken.len();
        let mut i: usize = 0;
        while i < n
            invariant
                *self == *old(self),
                old(self).wf(),
                n == self.taken@.len(),
                0 <= i <= n,
                forall|k: int| 0 <= k < i ==> self.taken@[k]@ != name@,
            decreases n - i,
        {
            if self.taken[i] == name {
                proof {
                    assert(self.taken@[i as int]@ == name@);
                    assert(self@.contains(name@));
                    assert(self@.insert(name@) =~= self@);
                }
                return false;
            }
            i += 1;
        }
        proof {
            assert(!self@.contains(name@));
        }
        let ghost before = self.taken@;
        self.taken.push(name);
        proof {
            assert forall|m: Seq<char>| name_set(self.taken@).contains(m)
                implies name_set(before).insert(name@).contains(m) by {
                let w = choose|i: int|
                    0 <= i < self.taken@.len() && self.taken@[i]@ == m;
                if w < before.len() {
                    assert(before[w]@ == m);
                }
            }
            assert forall|m: Seq<char>| name_set(before).insert(name@).contains(m)
                implies name_set(self.taken@).contains(m) by {
                if m == name@ {
                    assert(self.taken@[before.len() as int]@ == m);
                } else {
                    let w = choose|i: int| 0 <= i < before.len() && before[i]@ == m;
                    assert(self.taken@[w]@ == m);
                }
            }
            assert(name_set(self.taken@) =~= name_set(before).insert(name@));
        }
        true
    }

    /// Releases `name` if it is present; reports whether it was.
    /// Releasing an absent name is a no-op.
    pub fn remove(&mut self, name: &str) -> (r: bool)
        requires
            old(self).wf(),
        ensures
            final(self).wf(),
            r == old(self)@.contains(name@),
            final(self)@ == old(self)@.remove(name@),
            !r ==> *final(self) == *old(self),
    {
        let wanted = name.to_owned();
        let n = self.taken.len();
        let mut i: usize = 0;
        while i < n
            invariant
                *self == *old(self),
                old(self).wf(),
                wanted@ == name@,
                n == self.taken@.len(),
                0 <= i <= n,
                forall|k: int| 0 <= k < i ==> self.taken@[k]@ != name@,
            decreases n - i,
        {
            if self.taken[i] == wanted {
                proof {
                    assert(self.taken@[i as int]@ == name@);
                }
                let ghost before = self.taken@;
                self.taken.remove(i);
                proof {
                    lemma_name_set_remove(before, i as int);
                    assert(before[i as int]@ == name@);
                    assert(name_set(before).remove(before[i as int]@)
                        =~= name_set(before).remove(name@));
                }
                return true;
            }
            i += 1;
        }
        proof {
            assert(!self@.contains(name@));
            assert(self@.remove(name@) =~= self@);
        }
        false
    }

    /// Draws random candidate names until one can be claimed, then returns
    /// the claimed name.  The result was free before the call and is taken
    /// after it, and it reads as `<adjective><animal>` from the fixed word
    /// tables.  Retries are bounded; in the one other case — every random
    /// candidate collided — a fallback name longer than every taken name
    /// is claimed instead, so the call cannot livelock.
    pub fn get_unique(&mut self) -> (r: String)
        requires
            old(self).wf(),
        ensures
            final(self).wf(),
            !old(self)@.contains(r@),
            final(self)@ == old(self)@.insert(r@),
            is_coined_name(r@) || (forall|m: Seq<char>|
                old(self)@.contains(m) ==> m.len() < r@.len()),
    {
        let mut attempts: usize = 0;
        while attempts < MAX_RANDOM_TRIES
            invariant
                self.wf(),
                self@ == old(self)@,
                attempts <= MAX_RANDOM_TRIES,
            decreases MAX_RANDOM_TRIES - attempts,
        {
            let name = random_name();
            let keep = name.clone();
            if self.insert(name) {
                return keep;
            }
            attempts += 1;
        }
        let fresh = self.fresh_name();
        let keep = fresh.clone();
        let claimed = self.insert(fresh);
        proof {
            assert(claimed);
        }
        keep
    }

    /// A name that no current entry can equal: the concatenation of every
    /// taken name and one more character is longer than each taken name.
    fn fresh_name(&self) -> (r: String)
        requires
            self.wf(),
        ensures
            !self@.contains(r@),
            forall|m: Seq<char>| self@.contains(m) ==> m.len() < r@.len(),
    {
        let mut acc = String::new();
        let n = self.taken.len();
        let mut i: usize = 0;
        while i < n
            invariant
                n == self.taken@.len(),
                0 <= i <= n,
                forall|k: int| 0 <= k < i ==> acc@.len() >= self.taken@[k]@.len(),
            decreases n - i,
        {
            acc.append(self.taken[i].as_str());
            i += 1;
        }
        acc.append("x");
        proof {
            reveal_strlit("x");
            assert forall|m: Seq<char>| self@.contains(m) implies m.len() < acc@.len() by {
                let w = choose|k: int|
                    0 <= k < self.taken@.len() && self.taken@[k]@ == m;
            }
        }
        acc
    }
}

const MAX_RANDOM_TRIES: usize = 32;

/// Removing the entry at `i` from a duplicate-free list removes exactly
/// that one name from the set of names.
proof fn lemma_name_set_remove(s: Seq<String>, i: int)
    requires
        0 <= i < s.len(),
        distinct_names(s),
    ensures
        name_set(s.remove(i)) =~= name_set(s).remove(s[i]@),
        distinct_names(s.remove(i)),
{
    let t = s.remove(i);
    assert forall|m: Seq<char>| name_set(t).contains(m)
        implies name_set(s).remove(s[i]@).contains(m) by {
        let w = choose|k: int| 0 <= k < t.len() && t[k]@ == m;
        if w < i {
            assert(s[w]@ == m);
        } else {
            assert(s[w + 1]@ == m);
        }
    }
    assert forall|m: Seq<char>| name_set(s).remove(s[i]@).contains(m)
        implies name_set(t).contains(m) by {
        let w = choose|k: int| 0 <= k < s.len() && s[k]@ == m;
        if w < i {
            assert(t[w]@ == m);
        } else {
            assert(t[w - 1]@ == m);
        }
    }
}

/// Uniqueness of display names across session teardown: releasing one
/// session's name never frees any other session's name.
pub proof fn lemma_release_keeps_others(
    names: Set<Seq<char>>,
    released: Seq<char>,
    other: Seq<char>,
)
    requires
        names.contains(other),
        other != released,
    ensures
        names.remove(released).contains(other),
{
}

/// Uniqueness of display names across session start: while one session
/// holds the name `a`, a claim that succeeds can only have claimed a
/// different name `b`, and both stay taken.
pub proof fn lemma_claims_are_distinct(
    before: Set<Seq<char>>,
    after: Set<Seq<char>>,
    a: Seq<char>,
    b: Seq<char>,
)
    requires
        before.contains(a),
        !before.contains(b),
        after == before.insert(b),
    ensures
        a != b,
        after.contains(a),
        after.contains(b),
{
}

} // verus!
