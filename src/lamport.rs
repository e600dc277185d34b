use vstd::multiset::Multiset;
use vstd::prelude::*;

verus! {

broadcast use vstd::seq_lib::group_to_multiset_ensures;

/// A pending critical-section request: the logical time at which it was made
/// and the participant that made it.
#[derive(Clone, Copy, Debug, PartialEq, Eq, Structural, PartialOrd, Ord)]
pub struct LamportEntry {
    pub lamport_clock: u64,
    pub client_id: u64,
}

impl LamportEntry {
    /// The entry as a (timestamp, participant id) pair.
    pub open spec fn key(self) -> (u64, u64) {
        (self.lamport_clock, self.client_id)
    }
}

/// Lexicographic order on (timestamp, participant id).
pub open spec fn entry_le(a: (u64, u64), b: (u64, u64)) -> bool {
    a.0 < b.0 || (a.0 == b.0 && a.1 <= b.1)
}

/// `e` is a smallest element of `m`.
pub open spec fn is_least(e: (u64, u64), m: Multiset<(u64, u64)>) -> bool {
    &&& m.contains(e)
    &&& forall|x: (u64, u64)| m.contains(x) ==> entry_le(e, x)
}

/// The head of a queue holding `m`: its smallest entry, if any.
pub open spec fn head_of(m: Multiset<(u64, u64)>) -> Option<(u64, u64)> {
    if m.len() == 0 {
        None
    } else {
        Some(choose|e: (u64, u64)| is_least(e, m))
    }
}

/// The entries left after removing the head (nothing changes when empty).
pub open spec fn pop_of(m: Multiset<(u64, u64)>) -> Multiset<(u64, u64)> {
    match head_of(m) {
        Some(e) => m.remove(e),
        None => m,
    }
}

/// The clock value after observing a remote timestamp `t`.
pub open spec fn observe_of(clock: u64, t: u64) -> int {
    if clock >= t {
        clock + 1
    } else {
        t + 1
    }
}

/// Two smallest elements of one multiset are the same element: every peer
/// holding the same pending requests computes the same head.
pub proof fn lemma_least_unique(m: Multiset<(u64, u64)>, a: (u64, u64), b: (u64, u64))
    requires
        is_least(a, m),
        is_least(b, m),
    ensures
        a == b,
{
}

/// The head is a function of the pending requests alone, whatever the order
/// in which they were inserted: two peers that received the same requests in
/// either order see the same head, and the same entries once it is popped.
pub proof fn lemma_queue_determinism(m: Multiset<(u64, u64)>, a: (u64, u64), b: (u64, u64))
    ensures
        m.insert(a).insert(b) == m.insert(b).insert(a),
        head_of(m.insert(a).insert(b)) == head_of(m.insert(b).insert(a)),
        pop_of(m.insert(a).insert(b)) == pop_of(m.insert(b).insert(a)),
{
    assert(m.insert(a).insert(b) =~= m.insert(b).insert(a));
}

/// A nonempty multiset's head is its unique least element.
pub proof fn lemma_head_is_least(m: Multiset<(u64, u64)>, e: (u64, u64))
    requires
        is_least(e, m),
    ensures
        head_of(m) == Some(e),
{
    assert(m.count(e) > 0);
    assert(m.len() > 0);
    let c = choose|x: (u64, u64)| is_least(x, m);
    assert(is_least(c, m));
    lemma_least_unique(m, c, e);
}

/// The request queue of one peer together with its Lamport clock.
pub struct LamportQueue {
    queue: Vec<LamportEntry>,
    clock: u64,
}

impl LamportQueue {
    /// The pending requests, as (timestamp, participant id) pairs.
    pub closed spec fn entries(&self) -> Multiset<(u64, u64)> {
        self.queue@.map_values(|e: LamportEntry| e.key()).to_multiset()
    }

    /// The current value of the logical clock.
    pub closed spec fn clock(&self) -> u64 {
        self.clock
    }

    pub fn new() -> (r: LamportQueue)
        ensures
            r.entries() =~= Multiset::<(u64, u64)>::empty(),
            r.clock() == 0,
    {
        LamportQueue { queue: Vec::new(), clock: 0 }
    }

    /// Adds the request (lamport_clock, client_id); duplicates are kept.
    pub fn insert(&mut self, lamport_clock: u64, client_id: u64)
        ensures
            final(self).entries() == old(self).entries().insert((lamport_clock, client_id)),
            final(self).clock() == old(self).clock(),
    {
        let ghost s0 = self.queue@;
        let e = LamportEntry { lamport_clock, client_id };
        self.queue.push(e);
        proof {
            assert(self.queue@.map_values(|e: LamportEntry| e.key()) =~= s0.map_values(
                |e: LamportEntry| e.key(),
            ).push(e.key()));
        }
    }

    /// Index of a smallest entry of a nonempty queue.
    fn least_index(&self) -> (i: usize)
        requires
            self.queue@.len() > 0,
        ensures
            i < self.queue@.len(),
            forall|j: int|
                0 <= j < self.queue@.len() ==> entry_le(
                    self.queue@[i as int].key(),
                    #[trigger] self.queue@[j].key(),
                ),
    {
        let mut best: usize = 0;
        let mut k: usize = 1;
        while k < self.queue.len()
            invariant
                0 <= best < k <= self.queue@.len(),
                forall|j: int|
                    0 <= j < k ==> entry_le(
                        self.queue@[best as int].key(),
                        #[trigger] self.queue@[j].key(),
                    ),
            decreases self.queue@.len() - k,
        {
            let a = self.queue[k];
            let b = self.queue[best];
            if a.lamport_clock < b.lamport_clock || (a.lamport_clock == b.lamport_clock
                && a.client_id < b.client_id) {
                best = k;
            }
            k = k + 1;
        }
        best
    }

    proof fn lemma_least_index(&self, i: int)
        requires
            0 <= i < self.queue@.len(),
            forall|j: int|
                0 <= j < self.queue@.len() ==> entry_le(
                    self.queue@[i].key(),
                    #[trigger] self.queue@[j].key(),
                ),
        ensures
            head_of(self.entries()) == Some(self.queue@[i].key()),
    {
        let s = self.queue@.map_values(|e: LamportEntry| e.key());
        assert(s[i] == self.queue@[i].key());
        assert(s.contains(s[i]));
        assert forall|x: (u64, u64)| self.entries().contains(x) implies entry_le(
            self.queue@[i].key(),
            x,
        ) by {
            assert(s.contains(x));
            let j = choose|j: int| 0 <= j < s.len() && s[j] == x;
            assert(s[j] == self.queue@[j].key());
        }
        lemma_head_is_least(self.entries(), self.queue@[i].key());
    }

    /// Removes the smallest entry; does nothing on an empty queue.
    pub fn pop(&mut self)
        ensures
            final(self).entries() == pop_of(old(self).entries()),
            final(self).clock() == old(self).clock(),
    {
        if self.queue.len() == 0 {
            proof {
                assert(self.entries().len() == 0);
            }
            return;
        }
        let i = self.least_index();
        proof {
            self.lemma_least_index(i as int);
        }
        let ghost s0 = self.queue@;
        self.queue.remove(i);
        proof {
            assert(self.queue@.map_values(|e: LamportEntry| e.key()) =~= s0.map_values(
                |e: LamportEntry| e.key(),
            ).remove(i as int));
        }
    }

    /// The smallest entry, if any.
    pub fn peek(&self) -> (r: Option<&LamportEntry>)
        ensures
            match r {
                Some(e) => head_of(self.entries()) == Some(e.key()),
                None => head_of(self.entries()) is None,
            },
    {
        if self.queue.len() == 0 {
            proof {
                assert(self.entries().len() == 0);
            }
            return None;
        }
        let i = self.least_index();
        proof {
            self.lemma_least_index(i as int);
        }
        Some(&self.queue[i])
    }

    /// The entry that would head the queue once the current head is popped.
    pub fn peek_after_pop(&self) -> (r: Option<LamportEntry>)
        ensures
            match r {
                Some(e) => head_of(pop_of(self.entries())) == Some(e.key()),
                None => head_of(pop_of(self.entries())) is None,
            },
    {
        let mut copy: Vec<LamportEntry> = Vec::new();
        let mut k: usize = 0;
        while k < self.queue.len()
            invariant
                k <= self.queue@.len(),
                copy@ == self.queue@.subrange(0, k as int),
            decreases self.queue@.len() - k,
        {
            copy.push(self.queue[k]);
            proof {
                assert(copy@ =~= self.queue@.subrange(0, k + 1));
            }
            k = k + 1;
        }
        proof {
            assert(copy@ =~= self.queue@);
        }
        let mut rest = LamportQueue { queue: copy, clock: self.clock };
        rest.pop();
        match rest.peek() {
            Some(e) => Some(*e),
            None => None,
        }
    }

    /// A local event: the clock advances by one.
    pub fn increment(&mut self)
        requires
            old(self).clock() < u64::MAX,
        ensures
            final(self).clock() == old(self).clock() + 1,
            final(self).entries() == old(self).entries(),
    {
        self.clock = self.clock + 1;
    }

    /// Observing a remote timestamp: the clock becomes max(clock, t) + 1.
    pub fn update(&mut self, other_clock: u64)
        requires
            observe_of(old(self).clock(), other_clock) <= u64::MAX,
        ensures
            final(self).clock() == observe_of(old(self).clock(), other_clock),
            final(self).entries() == old(self).entries(),
    {
        if self.clock >= other_clock {
            self.clock = self.clock + 1;
        } else {
            self.clock = other_clock + 1;
        }
    }

    pub fn get_clock(&self) -> (r: u64)
        ensures
            r == self.clock(),
    {
        self.clock
    }
}

} // verus!
