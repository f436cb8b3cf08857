//! Clerk's running tally of every basic resource he has mined. Nothing is
//! ever removed: each mined unit adds one to its kind's count, and the
//! leader is the kind with the highest count.
use std::collections::HashMap;

use vstd::prelude::*;

use crate::resource::{kind_of_code, lemma_code_bijective, ResourceKind, KIND_COUNT};

verus! {

/// `k`, with count `c`, leads among the kinds of `m` whose code is below `n`:
/// none of them has a higher count, and those with the same count have a
/// code no smaller than `k`'s.
pub open spec fn leads_among(m: Map<ResourceKind, u32>, k: ResourceKind, c: u32, n: nat) -> bool {
    &&& m.contains_key(k)
    &&& m[k] == c
    &&& k.code() < n
    &&& forall|j: ResourceKind|
        #![trigger m.contains_key(j)]
        m.contains_key(j) && j.code() < n ==> m[j] < c || (m[j] == c && k.code() <= j.code())
}

/// `k`, with count `c`, leads the tally `m`: the highest count, ties going
/// to the kind whose name sorts first.
pub open spec fn leads(m: Map<ResourceKind, u32>, k: ResourceKind, c: u32) -> bool {
    leads_among(m, k, c, KIND_COUNT as nat)
}

/// The leader of the tally `m`, `None` when nothing has been tallied.
pub open spec fn leader_of(m: Map<ResourceKind, u32>) -> Option<(ResourceKind, u32)> {
    if exists|k: ResourceKind, c: u32| leads(m, k, c) {
        Some(choose|k: ResourceKind, c: u32| leads(m, k, c))
    } else {
        None
    }
}

/// What `record` reports, given the leader before and after the addition:
/// the new leader where its kind differs from the old one's (or there was
/// none), otherwise nothing.
pub open spec fn leadership_change(
    before: Option<(ResourceKind, u32)>,
    after: Option<(ResourceKind, u32)>,
) -> Option<(ResourceKind, u32)> {
    match after {
        Some(p) => match before {
            Some(q) => if q.0 == p.0 {
                None
            } else {
                Some(p)
            },
            None => Some(p),
        },
        None => None,
    }
}

/// The count of `k` in the tally `m` (zero where `k` was never mined).
pub open spec fn count_in(m: Map<ResourceKind, u32>, k: ResourceKind) -> nat {
    if m.contains_key(k) {
        m[k] as nat
    } else {
        0
    }
}

/// The tally after one more unit of `k`.
pub open spec fn tally_after(m: Map<ResourceKind, u32>, k: ResourceKind) -> Map<ResourceKind, u32> {
    m.insert(k, (count_in(m, k) + 1) as u32)
}

/// Per-kind counts of mined resources.
#[derive(Debug)]
pub struct Ledger {
    counts: HashMap<u8, u32>,
}

impl Ledger {
    /// The tally as a map from kind to count.
    pub closed spec fn tally(&self) -> Map<ResourceKind, u32> {
        Map::new(
            |k: ResourceKind| self.counts@.contains_key(k.code()),
            |k: ResourceKind| self.counts@[k.code()],
        )
    }

    /// Every key of the underlying map is a kind's code, and every count is
    /// at least one.
    pub closed spec fn wf(&self) -> bool {
        forall|c: u8|
            #[trigger] self.counts@.contains_key(c) ==> c < KIND_COUNT && self.counts@[c] >= 1
    }

    /// The count of `k` (zero where `k` was never mined).
    pub open spec fn count(&self, k: ResourceKind) -> nat {
        count_in(self@, k)
    }

    /// Every kind in the tally has been mined at least once.
    pub proof fn lemma_counts_positive(&self, k: ResourceKind)
        requires
            self.wf(),
            self@.contains_key(k),
        ensures
            self@[k] >= 1,
    {
        assert(self.counts@.contains_key(k.code()));
    }

    /// The per-kind counts, keyed by kind code. A kind that was never mined
    /// has no entry.
    pub fn counts(&self) -> (r: &HashMap<u8, u32>)
        requires
            self.wf(),
        ensures
            forall|k: ResourceKind|
                #![trigger self@.contains_key(k)]
                (r@.contains_key(k.code()) <==> self@.contains_key(k)) && (self@.contains_key(k)
                    ==> r@[k.code()] == self@[k]),
            forall|c: u8| #[trigger] r@.contains_key(c) ==> c < KIND_COUNT && r@[c] >= 1,
    {
        &self.counts
    }

    /// The current leader: the highest count so far, ties going to the kind
    /// whose name sorts first, so that the answer never depends on the order
    /// the map is walked in. `None` until something has been mined.
    pub fn leader(&self) -> (r: Option<(ResourceKind, u32)>)
        ensures
            r == leader_of(self@),
            r is None <==> forall|k: ResourceKind| !self@.contains_key(k),
            r matches Some((k, c)) ==> leads(self@, k, c),
    {
        let ghost m = self@;
        let mut best: Option<(ResourceKind, u32)> = None;
        let mut c: u8 = 0;
        while c < KIND_COUNT
            invariant
                c <= KIND_COUNT,
                m == self@,
                best is None <==> forall|j: ResourceKind|
                    #![trigger m.contains_key(j)]
                    j.code() < c ==> !m.contains_key(j),
                best matches Some((k, n)) ==> leads_among(m, k, n, c as nat),
            decreases KIND_COUNT - c,
        {
            let kind = ResourceKind::from_code(c).unwrap();
            match self.counts.get(&c) {
                Some(n) => {
                    assert(m.contains_key(kind));
                    match best {
                        None => {
                            best = Some((kind, *n));
                        },
                        Some((_, bn)) => {
                            if *n > bn {
                                best = Some((kind, *n));
                            }
                        },
                    }
                },
                None => {
                    assert(!m.contains_key(kind));
                },
            }
            proof {
                assert forall|j: ResourceKind| j.code() < c + 1 && j.code() != c implies j.code()
                    < c by {}
                assert forall|j: ResourceKind| j.code() == c implies j == kind by {
                    lemma_code_bijective(j, kind);
                }
            }
            c = c + 1;
        }
        proof {
            match best {
                Some((k, n)) => {
                    lemma_leader_unique_among_all(m, k, n);
                },
                None => {
                    assert forall|k: ResourceKind| !m.contains_key(k) by {
                        lemma_code_bijective(k, k);
                    }
                    assert(!exists|k: ResourceKind, c: u32| leads(m, k, c));
                },
            }
        }
        best
    }

    /// Records one freshly mined unit of `resource`. Returns the new
    /// `(leader, count)` when the identity of the leader changed with this
    /// addition (the very first unit mined included), `None` when the same
    /// kind still leads.
    pub fn record(&mut self, resource: ResourceKind) -> (r: Option<(ResourceKind, u32)>)
        requires
            old(self).wf(),
            old(self).count(resource) < u32::MAX,
        ensures
            final(self).wf(),
            final(self)@ == tally_after(old(self)@, resource),
            r == leadership_change(leader_of(old(self)@), leader_of(final(self)@)),
    {
        let before = self.leader();
        let before_kind: Option<ResourceKind> = match before {
            Some((k, _)) => Some(k),
            None => None,
        };
        let code = resource.code();
        let current: u32 = match self.counts.get(&code) {
            Some(n) => *n,
            None => 0,
        };
        proof {
            assert(self@.contains_key(resource) <==> self.counts@.contains_key(code));
        }
        self.counts.insert(code, current + 1);
        proof {
            assert forall|k: ResourceKind| k.code() == code implies k == resource by {
                lemma_code_bijective(k, resource);
            }
            assert(self@ =~= tally_after(old(self)@, resource));
        }
        let after = self.leader();
        match after {
            Some((k, n)) => match before_kind {
                Some(b) => {
                    if b == k {
                        None
                    } else {
                        Some((k, n))
                    }
                },
                None => Some((k, n)),
            },
            None => None,
        }
    }
}

impl Default for Ledger {
    fn default() -> (r: Ledger)
        ensures
            r@ == Map::<ResourceKind, u32>::empty(),
            r.wf(),
    {
        let r = Ledger { counts: HashMap::new() };
        assert(r@ =~= Map::<ResourceKind, u32>::empty());
        r
    }
}

impl View for Ledger {
    type V = Map<ResourceKind, u32>;

    open spec fn view(&self) -> Map<ResourceKind, u32> {
        self.tally()
    }
}

/// Two leaders of one tally are the same kind with the same count.
pub proof fn lemma_leader_unique(
    m: Map<ResourceKind, u32>,
    k1: ResourceKind,
    c1: u32,
    k2: ResourceKind,
    c2: u32,
)
    requires
        leads(m, k1, c1),
        leads(m, k2, c2),
    ensures
        k1 == k2,
        c1 == c2,
{
    assert(m.contains_key(k1) && m.contains_key(k2));
    lemma_code_bijective(k1, k2);
}

/// Where `k` leads `m`, it is `leader_of(m)`.
pub proof fn lemma_leader_unique_among_all(m: Map<ResourceKind, u32>, k: ResourceKind, c: u32)
    requires
        leads(m, k, c),
    ensures
        leader_of(m) == Some((k, c)),
{
    let (k2, c2) = choose|k: ResourceKind, c: u32| leads(m, k, c);
    lemma_leader_unique(m, k, c, k2, c2);
}


/// Among the kinds with code below `n`, a tally that holds any of them has a
/// leader.
proof fn lemma_leader_exists_among(m: Map<ResourceKind, u32>, n: nat)
    requires
        n <= KIND_COUNT,
        exists|k: ResourceKind| m.contains_key(k) && k.code() < n,
    ensures
        exists|k: ResourceKind, c: u32| leads_among(m, k, c, n),
    decreases n,
{
    let n1 = (n - 1) as nat;
    let last = kind_of_code(n1 as u8).unwrap();
    assert(last.code() == n - 1);
    assert forall|j: ResourceKind| j.code() == n - 1 implies j == last by {
        lemma_code_bijective(j, last);
    }
    if exists|k: ResourceKind| m.contains_key(k) && k.code() < n - 1 {
        lemma_leader_exists_among(m, n1);
        let (k0, c0) = choose|k: ResourceKind, c: u32| leads_among(m, k, c, n1);
        if m.contains_key(last) && m[last] > c0 {
            assert(leads_among(m, last, m[last], n));
        } else {
            assert(leads_among(m, k0, c0, n));
        }
    } else {
        assert(m.contains_key(last));
        assert(leads_among(m, last, m[last], n));
    }
}

/// A tally has a leader exactly when something has been tallied.
pub proof fn lemma_leader_exists(m: Map<ResourceKind, u32>)
    ensures
        leader_of(m) is Some <==> exists|k: ResourceKind| m.contains_key(k),
        leader_of(m) matches Some((k, c)) ==> leads(m, k, c),
{
    if exists|k: ResourceKind| m.contains_key(k) {
        let k = choose|k: ResourceKind| m.contains_key(k);
        lemma_code_bijective(k, k);
        lemma_leader_exists_among(m, KIND_COUNT as nat);
        let (k0, c0) = choose|k: ResourceKind, c: u32| leads_among(m, k, c, KIND_COUNT as nat);
        assert(leads(m, k0, c0));
    } else if exists|k: ResourceKind, c: u32| leads(m, k, c) {
        let (k, c) = choose|k: ResourceKind, c: u32| leads(m, k, c);
        assert(m.contains_key(k));
    }
}

/// Recording a unit adds one to its kind's count and leaves every other
/// count as it was: the tally only grows.
pub proof fn lemma_tally_only_grows(m: Map<ResourceKind, u32>, r: ResourceKind, k: ResourceKind)
    requires
        count_in(m, r) < u32::MAX,
    ensures
        count_in(tally_after(m, r), k) == if k == r {
            count_in(m, k) + 1
        } else {
            count_in(m, k)
        },
{
}

/// After one more unit of `r`, the leader is either the kind that led
/// before or `r` itself: no other kind can take the lead.
pub proof fn lemma_new_leader_is_old_leader_or_recorded(m: Map<ResourceKind, u32>, r: ResourceKind)
    requires
        count_in(m, r) < u32::MAX,
    ensures
        leader_of(tally_after(m, r)) is Some,
        leader_of(tally_after(m, r)).unwrap().0 == r || (leader_of(m) is Some && leader_of(
            m,
        ).unwrap().0 == leader_of(tally_after(m, r)).unwrap().0),
{
    let m2 = tally_after(m, r);
    assert(m2.contains_key(r));
    lemma_leader_exists(m2);
    lemma_leader_exists(m);
    let (k, c) = leader_of(m2).unwrap();
    if k != r {
        assert(m.contains_key(k));
        let (k0, c0) = leader_of(m).unwrap();
        assert(m2.contains_key(k0));
        assert(leads(m, k, c)) by {
            assert forall|j: ResourceKind|
                #![trigger m.contains_key(j)]
                m.contains_key(j) && j.code() < KIND_COUNT implies m[j] < c || (m[j] == c
                && k.code() <= j.code()) by {
                assert(m2.contains_key(j));
            }
        }
        lemma_leader_unique(m, k, c, k0, c0);
    }
}

/// The very first unit ever recorded is reported as the new leader, with a
/// count of one.
pub proof fn lemma_first_record_reports(r: ResourceKind)
    ensures
        leadership_change(
            leader_of(Map::<ResourceKind, u32>::empty()),
            leader_of(tally_after(Map::<ResourceKind, u32>::empty(), r)),
        ) == Some((r, 1u32)),
{
    let m = Map::<ResourceKind, u32>::empty();
    let m2 = tally_after(m, r);
    lemma_leader_exists(m);
    assert forall|j: ResourceKind| #[trigger] m2.contains_key(j) implies j == r by {}
    assert(leads(m2, r, 1u32));
    lemma_leader_unique_among_all(m2, r, 1u32);
}

/// Recording reports a change exactly when the leading kind changed, and
/// then reports the new leader.
pub proof fn lemma_record_reports_changes(m: Map<ResourceKind, u32>, r: ResourceKind)
    requires
        count_in(m, r) < u32::MAX,
    ensures
        leadership_change(leader_of(m), leader_of(tally_after(m, r))) is Some <==> (
        leader_of(m) is None || leader_of(m).unwrap().0 != leader_of(tally_after(m, r)).unwrap().0),
        leadership_change(leader_of(m), leader_of(tally_after(m, r))) matches Some(p) ==> Some(p)
            == leader_of(tally_after(m, r)),
{
    let m2 = tally_after(m, r);
    assert(m2.contains_key(r));
    lemma_leader_exists(m2);
}

} // verus!
