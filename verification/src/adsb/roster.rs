//! Recently-seen ICAO roster for roster-gated frame recovery.
//!
//! The address-overlaid downlink formats (DF0/4/5/16/20/21) fold their 24-bit
//! ICAO address into the parity field, so a received frame checksums not to
//! zero but to the address itself. Such a frame is accepted only when its
//! recovered address is already on the roster — seen in a frame that carried
//! its address in the clear and checksummed clean. Recency is bounded by
//! insertion count: the oldest address is evicted first.
use vstd::prelude::*;
use std::collections::{HashSet, VecDeque};

verus! {

broadcast use vstd::std_specs::hash::group_hash_axioms;

/// Default roster capacity: how many distinct recently-seen ICAO addresses to
/// keep.
pub const DEFAULT_ROSTER_CAP: usize = 256;

/// A bounded set of recently-seen ICAO addresses, oldest evicted first.
#[derive(Debug)]
pub struct IcaoRoster {
    cap: usize,
    /// Insertion order for eviction; front is oldest. Re-noting a present
    /// address refreshes its recency by moving it to the back.
    order: VecDeque<u32>,
    set: HashSet<u32>,
}

/// The order after noting `icao` in a roster holding `order` with capacity
/// `cap`: a present address moves to the back; otherwise it is appended,
/// after evicting the oldest address when the roster is full.
pub open spec fn noted(order: Seq<u32>, cap: nat, icao: u32) -> Seq<u32> {
    if order.contains(icao) {
        order.remove(order.index_of(icao)).push(icao)
    } else if order.len() == cap {
        order.drop_first().push(icao)
    } else {
        order.push(icao)
    }
}

impl IcaoRoster {
    /// The held addresses, oldest first.
    pub closed spec fn addresses(&self) -> Seq<u32> {
        self.order@
    }

    /// The roster capacity.
    pub closed spec fn capacity(&self) -> nat {
        self.cap as nat
    }

    /// The roster's internal consistency: the lookup set holds exactly the
    /// ordered addresses, none twice, at most `capacity` of them.
    pub closed spec fn wf(&self) -> bool {
        &&& self.cap >= 1
        &&& self.set@ == self.order@.to_set()
        &&& self.order@.no_duplicates()
        &&& self.order@.len() <= self.cap
    }

    /// A roster holding up to `cap` addresses (`cap >= 1`).
    pub fn new(cap: usize) -> (r: Self)
        requires
            cap >= 1,
        ensures
            r.wf(),
            r.addresses() == Seq::<u32>::empty(),
            r.capacity() == cap,
    {
        let r = Self { cap, order: VecDeque::with_capacity(cap), set: HashSet::with_capacity(cap) };
        assert(r.order@.to_set() =~= Set::<u32>::empty());
        r
    }

    /// Record `icao` as recently seen, evicting the oldest address if full. A
    /// re-noted address is refreshed to newest rather than duplicated.
    pub fn note(&mut self, icao: u32)
        requires
            old(self).wf(),
        ensures
            final(self).wf(),
            final(self).capacity() == old(self).capacity(),
            final(self).addresses() == noted(old(self).addresses(), old(self).capacity(), icao),
    {
        let ghost old_order = self.order@;
        if self.set.contains(&icao) {
            let mut pos: usize = 0;
            while pos < self.order.len()
                invariant
                    self.order@ == old_order,
                    old_order.contains(icao),
                    forall|k: int| 0 <= k < pos ==> old_order[k] != icao,
                    pos <= old_order.len(),
                ensures
                    pos < old_order.len(),
                    old_order[pos as int] == icao,
                    forall|k: int| 0 <= k < pos ==> old_order[k] != icao,
                decreases old_order.len() - pos,
            {
                if self.order[pos] == icao {
                    break;
                }
                pos = pos + 1;
            }
            proof {
                assert(old_order.index_of(icao) == pos as int) by {
                    let j = old_order.index_of(icao);
                    assert(0 <= j < old_order.len() && old_order[j] == icao);
                    if j != pos {
                        assert(old_order.no_duplicates());
                    }
                }
            }
            self.order.remove(pos);
            self.order.push_back(icao);
            proof {
                let o = self.order@;
                assert(o =~= old_order.remove(pos as int).push(icao));
                assert forall|a: int, b: int| 0 <= a < b < o.len() implies o[a] != o[b] by {
                    if b == o.len() - 1 {
                        let ia = if a < pos { a } else { a + 1 };
                        assert(o[a] == old_order[ia]);
                    } else {
                        let ia = if a < pos { a } else { a + 1 };
                        let ib = if b < pos { b } else { b + 1 };
                        assert(o[a] == old_order[ia]);
                        assert(o[b] == old_order[ib]);
                    }
                }
                assert(o.to_set() =~= old_order.to_set()) by {
                    assert forall|x: u32| o.to_set().contains(x) implies old_order.to_set().contains(x) by {
                        let j = choose|j: int| 0 <= j < o.len() && o[j] == x;
                        if j == o.len() - 1 {
                        } else {
                            let ij = if j < pos { j } else { j + 1 };
                            assert(old_order[ij] == x);
                        }
                    }
                    assert forall|x: u32| old_order.to_set().contains(x) implies o.to_set().contains(x) by {
                        let j = choose|j: int| 0 <= j < old_order.len() && old_order[j] == x;
                        if j == pos {
                            assert(o[o.len() - 1] == x);
                        } else {
                            let oj = if j < pos { j } else { j - 1 };
                            assert(o[oj] == x);
                        }
                    }
                }
            }
            return;
        }
        if self.order.len() == self.cap {
            match self.order.pop_front() {
                Some(old) => {
                    self.set.remove(&old);
                    proof {
                        let o = self.order@;
                        assert(o =~= old_order.drop_first());
                        assert(self.set@ =~= o.to_set()) by {
                            assert forall|x: u32| o.to_set().contains(x) implies self.set@.contains(x) by {
                                let j = choose|j: int| 0 <= j < o.len() && o[j] == x;
                                assert(old_order[j + 1] == x);
                                assert(old_order[0] != old_order[j + 1]);
                            }
                            assert forall|x: u32| self.set@.contains(x) implies o.to_set().contains(x) by {
                                let j = choose|j: int| 0 <= j < old_order.len() && old_order[j] == x;
                                assert(j != 0);
                                assert(o[j - 1] == x);
                            }
                        }
                    }
                },
                None => {},
            }
        }
        let ghost mid = self.order@;
        self.order.push_back(icao);
        self.set.insert(icao);
        proof {
            let o = self.order@;
            assert(!mid.contains(icao));
            assert(o =~= mid.push(icao));
            assert forall|x: u32| o.to_set().contains(x) <==> mid.to_set().insert(icao).contains(x) by {
                if o.to_set().contains(x) {
                    let j = choose|j: int| 0 <= j < o.len() && o[j] == x;
                    if j < mid.len() {
                        assert(mid[j] == x);
                    }
                }
                if mid.to_set().contains(x) {
                    let j = choose|j: int| 0 <= j < mid.len() && mid[j] == x;
                    assert(o[j] == x);
                }
                if x == icao {
                    assert(o[o.len() - 1] == x);
                }
            }
            assert(o.to_set() =~= mid.to_set().insert(icao));
            assert forall|a: int, b: int| 0 <= a < b < o.len() implies o[a] != o[b] by {
                if b == o.len() - 1 {
                    assert(mid.contains(o[a]));
                }
            }
        }
    }

    /// A well-formed roster holds no address twice and at most its capacity
    /// of addresses, so its length is the number of distinct addresses it
    /// holds.
    pub proof fn lemma_wf_bounds(&self)
        requires
            self.wf(),
        ensures
            self.capacity() >= 1,
            self.addresses().no_duplicates(),
            self.addresses().len() <= self.capacity(),
            self.addresses().to_set().len() == self.addresses().len(),
    {
        self.order@.unique_seq_to_set();
    }

    /// Whether `icao` is on the roster.
    pub fn contains(&self, icao: u32) -> (r: bool)
        requires
            self.wf(),
        ensures
            r == self.addresses().contains(icao),
    {
        self.set.contains(&icao)
    }

    /// Number of addresses currently held.
    pub fn len(&self) -> (r: usize)
        ensures
            r == self.addresses().len(),
    {
        self.order.len()
    }

    /// Whether the roster holds no addresses.
    pub fn is_empty(&self) -> (r: bool)
        ensures
            r == (self.addresses().len() == 0),
    {
        self.order.len() == 0
    }

    /// Forget every address (used on demod reset).
    pub fn clear(&mut self)
        requires
            old(self).wf(),
        ensures
            final(self).wf(),
            final(self).capacity() == old(self).capacity(),
            final(self).addresses() == Seq::<u32>::empty(),
    {
        self.order.clear();
        self.set.clear();
        assert(self.order@.to_set() =~= Set::<u32>::empty());
    }
}

impl Default for IcaoRoster {
    fn default() -> (r: Self)
        ensures
            r.wf(),
            r.addresses() == Seq::<u32>::empty(),
            r.capacity() == DEFAULT_ROSTER_CAP,
    {
        Self::new(DEFAULT_ROSTER_CAP)
    }
}

/// Whether downlink format `df` carries its ICAO address XOR-folded into the
/// parity (the address/parity `AP` field) rather than in the clear.
pub open spec fn address_overlaid(df: u8) -> bool {
    df == 0 || df == 4 || df == 5 || df == 16 || df == 20 || df == 21
}

pub fn is_address_overlaid(df: u8) -> (r: bool)
    ensures
        r == address_overlaid(df),
{
    df == 0 || df == 4 || df == 5 || df == 16 || df == 20 || df == 21
}

/// Noting an address puts it on the roster as its newest entry, never grows
/// the roster past its capacity, and never duplicates an address.
pub proof fn lemma_noted_props(order: Seq<u32>, cap: nat, icao: u32)
    requires
        order.no_duplicates(),
        order.len() <= cap,
        cap >= 1,
    ensures
        noted(order, cap, icao).contains(icao),
        noted(order, cap, icao).last() == icao,
        noted(order, cap, icao).len() <= cap,
        noted(order, cap, icao).no_duplicates(),
{
    let n = noted(order, cap, icao);
    assert(n[n.len() - 1] == icao);
    if order.contains(icao) {
        order.index_of_first_ensures(icao);
        let p = order.index_of(icao);
        assert forall|a: int, b: int| 0 <= a < b < n.len() implies n[a] != n[b] by {
            let ia = if a < p { a } else { a + 1 };
            assert(n[a] == order[ia]);
            if b < n.len() - 1 {
                let ib = if b < p { b } else { b + 1 };
                assert(n[b] == order[ib]);
            }
        }
    } else {
        assert forall|a: int, b: int| 0 <= a < b < n.len() implies n[a] != n[b] by {
            if b == n.len() - 1 {
                if order.len() == cap {
                    assert(n[a] == order[a + 1]);
                } else {
                    assert(n[a] == order[a]);
                }
            }
        }
    }
}

/// Noting the same address twice in a row is the same as noting it once.
pub proof fn lemma_noted_idempotent(order: Seq<u32>, cap: nat, icao: u32)
    requires
        order.no_duplicates(),
        order.len() <= cap,
        cap >= 1,
    ensures
        noted(noted(order, cap, icao), cap, icao) == noted(order, cap, icao),
{
    lemma_noted_props(order, cap, icao);
    let n = noted(order, cap, icao);
    n.index_of_first_ensures(icao);
    let p = n.index_of(icao);
    assert(p == n.len() - 1) by {
        if p < n.len() - 1 {
            assert(n[p] == n[n.len() - 1]);
        }
    }
    assert(n.remove(p).push(icao) =~= n);
}

/// A full roster evicts exactly its oldest address when a new one is noted.
pub proof fn lemma_noted_evicts_oldest(order: Seq<u32>, cap: nat, icao: u32)
    requires
        order.no_duplicates(),
        order.len() == cap,
        cap >= 1,
        !order.contains(icao),
    ensures
        !noted(order, cap, icao).contains(order[0]),
        forall|k: int| 1 <= k < order.len() ==> noted(order, cap, icao).contains(#[trigger] order[k]),
{
    let n = noted(order, cap, icao);
    assert forall|k: int| 1 <= k < order.len() implies n.contains(#[trigger] order[k]) by {
        assert(n[k - 1] == order[k]);
    }
    if n.contains(order[0]) {
        let j = choose|j: int| 0 <= j < n.len() && n[j] == order[0];
        if j < n.len() - 1 {
            assert(n[j] == order[j + 1]);
        }
    }
}

} // verus!
