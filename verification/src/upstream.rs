//! The upstream pool and the selector that picks a live upstream from it.
//!
//! The pool is the configured list of upstream addresses together with the
//! set of addresses that are believed dead.  The selector draws one of the
//! live upstreams at random; whoever fails to connect to it marks it dead
//! and asks again, until a connection stands or no live upstream is left.

use crate::dead_set::DeadUpstreamSet;
use crate::text::views;
use rand::rngs::StdRng;
use rand::Rng;
use vstd::prelude::*;

verus! {

/// The random number generator of the `rand` crate that the selector draws
/// from.  Nothing is known of its state.
#[verifier::external_type_specification]
#[verifier::external_body]
pub struct ExStdRng(rand::rngs::StdRng);

/// Draws a number below `bound`.
///
/// Wraps `Rng::gen_range` of the `rand` crate on the range `0..bound`.  The
/// call panics on an empty range, which the precondition rules out; of the
/// number drawn only this is claimed, that it lies in the range.
#[verifier::external_body]
fn random_below(rng: &mut StdRng, bound: usize) -> (drawn: usize)
    requires
        bound > 0,
    ensures
        drawn < bound,
{
    rng.gen_range(0..bound)
}

/// The upstream at position `i` is configured and not marked dead.
pub open spec fn is_live(addresses: Seq<Seq<char>>, dead: Set<Seq<char>>, i: int) -> bool {
    0 <= i < addresses.len() && !dead.contains(addresses[i])
}

/// The positions below `n` of the live upstreams, in rising order.
pub open spec fn live_below(addresses: Seq<Seq<char>>, dead: Set<Seq<char>>, n: int) -> Seq<int>
    decreases n,
{
    if n <= 0 {
        Seq::empty()
    } else if is_live(addresses, dead, n - 1) {
        live_below(addresses, dead, n - 1).push(n - 1)
    } else {
        live_below(addresses, dead, n - 1)
    }
}

/// The candidates of a selection: the positions of all live upstreams, in
/// the order of the configured list.
pub open spec fn live_indices(addresses: Seq<Seq<char>>, dead: Set<Seq<char>>) -> Seq<int> {
    live_below(addresses, dead, addresses.len() as int)
}

/// The positions held in a vector of candidates.
pub open spec fn positions(candidates: Seq<usize>) -> Seq<int> {
    candidates.map_values(|i: usize| i as int)
}

/// The candidate list holds exactly the live positions, each once and in
/// rising order.
pub proof fn lemma_live_below(addresses: Seq<Seq<char>>, dead: Set<Seq<char>>, n: int)
    requires
        n <= addresses.len(),
    ensures
        forall|k: int|
            0 <= k < live_below(addresses, dead, n).len() ==> 0 <= #[trigger] live_below(
                addresses,
                dead,
                n,
            )[k] < n && is_live(addresses, dead, live_below(addresses, dead, n)[k]),
        forall|i: int|
            0 <= i < n && is_live(addresses, dead, i) ==> #[trigger] live_below(
                addresses,
                dead,
                n,
            ).contains(i),
        forall|j: int, k: int|
            0 <= j < k < live_below(addresses, dead, n).len() ==> live_below(addresses, dead, n)[j]
                < live_below(addresses, dead, n)[k],
        live_below(addresses, dead, n).len() <= if n < 0 {
            0
        } else {
            n
        },
    decreases n,
{
    if n > 0 {
        lemma_live_below(addresses, dead, n - 1);
        let shorter = live_below(addresses, dead, n - 1);
        let all = live_below(addresses, dead, n);
        assert forall|i: int| 0 <= i < n && is_live(addresses, dead, i) implies all.contains(
            i,
        ) by {
            if i == n - 1 {
                assert(all[all.len() - 1] == i);
            } else {
                assert(shorter.contains(i));
                let k = choose|k: int| 0 <= k < shorter.len() && shorter[k] == i;
                assert(all[k] == i);
            }
        }
    }
}

/// Marking an address dead takes candidates away and adds none; where the
/// address was that of a live upstream, at least that one is gone.
pub proof fn lemma_marking_dead_shrinks(
    addresses: Seq<Seq<char>>,
    dead: Set<Seq<char>>,
    addr: Seq<char>,
    n: int,
)
    ensures
        live_below(addresses, dead.insert(addr), n).len() <= live_below(addresses, dead, n).len(),
        (exists|i: int| 0 <= i < n && is_live(addresses, dead, i) && addresses[i] == addr)
            ==> live_below(addresses, dead.insert(addr), n).len() < live_below(
            addresses,
            dead,
            n,
        ).len(),
    decreases n,
{
    if n > 0 {
        lemma_marking_dead_shrinks(addresses, dead, addr, n - 1);
        if exists|i: int| 0 <= i < n && is_live(addresses, dead, i) && addresses[i] == addr {
            let i = choose|i: int| 0 <= i < n && is_live(addresses, dead, i) && addresses[i] == addr;
            if i < n - 1 {
                assert(0 <= i < n - 1 && is_live(addresses, dead, i) && addresses[i] == addr);
            }
        }
    }
}

/// The configured upstreams and the set of those believed dead.
pub struct UpstreamPool {
    upstreams: Vec<String>,
    dead: DeadUpstreamSet,
}

impl UpstreamPool {
    /// The configured addresses, in their configured order.
    pub closed spec fn addresses(&self) -> Seq<Seq<char>> {
        views(self.upstreams@)
    }

    /// The addresses that are believed dead.
    pub closed spec fn dead(&self) -> Set<Seq<char>> {
        self.dead@
    }

    /// There is at least one upstream, and only configured addresses are
    /// marked dead.
    pub closed spec fn wf(&self) -> bool {
        &&& self.dead.wf()
        &&& self.upstreams@.len() > 0
        &&& self.dead@.subset_of(views(self.upstreams@).to_set())
    }

    /// The candidates of a selection.
    pub open spec fn live(&self) -> Seq<int> {
        live_indices(self.addresses(), self.dead())
    }

    /// A pool over `upstreams` in which no upstream is marked dead; `None`
    /// where the list is empty.
    pub fn new(upstreams: Vec<String>) -> (pool: Option<UpstreamPool>)
        ensures
            pool.is_none() <==> upstreams@.len() == 0,
            pool matches Some(p) ==> (p.wf() && p.addresses() == views(upstreams@) && p.dead()
                == Set::<Seq<char>>::empty()),
    {
        if upstreams.len() == 0 {
            None
        } else {
            Some(UpstreamPool { upstreams, dead: DeadUpstreamSet::new() })
        }
    }

    /// The number of configured upstreams.
    pub fn len(&self) -> (n: usize)
        ensures
            n == self.addresses().len(),
    {
        self.upstreams.len()
    }

    /// The address of the upstream at position `i`.
    pub fn address(&self, i: usize) -> (addr: &str)
        requires
            i < self.addresses().len(),
        ensures
            addr@ == self.addresses()[i as int],
    {
        self.upstreams[i].as_str()
    }

    /// The number of addresses that are marked dead.
    pub fn dead_count(&self) -> (n: usize)
        requires
            self.wf(),
        ensures
            n == self.dead().len(),
    {
        self.dead.len()
    }

    /// Whether the upstream at position `i` is marked dead.
    pub fn is_dead(&self, i: usize) -> (dead: bool)
        requires
            i < self.addresses().len(),
        ensures
            dead == !is_live(self.addresses(), self.dead(), i as int),
    {
        self.dead.contains(self.upstreams[i].as_str())
    }

    /// The positions of the live upstreams, in the order of the configured
    /// list.
    pub fn live_candidates(&self) -> (candidates: Vec<usize>)
        ensures
            positions(candidates@) == self.live(),
    {
        let mut candidates: Vec<usize> = Vec::new();
        let mut i: usize = 0;
        while i < self.upstreams.len()
            invariant
                i <= self.upstreams.len(),
                positions(candidates@) == live_below(self.addresses(), self.dead(), i as int),
            decreases self.upstreams.len() - i,
        {
            let ghost before = positions(candidates@);
            if !self.dead.contains(self.upstreams[i].as_str()) {
                candidates.push(i);
                assert(positions(candidates@) =~= before.push(i as int));
            }
            i += 1;
        }
        candidates
    }

    /// The number of live upstreams: how many connection attempts a
    /// selection can make at most before it has to give up.
    pub fn live_count(&self) -> (n: usize)
        ensures
            n == self.live().len(),
    {
        self.live_candidates().len()
    }

    /// The live upstream that a draw of `draw` selects: the one at that place
    /// of the candidate list.  `None` where the list is not that long.
    pub fn select_with(&self, draw: usize) -> (chosen: Option<usize>)
        ensures
            draw < self.live().len() ==> (chosen matches Some(i) && i == self.live()[draw as int]),
            draw >= self.live().len() ==> chosen.is_none(),
    {
        let candidates = self.live_candidates();
        if draw < candidates.len() {
            Some(candidates[draw])
        } else {
            None
        }
    }

    /// Draws one of the live upstreams with `rng`.
    ///
    /// Returns `None` exactly when no upstream is live.  Otherwise the
    /// position returned is that of a live upstream, so its address is not
    /// in the dead set.  Which of the live upstreams it is lies with the
    /// generator.
    pub fn select(&self, rng: &mut StdRng) -> (chosen: Option<usize>)
        ensures
            chosen.is_none() <==> self.live().len() == 0,
            chosen matches Some(i) ==> (self.live().contains(i as int) && is_live(
                self.addresses(),
                self.dead(),
                i as int,
            )),
    {
        let candidates = self.live_candidates();
        if candidates.len() == 0 {
            None
        } else {
            let drawn = random_below(rng, candidates.len());
            proof {
                lemma_live_below(self.addresses(), self.dead(), self.addresses().len() as int);
                assert(positions(candidates@)[drawn as int] == candidates[drawn as int]);
            }
            Some(candidates[drawn])
        }
    }

    /// Marks the upstream at position `i` dead, as after a failed attempt to
    /// connect to it.
    pub fn mark_dead(&mut self, i: usize)
        requires
            old(self).wf(),
            i < old(self).addresses().len(),
        ensures
            final(self).wf(),
            final(self).addresses() == old(self).addresses(),
            final(self).dead() == old(self).dead().insert(old(self).addresses()[i as int]),
    {
        let _ = self.dead.insert(self.upstreams[i].as_str());
        proof {
            let all = views(self.upstreams@);
            assert(all[i as int] == self.upstreams[i as int]@);
            assert(all.contains(all[i as int]));
        }
    }

    /// Takes the mark off the upstream at position `i`, as after it has
    /// answered a health probe.
    pub fn mark_alive(&mut self, i: usize)
        requires
            old(self).wf(),
            i < old(self).addresses().len(),
        ensures
            final(self).wf(),
            final(self).addresses() == old(self).addresses(),
            final(self).dead() == old(self).dead().remove(old(self).addresses()[i as int]),
    {
        let _ = self.dead.remove(self.upstreams[i].as_str());
    }
}

/// Selection leaves out the dead: every candidate is the position of a
/// configured upstream whose address is not in the dead set, and every
/// such position is a candidate.  There is no candidate exactly when all
/// configured addresses are in the dead set.
pub proof fn lemma_candidates_are_live(pool: UpstreamPool)
    ensures
        forall|k: int|
            0 <= k < pool.live().len() ==> is_live(
                pool.addresses(),
                pool.dead(),
                #[trigger] pool.live()[k],
            ),
        forall|i: int|
            is_live(pool.addresses(), pool.dead(), i) ==> #[trigger] pool.live().contains(i),
        pool.live().len() == 0 <==> forall|i: int|
            0 <= i < pool.addresses().len() ==> pool.dead().contains(
                #[trigger] pool.addresses()[i],
            ),
{
    let live = pool.live();
    lemma_live_below(pool.addresses(), pool.dead(), pool.addresses().len() as int);
    if live.len() == 0 {
        assert forall|i: int| 0 <= i < pool.addresses().len() implies pool.dead().contains(
            #[trigger] pool.addresses()[i],
        ) by {
            if is_live(pool.addresses(), pool.dead(), i) {
                assert(live.contains(i));
            }
        }
    } else {
        assert(is_live(pool.addresses(), pool.dead(), live[0]));
    }
}

/// When as many addresses are dead as upstreams are configured, none is
/// left to select.  Where the configured addresses differ from one
/// another the converse holds too: selection gives up only when the dead
/// set has grown to the size of the upstream list.
pub proof fn lemma_exhausted_iff_all_dead(pool: UpstreamPool)
    requires
        pool.wf(),
    ensures
        pool.dead().len() == pool.addresses().len() ==> pool.live().len() == 0,
        pool.addresses().no_duplicates() && pool.live().len() == 0 ==> pool.dead().len()
            == pool.addresses().len(),
        pool.dead().len() <= pool.addresses().len(),
{
    let addresses = pool.addresses();
    let configured = addresses.to_set();
    lemma_candidates_are_live(pool);
    vstd::seq_lib::seq_to_set_is_finite(addresses);
    addresses.lemma_cardinality_of_set();
    vstd::set_lib::lemma_len_subset(pool.dead(), configured);
    if pool.dead().len() == addresses.len() {
        vstd::set_lib::lemma_subset_equality(pool.dead(), configured);
        assert forall|i: int| 0 <= i < addresses.len() implies pool.dead().contains(
            #[trigger] addresses[i],
        ) by {
            assert(addresses.contains(addresses[i]));
        }
    }
    if addresses.no_duplicates() && pool.live().len() == 0 {
        addresses.unique_seq_to_set();
        assert forall|a: Seq<char>| configured.contains(a) implies pool.dead().contains(a) by {
            let i = choose|i: int| 0 <= i < addresses.len() && addresses[i] == a;
            assert(pool.dead().contains(addresses[i]));
        }
        assert(pool.dead() =~= configured);
    }
}

/// Every failed attempt uses a candidate up.  When the upstream that was
/// selected is marked dead, the pool has fewer live upstreams than before,
/// and the one marked is not selected again while the mark stays.  So a
/// selection that began with `n` live upstreams gives up after at most `n`
/// attempts.
pub proof fn lemma_failure_uses_up_candidate(before: UpstreamPool, after: UpstreamPool, i: int)
    requires
        is_live(before.addresses(), before.dead(), i),
        after.addresses() == before.addresses(),
        after.dead() == before.dead().insert(before.addresses()[i]),
    ensures
        after.live().len() < before.live().len(),
        !after.live().contains(i),
{
    lemma_marking_dead_shrinks(
        before.addresses(),
        before.dead(),
        before.addresses()[i],
        before.addresses().len() as int,
    );
    lemma_candidates_are_live(after);
    if after.live().contains(i) {
        let k = choose|k: int| 0 <= k < after.live().len() && after.live()[k] == i;
        assert(is_live(after.addresses(), after.dead(), after.live()[k]));
    }
}

/// Only configured addresses are ever marked dead.
pub proof fn lemma_dead_are_configured(pool: UpstreamPool)
    requires
        pool.wf(),
    ensures
        forall|addr: Seq<char>| pool.dead().contains(addr) ==> pool.addresses().contains(addr),
        pool.dead().finite(),
{
    vstd::seq_lib::seq_to_set_is_finite(pool.addresses());
    vstd::set_lib::lemma_len_subset(pool.dead(), pool.addresses().to_set());
}

/// The dead set after the attempts to connect to the upstreams at
/// `attempts`, one after another, have all failed.
pub open spec fn dead_after_failures(
    addresses: Seq<Seq<char>>,
    dead: Set<Seq<char>>,
    attempts: Seq<int>,
) -> Set<Seq<char>>
    decreases attempts.len(),
{
    if attempts.len() == 0 {
        dead
    } else {
        dead_after_failures(addresses, dead, attempts.drop_last()).insert(
            addresses[attempts.last()],
        )
    }
}

/// Each attempt went to an upstream that was live when it was made, all
/// attempts before it having failed.
pub open spec fn attempts_follow_selection(
    addresses: Seq<Seq<char>>,
    dead: Set<Seq<char>>,
    attempts: Seq<int>,
) -> bool {
    forall|k: int|
        0 <= k < attempts.len() ==> is_live(
            addresses,
            dead_after_failures(addresses, dead, attempts.take(k)),
            #[trigger] attempts[k],
        )
}

/// A selection never tries more upstreams than were live at its start,
/// and none of them twice: each failed attempt leaves at least one
/// candidate fewer, and what was tried and failed is in the dead set.
pub proof fn lemma_attempts_bounded(
    addresses: Seq<Seq<char>>,
    dead: Set<Seq<char>>,
    attempts: Seq<int>,
)
    requires
        attempts_follow_selection(addresses, dead, attempts),
    ensures
        attempts.len() + live_indices(
            addresses,
            dead_after_failures(addresses, dead, attempts),
        ).len() <= live_indices(addresses, dead).len(),
        attempts.no_duplicates(),
        forall|k: int|
            0 <= k < attempts.len() ==> dead_after_failures(addresses, dead, attempts).contains(
                addresses[#[trigger] attempts[k]],
            ),
    decreases attempts.len(),
{
    if attempts.len() > 0 {
        let earlier = attempts.drop_last();
        let last = attempts.last();
        assert(attempts.take(attempts.len() - 1) =~= earlier);
        assert forall|k: int| 0 <= k < earlier.len() implies is_live(
            addresses,
            dead_after_failures(addresses, dead, earlier.take(k)),
            #[trigger] earlier[k],
        ) by {
            assert(earlier.take(k) =~= attempts.take(k));
            assert(earlier[k] == attempts[k]);
        }
        lemma_attempts_bounded(addresses, dead, earlier);
        let reached = dead_after_failures(addresses, dead, earlier);
        assert(is_live(addresses, reached, last));
        lemma_marking_dead_shrinks(addresses, reached, addresses[last], addresses.len() as int);
        assert forall|i: int, j: int|
            0 <= i < attempts.len() && 0 <= j < attempts.len() && i != j implies attempts[i]
            != attempts[j] by {
            if i == attempts.len() - 1 {
                assert(reached.contains(addresses[earlier[j]]));
            } else if j == attempts.len() - 1 {
                assert(reached.contains(addresses[earlier[i]]));
            } else {
                assert(earlier[i] != earlier[j]);
            }
        }
        assert forall|k: int| 0 <= k < attempts.len() implies dead_after_failures(
            addresses,
            dead,
            attempts,
        ).contains(addresses[#[trigger] attempts[k]]) by {
            if k < attempts.len() - 1 {
                assert(reached.contains(addresses[earlier[k]]));
            }
        }
    }
}

/// An upstream whose mark was taken off is a candidate again.
pub proof fn lemma_revived_is_candidate(before: UpstreamPool, after: UpstreamPool, i: int)
    requires
        0 <= i < before.addresses().len(),
        after.addresses() == before.addresses(),
        after.dead() == before.dead().remove(before.addresses()[i]),
    ensures
        after.live().contains(i),
        is_live(after.addresses(), after.dead(), i),
{
    lemma_candidates_are_live(after);
}

} // verus!
