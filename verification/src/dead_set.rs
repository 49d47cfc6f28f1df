//! The set of upstream addresses that are believed to be unreachable.

use vstd::prelude::*;
use crate::text::{str_eq, views};

verus! {

/// A set of addresses, held without repetition.
pub struct DeadUpstreamSet {
    addrs: Vec<String>,
}

impl View for DeadUpstreamSet {
    type V = Set<Seq<char>>;

    closed spec fn view(&self) -> Set<Seq<char>> {
        views(self.addrs@).to_set()
    }
}

impl DeadUpstreamSet {
    /// No address is held twice.
    pub closed spec fn wf(&self) -> bool {
        views(self.addrs@).no_duplicates()
    }

    /// A set without addresses.
    pub fn new() -> (set: DeadUpstreamSet)
        ensures
            set.wf(),
            set@ == Set::<Seq<char>>::empty(),
    {
        let set = DeadUpstreamSet { addrs: Vec::new() };
        assert(views(set.addrs@) =~= Seq::<Seq<char>>::empty());
        assert(set@ =~= Set::<Seq<char>>::empty());
        set
    }

    /// The number of addresses in the set.
    pub fn len(&self) -> (n: usize)
        requires
            self.wf(),
        ensures
            n == self@.len(),
    {
        proof {
            views(self.addrs@).unique_seq_to_set();
        }
        self.addrs.len()
    }

    /// Where `addr` is held, if it is.
    fn position(&self, addr: &str) -> (at: Option<usize>)
        ensures
            match at {
                Some(i) => i < self.addrs.len() && self.addrs[i as int]@ == addr@,
                None => !self@.contains(addr@),
            },
    {
        let mut i: usize = 0;
        while i < self.addrs.len()
            invariant
                i <= self.addrs.len(),
                forall|j: int| 0 <= j < i ==> self.addrs[j]@ != addr@,
            decreases self.addrs.len() - i,
        {
            if str_eq(self.addrs[i].as_str(), addr) {
                return Some(i);
            }
            i += 1;
        }
        proof {
            let vs = views(self.addrs@);
            if vs.to_set().contains(addr@) {
                let j = choose|j: int| 0 <= j < vs.len() && vs[j] == addr@;
                assert(self.addrs[j]@ == addr@);
            }
        }
        None
    }

    /// Whether `addr` is in the set.
    pub fn contains(&self, addr: &str) -> (found: bool)
        ensures
            found == self@.contains(addr@),
    {
        match self.position(addr) {
            Some(i) => {
                proof {
                    let vs = views(self.addrs@);
                    assert(vs[i as int] == addr@);
                    assert(vs.contains(addr@));
                }
                true
            },
            None => false,
        }
    }

    /// Puts `addr` into the set.  Returns whether it was new to the set.
    pub fn insert(&mut self, addr: &str) -> (added: bool)
        requires
            old(self).wf(),
        ensures
            final(self).wf(),
            final(self)@ == old(self)@.insert(addr@),
            added == !old(self)@.contains(addr@),
    {
        match self.position(addr) {
            Some(i) => {
                proof {
                    let vs = views(self.addrs@);
                    assert(vs[i as int] == addr@);
                    assert(vs.contains(addr@));
                    assert(self@.insert(addr@) =~= self@);
                }
                false
            },
            None => {
                let ghost before = views(self.addrs@);
                self.addrs.push(addr.to_owned());
                proof {
                    let after = views(self.addrs@);
                    assert(after =~= before.push(addr@));
                    before.lemma_push_to_set_commute(addr@);
                    assert forall|i: int, j: int|
                        0 <= i < after.len() && 0 <= j < after.len() && i != j implies after[i]
                        != after[j] by {
                        if i == before.len() {
                            assert(before[j] == after[j]);
                            assert(before.contains(before[j]));
                        } else if j == before.len() {
                            assert(before[i] == after[i]);
                            assert(before.contains(before[i]));
                        } else {
                            assert(before[i] == after[i] && before[j] == after[j]);
                        }
                    }
                }
                true
            },
        }
    }

    /// Takes `addr` out of the set.  Returns whether it was in the set.
    pub fn remove(&mut self, addr: &str) -> (removed: bool)
        requires
            old(self).wf(),
        ensures
            final(self).wf(),
            final(self)@ == old(self)@.remove(addr@),
            removed == old(self)@.contains(addr@),
    {
        match self.position(addr) {
            Some(i) => {
                let ghost before = views(self.addrs@);
                let _ = self.addrs.remove(i);
                proof {
                    let after = views(self.addrs@);
                    assert(before[i as int] == addr@);
                    assert(before.contains(addr@));
                    assert(after =~= before.remove(i as int));
                    assert forall|a: Seq<char>|
                        after.to_set().contains(a) <==> before.to_set().remove(addr@).contains(
                            a,
                        ) by {
                        if after.contains(a) {
                            let j = choose|j: int| 0 <= j < after.len() && after[j] == a;
                            let k = if j < i { j } else { j + 1 };
                            assert(before[k] == a);
                            assert(before.contains(a));
                        }
                        if before.contains(a) && a != addr@ {
                            let k = choose|k: int| 0 <= k < before.len() && before[k] == a;
                            let j = if k < i { k } else { k - 1 };
                            assert(after[j] == a);
                            assert(after.contains(a));
                        }
                    }
                    assert(after.to_set() =~= before.to_set().remove(addr@));
                }
                true
            },
            None => {
                proof {
                    assert(self@.remove(addr@) =~= self@);
                }
                false
            },
        }
    }
}

} // verus!
