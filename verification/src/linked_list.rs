//! A singly linked stack of values whose contents are described by a sequence.

use vstd::prelude::*;
use vstd::std_specs::cmp::{PartialEqSpec, PartialEqSpecImpl};

verus! {

/// One cell of the list: a value and the cells behind it.
pub struct Node<T> {
    value: T,
    next: Option<Box<Node<T>>>,
}

/// A singly linked list that grows and shrinks at the front.
pub struct LinkedList<T> {
    head: Option<Box<Node<T>>>,
    size: usize,
}

impl<T> Node<T> {
    /// The values held from this cell to the end of the chain, front first.
    pub closed spec fn chain(self) -> Seq<T>
        decreases self,
    {
        seq![self.value] + match self.next {
            None => Seq::empty(),
            Some(rest) => rest.chain(),
        }
    }

    /// The value stored in this cell.
    pub closed spec fn spec_value(self) -> T {
        self.value
    }

    /// The values stored behind this cell, front first.
    pub closed spec fn spec_rest(self) -> Seq<T> {
        link_seq(self.next)
    }

    pub fn new(value: T, next: Option<Box<Node<T>>>) -> (node: Node<T>)
        ensures
            node.spec_value() == value,
            node.spec_rest() == link_seq(next),
            node.chain() == seq![value] + link_seq(next),
    {
        Node { value: value, next: next }
    }
}

/// The values reachable from an optional link, front first.
pub open spec fn link_seq<T>(link: Option<Box<Node<T>>>) -> Seq<T> {
    match link {
        None => Seq::empty(),
        Some(node) => node.chain(),
    }
}

impl<T> View for LinkedList<T> {
    type V = Seq<T>;

    closed spec fn view(&self) -> Seq<T> {
        link_seq(self.head)
    }
}

impl<T> LinkedList<T> {
    /// The recorded size agrees with the number of cells.
    pub closed spec fn wf(&self) -> bool {
        self.size == link_seq(self.head).len()
    }

    pub fn new() -> (list: LinkedList<T>)
        ensures
            list.wf(),
            list@ == Seq::<T>::empty(),
    {
        LinkedList { head: None, size: 0 }
    }

    pub fn get_size(&self) -> (n: usize)
        requires
            self.wf(),
        ensures
            n == self@.len(),
    {
        self.size
    }

    pub fn is_empty(&self) -> (b: bool)
        requires
            self.wf(),
        ensures
            b == (self@.len() == 0),
    {
        self.get_size() == 0
    }

    pub fn push_front(&mut self, value: T)
        requires
            old(self).wf(),
            old(self)@.len() < usize::MAX,
        ensures
            final(self).wf(),
            final(self)@ == seq![value] + old(self)@,
    {
        let new_node: Box<Node<T>> = Box::new(Node::new(value, self.head.take()));
        self.head = Some(new_node);
        self.size += 1;
    }

    /// The value at place `index`, counted from the front; `None` where the
    /// list is not that long.
    pub fn get(&self, index: usize) -> (value: Option<&T>)
        ensures
            index < self@.len() ==> value == Some(&self@[index as int]),
            index >= self@.len() ==> value.is_none(),
    {
        let mut current = &self.head;
        let mut passed: usize = 0;
        proof {
            assert(self@.subrange(0, self@.len() as int) =~= self@);
        }
        loop
            invariant
                passed <= index,
                passed <= self@.len(),
                link_seq(*current) == self@.subrange(passed as int, self@.len() as int),
            decreases index - passed,
        {
            match current {
                Some(node) => {
                    proof {
                        lemma_chain_step(self@, passed as int, node.value, link_seq(node.next));
                    }
                    if passed == index {
                        return Some(&node.value);
                    }
                    current = &node.next;
                    passed += 1;
                },
                None => {
                    return None;
                },
            }
        }
    }

    pub fn pop_front(&mut self) -> (front: Option<T>)
        requires
            old(self).wf(),
        ensures
            final(self).wf(),
            old(self)@.len() == 0 ==> front.is_none() && final(self)@ == old(self)@,
            old(self)@.len() > 0 ==> front == Some(old(self)@[0]),
            old(self)@.len() > 0 ==> final(self)@ == old(self)@.subrange(
                1,
                old(self)@.len() as int,
            ),
    {
        let node: Box<Node<T>> = self.head.take()?;
        let Node { value, next } = *node;
        self.head = next;
        self.size -= 1;
        Some(value)
    }
}

impl<T> Drop for LinkedList<T> {
    /// Takes the cells apart one by one, so that a long list is not
    /// unwound by nested calls.
    fn drop(&mut self)
        opens_invariants none
        no_unwind
    {
        let mut current: Option<Box<Node<T>>> = None;
        core::mem::swap(&mut self.head, &mut current);
        loop
            decreases link_seq(current).len(),
        {
            match current {
                Some(node) => {
                    let Node { value: _, next } = *node;
                    current = next;
                },
                None => {
                    break ;
                },
            }
        }
    }
}

impl<T: Copy> Clone for LinkedList<T> {
    /// A list of its own with the same values in the same order.
    fn clone(&self) -> (copy: Self)
        ensures
            copy.wf(),
            copy@ == self@,
    {
        let mut values: Vec<T> = Vec::new();
        let mut current = &self.head;
        loop
            invariant
                self@ == values@ + link_seq(*current),
            ensures
                self@ == values@,
            decreases link_seq(*current).len(),
        {
            match current {
                Some(node) => {
                    let ghost before = values@;
                    values.push(node.value);
                    proof {
                        assert(link_seq(*current) =~= seq![node.value] + link_seq(node.next));
                        assert(values@ + link_seq(node.next) =~= before + link_seq(*current));
                    }
                    current = &node.next;
                },
                None => {
                    assert(self@ =~= values@);
                    break ;
                },
            }
        }
        let mut copy = LinkedList::new();
        let mut left: usize = values.len();
        while left > 0
            invariant
                left <= values@.len(),
                copy.wf(),
                copy@ == values@.subrange(left as int, values@.len() as int),
            decreases left,
        {
            left -= 1;
            copy.push_front(values[left]);
            assert(copy@ =~= values@.subrange(left as int, values@.len() as int));
        }
        assert(copy@ =~= values@);
        copy
    }
}

/// Two chains hold equal values, place by place, and end together.
pub open spec fn chains_equal<T: PartialEqSpec>(a: Seq<T>, b: Seq<T>) -> bool {
    a.len() == b.len() && forall|i: int| 0 <= i < a.len() ==> (#[trigger] a[i]).eq_spec(&b[i])
}

impl<T: PartialEq> PartialEqSpecImpl for LinkedList<T> {
    open spec fn obeys_eq_spec() -> bool {
        T::obeys_eq_spec()
    }

    open spec fn eq_spec(&self, other: &Self) -> bool {
        chains_equal(self@, other@)
    }
}

/// What is known of a chain's tail when its head is known.
proof fn lemma_chain_step<T>(whole: Seq<T>, done: int, value: T, rest: Seq<T>)
    requires
        0 <= done <= whole.len(),
        whole.subrange(done, whole.len() as int) == seq![value] + rest,
    ensures
        done < whole.len(),
        whole[done] == value,
        whole.subrange(done + 1, whole.len() as int) == rest,
{
    let tail = whole.subrange(done, whole.len() as int);
    assert(tail.len() == 1 + rest.len());
    assert(tail[0] == value);
    assert(whole.subrange(done + 1, whole.len() as int) =~= rest) by {
        assert forall|i: int| 0 <= i < rest.len() implies whole[done + 1 + i] == rest[i] by {
            assert(tail[i + 1] == rest[i]);
        }
    }
}

impl<T: PartialEq> PartialEq for LinkedList<T> {
    /// Lists are equal when they are equally long and hold equal values
    /// in the same order.
    fn eq(&self, other: &Self) -> (same: bool) {
        let mut mine = &self.head;
        let mut theirs = &other.head;
        let ghost mut done: int = 0;
        proof {
            assert(self@.subrange(0, self@.len() as int) =~= self@);
            assert(other@.subrange(0, other@.len() as int) =~= other@);
        }
        loop
            invariant
                0 <= done <= self@.len(),
                done <= other@.len(),
                link_seq(*mine) == self@.subrange(done, self@.len() as int),
                link_seq(*theirs) == other@.subrange(done, other@.len() as int),
                T::obeys_eq_spec() ==> forall|i: int|
                    0 <= i < done ==> (#[trigger] self@[i]).eq_spec(&other@[i]),
            decreases self@.len() - done,
        {
            match (mine, theirs) {
                (Some(a), Some(b)) => {
                    proof {
                        lemma_chain_step(self@, done, a.value, link_seq(a.next));
                        lemma_chain_step(other@, done, b.value, link_seq(b.next));
                    }
                    if a.value != b.value {
                        return false;
                    }
                    mine = &a.next;
                    theirs = &b.next;
                    proof {
                        done = done + 1;
                    }
                },
                (None, None) => {
                    return true;
                },
                (Some(a), None) => {
                    proof {
                        lemma_chain_step(self@, done, a.value, link_seq(a.next));
                    }
                    return false;
                },
                (None, Some(b)) => {
                    proof {
                        lemma_chain_step(other@, done, b.value, link_seq(b.next));
                    }
                    return false;
                },
            }
        }
    }
}

} // verus!
