//! Ready list: FIFO queue of task identifiers at a given priority.
//!
//! Each priority level has its own ready list. Tasks are added at the
//! tail (FIFO for round-robin) and scheduled from the head. The list is
//! viewed abstractly (`list@`) as the sequence of queued task ids from
//! head to tail.

use vstd::prelude::*;


verus! {

/// Ready list for a single priority level
pub struct ReadyList {
    items: Vec<usize>,
}

impl View for ReadyList {
    type V = Seq<usize>;

    closed spec fn view(&self) -> Seq<usize> {
        self.items@
    }
}

impl ReadyList {
    /// Create a new empty ready list
    pub fn new() -> (r: ReadyList)
        ensures
            r@ =~= Seq::<usize>::empty(),
            r@.len() == 0,
    {
        ReadyList { items: Vec::new() }
    }

    /// Reset the ready list to empty
    pub fn init(&mut self)
        ensures
            final(self)@ =~= Seq::<usize>::empty(),
            final(self)@.len() == 0,
    {
        self.items = Vec::new();
    }

    /// Head of the list: the next task to be scheduled
    pub fn head(&self) -> (r: Option<usize>)
        ensures
            r == (if self@.len() == 0 {
                Option::<usize>::None
            } else {
                Option::Some(self@[0])
            }),
    {
        if self.items.len() == 0 {
            None
        } else {
            Some(self.items[0])
        }
    }

    /// Tail of the list: the most recently queued task
    pub fn tail(&self) -> (r: Option<usize>)
        ensures
            r == (if self@.len() == 0 {
                Option::<usize>::None
            } else {
                Option::Some(self@[self@.len() - 1])
            }),
    {
        if self.items.len() == 0 {
            None
        } else {
            Some(self.items[self.items.len() - 1])
        }
    }

    /// Check if the list is empty
    pub fn is_empty(&self) -> (r: bool)
        ensures
            r == (self@.len() == 0),
    {
        self.items.len() == 0
    }

    /// Number of queued tasks
    pub fn count(&self) -> (r: usize)
        ensures
            r == self@.len(),
    {
        self.items.len()
    }

    /// The task at a given position from the head
    pub fn get(&self, i: usize) -> (r: usize)
        requires
            (i as int) < self@.len(),
        ensures
            r == self@[i as int],
    {
        self.items[i]
    }

    /// Insert a task at the tail of the list (FIFO order)
    pub fn insert_tail(&mut self, t: usize)
        ensures
            final(self)@ == old(self)@.push(t),
    {
        self.items.push(t);
    }

    /// Insert a task at the head of the list (LIFO order)
    pub fn insert_head(&mut self, t: usize)
        ensures
            final(self)@ == old(self)@.insert(0, t),
    {
        self.items.insert(0, t);
    }

    /// Remove the first occurrence of a task from the list; a task that
    /// is not queued leaves the list unchanged
    pub fn remove(&mut self, t: usize)
        ensures
            final(self)@ == old(self)@.remove_value(t),
            !old(self)@.contains(t) ==> final(self)@ == old(self)@,
            old(self)@.contains(t) ==> final(self)@.len() == old(self)@.len() - 1,
    {
        let ghost s = self.items@;
        let mut i: usize = 0;
        while i < self.items.len()
            invariant
                self.items@ == s,
                s == old(self)@,
                i <= s.len(),
                forall|j: int| 0 <= j < i ==> s[j] != t,
            decreases s.len() - i,
        {
            if self.items[i] == t {
                self.items.remove(i);
                proof {
                    s.index_of_first_ensures(t);
                    match s.index_of_first(t) {
                        Some(i0) => {
                            assert(i0 == i as int);
                        },
                        None => {
                            assert(s[i as int] != t);
                        },
                    }
                }
                return ;
            }
            i = i + 1;
        }
        proof {
            s.index_of_first_ensures(t);
            match s.index_of_first(t) {
                Some(i0) => {
                    assert(s[i0] != t);
                },
                None => {},
            }
        }
    }
}

impl Default for ReadyList {
    fn default() -> (r: Self)
        ensures
            r@.len() == 0,
    {
        Self::new()
    }
}

} // verus!
