//! A sliding window over a stream, held in a ring of fixed length.
//!
//! The window always shows the same number of items. Shifting it by one drops
//! the oldest item and takes a new one in, without moving the others in
//! memory and without allocating.

use vstd::prelude::*;
use vstd::arithmetic::div_mod::lemma_fundamental_div_mod_converse;

verus! {

/// The cell that holds item `i` of a window whose oldest item is in cell
/// `head`, in a ring of `len` cells.
pub open spec fn slot(head: int, i: int, len: int) -> int {
    (head + i) % len
}

/// The slot of an item is its distance from the head, wrapped round once at
/// most.
pub proof fn lemma_slot_wraps_once(head: int, i: int, len: int)
    requires
        0 <= head < len,
        0 <= i < len,
    ensures
        slot(head, i, len) == if head + i < len {
            head + i
        } else {
            head + i - len
        },
        0 <= slot(head, i, len) < len,
{
    if head + i < len {
        lemma_fundamental_div_mod_converse(head + i, len, 0, head + i);
    } else {
        lemma_fundamental_div_mod_converse(head + i, len, 1, head + i - len);
    }
}

/// A window of fixed length over a stream of items, oldest first.
pub struct Ring<T> {
    cells: Vec<T>,
    head: usize,
}

impl<T> View for Ring<T> {
    type V = Seq<T>;

    closed spec fn view(&self) -> Seq<T> {
        Seq::new(
            self.cells@.len(),
            |i: int| self.cells@[slot(self.head as int, i, self.cells@.len() as int)],
        )
    }
}

impl<T: Copy> Ring<T> {
    /// The ring has at least one cell and its head is one of them.
    pub closed spec fn wf(&self) -> bool {
        self.head < self.cells@.len()
    }

    /// A window of `len` items, each of them `fill`.
    pub fn new(len: usize, fill: T) -> (ring: Ring<T>)
        requires
            len > 0,
        ensures
            ring.wf(),
            ring@ == Seq::new(len as nat, |i: int| fill),
    {
        let mut cells: Vec<T> = Vec::with_capacity(len);
        let mut n: usize = 0;
        while n < len
            invariant
                n <= len,
                cells@.len() == n,
                forall|i: int| 0 <= i < n ==> cells@[i] == fill,
            decreases len - n,
        {
            cells.push(fill);
            n = n + 1;
        }
        let ring = Ring { cells, head: 0 };
        proof {
            assert forall|i: int| 0 <= i < len implies #[trigger] ring@[i] == fill by {
                lemma_slot_wraps_once(0, i, len as int);
            }
            assert(ring@ =~= Seq::new(len as nat, |i: int| fill));
        }
        ring
    }

    /// Number of items in the window.
    pub fn len(&self) -> (len: usize)
        requires
            self.wf(),
        ensures
            len == self@.len(),
            len > 0,
    {
        self.cells.len()
    }

    /// Cell of item `i`.
    fn cell_of(&self, i: usize) -> (cell: usize)
        requires
            self.wf(),
            i < self@.len(),
        ensures
            cell == slot(self.head as int, i as int, self.cells@.len() as int),
            cell < self.cells@.len(),
    {
        proof {
            lemma_slot_wraps_once(self.head as int, i as int, self.cells@.len() as int);
        }
        let room: usize = self.cells.len() - self.head;
        if i < room {
            self.head + i
        } else {
            i - room
        }
    }

    /// Item `i` of the window, counted from the oldest.
    pub fn get(&self, i: usize) -> (item: T)
        requires
            self.wf(),
            i < self@.len(),
        ensures
            item == self@[i as int],
    {
        let cell: usize = self.cell_of(i);
        self.cells[cell]
    }

    /// Puts `item` in place of item `i` of the window.
    pub fn set(&mut self, i: usize, item: T)
        requires
            old(self).wf(),
            i < old(self)@.len(),
        ensures
            final(self).wf(),
            final(self)@ == old(self)@.update(i as int, item),
    {
        let cell: usize = self.cell_of(i);
        self.cells.set(cell, item);
        proof {
            let len = self.cells@.len() as int;
            let head = self.head as int;
            assert forall|j: int| 0 <= j < len implies #[trigger] self@[j] == old(self)@.update(
                i as int,
                item,
            )[j] by {
                lemma_slot_wraps_once(head, j, len);
                lemma_slot_wraps_once(head, i as int, len);
            }
            assert(self@ =~= old(self)@.update(i as int, item));
        }
    }

    /// Shifts the window by one: drops the oldest item, which is returned, and
    /// takes `item` in as the newest.
    pub fn push(&mut self, item: T) -> (dropped: T)
        requires
            old(self).wf(),
        ensures
            final(self).wf(),
            dropped == old(self)@[0],
            final(self)@ == old(self)@.skip(1).push(item),
    {
        let len: usize = self.cells.len();
        let dropped: T = self.cells[self.head];
        self.cells.set(self.head, item);
        self.head = if self.head + 1 == len {
            0
        } else {
            self.head + 1
        };
        proof {
            let before = old(self).head as int;
            let after = self.head as int;
            lemma_slot_wraps_once(before, 0, len as int);
            assert forall|j: int| 0 <= j < len implies #[trigger] self@[j] == old(self)@.skip(
                1,
            ).push(item)[j] by {
                lemma_slot_wraps_once(after, j, len as int);
                if j + 1 < len {
                    lemma_slot_wraps_once(before, j + 1, len as int);
                }
            }
            assert(self@ =~= old(self)@.skip(1).push(item));
        }
        dropped
    }

    /// Makes every item of the window `fill`.
    pub fn fill(&mut self, fill: T)
        requires
            old(self).wf(),
        ensures
            final(self).wf(),
            final(self)@ == Seq::new(old(self)@.len(), |i: int| fill),
    {
        let len: usize = self.cells.len();
        let mut n: usize = 0;
        while n < len
            invariant
                n <= len,
                self.cells@.len() == len,
                self.head == old(self).head,
                forall|i: int| 0 <= i < n ==> self.cells@[i] == fill,
            decreases len - n,
        {
            self.cells.set(n, fill);
            n = n + 1;
        }
        proof {
            assert forall|i: int| 0 <= i < len implies #[trigger] self@[i] == fill by {
                lemma_slot_wraps_once(self.head as int, i, len as int);
            }
            assert(self@ =~= Seq::new(old(self)@.len(), |i: int| fill));
        }
    }
}

} // verus!
