//! A queue of a fixed number of elements.
use vstd::prelude::*;

verus! {

/// Where the element at `index`, counted from the youngest, stands in a
/// ring of `size` slots whose next slot to be written is `cursor`.
pub open spec fn slot_of(size: int, cursor: int, index: int) -> int {
    if index < cursor {
        cursor - index - 1
    } else {
        size + cursor - index - 1
    }
}

/// A queue of `N` elements: a push takes the oldest element out. The
/// element at index zero is the youngest, the one at `N - 1` the oldest.
pub struct StaticDeque<const N: usize, T> {
    arr: Vec<T>,
    cursor: usize,
}

impl<const N: usize, T> View for StaticDeque<N, T> {
    type V = Seq<T>;

    closed spec fn view(&self) -> Seq<T> {
        Seq::new(N as nat, |i: int| self.arr@[slot_of(N as int, self.cursor as int, i)])
    }
}

impl<const N: usize, T> StaticDeque<N, T> {
    /// Whether the queue is consistent: it holds `N` elements, at least one.
    pub closed spec fn wf(&self) -> bool {
        &&& N >= 1
        &&& self.arr@.len() == N
        &&& self.cursor < N
    }

    /// A queue of `N` elements holds `N` elements.
    pub proof fn lemma_len(&self)
        ensures
            self@.len() == N,
    {
    }

    /// The queue of the given elements, the oldest first.
    pub fn new(arr: Vec<T>) -> (deque: Self)
        requires
            N >= 1,
            arr@.len() == N,
        ensures
            deque.wf(),
            deque@ == arr@.reverse(),
    {
        let deque = StaticDeque { arr, cursor: 0 };
        assert(deque@ =~= arr@.reverse());
        deque
    }

    /// Puts `val` in as the youngest element; the oldest goes out and every
    /// other element is one older.
    pub fn push(&mut self, val: T)
        requires
            old(self).wf(),
        ensures
            final(self).wf(),
            final(self)@ == seq![val] + old(self)@.drop_last(),
    {
        self.arr.set(self.cursor, val);
        self.cursor = if self.cursor + 1 == N {
            0
        } else {
            self.cursor + 1
        };
        assert(self@ =~= seq![val] + old(self)@.drop_last());
    }

    /// The element at index `i`: the youngest at zero, the oldest at
    /// `N - 1`.
    pub fn get(&self, i: usize) -> (element: &T)
        requires
            self.wf(),
            i < N,
        ensures
            *element == self@[i as int],
    {
        if i < self.cursor {
            &self.arr[self.cursor - i - 1]
        } else {
            &self.arr[N - i - 1 + self.cursor]
        }
    }
}

} // verus!
