use vstd::prelude::*;

verus! {

/// An owned, heap allocated list of elements.
pub struct Vec<T> {
    data: std::vec::Vec<T>,
}

/// A borrowing iterator over a `Vec`.
pub struct VecIterator<'a, T> {
    vec: &'a Vec<T>,
    offset: usize,
}

/// An owning iterator over a `Vec`; it keeps the elements still to come in
/// reverse order, so that the next one is the last.
pub struct OwnedVecIterator<T> {
    rest: std::vec::Vec<T>,
}

impl<T> View for Vec<T> {
    type V = Seq<T>;

    closed spec fn view(&self) -> Seq<T> {
        self.data@
    }
}

impl<'a, T> VecIterator<'a, T> {
    /// The elements of the vector walked.
    pub closed spec fn source(&self) -> Seq<T> {
        self.vec@
    }

    /// The elements not yet handed out.
    pub closed spec fn remaining(&self) -> Seq<T> {
        self.vec@.subrange(self.offset as int, self.vec@.len() as int)
    }

    pub closed spec fn wf(&self) -> bool {
        self.offset <= self.vec@.len()
    }

    /// Hands out the next element, or `None` once all have been seen.
    pub fn next(&mut self) -> (r: Option<&'a T>)
        requires
            old(self).wf(),
        ensures
            final(self).wf(),
            final(self).source() == old(self).source(),
            old(self).remaining().len() == 0 ==> r.is_none() && final(self).remaining()
                == old(self).remaining(),
            old(self).remaining().len() > 0 ==> r == Some(&old(self).remaining()[0])
                && final(self).remaining() == old(self).remaining().drop_first(),
    {
        if self.offset < self.vec.len() {
            let r = self.vec.get(self.offset);
            self.offset = self.offset + 1;
            proof {
                assert(final(self).remaining() =~= old(self).remaining().drop_first());
            }
            r
        } else {
            None
        }
    }
}

impl<T> OwnedVecIterator<T> {
    /// The elements not yet handed out, in order.
    pub closed spec fn remaining(&self) -> Seq<T> {
        self.rest@.reverse()
    }

    /// Hands out the next element, or `None` once all have been taken.
    pub fn next(&mut self) -> (r: Option<T>)
        ensures
            old(self).remaining().len() == 0 ==> r.is_none() && final(self).remaining()
                == old(self).remaining(),
            old(self).remaining().len() > 0 ==> r == Some(old(self).remaining()[0])
                && final(self).remaining() == old(self).remaining().drop_first(),
    {
        let r = self.rest.pop();
        proof {
            if old(self).rest@.len() > 0 {
                assert(final(self).remaining() =~= old(self).remaining().drop_first());
            }
        }
        r
    }
}

impl<T> Vec<T> {
    /// Creates an empty vector.
    pub fn new() -> (r: Self)
        ensures
            r@ == Seq::<T>::empty(),
    {
        Vec { data: std::vec::Vec::new() }
    }

    /// The element at `i`, or `None` when `i` is out of bounds.
    pub fn get(&self, i: usize) -> (r: Option<&T>)
        ensures
            i < self@.len() ==> r == Some(&self@[i as int]),
            i >= self@.len() ==> r.is_none(),
    {
        if i < self.data.len() {
            Some(&self.data[i])
        } else {
            None
        }
    }

    /// Replaces the element at `i`; an index at or past the end leaves the
    /// vector as it is.
    pub fn set(&mut self, i: usize, value: T)
        ensures
            i < old(self)@.len() ==> final(self)@ == old(self)@.update(i as int, value),
            i >= old(self)@.len() ==> final(self)@ == old(self)@,
    {
        if i < self.data.len() {
            self.data.set(i, value);
        }
    }

    /// Inserts `value` at position `i`, moving the later elements up by one;
    /// an index past the end leaves the vector as it is.
    pub fn insert(&mut self, i: usize, value: T)
        ensures
            i <= old(self)@.len() ==> final(self)@ == old(self)@.insert(i as int, value),
            i > old(self)@.len() ==> final(self)@ == old(self)@,
    {
        if i <= self.data.len() {
            self.data.insert(i, value);
        }
    }

    /// Removes and returns the element at `i`, moving the later elements down
    /// by one; `None` when `i` is out of bounds.
    pub fn remove(&mut self, i: usize) -> (r: Option<T>)
        ensures
            i < old(self)@.len() ==> r == Some(old(self)@[i as int]) && final(self)@
                == old(self)@.remove(i as int),
            i >= old(self)@.len() ==> r.is_none() && final(self)@ == old(self)@,
    {
        if i < self.data.len() {
            Some(self.data.remove(i))
        } else {
            None
        }
    }

    /// Appends an element at the end.
    pub fn push(&mut self, value: T)
        ensures
            final(self)@ == old(self)@.push(value),
    {
        self.data.push(value);
    }

    /// Removes and returns the last element; `None` when empty.
    pub fn pop(&mut self) -> (r: Option<T>)
        ensures
            old(self)@.len() > 0 ==> r == Some(old(self)@.last()) && final(self)@
                == old(self)@.drop_last(),
            old(self)@.len() == 0 ==> r.is_none() && final(self)@ == old(self)@,
    {
        self.data.pop()
    }

    /// The number of elements.
    pub fn len(&self) -> (r: usize)
        ensures
            r == self@.len(),
    {
        self.data.len()
    }

    /// An iterator over the elements, from the first.
    pub fn iter(&self) -> (r: VecIterator<'_, T>)
        ensures
            r.wf(),
            r.source() == self@,
            r.remaining() == self@,
    {
        let r = VecIterator { vec: self, offset: 0 };
        proof {
            assert(r.remaining() =~= self@);
        }
        r
    }

    /// Turns the vector into an iterator that hands out its elements in order.
    pub fn into_iter(self) -> (r: OwnedVecIterator<T>)
        ensures
            r.remaining() == self@,
    {
        let mut data = self.data;
        let mut rest: std::vec::Vec<T> = std::vec::Vec::new();
        let ghost orig = data@;
        while data.len() > 0
            invariant
                orig == data@ + rest@.reverse(),
            decreases data.len(),
        {
            let x = data.pop().unwrap();
            proof {
                assert(orig =~= data@ + rest@.push(x).reverse());
            }
            rest.push(x);
        }
        proof {
            assert(orig =~= rest@.reverse());
        }
        OwnedVecIterator { rest }
    }
}

impl<T: Copy> Vec<T> {
    /// Creates a vector holding a copy of each element of `slice`.
    pub fn from_slice(slice: &[T]) -> (r: Self)
        ensures
            r@ == slice@,
    {
        let mut data: std::vec::Vec<T> = std::vec::Vec::new();
        let mut i: usize = 0;
        while i < slice.len()
            invariant
                i <= slice@.len(),
                data@ == slice@.subrange(0, i as int),
            decreases slice@.len() - i,
        {
            data.push(slice[i]);
            i = i + 1;
            proof {
                assert(data@ =~= slice@.subrange(0, i as int));
            }
        }
        Vec { data }
    }

    /// A copy of the elements from `start` on, at most `count` of them; both
    /// bounds are cut back to the end of the vector.
    pub fn sub(&self, start: usize, count: usize) -> (r: Self)
        ensures
            r@ == self@.subrange(
                min(start as int, self@.len() as int),
                min(start as int + count as int, self@.len() as int),
            ),
    {
        let len = self.data.len();
        let i: usize = if start > len { len } else { start };
        let j: usize = if count > len - i { len } else { i + count };
        let mut data: std::vec::Vec<T> = std::vec::Vec::new();
        let mut k: usize = i;
        while k < j
            invariant
                i <= k <= j <= len,
                len == self@.len(),
                data@ == self@.subrange(i as int, k as int),
            decreases j - k,
        {
            data.push(self.data[k]);
            k = k + 1;
            proof {
                assert(data@ =~= self@.subrange(i as int, k as int));
            }
        }
        Vec { data }
    }

    /// The elements as a slice.
    pub fn as_slice(&self) -> (r: &[T])
        ensures
            r@ == self@,
    {
        self.data.as_slice()
    }

    /// Appends a copy of each element of `other`.
    pub fn push_all(&mut self, other: &Self)
        ensures
            final(self)@ == old(self)@ + other@,
    {
        let mut it = other.iter();
        let ghost start = self@;
        loop
            invariant
                it.wf(),
                it.source() == other@,
                start + other@ == self@ + it.remaining(),
            ensures
                self@ == start + other@,
            decreases it.remaining().len(),
        {
            match it.next() {
                Some(x) => {
                    proof {
                        assert(start + other@ =~= self@.push(*x) + it.remaining());
                    }
                    self.push(*x);
                },
                None => {
                    proof {
                        assert(self@ + it.remaining() =~= self@);
                    }
                    break;
                },
            }
        }
    }
}

pub open spec fn min(a: int, b: int) -> int {
    if a < b { a } else { b }
}

} // verus!
