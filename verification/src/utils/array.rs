//! A fixed-capacity array: at most `N` elements, in the order they were pushed.
use vstd::prelude::*;

use core::ops::Range;

verus! {

/// A sequence of at most `N` elements.
pub struct Array<const N: usize, T> {
    data: Vec<T>,
}

impl<const N: usize, T> View for Array<N, T> {
    type V = Seq<T>;

    closed spec fn view(&self) -> Seq<T> {
        self.data@
    }
}

impl<const N: usize, T> Array<N, T> {
    /// The array holds no more than its capacity.
    pub closed spec fn wf(&self) -> bool {
        self.data@.len() <= N
    }

    /// An empty array.
    pub fn new() -> (a: Self)
        ensures
            a.wf(),
            a@ == Seq::<T>::empty(),
    {
        Array { data: Vec::new() }
    }

    /// An array holding the elements of `v`, which must fit.
    pub(crate) fn from_vec(v: Vec<T>) -> (a: Self)
        requires
            v@.len() <= N,
        ensures
            a.wf(),
            a@ == v@,
    {
        Array { data: v }
    }

    /// Appends an element; the array must not be full.
    pub fn push(&mut self, val: T)
        requires
            old(self).wf(),
            old(self)@.len() < N,
        ensures
            final(self).wf(),
            final(self)@ == old(self)@.push(val),
    {
        self.data.push(val);
    }

    /// Appends an element if there is room; otherwise hands it back.
    pub fn push_checked(&mut self, val: T) -> (r: Result<(), T>)
        requires
            old(self).wf(),
        ensures
            final(self).wf(),
            old(self)@.len() < N ==> r is Ok && final(self)@ == old(self)@.push(val),
            old(self)@.len() >= N ==> r == Err::<(), T>(val) && final(self)@ == old(self)@,
    {
        if self.data.len() >= N {
            return Err(val);
        }
        self.push(val);
        Ok(())
    }

    /// Removes and returns the last element, if any.
    pub fn pop(&mut self) -> (r: Option<T>)
        requires
            old(self).wf(),
        ensures
            final(self).wf(),
            old(self)@.len() == 0 ==> r is None && final(self)@ == old(self)@,
            old(self)@.len() > 0 ==> r == Some(old(self)@.last()) && final(self)@
                == old(self)@.drop_last(),
    {
        self.data.pop()
    }

    /// Empties the array and returns its former elements, one slot per
    /// unit of capacity: `Some` for each element in order, then `None`.
    pub fn clear(&mut self) -> (out: Vec<Option<T>>)
        requires
            old(self).wf(),
        ensures
            final(self).wf(),
            final(self)@ == Seq::<T>::empty(),
            out@.len() == N,
            forall|i: int|
                0 <= i < N ==> #[trigger] out@[i] == if i < old(self)@.len() {
                    Some(old(self)@[i])
                } else {
                    None::<T>
                },
    {
        let mut data = Vec::new();
        std::mem::swap(&mut data, &mut self.data);
        let ghost elems = data@;
        let mut rev: Vec<Option<T>> = Vec::new();
        // Move the elements out from the back, then fill the tail with `None`.
        let mut k: usize = N;
        while k > data.len()
            invariant
                data@ == elems,
                elems.len() <= k <= N,
                rev@.len() == N - k,
                forall|j: int| 0 <= j < rev@.len() ==> #[trigger] rev@[j] == None::<T>,
            decreases k,
        {
            rev.push(None);
            k = k - 1;
        }
        while data.len() > 0
            invariant
                data@.len() <= elems.len() <= N,
                data@ == elems.take(data@.len() as int),
                rev@.len() == N - data@.len(),
                forall|j: int|
                    0 <= j < rev@.len() ==> #[trigger] rev@[j] == if N - 1 - j < elems.len() {
                        Some(elems[N - 1 - j])
                    } else {
                        None::<T>
                    },
            decreases data@.len(),
        {
            let ghost before = data@;
            let ghost j = rev@.len() as int;
            let x = data.pop();
            proof {
                assert(before.drop_last() =~= elems.take(before.len() - 1));
                assert(N - 1 - j == before.len() - 1);
            }
            match x {
                Some(v) => {
                    assert(v == elems[before.len() - 1]);
                    rev.push(Some(v));
                },
                None => {},
            }
        }
        let mut out: Vec<Option<T>> = Vec::new();
        while rev.len() > 0
            invariant
                rev@.len() + out@.len() == N,
                elems.len() <= N,
                forall|j: int|
                    0 <= j < rev@.len() ==> #[trigger] rev@[j] == if N - 1 - j < elems.len() {
                        Some(elems[N - 1 - j])
                    } else {
                        None::<T>
                    },
                forall|i: int|
                    0 <= i < out@.len() ==> #[trigger] out@[i] == if i < elems.len() {
                        Some(elems[i])
                    } else {
                        None::<T>
                    },
            decreases rev@.len(),
        {
            let ghost i = out@.len() as int;
            let x = rev.pop();
            match x {
                Some(slot) => {
                    assert(slot == (if i < elems.len() { Some(elems[i]) } else { None::<T> }));
                    out.push(slot);
                },
                None => {},
            }
        }
        out
    }

    /// Consumes the array, dropping every element.
    pub fn drop(self) {
        let Array { data: _ } = self;
    }

    /// The number of elements.
    pub fn len(&self) -> (n: usize)
        ensures
            n == self@.len(),
    {
        self.data.len()
    }

    /// Whether the array holds no element.
    pub fn is_empty(&self) -> (b: bool)
        ensures
            b <==> self@.len() == 0,
    {
        self.data.len() == 0
    }

    /// The elements, in order.
    pub fn as_slice(&self) -> (s: &[T])
        ensures
            s@ == self@,
    {
        self.data.as_slice()
    }

    /// The elements, in order, for changing in place.
    pub fn as_mut_slice(&mut self) -> (s: &mut [T])
        ensures
            s@ == old(self)@,
            final(self)@ == final(s)@,
    {
        self.data.as_mut_slice()
    }

    /// How many elements the array can hold.
    pub fn capacity(&self) -> (n: usize)
        ensures
            n == N,
            self.wf() ==> self@.len() <= n,
    {
        N
    }
}

/// An operation on an array: a push, or a pop that found an element.
pub ghost enum ArrayOp<T> {
    Push(T),
    Pop,
}

/// The elements of an array that started empty, after the operations
/// `ops`, as `push` and `pop` describe them.
pub open spec fn replay<T>(ops: Seq<ArrayOp<T>>) -> Seq<T>
    decreases ops.len(),
{
    if ops.len() == 0 {
        Seq::empty()
    } else {
        match ops.last() {
            ArrayOp::Push(v) => replay(ops.drop_last()).push(v),
            ArrayOp::Pop => replay(ops.drop_last()).drop_last(),
        }
    }
}

/// Each push finds room below `cap`, and each pop finds an element.
pub open spec fn allowed<T>(cap: nat, ops: Seq<ArrayOp<T>>) -> bool
    decreases ops.len(),
{
    if ops.len() == 0 {
        true
    } else {
        allowed(cap, ops.drop_last()) && match ops.last() {
            ArrayOp::Push(_) => replay(ops.drop_last()).len() < cap,
            ArrayOp::Pop => replay(ops.drop_last()).len() > 0,
        }
    }
}

/// The number of pushes among the operations.
pub open spec fn push_count<T>(ops: Seq<ArrayOp<T>>) -> nat
    decreases ops.len(),
{
    if ops.len() == 0 {
        0
    } else {
        push_count(ops.drop_last()) + if ops.last() is Push { 1nat } else { 0nat }
    }
}

/// The number of pops among the operations.
pub open spec fn pop_count<T>(ops: Seq<ArrayOp<T>>) -> nat
    decreases ops.len(),
{
    if ops.len() == 0 {
        0
    } else {
        pop_count(ops.drop_last()) + if ops.last() is Pop { 1nat } else { 0nat }
    }
}

/// After any history of pushes and successful pops on an array that started
/// empty, it holds as many elements as were pushed and not popped, it is
/// empty exactly when every push was popped, and it never holds more than
/// its capacity.
pub proof fn law_push_pop_history<T>(cap: nat, ops: Seq<ArrayOp<T>>)
    requires
        allowed(cap, ops),
    ensures
        replay(ops).len() == push_count(ops) - pop_count(ops),
        pop_count(ops) <= push_count(ops),
        replay(ops).len() == 0 <==> push_count(ops) == pop_count(ops),
        replay(ops).len() <= cap,
    decreases ops.len(),
{
    if ops.len() > 0 {
        law_push_pop_history(cap, ops.drop_last());
    }
}

/// The elements of `s` from `idx.start` up to, not including, `idx.end`.
/// Both bounds lie within `s`, and the start is not after the end.
pub fn slice<T>(s: &[T], idx: Range<usize>) -> (r: &[T])
    requires
        idx.start <= idx.end <= s@.len(),
    ensures
        r@ == s@.subrange(idx.start as int, idx.end as int),
{
    vstd::slice::slice_subrange(s, idx.start, idx.end)
}

/// `zeroize::Zeroize::zeroize` on a byte vector: the crate overwrites every
/// byte and the spare capacity with zeros, then clears the vector. Claimed:
/// the vector is empty afterwards.
#[verifier::external_body]
fn zeroize_vec(v: &mut Vec<u8>)
    ensures
        final(v)@ == Seq::<u8>::empty(),
{
    zeroize::Zeroize::zeroize(v)
}

impl<const N: usize> Array<N, u8> {
    /// Overwrites the bytes held, and the room behind them, with zeros, and
    /// empties the array: a password leaves no trace in memory.
    pub fn wipe(&mut self)
        ensures
            final(self).wf(),
            final(self)@ == Seq::<u8>::empty(),
    {
        zeroize_vec(&mut self.data);
    }
}

} // verus!
