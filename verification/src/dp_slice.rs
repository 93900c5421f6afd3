//! A checked wrapper over a contiguous sequence of elements.
//!
//! [`DPSlice`] offers the read/write/slicing surface of a sequence, with
//! every bounds check stated as a `requires` clause: an access that could go
//! out of bounds is rejected at verification time. The bounds policies are
//! spec functions of their own, with executable counterparts, so the exact
//! boundary of each check can be stated, proved and exercised.

use vstd::prelude::*;

use crate::dp::dp_assert;

verus! {

/// The indexing policy: reading or writing position `i` violates bounds
/// exactly when `i >= len`.
pub open spec fn index_violation(len: int, i: int) -> bool {
    i >= len
}

/// The swap policy: `swap(a, b)` violates bounds exactly when `a > len` or
/// `b > len`. Note the strict `>`: the boundary `a == len` passes this
/// check, unlike the `>=` boundary of [`index_violation`].
pub open spec fn swap_violation(len: int, a: int, b: int) -> bool {
    a > len || b > len
}

/// The partition policy: `split_at(mid)` violates bounds exactly when
/// `mid > len`; the boundary `mid == len` is legal.
pub open spec fn split_at_violation(len: int, mid: int) -> bool {
    mid > len
}

/// The width policy for windowing and chunking: a width of zero violates
/// the policy unconditionally, whatever the length.
pub open spec fn size_violation(size: int) -> bool {
    size == 0
}

/// Evaluates [`index_violation`] at run time.
pub fn index_violates(len: usize, i: usize) -> (r: bool)
    ensures
        r == index_violation(len as int, i as int),
{
    i >= len
}

/// Evaluates [`swap_violation`] at run time.
pub fn swap_violates(len: usize, a: usize, b: usize) -> (r: bool)
    ensures
        r == swap_violation(len as int, a as int, b as int),
{
    a > len || b > len
}

/// Evaluates [`split_at_violation`] at run time.
pub fn split_at_violates(len: usize, mid: usize) -> (r: bool)
    ensures
        r == split_at_violation(len as int, mid as int),
{
    mid > len
}

/// Evaluates [`size_violation`] at run time.
pub fn size_violates(size: usize) -> (r: bool)
    ensures
        r == size_violation(size as int),
{
    size == 0
}

/// The number of windows of width `size` over a sequence of length `len`:
/// zero when the width exceeds the length, never a violation.
pub open spec fn window_count(len: int, size: int) -> int
    recommends
        size > 0,
{
    if size <= len {
        len - size + 1
    } else {
        0
    }
}

/// The number of chunks of width `size` over a sequence of length `len`:
/// the length divided by the width, rounded up.
pub open spec fn chunk_count(len: int, size: int) -> int
    recommends
        size > 0,
{
    (len + size - 1) / size
}

/// The `k`-th chunk of width `size` of `s`: `size` elements from position
/// `k * size` on, or whatever remains for the last chunk.
pub open spec fn chunk_at<T>(s: Seq<T>, size: int, k: int) -> Seq<T>
    recommends
        size > 0,
        0 <= k < chunk_count(s.len() as int, size),
{
    s.subrange(
        k * size,
        if (k + 1) * size <= s.len() {
            (k + 1) * size
        } else {
            s.len() as int
        },
    )
}

/// The swap policy fires exactly when a position passes the length, with
/// a strict `>` boundary: positions within or at the length never fire it.
/// The position `len` itself, though it passes the swap policy, is refused
/// by the indexing policy's `>=` boundary — the two policies disagree at
/// that one point.
pub proof fn lemma_swap_boundary(len: int, a: int, b: int)
    requires
        0 <= len,
        0 <= a,
        0 <= b,
    ensures
        swap_violation(len, a, b) <==> (a > len || b > len),
        a <= len && b <= len ==> !swap_violation(len, a, b),
        a == len ==> index_violation(len, a),
{
}

/// Splitting at `mid` partitions the sequence: the two parts have sizes
/// `mid` and `len - mid`, and their concatenation reconstructs the
/// sequence in order.
pub proof fn lemma_split_at_partition<T>(s: Seq<T>, mid: int)
    requires
        0 <= mid <= s.len(),
    ensures
        s.subrange(0, mid).len() == mid,
        s.subrange(mid, s.len() as int).len() == s.len() - mid,
        s.subrange(0, mid) + s.subrange(mid, s.len() as int) == s,
{
    assert(s.subrange(0, mid) + s.subrange(mid, s.len() as int) =~= s);
}

/// A width of zero violates the width policy whatever the length; any
/// other width is no violation, and one beyond the length merely yields
/// zero windows.
pub proof fn lemma_window_policy(len: int, size: int)
    requires
        0 <= len,
    ensures
        size_violation(0),
        size > 0 ==> !size_violation(size),
        size > len ==> window_count(len, size) == 0,
{
}

/// A checked view over a contiguous sequence of elements. It has the same
/// contents as the sequence it was converted from; every operation that
/// could go out of bounds carries its bounds condition as a `requires`
/// clause and so provably never aborts.
pub struct DPSlice<T> {
    elems: Vec<T>,
}

impl<T> View for DPSlice<T> {
    type V = Seq<T>;

    closed spec fn view(&self) -> Seq<T> {
        self.elems@
    }
}

impl<T> DPSlice<T> {
    /// Wraps a sequence; the wrapper holds exactly the elements given.
    pub fn from_vec(elems: Vec<T>) -> (r: DPSlice<T>)
        ensures
            r@ == elems@,
    {
        DPSlice { elems }
    }

    /// Releases the underlying sequence unchanged.
    pub fn into_vec(self) -> (r: Vec<T>)
        ensures
            r@ == self@,
    {
        self.elems
    }

    /// Borrows the underlying sequence unchanged.
    pub fn as_rust_slice(this: &Self) -> (r: &[T])
        ensures
            r@ == this@,
    {
        this.elems.as_slice()
    }

    /// Borrows the underlying sequence mutably; the wrapper afterwards
    /// holds whatever the caller left through the borrow.
    pub fn as_rust_slice_mut(this: &mut Self) -> (r: &mut [T])
        ensures
            r@ == old(this)@,
            final(r)@ == final(this)@,
    {
        this.elems.as_mut_slice()
    }

    /// The number of elements.
    pub fn len(&self) -> (r: usize)
        ensures
            r == self@.len(),
    {
        self.elems.len()
    }

    /// Whether there are no elements.
    pub fn is_empty(&self) -> (r: bool)
        ensures
            r == (self@.len() == 0),
    {
        self.elems.is_empty()
    }

    /// Reads the element at position `i`. The bounds condition is the
    /// negation of [`index_violation`] and is discharged by the verifier.
    pub fn index(&self, i: usize) -> (r: &T)
        requires
            !index_violation(self@.len() as int, i as int),
        ensures
            *r == self@[i as int],
    {
        dp_assert(!index_violates(self.elems.len(), i));
        &self.elems[i]
    }

    /// Writes the element at position `i` through a mutable borrow. The
    /// bounds condition is the negation of [`index_violation`]; mutating
    /// through the borrow mutates exactly position `i` of the wrapper.
    pub fn index_mut(&mut self, i: usize) -> (r: &mut T)
        requires
            !index_violation(old(self)@.len() as int, i as int),
        ensures
            *r == old(self)@[i as int],
            final(self)@ == old(self)@.update(i as int, *final(r)),
    {
        dp_assert(!index_violates(self.elems.len(), i));
        &mut self.elems[i]
    }

    /// The first element, or nothing when there is none; no bounds check
    /// is needed.
    pub fn first(&self) -> (r: Option<&T>)
        ensures
            self@.len() == 0 ==> r is None,
            self@.len() != 0 ==> r is Some && *r.unwrap() == self@[0],
    {
        self.elems.as_slice().first()
    }

    /// A mutable borrow of the first element, or nothing when there is
    /// none; mutating through the borrow mutates exactly position `0`.
    pub fn first_mut(&mut self) -> (r: Option<&mut T>)
        ensures
            old(self)@.len() == 0 ==> r is None && final(self)@ == old(self)@,
            old(self)@.len() != 0 ==> r is Some && *r.unwrap() == old(self)@[0] && final(self)@
                == old(self)@.update(0, *final(r.unwrap())),
    {
        let s = self.elems.as_mut_slice();
        s.first_mut()
    }

    /// The first element and the rest, or nothing when there is none.
    pub fn split_first(&self) -> (r: Option<(&T, &[T])>)
        ensures
            self@.len() == 0 ==> r is None,
            self@.len() != 0 ==> r is Some && *r.unwrap().0 == self@[0] && r.unwrap().1@
                == self@.subrange(1, self@.len() as int),
    {
        let s = self.elems.as_slice();
        if s.len() == 0 {
            None
        } else {
            Some((vstd::slice::slice_index_get(s, 0), vstd::slice::slice_subrange(s, 1, s.len())))
        }
    }

    /// Equivalent to [`Self::split_first`]: the borrows handed out are
    /// shared, and nothing is mutated.
    pub fn split_first_mut(&self) -> (r: Option<(&T, &[T])>)
        ensures
            self@.len() == 0 ==> r is None,
            self@.len() != 0 ==> r is Some && *r.unwrap().0 == self@[0] && r.unwrap().1@
                == self@.subrange(1, self@.len() as int),
    {
        self.split_first()
    }

    /// The last element and the rest, or nothing when there is none.
    pub fn split_last(&self) -> (r: Option<(&T, &[T])>)
        ensures
            self@.len() == 0 ==> r is None,
            self@.len() != 0 ==> r is Some && *r.unwrap().0 == self@.last() && r.unwrap().1@
                == self@.subrange(0, self@.len() - 1),
    {
        let s = self.elems.as_slice();
        if s.len() == 0 {
            None
        } else {
            Some(
                (
                    vstd::slice::slice_index_get(s, s.len() - 1),
                    vstd::slice::slice_subrange(s, 0, s.len() - 1),
                ),
            )
        }
    }

    /// Equivalent to [`Self::split_last`]: the borrows handed out are
    /// shared, and the wrapper is left unchanged.
    pub fn split_last_mut(&mut self) -> (r: Option<(&T, &[T])>)
        ensures
            final(self)@ == old(self)@,
            old(self)@.len() == 0 ==> r is None,
            old(self)@.len() != 0 ==> r is Some && *r.unwrap().0 == old(self)@.last()
                && r.unwrap().1@ == old(self)@.subrange(0, old(self)@.len() - 1),
    {
        self.split_last()
    }

    /// Exchanges the elements at positions `a` and `b` in place. The bounds
    /// policy is [`swap_violation`] with its strict `>` boundary; on top of
    /// it, both positions must exist for the exchange to be performed.
    pub fn swap(&mut self, a: usize, b: usize)
        requires
            a < old(self)@.len(),
            b < old(self)@.len(),
        ensures
            final(self)@ == old(self)@.update(a as int, old(self)@[b as int]).update(
                b as int,
                old(self)@[a as int],
            ),
    {
        dp_assert(!swap_violates(self.elems.len(), a, b));
        if a != b {
            let lo: usize = if a < b { a } else { b };
            let hi: usize = if a < b { b } else { a };
            let x = self.elems.remove(hi);
            let y = self.elems.remove(lo);
            self.elems.insert(lo, x);
            self.elems.insert(hi, y);
        }
        proof {
            assert(self@ =~= old(self)@.update(a as int, old(self)@[b as int]).update(
                b as int,
                old(self)@[a as int],
            ));
        }
    }

    /// Returns the two partitions `[0, mid)` and `[mid, len)`. The bounds
    /// policy is [`split_at_violation`]: the boundary `mid == len` is legal
    /// and yields an empty right partition.
    pub fn split_at(&self, mid: usize) -> (r: (&[T], &[T]))
        requires
            !split_at_violation(self@.len() as int, mid as int),
        ensures
            r.0@ == self@.subrange(0, mid as int),
            r.1@ == self@.subrange(mid as int, self@.len() as int),
            r.0@.len() == mid,
            r.1@.len() == self@.len() - mid,
            r.0@ + r.1@ == self@,
    {
        dp_assert(!split_at_violates(self.elems.len(), mid));
        let s = self.elems.as_slice();
        let left = vstd::slice::slice_subrange(s, 0, mid);
        let right = vstd::slice::slice_subrange(s, mid, s.len());
        proof {
            assert(left@ + right@ =~= self@);
        }
        (left, right)
    }

    /// Returns the two partitions `[0, mid)` and `[mid, len)` as mutable
    /// borrows; the wrapper afterwards holds whatever the caller left in
    /// the two halves. The bounds policy is [`split_at_violation`].
    pub fn split_at_mut(&mut self, mid: usize) -> (r: (&mut [T], &mut [T]))
        requires
            !split_at_violation(old(self)@.len() as int, mid as int),
        ensures
            r.0@ == old(self)@.subrange(0, mid as int),
            r.1@ == old(self)@.subrange(mid as int, old(self)@.len() as int),
            r.0@.len() == mid,
            r.1@.len() == old(self)@.len() - mid,
            r.0@ + r.1@ == old(self)@,
            final(self)@ == final(r.0)@ + final(r.1)@,
    {
        dp_assert(!split_at_violates(self.elems.len(), mid));
        let s = self.elems.as_mut_slice();
        let r = s.split_at_mut(mid);
        proof {
            assert(r.0@ + r.1@ =~= old(self)@);
        }
        r
    }

    /// All overlapping windows of width `size`, in order. The width policy
    /// is [`size_violation`]: a width of zero is refused unconditionally,
    /// while a width beyond the length yields no windows at all.
    pub fn windows(&self, size: usize) -> (r: Vec<&[T]>)
        requires
            !size_violation(size as int),
        ensures
            r@.len() == window_count(self@.len() as int, size as int),
            forall|k: int|
                0 <= k < r@.len() ==> #[trigger] r@[k]@ == self@.subrange(k, k + size),
    {
        dp_assert(!size_violates(size));
        let s = self.elems.as_slice();
        let len = s.len();
        let mut r: Vec<&[T]> = Vec::new();
        let mut i: usize = 0;
        while i < len && size <= len - i
            invariant
                size >= 1,
                i <= len,
                s@ == self@,
                len == s@.len(),
                r@.len() == i,
                i <= window_count(len as int, size as int),
                forall|k: int|
                    0 <= k < r@.len() ==> #[trigger] r@[k]@ == self@.subrange(k, k + size),
            decreases len - i,
        {
            r.push(vstd::slice::slice_subrange(s, i, i + size));
            i = i + 1;
        }
        r
    }

    /// All disjoint chunks of width `size`, in order; the last chunk holds
    /// whatever remains and may be shorter. The width policy is
    /// [`size_violation`].
    pub fn chunks(&self, size: usize) -> (r: Vec<&[T]>)
        requires
            !size_violation(size as int),
        ensures
            r@.len() == chunk_count(self@.len() as int, size as int),
            forall|k: int|
                0 <= k < r@.len() ==> #[trigger] r@[k]@ == chunk_at(self@, size as int, k),
    {
        dp_assert(!size_violates(size));
        let s = self.elems.as_slice();
        let len = s.len();
        let mut r: Vec<&[T]> = Vec::new();
        let mut i: usize = 0;
        proof {
            vstd::arithmetic::div_mod::lemma_basic_div(size as int - 1, size as int);
            assert(chunk_count(0, size as int) == 0);
            assert(r@.len() * (size as int) == 0) by (nonlinear_arith)
                requires
                    r@.len() == 0,
            ;
        }
        while i < len
            invariant
                size >= 1,
                i <= len,
                s@ == self@,
                len == s@.len(),
                i < len ==> i == r@.len() * size,
                i == len ==> r@.len() == chunk_count(len as int, size as int),
                forall|k: int|
                    0 <= k < r@.len() ==> #[trigger] r@[k]@ == chunk_at(self@, size as int, k),
            decreases len - i,
        {
            let ghost n = r@.len() as int;
            let upper: usize = if size <= len - i {
                i + size
            } else {
                len
            };
            r.push(vstd::slice::slice_subrange(s, i, upper));
            proof {
                assert(upper == if (n + 1) * size <= len {
                    (n + 1) * size
                } else {
                    len as int
                }) by (nonlinear_arith)
                    requires
                        size >= 1,
                        i == n * size,
                        i < len,
                        upper == if i + size <= len {
                            i + size
                        } else {
                            len as int
                        },
                ;
                assert(r@[n]@ == chunk_at(self@, size as int, n));
                if upper == len {
                    assert((n + 1) * size == n * size + size) by (nonlinear_arith);
                    vstd::arithmetic::div_mod::lemma_fundamental_div_mod_converse_div(
                        len as int + size as int - 1,
                        size as int,
                        n + 1,
                        len as int - 1 - n * size,
                    );
                    assert(chunk_count(len as int, size as int) == n + 1);
                }
            }
            i = upper;
        }
        r
    }

    /// Splits the wrapper into its chunks of width `size`, consuming it:
    /// each chunk is handed out as an independent wrapper that may be
    /// mutated on its own. The width policy is [`size_violation`].
    pub fn chunks_mut(self, size: usize) -> (r: Vec<DPSlice<T>>)
        requires
            !size_violation(size as int),
        ensures
            r@.len() == chunk_count(self@.len() as int, size as int),
            forall|k: int|
                0 <= k < r@.len() ==> #[trigger] r@[k]@ == chunk_at(self@, size as int, k),
    {
        dp_assert(!size_violates(size));
        let ghost orig = self@;
        let len = self.elems.len();
        let mut rest = self.elems;
        let mut r: Vec<DPSlice<T>> = Vec::new();
        proof {
            assert(orig.subrange(0, len as int) =~= orig);
            assert(r@.len() * (size as int) == 0) by (nonlinear_arith)
                requires
                    r@.len() == 0,
            ;
        }
        while rest.len() > size
            invariant
                size >= 1,
                orig.len() == len,
                r@.len() * size + rest@.len() == len,
                rest@ == orig.subrange(r@.len() * size, len as int),
                forall|k: int|
                    0 <= k < r@.len() ==> #[trigger] r@[k]@ == chunk_at(orig, size as int, k),
            decreases rest@.len(),
        {
            let ghost n = r@.len() as int;
            let tail = rest.split_off(size);
            r.push(DPSlice { elems: rest });
            rest = tail;
            proof {
                assert((n + 1) * size == n * size + size) by (nonlinear_arith);
                assert((n + 1) * size <= len);
                assert(r@[n]@ =~= chunk_at(orig, size as int, n));
                assert(rest@ =~= orig.subrange((n + 1) * size, len as int));
            }
        }
        let ghost n = r@.len() as int;
        if rest.len() > 0 {
            r.push(DPSlice { elems: rest });
            proof {
                assert((n + 1) * size == n * size + size) by (nonlinear_arith);
                assert(r@[n]@ =~= chunk_at(orig, size as int, n));
                vstd::arithmetic::div_mod::lemma_fundamental_div_mod_converse_div(
                    len as int + size as int - 1,
                    size as int,
                    n + 1,
                    len as int - 1 - n * size,
                );
                assert(chunk_count(len as int, size as int) == n + 1);
            }
        } else {
            proof {
                assert(len == n * size);
                vstd::arithmetic::div_mod::lemma_fundamental_div_mod_converse_div(
                    len as int + size as int - 1,
                    size as int,
                    n,
                    size as int - 1,
                );
                assert(chunk_count(len as int, size as int) == n);
            }
        }
        r
    }
}

} // verus!
