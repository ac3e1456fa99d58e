use vstd::arithmetic::div_mod::{lemma_add_mod_noop, lemma_mod_bound, lemma_mod_twice, lemma_small_mod};
use vstd::prelude::*;

verus! {

/// Position that the (possibly negative) logical index `i` takes in a ring of
/// `n` slots: the non-negative remainder of `i` by `n`.
pub open spec fn wrap(i: int, n: int) -> int {
    i % n
}

/// `s` read from logical origin `k`: element `i` of the result is element
/// `i + k` of `s`, wrapping around its end.
pub open spec fn rotated<T>(s: Seq<T>, k: int) -> Seq<T> {
    Seq::new(s.len(), |i: int| s[wrap(i + k, s.len() as int)])
}

/// Taking the remainder of the left summand first does not change the remainder of a sum.
pub proof fn lemma_wrap_add(x: int, y: int, m: int)
    requires
        m > 0,
    ensures
        wrap(wrap(x, m) + y, m) == wrap(x + y, m),
{
    lemma_add_mod_noop(x, y, m);
    lemma_add_mod_noop(x % m, y, m);
    lemma_mod_twice(x, m);
}

/// Rotating by `a` and then by `b` is rotating by `a + b`.
pub proof fn lemma_rotated_twice<T>(s: Seq<T>, a: int, b: int)
    requires
        s.len() > 0,
    ensures
        rotated(rotated(s, a), b) == rotated(s, a + b),
{
    let n = s.len() as int;
    assert forall|i: int| 0 <= i < n implies #[trigger] rotated(rotated(s, a), b)[i] == rotated(
        s,
        a + b,
    )[i] by {
        lemma_mod_bound(i + b, n);
        lemma_wrap_add(i + b, a, n);
        assert(i + b + a == i + (a + b));
    }
    assert(rotated(rotated(s, a), b) =~= rotated(s, a + b));
}

/// Rotating by zero leaves a sequence as it is.
pub proof fn lemma_rotated_zero<T>(s: Seq<T>)
    requires
        s.len() > 0,
    ensures
        rotated(s, 0) == s,
{
    assert forall|i: int| 0 <= i < s.len() implies #[trigger] rotated(s, 0)[i] == s[i] by {
        lemma_small_mod(i as nat, s.len());
    }
    assert(rotated(s, 0) =~= s);
}

/// A circular buffer over a fixed backing vector. Rotation moves the logical
/// origin and never touches the stored elements; any `i32` is a valid logical
/// index, `-1` being the last element.
///
/// The view is the logical order of the elements: `self@[0]` is the element at
/// the current origin.
pub struct RingBuffer<T> {
    buffer: Vec<T>,
    ring_start: usize,
}

impl<T> View for RingBuffer<T> {
    type V = Seq<T>;

    closed spec fn view(&self) -> Seq<T> {
        rotated(self.buffer@, self.ring_start as int)
    }
}

impl<T> RingBuffer<T> {
    /// The buffer is non-empty and its origin lies inside it.
    pub closed spec fn wf(&self) -> bool {
        &&& self.buffer@.len() > 0
        &&& self.ring_start < self.buffer@.len()
    }

    /// Slot of the backing storage that holds logical position 0.
    pub closed spec fn origin(&self) -> int {
        self.ring_start as int
    }

    /// Slot of the backing storage that holds logical position `i`.
    pub open spec fn slot(&self, i: int) -> int {
        wrap(i + self.origin(), self@.len() as int)
    }

    /// Length of what `index_range` returns for a range from `a` to `b`: the
    /// slots from that of `a` to that of `b` inclusive, or every element when
    /// the slot of `a` lies past the slot of `b`.
    pub open spec fn range_len(&self, a: int, b: int) -> int {
        if self.slot(a) > self.slot(b) {
            self@.len() as int
        } else {
            self.slot(b) - self.slot(a) + 1
        }
    }

    proof fn lemma_view_len(&self)
        ensures
            self@.len() == self.buffer@.len(),
    {
    }

    /// A well-formed buffer holds at least one element, and its origin is a
    /// slot of its storage.
    pub proof fn lemma_wf(&self)
        requires
            self.wf(),
        ensures
            self@.len() > 0,
            0 <= self.origin() < self@.len(),
    {
    }

    proof fn lemma_slot(&self, i: int)
        requires
            self.wf(),
        ensures
            0 <= self.slot(i) < self@.len(),
            self@[wrap(i, self@.len() as int)] == self.buffer@[self.slot(i)],
    {
        let n = self.buffer@.len() as int;
        lemma_mod_bound(i, n);
        lemma_mod_bound(i + self.ring_start, n);
        lemma_wrap_add(i, self.ring_start as int, n);
    }

    /// Wraps `data` with its first element at logical position 0.
    pub fn new(data: Vec<T>) -> (r: Self)
        requires
            data@.len() > 0,
        ensures
            r.wf(),
            r@ == data@,
            r.origin() == 0,
    {
        let r = RingBuffer { buffer: data, ring_start: 0 };
        proof {
            lemma_rotated_zero(r.buffer@);
        }
        r
    }

    /// Moves the origin `amount` places forward: what was at logical position
    /// `amount` is now at position 0.
    pub fn rotate_left(&mut self, amount: u32)
        requires
            old(self).wf(),
        ensures
            final(self).wf(),
            final(self)@ == rotated(old(self)@, amount as int),
            final(self).origin() == wrap(old(self).origin() + amount, old(self)@.len() as int),
    {
        let n = self.buffer.len();
        let a = (amount as usize) % n;
        if self.ring_start < n - a {
            self.ring_start = self.ring_start + a;
        } else {
            self.ring_start = self.ring_start - (n - a);
        }
        proof {
            let k = old(self).ring_start as int;
            lemma_advance_origin(k, a as int, amount as int, n as int, self.ring_start as int);
            lemma_rotated_wrap(self.buffer@, k + amount);
            lemma_rotated_twice(self.buffer@, k, amount as int);
        }
    }

    /// Moves the origin `amount` places back: what was at logical position
    /// `-amount` is now at position 0.
    pub fn rotate_right(&mut self, amount: u32)
        requires
            old(self).wf(),
        ensures
            final(self).wf(),
            final(self)@ == rotated(old(self)@, -(amount as int)),
            final(self).origin() == wrap(old(self).origin() - amount, old(self)@.len() as int),
    {
        let n = self.buffer.len();
        let a = (amount as usize) % n;
        if self.ring_start >= a {
            self.ring_start = self.ring_start - a;
        } else {
            self.ring_start = self.ring_start + (n - a);
        }
        proof {
            let k = old(self).ring_start as int;
            lemma_retreat_origin(k, a as int, amount as int, n as int, self.ring_start as int);
            lemma_rotated_wrap(self.buffer@, k - amount);
            lemma_rotated_twice(self.buffer@, k, -(amount as int));
        }
    }

    /// Overwrites the element at logical position 0.
    pub fn replace_first(&mut self, element: T)
        requires
            old(self).wf(),
        ensures
            final(self).wf(),
            final(self)@ == old(self)@.update(0, element),
            final(self).origin() == old(self).origin(),
    {
        self.set(0, element);
    }

    /// Overwrites the element at logical position -1, the last one.
    pub fn replace_last(&mut self, element: T)
        requires
            old(self).wf(),
        ensures
            final(self).wf(),
            final(self)@ == old(self)@.update(old(self)@.len() - 1, element),
            final(self).origin() == old(self).origin(),
    {
        proof {
            let n = self@.len() as int;
            vstd::arithmetic::div_mod::lemma_mod_add_multiples_vanish(-1, n);
            lemma_small_mod((n - 1) as nat, n as nat);
        }
        self.set(-1, element);
    }

    /// Slot of the backing storage that holds logical position `index`.
    fn recalculate_index(&self, index: i32) -> (r: usize)
        requires
            self.wf(),
        ensures
            r as int == self.slot(index as int),
            r < self@.len(),
    {
        wrap_from(index, self.ring_start, self.buffer.len())
    }

    /// The number of elements, fixed at construction.
    pub fn len(&self) -> (r: usize)
        requires
            self.wf(),
        ensures
            r == self@.len(),
    {
        self.buffer.len()
    }

    /// References to the elements from logical position `range.start` on, as
    /// many as `range_len` gives.
    pub fn index_range(&self, range: std::ops::Range<i32>) -> (r: Vec<&T>)
        requires
            self.wf(),
        ensures
            r@.len() == self.range_len(range.start as int, range.end as int),
            forall|m: int|
                0 <= m < r@.len() ==> *#[trigger] r@[m] == self@[wrap(
                    range.start + m,
                    self@.len() as int,
                )],
    {
        let n = self.buffer.len();
        let start = self.recalculate_index(range.start);
        let end = self.recalculate_index(range.end);
        let mut returned_data: Vec<&T> = Vec::new();
        let last = if start > end { start + (n - 1 - start) } else { end };
        let mut k: usize = start;
        while k <= last
            invariant
                self.wf(),
                n == self.buffer@.len(),
                start <= k <= last + 1,
                last < n,
                returned_data@.len() == k - start,
                forall|m: int|
                    0 <= m < returned_data@.len() ==> *#[trigger] returned_data@[m]
                        == self.buffer@[start + m],
            decreases last + 1 - k,
        {
            returned_data.push(&self.buffer[k]);
            k = k + 1;
        }
        if start > end {
            assert forall|m: int| 0 <= m < returned_data@.len() implies *#[trigger] returned_data@[m]
                == self.buffer@[wrap(start + m, n as int)] by {
                lemma_small_mod((start + m) as nat, n as nat);
            }
            let mut k: usize = 0;
            while k < start
                invariant
                    self.wf(),
                    n == self.buffer@.len(),
                    0 <= k <= start < n,
                    returned_data@.len() == n - start + k,
                    forall|m: int|
                        0 <= m < returned_data@.len() ==> *#[trigger] returned_data@[m]
                            == self.buffer@[wrap(start + m, n as int)],
                decreases start - k,
            {
                proof {
                    lemma_small_mod(k as nat, n as nat);
                    vstd::arithmetic::div_mod::lemma_mod_sub_multiples_vanish(start + (n - start + k), n as int);
                }
                returned_data.push(&self.buffer[k]);
                k = k + 1;
            }
        }
        proof {
            assert forall|m: int| 0 <= m < returned_data@.len() implies *#[trigger] returned_data@[m]
                == self@[wrap(range.start + m, n as int)] by {
                self.lemma_slot(range.start + m);
                lemma_wrap_add(range.start + self.ring_start, m, n as int);
                assert(range.start + self.ring_start + m == range.start + m + self.ring_start);
                if start <= end {
                    lemma_small_mod((start + m) as nat, n as nat);
                }
            }
        }
        returned_data
    }

    /// Consumes the buffer and returns its elements in logical order.
    pub fn into_vec(self) -> (r: Vec<T>)
        requires
            self.wf(),
        ensures
            r@ == self@,
    {
        let RingBuffer { buffer, ring_start } = self;
        let mut head = buffer;
        let mut tail = head.split_off(ring_start);
        tail.append(&mut head);
        proof {
            let s = self.buffer@;
            let n = s.len() as int;
            assert forall|i: int| 0 <= i < n implies #[trigger] tail@[i] == self@[i] by {
                if i < n - ring_start {
                    lemma_small_mod((i + ring_start) as nat, n as nat);
                } else {
                    vstd::arithmetic::div_mod::lemma_mod_sub_multiples_vanish(i + ring_start, n);
                    lemma_small_mod((i + ring_start - n) as nat, n as nat);
                }
            }
            assert(tail@ =~= self@);
        }
        tail
    }

    /// The element at logical position `index`, taken modulo the length.
    pub fn index(&self, index: i32) -> (r: &T)
        requires
            self.wf(),
        ensures
            *r == self@[wrap(index as int, self@.len() as int)],
    {
        let i = self.recalculate_index(index);
        proof {
            self.lemma_slot(index as int);
        }
        &self.buffer[i]
    }

    /// Overwrites the element at logical position `index`, taken modulo the length.
    pub fn set(&mut self, index: i32, element: T)
        requires
            old(self).wf(),
        ensures
            final(self).wf(),
            final(self)@ == old(self)@.update(wrap(index as int, old(self)@.len() as int), element),
            final(self).origin() == old(self).origin(),
    {
        let i = self.recalculate_index(index);
        self.buffer.set(i, element);
        proof {
            let n = self@.len() as int;
            let j = wrap(index as int, n);
            old(self).lemma_slot(index as int);
            lemma_wrap_add(index as int, self.ring_start as int, n);
            assert forall|l: int| 0 <= l < n implies #[trigger] self@[l] == old(self)@.update(
                j,
                element,
            )[l] by {
                lemma_mod_bound(l + self.ring_start, n);
                if l != j {
                    old(self).lemma_slot(l);
                    lemma_small_mod(l as nat, n as nat);
                    if old(self).slot(l) == i {
                        lemma_slot_injective(l, j, self.ring_start as int, n);
                    }
                }
            }
            assert(self@ =~= old(self)@.update(j, element));
        }
    }
}

/// Each column of `g` read from row origin `k`.
pub open spec fn rotated_columns<T>(g: Seq<Seq<T>>, k: int) -> Seq<Seq<T>> {
    Seq::new(g.len(), |x: int| rotated(g[x], k))
}

/// A grid of `cols` columns of `rows` elements with two independent origins,
/// one along the columns (horizontal) and one along the rows (vertical); both
/// rotate in O(1) without moving any element.
///
/// The view is the logical grid: `self@[x][y]` is the element in logical column
/// `x`, logical row `y`.
pub struct RingBuffer2D<T> {
    buffer: Vec<Vec<T>>,
    horizontal_start: usize,
    vertical_start: usize,
    rows: usize,
    cols: usize,
}

impl<T> View for RingBuffer2D<T> {
    type V = Seq<Seq<T>>;

    closed spec fn view(&self) -> Seq<Seq<T>> {
        Seq::new(
            self.cols as nat,
            |x: int|
                Seq::new(
                    self.rows as nat,
                    |y: int|
                        self.buffer@[wrap(x + self.horizontal_start, self.cols as int)]@[wrap(
                            y + self.vertical_start,
                            self.rows as int,
                        )],
                ),
        )
    }
}

impl<T> RingBuffer2D<T> {
    /// Number of elements in each column.
    pub closed spec fn rows(&self) -> int {
        self.rows as int
    }

    /// Number of columns.
    pub closed spec fn cols(&self) -> int {
        self.cols as int
    }

    /// Storage column that holds logical column 0.
    pub closed spec fn column_origin(&self) -> int {
        self.horizontal_start as int
    }

    /// Storage row that holds logical row 0.
    pub closed spec fn row_origin(&self) -> int {
        self.vertical_start as int
    }

    /// Position in a flat column-major copy of the storage of the element at
    /// logical `(x, y)`.
    pub open spec fn cell(&self, x: int, y: int) -> int {
        self.rows() * wrap(x + self.column_origin(), self.cols()) + wrap(
            y + self.row_origin(),
            self.rows(),
        )
    }

    /// The grid is a non-empty rectangle, its origins lie inside it, and the
    /// number of its cells fits in `usize`.
    pub closed spec fn wf(&self) -> bool {
        &&& self.rows > 0
        &&& self.cols > 0
        &&& self.rows * self.cols <= usize::MAX
        &&& self.buffer@.len() == self.cols
        &&& forall|c: int| 0 <= c < self.cols ==> (#[trigger] self.buffer@[c])@.len() == self.rows
        &&& self.horizontal_start < self.cols
        &&& self.vertical_start < self.rows
    }

    /// The shape that the view has.
    pub proof fn lemma_shape(&self)
        requires
            self.wf(),
        ensures
            self.rows() > 0,
            self.cols() > 0,
            self.rows() * self.cols() <= usize::MAX,
            0 <= self.column_origin() < self.cols(),
            0 <= self.row_origin() < self.rows(),
            self@.len() == self.cols(),
            forall|x: int| 0 <= x < self.cols() ==> (#[trigger] self@[x]).len() == self.rows(),
    {
    }

    /// Storage of logical `(x, y)`, for `x` and `y` already wrapped.
    proof fn lemma_at(&self, x: int, y: int)
        requires
            self.wf(),
            0 <= x < self.cols,
            0 <= y < self.rows,
        ensures
            0 <= wrap(x + self.horizontal_start, self.cols as int) < self.cols,
            0 <= wrap(y + self.vertical_start, self.rows as int) < self.rows,
            self@[x][y] == self.buffer@[wrap(x + self.horizontal_start, self.cols as int)]@[wrap(
                y + self.vertical_start,
                self.rows as int,
            )],
    {
        lemma_mod_bound(x + self.horizontal_start, self.cols as int);
        lemma_mod_bound(y + self.vertical_start, self.rows as int);
    }

    /// Wraps columns of equal, non-zero length; `data[x][y]` lands at logical
    /// `(x, y)`.
    pub fn new(data: Vec<Vec<T>>) -> (r: Self)
        requires
            data@.len() > 0,
            data@[0]@.len() > 0,
            forall|c: int| 0 <= c < data@.len() ==> (#[trigger] data@[c])@.len() == data@[0]@.len(),
            data@[0]@.len() * data@.len() <= usize::MAX,
        ensures
            r.wf(),
            r.rows() == data@[0]@.len(),
            r.cols() == data@.len(),
            r.column_origin() == 0,
            r.row_origin() == 0,
            forall|x: int, y: int|
                0 <= x < r.cols() && 0 <= y < r.rows() ==> #[trigger] r@[x][y] == data@[x]@[y],
    {
        let rows = data[0].len();
        let cols = data.len();
        let r = RingBuffer2D { buffer: data, horizontal_start: 0, vertical_start: 0, rows, cols };
        proof {
            assert forall|x: int, y: int| 0 <= x < r.cols() && 0 <= y < r.rows() implies #[trigger] r@[x][y]
                == data@[x]@[y] by {
                lemma_small_mod(x as nat, cols as nat);
                lemma_small_mod(y as nat, rows as nat);
            }
        }
        r
    }

    /// Moves the horizontal origin `amount` columns forward.
    pub fn rotate_left(&mut self, amount: u32)
        requires
            old(self).wf(),
        ensures
            final(self).wf(),
            final(self).rows() == old(self).rows(),
            final(self).cols() == old(self).cols(),
            final(self).column_origin() == wrap(old(self).column_origin() + amount, old(self).cols()),
            final(self).row_origin() == old(self).row_origin(),
            final(self)@ == rotated(old(self)@, amount as int),
    {
        let n = self.cols;
        let a = (amount as usize) % n;
        if self.horizontal_start < n - a {
            self.horizontal_start = self.horizontal_start + a;
        } else {
            self.horizontal_start = self.horizontal_start - (n - a);
        }
        proof {
            let k = old(self).horizontal_start as int;
            lemma_advance_origin(k, a as int, amount as int, n as int, self.horizontal_start as int);
            self.lemma_columns_moved(*old(self), amount as int);
        }
    }

    /// Moves the horizontal origin `amount` columns back.
    pub fn rotate_right(&mut self, amount: u32)
        requires
            old(self).wf(),
        ensures
            final(self).wf(),
            final(self).rows() == old(self).rows(),
            final(self).cols() == old(self).cols(),
            final(self).column_origin() == wrap(old(self).column_origin() - amount, old(self).cols()),
            final(self).row_origin() == old(self).row_origin(),
            final(self)@ == rotated(old(self)@, -(amount as int)),
    {
        let n = self.cols;
        let a = (amount as usize) % n;
        if self.horizontal_start >= a {
            self.horizontal_start = self.horizontal_start - a;
        } else {
            self.horizontal_start = self.horizontal_start + (n - a);
        }
        proof {
            let k = old(self).horizontal_start as int;
            lemma_retreat_origin(k, a as int, amount as int, n as int, self.horizontal_start as int);
            self.lemma_columns_moved(*old(self), -(amount as int));
        }
    }

    /// Moves the vertical origin `amount` rows back: every column rotates right.
    pub fn rotate_up(&mut self, amount: u32)
        requires
            old(self).wf(),
        ensures
            final(self).wf(),
            final(self).rows() == old(self).rows(),
            final(self).cols() == old(self).cols(),
            final(self).column_origin() == old(self).column_origin(),
            final(self).row_origin() == wrap(old(self).row_origin() - amount, old(self).rows()),
            final(self)@ == rotated_columns(old(self)@, -(amount as int)),
    {
        let n = self.rows;
        let a = (amount as usize) % n;
        if self.vertical_start >= a {
            self.vertical_start = self.vertical_start - a;
        } else {
            self.vertical_start = self.vertical_start + (n - a);
        }
        proof {
            let k = old(self).vertical_start as int;
            lemma_retreat_origin(k, a as int, amount as int, n as int, self.vertical_start as int);
            self.lemma_rows_moved(*old(self), -(amount as int));
        }
    }

    /// Moves the vertical origin `amount` rows forward: every column rotates left.
    pub fn rotate_down(&mut self, amount: u32)
        requires
            old(self).wf(),
        ensures
            final(self).wf(),
            final(self).rows() == old(self).rows(),
            final(self).cols() == old(self).cols(),
            final(self).column_origin() == old(self).column_origin(),
            final(self).row_origin() == wrap(old(self).row_origin() + amount, old(self).rows()),
            final(self)@ == rotated_columns(old(self)@, amount as int),
    {
        let n = self.rows;
        let a = (amount as usize) % n;
        if self.vertical_start < n - a {
            self.vertical_start = self.vertical_start + a;
        } else {
            self.vertical_start = self.vertical_start - (n - a);
        }
        proof {
            let k = old(self).vertical_start as int;
            lemma_advance_origin(k, a as int, amount as int, n as int, self.vertical_start as int);
            self.lemma_rows_moved(*old(self), amount as int);
        }
    }

    /// The view after the horizontal origin moved by `d`.
    proof fn lemma_columns_moved(&self, before: Self, d: int)
        requires
            before.wf(),
            self.buffer == before.buffer,
            self.rows == before.rows,
            self.cols == before.cols,
            self.vertical_start == before.vertical_start,
            self.horizontal_start == wrap(before.horizontal_start + d, before.cols as int),
        ensures
            self.wf(),
            self@ == rotated(before@, d),
    {
        let n = self.cols as int;
        lemma_mod_bound(before.horizontal_start + d, n);
        assert forall|x: int| 0 <= x < n implies #[trigger] self@[x] == rotated(before@, d)[x] by {
            lemma_mod_bound(x + d, n);
            lemma_wrap_add(before.horizontal_start + d, x, n);
            lemma_wrap_add(x + d, before.horizontal_start as int, n);
            assert(x + (before.horizontal_start + d) == x + d + before.horizontal_start);
            assert(self@[x] =~= before@[wrap(x + d, n)]);
        }
        assert(self@ =~= rotated(before@, d));
    }

    /// The view after the vertical origin moved by `d`.
    proof fn lemma_rows_moved(&self, before: Self, d: int)
        requires
            before.wf(),
            self.buffer == before.buffer,
            self.rows == before.rows,
            self.cols == before.cols,
            self.horizontal_start == before.horizontal_start,
            self.vertical_start == wrap(before.vertical_start + d, before.rows as int),
        ensures
            self.wf(),
            self@ == rotated_columns(before@, d),
    {
        let n = self.rows as int;
        lemma_mod_bound(before.vertical_start + d, n);
        assert forall|x: int| 0 <= x < self.cols implies #[trigger] self@[x] == rotated_columns(
            before@,
            d,
        )[x] by {
            assert forall|y: int| 0 <= y < n implies #[trigger] self@[x][y] == rotated(
                before@[x],
                d,
            )[y] by {
                lemma_mod_bound(y + d, n);
                lemma_wrap_add(before.vertical_start + d, y, n);
                lemma_wrap_add(y + d, before.vertical_start as int, n);
                assert(y + (before.vertical_start + d) == y + d + before.vertical_start);
            }
            assert(self@[x] =~= rotated(before@[x], d));
        }
        assert(self@ =~= rotated_columns(before@, d));
    }

    /// Storage column of logical column `index`.
    pub fn recalculate_index_horizontal(&self, index: i32) -> (r: usize)
        requires
            self.wf(),
        ensures
            r as int == wrap(index + self.column_origin(), self.cols()),
            r < self.cols(),
    {
        wrap_from(index, self.horizontal_start, self.cols)
    }

    /// Storage row of logical row `index`.
    pub fn recalculate_index_vertical(&self, index: i32) -> (r: usize)
        requires
            self.wf(),
        ensures
            r as int == wrap(index + self.row_origin(), self.rows()),
            r < self.rows(),
    {
        wrap_from(index, self.vertical_start, self.rows)
    }

    /// Position in a flat column-major copy of the storage of logical
    /// `(x, y)`: stable for an element while the origins move.
    pub fn linearize_index(&self, index_2d: (i32, i32)) -> (r: usize)
        requires
            self.wf(),
        ensures
            r as int == self.cell(index_2d.0 as int, index_2d.1 as int),
            r < self.rows() * self.cols(),
    {
        let x = self.recalculate_index_horizontal(index_2d.0);
        let y = self.recalculate_index_vertical(index_2d.1);
        proof {
            assert(self.rows * x + y < self.rows * self.cols) by (nonlinear_arith)
                requires
                    x < self.cols,
                    y < self.rows,
            ;
        }
        self.rows * x + y
    }

    /// The number of columns.
    pub fn len(&self) -> (r: usize)
        requires
            self.wf(),
        ensures
            r == self.cols(),
    {
        self.cols
    }

    /// The element at logical `(x, y)`, each taken modulo its extent.
    pub fn index(&self, index: (i32, i32)) -> (r: &T)
        requires
            self.wf(),
        ensures
            *r == self@[wrap(index.0 as int, self.cols())][wrap(index.1 as int, self.rows())],
    {
        let x = self.recalculate_index_horizontal(index.0);
        let y = self.recalculate_index_vertical(index.1);
        proof {
            self.lemma_wrapped(index.0 as int, index.1 as int);
        }
        &self.buffer[x][y]
    }

    /// Logical `(x, y)` wrapped, and the storage that holds it.
    proof fn lemma_wrapped(&self, x: int, y: int)
        requires
            self.wf(),
        ensures
            0 <= wrap(x, self.cols as int) < self.cols,
            0 <= wrap(y, self.rows as int) < self.rows,
            self@[wrap(x, self.cols as int)][wrap(y, self.rows as int)] == self.buffer@[wrap(
                x + self.horizontal_start,
                self.cols as int,
            )]@[wrap(y + self.vertical_start, self.rows as int)],
            wrap(wrap(x, self.cols as int) + self.horizontal_start, self.cols as int) == wrap(
                x + self.horizontal_start,
                self.cols as int,
            ),
            wrap(wrap(y, self.rows as int) + self.vertical_start, self.rows as int) == wrap(
                y + self.vertical_start,
                self.rows as int,
            ),
    {
        lemma_mod_bound(x, self.cols as int);
        lemma_mod_bound(y, self.rows as int);
        self.lemma_at(wrap(x, self.cols as int), wrap(y, self.rows as int));
        lemma_wrap_add(x, self.horizontal_start as int, self.cols as int);
        lemma_wrap_add(y, self.vertical_start as int, self.rows as int);
    }

    /// Storage column of logical column `x`, for `0 <= x < cols`.
    fn column_slot(&self, x: usize) -> (r: usize)
        requires
            self.wf(),
            x < self.cols,
        ensures
            r as int == wrap(x + self.horizontal_start, self.cols as int),
            r < self.cols,
    {
        let hs = self.horizontal_start;
        let n = self.cols;
        proof {
            if x < n - hs {
                lemma_small_mod((x + hs) as nat, n as nat);
            } else {
                vstd::arithmetic::div_mod::lemma_mod_sub_multiples_vanish(x + hs, n as int);
                lemma_small_mod((x + hs - n) as nat, n as nat);
            }
        }
        if x < n - hs {
            hs + x
        } else {
            x - (n - hs)
        }
    }

    /// Storage row of logical row `y`, for `0 <= y < rows`.
    fn row_slot(&self, y: usize) -> (r: usize)
        requires
            self.wf(),
            y < self.rows,
        ensures
            r as int == wrap(y + self.vertical_start, self.rows as int),
            r < self.rows,
    {
        let vs = self.vertical_start;
        let n = self.rows;
        proof {
            if y < n - vs {
                lemma_small_mod((y + vs) as nat, n as nat);
            } else {
                vstd::arithmetic::div_mod::lemma_mod_sub_multiples_vanish(y + vs, n as int);
                lemma_small_mod((y + vs - n) as nat, n as nat);
            }
        }
        if y < n - vs {
            vs + y
        } else {
            y - (n - vs)
        }
    }

    /// Replaces logical column `index`, taken modulo the number of columns,
    /// with the logical order of `element`.
    pub fn set_column(&mut self, index: i32, element: RingBuffer<T>)
        requires
            old(self).wf(),
            element.wf(),
            element@.len() == old(self).rows(),
        ensures
            final(self).wf(),
            final(self).rows() == old(self).rows(),
            final(self).cols() == old(self).cols(),
            final(self).column_origin() == old(self).column_origin(),
            final(self).row_origin() == old(self).row_origin(),
            final(self)@ == old(self)@.update(wrap(index as int, old(self).cols()), element@),
    {
        proof {
            element.lemma_view_len();
        }
        let mut head = element.into_vec();
        let cut = self.rows - self.vertical_start;
        let mut tail = head.split_off(cut);
        tail.append(&mut head);
        let x = self.recalculate_index_horizontal(index);
        proof {
            let v = element@;
            let n = self.rows as int;
            let vs = self.vertical_start as int;
            assert forall|y: int| 0 <= y < n implies #[trigger] tail@[wrap(y + vs, n)] == v[y] by {
                if y + vs < n {
                    lemma_small_mod((y + vs) as nat, n as nat);
                } else {
                    vstd::arithmetic::div_mod::lemma_mod_sub_multiples_vanish(y + vs, n);
                    lemma_small_mod((y + vs - n) as nat, n as nat);
                }
            }
        }
        self.buffer.set(x, tail);
        proof {
            let wx = wrap(index as int, self.cols as int);
            let expected = old(self)@.update(wx, element@);
            old(self).lemma_wrapped(index as int, 0);
            assert forall|c: int| 0 <= c < self.cols implies (#[trigger] self.buffer@[c])@.len()
                == self.rows by {
                if c != x {
                    assert(self.buffer@[c] == old(self).buffer@[c]);
                }
            }
            assert forall|i: int| 0 <= i < self.cols implies #[trigger] self@[i] == expected[i] by {
                assert forall|j: int| 0 <= j < self.rows implies #[trigger] self@[i][j]
                    == expected[i][j] by {
                    self.lemma_at(i, j);
                    old(self).lemma_at(i, j);
                    if i != wx {
                        lemma_small_mod(i as nat, self.cols as nat);
                        if wrap(i + self.horizontal_start, self.cols as int) == x {
                            lemma_slot_injective(i, wx, self.horizontal_start as int, self.cols as int);
                        }
                    }
                }
                assert(self@[i] =~= expected[i]);
            }
            assert(self@ =~= expected);
        }
    }

    /// Replaces the first logical column.
    pub fn replace_first(&mut self, element: RingBuffer<T>)
        requires
            old(self).wf(),
            element.wf(),
            element@.len() == old(self).rows(),
        ensures
            final(self).wf(),
            final(self).rows() == old(self).rows(),
            final(self).cols() == old(self).cols(),
            final(self).column_origin() == old(self).column_origin(),
            final(self).row_origin() == old(self).row_origin(),
            final(self)@ == old(self)@.update(0, element@),
    {
        proof {
            lemma_small_mod(0, self.cols as nat);
        }
        self.set_column(0, element);
    }

    /// Replaces the last logical column.
    pub fn replace_last(&mut self, element: RingBuffer<T>)
        requires
            old(self).wf(),
            element.wf(),
            element@.len() == old(self).rows(),
        ensures
            final(self).wf(),
            final(self).rows() == old(self).rows(),
            final(self).cols() == old(self).cols(),
            final(self).column_origin() == old(self).column_origin(),
            final(self).row_origin() == old(self).row_origin(),
            final(self)@ == old(self)@.update(old(self).cols() - 1, element@),
    {
        proof {
            let n = self.cols as int;
            vstd::arithmetic::div_mod::lemma_mod_add_multiples_vanish(-1, n);
            lemma_small_mod((n - 1) as nat, n as nat);
        }
        self.set_column(-1, element);
    }

    /// Overwrites the element at logical `(x, y)`, each taken modulo its extent.
    pub fn set(&mut self, index: (i32, i32), element: T)
        requires
            old(self).wf(),
        ensures
            final(self).wf(),
            final(self).rows() == old(self).rows(),
            final(self).cols() == old(self).cols(),
            final(self).column_origin() == old(self).column_origin(),
            final(self).row_origin() == old(self).row_origin(),
            final(self)@ == old(self)@.update(
                wrap(index.0 as int, old(self).cols()),
                old(self)@[wrap(index.0 as int, old(self).cols())].update(
                    wrap(index.1 as int, old(self).rows()),
                    element,
                ),
            ),
    {
        let x = self.recalculate_index_horizontal(index.0);
        let y = self.recalculate_index_vertical(index.1);
        let mut column: Vec<T> = Vec::new();
        self.buffer.set_and_swap(x, &mut column);
        column.set(y, element);
        self.buffer.set_and_swap(x, &mut column);
        proof {
            let wx = wrap(index.0 as int, self.cols as int);
            let wy = wrap(index.1 as int, self.rows as int);
            old(self).lemma_wrapped(index.0 as int, index.1 as int);
            let expected = old(self)@.update(wx, old(self)@[wx].update(wy, element));
            assert forall|c: int| 0 <= c < self.cols implies (#[trigger] self.buffer@[c])@.len()
                == self.rows by {
                if c != x {
                    assert(self.buffer@[c] == old(self).buffer@[c]);
                }
            }
            assert forall|i: int| 0 <= i < self.cols implies #[trigger] self@[i] == expected[i] by {
                assert forall|j: int| 0 <= j < self.rows implies #[trigger] self@[i][j]
                    == expected[i][j] by {
                    self.lemma_at(i, j);
                    old(self).lemma_at(i, j);
                    if i == wx && j != wy {
                        lemma_mod_bound(j + self.vertical_start, self.rows as int);
                        lemma_small_mod(j as nat, self.rows as nat);
                        if wrap(j + self.vertical_start, self.rows as int) == y {
                            lemma_slot_injective(j, wy, self.vertical_start as int, self.rows as int);
                        }
                    } else if i != wx {
                        lemma_small_mod(i as nat, self.cols as nat);
                        if wrap(i + self.horizontal_start, self.cols as int) == x {
                            lemma_slot_injective(i, wx, self.horizontal_start as int, self.cols as int);
                        }
                    }
                }
                assert(self@[i] =~= expected[i]);
            }
            assert(self@ =~= expected);
        }
    }
}

impl<T: Clone> RingBuffer2D<T> {
    /// Copies of logical row `index`, taken modulo the number of rows, one
    /// element per logical column.
    pub fn index_horizontal(&self, index: i32) -> (r: Vec<T>)
        requires
            self.wf(),
        ensures
            r@.len() == self.cols(),
            forall|x: int|
                0 <= x < self.cols() ==> cloned(
                    #[trigger] self@[x][wrap(index as int, self.rows())],
                    r@[x],
                ),
    {
        let y = self.recalculate_index_vertical(index);
        let mut slice: Vec<T> = Vec::with_capacity(self.cols);
        let mut x: usize = 0;
        while x < self.cols
            invariant
                self.wf(),
                x <= self.cols,
                y as int == wrap(index + self.vertical_start, self.rows as int),
                slice@.len() == x,
                forall|i: int|
                    0 <= i < x ==> cloned(
                        #[trigger] self@[i][wrap(index as int, self.rows as int)],
                        slice@[i],
                    ),
            decreases self.cols - x,
        {
            let px = self.column_slot(x);
            proof {
                self.lemma_wrapped(x as int, index as int);
                lemma_small_mod(x as nat, self.cols as nat);
            }
            slice.push(self.buffer[px][y].clone());
            x = x + 1;
        }
        slice
    }

    /// Overwrites logical row `index`, taken modulo the number of rows, with
    /// copies of `data`, one element per logical column.
    pub fn mut_index_horizontal(&mut self, index: i32, data: &[T])
        requires
            old(self).wf(),
            data@.len() >= old(self).cols(),
        ensures
            final(self).wf(),
            final(self).rows() == old(self).rows(),
            final(self).cols() == old(self).cols(),
            final(self).column_origin() == old(self).column_origin(),
            final(self).row_origin() == old(self).row_origin(),
            forall|x: int, y: int|
                0 <= x < old(self).cols() && 0 <= y < old(self).rows() && y != wrap(
                    index as int,
                    old(self).rows(),
                ) ==> #[trigger] final(self)@[x][y] == old(self)@[x][y],
            forall|x: int|
                0 <= x < old(self).cols() ==> cloned(
                    data@[x],
                    #[trigger] final(self)@[x][wrap(index as int, old(self).rows())],
                ),
    {
        let y = self.recalculate_index_vertical(index);
        let mut x: usize = 0;
        while x < self.cols
            invariant
                self.wf(),
                x <= self.cols,
                self.rows == old(self).rows,
                self.cols == old(self).cols,
                self.horizontal_start == old(self).horizontal_start,
                self.vertical_start == old(self).vertical_start,
                data@.len() >= self.cols,
                y as int == wrap(index + self.vertical_start, self.rows as int),
                forall|i: int, j: int|
                    0 <= i < self.cols && 0 <= j < self.rows && (x <= i || j != wrap(
                        index as int,
                        self.rows as int,
                    )) ==> #[trigger] self@[i][j] == old(self)@[i][j],
                forall|i: int|
                    0 <= i < x ==> cloned(
                        data@[i],
                        #[trigger] self@[i][wrap(index as int, self.rows as int)],
                    ),
            decreases self.cols - x,
        {
            let px = self.column_slot(x);
            let value = data[x].clone();
            let ghost before = *self;
            let mut column: Vec<T> = Vec::new();
            self.buffer.set_and_swap(px, &mut column);
            column.set(y, value);
            self.buffer.set_and_swap(px, &mut column);
            proof {
                let wy = wrap(index as int, self.rows as int);
                before.lemma_wrapped(x as int, index as int);
                lemma_small_mod(x as nat, self.cols as nat);
                assert forall|c: int| 0 <= c < self.cols implies (#[trigger] self.buffer@[c])@.len()
                    == self.rows by {
                    if c != px {
                        assert(self.buffer@[c] == before.buffer@[c]);
                    }
                }
                assert forall|i: int, j: int| 0 <= i < self.cols && 0 <= j < self.rows implies
                    #[trigger] self@[i][j] == (if i == x && j == wy { value } else { before@[i][j] }) by {
                    self.lemma_at(i, j);
                    before.lemma_at(i, j);
                    lemma_small_mod(i as nat, self.cols as nat);
                    lemma_small_mod(j as nat, self.rows as nat);
                    if i != x && wrap(i + self.horizontal_start, self.cols as int) == px {
                        lemma_slot_injective(i, x as int, self.horizontal_start as int, self.cols as int);
                    }
                    if i == x && j != wy && wrap(j + self.vertical_start, self.rows as int) == y {
                        lemma_slot_injective(j, wy, self.vertical_start as int, self.rows as int);
                    }
                }
            }
            x = x + 1;
        }
    }

    /// Copies of all elements in logical order, column by column.
    pub fn flatten(&self) -> (r: Vec<T>)
        requires
            self.wf(),
        ensures
            r@.len() == self.rows() * self.cols(),
            forall|x: int, y: int|
                0 <= x < self.cols() && 0 <= y < self.rows() ==> cloned(
                    #[trigger] self@[x][y],
                    r@[x * self.rows() + y],
                ),
    {
        let rows = self.rows;
        let cols = self.cols;
        let mut flattened: Vec<T> = Vec::with_capacity(rows * cols);
        let mut x: usize = 0;
        while x < cols
            invariant
                self.wf(),
                rows == self.rows,
                cols == self.cols,
                x <= cols,
                flattened@.len() == x * rows,
                forall|i: int, j: int|
                    0 <= i < x && 0 <= j < rows ==> cloned(
                        #[trigger] self@[i][j],
                        flattened@[i * rows + j],
                    ),
            decreases cols - x,
        {
            let px = self.column_slot(x);
            let mut y: usize = 0;
            while y < rows
                invariant
                    self.wf(),
                    rows == self.rows,
                    cols == self.cols,
                    x < cols,
                    y <= rows,
                    px as int == wrap(x + self.horizontal_start, cols as int),
                    px < cols,
                    flattened@.len() == x * rows + y,
                    forall|i: int, j: int|
                        0 <= i < x && 0 <= j < rows ==> cloned(
                            #[trigger] self@[i][j],
                            flattened@[i * rows + j],
                        ),
                    forall|j: int| 0 <= j < y ==> cloned(
                            #[trigger] self@[x as int][j],
                            flattened@[x * rows + j],
                        ),
                decreases rows - y,
            {
                let py = self.row_slot(y);
                proof {
                    self.lemma_at(x as int, y as int);
                }
                let ghost prev = flattened@;
                flattened.push(self.buffer[px][py].clone());
                proof {
                    assert forall|i: int, j: int| 0 <= i < x && 0 <= j < rows implies cloned(
                        #[trigger] self@[i][j],
                        flattened@[i * rows + j],
                    ) by {
                        lemma_flat_bound(i, j, x as int, rows as int);
                        assert(flattened@[i * rows + j] == prev[i * rows + j]);
                    }
                }
                y = y + 1;
            }
            proof {
                assert((x + 1) * rows == x * rows + rows) by (nonlinear_arith);
                assert forall|i: int, j: int| 0 <= i < x + 1 && 0 <= j < rows implies cloned(
                    #[trigger] self@[i][j],
                    flattened@[i * rows + j],
                ) by {
                }
            }
            x = x + 1;
        }
        proof {
            assert(cols * rows == rows * cols) by (nonlinear_arith);
        }
        flattened
    }
}

impl<T: Copy> RingBuffer2D<T> {
    /// A grid of `cols` columns of `rows` copies of `item`.
    pub fn create_full(item: T, rows: usize, cols: usize) -> (r: Self)
        requires
            rows > 0,
            cols > 0,
            rows * cols <= usize::MAX,
        ensures
            r.wf(),
            r.rows() == rows,
            r.cols() == cols,
            r.column_origin() == 0,
            r.row_origin() == 0,
            forall|x: int, y: int| 0 <= x < cols && 0 <= y < rows ==> #[trigger] r@[x][y] == item,
    {
        let mut data: Vec<Vec<T>> = Vec::with_capacity(cols);
        let mut x: usize = 0;
        while x < cols
            invariant
                x <= cols,
                data@.len() == x,
                forall|c: int| 0 <= c < x ==> (#[trigger] data@[c])@.len() == rows,
                forall|c: int, j: int| 0 <= c < x && 0 <= j < rows ==> #[trigger] data@[c]@[j] == item,
            decreases cols - x,
        {
            let mut column: Vec<T> = Vec::with_capacity(rows);
            let mut y: usize = 0;
            while y < rows
                invariant
                    y <= rows,
                    column@.len() == y,
                    forall|j: int| 0 <= j < y ==> #[trigger] column@[j] == item,
                decreases rows - y,
            {
                column.push(item);
                y = y + 1;
            }
            data.push(column);
            x = x + 1;
        }
        proof {
            assert(rows * cols == cols * rows) by (nonlinear_arith);
        }
        RingBuffer2D::new(data)
    }
}

/// A position inside the first `x` columns of a column-major layout lies
/// before column `x`.
proof fn lemma_flat_bound(i: int, j: int, x: int, rows: int)
    requires
        0 <= i < x,
        0 <= j < rows,
    ensures
        0 <= i * rows + j < x * rows,
{
    assert(0 <= i * rows + j < x * rows) by (nonlinear_arith)
        requires
            0 <= i < x,
            0 <= j < rows,
    ;
}

/// `wrap(index + start, n)`, computed without overflow.
fn wrap_from(index: i32, start: usize, n: usize) -> (r: usize)
    requires
        start < n,
    ensures
        r as int == wrap(index + start, n as int),
        r < n,
{
    proof {
        lemma_mod_bound(index + start, n as int);
    }
    if index >= 0 {
        let a = (index as usize) % n;
        let r = if start < n - a { start + a } else { start - (n - a) };
        proof {
            lemma_advance_origin(start as int, a as int, index as int, n as int, r as int);
            assert(start + index == index + start);
        }
        r
    } else {
        let m: i64 = -(index as i64);
        let a = (m as usize) % n;
        let r = if start >= a { start - a } else { start + (n - a) };
        proof {
            lemma_retreat_origin(start as int, a as int, m as int, n as int, r as int);
            assert(start - m == index + start);
        }
        r
    }
}

/// Logical indices that differ by the capacity name the same element.
pub proof fn lemma_index_periodic<T>(rb: RingBuffer<T>, i: int)
    requires
        rb.wf(),
    ensures
        rb@[wrap(i, rb@.len() as int)] == rb@[wrap(i + rb@.len(), rb@.len() as int)],
{
    let n = rb@.len() as int;
    vstd::arithmetic::div_mod::lemma_mod_add_multiples_vanish(i, n);
    assert(i + n == n + i);
}

/// Rotating left by `k` and then right by `k` restores the logical order.
pub proof fn lemma_rotate_left_right<T>(rb: RingBuffer<T>, k: u32)
    requires
        rb.wf(),
    ensures
        rotated(rotated(rb@, k as int), -(k as int)) == rb@,
{
    rb.lemma_view_len();
    lemma_rotated_twice(rb@, k as int, -(k as int));
    lemma_rotated_zero(rb@);
}

/// After `replace_last(e)`, the element at logical position -1 is `e`.
pub proof fn lemma_replace_last_index<T>(rb: RingBuffer<T>, e: T)
    requires
        rb.wf(),
    ensures
        rb@.update(rb@.len() - 1, e)[wrap(-1, rb@.len() as int)] == e,
{
    let n = rb@.len() as int;
    rb.lemma_view_len();
    vstd::arithmetic::div_mod::lemma_mod_add_multiples_vanish(-1, n);
    lemma_small_mod((n - 1) as nat, n as nat);
}

/// Moving an origin `k` forward by `amount`, whose remainder is `a`, without overflow.
proof fn lemma_advance_origin(k: int, a: int, amount: int, n: int, r: int)
    requires
        0 <= k < n,
        amount >= 0,
        a == amount % n,
        r == (if k < n - a { k + a } else { k - (n - a) }),
    ensures
        r == wrap(k + amount, n),
        0 <= r < n,
{
    lemma_mod_bound(amount, n);
    lemma_add_mod_noop(k, amount, n);
    lemma_small_mod(k as nat, n as nat);
    if k < n - a {
        lemma_small_mod((k + a) as nat, n as nat);
    } else {
        vstd::arithmetic::div_mod::lemma_mod_sub_multiples_vanish(k + a, n);
        lemma_small_mod((k + a - n) as nat, n as nat);
    }
}

/// Moving an origin `k` back by `amount`, whose remainder is `a`, without overflow.
proof fn lemma_retreat_origin(k: int, a: int, amount: int, n: int, r: int)
    requires
        0 <= k < n,
        amount >= 0,
        a == amount % n,
        r == (if k >= a { k - a } else { k + (n - a) }),
    ensures
        r == wrap(k - amount, n),
        0 <= r < n,
{
    lemma_mod_bound(amount, n);
    vstd::arithmetic::div_mod::lemma_sub_mod_noop(k, amount, n);
    lemma_small_mod(k as nat, n as nat);
    if k >= a {
        lemma_small_mod((k - a) as nat, n as nat);
    } else {
        vstd::arithmetic::div_mod::lemma_mod_add_multiples_vanish(k - a, n);
        lemma_small_mod((k - a + n) as nat, n as nat);
    }
}

/// Two positions in `[0, n)` that land in one slot are the same position.
proof fn lemma_slot_injective(l: int, j: int, k: int, n: int)
    requires
        0 <= l < n,
        0 <= j < n,
        n > 0,
        wrap(l + k, n) == wrap(j + k, n),
    ensures
        l == j,
{
    vstd::arithmetic::div_mod::lemma_sub_mod_noop(l + k, j + k, n);
    lemma_mod_bound(l + k, n);
    assert((l + k) - (j + k) == l - j);
    assert((l + k) % n - (j + k) % n == 0);
    lemma_small_mod(0, n as nat);
    assert(((l + k) - (j + k)) % n == 0);
    assert((l - j) % n == 0);
    if l > j {
        lemma_small_mod((l - j) as nat, n as nat);
    } else if l < j {
        vstd::arithmetic::div_mod::lemma_mod_add_multiples_vanish(l - j, n);
        lemma_small_mod((l - j + n) as nat, n as nat);
    }
}

/// Reading from an origin depends only on the origin's remainder.
pub proof fn lemma_rotated_wrap<T>(s: Seq<T>, k: int)
    requires
        s.len() > 0,
    ensures
        rotated(s, wrap(k, s.len() as int)) == rotated(s, k),
{
    let n = s.len() as int;
    assert forall|i: int| 0 <= i < n implies #[trigger] rotated(s, wrap(k, n))[i] == rotated(s, k)[i] by {
        lemma_wrap_add(k, i, n);
        assert(i + wrap(k, n) == wrap(k, n) + i);
        assert(i + k == k + i);
    }
    assert(rotated(s, wrap(k, n)) =~= rotated(s, k));
}

} // verus!
