//! CPU reference kernels for dense square matrix multiplication.
//!
//! The element type and its arithmetic are supplied by the caller as a
//! multiply-accumulate step `step(acc, x, y)` (for `f32`: `acc + x * y`).
//! Every formulation here accumulates the inner product of row `i` and
//! column `j` from `zero`, left to right over `k`, so all of them evaluate
//! exactly the same sequence of steps and agree element for element.
use vstd::arithmetic::div_mod::lemma_fundamental_div_mod_converse;
use vstd::prelude::*;

verus! {

/// The value that `step` returns on `(acc, x, y)`.
pub open spec fn step_value<T, F: Fn(T, T, T) -> T>(step: F, acc: T, x: T, y: T) -> T {
    choose|r: T| call_ensures(step, (acc, x, y), r)
}

/// `step` accepts every argument and always returns the same value on the same arguments.
pub open spec fn is_step<T, F: Fn(T, T, T) -> T>(step: F) -> bool {
    &&& forall|acc: T, x: T, y: T| #[trigger] call_requires(step, (acc, x, y))
    &&& forall|acc: T, x: T, y: T, r: T|
        #[trigger] call_ensures(step, (acc, x, y), r) ==> r == step_value(step, acc, x, y)
}

/// `zero`, then `step` applied for `k = 0, 1, .., count - 1` to `a[i][k]` and `b[k][j]`,
/// where both matrices are row-major with `n` columns.
pub open spec fn dot_prefix<T, F: Fn(T, T, T) -> T>(
    step: F,
    zero: T,
    a: Seq<T>,
    b: Seq<T>,
    n: int,
    i: int,
    j: int,
    count: nat,
) -> T
    decreases count,
{
    if count == 0 {
        zero
    } else {
        let k = count - 1;
        step_value(step, dot_prefix(step, zero, a, b, n, i, j, k as nat), a[i * n + k], b[k * n + j])
    }
}

/// Entry `(i, j)` of the product of the `n x n` matrices `a` and `b`.
pub open spec fn entry<T, F: Fn(T, T, T) -> T>(
    step: F,
    zero: T,
    a: Seq<T>,
    b: Seq<T>,
    n: nat,
    i: int,
    j: int,
) -> T {
    dot_prefix(step, zero, a, b, n as int, i, j, n)
}

/// The row-major product of the `n x n` matrices `a` and `b`.
pub open spec fn product<T, F: Fn(T, T, T) -> T>(
    step: F,
    zero: T,
    a: Seq<T>,
    b: Seq<T>,
    n: nat,
) -> Seq<T> {
    Seq::new(n * n, |p: int| entry(step, zero, a, b, n, p / n as int, p % n as int))
}

/// Position `(i, j)` of an `n x n` row-major matrix.
pub proof fn lemma_index(n: int, i: int, j: int)
    requires
        0 <= i < n,
        0 <= j < n,
    ensures
        0 <= i * n + j < n * n,
        (i * n + j) / n == i,
        (i * n + j) % n == j,
{
    assert(0 <= i * n + j < n * n) by (nonlinear_arith)
        requires
            0 <= i < n,
            0 <= j < n,
    ;
    lemma_fundamental_div_mod_converse(i * n + j, n, i, j);
}

/// Inner product of row `i` of `a` and column `j` of `b`.
fn dot_row_col<T: Copy, F: Fn(T, T, T) -> T>(
    a: &[T],
    b: &[T],
    size: usize,
    i: usize,
    j: usize,
    zero: T,
    step: &F,
) -> (r: T)
    requires
        a@.len() == size * size,
        b@.len() == size * size,
        i < size,
        j < size,
        is_step(*step),
    ensures
        r == entry(*step, zero, a@, b@, size as nat, i as int, j as int),
{
    let mut acc = zero;
    let mut k: usize = 0;
    while k < size
        invariant
            a@.len() == size * size,
            b@.len() == size * size,
            i < size,
            j < size,
            k <= size,
            is_step(*step),
            acc == dot_prefix(*step, zero, a@, b@, size as int, i as int, j as int, k as nat),
        decreases size - k,
    {
        proof {
            lemma_index(size as int, i as int, k as int);
            lemma_index(size as int, k as int, j as int);
        }
        acc = step(acc, a[i * size + k], b[k * size + j]);
        k += 1;
    }
    acc
}

/// Product of `a` and `b`, computed by an index-computed triple loop.
pub fn cpu_matmul_v1<T: Copy, F: Fn(T, T, T) -> T>(
    a: &[T],
    b: &[T],
    size: usize,
    zero: T,
    step: &F,
) -> (r: Vec<T>)
    requires
        a@.len() == size * size,
        b@.len() == size * size,
        is_step(*step),
    ensures
        r@ == product(*step, zero, a@, b@, size as nat),
{
    let mut out: Vec<T> = Vec::new();
    let mut i: usize = 0;
    while i < size
        invariant
            a@.len() == size * size,
            b@.len() == size * size,
            is_step(*step),
            i <= size,
            out@.len() == i * size,
            forall|p: int|
                0 <= p < out@.len() ==> #[trigger] out@[p] == product(
                    *step,
                    zero,
                    a@,
                    b@,
                    size as nat,
                )[p],
        decreases size - i,
    {
        let mut j: usize = 0;
        while j < size
            invariant
                a@.len() == size * size,
                b@.len() == size * size,
                is_step(*step),
                i < size,
                j <= size,
                out@.len() == i * size + j,
                forall|p: int|
                    0 <= p < out@.len() ==> #[trigger] out@[p] == product(
                        *step,
                        zero,
                        a@,
                        b@,
                        size as nat,
                    )[p],
            decreases size - j,
        {
            let v = dot_row_col(a, b, size, i, j, zero, step);
            proof {
                lemma_index(size as int, i as int, j as int);
            }
            out.push(v);
            j += 1;
        }
        assert(i * size + size == (i + 1) * size) by (nonlinear_arith);
        i += 1;
    }
    assert(out@ =~= product(*step, zero, a@, b@, size as nat));
    out
}

/// A cursor over the product of two matrices that yields one entry per call,
/// in row-major order.
pub struct MatmulIterator<'a, T, F> {
    a: &'a [T],
    b: &'a [T],
    zero: T,
    step: &'a F,
    size: usize,
    x: usize,
    y: usize,
}

impl<'a, T: Copy, F: Fn(T, T, T) -> T> MatmulIterator<'a, T, F> {
    /// The cursor stands on an entry of the product, or just past the last one.
    pub closed spec fn well_formed(&self) -> bool {
        &&& self.a@.len() == self.size * self.size
        &&& self.b@.len() == self.size * self.size
        &&& is_step(*self.step)
        &&& ((self.y < self.size && self.x < self.size) || (self.y == self.size && self.x == 0))
    }

    /// The entries of the product that are still to come, in order.
    pub closed spec fn remaining(&self) -> Seq<T> {
        product(*self.step, self.zero, self.a@, self.b@, self.size as nat).subrange(
            self.y * self.size + self.x,
            self.size * self.size,
        )
    }

    proof fn lemma_position(&self)
        requires
            self.well_formed(),
        ensures
            0 <= self.y * self.size + self.x <= self.size * self.size,
            self.y < self.size ==> self.y * self.size + self.x < self.size * self.size,
            self.y >= self.size ==> self.y * self.size + self.x == self.size * self.size,
    {
        if self.y < self.size {
            lemma_index(self.size as int, self.y as int, self.x as int);
        } else {
            assert(self.y == self.size && self.x == 0);
            assert(self.y * self.size + self.x == self.size * self.size);
        }
    }

    /// Returns the next entry of the product, or `None` once all were returned.
    pub fn next(&mut self) -> (r: Option<T>)
        requires
            old(self).well_formed(),
        ensures
            final(self).well_formed(),
            old(self).remaining().len() == 0 ==> r.is_none() && final(self).remaining()
                == old(self).remaining(),
            old(self).remaining().len() > 0 ==> r == Some(old(self).remaining()[0])
                && final(self).remaining() == old(self).remaining().drop_first(),
    {
        proof {
            self.lemma_position();
        }
        if self.y >= self.size {
            return None;
        }
        proof {
            lemma_index(self.size as int, self.y as int, self.x as int);
        }
        let ghost before = self.remaining();
        let v = dot_row_col(self.a, self.b, self.size, self.y, self.x, self.zero, self.step);
        self.x += 1;
        if self.x == self.size {
            self.x = 0;
            self.y += 1;
            assert(self.y * self.size == (self.y - 1) * self.size + self.size) by (nonlinear_arith);
        }
        proof {
            self.lemma_position();
        }
        assert(self.remaining() =~= before.drop_first());
        Some(v)
    }

    /// Returns all the entries that are still to come, in order.
    pub fn collect_remaining(&mut self) -> (r: Vec<T>)
        requires
            old(self).well_formed(),
        ensures
            final(self).well_formed(),
            r@ == old(self).remaining(),
            final(self).remaining().len() == 0,
    {
        let ghost total = self.remaining();
        let mut out: Vec<T> = Vec::new();
        loop
            invariant
                self.well_formed(),
                out@ + self.remaining() == total,
            ensures
                self.well_formed(),
                out@ == total,
                self.remaining().len() == 0,
            decreases self.remaining().len(),
        {
            match self.next() {
                Some(v) => {
                    out.push(v);
                    assert(out@ + self.remaining() =~= total);
                },
                None => {
                    assert(out@ =~= total);
                    break ;
                },
            }
        }
        out
    }
}

/// The product of `a` and `b` as a cursor that computes one entry per call.
pub fn cpu_matmul_v2<'a, T: Copy, F: Fn(T, T, T) -> T>(
    a: &'a [T],
    b: &'a [T],
    size: usize,
    zero: T,
    step: &'a F,
) -> (r: MatmulIterator<'a, T, F>)
    requires
        a@.len() == size * size,
        b@.len() == size * size,
        is_step(*step),
    ensures
        r.well_formed(),
        r.remaining() == product(*step, zero, a@, b@, size as nat),
{
    let r = MatmulIterator { a, b, zero, step, size, x: 0, y: 0 };
    assert(0 * size == 0);
    assert(r.remaining() =~= product(*step, zero, a@, b@, size as nat));
    r
}

/// A cursor over the product of two matrices that walks both inputs by running
/// offsets instead of recomputing each index: one step along the row of `a`, one
/// row down the column of `b`. Every read is still bounds-checked.
pub struct UnsafeMatmulIterator<'a, T, F> {
    a: &'a [T],
    b: &'a [T],
    zero: T,
    step: &'a F,
    size: usize,
    x: usize,
    y: usize,
}

impl<'a, T: Copy, F: Fn(T, T, T) -> T> UnsafeMatmulIterator<'a, T, F> {
    /// The cursor stands on an entry of the product, or just past the last one.
    pub closed spec fn well_formed(&self) -> bool {
        &&& self.a@.len() == self.size * self.size
        &&& self.b@.len() == self.size * self.size
        &&& is_step(*self.step)
        &&& ((self.y < self.size && self.x < self.size) || (self.y == self.size && self.x == 0))
    }

    /// The entries of the product that are still to come, in order.
    pub closed spec fn remaining(&self) -> Seq<T> {
        product(*self.step, self.zero, self.a@, self.b@, self.size as nat).subrange(
            self.y * self.size + self.x,
            self.size * self.size,
        )
    }

    proof fn lemma_position(&self)
        requires
            self.well_formed(),
        ensures
            0 <= self.y * self.size + self.x <= self.size * self.size,
            self.y < self.size ==> self.y * self.size + self.x < self.size * self.size,
            self.y >= self.size ==> self.y * self.size + self.x == self.size * self.size,
    {
        if self.y < self.size {
            lemma_index(self.size as int, self.y as int, self.x as int);
        } else {
            assert(self.y * self.size + self.x == self.size * self.size);
        }
    }

    /// Returns the next entry of the product, or `None` once all were returned.
    pub fn next(&mut self) -> (r: Option<T>)
        requires
            old(self).well_formed(),
        ensures
            final(self).well_formed(),
            old(self).remaining().len() == 0 ==> r.is_none() && final(self).remaining()
                == old(self).remaining(),
            old(self).remaining().len() > 0 ==> r == Some(old(self).remaining()[0])
                && final(self).remaining() == old(self).remaining().drop_first(),
    {
        proof {
            self.lemma_position();
        }
        if self.y >= self.size {
            return None;
        }
        let ghost before = self.remaining();
        let size = self.size;
        let ghost n = size as int;
        let ghost (y, x) = (self.y as int, self.x as int);
        proof {
            lemma_index(n, y, x);
            lemma_index(n, y, 0);
            assert(y * n + 0 == y * n);
            assert(self.a.len() == self.a@.len());
        }
        let mut a_at: usize = self.y * size;
        let mut b_at: usize = self.x;
        let mut acc = self.zero;
        let mut k: usize = 0;
        while k < size
            invariant
                size == self.size,
                n == size,
                self.well_formed(),
                0 <= y < n,
                0 <= x < n,
                k <= size,
                k < size ==> a_at == y * n + k && b_at == k * n + x,
                acc == dot_prefix(*self.step, self.zero, self.a@, self.b@, n, y, x, k as nat),
            decreases size - k,
        {
            proof {
                lemma_index(n, y, k as int);
                lemma_index(n, k as int, x);
            }
            acc = (self.step)(acc, self.a[a_at], self.b[b_at]);
            if k + 1 < size {
                proof {
                    lemma_index(n, y, k + 1);
                    lemma_index(n, k + 1, x);
                    assert((k + 1) * n == k * n + n) by (nonlinear_arith);
                }
                a_at = a_at + 1;
                b_at = b_at + size;
            }
            k += 1;
        }
        self.x += 1;
        if self.x == self.size {
            self.x = 0;
            self.y += 1;
            assert(self.y * self.size == (self.y - 1) * self.size + self.size) by (nonlinear_arith);
        }
        proof {
            self.lemma_position();
        }
        assert(self.remaining() =~= before.drop_first());
        Some(acc)
    }

    /// Returns all the entries that are still to come, in order.
    pub fn collect_remaining(&mut self) -> (r: Vec<T>)
        requires
            old(self).well_formed(),
        ensures
            final(self).well_formed(),
            r@ == old(self).remaining(),
            final(self).remaining().len() == 0,
    {
        let ghost total = self.remaining();
        let mut out: Vec<T> = Vec::new();
        loop
            invariant
                self.well_formed(),
                out@ + self.remaining() == total,
            ensures
                self.well_formed(),
                out@ == total,
                self.remaining().len() == 0,
            decreases self.remaining().len(),
        {
            match self.next() {
                Some(v) => {
                    out.push(v);
                    assert(out@ + self.remaining() =~= total);
                },
                None => {
                    assert(out@ =~= total);
                    break ;
                },
            }
        }
        out
    }
}

/// The product of `a` and `b` as a cursor that walks the inputs by running offsets.
pub fn cpu_matmul_v3<'a, T: Copy, F: Fn(T, T, T) -> T>(
    a: &'a [T],
    b: &'a [T],
    size: usize,
    zero: T,
    step: &'a F,
) -> (r: UnsafeMatmulIterator<'a, T, F>)
    requires
        a@.len() == size * size,
        b@.len() == size * size,
        is_step(*step),
    ensures
        r.well_formed(),
        r.remaining() == product(*step, zero, a@, b@, size as nat),
{
    let r = UnsafeMatmulIterator { a, b, zero, step, size, x: 0, y: 0 };
    assert(0 * size == 0);
    assert(r.remaining() =~= product(*step, zero, a@, b@, size as nat));
    r
}

/// Product of `a` and `b`, computed into a vector reserved up front.
pub fn cpu_matmul_v4<T: Copy, F: Fn(T, T, T) -> T>(
    a: &[T],
    b: &[T],
    size: usize,
    zero: T,
    step: &F,
) -> (r: Vec<T>)
    requires
        a@.len() == size * size,
        b@.len() == size * size,
        is_step(*step),
    ensures
        r@ == product(*step, zero, a@, b@, size as nat),
{
    let ghost n = size as int;
    let mut results: Vec<T> = Vec::with_capacity(a.len());
    let mut i: usize = 0;
    while i < size
        invariant
            n == size,
            a@.len() == size * size,
            b@.len() == size * size,
            is_step(*step),
            i <= size,
            results@.len() == i * size,
            forall|p: int|
                0 <= p < results@.len() ==> #[trigger] results@[p] == product(
                    *step,
                    zero,
                    a@,
                    b@,
                    size as nat,
                )[p],
        decreases size - i,
    {
        let mut j: usize = 0;
        while j < size
            invariant
                n == size,
                a@.len() == size * size,
                b@.len() == size * size,
                is_step(*step),
                i < size,
                j <= size,
                results@.len() == i * size + j,
                forall|p: int|
                    0 <= p < results@.len() ==> #[trigger] results@[p] == product(
                        *step,
                        zero,
                        a@,
                        b@,
                        size as nat,
                    )[p],
            decreases size - j,
        {
            let mut sum = zero;
            let mut k: usize = 0;
            while k < size
                invariant
                    n == size,
                    a@.len() == size * size,
                    b@.len() == size * size,
                    is_step(*step),
                    i < size,
                    j < size,
                    k <= size,
                    sum == dot_prefix(*step, zero, a@, b@, n, i as int, j as int, k as nat),
                decreases size - k,
            {
                proof {
                    lemma_index(n, i as int, k as int);
                    lemma_index(n, k as int, j as int);
                    assert(j + size * k == k * size + j) by (nonlinear_arith);
                }
                sum = step(sum, a[i * size + k], b[j + size * k]);
                k += 1;
            }
            proof {
                lemma_index(n, i as int, j as int);
            }
            results.push(sum);
            j += 1;
        }
        assert(i * size + size == (i + 1) * size) by (nonlinear_arith);
        i += 1;
    }
    assert(results@ =~= product(*step, zero, a@, b@, size as nat));
    results
}

/// Runs the first three formulations on the same inputs and returns their
/// common result; that they agree is proved, not tested.
pub fn benchmark_cpu_matmuls<T: Copy, F: Fn(T, T, T) -> T>(
    a: &[T],
    b: &[T],
    size: usize,
    zero: T,
    step: &F,
) -> (r: Vec<T>)
    requires
        a@.len() == size * size,
        b@.len() == size * size,
        is_step(*step),
    ensures
        r@ == product(*step, zero, a@, b@, size as nat),
{
    let out_v1 = cpu_matmul_v1(a, b, size, zero, step);
    let mut it_v2 = cpu_matmul_v2(a, b, size, zero, step);
    let out_v2 = it_v2.collect_remaining();
    let mut it_v3 = cpu_matmul_v3(a, b, size, zero, step);
    let out_v3 = it_v3.collect_remaining();
    assert(out_v1@ == out_v2@);
    assert(out_v1@ == out_v3@);
    out_v1
}

/// `zero`, then `plus` applied to each of `values` from left to right.
pub open spec fn sum_of<T, G: Fn(T, T) -> T>(plus: G, zero: T, values: Seq<T>) -> T
    decreases values.len(),
{
    if values.len() == 0 {
        zero
    } else {
        let last = (values.len() - 1) as int;
        choose|r: T| call_ensures(plus, (sum_of(plus, zero, values.take(last)), values[last]), r)
    }
}

/// `plus` accepts every argument and always returns the same value on the same arguments.
pub open spec fn is_sum_step<T, G: Fn(T, T) -> T>(plus: G) -> bool {
    &&& forall|s: T, v: T| #[trigger] call_requires(plus, (s, v))
    &&& forall|s: T, v: T, r1: T, r2: T|
        #[trigger] call_ensures(plus, (s, v), r1) && #[trigger] call_ensures(plus, (s, v), r2) ==> r1
            == r2
}

/// Sum of all elements of a result, used to check that reruns agree.
pub fn checksum<T: Copy, G: Fn(T, T) -> T>(values: &[T], zero: T, plus: &G) -> (r: T)
    requires
        is_sum_step(*plus),
    ensures
        r == sum_of(*plus, zero, values@),
{
    let mut s = zero;
    let mut i: usize = 0;
    while i < values.len()
        invariant
            i <= values@.len(),
            is_sum_step(*plus),
            s == sum_of(*plus, zero, values@.take(i as int)),
        decreases values@.len() - i,
    {
        let ghost prev = s;
        s = plus(s, values[i]);
        proof {
            let next = values@.take(i + 1);
            assert(next.take(i as int) =~= values@.take(i as int));
            assert(next[i as int] == values@[i as int]);
            assert(call_ensures(*plus, (prev, values@[i as int]), s));
        }
        i += 1;
    }
    assert(values@.take(values@.len() as int) =~= values@);
    s
}

} // verus!
