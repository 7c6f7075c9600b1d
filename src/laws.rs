//! Algebraic facts about the CPU reference product.
use crate::kernel::{dot_prefix, lemma_index, product, step_value, sum_of};
use vstd::prelude::*;

verus! {

/// The `n x n` identity matrix over `zero` and `one`, row-major.
pub open spec fn identity<T>(n: nat, zero: T, one: T) -> Seq<T> {
    Seq::new(n * n, |p: int| if p / n as int == p % n as int { one } else { zero })
}

/// The `n x n` matrix whose entries are all `zero`.
pub open spec fn zeros<T>(n: nat, zero: T) -> Seq<T> {
    Seq::new(n * n, |p: int| zero)
}

/// Results that all equal the product of the same inputs agree element for
/// element: the index-computed loop, the cursor and the offset-walking cursor
/// give identical matrices.
pub proof fn lemma_formulations_agree<T, F: Fn(T, T, T) -> T>(
    step: F,
    zero: T,
    a: Seq<T>,
    b: Seq<T>,
    n: nat,
    r1: Seq<T>,
    r2: Seq<T>,
    r3: Seq<T>,
)
    requires
        r1 == product(step, zero, a, b, n),
        r2 == product(step, zero, a, b, n),
        r3 == product(step, zero, a, b, n),
    ensures
        r1.len() == n * n,
        forall|p: int| 0 <= p < n * n ==> #[trigger] r1[p] == r2[p] && r2[p] == r3[p],
{
}

/// Two runs of a formulation on the same inputs have the same checksum.
pub proof fn lemma_checksum_repeatable<T, F: Fn(T, T, T) -> T, G: Fn(T, T) -> T>(
    step: F,
    zero: T,
    a: Seq<T>,
    b: Seq<T>,
    n: nat,
    plus: G,
    first: Seq<T>,
    second: Seq<T>,
)
    requires
        first == product(step, zero, a, b, n),
        second == product(step, zero, a, b, n),
    ensures
        sum_of(plus, zero, first) == sum_of(plus, zero, second),
{
}

proof fn lemma_identity_prefix<T, F: Fn(T, T, T) -> T>(
    step: F,
    zero: T,
    one: T,
    x: Seq<T>,
    n: nat,
    i: int,
    j: int,
    count: nat,
)
    requires
        0 <= i < n,
        0 <= j < n,
        count <= n,
        forall|acc: T, y: T| #[trigger] step_value(step, acc, zero, y) == acc,
        forall|y: T| #[trigger] step_value(step, zero, one, y) == y,
    ensures
        dot_prefix(step, zero, identity(n, zero, one), x, n as int, i, j, count) == if count
            <= i {
            zero
        } else {
            x[i * n + j]
        },
    decreases count,
{
    if count > 0 {
        let k = count - 1;
        lemma_identity_prefix(step, zero, one, x, n, i, j, k as nat);
        lemma_index(n as int, i, k);
        let m = identity(n, zero, one);
        assert(m[i * n + k] == if i == k {
            one
        } else {
            zero
        });
    }
}

/// Multiplying by the identity on the left gives back the other factor, for a
/// step that keeps the accumulator on a `zero` factor and turns `zero + one * y`
/// into `y`.
pub proof fn lemma_identity_left<T, F: Fn(T, T, T) -> T>(
    step: F,
    zero: T,
    one: T,
    x: Seq<T>,
    n: nat,
)
    requires
        x.len() == n * n,
        forall|acc: T, y: T| #[trigger] step_value(step, acc, zero, y) == acc,
        forall|y: T| #[trigger] step_value(step, zero, one, y) == y,
    ensures
        product(step, zero, identity(n, zero, one), x, n) == x,
{
    let r = product(step, zero, identity(n, zero, one), x, n);
    assert forall|p: int| 0 <= p < n * n implies #[trigger] r[p] == x[p] by {
        let i = p / n as int;
        let j = p % n as int;
        assert(0 <= i < n && 0 <= j < n && p == i * n + j) by (nonlinear_arith)
            requires
                0 <= p < n * n,
                i == p / n as int,
                j == p % n as int,
        ;
        lemma_identity_prefix(step, zero, one, x, n, i, j, n);
    }
    assert(r =~= x);
}

proof fn lemma_zero_prefix<T, F: Fn(T, T, T) -> T>(
    step: F,
    zero: T,
    x: Seq<T>,
    n: nat,
    i: int,
    j: int,
    count: nat,
)
    requires
        0 <= i < n,
        count <= n,
        forall|y: T| #[trigger] step_value(step, zero, zero, y) == zero,
    ensures
        dot_prefix(step, zero, zeros(n, zero), x, n as int, i, j, count) == zero,
    decreases count,
{
    if count > 0 {
        let k = count - 1;
        lemma_zero_prefix(step, zero, x, n, i, j, k as nat);
        lemma_index(n as int, i, k);
    }
}

/// Multiplying the all-`zero` matrix by any matrix gives the all-`zero` matrix,
/// for a step that keeps a `zero` accumulator at `zero` on a `zero` factor.
pub proof fn lemma_zero_left<T, F: Fn(T, T, T) -> T>(step: F, zero: T, x: Seq<T>, n: nat)
    requires
        x.len() == n * n,
        forall|y: T| #[trigger] step_value(step, zero, zero, y) == zero,
    ensures
        product(step, zero, zeros(n, zero), x, n) == zeros(n, zero),
{
    let r = product(step, zero, zeros(n, zero), x, n);
    assert forall|p: int| 0 <= p < n * n implies #[trigger] r[p] == zero by {
        let i = p / n as int;
        let j = p % n as int;
        assert(0 <= i < n) by (nonlinear_arith)
            requires
                0 <= p < n * n,
                i == p / n as int,
        ;
        lemma_zero_prefix(step, zero, x, n, i, j, n);
    }
    assert(r =~= zeros(n, zero));
}

} // verus!
